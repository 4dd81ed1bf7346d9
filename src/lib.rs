//! Point-in-cell containment on a planar grid: a tolerant half-plane test for
//! convex, counter-clockwise polygons, and the grid-cell boundary lookup that
//! feeds it.
pub mod cell;
pub mod geometry;
