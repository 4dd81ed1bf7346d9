//! Grid cells: reading a cell identifier and fetching the cell's boundary.
use h3o::error::InvalidCellIndex;
use h3o::{CellIndex, LatLng};
use vstd::prelude::*;

verus! {

#[verifier::external_type_specification]
#[verifier::external_body]
pub struct ExCellIndex(CellIndex);

#[verifier::external_type_specification]
#[verifier::external_body]
pub struct ExLatLng(LatLng);

#[verifier::external_type_specification]
#[verifier::external_body]
pub struct ExInvalidCellIndex(InvalidCellIndex);

/// A cell identifier that does not name a grid cell.
#[derive(Clone, Copy, Debug, PartialEq, Eq, Structural)]
pub struct ParseError;

/// Whether the text is a valid grid cell index written as a hexadecimal
/// number (as `u64::from_str_radix` reads it, so a leading `+` is allowed).
pub uninterp spec fn is_cell_id(s: Seq<char>) -> bool;

/// Relies on `CellIndex::from_str` (h3o): it succeeds exactly on text that
/// `u64::from_str_radix(s, 16)` reads as a valid cell index, a property of
/// the text alone.
#[verifier::external_body]
fn parse_cell_index(s: &str) -> (r: Result<CellIndex, InvalidCellIndex>)
    ensures
        r is Ok <==> is_cell_id(s@),
{
    s.parse::<CellIndex>()
}

/// Relies on `CellIndex::boundary` (h3o): the vertices of the cell in order,
/// five for a pentagon or six for a hexagon, plus any vertices where an edge
/// crosses an icosahedron edge, and at most ten (the capacity of `Boundary`).
#[verifier::external_body]
fn cell_boundary(cell: CellIndex) -> (r: Vec<LatLng>)
    ensures
        5 <= r@.len() <= 10,
{
    cell.boundary().to_vec()
}

/// Reads a cell identifier and returns the geographic vertices of the cell's
/// boundary in the grid's winding order, without a closing duplicate: five to
/// ten of them.
/// Fails exactly when the identifier names no cell.
pub fn convert_h3_to_lat_lon(h3_cell_str: &str) -> (r: Result<Vec<LatLng>, ParseError>)
    ensures
        r is Ok <==> is_cell_id(h3_cell_str@),
        r matches Ok(v) ==> 5 <= v@.len() <= 10,
{
    match parse_cell_index(h3_cell_str) {
        Ok(cell) => Ok(cell_boundary(cell)),
        Err(_) => Err(ParseError),
    }
}

} // verus!
