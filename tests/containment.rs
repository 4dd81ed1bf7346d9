use cell_containment::geometry::{is_point_in_convex_polygon, PlanarPoint};

fn pt(x: i32, y: i32) -> PlanarPoint {
    PlanarPoint::new(x, y)
}

fn square(side: i32) -> Vec<PlanarPoint> {
    vec![pt(0, 0), pt(side, 0), pt(side, side), pt(0, side)]
}

#[test]
fn square_center_is_inside() {
    assert!(is_point_in_convex_polygon(&pt(5, 5), &square(10), 0));
}

#[test]
fn square_far_right_is_outside() {
    assert!(!is_point_in_convex_polygon(&pt(15, 5), &square(10), 0));
}

#[test]
fn square_point_on_edge_is_inside() {
    assert!(is_point_in_convex_polygon(&pt(0, 5), &square(10), 0));
}

#[test]
fn square_vertex_is_inside() {
    assert!(is_point_in_convex_polygon(&pt(10, 10), &square(10), 0));
}

// Lengths in tenths: the square is 10 by 10, the point is (-0.5, 5). Its cross
// product against the left edge is -5 square units.
#[test]
fn half_unit_left_needs_tolerance_of_five() {
    let sq = square(100);
    assert!(!is_point_in_convex_polygon(&pt(-5, 50), &sq, 100));
    assert!(is_point_in_convex_polygon(&pt(-5, 50), &sq, 500));
    assert!(!is_point_in_convex_polygon(&pt(-5, 50), &sq, 499));
}

#[test]
fn two_units_left_is_outside_with_unit_tolerance() {
    let sq = square(100);
    assert!(!is_point_in_convex_polygon(&pt(-20, 50), &sq, 100));
}

#[test]
fn tolerance_is_compared_against_twice_the_area() {
    // Point (-1, 5) against the left edge of a 10-square: cross product -10.
    assert!(!is_point_in_convex_polygon(&pt(-1, 5), &square(10), 9));
    assert!(is_point_in_convex_polygon(&pt(-1, 5), &square(10), 10));
}

#[test]
fn empty_polygon_contains_nothing() {
    assert!(!is_point_in_convex_polygon(&pt(0, 0), &[], 1000));
}

#[test]
fn two_vertices_contain_nothing() {
    let seg = vec![pt(0, 0), pt(10, 0)];
    assert!(!is_point_in_convex_polygon(&pt(5, 0), &seg, 1000));
    assert!(!is_point_in_convex_polygon(&pt(0, 0), &seg, 0));
}

#[test]
fn triangle_membership() {
    let tri = vec![pt(0, 0), pt(10, 0), pt(0, 10)];
    assert!(is_point_in_convex_polygon(&pt(2, 2), &tri, 0));
    assert!(is_point_in_convex_polygon(&pt(5, 5), &tri, 0));
    assert!(!is_point_in_convex_polygon(&pt(6, 6), &tri, 0));
    assert!(is_point_in_convex_polygon(&pt(6, 6), &tri, 20));
}

#[test]
fn collinear_vertices_run_without_special_case() {
    let flat = vec![pt(0, 0), pt(5, 0), pt(10, 0)];
    assert!(is_point_in_convex_polygon(&pt(3, 0), &flat, 0));
    assert!(!is_point_in_convex_polygon(&pt(3, 1), &flat, 0));
}

#[test]
fn clockwise_square_rejects_its_center() {
    let cw = vec![pt(0, 0), pt(0, 10), pt(10, 10), pt(10, 0)];
    assert!(!is_point_in_convex_polygon(&pt(5, 5), &cw, 0));
}

#[test]
fn rotated_vertex_lists_agree() {
    let sq = square(10);
    let probes = [pt(5, 5), pt(15, 5), pt(0, 5), pt(-1, 5), pt(10, 11)];
    for k in 0..sq.len() {
        let mut rot: Vec<PlanarPoint> = sq[k..].to_vec();
        rot.extend_from_slice(&sq[..k]);
        for p in probes.iter() {
            for eps in [0u64, 5, 10, 100] {
                assert_eq!(
                    is_point_in_convex_polygon(p, &rot, eps),
                    is_point_in_convex_polygon(p, &sq, eps)
                );
            }
        }
    }
}

#[test]
fn larger_tolerance_never_rejects_more() {
    let sq = square(10);
    let probes = [pt(5, 5), pt(-1, 5), pt(-3, -3), pt(12, 5), pt(0, 0)];
    for p in probes.iter() {
        let mut seen_inside = false;
        for eps in 0u64..200 {
            let inside = is_point_in_convex_polygon(p, &sq, eps);
            assert!(!seen_inside || inside);
            seen_inside = inside;
        }
    }
}

#[test]
fn extreme_coordinates_do_not_overflow() {
    let big = vec![
        pt(i32::MIN, i32::MIN),
        pt(i32::MAX, i32::MIN),
        pt(i32::MAX, i32::MAX),
        pt(i32::MIN, i32::MAX),
    ];
    assert!(is_point_in_convex_polygon(&pt(0, 0), &big, 0));
    assert!(is_point_in_convex_polygon(&pt(i32::MIN, 0), &big, 0));
    assert!(is_point_in_convex_polygon(&pt(0, 0), &big, u64::MAX));
}

#[test]
fn web_mercator_hexagon_in_centimeters() {
    // A small hexagon about the origin, 10 m across, counter-clockwise.
    let hex = vec![
        pt(500, 0),
        pt(250, 433),
        pt(-250, 433),
        pt(-500, 0),
        pt(-250, -433),
        pt(250, -433),
    ];
    assert!(is_point_in_convex_polygon(&pt(0, 0), &hex, 0));
    assert!(is_point_in_convex_polygon(&pt(499, 0), &hex, 0));
    assert!(!is_point_in_convex_polygon(&pt(0, 500), &hex, 15000));
}

#[test]
fn weighted_averages_of_vertices_are_inside() {
    let hex = vec![
        pt(500, 0),
        pt(250, 433),
        pt(-250, 433),
        pt(-500, 0),
        pt(-250, -433),
        pt(250, -433),
    ];
    let weights: [[i64; 6]; 4] = [
        [1, 1, 1, 1, 1, 1],
        [1, 0, 0, 0, 0, 0],
        [0, 1, 0, 0, 0, 1],
        [2, 1, 0, 0, 0, 1],
    ];
    for w in weights.iter() {
        let total: i64 = w.iter().sum();
        let sx: i64 = w.iter().zip(hex.iter()).map(|(c, v)| c * i64::from(v.x)).sum();
        let sy: i64 = w.iter().zip(hex.iter()).map(|(c, v)| c * i64::from(v.y)).sum();
        assert!(sx % total == 0 && sy % total == 0);
        let p = pt((sx / total) as i32, (sy / total) as i32);
        assert!(is_point_in_convex_polygon(&p, &hex, 0));
    }
}
