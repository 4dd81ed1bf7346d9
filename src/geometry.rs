//! Planar points and the tolerant point-in-convex-polygon test.
use vstd::arithmetic::div_mod::{lemma_mod_add_multiples_vanish, lemma_small_mod};
use vstd::arithmetic::mul::lemma_mul_is_distributive_sub;
use vstd::prelude::*;

verus! {

/// A point of the plane, in one fixed integer unit of length
/// (for instance centimeters of a Web-Mercator projection).
#[derive(Clone, Copy, Debug, PartialEq, Eq, Structural)]
pub struct PlanarPoint {
    pub x: i32,
    pub y: i32,
}

impl PlanarPoint {
    pub fn new(x: i32, y: i32) -> (r: PlanarPoint)
        ensures
            r.x == x,
            r.y == y,
    {
        PlanarPoint { x, y }
    }
}

/// Twice the signed area of the triangle (a, b, p): positive when p lies to
/// the left of the directed line from a to b, zero when the three are collinear.
pub open spec fn cross(a: PlanarPoint, b: PlanarPoint, p: PlanarPoint) -> int {
    (b.x - a.x) * (p.y - a.y) - (b.y - a.y) * (p.x - a.x)
}

/// The cross product of `p` against edge `i` of `poly`, which runs from vertex
/// `i` to vertex `(i + 1) mod n`.
pub open spec fn edge_cross(poly: Seq<PlanarPoint>, i: int, p: PlanarPoint) -> int {
    cross(poly[i], poly[(i + 1) % (poly.len() as int)], p)
}

/// `p` is inside `poly` up to the tolerance `eps`: the polygon has at least
/// three vertices and no edge has `p` on its right side by more than `eps`.
pub open spec fn inside_within(poly: Seq<PlanarPoint>, p: PlanarPoint, eps: int) -> bool {
    &&& poly.len() >= 3
    &&& forall|i: int| 0 <= i < poly.len() ==> #[trigger] edge_cross(poly, i, p) >= -eps
}

/// At least three vertices, each lying to the left of, or on, every edge: a
/// convex polygon wound counter-clockwise.
pub open spec fn convex_ccw(poly: Seq<PlanarPoint>) -> bool {
    &&& poly.len() >= 3
    &&& forall|i: int, j: int|
        0 <= i < poly.len() && 0 <= j < poly.len() ==> #[trigger] edge_cross(poly, i, poly[j])
            >= 0
}

/// `p` lies strictly left of every edge of `poly`: in its interior.
pub open spec fn strictly_inside(poly: Seq<PlanarPoint>, p: PlanarPoint) -> bool {
    forall|i: int| 0 <= i < poly.len() ==> #[trigger] edge_cross(poly, i, p) > 0
}

/// `p` lies to the right of some edge of `poly` by more than `eps`.
pub open spec fn outside_beyond(poly: Seq<PlanarPoint>, p: PlanarPoint, eps: int) -> bool {
    exists|i: int| 0 <= i < poly.len() && #[trigger] edge_cross(poly, i, p) < -eps
}

/// `p` lies on edge `k` of `poly` and on no edge's right side.
pub open spec fn on_boundary_edge(poly: Seq<PlanarPoint>, p: PlanarPoint, k: int) -> bool {
    &&& 0 <= k < poly.len()
    &&& edge_cross(poly, k, p) == 0
    &&& forall|i: int| 0 <= i < poly.len() ==> #[trigger] edge_cross(poly, i, p) >= 0
}

/// The vertex list of `poly` started at vertex `k` instead of vertex 0.
pub open spec fn rotate_left(poly: Seq<PlanarPoint>, k: int) -> Seq<PlanarPoint> {
    poly.subrange(k, poly.len() as int) + poly.subrange(0, k)
}

/// Decides whether `point` lies inside the convex, counter-clockwise polygon
/// `polygon_vertices`, letting the point stand right of an edge by at most
/// `epsilon` (a bound on the cross product, so in squared units). A polygon of
/// fewer than three vertices contains nothing.
pub fn is_point_in_convex_polygon(
    point: &PlanarPoint,
    polygon_vertices: &[PlanarPoint],
    epsilon: u64,
) -> (r: bool)
    ensures
        r == inside_within(polygon_vertices@, *point, epsilon as int),
{
    let num_vertices = polygon_vertices.len();
    if num_vertices < 3 {
        return false;
    }
    let px = point.x as i128;
    let py = point.y as i128;
    let eps = epsilon as i128;
    let mut i: usize = 0;
    while i < num_vertices
        invariant
            num_vertices == polygon_vertices@.len(),
            num_vertices >= 3,
            i <= num_vertices,
            px == point.x,
            py == point.y,
            eps == epsilon,
            forall|j: int| 0 <= j < i ==> #[trigger] edge_cross(polygon_vertices@, j, *point) >= -eps,
        decreases num_vertices - i,
    {
        let p1 = polygon_vertices[i];
        let p2 = polygon_vertices[(i + 1) % num_vertices];
        let ex = p2.x as i128 - p1.x as i128;
        let ey = p2.y as i128 - p1.y as i128;
        let dx = px - p1.x as i128;
        let dy = py - p1.y as i128;
        assert(-0x1_0000_0000 * 0x1_0000_0000 <= ex * dy <= 0x1_0000_0000 * 0x1_0000_0000) by (nonlinear_arith)
            requires
                -0x1_0000_0000 <= ex <= 0x1_0000_0000,
                -0x1_0000_0000 <= dy <= 0x1_0000_0000,
        ;
        assert(-0x1_0000_0000 * 0x1_0000_0000 <= ey * dx <= 0x1_0000_0000 * 0x1_0000_0000) by (nonlinear_arith)
            requires
                -0x1_0000_0000 <= ey <= 0x1_0000_0000,
                -0x1_0000_0000 <= dx <= 0x1_0000_0000,
        ;
        let d = ex * dy - ey * dx;
        assert(d == edge_cross(polygon_vertices@, i as int, *point));
        if d < -eps {
            return false;
        }
        i += 1;
    }
    true
}

/// A point in the interior of a convex counter-clockwise polygon is found
/// inside with no tolerance at all.
pub proof fn lemma_interior_is_inside(poly: Seq<PlanarPoint>, p: PlanarPoint)
    requires
        convex_ccw(poly),
        strictly_inside(poly, p),
    ensures
        inside_within(poly, p, 0),
{
    assert forall|i: int| 0 <= i < poly.len() implies #[trigger] edge_cross(poly, i, p) >= 0 by {
        assert(edge_cross(poly, i, p) > 0);
    }
}

/// A point outside a convex counter-clockwise polygon by more than the
/// tolerance, across some edge, is found outside.
pub proof fn lemma_far_outside_is_outside(poly: Seq<PlanarPoint>, p: PlanarPoint, eps: int)
    requires
        convex_ccw(poly),
        eps >= 0,
        outside_beyond(poly, p, eps),
    ensures
        !inside_within(poly, p, eps),
{
    let i = choose|i: int| 0 <= i < poly.len() && #[trigger] edge_cross(poly, i, p) < -eps;
    assert(edge_cross(poly, i, p) < -eps);
}

/// Widening the tolerance never turns an inside point outside.
pub proof fn lemma_tolerance_monotone(
    poly: Seq<PlanarPoint>,
    p: PlanarPoint,
    eps1: int,
    eps2: int,
)
    requires
        0 <= eps1 <= eps2,
        inside_within(poly, p, eps1),
    ensures
        inside_within(poly, p, eps2),
{
    assert forall|i: int| 0 <= i < poly.len() implies #[trigger] edge_cross(poly, i, p)
        >= -eps2 by {
        assert(edge_cross(poly, i, p) >= -eps1);
    }
}

/// A vertex list of fewer than three points contains nothing, whatever the
/// tolerance.
pub proof fn lemma_degenerate_contains_nothing(poly: Seq<PlanarPoint>, p: PlanarPoint, eps: int)
    requires
        poly.len() < 3,
    ensures
        !inside_within(poly, p, eps),
{
}

/// A point on an edge, and on no edge's right side, is inside for every
/// tolerance.
pub proof fn lemma_boundary_is_inside(poly: Seq<PlanarPoint>, p: PlanarPoint, k: int, eps: int)
    requires
        poly.len() >= 3,
        on_boundary_edge(poly, p, k),
        eps >= 0,
    ensures
        inside_within(poly, p, eps),
{
    assert forall|i: int| 0 <= i < poly.len() implies #[trigger] edge_cross(poly, i, p)
        >= -eps by {
        assert(edge_cross(poly, i, p) >= 0);
    }
}

/// Sum of the first `w.len()` weights.
pub open spec fn weight_total(w: Seq<int>) -> int
    decreases w.len(),
{
    if w.len() == 0 {
        0
    } else {
        weight_total(w.drop_last()) + w.last()
    }
}

/// Sum of `w[i] * poly[i].x` over the indices of `w`.
pub open spec fn weighted_x(w: Seq<int>, poly: Seq<PlanarPoint>) -> int
    decreases w.len(),
{
    if w.len() == 0 {
        0
    } else {
        weighted_x(w.drop_last(), poly) + w.last() * poly[w.len() - 1].x
    }
}

/// Sum of `w[i] * poly[i].y` over the indices of `w`.
pub open spec fn weighted_y(w: Seq<int>, poly: Seq<PlanarPoint>) -> int
    decreases w.len(),
{
    if w.len() == 0 {
        0
    } else {
        weighted_y(w.drop_last(), poly) + w.last() * poly[w.len() - 1].y
    }
}

/// `p` is the average of the vertices of `poly` under the non-negative
/// weights `w` (one per vertex, not all zero): a point of the convex hull.
pub open spec fn weighted_average_of(w: Seq<int>, poly: Seq<PlanarPoint>, p: PlanarPoint) -> bool {
    &&& w.len() == poly.len()
    &&& forall|i: int| 0 <= i < w.len() ==> #[trigger] w[i] >= 0
    &&& weight_total(w) > 0
    &&& weight_total(w) * p.x == weighted_x(w, poly)
    &&& weight_total(w) * p.y == weighted_y(w, poly)
}

/// Sum of `w[i] * cross(a, b, poly[i])` over the indices of `w`.
spec fn weighted_cross(w: Seq<int>, poly: Seq<PlanarPoint>, a: PlanarPoint, b: PlanarPoint) -> int
    decreases w.len(),
{
    if w.len() == 0 {
        0
    } else {
        weighted_cross(w.drop_last(), poly, a, b) + w.last() * cross(a, b, poly[w.len() - 1])
    }
}

proof fn lemma_add_one_term(e: int, s: int, c: int, d: int)
    ensures
        e * (s + c * d) == e * s + c * (e * d),
{
    assert(e * (s + c * d) == e * s + c * (e * d)) by (nonlinear_arith);
}

proof fn lemma_shifted_sum(s: int, t: int, c: int, q: int, a: int)
    ensures
        s + c * q - (t + c) * a == (s - t * a) + c * (q - a),
{
    assert(s + c * q - (t + c) * a == (s - t * a) + c * (q - a)) by (nonlinear_arith);
}

proof fn lemma_scaled_cross(t: int, ex: int, ey: int, dx: int, dy: int)
    ensures
        t * (ex * dy - ey * dx) == ex * (t * dy) - ey * (t * dx),
{
    assert(t * (ex * dy - ey * dx) == ex * (t * dy) - ey * (t * dx)) by (nonlinear_arith);
}

proof fn lemma_cross_step(
    ex: int,
    ey: int,
    sx: int,
    sy: int,
    t: int,
    c: int,
    qx: int,
    qy: int,
    ax: int,
    ay: int,
)
    ensures
        ex * ((sy + c * qy) - (t + c) * ay) - ey * ((sx + c * qx) - (t + c) * ax) == (ex * (sy - t
            * ay) - ey * (sx - t * ax)) + c * (ex * (qy - ay) - ey * (qx - ax)),
{
    lemma_shifted_sum(sy, t, c, qy, ay);
    lemma_shifted_sum(sx, t, c, qx, ax);
    lemma_add_one_term(ex, sy - t * ay, c, qy - ay);
    lemma_add_one_term(ey, sx - t * ax, c, qx - ax);
    lemma_mul_is_distributive_sub(c, ex * (qy - ay), ey * (qx - ax));
}

proof fn lemma_weighted_cross_linear(
    w: Seq<int>,
    poly: Seq<PlanarPoint>,
    a: PlanarPoint,
    b: PlanarPoint,
)
    ensures
        weighted_cross(w, poly, a, b) == (b.x - a.x) * (weighted_y(w, poly) - weight_total(w) * a.y)
            - (b.y - a.y) * (weighted_x(w, poly) - weight_total(w) * a.x),
    decreases w.len(),
{
    if w.len() > 0 {
        let v = w.drop_last();
        lemma_weighted_cross_linear(v, poly, a, b);
        let q = poly[w.len() - 1];
        let c = w.last();
        assert(weighted_y(w, poly) == weighted_y(v, poly) + c * q.y);
        assert(weighted_x(w, poly) == weighted_x(v, poly) + c * q.x);
        assert(weight_total(w) == weight_total(v) + c);
        lemma_cross_step(
            b.x - a.x,
            b.y - a.y,
            weighted_x(v, poly),
            weighted_y(v, poly),
            weight_total(v),
            c,
            q.x as int,
            q.y as int,
            a.x as int,
            a.y as int,
        );
        assert(weighted_cross(w, poly, a, b) == weighted_cross(v, poly, a, b) + c * cross(a, b, q));
        assert(weighted_cross(w, poly, a, b) == (b.x - a.x) * ((weighted_y(v, poly) + c * q.y) - (
        weight_total(v) + c) * a.y) - (b.y - a.y) * ((weighted_x(v, poly) + c * q.x) - (
        weight_total(v) + c) * a.x));
    } else {
        assert(weight_total(w) * a.y == 0 && weight_total(w) * a.x == 0);
        assert((b.x - a.x) * 0 == 0 && (b.y - a.y) * 0 == 0);
    }
}

proof fn lemma_weighted_cross_nonneg(
    w: Seq<int>,
    poly: Seq<PlanarPoint>,
    a: PlanarPoint,
    b: PlanarPoint,
)
    requires
        w.len() <= poly.len(),
        forall|i: int| 0 <= i < w.len() ==> #[trigger] w[i] >= 0,
        forall|i: int| 0 <= i < w.len() ==> #[trigger] cross(a, b, poly[i]) >= 0,
    ensures
        weighted_cross(w, poly, a, b) >= 0,
    decreases w.len(),
{
    if w.len() > 0 {
        let v = w.drop_last();
        assert forall|i: int| 0 <= i < v.len() implies #[trigger] v[i] >= 0 by {
            assert(v[i] == w[i]);
        }
        assert forall|i: int| 0 <= i < v.len() implies #[trigger] cross(a, b, poly[i]) >= 0 by {
            assert(cross(a, b, poly[i]) >= 0);
        }
        lemma_weighted_cross_nonneg(v, poly, a, b);
        let c = w.last();
        let k = cross(a, b, poly[w.len() - 1]);
        assert(w[w.len() - 1] >= 0);
        assert(c * k >= 0) by (nonlinear_arith)
            requires
                c >= 0,
                k >= 0,
        ;
    }
}

/// Every point of the convex hull of a convex counter-clockwise polygon,
/// interior and boundary alike, is found inside with no tolerance at all.
pub proof fn lemma_hull_point_is_inside(w: Seq<int>, poly: Seq<PlanarPoint>, p: PlanarPoint)
    requires
        convex_ccw(poly),
        weighted_average_of(w, poly, p),
    ensures
        inside_within(poly, p, 0),
{
    let n = poly.len() as int;
    assert forall|i: int| 0 <= i < n implies #[trigger] edge_cross(poly, i, p) >= 0 by {
        let a = poly[i];
        let b = poly[(i + 1) % n];
        assert forall|j: int| 0 <= j < w.len() implies #[trigger] cross(a, b, poly[j]) >= 0 by {
            assert(edge_cross(poly, i, poly[j]) >= 0);
        }
        lemma_weighted_cross_nonneg(w, poly, a, b);
        lemma_weighted_cross_linear(w, poly, a, b);
        let t = weight_total(w);
        let k = cross(a, b, p);
        lemma_scaled_cross(t, b.x - a.x, b.y - a.y, p.x - a.x, p.y - a.y);
        assert(t * k == (b.x - a.x) * (t * p.y - t * a.y) - (b.y - a.y) * (t * p.x - t * a.x)) by {
            lemma_mul_is_distributive_sub(t, p.y as int, a.y as int);
            lemma_mul_is_distributive_sub(t, p.x as int, a.x as int);
        }
        assert(k >= 0) by (nonlinear_arith)
            requires
                t > 0,
                t * k >= 0,
        ;
    }
}

proof fn lemma_wrap(x: int, n: int)
    requires
        0 < n,
        0 <= x < 2 * n,
    ensures
        x % n == if x < n { x } else { x - n },
{
    if x < n {
        lemma_small_mod(x as nat, n as nat);
    } else {
        lemma_mod_add_multiples_vanish(x - n, n);
        lemma_small_mod((x - n) as nat, n as nat);
    }
}

/// Edge `i` of the rotated list is edge `(i + k) mod n` of the unrotated list.
proof fn lemma_rotated_edge(poly: Seq<PlanarPoint>, k: int, i: int, p: PlanarPoint)
    requires
        poly.len() >= 1,
        0 <= k <= poly.len(),
        0 <= i < poly.len(),
    ensures
        rotate_left(poly, k).len() == poly.len(),
        0 <= (i + k) % (poly.len() as int) < poly.len(),
        edge_cross(rotate_left(poly, k), i, p) == edge_cross(poly, (i + k) % (poly.len() as int), p),
{
    let n = poly.len() as int;
    let r = rotate_left(poly, k);
    assert(r.len() == n);
    assert forall|m: int| 0 <= m < n implies #[trigger] r[m] == poly[(m + k) % n] by {
        lemma_wrap(m + k, n);
    }
    let j = (i + k) % n;
    lemma_wrap(i + k, n);
    lemma_wrap(i + 1, n);
    let i1 = (i + 1) % n;
    lemma_wrap(i1 + k, n);
    lemma_wrap(j + 1, n);
    lemma_wrap(k, n);
    assert((i1 + k) % n == (j + 1) % n);
    assert(r[i] == poly[j]);
    assert(r[i1] == poly[(j + 1) % n]);
}

/// Starting the vertex list at any other vertex leaves the answer unchanged.
pub proof fn lemma_rotation_invariant(poly: Seq<PlanarPoint>, p: PlanarPoint, eps: int, k: int)
    requires
        0 <= k <= poly.len(),
    ensures
        inside_within(rotate_left(poly, k), p, eps) == inside_within(poly, p, eps),
{
    let n = poly.len() as int;
    let r = rotate_left(poly, k);
    assert(r.len() == n);
    if n >= 3 {
        if inside_within(poly, p, eps) {
            assert forall|i: int| 0 <= i < n implies #[trigger] edge_cross(r, i, p) >= -eps by {
                lemma_rotated_edge(poly, k, i, p);
            }
        }
        if inside_within(r, p, eps) {
            assert forall|j: int| 0 <= j < n implies #[trigger] edge_cross(poly, j, p) >= -eps by {
                let i = if j >= k { j - k } else { j - k + n };
                lemma_rotated_edge(poly, k, i, p);
                lemma_wrap(i + k, n);
                assert(edge_cross(r, i, p) >= -eps);
            }
        }
    }
}

} // verus!
