use vstd::prelude::*;

verus! {

/// Coordinate access for anything the triangulator can run over, in the
/// crate's signed fixed-point scale (`crate::UNIT` raw steps per unit).
pub trait TriangulationPoint {
    /// Mathematical x coordinate of this point.
    spec fn sx(&self) -> int;

    /// Mathematical y coordinate of this point.
    spec fn sy(&self) -> int;

    fn x(&self) -> (r: i64)
        ensures
            r as int == self.sx(),
    ;

    fn y(&self) -> (r: i64)
        ensures
            r as int == self.sy(),
    ;
}

/// An unordered pair of point indices.
#[derive(Debug, Clone, Copy)]
pub struct Edge(pub usize, pub usize);

/// An unordered triple of point indices.
#[derive(Debug, Clone, Copy)]
pub struct Triangle(pub usize, pub usize, pub usize);

/// Two edges are equal when the same two indices appear in either order.
pub open spec fn edge_eq(a: Edge, b: Edge) -> bool {
    ||| (a.0 == b.0 && a.1 == b.1)
    ||| (a.0 == b.1 && a.1 == b.0)
}

/// Two triangles are equal when the same three indices appear under any
/// rotation or reflection.
pub open spec fn tri_eq(a: Triangle, b: Triangle) -> bool {
    ||| (a.0 == b.0 && a.1 == b.1 && a.2 == b.2)
    ||| (a.0 == b.0 && a.1 == b.2 && a.2 == b.1)
    ||| (a.0 == b.1 && a.1 == b.0 && a.2 == b.2)
    ||| (a.0 == b.1 && a.1 == b.2 && a.2 == b.0)
    ||| (a.0 == b.2 && a.1 == b.0 && a.2 == b.1)
    ||| (a.0 == b.2 && a.1 == b.1 && a.2 == b.0)
}

impl PartialEq for Edge {
    fn eq(&self, other: &Self) -> (r: bool) {
        (self.0 == other.0 && self.1 == other.1) || (self.0 == other.1 && self.1 == other.0)
    }
}

impl vstd::std_specs::cmp::PartialEqSpecImpl for Edge {
    open spec fn obeys_eq_spec() -> bool {
        true
    }

    open spec fn eq_spec(&self, other: &Edge) -> bool {
        edge_eq(*self, *other)
    }
}

impl PartialEq for Triangle {
    fn eq(&self, other: &Self) -> (r: bool) {
        (self.0 == other.0 && self.1 == other.1 && self.2 == other.2)
            || (self.0 == other.0 && self.1 == other.2 && self.2 == other.1)
            || (self.0 == other.1 && self.1 == other.0 && self.2 == other.2)
            || (self.0 == other.1 && self.1 == other.2 && self.2 == other.0)
            || (self.0 == other.2 && self.1 == other.0 && self.2 == other.1)
            || (self.0 == other.2 && self.1 == other.1 && self.2 == other.0)
    }
}

impl vstd::std_specs::cmp::PartialEqSpecImpl for Triangle {
    open spec fn obeys_eq_spec() -> bool {
        true
    }

    open spec fn eq_spec(&self, other: &Triangle) -> bool {
        tri_eq(*self, *other)
    }
}

/// Largest coordinate magnitude the triangulator accepts; keeps the exact
/// circumcircle arithmetic, whose terms are degree-four products of
/// coordinates, inside `i128`.
pub const COORD_LIMIT: i64 = 268435456;

/// The in-circumcircle test of the circumcircle of (a, b, c) against query
/// point p, written without division.
///
/// The circumcircle centre is the rational point (sx / d, sy / d); p lies in
/// or on the circle when the squared distance from the centre to p is at most
/// the squared distance from the centre to a (the squared radius). Clearing
/// the common sx^2 + sy^2 terms and multiplying through by d gives the two
/// branches below. A degenerate triple (two coincident vertices, or three
/// collinear ones) has d == 0 and no circumcircle; the test then reports
/// false, which makes the degenerate case explicit instead of dividing by
/// zero.
pub open spec fn in_circumcircle_s(p: (int, int), a: (int, int), b: (int, int), c: (int, int)) -> bool {
    let a2 = a.0 * a.0 + a.1 * a.1;
    let b2 = b.0 * b.0 + b.1 * b.1;
    let c2 = c.0 * c.0 + c.1 * c.1;
    let d = 2 * (a.0 * (b.1 - c.1) + b.0 * (c.1 - a.1) + c.0 * (a.1 - b.1));
    let sx = a2 * (b.1 - c.1) + b2 * (c.1 - a.1) + c2 * (a.1 - b.1);
    let sy = a2 * (c.0 - b.0) + b2 * (a.0 - c.0) + c2 * (b.0 - a.0);
    let lhs = 2 * (sx * (a.0 - p.0) + sy * (a.1 - p.1));
    let rhs = d * (a2 - p.0 * p.0 - p.1 * p.1);
    if d > 0 {
        lhs <= rhs
    } else if d < 0 {
        lhs >= rhs
    } else {
        false
    }
}

pub(crate) proof fn lemma_mul_bounds(a: int, b: int, aa: int, bb: int)
    by (nonlinear_arith)
    requires
        -aa <= a <= aa,
        -bb <= b <= bb,
    ensures
        -(aa * bb) <= a * b <= aa * bb,
{
}

/// Exact in-circumcircle test on raw fixed-point coordinates.
pub fn in_circle_coords(px: i64, py: i64, ax: i64, ay: i64, bx: i64, by: i64, cx: i64, cy: i64) -> (r: bool)
    requires
        -COORD_LIMIT <= px <= COORD_LIMIT,
        -COORD_LIMIT <= py <= COORD_LIMIT,
        -COORD_LIMIT <= ax <= COORD_LIMIT,
        -COORD_LIMIT <= ay <= COORD_LIMIT,
        -COORD_LIMIT <= bx <= COORD_LIMIT,
        -COORD_LIMIT <= by <= COORD_LIMIT,
        -COORD_LIMIT <= cx <= COORD_LIMIT,
        -COORD_LIMIT <= cy <= COORD_LIMIT,
    ensures
        r == in_circumcircle_s((px as int, py as int), (ax as int, ay as int), (bx as int, by as int), (cx as int, cy as int)),
{
    let pxw = px as i128;
    let pyw = py as i128;
    let axw = ax as i128;
    let ayw = ay as i128;
    let bxw = bx as i128;
    let byw = by as i128;
    let cxw = cx as i128;
    let cyw = cy as i128;
    proof {
        let l: int = COORD_LIMIT as int;
        lemma_mul_bounds(axw as int, axw as int, l, l);
        lemma_mul_bounds(ayw as int, ayw as int, l, l);
        lemma_mul_bounds(bxw as int, bxw as int, l, l);
        lemma_mul_bounds(byw as int, byw as int, l, l);
        lemma_mul_bounds(cxw as int, cxw as int, l, l);
        lemma_mul_bounds(cyw as int, cyw as int, l, l);
        lemma_mul_bounds(pxw as int, pxw as int, l, l);
        lemma_mul_bounds(pyw as int, pyw as int, l, l);
    }
    let a2 = axw * axw + ayw * ayw;
    let b2 = bxw * bxw + byw * byw;
    let c2 = cxw * cxw + cyw * cyw;
    proof {
        let l: int = COORD_LIMIT as int;
        let l2: int = 2 * l * l;
        lemma_mul_bounds(axw as int, (byw - cyw) as int, l, 2 * l);
        lemma_mul_bounds(bxw as int, (cyw - ayw) as int, l, 2 * l);
        lemma_mul_bounds(cxw as int, (ayw - byw) as int, l, 2 * l);
        lemma_mul_bounds(a2 as int, (byw - cyw) as int, l2, 2 * l);
        lemma_mul_bounds(b2 as int, (cyw - ayw) as int, l2, 2 * l);
        lemma_mul_bounds(c2 as int, (ayw - byw) as int, l2, 2 * l);
        lemma_mul_bounds(a2 as int, (cxw - bxw) as int, l2, 2 * l);
        lemma_mul_bounds(b2 as int, (axw - cxw) as int, l2, 2 * l);
        lemma_mul_bounds(c2 as int, (bxw - axw) as int, l2, 2 * l);
    }
    let d = 2 * (axw * (byw - cyw) + bxw * (cyw - ayw) + cxw * (ayw - byw));
    let sx = a2 * (byw - cyw) + b2 * (cyw - ayw) + c2 * (ayw - byw);
    let sy = a2 * (cxw - bxw) + b2 * (axw - cxw) + c2 * (bxw - axw);
    proof {
        let l: int = COORD_LIMIT as int;
        let s_bound: int = 6 * (2 * l * l) * (2 * l);
        lemma_mul_bounds(sx as int, (axw - pxw) as int, s_bound, 2 * l);
        lemma_mul_bounds(sy as int, (ayw - pyw) as int, s_bound, 2 * l);
        lemma_mul_bounds(d as int, (a2 - pxw * pxw - pyw * pyw) as int, 12 * l * l, 4 * l * l);
    }
    let lhs = 2 * (sx * (axw - pxw) + sy * (ayw - pyw));
    let rhs = d * (a2 - pxw * pxw - pyw * pyw);
    if d > 0 {
        lhs <= rhs
    } else if d < 0 {
        lhs >= rhs
    } else {
        false
    }
}

/// In-circumcircle test over any coordinate-bearing points, as the
/// triangulator uses it.
pub fn check_in_circumcircle<T: TriangulationPoint>(point: &T, p1: &T, p2: &T, p3: &T) -> (r: bool)
    requires
        -COORD_LIMIT <= point.sx() <= COORD_LIMIT,
        -COORD_LIMIT <= point.sy() <= COORD_LIMIT,
        -COORD_LIMIT <= p1.sx() <= COORD_LIMIT,
        -COORD_LIMIT <= p1.sy() <= COORD_LIMIT,
        -COORD_LIMIT <= p2.sx() <= COORD_LIMIT,
        -COORD_LIMIT <= p2.sy() <= COORD_LIMIT,
        -COORD_LIMIT <= p3.sx() <= COORD_LIMIT,
        -COORD_LIMIT <= p3.sy() <= COORD_LIMIT,
    ensures
        r == in_circumcircle_s(
            (point.sx(), point.sy()),
            (p1.sx(), p1.sy()),
            (p2.sx(), p2.sy()),
            (p3.sx(), p3.sy()),
        ),
{
    in_circle_coords(point.x(), point.y(), p1.x(), p1.y(), p2.x(), p2.y(), p3.x(), p3.y())
}

/// x and y coordinate of the super-triangle's far corners: a triangle with
/// two legs of 2000 units enclosing any plausible domain.
pub const SUPER_COORD: i64 = 2000 * 65536;

/// The coordinates of a point sequence, as mathematical pairs.
pub open spec fn coords_of<T: TriangulationPoint>(ps: Seq<T>) -> Seq<(int, int)> {
    Seq::new(ps.len(), |i: int| (ps[i].sx(), ps[i].sy()))
}

/// Real-point coordinates followed by the three super-triangle corners, which
/// take indices n, n + 1 and n + 2.
pub open spec fn with_super(cs: Seq<(int, int)>) -> Seq<(int, int)> {
    cs + seq![(SUPER_COORD as int, 0 as int), (0 as int, 0 as int), (0 as int, SUPER_COORD as int)]
}

/// Every coordinate pair within the triangulator's exact-arithmetic range.
pub open spec fn coords_bounded(cs: Seq<(int, int)>) -> bool {
    forall|i: int| 0 <= i < cs.len() ==> #[trigger] cs[i].0 <= COORD_LIMIT && cs[i].0 >= -COORD_LIMIT
        && cs[i].1 <= COORD_LIMIT && cs[i].1 >= -COORD_LIMIT
}

/// Whether point p's coordinates fall in or on the circumcircle of triangle t.
pub open spec fn tri_in_circ(all: Seq<(int, int)>, t: Triangle, p: int) -> bool {
    in_circumcircle_s(all[p], all[t.0 as int], all[t.1 as int], all[t.2 as int])
}

/// Every index of every triangle is below m.
pub open spec fn tris_wf(tris: Seq<Triangle>, m: int) -> bool {
    forall|j: int| 0 <= j < tris.len() ==> (#[trigger] tris[j]).0 < m && tris[j].1 < m && tris[j].2 < m
}

/// The bad triangles found after scanning the first k scan steps of the
/// triangle list, which is walked from its last entry towards its first.
pub open spec fn bad_first_k(tris: Seq<Triangle>, all: Seq<(int, int)>, p: int, k: int) -> Seq<Triangle>
    decreases k,
{
    if k <= 0 {
        Seq::empty()
    } else {
        bad_first_k(tris, all, p, k - 1) + if tri_in_circ(all, tris[tris.len() - k], p) {
            seq![tris[tris.len() - k]]
        } else {
            Seq::empty()
        }
    }
}

/// Whether e also belongs to a bad triangle other than t (edge identity and
/// triangle identity both unordered).
pub open spec fn edge_shared(e: Edge, bad: Seq<Triangle>, t: Triangle) -> bool {
    exists|k: int| 0 <= k < bad.len() && !tri_eq(t, #[trigger] bad[k]) && edge_in_tri(e, bad[k])
}

/// Whether e is one of the three edges of t, up to edge identity.
pub open spec fn edge_in_tri(e: Edge, t: Triangle) -> bool {
    ||| edge_eq(e, Edge(t.0, t.1))
    ||| edge_eq(e, Edge(t.1, t.2))
    ||| edge_eq(e, Edge(t.2, t.0))
}

/// The edges of bad triangle t that no other bad triangle shares: t's
/// contribution to the cavity boundary polygon.
pub open spec fn keep_edges(t: Triangle, bad: Seq<Triangle>) -> Seq<Edge> {
    (if edge_shared(Edge(t.0, t.1), bad, t) { Seq::<Edge>::empty() } else { seq![Edge(t.0, t.1)] })
    + (if edge_shared(Edge(t.1, t.2), bad, t) { Seq::<Edge>::empty() } else { seq![Edge(t.1, t.2)] })
    + (if edge_shared(Edge(t.2, t.0), bad, t) { Seq::<Edge>::empty() } else { seq![Edge(t.2, t.0)] })
}

/// The boundary polygon contributed by the first k bad triangles.
pub open spec fn polygon_first_k(bad: Seq<Triangle>, k: int) -> Seq<Edge>
    decreases k,
{
    if k <= 0 {
        Seq::empty()
    } else {
        polygon_first_k(bad, k - 1) + keep_edges(bad[k - 1], bad)
    }
}

/// The triangle list with every entry equal (as an unordered triple) to t
/// taken out, order otherwise kept.
pub open spec fn remove_one(tris: Seq<Triangle>, t: Triangle) -> Seq<Triangle>
    decreases tris.len(),
{
    if tris.len() == 0 {
        Seq::empty()
    } else {
        remove_one(tris.drop_last(), t) + if tri_eq(tris.last(), t) {
            Seq::<Triangle>::empty()
        } else {
            seq![tris.last()]
        }
    }
}

/// The triangle list after removing each of the first k bad triangles in turn.
pub open spec fn remove_first_k(tris: Seq<Triangle>, bad: Seq<Triangle>, k: int) -> Seq<Triangle>
    decreases k,
{
    if k <= 0 {
        tris
    } else {
        remove_one(remove_first_k(tris, bad, k - 1), bad[k - 1])
    }
}

/// The new triangles connecting the first k polygon edges to point p.
pub open spec fn fan_first_k(poly: Seq<Edge>, p: usize, k: int) -> Seq<Triangle>
    decreases k,
{
    if k <= 0 {
        Seq::empty()
    } else {
        fan_first_k(poly, p, k - 1) + seq![Triangle(poly[k - 1].0, poly[k - 1].1, p)]
    }
}

/// One insertion step of the incremental construction: find the bad
/// triangles, take them out, and retriangulate the cavity boundary with p.
pub open spec fn insert_point(tris: Seq<Triangle>, all: Seq<(int, int)>, p: usize) -> Seq<Triangle> {
    let bad = bad_first_k(tris, all, p as int, tris.len() as int);
    let poly = polygon_first_k(bad, bad.len() as int);
    remove_first_k(tris, bad, bad.len() as int) + fan_first_k(poly, p, poly.len() as int)
}

/// The triangle list after every point with index at or above i has been
/// inserted, starting from the single super-triangle and inserting in
/// reverse index order.
pub open spec fn state_from(all: Seq<(int, int)>, n: nat, i: int) -> Seq<Triangle>
    decreases n + 3 - i,
{
    if i >= n + 3 {
        seq![Triangle(n as usize, (n + 1) as usize, (n + 2) as usize)]
    } else {
        insert_point(state_from(all, n, i + 1), all, i as usize)
    }
}

/// The triangles whose three indices all name real points (below n).
pub open spec fn only_real(tris: Seq<Triangle>, n: nat) -> Seq<Triangle>
    decreases tris.len(),
{
    if tris.len() == 0 {
        Seq::empty()
    } else {
        only_real(tris.drop_last(), n) + if tris.last().0 < n && tris.last().1 < n && tris.last().2 < n {
            seq![tris.last()]
        } else {
            Seq::<Triangle>::empty()
        }
    }
}

/// What `triangulate` returns on a point set with these coordinates: the
/// whole incremental construction, then the real-index triangles alone.
pub open spec fn spec_triangulate(cs: Seq<(int, int)>) -> Seq<Triangle> {
    only_real(state_from(with_super(cs), cs.len(), 0), cs.len() as int as nat)
}

proof fn lemma_bad_wf(tris: Seq<Triangle>, all: Seq<(int, int)>, p: int, k: int, m: int)
    requires
        tris_wf(tris, m),
        k <= tris.len(),
    ensures
        tris_wf(bad_first_k(tris, all, p, k), m),
    decreases k,
{
    if k > 0 {
        lemma_bad_wf(tris, all, p, k - 1, m);
    }
}

proof fn lemma_remove_one_wf(tris: Seq<Triangle>, t: Triangle, m: int)
    requires
        tris_wf(tris, m),
    ensures
        tris_wf(remove_one(tris, t), m),
    decreases tris.len(),
{
    if tris.len() > 0 {
        assert(tris_wf(tris.drop_last(), m));
        lemma_remove_one_wf(tris.drop_last(), t, m);
    }
}

proof fn lemma_remove_wf(tris: Seq<Triangle>, bad: Seq<Triangle>, k: int, m: int)
    requires
        tris_wf(tris, m),
    ensures
        tris_wf(remove_first_k(tris, bad, k), m),
    decreases k,
{
    if k > 0 {
        lemma_remove_wf(tris, bad, k - 1, m);
        lemma_remove_one_wf(remove_first_k(tris, bad, k - 1), bad[k - 1], m);
    }
}

/// Every index of every edge is below m.
pub open spec fn edges_wf(poly: Seq<Edge>, m: int) -> bool {
    forall|j: int| 0 <= j < poly.len() ==> (#[trigger] poly[j]).0 < m && poly[j].1 < m
}

proof fn lemma_polygon_wf(bad: Seq<Triangle>, k: int, m: int)
    requires
        tris_wf(bad, m),
        k <= bad.len(),
    ensures
        edges_wf(polygon_first_k(bad, k), m),
    decreases k,
{
    if k > 0 {
        lemma_polygon_wf(bad, k - 1, m);
    }
}

proof fn lemma_fan_wf(poly: Seq<Edge>, p: usize, k: int, m: int)
    requires
        edges_wf(poly, m),
        p < m,
        k <= poly.len(),
    ensures
        tris_wf(fan_first_k(poly, p, k), m),
    decreases k,
{
    if k > 0 {
        lemma_fan_wf(poly, p, k - 1, m);
    }
}

/// Coordinates of entry idx of the point set extended with the three
/// super-triangle corners.
fn point_coords<T: TriangulationPoint>(points: &Vec<T>, idx: usize) -> (r: (i64, i64))
    requires
        points@.len() + 3 <= usize::MAX,
        idx < points@.len() + 3,
    ensures
        r.0 as int == with_super(coords_of(points@))[idx as int].0,
        r.1 as int == with_super(coords_of(points@))[idx as int].1,
{
    let n = points.len();
    if idx < n {
        let p = &points[idx];
        (p.x(), p.y())
    } else if idx == n {
        (SUPER_COORD, 0)
    } else if idx == n + 1 {
        (0, 0)
    } else {
        (0, SUPER_COORD)
    }
}

/// The triangles whose circumcircle holds the point with index p_idx, walking
/// the current list from its last entry towards its first.
fn find_bad_triangles<T: TriangulationPoint>(
    triangles: &Vec<Triangle>,
    points: &Vec<T>,
    p_idx: usize,
) -> (bad: Vec<Triangle>)
    requires
        points@.len() + 3 <= usize::MAX,
        coords_bounded(with_super(coords_of(points@))),
        tris_wf(triangles@, points@.len() + 3int),
        p_idx < points@.len() + 3,
    ensures
        bad@ == bad_first_k(
            triangles@,
            with_super(coords_of(points@)),
            p_idx as int,
            triangles@.len() as int,
        ),
{
    let ghost all = with_super(coords_of(points@));
    let (px, py) = point_coords(points, p_idx);
    let mut bad: Vec<Triangle> = Vec::new();
    let len = triangles.len();
    let mut k: usize = 0;
    while k < len
        invariant
            k <= len,
            len == triangles@.len(),
            points@.len() + 3 <= usize::MAX,
            coords_bounded(all),
            all == with_super(coords_of(points@)),
            tris_wf(triangles@, points@.len() + 3int),
            p_idx < points@.len() + 3,
            px as int == all[p_idx as int].0,
            py as int == all[p_idx as int].1,
            bad@ == bad_first_k(triangles@, all, p_idx as int, k as int),
        decreases len - k,
    {
        let t = triangles[len - 1 - k];
        let (ax, ay) = point_coords(points, t.0);
        let (bx, by) = point_coords(points, t.1);
        let (cx, cy) = point_coords(points, t.2);
        if in_circle_coords(px, py, ax, ay, bx, by, cx, cy) {
            bad.push(t);
        }
        k += 1;
    }
    bad
}

/// Whether e also belongs to a bad triangle that is not t itself.
fn edge_is_shared(e: Edge, bad: &Vec<Triangle>, t: Triangle) -> (r: bool)
    ensures
        r == edge_shared(e, bad@, t),
{
    let mut k: usize = 0;
    let mut found = false;
    while k < bad.len()
        invariant
            k <= bad@.len(),
            found == exists|k2: int|
                0 <= k2 < k && !tri_eq(t, #[trigger] bad@[k2]) && edge_in_tri(e, bad@[k2]),
        decreases bad@.len() - k,
    {
        let t2 = bad[k];
        if !(t == t2) {
            if e == Edge(t2.0, t2.1) || e == Edge(t2.1, t2.2) || e == Edge(t2.2, t2.0) {
                found = true;
            }
        }
        k += 1;
    }
    found
}

/// The cavity boundary: every edge that belongs to exactly one bad triangle.
fn build_polygon(bad: &Vec<Triangle>) -> (poly: Vec<Edge>)
    ensures
        poly@ == polygon_first_k(bad@, bad@.len() as int),
{
    let mut poly: Vec<Edge> = Vec::new();
    let mut i: usize = 0;
    while i < bad.len()
        invariant
            i <= bad@.len(),
            poly@ == polygon_first_k(bad@, i as int),
        decreases bad@.len() - i,
    {
        let t = bad[i];
        let e01 = Edge(t.0, t.1);
        let e12 = Edge(t.1, t.2);
        let e20 = Edge(t.2, t.0);
        if !edge_is_shared(e01, bad, t) {
            poly.push(e01);
        }
        if !edge_is_shared(e12, bad, t) {
            poly.push(e12);
        }
        if !edge_is_shared(e20, bad, t) {
            poly.push(e20);
        }
        proof {
            assert(poly@ == polygon_first_k(bad@, i + 1));
        }
        i += 1;
    }
    poly
}

/// Take every entry equal (as an unordered triple) to t out of the list.
fn remove_triangle(triangles: &mut Vec<Triangle>, t: Triangle)
    ensures
        final(triangles)@ == remove_one(old(triangles)@, t),
{
    let mut out: Vec<Triangle> = Vec::new();
    let mut j: usize = 0;
    while j < triangles.len()
        invariant
            j <= triangles@.len(),
            triangles@ == old(triangles)@,
            out@ == remove_one(triangles@.take(j as int), t),
        decreases triangles@.len() - j,
    {
        let x = triangles[j];
        if !(x == t) {
            out.push(x);
        }
        proof {
            assert(triangles@.take(j + 1).drop_last() =~= triangles@.take(j as int));
            assert(triangles@.take(j + 1).last() == triangles@[j as int]);
        }
        j += 1;
    }
    proof {
        assert(triangles@.take(triangles@.len() as int) =~= triangles@);
    }
    *triangles = out;
}

/// Take every bad triangle out of the list, one bad entry at a time.
fn remove_bad_triangles(triangles: &mut Vec<Triangle>, bad: &Vec<Triangle>)
    ensures
        final(triangles)@ == remove_first_k(old(triangles)@, bad@, bad@.len() as int),
{
    let mut i: usize = 0;
    while i < bad.len()
        invariant
            i <= bad@.len(),
            triangles@ == remove_first_k(old(triangles)@, bad@, i as int),
        decreases bad@.len() - i,
    {
        remove_triangle(triangles, bad[i]);
        i += 1;
    }
}

/// Connect every boundary edge to the inserted point p.
fn push_fan(triangles: &mut Vec<Triangle>, poly: &Vec<Edge>, p: usize)
    ensures
        final(triangles)@ == old(triangles)@ + fan_first_k(poly@, p, poly@.len() as int),
{
    let mut i: usize = 0;
    while i < poly.len()
        invariant
            i <= poly@.len(),
            triangles@ == old(triangles)@ + fan_first_k(poly@, p, i as int),
        decreases poly@.len() - i,
    {
        let e = poly[i];
        triangles.push(Triangle(e.0, e.1, p));
        proof {
            assert(triangles@ =~= old(triangles)@ + fan_first_k(poly@, p, i + 1));
        }
        i += 1;
    }
}

/// Keep only the triangles built entirely from real point indices.
fn filter_real(triangles: &Vec<Triangle>, n: usize) -> (out: Vec<Triangle>)
    ensures
        out@ == only_real(triangles@, n as nat),
{
    let mut out: Vec<Triangle> = Vec::new();
    let mut j: usize = 0;
    while j < triangles.len()
        invariant
            j <= triangles@.len(),
            out@ == only_real(triangles@.take(j as int), n as nat),
        decreases triangles@.len() - j,
    {
        let t = triangles[j];
        if t.0 < n && t.1 < n && t.2 < n {
            out.push(t);
        }
        proof {
            assert(triangles@.take(j + 1).drop_last() =~= triangles@.take(j as int));
        }
        j += 1;
    }
    proof {
        assert(triangles@.take(triangles@.len() as int) =~= triangles@);
    }
    out
}

/// Bowyer-Watson triangulation of the given points: starting from a bounding
/// super-triangle, insert the points in reverse index order, each time
/// replacing the triangles whose circumcircle holds the new point by a fan
/// from the cavity boundary to the point; finally keep only the triangles
/// made of real point indices.
///
/// The result is exactly `spec_triangulate` of the points' coordinates, so
/// two runs over point sets with equal coordinates return identical triangle
/// lists, and every returned index is below the number of input points.
pub fn triangulate<T: TriangulationPoint>(points: &Vec<T>) -> (res: Vec<Triangle>)
    requires
        points@.len() + 3 <= usize::MAX,
        coords_bounded(coords_of(points@)),
    ensures
        res@ == spec_triangulate(coords_of(points@)),
        tris_wf(res@, points@.len() as int),
        real_tris_distinct(res@, points@.len() as int),
        forall|j: int|
            0 <= j < res@.len() ==> ((#[trigger] res@[j]).0 != res@[j].1 && res@[j].1 != res@[j].2
                && res@[j].0 != res@[j].2),
{
    proof {
        lemma_index_validity(coords_of(points@));
    }
    let ghost all = with_super(coords_of(points@));
    let n = points.len();
    proof {
        assert(coords_bounded(all));
    }
    let mut triangles: Vec<Triangle> = Vec::new();
    triangles.push(Triangle(n, n + 1, n + 2));
    let mut p: usize = n + 3;
    proof {
        assert(triangles@ =~= state_from(all, n as nat, n + 3));
    }
    while p > 0
        invariant
            p <= n + 3,
            n == points@.len(),
            points@.len() + 3 <= usize::MAX,
            all == with_super(coords_of(points@)),
            coords_bounded(all),
            triangles@ == state_from(all, n as nat, p as int),
            tris_wf(triangles@, n + 3),
        decreases p,
    {
        p = p - 1;
        let bad = find_bad_triangles(&triangles, points, p);
        proof {
            lemma_bad_wf(triangles@, all, p as int, triangles@.len() as int, n + 3);
        }
        let poly = build_polygon(&bad);
        proof {
            lemma_polygon_wf(bad@, bad@.len() as int, n + 3);
        }
        remove_bad_triangles(&mut triangles, &bad);
        proof {
            lemma_remove_wf(state_from(all, n as nat, p + 1), bad@, bad@.len() as int, n + 3);
        }
        push_fan(&mut triangles, &poly, p);
        proof {
            lemma_fan_wf(poly@, p, poly@.len() as int, n + 3);
            assert(triangles@ == insert_point(state_from(all, n as nat, p + 1), all, p));
            assert(triangles@ == state_from(all, n as nat, p as int));
        }
    }
    filter_real(&triangles, n)
}

proof fn lemma_only_real_wf(tris: Seq<Triangle>, n: nat)
    ensures
        tris_wf(only_real(tris, n), n as int),
    decreases tris.len(),
{
    if tris.len() > 0 {
        lemma_only_real_wf(tris.drop_last(), n);
    }
}

/// Every index of every triangle is at least lo.
pub open spec fn tris_lb(tris: Seq<Triangle>, lo: int) -> bool {
    forall|j: int|
        0 <= j < tris.len() ==> (#[trigger] tris[j]).0 >= lo && tris[j].1 >= lo && tris[j].2 >= lo
}

/// Every triangle whose three indices all name real points (below n) has
/// three pairwise distinct indices.
pub open spec fn real_tris_distinct(tris: Seq<Triangle>, n: int) -> bool {
    forall|j: int|
        0 <= j < tris.len() ==> (((#[trigger] tris[j]).0 < n && tris[j].1 < n && tris[j].2 < n)
            ==> (tris[j].0 != tris[j].1 && tris[j].1 != tris[j].2 && tris[j].0 != tris[j].2))
}

/// A point in or on a circumcircle means the circle exists, so the three
/// defining vertices are pairwise distinct coordinates.
proof fn lemma_in_circ_distinct_coords(p: (int, int), a: (int, int), b: (int, int), c: (int, int))
    requires
        in_circumcircle_s(p, a, b, c),
    ensures
        a != b,
        b != c,
        a != c,
{
    if a == b {
        assert(2 * (a.0 * (b.1 - c.1) + b.0 * (c.1 - a.1) + c.0 * (a.1 - b.1)) == 0)
            by (nonlinear_arith)
            requires
                a.0 == b.0,
                a.1 == b.1,
        ;
        assert(false);
    }
    if b == c {
        assert(2 * (a.0 * (b.1 - c.1) + b.0 * (c.1 - a.1) + c.0 * (a.1 - b.1)) == 0)
            by (nonlinear_arith)
            requires
                b.0 == c.0,
                b.1 == c.1,
        ;
        assert(false);
    }
    if a == c {
        assert(2 * (a.0 * (b.1 - c.1) + b.0 * (c.1 - a.1) + c.0 * (a.1 - b.1)) == 0)
            by (nonlinear_arith)
            requires
                a.0 == c.0,
                a.1 == c.1,
        ;
        assert(false);
    }
}

proof fn lemma_bad_lb(tris: Seq<Triangle>, all: Seq<(int, int)>, p: int, k: int, lo: int)
    requires
        tris_lb(tris, lo),
        k <= tris.len(),
    ensures
        tris_lb(bad_first_k(tris, all, p, k), lo),
    decreases k,
{
    if k > 0 {
        lemma_bad_lb(tris, all, p, k - 1, lo);
    }
}

proof fn lemma_bad_in_circ(tris: Seq<Triangle>, all: Seq<(int, int)>, p: int, k: int)
    requires
        k <= tris.len(),
    ensures
        forall|j: int|
            0 <= j < bad_first_k(tris, all, p, k).len() ==> tri_in_circ(
                all,
                #[trigger] bad_first_k(tris, all, p, k)[j],
                p,
            ),
    decreases k,
{
    if k > 0 {
        lemma_bad_in_circ(tris, all, p, k - 1);
        let prev = bad_first_k(tris, all, p, k - 1);
        let cur = bad_first_k(tris, all, p, k);
        assert forall|j: int| 0 <= j < cur.len() implies tri_in_circ(
            all,
            #[trigger] cur[j],
            p,
        ) by {
            if j < prev.len() {
                assert(cur[j] == prev[j]);
            } else {
                assert(cur[j] == tris[tris.len() - k]);
            }
        }
    }
}

proof fn lemma_remove_one_lb(tris: Seq<Triangle>, t: Triangle, lo: int)
    requires
        tris_lb(tris, lo),
    ensures
        tris_lb(remove_one(tris, t), lo),
    decreases tris.len(),
{
    if tris.len() > 0 {
        assert(tris_lb(tris.drop_last(), lo));
        lemma_remove_one_lb(tris.drop_last(), t, lo);
    }
}

proof fn lemma_remove_lb(tris: Seq<Triangle>, bad: Seq<Triangle>, k: int, lo: int)
    requires
        tris_lb(tris, lo),
    ensures
        tris_lb(remove_first_k(tris, bad, k), lo),
    decreases k,
{
    if k > 0 {
        lemma_remove_lb(tris, bad, k - 1, lo);
        lemma_remove_one_lb(remove_first_k(tris, bad, k - 1), bad[k - 1], lo);
    }
}

proof fn lemma_remove_one_distinct(tris: Seq<Triangle>, t: Triangle, n: int)
    requires
        real_tris_distinct(tris, n),
    ensures
        real_tris_distinct(remove_one(tris, t), n),
    decreases tris.len(),
{
    if tris.len() > 0 {
        assert(real_tris_distinct(tris.drop_last(), n));
        lemma_remove_one_distinct(tris.drop_last(), t, n);
    }
}

proof fn lemma_remove_distinct(tris: Seq<Triangle>, bad: Seq<Triangle>, k: int, n: int)
    requires
        real_tris_distinct(tris, n),
    ensures
        real_tris_distinct(remove_first_k(tris, bad, k), n),
    decreases k,
{
    if k > 0 {
        lemma_remove_distinct(tris, bad, k - 1, n);
        lemma_remove_one_distinct(remove_first_k(tris, bad, k - 1), bad[k - 1], n);
    }
}

/// Every index of every edge is at least lo.
pub open spec fn edges_lb(poly: Seq<Edge>, lo: int) -> bool {
    forall|j: int| 0 <= j < poly.len() ==> (#[trigger] poly[j]).0 >= lo && poly[j].1 >= lo
}

proof fn lemma_polygon_lb(bad: Seq<Triangle>, k: int, lo: int)
    requires
        tris_lb(bad, lo),
        k <= bad.len(),
    ensures
        edges_lb(polygon_first_k(bad, k), lo),
    decreases k,
{
    if k > 0 {
        lemma_polygon_lb(bad, k - 1, lo);
    }
}

/// Every cavity-boundary edge joins two distinct indices: it comes from a
/// bad triangle, whose circumcircle exists, so its vertex coordinates are
/// pairwise distinct.
proof fn lemma_polygon_edges_distinct(bad: Seq<Triangle>, all: Seq<(int, int)>, p: int, k: int)
    requires
        k <= bad.len(),
        forall|j: int| 0 <= j < bad.len() ==> tri_in_circ(all, #[trigger] bad[j], p),
    ensures
        forall|m: int|
            0 <= m < polygon_first_k(bad, k).len() ==> (#[trigger] polygon_first_k(bad, k)[m]).0
                != polygon_first_k(bad, k)[m].1,
    decreases k,
{
    if k > 0 {
        lemma_polygon_edges_distinct(bad, all, p, k - 1);
        let t = bad[k - 1];
        lemma_in_circ_distinct_coords(
            all[p],
            all[t.0 as int],
            all[t.1 as int],
            all[t.2 as int],
        );
        assert(t.0 != t.1 && t.1 != t.2 && t.2 != t.0);
        let prevp = polygon_first_k(bad, k - 1);
        let ke = keep_edges(t, bad);
        let curp = polygon_first_k(bad, k);
        assert(curp == prevp + ke);
        assert forall|m: int| 0 <= m < curp.len() implies (#[trigger] curp[m]).0 != curp[m].1 by {
            if m < prevp.len() {
                assert(curp[m] == prevp[m]);
            } else {
                let e = curp[m];
                assert(ke[m - prevp.len()] == e);
                assert(e == Edge(t.0, t.1) || e == Edge(t.1, t.2) || e == Edge(t.2, t.0));
            }
        }
    }
}

proof fn lemma_fan_elems(poly: Seq<Edge>, p: usize, k: int)
    requires
        0 <= k <= poly.len(),
    ensures
        fan_first_k(poly, p, k).len() == k,
        forall|m: int|
            0 <= m < k ==> #[trigger] fan_first_k(poly, p, k)[m] == Triangle(
                poly[m].0,
                poly[m].1,
                p,
            ),
    decreases k,
{
    if k > 0 {
        lemma_fan_elems(poly, p, k - 1);
    }
}

/// The construction's inductive shape: once every point with index at or
/// above i is inserted, every triangle index is at least min(i, n), and any
/// triangle over real indices alone has three distinct ones.
proof fn lemma_state_good(all: Seq<(int, int)>, n: nat, i: int)
    requires
        0 <= i <= n + 3,
        n + 3 <= usize::MAX,
    ensures
        tris_lb(state_from(all, n, i), if i <= n { i } else { n as int }),
        real_tris_distinct(state_from(all, n, i), n as int),
    decreases n + 3 - i,
{
    let lo: int = if i <= n { i } else { n as int };
    if i == n + 3 {
        let base = state_from(all, n, i);
        assert(base == seq![Triangle(n as usize, (n + 1) as usize, (n + 2) as usize)]);
        assert(base[0] == Triangle(n as usize, (n + 1) as usize, (n + 2) as usize));
        assert(tris_lb(base, lo));
    } else {
        lemma_state_good(all, n, i + 1);
        let prev = state_from(all, n, i + 1);
        let lo_prev: int = if i + 1 <= n { i + 1 } else { n as int };
        let p = i as usize;
        assert(p as int == i);
        let bad = bad_first_k(prev, all, i, prev.len() as int);
        let poly = polygon_first_k(bad, bad.len() as int);
        let removed = remove_first_k(prev, bad, bad.len() as int);
        let fan = fan_first_k(poly, p, poly.len() as int);
        lemma_bad_lb(prev, all, i, prev.len() as int, lo_prev);
        lemma_bad_in_circ(prev, all, i, prev.len() as int);
        lemma_remove_lb(prev, bad, bad.len() as int, lo_prev);
        lemma_remove_distinct(prev, bad, bad.len() as int, n as int);
        lemma_polygon_lb(bad, bad.len() as int, lo_prev);
        lemma_polygon_edges_distinct(bad, all, i, bad.len() as int);
        lemma_fan_elems(poly, p, poly.len() as int);
        let cur = state_from(all, n, i);
        assert(cur == removed + fan);
        assert forall|j: int| 0 <= j < cur.len() implies (#[trigger] cur[j]).0 >= lo && cur[j].1
            >= lo && cur[j].2 >= lo by {
            if j < removed.len() {
                assert(cur[j] == removed[j]);
            } else {
                let m = j - removed.len();
                assert(cur[j] == fan[m]);
                assert(fan[m] == Triangle(poly[m].0, poly[m].1, p));
            }
        }
        assert forall|j: int|
            0 <= j < cur.len() && ((#[trigger] cur[j]).0 < n && cur[j].1 < n && cur[j].2
                < n) implies (cur[j].0 != cur[j].1 && cur[j].1 != cur[j].2 && cur[j].0
            != cur[j].2) by {
            if j < removed.len() {
                assert(cur[j] == removed[j]);
            } else {
                let m = j - removed.len();
                assert(cur[j] == fan[m]);
                assert(fan[m] == Triangle(poly[m].0, poly[m].1, p));
                assert(poly[m].0 != poly[m].1);
                assert(poly[m].0 >= lo_prev && poly[m].1 >= lo_prev);
            }
        }
    }
}

proof fn lemma_only_real_distinct(tris: Seq<Triangle>, n: nat)
    requires
        real_tris_distinct(tris, n as int),
    ensures
        real_tris_distinct(only_real(tris, n), n as int),
    decreases tris.len(),
{
    if tris.len() > 0 {
        assert(real_tris_distinct(tris.drop_last(), n as int));
        lemma_only_real_distinct(tris.drop_last(), n);
    }
}

/// Index validity: every triangle the triangulation returns is made of
/// three pairwise distinct indices, each below the number of input points;
/// no super-triangle index escapes into the output.
pub proof fn lemma_index_validity(cs: Seq<(int, int)>)
    requires
        cs.len() + 3 <= usize::MAX,
    ensures
        tris_wf(spec_triangulate(cs), cs.len() as int),
        real_tris_distinct(spec_triangulate(cs), cs.len() as int),
        forall|j: int|
            0 <= j < spec_triangulate(cs).len() ==> ((#[trigger] spec_triangulate(cs)[j]).0
                != spec_triangulate(cs)[j].1 && spec_triangulate(cs)[j].1 != spec_triangulate(
                cs,
            )[j].2 && spec_triangulate(cs)[j].0 != spec_triangulate(cs)[j].2),
{
    let all = with_super(cs);
    let n = cs.len();
    lemma_state_good(all, n, 0);
    lemma_only_real_wf(state_from(all, n, 0), n);
    lemma_only_real_distinct(state_from(all, n, 0), n);
}

/// Triangulation is deterministic: it depends on nothing but the point
/// coordinates, so triangulating an unchanged point set twice — even one held
/// in a different point type — yields the identical triangle list. Combined
/// with the `triangulate` postcondition, two calls over equal coordinates
/// return equal results.
pub proof fn lemma_triangulate_deterministic<T1: TriangulationPoint, T2: TriangulationPoint>(
    ps1: Seq<T1>,
    ps2: Seq<T2>,
)
    requires
        coords_of(ps1) == coords_of(ps2),
    ensures
        spec_triangulate(coords_of(ps1)) == spec_triangulate(coords_of(ps2)),
{
}

/// An edge equals the one built from the same pair in either order, and edge
/// equality is reflexive and symmetric.
pub proof fn lemma_edge_eq_unordered(a: usize, b: usize)
    ensures
        edge_eq(Edge(a, b), Edge(b, a)),
        edge_eq(Edge(a, b), Edge(a, b)),
        forall|e1: Edge, e2: Edge| edge_eq(e1, e2) == edge_eq(e2, e1),
{
}

/// A triangle built from indices (a, b, c) equals the one built from any
/// permutation of (a, b, c), and triangle equality is symmetric.
pub proof fn lemma_tri_eq_unordered(a: usize, b: usize, c: usize)
    ensures
        tri_eq(Triangle(a, b, c), Triangle(a, b, c)),
        tri_eq(Triangle(a, b, c), Triangle(a, c, b)),
        tri_eq(Triangle(a, b, c), Triangle(b, a, c)),
        tri_eq(Triangle(a, b, c), Triangle(b, c, a)),
        tri_eq(Triangle(a, b, c), Triangle(c, a, b)),
        tri_eq(Triangle(a, b, c), Triangle(c, b, a)),
        forall|t1: Triangle, t2: Triangle| tri_eq(t1, t2) == tri_eq(t2, t1),
{
}

} // verus!
