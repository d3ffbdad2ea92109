//! Ear-clipping triangulation of a simple polygon, convex or not, whose
//! vertices lie on the integer grid. All arithmetic is exact.

use vstd::prelude::*;

verus! {

/// A point of the integer grid.
#[derive(Clone, Copy, Debug, PartialEq, Eq, Structural)]
pub struct Point {
    pub x: i32,
    pub y: i32,
}

/// Three indices into a polygon's points: predecessor, ear and successor.
pub type Triangle = (usize, usize, usize);

/// Twice the signed area of the triangle `a b c`: positive where turning
/// from `a` over `b` to `c` goes the way in which the area of a polygon
/// counts as positive, zero where the three are in line.
pub open spec fn cross(a: Point, b: Point, c: Point) -> int {
    (b.x - a.x) * (c.y - a.y) - (b.y - a.y) * (c.x - a.x)
}

/// Whether `p` lies in the triangle `a b c`, its edges and corners included.
/// No point lies in a triangle without area.
pub open spec fn in_triangle(a: Point, b: Point, c: Point, p: Point) -> bool {
    if cross(a, b, c) > 0 {
        cross(a, b, p) >= 0 && cross(b, c, p) >= 0 && cross(c, a, p) >= 0
    } else if cross(a, b, c) < 0 {
        cross(a, b, p) <= 0 && cross(b, c, p) <= 0 && cross(c, a, p) <= 0
    } else {
        false
    }
}

/// The product of two coordinate differences stays far inside `i128`.
proof fn lemma_product_bound(u: int, v: int)
    requires
        -0x1_0000_0000 < u < 0x1_0000_0000,
        -0x1_0000_0000 < v < 0x1_0000_0000,
    ensures
        -0x1_0000_0000_0000_0000 < u * v < 0x1_0000_0000_0000_0000,
{
    assert(-0x1_0000_0000_0000_0000 < u * v < 0x1_0000_0000_0000_0000) by (nonlinear_arith)
        requires
            -0x1_0000_0000 < u < 0x1_0000_0000,
            -0x1_0000_0000 < v < 0x1_0000_0000,
    ;
}

/// `ux * vy - uy * vx` for two vectors given by their end points relative to
/// `a`.
fn wedge_from(a: Point, b: Point, c: Point) -> (w: i128)
    ensures
        w == cross(a, b, c),
        -0x2_0000_0000_0000_0000 < w < 0x2_0000_0000_0000_0000,
{
    let ux: i128 = b.x as i128 - a.x as i128;
    let uy: i128 = b.y as i128 - a.y as i128;
    let vx: i128 = c.x as i128 - a.x as i128;
    let vy: i128 = c.y as i128 - a.y as i128;
    proof {
        lemma_product_bound(ux as int, vy as int);
        lemma_product_bound(uy as int, vx as int);
    }
    ux * vy - uy * vx
}

/// Whether the corner at `b`, between `a` and `c`, turns the positive way.
pub fn is_convex(a: Point, b: Point, c: Point) -> (convex: bool)
    ensures
        convex == (cross(a, b, c) > 0),
{
    wedge_from(a, b, c) > 0
}

/// The term that the edge from `a` to `b` adds to twice the area of a
/// polygon.
pub open spec fn wedge(a: Point, b: Point) -> int {
    a.x * b.y - b.x * a.y
}

proof fn lemma_expand_product(p: int, q: int, r: int, s: int)
    ensures
        (p - q) * (r - s) == p * r - p * s - q * r + q * s,
{
    assert((p - q) * (r - s) == p * r - p * s - q * r + q * s) by (nonlinear_arith);
}

/// Twice the area of a triangle is the sum of the terms of its three edges.
pub proof fn lemma_cross_is_wedge_sum(a: Point, b: Point, c: Point)
    ensures
        cross(a, b, c) == wedge(a, b) + wedge(b, c) + wedge(c, a),
{
    lemma_expand_product(b.x as int, a.x as int, c.y as int, a.y as int);
    lemma_expand_product(b.y as int, a.y as int, c.x as int, a.x as int);
    lemma_wedge_antisymmetric(a, b);
    lemma_wedge_antisymmetric(b, c);
    lemma_wedge_antisymmetric(c, a);
    lemma_wedge_antisymmetric(a, a);
}

/// Turning an edge round changes the sign of its term.
pub proof fn lemma_wedge_antisymmetric(a: Point, b: Point)
    ensures
        wedge(b, a) == -wedge(a, b),
{
    assert(a.x * b.y == b.y * a.x) by (nonlinear_arith);
    assert(b.x * a.y == a.y * b.x) by (nonlinear_arith);
}

/// The three orientations of `p` against the edges of `a b c` add up to the
/// orientation of the triangle itself; naming the corners from another start
/// keeps it, and swapping two corners changes its sign.
pub proof fn lemma_cross_identities(a: Point, b: Point, c: Point, p: Point)
    ensures
        cross(a, b, p) + cross(b, c, p) + cross(c, a, p) == cross(a, b, c),
        cross(a, c, b) == -cross(a, b, c),
        cross(b, c, a) == cross(a, b, c),
        cross(c, a, b) == cross(a, b, c),
{
    lemma_cross_is_wedge_sum(a, b, c);
    lemma_cross_is_wedge_sum(a, b, p);
    lemma_cross_is_wedge_sum(b, c, p);
    lemma_cross_is_wedge_sum(c, a, p);
    lemma_cross_is_wedge_sum(a, c, b);
    lemma_cross_is_wedge_sum(b, c, a);
    lemma_cross_is_wedge_sum(c, a, b);
    lemma_wedge_antisymmetric(a, b);
    lemma_wedge_antisymmetric(b, c);
    lemma_wedge_antisymmetric(c, a);
    lemma_wedge_antisymmetric(a, p);
    lemma_wedge_antisymmetric(b, p);
    lemma_wedge_antisymmetric(c, p);
}

/// Whether `p` lies in the triangle `a b c`, by its barycentric coordinates
/// `u` and `v` over the edges from `a`: both at least 0, together at most 1.
/// A triangle whose determinant is zero holds no point; on the grid no
/// other determinant is smaller than one.
pub fn is_point_in_triangle(a: Point, b: Point, c: Point, p: Point) -> (inside: bool)
    ensures
        inside == in_triangle(a, b, c, p),
{
    // With v0 = c - a, v1 = b - a and v2 = p - a: u = (v2 x v1) / den and
    // v = (v0 x v2) / den, where den = v0 x v1.
    let den: i128 = wedge_from(a, c, b);
    let u_num: i128 = wedge_from(a, p, b);
    let v_num: i128 = wedge_from(a, c, p);
    proof {
        lemma_cross_identities(a, b, c, p);
        lemma_cross_identities(a, b, p, p);
        lemma_cross_identities(a, c, p, p);
    }
    if den == 0 {
        false
    } else if den > 0 {
        u_num >= 0 && v_num >= 0 && u_num + v_num <= den
    } else {
        u_num <= 0 && v_num <= 0 && u_num + v_num >= den
    }
}

/// The position after `i` in a cyclic list of `m` entries.
pub open spec fn next_index(i: int, m: int) -> int {
    if i + 1 == m {
        0
    } else {
        i + 1
    }
}

/// The position before `i` in a cyclic list of `m` entries.
pub open spec fn prev_index(i: int, m: int) -> int {
    if i == 0 {
        m - 1
    } else {
        i - 1
    }
}

/// The term of the edge that leaves vertex `j` of a polygon; the edge that
/// leaves the last vertex leads back to the first.
pub open spec fn edge_term(polygon: Seq<Point>, j: int) -> int {
    wedge(polygon[j], polygon[next_index(j, polygon.len() as int)])
}

/// The sum of the terms of the first `k` edges of a polygon.
pub open spec fn edge_sum(polygon: Seq<Point>, k: nat) -> int
    decreases k,
{
    if k == 0 {
        0
    } else {
        edge_sum(polygon, (k - 1) as nat) + edge_term(polygon, k - 1)
    }
}

/// Twice the signed area of a polygon, by the shoelace formula.
pub open spec fn twice_area(polygon: Seq<Point>) -> int {
    edge_sum(polygon, polygon.len())
}

/// The order in which the vertices are worked through: as given where the
/// signed area is positive, backwards where it is not, so that the area
/// enclosed on the way is never negative.
pub open spec fn clipping_order(points: Seq<Point>) -> Seq<usize> {
    if twice_area(points) > 0 {
        Seq::new(points.len(), |k: int| k as usize)
    } else {
        Seq::new(points.len(), |k: int| (points.len() - 1 - k) as usize)
    }
}

/// The triangle that clipping the vertex at position `i` of the active list
/// cuts off: its predecessor, the vertex, its successor.
pub open spec fn ear_triangle(active: Seq<usize>, i: int) -> Triangle {
    (
        active[prev_index(i, active.len() as int)],
        active[i],
        active[next_index(i, active.len() as int)],
    )
}

/// Whether the vertex `other` keeps the triangle `t` from being an ear: it
/// is none of the three corners and lies in the triangle.
pub open spec fn blocks(points: Seq<Point>, t: Triangle, other: usize) -> bool {
    &&& other != t.0
    &&& other != t.1
    &&& other != t.2
    &&& in_triangle(
        points[t.0 as int],
        points[t.1 as int],
        points[t.2 as int],
        points[other as int],
    )
}

/// Whether the vertex at position `i` of the active list is an ear: its
/// corner turns the positive way, and no other active vertex lies in the
/// triangle that it spans with its two neighbours.
pub open spec fn is_ear(points: Seq<Point>, active: Seq<usize>, i: int) -> bool {
    let t = ear_triangle(active, i);
    &&& cross(points[t.0 as int], points[t.1 as int], points[t.2 as int]) > 0
    &&& forall|k: int| 0 <= k < active.len() ==> !blocks(points, t, #[trigger] active[k])
}

/// The first position from `start` on that is an ear, or the length of the
/// active list where there is none.
pub open spec fn ear_from(points: Seq<Point>, active: Seq<usize>, start: int) -> int
    decreases active.len() - start,
{
    if start >= active.len() {
        active.len() as int
    } else if is_ear(points, active, start) {
        start
    } else {
        ear_from(points, active, start + 1)
    }
}

/// The most ears that one triangulation clips.
pub const CLIP_LIMIT: usize = 10_000;

/// The triangles that ear clipping yields from an active list with a budget
/// of ears left: three vertices are one triangle; more than three lose
/// their first ear, which is a triangle, and go on; where no ear is found
/// or the budget is spent, nothing more comes.
pub open spec fn clip_ears(points: Seq<Point>, active: Seq<usize>, budget: nat) -> Seq<Triangle>
    decreases budget,
{
    if active.len() == 3 {
        seq![(active[0], active[1], active[2])]
    } else if active.len() < 3 || budget == 0 {
        Seq::empty()
    } else {
        let i = ear_from(points, active, 0);
        if i >= active.len() {
            Seq::empty()
        } else {
            seq![ear_triangle(active, i)] + clip_ears(
                points,
                active.remove(i),
                (budget - 1) as nat,
            )
        }
    }
}

/// The triangulation of a polygon by ear clipping.
pub open spec fn triangulation(points: Seq<Point>) -> Seq<Triangle> {
    if points.len() < 3 {
        Seq::empty()
    } else {
        clip_ears(points, clipping_order(points), CLIP_LIMIT as nat)
    }
}

/// Whether every entry of a vertex list is an index into `n` points.
pub open spec fn indices_below(active: Seq<usize>, n: nat) -> bool {
    forall|k: int| 0 <= k < active.len() ==> #[trigger] active[k] < n
}

/// Whether all three corners of every triangle are indices into `n` points.
pub open spec fn corners_below(triangles: Seq<Triangle>, n: nat) -> bool {
    forall|t: int|
        0 <= t < triangles.len() ==> {
            &&& (#[trigger] triangles[t]).0 < n
            &&& triangles[t].1 < n
            &&& triangles[t].2 < n
        }
}

/// Ear clipping yields at most two triangles fewer than there are active
/// vertices, and their corners are vertices of the active list.
pub proof fn lemma_clip_ears_bounds(points: Seq<Point>, active: Seq<usize>, budget: nat)
    requires
        indices_below(active, points.len()),
    ensures
        active.len() >= 3 ==> clip_ears(points, active, budget).len() <= active.len() - 2,
        active.len() < 3 ==> clip_ears(points, active, budget).len() == 0,
        corners_below(clip_ears(points, active, budget), points.len()),
    decreases budget,
{
    if active.len() == 3 {
    } else if active.len() < 3 || budget == 0 {
    } else {
        let i = ear_from(points, active, 0);
        lemma_ear_from_range(points, active, 0);
        if i < active.len() {
            let rest = active.remove(i);
            assert(indices_below(rest, points.len())) by {
                assert forall|k: int| 0 <= k < rest.len() implies #[trigger] rest[k]
                    < points.len() by {
                    if k < i {
                        assert(rest[k] == active[k]);
                    } else {
                        assert(rest[k] == active[k + 1]);
                    }
                }
            }
            lemma_clip_ears_bounds(points, rest, (budget - 1) as nat);
        }
    }
}

/// The first ear from `start` on is an ear at or behind `start`, with no
/// ear between, or there is no ear from `start` on.
pub proof fn lemma_ear_from_range(points: Seq<Point>, active: Seq<usize>, start: int)
    requires
        0 <= start <= active.len(),
    ensures
        start <= ear_from(points, active, start) <= active.len(),
        ear_from(points, active, start) < active.len() ==> is_ear(
            points,
            active,
            ear_from(points, active, start),
        ),
        forall|j: int|
            start <= j < ear_from(points, active, start) ==> !is_ear(points, active, j),
    decreases active.len() - start,
{
    if start < active.len() && !is_ear(points, active, start) {
        lemma_ear_from_range(points, active, start + 1);
    }
}

/// Twice the signed area of a polygon.
pub fn doubled_area(points: &[Point]) -> (area: i128)
    ensures
        area == twice_area(points@),
{
    let n: usize = points.len();
    let mut area: i128 = 0;
    let mut i: usize = 0;
    while i < n
        invariant
            i <= n,
            n == points.len(),
            area == edge_sum(points@, i as nat),
            -(i as int) * 0x8000_0000_0000_0000 <= area <= (i as int) * 0x8000_0000_0000_0000,
        decreases n - i,
    {
        let p = points[i];
        let q = if i + 1 == n {
            points[0]
        } else {
            points[i + 1]
        };
        proof {
            lemma_coordinate_product_bound(p.x as int, q.y as int);
            lemma_coordinate_product_bound(q.x as int, p.y as int);
        }
        let term: i128 = (p.x as i128) * (q.y as i128) - (q.x as i128) * (p.y as i128);
        area = area + term;
        i = i + 1;
    }
    area
}

/// The product of two coordinates is at most 2^62 either way.
proof fn lemma_coordinate_product_bound(u: int, v: int)
    requires
        -0x8000_0000 <= u <= 0x8000_0000,
        -0x8000_0000 <= v <= 0x8000_0000,
    ensures
        -0x4000_0000_0000_0000 <= u * v <= 0x4000_0000_0000_0000,
{
    assert(-0x4000_0000_0000_0000 <= u * v <= 0x4000_0000_0000_0000) by (nonlinear_arith)
        requires
            -0x8000_0000 <= u <= 0x8000_0000,
            -0x8000_0000 <= v <= 0x8000_0000,
    ;
}

/// Whether the vertex at position `i` of the active list is an ear.
fn is_ear_at(points: &[Point], active: &Vec<usize>, i: usize) -> (ear: bool)
    requires
        i < active.len(),
        indices_below(active@, points@.len()),
    ensures
        ear == is_ear(points@, active@, i as int),
{
    let m: usize = active.len();
    let prev: usize = if i == 0 {
        active[m - 1]
    } else {
        active[i - 1]
    };
    let curr: usize = active[i];
    let next: usize = if i + 1 == m {
        active[0]
    } else {
        active[i + 1]
    };
    let a = points[prev];
    let b = points[curr];
    let c = points[next];
    if !is_convex(a, b, c) {
        return false;
    }
    let ghost t = ear_triangle(active@, i as int);
    let mut k: usize = 0;
    while k < m
        invariant
            k <= m,
            m == active.len(),
            indices_below(active@, points@.len()),
            t == (prev, curr, next),
            t == ear_triangle(active@, i as int),
            prev < points@.len(),
            curr < points@.len(),
            next < points@.len(),
            cross(a, b, c) > 0,
            a == points@[prev as int],
            b == points@[curr as int],
            c == points@[next as int],
            forall|j: int| 0 <= j < k ==> !blocks(points@, t, #[trigger] active@[j]),
        decreases m - k,
    {
        let other: usize = active[k];
        if other != prev && other != curr && other != next {
            if is_point_in_triangle(a, b, c, points[other]) {
                assert(blocks(points@, t, active@[k as int]));
                return false;
            }
        }
        k = k + 1;
    }
    true
}

/// The position of the first ear of the active list, if it has one.
fn find_ear(points: &[Point], active: &Vec<usize>) -> (found: Option<usize>)
    requires
        indices_below(active@, points@.len()),
    ensures
        match found {
            Some(i) => i < active.len() && i == ear_from(points@, active@, 0),
            None => ear_from(points@, active@, 0) >= active.len(),
        },
{
    let m: usize = active.len();
    let mut i: usize = 0;
    while i < m
        invariant
            i <= m,
            m == active.len(),
            indices_below(active@, points@.len()),
            ear_from(points@, active@, 0) == ear_from(points@, active@, i as int),
        decreases m - i,
    {
        if is_ear_at(points, active, i) {
            return Some(i);
        }
        i = i + 1;
    }
    None
}

/// Cuts a simple polygon into triangles by clipping one ear after another.
///
/// The vertices are worked through in the direction in which the polygon's
/// signed area is not negative. As long as more than three are left, the
/// first one that is an ear is cut off as a triangle; the last three are the
/// last triangle. Where no vertex is an ear, or after [`CLIP_LIMIT`] ears,
/// the triangles found so far are the result. Fewer than three points give
/// no triangle.
pub fn triangulate_polygon(points: &[Point]) -> (triangles: Vec<Triangle>)
    ensures
        triangles@ == triangulation(points@),
        corners_below(triangles@, points@.len()),
        points@.len() >= 3 ==> triangles@.len() <= points@.len() - 2,
{
    let n: usize = points.len();
    if n < 3 {
        return Vec::new();
    }
    let forwards: bool = doubled_area(points) > 0;
    let mut active: Vec<usize> = Vec::with_capacity(n);
    let mut k: usize = 0;
    while k < n
        invariant
            k <= n,
            n == points.len(),
            active@.len() == k,
            forall|j: int|
                0 <= j < k ==> #[trigger] active@[j] == (if forwards {
                    j
                } else {
                    n - 1 - j
                }),
        decreases n - k,
    {
        active.push(
            if forwards {
                k
            } else {
                n - 1 - k
            },
        );
        k = k + 1;
    }
    assert(active@ =~= clipping_order(points@));
    proof {
        lemma_clip_ears_bounds(points@, active@, CLIP_LIMIT as nat);
    }
    let mut triangles: Vec<Triangle> = Vec::with_capacity(n - 2);
    let mut clipped: usize = 0;
    while active.len() > 3 && clipped < CLIP_LIMIT
        invariant
            clipped <= CLIP_LIMIT,
            indices_below(active@, points@.len()),
            triangles@ + clip_ears(points@, active@, (CLIP_LIMIT - clipped) as nat)
                == triangulation(points@),
        ensures
            active.len() > 3 ==> clip_ears(points@, active@, (CLIP_LIMIT - clipped) as nat).len()
                == 0,
        decreases CLIP_LIMIT - clipped,
    {
        let ghost before = active@;
        let ghost found = triangles@;
        let ghost budget = (CLIP_LIMIT - clipped) as nat;
        match find_ear(points, &active) {
            Some(i) => {
                let m: usize = active.len();
                let prev: usize = if i == 0 {
                    active[m - 1]
                } else {
                    active[i - 1]
                };
                let next: usize = if i + 1 == m {
                    active[0]
                } else {
                    active[i + 1]
                };
                triangles.push((prev, active[i], next));
                active.remove(i);
                clipped = clipped + 1;
                proof {
                    let rest = clip_ears(points@, before.remove(i as int), (budget - 1) as nat);
                    assert(clip_ears(points@, before, budget) == seq![
                        ear_triangle(before, i as int),
                    ] + rest);
                    assert(triangles@ + rest =~= found + clip_ears(points@, before, budget));
                    assert forall|j: int| 0 <= j < active@.len() implies #[trigger] active@[j]
                        < points@.len() by {
                        if j < i {
                            assert(active@[j] == before[j]);
                        } else {
                            assert(active@[j] == before[j + 1]);
                        }
                    }
                }
            },
            None => {
                break ;
            },
        }
    }
    if active.len() == 3 {
        triangles.push((active[0], active[1], active[2]));
    }
    assert(triangles@ =~= triangulation(points@));
    triangles
}

} // verus!
