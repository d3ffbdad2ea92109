//! What ear clipping keeps: the area of the polygon, wherever it gets as
//! far as the last triangle, and that it always does on a strictly convex
//! polygon.

use crate::geometry::{
    blocks, clip_ears, clipping_order, cross, ear_from, ear_triangle, edge_sum, edge_term,
    in_triangle, is_ear, lemma_cross_identities, lemma_cross_is_wedge_sum, lemma_ear_from_range,
    lemma_wedge_antisymmetric, next_index, prev_index, triangulation, twice_area, wedge, Point,
    Triangle, CLIP_LIMIT,
};
use vstd::prelude::*;

verus! {

/// The points that a vertex list names, in its order.
pub open spec fn vertices(points: Seq<Point>, order: Seq<usize>) -> Seq<Point> {
    Seq::new(order.len(), |k: int| points[order[k] as int])
}

/// Twice the signed area of a triangle of the triangulation.
pub open spec fn triangle_area(points: Seq<Point>, t: Triangle) -> int {
    cross(points[t.0 as int], points[t.1 as int], points[t.2 as int])
}

/// Twice the signed areas of some triangles, added up.
pub open spec fn area_sum(points: Seq<Point>, triangles: Seq<Triangle>) -> int
    decreases triangles.len(),
{
    if triangles.len() == 0 {
        0
    } else {
        triangle_area(points, triangles.first()) + area_sum(points, triangles.drop_first())
    }
}

/// Where the edges `lo..hi` of one polygon have the terms of the edges
/// `lo + shift..hi + shift` of another, their sums over these edges agree.
proof fn lemma_edge_sums_agree(p: Seq<Point>, q: Seq<Point>, shift: int, lo: nat, hi: nat)
    requires
        lo <= hi,
        0 <= lo + shift,
        forall|j: int| lo <= j < hi ==> #[trigger] edge_term(q, j) == edge_term(p, j + shift),
    ensures
        edge_sum(q, hi) - edge_sum(q, lo) == edge_sum(p, (hi + shift) as nat) - edge_sum(
            p,
            (lo + shift) as nat,
        ),
    decreases hi - lo,
{
    if lo < hi {
        lemma_edge_sums_agree(p, q, shift, lo, (hi - 1) as nat);
        assert(edge_term(q, hi - 1) == edge_term(p, hi - 1 + shift));
    }
}

/// Taking one vertex out of a polygon takes from its area the triangle that
/// the vertex spans with its two neighbours.
pub proof fn lemma_area_without_vertex(polygon: Seq<Point>, i: int)
    requires
        polygon.len() >= 3,
        0 <= i < polygon.len(),
    ensures
        twice_area(polygon) == twice_area(polygon.remove(i)) + cross(
            polygon[prev_index(i, polygon.len() as int)],
            polygon[i],
            polygon[next_index(i, polygon.len() as int)],
        ),
{
    let m = polygon.len() as int;
    let rest = polygon.remove(i);
    let prev = polygon[prev_index(i, m)];
    let curr = polygon[i];
    let next = polygon[next_index(i, m)];
    lemma_cross_is_wedge_sum(prev, curr, next);
    lemma_wedge_antisymmetric(prev, next);
    assert(rest.len() == m - 1);
    assert forall|j: int| 0 <= j < i implies rest[j] == polygon[j] by {}
    assert forall|j: int| i <= j < m - 1 implies rest[j] == polygon[j + 1] by {}
    if i == 0 {
        // The edges 0..m-2 of the rest are the edges 1..m-1 of the polygon.
        assert forall|j: int| 0 <= j < m - 2 implies #[trigger] edge_term(rest, j) == edge_term(
            polygon,
            j + 1,
        ) by {}
        lemma_edge_sums_agree(polygon, rest, 1, 0, (m - 2) as nat);
        assert(edge_sum(polygon, 1) == edge_sum(polygon, 0) + edge_term(polygon, 0));
        assert(edge_sum(polygon, m as nat) == edge_sum(polygon, (m - 1) as nat) + edge_term(
            polygon,
            m - 1,
        ));
        assert(edge_sum(rest, (m - 1) as nat) == edge_sum(rest, (m - 2) as nat) + edge_term(
            rest,
            m - 2,
        ));
        assert(edge_term(rest, m - 2) == wedge(prev, next));
    } else if i == m - 1 {
        // The edges 0..m-2 of the rest are those of the polygon.
        assert forall|j: int| 0 <= j < m - 2 implies #[trigger] edge_term(rest, j) == edge_term(
            polygon,
            j + 0,
        ) by {}
        lemma_edge_sums_agree(polygon, rest, 0, 0, (m - 2) as nat);
        assert(edge_sum(polygon, m as nat) == edge_sum(polygon, (m - 1) as nat) + edge_term(
            polygon,
            m - 1,
        ));
        assert(edge_sum(polygon, (m - 1) as nat) == edge_sum(polygon, (m - 2) as nat)
            + edge_term(polygon, m - 2));
        assert(edge_sum(rest, (m - 1) as nat) == edge_sum(rest, (m - 2) as nat) + edge_term(
            rest,
            m - 2,
        ));
        assert(edge_term(rest, m - 2) == wedge(prev, next));
    } else {
        // Before the gap the edges are the same, behind it one further on.
        assert forall|j: int| 0 <= j < i - 1 implies #[trigger] edge_term(rest, j) == edge_term(
            polygon,
            j + 0,
        ) by {}
        lemma_edge_sums_agree(polygon, rest, 0, 0, (i - 1) as nat);
        assert forall|j: int| i <= j < m - 1 implies #[trigger] edge_term(rest, j) == edge_term(
            polygon,
            j + 1,
        ) by {}
        lemma_edge_sums_agree(polygon, rest, 1, i as nat, (m - 1) as nat);
        assert(edge_sum(rest, i as nat) == edge_sum(rest, (i - 1) as nat) + edge_term(
            rest,
            i - 1,
        ));
        assert(edge_term(rest, i - 1) == wedge(prev, next));
        assert(edge_sum(polygon, (i + 1) as nat) == edge_sum(polygon, i as nat) + edge_term(
            polygon,
            i,
        ));
        assert(edge_sum(polygon, i as nat) == edge_sum(polygon, (i - 1) as nat) + edge_term(
            polygon,
            i - 1,
        ));
    }
}

/// Going round a polygon the other way changes the sign of its area.
pub proof fn lemma_area_of_reverse(polygon: Seq<Point>)
    ensures
        twice_area(polygon.reverse()) == -twice_area(polygon),
{
    let m = polygon.len() as int;
    let back = polygon.reverse();
    if m > 0 {
        lemma_reverse_edge_sum(polygon, (m - 1) as nat);
        lemma_wedge_antisymmetric(polygon[m - 1], polygon[0]);
        assert(edge_term(back, m - 1) == wedge(polygon[0], polygon[m - 1]));
        assert(edge_term(polygon, m - 1) == wedge(polygon[m - 1], polygon[0]));
    }
}

/// The first `k` edges of the reversed polygon are the `k` edges before the
/// closing one of the polygon itself, each turned round.
proof fn lemma_reverse_edge_sum(polygon: Seq<Point>, k: nat)
    requires
        k < polygon.len(),
    ensures
        edge_sum(polygon.reverse(), k) == -(edge_sum(polygon, (polygon.len() - 1) as nat)
            - edge_sum(polygon, (polygon.len() - 1 - k) as nat)),
    decreases k,
{
    let m = polygon.len() as int;
    let back = polygon.reverse();
    if k > 0 {
        lemma_reverse_edge_sum(polygon, (k - 1) as nat);
        // Edge k-1 of the reverse leads from vertex m-k to vertex m-k-1.
        assert(back[k - 1] == polygon[m - k]);
        assert(back[k as int] == polygon[m - 1 - k]);
        lemma_wedge_antisymmetric(polygon[m - 1 - k], polygon[m - k]);
        assert(edge_term(back, k - 1) == wedge(polygon[m - k], polygon[m - 1 - k]));
        assert(edge_term(polygon, m - 1 - k) == wedge(polygon[m - 1 - k], polygon[m - k]));
        assert(edge_sum(polygon, (m - k) as nat) == edge_sum(polygon, (m - 1 - k) as nat)
            + edge_term(polygon, m - 1 - k));
    }
}

/// The area of a triangle is that of the polygon of its three corners.
proof fn lemma_area_of_three(a: Point, b: Point, c: Point)
    ensures
        twice_area(seq![a, b, c]) == cross(a, b, c),
{
    let t = seq![a, b, c];
    lemma_cross_is_wedge_sum(a, b, c);
    assert(edge_sum(t, 0) == 0);
    assert(edge_sum(t, 1) == edge_sum(t, 0) + edge_term(t, 0));
    assert(edge_sum(t, 2) == edge_sum(t, 1) + edge_term(t, 1));
    assert(edge_sum(t, 3) == edge_sum(t, 2) + edge_term(t, 2));
}

/// Wherever ear clipping gets as far as the last triangle, the triangles
/// have together the area of the polygon that the active list went round.
pub proof fn lemma_clipping_keeps_area(points: Seq<Point>, active: Seq<usize>, budget: nat)
    requires
        active.len() >= 3,
        clip_ears(points, active, budget).len() == active.len() - 2,
    ensures
        area_sum(points, clip_ears(points, active, budget)) == twice_area(
            vertices(points, active),
        ),
    decreases budget,
{
    let found = clip_ears(points, active, budget);
    let polygon = vertices(points, active);
    if active.len() == 3 {
        assert(found.drop_first() =~= Seq::<Triangle>::empty());
        assert(area_sum(points, found.drop_first()) == 0);
        assert(polygon =~= seq![polygon[0], polygon[1], polygon[2]]);
        lemma_area_of_three(polygon[0], polygon[1], polygon[2]);
    } else {
        let i = ear_from(points, active, 0);
        lemma_ear_from_range(points, active, 0);
        let rest = clip_ears(points, active.remove(i), (budget - 1) as nat);
        assert(found == seq![ear_triangle(active, i)] + rest);
        assert(found.drop_first() =~= rest);
        lemma_clipping_keeps_area(points, active.remove(i), (budget - 1) as nat);
        assert(vertices(points, active.remove(i)) =~= polygon.remove(i));
        lemma_area_without_vertex(polygon, i);
    }
}

/// Whether the points that a vertex list names turn the positive way at
/// every three of them, taken in the list's order.
pub open spec fn turns_positive(points: Seq<Point>, active: Seq<usize>) -> bool {
    forall|a: int, b: int, c: int|
        0 <= a < b < c < active.len() ==> #[trigger] triangle_area(
            points,
            (active[a], active[b], active[c]),
        ) > 0
}

/// Every triangle of the sequence has a positive area.
pub open spec fn all_positive(points: Seq<Point>, triangles: Seq<Triangle>) -> bool {
    forall|t: int| 0 <= t < triangles.len() ==> triangle_area(points, #[trigger] triangles[t]) > 0
}

/// In a list of more than three vertices that turn the positive way
/// throughout, the first is an ear.
proof fn lemma_first_is_ear(points: Seq<Point>, active: Seq<usize>)
    requires
        active.len() > 3,
        turns_positive(points, active),
    ensures
        is_ear(points, active, 0),
{
    let m = active.len() as int;
    let t = ear_triangle(active, 0);
    let a = points[t.0 as int];
    let b = points[t.1 as int];
    let c = points[t.2 as int];
    assert(t == (active[m - 1], active[0], active[1]));
    assert(triangle_area(points, (active[0], active[1], active[m - 1])) > 0);
    lemma_cross_identities(b, c, a, a);
    assert(cross(a, b, c) > 0);
    assert forall|k: int| 0 <= k < m implies !blocks(points, t, #[trigger] active[k]) by {
        if 1 < k < m - 1 {
            let p = points[active[k] as int];
            assert(triangle_area(points, (active[1], active[k], active[m - 1])) > 0);
            // `p` is on the far side of the edge from `c` back to `a`.
            lemma_cross_identities(c, p, a, a);
            assert(cross(c, a, p) < 0);
            assert(!in_triangle(a, b, c, p));
        }
    }
}

/// A list of vertices that turn the positive way throughout is clipped down
/// to its last triangle, if the budget lasts, and every triangle has a
/// positive area.
proof fn lemma_convex_is_clipped(points: Seq<Point>, active: Seq<usize>, budget: nat)
    requires
        active.len() >= 3,
        budget + 3 >= active.len(),
        turns_positive(points, active),
    ensures
        clip_ears(points, active, budget).len() == active.len() - 2,
        all_positive(points, clip_ears(points, active, budget)),
    decreases budget,
{
    let found = clip_ears(points, active, budget);
    let m = active.len() as int;
    if m == 3 {
        assert(triangle_area(points, (active[0], active[1], active[2])) > 0);
    } else {
        lemma_first_is_ear(points, active);
        assert(ear_from(points, active, 0) == 0);
        let rest_active = active.remove(0);
        let rest = clip_ears(points, rest_active, (budget - 1) as nat);
        assert(found == seq![ear_triangle(active, 0)] + rest);
        assert(turns_positive(points, rest_active)) by {
            assert forall|a: int, b: int, c: int|
                0 <= a < b < c < rest_active.len() implies #[trigger] triangle_area(
                points,
                (rest_active[a], rest_active[b], rest_active[c]),
            ) > 0 by {
                assert(triangle_area(points, (active[a + 1], active[b + 1], active[c + 1])) > 0);
            }
        }
        lemma_convex_is_clipped(points, rest_active, (budget - 1) as nat);
        // The ear itself: last, first and second vertex.
        assert(triangle_area(points, (active[0], active[1], active[m - 1])) > 0);
        lemma_cross_identities(
            points[active[0] as int],
            points[active[1] as int],
            points[active[m - 1] as int],
            points[active[0] as int],
        );
        assert(triangle_area(points, ear_triangle(active, 0)) > 0);
        assert forall|t: int| 0 <= t < found.len() implies triangle_area(
            points,
            #[trigger] found[t],
        ) > 0 by {
            if t > 0 {
                assert(found[t] == rest[t - 1]);
            }
        }
    }
}

/// The areas of triangles that are all positive add up to a positive number,
/// unless there is no triangle.
pub proof fn lemma_positive_sum(points: Seq<Point>, triangles: Seq<Triangle>)
    requires
        all_positive(points, triangles),
    ensures
        area_sum(points, triangles) >= 0,
        triangles.len() > 0 ==> area_sum(points, triangles) > 0,
    decreases triangles.len(),
{
    if triangles.len() > 0 {
        let rest = triangles.drop_first();
        assert forall|t: int| 0 <= t < rest.len() implies triangle_area(points, #[trigger] rest[t])
            > 0 by {
            assert(rest[t] == triangles[t + 1]);
        }
        lemma_positive_sum(points, rest);
        assert(triangle_area(points, triangles[0]) > 0);
    }
}

/// Whether a polygon is strictly convex: every three of its vertices, taken
/// in the polygon's order, turn the same way, and no three are in line.
pub open spec fn strictly_convex(points: Seq<Point>) -> bool {
    ||| forall|a: int, b: int, c: int|
        0 <= a < b < c < points.len() ==> #[trigger] cross(points[a], points[b], points[c]) > 0
    ||| forall|a: int, b: int, c: int|
        0 <= a < b < c < points.len() ==> #[trigger] cross(points[a], points[b], points[c]) < 0
}

/// The absolute value of an integer.
pub open spec fn magnitude(v: int) -> int {
    if v < 0 {
        -v
    } else {
        v
    }
}

/// A strictly convex polygon of `n` vertices, with `n` at least 3 and no
/// more than the clip limit allows, is cut into exactly `n - 2` triangles.
/// Each has a positive area, and together they have the area of the polygon.
pub proof fn lemma_convex_polygon_is_triangulated(points: Seq<Point>)
    requires
        3 <= points.len() <= CLIP_LIMIT + 3,
        strictly_convex(points),
    ensures
        triangulation(points).len() == points.len() - 2,
        all_positive(points, triangulation(points)),
        area_sum(points, triangulation(points)) == magnitude(twice_area(points)),
{
    let n = points.len();
    let forwards = Seq::new(n, |k: int| k as usize);
    let backwards = Seq::new(n, |k: int| (n - 1 - k) as usize);
    let budget = CLIP_LIMIT as nat;
    if forall|a: int, b: int, c: int|
        0 <= a < b < c < points.len() ==> #[trigger] cross(points[a], points[b], points[c]) > 0 {
        assert(turns_positive(points, forwards)) by {
            assert forall|a: int, b: int, c: int|
                0 <= a < b < c < n implies #[trigger] triangle_area(
                points,
                (forwards[a], forwards[b], forwards[c]),
            ) > 0 by {
                assert(cross(points[a], points[b], points[c]) > 0);
            }
        }
        lemma_convex_is_clipped(points, forwards, budget);
        lemma_clipping_keeps_area(points, forwards, budget);
        lemma_positive_sum(points, clip_ears(points, forwards, budget));
        assert(vertices(points, forwards) =~= points);
        assert(twice_area(points) > 0);
        assert(clipping_order(points) == forwards);
    } else {
        assert(turns_positive(points, backwards)) by {
            assert forall|a: int, b: int, c: int|
                0 <= a < b < c < n implies #[trigger] triangle_area(
                points,
                (backwards[a], backwards[b], backwards[c]),
            ) > 0 by {
                let (pa, pb, pc) = (points[n - 1 - c], points[n - 1 - b], points[n - 1 - a]);
                assert(cross(pa, pb, pc) < 0);
                lemma_cross_identities(pa, pb, pc, pa);
                lemma_cross_identities(pc, pa, pb, pa);
            }
        }
        lemma_convex_is_clipped(points, backwards, budget);
        lemma_clipping_keeps_area(points, backwards, budget);
        lemma_positive_sum(points, clip_ears(points, backwards, budget));
        assert(vertices(points, backwards) =~= points.reverse());
        lemma_area_of_reverse(points);
        assert(twice_area(points) < 0);
        assert(clipping_order(points) == backwards);
    }
}

/// Whatever the polygon: where the triangulation has two triangles fewer
/// than the polygon has vertices, the signed areas of the triangles add up
/// to the area of the polygon.
pub proof fn lemma_full_triangulation_keeps_area(points: Seq<Point>)
    requires
        3 <= points.len() <= usize::MAX,
        triangulation(points).len() == points.len() - 2,
    ensures
        area_sum(points, triangulation(points)) == magnitude(twice_area(points)),
{
    let n = points.len();
    let order = clipping_order(points);
    lemma_clipping_keeps_area(points, order, CLIP_LIMIT as nat);
    if twice_area(points) > 0 {
        assert(vertices(points, order) =~= points);
    } else {
        assert(vertices(points, order) =~= points.reverse());
        lemma_area_of_reverse(points);
    }
}

/// Every triangle that ear clipping yields before its last one was an ear,
/// and has a positive area.
pub proof fn lemma_ears_have_area(points: Seq<Point>, active: Seq<usize>, budget: nat)
    ensures
        forall|t: int|
            0 <= t < clip_ears(points, active, budget).len() - 1 ==> triangle_area(
                points,
                #[trigger] clip_ears(points, active, budget)[t],
            ) > 0,
    decreases budget,
{
    let found = clip_ears(points, active, budget);
    if found.len() > 1 {
        let i = ear_from(points, active, 0);
        lemma_ear_from_range(points, active, 0);
        let rest = clip_ears(points, active.remove(i), (budget - 1) as nat);
        assert(found == seq![ear_triangle(active, i)] + rest);
        lemma_ears_have_area(points, active.remove(i), (budget - 1) as nat);
        assert forall|t: int| 0 <= t < found.len() - 1 implies triangle_area(
            points,
            #[trigger] found[t],
        ) > 0 by {
            if t > 0 {
                assert(found[t] == rest[t - 1]);
            }
        }
    }
}

/// Whatever the polygon, every triangle of its triangulation but the last
/// has a positive area.
pub proof fn lemma_triangles_before_the_last_have_area(points: Seq<Point>)
    ensures
        forall|t: int|
            0 <= t < triangulation(points).len() - 1 ==> triangle_area(
                points,
                #[trigger] triangulation(points)[t],
            ) > 0,
{
    if points.len() >= 3 {
        lemma_ears_have_area(points, clipping_order(points), CLIP_LIMIT as nat);
    }
}

/// Whether `p` lies inside the triangle `a b c` and on none of its edges.
pub open spec fn strictly_in_triangle(a: Point, b: Point, c: Point, p: Point) -> bool {
    ||| cross(a, b, p) > 0 && cross(b, c, p) > 0 && cross(c, a, p) > 0
    ||| cross(a, b, p) < 0 && cross(b, c, p) < 0 && cross(c, a, p) < 0
}

/// The triangle of an ear has an empty interior: no active vertex but its
/// own corners lies inside it. The ear test asks more, since it also turns
/// down a triangle with another vertex on one of its edges.
pub proof fn lemma_ear_interior_is_empty(points: Seq<Point>, active: Seq<usize>, i: int, k: int)
    requires
        is_ear(points, active, i),
        0 <= k < active.len(),
    ensures
        ({
            let t = ear_triangle(active, i);
            active[k] == t.0 || active[k] == t.1 || active[k] == t.2 || !strictly_in_triangle(
                points[t.0 as int],
                points[t.1 as int],
                points[t.2 as int],
                points[active[k] as int],
            )
        }),
{
    let t = ear_triangle(active, i);
    let (a, b, c) = (points[t.0 as int], points[t.1 as int], points[t.2 as int]);
    let p = points[active[k] as int];
    assert(!blocks(points, t, active[k]));
    lemma_cross_identities(a, b, c, p);
}

} // verus!
