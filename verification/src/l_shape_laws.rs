//! Ear clipping on an L: a rectangle out of one corner of which a smaller
//! rectangle is cut. Whatever its measures, whichever corner it is given
//! from and whichever way round, it is cut into four triangles.

use crate::geometry::{
    blocks, clip_ears, cross, ear_from, is_ear, lemma_cross_identities, triangulation, twice_area,
    Point, Triangle, CLIP_LIMIT,
};
use crate::geometry_laws::{
    all_positive, area_sum, lemma_area_of_reverse, lemma_clipping_keeps_area, lemma_positive_sum,
    magnitude, strictly_in_triangle, triangle_area, vertices,
};
use vstd::prelude::*;

verus! {

/// The orientation of three corners of a polygon, named by their places in
/// a list of its corners.
pub open spec fn turn(points: Seq<Point>, order: Seq<usize>, i: int, j: int, k: int) -> int {
    cross(points[order[i] as int], points[order[j] as int], points[order[k] as int])
}

/// Whether six corners turn as the corners of an L do that is named the
/// positive way round from the corner opposite its notch, so that corner 3
/// is the corner of the notch. With `a` and `b` the two parts of one side
/// of the L and `c` and `d` the two parts of the other, `p`, `q`, `r` and
/// `s` stand for the four areas `a c`, `a d`, `b c` and `b d`; the
/// orientation of any three corners is a sum of these.
#[verifier::opaque]
pub open spec fn l_turns(points: Seq<Point>, order: Seq<usize>) -> bool {
    let r = turn(points, order, 0, 2, 3);
    let q = turn(points, order, 0, 3, 4);
    let s = -turn(points, order, 1, 3, 4);
    let p = turn(points, order, 0, 1, 2) - r;
    &&& p > 0
    &&& q > 0
    &&& r > 0
    &&& s > 0
    &&& turn(points, order, 0, 1, 2) == p + r
    &&& turn(points, order, 0, 1, 3) == p + r
    &&& turn(points, order, 0, 1, 4) == p + q + r + s
    &&& turn(points, order, 0, 1, 5) == p + q + r + s
    &&& turn(points, order, 0, 2, 3) == r
    &&& turn(points, order, 0, 2, 4) == q + r + s
    &&& turn(points, order, 0, 2, 5) == p + q + r + s
    &&& turn(points, order, 0, 3, 4) == q
    &&& turn(points, order, 0, 3, 5) == p + q
    &&& turn(points, order, 0, 4, 5) == p + q
    &&& turn(points, order, 1, 2, 3) == r
    &&& turn(points, order, 1, 2, 4) == r
    &&& turn(points, order, 1, 2, 5) == p + r
    &&& turn(points, order, 1, 3, 4) == -s
    &&& turn(points, order, 1, 3, 5) == p - s
    &&& turn(points, order, 1, 4, 5) == p + q
    &&& turn(points, order, 2, 3, 4) == -s
    &&& turn(points, order, 2, 3, 5) == -s
    &&& turn(points, order, 2, 4, 5) == q
    &&& turn(points, order, 3, 4, 5) == q
}

/// Six different corners of the polygon that turn as those of an L.
pub open spec fn l_setting(points: Seq<Point>, order: Seq<usize>) -> bool {
    &&& order.len() == 6
    &&& forall|i: int| 0 <= i < 6 ==> #[trigger] order[i] < points.len()
    &&& forall|i: int, j: int| 0 <= i < j < 6 ==> #[trigger] order[i] != #[trigger] order[j]
    &&& l_turns(points, order)
}

/// A place in a round of six, for a count that has gone round at most once.
pub open spec fn round(n: int) -> int {
    if n < 6 {
        n
    } else {
        n - 6
    }
}

/// The six corners in the order in which they are worked through when the
/// first of them is corner `first`.
pub open spec fn given_from(order: Seq<usize>, first: int) -> Seq<usize> {
    Seq::new(6, |j: int| order[round(j + first)])
}

/// Whether a corner of the polygon does not lie strictly inside a triangle.
pub open spec fn outside(points: Seq<Point>, t: Triangle, corner: usize) -> bool {
    !strictly_in_triangle(
        points[t.0 as int],
        points[t.1 as int],
        points[t.2 as int],
        points[corner as int],
    )
}

/// Whether a triangle has a positive area and holds none of the six corners
/// strictly inside.
#[verifier::opaque]
pub open spec fn sound_triangle(points: Seq<Point>, order: Seq<usize>, t: Triangle) -> bool {
    &&& triangle_area(points, t) > 0
    &&& outside(points, t, order[0])
    &&& outside(points, t, order[1])
    &&& outside(points, t, order[2])
    &&& outside(points, t, order[3])
    &&& outside(points, t, order[4])
    &&& outside(points, t, order[5])
}

/// Whether there are four triangles, each of them sound.
pub open spec fn sound_triangles(
    points: Seq<Point>,
    order: Seq<usize>,
    found: Seq<Triangle>,
) -> bool {
    &&& found.len() == 4
    &&& sound_triangle(points, order, found[0])
    &&& sound_triangle(points, order, found[1])
    &&& sound_triangle(points, order, found[2])
    &&& sound_triangle(points, order, found[3])
}

/// A sound triangle has a positive area and does not hold the corner at
/// place `j` of the L strictly inside.
proof fn lemma_sound_triangle(points: Seq<Point>, order: Seq<usize>, t: Triangle, j: int)
    requires
        sound_triangle(points, order, t),
        0 <= j < 6,
    ensures
        triangle_area(points, t) > 0,
        outside(points, t, order[j]),
{
    reveal(sound_triangle);
}

/// Naming three points from another start keeps their orientation, and
/// swapping two of them changes its sign.
proof fn lemma_cross_in_any_order()
    ensures
        forall|a: Point, b: Point, c: Point| #[trigger]
            cross(a, b, c) == cross(b, c, a) && cross(a, b, c) == -cross(a, c, b),
{
    assert forall|a: Point, b: Point, c: Point| #[trigger]
        cross(a, b, c) == cross(b, c, a) && cross(a, b, c) == -cross(a, c, b) by {
        lemma_cross_identities(a, b, c, a);
    }
}

/// Where the places before `i` hold no ear and place `i` holds one, the
/// first ear is at `i`.
proof fn lemma_ear_from_skips(points: Seq<Point>, active: Seq<usize>, start: int, i: int)
    requires
        0 <= start <= i < active.len(),
        is_ear(points, active, i),
        forall|j: int| start <= j < i ==> !is_ear(points, active, j),
    ensures
        ear_from(points, active, start) == i,
    decreases i - start,
{
    if start < i {
        lemma_ear_from_skips(points, active, start + 1, i);
    }
}

/// The L worked through from corner 0, where the notch reaches up to or
/// over the diagonal between corners 1 and 5.
proof fn lemma_l_from_corner_0_wide_notch(points: Seq<Point>, order: Seq<usize>, budget: nat)
    requires
        l_setting(points, order),
        budget >= 3,
        turn(points, order, 1, 3, 5) <= 0,
    ensures
        clip_ears(points, given_from(order, 0), budget) == seq![
            (order[0], order[1], order[2]),
            (order[0], order[2], order[3]),
            (order[5], order[0], order[3]),
            (order[3], order[4], order[5]),
        ],
        sound_triangles(
            points,
            order,
            clip_ears(points, given_from(order, 0), budget),
        ),
{
    reveal(l_turns);
    reveal(sound_triangle);
    lemma_cross_in_any_order();
    let act0 = seq![order[0], order[1], order[2], order[3], order[4], order[5]];
    assert(given_from(order, 0) =~= act0);
    assert(!is_ear(points, act0, 0)) by {
        assert(blocks(points, (order[5], order[0], order[1]), act0[3]));
    }
    assert(is_ear(points, act0, 1)) by {
        assert forall|k: int| 0 <= k < 6 implies !blocks(
            points,
            (order[0], order[1], order[2]),
            #[trigger] act0[k],
        ) by {}
    }
    lemma_ear_from_skips(points, act0, 0, 1);
    assert(act0.remove(1) =~= seq![order[0], order[2], order[3], order[4], order[5]]);
    let act1 = seq![order[0], order[2], order[3], order[4], order[5]];
    assert(!is_ear(points, act1, 0)) by {
        assert(blocks(points, (order[5], order[0], order[2]), act1[2]));
    }
    assert(is_ear(points, act1, 1)) by {
        assert forall|k: int| 0 <= k < 5 implies !blocks(
            points,
            (order[0], order[2], order[3]),
            #[trigger] act1[k],
        ) by {}
    }
    lemma_ear_from_skips(points, act1, 0, 1);
    assert(act1.remove(1) =~= seq![order[0], order[3], order[4], order[5]]);
    let act2 = seq![order[0], order[3], order[4], order[5]];
    assert(is_ear(points, act2, 0)) by {
        assert forall|k: int| 0 <= k < 4 implies !blocks(
            points,
            (order[5], order[0], order[3]),
            #[trigger] act2[k],
        ) by {}
    }
    lemma_ear_from_skips(points, act2, 0, 0);
    assert(act2.remove(0) =~= seq![order[3], order[4], order[5]]);
    let act3 = seq![order[3], order[4], order[5]];
    let rest1 = clip_ears(points, act1, (budget - 1) as nat);
    let rest2 = clip_ears(points, act2, (budget - 2) as nat);
    let rest3 = clip_ears(points, act3, (budget - 3) as nat);
    assert(rest3 =~= seq![(order[3], order[4], order[5])]);
    assert(rest2 =~= seq![(order[5], order[0], order[3])] + rest3);
    assert(rest1 =~= seq![(order[0], order[2], order[3])] + rest2);
    assert(clip_ears(points, act0, budget) =~= seq![(order[0], order[1], order[2])] + rest1);
}

/// The L worked through from corner 0, where the notch stays short of the
/// diagonal between corners 1 and 5.
proof fn lemma_l_from_corner_0_narrow_notch(points: Seq<Point>, order: Seq<usize>, budget: nat)
    requires
        l_setting(points, order),
        budget >= 3,
        turn(points, order, 1, 3, 5) > 0,
    ensures
        clip_ears(points, given_from(order, 0), budget) == seq![
            (order[5], order[0], order[1]),
            (order[1], order[2], order[3]),
            (order[5], order[1], order[3]),
            (order[3], order[4], order[5]),
        ],
        sound_triangles(
            points,
            order,
            clip_ears(points, given_from(order, 0), budget),
        ),
{
    reveal(l_turns);
    reveal(sound_triangle);
    lemma_cross_in_any_order();
    let act0 = seq![order[0], order[1], order[2], order[3], order[4], order[5]];
    assert(given_from(order, 0) =~= act0);
    assert(is_ear(points, act0, 0)) by {
        assert forall|k: int| 0 <= k < 6 implies !blocks(
            points,
            (order[5], order[0], order[1]),
            #[trigger] act0[k],
        ) by {}
    }
    lemma_ear_from_skips(points, act0, 0, 0);
    assert(act0.remove(0) =~= seq![order[1], order[2], order[3], order[4], order[5]]);
    let act1 = seq![order[1], order[2], order[3], order[4], order[5]];
    assert(!is_ear(points, act1, 0)) by {
        assert(blocks(points, (order[5], order[1], order[2]), act1[2]));
    }
    assert(is_ear(points, act1, 1)) by {
        assert forall|k: int| 0 <= k < 5 implies !blocks(
            points,
            (order[1], order[2], order[3]),
            #[trigger] act1[k],
        ) by {}
    }
    lemma_ear_from_skips(points, act1, 0, 1);
    assert(act1.remove(1) =~= seq![order[1], order[3], order[4], order[5]]);
    let act2 = seq![order[1], order[3], order[4], order[5]];
    assert(is_ear(points, act2, 0)) by {
        assert forall|k: int| 0 <= k < 4 implies !blocks(
            points,
            (order[5], order[1], order[3]),
            #[trigger] act2[k],
        ) by {}
    }
    lemma_ear_from_skips(points, act2, 0, 0);
    assert(act2.remove(0) =~= seq![order[3], order[4], order[5]]);
    let act3 = seq![order[3], order[4], order[5]];
    let rest1 = clip_ears(points, act1, (budget - 1) as nat);
    let rest2 = clip_ears(points, act2, (budget - 2) as nat);
    let rest3 = clip_ears(points, act3, (budget - 3) as nat);
    assert(rest3 =~= seq![(order[3], order[4], order[5])]);
    assert(rest2 =~= seq![(order[5], order[1], order[3])] + rest3);
    assert(rest1 =~= seq![(order[1], order[2], order[3])] + rest2);
    assert(clip_ears(points, act0, budget) =~= seq![(order[5], order[0], order[1])] + rest1);
}

/// The L worked through from corner 1.
proof fn lemma_l_from_corner_1(points: Seq<Point>, order: Seq<usize>, budget: nat)
    requires
        l_setting(points, order),
        budget >= 3,
    ensures
        clip_ears(points, given_from(order, 1), budget) == seq![
            (order[0], order[1], order[2]),
            (order[0], order[2], order[3]),
            (order[0], order[3], order[4]),
            (order[4], order[5], order[0]),
        ],
        sound_triangles(
            points,
            order,
            clip_ears(points, given_from(order, 1), budget),
        ),
{
    reveal(l_turns);
    reveal(sound_triangle);
    lemma_cross_in_any_order();
    let act0 = seq![order[1], order[2], order[3], order[4], order[5], order[0]];
    assert(given_from(order, 1) =~= act0);
    assert(is_ear(points, act0, 0)) by {
        assert forall|k: int| 0 <= k < 6 implies !blocks(
            points,
            (order[0], order[1], order[2]),
            #[trigger] act0[k],
        ) by {}
    }
    lemma_ear_from_skips(points, act0, 0, 0);
    assert(act0.remove(0) =~= seq![order[2], order[3], order[4], order[5], order[0]]);
    let act1 = seq![order[2], order[3], order[4], order[5], order[0]];
    assert(is_ear(points, act1, 0)) by {
        assert forall|k: int| 0 <= k < 5 implies !blocks(
            points,
            (order[0], order[2], order[3]),
            #[trigger] act1[k],
        ) by {}
    }
    lemma_ear_from_skips(points, act1, 0, 0);
    assert(act1.remove(0) =~= seq![order[3], order[4], order[5], order[0]]);
    let act2 = seq![order[3], order[4], order[5], order[0]];
    assert(is_ear(points, act2, 0)) by {
        assert forall|k: int| 0 <= k < 4 implies !blocks(
            points,
            (order[0], order[3], order[4]),
            #[trigger] act2[k],
        ) by {}
    }
    lemma_ear_from_skips(points, act2, 0, 0);
    assert(act2.remove(0) =~= seq![order[4], order[5], order[0]]);
    let act3 = seq![order[4], order[5], order[0]];
    let rest1 = clip_ears(points, act1, (budget - 1) as nat);
    let rest2 = clip_ears(points, act2, (budget - 2) as nat);
    let rest3 = clip_ears(points, act3, (budget - 3) as nat);
    assert(rest3 =~= seq![(order[4], order[5], order[0])]);
    assert(rest2 =~= seq![(order[0], order[3], order[4])] + rest3);
    assert(rest1 =~= seq![(order[0], order[2], order[3])] + rest2);
    assert(clip_ears(points, act0, budget) =~= seq![(order[0], order[1], order[2])] + rest1);
}

/// The L worked through from corner 2, where the notch reaches up to or
/// over the diagonal between corners 1 and 5.
proof fn lemma_l_from_corner_2_wide_notch(points: Seq<Point>, order: Seq<usize>, budget: nat)
    requires
        l_setting(points, order),
        budget >= 3,
        turn(points, order, 1, 3, 5) <= 0,
    ensures
        clip_ears(points, given_from(order, 2), budget) == seq![
            (order[1], order[2], order[3]),
            (order[3], order[4], order[5]),
            (order[3], order[5], order[0]),
            (order[3], order[0], order[1]),
        ],
        sound_triangles(
            points,
            order,
            clip_ears(points, given_from(order, 2), budget),
        ),
{
    reveal(l_turns);
    reveal(sound_triangle);
    lemma_cross_in_any_order();
    let act0 = seq![order[2], order[3], order[4], order[5], order[0], order[1]];
    assert(given_from(order, 2) =~= act0);
    assert(is_ear(points, act0, 0)) by {
        assert forall|k: int| 0 <= k < 6 implies !blocks(
            points,
            (order[1], order[2], order[3]),
            #[trigger] act0[k],
        ) by {}
    }
    lemma_ear_from_skips(points, act0, 0, 0);
    assert(act0.remove(0) =~= seq![order[3], order[4], order[5], order[0], order[1]]);
    let act1 = seq![order[3], order[4], order[5], order[0], order[1]];
    assert(!is_ear(points, act1, 0));
    assert(is_ear(points, act1, 1)) by {
        assert forall|k: int| 0 <= k < 5 implies !blocks(
            points,
            (order[3], order[4], order[5]),
            #[trigger] act1[k],
        ) by {}
    }
    lemma_ear_from_skips(points, act1, 0, 1);
    assert(act1.remove(1) =~= seq![order[3], order[5], order[0], order[1]]);
    let act2 = seq![order[3], order[5], order[0], order[1]];
    assert(!is_ear(points, act2, 0));
    assert(is_ear(points, act2, 1)) by {
        assert forall|k: int| 0 <= k < 4 implies !blocks(
            points,
            (order[3], order[5], order[0]),
            #[trigger] act2[k],
        ) by {}
    }
    lemma_ear_from_skips(points, act2, 0, 1);
    assert(act2.remove(1) =~= seq![order[3], order[0], order[1]]);
    let act3 = seq![order[3], order[0], order[1]];
    let rest1 = clip_ears(points, act1, (budget - 1) as nat);
    let rest2 = clip_ears(points, act2, (budget - 2) as nat);
    let rest3 = clip_ears(points, act3, (budget - 3) as nat);
    assert(rest3 =~= seq![(order[3], order[0], order[1])]);
    assert(rest2 =~= seq![(order[3], order[5], order[0])] + rest3);
    assert(rest1 =~= seq![(order[3], order[4], order[5])] + rest2);
    assert(clip_ears(points, act0, budget) =~= seq![(order[1], order[2], order[3])] + rest1);
}

/// The L worked through from corner 2, where the notch stays short of the
/// diagonal between corners 1 and 5.
proof fn lemma_l_from_corner_2_narrow_notch(points: Seq<Point>, order: Seq<usize>, budget: nat)
    requires
        l_setting(points, order),
        budget >= 3,
        turn(points, order, 1, 3, 5) > 0,
    ensures
        clip_ears(points, given_from(order, 2), budget) == seq![
            (order[1], order[2], order[3]),
            (order[3], order[4], order[5]),
            (order[1], order[3], order[5]),
            (order[5], order[0], order[1]),
        ],
        sound_triangles(
            points,
            order,
            clip_ears(points, given_from(order, 2), budget),
        ),
{
    reveal(l_turns);
    reveal(sound_triangle);
    lemma_cross_in_any_order();
    let act0 = seq![order[2], order[3], order[4], order[5], order[0], order[1]];
    assert(given_from(order, 2) =~= act0);
    assert(is_ear(points, act0, 0)) by {
        assert forall|k: int| 0 <= k < 6 implies !blocks(
            points,
            (order[1], order[2], order[3]),
            #[trigger] act0[k],
        ) by {}
    }
    lemma_ear_from_skips(points, act0, 0, 0);
    assert(act0.remove(0) =~= seq![order[3], order[4], order[5], order[0], order[1]]);
    let act1 = seq![order[3], order[4], order[5], order[0], order[1]];
    assert(!is_ear(points, act1, 0));
    assert(is_ear(points, act1, 1)) by {
        assert forall|k: int| 0 <= k < 5 implies !blocks(
            points,
            (order[3], order[4], order[5]),
            #[trigger] act1[k],
        ) by {}
    }
    lemma_ear_from_skips(points, act1, 0, 1);
    assert(act1.remove(1) =~= seq![order[3], order[5], order[0], order[1]]);
    let act2 = seq![order[3], order[5], order[0], order[1]];
    assert(is_ear(points, act2, 0)) by {
        assert forall|k: int| 0 <= k < 4 implies !blocks(
            points,
            (order[1], order[3], order[5]),
            #[trigger] act2[k],
        ) by {}
    }
    lemma_ear_from_skips(points, act2, 0, 0);
    assert(act2.remove(0) =~= seq![order[5], order[0], order[1]]);
    let act3 = seq![order[5], order[0], order[1]];
    let rest1 = clip_ears(points, act1, (budget - 1) as nat);
    let rest2 = clip_ears(points, act2, (budget - 2) as nat);
    let rest3 = clip_ears(points, act3, (budget - 3) as nat);
    assert(rest3 =~= seq![(order[5], order[0], order[1])]);
    assert(rest2 =~= seq![(order[1], order[3], order[5])] + rest3);
    assert(rest1 =~= seq![(order[3], order[4], order[5])] + rest2);
    assert(clip_ears(points, act0, budget) =~= seq![(order[1], order[2], order[3])] + rest1);
}

/// The L worked through from corner 3, the corner of its notch.
proof fn lemma_l_from_corner_3(points: Seq<Point>, order: Seq<usize>, budget: nat)
    requires
        l_setting(points, order),
        budget >= 3,
    ensures
        clip_ears(points, given_from(order, 3), budget) == seq![
            (order[3], order[4], order[5]),
            (order[3], order[5], order[0]),
            (order[2], order[3], order[0]),
            (order[0], order[1], order[2]),
        ],
        sound_triangles(
            points,
            order,
            clip_ears(points, given_from(order, 3), budget),
        ),
{
    reveal(l_turns);
    reveal(sound_triangle);
    lemma_cross_in_any_order();
    let act0 = seq![order[3], order[4], order[5], order[0], order[1], order[2]];
    assert(given_from(order, 3) =~= act0);
    assert(!is_ear(points, act0, 0));
    assert(is_ear(points, act0, 1)) by {
        assert forall|k: int| 0 <= k < 6 implies !blocks(
            points,
            (order[3], order[4], order[5]),
            #[trigger] act0[k],
        ) by {}
    }
    lemma_ear_from_skips(points, act0, 0, 1);
    assert(act0.remove(1) =~= seq![order[3], order[5], order[0], order[1], order[2]]);
    let act1 = seq![order[3], order[5], order[0], order[1], order[2]];
    assert(!is_ear(points, act1, 0));
    assert(is_ear(points, act1, 1)) by {
        assert forall|k: int| 0 <= k < 5 implies !blocks(
            points,
            (order[3], order[5], order[0]),
            #[trigger] act1[k],
        ) by {}
    }
    lemma_ear_from_skips(points, act1, 0, 1);
    assert(act1.remove(1) =~= seq![order[3], order[0], order[1], order[2]]);
    let act2 = seq![order[3], order[0], order[1], order[2]];
    assert(is_ear(points, act2, 0)) by {
        assert forall|k: int| 0 <= k < 4 implies !blocks(
            points,
            (order[2], order[3], order[0]),
            #[trigger] act2[k],
        ) by {}
    }
    lemma_ear_from_skips(points, act2, 0, 0);
    assert(act2.remove(0) =~= seq![order[0], order[1], order[2]]);
    let act3 = seq![order[0], order[1], order[2]];
    let rest1 = clip_ears(points, act1, (budget - 1) as nat);
    let rest2 = clip_ears(points, act2, (budget - 2) as nat);
    let rest3 = clip_ears(points, act3, (budget - 3) as nat);
    assert(rest3 =~= seq![(order[0], order[1], order[2])]);
    assert(rest2 =~= seq![(order[2], order[3], order[0])] + rest3);
    assert(rest1 =~= seq![(order[3], order[5], order[0])] + rest2);
    assert(clip_ears(points, act0, budget) =~= seq![(order[3], order[4], order[5])] + rest1);
}

/// The L worked through from corner 4.
proof fn lemma_l_from_corner_4(points: Seq<Point>, order: Seq<usize>, budget: nat)
    requires
        l_setting(points, order),
        budget >= 3,
    ensures
        clip_ears(points, given_from(order, 4), budget) == seq![
            (order[3], order[4], order[5]),
            (order[3], order[5], order[0]),
            (order[3], order[0], order[1]),
            (order[1], order[2], order[3]),
        ],
        sound_triangles(
            points,
            order,
            clip_ears(points, given_from(order, 4), budget),
        ),
{
    reveal(l_turns);
    reveal(sound_triangle);
    lemma_cross_in_any_order();
    let act0 = seq![order[4], order[5], order[0], order[1], order[2], order[3]];
    assert(given_from(order, 4) =~= act0);
    assert(is_ear(points, act0, 0)) by {
        assert forall|k: int| 0 <= k < 6 implies !blocks(
            points,
            (order[3], order[4], order[5]),
            #[trigger] act0[k],
        ) by {}
    }
    lemma_ear_from_skips(points, act0, 0, 0);
    assert(act0.remove(0) =~= seq![order[5], order[0], order[1], order[2], order[3]]);
    let act1 = seq![order[5], order[0], order[1], order[2], order[3]];
    assert(is_ear(points, act1, 0)) by {
        assert forall|k: int| 0 <= k < 5 implies !blocks(
            points,
            (order[3], order[5], order[0]),
            #[trigger] act1[k],
        ) by {}
    }
    lemma_ear_from_skips(points, act1, 0, 0);
    assert(act1.remove(0) =~= seq![order[0], order[1], order[2], order[3]]);
    let act2 = seq![order[0], order[1], order[2], order[3]];
    assert(is_ear(points, act2, 0)) by {
        assert forall|k: int| 0 <= k < 4 implies !blocks(
            points,
            (order[3], order[0], order[1]),
            #[trigger] act2[k],
        ) by {}
    }
    lemma_ear_from_skips(points, act2, 0, 0);
    assert(act2.remove(0) =~= seq![order[1], order[2], order[3]]);
    let act3 = seq![order[1], order[2], order[3]];
    let rest1 = clip_ears(points, act1, (budget - 1) as nat);
    let rest2 = clip_ears(points, act2, (budget - 2) as nat);
    let rest3 = clip_ears(points, act3, (budget - 3) as nat);
    assert(rest3 =~= seq![(order[1], order[2], order[3])]);
    assert(rest2 =~= seq![(order[3], order[0], order[1])] + rest3);
    assert(rest1 =~= seq![(order[3], order[5], order[0])] + rest2);
    assert(clip_ears(points, act0, budget) =~= seq![(order[3], order[4], order[5])] + rest1);
}

/// The L worked through from corner 5.
proof fn lemma_l_from_corner_5(points: Seq<Point>, order: Seq<usize>, budget: nat)
    requires
        l_setting(points, order),
        budget >= 3,
    ensures
        clip_ears(points, given_from(order, 5), budget) == seq![
            (order[4], order[5], order[0]),
            (order[0], order[1], order[2]),
            (order[0], order[2], order[3]),
            (order[0], order[3], order[4]),
        ],
        sound_triangles(
            points,
            order,
            clip_ears(points, given_from(order, 5), budget),
        ),
{
    reveal(l_turns);
    reveal(sound_triangle);
    lemma_cross_in_any_order();
    let act0 = seq![order[5], order[0], order[1], order[2], order[3], order[4]];
    assert(given_from(order, 5) =~= act0);
    assert(is_ear(points, act0, 0)) by {
        assert forall|k: int| 0 <= k < 6 implies !blocks(
            points,
            (order[4], order[5], order[0]),
            #[trigger] act0[k],
        ) by {}
    }
    lemma_ear_from_skips(points, act0, 0, 0);
    assert(act0.remove(0) =~= seq![order[0], order[1], order[2], order[3], order[4]]);
    let act1 = seq![order[0], order[1], order[2], order[3], order[4]];
    assert(!is_ear(points, act1, 0)) by {
        assert(blocks(points, (order[4], order[0], order[1]), act1[3]));
    }
    assert(is_ear(points, act1, 1)) by {
        assert forall|k: int| 0 <= k < 5 implies !blocks(
            points,
            (order[0], order[1], order[2]),
            #[trigger] act1[k],
        ) by {}
    }
    lemma_ear_from_skips(points, act1, 0, 1);
    assert(act1.remove(1) =~= seq![order[0], order[2], order[3], order[4]]);
    let act2 = seq![order[0], order[2], order[3], order[4]];
    assert(!is_ear(points, act2, 0)) by {
        assert(blocks(points, (order[4], order[0], order[2]), act2[2]));
    }
    assert(is_ear(points, act2, 1)) by {
        assert forall|k: int| 0 <= k < 4 implies !blocks(
            points,
            (order[0], order[2], order[3]),
            #[trigger] act2[k],
        ) by {}
    }
    lemma_ear_from_skips(points, act2, 0, 1);
    assert(act2.remove(1) =~= seq![order[0], order[3], order[4]]);
    let act3 = seq![order[0], order[3], order[4]];
    let rest1 = clip_ears(points, act1, (budget - 1) as nat);
    let rest2 = clip_ears(points, act2, (budget - 2) as nat);
    let rest3 = clip_ears(points, act3, (budget - 3) as nat);
    assert(rest3 =~= seq![(order[0], order[3], order[4])]);
    assert(rest2 =~= seq![(order[0], order[2], order[3])] + rest3);
    assert(rest1 =~= seq![(order[0], order[1], order[2])] + rest2);
    assert(clip_ears(points, act0, budget) =~= seq![(order[4], order[5], order[0])] + rest1);
}

/// Six corners that turn as those of an L are cut into four triangles, each
/// of positive area and with none of the six corners strictly inside,
/// whichever corner comes first.
pub proof fn lemma_l_is_clipped(points: Seq<Point>, order: Seq<usize>, first: int, budget: nat)
    requires
        l_setting(points, order),
        0 <= first < 6,
        budget >= 3,
    ensures
        sound_triangles(points, order, clip_ears(points, given_from(order, first), budget)),
{
    if first == 0 {
        if turn(points, order, 1, 3, 5) > 0 {
            lemma_l_from_corner_0_narrow_notch(points, order, budget);
        } else {
            lemma_l_from_corner_0_wide_notch(points, order, budget);
        }
    } else if first == 1 {
        lemma_l_from_corner_1(points, order, budget);
    } else if first == 2 {
        if turn(points, order, 1, 3, 5) > 0 {
            lemma_l_from_corner_2_narrow_notch(points, order, budget);
        } else {
            lemma_l_from_corner_2_wide_notch(points, order, budget);
        }
    } else if first == 3 {
        lemma_l_from_corner_3(points, order, budget);
    } else if first == 4 {
        lemma_l_from_corner_4(points, order, budget);
    } else if first == 5 {
        lemma_l_from_corner_5(points, order, budget);
    }
}

/// Whether six points are the corners of an L whose edges run along the
/// axes, the first edge along the x axis: named from the corner opposite
/// the notch, the positive way round.
pub open spec fn l_along_x(q: Seq<Point>) -> bool {
    &&& q[0].y == q[1].y
    &&& q[1].x == q[2].x
    &&& q[2].y == q[3].y
    &&& q[3].x == q[4].x
    &&& q[4].y == q[5].y
    &&& q[5].x == q[0].x
    &&& {
        ||| q[0].x < q[3].x < q[1].x && q[0].y < q[2].y < q[4].y
        ||| q[0].x > q[3].x > q[1].x && q[0].y > q[2].y > q[4].y
    }
}

/// Whether six points are the corners of an L whose edges run along the
/// axes, the first edge along the y axis: named from the corner opposite
/// the notch, the positive way round.
pub open spec fn l_along_y(q: Seq<Point>) -> bool {
    &&& q[0].x == q[1].x
    &&& q[1].y == q[2].y
    &&& q[2].x == q[3].x
    &&& q[3].y == q[4].y
    &&& q[4].x == q[5].x
    &&& q[5].y == q[0].y
    &&& {
        ||| q[0].y < q[3].y < q[1].y && q[0].x > q[2].x > q[4].x
        ||| q[0].y > q[3].y > q[1].y && q[0].x < q[2].x < q[4].x
    }
}

/// Whether six points are the corners of an L with edges along the axes: a
/// rectangle out of one corner of which a smaller rectangle is cut. The
/// corners are named the positive way round, from the corner opposite the
/// notch; the notch may be at any of the rectangle's four corners.
pub open spec fn is_l_shape(q: Seq<Point>) -> bool {
    q.len() == 6 && (l_along_x(q) || l_along_y(q))
}

/// The corners of a hexagon, named from the one at place `start` on.
pub open spec fn turned(points: Seq<Point>, start: int) -> Seq<Point> {
    Seq::new(6, |k: int| points[round(k + start)])
}

/// The product of a step of so many `a` and `b` and a step of so many `c`
/// and `d`, in terms of the four areas.
proof fn lemma_product_of_steps(
    a: int,
    b: int,
    c: int,
    d: int,
    ua: int,
    ub: int,
    vc: int,
    vd: int,
)
    ensures
        (ua * a + ub * b) * (vc * c + vd * d) == (ua * vc) * (a * c) + (ua * vd) * (a * d) + (ub
            * vc) * (b * c) + (ub * vd) * (b * d),
{
    let x = ua * a;
    let y = ub * b;
    let z = vc * c;
    let w = vd * d;
    assert((x + y) * (z + w) == x * z + x * w + y * z + y * w) by (nonlinear_arith);
    assert((ua * a) * (vc * c) == (ua * vc) * (a * c)) by (nonlinear_arith);
    assert((ua * a) * (vd * d) == (ua * vd) * (a * d)) by (nonlinear_arith);
    assert((ub * b) * (vc * c) == (ub * vc) * (b * c)) by (nonlinear_arith);
    assert((ub * b) * (vd * d) == (ub * vd) * (b * d)) by (nonlinear_arith);
}

/// The orientation of three corners of an L, in terms of the four areas.
/// From `p`, corner `q` lies `qa` times `a` and `qb` times `b` along the
/// L's first edge, and `qc` times `c` and `qd` times `d` to the left of it;
/// likewise `r`. The first edge runs along the x axis or along the y axis.
/// The orientation is `kp` times `a c`, `kq` times `a d`, `kr` times `b c`
/// and `ks` times `b d`.
proof fn lemma_turn_of_steps(
    p: Point,
    q: Point,
    r: Point,
    along_x: bool,
    a: int,
    b: int,
    c: int,
    d: int,
    qa: int,
    qb: int,
    qc: int,
    qd: int,
    ra: int,
    rb: int,
    rc: int,
    rd: int,
    kp: int,
    kq: int,
    kr: int,
    ks: int,
)
    requires
        along_x ==> q.x - p.x == qa * a + qb * b && q.y - p.y == qc * c + qd * d,
        along_x ==> r.x - p.x == ra * a + rb * b && r.y - p.y == rc * c + rd * d,
        !along_x ==> q.y - p.y == qa * a + qb * b && p.x - q.x == qc * c + qd * d,
        !along_x ==> r.y - p.y == ra * a + rb * b && p.x - r.x == rc * c + rd * d,
        kp == qa * rc - qc * ra,
        kq == qa * rd - qd * ra,
        kr == qb * rc - qc * rb,
        ks == qb * rd - qd * rb,
    ensures
        cross(p, q, r) == kp * (a * c) + kq * (a * d) + kr * (b * c) + ks * (b * d),
{
    lemma_product_of_steps(a, b, c, d, qa, qb, rc, rd);
    lemma_product_of_steps(a, b, c, d, ra, rb, qc, qd);
    let along_q = qa * a + qb * b;
    let left_q = qc * c + qd * d;
    let along_r = ra * a + rb * b;
    let left_r = rc * c + rd * d;
    assert(left_q * along_r == along_r * left_q) by (nonlinear_arith);
    assert((-left_q) * along_r == -(left_q * along_r)) by (nonlinear_arith);
    assert(along_q * (-left_r) == -(along_q * left_r)) by (nonlinear_arith);
    assert((qa * rc - qc * ra) * (a * c) == (qa * rc) * (a * c) - (ra * qc) * (a * c))
        by (nonlinear_arith);
    assert((qa * rd - qd * ra) * (a * d) == (qa * rd) * (a * d) - (ra * qd) * (a * d))
        by (nonlinear_arith);
    assert((qb * rc - qc * rb) * (b * c) == (qb * rc) * (b * c) - (rb * qc) * (b * c))
        by (nonlinear_arith);
    assert((qb * rd - qd * rb) * (b * d) == (qb * rd) * (b * d) - (rb * qd) * (b * d))
        by (nonlinear_arith);
}

/// The corners of an L with edges along the axes turn as `l_turns` says.
proof fn lemma_l_shape_turns(points: Seq<Point>, order: Seq<usize>)
    requires
        order.len() == 6,
        is_l_shape(vertices(points, order)),
    ensures
        l_turns(points, order),
{
    reveal(l_turns);
    let q = vertices(points, order);
    assert(q[0] == points[order[0] as int] && q[1] == points[order[1] as int] && q[2]
        == points[order[2] as int] && q[3] == points[order[3] as int] && q[4]
        == points[order[4] as int] && q[5] == points[order[5] as int]);
    let along_x = l_along_x(q);
    let (a, b, c, d) = if along_x {
        (q[3].x - q[0].x, q[1].x - q[3].x, q[2].y - q[0].y, q[4].y - q[2].y)
    } else {
        (q[3].y - q[0].y, q[1].y - q[3].y, q[0].x - q[2].x, q[2].x - q[4].x)
    };
    assert(a * c > 0 && a * d > 0 && b * c > 0 && b * d > 0) by (nonlinear_arith)
        requires
            (a > 0 && b > 0 && c > 0 && d > 0) || (a < 0 && b < 0 && c < 0 && d < 0),
    ;
    lemma_turn_of_steps(q[0], q[1], q[2], along_x, a, b, c, d, 1, 1, 0, 0, 1, 1, 1, 0, 1, 0, 1, 0);
    lemma_turn_of_steps(q[0], q[1], q[3], along_x, a, b, c, d, 1, 1, 0, 0, 1, 0, 1, 0, 1, 0, 1, 0);
    lemma_turn_of_steps(q[0], q[1], q[4], along_x, a, b, c, d, 1, 1, 0, 0, 1, 0, 1, 1, 1, 1, 1, 1);
    lemma_turn_of_steps(q[0], q[1], q[5], along_x, a, b, c, d, 1, 1, 0, 0, 0, 0, 1, 1, 1, 1, 1, 1);
    lemma_turn_of_steps(q[0], q[2], q[3], along_x, a, b, c, d, 1, 1, 1, 0, 1, 0, 1, 0, 0, 0, 1, 0);
    lemma_turn_of_steps(q[0], q[2], q[4], along_x, a, b, c, d, 1, 1, 1, 0, 1, 0, 1, 1, 0, 1, 1, 1);
    lemma_turn_of_steps(q[0], q[2], q[5], along_x, a, b, c, d, 1, 1, 1, 0, 0, 0, 1, 1, 1, 1, 1, 1);
    lemma_turn_of_steps(q[0], q[3], q[4], along_x, a, b, c, d, 1, 0, 1, 0, 1, 0, 1, 1, 0, 1, 0, 0);
    lemma_turn_of_steps(q[0], q[3], q[5], along_x, a, b, c, d, 1, 0, 1, 0, 0, 0, 1, 1, 1, 1, 0, 0);
    lemma_turn_of_steps(q[0], q[4], q[5], along_x, a, b, c, d, 1, 0, 1, 1, 0, 0, 1, 1, 1, 1, 0, 0);
    lemma_turn_of_steps(q[1], q[2], q[3], along_x, a, b, c, d, 0, 0, 1, 0, 0, -1, 1, 0, 0, 0, 1, 0);
    lemma_turn_of_steps(q[1], q[2], q[4], along_x, a, b, c, d, 0, 0, 1, 0, 0, -1, 1, 1, 0, 0, 1, 0);
    lemma_turn_of_steps(
        q[1], q[2], q[5], along_x, a, b, c, d, 0, 0, 1, 0, -1, -1, 1, 1, 1, 0, 1, 0,
    );
    lemma_turn_of_steps(
        q[1], q[3], q[4], along_x, a, b, c, d, 0, -1, 1, 0, 0, -1, 1, 1, 0, 0, 0, -1,
    );
    lemma_turn_of_steps(
        q[1], q[3], q[5], along_x, a, b, c, d, 0, -1, 1, 0, -1, -1, 1, 1, 1, 0, 0, -1,
    );
    lemma_turn_of_steps(
        q[1], q[4], q[5], along_x, a, b, c, d, 0, -1, 1, 1, -1, -1, 1, 1, 1, 1, 0, 0,
    );
    lemma_turn_of_steps(
        q[2], q[3], q[4], along_x, a, b, c, d, 0, -1, 0, 0, 0, -1, 0, 1, 0, 0, 0, -1,
    );
    lemma_turn_of_steps(
        q[2], q[3], q[5], along_x, a, b, c, d, 0, -1, 0, 0, -1, -1, 0, 1, 0, 0, 0, -1,
    );
    lemma_turn_of_steps(
        q[2], q[4], q[5], along_x, a, b, c, d, 0, -1, 0, 1, -1, -1, 0, 1, 0, 1, 0, 0,
    );
    lemma_turn_of_steps(q[3], q[4], q[5], along_x, a, b, c, d, 0, 0, 0, 1, -1, 0, 0, 1, 0, 1, 0, 0);
}

/// The places in the polygon of the corners of an L, counted from the L's
/// corner 0, which is at place `start`: onwards where the L is given the
/// positive way round, backwards from the far end where it is not.
pub open spec fn corner_places(start: int, forwards: bool) -> Seq<usize> {
    if forwards {
        Seq::new(6, |k: int| round(k + start) as usize)
    } else {
        Seq::new(6, |k: int| (5 - round(k + start)) as usize)
    }
}

/// The corner places are the six places of the polygon, each once, and the
/// polygon's own order, read the way that its area asks for, names the L
/// from one of its corners.
proof fn lemma_corner_places(start: int, forwards: bool)
    requires
        0 <= start < 6,
    ensures
        corner_places(start, forwards).len() == 6,
        forall|i: int| 0 <= i < 6 ==> #[trigger] corner_places(start, forwards)[i] < 6,
        forall|i: int, j: int|
            0 <= i < j < 6 ==> #[trigger] corner_places(start, forwards)[i]
                != #[trigger] corner_places(start, forwards)[j],
        forall|corner: usize| corner < 6 ==> corner_places(start, forwards).contains(corner),
        given_from(corner_places(start, forwards), round(6 - start)) == (if forwards {
            Seq::new(6, |k: int| k as usize)
        } else {
            Seq::new(6, |k: int| (6 - 1 - k) as usize)
        }),
{
    let order = corner_places(start, forwards);
    let first = round(6 - start);
    assert(given_from(order, first) =~= (if forwards {
        Seq::new(6, |k: int| k as usize)
    } else {
        Seq::new(6, |k: int| (6 - 1 - k) as usize)
    }));
    assert forall|corner: usize| corner < 6 implies order.contains(corner) by {
        let j = if forwards {
            round(corner - start + 6)
        } else {
            round(5 - corner - start + 6)
        };
        assert(order[j] == corner);
    }
}

/// The corners of an L that is given from place `start` of the polygon are
/// six different corners that turn as those of an L.
proof fn lemma_l_shape_setting(points: Seq<Point>, start: int, forwards: bool)
    requires
        points.len() == 6,
        0 <= start < 6,
        forwards ==> is_l_shape(turned(points, start)),
        !forwards ==> is_l_shape(turned(points.reverse(), start)),
    ensures
        l_setting(points, corner_places(start, forwards)),
{
    let order = corner_places(start, forwards);
    lemma_corner_places(start, forwards);
    if forwards {
        assert(vertices(points, order) =~= turned(points, start));
    } else {
        assert(vertices(points, order) =~= turned(points.reverse(), start));
    }
    lemma_l_shape_turns(points, order);
}

/// Where clipping the polygon's corners the one way round or the other gets
/// as far as the last triangle, and every triangle has a positive area, that
/// is the way in which the polygon is worked through, and the triangles have
/// the polygon's area.
proof fn lemma_positive_way_round(points: Seq<Point>, active: Seq<usize>, forwards: bool)
    requires
        3 <= points.len() <= usize::MAX,
        forwards ==> active == Seq::new(points.len(), |k: int| k as usize),
        !forwards ==> active == Seq::new(points.len(), |k: int| (points.len() - 1 - k) as usize),
        clip_ears(points, active, CLIP_LIMIT as nat).len() == points.len() - 2,
        all_positive(points, clip_ears(points, active, CLIP_LIMIT as nat)),
    ensures
        triangulation(points) == clip_ears(points, active, CLIP_LIMIT as nat),
        area_sum(points, triangulation(points)) == magnitude(twice_area(points)),
{
    let found = clip_ears(points, active, CLIP_LIMIT as nat);
    lemma_positive_sum(points, found);
    lemma_clipping_keeps_area(points, active, CLIP_LIMIT as nat);
    if forwards {
        assert(vertices(points, active) =~= points);
    } else {
        assert(vertices(points, active) =~= points.reverse());
        lemma_area_of_reverse(points);
    }
}

/// An L with edges along the axes is cut into exactly four triangles,
/// whatever its measures, whichever corner it is given from and whichever
/// way round. Each triangle has a positive area, together they have the
/// area of the L, and none holds a corner of the L strictly inside.
pub proof fn lemma_l_shape_is_triangulated(points: Seq<Point>, start: int)
    requires
        points.len() == 6,
        0 <= start < 6,
        is_l_shape(turned(points, start)) || is_l_shape(turned(points.reverse(), start)),
    ensures
        triangulation(points).len() == 4,
        all_positive(points, triangulation(points)),
        area_sum(points, triangulation(points)) == magnitude(twice_area(points)),
        forall|t: int, corner: usize|
            0 <= t < 4 && corner < 6 ==> #[trigger] outside(
                points,
                triangulation(points)[t],
                corner,
            ),
{
    let forwards = is_l_shape(turned(points, start));
    let order = corner_places(start, forwards);
    let first = round(6 - start);
    let budget = CLIP_LIMIT as nat;
    let active = given_from(order, first);
    let found = clip_ears(points, active, budget);
    lemma_corner_places(start, forwards);
    lemma_l_shape_setting(points, start, forwards);
    lemma_l_is_clipped(points, order, first, budget);
    assert forall|t: int| 0 <= t < found.len() implies triangle_area(points, #[trigger] found[t])
        > 0 by {
        lemma_sound_triangle(points, order, found[t], 0);
    }
    lemma_positive_way_round(points, active, forwards);
    assert forall|t: int, corner: usize| 0 <= t < 4 && corner < 6 implies #[trigger] outside(
        points,
        found[t],
        corner,
    ) by {
        assert(order.contains(corner));
        let j = order.index_of(corner);
        lemma_sound_triangle(points, order, found[t], j);
    }
}

} // verus!
