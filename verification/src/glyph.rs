//! The mouse glyph: the areas of its three buttons, on the grid on which the
//! glyph was drawn, and the mesh that fills such an area.

use crate::geometry::{
    corners_below, triangulate_polygon, triangulation, Point, Triangle,
};
use crate::mouse::{LEFT, MIDDLE, RIGHT};
use vstd::prelude::*;

verus! {

/// The area of a button on the glyph's grid, which reaches from 96 to 416
/// across and from 48 to 464 down. The left and the right button are
/// concave: the middle button is cut out of them. The extended buttons have
/// no area.
pub open spec fn outline_of(slot: usize) -> Seq<Point> {
    if slot == LEFT {
        seq![
            Point { x: 256, y: 48 },
            Point { x: 96, y: 128 },
            Point { x: 96, y: 256 },
            Point { x: 256, y: 300 },
            Point { x: 256, y: 238 },
            Point { x: 222, y: 238 },
            Point { x: 222, y: 110 },
            Point { x: 256, y: 110 },
        ]
    } else if slot == RIGHT {
        seq![
            Point { x: 256, y: 48 },
            Point { x: 416, y: 128 },
            Point { x: 416, y: 256 },
            Point { x: 256, y: 300 },
            Point { x: 256, y: 238 },
            Point { x: 288, y: 238 },
            Point { x: 288, y: 110 },
            Point { x: 256, y: 110 },
        ]
    } else if slot == MIDDLE {
        seq![
            Point { x: 222, y: 110 },
            Point { x: 288, y: 110 },
            Point { x: 288, y: 238 },
            Point { x: 222, y: 238 },
        ]
    } else {
        Seq::empty()
    }
}

/// Whether the area of a slot's button is filled: the button has an area,
/// and it is down.
pub fn is_filled(buttons: &[bool; 5], slot: usize) -> (filled: bool)
    ensures
        filled == (slot < 3 && buttons@[slot as int]),
{
    slot <= MIDDLE && buttons[slot]
}

/// The area of a button on the glyph's grid.
pub fn button_outline(slot: usize) -> (outline: Vec<Point>)
    ensures
        outline@ == outline_of(slot),
{
    let mut outline: Vec<Point> = Vec::new();
    if slot == LEFT {
        outline.push(Point { x: 256, y: 48 });
        outline.push(Point { x: 96, y: 128 });
        outline.push(Point { x: 96, y: 256 });
        outline.push(Point { x: 256, y: 300 });
        outline.push(Point { x: 256, y: 238 });
        outline.push(Point { x: 222, y: 238 });
        outline.push(Point { x: 222, y: 110 });
        outline.push(Point { x: 256, y: 110 });
    } else if slot == RIGHT {
        outline.push(Point { x: 256, y: 48 });
        outline.push(Point { x: 416, y: 128 });
        outline.push(Point { x: 416, y: 256 });
        outline.push(Point { x: 256, y: 300 });
        outline.push(Point { x: 256, y: 238 });
        outline.push(Point { x: 288, y: 238 });
        outline.push(Point { x: 288, y: 110 });
        outline.push(Point { x: 256, y: 110 });
    } else if slot == MIDDLE {
        outline.push(Point { x: 222, y: 110 });
        outline.push(Point { x: 288, y: 110 });
        outline.push(Point { x: 288, y: 238 });
        outline.push(Point { x: 222, y: 238 });
    }
    assert(outline@ =~= outline_of(slot));
    outline
}

/// The corners of some triangles in one row, three for each triangle, as
/// the 32-bit indices of a mesh. An index that does not fit in 32 bits is
/// cut down to its low 32 bits.
pub open spec fn mesh_of(triangles: Seq<Triangle>) -> Seq<u32>
    decreases triangles.len(),
{
    if triangles.len() == 0 {
        Seq::empty()
    } else {
        let t = triangles.last();
        mesh_of(triangles.drop_last()) + seq![t.0 as u32, t.1 as u32, t.2 as u32]
    }
}

/// The indices of the mesh that fills a polygon: the corners of the
/// triangles of its triangulation. With fewer than three points there is no
/// mesh.
pub fn mesh_indices(points: &[Point]) -> (indices: Vec<u32>)
    ensures
        indices@ == mesh_of(triangulation(points@)),
        indices@.len() == 3 * triangulation(points@).len(),
        forall|k: int| 0 <= k < indices@.len() ==> #[trigger] indices@[k] < points@.len(),
{
    let triangles = triangulate_polygon(points);
    let mut indices: Vec<u32> = Vec::new();
    let mut t: usize = 0;
    while t < triangles.len()
        invariant
            t <= triangles.len(),
            corners_below(triangles@, points@.len()),
            indices@ == mesh_of(triangles@.take(t as int)),
            indices@.len() == 3 * t,
            forall|k: int| 0 <= k < indices@.len() ==> #[trigger] indices@[k] < points@.len(),
        decreases triangles.len() - t,
    {
        let (a, b, c) = triangles[t];
        indices.push(#[verifier::truncate] (a as u32));
        indices.push(#[verifier::truncate] (b as u32));
        indices.push(#[verifier::truncate] (c as u32));
        proof {
            let upto = triangles@.take(t + 1);
            assert(upto.drop_last() =~= triangles@.take(t as int));
            assert(upto.last() == triangles@[t as int]);
        }
        t = t + 1;
    }
    assert(triangles@.take(t as int) =~= triangles@);
    indices
}

} // verus!
