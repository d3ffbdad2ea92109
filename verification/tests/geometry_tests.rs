use keyboim::geometry::{
    doubled_area, is_convex, is_point_in_triangle, triangulate_polygon, Point, CLIP_LIMIT,
};
use keyboim::glyph::{button_outline, is_filled, mesh_indices};

fn pt(x: i32, y: i32) -> Point {
    Point { x, y }
}

fn polygon(coordinates: &[(i32, i32)]) -> Vec<Point> {
    coordinates.iter().map(|&(x, y)| pt(x, y)).collect()
}

fn cross(a: Point, b: Point, c: Point) -> i64 {
    (b.x as i64 - a.x as i64) * (c.y as i64 - a.y as i64)
        - (b.y as i64 - a.y as i64) * (c.x as i64 - a.x as i64)
}

fn strictly_inside(a: Point, b: Point, c: Point, p: Point) -> bool {
    let (d1, d2, d3) = (cross(a, b, p), cross(b, c, p), cross(c, a, p));
    (d1 > 0 && d2 > 0 && d3 > 0) || (d1 < 0 && d2 < 0 && d3 < 0)
}

fn summed_area(points: &[Point], triangles: &[(usize, usize, usize)]) -> i64 {
    triangles.iter().map(|&(a, b, c)| cross(points[a], points[b], points[c]).abs()).sum()
}

fn l_shape() -> Vec<Point> {
    polygon(&[(0, 0), (2, 0), (2, 1), (1, 1), (1, 2), (0, 2)])
}

#[test]
fn concave_l_yields_four_triangles_with_empty_interiors() {
    let points = l_shape();
    let triangles = triangulate_polygon(&points);
    assert_eq!(triangles.len(), 4);
    for &(a, b, c) in &triangles {
        for (k, p) in points.iter().enumerate() {
            if k != a && k != b && k != c {
                assert!(!strictly_inside(points[a], points[b], points[c], *p));
            }
        }
    }
    assert_eq!(summed_area(&points, &triangles), 6);
    assert_eq!(doubled_area(&points), 6);
}

#[test]
fn concave_l_is_clipped_ear_by_ear() {
    // Vertex 0 is no ear at first: vertex 3 lies on the far edge of its
    // triangle. Vertex 1 is, then vertex 2, and only then vertex 0.
    let triangles = triangulate_polygon(&l_shape());
    assert_eq!(triangles, vec![(0, 1, 2), (0, 2, 3), (5, 0, 3), (3, 4, 5)]);
}

#[test]
fn concave_l_given_the_other_way_round() {
    let mut points = l_shape();
    points.reverse();
    assert_eq!(doubled_area(&points), -6);
    let triangles = triangulate_polygon(&points);
    assert_eq!(triangles.len(), 4);
    assert_eq!(summed_area(&points, &triangles), 6);
    for &(a, b, c) in &triangles {
        assert!(cross(points[a], points[b], points[c]) > 0);
    }
}

#[test]
fn convex_polygons_yield_two_triangles_fewer_than_vertices() {
    let shapes: [&[(i32, i32)]; 5] = [
        &[(0, 0), (4, 0), (0, 3)],
        &[(0, 0), (5, 0), (5, 5), (0, 5)],
        &[(2, 0), (5, 2), (4, 6), (0, 6), (-1, 2)],
        &[(1, 0), (3, 0), (4, 1), (4, 3), (3, 4), (1, 4), (0, 3), (0, 1)],
        &[
            (0, 0),
            (10, 1),
            (19, 4),
            (26, 9),
            (30, 16),
            (30, 25),
            (25, 33),
            (15, 38),
            (3, 38),
            (-6, 30),
            (-9, 18),
            (-6, 7),
        ],
    ];
    for shape in shapes {
        let mut points = polygon(shape);
        for _ in 0..2 {
            let triangles = triangulate_polygon(&points);
            assert_eq!(triangles.len(), points.len() - 2);
            assert_eq!(summed_area(&points, &triangles) as i128, doubled_area(&points).abs());
            for &(a, b, c) in &triangles {
                assert!(a < points.len() && b < points.len() && c < points.len());
                assert!(cross(points[a], points[b], points[c]) > 0);
            }
            points.reverse();
        }
    }
}

#[test]
fn convex_polygon_is_fanned_from_its_last_vertex() {
    let square = polygon(&[(0, 0), (5, 0), (5, 5), (0, 5)]);
    assert_eq!(triangulate_polygon(&square), vec![(3, 0, 1), (1, 2, 3)]);
    let pentagon = polygon(&[(2, 0), (5, 2), (4, 6), (0, 6), (-1, 2)]);
    assert_eq!(triangulate_polygon(&pentagon), vec![(4, 0, 1), (4, 1, 2), (2, 3, 4)]);
}

#[test]
fn polygon_with_negative_area_is_worked_through_backwards() {
    let square = polygon(&[(0, 0), (0, 5), (5, 5), (5, 0)]);
    assert_eq!(doubled_area(&square), -50);
    assert_eq!(triangulate_polygon(&square), vec![(0, 3, 2), (2, 1, 0)]);
}

#[test]
fn triangle_is_its_own_triangulation() {
    let forwards = polygon(&[(0, 0), (4, 0), (0, 3)]);
    assert_eq!(triangulate_polygon(&forwards), vec![(0, 1, 2)]);
    let backwards = polygon(&[(0, 0), (0, 3), (4, 0)]);
    assert_eq!(triangulate_polygon(&backwards), vec![(2, 1, 0)]);
    let flat = polygon(&[(0, 0), (1, 1), (2, 2)]);
    assert_eq!(triangulate_polygon(&flat), vec![(2, 1, 0)]);
}

#[test]
fn fewer_than_three_points_yield_nothing() {
    assert!(triangulate_polygon(&[]).is_empty());
    assert!(triangulate_polygon(&[pt(1, 1)]).is_empty());
    assert!(triangulate_polygon(&[pt(1, 1), pt(2, 5)]).is_empty());
    assert!(mesh_indices(&[pt(1, 1), pt(2, 5)]).is_empty());
}

#[test]
fn points_in_line_yield_nothing() {
    let line = polygon(&[(0, 0), (1, 0), (2, 0), (3, 0)]);
    assert!(triangulate_polygon(&line).is_empty());
    let same = polygon(&[(7, 7), (7, 7), (7, 7), (7, 7), (7, 7)]);
    assert!(triangulate_polygon(&same).is_empty());
}

#[test]
fn clipping_stops_where_no_ear_is_left() {
    // A square with one corner given twice: after the one ear that the
    // doubled corner does not block, none is left.
    let points = polygon(&[(0, 0), (0, 0), (1, 0), (1, 1), (0, 1)]);
    assert_eq!(triangulate_polygon(&points), vec![(2, 3, 4)]);
}

#[test]
fn self_intersecting_polygon_does_not_fail() {
    let bow_tie = polygon(&[(0, 0), (4, 4), (4, 0), (0, 4)]);
    let triangles = triangulate_polygon(&bow_tie);
    assert!(triangles.len() <= 2);
    for &(a, b, c) in &triangles {
        assert!(a < 4 && b < 4 && c < 4);
    }
}

#[test]
fn coordinates_at_the_ends_of_the_range_do_not_overflow() {
    let points = polygon(&[
        (i32::MIN, i32::MIN),
        (i32::MAX, i32::MIN),
        (i32::MAX, i32::MAX),
        (i32::MIN, i32::MAX),
    ]);
    let side = u32::MAX as i128;
    assert_eq!(doubled_area(&points), 2 * side * side);
    assert_eq!(triangulate_polygon(&points), vec![(3, 0, 1), (1, 2, 3)]);
}

#[test]
fn clip_limit_ends_a_long_polygon_early() {
    // Points on a parabola are the corners of a strictly convex polygon.
    let n: usize = CLIP_LIMIT + 5;
    let points: Vec<Point> = (0..n as i32).map(|k| pt(k, k * k)).collect();
    let mut strictly = true;
    for k in 0..n - 2 {
        strictly &= cross(points[k], points[k + 1], points[k + 2]) > 0;
    }
    assert!(strictly);
    let triangles = triangulate_polygon(&points);
    assert_eq!(triangles.len(), CLIP_LIMIT);
    let within: Vec<Point> = points[..CLIP_LIMIT + 3].to_vec();
    assert_eq!(triangulate_polygon(&within).len(), CLIP_LIMIT + 1);
}

#[test]
fn corner_turns_the_positive_way_only_with_positive_cross_product() {
    assert!(is_convex(pt(0, 0), pt(1, 0), pt(1, 1)));
    assert!(!is_convex(pt(0, 0), pt(1, 0), pt(2, 0)));
    assert!(!is_convex(pt(0, 0), pt(1, 0), pt(1, -1)));
    assert!(!is_convex(pt(3, 3), pt(3, 3), pt(3, 3)));
}

#[test]
fn triangle_holds_its_inside_its_edges_and_its_corners() {
    let (a, b, c) = (pt(0, 0), pt(4, 0), pt(0, 4));
    for p in [pt(1, 1), pt(2, 0), pt(0, 2), pt(2, 2), a, b, c] {
        assert!(is_point_in_triangle(a, b, c, p));
        assert!(is_point_in_triangle(a, c, b, p));
    }
    for p in [pt(3, 3), pt(-1, 0), pt(0, -1), pt(5, 0), pt(0, 5), pt(4, 4)] {
        assert!(!is_point_in_triangle(a, b, c, p));
        assert!(!is_point_in_triangle(a, c, b, p));
    }
}

#[test]
fn triangle_without_area_holds_no_point() {
    let (a, b, c) = (pt(0, 0), pt(2, 2), pt(4, 4));
    for p in [a, b, c, pt(1, 1), pt(3, 3), pt(1, 0)] {
        assert!(!is_point_in_triangle(a, b, c, p));
    }
    assert!(!is_point_in_triangle(a, a, a, a));
}

#[test]
fn button_areas_of_the_glyph() {
    assert_eq!(
        button_outline(0),
        polygon(&[
            (256, 48),
            (96, 128),
            (96, 256),
            (256, 300),
            (256, 238),
            (222, 238),
            (222, 110),
            (256, 110),
        ])
    );
    assert_eq!(
        button_outline(1),
        polygon(&[
            (256, 48),
            (416, 128),
            (416, 256),
            (256, 300),
            (256, 238),
            (288, 238),
            (288, 110),
            (256, 110),
        ])
    );
    assert_eq!(button_outline(2), polygon(&[(222, 110), (288, 110), (288, 238), (222, 238)]));
    assert!(button_outline(3).is_empty());
    assert!(button_outline(4).is_empty());
    assert!(button_outline(usize::MAX).is_empty());
}

#[test]
fn button_areas_are_filled_completely() {
    for slot in 0..3 {
        let points = button_outline(slot);
        let triangles = triangulate_polygon(&points);
        assert_eq!(triangles.len(), points.len() - 2);
        assert_eq!(summed_area(&points, &triangles) as i128, doubled_area(&points).abs());
        for &(a, b, c) in &triangles {
            assert!(cross(points[a], points[b], points[c]) > 0);
            for (k, p) in points.iter().enumerate() {
                if k != a && k != b && k != c {
                    assert!(!strictly_inside(points[a], points[b], points[c], *p));
                }
            }
        }
    }
}

#[test]
fn mesh_indices_are_the_corners_in_a_row() {
    let square = polygon(&[(0, 0), (5, 0), (5, 5), (0, 5)]);
    assert_eq!(mesh_indices(&square), vec![3, 0, 1, 1, 2, 3]);
    assert_eq!(mesh_indices(&l_shape()), vec![0, 1, 2, 0, 2, 3, 5, 0, 3, 3, 4, 5]);
    assert_eq!(mesh_indices(&button_outline(2)), vec![3, 0, 1, 1, 2, 3]);
}

#[test]
fn button_area_is_filled_while_its_button_is_down() {
    let buttons = [true, false, true, true, true];
    assert!(is_filled(&buttons, 0));
    assert!(!is_filled(&buttons, 1));
    assert!(is_filled(&buttons, 2));
    assert!(!is_filled(&buttons, 3));
    assert!(!is_filled(&buttons, 4));
    assert!(!is_filled(&buttons, 5));
    assert!(!is_filled(&buttons, usize::MAX));
    assert!(!is_filled(&[false; 5], 0));
}

/// The corners of an L: the rectangle from (0, 0) to (a + b, c + d) without
/// the rectangle from (a, c) to (a + b, c + d), mirrored as asked.
fn l_corners(a: i32, b: i32, c: i32, d: i32, mirror_x: bool, mirror_y: bool) -> Vec<Point> {
    let corners = [(0, 0), (a + b, 0), (a + b, c), (a, c), (a, c + d), (0, c + d)];
    corners
        .iter()
        .map(|&(x, y)| {
            pt(if mirror_x { 7 - x } else { x - 3 }, if mirror_y { -5 - y } else { y + 11 })
        })
        .collect()
}

#[test]
fn every_l_is_cut_into_four_triangles_with_empty_interiors() {
    let measures = [1, 2, 3, 7, 40];
    let mut seen = 0;
    for a in measures {
        for b in measures {
            for c in measures {
                for d in measures {
                    for (mirror_x, mirror_y) in
                        [(false, false), (true, false), (false, true), (true, true)]
                    {
                        let corners = l_corners(a, b, c, d, mirror_x, mirror_y);
                        for start in 0..6 {
                            for backwards in [false, true] {
                                let mut points = corners.clone();
                                points.rotate_left(start);
                                if backwards {
                                    points.reverse();
                                }
                                let triangles = triangulate_polygon(&points);
                                assert_eq!(triangles.len(), 4);
                                let area = summed_area(&points, &triangles);
                                assert_eq!(area as i128, doubled_area(&points).abs());
                                assert_eq!(area, 2 * ((a + b) * (c + d) - b * d) as i64);
                                for &(i, j, k) in &triangles {
                                    assert!(cross(points[i], points[j], points[k]) > 0);
                                    for p in &points {
                                        assert!(!strictly_inside(
                                            points[i], points[j], points[k], *p
                                        ));
                                    }
                                }
                                seen += 1;
                            }
                        }
                    }
                }
            }
        }
    }
    assert_eq!(seen, 5 * 5 * 5 * 5 * 4 * 6 * 2);
}
