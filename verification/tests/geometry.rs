use dude_brawl::geometry::{
    area_of_polygon, collinear_ivec, is_ccw, is_convex, left, merge_convex_ok_exec,
    merge_convex_polygons, merge_convex_polygons_checked,
    merge_polygons, point_in_polygon, point_to_polygon_index, right,
};
use dude_brawl::vector::IVec2;

/// A point given in whole units; the library works on
/// the half-unit lattice, so every coordinate is doubled.
fn v(x: f32, y: f32) -> IVec2 {
    IVec2::new((x * 2.0) as i32, (y * 2.0) as i32)
}

/// The area of a polygon in whole units: the library
/// gives twice the area on the half-unit lattice (four times the area).
fn area(poly: &Vec<IVec2>) -> f32 {
    area_of_polygon(poly) as f32 / 8.0
}

#[test]
fn test_area_of_polygon() {
    let poly = vec![v(0.0, 0.0), v(1.0, 0.0), v(1.0, 1.0)];
    assert_eq!(area(&poly), 0.5);

    let poly = vec![v(0.0, 0.0), v(1.0, 0.0), v(1.0, 1.0), v(0.0, 1.0)];
    assert_eq!(area(&poly), 1.0);

    let poly = vec![
        v(0.0, 0.0),
        v(1.0, 0.0),
        v(1.0, 1.0),
        v(0.5, 1.5),
        v(0.0, 1.0),
    ];
    assert_eq!(area(&poly), 1.25);

    let poly = vec![v(-5.0, 0.0), v(1.0, 0.0), v(1.0, 1.0), v(-5.0, 1.0)];
    assert_eq!(area(&poly), 6.0);

    let poly = vec![
        v(-5.0, 0.0),
        v(1.0, 0.0),
        v(1.0, 1.0),
        v(-5.0, 1.0),
        v(-10.0, 0.5),
    ];
    assert_eq!(area(&poly), 8.5);
}

#[test]
fn test_merge_convex_polygons() {
    let poly_a = vec![v(0.0, 0.0), v(1.0, 0.0), v(1.0, 1.0)];
    let poly_b = vec![v(1.0, 1.0), v(1.0, 0.0), v(2.0, 0.0)];
    let mut polygons = vec![poly_a.clone(), poly_b.clone()];

    merge_convex_polygons(&mut polygons);

    assert!(area(&poly_a) == area(&poly_b));
    assert_eq!(polygons.len(), 1);

    let expeted_polygon = vec![v(0.0, 0.0), v(1.0, 0.0), v(2.0, 0.0), v(1.0, 1.0)];
    assert_eq!(polygons[0], expeted_polygon);
}

#[test]
fn test_merge_polygons() {
    let poly_a = vec![v(0.0, 0.0), v(1.0, 0.0), v(1.0, 1.0)];
    let poly_b = vec![v(1.0, 1.0), v(0.0, 1.0), v(0.0, 0.0)];
    let merged_poly = merge_polygons(&poly_a, &poly_b, &(v(0.0, 0.0), v(1.0, 1.0)));

    let expted_poly = vec![v(1.0, 1.0), v(0.0, 1.0), v(0.0, 0.0), v(1.0, 0.0)];

    assert_eq!(merged_poly, expted_poly);
    assert!(is_ccw(&merged_poly));
    assert!(is_convex(&merged_poly));

    let poly_a = vec![v(0.0, 0.0), v(1.0, 0.0), v(1.0, 1.0)];
    let poly_b = vec![
        v(1.0, 1.0),
        v(2.0, 0.0),
        v(2.0, 2.0),
        v(0.0, 1.0),
        v(0.0, 0.0),
    ];
    let merged_poly = merge_polygons(&poly_a, &poly_b, &(v(0.0, 0.0), v(1.0, 1.0)));

    let expted_poly = vec![
        v(1.0, 1.0),
        v(2.0, 0.0),
        v(2.0, 2.0),
        v(0.0, 1.0),
        v(0.0, 0.0),
        v(1.0, 0.0),
    ];

    assert!(right(
        expted_poly[expted_poly.len() - 1],
        expted_poly[0],
        expted_poly[1]
    ));

    assert_eq!(merged_poly, expted_poly);
    assert!(is_ccw(&merged_poly));
    assert!(!is_convex(&merged_poly));
}

#[test]
fn area_is_negative_for_clockwise_polygons() {
    let ccw = vec![IVec2::new(0, 0), IVec2::new(4, 0), IVec2::new(4, 3)];
    let cw = vec![IVec2::new(0, 0), IVec2::new(4, 3), IVec2::new(4, 0)];
    assert_eq!(area_of_polygon(&ccw), 12);
    assert_eq!(area_of_polygon(&cw), -12);
    assert!(is_ccw(&ccw));
    assert!(!is_ccw(&cw));
    assert_eq!(area_of_polygon(&vec![]), 0);
}

#[test]
fn left_and_right_of_a_line() {
    let a = IVec2::new(0, 0);
    let b = IVec2::new(2, 0);
    assert!(left(a, b, IVec2::new(1, 1)));
    assert!(!right(a, b, IVec2::new(1, 1)));
    assert!(right(a, b, IVec2::new(1, -1)));
    assert!(!left(a, b, IVec2::new(5, 0)));
    assert!(!right(a, b, IVec2::new(5, 0)));
}

#[test]
fn collinear_means_equal_steps() {
    assert!(collinear_ivec(IVec2::new(0, 0), IVec2::new(1, 1), IVec2::new(2, 2)));
    assert!(!collinear_ivec(IVec2::new(0, 0), IVec2::new(1, 1), IVec2::new(3, 3)));
    assert!(!collinear_ivec(IVec2::new(0, 0), IVec2::new(1, 0), IVec2::new(2, 1)));
}

#[test]
fn points_in_and_out_of_a_square() {
    let square = vec![
        IVec2::new(0, 0),
        IVec2::new(4, 0),
        IVec2::new(4, 4),
        IVec2::new(0, 4),
    ];
    assert!(point_in_polygon(&square, IVec2::new(2, 2)));
    // A point on an edge counts as inside.
    assert!(point_in_polygon(&square, IVec2::new(4, 2)));
    assert!(!point_in_polygon(&square, IVec2::new(5, 2)));
    assert!(!point_in_polygon(&square, IVec2::new(-1, -1)));
    // On the line of an edge but beyond its ends: outside.
    assert!(!point_in_polygon(&square, IVec2::new(20, 0)));
    assert!(!point_in_polygon(&square, IVec2::new(0, -3)));
    // A corner lies on the boundary.
    assert!(point_in_polygon(&square, IVec2::new(4, 4)));
}

#[test]
fn point_to_polygon_index_finds_the_first_polygon() {
    let a = vec![IVec2::new(0, 0), IVec2::new(2, 0), IVec2::new(2, 2), IVec2::new(0, 2)];
    let b = vec![IVec2::new(2, 0), IVec2::new(4, 0), IVec2::new(4, 2), IVec2::new(2, 2)];
    let polygons = vec![a, b];
    assert_eq!(point_to_polygon_index(&polygons, IVec2::new(1, 1)), Some(0));
    assert_eq!(point_to_polygon_index(&polygons, IVec2::new(3, 1)), Some(1));
    // On the shared edge: the first polygon wins.
    assert_eq!(point_to_polygon_index(&polygons, IVec2::new(2, 1)), Some(0));
    assert_eq!(point_to_polygon_index(&polygons, IVec2::new(9, 9)), None);
}

#[test]
fn convexity_of_an_arrow() {
    let square = vec![IVec2::new(0, 0), IVec2::new(2, 0), IVec2::new(2, 2), IVec2::new(0, 2)];
    assert!(is_convex(&square));
    let arrow = vec![
        IVec2::new(0, 0),
        IVec2::new(4, 0),
        IVec2::new(2, 1),
        IVec2::new(4, 4),
        IVec2::new(0, 4),
    ];
    assert!(is_ccw(&arrow));
    assert!(!is_convex(&arrow));
}

#[test]
fn merging_three_triangles_of_a_square_and_beyond() {
    // Two triangles forming a unit square and a triangle next to it that
    // would make the union non-convex only when merged in the wrong order.
    let t1 = vec![IVec2::new(0, 0), IVec2::new(2, 0), IVec2::new(2, 2)];
    let t2 = vec![IVec2::new(0, 0), IVec2::new(2, 2), IVec2::new(0, 2)];
    let mut polygons = vec![t1, t2];
    merge_convex_polygons(&mut polygons);
    assert_eq!(polygons.len(), 1);
    assert_eq!(area_of_polygon(&polygons[0]), 8);
    assert!(is_convex(&polygons[0]));
}

#[test]
fn checked_merge_matches_the_merge_and_refuses_bad_input() {
    let poly_a = vec![v(0.0, 0.0), v(1.0, 0.0), v(1.0, 1.0)];
    let poly_b = vec![v(1.0, 1.0), v(1.0, 0.0), v(2.0, 0.0)];
    let mut plain = vec![poly_a.clone(), poly_b.clone()];
    let mut checked = plain.clone();
    assert!(merge_convex_ok_exec(&plain));
    merge_convex_polygons(&mut plain);
    assert!(merge_convex_polygons_checked(&mut checked));
    assert_eq!(plain, checked);
    // The merge covers the area of both triangles.
    assert_eq!(area(&checked[0]), area(&poly_a) + area(&poly_b));
    // A polygon that repeats a vertex it shares with another one: the two
    // shared vertices found first are the same point.
    let bad = vec![
        vec![v(0.0, 0.0), v(0.0, 0.0), v(1.0, 0.0)],
        vec![v(0.0, 0.0), v(2.0, 0.0), v(0.0, 2.0)],
    ];
    let mut copy = bad.clone();
    assert!(!merge_convex_ok_exec(&bad));
    assert!(!merge_convex_polygons_checked(&mut copy));
    assert_eq!(copy, bad);
}
