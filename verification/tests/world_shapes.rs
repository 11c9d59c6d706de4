use dude_brawl::decomposition::{decompose_poly, points_are_distinct, triangulation_input_ok};
use dude_brawl::geometry::{area_of_polygon, is_ccw};
use dude_brawl::graph::{
    adjacency_edge, construct_adjacency_graph, disjoint_graphs, outer_inner_polygons,
    outer_inner_polygons_checked,
};
use dude_brawl::matrix::{get_diagonal_edges, index_matrix, is_square, map_grid_matrix, Grid};
use dude_brawl::vector::{IVec2, UVec2};

fn iv(x: i32, y: i32) -> IVec2 {
    IVec2::new(x, y)
}

/// A 3 x 3 grid with one walkable tile in the middle.
fn single_tile() -> Grid {
    let mut g = Grid::new(3, 3);
    g.grid[1][1] = 1;
    g
}

#[test]
fn grid_from_positions_and_combination() {
    let g = Grid::from_positions(3, 2, &vec![UVec2::new(0, 1), UVec2::new(2, 0)]);
    assert_eq!(g.grid, vec![vec![0, 1], vec![0, 0], vec![1, 0]]);
    let mut a = Grid::new(2, 2);
    a.set_grid_value(0, 0, 2);
    assert_eq!(a.grid, vec![vec![2, 0], vec![0, 0]]);
    let mut b = Grid::new(2, 2);
    b.grid[0][0] = 1;
    b.grid[1][1] = 1;
    a.or_grid(&b);
    assert_eq!(a.grid, vec![vec![2, 0], vec![0, 1]]);
}

#[test]
fn map_grid_matrix_drops_the_extra_column_and_row() {
    let g = single_tile();
    assert_eq!(map_grid_matrix(&g), vec![vec![0, 0], vec![0, 1]]);
}

#[test]
fn map_grid_matrix_marks_every_non_empty_cell_with_one() {
    let mut g = Grid::new(3, 3);
    g.grid[0][0] = 2;
    g.grid[1][1] = 1;
    g.grid[2][2] = 2;
    assert_eq!(map_grid_matrix(&g), vec![vec![1, 0], vec![0, 1]]);
}

#[test]
fn index_matrix_holds_the_neighbourhood_bits() {
    let g = single_tile();
    let m = index_matrix(&g);
    assert_eq!(m, vec![vec![4, 2, 0], vec![8, 1, 0], vec![0, 0, 0]]);
}

#[test]
fn edges_of_a_neighbourhood() {
    assert_eq!(
        get_diagonal_edges(4, 0, 0, true),
        vec![vec![iv(1, 2), iv(1, 1)], vec![iv(1, 1), iv(2, 1)]]
    );
    assert_eq!(
        get_diagonal_edges(1, 0, 0, false),
        vec![
            vec![iv(1, 0), iv(0, 1)],
            vec![iv(0, 1), iv(0, 0)],
            vec![iv(0, 0), iv(1, 0)],
        ]
    );
    assert_eq!(get_diagonal_edges(15, 3, 3, true), Vec::<Vec<IVec2>>::new());
}

#[test]
fn square_neighbourhoods() {
    let mut g = single_tile();
    assert!(is_square(&g, 0, 0));
    g.grid[1][1] = 2;
    assert!(!is_square(&g, 0, 0));
    assert!(!is_square(&g, 1, 1));
    assert!(is_square(&g, 2, 2));
}

#[test]
fn outline_of_a_single_tile() {
    let g = single_tile();
    let (outer, inner) = outer_inner_polygons(&g, &g);
    assert_eq!(outer, vec![iv(16, 16), iv(48, 16), iv(48, 48), iv(16, 48)]);
    assert!(is_ccw(&outer));
    assert!(inner.is_empty());
}

#[test]
fn triangulation_of_a_square() {
    let outer = vec![iv(16, 16), iv(48, 16), iv(48, 48), iv(16, 48)];
    let triangles = decompose_poly(&outer, &vec![]);
    assert_eq!(triangles.len(), 2);
    let mut total = 0;
    for t in &triangles {
        assert_eq!(t.len(), 3);
        for p in t {
            assert!(outer.contains(p));
        }
        total += area_of_polygon(t).abs();
    }
    assert_eq!(total, 2 * 32 * 32);
}

#[test]
fn adjacency_of_two_squares() {
    let a = vec![iv(0, 0), iv(2, 0), iv(2, 2), iv(0, 2)];
    let b = vec![iv(2, 0), iv(4, 0), iv(4, 2), iv(2, 2)];
    let c = vec![iv(8, 8), iv(9, 8), iv(9, 9)];
    assert_eq!(adjacency_edge(&a, &b), Some((iv(2, 0), iv(2, 2))));
    assert_eq!(adjacency_edge(&a, &c), None);
    let graph = construct_adjacency_graph(&vec![a, b, c]);
    assert_eq!(
        graph,
        vec![
            vec![(1, (iv(2, 0), iv(2, 2)))],
            vec![(0, (iv(2, 0), iv(2, 2)))],
            vec![],
        ]
    );
}

#[test]
fn disjoint_regions_of_a_split_grid() {
    let mut g = Grid::new(4, 4);
    for j in 0..4 {
        g.grid[1][j] = 1;
    }
    let mut regions = disjoint_graphs(&g);
    for r in &mut regions {
        r.sort_by_key(|c| (c.x, c.y));
    }
    regions.sort_by_key(|r| (r[0].x, r[0].y));
    assert_eq!(
        regions,
        vec![
            vec![UVec2::new(0, 0), UVec2::new(0, 1), UVec2::new(0, 2)],
            vec![UVec2::new(2, 0), UVec2::new(2, 1), UVec2::new(2, 2)],
        ]
    );
}

#[test]
fn outline_of_two_tiles_keeps_uneven_steps() {
    // Only vertices halfway between their neighbours are dropped, so the
    // long edges keep the vertices where the step length changes.
    let mut g = Grid::new(4, 3);
    g.grid[1][1] = 1;
    g.grid[2][1] = 1;
    let (outer, inner) = outer_inner_polygons(&g, &g);
    assert_eq!(
        outer,
        vec![
            iv(16, 16),
            iv(32, 16),
            iv(64, 16),
            iv(80, 16),
            iv(80, 48),
            iv(64, 48),
            iv(32, 48),
            iv(16, 48),
        ]
    );
    assert!(is_ccw(&outer));
    assert!(inner.is_empty());
}

#[test]
fn triangulation_needs_distinct_points() {
    let outer = vec![iv(0, 0), iv(4, 0), iv(4, 4), iv(0, 4)];
    assert!(points_are_distinct(&outer, &vec![]));
    assert!(points_are_distinct(&outer, &vec![vec![iv(1, 1), iv(2, 1), iv(2, 2)]]));
    assert!(!points_are_distinct(&outer, &vec![vec![iv(1, 1), iv(4, 4), iv(2, 2)]]));
    assert!(!points_are_distinct(&outer, &vec![vec![iv(1, 1)], vec![iv(1, 1)]]));
    assert!(!points_are_distinct(&vec![iv(0, 0), iv(1, 0), iv(0, 0)], &vec![]));
}

#[test]
fn triangulation_input_needs_simple_polylines() {
    let outer = vec![iv(0, 0), iv(8, 0), iv(8, 8), iv(0, 8)];
    let hole = vec![iv(2, 2), iv(2, 4), iv(4, 2)];
    assert!(triangulation_input_ok(&outer, &vec![]));
    assert!(triangulation_input_ok(&outer, &vec![hole.clone()]));
    // Too few points.
    assert!(!triangulation_input_ok(&vec![iv(0, 0), iv(1, 0)], &vec![]));
    assert!(!triangulation_input_ok(&outer, &vec![vec![iv(1, 1)]]));
    // A repeated point.
    assert!(!triangulation_input_ok(&outer, &vec![vec![iv(2, 2), iv(2, 4), iv(8, 8)]]));
    // A hole point on an outer edge.
    assert!(!triangulation_input_ok(&outer, &vec![vec![iv(4, 0), iv(5, 2), iv(3, 2)]]));
    // An outer point inside another outer edge.
    assert!(!triangulation_input_ok(&vec![iv(0, 0), iv(4, 0), iv(2, 0), iv(2, 4)], &vec![]));
    // Crossing edges.
    assert!(!triangulation_input_ok(&vec![iv(0, 0), iv(4, 4), iv(4, 0), iv(0, 4)], &vec![]));
    // Points on the line of an edge beyond its ends are fine.
    let u = vec![iv(0, 0), iv(6, 0), iv(6, 4), iv(4, 4), iv(4, 2), iv(2, 2), iv(2, 4), iv(0, 4)];
    assert!(triangulation_input_ok(&u, &vec![]));
    assert_eq!(decompose_poly(&u, &vec![]).len(), 6);
}

#[test]
fn triangulation_with_a_hole() {
    let outer = vec![iv(0, 0), iv(8, 0), iv(8, 8), iv(0, 8)];
    let hole = vec![iv(2, 2), iv(2, 4), iv(4, 2)];
    assert!(triangulation_input_ok(&outer, &vec![hole.clone()]));
    let triangles = decompose_poly(&outer, &vec![hole]);
    // A polygon of 7 vertices with one hole has 7 + 2 * 1 - 2 triangles.
    assert_eq!(triangles.len(), 7);
    for t in &triangles {
        assert_eq!(t.len(), 3);
    }
}

#[test]
fn outline_of_a_ring_has_one_hole() {
    let mut g = Grid::new(5, 5);
    for i in 1..4 {
        for j in 1..4 {
            g.grid[i][j] = 1;
        }
    }
    g.grid[2][2] = 0;
    let (outer, inner) = outer_inner_polygons(&g, &g);
    assert!(is_ccw(&outer));
    assert_eq!(inner.len(), 1);
    assert!(!is_ccw(&inner[0]));
    for corner in [iv(48, 48), iv(80, 48), iv(80, 80), iv(48, 80)] {
        assert!(inner[0].contains(&corner));
    }
    for p in &inner[0] {
        assert!(p.x >= 48 && p.x <= 80 && p.y >= 48 && p.y <= 80);
    }
}

#[test]
fn checked_outline_refuses_what_it_cannot_outline() {
    let mut ring = Grid::new(5, 5);
    for i in 1..4 {
        for j in 1..4 {
            ring.grid[i][j] = 1;
        }
    }
    ring.grid[2][2] = 0;
    assert_eq!(outer_inner_polygons_checked(&ring, &ring), Some(outer_inner_polygons(&ring, &ring)));
    let g = single_tile();
    assert_eq!(outer_inner_polygons_checked(&g, &g), Some(outer_inner_polygons(&g, &g)));
    // Two separate regions have two outer borders.
    let mut two = Grid::new(6, 3);
    two.grid[1][1] = 1;
    two.grid[4][1] = 1;
    assert_eq!(outer_inner_polygons_checked(&two, &two), None);
    // A grid whose columns do not match its height.
    let mut bad = Grid::new(3, 3);
    bad.grid[0].pop();
    assert_eq!(outer_inner_polygons_checked(&bad, &bad), None);
}

#[test]
fn triangulation_input_bounds_the_coordinates() {
    let small = vec![iv(0, 0), iv(0x0200_0000, 0), iv(0, 0x0200_0000)];
    assert!(triangulation_input_ok(&small, &vec![]));
    let large = vec![iv(0, 0), iv(0x0200_0001, 0), iv(0, 0x0200_0000)];
    assert!(!triangulation_input_ok(&large, &vec![]));
}

#[test]
fn collider_shapes_of_a_ring() {
    let mut ring = Grid::new(5, 5);
    for i in 1..4 {
        for j in 1..4 {
            ring.grid[i][j] = 1;
        }
    }
    ring.grid[2][2] = 0;
    let shapes = dude_brawl::decomposition::collider_shapes(&ring).expect("a ring can be outlined");
    let mut total = 0;
    for p in &shapes {
        assert!(is_ccw(p));
        total += area_of_polygon(p);
    }
    // Eight tiles of 32 x 32 world units, doubled.
    assert_eq!(total, 2 * 8 * 32 * 32);
    let mut two = Grid::new(6, 3);
    two.grid[1][1] = 1;
    two.grid[4][1] = 1;
    assert_eq!(dude_brawl::decomposition::collider_shapes(&two), None);
}
