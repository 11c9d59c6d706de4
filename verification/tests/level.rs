use dude_brawl::level_data::{
    level_neighbours, player_count_ok, LevelPlacement, NeighbourError, NeighbourLink,
};
use dude_brawl::level_grid::{grid_from_layer, grid_validation_check, grids_from_level, LayerKind};
use dude_brawl::matrix::Grid;
use dude_brawl::serialization::{deserialize_polygons, serialize_level};
use dude_brawl::vector::IVec2;

fn place(iid: &str, x: i64, y: i64, h: i64) -> LevelPlacement {
    LevelPlacement { iid: iid.to_string(), world_x: x, world_y: y, px_hei: h }
}

fn link(dir: &str, iid: &str) -> NeighbourLink {
    NeighbourLink { dir: dir.to_string(), level_iid: iid.to_string() }
}

#[test]
fn a_layer_is_flipped_into_a_larger_grid() {
    // 3 x 2 level, rows from the top: [1 0 0] and [0 0 5].
    let csv = vec![1, 0, 0, 0, 0, 5];
    let g = grid_from_layer(3, 2, &csv, 2);
    assert_eq!(g.width, 4);
    assert_eq!(g.height, 3);
    // The top row of the level is grid row 1, the bottom row grid row 0.
    assert_eq!(g.grid[0], vec![0, 2, 0]);
    assert_eq!(g.grid[1], vec![0, 0, 0]);
    assert_eq!(g.grid[2], vec![2, 0, 0]);
    assert_eq!(g.grid[3], vec![0, 0, 0]);
}

#[test]
fn layers_combine_by_the_larger_value() {
    let square = vec![1, 1, 0, 0];
    let diagonal = vec![0, 1, 1, 0];
    let other = vec![9, 9, 9, 9];
    let layers = vec![
        (LayerKind::SquareConcrete, square),
        (LayerKind::Other, other),
        (LayerKind::DiagonalConcrete, diagonal),
    ];
    let g = grids_from_level(2, 2, &layers);
    assert_eq!(g.width, 3);
    assert_eq!(g.height, 3);
    // Square tiles at the top row, diagonal ones at (1, top) and (0, bottom).
    assert_eq!(g.grid[0], vec![2, 1, 0]);
    assert_eq!(g.grid[1], vec![0, 2, 0]);
    assert_eq!(g.grid[2], vec![0, 0, 0]);
}

#[test]
fn straight_tiles_must_not_touch_diagonal_tiles_at_a_corner_only() {
    let mut g = Grid::new(3, 3);
    g.grid[0][0] = 1;
    g.grid[1][1] = 2;
    assert!(!grid_validation_check(&g));
    g.grid[1][0] = 1;
    assert!(!grid_validation_check(&g));
    g.grid[0][1] = 1;
    assert!(grid_validation_check(&g));
    assert!(grid_validation_check(&Grid::new(1, 1)));
}

#[test]
fn neighbours_on_the_four_sides() {
    let levels = vec![
        place("a", 0, 0, 256),
        place("b", 256, 0, 256),
        place("c", 0, 256, 128),
    ];
    let links = vec![link("e", "b"), link("ne", "zzz"), link("s", "c")];
    let ns = level_neighbours(&levels, &levels[0], &links).unwrap();
    assert_eq!(ns[0], None);
    assert_eq!(ns[1], Some((1, -256, 0)));
    // (-0 - 256) - (-256 - 128) = 128
    assert_eq!(ns[2], Some((2, 0, 128)));
    assert_eq!(ns[3], None);
    assert_eq!(level_neighbours(&levels, &levels[0], &vec![]).unwrap(), [None; 4]);
}

#[test]
fn neighbour_errors() {
    let levels = vec![place("a", 0, 0, 256), place("b", 256, 0, 256)];
    assert_eq!(
        level_neighbours(&levels, &levels[0], &vec![link("up", "b")]),
        Err(NeighbourError::UnsupportedDirection)
    );
    assert_eq!(
        level_neighbours(&levels, &levels[0], &vec![link("n", "x")]),
        Err(NeighbourError::MissingLevel)
    );
    assert_eq!(
        level_neighbours(&levels, &levels[0], &vec![link("w", "b"), link("w", "a")]),
        Err(NeighbourError::DuplicateSide)
    );
    // The first failing link decides.
    assert_eq!(
        level_neighbours(&levels, &levels[0], &vec![link("n", "x"), link("up", "b")]),
        Err(NeighbourError::MissingLevel)
    );
}

#[test]
fn one_player_in_the_first_level_only() {
    assert!(player_count_ok(0, 1));
    assert!(!player_count_ok(0, 0));
    assert!(!player_count_ok(0, 2));
    assert!(player_count_ok(3, 0));
    assert!(!player_count_ok(3, 1));
}

#[test]
fn level_links_read_back_from_their_text() {
    let levels = vec![
        place("a", 0, 0, 256),
        place("b", 256, 0, 256),
        place("c", 0, 256, 128),
        place("d", -256, 0, 256),
    ];
    let links = vec![link("w", "d"), link("se", "c"), link("e", "b"), link("s", "c")];
    let ns = level_neighbours(&levels, &levels[0], &links).unwrap();
    assert_eq!(ns, [None, Some((1, -256, 0)), Some((2, 0, 128)), Some((3, 256, 0))]);
    let line = serialize_level(0, 0, &vec![vec![0]], &vec![vec![IVec2::new(0, 0)]], &ns);
    let read = deserialize_polygons(&line).expect("well-formed level data");
    assert_eq!(read[0].3, ns);
}
