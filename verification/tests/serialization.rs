use dude_brawl::serialization::{
    deserialize_polygons, join_lines, serialize_collider_polygons, serialize_grid_matrix,
    serialize_level, serialize_neighbours,
};
use dude_brawl::vector::IVec2;

#[test]
fn grid_matrix_is_written_column_by_column() {
    let m = vec![vec![0u8, 1, 2], vec![10, 255, 0]];
    assert_eq!(serialize_grid_matrix(&m), "0;1;2|10;255;0");
    assert_eq!(serialize_grid_matrix(&vec![]), "");
    assert_eq!(serialize_grid_matrix(&vec![vec![7]]), "7");
}

#[test]
fn collider_polygons_are_written_with_signs() {
    let polys = vec![
        vec![IVec2::new(0, 0), IVec2::new(-16, 32)],
        vec![IVec2::new(2147483647, -2147483648)],
    ];
    assert_eq!(
        serialize_collider_polygons(&polys),
        "0,0;-16,32|2147483647,-2147483648"
    );
}

#[test]
fn neighbours_use_a_dash_for_none() {
    let ns = [Some((3usize, -256i32, 0i32)), None, None, Some((0, 16, -16))];
    assert_eq!(serialize_neighbours(&ns), "3,-256,0;-;-;0,16,-16");
}

#[test]
fn a_level_line_holds_all_parts() {
    let line = serialize_level(
        1,
        2,
        &vec![vec![0, 1], vec![2, 0]],
        &vec![vec![IVec2::new(0, 0), IVec2::new(32, 0), IVec2::new(32, 32)]],
        &[None, Some((4, 32, 0)), None, None],
    );
    assert_eq!(line, "1,2:0;1|2;0@0,0;32,0;32,32@-;4,32,0;-;-");
    assert_eq!(
        join_lines(&vec!["a".to_string(), "b".to_string()]),
        "a\nb"
    );
    assert_eq!(join_lines(&vec![]), "");
}

#[test]
fn reading_gives_back_what_was_written() {
    let matrix = vec![vec![0, 1, 2], vec![1, 1, 0]];
    let colliders = vec![
        vec![IVec2::new(0, 0), IVec2::new(32, 0), IVec2::new(32, 32)],
        vec![IVec2::new(-16, -16), IVec2::new(0, -16), IVec2::new(0, 0)],
    ];
    let neighbours = [None, Some((1usize, 320i32, -64i32)), None, None];
    let line0 = serialize_level(0, 0, &matrix, &colliders, &neighbours);
    let line1 = serialize_level(0, 1, &vec![vec![5]], &vec![vec![IVec2::new(1, 2)]], &[None; 4]);
    let text = join_lines(&vec![line0, line1]);

    let levels = deserialize_polygons(&text).expect("well-formed level data");
    assert_eq!(levels.len(), 2);
    assert_eq!(levels[0].0, (0, 0));
    assert_eq!(levels[0].1, matrix);
    assert_eq!(levels[0].2, colliders);
    assert_eq!(levels[0].3, neighbours);
    assert_eq!(levels[1].0, (0, 1));
    assert_eq!(levels[1].1, vec![vec![5]]);
    assert_eq!(levels[1].2, vec![vec![IVec2::new(1, 2)]]);
    assert_eq!(levels[1].3, [None; 4]);
}

#[test]
fn line_endings_and_number_forms() {
    // Windows line endings, a final line feed, a `+` sign, leading zeros and
    // extra keys are all accepted.
    let text = "+1,002,9:3@-4,+5@-;-;-;-\r\n0,1:0@0,0@-;-;-;7,-1,+2\n";
    let levels = deserialize_polygons(text).expect("well-formed level data");
    assert_eq!(levels.len(), 2);
    assert_eq!(levels[0].0, (1, 2));
    assert_eq!(levels[0].1, vec![vec![3]]);
    assert_eq!(levels[0].2, vec![vec![IVec2::new(-4, 5)]]);
    assert_eq!(levels[1].3, [None, None, None, Some((7, -1, 2))]);
    assert_eq!(deserialize_polygons("").map(|l| l.len()), Some(0));
}

#[test]
fn malformed_level_data_is_refused() {
    // a grid value above 255
    assert!(deserialize_polygons("0,0:256@0,0@-;-;-;-").is_none());
    // a coordinate beyond i32
    assert!(deserialize_polygons("0,0:1@2147483648,0@-;-;-;-").is_none());
    assert!(deserialize_polygons("0,0:1@-2147483648,0@-;-;-;-").is_some());
    // three neighbours only
    assert!(deserialize_polygons("0,0:1@0,0@-;-;-").is_none());
    // a single key
    assert!(deserialize_polygons("0:1@0,0@-;-;-;-").is_none());
    // a vertex with three coordinates
    assert!(deserialize_polygons("0,0:1@0,0,0@-;-;-;-").is_none());
    // an empty grid value
    assert!(deserialize_polygons("0,0:1;@0,0@-;-;-;-").is_none());
    // a sign alone, a minus on an unsigned value
    assert!(deserialize_polygons("0,0:+@0,0@-;-;-;-").is_none());
    assert!(deserialize_polygons("0,0:-1@0,0@-;-;-;-").is_none());
    // a missing part
    assert!(deserialize_polygons("0,0:1@0,0").is_none());
    // an empty line in between
    assert!(deserialize_polygons("0,0:1@0,0@-;-;-;-\n\n0,0:1@0,0@-;-;-;-").is_none());
    // decimals in coordinates
    assert!(deserialize_polygons("0,0:1@0.5,0@-;-;-;-").is_none());
}

#[test]
fn neighbours_read_in_any_spelling() {
    let text = "0,0:1@0,0@+1,007,-0003;-;0,+0,-0;-";
    let levels = deserialize_polygons(text).expect("well-formed level data");
    assert_eq!(levels[0].3, [Some((1, 7, -3)), None, Some((0, 0, 0)), None]);
}
