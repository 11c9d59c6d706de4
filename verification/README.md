# dude_brawl

A top-down brawler whose rules are verified with Verus.

- `src/` is the verified library.
  - World collisions: `matrix` (the tile grid and the marching-squares
    tables), `graph` (contour polygons, adjacency, flood-filled regions),
    `geometry` (orientation, point location, convex merging),
    `decomposition` (triangulation through `poly2tri-rs` and the collider
    shapes of a level), `level_grid` and
    `level_data` (building a level's grid from its layers, its neighbours),
    `serialization` (the level data file, written and read) and
    `round_trip` (reading gives back what was written).
  - Combat: `dude` (states, attacks, combos, staggers), `animations`,
    `assets`, `player_state`, `enemy_state`, `basic_player_state`, `state`
    and `input` (key bindings and how devices combine).
- `tests/` runs the library on concrete values.
- `app/` is the game and the collision generator around the library, on
  bevy and its plugins: windows, assets, physics, timers and everything in
  floating point.
