//! The tile grid of a level, built from its integer-grid layers, and the
//! check that straight and diagonal tiles meet where they touch.
use vstd::prelude::*;
use crate::matrix::{Grid, STRAIGHT_WALKABLE_INDEX, DIAGONAL_WALKABLE_INDEX};

verus! {

/// What a layer of the level stands for in the grid.
#[derive(Clone, Copy, Debug, PartialEq, Eq, Structural)]
pub enum LayerKind {
    /// Walkable tiles with straight borders.
    SquareConcrete,
    /// Walkable tiles whose borders may run diagonally.
    DiagonalConcrete,
    /// Any other layer; it adds nothing to the grid.
    Other,
}

/// The grid value that a layer of the given kind writes, if any.
pub open spec fn layer_value(kind: LayerKind) -> Option<u8> {
    match kind {
        LayerKind::SquareConcrete => Some(STRAIGHT_WALKABLE_INDEX),
        LayerKind::DiagonalConcrete => Some(DIAGONAL_WALKABLE_INDEX),
        LayerKind::Other => None,
    }
}

/// The value of grid cell (`i`, `j`) built from one layer of a
/// `width` x `height` level: the layer's rows run top down, the grid's
/// bottom up, and the grid has one more column and row, which stay zero.
pub open spec fn layer_cell(width: int, height: int, csv: Seq<i64>, value: u8, i: int, j: int) -> u8 {
    if 0 <= i < width && 0 <= j < height && csv[(height - 1 - j) * width + i] != 0 {
        value
    } else {
        0
    }
}

/// The grid of one integer-grid layer (`width * height` values, row by row
/// from the top), with `value` on every non-zero tile.
pub fn grid_from_layer(width: usize, height: usize, int_grid_csv: &Vec<i64>, value: u8) -> (g: Grid)
    requires
        int_grid_csv.len() == width * height,
        width < usize::MAX,
        height < usize::MAX,
    ensures
        g.wf(),
        g.width == width + 1,
        g.height == height + 1,
        forall|i: int, j: int|
            0 <= i <= width && 0 <= j <= height ==> g.cell(i, j) == layer_cell(
                width as int,
                height as int,
                int_grid_csv@,
                value,
                i,
                j,
            ),
{
    let mut grid = Grid::new(width + 1, height + 1);
    let mut x: usize = 0;
    while x < width
        invariant
            x <= width,
            width < usize::MAX,
            height < usize::MAX,
            int_grid_csv.len() == width * height,
            grid.wf(),
            grid.width == width + 1,
            grid.height == height + 1,
            forall|i: int, j: int|
                0 <= i <= width && 0 <= j <= height ==> grid.cell(i, j) == (if i < x {
                    layer_cell(width as int, height as int, int_grid_csv@, value, i, j)
                } else {
                    0
                }),
        decreases width - x,
    {
        let mut y: usize = 0;
        while y < height
            invariant
                x < width,
                y <= height,
                width < usize::MAX,
                height < usize::MAX,
                int_grid_csv.len() == width * height,
                grid.wf(),
                grid.width == width + 1,
                grid.height == height + 1,
                forall|i: int, j: int|
                    0 <= i <= width && 0 <= j <= height ==> grid.cell(i, j) == (if i < x || (i
                        == x && j < height && height - 1 - j < y) {
                        layer_cell(width as int, height as int, int_grid_csv@, value, i, j)
                    } else {
                        0
                    }),
            decreases height - y,
        {
            assert(y * width + x < width * height) by (nonlinear_arith)
                requires
                    y < height,
                    x < width,
            ;
            let ghost before = grid;
            if int_grid_csv[y * width + x] != 0 {
                grid.set_grid_value(x, y, value);
            }
            assert forall|i: int, j: int| 0 <= i <= width && 0 <= j <= height implies grid.cell(i, j)
                == (if i < x || (i == x && j < height && height - 1 - j < y + 1) {
                layer_cell(width as int, height as int, int_grid_csv@, value, i, j)
            } else {
                0
            }) by {
                if i == x && j == height - 1 - y {
                    assert((height - 1 - j) * width + i == y * width + x);
                } else {
                    assert(grid.cell(i, j) == before.cell(i, j));
                }
            }
            y = y + 1;
        }
        x = x + 1;
    }
    grid
}

/// The value of grid cell (`i`, `j`) of a level built from `layers`: the
/// largest value that any of them writes there.
pub open spec fn level_cell(
    width: int,
    height: int,
    layers: Seq<(LayerKind, Vec<i64>)>,
    i: int,
    j: int,
) -> u8
    decreases layers.len(),
{
    if layers.len() == 0 {
        0
    } else {
        let prev = level_cell(width, height, layers.drop_last(), i, j);
        let l = layers.last();
        match layer_value(l.0) {
            None => prev,
            Some(v) => {
                let c = layer_cell(width, height, l.1@, v, i, j);
                if c > prev {
                    c
                } else {
                    prev
                }
            },
        }
    }
}

/// The grid of a `width` x `height` level: its concrete layers combined,
/// each cell taking the largest value a layer gives it.
pub fn grids_from_level(width: usize, height: usize, layers: &Vec<(LayerKind, Vec<i64>)>) -> (g: Grid)
    requires
        width < usize::MAX,
        height < usize::MAX,
        forall|k: int|
            0 <= k < layers.len() && (#[trigger] layers@[k]).0 != LayerKind::Other
                ==> layers@[k].1.len() == width * height,
    ensures
        g.wf(),
        g.width == width + 1,
        g.height == height + 1,
        forall|i: int, j: int|
            0 <= i <= width && 0 <= j <= height ==> g.cell(i, j) == level_cell(
                width as int,
                height as int,
                layers@,
                i,
                j,
            ),
{
    let mut combined = Grid::new(width + 1, height + 1);
    let mut k: usize = 0;
    while k < layers.len()
        invariant
            k <= layers.len(),
            width < usize::MAX,
            height < usize::MAX,
            forall|m: int|
                0 <= m < layers.len() && (#[trigger] layers@[m]).0 != LayerKind::Other
                    ==> layers@[m].1.len() == width * height,
            combined.wf(),
            combined.width == width + 1,
            combined.height == height + 1,
            forall|i: int, j: int|
                0 <= i <= width && 0 <= j <= height ==> combined.cell(i, j) == level_cell(
                    width as int,
                    height as int,
                    layers@.take(k as int),
                    i,
                    j,
                ),
        decreases layers.len() - k,
    {
        let ghost before = combined;
        assert(layers@.take(k + 1).drop_last() =~= layers@.take(k as int));
        let kind = layers[k].0;
        let value: Option<u8> = match kind {
            LayerKind::SquareConcrete => Some(STRAIGHT_WALKABLE_INDEX),
            LayerKind::DiagonalConcrete => Some(DIAGONAL_WALKABLE_INDEX),
            LayerKind::Other => None,
        };
        if let Some(v) = value {
            let grid = grid_from_layer(width, height, &layers[k].1, v);
            combined.or_grid(&grid);
        }
        assert forall|i: int, j: int| 0 <= i <= width && 0 <= j <= height implies combined.cell(i, j)
            == level_cell(width as int, height as int, layers@.take(k + 1), i, j) by {
            assert(before.cell(i, j) == level_cell(width as int, height as int, layers@.take(k as int), i, j));
        }
        k = k + 1;
    }
    assert(layers@.take(k as int) =~= layers@);
    combined
}

/// `v.max(1) - 1`: the index before `v`, clamped at zero.
pub open spec fn clamp_down(v: int) -> int {
    if v >= 1 {
        v - 1
    } else {
        0
    }
}

/// `(v + 1).min(n - 1)`: the index after `v`, clamped at the last one.
pub open spec fn clamp_up(v: int, n: int) -> int {
    if v + 1 < n - 1 {
        v + 1
    } else {
        n - 1
    }
}

/// Where a straight tile at (`x`, `y`) has a diagonal tile at (`i`, `j`),
/// the two tiles that share a side with both are not empty.
pub open spec fn diagonal_ok(g: Grid, x: int, y: int, i: int, j: int) -> bool {
    g.cell(x, y) == STRAIGHT_WALKABLE_INDEX && g.cell(i, j) == DIAGONAL_WALKABLE_INDEX ==> g.cell(i, y)
        != 0 && g.cell(x, j) != 0
}

/// The four diagonal neighbours of (`x`, `y`) (clamped to the grid) meet it properly.
pub open spec fn cell_diagonals_ok(g: Grid, x: int, y: int) -> bool {
    let w = g.width as int;
    let h = g.height as int;
    &&& diagonal_ok(g, x, y, clamp_down(x), clamp_down(y))
    &&& diagonal_ok(g, x, y, clamp_up(x, w), clamp_down(y))
    &&& diagonal_ok(g, x, y, clamp_down(x), clamp_up(y, h))
    &&& diagonal_ok(g, x, y, clamp_up(x, w), clamp_up(y, h))
}

/// Straight and diagonal tiles are nowhere mixed in a way that would make
/// path finding cut a corner: every cell but those of the last column and
/// row meets its diagonal neighbours properly.
pub open spec fn grid_valid(g: Grid) -> bool {
    forall|x: int, y: int|
        0 <= x < g.width - 1 && 0 <= y < g.height - 1 ==> #[trigger] cell_diagonals_ok(g, x, y)
}

fn check_diagonal(grid: &Grid, x: usize, y: usize, i: usize, j: usize) -> (ok: bool)
    requires
        grid.wf(),
        x < grid.width,
        i < grid.width,
        y < grid.height,
        j < grid.height,
    ensures
        ok == diagonal_ok(*grid, x as int, y as int, i as int, j as int),
{
    if grid.grid[x][y] == STRAIGHT_WALKABLE_INDEX && grid.grid[i][j] == DIAGONAL_WALKABLE_INDEX {
        grid.grid[i][y] != 0 && grid.grid[x][j] != 0
    } else {
        true
    }
}

/// Make sure that the diagonals of the grid are not mixed: no straight tile
/// touches a diagonal tile only at a corner. This keeps path finding
/// correct; it does not check that the level looks right.
pub fn grid_validation_check(grid: &Grid) -> (ok: bool)
    requires
        grid.wf(),
        grid.width >= 1,
        grid.height >= 1,
    ensures
        ok == grid_valid(*grid),
{
    let w = grid.width;
    let h = grid.height;
    let mut x: usize = 0;
    while x < w - 1
        invariant
            grid.wf(),
            w == grid.width,
            h == grid.height,
            w >= 1,
            h >= 1,
            x <= w - 1,
            forall|a: int, b: int|
                0 <= a < x && 0 <= b < h - 1 ==> #[trigger] cell_diagonals_ok(*grid, a, b),
        decreases w - x,
    {
        let mut y: usize = 0;
        while y < h - 1
            invariant
                grid.wf(),
                w == grid.width,
                h == grid.height,
                w >= 1,
                h >= 1,
                x < w - 1,
                y <= h - 1,
                forall|a: int, b: int|
                    0 <= a < x && 0 <= b < h - 1 ==> #[trigger] cell_diagonals_ok(*grid, a, b),
                forall|b: int| 0 <= b < y ==> #[trigger] cell_diagonals_ok(*grid, x as int, b),
            decreases h - y,
        {
            let xd = if x >= 1 { x - 1 } else { 0 };
            let yd = if y >= 1 { y - 1 } else { 0 };
            let xu = if x + 1 < w - 1 { x + 1 } else { w - 1 };
            let yu = if y + 1 < h - 1 { y + 1 } else { h - 1 };
            let ok = check_diagonal(grid, x, y, xd, yd) && check_diagonal(grid, x, y, xu, yd)
                && check_diagonal(grid, x, y, xd, yu) && check_diagonal(grid, x, y, xu, yu);
            if !ok {
                assert(!cell_diagonals_ok(*grid, x as int, y as int));
                return false;
            }
            y = y + 1;
        }
        assert forall|a: int, b: int| 0 <= a < x + 1 && 0 <= b < h - 1 implies #[trigger] cell_diagonals_ok(
            *grid,
            a,
            b,
        ) by {
            if a == x {
                assert(cell_diagonals_ok(*grid, x as int, b));
            }
        }
        x = x + 1;
    }
    true
}

} // verus!
