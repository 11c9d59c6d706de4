//! The tile grid of a level and the marching-squares tables that turn its
//! 2x2 neighbourhoods into contour edges.
use vstd::prelude::*;
use crate::vector::{IVec2, UVec2, ivec, polys_view};
use crate::geometry::cross;

verus! {

/// Grid value of a walkable tile with straight borders.
pub const STRAIGHT_WALKABLE_INDEX: u8 = 1;
/// Grid value of a walkable tile whose borders may run diagonally.
pub const DIAGONAL_WALKABLE_INDEX: u8 = 2;

/// A `width` x `height` grid of tile values, indexed `grid[x][y]`.
pub struct Grid {
    pub width: usize,
    pub height: usize,
    pub grid: Vec<Vec<u8>>,
}

impl Grid {
    /// The grid holds `width` columns of `height` values each.
    pub open spec fn wf(&self) -> bool {
        &&& self.grid@.len() == self.width
        &&& forall|i: int| 0 <= i < self.width ==> #[trigger] self.grid@[i]@.len() == self.height
    }

    /// The value at column `i`, row `j`.
    pub open spec fn cell(&self, i: int, j: int) -> u8 {
        self.grid@[i]@[j]
    }

    /// A grid of the given size that holds only zeros.
    pub fn new(width: usize, height: usize) -> (g: Grid)
        ensures
            g.wf(),
            g.width == width,
            g.height == height,
            forall|i: int, j: int| 0 <= i < width && 0 <= j < height ==> g.cell(i, j) == 0,
    {
        let grid = zero_rows(width, height);
        Grid { width, height, grid }
    }

    /// A grid of the given size with a one at every given position and zeros elsewhere.
    pub fn from_positions(width: usize, height: usize, positions: &Vec<UVec2>) -> (g: Grid)
        requires
            forall|k: int|
                0 <= k < positions.len() ==> (#[trigger] positions@[k]).x < width
                    && positions@[k].y < height,
        ensures
            g.wf(),
            g.width == width,
            g.height == height,
            forall|i: int, j: int|
                0 <= i < width && 0 <= j < height ==> g.cell(i, j) == (if (exists|k: int|
                    0 <= k < positions.len() && (#[trigger] positions@[k]).x == i && positions@[k].y
                        == j) {
                    1u8
                } else {
                    0u8
                }),
    {
        let mut g = Grid::new(width, height);
        let mut k: usize = 0;
        while k < positions.len()
            invariant
                k <= positions.len(),
                g.wf(),
                g.width == width,
                g.height == height,
                forall|k2: int|
                    0 <= k2 < positions.len() ==> (#[trigger] positions@[k2]).x < width
                        && positions@[k2].y < height,
                forall|i: int, j: int|
                    0 <= i < width && 0 <= j < height ==> g.cell(i, j) == (if (exists|k2: int|
                        0 <= k2 < k && (#[trigger] positions@[k2]).x == i && positions@[k2].y
                            == j) {
                        1u8
                    } else {
                        0u8
                    }),
            decreases positions.len() - k,
        {
            let pos = positions[k];
            let ghost before = g;
            g.put(pos.x as usize, pos.y as usize, 1);
            assert forall|i: int, j: int| 0 <= i < width && 0 <= j < height implies g.cell(i, j)
                == (if (exists|k2: int|
                0 <= k2 < k + 1 && (#[trigger] positions@[k2]).x == i && positions@[k2].y == j) {
                1u8
            } else {
                0u8
            }) by {
                if i == pos.x && j == pos.y {
                    assert(positions@[k as int].x == i && positions@[k as int].y == j);
                } else {
                    assert(g.cell(i, j) == before.cell(i, j));
                    if exists|k2: int|
                        0 <= k2 < k + 1 && (#[trigger] positions@[k2]).x == i && positions@[k2].y
                            == j {
                        let k2 = choose|k2: int|
                            0 <= k2 < k + 1 && (#[trigger] positions@[k2]).x == i
                                && positions@[k2].y == j;
                        assert(k2 != k);
                    }
                }
            }
            k = k + 1;
        }
        g
    }

    /// Write `value` at column `x`, row `y`.
    pub(crate) fn put(&mut self, x: usize, y: usize, value: u8)
        requires
            old(self).wf(),
            x < old(self).width,
            y < old(self).height,
        ensures
            final(self).wf(),
            final(self).width == old(self).width,
            final(self).height == old(self).height,
            final(self).cell(x as int, y as int) == value,
            forall|i: int, j: int|
                0 <= i < old(self).width && 0 <= j < old(self).height && (i != x || j != y)
                    ==> final(self).cell(i, j) == old(self).cell(i, j),
    {
        let mut row = Vec::new();
        std::mem::swap(&mut row, &mut self.grid[x]);
        row.set(y, value);
        self.grid.set(x, row);
    }

    /// Write `value` at column `x` and at row `height - 2 - y`, the row that
    /// tile row `y` of a level occupies in a grid one larger than the level.
    pub fn set_grid_value(&mut self, x: usize, y: usize, value: u8)
        requires
            old(self).wf(),
            x < old(self).width,
            y + 2 <= old(self).height,
        ensures
            final(self).wf(),
            final(self).width == old(self).width,
            final(self).height == old(self).height,
            final(self).cell(x as int, old(self).height - 2 - y) == value,
            forall|i: int, j: int|
                0 <= i < old(self).width && 0 <= j < old(self).height && (i != x || j
                    != old(self).height - 2 - y) ==> final(self).cell(i, j) == old(self).cell(i, j),
    {
        let row = self.height - 2 - y;
        self.put(x, row, value);
    }

    /// Combine the grid with `other`: every cell takes the larger of the two values.
    pub fn or_grid(&mut self, other: &Grid)
        requires
            old(self).wf(),
            other.wf(),
            old(self).width >= 1,
            old(self).width == other.width,
            old(self).height == other.height,
        ensures
            final(self).wf(),
            final(self).width == old(self).width,
            final(self).height == old(self).height,
            forall|i: int, j: int|
                0 <= i < old(self).width && 0 <= j < old(self).height ==> final(self).cell(i, j)
                    == (if other.cell(i, j) > old(self).cell(i, j) {
                    other.cell(i, j)
                } else {
                    old(self).cell(i, j)
                }),
    {
        let ghost start = *self;
        let mut i: usize = 0;
        while i < self.width
            invariant
                self.wf(),
                other.wf(),
                start.wf(),
                self.width == start.width,
                self.height == start.height,
                other.width == start.width,
                other.height == start.height,
                i <= self.width,
                forall|a: int, b: int|
                    0 <= a < start.width && 0 <= b < start.height ==> self.cell(a, b) == (if a < i
                        && other.cell(a, b) > start.cell(a, b) {
                        other.cell(a, b)
                    } else {
                        start.cell(a, b)
                    }),
            decreases start.width - i,
        {
            let mut j: usize = 0;
            while j < self.height
                invariant
                    self.wf(),
                    other.wf(),
                    start.wf(),
                    self.width == start.width,
                    self.height == start.height,
                    other.width == start.width,
                    other.height == start.height,
                    i < self.width,
                    j <= self.height,
                    forall|a: int, b: int|
                        0 <= a < start.width && 0 <= b < start.height ==> self.cell(a, b) == (if (a
                            < i || (a == i && b < j)) && other.cell(a, b) > start.cell(a, b) {
                            other.cell(a, b)
                        } else {
                            start.cell(a, b)
                        }),
                decreases start.height - j,
            {
                let o = other.grid[i][j];
                let ghost before = *self;
                assert(before.cell(i as int, j as int) == start.cell(i as int, j as int));
                if o > self.grid[i][j] {
                    self.put(i, j, o);
                }
                assert forall|a: int, b: int|
                    0 <= a < start.width && 0 <= b < start.height implies self.cell(a, b) == (if (a
                        < i || (a == i && b < j + 1)) && other.cell(a, b) > start.cell(a, b) {
                        other.cell(a, b)
                    } else {
                        start.cell(a, b)
                    }) by {
                    if a != i || b != j {
                        assert(self.cell(a, b) == before.cell(a, b));
                    }
                }
                j = j + 1;
            }
            i = i + 1;
        }
    }
}


/// One contour edge from `a` to `b`.
pub open spec fn seg(a: IVec2, b: IVec2) -> Seq<IVec2> {
    seq![a, b]
}

/// Contour edges of a 2x2 neighbourhood with bitmask `index` when every tile
/// in it has straight borders. The four bits are the tiles at (0,0), (1,0),
/// (1,1) and (0,1); the coordinates are in half-tile units.
pub open spec fn square_edges(index: u8) -> Seq<Seq<IVec2>> {
    let x = ivec(1, 0);
    let y = ivec(0, 1);
    let one = ivec(1, 1);
    let x2 = ivec(2, 1);
    let y2 = ivec(1, 2);
    if index == 1 {
        seq![seg(x, one), seg(one, y)]
    } else if index == 2 {
        seq![seg(x2, one), seg(one, x)]
    } else if index == 3 {
        seq![seg(x2, y)]
    } else if index == 4 {
        seq![seg(y2, one), seg(one, x2)]
    } else if index == 6 {
        seq![seg(y2, x)]
    } else if index == 7 {
        seq![seg(y2, one), seg(one, y)]
    } else if index == 8 {
        seq![seg(y, one), seg(one, y2)]
    } else if index == 9 {
        seq![seg(x, y2)]
    } else if index == 11 {
        seq![seg(x2, one), seg(one, y2)]
    } else if index == 12 {
        seq![seg(y, x2)]
    } else if index == 13 {
        seq![seg(x, one), seg(one, x2)]
    } else if index == 14 {
        seq![seg(y, one), seg(one, x)]
    } else {
        seq![]
    }
}

/// Contour edges of a 2x2 neighbourhood with bitmask `index` when a tile in
/// it may have diagonal borders.
pub open spec fn diagonal_edges(index: u8) -> Seq<Seq<IVec2>> {
    let x = ivec(1, 0);
    let y = ivec(0, 1);
    let x2 = ivec(2, 1);
    let y2 = ivec(1, 2);
    if index == 1 {
        seq![seg(x, y)]
    } else if index == 2 {
        seq![seg(x2, x)]
    } else if index == 3 {
        seq![seg(x2, y)]
    } else if index == 4 {
        seq![seg(y2, x2)]
    } else if index == 5 {
        seq![seg(x, y), seg(y2, x2)]
    } else if index == 6 {
        seq![seg(y2, x)]
    } else if index == 7 {
        seq![seg(y2, y)]
    } else if index == 8 {
        seq![seg(y, y2)]
    } else if index == 9 {
        seq![seg(x, y2)]
    } else if index == 10 {
        seq![seg(y, y2), seg(x2, x)]
    } else if index == 11 {
        seq![seg(x2, y2)]
    } else if index == 12 {
        seq![seg(y, x2)]
    } else if index == 13 {
        seq![seg(x, x2)]
    } else if index == 14 {
        seq![seg(y, x)]
    } else {
        seq![]
    }
}

/// The outer corner of tile `t` of a 2x2 neighbourhood, in half-tile units:
/// tile 0 at (0,0), 1 at (2,0), 2 at (2,2), 3 at (0,2).
pub open spec fn tile_corner(t: int) -> IVec2 {
    if t == 0 {
        ivec(0, 0)
    } else if t == 1 {
        ivec(2, 0)
    } else if t == 2 {
        ivec(2, 2)
    } else {
        ivec(0, 2)
    }
}

/// Tile `t` of the neighbourhood with bitmask `index` is walkable.
pub open spec fn tile_bit(index: u8, t: int) -> bool {
    if t == 0 {
        index % 2 == 1
    } else if t == 1 {
        (index / 2) % 2 == 1
    } else if t == 2 {
        (index / 4) % 2 == 1
    } else {
        (index / 8) % 2 == 1
    }
}

/// A midpoint of a side of the neighbourhood (never its centre (1,1)).
pub open spec fn side_midpoint(p: IVec2) -> bool {
    p == ivec(1, 0) || p == ivec(0, 1) || p == ivec(2, 1) || p == ivec(1, 2)
}

/// Edge `e` cuts off exactly the tile corners on its left that are
/// walkable: every corner left of it is walkable, and where `exact` holds
/// every walkable corner is left of it.
pub open spec fn cuts_walkable(index: u8, e: Seq<IVec2>, exact: bool) -> bool {
    &&& e.len() == 2
    &&& side_midpoint(e[0])
    &&& side_midpoint(e[1])
    &&& e[0] != e[1]
    &&& forall|t: int| 0 <= t < 4 ==> (cross(e[0], e[1], #[trigger] tile_corner(t)) > 0 ==> tile_bit(index, t))
    &&& exact ==> forall|t: int| 0 <= t < 4 ==> (tile_bit(index, t) ==> cross(e[0], e[1], #[trigger] tile_corner(t)) > 0)
}

/// The diagonal borders of a neighbourhood: one straight cut between two
/// side midpoints with the walkable tiles on its left and the empty ones on
/// its right, two cuts (one per walkable corner) where the walkable tiles
/// face each other across the centre (bitmasks 5 and 10), and none where
/// all or no tiles are walkable. No cut passes through the centre.
pub proof fn lemma_diagonal_edges_cut_corners(index: u8)
    requires
        index < 16,
    ensures
        diagonal_edges(index).len() == (if index == 0 || index == 15 {
            0int
        } else if index == 5 || index == 10 {
            2int
        } else {
            1int
        }),
        forall|k: int|
            0 <= k < diagonal_edges(index).len() ==> cuts_walkable(
                index,
                #[trigger] diagonal_edges(index)[k],
                diagonal_edges(index).len() == 1,
            ),
{
    lemma_diagonal_case(index);
}

proof fn lemma_diagonal_case(index: u8)
    requires
        index < 16,
    ensures
        forall|k: int|
            0 <= k < diagonal_edges(index).len() ==> cuts_walkable(
                index,
                #[trigger] diagonal_edges(index)[k],
                diagonal_edges(index).len() == 1,
            ),
{
    let d = diagonal_edges(index);
    assert(tile_corner(0) == ivec(0, 0) && tile_corner(1) == ivec(2, 0) && tile_corner(2) == ivec(2, 2)
        && tile_corner(3) == ivec(0, 2));
    assert(ivec(0, 0).x == 0 && ivec(0, 0).y == 0 && ivec(2, 0).x == 2 && ivec(2, 0).y == 0 && ivec(2, 2).x == 2 && ivec(2, 2).y == 2 && ivec(0, 2).x == 0 && ivec(0, 2).y == 2 && ivec(1, 0).x == 1 && ivec(1, 0).y == 0 && ivec(0, 1).x == 0 && ivec(0, 1).y == 1 && ivec(2, 1).x == 2 && ivec(2, 1).y == 1 && ivec(1, 2).x == 1 && ivec(1, 2).y == 2);
    if index == 0u8 {
        assert(tile_bit(index, 0) == false && tile_bit(index, 1) == false && tile_bit(index, 2) == false && tile_bit(index, 3) == false);
    }
    if index == 1u8 {
        assert(tile_bit(index, 0) == true && tile_bit(index, 1) == false && tile_bit(index, 2) == false && tile_bit(index, 3) == false);
        assert(d[0] == seg(ivec(1, 0), ivec(0, 1)));
        assert(cross(ivec(1, 0), ivec(0, 1), tile_corner(0)) == 1);
        assert(cross(ivec(1, 0), ivec(0, 1), tile_corner(1)) == -1);
        assert(cross(ivec(1, 0), ivec(0, 1), tile_corner(2)) == -3);
        assert(cross(ivec(1, 0), ivec(0, 1), tile_corner(3)) == -1);
        assert(cuts_walkable(index, d[0], d.len() == 1));
    }
    if index == 2u8 {
        assert(tile_bit(index, 0) == false && tile_bit(index, 1) == true && tile_bit(index, 2) == false && tile_bit(index, 3) == false);
        assert(d[0] == seg(ivec(2, 1), ivec(1, 0)));
        assert(cross(ivec(2, 1), ivec(1, 0), tile_corner(0)) == -1);
        assert(cross(ivec(2, 1), ivec(1, 0), tile_corner(1)) == 1);
        assert(cross(ivec(2, 1), ivec(1, 0), tile_corner(2)) == -1);
        assert(cross(ivec(2, 1), ivec(1, 0), tile_corner(3)) == -3);
        assert(cuts_walkable(index, d[0], d.len() == 1));
    }
    if index == 3u8 {
        assert(tile_bit(index, 0) == true && tile_bit(index, 1) == true && tile_bit(index, 2) == false && tile_bit(index, 3) == false);
        assert(d[0] == seg(ivec(2, 1), ivec(0, 1)));
        assert(cross(ivec(2, 1), ivec(0, 1), tile_corner(0)) == 2);
        assert(cross(ivec(2, 1), ivec(0, 1), tile_corner(1)) == 2);
        assert(cross(ivec(2, 1), ivec(0, 1), tile_corner(2)) == -2);
        assert(cross(ivec(2, 1), ivec(0, 1), tile_corner(3)) == -2);
        assert(cuts_walkable(index, d[0], d.len() == 1));
    }
    if index == 4u8 {
        assert(tile_bit(index, 0) == false && tile_bit(index, 1) == false && tile_bit(index, 2) == true && tile_bit(index, 3) == false);
        assert(d[0] == seg(ivec(1, 2), ivec(2, 1)));
        assert(cross(ivec(1, 2), ivec(2, 1), tile_corner(0)) == -3);
        assert(cross(ivec(1, 2), ivec(2, 1), tile_corner(1)) == -1);
        assert(cross(ivec(1, 2), ivec(2, 1), tile_corner(2)) == 1);
        assert(cross(ivec(1, 2), ivec(2, 1), tile_corner(3)) == -1);
        assert(cuts_walkable(index, d[0], d.len() == 1));
    }
    if index == 5u8 {
        assert(tile_bit(index, 0) == true && tile_bit(index, 1) == false && tile_bit(index, 2) == true && tile_bit(index, 3) == false);
        assert(d[0] == seg(ivec(1, 0), ivec(0, 1)));
        assert(cross(ivec(1, 0), ivec(0, 1), tile_corner(0)) == 1);
        assert(cross(ivec(1, 0), ivec(0, 1), tile_corner(1)) == -1);
        assert(cross(ivec(1, 0), ivec(0, 1), tile_corner(2)) == -3);
        assert(cross(ivec(1, 0), ivec(0, 1), tile_corner(3)) == -1);
        assert(cuts_walkable(index, d[0], d.len() == 1));
        assert(d[1] == seg(ivec(1, 2), ivec(2, 1)));
        assert(cross(ivec(1, 2), ivec(2, 1), tile_corner(0)) == -3);
        assert(cross(ivec(1, 2), ivec(2, 1), tile_corner(1)) == -1);
        assert(cross(ivec(1, 2), ivec(2, 1), tile_corner(2)) == 1);
        assert(cross(ivec(1, 2), ivec(2, 1), tile_corner(3)) == -1);
        assert(cuts_walkable(index, d[1], d.len() == 1));
    }
    if index == 6u8 {
        assert(tile_bit(index, 0) == false && tile_bit(index, 1) == true && tile_bit(index, 2) == true && tile_bit(index, 3) == false);
        assert(d[0] == seg(ivec(1, 2), ivec(1, 0)));
        assert(cross(ivec(1, 2), ivec(1, 0), tile_corner(0)) == -2);
        assert(cross(ivec(1, 2), ivec(1, 0), tile_corner(1)) == 2);
        assert(cross(ivec(1, 2), ivec(1, 0), tile_corner(2)) == 2);
        assert(cross(ivec(1, 2), ivec(1, 0), tile_corner(3)) == -2);
        assert(cuts_walkable(index, d[0], d.len() == 1));
    }
    if index == 7u8 {
        assert(tile_bit(index, 0) == true && tile_bit(index, 1) == true && tile_bit(index, 2) == true && tile_bit(index, 3) == false);
        assert(d[0] == seg(ivec(1, 2), ivec(0, 1)));
        assert(cross(ivec(1, 2), ivec(0, 1), tile_corner(0)) == 1);
        assert(cross(ivec(1, 2), ivec(0, 1), tile_corner(1)) == 3);
        assert(cross(ivec(1, 2), ivec(0, 1), tile_corner(2)) == 1);
        assert(cross(ivec(1, 2), ivec(0, 1), tile_corner(3)) == -1);
        assert(cuts_walkable(index, d[0], d.len() == 1));
    }
    if index == 8u8 {
        assert(tile_bit(index, 0) == false && tile_bit(index, 1) == false && tile_bit(index, 2) == false && tile_bit(index, 3) == true);
        assert(d[0] == seg(ivec(0, 1), ivec(1, 2)));
        assert(cross(ivec(0, 1), ivec(1, 2), tile_corner(0)) == -1);
        assert(cross(ivec(0, 1), ivec(1, 2), tile_corner(1)) == -3);
        assert(cross(ivec(0, 1), ivec(1, 2), tile_corner(2)) == -1);
        assert(cross(ivec(0, 1), ivec(1, 2), tile_corner(3)) == 1);
        assert(cuts_walkable(index, d[0], d.len() == 1));
    }
    if index == 9u8 {
        assert(tile_bit(index, 0) == true && tile_bit(index, 1) == false && tile_bit(index, 2) == false && tile_bit(index, 3) == true);
        assert(d[0] == seg(ivec(1, 0), ivec(1, 2)));
        assert(cross(ivec(1, 0), ivec(1, 2), tile_corner(0)) == 2);
        assert(cross(ivec(1, 0), ivec(1, 2), tile_corner(1)) == -2);
        assert(cross(ivec(1, 0), ivec(1, 2), tile_corner(2)) == -2);
        assert(cross(ivec(1, 0), ivec(1, 2), tile_corner(3)) == 2);
        assert(cuts_walkable(index, d[0], d.len() == 1));
    }
    if index == 10u8 {
        assert(tile_bit(index, 0) == false && tile_bit(index, 1) == true && tile_bit(index, 2) == false && tile_bit(index, 3) == true);
        assert(d[0] == seg(ivec(0, 1), ivec(1, 2)));
        assert(cross(ivec(0, 1), ivec(1, 2), tile_corner(0)) == -1);
        assert(cross(ivec(0, 1), ivec(1, 2), tile_corner(1)) == -3);
        assert(cross(ivec(0, 1), ivec(1, 2), tile_corner(2)) == -1);
        assert(cross(ivec(0, 1), ivec(1, 2), tile_corner(3)) == 1);
        assert(cuts_walkable(index, d[0], d.len() == 1));
        assert(d[1] == seg(ivec(2, 1), ivec(1, 0)));
        assert(cross(ivec(2, 1), ivec(1, 0), tile_corner(0)) == -1);
        assert(cross(ivec(2, 1), ivec(1, 0), tile_corner(1)) == 1);
        assert(cross(ivec(2, 1), ivec(1, 0), tile_corner(2)) == -1);
        assert(cross(ivec(2, 1), ivec(1, 0), tile_corner(3)) == -3);
        assert(cuts_walkable(index, d[1], d.len() == 1));
    }
    if index == 11u8 {
        assert(tile_bit(index, 0) == true && tile_bit(index, 1) == true && tile_bit(index, 2) == false && tile_bit(index, 3) == true);
        assert(d[0] == seg(ivec(2, 1), ivec(1, 2)));
        assert(cross(ivec(2, 1), ivec(1, 2), tile_corner(0)) == 3);
        assert(cross(ivec(2, 1), ivec(1, 2), tile_corner(1)) == 1);
        assert(cross(ivec(2, 1), ivec(1, 2), tile_corner(2)) == -1);
        assert(cross(ivec(2, 1), ivec(1, 2), tile_corner(3)) == 1);
        assert(cuts_walkable(index, d[0], d.len() == 1));
    }
    if index == 12u8 {
        assert(tile_bit(index, 0) == false && tile_bit(index, 1) == false && tile_bit(index, 2) == true && tile_bit(index, 3) == true);
        assert(d[0] == seg(ivec(0, 1), ivec(2, 1)));
        assert(cross(ivec(0, 1), ivec(2, 1), tile_corner(0)) == -2);
        assert(cross(ivec(0, 1), ivec(2, 1), tile_corner(1)) == -2);
        assert(cross(ivec(0, 1), ivec(2, 1), tile_corner(2)) == 2);
        assert(cross(ivec(0, 1), ivec(2, 1), tile_corner(3)) == 2);
        assert(cuts_walkable(index, d[0], d.len() == 1));
    }
    if index == 13u8 {
        assert(tile_bit(index, 0) == true && tile_bit(index, 1) == false && tile_bit(index, 2) == true && tile_bit(index, 3) == true);
        assert(d[0] == seg(ivec(1, 0), ivec(2, 1)));
        assert(cross(ivec(1, 0), ivec(2, 1), tile_corner(0)) == 1);
        assert(cross(ivec(1, 0), ivec(2, 1), tile_corner(1)) == -1);
        assert(cross(ivec(1, 0), ivec(2, 1), tile_corner(2)) == 1);
        assert(cross(ivec(1, 0), ivec(2, 1), tile_corner(3)) == 3);
        assert(cuts_walkable(index, d[0], d.len() == 1));
    }
    if index == 14u8 {
        assert(tile_bit(index, 0) == false && tile_bit(index, 1) == true && tile_bit(index, 2) == true && tile_bit(index, 3) == true);
        assert(d[0] == seg(ivec(0, 1), ivec(1, 0)));
        assert(cross(ivec(0, 1), ivec(1, 0), tile_corner(0)) == -1);
        assert(cross(ivec(0, 1), ivec(1, 0), tile_corner(1)) == 1);
        assert(cross(ivec(0, 1), ivec(1, 0), tile_corner(2)) == 3);
        assert(cross(ivec(0, 1), ivec(1, 0), tile_corner(3)) == 1);
        assert(cuts_walkable(index, d[0], d.len() == 1));
    }
    if index == 15u8 {
        assert(tile_bit(index, 0) == true && tile_bit(index, 1) == true && tile_bit(index, 2) == true && tile_bit(index, 3) == true);
    }
}

/// The tile whose centre is the point `p` given in quarter-tile units
/// (twice the half-tile units), or -1.
pub open spec fn tile_at(p: IVec2) -> int {
    if p == ivec(1, 1) {
        0
    } else if p == ivec(3, 1) {
        1
    } else if p == ivec(3, 3) {
        2
    } else if p == ivec(1, 3) {
        3
    } else {
        -1
    }
}

/// The half-tile-long edge from `p` to `q` has a walkable tile on its left
/// and an empty one on its right: the centres of the tiles next to its
/// middle, one step to the left and one to the right.
pub open spec fn half_edge_separates(index: u8, p: IVec2, q: IVec2) -> bool {
    let nx = p.y - q.y;
    let ny = q.x - p.x;
    let l = ivec(p.x + q.x + nx, p.y + q.y + ny);
    let r = ivec(p.x + q.x - nx, p.y + q.y - ny);
    &&& 0 <= tile_at(l)
    &&& 0 <= tile_at(r)
    &&& tile_bit(index, tile_at(l))
    &&& !tile_bit(index, tile_at(r))
}

/// An edge of the straight borders: it runs along a grid line between side
/// midpoints and the centre, with the walkable tiles on its left and the
/// empty ones on its right along its whole length.
pub open spec fn straight_edge_separates(index: u8, e: Seq<IVec2>) -> bool {
    let c = ivec(1, 1);
    &&& e.len() == 2
    &&& e[0] != e[1]
    &&& side_midpoint(e[0]) || e[0] == c
    &&& side_midpoint(e[1]) || e[1] == c
    &&& e[0].x == e[1].x || e[0].y == e[1].y
    &&& if e[0] == c || e[1] == c {
        half_edge_separates(index, e[0], e[1])
    } else {
        half_edge_separates(index, e[0], c) && half_edge_separates(index, c, e[1])
    }
}

/// The straight borders of a neighbourhood: every edge runs along a grid
/// line and has the walkable tiles on its left and the empty ones on its
/// right; a neighbourhood whose tiles are all walkable or all empty, or
/// whose two walkable tiles face each other across the centre, has none.
pub proof fn lemma_square_edges_separate(index: u8)
    requires
        index < 16,
    ensures
        (index == 0 || index == 5 || index == 10 || index == 15) ==> square_edges(index).len() == 0,
        forall|k: int|
            0 <= k < square_edges(index).len() ==> straight_edge_separates(
                index,
                #[trigger] square_edges(index)[k],
            ),
{
    let d = square_edges(index);
    assert(ivec(1, 1).x == 1 && ivec(1, 1).y == 1 && ivec(3, 1).x == 3 && ivec(3, 1).y == 1 && ivec(3, 3).x == 3 && ivec(3, 3).y == 3 && ivec(1, 3).x == 1 && ivec(1, 3).y == 3 && ivec(1, 0).x == 1 && ivec(1, 0).y == 0 && ivec(0, 1).x == 0 && ivec(0, 1).y == 1 && ivec(2, 1).x == 2 && ivec(2, 1).y == 1 && ivec(1, 2).x == 1 && ivec(1, 2).y == 2);
    if index == 0u8 {
        assert(tile_bit(index, 0) == false && tile_bit(index, 1) == false && tile_bit(index, 2) == false && tile_bit(index, 3) == false);
    }
    if index == 1u8 {
        assert(tile_bit(index, 0) == true && tile_bit(index, 1) == false && tile_bit(index, 2) == false && tile_bit(index, 3) == false);
        assert(d[0] == seg(ivec(1, 0), ivec(1, 1)));
        assert(tile_at(ivec(1, 1)) == 0 && tile_at(ivec(3, 1)) == 1);
        assert(half_edge_separates(index, ivec(1, 0), ivec(1, 1)));
        assert(straight_edge_separates(index, d[0]));
        assert(d[1] == seg(ivec(1, 1), ivec(0, 1)));
        assert(tile_at(ivec(1, 1)) == 0 && tile_at(ivec(1, 3)) == 3);
        assert(half_edge_separates(index, ivec(1, 1), ivec(0, 1)));
        assert(straight_edge_separates(index, d[1]));
    }
    if index == 2u8 {
        assert(tile_bit(index, 0) == false && tile_bit(index, 1) == true && tile_bit(index, 2) == false && tile_bit(index, 3) == false);
        assert(d[0] == seg(ivec(2, 1), ivec(1, 1)));
        assert(tile_at(ivec(3, 1)) == 1 && tile_at(ivec(3, 3)) == 2);
        assert(half_edge_separates(index, ivec(2, 1), ivec(1, 1)));
        assert(straight_edge_separates(index, d[0]));
        assert(d[1] == seg(ivec(1, 1), ivec(1, 0)));
        assert(tile_at(ivec(3, 1)) == 1 && tile_at(ivec(1, 1)) == 0);
        assert(half_edge_separates(index, ivec(1, 1), ivec(1, 0)));
        assert(straight_edge_separates(index, d[1]));
    }
    if index == 3u8 {
        assert(tile_bit(index, 0) == true && tile_bit(index, 1) == true && tile_bit(index, 2) == false && tile_bit(index, 3) == false);
        assert(d[0] == seg(ivec(2, 1), ivec(0, 1)));
        assert(tile_at(ivec(3, 1)) == 1 && tile_at(ivec(3, 3)) == 2);
        assert(half_edge_separates(index, ivec(2, 1), ivec(1, 1)));
        assert(tile_at(ivec(1, 1)) == 0 && tile_at(ivec(1, 3)) == 3);
        assert(half_edge_separates(index, ivec(1, 1), ivec(0, 1)));
        assert(straight_edge_separates(index, d[0]));
    }
    if index == 4u8 {
        assert(tile_bit(index, 0) == false && tile_bit(index, 1) == false && tile_bit(index, 2) == true && tile_bit(index, 3) == false);
        assert(d[0] == seg(ivec(1, 2), ivec(1, 1)));
        assert(tile_at(ivec(3, 3)) == 2 && tile_at(ivec(1, 3)) == 3);
        assert(half_edge_separates(index, ivec(1, 2), ivec(1, 1)));
        assert(straight_edge_separates(index, d[0]));
        assert(d[1] == seg(ivec(1, 1), ivec(2, 1)));
        assert(tile_at(ivec(3, 3)) == 2 && tile_at(ivec(3, 1)) == 1);
        assert(half_edge_separates(index, ivec(1, 1), ivec(2, 1)));
        assert(straight_edge_separates(index, d[1]));
    }
    if index == 5u8 {
        assert(tile_bit(index, 0) == true && tile_bit(index, 1) == false && tile_bit(index, 2) == true && tile_bit(index, 3) == false);
    }
    if index == 6u8 {
        assert(tile_bit(index, 0) == false && tile_bit(index, 1) == true && tile_bit(index, 2) == true && tile_bit(index, 3) == false);
        assert(d[0] == seg(ivec(1, 2), ivec(1, 0)));
        assert(tile_at(ivec(3, 3)) == 2 && tile_at(ivec(1, 3)) == 3);
        assert(half_edge_separates(index, ivec(1, 2), ivec(1, 1)));
        assert(tile_at(ivec(3, 1)) == 1 && tile_at(ivec(1, 1)) == 0);
        assert(half_edge_separates(index, ivec(1, 1), ivec(1, 0)));
        assert(straight_edge_separates(index, d[0]));
    }
    if index == 7u8 {
        assert(tile_bit(index, 0) == true && tile_bit(index, 1) == true && tile_bit(index, 2) == true && tile_bit(index, 3) == false);
        assert(d[0] == seg(ivec(1, 2), ivec(1, 1)));
        assert(tile_at(ivec(3, 3)) == 2 && tile_at(ivec(1, 3)) == 3);
        assert(half_edge_separates(index, ivec(1, 2), ivec(1, 1)));
        assert(straight_edge_separates(index, d[0]));
        assert(d[1] == seg(ivec(1, 1), ivec(0, 1)));
        assert(tile_at(ivec(1, 1)) == 0 && tile_at(ivec(1, 3)) == 3);
        assert(half_edge_separates(index, ivec(1, 1), ivec(0, 1)));
        assert(straight_edge_separates(index, d[1]));
    }
    if index == 8u8 {
        assert(tile_bit(index, 0) == false && tile_bit(index, 1) == false && tile_bit(index, 2) == false && tile_bit(index, 3) == true);
        assert(d[0] == seg(ivec(0, 1), ivec(1, 1)));
        assert(tile_at(ivec(1, 3)) == 3 && tile_at(ivec(1, 1)) == 0);
        assert(half_edge_separates(index, ivec(0, 1), ivec(1, 1)));
        assert(straight_edge_separates(index, d[0]));
        assert(d[1] == seg(ivec(1, 1), ivec(1, 2)));
        assert(tile_at(ivec(1, 3)) == 3 && tile_at(ivec(3, 3)) == 2);
        assert(half_edge_separates(index, ivec(1, 1), ivec(1, 2)));
        assert(straight_edge_separates(index, d[1]));
    }
    if index == 9u8 {
        assert(tile_bit(index, 0) == true && tile_bit(index, 1) == false && tile_bit(index, 2) == false && tile_bit(index, 3) == true);
        assert(d[0] == seg(ivec(1, 0), ivec(1, 2)));
        assert(tile_at(ivec(1, 1)) == 0 && tile_at(ivec(3, 1)) == 1);
        assert(half_edge_separates(index, ivec(1, 0), ivec(1, 1)));
        assert(tile_at(ivec(1, 3)) == 3 && tile_at(ivec(3, 3)) == 2);
        assert(half_edge_separates(index, ivec(1, 1), ivec(1, 2)));
        assert(straight_edge_separates(index, d[0]));
    }
    if index == 10u8 {
        assert(tile_bit(index, 0) == false && tile_bit(index, 1) == true && tile_bit(index, 2) == false && tile_bit(index, 3) == true);
    }
    if index == 11u8 {
        assert(tile_bit(index, 0) == true && tile_bit(index, 1) == true && tile_bit(index, 2) == false && tile_bit(index, 3) == true);
        assert(d[0] == seg(ivec(2, 1), ivec(1, 1)));
        assert(tile_at(ivec(3, 1)) == 1 && tile_at(ivec(3, 3)) == 2);
        assert(half_edge_separates(index, ivec(2, 1), ivec(1, 1)));
        assert(straight_edge_separates(index, d[0]));
        assert(d[1] == seg(ivec(1, 1), ivec(1, 2)));
        assert(tile_at(ivec(1, 3)) == 3 && tile_at(ivec(3, 3)) == 2);
        assert(half_edge_separates(index, ivec(1, 1), ivec(1, 2)));
        assert(straight_edge_separates(index, d[1]));
    }
    if index == 12u8 {
        assert(tile_bit(index, 0) == false && tile_bit(index, 1) == false && tile_bit(index, 2) == true && tile_bit(index, 3) == true);
        assert(d[0] == seg(ivec(0, 1), ivec(2, 1)));
        assert(tile_at(ivec(1, 3)) == 3 && tile_at(ivec(1, 1)) == 0);
        assert(half_edge_separates(index, ivec(0, 1), ivec(1, 1)));
        assert(tile_at(ivec(3, 3)) == 2 && tile_at(ivec(3, 1)) == 1);
        assert(half_edge_separates(index, ivec(1, 1), ivec(2, 1)));
        assert(straight_edge_separates(index, d[0]));
    }
    if index == 13u8 {
        assert(tile_bit(index, 0) == true && tile_bit(index, 1) == false && tile_bit(index, 2) == true && tile_bit(index, 3) == true);
        assert(d[0] == seg(ivec(1, 0), ivec(1, 1)));
        assert(tile_at(ivec(1, 1)) == 0 && tile_at(ivec(3, 1)) == 1);
        assert(half_edge_separates(index, ivec(1, 0), ivec(1, 1)));
        assert(straight_edge_separates(index, d[0]));
        assert(d[1] == seg(ivec(1, 1), ivec(2, 1)));
        assert(tile_at(ivec(3, 3)) == 2 && tile_at(ivec(3, 1)) == 1);
        assert(half_edge_separates(index, ivec(1, 1), ivec(2, 1)));
        assert(straight_edge_separates(index, d[1]));
    }
    if index == 14u8 {
        assert(tile_bit(index, 0) == false && tile_bit(index, 1) == true && tile_bit(index, 2) == true && tile_bit(index, 3) == true);
        assert(d[0] == seg(ivec(0, 1), ivec(1, 1)));
        assert(tile_at(ivec(1, 3)) == 3 && tile_at(ivec(1, 1)) == 0);
        assert(half_edge_separates(index, ivec(0, 1), ivec(1, 1)));
        assert(straight_edge_separates(index, d[0]));
        assert(d[1] == seg(ivec(1, 1), ivec(1, 0)));
        assert(tile_at(ivec(3, 1)) == 1 && tile_at(ivec(1, 1)) == 0);
        assert(half_edge_separates(index, ivec(1, 1), ivec(1, 0)));
        assert(straight_edge_separates(index, d[1]));
    }
    if index == 15u8 {
        assert(tile_bit(index, 0) == true && tile_bit(index, 1) == true && tile_bit(index, 2) == true && tile_bit(index, 3) == true);
    }
}

/// The border edge that closes the contour along the `x == 0` side of the grid.
pub open spec fn x_zero_border(index: u8) -> Seq<IVec2> {
    if index == 1 || index == 3 || index == 5 || index == 7 {
        seq![ivec(0, 1), ivec(0, 0)]
    } else if index == 8 || index == 10 || index == 12 || index == 14 {
        seq![ivec(0, 2), ivec(0, 1)]
    } else if index == 9 || index == 11 || index == 13 || index == 15 {
        seq![ivec(0, 2), ivec(0, 0)]
    } else {
        seq![]
    }
}

/// The border edge that closes the contour along the `y == 0` side of the grid.
pub open spec fn y_zero_border(index: u8) -> Seq<IVec2> {
    if index == 1 || index == 5 || index == 9 || index == 13 {
        seq![ivec(0, 0), ivec(1, 0)]
    } else if index == 2 || index == 6 || index == 10 || index == 14 {
        seq![ivec(1, 0), ivec(2, 0)]
    } else if index == 3 || index == 7 || index == 11 || index == 15 {
        seq![ivec(0, 0), ivec(2, 0)]
    } else {
        seq![]
    }
}

fn seg_vec(a: IVec2, b: IVec2) -> (v: Vec<IVec2>)
    ensures
        v@ == seg(a, b),
{
    vec![a, b]
}

fn one_seg(a: IVec2, b: IVec2) -> (v: Vec<Vec<IVec2>>)
    ensures
        polys_view(v@) == seq![seg(a, b)],
{
    let v = vec![seg_vec(a, b)];
    assert(polys_view(v@) =~= seq![seg(a, b)]);
    v
}

fn two_segs(a: IVec2, b: IVec2, c: IVec2, d: IVec2) -> (v: Vec<Vec<IVec2>>)
    ensures
        polys_view(v@) == seq![seg(a, b), seg(c, d)],
{
    let v = vec![seg_vec(a, b), seg_vec(c, d)];
    assert(polys_view(v@) =~= seq![seg(a, b), seg(c, d)]);
    v
}

fn no_segs() -> (v: Vec<Vec<IVec2>>)
    ensures
        polys_view(v@) == Seq::<Seq<IVec2>>::empty(),
{
    let v = Vec::new();
    assert(polys_view(v@) =~= Seq::<Seq<IVec2>>::empty());
    v
}

/// The straight-border contour edges of bitmask `index`. The bitmasks 5 and
/// 10 (two diagonal tiles) have no straight contour.
fn index_to_square_edges(index: u8) -> (edges: Vec<Vec<IVec2>>)
    requires
        index != 5 && index != 10,
    ensures
        polys_view(edges@) == square_edges(index),
{
    let x = IVec2::new(1, 0);
    let y = IVec2::new(0, 1);
    let one = IVec2::new(1, 1);
    let x2 = IVec2::new(2, 1);
    let y2 = IVec2::new(1, 2);
    match index {
        1 => two_segs(x, one, one, y),
        2 => two_segs(x2, one, one, x),
        3 => one_seg(x2, y),
        4 => two_segs(y2, one, one, x2),
        6 => one_seg(y2, x),
        7 => two_segs(y2, one, one, y),
        8 => two_segs(y, one, one, y2),
        9 => one_seg(x, y2),
        11 => two_segs(x2, one, one, y2),
        12 => one_seg(y, x2),
        13 => two_segs(x, one, one, x2),
        14 => two_segs(y, one, one, x),
        _ => no_segs(),
    }
}

/// The diagonal-border contour edges of bitmask `index`.
fn index_to_diagonal_edges(index: u8) -> (edges: Vec<Vec<IVec2>>)
    ensures
        polys_view(edges@) == diagonal_edges(index),
{
    let x = IVec2::new(1, 0);
    let y = IVec2::new(0, 1);
    let x2 = IVec2::new(2, 1);
    let y2 = IVec2::new(1, 2);
    match index {
        1 => one_seg(x, y),
        2 => one_seg(x2, x),
        3 => one_seg(x2, y),
        4 => one_seg(y2, x2),
        5 => two_segs(x, y, y2, x2),
        6 => one_seg(y2, x),
        7 => one_seg(y2, y),
        8 => one_seg(y, y2),
        9 => one_seg(x, y2),
        10 => two_segs(y, y2, x2, x),
        11 => one_seg(x2, y2),
        12 => one_seg(y, x2),
        13 => one_seg(x, x2),
        14 => one_seg(y, x),
        _ => no_segs(),
    }
}

fn index_to_edges_x_zero_border(index: u8) -> (edge: Vec<IVec2>)
    ensures
        edge@ == x_zero_border(index),
{
    match index {
        1 | 3 | 5 | 7 => seg_vec(IVec2::new(0, 1), IVec2::new(0, 0)),
        8 | 10 | 12 | 14 => seg_vec(IVec2::new(0, 2), IVec2::new(0, 1)),
        9 | 11 | 13 | 15 => seg_vec(IVec2::new(0, 2), IVec2::new(0, 0)),
        _ => Vec::new(),
    }
}

fn index_to_edges_y_zero_border(index: u8) -> (edge: Vec<IVec2>)
    ensures
        edge@ == y_zero_border(index),
{
    match index {
        1 | 5 | 9 | 13 => seg_vec(IVec2::new(0, 0), IVec2::new(1, 0)),
        2 | 6 | 10 | 14 => seg_vec(IVec2::new(1, 0), IVec2::new(2, 0)),
        3 | 7 | 11 | 15 => seg_vec(IVec2::new(0, 0), IVec2::new(2, 0)),
        _ => Vec::new(),
    }
}

/// All contour edges of the neighbourhood at (`x`, `y`) with bitmask `index`:
/// the straight or diagonal edges, then the border edges where the
/// neighbourhood touches the `x == 0` or the `y == 0` side.
pub open spec fn cell_edges(index: u8, x: int, y: int, is_square: bool) -> Seq<Seq<IVec2>> {
    let inner = if is_square {
        square_edges(index)
    } else {
        diagonal_edges(index)
    };
    let with_x = if x == 0 && x_zero_border(index).len() > 0 {
        inner.push(x_zero_border(index))
    } else {
        inner
    };
    if y == 0 && y_zero_border(index).len() > 0 {
        with_x.push(y_zero_border(index))
    } else {
        with_x
    }
}

pub fn get_diagonal_edges(index: u8, x: usize, y: usize, is_square: bool) -> (edges: Vec<
    Vec<IVec2>,
>)
    requires
        is_square ==> index != 5 && index != 10,
    ensures
        polys_view(edges@) == cell_edges(index, x as int, y as int, is_square),
{
    let mut edges = if is_square {
        index_to_square_edges(index)
    } else {
        index_to_diagonal_edges(index)
    };
    let ghost inner = polys_view(edges@);
    if x == 0 {
        let edge_vertices = index_to_edges_x_zero_border(index);
        if edge_vertices.len() != 0 {
            edges.push(edge_vertices);
            assert(polys_view(edges@) =~= inner.push(x_zero_border(index)));
        }
    }
    let ghost with_x = polys_view(edges@);
    if y == 0 {
        let edge_vertices = index_to_edges_y_zero_border(index);
        if edge_vertices.len() != 0 {
            edges.push(edge_vertices);
            assert(polys_view(edges@) =~= with_x.push(y_zero_border(index)));
        }
    }
    edges
}

/// One if the tile value is non-zero, else zero.
pub open spec fn bit(v: u8) -> u8 {
    if v == 0 {
        0
    } else {
        1
    }
}

/// The marching-squares bitmask of the 2x2 neighbourhood whose lower-left tile
/// is (`i`, `j`); zero on the last column and the last row.
pub open spec fn index_value(g: Grid, i: int, j: int) -> u8 {
    if i + 1 < g.width && j + 1 < g.height {
        (bit(g.cell(i, j)) + 2 * bit(g.cell(i + 1, j)) + 4 * bit(g.cell(i + 1, j + 1)) + 8 * bit(
            g.cell(i, j + 1),
        )) as u8
    } else {
        0
    }
}

/// The marching-squares bitmask of every 2x2 neighbourhood of the grid.
pub fn index_matrix(grid: &Grid) -> (m: Vec<Vec<u8>>)
    requires
        grid.wf(),
        grid.width >= 1,
        grid.width >= 2 ==> grid.height >= 1,
    ensures
        m@.len() == grid.width,
        forall|i: int|
            0 <= i < grid.width ==> (#[trigger] m@[i])@ == Seq::new(
                grid.height as nat,
                |j: int| index_value(*grid, i, j),
            ),
{
    let mut m: Vec<Vec<u8>> = Vec::new();
    let mut i: usize = 0;
    while i < grid.width
        invariant
            grid.wf(),
            i <= grid.width,
            m@.len() == i,
            forall|a: int|
                0 <= a < i ==> (#[trigger] m@[a])@ == Seq::new(
                    grid.height as nat,
                    |j: int| index_value(*grid, a, j),
                ),
        decreases grid.width - i,
    {
        let mut row: Vec<u8> = Vec::new();
        let mut j: usize = 0;
        while j < grid.height
            invariant
                grid.wf(),
                i < grid.width,
                j <= grid.height,
                row@ == Seq::new(j as nat, |b: int| index_value(*grid, i as int, b)),
            decreases grid.height - j,
        {
            let v: u8 = if i + 1 < grid.width && j + 1 < grid.height {
                let b0: u8 = if grid.grid[i][j] == 0 { 0 } else { 1 };
                let b1: u8 = if grid.grid[i + 1][j] == 0 { 0 } else { 1 };
                let b2: u8 = if grid.grid[i + 1][j + 1] == 0 { 0 } else { 1 };
                let b3: u8 = if grid.grid[i][j + 1] == 0 { 0 } else { 1 };
                b0 + 2 * b1 + 4 * b2 + 8 * b3
            } else {
                0
            };
            row.push(v);
            assert(row@ =~= Seq::new((j + 1) as nat, |b: int| index_value(*grid, i as int, b)));
            j = j + 1;
        }
        m.push(row);
        i = i + 1;
    }
    m
}

/// Row `i` of the path finding matrix, `len` cells long: 1 for a cell that
/// holds anything, 0 for an empty one.
pub open spec fn walkable_row(g: Grid, i: int, len: int) -> Seq<u8> {
    Seq::new(len as nat, |j: int| if g.grid@[i]@[j] != 0 { 1u8 } else { 0u8 })
}

/// The grid matrix used for path finding: the grid without its last column
/// and its last row (the marching squares need one extra row and column),
/// with 1 for every non-empty cell and 0 for every empty one.
pub fn map_grid_matrix(grid: &Grid) -> (m: Vec<Vec<u8>>)
    requires
        grid.wf(),
        grid.width > 2,
    ensures
        m@.len() == grid.width - 1,
        forall|i: int|
            0 <= i < grid.width - 1 ==> (#[trigger] m@[i])@ == (if grid.height == 0 {
                Seq::<u8>::empty()
            } else {
                walkable_row(*grid, i, grid.height - 1)
            }),
{
    let mut m: Vec<Vec<u8>> = Vec::new();
    let mut i: usize = 0;
    while i + 1 < grid.width
        invariant
            grid.wf(),
            grid.width > 2,
            i + 1 <= grid.width,
            m@.len() == i,
            forall|a: int|
                0 <= a < i ==> (#[trigger] m@[a])@ == (if grid.height == 0 {
                    Seq::<u8>::empty()
                } else {
                    walkable_row(*grid, a, grid.height - 1)
                }),
        decreases grid.width - i,
    {
        let mut row: Vec<u8> = Vec::new();
        let mut j: usize = 0;
        while j + 1 < grid.height
            invariant
                grid.wf(),
                i < grid.width,
                j + 1 <= grid.height || grid.height == 0 && j == 0,
                row@ == walkable_row(*grid, i as int, j as int),
            decreases grid.height - j,
        {
            let v: u8 = if grid.grid[i][j] != 0 { 1 } else { 0 };
            row.push(v);
            assert(row@ =~= walkable_row(*grid, i as int, j + 1));
            j = j + 1;
        }
        assert(grid.height == 0 ==> row@ =~= Seq::<u8>::empty());
        assert(grid.height > 0 ==> row@ =~= walkable_row(*grid, i as int, grid.height - 1));
        m.push(row);
        i = i + 1;
    }
    m
}

/// Whether none of the four tiles of the neighbourhood at (`x`, `y`) (clamped
/// to the grid) is a diagonal tile.
pub open spec fn spec_is_square(g: Grid, x: int, y: int) -> bool {
    let i = if x + 1 < g.width - 1 { x + 1 } else { g.width - 1 };
    let j = if y + 1 < g.height - 1 { y + 1 } else { g.height - 1 };
    g.cell(x, y) != DIAGONAL_WALKABLE_INDEX && g.cell(i, y) != DIAGONAL_WALKABLE_INDEX && g.cell(x, j)
        != DIAGONAL_WALKABLE_INDEX && g.cell(i, j) != DIAGONAL_WALKABLE_INDEX
}

pub fn is_square(grid: &Grid, x: usize, y: usize) -> (b: bool)
    requires
        grid.wf(),
        x < grid.width,
        y < grid.height,
    ensures
        b == spec_is_square(*grid, x as int, y as int),
{
    let i = if x + 1 < grid.width - 1 { x + 1 } else { grid.width - 1 };
    let j = if y + 1 < grid.height - 1 { y + 1 } else { grid.height - 1 };
    grid.grid[x][y] != DIAGONAL_WALKABLE_INDEX && grid.grid[i][y] != DIAGONAL_WALKABLE_INDEX
        && grid.grid[x][j] != DIAGONAL_WALKABLE_INDEX && grid.grid[i][j] != DIAGONAL_WALKABLE_INDEX
}

/// `width` rows of `height` zeros.
fn zero_rows(width: usize, height: usize) -> (rows: Vec<Vec<u8>>)
    ensures
        rows@.len() == width,
        forall|i: int| 0 <= i < width ==> (#[trigger] rows@[i])@ == Seq::new(height as nat, |j: int| 0u8),
{
    let mut rows: Vec<Vec<u8>> = Vec::new();
    let mut i: usize = 0;
    while i < width
        invariant
            i <= width,
            rows@.len() == i,
            forall|a: int| 0 <= a < i ==> (#[trigger] rows@[a])@ == Seq::new(height as nat, |j: int| 0u8),
        decreases width - i,
    {
        let mut row: Vec<u8> = Vec::new();
        let mut j: usize = 0;
        while j < height
            invariant
                j <= height,
                row@ == Seq::new(j as nat, |b: int| 0u8),
            decreases height - j,
        {
            row.push(0);
            j = j + 1;
        }
        rows.push(row);
        i = i + 1;
    }
    rows
}

} // verus!
