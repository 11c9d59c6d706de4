//! Contour extraction of the walkable area, flood fill of disjoint regions and
//! the adjacency graph of navigation polygons.
use vstd::prelude::*;
use crate::vector::{IVec2, UVec2, ivec, polys_view, cells_view};
use crate::matrix::{Grid, cell_edges, get_diagonal_edges, index_matrix, index_value, is_square, spec_is_square, square_edges, diagonal_edges, x_zero_border, y_zero_border};
use crate::geometry::{position, spec_collinear, collinear_ivec, prev, next, spec_is_ccw, is_ccw_ivec};

use crate::outline::{lemma_kept_ccw, lemma_world_ccw, world_sized};

verus! {

/// The vertices of `b` that equal `v`, among the first `k` of `b`, in order.
pub open spec fn row_matches(v: IVec2, b: Seq<IVec2>, k: int) -> Seq<IVec2>
    decreases k,
{
    if k <= 0 {
        seq![]
    } else if b[k - 1] == v {
        row_matches(v, b, k - 1).push(b[k - 1])
    } else {
        row_matches(v, b, k - 1)
    }
}

/// The vertices of `b` shared with the first `k` vertices of `a`, in the order
/// in which a scan over `a` and, for each of its vertices, over `b` meets them.
pub open spec fn shared_vertices(a: Seq<IVec2>, b: Seq<IVec2>, k: int) -> Seq<IVec2>
    decreases k,
{
    if k <= 0 {
        seq![]
    } else {
        shared_vertices(a, b, k - 1) + row_matches(a[k - 1], b, b.len() as int)
    }
}

proof fn lemma_row_matches_prefix(v: IVec2, b: Seq<IVec2>, k1: int, k2: int)
    requires
        0 <= k1 <= k2,
    ensures
        row_matches(v, b, k1).len() <= row_matches(v, b, k2).len(),
        forall|t: int|
            0 <= t < row_matches(v, b, k1).len() ==> row_matches(v, b, k2)[t] == row_matches(
                v,
                b,
                k1,
            )[t],
    decreases k2 - k1,
{
    if k1 < k2 {
        lemma_row_matches_prefix(v, b, k1, k2 - 1);
    }
}

proof fn lemma_shared_prefix(a: Seq<IVec2>, b: Seq<IVec2>, k1: int, k2: int)
    requires
        0 <= k1 <= k2,
    ensures
        shared_vertices(a, b, k1).len() <= shared_vertices(a, b, k2).len(),
        forall|t: int|
            0 <= t < shared_vertices(a, b, k1).len() ==> shared_vertices(a, b, k2)[t]
                == shared_vertices(a, b, k1)[t],
    decreases k2 - k1,
{
    if k1 < k2 {
        lemma_shared_prefix(a, b, k1, k2 - 1);
    }
}

/// The first two shared vertices, as the edge the polygons share.
pub open spec fn spec_adjacency_edge(a: Seq<IVec2>, b: Seq<IVec2>) -> Option<(IVec2, IVec2)> {
    let m = shared_vertices(a, b, a.len() as int);
    if m.len() >= 2 {
        Some((m[0], m[1]))
    } else {
        None
    }
}

/// The first two shared vertices differ (a polygon does not repeat a vertex
/// where the scan meets it).
pub open spec fn adjacency_ok(a: Seq<IVec2>, b: Seq<IVec2>) -> bool {
    let m = shared_vertices(a, b, a.len() as int);
    m.len() >= 2 ==> m[0] != m[1]
}

/// Return the edge that both polygons share, `None` if they share fewer than
/// two vertices.
pub fn adjacency_edge(poly_a: &Vec<IVec2>, poly_b: &Vec<IVec2>) -> (r: Option<(IVec2, IVec2)>)
    requires
        adjacency_ok(poly_a@, poly_b@),
    ensures
        r == spec_adjacency_edge(poly_a@, poly_b@),
{
    let ghost a = poly_a@;
    let ghost b = poly_b@;
    let ghost n = a.len() as int;
    let mut first_shared: Option<IVec2> = None;
    let mut i: usize = 0;
    while i < poly_a.len()
        invariant
            i <= poly_a.len(),
            a == poly_a@,
            b == poly_b@,
            n == a.len(),
            adjacency_ok(a, b),
            shared_vertices(a, b, i as int).len() <= 1,
            first_shared == (if shared_vertices(a, b, i as int).len() == 0 {
                None
            } else {
                Some(shared_vertices(a, b, i as int)[0])
            }),
        decreases poly_a.len() - i,
    {
        let v = poly_a[i];
        let mut j: usize = 0;
        while j < poly_b.len()
            invariant
                i < poly_a.len(),
                j <= poly_b.len(),
                a == poly_a@,
                b == poly_b@,
                n == a.len(),
                v == a[i as int],
                adjacency_ok(a, b),
                (shared_vertices(a, b, i as int) + row_matches(v, b, j as int)).len() <= 1,
                first_shared == (if (shared_vertices(a, b, i as int) + row_matches(v, b, j as int)).len()
                    == 0 {
                    None
                } else {
                    Some((shared_vertices(a, b, i as int) + row_matches(v, b, j as int))[0])
                }),
            decreases poly_b.len() - j,
        {
            let u = poly_b[j];
            if v == u {
                let ghost cur = shared_vertices(a, b, i as int) + row_matches(v, b, j + 1);
                assert(row_matches(v, b, j + 1) == row_matches(v, b, j as int).push(u));
                match first_shared {
                    Some(shared_vertex) => {
                        proof {
                            lemma_row_matches_prefix(v, b, j + 1, b.len() as int);
                            lemma_shared_prefix(a, b, i + 1, n);
                            let full = shared_vertices(a, b, n);
                            let nxt = shared_vertices(a, b, i + 1);
                            assert(nxt == shared_vertices(a, b, i as int) + row_matches(v, b, b.len() as int));
                            assert(cur.len() == 2);
                            assert(nxt[0] == cur[0] && nxt[1] == cur[1]);
                            assert(full[0] == cur[0] && full[1] == cur[1]);
                        }
                        return Some((shared_vertex, u));
                    },
                    None => {
                        first_shared = Some(u);
                    },
                }
            }
            j = j + 1;
        }
        assert(shared_vertices(a, b, i + 1) == shared_vertices(a, b, i as int) + row_matches(v, b, b.len() as int));
        i = i + 1;
    }
    None
}

/// The neighbours of polygon `i` among the first `k` polygons, with the edge
/// shared with each.
pub open spec fn adjacency_row(polys: Seq<Seq<IVec2>>, i: int, k: int) -> Seq<(usize, (IVec2, IVec2))>
    decreases k,
{
    if k <= 0 {
        seq![]
    } else {
        let rest = adjacency_row(polys, i, k - 1);
        let j = k - 1;
        if j != i && spec_adjacency_edge(polys[i], polys[j]) is Some {
            rest.push((j as usize, spec_adjacency_edge(polys[i], polys[j])->0))
        } else {
            rest
        }
    }
}


/// Every neighbour listed for polygon `i` among the first `k` is another
/// polygon among those `k`.
pub proof fn lemma_adjacency_row_bounds(polys: Seq<Seq<IVec2>>, i: int, k: int)
    requires
        0 <= k <= polys.len(),
        polys.len() <= usize::MAX,
    ensures
        forall|t: int|
            0 <= t < adjacency_row(polys, i, k).len() ==> (#[trigger] adjacency_row(polys, i, k)[t]).0
                < k && adjacency_row(polys, i, k)[t].0 != i,
    decreases k,
{
    if k > 0 {
        lemma_adjacency_row_bounds(polys, i, k - 1);
        let rest = adjacency_row(polys, i, k - 1);
        let row = adjacency_row(polys, i, k);
        assert forall|t: int| 0 <= t < row.len() implies (#[trigger] row[t]).0 < k && row[t].0 != i by {
            if t < rest.len() {
                assert(row[t] == rest[t]);
            }
        }
    }
}

/// Whether the first two vertices that the polygons share differ
/// (`adjacency_ok`).
pub(crate) fn adjacency_ok_exec(poly_a: &Vec<IVec2>, poly_b: &Vec<IVec2>) -> (r: bool)
    ensures
        r == adjacency_ok(poly_a@, poly_b@),
{
    let ghost a = poly_a@;
    let ghost b = poly_b@;
    let ghost n = a.len() as int;
    let mut first_shared: Option<IVec2> = None;
    let mut i: usize = 0;
    while i < poly_a.len()
        invariant
            i <= poly_a.len(),
            a == poly_a@,
            b == poly_b@,
            n == a.len(),
            shared_vertices(a, b, i as int).len() <= 1,
            first_shared == (if shared_vertices(a, b, i as int).len() == 0 {
                None
            } else {
                Some(shared_vertices(a, b, i as int)[0])
            }),
        decreases poly_a.len() - i,
    {
        let v = poly_a[i];
        let mut j: usize = 0;
        while j < poly_b.len()
            invariant
                i < poly_a.len(),
                j <= poly_b.len(),
                a == poly_a@,
                b == poly_b@,
                n == a.len(),
                v == a[i as int],
                (shared_vertices(a, b, i as int) + row_matches(v, b, j as int)).len() <= 1,
                first_shared == (if (shared_vertices(a, b, i as int) + row_matches(v, b, j as int)).len()
                    == 0 {
                    None
                } else {
                    Some((shared_vertices(a, b, i as int) + row_matches(v, b, j as int))[0])
                }),
            decreases poly_b.len() - j,
        {
            let u = poly_b[j];
            if v == u {
                let ghost cur = shared_vertices(a, b, i as int) + row_matches(v, b, j + 1);
                assert(row_matches(v, b, j + 1) == row_matches(v, b, j as int).push(u));
                match first_shared {
                    Some(shared_vertex) => {
                        proof {
                            lemma_row_matches_prefix(v, b, j + 1, b.len() as int);
                            lemma_shared_prefix(a, b, i + 1, n);
                            let full = shared_vertices(a, b, n);
                            let nxt = shared_vertices(a, b, i + 1);
                            assert(nxt == shared_vertices(a, b, i as int) + row_matches(v, b, b.len() as int));
                            assert(cur.len() == 2);
                            assert(nxt[0] == cur[0] && nxt[1] == cur[1]);
                            assert(full[0] == cur[0] && full[1] == cur[1]);
                        }
                        return shared_vertex != u;
                    },
                    None => {
                        first_shared = Some(u);
                    },
                }
            }
            j = j + 1;
        }
        assert(shared_vertices(a, b, i + 1) == shared_vertices(a, b, i as int) + row_matches(v, b, b.len() as int));
        i = i + 1;
    }
    true
}

/// Whether every two polygons meet `adjacency_ok` (`all_adjacency_ok`).
pub(crate) fn all_adjacency_ok_exec(polys: &Vec<Vec<IVec2>>) -> (r: bool)
    ensures
        r == all_adjacency_ok(polys_view(polys@)),
{
    let ghost p = polys_view(polys@);
    let n = polys.len();
    let mut i: usize = 0;
    while i < n
        invariant
            n == polys@.len(),
            p == polys_view(polys@),
            i <= n,
            forall|x: int, y: int|
                0 <= x < i && 0 <= y < n && x != y ==> adjacency_ok(#[trigger] p[x], #[trigger] p[y]),
        decreases n - i,
    {
        let mut j: usize = 0;
        while j < n
            invariant
                n == polys@.len(),
                p == polys_view(polys@),
                i < n,
                j <= n,
                forall|x: int, y: int|
                    0 <= x < i && 0 <= y < n && x != y ==> adjacency_ok(#[trigger] p[x], #[trigger] p[y]),
                forall|y: int| 0 <= y < j && y != i ==> adjacency_ok(p[i as int], #[trigger] p[y]),
            decreases n - j,
        {
            assert(p[i as int] == polys@[i as int]@ && p[j as int] == polys@[j as int]@);
            if i != j && !adjacency_ok_exec(&polys[i], &polys[j]) {
                return false;
            }
            j = j + 1;
        }
        i = i + 1;
    }
    true
}

/// Every pair of distinct polygons can be tested for adjacency.
pub open spec fn all_adjacency_ok(polys: Seq<Seq<IVec2>>) -> bool {
    forall|i: int, j: int|
        0 <= i < polys.len() && 0 <= j < polys.len() && i != j ==> adjacency_ok(
            #[trigger] polys[i],
            #[trigger] polys[j],
        )
}

/// For each polygon, the indices of its neighbours with the edge they share,
/// in increasing order of index.
pub fn construct_adjacency_graph(navmesh_polygons: &Vec<Vec<IVec2>>) -> (graph: Vec<
    Vec<(usize, (IVec2, IVec2))>,
>)
    requires
        all_adjacency_ok(polys_view(navmesh_polygons@)),
    ensures
        graph@.len() == navmesh_polygons@.len(),
        forall|i: int|
            0 <= i < graph@.len() ==> (#[trigger] graph@[i])@ == adjacency_row(
                polys_view(navmesh_polygons@),
                i,
                navmesh_polygons@.len() as int,
            ),
{
    let ghost polys = polys_view(navmesh_polygons@);
    let n = navmesh_polygons.len();
    let mut graph: Vec<Vec<(usize, (IVec2, IVec2))>> = Vec::new();
    let mut i: usize = 0;
    while i < n
        invariant
            i <= n,
            n == navmesh_polygons@.len(),
            polys == polys_view(navmesh_polygons@),
            all_adjacency_ok(polys),
            graph@.len() == i,
            forall|a: int| 0 <= a < i ==> (#[trigger] graph@[a])@ == adjacency_row(polys, a, n as int),
        decreases n - i,
    {
        let mut row: Vec<(usize, (IVec2, IVec2))> = Vec::new();
        let mut j: usize = 0;
        while j < n
            invariant
                i < n,
                j <= n,
                n == navmesh_polygons@.len(),
                polys == polys_view(navmesh_polygons@),
                all_adjacency_ok(polys),
                row@ == adjacency_row(polys, i as int, j as int),
            decreases n - j,
        {
            if i != j {
                assert(polys[i as int] == navmesh_polygons@[i as int]@);
                assert(polys[j as int] == navmesh_polygons@[j as int]@);
                match adjacency_edge(&navmesh_polygons[i], &navmesh_polygons[j]) {
                    Some(edge) => {
                        row.push((j, edge));
                    },
                    None => {},
                }
            }
            j = j + 1;
        }
        graph.push(row);
        i = i + 1;
    }
    graph
}

/// Edges moved to the neighbourhood at (`i`, `j`), two half-tile units per tile.
pub open spec fn shift_edges(es: Seq<Seq<IVec2>>, i: int, j: int) -> Seq<Seq<IVec2>> {
    es.map_values(|e: Seq<IVec2>| e.map_values(|v: IVec2| ivec(v.x + 2 * i, v.y + 2 * j)))
}

/// The contour edges of the neighbourhood at (`i`, `j`) in grid coordinates.
pub open spec fn neighbourhood_edges(main_grid: Grid, grid: Grid, i: int, j: int) -> Seq<Seq<IVec2>> {
    shift_edges(
        cell_edges(index_value(grid, i, j), i, j, spec_is_square(main_grid, i, j)),
        i,
        j,
    )
}

/// The contour edges of the first `k` neighbourhoods of column `i`.
pub open spec fn column_edges(main_grid: Grid, grid: Grid, i: int, k: int) -> Seq<Seq<IVec2>>
    decreases k,
{
    if k <= 0 {
        seq![]
    } else {
        column_edges(main_grid, grid, i, k - 1) + neighbourhood_edges(main_grid, grid, i, k - 1)
    }
}

/// The contour edges of the first `k` columns of neighbourhoods.
pub open spec fn contour_edges(main_grid: Grid, grid: Grid, k: int) -> Seq<Seq<IVec2>>
    decreases k,
{
    if k <= 0 {
        seq![]
    } else {
        contour_edges(main_grid, grid, k - 1) + column_edges(main_grid, grid, k - 1, grid.height as int)
    }
}

/// The grids on which the contour can be computed: `main_grid` covers `grid`,
/// and no neighbourhood judged square holds two diagonal tiles.
pub open spec fn contour_ok(main_grid: Grid, grid: Grid) -> bool {
    &&& main_grid.wf()
    &&& grid.wf()
    &&& grid.width >= 1
    &&& grid.width >= 2 ==> grid.height >= 1
    &&& grid.width <= main_grid.width
    &&& grid.height <= main_grid.height
    &&& grid.width <= 0x3fff_ffff
    &&& grid.height <= 0x3fff_ffff
    &&& forall|i: int, j: int|
        0 <= i < grid.width && 0 <= j < grid.height && #[trigger] spec_is_square(main_grid, i, j)
            ==> index_value(grid, i, j) != 5 && index_value(grid, i, j) != 10
}

/// Every vertex of a table entry lies in the 3x3 half-tile square.
pub open spec fn small_vertices(es: Seq<Seq<IVec2>>) -> bool {
    forall|a: int, b: int|
        0 <= a < es.len() && 0 <= b < es[a].len() ==> 0 <= (#[trigger] es[a][b]).x <= 2 && 0
            <= es[a][b].y <= 2
}

proof fn lemma_cell_edges_small(index: u8, x: int, y: int, sq: bool)
    ensures
        small_vertices(cell_edges(index, x, y, sq)),
{
    let inner = if sq {
        square_edges(index)
    } else {
        diagonal_edges(index)
    };
    assert(small_vertices(square_edges(index)));
    assert(small_vertices(diagonal_edges(index)));
    let xb = x_zero_border(index);
    let yb = y_zero_border(index);
    assert(forall|b: int| 0 <= b < xb.len() ==> 0 <= (#[trigger] xb[b]).x <= 2 && 0 <= xb[b].y <= 2);
    assert(forall|b: int| 0 <= b < yb.len() ==> 0 <= (#[trigger] yb[b]).x <= 2 && 0 <= yb[b].y <= 2);
}

/// Get the raw contour edges of the walkable area of `grid` (marching squares
/// over its 2x2 neighbourhoods), column by column, in half-tile units.
fn disjoint_vertices(main_grid: &Grid, grid: &Grid) -> (vertices: Vec<Vec<IVec2>>)
    requires
        contour_ok(*main_grid, *grid),
    ensures
        polys_view(vertices@) == contour_edges(*main_grid, *grid, grid.width as int),
{
    let im = index_matrix(grid);
    let mut vertices: Vec<Vec<IVec2>> = Vec::new();
    let mut i: usize = 0;
    while i < grid.width
        invariant
            contour_ok(*main_grid, *grid),
            i <= grid.width,
            im@.len() == grid.width,
            forall|a: int|
                0 <= a < grid.width ==> (#[trigger] im@[a])@ == Seq::new(
                    grid.height as nat,
                    |j: int| index_value(*grid, a, j),
                ),
            polys_view(vertices@) == contour_edges(*main_grid, *grid, i as int),
        decreases grid.width - i,
    {
        let mut j: usize = 0;
        while j < grid.height
            invariant
                contour_ok(*main_grid, *grid),
                i < grid.width,
                j <= grid.height,
                im@.len() == grid.width,
                im@[i as int]@ == Seq::new(grid.height as nat, |b: int| index_value(*grid, i as int, b)),
                polys_view(vertices@) == contour_edges(*main_grid, *grid, i as int) + column_edges(
                    *main_grid,
                    *grid,
                    i as int,
                    j as int,
                ),
            decreases grid.height - j,
        {
            let index = im[i][j];
            assert(index == index_value(*grid, i as int, j as int));
            let sq = is_square(main_grid, i, j);
            let edges = get_diagonal_edges(index, i, j, sq);
            let ghost es = polys_view(edges@);
            proof {
                lemma_cell_edges_small(index, i as int, j as int, sq);
            }
            let ghost before = polys_view(vertices@);
            let mut k: usize = 0;
            while k < edges.len()
                invariant
                    i < grid.width,
                    j < grid.height,
                    grid.width <= 0x3fff_ffff,
                    grid.height <= 0x3fff_ffff,
                    k <= edges@.len(),
                    es == polys_view(edges@),
                    small_vertices(es),
                    polys_view(vertices@) == before + shift_edges(es, i as int, j as int).take(k as int),
                decreases edges.len() - k,
            {
                let pair = &edges[k];
                assert(pair@ == es[k as int]);
                let mut shifted: Vec<IVec2> = Vec::new();
                let mut t: usize = 0;
                while t < pair.len()
                    invariant
                        i < grid.width,
                        j < grid.height,
                        grid.width <= 0x3fff_ffff,
                        grid.height <= 0x3fff_ffff,
                        k < es.len(),
                        pair@ == es[k as int],
                        small_vertices(es),
                        t <= pair@.len(),
                        shifted@ == pair@.take(t as int).map_values(
                            |v: IVec2| ivec(v.x + 2 * i, v.y + 2 * j),
                        ),
                    decreases pair.len() - t,
                {
                    let v = pair[t];
                    assert(0 <= es[k as int][t as int].x <= 2 && 0 <= es[k as int][t as int].y <= 2);
                    let w = IVec2::new(v.x + 2 * (i as i32), v.y + 2 * (j as i32));
                    shifted.push(w);
                    assert(shifted@ =~= pair@.take(t + 1).map_values(
                        |v: IVec2| ivec(v.x + 2 * i, v.y + 2 * j),
                    ));
                    t = t + 1;
                }
                assert(pair@.take(pair@.len() as int) =~= pair@);
                assert(shifted@ =~= shift_edges(es, i as int, j as int)[k as int]);
                let ghost old_v = vertices@;
                let ghost sh = shift_edges(es, i as int, j as int);
                vertices.push(shifted);
                assert(polys_view(vertices@) =~= polys_view(old_v).push(sh[k as int]));
                assert(sh.take(k + 1) =~= sh.take(k as int).push(sh[k as int]));
                assert(polys_view(vertices@) =~= before + shift_edges(es, i as int, j as int).take(k + 1));
                k = k + 1;
            }
            assert(shift_edges(es, i as int, j as int).take(edges.len() as int) =~= shift_edges(
                es,
                i as int,
                j as int,
            ));
            assert(polys_view(vertices@) =~= contour_edges(*main_grid, *grid, i as int) + column_edges(
                *main_grid,
                *grid,
                i as int,
                j + 1,
            ));
            j = j + 1;
        }
        assert(polys_view(vertices@) =~= contour_edges(*main_grid, *grid, i + 1));
        i = i + 1;
    }
    vertices
}

/// Vertex `i` lies halfway between its two neighbours and can be dropped.
pub open spec fn redundant(v: Seq<IVec2>, i: int) -> bool {
    spec_collinear(v[prev(i, v.len() as int)], v[i], v[next(i, v.len() as int)])
}

/// The vertices among the first `k` that are not redundant, in order.
pub open spec fn kept_vertices(v: Seq<IVec2>, k: int) -> Seq<IVec2>
    decreases k,
{
    if k <= 0 {
        seq![]
    } else if redundant(v, k - 1) {
        kept_vertices(v, k - 1)
    } else {
        kept_vertices(v, k - 1).push(v[k - 1])
    }
}

/// Remove every vertex that lies halfway between its neighbours (all
/// redundant vertices are judged on the given polygon).
fn minimal_vertices(v: &Vec<IVec2>) -> (m: Vec<IVec2>)
    ensures
        m@ == kept_vertices(v@, v@.len() as int),
{
    let n = v.len();
    let mut m: Vec<IVec2> = Vec::new();
    let mut i: usize = 0;
    while i < n
        invariant
            i <= n,
            n == v.len(),
            m@ == kept_vertices(v@, i as int),
        decreases n - i,
    {
        let p = if i == 0 { n - 1 } else { i - 1 };
        let q = if i + 1 == n { 0 } else { i + 1 };
        if !collinear_ivec(v[p], v[i], v[q]) {
            m.push(v[i]);
        }
        i = i + 1;
    }
    m
}

/// Every vertex of every group has coordinates in `[0, hi]`.
pub open spec fn bounded(g: Seq<Seq<IVec2>>, hi: int) -> bool {
    forall|a: int, b: int|
        0 <= a < g.len() && 0 <= b < g[a].len() ==> 0 <= (#[trigger] g[a][b]).x <= hi && 0 <= g[a][b].y
            <= hi
}

proof fn lemma_contour_bounded(main_grid: Grid, grid: Grid, k: int)
    requires
        0 <= k <= grid.width,
        grid.width <= 0x3fff_ffff,
        grid.height <= 0x3fff_ffff,
    ensures
        bounded(contour_edges(main_grid, grid, k), 2 * grid.width + 2 * grid.height + 2),
    decreases k,
{
    let hi = 2 * grid.width + 2 * grid.height + 2;
    if k > 0 {
        lemma_contour_bounded(main_grid, grid, k - 1);
        lemma_column_bounded(main_grid, grid, k - 1, grid.height as int);
        let a = contour_edges(main_grid, grid, k - 1);
        let b = column_edges(main_grid, grid, k - 1, grid.height as int);
        assert forall|x: int, y: int| 0 <= x < (a + b).len() && 0 <= y < (a + b)[x].len() implies 0
            <= (#[trigger] (a + b)[x][y]).x <= hi && 0 <= (a + b)[x][y].y <= hi by {
            if x < a.len() {
                assert((a + b)[x] == a[x]);
            } else {
                assert((a + b)[x] == b[x - a.len()]);
            }
        }
    }
}

proof fn lemma_column_bounded(main_grid: Grid, grid: Grid, i: int, k: int)
    requires
        0 <= i < grid.width,
        0 <= k <= grid.height,
        grid.width <= 0x3fff_ffff,
        grid.height <= 0x3fff_ffff,
    ensures
        bounded(column_edges(main_grid, grid, i, k), 2 * grid.width + 2 * grid.height + 2),
    decreases k,
{
    let hi = 2 * grid.width + 2 * grid.height + 2;
    if k > 0 {
        lemma_column_bounded(main_grid, grid, i, k - 1);
        let j = k - 1;
        let a = column_edges(main_grid, grid, i, k - 1);
        let es = cell_edges(index_value(grid, i, j), i, j, spec_is_square(main_grid, i, j));
        lemma_cell_edges_small(index_value(grid, i, j), i, j, spec_is_square(main_grid, i, j));
        let b = neighbourhood_edges(main_grid, grid, i, j);
        assert forall|x: int, y: int| 0 <= x < b.len() && 0 <= y < b[x].len() implies 0 <= (
        #[trigger] b[x][y]).x <= hi && 0 <= b[x][y].y <= hi by {
            assert(b[x][y] == ivec(es[x][y].x + 2 * i, es[x][y].y + 2 * j));
            assert(0 <= es[x][y].x <= 2 && 0 <= es[x][y].y <= 2);
        }
        assert forall|x: int, y: int| 0 <= x < (a + b).len() && 0 <= y < (a + b)[x].len() implies 0
            <= (#[trigger] (a + b)[x][y]).x <= hi && 0 <= (a + b)[x][y].y <= hi by {
            if x < a.len() {
                assert((a + b)[x] == a[x]);
            } else {
                assert((a + b)[x] == b[x - a.len()]);
            }
        }
    }
}

/// The first group from index `k` on that starts where group 0 ends; -1 if none.
pub open spec fn link_from(g: Seq<Seq<IVec2>>, k: int) -> int
    decreases g.len() - k,
{
    if k >= g.len() {
        -1
    } else if g[k][0] == g[0].last() {
        k
    } else {
        link_from(g, k + 1)
    }
}

/// The first group after group 0 that starts where group 0 ends; -1 if none.
pub open spec fn link(g: Seq<Seq<IVec2>>) -> int {
    link_from(g, 1)
}

pub proof fn lemma_link_from(g: Seq<Seq<IVec2>>, k: int)
    requires
        k >= 1,
    ensures
        link_from(g, k) == -1 || (k <= link_from(g, k) < g.len() && g[link_from(g, k)][0]
            == g[0].last()),
        forall|t: int|
            k <= t < g.len() && (link_from(g, k) == -1 || t < link_from(g, k)) ==> (#[trigger] g[t])[0]
                != g[0].last(),
    decreases g.len() - k,
{
    if k < g.len() && g[k][0] != g[0].last() {
        lemma_link_from(g, k + 1);
    }
}

/// Append the linked group (without its first vertex, which repeats the end
/// of group 0) to group 0.
pub open spec fn join_step(g: Seq<Seq<IVec2>>) -> Seq<Seq<IVec2>> {
    let l = link(g);
    g.remove(l).update(0, g[0] + g[l].skip(1))
}

/// Join groups onto group 0 while one starts where group 0 ends.
pub open spec fn joined(g: Seq<Seq<IVec2>>) -> Seq<Seq<IVec2>>
    decreases g.len(),
{
    if g.len() > 1 && link(g) >= 1 {
        proof {
            lemma_link_from(g, 1);
        }
        joined(join_step(g))
    } else {
        g
    }
}

/// The joining reads only non-empty groups.
pub open spec fn join_ok(g: Seq<Seq<IVec2>>) -> bool
    decreases g.len(),
{
    &&& g.len() >= 1
    &&& g[0].len() >= 1
    &&& forall|t: int|
        1 <= t < g.len() && (link(g) < 0 || t <= link(g)) ==> (#[trigger] g[t]).len() >= 1
    &&& g.len() > 1 && link(g) >= 1 ==> {
        proof {
            lemma_link_from(g, 1);
        }
        join_ok(join_step(g))
    }
}

proof fn lemma_join_step(g: Seq<Seq<IVec2>>, hi: int)
    requires
        g.len() > 1,
        link(g) >= 1,
        join_ok(g),
    ensures
        join_step(g).len() == g.len() - 1,
        join_step(g)[0].len() >= g[0].len(),
        forall|t: int| 0 <= t < g[0].len() ==> join_step(g)[0][t] == g[0][t],
        bounded(g, hi) ==> bounded(join_step(g), hi),
{
    lemma_link_from(g, 1);
    let l = link(g);
    let j = join_step(g);
    assert(g[l].len() >= 1);
    if bounded(g, hi) {
    assert forall|a: int, b: int| 0 <= a < j.len() && 0 <= b < j[a].len() implies 0 <= (
    #[trigger] j[a][b]).x <= hi && 0 <= j[a][b].y <= hi by {
        if a == 0 {
            if b < g[0].len() {
                assert(j[a][b] == g[0][b]);
            } else {
                assert(j[a][b] == g[l][b - g[0].len() + 1]);
            }
        } else if a < l {
            assert(j[a] == g[a]);
        } else {
            assert(j[a] == g[a + 1]);
        }
    }
    }
}

proof fn lemma_joined(g: Seq<Seq<IVec2>>, hi: int)
    requires
        join_ok(g),
    ensures
        1 <= joined(g).len() <= g.len(),
        joined(g)[0].len() >= g[0].len(),
        bounded(g, hi) ==> bounded(joined(g), hi),
    decreases g.len(),
{
    if g.len() > 1 && link(g) >= 1 {
        lemma_join_step(g, hi);
        lemma_joined(join_step(g), hi);
    }
}

/// The joined groups with the last vertex of group 0 dropped: that vertex
/// repeats its first one and the loop is closed.
pub open spec fn closed(g: Seq<Seq<IVec2>>) -> Seq<Seq<IVec2>> {
    let j = joined(g);
    j.update(0, j[0].drop_last())
}

/// Extraction succeeds: the joining can be done, it closes a loop, and
/// exactly one group of more than two vertices is left.
pub open spec fn extract_pre(g: Seq<Seq<IVec2>>) -> bool {
    &&& join_ok(g)
    &&& joined(g)[0][0] == joined(g)[0].last()
    &&& exists|k: int| 0 <= k < closed(g).len() && (#[trigger] closed(g)[k]).len() > 2
    &&& forall|k1: int, k2: int|
        0 <= k1 < closed(g).len() && 0 <= k2 < closed(g).len() && (#[trigger] closed(g)[k1]).len() > 2
            && (#[trigger] closed(g)[k2]).len() > 2 ==> k1 == k2
}

/// The index of the one group of more than two vertices after closing.
pub open spec fn polygon_index(g: Seq<Seq<IVec2>>) -> int {
    choose|k: int| 0 <= k < closed(g).len() && (#[trigger] closed(g)[k]).len() > 2
}

/// The polygon that one extraction yields.
pub open spec fn extracted(g: Seq<Seq<IVec2>>) -> Seq<IVec2> {
    closed(g)[polygon_index(g)]
}

/// The groups that one extraction leaves.
pub open spec fn remaining(g: Seq<Seq<IVec2>>) -> Seq<Seq<IVec2>> {
    closed(g).remove(polygon_index(g))
}

proof fn lemma_extract(g: Seq<Seq<IVec2>>, hi: int)
    requires
        extract_pre(g),
    ensures
        remaining(g).len() < g.len(),
        extracted(g).len() > 2,
        bounded(g, hi) ==> bounded(remaining(g), hi),
        bounded(g, hi) ==> forall|b: int| 0 <= b < extracted(g).len() ==> 0 <= (#[trigger] extracted(g)[b]).x <= hi && 0 <= extracted(g)[b].y <= hi,
{
    lemma_joined(g, hi);
    let c = closed(g);
    let j = joined(g);
    let k = polygon_index(g);
    assert(0 <= k < c.len() && c[k].len() > 2);
    if bounded(g, hi) {
    assert(bounded(c, hi)) by {
        assert forall|a: int, b: int| 0 <= a < c.len() && 0 <= b < c[a].len() implies 0 <= (
        #[trigger] c[a][b]).x <= hi && 0 <= c[a][b].y <= hi by {
            if a == 0 {
                assert(c[a][b] == j[0][b]);
            } else {
                assert(c[a] == j[a]);
            }
        }
    }
    let r = remaining(g);
    assert forall|a: int, b: int| 0 <= a < r.len() && 0 <= b < r[a].len() implies 0 <= (
    #[trigger] r[a][b]).x <= hi && 0 <= r[a][b].y <= hi by {
        if a < k {
            assert(r[a] == c[a]);
        } else {
            assert(r[a] == c[a + 1]);
        }
    }
    assert forall|b: int| 0 <= b < extracted(g).len() implies 0 <= (#[trigger] extracted(g)[b]).x <= hi && 0 <= extracted(g)[b].y <= hi by {
        assert(extracted(g)[b] == c[k][b]);
    }
    }
}

/// The first group after group 0 that starts where group 0 ends, 0 if none.
fn find_link(vertices: &Vec<Vec<IVec2>>) -> (r: usize)
    requires
        join_ok(polys_view(vertices@)),
        vertices@.len() > 1,
    ensures
        r == (if link(polys_view(vertices@)) < 0 {
            0
        } else {
            link(polys_view(vertices@))
        }),
{
    let ghost g = polys_view(vertices@);
    proof {
        lemma_link_from(g, 1);
    }
    assert(g[0] == vertices@[0]@);
    let last = vertices[0][vertices[0].len() - 1];
    let mut i: usize = 1;
    while i < vertices.len()
        invariant
            1 <= i <= vertices@.len(),
            g == polys_view(vertices@),
            join_ok(g),
            last == g[0].last(),
            link(g) == -1 || i <= link(g),
            link(g) == -1 || (1 <= link(g) < g.len() && g[link(g)][0] == g[0].last()),
        decreases vertices.len() - i,
    {
        assert(g[i as int] == vertices@[i as int]@);
        assert(g[i as int].len() >= 1);
        if vertices[i][0] == last {
            assert(link(g) == i) by {
                lemma_link_from(g, 1);
            }
            return i;
        }
        assert(link(g) != i);
        i = i + 1;
    }
    0
}

/// Extract one polygon from the raw edge groups. Groups are joined onto group
/// 0 while one continues where it ends; the closed loop and every other group
/// are kept, and the one group of more than two vertices is removed and
/// returned.
fn extract_single_polygon(vertices: &mut Vec<Vec<IVec2>>) -> (poly: Vec<IVec2>)
    requires
        extract_pre(polys_view(old(vertices)@)),
    ensures
        poly@ == extracted(polys_view(old(vertices)@)),
        polys_view(final(vertices)@) == remaining(polys_view(old(vertices)@)),
{
    let ghost g0 = polys_view(vertices@);
    while vertices.len() > 1
        invariant_except_break
            join_ok(polys_view(vertices@)),
            joined(polys_view(vertices@)) == joined(g0),
        ensures
            polys_view(vertices@) == joined(g0),
        decreases vertices.len(),
    {
        let ghost g = polys_view(vertices@);
        let group_index = find_link(vertices);
        if group_index == 0 {
            break;
        }
        proof {
            lemma_link_from(g, 1);
        }
        assert(g[group_index as int] == vertices@[group_index as int]@);
        assert(g[0] == vertices@[0]@);
        let mut new_group = vertices.remove(group_index);
        new_group.remove(0);
        let mut first: Vec<IVec2> = Vec::new();
        std::mem::swap(&mut first, &mut vertices[0]);
        first.append(&mut new_group);
        vertices.set(0, first);
        assert(polys_view(vertices@) =~= join_step(g));
    }
    let ghost j = joined(g0);
    proof {
        lemma_joined(g0, 0);
    }
    assert(j[0] == vertices@[0]@);
    let mut first: Vec<IVec2> = Vec::new();
    std::mem::swap(&mut first, &mut vertices[0]);
    first.pop();
    vertices.set(0, first);
    let ghost c = polys_view(vertices@);
    assert(c =~= closed(g0));
    let ghost k = polygon_index(g0);
    let mut index: usize = 0;
    let mut i: usize = 0;
    while i < vertices.len()
        invariant
            i <= vertices@.len(),
            c == polys_view(vertices@),
            c == closed(g0),
            extract_pre(g0),
            0 <= k < c.len(),
            c[k].len() > 2,
            i > k ==> index == k,
        decreases vertices.len() - i,
    {
        assert(c[i as int] == vertices@[i as int]@);
        if vertices[i].len() > 2 {
            index = i;
        }
        i = i + 1;
    }
    let poly = vertices.remove(index);
    assert(polys_view(vertices@) =~= remaining(g0));
    poly
}

/// The polygons that repeated extraction yields, in order.
pub open spec fn extract_all(g: Seq<Seq<IVec2>>, fuel: nat) -> Seq<Seq<IVec2>>
    decreases fuel,
{
    if fuel == 0 || g.len() == 0 {
        seq![]
    } else {
        seq![extracted(g)] + extract_all(remaining(g), (fuel - 1) as nat)
    }
}

/// Every extraction of the repetition succeeds.
pub open spec fn extract_all_ok(g: Seq<Seq<IVec2>>, fuel: nat) -> bool
    decreases fuel,
{
    g.len() == 0 || (fuel > 0 && extract_pre(g) && extract_all_ok(remaining(g), (fuel - 1) as nat))
}

proof fn lemma_extract_all_fuel(g: Seq<Seq<IVec2>>, f1: nat, f2: nat)
    requires
        extract_all_ok(g, f1),
        f1 >= g.len(),
        f2 >= g.len(),
    ensures
        extract_all_ok(g, f2),
        extract_all(g, f1) == extract_all(g, f2),
    decreases f1,
{
    if g.len() > 0 {
        lemma_extract(g, 0);
        lemma_extract_all_fuel(remaining(g), (f1 - 1) as nat, (f2 - 1) as nat);
    }
}

proof fn lemma_extract_all_props(g: Seq<Seq<IVec2>>, fuel: nat, hi: int)
    requires
        extract_all_ok(g, fuel),
    ensures
        forall|k: int| 0 <= k < extract_all(g, fuel).len() ==> (#[trigger] extract_all(g, fuel)[k]).len() > 2,
        bounded(g, hi) ==> bounded(extract_all(g, fuel), hi),
    decreases fuel,
{
    if g.len() > 0 {
        lemma_extract(g, hi);
        lemma_extract_all_props(remaining(g), (fuel - 1) as nat, hi);
        let e = extract_all(g, fuel);
        let r = extract_all(remaining(g), (fuel - 1) as nat);
        assert forall|k: int| 0 <= k < e.len() implies (#[trigger] e[k]).len() > 2 by {
            if k > 0 {
                assert(e[k] == r[k - 1]);
            }
        }
        if bounded(g, hi) {
            assert forall|a: int, b: int| 0 <= a < e.len() && 0 <= b < e[a].len() implies 0 <= (
            #[trigger] e[a][b]).x <= hi && 0 <= e[a][b].y <= hi by {
                if a > 0 {
                    assert(e[a] == r[a - 1]);
                } else {
                    assert(e[a][b] == extracted(g)[b]);
                }
            }
        }
    }
}

/// The polygons of the contour of `grid`.
pub open spec fn contour_polygons(main_grid: Grid, grid: Grid) -> Seq<Seq<IVec2>> {
    let g = contour_edges(main_grid, grid, grid.width as int);
    extract_all(g, g.len())
}

/// Exactly one polygon is counter-clockwise: the outer border.
pub open spec fn one_outer(polys: Seq<Seq<IVec2>>) -> bool {
    &&& exists|k: int| 0 <= k < polys.len() && spec_is_ccw(#[trigger] polys[k])
    &&& forall|k1: int, k2: int|
        0 <= k1 < polys.len() && 0 <= k2 < polys.len() && spec_is_ccw(#[trigger] polys[k1])
            && spec_is_ccw(#[trigger] polys[k2]) ==> k1 == k2
}

/// The index of the counter-clockwise polygon.
pub open spec fn outer_index(polys: Seq<Seq<IVec2>>) -> int {
    choose|k: int| 0 <= k < polys.len() && spec_is_ccw(#[trigger] polys[k])
}

/// The grids whose contour splits into polygons with one outer border.
pub open spec fn outer_inner_ok(main_grid: Grid, grid: Grid) -> bool {
    let g = contour_edges(main_grid, grid, grid.width as int);
    &&& contour_ok(main_grid, grid)
    &&& extract_all_ok(g, g.len())
    &&& one_outer(contour_polygons(main_grid, grid))
}

/// The outer polygon (the counter-clockwise one) and the inner polygons (the
/// holes) of the walkable area of `grid`, in half-tile units.
fn outer_inner_ipolygons(main_grid: &Grid, grid: &Grid) -> (r: (Vec<IVec2>, Vec<Vec<IVec2>>))
    requires
        outer_inner_ok(*main_grid, *grid),
    ensures
        r.0@ == contour_polygons(*main_grid, *grid)[outer_index(contour_polygons(*main_grid, *grid))],
        polys_view(r.1@) == contour_polygons(*main_grid, *grid).remove(
            outer_index(contour_polygons(*main_grid, *grid)),
        ),
{
    let mut disjoint_vertices = disjoint_vertices(main_grid, grid);
    let ghost g0 = polys_view(disjoint_vertices@);
    let ghost all = extract_all(g0, g0.len());
    let mut disjoint_polygons: Vec<Vec<IVec2>> = Vec::new();
    while disjoint_vertices.len() != 0
        invariant
            extract_all_ok(polys_view(disjoint_vertices@), disjoint_vertices@.len() as nat),
            polys_view(disjoint_polygons@) + extract_all(
                polys_view(disjoint_vertices@),
                disjoint_vertices@.len() as nat,
            ) == all,
        decreases disjoint_vertices.len(),
    {
        let ghost g = polys_view(disjoint_vertices@);
        let ghost before = polys_view(disjoint_polygons@);
        proof {
            lemma_extract(g, 0);
            lemma_extract_all_fuel(remaining(g), (g.len() - 1) as nat, remaining(g).len());
        }
        let poly = extract_single_polygon(&mut disjoint_vertices);
        disjoint_polygons.push(poly);
        assert(polys_view(disjoint_polygons@) =~= before.push(extracted(g)));
        assert(before + extract_all(g, g.len()) =~= before.push(extracted(g)) + extract_all(
            remaining(g),
            (g.len() - 1) as nat,
        ));
    }
    assert(polys_view(disjoint_polygons@) =~= all);
    proof {
        lemma_extract_all_props(g0, g0.len(), 0);
    }
    let ghost k = outer_index(all);
    let mut outer: usize = 0;
    let mut i: usize = 0;
    while i < disjoint_polygons.len()
        invariant
            i <= disjoint_polygons@.len(),
            polys_view(disjoint_polygons@) == all,
            forall|t: int| 0 <= t < all.len() ==> (#[trigger] all[t]).len() > 2,
            one_outer(all),
            0 <= k < all.len(),
            spec_is_ccw(all[k]),
            i > k ==> outer == k,
        decreases disjoint_polygons.len() - i,
    {
        assert(all[i as int] == disjoint_polygons@[i as int]@);
        assert(all[i as int].len() > 2);
        if is_ccw_ivec(&disjoint_polygons[i]) {
            outer = i;
        }
        i = i + 1;
    }
    let outer_polygon = disjoint_polygons.remove(outer);
    assert(polys_view(disjoint_polygons@) =~= all.remove(k));
    (outer_polygon, disjoint_polygons)
}

fn grid_wf_exec(g: &Grid) -> (b: bool)
    ensures
        b == g.wf(),
{
    if g.grid.len() != g.width {
        return false;
    }
    let mut i: usize = 0;
    while i < g.width
        invariant
            g.grid@.len() == g.width,
            i <= g.width,
            forall|k: int| 0 <= k < i ==> #[trigger] g.grid@[k]@.len() == g.height,
        decreases g.width - i,
    {
        if g.grid[i].len() != g.height {
            return false;
        }
        i = i + 1;
    }
    true
}

/// Whether the contour of `grid` can be computed (`contour_ok`).
fn contour_ok_exec(main_grid: &Grid, grid: &Grid) -> (b: bool)
    ensures
        b == contour_ok(*main_grid, *grid),
{
    if !grid_wf_exec(main_grid) || !grid_wf_exec(grid) {
        return false;
    }
    if grid.width < 1 || (grid.width >= 2 && grid.height < 1) || grid.width > main_grid.width
        || grid.height > main_grid.height || grid.width > 0x3fff_ffff || grid.height > 0x3fff_ffff {
        return false;
    }
    let im = index_matrix(grid);
    let mut i: usize = 0;
    while i < grid.width
        invariant
            main_grid.wf(),
            grid.wf(),
            grid.width <= main_grid.width,
            grid.height <= main_grid.height,
            i <= grid.width,
            im@.len() == grid.width,
            forall|a: int|
                0 <= a < grid.width ==> (#[trigger] im@[a])@ == Seq::new(
                    grid.height as nat,
                    |j: int| index_value(*grid, a, j),
                ),
            forall|a: int, j: int|
                0 <= a < i && 0 <= j < grid.height && #[trigger] spec_is_square(*main_grid, a, j)
                    ==> index_value(*grid, a, j) != 5 && index_value(*grid, a, j) != 10,
        decreases grid.width - i,
    {
        let mut j: usize = 0;
        while j < grid.height
            invariant
                main_grid.wf(),
                grid.wf(),
                grid.width <= main_grid.width,
                grid.height <= main_grid.height,
                i < grid.width,
                j <= grid.height,
                im@.len() == grid.width,
                im@[i as int]@ == Seq::new(grid.height as nat, |b: int| index_value(*grid, i as int, b)),
                forall|a: int, b: int|
                    0 <= a < i && 0 <= b < grid.height && #[trigger] spec_is_square(*main_grid, a, b)
                        ==> index_value(*grid, a, b) != 5 && index_value(*grid, a, b) != 10,
                forall|b: int|
                    0 <= b < j && #[trigger] spec_is_square(*main_grid, i as int, b) ==> index_value(
                        *grid,
                        i as int,
                        b,
                    ) != 5 && index_value(*grid, i as int, b) != 10,
            decreases grid.height - j,
        {
            if is_square(main_grid, i, j) {
                let v = im[i][j];
                assert(v == index_value(*grid, i as int, j as int));
                if v == 5 || v == 10 {
                    return false;
                }
            }
            j = j + 1;
        }
        i = i + 1;
    }
    true
}

/// The link of the groups, found while checking that every group read on
/// the way is non-empty: `None` where one is empty.
fn checked_link(vertices: &Vec<Vec<IVec2>>) -> (r: Option<usize>)
    requires
        vertices@.len() >= 1,
        vertices@[0]@.len() >= 1,
    ensures
        ({
            let g = polys_view(vertices@);
            match r {
                Some(k) => k == (if link(g) < 0 {
                    0
                } else {
                    link(g)
                }) && forall|t: int|
                    1 <= t < g.len() && (link(g) < 0 || t <= link(g)) ==> (#[trigger] g[t]).len()
                        >= 1,
                None => exists|t: int|
                    1 <= t < g.len() && (link(g) < 0 || t <= link(g)) && (#[trigger] g[t]).len()
                        == 0,
            }
        }),
{
    let ghost g = polys_view(vertices@);
    proof {
        lemma_link_from(g, 1);
    }
    assert(g[0] == vertices@[0]@);
    let last = vertices[0][vertices[0].len() - 1];
    let mut i: usize = 1;
    while i < vertices.len()
        invariant
            1 <= i <= vertices@.len(),
            g == polys_view(vertices@),
            g[0].len() >= 1,
            last == g[0].last(),
            forall|t: int| 1 <= t < i ==> (#[trigger] g[t]).len() >= 1,
            link(g) == -1 || i <= link(g),
            link(g) == -1 || (1 <= link(g) < g.len() && g[link(g)][0] == g[0].last()),
            forall|t: int|
                1 <= t < g.len() && (link(g) == -1 || t < link(g)) ==> (#[trigger] g[t])[0]
                    != g[0].last(),
        decreases vertices.len() - i,
    {
        assert(g[i as int] == vertices@[i as int]@);
        if vertices[i].len() == 0 {
            assert(g[i as int].len() == 0);
            return None;
        }
        if vertices[i][0] == last {
            assert(g[i as int][0] == g[0].last());
            assert(link(g) == i);
            return Some(i);
        }
        i = i + 1;
    }
    assert(link(g) == -1);
    Some(0)
}

/// One extraction, carried out only where it can be (`extract_pre`).
fn try_extract_single_polygon(vertices: &mut Vec<Vec<IVec2>>) -> (r: Option<Vec<IVec2>>)
    requires
        old(vertices)@.len() >= 1,
    ensures
        match r {
            Some(poly) => extract_pre(polys_view(old(vertices)@)) && poly@ == extracted(
                polys_view(old(vertices)@),
            ) && polys_view(final(vertices)@) == remaining(polys_view(old(vertices)@)),
            None => !extract_pre(polys_view(old(vertices)@)),
        },
{
    let ghost g0 = polys_view(vertices@);
    loop
        invariant_except_break
            vertices@.len() >= 1,
            g0 == polys_view(old(vertices)@),
            join_ok(g0) == join_ok(polys_view(vertices@)),
            join_ok(polys_view(vertices@)) ==> joined(polys_view(vertices@)) == joined(g0),
        ensures
            g0 == polys_view(old(vertices)@),
            join_ok(g0),
            polys_view(vertices@) == joined(g0),
        decreases vertices.len(),
    {
        let ghost g = polys_view(vertices@);
        assert(g[0] == vertices@[0]@);
        if vertices[0].len() == 0 {
            return None;
        }
        match checked_link(vertices) {
            None => {
                return None;
            },
            Some(group_index) => {
                if group_index == 0 {
                    assert(join_ok(g));
                    assert(joined(g) == g);
                    break;
                }
                proof {
                    lemma_link_from(g, 1);
                }
                assert(g[group_index as int] == vertices@[group_index as int]@);
                let mut new_group = vertices.remove(group_index);
                new_group.remove(0);
                let mut first: Vec<IVec2> = Vec::new();
                std::mem::swap(&mut first, &mut vertices[0]);
                first.append(&mut new_group);
                vertices.set(0, first);
                assert(polys_view(vertices@) =~= join_step(g));
            },
        }
    }
    let ghost j = joined(g0);
    proof {
        lemma_joined(g0, 0);
    }
    assert(j[0] == vertices@[0]@);
    if vertices[0][0] != vertices[0][vertices[0].len() - 1] {
        return None;
    }
    let mut first: Vec<IVec2> = Vec::new();
    std::mem::swap(&mut first, &mut vertices[0]);
    first.pop();
    vertices.set(0, first);
    let ghost c = polys_view(vertices@);
    assert(c =~= closed(g0));
    let mut found: Option<usize> = None;
    let mut i: usize = 0;
    while i < vertices.len()
        invariant
            i <= vertices@.len(),
            c == polys_view(vertices@),
            c == closed(g0),
            g0 == polys_view(old(vertices)@),
            match found {
                Some(k) => k < i && c[k as int].len() > 2 && forall|t: int|
                    0 <= t < i && t != k ==> (#[trigger] c[t]).len() <= 2,
                None => forall|t: int| 0 <= t < i ==> (#[trigger] c[t]).len() <= 2,
            },
        decreases vertices.len() - i,
    {
        assert(c[i as int] == vertices@[i as int]@);
        if vertices[i].len() > 2 {
            if let Some(k) = found {
                assert(closed(g0)[k as int].len() > 2 && closed(g0)[i as int].len() > 2);
                assert(!extract_pre(g0));
                return None;
            }
            found = Some(i);
        }
        i = i + 1;
    }
    match found {
        None => {
            assert forall|k: int| 0 <= k < closed(g0).len() implies (#[trigger] closed(g0)[k]).len()
                <= 2 by {
                assert(c[k].len() <= 2);
            }
            assert(!extract_pre(g0));
            return None;
        },
        Some(index) => {
            assert(extract_pre(g0));
            assert(polygon_index(g0) == index);
            let poly = vertices.remove(index);
            assert(polys_view(vertices@) =~= remaining(g0));
            Some(poly)
        },
    }
}

/// The outer and inner polygons of the walkable area of `grid`, as
/// `outer_inner_polygons` gives them, or `None` where the grid does not
/// meet `outer_inner_polygons_ok`.
pub fn outer_inner_polygons_checked(main_grid: &Grid, grid: &Grid) -> (r: Option<
    (Vec<IVec2>, Vec<Vec<IVec2>>),
>)
    ensures
        r is None <==> !outer_inner_polygons_ok(*main_grid, *grid),
        r matches Some(p) ==> {
            &&& p.0@ == world_polygon(
                contour_polygons(*main_grid, *grid)[outer_index(contour_polygons(*main_grid, *grid))],
            )
            &&& spec_is_ccw(p.0@)
            &&& polys_view(p.1@) == contour_polygons(*main_grid, *grid).remove(
                outer_index(contour_polygons(*main_grid, *grid)),
            ).map_values(|q: Seq<IVec2>| world_polygon(q))
            &&& forall|k: int|
                0 <= k < p.1@.len() ==> (#[trigger] contour_polygons(*main_grid, *grid).remove(
                    outer_index(contour_polygons(*main_grid, *grid)),
                )[k]).len() > 2 && !spec_is_ccw(
                    contour_polygons(*main_grid, *grid).remove(
                        outer_index(contour_polygons(*main_grid, *grid)),
                    )[k],
                )
        },
{
    if grid.width > 0x0100_0000 || grid.height > 0x0100_0000 {
        return None;
    }
    if !contour_ok_exec(main_grid, grid) {
        return None;
    }
    let mut vs = disjoint_vertices(main_grid, grid);
    let ghost g0 = polys_view(vs@);
    let mut polys: Vec<Vec<IVec2>> = Vec::new();
    while vs.len() != 0
        invariant
            contour_ok(*main_grid, *grid),
            grid.width <= 0x0100_0000,
            grid.height <= 0x0100_0000,
            g0 == contour_edges(*main_grid, *grid, grid.width as int),
            extract_all_ok(g0, g0.len()) == extract_all_ok(polys_view(vs@), vs@.len() as nat),
            extract_all_ok(polys_view(vs@), vs@.len() as nat) ==> polys_view(polys@) + extract_all(
                polys_view(vs@),
                vs@.len() as nat,
            ) == extract_all(g0, g0.len()),
        decreases vs.len(),
    {
        let ghost g = polys_view(vs@);
        let ghost before = polys_view(polys@);
        assert(g.len() == vs@.len() && g.len() > 0);
        match try_extract_single_polygon(&mut vs) {
            None => {
                assert(!extract_pre(g));
                assert(!extract_all_ok(g, g.len()));
                assert(!outer_inner_ok(*main_grid, *grid));
                return None;
            },
            Some(p) => {
                proof {
                    lemma_extract(g, 0);
                    let rem = remaining(g);
                    assert(polys_view(vs@) == rem);
                    if extract_all_ok(rem, (g.len() - 1) as nat) {
                        lemma_extract_all_fuel(rem, (g.len() - 1) as nat, rem.len());
                    }
                    if extract_all_ok(rem, rem.len()) {
                        lemma_extract_all_fuel(rem, rem.len(), (g.len() - 1) as nat);
                    }
                }
                polys.push(p);
                proof {
                    if extract_all_ok(polys_view(vs@), vs@.len() as nat) {
                        assert(polys_view(polys@) =~= before.push(p@));
                        assert(before + extract_all(g, g.len()) =~= before.push(extracted(g))
                            + extract_all(remaining(g), (g.len() - 1) as nat));
                    }
                }
            },
        }
    }
    let ghost all = contour_polygons(*main_grid, *grid);
    assert(polys_view(vs@) =~= Seq::<Seq<IVec2>>::empty());
    assert(extract_all_ok(g0, g0.len()));
    assert(polys_view(polys@) =~= all);
    proof {
        lemma_extract_all_props(g0, g0.len(), 0);
    }
    let mut found: Option<usize> = None;
    let mut i: usize = 0;
    while i < polys.len()
        invariant
            i <= polys@.len(),
            polys_view(polys@) == all,
            all == contour_polygons(*main_grid, *grid),
            forall|t: int| 0 <= t < all.len() ==> (#[trigger] all[t]).len() > 2,
            match found {
                Some(k) => k < i && spec_is_ccw(all[k as int]) && forall|t: int|
                    0 <= t < i && t != k ==> !spec_is_ccw(#[trigger] all[t]),
                None => forall|t: int| 0 <= t < i ==> !spec_is_ccw(#[trigger] all[t]),
            },
        decreases polys.len() - i,
    {
        assert(all[i as int] == polys@[i as int]@);
        assert(all[i as int].len() > 2);
        if is_ccw_ivec(&polys[i]) {
            if let Some(k) = found {
                assert(!one_outer(all)) by {
                    assert(spec_is_ccw(all[k as int]) && spec_is_ccw(all[i as int]));
                }
                return None;
            }
            found = Some(i);
        }
        i = i + 1;
    }
    if found.is_none() {
        assert(!one_outer(all));
        return None;
    }
    assert(one_outer(all));
    Some(outer_inner_polygons(main_grid, grid))
}

/// Half a tile in world units; the contour lives on the half-tile lattice.
pub const HALF_TILE: i32 = 16;

/// A half-tile lattice point in world units.
pub open spec fn to_world(v: IVec2) -> IVec2 {
    IVec2 { x: (v.x * HALF_TILE) as i32, y: (v.y * HALF_TILE) as i32 }
}

/// A polygon without its redundant vertices, in world units.
pub open spec fn world_polygon(p: Seq<IVec2>) -> Seq<IVec2> {
    kept_vertices(p, p.len() as int).map_values(|v: IVec2| to_world(v))
}

proof fn lemma_kept_subset(v: Seq<IVec2>, k: int)
    requires
        0 <= k <= v.len(),
    ensures
        forall|t: int| 0 <= t < kept_vertices(v, k).len() ==> exists|s: int| 0 <= s < k && v[s] == #[trigger] kept_vertices(v, k)[t],
    decreases k,
{
    if k > 0 {
        lemma_kept_subset(v, k - 1);
        let r = kept_vertices(v, k - 1);
        let m = kept_vertices(v, k);
        assert forall|t: int| 0 <= t < m.len() implies exists|s: int| 0 <= s < k && v[s] == #[trigger] m[t] by {
            if t < r.len() {
                assert(m[t] == r[t]);
                let s = choose|s: int| 0 <= s < k - 1 && v[s] == r[t];
                assert(v[s] == m[t]);
            } else {
                assert(v[k - 1] == m[t]);
            }
        }
    }
}

/// The walkable grids whose contour splits into one outer polygon and any
/// number of holes, on a grid small enough for world coordinates.
pub open spec fn outer_inner_polygons_ok(main_grid: Grid, grid: Grid) -> bool {
    &&& outer_inner_ok(main_grid, grid)
    &&& grid.width <= 0x0100_0000
    &&& grid.height <= 0x0100_0000
}

/// A contour polygon without its redundant vertices, scaled to world units;
/// a counter-clockwise polygon stays counter-clockwise.
fn world_outline(p: &Vec<IVec2>) -> (w: Vec<IVec2>)
    requires
        forall|b: int|
            0 <= b < p@.len() ==> 0 <= (#[trigger] p@[b]).x <= 0x0500_0000 && 0 <= p@[b].y
                <= 0x0500_0000,
    ensures
        w@ == world_polygon(p@),
        spec_is_ccw(p@) ==> spec_is_ccw(w@),
{
    let ghost hi: int = 0x0500_0000;
    let kept = minimal_vertices(p);
    proof {
        lemma_kept_subset(p@, p@.len() as int);
    }
    let mut world: Vec<IVec2> = Vec::new();
    let mut i: usize = 0;
    while i < kept.len()
        invariant
            i <= kept@.len(),
            kept@ == kept_vertices(p@, p@.len() as int),
            forall|t: int| 0 <= t < kept@.len() ==> exists|s: int| 0 <= s < p@.len() && p@[s] == #[trigger] kept@[t],
            forall|b: int| 0 <= b < p@.len() ==> 0 <= (#[trigger] p@[b]).x <= hi && 0 <= p@[b].y <= hi,
            hi == 0x0500_0000,
            world@ == kept@.take(i as int).map_values(|v: IVec2| to_world(v)),
        decreases kept.len() - i,
    {
        let v = kept[i];
        let ghost s = choose|s: int| 0 <= s < p@.len() && p@[s] == kept@[i as int];
        assert(0 <= p@[s].x <= hi && 0 <= p@[s].y <= hi);
        world.push(IVec2::new(v.x * HALF_TILE, v.y * HALF_TILE));
        assert(world@ =~= kept@.take(i + 1).map_values(|v: IVec2| to_world(v)));
        i = i + 1;
    }
    assert(kept@.take(kept@.len() as int) =~= kept@);
    proof {
        if spec_is_ccw(p@) {
            if p@.len() == 0 {
                assert(kept@ =~= p@);
                assert(world@ =~= p@);
            } else {
                lemma_kept_ccw(p@);
                assert forall|t: int| 0 <= t < kept@.len() implies -0x0700_0000 <= (#[trigger] kept@[t]).x
                    <= 0x0700_0000 && -0x0700_0000 <= kept@[t].y <= 0x0700_0000 by {
                    let s = choose|s: int| 0 <= s < p@.len() && p@[s] == kept@[t];
                    assert(0 <= p@[s].x <= hi && 0 <= p@[s].y <= hi);
                }
                assert(world_sized(kept@));
                if kept@.len() == 0 {
                    assert(world@ =~= kept@);
                } else {
                    lemma_world_ccw(kept@);
                }
            }
        }
    }
    world
}

/// The outer polygon and the inner polygons of the walkable area of `grid`
/// in world units, without redundant vertices: the outer polygon is the one
/// counter-clockwise contour loop, the inner polygons (the outlines of the
/// holes) are all other contour loops, each of more than two vertices and
/// none of them counter-clockwise.
pub fn outer_inner_polygons(main_grid: &Grid, grid: &Grid) -> (r: (Vec<IVec2>, Vec<Vec<IVec2>>))
    requires
        outer_inner_polygons_ok(*main_grid, *grid),
    ensures
        r.0@ == world_polygon(contour_polygons(*main_grid, *grid)[outer_index(contour_polygons(*main_grid, *grid))]),
        spec_is_ccw(r.0@),
        polys_view(r.1@) == contour_polygons(*main_grid, *grid).remove(
            outer_index(contour_polygons(*main_grid, *grid)),
        ).map_values(|p: Seq<IVec2>| world_polygon(p)),
        forall|k: int|
            0 <= k < r.1@.len() ==> (#[trigger] contour_polygons(*main_grid, *grid).remove(
                outer_index(contour_polygons(*main_grid, *grid)),
            )[k]).len() > 2 && !spec_is_ccw(
                contour_polygons(*main_grid, *grid).remove(
                    outer_index(contour_polygons(*main_grid, *grid)),
                )[k],
            ),
{
    let ghost all = contour_polygons(*main_grid, *grid);
    let ghost g0 = contour_edges(*main_grid, *grid, grid.width as int);
    let ghost hi = 2 * grid.width + 2 * grid.height + 2;
    proof {
        lemma_contour_bounded(*main_grid, *grid, grid.width as int);
        lemma_extract_all_props(g0, g0.len(), hi);
    }
    let ghost k = outer_index(all);
    let (outer_polygon, inner_polygons) = outer_inner_ipolygons(main_grid, grid);
    assert(outer_polygon@ == all[k]);
    assert forall|b: int| 0 <= b < outer_polygon@.len() implies 0 <= (#[trigger] outer_polygon@[b]).x
        <= 0x0500_0000 && 0 <= outer_polygon@[b].y <= 0x0500_0000 by {
        assert(0 <= all[k][b].x <= hi && 0 <= all[k][b].y <= hi);
    }
    let world = world_outline(&outer_polygon);
    let ghost inner_all = all.remove(k);
    let ghost target = inner_all.map_values(|p: Seq<IVec2>| world_polygon(p));
    let mut inner: Vec<Vec<IVec2>> = Vec::new();
    let mut i: usize = 0;
    while i < inner_polygons.len()
        invariant
            i <= inner_polygons@.len(),
            polys_view(inner_polygons@) == inner_all,
            inner_all == all.remove(k),
            0 <= k < all.len(),
            bounded(all, hi),
            hi <= 0x0500_0000,
            target == inner_all.map_values(|p: Seq<IVec2>| world_polygon(p)),
            polys_view(inner@) == target.take(i as int),
        decreases inner_polygons.len() - i,
    {
        assert(inner_polygons@[i as int]@ == inner_all[i as int]);
        assert forall|b: int| 0 <= b < inner_polygons@[i as int]@.len() implies 0 <= (
        #[trigger] inner_polygons@[i as int]@[b]).x <= 0x0500_0000 && 0 <= inner_polygons@[i as int]@[b].y
            <= 0x0500_0000 by {
            let a = if i < k { i as int } else { i + 1 };
            assert(inner_all[i as int] == all[a]);
            assert(0 <= all[a][b].x <= hi && 0 <= all[a][b].y <= hi);
        }
        let w = world_outline(&inner_polygons[i]);
        assert(inner_all.len() == inner_polygons@.len());
        assert(target[i as int] == world_polygon(inner_all[i as int]));
        let ghost before = inner@;
        inner.push(w);
        assert(polys_view(inner@) =~= polys_view(before).push(w@));
        assert(polys_view(inner@) =~= target.take(i + 1));
        i = i + 1;
    }
    assert(target.take(i as int) =~= target);
    proof {
        if !spec_is_ccw(outer_polygon@) {
            assert(one_outer(all));
            assert(spec_is_ccw(all[k]));
        }
        assert forall|t: int| 0 <= t < inner@.len() implies (#[trigger] inner_all[t]).len() > 2
            && !spec_is_ccw(inner_all[t]) by {
            let a = if t < k { t } else { t + 1 };
            assert(inner_all[t] == all[a]);
            assert(all[a].len() > 2);
            if spec_is_ccw(all[a]) {
                assert(spec_is_ccw(all[k]));
                assert(a != k);
            }
        }
    }
    (world, inner)
}

/// Cell (`x`, `y`) is an open cell of the region grid: it lies before the last
/// column and the last row and holds zero.
pub open spec fn free_cell(grid: Grid, x: int, y: int) -> bool {
    0 <= x && x + 1 < grid.width && 0 <= y && y + 1 < grid.height && grid.cell(x, y) == 0
}

/// The cells (`ax`, `ay`) and (`bx`, `by`) share a side.
pub open spec fn neighbours(ax: int, ay: int, bx: int, by: int) -> bool {
    (ax == bx && (ay == by + 1 || by == ay + 1)) || (ay == by && (ax == bx + 1 || bx == ax + 1))
}

/// The group lists cell (`x`, `y`).
pub open spec fn group_holds(group: Seq<UVec2>, x: int, y: int) -> bool {
    exists|s: int| 0 <= s < group.len() && (#[trigger] group[s]).x == x && group[s].y == y
}

/// `path` is a walk through cells of `group`, each step to a side neighbour.
pub open spec fn is_walk(group: Seq<UVec2>, path: Seq<UVec2>) -> bool {
    &&& path.len() >= 1
    &&& forall|k: int| 0 <= k < path.len() ==> group.contains(#[trigger] path[k])
    &&& forall|k: int|
        0 <= k < path.len() - 1 ==> neighbours(
            (#[trigger] path[k]).x as int,
            path[k].y as int,
            path[k + 1].x as int,
            path[k + 1].y as int,
        )
}

/// Cell `b` can be reached from cell `a` without leaving the group.
pub open spec fn connected_in(group: Seq<UVec2>, a: UVec2, b: UVec2) -> bool {
    exists|path: Seq<UVec2>| #[trigger] is_walk(group, path) && path[0] == a && path.last() == b
}

/// No cell is listed twice, within a group or across groups.
pub open spec fn all_distinct(groups: Seq<Seq<UVec2>>) -> bool {
    forall|a1: int, s1: int, a2: int, s2: int|
        0 <= a1 < groups.len() && 0 <= s1 < groups[a1].len() && 0 <= a2 < groups.len() && 0 <= s2
            < groups[a2].len() && (a1 != a2 || s1 != s2) ==> #[trigger] groups[a1][s1]
            != #[trigger] groups[a2][s2]
}

/// Every listed cell is open.
pub open spec fn all_free(grid: Grid, groups: Seq<Seq<UVec2>>) -> bool {
    forall|a: int, s: int|
        0 <= a < groups.len() && 0 <= s < groups[a].len() ==> free_cell(
            grid,
            (#[trigger] groups[a][s]).x as int,
            groups[a][s].y as int,
        )
}

/// Every open side neighbour of cell `c` is listed in `group`.
pub open spec fn closed_at(grid: Grid, group: Seq<UVec2>, c: UVec2) -> bool {
    let x = c.x as int;
    let y = c.y as int;
    &&& free_cell(grid, x + 1, y) ==> group_holds(group, x + 1, y)
    &&& free_cell(grid, x - 1, y) ==> group_holds(group, x - 1, y)
    &&& free_cell(grid, x, y + 1) ==> group_holds(group, x, y + 1)
    &&& free_cell(grid, x, y - 1) ==> group_holds(group, x, y - 1)
}

/// Every group is closed: an open side neighbour of a member is a member.
pub open spec fn all_closed(grid: Grid, groups: Seq<Seq<UVec2>>) -> bool {
    forall|a: int, s: int|
        0 <= a < groups.len() && 0 <= s < groups[a].len() ==> closed_at(grid, groups[a], #[trigger] groups[a][s])
}

/// Every group is non-empty and connected.
pub open spec fn all_connected(groups: Seq<Seq<UVec2>>) -> bool {
    forall|a: int|
        0 <= a < groups.len() ==> (#[trigger] groups[a]).len() >= 1 && forall|s: int|
            0 <= s < groups[a].len() ==> connected_in(groups[a], groups[a][0], #[trigger] groups[a][s])
}

/// The groups are the connected open regions of the grid: every open cell is
/// listed exactly once, and each group is closed and connected.
pub open spec fn regions_of(grid: Grid, groups: Seq<Seq<UVec2>>) -> bool {
    &&& all_free(grid, groups)
    &&& all_distinct(groups)
    &&& all_closed(grid, groups)
    &&& all_connected(groups)
    &&& forall|x: int, y: int|
        free_cell(grid, x, y) ==> exists|a: int| 0 <= a < groups.len() && #[trigger] group_holds(groups[a], x, y)
}

/// The work list of unvisited open cells and the marks of the flood fill
/// agree: marked cells are open and listed, listed cells are distinct, open
/// and marked.
pub open spec fn positions_ok(grid: Grid, graph: Grid, positions: Seq<IVec2>) -> bool {
    &&& graph.wf()
    &&& graph.width == grid.width
    &&& graph.height == grid.height
    &&& forall|x: int, y: int|
        0 <= x < graph.width && 0 <= y < graph.height ==> #[trigger] graph.cell(x, y) <= 1
    &&& forall|x: int, y: int|
        0 <= x < graph.width && 0 <= y < graph.height && #[trigger] graph.cell(x, y) == 1
            ==> free_cell(grid, x, y) && exists|k: int|
            0 <= k < positions.len() && (#[trigger] positions[k]).x == x && positions[k].y == y
    &&& forall|k: int|
        0 <= k < positions.len() ==> free_cell(grid, (#[trigger] positions[k]).x as int, positions[k].y as int)
            && graph.cell(positions[k].x as int, positions[k].y as int) == 1
    &&& forall|k1: int, k2: int|
        0 <= k1 < positions.len() && 0 <= k2 < positions.len() && k1 != k2 ==> #[trigger] positions[k1]
            != #[trigger] positions[k2]
}

/// Listed cells are open and unmarked, and every open unmarked cell is listed.
pub open spec fn listed_ok(grid: Grid, graph: Grid, groups: Seq<Seq<UVec2>>) -> bool {
    &&& all_free(grid, groups)
    &&& all_distinct(groups)
    &&& forall|a: int, s: int|
        0 <= a < groups.len() && 0 <= s < groups[a].len() ==> graph.cell(
            (#[trigger] groups[a][s]).x as int,
            groups[a][s].y as int,
        ) == 0
    &&& forall|x: int, y: int|
        free_cell(grid, x, y) && #[trigger] graph.cell(x, y) == 0 ==> exists|a: int|
            0 <= a < groups.len() && #[trigger] group_holds(groups[a], x, y)
}

/// The grids that the flood fill accepts.
pub open spec fn flood_ok(grid: Grid) -> bool {
    &&& grid.wf()
    &&& 1 <= grid.width <= 0x7fff_fffe
    &&& 1 <= grid.height <= 0x7fff_fffe
}

/// The open cells of the grid, column by column, and the marks of all of them.
fn free_positions(grid: &Grid) -> (r: (Vec<IVec2>, Grid))
    requires
        flood_ok(*grid),
    ensures
        positions_ok(*grid, r.1, r.0@),
        forall|x: int, y: int|
            0 <= x < grid.width && 0 <= y < grid.height ==> (#[trigger] r.1.cell(x, y) == 1
                <==> free_cell(*grid, x, y)),
{
    let mut graph = Grid::new(grid.width, grid.height);
    let mut positions: Vec<IVec2> = Vec::new();
    let mut i: usize = 0;
    while i + 1 < grid.width
        invariant
            flood_ok(*grid),
            i + 1 <= grid.width,
            positions_ok(*grid, graph, positions@),
            forall|k: int| 0 <= k < positions@.len() ==> (#[trigger] positions@[k]).x < i,
            forall|x: int, y: int|
                0 <= x < grid.width && 0 <= y < grid.height ==> (#[trigger] graph.cell(x, y) == 1
                    <==> (free_cell(*grid, x, y) && x < i)),
        decreases grid.width - i,
    {
        let mut j: usize = 0;
        while j + 1 < grid.height
            invariant
                flood_ok(*grid),
                i + 1 < grid.width,
                j + 1 <= grid.height,
                positions_ok(*grid, graph, positions@),
                forall|k: int|
                    0 <= k < positions@.len() ==> (#[trigger] positions@[k]).x < i || (positions@[k].x
                        == i && positions@[k].y < j),
                forall|x: int, y: int|
                    0 <= x < grid.width && 0 <= y < grid.height ==> (#[trigger] graph.cell(x, y) == 1
                        <==> (free_cell(*grid, x, y) && (x < i || (x == i && y < j)))),
            decreases grid.height - j,
        {
            if grid.grid[i][j] == 0 {
                let ghost old_graph = graph;
                let ghost old_pos = positions@;
                graph.put(i, j, 1);
                positions.push(IVec2::new(i as i32, j as i32));
                let ghost np = positions@;
                assert forall|x: int, y: int|
                    0 <= x < graph.width && 0 <= y < graph.height && #[trigger] graph.cell(x, y) == 1
                        implies free_cell(*grid, x, y) && exists|k: int|
                        0 <= k < np.len() && (#[trigger] np[k]).x == x && np[k].y == y by {
                    if x == i && y == j {
                        assert(np[np.len() - 1].x == x && np[np.len() - 1].y == y);
                    } else {
                        assert(old_graph.cell(x, y) == 1);
                        let k = choose|k: int|
                            0 <= k < old_pos.len() && (#[trigger] old_pos[k]).x == x && old_pos[k].y == y;
                        assert(np[k] == old_pos[k]);
                    }
                }
                assert forall|k: int| 0 <= k < np.len() implies free_cell(*grid, (#[trigger] np[k]).x as int, np[k].y as int)
                    && graph.cell(np[k].x as int, np[k].y as int) == 1 by {
                    if k < old_pos.len() {
                        assert(np[k] == old_pos[k]);
                    }
                }
                assert forall|k1: int, k2: int|
                    0 <= k1 < np.len() && 0 <= k2 < np.len() && k1 != k2 implies #[trigger] np[k1]
                        != #[trigger] np[k2] by {
                    if k1 < old_pos.len() && k2 < old_pos.len() {
                        assert(np[k1] == old_pos[k1] && np[k2] == old_pos[k2]);
                    } else if k1 < old_pos.len() {
                        assert(np[k1] == old_pos[k1]);
                    } else if k2 < old_pos.len() {
                        assert(np[k2] == old_pos[k2]);
                    }
                }
            }
            j = j + 1;
        }
        i = i + 1;
    }
    (positions, graph)
}

/// The stack holds cell (`x`, `y`).
pub open spec fn stack_holds(stack: Seq<IVec2>, x: int, y: int) -> bool {
    exists|t: int| 0 <= t < stack.len() && (#[trigger] stack[t]).x == x && stack[t].y == y
}

/// Every open side neighbour of `c` is in the region or still on the stack.
pub open spec fn pending_at(grid: Grid, current: Seq<UVec2>, stack: Seq<IVec2>, c: UVec2) -> bool {
    let x = c.x as int;
    let y = c.y as int;
    &&& free_cell(grid, x + 1, y) ==> group_holds(current, x + 1, y) || stack_holds(stack, x + 1, y)
    &&& free_cell(grid, x - 1, y) ==> group_holds(current, x - 1, y) || stack_holds(stack, x - 1, y)
    &&& free_cell(grid, x, y + 1) ==> group_holds(current, x, y + 1) || stack_holds(stack, x, y + 1)
    &&& free_cell(grid, x, y - 1) ==> group_holds(current, x, y - 1) || stack_holds(stack, x, y - 1)
}

/// Stack entry `p` is a side neighbour of a cell of the region.
pub open spec fn near(current: Seq<UVec2>, p: IVec2) -> bool {
    exists|s: int|
        0 <= s < current.len() && neighbours(
            (#[trigger] current[s]).x as int,
            current[s].y as int,
            p.x as int,
            p.y as int,
        )
}

proof fn lemma_walk_grow(g: Seq<UVec2>, c: UVec2, path: Seq<UVec2>)
    requires
        is_walk(g, path),
    ensures
        is_walk(g.push(c), path),
{
    assert forall|k: int| 0 <= k < path.len() implies g.push(c).contains(#[trigger] path[k]) by {
        assert(g.contains(path[k]));
        let i = choose|i: int| 0 <= i < g.len() && g[i] == path[k];
        assert(g.push(c)[i] == path[k]);
    }
}

proof fn lemma_connected_grow(g: Seq<UVec2>, c: UVec2, a: UVec2, b: UVec2)
    requires
        connected_in(g, a, b),
    ensures
        connected_in(g.push(c), a, b),
{
    let path = choose|path: Seq<UVec2>| #[trigger] is_walk(g, path) && path[0] == a && path.last() == b;
    lemma_walk_grow(g, c, path);
}

proof fn lemma_connected_step(g: Seq<UVec2>, a: UVec2, b: UVec2, c: UVec2)
    requires
        connected_in(g, a, b),
        neighbours(b.x as int, b.y as int, c.x as int, c.y as int),
    ensures
        connected_in(g.push(c), a, c),
{
    let path = choose|path: Seq<UVec2>| #[trigger] is_walk(g, path) && path[0] == a && path.last() == b;
    lemma_walk_grow(g, c, path);
    let p2 = path.push(c);
    let g2 = g.push(c);
    assert(g2[g.len() as int] == c);
    assert forall|k: int| 0 <= k < p2.len() implies g2.contains(#[trigger] p2[k]) by {
        if k < path.len() {
            assert(p2[k] == path[k]);
        }
    }
    assert forall|k: int| 0 <= k < p2.len() - 1 implies neighbours(
        (#[trigger] p2[k]).x as int,
        p2[k].y as int,
        p2[k + 1].x as int,
        p2[k + 1].y as int,
    ) by {
        if k < path.len() - 1 {
            assert(p2[k] == path[k] && p2[k + 1] == path[k + 1]);
        } else {
            assert(p2[k] == b);
        }
    }
    assert(is_walk(g2, p2));
}

/// The state of the flood of one region: the marks and the work list agree,
/// the cells listed so far (earlier regions and the current one) are open,
/// distinct and unmarked, every open unmarked cell is listed, earlier regions
/// are closed and connected, the current region is connected and every open
/// neighbour of one of its cells is in it or on the stack, and every stack
/// entry neighbours the current region (or is the seed, before the first step).
#[verifier::opaque]
pub open spec fn flood_inv(
    grid: Grid,
    graph: Grid,
    positions: Seq<IVec2>,
    groups: Seq<Seq<UVec2>>,
    cur: Seq<UVec2>,
    st: Seq<IVec2>,
    seed: IVec2,
    old_len: int,
) -> bool {
    &&& positions_ok(grid, graph, positions)
    &&& listed_ok(grid, graph, groups.push(cur))
    &&& all_closed(grid, groups)
    &&& all_connected(groups)
    &&& positions.len() + cur.len() == old_len
    &&& cur.len() == 0 ==> st == seq![seed]
    &&& cur.len() == 0 ==> graph.cell(seed.x as int, seed.y as int) == 1
    &&& free_cell(grid, seed.x as int, seed.y as int)
    &&& cur.len() >= 1 ==> cur[0].x == seed.x && cur[0].y == seed.y
    &&& forall|t: int|
        0 <= t < st.len() ==> -1 <= (#[trigger] st[t]).x <= grid.width && -1 <= st[t].y <= grid.height
    &&& cur.len() >= 1 ==> forall|t: int| 0 <= t < st.len() ==> near(cur, #[trigger] st[t])
    &&& forall|s: int| 0 <= s < cur.len() ==> pending_at(grid, cur, st, #[trigger] cur[s])
    &&& forall|s: int| 0 <= s < cur.len() ==> connected_in(cur, cur[0], #[trigger] cur[s])
}

proof fn lemma_flood_start(
    grid: Grid,
    graph: Grid,
    positions: Seq<IVec2>,
    groups: Seq<Seq<UVec2>>,
)
    requires
        flood_ok(grid),
        positions_ok(grid, graph, positions),
        positions.len() > 0,
        listed_ok(grid, graph, groups),
        all_closed(grid, groups),
        all_connected(groups),
    ensures
        flood_inv(grid, graph, positions, groups, seq![], seq![positions[0]], positions[0], positions.len() as int),
{
    reveal(flood_inv);
    let all = groups.push(seq![]);
    assert forall|x: int, y: int|
        free_cell(grid, x, y) && #[trigger] graph.cell(x, y) == 0 implies exists|a: int|
        0 <= a < all.len() && #[trigger] group_holds(all[a], x, y) by {
        let a = choose|a: int| 0 <= a < groups.len() && #[trigger] group_holds(groups[a], x, y);
        assert(all[a] == groups[a]);
    }
    assert forall|a: int, s: int| 0 <= a < all.len() && 0 <= s < all[a].len() implies #[trigger] all[a][s]
        == groups[a][s] by {
        assert(all[a] == groups[a]);
    }
    let p0 = positions[0];
    assert(free_cell(grid, p0.x as int, p0.y as int));
}

proof fn lemma_stack_drop(st: Seq<IVec2>, x: int, y: int)
    requires
        st.len() > 0,
        stack_holds(st, x, y),
        x != st.last().x || y != st.last().y,
    ensures
        stack_holds(st.drop_last(), x, y),
{
    let t = choose|t: int| 0 <= t < st.len() && (#[trigger] st[t]).x == x && st[t].y == y;
    assert(t < st.len() - 1);
    assert(st.drop_last()[t] == st[t]);
}

/// Popping an entry that is outside the grid or already marked keeps the state.
proof fn lemma_flood_skip(
    grid: Grid,
    graph: Grid,
    positions: Seq<IVec2>,
    groups: Seq<Seq<UVec2>>,
    cur: Seq<UVec2>,
    st: Seq<IVec2>,
    seed: IVec2,
    old_len: int,
)
    requires
        flood_ok(grid),
        flood_inv(grid, graph, positions, groups, cur, st, seed, old_len),
        st.len() > 0,
        !(0 <= st.last().x < grid.width && 0 <= st.last().y < grid.height) || graph.cell(
            st.last().x as int,
            st.last().y as int,
        ) == 0,
    ensures
        cur.len() >= 1,
        flood_inv(grid, graph, positions, groups, cur, st.drop_last(), seed, old_len),
{
    reveal(flood_inv);
    let n = st.last();
    let st2 = st.drop_last();
    if cur.len() == 0 {
        assert(n == seed);
        assert(false);
    }
    assert forall|t: int| 0 <= t < st2.len() implies near(cur, #[trigger] st2[t]) by {
        assert(st2[t] == st[t]);
    }
    assert forall|t: int| 0 <= t < st2.len() implies -1 <= (#[trigger] st2[t]).x <= grid.width && -1
        <= st2[t].y <= grid.height by {
        assert(st2[t] == st[t]);
    }
    assert forall|s: int| 0 <= s < cur.len() implies pending_at(grid, cur, st2, #[trigger] cur[s]) by {
        assert(pending_at(grid, cur, st, cur[s]));
        let c = cur[s];
        let all = groups.push(cur);
        assert(all[groups.len() as int] == cur);
        if free_cell(grid, n.x as int, n.y as int) && neighbours(
            c.x as int,
            c.y as int,
            n.x as int,
            n.y as int,
        ) && !group_holds(cur, n.x as int, n.y as int) {
            assert(graph.cell(n.x as int, n.y as int) == 0);
            let a = choose|a: int| 0 <= a < all.len() && #[trigger] group_holds(all[a], n.x as int, n.y as int);
            assert(a < groups.len());
            assert(all[a] == groups[a]);
            let sa = choose|sa: int|
                0 <= sa < groups[a].len() && (#[trigger] groups[a][sa]).x == n.x && groups[a][sa].y == n.y;
            assert(closed_at(grid, groups[a], groups[a][sa]));
            assert(free_cell(grid, all[groups.len() as int][s].x as int, all[groups.len() as int][s].y as int));
            assert(group_holds(groups[a], c.x as int, c.y as int));
            let sc = choose|sc: int|
                0 <= sc < groups[a].len() && (#[trigger] groups[a][sc]).x == c.x && groups[a][sc].y == c.y;
            assert(all[a][sc] == all[groups.len() as int][s]);
            assert(false);
        }
        let x = c.x as int;
        let y = c.y as int;
        if free_cell(grid, x + 1, y) && !group_holds(cur, x + 1, y) {
            lemma_stack_drop(st, x + 1, y);
        }
        if free_cell(grid, x - 1, y) && !group_holds(cur, x - 1, y) {
            lemma_stack_drop(st, x - 1, y);
        }
        if free_cell(grid, x, y + 1) && !group_holds(cur, x, y + 1) {
            lemma_stack_drop(st, x, y + 1);
        }
        if free_cell(grid, x, y - 1) && !group_holds(cur, x, y - 1) {
            lemma_stack_drop(st, x, y - 1);
        }
    }
}

/// When the stack is empty the current region is closed and connected.
proof fn lemma_flood_done(
    grid: Grid,
    graph: Grid,
    positions: Seq<IVec2>,
    groups: Seq<Seq<UVec2>>,
    cur: Seq<UVec2>,
    seed: IVec2,
    old_len: int,
)
    requires
        flood_inv(grid, graph, positions, groups, cur, seq![], seed, old_len),
    ensures
        positions_ok(grid, graph, positions),
        positions.len() < old_len,
        listed_ok(grid, graph, groups.push(cur)),
        all_closed(grid, groups.push(cur)),
        all_connected(groups.push(cur)),
{
    reveal(flood_inv);
    let all = groups.push(cur);
    if cur.len() == 0 {
        assert(seq![seed].len() == 1);
        assert(Seq::<IVec2>::empty().len() == 0);
    }
    assert(cur.len() >= 1);
    assert forall|a: int, s: int| 0 <= a < all.len() && 0 <= s < all[a].len() implies closed_at(
        grid,
        all[a],
        #[trigger] all[a][s],
    ) by {
        if a < groups.len() {
            assert(all[a] == groups[a]);
        } else {
            assert(all[a] == cur);
            assert(pending_at(grid, cur, seq![], cur[s]));
        }
    }
    assert forall|a: int| 0 <= a < all.len() implies (#[trigger] all[a]).len() >= 1 && forall|s: int|
        0 <= s < all[a].len() ==> connected_in(all[a], all[a][0], #[trigger] all[a][s]) by {
        if a < groups.len() {
            assert(all[a] == groups[a]);
        } else {
            assert(all[a] == cur);
        }
    }
}


/// The marks after clearing cell `n` (all others unchanged).
pub open spec fn cleared(graph: Grid, g2: Grid, n: IVec2) -> bool {
    &&& g2.wf()
    &&& g2.width == graph.width
    &&& g2.height == graph.height
    &&& g2.cell(n.x as int, n.y as int) == 0
    &&& forall|x: int, y: int|
        0 <= x < graph.width && 0 <= y < graph.height && (x != n.x || y != n.y) ==> #[trigger] g2.cell(x, y)
            == graph.cell(x, y)
}

proof fn lemma_mark_positions(grid: Grid, graph: Grid, g2: Grid, pos: Seq<IVec2>, k: int, n: IVec2)
    requires
        positions_ok(grid, graph, pos),
        0 <= k < pos.len(),
        pos[k] == n,
        cleared(graph, g2, n),
    ensures
        positions_ok(grid, g2, pos.update(k, pos.last()).drop_last()),
{
    let p2 = pos.update(k, pos.last()).drop_last();
    let last = pos.len() - 1;
    assert forall|x: int, y: int| 0 <= x < g2.width && 0 <= y < g2.height implies #[trigger] g2.cell(x, y) <= 1 by {
        if x != n.x || y != n.y {
            assert(g2.cell(x, y) == graph.cell(x, y));
        }
    }
    assert forall|x: int, y: int|
        0 <= x < g2.width && 0 <= y < g2.height && #[trigger] g2.cell(x, y) == 1 implies free_cell(grid, x, y)
            && exists|k2: int| 0 <= k2 < p2.len() && (#[trigger] p2[k2]).x == x && p2[k2].y == y by {
        assert(x != n.x || y != n.y);
        assert(graph.cell(x, y) == 1);
        let k1 = choose|k1: int| 0 <= k1 < pos.len() && (#[trigger] pos[k1]).x == x && pos[k1].y == y;
        assert(k1 != k);
        if k1 == last {
            assert(p2[k] == pos[last]);
        } else {
            assert(p2[k1] == pos[k1]);
        }
    }
    assert forall|j: int| 0 <= j < p2.len() implies free_cell(grid, (#[trigger] p2[j]).x as int, p2[j].y as int)
        && g2.cell(p2[j].x as int, p2[j].y as int) == 1 by {
        let src = if j == k { last } else { j };
        assert(p2[j] == pos[src]);
        assert(src != k);
        assert(pos[src] != pos[k]);
        assert(g2.cell(pos[src].x as int, pos[src].y as int) == graph.cell(pos[src].x as int, pos[src].y as int));
    }
    assert forall|j1: int, j2: int| 0 <= j1 < p2.len() && 0 <= j2 < p2.len() && j1 != j2 implies #[trigger] p2[j1]
        != #[trigger] p2[j2] by {
        let s1 = if j1 == k { last } else { j1 };
        let s2 = if j2 == k { last } else { j2 };
        assert(p2[j1] == pos[s1] && p2[j2] == pos[s2]);
        assert(s1 != s2);
    }
}

proof fn lemma_mark_listed(grid: Grid, graph: Grid, g2: Grid, groups: Seq<Seq<UVec2>>, cur: Seq<UVec2>, n: IVec2, c: UVec2)
    requires
        listed_ok(grid, graph, groups.push(cur)),
        cleared(graph, g2, n),
        graph.wf(),
        graph.width == grid.width,
        graph.height == grid.height,
        0 <= n.x < grid.width,
        0 <= n.y < grid.height,
        graph.cell(n.x as int, n.y as int) == 1,
        free_cell(grid, n.x as int, n.y as int),
        c.x == n.x,
        c.y == n.y,
    ensures
        listed_ok(grid, g2, groups.push(cur.push(c))),
{
    let all = groups.push(cur);
    let all2 = groups.push(cur.push(c));
    let ci = groups.len() as int;
    assert forall|a: int, s: int| 0 <= a < all2.len() && 0 <= s < all2[a].len() && !(a == ci && s == cur.len())
        implies #[trigger] all2[a][s] == all[a][s] by {
        if a < ci {
            assert(all2[a] == groups[a] && all[a] == groups[a]);
        } else {
            assert(all2[a] == cur.push(c) && all[a] == cur);
        }
    }
    assert(all2[ci] == cur.push(c));
    assert(all2[ci][cur.len() as int] == c);
    assert forall|a: int, s: int| 0 <= a < all2.len() && 0 <= s < all2[a].len() implies free_cell(
        grid,
        (#[trigger] all2[a][s]).x as int,
        all2[a][s].y as int,
    ) by {
        if !(a == ci && s == cur.len()) {
            assert(all2[a][s] == all[a][s]);
        }
    }
    assert forall|a: int, s: int| 0 <= a < all2.len() && 0 <= s < all2[a].len() implies g2.cell(
        (#[trigger] all2[a][s]).x as int,
        all2[a][s].y as int,
    ) == 0 by {
        if !(a == ci && s == cur.len()) {
            assert(all2[a][s] == all[a][s]);
            assert(graph.cell(all[a][s].x as int, all[a][s].y as int) == 0);
            assert(free_cell(grid, all[a][s].x as int, all[a][s].y as int));
        }
    }
    assert forall|a1: int, s1: int, a2: int, s2: int|
        0 <= a1 < all2.len() && 0 <= s1 < all2[a1].len() && 0 <= a2 < all2.len() && 0 <= s2 < all2[a2].len()
            && (a1 != a2 || s1 != s2) implies #[trigger] all2[a1][s1] != #[trigger] all2[a2][s2] by {
        let new1 = a1 == ci && s1 == cur.len();
        let new2 = a2 == ci && s2 == cur.len();
        if !new1 && !new2 {
            assert(all2[a1][s1] == all[a1][s1] && all2[a2][s2] == all[a2][s2]);
        } else if new1 && !new2 {
            assert(all2[a2][s2] == all[a2][s2]);
            assert(graph.cell(all[a2][s2].x as int, all[a2][s2].y as int) == 0);
        } else if !new1 && new2 {
            assert(all2[a1][s1] == all[a1][s1]);
            assert(graph.cell(all[a1][s1].x as int, all[a1][s1].y as int) == 0);
        }
    }
    assert forall|x: int, y: int| free_cell(grid, x, y) && #[trigger] g2.cell(x, y) == 0 implies exists|a: int|
        0 <= a < all2.len() && #[trigger] group_holds(all2[a], x, y) by {
        if x == n.x && y == n.y {
            assert(group_holds(all2[ci], x, y));
        } else {
            assert(graph.cell(x, y) == 0);
            let a = choose|a: int| 0 <= a < all.len() && #[trigger] group_holds(all[a], x, y);
            let s = choose|s: int| 0 <= s < all[a].len() && (#[trigger] all[a][s]).x == x && all[a][s].y == y;
            assert(all2[a][s] == all[a][s]);
            assert(group_holds(all2[a], x, y));
        }
    }
}

/// The four side neighbours of `n`, in the order they are pushed.
pub open spec fn pushed(n: IVec2) -> Seq<IVec2> {
    seq![ivec(n.x + 1, n.y as int), ivec(n.x as int, n.y + 1), ivec(n.x - 1, n.y as int), ivec(n.x as int, n.y - 1)]
}

proof fn lemma_mark_stack(
    grid: Grid,
    cur: Seq<UVec2>,
    st: Seq<IVec2>,
    seed: IVec2,
    n: IVec2,
    c: UVec2,
)
    requires
        st.len() > 0,
        n == st.last(),
        0 <= n.x < grid.width,
        0 <= n.y < grid.height,
        c.x == n.x,
        c.y == n.y,
        flood_ok(grid),
        cur.len() == 0 ==> st.len() == 1,
        forall|t: int| 0 <= t < st.len() ==> -1 <= (#[trigger] st[t]).x <= grid.width && -1 <= st[t].y <= grid.height,
        cur.len() >= 1 ==> forall|t: int| 0 <= t < st.len() ==> near(cur, #[trigger] st[t]),
    ensures
        forall|t: int| 0 <= t < (st.drop_last() + pushed(n)).len() ==> -1 <= (#[trigger] (st.drop_last() + pushed(n))[t]).x <= grid.width && -1 <= (st.drop_last() + pushed(n))[t].y <= grid.height,
        forall|t: int| 0 <= t < (st.drop_last() + pushed(n)).len() ==> near(cur.push(c), #[trigger] (st.drop_last() + pushed(n))[t]),
{
    let cur2 = cur.push(c);
    let st1 = st.drop_last();
    let st2 = st1 + pushed(n);
    let m = cur.len() as int;
    assert(cur2[m] == c);
    assert forall|t: int| 0 <= t < st2.len() implies -1 <= (#[trigger] st2[t]).x <= grid.width && -1 <= st2[t].y <= grid.height by {
        if t < st1.len() {
            assert(st2[t] == st[t]);
        }
    }
    assert forall|t: int| 0 <= t < st2.len() implies near(cur2, #[trigger] st2[t]) by {
        if t < st1.len() {
            assert(st2[t] == st[t]);
            assert(cur.len() >= 1);
            assert(near(cur, st[t]));
            let s = choose|s: int| 0 <= s < cur.len() && neighbours(
                (#[trigger] cur[s]).x as int,
                cur[s].y as int,
                st[t].x as int,
                st[t].y as int,
            );
            assert(cur2[s] == cur[s]);
        } else {
            assert(neighbours(cur2[m].x as int, cur2[m].y as int, st2[t].x as int, st2[t].y as int));
        }
    }
}

proof fn lemma_mark_pending(
    grid: Grid,
    cur: Seq<UVec2>,
    st: Seq<IVec2>,
    n: IVec2,
    c: UVec2,
)
    requires
        st.len() > 0,
        n == st.last(),
        c.x == n.x,
        c.y == n.y,
        0 <= n.x < grid.width,
        0 <= n.y < grid.height,
        flood_ok(grid),
        forall|s: int| 0 <= s < cur.len() ==> pending_at(grid, cur, st, #[trigger] cur[s]),
    ensures
        forall|s: int| 0 <= s < cur.push(c).len() ==> pending_at(grid, cur.push(c), st.drop_last() + pushed(n), #[trigger] cur.push(c)[s]),
{
    let cur2 = cur.push(c);
    let st1 = st.drop_last();
    let st2 = st1 + pushed(n);
    let m = cur.len() as int;
    assert(cur2[m] == c);
    assert forall|x: int, y: int| group_holds(cur, x, y) implies group_holds(cur2, x, y) by {
        let s = choose|s: int| 0 <= s < cur.len() && (#[trigger] cur[s]).x == x && cur[s].y == y;
        assert(cur2[s] == cur[s]);
    }
    assert forall|x: int, y: int| stack_holds(st, x, y) implies group_holds(cur2, x, y) || stack_holds(st2, x, y) by {
        let t = choose|t: int| 0 <= t < st.len() && (#[trigger] st[t]).x == x && st[t].y == y;
        if t == st.len() - 1 {
            assert(cur2[m].x == x && cur2[m].y == y);
        } else {
            assert(st2[t] == st[t]);
        }
    }
    let b = st1.len() as int;
    assert(st2[b] == pushed(n)[0]);
    assert(st2[b + 1] == pushed(n)[1]);
    assert(st2[b + 2] == pushed(n)[2]);
    assert(st2[b + 3] == pushed(n)[3]);
    assert(stack_holds(st2, n.x + 1, n.y as int));
    assert(stack_holds(st2, n.x as int, n.y + 1));
    assert(stack_holds(st2, n.x - 1, n.y as int));
    assert(stack_holds(st2, n.x as int, n.y - 1));
    assert forall|s: int| 0 <= s < cur2.len() implies pending_at(grid, cur2, st2, #[trigger] cur2[s]) by {
        if s < m {
            assert(cur2[s] == cur[s]);
            assert(pending_at(grid, cur, st, cur[s]));
        }
    }
}

proof fn lemma_mark_connected(
    cur: Seq<UVec2>,
    st: Seq<IVec2>,
    n: IVec2,
    c: UVec2,
)
    requires
        st.len() > 0,
        n == st.last(),
        c.x == n.x,
        c.y == n.y,
        cur.len() >= 1 ==> forall|t: int| 0 <= t < st.len() ==> near(cur, #[trigger] st[t]),
        forall|s: int| 0 <= s < cur.len() ==> connected_in(cur, cur[0], #[trigger] cur[s]),
    ensures
        forall|s: int| 0 <= s < cur.push(c).len() ==> connected_in(cur.push(c), cur.push(c)[0], #[trigger] cur.push(c)[s]),
{
    let cur2 = cur.push(c);
    let m = cur.len() as int;
    assert(cur2[m] == c);
    assert forall|s: int| 0 <= s < cur2.len() implies connected_in(cur2, cur2[0], #[trigger] cur2[s]) by {
        if m == 0 {
            let p = seq![c];
            assert(cur2[0] == c);
            assert(cur2.contains(p[0]));
            assert(is_walk(cur2, p));
        } else if s < m {
            assert(cur2[s] == cur[s]);
            assert(cur2[0] == cur[0]);
            lemma_connected_grow(cur, c, cur[0], cur[s]);
        } else {
            let t = st.len() - 1;
            assert(near(cur, st[t]));
            let q = choose|q: int| 0 <= q < cur.len() && neighbours(
                (#[trigger] cur[q]).x as int,
                cur[q].y as int,
                st[t].x as int,
                st[t].y as int,
            );
            assert(connected_in(cur, cur[0], cur[q]));
            lemma_connected_step(cur, cur[0], cur[q], c);
            assert(cur2[0] == cur[0]);
        }
    }
}

proof fn lemma_flood_unmarked(
    grid: Grid,
    graph: Grid,
    positions: Seq<IVec2>,
    groups: Seq<Seq<UVec2>>,
    cur: Seq<UVec2>,
    st: Seq<IVec2>,
    seed: IVec2,
    old_len: int,
    n: IVec2,
)
    requires
        flood_inv(grid, graph, positions, groups, cur, st, seed, old_len),
        0 <= n.x < grid.width,
        0 <= n.y < grid.height,
        graph.cell(n.x as int, n.y as int) != 0,
    ensures
        graph.cell(n.x as int, n.y as int) == 1,
        positions.contains(n),
{
    reveal(flood_inv);
    assert(graph.cell(n.x as int, n.y as int) <= 1);
    let k1 = choose|k1: int| 0 <= k1 < positions.len() && (#[trigger] positions[k1]).x == n.x && positions[k1].y == n.y;
    assert(positions[k1] == n);
}

/// Marking the popped entry `n` (open and unmarked) keeps the state.
proof fn lemma_flood_mark(
    grid: Grid,
    graph: Grid,
    g2: Grid,
    positions: Seq<IVec2>,
    k: int,
    groups: Seq<Seq<UVec2>>,
    cur: Seq<UVec2>,
    st: Seq<IVec2>,
    seed: IVec2,
    old_len: int,
    c: UVec2,
)
    requires
        flood_ok(grid),
        flood_inv(grid, graph, positions, groups, cur, st, seed, old_len),
        st.len() > 0,
        0 <= st.last().x < grid.width,
        0 <= st.last().y < grid.height,
        graph.cell(st.last().x as int, st.last().y as int) == 1,
        0 <= k < positions.len(),
        positions[k] == st.last(),
        cleared(graph, g2, st.last()),
        c.x == st.last().x,
        c.y == st.last().y,
    ensures
        flood_inv(
            grid,
            g2,
            positions.update(k, positions.last()).drop_last(),
            groups,
            cur.push(c),
            st.drop_last() + pushed(st.last()),
            seed,
            old_len,
        ),
{
    reveal(flood_inv);
    let n = st.last();
    lemma_mark_positions(grid, graph, g2, positions, k, n);
    lemma_mark_listed(grid, graph, g2, groups, cur, n, c);
    lemma_mark_stack(grid, cur, st, seed, n, c);
    lemma_mark_pending(grid, cur, st, n, c);
    lemma_mark_connected(cur, st, n, c);
    let cur2 = cur.push(c);
    assert(cur2.len() >= 1);
    if cur.len() == 0 {
        assert(n == seed);
    }
    assert(cur2[0].x == seed.x && cur2[0].y == seed.y) by {
        if cur.len() > 0 {
            assert(cur2[0] == cur[0]);
        }
    }
}

/// Flood one region from the first unvisited open cell: mark and list every
/// open cell reachable by side steps, and drop them from the work list.
fn flood_region(
    grid: &Grid,
    graph: &mut Grid,
    positions: &mut Vec<IVec2>,
    Ghost(groups): Ghost<Seq<Seq<UVec2>>>,
) -> (current: Vec<UVec2>)
    requires
        flood_ok(*grid),
        positions_ok(*grid, *old(graph), old(positions)@),
        old(positions)@.len() > 0,
        listed_ok(*grid, *old(graph), groups),
        all_closed(*grid, groups),
        all_connected(groups),
    ensures
        positions_ok(*grid, *final(graph), final(positions)@),
        final(positions)@.len() < old(positions)@.len(),
        listed_ok(*grid, *final(graph), groups.push(current@)),
        all_closed(*grid, groups.push(current@)),
        all_connected(groups.push(current@)),
{
    let ghost old_len = positions@.len() as int;
    let seed = positions[0];
    let mut current: Vec<UVec2> = Vec::new();
    let mut stack: Vec<IVec2> = Vec::new();
    stack.push(seed);
    proof {
        lemma_flood_start(*grid, *graph, positions@, groups);
        assert(stack@ =~= seq![seed]);
        assert(current@ =~= Seq::<UVec2>::empty());
    }
    while stack.len() > 0
        invariant
            flood_ok(*grid),
            graph.wf(),
            graph.width == grid.width,
            graph.height == grid.height,
            positions@.len() <= old_len,
            flood_inv(*grid, *graph, positions@, groups, current@, stack@, seed, old_len),
        decreases positions@.len(), stack@.len(),
    {
        let ghost st = stack@;
        let n = match stack.pop() {
            Some(n) => n,
            None => {
                assert(false);
                seed
            },
        };
        assert(stack@ =~= st.drop_last());
        if n.x < 0 || n.y < 0 || n.x >= grid.width as i32 || n.y >= grid.height as i32 {
            proof {
                lemma_flood_skip(*grid, *graph, positions@, groups, current@, st, seed, old_len);
            }
            continue;
        }
        let x = n.x as usize;
        let y = n.y as usize;
        if graph.grid[x][y] == 0 {
            proof {
                lemma_flood_skip(*grid, *graph, positions@, groups, current@, st, seed, old_len);
            }
            continue;
        }
        proof {
            lemma_flood_unmarked(*grid, *graph, positions@, groups, current@, st, seed, old_len, n);
        }
        let ghost gr = *graph;
        let ghost cur = current@;
        let ghost pos = positions@;
        graph.put(x, y, 0);
        let c = UVec2::new(n.x as u32, n.y as u32);
        current.push(c);
        let k = match position(positions, n) {
            Some(k) => k,
            None => {
                assert(false);
                0
            },
        };
        positions.swap_remove(k);
        stack.push(IVec2::new(n.x + 1, n.y));
        stack.push(IVec2::new(n.x, n.y + 1));
        stack.push(IVec2::new(n.x - 1, n.y));
        stack.push(IVec2::new(n.x, n.y - 1));
        proof {
            lemma_flood_mark(*grid, gr, *graph, pos, k as int, groups, cur, st, seed, old_len, c);
            assert(stack@ =~= st.drop_last() + pushed(n));
        }
    }
    proof {
        assert(stack@ =~= Seq::<IVec2>::empty());
        lemma_flood_done(*grid, *graph, positions@, groups, current@, seed, old_len);
    }
    current
}

/// The connected open regions of the grid (4-directional flood fill over the
/// cells before the last column and row that hold zero), each as the list of
/// its cells.
pub fn disjoint_graphs(grid: &Grid) -> (regions: Vec<Vec<UVec2>>)
    requires
        flood_ok(*grid),
    ensures
        regions_of(*grid, cells_view(regions@)),
{
    let (mut positions, mut graph) = free_positions(grid);
    let mut disjoint: Vec<Vec<UVec2>> = Vec::new();
    proof {
        assert forall|x: int, y: int| free_cell(*grid, x, y) && #[trigger] graph.cell(x, y) == 0 implies false by {
            assert(graph.cell(x, y) == 1);
        }
        assert(cells_view(disjoint@) =~= Seq::<Seq<UVec2>>::empty());
    }
    while positions.len() != 0
        invariant
            flood_ok(*grid),
            positions_ok(*grid, graph, positions@),
            listed_ok(*grid, graph, cells_view(disjoint@)),
            all_closed(*grid, cells_view(disjoint@)),
            all_connected(cells_view(disjoint@)),
        decreases positions@.len(),
    {
        let ghost groups = cells_view(disjoint@);
        let current = flood_region(grid, &mut graph, &mut positions, Ghost(groups));
        disjoint.push(current);
        assert(cells_view(disjoint@) =~= groups.push(current@));
    }
    proof {
        let groups = cells_view(disjoint@);
        assert forall|x: int, y: int| free_cell(*grid, x, y) implies exists|a: int|
            0 <= a < groups.len() && #[trigger] group_holds(groups[a], x, y) by {
            if graph.cell(x, y) != 0 {
                assert(graph.cell(x, y) <= 1);
                assert(graph.cell(x, y) == 1);
                let k = choose|k: int| 0 <= k < positions@.len() && (#[trigger] positions@[k]).x == x && positions@[k].y == y;
            }
        }
    }
    disjoint
}

} // verus!
