//! Triangulation of the walkable polygon into convex pieces, by the
//! constrained Delaunay triangulation of the `poly2tri-rs` crate.
use vstd::prelude::*;
use crate::geometry::{
    area, cross, merge_convex_ok, merge_convex_polygons_checked, merge_convex_spec, next,
    within_segment, within_segment_exec,
};
use crate::graph::{
    contour_polygons, outer_index, outer_inner_polygons_checked, outer_inner_polygons_ok,
    world_polygon,
};
use crate::matrix::Grid;
use crate::vector::{IVec2, polys_view};
use poly2tri_rs::{Point, SweeperBuilder};

verus! {

/// The triangles that `poly2tri-rs` computes for an outer polyline and its
/// holes (each triangle as its three corners).
pub uninterp spec fn triangulation(outer: Seq<IVec2>, holes: Seq<Seq<IVec2>>) -> Seq<Seq<IVec2>>;

/// The points of the holes, hole after hole.
pub open spec fn hole_points(holes: Seq<Seq<IVec2>>) -> Seq<IVec2>
    decreases holes.len(),
{
    if holes.len() == 0 {
        Seq::empty()
    } else {
        hole_points(holes.drop_last()) + holes.last()
    }
}

/// No point occurs twice among the outer polyline and the holes.
pub open spec fn points_distinct(outer: Seq<IVec2>, holes: Seq<Seq<IVec2>>) -> bool {
    let all = outer + hole_points(holes);
    forall|i: int, j: int| 0 <= i < j < all.len() ==> all[i] != all[j]
}

/// The edges of a closed polyline: from each point to the next, and from
/// the last back to the first.
pub open spec fn ring_edges(ring: Seq<IVec2>) -> Seq<(IVec2, IVec2)> {
    Seq::new(ring.len(), |i: int| (ring[i], ring[next(i, ring.len() as int)]))
}

/// The edges of the holes, hole after hole.
pub open spec fn hole_edges(holes: Seq<Seq<IVec2>>) -> Seq<(IVec2, IVec2)>
    decreases holes.len(),
{
    if holes.len() == 0 {
        Seq::empty()
    } else {
        hole_edges(holes.drop_last()) + ring_edges(holes.last())
    }
}

/// The constrained edges of the triangulation: those of the outer polyline,
/// then those of the holes.
pub open spec fn constraint_edges(outer: Seq<IVec2>, holes: Seq<Seq<IVec2>>) -> Seq<(IVec2, IVec2)> {
    ring_edges(outer) + hole_edges(holes)
}

/// `p` lies on the closed segment from `a` to `b`.
pub open spec fn on_segment(a: IVec2, b: IVec2, p: IVec2) -> bool {
    cross(a, b, p) == 0 && within_segment(a, b, p)
}

/// `c` and `d` lie strictly on opposite sides of the line through `a` and `b`.
pub open spec fn straddles(a: IVec2, b: IVec2, c: IVec2, d: IVec2) -> bool {
    (cross(a, b, c) > 0 && cross(a, b, d) < 0) || (cross(a, b, c) < 0 && cross(a, b, d) > 0)
}

/// The segments `a`-`b` and `c`-`d` cross at a point inside both.
pub open spec fn segments_cross(a: IVec2, b: IVec2, c: IVec2, d: IVec2) -> bool {
    straddles(a, b, c, d) && straddles(c, d, a, b)
}

/// No point lies on an edge that it does not end.
pub open spec fn edges_clear_of_points(edges: Seq<(IVec2, IVec2)>, points: Seq<IVec2>) -> bool {
    forall|e: int, k: int|
        #![trigger edges[e], points[k]]
        0 <= e < edges.len() && 0 <= k < points.len() && points[k] != edges[e].0 && points[k]
            != edges[e].1 ==> !on_segment(edges[e].0, edges[e].1, points[k])
}

/// No two edges cross.
pub open spec fn edges_do_not_cross(edges: Seq<(IVec2, IVec2)>) -> bool {
    forall|e: int, f: int|
        #![trigger edges[e], edges[f]]
        0 <= e < f < edges.len() ==> !segments_cross(edges[e].0, edges[e].1, edges[f].0, edges[f].1)
}

/// Every coordinate lies within 2^25 of zero, so that the sweep's plain
/// floating-point arithmetic on differences of coordinates is exact.
pub open spec fn coordinates_small(points: Seq<IVec2>) -> bool {
    forall|k: int|
        0 <= k < points.len() ==> -0x0200_0000 <= (#[trigger] points[k]).x <= 0x0200_0000
            && -0x0200_0000 <= points[k].y <= 0x0200_0000
}

/// What the sweep of `poly2tri-rs` needs of its input: an outer polyline and
/// holes of three points each at least, coordinates within 2^25, no point
/// twice, no point on an edge that it does not end, and no two edges
/// crossing.
pub open spec fn triangulation_input(outer: Seq<IVec2>, holes: Seq<Seq<IVec2>>) -> bool {
    &&& outer.len() >= 3
    &&& coordinates_small(outer + hole_points(holes))
    &&& forall|h: int| 0 <= h < holes.len() ==> (#[trigger] holes[h]).len() >= 3
    &&& points_distinct(outer, holes)
    &&& edges_clear_of_points(constraint_edges(outer, holes), outer + hole_points(holes))
    &&& edges_do_not_cross(constraint_edges(outer, holes))
}

/// All points of the outer polyline and the holes, in order.
fn all_points(outer: &Vec<IVec2>, holes: &Vec<Vec<IVec2>>) -> (all: Vec<IVec2>)
    ensures
        all@ == outer@ + hole_points(polys_view(holes@)),
{
    let ghost hs = polys_view(holes@);
    let mut all: Vec<IVec2> = Vec::new();
    let mut k: usize = 0;
    while k < outer.len()
        invariant
            k <= outer.len(),
            all@ == outer@.take(k as int),
        decreases outer.len() - k,
    {
        all.push(outer[k]);
        assert(all@ =~= outer@.take(k + 1));
        k = k + 1;
    }
    assert(outer@.take(k as int) =~= outer@);
    assert(all@ =~= outer@ + hole_points(hs.take(0)));
    let mut h: usize = 0;
    while h < holes.len()
        invariant
            h <= holes.len(),
            hs == polys_view(holes@),
            all@ == outer@ + hole_points(hs.take(h as int)),
        decreases holes.len() - h,
    {
        let ghost before = all@;
        let mut i: usize = 0;
        while i < holes[h].len()
            invariant
                h < holes.len(),
                i <= holes@[h as int].len(),
                all@ == before + holes@[h as int]@.take(i as int),
            decreases holes@[h as int].len() - i,
        {
            all.push(holes[h][i]);
            assert(all@ =~= before + holes@[h as int]@.take(i + 1));
            i = i + 1;
        }
        assert(holes@[h as int]@.take(i as int) =~= holes@[h as int]@);
        assert(hs.take(h + 1).drop_last() =~= hs.take(h as int));
        assert(hs[h as int] == holes@[h as int]@);
        assert(all@ =~= outer@ + hole_points(hs.take(h + 1)));
        h = h + 1;
    }
    assert(hs.take(h as int) =~= hs);
    all
}

/// Append the edges of one closed polyline.
fn push_ring_edges(edges: &mut Vec<(IVec2, IVec2)>, ring: &Vec<IVec2>)
    ensures
        final(edges)@ == old(edges)@ + ring_edges(ring@),
{
    let n = ring.len();
    let ghost before = edges@;
    let mut i: usize = 0;
    while i < n
        invariant
            n == ring.len(),
            i <= n,
            edges@ == before + ring_edges(ring@).take(i as int),
        decreases n - i,
    {
        let j: usize = if i + 1 == n { 0 } else { i + 1 };
        edges.push((ring[i], ring[j]));
        assert(edges@ =~= before + ring_edges(ring@).take(i + 1));
        i = i + 1;
    }
    assert(ring_edges(ring@).take(n as int) =~= ring_edges(ring@));
}

/// All constrained edges, as `constraint_edges` lists them.
fn all_edges(outer: &Vec<IVec2>, holes: &Vec<Vec<IVec2>>) -> (edges: Vec<(IVec2, IVec2)>)
    ensures
        edges@ == constraint_edges(outer@, polys_view(holes@)),
{
    let ghost hs = polys_view(holes@);
    let mut edges: Vec<(IVec2, IVec2)> = Vec::new();
    push_ring_edges(&mut edges, outer);
    assert(edges@ =~= ring_edges(outer@) + hole_edges(hs.take(0)));
    let mut h: usize = 0;
    while h < holes.len()
        invariant
            h <= holes.len(),
            hs == polys_view(holes@),
            edges@ == ring_edges(outer@) + hole_edges(hs.take(h as int)),
        decreases holes.len() - h,
    {
        push_ring_edges(&mut edges, &holes[h]);
        assert(hs.take(h + 1).drop_last() =~= hs.take(h as int));
        assert(hs[h as int] == holes@[h as int]@);
        assert(edges@ =~= ring_edges(outer@) + hole_edges(hs.take(h + 1)));
        h = h + 1;
    }
    assert(hs.take(h as int) =~= hs);
    edges
}

/// Whether no point occurs twice among the outer polyline and the holes,
/// as the triangulation requires.
pub fn points_are_distinct(outer: &Vec<IVec2>, holes: &Vec<Vec<IVec2>>) -> (b: bool)
    ensures
        b == points_distinct(outer@, polys_view(holes@)),
{
    let all = all_points(outer, holes);
    let n = all.len();
    let mut i: usize = 0;
    while i < n
        invariant
            n == all@.len(),
            all@ == outer@ + hole_points(polys_view(holes@)),
            i <= n,
            forall|a: int, b: int| 0 <= a < b < n && a < i ==> all@[a] != all@[b],
        decreases n - i,
    {
        let mut j: usize = i + 1;
        while j < n
            invariant
                n == all@.len(),
                all@ == outer@ + hole_points(polys_view(holes@)),
                i < n,
                i + 1 <= j <= n,
                forall|a: int, b: int| 0 <= a < b < n && a < i ==> all@[a] != all@[b],
                forall|b: int| i < b < j ==> all@[i as int] != all@[b],
            decreases n - j,
        {
            if all[i] == all[j] {
                return false;
            }
            j = j + 1;
        }
        i = i + 1;
    }
    true
}

fn on_segment_exec(a: IVec2, b: IVec2, p: IVec2) -> (r: bool)
    ensures
        r == on_segment(a, b, p),
{
    area(a, b, p) == 0 && within_segment_exec(a, b, p)
}

fn straddles_exec(a: IVec2, b: IVec2, c: IVec2, d: IVec2) -> (r: bool)
    ensures
        r == straddles(a, b, c, d),
{
    let s = area(a, b, c);
    let t = area(a, b, d);
    (s > 0 && t < 0) || (s < 0 && t > 0)
}

/// Whether the outer polyline and the holes meet `triangulation_input`, so
/// that `decompose_poly` may be called on them.
pub fn triangulation_input_ok(outer: &Vec<IVec2>, holes: &Vec<Vec<IVec2>>) -> (b: bool)
    ensures
        b == triangulation_input(outer@, polys_view(holes@)),
{
    let ghost hs = polys_view(holes@);
    if outer.len() < 3 {
        return false;
    }
    let mut h: usize = 0;
    while h < holes.len()
        invariant
            h <= holes.len(),
            hs == polys_view(holes@),
            forall|k: int| 0 <= k < h ==> (#[trigger] hs[k]).len() >= 3,
        decreases holes.len() - h,
    {
        if holes[h].len() < 3 {
            assert(hs[h as int].len() < 3);
            return false;
        }
        h = h + 1;
    }
    assert(forall|k: int| 0 <= k < holes@.len() ==> (#[trigger] polys_view(holes@)[k]).len() >= 3);
    if !points_are_distinct(outer, holes) {
        return false;
    }
    let points = all_points(outer, holes);
    let mut q: usize = 0;
    while q < points.len()
        invariant
            q <= points@.len(),
            points@ == outer@ + hole_points(polys_view(holes@)),
            forall|k: int|
                0 <= k < q ==> -0x0200_0000 <= (#[trigger] points@[k]).x <= 0x0200_0000
                    && -0x0200_0000 <= points@[k].y <= 0x0200_0000,
        decreases points.len() - q,
    {
        let p = points[q];
        if p.x < -0x0200_0000 || p.x > 0x0200_0000 || p.y < -0x0200_0000 || p.y > 0x0200_0000 {
            assert(!coordinates_small(points@));
            return false;
        }
        q = q + 1;
    }
    let edges = all_edges(outer, holes);
    let mut e: usize = 0;
    while e < edges.len()
        invariant
            edges@ == constraint_edges(outer@, polys_view(holes@)),
            points@ == outer@ + hole_points(polys_view(holes@)),
            outer@.len() >= 3,
            forall|k: int| 0 <= k < holes@.len() ==> (#[trigger] polys_view(holes@)[k]).len() >= 3,
            points_distinct(outer@, polys_view(holes@)),
            coordinates_small(points@),
            e <= edges@.len(),
            forall|x: int, k: int|
                #![trigger edges@[x], points@[k]]
                0 <= x < e && 0 <= k < points@.len() && points@[k] != edges@[x].0 && points@[k]
                    != edges@[x].1 ==> !on_segment(edges@[x].0, edges@[x].1, points@[k]),
        decreases edges.len() - e,
    {
        let mut k: usize = 0;
        while k < points.len()
            invariant
                edges@ == constraint_edges(outer@, polys_view(holes@)),
                points@ == outer@ + hole_points(polys_view(holes@)),
                outer@.len() >= 3,
                forall|k: int| 0 <= k < holes@.len() ==> (#[trigger] polys_view(holes@)[k]).len() >= 3,
                points_distinct(outer@, polys_view(holes@)),
            coordinates_small(points@),
                e < edges@.len(),
                k <= points@.len(),
                forall|x: int, q: int|
                    #![trigger edges@[x], points@[q]]
                    0 <= x < e && 0 <= q < points@.len() && points@[q] != edges@[x].0 && points@[q]
                        != edges@[x].1 ==> !on_segment(edges@[x].0, edges@[x].1, points@[q]),
                forall|q: int|
                    #![trigger points@[q]]
                    0 <= q < k && points@[q] != edges@[e as int].0 && points@[q] != edges@[e as int].1
                        ==> !on_segment(edges@[e as int].0, edges@[e as int].1, points@[q]),
            decreases points.len() - k,
        {
            let (a, b) = edges[e];
            let p = points[k];
            if p != a && p != b && on_segment_exec(a, b, p) {
                assert(!edges_clear_of_points(edges@, points@)) by {
                    assert(on_segment(edges@[e as int].0, edges@[e as int].1, points@[k as int]));
                }
                return false;
            }
            k = k + 1;
        }
        e = e + 1;
    }
    let mut e: usize = 0;
    while e < edges.len()
        invariant
            edges@ == constraint_edges(outer@, polys_view(holes@)),
            points@ == outer@ + hole_points(polys_view(holes@)),
            outer@.len() >= 3,
            forall|k: int| 0 <= k < holes@.len() ==> (#[trigger] polys_view(holes@)[k]).len() >= 3,
            points_distinct(outer@, polys_view(holes@)),
            coordinates_small(points@),
            e <= edges@.len(),
            forall|x: int, f: int|
                #![trigger edges@[x], edges@[f]]
                0 <= x < f < edges@.len() && x < e ==> !segments_cross(
                    edges@[x].0,
                    edges@[x].1,
                    edges@[f].0,
                    edges@[f].1,
                ),
        decreases edges.len() - e,
    {
        let mut f: usize = e + 1;
        while f < edges.len()
            invariant
                edges@ == constraint_edges(outer@, polys_view(holes@)),
                points@ == outer@ + hole_points(polys_view(holes@)),
                outer@.len() >= 3,
                forall|k: int| 0 <= k < holes@.len() ==> (#[trigger] polys_view(holes@)[k]).len() >= 3,
                points_distinct(outer@, polys_view(holes@)),
            coordinates_small(points@),
                e < edges@.len(),
                e + 1 <= f <= edges@.len(),
                forall|x: int, g: int|
                    #![trigger edges@[x], edges@[g]]
                    0 <= x < g < edges@.len() && x < e ==> !segments_cross(
                        edges@[x].0,
                        edges@[x].1,
                        edges@[g].0,
                        edges@[g].1,
                    ),
                forall|g: int|
                    #![trigger edges@[g]]
                    e < g < f ==> !segments_cross(
                        edges@[e as int].0,
                        edges@[e as int].1,
                        edges@[g].0,
                        edges@[g].1,
                    ),
            decreases edges.len() - f,
        {
            let (a, b) = edges[e];
            let (c, d) = edges[f];
            if straddles_exec(a, b, c, d) && straddles_exec(c, d, a, b) {
                assert(!edges_do_not_cross(edges@)) by {
                    assert(segments_cross(
                        edges@[e as int].0,
                        edges@[e as int].1,
                        edges@[f as int].0,
                        edges@[f as int].1,
                    ));
                }
                return false;
            }
            f = f + 1;
        }
        e = e + 1;
    }
    true
}

/// Calls `SweeperBuilder::new(outer).add_holes(holes).build().triangulate()`
/// of `poly2tri-rs` and reads back the corners of every triangle. Claimed:
/// the result is the triangulation of these arguments (a function of them
/// alone: the sweep is deterministic) and every triangle has three corners,
/// as the crate's `Triangle` holds `[Point; 3]`. Required, by
/// `triangulation_input`, what the crate's source shows the sweep to panic
/// or misjudge without: coordinates within 2^25 (the scan-area test
/// `in_scan_area` uses plain `f64` arithmetic, exact on such values), every
/// polyline of three points at least (`parse_polyline` closes
/// each ring with an `Edge` from its last point to its first, and `Edge::new`
/// rejects a repeated point), no point twice, no point on a constrained edge
/// that it does not end (the edge events panic on a point collinear with the
/// edge inside it, and on an opposing point on it), and no two constrained
/// edges crossing (the flip scan then runs out of neighbours). A point on the
/// line of an edge but beyond its ends is admitted: it cannot be a corner of
/// a triangle that the edge passes through. Not claimed: that the corners are
/// input points, nor any other property of the triangulation. The source
/// holds further internal `unwrap`s whose conditions it does not tie to the
/// input: that none of them fails on an admitted input is assumed, not
/// shown.
#[verifier::external_body]
fn triangulate(outer: &Vec<IVec2>, holes: &Vec<Vec<IVec2>>) -> (t: Vec<Vec<IVec2>>)
    requires
        triangulation_input(outer@, polys_view(holes@)),
    ensures
        polys_view(t@) == triangulation(outer@, polys_view(holes@)),
        forall|k: int| 0 <= k < t@.len() ==> (#[trigger] t@[k]).len() == 3,
{
    let holes = holes.iter().map(|p| p.iter().map(|v| Point::new(v.x.into(), v.y.into())).collect());
    let outer = outer.iter().map(|v| Point::new(v.x.into(), v.y.into())).collect();
    let sweeper = SweeperBuilder::new(outer).add_holes(holes).build();
    sweeper.triangulate().map(|t| t.points.iter().map(|p| IVec2 { x: p.x as i32, y: p.y as i32 }).collect()).collect()
}

/// Decompose the outer polygon with its holes into triangles.
pub fn decompose_poly(outer_polygon: &Vec<IVec2>, inner_polygons: &Vec<Vec<IVec2>>) -> (triangles: Vec<
    Vec<IVec2>,
>)
    requires
        triangulation_input(outer_polygon@, polys_view(inner_polygons@)),
    ensures
        polys_view(triangles@) == triangulation(outer_polygon@, polys_view(inner_polygons@)),
        forall|k: int| 0 <= k < triangles@.len() ==> (#[trigger] triangles@[k]).len() == 3,
{
    triangulate(outer_polygon, inner_polygons)
}

/// The outer polygon of the walkable area of `grid`, in world units.
pub open spec fn walkable_outer(grid: Grid) -> Seq<IVec2> {
    let cp = contour_polygons(grid, grid);
    world_polygon(cp[outer_index(cp)])
}

/// The inner polygons of the walkable area of `grid`, in world units.
pub open spec fn walkable_inner(grid: Grid) -> Seq<Seq<IVec2>> {
    let cp = contour_polygons(grid, grid);
    cp.remove(outer_index(cp)).map_values(|p: Seq<IVec2>| world_polygon(p))
}

/// The grids whose collider shapes can be computed: the walkable area has
/// one outer border, its polygons can be triangulated, and the triangles
/// can be merged.
pub open spec fn collider_shapes_ok(grid: Grid) -> bool {
    let t = triangulation(walkable_outer(grid), walkable_inner(grid));
    &&& outer_inner_polygons_ok(grid, grid)
    &&& triangulation_input(walkable_outer(grid), walkable_inner(grid))
    &&& merge_convex_ok(t, t.len())
}

/// The convex collider polygons of the walkable area of `grid`: its outer
/// and inner polygons triangulated, then merged into convex polygons.
/// `None` exactly where one of these steps cannot be carried out.
pub fn collider_shapes(grid: &Grid) -> (r: Option<Vec<Vec<IVec2>>>)
    ensures
        r is None <==> !collider_shapes_ok(*grid),
        r matches Some(p) ==> polys_view(p@) == merge_convex_spec(
            triangulation(walkable_outer(*grid), walkable_inner(*grid)),
            triangulation(walkable_outer(*grid), walkable_inner(*grid)).len(),
        ),
{
    let (outer, inner) = match outer_inner_polygons_checked(grid, grid) {
        Some(r) => r,
        None => {
            return None;
        },
    };
    if !triangulation_input_ok(&outer, &inner) {
        return None;
    }
    let mut polygons = decompose_poly(&outer, &inner);
    assert(polys_view(polygons@).len() == polygons@.len());
    if !merge_convex_polygons_checked(&mut polygons) {
        return None;
    }
    Some(polygons)
}

} // verus!
