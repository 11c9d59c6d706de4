//! Exact lattice geometry: orientation, point location, convexity and the
//! merging of adjacent convex polygons.
use vstd::prelude::*;
use crate::vector::{IVec2, polys_view};
use crate::graph::{
    adjacency_row, all_adjacency_ok, all_adjacency_ok_exec, construct_adjacency_graph,
    lemma_adjacency_row_bounds,
};

verus! {

/// Twice the signed area of the triangle `a`, `b`, `c`; positive when `c`
/// lies left of the directed line from `a` to `b`.
pub open spec fn cross(a: IVec2, b: IVec2, c: IVec2) -> int {
    (b.x - a.x) * (c.y - a.y) - (c.x - a.x) * (b.y - a.y)
}

/// The index before `i` in a cyclic sequence of length `n`.
pub open spec fn prev(i: int, n: int) -> int {
    if i == 0 {
        n - 1
    } else {
        i - 1
    }
}

/// The index after `i` in a cyclic sequence of length `n`.
pub open spec fn next(i: int, n: int) -> int {
    if i + 1 == n {
        0
    } else {
        i + 1
    }
}

fn prev_index(i: usize, n: usize) -> (r: usize)
    requires
        i < n,
    ensures
        r == prev(i as int, n as int),
        r < n,
{
    if i == 0 {
        n - 1
    } else {
        i - 1
    }
}

fn next_index(i: usize, n: usize) -> (r: usize)
    requires
        i < n,
    ensures
        r == next(i as int, n as int),
        r < n,
{
    if i + 1 == n {
        0
    } else {
        i + 1
    }
}

proof fn lemma_cross_bounds(a: IVec2, b: IVec2, c: IVec2)
    ensures
        -0x2_0000_0000_0000_0000int <= cross(a, b, c) <= 0x2_0000_0000_0000_0000int,
{
    let dx1 = b.x - a.x;
    let dy1 = c.y - a.y;
    let dx2 = c.x - a.x;
    let dy2 = b.y - a.y;
    assert(-0x1_0000_0000int <= dx1 <= 0x1_0000_0000int);
    assert(-0x1_0000_0000int <= dy1 <= 0x1_0000_0000int);
    assert(-0x1_0000_0000int <= dx2 <= 0x1_0000_0000int);
    assert(-0x1_0000_0000int <= dy2 <= 0x1_0000_0000int);
    assert(-0x1_0000_0000_0000_0000int <= dx1 * dy1 <= 0x1_0000_0000_0000_0000int) by (nonlinear_arith)
        requires
            -0x1_0000_0000int <= dx1 <= 0x1_0000_0000int,
            -0x1_0000_0000int <= dy1 <= 0x1_0000_0000int,
    ;
    assert(-0x1_0000_0000_0000_0000int <= dx2 * dy2 <= 0x1_0000_0000_0000_0000int) by (nonlinear_arith)
        requires
            -0x1_0000_0000int <= dx2 <= 0x1_0000_0000int,
            -0x1_0000_0000int <= dy2 <= 0x1_0000_0000int,
    ;
}

/// Twice the signed area of the triangle `a`, `b`, `c`.
pub fn area(a: IVec2, b: IVec2, c: IVec2) -> (r: i128)
    ensures
        r == cross(a, b, c),
{
    proof {
        lemma_cross_bounds(a, b, c);
    }
    let dx1 = b.x as i128 - a.x as i128;
    let dy1 = c.y as i128 - a.y as i128;
    let dx2 = c.x as i128 - a.x as i128;
    let dy2 = b.y as i128 - a.y as i128;
    assert(-0x1_0000_0000_0000_0000int <= dx1 * dy1 <= 0x1_0000_0000_0000_0000int) by (nonlinear_arith)
        requires
            -0x1_0000_0000int <= dx1 <= 0x1_0000_0000int,
            -0x1_0000_0000int <= dy1 <= 0x1_0000_0000int,
    ;
    assert(-0x1_0000_0000_0000_0000int <= dx2 * dy2 <= 0x1_0000_0000_0000_0000int) by (nonlinear_arith)
        requires
            -0x1_0000_0000int <= dx2 <= 0x1_0000_0000int,
            -0x1_0000_0000int <= dy2 <= 0x1_0000_0000int,
    ;
    dx1 * dy1 - dx2 * dy2
}

/// Whether `c` lies strictly left of the directed line from `a` to `b`.
pub fn left(a: IVec2, b: IVec2, c: IVec2) -> (r: bool)
    ensures
        r == (cross(a, b, c) > 0),
{
    area(a, b, c) > 0
}

/// Whether `c` lies strictly right of the directed line from `a` to `b`.
pub fn right(a: IVec2, b: IVec2, c: IVec2) -> (r: bool)
    ensures
        r == (cross(a, b, c) < 0),
{
    area(a, b, c) < 0
}

/// The index of the lowest vertex among the first `k` (the one furthest right
/// among equally low ones, the first such on a tie).
pub open spec fn bottom_right(p: Seq<IVec2>, k: int) -> int
    decreases k,
{
    if k <= 1 {
        0
    } else {
        let b = bottom_right(p, k - 1);
        if p[k - 1].y < p[b].y || (p[k - 1].y == p[b].y && p[k - 1].x > p[b].x) {
            k - 1
        } else {
            b
        }
    }
}

proof fn lemma_bottom_right(p: Seq<IVec2>, k: int)
    requires
        1 <= k <= p.len(),
    ensures
        0 <= bottom_right(p, k) < k,
        forall|i: int|
            0 <= i < k ==> p[bottom_right(p, k)].y < (#[trigger] p[i]).y || (p[bottom_right(p, k)].y
                == p[i].y && p[bottom_right(p, k)].x >= p[i].x),
    decreases k,
{
    if k > 1 {
        lemma_bottom_right(p, k - 1);
    }
}

/// A polygon is counter-clockwise when its lowest (then rightmost) vertex is a
/// left turn.
pub open spec fn spec_is_ccw(p: Seq<IVec2>) -> bool {
    let n = p.len() as int;
    let b = bottom_right(p, n);
    cross(p[prev(b, n)], p[b], p[next(b, n)]) > 0
}

pub fn is_ccw(poly: &Vec<IVec2>) -> (r: bool)
    requires
        poly.len() >= 1,
    ensures
        r == spec_is_ccw(poly@),
{
    let n = poly.len();
    let mut br: usize = 0;
    let mut i: usize = 1;
    while i < n
        invariant
            1 <= i <= n,
            n == poly.len(),
            br == bottom_right(poly@, i as int),
            br < i,
        decreases n - i,
    {
        if poly[i].y < poly[br].y || (poly[i].y == poly[br].y && poly[i].x > poly[br].x) {
            br = i;
        }
        i = i + 1;
    }
    proof {
        lemma_bottom_right(poly@, n as int);
    }
    left(poly[prev_index(br, n)], poly[br], poly[next_index(br, n)])
}

/// Orientation test of a polygon given on the integer lattice.
pub fn is_ccw_ivec(ivec_poly: &Vec<IVec2>) -> (r: bool)
    requires
        ivec_poly.len() >= 1,
    ensures
        r == spec_is_ccw(ivec_poly@),
{
    is_ccw(ivec_poly)
}

/// `b` lies halfway between `a` and `c`: the steps `a -> b` and `b -> c` are equal.
pub open spec fn spec_collinear(a: IVec2, b: IVec2, c: IVec2) -> bool {
    b.x - a.x == c.x - b.x && b.y - a.y == c.y - b.y
}

pub fn collinear_ivec(a: IVec2, b: IVec2, c: IVec2) -> (r: bool)
    ensures
        r == spec_collinear(a, b, c),
{
    b.x as i64 - a.x as i64 == c.x as i64 - b.x as i64 && b.y as i64 - a.y as i64 == c.y as i64
        - b.y as i64
}

/// Edge `i` of polygon `p` runs from `p[i]` to the next vertex.
pub open spec fn edge_cross(p: Seq<IVec2>, i: int, v: IVec2) -> int {
    cross(p[i], p[next(i, p.len() as int)], v)
}

/// `v` lies within the bounding box of the segment from `a` to `b`; for a
/// point on the segment's line this is the same as lying on the segment.
pub open spec fn within_segment(a: IVec2, b: IVec2, v: IVec2) -> bool {
    &&& (a.x <= v.x <= b.x || b.x <= v.x <= a.x)
    &&& (a.y <= v.y <= b.y || b.y <= v.y <= a.y)
}

/// A point lies in a counter-clockwise convex polygon, or on its boundary,
/// when it lies left of or on every edge, and on an edge's line only within
/// that edge.
pub open spec fn spec_point_in_polygon(p: Seq<IVec2>, v: IVec2) -> bool {
    forall|i: int|
        0 <= i < p.len() ==> #[trigger] edge_cross(p, i, v) >= 0 && (edge_cross(p, i, v) == 0
            ==> within_segment(p[i], p[next(i, p.len() as int)], v))
}

pub(crate) fn within_segment_exec(a: IVec2, b: IVec2, v: IVec2) -> (r: bool)
    ensures
        r == within_segment(a, b, v),
{
    (a.x <= v.x && v.x <= b.x || b.x <= v.x && v.x <= a.x) && (a.y <= v.y && v.y <= b.y || b.y
        <= v.y && v.y <= a.y)
}

/// Given a counter-clockwise polygon of at least three vertices, whether `v`
/// lies in it or on its boundary.
pub fn point_in_polygon(poly: &Vec<IVec2>, v: IVec2) -> (r: bool)
    requires
        poly.len() > 2,
        spec_is_ccw(poly@),
    ensures
        r == spec_point_in_polygon(poly@, v),
{
    let n = poly.len();
    let mut i: usize = 0;
    while i < n
        invariant
            i <= n,
            n == poly.len(),
            forall|k: int|
                0 <= k < i ==> #[trigger] edge_cross(poly@, k, v) >= 0 && (edge_cross(poly@, k, v)
                    == 0 ==> within_segment(poly@[k], poly@[next(k, n as int)], v)),
        decreases n - i,
    {
        let a = poly[i];
        let b = poly[next_index(i, n)];
        let c = area(a, b, v);
        assert(c == edge_cross(poly@, i as int, v));
        if c < 0 {
            return false;
        }
        if c == 0 && !within_segment_exec(a, b, v) {
            return false;
        }
        i = i + 1;
    }
    true
}

/// The index of the first polygon that holds `v`.
pub open spec fn spec_point_to_polygon_index(polys: Seq<Vec<IVec2>>, v: IVec2) -> Option<usize> {
    if exists|i: int| 0 <= i < polys.len() && spec_point_in_polygon(#[trigger] polys[i]@, v) {
        Some(
            (choose|i: int|
                0 <= i < polys.len() && spec_point_in_polygon(#[trigger] polys[i]@, v) && forall|
                    k: int,
                | 0 <= k < i ==> !spec_point_in_polygon(#[trigger] polys[k]@, v)) as usize,
        )
    } else {
        None
    }
}

/// Return the index of the first polygon the given point lies in, `None` if
/// it lies in none. Every polygon up to that one must be counter-clockwise
/// with at least three vertices.
pub fn point_to_polygon_index(polygons: &Vec<Vec<IVec2>>, v: IVec2) -> (r: Option<usize>)
    requires
        forall|i: int|
            0 <= i < polygons.len() && (forall|k: int|
                0 <= k < i ==> !spec_point_in_polygon(#[trigger] polygons@[k]@, v)) ==> (
            #[trigger] polygons@[i]).len() > 2 && spec_is_ccw(polygons@[i]@),
    ensures
        r == spec_point_to_polygon_index(polygons@, v),
{
    let mut i: usize = 0;
    while i < polygons.len()
        invariant
            i <= polygons.len(),
            forall|k: int| 0 <= k < i ==> !spec_point_in_polygon(#[trigger] polygons@[k]@, v),
            forall|i: int|
                0 <= i < polygons.len() && (forall|k: int|
                    0 <= k < i ==> !spec_point_in_polygon(#[trigger] polygons@[k]@, v)) ==> (
                #[trigger] polygons@[i]).len() > 2 && spec_is_ccw(polygons@[i]@),
        decreases polygons.len() - i,
    {
        if point_in_polygon(&polygons[i], v) {
            let ghost j = choose|j: int|
                0 <= j < polygons.len() && spec_point_in_polygon(#[trigger] polygons@[j]@, v)
                    && forall|k: int| 0 <= k < j ==> !spec_point_in_polygon(#[trigger] polygons@[k]@, v);
            assert(j == i) by {
                if j < i {
                } else if j > i {
                    assert(!spec_point_in_polygon(polygons@[i as int]@, v));
                }
            }
            return Some(i);
        }
        i = i + 1;
    }
    None
}

/// The shoelace term of edge `i`: `p[i] x p[next(i)]`.
pub open spec fn shoelace_term(p: Seq<IVec2>, i: int) -> int {
    let j = next(i, p.len() as int);
    p[i].x * p[j].y - p[j].x * p[i].y
}

/// The sum of the shoelace terms of the first `k` edges.
pub open spec fn shoelace_sum(p: Seq<IVec2>, k: int) -> int
    decreases k,
{
    if k <= 0 {
        0
    } else {
        shoelace_sum(p, k - 1) + shoelace_term(p, k - 1)
    }
}

/// Twice the signed area of polygon `p` (positive when counter-clockwise).
pub open spec fn double_area(p: Seq<IVec2>) -> int {
    shoelace_sum(p, p.len() as int)
}

/// Twice the signed area of the polygon. Working with the doubled area keeps
/// the value exact on the lattice.
pub fn area_of_polygon(poly: &Vec<IVec2>) -> (a: i128)
    ensures
        a == double_area(poly@),
{
    let n = poly.len();
    let mut sum: i128 = 0;
    let mut i: usize = 0;
    while i < n
        invariant
            i <= n,
            n == poly.len(),
            sum == shoelace_sum(poly@, i as int),
            -(i * 0x8000_0000_0000_0000int) <= sum <= i * 0x8000_0000_0000_0000int,
        decreases n - i,
    {
        let j = next_index(i, n);
        let a = poly[i];
        let b = poly[j];
        let ax = a.x as i128;
        let ay = a.y as i128;
        let bx = b.x as i128;
        let by = b.y as i128;
        assert(-0x4000_0000_0000_0000int <= ax * by <= 0x4000_0000_0000_0000int) by (nonlinear_arith)
            requires
                -0x8000_0000int <= ax < 0x8000_0000int,
                -0x8000_0000int <= by < 0x8000_0000int,
        ;
        assert(-0x4000_0000_0000_0000int <= bx * ay <= 0x4000_0000_0000_0000int) by (nonlinear_arith)
            requires
                -0x8000_0000int <= bx < 0x8000_0000int,
                -0x8000_0000int <= ay < 0x8000_0000int,
        ;
        let t1 = ax * by;
        let t2 = bx * ay;
        assert(i < 0x1_0000_0000_0000_0000int);
        sum = sum + (t1 - t2);
        i = i + 1;
    }
    sum
}

/// The turn at vertex `i`: positive for a left turn, negative for a right turn.
pub open spec fn turn(p: Seq<IVec2>, i: int) -> int {
    cross(p[prev(i, p.len() as int)], p[i], p[next(i, p.len() as int)])
}

/// No vertex of the polygon is a right turn.
pub open spec fn spec_is_convex(p: Seq<IVec2>) -> bool {
    forall|i: int| 0 <= i < p.len() ==> !(#[trigger] turn(p, i) < 0)
}

/// Given a counter-clockwise polygon, whether it is convex.
pub fn is_convex(poly: &Vec<IVec2>) -> (r: bool)
    requires
        poly.len() >= 1,
        spec_is_ccw(poly@),
    ensures
        r == spec_is_convex(poly@),
{
    let n = poly.len();
    let mut i: usize = 0;
    while i < n
        invariant
            i <= n,
            n == poly.len(),
            forall|k: int| 0 <= k < i ==> !(#[trigger] turn(poly@, k) < 0),
        decreases n - i,
    {
        if right(poly[prev_index(i, n)], poly[i], poly[next_index(i, n)]) {
            assert(turn(poly@, i as int) < 0);
            return false;
        }
        i = i + 1;
    }
    true
}

/// `k` is the first index at which `s` holds `v`.
pub open spec fn is_first_pos(s: Seq<IVec2>, v: IVec2, k: int) -> bool {
    0 <= k < s.len() && s[k] == v && forall|j: int| 0 <= j < k ==> s[j] != v
}

/// The first index at which `s` holds `v` (meaningful when `s` contains `v`).
pub open spec fn first_pos(s: Seq<IVec2>, v: IVec2) -> int {
    choose|k: int| is_first_pos(s, v, k)
}

proof fn lemma_first_pos(s: Seq<IVec2>, v: IVec2, k: int)
    requires
        is_first_pos(s, v, k),
    ensures
        first_pos(s, v) == k,
{
    let c = first_pos(s, v);
    assert(is_first_pos(s, v, c));
    if c < k {
        assert(s[c] == v);
    } else if c > k {
        assert(s[k] == v);
    }
}

/// The first index of `v` in `s`.
pub(crate) fn position(s: &Vec<IVec2>, v: IVec2) -> (r: Option<usize>)
    ensures
        r matches Some(k) ==> is_first_pos(s@, v, k as int) && k == first_pos(s@, v) && k < s.len(),
        r is None ==> !s@.contains(v),
{
    let mut i: usize = 0;
    while i < s.len()
        invariant
            i <= s.len(),
            forall|j: int| 0 <= j < i ==> s@[j] != v,
        decreases s.len() - i,
    {
        if s[i] == v {
            proof {
                lemma_first_pos(s@, v, i as int);
            }
            return Some(i);
        }
        i = i + 1;
    }
    None
}

/// The polygon holds the directed edge `e`.
pub open spec fn has_directed_edge(p: Seq<IVec2>, e: (IVec2, IVec2)) -> bool {
    exists|i: int| 0 <= i < p.len() && p[i] == e.0 && #[trigger] p[next(i, p.len() as int)] == e.1
}

/// The polygon that holds `e` as a directed edge (`a` when both or neither do).
pub open spec fn merge_primary(a: Seq<IVec2>, b: Seq<IVec2>, e: (IVec2, IVec2)) -> Seq<IVec2> {
    if has_directed_edge(a, e) {
        a
    } else {
        b
    }
}

/// The other polygon.
pub open spec fn merge_secondary(a: Seq<IVec2>, b: Seq<IVec2>, e: (IVec2, IVec2)) -> Seq<IVec2> {
    if has_directed_edge(a, e) {
        b
    } else {
        a
    }
}

/// The secondary polygon without the shared edge's end vertex, read from just
/// after its start vertex round to just before it.
pub open spec fn merge_chain(s: Seq<IVec2>, e: (IVec2, IVec2)) -> Seq<IVec2> {
    let s1 = s.remove(first_pos(s, e.1));
    let idx = first_pos(s1, e.0);
    s1.subrange(idx + 1, s1.len() as int) + s1.subrange(0, idx)
}

/// Two adjacent counter-clockwise polygons merged along their shared edge
/// `e`: the chain of the secondary polygon is spliced into the primary one
/// right after the edge's start vertex.
pub open spec fn spec_merge_polygons(a: Seq<IVec2>, b: Seq<IVec2>, e: (IVec2, IVec2)) -> Seq<IVec2> {
    let p = merge_primary(a, b, e);
    let k = first_pos(p, e.0) + 1;
    p.subrange(0, k) + merge_chain(merge_secondary(a, b, e), e) + p.subrange(k, p.len() as int)
}

/// The polygons hold the shared edge's vertices where the merge looks for
/// them.
pub open spec fn merge_vertices_ok(a: Seq<IVec2>, b: Seq<IVec2>, e: (IVec2, IVec2)) -> bool {
    let s = merge_secondary(a, b, e);
    &&& s.contains(e.1)
    &&& s.remove(first_pos(s, e.1)).contains(e.0)
    &&& merge_primary(a, b, e).contains(e.0)
}

/// The inputs on which merging succeeds: the polygons hold the shared edge's
/// vertices where the merge looks for them, and the merged polygon is
/// counter-clockwise.
pub open spec fn merge_ok(a: Seq<IVec2>, b: Seq<IVec2>, e: (IVec2, IVec2)) -> bool {
    &&& merge_vertices_ok(a, b, e)
    &&& spec_merge_polygons(a, b, e).len() >= 1
    &&& spec_is_ccw(spec_merge_polygons(a, b, e))
}

fn copy_poly(p: &Vec<IVec2>, lo: usize, hi: usize, out: &mut Vec<IVec2>)
    requires
        lo <= hi <= p.len(),
    ensures
        final(out)@ == old(out)@ + p@.subrange(lo as int, hi as int),
{
    let ghost start = out@;
    let mut i = lo;
    while i < hi
        invariant
            lo <= i <= hi,
            hi <= p.len(),
            out@ == start + p@.subrange(lo as int, i as int),
        decreases hi - i,
    {
        out.push(p[i]);
        assert(out@ =~= start + p@.subrange(lo as int, i + 1));
        i = i + 1;
    }
}

fn remove_at(p: &Vec<IVec2>, k: usize) -> (r: Vec<IVec2>)
    requires
        k < p.len(),
    ensures
        r@ == p@.remove(k as int),
{
    let mut r = Vec::new();
    copy_poly(p, 0, k, &mut r);
    copy_poly(p, k + 1, p.len(), &mut r);
    assert(r@ =~= p@.remove(k as int));
    r
}

fn holds_directed_edge(a: &Vec<IVec2>, e0: IVec2, e1: IVec2) -> (r: bool)
    ensures
        r == has_directed_edge(a@, (e0, e1)),
{
    let mut i: usize = 0;
    while i < a.len()
        invariant
            i <= a.len(),
            forall|j: int| 0 <= j < i ==> !(a@[j] == e0 && #[trigger] a@[next(j, a.len() as int)] == e1),
        decreases a.len() - i,
    {
        if a[i] == e0 && a[next_index(i, a.len())] == e1 {
            assert(a@[next(i as int, a.len() as int)] == e1);
            return true;
        }
        i = i + 1;
    }
    false
}

/// Merge two adjacent counter-clockwise polygons along their shared edge;
/// the merged polygon must be counter-clockwise too.
pub fn merge_polygons(a: &Vec<IVec2>, b: &Vec<IVec2>, shared_edge: &(IVec2, IVec2)) -> (m: Vec<
    IVec2,
>)
    requires
        merge_ok(a@, b@, *shared_edge),
    ensures
        m@ == spec_merge_polygons(a@, b@, *shared_edge),
{
    splice_polygons(a, b, shared_edge)
}

/// The splice of `merge_polygons`, on any polygons that hold the shared
/// edge's vertices where it looks for them.
fn splice_polygons(a: &Vec<IVec2>, b: &Vec<IVec2>, shared_edge: &(IVec2, IVec2)) -> (m: Vec<
    IVec2,
>)
    requires
        merge_vertices_ok(a@, b@, *shared_edge),
    ensures
        m@ == spec_merge_polygons(a@, b@, *shared_edge),
{
    let e0 = shared_edge.0;
    let e1 = shared_edge.1;
    let a_is_primary = holds_directed_edge(a, e0, e1);
    let (primary, secondary) = if a_is_primary {
        (a, b)
    } else {
        (b, a)
    };
    let ghost s = secondary@;
    let r1 = position(secondary, e1);
    let k1 = match r1 {
        Some(k) => k,
        None => {
            assert(false);
            0
        },
    };
    let s1 = remove_at(secondary, k1);
    let r2 = position(&s1, e0);
    let idx = match r2 {
        Some(k) => k,
        None => {
            assert(false);
            0
        },
    };
    let mut chain = Vec::new();
    copy_poly(&s1, idx + 1, s1.len(), &mut chain);
    copy_poly(&s1, 0, idx, &mut chain);
    let r3 = position(primary, e0);
    let k = match r3 {
        Some(k) => k + 1,
        None => {
            assert(false);
            0
        },
    };
    let mut merged = Vec::new();
    copy_poly(primary, 0, k, &mut merged);
    let mut j: usize = 0;
    while j < chain.len()
        invariant
            j <= chain.len(),
            merged@ == primary@.subrange(0, k as int) + chain@.subrange(0, j as int),
        decreases chain.len() - j,
    {
        merged.push(chain[j]);
        assert(merged@ =~= primary@.subrange(0, k as int) + chain@.subrange(0, j + 1));
        j = j + 1;
    }
    assert(chain@.subrange(0, chain.len() as int) =~= chain@);
    copy_poly(primary, k, primary.len(), &mut merged);
    merged
}

/// The `jj`-th neighbour entry of polygon `i`.
pub open spec fn candidate(polys: Seq<Seq<IVec2>>, i: int, jj: int) -> (usize, (IVec2, IVec2)) {
    adjacency_row(polys, i, polys.len() as int)[jj]
}

/// The number of neighbour entries of polygon `i`.
pub open spec fn degree(polys: Seq<Seq<IVec2>>, i: int) -> int {
    adjacency_row(polys, i, polys.len() as int).len() as int
}

/// The merge of polygon `i` with its `jj`-th neighbour.
pub open spec fn candidate_merge(polys: Seq<Seq<IVec2>>, i: int, jj: int) -> Seq<IVec2> {
    let (j, e) = candidate(polys, i, jj);
    spec_merge_polygons(polys[i], polys[j as int], e)
}

/// Polygon `i` and its `jj`-th neighbour merge into a convex polygon.
pub open spec fn mergeable(polys: Seq<Seq<IVec2>>, i: int, jj: int) -> bool {
    let (j, e) = candidate(polys, i, jj);
    merge_ok(polys[i], polys[j as int], e) && spec_is_convex(candidate_merge(polys, i, jj))
}

/// No pair before (`i`, `jj`), in the order polygon by polygon and then
/// neighbour by neighbour, is mergeable.
pub open spec fn none_mergeable_before(polys: Seq<Seq<IVec2>>, i: int, jj: int) -> bool {
    &&& forall|i2: int, jj2: int|
        0 <= i2 < i && 0 <= jj2 < degree(polys, i2) ==> !#[trigger] mergeable(polys, i2, jj2)
    &&& forall|jj2: int| 0 <= jj2 < jj ==> !#[trigger] mergeable(polys, i, jj2)
}

/// Every pair that the search tries can be merged (it may give a non-convex polygon).
pub open spec fn merge_search_ok(polys: Seq<Seq<IVec2>>) -> bool {
    &&& all_adjacency_ok(polys)
    &&& forall|i: int, jj: int|
        0 <= i < polys.len() && 0 <= jj < degree(polys, i) && none_mergeable_before(polys, i, jj)
            ==> merge_ok(polys[i], polys[candidate(polys, i, jj).0 as int], #[trigger] candidate(polys, i, jj).1)
}

/// Some pair is mergeable.
pub open spec fn some_mergeable(polys: Seq<Seq<IVec2>>) -> bool {
    exists|i: int, jj: int|
        0 <= i < polys.len() && 0 <= jj < degree(polys, i) && #[trigger] mergeable(polys, i, jj)
}

/// The first mergeable pair.
pub open spec fn first_mergeable(polys: Seq<Seq<IVec2>>) -> (int, int) {
    choose|i: int, jj: int|
        0 <= i < polys.len() && 0 <= jj < degree(polys, i) && #[trigger] mergeable(polys, i, jj)
            && none_mergeable_before(polys, i, jj)
}

/// The polygons after merging the first mergeable pair: the merged polygon
/// takes the place of the first one and the second one is removed.
pub open spec fn spec_merge_step(polys: Seq<Seq<IVec2>>) -> Seq<Seq<IVec2>> {
    let (i, jj) = first_mergeable(polys);
    polys.update(i, candidate_merge(polys, i, jj)).remove(candidate(polys, i, jj).0 as int)
}

proof fn lemma_first_mergeable(polys: Seq<Seq<IVec2>>, i: int, jj: int)
    requires
        0 <= i < polys.len(),
        0 <= jj < degree(polys, i),
        mergeable(polys, i, jj),
        none_mergeable_before(polys, i, jj),
    ensures
        first_mergeable(polys) == (i, jj),
{
    let (i2, jj2) = first_mergeable(polys);
    assert(0 <= i2 < polys.len() && 0 <= jj2 < degree(polys, i2) && mergeable(polys, i2, jj2)
        && none_mergeable_before(polys, i2, jj2));
    if i2 < i {
        assert(!mergeable(polys, i2, jj2));
    } else if i2 > i {
        assert(!mergeable(polys, i, jj));
    } else if jj2 < jj {
        assert(!mergeable(polys, i, jj2));
    } else if jj2 > jj {
        assert(!mergeable(polys, i, jj));
    }
}

fn merge_vertices_ok_exec(a: &Vec<IVec2>, b: &Vec<IVec2>, e: &(IVec2, IVec2)) -> (r: bool)
    ensures
        r == merge_vertices_ok(a@, b@, *e),
{
    let e0 = e.0;
    let e1 = e.1;
    let a_is_primary = holds_directed_edge(a, e0, e1);
    let (primary, secondary) = if a_is_primary {
        (a, b)
    } else {
        (b, a)
    };
    match position(secondary, e1) {
        None => false,
        Some(k1) => {
            assert(secondary@[k1 as int] == e1);
            let s1 = remove_at(secondary, k1);
            match position(&s1, e0) {
                None => false,
                Some(k2) => {
                    assert(s1@[k2 as int] == e0);
                    match position(primary, e0) {
                        None => false,
                        Some(k3) => {
                            assert(primary@[k3 as int] == e0);
                            true
                        },
                    }
                },
            }
        },
    }
}

/// Whether the two polygons can be merged along `e` (`merge_ok`).
fn merge_ok_exec(a: &Vec<IVec2>, b: &Vec<IVec2>, e: &(IVec2, IVec2)) -> (r: bool)
    ensures
        r == merge_ok(a@, b@, *e),
{
    if !merge_vertices_ok_exec(a, b, e) {
        return false;
    }
    let m = splice_polygons(a, b, e);
    m.len() >= 1 && is_ccw_ivec(&m)
}

/// The pair of polygon `i` and its `jj`-th neighbour can be merged.
pub open spec fn pair_merge_ok(polys: Seq<Seq<IVec2>>, i: int, jj: int) -> bool {
    merge_ok(polys[i], polys[candidate(polys, i, jj).0 as int], candidate(polys, i, jj).1)
}

/// The merge search of `merge_polygons_if_possible`, carried out only where
/// every pair that it tries can be merged (`merge_search_ok`): `None`, with
/// the polygons unchanged, where one cannot.
fn try_merge_step(polygons: &mut Vec<Vec<IVec2>>) -> (r: Option<bool>)
    ensures
        r is None ==> !merge_search_ok(polys_view(old(polygons)@)) && final(polygons)@ == old(
            polygons,
        )@,
        r matches Some(merged) ==> {
            &&& merge_search_ok(polys_view(old(polygons)@))
            &&& merged == some_mergeable(polys_view(old(polygons)@))
            &&& merged ==> polys_view(final(polygons)@) == spec_merge_step(polys_view(old(polygons)@))
            &&& !merged ==> final(polygons)@ == old(polygons)@
        },
{
    let ghost polys = polys_view(polygons@);
    if !all_adjacency_ok_exec(polygons) {
        return None;
    }
    let graph = construct_adjacency_graph(polygons);
    let n = polygons.len();
    let mut i: usize = 0;
    while i < n
        invariant
            i <= n,
            n == polygons.len(),
            polys == polys_view(polygons@),
            polygons@ == old(polygons)@,
            all_adjacency_ok(polys),
            graph@.len() == n,
            forall|a: int| 0 <= a < n ==> (#[trigger] graph@[a])@ == adjacency_row(polys, a, n as int),
            forall|i2: int, jj2: int|
                0 <= i2 < i && 0 <= jj2 < degree(polys, i2) ==> !#[trigger] mergeable(polys, i2, jj2),
            forall|i2: int, jj2: int|
                0 <= i2 < i && 0 <= jj2 < degree(polys, i2) ==> #[trigger] pair_merge_ok(polys, i2, jj2),
        decreases n - i,
    {
        let row = &graph[i];
        proof {
            lemma_adjacency_row_bounds(polys, i as int, n as int);
        }
        let mut jj: usize = 0;
        while jj < row.len()
            invariant
                i < n,
                jj <= row.len(),
                n == polygons.len(),
                polys == polys_view(polygons@),
                polygons@ == old(polygons)@,
                all_adjacency_ok(polys),
                row@ == adjacency_row(polys, i as int, n as int),
                forall|t: int|
                    0 <= t < row@.len() ==> (#[trigger] row@[t]).0 < n && row@[t].0 != i,
                forall|i2: int, jj2: int|
                    0 <= i2 < i && 0 <= jj2 < degree(polys, i2) ==> !#[trigger] mergeable(polys, i2, jj2),
                forall|i2: int, jj2: int|
                    0 <= i2 < i && 0 <= jj2 < degree(polys, i2) ==> #[trigger] pair_merge_ok(polys, i2, jj2),
                forall|jj2: int| 0 <= jj2 < jj ==> !#[trigger] mergeable(polys, i as int, jj2),
                forall|jj2: int| 0 <= jj2 < jj ==> #[trigger] pair_merge_ok(polys, i as int, jj2),
            decreases row.len() - jj,
        {
            let (j, e) = row[jj];
            assert(candidate(polys, i as int, jj as int) == (j, e));
            assert(none_mergeable_before(polys, i as int, jj as int));
            assert(polys[i as int] == polygons@[i as int]@);
            assert(polys[j as int] == polygons@[j as int]@);
            if !merge_ok_exec(&polygons[i], &polygons[j], &e) {
                assert(!pair_merge_ok(polys, i as int, jj as int));
                assert(!merge_search_ok(polys));
                return None;
            }
            assert(pair_merge_ok(polys, i as int, jj as int));
            let merged_poly = merge_polygons(&polygons[i], &polygons[j], &e);
            assert(merged_poly@ == candidate_merge(polys, i as int, jj as int));
            if is_convex(&merged_poly) {
                assert(mergeable(polys, i as int, jj as int));
                proof {
                    lemma_first_mergeable(polys, i as int, jj as int);
                    assert forall|i2: int, jj2: int|
                        0 <= i2 < polys.len() && 0 <= jj2 < degree(polys, i2) && none_mergeable_before(
                            polys,
                            i2,
                            jj2,
                        ) implies merge_ok(
                        polys[i2],
                        polys[candidate(polys, i2, jj2).0 as int],
                        #[trigger] candidate(polys, i2, jj2).1,
                    ) by {
                        if i2 > i {
                            assert(!mergeable(polys, i as int, jj as int));
                        } else if i2 == i && jj2 > jj {
                            assert(!mergeable(polys, i as int, jj as int));
                        } else {
                            assert(pair_merge_ok(polys, i2, jj2));
                        }
                    }
                }
                polygons.set(i, merged_poly);
                polygons.remove(j);
                assert(polys_view(polygons@) =~= spec_merge_step(polys));
                return Some(true);
            }
            jj = jj + 1;
        }
        i = i + 1;
    }
    assert(!some_mergeable(polys));
    assert forall|i2: int, jj2: int|
        0 <= i2 < polys.len() && 0 <= jj2 < degree(polys, i2) && none_mergeable_before(polys, i2, jj2)
        implies merge_ok(
        polys[i2],
        polys[candidate(polys, i2, jj2).0 as int],
        #[trigger] candidate(polys, i2, jj2).1,
    ) by {
        assert(pair_merge_ok(polys, i2, jj2));
    }
    Some(false)
}

/// Merge the first pair of adjacent polygons whose merge is convex. Returns
/// whether a pair was merged.
fn merge_polygons_if_possible(polygons: &mut Vec<Vec<IVec2>>) -> (merged: bool)
    requires
        merge_search_ok(polys_view(old(polygons)@)),
    ensures
        merged == some_mergeable(polys_view(old(polygons)@)),
        merged ==> polys_view(final(polygons)@) == spec_merge_step(polys_view(old(polygons)@)),
        !merged ==> final(polygons)@ == old(polygons)@,
{
    let ghost polys = polys_view(polygons@);
    let graph = construct_adjacency_graph(polygons);
    let n = polygons.len();
    let mut i: usize = 0;
    while i < n
        invariant
            i <= n,
            n == polygons.len(),
            polys == polys_view(polygons@),
            polygons@ == old(polygons)@,
            merge_search_ok(polys),
            graph@.len() == n,
            forall|a: int| 0 <= a < n ==> (#[trigger] graph@[a])@ == adjacency_row(polys, a, n as int),
            forall|i2: int, jj2: int|
                0 <= i2 < i && 0 <= jj2 < degree(polys, i2) ==> !#[trigger] mergeable(polys, i2, jj2),
        decreases n - i,
    {
        let row = &graph[i];
        proof {
            lemma_adjacency_row_bounds(polys, i as int, n as int);
        }
        let mut jj: usize = 0;
        while jj < row.len()
            invariant
                i < n,
                jj <= row.len(),
                n == polygons.len(),
                polys == polys_view(polygons@),
                polygons@ == old(polygons)@,
                merge_search_ok(polys),
                row@ == adjacency_row(polys, i as int, n as int),
                forall|t: int|
                    0 <= t < row@.len() ==> (#[trigger] row@[t]).0 < n && row@[t].0 != i,
                forall|i2: int, jj2: int|
                    0 <= i2 < i && 0 <= jj2 < degree(polys, i2) ==> !#[trigger] mergeable(polys, i2, jj2),
                forall|jj2: int| 0 <= jj2 < jj ==> !#[trigger] mergeable(polys, i as int, jj2),
            decreases row.len() - jj,
        {
            let (j, e) = row[jj];
            assert(candidate(polys, i as int, jj as int) == (j, e));
            assert(none_mergeable_before(polys, i as int, jj as int));
            assert(polys[i as int] == polygons@[i as int]@);
            assert(polys[j as int] == polygons@[j as int]@);
            let merged_poly = merge_polygons(&polygons[i], &polygons[j], &e);
            assert(merge_ok(polys[i as int], polys[j as int], e));
            assert(merged_poly@ == candidate_merge(polys, i as int, jj as int));
            if is_convex(&merged_poly) {
                assert(mergeable(polys, i as int, jj as int));
                proof {
                    lemma_first_mergeable(polys, i as int, jj as int);
                }
                polygons.set(i, merged_poly);
                polygons.remove(j);
                assert(polys_view(polygons@) =~= spec_merge_step(polys));
                return true;
            }
            jj = jj + 1;
        }
        i = i + 1;
    }
    false
}

/// Insert polygon `p` into `s` right after the last polygon whose area is at
/// most that of `p`, scanning from the end.
pub open spec fn insert_by_area(s: Seq<Seq<IVec2>>, p: Seq<IVec2>) -> Seq<Seq<IVec2>>
    decreases s.len(),
{
    if s.len() == 0 {
        seq![p]
    } else if double_area(s.last()) <= double_area(p) {
        s.push(p)
    } else {
        insert_by_area(s.drop_last(), p).push(s.last())
    }
}

/// The polygons stably sorted by increasing area.
pub open spec fn sort_by_area(polys: Seq<Seq<IVec2>>) -> Seq<Seq<IVec2>>
    decreases polys.len(),
{
    if polys.len() == 0 {
        seq![]
    } else {
        insert_by_area(sort_by_area(polys.drop_last()), polys.last())
    }
}

proof fn lemma_insert_by_area(s: Seq<Seq<IVec2>>, p: Seq<IVec2>, pos: int)
    requires
        0 <= pos <= s.len(),
        forall|t: int| pos <= t < s.len() ==> double_area(#[trigger] s[t]) > double_area(p),
        pos == 0 || double_area(s[pos - 1]) <= double_area(p),
    ensures
        insert_by_area(s, p) == s.take(pos) + seq![p] + s.skip(pos),
    decreases s.len(),
{
    if s.len() == 0 {
        assert(s.take(pos) + seq![p] + s.skip(pos) =~= seq![p]);
    } else if pos == s.len() {
        assert(s.take(pos) + seq![p] + s.skip(pos) =~= s.push(p));
    } else {
        let d = s.drop_last();
        assert forall|t: int| pos <= t < d.len() implies double_area(#[trigger] d[t]) > double_area(p) by {
            assert(d[t] == s[t]);
        }
        assert(double_area(s.last()) > double_area(p));
        lemma_insert_by_area(d, p, pos);
        assert(d.take(pos) + seq![p] + d.skip(pos) + seq![s.last()] =~= s.take(pos) + seq![p] + s.skip(pos));
    }
}

proof fn lemma_sort_len(polys: Seq<Seq<IVec2>>)
    ensures
        sort_by_area(polys).len() == polys.len(),
    decreases polys.len(),
{
    if polys.len() > 0 {
        lemma_sort_len(polys.drop_last());
        lemma_insert_len(sort_by_area(polys.drop_last()), polys.last());
    }
}

proof fn lemma_insert_len(s: Seq<Seq<IVec2>>, p: Seq<IVec2>)
    ensures
        insert_by_area(s, p).len() == s.len() + 1,
    decreases s.len(),
{
    if s.len() > 0 {
        lemma_insert_len(s.drop_last(), p);
    }
}

/// Stably sort the polygons by increasing area.
fn sort_polygons_by_area(polygons: &mut Vec<Vec<IVec2>>)
    ensures
        polys_view(final(polygons)@) == sort_by_area(polys_view(old(polygons)@)),
{
    let ghost orig = polys_view(polygons@);
    let mut src: Vec<Vec<IVec2>> = Vec::new();
    std::mem::swap(&mut src, polygons);
    let mut sorted: Vec<Vec<IVec2>> = Vec::new();
    let mut keys: Vec<i128> = Vec::new();
    let ghost mut k: int = 0;
    while src.len() > 0
        invariant
            0 <= k <= orig.len(),
            polys_view(src@) == orig.skip(k),
            src@.len() == orig.len() - k,
            polys_view(sorted@) == sort_by_area(orig.take(k)),
            keys@.len() == sorted@.len(),
            forall|t: int| 0 <= t < keys@.len() ==> keys@[t] == double_area(#[trigger] sorted@[t]@),
        decreases src.len(),
    {
        let ghost old_src = src@;
        assert(polys_view(old_src)[0] == old_src[0]@);
        let p = src.remove(0);
        assert(p@ == orig[k]);
        assert forall|t: int| 0 <= t < src@.len() implies #[trigger] polys_view(src@)[t] == orig.skip(k + 1)[t] by {
            assert(src@[t] == old_src[t + 1]);
            assert(polys_view(old_src)[t + 1] == old_src[t + 1]@);
            assert(orig.skip(k)[t + 1] == orig[k + 1 + t]);
        }
        assert(polys_view(src@) =~= orig.skip(k + 1));
        let key = area_of_polygon(&p);
        let mut pos = sorted.len();
        while pos > 0 && keys[pos - 1] > key
            invariant
                pos <= sorted@.len(),
                keys@.len() == sorted@.len(),
                forall|t: int| 0 <= t < keys@.len() ==> keys@[t] == double_area(#[trigger] sorted@[t]@),
                forall|t: int| pos <= t < sorted@.len() ==> keys@[t] > key,
            decreases pos,
        {
            pos = pos - 1;
        }
        let ghost s = polys_view(sorted@);
        proof {
            assert forall|t: int| pos <= t < s.len() implies double_area(#[trigger] s[t]) > double_area(p@) by {
                assert(keys@[t] == double_area(sorted@[t]@));
            }
            if pos > 0 {
                assert(keys@[pos - 1] == double_area(sorted@[pos - 1]@));
            }
            lemma_insert_by_area(s, p@, pos as int);
            assert(orig.take(k + 1).drop_last() =~= orig.take(k));
            assert(orig.take(k + 1).last() == orig[k]);
        }
        sorted.insert(pos, p);
        keys.insert(pos, key);
        assert(polys_view(sorted@) =~= s.take(pos as int) + seq![orig[k]] + s.skip(pos as int));
        proof {
            k = k + 1;
        }
    }
    assert(orig.take(k) =~= orig);
    *polygons = sorted;
}

/// Repeatedly sort the polygons by area and merge the first pair that merges
/// into a convex polygon, until no pair does (or one polygon is left).
pub open spec fn merge_convex_spec(polys: Seq<Seq<IVec2>>, fuel: nat) -> Seq<Seq<IVec2>>
    decreases fuel,
{
    if polys.len() <= 1 || fuel == 0 {
        polys
    } else {
        let s = sort_by_area(polys);
        if some_mergeable(s) {
            merge_convex_spec(spec_merge_step(s), (fuel - 1) as nat)
        } else {
            s
        }
    }
}

/// Every merge search of the repeated merging can be carried out.
pub open spec fn merge_convex_ok(polys: Seq<Seq<IVec2>>, fuel: nat) -> bool
    decreases fuel,
{
    polys.len() <= 1 || fuel == 0 || {
        let s = sort_by_area(polys);
        merge_search_ok(s) && (some_mergeable(s) ==> merge_convex_ok(
            spec_merge_step(s),
            (fuel - 1) as nat,
        ))
    }
}

/// When some pair is mergeable, a first one exists.
proof fn lemma_first_mergeable_exists(polys: Seq<Seq<IVec2>>, i: int, jj: int)
    requires
        some_mergeable(polys),
        0 <= i <= polys.len(),
        0 <= jj,
        i < polys.len() ==> jj <= degree(polys, i),
        i == polys.len() ==> jj == 0,
        none_mergeable_before(polys, i, jj),
    ensures
        exists|a: int, b: int|
            0 <= a < polys.len() && 0 <= b < degree(polys, a) && #[trigger] mergeable(polys, a, b)
                && none_mergeable_before(polys, a, b),
    decreases polys.len() - i, (if i < polys.len() { degree(polys, i) - jj } else { 0 }),
{
    if i == polys.len() {
        let (a, b) = choose|a: int, b: int|
            0 <= a < polys.len() && 0 <= b < degree(polys, a) && #[trigger] mergeable(polys, a, b);
        assert(!mergeable(polys, a, b));
    } else if jj == degree(polys, i) {
        assert forall|i2: int, jj2: int|
            0 <= i2 < i + 1 && 0 <= jj2 < degree(polys, i2) implies !#[trigger] mergeable(polys, i2, jj2) by {
            if i2 == i {
            }
        }
        lemma_first_mergeable_exists(polys, i + 1, 0);
    } else if mergeable(polys, i, jj) {
    } else {
        lemma_first_mergeable_exists(polys, i, jj + 1);
    }
}

proof fn lemma_first_mergeable_props(polys: Seq<Seq<IVec2>>)
    requires
        some_mergeable(polys),
    ensures
        0 <= first_mergeable(polys).0 < polys.len(),
        0 <= first_mergeable(polys).1 < degree(polys, first_mergeable(polys).0),
        mergeable(polys, first_mergeable(polys).0, first_mergeable(polys).1),
        none_mergeable_before(polys, first_mergeable(polys).0, first_mergeable(polys).1),
{
    lemma_first_mergeable_exists(polys, 0, 0);
}

proof fn lemma_merge_step_len(polys: Seq<Seq<IVec2>>)
    requires
        some_mergeable(polys),
        polys.len() <= usize::MAX,
    ensures
        spec_merge_step(polys).len() == polys.len() - 1,
{
    lemma_first_mergeable_props(polys);
    let i = first_mergeable(polys).0;
    let jj = first_mergeable(polys).1;
    lemma_adjacency_row_bounds(polys, i, polys.len() as int);
    assert(candidate(polys, i, jj).0 < polys.len());
}


/// Every polygon is convex.
pub open spec fn all_convex(polys: Seq<Seq<IVec2>>) -> bool {
    forall|i: int| 0 <= i < polys.len() ==> spec_is_convex(#[trigger] polys[i])
}

proof fn lemma_insert_convex(s: Seq<Seq<IVec2>>, p: Seq<IVec2>)
    requires
        all_convex(s),
        spec_is_convex(p),
    ensures
        all_convex(insert_by_area(s, p)),
    decreases s.len(),
{
    if s.len() == 0 {
        assert(insert_by_area(s, p)[0] == p);
    } else if double_area(s.last()) <= double_area(p) {
        assert forall|i: int| 0 <= i < s.len() + 1 implies spec_is_convex(#[trigger] s.push(p)[i]) by {
            if i < s.len() {
                assert(s.push(p)[i] == s[i]);
            }
        }
    } else {
        let d = s.drop_last();
        assert forall|i: int| 0 <= i < d.len() implies spec_is_convex(#[trigger] d[i]) by {
            assert(d[i] == s[i]);
        }
        lemma_insert_convex(d, p);
        let r = insert_by_area(d, p);
        assert(spec_is_convex(s[s.len() - 1]));
        assert forall|i: int| 0 <= i < r.len() + 1 implies spec_is_convex(#[trigger] r.push(s.last())[i]) by {
            if i < r.len() {
                assert(r.push(s.last())[i] == r[i]);
            }
        }
    }
}

proof fn lemma_sort_convex(polys: Seq<Seq<IVec2>>)
    requires
        all_convex(polys),
    ensures
        all_convex(sort_by_area(polys)),
    decreases polys.len(),
{
    if polys.len() > 0 {
        let d = polys.drop_last();
        assert forall|i: int| 0 <= i < d.len() implies spec_is_convex(#[trigger] d[i]) by {
            assert(d[i] == polys[i]);
        }
        lemma_sort_convex(d);
        assert(spec_is_convex(polys[polys.len() - 1]));
        lemma_insert_convex(sort_by_area(d), polys.last());
    }
}

/// Merging keeps every polygon convex: convex polygons are merged only
/// into a convex polygon.
pub proof fn lemma_merge_keeps_convex(polys: Seq<Seq<IVec2>>, fuel: nat)
    requires
        all_convex(polys),
        polys.len() <= usize::MAX,
    ensures
        all_convex(merge_convex_spec(polys, fuel)),
    decreases fuel,
{
    if polys.len() > 1 && fuel > 0 {
        let s = sort_by_area(polys);
        lemma_sort_convex(polys);
        lemma_sort_len(polys);
        if some_mergeable(s) {
            lemma_first_mergeable_props(s);
            lemma_merge_step_len(s);
            let (i, jj) = first_mergeable(s);
            lemma_adjacency_row_bounds(s, i, s.len() as int);
            let j = candidate(s, i, jj).0 as int;
            let u = s.update(i, candidate_merge(s, i, jj));
            assert forall|k: int| 0 <= k < u.len() implies spec_is_convex(#[trigger] u[k]) by {
                if k != i {
                    assert(u[k] == s[k]);
                }
            }
            let next = u.remove(j);
            assert(next == spec_merge_step(s));
            assert forall|k: int| 0 <= k < next.len() implies spec_is_convex(#[trigger] next[k]) by {
                if k < j {
                    assert(next[k] == u[k]);
                } else {
                    assert(next[k] == u[k + 1]);
                }
            }
            lemma_merge_keeps_convex(next, (fuel - 1) as nat);
        }
    }
}

/// Merge adjacent convex polygons into larger convex polygons: repeatedly
/// sort by area and merge the first pair whose merge is convex.
pub fn merge_convex_polygons(polygons: &mut Vec<Vec<IVec2>>)
    requires
        merge_convex_ok(polys_view(old(polygons)@), old(polygons)@.len()),
    ensures
        polys_view(final(polygons)@) == merge_convex_spec(
            polys_view(old(polygons)@),
            old(polygons)@.len(),
        ),
        final(polygons)@.len() <= 1 || !some_mergeable(polys_view(final(polygons)@)),
        all_convex(polys_view(old(polygons)@)) ==> all_convex(polys_view(final(polygons)@)),
{
    let count = polygons.len();
    proof {
        if all_convex(polys_view(polygons@)) {
            assert(polys_view(polygons@).len() == count);
            lemma_merge_keeps_convex(polys_view(polygons@), polygons@.len());
        }
    }
    let ghost target = merge_convex_spec(polys_view(polygons@), polygons@.len());
    while polygons.len() > 1
        invariant_except_break
            merge_convex_spec(polys_view(polygons@), polygons@.len()) == target,
            merge_convex_ok(polys_view(polygons@), polygons@.len()),
        ensures
            polys_view(polygons@) == target,
            polygons@.len() <= 1 || !some_mergeable(polys_view(polygons@)),
        decreases polygons.len(),
    {
        let ghost cur = polys_view(polygons@);
        sort_polygons_by_area(polygons);
        proof {
            lemma_sort_len(cur);
        }
        let ghost s = polys_view(polygons@);
        if !merge_polygons_if_possible(polygons) {
            break;
        }
        proof {
            lemma_merge_step_len(s);
        }
    }
}

fn copy_polygons(p: &Vec<Vec<IVec2>>) -> (c: Vec<Vec<IVec2>>)
    ensures
        polys_view(c@) == polys_view(p@),
        c@.len() == p@.len(),
{
    let mut c: Vec<Vec<IVec2>> = Vec::new();
    let mut i: usize = 0;
    while i < p.len()
        invariant
            i <= p@.len(),
            c@.len() == i,
            forall|k: int| 0 <= k < i ==> (#[trigger] c@[k])@ == p@[k]@,
        decreases p.len() - i,
    {
        let mut q: Vec<IVec2> = Vec::new();
        copy_poly(&p[i], 0, p[i].len(), &mut q);
        assert(q@ =~= p@[i as int]@);
        c.push(q);
        i = i + 1;
    }
    assert(polys_view(c@) =~= polys_view(p@));
    c
}

/// Whether `merge_convex_polygons` can be called on `polygons`
/// (`merge_convex_ok` with the number of polygons as fuel): the merging is
/// carried out on a copy, checking each search before it is made.
pub fn merge_convex_ok_exec(polygons: &Vec<Vec<IVec2>>) -> (b: bool)
    ensures
        b == merge_convex_ok(polys_view(polygons@), polygons@.len()),
{
    let ghost p0 = polys_view(polygons@);
    let mut work = copy_polygons(polygons);
    while work.len() > 1
        invariant
            p0 == polys_view(polygons@),
            merge_convex_ok(p0, polygons@.len()) == merge_convex_ok(polys_view(work@), work@.len()),
        decreases work.len(),
    {
        let ghost cur = polys_view(work@);
        let ghost len = work@.len();
        sort_polygons_by_area(&mut work);
        proof {
            lemma_sort_len(cur);
        }
        let ghost s = polys_view(work@);
        assert(s == sort_by_area(cur));
        match try_merge_step(&mut work) {
            None => {
                assert(!merge_convex_ok(cur, len as nat));
                return false;
            },
            Some(merged) => {
                if !merged {
                    assert(merge_convex_ok(cur, len as nat));
                    return true;
                }
                proof {
                    lemma_merge_step_len(s);
                }
                assert(polys_view(work@).len() == work@.len());
            },
        }
    }
    true
}

/// Merge the convex polygons as `merge_convex_polygons` does, where the
/// merging can be carried out (`merge_convex_ok`); otherwise leave the
/// polygons unchanged and return `false`.
pub fn merge_convex_polygons_checked(polygons: &mut Vec<Vec<IVec2>>) -> (ok: bool)
    ensures
        ok == merge_convex_ok(polys_view(old(polygons)@), old(polygons)@.len()),
        ok ==> polys_view(final(polygons)@) == merge_convex_spec(
            polys_view(old(polygons)@),
            old(polygons)@.len(),
        ),
        ok ==> final(polygons)@.len() <= 1 || !some_mergeable(polys_view(final(polygons)@)),
        !ok ==> final(polygons)@ == old(polygons)@,
{
    if merge_convex_ok_exec(polygons) {
        merge_convex_polygons(polygons);
        true
    } else {
        false
    }
}

/// The cross term of the edge from `a` to `b` in the shoelace formula.
pub open spec fn cross0(a: IVec2, b: IVec2) -> int {
    a.x * b.y - b.x * a.y
}

/// The shoelace terms of the open path through `s`.
pub open spec fn chain_sum(s: Seq<IVec2>) -> int
    decreases s.len(),
{
    if s.len() <= 1 {
        0
    } else {
        chain_sum(s.drop_last()) + cross0(s[s.len() - 2], s.last())
    }
}

proof fn lemma_first_pos_exists(s: Seq<IVec2>, v: IVec2, k: int)
    requires
        0 <= k < s.len(),
        s[k] == v,
    ensures
        is_first_pos(s, v, first_pos(s, v)),
    decreases k,
{
    if exists|j: int| 0 <= j < k && s[j] == v {
        let j = choose|j: int| 0 <= j < k && s[j] == v;
        lemma_first_pos_exists(s, v, j);
    } else {
        assert(is_first_pos(s, v, k));
    }
}

proof fn lemma_shoelace_prefix(p: Seq<IVec2>, k: int)
    requires
        0 <= k < p.len(),
    ensures
        shoelace_sum(p, k) == chain_sum(p.take(k + 1)),
    decreases k,
{
    if k > 0 {
        lemma_shoelace_prefix(p, k - 1);
        assert(p.take(k + 1).drop_last() =~= p.take(k));
    }
}

/// The doubled area is the path sum closed by the edge back to the start.
proof fn lemma_area_as_chain(p: Seq<IVec2>)
    requires
        p.len() >= 1,
    ensures
        double_area(p) == chain_sum(p) + cross0(p.last(), p[0]),
{
    let n = p.len() as int;
    lemma_shoelace_prefix(p, n - 1);
    assert(p.take(n) =~= p);
}

proof fn lemma_chain_concat(a: Seq<IVec2>, b: Seq<IVec2>)
    requires
        a.len() >= 1,
        b.len() >= 1,
    ensures
        chain_sum(a + b) == chain_sum(a) + cross0(a.last(), b[0]) + chain_sum(b),
    decreases b.len(),
{
    if b.len() == 1 {
        assert((a + b).drop_last() =~= a);
    } else {
        lemma_chain_concat(a, b.drop_last());
        assert((a + b).drop_last() =~= a + b.drop_last());
    }
}

/// Reading a polygon from another start vertex keeps its area.
proof fn lemma_area_rotate(s: Seq<IVec2>, k: int)
    requires
        0 <= k < s.len(),
    ensures
        double_area(s.subrange(k, s.len() as int) + s.subrange(0, k)) == double_area(s),
{
    let n = s.len() as int;
    if k == 0 {
        assert(s.subrange(k, n) + s.subrange(0, k) =~= s);
    } else {
        let x = s.subrange(0, k);
        let y = s.subrange(k, n);
        assert(s =~= x + y);
        lemma_area_as_chain(s);
        lemma_area_as_chain(y + x);
        lemma_chain_concat(x, y);
        lemma_chain_concat(y, x);
    }
}

/// The two polygons share the edge from `e.0` to `e.1` as the merge reads
/// it: the primary polygon runs from `e.0` straight to `e.1`, and the
/// secondary one from `e.1` straight to `e.0` (at the first places where
/// they hold these vertices), and the edge has two distinct ends.
pub open spec fn merge_along_edge(a: Seq<IVec2>, b: Seq<IVec2>, e: (IVec2, IVec2)) -> bool {
    let p = merge_primary(a, b, e);
    let s = merge_secondary(a, b, e);
    &&& merge_vertices_ok(a, b, e)
    &&& e.0 != e.1
    &&& p[next(first_pos(p, e.0), p.len() as int)] == e.1
    &&& s[next(first_pos(s, e.1), s.len() as int)] == e.0
    &&& first_pos(s, e.0) == next(first_pos(s, e.1), s.len() as int)
}

/// Merging two polygons along the edge they share covers the area of both:
/// the doubled area of the merge is the sum of theirs.
pub proof fn lemma_merge_keeps_area(a: Seq<IVec2>, b: Seq<IVec2>, e: (IVec2, IVec2))
    requires
        merge_along_edge(a, b, e),
    ensures
        double_area(spec_merge_polygons(a, b, e)) == double_area(a) + double_area(b),
{
    let p = merge_primary(a, b, e);
    let s = merge_secondary(a, b, e);
    let (e0, e1) = e;
    // Positions in the secondary polygon.
    let ns = s.len() as int;
    let j = first_pos(s, e1);
    assert(s.contains(e1));
    let w = choose|w: int| 0 <= w < s.len() && s[w] == e1;
    lemma_first_pos_exists(s, e1, w);
    assert(0 <= j < ns && s[j] == e1);
    let s1 = s.remove(j);
    let idx = first_pos(s1, e0);
    let t = s1.subrange(idx + 1, s1.len() as int) + s1.subrange(0, idx);
    assert(t == merge_chain(s, e));
    // In `s1`, `e0` first stands where it followed `e1`.
    let i0 = if j + 1 == ns { 0 } else { j };
    assert(ns >= 2) by {
        if ns == 1 {
            assert(next(j, ns) == 0);
        }
    }
    assert(is_first_pos(s1, e0, i0)) by {
        lemma_first_pos_exists(s, e0, next(j, ns));
        if j + 1 == ns {
            assert(s1[0] == s[0]);
        } else {
            assert(s1[j] == s[j + 1]);
            assert forall|m: int| 0 <= m < j implies s1[m] != e0 by {
                assert(s1[m] == s[m]);
            }
        }
    }
    lemma_first_pos(s1, e0, i0);
    assert(idx == i0);
    // `s` read from `e1` is `e1`, `e0`, then the chain.
    let r = s.subrange(j, ns) + s.subrange(0, j);
    assert(r =~= seq![e1, e0] + t) by {
        if j + 1 == ns {
            assert(s1 =~= s.subrange(0, j));
        } else {
            assert(s1 =~= s.subrange(0, j) + s.subrange(j + 1, ns));
        }
    }
    lemma_area_rotate(s, j);
    // Positions in the primary polygon.
    let np = p.len() as int;
    assert(p.contains(e0));
    let w2 = choose|w: int| 0 <= w < p.len() && p[w] == e0;
    lemma_first_pos_exists(p, e0, w2);
    let k = first_pos(p, e0) + 1;
    let pre = p.subrange(0, k);
    let post = p.subrange(k, np);
    let m = pre + t + post;
    assert(m =~= spec_merge_polygons(a, b, e));
    assert(p =~= pre + post);
    assert(pre.last() == e0);
    lemma_area_as_chain(seq![e1, e0] + t);
    lemma_area_as_chain(m);
    lemma_area_as_chain(p);
    if t.len() == 0 {
        assert(m =~= p);
        assert(seq![e1, e0] + t =~= seq![e1, e0]);
        assert(chain_sum(seq![e1, e0]) == cross0(e1, e0)) by {
            let x = seq![e1, e0];
            assert(x.drop_last() =~= seq![e1]);
            assert(chain_sum(seq![e1]) == 0);
            assert(x[x.len() - 2] == e1 && x.last() == e0);
        }
    } else {
        lemma_chain_concat(seq![e1, e0], t);
        assert(chain_sum(seq![e1, e0]) == cross0(e1, e0)) by {
            let x = seq![e1, e0];
            assert(x.drop_last() =~= seq![e1]);
            assert(chain_sum(seq![e1]) == 0);
            assert(x[x.len() - 2] == e1 && x.last() == e0);
        }
        lemma_chain_concat(pre, t);
        if post.len() == 0 {
            assert(k == np);
            assert(next(k - 1, np) == 0);
            assert(p[0] == e1);
            assert(m =~= pre + t);
        } else {
            assert(post[0] == e1);
            lemma_chain_concat(pre + t, post);
            lemma_chain_concat(pre, post);
            assert((pre + t + post)[0] == pre[0]);
            assert((pre + post)[0] == pre[0]);
        }
    }
    assert(double_area(a) + double_area(b) == double_area(p) + double_area(s));
}

} // verus!
