//! Dropping the redundant vertices of a counter-clockwise outline, and
//! scaling it to world units, keeps it counter-clockwise.
use vstd::prelude::*;
use crate::vector::IVec2;
use crate::geometry::{bottom_right, cross, next, prev, spec_is_ccw};
use crate::graph::{kept_vertices, redundant, to_world};

verus! {

/// `a` lies lower than `b`, or as low and further right.
pub open spec fn better(a: IVec2, b: IVec2) -> bool {
    a.y < b.y || (a.y == b.y && a.x > b.x)
}

proof fn lemma_bottom_right_min(p: Seq<IVec2>, k: int)
    requires
        1 <= k <= p.len(),
    ensures
        0 <= bottom_right(p, k) < k,
        forall|i: int| 0 <= i < k ==> !better(#[trigger] p[i], p[bottom_right(p, k)]),
        forall|i: int| 0 <= i < bottom_right(p, k) ==> better(p[bottom_right(p, k)], #[trigger] p[i]),
    decreases k,
{
    if k > 1 {
        lemma_bottom_right_min(p, k - 1);
    }
}

proof fn lemma_bottom_right_is(p: Seq<IVec2>, m: int, j: int)
    requires
        0 <= j < m <= p.len(),
        forall|i: int| 0 <= i < m ==> !better(#[trigger] p[i], p[j]),
        forall|i: int| 0 <= i < j ==> better(p[j], #[trigger] p[i]),
    ensures
        bottom_right(p, m) == j,
    decreases m,
{
    if m > j + 1 {
        lemma_bottom_right_is(p, m - 1, j);
        assert(!better(p[m - 1], p[j]));
    } else if j > 0 {
        lemma_bottom_right_min(p, j);
        let b = bottom_right(p, j);
        assert(better(p[j], p[b]));
    }
}

/// The number of vertices kept among the first `k`.
pub open spec fn kept_count(v: Seq<IVec2>, k: int) -> int {
    kept_vertices(v, k).len() as int
}

proof fn lemma_kept_prefix(v: Seq<IVec2>, i: int, k: int)
    requires
        0 <= i <= k <= v.len(),
    ensures
        kept_count(v, i) <= kept_count(v, k),
        kept_vertices(v, k).take(kept_count(v, i)) == kept_vertices(v, i),
    decreases k - i,
{
    if i < k {
        lemma_kept_prefix(v, i, k - 1);
        let r = kept_vertices(v, k - 1);
        if !redundant(v, k - 1) {
            assert(r.push(v[k - 1]).take(kept_count(v, i)) =~= r.take(kept_count(v, i)));
        }
    } else {
        assert(kept_vertices(v, k).take(kept_count(v, k)) =~= kept_vertices(v, k));
    }
}

proof fn lemma_kept_at(v: Seq<IVec2>, i: int, k: int)
    requires
        0 <= i < k <= v.len(),
        !redundant(v, i),
    ensures
        kept_count(v, i) < kept_count(v, k),
        kept_count(v, i + 1) == kept_count(v, i) + 1,
        kept_vertices(v, k)[kept_count(v, i)] == v[i],
{
    lemma_kept_prefix(v, i + 1, k);
    let r = kept_vertices(v, i + 1);
    assert(r == kept_vertices(v, i).push(v[i]));
    assert(kept_vertices(v, k).take(kept_count(v, i + 1))[kept_count(v, i)] == r[kept_count(v, i)]);
}

proof fn lemma_kept_none(v: Seq<IVec2>, i: int, k: int)
    requires
        0 <= i <= k <= v.len(),
        forall|j: int| i <= j < k ==> redundant(v, j),
    ensures
        kept_vertices(v, k) == kept_vertices(v, i),
    decreases k - i,
{
    if i < k {
        lemma_kept_none(v, i, k - 1);
    }
}

proof fn lemma_kept_origin(v: Seq<IVec2>, k: int, t: int)
    requires
        0 <= k <= v.len(),
        0 <= t < kept_count(v, k),
    ensures
        exists|i: int|
            0 <= i < k && !redundant(v, i) && kept_count(v, i) == t && kept_vertices(v, k)[t]
                == #[trigger] v[i],
    decreases k,
{
    if k > 0 {
        if t < kept_count(v, k - 1) {
            lemma_kept_origin(v, k - 1, t);
            let i = choose|i: int|
                0 <= i < k - 1 && !redundant(v, i) && kept_count(v, i) == t && kept_vertices(v, k - 1)[t]
                    == #[trigger] v[i];
            lemma_kept_at(v, i, k);
        } else {
            assert(!redundant(v, k - 1));
            assert(kept_vertices(v, k)[t] == v[k - 1]);
        }
    }
}

proof fn lemma_kept_count_monotone(v: Seq<IVec2>, i: int, j: int)
    requires
        0 <= i <= j <= v.len(),
    ensures
        kept_count(v, i) <= kept_count(v, j),
{
    lemma_kept_prefix(v, i, j);
}

/// The index `k` steps before `b` in a cyclic sequence of length `n`.
pub open spec fn back(b: int, k: int, n: int) -> int {
    if b - k >= 0 {
        b - k
    } else {
        b - k + n
    }
}

/// The index `k` steps after `b` in a cyclic sequence of length `n`.
pub open spec fn fwd(b: int, k: int, n: int) -> int {
    if b + k < n {
        b + k
    } else {
        b + k - n
    }
}

/// `p` lies `k` steps of (`dx`, `dy`) away from `o`.
pub open spec fn on_ray(p: IVec2, o: IVec2, dx: int, dy: int, k: int) -> bool {
    p.x == o.x + k * dx && p.y == o.y + k * dy
}

proof fn lemma_ray_step(p: IVec2, c: IVec2, q: IVec2, o: IVec2, dx: int, dy: int, k: int)
    requires
        on_ray(c, o, dx, dy, k - 1),
        on_ray(q, o, dx, dy, k - 2),
        c.x - p.x == q.x - c.x,
        c.y - p.y == q.y - c.y,
    ensures
        on_ray(p, o, dx, dy, k),
{
    assert(p.x == o.x + k * dx) by (nonlinear_arith)
        requires
            c.x == o.x + (k - 1) * dx,
            q.x == o.x + (k - 2) * dx,
            c.x - p.x == q.x - c.x,
    {
    }
    assert(p.y == o.y + k * dy) by (nonlinear_arith)
        requires
            c.y == o.y + (k - 1) * dy,
            q.y == o.y + (k - 2) * dy,
            c.y - p.y == q.y - c.y,
    {
    }
}

/// Walking back from `b` over redundant vertices stays on the ray from
/// `v[b]` through its predecessor.
proof fn lemma_walk_back(v: Seq<IVec2>, b: int, k: int)
    requires
        v.len() >= 2,
        0 <= b < v.len(),
        1 <= k < v.len(),
        forall|j: int| 1 <= j < k ==> redundant(v, #[trigger] back(b, j, v.len() as int)),
    ensures
        forall|j: int|
            1 <= j <= k ==> on_ray(
                v[#[trigger] back(b, j, v.len() as int)],
                v[b],
                v[prev(b, v.len() as int)].x - v[b].x,
                v[prev(b, v.len() as int)].y - v[b].y,
                j,
            ),
    decreases k,
{
    let n = v.len() as int;
    let dx = v[prev(b, n)].x - v[b].x;
    let dy = v[prev(b, n)].y - v[b].y;
    if k == 1 {
        assert(back(b, 1, n) == prev(b, n));
    } else {
        lemma_walk_back(v, b, k - 1);
        let c = back(b, k - 1, n);
        assert(redundant(v, c));
        assert(prev(c, n) == back(b, k, n));
        if k == 2 {
            assert(next(c, n) == b);
            assert(on_ray(v[b], v[b], dx, dy, 0));
        } else {
            assert(next(c, n) == back(b, k - 2, n));
        }
        assert(on_ray(v[next(c, n)], v[b], dx, dy, k - 2));
        lemma_ray_step(v[prev(c, n)], v[c], v[next(c, n)], v[b], dx, dy, k);
    }
}

/// Walking forward from `b` over redundant vertices stays on the ray from
/// `v[b]` through its successor.
proof fn lemma_walk_fwd(v: Seq<IVec2>, b: int, k: int)
    requires
        v.len() >= 2,
        0 <= b < v.len(),
        1 <= k < v.len(),
        forall|j: int| 1 <= j < k ==> redundant(v, #[trigger] fwd(b, j, v.len() as int)),
    ensures
        forall|j: int|
            1 <= j <= k ==> on_ray(
                v[#[trigger] fwd(b, j, v.len() as int)],
                v[b],
                v[next(b, v.len() as int)].x - v[b].x,
                v[next(b, v.len() as int)].y - v[b].y,
                j,
            ),
    decreases k,
{
    let n = v.len() as int;
    let dx = v[next(b, n)].x - v[b].x;
    let dy = v[next(b, n)].y - v[b].y;
    if k == 1 {
        assert(fwd(b, 1, n) == next(b, n));
    } else {
        lemma_walk_fwd(v, b, k - 1);
        let c = fwd(b, k - 1, n);
        assert(redundant(v, c));
        assert(next(c, n) == fwd(b, k, n));
        if k == 2 {
            assert(prev(c, n) == b);
            assert(on_ray(v[b], v[b], dx, dy, 0));
        } else {
            assert(prev(c, n) == fwd(b, k - 2, n));
        }
        assert(on_ray(v[prev(c, n)], v[b], dx, dy, k - 2));
        // the step `prev -> c` equals the step `c -> next`, read backwards
        lemma_ray_step(v[next(c, n)], v[c], v[prev(c, n)], v[b], dx, dy, k);
    }
}

/// The first number of steps back from `b`, from `k` on, that reaches a
/// kept vertex (`n` if none does).
spec fn first_back(v: Seq<IVec2>, b: int, k: int) -> int
    decreases v.len() - k,
{
    if k >= v.len() {
        v.len() as int
    } else if !redundant(v, back(b, k, v.len() as int)) {
        k
    } else {
        first_back(v, b, k + 1)
    }
}

/// The first number of steps forward from `b`, from `k` on, that reaches a
/// kept vertex (`n` if none does).
spec fn first_fwd(v: Seq<IVec2>, b: int, k: int) -> int
    decreases v.len() - k,
{
    if k >= v.len() {
        v.len() as int
    } else if !redundant(v, fwd(b, k, v.len() as int)) {
        k
    } else {
        first_fwd(v, b, k + 1)
    }
}

proof fn lemma_first_back(v: Seq<IVec2>, b: int, k: int)
    requires
        1 <= k <= v.len(),
    ensures
        k <= first_back(v, b, k) <= v.len(),
        forall|j: int| k <= j < first_back(v, b, k) ==> redundant(v, #[trigger] back(b, j, v.len() as int)),
        first_back(v, b, k) < v.len() ==> !redundant(v, back(b, first_back(v, b, k), v.len() as int)),
    decreases v.len() - k,
{
    if k < v.len() && redundant(v, back(b, k, v.len() as int)) {
        lemma_first_back(v, b, k + 1);
    }
}

proof fn lemma_first_fwd(v: Seq<IVec2>, b: int, k: int)
    requires
        1 <= k <= v.len(),
    ensures
        k <= first_fwd(v, b, k) <= v.len(),
        forall|j: int| k <= j < first_fwd(v, b, k) ==> redundant(v, #[trigger] fwd(b, j, v.len() as int)),
        first_fwd(v, b, k) < v.len() ==> !redundant(v, fwd(b, first_fwd(v, b, k), v.len() as int)),
    decreases v.len() - k,
{
    if k < v.len() && redundant(v, fwd(b, k, v.len() as int)) {
        lemma_first_fwd(v, b, k + 1);
    }
}

/// Moving the outer points of a corner along its two edges, away from the
/// corner, scales its turn by the distances moved.
proof fn lemma_cross_scaled(a: IVec2, o: IVec2, c: IVec2, p: IVec2, q: IVec2, s: int, t: int)
    requires
        on_ray(p, o, a.x - o.x, a.y - o.y, s),
        on_ray(q, o, c.x - o.x, c.y - o.y, t),
    ensures
        cross(p, o, q) == s * t * cross(a, o, c),
{
    let dx = a.x - o.x;
    let dy = a.y - o.y;
    let ex = c.x - o.x;
    let ey = c.y - o.y;
    let pa = s * dx;
    let pb = s * dy;
    let qa = t * ex;
    let qb = t * ey;
    assert(cross(p, o, q) == (-pa) * (qb - pb) - (qa - pa) * (-pb));
    assert((-pa) * (qb - pb) - (qa - pa) * (-pb) == qa * pb - pa * qb) by (nonlinear_arith);
    assert(cross(a, o, c) == (-dx) * (ey - dy) - (ex - dx) * (-dy));
    assert((-dx) * (ey - dy) - (ex - dx) * (-dy) == ex * dy - dx * ey) by (nonlinear_arith);
    assert(qa * pb == s * t * (ex * dy)) by (nonlinear_arith)
        requires
            qa == t * ex,
            pb == s * dy,
    {
    }
    assert(pa * qb == s * t * (dx * ey)) by (nonlinear_arith)
        requires
            pa == s * dx,
            qb == t * ey,
    {
    }
    assert(s * t * (ex * dy) - s * t * (dx * ey) == s * t * (ex * dy - dx * ey)) by (nonlinear_arith);
}

proof fn lemma_positive_product(s: int, t: int, x: int)
    requires
        s >= 1,
        t >= 1,
        x > 0,
    ensures
        s * t * x > 0,
{
    assert(s * t * x > 0) by (nonlinear_arith)
        requires
            s >= 1,
            t >= 1,
            x > 0,
    {
    }
}

/// A corner whose outer points lie on one line through it does not turn.
proof fn lemma_flat_corner(a: IVec2, o: IVec2, c: IVec2, s: int)
    requires
        on_ray(c, o, a.x - o.x, a.y - o.y, s),
    ensures
        cross(a, o, c) == 0,
{
    assert(cross(a, o, c) == 0) by (nonlinear_arith)
        requires
            c.x == o.x + s * (a.x - o.x),
            c.y == o.y + s * (a.y - o.y),
    {
    }
}

/// Dropping the redundant vertices of a counter-clockwise polygon keeps it
/// counter-clockwise.
pub proof fn lemma_kept_ccw(v: Seq<IVec2>)
    requires
        v.len() >= 1,
        spec_is_ccw(v),
    ensures
        spec_is_ccw(kept_vertices(v, v.len() as int)),
{
    let n = v.len() as int;
    lemma_bottom_right_min(v, n);
    let b = bottom_right(v, n);
    let a = v[prev(b, n)];
    let o = v[b];
    let c = v[next(b, n)];
    assert(cross(a, o, c) > 0);
    // At least three vertices: with fewer the corner is flat.
    if n <= 2 {
        assert(prev(b, n) == next(b, n));
        lemma_flat_corner(a, o, c, 1);
    }
    // The corner itself is kept.
    if redundant(v, b) {
        lemma_flat_corner(a, o, c, -1);
    }
    // The kept vertex before it.
    lemma_first_back(v, b, 1);
    let kb = first_back(v, b, 1);
    if kb == n {
        lemma_walk_back(v, b, n - 1);
        assert(back(b, n - 1, n) == next(b, n));
        lemma_flat_corner(a, o, c, n - 1);
    }
    lemma_walk_back(v, b, kb);
    let pp = back(b, kb, n);
    assert(on_ray(v[pp], o, a.x - o.x, a.y - o.y, kb));
    // The kept vertex after it.
    lemma_first_fwd(v, b, 1);
    let kf = first_fwd(v, b, 1);
    if kf == n {
        lemma_walk_fwd(v, b, n - 1);
        assert(fwd(b, n - 1, n) == prev(b, n));
        lemma_flat_corner(c, o, a, n - 1);
        assert(cross(a, o, c) == -cross(c, o, a)) by (nonlinear_arith);
    }
    lemma_walk_fwd(v, b, kf);
    let qq = fwd(b, kf, n);
    assert(on_ray(v[qq], o, c.x - o.x, c.y - o.y, kf));
    // The kept polygon and where the corner lies in it.
    let k = kept_vertices(v, n);
    let m = k.len() as int;
    lemma_kept_at(v, b, n);
    let tb = kept_count(v, b);
    assert(k[tb] == o);
    assert forall|i: int| 0 <= i < m implies !better(#[trigger] k[i], k[tb]) by {
        lemma_kept_origin(v, n, i);
    }
    assert forall|i: int| 0 <= i < tb implies better(k[tb], #[trigger] k[i]) by {
        lemma_kept_origin(v, n, i);
        let s = choose|s: int| 0 <= s < n && !redundant(v, s) && kept_count(v, s) == i && k[i] == #[trigger] v[s];
        if s >= b {
            lemma_kept_count_monotone(v, b, s);
        }
    }
    lemma_bottom_right_is(k, m, tb);
    // Its predecessor in the kept polygon.
    lemma_kept_at(v, pp, n);
    if kb <= b {
        assert forall|j: int| pp + 1 <= j < b implies redundant(v, j) by {
            assert(back(b, b - j, n) == j);
        }
        lemma_kept_none(v, pp + 1, b);
        assert(prev(tb, m) == kept_count(v, pp));
    } else {
        assert forall|j: int| 0 <= j < b implies redundant(v, j) by {
            assert(back(b, b - j, n) == j);
        }
        lemma_kept_none(v, 0, b);
        assert forall|j: int| pp + 1 <= j < n implies redundant(v, j) by {
            assert(back(b, b - j + n, n) == j);
        }
        lemma_kept_none(v, pp + 1, n);
        assert(prev(tb, m) == kept_count(v, pp));
    }
    // Its successor in the kept polygon.
    lemma_kept_at(v, qq, n);
    if b + kf < n {
        assert forall|j: int| b + 1 <= j < qq implies redundant(v, j) by {
            assert(fwd(b, j - b, n) == j);
        }
        lemma_kept_at(v, b, qq);
        lemma_kept_none(v, b + 1, qq);
        assert(next(tb, m) == kept_count(v, qq));
    } else {
        assert forall|j: int| b + 1 <= j < n implies redundant(v, j) by {
            assert(fwd(b, j - b, n) == j);
        }
        lemma_kept_at(v, b, n);
        lemma_kept_none(v, b + 1, n);
        assert forall|j: int| 0 <= j < qq implies redundant(v, j) by {
            assert(fwd(b, j + n - b, n) == j);
        }
        lemma_kept_none(v, 0, qq);
        assert(next(tb, m) == kept_count(v, qq));
    }
    lemma_cross_scaled(a, o, c, v[pp], v[qq], kb, kf);
    lemma_positive_product(kb, kf, cross(a, o, c));
}

/// The coordinates are small enough to be scaled to world units.
pub open spec fn world_sized(p: Seq<IVec2>) -> bool {
    forall|i: int|
        0 <= i < p.len() ==> -0x0700_0000 <= (#[trigger] p[i]).x <= 0x0700_0000 && -0x0700_0000
            <= p[i].y <= 0x0700_0000
}

proof fn lemma_to_world(v: IVec2)
    requires
        -0x0700_0000 <= v.x <= 0x0700_0000,
        -0x0700_0000 <= v.y <= 0x0700_0000,
    ensures
        to_world(v).x == 16 * v.x,
        to_world(v).y == 16 * v.y,
{
}

proof fn lemma_world_bottom_right(p: Seq<IVec2>, k: int)
    requires
        1 <= k <= p.len(),
        world_sized(p),
    ensures
        bottom_right(p.map_values(|v: IVec2| to_world(v)), k) == bottom_right(p, k),
    decreases k,
{
    let w = p.map_values(|v: IVec2| to_world(v));
    if k > 1 {
        lemma_world_bottom_right(p, k - 1);
        lemma_bottom_right_min(p, k - 1);
        let b = bottom_right(p, k - 1);
        lemma_to_world(p[k - 1]);
        lemma_to_world(p[b]);
        assert(w[k - 1] == to_world(p[k - 1]));
        assert(w[b] == to_world(p[b]));
    }
}

/// Scaling a counter-clockwise polygon to world units keeps it
/// counter-clockwise.
pub proof fn lemma_world_ccw(p: Seq<IVec2>)
    requires
        p.len() >= 1,
        spec_is_ccw(p),
        world_sized(p),
    ensures
        spec_is_ccw(p.map_values(|v: IVec2| to_world(v))),
{
    let n = p.len() as int;
    let w = p.map_values(|v: IVec2| to_world(v));
    lemma_world_bottom_right(p, n);
    lemma_bottom_right_min(p, n);
    let b = bottom_right(p, n);
    let (i, j) = (prev(b, n), next(b, n));
    lemma_to_world(p[i]);
    lemma_to_world(p[b]);
    lemma_to_world(p[j]);
    assert(w[i] == to_world(p[i]) && w[b] == to_world(p[b]) && w[j] == to_world(p[j]));
    let (a, o, c) = (p[i], p[b], p[j]);
    assert(cross(w[i], w[b], w[j]) == 256 * cross(a, o, c)) by (nonlinear_arith)
        requires
            w[i].x == 16 * a.x,
            w[i].y == 16 * a.y,
            w[b].x == 16 * o.x,
            w[b].y == 16 * o.y,
            w[j].x == 16 * c.x,
            w[j].y == 16 * c.y,
    {
    }
}

} // verus!
