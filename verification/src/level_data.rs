//! Rules on the levels of a world: which levels border a level on its four
//! sides and where they lie relative to it, and where the player starts.
use vstd::prelude::*;
use crate::serialization::chars_of;

verus! {

/// Where a level lies in its world, in pixels, and its identifier.
#[derive(Clone, Debug)]
pub struct LevelPlacement {
    pub iid: String,
    pub world_x: i64,
    pub world_y: i64,
    pub px_hei: i64,
}

/// A level that borders another one: the direction it lies in (`n`, `e`,
/// `s`, `w`, or a diagonal such as `ne`) and its identifier.
#[derive(Clone, Debug)]
pub struct NeighbourLink {
    pub dir: String,
    pub level_iid: String,
}

/// Why the neighbours of a level cannot be written.
#[derive(Clone, Copy, Debug, PartialEq, Eq, Structural)]
pub enum NeighbourError {
    /// A neighbour lies in a direction that is neither a side nor a diagonal.
    UnsupportedDirection,
    /// A neighbour is not a level of the world.
    MissingLevel,
    /// Two neighbours lie on the same side.
    DuplicateSide,
}

/// The side (north 0, east 1, south 2, west 3) that a direction names, or
/// -1.
pub open spec fn side_of(dir: Seq<char>) -> int {
    if dir == seq!['n'] {
        0
    } else if dir == seq!['e'] {
        1
    } else if dir == seq!['s'] {
        2
    } else if dir == seq!['w'] {
        3
    } else {
        -1
    }
}

/// A diagonal direction: such a level touches only a corner and is skipped.
pub open spec fn is_diagonal(dir: Seq<char>) -> bool {
    dir == seq!['n', 'e'] || dir == seq!['s', 'e'] || dir == seq!['s', 'w'] || dir == seq!['n', 'w']
}

/// The first index from `k` on of a level with the identifier `iid`, or -1.
pub open spec fn find_level(levels: Seq<LevelPlacement>, iid: Seq<char>, k: int) -> int
    decreases levels.len() - k,
{
    if k < 0 || k >= levels.len() {
        -1
    } else if levels[k].iid@ == iid {
        k
    } else {
        find_level(levels, iid, k + 1)
    }
}

/// How far `other` lies from `level` along x.
pub open spec fn offset_x(level: LevelPlacement, other: LevelPlacement) -> int {
    level.world_x - other.world_x
}

/// How far `other` lies from `level` along y, measured at the levels' lower
/// edges with y pointing up.
pub open spec fn offset_y(level: LevelPlacement, other: LevelPlacement) -> int {
    (-level.world_y - level.px_hei) - (-other.world_y - other.px_hei)
}

/// The coordinates are small enough for offsets to be written as `i32`.
pub open spec fn placement_bounded(p: LevelPlacement) -> bool {
    -0x1000_0000 <= p.world_x <= 0x1000_0000 && -0x1000_0000 <= p.world_y <= 0x1000_0000
        && -0x1000_0000 <= p.px_hei <= 0x1000_0000
}

/// The neighbours after taking one more link into account.
pub open spec fn link_step(
    levels: Seq<LevelPlacement>,
    level: LevelPlacement,
    state: Result<Seq<Option<(usize, i32, i32)>>, NeighbourError>,
    link: NeighbourLink,
) -> Result<Seq<Option<(usize, i32, i32)>>, NeighbourError> {
    match state {
        Err(e) => Err(e),
        Ok(ns) => if is_diagonal(link.dir@) {
            Ok(ns)
        } else {
            let s = side_of(link.dir@);
            let idx = find_level(levels, link.level_iid@, 0);
            if s < 0 {
                Err(NeighbourError::UnsupportedDirection)
            } else if idx < 0 {
                Err(NeighbourError::MissingLevel)
            } else if ns[s] is Some {
                Err(NeighbourError::DuplicateSide)
            } else {
                Ok(
                    ns.update(
                        s,
                        Some(
                            (
                                idx as usize,
                                offset_x(level, levels[idx]) as i32,
                                offset_y(level, levels[idx]) as i32,
                            ),
                        ),
                    ),
                )
            }
        },
    }
}

/// The neighbours of `level` on its four sides after the given links, in
/// order: the first link that fails decides the error.
pub open spec fn links_result(
    levels: Seq<LevelPlacement>,
    level: LevelPlacement,
    links: Seq<NeighbourLink>,
) -> Result<Seq<Option<(usize, i32, i32)>>, NeighbourError>
    decreases links.len(),
{
    if links.len() == 0 {
        Ok(seq![None, None, None, None])
    } else {
        link_step(levels, level, links_result(levels, level, links.drop_last()), links.last())
    }
}

/// The entry that a link to a side gives: the index of the first level with
/// the link's identifier and that level's offset.
pub open spec fn link_entry(
    levels: Seq<LevelPlacement>,
    level: LevelPlacement,
    link: NeighbourLink,
) -> Option<(usize, i32, i32)> {
    let idx = find_level(levels, link.level_iid@, 0);
    Some((idx as usize, offset_x(level, levels[idx]) as i32, offset_y(level, levels[idx]) as i32))
}

/// Link `t` names side `k`.
pub open spec fn links_to_side(links: Seq<NeighbourLink>, t: int, k: int) -> bool {
    0 <= t < links.len() && !is_diagonal(links[t].dir@) && side_of(links[t].dir@) == k
}

/// The neighbour of `level` on side `k`: the entry of the link to that side,
/// or `None` where no link names it.
pub open spec fn neighbour_on(
    levels: Seq<LevelPlacement>,
    level: LevelPlacement,
    links: Seq<NeighbourLink>,
    k: int,
) -> Option<(usize, i32, i32)> {
    if exists|t: int| #[trigger] links_to_side(links, t, k) {
        link_entry(levels, level, links[choose|t: int| #[trigger] links_to_side(links, t, k)])
    } else {
        None
    }
}

/// Every link is a diagonal, or names a side and a level of the world, and
/// no two links name the same side.
pub open spec fn links_valid(levels: Seq<LevelPlacement>, links: Seq<NeighbourLink>) -> bool {
    &&& forall|t: int|
        0 <= t < links.len() && !is_diagonal(#[trigger] links[t].dir@) ==> side_of(links[t].dir@)
            >= 0 && find_level(levels, links[t].level_iid@, 0) >= 0
    &&& forall|t1: int, t2: int, k: int|
        #[trigger] links_to_side(links, t1, k) && #[trigger] links_to_side(links, t2, k) ==> t1 == t2
}

proof fn lemma_neighbour_on_unique(
    levels: Seq<LevelPlacement>,
    level: LevelPlacement,
    links: Seq<NeighbourLink>,
    t: int,
    k: int,
)
    requires
        links_valid(levels, links),
        links_to_side(links, t, k),
    ensures
        neighbour_on(levels, level, links, k) == link_entry(levels, level, links[t]),
{
    let c = choose|u: int| #[trigger] links_to_side(links, u, k);
    assert(links_to_side(links, c, k));
}

/// With valid links, the neighbours are found without error, and each side
/// holds the neighbour that the link to it names, or nothing.
pub proof fn lemma_links_result(
    levels: Seq<LevelPlacement>,
    level: LevelPlacement,
    links: Seq<NeighbourLink>,
)
    requires
        links_valid(levels, links),
    ensures
        links_result(levels, level, links) == Ok::<Seq<Option<(usize, i32, i32)>>, NeighbourError>(
            Seq::new(4, |k: int| neighbour_on(levels, level, links, k)),
        ),
    decreases links.len(),
{
    let want = Seq::new(4, |k: int| neighbour_on(levels, level, links, k));
    if links.len() == 0 {
        assert forall|k: int| 0 <= k < 4 implies want[k] == None::<(usize, i32, i32)> by {
            assert(!exists|t: int| #[trigger] links_to_side(links, t, k));
        }
        assert(want =~= seq![None, None, None, None]);
    } else {
        let l = links.drop_last();
        let last = links.last();
        let n = links.len() - 1;
        assert forall|t: int| 0 <= t < l.len() implies #[trigger] l[t] == links[t] by {}
        assert(links_valid(levels, l)) by {
            assert forall|t1: int, t2: int, k: int|
                #[trigger] links_to_side(l, t1, k) && #[trigger] links_to_side(l, t2, k) implies t1
                == t2 by {
                assert(links_to_side(links, t1, k) && links_to_side(links, t2, k));
            }
            assert forall|t: int| 0 <= t < l.len() && !is_diagonal(#[trigger] l[t].dir@) implies side_of(
                l[t].dir@,
            ) >= 0 && find_level(levels, l[t].level_iid@, 0) >= 0 by {
                assert(l[t] == links[t]);
            }
        }
        lemma_links_result(levels, level, l);
        let prev = Seq::new(4, |k: int| neighbour_on(levels, level, l, k));
        // Sides that the last link does not name keep their neighbour.
        assert forall|k: int|
            0 <= k < 4 && !links_to_side(links, n, k) implies #[trigger] neighbour_on(levels, level, links, k)
            == neighbour_on(levels, level, l, k) by {
            if exists|t: int| #[trigger] links_to_side(links, t, k) {
                let t = choose|t: int| #[trigger] links_to_side(links, t, k);
                assert(t != n);
                assert(links_to_side(l, t, k));
                lemma_neighbour_on_unique(levels, level, links, t, k);
                lemma_neighbour_on_unique(levels, level, l, t, k);
            } else {
                assert forall|t: int| !#[trigger] links_to_side(l, t, k) by {
                    if links_to_side(l, t, k) {
                        assert(links_to_side(links, t, k));
                    }
                }
            }
        }
        if is_diagonal(last.dir@) {
            assert forall|k: int| 0 <= k < 4 implies want[k] == prev[k] by {
                assert(!links_to_side(links, n, k));
                assert(neighbour_on(levels, level, links, k) == neighbour_on(levels, level, l, k));
            }
            assert(want =~= prev);
        } else {
            let s = side_of(last.dir@);
            assert(links_to_side(links, n, s));
            assert(0 <= s < 4);
            assert(prev[s] is None) by {
                if exists|t: int| #[trigger] links_to_side(l, t, s) {
                    let t = choose|t: int| #[trigger] links_to_side(l, t, s);
                    assert(links_to_side(links, t, s));
                }
            }
            lemma_neighbour_on_unique(levels, level, links, n, s);
            assert forall|k: int| 0 <= k < 4 implies want[k] == prev.update(s, link_entry(levels, level, last))[k] by {
                if k != s {
                    assert(!links_to_side(links, n, k));
                    assert(neighbour_on(levels, level, links, k) == neighbour_on(levels, level, l, k));
                }
            }
            assert(want =~= prev.update(s, link_entry(levels, level, last)));
        }
    }
}

fn text_is(c: &Vec<char>, a: char) -> (r: bool)
    ensures
        r == (c@ == seq![a]),
{
    let r = c.len() == 1 && c[0] == a;
    proof {
        if c@ == seq![a] {
            assert(c@[0] == a);
        }
        if r {
            assert(c@ =~= seq![a]);
        }
    }
    r
}

fn text_is2(c: &Vec<char>, a: char, b: char) -> (r: bool)
    ensures
        r == (c@ == seq![a, b]),
{
    let r = c.len() == 2 && c[0] == a && c[1] == b;
    proof {
        if c@ == seq![a, b] {
            assert(c@[0] == a && c@[1] == b);
        }
        if r {
            assert(c@ =~= seq![a, b]);
        }
    }
    r
}

fn find_level_exec(levels: &Vec<LevelPlacement>, iid: &String) -> (r: Option<usize>)
    ensures
        match r {
            Some(k) => find_level(levels@, iid@, 0) == k && k < levels.len(),
            None => find_level(levels@, iid@, 0) == -1,
        },
{
    let mut k: usize = 0;
    while k < levels.len()
        invariant
            k <= levels.len(),
            find_level(levels@, iid@, 0) == find_level(levels@, iid@, k as int),
        decreases levels.len() - k,
    {
        if levels[k].iid == *iid {
            return Some(k);
        }
        k = k + 1;
    }
    None
}

/// The levels that border `level` on its north, east, south and west side:
/// each as its index among `levels` and its offset from `level`. Diagonal
/// neighbours are skipped; a neighbour in another direction, one that is
/// not among `levels`, or two on one side are an error. With valid links,
/// each side holds the first level whose identifier the link to that side
/// names, with its offset, or nothing where no link names the side.
pub fn level_neighbours(
    levels: &Vec<LevelPlacement>,
    level: &LevelPlacement,
    links: &Vec<NeighbourLink>,
) -> (r: Result<[Option<(usize, i32, i32)>; 4], NeighbourError>)
    requires
        placement_bounded(*level),
        forall|k: int| 0 <= k < levels.len() ==> placement_bounded(#[trigger] levels@[k]),
    ensures
        match r {
            Ok(ns) => links_result(levels@, *level, links@) == Ok::<
                Seq<Option<(usize, i32, i32)>>,
                NeighbourError,
            >(ns@),
            Err(e) => links_result(levels@, *level, links@) == Err::<
                Seq<Option<(usize, i32, i32)>>,
                NeighbourError,
            >(e),
        },
        links_valid(levels@, links@) ==> (r matches Ok(ns) && forall|k: int|
            0 <= k < 4 ==> ns@[k] == neighbour_on(levels@, *level, links@, k)),
{
    proof {
        if links_valid(levels@, links@) {
            lemma_links_result(levels@, *level, links@);
        }
    }
    let mut ns: [Option<(usize, i32, i32)>; 4] = [None, None, None, None];
    assert(ns@ =~= seq![None, None, None, None]);
    let mut k: usize = 0;
    while k < links.len()
        invariant
            k <= links.len(),
            placement_bounded(*level),
            forall|m: int| 0 <= m < levels.len() ==> placement_bounded(#[trigger] levels@[m]),
            links_result(levels@, *level, links@.take(k as int)) == Ok::<
                Seq<Option<(usize, i32, i32)>>,
                NeighbourError,
            >(ns@),
            links_valid(levels@, links@) ==> links_result(levels@, *level, links@) == Ok::<
                Seq<Option<(usize, i32, i32)>>,
                NeighbourError,
            >(Seq::new(4, |m: int| neighbour_on(levels@, *level, links@, m))),
        decreases links.len() - k,
    {
        assert(links@.take(k + 1).drop_last() =~= links@.take(k as int));
        let link = &links[k];
        let dir = chars_of(link.dir.as_str());
        let diagonal = text_is2(&dir, 'n', 'e') || text_is2(&dir, 's', 'e') || text_is2(
            &dir,
            's',
            'w',
        ) || text_is2(&dir, 'n', 'w');
        if !diagonal {
            let found = find_level_exec(levels, &link.level_iid);
            let side: usize = if text_is(&dir, 'n') {
                0
            } else if text_is(&dir, 'e') {
                1
            } else if text_is(&dir, 's') {
                2
            } else if text_is(&dir, 'w') {
                3
            } else {
                proof {
                    lemma_links_error_stays(levels@, *level, links@, k as int + 1);
                    assert(links@.take(links@.len() as int) =~= links@);
                }
                return Err(NeighbourError::UnsupportedDirection);
            };
            let idx = match found {
                Some(idx) => idx,
                None => {
                    proof {
                        lemma_links_error_stays(levels@, *level, links@, k as int + 1);
                        assert(links@.take(links@.len() as int) =~= links@);
                    }
                    return Err(NeighbourError::MissingLevel);
                },
            };
            if ns[side].is_some() {
                proof {
                    lemma_links_error_stays(levels@, *level, links@, k as int + 1);
                    assert(links@.take(links@.len() as int) =~= links@);
                }
                return Err(NeighbourError::DuplicateSide);
            }
            let other = &levels[idx];
            let x = (level.world_x - other.world_x) as i32;
            let y = ((-level.world_y - level.px_hei) - (-other.world_y - other.px_hei)) as i32;
            ns[side] = Some((idx, x, y));
        }
        k = k + 1;
    }
    assert(links@.take(k as int) =~= links@);
    Ok(ns)
}

/// Once the links up to `k` give an error, all of them give that error.
proof fn lemma_links_error_stays(
    levels: Seq<LevelPlacement>,
    level: LevelPlacement,
    links: Seq<NeighbourLink>,
    k: int,
)
    requires
        0 <= k <= links.len(),
        links_result(levels, level, links.take(k)) is Err,
    ensures
        forall|m: int|
            k <= m <= links.len() ==> #[trigger] links_result(levels, level, links.take(m))
                == links_result(levels, level, links.take(k)),
    decreases links.len() - k,
{
    if k < links.len() {
        assert(links.take(k + 1).drop_last() =~= links.take(k));
        lemma_links_error_stays(levels, level, links, k + 1);
    }
}

/// The first level of a world holds exactly one player, the others none.
pub fn player_count_ok(level_index: usize, players: usize) -> (ok: bool)
    ensures
        ok == (if level_index == 0 {
            players == 1
        } else {
            players == 0
        }),
{
    if level_index == 0 {
        players == 1
    } else {
        players == 0
    }
}

} // verus!
