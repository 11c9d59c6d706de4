//! The text format of the generated level data: one line per level,
//! `world,level:matrix@colliders@neighbours`, where the matrix is written
//! column by column (`|` between columns, `;` between values), the colliders
//! polygon by polygon (`|` between polygons, `;` between vertices, `,`
//! between coordinates) and the four neighbours as `index,x,y` or `-`.
use vstd::prelude::*;
use crate::vector::{IVec2, polys_view, rows_view};

verus! {

/// The character of the decimal digit `d`.
pub open spec fn digit_char(d: int) -> char {
    (48 + d) as char
}

/// The decimal notation of `n`, without sign or leading zeros.
pub open spec fn decimal(n: nat) -> Seq<char>
    decreases n,
{
    if n < 10 {
        seq![digit_char(n as int)]
    } else {
        decimal(n / 10).push(digit_char((n % 10) as int))
    }
}

/// The decimal notation of `v`, with a `-` in front of negative values.
pub open spec fn signed_decimal(v: int) -> Seq<char> {
    if v < 0 {
        seq!['-'] + decimal((-v) as nat)
    } else {
        decimal(v as nat)
    }
}

/// The pieces written one after the other with `sep` between each two.
pub open spec fn join(pieces: Seq<Seq<char>>, sep: char) -> Seq<char>
    decreases pieces.len(),
{
    if pieces.len() == 0 {
        Seq::empty()
    } else if pieces.len() == 1 {
        pieces[0]
    } else {
        join(pieces.drop_last(), sep).push(sep) + pieces.last()
    }
}

/// One column of the grid matrix.
pub open spec fn row_text(row: Seq<u8>) -> Seq<char> {
    join(row.map_values(|u: u8| decimal(u as nat)), ';')
}

/// The grid matrix.
pub open spec fn grid_matrix_text(m: Seq<Seq<u8>>) -> Seq<char> {
    join(m.map_values(|r: Seq<u8>| row_text(r)), '|')
}

/// One vertex, `x,y`.
pub open spec fn vertex_text(v: IVec2) -> Seq<char> {
    signed_decimal(v.x as int).push(',') + signed_decimal(v.y as int)
}

/// One polygon.
pub open spec fn polygon_text(p: Seq<IVec2>) -> Seq<char> {
    join(p.map_values(|v: IVec2| vertex_text(v)), ';')
}

/// All collider polygons.
pub open spec fn colliders_text(ps: Seq<Seq<IVec2>>) -> Seq<char> {
    join(ps.map_values(|p: Seq<IVec2>| polygon_text(p)), '|')
}

/// One neighbour: its level index and offsets, or `-` for none.
pub open spec fn neighbour_text(n: Option<(usize, i32, i32)>) -> Seq<char> {
    match n {
        None => seq!['-'],
        Some((i, x, y)) => decimal(i as nat).push(',') + signed_decimal(x as int).push(',')
            + signed_decimal(y as int),
    }
}

/// The neighbours of a level, north, east, south and west.
pub open spec fn neighbours_text(ns: Seq<Option<(usize, i32, i32)>>) -> Seq<char> {
    join(ns.map_values(|n: Option<(usize, i32, i32)>| neighbour_text(n)), ';')
}

/// The line of one level.
pub open spec fn level_text(
    world: usize,
    level: usize,
    m: Seq<Seq<u8>>,
    ps: Seq<Seq<IVec2>>,
    ns: Seq<Option<(usize, i32, i32)>>,
) -> Seq<char> {
    decimal(world as nat).push(',') + decimal(level as nat).push(':') + grid_matrix_text(m).push(
        '@',
    ) + colliders_text(ps).push('@') + neighbours_text(ns)
}

proof fn lemma_join_push(pieces: Seq<Seq<char>>, p: Seq<char>, sep: char)
    requires
        pieces.len() >= 1,
    ensures
        join(pieces.push(p), sep) == join(pieces, sep).push(sep) + p,
{
    assert(pieces.push(p).drop_last() =~= pieces);
}

fn push_digit(s: &mut String, d: u64)
    requires
        d < 10,
    ensures
        final(s)@ == old(s)@.push(digit_char(d as int)),
{
    proof {
        reveal_strlit("0");
        reveal_strlit("1");
        reveal_strlit("2");
        reveal_strlit("3");
        reveal_strlit("4");
        reveal_strlit("5");
        reveal_strlit("6");
        reveal_strlit("7");
        reveal_strlit("8");
        reveal_strlit("9");
    }
    let ghost before = s@;
    match d {
        0 => s.append("0"),
        1 => s.append("1"),
        2 => s.append("2"),
        3 => s.append("3"),
        4 => s.append("4"),
        5 => s.append("5"),
        6 => s.append("6"),
        7 => s.append("7"),
        8 => s.append("8"),
        _ => s.append("9"),
    }
    assert(s@ =~= before.push(digit_char(d as int)));
}

fn push_decimal(s: &mut String, n: u64)
    ensures
        final(s)@ == old(s)@ + decimal(n as nat),
    decreases n,
{
    let ghost before = s@;
    if n >= 10 {
        push_decimal(s, n / 10);
    }
    push_digit(s, n % 10);
    assert(s@ =~= before + decimal(n as nat));
}

fn push_signed(s: &mut String, v: i64)
    ensures
        final(s)@ == old(s)@ + signed_decimal(v as int),
{
    proof {
        reveal_strlit("-");
    }
    let ghost before = s@;
    if v < 0 {
        s.append("-");
        let m: u64 = if v == i64::MIN {
            9223372036854775808u64
        } else {
            (-v) as u64
        };
        push_decimal(s, m);
        assert(s@ =~= before + signed_decimal(v as int));
    } else {
        push_decimal(s, v as u64);
    }
}

fn push_sep(s: &mut String, c: char)
    requires
        c == ';' || c == '|' || c == ',' || c == ':' || c == '@' || c == '\n',
    ensures
        final(s)@ == old(s)@.push(c),
{
    proof {
        reveal_strlit(";");
        reveal_strlit("|");
        reveal_strlit(",");
        reveal_strlit(":");
        reveal_strlit("@");
        reveal_strlit("\n");
    }
    let ghost before = s@;
    if c == ';' {
        s.append(";");
    } else if c == '|' {
        s.append("|");
    } else if c == ',' {
        s.append(",");
    } else if c == ':' {
        s.append(":");
    } else if c == '@' {
        s.append("@");
    } else {
        s.append("\n");
    }
    assert(s@ =~= before.push(c));
}

fn push_row(s: &mut String, row: &Vec<u8>)
    ensures
        final(s)@ == old(s)@ + row_text(row@),
{
    let ghost before = s@;
    let ghost f = |u: u8| decimal(u as nat);
    let mut j: usize = 0;
    while j < row.len()
        invariant
            j <= row.len(),
            f == (|u: u8| decimal(u as nat)),
            s@ == before + join(row@.take(j as int).map_values(f), ';'),
        decreases row.len() - j,
    {
        let ghost done = row@.take(j as int).map_values(f);
        assert(row@.take(j + 1).map_values(f) =~= done.push(f(row@[j as int])));
        if j > 0 {
            push_sep(s, ';');
            proof {
                lemma_join_push(done, f(row@[j as int]), ';');
            }
        } else {
            assert(done.push(f(row@[j as int])).len() == 1);
        }
        push_decimal(s, row[j] as u64);
        assert(s@ =~= before + join(row@.take(j + 1).map_values(f), ';'));
        j = j + 1;
    }
    assert(row@.take(j as int) =~= row@);
}

/// The grid matrix as text: columns separated by `|`, values by `;`.
pub fn serialize_grid_matrix(grid_matrix: &Vec<Vec<u8>>) -> (text: String)
    ensures
        text@ == grid_matrix_text(rows_view(grid_matrix@)),
{
    let mut s = String::new();
    let ghost m = rows_view(grid_matrix@);
    let ghost f = |r: Seq<u8>| row_text(r);
    let mut i: usize = 0;
    while i < grid_matrix.len()
        invariant
            i <= grid_matrix.len(),
            m == rows_view(grid_matrix@),
            f == (|r: Seq<u8>| row_text(r)),
            s@ == join(m.take(i as int).map_values(f), '|'),
        decreases grid_matrix.len() - i,
    {
        let ghost done = m.take(i as int).map_values(f);
        assert(m.take(i + 1).map_values(f) =~= done.push(f(m[i as int])));
        let ghost before = s@;
        if i > 0 {
            push_sep(&mut s, '|');
            proof {
                lemma_join_push(done, f(m[i as int]), '|');
            }
        } else {
            assert(done.push(f(m[i as int])).len() == 1);
            assert(before =~= Seq::<char>::empty());
        }
        push_row(&mut s, &grid_matrix[i]);
        assert(s@ =~= join(m.take(i + 1).map_values(f), '|'));
        i = i + 1;
    }
    assert(m.take(i as int) =~= m);
    s
}

fn push_vertex(s: &mut String, v: IVec2)
    ensures
        final(s)@ == old(s)@ + vertex_text(v),
{
    let ghost before = s@;
    push_signed(s, v.x as i64);
    push_sep(s, ',');
    push_signed(s, v.y as i64);
    assert(s@ =~= before + vertex_text(v));
}

fn push_polygon(s: &mut String, p: &Vec<IVec2>)
    ensures
        final(s)@ == old(s)@ + polygon_text(p@),
{
    let ghost before = s@;
    let ghost f = |v: IVec2| vertex_text(v);
    let mut j: usize = 0;
    while j < p.len()
        invariant
            j <= p.len(),
            f == (|v: IVec2| vertex_text(v)),
            s@ == before + join(p@.take(j as int).map_values(f), ';'),
        decreases p.len() - j,
    {
        let ghost done = p@.take(j as int).map_values(f);
        assert(p@.take(j + 1).map_values(f) =~= done.push(f(p@[j as int])));
        if j > 0 {
            push_sep(s, ';');
            proof {
                lemma_join_push(done, f(p@[j as int]), ';');
            }
        } else {
            assert(done.push(f(p@[j as int])).len() == 1);
        }
        push_vertex(s, p[j]);
        assert(s@ =~= before + join(p@.take(j + 1).map_values(f), ';'));
        j = j + 1;
    }
    assert(p@.take(j as int) =~= p@);
}

/// The collider polygons as text: polygons separated by `|`, vertices by
/// `;`, coordinates by `,`. There must be something to write: a level
/// without colliders is an error in the level data.
pub fn serialize_collider_polygons(polygons: &Vec<Vec<IVec2>>) -> (text: String)
    requires
        polygons.len() >= 2 || (polygons.len() == 1 && polygons[0].len() >= 1),
    ensures
        text@ == colliders_text(polys_view(polygons@)),
        text@.len() > 0,
{
    let mut s = String::new();
    let ghost m = polys_view(polygons@);
    let ghost f = |p: Seq<IVec2>| polygon_text(p);
    let mut i: usize = 0;
    while i < polygons.len()
        invariant
            i <= polygons.len(),
            m == polys_view(polygons@),
            f == (|p: Seq<IVec2>| polygon_text(p)),
            s@ == join(m.take(i as int).map_values(f), '|'),
            i >= 2 ==> s@.len() > 0,
            i >= 1 && m[0].len() >= 1 ==> s@.len() > 0,
        decreases polygons.len() - i,
    {
        let ghost done = m.take(i as int).map_values(f);
        assert(m.take(i + 1).map_values(f) =~= done.push(f(m[i as int])));
        let ghost before = s@;
        if i > 0 {
            push_sep(&mut s, '|');
            proof {
                lemma_join_push(done, f(m[i as int]), '|');
            }
        } else {
            assert(done.push(f(m[i as int])).len() == 1);
            assert(before =~= Seq::<char>::empty());
        }
        push_polygon(&mut s, &polygons[i]);
        proof {
            if i == 0 && m[0].len() >= 1 {
                let g = |v: IVec2| vertex_text(v);
                let vs = m[0].map_values(g);
                lemma_join_nonempty(vs, ';');
            }
        }
        assert(s@ =~= join(m.take(i + 1).map_values(f), '|'));
        i = i + 1;
    }
    assert(m.take(i as int) =~= m);
    s
}

/// A join of pieces whose first piece is non-empty is non-empty.
proof fn lemma_join_nonempty(pieces: Seq<Seq<char>>, sep: char)
    requires
        pieces.len() >= 1,
        forall|k: int| 0 <= k < pieces.len() ==> (#[trigger] pieces[k]).len() >= 1,
    ensures
        join(pieces, sep).len() >= 1,
    decreases pieces.len(),
{
    if pieces.len() > 1 {
        lemma_join_nonempty(pieces.drop_last(), sep);
    }
}

fn push_neighbour(s: &mut String, n: Option<(usize, i32, i32)>)
    ensures
        final(s)@ == old(s)@ + neighbour_text(n),
{
    proof {
        reveal_strlit("-");
    }
    let ghost before = s@;
    match n {
        None => {
            s.append("-");
        },
        Some((i, x, y)) => {
            push_decimal(s, i as u64);
            push_sep(s, ',');
            push_signed(s, x as i64);
            push_sep(s, ',');
            push_signed(s, y as i64);
        },
    }
    assert(s@ =~= before + neighbour_text(n));
}

/// The four neighbours of a level as text, `;` between them.
pub fn serialize_neighbours(neighbours: &[Option<(usize, i32, i32)>; 4]) -> (text: String)
    ensures
        text@ == neighbours_text(neighbours@),
{
    let mut s = String::new();
    let ghost ns = neighbours@;
    let ghost f = |n: Option<(usize, i32, i32)>| neighbour_text(n);
    let mut i: usize = 0;
    while i < 4
        invariant
            i <= 4,
            ns == neighbours@,
            ns.len() == 4,
            f == (|n: Option<(usize, i32, i32)>| neighbour_text(n)),
            s@ == join(ns.take(i as int).map_values(f), ';'),
        decreases 4 - i,
    {
        let ghost done = ns.take(i as int).map_values(f);
        assert(ns.take(i + 1).map_values(f) =~= done.push(f(ns[i as int])));
        let ghost before = s@;
        if i > 0 {
            push_sep(&mut s, ';');
            proof {
                lemma_join_push(done, f(ns[i as int]), ';');
            }
        } else {
            assert(done.push(f(ns[i as int])).len() == 1);
            assert(before =~= Seq::<char>::empty());
        }
        push_neighbour(&mut s, neighbours[i]);
        assert(s@ =~= join(ns.take(i + 1).map_values(f), ';'));
        i = i + 1;
    }
    assert(ns.take(4) =~= ns);
    s
}

/// The line of one level: `world,level:matrix@colliders@neighbours`.
pub fn serialize_level(
    world_index: usize,
    level_index: usize,
    grid_matrix: &Vec<Vec<u8>>,
    colliders: &Vec<Vec<IVec2>>,
    neighbours: &[Option<(usize, i32, i32)>; 4],
) -> (text: String)
    requires
        colliders.len() >= 2 || (colliders.len() == 1 && colliders[0].len() >= 1),
    ensures
        text@ == level_text(
            world_index,
            level_index,
            rows_view(grid_matrix@),
            polys_view(colliders@),
            neighbours@,
        ),
{
    let mut s = String::new();
    push_decimal(&mut s, world_index as u64);
    push_sep(&mut s, ',');
    push_decimal(&mut s, level_index as u64);
    push_sep(&mut s, ':');
    let m = serialize_grid_matrix(grid_matrix);
    s.append(m.as_str());
    push_sep(&mut s, '@');
    let c = serialize_collider_polygons(colliders);
    s.append(c.as_str());
    push_sep(&mut s, '@');
    let n = serialize_neighbours(neighbours);
    s.append(n.as_str());
    assert(s@ =~= level_text(
        world_index,
        level_index,
        rows_view(grid_matrix@),
        polys_view(colliders@),
        neighbours@,
    ));
    s
}

/// The lines of all levels, joined by line breaks.
pub fn join_lines(lines: &Vec<String>) -> (text: String)
    ensures
        text@ == join(lines@.map_values(|l: String| l@), '\n'),
{
    let mut s = String::new();
    let ghost ls = lines@.map_values(|l: String| l@);
    let mut i: usize = 0;
    while i < lines.len()
        invariant
            i <= lines.len(),
            ls == lines@.map_values(|l: String| l@),
            s@ == join(ls.take(i as int), '\n'),
        decreases lines.len() - i,
    {
        let ghost done = ls.take(i as int);
        assert(ls.take(i + 1) =~= done.push(ls[i as int]));
        let ghost before = s@;
        if i > 0 {
            push_sep(&mut s, '\n');
            proof {
                lemma_join_push(done, ls[i as int], '\n');
            }
        } else {
            assert(done.push(ls[i as int]).len() == 1);
            assert(before =~= Seq::<char>::empty());
        }
        s.append(lines[i].as_str());
        assert(s@ =~= join(ls.take(i + 1), '\n'));
        i = i + 1;
    }
    assert(ls.take(i as int) =~= ls);
    s
}

/// The pieces of `s` between the occurrences of `sep` (one piece more than
/// there are separators; the empty text is one empty piece).
pub open spec fn split(s: Seq<char>, sep: char) -> Seq<Seq<char>>
    decreases s.len(),
{
    if s.len() == 0 {
        seq![Seq::empty()]
    } else {
        let rest = split(s.drop_last(), sep);
        if s.last() == sep {
            rest.push(Seq::empty())
        } else {
            rest.update(rest.len() - 1, rest.last().push(s.last()))
        }
    }
}

/// A line without the carriage return that ended it, if any.
pub open spec fn strip_cr(p: Seq<char>) -> Seq<char> {
    if p.len() > 0 && p.last() == '\r' {
        p.drop_last()
    } else {
        p
    }
}

/// The lines of `s`: split at line feeds, a carriage return before a line
/// feed dropped, and no empty line after a final line feed.
pub open spec fn lines(s: Seq<char>) -> Seq<Seq<char>> {
    let parts = split(s, '\n');
    let ended = parts.drop_last().map_values(|p: Seq<char>| strip_cr(p));
    if s.len() == 0 || s.last() == '\n' {
        ended
    } else {
        ended.push(parts.last())
    }
}

pub open spec fn is_digit(c: char) -> bool {
    '0' <= c && c <= '9'
}

/// The value of a string of decimal digits.
pub open spec fn digits_value(s: Seq<char>) -> nat
    decreases s.len(),
{
    if s.len() == 0 {
        0
    } else {
        digits_value(s.drop_last()) * 10 + ((s.last() as int) - 48) as nat
    }
}

/// `s` is a non-empty string of decimal digits.
pub open spec fn is_digits(s: Seq<char>) -> bool {
    s.len() > 0 && forall|i: int| 0 <= i < s.len() ==> is_digit(#[trigger] s[i])
}

/// The value of the digits `s`, if it is at most `max`.
pub open spec fn parse_digits(s: Seq<char>, max: nat) -> Option<nat> {
    if is_digits(s) && digits_value(s) <= max {
        Some(digits_value(s))
    } else {
        None
    }
}

/// An unsigned integer of at most `max`: an optional `+` and decimal digits.
pub open spec fn parse_unsigned(s: Seq<char>, max: nat) -> Option<nat> {
    if s.len() > 0 && s[0] == '+' {
        parse_digits(s.drop_first(), max)
    } else {
        parse_digits(s, max)
    }
}

/// A signed integer in `min..=max`: an optional `+` or `-` and decimal digits.
pub open spec fn parse_signed(s: Seq<char>, min: int, max: nat) -> Option<int> {
    if s.len() > 0 && s[0] == '-' {
        match parse_digits(s.drop_first(), (-min) as nat) {
            Some(m) => Some(-m),
            None => None,
        }
    } else {
        match parse_unsigned(s, max) {
            Some(v) => Some(v as int),
            None => None,
        }
    }
}

/// A coordinate: a signed integer that fits in `i32`.
pub open spec fn coord(s: Seq<char>) -> Option<int> {
    parse_signed(s, i32::MIN as int, i32::MAX as nat)
}

/// A grid value: an unsigned integer that fits in `u8`.
pub open spec fn byte(s: Seq<char>) -> Option<nat> {
    parse_unsigned(s, u8::MAX as nat)
}

/// An index: an unsigned integer that fits in `usize`.
pub open spec fn index(s: Seq<char>) -> Option<nat> {
    parse_unsigned(s, usize::MAX as nat)
}

pub open spec fn row_ok(s: Seq<char>) -> bool {
    forall|j: int| 0 <= j < split(s, ';').len() ==> #[trigger] byte(split(s, ';')[j]) is Some
}

pub open spec fn row_value(s: Seq<char>) -> Seq<u8> {
    split(s, ';').map_values(|t: Seq<char>| byte(t)->0 as u8)
}

pub open spec fn grid_matrix_ok(s: Seq<char>) -> bool {
    forall|i: int| 0 <= i < split(s, '|').len() ==> row_ok(#[trigger] split(s, '|')[i])
}

pub open spec fn grid_matrix_value(s: Seq<char>) -> Seq<Seq<u8>> {
    split(s, '|').map_values(|t: Seq<char>| row_value(t))
}

pub open spec fn vertex_ok(s: Seq<char>) -> bool {
    let parts = split(s, ',');
    parts.len() == 2 && coord(parts[0]) is Some && coord(parts[1]) is Some
}

pub open spec fn vertex_value(s: Seq<char>) -> IVec2 {
    let parts = split(s, ',');
    IVec2 { x: coord(parts[0])->0 as i32, y: coord(parts[1])->0 as i32 }
}

pub open spec fn polygon_ok(s: Seq<char>) -> bool {
    forall|j: int| 0 <= j < split(s, ';').len() ==> vertex_ok(#[trigger] split(s, ';')[j])
}

pub open spec fn polygon_value(s: Seq<char>) -> Seq<IVec2> {
    split(s, ';').map_values(|t: Seq<char>| vertex_value(t))
}

pub open spec fn colliders_ok(s: Seq<char>) -> bool {
    forall|i: int| 0 <= i < split(s, '|').len() ==> polygon_ok(#[trigger] split(s, '|')[i])
}

pub open spec fn colliders_value(s: Seq<char>) -> Seq<Seq<IVec2>> {
    split(s, '|').map_values(|t: Seq<char>| polygon_value(t))
}

pub open spec fn neighbour_ok(s: Seq<char>) -> bool {
    let parts = split(s, ',');
    s == seq!['-'] || (parts.len() == 3 && index(parts[0]) is Some && coord(parts[1]) is Some
        && coord(parts[2]) is Some)
}

pub open spec fn neighbour_value(s: Seq<char>) -> Option<(usize, i32, i32)> {
    let parts = split(s, ',');
    if s == seq!['-'] {
        None
    } else {
        Some((index(parts[0])->0 as usize, coord(parts[1])->0 as i32, coord(parts[2])->0 as i32))
    }
}

pub open spec fn neighbours_ok(s: Seq<char>) -> bool {
    split(s, ';').len() == 4 && forall|i: int|
        0 <= i < 4 ==> neighbour_ok(#[trigger] split(s, ';')[i])
}

pub open spec fn neighbours_value(s: Seq<char>) -> Seq<Option<(usize, i32, i32)>> {
    split(s, ';').map_values(|t: Seq<char>| neighbour_value(t))
}

pub open spec fn keys_ok(s: Seq<char>) -> bool {
    split(s, ',').len() >= 2 && forall|k: int|
        0 <= k < split(s, ',').len() ==> #[trigger] index(split(s, ',')[k]) is Some
}

/// A level line can be read.
pub open spec fn level_ok(line: Seq<char>) -> bool {
    let parts = split(line, '@');
    let first = split(parts[0], ':');
    &&& parts.len() == 3
    &&& first.len() == 2
    &&& keys_ok(first[0])
    &&& grid_matrix_ok(first[1])
    &&& colliders_ok(parts[1])
    &&& neighbours_ok(parts[2])
}

/// What a level line holds: its world and level index, grid matrix,
/// collider polygons and neighbours.
pub open spec fn level_value(line: Seq<char>) -> (
    (usize, usize),
    Seq<Seq<u8>>,
    Seq<Seq<IVec2>>,
    Seq<Option<(usize, i32, i32)>>,
) {
    let parts = split(line, '@');
    let first = split(parts[0], ':');
    let keys = split(first[0], ',');
    (
        (index(keys[0])->0 as usize, index(keys[1])->0 as usize),
        grid_matrix_value(first[1]),
        colliders_value(parts[1]),
        neighbours_value(parts[2]),
    )
}

/// Every line of the text is a level line.
pub open spec fn world_ok(s: Seq<char>) -> bool {
    forall|i: int| 0 <= i < lines(s).len() ==> level_ok(#[trigger] lines(s)[i])
}

/// The levels of the text, line by line.
pub open spec fn world_value(s: Seq<char>) -> Seq<
    ((usize, usize), Seq<Seq<u8>>, Seq<Seq<IVec2>>, Seq<Option<(usize, i32, i32)>>),
> {
    lines(s).map_values(|l: Seq<char>| level_value(l))
}

/// The level data held by a read level.
pub open spec fn level_view(
    l: ((usize, usize), Vec<Vec<u8>>, Vec<Vec<IVec2>>, [Option<(usize, i32, i32)>; 4]),
) -> ((usize, usize), Seq<Seq<u8>>, Seq<Seq<IVec2>>, Seq<Option<(usize, i32, i32)>>) {
    (l.0, rows_view(l.1@), polys_view(l.2@), l.3@)
}

/// The texts of the given ranges of `c`.
pub open spec fn range_texts(c: Seq<char>, r: Seq<(usize, usize)>) -> Seq<Seq<char>> {
    r.map_values(|p: (usize, usize)| c.subrange(p.0 as int, p.1 as int))
}

/// The ranges lie within `lo..hi`.
pub open spec fn ranges_within(r: Seq<(usize, usize)>, lo: int, hi: int) -> bool {
    forall|k: int| 0 <= k < r.len() ==> lo <= (#[trigger] r[k]).0 <= r[k].1 <= hi
}

/// Splitting gives at least one piece.
pub proof fn lemma_split_nonempty(s: Seq<char>, sep: char)
    ensures
        split(s, sep).len() >= 1,
    decreases s.len(),
{
    if s.len() > 0 {
        lemma_split_nonempty(s.drop_last(), sep);
    }
}

pub(crate) fn chars_of(s: &str) -> (v: Vec<char>)
    ensures
        v@ == s@,
{
    broadcast use vstd::string::axiom_spec_iter;

    let mut v: Vec<char> = Vec::new();
    for c in it: s.chars()
        invariant
            v@ == it.seq().take(it.index() as int),
            it.seq() == s@,
    {
        v.push(c);
    }
    v
}

/// The ranges of the pieces of `c[lo..hi]` between occurrences of `sep`.
fn split_ranges(c: &Vec<char>, lo: usize, hi: usize, sep: char) -> (r: Vec<(usize, usize)>)
    requires
        lo <= hi <= c.len(),
    ensures
        range_texts(c@, r@) == split(c@.subrange(lo as int, hi as int), sep),
        ranges_within(r@, lo as int, hi as int),
{
    let mut r: Vec<(usize, usize)> = Vec::new();
    let mut start = lo;
    let mut i = lo;
    assert(c@.subrange(lo as int, lo as int) =~= Seq::<char>::empty());
    assert(range_texts(c@, r@).push(c@.subrange(lo as int, lo as int)) =~= seq![
        Seq::<char>::empty(),
    ]);
    while i < hi
        invariant
            lo <= start <= i <= hi <= c.len(),
            ranges_within(r@, lo as int, start as int),
            split(c@.subrange(lo as int, i as int), sep) == range_texts(c@, r@).push(
                c@.subrange(start as int, i as int),
            ),
        decreases hi - i,
    {
        let ghost sub = c@.subrange(lo as int, i + 1);
        assert(sub.drop_last() =~= c@.subrange(lo as int, i as int));
        if c[i] == sep {
            r.push((start, i));
            assert(range_texts(c@, r@) =~= range_texts(c@, r@.drop_last()).push(
                c@.subrange(start as int, i as int),
            ));
            assert(c@.subrange((i + 1) as int, (i + 1) as int) =~= Seq::<char>::empty());
            start = i + 1;
        } else {
            assert(c@.subrange(start as int, i + 1) =~= c@.subrange(start as int, i as int).push(
                c@[i as int],
            ));
        }
        assert(split(sub, sep) =~= range_texts(c@, r@).push(c@.subrange(start as int, i + 1)));
        i = i + 1;
    }
    let ghost before = range_texts(c@, r@);
    r.push((start, hi));
    assert(range_texts(c@, r@) =~= before.push(c@.subrange(start as int, hi as int)));
    r
}

/// The value of the digits `c[lo..hi]`: `None` unless there is at least one
/// character, all are decimal digits and the value is at most `max`.
fn parse_digits_range(c: &Vec<char>, lo: usize, hi: usize, max: u64) -> (r: Option<u64>)
    requires
        lo <= hi <= c.len(),
    ensures
        match r {
            Some(v) => parse_digits(c@.subrange(lo as int, hi as int), max as nat) == Some(v as nat),
            None => parse_digits(c@.subrange(lo as int, hi as int), max as nat) is None,
        },
{
    if lo == hi {
        return None;
    }
    let cap: u128 = max as u128 + 1;
    let mut v: u128 = 0;
    let mut i = lo;
    assert(c@.subrange(lo as int, lo as int) =~= Seq::<char>::empty());
    while i < hi
        invariant
            lo <= i <= hi <= c.len(),
            cap == max + 1,
            forall|j: int| lo <= j < i ==> is_digit(#[trigger] c@[j]),
            v == (if digits_value(c@.subrange(lo as int, i as int)) < cap {
                digits_value(c@.subrange(lo as int, i as int))
            } else {
                cap as nat
            }),
        decreases hi - i,
    {
        let ch = c[i];
        let ghost pre = c@.subrange(lo as int, i as int);
        let ghost sub = c@.subrange(lo as int, i + 1);
        assert(sub.drop_last() =~= pre);
        if !('0' <= ch && ch <= '9') {
            assert(!is_digit(c@.subrange(lo as int, hi as int)[i - lo]));
            return None;
        }
        let d: u128 = (ch as u32 - 48) as u128;
        assert(digits_value(sub) == digits_value(pre) * 10 + d);
        v = v * 10 + d;
        if v > cap {
            v = cap;
        }
        i = i + 1;
    }
    let ghost all = c@.subrange(lo as int, hi as int);
    assert forall|j: int| 0 <= j < all.len() implies is_digit(#[trigger] all[j]) by {
        assert(all[j] == c@[lo + j]);
    }
    if v > max as u128 {
        None
    } else {
        Some(v as u64)
    }
}

/// An unsigned integer of at most `max` in `c[lo..hi]`.
fn parse_unsigned_range(c: &Vec<char>, lo: usize, hi: usize, max: u64) -> (r: Option<u64>)
    requires
        lo <= hi <= c.len(),
    ensures
        match r {
            Some(v) => parse_unsigned(c@.subrange(lo as int, hi as int), max as nat) == Some(
                v as nat,
            ),
            None => parse_unsigned(c@.subrange(lo as int, hi as int), max as nat) is None,
        },
{
    let ghost sub = c@.subrange(lo as int, hi as int);
    if lo < hi && c[lo] == '+' {
        assert(sub.drop_first() =~= c@.subrange(lo + 1, hi as int));
        parse_digits_range(c, lo + 1, hi, max)
    } else {
        parse_digits_range(c, lo, hi, max)
    }
}

/// A grid value in `c[lo..hi]`.
fn parse_byte_range(c: &Vec<char>, lo: usize, hi: usize) -> (r: Option<u8>)
    requires
        lo <= hi <= c.len(),
    ensures
        match r {
            Some(v) => byte(c@.subrange(lo as int, hi as int)) == Some(v as nat),
            None => byte(c@.subrange(lo as int, hi as int)) is None,
        },
{
    match parse_unsigned_range(c, lo, hi, 255) {
        Some(v) => Some(v as u8),
        None => None,
    }
}

/// An index in `c[lo..hi]`.
fn parse_index_range(c: &Vec<char>, lo: usize, hi: usize) -> (r: Option<usize>)
    requires
        lo <= hi <= c.len(),
    ensures
        match r {
            Some(v) => index(c@.subrange(lo as int, hi as int)) == Some(v as nat),
            None => index(c@.subrange(lo as int, hi as int)) is None,
        },
{
    match parse_unsigned_range(c, lo, hi, usize::MAX as u64) {
        Some(v) => Some(v as usize),
        None => None,
    }
}

/// A coordinate in `c[lo..hi]`.
fn parse_coord_range(c: &Vec<char>, lo: usize, hi: usize) -> (r: Option<i32>)
    requires
        lo <= hi <= c.len(),
    ensures
        match r {
            Some(v) => coord(c@.subrange(lo as int, hi as int)) == Some(v as int),
            None => coord(c@.subrange(lo as int, hi as int)) is None,
        },
{
    let ghost sub = c@.subrange(lo as int, hi as int);
    if lo < hi && c[lo] == '-' {
        assert(sub.drop_first() =~= c@.subrange(lo + 1, hi as int));
        match parse_digits_range(c, lo + 1, hi, 2147483648) {
            Some(m) => Some((-(m as i64)) as i32),
            None => None,
        }
    } else {
        match parse_unsigned_range(c, lo, hi, 2147483647) {
            Some(v) => Some(v as i32),
            None => None,
        }
    }
}

/// One column of the grid matrix in `c[lo..hi]`.
fn parse_row(c: &Vec<char>, lo: usize, hi: usize) -> (r: Option<Vec<u8>>)
    requires
        lo <= hi <= c.len(),
    ensures
        match r {
            Some(v) => row_ok(c@.subrange(lo as int, hi as int)) && v@ == row_value(
                c@.subrange(lo as int, hi as int),
            ),
            None => !row_ok(c@.subrange(lo as int, hi as int)),
        },
{
    let ghost sub = c@.subrange(lo as int, hi as int);
    let rs = split_ranges(c, lo, hi, ';');
    let ghost parts = split(sub, ';');
    let mut out: Vec<u8> = Vec::new();
    let mut k: usize = 0;
    while k < rs.len()
        invariant
            k <= rs.len(),
            hi <= c.len(),
            lo <= hi,
            range_texts(c@, rs@) == parts,
            parts == split(c@.subrange(lo as int, hi as int), ';'),
            ranges_within(rs@, lo as int, hi as int),
            forall|j: int| 0 <= j < k ==> #[trigger] byte(parts[j]) is Some,
            out@ == parts.take(k as int).map_values(|t: Seq<char>| byte(t)->0 as u8),
        decreases rs.len() - k,
    {
        let (a, b) = rs[k];
        assert(parts[k as int] == c@.subrange(a as int, b as int));
        match parse_byte_range(c, a, b) {
            None => {
                assert(!(byte(parts[k as int]) is Some));
                assert(k < parts.len());
                assert(!row_ok(c@.subrange(lo as int, hi as int)));
                return None;
            },
            Some(v) => {
                out.push(v);
            },
        }
        assert(out@ =~= parts.take(k + 1).map_values(|t: Seq<char>| byte(t)->0 as u8));
        k = k + 1;
    }
    assert(parts.take(k as int) =~= parts);
    assert(out@ =~= row_value(sub));
    Some(out)
}

/// The grid matrix in `c[lo..hi]`.
fn parse_grid_matrix(c: &Vec<char>, lo: usize, hi: usize) -> (r: Option<Vec<Vec<u8>>>)
    requires
        lo <= hi <= c.len(),
    ensures
        match r {
            Some(v) => grid_matrix_ok(c@.subrange(lo as int, hi as int)) && rows_view(v@)
                == grid_matrix_value(c@.subrange(lo as int, hi as int)),
            None => !grid_matrix_ok(c@.subrange(lo as int, hi as int)),
        },
{
    let ghost sub = c@.subrange(lo as int, hi as int);
    let rs = split_ranges(c, lo, hi, '|');
    let ghost parts = split(sub, '|');
    let mut out: Vec<Vec<u8>> = Vec::new();
    let mut k: usize = 0;
    while k < rs.len()
        invariant
            k <= rs.len(),
            hi <= c.len(),
            lo <= hi,
            range_texts(c@, rs@) == parts,
            parts == split(c@.subrange(lo as int, hi as int), '|'),
            ranges_within(rs@, lo as int, hi as int),
            forall|j: int| 0 <= j < k ==> row_ok(#[trigger] parts[j]),
            rows_view(out@) == parts.take(k as int).map_values(|t: Seq<char>| row_value(t)),
        decreases rs.len() - k,
    {
        let (a, b) = rs[k];
        assert(parts[k as int] == c@.subrange(a as int, b as int));
        match parse_row(c, a, b) {
            None => {
                assert(!(row_ok(parts[k as int])));
                assert(k < parts.len());
                assert(!grid_matrix_ok(c@.subrange(lo as int, hi as int)));
                return None;
            },
            Some(v) => {
                let ghost prev = out@;
                out.push(v);
                assert(rows_view(out@) =~= rows_view(prev).push(v@));
            },
        }
        assert(rows_view(out@) =~= parts.take(k + 1).map_values(|t: Seq<char>| row_value(t)));
        k = k + 1;
    }
    assert(parts.take(k as int) =~= parts);
    assert(rows_view(out@) =~= grid_matrix_value(sub));
    Some(out)
}

/// One vertex in `c[lo..hi]`.
fn parse_vertex(c: &Vec<char>, lo: usize, hi: usize) -> (r: Option<IVec2>)
    requires
        lo <= hi <= c.len(),
    ensures
        match r {
            Some(v) => vertex_ok(c@.subrange(lo as int, hi as int)) && v == vertex_value(
                c@.subrange(lo as int, hi as int),
            ),
            None => !vertex_ok(c@.subrange(lo as int, hi as int)),
        },
{
    let ghost sub = c@.subrange(lo as int, hi as int);
    let rs = split_ranges(c, lo, hi, ',');
    let ghost parts = split(sub, ',');
    if rs.len() != 2 {
        return None;
    }
    let (a0, b0) = rs[0];
    let (a1, b1) = rs[1];
    assert(parts[0] == c@.subrange(a0 as int, b0 as int));
    assert(parts[1] == c@.subrange(a1 as int, b1 as int));
    let x = match parse_coord_range(c, a0, b0) {
        Some(x) => x,
        None => {
            return None;
        },
    };
    let y = match parse_coord_range(c, a1, b1) {
        Some(y) => y,
        None => {
            return None;
        },
    };
    Some(IVec2 { x, y })
}

/// One polygon in `c[lo..hi]`.
fn parse_polygon(c: &Vec<char>, lo: usize, hi: usize) -> (r: Option<Vec<IVec2>>)
    requires
        lo <= hi <= c.len(),
    ensures
        match r {
            Some(v) => polygon_ok(c@.subrange(lo as int, hi as int)) && v@ == polygon_value(
                c@.subrange(lo as int, hi as int),
            ),
            None => !polygon_ok(c@.subrange(lo as int, hi as int)),
        },
{
    let ghost sub = c@.subrange(lo as int, hi as int);
    let rs = split_ranges(c, lo, hi, ';');
    let ghost parts = split(sub, ';');
    let mut out: Vec<IVec2> = Vec::new();
    let mut k: usize = 0;
    while k < rs.len()
        invariant
            k <= rs.len(),
            hi <= c.len(),
            lo <= hi,
            range_texts(c@, rs@) == parts,
            parts == split(c@.subrange(lo as int, hi as int), ';'),
            ranges_within(rs@, lo as int, hi as int),
            forall|j: int| 0 <= j < k ==> vertex_ok(#[trigger] parts[j]),
            out@ == parts.take(k as int).map_values(|t: Seq<char>| vertex_value(t)),
        decreases rs.len() - k,
    {
        let (a, b) = rs[k];
        assert(parts[k as int] == c@.subrange(a as int, b as int));
        match parse_vertex(c, a, b) {
            None => {
                assert(!(vertex_ok(parts[k as int])));
                assert(k < parts.len());
                assert(!polygon_ok(c@.subrange(lo as int, hi as int)));
                return None;
            },
            Some(v) => {
                out.push(v);
            },
        }
        assert(out@ =~= parts.take(k + 1).map_values(|t: Seq<char>| vertex_value(t)));
        k = k + 1;
    }
    assert(parts.take(k as int) =~= parts);
    assert(out@ =~= polygon_value(sub));
    Some(out)
}

/// The collider polygons in `c[lo..hi]`.
fn parse_colliders(c: &Vec<char>, lo: usize, hi: usize) -> (r: Option<Vec<Vec<IVec2>>>)
    requires
        lo <= hi <= c.len(),
    ensures
        match r {
            Some(v) => colliders_ok(c@.subrange(lo as int, hi as int)) && polys_view(v@)
                == colliders_value(c@.subrange(lo as int, hi as int)),
            None => !colliders_ok(c@.subrange(lo as int, hi as int)),
        },
{
    let ghost sub = c@.subrange(lo as int, hi as int);
    let rs = split_ranges(c, lo, hi, '|');
    let ghost parts = split(sub, '|');
    let mut out: Vec<Vec<IVec2>> = Vec::new();
    let mut k: usize = 0;
    while k < rs.len()
        invariant
            k <= rs.len(),
            hi <= c.len(),
            lo <= hi,
            range_texts(c@, rs@) == parts,
            parts == split(c@.subrange(lo as int, hi as int), '|'),
            ranges_within(rs@, lo as int, hi as int),
            forall|j: int| 0 <= j < k ==> polygon_ok(#[trigger] parts[j]),
            polys_view(out@) == parts.take(k as int).map_values(|t: Seq<char>| polygon_value(t)),
        decreases rs.len() - k,
    {
        let (a, b) = rs[k];
        assert(parts[k as int] == c@.subrange(a as int, b as int));
        match parse_polygon(c, a, b) {
            None => {
                assert(!(polygon_ok(parts[k as int])));
                assert(k < parts.len());
                assert(!colliders_ok(c@.subrange(lo as int, hi as int)));
                return None;
            },
            Some(v) => {
                let ghost prev = out@;
                out.push(v);
                assert(polys_view(out@) =~= polys_view(prev).push(v@));
            },
        }
        assert(polys_view(out@) =~= parts.take(k + 1).map_values(
            |t: Seq<char>| polygon_value(t),
        ));
        k = k + 1;
    }
    assert(parts.take(k as int) =~= parts);
    assert(polys_view(out@) =~= colliders_value(sub));
    Some(out)
}

/// One neighbour in `c[lo..hi]`.
fn parse_neighbour(c: &Vec<char>, lo: usize, hi: usize) -> (r: Option<Option<(usize, i32, i32)>>)
    requires
        lo <= hi <= c.len(),
    ensures
        match r {
            Some(n) => neighbour_ok(c@.subrange(lo as int, hi as int)) && n == neighbour_value(
                c@.subrange(lo as int, hi as int),
            ),
            None => !neighbour_ok(c@.subrange(lo as int, hi as int)),
        },
{
    let ghost sub = c@.subrange(lo as int, hi as int);
    if hi > lo && hi - lo == 1 && c[lo] == '-' {
        assert(sub =~= seq!['-']);
        return Some(None);
    }
    assert(sub != seq!['-']) by {
        if sub == seq!['-'] {
            assert(sub.len() == 1);
            assert(sub[0] == c@[lo as int]);
        }
    }
    let rs = split_ranges(c, lo, hi, ',');
    let ghost parts = split(sub, ',');
    if rs.len() != 3 {
        return None;
    }
    let (a0, b0) = rs[0];
    let (a1, b1) = rs[1];
    let (a2, b2) = rs[2];
    assert(parts[0] == c@.subrange(a0 as int, b0 as int));
    assert(parts[1] == c@.subrange(a1 as int, b1 as int));
    assert(parts[2] == c@.subrange(a2 as int, b2 as int));
    let i = match parse_index_range(c, a0, b0) {
        Some(i) => i,
        None => {
            return None;
        },
    };
    let x = match parse_coord_range(c, a1, b1) {
        Some(x) => x,
        None => {
            return None;
        },
    };
    let y = match parse_coord_range(c, a2, b2) {
        Some(y) => y,
        None => {
            return None;
        },
    };
    Some(Some((i, x, y)))
}

/// The four neighbours in `c[lo..hi]`.
fn parse_neighbours(c: &Vec<char>, lo: usize, hi: usize) -> (r: Option<
    [Option<(usize, i32, i32)>; 4],
>)
    requires
        lo <= hi <= c.len(),
    ensures
        match r {
            Some(n) => neighbours_ok(c@.subrange(lo as int, hi as int)) && n@ == neighbours_value(
                c@.subrange(lo as int, hi as int),
            ),
            None => !neighbours_ok(c@.subrange(lo as int, hi as int)),
        },
{
    let ghost sub = c@.subrange(lo as int, hi as int);
    let rs = split_ranges(c, lo, hi, ';');
    let ghost parts = split(sub, ';');
    if rs.len() != 4 {
        return None;
    }
    let mut found: Vec<Option<(usize, i32, i32)>> = Vec::new();
    let mut k: usize = 0;
    while k < 4
        invariant
            k <= 4,
            rs@.len() == 4,
            hi <= c.len(),
            lo <= hi,
            range_texts(c@, rs@) == parts,
            parts == split(c@.subrange(lo as int, hi as int), ';'),
            ranges_within(rs@, lo as int, hi as int),
            forall|j: int| 0 <= j < k ==> neighbour_ok(#[trigger] parts[j]),
            found@ == parts.take(k as int).map_values(|t: Seq<char>| neighbour_value(t)),
        decreases 4 - k,
    {
        let (a, b) = rs[k];
        assert(parts[k as int] == c@.subrange(a as int, b as int));
        match parse_neighbour(c, a, b) {
            None => {
                assert(!(neighbour_ok(parts[k as int])));
                assert(k < parts.len());
                assert(!neighbours_ok(c@.subrange(lo as int, hi as int)));
                return None;
            },
            Some(n) => {
                found.push(n);
            },
        }
        assert(found@ =~= parts.take(k + 1).map_values(|t: Seq<char>| neighbour_value(t)));
        k = k + 1;
    }
    assert(parts.take(4) =~= parts);
    let n = [found[0], found[1], found[2], found[3]];
    assert(n@ =~= neighbours_value(sub));
    Some(n)
}

/// The two leading keys (world and level index) in `c[lo..hi]`.
fn parse_keys(c: &Vec<char>, lo: usize, hi: usize) -> (r: Option<(usize, usize)>)
    requires
        lo <= hi <= c.len(),
    ensures
        match r {
            Some(k) => keys_ok(c@.subrange(lo as int, hi as int)) && k == (
                index(split(c@.subrange(lo as int, hi as int), ',')[0])->0 as usize,
                index(split(c@.subrange(lo as int, hi as int), ',')[1])->0 as usize,
            ),
            None => !keys_ok(c@.subrange(lo as int, hi as int)),
        },
{
    let rs = split_ranges(c, lo, hi, ',');
    let ghost parts = split(c@.subrange(lo as int, hi as int), ',');
    let mut keys: Vec<usize> = Vec::new();
    let mut k: usize = 0;
    while k < rs.len()
        invariant
            k <= rs.len(),
            lo <= hi <= c.len(),
            range_texts(c@, rs@) == parts,
            parts == split(c@.subrange(lo as int, hi as int), ','),
            ranges_within(rs@, lo as int, hi as int),
            forall|j: int| 0 <= j < k ==> #[trigger] index(parts[j]) is Some,
            keys@.len() == k,
            forall|j: int| 0 <= j < k ==> index(parts[j]) == Some(#[trigger] keys@[j] as nat),
        decreases rs.len() - k,
    {
        let (a, b) = rs[k];
        assert(parts[k as int] == c@.subrange(a as int, b as int));
        match parse_index_range(c, a, b) {
            None => {
                assert(k < parts.len());
                assert(!(index(parts[k as int]) is Some));
                assert(!keys_ok(c@.subrange(lo as int, hi as int)));
                return None;
            },
            Some(v) => {
                keys.push(v);
            },
        }
        k = k + 1;
    }
    if keys.len() < 2 {
        return None;
    }
    assert(index(parts[0]) == Some(keys@[0] as nat));
    assert(index(parts[1]) == Some(keys@[1] as nat));
    Some((keys[0], keys[1]))
}

/// One level line in `c[lo..hi]`.
fn parse_level(c: &Vec<char>, lo: usize, hi: usize) -> (r: Option<
    ((usize, usize), Vec<Vec<u8>>, Vec<Vec<IVec2>>, [Option<(usize, i32, i32)>; 4]),
>)
    requires
        lo <= hi <= c.len(),
    ensures
        match r {
            Some(l) => level_ok(c@.subrange(lo as int, hi as int)) && level_view(l) == level_value(
                c@.subrange(lo as int, hi as int),
            ),
            None => !level_ok(c@.subrange(lo as int, hi as int)),
        },
{
    let ghost line = c@.subrange(lo as int, hi as int);
    let rs = split_ranges(c, lo, hi, '@');
    let ghost parts = split(line, '@');
    if rs.len() != 3 {
        return None;
    }
    let (a0, b0) = rs[0];
    let (a1, b1) = rs[1];
    let (a2, b2) = rs[2];
    assert(parts[0] == c@.subrange(a0 as int, b0 as int));
    assert(parts[1] == c@.subrange(a1 as int, b1 as int));
    assert(parts[2] == c@.subrange(a2 as int, b2 as int));
    let fs = split_ranges(c, a0, b0, ':');
    let ghost first = split(parts[0], ':');
    if fs.len() != 2 {
        return None;
    }
    let (f0, g0) = fs[0];
    let (f1, g1) = fs[1];
    assert(first[0] == c@.subrange(f0 as int, g0 as int));
    assert(first[1] == c@.subrange(f1 as int, g1 as int));
    let keys = match parse_keys(c, f0, g0) {
        Some(k) => k,
        None => {
            return None;
        },
    };
    let matrix = match parse_grid_matrix(c, f1, g1) {
        Some(m) => m,
        None => {
            return None;
        },
    };
    let colliders = match parse_colliders(c, a1, b1) {
        Some(p) => p,
        None => {
            return None;
        },
    };
    let neighbours = match parse_neighbours(c, a2, b2) {
        Some(n) => n,
        None => {
            return None;
        },
    };
    Some((keys, matrix, colliders, neighbours))
}

/// The range of line `k` of the line-feed pieces `rs` of `c`: the piece
/// without a carriage return before its line feed.
fn line_range(c: &Vec<char>, rs: &Vec<(usize, usize)>, k: usize) -> (r: (usize, usize))
    requires
        k + 1 < rs.len(),
        ranges_within(rs@, 0, c.len() as int),
    ensures
        r.0 <= r.1 <= c.len(),
        c@.subrange(r.0 as int, r.1 as int) == strip_cr(range_texts(c@, rs@)[k as int]),
{
    let (a, b) = rs[k];
    let ghost p = c@.subrange(a as int, b as int);
    if b > a && c[b - 1] == '\r' {
        assert(c@.subrange(a as int, b - 1) =~= p.drop_last());
        (a, b - 1)
    } else {
        (a, b)
    }
}

/// Read the level data written by the generator: one line per level, each
/// `world,level:matrix@colliders@neighbours`. `None` when some line is not
/// such a level line.
pub fn deserialize_polygons(serialized_polygons: &str) -> (r: Option<
    Vec<((usize, usize), Vec<Vec<u8>>, Vec<Vec<IVec2>>, [Option<(usize, i32, i32)>; 4])>,
>)
    ensures
        match r {
            Some(levels) => world_ok(serialized_polygons@) && levels@.map_values(
                |l: ((usize, usize), Vec<Vec<u8>>, Vec<Vec<IVec2>>, [Option<(usize, i32, i32)>; 4])|
                    level_view(l),
            ) == world_value(serialized_polygons@),
            None => !world_ok(serialized_polygons@),
        },
{
    let c = chars_of(serialized_polygons);
    let ghost s = serialized_polygons@;
    let n = c.len();
    let rs = split_ranges(&c, 0, n, '\n');
    assert(c@.subrange(0, n as int) =~= s);
    let ghost parts = split(s, '\n');
    proof {
        lemma_split_nonempty(s, '\n');
    }
    let ghost ls = lines(s);
    let count = if n == 0 || c[n - 1] == '\n' {
        rs.len() - 1
    } else {
        rs.len()
    };
    assert(ls.len() == count);
    let mut levels: Vec<
        ((usize, usize), Vec<Vec<u8>>, Vec<Vec<IVec2>>, [Option<(usize, i32, i32)>; 4]),
    > = Vec::new();
    let mut k: usize = 0;
    while k < count
        invariant
            k <= count <= rs.len(),
            c@ == s,
            s == serialized_polygons@,
            n == c.len(),
            ls == lines(s),
            ls.len() == count,
            range_texts(c@, rs@) == split(s, '\n'),
            ranges_within(rs@, 0, n as int),
            count == rs.len() ==> (n > 0 && c@[n - 1] != '\n'),
            forall|j: int| 0 <= j < k ==> level_ok(#[trigger] ls[j]),
            levels@.map_values(
                |l: ((usize, usize), Vec<Vec<u8>>, Vec<Vec<IVec2>>, [Option<(usize, i32, i32)>; 4])|
                    level_view(l),
            ) == ls.take(k as int).map_values(|l: Seq<char>| level_value(l)),
        decreases count - k,
    {
        let (a, b) = if k + 1 < rs.len() {
            line_range(&c, &rs, k)
        } else {
            rs[k]
        };
        assert(ls[k as int] == c@.subrange(a as int, b as int));
        match parse_level(&c, a, b) {
            None => {
                assert(!level_ok(ls[k as int]));
                assert(!world_ok(s));
                return None;
            },
            Some(l) => {
                let ghost prev = levels@;
                levels.push(l);
                assert(levels@.map_values(
                    |l: ((usize, usize), Vec<Vec<u8>>, Vec<Vec<IVec2>>, [Option<(usize, i32, i32)>; 4])|
                        level_view(l),
                ) =~= prev.map_values(
                    |l: ((usize, usize), Vec<Vec<u8>>, Vec<Vec<IVec2>>, [Option<(usize, i32, i32)>; 4])|
                        level_view(l),
                ).push(level_view(l)));
                assert(ls.take(k + 1).map_values(|l: Seq<char>| level_value(l)) =~= ls.take(
                    k as int,
                ).map_values(|l: Seq<char>| level_value(l)).push(level_value(ls[k as int])));
                assert(levels@.map_values(
                    |l: ((usize, usize), Vec<Vec<u8>>, Vec<Vec<IVec2>>, [Option<(usize, i32, i32)>; 4])|
                        level_view(l),
                ) =~= ls.take(k + 1).map_values(|l: Seq<char>| level_value(l)));
            },
        }
        k = k + 1;
    }
    assert(ls.take(count as int) =~= ls);
    Some(levels)
}

} // verus!
