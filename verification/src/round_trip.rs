//! What reading gives back of what the generator writes.
use vstd::prelude::*;
use crate::vector::IVec2;
use crate::level_data::{
    lemma_links_result, links_result, links_valid, neighbour_on, LevelPlacement, NeighbourError,
    NeighbourLink,
};
use crate::serialization::{
    split, join, decimal, signed_decimal, is_digit, is_digits, digits_value, parse_unsigned, coord,
    byte, index, row_ok, row_value, row_text, grid_matrix_ok, grid_matrix_value, grid_matrix_text,
    vertex_text, vertex_ok, vertex_value, polygon_text, polygon_ok, polygon_value, colliders_text,
    colliders_ok, colliders_value, neighbour_text, neighbour_ok, neighbour_value, neighbours_text,
    neighbours_ok, neighbours_value, level_text, level_ok, level_value, keys_ok, lines, strip_cr,
    world_ok, world_value, lemma_split_nonempty, parse_digits, parse_signed,
};

verus! {

/// `s` does not hold the character `c`.
pub open spec fn no_char(s: Seq<char>, c: char) -> bool {
    forall|i: int| 0 <= i < s.len() ==> s[i] != c
}

proof fn lemma_split_push_sep(a: Seq<char>, sep: char)
    ensures
        split(a.push(sep), sep) == split(a, sep).push(Seq::empty()),
{
    assert(a.push(sep).drop_last() =~= a);
}

proof fn lemma_split_append(a: Seq<char>, b: Seq<char>, sep: char)
    requires
        no_char(b, sep),
    ensures
        split(a + b, sep) == split(a, sep).update(
            split(a, sep).len() - 1,
            split(a, sep).last() + b,
        ),
    decreases b.len(),
{
    lemma_split_nonempty(a, sep);
    if b.len() == 0 {
        assert(a + b =~= a);
        assert(split(a, sep).last() + b =~= split(a, sep).last());
        assert(split(a, sep).update(split(a, sep).len() - 1, split(a, sep).last())
            =~= split(a, sep));
    } else {
        let b1 = b.drop_last();
        assert(no_char(b1, sep));
        lemma_split_append(a, b1, sep);
        assert((a + b).drop_last() =~= a + b1);
        assert((a + b).last() == b.last());
        assert(split(a, sep).last() + b1 + seq![b.last()] =~= split(a, sep).last() + b);
        assert((split(a, sep).last() + b1).push(b.last()) =~= split(a, sep).last() + b);
        assert(split(a + b, sep) =~= split(a, sep).update(
            split(a, sep).len() - 1,
            split(a, sep).last() + b,
        ));
    }
}

/// Splitting a join of separator-free pieces gives the pieces back.
pub proof fn lemma_split_join(xs: Seq<Seq<char>>, sep: char)
    requires
        xs.len() >= 1,
        forall|i: int| 0 <= i < xs.len() ==> no_char(#[trigger] xs[i], sep),
    ensures
        split(join(xs, sep), sep) == xs,
    decreases xs.len(),
{
    if xs.len() == 1 {
        lemma_split_append(Seq::empty(), xs[0], sep);
        assert(Seq::<char>::empty() + xs[0] =~= xs[0]);
        assert(split(Seq::<char>::empty(), sep) =~= seq![Seq::<char>::empty()]);
        assert(split(join(xs, sep), sep) =~= xs);
    } else {
        let d = xs.drop_last();
        lemma_split_join(d, sep);
        let j = join(d, sep).push(sep);
        lemma_split_push_sep(join(d, sep), sep);
        lemma_split_append(j, xs.last(), sep);
        assert(Seq::<char>::empty() + xs.last() =~= xs.last());
        assert(split(join(xs, sep), sep) =~= xs);
    }
}

proof fn lemma_no_char_concat(a: Seq<char>, b: Seq<char>, c: char)
    requires
        no_char(a, c),
        no_char(b, c),
    ensures
        no_char(a + b, c),
{
    assert forall|i: int| 0 <= i < (a + b).len() implies (a + b)[i] != c by {
        if i < a.len() {
            assert((a + b)[i] == a[i]);
        } else {
            assert((a + b)[i] == b[i - a.len()]);
        }
    }
}

/// A join of pieces free of `c` with a separator other than `c` is free of `c`.
proof fn lemma_join_no_char(xs: Seq<Seq<char>>, sep: char, c: char)
    requires
        sep != c,
        forall|i: int| 0 <= i < xs.len() ==> no_char(#[trigger] xs[i], c),
    ensures
        no_char(join(xs, sep), c),
    decreases xs.len(),
{
    if xs.len() == 1 {
        assert(no_char(xs[0], c));
    } else if xs.len() > 1 {
        let d = xs.drop_last();
        lemma_join_no_char(d, sep, c);
        assert(no_char(join(d, sep).push(sep), c));
        assert(no_char(xs.last(), c));
        lemma_no_char_concat(join(d, sep).push(sep), xs.last(), c);
    }
}

proof fn lemma_decimal(n: nat)
    ensures
        is_digits(decimal(n)),
        digits_value(decimal(n)) == n,
    decreases n,
{
    if n >= 10 {
        lemma_decimal(n / 10);
        let d = decimal(n / 10);
        assert(decimal(n).drop_last() =~= d);
        assert forall|i: int| 0 <= i < decimal(n).len() implies is_digit(#[trigger] decimal(n)[i]) by {
            if i < d.len() {
                assert(decimal(n)[i] == d[i]);
            }
        }
    } else {
        assert(digits_value(decimal(n).drop_last()) == 0);
    }
}

proof fn lemma_decimal_no_char(n: nat, c: char)
    requires
        !is_digit(c),
    ensures
        no_char(decimal(n), c),
{
    lemma_decimal(n);
    assert forall|i: int| 0 <= i < decimal(n).len() implies decimal(n)[i] != c by {
        assert(is_digit(decimal(n)[i]));
    }
}

proof fn lemma_signed_no_char(v: int, c: char)
    requires
        !is_digit(c),
        c != '-',
    ensures
        no_char(signed_decimal(v), c),
{
    if v < 0 {
        lemma_decimal_no_char((-v) as nat, c);
        assert(no_char(seq!['-'], c));
        lemma_no_char_concat(seq!['-'], decimal((-v) as nat), c);
    } else {
        lemma_decimal_no_char(v as nat, c);
    }
}

proof fn lemma_parse_decimal(n: nat, max: nat)
    requires
        n <= max,
    ensures
        parse_unsigned(decimal(n), max) == Some(n),
{
    lemma_decimal(n);
    assert(is_digit(decimal(n)[0]));
}

proof fn lemma_parse_signed(v: int)
    requires
        i32::MIN <= v <= i32::MAX,
    ensures
        coord(signed_decimal(v)) == Some(v),
{
    if v < 0 {
        lemma_decimal((-v) as nat);
        let s = signed_decimal(v);
        assert(s.drop_first() =~= decimal((-v) as nat));
    } else {
        lemma_parse_decimal(v as nat, i32::MAX as nat);
        lemma_decimal(v as nat);
        assert(is_digit(decimal(v as nat)[0]));
    }
}

proof fn lemma_join_two(a: Seq<char>, b: Seq<char>, sep: char)
    ensures
        join(seq![a, b], sep) == a.push(sep) + b,
{
    assert(seq![a, b].drop_last() =~= seq![a]);
    assert(join(seq![a], sep) == a);
    assert(seq![a, b].last() == b);
}

proof fn lemma_join_three(a: Seq<char>, b: Seq<char>, c: Seq<char>, sep: char)
    ensures
        join(seq![a, b, c], sep) == a.push(sep) + b.push(sep) + c,
{
    assert(seq![a, b, c].drop_last() =~= seq![a, b]);
    lemma_join_two(a, b, sep);
    assert(a.push(sep) + b.push(sep) + c =~= (a.push(sep) + b).push(sep) + c);
}

/// A row written and read back.
proof fn lemma_row_round_trip(row: Seq<u8>)
    requires
        row.len() >= 1,
    ensures
        row_ok(row_text(row)),
        row_value(row_text(row)) == row,
        no_char(row_text(row), '|'),
        no_char(row_text(row), '@'),
        no_char(row_text(row), ':'),
        no_char(row_text(row), '\n'),
        no_char(row_text(row), '\r'),
{
    let xs = row.map_values(|u: u8| decimal(u as nat));
    assert forall|i: int| 0 <= i < xs.len() implies no_char(#[trigger] xs[i], ';') by {
        lemma_decimal_no_char(row[i] as nat, ';');
    }
    lemma_split_join(xs, ';');
    assert forall|j: int| 0 <= j < split(row_text(row), ';').len() implies #[trigger] byte(
        split(row_text(row), ';')[j],
    ) is Some by {
        lemma_parse_decimal(row[j] as nat, 255);
    }
    assert forall|j: int| 0 <= j < row.len() implies #[trigger] row_value(row_text(row))[j]
        == row[j] by {
        lemma_parse_decimal(row[j] as nat, 255);
    }
    assert(row_value(row_text(row)) =~= row);
    assert forall|c: char| c == '|' || c == '@' || c == ':' || c == '\n' || c == '\r' implies no_char(
        row_text(row),
        c,
    ) by {
        assert forall|i: int| 0 <= i < xs.len() implies no_char(#[trigger] xs[i], c) by {
            lemma_decimal_no_char(row[i] as nat, c);
        }
        lemma_join_no_char(xs, ';', c);
    }
}

/// The grid matrix written and read back, when it has a column and every
/// column a value.
pub proof fn lemma_grid_matrix_round_trip(m: Seq<Seq<u8>>)
    requires
        m.len() >= 1,
        forall|i: int| 0 <= i < m.len() ==> (#[trigger] m[i]).len() >= 1,
    ensures
        grid_matrix_ok(grid_matrix_text(m)),
        grid_matrix_value(grid_matrix_text(m)) == m,
        no_char(grid_matrix_text(m), '@'),
        no_char(grid_matrix_text(m), ':'),
        no_char(grid_matrix_text(m), '\n'),
        no_char(grid_matrix_text(m), '\r'),
{
    let xs = m.map_values(|r: Seq<u8>| row_text(r));
    assert forall|i: int| 0 <= i < xs.len() implies no_char(#[trigger] xs[i], '|') by {
        lemma_row_round_trip(m[i]);
    }
    lemma_split_join(xs, '|');
    assert forall|i: int| 0 <= i < split(grid_matrix_text(m), '|').len() implies row_ok(
        #[trigger] split(grid_matrix_text(m), '|')[i],
    ) by {
        lemma_row_round_trip(m[i]);
    }
    assert forall|i: int| 0 <= i < m.len() implies #[trigger] grid_matrix_value(
        grid_matrix_text(m),
    )[i] == m[i] by {
        lemma_row_round_trip(m[i]);
    }
    assert(grid_matrix_value(grid_matrix_text(m)) =~= m);
    assert forall|c: char| c == '@' || c == ':' || c == '\n' || c == '\r' implies no_char(
        grid_matrix_text(m),
        c,
    ) by {
        assert forall|i: int| 0 <= i < xs.len() implies no_char(#[trigger] xs[i], c) by {
            lemma_row_round_trip(m[i]);
        }
        lemma_join_no_char(xs, '|', c);
    }
}

proof fn lemma_vertex_round_trip(v: IVec2)
    ensures
        vertex_ok(vertex_text(v)),
        vertex_value(vertex_text(v)) == v,
        no_char(vertex_text(v), ';'),
        no_char(vertex_text(v), '|'),
        no_char(vertex_text(v), '@'),
        no_char(vertex_text(v), ':'),
        no_char(vertex_text(v), '\n'),
        no_char(vertex_text(v), '\r'),
{
    let sx = signed_decimal(v.x as int);
    let sy = signed_decimal(v.y as int);
    lemma_join_two(sx, sy, ',');
    lemma_signed_no_char(v.x as int, ',');
    lemma_signed_no_char(v.y as int, ',');
    lemma_split_join(seq![sx, sy], ',');
    lemma_parse_signed(v.x as int);
    lemma_parse_signed(v.y as int);
    assert forall|c: char| c == ';' || c == '|' || c == '@' || c == ':' || c == '\n' || c == '\r' implies no_char(
        vertex_text(v),
        c,
    ) by {
        lemma_signed_no_char(v.x as int, c);
        lemma_signed_no_char(v.y as int, c);
        assert(no_char(sx.push(','), c));
        lemma_no_char_concat(sx.push(','), sy, c);
    }
}

proof fn lemma_polygon_round_trip(p: Seq<IVec2>)
    requires
        p.len() >= 1,
    ensures
        polygon_ok(polygon_text(p)),
        polygon_value(polygon_text(p)) == p,
        no_char(polygon_text(p), '|'),
        no_char(polygon_text(p), '@'),
        no_char(polygon_text(p), ':'),
        no_char(polygon_text(p), '\n'),
        no_char(polygon_text(p), '\r'),
{
    let xs = p.map_values(|v: IVec2| vertex_text(v));
    assert forall|i: int| 0 <= i < xs.len() implies no_char(#[trigger] xs[i], ';') by {
        lemma_vertex_round_trip(p[i]);
    }
    lemma_split_join(xs, ';');
    assert forall|j: int| 0 <= j < split(polygon_text(p), ';').len() implies vertex_ok(
        #[trigger] split(polygon_text(p), ';')[j],
    ) by {
        lemma_vertex_round_trip(p[j]);
    }
    assert forall|j: int| 0 <= j < p.len() implies #[trigger] polygon_value(polygon_text(p))[j]
        == p[j] by {
        lemma_vertex_round_trip(p[j]);
    }
    assert(polygon_value(polygon_text(p)) =~= p);
    assert forall|c: char| c == '|' || c == '@' || c == ':' || c == '\n' || c == '\r' implies no_char(
        polygon_text(p),
        c,
    ) by {
        assert forall|i: int| 0 <= i < xs.len() implies no_char(#[trigger] xs[i], c) by {
            lemma_vertex_round_trip(p[i]);
        }
        lemma_join_no_char(xs, ';', c);
    }
}

/// The collider polygons written and read back, when there is a polygon
/// and every polygon has a vertex.
pub proof fn lemma_colliders_round_trip(ps: Seq<Seq<IVec2>>)
    requires
        ps.len() >= 1,
        forall|i: int| 0 <= i < ps.len() ==> (#[trigger] ps[i]).len() >= 1,
    ensures
        colliders_ok(colliders_text(ps)),
        colliders_value(colliders_text(ps)) == ps,
        no_char(colliders_text(ps), '@'),
        no_char(colliders_text(ps), '\n'),
        no_char(colliders_text(ps), '\r'),
{
    let xs = ps.map_values(|p: Seq<IVec2>| polygon_text(p));
    assert forall|i: int| 0 <= i < xs.len() implies no_char(#[trigger] xs[i], '|') by {
        lemma_polygon_round_trip(ps[i]);
    }
    lemma_split_join(xs, '|');
    assert forall|i: int| 0 <= i < split(colliders_text(ps), '|').len() implies polygon_ok(
        #[trigger] split(colliders_text(ps), '|')[i],
    ) by {
        lemma_polygon_round_trip(ps[i]);
    }
    assert forall|i: int| 0 <= i < ps.len() implies #[trigger] colliders_value(
        colliders_text(ps),
    )[i] == ps[i] by {
        lemma_polygon_round_trip(ps[i]);
    }
    assert(colliders_value(colliders_text(ps)) =~= ps);
    assert forall|c: char| c == '@' || c == '\n' || c == '\r' implies no_char(
        colliders_text(ps),
        c,
    ) by {
        assert forall|i: int| 0 <= i < xs.len() implies no_char(#[trigger] xs[i], c) by {
            lemma_polygon_round_trip(ps[i]);
        }
        lemma_join_no_char(xs, '|', c);
    }
}

proof fn lemma_neighbour_round_trip(n: Option<(usize, i32, i32)>)
    ensures
        neighbour_ok(neighbour_text(n)),
        neighbour_value(neighbour_text(n)) == n,
        no_char(neighbour_text(n), ';'),
        no_char(neighbour_text(n), '@'),
        no_char(neighbour_text(n), '\n'),
        no_char(neighbour_text(n), '\r'),
{
    match n {
        None => {
            assert forall|c: char| c == ';' || c == '@' || c == '\n' || c == '\r' implies no_char(
                neighbour_text(n),
                c,
            ) by {
                assert(seq!['-'][0] == '-');
            }
        },
        Some((i, x, y)) => {
            let di = decimal(i as nat);
            let sx = signed_decimal(x as int);
            let sy = signed_decimal(y as int);
            lemma_join_three(di, sx, sy, ',');
            lemma_decimal_no_char(i as nat, ',');
            lemma_signed_no_char(x as int, ',');
            lemma_signed_no_char(y as int, ',');
            let parts = seq![di, sx, sy];
            assert forall|k: int| 0 <= k < 3 implies no_char(#[trigger] parts[k], ',') by {
            }
            lemma_split_join(parts, ',');
            lemma_parse_decimal(i as nat, usize::MAX as nat);
            lemma_parse_signed(x as int);
            lemma_parse_signed(y as int);
            lemma_decimal(i as nat);
            let t = neighbour_text(n);
            assert(t[0] == di[0]);
            assert(is_digit(di[0]));
            assert(t != seq!['-']) by {
                if t == seq!['-'] {
                    assert(t[0] == '-');
                }
            }
            assert forall|c: char| c == ';' || c == '@' || c == '\n' || c == '\r' implies no_char(
                t,
                c,
            ) by {
                lemma_decimal_no_char(i as nat, c);
                lemma_signed_no_char(x as int, c);
                lemma_signed_no_char(y as int, c);
                assert(no_char(di.push(','), c));
                assert(no_char(sx.push(','), c));
                lemma_no_char_concat(di.push(','), sx.push(','), c);
                lemma_no_char_concat(di.push(',') + sx.push(','), sy, c);
                assert(t =~= di.push(',') + sx.push(',') + sy);
            }
        },
    }
}

/// The four neighbours written and read back.
pub proof fn lemma_neighbours_round_trip(ns: Seq<Option<(usize, i32, i32)>>)
    requires
        ns.len() == 4,
    ensures
        neighbours_ok(neighbours_text(ns)),
        neighbours_value(neighbours_text(ns)) == ns,
        no_char(neighbours_text(ns), '@'),
        no_char(neighbours_text(ns), '\n'),
        no_char(neighbours_text(ns), '\r'),
{
    let xs = ns.map_values(|n: Option<(usize, i32, i32)>| neighbour_text(n));
    assert forall|i: int| 0 <= i < xs.len() implies no_char(#[trigger] xs[i], ';') by {
        lemma_neighbour_round_trip(ns[i]);
    }
    lemma_split_join(xs, ';');
    assert forall|i: int| 0 <= i < 4 implies neighbour_ok(
        #[trigger] split(neighbours_text(ns), ';')[i],
    ) by {
        lemma_neighbour_round_trip(ns[i]);
    }
    assert forall|i: int| 0 <= i < 4 implies #[trigger] neighbours_value(neighbours_text(ns))[i]
        == ns[i] by {
        lemma_neighbour_round_trip(ns[i]);
    }
    assert(neighbours_value(neighbours_text(ns)) =~= ns);
    assert forall|c: char| c == '@' || c == '\n' || c == '\r' implies no_char(
        neighbours_text(ns),
        c,
    ) by {
        assert forall|i: int| 0 <= i < xs.len() implies no_char(#[trigger] xs[i], c) by {
            lemma_neighbour_round_trip(ns[i]);
        }
        lemma_join_no_char(xs, ';', c);
    }
}

/// A level as the generator writes it: a grid matrix with at least one
/// column and a value in each, at least one collider polygon and a vertex in
/// each, and four neighbours.
pub open spec fn level_writable(
    l: ((usize, usize), Seq<Seq<u8>>, Seq<Seq<IVec2>>, Seq<Option<(usize, i32, i32)>>),
) -> bool {
    &&& l.1.len() >= 1
    &&& forall|i: int| 0 <= i < l.1.len() ==> (#[trigger] l.1[i]).len() >= 1
    &&& l.2.len() >= 1
    &&& forall|i: int| 0 <= i < l.2.len() ==> (#[trigger] l.2[i]).len() >= 1
    &&& l.3.len() == 4
}

/// The line the generator writes for a level.
#[verifier::opaque]
pub open spec fn level_line(
    l: ((usize, usize), Seq<Seq<u8>>, Seq<Seq<IVec2>>, Seq<Option<(usize, i32, i32)>>),
) -> Seq<char> {
    level_text(l.0.0, l.0.1, l.1, l.2, l.3)
}

/// The keys of a level line: its world and level index.
spec fn keys_text(w: usize, lv: usize) -> Seq<char> {
    decimal(w as nat).push(',') + decimal(lv as nat)
}

proof fn lemma_keys_round_trip(w: usize, lv: usize)
    ensures
        keys_ok(keys_text(w, lv)),
        index(split(keys_text(w, lv), ',')[0]) == Some(w as nat),
        index(split(keys_text(w, lv), ',')[1]) == Some(lv as nat),
        no_char(keys_text(w, lv), ':'),
        no_char(keys_text(w, lv), '@'),
        no_char(keys_text(w, lv), '\n'),
        no_char(keys_text(w, lv), '\r'),
{
    let dw = decimal(w as nat);
    let dl = decimal(lv as nat);
    lemma_join_two(dw, dl, ',');
    lemma_decimal_no_char(w as nat, ',');
    lemma_decimal_no_char(lv as nat, ',');
    let kp = seq![dw, dl];
    assert forall|i: int| 0 <= i < 2 implies no_char(#[trigger] kp[i], ',') by {
    }
    lemma_split_join(kp, ',');
    lemma_parse_decimal(w as nat, usize::MAX as nat);
    lemma_parse_decimal(lv as nat, usize::MAX as nat);
    assert forall|ch: char| ch == ':' || ch == '@' || ch == '\n' || ch == '\r' implies no_char(
        keys_text(w, lv),
        ch,
    ) by {
        lemma_decimal_no_char(w as nat, ch);
        lemma_decimal_no_char(lv as nat, ch);
        assert(no_char(dw.push(','), ch));
        lemma_no_char_concat(dw.push(','), dl, ch);
    }
}

/// How a level line splits into its parts.
proof fn lemma_level_parts(k: Seq<char>, g: Seq<char>, c: Seq<char>, n: Seq<char>)
    requires
        no_char(k, ':'),
        no_char(k, '@'),
        no_char(g, ':'),
        no_char(g, '@'),
        no_char(c, '@'),
        no_char(n, '@'),
    ensures
        split(k.push(':') + g, ':') == seq![k, g],
        split((k.push(':') + g).push('@') + c.push('@') + n, '@') == seq![k.push(':') + g, c, n],
{
    let p0 = k.push(':') + g;
    lemma_join_two(k, g, ':');
    let fp = seq![k, g];
    assert forall|i: int| 0 <= i < 2 implies no_char(#[trigger] fp[i], ':') by {
    }
    lemma_split_join(fp, ':');
    assert(no_char(k.push(':'), '@'));
    lemma_no_char_concat(k.push(':'), g, '@');
    lemma_join_three(p0, c, n, '@');
    let parts = seq![p0, c, n];
    assert forall|i: int| 0 <= i < 3 implies no_char(#[trigger] parts[i], '@') by {
    }
    lemma_split_join(parts, '@');
}

/// A line made of readable parts is a level line holding what they hold.
proof fn lemma_level_from_parts(line: Seq<char>, k: Seq<char>, g: Seq<char>, c: Seq<char>, n: Seq<char>)
    requires
        split(line, '@') == seq![k.push(':') + g, c, n],
        split(k.push(':') + g, ':') == seq![k, g],
        keys_ok(k),
        grid_matrix_ok(g),
        colliders_ok(c),
        neighbours_ok(n),
    ensures
        level_ok(line),
        level_value(line) == (
            (index(split(k, ',')[0])->0 as usize, index(split(k, ',')[1])->0 as usize),
            grid_matrix_value(g),
            colliders_value(c),
            neighbours_value(n),
        ),
{
}

/// A level line written and read back.
pub proof fn lemma_level_round_trip(
    l: ((usize, usize), Seq<Seq<u8>>, Seq<Seq<IVec2>>, Seq<Option<(usize, i32, i32)>>),
)
    requires
        level_writable(l),
    ensures
        level_ok(level_line(l)),
        level_value(level_line(l)) == l,
        level_line(l).len() >= 1,
        no_char(level_line(l), '\n'),
        no_char(level_line(l), '\r'),
{
    let k = keys_text(l.0.0, l.0.1);
    let g = grid_matrix_text(l.1);
    let c = colliders_text(l.2);
    let n = neighbours_text(l.3);
    lemma_grid_matrix_round_trip(l.1);
    lemma_colliders_round_trip(l.2);
    lemma_neighbours_round_trip(l.3);
    lemma_keys_round_trip(l.0.0, l.0.1);
    let p0 = k.push(':') + g;
    let line = level_line(l);
    assert(line =~= p0.push('@') + c.push('@') + n) by {
        reveal(level_line);
    }
    lemma_level_parts(k, g, c, n);
    lemma_level_from_parts(line, k, g, c, n);
    assert(level_value(line) =~= l);
    assert forall|ch: char| ch == '\n' || ch == '\r' implies no_char(line, ch) by {
        assert(no_char(k.push(':'), ch));
        lemma_no_char_concat(k.push(':'), g, ch);
        assert(no_char(p0.push('@'), ch));
        assert(no_char(c.push('@'), ch));
        lemma_no_char_concat(p0.push('@'), c.push('@'), ch);
        lemma_no_char_concat(p0.push('@') + c.push('@'), n, ch);
    }
}

proof fn lemma_join_last(xs: Seq<Seq<char>>, sep: char)
    requires
        xs.len() >= 1,
        xs.last().len() >= 1,
    ensures
        join(xs, sep).len() >= 1,
        join(xs, sep).last() == xs.last().last(),
{
    if xs.len() > 1 {
        let j = join(xs.drop_last(), sep).push(sep);
        assert((j + xs.last()).last() == xs.last().last());
    }
}

/// The lines of a join by line feeds of non-empty pieces without line
/// feeds or carriage returns are the pieces.
proof fn lemma_lines_join(xs: Seq<Seq<char>>)
    requires
        forall|i: int| 0 <= i < xs.len() ==> no_char(#[trigger] xs[i], '\n'),
        forall|i: int| 0 <= i < xs.len() ==> no_char(#[trigger] xs[i], '\r'),
        forall|i: int| 0 <= i < xs.len() ==> (#[trigger] xs[i]).len() >= 1,
    ensures
        lines(join(xs, '\n')) == xs,
{
    let s = join(xs, '\n');
    if xs.len() == 0 {
        assert(split(s, '\n').drop_last() =~= Seq::<Seq<char>>::empty());
        assert(lines(s) =~= xs);
    } else {
        lemma_split_join(xs, '\n');
        assert(xs.last() == xs[xs.len() - 1]);
        lemma_join_last(xs, '\n');
        assert(s.last() != '\n') by {
            let x = xs[xs.len() - 1];
            assert(no_char(x, '\n'));
            assert(x.last() == x[x.len() - 1]);
        }
        assert forall|i: int| 0 <= i < xs.len() - 1 implies strip_cr(#[trigger] xs[i]) == xs[i] by {
            assert(no_char(xs[i], '\r'));
            assert(xs[i].last() == xs[i][xs[i].len() - 1]);
        }
        assert(lines(s) =~= xs);
    }
}

/// Reading the lines the generator writes for its levels gives back the
/// levels: every line is a level line, and each holds the world and level
/// index, grid matrix, collider polygons and neighbours that were written.
pub proof fn lemma_world_round_trip(
    levels: Seq<((usize, usize), Seq<Seq<u8>>, Seq<Seq<IVec2>>, Seq<Option<(usize, i32, i32)>>)>,
)
    requires
        forall|i: int| 0 <= i < levels.len() ==> level_writable(#[trigger] levels[i]),
    ensures
        world_ok(
            join(
                levels.map_values(
                    |l: ((usize, usize), Seq<Seq<u8>>, Seq<Seq<IVec2>>, Seq<Option<(usize, i32, i32)>>)|
                        level_line(l),
                ),
                '\n',
            ),
        ),
        world_value(
            join(
                levels.map_values(
                    |l: ((usize, usize), Seq<Seq<u8>>, Seq<Seq<IVec2>>, Seq<Option<(usize, i32, i32)>>)|
                        level_line(l),
                ),
                '\n',
            ),
        ) == levels,
{
    let xs = levels.map_values(
        |l: ((usize, usize), Seq<Seq<u8>>, Seq<Seq<IVec2>>, Seq<Option<(usize, i32, i32)>>)|
            level_line(l),
    );
    assert forall|i: int| 0 <= i < xs.len() implies no_char(#[trigger] xs[i], '\n') && no_char(
        xs[i],
        '\r',
    ) && xs[i].len() >= 1 && level_ok(xs[i]) && level_value(xs[i]) == levels[i] by {
        lemma_level_round_trip(levels[i]);
    }
    lemma_lines_join(xs);
    let s = join(xs, '\n');
    assert(world_value(s) =~= levels);
}

/// The neighbours of a level with valid links are found without error, each
/// side holding the level that the link to it names (with its offset) or
/// nothing, and they read back unchanged from the text they are written as.
pub proof fn lemma_level_links_round_trip(
    levels: Seq<LevelPlacement>,
    level: LevelPlacement,
    links: Seq<NeighbourLink>,
)
    requires
        links_valid(levels, links),
    ensures
        ({
            let ns = Seq::new(4, |k: int| neighbour_on(levels, level, links, k));
            &&& links_result(levels, level, links) == Ok::<
                Seq<Option<(usize, i32, i32)>>,
                NeighbourError,
            >(ns)
            &&& neighbours_ok(neighbours_text(ns))
            &&& neighbours_value(neighbours_text(ns)) == ns
        }),
{
    let ns = Seq::new(4, |k: int| neighbour_on(levels, level, links, k));
    lemma_links_result(levels, level, links);
    lemma_neighbours_round_trip(ns);
}

/// A character that is neither a decimal digit nor a sign.
pub open spec fn plain_char(c: char) -> bool {
    !is_digit(c) && c != '+' && c != '-'
}

proof fn lemma_digits_no_char(t: Seq<char>, max: nat, c: char)
    requires
        parse_digits(t, max) is Some,
        plain_char(c),
    ensures
        no_char(t, c),
{
    assert forall|i: int| 0 <= i < t.len() implies t[i] != c by {
        assert(is_digit(t[i]));
    }
}

proof fn lemma_unsigned_no_char(t: Seq<char>, max: nat, c: char)
    requires
        parse_unsigned(t, max) is Some,
        plain_char(c),
    ensures
        no_char(t, c),
{
    if t.len() > 0 && t[0] == '+' {
        lemma_digits_no_char(t.drop_first(), max, c);
        assert forall|i: int| 0 <= i < t.len() implies t[i] != c by {
            if i > 0 {
                assert(t[i] == t.drop_first()[i - 1]);
            }
        }
    } else {
        lemma_digits_no_char(t, max, c);
    }
}

proof fn lemma_signed_text_no_char(t: Seq<char>, min: int, max: nat, c: char)
    requires
        parse_signed(t, min, max) is Some,
        plain_char(c),
    ensures
        no_char(t, c),
{
    if t.len() > 0 && t[0] == '-' {
        lemma_digits_no_char(t.drop_first(), (-min) as nat, c);
        assert forall|i: int| 0 <= i < t.len() implies t[i] != c by {
            if i > 0 {
                assert(t[i] == t.drop_first()[i - 1]);
            }
        }
    } else {
        lemma_unsigned_no_char(t, max, c);
    }
}

/// A character other than the separator that no piece holds is not in the
/// text.
proof fn lemma_split_no_char(s: Seq<char>, sep: char, c: char)
    requires
        c != sep,
        forall|i: int| 0 <= i < split(s, sep).len() ==> no_char(#[trigger] split(s, sep)[i], c),
    ensures
        no_char(s, c),
    decreases s.len(),
{
    if s.len() > 0 {
        let r = split(s.drop_last(), sep);
        let q = split(s, sep);
        lemma_split_nonempty(s.drop_last(), sep);
        if s.last() == sep {
            assert forall|i: int| 0 <= i < r.len() implies no_char(#[trigger] r[i], c) by {
                assert(q[i] == r[i]);
            }
        } else {
            assert forall|i: int| 0 <= i < r.len() implies no_char(#[trigger] r[i], c) by {
                if i < r.len() - 1 {
                    assert(q[i] == r[i]);
                } else {
                    let p = q[i];
                    assert(p == r.last().push(s.last()));
                    assert forall|j: int| 0 <= j < r[i].len() implies r[i][j] != c by {
                        assert(p[j] == r[i][j]);
                    }
                }
            }
            let p = q[r.len() - 1];
            assert(p == r.last().push(s.last()));
            assert(no_char(p, c));
            assert(p[p.len() - 1] == s.last());
        }
        lemma_split_no_char(s.drop_last(), sep, c);
        assert forall|i: int| 0 <= i < s.len() implies s[i] != c by {
            if i < s.len() - 1 {
                assert(s[i] == s.drop_last()[i]);
            }
        }
    }
}

/// A neighbour text that can be read holds only digits, signs, dashes and
/// separators.
proof fn lemma_neighbours_text_no_char(n: Seq<char>, c: char)
    requires
        neighbours_ok(n),
        plain_char(c),
        c != ';',
        c != ',',
    ensures
        no_char(n, c),
{
    let pieces = split(n, ';');
    assert forall|i: int| 0 <= i < pieces.len() implies no_char(#[trigger] pieces[i], c) by {
        assert(neighbour_ok(pieces[i]));
        let t = pieces[i];
        if t != seq!['-'] {
            let parts = split(t, ',');
            assert forall|k: int| 0 <= k < parts.len() implies no_char(#[trigger] parts[k], c) by {
                if k == 0 {
                    lemma_unsigned_no_char(parts[0], usize::MAX as nat, c);
                } else {
                    lemma_signed_text_no_char(parts[k], i32::MIN as int, i32::MAX as nat, c);
                }
            }
            lemma_split_no_char(t, ',', c);
        }
    }
    lemma_split_no_char(n, ';', c);
}

/// The line of a level whose neighbours are given as text, in any spelling
/// that can be read.
pub open spec fn level_text_with(
    world: usize,
    level: usize,
    m: Seq<Seq<u8>>,
    ps: Seq<Seq<IVec2>>,
    n: Seq<char>,
) -> Seq<char> {
    decimal(world as nat).push(',') + decimal(level as nat).push(':') + grid_matrix_text(m).push(
        '@',
    ) + colliders_text(ps).push('@') + n
}

/// A level line read back: the keys, the grid matrix and the colliders as
/// written, and the neighbours as their text reads, whatever its spelling.
pub proof fn lemma_level_with_neighbour_text(
    l: ((usize, usize), Seq<Seq<u8>>, Seq<Seq<IVec2>>),
    n: Seq<char>,
)
    requires
        l.1.len() >= 1,
        forall|i: int| 0 <= i < l.1.len() ==> (#[trigger] l.1[i]).len() >= 1,
        l.2.len() >= 1,
        forall|i: int| 0 <= i < l.2.len() ==> (#[trigger] l.2[i]).len() >= 1,
        neighbours_ok(n),
    ensures
        level_ok(level_text_with(l.0.0, l.0.1, l.1, l.2, n)),
        level_value(level_text_with(l.0.0, l.0.1, l.1, l.2, n)) == (l.0, l.1, l.2, neighbours_value(n)),
        level_text_with(l.0.0, l.0.1, l.1, l.2, n).len() >= 1,
        no_char(level_text_with(l.0.0, l.0.1, l.1, l.2, n), '\n'),
        no_char(level_text_with(l.0.0, l.0.1, l.1, l.2, n), '\r'),
{
    let k = keys_text(l.0.0, l.0.1);
    let g = grid_matrix_text(l.1);
    let c = colliders_text(l.2);
    lemma_grid_matrix_round_trip(l.1);
    lemma_colliders_round_trip(l.2);
    lemma_keys_round_trip(l.0.0, l.0.1);
    lemma_neighbours_text_no_char(n, '@');
    lemma_neighbours_text_no_char(n, '\n');
    lemma_neighbours_text_no_char(n, '\r');
    let p0 = k.push(':') + g;
    let line = level_text_with(l.0.0, l.0.1, l.1, l.2, n);
    assert(line =~= p0.push('@') + c.push('@') + n);
    lemma_level_parts(k, g, c, n);
    lemma_level_from_parts(line, k, g, c, n);
    assert(level_value(line) =~= (l.0, l.1, l.2, neighbours_value(n)));
    assert forall|ch: char| ch == '\n' || ch == '\r' implies no_char(line, ch) by {
        assert(no_char(k.push(':'), ch));
        lemma_no_char_concat(k.push(':'), g, ch);
        assert(no_char(p0.push('@'), ch));
        assert(no_char(c.push('@'), ch));
        lemma_no_char_concat(p0.push('@'), c.push('@'), ch);
        lemma_no_char_concat(p0.push('@') + c.push('@'), n, ch);
    }
}

/// Reading level data whose lines hold written grid matrices and colliders
/// and neighbour texts in any readable spelling gives, line by line, the
/// keys, the grid matrix, the colliders and the neighbours the text names.
pub proof fn lemma_world_with_neighbour_texts(
    ls: Seq<((usize, usize), Seq<Seq<u8>>, Seq<Seq<IVec2>>)>,
    ns: Seq<Seq<char>>,
)
    requires
        ls.len() == ns.len(),
        forall|i: int|
            0 <= i < ls.len() ==> (#[trigger] ls[i]).1.len() >= 1 && (forall|j: int|
                0 <= j < ls[i].1.len() ==> (#[trigger] ls[i].1[j]).len() >= 1) && ls[i].2.len() >= 1
                && (forall|j: int| 0 <= j < ls[i].2.len() ==> (#[trigger] ls[i].2[j]).len() >= 1),
        forall|i: int| 0 <= i < ns.len() ==> neighbours_ok(#[trigger] ns[i]),
    ensures
        ({
            let text = join(
                Seq::new(
                    ls.len(),
                    |i: int| level_text_with(ls[i].0.0, ls[i].0.1, ls[i].1, ls[i].2, ns[i]),
                ),
                '\n',
            );
            &&& world_ok(text)
            &&& world_value(text) == Seq::new(
                ls.len(),
                |i: int| (ls[i].0, ls[i].1, ls[i].2, neighbours_value(ns[i])),
            )
        }),
{
    let xs = Seq::new(
        ls.len(),
        |i: int| level_text_with(ls[i].0.0, ls[i].0.1, ls[i].1, ls[i].2, ns[i]),
    );
    assert forall|i: int| 0 <= i < xs.len() implies no_char(#[trigger] xs[i], '\n') && no_char(
        xs[i],
        '\r',
    ) && xs[i].len() >= 1 && level_ok(xs[i]) && level_value(xs[i]) == (
        ls[i].0,
        ls[i].1,
        ls[i].2,
        neighbours_value(ns[i]),
    ) by {
        assert(neighbours_ok(ns[i]));
        lemma_level_with_neighbour_text(ls[i], ns[i]);
    }
    lemma_lines_join(xs);
    let s = join(xs, '\n');
    assert(world_value(s) =~= Seq::new(
        ls.len(),
        |i: int| (ls[i].0, ls[i].1, ls[i].2, neighbours_value(ns[i])),
    ));
}

} // verus!
