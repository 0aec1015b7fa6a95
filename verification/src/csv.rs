//! Turning raw comma-separated text into a grid: the text is split on
//! newlines into rows, each row is trimmed of surrounding whitespace
//! and split on commas into cells. Nothing is quoted or escaped, so a
//! cell holding a comma or a newline cannot be represented.

use vstd::prelude::*;
use vstd::string::StrSliceExecFns;
use vstd::string::StringExecFns;

use crate::ext::table_wf;
use crate::render::csv_row;
use crate::render::csv_spec;
use crate::text::join;

verus! {

/// The whitespace characters stripped from each row's ends.
pub open spec fn is_ws(c: char) -> bool {
    c == ' ' || c == '\t' || c == '\n' || c == '\r' || c == '\u{b}' || c == '\u{c}'
}

fn is_ws_exec(c: char) -> (r: bool)
    ensures
        r == is_ws(c),
{
    c == ' ' || c == '\t' || c == '\n' || c == '\r' || c == '\u{b}' || c == '\u{c}'
}

/// `s` without its leading whitespace.
pub open spec fn trim_start(s: Seq<char>) -> Seq<char>
    decreases s.len(),
{
    if s.len() > 0 && is_ws(s[0]) {
        trim_start(s.drop_first())
    } else {
        s
    }
}

/// `s` without its trailing whitespace.
pub open spec fn trim_end(s: Seq<char>) -> Seq<char>
    decreases s.len(),
{
    if s.len() > 0 && is_ws(s.last()) {
        trim_end(s.drop_last())
    } else {
        s
    }
}

/// `s` without its leading and trailing whitespace.
pub open spec fn trim(s: Seq<char>) -> Seq<char> {
    trim_end(trim_start(s))
}

proof fn lemma_trim_start_is(s: Seq<char>, start: int)
    requires
        0 <= start <= s.len(),
        forall|k: int| 0 <= k < start ==> is_ws(#[trigger] s[k]),
        start < s.len() ==> !is_ws(s[start as int]),
    ensures
        trim_start(s) == s.skip(start),
    decreases start,
{
    if start == 0 {
        assert(s.skip(0) =~= s);
    } else {
        lemma_trim_start_is(s.drop_first(), start - 1);
        assert(s.drop_first().skip(start - 1) =~= s.skip(start));
    }
}

proof fn lemma_trim_end_is(s: Seq<char>, end: int)
    requires
        0 <= end <= s.len(),
        forall|k: int| end <= k < s.len() ==> is_ws(#[trigger] s[k]),
        end > 0 ==> !is_ws(s[end - 1]),
    ensures
        trim_end(s) == s.take(end),
    decreases s.len(),
{
    if end == s.len() {
        if s.len() == 0 || !is_ws(s.last()) {
            assert(s.take(end) =~= s);
        } else {
            assert(false);
        }
    } else {
        lemma_trim_end_is(s.drop_last(), end);
        assert(s.drop_last().take(end) =~= s.take(end));
    }
}

/// Strips whitespace from both ends.
pub fn trim_exec(s: &str) -> (r: &str)
    ensures
        r@ == trim(s@),
{
    let len = s.unicode_len();
    let mut start: usize = 0;
    while start < len && is_ws_exec(s.get_char(start))
        invariant
            start <= len,
            len == s@.len(),
            forall|k: int| 0 <= k < start ==> is_ws(#[trigger] s@[k]),
        decreases len - start,
    {
        start += 1;
    }
    let mut end: usize = len;
    while end > start && is_ws_exec(s.get_char(end - 1))
        invariant
            start <= end <= len,
            len == s@.len(),
            forall|k: int| end <= k < len ==> is_ws(#[trigger] s@[k]),
        decreases end,
    {
        end -= 1;
    }
    let r = s.substring_char(start, end);
    proof {
        lemma_trim_start_is(s@, start as int);
        let t = s@.skip(start as int);
        lemma_trim_end_is(t, end - start);
        assert(t.take(end - start) =~= s@.subrange(start as int, end as int));
    }
    r
}

/// Whether `c` occurs in `s`.
pub open spec fn has_char(s: Seq<char>, c: char) -> bool {
    exists|i: int| 0 <= i < s.len() && s[i] == c
}

/// The position of the first occurrence of `c` at or after `i`, or
/// the length of `s` when there is none.
pub open spec fn find_char_from(s: Seq<char>, c: char, i: int) -> int
    decreases s.len() - i when 0 <= i <= s.len()
{
    if i >= s.len() {
        s.len() as int
    } else if s[i] == c {
        i
    } else {
        find_char_from(s, c, i + 1)
    }
}

/// The position of the first occurrence of `c`, or the length of `s`.
pub open spec fn find_char(s: Seq<char>, c: char) -> int {
    find_char_from(s, c, 0)
}

proof fn lemma_find_char_from_is(s: Seq<char>, c: char, i: int, n: int)
    requires
        0 <= i <= n <= s.len(),
        forall|k: int| i <= k < n ==> s[k] != c,
        n < s.len() ==> s[n] == c,
    ensures
        find_char_from(s, c, i) == n,
    decreases n - i,
{
    if i < n {
        lemma_find_char_from_is(s, c, i + 1, n);
    }
}

proof fn lemma_find_char_is(s: Seq<char>, c: char, n: int)
    requires
        0 <= n <= s.len(),
        forall|k: int| 0 <= k < n ==> s[k] != c,
        n < s.len() ==> s[n] == c,
    ensures
        find_char(s, c) == n,
{
    lemma_find_char_from_is(s, c, 0, n);
}

#[via_fn]
proof fn split_str_decreases(s: Seq<char>, sep: char) {
    lemma_find_char_from_ge(s, sep, 0);
}

/// The pieces of `s` between occurrences of `sep`: one more piece
/// than there are separators, empty pieces kept.
pub open spec fn split_str(s: Seq<char>, sep: char) -> Seq<Seq<char>>
    decreases s.len() via split_str_decreases
{
    let i = find_char(s, sep);
    if i >= s.len() {
        seq![s]
    } else {
        seq![s.take(i)] + split_str(s.skip(i + 1), sep)
    }
}

proof fn lemma_find_char_from_ge(s: Seq<char>, c: char, i: int)
    requires
        0 <= i <= s.len(),
    ensures
        i <= find_char_from(s, c, i) <= s.len(),
    decreases s.len() - i,
{
    if i < s.len() && s[i] != c {
        lemma_find_char_from_ge(s, c, i + 1);
    }
}

/// Splitting text free of the separator yields that text alone.
proof fn lemma_split_whole(s: Seq<char>, sep: char)
    requires
        !has_char(s, sep),
    ensures
        split_str(s, sep) == seq![s],
{
    lemma_find_char_is(s, sep, s.len() as int);
}

/// Splitting at the first separator peels off the separator-free
/// prefix as one piece.
proof fn lemma_split_step(cur: Seq<char>, sep: char, rest: Seq<char>)
    requires
        !has_char(cur, sep),
    ensures
        split_str(cur + seq![sep] + rest, sep) == seq![cur] + split_str(rest, sep),
{
    let s = cur + seq![sep] + rest;
    assert(s[cur.len() as int] == sep);
    assert forall|k: int| 0 <= k < cur.len() implies s[k] != sep by {
        assert(s[k] == cur[k]);
    }
    lemma_find_char_is(s, sep, cur.len() as int);
    assert(s.take(cur.len() as int) =~= cur);
    assert(s.skip(cur.len() as int + 1) =~= rest);
}

/// Splits `s` into the pieces between occurrences of `sep`.
pub fn split_char(s: &str, sep: char) -> (r: Vec<String>)
    ensures
        r.deep_view() == split_str(s@, sep),
{
    let len = s.unicode_len();
    let mut parts: Vec<String> = Vec::new();
    proof {
        assert(s@.skip(0) =~= s@);
        assert(parts.deep_view() =~= Seq::<Seq<char>>::empty());
        assert(parts.deep_view() + split_str(s@, sep) =~= split_str(s@, sep));
    }
    let mut piece_start: usize = 0;
    let mut i: usize = 0;
    while i < len
        invariant
            piece_start <= i <= len,
            len == s@.len(),
            forall|k: int| piece_start <= k < i ==> s@[k] != sep,
            split_str(s@, sep) == parts.deep_view() + split_str(s@.skip(piece_start as int), sep),
        decreases len - i,
    {
        let c = s.get_char(i);
        if c == sep {
            let ghost cur = s@.subrange(piece_start as int, i as int);
            let ghost prev_dv = parts.deep_view();
            let piece = String::from_str(s.substring_char(piece_start, i));
            parts.push(piece);
            proof {
                assert forall|k: int| 0 <= k < cur.len() implies cur[k] != sep by {
                    assert(cur[k] == s@[piece_start + k]);
                }
                assert(!has_char(cur, sep));
                assert(s@.skip(piece_start as int) =~= cur + seq![sep] + s@.skip(i + 1));
                lemma_split_step(cur, sep, s@.skip(i + 1));
                assert(parts.deep_view() =~= prev_dv.push(cur));
                assert(prev_dv.push(cur) + split_str(s@.skip(i + 1), sep) =~= prev_dv + (seq![cur]
                    + split_str(s@.skip(i + 1), sep)));
                assert(split_str(s@, sep) == parts.deep_view() + split_str(s@.skip(i + 1), sep));
            }
            piece_start = i + 1;
        }
        i += 1;
    }
    let ghost cur = s@.skip(piece_start as int);
    let ghost prev_dv = parts.deep_view();
    let piece = String::from_str(s.substring_char(piece_start, len));
    parts.push(piece);
    proof {
        assert(cur =~= s@.subrange(piece_start as int, len as int));
        assert forall|k: int| 0 <= k < cur.len() implies cur[k] != sep by {
            assert(cur[k] == s@[piece_start + k]);
        }
        assert(!has_char(cur, sep));
        lemma_split_whole(cur, sep);
        assert(parts.deep_view() =~= prev_dv.push(cur));
        assert(prev_dv.push(cur) =~= prev_dv + seq![cur]);
        assert(parts.deep_view() =~= split_str(s@, sep));
    }
    parts
}

proof fn lemma_concat_free(a: Seq<char>, b: Seq<char>, c: char)
    requires
        !has_char(a, c),
        !has_char(b, c),
    ensures
        !has_char(a + b, c),
{
    assert forall|k: int| 0 <= k < (a + b).len() implies (a + b)[k] != c by {
        if k < a.len() {
            assert((a + b)[k] == a[k]);
        } else {
            assert((a + b)[k] == b[k - a.len()]);
        }
    }
}

proof fn lemma_join_free(parts: Seq<Seq<char>>, sep: Seq<char>, c: char)
    requires
        forall|i: int| 0 <= i < parts.len() ==> !has_char(#[trigger] parts[i], c),
        !has_char(sep, c),
    ensures
        !has_char(join(parts, sep), c),
    decreases parts.len(),
{
    if parts.len() == 0 {
        assert(!has_char(Seq::<char>::empty(), c));
    } else if parts.len() == 1 {
        assert(join(parts, sep) == parts[0]);
    } else {
        assert forall|k: int| 0 <= k < parts.drop_first().len() implies !has_char(
            #[trigger] parts.drop_first()[k],
            c,
        ) by {
            assert(parts.drop_first()[k] == parts[k + 1]);
        }
        lemma_join_free(parts.drop_first(), sep, c);
        lemma_concat_free(parts[0], sep, c);
        lemma_concat_free(parts[0] + sep, join(parts.drop_first(), sep), c);
    }
}

/// Splitting on the separator undoes joining with it, as long as no
/// piece holds the separator itself.
proof fn lemma_split_join(parts: Seq<Seq<char>>, sep: char)
    requires
        parts.len() > 0,
        forall|i: int| 0 <= i < parts.len() ==> !has_char(#[trigger] parts[i], sep),
    ensures
        split_str(join(parts, seq![sep]), sep) == parts,
    decreases parts.len(),
{
    if parts.len() == 1 {
        lemma_split_whole(parts[0], sep);
        assert(join(parts, seq![sep]) == parts[0]);
        assert(seq![parts[0]] =~= parts);
    } else {
        assert forall|k: int| 0 <= k < parts.drop_first().len() implies !has_char(
            #[trigger] parts.drop_first()[k],
            sep,
        ) by {
            assert(parts.drop_first()[k] == parts[k + 1]);
        }
        lemma_split_step(parts[0], sep, join(parts.drop_first(), seq![sep]));
        lemma_split_join(parts.drop_first(), sep);
        assert(seq![parts[0]] + parts.drop_first() =~= parts);
    }
}

/// Trimming text that neither starts nor ends with whitespace leaves
/// it unchanged.
proof fn lemma_trim_identity(s: Seq<char>)
    requires
        s.len() > 0 ==> (!is_ws(s[0]) && !is_ws(s.last())),
    ensures
        trim(s) == s,
{
    lemma_trim_start_is(s, 0);
    assert(s.skip(0) =~= s);
    lemma_trim_end_is(s, s.len() as int);
    assert(s.take(s.len() as int) =~= s);
}

/// Round trip: ingesting a table's comma-separated rendering yields
/// the table's own grid back, as long as no cell holds a comma or a
/// newline and no row's text starts or ends with whitespace (which
/// trimming would otherwise strip).
pub proof fn lemma_csv_round_trip(g: Seq<Seq<Seq<char>>>)
    requires
        table_wf(g),
        forall|i: int, j: int|
            0 <= i < g.len() && 0 <= j < g[i].len() ==> (!has_char(#[trigger] g[i][j], ',')
                && !has_char(g[i][j], '\n')),
        forall|i: int|
            0 <= i < g.len() && csv_row(#[trigger] g[i]).len() > 0 ==> (!is_ws(csv_row(g[i])[0])
                && !is_ws(csv_row(g[i]).last())),
    ensures
        csv_parse_spec(csv_spec(g)) == g,
{
    let rows = Seq::new(g.len(), |i: int| csv_row(g[i]));
    assert forall|i: int| 0 <= i < rows.len() implies !has_char(#[trigger] rows[i], '\n') by {
        assert(!has_char(seq![','], '\n')) by {
            assert(seq![','][0] == ',');
        }
        lemma_join_free(g[i], seq![','], '\n');
    }
    lemma_split_join(rows, '\n');
    assert(join(rows, seq!['\n']) == csv_spec(g));
    assert forall|i: int| 0 <= i < g.len() implies split_str(trim(rows[i]), ',') == g[i] by {
        lemma_trim_identity(rows[i]);
        lemma_split_join(g[i], ',');
    }
    assert(csv_parse_spec(csv_spec(g)) =~~= g);
}

/// A raw comma-separated text as a grid: rows split on newlines and
/// trimmed, cells split on commas.
pub open spec fn csv_parse_spec(s: Seq<char>) -> Seq<Seq<Seq<char>>> {
    split_str(s, '\n').map_values(|row: Seq<char>| split_str(trim(row), ','))
}

/// Splits raw comma-separated text into a grid of cells: rows on
/// newlines, each row trimmed of surrounding whitespace, cells on
/// commas.
pub fn CSVParse(CSVString: String) -> (r: Vec<Vec<String>>)
    ensures
        r.deep_view() == csv_parse_spec(CSVString@),
{
    let rows = split_char(CSVString.as_str(), '\n');
    let ghost rows_dv = rows.deep_view();
    let mut out: Vec<Vec<String>> = Vec::new();
    let mut i: usize = 0;
    while i < rows.len()
        invariant
            i <= rows@.len(),
            rows_dv == rows.deep_view(),
            rows_dv == split_str(CSVString@, '\n'),
            out@.len() == i,
            forall|k: int| 0 <= k < i ==> (#[trigger] out@[k]).deep_view() == split_str(
                trim(rows_dv[k]),
                ',',
            ),
        decreases rows@.len() - i,
    {
        proof {
            crate::ext::lemma_row_view(rows);
        }
        let trimmed = trim_exec(rows[i].as_str());
        let cells = split_char(trimmed, ',');
        out.push(cells);
        i += 1;
    }
    proof {
        crate::ext::lemma_grid_view(out);
        crate::ext::lemma_row_view(rows);
        assert(out.deep_view() =~~= csv_parse_spec(CSVString@));
    }
    out
}

} // verus!
