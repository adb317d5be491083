//! Pointing at the place where a JSON document failed to deserialize: the
//! line and column a parser reports, turned into a byte offset in the text.

use vstd::prelude::*;
use crate::text::{chars_of, extend_str, string_of};
use crate::validation::{byte_len, utf8_width};
use crate::visualize::pieces;

verus! {

/// A line without the carriage return that ends it, if it has one.
pub open spec fn without_return(line: Seq<char>) -> Seq<char> {
    if line.len() > 0 && line.last() == '\r' {
        line.drop_last()
    } else {
        line
    }
}

/// The characters of each row.
pub open spec fn rows_view(rows: Seq<Vec<char>>) -> Seq<Seq<char>> {
    rows.map_values(|l: Vec<char>| l@)
}

/// Each line without the carriage return that ends it.
pub open spec fn stripped(lines: Seq<Seq<char>>) -> Seq<Seq<char>> {
    lines.map_values(|l: Seq<char>| without_return(l))
}

/// The lines of `s`, as `str::lines` gives them: split at each `\n`, each
/// line that a `\n` ends without a `\r` before it, and no empty line after a
/// final `\n`.
pub open spec fn lines_of(s: Seq<char>) -> Seq<Seq<char>> {
    let p = pieces(s, '\n');
    let ended = stripped(p.drop_last());
    if p.last().len() == 0 {
        ended
    } else {
        ended.push(p.last())
    }
}

/// The bytes of the rows, each with one more for the line end after it.
pub open spec fn rows_total(rows: Seq<Seq<char>>) -> nat
    decreases rows.len(),
{
    if rows.len() == 0 {
        0
    } else {
        rows_total(rows.drop_last()) + byte_len(rows.last()) + 1
    }
}

/// The byte offset of `column` on row `line`, both counted from 0: the rows
/// before it each count their bytes and one for their end. Past the last
/// row, the offset is the end of all rows.
pub open spec fn offset_of(rows: Seq<Seq<char>>, line: nat, column: nat) -> nat {
    if line < rows.len() {
        rows_total(rows.take(line as int)) + column
    } else {
        rows_total(rows)
    }
}

/// The byte offset in `json` of a position that a parser reports with a line
/// and a column both counted from 1 (0 is taken as 1).
pub open spec fn source_offset_of(json: Seq<char>, line: nat, column: nat) -> nat {
    offset_of(
        lines_of(json),
        if line > 0 { (line - 1) as nat } else { 0 },
        if column > 0 { (column - 1) as nat } else { 0 },
    )
}

proof fn lemma_pieces_total(s: Seq<char>, c: char)
    requires
        utf8_width(c) == 1,
    ensures
        rows_total(pieces(s, c)) == byte_len(s) + 1,
    decreases s.len(),
{
    assert(rows_total(Seq::<Seq<char>>::empty()) == 0);
    assert(byte_len(Seq::<char>::empty()) == 0);
    let q = pieces(s, c);
    crate::visualize::lemma_pieces_nonempty(s, c);
    assert(rows_total(q) == rows_total(q.drop_last()) + byte_len(q.last()) + 1);
    if s.len() == 0 {
        assert(q =~= seq![Seq::<char>::empty()]);
        assert(q.drop_last() =~= Seq::<Seq<char>>::empty());
    } else {
        assert(byte_len(s) == byte_len(s.drop_last()) + utf8_width(s.last()));
        let p = pieces(s.drop_last(), c);
        lemma_pieces_total(s.drop_last(), c);
        crate::visualize::lemma_pieces_nonempty(s.drop_last(), c);
        if s.last() == c {
            assert(p.push(seq![]).drop_last() =~= p);
            assert(byte_len(Seq::<char>::empty()) == 0);
        } else {
            assert(rows_total(p) == rows_total(p.drop_last()) + byte_len(p.last()) + 1);
            assert(p.last().push(s.last()).drop_last() =~= p.last());
            assert(byte_len(p.last().push(s.last())) == byte_len(p.last()) + utf8_width(s.last()));
            assert(q.drop_last() =~= p.drop_last());
            assert(q.last() == p.last().push(s.last()));
            assert(p.last().push(s.last()).drop_last() =~= p.last());
        }
    }
}

proof fn lemma_rows_total_prefix(rows: Seq<Seq<char>>, n: int)
    requires
        0 <= n <= rows.len(),
    ensures
        rows_total(rows.take(n)) <= rows_total(rows),
    decreases rows.len(),
{
    if n < rows.len() {
        assert(rows.drop_last().take(n) =~= rows.take(n));
        lemma_rows_total_prefix(rows.drop_last(), n);
    } else {
        assert(rows.take(n) =~= rows);
    }
}

proof fn lemma_without_return(rows: Seq<Seq<char>>)
    ensures
        rows_total(stripped(rows)) <= rows_total(rows),
    decreases rows.len(),
{
    if rows.len() > 0 {
        let m = stripped(rows);
        assert(m.drop_last() =~= stripped(rows.drop_last()));
        lemma_without_return(rows.drop_last());
        let l = rows.last();
        if l.len() > 0 && l.last() == '\r' {
            assert(byte_len(l) == byte_len(l.drop_last()) + utf8_width(l.last()));
        }
    }
}

proof fn lemma_byte_len_split(a: Seq<char>, b: Seq<char>)
    ensures
        byte_len(a + b) == byte_len(a) + byte_len(b),
    decreases b.len(),
{
    if b.len() > 0 {
        assert((a + b).drop_last() =~= a + b.drop_last());
        lemma_byte_len_split(a, b.drop_last());
    } else {
        assert(a + b =~= a);
    }
}

proof fn lemma_byte_len_bound(s: Seq<char>)
    ensures
        byte_len(s) <= 4 * s.len(),
    decreases s.len(),
{
    if s.len() > 0 {
        lemma_byte_len_bound(s.drop_last());
    }
}

proof fn lemma_lines_total(s: Seq<char>)
    ensures
        rows_total(lines_of(s)) <= 4 * s.len() + 1,
{
    let p = pieces(s, '\n');
    crate::visualize::lemma_pieces_nonempty(s, '\n');
    lemma_pieces_total(s, '\n');
    lemma_byte_len_bound(s);
    let ended = stripped(p.drop_last());
    lemma_without_return(p.drop_last());
    if p.last().len() != 0 {
        assert(ended.push(p.last()).drop_last() =~= ended);
    }
}

/// The offset a parser's line and column point at in `json`.
pub fn source_offset(json: &str, line: usize, column: usize) -> (r: usize)
    requires
        4 * json@.len() + 1 + column <= usize::MAX,
    ensures
        r == source_offset_of(json@, line as nat, column as nat),
{
    let row = if line > 0 { line - 1 } else { 0 };
    let col = if column > 0 { column - 1 } else { 0 };
    let rows = lines(json);
    let ghost rv = rows_view(rows@);
    proof {
        lemma_lines_total(json@);
    }
    assert(rv.len() == rows.len());
    let mut offset: usize = 0;
    let mut index: usize = 0;
    assert(rv.take(0) =~= Seq::<Seq<char>>::empty());
    while index < rows.len()
        invariant
            index <= rows.len(),
            rv == rows_view(rows@),
            rv.len() == rows.len(),
            rv == lines_of(json@),
            rows_total(rv) <= 4 * json@.len() + 1,
            4 * json@.len() + 1 + column <= usize::MAX,
            col <= column,
            row as nat == (if line > 0 { (line - 1) as nat } else { 0 }),
            col as nat == (if column > 0 { (column - 1) as nat } else { 0 }),
            index <= row,
            offset == rows_total(rv.take(index as int)),
        decreases rows.len() - index,
    {
        proof {
            lemma_rows_total_prefix(rv, index + 1);
            assert(rv.take(index + 1).drop_last() =~= rv.take(index as int));
            assert(rv.take(index + 1).last() == rv[index as int]);
        }
        if index == row {
            proof {
                lemma_rows_total_prefix(rv, index as int);
            }
            return offset + col;
        }
        assert(rows_total(rv.take(index + 1)) == rows_total(rv.take(index as int)) + byte_len(rv[index as int]) + 1);
        assert(rv[index as int] == rows@[index as int]@);
        let width = row_width(&rows[index]);
        offset = offset + width + 1;
        index = index + 1;
    }
    proof {
        assert(rv.take(index as int) =~= rv);
    }
    offset
}

/// The bytes UTF-8 takes for a row.
fn row_width(row: &Vec<char>) -> (r: usize)
    requires
        byte_len(row@) <= usize::MAX,
    ensures
        r == byte_len(row@),
{
    let mut total: usize = 0;
    let mut i: usize = 0;
    assert(row@.take(0) =~= Seq::<char>::empty());
    while i < row.len()
        invariant
            i <= row.len(),
            byte_len(row@) <= usize::MAX,
            total == byte_len(row@.take(i as int)),
        decreases row.len() - i,
    {
        let c = row[i];
        let u = c as u32;
        let w: usize = if u < 0x80 {
            1
        } else if u < 0x800 {
            2
        } else if u < 0x10000 {
            3
        } else {
            4
        };
        assert(w == utf8_width(c));
        proof {
            assert(row@.take(i + 1).drop_last() =~= row@.take(i as int));
            lemma_byte_len_split(row@.take(i + 1), row@.skip(i + 1));
            assert(row@.take(i + 1) + row@.skip(i + 1) =~= row@);
        }
        total = total + w;
        i = i + 1;
        assert(row@.take(i as int).drop_last() =~= row@.take(i - 1));
    }
    assert(row@.take(i as int) =~= row@);
    total
}

/// The lines of `json`, as `str::lines` gives them.
pub fn lines(json: &str) -> (r: Vec<Vec<char>>)
    ensures
        rows_view(r@) == lines_of(json@),
{
    let parts = crate::visualize::split_at_char(json, '\n');
    let ghost pv = parts@.map_values(|p: Vec<char>| p@);
    let last = parts.len() - 1;
    let mut r: Vec<Vec<char>> = Vec::new();
    let mut i: usize = 0;
    while i < last
        invariant
            i <= last,
            last == parts.len() - 1,
            parts.len() >= 1,
            pv == parts@.map_values(|p: Vec<char>| p@),
            pv == pieces(json@, '\n'),
            rows_view(r@) == stripped(pv.take(i as int)),
        decreases last - i,
    {
        let mut line: Vec<char> = Vec::new();
        let n = parts[i].len();
        let keep = if n > 0 && parts[i][n - 1] == '\r' { n - 1 } else { n };
        let mut k: usize = 0;
        while k < keep
            invariant
                k <= keep,
                i < parts.len(),
                keep <= parts@[i as int].len(),
                line@ == parts@[i as int]@.take(k as int),
            decreases keep - k,
        {
            line.push(parts[i][k]);
            k = k + 1;
            assert(line@ =~= parts@[i as int]@.take(k as int));
        }
        assert(line@ =~= without_return(pv[i as int]));
        let ghost before = r@;
        r.push(line);
        assert(rows_view(r@) =~= rows_view(before).push(line@));
        assert(stripped(pv.take(i + 1)) =~= stripped(pv.take(i as int)).push(without_return(pv[i as int])));
        i = i + 1;
    }
    assert(pv.take(last as int) =~= pv.drop_last());
    if parts[last].len() > 0 {
        let mut line: Vec<char> = Vec::new();
        let mut k: usize = 0;
        while k < parts[last].len()
            invariant
                last < parts.len(),
                k <= parts@[last as int].len(),
                line@ == parts@[last as int]@.take(k as int),
            decreases parts@[last as int].len() - k,
        {
            line.push(parts[last][k]);
            k = k + 1;
            assert(line@ =~= parts@[last as int]@.take(k as int));
        }
        assert(line@ =~= pv.last());
        r.push(line);
    }
    r
}

/// The help shown with a document that failed to deserialize.
pub fn deserialization_help(target: &str, source: &str) -> (r: String)
    ensures
        r@ == "In file: "@ + source@ + "\nExpected type: "@ + target@
            + "\nCheck that your structure matches the expected target format."@,
{
    let mut out: Vec<char> = Vec::new();
    extend_str(&mut out, "In file: ");
    extend_str(&mut out, source);
    extend_str(&mut out, "\nExpected type: ");
    extend_str(&mut out, target);
    extend_str(&mut out, "\nCheck that your structure matches the expected target format.");
    string_of(&out)
}

} // verus!
