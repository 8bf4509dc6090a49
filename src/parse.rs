//! Splitting the tab-delimited catalog text into rows of fields.
use vstd::prelude::*;
use crate::text::{chars_of, string_of};

verus! {

/// Field delimiter of the catalog.
pub const FIELD_DELIMITER: char = '\t';

/// Lines whose first character is this one are comments.
pub const COMMENT_MARKER: char = '#';

/// The pieces of `s` between occurrences of `d`; always at least one piece.
pub open spec fn split_spec(s: Seq<char>, d: char) -> Seq<Seq<char>>
    decreases s.len(),
{
    if s.len() == 0 {
        seq![Seq::<char>::empty()]
    } else {
        let prev = split_spec(s.drop_last(), d);
        if s.last() == d {
            prev.push(Seq::<char>::empty())
        } else {
            prev.update(prev.len() - 1, prev.last().push(s.last()))
        }
    }
}

/// A line with one trailing carriage return removed, if it has one.
pub open spec fn strip_cr(line: Seq<char>) -> Seq<char> {
    if line.len() > 0 && line.last() == '\r' {
        line.drop_last()
    } else {
        line
    }
}

/// A line that yields a row: not empty, and not a comment.
pub open spec fn is_data_line(line: Seq<char>) -> bool {
    line.len() > 0 && line[0] != COMMENT_MARKER
}

/// The rows of the data lines among `lines`, in order.
pub open spec fn rows_of_lines(lines: Seq<Seq<char>>) -> Seq<Seq<Seq<char>>>
    decreases lines.len(),
{
    if lines.len() == 0 {
        Seq::empty()
    } else {
        let prev = rows_of_lines(lines.drop_last());
        let line = strip_cr(lines.last());
        if is_data_line(line) {
            prev.push(split_spec(line, FIELD_DELIMITER))
        } else {
            prev
        }
    }
}

/// The rows of a whole catalog text.
pub open spec fn rows_spec(text: Seq<char>) -> Seq<Seq<Seq<char>>> {
    rows_of_lines(split_spec(text, '\n'))
}

fn split_chars(s: &Vec<char>, d: char) -> (r: Vec<Vec<char>>)
    ensures
        r.deep_view() == split_spec(s@, d),
{
    let mut done: Vec<Vec<char>> = Vec::new();
    let mut cur: Vec<char> = Vec::new();
    let mut i: usize = 0;
    while i < s.len()
        invariant
            i <= s.len(),
            done.deep_view().push(cur@) == split_spec(s@.take(i as int), d),
        decreases s.len() - i,
    {
        let c = s[i];
        proof {
            assert(s@.take(i as int + 1).drop_last() =~= s@.take(i as int));
        }
        if c == d {
            let ghost prev_done = done.deep_view();
            let ghost prev_cur = cur@;
            assert(cur.deep_view() =~= cur@);
            let piece = cur;
            done.push(piece);
            cur = Vec::new();
            assert(done.deep_view() =~= prev_done.push(prev_cur));
            assert(done.deep_view().push(cur@) =~= split_spec(s@.take(i as int + 1), d));
        } else {
            let ghost before = done.deep_view().push(cur@);
            cur.push(c);
            assert(done.deep_view().push(cur@) =~= before.update(before.len() - 1, before.last().push(c)));
        }
        i = i + 1;
    }
    assert(s@.take(s.len() as int) =~= s@);
    let ghost prev_done = done.deep_view();
    let ghost prev_cur = cur@;
    assert(cur.deep_view() =~= cur@);
    done.push(cur);
    assert(done.deep_view() =~= prev_done.push(prev_cur));
    assert(done.deep_view() =~= split_spec(s@, d));
    done
}

/// Splits catalog text into rows: lines end at `'\n'` (a trailing `'\r'` is dropped),
/// empty lines and lines starting with the comment marker are skipped, and each
/// remaining line is split strictly at every tab. Rows may differ in length.
pub fn parse_rows(text: &str) -> (r: Vec<Vec<String>>)
    ensures
        r.deep_view() == rows_spec(text@),
{
    let chars = chars_of(text);
    let lines = split_chars(&chars, '\n');
    let mut rows: Vec<Vec<String>> = Vec::new();
    let mut i: usize = 0;
    while i < lines.len()
        invariant
            i <= lines.len(),
            lines.deep_view() == split_spec(chars@, '\n'),
            rows.deep_view() == rows_of_lines(lines.deep_view().take(i as int)),
        decreases lines.len() - i,
    {
        proof {
            assert(lines.deep_view().take(i as int + 1).drop_last() =~= lines.deep_view().take(i as int));
        }
        assert(lines@[i as int].deep_view() =~= lines@[i as int]@);
        let mut line = lines[i].clone();
        assert(line@ == lines.deep_view()[i as int]);
        let n = line.len();
        if n > 0 && line[n - 1] == '\r' {
            line.pop();
        }
        assert(line@ =~= strip_cr(lines.deep_view()[i as int]));
        if line.len() > 0 && line[0] != COMMENT_MARKER {
            let pieces = split_chars(&line, FIELD_DELIMITER);
            let mut row: Vec<String> = Vec::new();
            let mut j: usize = 0;
            while j < pieces.len()
                invariant
                    j <= pieces.len(),
                    row.deep_view() == pieces.deep_view().take(j as int),
                decreases pieces.len() - j,
            {
                assert(pieces@[j as int].deep_view() =~= pieces@[j as int]@);
                let field = string_of(&pieces[j]);
                let ghost prev_row = row.deep_view();
                row.push(field);
                assert(row.deep_view() =~= prev_row.push(pieces.deep_view()[j as int]));
                assert(row.deep_view() =~= pieces.deep_view().take(j as int + 1));
                j = j + 1;
            }
            assert(pieces.deep_view().take(pieces.len() as int) =~= pieces.deep_view());
            rows.push(row);
            assert(rows.deep_view() =~= rows_of_lines(lines.deep_view().take(i as int + 1)));
        } else {
            assert(rows.deep_view() =~= rows_of_lines(lines.deep_view().take(i as int + 1)));
        }
        i = i + 1;
    }
    assert(lines.deep_view().take(lines.len() as int) =~= lines.deep_view());
    rows
}

} // verus!
