use vstd::prelude::*;
use vstd::string::StringExecFns;

verus! {

/// The position of the first line feed in `s` at or after `i`, or the
/// length of `s` when there is none.
pub open spec fn line_end(s: Seq<char>, i: int) -> int
    decreases s.len() - i,
{
    if i >= s.len() || i < 0 {
        s.len() as int
    } else if s[i] == '\n' {
        i
    } else {
        line_end(s, i + 1)
    }
}

/// A line ended by a line feed loses a carriage return before it.
pub open spec fn strip_cr(line: Seq<char>) -> Seq<char> {
    if line.len() > 0 && line.last() == '\r' {
        line.drop_last()
    } else {
        line
    }
}

/// The lines of `s`: split at each line feed, a `\r\n` ending counting as
/// one; a final line ending opens no further line.
pub open spec fn lines_spec(s: Seq<char>) -> Seq<Seq<char>>
    decreases s.len(),
{
    if s.len() == 0 {
        seq![]
    } else {
        let e = line_end(s, 0);
        if e < 0 || e >= s.len() {
            seq![s]
        } else {
            seq![strip_cr(s.subrange(0, e))] + lines_spec(s.subrange(e + 1, s.len() as int))
        }
    }
}

/// The views of `lines`.
pub open spec fn views(lines: Seq<String>) -> Seq<Seq<char>> {
    lines.map_values(|l: String| l@)
}

/// Relies on `str::lines`: splits at `\n` and at `\r\n`, with no empty last
/// line after a final line ending.
#[verifier::external_body]
fn split_lines(s: &str) -> (r: Vec<String>)
    ensures
        views(r@) == lines_spec(s@),
{
    s.lines().map(|l| l.to_string()).collect()
}

/// The lines joined with a line feed between each two.
pub open spec fn join_lines(lines: Seq<Seq<char>>) -> Seq<char>
    decreases lines.len(),
{
    if lines.len() == 0 {
        seq![]
    } else if lines.len() == 1 {
        lines[0]
    } else {
        join_lines(lines.drop_last()) + seq!['\n'] + lines.last()
    }
}

/// The text of screen row `row` as it shows in `contents`, empty past the
/// last line.
pub open spec fn cursor_line_spec(contents: Seq<char>, row: int) -> Seq<char> {
    let lines = lines_spec(contents);
    if 0 <= row < lines.len() {
        lines[row]
    } else {
        seq![]
    }
}

/// The line of `row`, clamped to the last line there is, with up to five
/// lines before it.
pub open spec fn lines_near_spec(contents: Seq<char>, row: int) -> Seq<char> {
    let lines = lines_spec(contents);
    if lines.len() == 0 {
        seq![]
    } else {
        let clamped = if row < lines.len() - 1 { row } else { lines.len() - 1 };
        let start = if clamped >= 5 { clamped - 5 } else { 0 };
        join_lines(lines.subrange(start, clamped + 1))
    }
}

/// The line the cursor is on, from a screen's flattened `contents`.
pub fn cursor_line(contents: &str, row: usize) -> (r: String)
    ensures
        r@ == cursor_line_spec(contents@, row as int),
{
    let lines = split_lines(contents);
    if row < lines.len() {
        proof {
            assert(views(lines@)[row as int] == lines@[row as int]@);
        }
        lines[row].clone()
    } else {
        String::new()
    }
}

/// The cursor's line and up to five lines before it, from a screen's
/// flattened `contents`; the row is clamped to the lines there are.
pub fn lines_near_cursor(contents: &str, row: usize) -> (r: String)
    ensures
        r@ == lines_near_spec(contents@, row as int),
{
    let lines = split_lines(contents);
    let ghost all = views(lines@);
    if lines.len() == 0 {
        return String::new();
    }
    let clamped = if row < lines.len() - 1 { row } else { lines.len() - 1 };
    let start = if clamped >= 5 { clamped - 5 } else { 0 };
    let mut out = lines[start].clone();
    let mut i: usize = start + 1;
    proof {
        reveal_strlit("\n");
        assert(all.subrange(start as int, start + 1) =~= seq![all[start as int]]);
    }
    while i <= clamped
        invariant
            all == views(lines@),
            start < i <= clamped + 1,
            clamped < lines@.len(),
            lines@.len() <= usize::MAX,
            out@ == join_lines(all.subrange(start as int, i as int)),
        decreases clamped + 1 - i,
    {
        proof {
            reveal_strlit("\n");
        }
        out.append("\n");
        out.append(lines[i].as_str());
        proof {
            let next = all.subrange(start as int, i + 1);
            assert(next.drop_last() =~= all.subrange(start as int, i as int));
            assert(next.last() == lines@[i as int]@);
            assert(out@ =~= join_lines(next));
        }
        i = i + 1;
    }
    out
}

} // verus!
