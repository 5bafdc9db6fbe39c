//! The excerpt of source text that goes with a parse error.

use crate::text::{append_chars, chars_of, decimal, decimal_of, lines, split_lines, string_of, views};
use vstd::prelude::*;

verus! {

/// Where a parse error lies in the source: the line and the column at which
/// it starts, and the line at which it ends. Lines are counted from one,
/// columns from zero.
#[derive(Clone, Copy, Debug, PartialEq, Eq)]
pub struct ErrorSpan {
    pub start_line: usize,
    pub start_column: usize,
    pub end_line: usize,
}

/// `n` spaces.
pub open spec fn spaces(n: nat) -> Seq<char> {
    Seq::new(n, |i: int| ' ')
}

/// `s` behind as many spaces as bring it to `width` characters.
pub open spec fn pad_left(s: Seq<char>, width: nat) -> Seq<char> {
    if s.len() >= width {
        s
    } else {
        spaces((width - s.len()) as nat) + s
    }
}

/// A line of the excerpt: the line's number, right-aligned in four columns,
/// a bar, the line, a line feed.
pub open spec fn numbered_line(number: nat, line: Seq<char>) -> Seq<char> {
    pad_left(decimal(number), 4) + seq![' ', '|', ' '] + line + seq!['\n']
}

/// How far into a numbered line its text begins: behind the number, which
/// takes four columns or more, and the bar with a space on either side.
pub open spec fn text_offset(number: nat) -> nat {
    pad_left(decimal(number), 4).len() + 3
}

/// The line that marks the column of the error under the line with the
/// given number: a caret under that column of the text of the line above.
pub open spec fn marker_line(number: nat, column: nat) -> Seq<char> {
    seq![' ', 'E', 'r', 'r', ':', '|'] + spaces((text_offset(number) - 6 + column) as nat)
        + seq!['^', '\n']
}

/// The caret of the marker line stands where the character at `column` of
/// the text stands in the numbered line above it, and nowhere else.
pub proof fn caret_stands_under_the_column(number: nat, line: Seq<char>, column: nat)
    ensures
        text_offset(number) >= 7,
        marker_line(number, column).len() == text_offset(number) + column + 2,
        marker_line(number, column)[(text_offset(number) + column) as int] == '^',
        forall|i: int|
            0 <= i < text_offset(number) + column ==> marker_line(number, column)[i] != '^',
        column < line.len() ==> numbered_line(number, line)[(text_offset(number) + column) as int]
            == line[column as int],
{
    let head = seq![' ', 'E', 'r', 'r', ':', '|'];
    let gap = spaces((text_offset(number) - 6 + column) as nat);
    let marker = marker_line(number, column);
    assert(marker == head + gap + seq!['^', '\n']);
    assert forall|i: int| 0 <= i < text_offset(number) + column implies marker[i] != '^' by {
        if i < 6 {
            assert(marker[i] == head[i]);
        } else {
            assert(marker[i] == gap[i - 6]);
        }
    }
    if column < line.len() {
        let front = pad_left(decimal(number), 4) + seq![' ', '|', ' '];
        assert(numbered_line(number, line) == front + line + seq!['\n']);
    }
}

/// The first line of the excerpt, counted from zero: the line before the
/// line at which the error starts.
pub open spec fn first_row(span: ErrorSpan) -> nat {
    if span.start_line >= 2 {
        (span.start_line - 2) as nat
    } else {
        0
    }
}

/// The line after the last line of the excerpt, counted from zero: the
/// excerpt ends two lines after the line at which the error ends, or with
/// the source.
pub open spec fn end_row(span: ErrorSpan, line_count: nat) -> nat {
    if span.end_line + 2 <= line_count {
        (span.end_line + 2) as nat
    } else {
        line_count
    }
}

/// The rows of the excerpt for the lines from `from` up to, not including,
/// `to`, counted from zero; the marker follows the line at which the error
/// starts.
pub open spec fn rows(text_lines: Seq<Seq<char>>, span: ErrorSpan, from: nat, to: nat) -> Seq<
    char,
>
    decreases to,
{
    if to <= from || to > text_lines.len() {
        Seq::empty()
    } else {
        rows(text_lines, span, from, (to - 1) as nat) + numbered_line(to, text_lines[to - 1]) + (
        if to == span.start_line {
            marker_line(to, span.start_column as nat)
        } else {
            Seq::empty()
        })
    }
}

/// The excerpt for an error at `span` in `source`.
pub open spec fn error_context(source: Seq<char>, span: ErrorSpan) -> Seq<char> {
    rows(lines(source), span, first_row(span), end_row(span, lines(source).len()))
}

/// Appends `n` spaces.
fn push_spaces(out: &mut Vec<char>, n: usize)
    ensures
        final(out)@ == old(out)@ + spaces(n as nat),
{
    let mut i: usize = 0;
    assert(out@ + spaces(0) =~= out@);
    while i < n
        invariant
            i <= n,
            out@ == old(out)@ + spaces(i as nat),
        decreases n - i,
    {
        out.push(' ');
        assert(spaces((i + 1) as nat) =~= spaces(i as nat).push(' '));
        assert(old(out)@ + spaces((i + 1) as nat) =~= (old(out)@ + spaces(i as nat)).push(' '));
        i += 1;
    }
}

/// The lines of `source` around the error, each with its number, and under
/// the line at which the error starts a caret that stands under the column
/// of the error in the text of that line. The
/// excerpt reaches from the line before the error starts to two lines after
/// the line at which it ends, as far as the source has these lines; it is
/// empty where the span lies outside the source.
pub fn get_error_context(source: &str, span: &ErrorSpan) -> (r: String)
    ensures
        r@ == error_context(source@, *span),
{
    let chars = chars_of(source);
    let text_lines = split_lines(&chars);
    let ghost all = views(text_lines@);
    let start: usize = if span.start_line >= 2 {
        span.start_line - 2
    } else {
        0
    };
    let end: usize = if span.end_line < text_lines.len() && text_lines.len() - span.end_line
        >= 2 {
        span.end_line + 2
    } else {
        text_lines.len()
    };
    let mut out: Vec<char> = Vec::new();
    if start >= end {
        assert(out@ =~= rows(all, *span, start as nat, end as nat));
        return string_of(&out);
    }
    let mut row: usize = start;
    assert(out@ =~= rows(all, *span, start as nat, row as nat));
    while row < end
        invariant
            start <= row <= end <= text_lines.len(),
            all == views(text_lines@),
            out@ == rows(all, *span, start as nat, row as nat),
        decreases end - row,
    {
        let number = row + 1;
        let ghost before = out@;
        let digits = decimal_of(number);
        let wider: usize = if digits.len() > 4 {
            digits.len() - 4
        } else {
            0
        };
        if digits.len() < 4 {
            push_spaces(&mut out, 4 - digits.len());
        } else {
            assert(out@ + Seq::<char>::empty() =~= out@);
        }
        append_chars(&mut out, &digits);
        let bar: Vec<char> = vec![' ', '|', ' '];
        assert(bar@ =~= seq![' ', '|', ' ']);
        append_chars(&mut out, &bar);
        append_chars(&mut out, &text_lines[row]);
        out.push('\n');
        assert(all[row as int] == text_lines@[row as int]@);
        assert(out@ =~= before + numbered_line(number as nat, all[row as int]));
        if number == span.start_line {
            let ghost with_line = out@;
            let head: Vec<char> = vec![' ', 'E', 'r', 'r', ':', '|'];
            assert(head@ =~= seq![' ', 'E', 'r', 'r', ':', '|']);
            append_chars(&mut out, &head);
            push_spaces(&mut out, 1);
            push_spaces(&mut out, wider);
            push_spaces(&mut out, span.start_column);
            out.push('^');
            out.push('\n');
            assert(text_offset(number as nat) - 6 == 1 + wider);
            assert(spaces(1) + spaces(wider as nat) + spaces(span.start_column as nat) =~= spaces(
                (text_offset(number as nat) - 6 + span.start_column) as nat,
            ));
            assert(out@ =~= with_line + marker_line(number as nat, span.start_column as nat));
        } else {
            assert(out@ + Seq::<char>::empty() =~= out@);
        }
        row += 1;
    }
    string_of(&out)
}

} // verus!
