//! Reports a scanning error as an annotated excerpt of the source: a header
//! with the file, line and column, up to four lines of context ending at the
//! offending line with the error's span highlighted, a caret or tildes under
//! it, and the kind of error with its message.
use vstd::prelude::*;

use crate::error::{error_label, Error};
use crate::text::{chars_of, collect_chars, push_chars, push_repeated, repeat};

verus! {

pub const STYLE_BOLD: &'static str = "\x1B[1m";
pub const STYLE_RESET: &'static str = "\x1B[0m";
pub const COLOUR_RED: &'static str = "\x1B[31m";
pub const COLOUR_GREEN: &'static str = "\x1B[32m";
pub const COLOUR_CYAN: &'static str = "\x1B[36m";
pub const COLOUR_RESET: &'static str = "\x1B[39m";

/// Line and column (both from 1) after the first `n` characters of `s`;
/// lines are counted by `\n`.
pub open spec fn line_col(s: Seq<char>, n: int) -> (int, int)
    decreases n,
{
    if n <= 0 {
        (1, 1)
    } else if s[n - 1] == '\n' {
        (line_col(s, n - 1).0 + 1, 1)
    } else {
        (line_col(s, n - 1).0, line_col(s, n - 1).1 + 1)
    }
}

/// The lines of `s` as they stand between `\n`s; the last one may be empty.
pub open spec fn raw_lines(s: Seq<char>) -> Seq<Seq<char>>
    decreases s.len(),
{
    if s.len() == 0 {
        seq![seq![]]
    } else {
        let init = raw_lines(s.drop_last());
        if s.last() == '\n' {
            init.push(seq![])
        } else {
            init.update(init.len() - 1, init.last().push(s.last()))
        }
    }
}

/// A line without the `\r` of a `\r\n` ending.
pub open spec fn strip_cr(l: Seq<char>) -> Seq<char> {
    if l.len() > 0 && l.last() == '\r' {
        l.drop_last()
    } else {
        l
    }
}

/// The lines of `s`, without their line endings.
pub open spec fn lines_of(s: Seq<char>) -> Seq<Seq<char>> {
    raw_lines(s).map_values(|l: Seq<char>| strip_cr(l))
}

/// The lines shown for an error on line `line` (from 1): that line and up to
/// three before it, as far as the source has them.
pub open spec fn context_lines(s: Seq<char>, line: int) -> Seq<Seq<char>> {
    let first = line - if line < 4 { line } else { 4 };
    let last = if line < lines_of(s).len() { line } else { lines_of(s).len() as int };
    if first < last {
        lines_of(s).subrange(first, last)
    } else {
        seq![]
    }
}

pub open spec fn digit_char(d: int) -> char {
    if d == 0 {
        '0'
    } else if d == 1 {
        '1'
    } else if d == 2 {
        '2'
    } else if d == 3 {
        '3'
    } else if d == 4 {
        '4'
    } else if d == 5 {
        '5'
    } else if d == 6 {
        '6'
    } else if d == 7 {
        '7'
    } else if d == 8 {
        '8'
    } else {
        '9'
    }
}

/// `n` written in decimal.
pub open spec fn decimal_text(n: nat) -> Seq<char>
    decreases n,
{
    if n < 10 {
        seq![digit_char(n as int)]
    } else {
        decimal_text(n / 10).push(digit_char((n % 10) as int))
    }
}


pub open spec fn clamp(x: int, hi: int) -> int {
    if x < hi { x } else { hi }
}

/// Number of characters a span covers; zero for an inverted span.
pub open spec fn span_len(e: Error) -> int {
    if e.token.span.start <= e.token.span.end {
        e.token.span.end - e.token.span.start
    } else {
        0
    }
}

/// The context row numbered `n`; the offending line `l` (its columns from
/// `col`) gets its span highlighted.
pub open spec fn context_row(n: nat, width: int, text: Seq<char>, highlight: bool, col: int, len: int) -> Seq<char> {
    let head = COLOUR_CYAN@ + STYLE_BOLD@ + repeat(' ', width - decimal_text(n).len()) + decimal_text(n) + " | "@
        + COLOUR_RESET@ + STYLE_RESET@;
    if highlight {
        let from = clamp(col - 1, text.len() as int);
        let to = clamp(from + len, text.len() as int);
        head + text.subrange(0, from) + COLOUR_GREEN@ + STYLE_BOLD@ + text.subrange(from, to) + COLOUR_RESET@
            + text.subrange(to, text.len() as int)
    } else {
        head + text
    }
}

/// The report for `e` on source `s` from file `file`, line by line.
pub open spec fn report(e: Error, s: Seq<char>, file: Seq<char>) -> Seq<Seq<char>> {
    let at = clamp(e.token.span.start as int, s.len() as int);
    let line = line_col(s, at).0;
    let col = line_col(s, at).1;
    let width = decimal_text(line as nat).len() + 1int;
    let pad = repeat(' ', width);
    let ctx = context_lines(s, line);
    let first = line - if line < 4 { line } else { 4 };
    let len = span_len(e);
    let rows = Seq::new(
        ctx.len(),
        |i: int| context_row((first + i + 1) as nat, width, ctx[i], first + i + 1 == line, col, len),
    );
    let underline = if len > 1 {
        COLOUR_CYAN@ + STYLE_BOLD@ + pad + " | "@ + COLOUR_GREEN@ + repeat(' ', col - 1) + repeat('~', len)
    } else {
        COLOUR_CYAN@ + pad + " | "@ + COLOUR_GREEN@ + STYLE_BOLD@ + repeat(' ', col - 1) + "^"@
    };
    seq![
        seq![],
        COLOUR_CYAN@ + STYLE_BOLD@ + pad + "--> "@ + COLOUR_RESET@ + file + ":"@ + decimal_text(line as nat)
            + ":"@ + decimal_text(col as nat),
        COLOUR_CYAN@ + STYLE_BOLD@ + pad + " |"@,
    ] + rows + seq![
        underline,
        seq![],
        COLOUR_RED@ + STYLE_BOLD@ + " "@ + error_label(e.error_type) + " "@ + COLOUR_RESET@ + ":: "@ + e.message@
            + COLOUR_RESET@ + STYLE_RESET@,
    ]
}

pub proof fn lemma_line_col_bounds(s: Seq<char>, n: int)
    requires
        0 <= n,
    ensures
        1 <= line_col(s, n).0 <= n + 1,
        1 <= line_col(s, n).1 <= n + 1,
    decreases n,
{
    if n > 0 {
        lemma_line_col_bounds(s, n - 1);
    }
}

pub proof fn lemma_decimal_len(n: nat)
    ensures
        1 <= decimal_text(n).len(),
        decimal_text(n).len() <= n || n == 0,
        n >= 2 ==> decimal_text(n).len() < n,
    decreases n,
{
    if n >= 10 {
        lemma_decimal_len(n / 10);
    }
}

pub proof fn lemma_raw_lines_nonempty(s: Seq<char>)
    ensures
        raw_lines(s).len() >= 1,
    decreases s.len(),
{
    if s.len() > 0 {
        lemma_raw_lines_nonempty(s.drop_last());
    }
}

/// Line and column (both from 1) of offset `index` in `cs`; an offset past
/// the end stands for the end.
fn line_column_in(cs: &Vec<char>, index: usize) -> (r: (usize, usize))
    requires
        cs@.len() < usize::MAX,
    ensures
        r.0 == line_col(cs@, clamp(index as int, cs@.len() as int)).0,
        r.1 == line_col(cs@, clamp(index as int, cs@.len() as int)).1,
{
    let n = if index < cs.len() {
        index
    } else {
        cs.len()
    };
    let mut line: usize = 1;
    let mut column: usize = 1;
    let mut k: usize = 0;
    while k < n
        invariant
            k <= n <= cs@.len() < usize::MAX,
            line == line_col(cs@, k as int).0,
            column == line_col(cs@, k as int).1,
        decreases n - k,
    {
        proof {
            lemma_line_col_bounds(cs@, k as int);
        }
        if cs[k] == '\n' {
            line = line + 1;
            column = 1;
        } else {
            column = column + 1;
        }
        k = k + 1;
    }
    (line, column)
}

/// Line and column (both from 1) of character offset `index` in `source`,
/// counting lines by `\n`; an offset past the end stands for the end.
pub fn find_line_column(source: &str, index: usize) -> (r: (usize, usize))
    requires
        source@.len() < usize::MAX,
    ensures
        r.0 == line_col(source@, clamp(index as int, source@.len() as int)).0,
        r.1 == line_col(source@, clamp(index as int, source@.len() as int)).1,
{
    let cs = chars_of(source);
    line_column_in(&cs, index)
}

/// The lines of `cs`, without their line endings.
fn split_lines(cs: &Vec<char>) -> (r: Vec<Vec<char>>)
    ensures
        r@.len() == lines_of(cs@).len(),
        forall|k: int| 0 <= k < r@.len() ==> (#[trigger] r@[k])@ == lines_of(cs@)[k],
{
    let ghost s = cs@;
    let mut out: Vec<Vec<char>> = Vec::new();
    let mut start: usize = 0;
    let mut k: usize = 0;
    while k < cs.len()
        invariant
            s == cs@,
            start <= k <= s.len(),
            raw_lines(s.subrange(0, k as int)).len() == out@.len() + 1,
            forall|j: int| 0 <= j < out@.len() ==> (#[trigger] out@[j])@ == strip_cr(raw_lines(s.subrange(0, k as int))[j]),
            raw_lines(s.subrange(0, k as int)).last() == s.subrange(start as int, k as int),
        decreases s.len() - k,
    {
        let ghost before = raw_lines(s.subrange(0, k as int));
        proof {
            lemma_raw_lines_nonempty(s.subrange(0, k as int));
            assert(s.subrange(0, k + 1).drop_last() == s.subrange(0, k as int));
        }
        if cs[k] == '\n' {
            let end = if k > start && cs[k - 1] == '\r' {
                k - 1
            } else {
                k
            };
            let line = slice_vec(cs, start, end);
            proof {
                let raw = s.subrange(start as int, k as int);
                if k > start && s[k - 1] == '\r' {
                    assert(raw.drop_last() == s.subrange(start as int, end as int));
                }
            }
            out.push(line);
            start = k + 1;
        } else {
            proof {
                assert(s.subrange(start as int, k + 1) == s.subrange(start as int, k as int).push(s[k as int]));
            }
        }
        k = k + 1;
    }
    proof {
        lemma_raw_lines_nonempty(s);
        assert(s.subrange(0, s.len() as int) == s);
    }
    let raw_end = k;
    let end = if raw_end > start && cs[raw_end - 1] == '\r' {
        raw_end - 1
    } else {
        raw_end
    };
    proof {
        let raw = s.subrange(start as int, raw_end as int);
        if raw_end > start && s[raw_end - 1] == '\r' {
            assert(raw.drop_last() == s.subrange(start as int, end as int));
        }
    }
    out.push(slice_vec(cs, start, end));
    out
}

/// The characters of `cs` in `[from, to)`.
fn slice_vec(cs: &Vec<char>, from: usize, to: usize) -> (r: Vec<char>)
    requires
        from <= to <= cs@.len(),
    ensures
        r@ == cs@.subrange(from as int, to as int),
{
    let mut out: Vec<char> = Vec::new();
    let mut k = from;
    while k < to
        invariant
            from <= k <= to <= cs@.len(),
            out@ == cs@.subrange(from as int, k as int),
        decreases to - k,
    {
        out.push(cs[k]);
        proof {
            assert(cs@.subrange(from as int, k + 1) == cs@.subrange(from as int, k as int).push(cs@[k as int]));
        }
        k = k + 1;
    }
    out
}

fn digit(d: usize) -> (r: char)
    requires
        d < 10,
    ensures
        r == digit_char(d as int),
{
    match d {
        0 => '0',
        1 => '1',
        2 => '2',
        3 => '3',
        4 => '4',
        5 => '5',
        6 => '6',
        7 => '7',
        8 => '8',
        _ => '9',
    }
}

/// `n` written in decimal.
pub fn decimal(n: usize) -> (r: String)
    ensures
        r@ == decimal_text(n as nat),
    decreases n,
{
    if n < 10 {
        let mut r = String::new();
        r.push(digit(n));
        r
    } else {
        let mut r = decimal(n / 10);
        r.push(digit(n % 10));
        r
    }
}

/// The source lines shown for an error on line `line_num` (from 1): that
/// line and up to three before it, as far as the source has them.
pub fn get_context_lines(input: &str, line_num: usize) -> (r: Vec<String>)
    ensures
        r@.len() == context_lines(input@, line_num as int).len(),
        forall|k: int| 0 <= k < r@.len() ==> (#[trigger] r@[k])@ == context_lines(input@, line_num as int)[k],
{
    let cs = chars_of(input);
    let lines = split_lines(&cs);
    context_of(&lines, line_num)
}

fn context_of(lines: &Vec<Vec<char>>, line_num: usize) -> (r: Vec<String>)
    ensures
        ({
            let first = line_num - if line_num < 4 { line_num as int } else { 4 };
            let last = if line_num < lines@.len() { line_num as int } else { lines@.len() as int };
            &&& r@.len() == if first < last { last - first } else { 0 }
            &&& forall|k: int| 0 <= k < r@.len() ==> (#[trigger] r@[k])@ == lines@[first + k]@
        }),
{
    let first = line_num - if line_num < 4 {
        line_num
    } else {
        4
    };
    let last = if line_num < lines.len() {
        line_num
    } else {
        lines.len()
    };
    let mut out: Vec<String> = Vec::new();
    let mut k = first;
    while k < last
        invariant
            first == line_num - if line_num < 4 { line_num as int } else { 4 },
            last == if line_num < lines@.len() { line_num as int } else { lines@.len() as int },
            first <= k,
            last <= lines@.len(),
            k <= last || k == first,
            out@.len() == k - first,
            forall|j: int| 0 <= j < out@.len() ==> (#[trigger] out@[j])@ == lines@[first + j]@,
        decreases last - k,
    {
        let line = &lines[k];
        out.push(collect_chars(line, 0, line.len()));
        proof {
            assert(line@.subrange(0, line@.len() as int) == line@);
        }
        k = k + 1;
    }
    out
}

/// One context row: the line number right-aligned in `width` columns, a
/// gutter, and the line's text, with the span highlighted on the offending
/// line.
fn context_row_text(n: usize, width: usize, text: &Vec<char>, highlight: bool, col: usize, len: usize) -> (r: String)
    requires
        col >= 1,
    ensures
        r@ == context_row(n as nat, width as int, text@, highlight, col as int, len as int),
{
    let mut r = String::new();
    r.append(COLOUR_CYAN);
    r.append(STYLE_BOLD);
    let number = decimal(n);
    let digits = number.as_str().unicode_len();
    if digits < width {
        push_repeated(&mut r, ' ', width - digits);
    } else {
        push_repeated(&mut r, ' ', 0);
    }
    r.append(number.as_str());
    r.append(" | ");
    r.append(COLOUR_RESET);
    r.append(STYLE_RESET);
    if highlight {
        let from = if col - 1 < text.len() {
            col - 1
        } else {
            text.len()
        };
        let to = if len < text.len() - from {
            from + len
        } else {
            text.len()
        };
        push_chars(&mut r, text, 0, from);
        r.append(COLOUR_GREEN);
        r.append(STYLE_BOLD);
        push_chars(&mut r, text, from, to);
        r.append(COLOUR_RESET);
        push_chars(&mut r, text, to, text.len());
    } else {
        push_chars(&mut r, text, 0, text.len());
        proof {
            assert(text@.subrange(0, text@.len() as int) == text@);
        }
    }
    r
}

/// The report for `error` on `source`, read from `file_name`, one string per
/// output line.
pub fn render_error(error: &Error, source: &str, file_name: &str) -> (r: Vec<String>)
    requires
        source@.len() < usize::MAX,
    ensures
        r@.len() == report(*error, source@, file_name@).len(),
        forall|k: int| 0 <= k < r@.len() ==> (#[trigger] r@[k])@ == report(*error, source@, file_name@)[k],
{
    let ghost s = source@;
    let ghost rep = report(*error, s, file_name@);
    let cs = chars_of(source);
    let (line, col) = line_column_in(&cs, error.token.span.start);
    let ghost at = clamp(error.token.span.start as int, s.len() as int);
    proof {
        lemma_line_col_bounds(s, at);
        lemma_decimal_len(line as nat);
    }
    let lines = split_lines(&cs);
    let width = decimal(line).as_str().unicode_len() + 1;
    let len = error.token.span.len();
    let first = line - if line < 4 {
        line
    } else {
        4
    };
    let last = if line < lines.len() {
        line
    } else {
        lines.len()
    };
    let ghost ctx = context_lines(s, line as int);
    let ghost n_rows: int = if first < last { last - first } else { 0 };
    assert(ctx.len() == n_rows);

    let mut out: Vec<String> = Vec::new();
    out.push(String::new());
    let mut header = String::new();
    header.append(COLOUR_CYAN);
    header.append(STYLE_BOLD);
    push_repeated(&mut header, ' ', width);
    header.append("--> ");
    header.append(COLOUR_RESET);
    header.append(file_name);
    header.append(":");
    header.append(decimal(line).as_str());
    header.append(":");
    header.append(decimal(col).as_str());
    out.push(header);
    let mut gutter = String::new();
    gutter.append(COLOUR_CYAN);
    gutter.append(STYLE_BOLD);
    push_repeated(&mut gutter, ' ', width);
    gutter.append(" |");
    out.push(gutter);
    assert(out@[0]@ == rep[0]);
    assert(out@[1]@ == rep[1]);
    assert(out@[2]@ == rep[2]);

    let mut k = first;
    while k < last
        invariant
            first == line - if line < 4 { line as int } else { 4 },
            last == if line < lines@.len() { line as int } else { lines@.len() as int },
            lines@.len() == lines_of(s).len(),
            forall|j: int| 0 <= j < lines@.len() ==> (#[trigger] lines@[j])@ == lines_of(s)[j],
            ctx == context_lines(s, line as int),
            rep == report(*error, s, file_name@),
            line == line_col(s, at).0,
            col == line_col(s, at).1,
            col >= 1,
            width == decimal_text(line as nat).len() + 1,
            len == span_len(*error),
            at == clamp(error.token.span.start as int, s.len() as int),
            first <= k,
            last <= lines@.len(),
            k <= last || k == first,
            out@.len() == 3 + k - first,
            forall|j: int| 0 <= j < out@.len() ==> (#[trigger] out@[j])@ == rep[j],
        decreases last - k,
    {
        let row = context_row_text(k + 1, width, &lines[k], k + 1 == line, col, len);
        proof {
            let i = k - first;
            assert(ctx[i] == lines_of(s)[k as int]);
            assert(rep[3 + i] == context_row((first + i + 1) as nat, width as int, ctx[i], first + i + 1 == line, col as int, len as int));
        }
        out.push(row);
        k = k + 1;
    }
    let mut underline = String::new();
    if len > 1 {
        underline.append(COLOUR_CYAN);
        underline.append(STYLE_BOLD);
        push_repeated(&mut underline, ' ', width);
        underline.append(" | ");
        underline.append(COLOUR_GREEN);
        push_repeated(&mut underline, ' ', col - 1);
        push_repeated(&mut underline, '~', len);
    } else {
        underline.append(COLOUR_CYAN);
        push_repeated(&mut underline, ' ', width);
        underline.append(" | ");
        underline.append(COLOUR_GREEN);
        underline.append(STYLE_BOLD);
        push_repeated(&mut underline, ' ', col - 1);
        underline.append("^");
    }
    let mut summary = String::new();
    summary.append(COLOUR_RED);
    summary.append(STYLE_BOLD);
    summary.append(" ");
    summary.append(error.error_type.to_string().as_str());
    summary.append(" ");
    summary.append(COLOUR_RESET);
    summary.append(":: ");
    summary.append(error.message.as_str());
    summary.append(COLOUR_RESET);
    summary.append(STYLE_RESET);
    let ghost m: int = out@.len() as int;
    out.push(underline);
    out.push(String::new());
    out.push(summary);
    assert(out@[m]@ == rep[m]);
    assert(out@[m + 1]@ == rep[m + 1]);
    assert(out@[m + 2]@ == rep[m + 2]);
    out
}

} // verus!
