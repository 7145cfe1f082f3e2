//! The scanner described as mathematics: what one call of the scanner
//! returns, and where it leaves the cursor, for a source and an offset.
use vstd::prelude::*;

use crate::text::{alphabetic, alphanumeric};
use crate::token::{Lexeme, TokenKind};

verus! {

/// The character at offset `i`, or NUL past the end of the source.
pub open spec fn char_at(s: Seq<char>, i: int) -> char {
    if 0 <= i < s.len() {
        s[i]
    } else {
        '\0'
    }
}

/// `\n` or `\r`.
pub open spec fn is_line_break(c: char) -> bool {
    c == '\n' || c == '\r'
}

/// An ASCII decimal digit.
pub open spec fn is_digit(c: char) -> bool {
    '0' <= c <= '9'
}

/// One step of the cursor: a `\r\n` pair is crossed at once, any other
/// character alone; at the end of the source the cursor stays put.
pub open spec fn step(s: Seq<char>, i: int) -> int {
    if i >= s.len() {
        i
    } else if s[i] == '\r' && char_at(s, i + 1) == '\n' {
        i + 2
    } else {
        i + 1
    }
}

/// Offsets the cursor can stand on: never between the two halves of `\r\n`.
pub open spec fn at_boundary(s: Seq<char>, i: int) -> bool {
    !(0 < i < s.len() && s[i - 1] == '\r' && s[i] == '\n')
}

/// Line and column (both from 1) of offset `i`; `\r\n`, `\r` and `\n` each
/// end a line.
pub open spec fn pos_at(s: Seq<char>, i: int) -> (int, int)
    decreases i,
{
    if i <= 0 {
        (1, 1)
    } else if i >= 2 && s[i - 2] == '\r' && s[i - 1] == '\n' {
        (pos_at(s, i - 2).0 + 1, 1)
    } else if is_line_break(s[i - 1]) {
        (pos_at(s, i - 1).0 + 1, 1)
    } else {
        (pos_at(s, i - 1).0, pos_at(s, i - 1).1 + 1)
    }
}

/// End of a line comment's text that starts at `i`: the first line break or
/// NUL, or the end of the source.
pub open spec fn line_comment_end(s: Seq<char>, i: int) -> int
    decreases s.len() - i,
{
    if 0 <= i < s.len() && !is_line_break(s[i]) && s[i] != '\0' {
        line_comment_end(s, i + 1)
    } else {
        i
    }
}

/// Scans the body of a block comment from `i`, just after its `/*`.
/// `Ok((j, b))`: the comment closes with the `*/` that ends at `j`, and `b`
/// tells whether a line break occurred in it. `Err(j)`: the source ends
/// (or holds a NUL) at `j` before the comment closes.
pub open spec fn block_comment_end(s: Seq<char>, i: int, broke: bool) -> Result<(int, bool), int>
    decreases s.len() - i,
{
    if i < 0 || i >= s.len() || s[i] == '\0' {
        Err(i)
    } else if s[i] == '*' && char_at(s, i + 1) == '/' {
        Ok((i + 2, broke))
    } else {
        block_comment_end(s, step(s, i), broke || is_line_break(s[i]))
    }
}

/// The comment scans inside `skip_garbage` end past where they start.
#[via_fn]
pub proof fn skip_garbage_decreases(s: Seq<char>, i: int, newline: bool) {
    if 0 <= i < s.len() && s[i] == '/' && char_at(s, i + 1) == '/' {
        lemma_line_comment_end_bounds(s, i + 2);
    } else if 0 <= i < s.len() && s[i] == '/' && char_at(s, i + 1) == '*' {
        lemma_block_comment_end_bounds(s, i + 2, false);
    }
}

/// Skips spaces, line breaks and comments from `i`. `Ok((j, b))`: the run
/// ends at `j`, and `b` tells whether it held a line break (or `newline` was
/// already set). `Err((c, j))`: the block comment opened at `c` is never
/// closed; the source ends at `j`.
pub open spec fn skip_garbage(s: Seq<char>, i: int, newline: bool) -> Result<(int, bool), (int, int)>
    decreases s.len() - i,
    via skip_garbage_decreases
{
    if i < 0 || i >= s.len() {
        Ok((i, newline))
    } else if s[i] == ' ' {
        skip_garbage(s, i + 1, newline)
    } else if is_line_break(s[i]) {
        skip_garbage(s, step(s, i), true)
    } else if s[i] == '/' && char_at(s, i + 1) == '/' {
        skip_garbage(s, line_comment_end(s, i + 2), newline)
    } else if s[i] == '/' && char_at(s, i + 1) == '*' {
        match block_comment_end(s, i + 2, false) {
            Ok((j, b)) => skip_garbage(s, j, newline || b),
            Err(j) => Err((i, j)),
        }
    } else {
        Ok((i, newline))
    }
}

/// End of a maximal run of letters, digits and `_` from `i`.
pub open spec fn word_end(s: Seq<char>, i: int) -> int
    decreases s.len() - i,
{
    if 0 <= i < s.len() && (alphanumeric(s[i]) || s[i] == '_') {
        word_end(s, step(s, i))
    } else {
        i
    }
}

/// End of a maximal run of ASCII digits from `i`.
pub open spec fn digit_end(s: Seq<char>, i: int) -> int
    decreases s.len() - i,
{
    if 0 <= i < s.len() && is_digit(s[i]) {
        digit_end(s, i + 1)
    } else {
        i
    }
}

/// Scans string contents from `i`. `Ok(q)`: the closing quote is at `q`.
/// `Err((j, true))`: a line break at `j` comes first; `Err((j, false))`: the
/// end of the source (or a NUL) at `j` comes first. A backslash takes the
/// next character into the contents, so `\"` does not close the string.
pub open spec fn string_close(s: Seq<char>, i: int) -> Result<int, (int, bool)>
    decreases s.len() - i,
{
    if i < 0 || i >= s.len() || s[i] == '\0' {
        Err((i, false))
    } else if is_line_break(s[i]) {
        Err((i, true))
    } else if s[i] == '"' {
        Ok(i)
    } else if s[i] == '\\' && char_at(s, i + 1) != '\0' && !is_line_break(char_at(s, i + 1)) {
        string_close(s, i + 2)
    } else {
        string_close(s, i + 1)
    }
}

/// The value of a run of decimal digits.
pub open spec fn digits_value(t: Seq<char>) -> int
    decreases t.len(),
{
    if t.len() == 0 {
        0
    } else {
        digits_value(t.drop_last()) * 10 + (t.last() as int - '0' as int)
    }
}

/// What a word scans as: a keyword, a boolean literal, or an identifier.
pub open spec fn word_lexeme(t: Seq<char>) -> Lexeme {
    if t == "import"@ {
        Lexeme::Plain(TokenKind::Import)
    } else if t == "fn"@ {
        Lexeme::Plain(TokenKind::Fn)
    } else if t == "if"@ {
        Lexeme::Plain(TokenKind::If)
    } else if t == "elif"@ {
        Lexeme::Plain(TokenKind::Elif)
    } else if t == "else"@ {
        Lexeme::Plain(TokenKind::Else)
    } else if t == "then"@ {
        Lexeme::Plain(TokenKind::Then)
    } else if t == "while"@ {
        Lexeme::Plain(TokenKind::While)
    } else if t == "do"@ {
        Lexeme::Plain(TokenKind::Do)
    } else if t == "return"@ {
        Lexeme::Plain(TokenKind::Return)
    } else if t == "end"@ {
        Lexeme::Plain(TokenKind::End)
    } else if t == "and"@ {
        Lexeme::Plain(TokenKind::And)
    } else if t == "or"@ {
        Lexeme::Plain(TokenKind::Or)
    } else if t == "not"@ {
        Lexeme::Plain(TokenKind::Not)
    } else if t == "true"@ {
        Lexeme::Plain(TokenKind::Bool(true))
    } else if t == "false"@ {
        Lexeme::Plain(TokenKind::Bool(false))
    } else {
        Lexeme::Ident(t)
    }
}

/// The kind of a one-character symbol that needs no lookahead.
pub open spec fn single_symbol(c: char) -> Option<TokenKind> {
    if c == '*' {
        Some(TokenKind::Mult)
    } else if c == '/' {
        Some(TokenKind::Div)
    } else if c == '+' {
        Some(TokenKind::Plus)
    } else if c == '-' {
        Some(TokenKind::Minus)
    } else if c == '%' {
        Some(TokenKind::Mod)
    } else if c == '(' {
        Some(TokenKind::Lparen)
    } else if c == ')' {
        Some(TokenKind::Rparen)
    } else if c == '[' {
        Some(TokenKind::LBracket)
    } else if c == ']' {
        Some(TokenKind::RBracket)
    } else if c == ',' {
        Some(TokenKind::Comma)
    } else if c == ';' {
        Some(TokenKind::Separator)
    } else {
        None
    }
}

/// The outcome of one call of the scanner.
pub enum Lexed {
    /// A token covering `[start, end)`, reported at the line and column of
    /// offset `at`; the cursor moves to `next`.
    Token { lexeme: Lexeme, start: int, end: int, at: int, next: int },
    /// A syntax error located at `[start, end)`; the cursor stays at `next`.
    Failure { message: Seq<char>, start: int, end: int, next: int },
}

impl Lexed {
    /// Where the cursor stands after the call.
    pub open spec fn next(self) -> int {
        match self {
            Lexed::Token { next, .. } => next,
            Lexed::Failure { next, .. } => next,
        }
    }
}

/// A token without payload covering `[start, end)`, reported at its start.
pub open spec fn plain_token(k: TokenKind, start: int, end: int) -> Lexed {
    Lexed::Token { lexeme: Lexeme::Plain(k), start, end, at: start, next: end }
}

/// A number from the digit at `i`: digits, then optionally `.` and at
/// least one more digit for a decimal. An integer must fit in `i32`.
pub open spec fn scan_number(s: Seq<char>, i: int) -> Lexed {
    let e = digit_end(s, i + 1);
    if char_at(s, e) == '.' {
        let f = digit_end(s, e + 1);
        if f == e + 1 {
            Lexed::Failure {
                message: "Expected a digit after '.' in a number"@,
                start: i,
                end: e + 1,
                next: e + 1,
            }
        } else {
            Lexed::Token { lexeme: Lexeme::Float(s.subrange(i, f)), start: i, end: f, at: i, next: f }
        }
    } else {
        let v = digits_value(s.subrange(i, e));
        if v > i32::MAX {
            Lexed::Failure { message: "Integer literal too large"@, start: i, end: e, next: e }
        } else {
            Lexed::Token { lexeme: Lexeme::Int(v), start: i, end: e, at: i, next: e }
        }
    }
}

/// A string literal from the `"` at `i`; it must close on the same line.
pub open spec fn scan_string(s: Seq<char>, i: int) -> Lexed {
    match string_close(s, i + 1) {
        Ok(q) => Lexed::Token {
            lexeme: Lexeme::Str(s.subrange(i + 1, q)),
            start: i,
            end: q + 1,
            at: i,
            next: q + 1,
        },
        Err((j, true)) => Lexed::Failure {
            message: "Unexpected newline while parsing string"@,
            start: i,
            end: j,
            next: j,
        },
        Err((j, false)) => Lexed::Failure {
            message: "Unexpected end of file while parsing string"@,
            start: i,
            end: j,
            next: j,
        },
    }
}

/// An operator or punctuation symbol at `i`; `=`, `<`, `>` and `!` take a
/// following `=`, which `!` requires.
pub open spec fn scan_symbol(s: Seq<char>, i: int) -> Lexed {
    let c = char_at(s, i);
    let n = char_at(s, i + 1);
    if single_symbol(c) is Some {
        plain_token(single_symbol(c)->0, i, i + 1)
    } else if c == '=' {
        if n == '=' { plain_token(TokenKind::Eq, i, i + 2) } else { plain_token(TokenKind::Assign, i, i + 1) }
    } else if c == '<' {
        if n == '=' { plain_token(TokenKind::LessEq, i, i + 2) } else { plain_token(TokenKind::Less, i, i + 1) }
    } else if c == '>' {
        if n == '=' { plain_token(TokenKind::MoreEq, i, i + 2) } else { plain_token(TokenKind::More, i, i + 1) }
    } else if c == '!' {
        if n == '=' {
            plain_token(TokenKind::NotEq, i, i + 2)
        } else {
            Lexed::Failure { message: "Expected '=' after '!'"@, start: i, end: i + 2, next: i }
        }
    } else {
        Lexed::Failure { message: "Unexpected symbol"@, start: i, end: i + 1, next: i }
    }
}

/// The token that starts at `i`, where no blank or comment stands.
pub open spec fn scan_at(s: Seq<char>, i: int) -> Lexed {
    let c = char_at(s, i);
    if c == '\0' {
        plain_token(TokenKind::Eof, i, i)
    } else if alphabetic(c) || c == '_' {
        let e = word_end(s, step(s, i));
        Lexed::Token { lexeme: word_lexeme(s.subrange(i, e)), start: i, end: e, at: i, next: e }
    } else if is_digit(c) {
        scan_number(s, i)
    } else if c == '"' {
        scan_string(s, i)
    } else {
        scan_symbol(s, i)
    }
}

/// One call of the scanner with the cursor at `i`.
pub open spec fn lex(s: Seq<char>, i: int) -> Lexed {
    match skip_garbage(s, i, false) {
        Err((c, j)) => Lexed::Failure {
            message: "Unexpected end of file while parsing multiline comment"@,
            start: c,
            end: c + 2,
            next: j,
        },
        Ok((j, true)) => Lexed::Token {
            lexeme: Lexeme::Plain(TokenKind::Separator),
            start: j - 1,
            end: j,
            at: j,
            next: j,
        },
        Ok((j, false)) => scan_at(s, j),
    }
}

pub proof fn lemma_line_comment_end_bounds(s: Seq<char>, i: int)
    ensures
        line_comment_end(s, i) >= i,
        0 <= i <= s.len() ==> line_comment_end(s, i) <= s.len(),
    decreases s.len() - i,
{
    if 0 <= i < s.len() && !is_line_break(s[i]) && s[i] != '\0' {
        lemma_line_comment_end_bounds(s, i + 1);
    }
}

pub proof fn lemma_block_comment_end_bounds(s: Seq<char>, i: int, broke: bool)
    ensures
        block_comment_end(s, i, broke) matches Ok((j, _)) ==> i + 2 <= j <= s.len(),
        block_comment_end(s, i, broke) matches Err(j) ==> j >= i && (0 <= i <= s.len() ==> j <= s.len()),
    decreases s.len() - i,
{
    if i < 0 || i >= s.len() || s[i] == '\0' {
    } else if s[i] == '*' && char_at(s, i + 1) == '/' {
    } else {
        lemma_block_comment_end_bounds(s, step(s, i), broke || is_line_break(s[i]));
    }
}

pub proof fn lemma_pos_bounds(s: Seq<char>, i: int)
    requires
        0 <= i,
    ensures
        1 <= pos_at(s, i).0 <= i + 1,
        1 <= pos_at(s, i).1 <= i + 1,
    decreases i,
{
    if i >= 2 {
        lemma_pos_bounds(s, i - 2);
    }
    if i >= 1 {
        lemma_pos_bounds(s, i - 1);
    }
}

pub proof fn lemma_skip_garbage_bounds(s: Seq<char>, i: int, newline: bool)
    requires
        0 <= i <= s.len(),
    ensures
        skip_garbage(s, i, newline) matches Ok((j, b)) ==> i <= j <= s.len() && (b && !newline ==> j > i),
        skip_garbage(s, i, newline) matches Err((c, j)) ==> i <= c && c + 2 <= j <= s.len(),
    decreases s.len() - i,
{
    if i >= s.len() {
    } else if s[i] == ' ' {
        lemma_skip_garbage_bounds(s, i + 1, newline);
    } else if is_line_break(s[i]) {
        lemma_skip_garbage_bounds(s, step(s, i), true);
    } else if s[i] == '/' && char_at(s, i + 1) == '/' {
        lemma_line_comment_end_bounds(s, i + 2);
        lemma_skip_garbage_bounds(s, line_comment_end(s, i + 2), newline);
    } else if s[i] == '/' && char_at(s, i + 1) == '*' {
        lemma_block_comment_end_bounds(s, i + 2, false);
        match block_comment_end(s, i + 2, false) {
            Ok((j, b)) => lemma_skip_garbage_bounds(s, j, newline || b),
            Err(j) => {},
        }
    }
}

} // verus!
