//! The scanner: a cursor over the source characters that hands out one
//! token per call.
use vstd::prelude::*;

use crate::error::{Error, ErrorType};
use crate::model::{
    at_boundary, block_comment_end, char_at, digit_end, digits_value, is_digit, is_line_break, lex,
    line_comment_end, lemma_block_comment_end_bounds, lemma_line_comment_end_bounds, lemma_pos_bounds,
    lemma_skip_garbage_bounds, pos_at,
    scan_number, scan_symbol, skip_garbage, step, string_close,
    word_end, word_lexeme, Lexed,
};
use crate::span::{Pos, Span};
use crate::text::{chars_of, collect_chars};
use crate::token::{Token, TokenKind};

verus! {

/// Whether `r` is what the scanner reports for the outcome `l` on source `s`.
pub open spec fn reports(r: Result<Token, Error>, s: Seq<char>, l: Lexed) -> bool {
    match l {
        Lexed::Token { lexeme, start, end, at, .. } => {
            &&& r matches Ok(t)
            &&& t.kind@ == lexeme
            &&& t.span.start == start
            &&& t.span.end == end
            &&& t.pos.line == pos_at(s, at).0
            &&& t.pos.col == pos_at(s, at).1
        },
        Lexed::Failure { message, start, end, .. } => {
            &&& r matches Err(e)
            &&& e.message@ == message
            &&& e.error_type == ErrorType::SyntaxError
            &&& e.token.kind == TokenKind::Unknown
            &&& e.token.span.start == start
            &&& e.token.span.end == end
            &&& e.token.pos.line == pos_at(s, start).0
            &&& e.token.pos.col == pos_at(s, start).1
        },
    }
}

/// Scanner state: the source characters and a cursor into them.
pub struct Lexer {
    source: Vec<char>,
    offset: usize,
    pos: Pos,
}

impl Lexer {
    /// The characters being scanned.
    pub closed spec fn source(&self) -> Seq<char> {
        self.source@
    }

    /// The cursor's offset into the source.
    pub closed spec fn offset(&self) -> int {
        self.offset as int
    }

    /// The cursor stands within the source, never between the halves of a
    /// `\r\n`, and `pos` is its line and column.
    pub closed spec fn wf(&self) -> bool {
        &&& self.source@.len() < usize::MAX
        &&& self.offset <= self.source@.len()
        &&& at_boundary(self.source@, self.offset as int)
        &&& self.pos.line == pos_at(self.source@, self.offset as int).0
        &&& self.pos.col == pos_at(self.source@, self.offset as int).1
    }

    /// A scanner at the start of `input`.
    pub fn new(input: &str) -> (r: Lexer)
        requires
            input@.len() < usize::MAX,
        ensures
            r.wf(),
            r.source() == input@,
            r.offset() == 0,
    {
        Lexer { source: chars_of(input), offset: 0, pos: Pos { line: 1, col: 1 } }
    }

    /// The character under the cursor; NUL at the end of the source.
    fn current(&self) -> (r: char)
        requires
            self.wf(),
        ensures
            r == char_at(self.source@, self.offset as int),
    {
        if self.offset < self.source.len() {
            self.source[self.offset]
        } else {
            '\0'
        }
    }

    /// The character after the one under the cursor; NUL past the end.
    fn peek(&self) -> (r: char)
        requires
            self.wf(),
        ensures
            r == char_at(self.source@, self.offset + 1),
    {
        if self.offset + 1 < self.source.len() {
            self.source[self.offset + 1]
        } else {
            '\0'
        }
    }

    /// Moves the cursor one step, crossing `\r\n` at once.
    fn advance(&mut self)
        requires
            old(self).wf(),
        ensures
            final(self).wf(),
            final(self).source@ == old(self).source@,
            final(self).offset == step(old(self).source@, old(self).offset as int),
    {
        let len = self.source.len();
        if self.offset >= len {
            return;
        }
        proof {
            lemma_pos_bounds(self.source@, self.offset as int);
        }
        let c = self.source[self.offset];
        if c == '\r' && self.peek() == '\n' {
            self.offset = self.offset + 2;
            self.pos = Pos { line: self.pos.line + 1, col: 1 };
        } else if c == '\n' || c == '\r' {
            self.offset = self.offset + 1;
            self.pos = Pos { line: self.pos.line + 1, col: 1 };
        } else {
            self.offset = self.offset + 1;
            self.pos = Pos { line: self.pos.line, col: self.pos.col + 1 };
        }
    }
}

impl Lexer {
    /// Skips a run of spaces.
    fn skip_whitespace(&mut self)
        requires
            old(self).wf(),
        ensures
            final(self).wf(),
            final(self).source@ == old(self).source@,
            old(self).offset <= final(self).offset,
            char_at(old(self).source@, old(self).offset as int) == ' ' ==> old(self).offset < final(self).offset,
            char_at(final(self).source@, final(self).offset as int) != ' ',
            forall|nl: bool|
                skip_garbage(old(self).source@, old(self).offset as int, nl) == #[trigger] skip_garbage(
                    final(self).source@,
                    final(self).offset as int,
                    nl,
                ),
    {
        let ghost s = self.source@;
        let ghost i0 = self.offset as int;
        while self.current() == ' '
            invariant
                self.wf(),
                self.source@ == s,
                s == old(self).source@,
                i0 <= self.offset,
                forall|nl: bool| skip_garbage(s, i0, nl) == #[trigger] skip_garbage(s, self.offset as int, nl),
            decreases s.len() - self.offset,
        {
            proof {
                assert forall|nl: bool| skip_garbage(s, self.offset as int, nl) == #[trigger] skip_garbage(s, self.offset + 1, nl) by {
                }
            }
            self.advance();
        }
    }

    /// Skips a line comment: from the `//` under the cursor up to the line
    /// break or the end of the source, which it leaves in place.
    fn skip_comment(&mut self)
        requires
            old(self).wf(),
            char_at(old(self).source@, old(self).offset as int) == '/',
            char_at(old(self).source@, old(self).offset + 1) == '/',
        ensures
            final(self).wf(),
            final(self).source@ == old(self).source@,
            final(self).offset == line_comment_end(old(self).source@, old(self).offset + 2),
    {
        let ghost s = self.source@;
        let ghost i0 = self.offset as int;
        self.advance();
        self.advance();
        loop
            invariant
                self.wf(),
                self.source@ == s,
                s == old(self).source@,
                i0 == old(self).offset,
                line_comment_end(s, self.offset as int) == line_comment_end(s, i0 + 2),
            ensures
                self.wf(),
                self.source@ == s,
                self.offset == line_comment_end(s, i0 + 2),
            decreases s.len() - self.offset,
        {
            let c = self.current();
            if c == '\n' || c == '\r' || c == '\0' {
                break;
            }
            self.advance();
        }
    }

    /// Skips a block comment from the `/*` under the cursor through the
    /// matching `*/`; tells whether a line break occurred in it.
    fn skip_multi_comment(&mut self) -> (r: Result<bool, Error>)
        requires
            old(self).wf(),
            char_at(old(self).source@, old(self).offset as int) == '/',
            char_at(old(self).source@, old(self).offset + 1) == '*',
        ensures
            final(self).wf(),
            final(self).source@ == old(self).source@,
            match block_comment_end(old(self).source@, old(self).offset + 2, false) {
                Ok((j, b)) => r == Ok::<bool, Error>(b) && final(self).offset == j,
                Err(j) => final(self).offset == j && reports(
                    Err(r->Err_0),
                    old(self).source@,
                    Lexed::Failure {
                        message: "Unexpected end of file while parsing multiline comment"@,
                        start: old(self).offset as int,
                        end: old(self).offset + 2,
                        next: j,
                    },
                ) && r is Err,
            },
    {
        let ghost s = self.source@;
        let start = self.offset;
        let pos = self.pos;
        self.advance();
        self.advance();
        let mut broke = false;
        loop
            invariant
                self.wf(),
                self.source@ == s,
                s == old(self).source@,
                start + 2 <= self.offset,
                start == old(self).offset,
                pos.line == pos_at(s, start as int).0,
                pos.col == pos_at(s, start as int).1,
                block_comment_end(s, self.offset as int, broke) == block_comment_end(s, start + 2, false),
            decreases s.len() - self.offset,
        {
            let c = self.current();
            if c == '\0' {
                return Err(
                    syntax_error("Unexpected end of file while parsing multiline comment", Span::new(start, start + 2), pos),
                );
            }
            if c == '*' && self.peek() == '/' {
                self.advance();
                self.advance();
                return Ok(broke);
            }
            broke = broke || c == '\n' || c == '\r';
            self.advance();
        }
    }

    /// Skips spaces, line breaks and comments; tells whether a line break
    /// was among them.
    fn skip_garbage(&mut self) -> (r: Result<bool, Error>)
        requires
            old(self).wf(),
        ensures
            final(self).wf(),
            final(self).source@ == old(self).source@,
            match skip_garbage(old(self).source@, old(self).offset as int, false) {
                Ok((j, b)) => r == Ok::<bool, Error>(b) && final(self).offset == j,
                Err((c, j)) => final(self).offset == j && r is Err && reports(
                    Err(r->Err_0),
                    old(self).source@,
                    Lexed::Failure {
                        message: "Unexpected end of file while parsing multiline comment"@,
                        start: c,
                        end: c + 2,
                        next: j,
                    },
                ),
            },
    {
        let ghost s = self.source@;
        let ghost i0 = self.offset as int;
        let mut newline = false;
        loop
            invariant
                self.wf(),
                self.source@ == s,
                s == old(self).source@,
                i0 == old(self).offset,
                skip_garbage(s, self.offset as int, newline) == skip_garbage(s, i0, false),
            decreases s.len() - self.offset,
        {
            let c = self.current();
            if c == ' ' {
                self.skip_whitespace();
            } else if c == '\n' || c == '\r' {
                newline = true;
                self.advance();
            } else if c == '/' && self.peek() == '/' {
                proof {
                    lemma_line_comment_end_bounds(s, self.offset + 2);
                }
                self.skip_comment();
            } else if c == '/' && self.peek() == '*' {
                let ghost before = self.offset as int;
                proof {
                    lemma_block_comment_end_bounds(s, before + 2, false);
                }
                match self.skip_multi_comment() {
                    Ok(b) => {
                        newline = newline || b;
                    },
                    Err(e) => {
                        return Err(e);
                    },
                }
            } else {
                return Ok(newline);
            }
        }
    }
}

/// A syntax error located by an `Unknown` token.
fn syntax_error(message: &str, span: Span, pos: Pos) -> (r: Error)
    ensures
        r.message@ == message@,
        r.error_type == ErrorType::SyntaxError,
        r.token == (Token { kind: TokenKind::Unknown, span, pos }),
{
    Error {
        message: String::from_str(message),
        error_type: ErrorType::SyntaxError,
        token: Token { kind: TokenKind::Unknown, span, pos },
    }
}

/// Whether `text` is spelled exactly as `w`.
fn spelled(text: &String, w: &str) -> (r: bool)
    ensures
        r == (text@ == w@),
{
    let w = String::from_str(w);
    *text == w
}

/// The kind of a scanned word: its keyword or literal if it has one, an
/// identifier otherwise.
pub fn word_kind(text: String) -> (r: TokenKind)
    ensures
        r@ == word_lexeme(text@),
{
    if spelled(&text, "import") {
        TokenKind::Import
    } else if spelled(&text, "fn") {
        TokenKind::Fn
    } else if spelled(&text, "if") {
        TokenKind::If
    } else if spelled(&text, "elif") {
        TokenKind::Elif
    } else if spelled(&text, "else") {
        TokenKind::Else
    } else if spelled(&text, "then") {
        TokenKind::Then
    } else if spelled(&text, "while") {
        TokenKind::While
    } else if spelled(&text, "do") {
        TokenKind::Do
    } else if spelled(&text, "return") {
        TokenKind::Return
    } else if spelled(&text, "end") {
        TokenKind::End
    } else if spelled(&text, "and") {
        TokenKind::And
    } else if spelled(&text, "or") {
        TokenKind::Or
    } else if spelled(&text, "not") {
        TokenKind::Not
    } else if spelled(&text, "true") {
        TokenKind::Bool(true)
    } else if spelled(&text, "false") {
        TokenKind::Bool(false)
    } else {
        TokenKind::Ident(text)
    }
}

impl Lexer {
    /// Reads a word: the letter or `_` under the cursor and the letters,
    /// digits and `_` that follow it.
    fn read_ident(&mut self) -> (r: String)
        requires
            old(self).wf(),
            old(self).offset < old(self).source@.len(),
        ensures
            final(self).wf(),
            final(self).source@ == old(self).source@,
            old(self).offset < final(self).offset,
            final(self).offset == word_end(old(self).source@, step(old(self).source@, old(self).offset as int)),
            r@ == old(self).source@.subrange(old(self).offset as int, final(self).offset as int),
    {
        let ghost s = self.source@;
        let start = self.offset;
        self.advance();
        let len = self.source.len();
        loop
            invariant
                self.wf(),
                self.source@ == s,
                s == old(self).source@,
                start == old(self).offset,
                len == s.len(),
                start < self.offset,
                word_end(s, self.offset as int) == word_end(s, step(s, start as int)),
            ensures
                self.wf(),
                self.source@ == s,
                start < self.offset,
                self.offset == word_end(s, step(s, start as int)),
            decreases s.len() - self.offset,
        {
            if self.offset >= len {
                break;
            }
            let c = self.current();
            if !(c.is_alphanumeric() || c == '_') {
                break;
            }
            self.advance();
        }
        collect_chars(&self.source, start, self.offset)
    }

    /// Reads a run of ASCII digits; gives its value when it fits in `i32`.
    fn read_integer(&mut self) -> (r: Option<i32>)
        requires
            old(self).wf(),
        ensures
            final(self).wf(),
            final(self).source@ == old(self).source@,
            old(self).offset <= final(self).offset,
            final(self).offset == digit_end(old(self).source@, old(self).offset as int),
            ({
                let v = digits_value(
                    old(self).source@.subrange(old(self).offset as int, final(self).offset as int),
                );
                match r {
                    Some(x) => x as int == v,
                    None => v > i32::MAX,
                }
            }),
    {
        let ghost s = self.source@;
        let start = self.offset;
        let mut value: i32 = 0;
        let mut too_big = false;
        loop
            invariant
                self.wf(),
                self.source@ == s,
                s == old(self).source@,
                start == old(self).offset,
                start <= self.offset,
                digit_end(s, self.offset as int) == digit_end(s, start as int),
                !too_big ==> value as int == digits_value(s.subrange(start as int, self.offset as int)),
                !too_big ==> value >= 0,
                too_big ==> digits_value(s.subrange(start as int, self.offset as int)) > i32::MAX,
            ensures
                self.wf(),
                self.source@ == s,
                start <= self.offset,
                self.offset == digit_end(s, start as int),
                !too_big ==> value as int == digits_value(s.subrange(start as int, self.offset as int)),
                too_big ==> digits_value(s.subrange(start as int, self.offset as int)) > i32::MAX,
            decreases s.len() - self.offset,
        {
            let c = self.current();
            if !('0' <= c && c <= '9') {
                break;
            }
            let d = (c as u32 - '0' as u32) as i64;
            proof {
                let t = s.subrange(start as int, self.offset + 1);
                assert(t.drop_last() == s.subrange(start as int, self.offset as int));
                assert(t.last() == c);
            }
            if !too_big {
                let next = value as i64 * 10 + d;
                if next > i32::MAX as i64 {
                    too_big = true;
                } else {
                    value = next as i32;
                }
            }
            self.advance();
        }
        if too_big {
            None
        } else {
            Some(value)
        }
    }

    /// Reads a number: digits, then optionally `.` and more digits.
    fn read_number(&mut self) -> (r: Result<TokenKind, &'static str>)
        requires
            old(self).wf(),
            is_digit(char_at(old(self).source@, old(self).offset as int)),
        ensures
            final(self).wf(),
            final(self).source@ == old(self).source@,
            match scan_number(old(self).source@, old(self).offset as int) {
                Lexed::Token { lexeme, next, .. } => r matches Ok(k) && k@ == lexeme && final(self).offset == next,
                Lexed::Failure { message, next, .. } => r matches Err(m) && m@ == message && final(self).offset == next,
                },
    {
        let ghost s = self.source@;
        let start = self.offset;
        let int_part = self.read_integer();
        if self.current() == '.' {
            self.advance();
            let frac_start = self.offset;
            let _ = self.read_integer();
            if self.offset == frac_start {
                return Err("Expected a digit after '.' in a number");
            }
            return Ok(TokenKind::Float(collect_chars(&self.source, start, self.offset)));
        }
        match int_part {
            Some(v) => Ok(TokenKind::Int(v)),
            None => Err("Integer literal too large"),
        }
    }

    /// Reads a string literal from the `"` under the cursor; gives its
    /// contents without the quotes.
    fn read_string(&mut self) -> (r: Result<String, &'static str>)
        requires
            old(self).wf(),
            char_at(old(self).source@, old(self).offset as int) == '"',
        ensures
            final(self).wf(),
            final(self).source@ == old(self).source@,
            match string_close(old(self).source@, old(self).offset + 1) {
                Ok(q) => r matches Ok(t) && t@ == old(self).source@.subrange(old(self).offset + 1, q)
                    && final(self).offset == q + 1,
                Err((j, true)) => r matches Err(m) && m@ == "Unexpected newline while parsing string"@
                    && final(self).offset == j,
                Err((j, false)) => r matches Err(m) && m@ == "Unexpected end of file while parsing string"@
                    && final(self).offset == j,
            },
    {
        let ghost s = self.source@;
        let start = self.offset;
        self.advance();
        loop
            invariant
                self.wf(),
                self.source@ == s,
                s == old(self).source@,
                start == old(self).offset,
                start < self.offset,
                string_close(s, self.offset as int) == string_close(s, start + 1),
            decreases s.len() - self.offset,
        {
            let c = self.current();
            if c == '\0' {
                return Err("Unexpected end of file while parsing string");
            }
            if c == '\n' || c == '\r' {
                return Err("Unexpected newline while parsing string");
            }
            if c == '"' {
                let contents = collect_chars(&self.source, start + 1, self.offset);
                self.advance();
                return Ok(contents);
            }
            let n = self.peek();
            if c == '\\' && n != '\0' && n != '\n' && n != '\r' {
                self.advance();
            }
            self.advance();
        }
    }

    /// Reads an operator or punctuation symbol.
    fn read_symbol(&mut self) -> (r: Result<TokenKind, &'static str>)
        requires
            old(self).wf(),
        ensures
            final(self).wf(),
            final(self).source@ == old(self).source@,
            match scan_symbol(old(self).source@, old(self).offset as int) {
                Lexed::Token { lexeme, next, .. } => r matches Ok(k) && k@ == lexeme && final(self).offset == next,
                Lexed::Failure { message, next, .. } => r matches Err(m) && m@ == message && final(self).offset == next,
            },
    {
        let c = self.current();
        let n = self.peek();
        let kind = match c {
            '*' => TokenKind::Mult,
            '/' => TokenKind::Div,
            '+' => TokenKind::Plus,
            '-' => TokenKind::Minus,
            '%' => TokenKind::Mod,
            '(' => TokenKind::Lparen,
            ')' => TokenKind::Rparen,
            '[' => TokenKind::LBracket,
            ']' => TokenKind::RBracket,
            ',' => TokenKind::Comma,
            ';' => TokenKind::Separator,
            '=' => if n == '=' {
                self.advance();
                TokenKind::Eq
            } else {
                TokenKind::Assign
            },
            '<' => if n == '=' {
                self.advance();
                TokenKind::LessEq
            } else {
                TokenKind::Less
            },
            '>' => if n == '=' {
                self.advance();
                TokenKind::MoreEq
            } else {
                TokenKind::More
            },
            '!' => if n == '=' {
                self.advance();
                TokenKind::NotEq
            } else {
                return Err("Expected '=' after '!'");
            },
            _ => {
                return Err("Unexpected symbol");
            },
        };
        self.advance();
        Ok(kind)
    }

    /// Scans and returns the next token. Blanks and comments are skipped; a
    /// skipped run that holds a line break yields one `Separator`. At the end
    /// of the source every call returns `Eof`.
    pub fn get_next_token(&mut self) -> (r: Result<Token, Error>)
        requires
            old(self).wf(),
        ensures
            final(self).wf(),
            final(self).source() == old(self).source(),
            reports(r, old(self).source(), lex(old(self).source(), old(self).offset())),
            final(self).offset() == lex(old(self).source(), old(self).offset()).next(),
    {
        let ghost s = self.source@;
        proof {
            lemma_skip_garbage_bounds(s, self.offset as int, false);
        }
        let newline = match self.skip_garbage() {
            Ok(b) => b,
            Err(e) => {
                return Err(e);
            },
        };
        if newline {
            return Ok(Token { kind: TokenKind::Separator, span: Span::new(self.offset - 1, self.offset), pos: self.pos });
        }
        let start = self.offset;
        let pos = self.pos;
        let c = self.current();
        if c == '\0' {
            return Ok(Token { kind: TokenKind::Eof, span: Span::new(start, start), pos });
        }
        if c.is_alphabetic() || c == '_' {
            let text = self.read_ident();
            let kind = word_kind(text);
            return Ok(Token { kind, span: Span::new(start, self.offset), pos });
        }
        if '0' <= c && c <= '9' {
            return match self.read_number() {
                Ok(kind) => Ok(Token { kind, span: Span::new(start, self.offset), pos }),
                Err(m) => Err(syntax_error(m, Span::new(start, self.offset), pos)),
            };
        }
        if c == '"' {
            return match self.read_string() {
                Ok(contents) => Ok(Token { kind: TokenKind::String(contents), span: Span::new(start, self.offset), pos }),
                Err(m) => Err(syntax_error(m, Span::new(start, self.offset), pos)),
            };
        }
        match self.read_symbol() {
            Ok(kind) => Ok(Token { kind, span: Span::new(start, self.offset), pos }),
            Err(m) => {
                let end = if c == '!' {
                    start + 2
                } else {
                    start + 1
                };
                Err(syntax_error(m, Span::new(start, end), pos))
            },
        }
    }
}

} // verus!
