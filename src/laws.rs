//! Properties of the scanner as a whole, proved over the model that
//! `Lexer::get_next_token` is verified against.
use vstd::prelude::*;

use crate::model::{
    block_comment_end, char_at, digit_end, digits_value, is_digit, is_line_break, lex,
    lemma_block_comment_end_bounds, lemma_line_comment_end_bounds, lemma_skip_garbage_bounds,
    line_comment_end, plain_token,
    scan_at, single_symbol, skip_garbage, step,
    string_close, word_end, word_lexeme, Lexed,
};
use crate::token::{Lexeme, TokenKind};

verus! {

/// How a kind of token without a payload is written in the source.
pub open spec fn spelling(k: TokenKind) -> Seq<char> {
    match k {
        TokenKind::Mult => seq!['*'],
        TokenKind::Div => seq!['/'],
        TokenKind::Plus => seq!['+'],
        TokenKind::Minus => seq!['-'],
        TokenKind::Mod => seq!['%'],
        TokenKind::Lparen => seq!['('],
        TokenKind::Rparen => seq![')'],
        TokenKind::LBracket => seq!['['],
        TokenKind::RBracket => seq![']'],
        TokenKind::Comma => seq![','],
        TokenKind::Separator => seq![';'],
        TokenKind::Assign => seq!['='],
        TokenKind::Eq => seq!['=', '='],
        TokenKind::NotEq => seq!['!', '='],
        TokenKind::Less => seq!['<'],
        TokenKind::LessEq => seq!['<', '='],
        TokenKind::More => seq!['>'],
        TokenKind::MoreEq => seq!['>', '='],
        TokenKind::Import => "import"@,
        TokenKind::Fn => "fn"@,
        TokenKind::If => "if"@,
        TokenKind::Elif => "elif"@,
        TokenKind::Else => "else"@,
        TokenKind::Then => "then"@,
        TokenKind::While => "while"@,
        TokenKind::Do => "do"@,
        TokenKind::Return => "return"@,
        TokenKind::End => "end"@,
        TokenKind::And => "and"@,
        TokenKind::Or => "or"@,
        TokenKind::Not => "not"@,
        TokenKind::Bool(true) => "true"@,
        TokenKind::Bool(false) => "false"@,
        _ => seq![],
    }
}

/// Whether `t` is the source text of a token with content `l`: identifiers,
/// keywords, symbols and decimals exactly, integers as their digits, strings
/// as their contents between two quotes.
pub open spec fn written_as(l: Lexeme, t: Seq<char>) -> bool {
    match l {
        Lexeme::Ident(x) => x == t,
        Lexeme::Float(x) => x == t,
        Lexeme::Str(x) => t == seq!['"'] + x + seq!['"'],
        Lexeme::Int(v) => {
            &&& t.len() > 0
            &&& forall|k: int| 0 <= k < t.len() ==> is_digit(#[trigger] t[k])
            &&& digits_value(t) == v
        },
        Lexeme::Plain(k) => spelling(k) == t,
    }
}

pub proof fn lemma_word_end_bounds(s: Seq<char>, i: int)
    requires
        0 <= i <= s.len(),
    ensures
        i <= word_end(s, i) <= s.len(),
    decreases s.len() - i,
{
    if 0 <= i < s.len() && (crate::text::alphanumeric(s[i]) || s[i] == '_') {
        lemma_word_end_bounds(s, step(s, i));
    }
}

pub proof fn lemma_digit_end(s: Seq<char>, i: int)
    requires
        0 <= i <= s.len(),
    ensures
        i <= digit_end(s, i) <= s.len(),
        forall|k: int| i <= k < digit_end(s, i) ==> is_digit(#[trigger] s[k]),
    decreases s.len() - i,
{
    if 0 <= i < s.len() && is_digit(s[i]) {
        lemma_digit_end(s, i + 1);
    }
}

pub proof fn lemma_string_close(s: Seq<char>, i: int)
    requires
        0 <= i <= s.len(),
    ensures
        string_close(s, i) matches Ok(q) ==> i <= q < s.len() && s[q] == '"',
        string_close(s, i) matches Err((j, _)) ==> i <= j <= s.len(),
    decreases s.len() - i,
{
    if i >= s.len() || s[i] == '\0' || is_line_break(s[i]) || s[i] == '"' {
    } else if s[i] == '\\' && char_at(s, i + 1) != '\0' && !is_line_break(char_at(s, i + 1)) {
        lemma_string_close(s, i + 2);
    } else {
        lemma_string_close(s, i + 1);
    }
}

/// The end of a skipped run is where skipping stops at once.
pub proof fn lemma_skip_garbage_stops(s: Seq<char>, i: int, nl: bool)
    requires
        0 <= i <= s.len(),
    ensures
        skip_garbage(s, i, nl) matches Ok((j, _)) ==> skip_garbage(s, j, false) == Ok::<(int, bool), (int, int)>((j, false)),
    decreases s.len() - i,
{
    if i >= s.len() {
    } else if s[i] == ' ' {
        lemma_skip_garbage_stops(s, i + 1, nl);
    } else if is_line_break(s[i]) {
        lemma_skip_garbage_stops(s, step(s, i), true);
    } else if s[i] == '/' && char_at(s, i + 1) == '/' {
        lemma_line_comment_end_bounds(s, i + 2);
        lemma_skip_garbage_stops(s, line_comment_end(s, i + 2), nl);
    } else if s[i] == '/' && char_at(s, i + 1) == '*' {
        lemma_block_comment_end_bounds(s, i + 2, false);
        match block_comment_end(s, i + 2, false) {
            Ok((j, b)) => lemma_skip_garbage_stops(s, j, nl || b),
            Err(_) => {},
        }
    }
}

/// A line comment's text holds no line break.
pub proof fn lemma_line_comment_no_break(s: Seq<char>, i: int)
    requires
        0 <= i <= s.len(),
    ensures
        forall|k: int| i <= k < line_comment_end(s, i) ==> !is_line_break(#[trigger] s[k]),
    decreases s.len() - i,
{
    if 0 <= i < s.len() && !is_line_break(s[i]) && s[i] != '\0' {
        lemma_line_comment_no_break(s, i + 1);
    }
}

/// A closed block comment reports a line break exactly when its text holds one.
pub proof fn lemma_block_comment_breaks(s: Seq<char>, i: int, broke: bool)
    requires
        0 <= i <= s.len(),
    ensures
        block_comment_end(s, i, broke) matches Ok((j, b)) ==> (b <==> (broke || exists|k: int|
            i <= k < j && is_line_break(#[trigger] s[k]))),
    decreases s.len() - i,
{
    if i >= s.len() || s[i] == '\0' {
    } else if s[i] == '*' && char_at(s, i + 1) == '/' {
    } else {
        let n = step(s, i);
        let nb = broke || is_line_break(s[i]);
        lemma_block_comment_breaks(s, n, nb);
        lemma_block_comment_end_bounds(s, n, nb);
        if let Ok((j, b)) = block_comment_end(s, n, nb) {
            if b && !broke && !is_line_break(s[i]) {
                let k = choose|k: int| n <= k < j && is_line_break(#[trigger] s[k]);
                assert(i <= k < j);
            }
            if exists|k: int| i <= k < j && is_line_break(#[trigger] s[k]) {
                let k = choose|k: int| i <= k < j && is_line_break(#[trigger] s[k]);
                if k > i && !is_line_break(s[i]) {
                    assert(n <= k < j);
                }
            }
        }
    }
}

/// A skipped run reports a line break exactly when it holds one.
pub proof fn lemma_skip_garbage_breaks(s: Seq<char>, i: int, nl: bool)
    requires
        0 <= i <= s.len(),
    ensures
        skip_garbage(s, i, nl) matches Ok((j, b)) ==> (b <==> (nl || exists|k: int|
            i <= k < j && is_line_break(#[trigger] s[k]))),
    decreases s.len() - i,
{
    if i >= s.len() {
    } else if s[i] == ' ' {
        lemma_skip_garbage_breaks(s, i + 1, nl);
        if let Ok((j, b)) = skip_garbage(s, i, nl) {
            if exists|k: int| i <= k < j && is_line_break(#[trigger] s[k]) {
                let k = choose|k: int| i <= k < j && is_line_break(#[trigger] s[k]);
                assert(i + 1 <= k);
            }
        }
    } else if is_line_break(s[i]) {
        lemma_skip_garbage_breaks(s, step(s, i), true);
        lemma_skip_garbage_bounds(s, step(s, i), true);
        if let Ok((j, b)) = skip_garbage(s, i, nl) {
            assert(i < j);
            assert(is_line_break(s[i]));
        }
    } else if s[i] == '/' && char_at(s, i + 1) == '/' {
        let e = line_comment_end(s, i + 2);
        lemma_line_comment_end_bounds(s, i + 2);
        lemma_line_comment_no_break(s, i + 2);
        lemma_skip_garbage_breaks(s, e, nl);
        if let Ok((j, b)) = skip_garbage(s, i, nl) {
            if exists|k: int| i <= k < j && is_line_break(#[trigger] s[k]) {
                let k = choose|k: int| i <= k < j && is_line_break(#[trigger] s[k]);
                if k < e {
                    assert(k == i || k == i + 1 || i + 2 <= k);
                }
                assert(e <= k);
            }
        }
    } else if s[i] == '/' && char_at(s, i + 1) == '*' {
        lemma_block_comment_end_bounds(s, i + 2, false);
        lemma_block_comment_breaks(s, i + 2, false);
        match block_comment_end(s, i + 2, false) {
            Ok((e, bb)) => {
                lemma_skip_garbage_breaks(s, e, nl || bb);
                if let Ok((j, b)) = skip_garbage(s, i, nl) {
                    if exists|k: int| i <= k < j && is_line_break(#[trigger] s[k]) {
                        let k = choose|k: int| i <= k < j && is_line_break(#[trigger] s[k]);
                        if k < e {
                            assert(i + 2 <= k);
                        }
                    }
                    if bb {
                        let k = choose|k: int| i + 2 <= k < e && is_line_break(#[trigger] s[k]);
                        lemma_skip_garbage_bounds(s, e, nl || bb);
                        assert(i <= k < j);
                    }
                    if !nl && !bb && b {
                        let k = choose|k: int| e <= k < j && is_line_break(#[trigger] s[k]);
                        assert(i <= k < j);
                    }
                }
            },
            Err(_) => {},
        }
    }
}

/// Once the scanner reports the end of the input it stays there: the end
/// token has an empty span, the cursor rests on it, and the next call
/// reports the same.
pub proof fn eof_is_final(s: Seq<char>, i: int)
    requires
        0 <= i <= s.len(),
        lex(s, i) matches Lexed::Token { lexeme, .. } && lexeme == Lexeme::Plain(TokenKind::Eof),
    ensures
        lex(s, i) matches Lexed::Token { start, end, next, .. } && start == end && end == next,
        lex(s, lex(s, i).next()) == lex(s, i),
{
    lemma_skip_garbage_bounds(s, i, false);
    lemma_skip_garbage_stops(s, i, false);
    if let Ok((j, false)) = skip_garbage(s, i, false) {
        let c = char_at(s, j);
        if c != '\0' {
            if crate::text::alphabetic(c) || c == '_' {
                let e = word_end(s, step(s, j));
                assert(word_lexeme(s.subrange(j, e)) != Lexeme::Plain(TokenKind::Eof));
            }
        }
        assert(char_at(s, j) == '\0');
    }
}

/// Each keyword spelling scans as its keyword, `true` and `false` as
/// boolean literals, and every other word as an identifier.
pub proof fn keyword_table_exact(t: Seq<char>)
    ensures
        t == "import"@ ==> word_lexeme(t) == Lexeme::Plain(TokenKind::Import),
        t == "fn"@ ==> word_lexeme(t) == Lexeme::Plain(TokenKind::Fn),
        t == "if"@ ==> word_lexeme(t) == Lexeme::Plain(TokenKind::If),
        t == "elif"@ ==> word_lexeme(t) == Lexeme::Plain(TokenKind::Elif),
        t == "else"@ ==> word_lexeme(t) == Lexeme::Plain(TokenKind::Else),
        t == "then"@ ==> word_lexeme(t) == Lexeme::Plain(TokenKind::Then),
        t == "while"@ ==> word_lexeme(t) == Lexeme::Plain(TokenKind::While),
        t == "do"@ ==> word_lexeme(t) == Lexeme::Plain(TokenKind::Do),
        t == "return"@ ==> word_lexeme(t) == Lexeme::Plain(TokenKind::Return),
        t == "end"@ ==> word_lexeme(t) == Lexeme::Plain(TokenKind::End),
        t == "and"@ ==> word_lexeme(t) == Lexeme::Plain(TokenKind::And),
        t == "or"@ ==> word_lexeme(t) == Lexeme::Plain(TokenKind::Or),
        t == "not"@ ==> word_lexeme(t) == Lexeme::Plain(TokenKind::Not),
        t == "true"@ ==> word_lexeme(t) == Lexeme::Plain(TokenKind::Bool(true)),
        t == "false"@ ==> word_lexeme(t) == Lexeme::Plain(TokenKind::Bool(false)),
        !is_reserved(t) ==> word_lexeme(t) == Lexeme::Ident(t),
{
    reveal_strlit("import");
    assert("import"@ =~= seq!['i', 'm', 'p', 'o', 'r', 't']);
    reveal_strlit("fn");
    assert("fn"@ =~= seq!['f', 'n']);
    reveal_strlit("if");
    assert("if"@ =~= seq!['i', 'f']);
    reveal_strlit("elif");
    assert("elif"@ =~= seq!['e', 'l', 'i', 'f']);
    reveal_strlit("else");
    assert("else"@ =~= seq!['e', 'l', 's', 'e']);
    reveal_strlit("then");
    assert("then"@ =~= seq!['t', 'h', 'e', 'n']);
    reveal_strlit("while");
    assert("while"@ =~= seq!['w', 'h', 'i', 'l', 'e']);
    reveal_strlit("do");
    assert("do"@ =~= seq!['d', 'o']);
    reveal_strlit("return");
    assert("return"@ =~= seq!['r', 'e', 't', 'u', 'r', 'n']);
    reveal_strlit("end");
    assert("end"@ =~= seq!['e', 'n', 'd']);
    reveal_strlit("and");
    assert("and"@ =~= seq!['a', 'n', 'd']);
    reveal_strlit("or");
    assert("or"@ =~= seq!['o', 'r']);
    reveal_strlit("not");
    assert("not"@ =~= seq!['n', 'o', 't']);
    reveal_strlit("true");
    assert("true"@ =~= seq!['t', 'r', 'u', 'e']);
    reveal_strlit("false");
    assert("false"@ =~= seq!['f', 'a', 'l', 's', 'e']);
}

/// Whether `t` is one of the fixed keyword or boolean spellings.
pub open spec fn is_reserved(t: Seq<char>) -> bool {
    ||| t == "import"@
    ||| t == "fn"@
    ||| t == "if"@
    ||| t == "elif"@
    ||| t == "else"@
    ||| t == "then"@
    ||| t == "while"@
    ||| t == "do"@
    ||| t == "return"@
    ||| t == "end"@
    ||| t == "and"@
    ||| t == "or"@
    ||| t == "not"@
    ||| t == "true"@
    ||| t == "false"@
}

/// Every token other than a separator or the end of input covers exactly its
/// own text in the source.
pub proof fn tokens_spell_their_source(s: Seq<char>, i: int)
    requires
        0 <= i <= s.len(),
        lex(s, i) matches Lexed::Token { lexeme, .. } && lexeme != Lexeme::Plain(TokenKind::Separator)
            && lexeme != Lexeme::Plain(TokenKind::Eof),
    ensures
        lex(s, i) matches Lexed::Token { lexeme, start, end, .. } && 0 <= start <= end <= s.len()
            && written_as(lexeme, s.subrange(start, end)),
{
    lemma_skip_garbage_bounds(s, i, false);
    if let Ok((j, false)) = skip_garbage(s, i, false) {
        let c = char_at(s, j);
        if c == '\0' {
        } else if crate::text::alphabetic(c) || c == '_' {
            lemma_word_end_bounds(s, step(s, j));
        } else if is_digit(c) {
            lemma_digit_end(s, j + 1);
            let e = digit_end(s, j + 1);
            if char_at(s, e) == '.' {
                lemma_digit_end(s, e + 1);
            } else {
                let t = s.subrange(j, e);
                assert forall|k: int| 0 <= k < t.len() implies is_digit(#[trigger] t[k]) by {
                    if k > 0 {
                        assert(t[k] == s[j + k]);
                    }
                }
            }
        } else if c == '"' {
            lemma_string_close(s, j + 1);
            if let Ok(q) = string_close(s, j + 1) {
                assert(s.subrange(j, q + 1) == seq!['"'] + s.subrange(j + 1, q) + seq!['"']);
            }
        } else {
            let n = char_at(s, j + 1);
            if single_symbol(c) is Some {
                assert(s.subrange(j, j + 1) == seq![c]);
            } else if n == '=' && (c == '=' || c == '<' || c == '>' || c == '!') {
                assert(s.subrange(j, j + 2) == seq![c, n]);
            } else {
                assert(s.subrange(j, j + 1) == seq![c]);
            }
        }
    }
}

/// A skipped run with a line break in it yields exactly one separator,
/// however many line breaks it holds: the call returns one `Separator` and
/// the next call scans from the first character after the run, which gives
/// a separator only if that character is `;`. A run with no line break
/// yields none.
pub proof fn line_breaks_make_one_separator(s: Seq<char>, i: int)
    requires
        0 <= i <= s.len(),
        skip_garbage(s, i, false) is Ok,
    ensures
        ({
            let j = skip_garbage(s, i, false)->Ok_0.0;
            &&& (exists|k: int| i <= k < j && is_line_break(#[trigger] s[k])) ==> {
                &&& lex(s, i) == (Lexed::Token {
                    lexeme: Lexeme::Plain(TokenKind::Separator),
                    start: j - 1,
                    end: j,
                    at: j,
                    next: j,
                })
                &&& lex(s, j) == scan_at(s, j)
                &&& (scan_at(s, j) matches Lexed::Token { lexeme, .. } && lexeme == Lexeme::Plain(
                    TokenKind::Separator,
                ) ==> char_at(s, j) == ';')
            }
            &&& !(exists|k: int| i <= k < j && is_line_break(#[trigger] s[k])) ==> lex(s, i) == scan_at(s, j)
        }),
{
    lemma_skip_garbage_breaks(s, i, false);
    lemma_skip_garbage_stops(s, i, false);
    let j = skip_garbage(s, i, false)->Ok_0.0;
    let c = char_at(s, j);
    if c != '\0' && (crate::text::alphabetic(c) || c == '_') {
        let e = word_end(s, step(s, j));
        assert(word_lexeme(s.subrange(j, e)) != Lexeme::Plain(TokenKind::Separator));
    }
}

/// A piece of blank text on one line: a space, or a block comment with the
/// given text between its `/*` and `*/`.
pub enum Blank {
    Space,
    Comment(Seq<char>),
}

pub open spec fn blank_piece(p: Blank) -> Seq<char> {
    match p {
        Blank::Space => seq![' '],
        Blank::Comment(body) => seq!['/', '*'] + body + seq!['*', '/'],
    }
}

/// The pieces written one after another.
pub open spec fn blank_text(ps: Seq<Blank>) -> Seq<char>
    decreases ps.len(),
{
    if ps.len() == 0 {
        seq![]
    } else {
        blank_piece(ps[0]) + blank_text(ps.drop_first())
    }
}

/// Text with no line break and no NUL in it.
pub open spec fn on_one_line(t: Seq<char>) -> bool {
    forall|k: int| 0 <= k < t.len() ==> !is_line_break(#[trigger] t[k]) && t[k] != '\0'
}

/// A piece on one line whose comment text does not close the comment early.
pub open spec fn blank_piece_ok(p: Blank) -> bool {
    match p {
        Blank::Space => true,
        Blank::Comment(body) => on_one_line(body) && forall|k: int|
            0 <= k < body.len() - 1 ==> !(#[trigger] body[k] == '*' && body[k + 1] == '/'),
    }
}

/// Nothing, or a line comment on one line that runs to the end.
pub open spec fn trailing_comment_ok(t: Seq<char>) -> bool {
    t.len() == 0 || (t.len() >= 2 && t[0] == '/' && t[1] == '/' && on_one_line(t.subrange(2, t.len() as int)))
}

pub proof fn lemma_line_comment_to_end(s: Seq<char>, p: int)
    requires
        0 <= p <= s.len(),
        forall|k: int| p <= k < s.len() ==> !is_line_break(#[trigger] s[k]) && s[k] != '\0',
    ensures
        line_comment_end(s, p) == s.len(),
    decreases s.len() - p,
{
    if p < s.len() {
        lemma_line_comment_to_end(s, p + 1);
    }
}

pub proof fn lemma_block_closes(s: Seq<char>, p: int, m: int)
    requires
        0 <= p <= m,
        m + 2 <= s.len(),
        s[m] == '*',
        s[m + 1] == '/',
        forall|k: int| p <= k < m ==> !is_line_break(#[trigger] s[k]) && s[k] != '\0',
        forall|k: int| p <= k < m ==> !(#[trigger] s[k] == '*' && s[k + 1] == '/'),
    ensures
        block_comment_end(s, p, false) == Ok::<(int, bool), int>((m + 2, false)),
    decreases m - p,
{
    if p < m {
        assert(!is_line_break(s[p]) && s[p] != '\0');
        assert(!(s[p] == '*' && s[p + 1] == '/'));
        lemma_block_closes(s, p + 1, m);
    }
}

pub proof fn lemma_blank_skips(s: Seq<char>, i: int, ps: Seq<Blank>, tail: Seq<char>)
    requires
        0 <= i <= s.len(),
        s.subrange(i, s.len() as int) == blank_text(ps) + tail,
        forall|k: int| 0 <= k < ps.len() ==> blank_piece_ok(#[trigger] ps[k]),
        trailing_comment_ok(tail),
    ensures
        skip_garbage(s, i, false) == Ok::<(int, bool), (int, int)>((s.len() as int, false)),
    decreases ps.len(),
{
    let r = s.subrange(i, s.len() as int);
    assert forall|k: int| 0 <= k < r.len() implies r[k] == #[trigger] s[i + k] by {}
    if ps.len() == 0 {
        assert(r == tail);
        if tail.len() > 0 {
            assert(s[i] == '/' && s[i + 1] == '/');
            assert forall|k: int| i + 2 <= k < s.len() implies !is_line_break(#[trigger] s[k]) && s[k] != '\0' by {
                assert(s[k] == tail.subrange(2, tail.len() as int)[k - i - 2]);
            }
            lemma_line_comment_to_end(s, i + 2);
            assert(skip_garbage(s, s.len() as int, false) == Ok::<(int, bool), (int, int)>((s.len() as int, false)));
        }
    } else {
        let rest = blank_text(ps.drop_first());
        let piece = blank_piece(ps[0]);
        assert(r == piece + (rest + tail));
        assert(blank_piece_ok(ps[0]));
        assert forall|k: int| 0 <= k < ps.drop_first().len() implies blank_piece_ok(#[trigger] ps.drop_first()[k]) by {
            assert(ps.drop_first()[k] == ps[k + 1]);
        }
        let n = i + piece.len();
        assert(s.subrange(n, s.len() as int) == rest + tail) by {
            assert forall|k: int| 0 <= k < rest.len() + tail.len() implies #[trigger] s.subrange(n, s.len() as int)[k] == (rest + tail)[k] by {
                assert(s.subrange(n, s.len() as int)[k] == s[n + k]);
                assert(s[n + k] == r[piece.len() + k]);
            }
            assert(s.subrange(n, s.len() as int) =~= rest + tail);
        }
        lemma_blank_skips(s, n, ps.drop_first(), tail);
        match ps[0] {
            Blank::Space => {
                assert(s[i] == r[0]);
                assert(r[0] == piece[0]);
            },
            Blank::Comment(body) => {
                let m = i + 2 + body.len();
                assert(s[i] == r[0] && s[i + 1] == r[1]);
                assert(r[0] == piece[0] && r[1] == piece[1]);
                assert(piece[0] == '/' && piece[1] == '*');
                assert(s[m] == '*' && s[m + 1] == '/') by {
                    assert(s[m] == r[2 + body.len() as int]);
                    assert(s[m + 1] == r[3 + body.len() as int]);
                    assert(r[2 + body.len() as int] == piece[2 + body.len() as int]);
                    assert(r[3 + body.len() as int] == piece[3 + body.len() as int]);
                }
                assert forall|k: int| i + 2 <= k < m implies #[trigger] s[k] == body[k - i - 2] by {
                    assert(s[k] == r[k - i]);
                    assert(r[k - i] == piece[k - i]);
                }
                assert forall|k: int| i + 2 <= k < m implies !is_line_break(#[trigger] s[k]) && s[k] != '\0' by {
                    assert(s[k] == body[k - i - 2]);
                }
                assert forall|k: int| i + 2 <= k < m implies !(#[trigger] s[k] == '*' && s[k + 1] == '/') by {
                    assert(s[k] == body[k - i - 2]);
                    if k + 1 < m {
                        assert(s[k + 1] == body[k + 1 - i - 2]);
                    }
                }
                lemma_block_closes(s, i + 2, m);
            },
        }
    }
}

/// A source made only of spaces and comments, with no line break, scans
/// straight to the end of input: the first call returns `Eof` at its end.
pub proof fn blank_source_gives_eof(ps: Seq<Blank>, tail: Seq<char>)
    requires
        forall|k: int| 0 <= k < ps.len() ==> blank_piece_ok(#[trigger] ps[k]),
        trailing_comment_ok(tail),
    ensures
        ({
            let s = blank_text(ps) + tail;
            lex(s, 0) == plain_token(TokenKind::Eof, s.len() as int, s.len() as int)
        }),
{
    let s = blank_text(ps) + tail;
    assert(s.subrange(0, s.len() as int) == s);
    lemma_blank_skips(s, 0, ps, tail);
}

/// The scanner only moves forward, and each token lies between where the
/// call started and where it leaves the cursor: the spans of successive
/// tokens never overlap and never go back.
pub proof fn scanning_moves_forward(s: Seq<char>, i: int)
    requires
        0 <= i <= s.len(),
    ensures
        i <= lex(s, i).next() <= s.len(),
        lex(s, i) matches Lexed::Token { start, end, next, .. } ==> i <= start <= end <= next,
{
    lemma_skip_garbage_bounds(s, i, false);
    if let Ok((j, false)) = skip_garbage(s, i, false) {
        let c = char_at(s, j);
        if c == '\0' {
        } else if crate::text::alphabetic(c) || c == '_' {
            lemma_word_end_bounds(s, step(s, j));
        } else if is_digit(c) {
            lemma_digit_end(s, j + 1);
            let e = digit_end(s, j + 1);
            if char_at(s, e) == '.' {
                lemma_digit_end(s, e + 1);
            }
        } else if c == '"' {
            lemma_string_close(s, j + 1);
        }
    }
}

} // verus!
