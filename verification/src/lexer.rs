//! The lexer: turns source text into a stream of [`Token`]s.
//!
//! The stream is finite and ends with [`Token::EOF`]; after that, every
//! further call keeps returning `EOF`.  Whitespace (the characters with
//! the Unicode White_Space property, see [`is_space`]) is skipped
//! silently; a
//! line comment (`#` up to and including the newline, or to the end of the
//! input) is emitted as a [`Token::Comment`] so the parser can skip it where
//! the grammar allows one.  A numeric literal is any run of `.` and hex
//! digits — a deliberate superset of float syntax; whether it denotes a
//! number is checked where the parser consumes it (see [`crate::numeric`]).
//! Any character that fits no other rule becomes a generic [`Token::Op`].

use vstd::prelude::*;
use crate::ast::Location;
use crate::numeric::NumLit;
use crate::numeric::is_ascii_digit;

verus! {

use crate::text::chars_of;
use crate::text::str_eq;
use crate::text::substring_of;

/// A primitive syntax token.
#[derive(Debug, Clone)]
pub enum Token {
    Binary,
    Comma,
    Comment,
    Def,
    EOF,
    Ident(String),
    ParenLeft,
    ParenRight,
    Number(NumLit),
    Op(char),
    Unary,
    Var,
    TensorBegin,
    TensorEnd,
    Semicolon,
    BlockLeft,
    BlockRight,
    AngleLeft,
    AngleRight,
    Return,
}

/// An error encountered by the lexer.  The current lexer is total — every
/// input yields a token — so this is kept for callers that extend it.
#[derive(Debug)]
pub struct LexError {
    pub error: &'static str,
    pub index: usize,
}

impl LexError {
    pub fn new(msg: &'static str) -> (r: LexError)
        ensures
            r.error@ == msg@,
            r.index == 0,
    {
        LexError { error: msg, index: 0 }
    }

    pub fn with_index(msg: &'static str, index: usize) -> (r: LexError)
        ensures
            r.error@ == msg@,
            r.index == index,
    {
        LexError { error: msg, index }
    }
}

/// The result of one lexing step: a token, or a lexing error.
pub type LexResult = Result<Token, LexError>;

/// Whitespace skipped between tokens: the characters with the Unicode
/// White_Space property, as `char::is_whitespace` recognizes them.
pub open spec fn is_space(c: char) -> bool {
    ||| c == ' ' || c == '\t' || c == '\n' || c == '\r' || c == '\u{b}' || c == '\u{c}'
    ||| c == '\u{85}' || c == '\u{a0}' || c == '\u{1680}'
    ||| ('\u{2000}' <= c && c <= '\u{200a}')
    ||| c == '\u{2028}' || c == '\u{2029}' || c == '\u{202f}' || c == '\u{205f}' || c
        == '\u{3000}'
}

/// The first character of an identifier.
pub open spec fn is_ident_start(c: char) -> bool {
    ('a' <= c && c <= 'z') || ('A' <= c && c <= 'Z') || c == '_'
}

/// A continuation character of an identifier.
pub open spec fn is_ident_char(c: char) -> bool {
    is_ident_start(c) || is_ascii_digit(c)
}

/// A hex digit: the superset filter for numeric literal runs.
pub open spec fn is_hex_digit(c: char) -> bool {
    is_ascii_digit(c) || ('a' <= c && c <= 'f') || ('A' <= c && c <= 'F')
}

/// The first character of a numeric literal.
pub open spec fn is_num_start(c: char) -> bool {
    c == '.' || is_ascii_digit(c)
}

/// A continuation character of a numeric literal.
pub open spec fn is_num_char(c: char) -> bool {
    c == '.' || is_hex_digit(c)
}

/// A structural single-character token.
pub open spec fn is_punct(c: char) -> bool {
    c == '(' || c == ')' || c == ',' || c == '[' || c == ']' || c == ';' || c == '{' || c == '}'
        || c == '<' || c == '>'
}

/// The index of the first non-whitespace character at or after `pos`.
pub open spec fn ws_end(chars: Seq<char>, pos: int) -> int
    decreases chars.len() - pos,
{
    if pos < 0 || pos >= chars.len() {
        chars.len() as int
    } else if is_space(chars[pos]) {
        ws_end(chars, pos + 1)
    } else {
        pos
    }
}

/// The index just past the identifier run starting at `pos`.
pub open spec fn ident_end(chars: Seq<char>, pos: int) -> int
    decreases chars.len() - pos,
{
    if pos < 0 || pos >= chars.len() {
        chars.len() as int
    } else if is_ident_char(chars[pos]) {
        ident_end(chars, pos + 1)
    } else {
        pos
    }
}

/// The index just past the numeric-literal run starting at `pos`.
pub open spec fn num_end(chars: Seq<char>, pos: int) -> int
    decreases chars.len() - pos,
{
    if pos < 0 || pos >= chars.len() {
        chars.len() as int
    } else if is_num_char(chars[pos]) {
        num_end(chars, pos + 1)
    } else {
        pos
    }
}

/// The index just past a line comment whose body starts at `pos`: one past
/// the first newline, or the end of the input.
pub open spec fn comment_end(chars: Seq<char>, pos: int) -> int
    decreases chars.len() - pos,
{
    if pos < 0 || pos >= chars.len() {
        chars.len() as int
    } else if chars[pos] == '\n' {
        pos + 1
    } else {
        comment_end(chars, pos + 1)
    }
}

/// What one lexing step yields: from position `pos0`, the token `t` and the
/// new position `pos1`.  This is the lexer's whole contract.
pub open spec fn lex_post(chars: Seq<char>, pos0: int, t: Token, pos1: int) -> bool {
    let start = ws_end(chars, pos0);
    if start >= chars.len() {
        t is EOF && pos1 == chars.len()
    } else {
        let c = chars[start];
        if c == '(' {
            t is ParenLeft && pos1 == start + 1
        } else if c == ')' {
            t is ParenRight && pos1 == start + 1
        } else if c == ',' {
            t is Comma && pos1 == start + 1
        } else if c == '[' {
            t is TensorBegin && pos1 == start + 1
        } else if c == ']' {
            t is TensorEnd && pos1 == start + 1
        } else if c == ';' {
            t is Semicolon && pos1 == start + 1
        } else if c == '{' {
            t is BlockLeft && pos1 == start + 1
        } else if c == '}' {
            t is BlockRight && pos1 == start + 1
        } else if c == '<' {
            t is AngleLeft && pos1 == start + 1
        } else if c == '>' {
            t is AngleRight && pos1 == start + 1
        } else if c == '#' {
            t is Comment && pos1 == comment_end(chars, start + 1)
        } else if is_num_start(c) {
            &&& t matches Token::Number(lit)
            &&& lit.text@ == chars.subrange(start, num_end(chars, start))
            &&& pos1 == num_end(chars, start)
        } else if is_ident_start(c) {
            let w = chars.subrange(start, ident_end(chars, start));
            &&& pos1 == ident_end(chars, start)
            &&& if w == "def"@ {
                t is Def
            } else if w == "unary"@ {
                t is Unary
            } else if w == "binary"@ {
                t is Binary
            } else if w == "var"@ {
                t is Var
            } else if w == "return"@ {
                t is Return
            } else {
                t matches Token::Ident(n) && n@ == w
            }
        } else {
            t matches Token::Op(op) && op == c && pos1 == start + 1
        }
    }
}

/// Whitespace skipping never moves backward nor past the end.
pub proof fn lemma_ws_end_bounds(chars: Seq<char>, pos: int)
    requires
        0 <= pos <= chars.len(),
    ensures
        pos <= ws_end(chars, pos) <= chars.len(),
    decreases chars.len() - pos,
{
    if pos < chars.len() && is_space(chars[pos]) {
        lemma_ws_end_bounds(chars, pos + 1);
    }
}

/// Run ends never move backward nor past the end.
pub proof fn lemma_run_end_bounds(chars: Seq<char>, pos: int)
    requires
        0 <= pos <= chars.len(),
    ensures
        pos <= ident_end(chars, pos) <= chars.len(),
        pos <= num_end(chars, pos) <= chars.len(),
        pos <= comment_end(chars, pos) <= chars.len(),
    decreases chars.len() - pos,
{
    if pos < chars.len() {
        lemma_run_end_bounds(chars, pos + 1);
    }
}

/// Every token but `EOF` consumes at least one character.
pub proof fn lemma_lex_progress(chars: Seq<char>, pos0: int, t: Token, pos1: int)
    requires
        lex_post(chars, pos0, t, pos1),
        !(t is EOF),
        0 <= pos0 <= chars.len(),
    ensures
        pos0 < pos1 <= chars.len(),
{
    lemma_ws_end_bounds(chars, pos0);
    let start = ws_end(chars, pos0);
    assert(start < chars.len());
    lemma_run_end_bounds(chars, start + 1);
    let c = chars[start];
    if c == '#' {
    } else if is_num_start(c) {
        assert(num_end(chars, start) == num_end(chars, start + 1));
    } else if !is_punct(c) && is_ident_start(c) {
        assert(ident_end(chars, start) == ident_end(chars, start + 1));
    }
}

/// The lexer: the source as characters, and the position of the next
/// character to read.
pub struct Lexer {
    pub chars: Vec<char>,
    pub pos: usize,
    pub last_location: Location,
}

impl Lexer {
    /// A lexer over `input`, positioned at its start.
    pub fn new(input: &str) -> (r: Lexer)
        ensures
            r.chars@ == input@,
            r.pos == 0,
    {
        Lexer { chars: chars_of(input), pos: 0, last_location: Location::new("filename.toy", 0, 0) }
    }

    /// A placeholder position, as the lexer does not track rows yet.
    pub fn last_location(&self) -> (r: Location)
        ensures
            r.filename@ == self.last_location.filename@,
            r.row == self.last_location.row,
            r.col == self.last_location.col,
    {
        Location::new(self.last_location.filename.as_str(), self.last_location.row,
            self.last_location.col)
    }

    /// Lexes and returns the next token.  Total: every call yields a token,
    /// and at the end of the input it yields `EOF` forever.
    pub fn lex(&mut self) -> (r: LexResult)
        requires
            old(self).pos <= old(self).chars@.len(),
        ensures
            final(self).chars@ == old(self).chars@,
            final(self).last_location == old(self).last_location,
            old(self).pos <= final(self).pos <= final(self).chars@.len(),
            r matches Ok(t) && lex_post(
                final(self).chars@,
                old(self).pos as int,
                t,
                final(self).pos as int,
            ),
    {
        let ghost chars = self.chars@;
        let ghost pos0 = self.pos as int;
        let n = self.chars.len();
        // skip whitespace
        let mut i: usize = self.pos;
        while i < n && space_char(self.chars[i])
            invariant
                pos0 <= i <= n == chars.len(),
                self.chars@ == chars,
                ws_end(chars, pos0) == ws_end(chars, i as int),
            decreases n - i,
        {
            i = i + 1;
        }
        proof {
            assert(ws_end(chars, i as int) == i);
        }
        let start = i;
        if start >= n {
            self.pos = n;
            return Ok(Token::EOF);
        }
        let c = self.chars[start];
        if c == '(' {
            self.pos = start + 1;
            Ok(Token::ParenLeft)
        } else if c == ')' {
            self.pos = start + 1;
            Ok(Token::ParenRight)
        } else if c == ',' {
            self.pos = start + 1;
            Ok(Token::Comma)
        } else if c == '[' {
            self.pos = start + 1;
            Ok(Token::TensorBegin)
        } else if c == ']' {
            self.pos = start + 1;
            Ok(Token::TensorEnd)
        } else if c == ';' {
            self.pos = start + 1;
            Ok(Token::Semicolon)
        } else if c == '{' {
            self.pos = start + 1;
            Ok(Token::BlockLeft)
        } else if c == '}' {
            self.pos = start + 1;
            Ok(Token::BlockRight)
        } else if c == '<' {
            self.pos = start + 1;
            Ok(Token::AngleLeft)
        } else if c == '>' {
            self.pos = start + 1;
            Ok(Token::AngleRight)
        } else if c == '#' {
            // comment: consume up to and including the newline
            let mut j: usize = start + 1;
            while j < n && self.chars[j] != '\n'
                invariant
                    start + 1 <= j <= n == chars.len(),
                    self.chars@ == chars,
                    comment_end(chars, start + 1) == comment_end(chars, j as int),
                decreases n - j,
            {
                j = j + 1;
            }
            if j < n {
                // past the newline itself
                self.pos = j + 1;
            } else {
                self.pos = n;
            }
            Ok(Token::Comment)
        } else if num_start_char(c) {
            let mut j: usize = start + 1;
            while j < n && num_char(self.chars[j])
                invariant
                    start + 1 <= j <= n == chars.len(),
                    self.chars@ == chars,
                    num_end(chars, start + 1) == num_end(chars, j as int),
                decreases n - j,
            {
                j = j + 1;
            }
            proof {
                assert(num_end(chars, start as int) == num_end(chars, start + 1));
            }
            let text = substring_of(&self.chars, start, j);
            self.pos = j;
            Ok(Token::Number(NumLit::new(text)))
        } else if ident_start_char(c) {
            let mut j: usize = start + 1;
            while j < n && ident_char(self.chars[j])
                invariant
                    start + 1 <= j <= n == chars.len(),
                    self.chars@ == chars,
                    ident_end(chars, start + 1) == ident_end(chars, j as int),
                decreases n - j,
            {
                j = j + 1;
            }
            proof {
                assert(ident_end(chars, start as int) == ident_end(chars, start + 1));
            }
            let text = substring_of(&self.chars, start, j);
            self.pos = j;
            proof {
                reveal_strlit("def");
                reveal_strlit("unary");
                reveal_strlit("binary");
                reveal_strlit("var");
                reveal_strlit("return");
            }
            if str_eq(text.as_str(), "def") {
                Ok(Token::Def)
            } else if str_eq(text.as_str(), "unary") {
                Ok(Token::Unary)
            } else if str_eq(text.as_str(), "binary") {
                Ok(Token::Binary)
            } else if str_eq(text.as_str(), "var") {
                Ok(Token::Var)
            } else if str_eq(text.as_str(), "return") {
                Ok(Token::Return)
            } else {
                Ok(Token::Ident(text))
            }
        } else {
            self.pos = start + 1;
            Ok(Token::Op(c))
        }
    }
}

/// Mirrors [`is_space`].
fn space_char(c: char) -> (b: bool)
    ensures
        b == is_space(c),
{
    (c == ' ' || c == '\t' || c == '\n' || c == '\r' || c == '\u{b}' || c == '\u{c}') || (c
        == '\u{85}' || c == '\u{a0}' || c == '\u{1680}') || ('\u{2000}' <= c && c
        <= '\u{200a}') || (c == '\u{2028}' || c == '\u{2029}' || c == '\u{202f}' || c
        == '\u{205f}' || c == '\u{3000}')
}

/// Mirrors [`is_num_start`].
fn num_start_char(c: char) -> (b: bool)
    ensures
        b == is_num_start(c),
{
    c == '.' || ('0' <= c && c <= '9')
}

/// Mirrors [`is_num_char`].
fn num_char(c: char) -> (b: bool)
    ensures
        b == is_num_char(c),
{
    c == '.' || ('0' <= c && c <= '9') || ('a' <= c && c <= 'f') || ('A' <= c && c <= 'F')
}

/// Mirrors [`is_ident_start`].
fn ident_start_char(c: char) -> (b: bool)
    ensures
        b == is_ident_start(c),
{
    ('a' <= c && c <= 'z') || ('A' <= c && c <= 'Z') || c == '_'
}

/// Mirrors [`is_ident_char`].
fn ident_char(c: char) -> (b: bool)
    ensures
        b == is_ident_char(c),
{
    ident_start_char(c) || ('0' <= c && c <= '9')
}

} // verus!
