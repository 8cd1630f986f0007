//! The lexer: turns source text into a flat sequence of typed tokens
//! with source regions, ending in an end-of-input marker.

use vstd::prelude::*;

use crate::ast::Lit;
use crate::interner::{find_interned, Interner};
use crate::interner::{str_eq, Symbol};
use crate::region::Region;
use crate::source::{spec_char_at, Source};
use crate::token::{Token, TokenKind};

verus! {

/// Identifiers can start with letters from the alphabet or underscores.
pub open spec fn spec_is_ident_start(c: char) -> bool {
    ('a' <= c && c <= 'z') || ('A' <= c && c <= 'Z') || c == '_'
}

/// Identifiers can continue with digits.
pub open spec fn spec_is_ident_cont(c: char) -> bool {
    spec_is_ident_start(c) || spec_is_digit(c)
}

pub open spec fn spec_is_digit(c: char) -> bool {
    '0' <= c && c <= '9'
}

pub open spec fn spec_is_whitespace(c: char) -> bool {
    c == ' ' || c == '\t' || c == '\n' || c == '\r' || c == '\x0c'
}

/// Identifiers can start with letters from the alphabet or underscores.
pub fn is_ident_start(ch: char) -> (r: bool)
    ensures
        r == spec_is_ident_start(ch),
{
    ('a' <= ch && ch <= 'z') || ('A' <= ch && ch <= 'Z') || ch == '_'
}

/// Identifiers can continue with digits.
pub fn is_ident_cont(ch: char) -> (r: bool)
    ensures
        r == spec_is_ident_cont(ch),
{
    is_ident_start(ch) || ('0' <= ch && ch <= '9')
}

fn is_whitespace(ch: char) -> (r: bool)
    ensures
        r == spec_is_whitespace(ch),
{
    ch == ' ' || ch == '\t' || ch == '\n' || ch == '\r' || ch == '\x0c'
}

/// The first position at or after `p` whose character fails `f`, or
/// the end of the text.
pub open spec fn scan_while(s: Seq<char>, p: int, f: spec_fn(char) -> bool) -> int
    decreases s.len() - p,
{
    if 0 <= p < s.len() && f(s[p]) {
        scan_while(s, p + 1, f)
    } else {
        p
    }
}

pub proof fn lemma_scan_while(s: Seq<char>, p: int, f: spec_fn(char) -> bool)
    requires
        0 <= p <= s.len(),
    ensures
        p <= scan_while(s, p, f) <= s.len(),
        forall|i: int| p <= i < scan_while(s, p, f) ==> f(s[i]),
        scan_while(s, p, f) < s.len() ==> !f(s[scan_while(s, p, f)]),
    decreases s.len() - p,
{
    if p < s.len() && f(s[p]) {
        lemma_scan_while(s, p + 1, f);
    }
}

/// Where a block comment that began before `p` ends: the position just
/// past the first `*/` at or after `p`, with `true` when one exists.
pub open spec fn scan_block_comment(s: Seq<char>, p: int) -> (int, bool)
    decreases s.len() - p,
{
    if p < 0 || p >= s.len() {
        (s.len() as int, false)
    } else if s[p] == '*' && p + 1 < s.len() && s[p + 1] == '/' {
        (p + 2, true)
    } else {
        scan_block_comment(s, p + 1)
    }
}

pub proof fn lemma_scan_block_comment(s: Seq<char>, p: int)
    requires
        0 <= p <= s.len(),
    ensures
        p <= scan_block_comment(s, p).0 <= s.len(),
    decreases s.len() - p,
{
    if p < s.len() && !(s[p] == '*' && p + 1 < s.len() && s[p + 1] == '/') {
        lemma_scan_block_comment(s, p + 1);
    }
}

/// The numeric value of a digit character.
pub open spec fn spec_digit_val(c: char) -> int {
    c as u32 - 48
}

/// The value of the digit run `s[from .. to]`, read in base ten.
pub open spec fn spec_digits_val(s: Seq<char>, from: int, to: int) -> int
    decreases to - from,
{
    if to <= from {
        0
    } else {
        spec_digits_val(s, from, to - 1) * 10 + spec_digit_val(spec_char_at(s, to - 1))
    }
}

pub proof fn lemma_digits_val_mono(s: Seq<char>, from: int, mid: int, to: int)
    requires
        from <= mid <= to,
        forall|i: int| from <= i < to ==> spec_is_digit(spec_char_at(s, i)),
    ensures
        0 <= spec_digits_val(s, from, mid) <= spec_digits_val(s, from, to),
    decreases to - mid,
{
    if mid == to {
        lemma_digits_val_nonneg(s, from, to);
    } else {
        lemma_digits_val_mono(s, from, mid, to - 1);
        lemma_digits_val_nonneg(s, from, to - 1);
        assert(spec_digit_val(spec_char_at(s, to - 1)) >= 0);
        assert(spec_digits_val(s, from, to - 1) * 10 >= spec_digits_val(s, from, to - 1)) by (
        nonlinear_arith)
            requires
                spec_digits_val(s, from, to - 1) >= 0,
        ;
    }
}

pub proof fn lemma_digits_val_nonneg(s: Seq<char>, from: int, to: int)
    requires
        forall|i: int| from <= i < to ==> spec_is_digit(spec_char_at(s, i)),
    ensures
        spec_digits_val(s, from, to) >= 0,
    decreases to - from,
{
    if to > from {
        lemma_digits_val_nonneg(s, from, to - 1);
        assert(spec_digit_val(spec_char_at(s, to - 1)) >= 0);
        assert(spec_digits_val(s, from, to - 1) * 10 >= 0) by (nonlinear_arith)
            requires
                spec_digits_val(s, from, to - 1) >= 0,
        ;
    }
}

/// Interning at the specification level: the handle of the first
/// occurrence, with the text appended when new.
pub open spec fn spec_intern(names: Seq<Seq<char>>, w: Seq<char>) -> (Seq<Seq<char>>, int) {
    let k = find_interned(names, w);
    if k == -1 {
        (names.push(w), names.len() as int)
    } else {
        (names, k)
    }
}

/// The token kind of an identifier-shaped word: a reserved word, or an
/// interned identifier.
pub open spec fn spec_ident_kind(w: Seq<char>, names: Seq<Seq<char>>) -> (
    TokenKind,
    Seq<Seq<char>>,
) {
    if w == "func"@ {
        (TokenKind::Func, names)
    } else if w == "extern"@ {
        (TokenKind::Extern, names)
    } else if w == "var"@ {
        (TokenKind::Var, names)
    } else if w == "if"@ {
        (TokenKind::If, names)
    } else if w == "while"@ {
        (TokenKind::While, names)
    } else if w == "else"@ {
        (TokenKind::Else, names)
    } else if w == "ret"@ {
        (TokenKind::Ret, names)
    } else {
        let (names2, sym) = spec_intern(names, w);
        (TokenKind::Ident(Symbol(sym as u32)), names2)
    }
}

/// A lexical diagnostic: a message and the region it refers to.
#[derive(Debug)]
pub struct LexError {
    pub message: &'static str,
    pub region: Region,
}

/// What one lexing step produced: at most one token, at most one
/// diagnostic, the next position, and the interner contents after it.
pub struct LexStep {
    pub tok: Option<Token>,
    pub err: Option<LexError>,
    pub pos: int,
    pub names: Seq<Seq<char>>,
}

/// A region running from `a` to `b`, as the lexer builds them.
pub open spec fn mk_region(a: int, b: int) -> Region {
    Region { start: a as usize, length: (b - a) as usize }
}

pub open spec fn step_token(kind: TokenKind, a: int, b: int, names: Seq<Seq<char>>) -> LexStep {
    LexStep {
        tok: Some(Token { kind, region: mk_region(a, b) }),
        err: None,
        pos: b,
        names,
    }
}

pub open spec fn step_skip(a: int, b: int, names: Seq<Seq<char>>) -> LexStep {
    LexStep { tok: None, err: None, pos: b, names }
}

pub open spec fn step_error(message: &'static str, a: int, b: int, names: Seq<Seq<char>>) -> LexStep {
    LexStep {
        tok: None,
        err: Some(LexError { message, region: mk_region(a, b) }),
        pos: b,
        names,
    }
}

/// One step of the lexer: what it makes of the text at position
/// `start`.
pub open spec fn spec_lex_token(s: Seq<char>, names: Seq<Seq<char>>, start: int) -> LexStep {
    let n = s.len() as int;
    if !(0 <= start < n) {
        step_skip(start, n, names)
    } else {
        let c = s[start];
        if c == '/' && start + 1 < n && s[start + 1] == '/' {
            // line comment: skip to the end of the line
            step_skip(start, scan_while(s, start + 2, |ch: char| ch != '\n'), names)
        } else if c == '/' && start + 1 < n && s[start + 1] == '*' {
            let (e, terminated) = scan_block_comment(s, start + 2);
            if terminated {
                step_skip(start, e, names)
            } else {
                step_error("unterminated block comment", start, e, names)
            }
        } else if spec_is_whitespace(c) {
            step_skip(start, scan_while(s, start + 1, |ch: char| spec_is_whitespace(ch)), names)
        } else if spec_is_ident_start(c) {
            let e = scan_while(s, start + 1, |ch: char| spec_is_ident_cont(ch));
            let (kind, names2) = spec_ident_kind(s.subrange(start, e), names);
            step_token(kind, start, e, names2)
        } else if spec_is_digit(c) {
            let e = scan_while(s, start + 1, |ch: char| spec_is_digit(ch));
            if e < n && s[e] == '.' {
                step_error("floating-point literals are not supported", start, e, names)
            } else {
                let v = spec_digits_val(s, start, e);
                if v > i64::MAX {
                    step_error("invalid integer literal", start, e, names)
                } else {
                    step_token(TokenKind::Literal(Lit::Int(v as i64)), start, e, names)
                }
            }
        } else if c == '"' {
            let q = scan_while(s, start + 1, |ch: char| ch != '"');
            if q < n {
                let (names2, sym) = spec_intern(names, s.subrange(start + 1, q));
                step_token(
                    TokenKind::Literal(Lit::Str(Symbol(sym as u32))),
                    start,
                    q + 1,
                    names2,
                )
            } else {
                step_error("unterminated string literal", start, n, names)
            }
        } else if c == '\'' {
            if start + 1 >= n {
                step_error("expected a character in a character literal", start, n, names)
            } else if start + 2 >= n {
                step_error("unterminated character literal", start, n, names)
            } else if s[start + 2] == '\'' {
                step_token(
                    TokenKind::Literal(Lit::Char(s[start + 1])),
                    start,
                    start + 3,
                    names,
                )
            } else {
                step_error("unterminated character literal", start, start + 3, names)
            }
        } else if c == '@' {
            if start + 1 < n && spec_is_ident_start(s[start + 1]) {
                let e = scan_while(s, start + 2, |ch: char| spec_is_ident_cont(ch));
                let w = s.subrange(start + 1, e);
                if w == "impt"@ {
                    step_token(TokenKind::Impt, start, e, names)
                } else if w == "expt"@ {
                    step_token(TokenKind::Expt, start, e, names)
                } else {
                    step_error("unknown preprocessor directive", start, e, names)
                }
            } else {
                step_error("expected an identifier after `@`", start, start + 1, names)
            }
        } else if c == '>' {
            if start + 1 < n && s[start + 1] == '=' {
                step_token(TokenKind::Ge, start, start + 2, names)
            } else {
                step_token(TokenKind::Gt, start, start + 1, names)
            }
        } else if c == '<' {
            if start + 1 < n && s[start + 1] == '=' {
                step_token(TokenKind::Le, start, start + 2, names)
            } else {
                step_token(TokenKind::Lt, start, start + 1, names)
            }
        } else if c == '&' {
            if start + 1 < n && s[start + 1] == '&' {
                step_token(TokenKind::DoubleAmpersand, start, start + 2, names)
            } else {
                step_token(TokenKind::Ampersand, start, start + 1, names)
            }
        } else if c == '|' {
            if start + 1 < n && s[start + 1] == '|' {
                step_token(TokenKind::DoubleBar, start, start + 2, names)
            } else {
                step_token(TokenKind::Bar, start, start + 1, names)
            }
        } else if c == '=' {
            if start + 1 < n && s[start + 1] == '=' {
                step_token(TokenKind::DoubleEqual, start, start + 2, names)
            } else {
                step_token(TokenKind::Equal, start, start + 1, names)
            }
        } else if c == '!' {
            if start + 1 < n && s[start + 1] == '=' {
                step_token(TokenKind::BangEqual, start, start + 2, names)
            } else {
                step_token(TokenKind::Bang, start, start + 1, names)
            }
        } else if c == '(' {
            step_token(TokenKind::OpenParen, start, start + 1, names)
        } else if c == ')' {
            step_token(TokenKind::CloseParen, start, start + 1, names)
        } else if c == '{' {
            step_token(TokenKind::OpenBrace, start, start + 1, names)
        } else if c == '}' {
            step_token(TokenKind::CloseBrace, start, start + 1, names)
        } else if c == ',' {
            step_token(TokenKind::Comma, start, start + 1, names)
        } else if c == ';' {
            step_token(TokenKind::Semicolon, start, start + 1, names)
        } else if c == '+' {
            step_token(TokenKind::Plus, start, start + 1, names)
        } else if c == '-' {
            step_token(TokenKind::Minus, start, start + 1, names)
        } else if c == '*' {
            step_token(TokenKind::Star, start, start + 1, names)
        } else if c == ':' {
            step_token(TokenKind::Colon, start, start + 1, names)
        } else if c == '%' {
            step_token(TokenKind::Percent, start, start + 1, names)
        } else if c == '.' {
            step_token(TokenKind::Dot, start, start + 1, names)
        } else if c == '/' {
            step_token(TokenKind::Slash, start, start + 1, names)
        } else {
            step_error("unexpected character", start, start + 1, names)
        }
    }
}

pub proof fn lemma_lex_token_progress(s: Seq<char>, names: Seq<Seq<char>>, start: int)
    requires
        0 <= start < s.len(),
    ensures
        start < spec_lex_token(s, names, start).pos <= s.len(),
        spec_lex_token(s, names, start).names.len() <= names.len() + 1,
{
    let n = s.len() as int;
    let c = s[start];
    if c == '/' && start + 1 < n && s[start + 1] == '/' {
        lemma_scan_while(s, start + 2, |ch: char| ch != '\n');
    } else if c == '/' && start + 1 < n && s[start + 1] == '*' {
        lemma_scan_block_comment(s, start + 2);
    } else if spec_is_whitespace(c) {
        lemma_scan_while(s, start + 1, |ch: char| spec_is_whitespace(ch));
    } else if spec_is_ident_start(c) {
        lemma_scan_while(s, start + 1, |ch: char| spec_is_ident_cont(ch));
    } else if spec_is_digit(c) {
        lemma_scan_while(s, start + 1, |ch: char| spec_is_digit(ch));
    } else if c == '"' {
        lemma_scan_while(s, start + 1, |ch: char| ch != '"');
    } else if c == '@' {
        if start + 1 < n && spec_is_ident_start(s[start + 1]) {
            lemma_scan_while(s, start + 2, |ch: char| spec_is_ident_cont(ch));
        }
    }
}

/// Everything the lexer produces from position `pos` on, not counting
/// the final end-of-input token: the tokens, the diagnostics, the
/// interner contents, and the offset on which the end-of-input token's
/// region will start.
pub open spec fn spec_lex_rest(s: Seq<char>, names: Seq<Seq<char>>, pos: int, last_start: int) -> (
    Seq<Token>,
    Seq<LexError>,
    Seq<Seq<char>>,
    int,
)
    decreases s.len() - pos,
    when true
    via spec_lex_rest_decreases
{
    if !(0 <= pos < s.len()) {
        (Seq::empty(), Seq::empty(), names, last_start)
    } else {
        let st = spec_lex_token(s, names, pos);
        let (toks, errs, names2, eof_start) = spec_lex_rest(s, st.names, st.pos, pos);
        let toks2 = match st.tok {
            Some(t) => seq![t] + toks,
            None => toks,
        };
        let errs2 = match st.err {
            Some(e) => seq![e] + errs,
            None => errs,
        };
        (toks2, errs2, names2, eof_start)
    }
}

#[via_fn]
proof fn spec_lex_rest_decreases(s: Seq<char>, names: Seq<Seq<char>>, pos: int, last_start: int) {
    if 0 <= pos < s.len() {
        lemma_lex_token_progress(s, names, pos);
    }
}

/// Everything the lexer produces from position `pos` on: the token
/// sequence ends with the end-of-input marker, whose region runs from
/// the start of the last lexeme to the end of the text.
pub open spec fn spec_lex(s: Seq<char>, names: Seq<Seq<char>>, pos: int, last_start: int) -> (
    Seq<Token>,
    Seq<LexError>,
    Seq<Seq<char>>,
) {
    let (toks, errs, names2, eof_start) = spec_lex_rest(s, names, pos, last_start);
    (
        toks.push(Token { kind: TokenKind::Eof, region: mk_region(eof_start, s.len() as int) }),
        errs,
        names2,
    )
}

/// The lexer's state: the input, the tokens and diagnostics produced
/// so far, and the bounds of the lexeme being read.
pub struct Lexer<'a> {
    pub input: &'a Source,
    pub tokens: Vec<Token>,
    pub errors: Vec<LexError>,
    /// the offset of the first character in the current token
    pub start: usize,
    /// the current offset from the start of the file: the character
    /// being looked at
    pub current: usize,
}

impl<'a> Lexer<'a> {
    pub open spec fn wf(self) -> bool {
        self.start <= self.current <= self.input.contents@.len()
    }

    pub open spec fn text(self) -> Seq<char> {
        self.input.contents@
    }

    pub open spec fn spec_tokens(self) -> Seq<Token> {
        self.tokens@
    }

    pub open spec fn spec_errors(self) -> Seq<LexError> {
        self.errors@
    }

    pub open spec fn spec_pos(self) -> int {
        self.current as int
    }

    pub open spec fn spec_start(self) -> int {
        self.start as int
    }

    pub fn new(input: &'a Source) -> (r: Lexer<'a>)
        ensures
            r.input == input,
            r.spec_tokens() == Seq::<Token>::empty(),
            r.spec_errors() == Seq::<LexError>::empty(),
            r.spec_pos() == 0,
            r.spec_start() == 0,
            r.wf(),
    {
        let r = Lexer { input, tokens: Vec::new(), errors: Vec::new(), start: 0, current: 0 };
        proof {
            assert(r.tokens@ =~= Seq::<Token>::empty());
            assert(r.errors@ =~= Seq::<LexError>::empty());
        }
        r
    }

    /// Get a reference to the lexer's input.
    pub fn input(&self) -> (r: &'a Source)
        ensures
            r == self.input,
    {
        self.input
    }

    /// Looks at the current un-eaten character; `'\0'` at end of input.
    fn peek(&self) -> (r: char)
        ensures
            r == spec_char_at(self.text(), self.spec_pos()),
    {
        self.input.char_at(self.current)
    }

    /// Move to the next character.
    fn eat(&mut self) -> (r: Option<char>)
        requires
            old(self).wf(),
        ensures
            final(self).input == old(self).input,
            final(self).tokens == old(self).tokens,
            final(self).errors == old(self).errors,
            final(self).start == old(self).start,
            old(self).spec_pos() < old(self).text().len() ==> r == Some(
                old(self).text()[old(self).spec_pos()],
            ) && final(self).spec_pos() == old(self).spec_pos() + 1,
            old(self).spec_pos() >= old(self).text().len() ==> r is None && final(self).spec_pos()
                == old(self).spec_pos(),
            final(self).wf(),
    {
        let n = self.input.len();
        if self.current < n {
            let c = self.input.char_at(self.current);
            self.current = self.current + 1;
            Some(c)
        } else {
            None
        }
    }

    fn is_eof(&self) -> (r: bool)
        ensures
            r == (self.spec_pos() >= self.text().len()),
    {
        self.current >= self.input.len()
    }

    /// Eats the next character and returns `true` when it matches `c`.
    fn next_is(&mut self, c: char) -> (r: bool)
        requires
            old(self).wf(),
        ensures
            final(self).input == old(self).input,
            final(self).tokens == old(self).tokens,
            final(self).errors == old(self).errors,
            final(self).start == old(self).start,
            r == (old(self).spec_pos() < old(self).text().len() && old(self).text()[old(
                self,
            ).spec_pos()] == c),
            final(self).spec_pos() == if r {
                old(self).spec_pos() + 1
            } else {
                old(self).spec_pos()
            },
            final(self).wf(),
    {
        if self.is_eof() || self.peek() != c {
            false
        } else {
            self.eat();
            true
        }
    }

    /// The input text between two character offsets.
    fn slice(&self, start: usize, end: usize) -> (r: &'a str)
        requires
            start <= end,
            end <= self.text().len(),
        ensures
            r@ == self.text().subrange(start as int, end as int),
    {
        self.input.contents.as_str().substring_char(start, end)
    }

    fn add_token(&mut self, kind: TokenKind)
        requires
            old(self).wf(),
        ensures
            final(self).input == old(self).input,
            final(self).errors == old(self).errors,
            final(self).start == old(self).start,
            final(self).current == old(self).current,
            final(self).tokens@ == old(self).tokens@.push(
                Token { kind, region: mk_region(old(self).spec_start(), old(self).spec_pos()) },
            ),
            final(self).wf(),
    {
        let region = Region::new(self.start, self.current);
        self.tokens.push(Token::new(kind, region));
    }

    fn add_error(&mut self, message: &'static str, from: usize, to: usize)
        requires
            old(self).wf(),
            from <= to,
        ensures
            final(self).input == old(self).input,
            final(self).tokens == old(self).tokens,
            final(self).start == old(self).start,
            final(self).current == old(self).current,
            final(self).errors@ == old(self).errors@.push(
                LexError { message, region: mk_region(from as int, to as int) },
            ),
            final(self).wf(),
    {
        let region = Region::new(from, to);
        self.errors.push(LexError { message, region });
    }

    fn skip_chars_while_not(&mut self, stop: char)
        requires
            old(self).wf(),
        ensures
            final(self).input == old(self).input,
            final(self).tokens == old(self).tokens,
            final(self).errors == old(self).errors,
            final(self).start == old(self).start,
            final(self).spec_pos() == scan_while(
                old(self).text(),
                old(self).spec_pos(),
                |ch: char| ch != stop,
            ),
            final(self).wf(),
    {
        let ghost f = |ch: char| ch != stop;
        while !self.is_eof() && self.peek() != stop
            invariant
                self.wf(),
                self.input == old(self).input,
                self.tokens == old(self).tokens,
                self.errors == old(self).errors,
                self.start == old(self).start,
                f == (|ch: char| ch != stop),
                scan_while(old(self).text(), old(self).spec_pos(), f) == scan_while(
                    self.text(),
                    self.spec_pos(),
                    f,
                ),
            decreases self.text().len() - self.spec_pos(),
        {
            proof {
                assert(f(self.text()[self.spec_pos()]));
                assert(scan_while(self.text(), self.spec_pos(), f) == scan_while(
                    self.text(),
                    self.spec_pos() + 1,
                    f,
                ));
            }
            self.eat();
        }
    }

    fn skip_whitespace(&mut self)
        requires
            old(self).wf(),
        ensures
            final(self).input == old(self).input,
            final(self).tokens == old(self).tokens,
            final(self).errors == old(self).errors,
            final(self).start == old(self).start,
            final(self).spec_pos() == scan_while(
                old(self).text(),
                old(self).spec_pos(),
                |ch: char| spec_is_whitespace(ch),
            ),
            final(self).wf(),
    {
        let ghost f = |ch: char| spec_is_whitespace(ch);
        while !self.is_eof() && is_whitespace(self.peek())
            invariant
                self.wf(),
                self.input == old(self).input,
                self.tokens == old(self).tokens,
                self.errors == old(self).errors,
                self.start == old(self).start,
                f == (|ch: char| spec_is_whitespace(ch)),
                scan_while(old(self).text(), old(self).spec_pos(), f) == scan_while(
                    self.text(),
                    self.spec_pos(),
                    f,
                ),
            decreases self.text().len() - self.spec_pos(),
        {
            proof {
                assert(f(self.text()[self.spec_pos()]));
                assert(scan_while(self.text(), self.spec_pos(), f) == scan_while(
                    self.text(),
                    self.spec_pos() + 1,
                    f,
                ));
            }
            self.eat();
        }
    }

    fn skip_ident_chars(&mut self)
        requires
            old(self).wf(),
        ensures
            final(self).input == old(self).input,
            final(self).tokens == old(self).tokens,
            final(self).errors == old(self).errors,
            final(self).start == old(self).start,
            final(self).spec_pos() == scan_while(
                old(self).text(),
                old(self).spec_pos(),
                |ch: char| spec_is_ident_cont(ch),
            ),
            final(self).wf(),
    {
        let ghost f = |ch: char| spec_is_ident_cont(ch);
        while !self.is_eof() && is_ident_cont(self.peek())
            invariant
                self.wf(),
                self.input == old(self).input,
                self.tokens == old(self).tokens,
                self.errors == old(self).errors,
                self.start == old(self).start,
                f == (|ch: char| spec_is_ident_cont(ch)),
                scan_while(old(self).text(), old(self).spec_pos(), f) == scan_while(
                    self.text(),
                    self.spec_pos(),
                    f,
                ),
            decreases self.text().len() - self.spec_pos(),
        {
            proof {
                assert(f(self.text()[self.spec_pos()]));
                assert(scan_while(self.text(), self.spec_pos(), f) == scan_while(
                    self.text(),
                    self.spec_pos() + 1,
                    f,
                ));
            }
            self.eat();
        }
    }

    fn line_comment(&mut self)
        requires
            old(self).wf(),
        ensures
            final(self).input == old(self).input,
            final(self).tokens == old(self).tokens,
            final(self).errors == old(self).errors,
            final(self).start == old(self).start,
            final(self).spec_pos() == scan_while(
                old(self).text(),
                old(self).spec_pos(),
                |ch: char| ch != '\n',
            ),
            final(self).wf(),
    {
        self.skip_chars_while_not('\n');
    }

    fn block_comment(&mut self)
        requires
            old(self).wf(),
        ensures
            final(self).input == old(self).input,
            final(self).tokens == old(self).tokens,
            final(self).start == old(self).start,
            ({
                let (e, terminated) = scan_block_comment(old(self).text(), old(self).spec_pos());
                &&& final(self).spec_pos() == e
                &&& if terminated {
                    final(self).errors == old(self).errors
                } else {
                    final(self).errors@ == old(self).errors@.push(
                        LexError {
                            message: "unterminated block comment",
                            region: mk_region(old(self).spec_start(), e),
                        },
                    )
                }
            }),
            final(self).wf(),
    {
        loop
            invariant
                self.wf(),
                self.input == old(self).input,
                self.tokens == old(self).tokens,
                self.errors == old(self).errors,
                self.start == old(self).start,
                scan_block_comment(old(self).text(), old(self).spec_pos()) == scan_block_comment(
                    self.text(),
                    self.spec_pos(),
                ),
            decreases self.text().len() - self.spec_pos(),
        {
            if self.is_eof() {
                let n = self.input.len();
                self.add_error("unterminated block comment", self.start, n);
                return;
            }
            let c = self.eat().unwrap();
            if c == '*' && self.next_is('/') {
                return;
            }
        }
    }

    /// Read the rest of an identifier or reserved word; the first
    /// character has been eaten.
    fn identifier(&mut self, interner: &mut Interner)
        requires
            old(self).wf(),
            old(self).spec_pos() == old(self).spec_start() + 1,
            old(self).spec_start() < old(self).text().len(),
            old(interner)@.len() < u32::MAX,
        ensures
            final(self).input == old(self).input,
            final(self).errors == old(self).errors,
            final(self).start == old(self).start,
            ({
                let e = scan_while(
                    old(self).text(),
                    old(self).spec_start() + 1,
                    |ch: char| spec_is_ident_cont(ch),
                );
                let (kind, names2) = spec_ident_kind(
                    old(self).text().subrange(old(self).spec_start(), e),
                    old(interner)@,
                );
                &&& final(self).spec_pos() == e
                &&& final(interner)@ == names2
                &&& final(self).tokens@ == old(self).tokens@.push(
                    Token { kind, region: mk_region(old(self).spec_start(), e) },
                )
            }),
            final(self).wf(),
    {
        proof {
            lemma_scan_while(
                self.text(),
                self.spec_pos(),
                |ch: char| spec_is_ident_cont(ch),
            );
        }
        self.skip_ident_chars();
        let w = self.slice(self.start, self.current);
        if str_eq(w, "func") {
            self.add_token(TokenKind::Func);
        } else if str_eq(w, "extern") {
            self.add_token(TokenKind::Extern);
        } else if str_eq(w, "var") {
            self.add_token(TokenKind::Var);
        } else if str_eq(w, "if") {
            self.add_token(TokenKind::If);
        } else if str_eq(w, "while") {
            self.add_token(TokenKind::While);
        } else if str_eq(w, "else") {
            self.add_token(TokenKind::Else);
        } else if str_eq(w, "ret") {
            self.add_token(TokenKind::Ret);
        } else {
            proof {
                crate::interner::lemma_find_interned(interner@, w@);
            }
            let sym = interner.intern(w);
            self.add_token(TokenKind::Ident(sym));
        }
    }

    /// Read the rest of a number literal; the first digit has been
    /// eaten.
    fn number(&mut self)
        requires
            old(self).wf(),
            old(self).spec_pos() == old(self).spec_start() + 1,
            old(self).spec_start() < old(self).text().len(),
            spec_is_digit(old(self).text()[old(self).spec_start()]),
        ensures
            final(self).input == old(self).input,
            final(self).start == old(self).start,
            ({
                let s = old(self).text();
                let start = old(self).spec_start();
                let e = scan_while(s, start + 1, |ch: char| spec_is_digit(ch));
                let v = spec_digits_val(s, start, e);
                &&& final(self).spec_pos() == e
                &&& if e < s.len() && s[e] == '.' {
                    final(self).tokens == old(self).tokens && final(self).errors@ == old(
                        self,
                    ).errors@.push(
                        LexError {
                            message: "floating-point literals are not supported",
                            region: mk_region(start, e),
                        },
                    )
                } else if v > i64::MAX {
                    final(self).tokens == old(self).tokens && final(self).errors@ == old(
                        self,
                    ).errors@.push(
                        LexError {
                            message: "invalid integer literal",
                            region: mk_region(start, e),
                        },
                    )
                } else {
                    final(self).errors == old(self).errors && final(self).tokens@ == old(
                        self,
                    ).tokens@.push(
                        Token {
                            kind: TokenKind::Literal(Lit::Int(v as i64)),
                            region: mk_region(start, e),
                        },
                    )
                }
            }),
            final(self).wf(),
    {
        let ghost s = self.text();
        let ghost start0 = self.spec_start();
        proof {
            lemma_scan_while(s, start0 + 1, |ch: char| spec_is_digit(ch));
        }
        let mut i: usize = self.start;
        let ghost e = scan_while(s, start0 + 1, |ch: char| spec_is_digit(ch));
        self.skip_digits();
        if self.peek() == '.' && !self.is_eof() {
            self.add_error(
                "floating-point literals are not supported",
                self.start,
                self.current,
            );
            return;
        }
        // accumulate the value, reporting numbers beyond `i64` range
        let mut v: u64 = 0;
        let to = self.current;
        while i < to
            invariant
                self.wf(),
                self.input == old(self).input,
                self.tokens == old(self).tokens,
                self.errors == old(self).errors,
                self.start == old(self).start,
                s == self.text(),
                s == old(self).text(),
                start0 == self.spec_start(),
                start0 == old(self).spec_start(),
                start0 <= i <= to,
                to == self.spec_pos(),
                to == e,
                e == scan_while(s, start0 + 1, |ch: char| spec_is_digit(ch)),
                e <= s.len(),
                forall|j: int| start0 <= j < e ==> spec_is_digit(spec_char_at(s, j)),
                e < s.len() ==> spec_char_at(s, e) != '.',
                v == spec_digits_val(s, start0, i as int),
                v <= i64::MAX,
            decreases to - i,
        {
            let c = self.input.contents.as_str().get_char(i);
            proof {
                assert(spec_is_digit(spec_char_at(s, i as int)));
                assert(c == s[i as int]);
                assert('0' <= c && c <= '9');
            }
            let d: u64 = (c as u32 as u64) - 48;
            proof {
                assert(d <= 9);
            }
            if v > (9223372036854775807u64 - d) / 10 {
                proof {
                    assert(v * 10 + d > i64::MAX) by (nonlinear_arith)
                        requires
                            v > (9223372036854775807u64 - d) / 10,
                            d <= 9,
                    ;
                    assert(d == spec_digit_val(spec_char_at(s, i as int)));
                    assert(spec_digits_val(s, start0, i + 1) == v * 10 + d);
                    lemma_digits_val_mono(s, start0, i + 1, e);
                }
                self.add_error("invalid integer literal", self.start, self.current);
                return;
            }
            proof {
                assert(v * 10 + d <= i64::MAX) by (nonlinear_arith)
                    requires
                        v <= (9223372036854775807u64 - d) / 10,
                        d <= 9,
                ;
                assert(d == spec_digit_val(spec_char_at(s, i as int)));
                assert(spec_digits_val(s, start0, i + 1) == spec_digits_val(s, start0, i as int)
                    * 10 + d);
            }
            v = v * 10 + d;
            i = i + 1;
        }
        self.add_token(TokenKind::Literal(Lit::Int(v as i64)));
    }

    fn skip_digits(&mut self)
        requires
            old(self).wf(),
        ensures
            final(self).input == old(self).input,
            final(self).tokens == old(self).tokens,
            final(self).errors == old(self).errors,
            final(self).start == old(self).start,
            final(self).spec_pos() == scan_while(
                old(self).text(),
                old(self).spec_pos(),
                |ch: char| spec_is_digit(ch),
            ),
            final(self).wf(),
    {
        let ghost f = |ch: char| spec_is_digit(ch);
        while !self.is_eof() && self.peek() >= '0' && self.peek() <= '9'
            invariant
                self.wf(),
                self.input == old(self).input,
                self.tokens == old(self).tokens,
                self.errors == old(self).errors,
                self.start == old(self).start,
                f == (|ch: char| spec_is_digit(ch)),
                scan_while(old(self).text(), old(self).spec_pos(), f) == scan_while(
                    self.text(),
                    self.spec_pos(),
                    f,
                ),
            decreases self.text().len() - self.spec_pos(),
        {
            proof {
                assert(f(self.text()[self.spec_pos()]));
                assert(scan_while(self.text(), self.spec_pos(), f) == scan_while(
                    self.text(),
                    self.spec_pos() + 1,
                    f,
                ));
            }
            self.eat();
        }
    }

    /// Read the rest of a string literal; the opening quote has been
    /// eaten.
    fn string(&mut self, interner: &mut Interner)
        requires
            old(self).wf(),
            old(self).spec_pos() == old(self).spec_start() + 1,
            old(self).spec_start() < old(self).text().len(),
            old(interner)@.len() < u32::MAX,
        ensures
            final(self).input == old(self).input,
            final(self).start == old(self).start,
            ({
                let s = old(self).text();
                let start = old(self).spec_start();
                let q = scan_while(s, start + 1, |ch: char| ch != '"');
                if q < s.len() {
                    let (names2, sym) = spec_intern(old(interner)@, s.subrange(start + 1, q));
                    &&& final(self).spec_pos() == q + 1
                    &&& final(interner)@ == names2
                    &&& final(self).errors == old(self).errors
                    &&& final(self).tokens@ == old(self).tokens@.push(
                        Token {
                            kind: TokenKind::Literal(Lit::Str(Symbol(sym as u32))),
                            region: mk_region(start, q + 1),
                        },
                    )
                } else {
                    &&& final(self).spec_pos() == s.len()
                    &&& final(interner)@ == old(interner)@
                    &&& final(self).tokens == old(self).tokens
                    &&& final(self).errors@ == old(self).errors@.push(
                        LexError {
                            message: "unterminated string literal",
                            region: mk_region(start, s.len() as int),
                        },
                    )
                }
            }),
            final(self).wf(),
    {
        proof {
            lemma_scan_while(self.text(), self.spec_pos(), |ch: char| ch != '"');
        }
        self.skip_chars_while_not('"');
        if self.is_eof() {
            let n = self.input.len();
            self.add_error("unterminated string literal", self.start, n);
            return;
        }
        self.eat();
        // exclude the quotation marks from the string literal
        let w = self.slice(self.start + 1, self.current - 1);
        proof {
            crate::interner::lemma_find_interned(interner@, w@);
        }
        let sym = interner.intern(w);
        self.add_token(TokenKind::Literal(Lit::Str(sym)));
    }

    /// What one `lex_token` call does to the lexer and the interner.
    pub open spec fn step_applied(
        pre: Lexer<'a>,
        pre_names: Seq<Seq<char>>,
        post: Lexer<'a>,
        post_names: Seq<Seq<char>>,
    ) -> bool {
        let st = spec_lex_token(pre.text(), pre_names, pre.spec_start());
        &&& post.input == pre.input
        &&& post.start == pre.start
        &&& post.spec_pos() == st.pos
        &&& post_names == st.names
        &&& post.tokens@ == match st.tok {
            Some(t) => pre.tokens@.push(t),
            None => pre.tokens@,
        }
        &&& post.errors@ == match st.err {
            Some(e) => pre.errors@.push(e),
            None => pre.errors@,
        }
    }

    /// Read one lexeme: a token, a comment, a run of whitespace, or a
    /// diagnostic.
    pub fn lex_token(&mut self, interner: &mut Interner)
        requires
            old(self).wf(),
            old(self).spec_pos() == old(self).spec_start(),
            old(self).spec_start() < old(self).text().len(),
            old(interner)@.len() < u32::MAX,
        ensures
            Lexer::step_applied(*old(self), old(interner)@, *final(self), final(interner)@),
            final(self).wf(),
    {
        let c = self.eat().unwrap();
        if c == '/' && self.next_is('/') {
            // the second `/` is eaten; skip to the end of the line
            self.line_comment();
        } else if c == '/' && self.next_is('*') {
            self.block_comment();
        } else if is_whitespace(c) {
            self.skip_whitespace();
        } else if is_ident_start(c) {
            self.identifier(interner);
        } else if c >= '0' && c <= '9' {
            self.number();
        } else if c == '"' {
            self.string(interner);
        } else if c == '\'' {
            match self.eat() {
                None => {
                    let n = self.input.len();
                    self.add_error(
                        "expected a character in a character literal",
                        self.start,
                        n,
                    );
                }
                Some(inner) => {
                    match self.eat() {
                        None => {
                            let n = self.input.len();
                            self.add_error("unterminated character literal", self.start, n);
                        }
                        Some(q) => {
                            if q == '\'' {
                                self.add_token(TokenKind::Literal(Lit::Char(inner)));
                            } else {
                                self.add_error(
                                    "unterminated character literal",
                                    self.start,
                                    self.current,
                                );
                            }
                        }
                    }
                }
            }
        } else if c == '@' {
            if !self.is_eof() && is_ident_start(self.peek()) {
                proof {
                    lemma_scan_while(
                        self.text(),
                        self.spec_pos(),
                        |ch: char| spec_is_ident_cont(ch),
                    );
                }
                self.skip_ident_chars();
                let w = self.slice(self.start + 1, self.current);
                if str_eq(w, "impt") {
                    self.add_token(TokenKind::Impt);
                } else if str_eq(w, "expt") {
                    self.add_token(TokenKind::Expt);
                } else {
                    self.add_error("unknown preprocessor directive", self.start, self.current);
                }
            } else {
                self.add_error("expected an identifier after `@`", self.start, self.current);
            }
        } else if c == '>' {
            if self.next_is('=') {
                self.add_token(TokenKind::Ge);
            } else {
                self.add_token(TokenKind::Gt);
            }
        } else if c == '<' {
            if self.next_is('=') {
                self.add_token(TokenKind::Le);
            } else {
                self.add_token(TokenKind::Lt);
            }
        } else if c == '&' {
            if self.next_is('&') {
                self.add_token(TokenKind::DoubleAmpersand);
            } else {
                self.add_token(TokenKind::Ampersand);
            }
        } else if c == '|' {
            if self.next_is('|') {
                self.add_token(TokenKind::DoubleBar);
            } else {
                self.add_token(TokenKind::Bar);
            }
        } else if c == '=' {
            if self.next_is('=') {
                self.add_token(TokenKind::DoubleEqual);
            } else {
                self.add_token(TokenKind::Equal);
            }
        } else if c == '!' {
            if self.next_is('=') {
                self.add_token(TokenKind::BangEqual);
            } else {
                self.add_token(TokenKind::Bang);
            }
        } else if c == '(' {
            self.add_token(TokenKind::OpenParen);
        } else if c == ')' {
            self.add_token(TokenKind::CloseParen);
        } else if c == '{' {
            self.add_token(TokenKind::OpenBrace);
        } else if c == '}' {
            self.add_token(TokenKind::CloseBrace);
        } else if c == ',' {
            self.add_token(TokenKind::Comma);
        } else if c == ';' {
            self.add_token(TokenKind::Semicolon);
        } else if c == '+' {
            self.add_token(TokenKind::Plus);
        } else if c == '-' {
            self.add_token(TokenKind::Minus);
        } else if c == '*' {
            self.add_token(TokenKind::Star);
        } else if c == ':' {
            self.add_token(TokenKind::Colon);
        } else if c == '%' {
            self.add_token(TokenKind::Percent);
        } else if c == '.' {
            self.add_token(TokenKind::Dot);
        } else if c == '/' {
            self.add_token(TokenKind::Slash);
        } else {
            self.add_error("unexpected character", self.start, self.current);
        }
    }

    /// Lex the whole input: the returned token sequence is everything
    /// `spec_lex` describes and always ends with the end-of-input
    /// marker.
    pub fn lex(&mut self, interner: &mut Interner) -> (r: Vec<Token>)
        requires
            old(self).wf(),
            old(interner)@.len() + old(self).text().len() < u32::MAX,
        ensures
            ({
                let (toks, errs, names2) = spec_lex(
                    old(self).text(),
                    old(interner)@,
                    old(self).spec_pos(),
                    old(self).spec_start(),
                );
                &&& final(self).tokens@ == old(self).tokens@ + toks
                &&& final(self).errors@ == old(self).errors@ + errs
                &&& final(interner)@ == names2
                &&& r@ == final(self).tokens@
                &&& final(self).input == old(self).input
            }),
            final(self).wf(),
    {
        let ghost s = self.text();
        let ghost names0 = old(interner)@;
        let ghost c0 = self.spec_pos();
        let ghost s0 = self.spec_start();
        let ghost n_toks = self.tokens@.len();
        let ghost n_errs = self.errors@.len();
        while !self.is_eof()
            invariant
                self.wf(),
                self.input == old(self).input,
                s == self.text(),
                names0 == old(interner)@,
                c0 == old(self).spec_pos(),
                s0 == old(self).spec_start(),
                n_toks == old(self).tokens@.len(),
                n_errs == old(self).errors@.len(),
                n_toks <= self.tokens@.len(),
                n_errs <= self.errors@.len(),
                self.tokens@.take(n_toks as int) == old(self).tokens@,
                self.errors@.take(n_errs as int) == old(self).errors@,
                interner@.len() + (s.len() - self.spec_pos()) < u32::MAX,
                ({
                    let full = spec_lex_rest(s, names0, c0, s0);
                    let rest = spec_lex_rest(s, interner@, self.spec_pos(), self.spec_start());
                    &&& full.0 =~= self.tokens@.skip(n_toks as int) + rest.0
                    &&& full.1 =~= self.errors@.skip(n_errs as int) + rest.1
                    &&& full.2 == rest.2
                    &&& full.3 == rest.3
                }),
            decreases self.text().len() - self.spec_pos(),
        {
            let ghost names_pre = interner@;
            let ghost pre = *self;
            self.start = self.current;
            let ghost pre2 = *self;
            proof {
                lemma_lex_rest_last_start_irrelevant(
                    s,
                    names_pre,
                    pre.spec_pos(),
                    pre.spec_start(),
                    pre2.spec_start(),
                );
            }
            self.lex_token(interner);
            proof {
                lemma_lex_token_progress(s, names_pre, pre2.spec_start());
                let st = spec_lex_token(s, names_pre, pre2.spec_start());
                assert(spec_lex_rest(s, names_pre, pre2.spec_pos(), pre2.spec_start()) == {
                    let (toks, errs, names2, eof_start) = spec_lex_rest(
                        s,
                        st.names,
                        st.pos,
                        pre2.spec_pos(),
                    );
                    let toks2 = match st.tok {
                        Some(t) => seq![t] + toks,
                        None => toks,
                    };
                    let errs2 = match st.err {
                        Some(e) => seq![e] + errs,
                        None => errs,
                    };
                    (toks2, errs2, names2, eof_start)
                });
                assert(spec_lex_rest(s, names0, c0, s0).0 =~= self.tokens@.skip(n_toks as int)
                    + spec_lex_rest(s, interner@, self.spec_pos(), self.spec_start()).0);
                assert(spec_lex_rest(s, names0, c0, s0).1 =~= self.errors@.skip(n_errs as int)
                    + spec_lex_rest(s, interner@, self.spec_pos(), self.spec_start()).1);
                assert(self.tokens@.take(n_toks as int) =~= old(self).tokens@);
                assert(self.errors@.take(n_errs as int) =~= old(self).errors@);
            }
        }
        self.add_token(TokenKind::Eof);
        proof {
            assert(old(self).tokens@ + spec_lex(s, names0, c0, s0).0 =~= self.tokens@);
            assert(old(self).errors@ + spec_lex(s, names0, c0, s0).1 =~= self.errors@);
        }
        let mut out: Vec<Token> = Vec::new();
        let mut i: usize = 0;
        let n = self.tokens.len();
        while i < n
            invariant
                i <= n,
                n == self.tokens@.len(),
                out@ =~= self.tokens@.take(i as int),
            decreases n - i,
        {
            let t = self.tokens[i];
            out.push(t);
            i = i + 1;
        }
        proof {
            assert(out@ =~= self.tokens@);
        }
        out
    }
}

/// Every token one lexing step produces is a real lexeme: never the
/// end-of-input marker, with a well-formed region inside the text.
pub proof fn lemma_lex_token_shape(s: Seq<char>, names: Seq<Seq<char>>, start: int)
    requires
        0 <= start < s.len(),
        s.len() <= usize::MAX,
    ensures
        ({
            let st = spec_lex_token(s, names, start);
            st.tok matches Some(tok) ==> {
                &&& tok.kind != TokenKind::Eof
                &&& tok.region.wf()
            }
        }),
{
    lemma_lex_token_progress(s, names, start);
    let n = s.len() as int;
    let c = s[start];
    if c == '/' && start + 1 < n && s[start + 1] == '/' {
        lemma_scan_while(s, start + 2, |ch: char| ch != '\n');
    } else if c == '/' && start + 1 < n && s[start + 1] == '*' {
        lemma_scan_block_comment(s, start + 2);
    } else if spec_is_whitespace(c) {
        lemma_scan_while(s, start + 1, |ch: char| spec_is_whitespace(ch));
    } else if spec_is_ident_start(c) {
        lemma_scan_while(s, start + 1, |ch: char| spec_is_ident_cont(ch));
    } else if spec_is_digit(c) {
        lemma_scan_while(s, start + 1, |ch: char| spec_is_digit(ch));
    } else if c == '"' {
        lemma_scan_while(s, start + 1, |ch: char| ch != '"');
    } else if c == '@' {
        if start + 1 < n && spec_is_ident_start(s[start + 1]) {
            lemma_scan_while(s, start + 2, |ch: char| spec_is_ident_cont(ch));
        }
    }
}

/// Everything the lexer produces ahead of the end-of-input marker is a
/// real lexeme with a well-formed region, and the marker's region
/// starts inside the text.
pub proof fn lemma_lex_rest_shape(s: Seq<char>, names: Seq<Seq<char>>, pos: int, last_start: int)
    requires
        0 <= pos,
        0 <= last_start <= s.len(),
        s.len() <= usize::MAX,
    ensures
        ({
            let (toks, errs, names2, eof_start) = spec_lex_rest(s, names, pos, last_start);
            &&& forall|i: int|
                0 <= i < toks.len() ==> (#[trigger] toks[i]).kind != TokenKind::Eof
                    && toks[i].region.wf()
            &&& 0 <= eof_start <= s.len()
        }),
    decreases s.len() - pos,
{
    if 0 <= pos < s.len() {
        lemma_lex_token_progress(s, names, pos);
        lemma_lex_token_shape(s, names, pos);
        let st = spec_lex_token(s, names, pos);
        lemma_lex_rest_shape(s, st.names, st.pos, pos);
        let (toks, errs, names2, eof_start) = spec_lex_rest(s, st.names, st.pos, pos);
        match st.tok {
            Some(t) => {
                assert(spec_lex_rest(s, names, pos, last_start).0 =~= seq![t] + toks);
            },
            None => {},
        }
    }
}

/// The lexer's full output is a well-formed token stream: nonempty, the
/// end-of-input marker exactly at the end, every region well formed.
pub proof fn lemma_lex_tokens_wf(s: Seq<char>, names: Seq<Seq<char>>)
    requires
        s.len() <= usize::MAX,
    ensures
        crate::parser::wf_tokens(spec_lex(s, names, 0, 0).0),
{
    lemma_lex_rest_shape(s, names, 0, 0);
    let (toks, errs, names2, eof_start) = spec_lex_rest(s, names, 0, 0);
    let all = spec_lex(s, names, 0, 0).0;
    assert(all == toks.push(
        Token { kind: TokenKind::Eof, region: mk_region(eof_start, s.len() as int) },
    ));
    assert(all[all.len() - 1].kind == TokenKind::Eof);
    assert(mk_region(eof_start, s.len() as int).wf());
    assert(forall|i: int| 0 <= i < all.len() - 1 ==> all[i] == toks[i]);
}

/// The value of `spec_lex_rest` does not depend on `last_start` while
/// there is input left.
pub proof fn lemma_lex_rest_last_start_irrelevant(
    s: Seq<char>,
    names: Seq<Seq<char>>,
    pos: int,
    a: int,
    b: int,
)
    requires
        0 <= pos < s.len(),
    ensures
        spec_lex_rest(s, names, pos, a) == spec_lex_rest(s, names, pos, b),
{
}

} // verus!
