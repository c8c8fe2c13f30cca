//! Tokenize the input.

use vstd::prelude::*;
use vstd::string::StringSliceAdditionalSpecFns;

use crate::error::{DiagView, Error};
use crate::span::{S, Span};

verus! {

/// The type of token yielded by the lexer.
#[derive(Debug, Clone, Copy, PartialEq, Eq, Structural)]
pub enum Token {
    /// `:`
    Colon,
    /// `,`
    Comma,
    /// `#`
    Hash,
    /// `+`
    Plus,
    /// `-`
    Minus,
    /// An LF line ending (0x0A).
    Newline,
    /// A sequence of tabs (0x09) and/or spaces (0x20).
    Whitespace,
    /// A mnemonic, variable or label identifier, like `HLT`, `the_end` or `rb`.
    Ident,
    /// A number like `19`, `0b1011`, `0o777`, or `0x7f`.
    Number,
    /// A string like `"Hello World!\n"`.
    Str,
    /// Comment contents including the `;` prefix.
    Comment,
    /// The end of input.
    Eof,
}

impl Token {
    /// A short English description of the token, used in messages.
    pub fn human(&self) -> (r: &'static str)
        ensures
            r.spec_bytes() == spec_human(*self),
    {
        match *self {
            Token::Colon => "a colon",
            Token::Comma => "a comma",
            Token::Hash => "a hash",
            Token::Plus => "a plus",
            Token::Minus => "a minus",
            Token::Newline => "a newline",
            Token::Whitespace => "whitespace",
            Token::Ident => "an identifier",
            Token::Number => "a number",
            Token::Str => "a string",
            Token::Comment => "a comment",
            Token::Eof => "end of input",
        }
    }
}

/// The description that `human` returns for each token.
pub open spec fn spec_human(t: Token) -> Seq<u8> {
    match t {
        Token::Colon => "a colon".spec_bytes(),
        Token::Comma => "a comma".spec_bytes(),
        Token::Hash => "a hash".spec_bytes(),
        Token::Plus => "a plus".spec_bytes(),
        Token::Minus => "a minus".spec_bytes(),
        Token::Newline => "a newline".spec_bytes(),
        Token::Whitespace => "whitespace".spec_bytes(),
        Token::Ident => "an identifier".spec_bytes(),
        Token::Number => "a number".spec_bytes(),
        Token::Str => "a string".spec_bytes(),
        Token::Comment => "a comment".spec_bytes(),
        Token::Eof => "end of input".spec_bytes(),
    }
}

/// Tab or space.
pub open spec fn is_ws(b: u8) -> bool {
    b == 32 || b == 9
}

/// ASCII decimal digit.
pub open spec fn is_digit(b: u8) -> bool {
    48 <= b <= 57
}

/// ASCII letter or underscore: what may start an identifier.
pub open spec fn is_ident_start(b: u8) -> bool {
    (97 <= b <= 122) || (65 <= b <= 90) || b == 95
}

/// ASCII letter, digit or underscore: what identifiers and numbers consume.
pub open spec fn is_ident_byte(b: u8) -> bool {
    is_ident_start(b) || is_digit(b)
}

pub open spec fn ws_pred() -> spec_fn(u8) -> bool {
    |b: u8| is_ws(b)
}

pub open spec fn ident_pred() -> spec_fn(u8) -> bool {
    |b: u8| is_ident_byte(b)
}

pub open spec fn not_nl_pred() -> spec_fn(u8) -> bool {
    |b: u8| b != 10
}

/// First index at or after `pos` that ends a run of bytes satisfying `pred`.
pub open spec fn run_end(s: Seq<u8>, pos: int, pred: spec_fn(u8) -> bool) -> int
    decreases s.len() - pos,
{
    if pos < 0 || pos >= s.len() {
        pos
    } else if pred(s[pos]) {
        run_end(s, pos + 1, pred)
    } else {
        pos
    }
}

pub proof fn lemma_run_end_bounds(s: Seq<u8>, pos: int, pred: spec_fn(u8) -> bool)
    requires
        0 <= pos <= s.len(),
    ensures
        pos <= run_end(s, pos, pred) <= s.len(),
    decreases s.len() - pos,
{
    if pos < s.len() && pred(s[pos]) {
        lemma_run_end_bounds(s, pos + 1, pred);
    }
}

/// How a string literal scan ends: `kind` 0 closed at `at` (index one past the
/// closing quote), 1 hit a newline at `at`, 2 hit the end of input (`at` is the
/// input length).
pub struct StrScan {
    pub kind: u8,
    pub at: int,
}

/// Scans a string literal body from `pos`, where `prev` is the previous byte.
/// The literal closes at the first `"` not preceded by a `\`.
pub open spec fn string_end(s: Seq<u8>, pos: int, prev: u8) -> StrScan
    decreases s.len() - pos,
{
    if pos < 0 || pos >= s.len() {
        StrScan { kind: 2, at: s.len() as int }
    } else if s[pos] == 10 {
        StrScan { kind: 1, at: pos }
    } else if s[pos] == 34 && prev != 92 {
        StrScan { kind: 0, at: pos + 1 }
    } else {
        string_end(s, pos + 1, s[pos])
    }
}

pub proof fn lemma_string_end_bounds(s: Seq<u8>, pos: int, prev: u8)
    requires
        0 <= pos <= s.len(),
    ensures
        pos <= string_end(s, pos, prev).at <= s.len(),
        string_end(s, pos, prev).kind == 0 ==> pos < string_end(s, pos, prev).at,
        string_end(s, pos, prev).kind == 1 ==> string_end(s, pos, prev).at < s.len(),
    decreases s.len() - pos,
{
    if pos < s.len() && !(s[pos] == 10) && !(s[pos] == 34 && prev != 92) {
        lemma_string_end_bounds(s, pos + 1, s[pos]);
    }
}

/// Length in bytes of the UTF-8 character whose leading byte is `b`.
pub open spec fn utf8_len(b: u8) -> int {
    if b < 0x80 {
        1
    } else if b < 0xe0 {
        2
    } else if b < 0xf0 {
        3
    } else {
        4
    }
}

/// One step of the lexer: on success (`ok`), the token and its span; on
/// failure, the message and the span to underline. `end` is the position the
/// lexer stands at afterwards.
pub struct LexStep {
    pub ok: bool,
    pub token: Token,
    pub span: Span,
    pub msg: Seq<u8>,
    pub end: int,
}

pub open spec fn mk_span(m: int, n: int) -> Span {
    Span { m: m as usize, n: n as usize }
}

pub open spec fn lex_tok(t: Token, m: int, n: int, end: int) -> LexStep {
    LexStep { ok: true, token: t, span: mk_span(m, n), msg: Seq::empty(), end }
}

pub open spec fn lex_fail(msg: Seq<u8>, m: int, n: int, end: int) -> LexStep {
    LexStep { ok: false, token: Token::Eof, span: mk_span(m, n), msg, end }
}

/// The next token of `s` starting at `pos`, as the scanning rules give it:
/// single-character tokens, runs of whitespace, comments to the newline,
/// string literals to the unescaped quote, numbers and identifiers through
/// identifier characters, and `unexpected character` otherwise.
pub open spec fn spec_lex(s: Seq<u8>, pos: int) -> LexStep {
    if pos >= s.len() {
        lex_tok(Token::Eof, pos, pos, pos)
    } else {
        let b = s[pos];
        if b == 58 {
            lex_tok(Token::Colon, pos, pos + 1, pos + 1)
        } else if b == 44 {
            lex_tok(Token::Comma, pos, pos + 1, pos + 1)
        } else if b == 35 {
            lex_tok(Token::Hash, pos, pos + 1, pos + 1)
        } else if b == 43 {
            lex_tok(Token::Plus, pos, pos + 1, pos + 1)
        } else if b == 45 {
            lex_tok(Token::Minus, pos, pos + 1, pos + 1)
        } else if b == 10 {
            lex_tok(Token::Newline, pos, pos + 1, pos + 1)
        } else if b == 59 {
            let e = run_end(s, pos + 1, not_nl_pred());
            lex_tok(Token::Comment, pos, e, e)
        } else if b == 34 {
            let sc = string_end(s, pos + 1, 34);
            if sc.kind == 0 {
                lex_tok(Token::Str, pos, sc.at, sc.at)
            } else if sc.kind == 1 {
                lex_fail("undelimited string".spec_bytes(), pos, sc.at, sc.at + 1)
            } else {
                lex_fail("undelimited string".spec_bytes(), pos, s.len() as int, s.len() as int)
            }
        } else if is_ws(b) {
            let e = run_end(s, pos + 1, ws_pred());
            lex_tok(Token::Whitespace, pos, e, e)
        } else if is_digit(b) {
            let e = run_end(s, pos + 1, ident_pred());
            lex_tok(Token::Number, pos, e, e)
        } else if is_ident_start(b) {
            let e = run_end(s, pos + 1, ident_pred());
            lex_tok(Token::Ident, pos, e, e)
        } else {
            let e = if pos + utf8_len(b) <= s.len() {
                pos + utf8_len(b)
            } else {
                s.len() as int
            };
            lex_fail("unexpected character".spec_bytes(), pos, e, e)
        }
    }
}

/// Every lexer step stays inside the input, and any step taken strictly below
/// the end of input makes progress.
pub proof fn lemma_lex_bounds(s: Seq<u8>, pos: int)
    requires
        0 <= pos <= s.len(),
    ensures
        pos <= spec_lex(s, pos).end <= s.len(),
        pos < s.len() ==> pos < spec_lex(s, pos).end,
        spec_lex(s, pos).ok && spec_lex(s, pos).token != Token::Eof ==> pos < spec_lex(s, pos).end,
        spec_lex(s, pos).ok && spec_lex(s, pos).token == Token::Eof ==> spec_lex(s, pos).end == pos,
{
    if pos < s.len() {
        let b = s[pos];
        lemma_run_end_bounds(s, pos + 1, not_nl_pred());
        lemma_run_end_bounds(s, pos + 1, ws_pred());
        lemma_run_end_bounds(s, pos + 1, ident_pred());
        lemma_string_end_bounds(s, pos + 1, 34);
    }
}

/// Whitespace and comments are skipped when looking for the next token.
pub open spec fn is_interesting(t: Token) -> bool {
    !(t == Token::Whitespace || t == Token::Comment)
}

#[via_fn]
proof fn spec_find_decreases(s: Seq<u8>, pos: int) {
    if 0 <= pos <= s.len() {
        lemma_lex_bounds(s, pos);
    }
}

/// The next interesting token of `s` at or after `pos` (`Eof` always stops the
/// search), or the first lexing failure before it.
pub open spec fn spec_find(s: Seq<u8>, pos: int) -> LexStep
    decreases s.len() - pos,
    when 0 <= pos <= s.len()
    via spec_find_decreases
{
    let st = spec_lex(s, pos);
    if !st.ok {
        st
    } else if st.token == Token::Eof || is_interesting(st.token) {
        st
    } else {
        spec_find(s, st.end)
    }
}

pub proof fn lemma_find_bounds(s: Seq<u8>, pos: int)
    requires
        0 <= pos <= s.len(),
    ensures
        pos <= spec_find(s, pos).end <= s.len(),
        spec_find(s, pos).ok && spec_find(s, pos).token != Token::Eof ==> pos < spec_find(
            s,
            pos,
        ).end,
        !spec_find(s, pos).ok ==> pos < spec_find(s, pos).end,
    decreases s.len() - pos,
{
    let st = spec_lex(s, pos);
    lemma_lex_bounds(s, pos);
    if st.ok && st.token != Token::Eof && !is_interesting(st.token) {
        lemma_find_bounds(s, st.end);
    }
}

/// An iterator over input tokens: the input bytes and the current position.
#[derive(Debug, Clone)]
pub struct Tokens<'i> {
    pub input: &'i [u8],
    pub pos: usize,
}

impl<'i> Tokens<'i> {
    pub open spec fn wf(&self) -> bool {
        self.pos <= self.input@.len()
    }

    /// Constructs a new iterator over the input's tokens.
    pub fn new(input: &'i str) -> (r: Tokens<'i>)
        ensures
            r.input@ == input.spec_bytes(),
            r.pos == 0,
            r.wf(),
    {
        Tokens { input: input.as_bytes(), pos: 0 }
    }

    /// Returns the next token in the lexer.
    pub fn next(&mut self) -> (r: Result<S<Token>, Error>)
        requires
            old(self).wf(),
        ensures
            final(self).input == old(self).input,
            final(self).wf(),
            ({
                let st = spec_lex(old(self).input@, old(self).pos as int);
                &&& final(self).pos == st.end
                &&& st.ok ==> r == Ok::<S<Token>, Error>(S(st.token, st.span))
                &&& !st.ok ==> (r matches Err(e) && e@ == (DiagView {
                    msg: st.msg,
                    span: st.span,
                }))
            }),
    {
        let len = self.input.len();
        let pos = self.pos;
        proof {
            lemma_lex_bounds(self.input@, pos as int);
        }
        if pos >= len {
            return Ok(S(Token::Eof, Span { m: pos, n: pos }));
        }
        let b = *vstd::slice::slice_index_get(self.input, pos);
        if b == 58 {
            self.pos = pos + 1;
            Ok(S(Token::Colon, Span { m: pos, n: pos + 1 }))
        } else if b == 44 {
            self.pos = pos + 1;
            Ok(S(Token::Comma, Span { m: pos, n: pos + 1 }))
        } else if b == 35 {
            self.pos = pos + 1;
            Ok(S(Token::Hash, Span { m: pos, n: pos + 1 }))
        } else if b == 43 {
            self.pos = pos + 1;
            Ok(S(Token::Plus, Span { m: pos, n: pos + 1 }))
        } else if b == 45 {
            self.pos = pos + 1;
            Ok(S(Token::Minus, Span { m: pos, n: pos + 1 }))
        } else if b == 10 {
            self.pos = pos + 1;
            Ok(S(Token::Newline, Span { m: pos, n: pos + 1 }))
        } else if b == 59 {
            let e = scan_comment(self.input, pos + 1);
            self.pos = e;
            Ok(S(Token::Comment, Span { m: pos, n: e }))
        } else if b == 34 {
            let (kind, at) = scan_string(self.input, pos + 1);
            if kind == 0 {
                self.pos = at;
                Ok(S(Token::Str, Span { m: pos, n: at }))
            } else if kind == 1 {
                self.pos = at + 1;
                Err(Error::new("undelimited string", Span { m: pos, n: at }))
            } else {
                self.pos = len;
                Err(Error::new("undelimited string", Span { m: pos, n: len }))
            }
        } else if is_ws_x(b) {
            let e = scan_ws(self.input, pos + 1);
            self.pos = e;
            Ok(S(Token::Whitespace, Span { m: pos, n: e }))
        } else if is_digit_x(b) {
            let e = scan_ident_bytes(self.input, pos + 1);
            self.pos = e;
            Ok(S(Token::Number, Span { m: pos, n: e }))
        } else if is_ident_start_x(b) {
            let e = scan_ident_bytes(self.input, pos + 1);
            self.pos = e;
            Ok(S(Token::Ident, Span { m: pos, n: e }))
        } else {
            let l: usize = if b < 0x80 {
                1
            } else if b < 0xe0 {
                2
            } else if b < 0xf0 {
                3
            } else {
                4
            };
            let e: usize = if len - pos >= l {
                pos + l
            } else {
                len
            };
            self.pos = e;
            Err(Error::new("unexpected character", Span { m: pos, n: e }))
        }
    }

    /// Finds the next interesting token: whitespace and comments are skipped,
    /// `Eof` always stops the search.
    pub fn find(&mut self) -> (r: Result<S<Token>, Error>)
        requires
            old(self).wf(),
        ensures
            final(self).input == old(self).input,
            final(self).wf(),
            ({
                let st = spec_find(old(self).input@, old(self).pos as int);
                &&& final(self).pos == st.end
                &&& st.ok ==> r == Ok::<S<Token>, Error>(S(st.token, st.span))
                &&& !st.ok ==> (r matches Err(e) && e@ == (DiagView {
                    msg: st.msg,
                    span: st.span,
                }))
            }),
    {
        loop
            invariant
                self.wf(),
                self.input == old(self).input,
                spec_find(self.input@, self.pos as int) == spec_find(
                    old(self).input@,
                    old(self).pos as int,
                ),
            decreases self.input@.len() - self.pos,
        {
            proof {
                lemma_lex_bounds(self.input@, self.pos as int);
            }
            let r = self.next();
            match r {
                Err(e) => {
                    return Err(e);
                },
                Ok(S(t, sp)) => {
                    match t {
                        Token::Whitespace | Token::Comment => {},
                        _ => {
                            return Ok(S(t, sp));
                        },
                    }
                },
            }
        }
    }
}

fn is_ws_x(b: u8) -> (r: bool)
    ensures
        r == is_ws(b),
{
    b == 32 || b == 9
}

fn is_digit_x(b: u8) -> (r: bool)
    ensures
        r == is_digit(b),
{
    48 <= b && b <= 57
}

fn is_ident_start_x(b: u8) -> (r: bool)
    ensures
        r == is_ident_start(b),
{
    (97 <= b && b <= 122) || (65 <= b && b <= 90) || b == 95
}

fn is_ident_byte_x(b: u8) -> (r: bool)
    ensures
        r == is_ident_byte(b),
{
    is_ident_start_x(b) || is_digit_x(b)
}

fn scan_ws(input: &[u8], start: usize) -> (j: usize)
    requires
        start <= input@.len(),
    ensures
        j == run_end(input@, start as int, ws_pred()),
        start <= j <= input@.len(),
{
    let len = input.len();
    let mut j = start;
    while j < len && is_ws_x(*vstd::slice::slice_index_get(input, j))
        invariant
            start <= j <= len,
            len == input@.len(),
            run_end(input@, start as int, ws_pred()) == run_end(input@, j as int, ws_pred()),
        decreases len - j,
    {
        j = j + 1;
    }
    j
}

fn scan_ident_bytes(input: &[u8], start: usize) -> (j: usize)
    requires
        start <= input@.len(),
    ensures
        j == run_end(input@, start as int, ident_pred()),
        start <= j <= input@.len(),
{
    let len = input.len();
    let mut j = start;
    while j < len && is_ident_byte_x(*vstd::slice::slice_index_get(input, j))
        invariant
            start <= j <= len,
            len == input@.len(),
            run_end(input@, start as int, ident_pred()) == run_end(input@, j as int, ident_pred()),
        decreases len - j,
    {
        j = j + 1;
    }
    j
}

fn scan_comment(input: &[u8], start: usize) -> (j: usize)
    requires
        start <= input@.len(),
    ensures
        j == run_end(input@, start as int, not_nl_pred()),
        start <= j <= input@.len(),
{
    let len = input.len();
    let mut j = start;
    while j < len && *vstd::slice::slice_index_get(input, j) != 10
        invariant
            start <= j <= len,
            len == input@.len(),
            run_end(input@, start as int, not_nl_pred()) == run_end(input@, j as int, not_nl_pred()),
        decreases len - j,
    {
        j = j + 1;
    }
    j
}

fn scan_string(input: &[u8], start: usize) -> (r: (u8, usize))
    requires
        start <= input@.len(),
    ensures
        ({
            let sc = string_end(input@, start as int, 34);
            r.0 == sc.kind && r.1 == sc.at
        }),
{
    let len = input.len();
    let mut j = start;
    let mut prev: u8 = 34;
    while j < len
        invariant
            start <= j <= len,
            len == input@.len(),
            string_end(input@, start as int, 34) == string_end(input@, j as int, prev),
        decreases len - j,
    {
        let b = *vstd::slice::slice_index_get(input, j);
        if b == 10 {
            return (1, j);
        }
        if b == 34 && prev != 92 {
            return (0, j + 1);
        }
        prev = b;
        j = j + 1;
    }
    (2, len)
}

} // verus!
