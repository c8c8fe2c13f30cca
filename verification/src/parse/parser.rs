//! The token cursor and its low-level operations.

use vstd::prelude::*;
use vstd::pervasive::arbitrary;
use vstd::string::StringSliceAdditionalSpecFns;

use crate::error::{DiagView, Error};
use crate::lex::{spec_find, lemma_find_bounds, spec_human, Token, Tokens};
use crate::span::{S, Span};
use crate::text::push_str_bytes;

verus! {

/// The outcome of one parsing step: on success (`ok`) the value, on failure
/// the diagnostic; `end` is the cursor position afterwards.
pub struct POut<T> {
    pub ok: bool,
    pub val: T,
    pub err: DiagView,
    pub end: int,
}

pub open spec fn pok<T>(val: T, end: int) -> POut<T> {
    POut { ok: true, val, err: arbitrary(), end }
}

pub open spec fn pfail<T>(err: DiagView, end: int) -> POut<T> {
    POut { ok: false, val: arbitrary(), err, end }
}

pub open spec fn msg_expected_found(want: Token, found: Token) -> Seq<u8> {
    "expected ".spec_bytes() + spec_human(want) + ", found ".spec_bytes() + spec_human(found)
}

/// What `expect` yields: the interesting token ahead if it matches `want`
/// (consuming it), and `expected X, found Y` at its span otherwise (consuming
/// nothing; a lexing failure is passed on as the lexer leaves it).
pub open spec fn spec_expect(s: Seq<u8>, pos: int, want: Token) -> POut<(Token, Span)> {
    let f = spec_find(s, pos);
    if !f.ok {
        pfail(DiagView { msg: f.msg, span: f.span }, pos)
    } else if f.token == want {
        pok((f.token, f.span), f.end)
    } else {
        pfail(DiagView { msg: msg_expected_found(want, f.token), span: f.span }, pos)
    }
}

#[via_fn]
proof fn spec_eat_all_decreases(s: Seq<u8>, pos: int, want: Token) {
    if 0 <= pos <= s.len() {
        lemma_find_bounds(s, pos);
    }
}

/// What `eat_all` does: consumes every next interesting token equal to `want`
/// (never `Eof`), stopping just before the first other one.
pub open spec fn spec_eat_all(s: Seq<u8>, pos: int, want: Token) -> POut<()>
    decreases s.len() - pos,
    when 0 <= pos <= s.len() && want != Token::Eof
    via spec_eat_all_decreases
{
    let f = spec_find(s, pos);
    if !f.ok {
        pfail(DiagView { msg: f.msg, span: f.span }, pos)
    } else if f.token == want {
        spec_eat_all(s, f.end, want)
    } else {
        pok((), pos)
    }
}

pub proof fn lemma_eat_all_bounds(s: Seq<u8>, pos: int, want: Token)
    requires
        0 <= pos <= s.len(),
        want != Token::Eof,
    ensures
        pos <= spec_eat_all(s, pos, want).end <= s.len(),
        spec_find(s, pos).ok && spec_find(s, pos).token == want ==> spec_find(s, pos).end
            <= spec_eat_all(s, pos, want).end,
    decreases s.len() - pos,
{
    let f = spec_find(s, pos);
    lemma_find_bounds(s, pos);
    if f.ok && f.token == want {
        lemma_eat_all_bounds(s, f.end, want);
    }
}

/// An iterator over the input's tokens, with one-token lookahead by peeking.
#[derive(Debug, Clone)]
pub struct Parser<'i> {
    pub tokens: Tokens<'i>,
}

impl<'i> Parser<'i> {
    pub open spec fn wf(&self) -> bool {
        self.tokens.wf()
    }

    pub open spec fn src(&self) -> Seq<u8> {
        self.tokens.input@
    }

    pub open spec fn at(&self) -> int {
        self.tokens.pos as int
    }

    /// The input is a real slice, so its length fits in a machine word.
    pub proof fn bounded(&self)
        ensures
            self.src().len() <= usize::MAX,
    {
        assert(vstd::slice::spec_slice_len(self.tokens.input) == self.tokens.input@.len());
    }

    /// Constructs a parser over the input.
    pub fn new(input: &'i str) -> (r: Parser<'i>)
        ensures
            r.src() == input.spec_bytes(),
            r.at() == 0,
            r.wf(),
    {
        Parser { tokens: Tokens::new(input) }
    }

    /// The next interesting token, without consuming anything.
    pub fn peek(&self) -> (r: Result<S<Token>, Error>)
        requires
            self.wf(),
        ensures
            ({
                let f = spec_find(self.src(), self.at());
                &&& f.ok ==> r == Ok::<S<Token>, Error>(S(f.token, f.span))
                &&& !f.ok ==> (r matches Err(e) && e@ == (DiagView { msg: f.msg, span: f.span }))
            }),
    {
        let mut probe = Tokens { input: self.tokens.input, pos: self.tokens.pos };
        probe.find()
    }

    /// Consumes up to and including the next interesting token and returns it;
    /// a lexing failure consumes through the offending bytes.
    pub fn eat(&mut self) -> (r: Result<S<Token>, Error>)
        requires
            old(self).wf(),
        ensures
            final(self).wf(),
            final(self).src() == old(self).src(),
            ({
                let f = spec_find(old(self).src(), old(self).at());
                &&& final(self).at() == f.end
                &&& f.ok ==> r == Ok::<S<Token>, Error>(S(f.token, f.span))
                &&& !f.ok ==> (r matches Err(e) && e@ == (DiagView { msg: f.msg, span: f.span }))
            }),
    {
        self.tokens.find()
    }

    /// Consumes the next interesting token when it is `want`; otherwise
    /// reports `expected X, found Y` and consumes nothing.
    pub fn expect(&mut self, want: Token) -> (r: Result<S<Token>, Error>)
        requires
            old(self).wf(),
        ensures
            final(self).wf(),
            final(self).src() == old(self).src(),
            ({
                let o = spec_expect(old(self).src(), old(self).at(), want);
                &&& final(self).at() == o.end
                &&& o.ok ==> (r matches Ok(t) && t.0 == o.val.0 && t.1 == o.val.1)
                &&& !o.ok ==> (r matches Err(e) && e@ == o.err)
            }),
    {
        let next = self.peek()?;
        let S(tk, span) = next;
        if token_eq(tk, want) {
            let got = self.eat();
            proof {
                lemma_find_bounds(self.src(), old(self).at());
            }
            match got {
                Ok(t) => Ok(t),
                Err(_) => {
                    proof {
                        assert(false);
                    }
                    vstd::pervasive::unreached()
                },
            }
        } else {
            let mut msg: Vec<u8> = Vec::new();
            push_str_bytes(&mut msg, "expected ");
            push_str_bytes(&mut msg, want.human());
            push_str_bytes(&mut msg, ", found ");
            push_str_bytes(&mut msg, tk.human());
            Err(Error::from_bytes(msg, span))
        }
    }

    /// Consumes every next interesting token equal to `want`.
    pub fn eat_all(&mut self, want: Token) -> (r: Result<(), Error>)
        requires
            old(self).wf(),
            want != Token::Eof,
        ensures
            final(self).wf(),
            final(self).src() == old(self).src(),
            ({
                let o = spec_eat_all(old(self).src(), old(self).at(), want);
                &&& final(self).at() == o.end
                &&& o.ok ==> r is Ok
                &&& !o.ok ==> (r matches Err(e) && e@ == o.err)
            }),
    {
        loop
            invariant
                self.wf(),
                want != Token::Eof,
                self.src() == old(self).src(),
                spec_eat_all(self.src(), self.at(), want) == spec_eat_all(
                    old(self).src(),
                    old(self).at(),
                    want,
                ),
            decreases self.src().len() - self.at(),
        {
            proof {
                lemma_find_bounds(self.src(), self.at());
            }
            let next = self.peek()?;
            let S(tk, _) = next;
            if token_eq(tk, want) {
                let _ = self.eat();
            } else {
                return Ok(());
            }
        }
    }
}

/// True when the two tokens are the same kind.
pub fn token_eq(a: Token, b: Token) -> (r: bool)
    ensures
        r == (a == b),
{
    match (a, b) {
        (Token::Colon, Token::Colon) => true,
        (Token::Comma, Token::Comma) => true,
        (Token::Hash, Token::Hash) => true,
        (Token::Plus, Token::Plus) => true,
        (Token::Minus, Token::Minus) => true,
        (Token::Newline, Token::Newline) => true,
        (Token::Whitespace, Token::Whitespace) => true,
        (Token::Ident, Token::Ident) => true,
        (Token::Number, Token::Number) => true,
        (Token::Str, Token::Str) => true,
        (Token::Comment, Token::Comment) => true,
        (Token::Eof, Token::Eof) => true,
        _ => false,
    }
}

} // verus!
