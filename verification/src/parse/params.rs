//! Eating raw parameters: `#`-prefixed, signed numbers, labels with offsets,
//! and string literals.

use vstd::prelude::*;
use vstd::string::StringSliceAdditionalSpecFns;

use crate::ast::{Label, LabelV, RawParam, RawParamV, Str};
use crate::error::{DiagView, Error};
use crate::lex::{lemma_find_bounds, lemma_lex_bounds, spec_find, spec_human, spec_lex, Token};
use crate::parse::integer;
use crate::parse::integer::Sign;
use crate::parse::parser::{pfail, pok, spec_expect, token_eq, Parser, POut};
use crate::parse::string;
use crate::parse::string::{is_string_token, spec_string};
use crate::span::{S, SV, Span};
use crate::text::push_str_bytes;

verus! {

/// Identifiers made only of `0-9` and `A-Z` are mnemonics; the rest are
/// labels.
pub open spec fn spec_is_mnemonic(t: Seq<u8>) -> bool {
    forall|i: int| 0 <= i < t.len() ==> (48 <= t[i] <= 57 || 65 <= #[trigger] t[i] <= 90)
}

/// True when the identifier text is made only of `0-9` and `A-Z`.
pub fn is_mnemonic_bytes(t: &[u8]) -> (r: bool)
    ensures
        r == spec_is_mnemonic(t@),
{
    let n = t.len();
    let mut i: usize = 0;
    while i < n
        invariant
            i <= n,
            n == t@.len(),
            forall|j: int| 0 <= j < i ==> (48 <= t@[j] <= 57 || 65 <= #[trigger] t@[j] <= 90),
        decreases n - i,
    {
        let b = *vstd::slice::slice_index_get(t, i);
        if !((48 <= b && b <= 57) || (65 <= b && b <= 90)) {
            return false;
        }
        i = i + 1;
    }
    true
}

/// The reserved names: `_` is a runtime placeholder and `ip` the instruction
/// pointer; anything else is a fixed label.
pub open spec fn spec_label_of(t: Seq<u8>) -> LabelV {
    if t == seq![95u8] {
        LabelV::Underscore
    } else if t == seq![105u8, 112u8] {
        LabelV::InstructionPointer
    } else {
        LabelV::Fixed(t)
    }
}

/// Classifies an identifier as a label.
pub fn label_of<'i>(name: &'i [u8]) -> (r: Label<'i>)
    ensures
        r@ == spec_label_of(name@),
{
    if name.len() == 1 && *vstd::slice::slice_index_get(name, 0) == 95 {
        proof {
            assert(name@ =~= seq![95u8]);
        }
        Label::Underscore
    } else if name.len() == 2 && *vstd::slice::slice_index_get(name, 0) == 105
        && *vstd::slice::slice_index_get(name, 1) == 112 {
        proof {
            assert(name@ =~= seq![105u8, 112u8]);
        }
        Label::InstructionPointer
    } else {
        proof {
            assert(name@ != seq![95u8] && name@ != seq![105u8, 112u8]);
        }
        Label::Fixed(name)
    }
}

/// The name `rb`, reserved for the relative base.
pub open spec fn is_rb(t: Seq<u8>) -> bool {
    t == seq![114u8, 98u8]
}

/// True when the label is `Fixed("rb")`.
pub fn label_is_rb(l: &Label<'_>) -> (r: bool)
    ensures
        r == (l@ matches LabelV::Fixed(t) && is_rb(t)),
{
    match l {
        Label::Fixed(name) => {
            if name.len() == 2 && *vstd::slice::slice_index_get(name, 0) == 114
                && *vstd::slice::slice_index_get(name, 1) == 98 {
                proof {
                    assert(name@ =~= seq![114u8, 98u8]);
                }
                true
            } else {
                proof {
                    assert(name@ != seq![114u8, 98u8]);
                }
                false
            }
        },
        _ => false,
    }
}

pub open spec fn msg_param_found(found: Token) -> Seq<u8> {
    "expected a parameter, found ".spec_bytes() + spec_human(found)
}

/// What eating one bare raw parameter yields: a string literal, a signed
/// number, or a label with an optional `+`/`-` offset; a mnemonic or any
/// other token in parameter position is an error.
pub open spec fn spec_eat_raw_param(s: Seq<u8>, pos: int) -> POut<SV<RawParamV>> {
    let f = spec_find(s, pos);
    if !f.ok {
        pfail(DiagView { msg: f.msg, span: f.span }, f.end)
    } else {
        match f.token {
            Token::Str => {
                match spec_string(s, f.span) {
                    Result::Ok(v) => pok(SV { val: RawParamV::Str(v), span: f.span }, f.end),
                    Result::Err(d) => pfail(d, f.end),
                }
            },
            Token::Minus => {
                let e = spec_expect(s, f.end, Token::Number);
                if !e.ok {
                    pfail(e.err, e.end)
                } else {
                    match integer::spec_integer(s, e.val.1, Sign::Negative) {
                        Result::Ok(v) => pok(
                            SV {
                                val: RawParamV::Number(v),
                                span: Span { m: f.span.m, n: e.val.1.n },
                            },
                            e.end,
                        ),
                        Result::Err(d) => pfail(d, e.end),
                    }
                }
            },
            Token::Number => {
                match integer::spec_integer(s, f.span, Sign::Positive) {
                    Result::Ok(v) => pok(SV { val: RawParamV::Number(v), span: f.span }, f.end),
                    Result::Err(d) => pfail(d, f.end),
                }
            },
            Token::Ident => {
                let t = s.subrange(f.span.m as int, f.span.n as int);
                if spec_is_mnemonic(t) {
                    pfail(
                        DiagView {
                            msg: "expected a parameter, found a mnemonic".spec_bytes(),
                            span: f.span,
                        },
                        f.end,
                    )
                } else {
                    let label = SV { val: spec_label_of(t), span: f.span };
                    let g = spec_find(s, f.end);
                    if !g.ok {
                        pfail(DiagView { msg: g.msg, span: g.span }, f.end)
                    } else if g.token == Token::Minus {
                        let e = spec_expect(s, g.end, Token::Number);
                        if !e.ok {
                            pfail(e.err, e.end)
                        } else {
                            match integer::spec_integer(s, e.val.1, Sign::Negative) {
                                Result::Ok(v) => pok(
                                    SV {
                                        val: RawParamV::Label(label, v),
                                        span: Span { m: f.span.m, n: e.val.1.n },
                                    },
                                    e.end,
                                ),
                                Result::Err(d) => pfail(d, e.end),
                            }
                        }
                    } else if g.token == Token::Plus {
                        let e = spec_expect(s, g.end, Token::Number);
                        if !e.ok {
                            pfail(e.err, e.end)
                        } else {
                            match integer::spec_integer(s, e.val.1, Sign::Positive) {
                                Result::Ok(v) => pok(
                                    SV {
                                        val: RawParamV::Label(label, v),
                                        span: Span { m: f.span.m, n: e.val.1.n },
                                    },
                                    e.end,
                                ),
                                Result::Err(d) => pfail(d, e.end),
                            }
                        }
                    } else {
                        pok(SV { val: RawParamV::Label(label, 0), span: f.span }, f.end)
                    }
                }
            },
            _ => pfail(DiagView { msg: msg_param_found(f.token), span: f.span }, f.end),
        }
    }
}

/// What eating a possibly `#`-prefixed raw parameter yields: the span of the
/// hash, if any, and the raw parameter whose span then starts at the hash.
pub open spec fn spec_eat_hash_param(s: Seq<u8>, pos: int) -> POut<(Option<Span>, SV<RawParamV>)> {
    let f = spec_find(s, pos);
    if !f.ok {
        pfail(DiagView { msg: f.msg, span: f.span }, pos)
    } else if f.token == Token::Hash {
        let rp = spec_eat_raw_param(s, f.end);
        if !rp.ok {
            pfail(rp.err, rp.end)
        } else {
            pok(
                (
                    Option::Some(f.span),
                    SV { val: rp.val.val, span: Span { m: f.span.m, n: rp.val.span.n } },
                ),
                rp.end,
            )
        }
    } else {
        let rp = spec_eat_raw_param(s, pos);
        if !rp.ok {
            pfail(rp.err, rp.end)
        } else {
            pok((Option::None, rp.val), rp.end)
        }
    }
}

pub proof fn lemma_expect_bounds(s: Seq<u8>, pos: int, want: Token)
    requires
        0 <= pos <= s.len(),
    ensures
        pos <= spec_expect(s, pos, want).end <= s.len(),
        spec_expect(s, pos, want).ok && want != Token::Eof ==> pos < spec_expect(
            s,
            pos,
            want,
        ).end,
{
    lemma_find_bounds(s, pos);
}

pub proof fn lemma_eat_raw_param_bounds(s: Seq<u8>, pos: int)
    requires
        0 <= pos <= s.len(),
    ensures
        pos <= spec_eat_raw_param(s, pos).end <= s.len(),
        spec_eat_raw_param(s, pos).ok ==> pos < spec_eat_raw_param(s, pos).end,
{
    let f = spec_find(s, pos);
    lemma_find_bounds(s, pos);
    if f.ok {
        lemma_expect_bounds(s, f.end, Token::Number);
        if f.token == Token::Ident {
            lemma_find_bounds(s, f.end);
            let g = spec_find(s, f.end);
            if g.ok && (g.token == Token::Minus || g.token == Token::Plus) {
                lemma_expect_bounds(s, g.end, Token::Number);
            }
        }
    }
}

pub proof fn lemma_eat_hash_param_bounds(s: Seq<u8>, pos: int)
    requires
        0 <= pos <= s.len(),
    ensures
        pos <= spec_eat_hash_param(s, pos).end <= s.len(),
        spec_eat_hash_param(s, pos).ok ==> pos < spec_eat_hash_param(s, pos).end,
{
    let f = spec_find(s, pos);
    lemma_find_bounds(s, pos);
    if f.ok {
        if f.token == Token::Hash {
            lemma_eat_raw_param_bounds(s, f.end);
        } else {
            lemma_eat_raw_param_bounds(s, pos);
        }
    }
}

/// Any token the lexer yields lies within the input, and a `Str` token is a
/// well-formed string literal.
pub proof fn lemma_find_span_wf(s: Seq<u8>, pos: int)
    requires
        0 <= pos <= s.len(),
        s.len() <= usize::MAX,
    ensures
        spec_find(s, pos).span.m <= spec_find(s, pos).span.n <= s.len(),
        spec_find(s, pos).ok && spec_find(s, pos).token == Token::Str ==> is_string_token(
            s,
            spec_find(s, pos).span,
        ),
    decreases s.len() - pos,
{
    let st = spec_lex(s, pos);
    lemma_lex_bounds(s, pos);
    if pos < s.len() {
        crate::lex::lemma_run_end_bounds(s, pos + 1, crate::lex::not_nl_pred());
        crate::lex::lemma_run_end_bounds(s, pos + 1, crate::lex::ws_pred());
        crate::lex::lemma_run_end_bounds(s, pos + 1, crate::lex::ident_pred());
        crate::lex::lemma_string_end_bounds(s, pos + 1, 34);
        if s[pos] == 34 {
            let sc = crate::lex::string_end(s, pos + 1, 34);
            if sc.kind == 0 {
                crate::lex::lemma_string_end_bounds(s, pos + 1, 34);
                assert(sc == (crate::lex::StrScan { kind: 0u8, at: sc.at }));
            }
        }
    }
    if st.ok && st.token != Token::Eof && !crate::lex::is_interesting(st.token) {
        lemma_find_span_wf(s, st.end);
    }
}

impl<'i> Parser<'i> {
    /// Eats one bare raw parameter.
    pub fn eat_raw_param_bare(&mut self) -> (r: Result<S<RawParam<'i>>, Error>)
        requires
            old(self).wf(),
        ensures
            final(self).wf(),
            final(self).src() == old(self).src(),
            ({
                let o = spec_eat_raw_param(old(self).src(), old(self).at());
                &&& final(self).at() == o.end
                &&& o.ok ==> (r matches Ok(v) && v@ == o.val)
                &&& !o.ok ==> (r matches Err(e) && e@ == o.err)
            }),
    {
        proof {
            self.bounded();
            lemma_find_span_wf(self.src(), self.at());
            lemma_find_bounds(self.src(), self.at());
        }
        let next = self.eat()?;
        let S(tk, span) = next;
        match tk {
            Token::Str => {
                let v = string::parse(self.tokens.input, span)?;
                Ok(S(RawParam::Str(v), span))
            },
            Token::Minus => {
                proof {
                    self.bounded();
                    lemma_find_span_wf(self.src(), self.at());
                }
                let num = self.expect(Token::Number)?;
                let S(_, sp) = num;
                let v = integer::parse(self.tokens.input, sp, Sign::Negative)?;
                Ok(S(RawParam::Number(v), Span { m: span.m, n: sp.n }))
            },
            Token::Number => {
                let v = integer::parse(self.tokens.input, span, Sign::Positive)?;
                Ok(S(RawParam::Number(v), span))
            },
            Token::Ident => {
                let text = vstd::slice::slice_subrange(self.tokens.input, span.m, span.n);
                if is_mnemonic_bytes(text) {
                    return Err(Error::new("expected a parameter, found a mnemonic", span));
                }
                let label = S(label_of(text), span);
                let ahead = self.peek()?;
                let S(t2, _) = ahead;
                match t2 {
                    Token::Minus => {
                        let _ = self.eat();
                        proof {
                            self.bounded();
                            lemma_find_span_wf(self.src(), self.at());
                        }
                        let num = self.expect(Token::Number)?;
                        let S(_, sp) = num;
                        let v = integer::parse(self.tokens.input, sp, Sign::Negative)?;
                        Ok(S(RawParam::Label(label, v), Span { m: span.m, n: sp.n }))
                    },
                    Token::Plus => {
                        let _ = self.eat();
                        proof {
                            self.bounded();
                            lemma_find_span_wf(self.src(), self.at());
                        }
                        let num = self.expect(Token::Number)?;
                        let S(_, sp) = num;
                        let v = integer::parse(self.tokens.input, sp, Sign::Positive)?;
                        Ok(S(RawParam::Label(label, v), Span { m: span.m, n: sp.n }))
                    },
                    _ => Ok(S(RawParam::Label(label, 0), span)),
                }
            },
            _ => {
                let mut msg: Vec<u8> = Vec::new();
                push_str_bytes(&mut msg, "expected a parameter, found ");
                push_str_bytes(&mut msg, tk.human());
                Err(Error::from_bytes(msg, span))
            },
        }
    }

    /// Eats a raw parameter with its optional `#` prefix.
    pub fn eat_raw_param(&mut self) -> (r: Result<(Option<Span>, S<RawParam<'i>>), Error>)
        requires
            old(self).wf(),
        ensures
            final(self).wf(),
            final(self).src() == old(self).src(),
            ({
                let o = spec_eat_hash_param(old(self).src(), old(self).at());
                &&& final(self).at() == o.end
                &&& o.ok ==> (r matches Ok(v) && (v.0 == o.val.0 && v.1@ == o.val.1))
                &&& !o.ok ==> (r matches Err(e) && e@ == o.err)
            }),
    {
        let ahead = self.peek()?;
        let S(t, hspan) = ahead;
        if token_eq(t, Token::Hash) {
            let _ = self.eat();
            let S(raw, sp) = self.eat_raw_param_bare()?;
            Ok((Some(hspan), S(raw, Span { m: hspan.m, n: sp.n })))
        } else {
            let got = self.eat_raw_param_bare()?;
            Ok((None, got))
        }
    }
}

/// The mathematical image of a vector of prefixed raw parameters.
pub open spec fn view_pairs(v: Seq<(Option<Span>, S<RawParam<'_>>)>) -> Seq<
    (Option<Span>, SV<RawParamV>),
> {
    Seq::new(v.len(), |i: int| (v[i].0, v[i].1@))
}

#[via_fn]
proof fn spec_eat_raw_params_more_decreases(s: Seq<u8>, pos: int, acc: Seq<(Option<Span>, SV<RawParamV>)>) {
    if 0 <= pos <= s.len() {
        lemma_find_bounds(s, pos);
        let c = spec_expect(s, pos, Token::Comma);
        lemma_expect_bounds(s, pos, Token::Comma);
        if c.ok {
            lemma_eat_hash_param_bounds(s, c.end);
        }
    }
}

/// After the first parameter: while the next interesting token is neither a
/// newline nor the end of input, a comma and a further parameter are eaten.
pub open spec fn spec_eat_raw_params_more(
    s: Seq<u8>,
    pos: int,
    acc: Seq<(Option<Span>, SV<RawParamV>)>,
) -> POut<Seq<(Option<Span>, SV<RawParamV>)>>
    decreases s.len() - pos,
    when 0 <= pos <= s.len()
    via spec_eat_raw_params_more_decreases
{
    let f = spec_find(s, pos);
    if !f.ok {
        pfail(DiagView { msg: f.msg, span: f.span }, pos)
    } else if f.token == Token::Newline || f.token == Token::Eof {
        pok(acc, pos)
    } else {
        let c = spec_expect(s, pos, Token::Comma);
        if !c.ok {
            pfail(c.err, c.end)
        } else {
            let p = spec_eat_hash_param(s, c.end);
            if !p.ok {
                pfail(p.err, p.end)
            } else {
                spec_eat_raw_params_more(s, p.end, acc.push(p.val))
            }
        }
    }
}

/// What eating a parameter list yields: nothing when a newline or the end of
/// input is ahead, else comma-separated prefixed raw parameters.
pub open spec fn spec_eat_raw_params(s: Seq<u8>, pos: int) -> POut<
    Seq<(Option<Span>, SV<RawParamV>)>,
> {
    let f = spec_find(s, pos);
    if !f.ok {
        pfail(DiagView { msg: f.msg, span: f.span }, pos)
    } else if f.token == Token::Newline || f.token == Token::Eof {
        pok(Seq::empty(), pos)
    } else {
        let p = spec_eat_hash_param(s, pos);
        if !p.ok {
            pfail(p.err, p.end)
        } else {
            spec_eat_raw_params_more(s, p.end, seq![p.val])
        }
    }
}

pub proof fn lemma_eat_raw_params_more_bounds(
    s: Seq<u8>,
    pos: int,
    acc: Seq<(Option<Span>, SV<RawParamV>)>,
)
    requires
        0 <= pos <= s.len(),
    ensures
        pos <= spec_eat_raw_params_more(s, pos, acc).end <= s.len(),
    decreases s.len() - pos,
{
    let f = spec_find(s, pos);
    lemma_find_bounds(s, pos);
    let c = spec_expect(s, pos, Token::Comma);
    lemma_expect_bounds(s, pos, Token::Comma);
    if f.ok && f.token != Token::Newline && f.token != Token::Eof && c.ok {
        lemma_eat_hash_param_bounds(s, c.end);
        let p = spec_eat_hash_param(s, c.end);
        if p.ok {
            lemma_eat_raw_params_more_bounds(s, p.end, acc.push(p.val));
        }
    }
}

pub proof fn lemma_eat_raw_params_bounds(s: Seq<u8>, pos: int)
    requires
        0 <= pos <= s.len(),
    ensures
        pos <= spec_eat_raw_params(s, pos).end <= s.len(),
{
    lemma_find_bounds(s, pos);
    lemma_eat_hash_param_bounds(s, pos);
    let p = spec_eat_hash_param(s, pos);
    if p.ok {
        lemma_eat_raw_params_more_bounds(s, p.end, seq![p.val]);
    }
}

impl<'i> Parser<'i> {
    /// Eats a comma-separated parameter list, stopping before a newline or
    /// the end of input.
    pub fn eat_raw_params(&mut self) -> (r: Result<Vec<(Option<Span>, S<RawParam<'i>>)>, Error>)
        requires
            old(self).wf(),
        ensures
            final(self).wf(),
            final(self).src() == old(self).src(),
            ({
                let o = spec_eat_raw_params(old(self).src(), old(self).at());
                &&& final(self).at() == o.end
                &&& o.ok ==> (r matches Ok(v) && view_pairs(v@) == o.val)
                &&& !o.ok ==> (r matches Err(e) && e@ == o.err)
            }),
    {
        let mut params: Vec<(Option<Span>, S<RawParam<'i>>)> = Vec::new();
        let ahead = self.peek()?;
        let S(t0, _) = ahead;
        match t0 {
            Token::Newline | Token::Eof => {
                proof {
                    assert(view_pairs(params@) =~= Seq::<(Option<Span>, SV<RawParamV>)>::empty());
                }
                return Ok(params);
            },
            _ => {},
        }
        let first = self.eat_raw_param()?;
        params.push(first);
        proof {
            assert(view_pairs(params@) =~= seq![
                (params@[0].0, params@[0].1@),
            ]);
        }
        loop
            invariant
                self.wf(),
                self.src() == old(self).src(),
                spec_eat_raw_params_more(self.src(), self.at(), view_pairs(params@))
                    == spec_eat_raw_params(old(self).src(), old(self).at()),
            decreases self.src().len() - self.at(),
        {
            proof {
                lemma_find_bounds(self.src(), self.at());
                lemma_expect_bounds(self.src(), self.at(), Token::Comma);
            }
            let ahead = self.peek()?;
            let S(t, _) = ahead;
            match t {
                Token::Newline | Token::Eof => {
                    return Ok(params);
                },
                _ => {},
            }
            let _ = self.expect(Token::Comma)?;
            proof {
                lemma_eat_hash_param_bounds(self.src(), self.at());
            }
            let ghost acc0 = view_pairs(params@);
            let next = self.eat_raw_param()?;
            let ghost nv = (next.0, next.1@);
            params.push(next);
            proof {
                assert(view_pairs(params@) =~= acc0.push(nv));
            }
        }
    }
}

} // verus!
