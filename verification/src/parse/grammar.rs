//! Instructions, statements, and whole programs with error recovery.

use vstd::prelude::*;
use vstd::string::StringSliceAdditionalSpecFns;

use crate::ast::{Instr, InstrV, LabelV, Mode, Param, ParamV, Program, RawParam, RawParamV, Stmt,
    StmtV};
use crate::error::{DiagView, Error};
use crate::lex::{lemma_find_bounds, spec_find, Token};
use crate::parse::params::{
    is_mnemonic_bytes, is_rb, label_is_rb, label_of, lemma_eat_raw_params_bounds,
    lemma_expect_bounds, lemma_find_span_wf, spec_eat_raw_params, spec_is_mnemonic, spec_label_of,
};
use crate::parse::parser::{lemma_eat_all_bounds, pfail, pok, spec_eat_all, spec_expect, Parser, POut};
use crate::span::{S, SV, Span};
use crate::text::{dec_nat, push_dec_u64, push_str_bytes};

verus! {

/// The mathematical image of a vector of parameters.
pub open spec fn view_sparams(v: Seq<S<Param<'_>>>) -> Seq<SV<ParamV>> {
    Seq::new(v.len(), |i: int| v[i]@)
}

/// The mathematical image of a vector of raw parameters.
pub open spec fn view_sraws(v: Seq<S<RawParam<'_>>>) -> Seq<SV<RawParamV>> {
    Seq::new(v.len(), |i: int| v[i]@)
}

/// How one raw parameter becomes an instruction parameter: a leading `#`
/// means immediate mode, the reserved label `rb` alone means relative mode, a
/// `#` on `rb` is contradictory, and strings belong only to `DB`.
pub open spec fn spec_param_from_raw(prefix: Option<Span>, rp: SV<RawParamV>) -> Result<
    SV<ParamV>,
    DiagView,
> {
    let mode = if prefix is Some {
        Mode::Immediate
    } else {
        Mode::Positional
    };
    match rp.val {
        RawParamV::Str(_) => Result::Err(
            DiagView { msg: "string parameter only allowed with `DB`".spec_bytes(), span: rp.span },
        ),
        RawParamV::Label(l, off) => {
            if l.val matches LabelV::Fixed(t) && is_rb(t) {
                if prefix is Some {
                    Result::Err(
                        DiagView {
                            msg: "both immediate and relative mode specified".spec_bytes(),
                            span: rp.span,
                        },
                    )
                } else {
                    Result::Ok(SV { val: ParamV::Number(Mode::Relative, off), span: rp.span })
                }
            } else {
                Result::Ok(SV { val: ParamV::Label(mode, l, off), span: rp.span })
            }
        },
        RawParamV::Number(v) => Result::Ok(SV { val: ParamV::Number(mode, v), span: rp.span }),
    }
}

/// Converts a parameter list left to right, stopping at the first failure.
pub open spec fn spec_params_convert(
    prs: Seq<(Option<Span>, SV<RawParamV>)>,
    i: int,
    acc: Seq<SV<ParamV>>,
) -> Result<Seq<SV<ParamV>>, DiagView>
    decreases prs.len() - i,
{
    if i < 0 || i >= prs.len() {
        Result::Ok(acc)
    } else {
        match spec_param_from_raw(prs[i].0, prs[i].1) {
            Result::Err(d) => Result::Err(d),
            Result::Ok(p) => spec_params_convert(prs, i + 1, acc.push(p)),
        }
    }
}

/// How one raw parameter becomes a `DB` datum: no mode prefix is allowed, and
/// the reserved label `rb` cannot stand in data.
pub open spec fn spec_data_from_raw(prefix: Option<Span>, rp: SV<RawParamV>) -> Result<
    SV<RawParamV>,
    DiagView,
> {
    match prefix {
        Option::Some(h) => Result::Err(
            DiagView { msg: "immediate mode not allowed with `DB`".spec_bytes(), span: h },
        ),
        Option::None => {
            if rp.val matches RawParamV::Label(l, _) && l.val matches LabelV::Fixed(t) && is_rb(t) {
                Result::Err(
                    DiagView {
                        msg: "relative mode not allowed with `DB`".spec_bytes(),
                        span: (rp.val->Label_0).span,
                    },
                )
            } else {
                Result::Ok(rp)
            }
        },
    }
}

pub open spec fn spec_data_convert(
    prs: Seq<(Option<Span>, SV<RawParamV>)>,
    i: int,
    acc: Seq<SV<RawParamV>>,
) -> Result<Seq<SV<RawParamV>>, DiagView>
    decreases prs.len() - i,
{
    if i < 0 || i >= prs.len() {
        Result::Ok(acc)
    } else {
        match spec_data_from_raw(prs[i].0, prs[i].1) {
            Result::Err(d) => Result::Err(d),
            Result::Ok(p) => spec_data_convert(prs, i + 1, acc.push(p)),
        }
    }
}

pub open spec fn msg_param_count(exp: int, got: int) -> Seq<u8> {
    "expected ".spec_bytes() + dec_nat(exp as nat) + " parameter".spec_bytes() + (if exp != 1 {
        "s".spec_bytes()
    } else {
        Seq::<u8>::empty()
    }) + ", found ".spec_bytes() + dec_nat(got as nat)
}

/// What eating an instruction's parameters yields: the converted list when it
/// has exactly `arity` entries, and `expected N parameters, found M` at the
/// mnemonic's span otherwise.
pub open spec fn spec_eat_params(s: Seq<u8>, pos: int, mspan: Span, arity: int) -> POut<
    Seq<SV<ParamV>>,
> {
    let rp = spec_eat_raw_params(s, pos);
    if !rp.ok {
        pfail(rp.err, rp.end)
    } else {
        match spec_params_convert(rp.val, 0, Seq::empty()) {
            Result::Err(d) => pfail(d, rp.end),
            Result::Ok(ps) => {
                if ps.len() == arity {
                    pok(ps, rp.end)
                } else {
                    pfail(
                        DiagView { msg: msg_param_count(arity, ps.len() as int), span: mspan },
                        rp.end,
                    )
                }
            },
        }
    }
}

/// What eating `DB` data yields.
pub open spec fn spec_eat_data_params(s: Seq<u8>, pos: int) -> POut<Seq<SV<RawParamV>>> {
    let rp = spec_eat_raw_params(s, pos);
    if !rp.ok {
        pfail(rp.err, rp.end)
    } else {
        match spec_data_convert(rp.val, 0, Seq::empty()) {
            Result::Err(d) => pfail(d, rp.end),
            Result::Ok(ds) => pok(ds, rp.end),
        }
    }
}

/// Closes an instruction: its span runs from the mnemonic to the start of the
/// next interesting token.
pub open spec fn spec_after_instr(s: Seq<u8>, pos: int, mspan: Span, iv: InstrV) -> POut<
    SV<InstrV>,
> {
    let g = spec_find(s, pos);
    if !g.ok {
        pfail(DiagView { msg: g.msg, span: g.span }, pos)
    } else {
        pok(SV { val: iv, span: Span { m: mspan.m, n: g.span.m } }, pos)
    }
}

pub open spec fn spec_instr3(
    s: Seq<u8>,
    pos: int,
    mspan: Span,
    p: POut<Seq<SV<ParamV>>>,
    iv: InstrV,
) -> POut<SV<InstrV>> {
    if !p.ok {
        pfail(p.err, p.end)
    } else {
        spec_after_instr(s, p.end, mspan, iv)
    }
}

/// What eating one instruction yields: an `ADD MUL JNZ JZ LT EQ IN OUT ARB
/// HLT` mnemonic with its fixed arity of parameters, or `DB` with data; an
/// all-capitals unknown word is `unknown operation mnemonic`, any other
/// identifier `expected a mnemonic, found an identifier`.
pub open spec fn spec_eat_instr(s: Seq<u8>, pos: int) -> POut<SV<InstrV>> {
    let e = spec_expect(s, pos, Token::Ident);
    if !e.ok {
        pfail(e.err, e.end)
    } else {
        let mspan = e.val.1;
        let t = s.subrange(mspan.m as int, mspan.n as int);
        if t == "ADD".spec_bytes() {
            let p = spec_eat_params(s, e.end, mspan, 3);
            spec_instr3(s, e.end, mspan, p, InstrV::Add(p.val[0], p.val[1], p.val[2]))
        } else if t == "MUL".spec_bytes() {
            let p = spec_eat_params(s, e.end, mspan, 3);
            spec_instr3(s, e.end, mspan, p, InstrV::Multiply(p.val[0], p.val[1], p.val[2]))
        } else if t == "JNZ".spec_bytes() {
            let p = spec_eat_params(s, e.end, mspan, 2);
            spec_instr3(s, e.end, mspan, p, InstrV::JumpNonZero(p.val[0], p.val[1]))
        } else if t == "JZ".spec_bytes() {
            let p = spec_eat_params(s, e.end, mspan, 2);
            spec_instr3(s, e.end, mspan, p, InstrV::JumpZero(p.val[0], p.val[1]))
        } else if t == "LT".spec_bytes() {
            let p = spec_eat_params(s, e.end, mspan, 3);
            spec_instr3(s, e.end, mspan, p, InstrV::LessThan(p.val[0], p.val[1], p.val[2]))
        } else if t == "EQ".spec_bytes() {
            let p = spec_eat_params(s, e.end, mspan, 3);
            spec_instr3(s, e.end, mspan, p, InstrV::Equal(p.val[0], p.val[1], p.val[2]))
        } else if t == "IN".spec_bytes() {
            let p = spec_eat_params(s, e.end, mspan, 1);
            spec_instr3(s, e.end, mspan, p, InstrV::Input(p.val[0]))
        } else if t == "OUT".spec_bytes() {
            let p = spec_eat_params(s, e.end, mspan, 1);
            spec_instr3(s, e.end, mspan, p, InstrV::Output(p.val[0]))
        } else if t == "ARB".spec_bytes() {
            let p = spec_eat_params(s, e.end, mspan, 1);
            spec_instr3(s, e.end, mspan, p, InstrV::AdjustRelativeBase(p.val[0]))
        } else if t == "HLT".spec_bytes() {
            let p = spec_eat_params(s, e.end, mspan, 0);
            spec_instr3(s, e.end, mspan, p, InstrV::Halt)
        } else if t == "DB".spec_bytes() {
            let p = spec_eat_data_params(s, e.end);
            if !p.ok {
                pfail(p.err, p.end)
            } else {
                spec_after_instr(s, p.end, mspan, InstrV::Data(p.val))
            }
        } else if spec_is_mnemonic(t) {
            pfail(DiagView { msg: "unknown operation mnemonic".spec_bytes(), span: mspan }, e.end)
        } else {
            pfail(
                DiagView {
                    msg: "expected a mnemonic, found an identifier".spec_bytes(),
                    span: mspan,
                },
                e.end,
            )
        }
    }
}

/// After an optional label: newlines, the instruction, and the line's end
/// (a newline unless the input ends here).
pub open spec fn spec_stmt_rest(s: Seq<u8>, pos: int, lab: Option<SV<LabelV>>) -> POut<
    Option<StmtV>,
> {
    let b = spec_eat_all(s, pos, Token::Newline);
    if !b.ok {
        pfail(b.err, b.end)
    } else {
        let i = spec_eat_instr(s, b.end);
        if !i.ok {
            pfail(i.err, i.end)
        } else {
            let g = spec_find(s, i.end);
            if !g.ok {
                pfail(DiagView { msg: g.msg, span: g.span }, i.end)
            } else if g.token == Token::Eof {
                pok(Option::Some(StmtV { label: lab, instr: i.val }), i.end)
            } else {
                let c = spec_expect(s, i.end, Token::Newline);
                if !c.ok {
                    pfail(c.err, c.end)
                } else {
                    pok(Option::Some(StmtV { label: lab, instr: i.val }), c.end)
                }
            }
        }
    }
}

/// What eating one statement yields: `None` at the end of input; otherwise an
/// optional `label:` prefix followed by an instruction.
pub open spec fn spec_eat_stmt(s: Seq<u8>, pos: int) -> POut<Option<StmtV>> {
    let a = spec_eat_all(s, pos, Token::Newline);
    if !a.ok {
        pfail(a.err, a.end)
    } else {
        let f = spec_find(s, a.end);
        if !f.ok {
            pfail(DiagView { msg: f.msg, span: f.span }, a.end)
        } else if f.token == Token::Eof {
            pok(Option::None, a.end)
        } else if f.token == Token::Ident && !spec_is_mnemonic(
            s.subrange(f.span.m as int, f.span.n as int),
        ) {
            let c = spec_expect(s, f.end, Token::Colon);
            if !c.ok {
                pfail(c.err, c.end)
            } else {
                spec_stmt_rest(
                    s,
                    c.end,
                    Option::Some(
                        SV {
                            val: spec_label_of(s.subrange(f.span.m as int, f.span.n as int)),
                            span: f.span,
                        },
                    ),
                )
            }
        } else {
            spec_stmt_rest(s, a.end, Option::None)
        }
    }
}

pub proof fn lemma_eat_params_bounds(s: Seq<u8>, pos: int, mspan: Span, arity: int)
    requires
        0 <= pos <= s.len(),
    ensures
        pos <= spec_eat_params(s, pos, mspan, arity).end <= s.len(),
        pos <= spec_eat_data_params(s, pos).end <= s.len(),
{
    lemma_eat_raw_params_bounds(s, pos);
}

pub proof fn lemma_eat_instr_bounds(s: Seq<u8>, pos: int)
    requires
        0 <= pos <= s.len(),
    ensures
        pos <= spec_eat_instr(s, pos).end <= s.len(),
        spec_eat_instr(s, pos).ok ==> pos < spec_eat_instr(s, pos).end,
{
    let e = spec_expect(s, pos, Token::Ident);
    lemma_expect_bounds(s, pos, Token::Ident);
    if e.ok {
        let mspan = e.val.1;
        lemma_eat_params_bounds(s, e.end, mspan, 0);
        lemma_eat_params_bounds(s, e.end, mspan, 1);
        lemma_eat_params_bounds(s, e.end, mspan, 2);
        lemma_eat_params_bounds(s, e.end, mspan, 3);
        lemma_find_bounds(s, spec_eat_params(s, e.end, mspan, 0).end);
        lemma_find_bounds(s, spec_eat_params(s, e.end, mspan, 1).end);
        lemma_find_bounds(s, spec_eat_params(s, e.end, mspan, 2).end);
        lemma_find_bounds(s, spec_eat_params(s, e.end, mspan, 3).end);
        lemma_find_bounds(s, spec_eat_data_params(s, e.end).end);
    }
}

pub proof fn lemma_stmt_rest_bounds(s: Seq<u8>, pos: int, lab: Option<SV<LabelV>>)
    requires
        0 <= pos <= s.len(),
    ensures
        pos <= spec_stmt_rest(s, pos, lab).end <= s.len(),
        spec_stmt_rest(s, pos, lab).ok ==> pos < spec_stmt_rest(s, pos, lab).end,
{
    let b = spec_eat_all(s, pos, Token::Newline);
    lemma_eat_all_bounds(s, pos, Token::Newline);
    if b.ok {
        lemma_eat_instr_bounds(s, b.end);
        let i = spec_eat_instr(s, b.end);
        if i.ok {
            lemma_find_bounds(s, i.end);
            lemma_expect_bounds(s, i.end, Token::Newline);
        }
    }
}

pub proof fn lemma_eat_stmt_bounds(s: Seq<u8>, pos: int)
    requires
        0 <= pos <= s.len(),
    ensures
        pos <= spec_eat_stmt(s, pos).end <= s.len(),
        spec_eat_stmt(s, pos).ok && spec_eat_stmt(s, pos).val is Some ==> pos < spec_eat_stmt(
            s,
            pos,
        ).end,
        spec_find(s, pos).ok && spec_find(s, pos).token == Token::Newline ==> pos < spec_eat_stmt(
            s,
            pos,
        ).end,
        spec_find(s, pos).ok && spec_find(s, pos).token == Token::Eof ==> spec_eat_stmt(s, pos)
            == pok(Option::<StmtV>::None, pos),
{
    let a = spec_eat_all(s, pos, Token::Newline);
    lemma_eat_all_bounds(s, pos, Token::Newline);
    lemma_find_bounds(s, pos);
    if a.ok {
        let f = spec_find(s, a.end);
        lemma_find_bounds(s, a.end);
        if f.ok && f.token != Token::Eof {
            lemma_expect_bounds(s, f.end, Token::Colon);
            let c = spec_expect(s, f.end, Token::Colon);
            lemma_stmt_rest_bounds(
                s,
                c.end,
                Option::Some(
                    SV {
                        val: spec_label_of(s.subrange(f.span.m as int, f.span.n as int)),
                        span: f.span,
                    },
                ),
            );
            lemma_stmt_rest_bounds(s, a.end, Option::None);
        }
    }
}

#[via_fn]
proof fn spec_recover_decreases(s: Seq<u8>, pos: int) {
    if 0 <= pos <= s.len() {
        lemma_find_bounds(s, pos);
    }
}

/// After a failed statement the parser skips to the next newline or the end
/// of input (bytes that fail to lex are skipped too) and goes on.
pub open spec fn spec_recover(s: Seq<u8>, pos: int) -> int
    decreases s.len() - pos,
    when 0 <= pos <= s.len()
    via spec_recover_decreases
{
    let f = spec_find(s, pos);
    if !f.ok {
        spec_recover(s, f.end)
    } else if f.token == Token::Newline || f.token == Token::Eof {
        pos
    } else {
        spec_recover(s, f.end)
    }
}

pub proof fn lemma_recover_bounds(s: Seq<u8>, pos: int)
    requires
        0 <= pos <= s.len(),
    ensures
        pos <= spec_recover(s, pos) <= s.len(),
        ({
            let f = spec_find(s, spec_recover(s, pos));
            f.ok && (f.token == Token::Newline || f.token == Token::Eof)
        }),
    decreases s.len() - pos,
{
    let f = spec_find(s, pos);
    lemma_find_bounds(s, pos);
    if !f.ok || (f.token != Token::Newline && f.token != Token::Eof) {
        lemma_recover_bounds(s, f.end);
    }
}

#[via_fn]
proof fn spec_program_loop_decreases(
    s: Seq<u8>,
    pos: int,
    stmts: Seq<StmtV>,
    errs: Seq<DiagView>,
    chance: bool,
) {
    if 0 <= pos <= s.len() {
        lemma_eat_stmt_bounds(s, pos);
        let st = spec_eat_stmt(s, pos);
        if !st.ok {
            lemma_recover_bounds(s, st.end);
        }
    }
}

/// The parsing loop: statements are accumulated until the end of input; a
/// failed statement contributes its diagnostic and parsing resumes after
/// recovery. (The `chance` flag only bounds the one place where recovery
/// cannot advance; along real runs the loop then ends at the end of input.)
pub open spec fn spec_program_loop(
    s: Seq<u8>,
    pos: int,
    stmts: Seq<StmtV>,
    errs: Seq<DiagView>,
    chance: bool,
) -> (Seq<StmtV>, Seq<DiagView>)
    decreases 2 * (s.len() - pos) + (if chance { 1int } else { 0int }),
    when 0 <= pos <= s.len()
    via spec_program_loop_decreases
{
    let st = spec_eat_stmt(s, pos);
    if st.ok {
        match st.val {
            Option::None => (stmts, errs),
            Option::Some(v) => spec_program_loop(s, st.end, stmts.push(v), errs, true),
        }
    } else {
        let p2 = spec_recover(s, st.end);
        if p2 > pos {
            spec_program_loop(s, p2, stmts, errs.push(st.err), true)
        } else if chance {
            spec_program_loop(s, pos, stmts, errs.push(st.err), false)
        } else {
            (stmts, errs.push(st.err))
        }
    }
}

/// What parsing a whole program yields: all statements, or every diagnostic
/// collected across the file.
pub open spec fn spec_program(s: Seq<u8>) -> Result<Seq<StmtV>, Seq<DiagView>> {
    let (stmts, errs) = spec_program_loop(s, 0, Seq::empty(), Seq::empty(), true);
    if errs.len() == 0 {
        Result::Ok(stmts)
    } else {
        Result::Err(errs)
    }
}

/// The mathematical image of a vector of diagnostics.
pub open spec fn view_errors(v: Seq<Error>) -> Seq<DiagView> {
    Seq::new(v.len(), |i: int| v[i]@)
}

fn take1<'i>(v: Vec<S<Param<'i>>>) -> (r: S<Param<'i>>)
    requires
        v@.len() == 1,
    ensures
        r == v@[0],
{
    let mut v = v;
    match v.pop() {
        Some(x) => x,
        None => {
            proof {
                assert(false);
            }
            vstd::pervasive::unreached()
        },
    }
}

fn take2<'i>(v: Vec<S<Param<'i>>>) -> (r: (S<Param<'i>>, S<Param<'i>>))
    requires
        v@.len() == 2,
    ensures
        r.0 == v@[0] && r.1 == v@[1],
{
    let mut v = v;
    let b = match v.pop() {
        Some(x) => x,
        None => {
            proof {
                assert(false);
            }
            vstd::pervasive::unreached()
        },
    };
    let a = match v.pop() {
        Some(x) => x,
        None => {
            proof {
                assert(false);
            }
            vstd::pervasive::unreached()
        },
    };
    (a, b)
}

fn take3<'i>(v: Vec<S<Param<'i>>>) -> (r: (S<Param<'i>>, S<Param<'i>>, S<Param<'i>>))
    requires
        v@.len() == 3,
    ensures
        r.0 == v@[0] && r.1 == v@[1] && r.2 == v@[2],
{
    let mut v = v;
    let c = match v.pop() {
        Some(x) => x,
        None => {
            proof {
                assert(false);
            }
            vstd::pervasive::unreached()
        },
    };
    let (a, b) = take2(v);
    (a, b, c)
}

/// Converts one raw parameter into an instruction parameter.
pub fn param_from_raw<'i>(prefix: Option<Span>, rp: S<RawParam<'i>>) -> (r: Result<
    S<Param<'i>>,
    Error,
>)
    ensures
        ({
            let o = spec_param_from_raw(prefix, rp@);
            &&& (r matches Ok(v) ==> o == Result::<SV<ParamV>, DiagView>::Ok(v@))
            &&& (r matches Err(e) ==> o == Result::<SV<ParamV>, DiagView>::Err(e@))
        }),
{
    let S(raw, span) = rp;
    match raw {
        RawParam::Str(_) => Err(Error::new("string parameter only allowed with `DB`", span)),
        RawParam::Label(l, off) => {
            if label_is_rb(&l.0) {
                match prefix {
                    Some(_) => Err(Error::new("both immediate and relative mode specified", span)),
                    None => Ok(S(Param::Number(Mode::Relative, off), span)),
                }
            } else {
                let mode = match prefix {
                    Some(_) => Mode::Immediate,
                    None => Mode::Positional,
                };
                Ok(S(Param::Label(mode, l, off), span))
            }
        },
        RawParam::Number(v) => {
            let mode = match prefix {
                Some(_) => Mode::Immediate,
                None => Mode::Positional,
            };
            Ok(S(Param::Number(mode, v), span))
        },
    }
}

/// Converts one raw parameter into a `DB` datum.
pub fn data_from_raw<'i>(prefix: Option<Span>, rp: S<RawParam<'i>>) -> (r: Result<
    S<RawParam<'i>>,
    Error,
>)
    ensures
        ({
            let o = spec_data_from_raw(prefix, rp@);
            &&& (r matches Ok(v) ==> o == Result::<SV<RawParamV>, DiagView>::Ok(v@))
            &&& (r matches Err(e) ==> o == Result::<SV<RawParamV>, DiagView>::Err(e@))
        }),
{
    match prefix {
        Some(h) => Err(Error::new("immediate mode not allowed with `DB`", h)),
        None => {
            let is_rb_label = match &rp.0 {
                RawParam::Label(l, _) => label_is_rb(&l.0),
                _ => false,
            };
            if is_rb_label {
                let lspan = match &rp.0 {
                    RawParam::Label(l, _) => l.1,
                    _ => {
                        proof {
                            assert(false);
                        }
                        vstd::pervasive::unreached()
                    },
                };
                Err(Error::new("relative mode not allowed with `DB`", lspan))
            } else {
                Ok(rp)
            }
        },
    }
}

impl<'i> Parser<'i> {
    /// Eats exactly `arity` instruction parameters; `mspan` is the mnemonic's
    /// span, blamed when the count is off.
    pub fn eat_params(&mut self, mspan: Span, arity: usize) -> (r: Result<Vec<S<Param<'i>>>, Error>)
        requires
            old(self).wf(),
        ensures
            final(self).wf(),
            final(self).src() == old(self).src(),
            ({
                let o = spec_eat_params(old(self).src(), old(self).at(), mspan, arity as int);
                &&& final(self).at() == o.end
                &&& o.ok ==> (r matches Ok(v) && view_sparams(v@) == o.val && v@.len() == arity)
                &&& !o.ok ==> (r matches Err(e) && e@ == o.err)
            }),
    {
        let mut raw = self.eat_raw_params()?;
        let ghost rpo = spec_eat_raw_params(old(self).src(), old(self).at());
        let ghost prs = crate::parse::params::view_pairs(raw@);
        let mut out: Vec<S<Param<'i>>> = Vec::new();
        proof {
            assert(view_sparams(out@) =~= Seq::<SV<ParamV>>::empty());
        }
        let mut i: usize = 0;
        let n = raw.len();
        while i < n
            invariant
                i <= n,
                i + raw@.len() == n,
                prs.len() == n,
                self.wf(),
                self.src() == old(self).src(),
                rpo == spec_eat_raw_params(old(self).src(), old(self).at()),
                rpo.ok,
                rpo.val == prs,
                self.at() == rpo.end,
                crate::parse::params::view_pairs(raw@) == prs.skip(i as int),
                out@.len() == i,
                spec_params_convert(prs, 0, Seq::empty()) == spec_params_convert(
                    prs,
                    i as int,
                    view_sparams(out@),
                ),
            decreases n - i,
        {
            let ghost rb = raw@;
            let (prefix, rp) = raw.remove(0);
            let ghost rv = (prefix, rp@);
            proof {
                assert(crate::parse::params::view_pairs(rb)[0] == rv);
                assert(prs.skip(i as int)[0] == prs[i as int]);
                assert(prs[i as int] == rv);
                assert forall|k: int| 0 <= k < raw@.len() implies crate::parse::params::view_pairs(
                    raw@,
                )[k] == prs.skip(i + 1)[k] by {
                    assert(raw@[k] == rb[k + 1]);
                    assert(crate::parse::params::view_pairs(rb)[k + 1] == prs.skip(i as int)[k
                        + 1]);
                }
                assert(crate::parse::params::view_pairs(raw@) =~= prs.skip(i + 1));
            }
            let p = param_from_raw(prefix, rp)?;
            let ghost pv = p@;
            let ghost out0 = view_sparams(out@);
            out.push(p);
            proof {
                assert(view_sparams(out@) =~= out0.push(pv));
            }
            i = i + 1;
        }
        if out.len() != arity {
            let mut msg: Vec<u8> = Vec::new();
            push_str_bytes(&mut msg, "expected ");
            push_dec_u64(&mut msg, arity as u64);
            push_str_bytes(&mut msg, " parameter");
            if arity != 1 {
                push_str_bytes(&mut msg, "s");
            }
            push_str_bytes(&mut msg, ", found ");
            push_dec_u64(&mut msg, out.len() as u64);
            return Err(Error::from_bytes(msg, mspan));
        }
        Ok(out)
    }

    /// Eats `DB` data parameters.
    pub fn eat_data_params(&mut self) -> (r: Result<Vec<S<RawParam<'i>>>, Error>)
        requires
            old(self).wf(),
        ensures
            final(self).wf(),
            final(self).src() == old(self).src(),
            ({
                let o = spec_eat_data_params(old(self).src(), old(self).at());
                &&& final(self).at() == o.end
                &&& o.ok ==> (r matches Ok(v) && view_sraws(v@) == o.val)
                &&& !o.ok ==> (r matches Err(e) && e@ == o.err)
            }),
    {
        let mut raw = self.eat_raw_params()?;
        let ghost rpo = spec_eat_raw_params(old(self).src(), old(self).at());
        let ghost prs = crate::parse::params::view_pairs(raw@);
        let mut out: Vec<S<RawParam<'i>>> = Vec::new();
        proof {
            assert(view_sraws(out@) =~= Seq::<SV<RawParamV>>::empty());
        }
        let mut i: usize = 0;
        let n = raw.len();
        while i < n
            invariant
                i <= n,
                i + raw@.len() == n,
                prs.len() == n,
                self.wf(),
                self.src() == old(self).src(),
                rpo == spec_eat_raw_params(old(self).src(), old(self).at()),
                rpo.ok,
                rpo.val == prs,
                self.at() == rpo.end,
                crate::parse::params::view_pairs(raw@) == prs.skip(i as int),
                spec_data_convert(prs, 0, Seq::empty()) == spec_data_convert(
                    prs,
                    i as int,
                    view_sraws(out@),
                ),
            decreases n - i,
        {
            let ghost rb = raw@;
            let (prefix, rp) = raw.remove(0);
            let ghost rv = (prefix, rp@);
            proof {
                assert(crate::parse::params::view_pairs(rb)[0] == rv);
                assert(prs.skip(i as int)[0] == prs[i as int]);
                assert(prs[i as int] == rv);
                assert forall|k: int| 0 <= k < raw@.len() implies crate::parse::params::view_pairs(
                    raw@,
                )[k] == prs.skip(i + 1)[k] by {
                    assert(raw@[k] == rb[k + 1]);
                    assert(crate::parse::params::view_pairs(rb)[k + 1] == prs.skip(i as int)[k
                        + 1]);
                }
                assert(crate::parse::params::view_pairs(raw@) =~= prs.skip(i + 1));
            }
            let p = data_from_raw(prefix, rp)?;
            let ghost pv = p@;
            let ghost out0 = view_sraws(out@);
            out.push(p);
            proof {
                assert(view_sraws(out@) =~= out0.push(pv));
            }
            i = i + 1;
        }
        Ok(out)
    }
}


/// The mathematical image of a vector of statements.
pub open spec fn view_stmts(v: Seq<Stmt<'_>>) -> Seq<StmtV> {
    Seq::new(v.len(), |i: int| v[i]@)
}

impl<'i> Parser<'i> {
    /// Eats one instruction: the mnemonic decides the shape, and the span
    /// runs from the mnemonic to the start of whatever follows.
    pub fn eat_instr(&mut self) -> (r: Result<S<Instr<'i>>, Error>)
        requires
            old(self).wf(),
        ensures
            final(self).wf(),
            final(self).src() == old(self).src(),
            ({
                let o = spec_eat_instr(old(self).src(), old(self).at());
                &&& final(self).at() == o.end
                &&& o.ok ==> (r matches Ok(v) && v@ == o.val)
                &&& !o.ok ==> (r matches Err(e) && e@ == o.err)
            }),
    {
        proof {
            self.bounded();
            lemma_find_span_wf(self.src(), self.at());
        }
        let tok = self.expect(Token::Ident)?;
        let S(_, mspan) = tok;
        let text = vstd::slice::slice_subrange(self.tokens.input, mspan.m, mspan.n);
        let instr: Instr<'i>;
        if crate::text::bytes_eq_str(text, "ADD") {
            let ps = self.eat_params(mspan, 3)?;
            let (x, y, z) = take3(ps);
            instr = Instr::Add(x, y, z);
        } else if crate::text::bytes_eq_str(text, "MUL") {
            let ps = self.eat_params(mspan, 3)?;
            let (x, y, z) = take3(ps);
            instr = Instr::Multiply(x, y, z);
        } else if crate::text::bytes_eq_str(text, "JNZ") {
            let ps = self.eat_params(mspan, 2)?;
            let (x, y) = take2(ps);
            instr = Instr::JumpNonZero(x, y);
        } else if crate::text::bytes_eq_str(text, "JZ") {
            let ps = self.eat_params(mspan, 2)?;
            let (x, y) = take2(ps);
            instr = Instr::JumpZero(x, y);
        } else if crate::text::bytes_eq_str(text, "LT") {
            let ps = self.eat_params(mspan, 3)?;
            let (x, y, z) = take3(ps);
            instr = Instr::LessThan(x, y, z);
        } else if crate::text::bytes_eq_str(text, "EQ") {
            let ps = self.eat_params(mspan, 3)?;
            let (x, y, z) = take3(ps);
            instr = Instr::Equal(x, y, z);
        } else if crate::text::bytes_eq_str(text, "IN") {
            let ps = self.eat_params(mspan, 1)?;
            let x = take1(ps);
            instr = Instr::Input(x);
        } else if crate::text::bytes_eq_str(text, "OUT") {
            let ps = self.eat_params(mspan, 1)?;
            let x = take1(ps);
            instr = Instr::Output(x);
        } else if crate::text::bytes_eq_str(text, "ARB") {
            let ps = self.eat_params(mspan, 1)?;
            let x = take1(ps);
            instr = Instr::AdjustRelativeBase(x);
        } else if crate::text::bytes_eq_str(text, "HLT") {
            let _ps = self.eat_params(mspan, 0)?;
            instr = Instr::Halt;
        } else if crate::text::bytes_eq_str(text, "DB") {
            let ds = self.eat_data_params()?;
            proof {
                assert(Seq::new(ds@.len(), |i: int| ds@[i]@) =~= view_sraws(ds@));
            }
            instr = Instr::Data(ds);
        } else if is_mnemonic_bytes(text) {
            return Err(Error::new("unknown operation mnemonic", mspan));
        } else {
            return Err(Error::new("expected a mnemonic, found an identifier", mspan));
        }
        let ahead = self.peek()?;
        let S(_, sp2) = ahead;
        Ok(S(instr, Span { m: mspan.m, n: sp2.m }))
    }

    /// Eats one statement: `None` at the end of input, else an optional
    /// `label:` prefix and an instruction ended by a newline or the input's
    /// end.
    pub fn eat_stmt(&mut self) -> (r: Result<Option<Stmt<'i>>, Error>)
        requires
            old(self).wf(),
        ensures
            final(self).wf(),
            final(self).src() == old(self).src(),
            ({
                let o = spec_eat_stmt(old(self).src(), old(self).at());
                &&& final(self).at() == o.end
                &&& o.ok ==> (r matches Ok(v) && ((v matches Some(st) && o.val matches Some(sv)
                    && st@ == sv) || (v is None && o.val is None)))
                &&& !o.ok ==> (r matches Err(e) && e@ == o.err)
            }),
    {
        self.eat_all(Token::Newline)?;
        proof {
            self.bounded();
            lemma_find_span_wf(self.src(), self.at());
        }
        let ahead = self.peek()?;
        let S(t0, span0) = ahead;
        match t0 {
            Token::Eof => {
                return Ok(None);
            },
            _ => {},
        }
        let label: Option<S<crate::ast::Label<'i>>> = match t0 {
            Token::Ident => {
                let text = vstd::slice::slice_subrange(self.tokens.input, span0.m, span0.n);
                if !is_mnemonic_bytes(text) {
                    let _ = self.eat();
                    let _ = self.expect(Token::Colon)?;
                    Some(S(label_of(text), span0))
                } else {
                    None
                }
            },
            _ => None,
        };
        self.eat_all(Token::Newline)?;
        let instr = self.eat_instr()?;
        let ahead2 = self.peek()?;
        let S(t2, _) = ahead2;
        match t2 {
            Token::Eof => {},
            _ => {
                let _ = self.expect(Token::Newline)?;
            },
        }
        Ok(Some(Stmt { label, instr }))
    }

    /// Skips to the next newline or the end of input, eating bytes that fail
    /// to lex along the way.
    pub fn recover(&mut self)
        requires
            old(self).wf(),
        ensures
            final(self).wf(),
            final(self).src() == old(self).src(),
            final(self).at() == spec_recover(old(self).src(), old(self).at()),
    {
        loop
            invariant
                self.wf(),
                self.src() == old(self).src(),
                spec_recover(self.src(), self.at()) == spec_recover(
                    old(self).src(),
                    old(self).at(),
                ),
            decreases self.src().len() - self.at(),
        {
            proof {
                lemma_find_bounds(self.src(), self.at());
            }
            let ahead = self.peek();
            match ahead {
                Err(_) => {
                    let _ = self.eat();
                },
                Ok(S(t, _)) => {
                    match t {
                        Token::Newline | Token::Eof => {
                            return;
                        },
                        _ => {
                            let _ = self.eat();
                        },
                    }
                },
            }
        }
    }

    /// Eats the whole program, collecting every statement; after a failed
    /// statement it recovers at the next line, so that one call reports all
    /// diagnostics.
    pub fn eat_program(self) -> (r: Result<Program<'i>, Vec<Error>>)
        requires
            self.wf(),
            self.at() == 0,
        ensures
            ({
                let sp = spec_program(self.src());
                &&& (r matches Ok(p) ==> sp == Result::<Seq<StmtV>, Seq<DiagView>>::Ok(p@))
                &&& (r matches Err(es) ==> sp == Result::<Seq<StmtV>, Seq<DiagView>>::Err(
                    view_errors(es@),
                ))
            }),
    {
        let mut this = self;
        let mut stmts: Vec<Stmt<'i>> = Vec::new();
        let mut errors: Vec<Error> = Vec::new();
        let ghost mut chance: bool = true;
        proof {
            assert(view_stmts(stmts@) =~= Seq::<StmtV>::empty());
            assert(view_errors(errors@) =~= Seq::<DiagView>::empty());
        }
        loop
            invariant
                this.wf(),
                this.src() == self.src(),
                spec_program_loop(
                    self.src(),
                    this.at(),
                    view_stmts(stmts@),
                    view_errors(errors@),
                    chance,
                ) == spec_program_loop(self.src(), 0, Seq::empty(), Seq::empty(), true),
                !chance ==> (spec_find(self.src(), this.at()).ok && (spec_find(
                    self.src(),
                    this.at(),
                ).token == Token::Newline || spec_find(self.src(), this.at()).token == Token::Eof)),
            decreases 2 * (this.src().len() - this.at()) + (if chance {
                1int
            } else {
                0int
            }),
        {
            proof {
                lemma_eat_stmt_bounds(this.src(), this.at());
            }
            let ghost pos0 = this.at();
            let st = this.eat_stmt();
            match st {
                Ok(None) => {
                    if errors.len() == 0 {
                        return Ok(Program { stmts });
                    } else {
                        return Err(errors);
                    }
                },
                Ok(Some(stmt)) => {
                    let ghost sv = stmt@;
                    let ghost st0 = view_stmts(stmts@);
                    stmts.push(stmt);
                    proof {
                        assert(view_stmts(stmts@) =~= st0.push(sv));
                        chance = true;
                    }
                },
                Err(e) => {
                    let ghost ev = e@;
                    let ghost er0 = view_errors(errors@);
                    errors.push(e);
                    let ghost perr = this.at();
                    this.recover();
                    proof {
                        assert(view_errors(errors@) =~= er0.push(ev));
                        lemma_recover_bounds(this.src(), perr);
                        if this.at() > pos0 {
                            chance = true;
                        } else {
                            chance = false;
                        }
                    }
                },
            }
        }
    }
}

/// Parses intcode assembly into its syntax tree, or reports one diagnostic
/// per failed statement.
pub fn program(input: &str) -> (r: Result<Program<'_>, Vec<Error>>)
    ensures
        ({
            let sp = spec_program(input.spec_bytes());
            &&& (r matches Ok(p) ==> sp == Result::<Seq<StmtV>, Seq<DiagView>>::Ok(p@))
            &&& (r matches Err(es) ==> sp == Result::<Seq<StmtV>, Seq<DiagView>>::Err(
                view_errors(es@),
            ))
        }),
{
    Parser::new(input).eat_program()
}

} // verus!
