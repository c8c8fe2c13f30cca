//! The assembler backend: two passes over the syntax tree, first emitting
//! words while collecting label definition and reference sites, then
//! resolving every reference.

use vstd::prelude::*;
use vstd::string::StringSliceAdditionalSpecFns;
use vstd::wrapping::i64_specs;

use crate::ast::{mode_value, InstrV, LabelV, Param, ParamV, Program, RawParamV, StmtV};
use crate::ast::{Instr, Label, RawParam};
use crate::error::{DiagView, Error, ErrorSet, Warning};
use crate::label_table::{add_def, add_ref, LabelEntryV, LabelState, LabelTable};
use crate::parse::grammar::{view_errors, view_sparams};
use crate::span::{S, SV, Span};

verus! {

/// The mathematical image of a vector of warnings.
pub open spec fn view_warnings(v: Seq<Warning>) -> Seq<DiagView> {
    Seq::new(v.len(), |i: int| v[i]@)
}

/// The assembler's state during the first pass.
pub struct AsmSt {
    pub output: Seq<i64>,
    pub labels: Seq<LabelEntryV>,
    pub errors: Seq<DiagView>,
}

/// Labels in definition position may not be the reserved names; a fixed name
/// is recorded as defined at the statement's address.
pub open spec fn spec_insert_label(
    labels: Seq<LabelEntryV>,
    errors: Seq<DiagView>,
    label: Option<SV<LabelV>>,
    addr: usize,
) -> (Seq<LabelEntryV>, Seq<DiagView>) {
    match label {
        Option::None => (labels, errors),
        Option::Some(sl) => match sl.val {
            LabelV::Underscore => (
                labels,
                errors.push(
                    DiagView {
                        msg: "label is reserved to indicate a runtime value".spec_bytes(),
                        span: sl.span,
                    },
                ),
            ),
            LabelV::InstructionPointer => (
                labels,
                errors.push(
                    DiagView {
                        msg: "label is reserved to refer to the instruction pointer".spec_bytes(),
                        span: sl.span,
                    },
                ),
            ),
            LabelV::Fixed(t) => {
                if crate::parse::params::is_rb(t) {
                    (
                        labels,
                        errors.push(
                            DiagView {
                                msg: "label is reserved to refer to the relative base".spec_bytes(),
                                span: sl.span,
                            },
                        ),
                    )
                } else {
                    (add_def(labels, t, addr, sl.span), errors)
                }
            },
        },
    }
}

/// The mode digit of a parameter.
pub open spec fn mode_of(p: SV<ParamV>) -> int {
    match p.val {
        ParamV::Number(m, _) => mode_value(m),
        ParamV::Label(m, _, _) => mode_value(m),
    }
}

/// The opcode word of an instruction with parameters `ps`: the opcode plus
/// each parameter's mode at its decimal position.
pub open spec fn spec_word0(op: int, ps: Seq<SV<ParamV>>) -> i64 {
    (op + 100 * (if ps.len() > 0 {
        mode_of(ps[0])
    } else {
        0
    }) + 1000 * (if ps.len() > 1 {
        mode_of(ps[1])
    } else {
        0
    }) + 10000 * (if ps.len() > 2 {
        mode_of(ps[2])
    } else {
        0
    })) as i64
}

/// One parameter's value word: a number is emitted as is, `_` and a fixed
/// label emit the offset (a fixed label also records a reference site at the
/// emitted word), and `ip` emits the after-instruction address plus offset.
pub open spec fn spec_emit_param(
    output: Seq<i64>,
    labels: Seq<LabelEntryV>,
    p: SV<ParamV>,
    ip64: i64,
) -> (Seq<i64>, Seq<LabelEntryV>) {
    match p.val {
        ParamV::Number(_, v) => (output.push(v), labels),
        ParamV::Label(_, l, off) => match l.val {
            LabelV::Underscore => (output.push(off), labels),
            LabelV::InstructionPointer => (output.push(i64_specs::wrapping_add(ip64, off)), labels),
            LabelV::Fixed(t) => (
                output.push(off),
                add_ref(labels, t, output.len() as usize, l.span),
            ),
        },
    }
}

pub open spec fn spec_emit_params(
    output: Seq<i64>,
    labels: Seq<LabelEntryV>,
    ps: Seq<SV<ParamV>>,
    ip64: i64,
    k: int,
) -> (Seq<i64>, Seq<LabelEntryV>)
    decreases ps.len() - k,
{
    if k < 0 || k >= ps.len() {
        (output, labels)
    } else {
        let (o2, l2) = spec_emit_param(output, labels, ps[k], ip64);
        spec_emit_params(o2, l2, ps, ip64, k + 1)
    }
}

/// The after-instruction address as a word, or 0 in the unreachable case
/// where it exceeds the 64-bit range.
pub open spec fn spec_ip64(iw: int) -> i64 {
    if iw <= i64::MAX {
        iw as i64
    } else {
        0
    }
}

/// Emits one instruction: the opcode word carrying the parameter modes, then
/// one value word per parameter.
pub open spec fn spec_emit_generic(
    output: Seq<i64>,
    labels: Seq<LabelEntryV>,
    op: int,
    ps: Seq<SV<ParamV>>,
) -> (Seq<i64>, Seq<LabelEntryV>) {
    let ip64 = spec_ip64(output.len() + 1 + ps.len() as int);
    spec_emit_params(output.push(spec_word0(op, ps)), labels, ps, ip64, 0)
}

/// The bytes of a string datum, one word per byte.
pub open spec fn bytes_to_words(b: Seq<u8>) -> Seq<i64> {
    Seq::new(b.len(), |i: int| b[i] as i64)
}

/// How many words the data after index `k` emit, saturating at 2^63 (a bound
/// no real program reaches).
pub open spec fn spec_data_words(ds: Seq<SV<RawParamV>>, k: int, acc: int) -> int
    decreases ds.len() - k,
{
    if k < 0 || k >= ds.len() {
        acc
    } else {
        let t = match ds[k].val {
            RawParamV::Str(sv) => sv.bytes().len() as int,
            _ => 1,
        };
        let a2 = if acc + t >= 0x8000_0000_0000_0000 {
            0x8000_0000_0000_0000
        } else {
            acc + t
        };
        spec_data_words(ds, k + 1, a2)
    }
}

/// Emits `DB` data: numbers and label offsets as single words, strings one
/// word per byte; `ip` refers to the address just after the whole statement.
pub open spec fn spec_emit_data(
    output: Seq<i64>,
    labels: Seq<LabelEntryV>,
    ds: Seq<SV<RawParamV>>,
    ip64: i64,
    k: int,
) -> (Seq<i64>, Seq<LabelEntryV>)
    decreases ds.len() - k,
{
    if k < 0 || k >= ds.len() {
        (output, labels)
    } else {
        let (o2, l2) = match ds[k].val {
            RawParamV::Label(l, off) => match l.val {
                LabelV::Underscore => (output.push(off), labels),
                LabelV::InstructionPointer => (
                    output.push(i64_specs::wrapping_add(ip64, off)),
                    labels,
                ),
                LabelV::Fixed(t) => (
                    output.push(off),
                    add_ref(labels, t, output.len() as usize, l.span),
                ),
            },
            RawParamV::Number(v) => (output.push(v), labels),
            RawParamV::Str(sv) => (output + bytes_to_words(sv.bytes()), labels),
        };
        spec_emit_data(o2, l2, ds, ip64, k + 1)
    }
}

/// Emits one instruction or data statement.
pub open spec fn spec_emit_instr(
    output: Seq<i64>,
    labels: Seq<LabelEntryV>,
    iv: InstrV,
) -> (Seq<i64>, Seq<LabelEntryV>) {
    match iv {
        InstrV::Add(x, y, z) => spec_emit_generic(output, labels, 1, seq![x, y, z]),
        InstrV::Multiply(x, y, z) => spec_emit_generic(output, labels, 2, seq![x, y, z]),
        InstrV::LessThan(x, y, z) => spec_emit_generic(output, labels, 7, seq![x, y, z]),
        InstrV::Equal(x, y, z) => spec_emit_generic(output, labels, 8, seq![x, y, z]),
        InstrV::JumpNonZero(x, y) => spec_emit_generic(output, labels, 5, seq![x, y]),
        InstrV::JumpZero(x, y) => spec_emit_generic(output, labels, 6, seq![x, y]),
        InstrV::Input(p) => spec_emit_generic(output, labels, 3, seq![p]),
        InstrV::Output(p) => spec_emit_generic(output, labels, 4, seq![p]),
        InstrV::AdjustRelativeBase(p) => spec_emit_generic(output, labels, 9, seq![p]),
        InstrV::Halt => (output.push(99), labels),
        InstrV::Data(ds) => spec_emit_data(
            output,
            labels,
            ds,
            spec_ip64(output.len() + spec_data_words(ds, 0, 0)),
            0,
        ),
    }
}

/// The first pass over the first `k` statements.
pub open spec fn spec_pass1(stmts: Seq<StmtV>, k: int) -> AsmSt
    decreases k,
{
    if k <= 0 {
        AsmSt { output: Seq::empty(), labels: Seq::empty(), errors: Seq::empty() }
    } else {
        let st = spec_pass1(stmts, k - 1);
        let (l1, e1) = spec_insert_label(
            st.labels,
            st.errors,
            stmts[k - 1].label,
            st.output.len() as usize,
        );
        let (o2, l2) = spec_emit_instr(st.output, l1, stmts[k - 1].instr.val);
        AsmSt { output: o2, labels: l2, errors: e1 }
    }
}

/// A stored address as a word (addresses above the 64-bit signed range do not
/// occur).
pub open spec fn spec_addr64(addr: usize) -> i64 {
    if addr <= i64::MAX {
        addr as i64
    } else {
        0
    }
}

/// Adds the defining address into each reference site's word.
pub open spec fn spec_apply_refs(
    output: Seq<i64>,
    refs: Seq<(usize, Span)>,
    addr: usize,
    k: int,
) -> Seq<i64>
    decreases refs.len() - k,
{
    if k < 0 || k >= refs.len() {
        output
    } else {
        let r = refs[k].0;
        let o2 = if r < output.len() {
            output.update(r as int, i64_specs::wrapping_add(output[r as int], spec_addr64(addr)))
        } else {
            output
        };
        spec_apply_refs(o2, refs, addr, k + 1)
    }
}

/// One `undefined label` diagnostic per reference site.
pub open spec fn spec_ref_errors(errors: Seq<DiagView>, refs: Seq<(usize, Span)>, k: int) -> Seq<
    DiagView,
>
    decreases refs.len() - k,
{
    if k < 0 || k >= refs.len() {
        errors
    } else {
        spec_ref_errors(
            errors.push(DiagView { msg: "undefined label".spec_bytes(), span: refs[k].1 }),
            refs,
            k + 1,
        )
    }
}

/// The first definition is marked as such; every later one is `label
/// redefined here`.
pub open spec fn spec_def_errors(errors: Seq<DiagView>, defs: Seq<(usize, Span)>, k: int) -> Seq<
    DiagView,
>
    decreases defs.len() - k,
{
    if k < 0 || k >= defs.len() {
        errors
    } else {
        let msg = if k == 0 {
            "first definition of label".spec_bytes()
        } else {
            "label redefined here".spec_bytes()
        };
        spec_def_errors(errors.push(DiagView { msg, span: defs[k].1 }), defs, k + 1)
    }
}

/// The second pass's state.
pub struct Pass2St {
    pub output: Seq<i64>,
    pub errors: Seq<DiagView>,
    pub warnings: Seq<DiagView>,
}

/// A label whose name starts with an underscore is exempt from the unused
/// warning.
pub open spec fn starts_underscore(name: Seq<u8>) -> bool {
    name.len() > 0 && name[0] == 95
}

/// Resolves one label: undefined names fail at every reference, a single
/// definition patches its references (or warns when never used), and multiple
/// definitions fail at every definition site.
pub open spec fn spec_pass2_entry(st: Pass2St, e: LabelEntryV) -> Pass2St {
    if e.defs.len() == 0 {
        Pass2St { errors: spec_ref_errors(st.errors, e.refs, 0), ..st }
    } else if e.defs.len() == 1 {
        if e.refs.len() == 0 && !starts_underscore(e.name) {
            Pass2St {
                warnings: st.warnings.push(
                    DiagView { msg: "label is never used".spec_bytes(), span: e.defs[0].1 },
                ),
                ..st
            }
        } else {
            Pass2St { output: spec_apply_refs(st.output, e.refs, e.defs[0].0, 0), ..st }
        }
    } else {
        Pass2St { errors: spec_def_errors(st.errors, e.defs, 0), ..st }
    }
}

pub open spec fn spec_pass2(st: Pass2St, labels: Seq<LabelEntryV>, k: int) -> Pass2St
    decreases labels.len() - k,
{
    if k < 0 || k >= labels.len() {
        st
    } else {
        spec_pass2(spec_pass2_entry(st, labels[k]), labels, k + 1)
    }
}

/// What assembling a program yields: the intcode and warnings, or all errors
/// and warnings.
pub open spec fn spec_assemble(stmts: Seq<StmtV>) -> Result<
    (Seq<i64>, Seq<DiagView>),
    (Seq<DiagView>, Seq<DiagView>),
> {
    let st = spec_pass1(stmts, stmts.len() as int);
    let p2 = spec_pass2(
        Pass2St { output: st.output, errors: st.errors, warnings: Seq::empty() },
        st.labels,
        0,
    );
    if p2.errors.len() == 0 {
        Result::Ok((p2.output, p2.warnings))
    } else {
        Result::Err((p2.errors, p2.warnings))
    }
}

/// What assembling a source text yields.
pub open spec fn spec_to_intcode(s: Seq<u8>) -> Result<
    (Seq<i64>, Seq<DiagView>),
    (Seq<DiagView>, Seq<DiagView>),
> {
    match crate::parse::grammar::spec_program(s) {
        Result::Err(errs) => Result::Err((errs, Seq::empty())),
        Result::Ok(stmts) => spec_assemble(stmts),
    }
}

/// The emitted parameter words only ever extend the output.
pub proof fn lemma_emit_params_grows(
    output: Seq<i64>,
    labels: Seq<LabelEntryV>,
    ps: Seq<SV<ParamV>>,
    ip64: i64,
    k: int,
)
    requires
        0 <= k <= ps.len(),
    ensures
        ({
            let (o2, _) = spec_emit_params(output, labels, ps, ip64, k);
            &&& o2.len() == output.len() + (ps.len() - k)
            &&& forall|j: int| 0 <= j < output.len() ==> o2[j] == output[j]
        }),
    decreases ps.len() - k,
{
    if k < ps.len() {
        let (o2, l2) = spec_emit_param(output, labels, ps[k], ip64);
        lemma_emit_params_grows(o2, l2, ps, ip64, k + 1);
    }
}

/// Opcode and mode encoding: the word emitted for an instruction with opcode
/// `op` and parameters `ps` (modes `m1..mk`) is `op + 100*m1 + 1000*m2 +
/// 10000*m3`, and it stands at the instruction's address, untouched by the
/// parameter words that follow it.
pub proof fn lemma_opcode_mode_encoding(
    output: Seq<i64>,
    labels: Seq<LabelEntryV>,
    op: int,
    ps: Seq<SV<ParamV>>,
)
    requires
        1 <= op <= 99,
        ps.len() <= 3,
    ensures
        ({
            let (o2, _) = spec_emit_generic(output, labels, op, ps);
            &&& o2.len() == output.len() + 1 + ps.len()
            &&& o2[output.len() as int] == op + 100 * (if ps.len() > 0 {
                mode_of(ps[0])
            } else {
                0
            }) + 1000 * (if ps.len() > 1 {
                mode_of(ps[1])
            } else {
                0
            }) + 10000 * (if ps.len() > 2 {
                mode_of(ps[2])
            } else {
                0
            })
        }),
{
    let ip64 = spec_ip64(output.len() + 1 + ps.len() as int);
    let o1 = output.push(spec_word0(op, ps));
    lemma_emit_params_grows(o1, labels, ps, ip64, 0);
}


/// An assembled program: the intcode and any warnings.
#[derive(Debug, Clone, PartialEq, Eq)]
pub struct Intcode {
    pub output: Vec<i64>,
    pub warnings: Vec<Warning>,
}

/// The mode digit of a parameter.
fn param_mode(p: &S<Param<'_>>) -> (r: i64)
    ensures
        r == mode_of(p@),
        0 <= r <= 2,
{
    match p.0 {
        Param::Number(m, _) => m.value(),
        Param::Label(m, _, _) => m.value(),
    }
}

/// Emits one parameter's value word, recording a reference site for a fixed
/// label.
fn emit_param(out: &mut Vec<i64>, table: &mut LabelTable, p: S<Param<'_>>, ip64: i64)
    requires
        old(table).wf(),
    ensures
        final(table).wf(),
        ({
            let (o2, l2) = spec_emit_param(old(out)@, old(table).labels(), p@, ip64);
            final(out)@ == o2 && final(table).labels() == l2
        }),
{
    let S(param, _) = p;
    match param {
        Param::Number(_, v) => {
            out.push(v);
        },
        Param::Label(_, l, off) => {
            let S(lab, lspan) = l;
            match lab {
                Label::Underscore => {
                    out.push(off);
                },
                Label::InstructionPointer => {
                    out.push(ip64.wrapping_add(off));
                },
                Label::Fixed(name) => {
                    table.push_ref(name, out.len(), lspan);
                    out.push(off);
                },
            }
        },
    }
}

/// Emits an instruction: the opcode word carrying the parameter modes, then
/// the parameter words.
fn emit_with_params(out: &mut Vec<i64>, table: &mut LabelTable, op: i64, ps: &Vec<S<Param<'_>>>)
    requires
        old(table).wf(),
        1 <= op <= 99,
        ps@.len() <= 3,
    ensures
        final(table).wf(),
        ({
            let (o2, l2) = spec_emit_generic(
                old(out)@,
                old(table).labels(),
                op as int,
                view_sparams(ps@),
            );
            final(out)@ == o2 && final(table).labels() == l2
        }),
{
    let ghost pv = view_sparams(ps@);
    let iw: u128 = out.len() as u128 + 1 + ps.len() as u128;
    let ip64: i64 = if iw <= i64::MAX as u128 {
        iw as i64
    } else {
        0
    };
    proof {
        assert(ip64 == spec_ip64(old(out)@.len() + 1 + pv.len() as int));
    }
    let mut word: i64 = op;
    if ps.len() > 0 {
        word = word + 100 * param_mode(&ps[0]);
    }
    if ps.len() > 1 {
        word = word + 1000 * param_mode(&ps[1]);
    }
    if ps.len() > 2 {
        word = word + 10000 * param_mode(&ps[2]);
    }
    proof {
        assert(word == spec_word0(op as int, pv));
    }
    out.push(word);
    let ghost o1 = out@;
    let ghost l1 = table.labels();
    let n = ps.len();
    let mut k: usize = 0;
    while k < n
        invariant
            k <= n,
            n == pv.len(),
            pv == view_sparams(ps@),
            table.wf(),
            spec_emit_params(o1, l1, pv, ip64, 0) == spec_emit_params(
                out@,
                table.labels(),
                pv,
                ip64,
                k as int,
            ),
        decreases n - k,
    {
        emit_param(out, table, ps[k], ip64);
        k = k + 1;
    }
}

/// Emits `DB` data.
fn emit_data(out: &mut Vec<i64>, table: &mut LabelTable, ds: &Vec<S<RawParam<'_>>>)
    requires
        old(table).wf(),
    ensures
        final(table).wf(),
        ({
            let dv = crate::parse::grammar::view_sraws(ds@);
            let (o2, l2) = spec_emit_data(
                old(out)@,
                old(table).labels(),
                dv,
                spec_ip64(old(out)@.len() + spec_data_words(dv, 0, 0)),
                0,
            );
            final(out)@ == o2 && final(table).labels() == l2
        }),
{
    let ghost dv = crate::parse::grammar::view_sraws(ds@);
    let n = ds.len();
    // Total words the data will take, saturating far above any real size.
    let mut words: u128 = 0;
    let mut j: usize = 0;
    while j < n
        invariant
            j <= n,
            n == dv.len(),
            dv == crate::parse::grammar::view_sraws(ds@),
            words <= 0x8000_0000_0000_0000u128,
            spec_data_words(dv, 0, 0) == spec_data_words(dv, j as int, words as int),
        decreases n - j,
    {
        let t: u128 = match &ds[j].0 {
            RawParam::Str(s) => s.as_bytes().len() as u128,
            _ => 1u128,
        };
        words = if words + t >= 0x8000_0000_0000_0000u128 {
            0x8000_0000_0000_0000u128
        } else {
            words + t
        };
        j = j + 1;
    }
    let iw: u128 = out.len() as u128 + words;
    let ip64: i64 = if iw <= i64::MAX as u128 {
        iw as i64
    } else {
        0
    };
    proof {
        assert(ip64 == spec_ip64(old(out)@.len() + spec_data_words(dv, 0, 0)));
    }
    let ghost o0 = out@;
    let ghost l0 = table.labels();
    let mut k: usize = 0;
    while k < n
        invariant
            k <= n,
            n == dv.len(),
            dv == crate::parse::grammar::view_sraws(ds@),
            table.wf(),
            spec_emit_data(o0, l0, dv, ip64, 0) == spec_emit_data(
                out@,
                table.labels(),
                dv,
                ip64,
                k as int,
            ),
        decreases n - k,
    {
        match &ds[k].0 {
            RawParam::Label(l, off) => {
                let S(lab, lspan) = *l;
                let offv: i64 = *off;
                match lab {
                    Label::Underscore => {
                        out.push(offv);
                    },
                    Label::InstructionPointer => {
                        out.push(ip64.wrapping_add(offv));
                    },
                    Label::Fixed(name) => {
                        table.push_ref(name, out.len(), lspan);
                        out.push(offv);
                    },
                }
            },
            RawParam::Number(v) => {
                out.push(*v);
            },
            RawParam::Str(s) => {
                let bytes = s.as_bytes();
                let blen = bytes.len();
                let ghost b0 = out@;
                let mut bi: usize = 0;
                while bi < blen
                    invariant
                        bi <= blen,
                        blen == bytes@.len(),
                        out@ == b0 + bytes_to_words(bytes@).take(bi as int),
                    decreases blen - bi,
                {
                    out.push(*vstd::slice::slice_index_get(bytes, bi) as i64);
                    proof {
                        assert(out@ =~= b0 + bytes_to_words(bytes@).take(bi + 1));
                    }
                    bi = bi + 1;
                }
                proof {
                    assert(bytes_to_words(bytes@).take(blen as int) =~= bytes_to_words(bytes@));
                }
            },
        }
        k = k + 1;
    }
}

/// Checks a statement label against the reserved names and records it.
fn insert_label(
    table: &mut LabelTable,
    errors: &mut Vec<Error>,
    label: Option<S<Label<'_>>>,
    addr: usize,
)
    requires
        old(table).wf(),
    ensures
        final(table).wf(),
        ({
            let lv = match label {
                Option::Some(l) => Option::Some(l@),
                Option::None => Option::<SV<LabelV>>::None,
            };
            let (l2, e2) = spec_insert_label(
                old(table).labels(),
                view_errors(old(errors)@),
                lv,
                addr,
            );
            final(table).labels() == l2 && view_errors(final(errors)@) == e2
        }),
{
    let ghost e0 = view_errors(errors@);
    match label {
        None => {},
        Some(S(lab, lspan)) => {
            match lab {
                Label::Underscore => {
                    errors.push(Error::new("label is reserved to indicate a runtime value", lspan));
                    proof {
                        assert(view_errors(errors@) =~= e0.push(errors@.last()@));
                    }
                },
                Label::InstructionPointer => {
                    errors.push(
                        Error::new("label is reserved to refer to the instruction pointer", lspan),
                    );
                    proof {
                        assert(view_errors(errors@) =~= e0.push(errors@.last()@));
                    }
                },
                Label::Fixed(name) => {
                    if crate::parse::params::label_is_rb(&Label::Fixed(name)) {
                        errors.push(
                            Error::new("label is reserved to refer to the relative base", lspan),
                        );
                        proof {
                            assert(view_errors(errors@) =~= e0.push(errors@.last()@));
                        }
                    } else {
                        table.push_def(name, addr, lspan);
                    }
                },
            }
        },
    }
}

/// Resolves one label, as the second pass sees it.
fn pass2_entry(
    out: &mut Vec<i64>,
    errors: &mut Vec<Error>,
    warnings: &mut Vec<Warning>,
    e: &LabelState,
)
    ensures
        ({
            let p2 = spec_pass2_entry(
                Pass2St {
                    output: old(out)@,
                    errors: view_errors(old(errors)@),
                    warnings: view_warnings(old(warnings)@),
                },
                e@,
            );
            final(out)@ == p2.output && view_errors(final(errors)@) == p2.errors && view_warnings(
                final(warnings)@,
            ) == p2.warnings
        }),
{
    let dlen = e.defs.len();
    if dlen == 0 {
        let ghost er0 = view_errors(errors@);
        let rlen = e.refs.len();
        let mut k: usize = 0;
        while k < rlen
            invariant
                k <= rlen,
                rlen == e.refs@.len(),
                spec_ref_errors(er0, e.refs@, 0) == spec_ref_errors(
                    view_errors(errors@),
                    e.refs@,
                    k as int,
                ),
            decreases rlen - k,
        {
            let (_, rspan) = e.refs[k];
            let ghost ec = view_errors(errors@);
            errors.push(Error::new("undefined label", rspan));
            proof {
                assert(view_errors(errors@) =~= ec.push(errors@.last()@));
            }
            k = k + 1;
        }
    } else if dlen == 1 {
        let starts_us = e.name.len() > 0 && e.name[0] == 95;
        if e.refs.len() == 0 && !starts_us {
            let (_, dspan) = e.defs[0];
            let ghost w0 = view_warnings(warnings@);
            warnings.push(Warning::new("label is never used", dspan));
            proof {
                assert(view_warnings(warnings@) =~= w0.push(warnings@.last()@));
            }
        } else {
            let (addr, _) = e.defs[0];
            let aw: i64 = if addr as u64 <= i64::MAX as u64 {
                addr as i64
            } else {
                0
            };
            proof {
                assert(aw == spec_addr64(addr));
            }
            let ghost o0 = out@;
            let rlen = e.refs.len();
            let mut k: usize = 0;
            while k < rlen
                invariant
                    k <= rlen,
                    rlen == e.refs@.len(),
                    aw == spec_addr64(addr),
                    spec_apply_refs(o0, e.refs@, addr, 0) == spec_apply_refs(
                        out@,
                        e.refs@,
                        addr,
                        k as int,
                    ),
                decreases rlen - k,
            {
                let (r, _) = e.refs[k];
                if r < out.len() {
                    let cur = out[r];
                    let updated = cur.wrapping_add(aw);
                    *vstd::std_specs::vec::vec_index_mut(out, r) = updated;
                }
                k = k + 1;
            }
        }
    } else {
        let ghost er0 = view_errors(errors@);
        let mut k: usize = 0;
        while k < dlen
            invariant
                k <= dlen,
                dlen == e.defs@.len(),
                spec_def_errors(er0, e.defs@, 0) == spec_def_errors(
                    view_errors(errors@),
                    e.defs@,
                    k as int,
                ),
            decreases dlen - k,
        {
            let (_, dspan) = e.defs[k];
            let ghost ec = view_errors(errors@);
            if k == 0 {
                errors.push(Error::new("first definition of label", dspan));
            } else {
                errors.push(Error::new("label redefined here", dspan));
            }
            proof {
                assert(view_errors(errors@) =~= ec.push(errors@.last()@));
            }
            k = k + 1;
        }
    }
}

fn vec3<'i>(x: S<Param<'i>>, y: S<Param<'i>>, z: S<Param<'i>>) -> (r: Vec<S<Param<'i>>>)
    ensures
        view_sparams(r@) == seq![x@, y@, z@],
        r@.len() == 3,
{
    let mut v: Vec<S<Param<'i>>> = Vec::new();
    v.push(x);
    v.push(y);
    v.push(z);
    proof {
        assert(view_sparams(v@) =~= seq![x@, y@, z@]);
    }
    v
}

fn vec2<'i>(x: S<Param<'i>>, y: S<Param<'i>>) -> (r: Vec<S<Param<'i>>>)
    ensures
        view_sparams(r@) == seq![x@, y@],
        r@.len() == 2,
{
    let mut v: Vec<S<Param<'i>>> = Vec::new();
    v.push(x);
    v.push(y);
    proof {
        assert(view_sparams(v@) =~= seq![x@, y@]);
    }
    v
}

fn vec1<'i>(x: S<Param<'i>>) -> (r: Vec<S<Param<'i>>>)
    ensures
        view_sparams(r@) == seq![x@],
        r@.len() == 1,
{
    let mut v: Vec<S<Param<'i>>> = Vec::new();
    v.push(x);
    proof {
        assert(view_sparams(v@) =~= seq![x@]);
    }
    v
}

/// Assembles a parsed program into intcode: emission with deferred label
/// resolution, then resolution of every reference.
pub fn assemble(ast: Program<'_>) -> (r: Result<Intcode, ErrorSet>)
    ensures
        ({
            let sp = spec_assemble(ast@);
            &&& (r matches Ok(ic) ==> (sp matches Ok(p) && ic.output@ == p.0 && view_warnings(
                ic.warnings@,
            ) == p.1))
            &&& (r matches Err(es) ==> (sp matches Err(p) && view_errors(es.errors@) == p.0
                && view_warnings(es.warnings@) == p.1))
        }),
{
    let ghost sv = ast@;
    let mut stmts = ast.stmts;
    let mut out: Vec<i64> = Vec::new();
    let mut table = LabelTable::new();
    let mut errors: Vec<Error> = Vec::new();
    proof {
        assert(view_errors(errors@) =~= Seq::<DiagView>::empty());
        assert(crate::parse::grammar::view_stmts(stmts@) =~= sv);
        assert(vstd::std_specs::vec::spec_vec_len(&stmts) == stmts@.len());
    }
    let mut k: usize = 0;
    while stmts.len() > 0
        invariant
            sv.len() <= usize::MAX,
            k + stmts@.len() == sv.len(),
            crate::parse::grammar::view_stmts(stmts@) == sv.skip(k as int),
            table.wf(),
            out@ == spec_pass1(sv, k as int).output,
            table.labels() == spec_pass1(sv, k as int).labels,
            view_errors(errors@) == spec_pass1(sv, k as int).errors,
        decreases stmts@.len(),
    {
        let ghost sb = stmts@;
        let stmt = stmts.remove(0);
        let ghost stv = stmt@;
        proof {
            assert(crate::parse::grammar::view_stmts(sb)[0] == stv);
            assert(stv == sv[k as int]);
            assert forall|t: int| 0 <= t < stmts@.len() implies crate::parse::grammar::view_stmts(
                stmts@,
            )[t] == sv.skip(k + 1)[t] by {
                assert(stmts@[t] == sb[t + 1]);
                assert(crate::parse::grammar::view_stmts(sb)[t + 1] == sv.skip(k as int)[t + 1]);
            }
            assert(crate::parse::grammar::view_stmts(stmts@) =~= sv.skip(k + 1));
        }
        insert_label(&mut table, &mut errors, stmt.label, out.len());
        let S(instr, _) = stmt.instr;
        match instr {
            Instr::Add(x, y, z) => {
                let ps = vec3(x, y, z);
                emit_with_params(&mut out, &mut table, 1, &ps);
            },
            Instr::Multiply(x, y, z) => {
                let ps = vec3(x, y, z);
                emit_with_params(&mut out, &mut table, 2, &ps);
            },
            Instr::LessThan(x, y, z) => {
                let ps = vec3(x, y, z);
                emit_with_params(&mut out, &mut table, 7, &ps);
            },
            Instr::Equal(x, y, z) => {
                let ps = vec3(x, y, z);
                emit_with_params(&mut out, &mut table, 8, &ps);
            },
            Instr::JumpNonZero(x, y) => {
                let ps = vec2(x, y);
                emit_with_params(&mut out, &mut table, 5, &ps);
            },
            Instr::JumpZero(x, y) => {
                let ps = vec2(x, y);
                emit_with_params(&mut out, &mut table, 6, &ps);
            },
            Instr::Input(p) => {
                let ps = vec1(p);
                emit_with_params(&mut out, &mut table, 3, &ps);
            },
            Instr::Output(p) => {
                let ps = vec1(p);
                emit_with_params(&mut out, &mut table, 4, &ps);
            },
            Instr::AdjustRelativeBase(p) => {
                let ps = vec1(p);
                emit_with_params(&mut out, &mut table, 9, &ps);
            },
            Instr::Halt => {
                out.push(99);
            },
            Instr::Data(ds) => {
                proof {
                    assert(crate::parse::grammar::view_sraws(ds@) =~= stv.instr.val->Data_0);
                }
                emit_data(&mut out, &mut table, &ds);
            },
        }
        k = k + 1;
    }
    proof {
        assert(sv.skip(k as int) =~= Seq::<StmtV>::empty());
        assert(k == sv.len());
    }
    // Second pass: resolve every label.
    let ghost st1 = spec_pass1(sv, sv.len() as int);
    let mut warnings: Vec<Warning> = Vec::new();
    let ghost labs = table.labels();
    proof {
        assert(view_warnings(warnings@) =~= Seq::<DiagView>::empty());
    }
    let tlen = table.len();
    let mut i: usize = 0;
    while i < tlen
        invariant
            i <= tlen,
            tlen == labs.len(),
            table.wf(),
            table.labels() == labs,
            spec_pass2(
                Pass2St { output: st1.output, errors: st1.errors, warnings: Seq::empty() },
                labs,
                0,
            ) == spec_pass2(
                Pass2St {
                    output: out@,
                    errors: view_errors(errors@),
                    warnings: view_warnings(warnings@),
                },
                labs,
                i as int,
            ),
        decreases tlen - i,
    {
        let e = table.entry_at(i);
        pass2_entry(&mut out, &mut errors, &mut warnings, e);
        i = i + 1;
    }
    if errors.len() == 0 {
        Ok(Intcode { output: out, warnings })
    } else {
        Err(ErrorSet { errors, warnings })
    }
}

/// Assembles the program as a syntax tree.
pub fn to_ast(input: &str) -> (r: Result<Program<'_>, Vec<Error>>)
    ensures
        ({
            let sp = crate::parse::grammar::spec_program(input.spec_bytes());
            &&& (r matches Ok(p) ==> sp == Result::<Seq<StmtV>, Seq<DiagView>>::Ok(p@))
            &&& (r matches Err(es) ==> sp == Result::<Seq<StmtV>, Seq<DiagView>>::Err(
                view_errors(es@),
            ))
        }),
{
    crate::parse::grammar::program(input)
}

/// Assembles the program as intcode.
pub fn to_intcode(source: &str) -> (r: Result<Intcode, ErrorSet>)
    ensures
        ({
            let sp = spec_to_intcode(source.spec_bytes());
            &&& (r matches Ok(ic) ==> (sp matches Ok(p) && ic.output@ == p.0 && view_warnings(
                ic.warnings@,
            ) == p.1))
            &&& (r matches Err(es) ==> (sp matches Err(p) && view_errors(es.errors@) == p.0
                && view_warnings(es.warnings@) == p.1))
        }),
{
    match crate::parse::grammar::program(source) {
        Err(errors) => Err(ErrorSet { errors, warnings: Vec::new() }),
        Ok(prog) => assemble(prog),
    }
}

} // verus!
