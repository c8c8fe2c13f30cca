//! Format a recovered syntax tree as intcode assembly.

use vstd::prelude::*;
use vstd::string::StringSliceAdditionalSpecFns;

use crate::disassemble::ast::{Ast, Instr, Label, Param, RawParam, Stmt};
use crate::ast::Mode;
use crate::text::{dec_int, dec_nat, push_dec_i64, push_str_bytes};

verus! {

/// A label's text: `_`, `ip`, or its generated name.
pub open spec fn spec_label(l: Label) -> Seq<u8> {
    match l {
        Label::Underscore => "_".spec_bytes(),
        Label::InstructionPointer => "ip".spec_bytes(),
        Label::Fixed(n) => n.bytes(),
    }
}

/// A signed offset with an explicit sign, as `{:+}` prints it.
pub open spec fn spec_signed(v: i64) -> Seq<u8> {
    if v >= 0 {
        "+".spec_bytes() + dec_nat(v as nat)
    } else {
        dec_int(v as int)
    }
}

/// A parameter's text: `label`, `label±N`, `#…` for immediate, `rb`/`rb±N`
/// for relative, and bare numbers.
pub open spec fn spec_param(p: Param) -> Seq<u8> {
    match p {
        Param::Label(m, l, v) => match m {
            Mode::Positional => if v == 0 {
                spec_label(l)
            } else {
                spec_label(l) + spec_signed(v)
            },
            Mode::Immediate => if v == 0 {
                "#".spec_bytes() + spec_label(l)
            } else {
                "#".spec_bytes() + spec_label(l) + spec_signed(v)
            },
            Mode::Relative => if v == 0 {
                "rb".spec_bytes()
            } else {
                "rb".spec_bytes() + spec_signed(v)
            },
        },
        Param::Number(m, v) => match m {
            Mode::Positional => dec_int(v as int),
            Mode::Immediate => "#".spec_bytes() + dec_int(v as int),
            Mode::Relative => if v == 0 {
                "rb".spec_bytes()
            } else {
                "rb".spec_bytes() + spec_signed(v)
            },
        },
    }
}

/// One byte of a quoted string, with the standard escapes.
pub open spec fn spec_str_byte(b: u8) -> Seq<u8> {
    if b == 10 {
        "\\n".spec_bytes()
    } else if b == 13 {
        "\\r".spec_bytes()
    } else if b == 9 {
        "\\t".spec_bytes()
    } else if b == 92 {
        "\\\\".spec_bytes()
    } else if b == 34 {
        "\\\"".spec_bytes()
    } else {
        seq![b]
    }
}

pub open spec fn spec_str_bytes(bs: Seq<u8>, i: int) -> Seq<u8>
    decreases bs.len() - i,
{
    if i < 0 || i >= bs.len() {
        Seq::empty()
    } else {
        spec_str_byte(bs[i]) + spec_str_bytes(bs, i + 1)
    }
}

/// A raw parameter's text: labels and numbers as in instructions, strings
/// quoted with escapes.
pub open spec fn spec_raw_param(r: RawParam) -> Seq<u8> {
    match r {
        RawParam::Label(l, v) => if v == 0 {
            spec_label(l)
        } else {
            spec_label(l) + spec_signed(v)
        },
        RawParam::Number(v) => dec_int(v as int),
        RawParam::Str(bs) => "\"".spec_bytes() + spec_str_bytes(bs@, 0) + "\"".spec_bytes(),
    }
}

pub open spec fn spec_raw_params(rs: Seq<RawParam>, i: int) -> Seq<u8>
    decreases rs.len() - i,
{
    if i < 0 || i >= rs.len() {
        Seq::empty()
    } else if i == rs.len() - 1 {
        spec_raw_param(rs[i])
    } else {
        spec_raw_param(rs[i]) + ", ".spec_bytes() + spec_raw_params(rs, i + 1)
    }
}

pub open spec fn spec_words(ws: Seq<i64>, i: int) -> Seq<u8>
    decreases ws.len() - i,
{
    if i < 0 || i >= ws.len() {
        Seq::empty()
    } else if i == ws.len() - 1 {
        dec_int(ws[i] as int)
    } else {
        dec_int(ws[i] as int) + ", ".spec_bytes() + spec_words(ws, i + 1)
    }
}

/// An instruction's text: the mnemonic and its comma-separated parameters;
/// data and rewritten instructions print as `DB`.
pub open spec fn spec_instr(i: &Instr) -> Seq<u8> {
    match i {
        Instr::Add(a, b, c) => "ADD ".spec_bytes() + spec_param(*a) + ", ".spec_bytes()
            + spec_param(*b) + ", ".spec_bytes() + spec_param(*c),
        Instr::Multiply(a, b, c) => "MUL ".spec_bytes() + spec_param(*a) + ", ".spec_bytes()
            + spec_param(*b) + ", ".spec_bytes() + spec_param(*c),
        Instr::LessThan(a, b, c) => "LT ".spec_bytes() + spec_param(*a) + ", ".spec_bytes()
            + spec_param(*b) + ", ".spec_bytes() + spec_param(*c),
        Instr::Equal(a, b, c) => "EQ ".spec_bytes() + spec_param(*a) + ", ".spec_bytes()
            + spec_param(*b) + ", ".spec_bytes() + spec_param(*c),
        Instr::JumpNonZero(a, b) => "JNZ ".spec_bytes() + spec_param(*a) + ", ".spec_bytes()
            + spec_param(*b),
        Instr::JumpZero(a, b) => "JZ ".spec_bytes() + spec_param(*a) + ", ".spec_bytes()
            + spec_param(*b),
        Instr::Input(a) => "IN ".spec_bytes() + spec_param(*a),
        Instr::Output(a) => "OUT ".spec_bytes() + spec_param(*a),
        Instr::AdjustRelativeBase(a) => "ARB ".spec_bytes() + spec_param(*a),
        Instr::Halt => "HLT".spec_bytes(),
        Instr::Data(ds) => "DB ".spec_bytes() + spec_raw_params(ds@, 0),
        Instr::Mutable(v, ws) => "DB ".spec_bytes() + spec_words(seq![*v] + ws@, 0),
    }
}

/// A statement's text: the optional `label: ` prefix and the instruction.
pub open spec fn spec_stmt(s: &Stmt) -> Seq<u8> {
    match s.label {
        Option::Some(l) => spec_label(l) + ": ".spec_bytes() + spec_instr(&s.instr),
        Option::None => spec_instr(&s.instr),
    }
}

/// The whole program, one statement per line.
pub open spec fn spec_ast(stmts: Seq<Stmt>, i: int) -> Seq<u8>
    decreases stmts.len() - i,
{
    if i < 0 || i >= stmts.len() {
        Seq::empty()
    } else {
        spec_stmt(&stmts[i]) + "\n".spec_bytes() + spec_ast(stmts, i + 1)
    }
}

fn push_label(out: &mut Vec<u8>, l: Label)
    ensures
        final(out)@ == old(out)@ + spec_label(l),
{
    match l {
        Label::Underscore => {
            push_str_bytes(out, "_");
        },
        Label::InstructionPointer => {
            push_str_bytes(out, "ip");
        },
        Label::Fixed(n) => {
            out.push(n.a);
            if n.b != 0 {
                out.push(n.b);
            }
            proof {
                assert(out@ =~= old(out)@ + spec_label(Label::Fixed(n)));
            }
        },
    }
}

fn push_signed(out: &mut Vec<u8>, v: i64)
    ensures
        final(out)@ == old(out)@ + spec_signed(v),
{
    if v >= 0 {
        push_str_bytes(out, "+");
        crate::text::push_dec_u64(out, v as u64);
    } else {
        push_dec_i64(out, v);
    }
}

fn push_param(out: &mut Vec<u8>, p: Param)
    ensures
        final(out)@ == old(out)@ + spec_param(p),
{
    match p {
        Param::Label(m, l, v) => {
            match m {
                Mode::Positional => {
                    push_label(out, l);
                    if v != 0 {
                        push_signed(out, v);
                    }
                },
                Mode::Immediate => {
                    push_str_bytes(out, "#");
                    push_label(out, l);
                    if v != 0 {
                        push_signed(out, v);
                    }
                },
                Mode::Relative => {
                    push_str_bytes(out, "rb");
                    if v != 0 {
                        push_signed(out, v);
                    }
                },
            }
        },
        Param::Number(m, v) => {
            match m {
                Mode::Positional => {
                    push_dec_i64(out, v);
                },
                Mode::Immediate => {
                    push_str_bytes(out, "#");
                    push_dec_i64(out, v);
                },
                Mode::Relative => {
                    push_str_bytes(out, "rb");
                    if v != 0 {
                        push_signed(out, v);
                    }
                },
            }
        },
    }
}

fn push_quoted(out: &mut Vec<u8>, bs: &Vec<u8>)
    ensures
        final(out)@ == old(out)@ + "\"".spec_bytes() + spec_str_bytes(bs@, 0) + "\"".spec_bytes(),
{
    push_str_bytes(out, "\"");
    let n = bs.len();
    let mut i: usize = 0;
    while i < n
        invariant
            i <= n,
            n == bs@.len(),
            out@ == old(out)@ + "\"".spec_bytes() + spec_str_bytes(bs@, 0).take(
                spec_str_bytes(bs@, 0).len() - spec_str_bytes(bs@, i as int).len(),
            ),
            spec_str_bytes(bs@, i as int).len() <= spec_str_bytes(bs@, 0).len(),
        decreases n - i,
    {
        let ghost pre = spec_str_bytes(bs@, 0);
        let ghost done = pre.len() - spec_str_bytes(bs@, i as int).len();
        let b = bs[i];
        if b == 10 {
            push_str_bytes(out, "\\n");
        } else if b == 13 {
            push_str_bytes(out, "\\r");
        } else if b == 9 {
            push_str_bytes(out, "\\t");
        } else if b == 92 {
            push_str_bytes(out, "\\\\");
        } else if b == 34 {
            push_str_bytes(out, "\\\"");
        } else {
            out.push(b);
        }
        proof {
            lemma_str_bytes_prefix(bs@, i as int);
            assert(out@ =~= old(out)@ + "\"".spec_bytes() + pre.take(
                pre.len() - spec_str_bytes(bs@, i + 1).len(),
            ));
        }
        i = i + 1;
    }
    proof {
        assert(spec_str_bytes(bs@, n as int).len() == 0);
        assert(spec_str_bytes(bs@, 0).take(spec_str_bytes(bs@, 0).len() as int) =~= spec_str_bytes(
            bs@,
            0,
        ));
    }
    push_str_bytes(out, "\"");
}

/// Each formatted suffix extends the next by exactly its first byte's text.
proof fn lemma_str_bytes_prefix(bs: Seq<u8>, i: int)
    requires
        0 <= i < bs.len(),
    ensures
        spec_str_bytes(bs, i) == spec_str_byte(bs[i]) + spec_str_bytes(bs, i + 1),
        spec_str_bytes(bs, i).len() >= spec_str_bytes(bs, i + 1).len(),
        spec_str_bytes(bs, 0).take(
            spec_str_bytes(bs, 0).len() - spec_str_bytes(bs, i).len(),
        ) + spec_str_byte(bs[i]) =~= spec_str_bytes(bs, 0).take(
            spec_str_bytes(bs, 0).len() - spec_str_bytes(bs, i + 1).len(),
        ),
{
    lemma_str_bytes_suffix_all(bs, 0, i);
    lemma_str_bytes_suffix_all(bs, 0, i + 1);
    let pre = spec_str_bytes(bs, 0);
    let si = spec_str_bytes(bs, i);
    let si1 = spec_str_bytes(bs, i + 1);
    let byte = spec_str_byte(bs[i]);
    assert(si =~= byte + si1);
    let base = pre.len() - si.len();
    assert(pre.skip(base as int) =~= si);
    assert forall|k: int|
        0 <= k < pre.len() - si1.len() implies (pre.take(base as int) + byte)[k] == pre.take(
        pre.len() - si1.len(),
    )[k] by {
        if k >= base {
            assert(si[k - base] == pre.skip(base as int)[k - base]);
            assert((byte + si1)[k - base] == byte[k - base]);
        }
    }
    assert((pre.take(base as int) + byte).len() == pre.len() - si1.len());
}

/// The formatted tail at `j` is a suffix of the one at `i`.
proof fn lemma_str_bytes_suffix_all(bs: Seq<u8>, i: int, j: int)
    requires
        0 <= i <= j <= bs.len(),
    ensures
        spec_str_bytes(bs, i).len() >= spec_str_bytes(bs, j).len(),
        spec_str_bytes(bs, i).skip(
            spec_str_bytes(bs, i).len() - spec_str_bytes(bs, j).len(),
        ) =~= spec_str_bytes(bs, j),
    decreases j - i,
{
    if i < j {
        lemma_str_bytes_suffix_all(bs, i + 1, j);
        assert(spec_str_bytes(bs, i) =~= spec_str_byte(bs[i]) + spec_str_bytes(bs, i + 1));
    }
}

fn push_raw_param(out: &mut Vec<u8>, r: &RawParam)
    ensures
        final(out)@ == old(out)@ + spec_raw_param(*r),
{
    match r {
        RawParam::Label(l, v) => {
            push_label(out, *l);
            if *v != 0 {
                push_signed(out, *v);
            }
        },
        RawParam::Number(v) => {
            push_dec_i64(out, *v);
        },
        RawParam::Str(bs) => {
            push_quoted(out, bs);
        },
    }
}

fn push_raw_params(out: &mut Vec<u8>, rs: &Vec<RawParam>)
    ensures
        final(out)@ == old(out)@ + spec_raw_params(rs@, 0),
{
    let n = rs.len();
    if n == 0 {
        return ;
    }
    let mut i: usize = 0;
    while i < n
        invariant
            i <= n,
            n == rs@.len(),
            n > 0,
            spec_raw_params(rs@, 0) == out@.skip(old(out)@.len() as int) + spec_raw_params(
                rs@,
                i as int,
            ),
            out@.len() >= old(out)@.len(),
            out@.take(old(out)@.len() as int) == old(out)@,
        decreases n - i,
    {
        push_raw_param(out, &rs[i]);
        if i + 1 < n {
            push_str_bytes(out, ", ");
        }
        proof {
            assert(spec_raw_params(rs@, 0) =~= out@.skip(old(out)@.len() as int)
                + spec_raw_params(rs@, i + 1));
            assert(out@.take(old(out)@.len() as int) =~= old(out)@);
        }
        i = i + 1;
    }
    proof {
        assert(out@ =~= old(out)@ + spec_raw_params(rs@, 0));
    }
}

fn push_words(out: &mut Vec<u8>, first: i64, ws: &Vec<i64>)
    ensures
        final(out)@ == old(out)@ + spec_words(seq![first] + ws@, 0),
{
    let ghost all = seq![first] + ws@;
    push_dec_i64(out, first);
    let n = ws.len();
    let mut i: usize = 0;
    proof {
        if n > 0 {
            assert(spec_words(all, 0) =~= dec_int(first as int) + ", ".spec_bytes() + spec_words(
                all,
                1,
            ));
        } else {
            assert(spec_words(all, 0) =~= dec_int(first as int));
        }
    }
    while i < n
        invariant
            i <= n,
            n == ws@.len(),
            all == seq![first] + ws@,
            all.len() == n + 1,
            spec_words(all, 0) == out@.skip(old(out)@.len() as int) + (if i < n {
                ", ".spec_bytes() + spec_words(all, i + 1)
            } else {
                Seq::<u8>::empty()
            }),
            out@.len() >= old(out)@.len(),
            out@.take(old(out)@.len() as int) == old(out)@,
        decreases n - i,
    {
        push_str_bytes(out, ", ");
        push_dec_i64(out, ws[i]);
        proof {
            assert(all[i + 1] == ws@[i as int]);
            if i + 1 < n {
                assert(spec_words(all, i + 1) =~= dec_int(ws@[i as int] as int)
                    + ", ".spec_bytes() + spec_words(all, i + 2));
            } else {
                assert(spec_words(all, i + 1) =~= dec_int(ws@[i as int] as int));
            }
            assert(out@.take(old(out)@.len() as int) =~= old(out)@);
            assert(spec_words(all, 0) =~= out@.skip(old(out)@.len() as int) + (if i + 1 < n {
                ", ".spec_bytes() + spec_words(all, i + 2)
            } else {
                Seq::<u8>::empty()
            }));
        }
        i = i + 1;
    }
    proof {
        assert(out@ =~= old(out)@ + spec_words(all, 0));
    }
}

fn push_instr(out: &mut Vec<u8>, ins: &Instr)
    ensures
        final(out)@ == old(out)@ + spec_instr(ins),
{
    match ins {
        Instr::Add(a, b, c) => {
            push_str_bytes(out, "ADD ");
            push_param(out, *a);
            push_str_bytes(out, ", ");
            push_param(out, *b);
            push_str_bytes(out, ", ");
            push_param(out, *c);
        },
        Instr::Multiply(a, b, c) => {
            push_str_bytes(out, "MUL ");
            push_param(out, *a);
            push_str_bytes(out, ", ");
            push_param(out, *b);
            push_str_bytes(out, ", ");
            push_param(out, *c);
        },
        Instr::LessThan(a, b, c) => {
            push_str_bytes(out, "LT ");
            push_param(out, *a);
            push_str_bytes(out, ", ");
            push_param(out, *b);
            push_str_bytes(out, ", ");
            push_param(out, *c);
        },
        Instr::Equal(a, b, c) => {
            push_str_bytes(out, "EQ ");
            push_param(out, *a);
            push_str_bytes(out, ", ");
            push_param(out, *b);
            push_str_bytes(out, ", ");
            push_param(out, *c);
        },
        Instr::JumpNonZero(a, b) => {
            push_str_bytes(out, "JNZ ");
            push_param(out, *a);
            push_str_bytes(out, ", ");
            push_param(out, *b);
        },
        Instr::JumpZero(a, b) => {
            push_str_bytes(out, "JZ ");
            push_param(out, *a);
            push_str_bytes(out, ", ");
            push_param(out, *b);
        },
        Instr::Input(a) => {
            push_str_bytes(out, "IN ");
            push_param(out, *a);
        },
        Instr::Output(a) => {
            push_str_bytes(out, "OUT ");
            push_param(out, *a);
        },
        Instr::AdjustRelativeBase(a) => {
            push_str_bytes(out, "ARB ");
            push_param(out, *a);
        },
        Instr::Halt => {
            push_str_bytes(out, "HLT");
        },
        Instr::Data(ds) => {
            push_str_bytes(out, "DB ");
            push_raw_params(out, ds);
        },
        Instr::Mutable(v, ws) => {
            push_str_bytes(out, "DB ");
            push_words(out, *v, ws);
        },
    }
}

/// Formats the whole recovered program, one statement per line.
pub fn to_bytes(ast: &Ast) -> (r: Vec<u8>)
    ensures
        r@ == spec_ast(ast.stmts@, 0),
{
    let mut out: Vec<u8> = Vec::new();
    let n = ast.stmts.len();
    let mut i: usize = 0;
    while i < n
        invariant
            i <= n,
            n == ast.stmts@.len(),
            spec_ast(ast.stmts@, 0) == out@ + spec_ast(ast.stmts@, i as int),
        decreases n - i,
    {
        let st = &ast.stmts[i];
        match &st.label {
            Some(l) => {
                push_label(&mut out, *l);
                push_str_bytes(&mut out, ": ");
            },
            None => {},
        }
        push_instr(&mut out, &st.instr);
        push_str_bytes(&mut out, "\n");
        proof {
            assert(spec_ast(ast.stmts@, 0) =~= out@ + spec_ast(ast.stmts@, i + 1));
        }
        i = i + 1;
    }
    proof {
        assert(out@ =~= spec_ast(ast.stmts@, 0));
    }
    out
}

} // verus!
