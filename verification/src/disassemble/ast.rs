//! Abstract representation of disassembled code, owned outright.

use vstd::prelude::*;

use crate::ast::Mode;

verus! {

/// A generated label name: one lowercase letter, optionally followed by a
/// digit (the second byte is 0 when absent).
#[derive(Debug, Clone, Copy, PartialEq, Eq, Structural)]
pub struct LabelName {
    pub a: u8,
    pub b: u8,
}

impl LabelName {
    /// The name's bytes.
    pub open spec fn bytes(self) -> Seq<u8> {
        if self.b == 0 {
            seq![self.a]
        } else {
            seq![self.a, self.b]
        }
    }
}

/// A label attached to a slot or written in a parameter.
#[derive(Debug, Clone, Copy, PartialEq, Eq, Structural)]
pub enum Label {
    Underscore,
    InstructionPointer,
    Fixed(LabelName),
}

/// A parameter in a recovered instruction.
#[derive(Debug, Clone, Copy, PartialEq, Eq, Structural)]
pub enum Param {
    /// A label, optionally with an offset.
    Label(Mode, Label, i64),
    /// An exact number.
    Number(Mode, i64),
}

/// A raw parameter in recovered data.
#[derive(Debug, Clone, PartialEq, Eq)]
pub enum RawParam {
    /// A label, optionally with an offset.
    Label(Label, i64),
    /// An exact number.
    Number(i64),
    /// A string literal's bytes.
    Str(Vec<u8>),
}

/// A recovered instruction.
#[derive(Debug, Clone, PartialEq, Eq)]
pub enum Instr {
    Add(Param, Param, Param),
    Multiply(Param, Param, Param),
    LessThan(Param, Param, Param),
    Equal(Param, Param, Param),
    JumpNonZero(Param, Param),
    JumpZero(Param, Param),
    Input(Param),
    Output(Param),
    AdjustRelativeBase(Param),
    Halt,
    /// Raw data placed with `DB`.
    Data(Vec<RawParam>),
    /// An instruction the program rewrites while running: the opcode word and
    /// the words that follow it.
    Mutable(i64, Vec<i64>),
}

/// A single recovered line: an instruction with an optional label.
#[derive(Debug, Clone, PartialEq, Eq)]
pub struct Stmt {
    pub label: Option<Label>,
    pub instr: Instr,
}

/// A whole recovered program.
#[derive(Debug, Clone, PartialEq, Eq)]
pub struct Ast {
    pub stmts: Vec<Stmt>,
}


/// The mathematical image of a raw datum.
pub enum RawParamG {
    Label(Label, i64),
    Number(i64),
    Str(Seq<u8>),
}

/// The mathematical image of a recovered instruction.
pub enum InstrG {
    Add(Param, Param, Param),
    Multiply(Param, Param, Param),
    LessThan(Param, Param, Param),
    Equal(Param, Param, Param),
    JumpNonZero(Param, Param),
    JumpZero(Param, Param),
    Input(Param),
    Output(Param),
    AdjustRelativeBase(Param),
    Halt,
    Data(Seq<RawParamG>),
    Mutable(i64, Seq<i64>),
}

/// The mathematical image of a recovered line.
pub struct StmtG {
    pub label: Option<Label>,
    pub instr: InstrG,
}

impl View for RawParam {
    type V = RawParamG;

    open spec fn view(&self) -> RawParamG {
        match self {
            RawParam::Label(l, off) => RawParamG::Label(*l, *off),
            RawParam::Number(v) => RawParamG::Number(*v),
            RawParam::Str(bs) => RawParamG::Str(bs@),
        }
    }
}

impl View for Instr {
    type V = InstrG;

    open spec fn view(&self) -> InstrG {
        match self {
            Instr::Add(a, b, c) => InstrG::Add(*a, *b, *c),
            Instr::Multiply(a, b, c) => InstrG::Multiply(*a, *b, *c),
            Instr::LessThan(a, b, c) => InstrG::LessThan(*a, *b, *c),
            Instr::Equal(a, b, c) => InstrG::Equal(*a, *b, *c),
            Instr::JumpNonZero(a, b) => InstrG::JumpNonZero(*a, *b),
            Instr::JumpZero(a, b) => InstrG::JumpZero(*a, *b),
            Instr::Input(a) => InstrG::Input(*a),
            Instr::Output(a) => InstrG::Output(*a),
            Instr::AdjustRelativeBase(a) => InstrG::AdjustRelativeBase(*a),
            Instr::Halt => InstrG::Halt,
            Instr::Data(ds) => InstrG::Data(Seq::new(ds@.len(), |i: int| ds@[i]@)),
            Instr::Mutable(v, ws) => InstrG::Mutable(*v, ws@),
        }
    }
}

impl View for Stmt {
    type V = StmtG;

    open spec fn view(&self) -> StmtG {
        StmtG { label: self.label, instr: self.instr@ }
    }
}

impl View for Ast {
    type V = Seq<StmtG>;

    open spec fn view(&self) -> Seq<StmtG> {
        Seq::new(self.stmts@.len(), |i: int| self.stmts@[i]@)
    }
}

} // verus!
