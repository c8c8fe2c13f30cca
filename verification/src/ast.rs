//! Abstract representation of assembly code.

use vstd::prelude::*;

use crate::span::{S, SV};

verus! {

/// A parameter mode.
#[derive(Debug, Clone, Copy, PartialEq, Eq, Structural)]
pub enum Mode {
    Positional,
    Immediate,
    Relative,
}

/// The digit a mode contributes to an opcode word.
pub open spec fn mode_value(m: Mode) -> int {
    match m {
        Mode::Positional => 0,
        Mode::Immediate => 1,
        Mode::Relative => 2,
    }
}

impl Mode {
    /// The digit this mode contributes to an opcode word.
    pub fn value(self) -> (r: i64)
        ensures
            r == mode_value(self),
    {
        match self {
            Mode::Positional => 0,
            Mode::Immediate => 1,
            Mode::Relative => 2,
        }
    }
}

/// A label specified in a parameter or in statement position.
#[derive(Debug, Clone, Copy, PartialEq, Eq)]
pub enum Label<'i> {
    /// `_`: a placeholder for a runtime value.
    Underscore,
    /// `ip`: the address just after the current instruction.
    InstructionPointer,
    /// A user-defined symbol.
    Fixed(&'i [u8]),
}

/// The mathematical image of a label.
pub enum LabelV {
    Underscore,
    InstructionPointer,
    Fixed(Seq<u8>),
}

impl<'i> View for Label<'i> {
    type V = LabelV;

    open spec fn view(&self) -> LabelV {
        match *self {
            Label::Underscore => LabelV::Underscore,
            Label::InstructionPointer => LabelV::InstructionPointer,
            Label::Fixed(name) => LabelV::Fixed(name@),
        }
    }
}

/// A string literal's contents: a slice of the input when no escape occurs in
/// the literal, an escape-processed owned buffer otherwise.
#[derive(Debug, Clone, PartialEq, Eq)]
pub enum Str<'i> {
    Borrowed(&'i [u8]),
    Owned(Vec<u8>),
}

/// The mathematical image of a string literal's contents, keeping whether it
/// borrows from the input.
pub enum StrV {
    Borrowed(Seq<u8>),
    Owned(Seq<u8>),
}

impl StrV {
    /// The contents, however they are held.
    pub open spec fn bytes(self) -> Seq<u8> {
        match self {
            StrV::Borrowed(b) => b,
            StrV::Owned(b) => b,
        }
    }
}

impl<'i> View for Str<'i> {
    type V = StrV;

    open spec fn view(&self) -> StrV {
        match self {
            Str::Borrowed(b) => StrV::Borrowed(b@),
            Str::Owned(v) => StrV::Owned(v@),
        }
    }
}

impl<'i> Str<'i> {
    /// True when the contents borrow directly from the input.
    pub fn is_borrowed(&self) -> (r: bool)
        ensures
            r == (self@ matches StrV::Borrowed(_)),
    {
        match self {
            Str::Borrowed(_) => true,
            Str::Owned(_) => false,
        }
    }

    /// The contents as bytes.
    pub fn as_bytes(&self) -> (r: &[u8])
        ensures
            r@ == self@.bytes(),
    {
        match self {
            Str::Borrowed(b) => b,
            Str::Owned(v) => v.as_slice(),
        }
    }
}

/// A raw parameter, before modes are resolved.
#[derive(Debug, Clone, PartialEq, Eq)]
pub enum RawParam<'i> {
    /// A label, optionally with an offset.
    Label(S<Label<'i>>, i64),
    /// An exact number.
    Number(i64),
    /// A string literal.
    Str(Str<'i>),
}

pub enum RawParamV {
    Label(SV<LabelV>, i64),
    Number(i64),
    Str(StrV),
}

impl<'i> View for RawParam<'i> {
    type V = RawParamV;

    open spec fn view(&self) -> RawParamV {
        match self {
            RawParam::Label(l, off) => RawParamV::Label(l@, *off),
            RawParam::Number(v) => RawParamV::Number(*v),
            RawParam::Str(s) => RawParamV::Str(s@),
        }
    }
}

/// A parameter in an instruction.
#[derive(Debug, Clone, Copy, PartialEq, Eq)]
pub enum Param<'i> {
    /// A label, optionally with an offset.
    Label(Mode, S<Label<'i>>, i64),
    /// An exact number.
    Number(Mode, i64),
}

pub enum ParamV {
    Label(Mode, SV<LabelV>, i64),
    Number(Mode, i64),
}

impl<'i> View for Param<'i> {
    type V = ParamV;

    open spec fn view(&self) -> ParamV {
        match self {
            Param::Label(m, l, off) => ParamV::Label(*m, l@, *off),
            Param::Number(m, v) => ParamV::Number(*m, *v),
        }
    }
}

/// An instruction, or the `DB` pseudo-instruction placing raw data.
#[derive(Debug, Clone, PartialEq, Eq)]
pub enum Instr<'i> {
    /// Adds two parameters together.
    Add(S<Param<'i>>, S<Param<'i>>, S<Param<'i>>),
    /// Multiplies two parameters together.
    Multiply(S<Param<'i>>, S<Param<'i>>, S<Param<'i>>),
    /// Compares two parameters.
    LessThan(S<Param<'i>>, S<Param<'i>>, S<Param<'i>>),
    /// Checks if two parameters are equal.
    Equal(S<Param<'i>>, S<Param<'i>>, S<Param<'i>>),
    /// Moves the instruction pointer if the first parameter is non-zero.
    JumpNonZero(S<Param<'i>>, S<Param<'i>>),
    /// Moves the instruction pointer if the first parameter is zero.
    JumpZero(S<Param<'i>>, S<Param<'i>>),
    /// Fetches external data.
    Input(S<Param<'i>>),
    /// Outputs external data.
    Output(S<Param<'i>>),
    /// Adjusts the relative base by the given amount.
    AdjustRelativeBase(S<Param<'i>>),
    /// Halts the program.
    Halt,
    /// Places raw data in the program.
    Data(Vec<S<RawParam<'i>>>),
}

pub enum InstrV {
    Add(SV<ParamV>, SV<ParamV>, SV<ParamV>),
    Multiply(SV<ParamV>, SV<ParamV>, SV<ParamV>),
    LessThan(SV<ParamV>, SV<ParamV>, SV<ParamV>),
    Equal(SV<ParamV>, SV<ParamV>, SV<ParamV>),
    JumpNonZero(SV<ParamV>, SV<ParamV>),
    JumpZero(SV<ParamV>, SV<ParamV>),
    Input(SV<ParamV>),
    Output(SV<ParamV>),
    AdjustRelativeBase(SV<ParamV>),
    Halt,
    Data(Seq<SV<RawParamV>>),
}

impl<'i> View for Instr<'i> {
    type V = InstrV;

    open spec fn view(&self) -> InstrV {
        match self {
            Instr::Add(x, y, z) => InstrV::Add(x@, y@, z@),
            Instr::Multiply(x, y, z) => InstrV::Multiply(x@, y@, z@),
            Instr::LessThan(x, y, z) => InstrV::LessThan(x@, y@, z@),
            Instr::Equal(x, y, z) => InstrV::Equal(x@, y@, z@),
            Instr::JumpNonZero(x, y) => InstrV::JumpNonZero(x@, y@),
            Instr::JumpZero(x, y) => InstrV::JumpZero(x@, y@),
            Instr::Input(p) => InstrV::Input(p@),
            Instr::Output(p) => InstrV::Output(p@),
            Instr::AdjustRelativeBase(p) => InstrV::AdjustRelativeBase(p@),
            Instr::Halt => InstrV::Halt,
            Instr::Data(d) => InstrV::Data(Seq::new(d@.len(), |i: int| d@[i]@)),
        }
    }
}

/// The opcode of an instruction; `Data` has none and is never asked for one.
pub open spec fn opcode_of(i: InstrV) -> int {
    match i {
        InstrV::Add(..) => 1,
        InstrV::Multiply(..) => 2,
        InstrV::Input(..) => 3,
        InstrV::Output(..) => 4,
        InstrV::JumpNonZero(..) => 5,
        InstrV::JumpZero(..) => 6,
        InstrV::LessThan(..) => 7,
        InstrV::Equal(..) => 8,
        InstrV::AdjustRelativeBase(..) => 9,
        InstrV::Halt => 99,
        InstrV::Data(..) => 0,
    }
}

impl<'i> Instr<'i> {
    /// The opcode this instruction assembles to.
    pub fn opcode(&self) -> (r: i64)
        ensures
            r == opcode_of(self@),
    {
        match self {
            Instr::Add(..) => 1,
            Instr::Multiply(..) => 2,
            Instr::Input(..) => 3,
            Instr::Output(..) => 4,
            Instr::JumpNonZero(..) => 5,
            Instr::JumpZero(..) => 6,
            Instr::LessThan(..) => 7,
            Instr::Equal(..) => 8,
            Instr::AdjustRelativeBase(..) => 9,
            Instr::Halt => 99,
            Instr::Data(..) => 0,
        }
    }
}

/// A single line in a program: an instruction with an optional label.
#[derive(Debug, Clone, PartialEq, Eq)]
pub struct Stmt<'i> {
    pub label: Option<S<Label<'i>>>,
    pub instr: S<Instr<'i>>,
}

pub struct StmtV {
    pub label: Option<SV<LabelV>>,
    pub instr: SV<InstrV>,
}

impl<'i> View for Stmt<'i> {
    type V = StmtV;

    open spec fn view(&self) -> StmtV {
        StmtV {
            label: match self.label {
                Option::Some(l) => Option::Some(l@),
                Option::None => Option::None,
            },
            instr: self.instr@,
        }
    }
}

/// An entire program.
#[derive(Debug, Clone, PartialEq, Eq)]
pub struct Program<'i> {
    pub stmts: Vec<Stmt<'i>>,
}

impl<'i> View for Program<'i> {
    type V = Seq<StmtV>;

    open spec fn view(&self) -> Seq<StmtV> {
        Seq::new(self.stmts@.len(), |i: int| self.stmts@[i]@)
    }
}

} // verus!
