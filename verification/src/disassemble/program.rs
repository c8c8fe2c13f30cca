//! The program image: one slot per word, carrying the classification marks,
//! mentions and labels the analysis accumulates.

use vstd::prelude::*;

use crate::ast::Mode;
use crate::disassemble::ast::{Ast, Instr, Label, Param, RawParam, Stmt};
use crate::disassemble::dynamically::Error;
use crate::run::opcode_sel;

verus! {

/// An instruction type.
#[derive(Debug, Clone, Copy, PartialEq, Eq, Structural)]
pub enum Opcode {
    Add,
    Multiply,
    LessThan,
    Equal,
    JumpNonZero,
    JumpZero,
    Input,
    Output,
    AdjustRelativeBase,
    Halt,
    /// An address executed with more than one opcode, or whose word no
    /// longer matches what ran: self-modifying code.
    Mutable,
}

/// A slot's classification.
#[derive(Debug, Clone, Copy, PartialEq, Eq, Structural)]
pub enum Mark {
    Opcode(Opcode),
    Param(Param),
    Str,
    Data,
}

/// Why an address was touched.
#[derive(Debug, Clone, Copy, PartialEq, Eq, Structural)]
pub enum Purpose {
    Read,
    Write,
    Jump,
}

/// A directed edge: the slot at `referrer` led the analysis to the slot this
/// mention is stored at, for the given purpose.
#[derive(Debug, Clone, Copy, PartialEq, Eq, Structural)]
pub struct Mention {
    pub purpose: Purpose,
    pub referrer: usize,
}

impl Mention {
    pub fn new(purpose: Purpose, referrer: usize) -> (r: Mention)
        ensures
            r == (Mention { purpose, referrer }),
    {
        Mention { purpose, referrer }
    }
}

/// One word of the image with everything learned about it.
#[derive(Debug, Clone, PartialEq, Eq)]
pub struct Slot {
    /// The raw value in the original program.
    pub raw: i64,
    /// An optional mark once the word's role is known.
    pub mark: Option<Mark>,
    /// How this address is mentioned from other places in the program.
    pub mentions: Vec<Mention>,
    /// An optional label once one is assigned.
    pub label: Option<Label>,
}

/// An intcode program under analysis.
#[derive(Debug)]
pub struct Program {
    pub slots: Vec<Slot>,
}

impl Mode {
    /// The mode a digit denotes.
    pub fn from_value(v: i64) -> (r: Option<Mode>)
        ensures
            r == (if v == 0 {
                Option::Some(Mode::Positional)
            } else if v == 1 {
                Option::Some(Mode::Immediate)
            } else if v == 2 {
                Option::Some(Mode::Relative)
            } else {
                Option::<Mode>::None
            }),
    {
        if v == 0 {
            Some(Mode::Positional)
        } else if v == 1 {
            Some(Mode::Immediate)
        } else if v == 2 {
            Some(Mode::Relative)
        } else {
            None
        }
    }
}

/// The opcode a selector value denotes.
pub open spec fn spec_opcode_from(v: int) -> Option<Opcode> {
    if v == 1 {
        Option::Some(Opcode::Add)
    } else if v == 2 {
        Option::Some(Opcode::Multiply)
    } else if v == 3 {
        Option::Some(Opcode::Input)
    } else if v == 4 {
        Option::Some(Opcode::Output)
    } else if v == 5 {
        Option::Some(Opcode::JumpNonZero)
    } else if v == 6 {
        Option::Some(Opcode::JumpZero)
    } else if v == 7 {
        Option::Some(Opcode::LessThan)
    } else if v == 8 {
        Option::Some(Opcode::Equal)
    } else if v == 9 {
        Option::Some(Opcode::AdjustRelativeBase)
    } else if v == 99 {
        Option::Some(Opcode::Halt)
    } else {
        Option::<Opcode>::None
    }
}

/// How many parameters an opcode takes; `Mutable` never answers this.
pub open spec fn spec_opcode_params(op: Opcode) -> int {
    match op {
        Opcode::Add => 3,
        Opcode::Multiply => 3,
        Opcode::LessThan => 3,
        Opcode::Equal => 3,
        Opcode::JumpNonZero => 2,
        Opcode::JumpZero => 2,
        Opcode::Input => 1,
        Opcode::Output => 1,
        Opcode::AdjustRelativeBase => 1,
        Opcode::Halt => 0,
        Opcode::Mutable => 0,
    }
}

/// The opcode's numeric value; `Mutable` has none.
pub open spec fn spec_opcode_value(op: Opcode) -> int {
    match op {
        Opcode::Add => 1,
        Opcode::Multiply => 2,
        Opcode::Input => 3,
        Opcode::Output => 4,
        Opcode::JumpNonZero => 5,
        Opcode::JumpZero => 6,
        Opcode::LessThan => 7,
        Opcode::Equal => 8,
        Opcode::AdjustRelativeBase => 9,
        Opcode::Halt => 99,
        Opcode::Mutable => 0,
    }
}

impl Opcode {
    pub fn from_value(v: i64) -> (r: Option<Opcode>)
        ensures
            r == spec_opcode_from(v as int),
    {
        if v == 1 {
            Some(Opcode::Add)
        } else if v == 2 {
            Some(Opcode::Multiply)
        } else if v == 3 {
            Some(Opcode::Input)
        } else if v == 4 {
            Some(Opcode::Output)
        } else if v == 5 {
            Some(Opcode::JumpNonZero)
        } else if v == 6 {
            Some(Opcode::JumpZero)
        } else if v == 7 {
            Some(Opcode::LessThan)
        } else if v == 8 {
            Some(Opcode::Equal)
        } else if v == 9 {
            Some(Opcode::AdjustRelativeBase)
        } else if v == 99 {
            Some(Opcode::Halt)
        } else {
            None
        }
    }

    /// How many parameters this opcode takes.
    pub fn params(&self) -> (r: usize)
        requires
            *self != Opcode::Mutable,
        ensures
            r == spec_opcode_params(*self),
    {
        match self {
            Opcode::Add => 3,
            Opcode::Multiply => 3,
            Opcode::LessThan => 3,
            Opcode::Equal => 3,
            Opcode::JumpNonZero => 2,
            Opcode::JumpZero => 2,
            Opcode::Input => 1,
            Opcode::Output => 1,
            Opcode::AdjustRelativeBase => 1,
            Opcode::Halt => 0,
            Opcode::Mutable => 0,
        }
    }

    /// The numeric opcode.
    pub fn value(&self) -> (r: i64)
        requires
            *self != Opcode::Mutable,
        ensures
            r == spec_opcode_value(*self),
    {
        match self {
            Opcode::Add => 1,
            Opcode::Multiply => 2,
            Opcode::Input => 3,
            Opcode::Output => 4,
            Opcode::JumpNonZero => 5,
            Opcode::JumpZero => 6,
            Opcode::LessThan => 7,
            Opcode::Equal => 8,
            Opcode::AdjustRelativeBase => 9,
            Opcode::Halt => 99,
            Opcode::Mutable => 0,
        }
    }
}

/// True when the mention list holds the mention.
pub open spec fn has_mention(ms: Seq<Mention>, m: Mention) -> bool {
    exists|i: int| 0 <= i < ms.len() && ms[i] == m
}

/// True when some mention reads or writes.
pub open spec fn has_rw(ms: Seq<Mention>) -> bool {
    exists|i: int|
        0 <= i < ms.len() && ((#[trigger] ms[i]).purpose == Purpose::Read || ms[i].purpose
            == Purpose::Write)
}

/// True when some mention jumps.
pub open spec fn has_jump(ms: Seq<Mention>) -> bool {
    exists|i: int| 0 <= i < ms.len() && (#[trigger] ms[i]).purpose == Purpose::Jump
}

/// The slot at `i` with its mark replaced; everything else keeps its place.
pub open spec fn set_mark(slots: Seq<Slot>, i: int, m: Mark) -> Seq<Slot> {
    slots.update(
        i,
        Slot {
            raw: slots[i].raw,
            mark: Option::Some(m),
            mentions: slots[i].mentions,
            label: slots[i].label,
        },
    )
}

/// A mention stays present when another is appended.
pub broadcast proof fn lemma_has_mention_push(ms: Seq<Mention>, x: Mention, m: Mention)
    ensures
        #![trigger has_mention(ms.push(x), m)]
        has_mention(ms, m) ==> has_mention(ms.push(x), m),
{
    if has_mention(ms, m) {
        let i = choose|i: int| 0 <= i < ms.len() && ms[i] == m;
        assert(ms.push(x)[i] == m);
    }
}

/// True when some mention in the list has the purpose.
pub open spec fn has_purpose(ms: Seq<Mention>, ps: Seq<Purpose>) -> bool {
    exists|i: int, j: int| 0 <= i < ms.len() && 0 <= j < ps.len() && ms[i].purpose == ps[j]
}

impl Slot {
    pub fn is_marked(&self) -> (r: bool)
        ensures
            r == (self.mark is Some),
    {
        match self.mark {
            Some(_) => true,
            None => false,
        }
    }

    pub fn is_unmarked(&self) -> (r: bool)
        ensures
            r == (self.mark is None),
    {
        match self.mark {
            Some(_) => false,
            None => true,
        }
    }

    pub fn is_unlabelled(&self) -> (r: bool)
        ensures
            r == (self.label is None),
    {
        match self.label {
            Some(_) => false,
            None => true,
        }
    }

    /// True when some mention reads or writes this slot.
    pub fn has_rw_purpose(&self) -> (r: bool)
        ensures
            r == has_rw(self.mentions@),
    {
        let n = self.mentions.len();
        let mut i: usize = 0;
        while i < n
            invariant
                i <= n,
                n == self.mentions@.len(),
                forall|j: int|
                    0 <= j < i ==> !((#[trigger] self.mentions@[j]).purpose == Purpose::Read
                        || self.mentions@[j].purpose == Purpose::Write),
            decreases n - i,
        {
            let m = self.mentions[i];
            match m.purpose {
                Purpose::Read | Purpose::Write => {
                    return true;
                },
                _ => {},
            }
            i = i + 1;
        }
        false
    }

    /// True when some mention jumps to this slot.
    pub fn has_jump_purpose(&self) -> (r: bool)
        ensures
            r == has_jump(self.mentions@),
    {
        let n = self.mentions.len();
        let mut i: usize = 0;
        while i < n
            invariant
                i <= n,
                n == self.mentions@.len(),
                forall|j: int|
                    0 <= j < i ==> (#[trigger] self.mentions@[j]).purpose != Purpose::Jump,
            decreases n - i,
        {
            let m = self.mentions[i];
            match m.purpose {
                Purpose::Jump => {
                    return true;
                },
                _ => {},
            }
            i = i + 1;
        }
        false
    }
}

/// The images have the same words at the same addresses.
pub open spec fn same_shape(a: Seq<Slot>, b: Seq<Slot>) -> bool {
    a.len() == b.len() && forall|i: int| 0 <= i < a.len() ==> a[i].raw == (#[trigger] b[i]).raw
}

/// Mentions are only ever added, never removed.
pub open spec fn mentions_grow(a: Seq<Slot>, b: Seq<Slot>) -> bool {
    forall|i: int, m: Mention|
        0 <= i < a.len() && i < b.len() && #[trigger] has_mention(a[i].mentions@, m)
            ==> has_mention(b[i].mentions@, m)
}

impl Program {
    /// Loads the image, one slot per word.
    pub fn new(intcode: Vec<i64>) -> (r: Program)
        ensures
            r.slots@.len() == intcode@.len(),
            forall|i: int|
                0 <= i < intcode@.len() ==> (#[trigger] r.slots@[i]) == (Slot {
                    raw: intcode@[i],
                    mark: Option::None,
                    mentions: r.slots@[i].mentions,
                    label: Option::None,
                }) && r.slots@[i].mentions@ == Seq::<Mention>::empty(),
    {
        let n = intcode.len();
        let mut slots: Vec<Slot> = Vec::new();
        let mut i: usize = 0;
        while i < n
            invariant
                i <= n,
                n == intcode@.len(),
                slots@.len() == i,
                forall|j: int|
                    0 <= j < i ==> (#[trigger] slots@[j]).raw == intcode@[j] && slots@[j].mark
                        is None && slots@[j].label is None && slots@[j].mentions@
                        == Seq::<Mention>::empty(),
            decreases n - i,
        {
            slots.push(Slot { raw: intcode[i], mark: None, mentions: Vec::new(), label: None });
            i = i + 1;
        }
        Program { slots }
    }

    /// The raw words, as loaded.
    pub fn original(&self) -> (r: Vec<i64>)
        ensures
            r@.len() == self.slots@.len(),
            forall|i: int| 0 <= i < r@.len() ==> r@[i] == (#[trigger] self.slots@[i]).raw,
    {
        let n = self.slots.len();
        let mut out: Vec<i64> = Vec::new();
        let mut i: usize = 0;
        while i < n
            invariant
                i <= n,
                n == self.slots@.len(),
                out@.len() == i,
                forall|j: int| 0 <= j < i ==> out@[j] == (#[trigger] self.slots@[j]).raw,
            decreases n - i,
        {
            out.push(self.slots[i].raw);
            i = i + 1;
        }
        out
    }

    /// How many words the image holds.
    pub fn len(&self) -> (r: usize)
        ensures
            r == self.slots@.len(),
    {
        self.slots.len()
    }

    /// Records a mention at `addr` (idempotent); a mention beyond the image
    /// is dropped.
    pub fn mention(&mut self, addr: usize, m: Mention)
        ensures
            final(self).slots@.len() == old(self).slots@.len(),
            forall|i: int|
                0 <= i < old(self).slots@.len() && i != addr ==> (#[trigger] final(self).slots@[i])
                    == old(self).slots@[i],
            addr < old(self).slots@.len() ==> {
                let s0 = old(self).slots@[addr as int];
                let s1 = final(self).slots@[addr as int];
                &&& s1.raw == s0.raw
                &&& s1.mark == s0.mark
                &&& s1.label == s0.label
                &&& (has_mention(s0.mentions@, m) ==> s1.mentions@ == s0.mentions@)
                &&& (!has_mention(s0.mentions@, m) ==> s1.mentions@ == s0.mentions@.push(m))
                &&& has_mention(s1.mentions@, m)
            },
    {
        if addr >= self.slots.len() {
            return;
        }
        let n = self.slots[addr].mentions.len();
        let mut i: usize = 0;
        while i < n
            invariant
                i <= n,
                addr < self.slots@.len(),
                n == self.slots@[addr as int].mentions@.len(),
                *self == *old(self),
                forall|j: int| 0 <= j < i ==> self.slots@[addr as int].mentions@[j] != m,
            decreases n - i,
        {
            if self.slots[addr].mentions[i] == m {
                proof {
                    assert(has_mention(self.slots@[addr as int].mentions@, m));
                }
                return;
            }
            i = i + 1;
        }
        let slot = vstd::std_specs::vec::vec_index_mut(&mut self.slots, addr);
        slot.mentions.push(m);
        proof {
            assert(self.slots@[addr as int].mentions@.last() == m);
            assert(has_mention(self.slots@[addr as int].mentions@, m));
        }
    }

    /// Marks `addr` with `mark` when it is unmarked or already marked the
    /// same; any other state is a conflict.
    pub fn mark(&mut self, addr: usize, mark: Mark) -> (r: Result<(), Error>)
        ensures
            final(self).slots@.len() == old(self).slots@.len(),
            forall|i: int|
                0 <= i < old(self).slots@.len() && i != addr ==> (#[trigger] final(self).slots@[i])
                    == old(self).slots@[i],
            ({
                let valid = addr < old(self).slots@.len() && (old(self).slots@[addr as int].mark is None || old(self).slots@[addr as int].mark
                    == Option::Some(mark));
                &&& (valid ==> r is Ok && addr < old(self).slots@.len() && final(self).slots@[addr as int] == (Slot {
                    raw: old(self).slots@[addr as int].raw,
                    mark: Option::Some(mark),
                    mentions: old(self).slots@[addr as int].mentions,
                    label: old(self).slots@[addr as int].label,
                }))
                &&& (!valid ==> r == Result::<(), Error>::Err(Error::MarkConflict { addr })
                    && *final(self) == *old(self))
            }),
    {
        if addr >= self.slots.len() {
            return Err(Error::MarkConflict { addr });
        }
        let same = match (&self.slots[addr].mark, &mark) {
            (None, _) => true,
            (Some(m0), m1) => mark_eq(m0, m1),
        };
        if !same {
            return Err(Error::MarkConflict { addr });
        }
        let slot = vstd::std_specs::vec::vec_index_mut(&mut self.slots, addr);
        slot.mark = Some(mark);
        Ok(())
    }

    /// Marks `addr` as an opcode: remarking with a different opcode, or
    /// marking a word whose low digits no longer match the opcode that ran,
    /// collapses to `Mutable` (self-modifying code). A non-opcode mark
    /// already in place, or an address beyond the image, is a conflict,
    /// reported as `MarkConflict` (this library fails instead of aborting).
    pub fn mark_opcode(&mut self, addr: usize, opcode: Opcode) -> (r: Result<(), Error>)
        requires
            opcode != Opcode::Mutable,
        ensures
            final(self).slots@.len() == old(self).slots@.len(),
            forall|i: int|
                0 <= i < old(self).slots@.len() && i != addr ==> (#[trigger] final(self).slots@[i])
                    == old(self).slots@[i],
            ({
                let within = addr < old(self).slots@.len();
                let s0 = old(self).slots@[addr as int];
                &&& (within ==> match s0.mark {
                    Option::Some(Mark::Opcode(o)) => r is Ok && final(self).slots@[addr as int]
                        == (Slot {
                        raw: s0.raw,
                        mark: Option::Some(
                            Mark::Opcode(
                                if o == opcode {
                                    o
                                } else {
                                    Opcode::Mutable
                                },
                            ),
                        ),
                        mentions: s0.mentions,
                        label: s0.label,
                    }),
                    Option::None => r is Ok && final(self).slots@[addr as int] == (Slot {
                        raw: s0.raw,
                        mark: Option::Some(
                            Mark::Opcode(
                                if opcode_sel(s0.raw) != spec_opcode_value(opcode) {
                                    Opcode::Mutable
                                } else {
                                    opcode
                                },
                            ),
                        ),
                        mentions: s0.mentions,
                        label: s0.label,
                    }),
                    Option::Some(_) => r == Result::<(), Error>::Err(
                        Error::MarkConflict { addr },
                    ) && *final(self) == *old(self),
                })
                &&& (!within ==> r == Result::<(), Error>::Err(Error::MarkConflict { addr })
                    && *final(self) == *old(self))
            }),
    {
        if addr >= self.slots.len() {
            return Err(Error::MarkConflict { addr });
        }
        let raw = self.slots[addr].raw;
        let new_op: Opcode = match &self.slots[addr].mark {
            Some(Mark::Opcode(o)) => {
                if opcode_eq(o, &opcode) {
                    opcode
                } else {
                    Opcode::Mutable
                }
            },
            None => {
                if crate::run::opcode_sel_x(raw) != opcode.value() {
                    Opcode::Mutable
                } else {
                    opcode
                }
            },
            Some(_) => {
                return Err(Error::MarkConflict { addr });
            },
        };
        let slot = vstd::std_specs::vec::vec_index_mut(&mut self.slots, addr);
        slot.mark = Some(Mark::Opcode(new_op));
        Ok(())
    }

    /// Marks `addr` as a parameter with the given mode; the mark holds the
    /// slot's raw value, and remarking identically is a no-op. A foreign
    /// mark, or an address beyond the image, is a conflict, reported as
    /// `MarkConflict` (this library fails instead of aborting).
    pub fn mark_param(&mut self, addr: usize, mode: Mode) -> (r: Result<(), Error>)
        ensures
            final(self).slots@.len() == old(self).slots@.len(),
            forall|i: int|
                0 <= i < old(self).slots@.len() && i != addr ==> (#[trigger] final(self).slots@[i])
                    == old(self).slots@[i],
            ({
                let within = addr < old(self).slots@.len();
                let s0 = old(self).slots@[addr as int];
                let pmark = Mark::Param(Param::Number(mode, s0.raw));
                &&& (within && (s0.mark is None || s0.mark == Option::Some(pmark)) ==> r is Ok
                    && final(self).slots@[addr as int] == (Slot {
                    raw: s0.raw,
                    mark: Option::Some(pmark),
                    mentions: s0.mentions,
                    label: s0.label,
                }))
                &&& (!(within && (s0.mark is None || s0.mark == Option::Some(pmark))) ==> r
                    == Result::<(), Error>::Err(Error::MarkConflict { addr }) && *final(self)
                    == *old(self))
            }),
    {
        if addr >= self.slots.len() {
            return Err(Error::MarkConflict { addr });
        }
        let raw = self.slots[addr].raw;
        self.mark(addr, Mark::Param(Param::Number(mode, raw)))
    }

    /// The parameter recorded at `addr`, if that is what the slot is.
    pub fn get_param(&self, addr: usize) -> (r: Option<Param>)
        ensures
            r == (if addr < self.slots@.len() && (self.slots@[addr as int].mark matches Option::Some(
                Mark::Param(_),
            )) {
                Option::Some(self.slots@[addr as int].mark->0->Param_0)
            } else {
                Option::<Param>::None
            }),
    {
        if addr >= self.slots.len() {
            return None;
        }
        match &self.slots[addr].mark {
            Some(Mark::Param(p)) => Some(*p),
            _ => None,
        }
    }
}

/// True when the two marks are the same.
fn mark_eq(a: &Mark, b: &Mark) -> (r: bool)
    ensures
        r == (*a == *b),
{
    match (a, b) {
        (Mark::Opcode(x), Mark::Opcode(y)) => opcode_eq(x, y),
        (Mark::Param(x), Mark::Param(y)) => param_eq(x, y),
        (Mark::Str, Mark::Str) => true,
        (Mark::Data, Mark::Data) => true,
        _ => false,
    }
}

/// True when the two opcodes are the same.
pub fn opcode_eq(a: &Opcode, b: &Opcode) -> (r: bool)
    ensures
        r == (*a == *b),
{
    match (a, b) {
        (Opcode::Add, Opcode::Add) => true,
        (Opcode::Multiply, Opcode::Multiply) => true,
        (Opcode::LessThan, Opcode::LessThan) => true,
        (Opcode::Equal, Opcode::Equal) => true,
        (Opcode::JumpNonZero, Opcode::JumpNonZero) => true,
        (Opcode::JumpZero, Opcode::JumpZero) => true,
        (Opcode::Input, Opcode::Input) => true,
        (Opcode::Output, Opcode::Output) => true,
        (Opcode::AdjustRelativeBase, Opcode::AdjustRelativeBase) => true,
        (Opcode::Halt, Opcode::Halt) => true,
        (Opcode::Mutable, Opcode::Mutable) => true,
        _ => false,
    }
}

/// True when the two labels are the same.
pub fn label_eq(a: &Label, b: &Label) -> (r: bool)
    ensures
        r == (*a == *b),
{
    match (a, b) {
        (Label::Underscore, Label::Underscore) => true,
        (Label::InstructionPointer, Label::InstructionPointer) => true,
        (Label::Fixed(x), Label::Fixed(y)) => x.a == y.a && x.b == y.b,
        _ => false,
    }
}

/// True when the two parameters are the same.
pub fn param_eq(a: &Param, b: &Param) -> (r: bool)
    ensures
        r == (*a == *b),
{
    match (a, b) {
        (Param::Label(m1, l1, o1), Param::Label(m2, l2, o2)) => mode_eq(m1, m2) && label_eq(l1, l2)
            && o1 == o2,
        (Param::Number(m1, v1), Param::Number(m2, v2)) => mode_eq(m1, m2) && v1 == v2,
        _ => false,
    }
}

/// True when the two modes are the same.
pub fn mode_eq(a: &Mode, b: &Mode) -> (r: bool)
    ensures
        r == (*a == *b),
{
    match (a, b) {
        (Mode::Positional, Mode::Positional) => true,
        (Mode::Immediate, Mode::Immediate) => true,
        (Mode::Relative, Mode::Relative) => true,
        _ => false,
    }
}


/// The index just past the run of parameter marks starting at `q`.
pub open spec fn param_run_end(slots: Seq<Slot>, q: int) -> int
    decreases slots.len() - q,
{
    if q < 0 || q >= slots.len() {
        q
    } else if slots[q].mark matches Option::Some(Mark::Param(_)) {
        param_run_end(slots, q + 1)
    } else {
        q
    }
}

/// The index just past the unlabelled string bucket starting at `q`.
pub open spec fn str_run_end(slots: Seq<Slot>, q: int) -> int
    decreases slots.len() - q,
{
    if q < 0 || q >= slots.len() {
        q
    } else if slots[q].mark == Option::Some(Mark::Str) && slots[q].label is None {
        str_run_end(slots, q + 1)
    } else {
        q
    }
}

/// The index just past the unlabelled data bucket starting at `q`.
pub open spec fn data_run_end(slots: Seq<Slot>, q: int) -> int
    decreases slots.len() - q,
{
    if q < 0 || q >= slots.len() {
        q
    } else if slots[q].mark == Option::Some(Mark::Data) && slots[q].label is None {
        data_run_end(slots, q + 1)
    } else {
        q
    }
}

pub proof fn lemma_run_ends_bounds(slots: Seq<Slot>, q: int)
    requires
        0 <= q <= slots.len(),
    ensures
        q <= param_run_end(slots, q) <= slots.len(),
        q <= str_run_end(slots, q) <= slots.len(),
        q <= data_run_end(slots, q) <= slots.len(),
    decreases slots.len() - q,
{
    if q < slots.len() {
        lemma_run_ends_bounds(slots, q + 1);
    }
}

/// The low byte of a texty word.
pub open spec fn crop_byte_s(v: i64) -> u8 {
    if 0 <= v <= 255 {
        v as u8
    } else {
        0
    }
}

/// The raw words of `[a, b)`.
pub open spec fn raw_words(slots: Seq<Slot>, a: int, b: int) -> Seq<i64> {
    Seq::new((b - a) as nat, |i: int| slots[a + i].raw)
}

/// The raw words of `[a, b)`, cropped to bytes.
pub open spec fn crop_words(slots: Seq<Slot>, a: int, b: int) -> Seq<u8> {
    Seq::new((b - a) as nat, |i: int| crop_byte_s(slots[a + i].raw))
}

/// The parameters recorded just after the opcode at `a`: the `arity` slots
/// from `a + 1` on must all carry parameter marks; the first that does not
/// is the conflict reported.
pub open spec fn collect_params(
    slots: Seq<Slot>,
    a: int,
    arity: int,
    k: int,
    acc: Seq<Param>,
) -> Result<Seq<Param>, Error>
    decreases arity + 1 - k,
{
    if k > arity {
        Result::Ok(acc)
    } else if 0 <= a + k < slots.len() {
        match slots[a + k].mark {
            Option::Some(Mark::Param(p)) => collect_params(slots, a, arity, k + 1, acc.push(p)),
            _ => Result::Err(Error::MarkConflict { addr: (a + k) as usize }),
        }
    } else {
        Result::Err(Error::MarkConflict { addr: (a + k) as usize })
    }
}

pub proof fn lemma_collect_params_bounds(slots: Seq<Slot>, a: int, arity: int, k: int, acc: Seq<Param>)
    requires
        1 <= k,
        collect_params(slots, a, arity, k, acc) is Ok,
    ensures
        k <= arity ==> a + arity < slots.len(),
    decreases arity + 1 - k,
{
    if k <= arity {
        match slots[a + k].mark {
            Option::Some(Mark::Param(p)) => {
                lemma_collect_params_bounds(slots, a, arity, k + 1, acc.push(p));
            },
            _ => {},
        }
    }
}

/// The instruction an opcode and its collected parameters denote; the
/// parameter count is the opcode's arity.
pub open spec fn instr_of(op: Opcode, ps: Seq<Param>) -> crate::disassemble::ast::InstrG {
    if ps.len() == 3 {
        match op {
            Opcode::Add => crate::disassemble::ast::InstrG::Add(ps[0], ps[1], ps[2]),
            Opcode::Multiply => crate::disassemble::ast::InstrG::Multiply(ps[0], ps[1], ps[2]),
            Opcode::LessThan => crate::disassemble::ast::InstrG::LessThan(ps[0], ps[1], ps[2]),
            _ => crate::disassemble::ast::InstrG::Equal(ps[0], ps[1], ps[2]),
        }
    } else if ps.len() == 2 {
        match op {
            Opcode::JumpNonZero => crate::disassemble::ast::InstrG::JumpNonZero(ps[0], ps[1]),
            _ => crate::disassemble::ast::InstrG::JumpZero(ps[0], ps[1]),
        }
    } else if ps.len() == 1 {
        match op {
            Opcode::Input => crate::disassemble::ast::InstrG::Input(ps[0]),
            Opcode::Output => crate::disassemble::ast::InstrG::Output(ps[0]),
            _ => crate::disassemble::ast::InstrG::AdjustRelativeBase(ps[0]),
        }
    } else {
        crate::disassemble::ast::InstrG::Halt
    }
}

#[via_fn]
proof fn spec_read_off_decreases(slots: Seq<Slot>, ptr: int, acc: Seq<crate::disassemble::ast::StmtG>) {
    if 0 <= ptr < slots.len() {
        lemma_run_ends_bounds(slots, ptr + 1);
        match slots[ptr].mark {
            Option::Some(Mark::Opcode(op)) => {
                if op != Opcode::Mutable && !(ptr > usize::MAX - 4) {
                    let arity = spec_opcode_params(op);
                    let got = collect_params(slots, ptr, arity, 1, Seq::empty());
                    if got is Ok {
                        lemma_collect_params_bounds(slots, ptr, arity, 1, Seq::empty());
                    }
                }
            },
            _ => {},
        }
    }
}

/// Reads the marked image off as statements, in address order: one per
/// opcode mark (a rewritten instruction takes the parameter run after it as
/// raw words), one per maximal unlabelled string or data bucket, each
/// carrying the label of its first slot. A parameter mark in statement
/// position, an unmarked slot, or a missing parameter is a conflict at that
/// address.
pub open spec fn spec_read_off(
    slots: Seq<Slot>,
    ptr: int,
    acc: Seq<crate::disassemble::ast::StmtG>,
) -> Result<Seq<crate::disassemble::ast::StmtG>, Error>
    decreases slots.len() - ptr,
    when 0 <= ptr <= slots.len()
    via spec_read_off_decreases
{
    if ptr >= slots.len() {
        Result::Ok(acc)
    } else {
        let label = slots[ptr].label;
        match slots[ptr].mark {
            Option::Some(Mark::Opcode(op)) => {
                if op == Opcode::Mutable {
                    let e = param_run_end(slots, ptr + 1);
                    spec_read_off(
                        slots,
                        e,
                        acc.push(
                            crate::disassemble::ast::StmtG {
                                label,
                                instr: crate::disassemble::ast::InstrG::Mutable(
                                    slots[ptr].raw,
                                    raw_words(slots, ptr + 1, e),
                                ),
                            },
                        ),
                    )
                } else if ptr > usize::MAX - 4 {
                    Result::Err(Error::MarkConflict { addr: ptr as usize })
                } else {
                    let arity = spec_opcode_params(op);
                    match collect_params(slots, ptr, arity, 1, Seq::empty()) {
                        Result::Err(e) => Result::Err(e),
                        Result::Ok(ps) => spec_read_off(
                            slots,
                            ptr + arity + 1,
                            acc.push(
                                crate::disassemble::ast::StmtG { label, instr: instr_of(op, ps) },
                            ),
                        ),
                    }
                }
            },
            Option::Some(Mark::Str) => {
                let e = str_run_end(slots, ptr + 1);
                spec_read_off(
                    slots,
                    e,
                    acc.push(
                        crate::disassemble::ast::StmtG {
                            label,
                            instr: crate::disassemble::ast::InstrG::Data(
                                seq![
                                    crate::disassemble::ast::RawParamG::Str(
                                        crop_words(slots, ptr, e),
                                    ),
                                ],
                            ),
                        },
                    ),
                )
            },
            Option::Some(Mark::Data) => {
                let e = data_run_end(slots, ptr + 1);
                spec_read_off(
                    slots,
                    e,
                    acc.push(
                        crate::disassemble::ast::StmtG {
                            label,
                            instr: crate::disassemble::ast::InstrG::Data(
                                Seq::new(
                                    (e - ptr) as nat,
                                    |i: int|
                                        crate::disassemble::ast::RawParamG::Number(
                                            slots[ptr + i].raw,
                                        ),
                                ),
                            ),
                        },
                    ),
                )
            },
            Option::Some(Mark::Param(_)) => Result::Err(Error::MarkConflict { addr: ptr as usize }),
            Option::None => Result::Err(Error::MarkConflict { addr: ptr as usize }),
        }
    }
}

/// The mathematical image of a statement vector.
pub open spec fn view_dstmts(v: Seq<crate::disassemble::ast::Stmt>) -> Seq<
    crate::disassemble::ast::StmtG,
> {
    Seq::new(v.len(), |i: int| v[i]@)
}

impl Program {
    /// Consumes the marked image, reading off statements in address order
    /// exactly as `spec_read_off` describes: instructions from opcode marks
    /// (self-modifying ones as raw `DB` words), strings and data from their
    /// buckets, with labels attached where they were assigned. An image
    /// whose marks do not line up fails at the first offending address.
    pub fn into_ast(self) -> (r: Result<Ast, Error>)
        ensures
            ({
                let w = spec_read_off(self.slots@, 0, Seq::empty());
                &&& (r matches Ok(ast) ==> w == Result::<
                    Seq<crate::disassemble::ast::StmtG>,
                    Error,
                >::Ok(ast@))
                &&& (r matches Err(e) ==> w == Result::<
                    Seq<crate::disassemble::ast::StmtG>,
                    Error,
                >::Err(e))
            }),
    {
        let ghost sl = self.slots@;
        let len = self.slots.len();
        let mut stmts: Vec<Stmt> = Vec::new();
        proof {
            assert(view_dstmts(stmts@) =~= Seq::<crate::disassemble::ast::StmtG>::empty());
        }
        let mut ptr: usize = 0;
        while ptr < len
            invariant
                ptr <= len,
                len == self.slots@.len(),
                sl == self.slots@,
                spec_read_off(sl, 0, Seq::empty()) == spec_read_off(
                    sl,
                    ptr as int,
                    view_dstmts(stmts@),
                ),
            decreases len - ptr,
        {
            proof {
                lemma_run_ends_bounds(sl, ptr + 1);
            }
            let ghost ptr0 = ptr as int;
            let ghost acc0 = view_dstmts(stmts@);
            let ghost mut spec_stmt: crate::disassemble::ast::StmtG = vstd::pervasive::arbitrary();
            let label = self.slots[ptr].label;
            let instr: Instr = match &self.slots[ptr].mark {
                Some(Mark::Opcode(op)) => {
                    match op {
                        Opcode::Mutable => {
                            // Collect the words of the rewritten instruction.
                            let first = self.slots[ptr].raw;
                            let mut params: Vec<i64> = Vec::new();
                            proof {
                                assert(params@ =~= raw_words(sl, ptr + 1, ptr + 1));
                            }
                            let mut q = ptr + 1;
                            while q < len && is_param_at(&self, q)
                                invariant
                                    ptr < q <= len,
                                    len == self.slots@.len(),
                                    sl == self.slots@,
                                    param_run_end(sl, ptr + 1) == param_run_end(sl, q as int),
                                    params@ == raw_words(sl, ptr + 1, q as int),
                                decreases len - q,
                            {
                                params.push(self.slots[q].raw);
                                proof {
                                    assert(params@ =~= raw_words(sl, ptr + 1, q + 1));
                                }
                                q = q + 1;
                            }
                            let built = Instr::Mutable(first, params);
                            proof {
                                assert(q as int == param_run_end(sl, ptr0 + 1));
                                spec_stmt = crate::disassemble::ast::StmtG {
                                    label: sl[ptr0].label,
                                    instr: built@,
                                };
                                assert(spec_read_off(sl, ptr0, acc0) == spec_read_off(
                                    sl,
                                    q as int,
                                    acc0.push(spec_stmt),
                                ));
                            }
                            ptr = q;
                            built
                        },
                        _ => {
                            let arity = op.params();
                            if ptr > usize::MAX - 4 {
                                return Err(Error::MarkConflict { addr: ptr });
                            }
                            let ghost opg = *op;
                            let mut ps: Vec<Param> = Vec::new();
                            let mut k: usize = 1;
                            let start = ptr;
                            while k <= arity
                                invariant
                                    1 <= k <= arity + 1,
                                    arity <= 3,
                                    opg != Opcode::Mutable,
                                    sl[start as int].mark == Option::Some(Mark::Opcode(opg)),
                                    arity == spec_opcode_params(opg),
                                    start < len,
                                    start <= usize::MAX - 4,
                                    len == self.slots@.len(),
                                    sl == self.slots@,
                                    spec_read_off(sl, 0, Seq::empty()) == spec_read_off(
                                        sl,
                                        start as int,
                                        acc0,
                                    ),
                                    ps@.len() == k - 1,
                                    k > 1 ==> start + (k - 1) < len,
                                    collect_params(sl, start as int, arity as int, 1, Seq::empty())
                                        == collect_params(
                                        sl,
                                        start as int,
                                        arity as int,
                                        k as int,
                                        ps@,
                                    ),
                                decreases arity + 1 - k,
                            {
                                match self.get_param(start + k) {
                                    Some(p) => {
                                        ps.push(p);
                                    },
                                    None => {
                                        return Err(Error::MarkConflict { addr: start + k });
                                    },
                                }
                                k = k + 1;
                            }
                            proof {
                                if arity > 0 {
                                    assert(start + arity < len);
                                }
                                assert(collect_params(sl, start as int, arity as int, 1, Seq::empty())
                                    == Result::<Seq<Param>, Error>::Ok(ps@));
                            }
                            ptr = start + arity + 1;
                            let built = if ps.len() == 3 {
                                let c = ps[2];
                                let b = ps[1];
                                let a = ps[0];
                                match op {
                                    Opcode::Add => Instr::Add(a, b, c),
                                    Opcode::Multiply => Instr::Multiply(a, b, c),
                                    Opcode::LessThan => Instr::LessThan(a, b, c),
                                    _ => Instr::Equal(a, b, c),
                                }
                            } else if ps.len() == 2 {
                                let b = ps[1];
                                let a = ps[0];
                                match op {
                                    Opcode::JumpNonZero => Instr::JumpNonZero(a, b),
                                    _ => Instr::JumpZero(a, b),
                                }
                            } else if ps.len() == 1 {
                                let a = ps[0];
                                match op {
                                    Opcode::Input => Instr::Input(a),
                                    Opcode::Output => Instr::Output(a),
                                    _ => Instr::AdjustRelativeBase(a),
                                }
                            } else {
                                Instr::Halt
                            };
                            proof {
                                assert(built@ == instr_of(sl[ptr0].mark->0->Opcode_0, ps@));
                                spec_stmt = crate::disassemble::ast::StmtG {
                                    label: sl[ptr0].label,
                                    instr: built@,
                                };
                                assert(spec_read_off(sl, ptr0, acc0) == spec_read_off(
                                    sl,
                                    ptr as int,
                                    acc0.push(spec_stmt),
                                ));
                            }
                            built
                        },
                    }
                },
                Some(Mark::Str) => {
                    // The whole unlabelled run of string-marked slots.
                    let mut bytes: Vec<u8> = Vec::new();
                    bytes.push(crop_byte(self.slots[ptr].raw));
                    proof {
                        assert(bytes@ =~= crop_words(sl, ptr as int, ptr + 1));
                    }
                    let mut q = ptr + 1;
                    while q < len && is_str_bucket_at(&self, q)
                        invariant
                            ptr < q <= len,
                            len == self.slots@.len(),
                            sl == self.slots@,
                            str_run_end(sl, ptr + 1) == str_run_end(sl, q as int),
                            bytes@ == crop_words(sl, ptr as int, q as int),
                        decreases len - q,
                    {
                        bytes.push(crop_byte(self.slots[q].raw));
                        proof {
                            assert(bytes@ =~= crop_words(sl, ptr as int, q + 1));
                        }
                        q = q + 1;
                    }
                    let mut data: Vec<RawParam> = Vec::new();
                    data.push(RawParam::Str(bytes));
                    let built = Instr::Data(data);
                    proof {
                        assert(q as int == str_run_end(sl, ptr0 + 1));
                        assert(built@ == crate::disassemble::ast::InstrG::Data(
                            seq![
                                crate::disassemble::ast::RawParamG::Str(
                                    crop_words(sl, ptr0, q as int),
                                ),
                            ],
                        )) by {
                            match built {
                                Instr::Data(ds) => {
                                    assert(Seq::new(ds@.len(), |i: int| ds@[i]@) =~= seq![
                                        crate::disassemble::ast::RawParamG::Str(
                                            crop_words(sl, ptr0, q as int),
                                        ),
                                    ]);
                                },
                                _ => {},
                            }
                        }
                        spec_stmt = crate::disassemble::ast::StmtG {
                            label: sl[ptr0].label,
                            instr: built@,
                        };
                        assert(spec_read_off(sl, ptr0, acc0) == spec_read_off(
                            sl,
                            q as int,
                            acc0.push(spec_stmt),
                        ));
                    }
                    ptr = q;
                    built
                },
                Some(Mark::Data) => {
                    let mut data: Vec<RawParam> = Vec::new();
                    data.push(RawParam::Number(self.slots[ptr].raw));
                    let mut q = ptr + 1;
                    while q < len && is_data_bucket_at(&self, q)
                        invariant
                            ptr < q <= len,
                            len == self.slots@.len(),
                            sl == self.slots@,
                            data_run_end(sl, ptr + 1) == data_run_end(sl, q as int),
                            data@.len() == q - ptr,
                            forall|i: int|
                                0 <= i < q - ptr ==> (#[trigger] data@[i])@
                                    == crate::disassemble::ast::RawParamG::Number(sl[ptr + i].raw),
                        decreases len - q,
                    {
                        data.push(RawParam::Number(self.slots[q].raw));
                        q = q + 1;
                    }
                    let built = Instr::Data(data);
                    proof {
                        assert(q as int == data_run_end(sl, ptr0 + 1));
                        assert(built@ == crate::disassemble::ast::InstrG::Data(
                            Seq::new(
                                (q - ptr0) as nat,
                                |i: int|
                                    crate::disassemble::ast::RawParamG::Number(sl[ptr0 + i].raw),
                            ),
                        )) by {
                            match built {
                                Instr::Data(ds) => {
                                    assert(Seq::new(ds@.len(), |i: int| ds@[i]@) =~= Seq::new(
                                        (q - ptr0) as nat,
                                        |i: int|
                                            crate::disassemble::ast::RawParamG::Number(
                                                sl[ptr0 + i].raw,
                                            ),
                                    ));
                                },
                                _ => {},
                            }
                        }
                        spec_stmt = crate::disassemble::ast::StmtG {
                            label: sl[ptr0].label,
                            instr: built@,
                        };
                        assert(spec_read_off(sl, ptr0, acc0) == spec_read_off(
                            sl,
                            q as int,
                            acc0.push(spec_stmt),
                        ));
                    }
                    ptr = q;
                    built
                },
                Some(Mark::Param(_)) => {
                    return Err(Error::MarkConflict { addr: ptr });
                },
                None => {
                    return Err(Error::MarkConflict { addr: ptr });
                },
            };
            stmts.push(Stmt { label, instr });
            proof {
                assert(view_dstmts(stmts@) =~= acc0.push(stmts@.last()@));
                assert(stmts@.last()@ == spec_stmt);
            }
        }
        proof {
            assert(spec_read_off(sl, 0, Seq::empty()) == Result::<
                Seq<crate::disassemble::ast::StmtG>,
                Error,
            >::Ok(view_dstmts(stmts@)));
        }
        let r = Ast { stmts };
        proof {
            assert(r@ =~= view_dstmts(r.stmts@));
        }
        Ok(r)
    }
}

/// The low byte of a texty word.
fn crop_byte(v: i64) -> (r: u8)
    ensures
        r == crop_byte_s(v),
{
    if 0 <= v && v <= 255 {
        v as u8
    } else {
        0
    }
}

/// True when the slot at `q` continues a parameter run of a rewritten
/// instruction.
fn is_param_at(p: &Program, q: usize) -> (r: bool)
    requires
        q < p.slots@.len(),
    ensures
        r == (p.slots@[q as int].mark matches Option::Some(Mark::Param(_))),
{
    match &p.slots[q].mark {
        Some(Mark::Param(_)) => true,
        _ => false,
    }
}

/// True when the slot at `q` continues an unlabelled string bucket.
fn is_str_bucket_at(p: &Program, q: usize) -> (r: bool)
    requires
        q < p.slots@.len(),
    ensures
        r == (p.slots@[q as int].mark == Option::Some(Mark::Str) && p.slots@[q as int].label
            is None),
{
    let s = &p.slots[q];
    let is_str = match &s.mark {
        Some(Mark::Str) => true,
        _ => false,
    };
    is_str && s.is_unlabelled()
}

/// True when the slot at `q` continues an unlabelled data bucket.
fn is_data_bucket_at(p: &Program, q: usize) -> (r: bool)
    requires
        q < p.slots@.len(),
    ensures
        r == (p.slots@[q as int].mark == Option::Some(Mark::Data) && p.slots@[q as int].label
            is None),
{
    let s = &p.slots[q];
    let is_data = match &s.mark {
        Some(Mark::Data) => true,
        _ => false,
    };
    is_data && s.is_unlabelled()
}

} // verus!
