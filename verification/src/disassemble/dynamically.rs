//! Dynamic marking: run the program and record what each memory location is
//! for.

use vstd::prelude::*;

use crate::ast::Mode;
use crate::disassemble::program::{
    has_mention, mentions_grow, same_shape, Mark, Mention, Opcode, Program, Purpose, Slot,
};
use crate::run::{mem_read, mem_write, mode_sel, opcode_sel, zeros};

verus! {

/// A failure of the traced execution.
#[derive(Debug, Clone, Copy, PartialEq, Eq, Structural)]
pub enum Error {
    /// A parameter carried an unrecognised mode digit.
    UnknownMode { mode: i64 },
    /// The word at the instruction pointer holds no known opcode.
    UnknownOpcode { opcode: i64 },
    /// A value would not fit as an address.
    BadConversion { num: i64 },
    /// The run needed more input than its configuration provides.
    WantInput,
    /// Two traced roles collided at one address.
    MarkConflict { addr: usize },
}

/// What a run feeds the machine when it asks for input.
#[derive(Debug, Clone, PartialEq, Eq)]
pub enum Input {
    /// A series of exact inputs.
    Static(Vec<i64>),
    /// Always provide this value.
    Forever(i64),
}

/// One traced execution's configuration.
#[derive(Debug, Clone, PartialEq, Eq)]
pub struct Run {
    pub input: Option<Input>,
}

impl Run {
    /// A run with no input.
    pub fn new() -> (r: Run)
        ensures
            r.input is None,
    {
        Run { input: None }
    }

    /// Sets the run's input.
    pub fn input(self, i: Input) -> (r: Run)
        ensures
            r.input == Option::Some(i),
    {
        Run { input: Some(i) }
    }

    /// Runs the program once with the provided input.
    pub fn once(i: Input) -> (r: Vec<Run>)
        ensures
            r@.len() == 1,
            r@[0].input == Option::Some(i),
    {
        let mut v: Vec<Run> = Vec::new();
        v.push(Run::new().input(i));
        v
    }

    /// Runs the program twice with two inputs.
    pub fn twice(a: Input, b: Input) -> (r: Vec<Run>)
        ensures
            r@.len() == 2,
            r@[0].input == Option::Some(a),
            r@[1].input == Option::Some(b),
    {
        let mut v: Vec<Run> = Vec::new();
        v.push(Run::new().input(a));
        v.push(Run::new().input(b));
        v
    }
}

/// The mathematical image of one slot.
pub struct SlotV {
    pub raw: i64,
    pub mark: Option<Mark>,
    pub mentions: Seq<Mention>,
    pub label: Option<crate::disassemble::ast::Label>,
}

/// The mathematical image of the whole program image.
pub open spec fn view_slots(slots: Seq<Slot>) -> Seq<SlotV> {
    Seq::new(
        slots.len(),
        |i: int|
            SlotV {
                raw: slots[i].raw,
                mark: slots[i].mark,
                mentions: slots[i].mentions@,
                label: slots[i].label,
            },
    )
}

/// Recording a mention (idempotent; out-of-image mentions are dropped).
pub open spec fn v_mention(sv: Seq<SlotV>, addr: int, m: Mention) -> Seq<SlotV> {
    if !(0 <= addr < sv.len()) {
        sv
    } else if has_mention(sv[addr].mentions, m) {
        sv
    } else {
        sv.update(
            addr,
            SlotV {
                raw: sv[addr].raw,
                mark: sv[addr].mark,
                mentions: sv[addr].mentions.push(m),
                label: sv[addr].label,
            },
        )
    }
}

pub open spec fn v_set_mark(sv: Seq<SlotV>, addr: int, m: Mark) -> Seq<SlotV> {
    sv.update(
        addr,
        SlotV { raw: sv[addr].raw, mark: Option::Some(m), mentions: sv[addr].mentions, label: sv[addr].label },
    )
}

/// Marking a parameter cell: the mark holds the slot's raw value; a foreign
/// mark already in place is a conflict.
pub open spec fn v_mark_param(sv: Seq<SlotV>, addr: int, mode: Mode) -> Result<Seq<SlotV>, Error> {
    if !(0 <= addr < sv.len()) {
        Result::Err(Error::MarkConflict { addr: addr as usize })
    } else {
        let pmark = Mark::Param(crate::disassemble::ast::Param::Number(mode, sv[addr].raw));
        if sv[addr].mark is None || sv[addr].mark == Option::Some(pmark) {
            Result::Ok(v_set_mark(sv, addr, pmark))
        } else {
            Result::Err(Error::MarkConflict { addr: addr as usize })
        }
    }
}

/// Marking an executed opcode: remarking with a different opcode, or a word
/// whose low digits no longer match, collapses to `Mutable`; a non-opcode
/// mark is a conflict.
pub open spec fn v_mark_opcode(sv: Seq<SlotV>, addr: int, op: Opcode) -> Result<Seq<SlotV>, Error> {
    if !(0 <= addr < sv.len()) {
        Result::Err(Error::MarkConflict { addr: addr as usize })
    } else {
        match sv[addr].mark {
            Option::Some(Mark::Opcode(o)) => Result::Ok(
                v_set_mark(
                    sv,
                    addr,
                    Mark::Opcode(
                        if o == op {
                            o
                        } else {
                            Opcode::Mutable
                        },
                    ),
                ),
            ),
            Option::None => Result::Ok(
                v_set_mark(
                    sv,
                    addr,
                    Mark::Opcode(
                        if opcode_sel(sv[addr].raw)
                            != crate::disassemble::program::spec_opcode_value(op) {
                            Opcode::Mutable
                        } else {
                            op
                        },
                    ),
                ),
            ),
            Option::Some(_) => Result::Err(Error::MarkConflict { addr: addr as usize }),
        }
    }
}

/// The traced machine's whole state: the annotated image beside the working
/// memory.
pub struct TraceV {
    pub sv: Seq<SlotV>,
    pub mem: Seq<i64>,
    pub ptr: usize,
    pub rb: i64,
    pub input: Seq<i64>,
}

pub open spec fn with_sv(t: TraceV, sv: Seq<SlotV>) -> TraceV {
    TraceV { sv, mem: t.mem, ptr: t.ptr, rb: t.rb, input: t.input }
}

/// Resolving the `k`-th parameter while marking it and mentioning the
/// resolved target (immediate parameters refer to themselves and get no
/// mention). A failure carries the marks made up to that point.
pub open spec fn t_param_ptr(t: TraceV, k: int, purpose: Purpose) -> Result<
    (Seq<SlotV>, int),
    (Error, Seq<SlotV>),
> {
    let w = mem_read(t.mem, t.ptr as int);
    let m = mode_sel(w, k);
    if t.ptr + k > usize::MAX {
        Result::Err((Error::BadConversion { num: 0 }, t.sv))
    } else {
        let pslot = t.ptr + k;
        let pw = mem_read(t.mem, pslot);
        if !(m == 0 || m == 1 || m == 2) {
            Result::Err((Error::UnknownMode { mode: m as i64 }, t.sv))
        } else {
            let mode = if m == 0 {
                Mode::Positional
            } else if m == 1 {
                Mode::Immediate
            } else {
                Mode::Relative
            };
            match v_mark_param(t.sv, pslot, mode) {
                Result::Err(e) => Result::Err((e, t.sv)),
                Result::Ok(sv1) => {
                    if m == 0 {
                        if 0 <= pw <= usize::MAX {
                            Result::Ok(
                                (v_mention(sv1, pw as int, Mention { purpose, referrer: pslot as usize }), pw as int),
                            )
                        } else {
                            Result::Err((Error::BadConversion { num: pw }, sv1))
                        }
                    } else if m == 1 {
                        Result::Ok((sv1, pslot))
                    } else {
                        let tgt = vstd::wrapping::i64_specs::wrapping_add(t.rb, pw);
                        if 0 <= tgt <= usize::MAX {
                            Result::Ok(
                                (
                                    v_mention(
                                        sv1,
                                        tgt as int,
                                        Mention { purpose, referrer: pslot as usize },
                                    ),
                                    tgt as int,
                                ),
                            )
                        } else {
                            Result::Err((Error::BadConversion { num: tgt }, sv1))
                        }
                    }
                },
            }
        }
    }
}

/// The `k`-th parameter's value, marked as a read.
pub open spec fn t_param(t: TraceV, k: int) -> Result<(Seq<SlotV>, i64), (Error, Seq<SlotV>)> {
    match t_param_ptr(t, k, Purpose::Read) {
        Result::Ok(r) => Result::Ok((r.0, mem_read(t.mem, r.1))),
        Result::Err(e) => Result::Err(e),
    }
}

/// The target of a jump's `k`-th parameter, mentioned as such.
pub open spec fn t_jump_param(t: TraceV, k: int) -> Result<(Seq<SlotV>, int), (Error, Seq<SlotV>)> {
    match t_param(t, k) {
        Result::Err(e) => Result::Err(e),
        Result::Ok(r) => {
            if 0 <= r.1 <= usize::MAX {
                if t.ptr + k <= usize::MAX {
                    Result::Ok(
                        (
                            v_mention(
                                r.0,
                                r.1 as int,
                                Mention { purpose: Purpose::Jump, referrer: (t.ptr + k) as usize },
                            ),
                            r.1 as int,
                        ),
                    )
                } else {
                    Result::Ok((r.0, r.1 as int))
                }
            } else {
                Result::Err((Error::BadConversion { num: r.1 }, r.0))
            }
        },
    }
}

/// What one traced instruction does: execution goes on (`Next`), pauses for
/// input or stops at a halt or rewritten opcode (`Pause`), or fails
/// (`Fail`). The executed address is marked as its opcode; parameters and
/// their targets are marked and mentioned as they are resolved.
pub enum TStep {
    Next(TraceV),
    Pause(TraceV),
    Fail(Error, TraceV),
}

pub open spec fn spec_trace_step(t: TraceV) -> TStep {
    let w = mem_read(t.mem, t.ptr as int);
    let opv = opcode_sel(w);
    match crate::disassemble::program::spec_opcode_from(opv) {
        Option::None => TStep::Fail(Error::UnknownOpcode { opcode: opv as i64 }, t),
        Option::Some(op) => match v_mark_opcode(t.sv, t.ptr as int, op) {
            Result::Err(e) => TStep::Fail(e, t),
            Result::Ok(sv1) => {
                let t1 = with_sv(t, sv1);
                match op {
                    Opcode::Add | Opcode::Multiply | Opcode::LessThan | Opcode::Equal => {
                        match t_param_ptr(t1, 3, Purpose::Write) {
                            Result::Err(e) => TStep::Fail(e.0, with_sv(t1, e.1)),
                            Result::Ok(w3) => {
                                let t2 = with_sv(t1, w3.0);
                                match t_param(t2, 1) {
                                    Result::Err(e) => TStep::Fail(e.0, with_sv(t2, e.1)),
                                    Result::Ok(p1) => {
                                        let t3 = with_sv(t2, p1.0);
                                        match t_param(t3, 2) {
                                            Result::Err(e) => TStep::Fail(e.0, with_sv(t3, e.1)),
                                            Result::Ok(p2) => {
                                                let val = match op {
                                                    Opcode::Add => vstd::wrapping::i64_specs::wrapping_add(p1.1, p2.1),
                                                    Opcode::Multiply => vstd::wrapping::i64_specs::wrapping_mul(p1.1, p2.1),
                                                    Opcode::LessThan => if p1.1 < p2.1 { 1i64 } else { 0i64 },
                                                    _ => if p1.1 == p2.1 { 1i64 } else { 0i64 },
                                                };
                                                TStep::Next(
                                                    TraceV {
                                                        sv: p2.0,
                                                        mem: mem_write(t.mem, w3.1, val),
                                                        ptr: vstd::wrapping::usize_specs::wrapping_add(t.ptr, 4),
                                                        rb: t.rb,
                                                        input: t.input,
                                                    },
                                                )
                                            },
                                        }
                                    },
                                }
                            },
                        }
                    },
                    Opcode::Input => {
                        if t1.input.len() == 0 {
                            TStep::Pause(t1)
                        } else {
                            let x = t1.input[0];
                            let t2 = TraceV {
                                sv: t1.sv,
                                mem: t1.mem,
                                ptr: t1.ptr,
                                rb: t1.rb,
                                input: t1.input.drop_first(),
                            };
                            match t_param_ptr(t2, 1, Purpose::Write) {
                                Result::Err(e) => TStep::Fail(e.0, with_sv(t2, e.1)),
                                Result::Ok(w1) => TStep::Next(
                                    TraceV {
                                        sv: w1.0,
                                        mem: mem_write(t2.mem, w1.1, x),
                                        ptr: vstd::wrapping::usize_specs::wrapping_add(t2.ptr, 2),
                                        rb: t2.rb,
                                        input: t2.input,
                                    },
                                ),
                            }
                        }
                    },
                    Opcode::Output => {
                        match t_param(t1, 1) {
                            Result::Err(e) => TStep::Fail(e.0, with_sv(t1, e.1)),
                            Result::Ok(p1) => TStep::Next(
                                TraceV {
                                    sv: p1.0,
                                    mem: t1.mem,
                                    ptr: vstd::wrapping::usize_specs::wrapping_add(t1.ptr, 2),
                                    rb: t1.rb,
                                    input: t1.input,
                                },
                            ),
                        }
                    },
                    Opcode::JumpNonZero | Opcode::JumpZero => {
                        match t_jump_param(t1, 2) {
                            Result::Err(e) => TStep::Fail(e.0, with_sv(t1, e.1)),
                            Result::Ok(j) => {
                                let t2 = with_sv(t1, j.0);
                                match t_param(t2, 1) {
                                    Result::Err(e) => TStep::Fail(e.0, with_sv(t2, e.1)),
                                    Result::Ok(p1) => {
                                        let taken = match op {
                                            Opcode::JumpNonZero => p1.1 != 0,
                                            _ => p1.1 == 0,
                                        };
                                        TStep::Next(
                                            TraceV {
                                                sv: p1.0,
                                                mem: t2.mem,
                                                ptr: if taken {
                                                    j.1 as usize
                                                } else {
                                                    vstd::wrapping::usize_specs::wrapping_add(t2.ptr, 3)
                                                },
                                                rb: t2.rb,
                                                input: t2.input,
                                            },
                                        )
                                    },
                                }
                            },
                        }
                    },
                    Opcode::AdjustRelativeBase => {
                        match t_param(t1, 1) {
                            Result::Err(e) => TStep::Fail(e.0, with_sv(t1, e.1)),
                            Result::Ok(p1) => TStep::Next(
                                TraceV {
                                    sv: p1.0,
                                    mem: t1.mem,
                                    ptr: vstd::wrapping::usize_specs::wrapping_add(t1.ptr, 2),
                                    rb: vstd::wrapping::i64_specs::wrapping_add(t1.rb, p1.1),
                                    input: t1.input,
                                },
                            ),
                        }
                    },
                    Opcode::Halt => TStep::Pause(t1),
                    Opcode::Mutable => TStep::Pause(t1),
                }
            },
        },
    }
}

/// Iterates continuing steps; a pause or failure stops the iteration.
pub open spec fn trace_adv(t: TraceV, n: nat) -> TraceV
    decreases n,
{
    if n == 0 {
        t
    } else {
        match spec_trace_step(t) {
            TStep::Next(t2) => trace_adv(t2, (n - 1) as nat),
            _ => t,
        }
    }
}

/// The raw words of the image.
pub open spec fn raws_of(sv: Seq<SlotV>) -> Seq<i64> {
    Seq::new(sv.len(), |i: int| sv[i].raw)
}

/// The trace a run starts from: the original words as memory, pointer and
/// relative base at zero, nothing queued.
pub open spec fn run_start(sv: Seq<SlotV>) -> TraceV {
    TraceV { sv, mem: raws_of(sv), ptr: 0, rb: 0, input: Seq::empty() }
}

/// The traced machine: the image it annotates travels beside the working
/// memory.
struct MarkVm {
    mem: Vec<i64>,
    ptr: usize,
    rb: i64,
    input: std::collections::VecDeque<i64>,
}

impl MarkVm {
    spec fn with_image(&self, sv: Seq<SlotV>) -> TraceV {
        TraceV { sv, mem: self.mem@, ptr: self.ptr, rb: self.rb, input: self.input@ }
    }
}

/// The image keeps its words, and mentions only grow.
pub open spec fn image_refined(a: Seq<Slot>, b: Seq<Slot>) -> bool {
    &&& same_shape(a, b)
    &&& mentions_grow(a, b)
    &&& forall|i: int| 0 <= i < a.len() ==> (#[trigger] a[i]).label == b[i].label
}

pub broadcast proof fn lemma_image_refined_trans(a: Seq<Slot>, b: Seq<Slot>, c: Seq<Slot>)
    ensures
        #![trigger image_refined(a, b), image_refined(b, c)]
        image_refined(a, b) && image_refined(b, c) ==> image_refined(a, c),
{
}

fn mem_get(mem: &Vec<i64>, addr: usize) -> (r: i64)
    ensures
        r == mem_read(mem@, addr as int),
{
    if addr < mem.len() {
        mem[addr]
    } else {
        0
    }
}

fn mem_set(mem: &mut Vec<i64>, addr: usize, v: i64)
    ensures
        final(mem)@ == mem_write(old(mem)@, addr as int, v),
{
    if addr < mem.len() {
        *vstd::std_specs::vec::vec_index_mut(mem, addr) = v;
    } else {
        let ghost m0 = mem@;
        while mem.len() < addr
            invariant
                m0.len() <= mem@.len() <= addr,
                mem@ == m0 + zeros((mem@.len() - m0.len()) as nat),
            decreases addr - mem@.len(),
        {
            mem.push(0);
            proof {
                assert(mem@ =~= m0 + zeros((mem@.len() - m0.len()) as nat));
            }
        }
        mem.push(v);
        proof {
            assert(mem@ =~= mem_write(m0, addr as int, v));
        }
    }
}

/// Resolves the `k`-th parameter while marking it and mentioning the
/// target, exactly as `t_param_ptr` says.
fn param_ptr(p: &mut Program, vm: &MarkVm, k: usize, purpose: Purpose) -> (r: Result<usize, Error>)
    requires
        1 <= k <= 3,
    ensures
        image_refined(old(p).slots@, final(p).slots@),
        ({
            let o = t_param_ptr(vm.with_image(view_slots(old(p).slots@)), k as int, purpose);
            &&& (r matches Ok(a) ==> (o matches Result::Ok(g) && g.1 == a && view_slots(
                final(p).slots@,
            ) == g.0))
            &&& (r matches Err(e) ==> (o matches Result::Err(g) && g.0 == e && view_slots(
                final(p).slots@,
            ) == g.1))
        }),
{
    broadcast use lemma_image_refined_trans, crate::disassemble::program::lemma_has_mention_push;

    let ghost t0 = vm.with_image(view_slots(p.slots@));
    let w = mem_get(&vm.mem, vm.ptr);
    let m = crate::run::mode_sel_x(w, k);
    if vm.ptr > usize::MAX - k {
        return Err(Error::BadConversion { num: 0 });
    }
    let pslot = vm.ptr + k;
    let pw = mem_get(&vm.mem, pslot);
    let mode = match Mode::from_value(m) {
        Some(mode) => mode,
        None => {
            return Err(Error::UnknownMode { mode: m });
        },
    };
    let ghost s0 = p.slots@;
    match p.mark_param(pslot, mode) {
        Ok(()) => {},
        Err(e) => {
            return Err(e);
        },
    }
    proof {
        assert(image_refined(s0, p.slots@));
        assert(view_slots(p.slots@) =~~= v_mark_param(view_slots(s0), pslot as int, mode)->Ok_0);
    }
    let ghost s1 = p.slots@;
    match mode {
        Mode::Positional => {
            if pw >= 0 && pw as u64 <= usize::MAX as u64 {
                let addr = pw as usize;
                p.mention(addr, Mention::new(purpose, pslot));
                proof {
                    assert(image_refined(s1, p.slots@));
                    assert(view_slots(p.slots@) =~~= v_mention(
                        view_slots(s1),
                        addr as int,
                        Mention { purpose, referrer: pslot },
                    ));
                }
                Ok(addr)
            } else {
                Err(Error::BadConversion { num: pw })
            }
        },
        Mode::Immediate => Ok(pslot),
        Mode::Relative => {
            let tgt = vm.rb.wrapping_add(pw);
            if tgt >= 0 && tgt as u64 <= usize::MAX as u64 {
                let addr = tgt as usize;
                p.mention(addr, Mention::new(purpose, pslot));
                proof {
                    assert(image_refined(s1, p.slots@));
                    assert(view_slots(p.slots@) =~~= v_mention(
                        view_slots(s1),
                        addr as int,
                        Mention { purpose, referrer: pslot },
                    ));
                }
                Ok(addr)
            } else {
                Err(Error::BadConversion { num: tgt })
            }
        },
    }
}

/// The `k`-th parameter's value, marked as a read.
fn param(p: &mut Program, vm: &MarkVm, k: usize) -> (r: Result<i64, Error>)
    requires
        1 <= k <= 3,
    ensures
        image_refined(old(p).slots@, final(p).slots@),
        ({
            let o = t_param(vm.with_image(view_slots(old(p).slots@)), k as int);
            &&& (r matches Ok(v) ==> (o matches Result::Ok(g) && g.1 == v && view_slots(
                final(p).slots@,
            ) == g.0))
            &&& (r matches Err(e) ==> (o matches Result::Err(g) && g.0 == e && view_slots(
                final(p).slots@,
            ) == g.1))
        }),
{
    match param_ptr(p, vm, k, Purpose::Read) {
        Ok(a) => Ok(mem_get(&vm.mem, a)),
        Err(e) => Err(e),
    }
}

/// The target of a jump's `k`-th parameter, mentioned as such.
fn jump_param(p: &mut Program, vm: &MarkVm, k: usize) -> (r: Result<usize, Error>)
    requires
        1 <= k <= 3,
    ensures
        image_refined(old(p).slots@, final(p).slots@),
        ({
            let o = t_jump_param(vm.with_image(view_slots(old(p).slots@)), k as int);
            &&& (r matches Ok(a) ==> (o matches Result::Ok(g) && g.1 == a && view_slots(
                final(p).slots@,
            ) == g.0))
            &&& (r matches Err(e) ==> (o matches Result::Err(g) && g.0 == e && view_slots(
                final(p).slots@,
            ) == g.1))
        }),
{
    broadcast use lemma_image_refined_trans, crate::disassemble::program::lemma_has_mention_push;

    let v = match param(p, vm, k) {
        Ok(v) => v,
        Err(e) => {
            return Err(e);
        },
    };
    if v >= 0 && v as u64 <= usize::MAX as u64 {
        let addr = v as usize;
        let ghost s1 = p.slots@;
        if vm.ptr <= usize::MAX - k {
            p.mention(addr, Mention::new(Purpose::Jump, vm.ptr + k));
            proof {
                assert(image_refined(s1, p.slots@));
                assert(view_slots(p.slots@) =~~= v_mention(
                    view_slots(s1),
                    addr as int,
                    Mention { purpose: Purpose::Jump, referrer: (vm.ptr + k) as usize },
                ));
            }
        }
        Ok(addr)
    } else {
        Err(Error::BadConversion { num: v })
    }
}

/// One traced instruction, exactly as `spec_trace_step` says; `Ok(true)`
/// means execution goes on, `Ok(false)` that it paused (for input, at a
/// halt, or at a rewritten opcode).
fn step(p: &mut Program, vm: &mut MarkVm) -> (r: Result<bool, Error>)
    ensures
        image_refined(old(p).slots@, final(p).slots@),
        ({
            let o = spec_trace_step(old(vm).with_image(view_slots(old(p).slots@)));
            &&& (r == Ok::<bool, Error>(true) ==> (o matches TStep::Next(t2) && view_slots(
                final(p).slots@,
            ) == t2.sv && final(vm).with_image(t2.sv) == t2))
            &&& (r == Ok::<bool, Error>(false) ==> (o matches TStep::Pause(t2) && view_slots(
                final(p).slots@,
            ) == t2.sv && final(vm).with_image(t2.sv) == t2))
            &&& (r matches Err(e) ==> (o matches TStep::Fail(ee, t2) && e == ee && view_slots(
                final(p).slots@,
            ) == t2.sv && final(vm).with_image(t2.sv) == t2))
        }),
{
    broadcast use lemma_image_refined_trans;

    let ghost t0 = vm.with_image(view_slots(p.slots@));
    let w = mem_get(&vm.mem, vm.ptr);
    let opv = crate::run::opcode_sel_x(w);
    let op = match Opcode::from_value(opv) {
        Some(op) => op,
        None => {
            return Err(Error::UnknownOpcode { opcode: opv });
        },
    };
    let ghost s0 = p.slots@;
    match p.mark_opcode(vm.ptr, op) {
        Ok(()) => {},
        Err(e) => {
            return Err(e);
        },
    }
    proof {
        assert(image_refined(s0, p.slots@));
        assert(view_slots(p.slots@) =~~= v_mark_opcode(view_slots(s0), vm.ptr as int, op)->Ok_0);
    }
    match op {
        Opcode::Add | Opcode::Multiply | Opcode::LessThan | Opcode::Equal => {
            let wa = match param_ptr(p, vm, 3, Purpose::Write) {
                Ok(a) => a,
                Err(e) => {
                    return Err(e);
                },
            };
            let p1 = match param(p, vm, 1) {
                Ok(v) => v,
                Err(e) => {
                    return Err(e);
                },
            };
            let p2 = match param(p, vm, 2) {
                Ok(v) => v,
                Err(e) => {
                    return Err(e);
                },
            };
            let val: i64 = match op {
                Opcode::Add => p1.wrapping_add(p2),
                Opcode::Multiply => p1.wrapping_mul(p2),
                Opcode::LessThan => {
                    if p1 < p2 {
                        1
                    } else {
                        0
                    }
                },
                _ => {
                    if p1 == p2 {
                        1
                    } else {
                        0
                    }
                },
            };
            mem_set(&mut vm.mem, wa, val);
            vm.ptr = vm.ptr.wrapping_add(4);
            Ok(true)
        },
        Opcode::Input => {
            let front = vm.input.pop_front();
            match front {
                None => Ok(false),
                Some(x) => {
                    let wa = match param_ptr(p, vm, 1, Purpose::Write) {
                        Ok(a) => a,
                        Err(e) => {
                            return Err(e);
                        },
                    };
                    mem_set(&mut vm.mem, wa, x);
                    vm.ptr = vm.ptr.wrapping_add(2);
                    Ok(true)
                },
            }
        },
        Opcode::Output => {
            let _ = match param(p, vm, 1) {
                Ok(v) => v,
                Err(e) => {
                    return Err(e);
                },
            };
            vm.ptr = vm.ptr.wrapping_add(2);
            Ok(true)
        },
        Opcode::JumpNonZero | Opcode::JumpZero => {
            let addr = match jump_param(p, vm, 2) {
                Ok(a) => a,
                Err(e) => {
                    return Err(e);
                },
            };
            let p1 = match param(p, vm, 1) {
                Ok(v) => v,
                Err(e) => {
                    return Err(e);
                },
            };
            let taken = match op {
                Opcode::JumpNonZero => p1 != 0,
                _ => p1 == 0,
            };
            if taken {
                vm.ptr = addr;
            } else {
                vm.ptr = vm.ptr.wrapping_add(3);
            }
            Ok(true)
        },
        Opcode::AdjustRelativeBase => {
            let p1 = match param(p, vm, 1) {
                Ok(v) => v,
                Err(e) => {
                    return Err(e);
                },
            };
            vm.rb = vm.rb.wrapping_add(p1);
            vm.ptr = vm.ptr.wrapping_add(2);
            Ok(true)
        },
        Opcode::Halt => Ok(false),
        Opcode::Mutable => Ok(false),
    }
}

/// A run's input policy.
pub struct CfgV {
    pub has_static: bool,
    pub static_vals: Seq<i64>,
    pub forever: Option<i64>,
}

pub open spec fn cfg_of(r: Run) -> CfgV {
    match r.input {
        Option::None => CfgV { has_static: false, static_vals: Seq::empty(), forever: Option::None },
        Option::Some(Input::Static(v)) => CfgV {
            has_static: true,
            static_vals: v@,
            forever: Option::None,
        },
        Option::Some(Input::Forever(x)) => CfgV {
            has_static: false,
            static_vals: Seq::empty(),
            forever: Option::Some(x),
        },
    }
}

/// A trace paused for input, with values fed.
pub open spec fn fed(t: TraceV, vals: Seq<i64>) -> TraceV {
    TraceV { sv: t.sv, mem: t.mem, ptr: t.ptr, rb: t.rb, input: t.input + vals }
}

/// A drive: the trace together with whether the one static feeding has been
/// spent.
pub struct Drive {
    pub t: TraceV,
    pub used: bool,
}

pub enum DriveStep {
    /// The run goes on (an instruction executed, or input was fed).
    Go(Drive),
    /// The run finished: it paused at a halt or a rewritten opcode.
    Done(TraceV),
    /// The run failed, or starved for input.
    Stop(Error, TraceV),
}

/// One step of a driven run: a continuing instruction continues; a pause at
/// an input instruction is fed as the policy says (a static list once, a
/// forever value each time, nothing otherwise — starving stops the run with
/// `WantInput`); any other pause means the run is done.
pub open spec fn spec_drive_step(d: Drive, cfg: CfgV) -> DriveStep {
    match spec_trace_step(d.t) {
        TStep::Next(t2) => DriveStep::Go(Drive { t: t2, used: d.used }),
        TStep::Fail(e, t2) => DriveStep::Stop(e, t2),
        TStep::Pause(t2) => {
            if opcode_sel(mem_read(t2.mem, t2.ptr as int)) == 3 {
                if cfg.has_static {
                    if d.used || cfg.static_vals.len() == 0 {
                        DriveStep::Stop(Error::WantInput, t2)
                    } else {
                        DriveStep::Go(Drive { t: fed(t2, cfg.static_vals), used: true })
                    }
                } else {
                    match cfg.forever {
                        Option::Some(v) => DriveStep::Go(
                            Drive { t: fed(t2, seq![v]), used: d.used },
                        ),
                        Option::None => DriveStep::Stop(Error::WantInput, t2),
                    }
                }
            } else {
                DriveStep::Done(t2)
            }
        },
    }
}

pub open spec fn drive_adv(d: Drive, cfg: CfgV, n: nat) -> Drive
    decreases n,
{
    if n == 0 {
        d
    } else {
        match spec_drive_step(d, cfg) {
            DriveStep::Go(d2) => drive_adv(d2, cfg, (n - 1) as nat),
            _ => d,
        }
    }
}

/// The whole run took exactly `n` continuing steps and then finished.
pub open spec fn run_ok(sv0: Seq<SlotV>, r: Run, n: nat) -> bool {
    let d0 = Drive { t: run_start(sv0), used: false };
    &&& (forall|m: nat| m < n ==> spec_drive_step(#[trigger] drive_adv(d0, cfg_of(r), m), cfg_of(r)) is Go)
    &&& spec_drive_step(drive_adv(d0, cfg_of(r), n), cfg_of(r)) is Done
}

/// The whole run took exactly `n` continuing steps and then failed with
/// `e`, or exhausted the step bound (then `e` is `WantInput`).
pub open spec fn run_stops(sv0: Seq<SlotV>, r: Run, n: nat, e: Error) -> bool {
    let d0 = Drive { t: run_start(sv0), used: false };
    &&& (forall|m: nat| m < n ==> spec_drive_step(#[trigger] drive_adv(d0, cfg_of(r), m), cfg_of(r)) is Go)
    &&& ((spec_drive_step(drive_adv(d0, cfg_of(r), n), cfg_of(r)) matches DriveStep::Stop(ee, _)
        && ee == e) || (e == Error::WantInput && n == u64::MAX))
}

/// The image a finished run leaves behind.
pub open spec fn run_result(sv0: Seq<SlotV>, r: Run, n: nat) -> Seq<SlotV> {
    let d0 = Drive { t: run_start(sv0), used: false };
    spec_drive_step(drive_adv(d0, cfg_of(r), n), cfg_of(r))->Done_0.sv
}

/// Every run from `k` on finished, each started from the image its
/// predecessor left, ending at `svf`.
pub open spec fn runs_done(
    sv: Seq<SlotV>,
    runs: Seq<Run>,
    ns: Seq<nat>,
    k: int,
    svf: Seq<SlotV>,
) -> bool
    decreases runs.len() - k,
{
    if k < 0 || k >= runs.len() {
        sv == svf
    } else {
        &&& run_ok(sv, runs[k], ns[k])
        &&& runs_done(run_result(sv, runs[k], ns[k]), runs, ns, k + 1, svf)
    }
}

/// Appending one finished run to a finished prefix.
proof fn lemma_runs_done_snoc(
    sv0: Seq<SlotV>,
    runs: Seq<Run>,
    ns: Seq<nat>,
    r: Run,
    n: nat,
    mid: Seq<SlotV>,
    svf: Seq<SlotV>,
)
    requires
        ns.len() == runs.len(),
        runs_done(sv0, runs, ns, 0, mid),
        run_ok(mid, r, n),
        svf == run_result(mid, r, n),
    ensures
        runs_done(sv0, runs.push(r), ns.push(n), 0, svf),
{
    lemma_runs_done_snoc_at(sv0, runs, ns, r, n, mid, svf, 0);
}

proof fn lemma_runs_done_snoc_at(
    sv0: Seq<SlotV>,
    runs: Seq<Run>,
    ns: Seq<nat>,
    r: Run,
    n: nat,
    mid: Seq<SlotV>,
    svf: Seq<SlotV>,
    k: int,
)
    requires
        ns.len() == runs.len(),
        0 <= k <= runs.len(),
        runs_done(sv0, runs, ns, k, mid),
        run_ok(mid, r, n),
        svf == run_result(mid, r, n),
    ensures
        runs_done(sv0, runs.push(r), ns.push(n), k, svf),
    decreases runs.len() - k,
{
    if k < runs.len() {
        assert(runs.push(r)[k] == runs[k]);
        assert(ns.push(n)[k] == ns[k]);
        lemma_runs_done_snoc_at(
            run_result(sv0, runs[k], ns[k]),
            runs,
            ns,
            r,
            n,
            mid,
            svf,
            k + 1,
        );
    } else {
        assert(runs.push(r)[k] == r);
        assert(ns.push(n)[k] == n);
        assert(runs_done(svf, runs.push(r), ns.push(n), k + 1, svf));
    }
}

/// Driving one step further from the end.
proof fn lemma_drive_snoc(d0: Drive, cfg: CfgV, n: nat)
    requires
        forall|m: nat| m < n ==> spec_drive_step(#[trigger] drive_adv(d0, cfg, m), cfg) is Go,
        spec_drive_step(drive_adv(d0, cfg, n), cfg) is Go,
    ensures
        drive_adv(d0, cfg, n + 1) == spec_drive_step(drive_adv(d0, cfg, n), cfg)->Go_0,
    decreases n,
{
    if n == 0 {
        reveal_with_fuel(drive_adv, 2);
    } else {
        assert(spec_drive_step(#[trigger] drive_adv(d0, cfg, 0), cfg) is Go);
        let d1 = spec_drive_step(d0, cfg)->Go_0;
        assert forall|m: nat| m < n - 1 implies spec_drive_step(
            #[trigger] drive_adv(d1, cfg, m),
            cfg,
        ) is Go by {
            assert(drive_adv(d0, cfg, m + 1) == drive_adv(d1, cfg, m));
            assert(spec_drive_step(drive_adv(d0, cfg, (m + 1) as nat), cfg) is Go);
        }
        assert(drive_adv(d0, cfg, n) == drive_adv(d1, cfg, (n - 1) as nat));
        lemma_drive_snoc(d1, cfg, (n - 1) as nat);
        assert(drive_adv(d0, cfg, n + 1) == drive_adv(d1, cfg, n));
        assert(drive_adv(d1, cfg, ((n - 1) + 1) as nat) == spec_drive_step(
            drive_adv(d1, cfg, (n - 1) as nat),
            cfg,
        )->Go_0);
    }
}

/// Drives one whole run: executes until it finishes, feeding pauses for
/// input as the configuration says. On success exhibits the step count; one
/// call drives at most 2^64 - 1 steps before reporting `WantInput` (no real
/// program reaches that bound).
fn drive_run(p: &mut Program, run: &Run) -> (r: Result<(), Error>)
    ensures
        image_refined(old(p).slots@, final(p).slots@),
        r is Ok ==> exists|n: nat|
            #![auto]
            run_ok(view_slots(old(p).slots@), *run, n) && view_slots(final(p).slots@)
                == run_result(view_slots(old(p).slots@), *run, n),
        r matches Err(e) ==> exists|n: nat| #[trigger] run_stops(view_slots(old(p).slots@), *run, n, e),
{
    broadcast use lemma_image_refined_trans;

    let ghost sv0 = view_slots(p.slots@);
    let ghost cfg = cfg_of(*run);
    let ghost d0 = Drive { t: run_start(sv0), used: false };
    let mem0 = p.original();
    let mut vm = MarkVm { mem: mem0, ptr: 0, rb: 0, input: std::collections::VecDeque::new() };
    let mut has_static = false;
    let mut static_used = false;
    let mut static_vals: Vec<i64> = Vec::new();
    let mut forever_input: Option<i64> = None;
    match run {
        Run { input: None } => {},
        Run { input: Some(Input::Forever(v)) } => {
            forever_input = Some(*v);
        },
        Run { input: Some(Input::Static(v)) } => {
            has_static = true;
            let n = v.len();
            let mut i: usize = 0;
            while i < n
                invariant
                    i <= n,
                    n == v@.len(),
                    static_vals@ == v@.take(i as int),
                decreases n - i,
            {
                static_vals.push(v[i]);
                proof {
                    assert(static_vals@ =~= v@.take(i + 1));
                }
                i = i + 1;
            }
            proof {
                assert(static_vals@ =~= v@);
            }
        },
    }
    proof {
        assert(vm.with_image(view_slots(p.slots@)) == run_start(sv0)) by {
            assert(vm.mem@ =~= raws_of(sv0));
            assert(vm.input@ =~= Seq::<i64>::empty());
        }
        assert(drive_adv(d0, cfg, 0) == d0);
    }
    let mut fuel: u64 = u64::MAX;
    loop
        invariant
            image_refined(old(p).slots@, p.slots@),
            sv0 == view_slots(old(p).slots@),
            cfg == cfg_of(*run),
            cfg.has_static == has_static,
            cfg.static_vals == static_vals@,
            cfg.forever == forever_input,
            d0 == (Drive { t: run_start(sv0), used: false }),
            exists|n: nat|
                n + fuel == u64::MAX && #[trigger] drive_adv(d0, cfg, n) == (Drive {
                    t: vm.with_image(view_slots(p.slots@)),
                    used: static_used,
                }) && (forall|m: nat|
                    m < n ==> spec_drive_step(#[trigger] drive_adv(d0, cfg, m), cfg) is Go),
        decreases fuel,
    {
        let ghost n_here = choose|n: nat|
            n + fuel == u64::MAX && #[trigger] drive_adv(d0, cfg, n) == (Drive {
                t: vm.with_image(view_slots(p.slots@)),
                used: static_used,
            }) && (forall|m: nat|
                m < n ==> spec_drive_step(#[trigger] drive_adv(d0, cfg, m), cfg) is Go);
        let ghost d_here = Drive { t: vm.with_image(view_slots(p.slots@)), used: static_used };
        if fuel == 0 {
            proof {
                assert(run_stops(sv0, *run, n_here, Error::WantInput));
            }
            return Err(Error::WantInput);
        }
        fuel = fuel - 1;
        let ghost pv_before = view_slots(p.slots@);
        let stepped = step(p, &mut vm);
        match stepped {
            Ok(true) => {
                proof {
                    assert(spec_drive_step(d_here, cfg) is Go);
                    lemma_drive_snoc(d0, cfg, n_here);
                    assert(drive_adv(d0, cfg, n_here + 1) == (Drive {
                        t: vm.with_image(view_slots(p.slots@)),
                        used: static_used,
                    }));
                    assert forall|m: nat| m < n_here + 1 implies spec_drive_step(
                        #[trigger] drive_adv(d0, cfg, m),
                        cfg,
                    ) is Go by {
                        if m == n_here {
                            assert(drive_adv(d0, cfg, m) == d_here);
                        }
                    }
                }
            },
            Ok(false) => {
                // Paused: at an input it waits; otherwise the run is done.
                let w = mem_get(&vm.mem, vm.ptr);
                let opv = crate::run::opcode_sel_x(w);
                if opv == 3 {
                    // Waiting for input: feed as the configuration says.
                    if has_static {
                        if static_used || static_vals.len() == 0 {
                            proof {
                                assert(spec_drive_step(d_here, cfg) matches DriveStep::Stop(ee, _)
                                    && ee == Error::WantInput);
                                assert(run_stops(sv0, *run, n_here, Error::WantInput));
                            }
                            return Err(Error::WantInput);
                        }
                        let n = static_vals.len();
                        let ghost inq0 = vm.input@;
                        let ghost vmem0 = vm.mem@;
                        let ghost vptr0 = vm.ptr;
                        let ghost vrb0 = vm.rb;
                        let ghost pv0 = p.slots@;
                        let mut i: usize = 0;
                        while i < n
                            invariant
                                i <= n,
                                n == static_vals@.len(),
                                vm.mem@ == vmem0,
                                vm.ptr == vptr0,
                                vm.rb == vrb0,
                                p.slots@ == pv0,
                                vm.input@ == inq0 + static_vals@.take(i as int),
                            decreases n - i,
                        {
                            vm.input.push_back(static_vals[i]);
                            proof {
                                assert(vm.input@ =~= inq0 + static_vals@.take(i + 1));
                            }
                            i = i + 1;
                        }
                        static_used = true;
                        proof {
                            assert(vm.input@ =~= inq0 + static_vals@);
                        }
                    } else {
                        match forever_input {
                            Some(v) => {
                                vm.input.push_back(v);
                            },
                            None => {
                                proof {
                                    assert(spec_drive_step(d_here, cfg)
                                        matches DriveStep::Stop(ee, _) && ee == Error::WantInput);
                                    assert(run_stops(sv0, *run, n_here, Error::WantInput));
                                }
                                return Err(Error::WantInput);
                            },
                        }
                    }
                    proof {
                        assert(spec_drive_step(d_here, cfg) is Go);
                        lemma_drive_snoc(d0, cfg, n_here);
                        assert(spec_drive_step(d_here, cfg)->Go_0 == (Drive {
                            t: vm.with_image(view_slots(p.slots@)),
                            used: static_used,
                        })) by {
                            assert(vm.input@ =~= spec_drive_step(d_here, cfg)->Go_0.t.input);
                        }
                        assert forall|m: nat| m < n_here + 1 implies spec_drive_step(
                            #[trigger] drive_adv(d0, cfg, m),
                            cfg,
                        ) is Go by {
                            if m == n_here {
                                assert(drive_adv(d0, cfg, m) == d_here);
                            }
                        }
                    }
                } else {
                    // Halted (or a rewritten opcode): the run is done.
                    proof {
                        assert(spec_drive_step(d_here, cfg) is Done);
                        assert(run_ok(sv0, *run, n_here));
                        assert(view_slots(p.slots@) == run_result(sv0, *run, n_here));
                    }
                    return Ok(());
                }
            },
            Err(e) => {
                proof {
                    assert(spec_drive_step(d_here, cfg) matches DriveStep::Stop(ee, _) && ee == e);
                    assert(run_stops(sv0, *run, n_here, e));
                }
                return Err(e);
            },
        }
    }
}

/// Dynamically marks the program by running it once per `Run`, memory reset
/// from the original image between runs; marks and mentions accumulate, the
/// words and labels never change. On success the image is exactly what the
/// traced executions leave behind: an opcode mark at every executed address
/// (collapsing to `Mutable` under self-modification), a parameter mark at
/// every resolved parameter cell, and a mention of every resolved target —
/// the `ensures` exhibits the runs' step counts. A failing or input-starved
/// run reports its error; exhausting the step bound (2^64 - 1 steps per
/// run) also reports `WantInput`.
pub fn mark(p: &mut Program, runs: Vec<Run>) -> (r: Result<(), Error>)
    ensures
        image_refined(old(p).slots@, final(p).slots@),
        r is Ok ==> exists|ns: Seq<nat>|
            ns.len() == runs@.len() && #[trigger] runs_done(
                view_slots(old(p).slots@),
                runs@,
                ns,
                0,
                view_slots(final(p).slots@),
            ),
        r matches Err(e) ==> exists|ns: Seq<nat>, j: int, svm: Seq<SlotV>, n: nat|
            {
                &&& 0 <= j < runs@.len()
                &&& ns.len() == j
                &&& #[trigger] runs_done(view_slots(old(p).slots@), runs@.take(j), ns, 0, svm)
                &&& #[trigger] run_stops(svm, runs@[j], n, e)
            },
{
    broadcast use lemma_image_refined_trans;

    let ghost sv_start = view_slots(p.slots@);
    let nruns = runs.len();
    let mut ri: usize = 0;
    let ghost mut counts: Seq<nat> = Seq::empty();
    proof {
        assert(runs@.take(0) =~= Seq::<Run>::empty());
        assert(runs_done(sv_start, runs@.take(0), counts, 0, view_slots(p.slots@)));
    }
    while ri < nruns
        invariant
            ri <= nruns,
            nruns == runs@.len(),
            image_refined(old(p).slots@, p.slots@),
            sv_start == view_slots(old(p).slots@),
            counts.len() == ri,
            runs_done(sv_start, runs@.take(ri as int), counts, 0, view_slots(p.slots@)),
        decreases nruns - ri,
    {
        let ghost mid = view_slots(p.slots@);
        let got = drive_run(p, &runs[ri]);
        match got {
            Ok(()) => {},
            Err(e) => {
                proof {
                    let n = choose|n: nat| #[trigger] run_stops(mid, runs@[ri as int], n, e);
                    assert(runs_done(sv_start, runs@.take(ri as int), counts, 0, mid));
                    assert(run_stops(mid, runs@[ri as int], n, e));
                }
                return Err(e);
            },
        }
        proof {
            let n = choose|n: nat|
                #![auto]
                run_ok(mid, runs@[ri as int], n) && view_slots(p.slots@) == run_result(
                    mid,
                    runs@[ri as int],
                    n,
                );
            lemma_runs_done_snoc(
                sv_start,
                runs@.take(ri as int),
                counts,
                runs@[ri as int],
                n,
                mid,
                view_slots(p.slots@),
            );
            counts = counts.push(n);
            assert(runs@.take(ri + 1) =~= runs@.take(ri as int).push(runs@[ri as int]));
        }
        ri = ri + 1;
    }
    proof {
        assert(runs@.take(nruns as int) =~= runs@);
    }
    Ok(())
}

} // verus!
