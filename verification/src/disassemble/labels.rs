//! Naming the addresses the program mentions.

use vstd::prelude::*;

use crate::disassemble::ast::{Label, LabelName, Param};
use crate::disassemble::program::{label_eq, set_mark, Mark, Mention, Program, Slot};

verus! {

/// The letter of the `n`-th name: `a..k, m..z`, with `l` skipped (it reads
/// like `1`).
pub open spec fn single_letter(i: int) -> u8 {
    if i < 11 {
        (97 + i) as u8
    } else {
        (98 + i) as u8
    }
}

/// The `n`-th generated name: the 25 single letters `a..k, m..z`, then
/// letter-digit pairs (`a0`, `a1`, ..., `z9`, with `l` skipped again).
pub open spec fn nth_label(n: int) -> LabelName {
    if n < 25 {
        LabelName { a: single_letter(n), b: 0 }
    } else {
        let j = (n - 25) / 10;
        let d = (n - 25) % 10;
        LabelName { a: single_letter(j), b: (48 + d) as u8 }
    }
}

/// The well holds 275 names in all.
pub open spec fn label_well_size() -> int {
    275
}

/// A well of fresh label names, handed out in a fixed order.
#[derive(Debug, Clone, PartialEq, Eq)]
pub struct LabelSeq {
    pub next: usize,
}

/// A sequence of unique labels to use when labeling instructions.
pub fn unique() -> (r: LabelSeq)
    ensures
        r.next == 0,
{
    LabelSeq { next: 0 }
}

impl LabelSeq {
    /// The next fresh name.
    pub fn next_name(&mut self) -> (r: LabelName)
        requires
            old(self).next < label_well_size(),
        ensures
            r == nth_label(old(self).next as int),
            final(self).next == old(self).next + 1,
    {
        let n = self.next;
        self.next = self.next + 1;
        if n < 25 {
            let a: u8 = if n < 11 {
                (97 + n) as u8
            } else {
                (98 + n) as u8
            };
            LabelName { a, b: 0 }
        } else {
            let j = (n - 25) / 10;
            let d = (n - 25) % 10;
            let a: u8 = if j < 11 {
                (97 + j) as u8
            } else {
                (98 + j) as u8
            };
            LabelName { a, b: (48 + d) as u8 }
        }
    }
}

/// The slot at `i` with a label attached; everything else keeps its place.
pub open spec fn set_label(slots: Seq<Slot>, i: int, l: Label) -> Seq<Slot> {
    slots.update(
        i,
        Slot {
            raw: slots[i].raw,
            mark: slots[i].mark,
            mentions: slots[i].mentions,
            label: Option::Some(l),
        },
    )
}

/// What rewriting the parameter mark at `addr` into a label reference does:
/// a number parameter takes the label with the offset, keeping its mode; a
/// label parameter is rewritten unless it already carries exactly this label
/// and offset; anything else is left alone.
pub open spec fn spec_label_param(slots: Seq<Slot>, addr: int, label: Label, offset: i64) -> Seq<
    Slot,
> {
    if !(0 <= addr < slots.len()) {
        slots
    } else {
        match slots[addr].mark {
            Option::Some(Mark::Param(Param::Label(m, l, o))) => {
                if l == label && o == offset {
                    slots
                } else {
                    set_mark(slots, addr, Mark::Param(Param::Label(m, label, offset)))
                }
            },
            Option::Some(Mark::Param(Param::Number(m, _))) => set_mark(
                slots,
                addr,
                Mark::Param(Param::Label(m, label, offset)),
            ),
            _ => slots,
        }
    }
}

pub open spec fn spec_label_params(
    slots: Seq<Slot>,
    refs: Seq<Mention>,
    label: Label,
    offset: i64,
    k: int,
) -> Seq<Slot>
    decreases refs.len() - k,
{
    if k < 0 || k >= refs.len() {
        slots
    } else {
        spec_label_params(
            spec_label_param(slots, refs[k].referrer as int, label, offset),
            refs,
            label,
            offset,
            k + 1,
        )
    }
}

/// The label at `addr`, the next counter value, and the label handed back:
/// an existing label is reused, otherwise the next fresh name is attached.
pub open spec fn spec_get_or_set(slots: Seq<Slot>, next: int, addr: int) -> (Seq<Slot>, int, Label) {
    match slots[addr].label {
        Option::Some(l) => (slots, next, l),
        Option::None => (
            set_label(slots, addr, Label::Fixed(nth_label(next))),
            next + 1,
            Label::Fixed(nth_label(next)),
        ),
    }
}

/// The address of the closest opcode mark strictly below `a`, or -1.
pub open spec fn spec_instr_addr(slots: Seq<Slot>, a: int) -> int
    decreases a,
{
    if a <= 0 {
        -1
    } else if slots[a - 1].mark matches Option::Some(Mark::Opcode(_)) {
        a - 1
    } else {
        spec_instr_addr(slots, a - 1)
    }
}

pub proof fn lemma_instr_addr_bounds(slots: Seq<Slot>, a: int)
    ensures
        -1 <= spec_instr_addr(slots, a) < a || (a <= 0 && spec_instr_addr(slots, a) == -1),
    decreases a,
{
    if a > 0 && !(slots[a - 1].mark matches Option::Some(Mark::Opcode(_))) {
        lemma_instr_addr_bounds(slots, a - 1);
    }
}

/// The start of the string that covers `a`: the lowest address from which
/// every slot up to `a` is marked as string.
pub open spec fn spec_string_addr(slots: Seq<Slot>, a: int) -> int
    decreases a,
{
    if a <= 0 {
        0
    } else if slots[a - 1].mark == Option::Some(Mark::Str) {
        spec_string_addr(slots, a - 1)
    } else {
        a
    }
}

pub proof fn lemma_string_addr_bounds(slots: Seq<Slot>, a: int)
    requires
        0 <= a,
    ensures
        0 <= spec_string_addr(slots, a) <= a,
    decreases a,
{
    if a > 0 && slots[a - 1].mark == Option::Some(Mark::Str) {
        lemma_string_addr_bounds(slots, a - 1);
    }
}

/// The mentions of `addr` whose referring word holds `addr` itself.
pub open spec fn filtered_refs(slots: Seq<Slot>, addr: int, ms: Seq<Mention>, k: int) -> Seq<
    Mention,
>
    decreases ms.len() - k,
{
    if k < 0 || k >= ms.len() {
        Seq::empty()
    } else {
        (if ms[k].referrer < slots.len() && slots[ms[k].referrer as int].raw == addr {
            seq![ms[k]]
        } else {
            Seq::empty()
        }) + filtered_refs(slots, addr, ms, k + 1)
    }
}

/// Every filtered reference's referrer lies inside the image.
pub proof fn lemma_filtered_refs_wf(slots: Seq<Slot>, addr: int, ms: Seq<Mention>, k: int)
    ensures
        forall|j: int|
            0 <= j < filtered_refs(slots, addr, ms, k).len() ==> (#[trigger] filtered_refs(
                slots,
                addr,
                ms,
                k,
            )[j]).referrer < slots.len(),
    decreases ms.len() - k,
{
    if 0 <= k < ms.len() {
        lemma_filtered_refs_wf(slots, addr, ms, k + 1);
    }
}

/// True when every referrer sits in the instruction whose opcode is at
/// `prev` (-1 for none).
pub open spec fn all_prev(slots: Seq<Slot>, refs: Seq<Mention>, prev: int) -> bool {
    forall|k: int|
        0 <= k < refs.len() ==> spec_instr_addr(slots, (#[trigger] refs[k]).referrer as int) == prev
}

/// An offset as a word (offsets above the 64-bit signed range do not occur).
pub open spec fn offset_of(diff: int) -> i64 {
    if diff <= i64::MAX {
        diff as i64
    } else {
        0
    }
}

/// What labeling one address does. Nothing happens at address 0 (programs
/// use 0 as a placeholder far too often), for an unmentioned address, or
/// once the name well is dry. A mentioned opcode, data or unmarked slot gets
/// a label and its referrers are rewritten to it. A mentioned parameter slot
/// is addressed through its enclosing opcode with an offset — as `ip` when
/// every referrer sits in the previous instruction, else with a label on the
/// opcode. A mentioned string slot is addressed through the string's start.
pub open spec fn spec_assign_at(slots: Seq<Slot>, next: int, addr: int) -> (Seq<Slot>, int) {
    let refs = filtered_refs(slots, addr, slots[addr].mentions@, 0);
    if addr == 0 || refs.len() == 0 || next >= label_well_size() {
        (slots, next)
    } else {
        match slots[addr].mark {
            Option::Some(Mark::Param(_)) => {
                let op_addr = spec_instr_addr(slots, addr);
                if op_addr < 0 {
                    (slots, next)
                } else {
                    let prev = spec_instr_addr(slots, op_addr);
                    let offset = offset_of(addr - op_addr);
                    if all_prev(slots, refs, prev) {
                        (
                            spec_label_params(slots, refs, Label::InstructionPointer, offset, 0),
                            next,
                        )
                    } else {
                        let g = spec_get_or_set(slots, next, op_addr);
                        (spec_label_params(g.0, refs, g.2, offset, 0), g.1)
                    }
                }
            },
            Option::Some(Mark::Str) => {
                let start = spec_string_addr(slots, addr);
                let g = spec_get_or_set(slots, next, start);
                (spec_label_params(g.0, refs, g.2, offset_of(addr - start), 0), g.1)
            },
            _ => {
                let g = spec_get_or_set(slots, next, addr);
                (spec_label_params(g.0, refs, g.2, 0, 0), g.1)
            },
        }
    }
}

pub proof fn lemma_label_params_len(
    slots: Seq<Slot>,
    refs: Seq<Mention>,
    label: Label,
    offset: i64,
    k: int,
)
    ensures
        spec_label_params(slots, refs, label, offset, k).len() == slots.len(),
    decreases refs.len() - k,
{
    if 0 <= k < refs.len() {
        lemma_label_params_len(
            spec_label_param(slots, refs[k].referrer as int, label, offset),
            refs,
            label,
            offset,
            k + 1,
        );
    }
}

pub proof fn lemma_assign_at_len(slots: Seq<Slot>, next: int, addr: int)
    requires
        0 <= addr < slots.len(),
    ensures
        spec_assign_at(slots, next, addr).0.len() == slots.len(),
{
    let refs = filtered_refs(slots, addr, slots[addr].mentions@, 0);
    lemma_instr_addr_bounds(slots, addr);
    lemma_string_addr_bounds(slots, addr);
    let op_addr = spec_instr_addr(slots, addr);
    let start = spec_string_addr(slots, addr);
    if op_addr >= 0 {
        lemma_label_params_len(slots, refs, Label::InstructionPointer, offset_of(addr - op_addr), 0);
        let g = spec_get_or_set(slots, next, op_addr);
        lemma_label_params_len(g.0, refs, g.2, offset_of(addr - op_addr), 0);
    }
    let g2 = spec_get_or_set(slots, next, start);
    lemma_label_params_len(g2.0, refs, g2.2, offset_of(addr - start), 0);
    let g3 = spec_get_or_set(slots, next, addr);
    lemma_label_params_len(g3.0, refs, g3.2, 0, 0);
}

#[via_fn]
proof fn spec_assign_decreases(slots: Seq<Slot>, next: int, addr: int) {
    if 0 <= addr < slots.len() {
        lemma_assign_at_len(slots, next, addr);
    }
}

/// Labeling, address by address from 0.
pub open spec fn spec_assign(slots: Seq<Slot>, next: int, addr: int) -> (Seq<Slot>, int)
    decreases slots.len() - addr,
    when 0 <= addr <= slots.len()
    via spec_assign_decreases
{
    if addr >= slots.len() {
        (slots, next)
    } else {
        let st = spec_assign_at(slots, next, addr);
        spec_assign(st.0, st.1, addr + 1)
    }
}

/// Rewrites the parameter mark at `addr` into a label reference with the
/// given offset, as `spec_label_param` says.
fn label_param(p: &mut Program, addr: usize, label: Label, offset: i64)
    ensures
        final(p).slots@ == spec_label_param(old(p).slots@, addr as int, label, offset),
{
    if addr >= p.slots.len() {
        return ;
    }
    let ghost before = p.slots@;
    let new_mark: Option<Mark> = match &p.slots[addr].mark {
        Some(Mark::Param(Param::Label(m, l, o))) => {
            if label_eq(l, &label) && *o == offset {
                return ;
            }
            Some(Mark::Param(Param::Label(*m, label, offset)))
        },
        Some(Mark::Param(Param::Number(m, _))) => Some(Mark::Param(Param::Label(*m, label, offset))),
        _ => {
            return ;
        },
    };
    let slot = vstd::std_specs::vec::vec_index_mut(&mut p.slots, addr);
    slot.mark = new_mark;
    proof {
        assert(p.slots@ =~= spec_label_param(before, addr as int, label, offset));
    }
}

/// The label at `addr`, set to the next fresh name when there is none, as
/// `spec_get_or_set` says.
fn get_or_set_label(p: &mut Program, labels: &mut LabelSeq, addr: usize) -> (r: Label)
    requires
        addr < old(p).slots@.len(),
        old(labels).next < label_well_size(),
    ensures
        ({
            let g = spec_get_or_set(old(p).slots@, old(labels).next as int, addr as int);
            final(p).slots@ == g.0 && final(labels).next == g.1 && r == g.2
        }),
{
    let ghost before = p.slots@;
    match &p.slots[addr].label {
        Some(l) => {
            let r = *l;
            r
        },
        None => {
            let name = labels.next_name();
            let slot = vstd::std_specs::vec::vec_index_mut(&mut p.slots, addr);
            slot.label = Some(Label::Fixed(name));
            proof {
                assert(p.slots@ =~= set_label(before, addr as int, Label::Fixed(name)));
            }
            Label::Fixed(name)
        },
    }
}

/// The address of the opcode the slot at `addr` belongs to: the closest
/// opcode mark strictly below `addr`.
fn instr_addr(p: &Program, addr: usize) -> (r: Option<usize>)
    requires
        addr <= p.slots@.len(),
    ensures
        (r matches Some(a) ==> a < addr && a < p.slots@.len() && spec_instr_addr(
            p.slots@,
            addr as int,
        ) == a),
        (r is None ==> spec_instr_addr(p.slots@, addr as int) == -1),
{
    let mut a = addr;
    while a > 0
        invariant
            a <= addr <= p.slots@.len(),
            spec_instr_addr(p.slots@, addr as int) == spec_instr_addr(p.slots@, a as int),
        decreases a,
    {
        a = a - 1;
        match &p.slots[a].mark {
            Some(Mark::Opcode(_)) => {
                return Some(a);
            },
            _ => {},
        }
    }
    None
}

/// The start of the string that covers `addr`.
fn string_addr(p: &Program, addr: usize) -> (r: usize)
    requires
        addr < p.slots@.len(),
    ensures
        r <= addr,
        r == spec_string_addr(p.slots@, addr as int),
{
    let mut a = addr;
    loop
        invariant
            a <= addr < p.slots@.len(),
            spec_string_addr(p.slots@, addr as int) == spec_string_addr(p.slots@, a as int),
        decreases a,
    {
        if a == 0 {
            return 0;
        }
        let is_str = match &p.slots[a - 1].mark {
            Some(Mark::Str) => true,
            _ => false,
        };
        if is_str {
            a = a - 1;
        } else {
            return a;
        }
    }
}

/// Rewrites every referring parameter to the label, in order.
fn label_refs(p: &mut Program, refs: &Vec<Mention>, label: Label, offset: i64)
    ensures
        final(p).slots@ == spec_label_params(old(p).slots@, refs@, label, offset, 0),
{
    let ghost s0 = p.slots@;
    let nr = refs.len();
    let mut ri: usize = 0;
    while ri < nr
        invariant
            ri <= nr,
            nr == refs@.len(),
            spec_label_params(s0, refs@, label, offset, 0) == spec_label_params(
                p.slots@,
                refs@,
                label,
                offset,
                ri as int,
            ),
        decreases nr - ri,
    {
        label_param(p, refs[ri].referrer, label, offset);
        ri = ri + 1;
    }
}

/// Assigns labels exactly as `spec_assign` says: walking the addresses in
/// order, every address that is the target of a mention whose referring word
/// holds that address gets a label (on the enclosing opcode when the target
/// is mid-instruction, on the string start when it lies in a string) and
/// every referring parameter is rewritten to use it, with the right offset.
pub fn assign(p: &mut Program, labels: &mut LabelSeq)
    ensures
        ({
            let st = spec_assign(old(p).slots@, old(labels).next as int, 0);
            final(p).slots@ == st.0 && final(labels).next == st.1
        }),
{
    let len = p.slots.len();
    let mut addr: usize = 0;
    while addr < len
        invariant
            addr <= len,
            len == p.slots@.len(),
            spec_assign(old(p).slots@, old(labels).next as int, 0) == spec_assign(
                p.slots@,
                labels.next as int,
                addr as int,
            ),
        decreases len - addr,
    {
        let ghost slc = p.slots@;
        let ghost nc = labels.next as int;
        proof {
            lemma_assign_at_len(slc, nc, addr as int);
            lemma_instr_addr_bounds(slc, addr as int);
            lemma_string_addr_bounds(slc, addr as int);
        }
        // The mentions whose referring word holds this address.
        let mut refs: Vec<Mention> = Vec::new();
        let nm = p.slots[addr].mentions.len();
        let mut mi: usize = 0;
        while mi < nm
            invariant
                mi <= nm,
                addr < len,
                len == p.slots@.len(),
                p.slots@ == slc,
                nm == slc[addr as int].mentions@.len(),
                filtered_refs(slc, addr as int, slc[addr as int].mentions@, 0) == refs@
                    + filtered_refs(slc, addr as int, slc[addr as int].mentions@, mi as int),
            decreases nm - mi,
        {
            let ghost r0 = refs@;
            let m = p.slots[addr].mentions[mi];
            if m.referrer < len {
                let raw = p.slots[m.referrer].raw;
                if raw >= 0 && raw as u64 <= usize::MAX as u64 && raw as usize == addr {
                    refs.push(m);
                }
            }
            proof {
                let ms = slc[addr as int].mentions@;
                if ms[mi as int].referrer < slc.len() && slc[ms[mi as int].referrer as int].raw
                    == addr {
                    assert(filtered_refs(slc, addr as int, ms, mi as int) =~= seq![ms[mi as int]]
                        + filtered_refs(slc, addr as int, ms, mi + 1));
                    assert(refs@ =~= r0.push(ms[mi as int]));
                } else {
                    assert(filtered_refs(slc, addr as int, ms, mi as int)
                        =~= Seq::<Mention>::empty() + filtered_refs(slc, addr as int, ms, mi + 1));
                }
                assert(filtered_refs(slc, addr as int, ms, 0) =~= refs@ + filtered_refs(
                    slc,
                    addr as int,
                    ms,
                    mi + 1,
                ));
            }
            mi = mi + 1;
        }
        proof {
            assert(filtered_refs(slc, addr as int, slc[addr as int].mentions@, nm as int)
                =~= Seq::<Mention>::empty());
            assert(refs@ =~= filtered_refs(slc, addr as int, slc[addr as int].mentions@, 0));
        }
        let ghost refsv = refs@;
        // Address 0 is left alone: programs use 0 as a placeholder value far
        // too often for a reference to it to be meaningful. Once the name
        // well runs dry (275 names) no further address is labelled.
        if addr != 0 && refs.len() > 0 && labels.next < 275 {
            let mark_kind: u8 = match &p.slots[addr].mark {
                Some(Mark::Opcode(_)) => 0,
                Some(Mark::Data) => 0,
                None => 0,
                Some(Mark::Param(_)) => 1,
                Some(Mark::Str) => 2,
            };
            if mark_kind == 0 {
                let label = get_or_set_label(p, labels, addr);
                label_refs(p, &refs, label, 0);
            } else if mark_kind == 1 {
                let this_op = instr_addr(p, addr);
                match this_op {
                    None => {},
                    Some(op_addr) => {
                        let prev_op = instr_addr(p, op_addr);
                        let ghost prevg: int = match prev_op {
                            Option::Some(x) => x as int,
                            Option::None => -1,
                        };
                        // Use `ip` when every referrer sits in the previous
                        // instruction.
                        proof {
                            lemma_filtered_refs_wf(slc, addr as int, slc[addr as int].mentions@, 0);
                        }
                        let mut prev_all = true;
                        let nr = refs.len();
                        let mut ri: usize = 0;
                        while ri < nr
                            invariant
                                ri <= nr,
                                nr == refsv.len(),
                                refs@ == refsv,
                                len == p.slots@.len(),
                                p.slots@ == slc,
                                op_addr < len,
                                spec_instr_addr(slc, op_addr as int) == prevg,
                                (prev_op matches Some(y) ==> prevg == y),
                                (prev_op is None ==> prevg == -1),
                                forall|j: int|
                                    0 <= j < refsv.len() ==> (#[trigger] refsv[j]).referrer < len,
                                prev_all == (forall|j: int|
                                    0 <= j < ri ==> spec_instr_addr(
                                        slc,
                                        (#[trigger] refsv[j]).referrer as int,
                                    ) == prevg),
                            decreases nr - ri,
                        {
                            let m = refs[ri];
                            proof {
                                assert(m == refsv[ri as int]);
                                assert(m.referrer < len);
                            }
                            let ia = instr_addr(p, m.referrer);
                            let same = match (ia, prev_op) {
                                (Some(x), Some(y)) => x == y,
                                (None, None) => true,
                                _ => false,
                            };
                            proof {
                                if same {
                                    assert(spec_instr_addr(slc, m.referrer as int) == prevg);
                                } else {
                                    assert(spec_instr_addr(slc, m.referrer as int) != prevg);
                                }
                            }
                            if !same {
                                prev_all = false;
                            }
                            ri = ri + 1;
                        }
                        proof {
                            assert(prev_all == all_prev(slc, refsv, prevg));
                        }
                        let diff = addr - op_addr;
                        let offset: i64 = if diff as u64 <= i64::MAX as u64 {
                            diff as i64
                        } else {
                            0
                        };
                        if prev_all {
                            label_refs(p, &refs, Label::InstructionPointer, offset);
                        } else {
                            let label = get_or_set_label(p, labels, op_addr);
                            label_refs(p, &refs, label, offset);
                        }
                    },
                }
            } else {
                // Inside a string: label the string's start and offset from
                // there.
                let start = string_addr(p, addr);
                let label = get_or_set_label(p, labels, start);
                let diff = addr - start;
                let offset: i64 = if diff as u64 <= i64::MAX as u64 {
                    diff as i64
                } else {
                    0
                };
                label_refs(p, &refs, label, offset);
            }
        }
        proof {
            assert((p.slots@, labels.next as int) == spec_assign_at(slc, nc, addr as int));
        }
        addr = addr + 1;
    }
}

} // verus!
