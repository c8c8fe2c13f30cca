//! Static marking: classify what the traced runs left unexplained.

use vstd::prelude::*;

use crate::ast::Mode;
use crate::disassemble::ast::Param;
use crate::disassemble::program::{
    has_jump, has_rw, set_mark, spec_opcode_from, spec_opcode_params, Mark, Opcode, Program, Slot,
};
use crate::run::opcode_sel;

verus! {

/// The divisor just above the highest legal mode digit of an opcode with
/// `ps` parameters.
pub open spec fn top_divisor(ps: int) -> int {
    if ps == 0 {
        100
    } else if ps == 1 {
        1000
    } else if ps == 2 {
        10000
    } else {
        100000
    }
}

/// The `k`-th (0-based) mode digit of a non-negative word.
pub open spec fn instr_mode_digit(w: i64, k: int) -> int {
    w / (if k == 0 {
        100
    } else if k == 1 {
        1000
    } else {
        10000
    }) % 10
}

pub open spec fn mode_of_digit(d: int) -> Mode {
    if d == 0 {
        Mode::Positional
    } else if d == 1 {
        Mode::Immediate
    } else {
        Mode::Relative
    }
}

/// Every parameter slot of a candidate instruction exists, is unmarked, and
/// carries a valid mode digit.
pub open spec fn params_ok(slots: Seq<Slot>, addr: int, w: i64, ps: int) -> bool {
    forall|k: int|
        0 <= k < ps ==> addr + k + 1 <= usize::MAX && addr + k + 1 < slots.len() && (
        #[trigger] slots[addr + k + 1].mark) is None && 0 <= instr_mode_digit(w, k) <= 2
}

/// Marks the `ps` parameter slots after `addr` with their modes.
pub open spec fn mark_instr_params(slots: Seq<Slot>, addr: int, w: i64, ps: int, k: int) -> Seq<
    Slot,
>
    decreases ps - k,
{
    if k < 0 || k >= ps {
        slots
    } else {
        mark_instr_params(
            set_mark(
                slots,
                addr + k + 1,
                Mark::Param(
                    Param::Number(mode_of_digit(instr_mode_digit(w, k)), slots[addr + k + 1].raw),
                ),
            ),
            addr,
            w,
            ps,
            k + 1,
        )
    }
}

/// What trying to read an instruction at `addr` does: nothing unless the
/// word's low digits are a known opcode, no digits sit above its arity, and
/// every parameter slot exists unmarked with a valid mode digit; then the
/// opcode and its parameters are marked.
pub open spec fn spec_mark_instr_at(slots: Seq<Slot>, addr: int) -> Seq<Slot> {
    let w = slots[addr].raw;
    match spec_opcode_from(opcode_sel(w)) {
        Option::None => slots,
        Option::Some(op) => {
            let ps = spec_opcode_params(op);
            if w < 0 {
                slots
            } else if w as int / top_divisor(ps) > 0 {
                slots
            } else if !params_ok(slots, addr, w, ps) {
                slots
            } else {
                mark_instr_params(set_mark(slots, addr, Mark::Opcode(op)), addr, w, ps, 0)
            }
        },
    }
}

/// Byte values that look like text: tab, LF, CR and printable ASCII.
pub open spec fn is_texty(v: i64) -> bool {
    v == 9 || v == 10 || v == 13 || (32 <= v <= 126)
}

/// The end of the run of unmarked, unlabelled, texty slots starting at `a`.
pub open spec fn texty_end(slots: Seq<Slot>, a: int) -> int
    decreases slots.len() - a,
{
    if a < 0 || a >= slots.len() {
        a
    } else if slots[a].mark is None && slots[a].label is None && is_texty(slots[a].raw) {
        texty_end(slots, a + 1)
    } else {
        a
    }
}

pub proof fn lemma_texty_end_bounds(slots: Seq<Slot>, a: int)
    requires
        0 <= a <= slots.len(),
    ensures
        a <= texty_end(slots, a) <= slots.len(),
    decreases slots.len() - a,
{
    if a < slots.len() && slots[a].mark is None && slots[a].label is None && is_texty(
        slots[a].raw,
    ) {
        lemma_texty_end_bounds(slots, a + 1);
    }
}

/// Marks `[a, e)` as string slots.
pub open spec fn mark_str_range(slots: Seq<Slot>, a: int, e: int) -> Seq<Slot>
    decreases e - a,
{
    if a >= e {
        slots
    } else {
        mark_str_range(set_mark(slots, a, Mark::Str), a + 1, e)
    }
}

pub proof fn lemma_mark_str_range_len(slots: Seq<Slot>, a: int, e: int)
    requires
        0 <= a,
        e <= slots.len(),
    ensures
        mark_str_range(slots, a, e).len() == slots.len(),
    decreases e - a,
{
    if a < e {
        lemma_mark_str_range_len(set_mark(slots, a, Mark::Str), a + 1, e);
    }
}

/// Every slot of a texty run is unmarked, unlabelled and texty.
pub proof fn lemma_texty_run(slots: Seq<Slot>, a: int)
    requires
        0 <= a <= slots.len(),
    ensures
        forall|j: int|
            a <= j < texty_end(slots, a) ==> (#[trigger] slots[j]).mark is None && slots[j].label
                is None && is_texty(slots[j].raw),
    decreases slots.len() - a,
{
    if a < slots.len() && slots[a].mark is None && slots[a].label is None && is_texty(
        slots[a].raw,
    ) {
        lemma_texty_run(slots, a + 1);
    }
}

pub proof fn lemma_mark_instr_params_len(slots: Seq<Slot>, addr: int, w: i64, ps: int, k: int)
    requires
        0 <= addr,
        ps >= 1 ==> addr + ps < slots.len(),
    ensures
        mark_instr_params(slots, addr, w, ps, k).len() == slots.len(),
    decreases ps - k,
{
    if 0 <= k < ps {
        lemma_mark_instr_params_len(
            set_mark(
                slots,
                addr + k + 1,
                Mark::Param(
                    Param::Number(mode_of_digit(instr_mode_digit(w, k)), slots[addr + k + 1].raw),
                ),
            ),
            addr,
            w,
            ps,
            k + 1,
        );
    }
}

/// The per-candidate steps keep the image's length.
pub proof fn lemma_step_lens(slots: Seq<Slot>, c: int)
    requires
        0 <= c < slots.len(),
    ensures
        spec_data_step(slots, c).len() == slots.len(),
        spec_mark_instr_at(slots, c).len() == slots.len(),
{
    lemma_texty_end_bounds(slots, c);
    lemma_mark_str_range_len(slots, c, texty_end(slots, c));
    let w = slots[c].raw;
    match spec_opcode_from(crate::run::opcode_sel(w)) {
        Option::Some(op) => {
            let ps = spec_opcode_params(op);
            if w >= 0 && !(w as int / top_divisor(ps) > 0) && params_ok(slots, c, w, ps) {
                if ps >= 1 {
                    assert(c + ps < slots.len()) by {
                        assert(slots[c + (ps - 1) + 1].mark is None);
                    }
                }
                lemma_mark_instr_params_len(set_mark(slots, c, Mark::Opcode(op)), c, w, ps, 0);
            }
        },
        Option::None => {},
    }
}

/// What trying to read a string at `addr` does: a texty run of length at
/// least 2 is marked as string slots; anything shorter is left alone.
pub open spec fn spec_mark_string_at(slots: Seq<Slot>, addr: int) -> (Seq<Slot>, bool) {
    let e = texty_end(slots, addr);
    if e - addr < 2 {
        (slots, false)
    } else {
        (mark_str_range(slots, addr, e), true)
    }
}

/// One data candidate: a string when a texty run starts here, else a plain
/// data mark if still unmarked.
pub open spec fn spec_data_step(slots: Seq<Slot>, c: int) -> Seq<Slot> {
    let sb = spec_mark_string_at(slots, c);
    if sb.1 {
        sb.0
    } else if slots[c].mark is None {
        set_mark(slots, c, Mark::Data)
    } else {
        slots
    }
}

/// The unmarked slots with a read or write mention, in address order.
pub open spec fn rw_cands(slots: Seq<Slot>, i: int) -> Seq<int>
    decreases slots.len() - i,
{
    if i < 0 || i >= slots.len() {
        Seq::empty()
    } else {
        (if slots[i].mark is None && has_rw(slots[i].mentions@) {
            seq![i]
        } else {
            Seq::empty()
        }) + rw_cands(slots, i + 1)
    }
}

/// The unmarked slots with a jump mention, in address order.
pub open spec fn jump_cands(slots: Seq<Slot>, i: int) -> Seq<int>
    decreases slots.len() - i,
{
    if i < 0 || i >= slots.len() {
        Seq::empty()
    } else {
        (if slots[i].mark is None && has_jump(slots[i].mentions@) {
            seq![i]
        } else {
            Seq::empty()
        }) + jump_cands(slots, i + 1)
    }
}

pub open spec fn fold_data(slots: Seq<Slot>, cands: Seq<int>, k: int) -> Seq<Slot>
    decreases cands.len() - k,
{
    if k < 0 || k >= cands.len() {
        slots
    } else {
        fold_data(spec_data_step(slots, cands[k]), cands, k + 1)
    }
}

pub open spec fn fold_instr(slots: Seq<Slot>, cands: Seq<int>, k: int) -> Seq<Slot>
    decreases cands.len() - k,
{
    if k < 0 || k >= cands.len() {
        slots
    } else {
        let s2 = if slots[cands[k]].mark is None {
            spec_mark_instr_at(slots, cands[k])
        } else {
            slots
        };
        fold_instr(s2, cands, k + 1)
    }
}

/// The whole static pass: data candidates (read/write-mentioned unmarked
/// slots of the incoming image) are classified as strings or data, then jump
/// candidates of the resulting image are tried as instructions.
pub open spec fn spec_static_mark(slots: Seq<Slot>) -> Seq<Slot> {
    let mid = fold_data(slots, rw_cands(slots, 0), 0);
    fold_instr(mid, jump_cands(mid, 0), 0)
}

/// Tries to read an instruction at `addr`, as `spec_mark_instr_at` says.
fn try_mark_instr(p: &mut Program, addr: usize)
    requires
        addr < old(p).slots@.len(),
        old(p).slots@[addr as int].mark is None,
    ensures
        final(p).slots@ == spec_mark_instr_at(old(p).slots@, addr as int),
{
    let ghost sl = p.slots@;
    let len = p.slots.len();
    let instr = p.slots[addr].raw;
    let opv = crate::run::opcode_sel_x(instr);
    let opcode = match Opcode::from_value(opv) {
        Some(o) => o,
        None => {
            return ;
        },
    };
    let ps = opcode.params();
    // No digits above the allowed parameter modes.
    let top_div: i64 = if ps == 0 {
        100
    } else if ps == 1 {
        1000
    } else if ps == 2 {
        10000
    } else {
        100000
    };
    if instr < 0 {
        return ;
    }
    let iu = instr as u64;
    if iu / (top_div as u64) > 0 {
        return ;
    }
    // All parameter slots present, unmarked, with valid modes.
    let mut modes: Vec<(usize, Mode)> = Vec::new();
    let mut i: usize = 0;
    let mut ok = true;
    while i < ps && ok
        invariant
            i <= ps,
            ps <= 3,
            ps == spec_opcode_params(opcode),
            addr < p.slots@.len(),
            len == p.slots@.len(),
            *p == *old(p),
            sl == p.slots@,
            instr == sl[addr as int].raw,
            instr >= 0,
            iu == instr as u64,
            ok ==> modes@.len() == i,
            ok ==> forall|j: int|
                0 <= j < i ==> addr + j + 1 <= usize::MAX && addr + j + 1 < sl.len() && (
                #[trigger] sl[addr + j + 1].mark) is None && 0 <= instr_mode_digit(instr, j) <= 2,
            ok ==> forall|j: int|
                0 <= j < i ==> (#[trigger] modes@[j]) == (
                    ((addr + j + 1) as usize),
                    mode_of_digit(instr_mode_digit(instr, j)),
                ),
            !ok ==> !params_ok(sl, addr as int, instr, ps as int),
        decreases ps - i + (if ok {
            1int
        } else {
            0int
        }),
    {
        if addr > usize::MAX - (i + 1) {
            proof {
                assert(!params_ok(sl, addr as int, instr, ps as int)) by {
                    assert(!(addr + i as int + 1 <= usize::MAX));
                }
            }
            ok = false;
        } else {
            let pa = addr + i + 1;
            if pa >= len {
                proof {
                    assert(!params_ok(sl, addr as int, instr, ps as int)) by {
                        assert(!(addr + i as int + 1 < sl.len()));
                    }
                }
                ok = false;
            } else if p.slots[pa].is_marked() {
                proof {
                    assert(!params_ok(sl, addr as int, instr, ps as int)) by {
                        assert(!(sl[addr + i as int + 1].mark is None));
                    }
                }
                ok = false;
            } else {
                let div: u64 = if i == 0 {
                    100
                } else if i == 1 {
                    1000
                } else {
                    10000
                };
                let digit = (iu / div % 10) as i64;
                proof {
                    assert(digit == instr_mode_digit(instr, i as int));
                }
                match Mode::from_value(digit) {
                    None => {
                        proof {
                            assert(!params_ok(sl, addr as int, instr, ps as int)) by {
                                assert(!(0 <= instr_mode_digit(instr, i as int) <= 2));
                            }
                        }
                        ok = false;
                    },
                    Some(m) => {
                        proof {
                            assert(m == mode_of_digit(instr_mode_digit(instr, i as int)));
                        }
                        modes.push((pa, m));
                        i = i + 1;
                    },
                }
            }
        }
    }
    if !ok {
        return ;
    }
    proof {
        assert(params_ok(sl, addr as int, instr, ps as int));
    }
    // Everything checks out: mark the instruction and parameters.
    match p.mark_opcode(addr, opcode) {
        Ok(()) => {},
        Err(_) => {
            proof {
                assert(false);
            }
        },
    }
    let ghost s1 = p.slots@;
    proof {
        assert(s1 =~= set_mark(sl, addr as int, Mark::Opcode(opcode)));
    }
    let n = modes.len();
    proof {
        if n > 0 {
            assert(addr + n < sl.len()) by {
                assert(sl[addr + (n as int - 1) + 1].mark is None);
            }
        }
        assert forall|j: int|
            0 <= j < n implies (#[trigger] p.slots@[addr + j + 1].mark) is None
            && p.slots@[addr + j + 1].raw == sl[addr + j + 1].raw by {
            assert(sl[addr + j + 1].mark is None);
            assert(p.slots@[addr + j + 1] == sl[addr + j + 1]);
        }
    }
    let mut k: usize = 0;
    while k < n
        invariant
            k <= n,
            n == modes@.len(),
            n == spec_opcode_params(opcode),
            ps == spec_opcode_params(opcode),
            addr + n < sl.len(),
            len == p.slots@.len(),
            sl.len() == len,
            instr == sl[addr as int].raw,
            forall|j: int|
                0 <= j < n ==> (#[trigger] modes@[j]) == (
                    ((addr + j + 1) as usize),
                    mode_of_digit(instr_mode_digit(instr, j)),
                ),
            forall|j: int|
                (k as int) <= j < n ==> (#[trigger] p.slots@[addr + j + 1].mark) is None
                    && p.slots@[addr + j + 1].raw == sl[addr + j + 1].raw,
            mark_instr_params(s1, addr as int, instr, ps as int, 0) == mark_instr_params(
                p.slots@,
                addr as int,
                instr,
                ps as int,
                k as int,
            ),
        decreases n - k,
    {
        let (pa, m) = modes[k];
        let ghost before = p.slots@;
        let got = p.mark_param(pa, m);
        proof {
            assert(got is Ok);
            assert(p.slots@ =~= set_mark(
                before,
                addr + k + 1,
                Mark::Param(
                    Param::Number(
                        mode_of_digit(instr_mode_digit(instr, k as int)),
                        before[addr + k + 1].raw,
                    ),
                ),
            ));
        }
        k = k + 1;
    }
}

/// True when the slot at `a` is unmarked, unlabelled, and texty.
fn char_at(p: &Program, a: usize) -> (r: bool)
    requires
        a < p.slots@.len(),
    ensures
        r == (p.slots@[a as int].mark is None && p.slots@[a as int].label is None && is_texty(
            p.slots@[a as int].raw,
        )),
{
    let s = &p.slots[a];
    let unmarked = s.is_unmarked();
    let unlabelled = s.is_unlabelled();
    let v = s.raw;
    unmarked && unlabelled && (v == 9 || v == 10 || v == 13 || (32 <= v && v <= 126))
}

/// Tries to read a string at `addr`, as `spec_mark_string_at` says; the
/// result tells whether a string was marked.
fn try_mark_string(p: &mut Program, addr: usize) -> (r: bool)
    requires
        addr < old(p).slots@.len(),
    ensures
        final(p).slots@ == spec_mark_string_at(old(p).slots@, addr as int).0,
        r == spec_mark_string_at(old(p).slots@, addr as int).1,
{
    let ghost sl = p.slots@;
    let len = p.slots.len();
    let mut a = addr;
    while a < len && char_at(p, a)
        invariant
            addr <= a <= len,
            len == p.slots@.len(),
            *p == *old(p),
            sl == p.slots@,
            texty_end(sl, addr as int) == texty_end(sl, a as int),
        decreases len - a,
    {
        a = a + 1;
    }
    proof {
        assert(a as int == texty_end(sl, addr as int));
        lemma_texty_run(sl, addr as int);
    }
    if a - addr < 2 {
        return false;
    }
    let mut k = addr;
    while k < a
        invariant
            addr <= k <= a <= len,
            len == p.slots@.len(),
            a as int == texty_end(sl, addr as int),
            mark_str_range(sl, addr as int, a as int) == mark_str_range(
                p.slots@,
                k as int,
                a as int,
            ),
            forall|j: int|
                (k as int) <= j < a ==> (#[trigger] p.slots@[j]) == sl[j],
            forall|j: int|
                addr <= j < a ==> (#[trigger] sl[j]).mark is None,
            p.slots@.len() == sl.len(),
        decreases a - k,
    {
        let ghost before = p.slots@;
        let got = p.mark(k, Mark::Str);
        proof {
            assert(got is Ok);
            assert(p.slots@ =~= set_mark(before, k as int, Mark::Str));
        }
        k = k + 1;
    }
    true
}

/// Statically marks the image exactly as `spec_static_mark` says: unmarked
/// slots that something reads or writes become strings (when they look like
/// text) or plain data; unmarked slots that something jumps to are tried as
/// instructions.
pub fn mark(p: &mut Program)
    ensures
        final(p).slots@ == spec_static_mark(old(p).slots@),
{
    let ghost sl = p.slots@;
    let len = p.slots.len();
    // First, data: slots with a read or write mention.
    let mut cands: Vec<usize> = Vec::new();
    let mut i: usize = 0;
    while i < len
        invariant
            i <= len,
            len == p.slots@.len(),
            *p == *old(p),
            sl == p.slots@,
            rw_cands(sl, 0) == view_cands(cands@) + rw_cands(sl, i as int),
            forall|j: int| 0 <= j < cands@.len() ==> (#[trigger] cands@[j]) < len,
        decreases len - i,
    {
        let ghost c0 = view_cands(cands@);
        if p.slots[i].is_unmarked() && p.slots[i].has_rw_purpose() {
            cands.push(i);
            proof {
                assert(view_cands(cands@) =~= c0 + seq![i as int]);
                assert(rw_cands(sl, i as int) =~= seq![i as int] + rw_cands(sl, i + 1));
                assert(rw_cands(sl, 0) =~= view_cands(cands@) + rw_cands(sl, i + 1));
            }
        } else {
            proof {
                assert(rw_cands(sl, i as int) =~= Seq::<int>::empty() + rw_cands(sl, i + 1));
                assert(rw_cands(sl, 0) =~= view_cands(cands@) + rw_cands(sl, i + 1));
            }
        }
        i = i + 1;
    }
    proof {
        assert(rw_cands(sl, len as int) =~= Seq::<int>::empty());
        assert(rw_cands(sl, 0) =~= view_cands(cands@));
    }
    let n = cands.len();
    let mut k: usize = 0;
    while k < n
        invariant
            k <= n,
            n == cands@.len(),
            len == p.slots@.len(),
            forall|j: int| 0 <= j < cands@.len() ==> (#[trigger] cands@[j]) < len,
            rw_cands(sl, 0) == view_cands(cands@),
            fold_data(sl, view_cands(cands@), 0) == fold_data(
                p.slots@,
                view_cands(cands@),
                k as int,
            ),
        decreases n - k,
    {
        let c = cands[k];
        let ghost before = p.slots@;
        proof {
            lemma_step_lens(before, c as int);
        }
        let strung = try_mark_string(p, c);
        if !strung && p.slots[c].is_unmarked() {
            let ghost mid = p.slots@;
            let got = p.mark(c, Mark::Data);
            proof {
                assert(got is Ok);
                assert(p.slots@ =~= set_mark(mid, c as int, Mark::Data));
                assert(p.slots@ =~= spec_data_step(before, c as int));
            }
        } else {
            proof {
                assert(p.slots@ =~= spec_data_step(before, c as int));
            }
        }
        k = k + 1;
    }
    let ghost mid = p.slots@;
    proof {
        assert(mid == fold_data(sl, rw_cands(sl, 0), 0));
    }
    // Then, instructions: slots with a jump mention.
    let mut jands: Vec<usize> = Vec::new();
    let mut i2: usize = 0;
    while i2 < len
        invariant
            i2 <= len,
            len == p.slots@.len(),
            p.slots@ == mid,
            jump_cands(mid, 0) == view_cands(jands@) + jump_cands(mid, i2 as int),
            forall|j: int| 0 <= j < jands@.len() ==> (#[trigger] jands@[j]) < len,
        decreases len - i2,
    {
        let ghost c0 = view_cands(jands@);
        if p.slots[i2].is_unmarked() && p.slots[i2].has_jump_purpose() {
            jands.push(i2);
            proof {
                assert(view_cands(jands@) =~= c0 + seq![i2 as int]);
                assert(jump_cands(mid, i2 as int) =~= seq![i2 as int] + jump_cands(mid, i2 + 1));
                assert(jump_cands(mid, 0) =~= view_cands(jands@) + jump_cands(mid, i2 + 1));
            }
        } else {
            proof {
                assert(jump_cands(mid, i2 as int) =~= Seq::<int>::empty() + jump_cands(
                    mid,
                    i2 + 1,
                ));
                assert(jump_cands(mid, 0) =~= view_cands(jands@) + jump_cands(mid, i2 + 1));
            }
        }
        i2 = i2 + 1;
    }
    proof {
        assert(jump_cands(mid, len as int) =~= Seq::<int>::empty());
        assert(jump_cands(mid, 0) =~= view_cands(jands@));
    }
    let n2 = jands.len();
    let mut k2: usize = 0;
    while k2 < n2
        invariant
            k2 <= n2,
            n2 == jands@.len(),
            len == p.slots@.len(),
            forall|j: int| 0 <= j < jands@.len() ==> (#[trigger] jands@[j]) < len,
            jump_cands(mid, 0) == view_cands(jands@),
            fold_instr(mid, view_cands(jands@), 0) == fold_instr(
                p.slots@,
                view_cands(jands@),
                k2 as int,
            ),
            spec_static_mark(sl) == fold_instr(p.slots@, view_cands(jands@), k2 as int),
        decreases n2 - k2,
    {
        let c = jands[k2];
        let ghost before = p.slots@;
        proof {
            lemma_step_lens(before, c as int);
        }
        if p.slots[c].is_unmarked() {
            try_mark_instr(p, c);
            proof {
                assert(p.slots@ == spec_mark_instr_at(before, c as int));
            }
        }
        k2 = k2 + 1;
    }
}

/// The mathematical image of a candidate vector.
pub open spec fn view_cands(v: Seq<usize>) -> Seq<int> {
    Seq::new(v.len(), |i: int| v[i] as int)
}

} // verus!
