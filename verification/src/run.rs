//! The Intcode virtual machine: a resumable interpreter that yields outputs,
//! blocks on input, and halts.

use vstd::prelude::*;
use vstd::string::StringSliceAdditionalSpecFns;
use vstd::wrapping::{i64_specs, usize_specs};

verus! {

/// The state of the computer after a call to `next`.
#[derive(Debug, Clone, Copy, PartialEq, Eq, Structural)]
pub enum State {
    /// An output.
    Yielded(i64),
    /// Waiting for input.
    Waiting,
    /// Program execution has finished.
    Complete,
}

/// A runtime failure of the machine.
#[derive(Debug, Clone, Copy, PartialEq, Eq, Structural)]
pub enum Error {
    /// A parameter carried an unrecognised mode digit.
    UnknownMode { mode: i64 },
    /// The word at the instruction pointer holds no known opcode.
    UnknownOpcode { opcode: i64 },
    /// An address fell outside the machine's range (negative, or too large).
    BadConversion { num: i64 },
}

/// The mathematical image of the machine.
pub struct VmV {
    pub mem: Seq<i64>,
    pub ptr: usize,
    pub rb: i64,
    pub input: Seq<i64>,
}

/// A read past the end of memory yields 0 without growing it.
pub open spec fn mem_read(mem: Seq<i64>, a: int) -> i64 {
    if 0 <= a < mem.len() {
        mem[a]
    } else {
        0
    }
}

pub open spec fn zeros(n: nat) -> Seq<i64> {
    Seq::new(n, |i: int| 0i64)
}

/// A write past the end grows memory with zeros up to the address.
pub open spec fn mem_write(mem: Seq<i64>, a: int, v: i64) -> Seq<i64> {
    if 0 <= a < mem.len() {
        mem.update(a, v)
    } else if a >= mem.len() {
        mem + zeros((a - mem.len()) as nat) + seq![v]
    } else {
        mem
    }
}

/// VM memory growth: after a write to address `a`, memory holds at least
/// `a + 1` words; the written word reads back, every address between the old
/// end and `a` reads as zero, and all other old words are untouched.
pub proof fn lemma_memory_growth(mem: Seq<i64>, a: int, v: i64)
    requires
        0 <= a,
    ensures
        mem_write(mem, a, v).len() >= a + 1,
        mem_read(mem_write(mem, a, v), a) == v,
        forall|j: int| mem.len() <= j < a ==> mem_read(mem_write(mem, a, v), j) == 0,
        forall|j: int|
            0 <= j < mem.len() && j != a ==> mem_read(mem_write(mem, a, v), j) == mem_read(mem, j),
{
}

/// The magnitude of a word.
pub open spec fn w_abs(w: i64) -> int {
    if w >= 0 {
        w as int
    } else {
        -(w as int)
    }
}

/// The opcode selector `w mod 100`, with the sign Rust's truncating
/// remainder gives it.
pub open spec fn opcode_sel(w: i64) -> int {
    if w >= 0 {
        w_abs(w) % 100
    } else {
        -(w_abs(w) % 100)
    }
}

pub open spec fn mode_divisor(k: int) -> int {
    if k == 1 {
        100
    } else if k == 2 {
        1000
    } else {
        10000
    }
}

/// The mode digit of the `k`-th parameter: `w / 10^(k+1) mod 10`, again with
/// truncating signs.
pub open spec fn mode_sel(w: i64, k: int) -> int {
    if w >= 0 {
        w_abs(w) / mode_divisor(k) % 10
    } else {
        -(w_abs(w) / mode_divisor(k) % 10)
    }
}

/// Resolves the `k`-th parameter to an address: positional uses the word as
/// the address, immediate the word's own position, relative the word plus
/// the relative base. Addresses must fit the machine.
///
/// An immediate parameter used as a write target deliberately stores into
/// the parameter's own cell rather than failing: that is what the machine
/// does, and self-modifying programs depend on it.
pub open spec fn spec_param_ptr(v: VmV, k: int) -> Result<int, Error> {
    let w = mem_read(v.mem, v.ptr as int);
    let m = mode_sel(w, k);
    let pw = mem_read(v.mem, v.ptr + k);
    if m == 0 {
        if 0 <= pw <= usize::MAX {
            Result::Ok(pw as int)
        } else {
            Result::Err(Error::BadConversion { num: pw })
        }
    } else if m == 1 {
        if v.ptr + k <= usize::MAX {
            Result::Ok(v.ptr + k)
        } else {
            Result::Err(Error::BadConversion { num: pw })
        }
    } else if m == 2 {
        let t = i64_specs::wrapping_add(v.rb, pw);
        if 0 <= t <= usize::MAX {
            Result::Ok(t as int)
        } else {
            Result::Err(Error::BadConversion { num: t })
        }
    } else {
        Result::Err(Error::UnknownMode { mode: m as i64 })
    }
}

/// The `k`-th parameter's value for a read.
pub open spec fn spec_param(v: VmV, k: int) -> Result<i64, Error> {
    match spec_param_ptr(v, k) {
        Result::Ok(a) => Result::Ok(mem_read(v.mem, a)),
        Result::Err(e) => Result::Err(e),
    }
}

/// What one instruction does.
pub enum StepOut {
    /// An ordinary instruction: execution continues in the new state.
    Next(VmV),
    /// Output: the new state and the value produced.
    Yielded(VmV, i64),
    /// Input with an empty queue: the machine stays put.
    Waiting,
    /// Halt.
    Complete,
    /// A runtime failure, and the state it leaves behind.
    Fail(Error, VmV),
}

pub open spec fn with_ptr(v: VmV, p: usize) -> VmV {
    VmV { mem: v.mem, ptr: p, rb: v.rb, input: v.input }
}

/// One step of the machine, exactly as the opcode table gives it: arithmetic
/// and comparisons write their third parameter and advance by 4; input
/// consumes the queue's front (or reports `Waiting`); output yields after
/// advancing; jumps test their first parameter; 9 adjusts the relative base;
/// 99 halts. Arithmetic wraps in 64 bits.
pub open spec fn spec_step(v: VmV) -> StepOut {
    let w = mem_read(v.mem, v.ptr as int);
    let op = opcode_sel(w);
    if op == 1 || op == 2 || op == 7 || op == 8 {
        match spec_param_ptr(v, 3) {
            Result::Err(e) => StepOut::Fail(e, v),
            Result::Ok(wa) => match spec_param(v, 1) {
                Result::Err(e) => StepOut::Fail(e, v),
                Result::Ok(p1) => match spec_param(v, 2) {
                    Result::Err(e) => StepOut::Fail(e, v),
                    Result::Ok(p2) => {
                        let val = if op == 1 {
                            i64_specs::wrapping_add(p1, p2)
                        } else if op == 2 {
                            i64_specs::wrapping_mul(p1, p2)
                        } else if op == 7 {
                            if p1 < p2 {
                                1i64
                            } else {
                                0i64
                            }
                        } else {
                            if p1 == p2 {
                                1i64
                            } else {
                                0i64
                            }
                        };
                        StepOut::Next(
                            VmV {
                                mem: mem_write(v.mem, wa, val),
                                ptr: usize_specs::wrapping_add(v.ptr, 4),
                                rb: v.rb,
                                input: v.input,
                            },
                        )
                    },
                },
            },
        }
    } else if op == 3 {
        if v.input.len() == 0 {
            StepOut::Waiting
        } else {
            let x = v.input[0];
            let v1 = VmV { mem: v.mem, ptr: v.ptr, rb: v.rb, input: v.input.drop_first() };
            match spec_param_ptr(v1, 1) {
                Result::Err(e) => StepOut::Fail(e, v1),
                Result::Ok(wa) => StepOut::Next(
                    VmV {
                        mem: mem_write(v1.mem, wa, x),
                        ptr: usize_specs::wrapping_add(v.ptr, 2),
                        rb: v.rb,
                        input: v1.input,
                    },
                ),
            }
        }
    } else if op == 4 {
        match spec_param(v, 1) {
            Result::Err(e) => StepOut::Fail(e, v),
            Result::Ok(x) => StepOut::Yielded(with_ptr(v, usize_specs::wrapping_add(v.ptr, 2)), x),
        }
    } else if op == 5 || op == 6 {
        match spec_param(v, 1) {
            Result::Err(e) => StepOut::Fail(e, v),
            Result::Ok(p1) => {
                let taken = if op == 5 {
                    p1 != 0
                } else {
                    p1 == 0
                };
                if taken {
                    match spec_param(v, 2) {
                        Result::Err(e) => StepOut::Fail(e, v),
                        Result::Ok(p2) => {
                            if 0 <= p2 <= usize::MAX {
                                StepOut::Next(with_ptr(v, p2 as usize))
                            } else {
                                StepOut::Fail(Error::BadConversion { num: p2 }, v)
                            }
                        },
                    }
                } else {
                    StepOut::Next(with_ptr(v, usize_specs::wrapping_add(v.ptr, 3)))
                }
            },
        }
    } else if op == 9 {
        match spec_param(v, 1) {
            Result::Err(e) => StepOut::Fail(e, v),
            Result::Ok(p1) => StepOut::Next(
                VmV {
                    mem: v.mem,
                    ptr: usize_specs::wrapping_add(v.ptr, 2),
                    rb: i64_specs::wrapping_add(v.rb, p1),
                    input: v.input,
                },
            ),
        }
    } else if op == 99 {
        StepOut::Complete
    } else {
        StepOut::Fail(Error::UnknownOpcode { opcode: op as i64 }, v)
    }
}

/// Iterates ordinary steps; anything that pauses, halts or fails stops the
/// iteration.
pub open spec fn spec_advance(v: VmV, n: nat) -> VmV
    decreases n,
{
    if n == 0 {
        v
    } else {
        match spec_step(v) {
            StepOut::Next(v2) => spec_advance(v2, (n - 1) as nat),
            _ => v,
        }
    }
}

/// Input FIFO, one step: an input instruction that proceeds consumes exactly
/// the queue's front, writes it to the resolved address, and leaves the rest
/// of the queue in order.
pub proof fn lemma_input_fifo_step(v: VmV)
    requires
        opcode_sel(mem_read(v.mem, v.ptr as int)) == 3,
        v.input.len() > 0,
        spec_step(v) is Next,
    ensures
        ({
            let v2 = spec_step(v)->Next_0;
            &&& v2.input == v.input.drop_first()
            &&& (spec_param_ptr(
                VmV { mem: v.mem, ptr: v.ptr, rb: v.rb, input: v.input.drop_first() },
                1,
            ) matches Result::Ok(a) && v2.mem == mem_write(v.mem, a, v.input[0]))
        }),
{
}

/// Input FIFO, any number of steps: execution only ever consumes a prefix of
/// the queue, in order — after any number of steps the queue that remains is
/// a suffix of the original.
pub proof fn lemma_input_fifo(v: VmV, n: nat)
    ensures
        exists|c: int|
            0 <= c <= v.input.len() && spec_advance(v, n).input == v.input.skip(c),
    decreases n,
{
    if n == 0 {
        assert(v.input.skip(0) =~= v.input);
    } else {
        match spec_step(v) {
            StepOut::Next(v2) => {
                lemma_input_fifo(v2, (n - 1) as nat);
                let c2 = choose|c: int|
                    0 <= c <= v2.input.len() && spec_advance(v2, (n - 1) as nat).input
                        == v2.input.skip(c);
                let w = mem_read(v.mem, v.ptr as int);
                if opcode_sel(w) == 3 {
                    assert(v2.input =~= v.input.drop_first());
                    assert(v2.input.skip(c2) =~= v.input.skip(c2 + 1));
                } else {
                    assert(v2.input == v.input);
                }
            },
            _ => {
                assert(v.input.skip(0) =~= v.input);
            },
        }
    }
}

/// The machine: memory, instruction pointer, relative base, input queue.
#[derive(Debug)]
pub struct Computer {
    mem: Vec<i64>,
    ptr: usize,
    relative_base: i64,
    input: std::collections::VecDeque<i64>,
}

impl View for Computer {
    type V = VmV;

    closed spec fn view(&self) -> VmV {
        VmV { mem: self.mem@, ptr: self.ptr, rb: self.relative_base, input: self.input@ }
    }
}

/// Reads the word at `addr`; beyond the end it is 0.
fn mem_get(mem: &Vec<i64>, addr: usize) -> (r: i64)
    ensures
        r == mem_read(mem@, addr as int),
{
    if addr < mem.len() {
        mem[addr]
    } else {
        0
    }
}

/// Writes the word at `addr`, growing memory with zeros as needed.
fn mem_set(mem: &mut Vec<i64>, addr: usize, v: i64)
    ensures
        final(mem)@ == mem_write(old(mem)@, addr as int, v),
{
    if addr < mem.len() {
        *vstd::std_specs::vec::vec_index_mut(mem, addr) = v;
    } else {
        let ghost m0 = mem@;
        while mem.len() < addr
            invariant
                m0.len() <= mem@.len() <= addr,
                mem@ == m0 + zeros((mem@.len() - m0.len()) as nat),
            decreases addr - mem@.len(),
        {
            mem.push(0);
            proof {
                assert(mem@ =~= m0 + zeros((mem@.len() - m0.len()) as nat));
            }
        }
        mem.push(v);
        proof {
            assert(mem@ =~= mem_write(m0, addr as int, v));
        }
    }
}

/// The magnitude of a word.
fn w_abs_x(w: i64) -> (r: u64)
    ensures
        r as int == w_abs(w),
{
    if w >= 0 {
        w as u64
    } else {
        (-(w as i128)) as u64
    }
}

pub fn opcode_sel_x(w: i64) -> (r: i64)
    ensures
        r == opcode_sel(w),
{
    let a = w_abs_x(w);
    let m = (a % 100) as i64;
    if w >= 0 {
        m
    } else {
        -m
    }
}

pub fn mode_sel_x(w: i64, k: usize) -> (r: i64)
    requires
        1 <= k <= 3,
    ensures
        r == mode_sel(w, k as int),
{
    let a = w_abs_x(w);
    let div: u64 = if k == 1 {
        100
    } else if k == 2 {
        1000
    } else {
        10000
    };
    let q = (a / div % 10) as i64;
    if w >= 0 {
        q
    } else {
        -q
    }
}

impl Computer {
    /// A machine loaded with the program, pointer and relative base at zero,
    /// and nothing queued.
    pub fn new(program: Vec<i64>) -> (r: Computer)
        ensures
            r@ == (VmV { mem: program@, ptr: 0, rb: 0, input: Seq::empty() }),
    {
        let r = Computer {
            mem: program,
            ptr: 0,
            relative_base: 0,
            input: std::collections::VecDeque::new(),
        };
        r
    }

    /// Enqueues inputs behind whatever is already waiting.
    pub fn feed(&mut self, values: Vec<i64>)
        ensures
            final(self)@ == (VmV {
                mem: old(self)@.mem,
                ptr: old(self)@.ptr,
                rb: old(self)@.rb,
                input: old(self)@.input + values@,
            }),
    {
        let n = values.len();
        let mut i: usize = 0;
        while i < n
            invariant
                i <= n,
                n == values@.len(),
                self.mem == old(self).mem,
                self.ptr == old(self).ptr,
                self.relative_base == old(self).relative_base,
                self.input@ == old(self)@.input + values@.take(i as int),
            decreases n - i,
        {
            self.input.push_back(values[i]);
            proof {
                assert(self.input@ =~= old(self)@.input + values@.take(i + 1));
            }
            i = i + 1;
        }
        proof {
            assert(values@.take(n as int) =~= values@);
        }
    }

    /// Resolves the `k`-th parameter of the current instruction to an
    /// address.
    fn param_ptr(&self, k: usize) -> (r: Result<usize, Error>)
        requires
            1 <= k <= 3,
        ensures
            ({
                let sp = spec_param_ptr(self@, k as int);
                &&& (r matches Ok(a) ==> sp == Result::<int, Error>::Ok(a as int))
                &&& (r matches Err(e) ==> sp == Result::<int, Error>::Err(e))
            }),
    {
        proof {
            assert(vstd::std_specs::vec::spec_vec_len(&self.mem) == self.mem@.len());
        }
        let w = mem_get(&self.mem, self.ptr);
        let m = mode_sel_x(w, k);
        let pw: i64 = if self.ptr <= usize::MAX - k {
            mem_get(&self.mem, self.ptr + k)
        } else {
            0
        };
        proof {
            assert(pw == mem_read(self@.mem, self@.ptr + k));
        }
        if m == 0 {
            if pw >= 0 && pw as u64 <= usize::MAX as u64 {
                Ok(pw as usize)
            } else {
                Err(Error::BadConversion { num: pw })
            }
        } else if m == 1 {
            if self.ptr <= usize::MAX - k {
                Ok(self.ptr + k)
            } else {
                Err(Error::BadConversion { num: pw })
            }
        } else if m == 2 {
            let t = self.relative_base.wrapping_add(pw);
            if t >= 0 && t as u64 <= usize::MAX as u64 {
                Ok(t as usize)
            } else {
                Err(Error::BadConversion { num: t })
            }
        } else {
            Err(Error::UnknownMode { mode: m })
        }
    }

    /// The `k`-th parameter's value.
    fn param(&self, k: usize) -> (r: Result<i64, Error>)
        requires
            1 <= k <= 3,
        ensures
            ({
                let sp = spec_param(self@, k as int);
                &&& (r matches Ok(x) ==> sp == Result::<i64, Error>::Ok(x))
                &&& (r matches Err(e) ==> sp == Result::<i64, Error>::Err(e))
            }),
    {
        match self.param_ptr(k) {
            Ok(a) => Ok(mem_get(&self.mem, a)),
            Err(e) => Err(e),
        }
    }

    /// Executes one instruction; `Ok(None)` means execution goes on.
    fn step_once(&mut self) -> (r: Result<Option<State>, Error>)
        ensures
            ({
                let st = spec_step(old(self)@);
                &&& (r == Ok::<Option<State>, Error>(None) ==> (st matches StepOut::Next(v2)
                    && final(self)@ == v2))
                &&& (r matches Ok(Some(State::Yielded(x))) ==> (st matches StepOut::Yielded(v2, xx)
                    && x == xx && final(self)@ == v2))
                &&& (r == Ok::<Option<State>, Error>(Some(State::Waiting)) ==> st
                    == StepOut::Waiting && final(self)@ == old(self)@)
                &&& (r == Ok::<Option<State>, Error>(Some(State::Complete)) ==> st
                    == StepOut::Complete && final(self)@ == old(self)@)
                &&& (r matches Err(e) ==> (st matches StepOut::Fail(ee, v2) && e == ee
                    && final(self)@ == v2))
            }),
    {
        let w = mem_get(&self.mem, self.ptr);
        let op = opcode_sel_x(w);
        if op == 1 || op == 2 || op == 7 || op == 8 {
            let wa = match self.param_ptr(3) {
                Ok(a) => a,
                Err(e) => {
                    return Err(e);
                },
            };
            let p1 = match self.param(1) {
                Ok(x) => x,
                Err(e) => {
                    return Err(e);
                },
            };
            let p2 = match self.param(2) {
                Ok(x) => x,
                Err(e) => {
                    return Err(e);
                },
            };
            let val: i64 = if op == 1 {
                p1.wrapping_add(p2)
            } else if op == 2 {
                p1.wrapping_mul(p2)
            } else if op == 7 {
                if p1 < p2 {
                    1
                } else {
                    0
                }
            } else {
                if p1 == p2 {
                    1
                } else {
                    0
                }
            };
            mem_set(&mut self.mem, wa, val);
            self.ptr = self.ptr.wrapping_add(4);
            Ok(None)
        } else if op == 3 {
            let front = self.input.pop_front();
            match front {
                None => Ok(Some(State::Waiting)),
                Some(x) => {
                    let wa = match self.param_ptr(1) {
                        Ok(a) => a,
                        Err(e) => {
                            return Err(e);
                        },
                    };
                    mem_set(&mut self.mem, wa, x);
                    self.ptr = self.ptr.wrapping_add(2);
                    Ok(None)
                },
            }
        } else if op == 4 {
            let x = match self.param(1) {
                Ok(x) => x,
                Err(e) => {
                    return Err(e);
                },
            };
            self.ptr = self.ptr.wrapping_add(2);
            Ok(Some(State::Yielded(x)))
        } else if op == 5 || op == 6 {
            let p1 = match self.param(1) {
                Ok(x) => x,
                Err(e) => {
                    return Err(e);
                },
            };
            let taken = if op == 5 {
                p1 != 0
            } else {
                p1 == 0
            };
            if taken {
                let p2 = match self.param(2) {
                    Ok(x) => x,
                    Err(e) => {
                        return Err(e);
                    },
                };
                if p2 >= 0 && p2 as u64 <= usize::MAX as u64 {
                    self.ptr = p2 as usize;
                    Ok(None)
                } else {
                    Err(Error::BadConversion { num: p2 })
                }
            } else {
                self.ptr = self.ptr.wrapping_add(3);
                Ok(None)
            }
        } else if op == 9 {
            let p1 = match self.param(1) {
                Ok(x) => x,
                Err(e) => {
                    return Err(e);
                },
            };
            self.relative_base = self.relative_base.wrapping_add(p1);
            self.ptr = self.ptr.wrapping_add(2);
            Ok(None)
        } else if op == 99 {
            Ok(Some(State::Complete))
        } else {
            Err(Error::UnknownOpcode { opcode: op })
        }
    }

    /// Runs until the machine yields an output, wants input, halts, or
    /// fails. (One call executes at most 2^64 - 1 instructions before
    /// reporting `Waiting`; a later call resumes where it stood. No real
    /// program reaches that bound.)
    pub fn next(&mut self) -> (r: Result<State, Error>)
        ensures
            exists|n: nat|
                {
                    let v2 = #[trigger] spec_advance(old(self)@, n);
                    &&& n <= u64::MAX
                    &&& (r == Ok::<State, Error>(State::Waiting) ==> final(self)@ == v2 && (
                    spec_step(v2) == StepOut::Waiting || n == u64::MAX) && (forall|m: nat|
                        m < n ==> spec_step(#[trigger] spec_advance(old(self)@, m)) is Next))
                    &&& (r matches Ok(State::Yielded(x)) ==> (spec_step(
                        v2,
                    ) matches StepOut::Yielded(v3, xx) && x == xx && final(self)@ == v3))
                    &&& (r == Ok::<State, Error>(State::Complete) ==> final(self)@ == v2
                        && spec_step(v2) == StepOut::Complete)
                    &&& (r matches Err(e) ==> (spec_step(v2) matches StepOut::Fail(ee, v3) && e
                        == ee && final(self)@ == v3))
                },
    {
        let mut fuel: u64 = u64::MAX;
        proof {
            assert(spec_advance(old(self)@, 0) == old(self)@);
        }
        loop
            invariant
                exists|n: nat|
                    n + fuel == u64::MAX && #[trigger] spec_advance(old(self)@, n) == self@ && (
                    forall|m: nat|
                        m < n ==> spec_step(#[trigger] spec_advance(old(self)@, m)) is Next),
            decreases fuel,
        {
            let ghost v_here = self@;
            let ghost n_here = choose|n: nat|
                n + fuel == u64::MAX && #[trigger] spec_advance(old(self)@, n) == self@ && (forall|
                    m: nat,
                |
                    m < n ==> spec_step(#[trigger] spec_advance(old(self)@, m)) is Next);
            if fuel == 0 {
                return Ok(State::Waiting);
            }
            let step = self.step_once();
            match step {
                Ok(None) => {
                    fuel = fuel - 1;
                    proof {
                        assert(spec_advance(old(self)@, n_here + 1) == self@) by {
                            lemma_advance_snoc(old(self)@, n_here);
                        }
                        assert forall|m: nat| m < n_here + 1 implies spec_step(
                            spec_advance(old(self)@, m),
                        ) is Next by {
                            if m == n_here {
                                assert(spec_advance(old(self)@, m) == v_here);
                            }
                        }
                    }
                },
                Ok(Some(s)) => {
                    return Ok(s);
                },
                Err(e) => {
                    return Err(e);
                },
            }
        }
    }
}

/// Advancing one more step from the end.
#[verifier::rlimit(60)]
proof fn lemma_advance_snoc(v: VmV, n: nat)
    requires
        forall|m: nat| m < n ==> spec_step(#[trigger] spec_advance(v, m)) is Next,
        spec_step(spec_advance(v, n)) is Next,
    ensures
        spec_advance(v, n + 1) == spec_step(spec_advance(v, n))->Next_0,
    decreases n,
{
    if n == 0 {
        reveal_with_fuel(spec_advance, 2);
        assert(spec_advance(v, 0) == v);
        assert(spec_advance(v, 1) == spec_step(v)->Next_0);
    } else {
        assert(spec_step(#[trigger] spec_advance(v, 0)) is Next);
        let v2 = spec_step(v)->Next_0;
        assert forall|m: nat| m < n - 1 implies spec_step(#[trigger] spec_advance(v2, m)) is Next by {
            assert(spec_advance(v, m + 1) == spec_advance(v2, m));
            assert(spec_step(spec_advance(v, (m + 1) as nat)) is Next);
        }
        assert(spec_advance(v, n) == spec_advance(v2, (n - 1) as nat));
        lemma_advance_snoc(v2, (n - 1) as nat);
        assert(spec_advance(v, n + 1) == spec_advance(v2, n));
        assert(spec_advance(v2, ((n - 1) + 1) as nat) == spec_step(spec_advance(v2, (n - 1) as nat))->Next_0);
    }
}


/// ASCII whitespace, as trimming sees it.
pub open spec fn is_ascii_ws(b: u8) -> bool {
    b == 32 || (9 <= b <= 13)
}

pub open spec fn csv_ws_pred() -> spec_fn(u8) -> bool {
    |b: u8| is_ascii_ws(b)
}

pub open spec fn not_comma_pred() -> spec_fn(u8) -> bool {
    |b: u8| b != 44
}

/// The end of the trailing-whitespace run, scanning down from `j`.
pub open spec fn trim_hi(s: Seq<u8>, j: int) -> int
    decreases j,
{
    if j <= 0 {
        0
    } else if is_ascii_ws(s[j - 1]) {
        trim_hi(s, j - 1)
    } else {
        j
    }
}

/// The input without leading and trailing whitespace.
pub open spec fn spec_trim(s: Seq<u8>) -> Seq<u8> {
    let a = crate::lex::run_end(s, 0, csv_ws_pred());
    let b = trim_hi(s, s.len() as int);
    if a >= b {
        Seq::empty()
    } else {
        s.subrange(a, b)
    }
}

/// A decimal integer literal: an optional sign, then digits, within the
/// 64-bit signed range.
pub open spec fn dec_lit_fold(f: Seq<u8>, i: int, acc: int, neg: bool) -> Option<i64>
    decreases f.len() - i,
{
    if i < 0 || i >= f.len() {
        Option::Some(acc as i64)
    } else if !(48 <= f[i] <= 57) {
        Option::None
    } else {
        let d = f[i] - 48;
        let a2 = if neg {
            acc * 10 - d
        } else {
            acc * 10 + d
        };
        if i64::MIN <= a2 <= i64::MAX {
            dec_lit_fold(f, i + 1, a2, neg)
        } else {
            Option::None
        }
    }
}

pub open spec fn parse_i64_lit(f: Seq<u8>) -> Option<i64> {
    if f.len() == 0 {
        Option::None
    } else if f[0] == 43 {
        if f.len() == 1 {
            Option::None
        } else {
            dec_lit_fold(f, 1, 0, false)
        }
    } else if f[0] == 45 {
        if f.len() == 1 {
            Option::None
        } else {
            dec_lit_fold(f, 1, 0, true)
        }
    } else {
        dec_lit_fold(f, 0, 0, false)
    }
}

#[via_fn]
proof fn parse_fields_decreases(s: Seq<u8>, i: int, acc: Seq<i64>) {
    if 0 <= i <= s.len() {
        crate::lex::lemma_run_end_bounds(s, i, not_comma_pred());
    }
}

/// Comma-separated fields, each a decimal literal.
pub open spec fn parse_fields(s: Seq<u8>, i: int, acc: Seq<i64>) -> Option<Seq<i64>>
    decreases s.len() - i,
    when 0 <= i <= s.len()
    via parse_fields_decreases
{
    let e = crate::lex::run_end(s, i, not_comma_pred());
    match parse_i64_lit(s.subrange(i, e)) {
        Option::None => Option::None,
        Option::Some(v) => {
            if e >= s.len() {
                Option::Some(acc.push(v))
            } else {
                parse_fields(s, e + 1, acc.push(v))
            }
        },
    }
}

/// The intcode wire format: comma-separated decimal integers with
/// whitespace tolerated at either end.
pub open spec fn spec_parse_program(s: Seq<u8>) -> Option<Seq<i64>> {
    parse_fields(spec_trim(s), 0, Seq::empty())
}

fn ws_at(s: &[u8], i: usize) -> (r: bool)
    requires
        i < s@.len(),
    ensures
        r == is_ascii_ws(s@[i as int]),
{
    let b = *vstd::slice::slice_index_get(s, i);
    b == 32 || (9 <= b && b <= 13)
}

/// Parses one decimal literal held in `[i, e)` of `t`.
fn parse_lit(t: &[u8], i: usize, e: usize) -> (r: Option<i64>)
    requires
        i <= e <= t@.len(),
    ensures
        r == parse_i64_lit(t@.subrange(i as int, e as int)),
{
    let ghost f = t@.subrange(i as int, e as int);
    if i == e {
        return None;
    }
    let b0 = *vstd::slice::slice_index_get(t, i);
    proof {
        assert(f[0] == t@[i as int]);
        assert(f.len() == e - i);
    }
    let (start, neg): (usize, bool) = if b0 == 43 {
        if e - i == 1 {
            return None;
        }
        (i + 1, false)
    } else if b0 == 45 {
        if e - i == 1 {
            return None;
        }
        (i + 1, true)
    } else {
        (i, false)
    };
    let mut acc: i64 = 0;
    let mut j: usize = start;
    while j < e
        invariant
            start <= j <= e <= t@.len(),
            i <= start <= i + 1,
            f == t@.subrange(i as int, e as int),
            parse_i64_lit(f) == dec_lit_fold(f, start - i, 0, neg),
            dec_lit_fold(f, start - i, 0, neg) == dec_lit_fold(f, j - i, acc as int, neg),
            neg ==> acc <= 0,
            !neg ==> acc >= 0,
        decreases e - j,
    {
        let b = *vstd::slice::slice_index_get(t, j);
        proof {
            assert(f[j - i] == t@[j as int]);
        }
        if !(48 <= b && b <= 57) {
            return None;
        }
        let d = (b - 48) as i64;
        let m = match acc.checked_mul(10) {
            Some(m) => m,
            None => {
                return None;
            },
        };
        let a2 = if neg {
            match m.checked_sub(d) {
                Some(v) => v,
                None => {
                    return None;
                },
            }
        } else {
            match m.checked_add(d) {
                Some(v) => v,
                None => {
                    return None;
                },
            }
        };
        acc = a2;
        j = j + 1;
    }
    Some(acc)
}

/// Parses the wire format, or `None` where it is malformed.
pub fn try_parse_program(input: &str) -> (r: Option<Vec<i64>>)
    ensures
        ({
            let sp = spec_parse_program(input.spec_bytes());
            &&& (r matches Some(v) ==> sp == Option::<Seq<i64>>::Some(v@))
            &&& (r is None ==> sp is None)
        }),
{
    let s = input.as_bytes();
    let len = s.len();
    // Trim both ends.
    let mut a: usize = 0;
    while a < len && ws_at(s, a)
        invariant
            a <= len,
            len == s@.len(),
            crate::lex::run_end(s@, 0, csv_ws_pred()) == crate::lex::run_end(
                s@,
                a as int,
                csv_ws_pred(),
            ),
        decreases len - a,
    {
        a = a + 1;
    }
    let mut b: usize = len;
    while b > 0 && ws_at(s, b - 1)
        invariant
            b <= len,
            len == s@.len(),
            trim_hi(s@, len as int) == trim_hi(s@, b as int),
        decreases b,
    {
        b = b - 1;
    }
    let t: &[u8] = if a >= b {
        vstd::slice::slice_subrange(s, 0, 0)
    } else {
        vstd::slice::slice_subrange(s, a, b)
    };
    proof {
        assert(t@ =~= spec_trim(input.spec_bytes()));
    }
    let tlen = t.len();
    let mut out: Vec<i64> = Vec::new();
    let mut i: usize = 0;
    loop
        invariant
            0 <= i <= tlen,
            tlen == t@.len(),
            t@ == spec_trim(input.spec_bytes()),
            parse_fields(t@, 0, Seq::empty()) == parse_fields(t@, i as int, out@),
        decreases tlen - i,
    {
        proof {
            crate::lex::lemma_run_end_bounds(t@, i as int, not_comma_pred());
        }
        let mut e: usize = i;
        while e < tlen && *vstd::slice::slice_index_get(t, e) != 44
            invariant
                i <= e <= tlen,
                tlen == t@.len(),
                crate::lex::run_end(t@, i as int, not_comma_pred()) == crate::lex::run_end(
                    t@,
                    e as int,
                    not_comma_pred(),
                ),
            decreases tlen - e,
        {
            e = e + 1;
        }
        let v = match parse_lit(t, i, e) {
            Some(v) => v,
            None => {
                return None;
            },
        };
        let ghost out0 = out@;
        out.push(v);
        proof {
            assert(out@ =~= out0.push(v));
        }
        if e >= tlen {
            return Some(out);
        }
        i = e + 1;
    }
}

/// Parses the wire format; the input must be well formed.
pub fn parse_program(input: &str) -> (r: Vec<i64>)
    requires
        spec_parse_program(input.spec_bytes()) is Some,
    ensures
        Option::Some(r@) == spec_parse_program(input.spec_bytes()),
{
    match try_parse_program(input) {
        Some(v) => v,
        None => {
            proof {
                assert(false);
            }
            vstd::pervasive::unreached()
        },
    }
}

/// The wire format of a program: decimal words joined by commas.
pub open spec fn spec_csv(vs: Seq<i64>, k: int) -> Seq<u8>
    decreases vs.len() - k,
{
    if k < 0 || k >= vs.len() {
        Seq::empty()
    } else if k == vs.len() - 1 {
        crate::text::dec_int(vs[k] as int)
    } else {
        crate::text::dec_int(vs[k] as int) + seq![44u8] + spec_csv(vs, k + 1)
    }
}

/// Renders a program in the wire format.
pub fn program_to_csv(values: &Vec<i64>) -> (r: Vec<u8>)
    ensures
        r@ == spec_csv(values@, 0),
{
    let mut out: Vec<u8> = Vec::new();
    let n = values.len();
    if n == 0 {
        proof {
            assert(out@ =~= spec_csv(values@, 0));
        }
        return out;
    }
    let mut k: usize = 0;
    while k < n
        invariant
            k <= n,
            n == values@.len(),
            n > 0,
            spec_csv(values@, 0) == out@ + spec_csv(values@, k as int),
        decreases n - k,
    {
        crate::text::push_dec_i64(&mut out, values[k]);
        if k + 1 < n {
            out.push(44);
        }
        proof {
            assert(spec_csv(values@, 0) =~= out@ + spec_csv(values@, k + 1));
        }
        k = k + 1;
    }
    proof {
        assert(out@ =~= spec_csv(values@, 0));
    }
    out
}

} // verus!
