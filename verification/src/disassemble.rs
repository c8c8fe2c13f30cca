//! The disassembler: recovers an assembly syntax tree from raw intcode by
//! running it (dynamic marking), pattern matching what is left (static
//! marking), and naming the addresses that are referred to.

pub mod ast;
pub mod dynamically;
pub mod fmt;
pub mod labels;
pub mod program;
pub mod statically;

use vstd::prelude::*;

use crate::disassemble::ast::Ast;
use crate::disassemble::dynamically::{run_stops, runs_done, view_slots, Error, Run, SlotV};
use crate::disassemble::labels::spec_assign;
use crate::disassemble::program::{spec_read_off, Program, Slot};
use crate::disassemble::statically::spec_static_mark;

verus! {

/// A freshly loaded image: one slot per word, nothing marked, mentioned or
/// labelled.
pub open spec fn fresh_image(code: Seq<i64>) -> Seq<SlotV> {
    Seq::new(
        code.len(),
        |i: int|
            SlotV { raw: code[i], mark: Option::None, mentions: Seq::empty(), label: Option::None },
    )
}

/// Disassembles the intcode program into a syntax tree that can be printed.
///
/// Each `Run` drives one traced execution (dynamic marking); mentioned
/// targets are labelled, what stays unexplained is classified statically,
/// and labelling runs once more over the new marks. On success the result
/// is exactly that pipeline's read-off: the `ensures` exhibits the traced
/// image (by its view) and the runs' step counts. Failures come from the
/// traced runs (bad programs, starved input, mark conflicts) or from an
/// image whose marks do not line up.
pub fn to_ast(intcode: Vec<i64>, runs: Vec<Run>) -> (r: Result<Ast, Error>)
    ensures
        r matches Ok(ast) ==> exists|ns: Seq<nat>, mid: Seq<Slot>|
            {
                &&& ns.len() == runs@.len()
                &&& #[trigger] runs_done(
                    fresh_image(intcode@),
                    runs@,
                    ns,
                    0,
                    view_slots(mid),
                )
                &&& ({
                    let a1 = spec_assign(mid, 0, 0);
                    let st = spec_static_mark(a1.0);
                    let a2 = spec_assign(st, a1.1, 0);
                    spec_read_off(a2.0, 0, Seq::empty()) == Result::<
                        Seq<crate::disassemble::ast::StmtG>,
                        Error,
                    >::Ok(ast@)
                })
            },
        r matches Err(e) ==> (exists|ns: Seq<nat>, j: int, svm: Seq<SlotV>, n: nat|
            {
                &&& 0 <= j < runs@.len()
                &&& ns.len() == j
                &&& #[trigger] runs_done(fresh_image(intcode@), runs@.take(j), ns, 0, svm)
                &&& #[trigger] run_stops(svm, runs@[j], n, e)
            }) || (exists|ns: Seq<nat>, mid: Seq<Slot>|
            {
                &&& ns.len() == runs@.len()
                &&& #[trigger] runs_done(fresh_image(intcode@), runs@, ns, 0, view_slots(mid))
                &&& ({
                    let a1 = spec_assign(mid, 0, 0);
                    let st = spec_static_mark(a1.0);
                    let a2 = spec_assign(st, a1.1, 0);
                    spec_read_off(a2.0, 0, Seq::empty()) == Result::<
                        Seq<crate::disassemble::ast::StmtG>,
                        Error,
                    >::Err(e)
                })
            }),
{
    let ghost code = intcode@;
    let mut p = Program::new(intcode);
    proof {
        assert(view_slots(p.slots@) =~~= fresh_image(code));
    }
    let mut labels = labels::unique();
    match dynamically::mark(&mut p, runs) {
        Ok(()) => {},
        Err(e) => {
            return Err(e);
        },
    }
    let ghost mid = p.slots@;
    labels::assign(&mut p, &mut labels);
    statically::mark(&mut p);
    labels::assign(&mut p, &mut labels);
    p.into_ast()
}

} // verus!
