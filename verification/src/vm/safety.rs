//! What can still go wrong at run time in a program that passed semantic
//! analysis: only what depends on the values that the program computes.

use super::calls::lemma_calls_match_arity;
use super::lowering::compile;
use super::model::steps;
use super::scoping::{depth_at, frame_covers, lemma_loaded_well_scoped, lemma_run_covers};
use super::stacking::{fits, frame_fits, frame_height, lemma_loaded_stack_safe, lemma_run_fits};
use super::vm::load;
use crate::ast::SpecProgram as SpecSource;
use crate::runtime_error::SpecFault;
use crate::semantic::is_valid;
use vstd::prelude::*;

verus! {

/// The faults that depend on the values a program computes: a variable
/// that is read before it was bound on the path taken, an operand that
/// is no integer, a zero divisor, a result out of range.
pub open spec fn is_value_fault(f: SpecFault) -> bool {
    f is UndefinedVariable || f is ExpectedInt || f is DivisionByZero || f is IntegerOverflow
}

/// Let a program that passes semantic analysis be compiled and loaded.
/// Then no step of a run from the start faults for want of operands, of
/// a frame, of a scope or of an instruction, nor on a call of an unknown
/// function or with the wrong number of arguments: a step succeeds, or
/// it faults on the values at hand.
pub proof fn lemma_only_value_faults(p: SpecSource, n: nat)
    requires
        is_valid(p),
        load(compile(p)->Ok_0) is Ok,
        steps(load(compile(p)->Ok_0)->Ok_0, n) is Some,
    ensures
        steps(load(compile(p)->Ok_0)->Ok_0, n)->Some_0.step() matches Err(f) ==> is_value_fault(f),
{
    let c = compile(p)->Ok_0;
    let s0 = load(c)->Ok_0;
    let s = steps(s0, n)->Some_0;
    let h = |pc: nat| frame_height(p.functions, p.functions.len(), pc);
    let limit = c.code.len();
    lemma_loaded_stack_safe(p);
    lemma_run_fits(s0, h, limit, n);
    lemma_loaded_well_scoped(p);
    lemma_run_covers(s0, n);
    reveal_strlit("main");
    reveal_strlit("print");
    if s.frames.len() > 0 {
        let top = s.frames.len();
        assert(frame_fits(s, h, limit, top));
        assert(frame_covers(s, top));
        assert(fits(s.code, h, limit, s.ip));
        assert(depth_at(s.code, s.ip) >= 0);
        assert(s.code[s.ip as int] == c.code[s.ip as int]);
        assert(s.stack.len() >= super::stacking::operands(s.code[s.ip as int]));
        if s.code[s.ip as int] is Call {
            lemma_calls_match_arity(p, s.ip as int);
        }
    } else {
        assert(s.functions == c.functions);
        assert("main"@.len() == 4);
        assert("print"@.len() == 5);
    }
}

} // verus!
