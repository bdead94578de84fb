//! The whole pipeline: filter the source text, run-length encode it,
//! resolve the loop brackets, and execute the result.

use vstd::prelude::*;
use crate::encoder::{encode, encode_runs};
use crate::errors::RunError;
use crate::lexer::{filter_symbols, lemma_filter_symbols_all, lexed};
use crate::machine::{
    fails_with, halted_state, init_state, run, run_spec, runs_to, Halted, State,
};
use crate::ops::{is_symbol, Op};
use crate::resolver::{properly_nested, resolve, resolve_jumps, resolved};

verus! {

/// Turn a filtered symbol sequence into an executable operation list:
/// run-length encode it, then resolve every loop bracket to the index
/// of its structural partner. Fails exactly where bracket resolution
/// fails.
pub fn get_ops(chars: Vec<char>) -> (r: Result<Vec<Op>, RunError>)
    requires
        forall|j: int| 0 <= j < chars@.len() ==> is_symbol(chars@[j]),
    ensures
        r matches Ok(v) ==> Ok::<Seq<Op>, RunError>(v@) == resolve(encode(chars@)) && resolved(
            v@,
        ) && properly_nested(v@),
        r matches Err(e) ==> Err::<Seq<Op>, RunError>(e) == resolve(encode(chars@)),
{
    let encoded = encode_runs(&chars);
    resolve_jumps(encoded)
}

/// Run a source text against the given input records on a fresh tape.
/// A source with no alphabet symbol at all is rejected as an empty
/// program; a bracket imbalance is reported as resolution found it;
/// otherwise the machine executes the resolved program, for at most
/// `step_budget` steps, and `None` reports a budget that ran out
/// before the program ended.
#[verifier::rlimit(50)]
pub fn interpret(source: &str, input: &Vec<u8>, step_budget: usize) -> (r: Option<
    Result<Halted, RunError>,
>)
    ensures
        filter_symbols(source@).len() == 0 ==> r == Some(
            Err::<Halted, RunError>(RunError::EmptyProgram),
        ),
        ({
            let syms = filter_symbols(source@);
            syms.len() > 0 ==> match resolve(encode(syms)) {
                Err(e) => r == Some(Err::<Halted, RunError>(e)),
                Ok(prog) => {
                    &&& (r matches Some(Ok(h)) ==> h.input_read <= input@.len() && runs_to(
                        prog,
                        input@,
                        halted_state(prog, input@, h),
                    ))
                    &&& (r matches Some(Err(e)) ==> fails_with(prog, input@, e))
                    &&& (r is None ==> run_spec(prog, init_state(input@), step_budget as nat)
                        == None::<Result<State, RunError>>)
                },
            }
        }),
{
    let chars = lexed(source);
    proof {
        lemma_filter_symbols_all(source@);
    }
    if chars.len() == 0 {
        return Some(Err(RunError::EmptyProgram));
    }
    let ops = match get_ops(chars) {
        Ok(ops) => ops,
        Err(e) => {
            return Some(Err(e));
        },
    };
    run(&ops, input, step_budget)
}

} // verus!
