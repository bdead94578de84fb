//! The run-length encoder: merges maximal runs of identical
//! arithmetic, movement and I/O symbols into single operations
//! carrying a repeat count, and turns each loop bracket into its own
//! unit operation with a placeholder operand.

use vstd::prelude::*;
use crate::ops::{is_loop_kind, is_symbol, symbol_kind, Op, OpKind};

verus! {

/// The run-length encoding of a symbol sequence, defined one symbol
/// at a time: a bracket always becomes its own operation with
/// operand 0; any other symbol extends the last operation when that
/// operation has the same kind, and otherwise starts a run of length
/// one. Adjacent but non-identical symbols therefore never merge.
pub open spec fn encode(s: Seq<char>) -> Seq<Op>
    recommends
        forall|j: int| 0 <= j < s.len() ==> is_symbol(s[j]),
    decreases s.len(),
{
    if s.len() == 0 {
        Seq::empty()
    } else {
        let rest = encode(s.drop_last());
        let k = symbol_kind(s.last());
        if is_loop_kind(k) {
            rest.push(Op { kind: k, operand: 0 })
        } else if rest.len() > 0 && rest.last().kind == k {
            rest.update(
                rest.len() - 1,
                Op { kind: k, operand: (rest.last().operand + 1) as usize },
            )
        } else {
            rest.push(Op { kind: k, operand: 1 })
        }
    }
}

/// No operation of an encoding is longer than the sequence it came
/// from: every repeat count is at most `s.len()`, and there are at
/// most `s.len()` operations.
pub proof fn lemma_encode_bounds(s: Seq<char>)
    ensures
        encode(s).len() <= s.len(),
        forall|j: int| 0 <= j < encode(s).len() ==> (#[trigger] encode(s)[j]).operand <= s.len(),
    decreases s.len(),
{
    if s.len() == 0 {
    } else {
        lemma_encode_bounds(s.drop_last());
    }
}

/// Run-length encode a filtered symbol sequence in one linear pass.
pub fn encode_runs(chars: &Vec<char>) -> (r: Vec<Op>)
    requires
        forall|j: int| 0 <= j < chars@.len() ==> is_symbol(chars@[j]),
    ensures
        r@ == encode(chars@),
{
    let mut ops: Vec<Op> = Vec::new();
    let mut i: usize = 0;
    while i < chars.len()
        invariant
            i <= chars@.len(),
            forall|j: int| 0 <= j < chars@.len() ==> is_symbol(chars@[j]),
            ops@ == encode(chars@.take(i as int)),
        decreases chars@.len() - i,
    {
        let c = chars[i];
        let k = match OpKind::from_char(c) {
            Ok(k) => k,
            Err(()) => {
                proof {
                    assert(is_symbol(chars@[i as int]));
                }
                unreached()
            },
        };
        let is_bracket = k == OpKind::LoopStart || k == OpKind::LoopEnd;
        proof {
            assert(chars@.take(i + 1).drop_last() =~= chars@.take(i as int));
            assert(chars@.take(i + 1).last() == chars@[i as int]);
            lemma_encode_bounds(chars@.take(i as int));
        }
        let len = ops.len();
        if !is_bracket && len > 0 && ops[len - 1].kind == k {
            let count = ops[len - 1].operand;
            ops.set(len - 1, Op { kind: k, operand: count + 1 });
        } else {
            ops.push(Op { kind: k, operand: if is_bracket { 0 } else { 1 } });
        }
        i = i + 1;
    }
    proof {
        assert(chars@.take(chars@.len() as int) =~= chars@);
    }
    ops
}

} // verus!
