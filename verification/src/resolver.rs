//! The jump resolver: links every loop bracket operation to its
//! structural partner with a single linear pass over a stack of
//! pending open brackets, validating balance as it goes.

use vstd::prelude::*;
use crate::errors::RunError;
use crate::ops::{is_loop_kind, Op, OpKind};

verus! {

/// The kind of the bracket that matches a given bracket kind.
pub open spec fn partner_kind(k: OpKind) -> OpKind
    recommends
        is_loop_kind(k),
{
    if k == OpKind::LoopStart {
        OpKind::LoopEnd
    } else {
        OpKind::LoopStart
    }
}

/// A fully resolved program: every loop bracket's operand is the
/// index of a bracket of the opposite kind whose operand points back,
/// with opens pointing right and closes pointing left. The pairing is
/// an involution without fixed points, hence a bijection between the
/// open and the close brackets.
pub open spec fn resolved(p: Seq<Op>) -> bool {
    forall|i: int|
        #![trigger p[i]]
        0 <= i < p.len() && is_loop_kind(p[i].kind) ==> {
            let m = p[i].operand as int;
            &&& m < p.len()
            &&& p[m].kind == partner_kind(p[i].kind)
            &&& p[m].operand == i
            &&& (p[i].kind == OpKind::LoopStart ==> i < m)
            &&& (p[i].kind == OpKind::LoopEnd ==> m < i)
        }
}

/// Resolved pairs never cross: a pair that opens strictly inside
/// another pair also closes strictly inside it. Together with
/// `resolved` this pins the pairing down to the one structural
/// (properly nested) matching of opens to closes.
pub open spec fn properly_nested(p: Seq<Op>) -> bool {
    forall|i1: int, i2: int|
        #![trigger p[i1], p[i2]]
        0 <= i1 < p.len() && 0 <= i2 < p.len() && p[i1].kind == OpKind::LoopStart && p[i2].kind
            == OpKind::LoopStart && i1 < i2 < p[i1].operand as int ==> p[i2].operand
            < p[i1].operand
}

/// One step of resolution per index. `i` is the next index to
/// process, `opens` counts the open brackets seen so far, `stack`
/// holds the indices of the pending open brackets, and `acc` is `ops`
/// with the pairs closed so far already linked. A close bracket pops
/// the most recent pending open and links the two operands; a close
/// with nothing pending is fatal, distinguished by whether any open
/// was seen at all; a pending open surviving to the end is fatal at
/// the first such open.
pub open spec fn resolve_from(
    ops: Seq<Op>,
    i: nat,
    opens: nat,
    stack: Seq<usize>,
    acc: Seq<Op>,
) -> Result<Seq<Op>, RunError>
    decreases ops.len() - i,
{
    if i >= ops.len() {
        if stack.len() == 0 {
            Ok(acc)
        } else {
            Err(RunError::UnmatchedOpenBracket { index: stack[0] })
        }
    } else if ops[i as int].kind == OpKind::LoopStart {
        resolve_from(ops, i + 1, opens + 1, stack.push(i as usize), acc)
    } else if ops[i as int].kind == OpKind::LoopEnd {
        if stack.len() > 0 {
            let j = stack.last();
            resolve_from(
                ops,
                i + 1,
                opens,
                stack.drop_last(),
                acc.update(j as int, Op { kind: OpKind::LoopStart, operand: i as usize }).update(
                    i as int,
                    Op { kind: OpKind::LoopEnd, operand: j },
                ),
            )
        } else if opens == 0 {
            Err(RunError::UnmatchedCloseBracketNoOpen { index: i as usize })
        } else {
            Err(RunError::UnmatchedCloseBracketBeforeOpen { index: i as usize })
        }
    } else {
        resolve_from(ops, i + 1, opens, stack, acc)
    }
}

/// The resolution of a whole operation sequence.
pub open spec fn resolve(ops: Seq<Op>) -> Result<Seq<Op>, RunError> {
    resolve_from(ops, 0, 0, Seq::empty(), ops)
}

/// The intermediate well-formedness of a resolution pass: the suffix
/// from `i` on is untouched, kinds are everywhere preserved, the
/// stack is increasing and holds open brackets left of `i`, and every
/// bracket left of `i` that is not pending is already linked to a
/// partner that is itself settled.
#[verifier::opaque]
spec fn resolving_inv(ops: Seq<Op>, i: nat, stack: Seq<usize>, acc: Seq<Op>) -> bool {
    &&& ops.len() <= usize::MAX
    &&& i <= ops.len()
    &&& acc.len() == ops.len()
    &&& (forall|k: int| i <= k < ops.len() ==> acc[k] == ops[k])
    &&& (forall|k: int| 0 <= k < ops.len() ==> (#[trigger] acc[k]).kind == ops[k].kind)
    &&& (forall|k: int| 0 <= k < i && !is_loop_kind(ops[k].kind) ==> acc[k] == ops[k])
    &&& (forall|t: int, u: int| 0 <= t < u < stack.len() ==> stack[t] < stack[u])
    &&& (forall|t: int|
        0 <= t < stack.len() ==> (#[trigger] stack[t]) < i && acc[stack[t] as int].kind
            == OpKind::LoopStart)
    &&& (forall|k: int|
        #![trigger acc[k]]
        0 <= k < i && is_loop_kind(acc[k].kind) && !stack.contains(k as usize) ==> closed_at(
            acc,
            stack,
            i,
            k,
        ))
    &&& (forall|k: int, t: int|
        #![trigger acc[k], stack[t]]
        0 <= k < i && acc[k].kind == OpKind::LoopStart && !stack.contains(k as usize) && 0 <= t
            < stack.len() ==> !(k < stack[t] < acc[k].operand as int))
    &&& (forall|k1: int, k2: int|
        #![trigger acc[k1], acc[k2]]
        0 <= k1 < i && 0 <= k2 < i && acc[k1].kind == OpKind::LoopStart && acc[k2].kind
            == OpKind::LoopStart && !stack.contains(k1 as usize) && !stack.contains(k2 as usize)
            && k1 < k2 < acc[k1].operand as int ==> acc[k2].operand < acc[k1].operand)
}

/// Bracket `k` is already linked: its operand names a settled partner
/// left of `i`, of the opposite kind, pointing back, on the proper
/// side of `k`.
spec fn closed_at(acc: Seq<Op>, stack: Seq<usize>, i: nat, k: int) -> bool {
    let m = acc[k].operand as int;
    &&& m < i
    &&& !stack.contains(acc[k].operand)
    &&& acc[m].kind == partner_kind(acc[k].kind)
    &&& acc[m].operand == k
    &&& (acc[k].kind == OpKind::LoopStart ==> k < m)
    &&& (acc[k].kind == OpKind::LoopEnd ==> m < k)
}

/// Everything that holds of an accepted resolution: the pairing is
/// an involution, properly nested, length and kinds are preserved,
/// and operations that are not brackets come through unchanged.
#[verifier::opaque]
spec fn resolution_props(ops: Seq<Op>, r: Result<Seq<Op>, RunError>) -> bool {
    r is Ok ==> {
        let p = r->Ok_0;
        &&& resolved(p)
        &&& properly_nested(p)
        &&& p.len() == ops.len()
        &&& (forall|k: int| 0 <= k < ops.len() ==> (#[trigger] p[k]).kind == ops[k].kind)
        &&& (forall|k: int| 0 <= k < ops.len() && !is_loop_kind(ops[k].kind) ==> p[k] == ops[k])
    }
}

proof fn lemma_props_err(ops: Seq<Op>, e: RunError)
    ensures
        resolution_props(ops, Err(e)),
{
    reveal(resolution_props);
}

proof fn lemma_inv_after_open(ops: Seq<Op>, i: nat, stack: Seq<usize>, acc: Seq<Op>)
    requires
        resolving_inv(ops, i, stack, acc),
        i < ops.len(),
        ops[i as int].kind == OpKind::LoopStart,
    ensures
        resolving_inv(ops, i + 1, stack.push(i as usize), acc),
{
    reveal(resolving_inv);
    let stack2 = stack.push(i as usize);
    assert(stack2[stack.len() as int] == i as usize);
    assert forall|k: int|
        #![trigger stack2.contains(k as usize)]
        0 <= k < i + 1 && !stack2.contains(k as usize) implies !stack.contains(k as usize) && k
        != i as int by {
        assert(stack2.contains(i as usize));
        if stack.contains(k as usize) {
            let u = choose|u: int| 0 <= u < stack.len() && stack[u] == k as usize;
            assert(stack2[u] == k as usize);
        }
    }
    assert forall|k: int|
        #![trigger acc[k]]
        0 <= k < i + 1 && is_loop_kind(acc[k].kind) && !stack2.contains(k as usize) implies
    closed_at(acc, stack2, i + 1, k) by {
        assert(closed_at(acc, stack, i, k));
        let m = acc[k].operand;
        if stack2.contains(m) {
            let u = choose|u: int| 0 <= u < stack2.len() && stack2[u] == m;
            if u < stack.len() {
                assert(stack[u] == m);
            } else {
                assert(m == i as usize);
            }
            assert(false);
        }
    }
    assert forall|k: int, t: int|
        #![trigger acc[k], stack2[t]]
        0 <= k < i + 1 && acc[k].kind == OpKind::LoopStart && !stack2.contains(k as usize) && 0
            <= t < stack2.len() implies !(k < stack2[t] < acc[k].operand as int) by {
        assert(closed_at(acc, stack, i, k));
        if t == stack.len() {
            assert(stack2[t] == i as usize);
        } else {
            assert(stack2[t] == stack[t]);
        }
    }
}

proof fn lemma_inv_after_close(ops: Seq<Op>, i: nat, stack: Seq<usize>, acc: Seq<Op>)
    requires
        resolving_inv(ops, i, stack, acc),
        i < ops.len(),
        ops[i as int].kind == OpKind::LoopEnd,
        stack.len() > 0,
    ensures
        resolving_inv(
            ops,
            i + 1,
            stack.drop_last(),
            acc.update(stack.last() as int, Op { kind: OpKind::LoopStart, operand: i as usize })
                .update(i as int, Op { kind: OpKind::LoopEnd, operand: stack.last() }),
        ),
{
    reveal(resolving_inv);
    let j = stack.last();
    let stack2 = stack.drop_last();
    let acc2 = acc.update(j as int, Op { kind: OpKind::LoopStart, operand: i as usize }).update(
        i as int,
        Op { kind: OpKind::LoopEnd, operand: j },
    );
    assert(stack[stack.len() - 1] == j);
    assert(stack.contains(j));
    assert(j < i);
    assert forall|t: int| 0 <= t < stack2.len() implies (#[trigger] stack2[t]) < j by {
        assert(stack[t] < stack[stack.len() - 1]);
    }
    assert(!stack2.contains(j)) by {
        if stack2.contains(j) {
            let t = choose|t: int| 0 <= t < stack2.len() && stack2[t] == j;
            assert(stack2[t] < j);
        }
    }
    assert(!stack2.contains(i as usize)) by {
        if stack2.contains(i as usize) {
            let t = choose|t: int| 0 <= t < stack2.len() && stack2[t] == i as usize;
            assert(stack[t] < i as usize);
        }
    }
    assert forall|k: int|
        #![trigger stack2.contains(k as usize)]
        0 <= k < i + 1 && k != j as int && k != i as int && !stack2.contains(k as usize) implies
    !stack.contains(k as usize) by {
        if stack.contains(k as usize) {
            let u = choose|u: int| 0 <= u < stack.len() && stack[u] == k as usize;
            assert(u < stack.len() - 1);
            assert(stack2[u] == k as usize);
        }
    }
    assert forall|k: int|
        #![trigger acc2[k]]
        0 <= k < i + 1 && is_loop_kind(acc2[k].kind) && !stack2.contains(k as usize) implies
    closed_at(acc2, stack2, i + 1, k) by {
        if k == i as int {
            assert(acc2[i as int] == Op { kind: OpKind::LoopEnd, operand: j });
            assert(acc2[j as int] == Op { kind: OpKind::LoopStart, operand: i as usize });
        } else if k == j as int {
            assert(acc2[i as int] == Op { kind: OpKind::LoopEnd, operand: j });
        } else {
            assert(acc2[k] == acc[k]);
            assert(closed_at(acc, stack, i, k));
            let m = acc[k].operand as int;
            assert(m != j as int);
            assert(m != i as int);
            assert(acc2[m] == acc[m]);
            assert(!stack2.contains(acc[k].operand)) by {
                if stack2.contains(acc[k].operand) {
                    let t = choose|t: int| 0 <= t < stack2.len() && stack2[t] == acc[k].operand;
                    assert(stack[t] == acc[k].operand);
                }
            }
        }
    }
    assert forall|t: int| 0 <= t < stack2.len() implies (#[trigger] stack2[t]) < i + 1
        && acc2[stack2[t] as int].kind == OpKind::LoopStart by {
        assert(stack2[t] == stack[t]);
        assert(stack2[t] < j);
        assert(acc2[stack2[t] as int] == acc[stack2[t] as int]);
    }
    assert forall|k: int, t: int|
        #![trigger acc2[k], stack2[t]]
        0 <= k < i + 1 && acc2[k].kind == OpKind::LoopStart && !stack2.contains(k as usize) && 0
            <= t < stack2.len() implies !(k < stack2[t] < acc2[k].operand as int) by {
        assert(stack2[t] == stack[t]);
        assert(stack2[t] < j);
        if k == j as int {
        } else if k == i as int {
            assert(acc2[k].kind == OpKind::LoopEnd);
        } else {
            assert(acc2[k] == acc[k]);
        }
    }
    assert forall|k1: int, k2: int|
        #![trigger acc2[k1], acc2[k2]]
        0 <= k1 < i + 1 && 0 <= k2 < i + 1 && acc2[k1].kind == OpKind::LoopStart && acc2[k2].kind
            == OpKind::LoopStart && !stack2.contains(k1 as usize) && !stack2.contains(k2 as usize)
            && k1 < k2 < acc2[k1].operand as int implies acc2[k2].operand < acc2[k1].operand by {
        if k1 == i as int || k2 == i as int {
            assert(acc2[i as int].kind == OpKind::LoopEnd);
        } else if k1 == j as int {
            // the new pair spans (j, i); anything closed earlier ends
            // left of i
            assert(acc2[k2] == acc[k2]);
            assert(closed_at(acc, stack, i, k2));
            assert(acc2[k1].operand == i as usize);
        } else if k2 == j as int {
            // a pending open never sits inside an already closed
            // span, so j inside the span of k1 is impossible
            assert(acc2[k1] == acc[k1]);
            assert(stack[stack.len() - 1] == j);
            assert(!(k1 < j < acc[k1].operand as int));
            assert(false);
        } else {
            assert(acc2[k1] == acc[k1]);
            assert(acc2[k2] == acc[k2]);
        }
    }
}

proof fn lemma_inv_after_skip(ops: Seq<Op>, i: nat, stack: Seq<usize>, acc: Seq<Op>)
    requires
        resolving_inv(ops, i, stack, acc),
        i < ops.len(),
        !is_loop_kind(ops[i as int].kind),
    ensures
        resolving_inv(ops, i + 1, stack, acc),
{
    reveal(resolving_inv);
    assert forall|k: int|
        #![trigger acc[k]]
        0 <= k < i + 1 && is_loop_kind(acc[k].kind) && !stack.contains(k as usize) implies
    closed_at(acc, stack, i + 1, k) by {
        if k < i {
            assert(closed_at(acc, stack, i, k));
        } else {
            assert(acc[k] == ops[k]);
            assert(!is_loop_kind(acc[k].kind));
        }
    }
}

#[verifier::spinoff_prover]
#[verifier::rlimit(100)]
proof fn lemma_inv_accepts(ops: Seq<Op>, i: nat, stack: Seq<usize>, acc: Seq<Op>)
    requires
        resolving_inv(ops, i, stack, acc),
        i >= ops.len(),
        stack.len() == 0,
    ensures
        resolution_props(ops, Ok(acc)),
{
    reveal(resolving_inv);
    reveal(resolution_props);
}

proof fn lemma_resolve_from_resolved(
    ops: Seq<Op>,
    i: nat,
    opens: nat,
    stack: Seq<usize>,
    acc: Seq<Op>,
)
    requires
        resolving_inv(ops, i, stack, acc),
    ensures
        resolution_props(ops, resolve_from(ops, i, opens, stack, acc)),
    decreases ops.len() - i,
{
    if i >= ops.len() {
        if stack.len() == 0 {
            lemma_inv_accepts(ops, i, stack, acc);
        } else {
            lemma_props_err(ops, RunError::UnmatchedOpenBracket { index: stack[0] });
        }
    } else if ops[i as int].kind == OpKind::LoopStart {
        lemma_inv_after_open(ops, i, stack, acc);
        lemma_resolve_from_resolved(ops, i + 1, opens + 1, stack.push(i as usize), acc);
    } else if ops[i as int].kind == OpKind::LoopEnd {
        if stack.len() > 0 {
            lemma_inv_after_close(ops, i, stack, acc);
            lemma_resolve_from_resolved(
                ops,
                i + 1,
                opens,
                stack.drop_last(),
                acc.update(
                    stack.last() as int,
                    Op { kind: OpKind::LoopStart, operand: i as usize },
                ).update(i as int, Op { kind: OpKind::LoopEnd, operand: stack.last() }),
            );
        } else if opens == 0 {
            lemma_props_err(ops, RunError::UnmatchedCloseBracketNoOpen { index: i as usize });
        } else {
            lemma_props_err(ops, RunError::UnmatchedCloseBracketBeforeOpen { index: i as usize });
        }
    } else {
        lemma_inv_after_skip(ops, i, stack, acc);
        lemma_resolve_from_resolved(ops, i + 1, opens, stack, acc);
    }
}

/// Bracket resolution is a bijection: on any sequence it accepts,
/// every open bracket's operand is the index of its matching close
/// and that close's operand is the index of the open, kinds are
/// everywhere preserved, and operations that are not brackets come
/// through unchanged.
pub proof fn lemma_resolve_resolved(ops: Seq<Op>)
    requires
        ops.len() <= usize::MAX,
    ensures
        ({
            let r = resolve(ops);
            r is Ok ==> {
                let p = r->Ok_0;
                &&& resolved(p)
                &&& properly_nested(p)
                &&& p.len() == ops.len()
                &&& (forall|k: int| 0 <= k < ops.len() ==> (#[trigger] p[k]).kind == ops[k].kind)
                &&& (forall|k: int|
                    0 <= k < ops.len() && !is_loop_kind(ops[k].kind) ==> p[k] == ops[k])
            }
        }),
{
    assert(resolving_inv(ops, 0, Seq::empty(), ops)) by {
        reveal(resolving_inv);
    }
    lemma_resolve_from_resolved(ops, 0, 0, Seq::empty(), ops);
    reveal(resolution_props);
}

/// Resolve every loop bracket of a run-encoded operation sequence to
/// the index of its structural partner, in one linear pass.
pub fn resolve_jumps(ops: Vec<Op>) -> (r: Result<Vec<Op>, RunError>)
    ensures
        r matches Ok(v) ==> Ok::<Seq<Op>, RunError>(v@) == resolve(ops@) && resolved(v@)
            && properly_nested(v@),
        r matches Err(e) ==> Err::<Seq<Op>, RunError>(e) == resolve(ops@),
{
    let ghost orig = ops@;
    let oplen = ops.len();
    let mut acc = ops;
    let mut stack: Vec<usize> = Vec::new();
    let mut opens: usize = 0;
    let mut i: usize = 0;
    #[verifier::loop_isolation(false)]
    while i < oplen
        invariant
            oplen == orig.len(),
            acc@.len() == orig.len(),
            i <= orig.len(),
            opens <= i,
            forall|t: int| 0 <= t < stack@.len() ==> (#[trigger] stack@[t]) < i,
            forall|k: int| i <= k < orig.len() ==> acc@[k] == orig[k],
            resolve_from(orig, i as nat, opens as nat, stack@, acc@) == resolve(orig),
        decreases orig.len() - i,
    {
        let ghost g_stack = stack@;
        let ghost g_acc = acc@;
        let ghost g_opens = opens as nat;
        let op = acc[i];
        assert(op == orig[i as int]);
        if op.kind == OpKind::LoopStart {
            stack.push(i);
            opens = opens + 1;
            proof {
                assert(stack@ == g_stack.push(i));
                assert(resolve_from(orig, i as nat, g_opens, g_stack, g_acc) == resolve_from(
                    orig,
                    (i + 1) as nat,
                    g_opens + 1,
                    g_stack.push(i),
                    g_acc,
                ));
            }
        } else if op.kind == OpKind::LoopEnd {
            if stack.len() > 0 {
                let j = stack[stack.len() - 1];
                let _popped = stack.pop();
                acc.set(j, Op { kind: OpKind::LoopStart, operand: i });
                acc.set(i, Op { kind: OpKind::LoopEnd, operand: j });
                proof {
                    assert(j == g_stack.last());
                    assert(stack@ =~= g_stack.drop_last());
                    assert(acc@ =~= g_acc.update(
                        j as int,
                        Op { kind: OpKind::LoopStart, operand: i },
                    ).update(i as int, Op { kind: OpKind::LoopEnd, operand: j }));
                    assert(resolve_from(orig, i as nat, g_opens, g_stack, g_acc) == resolve_from(
                        orig,
                        (i + 1) as nat,
                        g_opens,
                        stack@,
                        acc@,
                    ));
                }
            } else if opens == 0 {
                proof {
                    assert(resolve_from(orig, i as nat, g_opens, g_stack, g_acc)
                        == Err::<Seq<Op>, RunError>(RunError::UnmatchedCloseBracketNoOpen {
                        index: i,
                    }));
                }
                return Err(RunError::UnmatchedCloseBracketNoOpen { index: i });
            } else {
                proof {
                    assert(resolve_from(orig, i as nat, g_opens, g_stack, g_acc)
                        == Err::<Seq<Op>, RunError>(RunError::UnmatchedCloseBracketBeforeOpen {
                        index: i,
                    }));
                }
                return Err(RunError::UnmatchedCloseBracketBeforeOpen { index: i });
            }
        } else {
            proof {
                assert(resolve_from(orig, i as nat, g_opens, g_stack, g_acc) == resolve_from(
                    orig,
                    (i + 1) as nat,
                    g_opens,
                    g_stack,
                    g_acc,
                ));
            }
        }
        i = i + 1;
    }
    if stack.len() == 0 {
        proof {
            assert(resolve_from(orig, i as nat, opens as nat, stack@, acc@) == Ok::<
                Seq<Op>,
                RunError,
            >(acc@));
            lemma_resolve_resolved(orig);
        }
        Ok(acc)
    } else {
        proof {
            assert(resolve_from(orig, i as nat, opens as nat, stack@, acc@) == Err::<
                Seq<Op>,
                RunError,
            >(RunError::UnmatchedOpenBracket { index: stack@[0] }));
        }
        Err(RunError::UnmatchedOpenBracket { index: stack[0] })
    }
}

} // verus!
