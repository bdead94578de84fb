//! The executor: a small virtual machine that interprets a resolved
//! operation list against a fixed-size byte tape, with wrapping
//! cell arithmetic, bounds-checked pointer movement, a caller-supplied
//! input stream and an output sequence built up in program order.

use vstd::prelude::*;
use vstd::arithmetic::div_mod::{
    lemma_add_mod_noop, lemma_mod_add_multiples_vanish, lemma_small_mod, lemma_sub_mod_noop,
};
use crate::errors::RunError;
use crate::ops::{is_loop_kind, Op, OpKind};
use crate::resolver::resolved;

verus! {

/// The number of byte cells on the tape.
pub const TAPE_LEN: usize = 30000;

/// The execution state: program counter, tape pointer, tape contents,
/// the input records not yet consumed, and everything emitted so far.
/// `pc == len(program)` is the terminal state.
pub ghost struct State {
    pub pc: nat,
    pub ptr: nat,
    pub tape: Seq<u8>,
    pub inp: Seq<u8>,
    pub out: Seq<u8>,
}

/// The state a run starts from: program counter and pointer at zero,
/// an all-zero tape, the whole input still to read, nothing emitted.
pub open spec fn init_state(input: Seq<u8>) -> State {
    State {
        pc: 0,
        ptr: 0,
        tape: Seq::new(TAPE_LEN as nat, |k: int| 0u8),
        inp: input,
        out: Seq::empty(),
    }
}

/// The states the machine ranges over: the program counter is a valid
/// index or exactly the program length, and the pointer is on the tape.
pub open spec fn valid_state(prog: Seq<Op>, s: State) -> bool {
    &&& s.pc <= prog.len()
    &&& s.ptr < TAPE_LEN
    &&& s.tape.len() == TAPE_LEN
}

/// A byte cell after adding `n` with wraparound modulo 256.
pub open spec fn wrap_add(v: u8, n: nat) -> u8 {
    ((v + n) % 256) as u8
}

/// A byte cell after subtracting `n` with wraparound modulo 256.
pub open spec fn wrap_sub(v: u8, n: nat) -> u8 {
    ((v - n) % 256) as u8
}

/// One transition of the machine, keyed on the operation at `pc`.
/// After every operation, including a taken jump, the program counter
/// advances by one more: a jump to a bracket resumes one operation
/// past that bracket. An input operation consumes a single record
/// whatever its run length; an output operation emits the current
/// cell once per unit of its run length.
pub open spec fn step(prog: Seq<Op>, s: State) -> Result<State, RunError>
    recommends
        s.pc < prog.len(),
        valid_state(prog, s),
{
    let op = prog[s.pc as int];
    let cell = s.tape[s.ptr as int];
    match op.kind {
        OpKind::Inc => Ok(
            State { pc: s.pc + 1, tape: s.tape.update(s.ptr as int, wrap_add(cell, op.operand as nat)), ..s },
        ),
        OpKind::Dec => Ok(
            State { pc: s.pc + 1, tape: s.tape.update(s.ptr as int, wrap_sub(cell, op.operand as nat)), ..s },
        ),
        OpKind::Right => if s.ptr + op.operand >= TAPE_LEN {
            Err(RunError::PointerOverflow { pc: s.pc as usize })
        } else {
            Ok(State { pc: s.pc + 1, ptr: (s.ptr + op.operand) as nat, ..s })
        },
        OpKind::Left => if op.operand > s.ptr {
            Err(RunError::PointerUnderflow { pc: s.pc as usize })
        } else {
            Ok(State { pc: s.pc + 1, ptr: (s.ptr - op.operand) as nat, ..s })
        },
        OpKind::Out => Ok(
            State { pc: s.pc + 1, out: s.out + Seq::new(op.operand as nat, |k: int| cell), ..s },
        ),
        OpKind::In => if s.inp.len() == 0 {
            Err(RunError::InputExhausted { pc: s.pc as usize })
        } else {
            Ok(
                State {
                    pc: s.pc + 1,
                    tape: s.tape.update(s.ptr as int, s.inp[0]),
                    inp: s.inp.drop_first(),
                    ..s
                },
            )
        },
        OpKind::LoopStart => Ok(
            State { pc: if cell == 0 { (op.operand + 1) as nat } else { s.pc + 1 }, ..s },
        ),
        OpKind::LoopEnd => Ok(
            State { pc: if cell != 0 { (op.operand + 1) as nat } else { s.pc + 1 }, ..s },
        ),
    }
}

/// Stepping from `s` with the given fuel: the terminal state once the
/// program counter falls off the end, the error of a failing step, or
/// nothing when the fuel runs out first.
pub open spec fn run_spec(prog: Seq<Op>, s: State, fuel: nat) -> Option<Result<State, RunError>>
    decreases fuel,
{
    if s.pc >= prog.len() {
        Some(Ok(s))
    } else if fuel == 0 {
        None
    } else {
        match step(prog, s) {
            Ok(s2) => run_spec(prog, s2, (fuel - 1) as nat),
            Err(e) => Some(Err(e)),
        }
    }
}

/// A run of `prog` on `input` reaches the terminal state `s`.
pub open spec fn runs_to(prog: Seq<Op>, input: Seq<u8>, s: State) -> bool {
    exists|fuel: nat| run_spec(prog, init_state(input), fuel) == Some(Ok::<State, RunError>(s))
}

/// A run of `prog` on `input` halts with the fatal error `e`.
pub open spec fn fails_with(prog: Seq<Op>, input: Seq<u8>, e: RunError) -> bool {
    exists|fuel: nat| run_spec(prog, init_state(input), fuel) == Some(Err::<State, RunError>(e))
}

/// `s2` is reached from `s1` in exactly `n` successful steps.
spec fn steps_ok(prog: Seq<Op>, s1: State, s2: State, n: nat) -> bool
    decreases n,
{
    if n == 0 {
        s1 == s2
    } else {
        s1.pc < prog.len() && match step(prog, s1) {
            Ok(m) => steps_ok(prog, m, s2, (n - 1) as nat),
            Err(_) => false,
        }
    }
}

proof fn lemma_steps_ok_snoc(prog: Seq<Op>, s1: State, s2: State, s3: State, n: nat)
    requires
        steps_ok(prog, s1, s2, n),
        s2.pc < prog.len(),
        step(prog, s2) == Ok::<State, RunError>(s3),
    ensures
        steps_ok(prog, s1, s3, n + 1),
    decreases n,
{
    if n == 0 {
        assert(s1 == s2);
        assert(steps_ok(prog, s3, s3, 0));
        assert(steps_ok(prog, s1, s3, 1));
    } else {
        let m = step(prog, s1)->Ok_0;
        lemma_steps_ok_snoc(prog, m, s2, s3, (n - 1) as nat);
        assert(steps_ok(prog, m, s3, ((n + 1) - 1) as nat));
    }
}

proof fn lemma_steps_ok_done(prog: Seq<Op>, s1: State, s2: State, n: nat)
    requires
        steps_ok(prog, s1, s2, n),
        s2.pc >= prog.len(),
    ensures
        run_spec(prog, s1, n) == Some(Ok::<State, RunError>(s2)),
    decreases n,
{
    if n == 0 {
    } else {
        let m = step(prog, s1)->Ok_0;
        lemma_steps_ok_done(prog, m, s2, (n - 1) as nat);
    }
}

proof fn lemma_steps_ok_fail(prog: Seq<Op>, s1: State, s2: State, n: nat, e: RunError)
    requires
        steps_ok(prog, s1, s2, n),
        s2.pc < prog.len(),
        step(prog, s2) == Err::<State, RunError>(e),
    ensures
        run_spec(prog, s1, n + 1) == Some(Err::<State, RunError>(e)),
    decreases n,
{
    if n == 0 {
    } else {
        let m = step(prog, s1)->Ok_0;
        lemma_steps_ok_fail(prog, m, s2, (n - 1) as nat, e);
    }
}

proof fn lemma_steps_ok_out_of_fuel(prog: Seq<Op>, s1: State, s2: State, n: nat)
    requires
        steps_ok(prog, s1, s2, n),
        s2.pc < prog.len(),
    ensures
        run_spec(prog, s1, n) == None::<Result<State, RunError>>,
    decreases n,
{
    if n == 0 {
    } else {
        let m = step(prog, s1)->Ok_0;
        lemma_steps_ok_out_of_fuel(prog, m, s2, (n - 1) as nat);
    }
}

proof fn lemma_run_spec_mono(prog: Seq<Op>, s: State, f1: nat, f2: nat)
    requires
        f1 <= f2,
        run_spec(prog, s, f1) is Some,
    ensures
        run_spec(prog, s, f2) == run_spec(prog, s, f1),
    decreases f1,
{
    if s.pc >= prog.len() {
    } else {
        match step(prog, s) {
            Ok(m) => {
                lemma_run_spec_mono(prog, m, (f1 - 1) as nat, (f2 - 1) as nat);
            },
            Err(_) => {},
        }
    }
}

/// Determinism: two runs of the same program against identical input
/// streams reach the same terminal state, so in particular they
/// produce identical output sequences.
pub proof fn lemma_run_deterministic(prog: Seq<Op>, input: Seq<u8>, s1: State, s2: State)
    requires
        runs_to(prog, input, s1),
        runs_to(prog, input, s2),
    ensures
        s1 == s2,
{
    let start = init_state(input);
    let f1 = choose|f: nat| run_spec(prog, start, f) == Some(Ok::<State, RunError>(s1));
    let f2 = choose|f: nat| run_spec(prog, start, f) == Some(Ok::<State, RunError>(s2));
    if f1 <= f2 {
        lemma_run_spec_mono(prog, start, f1, f2);
    } else {
        lemma_run_spec_mono(prog, start, f2, f1);
    }
}

/// A run has at most one outcome: it cannot both reach a terminal
/// state and halt with an error, and it cannot halt with two
/// different errors.
pub proof fn lemma_run_outcome_unique(prog: Seq<Op>, input: Seq<u8>)
    ensures
        forall|s: State, e: RunError|
            #![trigger runs_to(prog, input, s), fails_with(prog, input, e)]
            !(runs_to(prog, input, s) && fails_with(prog, input, e)),
        forall|e1: RunError, e2: RunError|
            #[trigger] fails_with(prog, input, e1) && #[trigger] fails_with(prog, input, e2)
                ==> e1 == e2,
{
    let start = init_state(input);
    assert forall|s: State, e: RunError|
        #![trigger runs_to(prog, input, s), fails_with(prog, input, e)]
        !(runs_to(prog, input, s) && fails_with(prog, input, e)) by {
        if runs_to(prog, input, s) && fails_with(prog, input, e) {
            let f1 = choose|f: nat| run_spec(prog, start, f) == Some(Ok::<State, RunError>(s));
            let f2 = choose|f: nat| run_spec(prog, start, f) == Some(Err::<State, RunError>(e));
            if f1 <= f2 {
                lemma_run_spec_mono(prog, start, f1, f2);
            } else {
                lemma_run_spec_mono(prog, start, f2, f1);
            }
        }
    }
    assert forall|e1: RunError, e2: RunError|
        #[trigger] fails_with(prog, input, e1) && #[trigger] fails_with(prog, input, e2)
            implies e1 == e2 by {
        let f1 = choose|f: nat| run_spec(prog, start, f) == Some(Err::<State, RunError>(e1));
        let f2 = choose|f: nat| run_spec(prog, start, f) == Some(Err::<State, RunError>(e2));
        if f1 <= f2 {
            lemma_run_spec_mono(prog, start, f1, f2);
        } else {
            lemma_run_spec_mono(prog, start, f2, f1);
        }
    }
}

/// A leftward move at pointer 0 with any positive operand fails with
/// pointer underflow.
pub proof fn lemma_left_at_zero_underflows(prog: Seq<Op>, s: State)
    requires
        s.pc < prog.len(),
        prog[s.pc as int].kind == OpKind::Left,
        s.ptr == 0,
        prog[s.pc as int].operand > 0,
    ensures
        step(prog, s) == Err::<State, RunError>(RunError::PointerUnderflow { pc: s.pc as usize }),
{
}

/// A rightward move that would drive the pointer to the tape length
/// or past it fails with pointer overflow: the cell at index
/// `TAPE_LEN` is already out of bounds.
pub proof fn lemma_right_to_end_overflows(prog: Seq<Op>, s: State)
    requires
        s.pc < prog.len(),
        prog[s.pc as int].kind == OpKind::Right,
        s.ptr + prog[s.pc as int].operand >= TAPE_LEN,
    ensures
        step(prog, s) == Err::<State, RunError>(RunError::PointerOverflow { pc: s.pc as usize }),
{
}

/// What a completed run hands back: the final tape, the final tape
/// pointer, everything emitted in program order, and how many input
/// records were consumed.
#[derive(Debug, PartialEq, Eq)]
pub struct Halted {
    pub tape: Vec<u8>,
    pub pointer: usize,
    pub output: Vec<u8>,
    pub input_read: usize,
}

/// The terminal state that `h` describes for a program and an input.
pub open spec fn halted_state(prog: Seq<Op>, input: Seq<u8>, h: Halted) -> State {
    State {
        pc: prog.len(),
        ptr: h.pointer as nat,
        tape: h.tape@,
        inp: input.skip(h.input_read as int),
        out: h.output@,
    }
}

/// Interpret a resolved operation list on a fresh all-zero tape
/// against the given input records (the first character of each input
/// line, as a byte). The run ends only by the program counter falling
/// off the end of the list or by a fatal error; a program that does
/// neither within `step_budget` machine steps comes back as `None`,
/// so a host that wants an effectively unbounded run passes the
/// largest budget and retries.
#[verifier::rlimit(50)]
pub fn run(ops: &Vec<Op>, input: &Vec<u8>, step_budget: usize) -> (r: Option<
    Result<Halted, RunError>,
>)
    requires
        resolved(ops@),
    ensures
        r matches Some(Ok(h)) ==> h.input_read <= input@.len() && runs_to(
            ops@,
            input@,
            halted_state(ops@, input@, h),
        ),
        r matches Some(Err(e)) ==> fails_with(ops@, input@, e),
        r is None ==> run_spec(ops@, init_state(input@), step_budget as nat) == None::<
            Result<State, RunError>,
        >,
{
    let mut tape: Vec<u8> = Vec::new();
    let mut z: usize = 0;
    while z < TAPE_LEN
        invariant
            z <= TAPE_LEN,
            tape@.len() == z,
            forall|k: int| 0 <= k < z ==> tape@[k] == 0u8,
        decreases TAPE_LEN - z,
    {
        tape.push(0);
        z = z + 1;
    }
    let mut pointer: usize = 0;
    let mut pc: usize = 0;
    let mut in_pos: usize = 0;
    let mut used: usize = 0;
    let mut output: Vec<u8> = Vec::new();
    let ghost init = init_state(input@);
    let ghost mut st = init;
    proof {
        assert(tape@ =~= init.tape);
        assert(input@.skip(0) =~= input@);
        assert(st == State {
            pc: pc as nat,
            ptr: pointer as nat,
            tape: tape@,
            inp: input@.skip(in_pos as int),
            out: output@,
        });
    }
    #[verifier::loop_isolation(false)]
    while pc < ops.len()
        invariant
            pc <= ops@.len(),
            pointer < TAPE_LEN,
            tape@.len() == TAPE_LEN,
            in_pos <= input@.len(),
            used <= step_budget,
            st == (State {
                pc: pc as nat,
                ptr: pointer as nat,
                tape: tape@,
                inp: input@.skip(in_pos as int),
                out: output@,
            }),
            steps_ok(ops@, init, st, used as nat),
        decreases step_budget - used,
    {
        if used == step_budget {
            proof {
                lemma_steps_ok_out_of_fuel(ops@, init, st, used as nat);
            }
            return None;
        }
        let op = ops[pc];
        let ghost prev = st;
        match op.kind {
            OpKind::Inc => {
                let v = tape[pointer];
                let k = op.operand % 256;
                let nv = (v as usize + k) % 256;
                tape.set(pointer, nv as u8);
                pc = pc + 1;
                proof {
                    lemma_small_mod(v as nat, 256);
                    lemma_add_mod_noop(v as int, op.operand as int, 256);
                    assert(nv as u8 == wrap_add(v, op.operand as nat));
                    st = State {
                        pc: prev.pc + 1,
                        tape: prev.tape.update(prev.ptr as int, wrap_add(v, op.operand as nat)),
                        ..prev
                    };
                    assert(step(ops@, prev) == Ok::<State, RunError>(st));
                }
            },
            OpKind::Dec => {
                let v = tape[pointer];
                let k = op.operand % 256;
                let nv = (v as usize + 256 - k) % 256;
                tape.set(pointer, nv as u8);
                pc = pc + 1;
                proof {
                    lemma_small_mod(v as nat, 256);
                    lemma_sub_mod_noop(v as int, op.operand as int, 256);
                    lemma_mod_add_multiples_vanish(v - (op.operand as int) % 256, 256);
                    assert(nv as u8 == wrap_sub(v, op.operand as nat));
                    st = State {
                        pc: prev.pc + 1,
                        tape: prev.tape.update(prev.ptr as int, wrap_sub(v, op.operand as nat)),
                        ..prev
                    };
                    assert(step(ops@, prev) == Ok::<State, RunError>(st));
                }
            },
            OpKind::Right => {
                if op.operand >= TAPE_LEN - pointer {
                    proof {
                        lemma_steps_ok_fail(
                            ops@,
                            init,
                            st,
                            used as nat,
                            RunError::PointerOverflow { pc },
                        );
                    }
                    return Some(Err(RunError::PointerOverflow { pc }));
                }
                pointer = pointer + op.operand;
                pc = pc + 1;
                proof {
                    st = State { pc: prev.pc + 1, ptr: pointer as nat, ..prev };
                    assert(step(ops@, prev) == Ok::<State, RunError>(st));
                }
            },
            OpKind::Left => {
                if op.operand > pointer {
                    proof {
                        lemma_steps_ok_fail(
                            ops@,
                            init,
                            st,
                            used as nat,
                            RunError::PointerUnderflow { pc },
                        );
                    }
                    return Some(Err(RunError::PointerUnderflow { pc }));
                }
                pointer = pointer - op.operand;
                pc = pc + 1;
                proof {
                    st = State { pc: prev.pc + 1, ptr: pointer as nat, ..prev };
                    assert(step(ops@, prev) == Ok::<State, RunError>(st));
                }
            },
            OpKind::Out => {
                let v = tape[pointer];
                let ghost out0 = output@;
                let mut cnt: usize = 0;
                while cnt < op.operand
                    invariant
                        cnt <= op.operand,
                        output@ == out0 + Seq::new(cnt as nat, |k: int| v),
                    decreases op.operand - cnt,
                {
                    output.push(v);
                    cnt = cnt + 1;
                    proof {
                        assert(output@ =~= out0 + Seq::new(cnt as nat, |k: int| v));
                    }
                }
                pc = pc + 1;
                proof {
                    st = State {
                        pc: prev.pc + 1,
                        out: prev.out + Seq::new(op.operand as nat, |k: int| v),
                        ..prev
                    };
                    assert(step(ops@, prev) == Ok::<State, RunError>(st));
                }
            },
            OpKind::In => {
                if in_pos >= input.len() {
                    proof {
                        assert(prev.inp.len() == 0);
                        lemma_steps_ok_fail(
                            ops@,
                            init,
                            st,
                            used as nat,
                            RunError::InputExhausted { pc },
                        );
                    }
                    return Some(Err(RunError::InputExhausted { pc }));
                }
                let b = input[in_pos];
                tape.set(pointer, b);
                in_pos = in_pos + 1;
                pc = pc + 1;
                proof {
                    assert(prev.inp[0] == b);
                    assert(input@.skip(in_pos as int) =~= prev.inp.drop_first());
                    st = State {
                        pc: prev.pc + 1,
                        tape: prev.tape.update(prev.ptr as int, b),
                        inp: prev.inp.drop_first(),
                        ..prev
                    };
                    assert(step(ops@, prev) == Ok::<State, RunError>(st));
                }
            },
            OpKind::LoopStart => {
                let v = tape[pointer];
                proof {
                    assert(is_loop_kind(ops@[pc as int].kind));
                    assert(op.operand < ops@.len());
                }
                if v == 0 {
                    pc = op.operand + 1;
                } else {
                    pc = pc + 1;
                }
                proof {
                    st = State { pc: pc as nat, ..prev };
                    assert(step(ops@, prev) == Ok::<State, RunError>(st));
                }
            },
            OpKind::LoopEnd => {
                let v = tape[pointer];
                proof {
                    assert(is_loop_kind(ops@[pc as int].kind));
                    assert(op.operand < ops@.len());
                }
                if v != 0 {
                    pc = op.operand + 1;
                } else {
                    pc = pc + 1;
                }
                proof {
                    st = State { pc: pc as nat, ..prev };
                    assert(step(ops@, prev) == Ok::<State, RunError>(st));
                }
            },
        }
        proof {
            lemma_steps_ok_snoc(ops@, init, prev, st, used as nat);
        }
        used = used + 1;
    }
    let h = Halted { tape, pointer, output, input_read: in_pos };
    proof {
        lemma_steps_ok_done(ops@, init, st, used as nat);
        assert(halted_state(ops@, input@, h) == st);
        assert(runs_to(ops@, input@, st));
    }
    Some(Ok(h))
}

} // verus!
