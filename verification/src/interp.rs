//! Direct execution of an instruction sequence against an in-memory tape,
//! a byte-sequence input stream and a byte-sequence output stream.

use vstd::prelude::*;

use crate::token::BrainToken;
use crate::token::TAPE_SIZE;
use crate::token::well_formed;

verus! {

/// A fatal error of one execution.
#[derive(Clone, Copy, Debug, PartialEq, Eq, Structural)]
pub enum RunError {
    /// `Read` was executed with the input stream already exhausted.
    InputExhausted,
    /// A move took the pointer outside the tape.
    PointerOutOfBounds,
    /// The step budget ran out before the program counter ran off the end.
    StepLimit,
}

/// The whole state of one execution: the tape, the pointer, the program
/// counter, how much of the input has been consumed, and what has been
/// written so far.
pub struct MachineState {
    pub tape: Seq<u8>,
    pub ptr: int,
    pub pc: int,
    pub in_pos: int,
    pub output: Seq<u8>,
}

/// The state every execution starts from: a zeroed tape of `TAPE_SIZE`
/// cells, pointer and program counter at zero, nothing read or written.
pub open spec fn init_state() -> MachineState {
    MachineState {
        tape: Seq::new(TAPE_SIZE as nat, |i: int| 0u8),
        ptr: 0,
        pc: 0,
        in_pos: 0,
        output: Seq::empty(),
    }
}

/// The byte above `b`, with unsigned 8-bit wraparound.
pub open spec fn wrap_inc(b: u8) -> u8 {
    if b == 255 {
        0
    } else {
        (b + 1) as u8
    }
}

/// The byte below `b`, with unsigned 8-bit wraparound.
pub open spec fn wrap_dec(b: u8) -> u8 {
    if b == 0 {
        255
    } else {
        (b - 1) as u8
    }
}

/// What one execution step yields.
pub enum StepResult {
    Next(MachineState),
    Fail(RunError),
}

/// One step of the machine: dispatch on the instruction at the program
/// counter. A taken jump lands on the partner bracket itself; the
/// unconditional advance to `pc + 1` is part of every non-failing step, so
/// the next step is the one that moves past the bracket.
pub open spec fn step(prog: Seq<BrainToken>, input: Seq<u8>, s: MachineState) -> StepResult
    recommends
        0 <= s.pc < prog.len(),
{
    match prog[s.pc] {
        BrainToken::Add => StepResult::Next(
            MachineState { tape: s.tape.update(s.ptr, wrap_inc(s.tape[s.ptr])), pc: s.pc + 1, ..s },
        ),
        BrainToken::Subtract => StepResult::Next(
            MachineState { tape: s.tape.update(s.ptr, wrap_dec(s.tape[s.ptr])), pc: s.pc + 1, ..s },
        ),
        BrainToken::Left => if s.ptr == 0 {
            StepResult::Fail(RunError::PointerOutOfBounds)
        } else {
            StepResult::Next(MachineState { ptr: s.ptr - 1, pc: s.pc + 1, ..s })
        },
        BrainToken::Right => if s.ptr + 1 >= TAPE_SIZE {
            StepResult::Fail(RunError::PointerOutOfBounds)
        } else {
            StepResult::Next(MachineState { ptr: s.ptr + 1, pc: s.pc + 1, ..s })
        },
        BrainToken::Read => if s.in_pos >= input.len() {
            StepResult::Fail(RunError::InputExhausted)
        } else {
            StepResult::Next(
                MachineState {
                    tape: s.tape.update(s.ptr, input[s.in_pos]),
                    in_pos: s.in_pos + 1,
                    pc: s.pc + 1,
                    ..s
                },
            )
        },
        BrainToken::Write => StepResult::Next(
            MachineState { output: s.output.push(s.tape[s.ptr]), pc: s.pc + 1, ..s },
        ),
        BrainToken::OpenLoop(t) => if s.tape[s.ptr] == 0 {
            StepResult::Next(MachineState { pc: t + 1, ..s })
        } else {
            StepResult::Next(MachineState { pc: s.pc + 1, ..s })
        },
        BrainToken::CloseLoop(t) => if s.tape[s.ptr] != 0 {
            StepResult::Next(MachineState { pc: t + 1, ..s })
        } else {
            StepResult::Next(MachineState { pc: s.pc + 1, ..s })
        },
        BrainToken::Nop => StepResult::Next(MachineState { pc: s.pc + 1, ..s }),
    }
}

/// What running from `s` for at most `fuel` steps yields: the final output
/// once the program counter runs off the end, a fatal error at the step that
/// raises it, or `Pending` when `fuel` steps were not enough to decide.
pub enum Outcome {
    Done(Seq<u8>),
    Fail(RunError),
    Pending,
}

/// Run the machine from `s` for at most `fuel` steps.
pub open spec fn interp(prog: Seq<BrainToken>, input: Seq<u8>, s: MachineState, fuel: nat) -> Outcome
    decreases fuel,
{
    if !(0 <= s.pc < prog.len()) {
        Outcome::Done(s.output)
    } else if fuel == 0 {
        Outcome::Pending
    } else {
        match step(prog, input, s) {
            StepResult::Next(s2) => interp(prog, input, s2, (fuel - 1) as nat),
            StepResult::Fail(e) => Outcome::Fail(e),
        }
    }
}

/// A decided outcome stays the same under any larger fuel.
proof fn lemma_interp_monotone(
    prog: Seq<BrainToken>,
    input: Seq<u8>,
    s: MachineState,
    n: nat,
    m: nat,
)
    requires
        n <= m,
        interp(prog, input, s, n) != Outcome::Pending,
    ensures
        interp(prog, input, s, m) == interp(prog, input, s, n),
    decreases n,
{
    if 0 <= s.pc < prog.len() {
        match step(prog, input, s) {
            StepResult::Next(s2) => {
                lemma_interp_monotone(prog, input, s2, (n - 1) as nat, (m - 1) as nat);
            },
            StepResult::Fail(_) => {},
        }
    }
}

/// The machine is deterministic: two decided outcomes of the same program on
/// the same input agree, whatever fuel each was given.
pub proof fn lemma_run_deterministic(prog: Seq<BrainToken>, input: Seq<u8>, n1: nat, n2: nat)
    requires
        interp(prog, input, init_state(), n1) != Outcome::Pending,
        interp(prog, input, init_state(), n2) != Outcome::Pending,
    ensures
        interp(prog, input, init_state(), n1) == interp(prog, input, init_state(), n2),
{
    if n1 <= n2 {
        lemma_interp_monotone(prog, input, init_state(), n1, n2);
    } else {
        lemma_interp_monotone(prog, input, init_state(), n2, n1);
    }
}

/// Taking one non-failing step shifts the fuel correspondence by one.
proof fn lemma_advance(
    prog: Seq<BrainToken>,
    input: Seq<u8>,
    first: MachineState,
    st: MachineState,
    s2: MachineState,
    steps: nat,
)
    requires
        forall|n: nat| #[trigger] interp(prog, input, st, n) == interp(prog, input, first, n + steps),
        0 <= st.pc < prog.len(),
        step(prog, input, st) == StepResult::Next(s2),
    ensures
        forall|n: nat| #[trigger] interp(prog, input, s2, n) == interp(
            prog,
            input,
            first,
            n + steps + 1,
        ),
{
    assert forall|n: nat| #[trigger] interp(prog, input, s2, n) == interp(
        prog,
        input,
        first,
        n + steps + 1,
    ) by {
        assert(interp(prog, input, st, (n + 1) as nat) == interp(prog, input, s2, n));
        assert(interp(prog, input, st, (n + 1) as nat) == interp(prog, input, first, n + 1 + steps));
    }
}

/// A failing step decides the run from the first state at fuel `steps + 1`.
proof fn lemma_fail(
    prog: Seq<BrainToken>,
    input: Seq<u8>,
    first: MachineState,
    st: MachineState,
    e: RunError,
    steps: nat,
)
    requires
        forall|n: nat| #[trigger] interp(prog, input, st, n) == interp(prog, input, first, n + steps),
        0 <= st.pc < prog.len(),
        step(prog, input, st) == StepResult::Fail(e),
    ensures
        interp(prog, input, first, steps + 1) == Outcome::Fail(e),
{
    assert(interp(prog, input, st, 1nat) == Outcome::Fail(e));
    assert(interp(prog, input, st, 1nat) == interp(prog, input, first, 1 + steps));
}

/// Executes the instruction sequence for at most `max_steps` steps against a
/// zeroed tape of `TAPE_SIZE` cells, reading from `input` and collecting the
/// written bytes. The result is exactly what the step-indexed machine yields
/// at that fuel: the collected output once the program counter runs off the
/// end, `InputExhausted` or `PointerOutOfBounds` at the step that raises it,
/// and `StepLimit` exactly when `max_steps` steps were not enough. A move
/// that would leave the tape is a fatal error here, never silent wraparound.
#[verifier::loop_isolation(false)]
pub fn run(tokens: Vec<BrainToken>, input: &[u8], max_steps: u64) -> (r: Result<Vec<u8>, RunError>)
    requires
        well_formed(tokens@),
    ensures
        (match r {
            Ok(out) => interp(tokens@, input@, init_state(), max_steps as nat) == Outcome::Done(
                out@,
            ),
            Err(e) => if e == RunError::StepLimit {
                interp(tokens@, input@, init_state(), max_steps as nat) == Outcome::Pending
            } else {
                interp(tokens@, input@, init_state(), max_steps as nat) == Outcome::Fail(e)
            },
        }),
{
    let mut tape: Vec<u8> = Vec::new();
    while tape.len() < TAPE_SIZE
        invariant
            tape@.len() <= TAPE_SIZE,
            forall|k: int| 0 <= k < tape@.len() ==> tape@[k] == 0u8,
        decreases TAPE_SIZE - tape.len(),
    {
        tape.push(0u8);
    }
    proof {
        assert(tape@ =~= init_state().tape);
    }
    let mut ptr: usize = 0;
    let mut pos: usize = 0;
    let mut in_pos: usize = 0;
    let mut out: Vec<u8> = Vec::new();
    let mut fuel: u64 = max_steps;
    let ghost first = init_state();
    let ghost mut st = init_state();
    let ghost mut steps: nat = 0nat;
    while pos < tokens.len()
        invariant
            st.tape == tape@,
            st.ptr == ptr as int,
            st.pc == pos as int,
            st.in_pos == in_pos as int,
            st.output == out@,
            tape.len() == TAPE_SIZE,
            ptr < TAPE_SIZE,
            in_pos <= input.len(),
            pos <= tokens.len(),
            steps + fuel == max_steps,
            forall|n: nat| #[trigger] interp(tokens@, input@, st, n) == interp(
                tokens@,
                input@,
                first,
                n + steps,
            ),
        decreases fuel,
    {
        if fuel == 0 {
            proof {
                assert(interp(tokens@, input@, st, 0nat) == Outcome::Pending);
            }
            return Err(RunError::StepLimit);
        }
        fuel = fuel - 1;
        let ghost pre = st;
        match tokens[pos] {
            BrainToken::Add => {
                let v = tape[ptr];
                tape[ptr] = if v == 255 {
                    0
                } else {
                    v + 1
                };
                proof {
                    st = MachineState { tape: pre.tape.update(pre.ptr, wrap_inc(v)), pc: pre.pc + 1, ..pre };
                }
            },
            BrainToken::Subtract => {
                let v = tape[ptr];
                tape[ptr] = if v == 0 {
                    255
                } else {
                    v - 1
                };
                proof {
                    st = MachineState { tape: pre.tape.update(pre.ptr, wrap_dec(v)), pc: pre.pc + 1, ..pre };
                }
            },
            BrainToken::Left => {
                if ptr == 0 {
                    proof {
                        lemma_fail(tokens@, input@, first, st, RunError::PointerOutOfBounds, steps);
                        lemma_interp_monotone(tokens@, input@, first, steps + 1, max_steps as nat);
                    }
                    return Err(RunError::PointerOutOfBounds);
                }
                ptr = ptr - 1;
                proof {
                    st = MachineState { ptr: pre.ptr - 1, pc: pre.pc + 1, ..pre };
                }
            },
            BrainToken::Right => {
                if ptr >= TAPE_SIZE - 1 {
                    proof {
                        lemma_fail(tokens@, input@, first, st, RunError::PointerOutOfBounds, steps);
                        lemma_interp_monotone(tokens@, input@, first, steps + 1, max_steps as nat);
                    }
                    return Err(RunError::PointerOutOfBounds);
                }
                ptr = ptr + 1;
                proof {
                    st = MachineState { ptr: pre.ptr + 1, pc: pre.pc + 1, ..pre };
                }
            },
            BrainToken::Read => {
                if in_pos >= input.len() {
                    proof {
                        lemma_fail(tokens@, input@, first, st, RunError::InputExhausted, steps);
                        lemma_interp_monotone(tokens@, input@, first, steps + 1, max_steps as nat);
                    }
                    return Err(RunError::InputExhausted);
                }
                tape[ptr] = input[in_pos];
                in_pos = in_pos + 1;
                proof {
                    st = MachineState {
                        tape: pre.tape.update(pre.ptr, input@[pre.in_pos]),
                        in_pos: pre.in_pos + 1,
                        pc: pre.pc + 1,
                        ..pre
                    };
                }
            },
            BrainToken::Write => {
                out.push(tape[ptr]);
                proof {
                    st = MachineState { output: pre.output.push(pre.tape[pre.ptr]), pc: pre.pc + 1, ..pre };
                }
            },
            BrainToken::OpenLoop(t) => {
                if tape[ptr] == 0 {
                    pos = t;
                }
                proof {
                    st = MachineState { pc: pos as int + 1, ..pre };
                }
            },
            BrainToken::CloseLoop(t) => {
                if tape[ptr] != 0 {
                    pos = t;
                }
                proof {
                    st = MachineState { pc: pos as int + 1, ..pre };
                }
            },
            BrainToken::Nop => {
                proof {
                    st = MachineState { pc: pre.pc + 1, ..pre };
                }
            },
        }
        pos = pos + 1;
        proof {
            assert(step(tokens@, input@, pre) == StepResult::Next(st));
            lemma_advance(tokens@, input@, first, pre, st, steps);
            steps = steps + 1;
        }
    }
    proof {
        assert(interp(tokens@, input@, st, 0nat) == Outcome::Done(out@));
        lemma_interp_monotone(tokens@, input@, first, steps, max_steps as nat);
    }
    Ok(out)
}

} // verus!
