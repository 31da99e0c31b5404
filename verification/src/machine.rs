//! The small-step semantics of the machine.
//!
//! A configuration is the run state (operand stack, variable store, call
//! frames, output) plus a status.  One [`step`] either finishes the run
//! (no frames left), returns from a frame whose body is exhausted, or
//! fetches the current instruction, advances the frame's counter and
//! applies the instruction.  The executable engine is proved to follow
//! this relation step for step.
//!
//! The call frames are the call history: each frame holds the callee's
//! id and that call's own program counter, innermost last.  A native
//! call completes within the step that performs it, so its history
//! entry, pushed and popped inside one step, never shows in a
//! configuration.

use vstd::prelude::*;

use crate::instr::{FunV, InstrV, NativeOp, VmErr};
use crate::num::dec_i32;
use vstd::wrapping::i32_specs;

verus! {

/// One active call: the callee's id and the frame's program counter.
#[derive(Clone, Copy, PartialEq, Eq, Structural, Debug)]
pub struct Frame {
    pub fid: u32,
    pub pc: usize,
}

/// The mathematical shape of the run state.
#[verifier::ext_equal]
pub struct StateV {
    pub stack: Seq<i32>,
    pub vars: Map<Seq<u8>, i32>,
    pub frames: Seq<Frame>,
    pub out: Seq<u8>,
}

/// Whether a run is still going, finished, or failed.
#[derive(Clone, Copy, PartialEq, Eq, Structural, Debug)]
pub enum Status {
    Running,
    /// The entry function's body was exhausted.
    Done,
    /// A `halt` instruction executed.
    Halted,
    /// A fatal error of the given kind stopped the run.
    Failed(VmErr),
}

/// A machine configuration: run state plus status.
#[verifier::ext_equal]
pub struct Config {
    pub state: StateV,
    pub status: Status,
}

pub open spec fn running(s: StateV) -> Config {
    Config { state: s, status: Status::Running }
}

pub open spec fn failed(s: StateV, e: VmErr) -> Config {
    Config { state: s, status: Status::Failed(e) }
}

/// The ids of the active calls, outermost first: the call history.
pub open spec fn history_of(s: StateV) -> Seq<u32> {
    s.frames.map_values(|f: Frame| f.fid)
}

/// A valid frame calls a source function of the table.
pub open spec fn frame_ok(table: Seq<FunV>, f: Frame) -> bool {
    f.fid < table.len() && table[f.fid as int] is Source
}

/// All frames of the state are valid for the table.
pub open spec fn wf_frames(table: Seq<FunV>, s: StateV) -> bool {
    forall|j: int| 0 <= j < s.frames.len() ==> frame_ok(table, #[trigger] s.frames[j])
}

/// The body of source function `fid`.
pub open spec fn body_of(table: Seq<FunV>, fid: u32) -> Seq<InstrV> {
    table[fid as int]->Source_0
}

/// The body of the innermost frame's function.
pub open spec fn cur_body(table: Seq<FunV>, s: StateV) -> Seq<InstrV> {
    body_of(table, s.frames.last().fid)
}

/// Where `jump n` sends the program counter in a body of length `len`:
/// a target outside the body lands at its end, so the frame returns.
pub open spec fn jump_target(n: i32, len: int) -> int {
    if 0 <= n && n < len {
        n as int
    } else {
        len
    }
}

/// The state with the innermost frame's counter set to `pc`.
pub open spec fn set_pc(s: StateV, pc: int) -> StateV {
    StateV {
        frames: s.frames.update(
            s.frames.len() - 1,
            Frame { fid: s.frames.last().fid, pc: pc as usize },
        ),
        ..s
    }
}

/// The effect of one instruction on a running state whose innermost
/// frame's counter has already advanced past it.  Arithmetic pops x,
/// then y, and pushes x op y, wrapping on 32 bits; `jumpif` consumes
/// its operand and jumps on zero; a `call` of the native print function
/// completes at once; a `call` of a source function opens a new frame.
/// States that fail keep every component unchanged.
pub open spec fn step_instr(table: Seq<FunV>, s: StateV, i: InstrV) -> Config {
    match i {
        InstrV::Push(v) => running(StateV { stack: s.stack.push(v), ..s }),
        InstrV::Pop => if s.stack.len() == 0 {
            failed(s, VmErr::StackUnderflow)
        } else {
            running(StateV { stack: s.stack.drop_last(), ..s })
        },
        InstrV::Add => if s.stack.len() < 2 {
            failed(s, VmErr::StackUnderflow)
        } else {
            let x = s.stack.last();
            let y = s.stack[s.stack.len() - 2];
            running(
                StateV {
                    stack: s.stack.take(s.stack.len() - 2).push(i32_specs::wrapping_add(x, y)),
                    ..s
                },
            )
        },
        InstrV::Sub => if s.stack.len() < 2 {
            failed(s, VmErr::StackUnderflow)
        } else {
            let x = s.stack.last();
            let y = s.stack[s.stack.len() - 2];
            running(
                StateV {
                    stack: s.stack.take(s.stack.len() - 2).push(i32_specs::wrapping_sub(x, y)),
                    ..s
                },
            )
        },
        InstrV::Mul => if s.stack.len() < 2 {
            failed(s, VmErr::StackUnderflow)
        } else {
            let x = s.stack.last();
            let y = s.stack[s.stack.len() - 2];
            running(
                StateV {
                    stack: s.stack.take(s.stack.len() - 2).push(i32_specs::wrapping_mul(x, y)),
                    ..s
                },
            )
        },
        InstrV::SetVar(name) => if s.stack.len() == 0 {
            failed(s, VmErr::StackUnderflow)
        } else {
            running(
                StateV {
                    stack: s.stack.drop_last(),
                    vars: s.vars.insert(name, s.stack.last()),
                    ..s
                },
            )
        },
        InstrV::GetVar(name) => if !s.vars.contains_key(name) {
            failed(s, VmErr::UnboundVariable)
        } else {
            running(StateV { stack: s.stack.push(s.vars[name]), ..s })
        },
        InstrV::Jump(n) => running(set_pc(s, jump_target(n, cur_body(table, s).len() as int))),
        InstrV::Jumpif(n) => if s.stack.len() == 0 {
            failed(s, VmErr::StackUnderflow)
        } else {
            let v = s.stack.last();
            let s2 = StateV { stack: s.stack.drop_last(), ..s };
            if v == 0 {
                running(set_pc(s2, jump_target(n, cur_body(table, s2).len() as int)))
            } else {
                running(s2)
            }
        },
        InstrV::Call(id) => if id as int >= table.len() {
            failed(s, VmErr::UnknownFunction)
        } else {
            match table[id as int] {
                FunV::Native(NativeOp::Print) => if s.stack.len() == 0 {
                    failed(s, VmErr::StackUnderflow)
                } else {
                    running(
                        StateV { out: s.out + dec_i32(s.stack.last() as int) + seq![10u8], ..s },
                    )
                },
                FunV::Source(_) => running(
                    StateV { frames: s.frames.push(Frame { fid: id, pc: 0 }), ..s },
                ),
            }
        },
        InstrV::Ret => if s.frames.len() == 0 {
            failed(s, VmErr::UnbalancedReturn)
        } else {
            running(StateV { frames: s.frames.drop_last(), ..s })
        },
        InstrV::Halt => Config { state: s, status: Status::Halted },
    }
}

/// The instruction the next step will execute, if the run is inside a
/// frame whose body still has one.
pub open spec fn cur_instr(table: Seq<FunV>, c: Config) -> Option<InstrV> {
    if c.state.frames.len() > 0 && frame_ok(table, c.state.frames.last())
        && c.state.frames.last().pc < body_of(table, c.state.frames.last().fid).len() {
        Some(body_of(table, c.state.frames.last().fid)[c.state.frames.last().pc as int])
    } else {
        None
    }
}

/// One machine step.  A run with no frames left is done; a frame whose
/// body is exhausted returns (an unwritten trailing `ret`); otherwise
/// the current instruction executes with the counter already advanced.
pub open spec fn step(table: Seq<FunV>, c: Config) -> Config {
    if !(c.status is Running) {
        c
    } else if c.state.frames.len() == 0 {
        Config { state: c.state, status: Status::Done }
    } else {
        let fr = c.state.frames.last();
        if !frame_ok(table, fr) {
            failed(c.state, VmErr::UnknownFunction)
        } else {
            let body = body_of(table, fr.fid);
            if fr.pc >= body.len() {
                running(StateV { frames: c.state.frames.drop_last(), ..c.state })
            } else {
                step_instr(table, set_pc(c.state, fr.pc + 1), body[fr.pc as int])
            }
        }
    }
}

/// The configuration after `n` machine steps.
pub open spec fn steps(table: Seq<FunV>, c: Config, n: nat) -> Config
    decreases n,
{
    if n == 0 {
        c
    } else {
        steps(table, step(table, c), (n - 1) as nat)
    }
}

/// A terminal configuration: the run is over.
pub open spec fn is_terminal(c: Config) -> bool {
    !(c.status is Running)
}

/// Whether the machine started at `c0` ever reaches `c`.
pub open spec fn reaches(table: Seq<FunV>, c0: Config, c: Config) -> bool {
    exists|n: nat| steps(table, c0, n) == c
}

pub proof fn lemma_steps_one(table: Seq<FunV>, c: Config)
    ensures
        steps(table, c, 1) == step(table, c),
{
    assert(steps(table, step(table, c), 0) == step(table, c));
}

/// Step counting composes.
pub proof fn lemma_steps_add(table: Seq<FunV>, c: Config, m: nat, n: nat)
    ensures
        steps(table, c, m + n) == steps(table, steps(table, c, m), n),
    decreases m,
{
    if m > 0 {
        lemma_steps_add(table, step(table, c), (m - 1) as nat, n);
    }
}

/// One more step from the end.
pub proof fn lemma_steps_succ(table: Seq<FunV>, c: Config, n: nat)
    ensures
        steps(table, c, n + 1) == step(table, steps(table, c, n)),
{
    lemma_steps_add(table, c, n, 1);
    lemma_steps_one(table, steps(table, c, n));
}

/// Once the run is over, nothing changes: every later configuration is
/// the same, so a `halt` deep inside nested calls ends the whole run.
pub proof fn lemma_terminal_stays(table: Seq<FunV>, c: Config, n: nat)
    requires
        is_terminal(c),
    ensures
        steps(table, c, n) == c,
    decreases n,
{
    if n > 0 {
        lemma_terminal_stays(table, step(table, c), (n - 1) as nat);
    }
}

/// The machine is deterministic: all terminal configurations reached
/// from one start coincide.
pub proof fn lemma_terminal_unique(table: Seq<FunV>, c0: Config, c1: Config, c2: Config)
    requires
        reaches(table, c0, c1),
        is_terminal(c1),
        reaches(table, c0, c2),
        is_terminal(c2),
    ensures
        c1 == c2,
{
    let n1 = choose|n: nat| steps(table, c0, n) == c1;
    let n2 = choose|n: nat| steps(table, c0, n) == c2;
    if n1 <= n2 {
        lemma_steps_add(table, c0, n1, (n2 - n1) as nat);
        lemma_terminal_stays(table, c1, (n2 - n1) as nat);
    } else {
        lemma_steps_add(table, c0, n2, (n1 - n2) as nat);
        lemma_terminal_stays(table, c2, (n1 - n2) as nat);
    }
}

/// Instructions keep every frame valid: only `call` adds one, and only
/// after finding its target in the table.
pub proof fn lemma_step_instr_wf(table: Seq<FunV>, s: StateV, i: InstrV)
    requires
        wf_frames(table, s),
        s.frames.len() > 0,
    ensures
        wf_frames(table, step_instr(table, s, i).state),
{
    let s2 = step_instr(table, s, i).state;
    assert forall|j: int| 0 <= j < s2.frames.len() implies frame_ok(table, #[trigger] s2.frames[j]) by {
        match i {
            InstrV::Jump(_n) => {
                if j == s.frames.len() - 1 {
                    assert(s2.frames[j].fid == s.frames.last().fid);
                    assert(frame_ok(table, s.frames[j]));
                } else {
                    assert(s2.frames[j] == s.frames[j]);
                }
            },
            InstrV::Jumpif(_n) => {
                if s.stack.len() > 0 && s.stack.last() == 0 {
                    if j == s.frames.len() - 1 {
                        assert(s2.frames[j].fid == s.frames.last().fid);
                        assert(frame_ok(table, s.frames[j]));
                    } else {
                        assert(s2.frames[j] == s.frames[j]);
                    }
                } else {
                    assert(s2.frames[j] == s.frames[j]);
                }
            },
            InstrV::Call(id) => {
                if (id as int) < table.len() && (table[id as int] is Source) && j
                    == s.frames.len() {
                    assert(s2.frames[j] == Frame { fid: id, pc: 0 });
                } else {
                    assert(s2.frames[j] == s.frames[j]);
                }
            },
            _ => {
                assert(s2.frames[j] == s.frames[j]);
            },
        }
    }
}

/// Steps keep every frame valid.
pub proof fn lemma_step_wf(table: Seq<FunV>, c: Config)
    requires
        wf_frames(table, c.state),
    ensures
        wf_frames(table, step(table, c).state),
{
    if c.status is Running && c.state.frames.len() > 0 {
        let fr = c.state.frames.last();
        if frame_ok(table, fr) {
            let body = body_of(table, fr.fid);
            if fr.pc >= body.len() {
                let s2 = step(table, c).state;
                assert forall|j: int| 0 <= j < s2.frames.len() implies frame_ok(
                    table,
                    #[trigger] s2.frames[j],
                ) by {
                    assert(s2.frames[j] == c.state.frames[j]);
                }
            } else {
                let sp = set_pc(c.state, fr.pc + 1);
                assert forall|j: int| 0 <= j < sp.frames.len() implies frame_ok(
                    table,
                    #[trigger] sp.frames[j],
                ) by {
                    if j == c.state.frames.len() - 1 {
                        assert(sp.frames[j].fid == fr.fid);
                    } else {
                        assert(sp.frames[j] == c.state.frames[j]);
                    }
                }
                lemma_step_instr_wf(table, sp, body[fr.pc as int]);
            }
        }
    }
}

} // verus!
