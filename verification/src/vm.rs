//! The execution engine: the run state, the instruction dispatcher, the
//! driver loop, and the top-level `interpret`.
//!
//! Calls use an explicit frame stack instead of host recursion: `call`
//! opens a frame, `ret` (or a body running out) closes one, and the
//! driver always executes the innermost frame.  The driver takes a step
//! budget, the explicit, checkable stand-in for the host's execution
//! resources; `interpret` passes the largest one.  Every transition is
//! proved equal to one [`crate::machine::step`] of the semantics.

use vstd::prelude::*;

use crate::instr::{body_view, FunV, Function, Instr, NativeOp, VmErr};
use crate::loader::{load, spec_load, table_view};
use crate::machine::{
    body_of, cur_body, frame_ok, is_terminal, jump_target, lemma_step_wf, lemma_steps_succ,
    lemma_terminal_unique, reaches, running, set_pc, step, step_instr, steps, wf_frames, Config,
    Frame, StateV, Status,
};
use crate::num::push_decimal;
use crate::store::VarStore;
use vstd::string::StrSliceExecFns;

verus! {

/// Whether execution goes on after an instruction or the run is over.
#[derive(Clone, Copy, PartialEq, Eq, Structural, Debug)]
pub enum Flow {
    KeepGoing,
    Stop,
}

/// The mutable state of one run: the operand stack, the flat variable
/// store shared by all calls, the frame stack (the call history, each
/// entry with its own program counter), and the collected output.
pub struct RuntimeContext {
    pub stack: Vec<i32>,
    pub variables: VarStore,
    pub frames: Vec<Frame>,
    pub out: Vec<u8>,
}

impl View for RuntimeContext {
    type V = StateV;

    open spec fn view(&self) -> StateV {
        StateV {
            stack: self.stack@,
            vars: self.variables@,
            frames: self.frames@,
            out: self.out@,
        }
    }
}

impl RuntimeContext {
    /// A fresh run state: empty stack, no variables, no frames, no
    /// output yet.
    pub fn new() -> (r: RuntimeContext)
        ensures
            r@.stack == Seq::<i32>::empty(),
            r@.vars == Map::<Seq<u8>, i32>::empty(),
            r@.frames == Seq::<Frame>::empty(),
            r@.out == Seq::<u8>::empty(),
    {
        RuntimeContext {
            stack: Vec::new(),
            variables: VarStore::new(),
            frames: Vec::new(),
            out: Vec::new(),
        }
    }

    /// Pushes `i` onto the operand stack.
    pub fn push(&mut self, i: i32)
        ensures
            final(self)@ == (StateV { stack: old(self)@.stack.push(i), ..old(self)@ }),
    {
        self.stack.push(i);
        proof {
            assert(self@ =~= (StateV { stack: old(self)@.stack.push(i), ..old(self)@ }));
        }
    }

    /// Pops the top of the operand stack; a pop on an empty stack is
    /// fatal.
    pub fn pop(&mut self) -> (r: Result<i32, VmErr>)
        ensures
            match r {
                Ok(v) => old(self)@.stack.len() > 0 && v == old(self)@.stack.last() && final(self)@
                    == (StateV { stack: old(self)@.stack.drop_last(), ..old(self)@ }),
                Err(e) => e == VmErr::StackUnderflow && old(self)@.stack.len() == 0 && final(self)@
                    == old(self)@,
            },
    {
        match self.stack.pop() {
            Some(v) => {
                proof {
                    assert(self@ =~= (StateV {
                        stack: old(self)@.stack.drop_last(),
                        ..old(self)@
                    }));
                }
                Ok(v)
            },
            None => {
                proof {
                    assert(self@ =~= old(self)@);
                }
                Err(VmErr::StackUnderflow)
            },
        }
    }

    /// Pops x, pops y, pushes x + y on 32 bits (wrapping); fatal with
    /// fewer than two operands.
    pub fn add(&mut self) -> (r: Result<(), VmErr>)
        ensures
            match r {
                Ok(()) => old(self)@.stack.len() >= 2 && final(self)@ == (StateV {
                    stack: old(self)@.stack.take(old(self)@.stack.len() - 2).push(
                        vstd::wrapping::i32_specs::wrapping_add(
                            old(self)@.stack.last(),
                            old(self)@.stack[old(self)@.stack.len() - 2],
                        ),
                    ),
                    ..old(self)@
                }),
                Err(e) => e == VmErr::StackUnderflow && old(self)@.stack.len() < 2 && final(self)@
                    == old(self)@,
            },
    {
        if self.stack.len() < 2 {
            return Err(VmErr::StackUnderflow);
        }
        let x = match self.pop() {
            Ok(v) => v,
            Err(e) => {
                return Err(e);
            },
        };
        let y = match self.pop() {
            Ok(v) => v,
            Err(e) => {
                return Err(e);
            },
        };
        self.push(x.wrapping_add(y));
        proof {
            assert(old(self)@.stack.drop_last().drop_last() =~= old(self)@.stack.take(
                old(self)@.stack.len() - 2,
            ));
            assert(self@ =~= (StateV {
                stack: old(self)@.stack.take(old(self)@.stack.len() - 2).push(
                    vstd::wrapping::i32_specs::wrapping_add(
                        old(self)@.stack.last(),
                        old(self)@.stack[old(self)@.stack.len() - 2],
                    ),
                ),
                ..old(self)@
            }));
        }
        Ok(())
    }

    /// Pops x, pops y, pushes x - y on 32 bits (wrapping): for a stack
    /// `a` then `b` the result is b - a.
    pub fn sub(&mut self) -> (r: Result<(), VmErr>)
        ensures
            match r {
                Ok(()) => old(self)@.stack.len() >= 2 && final(self)@ == (StateV {
                    stack: old(self)@.stack.take(old(self)@.stack.len() - 2).push(
                        vstd::wrapping::i32_specs::wrapping_sub(
                            old(self)@.stack.last(),
                            old(self)@.stack[old(self)@.stack.len() - 2],
                        ),
                    ),
                    ..old(self)@
                }),
                Err(e) => e == VmErr::StackUnderflow && old(self)@.stack.len() < 2 && final(self)@
                    == old(self)@,
            },
    {
        if self.stack.len() < 2 {
            return Err(VmErr::StackUnderflow);
        }
        let x = match self.pop() {
            Ok(v) => v,
            Err(e) => {
                return Err(e);
            },
        };
        let y = match self.pop() {
            Ok(v) => v,
            Err(e) => {
                return Err(e);
            },
        };
        self.push(x.wrapping_sub(y));
        proof {
            assert(old(self)@.stack.drop_last().drop_last() =~= old(self)@.stack.take(
                old(self)@.stack.len() - 2,
            ));
            assert(self@ =~= (StateV {
                stack: old(self)@.stack.take(old(self)@.stack.len() - 2).push(
                    vstd::wrapping::i32_specs::wrapping_sub(
                        old(self)@.stack.last(),
                        old(self)@.stack[old(self)@.stack.len() - 2],
                    ),
                ),
                ..old(self)@
            }));
        }
        Ok(())
    }

    /// Pops x, pops y, pushes x * y on 32 bits (wrapping); fatal with
    /// fewer than two operands.
    pub fn mul(&mut self) -> (r: Result<(), VmErr>)
        ensures
            match r {
                Ok(()) => old(self)@.stack.len() >= 2 && final(self)@ == (StateV {
                    stack: old(self)@.stack.take(old(self)@.stack.len() - 2).push(
                        vstd::wrapping::i32_specs::wrapping_mul(
                            old(self)@.stack.last(),
                            old(self)@.stack[old(self)@.stack.len() - 2],
                        ),
                    ),
                    ..old(self)@
                }),
                Err(e) => e == VmErr::StackUnderflow && old(self)@.stack.len() < 2 && final(self)@
                    == old(self)@,
            },
    {
        if self.stack.len() < 2 {
            return Err(VmErr::StackUnderflow);
        }
        let x = match self.pop() {
            Ok(v) => v,
            Err(e) => {
                return Err(e);
            },
        };
        let y = match self.pop() {
            Ok(v) => v,
            Err(e) => {
                return Err(e);
            },
        };
        self.push(x.wrapping_mul(y));
        proof {
            assert(old(self)@.stack.drop_last().drop_last() =~= old(self)@.stack.take(
                old(self)@.stack.len() - 2,
            ));
            assert(self@ =~= (StateV {
                stack: old(self)@.stack.take(old(self)@.stack.len() - 2).push(
                    vstd::wrapping::i32_specs::wrapping_mul(
                        old(self)@.stack.last(),
                        old(self)@.stack[old(self)@.stack.len() - 2],
                    ),
                ),
                ..old(self)@
            }));
        }
        Ok(())
    }

    /// Pops a value and binds `name` to it in the flat variable store;
    /// fatal on an empty stack.
    pub fn set(&mut self, name: Vec<u8>) -> (r: Result<(), VmErr>)
        ensures
            match r {
                Ok(()) => old(self)@.stack.len() > 0 && final(self)@ == (StateV {
                    stack: old(self)@.stack.drop_last(),
                    vars: old(self)@.vars.insert(name@, old(self)@.stack.last()),
                    ..old(self)@
                }),
                Err(e) => e == VmErr::StackUnderflow && old(self)@.stack.len() == 0 && final(self)@
                    == old(self)@,
            },
    {
        match self.stack.pop() {
            Some(v) => {
                self.variables.bind(name, v);
                proof {
                    assert(self@ =~= (StateV {
                        stack: old(self)@.stack.drop_last(),
                        vars: old(self)@.vars.insert(name@, old(self)@.stack.last()),
                        ..old(self)@
                    }));
                }
                Ok(())
            },
            None => {
                proof {
                    assert(self@ =~= old(self)@);
                }
                Err(VmErr::StackUnderflow)
            },
        }
    }

    /// Pushes the value bound to `name`; a name never set is fatal.
    pub fn get(&mut self, name: &[u8]) -> (r: Result<(), VmErr>)
        ensures
            match r {
                Ok(()) => old(self)@.vars.contains_key(name@) && final(self)@ == (StateV {
                    stack: old(self)@.stack.push(old(self)@.vars[name@]),
                    ..old(self)@
                }),
                Err(e) => e == VmErr::UnboundVariable && !old(self)@.vars.contains_key(name@)
                    && final(self)@ == old(self)@,
            },
    {
        match self.variables.lookup(name) {
            Some(v) => {
                self.stack.push(v);
                proof {
                    assert(self@ =~= (StateV {
                        stack: old(self)@.stack.push(old(self)@.vars[name@]),
                        ..old(self)@
                    }));
                }
                Ok(())
            },
            None => Err(VmErr::UnboundVariable),
        }
    }

    /// Sets the current frame's counter to the target of `jump n` in a
    /// body of length `body_len`.
    pub fn jump(&mut self, n: i32, body_len: usize)
        requires
            old(self)@.frames.len() > 0,
        ensures
            final(self)@ == set_pc(old(self)@, jump_target(n, body_len as int)),
    {
        let target: usize = if n >= 0 && (n as usize) < body_len {
            n as usize
        } else {
            body_len
        };
        let idx = self.frames.len() - 1;
        let fid = self.frames[idx].fid;
        self.frames[idx] = Frame { fid, pc: target };
        proof {
            assert(self@ =~= set_pc(old(self)@, jump_target(n, body_len as int)));
        }
    }

    /// Pops a value; zero jumps, anything else falls through.  The
    /// operand is consumed either way; fatal on an empty stack.
    pub fn jumpif(&mut self, n: i32, body_len: usize) -> (r: Result<(), VmErr>)
        requires
            old(self)@.frames.len() > 0,
        ensures
            match r {
                Ok(()) => old(self)@.stack.len() > 0 && ({
                    let s2 = StateV { stack: old(self)@.stack.drop_last(), ..old(self)@ };
                    final(self)@ == if old(self)@.stack.last() == 0 {
                        set_pc(s2, jump_target(n, body_len as int))
                    } else {
                        s2
                    }
                }),
                Err(e) => e == VmErr::StackUnderflow && old(self)@.stack.len() == 0 && final(self)@
                    == old(self)@,
            },
    {
        match self.stack.pop() {
            Some(v) => {
                proof {
                    assert(self@ =~= (StateV {
                        stack: old(self)@.stack.drop_last(),
                        ..old(self)@
                    }));
                }
                if v == 0 {
                    self.jump(n, body_len);
                }
                Ok(())
            },
            None => {
                proof {
                    assert(self@ =~= old(self)@);
                }
                Err(VmErr::StackUnderflow)
            },
        }
    }

    /// Begins a call of function `id`.  An id absent from the table is
    /// fatal.  A native callee does its whole work here (its history
    /// entry, pushed and popped within the same step, nets out); a
    /// source callee gets a fresh frame with its counter at zero, to be
    /// driven by the loop.
    pub fn call(&mut self, table: &Vec<Function>, id: u32) -> (r: Result<(), VmErr>)
        ensures
            ({
                let tbl = table_view(table@);
                match r {
                    Ok(()) => (id as int) < tbl.len() && match tbl[id as int] {
                        FunV::Native(NativeOp::Print) => old(self)@.stack.len() > 0 && final(self)@
                            == (StateV {
                            out: old(self)@.out + crate::num::dec_i32(
                                old(self)@.stack.last() as int,
                            ) + seq![10u8],
                            ..old(self)@
                        }),
                        FunV::Source(_) => final(self)@ == (StateV {
                            frames: old(self)@.frames.push(Frame { fid: id, pc: 0 }),
                            ..old(self)@
                        }),
                    },
                    Err(e) => final(self)@ == old(self)@ && ((e == VmErr::UnknownFunction && id
                        as int >= tbl.len()) || (e == VmErr::StackUnderflow && (id as int)
                        < tbl.len() && (tbl[id as int] is Native) && old(self)@.stack.len() == 0)),
                }
            }),
    {
        if id as usize >= table.len() {
            return Err(VmErr::UnknownFunction);
        }
        proof {
            assert(table_view(table@)[id as int] == table@[id as int]@);
        }
        match &table[id as usize] {
            Function::Native(NativeOp::Print) => {
                if self.stack.len() == 0 {
                    return Err(VmErr::StackUnderflow);
                }
                let v = self.stack[self.stack.len() - 1];
                push_decimal(&mut self.out, v);
                self.out.push(10);
                proof {
                    assert(self@ =~= (StateV {
                        out: old(self)@.out + crate::num::dec_i32(old(self)@.stack.last() as int)
                            + seq![10u8],
                        ..old(self)@
                    }));
                }
                Ok(())
            },
            Function::Source(_) => {
                self.frames.push(Frame { fid: id, pc: 0 });
                proof {
                    assert(self@ =~= (StateV {
                        frames: old(self)@.frames.push(Frame { fid: id, pc: 0 }),
                        ..old(self)@
                    }));
                }
                Ok(())
            },
        }
    }

    /// Ends the current call: removes the innermost frame.  A `ret`
    /// with no active frame is fatal (a defensive check; the driver
    /// only dispatches inside a frame).
    pub fn ret(&mut self) -> (r: Result<(), VmErr>)
        ensures
            match r {
                Ok(()) => old(self)@.frames.len() > 0 && final(self)@ == (StateV {
                    frames: old(self)@.frames.drop_last(),
                    ..old(self)@
                }),
                Err(e) => e == VmErr::UnbalancedReturn && old(self)@.frames.len() == 0
                    && final(self)@ == old(self)@,
            },
    {
        match self.frames.pop() {
            Some(_f) => {
                proof {
                    assert(self@ =~= (StateV {
                        frames: old(self)@.frames.drop_last(),
                        ..old(self)@
                    }));
                }
                Ok(())
            },
            None => {
                proof {
                    assert(self@ =~= old(self)@);
                }
                Err(VmErr::UnbalancedReturn)
            },
        }
    }

    /// Executes one fetched instruction whose frame counter has already
    /// advanced past it, exactly as [`step_instr`] describes.
    pub fn interpret_instruction(&mut self, table: &Vec<Function>, instruction: &Instr) -> (r:
        Result<Flow, VmErr>)
        requires
            old(self)@.frames.len() > 0,
            frame_ok(table_view(table@), old(self)@.frames.last()),
        ensures
            ({
                let c = step_instr(table_view(table@), old(self)@, instruction@);
                &&& final(self)@ == c.state
                &&& (match r {
                    Ok(Flow::KeepGoing) => c.status is Running,
                    Ok(Flow::Stop) => c.status is Halted,
                    Err(e) => c.status == Status::Failed(e),
                })
            }),
    {
        match instruction {
            Instr::Push(v) => {
                self.push(*v);
                Ok(Flow::KeepGoing)
            },
            Instr::Pop => {
                match self.pop() {
                    Ok(_v) => Ok(Flow::KeepGoing),
                    Err(e) => Err(e),
                }
            },
            Instr::Add => {
                match self.add() {
                    Ok(()) => Ok(Flow::KeepGoing),
                    Err(e) => Err(e),
                }
            },
            Instr::Sub => {
                match self.sub() {
                    Ok(()) => Ok(Flow::KeepGoing),
                    Err(e) => Err(e),
                }
            },
            Instr::Mul => {
                match self.mul() {
                    Ok(()) => Ok(Flow::KeepGoing),
                    Err(e) => Err(e),
                }
            },
            Instr::SetVar(name) => {
                let owned = vstd::slice::slice_to_vec(name.as_slice());
                match self.set(owned) {
                    Ok(()) => Ok(Flow::KeepGoing),
                    Err(e) => Err(e),
                }
            },
            Instr::GetVar(name) => {
                match self.get(name.as_slice()) {
                    Ok(()) => Ok(Flow::KeepGoing),
                    Err(e) => Err(e),
                }
            },
            Instr::Jump(n) => {
                let idx = self.frames.len() - 1;
                let fid = self.frames[idx].fid;
                proof {
                    assert(table_view(table@)[fid as int] == table@[fid as int]@);
                }
                match &table[fid as usize] {
                    Function::Source(b) => {
                        proof {
                            assert(body_view(b@) == cur_body(table_view(table@), self@));
                        }
                        let len = b.len();
                        self.jump(*n, len);
                        Ok(Flow::KeepGoing)
                    },
                    Function::Native(_) => {
                        // unreachable: the frame points at a source function
                        proof {
                            assert(false);
                        }
                        Err(VmErr::UnknownFunction)
                    },
                }
            },
            Instr::Jumpif(n) => {
                let idx = self.frames.len() - 1;
                let fid = self.frames[idx].fid;
                proof {
                    assert(table_view(table@)[fid as int] == table@[fid as int]@);
                }
                match &table[fid as usize] {
                    Function::Source(b) => {
                        proof {
                            assert(body_view(b@) == cur_body(table_view(table@), self@));
                        }
                        let len = b.len();
                        match self.jumpif(*n, len) {
                            Ok(()) => Ok(Flow::KeepGoing),
                            Err(e) => Err(e),
                        }
                    },
                    Function::Native(_) => {
                        // unreachable: the frame points at a source function
                        proof {
                            assert(false);
                        }
                        Err(VmErr::UnknownFunction)
                    },
                }
            },
            Instr::Call(id) => {
                match self.call(table, *id) {
                    Ok(()) => Ok(Flow::KeepGoing),
                    Err(e) => Err(e),
                }
            },
            Instr::Ret => {
                match self.ret() {
                    Ok(()) => Ok(Flow::KeepGoing),
                    Err(e) => Err(e),
                }
            },
            Instr::Halt => Ok(Flow::Stop),
        }
    }
}

/// The starting configuration of a program run: the entry function
/// (id 1) active with its counter at zero, everything else empty.
pub open spec fn init_config() -> Config {
    running(
        StateV {
            stack: Seq::empty(),
            vars: Map::empty(),
            frames: seq![Frame { fid: 1u32, pc: 0usize }],
            out: Seq::empty(),
        },
    )
}

/// Runs the machine from the current state until no frames remain (the
/// run is done), a `halt` executes, an error stops it, or `fuel`
/// machine steps have run out.  The result is exactly what the
/// semantics reaches: on `Ok` a finished or halted configuration whose
/// state is the final state here; on any error but `StepLimit` a failed
/// one; `StepLimit` reports that after `fuel` steps the machine was
/// still running.
pub fn interpret_function(ctx: &mut RuntimeContext, table: &Vec<Function>, fuel: u64) -> (r:
    Result<(), VmErr>)
    requires
        wf_frames(table_view(table@), old(ctx)@),
    ensures
        ({
            let tbl = table_view(table@);
            let c0 = running(old(ctx)@);
            match r {
                Ok(()) => reaches(tbl, c0, Config { state: final(ctx)@, status: Status::Done })
                    || reaches(tbl, c0, Config { state: final(ctx)@, status: Status::Halted }),
                Err(e) => (e == VmErr::StepLimit && steps(tbl, c0, fuel as nat) == running(
                    final(ctx)@,
                )) || reaches(tbl, c0, Config { state: final(ctx)@, status: Status::Failed(e) }),
            }
        }),
{
    let ghost tbl = table_view(table@);
    let ghost c0 = running(old(ctx)@);
    let mut n: u64 = 0;
    while n < fuel
        invariant
            tbl == table_view(table@),
            c0 == running(old(ctx)@),
            wf_frames(tbl, ctx@),
            n <= fuel,
            steps(tbl, c0, n as nat) == running(ctx@),
        decreases fuel - n,
    {
        let ghost s0: StateV = ctx@;
        let flen = ctx.frames.len();
        if flen == 0 {
            proof {
                lemma_steps_succ(tbl, c0, n as nat);
                assert(step(tbl, running(s0)) == Config { state: s0, status: Status::Done });
            }
            return Ok(());
        }
        let fr = ctx.frames[flen - 1];
        proof {
            assert(s0.frames.last() == fr);
            assert(frame_ok(tbl, fr));
            assert(table_view(table@)[fr.fid as int] == table@[fr.fid as int]@);
        }
        let body = match &table[fr.fid as usize] {
            Function::Source(b) => b,
            Function::Native(_) => {
                // unreachable: every frame points at a source function
                proof {
                    assert(false);
                }
                return Err(VmErr::UnknownFunction);
            },
        };
        proof {
            assert(body_view(body@) == body_of(tbl, fr.fid));
        }
        if fr.pc >= body.len() {
            let _ = ctx.frames.pop();
            proof {
                assert(ctx@ =~= (StateV { frames: s0.frames.drop_last(), ..s0 }));
                lemma_steps_succ(tbl, c0, n as nat);
                assert(step(tbl, running(s0)) == running(ctx@));
                lemma_step_wf(tbl, running(s0));
            }
            n += 1;
        } else {
            let instruction = &body[fr.pc];
            let idx = flen - 1;
            ctx.frames[idx] = Frame { fid: fr.fid, pc: fr.pc + 1 };
            proof {
                assert(ctx@ =~= set_pc(s0, fr.pc + 1));
                assert(body_view(body@)[fr.pc as int] == instruction@);
                assert(ctx@.frames.last() == Frame { fid: fr.fid, pc: (fr.pc + 1) as usize });
                assert(frame_ok(tbl, ctx@.frames.last()));
            }
            let res = ctx.interpret_instruction(table, instruction);
            proof {
                assert(step(tbl, running(s0)) == step_instr(
                    tbl,
                    set_pc(s0, fr.pc + 1),
                    body_of(tbl, fr.fid)[fr.pc as int],
                ));
                lemma_steps_succ(tbl, c0, n as nat);
                lemma_step_wf(tbl, running(s0));
            }
            match res {
                Ok(Flow::KeepGoing) => {
                    n += 1;
                },
                Ok(Flow::Stop) => {
                    proof {
                        assert(steps(tbl, c0, (n + 1) as nat) == Config {
                            state: ctx@,
                            status: Status::Halted,
                        });
                    }
                    return Ok(());
                },
                Err(e) => {
                    proof {
                        assert(steps(tbl, c0, (n + 1) as nat) == Config {
                            state: ctx@,
                            status: Status::Failed(e),
                        });
                    }
                    return Err(e);
                },
            }
        }
    }
    Err(VmErr::StepLimit)
}

/// Loads `source`, builds the function table, and runs the entry
/// function (id 1), appending everything the program prints to `w` --
/// also on a fatal error, so whatever was printed before the failure is
/// still visible.  `Ok` is returned exactly when the run ends by `halt`
/// or by the entry body running out; each fatal error is reported by
/// its kind.  The run is bounded by the largest step budget; a program
/// still running after that many machine steps stops with `StepLimit`.
pub fn interpret(w: &mut Vec<u8>, source: String) -> (r: Result<(), VmErr>)
    ensures
        ({
            let lr = spec_load(vstd::utf8::encode_utf8(source@));
            match lr {
                Err(e) => r == Err::<(), VmErr>(e) && final(w)@ == old(w)@,
                Ok(tbl) => {
                    let c0 = init_config();
                    &&& (match r {
                        Ok(()) => exists|c: Config|
                            reaches(tbl, c0, c) && (c.status is Done || c.status is Halted)
                                && final(w)@ == old(w)@ + c.state.out,
                        Err(e) => (e == VmErr::StepLimit && (steps(
                            tbl,
                            c0,
                            u64::MAX as nat,
                        ).status is Running) && final(w)@ == old(w)@ + steps(
                            tbl,
                            c0,
                            u64::MAX as nat,
                        ).state.out) || (exists|c: Config|
                            reaches(tbl, c0, c) && c.status == Status::Failed(e) && final(w)@
                                == old(w)@ + c.state.out),
                    })
                    &&& (r != Err::<(), VmErr>(VmErr::StepLimit) ==> forall|c: Config|
                        reaches(tbl, c0, c) && is_terminal(c) ==> (final(w)@ == old(w)@
                            + c.state.out && ((c.status is Done || c.status is Halted) <==> r
                            is Ok)))
                },
            }
        }),
{
    let bytes = source.as_str().as_bytes_vec();
    let table = match load(bytes.as_slice()) {
        Ok(t) => t,
        Err(e) => {
            return Err(e);
        },
    };
    let ghost tbl = table_view(table@);
    proof {
        crate::loader::lemma_load_shape(vstd::utf8::encode_utf8(source@), tbl);
    }
    let mut ctx = RuntimeContext::new();
    match ctx.call(&table, 1) {
        Ok(()) => {},
        Err(_e) => {
            // unreachable: a loaded table always has the entry function
            proof {
                assert(false);
            }
            return Err(VmErr::UnknownFunction);
        },
    }
    proof {
        assert(ctx@ =~= init_config().state);
        assert(running(ctx@) =~= init_config());
        assert(wf_frames(tbl, ctx@)) by {
            assert(forall|j: int|
                0 <= j < ctx@.frames.len() ==> ctx@.frames[j] == Frame { fid: 1u32, pc: 0usize });
            assert(frame_ok(tbl, Frame { fid: 1u32, pc: 0usize }));
        }
    }
    let run = interpret_function(&mut ctx, &table, u64::MAX);
    let ghost outv: Seq<u8> = ctx.out@;
    let ghost endstate: StateV = ctx@;
    w.append(&mut ctx.out);
    proof {
        let c0 = init_config();
        match run {
            Ok(()) => {
                if reaches(tbl, c0, Config { state: endstate, status: Status::Done }) {
                    let ct = Config { state: endstate, status: Status::Done };
                    assert(reaches(tbl, c0, ct) && (ct.status is Done || ct.status is Halted)
                        && w@ == old(w)@ + ct.state.out);
                    assert forall|c: Config| reaches(tbl, c0, c) && is_terminal(c) implies (w@
                        == old(w)@ + c.state.out && ((c.status is Done || c.status is Halted)
                        <==> run is Ok)) by {
                        lemma_terminal_unique(tbl, c0, c, ct);
                    }
                } else {
                    let ct = Config { state: endstate, status: Status::Halted };
                    assert(reaches(tbl, c0, ct) && (ct.status is Done || ct.status is Halted)
                        && w@ == old(w)@ + ct.state.out);
                    assert forall|c: Config| reaches(tbl, c0, c) && is_terminal(c) implies (w@
                        == old(w)@ + c.state.out && ((c.status is Done || c.status is Halted)
                        <==> run is Ok)) by {
                        lemma_terminal_unique(tbl, c0, c, ct);
                    }
                }
            },
            Err(e) => {
                if e == VmErr::StepLimit && steps(tbl, c0, u64::MAX as nat) == running(endstate) {
                } else {
                    let ct = Config { state: endstate, status: Status::Failed(e) };
                    assert(reaches(tbl, c0, ct) && ct.status == Status::Failed(e) && w@ == old(
                        w,
                    )@ + ct.state.out);
                    assert forall|c: Config| reaches(tbl, c0, c) && is_terminal(c) implies (w@
                        == old(w)@ + c.state.out && ((c.status is Done || c.status is Halted)
                        <==> run is Ok)) by {
                        lemma_terminal_unique(tbl, c0, c, ct);
                    }
                }
            },
        }
    }
    run
}

} // verus!
