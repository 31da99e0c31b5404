//! Laws of the machine, stated once and proved for all inputs: what the
//! three arithmetic programs print, which conditions are fatal, how
//! `jumpif` treats its operand, how calls nest and return, and that
//! `halt` ends the whole run at once.

use vstd::prelude::*;

use crate::instr::{FunV, InstrV, NativeOp, VmErr};
use crate::machine::{
    body_of, cur_instr, history_of, jump_target, lemma_terminal_stays, reaches, running, set_pc,
    step, steps, Config, Frame, StateV, Status,
};
use crate::num::dec_i32;
use crate::vm::init_config;

verus! {

/// A table with one entry body beside the built-in print function.
pub open spec fn one_body_table(body: Seq<InstrV>) -> Seq<FunV> {
    seq![FunV::Native(NativeOp::Print), FunV::Source(body)]
}

/// For all 32-bit integers a and b whose sum fits in 32 bits, the
/// program `push a; push b; add; call 0; halt` halts having written
/// exactly the decimal text of a + b and one newline.  (On a sum
/// outside 32 bits the machine wraps instead, so the law holds of the
/// inputs whose sum the machine's integers can carry.)
pub proof fn lemma_add_program(a: i32, b: i32)
    requires
        i32::MIN <= a + b <= i32::MAX,
    ensures
        ({
            let tbl = one_body_table(
                seq![
                    InstrV::Push(a),
                    InstrV::Push(b),
                    InstrV::Add,
                    InstrV::Call(0),
                    InstrV::Halt,
                ],
            );
            exists|c: Config|
                reaches(tbl, init_config(), c) && (c.status is Halted) && c.state.out == dec_i32(
                    a + b,
                ) + seq![10u8]
        }),
{
    let body = seq![InstrV::Push(a), InstrV::Push(b), InstrV::Add, InstrV::Call(0), InstrV::Halt];
    let tbl = one_body_table(body);
    let c0 = init_config();
    let vars = Map::<Seq<u8>, i32>::empty();
    let none = Seq::<u8>::empty();
    let c1 = running(
        StateV { stack: seq![a], vars, frames: seq![Frame { fid: 1, pc: 1 }], out: none },
    );
    let c2 = running(
        StateV { stack: seq![a, b], vars, frames: seq![Frame { fid: 1, pc: 2 }], out: none },
    );
    let sum = vstd::wrapping::i32_specs::wrapping_add(b, a);
    let c3 = running(
        StateV { stack: seq![sum], vars, frames: seq![Frame { fid: 1, pc: 3 }], out: none },
    );
    let written = dec_i32(a + b) + seq![10u8];
    let c4 = running(
        StateV { stack: seq![sum], vars, frames: seq![Frame { fid: 1, pc: 4 }], out: written },
    );
    let c5 = Config {
        state: StateV { stack: seq![sum], vars, frames: seq![Frame { fid: 1, pc: 5 }], out: written },
        status: Status::Halted,
    };
    assert(sum == a + b);
    assert(step(tbl, c0) =~~= c1);
    assert(step(tbl, c1) =~~= c2);
    assert(c2.state.stack.take(0) =~= Seq::<i32>::empty());
    assert(step(tbl, c2) =~~= c3);
    assert(none + dec_i32(sum as int) + seq![10u8] =~= written);
    assert(step(tbl, c3) =~~= c4);
    assert(step(tbl, c4) =~~= c5);
    assert(steps(tbl, c0, 5) == steps(tbl, c1, 4));
    assert(steps(tbl, c1, 4) == steps(tbl, c2, 3));
    assert(steps(tbl, c2, 3) == steps(tbl, c3, 2));
    assert(steps(tbl, c3, 2) == steps(tbl, c4, 1));
    assert(steps(tbl, c4, 1) == steps(tbl, c5, 0));
    assert(steps(tbl, c0, 5) == c5);
    assert(reaches(tbl, c0, c5));
}

/// For all 32-bit integers a and b whose difference b - a fits in 32
/// bits, the program `push a; push b; sub; call 0; halt` halts having
/// written exactly the decimal text of b - a and one newline: the
/// first-popped operand is the left operand of the subtraction.
pub proof fn lemma_sub_program(a: i32, b: i32)
    requires
        i32::MIN <= b - a <= i32::MAX,
    ensures
        ({
            let tbl = one_body_table(
                seq![
                    InstrV::Push(a),
                    InstrV::Push(b),
                    InstrV::Sub,
                    InstrV::Call(0),
                    InstrV::Halt,
                ],
            );
            exists|c: Config|
                reaches(tbl, init_config(), c) && (c.status is Halted) && c.state.out == dec_i32(
                    b - a,
                ) + seq![10u8]
        }),
{
    let body = seq![InstrV::Push(a), InstrV::Push(b), InstrV::Sub, InstrV::Call(0), InstrV::Halt];
    let tbl = one_body_table(body);
    let c0 = init_config();
    let vars = Map::<Seq<u8>, i32>::empty();
    let none = Seq::<u8>::empty();
    let c1 = running(
        StateV { stack: seq![a], vars, frames: seq![Frame { fid: 1, pc: 1 }], out: none },
    );
    let c2 = running(
        StateV { stack: seq![a, b], vars, frames: seq![Frame { fid: 1, pc: 2 }], out: none },
    );
    let diff = vstd::wrapping::i32_specs::wrapping_sub(b, a);
    let c3 = running(
        StateV { stack: seq![diff], vars, frames: seq![Frame { fid: 1, pc: 3 }], out: none },
    );
    let written = dec_i32(b - a) + seq![10u8];
    let c4 = running(
        StateV { stack: seq![diff], vars, frames: seq![Frame { fid: 1, pc: 4 }], out: written },
    );
    let c5 = Config {
        state: StateV { stack: seq![diff], vars, frames: seq![Frame { fid: 1, pc: 5 }], out: written },
        status: Status::Halted,
    };
    assert(diff == b - a);
    assert(step(tbl, c0) =~~= c1);
    assert(step(tbl, c1) =~~= c2);
    assert(c2.state.stack.take(0) =~= Seq::<i32>::empty());
    assert(step(tbl, c2) =~~= c3);
    assert(none + dec_i32(diff as int) + seq![10u8] =~= written);
    assert(step(tbl, c3) =~~= c4);
    assert(step(tbl, c4) =~~= c5);
    assert(steps(tbl, c0, 5) == steps(tbl, c1, 4));
    assert(steps(tbl, c1, 4) == steps(tbl, c2, 3));
    assert(steps(tbl, c2, 3) == steps(tbl, c3, 2));
    assert(steps(tbl, c3, 2) == steps(tbl, c4, 1));
    assert(steps(tbl, c4, 1) == steps(tbl, c5, 0));
    assert(steps(tbl, c0, 5) == c5);
    assert(reaches(tbl, c0, c5));
}

/// For all 32-bit integers a and b whose product fits in 32 bits, the
/// program `push a; push b; mul; call 0; halt` halts having written
/// exactly the decimal text of a * b and one newline.
pub proof fn lemma_mul_program(a: i32, b: i32)
    requires
        i32::MIN <= a * b <= i32::MAX,
    ensures
        ({
            let tbl = one_body_table(
                seq![
                    InstrV::Push(a),
                    InstrV::Push(b),
                    InstrV::Mul,
                    InstrV::Call(0),
                    InstrV::Halt,
                ],
            );
            exists|c: Config|
                reaches(tbl, init_config(), c) && (c.status is Halted) && c.state.out == dec_i32(
                    a * b,
                ) + seq![10u8]
        }),
{
    let body = seq![InstrV::Push(a), InstrV::Push(b), InstrV::Mul, InstrV::Call(0), InstrV::Halt];
    let tbl = one_body_table(body);
    let c0 = init_config();
    let vars = Map::<Seq<u8>, i32>::empty();
    let none = Seq::<u8>::empty();
    let c1 = running(
        StateV { stack: seq![a], vars, frames: seq![Frame { fid: 1, pc: 1 }], out: none },
    );
    let c2 = running(
        StateV { stack: seq![a, b], vars, frames: seq![Frame { fid: 1, pc: 2 }], out: none },
    );
    let prod = vstd::wrapping::i32_specs::wrapping_mul(b, a);
    let c3 = running(
        StateV { stack: seq![prod], vars, frames: seq![Frame { fid: 1, pc: 3 }], out: none },
    );
    let written = dec_i32(a * b) + seq![10u8];
    let c4 = running(
        StateV { stack: seq![prod], vars, frames: seq![Frame { fid: 1, pc: 4 }], out: written },
    );
    let c5 = Config {
        state: StateV { stack: seq![prod], vars, frames: seq![Frame { fid: 1, pc: 5 }], out: written },
        status: Status::Halted,
    };
    assert(prod == a * b) by {
        assert(b * a == a * b) by (nonlinear_arith);
        let x = a * b;
        if x >= 0 {
            vstd::arithmetic::div_mod::lemma_small_mod(x as nat, 0x1_0000_0000 as nat);
        } else {
            vstd::arithmetic::div_mod::lemma_mod_add_multiples_vanish(x, 0x1_0000_0000);
            vstd::arithmetic::div_mod::lemma_small_mod(
                (x + 0x1_0000_0000) as nat,
                0x1_0000_0000 as nat,
            );
        }
    };
    assert(step(tbl, c0) =~~= c1);
    assert(step(tbl, c1) =~~= c2);
    assert(c2.state.stack.take(0) =~= Seq::<i32>::empty());
    assert(step(tbl, c2) =~~= c3);
    assert(none + dec_i32(prod as int) + seq![10u8] =~= written);
    assert(step(tbl, c3) =~~= c4);
    assert(step(tbl, c4) =~~= c5);
    assert(steps(tbl, c0, 5) == steps(tbl, c1, 4));
    assert(steps(tbl, c1, 4) == steps(tbl, c2, 3));
    assert(steps(tbl, c2, 3) == steps(tbl, c3, 2));
    assert(steps(tbl, c3, 2) == steps(tbl, c4, 1));
    assert(steps(tbl, c4, 1) == steps(tbl, c5, 0));
    assert(steps(tbl, c0, 5) == c5);
    assert(reaches(tbl, c0, c5));
}

/// `pop` on an empty operand stack is fatal.
pub proof fn lemma_pop_empty_fatal(tbl: Seq<FunV>, c: Config)
    requires
        c.status is Running,
        cur_instr(tbl, c) == Some(InstrV::Pop),
        c.state.stack.len() == 0,
    ensures
        step(tbl, c).status == Status::Failed(VmErr::StackUnderflow),
        step(tbl, c).state.stack == c.state.stack,
{
}

/// `get` of a name that was never `set` is fatal.
pub proof fn lemma_get_unbound_fatal(tbl: Seq<FunV>, c: Config, name: Seq<u8>)
    requires
        c.status is Running,
        cur_instr(tbl, c) == Some(InstrV::GetVar(name)),
        !c.state.vars.contains_key(name),
    ensures
        step(tbl, c).status == Status::Failed(VmErr::UnboundVariable),
{
}

/// `call` of an id absent from the function table is fatal.
pub proof fn lemma_call_unknown_fatal(tbl: Seq<FunV>, c: Config, id: u32)
    requires
        c.status is Running,
        cur_instr(tbl, c) == Some(InstrV::Call(id)),
        id as int >= tbl.len(),
    ensures
        step(tbl, c).status == Status::Failed(VmErr::UnknownFunction),
{
}

/// `jumpif` consumes its operand: zero jumps to the target line,
/// anything else falls through to the next instruction, and either way
/// the stack afterwards is the stack before minus the popped value.
pub proof fn lemma_jumpif(tbl: Seq<FunV>, c: Config, n: i32)
    requires
        c.status is Running,
        cur_instr(tbl, c) == Some(InstrV::Jumpif(n)),
        c.state.stack.len() > 0,
        body_of(tbl, c.state.frames.last().fid).len() <= usize::MAX,
    ensures
        ({
            let c2 = step(tbl, c);
            let fr = c.state.frames.last();
            let len = body_of(tbl, fr.fid).len();
            &&& c2.status is Running
            &&& c2.state.stack == c.state.stack.drop_last()
            &&& c2.state.vars == c.state.vars
            &&& c2.state.out == c.state.out
            &&& c2.state.frames.len() == c.state.frames.len()
            &&& c2.state.frames.last().fid == fr.fid
            &&& c2.state.frames.last().pc == if c.state.stack.last() == 0 {
                jump_target(n, len as int)
            } else {
                fr.pc + 1
            }
            &&& (forall|j: int|
                0 <= j < c.state.frames.len() - 1 ==> c2.state.frames[j] == c.state.frames[j])
        }),
{
    let fr = c.state.frames.last();
    let sp = set_pc(c.state, fr.pc + 1);
    assert(sp.frames.last() == Frame { fid: fr.fid, pc: (fr.pc + 1) as usize });
}

/// `call` of a source function leaves the caller's frame at its next
/// instruction and opens a fresh innermost frame with its own counter
/// at zero; stack, variables and output are untouched.  Together with
/// [`lemma_ret`] this is the call/return law: when the callee returns,
/// control resumes at the caller's next instruction.
pub proof fn lemma_call_source(tbl: Seq<FunV>, c: Config, id: u32)
    requires
        c.status is Running,
        cur_instr(tbl, c) == Some(InstrV::Call(id)),
        (id as int) < tbl.len(),
        tbl[id as int] is Source,
    ensures
        ({
            let c2 = step(tbl, c);
            let fr = c.state.frames.last();
            &&& c2.status is Running
            &&& c2.state.stack == c.state.stack
            &&& c2.state.vars == c.state.vars
            &&& c2.state.out == c.state.out
            &&& c2.state.frames == c.state.frames.update(
                c.state.frames.len() - 1,
                Frame { fid: fr.fid, pc: (fr.pc + 1) as usize },
            ).push(Frame { fid: id, pc: 0 })
            &&& history_of(c2.state) == history_of(c.state).push(id)
        }),
{
    let c2 = step(tbl, c);
    assert(history_of(c2.state) =~= history_of(c.state).push(id));
}

/// `ret` closes exactly the innermost frame: every outer frame keeps
/// its saved counter, and the stack, the output, and the whole shared
/// variable store -- including every binding the callee made -- carry
/// over to the caller unchanged.
pub proof fn lemma_ret(tbl: Seq<FunV>, c: Config)
    requires
        c.status is Running,
        cur_instr(tbl, c) == Some(InstrV::Ret),
    ensures
        ({
            let c2 = step(tbl, c);
            &&& c2.status is Running
            &&& c2.state.stack == c.state.stack
            &&& c2.state.vars == c.state.vars
            &&& c2.state.out == c.state.out
            &&& c2.state.frames == c.state.frames.drop_last()
            &&& history_of(c2.state) == history_of(c.state).drop_last()
        }),
{
    let fr = c.state.frames.last();
    let sp = set_pc(c.state, fr.pc + 1);
    assert(sp.frames.drop_last() =~= c.state.frames.drop_last());
    let c2 = step(tbl, c);
    assert(history_of(c2.state) =~= history_of(c.state).drop_last());
}

/// `halt` terminates the whole run at once, however deep the call
/// nesting: the very next configuration is halted -- a success, not a
/// failure -- and every later configuration equals it, so no pending
/// frame runs any further instruction.
pub proof fn lemma_halt(tbl: Seq<FunV>, c: Config, n: nat)
    requires
        c.status is Running,
        cur_instr(tbl, c) == Some(InstrV::Halt),
    ensures
        step(tbl, c).status is Halted,
        steps(tbl, step(tbl, c), n) == step(tbl, c),
{
    lemma_terminal_stays(tbl, step(tbl, c), n);
}

} // verus!
