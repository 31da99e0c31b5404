//! Instructions, their parsed form, and the error kinds of a run.
//!
//! A raw instruction line is an opcode keyword optionally followed by one
//! operand token; tokens after the first operand are ignored.  Parsing
//! happens once, at load time, so malformed lines stop a run before any
//! instruction executes.

use vstd::prelude::*;

use crate::num::{parse_i32, parse_u32, spec_parse_i32, spec_parse_u32};
use crate::text::{byte_is_space, find_space, is_space, lemma_find_space, lemma_ltrim_skip, ltrim};

verus! {

/// The ways a run can fail.  Every error is fatal: the machine stops and
/// reports the kind.  `StepLimit` reports exhaustion of the explicit step
/// budget that bounds a run (the analogue of running out of host stack).
#[derive(Clone, Copy, Debug, PartialEq, Eq, Structural)]
pub enum VmErr {
    MalformedOperand,
    StackUnderflow,
    UnboundVariable,
    UnknownFunction,
    UnbalancedReturn,
    UnknownOpcode,
    StepLimit,
}

/// The built-in operations a native function can perform.
#[derive(Clone, Copy, Debug, PartialEq, Eq, Structural)]
pub enum NativeOp {
    /// Writes the decimal text of the top of the stack, then a newline.
    Print,
}

/// One executable instruction.
#[derive(Debug)]
pub enum Instr {
    Push(i32),
    Pop,
    Add,
    Sub,
    Mul,
    SetVar(Vec<u8>),
    GetVar(Vec<u8>),
    Jump(i32),
    Jumpif(i32),
    Call(u32),
    Ret,
    Halt,
}

/// The mathematical shape of an instruction: variable names as byte
/// sequences.
pub enum InstrV {
    Push(i32),
    Pop,
    Add,
    Sub,
    Mul,
    SetVar(Seq<u8>),
    GetVar(Seq<u8>),
    Jump(i32),
    Jumpif(i32),
    Call(u32),
    Ret,
    Halt,
}

impl View for Instr {
    type V = InstrV;

    open spec fn view(&self) -> InstrV {
        match self {
            Instr::Push(v) => InstrV::Push(*v),
            Instr::Pop => InstrV::Pop,
            Instr::Add => InstrV::Add,
            Instr::Sub => InstrV::Sub,
            Instr::Mul => InstrV::Mul,
            Instr::SetVar(n) => InstrV::SetVar(n@),
            Instr::GetVar(n) => InstrV::GetVar(n@),
            Instr::Jump(n) => InstrV::Jump(*n),
            Instr::Jumpif(n) => InstrV::Jumpif(*n),
            Instr::Call(id) => InstrV::Call(*id),
            Instr::Ret => InstrV::Ret,
            Instr::Halt => InstrV::Halt,
        }
    }
}

/// A callable function: a fixed built-in operation, or a sequence of
/// instructions from the program text.
pub enum Function {
    Native(NativeOp),
    Source(Vec<Instr>),
}

/// The mathematical shape of a function-table entry.
pub enum FunV {
    Native(NativeOp),
    Source(Seq<InstrV>),
}

/// The mathematical shape of a body: its instructions' shapes in order.
pub open spec fn body_view(b: Seq<Instr>) -> Seq<InstrV> {
    b.map_values(|i: Instr| i@)
}

pub proof fn lemma_body_view_push(b: Seq<Instr>, x: Instr)
    ensures
        body_view(b.push(x)) == body_view(b).push(x@),
{
    assert(body_view(b.push(x)) =~= body_view(b).push(x@));
}

impl View for Function {
    type V = FunV;

    open spec fn view(&self) -> FunV {
        match self {
            Function::Native(op) => FunV::Native(*op),
            Function::Source(body) => FunV::Source(body_view(body@)),
        }
    }
}

pub open spec fn op_push() -> Seq<u8> {
    seq!['p' as u8, 'u' as u8, 's' as u8, 'h' as u8]
}

pub open spec fn op_pop() -> Seq<u8> {
    seq!['p' as u8, 'o' as u8, 'p' as u8]
}

pub open spec fn op_add() -> Seq<u8> {
    seq!['a' as u8, 'd' as u8, 'd' as u8]
}

pub open spec fn op_sub() -> Seq<u8> {
    seq!['s' as u8, 'u' as u8, 'b' as u8]
}

pub open spec fn op_mul() -> Seq<u8> {
    seq!['m' as u8, 'u' as u8, 'l' as u8]
}

pub open spec fn op_set() -> Seq<u8> {
    seq!['s' as u8, 'e' as u8, 't' as u8]
}

pub open spec fn op_get() -> Seq<u8> {
    seq!['g' as u8, 'e' as u8, 't' as u8]
}

pub open spec fn op_jump() -> Seq<u8> {
    seq!['j' as u8, 'u' as u8, 'm' as u8, 'p' as u8]
}

pub open spec fn op_jumpif() -> Seq<u8> {
    seq!['j' as u8, 'u' as u8, 'm' as u8, 'p' as u8, 'i' as u8, 'f' as u8]
}

pub open spec fn op_call() -> Seq<u8> {
    seq!['c' as u8, 'a' as u8, 'l' as u8, 'l' as u8]
}

pub open spec fn op_ret() -> Seq<u8> {
    seq!['r' as u8, 'e' as u8, 't' as u8]
}

pub open spec fn op_halt() -> Seq<u8> {
    seq!['h' as u8, 'a' as u8, 'l' as u8, 't' as u8]
}

/// The opcode keyword of a trimmed line: its first whitespace-free token.
pub open spec fn op_token(t: Seq<u8>) -> Seq<u8> {
    t.take(find_space(t))
}

/// The operand of a trimmed line: the token after the opcode keyword
/// (empty if there is none).
pub open spec fn arg_token(t: Seq<u8>) -> Seq<u8> {
    let rest = ltrim(t.skip(find_space(t)));
    rest.take(find_space(rest))
}

/// What a trimmed, nonempty, non-header line means.  Operands that fail to
/// parse are malformed; keywords outside the fixed set are unknown opcodes.
pub open spec fn spec_parse_instr(t: Seq<u8>) -> Result<InstrV, VmErr> {
    let op = op_token(t);
    let arg = arg_token(t);
    if op == op_push() {
        match spec_parse_i32(arg) {
            Some(v) => Ok(InstrV::Push(v)),
            None => Err(VmErr::MalformedOperand),
        }
    } else if op == op_pop() {
        Ok(InstrV::Pop)
    } else if op == op_add() {
        Ok(InstrV::Add)
    } else if op == op_sub() {
        Ok(InstrV::Sub)
    } else if op == op_mul() {
        Ok(InstrV::Mul)
    } else if op == op_set() {
        if arg.len() > 0 {
            Ok(InstrV::SetVar(arg))
        } else {
            Err(VmErr::MalformedOperand)
        }
    } else if op == op_get() {
        if arg.len() > 0 {
            Ok(InstrV::GetVar(arg))
        } else {
            Err(VmErr::MalformedOperand)
        }
    } else if op == op_jump() {
        match spec_parse_i32(arg) {
            Some(v) => Ok(InstrV::Jump(v)),
            None => Err(VmErr::MalformedOperand),
        }
    } else if op == op_jumpif() {
        match spec_parse_i32(arg) {
            Some(v) => Ok(InstrV::Jumpif(v)),
            None => Err(VmErr::MalformedOperand),
        }
    } else if op == op_call() {
        match spec_parse_u32(arg) {
            Some(id) => Ok(InstrV::Call(id)),
            None => Err(VmErr::MalformedOperand),
        }
    } else if op == op_ret() {
        Ok(InstrV::Ret)
    } else if op == op_halt() {
        Ok(InstrV::Halt)
    } else {
        Err(VmErr::UnknownOpcode)
    }
}

/// Relates a parsed instruction to its mathematical shape.
pub open spec fn instr_res_view(r: Result<Instr, VmErr>) -> Result<InstrV, VmErr> {
    match r {
        Ok(i) => Ok(i@),
        Err(e) => Err(e),
    }
}

/// Parses one trimmed instruction line.
pub fn parse_instr(t: &[u8]) -> (r: Result<Instr, VmErr>)
    ensures
        instr_res_view(r) == spec_parse_instr(t@),
{
    let mut k: usize = 0;
    while k < t.len() && !byte_is_space(t[k])
        invariant
            0 <= k <= t@.len(),
            forall|j: int| 0 <= j < k ==> !is_space(t@[j]),
        decreases t@.len() - k,
    {
        k += 1;
    }
    proof {
        lemma_find_space(t@);
        assert(find_space(t@) == k);
    }
    let op = vstd::slice::slice_subrange(t, 0, k);
    proof {
        assert(op@ =~= op_token(t@));
    }
    let mut a: usize = k;
    while a < t.len() && byte_is_space(t[a])
        invariant
            k <= a <= t@.len(),
            forall|j: int| k <= j < a ==> is_space(t@[j]),
        decreases t@.len() - a,
    {
        a += 1;
    }
    proof {
        let tail = t@.skip(k as int);
        assert forall|j: int| 0 <= j < a - k implies is_space(tail[j]) by {
            assert(tail[j] == t@[k + j]);
        }
        lemma_ltrim_skip(tail, a - k);
        assert(tail.skip(a - k) =~= t@.skip(a as int));
    }
    let mut e: usize = a;
    while e < t.len() && !byte_is_space(t[e])
        invariant
            a <= e <= t@.len(),
            forall|j: int| a <= j < e ==> !is_space(t@[j]),
        decreases t@.len() - e,
    {
        e += 1;
    }
    let arg = vstd::slice::slice_subrange(t, a, e);
    proof {
        let rest = t@.skip(a as int);
        lemma_find_space(rest);
        assert forall|j: int| 0 <= j < e - a implies !is_space(rest[j]) by {
            assert(rest[j] == t@[a + j]);
        }
        if e < t@.len() {
            assert(rest[e - a] == t@[e as int]);
        }
        assert(find_space(rest) == e - a);
        assert(rest.take(e - a) =~= t@.subrange(a as int, e as int));
        assert(arg@ == arg_token(t@));
    }
    if op.len() == 4 && op[0] == 'p' as u8 && op[1] == 'u' as u8 && op[2] == 's' as u8 && op[3]
        == 'h' as u8 {
        proof {
            assert(op@ =~= op_push());
        }
        match parse_i32(arg) {
            Some(v) => Ok(Instr::Push(v)),
            None => Err(VmErr::MalformedOperand),
        }
    } else if op.len() == 3 && op[0] == 'p' as u8 && op[1] == 'o' as u8 && op[2] == 'p' as u8 {
        proof {
            assert(op@ =~= op_pop());
        }
        Ok(Instr::Pop)
    } else if op.len() == 3 && op[0] == 'a' as u8 && op[1] == 'd' as u8 && op[2] == 'd' as u8 {
        proof {
            assert(op@ =~= op_add());
        }
        Ok(Instr::Add)
    } else if op.len() == 3 && op[0] == 's' as u8 && op[1] == 'u' as u8 && op[2] == 'b' as u8 {
        proof {
            assert(op@ =~= op_sub());
        }
        Ok(Instr::Sub)
    } else if op.len() == 3 && op[0] == 'm' as u8 && op[1] == 'u' as u8 && op[2] == 'l' as u8 {
        proof {
            assert(op@ =~= op_mul());
        }
        Ok(Instr::Mul)
    } else if op.len() == 3 && op[0] == 's' as u8 && op[1] == 'e' as u8 && op[2] == 't' as u8 {
        proof {
            assert(op@ =~= op_set());
        }
        if arg.len() > 0 {
            Ok(Instr::SetVar(vstd::slice::slice_to_vec(arg)))
        } else {
            Err(VmErr::MalformedOperand)
        }
    } else if op.len() == 3 && op[0] == 'g' as u8 && op[1] == 'e' as u8 && op[2] == 't' as u8 {
        proof {
            assert(op@ =~= op_get());
        }
        if arg.len() > 0 {
            Ok(Instr::GetVar(vstd::slice::slice_to_vec(arg)))
        } else {
            Err(VmErr::MalformedOperand)
        }
    } else if op.len() == 4 && op[0] == 'j' as u8 && op[1] == 'u' as u8 && op[2] == 'm' as u8 && op[3]
        == 'p' as u8 {
        proof {
            assert(op@ =~= op_jump());
        }
        match parse_i32(arg) {
            Some(v) => Ok(Instr::Jump(v)),
            None => Err(VmErr::MalformedOperand),
        }
    } else if op.len() == 6 && op[0] == 'j' as u8 && op[1] == 'u' as u8 && op[2] == 'm' as u8 && op[3]
        == 'p' as u8 && op[4] == 'i' as u8 && op[5] == 'f' as u8 {
        proof {
            assert(op@ =~= op_jumpif());
        }
        match parse_i32(arg) {
            Some(v) => Ok(Instr::Jumpif(v)),
            None => Err(VmErr::MalformedOperand),
        }
    } else if op.len() == 4 && op[0] == 'c' as u8 && op[1] == 'a' as u8 && op[2] == 'l' as u8 && op[3]
        == 'l' as u8 {
        proof {
            assert(op@ =~= op_call());
        }
        match parse_u32(arg) {
            Some(id) => Ok(Instr::Call(id)),
            None => Err(VmErr::MalformedOperand),
        }
    } else if op.len() == 3 && op[0] == 'r' as u8 && op[1] == 'e' as u8 && op[2] == 't' as u8 {
        proof {
            assert(op@ =~= op_ret());
        }
        Ok(Instr::Ret)
    } else if op.len() == 4 && op[0] == 'h' as u8 && op[1] == 'a' as u8 && op[2] == 'l' as u8 && op[3]
        == 't' as u8 {
        proof {
            assert(op@ =~= op_halt());
        }
        Ok(Instr::Halt)
    } else {
        Err(VmErr::UnknownOpcode)
    }
}

} // verus!
