//! Fatal errors: every kind of the taxonomy, the input that raises it,
//! and that output written before a failure is still delivered.

use stackvm::vm::interpret;
use stackvm::VmErr;

#[test]
fn pop_on_empty_stack_is_fatal() {
    let mut buf = Vec::<u8>::new();
    let r = interpret(&mut buf, "pop\n".to_string());
    assert_eq!(r, Err(VmErr::StackUnderflow));
    assert_eq!(buf, b"");
}

#[test]
fn arithmetic_underflow_is_fatal() {
    let mut buf = Vec::<u8>::new();
    let r = interpret(&mut buf, "push 1\nadd\n".to_string());
    assert_eq!(r, Err(VmErr::StackUnderflow));
}

#[test]
fn print_on_empty_stack_is_fatal() {
    let mut buf = Vec::<u8>::new();
    let r = interpret(&mut buf, "call 0\n".to_string());
    assert_eq!(r, Err(VmErr::StackUnderflow));
}

#[test]
fn get_before_set_is_fatal() {
    let mut buf = Vec::<u8>::new();
    let r = interpret(&mut buf, "get x\n".to_string());
    assert_eq!(r, Err(VmErr::UnboundVariable));
}

#[test]
fn call_of_unknown_id_is_fatal() {
    let mut buf = Vec::<u8>::new();
    let r = interpret(&mut buf, "call 999\n".to_string());
    assert_eq!(r, Err(VmErr::UnknownFunction));
}

#[test]
fn unknown_opcode_is_fatal() {
    let mut buf = Vec::<u8>::new();
    let r = interpret(&mut buf, "frobnicate\n".to_string());
    assert_eq!(r, Err(VmErr::UnknownOpcode));
}

#[test]
fn non_numeric_operand_is_fatal() {
    let mut buf = Vec::<u8>::new();
    let r = interpret(&mut buf, "push abc\n".to_string());
    assert_eq!(r, Err(VmErr::MalformedOperand));
}

#[test]
fn missing_operand_is_fatal() {
    let mut buf = Vec::<u8>::new();
    assert_eq!(interpret(&mut buf, "push\n".to_string()), Err(VmErr::MalformedOperand));
    assert_eq!(interpret(&mut buf, "set\n".to_string()), Err(VmErr::MalformedOperand));
    assert_eq!(interpret(&mut buf, "call\n".to_string()), Err(VmErr::MalformedOperand));
}

#[test]
fn out_of_range_literal_is_fatal() {
    let mut buf = Vec::<u8>::new();
    assert_eq!(interpret(&mut buf, "push 2147483648\n".to_string()), Err(VmErr::MalformedOperand));
    assert_eq!(interpret(&mut buf, "push -2147483649\n".to_string()), Err(VmErr::MalformedOperand));
    assert_eq!(
        interpret(&mut buf, "push 1234567890123456789\n".to_string()),
        Err(VmErr::MalformedOperand),
    );
}

#[test]
fn negative_call_id_is_fatal() {
    let mut buf = Vec::<u8>::new();
    let r = interpret(&mut buf, "call -1\n".to_string());
    assert_eq!(r, Err(VmErr::MalformedOperand));
}

#[test]
fn malformed_line_stops_run_before_execution() {
    // Instructions compile at load time, so a bad line later in the
    // body is fatal before the first instruction runs.
    let mut buf = Vec::<u8>::new();
    let r = interpret(&mut buf, "push 1\ncall 0\nbogus\n".to_string());
    assert_eq!(r, Err(VmErr::UnknownOpcode));
    assert_eq!(buf, b"");
}

#[test]
fn output_before_runtime_failure_is_kept() {
    let mut buf = Vec::<u8>::new();
    let r = interpret(&mut buf, "push 3\ncall 0\npop\npop\nhalt\n".to_string());
    assert_eq!(r, Err(VmErr::StackUnderflow));
    assert_eq!(buf, b"3\n");
}
