//! Runs of whole programs through `interpret`: arithmetic, variables,
//! jumps, calls and returns, and the exact bytes they print.

use stackvm::vm::interpret;

#[test]
fn add() {
    let mut buf = Vec::<u8>::new();
    let r = interpret(
        &mut buf,
        r#"fn main:
            push 1
            push 2
            add
            call 0
            halt
            "#
        .to_string(),
    );
    assert!(r.is_ok());
    assert_eq!(buf, b"3\n");
}

#[test]
fn headerless_add_scenario() {
    let mut buf = Vec::<u8>::new();
    let r = interpret(&mut buf, "push 1\npush 2\nadd\ncall 0\nhalt\n".to_string());
    assert!(r.is_ok());
    assert_eq!(buf, b"3\n");
}

#[test]
fn sub_takes_first_popped_as_left_operand() {
    let mut buf = Vec::<u8>::new();
    let r = interpret(&mut buf, "push 7\npush 10\nsub\ncall 0\nhalt\n".to_string());
    assert!(r.is_ok());
    assert_eq!(buf, b"3\n");
}

#[test]
fn mul_product() {
    let mut buf = Vec::<u8>::new();
    let r = interpret(&mut buf, "push 6\npush 7\nmul\ncall 0\nhalt\n".to_string());
    assert!(r.is_ok());
    assert_eq!(buf, b"42\n");
}

#[test]
fn print_negative_value() {
    let mut buf = Vec::<u8>::new();
    let r = interpret(&mut buf, "push -5\ncall 0\nhalt\n".to_string());
    assert!(r.is_ok());
    assert_eq!(buf, b"-5\n");
}

#[test]
fn print_extreme_values() {
    let mut buf = Vec::<u8>::new();
    let r = interpret(
        &mut buf,
        "push -2147483648\ncall 0\npop\npush 2147483647\ncall 0\nhalt\n".to_string(),
    );
    assert!(r.is_ok());
    assert_eq!(buf, b"-2147483648\n2147483647\n");
}

#[test]
fn add_wraps_on_overflow() {
    let mut buf = Vec::<u8>::new();
    let r = interpret(&mut buf, "push 2147483647\npush 1\nadd\ncall 0\nhalt\n".to_string());
    assert!(r.is_ok());
    assert_eq!(buf, b"-2147483648\n");
}

#[test]
fn set_then_get_roundtrip() {
    let mut buf = Vec::<u8>::new();
    let r = interpret(&mut buf, "push 42\nset x\nget x\ncall 0\nhalt\n".to_string());
    assert!(r.is_ok());
    assert_eq!(buf, b"42\n");
}

#[test]
fn set_pops_its_value() {
    let mut buf = Vec::<u8>::new();
    let r = interpret(&mut buf, "push 1\npush 2\nset x\ncall 0\nhalt\n".to_string());
    assert!(r.is_ok());
    assert_eq!(buf, b"1\n");
}

#[test]
fn print_peeks_without_popping() {
    let mut buf = Vec::<u8>::new();
    let r = interpret(&mut buf, "push 4\ncall 0\ncall 0\nhalt\n".to_string());
    assert!(r.is_ok());
    assert_eq!(buf, b"4\n4\n");
}

#[test]
fn jump_skips_lines() {
    let mut buf = Vec::<u8>::new();
    let r = interpret(&mut buf, "jump 2\npush 1\npush 3\ncall 0\nhalt\n".to_string());
    assert!(r.is_ok());
    assert_eq!(buf, b"3\n");
}

#[test]
fn jump_out_of_range_returns() {
    let mut buf = Vec::<u8>::new();
    let r = interpret(&mut buf, "push 8\ncall 0\njump 99\npush 9\ncall 0\nhalt\n".to_string());
    assert!(r.is_ok());
    assert_eq!(buf, b"8\n");
}

#[test]
fn jumpif_zero_jumps() {
    let mut buf = Vec::<u8>::new();
    let r = interpret(
        &mut buf,
        "push 0\njumpif 4\npush 111\ncall 0\npush 222\ncall 0\nhalt\n".to_string(),
    );
    assert!(r.is_ok());
    assert_eq!(buf, b"222\n");
}

#[test]
fn jumpif_nonzero_falls_through() {
    let mut buf = Vec::<u8>::new();
    let r = interpret(
        &mut buf,
        "push 1\njumpif 4\npush 111\ncall 0\npush 222\ncall 0\nhalt\n".to_string(),
    );
    assert!(r.is_ok());
    assert_eq!(buf, b"111\n222\n");
}

#[test]
fn jumpif_consumes_operand() {
    let mut buf = Vec::<u8>::new();
    let r = interpret(&mut buf, "push 5\npush 1\njumpif 9\ncall 0\nhalt\n".to_string());
    assert!(r.is_ok());
    assert_eq!(buf, b"5\n");
}

#[test]
fn nested_call_resumes_caller_and_shares_variables() {
    let mut buf = Vec::<u8>::new();
    let program = "fn main:\npush 1\nset x\ncall 2\nget x\ncall 0\nhalt\nfn helper:\npush 99\nset x\nret\npush 123\n";
    let r = interpret(&mut buf, program.to_string());
    assert!(r.is_ok());
    assert_eq!(buf, b"99\n");
}

#[test]
fn halt_in_nested_call_ends_whole_run() {
    let mut buf = Vec::<u8>::new();
    let program = "fn main:\ncall 2\npush 1\ncall 0\nfn inner:\npush 7\ncall 0\nhalt\n";
    let r = interpret(&mut buf, program.to_string());
    assert!(r.is_ok());
    assert_eq!(buf, b"7\n");
}

#[test]
fn exhausted_body_returns_implicitly() {
    let mut buf = Vec::<u8>::new();
    let program = "fn main:\ncall 2\npush 5\ncall 0\nhalt\nfn f:\npush 1\nset y\n";
    let r = interpret(&mut buf, program.to_string());
    assert!(r.is_ok());
    assert_eq!(buf, b"5\n");
}

#[test]
fn two_user_functions_get_successive_ids() {
    let mut buf = Vec::<u8>::new();
    let program = "fn a:\ncall 2\nhalt\nfn b:\npush 11\ncall 0\nret\n";
    let r = interpret(&mut buf, program.to_string());
    assert!(r.is_ok());
    assert_eq!(buf, b"11\n");
}

#[test]
fn ret_in_entry_ends_run_successfully() {
    let mut buf = Vec::<u8>::new();
    let r = interpret(&mut buf, "push 1\nret\npush 2\ncall 0\nhalt\n".to_string());
    assert!(r.is_ok());
    assert_eq!(buf, b"");
}

#[test]
fn empty_program_finishes_silently() {
    let mut buf = Vec::<u8>::new();
    let r = interpret(&mut buf, String::new());
    assert!(r.is_ok());
    assert_eq!(buf, b"");

    let mut buf2 = Vec::<u8>::new();
    let r2 = interpret(&mut buf2, "\n\n   \n".to_string());
    assert!(r2.is_ok());
    assert_eq!(buf2, b"");
}

#[test]
fn whitespace_around_instructions_is_ignored() {
    let mut buf = Vec::<u8>::new();
    let r = interpret(&mut buf, "  push 3  \n\tcall   0\nhalt\n".to_string());
    assert!(r.is_ok());
    assert_eq!(buf, b"3\n");
}

#[test]
fn leading_zeros_in_literals() {
    let mut buf = Vec::<u8>::new();
    let r = interpret(&mut buf, "push 007\ncall 0\nhalt\n".to_string());
    assert!(r.is_ok());
    assert_eq!(buf, b"7\n");
}

#[test]
fn text_before_first_header_is_dropped() {
    let mut buf = Vec::<u8>::new();
    let program = "push 9\ncall 0\nfn main:\npush 1\ncall 0\nhalt\n";
    let r = interpret(&mut buf, program.to_string());
    assert!(r.is_ok());
    assert_eq!(buf, b"1\n");
}

#[test]
fn jumpif_negative_target_ends_body() {
    let mut buf = Vec::<u8>::new();
    let r = interpret(&mut buf, "push 6\ncall 0\npush 0\njumpif -1\npush 7\ncall 0\nhalt\n".to_string());
    assert!(r.is_ok());
    assert_eq!(buf, b"6\n");
}

#[test]
fn halt_three_levels_deep() {
    let mut buf = Vec::<u8>::new();
    let program = "fn main:\ncall 2\npush 1\ncall 0\nfn mid:\ncall 3\npush 2\ncall 0\nfn deep:\npush 3\ncall 0\nhalt\n";
    let r = interpret(&mut buf, program.to_string());
    assert!(r.is_ok());
    assert_eq!(buf, b"3\n");
}

#[test]
fn minus_zero_prints_zero() {
    let mut buf = Vec::<u8>::new();
    let r = interpret(&mut buf, "push -0\ncall 0\nhalt\n".to_string());
    assert!(r.is_ok());
    assert_eq!(buf, b"0\n");
}
