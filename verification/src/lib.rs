//! A tiny stack-oriented virtual machine.
//!
//! Programs are newline-separated instruction lines (`push`, `pop`, `add`,
//! `sub`, `mul`, `set`, `get`, `jump`, `jumpif`, `call`, `ret`, `halt`),
//! optionally divided into functions by `fn <name>:` header lines.  The
//! machine keeps an operand stack of 32-bit signed integers, a flat variable
//! store shared by all calls, and an explicit stack of call frames.  Output
//! produced by the built-in print function is collected into a byte buffer.

pub mod instr;
pub mod laws;
pub mod loader;
pub mod machine;
pub mod num;
pub mod store;
pub mod text;
pub mod vm;

pub use instr::VmErr;
pub use vm::interpret;
