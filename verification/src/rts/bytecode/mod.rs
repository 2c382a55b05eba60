//! The bytecode that typechecks and traverses facts: opcodes, frames,
//! system calls and the interpreter.
pub mod opcode;
pub mod frame;
pub mod syscall;
pub mod vm;
