//! Bytecode format of a small stack machine over secret-shared values: the
//! instruction set, the function and program containers, the value container,
//! and their binary encoding, with the round-trip laws between them.

pub mod bytecode;
pub mod error;
pub mod values;
pub mod varint;

pub use bytecode::{Function, FunctionSignature, Operation, Program};
pub use error::DecodeError;
pub use values::Values;
