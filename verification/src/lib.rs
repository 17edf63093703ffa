//! A single-pass expression compiler and a stack-based bytecode virtual
//! machine: source text is scanned, parsed with an operator-precedence
//! parser straight into bytecode, and executed by a fetch-decode-execute
//! loop over NaN-boxed 64-bit values.

pub mod value;
pub mod numeric;
pub mod chunk;
pub mod model;
pub mod vm;
pub mod scanner;
pub mod compiler;
pub mod debug;
