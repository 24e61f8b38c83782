//! An assembler for a fixed, opcode-addressed virtual machine: it turns a
//! textual assembly program into a linear, hex-encoded bytecode blob
//! through constant substitution, macro expansion, label resolution and a
//! byte-level instruction encoder.
pub mod ast;
pub mod codegen;
pub mod compiler;
pub mod fm;
pub mod instruction;
pub mod laws;
pub mod opcodes;
pub mod parser;
pub mod utils;
