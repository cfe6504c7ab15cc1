//! A small register machine: an assembler that turns line-oriented assembly
//! text into a binary image, and a virtual machine that runs such an image.

pub mod assembler;
pub mod codec;
pub mod laws;
pub mod lexer;
pub mod opcodes;
pub mod runtime;
pub mod runtime_error;
pub mod text;
