//! An assembler and virtual machine for a small 16-bit-addressable
//! instruction set.
//!
//! Source bytes flow through the lexer into tokens, through the parser
//! into a relocatable [`program::Program`], through the linker into a flat
//! list of code sections, and into the machine in [`vm`], whose only
//! output channel is a one-byte printer port.  The [`srec`] module holds
//! the checksummed text container that stores compiled images.

pub mod compiler;
pub mod lexer;
pub mod linker;
pub mod parser;
pub mod opcode;
pub mod program;
pub mod srec;
pub mod token;
pub mod util;
pub mod vm;
