//! A small toolchain for a 32-bit register machine: an assembler that turns
//! assembly text into a fixed binary encoding, and a virtual machine that
//! executes that encoding.
//!
//! Source text flows through the [`lexer`], the [`parser`] and the
//! [`compiler`] to bytecode ([`assembler::assemble`] does all three), and
//! bytecode runs on the [`machine`] ([`machine::run`]). Both sides share the
//! instruction set of [`isa`], its [`encoding`] and its [`decoding`].
//!
//! A program that counts in `r1` from 0 to 10:
//!
//! ```text
//!         addi r0, 0, r1
//!         addi r0, 10, r2
//!         addi r0, 1, r3
//!         addi r2, 0, r4
//! loop:   add r3, r1
//!         sub r3, r4
//!         bge r4, r3, loop
//!         halt
//! ```

pub mod assembler;
pub mod compiler;
pub mod decoding;
pub mod encoding;
pub mod isa;
pub mod lexer;
pub mod machine;
pub mod parser;
