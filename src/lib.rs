//! A small 16-bit instruction set: an assembler from text to bytecode, a
//! decoder from bytecode to instructions, and a machine that runs them.

/// The instructions and their bytecode.
pub mod instructions;
/// Reading one instruction from bytecode.
pub mod decoder;
/// Splitting source text into statements of words.
pub mod lexer;
/// Two-pass assembly of source text into bytecode.
pub mod assembler;
/// The register file.
pub mod cpu;
/// The machine's memory.
pub mod memory;
/// A grayscale image buffer.
pub mod graphics;
/// The machine and the effect of each instruction on it.
pub mod vm;
/// The text of numbers, registers and instructions, and what the assembler
/// reads from it.
pub mod text;
/// Where jumps to labels lead in assembled code.
pub mod labels;
