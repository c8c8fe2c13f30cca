//! A toolchain for an assembly language targeting the Intcode virtual
//! machine: an assembler with span-carrying diagnostics, a resumable
//! interpreter, and a disassembler that recovers assembly from raw intcode.

pub mod assemble;
pub mod ast;
pub mod disassemble;
pub mod error;
pub mod fmt;
pub mod label_table;
pub mod lex;
pub mod parse;
pub mod run;
pub mod span;
pub mod text;
