//! An assembler for a 16-bit machine with address-load and compute
//! instructions: source text in, one 16-character line of bits per
//! instruction out.
pub mod assembler;
pub mod code;
pub mod error;
pub mod parser;
pub mod symbol_table;
pub mod text;
pub mod theorems;
