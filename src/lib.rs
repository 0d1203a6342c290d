//! The stack-overflow auxiliary trace column of a STARK virtual machine, over the prime field
//! of order 2^64 - 2^32 + 1, and the parsing of the machine's input and output files.
pub mod field;
pub mod stack;
pub mod laws;
pub mod text;
pub mod data;
