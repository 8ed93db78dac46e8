//! Fixed-length trigger extraction from genomic sequences and coverage
//! counting of those triggers across a library of sequences.

pub mod alphabet;
pub mod args;
pub mod coverage;
pub mod reader;
pub mod tally;
pub mod text;
pub mod windows;
