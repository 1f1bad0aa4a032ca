//! Nucleotide composition of FASTA records, and a cyclic cursor for paging
//! through a collection of them.

pub mod counter;
pub mod cursor;
pub mod display;
pub mod loader;
pub mod paths;
pub mod parser;
