//! Reads FASTA sequence records and encodes them as a linear GFA graph:
//! one segment per record, a path through all of them in input order, and a
//! link between each pair of neighbours.
pub mod cli;
pub mod fasta;
pub mod gfa;
pub mod laws;

pub use cli::{parse, Args, ArgsError};
pub use fasta::{fasta_from_lines, FastaSequence};
pub use gfa::{gfa_document, gfa_lines_of};
