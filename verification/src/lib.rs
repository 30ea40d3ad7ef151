//! Verified tools for sequencing data.
//!
//! The first tool filters a stream of paired alignment records that is
//! grouped by read name: `assembler` holds the state machine that pairs
//! the records up, `filter` the tests that a pair has to pass, `record`
//! the fields that are read of a record, `reader` the arguments for the
//! viewer that prints the stream, and `stream_laws` what holds of every
//! run. The second tool takes the statistics of an assembly: `bases`
//! counts symbols and gap-free segments of a sequence, `fasta` collects
//! them over the sequences of a file, and `nx` finds the Nx breakpoints
//! of a population of lengths, which `sorting` arranges. `text` holds
//! what both share.

pub mod assembler;
pub mod bases;
pub mod fasta;
pub mod filter;
pub mod nx;
pub mod reader;
pub mod record;
pub mod sorting;
pub mod stream_laws;
pub mod text;
