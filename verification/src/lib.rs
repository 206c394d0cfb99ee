//! Assembly statistics for genomic sequences: base composition and GC content,
//! gap regions, contig and scaffold lengths, and the N50 family of statistics.
//!
//! Every function here is pure. Contracts are stated over the letters of a
//! sequence as a `Seq<char>`.

pub mod letters;
pub mod numerals;
pub mod runs;
pub mod gap_statistics;
pub mod n50_statistics;
pub mod base_statistics;
pub mod file_writer;
pub mod file_reader;
