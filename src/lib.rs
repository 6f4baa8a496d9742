//! Collapsing of UMI-tagged PCR duplicates in paired-end reads into
//! consensus reads.
//!
//! The library holds the logic: base and quality arithmetic, the per-column
//! consensus caller, the overlap merger for read pairs whose inserts overlap,
//! the parsing of the sequence clusterer's answers, the grouping of reads, the
//! names of consensus reads and the checks on the configuration. Reading and
//! writing FASTQ, compression and running the clusterer happen outside.

pub mod base;
pub mod error;
pub mod caller;
pub mod consensus;
pub mod overlap;
pub mod group;
pub mod clusters;
pub mod text;
pub mod params;
pub mod naming;
pub mod pipeline;
pub mod grouping;
pub mod order;
