use vstd::prelude::*;

verus! {

/// What is wrong with the clusterer's answer.
#[derive(Debug, PartialEq, Eq, Structural)]
pub enum ProtocolIssue {
    /// Line `line` (from 0) is not `representative<TAB>size<TAB>i,j,...`.
    MalformedLine { line: usize },
    /// An input index is reported twice.
    DuplicateIndex { index: usize },
    /// An input index is in no cluster.
    MissingIndex { index: usize },
}

/// What is wrong with the configuration.
#[derive(Debug, PartialEq, Eq, Structural)]
pub enum ConfigIssue {
    /// Inputs or outputs mix gzip-compressed and plain paths.
    MixedCompression,
    /// Only one of insert size and standard deviation was given.
    IncompleteOverlapParams,
    /// A read holds a byte outside A, C, G, T, N (either case).
    UnknownBase { index: usize, base: u8 },
    /// A read holds a quality byte below 33.
    BadQuality { index: usize, byte: u8 },
}

/// The errors of the consensus pipeline.
#[derive(Debug)]
pub enum ConsensusError {
    /// An input could not be opened or parsed.
    Reader { filename: String },
    /// An output could not be created or written.
    Writer { filename: String },
    /// Record `index` breaks the equal-length precondition.
    LengthMismatch { index: usize },
    /// The clusterer could not be started.
    ClustererSpawn,
    /// Talking to the clusterer failed.
    ClustererIo,
    /// The clusterer's answer breaks its protocol.
    ClustererProtocol { issue: ProtocolIssue },
    /// The clusterer exited with a code other than zero.
    ClustererExit { code: i32, stderr: Vec<u8> },
    /// The configuration or the input is not acceptable.
    Config { issue: ConfigIssue },
    /// An error at the top of the pipeline, with the parameters of the run.
    Pipeline { params: String, cause: Box<ConsensusError> },
}

} // verus!
