use vstd::prelude::*;
use vstd::string::StringExecFns;
use crate::error::{ConfigIssue, ConsensusError};
use crate::text::{decimal, decimal_string};

verus! {

/// How read pairs are treated: apart, or merged where their inserts overlap.
#[derive(Debug, PartialEq, Eq, Structural)]
pub enum Mode {
    NonOverlap,
    Overlap { insert_size: usize, std_dev: usize },
}

/// The mode that insert size and standard deviation select: both give the
/// overlap mode, neither the plain one, one alone is rejected.
pub fn mode_of(insert_size: Option<usize>, std_dev: Option<usize>) -> (r: Result<Mode, ConsensusError>)
    ensures
        match (insert_size, std_dev) {
            (Some(i), Some(s)) => r == Ok::<Mode, ConsensusError>(Mode::Overlap { insert_size: i, std_dev: s }),
            (None, None) => r == Ok::<Mode, ConsensusError>(Mode::NonOverlap),
            _ => r matches Err(ConsensusError::Config { issue: ConfigIssue::IncompleteOverlapParams }),
        },
{
    match (insert_size, std_dev) {
        (Some(i), Some(s)) => Ok(Mode::Overlap { insert_size: i, std_dev: s }),
        (None, None) => Ok(Mode::NonOverlap),
        _ => Err(ConsensusError::Config { issue: ConfigIssue::IncompleteOverlapParams }),
    }
}

/// A path that names a gzip-compressed file: it ends in `.gz`.
pub open spec fn gz_path(p: Seq<u8>) -> bool {
    p.len() >= 3 && p[p.len() - 3] == 46 && p[p.len() - 2] == 103 && p[p.len() - 1] == 122
}

pub fn is_gz_path(p: &[u8]) -> (r: bool)
    ensures
        r == gz_path(p@),
{
    let n = p.len();
    n >= 3 && p[n - 3] == 46 && p[n - 2] == 103 && p[n - 1] == 122
}

/// Checks that the two inputs are both compressed or both plain, and so are
/// all outputs; gives whether inputs and outputs are compressed.
pub fn check_compression(in1: &[u8], in2: &[u8], outs: &Vec<Vec<u8>>) -> (r: Result<(bool, bool), ConsensusError>)
    requires
        outs@.len() >= 1,
    ensures
        match r {
            Ok((i, o)) => gz_path(in1@) == i && gz_path(in2@) == i && forall|k: int|
                0 <= k < outs@.len() ==> gz_path(#[trigger] outs@[k]@) == o,
            Err(e) => e == ConsensusError::Config { issue: ConfigIssue::MixedCompression } && (gz_path(in1@)
                != gz_path(in2@) || exists|k: int|
                0 <= k < outs@.len() && gz_path(#[trigger] outs@[k]@) != gz_path(outs@[0]@)),
        },
{
    let i = is_gz_path(in1);
    if i != is_gz_path(in2) {
        return Err(ConsensusError::Config { issue: ConfigIssue::MixedCompression });
    }
    let o = is_gz_path(outs[0].as_slice());
    let mut k: usize = 1;
    while k < outs.len()
        invariant
            1 <= k <= outs@.len(),
            o == gz_path(outs@[0]@),
            forall|j: int| 0 <= j < k ==> gz_path(#[trigger] outs@[j]@) == o,
        decreases outs@.len() - k,
    {
        if is_gz_path(outs[k].as_slice()) != o {
            return Err(ConsensusError::Config { issue: ConfigIssue::MixedCompression });
        }
        k = k + 1;
    }
    Ok((i, o))
}

/// The sentence on where the UMIs stand.
pub open spec fn umi_text(umi_len: usize, reverse_umi: bool) -> Seq<char> {
    "UMIs are the first "@ + decimal(umi_len as nat) + if reverse_umi {
        " characters of the reverse read."@
    } else {
        " characters of the forward read."@
    }
}

/// The sentence on the format of read names.
pub open spec fn names_text(verbose_read_names: bool) -> Seq<char> {
    if verbose_read_names {
        "Read names are written in verbose format."@
    } else {
        "Read names are written in short format."@
    }
}

/// The sentence on the mode.
pub open spec fn mode_text(insert_size: Option<usize>, std_dev: Option<usize>) -> Seq<char> {
    match (insert_size, std_dev) {
        (Some(i), Some(s)) => "Run in overlap mode with insert size "@ + decimal(i as nat)
            + " and std deviation "@ + decimal(s as nat) + "."@,
        (None, None) => "Run in normal mode without overlaps."@,
        _ => "Invalid mode."@,
    }
}

/// The account of a run's parameters attached to a failed pipeline.
pub open spec fn params_text(
    umi_len: usize,
    seq_dist: usize,
    umi_dist: usize,
    reverse_umi: bool,
    verbose_read_names: bool,
    insert_size: Option<usize>,
    std_dev: Option<usize>,
) -> Seq<char> {
    "Pipeline did not finish correctly. It was run with sequence distance "@ + decimal(
        seq_dist as nat,
    ) + " and UMI distance "@ + decimal(umi_dist as nat) + ".\n"@ + umi_text(umi_len, reverse_umi)
        + "\n"@ + names_text(verbose_read_names) + "\n"@ + mode_text(insert_size, std_dev)
}

/// Writes the parameters of a run, for the error of a failed pipeline.
pub fn format_pipeline_params(
    umi_len: usize,
    seq_dist: usize,
    umi_dist: usize,
    reverse_umi: bool,
    verbose_read_names: bool,
    insert_size: Option<usize>,
    std_dev: Option<usize>,
) -> (r: String)
    ensures
        r@ == params_text(
            umi_len,
            seq_dist,
            umi_dist,
            reverse_umi,
            verbose_read_names,
            insert_size,
            std_dev,
        ),
{
    let mut s = String::new();
    s.append("Pipeline did not finish correctly. It was run with sequence distance ");
    s.append(decimal_string(seq_dist).as_str());
    s.append(" and UMI distance ");
    s.append(decimal_string(umi_dist).as_str());
    s.append(".\n");
    s.append("UMIs are the first ");
    s.append(decimal_string(umi_len).as_str());
    if reverse_umi {
        s.append(" characters of the reverse read.");
    } else {
        s.append(" characters of the forward read.");
    }
    s.append("\n");
    if verbose_read_names {
        s.append("Read names are written in verbose format.");
    } else {
        s.append("Read names are written in short format.");
    }
    s.append("\n");
    match (insert_size, std_dev) {
        (Some(i), Some(d)) => {
            s.append("Run in overlap mode with insert size ");
            s.append(decimal_string(i).as_str());
            s.append(" and std deviation ");
            s.append(decimal_string(d).as_str());
            s.append(".");
        },
        (None, None) => {
            s.append("Run in normal mode without overlaps.");
        },
        _ => {
            s.append("Invalid mode.");
        },
    }
    proof {
        assert(s@ =~= params_text(
            umi_len,
            seq_dist,
            umi_dist,
            reverse_umi,
            verbose_read_names,
            insert_size,
            std_dev,
        ));
    }
    s
}

} // verus!
