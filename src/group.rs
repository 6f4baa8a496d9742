use vstd::prelude::*;
use crate::base::{reverse_complement, revcomp};

use crate::consensus::{all_of_len, call_pileup, consensus_read, pileup_bases, pileup_quals, read_columns, views, SeqRead};
use crate::overlap::{choose_overlap, chosen_overlap, flip_reads, flipped_all, merged_columns, merged_pileup, MAX_GROUP};

verus! {

/// What one duplicate group of read pairs gives: a consensus for each mate,
/// or a single consensus of the merged pair.
pub enum PairCall {
    Mates(SeqRead, SeqRead),
    Merged(SeqRead),
}

/// Read pairs of a duplicate group: as many forward as reverse mates, at
/// least one, all of length `len`.
pub open spec fn pair_group(fs: Seq<SeqRead>, rs: Seq<SeqRead>, len: nat) -> bool {
    &&& 1 <= fs.len() == rs.len() <= MAX_GROUP
    &&& all_of_len(views(fs), len)
    &&& all_of_len(views(rs), len)
}

/// `m` is the consensus of the mates `fs` (or `rs`) taken apart.
pub open spec fn is_mate_consensus(m: SeqRead, reads: Seq<(Seq<u8>, Seq<u8>)>, len: nat) -> bool {
    &&& m.seq@ == pileup_bases(read_columns(reads, len))
    &&& m.qual@ == pileup_quals(read_columns(reads, len))
}

/// Consensus of each mate of a group whose pairs do not overlap.
pub fn call_non_overlapping(fs: &Vec<SeqRead>, rs: &Vec<SeqRead>, len: usize) -> (r: (SeqRead, SeqRead))
    requires
        pair_group(fs@, rs@, len as nat),
    ensures
        is_mate_consensus(r.0, views(fs@), len as nat),
        is_mate_consensus(r.1, views(rs@), len as nat),
        r.0.seq@.len() == len && r.1.seq@.len() == len,
{
    (consensus_read(fs, len), consensus_read(rs, len))
}

/// The overlap at which the pairs of a group merge: decided on its first
/// pair.
pub open spec fn group_overlap(
    fs: Seq<(Seq<u8>, Seq<u8>)>,
    rs: Seq<(Seq<u8>, Seq<u8>)>,
    insert_size: int,
    std_dev: int,
) -> Option<int> {
    chosen_overlap(fs[0].0, reverse_complement(rs[0].0), insert_size, std_dev)
}

/// What a group of overlapping pairs gives: merged at the chosen overlap
/// `o` into a read of `2 * len - o` bases, or else each mate's consensus.
pub open spec fn overlap_call_ok(
    r: PairCall,
    fs: Seq<(Seq<u8>, Seq<u8>)>,
    rs: Seq<(Seq<u8>, Seq<u8>)>,
    len: nat,
    insert_size: int,
    std_dev: int,
) -> bool {
    match group_overlap(fs, rs, insert_size, std_dev) {
        Some(o) => match r {
            PairCall::Merged(m) => {
                &&& m.seq@ == pileup_bases(merged_columns(fs, flipped_all(rs), len as int, o))
                &&& m.qual@ == pileup_quals(merged_columns(fs, flipped_all(rs), len as int, o))
                &&& m.seq@.len() == 2 * len - o
            },
            PairCall::Mates(_, _) => false,
        },
        None => match r {
            PairCall::Mates(a, b) => is_mate_consensus(a, fs, len) && is_mate_consensus(b, rs, len),
            PairCall::Merged(_) => false,
        },
    }
}

/// Consensus of a group of pairs whose inserts may overlap.
pub fn call_overlapping(
    fs: &Vec<SeqRead>,
    rs: &Vec<SeqRead>,
    len: usize,
    insert_size: usize,
    std_dev: usize,
) -> (r: PairCall)
    requires
        pair_group(fs@, rs@, len as nat),
        2 * len <= usize::MAX,
    ensures
        overlap_call_ok(r, views(fs@), views(rs@), len as nat, insert_size as int, std_dev as int),
{
    let rc = revcomp(&rs[0].seq);
    proof {
        assert(views(fs@)[0].0.len() == len);
        assert(views(rs@)[0].0.len() == len);
    }
    match choose_overlap(&fs[0].seq, &rc, insert_size, std_dev) {
        Some(o) => {
            let flipped = flip_reads(rs);
            proof {
                assert(all_of_len(views(flipped@), len as nat)) by {
                    assert forall|k: int| 0 <= k < views(flipped@).len() implies (
                    #[trigger] views(flipped@)[k]).0.len() == len && views(flipped@)[k].1.len() == len by {
                        assert(views(rs@)[k].0.len() == len);
                    }
                }
            }
            let columns = merged_pileup(fs, &flipped, len, o);
            let m = call_pileup(&columns);
            PairCall::Merged(m)
        },
        None => PairCall::Mates(consensus_read(fs, len), consensus_read(rs, len)),
    }
}

} // verus!
