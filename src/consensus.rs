use vstd::prelude::*;
use crate::base::{allele_byte, allele_code, phred_of};
use crate::caller::{agrees_on, call_column, column_call, lemma_agreeing_column, lemma_single_observation_kept, MAX_DEPTH};

verus! {

/// A read: its bases and its quality bytes (PHRED+33), of one length.
pub struct SeqRead {
    pub seq: Vec<u8>,
    pub qual: Vec<u8>,
}

impl SeqRead {
    pub open spec fn wf(&self) -> bool {
        self.seq@.len() == self.qual@.len()
    }
}

/// Bases and qualities of reads, as values.
pub open spec fn views(reads: Seq<SeqRead>) -> Seq<(Seq<u8>, Seq<u8>)> {
    Seq::new(reads.len(), |k: int| (reads[k].seq@, reads[k].qual@))
}

/// All reads have bases and qualities of length `len`.
pub open spec fn all_of_len(reads: Seq<(Seq<u8>, Seq<u8>)>, len: nat) -> bool {
    forall|k: int|
        0 <= k < reads.len() ==> (#[trigger] reads[k]).0.len() == len && reads[k].1.len() == len
}

/// Column `j` of reads laid over each other.
pub open spec fn column_of(reads: Seq<(Seq<u8>, Seq<u8>)>, j: int) -> Seq<(u8, u8)> {
    Seq::new(reads.len(), |k: int| (reads[k].0[j], reads[k].1[j]))
}

/// The bases of the calls over a pileup.
pub open spec fn pileup_bases(columns: Seq<Seq<(u8, u8)>>) -> Seq<u8> {
    Seq::new(columns.len(), |j: int| column_call(columns[j]).0)
}

/// The qualities of the calls over a pileup.
pub open spec fn pileup_quals(columns: Seq<Seq<(u8, u8)>>) -> Seq<u8> {
    Seq::new(columns.len(), |j: int| column_call(columns[j]).1)
}

/// The pileup of equal-length reads: one column per position.
pub open spec fn read_columns(reads: Seq<(Seq<u8>, Seq<u8>)>, len: nat) -> Seq<Seq<(u8, u8)>> {
    Seq::new(len, |j: int| column_of(reads, j))
}

pub open spec fn columns_fit(columns: Seq<Vec<(u8, u8)>>) -> bool {
    forall|j: int| 0 <= j < columns.len() ==> (#[trigger] columns[j])@.len() <= MAX_DEPTH
}

pub open spec fn column_views(columns: Seq<Vec<(u8, u8)>>) -> Seq<Seq<(u8, u8)>> {
    Seq::new(columns.len(), |j: int| columns[j]@)
}

/// Calls every column of a pileup.
pub fn call_pileup(columns: &Vec<Vec<(u8, u8)>>) -> (r: SeqRead)
    requires
        columns_fit(columns@),
    ensures
        r.seq@ == pileup_bases(column_views(columns@)),
        r.qual@ == pileup_quals(column_views(columns@)),
{
    let mut seq: Vec<u8> = Vec::new();
    let mut qual: Vec<u8> = Vec::new();
    let mut j: usize = 0;
    while j < columns.len()
        invariant
            j <= columns@.len(),
            columns_fit(columns@),
            seq@ =~= pileup_bases(column_views(columns@)).subrange(0, j as int),
            qual@ =~= pileup_quals(column_views(columns@)).subrange(0, j as int),
        decreases columns@.len() - j,
    {
        assert(columns@[j as int]@.len() <= MAX_DEPTH);
        let (b, q) = call_column(&columns[j]);
        seq.push(b);
        qual.push(q);
        j = j + 1;
    }
    SeqRead { seq, qual }
}

/// Lays equal-length reads over each other, one column per position.
pub fn read_pileup(reads: &Vec<SeqRead>, len: usize) -> (r: Vec<Vec<(u8, u8)>>)
    requires
        all_of_len(views(reads@), len as nat),
    ensures
        column_views(r@) == read_columns(views(reads@), len as nat),
        r@.len() == len,
        forall|j: int| 0 <= j < len ==> (#[trigger] r@[j])@.len() == reads@.len(),
{
    let ghost rv = views(reads@);
    let mut columns: Vec<Vec<(u8, u8)>> = Vec::new();
    let mut j: usize = 0;
    while j < len
        invariant
            j <= len,
            rv == views(reads@),
            all_of_len(rv, len as nat),
            columns@.len() == j,
            forall|c: int| 0 <= c < j ==> (#[trigger] columns@[c])@ == column_of(rv, c),
        decreases len - j,
    {
        let mut col: Vec<(u8, u8)> = Vec::new();
        let mut k: usize = 0;
        while k < reads.len()
            invariant
                j < len,
                k <= reads@.len(),
                rv == views(reads@),
                all_of_len(rv, len as nat),
                col@ =~= column_of(rv, j as int).subrange(0, k as int),
            decreases reads@.len() - k,
        {
            assert(rv[k as int].0.len() == len);
            col.push((reads[k].seq[j], reads[k].qual[j]));
            k = k + 1;
        }
        assert(col@ =~= column_of(rv, j as int));
        columns.push(col);
        j = j + 1;
    }
    assert(column_views(columns@) =~= read_columns(rv, len as nat));
    columns
}

/// The consensus of a group of equal-length reads: each position called on
/// the column of its bases and qualities.
pub fn consensus_read(reads: &Vec<SeqRead>, len: usize) -> (r: SeqRead)
    requires
        reads@.len() <= MAX_DEPTH,
        all_of_len(views(reads@), len as nat),
    ensures
        r.seq@ == pileup_bases(read_columns(views(reads@), len as nat)),
        r.qual@ == pileup_quals(read_columns(views(reads@), len as nat)),
        r.seq@.len() == len,
        r.qual@.len() == len,
{
    let columns = read_pileup(reads, len);
    call_pileup(&columns)
}

/// A sequence of upper-case A, C, G, T.
pub open spec fn is_upper_alleles(s: Seq<u8>) -> bool {
    forall|j: int|
        0 <= j < s.len() ==> (#[trigger] s[j] == 65 || s[j] == 67 || s[j] == 71 || s[j] == 84)
}

/// A group of one read of upper-case alleles at PHRED `2..=41` gives back
/// its bases, each at a quality no lower than the input's less one.
pub proof fn lemma_single_read_kept(read: (Seq<u8>, Seq<u8>))
    requires
        read.0.len() == read.1.len(),
        is_upper_alleles(read.0),
        forall|j: int| 0 <= j < read.1.len() ==> 2 <= phred_of(#[trigger] read.1[j]) <= 41,
    ensures
        pileup_bases(read_columns(seq![read], read.0.len())) == read.0,
        forall|j: int|
            0 <= j < read.0.len() ==> #[trigger] phred_of(
                pileup_quals(read_columns(seq![read], read.0.len()))[j],
            ) >= phred_of(read.1[j]) - 1,
{
    let cols = read_columns(seq![read], read.0.len());
    assert forall|j: int| 0 <= j < read.0.len() implies column_call(cols[j]).0 == read.0[j]
        && phred_of(column_call(cols[j]).1) >= phred_of(read.1[j]) - 1 by {
        assert(cols[j] =~= seq![(read.0[j], read.1[j])]);
        assert(is_upper_alleles(read.0));
        assert(read.0[j] == 65 || read.0[j] == 67 || read.0[j] == 71 || read.0[j] == 84);
        lemma_single_observation_kept((read.0[j], read.1[j]));
    }
    assert(pileup_bases(cols) =~= read.0);
}

/// All reads carry the bases `s`, at PHRED 2 or more.
pub open spec fn group_agrees(reads: Seq<(Seq<u8>, Seq<u8>)>, s: Seq<u8>) -> bool {
    &&& reads.len() > 0
    &&& all_of_len(reads, s.len())
    &&& forall|k: int| 0 <= k < reads.len() ==> (#[trigger] reads[k]).0 == s
    &&& forall|k: int, j: int|
        0 <= k < reads.len() && 0 <= j < s.len() ==> phred_of(#[trigger] reads[k].1[j]) >= 2
}

/// The consensus of a group that agrees on `s` is `s`, at qualities of
/// PHRED 2 or more; taken as a group of its own, it gives `s` once more.
pub proof fn lemma_agreeing_group_round_trip(reads: Seq<(Seq<u8>, Seq<u8>)>, s: Seq<u8>)
    requires
        group_agrees(reads, s),
        is_upper_alleles(s),
    ensures
        pileup_bases(read_columns(reads, s.len())) == s,
        group_agrees(
            seq![(pileup_bases(read_columns(reads, s.len())), pileup_quals(read_columns(reads, s.len())))],
            s,
        ),
        pileup_bases(
            read_columns(
                seq![(pileup_bases(read_columns(reads, s.len())), pileup_quals(read_columns(reads, s.len())))],
                s.len(),
            ),
        ) == s,
{
    lemma_agreeing_group_calls(reads, s);
    let c = (pileup_bases(read_columns(reads, s.len())), pileup_quals(read_columns(reads, s.len())));
    let again = seq![c];
    assert(again[0] == c);
    assert(again.len() == 1);
    assert(group_agrees(again, s));
    lemma_agreeing_group_calls(again, s);
}

proof fn lemma_agreeing_group_calls(reads: Seq<(Seq<u8>, Seq<u8>)>, s: Seq<u8>)
    requires
        group_agrees(reads, s),
        is_upper_alleles(s),
    ensures
        pileup_bases(read_columns(reads, s.len())) == s,
        pileup_quals(read_columns(reads, s.len())).len() == s.len(),
        forall|j: int|
            0 <= j < s.len() ==> phred_of(
                #[trigger] pileup_quals(read_columns(reads, s.len()))[j],
            ) >= 2,
{
    let cols = read_columns(reads, s.len());
    assert forall|j: int| 0 <= j < s.len() implies column_call(#[trigger] cols[j]).0 == s[j]
        && phred_of(column_call(cols[j]).1) >= 2 by {
        let col = cols[j];
        let a = allele_code(s[j]);
        assert(s[j] == 65 || s[j] == 67 || s[j] == 71 || s[j] == 84);
        assert(agrees_on(col, a)) by {
            assert forall|k: int| 0 <= k < col.len() implies allele_code(#[trigger] col[k].0) == a
                && phred_of(col[k].1) >= 2 by {
                assert(reads[k].0 == s);
            }
        }
        lemma_agreeing_column(col, a);
        assert(allele_byte(a) == s[j]);
    }
    assert(pileup_bases(cols) =~= s);
    assert forall|j: int| 0 <= j < s.len() implies phred_of(
        #[trigger] pileup_quals(cols)[j],
    ) >= 2 by {
        assert(pileup_quals(cols)[j] == column_call(cols[j]).1);
    }
}

} // verus!
