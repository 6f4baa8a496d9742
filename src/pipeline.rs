use vstd::prelude::*;
use crate::base::is_read_base;
use crate::consensus::{all_of_len, views, SeqRead};
use crate::error::{ConfigIssue, ConsensusError};
use crate::group::{call_non_overlapping, call_overlapping, is_mate_consensus, overlap_call_ok, PairCall};
use crate::naming::{distinct, read_name, read_name_text, sort_indices, strictly_sorted};
use crate::overlap::MAX_GROUP;
use crate::params::Mode;
use crate::grouping::compose;

verus! {

/// Bases that may stand in a read, each with a quality byte of at least 33.
pub open spec fn clean_read(r: (Seq<u8>, Seq<u8>)) -> bool {
    &&& r.0.len() == r.1.len()
    &&& forall|j: int| 0 <= j < r.0.len() ==> is_read_base(#[trigger] r.0[j])
    &&& forall|j: int| 0 <= j < r.1.len() ==> #[trigger] r.1[j] >= 33
}

/// A pair as values: forward mate, reverse mate.
pub open spec fn pair_view(p: (SeqRead, SeqRead)) -> ((Seq<u8>, Seq<u8>), (Seq<u8>, Seq<u8>)) {
    ((p.0.seq@, p.0.qual@), (p.1.seq@, p.1.qual@))
}

/// The mate that carries the UMI.
pub open spec fn umi_mate(p: ((Seq<u8>, Seq<u8>), (Seq<u8>, Seq<u8>)), reverse_umi: bool) -> (Seq<u8>, Seq<u8>) {
    if reverse_umi { p.1 } else { p.0 }
}

pub open spec fn strip(r: (Seq<u8>, Seq<u8>), umi_len: int) -> (Seq<u8>, Seq<u8>) {
    (r.0.subrange(umi_len, r.0.len() as int), r.1.subrange(umi_len, r.1.len() as int))
}

/// A pair with the UMI taken off its mate: UMI, forward mate, reverse mate.
pub open spec fn stripped(
    p: ((Seq<u8>, Seq<u8>), (Seq<u8>, Seq<u8>)),
    umi_len: int,
    reverse_umi: bool,
) -> (Seq<u8>, (Seq<u8>, Seq<u8>), (Seq<u8>, Seq<u8>)) {
    let m = umi_mate(p, reverse_umi);
    (
        m.0.subrange(0, umi_len),
        if reverse_umi { p.0 } else { strip(p.0, umi_len) },
        if reverse_umi { strip(p.1, umi_len) } else { p.1 },
    )
}

/// The pair's mates have bases and qualities of one length each, its UMI mate
/// holds a UMI, and the mates left after taking it off have length `len`.
pub open spec fn pair_fits(p: ((Seq<u8>, Seq<u8>), (Seq<u8>, Seq<u8>)), umi_len: int, reverse_umi: bool, len: int) -> bool {
    &&& p.0.0.len() == p.0.1.len()
    &&& p.1.0.len() == p.1.1.len()
    &&& umi_mate(p, reverse_umi).0.len() >= umi_len
    &&& stripped(p, umi_len, reverse_umi).1.0.len() == len
    &&& stripped(p, umi_len, reverse_umi).2.0.len() == len
}

/// The pair is well formed and holds only accepted bases and qualities.
pub open spec fn pair_ok(p: ((Seq<u8>, Seq<u8>), (Seq<u8>, Seq<u8>)), umi_len: int, reverse_umi: bool, len: int) -> bool {
    pair_fits(p, umi_len, reverse_umi, len) && clean_read(p.0) && clean_read(p.1)
}

/// The read length of a run: that of the first pair's forward mate without
/// UMI.
pub open spec fn run_len(p: ((Seq<u8>, Seq<u8>), (Seq<u8>, Seq<u8>)), umi_len: int, reverse_umi: bool) -> int {
    stripped(p, umi_len, reverse_umi).1.0.len() as int
}

/// The record table of a run: for each index its UMI and its mates without
/// UMI, all of one length.
pub struct PairTable {
    pub umis: Vec<Vec<u8>>,
    pub fwds: Vec<SeqRead>,
    pub revs: Vec<SeqRead>,
    pub len: usize,
}

impl PairTable {
    pub open spec fn wf(&self) -> bool {
        &&& self.umis@.len() == self.fwds@.len() == self.revs@.len()
        &&& all_of_len(views(self.fwds@), self.len as nat)
        &&& all_of_len(views(self.revs@), self.len as nat)
    }

    pub open spec fn size(&self) -> nat {
        self.fwds@.len()
    }
}

/// Copies `v[from..to]`.
pub fn copy_range(v: &Vec<u8>, from: usize, to: usize) -> (r: Vec<u8>)
    requires
        from <= to <= v@.len(),
    ensures
        r@ == v@.subrange(from as int, to as int),
{
    let mut r: Vec<u8> = Vec::new();
    let mut i: usize = from;
    while i < to
        invariant
            from <= i <= to <= v@.len(),
            r@ == v@.subrange(from as int, i as int),
        decreases to - i,
    {
        r.push(v[i]);
        proof {
            assert(r@ =~= v@.subrange(from as int, i + 1));
        }
        i = i + 1;
    }
    r
}

fn copy_read(r: &SeqRead, from: usize) -> (c: SeqRead)
    requires
        from <= r.seq@.len(),
        from <= r.qual@.len(),
    ensures
        c.seq@ == r.seq@.subrange(from as int, r.seq@.len() as int),
        c.qual@ == r.qual@.subrange(from as int, r.qual@.len() as int),
{
    SeqRead { seq: copy_range(&r.seq, from, r.seq.len()), qual: copy_range(&r.qual, from, r.qual.len()) }
}

/// Whether a read holds only accepted bases and quality bytes; the first
/// offending byte otherwise.
fn check_read(r: &SeqRead, index: usize) -> (e: Option<ConsensusError>)
    requires
        r.seq@.len() == r.qual@.len(),
    ensures
        e is None <==> clean_read((r.seq@, r.qual@)),
        e matches Some(x) ==> x is Config,
{
    let mut j: usize = 0;
    while j < r.seq.len()
        invariant
            j <= r.seq@.len() == r.qual@.len(),
            forall|k: int| 0 <= k < j ==> is_read_base(#[trigger] r.seq@[k]),
            forall|k: int| 0 <= k < j ==> #[trigger] r.qual@[k] >= 33,
        decreases r.seq@.len() - j,
    {
        let b = r.seq[j];
        if !(b == 65 || b == 97 || b == 67 || b == 99 || b == 71 || b == 103 || b == 84 || b == 116
            || b == 78 || b == 110) {
            return Some(ConsensusError::Config { issue: ConfigIssue::UnknownBase { index, base: b } });
        }
        if r.qual[j] < 33 {
            return Some(ConsensusError::Config { issue: ConfigIssue::BadQuality { index, byte: r.qual[j] } });
        }
        j = j + 1;
    }
    None
}

/// Builds the record table from the read pairs: takes the first `umi_len`
/// bases off the mate that carries the UMI, and checks that every pair is
/// well formed, of the run's read length, and of accepted bases.
pub fn prepare_records(pairs: &Vec<(SeqRead, SeqRead)>, umi_len: usize, reverse_umi: bool) -> (r: Result<PairTable, ConsensusError>)
    ensures
        match r {
            Ok(t) => {
                &&& t.wf()
                &&& t.size() == pairs@.len()
                &&& pairs@.len() > 0 ==> t.len == run_len(pair_view(pairs@[0]), umi_len as int, reverse_umi)
                &&& forall|i: int| 0 <= i < pairs@.len() ==> pair_ok(#[trigger] pair_view(pairs@[i]), umi_len as int, reverse_umi, t.len as int)
                &&& forall|i: int| 0 <= i < pairs@.len() ==> (t.umis@[i]@, views(t.fwds@)[i], views(t.revs@)[i])
                    == stripped(#[trigger] pair_view(pairs@[i]), umi_len as int, reverse_umi)
            },
            Err(e) => {
                &&& e is LengthMismatch || e is Config
                &&& pairs@.len() > 0
                &&& exists|i: int| 0 <= i < pairs@.len() && !pair_ok(#[trigger] pair_view(pairs@[i]), umi_len as int, reverse_umi,
                        run_len(pair_view(pairs@[0]), umi_len as int, reverse_umi))
            },
        },
{
    let mut t = PairTable { umis: Vec::new(), fwds: Vec::new(), revs: Vec::new(), len: 0 };
    let mut i: usize = 0;
    while i < pairs.len()
        invariant
            i <= pairs@.len(),
            t.wf(),
            t.size() == i,
            i > 0 ==> t.len == run_len(pair_view(pairs@[0]), umi_len as int, reverse_umi),
            forall|k: int| 0 <= k < i ==> pair_ok(#[trigger] pair_view(pairs@[k]), umi_len as int, reverse_umi, t.len as int),
            forall|k: int| 0 <= k < i ==> (t.umis@[k]@, views(t.fwds@)[k], views(t.revs@)[k])
                == stripped(#[trigger] pair_view(pairs@[k]), umi_len as int, reverse_umi),
        decreases pairs@.len() - i,
    {
        let (f, rv) = (&pairs[i].0, &pairs[i].1);
        let ghost pv = pair_view(pairs@[i as int]);
        if f.seq.len() != f.qual.len() || rv.seq.len() != rv.qual.len() {
            return Err(ConsensusError::LengthMismatch { index: i });
        }
        let m = if reverse_umi { rv } else { f };
        if m.seq.len() < umi_len {
            return Err(ConsensusError::LengthMismatch { index: i });
        }
        let umi = copy_range(&m.seq, 0, umi_len);
        let fwd = if reverse_umi { copy_read(f, 0) } else { copy_read(f, umi_len) };
        let rev = if reverse_umi { copy_read(rv, umi_len) } else { copy_read(rv, 0) };
        proof {
            assert(f.seq@.subrange(0, f.seq@.len() as int) =~= f.seq@);
            assert(f.qual@.subrange(0, f.qual@.len() as int) =~= f.qual@);
            assert(rv.seq@.subrange(0, rv.seq@.len() as int) =~= rv.seq@);
            assert(rv.qual@.subrange(0, rv.qual@.len() as int) =~= rv.qual@);
        }
        let len = if i == 0 { fwd.seq.len() } else { t.len };
        if fwd.seq.len() != len || rev.seq.len() != len {
            return Err(ConsensusError::LengthMismatch { index: i });
        }
        match check_read(f, i) {
            Some(e) => {
                return Err(e);
            },
            None => {},
        }
        match check_read(rv, i) {
            Some(e) => {
                return Err(e);
            },
            None => {},
        }
        let ghost fv0 = views(t.fwds@);
        let ghost rv0 = views(t.revs@);
        t.len = len;
        t.umis.push(umi);
        t.fwds.push(fwd);
        t.revs.push(rev);
        proof {
            assert(views(t.fwds@) =~= fv0.push((t.fwds@[i as int].seq@, t.fwds@[i as int].qual@)));
            assert(views(t.revs@) =~= rv0.push((t.revs@[i as int].seq@, t.revs@[i as int].qual@)));
        }
        i = i + 1;
    }
    Ok(t)
}

/// The UMIs of all records, in index order.
pub fn umi_probes(t: &PairTable) -> (r: Vec<Vec<u8>>)
    ensures
        r@.len() == t.umis@.len(),
        forall|i: int| 0 <= i < r@.len() ==> (#[trigger] r@[i])@ == t.umis@[i]@,
{
    let mut r: Vec<Vec<u8>> = Vec::new();
    let mut i: usize = 0;
    while i < t.umis.len()
        invariant
            i <= t.umis@.len(),
            r@.len() == i,
            forall|k: int| 0 <= k < i ==> (#[trigger] r@[k])@ == t.umis@[k]@,
        decreases t.umis@.len() - i,
    {
        r.push(copy_range(&t.umis[i], 0, t.umis[i].len()));
        proof {
            assert(t.umis@[i as int]@.subrange(0, t.umis@[i as int]@.len() as int) =~= t.umis@[i as int]@);
        }
        i = i + 1;
    }
    r
}

/// The probe of record `i`: its forward mate's bases, then its reverse
/// mate's.
pub open spec fn probe(t: PairTable, i: int) -> Seq<u8> {
    t.fwds@[i].seq@ + t.revs@[i].seq@
}

pub open spec fn indices_below(s: Seq<usize>, n: nat) -> bool {
    forall|k: int| 0 <= k < s.len() ==> #[trigger] s[k] < n
}

/// The probes of the given records, in the given order.
pub fn seq_probes(t: &PairTable, members: &Vec<usize>) -> (r: Vec<Vec<u8>>)
    requires
        t.wf(),
        indices_below(members@, t.size()),
    ensures
        r@.len() == members@.len(),
        forall|k: int| 0 <= k < r@.len() ==> (#[trigger] r@[k])@ == probe(*t, members@[k] as int),
{
    let mut r: Vec<Vec<u8>> = Vec::new();
    let mut k: usize = 0;
    while k < members.len()
        invariant
            t.wf(),
            indices_below(members@, t.size()),
            k <= members@.len(),
            r@.len() == k,
            forall|j: int| 0 <= j < k ==> (#[trigger] r@[j])@ == probe(*t, members@[j] as int),
        decreases members@.len() - k,
    {
        let i = members[k];
        assert(i < t.size());
        let f = &t.fwds[i].seq;
        let mut p = copy_range(f, 0, f.len());
        let rv = &t.revs[i].seq;
        let mut j: usize = 0;
        let ghost start = p@;
        while j < rv.len()
            invariant
                j <= rv@.len(),
                p@ == start + rv@.subrange(0, j as int),
            decreases rv@.len() - j,
        {
            p.push(rv[j]);
            j = j + 1;
        }
        proof {
            assert(f@.subrange(0, f@.len() as int) =~= f@);
            assert(rv@.subrange(0, rv@.len() as int) =~= rv@);
        }
        r.push(p);
        k = k + 1;
    }
    r
}

/// Maps indices into `outer` to the indices that `outer` holds there.
pub fn compose_members(outer: &Vec<usize>, local: &Vec<usize>) -> (r: Vec<usize>)
    requires
        indices_below(local@, outer@.len()),
    ensures
        r@ == compose(outer@, local@),
{
    let mut r: Vec<usize> = Vec::new();
    let mut k: usize = 0;
    while k < local.len()
        invariant
            indices_below(local@, outer@.len()),
            k <= local@.len(),
            r@ =~= Seq::new(k as nat, |j: int| outer@[local@[j] as int]),
        decreases local@.len() - k,
    {
        assert(local@[k as int] < outer@.len());
        r.push(outer[local[k]]);
        k = k + 1;
    }
    r
}

/// The reads at the given indices, in that order.
pub open spec fn picked(reads: Seq<(Seq<u8>, Seq<u8>)>, members: Seq<usize>) -> Seq<(Seq<u8>, Seq<u8>)> {
    Seq::new(members.len(), |k: int| reads[members[k] as int])
}

fn gather(reads: &Vec<SeqRead>, members: &Vec<usize>) -> (r: Vec<SeqRead>)
    requires
        indices_below(members@, reads@.len()),
    ensures
        r@.len() == members@.len(),
        views(r@) == picked(views(reads@), members@),
{
    let mut r: Vec<SeqRead> = Vec::new();
    let mut k: usize = 0;
    while k < members.len()
        invariant
            indices_below(members@, reads@.len()),
            k <= members@.len(),
            r@.len() == k,
            views(r@) =~= picked(views(reads@), members@).subrange(0, k as int),
        decreases members@.len() - k,
    {
        let i = members[k];
        assert(i < reads@.len());
        let src = &reads[i];
        let c = SeqRead { seq: copy_range(&src.seq, 0, src.seq.len()), qual: copy_range(&src.qual, 0, src.qual.len()) };
        proof {
            assert(src.seq@.subrange(0, src.seq@.len() as int) =~= src.seq@);
            assert(src.qual@.subrange(0, src.qual@.len() as int) =~= src.qual@);
        }
        r.push(c);
        k = k + 1;
    }
    r
}

/// The consensus of one duplicate group, named after its members.
pub struct GroupOutput {
    pub id: String,
    pub call: PairCall,
}

/// `s` holds the same indices as `members`, in increasing order.
pub open spec fn sorted_members(s: Seq<usize>, members: Seq<usize>) -> bool {
    strictly_sorted(s) && s.len() == members.len() && forall|x: usize| s.contains(x) <==> members.contains(x)
}

/// Calls the consensus of the duplicate group `members` of the record table:
/// each mate apart, or merged in overlap mode where the first pair's mates
/// overlap well enough. The name comes from the sorted member indices.
pub fn call_group(t: &PairTable, members: &Vec<usize>, mode: &Mode, verbose: bool) -> (r: GroupOutput)
    requires
        t.wf(),
        1 <= members@.len() <= MAX_GROUP,
        distinct(members@),
        indices_below(members@, t.size()),
        2 * t.len <= usize::MAX,
    ensures
        group_output_ok(r, *t, members@, *mode, verbose),
{
    let sorted = sort_indices(members);
    let id = read_name(&sorted, verbose);
    let fs = gather(&t.fwds, members);
    let rs = gather(&t.revs, members);
    proof {
        assert(sorted_members(sorted@, members@));
        assert forall|k: int| 0 <= k < views(fs@).len() implies (#[trigger] views(fs@)[k]).0.len() == t.len
            && views(fs@)[k].1.len() == t.len by {
            assert(views(fs@)[k] == views(t.fwds@)[members@[k] as int]);
        }
        assert forall|k: int| 0 <= k < views(rs@).len() implies (#[trigger] views(rs@)[k]).0.len() == t.len
            && views(rs@)[k].1.len() == t.len by {
            assert(views(rs@)[k] == views(t.revs@)[members@[k] as int]);
        }
    }
    let call = match mode {
        Mode::NonOverlap => {
            let (a, b) = call_non_overlapping(&fs, &rs, t.len);
            PairCall::Mates(a, b)
        },
        Mode::Overlap { insert_size, std_dev } => call_overlapping(&fs, &rs, t.len, *insert_size, *std_dev),
    };
    GroupOutput { id, call }
}

/// What the consensus of group `members` is: its name from the sorted
/// members, and its reads as the mode has them.
pub open spec fn group_output_ok(r: GroupOutput, t: PairTable, members: Seq<usize>, mode: Mode, verbose: bool) -> bool {
    &&& exists|s: Seq<usize>| sorted_members(s, members) && r.id@ == read_name_text(s, verbose)
    &&& match mode {
            Mode::NonOverlap => match r.call {
                PairCall::Mates(a, b) => is_mate_consensus(a, picked(views(t.fwds@), members), t.len as nat)
                    && is_mate_consensus(b, picked(views(t.revs@), members), t.len as nat),
                PairCall::Merged(_) => false,
            },
            Mode::Overlap { insert_size, std_dev } => overlap_call_ok(
                r.call,
                picked(views(t.fwds@), members),
                picked(views(t.revs@), members),
                t.len as nat,
                insert_size as int,
                std_dev as int,
            ),
        }
}

/// The bases and qualities of a group's reads: both mates', or the merged
/// read's.
pub open spec fn call_bytes(c: PairCall) -> Seq<Seq<u8>> {
    match c {
        PairCall::Mates(a, b) => seq![a.seq@, a.qual@, b.seq@, b.qual@],
        PairCall::Merged(m) => seq![m.seq@, m.qual@],
    }
}

proof fn lemma_sorted_unique(s1: Seq<usize>, s2: Seq<usize>, i: int)
    requires
        strictly_sorted(s1),
        strictly_sorted(s2),
        s1.len() == s2.len(),
        forall|x: usize| s1.contains(x) <==> s2.contains(x),
        0 <= i <= s1.len(),
    ensures
        forall|k: int| 0 <= k < i ==> s1[k] == s2[k],
    decreases i,
{
    if i > 0 {
        lemma_sorted_unique(s1, s2, i - 1);
        let k = i - 1;
        if s1[k] < s2[k] {
            assert(s1.contains(s1[k]));
            let j = choose|j: int| 0 <= j < s2.len() && s2[j] == s1[k];
            if j >= k {
                if j > k {
                    assert(s2[k] < s2[j]);
                }
            } else {
                assert(s1[j] == s2[j]);
                assert(s1[j] < s1[k]);
            }
        } else if s2[k] < s1[k] {
            assert(s2.contains(s2[k]));
            let j = choose|j: int| 0 <= j < s1.len() && s1[j] == s2[k];
            if j >= k {
                if j > k {
                    assert(s1[k] < s1[j]);
                }
            } else {
                assert(s1[j] == s2[j]);
                assert(s2[j] < s2[k]);
            }
        }
    }
}

/// The consensus of a group is determined by the record table, the members,
/// the mode and the naming: two calls on the same inputs give the same name
/// and the same bytes.
pub proof fn lemma_group_output_determined(
    r1: GroupOutput,
    r2: GroupOutput,
    t: PairTable,
    members: Seq<usize>,
    mode: Mode,
    verbose: bool,
)
    requires
        group_output_ok(r1, t, members, mode, verbose),
        group_output_ok(r2, t, members, mode, verbose),
    ensures
        r1.id@ == r2.id@,
        call_bytes(r1.call) == call_bytes(r2.call),
{
    let s1 = choose|s: Seq<usize>| sorted_members(s, members) && r1.id@ == read_name_text(s, verbose);
    let s2 = choose|s: Seq<usize>| sorted_members(s, members) && r2.id@ == read_name_text(s, verbose);
    lemma_sorted_unique(s1, s2, s1.len() as int);
    assert(s1 =~= s2);
}

} // verus!
