use vstd::prelude::*;
use crate::base::{reverse_complement, revcomp};

use crate::consensus::{all_of_len, column_of, column_views, columns_fit, views, SeqRead};

verus! {

/// Most read pairs in one group: each overlap column holds two observations
/// of every pair.
pub const MAX_GROUP: usize = 2147483647;

pub open spec fn min_int(x: int, y: int) -> int {
    if x <= y { x } else { y }
}

pub open spec fn max_int(x: int, y: int) -> int {
    if x >= y { x } else { y }
}

pub open spec fn abs_int(x: int) -> int {
    if x >= 0 { x } else { -x }
}

/// Expected overlap of two mates of length `len` around an insert of size
/// `insert_size`.
pub open spec fn overlap_center(len: int, insert_size: int) -> int {
    2 * len - insert_size
}

/// Smallest overlap searched: three standard deviations below the expected
/// one, and at least 1.
pub open spec fn window_lo(len: int, insert_size: int, std_dev: int) -> int {
    max_int(1, overlap_center(len, insert_size) - 3 * std_dev)
}

/// Largest overlap searched: three standard deviations above the expected
/// one, and at most the read length.
pub open spec fn window_hi(len: int, insert_size: int, std_dev: int) -> int {
    min_int(len, overlap_center(len, insert_size) + 3 * std_dev)
}

/// Positions `j < n` where `f[start + j]` equals `g[j]`.
pub open spec fn count_equal(f: Seq<u8>, g: Seq<u8>, start: int, n: int) -> int
    decreases n,
{
    if n <= 0 {
        0
    } else {
        count_equal(f, g, start, n - 1) + if f[start + n - 1] == g[n - 1] { 1int } else { 0int }
    }
}

/// Matches between the last `o` bases of the forward read `f` and the first
/// `o` bases of the reverse-complemented reverse read `rc`.
pub open spec fn overlap_matches(f: Seq<u8>, rc: Seq<u8>, o: int) -> int {
    count_equal(f, rc, f.len() - o, o)
}

/// Overlap `o` beats overlap `b`: more matches, or as many and closer to the
/// expected overlap `c`.
pub open spec fn improves(f: Seq<u8>, rc: Seq<u8>, o: int, b: int, c: int) -> bool {
    overlap_matches(f, rc, o) > overlap_matches(f, rc, b) || (overlap_matches(f, rc, o)
        == overlap_matches(f, rc, b) && abs_int(o - c) < abs_int(b - c))
}

/// The best overlap in `lo..=hi`; of equals, the smallest.
pub open spec fn best_overlap(f: Seq<u8>, rc: Seq<u8>, lo: int, hi: int, c: int) -> int
    decreases hi - lo,
{
    if hi <= lo {
        lo
    } else {
        let b = best_overlap(f, rc, lo, hi - 1, c);
        if improves(f, rc, hi, b, c) {
            hi
        } else {
            b
        }
    }
}

/// An overlap is accepted where at least nine in ten of its bases match.
pub open spec fn accepted(matches: int, o: int) -> bool {
    10 * matches >= 9 * o
}

/// The overlap at which two mates of length `len` are merged, if any.
pub open spec fn chosen_overlap(f: Seq<u8>, rc: Seq<u8>, insert_size: int, std_dev: int) -> Option<int> {
    let len = f.len() as int;
    let lo = window_lo(len, insert_size, std_dev);
    let hi = window_hi(len, insert_size, std_dev);
    if lo > hi {
        None
    } else {
        let o = best_overlap(f, rc, lo, hi, overlap_center(len, insert_size));
        if accepted(overlap_matches(f, rc, o), o) {
            Some(o)
        } else {
            None
        }
    }
}

pub open spec fn opt_int(o: Option<usize>) -> Option<int> {
    match o {
        Some(v) => Some(v as int),
        None => None,
    }
}

proof fn lemma_count_bounds(f: Seq<u8>, g: Seq<u8>, start: int, n: int)
    ensures
        0 <= count_equal(f, g, start, n) <= if n >= 0 { n } else { 0 },
    decreases n,
{
    if n > 0 {
        lemma_count_bounds(f, g, start, n - 1);
    }
}

proof fn lemma_best_in_window(f: Seq<u8>, rc: Seq<u8>, lo: int, hi: int, c: int)
    requires
        lo <= hi,
    ensures
        lo <= best_overlap(f, rc, lo, hi, c) <= hi,
    decreases hi - lo,
{
    if hi > lo {
        lemma_best_in_window(f, rc, lo, hi - 1, c);
    }
}

/// Counts the matches of overlap `o`.
fn count_matches(f: &Vec<u8>, rc: &Vec<u8>, o: usize) -> (r: usize)
    requires
        f@.len() == rc@.len(),
        o <= f@.len(),
    ensures
        r as int == overlap_matches(f@, rc@, o as int),
        r <= o,
{
    let flen = f.len();
    let start = flen - o;
    let mut n: usize = 0;
    let mut j: usize = 0;
    while j < o
        invariant
            j <= o <= f@.len() == rc@.len(),
            start + o == flen,
            flen == f@.len(),
            n as int == count_equal(f@, rc@, start as int, j as int),
            n <= j,
        decreases o - j,
    {
        if f[start + j] == rc[j] {
            n = n + 1;
        }
        j = j + 1;
    }
    n
}

/// Picks the overlap at which the forward read `f` and the
/// reverse-complemented reverse read `rc` are merged: the best-matching
/// length in the window around the expected overlap, if enough of it
/// matches.
pub fn choose_overlap(f: &Vec<u8>, rc: &Vec<u8>, insert_size: usize, std_dev: usize) -> (r: Option<usize>)
    requires
        f@.len() == rc@.len(),
    ensures
        opt_int(r) == chosen_overlap(f@, rc@, insert_size as int, std_dev as int),
        r matches Some(o) ==> 1 <= o <= f@.len(),
{
    let len = f.len();
    let center: i128 = 2 * (len as i128) - (insert_size as i128);
    let low: i128 = center - 3 * (std_dev as i128);
    let high: i128 = center + 3 * (std_dev as i128);
    let lo: i128 = if low < 1 { 1 } else { low };
    let hi: i128 = if high > len as i128 { len as i128 } else { high };
    if lo > hi {
        return None;
    }
    let lo = lo as usize;
    let hi = hi as usize;
    let ghost c = overlap_center(len as int, insert_size as int);
    let mut best: usize = lo;
    let mut best_m: usize = count_matches(f, rc, lo);
    let mut best_d: i128 = if (lo as i128) >= center { lo as i128 - center } else { center - lo as i128 };
    let mut o: usize = lo;
    while o < hi
        invariant
            1 <= lo <= o <= hi <= len == f@.len() == rc@.len(),
            c == center,
            center == 2 * (len as int) - insert_size as int,
            best == best_overlap(f@, rc@, lo as int, o as int, c),
            lo <= best <= o,
            best_m as int == overlap_matches(f@, rc@, best as int),
            best_d == abs_int(best - c),
        decreases hi - o,
    {
        o = o + 1;
        let m = count_matches(f, rc, o);
        let d: i128 = if (o as i128) >= center { o as i128 - center } else { center - o as i128 };
        if m > best_m || (m == best_m && d < best_d) {
            best = o;
            best_m = m;
            best_d = d;
        }
    }
    if 10 * (best_m as u128) >= 9 * (best as u128) {
        Some(best)
    } else {
        None
    }
}

/// A reverse mate turned onto the forward strand: bases reverse-complemented,
/// qualities reversed.
pub open spec fn flipped(r: (Seq<u8>, Seq<u8>)) -> (Seq<u8>, Seq<u8>) {
    (reverse_complement(r.0), Seq::new(r.1.len(), |i: int| r.1[r.1.len() - 1 - i]))
}

pub open spec fn flipped_all(reads: Seq<(Seq<u8>, Seq<u8>)>) -> Seq<(Seq<u8>, Seq<u8>)> {
    Seq::new(reads.len(), |k: int| flipped(reads[k]))
}

/// Turns reverse mates onto the forward strand.
pub fn flip_reads(reads: &Vec<SeqRead>) -> (r: Vec<SeqRead>)
    ensures
        views(r@) == flipped_all(views(reads@)),
        r@.len() == reads@.len(),
{
    let mut out: Vec<SeqRead> = Vec::new();
    let mut k: usize = 0;
    while k < reads.len()
        invariant
            k <= reads@.len(),
            out@.len() == k,
            views(out@) =~= flipped_all(views(reads@)).subrange(0, k as int),
        decreases reads@.len() - k,
    {
        let read = &reads[k];
        let seq = revcomp(&read.seq);
        let n = read.qual.len();
        let mut qual: Vec<u8> = Vec::new();
        let mut i: usize = 0;
        while i < n
            invariant
                i <= n == read.qual@.len(),
                qual@ =~= flipped((read.seq@, read.qual@)).1.subrange(0, i as int),
            decreases n - i,
        {
            qual.push(read.qual[n - 1 - i]);
            i = i + 1;
        }
        proof {
            assert(views(reads@)[k as int] == (read.seq@, read.qual@));
            assert(qual@ =~= flipped((read.seq@, read.qual@)).1);
        }
        let ghost prev = views(out@);
        out.push(SeqRead { seq, qual });
        proof {
            assert(views(out@) =~= prev.push(flipped(views(reads@)[k as int])));
        }
        k = k + 1;
    }
    out
}

/// Column `j` of a merged pair pileup: the forward observations where the
/// forward mates reach, then the flipped reverse ones where they reach.
pub open spec fn merged_column(
    fs: Seq<(Seq<u8>, Seq<u8>)>,
    rs: Seq<(Seq<u8>, Seq<u8>)>,
    len: int,
    o: int,
    j: int,
) -> Seq<(u8, u8)> {
    (if j < len { column_of(fs, j) } else { Seq::empty() }) + (if j >= len - o {
        column_of(rs, j - (len - o))
    } else {
        Seq::empty()
    })
}

/// The pileup of forward mates and flipped reverse mates of length `len`
/// that overlap by `o`: `2 * len - o` columns.
pub open spec fn merged_columns(
    fs: Seq<(Seq<u8>, Seq<u8>)>,
    rs: Seq<(Seq<u8>, Seq<u8>)>,
    len: int,
    o: int,
) -> Seq<Seq<(u8, u8)>> {
    Seq::new((2 * len - o) as nat, |j: int| merged_column(fs, rs, len, o, j))
}

/// Lays forward mates and flipped reverse mates over each other.
pub fn merged_pileup(fs: &Vec<SeqRead>, rs: &Vec<SeqRead>, len: usize, o: usize) -> (r: Vec<Vec<(u8, u8)>>)
    requires
        1 <= o <= len,
        2 * len <= usize::MAX,
        fs@.len() == rs@.len() <= MAX_GROUP,
        all_of_len(views(fs@), len as nat),
        all_of_len(views(rs@), len as nat),
    ensures
        column_views(r@) == merged_columns(views(fs@), views(rs@), len as int, o as int),
        columns_fit(r@),
{
    let ghost fv = views(fs@);
    let ghost rv = views(rs@);
    let total: usize = len + (len - o);
    let shift: usize = len - o;
    let mut columns: Vec<Vec<(u8, u8)>> = Vec::new();
    let mut j: usize = 0;
    while j < total
        invariant
            j <= total == 2 * len - o,
            shift == len - o,
            1 <= o <= len,
            fv == views(fs@),
            rv == views(rs@),
            fs@.len() == rs@.len() <= MAX_GROUP,
            all_of_len(fv, len as nat),
            all_of_len(rv, len as nat),
            columns@.len() == j,
            forall|c: int| 0 <= c < j ==> (#[trigger] columns@[c])@ == merged_column(fv, rv, len as int, o as int, c),
            columns_fit(columns@),
        decreases total - j,
    {
        let mut col: Vec<(u8, u8)> = Vec::new();
        let ghost first: Seq<(u8, u8)> = if j < len { column_of(fv, j as int) } else { Seq::empty() };
        if j < len {
            let mut k: usize = 0;
            while k < fs.len()
                invariant
                    j < len,
                    k <= fs@.len(),
                    fv == views(fs@),
                    all_of_len(fv, len as nat),
                    col@ =~= column_of(fv, j as int).subrange(0, k as int),
                decreases fs@.len() - k,
            {
                assert(fv[k as int].0.len() == len);
                col.push((fs[k].seq[j], fs[k].qual[j]));
                k = k + 1;
            }
            assert(col@ =~= first);
        } else {
            assert(col@ =~= first);
        }
        if j >= shift {
            let i = j - shift;
            let mut k: usize = 0;
            while k < rs.len()
                invariant
                    i < len,
                    i == j - shift,
                    k <= rs@.len(),
                    rv == views(rs@),
                    all_of_len(rv, len as nat),
                    col@ =~= first + column_of(rv, i as int).subrange(0, k as int),
                decreases rs@.len() - k,
            {
                assert(rv[k as int].0.len() == len);
                col.push((rs[k].seq[i], rs[k].qual[i]));
                k = k + 1;
            }
        }
        assert(col@ =~= merged_column(fv, rv, len as int, o as int, j as int));
        columns.push(col);
        j = j + 1;
    }
    assert(column_views(columns@) =~= merged_columns(fv, rv, len as int, o as int));
    columns
}

} // verus!
