//! The consensus call of one column of aligned observations.
//!
//! Log-likelihoods are kept as integers in hundredths of a PHRED unit
//! (`1000 * log10`). An observation of base `b` at error probability `e`
//! contributes `log(1 - e)` to allele `b` and `log(e / 3)` to each other
//! allele; subtracting `log(e / 3)` from all four leaves the posterior as it
//! is, so each allele's score is the sum, over the observations showing it,
//! of `log(3 * (1 - e) / e)`. An `N` adds the same to every allele and so
//! nothing. Posteriors are normalised with a log-add table.

use vstd::prelude::*;
use crate::base::{allele_byte, allele_byte_of, allele_code, allele_code_of, phred_of, phred_weight, weight_of, lemma_weight_bounds, MAX_WEIGHT};

verus! {

/// Most observations that one column may hold; sums of weights stay far
/// inside `i64`.
pub const MAX_DEPTH: usize = 4294967295;

/// Summed evidence of a column's observations `(base, quality byte)` for
/// allele `a`.
pub open spec fn allele_score(obs: Seq<(u8, u8)>, a: int) -> int
    decreases obs.len(),
{
    if obs.len() == 0 {
        0
    } else {
        let last = obs.last();
        allele_score(obs.drop_last(), a) + if allele_code(last.0) == a {
            phred_weight(phred_of(last.1))
        } else {
            0
        }
    }
}

/// Whether some observation shows one of the four alleles.
pub open spec fn informative(obs: Seq<(u8, u8)>) -> bool
    decreases obs.len(),
{
    obs.len() > 0 && (informative(obs.drop_last()) || allele_code(obs.last().0) < 4)
}

pub open spec fn scores(obs: Seq<(u8, u8)>) -> Seq<int> {
    seq![allele_score(obs, 0), allele_score(obs, 1), allele_score(obs, 2), allele_score(obs, 3)]
}

/// The allele of highest score; ties go to the first in the order A, C, G, T.
pub open spec fn best_allele(s: Seq<int>) -> int {
    let b1 = if s[1] > s[0] { 1int } else { 0int };
    let b2 = if s[2] > s[b1] { 2int } else { b1 };
    if s[3] > s[b2] { 3int } else { b2 }
}

pub open spec fn max_int(x: int, y: int) -> int {
    if x >= y { x } else { y }
}

/// `1000 * log10(1 + 10^(-k/10))`, rounded: what adding a term `k` PHRED
/// units below another adds to it, in hundredths of a PHRED unit.
pub open spec fn log_add_step(k: int) -> int {
    if k <= 0 { 301 }
    else if k == 1 { 254 }
    else if k == 2 { 212 }
    else if k == 3 { 176 }
    else if k == 4 { 146 }
    else if k == 5 { 119 }
    else if k == 6 { 97 }
    else if k == 7 { 79 }
    else if k == 8 { 64 }
    else if k == 9 { 51 }
    else if k == 10 { 41 }
    else if k == 11 { 33 }
    else if k == 12 { 27 }
    else if k == 13 { 21 }
    else if k == 14 { 17 }
    else if k == 15 { 14 }
    else if k == 16 { 11 }
    else if k == 17 { 9 }
    else if k == 18 { 7 }
    else if k == 19 { 5 }
    else if k == 20 { 4 }
    else if k == 21 { 3 }
    else if k == 22 { 3 }
    else if k == 23 { 2 }
    else if k == 24 { 2 }
    else if k == 25 { 1 }
    else if k == 26 { 1 }
    else if k == 27 { 1 }
    else if k == 28 { 1 }
    else if k == 29 { 1 }
    else { 0 }
}

/// What `log_add(x, y)` adds to `max(x, y)` when `x` and `y` lie `d >= 0`
/// hundredths of a PHRED unit apart; linear between whole PHRED units.
pub open spec fn log_add_corr(d: int) -> int {
    if d >= 3000 {
        0
    } else {
        let k = d / 100;
        log_add_step(k) - (log_add_step(k) - log_add_step(k + 1)) * (d - 100 * k) / 100
    }
}

pub open spec fn abs_int(x: int) -> int {
    if x >= 0 { x } else { -x }
}

/// `10 * log10(10^(x/10) + 10^(y/10))` for log-likelihoods `x` and `y` in
/// hundredths of a PHRED unit.
pub open spec fn log_add(x: int, y: int) -> int {
    max_int(x, y) + log_add_corr(abs_int(x - y))
}

/// The summed likelihood of the alleles other than `b`, relative to that of
/// `b`, in hundredths of a PHRED unit.
pub open spec fn error_level(s: Seq<int>, b: int) -> int {
    let t = b;
    if t == 0 {
        log_add(log_add(s[1] - s[t], s[2] - s[t]), s[3] - s[t])
    } else if t == 1 {
        log_add(log_add(s[0] - s[t], s[2] - s[t]), s[3] - s[t])
    } else if t == 2 {
        log_add(log_add(s[0] - s[t], s[1] - s[t]), s[3] - s[t])
    } else {
        log_add(log_add(s[0] - s[t], s[1] - s[t]), s[2] - s[t])
    }
}

/// `-10 * log10(1 - p)` in hundredths of a PHRED unit, where the other
/// alleles stand at `o` against the called one: `1 - p = 10^(o/10) / (1 + 10^(o/10))`.
pub open spec fn posterior_quality(o: int) -> int {
    log_add(0, o) - o
}

/// A quality in hundredths of a PHRED unit, rounded to a PHRED score and
/// held to `2..=40`.
pub open spec fn clamped_quality(c: int) -> int {
    let q = (c + 50) / 100;
    if q < 2 {
        2
    } else if q > 40 {
        40
    } else {
        q
    }
}

/// The consensus of one column: base byte and quality byte (PHRED+33).
/// A column without any A, C, G or T gives `N` at quality 0.
pub open spec fn column_call(obs: Seq<(u8, u8)>) -> (u8, u8) {
    if !informative(obs) {
        (78u8, 33u8)
    } else {
        let s = scores(obs);
        let b = best_allele(s);
        (allele_byte(b), (clamped_quality(posterior_quality(error_level(s, b))) + 33) as u8)
    }
}

proof fn lemma_score_bounds(obs: Seq<(u8, u8)>, a: int)
    ensures
        -110 * obs.len() <= allele_score(obs, a) <= MAX_WEIGHT * obs.len(),
    decreases obs.len(),
{
    if obs.len() > 0 {
        lemma_score_bounds(obs.drop_last(), a);
        lemma_weight_bounds(phred_of(obs.last().1));
    }
}

/// Calls the consensus base and quality of one column.
pub fn call_column(obs: &Vec<(u8, u8)>) -> (r: (u8, u8))
    requires
        obs@.len() <= MAX_DEPTH,
    ensures
        r == column_call(obs@),
{
    let mut s0: i64 = 0;
    let mut s1: i64 = 0;
    let mut s2: i64 = 0;
    let mut s3: i64 = 0;
    let mut inf = false;
    let mut i: usize = 0;
    while i < obs.len()
        invariant
            i <= obs@.len() <= MAX_DEPTH,
            s0 == allele_score(obs@.subrange(0, i as int), 0),
            s1 == allele_score(obs@.subrange(0, i as int), 1),
            s2 == allele_score(obs@.subrange(0, i as int), 2),
            s3 == allele_score(obs@.subrange(0, i as int), 3),
            inf == informative(obs@.subrange(0, i as int)),
        decreases obs@.len() - i,
    {
        let ghost pre = obs@.subrange(0, i as int);
        let ghost cur = obs@.subrange(0, i + 1);
        proof {
            assert(cur.drop_last() =~= pre);
            lemma_score_bounds(pre, 0);
            lemma_score_bounds(pre, 1);
            lemma_score_bounds(pre, 2);
            lemma_score_bounds(pre, 3);
        }
        let (b, q) = obs[i];
        let c = allele_code_of(b);
        let w = weight_of(q);
        if c == 0 {
            s0 = s0 + w;
        } else if c == 1 {
            s1 = s1 + w;
        } else if c == 2 {
            s2 = s2 + w;
        } else if c == 3 {
            s3 = s3 + w;
        }
        if c < 4 {
            inf = true;
        }
        i = i + 1;
    }
    proof {
        assert(obs@.subrange(0, obs@.len() as int) =~= obs@);
        lemma_score_bounds(obs@, 0);
        lemma_score_bounds(obs@, 1);
        lemma_score_bounds(obs@, 2);
        lemma_score_bounds(obs@, 3);
    }
    if !inf {
        return (78, 33);
    }
    let mut b: u8 = 0;
    let mut sb: i64 = s0;
    if s1 > sb {
        b = 1;
        sb = s1;
    }
    if s2 > sb {
        b = 2;
        sb = s2;
    }
    if s3 > sb {
        b = 3;
        sb = s3;
    }
    let o: i64 = if b == 0 {
        log_add_of(log_add_of(s1 - sb, s2 - sb), s3 - sb)
    } else if b == 1 {
        log_add_of(log_add_of(s0 - sb, s2 - sb), s3 - sb)
    } else if b == 2 {
        log_add_of(log_add_of(s0 - sb, s1 - sb), s3 - sb)
    } else {
        log_add_of(log_add_of(s0 - sb, s1 - sb), s2 - sb)
    };
    let c: i64 = log_add_of(0, o) - o;
    let q: i64 = (c + 50) / 100;
    let qc: i64 = if q < 2 {
        2
    } else if q > 40 {
        40
    } else {
        q
    };
    (allele_byte_of(b), (qc + 33) as u8)
}

fn log_add_step_of(k: i64) -> (r: i64)
    requires
        0 <= k <= 30,
    ensures
        r == log_add_step(k as int),
{
    if k == 0 { 301 }
    else if k == 1 { 254 }
    else if k == 2 { 212 }
    else if k == 3 { 176 }
    else if k == 4 { 146 }
    else if k == 5 { 119 }
    else if k == 6 { 97 }
    else if k == 7 { 79 }
    else if k == 8 { 64 }
    else if k == 9 { 51 }
    else if k == 10 { 41 }
    else if k == 11 { 33 }
    else if k == 12 { 27 }
    else if k == 13 { 21 }
    else if k == 14 { 17 }
    else if k == 15 { 14 }
    else if k == 16 { 11 }
    else if k == 17 { 9 }
    else if k == 18 { 7 }
    else if k == 19 { 5 }
    else if k == 20 { 4 }
    else if k == 21 { 3 }
    else if k == 22 { 3 }
    else if k == 23 { 2 }
    else if k == 24 { 2 }
    else if k == 25 { 1 }
    else if k == 26 { 1 }
    else if k == 27 { 1 }
    else if k == 28 { 1 }
    else if k == 29 { 1 }
    else { 0 }
}

/// Bound on the log-likelihoods that the caller adds.
pub const LEVEL_BOUND: i64 = 1000000000000000000;

fn log_add_of(x: i64, y: i64) -> (r: i64)
    requires
        -LEVEL_BOUND <= x <= LEVEL_BOUND,
        -LEVEL_BOUND <= y <= LEVEL_BOUND,
    ensures
        r == log_add(x as int, y as int),
        max_int(x as int, y as int) <= r <= max_int(x as int, y as int) + 301,
{
    let m: i64 = if x >= y { x } else { y };
    let d: i64 = if x >= y { x - y } else { y - x };
    proof {
        lemma_corr_bounds(d as int);
    }
    if d >= 3000 {
        m
    } else {
        let k = d / 100;
        let a = log_add_step_of(k);
        let b = log_add_step_of(k + 1);
        m + (a - (a - b) * (d - 100 * k) / 100)
    }
}

proof fn lemma_corr_at_zero_and_one_sum()
    ensures
        log_add_corr(0) == 301,
        log_add_corr(301) == 176,
{
    assert(0int / 100 == 0);
    assert(log_add_step(0) == 301 && log_add_step(1) == 254);
    assert((301 - 254) * (0 - 100 * 0) / 100 == 0);
    assert(301int / 100 == 3);
    assert(log_add_step(3) == 176 && log_add_step(4) == 146);
    assert((176 - 146) * (301 - 100 * 3) / 100 == 0);
}

/// The correction lies in `0..=301`.
pub proof fn lemma_corr_bounds(d: int)
    requires
        d >= 0,
    ensures
        0 <= log_add_corr(d) <= 301,
{
    if d < 3000 {
        let k = d / 100;
        let a = log_add_step(k);
        let b = log_add_step(k + 1);
        assert(0 <= a - b <= 47 && 0 <= b && a <= 301);
        assert(0 <= (a - b) * (d - 100 * k) <= (a - b) * 100) by (nonlinear_arith)
            requires 0 <= a - b, 0 <= d - 100 * k < 100;
        assert(0 <= (a - b) * (d - 100 * k) / 100 <= a - b) by (nonlinear_arith)
            requires 0 <= (a - b) * (d - 100 * k) <= (a - b) * 100;
    }
}

/// One step further apart, the correction drops by at most one.
proof fn lemma_corr_step(d: int)
    requires
        d >= 0,
    ensures
        0 <= log_add_corr(d) - log_add_corr(d + 1) <= 1,
{
    if d + 1 < 3000 {
        let k = d / 100;
        let a = log_add_step(k);
        let b = log_add_step(k + 1);
        let t = d - 100 * k;
        assert(0 <= a - b <= 47);
        assert(0 <= t < 100);
        assert(log_add_corr(d) == a - (a - b) * t / 100);
        if t < 99 {
            assert((d + 1) / 100 == k);
            assert(log_add_corr(d + 1) == a - (a - b) * (t + 1) / 100);
            assert(0 <= (a - b) * (t + 1) / 100 - (a - b) * t / 100 <= 1) by (nonlinear_arith)
                requires 0 <= a - b <= 100, 0 <= t;
        } else {
            assert((d + 1) / 100 == k + 1);
            assert((d + 1) - 100 * (k + 1) == 0);
            let c = log_add_step(k + 2);
            assert((b - c) * 0 / 100 == 0);
            assert(log_add_corr(d + 1) == b);
            assert(0 <= (a - b) - (a - b) * 99 / 100 <= 1) by (nonlinear_arith)
                requires 0 <= a - b <= 100;
        }
    } else if d < 3000 {
        assert(d == 2999);
        assert(d / 100 == 29);
        assert(log_add_step(29) == 1 && log_add_step(30) == 0);
        assert((1 - 0) * (2999 - 100 * 29) / 100 == 0);
        assert(log_add_corr(d) == 1);
    }
}

/// The correction never grows with the distance, and never drops faster
/// than the distance grows.
pub proof fn lemma_corr_lipschitz(d1: int, d2: int)
    requires
        0 <= d1 <= d2,
    ensures
        0 <= log_add_corr(d1) - log_add_corr(d2) <= d2 - d1,
    decreases d2 - d1,
{
    if d1 < d2 {
        lemma_corr_lipschitz(d1, d2 - 1);
        lemma_corr_step(d2 - 1);
    }
}

/// The quality of a call never falls as the other alleles fall further
/// behind.
pub proof fn lemma_posterior_quality_monotone(o1: int, o2: int)
    requires
        o2 <= o1,
    ensures
        posterior_quality(o1) <= posterior_quality(o2),
        posterior_quality(o2) >= 0,
{
    if o1 >= 0 && o2 >= 0 {
        lemma_corr_lipschitz(o2, o1);
    } else if o1 <= 0 && o2 <= 0 {
        lemma_corr_lipschitz(-o1, -o2);
    } else {
        lemma_corr_lipschitz(0, o1);
        lemma_corr_lipschitz(0, -o2);
    }
    if o2 >= 0 {
        lemma_corr_bounds(o2);
    } else {
        lemma_corr_bounds(-o2);
    }
}

/// Every observation shows allele `a` at PHRED 2 or more.
pub open spec fn agrees_on(obs: Seq<(u8, u8)>, a: int) -> bool {
    forall|k: int| 0 <= k < obs.len() ==> allele_code(#[trigger] obs[k].0) == a && phred_of(obs[k].1) >= 2
}

proof fn lemma_agreeing_scores(obs: Seq<(u8, u8)>, a: int, c: int)
    requires
        0 <= a < 4,
        agrees_on(obs, a),
    ensures
        c != a ==> allele_score(obs, c) == 0,
        allele_score(obs, a) >= 0,
        obs.len() > 0 ==> allele_score(obs, a) > 0,
        informative(obs) == (obs.len() > 0),
    decreases obs.len(),
{
    if obs.len() > 0 {
        let pre = obs.drop_last();
        assert(agrees_on(pre, a)) by {
            assert forall|k: int| 0 <= k < pre.len() implies allele_code(#[trigger] pre[k].0) == a
                && phred_of(pre[k].1) >= 2 by {
                assert(pre[k] == obs[k]);
            }
        }
        lemma_agreeing_scores(pre, a, c);
        assert(allele_code(obs[obs.len() - 1].0) == a);
        lemma_weight_bounds(phred_of(obs.last().1));
    }
}

/// A column whose observations all show allele `a` (at PHRED 2 or more) is
/// called `a`, at the quality of its summed evidence.
pub proof fn lemma_agreeing_column(obs: Seq<(u8, u8)>, a: int)
    requires
        0 <= a < 4,
        obs.len() > 0,
        agrees_on(obs, a),
    ensures
        column_call(obs).0 == allele_byte(a),
        column_call(obs).1 == clamped_quality(posterior_quality(477 - allele_score(obs, a))) + 33,
        allele_score(obs, a) > 0,
{
    lemma_agreeing_scores(obs, a, 0);
    lemma_agreeing_scores(obs, a, 1);
    lemma_agreeing_scores(obs, a, 2);
    lemma_agreeing_scores(obs, a, 3);
    let s = scores(obs);
    assert(s[a] > 0);
    assert(best_allele(s) == a);
    let m = s[a];
    lemma_corr_at_zero_and_one_sum();
    assert(log_add(-m, -m) == -m + 301);
    assert(log_add(-m + 301, -m) == -m + 477);
    assert(error_level(s, a) == 477 - m);
}

/// Where all observations of a column agree on an allele, the call is that
/// allele, and one more agreeing observation never lowers its quality.
pub proof fn lemma_agreement_quality_grows(obs: Seq<(u8, u8)>, a: int, x: (u8, u8))
    requires
        0 <= a < 4,
        obs.len() > 0,
        agrees_on(obs, a),
        allele_code(x.0) == a,
        phred_of(x.1) >= 2,
    ensures
        column_call(obs).0 == allele_byte(a),
        column_call(obs.push(x)).0 == allele_byte(a),
        column_call(obs.push(x)).1 >= column_call(obs).1,
{
    let more = obs.push(x);
    assert(more.drop_last() =~= obs);
    assert(agrees_on(more, a)) by {
        assert forall|k: int| 0 <= k < more.len() implies allele_code(#[trigger] more[k].0) == a
            && phred_of(more[k].1) >= 2 by {
            if k < obs.len() {
                assert(more[k] == obs[k]);
            }
        }
    }
    lemma_agreeing_column(obs, a);
    lemma_agreeing_column(more, a);
    lemma_weight_bounds(phred_of(x.1));
    assert(more.last() == x);
    let s1 = allele_score(obs, a);
    let s2 = allele_score(more, a);
    assert(s2 == s1 + phred_weight(phred_of(x.1)));
    lemma_posterior_quality_monotone(477 - s1, 477 - s2);
    lemma_clamped_monotone(posterior_quality(477 - s1), posterior_quality(477 - s2));
}

proof fn lemma_clamped_monotone(c1: int, c2: int)
    requires
        c1 <= c2,
    ensures
        clamped_quality(c1) <= clamped_quality(c2),
{
    assert((c1 + 50) / 100 <= (c2 + 50) / 100) by (nonlinear_arith)
        requires c1 <= c2;
}

/// A single observation of an upper-case allele at PHRED `q` in `2..=41` is
/// kept, at a quality no lower than `q - 1`.
pub proof fn lemma_single_observation_kept(x: (u8, u8))
    requires
        x.0 == 65 || x.0 == 67 || x.0 == 71 || x.0 == 84,
        2 <= phred_of(x.1) <= 41,
    ensures
        column_call(seq![x]).0 == x.0,
        phred_of(column_call(seq![x]).1) >= phred_of(x.1) - 1,
{
    let obs = seq![x];
    let a = allele_code(x.0);
    assert(obs[0] == x);
    assert(obs.drop_last() =~= Seq::<(u8, u8)>::empty());
    lemma_agreeing_column(obs, a);
    lemma_weight_bounds(phred_of(x.1));
    assert(obs.last() == x);
    assert(allele_score(Seq::<(u8, u8)>::empty(), a) == 0);
    let q = phred_of(x.1);
    let w = phred_weight(q);
    assert(allele_score(obs, a) == w);
    let o = 477 - w;
    let c = posterior_quality(o);
    if q >= 8 {
        assert(w >= 100 * q + 327);
        lemma_corr_bounds(-o);
        assert(c >= -o);
    } else if q <= 4 {
        if o >= 0 {
            lemma_corr_lipschitz(0, o);
        } else {
            lemma_corr_lipschitz(0, -o);
        }
        lemma_corr_at_zero_and_one_sum();
        if q == 2 {
            assert(c >= 68);
        } else if q == 3 {
            assert(c >= 299);
        } else {
            assert(c >= 301);
        }
    } else if q == 5 {
        assert(o == -335);
        assert(335int / 100 == 3);
        assert((176 - 146) * (335 - 100 * 3) / 100 == 10);
        assert(c == 335 + 166);
    } else if q == 6 {
        assert(o == -474);
        assert(474int / 100 == 4);
        assert((146 - 119) * (474 - 100 * 4) / 100 == 19);
        assert(c == 474 + 127);
    } else {
        assert(o == -603);
        assert(603int / 100 == 6);
        assert((97 - 79) * (603 - 100 * 6) / 100 == 0);
        assert(c == 603 + 97);
    }
    assert((c + 50) / 100 >= q - 1);
}

} // verus!
