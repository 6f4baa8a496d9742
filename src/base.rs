use vstd::prelude::*;

verus! {

/// The four alleles A, C, G, T are coded 0..4; every other byte codes 4,
/// the ambiguous base.
pub open spec fn allele_code(b: u8) -> int {
    if b == 65 || b == 97 {
        0
    } else if b == 67 || b == 99 {
        1
    } else if b == 71 || b == 103 {
        2
    } else if b == 84 || b == 116 {
        3
    } else {
        4
    }
}

/// The upper-case byte of an allele code (`N` for the ambiguous base).
pub open spec fn allele_byte(a: int) -> u8 {
    if a == 0 {
        65u8
    } else if a == 1 {
        67u8
    } else if a == 2 {
        71u8
    } else if a == 3 {
        84u8
    } else {
        78u8
    }
}

/// A byte that may stand in a read: an allele or `N`, in either case.
pub open spec fn is_read_base(b: u8) -> bool {
    allele_code(b) < 4 || b == 78 || b == 110
}

/// The PHRED score of a quality byte (offset 33).
pub open spec fn phred_of(b: u8) -> int {
    if b >= 33 {
        b - 33
    } else {
        0
    }
}

/// Evidence that one observation of quality `q` gives to the allele it shows
/// over any other single allele, in hundredths of a PHRED unit:
/// `1000 * log10(3 * (1 - e) / e)` with `e = 10^(-q/10)`, rounded.
/// An observation of score 0 (error probability one) carries no evidence.
pub open spec fn phred_weight(q: int) -> int {
    if q <= 0 { 0 }
    else if q == 1 { -110 }
    else if q == 2 { 244 }
    else if q == 3 { 475 }
    else if q == 4 { 657 }
    else if q == 5 { 812 }
    else if q == 6 { 951 }
    else if q == 7 { 1080 }
    else if q == 8 { 1202 }
    else if q == 9 { 1319 }
    else if q == 10 { 1431 }
    else if q == 11 { 1541 }
    else if q == 12 { 1649 }
    else if q == 13 { 1755 }
    else if q == 14 { 1859 }
    else if q == 15 { 1963 }
    else if q == 16 { 2066 }
    else if q == 17 { 2168 }
    else if q == 18 { 2270 }
    else if q == 19 { 2372 }
    else if q == 20 { 2473 }
    else if q == 21 { 2574 }
    else if q == 22 { 2674 }
    else if q == 23 { 2775 }
    else if q == 24 { 2875 }
    else if q == 25 { 2976 }
    else if q == 26 { 3076 }
    else if q == 27 { 3176 }
    else if q == 28 { 3276 }
    else { 100 * q + 477 }
}

/// Largest weight of a quality byte.
pub const MAX_WEIGHT: i64 = 22677;

pub proof fn lemma_weight_bounds(q: int)
    requires
        0 <= q <= 222,
    ensures
        -110 <= phred_weight(q) <= MAX_WEIGHT,
        q >= 2 ==> phred_weight(q) >= 100 * q,
        q >= 2 ==> phred_weight(q) > 0,
        q >= 8 ==> phred_weight(q) >= 100 * q + 327,
{
}

pub fn allele_code_of(b: u8) -> (r: u8)
    ensures
        r as int == allele_code(b),
{
    if b == 65 || b == 97 {
        0
    } else if b == 67 || b == 99 {
        1
    } else if b == 71 || b == 103 {
        2
    } else if b == 84 || b == 116 {
        3
    } else {
        4
    }
}

pub fn allele_byte_of(a: u8) -> (r: u8)
    ensures
        r == allele_byte(a as int),
{
    if a == 0 {
        65
    } else if a == 1 {
        67
    } else if a == 2 {
        71
    } else if a == 3 {
        84
    } else {
        78
    }
}

pub fn weight_of(qb: u8) -> (w: i64)
    ensures
        w as int == phred_weight(phred_of(qb)),
        -110 <= w <= MAX_WEIGHT,
{
    let q: u8 = if qb >= 33 { qb - 33 } else { 0 };
    proof {
        lemma_weight_bounds(q as int);
    }
    if q == 0 { 0 }
    else if q == 1 { -110 }
    else if q == 2 { 244 }
    else if q == 3 { 475 }
    else if q == 4 { 657 }
    else if q == 5 { 812 }
    else if q == 6 { 951 }
    else if q == 7 { 1080 }
    else if q == 8 { 1202 }
    else if q == 9 { 1319 }
    else if q == 10 { 1431 }
    else if q == 11 { 1541 }
    else if q == 12 { 1649 }
    else if q == 13 { 1755 }
    else if q == 14 { 1859 }
    else if q == 15 { 1963 }
    else if q == 16 { 2066 }
    else if q == 17 { 2168 }
    else if q == 18 { 2270 }
    else if q == 19 { 2372 }
    else if q == 20 { 2473 }
    else if q == 21 { 2574 }
    else if q == 22 { 2674 }
    else if q == 23 { 2775 }
    else if q == 24 { 2875 }
    else if q == 25 { 2976 }
    else if q == 26 { 3076 }
    else if q == 27 { 3176 }
    else if q == 28 { 3276 }
    else { 100 * (q as i64) + 477 }
}

/// The IUPAC complement of a byte, case kept; any other byte stays as it is.
pub open spec fn dna_complement(b: u8) -> u8 {
    let up: Seq<u8> = seq![65u8, 71, 67, 84, 89, 82, 87, 83, 75, 77, 68, 86, 72, 66, 78];
    let co: Seq<u8> = seq![84u8, 67, 71, 65, 82, 89, 87, 83, 77, 75, 72, 66, 68, 86, 78];
    if exists|i: int| 0 <= i < 15 && up[i] == b {
        let i = choose|i: int| 0 <= i < 15 && up[i] == b;
        co[i]
    } else if exists|i: int| 0 <= i < 15 && up[i] + 32 == b {
        let i = choose|i: int| 0 <= i < 15 && up[i] + 32 == b;
        (co[i] + 32) as u8
    } else {
        b
    }
}

/// The reverse complement of a sequence.
pub open spec fn reverse_complement(s: Seq<u8>) -> Seq<u8> {
    Seq::new(s.len(), |i: int| dna_complement(s[s.len() - 1 - i]))
}

/// Relies on bio::alphabets::dna::revcomp: the bytes in reverse order, each
/// mapped by the IUPAC complement table (case kept, other bytes unchanged).
#[verifier::external_body]
pub(crate) fn revcomp(s: &Vec<u8>) -> (r: Vec<u8>)
    ensures
        r@ == reverse_complement(s@),
{
    bio::alphabets::dna::revcomp(s)
}

} // verus!
