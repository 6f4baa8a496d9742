use vstd::prelude::*;
use vstd::string::StringExecFns;
use crate::text::{decimal, decimal_string, hex_digits, hex_string};

verus! {

pub const HASH_OFFSET: u64 = 14695981039346656037;

pub const HASH_PRIME: u64 = 1099511628211;

/// A 64-bit FNV-1a style hash of indices, one index per step.
pub open spec fn group_hash(s: Seq<usize>) -> u64
    decreases s.len(),
{
    if s.len() == 0 {
        HASH_OFFSET
    } else {
        (group_hash(s.drop_last()) ^ (s.last() as u64)).wrapping_mul(HASH_PRIME)
    }
}

pub fn hash_indices(s: &Vec<usize>) -> (r: u64)
    ensures
        r == group_hash(s@),
{
    let mut h: u64 = HASH_OFFSET;
    let mut i: usize = 0;
    while i < s.len()
        invariant
            i <= s@.len(),
            h == group_hash(s@.subrange(0, i as int)),
        decreases s@.len() - i,
    {
        proof {
            assert(s@.subrange(0, i + 1).drop_last() =~= s@.subrange(0, i as int));
        }
        h = (h ^ (s[i] as u64)).wrapping_mul(HASH_PRIME);
        i = i + 1;
    }
    assert(s@.subrange(0, s@.len() as int) =~= s@);
    h
}

pub open spec fn strictly_sorted(s: Seq<usize>) -> bool {
    forall|i: int, j: int| 0 <= i < j < s.len() ==> s[i] < s[j]
}

pub open spec fn distinct(s: Seq<usize>) -> bool {
    forall|i: int, j: int| 0 <= i < s.len() && 0 <= j < s.len() && i != j ==> s[i] != s[j]
}

/// Sorts distinct indices in increasing order.
pub fn sort_indices(v: &Vec<usize>) -> (r: Vec<usize>)
    requires
        distinct(v@),
    ensures
        strictly_sorted(r@),
        r@.len() == v@.len(),
        forall|x: usize| r@.contains(x) <==> v@.contains(x),
{
    let mut r: Vec<usize> = Vec::new();
    let mut i: usize = 0;
    while i < v.len()
        invariant
            i <= v@.len(),
            distinct(v@),
            r@.len() == i,
            strictly_sorted(r@),
            forall|x: usize| r@.contains(x) <==> v@.subrange(0, i as int).contains(x),
        decreases v@.len() - i,
    {
        let x = v[i];
        let mut p: usize = 0;
        while p < r.len() && r[p] < x
            invariant
                p <= r@.len(),
                strictly_sorted(r@),
                forall|j: int| 0 <= j < p ==> r@[j] < x,
            decreases r@.len() - p,
        {
            p = p + 1;
        }
        proof {
            assert(!r@.contains(x)) by {
                if r@.contains(x) {
                    let k = choose|k: int| 0 <= k < i && v@.subrange(0, i as int)[k] == x;
                    assert(v@[k] == v@[i as int]);
                }
            }
            if p < r@.len() {
                assert(r@[p as int] != x);
                assert(r@[p as int] > x);
            }
        }
        let ghost old_r = r@;
        r.insert(p, x);
        proof {
            assert(r@ == old_r.insert(p as int, x));
            assert forall|a: int, b: int| 0 <= a < b < r@.len() implies r@[a] < r@[b] by {
                if b < p {
                } else if b == p {
                } else if a < p {
                    assert(r@[b] == old_r[b - 1]);
                } else if a == p {
                    assert(r@[b] == old_r[b - 1]);
                    assert(old_r[p as int] > x);
                    if b - 1 > p {
                        assert(old_r[p as int] < old_r[b - 1]);
                    }
                } else {
                    assert(r@[a] == old_r[a - 1]);
                    assert(r@[b] == old_r[b - 1]);
                }
            }
            let pre = v@.subrange(0, i as int);
            let cur = v@.subrange(0, i + 1);
            assert(cur =~= pre.push(x));
            assert forall|y: usize| r@.contains(y) <==> cur.contains(y) by {
                if r@.contains(y) {
                    let k = choose|k: int| 0 <= k < r@.len() && r@[k] == y;
                    if k < p {
                        assert(old_r[k] == y);
                        assert(old_r.contains(y));
                    } else if k > p {
                        assert(old_r[k - 1] == y);
                        assert(old_r.contains(y));
                    }
                    if y != x {
                        let m = choose|m: int| 0 <= m < pre.len() && pre[m] == y;
                        assert(cur[m] == y);
                    } else {
                        assert(cur[i as int] == y);
                    }
                }
                if cur.contains(y) {
                    let m = choose|m: int| 0 <= m < cur.len() && cur[m] == y;
                    if m == i {
                        assert(r@[p as int] == y);
                    } else {
                        assert(pre[m] == y);
                        assert(old_r.contains(y));
                        let k = choose|k: int| 0 <= k < old_r.len() && old_r[k] == y;
                        if k < p {
                            assert(r@[k] == y);
                        } else {
                            assert(r@[k + 1] == y);
                        }
                    }
                }
            }
        }
        i = i + 1;
    }
    assert(v@.subrange(0, v@.len() as int) =~= v@);
    r
}

/// The indices written in decimal, separated by commas.
pub open spec fn index_list(s: Seq<usize>) -> Seq<char>
    decreases s.len(),
{
    if s.len() == 0 {
        Seq::empty()
    } else if s.len() == 1 {
        decimal(s[0] as nat)
    } else {
        index_list(s.drop_last()) + ","@ + decimal(s.last() as nat)
    }
}

/// The name of the consensus read of a group with the sorted indices `s`:
/// `consensus-<hash>`, and in the verbose form `:<count>:<i>,<j>,...` after.
pub open spec fn read_name_text(s: Seq<usize>, verbose: bool) -> Seq<char> {
    let short = "consensus-"@ + hex_digits(group_hash(s) as nat, 16);
    if verbose {
        short + ":"@ + decimal(s.len()) + ":"@ + index_list(s)
    } else {
        short
    }
}

/// Names the consensus read of a group by its sorted member indices.
pub fn read_name(s: &Vec<usize>, verbose: bool) -> (r: String)
    ensures
        r@ == read_name_text(s@, verbose),
{
    let mut name = String::new();
    name.append("consensus-");
    name.append(hex_string(hash_indices(s)).as_str());
    if verbose {
        name.append(":");
        name.append(decimal_string(s.len()).as_str());
        name.append(":");
        let ghost start = name@;
        let mut i: usize = 0;
        while i < s.len()
            invariant
                i <= s@.len(),
                name@ == start + index_list(s@.subrange(0, i as int)),
            decreases s@.len() - i,
        {
            let ghost pre = s@.subrange(0, i as int);
            let ghost cur = s@.subrange(0, i + 1);
            proof {
                assert(cur.drop_last() =~= pre);
            }
            if i > 0 {
                name.append(",");
            } else {
                assert(pre =~= Seq::<usize>::empty());
                assert(cur[0] == s@[0]);
            }
            name.append(decimal_string(s[i]).as_str());
            proof {
                assert(name@ =~= start + index_list(cur));
            }
            i = i + 1;
        }
        assert(s@.subrange(0, s@.len() as int) =~= s@);
    }
    proof {
        assert(name@ =~= read_name_text(s@, verbose));
    }
    name
}

} // verus!
