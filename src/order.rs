use vstd::prelude::*;
use crate::clusters::{covers_once, holds, Cluster};

verus! {

/// Lexicographic order on byte strings; a proper prefix comes first.
pub open spec fn lex_lt(a: Seq<u8>, b: Seq<u8>) -> bool
    decreases a.len(),
{
    if a.len() == 0 {
        b.len() > 0
    } else if b.len() == 0 {
        false
    } else if a[0] != b[0] {
        a[0] < b[0]
    } else {
        lex_lt(a.drop_first(), b.drop_first())
    }
}

proof fn lemma_lex_transitive(a: Seq<u8>, b: Seq<u8>, c: Seq<u8>)
    requires
        lex_lt(a, b),
        lex_lt(b, c),
    ensures
        lex_lt(a, c),
    decreases a.len(),
{
    if a.len() > 0 && b.len() > 0 && c.len() > 0 && a[0] == b[0] && b[0] == c[0] {
        lemma_lex_transitive(a.drop_first(), b.drop_first(), c.drop_first());
    }
}

proof fn lemma_lex_irreflexive(a: Seq<u8>)
    ensures
        !lex_lt(a, a),
    decreases a.len(),
{
    if a.len() > 0 {
        lemma_lex_irreflexive(a.drop_first());
    }
}

/// Compares two byte strings lexicographically.
pub fn bytes_lt(a: &Vec<u8>, b: &Vec<u8>) -> (r: bool)
    ensures
        r == lex_lt(a@, b@),
{
    let mut i: usize = 0;
    proof {
        assert(a@.subrange(0, a@.len() as int) =~= a@);
        assert(b@.subrange(0, b@.len() as int) =~= b@);
    }
    while i < a.len() && i < b.len() && a[i] == b[i]
        invariant
            i <= a@.len(),
            i <= b@.len(),
            lex_lt(a@, b@) == lex_lt(a@.subrange(i as int, a@.len() as int), b@.subrange(i as int, b@.len() as int)),
        decreases a@.len() - i,
    {
        proof {
            let sa = a@.subrange(i as int, a@.len() as int);
            let sb = b@.subrange(i as int, b@.len() as int);
            assert(sa.drop_first() =~= a@.subrange(i + 1, a@.len() as int));
            assert(sb.drop_first() =~= b@.subrange(i + 1, b@.len() as int));
        }
        i = i + 1;
    }
    proof {
        let sa = a@.subrange(i as int, a@.len() as int);
        let sb = b@.subrange(i as int, b@.len() as int);
        if i < a@.len() && i < b@.len() {
            assert(sa[0] == a@[i as int] && sb[0] == b@[i as int]);
        }
    }
    if i == a.len() {
        i < b.len()
    } else if i == b.len() {
        false
    } else {
        a[i] < b[i]
    }
}

/// The positions of clusters ordered by representative; clusters with equal
/// representatives keep their own order.
pub open spec fn ordered_by_representative(cs: Seq<Cluster>, order: Seq<usize>) -> bool {
    &&& forall|i: int, j: int|
        0 <= i < j < order.len() ==> !lex_lt(
            #[trigger] cs[order[j] as int].representative@,
            #[trigger] cs[order[i] as int].representative@,
        )
    &&& forall|i: int, j: int|
        0 <= i < j < order.len() && cs[order[i] as int].representative@ == cs[order[j] as int].representative@
            ==> #[trigger] order[i] < #[trigger] order[j]
}

/// Orders clusters by representative: a permutation of their positions
/// under which representatives never decrease, ties kept in cluster order.
pub fn order_by_representative(cs: &Vec<Cluster>) -> (r: Vec<usize>)
    ensures
        covers_once(r@, cs@.len()),
        ordered_by_representative(cs@, r@),
{
    let mut r: Vec<usize> = Vec::new();
    let mut i: usize = 0;
    while i < cs.len()
        invariant
            i <= cs@.len(),
            r@.len() == i,
            covers_once(r@, i as nat),
            ordered_by_representative(cs@, r@),
        decreases cs@.len() - i,
    {
        let x = &cs[i].representative;
        let mut p: usize = 0;
        while p < r.len() && !bytes_lt(x, &cs[r[p]].representative)
            invariant
                p <= r@.len(),
                r@.len() == i,
                i < cs@.len(),
                covers_once(r@, i as nat),
                forall|k: int| 0 <= k < p ==> !lex_lt(x@, #[trigger] cs@[r@[k] as int].representative@),
            decreases r@.len() - p,
        {
            assert(r@[p as int] < i);
            p = p + 1;
        }
        let ghost old_r = r@;
        proof {
            if p < r@.len() {
                assert(r@[p as int] < i);
            }
        }
        r.insert(p, i);
        proof {
            let xr = cs@[i as int].representative@;
            assert(r@ == old_r.insert(p as int, i));
            assert forall|a: int, b: int| 0 <= a < b < r@.len() implies !lex_lt(
                #[trigger] cs@[r@[b] as int].representative@,
                #[trigger] cs@[r@[a] as int].representative@,
            ) by {
                if b < p {
                    assert(r@[a] == old_r[a] && r@[b] == old_r[b]);
                    assert(!lex_lt(cs@[old_r[b] as int].representative@, cs@[old_r[a] as int].representative@));
                } else if b == p {
                    assert(r@[a] == old_r[a]);
                    assert(r@[b] == i);
                    assert(!lex_lt(xr, cs@[old_r[a] as int].representative@));
                } else if a < p {
                    assert(r@[a] == old_r[a] && r@[b] == old_r[b - 1]);
                    assert(!lex_lt(cs@[old_r[b - 1] as int].representative@, cs@[old_r[a] as int].representative@));
                } else if a == p {
                    assert(r@[b] == old_r[b - 1]);
                    let yp = cs@[old_r[p as int] as int].representative@;
                    let yb = cs@[old_r[b - 1] as int].representative@;
                    assert(lex_lt(xr, yp));
                    assert(r@[a] == i);
                    if b - 1 > p {
                        assert(!lex_lt(cs@[old_r[b - 1] as int].representative@, cs@[old_r[p as int] as int].representative@));
                    }
                    if lex_lt(yb, xr) {
                        lemma_lex_transitive(yb, xr, yp);
                        lemma_lex_irreflexive(yp);
                    }
                } else {
                    assert(r@[a] == old_r[a - 1] && r@[b] == old_r[b - 1]);
                    assert(!lex_lt(cs@[old_r[b - 1] as int].representative@, cs@[old_r[a - 1] as int].representative@));
                }
            }
            assert forall|a: int, b: int|
                0 <= a < b < r@.len() && cs@[r@[a] as int].representative@ == cs@[r@[b] as int].representative@
                implies #[trigger] r@[a] < #[trigger] r@[b] by {
                if b < p {
                    assert(r@[a] == old_r[a] && r@[b] == old_r[b]);
                } else if b == p {
                    assert(r@[a] == old_r[a]);
                    assert(old_r[a] < i);
                } else if a < p {
                    assert(r@[a] == old_r[a] && r@[b] == old_r[b - 1]);
                } else if a == p {
                    assert(r@[b] == old_r[b - 1]);
                    let yp = cs@[old_r[p as int] as int].representative@;
                    assert(lex_lt(xr, yp));
                    if b - 1 > p {
                        assert(!lex_lt(cs@[old_r[b - 1] as int].representative@, cs@[old_r[p as int] as int].representative@));
                    } else {
                        lemma_lex_irreflexive(yp);
                    }
                } else {
                    assert(r@[a] == old_r[a - 1] && r@[b] == old_r[b - 1]);
                }
            }
            assert forall|j: int| 0 <= j < r@.len() implies #[trigger] r@[j] < i + 1 by {
                if j < p {
                    assert(r@[j] == old_r[j]);
                } else if j > p {
                    assert(r@[j] == old_r[j - 1]);
                }
            }
            assert forall|j1: int, j2: int| 0 <= j1 < r@.len() && 0 <= j2 < r@.len() && j1 != j2 implies #[trigger] r@[j1] != #[trigger] r@[j2] by {
                let o1 = if j1 < p { j1 } else { j1 - 1 };
                let o2 = if j2 < p { j2 } else { j2 - 1 };
                if j1 != p && j2 != p {
                    assert(r@[j1] == old_r[o1] && r@[j2] == old_r[o2]);
                } else if j1 == p {
                    assert(r@[j2] == old_r[o2]);
                    assert(old_r[o2] < i);
                } else {
                    assert(r@[j1] == old_r[o1]);
                    assert(old_r[o1] < i);
                }
            }
            assert forall|v: int| 0 <= v < i + 1 implies #[trigger] holds(r@, v) by {
                if v == i {
                    assert(r@[p as int] == v);
                } else {
                    assert(holds(old_r, v));
                    let k = choose|k: int| 0 <= k < old_r.len() && old_r[k] == v;
                    if k < p {
                        assert(r@[k] == v);
                    } else {
                        assert(r@[k + 1] == v);
                    }
                }
            }
        }
        i = i + 1;
    }
    r
}

} // verus!
