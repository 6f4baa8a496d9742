use vstd::prelude::*;
use crate::clusters::{covers_once, flat, holds, is_partition};
use crate::naming::distinct;

verus! {

/// Positions into `outer`, replaced by what `outer` holds there.
pub open spec fn compose(outer: Seq<usize>, local: Seq<usize>) -> Seq<usize> {
    Seq::new(local.len(), |k: int| outer[local[k] as int])
}

pub open spec fn compose_all(outer: Seq<usize>, clusters: Seq<Seq<usize>>) -> Seq<Seq<usize>> {
    Seq::new(clusters.len(), |s: int| compose(outer, clusters[s]))
}

/// The duplicate groups of a run: for each UMI cluster (record indices) in
/// turn, its sequence clusters (positions in the UMI cluster) as record
/// indices.
pub open spec fn duplicate_groups(umi: Seq<Seq<usize>>, sub: Seq<Seq<Seq<usize>>>) -> Seq<Seq<usize>>
    decreases umi.len(),
{
    if umi.len() == 0 {
        Seq::empty()
    } else {
        duplicate_groups(umi.drop_last(), sub.drop_last()) + compose_all(umi.last(), sub[umi.len() - 1])
    }
}

proof fn lemma_flat_concat(a: Seq<Seq<usize>>, b: Seq<Seq<usize>>)
    ensures
        flat(a + b) == flat(a) + flat(b),
    decreases b.len(),
{
    if b.len() == 0 {
        assert(a + b =~= a);
        assert(flat(a) + flat(b) =~= flat(a));
    } else {
        assert((a + b).drop_last() =~= a + b.drop_last());
        assert((a + b).last() == b.last());
        lemma_flat_concat(a, b.drop_last());
        assert(flat(a + b) =~= flat(a) + flat(b));
    }
}

proof fn lemma_flat_compose(outer: Seq<usize>, cl: Seq<Seq<usize>>)
    ensures
        flat(compose_all(outer, cl)) == compose(outer, flat(cl)),
    decreases cl.len(),
{
    if cl.len() == 0 {
        assert(compose(outer, flat(cl)) =~= Seq::<usize>::empty());
    } else {
        assert(compose_all(outer, cl).drop_last() =~= compose_all(outer, cl.drop_last()));
        lemma_flat_compose(outer, cl.drop_last());
        assert(compose(outer, flat(cl.drop_last()) + cl.last()) =~= compose(outer, flat(cl.drop_last()))
            + compose(outer, cl.last()));
    }
}

proof fn lemma_compose_permutes(outer: Seq<usize>, order: Seq<usize>)
    requires
        covers_once(order, outer.len()),
        distinct(outer),
    ensures
        distinct(compose(outer, order)),
        forall|v: usize| compose(outer, order).contains(v) <==> outer.contains(v),
{
    let c = compose(outer, order);
    assert forall|i: int, j: int| 0 <= i < c.len() && 0 <= j < c.len() && i != j implies c[i] != c[j] by {
        assert(order[i] != order[j]);
        assert(order[i] < outer.len() && order[j] < outer.len());
    }
    assert forall|v: usize| c.contains(v) <==> outer.contains(v) by {
        if c.contains(v) {
            let k = choose|k: int| 0 <= k < c.len() && c[k] == v;
            assert(order[k] < outer.len());
            assert(outer[order[k] as int] == v);
        }
        if outer.contains(v) {
            let p = choose|p: int| 0 <= p < outer.len() && outer[p] == v;
            assert(holds(order, p));
            let k = choose|k: int| 0 <= k < order.len() && order[k] == p;
            assert(c[k] == v);
        }
    }
}

proof fn lemma_distinct_concat(x: Seq<usize>, y: Seq<usize>)
    ensures
        distinct(x + y) <==> (distinct(x) && distinct(y) && forall|v: usize| !(x.contains(v) && y.contains(v))),
{
    let z = x + y;
    if distinct(z) {
        assert forall|i: int, j: int| 0 <= i < x.len() && 0 <= j < x.len() && i != j implies x[i] != x[j] by {
            assert(z[i] == x[i] && z[j] == x[j]);
        }
        assert forall|i: int, j: int| 0 <= i < y.len() && 0 <= j < y.len() && i != j implies y[i] != y[j] by {
            assert(z[x.len() + i] == y[i] && z[x.len() + j] == y[j]);
        }
        assert forall|v: usize| !(x.contains(v) && y.contains(v)) by {
            if x.contains(v) && y.contains(v) {
                let i = choose|i: int| 0 <= i < x.len() && x[i] == v;
                let j = choose|j: int| 0 <= j < y.len() && y[j] == v;
                assert(z[i] == v && z[x.len() + j] == v);
            }
        }
    }
    if distinct(x) && distinct(y) && forall|v: usize| !(x.contains(v) && y.contains(v)) {
        assert forall|i: int, j: int| 0 <= i < z.len() && 0 <= j < z.len() && i != j implies z[i] != z[j] by {
            if i < x.len() && j >= x.len() {
                assert(x.contains(z[i]));
                assert(y[j - x.len()] == z[j]);
                assert(y.contains(z[j]));
            } else if i >= x.len() && j < x.len() {
                assert(x.contains(z[j]));
                assert(y[i - x.len()] == z[i]);
                assert(y.contains(z[i]));
            } else if i >= x.len() && j >= x.len() {
                assert(z[i] == y[i - x.len()] && z[j] == y[j - x.len()]);
            }
        }
    }
}

proof fn lemma_groups_permute(umi: Seq<Seq<usize>>, sub: Seq<Seq<Seq<usize>>>)
    requires
        sub.len() == umi.len(),
        distinct(flat(umi)),
        forall|u: int| 0 <= u < umi.len() ==> is_partition(#[trigger] sub[u], umi[u].len()),
    ensures
        distinct(flat(duplicate_groups(umi, sub))),
        forall|v: usize| #[trigger] flat(duplicate_groups(umi, sub)).contains(v) ==> flat(umi).contains(v),
        forall|v: usize| #[trigger] flat(umi).contains(v) ==> flat(duplicate_groups(umi, sub)).contains(v),
    decreases umi.len(),
{
    if umi.len() > 0 {
        let pu = umi.drop_last();
        let ps = sub.drop_last();
        let last = umi.last();
        let k = umi.len() - 1;
        assert(flat(umi) == flat(pu) + last);
        lemma_distinct_concat(flat(pu), last);
        assert forall|u: int| 0 <= u < pu.len() implies is_partition(#[trigger] ps[u], pu[u].len()) by {
            assert(ps[u] == sub[u]);
            assert(is_partition(sub[u], umi[u].len()));
        }
        lemma_groups_permute(pu, ps);
        assert(is_partition(sub[k], umi[k].len()));
        lemma_compose_permutes(last, flat(sub[k]));
        lemma_flat_compose(last, sub[k]);
        let prev = duplicate_groups(pu, ps);
        let tail = compose_all(last, sub[k]);
        lemma_flat_concat(prev, tail);
        lemma_distinct_concat(flat(prev), flat(tail));
        let g = flat(duplicate_groups(umi, sub));
        assert(g == flat(prev) + flat(tail));
        assert forall|v: usize| g.contains(v) <==> flat(umi).contains(v) by {
            if g.contains(v) {
                let i = choose|i: int| 0 <= i < g.len() && g[i] == v;
                if i < flat(prev).len() {
                    assert(flat(prev)[i] == v);
                    assert(flat(prev).contains(v));
                    let j = choose|j: int| 0 <= j < flat(pu).len() && flat(pu)[j] == v;
                    assert(flat(umi)[j] == v);
                } else {
                    assert(flat(tail)[i - flat(prev).len()] == v);
                    assert(flat(tail).contains(v));
                    assert(last.contains(v));
                    let j = choose|j: int| 0 <= j < last.len() && last[j] == v;
                    assert(flat(umi)[flat(pu).len() + j] == v);
                }
            }
            if flat(umi).contains(v) {
                let i = choose|i: int| 0 <= i < flat(umi).len() && flat(umi)[i] == v;
                if i < flat(pu).len() {
                    assert(flat(pu)[i] == v);
                    assert(flat(pu).contains(v));
                    let j = choose|j: int| 0 <= j < flat(prev).len() && flat(prev)[j] == v;
                    assert(g[j] == v);
                } else {
                    assert(last[i - flat(pu).len()] == v);
                    assert(last.contains(v));
                    assert(flat(tail).contains(v));
                    let j = choose|j: int| 0 <= j < flat(tail).len() && flat(tail)[j] == v;
                    assert(g[flat(prev).len() + j] == v);
                }
            }
        }
        assert forall|v: usize| !(flat(prev).contains(v) && flat(tail).contains(v)) by {
            if flat(prev).contains(v) && flat(tail).contains(v) {
                assert(flat(pu).contains(v));
                assert(last.contains(v));
            }
        }
    } else {
        assert(flat(duplicate_groups(umi, sub)) =~= Seq::<usize>::empty());
    }
}

/// Where the UMI clusters partition the records `0..n`, and the sequence
/// clusters of each UMI cluster partition its positions, the duplicate
/// groups partition `0..n`: every record lies in exactly one group, and so in
/// exactly one consensus read.
pub proof fn lemma_each_record_in_one_group(umi: Seq<Seq<usize>>, sub: Seq<Seq<Seq<usize>>>, n: nat)
    requires
        is_partition(umi, n),
        sub.len() == umi.len(),
        forall|u: int| 0 <= u < umi.len() ==> is_partition(#[trigger] sub[u], umi[u].len()),
    ensures
        is_partition(duplicate_groups(umi, sub), n),
{
    let f = flat(umi);
    assert(distinct(f)) by {
        assert forall|i: int, j: int| 0 <= i < f.len() && 0 <= j < f.len() && i != j implies f[i] != f[j] by {
            assert(covers_once(f, n));
        }
    }
    lemma_groups_permute(umi, sub);
    let g = flat(duplicate_groups(umi, sub));
    assert forall|j: int| 0 <= j < g.len() implies #[trigger] g[j] < n by {
        assert(g.contains(g[j]));
        let i = choose|i: int| 0 <= i < f.len() && f[i] == g[j];
    }
    assert forall|i: int| 0 <= i < n implies #[trigger] holds(g, i) by {
        assert(holds(f, i));
        let j = choose|j: int| 0 <= j < f.len() && f[j] == i;
        assert(f.contains(f[j]));
        assert(g.contains(f[j]));
    }
}

} // verus!
