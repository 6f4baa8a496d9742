use vstd::prelude::*;
use crate::error::{ConsensusError, ProtocolIssue};

verus! {

/// The parts of `s` between the bytes `sep`, left to right; always at least
/// one part, and one more than there are separators.
pub open spec fn split_parts(s: Seq<u8>, sep: u8) -> Seq<Seq<u8>>
    decreases s.len(),
{
    if s.len() == 0 {
        seq![Seq::<u8>::empty()]
    } else {
        let prev = split_parts(s.drop_last(), sep);
        if s.last() == sep {
            prev.push(Seq::<u8>::empty())
        } else {
            prev.update(prev.len() - 1, prev.last().push(s.last()))
        }
    }
}

proof fn lemma_split_nonempty(s: Seq<u8>, sep: u8)
    ensures
        split_parts(s, sep).len() >= 1,
    decreases s.len(),
{
    if s.len() > 0 {
        lemma_split_nonempty(s.drop_last(), sep);
    }
}

pub open spec fn vec_views(v: Seq<Vec<u8>>) -> Seq<Seq<u8>> {
    Seq::new(v.len(), |i: int| v[i]@)
}

/// Splits bytes at each separator.
pub fn split_bytes(s: &Vec<u8>, sep: u8) -> (r: Vec<Vec<u8>>)
    ensures
        vec_views(r@) == split_parts(s@, sep),
        r@.len() >= 1,
{
    let mut parts: Vec<Vec<u8>> = Vec::new();
    parts.push(Vec::new());
    let mut i: usize = 0;
    proof {
        assert(s@.subrange(0, 0) =~= Seq::<u8>::empty());
        assert(vec_views(parts@) =~= split_parts(Seq::<u8>::empty(), sep));
    }
    while i < s.len()
        invariant
            i <= s@.len(),
            parts@.len() >= 1,
            vec_views(parts@) == split_parts(s@.subrange(0, i as int), sep),
        decreases s@.len() - i,
    {
        let b = s[i];
        let ghost pre = s@.subrange(0, i as int);
        let ghost cur = s@.subrange(0, i + 1);
        proof {
            assert(cur.drop_last() =~= pre);
            assert(cur.last() == b);
        }
        if b == sep {
            parts.push(Vec::new());
            proof {
                assert(vec_views(parts@) =~= split_parts(pre, sep).push(Seq::<u8>::empty()));
            }
        } else {
            let mut last = parts.pop().unwrap();
            let ghost prev = vec_views(parts@).push(last@);
            last.push(b);
            parts.push(last);
            proof {
                assert(vec_views(parts@) =~= prev.update(prev.len() - 1, prev.last().push(b)));
            }
        }
        i = i + 1;
    }
    proof {
        assert(s@.subrange(0, s@.len() as int) =~= s@);
    }
    parts
}

pub open spec fn is_digit(b: u8) -> bool {
    48 <= b <= 57
}

pub open spec fn all_digits(s: Seq<u8>) -> bool {
    forall|i: int| 0 <= i < s.len() ==> is_digit(#[trigger] s[i])
}

/// The number that decimal digits write.
pub open spec fn digits_value(s: Seq<u8>) -> int
    decreases s.len(),
{
    if s.len() == 0 {
        0
    } else {
        digits_value(s.drop_last()) * 10 + (s.last() - 48)
    }
}

proof fn lemma_value_grows(s: Seq<u8>, i: int)
    requires
        0 <= i <= s.len(),
        all_digits(s),
    ensures
        0 <= digits_value(s.subrange(0, i)) <= digits_value(s),
    decreases s.len(),
{
    if s.len() > 0 {
        let pre = s.drop_last();
        assert(all_digits(pre)) by {
            assert forall|j: int| 0 <= j < pre.len() implies is_digit(#[trigger] pre[j]) by {
                assert(pre[j] == s[j]);
            }
        }
        assert(is_digit(s[s.len() - 1]));
        if i == s.len() {
            assert(s.subrange(0, i) =~= s);
            lemma_value_grows(pre, pre.len() as int);
            assert(pre.subrange(0, pre.len() as int) =~= pre);
        } else {
            assert(s.subrange(0, i) =~= pre.subrange(0, i));
            lemma_value_grows(pre, i);
        }
    } else {
        assert(s.subrange(0, i) =~= s);
    }
}

/// A field that names an input: digits writing a number in `1..=n`.
pub open spec fn index_field_ok(f: Seq<u8>, n: int) -> bool {
    f.len() > 0 && all_digits(f) && 1 <= digits_value(f) <= n
}

/// The members of a cluster, from 0, as the list `i,j,...` of 1-based
/// indices names them; `None` where an entry names no input.
pub open spec fn parsed_members(f: Seq<u8>, n: int) -> Option<Seq<usize>> {
    let parts = split_parts(f, 44);
    if forall|k: int| 0 <= k < parts.len() ==> index_field_ok(#[trigger] parts[k], n) {
        Some(Seq::new(parts.len(), |k: int| (digits_value(parts[k]) - 1) as usize))
    } else {
        None
    }
}

/// A line `representative<TAB>size<TAB>i,j,...` of the clusterer's answer:
/// its representative and its members from 0, for `n` inputs.
pub open spec fn parsed_line(line: Seq<u8>, n: int) -> Option<(Seq<u8>, Seq<usize>)> {
    let fields = split_parts(line, 9);
    if fields.len() == 3 && fields[1].len() > 0 && all_digits(fields[1]) && parsed_members(
        fields[2],
        n,
    ) is Some {
        Some((fields[0], parsed_members(fields[2], n)->0))
    } else {
        None
    }
}

/// Parses a field of decimal digits that names an input in `1..=n`, giving
/// its index from 0.
pub fn parse_index(f: &Vec<u8>, n: usize) -> (r: Option<usize>)
    ensures
        r matches Some(v) ==> index_field_ok(f@, n as int) && v == digits_value(f@) - 1,
        r is None ==> !index_field_ok(f@, n as int),
{
    if f.len() == 0 {
        return None;
    }
    let mut v: usize = 0;
    let mut i: usize = 0;
    while i < f.len()
        invariant
            i <= f@.len(),
            all_digits(f@.subrange(0, i as int)),
            v as int == digits_value(f@.subrange(0, i as int)),
            v <= n,
        decreases f@.len() - i,
    {
        let b = f[i];
        let ghost pre = f@.subrange(0, i as int);
        let ghost cur = f@.subrange(0, i + 1);
        proof {
            assert(cur.drop_last() =~= pre);
        }
        if b < 48 || b > 57 {
            proof {
                assert(f@[i as int] == b);
            }
            return None;
        }
        proof {
            assert(all_digits(cur)) by {
                assert forall|j: int| 0 <= j < cur.len() implies is_digit(#[trigger] cur[j]) by {
                    if j < i {
                        assert(cur[j] == pre[j]);
                    }
                }
            }
        }
        let d = (b - 48) as usize;
        if d > n || v > (n - d) / 10 {
            proof {
                assert(digits_value(cur) == v * 10 + d);
                if d <= n {
                    assert(v * 10 + d > n) by (nonlinear_arith)
                        requires v > (n - d) / 10, d <= 9, d <= n;
                }
                if all_digits(f@) {
                    lemma_value_grows(f@, i + 1);
                }
            }
            return None;
        }
        proof {
            assert(v * 10 + d <= n) by (nonlinear_arith)
                requires v <= (n - d) / 10, d <= 9, d <= n;
        }
        v = v * 10 + d;
        i = i + 1;
    }
    proof {
        assert(f@.subrange(0, f@.len() as int) =~= f@);
    }
    if v == 0 {
        return None;
    }
    Some(v - 1)
}

/// Parses the member list `i,j,...` of a cluster.
pub fn parse_members(f: &Vec<u8>, n: usize) -> (r: Option<Vec<usize>>)
    ensures
        r matches Some(v) ==> parsed_members(f@, n as int) == Some(v@),
        r is None ==> parsed_members(f@, n as int) is None,
{
    let parts = split_bytes(f, 44);
    let ghost ps = split_parts(f@, 44);
    let mut out: Vec<usize> = Vec::new();
    let mut k: usize = 0;
    while k < parts.len()
        invariant
            k <= parts@.len(),
            vec_views(parts@) == ps,
            ps == split_parts(f@, 44),
            out@.len() == k,
            forall|j: int| 0 <= j < k ==> index_field_ok(#[trigger] ps[j], n as int),
            forall|j: int| 0 <= j < k ==> #[trigger] out@[j] == (digits_value(ps[j]) - 1) as usize,
        decreases parts@.len() - k,
    {
        assert(ps[k as int] == parts@[k as int]@);
        match parse_index(&parts[k], n) {
            Some(v) => {
                out.push(v);
            },
            None => {
                return None;
            },
        }
        k = k + 1;
    }
    assert(out@ =~= Seq::new(ps.len(), |j: int| (digits_value(ps[j]) - 1) as usize));
    Some(out)
}

/// Whether every byte is a decimal digit, and there is at least one.
fn is_number(f: &Vec<u8>) -> (r: bool)
    ensures
        r == (f@.len() > 0 && all_digits(f@)),
{
    if f.len() == 0 {
        return false;
    }
    let mut i: usize = 0;
    while i < f.len()
        invariant
            i <= f@.len(),
            forall|j: int| 0 <= j < i ==> is_digit(#[trigger] f@[j]),
        decreases f@.len() - i,
    {
        if f[i] < 48 || f[i] > 57 {
            return false;
        }
        i = i + 1;
    }
    true
}

/// A cluster of the clusterer's answer: its representative and the indices
/// (from 0) of its members.
pub struct Cluster {
    pub representative: Vec<u8>,
    pub members: Vec<usize>,
}

impl Cluster {
    pub open spec fn view(&self) -> (Seq<u8>, Seq<usize>) {
        (self.representative@, self.members@)
    }
}

/// Parses one line `representative<TAB>size<TAB>i,j,...`.
pub fn parse_line(line: &Vec<u8>, n: usize) -> (r: Option<Cluster>)
    ensures
        r matches Some(c) ==> parsed_line(line@, n as int) == Some(c.view()),
        r is None ==> parsed_line(line@, n as int) is None,
{
    let mut fields = split_bytes(line, 9);
    if fields.len() != 3 || !is_number(&fields[1]) {
        return None;
    }
    let ghost fs = split_parts(line@, 9);
    assert(fs[1] == fields@[1]@);
    assert(fs[2] == fields@[2]@);
    match parse_members(&fields[2], n) {
        Some(members) => {
            let representative = fields.swap_remove(0);
            assert(representative@ == fs[0]);
            Some(Cluster { representative, members })
        },
        None => None,
    }
}

/// The clusters of the clusterer's whole answer: one line each, every line
/// ended by a newline; `None` where a line is malformed.
pub open spec fn parsed_answer(out: Seq<u8>, n: int) -> Option<Seq<(Seq<u8>, Seq<usize>)>> {
    let lines = split_parts(out, 10);
    if lines.last().len() == 0 && forall|k: int| 0 <= k < lines.len() - 1 ==> (parsed_line(
        #[trigger] lines[k],
        n,
    ) is Some) {
        Some(Seq::new((lines.len() - 1) as nat, |k: int| parsed_line(lines[k], n)->0))
    } else {
        None
    }
}

/// All members of the clusters, cluster after cluster.
pub open spec fn flat(groups: Seq<Seq<usize>>) -> Seq<usize>
    decreases groups.len(),
{
    if groups.len() == 0 {
        Seq::empty()
    } else {
        flat(groups.drop_last()) + groups.last()
    }
}

/// Each index below `n` stands exactly once in `s`, and nothing else does.
pub open spec fn covers_once(s: Seq<usize>, n: nat) -> bool {
    &&& forall|j: int| 0 <= j < s.len() ==> #[trigger] s[j] < n
    &&& forall|j1: int, j2: int| 0 <= j1 < s.len() && 0 <= j2 < s.len() && j1 != j2 ==> #[trigger] s[j1] != #[trigger] s[j2]
    &&& forall|i: int| 0 <= i < n ==> #[trigger] holds(s, i)
}

/// `i` stands in `s`.
pub open spec fn holds(s: Seq<usize>, i: int) -> bool {
    exists|j: int| 0 <= j < s.len() && s[j] == i
}

/// Clusters that partition the indices `0..n`.
pub open spec fn is_partition(groups: Seq<Seq<usize>>, n: nat) -> bool {
    covers_once(flat(groups), n)
}

pub open spec fn cluster_views(cs: Seq<Cluster>) -> Seq<(Seq<u8>, Seq<usize>)> {
    Seq::new(cs.len(), |k: int| cs[k].view())
}

pub open spec fn member_lists(cs: Seq<(Seq<u8>, Seq<usize>)>) -> Seq<Seq<usize>> {
    Seq::new(cs.len(), |k: int| cs[k].1)
}

/// Finds the first index of `s` that breaks the partition of `0..n`.
pub fn check_cover(s: &Vec<usize>, n: usize) -> (r: Option<ProtocolIssue>)
    ensures
        r is None <==> covers_once(s@, n as nat),
{
    let mut seen: Vec<bool> = Vec::new();
    let mut i: usize = 0;
    while i < n
        invariant
            i <= n,
            seen@.len() == i,
            forall|x: int| 0 <= x < i ==> !#[trigger] seen@[x],
        decreases n - i,
    {
        seen.push(false);
        i = i + 1;
    }
    let mut j: usize = 0;
    while j < s.len()
        invariant
            j <= s@.len(),
            seen@.len() == n,
            forall|a: int| 0 <= a < j ==> #[trigger] s@[a] < n,
            forall|a: int, b: int| 0 <= a < j && 0 <= b < j && a != b ==> #[trigger] s@[a] != #[trigger] s@[b],
            forall|x: int| 0 <= x < n ==> (#[trigger] seen@[x] <==> exists|a: int| 0 <= a < j && s@[a] == x),
        decreases s@.len() - j,
    {
        let v = s[j];
        if v >= n {
            proof {
                assert(!(s@[j as int] < n));
            }
            return Some(ProtocolIssue::MissingIndex { index: v });
        }
        if seen[v] {
            proof {
                let a = choose|a: int| 0 <= a < j && s@[a] == v;
                assert(s@[a] == s@[j as int]);
            }
            return Some(ProtocolIssue::DuplicateIndex { index: v });
        }
        seen.set(v, true);
        proof {
            assert forall|x: int| 0 <= x < n implies (#[trigger] seen@[x] <==> exists|a: int|
                0 <= a < j + 1 && s@[a] == x) by {
                if x == v {
                    assert(s@[j as int] == x);
                } else {
                    if exists|a: int| 0 <= a < j + 1 && s@[a] == x {
                        let a = choose|a: int| 0 <= a < j + 1 && s@[a] == x;
                        assert(a != j);
                    }
                }
            }
        }
        j = j + 1;
    }
    let mut x: usize = 0;
    while x < n
        invariant
            x <= n,
            seen@.len() == n,
            j == s@.len(),
            forall|y: int| 0 <= y < x ==> #[trigger] seen@[y],
            forall|y: int| 0 <= y < n ==> (#[trigger] seen@[y] <==> exists|a: int| 0 <= a < j && s@[a] == y),
        decreases n - x,
    {
        if !seen[x] {
            proof {
                assert(!seen@[x as int]);
                assert(!holds(s@, x as int));
            }
            return Some(ProtocolIssue::MissingIndex { index: x });
        }
        x = x + 1;
    }
    proof {
        assert forall|y: int| 0 <= y < n implies #[trigger] holds(s@, y) by {
            assert(seen@[y]);
        }
    }
    None
}

/// The clusterer's answer, parsed, for `n` inputs: its clusters where every
/// line is well formed and the clusters partition `0..n`, else a protocol
/// error.
pub fn parse_clusters(out: &Vec<u8>, n: usize) -> (r: Result<Vec<Cluster>, ConsensusError>)
    ensures
        match r {
            Ok(cs) => parsed_answer(out@, n as int) == Some(cluster_views(cs@)) && is_partition(
                member_lists(cluster_views(cs@)),
                n as nat,
            ),
            Err(e) => e is ClustererProtocol && (parsed_answer(out@, n as int) is None || !is_partition(
                member_lists(parsed_answer(out@, n as int)->0),
                n as nat,
            )),
        },
{
    let lines = split_bytes(out, 10);
    let ghost ls = split_parts(out@, 10);
    let last = lines.len() - 1;
    assert(ls[last as int] == lines@[last as int]@);
    if lines[last].len() != 0 {
        return Err(ConsensusError::ClustererProtocol { issue: ProtocolIssue::MalformedLine { line: last } });
    }
    let mut cs: Vec<Cluster> = Vec::new();
    let mut all: Vec<usize> = Vec::new();
    let mut k: usize = 0;
    while k < last
        invariant
            k <= last,
            last + 1 == lines@.len(),
            vec_views(lines@) == ls,
            ls == split_parts(out@, 10),
            ls.last().len() == 0,
            cs@.len() == k,
            forall|j: int| 0 <= j < k ==> parsed_line(#[trigger] ls[j], n as int) == Some(cs@[j].view()),
            all@ == flat(member_lists(cluster_views(cs@))),
        decreases last - k,
    {
        assert(ls[k as int] == lines@[k as int]@);
        match parse_line(&lines[k], n) {
            Some(c) => {
                let ghost before = member_lists(cluster_views(cs@));
                let mut i: usize = 0;
                let ghost start = all@;
                while i < c.members.len()
                    invariant
                        i <= c.members@.len(),
                        all@ == start + c.members@.subrange(0, i as int),
                    decreases c.members@.len() - i,
                {
                    all.push(c.members[i]);
                    i = i + 1;
                }
                assert(c.members@.subrange(0, c.members@.len() as int) =~= c.members@);
                cs.push(c);
                assert(member_lists(cluster_views(cs@)).drop_last() =~= before);
            },
            None => {
                return Err(ConsensusError::ClustererProtocol { issue: ProtocolIssue::MalformedLine { line: k } });
            },
        }
        k = k + 1;
    }
    assert(parsed_answer(out@, n as int) == Some(cluster_views(cs@))) by {
        assert(Seq::new((ls.len() - 1) as nat, |j: int| parsed_line(ls[j], n as int)->0) =~= cluster_views(cs@));
    }
    match check_cover(&all, n) {
        None => Ok(cs),
        Some(issue) => Err(ConsensusError::ClustererProtocol { issue }),
    }
}

/// The clusterer's input: each string on a line of its own.
pub open spec fn lines_of(items: Seq<Seq<u8>>) -> Seq<u8>
    decreases items.len(),
{
    if items.len() == 0 {
        Seq::empty()
    } else {
        lines_of(items.drop_last()) + items.last() + seq![10u8]
    }
}

/// Writes the strings to cluster, one per line.
pub fn clusterer_input(items: &Vec<Vec<u8>>) -> (r: Vec<u8>)
    ensures
        r@ == lines_of(vec_views(items@)),
{
    let mut out: Vec<u8> = Vec::new();
    let mut k: usize = 0;
    while k < items.len()
        invariant
            k <= items@.len(),
            out@ == lines_of(vec_views(items@).subrange(0, k as int)),
        decreases items@.len() - k,
    {
        let ghost start = out@;
        let item = &items[k];
        let mut i: usize = 0;
        while i < item.len()
            invariant
                i <= item@.len(),
                out@ == start + item@.subrange(0, i as int),
            decreases item@.len() - i,
        {
            out.push(item[i]);
            i = i + 1;
        }
        out.push(10);
        proof {
            let pre = vec_views(items@).subrange(0, k as int);
            let cur = vec_views(items@).subrange(0, k + 1);
            assert(cur.drop_last() =~= pre);
            assert(item@.subrange(0, item@.len() as int) =~= item@);
            assert(out@ =~= lines_of(pre) + cur.last() + seq![10u8]);
        }
        k = k + 1;
    }
    assert(vec_views(items@).subrange(0, items@.len() as int) =~= vec_views(items@));
    out
}

} // verus!
