use vstd::prelude::*;

use crate::bytemap::ByteMap;
use crate::dirent::nul_from;

verus! {

/// The names in a NUL-separated name list, as the attribute-listing call
/// fills it: each name runs to the next NUL, or to the end of the list.
pub open spec fn split_names(s: Seq<u8>) -> Seq<Seq<u8>>
    decreases s.len() via split_names_decreases
{
    if s.len() == 0 {
        Seq::empty()
    } else {
        let e = nul_from(s, 0, s.len() as int);
        let rest = if e < s.len() { s.subrange(e + 1, s.len() as int) } else { Seq::<u8>::empty() };
        seq![s.subrange(0, e)] + split_names(rest)
    }
}

proof fn lemma_nul_from_bounds(s: Seq<u8>, lo: int, hi: int)
    requires
        lo <= hi,
    ensures
        lo <= nul_from(s, lo, hi) <= hi,
    decreases hi - lo,
{
    if lo < hi {
        lemma_nul_from_bounds(s, lo + 1, hi);
    }
}

#[via_fn]
proof fn split_names_decreases(s: Seq<u8>) {
    if s.len() > 0 {
        lemma_nul_from_bounds(s, 0, s.len() as int);
    }
}

proof fn lemma_nul_from_shift(s: Seq<u8>, i: int, lo: int)
    requires
        0 <= i <= lo <= s.len(),
    ensures
        nul_from(s, lo, s.len() as int) == i + nul_from(s.subrange(i, s.len() as int), lo - i, s.len() - i),
    decreases s.len() - lo,
{
    if lo < s.len() {
        lemma_nul_from_shift(s, i, lo + 1);
    }
}

/// The names of a NUL-separated name list.
pub fn xattr_names(list: &[u8]) -> (r: Vec<Vec<u8>>)
    ensures
        r@.map_values(|v: Vec<u8>| v@) == split_names(list@),
{
    let n = list.len();
    let mut out: Vec<Vec<u8>> = Vec::new();
    let mut i: usize = 0;
    assert(list@.subrange(0, n as int) =~= list@);
    while i < n
        invariant
            n == list@.len(),
            i <= n,
            split_names(list@) == out@.map_values(|v: Vec<u8>| v@) + split_names(list@.subrange(i as int, n as int)),
        decreases n - i,
    {
        let ghost rest = list@.subrange(i as int, n as int);
        let mut name: Vec<u8> = Vec::new();
        let mut j = i;
        while j < n && list[j] != 0u8
            invariant
                n == list@.len(),
                i <= j <= n,
                name@ == list@.subrange(i as int, j as int),
                nul_from(list@, i as int, n as int) == nul_from(list@, j as int, n as int),
            decreases n - j,
        {
            name.push(list[j]);
            j = j + 1;
        }
        proof {
            lemma_nul_from_shift(list@, i as int, i as int);
            let e = nul_from(rest, 0, rest.len() as int);
            assert(e == j - i);
            assert(rest.subrange(0, e) =~= name@);
            if j < n {
                assert(rest.subrange(e + 1, rest.len() as int) =~= list@.subrange(j + 1, n as int));
            } else {
                assert(list@.subrange(n as int, n as int) =~= Seq::<u8>::empty());
            }
        }
        let ghost before = out@;
        out.push(name);
        proof {
            assert(out@.map_values(|v: Vec<u8>| v@) =~= before.map_values(|v: Vec<u8>| v@).push(name@));
        }
        if j < n {
            i = j + 1;
        } else {
            i = n;
        }
    }
    proof {
        assert(split_names(list@.subrange(n as int, n as int)) =~= Seq::<Seq<u8>>::empty());
        assert(out@.map_values(|v: Vec<u8>| v@) + Seq::<Seq<u8>>::empty() =~= out@.map_values(|v: Vec<u8>| v@));
    }
    out
}

/// The attributes named `ns` with values `vs`, position by position; where a
/// name comes twice, its first value is kept.
pub open spec fn pairs_map(ns: Seq<Seq<u8>>, vs: Seq<Vec<u8>>) -> Map<Seq<u8>, Vec<u8>>
    decreases ns.len(),
{
    if ns.len() == 0 || vs.len() == 0 {
        Map::empty()
    } else {
        let m = pairs_map(ns.drop_last(), vs.drop_last());
        if m.contains_key(ns.last()) {
            m
        } else {
            m.insert(ns.last(), vs.last())
        }
    }
}

/// The attribute map of an entry from its names and their values: `None`
/// where it has no attribute at all.
pub fn xattr_map(names: Vec<Vec<u8>>, values: Vec<Vec<u8>>) -> (r: Option<ByteMap<Vec<u8>>>)
    requires
        names@.len() == values@.len(),
    ensures
        names@.len() == 0 <==> r is None,
        r matches Some(m) ==> m.wf() && m@ == pairs_map(names@.map_values(|v: Vec<u8>| v@), values@),
{
    if names.len() == 0 {
        return None;
    }
    let ghost ns = names@.map_values(|v: Vec<u8>| v@);
    let ghost vs = values@;
    let mut m: ByteMap<Vec<u8>> = ByteMap::new();
    let mut names = names;
    let mut values = values;
    let mut rev_names: Vec<Vec<u8>> = Vec::new();
    let mut rev_values: Vec<Vec<u8>> = Vec::new();
    while names.len() > 0
        invariant
            names@.len() == values@.len(),
            rev_names@.len() == rev_values@.len(),
            names@.len() + rev_names@.len() == ns.len(),
            ns.len() == vs.len(),
            forall|i: int| 0 <= i < names@.len() ==> #[trigger] names@[i]@ == ns[i],
            forall|i: int| 0 <= i < names@.len() ==> #[trigger] values@[i] == vs[i],
            forall|i: int| 0 <= i < rev_names@.len() ==> #[trigger] rev_names@[i]@ == ns[ns.len() - 1 - i],
            forall|i: int| 0 <= i < rev_names@.len() ==> #[trigger] rev_values@[i] == vs[ns.len() - 1 - i],
        decreases names@.len(),
    {
        let k = names.pop().unwrap();
        let v = values.pop().unwrap();
        rev_names.push(k);
        rev_values.push(v);
    }
    let total = rev_names.len();
    assert(pairs_map(ns.subrange(0, 0), vs.subrange(0, 0)) =~= Map::<Seq<u8>, Vec<u8>>::empty());
    while rev_names.len() > 0
        invariant
            m.wf(),
            rev_names@.len() == rev_values@.len(),
            total == ns.len(),
            ns.len() == vs.len(),
            rev_names@.len() <= total,
            forall|i: int| 0 <= i < rev_names@.len() ==> #[trigger] rev_names@[i]@ == ns[ns.len() - 1 - i],
            forall|i: int| 0 <= i < rev_names@.len() ==> #[trigger] rev_values@[i] == vs[ns.len() - 1 - i],
            m@ == pairs_map(ns.subrange(0, total - rev_names@.len()), vs.subrange(0, total - rev_names@.len())),
        decreases rev_names@.len(),
    {
        let ghost done = total - rev_names@.len();
        let k = rev_names.pop().unwrap();
        let v = rev_values.pop().unwrap();
        proof {
            let ns2 = ns.subrange(0, done + 1);
            let vs2 = vs.subrange(0, done + 1);
            assert(ns2.drop_last() =~= ns.subrange(0, done));
            assert(vs2.drop_last() =~= vs.subrange(0, done));
            assert(k@ == ns2.last());
            assert(v == vs2.last());
        }
        let _ = m.insert(k, v);
    }
    assert(ns.subrange(0, total as int) =~= ns);
    assert(vs.subrange(0, total as int) =~= vs);
    Some(m)
}

} // verus!
