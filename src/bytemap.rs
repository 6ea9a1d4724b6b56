use vstd::prelude::*;

use crate::pstring::{bytes_lt, lemma_lex_irreflexive, lemma_lex_total, lemma_lex_transitive, lex_lt};

verus! {

/// Byte equality of two slices.
pub fn bytes_eq(a: &[u8], b: &[u8]) -> (r: bool)
    ensures
        r == (a@ == b@),
{
    if a.len() != b.len() {
        return false;
    }
    let mut i: usize = 0;
    while i < a.len()
        invariant
            a@.len() == b@.len(),
            i <= a@.len(),
            forall|j: int| 0 <= j < i ==> a@[j] == b@[j],
        decreases a@.len() - i,
    {
        if a[i] != b[i] {
            return false;
        }
        i = i + 1;
    }
    assert(a@ =~= b@);
    true
}

/// The keys that stand at positions `lo..` of `keys`.
pub open spec fn keys_from(keys: Seq<Vec<u8>>, lo: int) -> Set<Seq<u8>> {
    Set::new(|k: Seq<u8>| exists|j: int| lo <= j < keys.len() && keys[j]@ == k)
}

/// A map from byte strings to values, stored as parallel vectors whose keys are
/// strictly increasing in byte order.
pub struct ByteMap<V> {
    keys: Vec<Vec<u8>>,
    vals: Vec<V>,
    contents: Ghost<Map<Seq<u8>, V>>,
}

impl<V> View for ByteMap<V> {
    type V = Map<Seq<u8>, V>;

    closed spec fn view(&self) -> Map<Seq<u8>, V> {
        self.contents@
    }
}

impl<V> ByteMap<V> {
    /// The stored keys, in increasing order.
    pub closed spec fn key_seq(&self) -> Seq<Vec<u8>> {
        self.keys@
    }

    /// The stored values, in the order of their keys.
    pub closed spec fn val_seq(&self) -> Seq<V> {
        self.vals@
    }

    /// Well-formedness: sorted distinct keys, one value each, and the map view
    /// holds exactly those pairs.
    pub open spec fn wf(&self) -> bool {
        let ks = self.key_seq();
        let vs = self.val_seq();
        &&& ks.len() == vs.len()
        &&& forall|i: int, j: int| 0 <= i < j < ks.len() ==> lex_lt(#[trigger] ks[i]@, #[trigger] ks[j]@)
        &&& forall|i: int| 0 <= i < ks.len() ==> self@.contains_key(#[trigger] ks[i]@) && self@[ks[i]@] == vs[i]
        &&& forall|k: Seq<u8>| #[trigger] self@.contains_key(k) ==> exists|i: int| 0 <= i < ks.len() && ks[i]@ == k
        &&& self@.dom().finite()
        &&& self@.dom().len() == ks.len()
    }

    /// An empty map.
    pub fn new() -> (r: ByteMap<V>)
        ensures
            r.wf(),
            r@ == Map::<Seq<u8>, V>::empty(),
    {
        ByteMap { keys: Vec::new(), vals: Vec::new(), contents: Ghost(Map::empty()) }
    }

    /// The number of entries.
    pub fn len(&self) -> (r: usize)
        requires
            self.wf(),
        ensures
            r == self@.dom().len(),
    {
        self.keys.len()
    }

    /// The position at which `k` stands or would stand, and whether it is there.
    fn find(&self, k: &[u8]) -> (r: (usize, bool))
        requires
            self.wf(),
        ensures
            r.0 <= self.key_seq().len(),
            forall|j: int| 0 <= j < r.0 ==> lex_lt(#[trigger] self.key_seq()[j]@, k@),
            r.0 < self.key_seq().len() ==> !lex_lt(self.key_seq()[r.0 as int]@, k@),
            r.1 == (r.0 < self.key_seq().len() && self.key_seq()[r.0 as int]@ == k@),
            r.1 == self@.contains_key(k@),
    {
        let n = self.keys.len();
        let mut i: usize = 0;
        let mut hi: usize = n;
        while i < hi
            invariant
                self.wf(),
                n == self.keys@.len(),
                i <= hi <= n,
                forall|j: int| 0 <= j < i ==> lex_lt(#[trigger] self.keys@[j]@, k@),
                forall|j: int| hi <= j < n ==> !lex_lt(#[trigger] self.keys@[j]@, k@),
            decreases hi - i,
        {
            let mid = i + (hi - i) / 2;
            if bytes_lt(self.keys[mid].as_slice(), k) {
                proof {
                    assert forall|j: int| 0 <= j < mid + 1 implies lex_lt(#[trigger] self.keys@[j]@, k@) by {
                        if j < mid {
                            assert(lex_lt(self.keys@[j]@, self.keys@[mid as int]@));
                            lemma_lex_transitive(self.keys@[j]@, self.keys@[mid as int]@, k@);
                        }
                    }
                }
                i = mid + 1;
            } else {
                proof {
                    assert forall|j: int| mid <= j < n implies !lex_lt(#[trigger] self.keys@[j]@, k@) by {
                        if j > mid && lex_lt(self.keys@[j]@, k@) {
                            assert(lex_lt(self.keys@[mid as int]@, self.keys@[j]@));
                            lemma_lex_transitive(self.keys@[mid as int]@, self.keys@[j]@, k@);
                        }
                    }
                }
                hi = mid;
            }
        }
        let found = i < n && bytes_eq(self.keys[i].as_slice(), k);
        proof {
            if !found && self@.contains_key(k@) {
                let w = choose|w: int| 0 <= w < self.keys@.len() && self.keys@[w]@ == k@;
                if w < i {
                    lemma_lex_irreflexive(k@);
                } else if w == i {
                } else {
                    assert(lex_lt(self.keys@[i as int]@, self.keys@[w]@));
                }
            }
        }
        (i, found)
    }

    /// Whether `k` has an entry.
    pub fn contains_key(&self, k: &[u8]) -> (r: bool)
        requires
            self.wf(),
        ensures
            r == self@.contains_key(k@),
    {
        self.find(k).1
    }

    /// The value stored under `k`, if any.
    pub fn get(&self, k: &[u8]) -> (r: Option<&V>)
        requires
            self.wf(),
        ensures
            r == (if self@.contains_key(k@) { Some(&self@[k@]) } else { None }),
    {
        let (i, found) = self.find(k);
        if found {
            Some(&self.vals[i])
        } else {
            None
        }
    }

    /// Adds `k` with value `v` where `k` has no entry yet; where it has one,
    /// leaves the map as it is and hands `v` back.
    pub fn insert(&mut self, k: Vec<u8>, v: V) -> (r: Option<V>)
        requires
            old(self).wf(),
        ensures
            final(self).wf(),
            old(self)@.contains_key(k@) ==> r == Some(v) && final(self)@ == old(self)@,
            !old(self)@.contains_key(k@) ==> r is None && final(self)@ == old(self)@.insert(k@, v),
    {
        let (i, found) = self.find(k.as_slice());
        if found {
            return Some(v);
        }
        let ghost ok = self.keys@;
        let ghost ov = self.vals@;
        let ghost om = self@;
        let ghost kv = k@;
        proof {
            if i < ok.len() {
                assert(ok[i as int]@ != kv);
                lemma_lex_total(ok[i as int]@, kv);
            }
        }
        self.keys.insert(i, k);
        self.vals.insert(i, v);
        self.contents = Ghost(om.insert(kv, v));
        proof {
            let nk = self.keys@;
            assert forall|a: int, b: int| 0 <= a < b < nk.len() implies lex_lt(#[trigger] nk[a]@, #[trigger] nk[b]@) by {
                if b < i {
                } else if b == i {
                } else if a < i {
                    if b - 1 > i {
                        assert(lex_lt(ok[i as int]@, ok[b - 1]@));
                        lemma_lex_transitive(kv, ok[i as int]@, ok[b - 1]@);
                    }
                    lemma_lex_transitive(ok[a]@, kv, ok[b - 1]@);
                } else if a == i {
                    if b - 1 > i {
                        assert(lex_lt(ok[i as int]@, ok[b - 1]@));
                        lemma_lex_transitive(kv, ok[i as int]@, ok[b - 1]@);
                    }
                } else {
                    assert(lex_lt(ok[a - 1]@, ok[b - 1]@));
                }
            }
            assert forall|j: int| 0 <= j < nk.len() implies self@.contains_key(#[trigger] nk[j]@) && self@[nk[j]@] == self.vals@[j] by {
                if j < i {
                    assert(om.contains_key(ok[j]@));
                    assert(ok[j]@ != kv) by { lemma_lex_irreflexive(kv); }
                } else if j > i {
                    assert(om.contains_key(ok[j - 1]@));
                    assert(ok[j - 1]@ != kv) by { lemma_lex_irreflexive(kv); }
                }
            }
            assert forall|kk: Seq<u8>| #[trigger] self@.contains_key(kk) implies exists|j: int| 0 <= j < nk.len() && nk[j]@ == kk by {
                if kk == kv {
                    assert(nk[i as int]@ == kk);
                } else {
                    assert(om.contains_key(kk));
                    let w = choose|w: int| 0 <= w < ok.len() && ok[w]@ == kk;
                    if w < i {
                        assert(nk[w]@ == kk);
                    } else {
                        assert(nk[w + 1]@ == kk);
                    }
                }
            }
            assert(self@.dom() =~= om.dom().insert(kv));
            assert(self@.dom().len() == om.dom().len() + 1);
            assert(self.keys@.len() == ok.len() + 1);
            assert(self.key_seq() == nk);
            assert(self.wf());
        }
        None
    }

    /// Splits the map into its keys, in increasing order, and their values.
    pub fn into_parts(self) -> (r: (Vec<Vec<u8>>, Vec<V>))
        requires
            self.wf(),
        ensures
            r.0@ == self.key_seq(),
            r.1@ == self.val_seq(),
    {
        (self.keys, self.vals)
    }

    /// The key at position `i` of the increasing order.
    pub fn key_at(&self, i: usize) -> (r: &Vec<u8>)
        requires
            self.wf(),
            i < self@.dom().len(),
        ensures
            r == self.key_seq()[i as int],
            self@.contains_key(r@),
    {
        &self.keys[i]
    }

    /// The value of the key at position `i` of the increasing order.
    pub fn value_at(&self, i: usize) -> (r: &V)
        requires
            self.wf(),
            i < self@.dom().len(),
        ensures
            *r == self@[self.key_seq()[i as int]@],
    {
        &self.vals[i]
    }

    /// Adds every entry of `other`, whose keys have no entry here.
    pub fn extend(&mut self, other: ByteMap<V>)
        requires
            old(self).wf(),
            other.wf(),
            old(self)@.dom().disjoint(other@.dom()),
        ensures
            final(self).wf(),
            final(self)@ == old(self)@.union_prefer_right(other@),
    {
        let ghost om = self@;
        let ghost oth = other@;
        let ghost all_keys = other.key_seq();
        let ghost all_vals = other.val_seq();
        let (mut ks, mut vs) = other.into_parts();
        let ghost n = all_keys.len();
        assert(keys_from(all_keys, n as int) =~= Set::empty());
        assert(oth.restrict(keys_from(all_keys, n as int)) =~= Map::empty());
        assert(om.union_prefer_right(Map::empty()) =~= om);
        while ks.len() > 0
            invariant
                self.wf(),
                ks@.len() == vs@.len(),
                ks@.len() <= n,
                ks@ == all_keys.subrange(0, ks@.len() as int),
                vs@ == all_vals.subrange(0, vs@.len() as int),
                n == all_keys.len(),
                n == all_vals.len(),
                other.wf(),
                oth == other@,
                all_keys == other.key_seq(),
                all_vals == other.val_seq(),
                om.dom().disjoint(oth.dom()),
                self@ == om.union_prefer_right(oth.restrict(keys_from(all_keys, ks@.len() as int))),
            decreases ks@.len(),
        {
            let ghost r = ks@.len() as int;
            let k = ks.pop().unwrap();
            let v = vs.pop().unwrap();
            proof {
                assert(k == all_keys[r - 1]);
                assert(v == all_vals[r - 1]);
                assert(oth.contains_key(k@));
                if keys_from(all_keys, r).contains(k@) {
                    let w = choose|w: int| r <= w < n && all_keys[w]@ == k@;
                    assert(lex_lt(all_keys[r - 1]@, all_keys[w]@));
                    lemma_lex_irreflexive(k@);
                }
            }
            let back = self.insert(k, v);
            proof {
                assert(keys_from(all_keys, r - 1) =~= keys_from(all_keys, r).insert(k@));
                assert(oth.restrict(keys_from(all_keys, r - 1)) =~= oth.restrict(keys_from(all_keys, r)).insert(k@, v));
                assert(self@ =~= om.union_prefer_right(oth.restrict(keys_from(all_keys, r - 1))));
            }
        }
        proof {
            assert(keys_from(all_keys, 0) =~= oth.dom());
            assert(oth.restrict(oth.dom()) =~= oth);
        }
    }
}

/// Keys at positions below `i` agree.
proof fn lemma_same_order_upto<V>(a: ByteMap<V>, b: ByteMap<V>, i: int)
    requires
        a.wf(),
        b.wf(),
        a@ == b@,
        0 <= i <= a.key_seq().len(),
    ensures
        a.key_seq().len() == b.key_seq().len(),
        forall|j: int| 0 <= j < i ==> #[trigger] a.key_seq()[j]@ == b.key_seq()[j]@,
    decreases i,
{
    let ka = a.key_seq();
    let kb = b.key_seq();
    if i > 0 {
        lemma_same_order_upto(a, b, i - 1);
        let x = ka[i - 1]@;
        let y = kb[i - 1]@;
        if x != y {
            lemma_lex_total(x, y);
            if lex_lt(x, y) {
                assert(b@.contains_key(x));
                let w = choose|w: int| 0 <= w < kb.len() && kb[w]@ == x;
                if w < i - 1 {
                    assert(ka[w]@ == kb[w]@);
                    assert(lex_lt(ka[w]@, ka[i - 1]@));
                    lemma_lex_irreflexive(x);
                } else if w > i - 1 {
                    assert(lex_lt(kb[i - 1]@, kb[w]@));
                    lemma_lex_transitive(x, y, x);
                    lemma_lex_irreflexive(x);
                }
            } else {
                assert(a@.contains_key(y));
                let w = choose|w: int| 0 <= w < ka.len() && ka[w]@ == y;
                if w < i - 1 {
                    assert(ka[w]@ == kb[w]@);
                    assert(lex_lt(kb[w]@, kb[i - 1]@));
                    lemma_lex_irreflexive(y);
                } else if w > i - 1 {
                    assert(lex_lt(ka[i - 1]@, ka[w]@));
                    lemma_lex_transitive(y, x, y);
                    lemma_lex_irreflexive(y);
                }
            }
        }
    }
}

/// The stored order depends on the contents alone: two well-formed maps with
/// the same contents hold the same keys and values at every position, however
/// they were built.
pub proof fn lemma_same_contents_same_order<V>(a: ByteMap<V>, b: ByteMap<V>)
    requires
        a.wf(),
        b.wf(),
        a@ == b@,
    ensures
        a.key_seq().len() == b.key_seq().len(),
        forall|j: int| 0 <= j < a.key_seq().len() ==> #[trigger] a.key_seq()[j]@ == b.key_seq()[j]@,
        a.val_seq() == b.val_seq(),
{
    lemma_same_order_upto(a, b, a.key_seq().len() as int);
    assert(a.val_seq() =~= b.val_seq()) by {
        assert forall|j: int| 0 <= j < a.val_seq().len() implies a.val_seq()[j] == b.val_seq()[j] by {
            assert(a.key_seq()[j]@ == b.key_seq()[j]@);
        }
    }
}

} // verus!
