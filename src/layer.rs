use vstd::prelude::*;
use vstd::utf8::{decode_utf8, valid_utf8};

use crate::bytemap::ByteMap;
use crate::error::Error;
use crate::pstring::PString;

verus! {

/// The permission bits that a record keeps: read, write and execute for user,
/// group and others.
pub const PERM_MASK: u32 = 0o777;

/// Extended attributes: name to raw value, where the entry has any.
pub open spec fn xattrs_wf(x: &Option<ByteMap<Vec<u8>>>) -> bool {
    x matches Some(m) ==> m.wf()
}

/// The metadata recorded for a directory.
pub struct DirState {
    pub perms: u32,
    pub uid: u32,
    pub gid: u32,
    pub xattrs: Option<ByteMap<Vec<u8>>>,
}

impl DirState {
    pub open spec fn wf(&self) -> bool {
        xattrs_wf(&self.xattrs)
    }

    /// The record of a directory whose status gave `mode`, `uid` and `gid`.
    pub fn from_stat(mode: u32, uid: u32, gid: u32, xattrs: Option<ByteMap<Vec<u8>>>) -> (r: DirState)
        requires
            xattrs_wf(&xattrs),
        ensures
            r.wf(),
            r.perms == mode & PERM_MASK,
            r.uid == uid,
            r.gid == gid,
            r.xattrs == xattrs,
    {
        DirState { perms: mode & PERM_MASK, uid, gid, xattrs }
    }
}

/// The record of a regular file: the store name of its content and its metadata.
pub struct Object {
    pub hash: String,
    pub perms: u32,
    pub uid: u32,
    pub gid: u32,
    pub xattrs: Option<ByteMap<Vec<u8>>>,
}

impl Object {
    pub open spec fn wf(&self) -> bool {
        xattrs_wf(&self.xattrs)
    }

    /// The record of a file stored under `hash`, whose status gave `mode`, `uid`
    /// and `gid`.
    pub fn from_stat(hash: String, mode: u32, uid: u32, gid: u32, xattrs: Option<ByteMap<Vec<u8>>>) -> (r: Object)
        requires
            xattrs_wf(&xattrs),
        ensures
            r.wf(),
            r.hash@ == hash@,
            r.perms == mode & PERM_MASK,
            r.uid == uid,
            r.gid == gid,
            r.xattrs == xattrs,
    {
        Object { hash, perms: mode & PERM_MASK, uid, gid, xattrs }
    }
}

/// What a walk has found: directories, regular files and symbolic links, each
/// keyed by the full path of the entry.
pub struct LayerState {
    pub dirs: ByteMap<DirState>,
    pub objects: ByteMap<Object>,
    pub links: ByteMap<String>,
}

impl LayerState {
    /// Every recorded path.
    pub open spec fn paths(&self) -> Set<Seq<u8>> {
        self.dirs@.dom() + self.objects@.dom() + self.links@.dom()
    }

    /// The maps are well formed, their records too, and no path is in two of them.
    pub open spec fn wf(&self) -> bool {
        &&& self.dirs.wf()
        &&& self.objects.wf()
        &&& self.links.wf()
        &&& self.dirs@.dom().disjoint(self.objects@.dom())
        &&& self.dirs@.dom().disjoint(self.links@.dom())
        &&& self.objects@.dom().disjoint(self.links@.dom())
        &&& forall|k: Seq<u8>| #[trigger] self.dirs@.contains_key(k) ==> self.dirs@[k].wf()
        &&& forall|k: Seq<u8>| #[trigger] self.objects@.contains_key(k) ==> self.objects@[k].wf()
    }

    /// An empty state.
    pub fn new() -> (r: LayerState)
        ensures
            r.wf(),
            r.dirs@ == Map::<Seq<u8>, DirState>::empty(),
            r.objects@ == Map::<Seq<u8>, Object>::empty(),
            r.links@ == Map::<Seq<u8>, String>::empty(),
    {
        LayerState { dirs: ByteMap::new(), objects: ByteMap::new(), links: ByteMap::new() }
    }

    /// Whether `path` is recorded in any of the three maps.
    pub fn contains_path(&self, path: &[u8]) -> (r: bool)
        requires
            self.wf(),
        ensures
            r == self.paths().contains(path@),
    {
        self.dirs.contains_key(path) || self.objects.contains_key(path) || self.links.contains_key(path)
    }

    /// Records directory `path`; a path that is recorded already is refused.
    pub fn record_dir(&mut self, path: &PString, rec: DirState) -> (r: Result<(), Error>)
        requires
            old(self).wf(),
            rec.wf(),
        ensures
            final(self).wf(),
            old(self).paths().contains(path@) ==> r == Err::<(), Error>(Error::DuplicateEntry)
                && final(self)@ == old(self)@,
            !old(self).paths().contains(path@) ==> r is Ok && final(self).dirs@ == old(self).dirs@.insert(path@, rec)
                && final(self).objects@ == old(self).objects@ && final(self).links@ == old(self).links@,
    {
        let key = path.to_bytes();
        if self.contains_path(key.as_slice()) {
            return Err(Error::DuplicateEntry);
        }
        let _ = self.dirs.insert(key, rec);
        Ok(())
    }

    /// Records regular file `path`; a path that is recorded already is refused.
    pub fn record_object(&mut self, path: &PString, rec: Object) -> (r: Result<(), Error>)
        requires
            old(self).wf(),
            rec.wf(),
        ensures
            final(self).wf(),
            old(self).paths().contains(path@) ==> r == Err::<(), Error>(Error::DuplicateEntry)
                && final(self)@ == old(self)@,
            !old(self).paths().contains(path@) ==> r is Ok && final(self).objects@ == old(self).objects@.insert(path@, rec)
                && final(self).dirs@ == old(self).dirs@ && final(self).links@ == old(self).links@,
    {
        let key = path.to_bytes();
        if self.contains_path(key.as_slice()) {
            return Err(Error::DuplicateEntry);
        }
        let _ = self.objects.insert(key, rec);
        Ok(())
    }

    /// Records symbolic link `path` with the raw bytes of its target, which must
    /// be valid UTF-8; a path that is recorded already is refused.
    pub fn record_link(&mut self, path: &PString, target: &[u8]) -> (r: Result<(), Error>)
        requires
            old(self).wf(),
        ensures
            final(self).wf(),
            !valid_utf8(target@) ==> r == Err::<(), Error>(Error::InvalidData) && final(self)@ == old(self)@,
            valid_utf8(target@) && old(self).paths().contains(path@) ==> r == Err::<(), Error>(Error::DuplicateEntry)
                && final(self)@ == old(self)@,
            valid_utf8(target@) && !old(self).paths().contains(path@) ==> r is Ok
                && final(self).links@.contains_key(path@)
                && final(self).links@[path@]@ == decode_utf8(target@)
                && final(self).links@.remove(path@) == old(self).links@
                && final(self).dirs@ == old(self).dirs@ && final(self).objects@ == old(self).objects@,
    {
        let text = match core::str::from_utf8(target) {
            Ok(s) => s.to_owned(),
            Err(_) => return Err(Error::InvalidData),
        };
        let key = path.to_bytes();
        if self.contains_path(key.as_slice()) {
            return Err(Error::DuplicateEntry);
        }
        let ghost before = self.links@;
        let _ = self.links.insert(key, text);
        assert(self.links@.remove(path@) =~= before);
        Ok(())
    }
}

/// The three maps of a state, as one value.
pub struct LayerView {
    pub dirs: Map<Seq<u8>, DirState>,
    pub objects: Map<Seq<u8>, Object>,
    pub links: Map<Seq<u8>, String>,
}

impl LayerState {
    pub open spec fn view(&self) -> LayerView {
        LayerView { dirs: self.dirs@, objects: self.objects@, links: self.links@ }
    }

    /// Whether some key of `m` is a recorded path.
    fn any_key_recorded<V>(&self, m: &ByteMap<V>) -> (r: bool)
        requires
            self.wf(),
            m.wf(),
        ensures
            r == !self.paths().disjoint(m@.dom()),
    {
        let n = m.len();
        let mut i: usize = 0;
        while i < n
            invariant
                self.wf(),
                m.wf(),
                n == m@.dom().len(),
                i <= n,
                forall|j: int| 0 <= j < i ==> !self.paths().contains(#[trigger] m.key_seq()[j]@),
            decreases n - i,
        {
            let k = m.key_at(i);
            if self.contains_path(k.as_slice()) {
                assert(self.paths().contains(k@) && m@.dom().contains(k@));
                return true;
            }
            i = i + 1;
        }
        proof {
            assert forall|k: Seq<u8>| m@.dom().contains(k) implies !self.paths().contains(k) by {
                assert(m@.contains_key(k));
                let w = choose|w: int| 0 <= w < m.key_seq().len() && m.key_seq()[w]@ == k;
            }
        }
        false
    }

    /// Merges `other`, the state of another worker, into this one. The two must
    /// share no path: where they do, nothing is merged and the error says so.
    pub fn extend(&mut self, other: LayerState) -> (r: Result<(), Error>)
        requires
            old(self).wf(),
            other.wf(),
        ensures
            final(self).wf(),
            r is Ok <==> old(self).paths().disjoint(other.paths()),
            r is Err ==> r == Err::<(), Error>(Error::DuplicateEntry) && final(self)@ == old(self)@,
            r is Ok ==> final(self).dirs@ == old(self).dirs@.union_prefer_right(other.dirs@)
                && final(self).objects@ == old(self).objects@.union_prefer_right(other.objects@)
                && final(self).links@ == old(self).links@.union_prefer_right(other.links@),
    {
        let clash = self.any_key_recorded(&other.dirs) || self.any_key_recorded(&other.objects)
            || self.any_key_recorded(&other.links);
        if clash {
            return Err(Error::DuplicateEntry);
        }
        assert(self.paths().disjoint(other.paths()));
        let ghost a = *self;
        let LayerState { dirs, objects, links } = other;
        self.dirs.extend(dirs);
        self.objects.extend(objects);
        self.links.extend(links);
        proof {
            assert(self.dirs@.dom() =~= a.dirs@.dom() + other.dirs@.dom());
            assert(self.objects@.dom() =~= a.objects@.dom() + other.objects@.dom());
            assert(self.links@.dom() =~= a.links@.dom() + other.links@.dom());
        }
        Ok(())
    }
}

/// A snapshot: the state of a walk and when it was taken.
pub struct Layer {
    pub fs: LayerState,
    pub timestamp: u64,
}

impl Layer {
    pub fn new(fs: LayerState, timestamp: u64) -> (r: Layer)
        ensures
            r.fs == fs,
            r.timestamp == timestamp,
    {
        Layer { fs, timestamp }
    }
}

/// How many of the three maps of `s` record `p`.
pub open spec fn maps_holding(s: LayerState, p: Seq<u8>) -> int {
    (if s.dirs@.contains_key(p) { 1int } else { 0int }) + (if s.objects@.contains_key(p) { 1int } else { 0int })
        + (if s.links@.contains_key(p) { 1int } else { 0int })
}

/// In a well-formed state, and so in every state that the recording and merging
/// operations leave, each recorded path stands in exactly one of the three maps.
pub proof fn lemma_recorded_once(s: LayerState, p: Seq<u8>)
    requires
        s.wf(),
        s.paths().contains(p),
    ensures
        maps_holding(s, p) == 1,
{
}

/// Merging the states of two workers gives the same contents in either order,
/// so the merged state, and with it the stored order of every map, does not
/// depend on how the entries were shared out.
pub proof fn lemma_merge_order_free(a: LayerState, b: LayerState)
    requires
        a.wf(),
        b.wf(),
        a.paths().disjoint(b.paths()),
    ensures
        a.dirs@.union_prefer_right(b.dirs@) == b.dirs@.union_prefer_right(a.dirs@),
        a.objects@.union_prefer_right(b.objects@) == b.objects@.union_prefer_right(a.objects@),
        a.links@.union_prefer_right(b.links@) == b.links@.union_prefer_right(a.links@),
{
    assert forall|k: Seq<u8>| a.dirs@.contains_key(k) implies !b.dirs@.contains_key(k) by {
        assert(a.paths().contains(k));
    }
    assert forall|k: Seq<u8>| a.objects@.contains_key(k) implies !b.objects@.contains_key(k) by {
        assert(a.paths().contains(k));
    }
    assert forall|k: Seq<u8>| a.links@.contains_key(k) implies !b.links@.contains_key(k) by {
        assert(a.paths().contains(k));
    }
    assert(a.dirs@.union_prefer_right(b.dirs@) =~= b.dirs@.union_prefer_right(a.dirs@));
    assert(a.objects@.union_prefer_right(b.objects@) =~= b.objects@.union_prefer_right(a.objects@));
    assert(a.links@.union_prefer_right(b.links@) =~= b.links@.union_prefer_right(a.links@));
}

} // verus!
