use vstd::prelude::*;

use crate::pstring::{joined, PString};

verus! {

/// The capacity of one directory-entry page: a 4 KiB block less a small header.
pub const PAGE_LEN: usize = 3904;

/// Offsets inside a directory record: 8-byte inode, 8-byte offset to the next
/// record, 2-byte record length, 1-byte file type, then the NUL-terminated name.
pub const RECLEN_AT: usize = 16;
pub const TYPE_AT: usize = 18;
pub const NAME_AT: usize = 19;

/// The little-endian 2-byte record length of the record at `off`.
pub open spec fn rec_len(d: Seq<u8>, off: int) -> int {
    d[off + 16] as int + d[off + 17] as int * 256
}

/// The position of the first NUL byte of `d` in `lo..hi`, or `hi` if none.
pub open spec fn nul_from(d: Seq<u8>, lo: int, hi: int) -> int
    decreases hi - lo,
{
    if lo >= hi {
        hi
    } else if d[lo] == 0u8 {
        lo
    } else {
        nul_from(d, lo + 1, hi)
    }
}

/// The little-endian 8-byte integer at `at`.
pub open spec fn le_u64(d: Seq<u8>, at: int) -> int {
    d[at] as int + d[at + 1] as int * 0x100 + d[at + 2] as int * 0x10000 + d[at + 3] as int * 0x1000000
        + d[at + 4] as int * 0x100000000 + d[at + 5] as int * 0x10000000000
        + d[at + 6] as int * 0x1000000000000 + d[at + 7] as int * 0x100000000000000
}

/// Reads the little-endian 8-byte integer at `at`.
fn read_le_u64(d: &Vec<u8>, at: usize) -> (r: u64)
    requires
        at + 8 <= d@.len(),
    ensures
        r as int == le_u64(d@, at as int),
{
    let len = d.len();
    assert(at + 8 <= len);
    d[at] as u64 + d[at + 1] as u64 * 0x100 + d[at + 2] as u64 * 0x10000 + d[at + 3] as u64 * 0x1000000
        + d[at + 4] as u64 * 0x100000000 + d[at + 5] as u64 * 0x10000000000
        + d[at + 6] as u64 * 0x1000000000000 + d[at + 7] as u64 * 0x100000000000000
}

/// Whether a complete record starts at `off`: its header and its terminated
/// name lie inside the valid region, and it is longer than its header.
pub open spec fn record_ok(d: Seq<u8>, off: int) -> bool {
    &&& 0 <= off
    &&& off + (NAME_AT as int) < d.len()
    &&& rec_len(d, off) > NAME_AT as int
    &&& off + rec_len(d, off) <= d.len()
    &&& nul_from(d, off + NAME_AT as int, off + rec_len(d, off)) < off + rec_len(d, off)
}

/// What one directory record says, with the full path of the entry.
pub struct EntryView {
    pub inode: int,
    pub next_offset: int,
    pub filetype: u8,
    pub name: Seq<u8>,
    pub path: Seq<u8>,
}

/// The record at `off` of a page read from directory `base`.
pub open spec fn record_at(d: Seq<u8>, base: Seq<u8>, off: int) -> EntryView {
    let name = d.subrange(off + NAME_AT as int, nul_from(d, off + NAME_AT as int, off + rec_len(d, off)));
    EntryView {
        inode: le_u64(d, off),
        next_offset: le_u64(d, off + 8),
        filetype: d[off + TYPE_AT as int],
        name: name,
        path: joined(base, name),
    }
}

/// The records of a page from `off` on, up to the end of the valid region or
/// the first incomplete record.
pub open spec fn entries_from(d: Seq<u8>, base: Seq<u8>, off: int) -> Seq<EntryView>
    decreases d.len() - off,
{
    if record_ok(d, off) {
        seq![record_at(d, base, off)] + entries_from(d, base, off + rec_len(d, off))
    } else {
        Seq::empty()
    }
}

/// One directory record, copied out of its page.
pub struct Dirent {
    pub inode: u64,
    pub next_offset: u64,
    pub filetype: u8,
    pub name: Vec<u8>,
    pub path: PString,
}

impl Dirent {
    pub open spec fn view(&self) -> EntryView {
        EntryView {
            inode: self.inode as int,
            next_offset: self.next_offset as int,
            filetype: self.filetype,
            name: self.name@,
            path: self.path@,
        }
    }

    /// Whether the entry is `.` or `..`, which the walk skips.
    pub fn is_dot_entry(&self) -> (r: bool)
        ensures
            r == is_dot_name(self.name@),
    {
        let n = self.name.len();
        if n == 1 {
            let r = self.name[0] == 0x2eu8;
            proof {
                if r {
                    assert(self.name@ =~= seq![0x2eu8]);
                }
            }
            r
        } else if n == 2 {
            let r = self.name[0] == 0x2eu8 && self.name[1] == 0x2eu8;
            proof {
                if r {
                    assert(self.name@ =~= seq![0x2eu8, 0x2eu8]);
                }
            }
            r
        } else {
            false
        }
    }
}

/// Whether a file name is `.` or `..`.
pub open spec fn is_dot_name(name: Seq<u8>) -> bool {
    name == seq![0x2eu8] || name == seq![0x2eu8, 0x2eu8]
}

/// The raw output of one directory read, with the directory it came from and a
/// cursor at the next unclaimed record.
pub struct DirentPage {
    basedir: PString,
    data: Vec<u8>,
    cursor: usize,
}

impl DirentPage {
    /// The records not yet handed out.
    pub closed spec fn remaining(&self) -> Seq<EntryView> {
        entries_from(self.data@, self.basedir@, self.cursor as int)
    }

    /// The valid bytes of the page.
    pub closed spec fn bytes(&self) -> Seq<u8> {
        self.data@
    }

    /// A page holding the bytes that one directory read filled, or `None` where
    /// the read filled none: the directory has no more entries.
    pub fn new(data: Vec<u8>, basedir: PString) -> (r: Option<DirentPage>)
        ensures
            data@.len() == 0 <==> r is None,
            r matches Some(p) ==> p.remaining() == entries_from(data@, basedir@, 0) && p.bytes() == data@,
    {
        if data.len() == 0 {
            None
        } else {
            Some(DirentPage { basedir, data, cursor: 0 })
        }
    }

    /// The number of valid bytes in the page.
    pub fn size(&self) -> (r: usize)
        ensures
            r == self.bytes().len(),
    {
        self.data.len()
    }

    /// Claims the next record, or returns `None` when none is left.
    pub fn advance(&mut self) -> (r: Option<Dirent>)
        ensures
            old(self).remaining().len() == 0 ==> r is None && final(self).remaining() == old(self).remaining(),
            old(self).remaining().len() > 0 ==> (r matches Some(e) && e.view() == old(self).remaining()[0]),
            old(self).remaining().len() > 0 ==> final(self).remaining() == old(self).remaining().drop_first(),
    {
        let ghost d = self.data@;
        let ghost base = self.basedir@;
        let c = self.cursor;
        let n = self.data.len();
        if c >= n || n - c <= NAME_AT {
            return None;
        }
        let len = self.data[c + RECLEN_AT] as usize + self.data[c + RECLEN_AT + 1] as usize * 256;
        if len <= NAME_AT || len > n - c {
            return None;
        }
        let end = c + len;
        let mut i = c + NAME_AT;
        while i < end && self.data[i] != 0u8
            invariant
                c + NAME_AT <= i <= end,
                end <= n,
                n == d.len(),
                d == self.data@,
                nul_from(d, c + NAME_AT as int, end as int) == nul_from(d, i as int, end as int),
            decreases end - i,
        {
            i = i + 1;
        }
        if i == end {
            return None;
        }
        let mut name: Vec<u8> = Vec::new();
        let mut j = c + NAME_AT;
        while j < i
            invariant
                c + NAME_AT <= j <= i,
                i < end <= n,
                n == d.len(),
                d == self.data@,
                name@ == d.subrange(c + NAME_AT as int, j as int),
            decreases i - j,
        {
            name.push(self.data[j]);
            j = j + 1;
        }
        let path = self.basedir.append_path(name.as_slice());
        self.cursor = end;
        let inode = read_le_u64(&self.data, c);
        let next_offset = read_le_u64(&self.data, c + 8);
        Some(Dirent { inode, next_offset, filetype: self.data[c + TYPE_AT], name, path })
    }
}

} // verus!
