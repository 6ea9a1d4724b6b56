use vstd::prelude::*;

use std::collections::VecDeque;

use crate::dirent::{entries_from, Dirent, DirentPage, EntryView, PAGE_LEN};
use crate::error::Error;
use crate::pstring::PString;

verus! {

/// A directory read that fills less than this many bytes very likely returned
/// the directory's final batch: three quarters of a page.
pub const END_EARLY_LEN: usize = PAGE_LEN / 4 * 3;

/// The records of `pages` not yet handed out, page after page.
pub open spec fn pending_of(pages: Seq<DirentPage>) -> Seq<EntryView>
    decreases pages.len(),
{
    if pages.len() == 0 {
        Seq::empty()
    } else {
        pages[0].remaining() + pending_of(pages.drop_first())
    }
}

proof fn lemma_pending_push(pages: Seq<DirentPage>, p: DirentPage)
    ensures
        pending_of(pages.push(p)) == pending_of(pages) + p.remaining(),
    decreases pages.len(),
{
    if pages.len() == 0 {
        assert(pages.push(p).drop_first() =~= Seq::<DirentPage>::empty());
        assert(pending_of(Seq::<DirentPage>::empty()) =~= Seq::<EntryView>::empty());
        assert(pending_of(pages.push(p)) =~= p.remaining() + pending_of(Seq::<DirentPage>::empty()));
        assert(pending_of(pages.push(p)) =~= p.remaining());
    } else {
        assert(pages.push(p).drop_first() =~= pages.drop_first().push(p));
        lemma_pending_push(pages.drop_first(), p);
        assert(pending_of(pages.push(p)) =~= pending_of(pages) + p.remaining());
    }
}

/// A first-in first-out queue of directory-entry pages that hands out one
/// record at a time.
pub struct Queue {
    pages: VecDeque<DirentPage>,
}

impl Queue {
    /// The records not yet handed out, in the order they will come.
    pub closed spec fn pending(&self) -> Seq<EntryView> {
        pending_of(self.pages@)
    }

    /// A queue seeded with the first read of the root directory, which must
    /// have filled some bytes.
    pub fn new_with_folder(first: Vec<u8>, path: PString) -> (r: Result<Queue, Error>)
        ensures
            first@.len() == 0 <==> r is Err,
            r matches Err(e) ==> e == Error::EmptyDirectory,
            r matches Ok(q) ==> q.pending() == entries_from(first@, path@, 0),
    {
        match DirentPage::new(first, path) {
            None => Err(Error::EmptyDirectory),
            Some(page) => {
                let mut pages: VecDeque<DirentPage> = VecDeque::new();
                pages.push_back(page);
                proof {
                    assert(pages@ =~= Seq::<DirentPage>::empty().push(page));
                    lemma_pending_push(Seq::empty(), page);
                    assert(pending_of(Seq::<DirentPage>::empty()) =~= Seq::<EntryView>::empty());
                    assert(pending_of(pages@) =~= page.remaining());
                }
                Ok(Queue { pages })
            },
        }
    }

    /// Appends a page at the tail.
    pub fn add_node(&mut self, page: DirentPage)
        ensures
            final(self).pending() == old(self).pending() + page.remaining(),
    {
        proof {
            lemma_pending_push(self.pages@, page);
        }
        self.pages.push_back(page);
    }

    /// Appends the bytes of one further read of directory `path`, and says
    /// whether to read that directory again: not after an empty read, nor after
    /// one that filled less than three quarters of a page.
    pub fn add_folder(&mut self, data: Vec<u8>, path: PString) -> (more: bool)
        ensures
            more == (data@.len() >= END_EARLY_LEN),
            final(self).pending() == old(self).pending() + entries_from(data@, path@, 0),
    {
        let n = data.len();
        match DirentPage::new(data, path) {
            None => {
                proof {
                    assert(entries_from(data@, path@, 0) =~= Seq::<EntryView>::empty());
                    assert(self.pending() + Seq::<EntryView>::empty() =~= self.pending());
                }
                false
            },
            Some(page) => {
                self.add_node(page);
                n >= END_EARLY_LEN
            },
        }
    }

    /// Hands out the next record, moving past exhausted pages; `None` only when
    /// no record is left.
    pub fn advance(&mut self) -> (r: Option<Dirent>)
        ensures
            old(self).pending().len() == 0 ==> r is None && final(self).pending().len() == 0,
            old(self).pending().len() > 0 ==> (r matches Some(e) && e.view() == old(self).pending()[0]),
            old(self).pending().len() > 0 ==> final(self).pending() == old(self).pending().drop_first(),
    {
        let ghost start = self.pending();
        while self.pages.len() > 0
            invariant
                self.pending() == start,
                start == old(self).pending(),
            decreases self.pages@.len(),
        {
            let ghost ps = self.pages@;
            let mut page = self.pages.pop_front().unwrap();
            assert(self.pages@ =~= ps.drop_first());
            let ghost before = page;
            assert(before == ps[0]);
            let r = page.advance();
            match r {
                Some(e) => {
                    self.pages.push_front(page);
                    proof {
                        assert(self.pages@.drop_first() =~= ps.drop_first());
                        assert(start =~= ps[0].remaining() + pending_of(ps.drop_first()));
                        assert(before.remaining().len() > 0);
                        assert(start[0] == before.remaining()[0]);
                        assert(self.pages@[0] == page);
                        assert(self.pending() == page.remaining() + pending_of(ps.drop_first()));
                        assert(self.pending() =~= start.drop_first());
                    }
                    return Some(e);
                },
                None => {
                    if self.pages.len() == 0 {
                        self.pages.push_front(page);
                        proof {
                            assert(before.remaining().len() == 0);
                            assert(page.remaining() == before.remaining());
                            assert(ps.drop_first() =~= Seq::<DirentPage>::empty());
                            assert(start =~= ps[0].remaining() + pending_of(ps.drop_first()));
                            assert(self.pages@.drop_first() =~= Seq::<DirentPage>::empty());
                            assert(pending_of(Seq::<DirentPage>::empty()) =~= Seq::<EntryView>::empty());
                            assert(self.pending() =~= start);
                        }
                        return None;
                    }
                    proof {
                        assert(start =~= ps[0].remaining() + pending_of(ps.drop_first()));
                    }
                },
            }
        }
        None
    }
}

} // verus!
