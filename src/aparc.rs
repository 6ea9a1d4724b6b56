use vstd::prelude::*;

use std::sync::Arc;

verus! {

/// Relies on `Arc::clone`: a second handle to the same shared value.
#[verifier::external_body]
fn arc_clone<T>(a: &Arc<T>) -> (r: Arc<T>)
    ensures
        r == *a,
{
    Arc::clone(a)
}

/// Relies on `Arc::ptr_eq`: two handles to one allocation see one value.
#[verifier::external_body]
fn arc_ptr_eq<T>(a: &Arc<T>, b: &Arc<T>) -> (r: bool)
    ensures
        r ==> *a == *b,
{
    Arc::ptr_eq(a, b)
}

/// A slot that holds a shared value or nothing. Callers that share it between
/// threads put it behind a lock.
pub struct APArc<T> {
    slot: Option<Arc<T>>,
}

impl<T> View for APArc<T> {
    type V = Option<T>;

    closed spec fn view(&self) -> Option<T> {
        match self.slot {
            Some(a) => Some(*a),
            None => None,
        }
    }
}

impl<T> APArc<T> {
    /// An empty slot.
    pub fn new() -> (r: APArc<T>)
        ensures
            r@ is None,
    {
        APArc { slot: None }
    }

    /// Fills an empty slot with `arc`; a filled slot is left as it is, and a
    /// handle to what it holds comes back.
    pub fn swap_null(&mut self, arc: Arc<T>) -> (r: Result<(), Arc<T>>)
        ensures
            old(self)@ is None ==> r is Ok && final(self)@ == Some(*arc),
            old(self)@ matches Some(v) ==> (r matches Err(a) && *a == v) && final(self)@ == old(self)@,
    {
        match &self.slot {
            Some(a) => Err(arc_clone(a)),
            None => {
                self.slot = Some(arc);
                Ok(())
            },
        }
    }

    /// A handle to the value held, if any.
    pub fn load(&self) -> (r: Option<Arc<T>>)
        ensures
            self@ is None ==> r is None,
            self@ matches Some(v) ==> (r matches Some(a) && *a == v),
    {
        match &self.slot {
            Some(a) => Some(arc_clone(a)),
            None => None,
        }
    }

    /// Puts `arc` in the slot, whatever it held.
    pub fn store(&mut self, arc: Arc<T>)
        ensures
            final(self)@ == Some(*arc),
    {
        self.slot = Some(arc);
    }

    /// Replaces the value held by `new` where the slot holds the allocation of
    /// `current`; otherwise leaves the slot as it is.
    pub fn swap_existing(&mut self, current: Arc<T>, new: Arc<T>) -> (r: bool)
        ensures
            r ==> old(self)@ == Some(*current) && final(self)@ == Some(*new),
            !r ==> final(self)@ == old(self)@,
    {
        let same = match &self.slot {
            Some(a) => arc_ptr_eq(a, &current),
            None => false,
        };
        if same {
            self.slot = Some(new);
        }
        same
    }

    /// Empties the slot where it holds the allocation of `current`; otherwise
    /// leaves it as it is.
    pub fn clear_existing(&mut self, current: Arc<T>) -> (r: bool)
        ensures
            r ==> old(self)@ == Some(*current) && final(self)@ is None,
            !r ==> final(self)@ == old(self)@,
    {
        let same = match &self.slot {
            Some(a) => arc_ptr_eq(a, &current),
            None => false,
        };
        if same {
            self.slot = None;
        }
        same
    }

    /// Empties the slot.
    pub fn clear(&mut self)
        ensures
            final(self)@ is None,
    {
        self.slot = None;
    }
}

} // verus!
