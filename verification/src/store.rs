//! The value store: an arena standing for the heap.
//!
//! Every owned value lives in a slot of a `Store`; a slot index plays the
//! role of the value's address. Slots whose value has been reclaimed are kept
//! on a free list and reused, so an address may be handed out again later —
//! the generation protocol, not the address, decides whether a weak handle
//! may still resolve.

use vstd::prelude::*;

verus! {

/// Arena of optional values. A slot index is the model of an address.
pub struct Store<T> {
    slots: Vec<Option<T>>,
    freed: Vec<usize>,
}

impl<T> Store<T> {
    /// The slots, as a sequence of optional values.
    pub closed spec fn view(self) -> Seq<Option<T>> {
        self.slots@
    }

    /// Number of slots ever created.
    pub open spec fn n_slots(self) -> nat {
        self.view().len()
    }

    /// `addr` names a slot.
    pub open spec fn valid_addr(self, addr: usize) -> bool {
        addr < self.n_slots()
    }

    /// `addr` names a slot that currently holds `t`.
    pub open spec fn holds(self, addr: usize, t: T) -> bool {
        self.valid_addr(addr) && self.view()[addr as int] == Some(t)
    }

    /// Internal consistency: the free list names empty slots, each at most once.
    pub closed spec fn wf(self) -> bool {
        &&& self.freed@.no_duplicates()
        &&& forall|i: int|
            0 <= i < self.freed@.len() ==> (#[trigger] self.freed@[i]) < self.slots@.len()
                && self.slots@[self.freed@[i] as int] is None
    }

    /// An empty store.
    pub fn new() -> (s: Store<T>)
        ensures
            s.wf(),
            s.n_slots() == 0,
    {
        Store { slots: Vec::new(), freed: Vec::new() }
    }

    /// Place a value into an empty slot and return its address.
    ///
    /// Only a previously empty slot is written; every other slot keeps its
    /// contents, so addresses held by others stay meaningful.
    pub fn insert(&mut self, t: T) -> (addr: usize)
        requires
            old(self).wf(),
        ensures
            final(self).wf(),
            final(self).holds(addr, t),
            old(self).valid_addr(addr) ==> old(self)@[addr as int] is None,
            old(self).n_slots() <= final(self).n_slots(),
            forall|a: int|
                0 <= a < old(self).n_slots() && a != addr ==> final(self)@[a] == old(self)@[a],
    {
        match self.freed.pop() {
            Some(addr) => {
                self.slots[addr] = Some(t);
                addr
            }
            None => {
                let addr = self.slots.len();
                self.slots.push(Some(t));
                addr
            }
        }
    }

    /// Take the value out of a full slot, leaving the slot empty and free
    /// for reuse.
    pub fn take(&mut self, addr: usize) -> (t: T)
        requires
            old(self).wf(),
            old(self).valid_addr(addr),
            old(self)@[addr as int] is Some,
        ensures
            final(self).wf(),
            old(self)@[addr as int] == Some(t),
            final(self).n_slots() == old(self).n_slots(),
            final(self)@[addr as int] is None,
            forall|a: int|
                0 <= a < old(self).n_slots() && a != addr ==> final(self)@[a] == old(self)@[a],
    {
        let slot = &mut self.slots[addr];
        let t = slot.take();
        proof {
            assert(forall|i: int|
                0 <= i < self.freed@.len() ==> (#[trigger] self.freed@[i]) != addr);
        }
        self.freed.push(addr);
        t.unwrap()
    }

    /// Read the slot at `addr`; an address beyond the arena reads as empty.
    pub fn read(&self, addr: usize) -> (r: Option<&T>)
        ensures
            match r {
                Some(t) => self.holds(addr, *t),
                None => addr >= self.n_slots() || self@[addr as int] is None,
            },
    {
        if addr < self.slots.len() {
            self.slots[addr].as_ref()
        } else {
            None
        }
    }
}

} // verus!
