//! The owning and weak handles, and the kill protocol that links them.
//!
//! An [`Own`] is the unique, move-only owner of one stored value; it is bound
//! to one generation-counter cell, at the generation the cell had when the
//! owner was created. Any number of copyable [`Ref`]s derived from it carry
//! the same cell, expected generation and address. Killing the owner advances
//! the cell's generation exactly once — every such weak handle goes dead at
//! that instant and stays dead forever — and hands the value's destructor to
//! the reclamation service.

use crate::epoch::{defer_drop, pin};
use crate::recycler::{Recycler, BLOCK_SIZE};
use crate::store::Store;
use core::marker::PhantomData;
use crossbeam_epoch::Guard;
use vstd::prelude::*;

verus! {

/// The pointer capability contract: what an owning pointer kind must provide
/// to be wrapped by [`Own`].
///
/// A pointer is consumed into the bare value it owns — without running its
/// destructor — and can be rebuilt from that value exactly once, which is how
/// the kill protocol obtains the destruction action it defers.
pub trait IsPtr: Sized {
    /// The owned value handed to the store.
    type T;

    /// What the pointer owns.
    spec fn pointee(self) -> Self::T;

    /// Consume the pointer, yielding the owned value.
    fn into_raw_ptr(this: Self) -> (t: Self::T)
        ensures
            t == this.pointee(),
    ;

    /// Rebuild an owning pointer around a value previously produced by
    /// [`IsPtr::into_raw_ptr`]; used to run the destructor.
    fn from_raw_ptr(t: Self::T) -> (this: Self)
        ensures
            this.pointee() == t,
    ;
}

impl<T> IsPtr for Box<T> {
    type T = T;

    open spec fn pointee(self) -> T {
        *self
    }

    fn into_raw_ptr(this: Self) -> (t: T) {
        *this
    }

    fn from_raw_ptr(t: T) -> (this: Self) {
        Box::new(t)
    }
}

/// A shared pointer participates whole: the stored value is the shared
/// pointer itself, and killing the owner drops one strong count. The same
/// holds for the owning kinds below whose pointee is unsized — the store
/// holds the owner itself.
impl<T> IsPtr for std::sync::Arc<T> {
    type T = std::sync::Arc<T>;

    open spec fn pointee(self) -> std::sync::Arc<T> {
        self
    }

    fn into_raw_ptr(this: Self) -> (t: std::sync::Arc<T>) {
        this
    }

    fn from_raw_ptr(t: std::sync::Arc<T>) -> (this: Self) {
        t
    }
}

impl IsPtr for String {
    type T = String;

    open spec fn pointee(self) -> String {
        self
    }

    fn into_raw_ptr(this: Self) -> (t: String) {
        this
    }

    fn from_raw_ptr(t: String) -> (this: Self) {
        t
    }
}

impl<T> IsPtr for Vec<T> {
    type T = Vec<T>;

    open spec fn pointee(self) -> Vec<T> {
        self
    }

    fn into_raw_ptr(this: Self) -> (t: Vec<T>) {
        this
    }

    fn from_raw_ptr(t: Vec<T>) -> (this: Self) {
        t
    }
}

impl IsPtr for () {
    type T = ();

    open spec fn pointee(self) -> () {
        ()
    }

    fn into_raw_ptr(this: Self) -> (t: ()) {
        ()
    }

    fn from_raw_ptr(t: ()) -> (this: Self) {
        ()
    }
}

/// Weak handle: a copyable capability that can check, at any later time,
/// whether the owner's value is still alive, and resolve it if so.
pub struct Ref<T> {
    cell: usize,
    gen: u64,
    addr: Option<usize>,
    _t: PhantomData<T>,
}

impl<T> Clone for Ref<T> {
    fn clone(&self) -> (r: Self)
        ensures
            r == *self,
    {
        Ref { cell: self.cell, gen: self.gen, addr: self.addr, _t: PhantomData }
    }
}

impl<T> Copy for Ref<T> {}

impl<T> Ref<T> {
    /// The generation-counter cell this handle watches.
    pub closed spec fn cell_id(self) -> usize {
        self.cell
    }

    /// The generation captured when the handle was created; the handle is
    /// live exactly while the cell still holds it.
    pub closed spec fn expected_gen(self) -> u64 {
        self.gen
    }

    /// The address of the value, absent for the null handle and for
    /// projections made from a dead handle.
    pub closed spec fn address(self) -> Option<usize> {
        self.addr
    }

    /// The handle's cell exists and its captured generation has not been
    /// overtaken from below: the cell's current generation is at or past it.
    /// Every handle the library hands out satisfies this, and it is kept by
    /// every evolution of the recycler.
    pub open spec fn wf_in(self, rec: Recycler) -> bool {
        &&& self.cell_id() < rec.n_cells()
        &&& self.expected_gen() <= rec.gen_of(self.cell_id() as int)
    }

    /// The handle's address, if any, names a slot of `store`.
    pub open spec fn addr_ok(self, store: Store<T>) -> bool {
        match self.address() {
            Some(a) => a < store.n_slots(),
            None => true,
        }
    }

    /// Liveness: the cell still holds the captured generation.
    pub open spec fn live(self, rec: Recycler) -> bool {
        &&& self.cell_id() < rec.n_cells()
        &&& rec.gen_of(self.cell_id() as int) == self.expected_gen()
    }

    /// Exactly what [`Ref::get`] returns: the stored value, provided the
    /// handle is live and carries an address whose slot is full.
    pub open spec fn get_spec(self, rec: Recycler, store: Store<T>) -> Option<T> {
        if self.live(rec) {
            match self.address() {
                Some(a) => if a < store.n_slots() {
                    store@[a as int]
                } else {
                    None
                },
                None => None,
            }
        } else {
            None
        }
    }

    /// Check whether the owner is still alive; if so, resolve the borrow.
    ///
    /// The pin token keeps deferred destructions from running for as long as
    /// it is held, which is what makes the returned borrow safe to use.
    pub fn get<'a>(&self, _guard: &Guard, rec: &Recycler, store: &'a Store<T>) -> (r: Option<
        &'a T,
    >)
        ensures
            match r {
                Some(t) => self.get_spec(*rec, *store) == Some(*t),
                None => self.get_spec(*rec, *store) is None,
            },
    {
        if self.cell >= rec.cell_count() {
            return None;
        }
        let current: u64 = rec.load(self.cell);
        if current == self.gen {
            match self.addr {
                Some(a) => store.read(a),
                None => None,
            }
        } else {
            None
        }
    }

    /// Best-effort liveness check: true means the owner was alive at the
    /// moment the generation was read.
    pub fn is_alive(&self, rec: &Recycler) -> (r: bool)
        ensures
            r == self.live(*rec),
    {
        self.cell < rec.cell_count() && rec.load(self.cell) == self.gen
    }

    /// Pin the current thread and, if the owner is alive, apply `func` to
    /// the borrow and return its result — for call sites that do not
    /// already hold a pin token.
    pub fn inspect<O, F: FnOnce(&T) -> O>(self, func: F, rec: &Recycler, store: &Store<T>) -> (r:
        Option<O>)
        requires
            forall|t: &T| self.get_spec(*rec, *store) == Some(*t) ==> call_requires(func, (t,)),
        ensures
            r is Some <==> self.get_spec(*rec, *store) is Some,
            r matches Some(o) ==> call_ensures(
                func,
                (&self.get_spec(*rec, *store).unwrap(),),
                o,
            ),
    {
        let guard = pin();
        match self.get(&guard, rec, store) {
            Some(t) => {
                let o = func(t);
                proof {
                    assert(*t == self.get_spec(*rec, *store).unwrap() && call_ensures(
                        func,
                        (t,),
                        o,
                    ));
                }
                Some(o)
            }
            None => None,
        }
    }

    /// Produce a new weak handle tied to this one: it shares the cell and
    /// expected generation, and its address holds the projection of the
    /// current value — or no address at all if this handle is already dead.
    ///
    /// The projected value is captured into its own slot of `out` at
    /// projection time; its liveness stays gated by the shared cell.
    pub fn map<R, F: FnOnce(&T) -> R>(
        self,
        func: F,
        rec: &Recycler,
        store: &Store<T>,
        out: &mut Store<R>,
    ) -> (r: Ref<R>)
        requires
            old(out).wf(),
            forall|t: &T| self.get_spec(*rec, *store) == Some(*t) ==> call_requires(func, (t,)),
        ensures
            final(out).wf(),
            old(out).n_slots() <= final(out).n_slots(),
            r.cell_id() == self.cell_id(),
            r.expected_gen() == self.expected_gen(),
            r.addr_ok(*final(out)),
            forall|a: int|
                0 <= a < old(out).n_slots() && (match r.address() {
                    Some(na) => a != na,
                    None => true,
                }) ==> final(out)@[a] == old(out)@[a],
            self.get_spec(*rec, *store) is None ==> r.address() is None && *final(out) == *old(out),
            self.get_spec(*rec, *store) matches Some(v) ==> r.get_spec(*rec, *final(out)) is Some
                && call_ensures(func, (&v,), r.get_spec(*rec, *final(out)).unwrap()),
    {
        let guard = pin();
        self.map_with(func, &guard, rec, store, out)
    }

    /// Like [`Ref::map`], but cheaper when a pin token is already at hand.
    pub fn map_with<R, F: FnOnce(&T) -> R>(
        &self,
        func: F,
        guard: &Guard,
        rec: &Recycler,
        store: &Store<T>,
        out: &mut Store<R>,
    ) -> (r: Ref<R>)
        requires
            old(out).wf(),
            forall|t: &T| self.get_spec(*rec, *store) == Some(*t) ==> call_requires(func, (t,)),
        ensures
            final(out).wf(),
            old(out).n_slots() <= final(out).n_slots(),
            r.cell_id() == self.cell_id(),
            r.expected_gen() == self.expected_gen(),
            r.addr_ok(*final(out)),
            forall|a: int|
                0 <= a < old(out).n_slots() && (match r.address() {
                    Some(na) => a != na,
                    None => true,
                }) ==> final(out)@[a] == old(out)@[a],
            self.get_spec(*rec, *store) is None ==> r.address() is None && *final(out) == *old(out),
            self.get_spec(*rec, *store) matches Some(v) ==> r.get_spec(*rec, *final(out)) is Some
                && call_ensures(func, (&v,), r.get_spec(*rec, *final(out)).unwrap()),
    {
        match self.get(guard, rec, store) {
            Some(t) => {
                let p = func(t);
                let a: usize = out.insert(p);
                Ref { cell: self.cell, gen: self.gen, addr: Some(a), _t: PhantomData }
            }
            None => Ref { cell: self.cell, gen: self.gen, addr: None, _t: PhantomData },
        }
    }

    /// Like [`Ref::map`], but the projection may itself decline: if it
    /// returns nothing, the produced handle carries no address and its
    /// lookups return nothing forever, even though this handle was alive at
    /// call time.
    pub fn filter_map<R, F: FnOnce(&T) -> Option<R>>(
        self,
        func: F,
        rec: &Recycler,
        store: &Store<T>,
        out: &mut Store<R>,
    ) -> (r: Ref<R>)
        requires
            old(out).wf(),
            forall|t: &T| self.get_spec(*rec, *store) == Some(*t) ==> call_requires(func, (t,)),
        ensures
            final(out).wf(),
            old(out).n_slots() <= final(out).n_slots(),
            r.cell_id() == self.cell_id(),
            r.expected_gen() == self.expected_gen(),
            r.addr_ok(*final(out)),
            forall|a: int|
                0 <= a < old(out).n_slots() && (match r.address() {
                    Some(na) => a != na,
                    None => true,
                }) ==> final(out)@[a] == old(out)@[a],
            self.get_spec(*rec, *store) is None ==> r.address() is None && *final(out) == *old(out),
            self.get_spec(*rec, *store) matches Some(v) ==> match r.address() {
                Some(_) => r.get_spec(*rec, *final(out)) is Some && call_ensures(
                    func,
                    (&v,),
                    Some(r.get_spec(*rec, *final(out)).unwrap()),
                ),
                None => call_ensures(func, (&v,), None::<R>) && *final(out) == *old(out),
            },
    {
        let guard = pin();
        self.filter_map_with(func, &guard, rec, store, out)
    }

    /// Like [`Ref::filter_map`], but cheaper when a pin token is already at
    /// hand.
    pub fn filter_map_with<R, F: FnOnce(&T) -> Option<R>>(
        &self,
        func: F,
        guard: &Guard,
        rec: &Recycler,
        store: &Store<T>,
        out: &mut Store<R>,
    ) -> (r: Ref<R>)
        requires
            old(out).wf(),
            forall|t: &T| self.get_spec(*rec, *store) == Some(*t) ==> call_requires(func, (t,)),
        ensures
            final(out).wf(),
            old(out).n_slots() <= final(out).n_slots(),
            r.cell_id() == self.cell_id(),
            r.expected_gen() == self.expected_gen(),
            r.addr_ok(*final(out)),
            forall|a: int|
                0 <= a < old(out).n_slots() && (match r.address() {
                    Some(na) => a != na,
                    None => true,
                }) ==> final(out)@[a] == old(out)@[a],
            self.get_spec(*rec, *store) is None ==> r.address() is None && *final(out) == *old(out),
            self.get_spec(*rec, *store) matches Some(v) ==> match r.address() {
                Some(_) => r.get_spec(*rec, *final(out)) is Some && call_ensures(
                    func,
                    (&v,),
                    Some(r.get_spec(*rec, *final(out)).unwrap()),
                ),
                None => call_ensures(func, (&v,), None::<R>) && *final(out) == *old(out),
            },
    {
        match self.get(guard, rec, store) {
            Some(t) => {
                match func(t) {
                    Some(p) => {
                        let a: usize = out.insert(p);
                        Ref { cell: self.cell, gen: self.gen, addr: Some(a), _t: PhantomData }
                    }
                    None => Ref { cell: self.cell, gen: self.gen, addr: None, _t: PhantomData },
                }
            }
            None => Ref { cell: self.cell, gen: self.gen, addr: None, _t: PhantomData },
        }
    }

    /// Whether the handle carries no address at all; independent of
    /// liveness.
    pub fn is_null(&self) -> (r: bool)
        ensures
            r == (self.address() is None),
    {
        self.addr.is_none()
    }

    /// The permanently dead handle: it watches the reserved retired cell at
    /// an expected generation the cell left behind forever, and carries no
    /// address.
    pub fn null() -> (r: Ref<T>)
        ensures
            r == Ref::<T>::null_spec(),
            r.cell_id() == 0,
            r.expected_gen() == 0,
            r.address() is None,
    {
        Ref { cell: 0, gen: 0, addr: None, _t: PhantomData }
    }

    /// The value [`Ref::null`] returns.
    pub closed spec fn null_spec() -> Ref<T> {
        Ref { cell: 0, gen: 0, addr: None, _t: PhantomData }
    }
}

/// Owning handle: the unique owner of one stored value.
pub struct Own<P: IsPtr> {
    weak: Ref<P::T>,
}

impl<P: IsPtr + Send + 'static> Own<P> {
    /// The weak handle sharing this owner's cell, generation and address.
    pub closed spec fn weak_ref(self) -> Ref<P::T> {
        self.weak
    }

    /// The owner's binding, with respect to the recycler: its cell is bound
    /// to it at exactly the captured generation, with room to advance.
    pub open spec fn bound_in(self, rec: Recycler) -> bool {
        &&& rec.live_set().contains(self.weak_ref().cell_id())
        &&& self.weak_ref().cell_id() < rec.n_cells()
        &&& rec.gen_of(self.weak_ref().cell_id() as int) == self.weak_ref().expected_gen()
        &&& self.weak_ref().expected_gen() < u64::MAX
    }

    /// The owner's value, with respect to the store: its address names a
    /// full slot.
    pub open spec fn backed_by(self, store: Store<P::T>) -> bool {
        &&& self.weak_ref().address() is Some
        &&& self.weak_ref().address().unwrap() < store.n_slots()
        &&& store@[self.weak_ref().address().unwrap() as int] is Some
    }

    /// The owner's full well-formedness.
    pub open spec fn wf_in(self, rec: Recycler, store: Store<P::T>) -> bool {
        self.bound_in(rec) && self.backed_by(store)
    }

    /// The owned value.
    pub open spec fn value(self, store: Store<P::T>) -> P::T {
        store@[self.weak_ref().address().unwrap() as int].unwrap()
    }

    /// Wrap a value: acquire a counter cell, record its current generation
    /// as the expected generation, and store the value.
    ///
    /// Immediately afterwards the derived weak handle resolves to exactly
    /// the wrapped value.
    pub fn new(ptr: P, rec: &mut Recycler, store: &mut Store<P::T>) -> (o: Own<P>)
        requires
            old(rec).wf(),
            old(store).wf(),
        ensures
            final(rec).wf(),
            final(store).wf(),
            old(rec).evolves_to(*final(rec)),
            o.wf_in(*final(rec), *final(store)),
            o.value(*final(store)) == ptr.pointee(),
            o.weak_ref().get_spec(*final(rec), *final(store)) == Some(ptr.pointee()),
            !old(rec).live_set().contains(o.weak_ref().cell_id()),
            final(rec).live_set() == old(rec).live_set().insert(o.weak_ref().cell_id()),
            forall|i: int|
                0 <= i < old(rec).n_cells() ==> final(rec).gen_of(i) == old(rec).gen_of(i),
            old(store).n_slots() <= final(store).n_slots(),
            old(store).valid_addr(o.weak_ref().address().unwrap()) ==> old(store)@[o.weak_ref().address().unwrap() as int] is None,
            forall|a: int|
                0 <= a < old(store).n_slots() && a != o.weak_ref().address().unwrap() ==> final(store)@[a] == old(store)@[a],
            old(rec).cache().len() > 0 ==> final(rec).n_cells() == old(rec).n_cells() && final(rec).cache() == old(rec).cache().drop_last() && final(rec).blocks() == old(rec).blocks(),
            old(rec).cache().len() == 0 && old(rec).blocks().len() > 0 ==> final(rec).n_cells()
                == old(rec).n_cells() && final(rec).cache().len() == (BLOCK_SIZE - 1) && final(rec).blocks() == old(rec).blocks().drop_first(),
            old(rec).cache().len() == 0 && old(rec).blocks().len() == 0 ==> final(rec).n_cells()
                == old(rec).n_cells() + BLOCK_SIZE && final(rec).cache().len() == (BLOCK_SIZE - 1)
                && final(rec).blocks() == old(rec).blocks() && o.weak_ref().expected_gen() == 0,
    {
        let t = P::into_raw_ptr(ptr);
        let addr: usize = store.insert(t);
        let cell: usize = rec.acquire();
        let gen: u64 = rec.load(cell);
        Own { weak: Ref { cell, gen, addr: Some(addr), _t: PhantomData } }
    }

    /// Wrap a value while killing an existing owner, reusing its counter
    /// cell directly — skipping the recycler — whenever the cell did not
    /// retire. Strictly cheaper than a separate creation and destruction,
    /// which would round-trip the cell through the free pools.
    pub fn new_from<R: IsPtr<T = P::T> + Send + 'static>(
        ptr: P,
        other: Own<R>,
        guard: &Guard,
        rec: &mut Recycler,
        store: &mut Store<P::T>,
    ) -> (o: Own<P>)
        requires
            old(rec).wf(),
            old(store).wf(),
            other.wf_in(*old(rec), *old(store)),
        ensures
            final(rec).wf(),
            final(store).wf(),
            old(rec).evolves_to(*final(rec)),
            o.wf_in(*final(rec), *final(store)),
            o.value(*final(store)) == ptr.pointee(),
            o.weak_ref().get_spec(*final(rec), *final(store)) == Some(ptr.pointee()),
            final(rec).gen_of(other.weak_ref().cell_id() as int) == other.weak_ref().expected_gen()
                + 1,
            !other.weak_ref().live(*final(rec)),
            other.weak_ref().get_spec(*final(rec), *final(store)) is None,
            forall|i: int|
                0 <= i < old(rec).n_cells() && i != other.weak_ref().cell_id() ==> final(rec).gen_of(i) == old(rec).gen_of(i),
            final(rec).live_set() == old(rec).live_set().remove(
                other.weak_ref().cell_id(),
            ).insert(o.weak_ref().cell_id()),
            other.weak_ref().expected_gen() + 1 < u64::MAX ==> o.weak_ref().cell_id()
                == other.weak_ref().cell_id() && o.weak_ref().expected_gen()
                == other.weak_ref().expected_gen() + 1 && final(rec).n_cells() == old(rec).n_cells() && final(rec).cache() == old(rec).cache() && final(rec).blocks() == old(rec).blocks(),
            old(store).n_slots() <= final(store).n_slots(),
            forall|a: int|
                0 <= a < old(store).n_slots() && a != other.weak_ref().address().unwrap() && a
                    != o.weak_ref().address().unwrap() ==> final(store)@[a] == old(store)@[a],
    {
        match other.kill(guard, rec, store) {
            Some(cell) => {
                let t = P::into_raw_ptr(ptr);
                let addr: usize = store.insert(t);
                let gen: u64 = rec.load(cell);
                rec.rebind(cell);
                Own { weak: Ref { cell, gen, addr: Some(addr), _t: PhantomData } }
            }
            None => Self::new(ptr, rec, store),
        }
    }

    /// Provide the weak handle.
    pub fn refer(&self) -> (r: Ref<P::T>)
        ensures
            r == self.weak_ref(),
    {
        self.weak
    }

    /// Borrow the owned value directly; the owner's existence proves it is
    /// alive.
    pub fn deref<'a>(&self, store: &'a Store<P::T>) -> (t: &'a P::T)
        requires
            self.backed_by(*store),
        ensures
            *t == self.value(*store),
    {
        store.read(self.weak.addr.unwrap()).unwrap()
    }

    /// The kill protocol: advance the cell's generation by one — ending
    /// every weak handle derived from this owner — vacate the value's slot,
    /// and defer the value's destruction through the reclamation service.
    ///
    /// Returns the cell for reuse, or nothing when the advanced generation
    /// reached the maximum and the cell is permanently retired. The caller
    /// decides whether the cell goes back to the recycler
    /// ([`Own::destroy`]) or is rebound at once ([`Own::new_from`]).
    ///
    /// The compare-and-set inside cannot fail: ownership is unique, so no
    /// second kill can race it — this is proved, not assumed.
    pub(crate) fn kill(self, guard: &Guard, rec: &mut Recycler, store: &mut Store<P::T>) -> (r: Option<
        usize,
    >)
        requires
            old(rec).wf(),
            old(store).wf(),
            self.wf_in(*old(rec), *old(store)),
        ensures
            final(rec).wf(),
            final(store).wf(),
            old(rec).evolves_to(*final(rec)),
            final(rec).n_cells() == old(rec).n_cells(),
            final(store).n_slots() == old(store).n_slots(),
            final(rec).gen_of(self.weak_ref().cell_id() as int) == self.weak_ref().expected_gen()
                + 1,
            forall|i: int|
                0 <= i < old(rec).n_cells() && i != self.weak_ref().cell_id() ==> final(rec).gen_of(i) == old(rec).gen_of(i),
            final(rec).live_set() == old(rec).live_set().remove(self.weak_ref().cell_id()),
            final(rec).cache() == old(rec).cache(),
            final(rec).blocks() == old(rec).blocks(),
            !final(rec).is_free(self.weak_ref().cell_id()),
            !self.weak_ref().live(*final(rec)),
            self.weak_ref().get_spec(*final(rec), *final(store)) is None,
            final(store)@[self.weak_ref().address().unwrap() as int] is None,
            forall|a: int|
                0 <= a < old(store).n_slots() && a != self.weak_ref().address().unwrap() ==> final(store)@[a] == old(store)@[a],
            r == if self.weak_ref().expected_gen() + 1 < u64::MAX {
                Some(self.weak_ref().cell_id())
            } else {
                None::<usize>
            },
    {
        let cell: usize = self.weak.cell;
        let expected: u64 = self.weak.gen;
        let new_gen: u64 = expected + 1;
        let ok = rec.advance(cell, expected);
        proof {
            assert(ok);
            assert(!rec.is_free(cell)) by {
                if rec.cache().contains(cell) {
                    let j = choose|j: int|
                        0 <= j < rec.cache().len() && rec.cache()[j] == cell;
                    assert(old(rec).cache()[j] == cell);
                    assert(old(rec).ok_free_id(old(rec).cache()[j]));
                }
                if rec.in_pool(cell) {
                    let k = choose|k: int|
                        0 <= k < rec.blocks().len() && rec.blocks()[k].contains(cell);
                    let i = choose|i: int|
                        0 <= i < rec.blocks()[k].len() && rec.blocks()[k][i] == cell;
                    assert(old(rec).blocks()[k][i] == cell);
                    assert(old(rec).ok_free_id(old(rec).blocks()[k][i]));
                }
            }
        }
        let t = store.take(self.weak.addr.unwrap());
        let p = P::from_raw_ptr(t);
        defer_drop(guard, p);
        if new_gen != u64::MAX {
            Some(cell)
        } else {
            None
        }
    }

    /// Destroy the owner: run the kill protocol and return the cell to the
    /// recycler — unless the cell retired, in which case it is leaked
    /// forever, still valid for lookups but never reused.
    pub fn destroy(self, guard: &Guard, rec: &mut Recycler, store: &mut Store<P::T>)
        requires
            old(rec).wf(),
            old(store).wf(),
            self.wf_in(*old(rec), *old(store)),
        ensures
            final(rec).wf(),
            final(store).wf(),
            old(rec).evolves_to(*final(rec)),
            final(rec).n_cells() == old(rec).n_cells(),
            final(store).n_slots() == old(store).n_slots(),
            final(rec).gen_of(self.weak_ref().cell_id() as int) == self.weak_ref().expected_gen()
                + 1,
            forall|i: int|
                0 <= i < old(rec).n_cells() && i != self.weak_ref().cell_id() ==> final(rec).gen_of(i) == old(rec).gen_of(i),
            final(rec).live_set() == old(rec).live_set().remove(self.weak_ref().cell_id()),
            !self.weak_ref().live(*final(rec)),
            self.weak_ref().get_spec(*final(rec), *final(store)) is None,
            forall|a: int|
                0 <= a < old(store).n_slots() && a != self.weak_ref().address().unwrap() ==> final(store)@[a] == old(store)@[a],
            self.weak_ref().expected_gen() + 1 < u64::MAX ==> final(rec).is_free(
                self.weak_ref().cell_id(),
            ),
            self.weak_ref().expected_gen() + 1 < u64::MAX && old(rec).cache().len() < 2
                * BLOCK_SIZE ==> final(rec).cache() == old(rec).cache().push(
                self.weak_ref().cell_id(),
            ) && final(rec).blocks() == old(rec).blocks(),
            self.weak_ref().expected_gen() + 1 < u64::MAX && old(rec).cache().len() == 2
                * BLOCK_SIZE ==> final(rec).blocks().len() == old(rec).blocks().len() + 1 && final(rec).cache().len() == (BLOCK_SIZE + 1),
            self.weak_ref().expected_gen() + 1 == u64::MAX ==> final(rec).cache() == old(
                rec,
            ).cache() && final(rec).blocks() == old(rec).blocks(),
    {
        match self.kill(guard, rec, store) {
            Some(cell) => {
                rec.release(cell);
            }
            None => {},
        }
    }
}

impl<T: Send + 'static> Own<Box<T>> {
    /// The standard way to create an owner: allocate a box around the value
    /// and wrap it.
    pub fn new_box(value: T, rec: &mut Recycler, store: &mut Store<T>) -> (o: Own<Box<T>>)
        requires
            old(rec).wf(),
            old(store).wf(),
        ensures
            final(rec).wf(),
            final(store).wf(),
            old(rec).evolves_to(*final(rec)),
            o.wf_in(*final(rec), *final(store)),
            o.value(*final(store)) == value,
            o.weak_ref().get_spec(*final(rec), *final(store)) == Some(value),
            !old(rec).live_set().contains(o.weak_ref().cell_id()),
            final(rec).live_set() == old(rec).live_set().insert(o.weak_ref().cell_id()),
            forall|i: int|
                0 <= i < old(rec).n_cells() ==> final(rec).gen_of(i) == old(rec).gen_of(i),
            forall|a: int|
                0 <= a < old(store).n_slots() && a != o.weak_ref().address().unwrap() ==> final(store)@[a] == old(store)@[a],
            old(rec).cache().len() > 0 ==> final(rec).n_cells() == old(rec).n_cells() && final(rec).cache() == old(rec).cache().drop_last() && final(rec).blocks() == old(rec).blocks(),
            old(rec).cache().len() == 0 && old(rec).blocks().len() > 0 ==> final(rec).n_cells()
                == old(rec).n_cells() && final(rec).cache().len() == (BLOCK_SIZE - 1) && final(rec).blocks() == old(rec).blocks().drop_first(),
            old(rec).cache().len() == 0 && old(rec).blocks().len() == 0 ==> final(rec).n_cells()
                == old(rec).n_cells() + BLOCK_SIZE && final(rec).cache().len() == (BLOCK_SIZE - 1)
                && final(rec).blocks() == old(rec).blocks() && o.weak_ref().expected_gen() == 0,
    {
        Self::new(Box::new(value), rec, store)
    }
}

/// The owner-uniqueness invariant: creating an owner binds a cell that was
/// bound to no owner at that moment, so two owners alive at once never share
/// a cell — which is what lets the kill protocol's compare-and-set assume no
/// rival and makes its failure branch unreachable.
pub proof fn lemma_unique_owner_cells<P: IsPtr + Send + 'static, Q: IsPtr + Send + 'static>(
    older: Own<P>,
    newer: Own<Q>,
    rec: Recycler,
)
    requires
        rec.live_set().contains(older.weak_ref().cell_id()),
        !rec.live_set().contains(newer.weak_ref().cell_id()),
    ensures
        older.weak_ref().cell_id() != newer.weak_ref().cell_id(),
{
}

/// Liveness can only be lost over time, never regained: a weak handle that
/// is dead in one state of the recycler is dead in every state the recycler
/// can evolve to, and its lookups return nothing whatever store they are
/// asked against. Generations only grow and never revisit a value.
pub proof fn lemma_dead_stays_dead<T>(r: Ref<T>, rec1: Recycler, rec2: Recycler)
    requires
        r.wf_in(rec1),
        !r.live(rec1),
        rec1.evolves_to(rec2),
    ensures
        r.wf_in(rec2),
        !r.live(rec2),
        forall|store: Store<T>| r.get_spec(rec2, store) is None,
{
}

/// A weak handle without an address never resolves, whatever the state of
/// the recycler and the store: projections that declined, projections of a
/// dead handle, and the null handle all look up to nothing forever.
pub proof fn lemma_absent_address_never_resolves<T>(r: Ref<T>, rec: Recycler, store: Store<T>)
    requires
        r.address() is None,
    ensures
        r.get_spec(rec, store) is None,
{
}

/// The null handle is dead in every well-formed recycler: its reserved cell
/// holds the maximum generation forever, which its expected generation of
/// zero can never equal again.
pub proof fn lemma_null_never_resolves<T>(rec: Recycler, store: Store<T>)
    requires
        rec.wf(),
    ensures
        !Ref::<T>::null_spec().live(rec),
        Ref::<T>::null_spec().get_spec(rec, store) is None,
{
    assert(rec.gen_of(0) == u64::MAX);
}

} // verus!
