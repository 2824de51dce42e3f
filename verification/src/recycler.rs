//! The counter recycler: supplies generation-counter cells cheaply and
//! reclaims them for reuse.
//!
//! The recycler owns the immortal backing allocation — every cell ever
//! created stays valid forever, identified by its index — together with a
//! bounded per-thread cache of free cells and an unbounded cross-thread pool
//! of fixed-size blocks of free cells. A cell handed out resumes at its last
//! recorded generation; it is never reset. A cell whose generation has
//! reached the maximum representable value is permanently retired and never
//! recycled again.
//!
//! Cell index `0` is reserved: it is created already retired and backs the
//! permanently dead handle [`crate::Ref::null`].

use crate::pool::{pool_contents, pool_len, pool_new, pool_pop, pool_push};
use vstd::prelude::*;

verus! {

/// Cells per block moved between the per-thread cache and the shared pool.
pub const BLOCK_SIZE: usize = 512;

/// One generation-counter cell.
///
/// Its value only increases, by exactly one per successful kill; once it
/// reaches `u64::MAX` the cell is retired for good. The cell sits behind an
/// index into the recycler's backing store, which is what makes its address
/// permanently valid.
pub struct Indirection {
    current_gen: u64,
}

impl Indirection {
    /// The cell's current generation.
    pub closed spec fn generation(self) -> u64 {
        self.current_gen
    }
}

/// The two-level cell allocator, together with the immortal cells themselves.
pub struct Recycler {
    cells: Vec<Indirection>,
    local: Vec<usize>,
    global: crossbeam_queue::SegQueue<Vec<usize>>,
    live: Ghost<Set<usize>>,
}

impl Recycler {
    /// Number of cells ever created.
    pub closed spec fn n_cells(self) -> nat {
        self.cells@.len()
    }

    /// The current generation of cell `i`.
    pub closed spec fn gen_of(self, i: int) -> u64 {
        self.cells@[i].generation()
    }

    /// The cells currently bound to an owning handle.
    pub closed spec fn live_set(self) -> Set<usize> {
        self.live@
    }

    /// The per-thread cache of free cells.
    pub closed spec fn cache(self) -> Seq<usize> {
        self.local@
    }

    /// The blocks sitting in the cross-thread pool, front of the queue first.
    pub closed spec fn blocks(self) -> Seq<Seq<usize>> {
        pool_contents(self.global)
    }

    /// `id` sits in some block of the cross-thread pool.
    pub open spec fn in_pool(self, id: usize) -> bool {
        exists|k: int| 0 <= k < self.blocks().len() && self.blocks()[k].contains(id)
    }

    /// `id` is available for reuse, in either level.
    pub open spec fn is_free(self, id: usize) -> bool {
        self.cache().contains(id) || self.in_pool(id)
    }

    /// What every free cell satisfies: it exists, it is not the reserved
    /// null cell, it is not retired, and no owning handle is bound to it.
    pub open spec fn ok_free_id(self, id: usize) -> bool {
        &&& 1 <= id < self.n_cells()
        &&& self.gen_of(id as int) < u64::MAX
        &&& !self.live_set().contains(id)
    }

    /// The recycler's invariant.
    pub open spec fn wf(self) -> bool {
        &&& self.n_cells() >= 1
        &&& self.gen_of(0) == u64::MAX
        &&& self.cache().no_duplicates()
        &&& self.cache().len() <= 2 * BLOCK_SIZE
        &&& forall|i: int|
            0 <= i < self.cache().len() ==> self.ok_free_id(#[trigger] self.cache()[i])
        &&& forall|k: int|
            0 <= k < self.blocks().len() ==> (#[trigger] self.blocks()[k]).len() == BLOCK_SIZE
                && self.blocks()[k].no_duplicates()
        &&& forall|k: int, i: int|
            0 <= k < self.blocks().len() && 0 <= i < self.blocks()[k].len() ==> self.ok_free_id(
                #[trigger] self.blocks()[k][i],
            )
        &&& forall|j: int| 0 <= j < self.cache().len() ==> !self.in_pool(#[trigger] self.cache()[j])
        &&& forall|k1: int, i1: int, k2: int, i2: int|
            0 <= k1 < self.blocks().len() && 0 <= i1 < self.blocks()[k1].len() && 0 <= k2
                < self.blocks().len() && 0 <= i2 < self.blocks()[k2].len() && k1 != k2
                ==> #[trigger] self.blocks()[k1][i1] != #[trigger] self.blocks()[k2][i2]
        &&& forall|id: usize|
            #[trigger] self.live_set().contains(id) ==> 1 <= id < self.n_cells() && !self.is_free(
                id,
            )
    }

    /// Cells are immortal and generations monotone: any later state of the
    /// recycler keeps every existing cell, at a generation no smaller.
    pub open spec fn evolves_to(self, later: Recycler) -> bool {
        &&& self.n_cells() <= later.n_cells()
        &&& forall|i: int| 0 <= i < self.n_cells() ==> self.gen_of(i) <= #[trigger] later.gen_of(i)
    }

    /// A fresh recycler: no free cells, no live cells, and the reserved
    /// retired null cell as cell `0`.
    pub fn new() -> (rec: Recycler)
        ensures
            rec.wf(),
            rec.n_cells() == 1,
            rec.gen_of(0) == u64::MAX,
            rec.cache().len() == 0,
            rec.blocks().len() == 0,
            rec.live_set() == Set::<usize>::empty(),
    {
        let mut cells: Vec<Indirection> = Vec::new();
        cells.push(Indirection { current_gen: u64::MAX });
        Recycler { cells, local: Vec::new(), global: pool_new(), live: Ghost(Set::empty()) }
    }

    /// Number of cells ever created, as a runtime value; used to bounds-test
    /// a handle's cell before loading it.
    pub(crate) fn cell_count(&self) -> (n: usize)
        ensures
            n == self.n_cells(),
    {
        self.cells.len()
    }

    /// Read cell `cell`'s current generation.
    ///
    /// This stands for the acquire-load of the generation counter: a reader
    /// that sees a killed generation also sees everything the killer wrote
    /// before advancing it.
    pub fn load(&self, cell: usize) -> (g: u64)
        requires
            cell < self.n_cells(),
        ensures
            g == self.gen_of(cell as int),
    {
        self.cells[cell].current_gen
    }

    /// The kill protocol's compare-and-set: advance `cell` from `expected`
    /// to `expected + 1`, failing without effect if the cell's generation is
    /// not `expected`. On success the cell's binding to its owning handle
    /// ends.
    ///
    /// A failure means two kill attempts raced on one cell — an invariant
    /// violation that callers inside this crate prove impossible.
    pub(crate) fn advance(&mut self, cell: usize, expected: u64) -> (ok: bool)
        requires
            old(self).wf(),
            old(self).live_set().contains(cell),
            expected < u64::MAX,
        ensures
            final(self).wf(),
            old(self).evolves_to(*final(self)),
            final(self).n_cells() == old(self).n_cells(),
            ok <==> old(self).gen_of(cell as int) == expected,
            ok ==> final(self).gen_of(cell as int) == expected + 1 && final(self).live_set()
                == old(self).live_set().remove(cell) && forall|i: int|
                0 <= i < old(self).n_cells() && i != cell ==> final(self).gen_of(i) == old(
                    self,
                ).gen_of(i),
            ok ==> final(self).cache() == old(self).cache() && final(self).blocks() == old(
                self,
            ).blocks(),
            !ok ==> *final(self) == *old(self),
    {
        proof {
            assert(old(self).live_set().contains(cell));
        }
        let g = self.cells[cell].current_gen;
        if g == expected {
            self.cells[cell] = Indirection { current_gen: expected + 1 };
            proof {
                self.live@ = self.live@.remove(cell);
                lemma_wf_unbound(*old(self), *self, cell);
            }
            true
        } else {
            false
        }
    }

    /// Bind a cell that was just unbound by a kill to a new owning handle,
    /// without a round-trip through the free pools.
    pub(crate) fn rebind(&mut self, cell: usize)
        requires
            old(self).wf(),
            1 <= cell < old(self).n_cells(),
            old(self).gen_of(cell as int) < u64::MAX,
            !old(self).live_set().contains(cell),
            !old(self).is_free(cell),
        ensures
            final(self).wf(),
            old(self).evolves_to(*final(self)),
            final(self).n_cells() == old(self).n_cells(),
            forall|i: int|
                0 <= i < old(self).n_cells() ==> final(self).gen_of(i) == old(self).gen_of(i),
            final(self).live_set() == old(self).live_set().insert(cell),
            final(self).cache() == old(self).cache(),
            final(self).blocks() == old(self).blocks(),
    {
        proof {
            self.live@ = self.live@.insert(cell);
            lemma_wf_bound(*old(self), *self, cell);
        }
    }

    /// Hand out a free cell, binding it to a new owning handle.
    ///
    /// The per-thread cache is tried first; when it is empty, one block is
    /// pulled from the cross-thread pool, one cell kept and the rest cached;
    /// when the pool is empty too, a fresh immortal block is allocated. The
    /// handed-out cell resumes at its last recorded generation.
    pub fn acquire(&mut self) -> (cell: usize)
        requires
            old(self).wf(),
        ensures
            final(self).wf(),
            old(self).evolves_to(*final(self)),
            1 <= cell < final(self).n_cells(),
            final(self).gen_of(cell as int) < u64::MAX,
            !old(self).live_set().contains(cell),
            !final(self).is_free(cell),
            final(self).live_set() == old(self).live_set().insert(cell),
            forall|i: int|
                0 <= i < old(self).n_cells() ==> final(self).gen_of(i) == old(self).gen_of(i),
            old(self).cache().len() > 0 ==> final(self).n_cells() == old(self).n_cells() && final(self).cache() == old(self).cache().drop_last() && final(self).blocks() == old(
                self,
            ).blocks(),
            old(self).cache().len() == 0 && old(self).blocks().len() > 0 ==> final(self).n_cells()
                == old(self).n_cells() && final(self).cache().len() == (BLOCK_SIZE - 1) && final(self).blocks() == old(self).blocks().drop_first(),
            old(self).cache().len() == 0 && old(self).blocks().len() == 0 ==> final(self).n_cells()
                == old(self).n_cells() + BLOCK_SIZE && final(self).cache().len() == (BLOCK_SIZE
                - 1) && final(self).blocks() == old(self).blocks() && final(self).gen_of(
                cell as int,
            ) == 0,
    {
        match self.local.pop() {
            Some(cell) => {
                proof {
                    assert(old(self).cache()[old(self).cache().len() - 1] == cell);
                    assert(self.cache() == old(self).cache().drop_last());
                    lemma_wf_cache_popped(*old(self), *self, cell);
                    let pre = *self;
                    self.live@ = self.live@.insert(cell);
                    lemma_wf_bound(pre, *self, cell);
                }
                cell
            }
            None => {
                let ghost s0 = *self;
                proof {
                    lemma_wf_same(*old(self), s0);
                }
                match pool_pop(&mut self.global) {
                    Some(block) => {
                        proof {
                            assert(block@ == s0.blocks()[0]);
                            lemma_wf_pool_popped(s0, *self);
                        }
                        let cell = self.take_one(block);
                        cell
                    }
                    None => {
                        proof {
                            lemma_wf_same(s0, *self);
                        }
                        let cell = self.grow();
                        cell
                    }
                }
            }
        }
    }

    /// Keep one cell of `block` and make the rest the (empty) per-thread
    /// cache. Helper for [`Recycler::acquire`].
    fn take_one(&mut self, block: Vec<usize>) -> (cell: usize)
        requires
            old(self).wf(),
            old(self).cache().len() == 0,
            block@.len() == BLOCK_SIZE,
            block@.no_duplicates(),
            forall|i: int| 0 <= i < block@.len() ==> old(self).ok_free_id(#[trigger] block@[i]),
            forall|i: int| 0 <= i < block@.len() ==> !old(self).in_pool(#[trigger] block@[i]),
        ensures
            final(self).wf(),
            old(self).evolves_to(*final(self)),
            final(self).n_cells() == old(self).n_cells(),
            forall|i: int|
                0 <= i < old(self).n_cells() ==> final(self).gen_of(i) == old(self).gen_of(i),
            cell == block@.last(),
            1 <= cell < final(self).n_cells(),
            final(self).gen_of(cell as int) < u64::MAX,
            !old(self).live_set().contains(cell),
            !final(self).is_free(cell),
            final(self).live_set() == old(self).live_set().insert(cell),
            final(self).cache().len() == (BLOCK_SIZE - 1),
            final(self).blocks() == old(self).blocks(),
    {
        let ghost b = block@;
        let mut block = block;
        let cell = block.pop().unwrap();
        self.local = block;
        proof {
            self.live@ = self.live@.insert(cell);
            assert(self.blocks() == old(self).blocks());
            assert(self.n_cells() == old(self).n_cells());
            assert(self.live_set() == old(self).live_set().insert(cell));
            assert(cell == b.last());
            assert(self.cache() == b.drop_last());
            lemma_drop_last_distinct(b);
            assert(old(self).ok_free_id(cell)) by {
                assert(b[b.len() - 1] == cell);
            }
            assert forall|id: usize|
                self.cache().contains(id) implies b.contains(id) && id != cell by {
                let j = choose|j: int| 0 <= j < self.cache().len() && self.cache()[j] == id;
                assert(b[j] == id);
            }
            assert(!self.is_free(cell)) by {
                assert(!old(self).in_pool(cell)) by {
                    assert(b[b.len() - 1] == cell);
                }
            }
            assert forall|i: int|
                0 <= i < self.cache().len() implies self.ok_free_id(
                #[trigger] self.cache()[i],
            ) by {
                assert(b[i] == self.cache()[i]);
                assert(old(self).ok_free_id(self.cache()[i]));
                assert(self.cache()[i] != cell);
            }
            assert forall|k: int, i: int|
                0 <= k < self.blocks().len() && 0 <= i < self.blocks()[k].len()
                    implies self.ok_free_id(#[trigger] self.blocks()[k][i]) by {
                assert(old(self).ok_free_id(self.blocks()[k][i]));
                assert(self.blocks()[k].contains(self.blocks()[k][i]));
                assert(old(self).in_pool(self.blocks()[k][i]));
                assert(self.blocks()[k][i] != cell) by {
                    assert(!old(self).in_pool(cell)) by {
                        assert(b[b.len() - 1] == cell);
                    }
                }
            }
            assert forall|j: int|
                0 <= j < self.cache().len() implies !self.in_pool(
                #[trigger] self.cache()[j],
            ) by {
                assert(b[j] == self.cache()[j]);
            }
            assert forall|id: usize| #[trigger]
                self.live_set().contains(id) implies 1 <= id < self.n_cells() && !self.is_free(
                id,
            ) by {
                if id == cell {
                } else {
                    assert(old(self).live_set().contains(id));
                    assert(!old(self).is_free(id));
                    if self.cache().contains(id) {
                        assert(b.contains(id));
                        let j = choose|j: int| 0 <= j < b.len() && b[j] == id;
                        assert(old(self).ok_free_id(b[j]));
                    }
                }
            }
        }
        cell
    }

    /// Allocate a fresh immortal block of `BLOCK_SIZE` cells starting at
    /// generation zero; hand out the first, cache the rest. Helper for
    /// [`Recycler::acquire`].
    fn grow(&mut self) -> (cell: usize)
        requires
            old(self).wf(),
            old(self).cache().len() == 0,
            old(self).blocks().len() == 0,
        ensures
            final(self).wf(),
            old(self).evolves_to(*final(self)),
            final(self).n_cells() == old(self).n_cells() + BLOCK_SIZE,
            forall|i: int|
                0 <= i < old(self).n_cells() ==> final(self).gen_of(i) == old(self).gen_of(i),
            1 <= cell < final(self).n_cells(),
            final(self).gen_of(cell as int) == 0,
            !old(self).live_set().contains(cell),
            !final(self).is_free(cell),
            final(self).live_set() == old(self).live_set().insert(cell),
            final(self).cache().len() == (BLOCK_SIZE - 1),
            final(self).blocks() == old(self).blocks(),
    {
        let cell = self.cells.len();
        let ghost old_n = self.cells@.len();
        let mut added: usize = 0;
        while added < BLOCK_SIZE
            invariant
                self.cells@.len() == old_n + added,
                added <= BLOCK_SIZE,
                forall|i: int| 0 <= i < old_n ==> self.cells@[i] == old(self).cells@[i],
                forall|i: int|
                    old_n <= i < self.cells@.len() ==> (#[trigger] self.cells@[i]).generation()
                        == 0,
                self.local@.len() == 0,
                self.global == old(self).global,
                self.live@ == old(self).live@,
            decreases BLOCK_SIZE - added,
        {
            self.cells.push(Indirection { current_gen: 0 });
            added = added + 1;
        }
        let n = self.cells.len();
        let mut idx: usize = cell + 1;
        while idx < n
            invariant
                cell == old_n,
                n == self.cells@.len(),
                self.cells@.len() == old_n + BLOCK_SIZE,
                cell + 1 <= idx <= n,
                forall|i: int| 0 <= i < old_n ==> self.cells@[i] == old(self).cells@[i],
                forall|i: int|
                    old_n <= i < self.cells@.len() ==> (#[trigger] self.cells@[i]).generation()
                        == 0,
                self.local@.len() == idx - (cell + 1),
                forall|j: int|
                    0 <= j < self.local@.len() ==> #[trigger] self.local@[j] == cell + 1 + j,
                self.global == old(self).global,
                self.live@ == old(self).live@,
            decreases n - idx,
        {
            self.local.push(idx);
            idx = idx + 1;
        }
        proof {
            self.live@ = self.live@.insert(cell);
            assert(1 <= cell) by {
                assert(old(self).n_cells() >= 1);
            }
            assert(!old(self).live_set().contains(cell)) by {
                if old(self).live_set().contains(cell) {
                    assert(cell < old(self).n_cells());
                }
            }
            assert(!self.cache().contains(cell)) by {
                if self.cache().contains(cell) {
                    let j = choose|j: int| 0 <= j < self.cache().len() && self.cache()[j] == cell;
                    assert(self.cache()[j] == cell + 1 + j);
                }
            }
            assert(self.cache().no_duplicates()) by {
                assert forall|i: int, j: int|
                    0 <= i < self.cache().len() && 0 <= j < self.cache().len() && i
                        != j implies self.cache()[i] != self.cache()[j] by {
                    assert(self.cache()[i] == cell + 1 + i);
                    assert(self.cache()[j] == cell + 1 + j);
                }
            }
            assert forall|i: int|
                0 <= i < self.cache().len() implies self.ok_free_id(
                #[trigger] self.cache()[i],
            ) by {
                assert(self.cache()[i] == cell + 1 + i);
                assert(self.gen_of(cell + 1 + i) == 0);
                if self.live_set().contains(self.cache()[i]) {
                    if self.cache()[i] != cell {
                        assert(old(self).live_set().contains(self.cache()[i]));
                        assert(self.cache()[i] < old_n);
                    }
                }
            }
            assert forall|id: usize| #[trigger]
                self.live_set().contains(id) implies 1 <= id < self.n_cells() && !self.is_free(
                id,
            ) by {
                assert(!self.in_pool(id));
                if id != cell {
                    assert(old(self).live_set().contains(id));
                    assert(!old(self).is_free(id));
                    assert(id < old_n);
                    if self.cache().contains(id) {
                        let j = choose|j: int|
                            0 <= j < self.cache().len() && self.cache()[j] == id;
                        assert(self.cache()[j] == cell + 1 + j);
                    }
                }
            }
        }
        cell
    }

    /// Return a reclaimable cell to the free pools.
    ///
    /// The cell goes to the per-thread cache; when the cache is already at
    /// capacity, one block is first drained out of it into the cross-thread
    /// pool, which bounds per-thread memory. A retired cell must never be
    /// released.
    pub fn release(&mut self, cell: usize)
        requires
            old(self).wf(),
            1 <= cell < old(self).n_cells(),
            old(self).gen_of(cell as int) < u64::MAX,
            !old(self).live_set().contains(cell),
            !old(self).is_free(cell),
        ensures
            final(self).wf(),
            old(self).evolves_to(*final(self)),
            final(self).n_cells() == old(self).n_cells(),
            forall|i: int|
                0 <= i < old(self).n_cells() ==> final(self).gen_of(i) == old(self).gen_of(i),
            final(self).live_set() == old(self).live_set(),
            final(self).is_free(cell),
            old(self).cache().len() < 2 * BLOCK_SIZE ==> final(self).cache() == old(
                self,
            ).cache().push(cell) && final(self).blocks() == old(self).blocks(),
            old(self).cache().len() == 2 * BLOCK_SIZE ==> final(self).blocks().len() == old(
                self,
            ).blocks().len() + 1 && final(self).cache().len() == (BLOCK_SIZE + 1),
    {
        if self.local.len() == 2 * BLOCK_SIZE {
            let ghost s0 = *self;
            let block = self.local.split_off(BLOCK_SIZE);
            proof {
                lemma_wf_drained(s0, *self, block@);
            }
            let ghost s1 = *self;
            pool_push(&mut self.global, block);
            proof {
                lemma_wf_block_pushed(s1, *self, block@);
                assert(!self.is_free(cell)) by {
                    if self.cache().contains(cell) {
                        assert(s0.cache().contains(cell)) by {
                            let j = choose|j: int|
                                0 <= j < self.cache().len() && self.cache()[j] == cell;
                            assert(s0.cache()[j] == self.cache()[j]);
                        }
                    }
                }
            }
        }
        let ghost s2 = *self;
        self.local.push(cell);
        proof {
            lemma_wf_cache_pushed(s2, *self, cell);
        }
    }
}

/// Discard every block of the cross-thread pool, leaving its cells out of
/// circulation forever. Cells stay valid — they are immortal — but will not
/// be handed out again; the per-thread cache is untouched.
pub fn empty_recycler(rec: &mut Recycler)
    requires
        old(rec).wf(),
    ensures
        final(rec).wf(),
        old(rec).evolves_to(*final(rec)),
        final(rec).n_cells() == old(rec).n_cells(),
        forall|i: int| 0 <= i < old(rec).n_cells() ==> final(rec).gen_of(i) == old(rec).gen_of(i),
        final(rec).live_set() == old(rec).live_set(),
        final(rec).cache() == old(rec).cache(),
        final(rec).blocks().len() == 0,
{
    loop
        invariant
            rec.wf(),
            rec.n_cells() == old(rec).n_cells(),
            forall|i: int|
                0 <= i < old(rec).n_cells() ==> rec.gen_of(i) == old(rec).gen_of(i),
            rec.live_set() == old(rec).live_set(),
            rec.cache() == old(rec).cache(),
        ensures
            rec.blocks().len() == 0,
        decreases rec.blocks().len(),
    {
        let ghost pre = *rec;
        match pool_pop(&mut rec.global) {
            Some(_) => {
                proof {
                    lemma_wf_pool_popped(pre, *rec);
                }
            }
            None => {
                break;
            }
        }
    }
}

/// Evolution of the recycler composes: operations chained one after another
/// still only grow the cell population and the generations.
pub proof fn lemma_evolves_transitive(a: Recycler, b: Recycler, c: Recycler)
    requires
        a.evolves_to(b),
        b.evolves_to(c),
    ensures
        a.evolves_to(c),
{
    assert forall|i: int| 0 <= i < a.n_cells() implies a.gen_of(i) <= #[trigger] c.gen_of(i) by {
        assert(a.gen_of(i) <= b.gen_of(i));
        assert(b.gen_of(i) <= c.gen_of(i));
    }
}

/// The invariant carries over to any state whose projections are all equal.
proof fn lemma_wf_same(pre: Recycler, post: Recycler)
    requires
        pre.wf(),
        post.n_cells() == pre.n_cells(),
        forall|i: int| 0 <= i < pre.n_cells() ==> post.gen_of(i) == pre.gen_of(i),
        post.live_set() == pre.live_set(),
        post.cache() == pre.cache(),
        post.blocks() == pre.blocks(),
    ensures
        post.wf(),
{
    assert forall|id: usize| post.in_pool(id) <==> pre.in_pool(id) by {}
    assert forall|i: int|
        0 <= i < post.cache().len() implies post.ok_free_id(#[trigger] post.cache()[i]) by {
        assert(pre.ok_free_id(pre.cache()[i]));
    }
    assert forall|k: int, i: int|
        0 <= k < post.blocks().len() && 0 <= i < post.blocks()[k].len() implies post.ok_free_id(
        #[trigger] post.blocks()[k][i],
    ) by {
        assert(pre.ok_free_id(pre.blocks()[k][i]));
    }
    assert forall|j: int|
        0 <= j < post.cache().len() implies !post.in_pool(#[trigger] post.cache()[j]) by {
        assert(!pre.in_pool(pre.cache()[j]));
    }
    assert forall|id: usize| #[trigger]
        post.live_set().contains(id) implies 1 <= id < post.n_cells() && !post.is_free(id) by {
        assert(pre.live_set().contains(id));
        assert(!pre.is_free(id));
    }
}

/// Dropping the last element of a duplicate-free sequence keeps it
/// duplicate-free and removes the last element entirely.
proof fn lemma_drop_last_distinct(s: Seq<usize>)
    requires
        s.len() > 0,
        s.no_duplicates(),
    ensures
        s.drop_last().no_duplicates(),
        !s.drop_last().contains(s.last()),
{
    if s.drop_last().contains(s.last()) {
        let j = choose|j: int| 0 <= j < s.drop_last().len() && s.drop_last()[j] == s.last();
        assert(s[j] == s[s.len() - 1]);
    }
}

/// Popping the last cached cell preserves the invariant; the popped cell was
/// free and is free no longer.
proof fn lemma_wf_cache_popped(pre: Recycler, post: Recycler, cell: usize)
    requires
        pre.wf(),
        pre.cache().len() > 0,
        cell == pre.cache().last(),
        post.n_cells() == pre.n_cells(),
        forall|i: int| 0 <= i < pre.n_cells() ==> post.gen_of(i) == pre.gen_of(i),
        post.live_set() == pre.live_set(),
        post.cache() == pre.cache().drop_last(),
        post.blocks() == pre.blocks(),
    ensures
        post.wf(),
        post.ok_free_id(cell),
        !post.is_free(cell),
{
    assert(pre.ok_free_id(cell)) by {
        assert(pre.cache()[pre.cache().len() - 1] == cell);
    }
    lemma_drop_last_distinct(pre.cache());
    assert forall|id: usize| post.ok_free_id(id) <==> pre.ok_free_id(id) by {}
    assert forall|id: usize| post.in_pool(id) <==> pre.in_pool(id) by {
        if pre.in_pool(id) {
            let k = choose|k: int| 0 <= k < pre.blocks().len() && pre.blocks()[k].contains(id);
            assert(0 <= k < post.blocks().len() && post.blocks()[k].contains(id));
        }
        if post.in_pool(id) {
            let k = choose|k: int| 0 <= k < post.blocks().len() && post.blocks()[k].contains(id);
            assert(0 <= k < pre.blocks().len() && pre.blocks()[k].contains(id));
        }
    }
    assert forall|i: int|
        0 <= i < post.cache().len() implies post.ok_free_id(#[trigger] post.cache()[i]) by {
        assert(pre.cache()[i] == post.cache()[i]);
    }
    assert forall|j: int|
        0 <= j < post.cache().len() implies !post.in_pool(#[trigger] post.cache()[j]) by {
        assert(pre.cache()[j] == post.cache()[j]);
    }
    assert(!post.is_free(cell)) by {
        assert(!pre.in_pool(cell)) by {
            assert(pre.cache()[pre.cache().len() - 1] == cell);
        }
    }
    assert forall|id: usize| #[trigger]
        post.live_set().contains(id) implies 1 <= id < post.n_cells() && !post.is_free(id) by {
        assert(pre.live_set().contains(id));
        assert(!pre.is_free(id));
        if post.cache().contains(id) {
            let j = choose|j: int| 0 <= j < post.cache().len() && post.cache()[j] == id;
            assert(pre.cache()[j] == id);
        }
    }
}

/// Popping the front block off the pool preserves the invariant; the popped
/// block's cells are free-eligible and sit in no remaining block.
proof fn lemma_wf_pool_popped(pre: Recycler, post: Recycler)
    requires
        pre.wf(),
        pre.blocks().len() > 0,
        post.n_cells() == pre.n_cells(),
        forall|i: int| 0 <= i < pre.n_cells() ==> post.gen_of(i) == pre.gen_of(i),
        post.live_set() == pre.live_set(),
        post.cache() == pre.cache(),
        post.blocks() == pre.blocks().drop_first(),
    ensures
        post.wf(),
        pre.blocks().first().len() == BLOCK_SIZE,
        pre.blocks().first().no_duplicates(),
        forall|i: int|
            0 <= i < pre.blocks().first().len() ==> post.ok_free_id(
                #[trigger] pre.blocks().first()[i],
            ),
        forall|i: int|
            0 <= i < pre.blocks().first().len() ==> !post.in_pool(
                #[trigger] pre.blocks().first()[i],
            ),
{
    assert(pre.blocks()[0].len() == BLOCK_SIZE);
    assert forall|k: int|
        0 <= k < post.blocks().len() implies post.blocks()[k] == pre.blocks()[k + 1] by {}
    assert forall|id: usize| post.ok_free_id(id) <==> pre.ok_free_id(id) by {}
    assert forall|id: usize| post.in_pool(id) implies pre.in_pool(id) by {
        let k = choose|k: int| 0 <= k < post.blocks().len() && post.blocks()[k].contains(id);
        assert(pre.blocks()[k + 1].contains(id));
    }
    assert forall|k: int|
        0 <= k < post.blocks().len() implies (#[trigger] post.blocks()[k]).len() == BLOCK_SIZE
            && post.blocks()[k].no_duplicates() by {
        assert(post.blocks()[k] == pre.blocks()[k + 1]);
    }
    assert forall|k: int, i: int|
        0 <= k < post.blocks().len() && 0 <= i < post.blocks()[k].len() implies post.ok_free_id(
        #[trigger] post.blocks()[k][i],
    ) by {
        assert(post.blocks()[k] == pre.blocks()[k + 1]);
        assert(pre.ok_free_id(pre.blocks()[k + 1][i]));
    }
    assert forall|j: int|
        0 <= j < post.cache().len() implies !post.in_pool(#[trigger] post.cache()[j]) by {
        assert(pre.cache()[j] == post.cache()[j]);
        assert(!pre.in_pool(pre.cache()[j]));
    }
    assert forall|k1: int, i1: int, k2: int, i2: int|
        0 <= k1 < post.blocks().len() && 0 <= i1 < post.blocks()[k1].len() && 0 <= k2
            < post.blocks().len() && 0 <= i2 < post.blocks()[k2].len() && k1
            != k2 implies #[trigger] post.blocks()[k1][i1] != #[trigger] post.blocks()[k2][i2] by {
        assert(post.blocks()[k1] == pre.blocks()[k1 + 1]);
        assert(post.blocks()[k2] == pre.blocks()[k2 + 1]);
    }
    assert forall|id: usize| #[trigger]
        post.live_set().contains(id) implies 1 <= id < post.n_cells() && !post.is_free(id) by {
        assert(pre.live_set().contains(id));
        assert(!pre.is_free(id));
    }
    assert forall|i: int|
        0 <= i < pre.blocks().first().len() implies post.ok_free_id(
        #[trigger] pre.blocks().first()[i],
    ) by {
        assert(pre.ok_free_id(pre.blocks()[0][i]));
    }
    assert forall|i: int|
        0 <= i < pre.blocks().first().len() implies !post.in_pool(
        #[trigger] pre.blocks().first()[i],
    ) by {
        if post.in_pool(pre.blocks().first()[i]) {
            let k = choose|k: int|
                0 <= k < post.blocks().len() && post.blocks()[k].contains(pre.blocks().first()[i]);
            assert(pre.blocks()[k + 1].contains(pre.blocks()[0][i]));
            let i2 = choose|i2: int|
                0 <= i2 < pre.blocks()[k + 1].len() && #[trigger] pre.blocks()[k + 1][i2]
                    == pre.blocks()[0][i];
            assert(pre.blocks()[0][i] != pre.blocks()[k + 1][i2]);
        }
    }
}

/// Binding a limbo cell (neither live nor free) to an owner preserves the
/// invariant.
proof fn lemma_wf_bound(pre: Recycler, post: Recycler, cell: usize)
    requires
        pre.wf(),
        1 <= cell < pre.n_cells(),
        pre.gen_of(cell as int) < u64::MAX,
        !pre.live_set().contains(cell),
        !pre.is_free(cell),
        post.n_cells() == pre.n_cells(),
        forall|i: int| 0 <= i < pre.n_cells() ==> post.gen_of(i) == pre.gen_of(i),
        post.live_set() == pre.live_set().insert(cell),
        post.cache() == pre.cache(),
        post.blocks() == pre.blocks(),
    ensures
        post.wf(),
        !post.is_free(cell),
{
    assert forall|id: usize| post.in_pool(id) <==> pre.in_pool(id) by {}
    assert forall|i: int|
        0 <= i < post.cache().len() implies post.ok_free_id(#[trigger] post.cache()[i]) by {
        assert(pre.ok_free_id(pre.cache()[i]));
        assert(post.cache()[i] != cell) by {
            if post.cache()[i] == cell {
                assert(pre.cache().contains(cell));
            }
        }
    }
    assert forall|k: int, i: int|
        0 <= k < post.blocks().len() && 0 <= i < post.blocks()[k].len() implies post.ok_free_id(
        #[trigger] post.blocks()[k][i],
    ) by {
        assert(pre.ok_free_id(pre.blocks()[k][i]));
        assert(post.blocks()[k][i] != cell) by {
            if post.blocks()[k][i] == cell {
                assert(pre.blocks()[k].contains(cell));
                assert(pre.in_pool(cell));
            }
        }
    }
    assert forall|id: usize| #[trigger]
        post.live_set().contains(id) implies 1 <= id < post.n_cells() && !post.is_free(id) by {
        if id == cell {
        } else {
            assert(pre.live_set().contains(id));
            assert(!pre.is_free(id));
        }
    }
}

/// Unbinding a live cell from its owner — with its generation advanced to
/// any new value — preserves the invariant, because a live cell is in
/// neither free pool.
proof fn lemma_wf_unbound(pre: Recycler, post: Recycler, cell: usize)
    requires
        pre.wf(),
        pre.live_set().contains(cell),
        post.n_cells() == pre.n_cells(),
        forall|i: int| 0 <= i < pre.n_cells() && i != cell ==> post.gen_of(i) == pre.gen_of(i),
        post.live_set() == pre.live_set().remove(cell),
        post.cache() == pre.cache(),
        post.blocks() == pre.blocks(),
    ensures
        post.wf(),
{
    assert(1 <= cell < pre.n_cells());
    assert(post.gen_of(0) == pre.gen_of(0));
    assert forall|id: usize| post.in_pool(id) <==> pre.in_pool(id) by {}
    assert forall|i: int|
        0 <= i < post.cache().len() implies post.ok_free_id(#[trigger] post.cache()[i]) by {
        assert(pre.ok_free_id(pre.cache()[i]));
        assert(post.cache()[i] != cell);
    }
    assert forall|k: int, i: int|
        0 <= k < post.blocks().len() && 0 <= i < post.blocks()[k].len() implies post.ok_free_id(
        #[trigger] post.blocks()[k][i],
    ) by {
        assert(pre.ok_free_id(pre.blocks()[k][i]));
        assert(post.blocks()[k][i] != cell);
    }
    assert forall|id: usize| #[trigger]
        post.live_set().contains(id) implies 1 <= id < post.n_cells() && !post.is_free(id) by {
        assert(pre.live_set().contains(id));
        assert(!pre.is_free(id));
    }
}

/// Draining the upper half of a full cache into a block keeps the invariant;
/// the drained block is duplicate-free, free-eligible, in no pool block, and
/// disjoint from what is left in the cache.
proof fn lemma_wf_drained(pre: Recycler, post: Recycler, b: Seq<usize>)
    requires
        pre.wf(),
        pre.cache().len() == 2 * BLOCK_SIZE,
        post.n_cells() == pre.n_cells(),
        forall|i: int| 0 <= i < pre.n_cells() ==> post.gen_of(i) == pre.gen_of(i),
        post.live_set() == pre.live_set(),
        post.cache() == pre.cache().subrange(0, BLOCK_SIZE as int),
        b == pre.cache().subrange(BLOCK_SIZE as int, 2 * BLOCK_SIZE as int),
        post.blocks() == pre.blocks(),
    ensures
        post.wf(),
        b.len() == BLOCK_SIZE,
        b.no_duplicates(),
        forall|i: int| 0 <= i < b.len() ==> post.ok_free_id(#[trigger] b[i]),
        forall|i: int| 0 <= i < b.len() ==> !post.in_pool(#[trigger] b[i]),
        forall|i: int| 0 <= i < b.len() ==> !post.cache().contains(#[trigger] b[i]),
        forall|id: usize| post.is_free(id) ==> pre.is_free(id),
{
    assert forall|id: usize| post.ok_free_id(id) <==> pre.ok_free_id(id) by {}
    assert forall|id: usize| post.in_pool(id) <==> pre.in_pool(id) by {}
    assert forall|id: usize| post.is_free(id) implies pre.is_free(id) by {
        if post.cache().contains(id) {
            let j = choose|j: int| 0 <= j < post.cache().len() && post.cache()[j] == id;
            assert(pre.cache()[j] == id);
        }
    }
    assert forall|i: int|
        0 <= i < post.cache().len() implies post.ok_free_id(#[trigger] post.cache()[i]) by {
        assert(pre.cache()[i] == post.cache()[i]);
    }
    assert forall|j: int|
        0 <= j < post.cache().len() implies !post.in_pool(#[trigger] post.cache()[j]) by {
        assert(pre.cache()[j] == post.cache()[j]);
    }
    assert forall|id: usize| #[trigger]
        post.live_set().contains(id) implies 1 <= id < post.n_cells() && !post.is_free(id) by {
        assert(pre.live_set().contains(id));
        assert(!pre.is_free(id));
    }
    assert forall|i: int| 0 <= i < b.len() implies post.ok_free_id(#[trigger] b[i]) by {
        assert(b[i] == pre.cache()[BLOCK_SIZE + i]);
    }
    assert forall|i: int| 0 <= i < b.len() implies !post.in_pool(#[trigger] b[i]) by {
        assert(b[i] == pre.cache()[BLOCK_SIZE + i]);
        assert(!pre.in_pool(pre.cache()[BLOCK_SIZE + i]));
    }
    assert forall|i: int| 0 <= i < b.len() implies !post.cache().contains(#[trigger] b[i]) by {
        if post.cache().contains(b[i]) {
            let j = choose|j: int| 0 <= j < post.cache().len() && post.cache()[j] == b[i];
            assert(pre.cache()[j] == pre.cache()[BLOCK_SIZE + i]);
        }
    }
    assert(b.no_duplicates()) by {
        assert forall|i: int, j: int|
            0 <= i < b.len() && 0 <= j < b.len() && i != j implies b[i] != b[j] by {
            assert(b[i] == pre.cache()[BLOCK_SIZE + i]);
            assert(b[j] == pre.cache()[BLOCK_SIZE + j]);
        }
    }
}

/// Pushing a fresh, disjoint, free-eligible block onto the pool preserves
/// the invariant; afterwards a cell is free only if it was free before or
/// sits in the pushed block.
proof fn lemma_wf_block_pushed(pre: Recycler, post: Recycler, b: Seq<usize>)
    requires
        pre.wf(),
        b.len() == BLOCK_SIZE,
        b.no_duplicates(),
        forall|i: int| 0 <= i < b.len() ==> pre.ok_free_id(#[trigger] b[i]),
        forall|i: int| 0 <= i < b.len() ==> !pre.in_pool(#[trigger] b[i]),
        forall|i: int| 0 <= i < b.len() ==> !pre.cache().contains(#[trigger] b[i]),
        post.n_cells() == pre.n_cells(),
        forall|i: int| 0 <= i < pre.n_cells() ==> post.gen_of(i) == pre.gen_of(i),
        post.live_set() == pre.live_set(),
        post.cache() == pre.cache(),
        post.blocks() == pre.blocks().push(b),
    ensures
        post.wf(),
        forall|id: usize| post.is_free(id) ==> pre.is_free(id) || b.contains(id),
{
    let n = pre.blocks().len();
    assert forall|id: usize| post.ok_free_id(id) <==> pre.ok_free_id(id) by {}
    assert(post.blocks()[n as int] == b);
    assert forall|k: int| 0 <= k < n implies post.blocks()[k] == pre.blocks()[k] by {}
    assert forall|id: usize| post.in_pool(id) implies pre.in_pool(id) || b.contains(id) by {
        let k = choose|k: int| 0 <= k < post.blocks().len() && post.blocks()[k].contains(id);
        if k < n {
            assert(pre.blocks()[k].contains(id));
        } else {
            assert(post.blocks()[k] == b);
        }
    }
    assert forall|k: int|
        0 <= k < post.blocks().len() implies (#[trigger] post.blocks()[k]).len() == BLOCK_SIZE
            && post.blocks()[k].no_duplicates() by {
        if k < n {
            assert(post.blocks()[k] == pre.blocks()[k]);
        }
    }
    assert forall|k: int, i: int|
        0 <= k < post.blocks().len() && 0 <= i < post.blocks()[k].len() implies post.ok_free_id(
        #[trigger] post.blocks()[k][i],
    ) by {
        if k < n {
            assert(pre.ok_free_id(pre.blocks()[k][i]));
        } else {
            assert(post.blocks()[k] == b);
            assert(pre.ok_free_id(b[i]));
        }
    }
    assert forall|j: int|
        0 <= j < post.cache().len() implies !post.in_pool(#[trigger] post.cache()[j]) by {
        assert(!pre.in_pool(pre.cache()[j]));
        if post.in_pool(post.cache()[j]) {
            if b.contains(post.cache()[j]) {
                let i = choose|i: int| 0 <= i < b.len() && b[i] == post.cache()[j];
                assert(!pre.cache().contains(b[i]));
                assert(pre.cache()[j] == b[i]);
            }
        }
    }
    assert forall|k1: int, i1: int, k2: int, i2: int|
        0 <= k1 < post.blocks().len() && 0 <= i1 < post.blocks()[k1].len() && 0 <= k2
            < post.blocks().len() && 0 <= i2 < post.blocks()[k2].len() && k1
            != k2 implies #[trigger] post.blocks()[k1][i1] != #[trigger] post.blocks()[k2][i2] by {
        if k1 < n && k2 < n {
            assert(post.blocks()[k1] == pre.blocks()[k1]);
            assert(post.blocks()[k2] == pre.blocks()[k2]);
        } else if k1 < n && k2 == n {
            assert(post.blocks()[k2] == b);
            if post.blocks()[k1][i1] == post.blocks()[k2][i2] {
                assert(pre.blocks()[k1].contains(b[i2]));
                assert(pre.in_pool(b[i2]));
            }
        } else if k1 == n && k2 < n {
            assert(post.blocks()[k1] == b);
            if post.blocks()[k1][i1] == post.blocks()[k2][i2] {
                assert(pre.blocks()[k2].contains(b[i1]));
                assert(pre.in_pool(b[i1]));
            }
        }
    }
    assert forall|id: usize| #[trigger]
        post.live_set().contains(id) implies 1 <= id < post.n_cells() && !post.is_free(id) by {
        assert(pre.live_set().contains(id));
        assert(!pre.is_free(id));
        if post.in_pool(id) {
            if b.contains(id) {
                let i = choose|i: int| 0 <= i < b.len() && b[i] == id;
                assert(pre.ok_free_id(b[i]));
            }
        }
    }
}

/// Pushing one free-eligible cell onto a cache with room preserves the
/// invariant and makes the cell free.
proof fn lemma_wf_cache_pushed(pre: Recycler, post: Recycler, cell: usize)
    requires
        pre.wf(),
        pre.cache().len() < 2 * BLOCK_SIZE,
        pre.ok_free_id(cell),
        !pre.is_free(cell),
        post.n_cells() == pre.n_cells(),
        forall|i: int| 0 <= i < pre.n_cells() ==> post.gen_of(i) == pre.gen_of(i),
        post.live_set() == pre.live_set(),
        post.cache() == pre.cache().push(cell),
        post.blocks() == pre.blocks(),
    ensures
        post.wf(),
        post.is_free(cell),
{
    let n = pre.cache().len() as int;
    assert forall|id: usize| post.ok_free_id(id) <==> pre.ok_free_id(id) by {}
    assert forall|id: usize| post.in_pool(id) <==> pre.in_pool(id) by {}
    assert(post.cache()[n] == cell);
    assert(post.cache().contains(cell));
    assert(post.cache().no_duplicates()) by {
        assert forall|i: int, j: int|
            0 <= i < post.cache().len() && 0 <= j < post.cache().len() && i
                != j implies post.cache()[i] != post.cache()[j] by {
            if i < n && j < n {
                assert(pre.cache()[i] == post.cache()[i]);
                assert(pre.cache()[j] == post.cache()[j]);
            } else if i < n && j == n {
                if post.cache()[i] == cell {
                    assert(pre.cache().contains(cell));
                }
            } else if i == n && j < n {
                if post.cache()[j] == cell {
                    assert(pre.cache().contains(cell));
                }
            }
        }
    }
    assert forall|i: int|
        0 <= i < post.cache().len() implies post.ok_free_id(#[trigger] post.cache()[i]) by {
        if i < n {
            assert(pre.ok_free_id(pre.cache()[i]));
        }
    }
    assert forall|j: int|
        0 <= j < post.cache().len() implies !post.in_pool(#[trigger] post.cache()[j]) by {
        if j < n {
            assert(!pre.in_pool(pre.cache()[j]));
        } else {
            assert(post.cache()[j] == cell);
        }
    }
    assert forall|id: usize| #[trigger]
        post.live_set().contains(id) implies 1 <= id < post.n_cells() && !post.is_free(id) by {
        assert(pre.live_set().contains(id));
        assert(!pre.is_free(id));
        if post.cache().contains(id) {
            let j = choose|j: int| 0 <= j < post.cache().len() && post.cache()[j] == id;
            if j < n {
                assert(pre.cache()[j] == id);
            } else {
                assert(id == cell);
            }
        }
    }
}

/// Number of free cells in the per-thread cache.
pub fn local_recycler_len(rec: &Recycler) -> (n: usize)
    ensures
        n == rec.cache().len(),
{
    rec.local.len()
}

/// Number of blocks in the cross-thread pool.
pub fn global_recycler_len(rec: &Recycler) -> (n: usize)
    ensures
        n == rec.blocks().len(),
{
    pool_len(&rec.global)
}

} // verus!
