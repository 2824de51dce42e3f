//! A liveness-tracking alternative to reference counting.
//!
//! A value is held by a unique owning handle ([`Own`]); any number of cheap,
//! copyable weak handles ([`Ref`]) may observe it. A weak handle can check at
//! any later time whether the value is still alive, but has no influence over
//! its lifetime: the owner alone decides when the value dies.
//!
//! Liveness is encoded by a generation-counter protocol. Every owner is bound
//! to one immortal counter cell; killing the owner advances the cell's
//! generation exactly once, which invalidates every weak handle that captured
//! the old generation. Cells are supplied and reclaimed by a two-level
//! [`Recycler`]; the destruction of the owned value is deferred through an
//! epoch-based reclamation service so that a reader already holding a borrow
//! is never pulled out from under.
//!
//! All shared services are explicit values: the cell [`Recycler`] and the
//! value [`Store`] are passed to each operation rather than living in ambient
//! global state.

mod epoch;
mod handle;
mod pool;
mod recycler;
mod store;

pub use epoch::pin;
pub use handle::{lemma_absent_address_never_resolves, lemma_dead_stays_dead};
pub use handle::{lemma_null_never_resolves, lemma_unique_owner_cells, IsPtr, Own, Ref};
pub use recycler::{empty_recycler, global_recycler_len, lemma_evolves_transitive};
pub use recycler::{local_recycler_len, Indirection, Recycler, BLOCK_SIZE};
pub use store::Store;
