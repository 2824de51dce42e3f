//! The reclamation service, consumed from `crossbeam_epoch`.
//!
//! The service provides thread pinning and deferred execution: an action
//! handed to [`defer_drop`] runs only once no thread that was pinned at the
//! time could still observe superseded state. The library uses it for exactly
//! one purpose — running a reclaimed value's destructor no sooner than safe.

use vstd::prelude::*;

verus! {

/// Proof that the current thread is pinned.
///
/// Relies on `crossbeam_epoch::Guard`: while a `Guard` is held, actions
/// deferred by any thread do not run.
#[verifier::external_type_specification]
#[verifier::external_body]
pub struct ExGuard(crossbeam_epoch::Guard);

/// Pin the current thread.
///
/// Relies on `crossbeam_epoch::pin`: cheap, never fails, and keeps deferred
/// actions from running until the returned guard is dropped.
#[verifier::external_body]
pub fn pin() -> crossbeam_epoch::Guard {
    crossbeam_epoch::pin()
}

/// Schedule `v`'s destructor to run once every currently pinned thread has
/// unpinned.
///
/// Relies on `crossbeam_epoch::Guard::defer`: the handed closure runs no
/// sooner than safe, with no further ordering guarantee.
#[verifier::external_body]
pub(crate) fn defer_drop<V: Send + 'static>(guard: &crossbeam_epoch::Guard, v: V) {
    guard.defer(move || drop(v));
}

} // verus!
