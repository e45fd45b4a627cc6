//! The broadcast slot for the pagination status: a last-value-cached
//! observable that any number of subscribers can watch. The slot itself
//! lives in an outside crate and is opaque here; the verified state
//! machine keeps its own authoritative copy of the status and mirrors
//! every change into the slot.

use vstd::prelude::*;
use crate::pagination::RoomPaginationStatus;

verus! {

/// A shared, single-writer multi-reader slot holding the current
/// pagination status of one room.
#[verifier::external_body]
pub struct StatusObservable {
    inner: eyeball::SharedObservable<RoomPaginationStatus>,
}

/// A subscription to a [`StatusObservable`]: it sees the value at
/// subscribe time and every subsequent change, in order, with no
/// buffering beyond the latest value.
#[verifier::external_body]
pub struct StatusSubscriber {
    /// The underlying subscription, free for unverified callers to await.
    pub inner: eyeball::Subscriber<RoomPaginationStatus>,
}

/// Relies on `eyeball::SharedObservable::new`: a fresh slot holding the
/// given initial value, with no subscribers yet.
#[verifier::external_body]
pub fn observable_new(initial: RoomPaginationStatus) -> (r: StatusObservable) {
    StatusObservable { inner: eyeball::SharedObservable::new(initial) }
}

/// Relies on `eyeball::SharedObservable::set`: stores the value in the
/// slot and notifies every subscriber.
#[verifier::external_body]
pub fn observable_set(obs: &StatusObservable, value: RoomPaginationStatus) {
    let _ = obs.inner.set(value);
}

/// Relies on `eyeball::SharedObservable::subscribe`: a new subscriber
/// positioned at the value currently in the slot.
#[verifier::external_body]
pub fn observable_subscribe(obs: &StatusObservable) -> (r: StatusSubscriber) {
    StatusSubscriber { inner: obs.inner.subscribe() }
}

} // verus!
