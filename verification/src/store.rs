//! The process-wide configuration store.
//!
//! One atomically swappable holder of the current immutable configuration
//! snapshot. Snapshots are only ever replaced wholesale — on a committed
//! reload — never edited in place, so a reader's copy stays stable for as
//! long as it keeps it.
//!
//! The holder is arc_swap's `ArcSwap`. Its type cannot be declared to the
//! verifier (the strategy types inside its default parameter are private to
//! arc_swap), so the store wraps it in an opaque struct and states what the
//! two operations do through the `stored_snapshot` name.

use vstd::prelude::*;

use std::sync::Arc;

use crate::model::{ConfigSnapshot, TcpListenModel};

verus! {

/// The store itself. The engine is the single writer: replacing the
/// snapshot goes through `&mut self`, while any number of readers may load
/// concurrently through the shared reference.
#[verifier::external_body]
pub struct ConfigStore {
    inner: arc_swap::ArcSwap<ConfigSnapshot>,
}

/// The snapshot a store currently holds.
pub uninterp spec fn stored_snapshot(s: ConfigStore) -> Seq<TcpListenModel>;

impl ConfigStore {
    /// Relies on arc_swap::ArcSwapAny::new: the fresh store holds exactly
    /// the snapshot it was given.
    #[verifier::external_body]
    pub fn new(initial: ConfigSnapshot) -> (s: Self)
        ensures
            stored_snapshot(s) == initial@,
    {
        ConfigStore { inner: arc_swap::ArcSwap::new(Arc::new(initial)) }
    }

    /// Relies on arc_swap::ArcSwapAny::load_full: returns (a copy of) the
    /// snapshot the store holds; with the engine as the single writer, that
    /// is the last snapshot stored.
    #[verifier::external_body]
    pub fn load(&self) -> (c: ConfigSnapshot)
        ensures
            c@ == stored_snapshot(*self),
    {
        self.inner.load_full().as_ref().clone()
    }

    /// Relies on arc_swap::ArcSwapAny::store: replaces the held snapshot
    /// wholesale; further loads yield the new value.
    #[verifier::external_body]
    pub fn store(&mut self, c: ConfigSnapshot)
        ensures
            stored_snapshot(*final(self)) == c@,
    {
        self.inner.store(Arc::new(c));
    }
}

} // verus!
