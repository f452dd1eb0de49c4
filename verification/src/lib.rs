//! Resource-reconciliation engine for long-running daemons.
//!
//! A daemon built on this crate keeps one immutable configuration snapshot,
//! reloads it on a signal, validates the new snapshot, diffs the desired
//! resources against the running ones and drives a supervisor that installs
//! new task instances and retires old ones through a stop-request /
//! stop-confirm handshake.
//!
//! The pieces, leaves first: [`store`] holds the swappable snapshot;
//! [`validation`] collects the results of one validation pass; [`model`]
//! describes what a snapshot asks for; [`reconcile`] diffs the desired
//! resources against the cache of running ones and stages the changes;
//! [`handshake`] is the stop-request / stop-confirm exchange; [`supervisor`]
//! decides how one group's running jobs answer installs, stop requests and
//! settled jobs; [`dispatch`] turns OS signals into actions; [`engine`]
//! wires it all: bootstrap, reload and the two-phase commit; [`error`]
//! formats error chains for the log.

use vstd::prelude::*;

pub mod dispatch;
pub mod engine;
pub mod error;
pub mod handshake;
pub mod model;
pub mod reconcile;
pub mod store;
pub mod supervisor;
pub mod validation;

verus! {

/// A configuration fragment carrying no data at all.
///
/// Used as the extra configuration of listeners that need none.
#[derive(Clone, Copy, Debug, PartialEq, Eq, Structural, Default)]
pub struct Empty {}

} // verus!
