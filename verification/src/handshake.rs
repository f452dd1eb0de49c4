//! The stop-request / stop-confirm handshake.
//!
//! Every running instance owns one half of two single-use channels: the
//! reconciler keeps the stop-request sender and the stop-confirm receiver,
//! the supervisor gets the matching receiver and sender inside the install
//! command. Retiring an instance sends the stop request and then blocks
//! until the supervisor confirms that the task has fully stopped, so
//! teardown is deterministic and sequential.

use vstd::prelude::*;

use futures::sync::oneshot;
use futures::Future;

verus! {

/// Declares futures' oneshot sending half, so handles can carry it.
#[verifier::external_type_specification]
#[verifier::external_body]
#[verifier::reject_recursive_types(T)]
pub struct ExOneshotSender<T>(oneshot::Sender<T>);

/// Declares futures' oneshot receiving half, so handles can carry it.
#[verifier::external_type_specification]
#[verifier::external_body]
#[verifier::reject_recursive_types(T)]
pub struct ExOneshotReceiver<T>(oneshot::Receiver<T>);

/// Relies on futures::sync::oneshot::channel: returns the two halves of a
/// fresh single-use channel; what is sent into the sender arrives at the
/// receiver.
#[verifier::external_body]
pub(crate) fn oneshot_unit() -> (oneshot::Sender<()>, oneshot::Receiver<()>) {
    oneshot::channel()
}

/// Relies on futures::sync::oneshot::Sender::send: delivers the unit value
/// to the receiving half, or reports it dropped; it never blocks and never
/// panics.
#[verifier::external_body]
pub(crate) fn send_unit(sender: oneshot::Sender<()>) {
    let _ = sender.send(());
}

/// Relies on futures::Future::wait on a oneshot receiver: blocks the calling
/// thread until the sending half sends or is dropped; it never panics.
#[verifier::external_body]
pub(crate) fn wait_unit(receiver: oneshot::Receiver<()>) {
    let _ = receiver.wait();
}

/// One supervised task instance, as the reconciler's cache holds it: its
/// identity, the sender that requests its stop and the receiver on which the
/// supervisor confirms the stop.
pub struct InstanceHandle {
    pub id: u64,
    pub stop_request: oneshot::Sender<()>,
    pub stop_confirm: oneshot::Receiver<()>,
}

impl View for InstanceHandle {
    type V = u64;

    open spec fn view(&self) -> u64 {
        self.id
    }
}

/// Retires one instance: first sends the stop request, then blocks until the
/// supervisor's stop confirm is observed (or the supervisor is gone), so the
/// underlying resource is no longer in use when this returns.
pub fn retire(handle: InstanceHandle) {
    let InstanceHandle { id: _, stop_request, stop_confirm } = handle;
    send_unit(stop_request);
    wait_unit(stop_confirm);
}

} // verus!
