//! The bounded, non-blocking channel between the control thread and the
//! audio thread.
use vstd::prelude::*;

verus! {

/// Relies on crossbeam_channel::Sender, carried as an opaque value.
#[verifier::external_type_specification]
#[verifier::external_body]
#[verifier::reject_recursive_types(T)]
pub struct ExSender<T>(crossbeam_channel::Sender<T>);

/// Relies on crossbeam_channel::Receiver, carried as an opaque value.
#[verifier::external_type_specification]
#[verifier::external_body]
#[verifier::reject_recursive_types(T)]
pub struct ExReceiver<T>(crossbeam_channel::Receiver<T>);

/// Relies on crossbeam_channel::Sender::try_send: it either queues `item` at
/// once or gives it back because the channel is full or disconnected; it
/// never blocks. Which happens depends on the receiving thread.
#[verifier::external_body]
pub(crate) fn try_send_item<T>(tx: &crossbeam_channel::Sender<T>, item: T) -> (sent: bool) {
    tx.try_send(item).is_ok()
}

/// Relies on crossbeam_channel::Receiver::try_recv: it takes the oldest
/// queued item, if there is one, without blocking. Which item, if any,
/// depends on the sending thread.
#[verifier::external_body]
pub(crate) fn try_recv_item<T>(rx: &crossbeam_channel::Receiver<T>) -> (r: Option<T>) {
    rx.try_recv().ok()
}

} // verus!
