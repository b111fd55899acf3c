//! Trusted declarations for the standard mpsc channel endpoints that the
//! pipeline blocks hold. What travels over a channel depends on the thread
//! at the other end, so the wrappers promise nothing about the values; the
//! blocks state what they do with whatever arrives.

use vstd::prelude::*;

verus! {

#[verifier::external_type_specification]
#[verifier::external_body]
#[verifier::reject_recursive_types(T)]
/// Declares `std::sync::mpsc::Receiver` so blocks can hold one.
pub struct ExReceiver<T>(std::sync::mpsc::Receiver<T>);

#[verifier::external_type_specification]
#[verifier::external_body]
#[verifier::reject_recursive_types(T)]
/// Declares `std::sync::mpsc::Sender` so blocks can hold one.
pub struct ExSender<T>(std::sync::mpsc::Sender<T>);

/// Relies on `mpsc::Receiver::recv`: blocks until a value arrives and
/// returns it, or returns nothing once every sender is dropped and the
/// channel is drained. Which value arrives depends on the sending thread,
/// so nothing is promised of it.
#[verifier::external_body]
pub(crate) fn channel_recv<T>(rx: &std::sync::mpsc::Receiver<T>) -> Option<T> {
    rx.recv().ok()
}

/// Relies on `mpsc::Sender::send`: hands the value to the channel, and
/// reports false when the receiving end is gone. Whether the receiver
/// still listens depends on the other thread, so nothing is promised.
#[verifier::external_body]
pub(crate) fn channel_send<T>(tx: &std::sync::mpsc::Sender<T>, value: T) -> bool {
    tx.send(value).is_ok()
}

} // verus!
