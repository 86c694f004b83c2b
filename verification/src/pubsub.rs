//! The pub/sub fan-out primitive: a broadcast channel of byte strings, one
//! per subscribed channel name, taken from tokio. The calls the store makes
//! are declared here with the contracts tokio's source shows.
use vstd::prelude::*;

verus! {

#[verifier::external_type_specification]
#[verifier::external_body]
#[verifier::reject_recursive_types(T)]
pub struct ExBroadcastSender<T>(tokio::sync::broadcast::Sender<T>);

#[verifier::external_type_specification]
#[verifier::external_body]
#[verifier::reject_recursive_types(T)]
pub struct ExBroadcastReceiver<T>(tokio::sync::broadcast::Receiver<T>);

#[verifier::external_type_specification]
#[verifier::external_body]
#[verifier::reject_recursive_types(T)]
pub struct ExBroadcastSendError<T>(tokio::sync::broadcast::error::SendError<T>);

/// Relies on tokio's `broadcast::channel`: creates a channel; it panics only
/// when the capacity is zero or does not fit the ring buffer.
#[verifier::external_body]
pub(crate) fn broadcast_channel(capacity: usize) -> (r: (
    tokio::sync::broadcast::Sender<Vec<u8>>,
    tokio::sync::broadcast::Receiver<Vec<u8>>,
))
    requires
        1 <= capacity <= usize::MAX / 2,
{
    tokio::sync::broadcast::channel(capacity)
}

/// Relies on tokio's `broadcast::Sender::send`: it returns the number of
/// active receivers, which is at least one, and fails exactly when there are
/// none.
#[verifier::external_body]
pub(crate) fn broadcast_send(sender: &tokio::sync::broadcast::Sender<Vec<u8>>, value: Vec<u8>) -> (r:
    Result<usize, tokio::sync::broadcast::error::SendError<Vec<u8>>>)
    ensures
        r matches Ok(n) ==> n >= 1,
{
    sender.send(value)
}

/// Relies on tokio's `broadcast::Sender::subscribe`: it hands out a new
/// receiver for the channel.
#[verifier::external_body]
pub(crate) fn broadcast_subscribe(sender: &tokio::sync::broadcast::Sender<Vec<u8>>) -> (r:
    tokio::sync::broadcast::Receiver<Vec<u8>>)
{
    sender.subscribe()
}

} // verus!
