//! The completion signal: a single-producer, single-consumer, exactly-once
//! delivery primitive.
//!
//! The producer half is parked in the table together with the first arrival's
//! payload; the consumer half is handed to the suspended first caller, whose
//! task awaits it cooperatively — no worker thread is blocked, and the
//! table's lock is never held across the wait. The producer delivers at most
//! one value; the consumer resolves either to that value or, once the
//! producer is dropped without sending, to the abandonment of the
//! rendezvous. What the consumer resolved to is settled into the caller's
//! outcome by the verified `settle_wait`.

use vstd::prelude::*;

use crate::RendezvousError;

verus! {

/// The producer half of tokio's one-shot channel, opaque to the verifier.
#[verifier::external_type_specification]
#[verifier::external_body]
#[verifier::reject_recursive_types(T)]
pub struct ExSender<T>(tokio::sync::oneshot::Sender<T>);

/// The consumer half of tokio's one-shot channel, opaque to the verifier;
/// awaiting it is the caller's cooperative suspension point, outside the
/// library.
#[verifier::external_type_specification]
#[verifier::external_body]
#[verifier::reject_recursive_types(T)]
pub struct ExReceiver<T>(tokio::sync::oneshot::Receiver<T>);

/// The error the consumer half resolves to when its producer is dropped
/// without sending; declared because it appears in the consumer's interface,
/// claimed to be nothing more.
#[verifier::external_type_specification]
#[verifier::external_body]
pub struct ExRecvError(tokio::sync::oneshot::error::RecvError);

/// Relies on tokio::sync::oneshot::channel: a fresh, connected
/// producer/consumer pair. A sent value is parked in the channel, so
/// delivery needs no waiting consumer; awaiting the consumer half suspends
/// the task cooperatively until the producer sends or is dropped. Nothing is
/// promised of the two opaque halves.
#[verifier::external_body]
pub(crate) fn signal_channel() -> (r: (
    tokio::sync::oneshot::Sender<Vec<u8>>,
    tokio::sync::oneshot::Receiver<Vec<u8>>,
))
{
    tokio::sync::oneshot::channel()
}

/// Relies on tokio::sync::oneshot::Sender::send: synchronous, consuming the
/// producer half; the value is accepted exactly when the consumer half has
/// not yet been dropped. Whether that holds depends on the consumer's side,
/// so nothing can be promised of the outcome.
#[verifier::external_body]
pub(crate) fn try_deliver(tx: tokio::sync::oneshot::Sender<Vec<u8>>, v: Vec<u8>) -> (r: bool) {
    tx.send(v).is_ok()
}

/// Decides the suspended caller's outcome from what its consumer half
/// resolved to: a delivered payload is the successful result; an abandoned
/// producer means the partner will never arrive.
pub fn settle_wait(msg: Option<Vec<u8>>) -> (r: Result<Vec<u8>, RendezvousError>)
    ensures
        msg matches Some(v) ==> r == Ok::<Vec<u8>, RendezvousError>(v),
        msg is None ==> r == Err::<Vec<u8>, RendezvousError>(RendezvousError::PartnerUnavailable),
{
    match msg {
        Some(v) => Ok(v),
        None => Err(RendezvousError::PartnerUnavailable),
    }
}

} // verus!
