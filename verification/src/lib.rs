//! A two-party rendezvous exchange.
//!
//! Two independent callers each submit a payload under the same shared key.
//! The first caller's payload is parked in a table together with the producer
//! half of a one-shot completion signal; the caller's task then awaits the
//! consumer half, a cooperative suspension that blocks no worker thread. The
//! second caller for the same key removes the entry, and each party
//! receives the other's payload with a role mark rewritten: the first
//! arrival's payload is marked as the initiating role, the second arrival's as
//! the responding role. Administrative eviction abandons a pending entry,
//! which releases the waiting caller with an error.

use vstd::prelude::*;

pub mod faults;
pub mod signal;
pub mod table;
pub mod transform;

verus! {

/// The two ways a rendezvous attempt fails; both are local, recoverable
/// conditions reported to the caller, never a process-level fault.
#[derive(Clone, Copy, Debug, PartialEq, Eq, Structural)]
pub enum RendezvousError {
    /// The counterpart will never arrive: the pending entry was evicted, or
    /// delivery to this caller failed, while the caller was suspended.
    PartnerUnavailable,
    /// The second caller arrived, but the first caller's consumer half was
    /// already gone; the pairing window has closed and no retry is attempted.
    DeliveryFailed,
}

} // verus!
