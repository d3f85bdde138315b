//! A ticket issuance and redemption protocol for access-controlled events.
//!
//! An event is registered with a fixed capacity; unique, holder-bound tickets
//! are issued against that capacity and locked as non-transferable
//! credentials; an event owner delegates check-in rights to gate agents; and a
//! redemption flips each ticket to its terminal state exactly once, leaving a
//! durable check-in record.
//!
//! All records live in a [`registry::Registry`], a model of the ledger's
//! account space keyed by derived addresses. Every state transition is an
//! all-or-nothing step: an operation that fails leaves the registry unchanged.

use vstd::prelude::*;

pub mod bytes;
pub mod errors;
pub mod laws;
pub mod pda;
pub mod records;
pub mod registry;
pub mod table;

verus! {

/// The per-event, per-wallet issuance cap: no wallet may accumulate more
/// than this many tickets for one event.
pub const PER_WALLET_LIMIT: u8 = 5;

} // verus!
