//! The error taxonomy. Every guard failure aborts its whole operation with a
//! distinct, caller-visible cause; no error is silently swallowed.

use vstd::prelude::*;

verus! {

/// Why an operation on the registry was refused.
#[derive(Clone, Copy, Debug, PartialEq, Eq, Structural)]
pub enum TicketError {
    /// The event has issued as many tickets as its capacity allows.
    SoldOut,
    /// Issuing would push the holder past the per-wallet cap for this event.
    PerWalletLimit,
    /// The presented ticket does not belong to the presented event.
    InvalidTicket,
    /// The caller is not the identity delegated to this entrypoint.
    UnauthorizedEntrypoint,
    /// The caller is not the event's recorded owner.
    Unauthorized,
    /// The ticket has already been redeemed; redemption is one-way.
    AlreadyCheckedIn,
    /// A record already occupies the derived address (a replay or a
    /// double-issuance, caught uniformly by the uniqueness derivation).
    DuplicateAccount,
    /// The event parameters are malformed (a capacity of zero).
    InvalidCapacity,
    /// No address could be derived from the seeds (a seed too long, or no
    /// viable bump).
    InvalidSeeds,
}

} // verus!
