//! The ledger's record kinds. Each record lives at a derived key in the
//! registry; identities (signers, wallets, token accounts) are carried as
//! plain 32-byte values.

use vstd::prelude::*;

use crate::errors::TicketError;
use crate::PER_WALLET_LIMIT;

verus! {

/// Where a ticket's bound credential stands. Issuance mints a single unit
/// and freezes it under the event's own authority, so a live ticket's
/// credential is always locked; redemption thaws and burns it in the same
/// step, so no unlocked, unburned credential is ever observable.
#[derive(Clone, Copy, Debug, PartialEq, Eq, Structural)]
pub enum CredentialState {
    /// Minted and frozen: non-transferable, destructible only by the event.
    Locked,
    /// Thawed and burned by redemption: the credential no longer exists.
    Burned,
}

/// The capacity ledger: an event with an immutable identity and capacity
/// and a monotonically non-decreasing issued count.
pub struct Event {
    pub creator: Vec<u8>,
    pub name: Vec<u8>,
    pub date: i64,
    pub bump: u8,
    pub capacity: u32,
    pub issued_nfts: u32,
}

pub struct EventV {
    pub creator: Seq<u8>,
    pub name: Seq<u8>,
    pub date: i64,
    pub bump: u8,
    pub capacity: u32,
    pub issued_nfts: u32,
}

impl View for Event {
    type V = EventV;

    open spec fn view(&self) -> EventV {
        EventV {
            creator: self.creator@,
            name: self.name@,
            date: self.date,
            bump: self.bump,
            capacity: self.capacity,
            issued_nfts: self.issued_nfts,
        }
    }
}

impl Event {
    /// Atomically check `issued < capacity` and take one slot.
    /// Fails with `SoldOut`, changing nothing, when the event is full.
    pub fn reserve_slot(&mut self) -> (r: Result<(), TicketError>)
        ensures
            (r is Ok <==> old(self).issued_nfts < old(self).capacity),
            r is Ok ==> *final(self) == (Event { issued_nfts: (old(self).issued_nfts + 1) as u32, ..*old(self) }),
            r is Err ==> *final(self) == *old(self) && (r matches Err(e) && e == TicketError::SoldOut),
    {
        if self.issued_nfts < self.capacity {
            self.issued_nfts = self.issued_nfts + 1;
            Ok(())
        } else {
            Err(TicketError::SoldOut)
        }
    }
}

/// A holder-bound, single-use admission credential tied to one event.
pub struct Ticket {
    pub event: Vec<u8>,
    pub owner: Vec<u8>,
    pub nft_mint: Vec<u8>,
    pub nft_account: Vec<u8>,
    pub checked_in: bool,
    pub credential: CredentialState,
    pub bump: u8,
}

pub struct TicketV {
    pub event: Seq<u8>,
    pub owner: Seq<u8>,
    pub nft_mint: Seq<u8>,
    pub nft_account: Seq<u8>,
    pub checked_in: bool,
    pub credential: CredentialState,
    pub bump: u8,
}

impl View for Ticket {
    type V = TicketV;

    open spec fn view(&self) -> TicketV {
        TicketV {
            event: self.event@,
            owner: self.owner@,
            nft_mint: self.nft_mint@,
            nft_account: self.nft_account@,
            checked_in: self.checked_in,
            credential: self.credential,
            bump: self.bump,
        }
    }
}

/// A delegation record: the identity allowed to redeem tickets at one
/// entrypoint of one event. It grants no minting or administrative power.
pub struct GateAuthority {
    pub event: Vec<u8>,
    pub entrypoint_id: Vec<u8>,
    pub authority: Vec<u8>,
    pub bump: u8,
}

pub struct GateAuthorityV {
    pub event: Seq<u8>,
    pub entrypoint_id: Seq<u8>,
    pub authority: Seq<u8>,
    pub bump: u8,
}

impl View for GateAuthority {
    type V = GateAuthorityV;

    open spec fn view(&self) -> GateAuthorityV {
        GateAuthorityV {
            event: self.event@,
            entrypoint_id: self.entrypoint_id@,
            authority: self.authority@,
            bump: self.bump,
        }
    }
}

/// The durable audit record of one redemption: created once, never
/// mutated, independent of the ticket's own flag.
pub struct CheckInData {
    pub ticket: Vec<u8>,
    pub owner: Vec<u8>,
    pub timestamp: i64,
    pub bump: u8,
}

pub struct CheckInDataV {
    pub ticket: Seq<u8>,
    pub owner: Seq<u8>,
    pub timestamp: i64,
    pub bump: u8,
}

impl View for CheckInData {
    type V = CheckInDataV;

    open spec fn view(&self) -> CheckInDataV {
        CheckInDataV {
            ticket: self.ticket@,
            owner: self.owner@,
            timestamp: self.timestamp,
            bump: self.bump,
        }
    }
}

/// Secondary accounting: how many tickets one wallet has been issued for
/// one event, capped at [`PER_WALLET_LIMIT`].
pub struct WalletCounter {
    pub event: Vec<u8>,
    pub wallet: Vec<u8>,
    pub count: u8,
    pub bump: u8,
}

pub struct WalletCounterV {
    pub event: Seq<u8>,
    pub wallet: Seq<u8>,
    pub count: u8,
    pub bump: u8,
}

impl View for WalletCounter {
    type V = WalletCounterV;

    open spec fn view(&self) -> WalletCounterV {
        WalletCounterV {
            event: self.event@,
            wallet: self.wallet@,
            count: self.count,
            bump: self.bump,
        }
    }
}

impl WalletCounter {
    /// Atomically check the per-wallet cap and count `qty` more tickets.
    /// Fails with `PerWalletLimit`, changing nothing, when `count + qty`
    /// would pass the cap.
    pub fn increment_and_check(&mut self, qty: u8) -> (r: Result<(), TicketError>)
        requires
            old(self).count <= PER_WALLET_LIMIT,
        ensures
            (r is Ok <==> old(self).count + qty <= PER_WALLET_LIMIT),
            r is Ok ==> *final(self) == (WalletCounter { count: (old(self).count + qty) as u8, ..*old(self) }),
            r is Err ==> *final(self) == *old(self) && (r matches Err(e) && e == TicketError::PerWalletLimit),
    {
        if qty <= PER_WALLET_LIMIT - self.count {
            self.count = self.count + qty;
            Ok(())
        } else {
            Err(TicketError::PerWalletLimit)
        }
    }
}

} // verus!
