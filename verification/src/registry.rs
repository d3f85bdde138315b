//! The registry: a model of the ledger's account space, five kinds of
//! record each addressed by a derived key, and the public operations that
//! move it from state to state. Every operation is all-or-nothing: it
//! either performs its whole effect or returns an error and changes
//! nothing.

use vstd::prelude::*;

use crate::bytes::clone_bytes;
use crate::bytes::bytes_eq;
use crate::errors::TicketError;
use crate::pda::{
    checkin_seeds, checkin_seeds_spec, derive_address, event_seeds, event_seeds_spec, gate_seeds,
    gate_seeds_spec, pda_of, ticket_seeds, ticket_seeds_spec, wallet_seeds, wallet_seeds_spec,
};
use crate::records::{
    CheckInData, CheckInDataV, CredentialState, Event, EventV, GateAuthority, GateAuthorityV,
    Ticket, TicketV, WalletCounter, WalletCounterV,
};
use crate::table::Table;
use crate::PER_WALLET_LIMIT;

verus! {

/// The ledger model: every record of the protocol, addressed by its
/// derived key.
pub struct Registry {
    program_id: Vec<u8>,
    events: Table<Event>,
    tickets: Table<Ticket>,
    gates: Table<GateAuthority>,
    checkins: Table<CheckInData>,
    counters: Table<WalletCounter>,
}

/// The registry as five maps from derived keys to record views.
pub struct RegistryV {
    pub program_id: Seq<u8>,
    pub events: Map<Seq<u8>, EventV>,
    pub tickets: Map<Seq<u8>, TicketV>,
    pub gates: Map<Seq<u8>, GateAuthorityV>,
    pub checkins: Map<Seq<u8>, CheckInDataV>,
    pub counters: Map<Seq<u8>, WalletCounterV>,
}

impl View for Registry {
    type V = RegistryV;

    closed spec fn view(&self) -> RegistryV {
        RegistryV {
            program_id: self.program_id@,
            events: self.events@,
            tickets: self.tickets@,
            gates: self.gates@,
            checkins: self.checkins@,
            counters: self.counters@,
        }
    }
}

/// The keys of the tickets in `tickets` that belong to the event at
/// `event_key` and are held by `owner`.
pub open spec fn wallet_set(
    tickets: Map<Seq<u8>, TicketV>,
    event_key: Seq<u8>,
    owner: Seq<u8>,
) -> Set<Seq<u8>> {
    tickets.dom().filter(
        |k: Seq<u8>| tickets[k].event == event_key && tickets[k].owner == owner,
    )
}

/// The keys of the tickets held by `owner` at the event at `event_key`.
pub open spec fn wallet_ticket_keys(rv: RegistryV, event_key: Seq<u8>, owner: Seq<u8>) -> Set<
    Seq<u8>,
> {
    wallet_set(rv.tickets, event_key, owner)
}

/// Every ticket is counted: for each event and wallet whose counter key
/// can be derived, the tickets that wallet holds for that event are no
/// more than its counter records. Together with the counter cap this puts
/// cumulative issuance to one wallet at or under the per-wallet limit.
pub open spec fn issuance_counted(rv: RegistryV) -> bool {
    forall|ek: Seq<u8>, ow: Seq<u8>| #![trigger wallet_ticket_keys(rv, ek, ow)]
        counter_key_of(rv, ek, ow) is Some ==> {
            &&& wallet_ticket_keys(rv, ek, ow).finite()
            &&& wallet_ticket_keys(rv, ek, ow).len() <= wallet_count(rv, ek, ow)
        }
}

/// The state invariant, held by every reachable registry:
/// no event has issued past its capacity, no wallet counter has passed the
/// per-wallet cap, every ticket and gate belongs to a registered event,
/// a ticket is checked in exactly when its bound credential is burned, and
/// every wallet's tickets are covered by its issuance counter.
pub open spec fn inv(rv: RegistryV) -> bool {
    &&& forall|k: Seq<u8>| #[trigger]
        rv.events.contains_key(k) ==> rv.events[k].issued_nfts <= rv.events[k].capacity
    &&& forall|k: Seq<u8>| #[trigger]
        rv.counters.contains_key(k) ==> rv.counters[k].count <= PER_WALLET_LIMIT
    &&& forall|k: Seq<u8>| #[trigger] rv.tickets.contains_key(k) ==> {
        &&& rv.events.contains_key(rv.tickets[k].event)
        &&& (rv.tickets[k].checked_in <==> rv.tickets[k].credential is Burned)
    }
    &&& forall|k: Seq<u8>| #[trigger]
        rv.gates.contains_key(k) ==> rv.events.contains_key(rv.gates[k].event)
    &&& issuance_counted(rv)
}

/// The derived key and bump of the event identified by `(name, date)`.
pub open spec fn event_key_of(rv: RegistryV, name: Seq<u8>, date: i64) -> Option<(Seq<u8>, u8)> {
    pda_of(rv.program_id, event_seeds_spec(name, date))
}

/// The derived key and bump of the wallet counter for `wallet` at the
/// event at `event_key`.
pub open spec fn counter_key_of(rv: RegistryV, event_key: Seq<u8>, wallet: Seq<u8>) -> Option<
    (Seq<u8>, u8),
> {
    pda_of(rv.program_id, wallet_seeds_spec(event_key, wallet))
}

/// The derived key and bump of `owner`'s ticket with issuance sequence
/// number `index` at the event at `event_key`.
pub open spec fn ticket_key_of(rv: RegistryV, event_key: Seq<u8>, owner: Seq<u8>, index: u8) -> Option<
    (Seq<u8>, u8),
> {
    pda_of(rv.program_id, ticket_seeds_spec(event_key, owner, index))
}

/// The derived key and bump of the delegation record for `entrypoint_id` at
/// the event at `event_key`.
pub open spec fn gate_key_of(rv: RegistryV, event_key: Seq<u8>, entrypoint_id: Seq<u8>) -> Option<
    (Seq<u8>, u8),
> {
    pda_of(rv.program_id, gate_seeds_spec(event_key, entrypoint_id))
}

/// The derived key and bump of the check-in record for the ticket at
/// `ticket_key` redeemed at clock reading `now`.
pub open spec fn checkin_key_of(rv: RegistryV, ticket_key: Seq<u8>, now: i64) -> Option<
    (Seq<u8>, u8),
> {
    pda_of(rv.program_id, checkin_seeds_spec(ticket_key, now))
}

/// How many tickets the registry has counted for `wallet` at the event at
/// `event_key`: the counter record's count, or zero before first issuance.
pub open spec fn wallet_count(rv: RegistryV, event_key: Seq<u8>, wallet: Seq<u8>) -> u8
    recommends
        counter_key_of(rv, event_key, wallet) is Some,
{
    let ck = (counter_key_of(rv, event_key, wallet)->0).0;
    if rv.counters.contains_key(ck) {
        rv.counters[ck].count
    } else {
        0
    }
}

/// When `init_event` succeeds: the capacity is positive, the event's key
/// can be derived, and no event occupies that key yet.
pub open spec fn init_event_permitted(rv: RegistryV, name: Seq<u8>, date: i64, capacity: u32) -> bool {
    &&& capacity > 0
    &&& event_key_of(rv, name, date) matches Some(p) && !rv.events.contains_key(p.0)
}

/// The error `init_event` returns when it is not permitted: the first
/// failing guard, in the order the guards are checked.
pub open spec fn init_event_err(rv: RegistryV, name: Seq<u8>, date: i64, capacity: u32) -> TicketError
    recommends
        !init_event_permitted(rv, name, date, capacity),
{
    if capacity == 0 {
        TicketError::InvalidCapacity
    } else if event_key_of(rv, name, date) is None {
        TicketError::InvalidSeeds
    } else {
        TicketError::DuplicateAccount
    }
}

/// The registry after a permitted `init_event`: one new event record with
/// nothing issued, and nothing else touched.
pub open spec fn init_event_post(
    rv: RegistryV,
    creator: Seq<u8>,
    name: Seq<u8>,
    date: i64,
    capacity: u32,
) -> RegistryV
    recommends
        init_event_permitted(rv, name, date, capacity),
{
    let p = event_key_of(rv, name, date)->0;
    RegistryV {
        events: rv.events.insert(
            p.0,
            EventV { creator, name, date, bump: p.1, capacity, issued_nfts: 0 },
        ),
        ..rv
    }
}

/// When `mint_and_freeze` succeeds: the event has a free slot, the
/// holder's counter key can be derived, the holder is under the per-wallet
/// cap, and the ticket's derived key is free.
pub open spec fn mint_permitted(rv: RegistryV, event_key: Seq<u8>, owner: Seq<u8>) -> bool
    recommends
        rv.events.contains_key(event_key),
{
    &&& rv.events[event_key].issued_nfts < rv.events[event_key].capacity
    &&& counter_key_of(rv, event_key, owner) is Some
    &&& wallet_count(rv, event_key, owner) + 1 <= PER_WALLET_LIMIT
    &&& ticket_key_of(rv, event_key, owner, wallet_count(rv, event_key, owner)) matches Some(p)
        && !rv.tickets.contains_key(p.0)
}

/// The error `mint_and_freeze` returns when it is not permitted: the first
/// failing guard, in the order the guards are checked.
pub open spec fn mint_err(rv: RegistryV, event_key: Seq<u8>, owner: Seq<u8>) -> TicketError
    recommends
        !mint_permitted(rv, event_key, owner),
{
    if rv.events[event_key].issued_nfts >= rv.events[event_key].capacity {
        TicketError::SoldOut
    } else if counter_key_of(rv, event_key, owner) is None {
        TicketError::InvalidSeeds
    } else if wallet_count(rv, event_key, owner) + 1 > PER_WALLET_LIMIT {
        TicketError::PerWalletLimit
    } else if ticket_key_of(rv, event_key, owner, wallet_count(rv, event_key, owner)) is None {
        TicketError::InvalidSeeds
    } else {
        TicketError::DuplicateAccount
    }
}

/// The registry after a permitted `mint_and_freeze`: the event's issued
/// count is up by one, a locked, unredeemed ticket bound to `owner` stands
/// at its derived key, the holder's counter is up by one, and nothing else
/// is touched.
pub open spec fn mint_post(
    rv: RegistryV,
    event_key: Seq<u8>,
    owner: Seq<u8>,
    nft_mint: Seq<u8>,
    nft_account: Seq<u8>,
) -> RegistryV
    recommends
        rv.events.contains_key(event_key),
        mint_permitted(rv, event_key, owner),
{
    let cnt = wallet_count(rv, event_key, owner);
    let ckp = counter_key_of(rv, event_key, owner)->0;
    let tkp = ticket_key_of(rv, event_key, owner, cnt)->0;
    let ev = rv.events[event_key];
    RegistryV {
        events: rv.events.insert(
            event_key,
            EventV { issued_nfts: (ev.issued_nfts + 1) as u32, ..ev },
        ),
        tickets: rv.tickets.insert(
            tkp.0,
            TicketV {
                event: event_key,
                owner,
                nft_mint,
                nft_account,
                checked_in: false,
                credential: CredentialState::Locked,
                bump: tkp.1,
            },
        ),
        counters: rv.counters.insert(
            ckp.0,
            WalletCounterV { event: event_key, wallet: owner, count: (cnt + 1) as u8, bump: ckp.1 },
        ),
        ..rv
    }
}

/// Whether any pair in `pairs` carries the key `k`.
pub open spec fn batch_contains(pairs: Seq<(Seq<u8>, u8)>, k: Seq<u8>) -> bool {
    exists|i: int| 0 <= i < pairs.len() && pairs[i].0 == k
}

/// Whether any of the first `n` pairs in `pairs` carries the key `k`.
pub open spec fn batch_contains_upto(pairs: Seq<(Seq<u8>, u8)>, n: int, k: Seq<u8>) -> bool {
    exists|i: int| 0 <= i < n && pairs[i].0 == k
}

/// The derived keys and bumps, in issuance order, of a batch of `n`
/// tickets for `owner` starting at sequence number `start` — or the first
/// failure: `InvalidSeeds` where a key cannot be derived,
/// `DuplicateAccount` where a derived key is already occupied or repeats
/// within the batch.
pub open spec fn batch_scan(
    rv: RegistryV,
    event_key: Seq<u8>,
    owner: Seq<u8>,
    start: u8,
    n: int,
) -> Result<Seq<(Seq<u8>, u8)>, TicketError>
    decreases n,
{
    if n <= 0 {
        Result::<Seq<(Seq<u8>, u8)>, TicketError>::Ok(Seq::empty())
    } else {
        match batch_scan(rv, event_key, owner, start, n - 1) {
            Result::Err(e) => Result::Err(e),
            Result::Ok(pfx) => match ticket_key_of(rv, event_key, owner, (start + n - 1) as u8) {
                Option::None => Result::Err(TicketError::InvalidSeeds),
                Option::Some(p) => if rv.tickets.contains_key(p.0) || batch_contains(pfx, p.0) {
                    Result::Err(TicketError::DuplicateAccount)
                } else {
                    Result::Ok(pfx.push(p))
                },
            },
        }
    }
}

/// The views of a batch's `(mint, holder account)` credential references.
pub open spec fn refs_view(nft_refs: Seq<(Vec<u8>, Vec<u8>)>) -> Seq<(Seq<u8>, Seq<u8>)> {
    Seq::new(nft_refs.len(), |i: int| (nft_refs[i].0@, nft_refs[i].1@))
}

/// The views of a batch's scanned `(key, bump)` pairs.
pub open spec fn pairs_view(pairs: Seq<(Vec<u8>, u8)>) -> Seq<(Seq<u8>, u8)> {
    Seq::new(pairs.len(), |i: int| (pairs[i].0@, pairs[i].1))
}

/// The keys of a batch's pairs, in issuance order.
pub open spec fn pair_keys(pairs: Seq<(Seq<u8>, u8)>) -> Seq<Seq<u8>> {
    Seq::new(pairs.len(), |i: int| pairs[i].0)
}

/// The ticket record standing at position `i` of a batch.
pub open spec fn batch_ticket(
    event_key: Seq<u8>,
    owner: Seq<u8>,
    nft_refs: Seq<(Seq<u8>, Seq<u8>)>,
    pairs: Seq<(Seq<u8>, u8)>,
    i: int,
) -> TicketV {
    TicketV {
        event: event_key,
        owner,
        nft_mint: nft_refs[i].0,
        nft_account: nft_refs[i].1,
        checked_in: false,
        credential: CredentialState::Locked,
        bump: pairs[i].1,
    }
}

/// The ticket map after the first `n` tickets of a batch are inserted.
pub open spec fn insert_batch(
    tickets: Map<Seq<u8>, TicketV>,
    event_key: Seq<u8>,
    owner: Seq<u8>,
    nft_refs: Seq<(Seq<u8>, Seq<u8>)>,
    pairs: Seq<(Seq<u8>, u8)>,
    n: int,
) -> Map<Seq<u8>, TicketV>
    decreases n,
{
    if n <= 0 {
        tickets
    } else {
        insert_batch(tickets, event_key, owner, nft_refs, pairs, n - 1).insert(
            pairs[n - 1].0,
            batch_ticket(event_key, owner, nft_refs, pairs, n - 1),
        )
    }
}

/// When `mint_batch` succeeds on a positive quantity: the whole batch fits
/// the event's remaining capacity and the holder's remaining per-wallet
/// allowance, and every ticket key in the batch derives fresh and
/// distinct.
pub open spec fn mint_batch_permitted(
    rv: RegistryV,
    event_key: Seq<u8>,
    owner: Seq<u8>,
    qty: u8,
) -> bool
    recommends
        rv.events.contains_key(event_key),
        qty > 0,
{
    &&& rv.events[event_key].issued_nfts + qty <= rv.events[event_key].capacity
    &&& counter_key_of(rv, event_key, owner) is Some
    &&& wallet_count(rv, event_key, owner) + qty <= PER_WALLET_LIMIT
    &&& batch_scan(rv, event_key, owner, wallet_count(rv, event_key, owner), qty as int) is Ok
}

/// The error `mint_batch` returns when it is not permitted: the first
/// failing guard, in the order the guards are checked.
pub open spec fn mint_batch_err(rv: RegistryV, event_key: Seq<u8>, owner: Seq<u8>, qty: u8) -> TicketError
    recommends
        !mint_batch_permitted(rv, event_key, owner, qty),
{
    if rv.events[event_key].issued_nfts + qty > rv.events[event_key].capacity {
        TicketError::SoldOut
    } else if counter_key_of(rv, event_key, owner) is None {
        TicketError::InvalidSeeds
    } else if wallet_count(rv, event_key, owner) + qty > PER_WALLET_LIMIT {
        TicketError::PerWalletLimit
    } else {
        match batch_scan(rv, event_key, owner, wallet_count(rv, event_key, owner), qty as int) {
            Result::Err(e) => e,
            Result::Ok(_) => TicketError::DuplicateAccount,
        }
    }
}

/// The registry after a permitted `mint_batch`: the event's issued count
/// is up by `qty`, one locked ticket per batch position stands at its
/// derived key, the holder's counter is up by `qty`, and nothing else is
/// touched.
pub open spec fn mint_batch_post(
    rv: RegistryV,
    event_key: Seq<u8>,
    owner: Seq<u8>,
    qty: u8,
    nft_refs: Seq<(Seq<u8>, Seq<u8>)>,
) -> RegistryV
    recommends
        rv.events.contains_key(event_key),
        mint_batch_permitted(rv, event_key, owner, qty),
{
    let cnt = wallet_count(rv, event_key, owner);
    let ckp = counter_key_of(rv, event_key, owner)->0;
    let pairs = batch_scan(rv, event_key, owner, cnt, qty as int)->Ok_0;
    let ev = rv.events[event_key];
    RegistryV {
        events: rv.events.insert(
            event_key,
            EventV { issued_nfts: (ev.issued_nfts + qty) as u32, ..ev },
        ),
        tickets: insert_batch(rv.tickets, event_key, owner, nft_refs, pairs, qty as int),
        counters: rv.counters.insert(
            ckp.0,
            WalletCounterV { event: event_key, wallet: owner, count: (cnt + qty) as u8, bump: ckp.1 },
        ),
        ..rv
    }
}

proof fn lemma_batch_scan_err(
    rv: RegistryV,
    event_key: Seq<u8>,
    owner: Seq<u8>,
    start: u8,
    n: int,
    m: int,
)
    requires
        0 <= n <= m,
        batch_scan(rv, event_key, owner, start, n) is Err,
    ensures
        batch_scan(rv, event_key, owner, start, m) == batch_scan(rv, event_key, owner, start, n),
    decreases m,
{
    if m > n {
        lemma_batch_scan_err(rv, event_key, owner, start, n, m - 1);
    }
}

pub(crate) proof fn lemma_batch_scan_ok(rv: RegistryV, event_key: Seq<u8>, owner: Seq<u8>, start: u8, n: int)
    requires
        0 <= n,
        batch_scan(rv, event_key, owner, start, n) is Ok,
    ensures
        ({
            let pairs = batch_scan(rv, event_key, owner, start, n)->Ok_0;
            &&& pairs.len() == n
            &&& forall|j: int|
                0 <= j < n ==> ticket_key_of(rv, event_key, owner, (start + j) as u8)
                    == Option::Some((#[trigger] pairs[j]))
            &&& forall|j: int| 0 <= j < n ==> !rv.tickets.contains_key((#[trigger] pairs[j]).0)
            &&& forall|j1: int, j2: int| 0 <= j1 < j2 < n ==> pairs[j1].0 != pairs[j2].0
        }),
    decreases n,
{
    if n > 0 {
        lemma_batch_scan_ok(rv, event_key, owner, start, n - 1);
        let pfx = batch_scan(rv, event_key, owner, start, n - 1)->Ok_0;
        let pairs = batch_scan(rv, event_key, owner, start, n)->Ok_0;
        assert(pairs == pfx.push(pairs[n - 1]));
        assert(forall|j: int| 0 <= j < n - 1 ==> pairs[j] == pfx[j]);
        assert forall|j1: int, j2: int| 0 <= j1 < j2 < n implies pairs[j1].0 != pairs[j2].0 by {
            if j2 == n - 1 {
                assert(!batch_contains(pfx, pairs[n - 1].0));
                assert(pfx[j1].0 != pairs[n - 1].0);
            }
        }
    }
}

pub(crate) proof fn lemma_insert_batch_other(
    tickets: Map<Seq<u8>, TicketV>,
    event_key: Seq<u8>,
    owner: Seq<u8>,
    nft_refs: Seq<(Seq<u8>, Seq<u8>)>,
    pairs: Seq<(Seq<u8>, u8)>,
    n: int,
    k: Seq<u8>,
)
    requires
        0 <= n,
        !batch_contains_upto(pairs, n, k),
    ensures
        ({
            let m = insert_batch(tickets, event_key, owner, nft_refs, pairs, n);
            &&& m.contains_key(k) == tickets.contains_key(k)
            &&& (tickets.contains_key(k) ==> m[k] == tickets[k])
        }),
    decreases n,
{
    if n > 0 {
        assert(pairs[n - 1].0 != k);
        lemma_insert_batch_other(tickets, event_key, owner, nft_refs, pairs, n - 1, k);
    }
}

proof fn lemma_insert_batch_at(
    tickets: Map<Seq<u8>, TicketV>,
    event_key: Seq<u8>,
    owner: Seq<u8>,
    nft_refs: Seq<(Seq<u8>, Seq<u8>)>,
    pairs: Seq<(Seq<u8>, u8)>,
    n: int,
    j: int,
)
    requires
        0 <= j < n,
        forall|j1: int, j2: int| 0 <= j1 < j2 < n ==> pairs[j1].0 != pairs[j2].0,
    ensures
        ({
            let m = insert_batch(tickets, event_key, owner, nft_refs, pairs, n);
            &&& m.contains_key(pairs[j].0)
            &&& m[pairs[j].0] == batch_ticket(event_key, owner, nft_refs, pairs, j)
        }),
    decreases n,
{
    if j < n - 1 {
        assert(pairs[j].0 != pairs[n - 1].0);
        lemma_insert_batch_at(tickets, event_key, owner, nft_refs, pairs, n - 1, j);
    }
}

proof fn lemma_counted_frame(rv1: RegistryV, rv2: RegistryV)
    requires
        issuance_counted(rv1),
        rv2.program_id == rv1.program_id,
        rv2.tickets == rv1.tickets,
        rv2.counters == rv1.counters,
    ensures
        issuance_counted(rv2),
{
    assert forall|ek: Seq<u8>, ow: Seq<u8>|
        counter_key_of(rv2, ek, ow) is Some implies {
        &&& (#[trigger] wallet_ticket_keys(rv2, ek, ow)).finite()
        &&& wallet_ticket_keys(rv2, ek, ow).len() <= wallet_count(rv2, ek, ow)
    } by {
        assert(wallet_ticket_keys(rv1, ek, ow) =~= wallet_ticket_keys(rv2, ek, ow));
        assert(wallet_count(rv2, ek, ow) == wallet_count(rv1, ek, ow));
    }
}

proof fn lemma_counted_ticket_update(rv1: RegistryV, rv2: RegistryV, tk: Seq<u8>, tv: TicketV)
    requires
        issuance_counted(rv1),
        rv1.tickets.contains_key(tk),
        tv.event == rv1.tickets[tk].event,
        tv.owner == rv1.tickets[tk].owner,
        rv2.program_id == rv1.program_id,
        rv2.tickets == rv1.tickets.insert(tk, tv),
        rv2.counters == rv1.counters,
    ensures
        issuance_counted(rv2),
{
    assert forall|ek: Seq<u8>, ow: Seq<u8>|
        counter_key_of(rv2, ek, ow) is Some implies {
        &&& (#[trigger] wallet_ticket_keys(rv2, ek, ow)).finite()
        &&& wallet_ticket_keys(rv2, ek, ow).len() <= wallet_count(rv2, ek, ow)
    } by {
        assert(wallet_ticket_keys(rv1, ek, ow) =~= wallet_ticket_keys(rv2, ek, ow));
        assert(wallet_count(rv2, ek, ow) == wallet_count(rv1, ek, ow));
    }
}

proof fn lemma_counted_mint(
    rv1: RegistryV,
    rv2: RegistryV,
    event_key: Seq<u8>,
    owner: Seq<u8>,
    tk: Seq<u8>,
    tv: TicketV,
    ck: Seq<u8>,
    cv: WalletCounterV,
)
    requires
        issuance_counted(rv1),
        counter_key_of(rv1, event_key, owner) matches Some(p) && ck == p.0,
        !rv1.tickets.contains_key(tk),
        tv.event == event_key,
        tv.owner == owner,
        cv.count >= wallet_count(rv1, event_key, owner) + 1,
        rv2.program_id == rv1.program_id,
        rv2.tickets == rv1.tickets.insert(tk, tv),
        rv2.counters == rv1.counters.insert(ck, cv),
    ensures
        issuance_counted(rv2),
{
    broadcast use vstd::set::axiom_set_insert_len;

    assert forall|ek: Seq<u8>, ow: Seq<u8>|
        counter_key_of(rv2, ek, ow) is Some implies {
        &&& (#[trigger] wallet_ticket_keys(rv2, ek, ow)).finite()
        &&& wallet_ticket_keys(rv2, ek, ow).len() <= wallet_count(rv2, ek, ow)
    } by {
        let s1 = wallet_ticket_keys(rv1, ek, ow);
        let s2 = wallet_ticket_keys(rv2, ek, ow);
        assert(s1.finite() && s1.len() <= wallet_count(rv1, ek, ow));
        let q = (counter_key_of(rv1, ek, ow)->0).0;
        if ek == event_key && ow == owner {
            assert(s2 =~= s1.insert(tk));
            assert(!s1.contains(tk));
            assert(wallet_count(rv2, ek, ow) == cv.count);
        } else {
            assert(s2 =~= s1);
            if q == ck {
                assert(wallet_count(rv1, ek, ow) == wallet_count(rv1, event_key, owner));
                assert(wallet_count(rv2, ek, ow) == cv.count);
            } else {
                assert(wallet_count(rv2, ek, ow) == wallet_count(rv1, ek, ow));
            }
        }
    }
}

proof fn lemma_insert_batch_wallet_sets(
    tickets: Map<Seq<u8>, TicketV>,
    event_key: Seq<u8>,
    owner: Seq<u8>,
    nft_refs: Seq<(Seq<u8>, Seq<u8>)>,
    pairs: Seq<(Seq<u8>, u8)>,
    n: int,
    ek: Seq<u8>,
    ow: Seq<u8>,
)
    requires
        0 <= n <= pairs.len(),
        wallet_set(tickets, ek, ow).finite(),
    ensures
        ({
            let s2 = wallet_set(insert_batch(tickets, event_key, owner, nft_refs, pairs, n), ek, ow);
            &&& s2.finite()
            &&& s2.len() <= wallet_set(tickets, ek, ow).len() + (if ek == event_key && ow == owner {
                n
            } else {
                0
            })
        }),
    decreases n,
{
    broadcast use vstd::set::axiom_set_insert_len;

    if n > 0 {
        lemma_insert_batch_wallet_sets(tickets, event_key, owner, nft_refs, pairs, n - 1, ek, ow);
        let m1 = insert_batch(tickets, event_key, owner, nft_refs, pairs, n - 1);
        let m2 = insert_batch(tickets, event_key, owner, nft_refs, pairs, n);
        let s1 = wallet_set(m1, ek, ow);
        let s2 = wallet_set(m2, ek, ow);
        if ek == event_key && ow == owner {
            assert(s2.subset_of(s1.insert(pairs[n - 1].0)));
            vstd::set_lib::lemma_len_subset(s2, s1.insert(pairs[n - 1].0));
        } else {
            assert(s2.subset_of(s1));
            vstd::set_lib::lemma_len_subset(s2, s1);
        }
    }
}

proof fn lemma_counted_mint_batch(
    rv1: RegistryV,
    rv2: RegistryV,
    event_key: Seq<u8>,
    owner: Seq<u8>,
    nft_refs: Seq<(Seq<u8>, Seq<u8>)>,
    pairs: Seq<(Seq<u8>, u8)>,
    n: int,
    ck: Seq<u8>,
    cv: WalletCounterV,
)
    requires
        issuance_counted(rv1),
        counter_key_of(rv1, event_key, owner) matches Some(p) && ck == p.0,
        0 <= n <= pairs.len(),
        cv.count >= wallet_count(rv1, event_key, owner) + n,
        rv2.program_id == rv1.program_id,
        rv2.tickets == insert_batch(rv1.tickets, event_key, owner, nft_refs, pairs, n),
        rv2.counters == rv1.counters.insert(ck, cv),
    ensures
        issuance_counted(rv2),
{
    assert forall|ek: Seq<u8>, ow: Seq<u8>|
        counter_key_of(rv2, ek, ow) is Some implies {
        &&& (#[trigger] wallet_ticket_keys(rv2, ek, ow)).finite()
        &&& wallet_ticket_keys(rv2, ek, ow).len() <= wallet_count(rv2, ek, ow)
    } by {
        let s1 = wallet_ticket_keys(rv1, ek, ow);
        assert(s1.finite() && s1.len() <= wallet_count(rv1, ek, ow));
        lemma_insert_batch_wallet_sets(rv1.tickets, event_key, owner, nft_refs, pairs, n, ek, ow);
        let q = (counter_key_of(rv1, ek, ow)->0).0;
        if ek == event_key && ow == owner {
            assert(wallet_count(rv2, ek, ow) == cv.count);
        } else {
            if q == ck {
                assert(wallet_count(rv1, ek, ow) == wallet_count(rv1, event_key, owner));
                assert(wallet_count(rv2, ek, ow) == cv.count);
            } else {
                assert(wallet_count(rv2, ek, ow) == wallet_count(rv1, ek, ow));
            }
        }
    }
}

/// When `assign_entrypoint` succeeds: the caller is the event's recorded
/// owner and a delegation key can be derived. Overwriting an existing gate
/// record is permitted: re-assigning an entrypoint updates its authority.
pub open spec fn assign_permitted(
    rv: RegistryV,
    caller: Seq<u8>,
    event_key: Seq<u8>,
    entrypoint_id: Seq<u8>,
) -> bool
    recommends
        rv.events.contains_key(event_key),
{
    &&& rv.events[event_key].creator == caller
    &&& gate_key_of(rv, event_key, entrypoint_id) is Some
}

/// The error `assign_entrypoint` returns when it is not permitted.
pub open spec fn assign_err(
    rv: RegistryV,
    caller: Seq<u8>,
    event_key: Seq<u8>,
    entrypoint_id: Seq<u8>,
) -> TicketError
    recommends
        !assign_permitted(rv, caller, event_key, entrypoint_id),
{
    if rv.events[event_key].creator != caller {
        TicketError::Unauthorized
    } else {
        TicketError::InvalidSeeds
    }
}

/// The registry after a permitted `assign_entrypoint`: a gate record for
/// `(event, entrypoint)` holds `authority`, and nothing else is touched.
pub open spec fn assign_post(
    rv: RegistryV,
    event_key: Seq<u8>,
    entrypoint_id: Seq<u8>,
    authority: Seq<u8>,
) -> RegistryV
    recommends
        gate_key_of(rv, event_key, entrypoint_id) is Some,
{
    let p = gate_key_of(rv, event_key, entrypoint_id)->0;
    RegistryV {
        gates: rv.gates.insert(
            p.0,
            GateAuthorityV { event: event_key, entrypoint_id, authority, bump: p.1 },
        ),
        ..rv
    }
}

/// When `check_in` succeeds: the presented gate guards the presented event,
/// the caller is its delegated authority; the ticket belongs to that
/// event and has not been redeemed; and a fresh check-in record can be
/// created at the derived key for this ticket and clock reading.
pub open spec fn check_in_permitted(
    rv: RegistryV,
    caller: Seq<u8>,
    event_key: Seq<u8>,
    gate_key: Seq<u8>,
    ticket_key: Seq<u8>,
    now: i64,
) -> bool
    recommends
        rv.gates.contains_key(gate_key),
        rv.tickets.contains_key(ticket_key),
{
    &&& rv.gates[gate_key].event == event_key
    &&& rv.gates[gate_key].authority == caller
    &&& rv.tickets[ticket_key].event == event_key
    &&& !rv.tickets[ticket_key].checked_in
    &&& checkin_key_of(rv, ticket_key, now) matches Some(p) && !rv.checkins.contains_key(p.0)
}

/// The error `check_in` returns when it is not permitted: the first
/// failing guard, in the order the guards are checked.
pub open spec fn check_in_err(
    rv: RegistryV,
    caller: Seq<u8>,
    event_key: Seq<u8>,
    gate_key: Seq<u8>,
    ticket_key: Seq<u8>,
    now: i64,
) -> TicketError
    recommends
        !check_in_permitted(rv, caller, event_key, gate_key, ticket_key, now),
{
    if rv.gates[gate_key].event != event_key || rv.gates[gate_key].authority != caller {
        TicketError::UnauthorizedEntrypoint
    } else if rv.tickets[ticket_key].event != event_key {
        TicketError::InvalidTicket
    } else if rv.tickets[ticket_key].checked_in {
        TicketError::AlreadyCheckedIn
    } else if checkin_key_of(rv, ticket_key, now) is None {
        TicketError::InvalidSeeds
    } else {
        TicketError::DuplicateAccount
    }
}

/// The registry after a permitted `check_in`: the ticket is flipped to its
/// terminal state with its credential burned, a check-in record carrying
/// the ticket's holder and the clock reading stands at the derived key,
/// and nothing else is touched.
pub open spec fn check_in_post(
    rv: RegistryV,
    caller: Seq<u8>,
    event_key: Seq<u8>,
    gate_key: Seq<u8>,
    ticket_key: Seq<u8>,
    now: i64,
) -> RegistryV
    recommends
        check_in_permitted(rv, caller, event_key, gate_key, ticket_key, now),
{
    let p = checkin_key_of(rv, ticket_key, now)->0;
    let t = rv.tickets[ticket_key];
    RegistryV {
        tickets: rv.tickets.insert(
            ticket_key,
            TicketV { checked_in: true, credential: CredentialState::Burned, ..t },
        ),
        checkins: rv.checkins.insert(
            p.0,
            CheckInDataV { ticket: ticket_key, owner: t.owner, timestamp: now, bump: p.1 },
        ),
        ..rv
    }
}

fn pairs_contains(pairs: &Vec<(Vec<u8>, u8)>, k: &Vec<u8>) -> (r: bool)
    ensures
        r == batch_contains(pairs_view(pairs@), k@),
{
    let n = pairs.len();
    let mut i: usize = 0;
    while i < n
        invariant
            n == pairs@.len(),
            i <= n,
            forall|j: int| 0 <= j < i ==> pairs@[j].0@ != k@,
        decreases n - i,
    {
        if bytes_eq(&pairs[i].0, k) {
            proof {
                assert(pairs_view(pairs@)[i as int].0 == k@);
            }
            return true;
        }
        i += 1;
    }
    proof {
        assert forall|j: int| 0 <= j < pairs_view(pairs@).len()
            implies pairs_view(pairs@)[j].0 != k@ by {
            assert(pairs@[j].0@ != k@);
        }
    }
    false
}

impl Registry {
    /// All five tables are well-formed and the program id is an address.
    pub closed spec fn wf(self) -> bool {
        &&& self.program_id@.len() == 32
        &&& self.events.wf()
        &&& self.tickets.wf()
        &&& self.gates.wf()
        &&& self.checkins.wf()
        &&& self.counters.wf()
    }

    /// An empty registry for the program at `program_id`.
    pub fn new(program_id: Vec<u8>) -> (r: Registry)
        requires
            program_id@.len() == 32,
        ensures
            r.wf(),
            inv(r@),
            r@.program_id == program_id@,
            r@.events == Map::<Seq<u8>, EventV>::empty(),
            r@.tickets == Map::<Seq<u8>, TicketV>::empty(),
            r@.gates == Map::<Seq<u8>, GateAuthorityV>::empty(),
            r@.checkins == Map::<Seq<u8>, CheckInDataV>::empty(),
            r@.counters == Map::<Seq<u8>, WalletCounterV>::empty(),
    {
        let r = Registry {
            program_id,
            events: Table::new(),
            tickets: Table::new(),
            gates: Table::new(),
            checkins: Table::new(),
            counters: Table::new(),
        };
        proof {
            broadcast use vstd::set::axiom_set_empty_len;

            assert forall|ek: Seq<u8>, ow: Seq<u8>|
                counter_key_of(r@, ek, ow) is Some implies {
                &&& (#[trigger] wallet_ticket_keys(r@, ek, ow)).finite()
                &&& wallet_ticket_keys(r@, ek, ow).len() <= wallet_count(r@, ek, ow)
            } by {
                assert(wallet_ticket_keys(r@, ek, ow) =~= Set::<Seq<u8>>::empty());
            }
        }
        r
    }

    /// The event record at `key`, if one exists.
    pub fn get_event(&self, key: &Vec<u8>) -> (r: Option<&Event>)
        requires
            self.wf(),
        ensures
            match r {
                Some(e) => self@.events.contains_key(key@) && e@ == self@.events[key@],
                None => !self@.events.contains_key(key@),
            },
    {
        self.events.get(key)
    }

    /// The ticket record at `key`, if one exists.
    pub fn get_ticket(&self, key: &Vec<u8>) -> (r: Option<&Ticket>)
        requires
            self.wf(),
        ensures
            match r {
                Some(t) => self@.tickets.contains_key(key@) && t@ == self@.tickets[key@],
                None => !self@.tickets.contains_key(key@),
            },
    {
        self.tickets.get(key)
    }

    /// The delegation record at `key`, if one exists.
    pub fn get_gate(&self, key: &Vec<u8>) -> (r: Option<&GateAuthority>)
        requires
            self.wf(),
        ensures
            match r {
                Some(g) => self@.gates.contains_key(key@) && g@ == self@.gates[key@],
                None => !self@.gates.contains_key(key@),
            },
    {
        self.gates.get(key)
    }

    /// The check-in record at `key`, if one exists.
    pub fn get_checkin(&self, key: &Vec<u8>) -> (r: Option<&CheckInData>)
        requires
            self.wf(),
        ensures
            match r {
                Some(c) => self@.checkins.contains_key(key@) && c@ == self@.checkins[key@],
                None => !self@.checkins.contains_key(key@),
            },
    {
        self.checkins.get(key)
    }

    /// The wallet counter record at `key`, if one exists.
    pub fn get_counter(&self, key: &Vec<u8>) -> (r: Option<&WalletCounter>)
        requires
            self.wf(),
        ensures
            match r {
                Some(c) => self@.counters.contains_key(key@) && c@ == self@.counters[key@],
                None => !self@.counters.contains_key(key@),
            },
    {
        self.counters.get(key)
    }

    /// How many tickets have been counted for `wallet` at the event at
    /// `event_key`: zero before first issuance. Fails with `InvalidSeeds`
    /// where the counter's key cannot be derived.
    pub fn get_wallet_count(&self, event_key: &Vec<u8>, wallet: &Vec<u8>) -> (r: Result<
        u8,
        TicketError,
    >)
        requires
            self.wf(),
        ensures
            (r matches Ok(c) ==> counter_key_of(self@, event_key@, wallet@) is Some && c
                == wallet_count(self@, event_key@, wallet@)),
            (r matches Err(e) ==> counter_key_of(self@, event_key@, wallet@) is None && e
                == TicketError::InvalidSeeds),
    {
        let cseeds = wallet_seeds(event_key, wallet);
        match derive_address(&self.program_id, &cseeds) {
            None => Err(TicketError::InvalidSeeds),
            Some((counter_key, _counter_bump)) => match self.counters.get(&counter_key) {
                Some(c) => Ok(c.count),
                None => Ok(0),
            },
        }
    }

    /// Register an event with a fixed capacity and nothing issued. The
    /// caller becomes the event's recorded owner. Fails with
    /// `InvalidCapacity` on a capacity of zero, `InvalidSeeds` where no key
    /// can be derived, and `DuplicateAccount` where the `(name, date)`
    /// identity is already taken.
    pub fn init_event(
        &mut self,
        creator: &Vec<u8>,
        name: Vec<u8>,
        date: i64,
        capacity: u32,
    ) -> (r: Result<Vec<u8>, TicketError>)
        requires
            old(self).wf(),
            inv(old(self)@),
        ensures
            final(self).wf(),
            inv(final(self)@),
            (r is Ok <==> init_event_permitted(old(self)@, name@, date, capacity)),
            (r matches Ok(k) ==> {
                &&& k@ == (event_key_of(old(self)@, name@, date)->0).0
                &&& final(self)@ == init_event_post(old(self)@, creator@, name@, date, capacity)
            }),
            (r matches Err(e) ==> {
                &&& *final(self) == *old(self)
                &&& e == init_event_err(old(self)@, name@, date, capacity)
            }),
    {
        let ghost rv0 = self@;
        if capacity == 0 {
            return Err(TicketError::InvalidCapacity);
        }
        let seeds = event_seeds(&name, date);
        match derive_address(&self.program_id, &seeds) {
            None => Err(TicketError::InvalidSeeds),
            Some((key, bump)) => {
                let ev = Event {
                    creator: clone_bytes(creator),
                    name,
                    date,
                    bump,
                    capacity,
                    issued_nfts: 0,
                };
                let inserted = self.events.insert_if_absent(clone_bytes(&key), ev);
                if inserted {
                    proof {
                        let p = event_key_of(rv0, ev.name@, date)->0;
                        assert(self@.events =~= rv0.events.insert(p.0, ev@));
                        assert(self@ == init_event_post(rv0, creator@, ev.name@, date, capacity));
                        lemma_counted_frame(rv0, self@);
                        assert forall|k: Seq<u8>| #[trigger] self@.tickets.contains_key(k)
                            implies self@.events.contains_key(self@.tickets[k].event) by {
                            assert(rv0.events.contains_key(rv0.tickets[k].event));
                        }
                        assert forall|k: Seq<u8>| #[trigger] self@.gates.contains_key(k)
                            implies self@.events.contains_key(self@.gates[k].event) by {
                            assert(rv0.events.contains_key(rv0.gates[k].event));
                        }
                    }
                    Ok(key)
                } else {
                    Err(TicketError::DuplicateAccount)
                }
            },
        }
    }

    /// Issue one ticket: take a capacity slot, count it against the
    /// holder's per-wallet cap, and bind the credential — mint a single
    /// unit to the holder's account, hand the lock authority to the event,
    /// and freeze the account — so the ticket is non-transferable from the
    /// moment it exists. `nft_mint` and `nft_account` are the fresh token
    /// identity and holder account the credential is bound to. All
    /// sub-steps commit or none do.
    pub fn mint_and_freeze(
        &mut self,
        event_key: &Vec<u8>,
        payer: &Vec<u8>,
        nft_mint: Vec<u8>,
        nft_account: Vec<u8>,
    ) -> (r: Result<Vec<u8>, TicketError>)
        requires
            old(self).wf(),
            inv(old(self)@),
            old(self)@.events.contains_key(event_key@),
        ensures
            final(self).wf(),
            inv(final(self)@),
            (r is Ok <==> mint_permitted(old(self)@, event_key@, payer@)),
            (r matches Ok(k) ==> {
                &&& k@ == (ticket_key_of(
                    old(self)@,
                    event_key@,
                    payer@,
                    wallet_count(old(self)@, event_key@, payer@),
                )->0).0
                &&& final(self)@ == mint_post(
                    old(self)@,
                    event_key@,
                    payer@,
                    nft_mint@,
                    nft_account@,
                )
            }),
            (r matches Err(e) ==> {
                &&& *final(self) == *old(self)
                &&& e == mint_err(old(self)@, event_key@, payer@)
            }),
    {
        let ghost rv0 = self@;
        let mut new_event = match self.events.get(event_key) {
            Some(e) => Event {
                creator: clone_bytes(&e.creator),
                name: clone_bytes(&e.name),
                date: e.date,
                bump: e.bump,
                capacity: e.capacity,
                issued_nfts: e.issued_nfts,
            },
            None => {
                proof {
                    assert(false);
                }
                return Err(TicketError::SoldOut);
            },
        };
        proof {
            assert(new_event@ == rv0.events[event_key@]);
        }
        if let Err(e) = new_event.reserve_slot() {
            return Err(e);
        }
        let cseeds = wallet_seeds(event_key, payer);
        let (counter_key, counter_bump) = match derive_address(&self.program_id, &cseeds) {
            None => {
                return Err(TicketError::InvalidSeeds);
            },
            Some(p) => p,
        };
        let cnt: u8 = match self.counters.get(&counter_key) {
            Some(c) => c.count,
            None => 0,
        };
        proof {
            assert(cnt == wallet_count(rv0, event_key@, payer@));
        }
        let mut counter = WalletCounter {
            event: clone_bytes(event_key),
            wallet: clone_bytes(payer),
            count: cnt,
            bump: counter_bump,
        };
        if let Err(e) = counter.increment_and_check(1) {
            return Err(e);
        }
        let tseeds = ticket_seeds(event_key, payer, cnt);
        let (ticket_key, ticket_bump) = match derive_address(&self.program_id, &tseeds) {
            None => {
                return Err(TicketError::InvalidSeeds);
            },
            Some(p) => p,
        };
        let ticket = Ticket {
            event: clone_bytes(event_key),
            owner: clone_bytes(payer),
            nft_mint,
            nft_account,
            checked_in: false,
            credential: CredentialState::Locked,
            bump: ticket_bump,
        };
        let ghost ticket_v = ticket@;
        let inserted = self.tickets.insert_if_absent(clone_bytes(&ticket_key), ticket);
        if !inserted {
            return Err(TicketError::DuplicateAccount);
        }
        let ghost counter_v = counter@;
        let replaced = self.events.replace(event_key, new_event);
        self.counters.upsert(clone_bytes(&counter_key), counter);
        proof {
            assert(replaced);
            assert(self@ == mint_post(rv0, event_key@, payer@, ticket_v.nft_mint, ticket_v.nft_account));
            lemma_counted_mint(
                rv0,
                self@,
                event_key@,
                payer@,
                ticket_key@,
                ticket_v,
                counter_key@,
                counter_v,
            );
            let tkp = ticket_key_of(rv0, event_key@, payer@, cnt)->0;
            assert forall|k: Seq<u8>| #[trigger] self@.tickets.contains_key(k) implies {
                &&& self@.events.contains_key(self@.tickets[k].event)
                &&& (self@.tickets[k].checked_in <==> self@.tickets[k].credential is Burned)
            } by {
                if k != tkp.0 {
                    assert(rv0.tickets.contains_key(k));
                    assert(rv0.events.contains_key(rv0.tickets[k].event));
                }
            }
            assert forall|k: Seq<u8>| #[trigger] self@.gates.contains_key(k)
                implies self@.events.contains_key(self@.gates[k].event) by {
                assert(rv0.events.contains_key(rv0.gates[k].event));
            }
        }
        Ok(ticket_key)
    }

    /// Issue `qty` tickets to one holder as a single all-or-nothing step:
    /// the capacity guard, the per-wallet cap, and the freshness of every
    /// derived ticket key are checked for the whole batch before anything
    /// is written, so a failing batch leaves the registry exactly as it
    /// was. A quantity of zero is a no-op that succeeds with no tickets.
    /// `nft_refs` carries one fresh `(mint, holder account)` credential
    /// reference per ticket.
    #[verifier::loop_isolation(false)]
    pub fn mint_batch(
        &mut self,
        event_key: &Vec<u8>,
        owner: &Vec<u8>,
        qty: u8,
        nft_refs: Vec<(Vec<u8>, Vec<u8>)>,
    ) -> (r: Result<Vec<Vec<u8>>, TicketError>)
        requires
            old(self).wf(),
            inv(old(self)@),
            old(self)@.events.contains_key(event_key@),
            nft_refs@.len() == qty,
        ensures
            final(self).wf(),
            inv(final(self)@),
            qty == 0 ==> (r matches Ok(ks) && ks@.len() == 0) && *final(self) == *old(self),
            qty > 0 ==> ((r is Ok) <==> mint_batch_permitted(old(self)@, event_key@, owner@, qty)),
            qty > 0 ==> (r matches Ok(ks) ==> {
                let pairs = batch_scan(
                    old(self)@,
                    event_key@,
                    owner@,
                    wallet_count(old(self)@, event_key@, owner@),
                    qty as int,
                )->Ok_0;
                &&& ks.deep_view() == pair_keys(pairs)
                &&& final(self)@ == mint_batch_post(
                    old(self)@,
                    event_key@,
                    owner@,
                    qty,
                    refs_view(nft_refs@),
                )
            }),
            qty > 0 ==> (r matches Err(e) ==> {
                &&& *final(self) == *old(self)
                &&& e == mint_batch_err(old(self)@, event_key@, owner@, qty)
            }),
    {
        let ghost rv0 = self@;
        if qty == 0 {
            return Ok(Vec::new());
        }
        let new_event = match self.events.get(event_key) {
            Some(e) => {
                if qty as u32 > e.capacity - e.issued_nfts {
                    return Err(TicketError::SoldOut);
                }
                Event {
                    creator: clone_bytes(&e.creator),
                    name: clone_bytes(&e.name),
                    date: e.date,
                    bump: e.bump,
                    capacity: e.capacity,
                    issued_nfts: e.issued_nfts + qty as u32,
                }
            },
            None => {
                proof {
                    assert(false);
                }
                return Err(TicketError::SoldOut);
            },
        };
        let cseeds = wallet_seeds(event_key, owner);
        let (counter_key, counter_bump) = match derive_address(&self.program_id, &cseeds) {
            None => {
                return Err(TicketError::InvalidSeeds);
            },
            Some(p) => p,
        };
        let cnt: u8 = match self.counters.get(&counter_key) {
            Some(c) => c.count,
            None => 0,
        };
        proof {
            assert(cnt == wallet_count(rv0, event_key@, owner@));
        }
        let mut counter = WalletCounter {
            event: clone_bytes(event_key),
            wallet: clone_bytes(owner),
            count: cnt,
            bump: counter_bump,
        };
        if let Err(e) = counter.increment_and_check(qty) {
            return Err(e);
        }
        // Phase one: derive every ticket key of the batch and check each is
        // fresh and unrepeated, before anything is written.
        let mut pairs: Vec<(Vec<u8>, u8)> = Vec::new();
        proof {
            assert(pairs_view(pairs@) =~= Seq::<(Seq<u8>, u8)>::empty());
        }
        let mut j: u8 = 0;
        while j < qty
            invariant
                j <= qty,
                pairs@.len() == j,
                batch_scan(rv0, event_key@, owner@, cnt, j as int) == Result::<
                    Seq<(Seq<u8>, u8)>,
                    TicketError,
                >::Ok(pairs_view(pairs@)),
            decreases qty - j,
        {
            let tseeds = ticket_seeds(event_key, owner, cnt + j);
            let (tkey, tbump) = match derive_address(&self.program_id, &tseeds) {
                None => {
                    proof {
                        lemma_batch_scan_err(rv0, event_key@, owner@, cnt, j + 1, qty as int);
                    }
                    return Err(TicketError::InvalidSeeds);
                },
                Some(p) => p,
            };
            let occupied = match self.tickets.get(&tkey) {
                Some(_) => true,
                None => false,
            };
            if occupied || pairs_contains(&pairs, &tkey) {
                proof {
                    lemma_batch_scan_err(rv0, event_key@, owner@, cnt, j + 1, qty as int);
                }
                return Err(TicketError::DuplicateAccount);
            }
            let ghost prev_pairs = pairs@;
            pairs.push((tkey, tbump));
            proof {
                assert(pairs_view(pairs@) =~= pairs_view(prev_pairs).push(
                    (pairs@[j as int].0@, pairs@[j as int].1),
                ));
            }
            j += 1;
        }
        let ghost spairs = pairs_view(pairs@);
        proof {
            lemma_batch_scan_ok(rv0, event_key@, owner@, cnt, qty as int);
        }
        // Phase two: every key is fresh and distinct, so each insertion
        // succeeds; then take the capacity slots and count the batch.
        let mut ks: Vec<Vec<u8>> = Vec::new();
        let mut i: usize = 0;
        while i < qty as usize
            invariant
                i <= qty as usize,
                self.wf(),
                self@.program_id == rv0.program_id,
                self@.events == rv0.events,
                self@.gates == rv0.gates,
                self@.checkins == rv0.checkins,
                self@.counters == rv0.counters,
                self@.tickets == insert_batch(
                    rv0.tickets,
                    event_key@,
                    owner@,
                    refs_view(nft_refs@),
                    spairs,
                    i as int,
                ),
                ks@.len() == i,
                forall|j2: int| 0 <= j2 < i ==> ks@[j2]@ == spairs[j2].0,
            decreases qty as usize - i,
        {
            let tkt = Ticket {
                event: clone_bytes(event_key),
                owner: clone_bytes(owner),
                nft_mint: clone_bytes(&nft_refs[i].0),
                nft_account: clone_bytes(&nft_refs[i].1),
                checked_in: false,
                credential: CredentialState::Locked,
                bump: pairs[i].1,
            };
            proof {
                assert(tkt@ == batch_ticket(event_key@, owner@, refs_view(nft_refs@), spairs, i as int));
                lemma_insert_batch_other(
                    rv0.tickets,
                    event_key@,
                    owner@,
                    refs_view(nft_refs@),
                    spairs,
                    i as int,
                    spairs[i as int].0,
                );
            }
            let inserted = self.tickets.insert_if_absent(clone_bytes(&pairs[i].0), tkt);
            proof {
                assert(inserted);
            }
            ks.push(clone_bytes(&pairs[i].0));
            i += 1;
        }
        let ghost counter_v = counter@;
        let replaced = self.events.replace(event_key, new_event);
        self.counters.upsert(clone_bytes(&counter_key), counter);
        proof {
            assert(replaced);
            assert(self@ == mint_batch_post(rv0, event_key@, owner@, qty, refs_view(nft_refs@)));
            lemma_counted_mint_batch(
                rv0,
                self@,
                event_key@,
                owner@,
                refs_view(nft_refs@),
                spairs,
                qty as int,
                counter_key@,
                counter_v,
            );
            assert(ks.deep_view() =~~= pair_keys(spairs));
            assert forall|k: Seq<u8>| #[trigger] self@.tickets.contains_key(k) implies {
                &&& self@.events.contains_key(self@.tickets[k].event)
                &&& (self@.tickets[k].checked_in <==> self@.tickets[k].credential is Burned)
            } by {
                if batch_contains_upto(spairs, qty as int, k) {
                    let j2 = choose|j2: int| 0 <= j2 < qty as int && spairs[j2].0 == k;
                    lemma_insert_batch_at(
                        rv0.tickets,
                        event_key@,
                        owner@,
                        refs_view(nft_refs@),
                        spairs,
                        qty as int,
                        j2,
                    );
                } else {
                    lemma_insert_batch_other(
                        rv0.tickets,
                        event_key@,
                        owner@,
                        refs_view(nft_refs@),
                        spairs,
                        qty as int,
                        k,
                    );
                    assert(rv0.tickets.contains_key(k));
                    assert(rv0.events.contains_key(rv0.tickets[k].event));
                }
            }
            assert forall|k: Seq<u8>| #[trigger] self@.gates.contains_key(k)
                implies self@.events.contains_key(self@.gates[k].event) by {
                assert(rv0.events.contains_key(rv0.gates[k].event));
            }
        }
        Ok(ks)
    }

    /// Delegate check-in rights at one entrypoint of an event. Only the
    /// event's recorded owner may create or overwrite the delegation; any
    /// other caller fails with `Unauthorized`. Re-assigning an entrypoint
    /// overwrites its authority.
    pub fn assign_entrypoint(
        &mut self,
        caller: &Vec<u8>,
        event_key: &Vec<u8>,
        entrypoint_id: Vec<u8>,
        authority: Vec<u8>,
    ) -> (r: Result<Vec<u8>, TicketError>)
        requires
            old(self).wf(),
            inv(old(self)@),
            old(self)@.events.contains_key(event_key@),
        ensures
            final(self).wf(),
            inv(final(self)@),
            (r is Ok <==> assign_permitted(old(self)@, caller@, event_key@, entrypoint_id@)),
            (r matches Ok(k) ==> {
                &&& k@ == (gate_key_of(old(self)@, event_key@, entrypoint_id@)->0).0
                &&& final(self)@ == assign_post(old(self)@, event_key@, entrypoint_id@, authority@)
            }),
            (r matches Err(e) ==> {
                &&& *final(self) == *old(self)
                &&& e == assign_err(old(self)@, caller@, event_key@, entrypoint_id@)
            }),
    {
        let ghost rv0 = self@;
        let owner_ok = match self.events.get(event_key) {
            Some(ev) => bytes_eq(&ev.creator, caller),
            None => false,
        };
        if !owner_ok {
            return Err(TicketError::Unauthorized);
        }
        let seeds = gate_seeds(event_key, &entrypoint_id);
        match derive_address(&self.program_id, &seeds) {
            None => Err(TicketError::InvalidSeeds),
            Some((key, bump)) => {
                let gate = GateAuthority {
                    event: clone_bytes(event_key),
                    entrypoint_id,
                    authority,
                    bump,
                };
                self.gates.upsert(clone_bytes(&key), gate);
                proof {
                    let p = gate_key_of(rv0, event_key@, gate.entrypoint_id@)->0;
                    assert(self@ == assign_post(rv0, event_key@, gate.entrypoint_id@, gate.authority@));
                    lemma_counted_frame(rv0, self@);
                    assert forall|k: Seq<u8>| #[trigger] self@.gates.contains_key(k)
                        implies self@.events.contains_key(self@.gates[k].event) by {
                        if k != p.0 {
                            assert(rv0.events.contains_key(rv0.gates[k].event));
                        }
                    }
                }
                Ok(key)
            },
        }
    }

    /// Redeem a ticket at a gate. The caller must be that gate's delegated
    /// authority, and gate and ticket must both belong to the presented
    /// event; a redeemed ticket cannot be redeemed again. On success the
    /// bound credential is thawed and burned under the event's own
    /// authority, an immutable check-in record is written at a key fresh
    /// for `(ticket, now)`, and the ticket flips to its terminal state.
    pub fn check_in(
        &mut self,
        caller: &Vec<u8>,
        event_key: &Vec<u8>,
        gate_key: &Vec<u8>,
        ticket_key: &Vec<u8>,
        now: i64,
    ) -> (r: Result<Vec<u8>, TicketError>)
        requires
            old(self).wf(),
            inv(old(self)@),
            old(self)@.gates.contains_key(gate_key@),
            old(self)@.tickets.contains_key(ticket_key@),
        ensures
            final(self).wf(),
            inv(final(self)@),
            (r is Ok <==> check_in_permitted(
                old(self)@,
                caller@,
                event_key@,
                gate_key@,
                ticket_key@,
                now,
            )),
            (r matches Ok(k) ==> {
                &&& k@ == (checkin_key_of(old(self)@, ticket_key@, now)->0).0
                &&& final(self)@ == check_in_post(
                    old(self)@,
                    caller@,
                    event_key@,
                    gate_key@,
                    ticket_key@,
                    now,
                )
            }),
            (r matches Err(e) ==> {
                &&& *final(self) == *old(self)
                &&& e == check_in_err(old(self)@, caller@, event_key@, gate_key@, ticket_key@, now)
            }),
    {
        let ghost rv0 = self@;
        let gate_ok = match self.gates.get(gate_key) {
            Some(g) => bytes_eq(&g.event, event_key) && bytes_eq(&g.authority, caller),
            None => false,
        };
        if !gate_ok {
            return Err(TicketError::UnauthorizedEntrypoint);
        }
        let (new_ticket, holder) = match self.tickets.get(ticket_key) {
            Some(t) => {
                if !bytes_eq(&t.event, event_key) {
                    return Err(TicketError::InvalidTicket);
                }
                if t.checked_in {
                    return Err(TicketError::AlreadyCheckedIn);
                }
                let holder = clone_bytes(&t.owner);
                let new_ticket = Ticket {
                    event: clone_bytes(&t.event),
                    owner: clone_bytes(&t.owner),
                    nft_mint: clone_bytes(&t.nft_mint),
                    nft_account: clone_bytes(&t.nft_account),
                    checked_in: true,
                    credential: CredentialState::Burned,
                    bump: t.bump,
                };
                (new_ticket, holder)
            },
            None => {
                proof {
                    assert(false);
                }
                return Err(TicketError::InvalidTicket);
            },
        };
        let seeds = checkin_seeds(ticket_key, now);
        match derive_address(&self.program_id, &seeds) {
            None => Err(TicketError::InvalidSeeds),
            Some((key, bump)) => {
                let record = CheckInData {
                    ticket: clone_bytes(ticket_key),
                    owner: holder,
                    timestamp: now,
                    bump,
                };
                let inserted = self.checkins.insert_if_absent(clone_bytes(&key), record);
                if !inserted {
                    return Err(TicketError::DuplicateAccount);
                }
                let ghost new_ticket_v = new_ticket@;
                let replaced = self.tickets.replace(ticket_key, new_ticket);
                proof {
                    assert(replaced);
                    lemma_counted_ticket_update(rv0, self@, ticket_key@, new_ticket_v);
                    assert(self@ == check_in_post(
                        rv0,
                        caller@,
                        event_key@,
                        gate_key@,
                        ticket_key@,
                        now,
                    ));
                    assert forall|k: Seq<u8>| #[trigger] self@.tickets.contains_key(k) implies {
                        &&& self@.events.contains_key(self@.tickets[k].event)
                        &&& (self@.tickets[k].checked_in <==> self@.tickets[k].credential
                            is Burned)
                    } by {
                        if k != ticket_key@ {
                            assert(rv0.tickets.contains_key(k));
                            assert(rv0.events.contains_key(rv0.tickets[k].event));
                        } else {
                            assert(rv0.events.contains_key(rv0.tickets[ticket_key@].event));
                        }
                    }
                }
                Ok(key)
            },
        }
    }
}

} // verus!
