//! The protocol's laws, stated and proved over the registry's transition
//! specifications. Together with each operation's contract — success if
//! and only if the operation is permitted, the exact successor state on
//! success, and an unchanged registry on every error — these pin down the
//! lifecycle guarantees: capacity is never exceeded, a ticket is redeemed
//! at most once, wallets stay under the issuance cap, and only recorded
//! owners and delegated gate agents can act.

use vstd::prelude::*;

use crate::errors::TicketError;
use crate::registry::{
    assign_err, assign_permitted, assign_post, batch_contains_upto, batch_scan, check_in_err,
    check_in_permitted, check_in_post, checkin_key_of, counter_key_of, init_event_post, inv,
    lemma_batch_scan_ok, lemma_insert_batch_other, mint_batch_permitted, mint_batch_post,
    mint_permitted, mint_post, wallet_count, wallet_ticket_keys, RegistryV,
};
use crate::PER_WALLET_LIMIT;

verus! {

/// In every reachable registry, every event has issued at most its
/// capacity — the capacity guard can never have been bypassed.
pub proof fn lemma_issued_within_capacity(rv: RegistryV, event_key: Seq<u8>)
    requires
        inv(rv),
        rv.events.contains_key(event_key),
    ensures
        rv.events[event_key].issued_nfts <= rv.events[event_key].capacity,
{
}

/// In every reachable registry, every wallet counter is at or under the
/// per-wallet cap: no wallet has accumulated more than the cap for any
/// event.
pub proof fn lemma_wallet_count_within_limit(rv: RegistryV, counter_key: Seq<u8>)
    requires
        inv(rv),
        rv.counters.contains_key(counter_key),
    ensures
        rv.counters[counter_key].count <= PER_WALLET_LIMIT,
{
}

/// Only the event's recorded owner can assign an entrypoint: for any other
/// caller the operation is refused with `Unauthorized` (and, by
/// `assign_entrypoint`'s contract, the registry is unchanged).
pub proof fn lemma_only_owner_assigns(
    rv: RegistryV,
    caller: Seq<u8>,
    event_key: Seq<u8>,
    entrypoint_id: Seq<u8>,
)
    requires
        rv.events.contains_key(event_key),
        caller != rv.events[event_key].creator,
    ensures
        !assign_permitted(rv, caller, event_key, entrypoint_id),
        assign_err(rv, caller, event_key, entrypoint_id) == TicketError::Unauthorized,
{
}

/// Only the identity recorded in a gate authority can redeem through that
/// entrypoint: for any other caller the redemption is refused with
/// `UnauthorizedEntrypoint` (and, by `check_in`'s contract, the ticket and
/// the rest of the registry are unchanged).
pub proof fn lemma_only_gate_authority_redeems(
    rv: RegistryV,
    caller: Seq<u8>,
    event_key: Seq<u8>,
    gate_key: Seq<u8>,
    ticket_key: Seq<u8>,
    now: i64,
)
    requires
        rv.gates.contains_key(gate_key),
        rv.tickets.contains_key(ticket_key),
        caller != rv.gates[gate_key].authority,
    ensures
        !check_in_permitted(rv, caller, event_key, gate_key, ticket_key, now),
        check_in_err(rv, caller, event_key, gate_key, ticket_key, now)
            == TicketError::UnauthorizedEntrypoint,
{
}

/// A redeemed ticket can never be redeemed again: through no gate, by no
/// caller, at no clock reading is `check_in` permitted on it, so every
/// attempt fails and (by `check_in`'s contract) writes no second check-in
/// record.
pub proof fn lemma_no_second_check_in(
    rv: RegistryV,
    caller: Seq<u8>,
    event_key: Seq<u8>,
    gate_key: Seq<u8>,
    ticket_key: Seq<u8>,
    now: i64,
)
    requires
        rv.gates.contains_key(gate_key),
        rv.tickets.contains_key(ticket_key),
        rv.tickets[ticket_key].checked_in,
    ensures
        !check_in_permitted(rv, caller, event_key, gate_key, ticket_key, now),
{
}

/// A permitted redemption flips its ticket to the terminal state, and in
/// the successor state no further redemption of that ticket is permitted:
/// `checked_in` goes from `false` to `true` at most once.
pub proof fn lemma_check_in_is_terminal(
    rv: RegistryV,
    caller: Seq<u8>,
    event_key: Seq<u8>,
    gate_key: Seq<u8>,
    ticket_key: Seq<u8>,
    now: i64,
)
    requires
        rv.gates.contains_key(gate_key),
        rv.tickets.contains_key(ticket_key),
        check_in_permitted(rv, caller, event_key, gate_key, ticket_key, now),
    ensures
        ({
            let rv2 = check_in_post(rv, caller, event_key, gate_key, ticket_key, now);
            &&& !rv.tickets[ticket_key].checked_in
            &&& rv2.tickets[ticket_key].checked_in
            &&& forall|c2: Seq<u8>, e2: Seq<u8>, g2: Seq<u8>, n2: i64|
                !#[trigger] check_in_permitted(rv2, c2, e2, g2, ticket_key, n2)
        }),
{
}

/// A redemption touches nothing but its own ticket and the new check-in
/// record: every other ticket keeps its state, and every existing
/// check-in record is kept word for word.
pub proof fn lemma_check_in_preserves_others(
    rv: RegistryV,
    caller: Seq<u8>,
    event_key: Seq<u8>,
    gate_key: Seq<u8>,
    ticket_key: Seq<u8>,
    now: i64,
)
    requires
        rv.gates.contains_key(gate_key),
        rv.tickets.contains_key(ticket_key),
        check_in_permitted(rv, caller, event_key, gate_key, ticket_key, now),
    ensures
        ({
            let rv2 = check_in_post(rv, caller, event_key, gate_key, ticket_key, now);
            &&& forall|k: Seq<u8>|
                #[trigger] rv.tickets.contains_key(k) && k != ticket_key ==> rv2.tickets.contains_key(
                    k,
                ) && rv2.tickets[k] == rv.tickets[k]
            &&& forall|k: Seq<u8>| #[trigger]
                rv.checkins.contains_key(k) ==> rv2.checkins.contains_key(k)
                    && rv2.checkins[k] == rv.checkins[k]
        }),
{
    let p = checkin_key_of(rv, ticket_key, now)->0;
    assert(!rv.checkins.contains_key(p.0));
}

/// In every reachable registry, the cumulative tickets issued to one
/// wallet for one event never pass the per-wallet cap: every issuance is
/// counted against the wallet's counter, and the counter is capped.
pub proof fn lemma_cumulative_issuance_capped(rv: RegistryV, event_key: Seq<u8>, wallet: Seq<u8>)
    requires
        inv(rv),
        counter_key_of(rv, event_key, wallet) is Some,
    ensures
        wallet_ticket_keys(rv, event_key, wallet).finite(),
        wallet_ticket_keys(rv, event_key, wallet).len() <= PER_WALLET_LIMIT,
{
    let ck = (counter_key_of(rv, event_key, wallet)->0).0;
    assert(wallet_ticket_keys(rv, event_key, wallet).len() <= wallet_count(rv, event_key, wallet));
    if rv.counters.contains_key(ck) {
        assert(rv.counters[ck].count <= PER_WALLET_LIMIT);
    }
}

/// Issuing a ticket counts it: a permitted single mint raises the
/// holder's counter by exactly one and keeps it at or under the cap, so
/// cumulative issuance to one wallet for one event can never pass the cap.
pub proof fn lemma_mint_counts_issuance(
    rv: RegistryV,
    event_key: Seq<u8>,
    owner: Seq<u8>,
    nft_mint: Seq<u8>,
    nft_account: Seq<u8>,
)
    requires
        rv.events.contains_key(event_key),
        mint_permitted(rv, event_key, owner),
    ensures
        ({
            let rv2 = mint_post(rv, event_key, owner, nft_mint, nft_account);
            &&& wallet_count(rv2, event_key, owner) == wallet_count(rv, event_key, owner) + 1
            &&& wallet_count(rv2, event_key, owner) <= PER_WALLET_LIMIT
            &&& rv2.events[event_key].issued_nfts == rv.events[event_key].issued_nfts + 1
        }),
{
}

/// A permitted batch counts every ticket it issues: the holder's counter
/// rises by the whole quantity and stays at or under the cap, and the
/// event's issued count rises by the whole quantity and stays within
/// capacity.
pub proof fn lemma_mint_batch_counts_issuance(
    rv: RegistryV,
    event_key: Seq<u8>,
    owner: Seq<u8>,
    qty: u8,
    nft_refs: Seq<(Seq<u8>, Seq<u8>)>,
)
    requires
        rv.events.contains_key(event_key),
        qty > 0,
        mint_batch_permitted(rv, event_key, owner, qty),
    ensures
        ({
            let rv2 = mint_batch_post(rv, event_key, owner, qty, nft_refs);
            &&& wallet_count(rv2, event_key, owner) == wallet_count(rv, event_key, owner) + qty
            &&& wallet_count(rv2, event_key, owner) <= PER_WALLET_LIMIT
            &&& rv2.events[event_key].issued_nfts == rv.events[event_key].issued_nfts + qty
            &&& rv2.events[event_key].issued_nfts <= rv2.events[event_key].capacity
        }),
{
}

/// Issuance never revokes a redemption: a permitted mint leaves every
/// existing ticket exactly as it was, so `checked_in` never reverts.
pub proof fn lemma_mint_preserves_tickets(
    rv: RegistryV,
    event_key: Seq<u8>,
    owner: Seq<u8>,
    nft_mint: Seq<u8>,
    nft_account: Seq<u8>,
    ticket_key: Seq<u8>,
)
    requires
        rv.events.contains_key(event_key),
        mint_permitted(rv, event_key, owner),
        rv.tickets.contains_key(ticket_key),
    ensures
        ({
            let rv2 = mint_post(rv, event_key, owner, nft_mint, nft_account);
            &&& rv2.tickets.contains_key(ticket_key)
            &&& rv2.tickets[ticket_key] == rv.tickets[ticket_key]
        }),
{
}

/// Batch issuance never revokes a redemption either: a permitted batch
/// writes only at keys that were free beforehand, so every existing
/// ticket keeps its state.
pub proof fn lemma_mint_batch_preserves_tickets(
    rv: RegistryV,
    event_key: Seq<u8>,
    owner: Seq<u8>,
    qty: u8,
    nft_refs: Seq<(Seq<u8>, Seq<u8>)>,
    ticket_key: Seq<u8>,
)
    requires
        rv.events.contains_key(event_key),
        qty > 0,
        mint_batch_permitted(rv, event_key, owner, qty),
        rv.tickets.contains_key(ticket_key),
    ensures
        ({
            let rv2 = mint_batch_post(rv, event_key, owner, qty, nft_refs);
            &&& rv2.tickets.contains_key(ticket_key)
            &&& rv2.tickets[ticket_key] == rv.tickets[ticket_key]
        }),
{
    let cnt = wallet_count(rv, event_key, owner);
    let pairs = batch_scan(rv, event_key, owner, cnt, qty as int)->Ok_0;
    lemma_batch_scan_ok(rv, event_key, owner, cnt, qty as int);
    assert(!batch_contains_upto(pairs, qty as int, ticket_key));
    lemma_insert_batch_other(rv.tickets, event_key, owner, nft_refs, pairs, qty as int, ticket_key);
}

/// Creating an event or assigning a gate touches no ticket at all.
pub proof fn lemma_admin_ops_preserve_tickets(
    rv: RegistryV,
    creator: Seq<u8>,
    name: Seq<u8>,
    date: i64,
    capacity: u32,
    event_key: Seq<u8>,
    entrypoint_id: Seq<u8>,
    authority: Seq<u8>,
)
    ensures
        init_event_post(rv, creator, name, date, capacity).tickets == rv.tickets,
        assign_post(rv, event_key, entrypoint_id, authority).tickets == rv.tickets,
{
}

} // verus!
