//! The uniqueness deriver: a deterministic, collision-resistant map from
//! `(namespace tag, stable inputs)` to a 32-byte account key. Every record
//! kind has its own seed scheme, so that a collision at a derived key
//! signals a duplicate of the same logical record.

use vstd::prelude::*;

use crate::bytes::{clone_bytes, i64_le_bytes, i64_to_le};

verus! {

/// The derived address and bump for a program id and seed list, or `None`
/// where no viable address exists. The result is a pure function of its
/// arguments: the derivation hashes the seeds and nothing else.
pub uninterp spec fn pda_of(program_id: Seq<u8>, seeds: Seq<Seq<u8>>) -> Option<(Seq<u8>, u8)>;

/// Relies on `solana_pubkey::Pubkey::try_find_program_address`: the derived
/// address and its bump depend on the seeds and the program id alone (a
/// SHA-256 based search over bump seeds, computed locally), an address is
/// 32 bytes, and the search returns `None` rather than failing.
#[verifier::external_body]
pub(crate) fn derive_address(program_id: &Vec<u8>, seeds: &Vec<Vec<u8>>) -> (r: Option<
    (Vec<u8>, u8),
>)
    requires
        program_id@.len() == 32,
    ensures
        (r matches Some(p) ==> {
            &&& pda_of(program_id@, seeds.deep_view()) matches Some(q)
            &&& p.0@ == q.0
            &&& p.1 == q.1
            &&& p.0@.len() == 32
        }),
        r is None ==> pda_of(program_id@, seeds.deep_view()) is None,
{
    let mut pid = [0u8; 32];
    pid.copy_from_slice(program_id.as_slice());
    let key = solana_pubkey::Pubkey::new_from_array(pid);
    let refs: Vec<&[u8]> = seeds.iter().map(|s| s.as_slice()).collect();
    match solana_pubkey::Pubkey::try_find_program_address(refs.as_slice(), &key) {
        Some((addr, bump)) => Some((addr.to_bytes().to_vec(), bump)),
        None => None,
    }
}

/// The namespace tag of event records: the bytes of `"event"`.
pub open spec fn tag_event() -> Seq<u8> {
    seq![101u8, 118u8, 101u8, 110u8, 116u8]
}

/// The namespace tag of ticket records: the bytes of `"ticket"`.
pub open spec fn tag_ticket() -> Seq<u8> {
    seq![116u8, 105u8, 99u8, 107u8, 101u8, 116u8]
}

/// The namespace tag of gate authority records: the bytes of `"entrypoint"`.
pub open spec fn tag_entrypoint() -> Seq<u8> {
    seq![101u8, 110u8, 116u8, 114u8, 121u8, 112u8, 111u8, 105u8, 110u8, 116u8]
}

/// The namespace tag of check-in records: the bytes of `"checkin"`.
pub open spec fn tag_checkin() -> Seq<u8> {
    seq![99u8, 104u8, 101u8, 99u8, 107u8, 105u8, 110u8]
}

/// The namespace tag of wallet counter records: the bytes of `"wallet"`.
pub open spec fn tag_wallet() -> Seq<u8> {
    seq![119u8, 97u8, 108u8, 108u8, 101u8, 116u8]
}

fn push_all(r: &mut Vec<u8>, s: &[u8])
    ensures
        final(r)@ == old(r)@ + s@,
{
    let mut i: usize = 0;
    while i < s.len()
        invariant
            i <= s@.len(),
            r@ == old(r)@ + s@.take(i as int),
        decreases s@.len() - i,
    {
        r.push(s[i]);
        proof {
            assert(r@ =~= old(r)@ + s@.take(i + 1));
        }
        i += 1;
    }
    proof {
        assert(r@ =~= old(r)@ + s@);
    }
}

fn tag_vec(s: &[u8]) -> (r: Vec<u8>)
    ensures
        r@ == s@,
{
    let mut r: Vec<u8> = Vec::new();
    push_all(&mut r, s);
    proof {
        assert(r@ =~= s@);
    }
    r
}

/// The seeds of an event record: its identity is the `(name, date)` pair.
pub open spec fn event_seeds_spec(name: Seq<u8>, date: i64) -> Seq<Seq<u8>> {
    seq![tag_event(), name, i64_le_bytes(date)]
}

pub(crate) fn event_seeds(name: &Vec<u8>, date: i64) -> (r: Vec<Vec<u8>>)
    ensures
        r.deep_view() == event_seeds_spec(name@, date),
{
    let mut r: Vec<Vec<u8>> = Vec::new();
    let t = tag_vec(&[101u8, 118u8, 101u8, 110u8, 116u8]);
    proof {
        assert(t@ =~= tag_event());
    }
    r.push(t);
    r.push(clone_bytes(name));
    r.push(i64_to_le(date));
    proof {
        assert(r.deep_view() =~~= event_seeds_spec(name@, date));
    }
    r
}

/// The seeds of a ticket record: the owning event, the holder, and the
/// holder's issuance sequence number for that event.
pub open spec fn ticket_seeds_spec(event_key: Seq<u8>, owner: Seq<u8>, index: u8) -> Seq<Seq<u8>> {
    seq![tag_ticket(), event_key, owner, seq![index]]
}

pub(crate) fn ticket_seeds(event_key: &Vec<u8>, owner: &Vec<u8>, index: u8) -> (r: Vec<Vec<u8>>)
    ensures
        r.deep_view() == ticket_seeds_spec(event_key@, owner@, index),
{
    let mut r: Vec<Vec<u8>> = Vec::new();
    let t = tag_vec(&[116u8, 105u8, 99u8, 107u8, 101u8, 116u8]);
    proof {
        assert(t@ =~= tag_ticket());
    }
    r.push(t);
    r.push(clone_bytes(event_key));
    r.push(clone_bytes(owner));
    let mut ix: Vec<u8> = Vec::new();
    ix.push(index);
    proof {
        assert(ix@ =~= seq![index]);
    }
    r.push(ix);
    proof {
        assert(r.deep_view() =~~= ticket_seeds_spec(event_key@, owner@, index));
    }
    r
}

/// The seeds of a gate authority record: the owning event and the
/// entrypoint it guards.
pub open spec fn gate_seeds_spec(event_key: Seq<u8>, entrypoint_id: Seq<u8>) -> Seq<Seq<u8>> {
    seq![tag_entrypoint(), event_key, entrypoint_id]
}

pub(crate) fn gate_seeds(event_key: &Vec<u8>, entrypoint_id: &Vec<u8>) -> (r: Vec<Vec<u8>>)
    ensures
        r.deep_view() == gate_seeds_spec(event_key@, entrypoint_id@),
{
    let mut r: Vec<Vec<u8>> = Vec::new();
    let t = tag_vec(&[101u8, 110u8, 116u8, 114u8, 121u8, 112u8, 111u8, 105u8, 110u8, 116u8]);
    proof {
        assert(t@ =~= tag_entrypoint());
    }
    r.push(t);
    r.push(clone_bytes(event_key));
    r.push(clone_bytes(entrypoint_id));
    proof {
        assert(r.deep_view() =~~= gate_seeds_spec(event_key@, entrypoint_id@));
    }
    r
}

/// The seeds of a check-in record: the redeemed ticket and the clock
/// reading at redemption, so each redemption gets a fresh, immutable entry.
pub open spec fn checkin_seeds_spec(ticket_key: Seq<u8>, timestamp: i64) -> Seq<Seq<u8>> {
    seq![tag_checkin(), ticket_key, i64_le_bytes(timestamp)]
}

pub(crate) fn checkin_seeds(ticket_key: &Vec<u8>, timestamp: i64) -> (r: Vec<Vec<u8>>)
    ensures
        r.deep_view() == checkin_seeds_spec(ticket_key@, timestamp),
{
    let mut r: Vec<Vec<u8>> = Vec::new();
    let t = tag_vec(&[99u8, 104u8, 101u8, 99u8, 107u8, 105u8, 110u8]);
    proof {
        assert(t@ =~= tag_checkin());
    }
    r.push(t);
    r.push(clone_bytes(ticket_key));
    r.push(i64_to_le(timestamp));
    proof {
        assert(r.deep_view() =~~= checkin_seeds_spec(ticket_key@, timestamp));
    }
    r
}

/// The seeds of a wallet counter record: the event and the holder wallet it
/// counts issuance for.
pub open spec fn wallet_seeds_spec(event_key: Seq<u8>, wallet: Seq<u8>) -> Seq<Seq<u8>> {
    seq![tag_wallet(), event_key, wallet]
}

pub(crate) fn wallet_seeds(event_key: &Vec<u8>, wallet: &Vec<u8>) -> (r: Vec<Vec<u8>>)
    ensures
        r.deep_view() == wallet_seeds_spec(event_key@, wallet@),
{
    let mut r: Vec<Vec<u8>> = Vec::new();
    let t = tag_vec(&[119u8, 97u8, 108u8, 108u8, 101u8, 116u8]);
    proof {
        assert(t@ =~= tag_wallet());
    }
    r.push(t);
    r.push(clone_bytes(event_key));
    r.push(clone_bytes(wallet));
    proof {
        assert(r.deep_view() =~~= wallet_seeds_spec(event_key@, wallet@));
    }
    r
}

} // verus!
