use tickmyshow::errors::TicketError;
use tickmyshow::records::CredentialState;
use tickmyshow::registry::Registry;

fn program_id() -> Vec<u8> {
    vec![7u8; 32]
}

fn wallet(tag: u8) -> Vec<u8> {
    vec![tag; 32]
}

fn nft_refs(n: u8) -> Vec<(Vec<u8>, Vec<u8>)> {
    (0..n).map(|i| (vec![100 + i; 32], vec![200 + i; 32])).collect()
}

fn fresh_event(registry: &mut Registry, creator: &Vec<u8>, capacity: u32) -> Vec<u8> {
    registry
        .init_event(creator, b"gala".to_vec(), 1_700_000_000, capacity)
        .expect("event creation should succeed")
}

#[test]
fn init_event_records_the_event() {
    let mut registry = Registry::new(program_id());
    let creator = wallet(1);
    let key = registry
        .init_event(&creator, b"gala".to_vec(), 1_700_000_000, 100)
        .expect("event creation should succeed");
    assert_eq!(key.len(), 32);
    assert_ne!(key, b"gala".to_vec());
    let event = registry.get_event(&key).expect("event record should exist");
    assert_eq!(event.creator, creator);
    assert_eq!(event.name, b"gala".to_vec());
    assert_eq!(event.date, 1_700_000_000);
    assert_eq!(event.capacity, 100);
    assert_eq!(event.issued_nfts, 0);
}

#[test]
fn zero_capacity_is_rejected() {
    let mut registry = Registry::new(program_id());
    let creator = wallet(1);
    let r = registry.init_event(&creator, b"empty".to_vec(), 1, 0);
    assert_eq!(r, Err(TicketError::InvalidCapacity));
}

#[test]
fn duplicate_event_identity_is_rejected() {
    let mut registry = Registry::new(program_id());
    let creator = wallet(1);
    let k1 = registry
        .init_event(&creator, b"gala".to_vec(), 42, 10)
        .expect("first creation should succeed");
    let r = registry.init_event(&creator, b"gala".to_vec(), 42, 10);
    assert_eq!(r, Err(TicketError::DuplicateAccount));
    let k2 = registry
        .init_event(&creator, b"gala".to_vec(), 43, 10)
        .expect("a different date is a different identity");
    assert_ne!(k1, k2);
}

#[test]
fn overlong_name_seed_is_rejected() {
    let mut registry = Registry::new(program_id());
    let creator = wallet(1);
    let r = registry.init_event(&creator, vec![65u8; 40], 1, 10);
    assert_eq!(r, Err(TicketError::InvalidSeeds));
}

#[test]
fn capacity_one_event_sells_out() {
    let mut registry = Registry::new(program_id());
    let creator = wallet(1);
    let event_key = fresh_event(&mut registry, &creator, 1);
    let first = wallet(2);
    let ticket = registry.mint_and_freeze(&event_key, &first, wallet(10), wallet(11));
    assert!(ticket.is_ok());
    assert_eq!(registry.get_event(&event_key).unwrap().issued_nfts, 1);
    let second = wallet(3);
    let r = registry.mint_and_freeze(&event_key, &second, wallet(12), wallet(13));
    assert_eq!(r, Err(TicketError::SoldOut));
    assert_eq!(registry.get_event(&event_key).unwrap().issued_nfts, 1);
}

#[test]
fn minted_ticket_is_bound_and_locked() {
    let mut registry = Registry::new(program_id());
    let creator = wallet(1);
    let event_key = fresh_event(&mut registry, &creator, 10);
    let holder = wallet(2);
    let ticket_key = registry
        .mint_and_freeze(&event_key, &holder, wallet(10), wallet(11))
        .expect("mint should succeed");
    assert_eq!(ticket_key.len(), 32);
    let ticket = registry.get_ticket(&ticket_key).expect("ticket should exist");
    assert_eq!(ticket.event, event_key);
    assert_eq!(ticket.owner, holder);
    assert_eq!(ticket.nft_mint, wallet(10));
    assert_eq!(ticket.nft_account, wallet(11));
    assert!(!ticket.checked_in);
    assert_eq!(ticket.credential, CredentialState::Locked);
    assert_eq!(registry.get_wallet_count(&event_key, &holder), Ok(1));
}

#[test]
fn per_wallet_cap_stops_the_sixth_single_mint() {
    let mut registry = Registry::new(program_id());
    let creator = wallet(1);
    let event_key = fresh_event(&mut registry, &creator, 100);
    let holder = wallet(2);
    let mut keys = Vec::new();
    for i in 0..5u8 {
        let k = registry
            .mint_and_freeze(&event_key, &holder, wallet(10 + i), wallet(20 + i))
            .expect("the first five mints fit the cap");
        assert!(!keys.contains(&k), "each ticket key must be unique");
        keys.push(k);
    }
    assert_eq!(registry.get_wallet_count(&event_key, &holder), Ok(5));
    let r = registry.mint_and_freeze(&event_key, &holder, wallet(30), wallet(31));
    assert_eq!(r, Err(TicketError::PerWalletLimit));
    assert_eq!(registry.get_event(&event_key).unwrap().issued_nfts, 5);
    assert_eq!(registry.get_wallet_count(&event_key, &holder), Ok(5));
}

#[test]
fn batch_mint_issues_distinct_tickets() {
    let mut registry = Registry::new(program_id());
    let creator = wallet(1);
    let event_key = fresh_event(&mut registry, &creator, 10);
    let holder = wallet(2);
    let keys = registry
        .mint_batch(&event_key, &holder, 3, nft_refs(3))
        .expect("a batch of three fits");
    assert_eq!(keys.len(), 3);
    assert_ne!(keys[0], keys[1]);
    assert_ne!(keys[0], keys[2]);
    assert_ne!(keys[1], keys[2]);
    assert_eq!(registry.get_event(&event_key).unwrap().issued_nfts, 3);
    assert_eq!(registry.get_wallet_count(&event_key, &holder), Ok(3));
    for (i, k) in keys.iter().enumerate() {
        let t = registry.get_ticket(k).expect("each batch ticket should exist");
        assert_eq!(t.owner, holder);
        assert_eq!(t.nft_mint, vec![100 + i as u8; 32]);
        assert!(!t.checked_in);
    }
}

#[test]
fn oversized_batch_fails_with_full_rollback() {
    let mut registry = Registry::new(program_id());
    let creator = wallet(1);
    let event_key = fresh_event(&mut registry, &creator, 100);
    let holder = wallet(2);
    let r = registry.mint_batch(&event_key, &holder, 6, nft_refs(6));
    assert_eq!(r, Err(TicketError::PerWalletLimit));
    assert_eq!(registry.get_event(&event_key).unwrap().issued_nfts, 0);
    assert_eq!(registry.get_wallet_count(&event_key, &holder), Ok(0));
}

#[test]
fn batch_beyond_capacity_fails_before_counting() {
    let mut registry = Registry::new(program_id());
    let creator = wallet(1);
    let event_key = fresh_event(&mut registry, &creator, 2);
    let holder = wallet(2);
    let r = registry.mint_batch(&event_key, &holder, 3, nft_refs(3));
    assert_eq!(r, Err(TicketError::SoldOut));
    assert_eq!(registry.get_event(&event_key).unwrap().issued_nfts, 0);
    assert_eq!(registry.get_wallet_count(&event_key, &holder), Ok(0));
}

#[test]
fn empty_batch_is_a_no_op() {
    let mut registry = Registry::new(program_id());
    let creator = wallet(1);
    let event_key = fresh_event(&mut registry, &creator, 10);
    let holder = wallet(2);
    let keys = registry
        .mint_batch(&event_key, &holder, 0, Vec::new())
        .expect("an empty batch succeeds");
    assert!(keys.is_empty());
    assert_eq!(registry.get_event(&event_key).unwrap().issued_nfts, 0);
}

#[test]
fn only_the_owner_assigns_entrypoints() {
    let mut registry = Registry::new(program_id());
    let creator = wallet(1);
    let event_key = fresh_event(&mut registry, &creator, 10);
    let intruder = wallet(9);
    let agent = wallet(4);
    let r = registry.assign_entrypoint(&intruder, &event_key, b"north".to_vec(), agent.clone());
    assert_eq!(r, Err(TicketError::Unauthorized));
    let gate_key = registry
        .assign_entrypoint(&creator, &event_key, b"north".to_vec(), agent.clone())
        .expect("the owner may assign");
    let gate = registry.get_gate(&gate_key).expect("gate record should exist");
    assert_eq!(gate.event, event_key);
    assert_eq!(gate.entrypoint_id, b"north".to_vec());
    assert_eq!(gate.authority, agent);
}

#[test]
fn reassigning_an_entrypoint_overwrites_its_authority() {
    let mut registry = Registry::new(program_id());
    let creator = wallet(1);
    let event_key = fresh_event(&mut registry, &creator, 10);
    let first_agent = wallet(4);
    let second_agent = wallet(5);
    let k1 = registry
        .assign_entrypoint(&creator, &event_key, b"north".to_vec(), first_agent)
        .expect("first assignment succeeds");
    let k2 = registry
        .assign_entrypoint(&creator, &event_key, b"north".to_vec(), second_agent.clone())
        .expect("overwriting is permitted");
    assert_eq!(k1, k2);
    assert_eq!(registry.get_gate(&k1).unwrap().authority, second_agent);
}

#[test]
fn check_in_flips_the_ticket_once_and_records_it() {
    let mut registry = Registry::new(program_id());
    let creator = wallet(1);
    let event_key = fresh_event(&mut registry, &creator, 10);
    let holder = wallet(2);
    let agent = wallet(4);
    let ticket_key = registry
        .mint_and_freeze(&event_key, &holder, wallet(10), wallet(11))
        .expect("mint should succeed");
    let gate_key = registry
        .assign_entrypoint(&creator, &event_key, b"north".to_vec(), agent.clone())
        .expect("assignment succeeds");
    let now = 1_700_001_000i64;
    let record_key = registry
        .check_in(&agent, &event_key, &gate_key, &ticket_key, now)
        .expect("the delegated agent may redeem");
    let ticket = registry.get_ticket(&ticket_key).unwrap();
    assert!(ticket.checked_in);
    assert_eq!(ticket.credential, CredentialState::Burned);
    let record = registry.get_checkin(&record_key).expect("check-in record should exist");
    assert_eq!(record.ticket, ticket_key);
    assert_eq!(record.owner, holder);
    assert_eq!(record.timestamp, now);
    assert!(record.timestamp > 0);
    let again = registry.check_in(&agent, &event_key, &gate_key, &ticket_key, now);
    assert_eq!(again, Err(TicketError::AlreadyCheckedIn));
    let later = registry.check_in(&agent, &event_key, &gate_key, &ticket_key, now + 60);
    assert_eq!(later, Err(TicketError::AlreadyCheckedIn));
}

#[test]
fn a_stranger_cannot_redeem_at_the_gate() {
    let mut registry = Registry::new(program_id());
    let creator = wallet(1);
    let event_key = fresh_event(&mut registry, &creator, 10);
    let holder = wallet(2);
    let agent = wallet(4);
    let intruder = wallet(9);
    let ticket_key = registry
        .mint_and_freeze(&event_key, &holder, wallet(10), wallet(11))
        .expect("mint should succeed");
    let gate_key = registry
        .assign_entrypoint(&creator, &event_key, b"north".to_vec(), agent)
        .expect("assignment succeeds");
    let r = registry.check_in(&intruder, &event_key, &gate_key, &ticket_key, 1_700_001_000);
    assert_eq!(r, Err(TicketError::UnauthorizedEntrypoint));
    let ticket = registry.get_ticket(&ticket_key).unwrap();
    assert!(!ticket.checked_in);
    assert_eq!(ticket.credential, CredentialState::Locked);
}

#[test]
fn a_ticket_for_another_event_is_rejected() {
    let mut registry = Registry::new(program_id());
    let creator = wallet(1);
    let event_a = registry
        .init_event(&creator, b"gala".to_vec(), 1, 10)
        .expect("first event");
    let event_b = registry
        .init_event(&creator, b"fair".to_vec(), 2, 10)
        .expect("second event");
    let holder = wallet(2);
    let agent = wallet(4);
    let foreign_ticket = registry
        .mint_and_freeze(&event_a, &holder, wallet(10), wallet(11))
        .expect("mint at the first event");
    let gate_b = registry
        .assign_entrypoint(&creator, &event_b, b"north".to_vec(), agent.clone())
        .expect("gate at the second event");
    let r = registry.check_in(&agent, &event_b, &gate_b, &foreign_ticket, 1_700_001_000);
    assert_eq!(r, Err(TicketError::InvalidTicket));
    assert!(!registry.get_ticket(&foreign_ticket).unwrap().checked_in);
}
