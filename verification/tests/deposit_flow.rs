use shielded_pool::accumulator::{TREE_CAPACITY, TREE_DEPTH};
use shielded_pool::deposit::{
    parse_payload, pool_state_address, process_deposit, vault_address, AccountInfo, PAYLOAD_LEN,
};
use shielded_pool::error::DepositError;
use shielded_pool::history::ROOT_HISTORY_SIZE;
use shielded_pool::pool::PoolState;

fn program_id() -> Vec<u8> {
    vec![7u8; 32]
}

fn payload(amount: u64, commitment: u8) -> Vec<u8> {
    let mut data = Vec::new();
    data.extend_from_slice(&amount.to_le_bytes());
    data.extend_from_slice(&[commitment; 32]);
    data.extend_from_slice(&[0u8; 32]);
    assert_eq!(data.len(), PAYLOAD_LEN);
    data
}

fn accounts(pid: &Vec<u8>) -> Vec<AccountInfo> {
    vec![
        AccountInfo {
            address: vec![1u8; 32],
            owner: vec![0u8; 32],
            is_signer: true,
            is_writable: true,
        },
        AccountInfo {
            address: pool_state_address(pid),
            owner: pid.clone(),
            is_signer: false,
            is_writable: true,
        },
        AccountInfo {
            address: vault_address(pid),
            owner: pid.clone(),
            is_signer: false,
            is_writable: true,
        },
        AccountInfo {
            address: vec![0u8; 32],
            owner: vec![0u8; 32],
            is_signer: false,
            is_writable: false,
        },
    ]
}

#[test]
fn deposit_succeeds_and_updates_state() {
    let pid = program_id();
    let accts = accounts(&pid);
    let mut pool = PoolState::new();
    let data = payload(1_000_000, 0x11);
    let rc = process_deposit(&accts, &mut pool, 5_000_000, 100, &data, &pid).unwrap();
    assert_eq!(rc.amount, 1_000_000);
    assert_eq!(rc.payer_lamports, 4_000_000);
    assert_eq!(rc.vault_lamports, 1_000_100);
    assert_eq!(rc.new_root.len(), 32);
    // The root is a digest chain over the commitment, not the commitment
    // itself.
    assert_ne!(rc.new_root, vec![0x11u8; 32]);
    assert_eq!(pool.accumulator().leaf_count(), 1);
    assert_eq!(pool.root_history().filled(), 1);
    assert!(pool.root_history().contains(&rc.new_root));
}

#[test]
fn zero_amount_rejected_without_state_change() {
    let pid = program_id();
    let accts = accounts(&pid);
    let mut pool = PoolState::new();
    let data = payload(0, 0x22);
    let r = process_deposit(&accts, &mut pool, 5_000_000, 0, &data, &pid);
    assert_eq!(r.err(), Some(DepositError::ZeroAmount));
    assert_eq!(pool.accumulator().leaf_count(), 0);
    assert_eq!(pool.root_history().filled(), 0);
}

#[test]
fn short_payload_rejected() {
    let pid = program_id();
    let accts = accounts(&pid);
    let mut pool = PoolState::new();
    let mut data = payload(1_000, 0x33);
    data.pop();
    assert_eq!(data.len(), 71);
    let r = process_deposit(&accts, &mut pool, 5_000, 0, &data, &pid);
    assert_eq!(r.err(), Some(DepositError::MalformedPayload));
    assert_eq!(pool.accumulator().leaf_count(), 0);
}

#[test]
fn non_signer_payer_rejected() {
    let pid = program_id();
    let mut accts = accounts(&pid);
    accts[0].is_signer = false;
    let mut pool = PoolState::new();
    let data = payload(1_000, 0x44);
    let r = process_deposit(&accts, &mut pool, 5_000, 0, &data, &pid);
    assert_eq!(r.err(), Some(DepositError::MissingRequiredSignature));
}

#[test]
fn wrong_account_count_rejected() {
    let pid = program_id();
    let mut accts = accounts(&pid);
    accts.pop();
    let mut pool = PoolState::new();
    let data = payload(1_000, 0x55);
    let r = process_deposit(&accts, &mut pool, 5_000, 0, &data, &pid);
    assert_eq!(r.err(), Some(DepositError::NotEnoughAccountKeys));

    let mut more = accounts(&pid);
    more.push(AccountInfo {
        address: vec![9u8; 32],
        owner: vec![0u8; 32],
        is_signer: false,
        is_writable: false,
    });
    let r = process_deposit(&more, &mut pool, 5_000, 0, &data, &pid);
    assert_eq!(r.err(), Some(DepositError::NotEnoughAccountKeys));
}

#[test]
fn non_writable_accounts_rejected() {
    let pid = program_id();
    let mut accts = accounts(&pid);
    accts[1].is_writable = false;
    let mut pool = PoolState::new();
    let data = payload(1_000, 0x66);
    let r = process_deposit(&accts, &mut pool, 5_000, 0, &data, &pid);
    assert_eq!(r.err(), Some(DepositError::NotWritable));

    let mut accts = accounts(&pid);
    accts[2].is_writable = false;
    let r = process_deposit(&accts, &mut pool, 5_000, 0, &data, &pid);
    assert_eq!(r.err(), Some(DepositError::NotWritable));
}

#[test]
fn address_mismatch_rejected() {
    let pid = program_id();
    let data = payload(1_000, 0x77);
    let mut pool = PoolState::new();

    // Wrong pool state address, even though owner and writability are right.
    let mut accts = accounts(&pid);
    accts[1].address = vec![0xABu8; 32];
    let r = process_deposit(&accts, &mut pool, 5_000, 0, &data, &pid);
    assert_eq!(r.err(), Some(DepositError::AddressMismatch));

    // Wrong vault address.
    let mut accts = accounts(&pid);
    accts[2].address = vec![0xCDu8; 32];
    let r = process_deposit(&accts, &mut pool, 5_000, 0, &data, &pid);
    assert_eq!(r.err(), Some(DepositError::AddressMismatch));

    assert_eq!(pool.accumulator().leaf_count(), 0);
}

#[test]
fn owner_mismatch_rejected() {
    let pid = program_id();
    let data = payload(1_000, 0x88);
    let mut pool = PoolState::new();

    // Correctly addressed but not program-owned pool state.
    let mut accts = accounts(&pid);
    accts[1].owner = vec![3u8; 32];
    let r = process_deposit(&accts, &mut pool, 5_000, 0, &data, &pid);
    assert_eq!(r.err(), Some(DepositError::InvalidOwner));

    // Correctly addressed but not program-owned vault.
    let mut accts = accounts(&pid);
    accts[2].owner = vec![3u8; 32];
    let r = process_deposit(&accts, &mut pool, 5_000, 0, &data, &pid);
    assert_eq!(r.err(), Some(DepositError::InvalidOwner));
}

#[test]
fn uninitialized_pool_rejected() {
    let pid = program_id();
    let accts = accounts(&pid);
    let subtrees = vec![vec![0u8; 32]; TREE_DEPTH];
    let entries = vec![vec![0u8; 32]; ROOT_HISTORY_SIZE];
    let mut pool = PoolState::from_parts(false, 0, subtrees, entries, 0, 0).unwrap();
    let data = payload(1_000, 0x99);
    let r = process_deposit(&accts, &mut pool, 5_000, 0, &data, &pid);
    assert_eq!(r.err(), Some(DepositError::Uninitialized));
}

#[test]
fn failing_transfer_rejected() {
    let pid = program_id();
    let accts = accounts(&pid);
    let mut pool = PoolState::new();
    let data = payload(1_000, 0xAA);

    // Payer balance too low.
    let r = process_deposit(&accts, &mut pool, 999, 0, &data, &pid);
    assert_eq!(r.err(), Some(DepositError::TransferFailed));

    // Vault balance would overflow.
    let r = process_deposit(&accts, &mut pool, 5_000, u64::MAX - 999, &data, &pid);
    assert_eq!(r.err(), Some(DepositError::TransferFailed));

    assert_eq!(pool.accumulator().leaf_count(), 0);
    assert_eq!(pool.root_history().filled(), 0);
}

#[test]
fn exhausted_tree_rejected() {
    let pid = program_id();
    let accts = accounts(&pid);
    let subtrees = vec![vec![0u8; 32]; TREE_DEPTH];
    let entries = vec![vec![0u8; 32]; ROOT_HISTORY_SIZE];
    let mut pool =
        PoolState::from_parts(true, TREE_CAPACITY, subtrees, entries, 0, ROOT_HISTORY_SIZE)
            .unwrap();
    let data = payload(1_000, 0xBB);
    let r = process_deposit(&accts, &mut pool, 5_000, 0, &data, &pid);
    assert_eq!(r.err(), Some(DepositError::TreeFull));
    assert_eq!(pool.accumulator().leaf_count(), TREE_CAPACITY);
}

#[test]
fn payload_amount_parses_little_endian() {
    let data = payload(1_000_000, 0x00);
    let (amount, commitment) = parse_payload(&data).unwrap();
    assert_eq!(amount, 1_000_000);
    assert_eq!(data[0], 0x40);
    assert_eq!(data[1], 0x42);
    assert_eq!(data[2], 0x0F);
    assert_eq!(commitment, vec![0u8; 32]);

    let data = payload(u64::MAX, 0xFF);
    let (amount, commitment) = parse_payload(&data).unwrap();
    assert_eq!(amount, u64::MAX);
    assert_eq!(commitment, vec![0xFFu8; 32]);
}

#[test]
fn derived_addresses_are_distinct_and_bound_to_program() {
    let pid = program_id();
    let state_addr = pool_state_address(&pid);
    let vault_addr = vault_address(&pid);
    assert_eq!(state_addr.len(), 32);
    assert_eq!(vault_addr.len(), 32);
    // Different seeds give different addresses, and neither echoes an input.
    assert_ne!(state_addr, vault_addr);
    assert_ne!(state_addr, pid);
    assert_ne!(vault_addr, pid);
    // A different program identity gives different addresses.
    let other = vec![8u8; 32];
    assert_ne!(state_addr, pool_state_address(&other));
    assert_ne!(vault_addr, vault_address(&other));
}

#[test]
fn invalid_stored_parts_rejected() {
    // Wrong subtree count.
    let r = PoolState::from_parts(
        true,
        0,
        vec![vec![0u8; 32]; TREE_DEPTH - 1],
        vec![vec![0u8; 32]; ROOT_HISTORY_SIZE],
        0,
        0,
    );
    assert!(r.is_none());
    // A subtree hash of the wrong length.
    let mut subtrees = vec![vec![0u8; 32]; TREE_DEPTH];
    subtrees[3] = vec![0u8; 31];
    let r = PoolState::from_parts(true, 0, subtrees, vec![vec![0u8; 32]; ROOT_HISTORY_SIZE], 0, 0);
    assert!(r.is_none());
    // Leaf count beyond capacity.
    let r = PoolState::from_parts(
        true,
        TREE_CAPACITY + 1,
        vec![vec![0u8; 32]; TREE_DEPTH],
        vec![vec![0u8; 32]; ROOT_HISTORY_SIZE],
        0,
        0,
    );
    assert!(r.is_none());
    // Cursor ahead of the filled count while the ring is not yet full.
    let r = PoolState::from_parts(
        true,
        0,
        vec![vec![0u8; 32]; TREE_DEPTH],
        vec![vec![0u8; 32]; ROOT_HISTORY_SIZE],
        2,
        1,
    );
    assert!(r.is_none());
}
