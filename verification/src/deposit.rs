//! The deposit handler: validates the supplied accounts and payload in a
//! fixed order, and — only when every check passes — moves funds (reported to
//! the caller as a receipt), inserts the commitment into the accumulator and
//! records the new root.
//!
//! Mutations are applied only after every check has passed, so a rejected
//! deposit leaves the pool state, and the balances the receipt speaks of,
//! unchanged.

use vstd::prelude::*;

use crate::accumulator::TREE_CAPACITY;
use crate::bytes::{bytes_eq, copy_range, le64, read_u64_le};
use crate::error::DepositError;
use crate::pool::{spec_record, PoolModel, PoolState};

verus! {

/// Exact length of the instruction payload: an 8-byte little-endian amount,
/// a 32-byte commitment, and 32 reserved bytes that are never trusted.
pub const PAYLOAD_LEN: usize = 72;

/// What the handler reads of a supplied account: its address, its owner, and
/// the signer / writable flags the host ledger attests.
pub struct AccountInfo {
    pub address: Vec<u8>,
    pub owner: Vec<u8>,
    pub is_signer: bool,
    pub is_writable: bool,
}

/// What a successful deposit did: the amount moved from the payer to the
/// vault, the two balances after the move, and the new accumulator root.
pub struct DepositReceipt {
    pub amount: u64,
    pub payer_lamports: u64,
    pub vault_lamports: u64,
    pub new_root: Vec<u8>,
}

/// The deposit amount encoded in the payload.
pub open spec fn payload_amount(data: Seq<u8>) -> int {
    le64(data.subrange(0, 8))
}

/// The commitment encoded in the payload.
pub open spec fn payload_commitment(data: Seq<u8>) -> Seq<u8> {
    data.subrange(8, 40)
}

/// The address that the deterministic derivation produces for a seed and a
/// program identity.
pub uninterp spec fn derived_address_of(seed: Seq<u8>, program_id: Seq<u8>) -> Seq<u8>;

/// Relies on solana_address::Address::derive_address (re-exported by
/// pinocchio): the derived address is the SHA-256 of the seed, the program
/// identity and a fixed marker — a pure function of seed and identity, 32
/// bytes long.
#[verifier::external_body]
fn derive_address(seed: &Vec<u8>, program_id: &Vec<u8>) -> (addr: Vec<u8>)
    requires
        seed@.len() <= 32,
        program_id@.len() == 32,
    ensures
        addr@ == derived_address_of(seed@, program_id@),
        addr@.len() == 32,
{
    let pid = pinocchio::Address::try_from(program_id.as_slice()).unwrap();
    let addr = pinocchio::Address::derive_address(&[seed.as_slice()], None, &pid);
    addr.to_bytes().to_vec()
}

/// The seed the pool state address is derived from: the bytes of
/// "pool_state".
pub open spec fn pool_state_seed() -> Seq<u8> {
    seq![112u8, 111u8, 111u8, 108u8, 95u8, 115u8, 116u8, 97u8, 116u8, 101u8]
}

/// The seed the vault address is derived from: the bytes of "vault".
pub open spec fn vault_seed() -> Seq<u8> {
    seq![118u8, 97u8, 117u8, 108u8, 116u8]
}

fn pool_state_seed_bytes() -> (s: Vec<u8>)
    ensures
        s@ == pool_state_seed(),
{
    let s: Vec<u8> = vec![112u8, 111u8, 111u8, 108u8, 95u8, 115u8, 116u8, 97u8, 116u8, 101u8];
    proof {
        assert(s@ =~= pool_state_seed());
    }
    s
}

fn vault_seed_bytes() -> (s: Vec<u8>)
    ensures
        s@ == vault_seed(),
{
    let s: Vec<u8> = vec![118u8, 97u8, 117u8, 108u8, 116u8];
    proof {
        assert(s@ =~= vault_seed());
    }
    s
}

/// The address the pool state account must have under the given program
/// identity.
pub fn pool_state_address(program_id: &Vec<u8>) -> (addr: Vec<u8>)
    requires
        program_id@.len() == 32,
    ensures
        addr@ == derived_address_of(pool_state_seed(), program_id@),
        addr@.len() == 32,
{
    let seed = pool_state_seed_bytes();
    derive_address(&seed, program_id)
}

/// The address the vault account must have under the given program identity.
pub fn vault_address(program_id: &Vec<u8>) -> (addr: Vec<u8>)
    requires
        program_id@.len() == 32,
    ensures
        addr@ == derived_address_of(vault_seed(), program_id@),
        addr@.len() == 32,
{
    let seed = vault_seed_bytes();
    derive_address(&seed, program_id)
}

/// Splits the payload into amount and commitment; rejects, exactly, any
/// payload whose length is not `PAYLOAD_LEN`.
pub fn parse_payload(data: &[u8]) -> (r: Result<(u64, Vec<u8>), DepositError>)
    ensures
        match r {
            Ok(parts) => {
                &&& data@.len() == PAYLOAD_LEN
                &&& parts.0 == payload_amount(data@)
                &&& parts.1@ == payload_commitment(data@)
            },
            Err(e) => {
                &&& data@.len() != PAYLOAD_LEN
                &&& e == DepositError::MalformedPayload
            },
        },
{
    if data.len() != PAYLOAD_LEN {
        return Err(DepositError::MalformedPayload);
    }
    let amount = read_u64_le(data, 0);
    let commitment = copy_range(data, 8, 32);
    Ok((amount, commitment))
}

/// The first check a deposit fails, in the fixed order the handler performs
/// them, or `None` when every check passes and the deposit succeeds.
pub open spec fn deposit_check(
    accounts: Seq<AccountInfo>,
    pool: PoolModel,
    payer_lamports: u64,
    vault_lamports: u64,
    data: Seq<u8>,
    program_id: Seq<u8>,
) -> Option<DepositError> {
    if accounts.len() != 4 {
        Some(DepositError::NotEnoughAccountKeys)
    } else if !accounts[0].is_signer {
        Some(DepositError::MissingRequiredSignature)
    } else if !accounts[1].is_writable || !accounts[2].is_writable {
        Some(DepositError::NotWritable)
    } else if data.len() != PAYLOAD_LEN {
        Some(DepositError::MalformedPayload)
    } else if payload_amount(data) == 0 {
        Some(DepositError::ZeroAmount)
    } else if accounts[1].address@ != derived_address_of(pool_state_seed(), program_id) {
        Some(DepositError::AddressMismatch)
    } else if accounts[1].owner@ != program_id {
        Some(DepositError::InvalidOwner)
    } else if accounts[2].address@ != derived_address_of(vault_seed(), program_id) {
        Some(DepositError::AddressMismatch)
    } else if accounts[2].owner@ != program_id {
        Some(DepositError::InvalidOwner)
    } else if !pool.initialized {
        Some(DepositError::Uninitialized)
    } else if payload_amount(data) > payer_lamports || vault_lamports + payload_amount(data)
        > u64::MAX {
        Some(DepositError::TransferFailed)
    } else if pool.acc.leaf_count >= TREE_CAPACITY {
        Some(DepositError::TreeFull)
    } else {
        None
    }
}

/// Validates a deposit and, when every check passes, applies it: the
/// commitment is inserted into the accumulator, the new root is recorded in
/// the history window, and the receipt reports the moved amount and the
/// balances after the move. On any failure the pool state is unchanged and
/// the error names the first failed check.
pub fn process_deposit(
    accounts: &Vec<AccountInfo>,
    pool: &mut PoolState,
    payer_lamports: u64,
    vault_lamports: u64,
    data: &[u8],
    program_id: &Vec<u8>,
) -> (r: Result<DepositReceipt, DepositError>)
    requires
        old(pool).wf(),
        program_id@.len() == 32,
    ensures
        final(pool).wf(),
        match r {
            Ok(rc) => {
                &&& deposit_check(
                    accounts@,
                    old(pool)@,
                    payer_lamports,
                    vault_lamports,
                    data@,
                    program_id@,
                ) == None::<DepositError>
                &&& rc.amount == payload_amount(data@)
                &&& rc.amount > 0
                &&& rc.payer_lamports == payer_lamports - rc.amount
                &&& rc.vault_lamports == vault_lamports + rc.amount
                &&& final(pool)@ == spec_record(old(pool)@, payload_commitment(data@)).0
                &&& final(pool)@.acc.leaf_count == old(pool)@.acc.leaf_count + 1
                &&& rc.new_root@ == spec_record(old(pool)@, payload_commitment(data@)).1
                &&& rc.new_root@.len() == 32
                &&& crate::history::spec_contains(final(pool)@.history, rc.new_root@)
            },
            Err(e) => {
                &&& deposit_check(
                    accounts@,
                    old(pool)@,
                    payer_lamports,
                    vault_lamports,
                    data@,
                    program_id@,
                ) == Some(e)
                &&& final(pool)@ == old(pool)@
            },
        },
{
    if accounts.len() != 4 {
        return Err(DepositError::NotEnoughAccountKeys);
    }
    if !accounts[0].is_signer {
        return Err(DepositError::MissingRequiredSignature);
    }
    if !accounts[1].is_writable || !accounts[2].is_writable {
        return Err(DepositError::NotWritable);
    }
    let (amount, commitment) = match parse_payload(data) {
        Ok(parts) => parts,
        Err(e) => {
            return Err(e);
        },
    };
    if amount == 0 {
        return Err(DepositError::ZeroAmount);
    }
    let expected_state = pool_state_address(program_id);
    if !bytes_eq(accounts[1].address.as_slice(), expected_state.as_slice()) {
        return Err(DepositError::AddressMismatch);
    }
    if !bytes_eq(accounts[1].owner.as_slice(), program_id.as_slice()) {
        return Err(DepositError::InvalidOwner);
    }
    let expected_vault = vault_address(program_id);
    if !bytes_eq(accounts[2].address.as_slice(), expected_vault.as_slice()) {
        return Err(DepositError::AddressMismatch);
    }
    if !bytes_eq(accounts[2].owner.as_slice(), program_id.as_slice()) {
        return Err(DepositError::InvalidOwner);
    }
    if !pool.is_initialized() {
        return Err(DepositError::Uninitialized);
    }
    if amount > payer_lamports {
        return Err(DepositError::TransferFailed);
    }
    if amount > u64::MAX - vault_lamports {
        return Err(DepositError::TransferFailed);
    }
    match pool.record_commitment(&commitment) {
        Ok(root) => Ok(
            DepositReceipt {
                amount,
                payer_lamports: payer_lamports - amount,
                vault_lamports: vault_lamports + amount,
                new_root: root,
            },
        ),
        Err(e) => Err(e),
    }
}

} // verus!
