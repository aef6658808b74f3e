//! Deposit path of a shielded value pool: an append-only Merkle accumulator
//! of deposit commitments, a bounded ring buffer of recent accumulator roots,
//! and the deposit handler that validates accounts and applies the state
//! transition atomically.

pub mod accumulator;
pub mod bytes;
pub mod deposit;
pub mod error;
pub mod hashing;
pub mod history;
pub mod pool;
