//! Small verified building blocks: toy state machines, a minimal blockchain
//! runtime (system, balances, proof of existence), and DKIM canonicalization,
//! signing and verification.

pub mod state_machine;
pub mod str_map;
pub mod chain;
pub mod dkim;
