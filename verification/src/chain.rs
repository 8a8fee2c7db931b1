//! A minimal blockchain runtime: block bookkeeping, balances and proof of
//! existence, driven by blocks of extrinsics.

pub mod support;
pub mod system;
pub mod balances;
pub mod proof_of_existence;
pub mod systems;
pub mod runtime;
