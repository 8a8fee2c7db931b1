//! Block number and per-account transaction counters.

use vstd::prelude::*;
use crate::str_map::StrMap;

verus! {

/// The system pallet: the current block number and the nonce of each account.
#[derive(Debug)]
pub struct Pallet {
    pub block_number: u64,
    pub nonce: StrMap<u64>,
}

impl Pallet {
    /// The current block number.
    pub closed spec fn current_block(&self) -> u64 {
        self.block_number
    }

    /// The nonces of the accounts that have one.
    pub closed spec fn nonces(&self) -> Map<Seq<char>, u64> {
        self.nonce@
    }

    /// The nonce of `who`: zero for an account never seen.
    pub open spec fn nonce_of(&self, who: Seq<char>) -> u64 {
        if self.nonces().contains_key(who) {
            self.nonces()[who]
        } else {
            0
        }
    }

    /// Block zero, no nonces.
    pub fn new() -> (p: Self)
        ensures
            p.current_block() == 0,
            p.nonces() == Map::<Seq<char>, u64>::empty(),
    {
        Pallet { block_number: 0, nonce: StrMap::new() }
    }

    /// The current block number.
    pub fn block_number(&self) -> (b: u64)
        ensures
            b == self.current_block(),
    {
        self.block_number
    }

    /// Moves to the next block; the block number must not overflow.
    pub fn inc_block_number(&mut self)
        requires
            old(self).current_block() < u64::MAX,
        ensures
            final(self).current_block() == old(self).current_block() + 1,
            final(self).nonces() == old(self).nonces(),
    {
        self.block_number = self.block_number + 1;
    }

    /// The nonce of `who`.
    pub fn get_nonce(&self, who: String) -> (n: u64)
        ensures
            n == self.nonce_of(who@),
    {
        match self.nonce.get(who.as_str()) {
            Some(n) => *n,
            None => 0,
        }
    }

    /// Counts one more transaction for `who`; the nonce must not overflow.
    pub fn inc_nonce(&mut self, who: String)
        requires
            old(self).nonce_of(who@) < u64::MAX,
        ensures
            final(self).nonces() == old(self).nonces().insert(who@, (old(self).nonce_of(who@) + 1) as u64),
            final(self).current_block() == old(self).current_block(),
    {
        let nonce = self.get_nonce(who.clone());
        self.nonce.insert(who, nonce + 1);
    }
}

} // verus!
