//! A first sketch of the system pallet: a block number and a transaction
//! counter per account, with an increment that does not change anything yet.

use vstd::prelude::*;
use crate::str_map::StrMap;

verus! {

/// Blockchain bookkeeping: the block number and per-account counters.
#[derive(Debug)]
pub struct Pallet {
    block_number: u32,
    none: StrMap<u32>,
}

impl Pallet {
    /// The current block number.
    pub closed spec fn current_block(&self) -> u32 {
        self.block_number
    }

    /// The per-account counters.
    pub closed spec fn counters(&self) -> Map<Seq<char>, u32> {
        self.none@
    }

    /// Block zero, no counters.
    pub fn new() -> (p: Pallet)
        ensures
            p.current_block() == 0,
            p.counters() == Map::<Seq<char>, u32>::empty(),
    {
        Pallet { block_number: 0, none: StrMap::new() }
    }

    /// The current block number.
    pub fn block_number(&self) -> (b: u32)
        ensures
            b == self.current_block(),
    {
        self.block_number
    }

    /// Leaves the pallet as it is: the block number is not moved.
    pub fn inc_block_number(&mut self, value: u32)
        ensures
            final(self).current_block() == old(self).current_block(),
            final(self).counters() == old(self).counters(),
    {
    }
}

} // verus!
