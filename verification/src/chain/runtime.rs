//! The runtime: the pallets together, and the execution of blocks.

use vstd::prelude::*;
use crate::chain::support::{Block, Dispatch, DispatchResult, Extrinsic, Header};
use crate::chain::{balances, proof_of_existence, system};

verus! {

/// A call to one of the runtime's pallets.
#[allow(non_camel_case_types)]
pub enum RuntimeCall {
    balances(balances::Call),
    proof_of_existence(proof_of_existence::Call),
}

/// The extrinsics the runtime executes.
pub type RuntimeExtrinsic = Extrinsic<String, RuntimeCall>;

/// The blocks the runtime executes.
pub type RuntimeBlock = Block<Header<u64>, RuntimeExtrinsic>;

/// The state that calls change: nonces, balances and claims.
pub type Ledger = (Map<Seq<char>, u64>, Map<Seq<char>, u128>, Map<Seq<char>, Seq<char>>);

/// The nonce of `who` in `n`: zero for an account never seen.
pub open spec fn nonce_in(n: Map<Seq<char>, u64>, who: Seq<char>) -> u64 {
    if n.contains_key(who) {
        n[who]
    } else {
        0
    }
}

/// The ledger after `call` from `caller` is dispatched (a refused call changes nothing).
pub open spec fn dispatch_step(l: Ledger, caller: Seq<char>, call: RuntimeCall) -> Ledger {
    match call {
        RuntimeCall::balances(balances::Call::transfer { to, amount }) => match balances::transfer_outcome(
            l.1,
            caller,
            to@,
            amount,
        ) {
            Ok(b) => (l.0, b, l.2),
            Err(_) => l,
        },
        RuntimeCall::proof_of_existence(proof_of_existence::Call::CreateClaim { claim }) => match proof_of_existence::create_outcome(l.2, caller, claim@) {
            Ok(c) => (l.0, l.1, c),
            Err(_) => l,
        },
        RuntimeCall::proof_of_existence(proof_of_existence::Call::RevokeClaim { claim }) => match proof_of_existence::revoke_outcome(l.2, caller, claim@) {
            Ok(c) => (l.0, l.1, c),
            Err(_) => l,
        },
    }
}

/// The ledger after one extrinsic: the caller's nonce goes up by one, then its call is dispatched.
pub open spec fn extrinsic_step(l: Ledger, e: RuntimeExtrinsic) -> Ledger {
    let bumped = (l.0.insert(e.caller@, (nonce_in(l.0, e.caller@) + 1) as u64), l.1, l.2);
    dispatch_step(bumped, e.caller@, e.call)
}

/// The ledger after the extrinsics `exts`, in order.
pub open spec fn run_extrinsics(l: Ledger, exts: Seq<RuntimeExtrinsic>) -> Ledger
    decreases exts.len(),
{
    if exts.len() == 0 {
        l
    } else {
        extrinsic_step(run_extrinsics(l, exts.drop_last()), exts.last())
    }
}

/// No caller's nonce overflows while `exts` are executed from `l`.
pub open spec fn nonces_fit(l: Ledger, exts: Seq<RuntimeExtrinsic>) -> bool {
    forall|i: int|
        0 <= i < exts.len() ==> nonce_in(#[trigger] run_extrinsics(l, exts.take(i)).0, exts[i].caller@)
            < u64::MAX
}

/// The runtime: the system, balances and proof of existence pallets.
#[derive(Debug)]
pub struct Runtime {
    pub system: system::Pallet,
    pub balances: balances::Pallet,
    pub proof_of_existence: proof_of_existence::Pallet,
}

impl Runtime {
    /// The ledger of the runtime.
    pub open spec fn ledger(&self) -> Ledger {
        (self.system.nonces(), self.balances.balances(), self.proof_of_existence.claims())
    }

    /// Fresh pallets.
    pub fn new() -> (r: Self)
        ensures
            r.system.current_block() == 0,
            r.ledger() == (
                Map::<Seq<char>, u64>::empty(),
                Map::<Seq<char>, u128>::empty(),
                Map::<Seq<char>, Seq<char>>::empty(),
            ),
    {
        Runtime {
            system: system::Pallet::new(),
            balances: balances::Pallet::new(),
            proof_of_existence: proof_of_existence::Pallet::new(),
        }
    }

    /// Executes a block: moves to the next block number, refuses the block if
    /// its number is not that one, and otherwise executes its extrinsics in
    /// order. A refused call does not stop the block.
    pub fn execute_block(&mut self, block: RuntimeBlock) -> (r: DispatchResult)
        requires
            old(self).system.current_block() < u64::MAX,
            block.header.block_number == old(self).system.current_block() + 1 ==> nonces_fit(
                old(self).ledger(),
                block.extrinsics@,
            ),
        ensures
            final(self).system.current_block() == old(self).system.current_block() + 1,
            block.header.block_number != final(self).system.current_block() ==> r == Err::<
                (),
                &'static str,
            >("block number does not match what is expected") && final(self).ledger() == old(
                self,
            ).ledger(),
            block.header.block_number == final(self).system.current_block() ==> r == Ok::<
                (),
                &'static str,
            >(()) && final(self).ledger() == run_extrinsics(old(self).ledger(), block.extrinsics@),
    {
        self.system.inc_block_number();
        if block.header.block_number != self.system.block_number() {
            return Err("block number does not match what is expected");
        }
        let ghost start = self.ledger();
        let ghost exts = block.extrinsics@;
        let ghost block_no = self.system.current_block();
        for e in it: block.extrinsics
            invariant
                exts == it.seq(),
                nonces_fit(start, exts),
                self.system.current_block() == block_no,
                self.ledger() == run_extrinsics(start, exts.take(it.index() as int)),
        {
            let ghost i = it.index() as int;
            assert(exts.take(i + 1).drop_last() =~= exts.take(i));
            assert(exts.take(i + 1).last() == e);
            assert(nonce_in(run_extrinsics(start, exts.take(i)).0, exts[i].caller@) < u64::MAX);
            let Extrinsic { caller, call } = e;
            self.system.inc_nonce(caller.clone());
            let _res = self.dispatch(caller, call);
        }
        assert(exts.take(exts.len() as int) =~= exts);
        Ok(())
    }

    /// Sends `call` from `caller` to the pallet it belongs to.
    pub fn dispatch(&mut self, caller: String, call: RuntimeCall) -> (r: DispatchResult)
        ensures
            final(self).ledger() == dispatch_step(old(self).ledger(), caller@, call),
            final(self).system.current_block() == old(self).system.current_block(),
    {
        match call {
            RuntimeCall::balances(c) => self.balances.dispatch(caller, c),
            RuntimeCall::proof_of_existence(c) => self.proof_of_existence.dispatch(caller, c),
        }
    }
}

/// The number of extrinsics of `exts` made by `who`.
pub open spec fn calls_by(exts: Seq<RuntimeExtrinsic>, who: Seq<char>) -> nat
    decreases exts.len(),
{
    if exts.len() == 0 {
        0
    } else {
        calls_by(exts.drop_last(), who) + if exts.last().caller@ == who {
            1nat
        } else {
            0nat
        }
    }
}

/// Every account's nonce counts its transactions: after a run of extrinsics
/// with no overflow, each account's nonce has grown by the number of
/// extrinsics it made, whether or not their calls succeeded.
pub proof fn lemma_nonce_counts_extrinsics(l: Ledger, exts: Seq<RuntimeExtrinsic>, who: Seq<char>)
    requires
        nonces_fit(l, exts),
    ensures
        nonce_in(run_extrinsics(l, exts).0, who) == nonce_in(l.0, who) + calls_by(exts, who),
    decreases exts.len(),
{
    if exts.len() > 0 {
        let prev = exts.drop_last();
        assert(nonces_fit(l, prev)) by {
            assert forall|i: int| 0 <= i < prev.len() implies nonce_in(
                #[trigger] run_extrinsics(l, prev.take(i)).0,
                prev[i].caller@,
            ) < u64::MAX by {
                assert(prev.take(i) =~= exts.take(i));
                assert(nonce_in(run_extrinsics(l, exts.take(i)).0, exts[i].caller@) < u64::MAX);
            }
        }
        lemma_nonce_counts_extrinsics(l, prev, who);
        let last = exts.len() - 1;
        assert(exts.take(last) =~= prev);
        assert(nonce_in(run_extrinsics(l, exts.take(last)).0, exts[last].caller@) < u64::MAX);
    }
}

/// The account name "bob".
pub fn bob() -> (s: String)
    ensures
        s@ == "bob"@,
{
    String::from_str("bob")
}

/// The account name "alice".
pub fn alice() -> (s: String)
    ensures
        s@ == "alice"@,
{
    String::from_str("alice")
}

/// The account name "charlie".
pub fn charlie() -> (s: String)
    ensures
        s@ == "charlie"@,
{
    String::from_str("charlie")
}

} // verus!

verus! {

/// A call dispatched through the runtime does to the state what its pallet
/// does, and touches nothing else: the owner's `RevokeClaim` removes the
/// claim, anyone else's leaves the claims as they are; `CreateClaim` of
/// unclaimed content records the caller as its owner, of claimed content
/// changes nothing; a `transfer` between two accounts, with enough funds and
/// no overflow, moves `amount` from the caller to the receiver; nonces never
/// change.
pub proof fn lemma_dispatch_step_effects(
    l: Ledger,
    caller: Seq<char>,
    claim: String,
    to: String,
    amount: u128,
)
    ensures
        ({
            let s = dispatch_step(l, caller, RuntimeCall::proof_of_existence(proof_of_existence::Call::RevokeClaim { claim }));
            &&& l.2.contains_key(claim@) && l.2[claim@] == caller ==> s == (l.0, l.1, l.2.remove(claim@))
            &&& !(l.2.contains_key(claim@) && l.2[claim@] == caller) ==> s == l
        }),
        ({
            let s = dispatch_step(l, caller, RuntimeCall::proof_of_existence(proof_of_existence::Call::CreateClaim { claim }));
            &&& !l.2.contains_key(claim@) ==> s == (l.0, l.1, l.2.insert(claim@, caller))
            &&& l.2.contains_key(claim@) ==> s == l
        }),
        ({
            let s = dispatch_step(l, caller, RuntimeCall::balances(balances::Call::transfer { to, amount }));
            &&& s.0 == l.0 && s.2 == l.2
            &&& (caller != to@ && amount <= balances::balance_in(l.1, caller) && balances::balance_in(l.1, to@) + amount <= u128::MAX)
                ==> {
                &&& balances::balance_in(s.1, caller) == balances::balance_in(l.1, caller) - amount
                &&& balances::balance_in(s.1, to@) == balances::balance_in(l.1, to@) + amount
                &&& forall|w: Seq<char>| w != caller && w != to@ ==> #[trigger] balances::balance_in(s.1, w) == balances::balance_in(l.1, w)
            }
            &&& amount > balances::balance_in(l.1, caller) ==> s == l
        }),
{
}

} // verus!
