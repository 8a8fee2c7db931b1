//! Account balances and transfers between accounts.

use vstd::prelude::*;
use crate::str_map::StrMap;
use crate::chain::support::{Dispatch, DispatchResult};

verus! {

/// The balance of `who` in `b`: zero for an account never seen.
pub open spec fn balance_in(b: Map<Seq<char>, u128>, who: Seq<char>) -> u128 {
    if b.contains_key(who) {
        b[who]
    } else {
        0
    }
}

/// The balances after `caller` sends `amount` to `to`, or the reason the
/// transfer is refused.
pub open spec fn transfer_outcome(
    b: Map<Seq<char>, u128>,
    caller: Seq<char>,
    to: Seq<char>,
    amount: u128,
) -> Result<Map<Seq<char>, u128>, &'static str> {
    let cb = balance_in(b, caller);
    let tb = balance_in(b, to);
    if cb < amount {
        Err("Insufficient balance")
    } else if tb + amount > u128::MAX {
        Err("Overflow when adding balance")
    } else {
        Ok(b.insert(caller, (cb - amount) as u128).insert(to, (tb + amount) as u128))
    }
}

/// The balances pallet.
#[derive(Debug)]
pub struct Pallet {
    pub balances: StrMap<u128>,
}

/// The calls of the balances pallet.
#[allow(non_camel_case_types)]
pub enum Call {
    transfer { to: String, amount: u128 },
}

impl Pallet {
    /// The balances of the accounts that have one.
    pub closed spec fn balances(&self) -> Map<Seq<char>, u128> {
        self.balances@
    }

    /// The balance of `who`.
    pub open spec fn balance_of(&self, who: Seq<char>) -> u128 {
        balance_in(self.balances(), who)
    }

    /// No balances.
    pub fn new() -> (p: Self)
        ensures
            p.balances() == Map::<Seq<char>, u128>::empty(),
    {
        Pallet { balances: StrMap::new() }
    }

    /// Sets the balance of `who`.
    pub fn set_balance(&mut self, who: String, amount: u128)
        ensures
            final(self).balances() == old(self).balances().insert(who@, amount),
    {
        self.balances.insert(who, amount);
    }

    /// The balance of `who`.
    pub fn balance(&self, who: String) -> (b: u128)
        ensures
            b == self.balance_of(who@),
    {
        match self.balances.get(who.as_str()) {
            Some(b) => *b,
            None => 0,
        }
    }

    /// `caller` sends `amount` to `to`. Refused, with nothing changed, when the
    /// caller has less than `amount` or the receiver's balance would overflow.
    pub fn transfer(&mut self, caller: String, to: String, amount: u128) -> (r: DispatchResult)
        ensures
            match transfer_outcome(old(self).balances(), caller@, to@, amount) {
                Ok(b) => r == Ok::<(), &'static str>(()) && final(self).balances() == b,
                Err(e) => r == Err::<(), &'static str>(e) && final(self).balances() == old(self).balances(),
            },
    {
        let caller_balance = self.balance(caller.clone());
        let to_balance = self.balance(to.clone());
        let new_caller_balance = match caller_balance.checked_sub(amount) {
            Some(b) => b,
            None => {
                return Err("Insufficient balance");
            },
        };
        let new_to_balance = match to_balance.checked_add(amount) {
            Some(b) => b,
            None => {
                return Err("Overflow when adding balance");
            },
        };
        self.set_balance(caller, new_caller_balance);
        self.set_balance(to, new_to_balance);
        Ok(())
    }
}

impl Dispatch for Pallet {
    type Caller = String;
    type Call = Call;

    fn dispatch(&mut self, caller: String, call: Call) -> (r: DispatchResult)
        ensures
            match call {
                Call::transfer { to, amount } => match transfer_outcome(
                    old(self).balances(),
                    caller@,
                    to@,
                    amount,
                ) {
                    Ok(b) => r == Ok::<(), &'static str>(()) && final(self).balances() == b,
                    Err(e) => r == Err::<(), &'static str>(e) && final(self).balances() == old(
                        self,
                    ).balances(),
                },
            },
    {
        match call {
            Call::transfer { to, amount } => self.transfer(caller, to, amount),
        }
    }
}

/// A transfer between two different accounts moves `amount` from one to the
/// other: their total stays the same and every other account is unchanged.
pub proof fn lemma_transfer_conserves(
    b: Map<Seq<char>, u128>,
    caller: Seq<char>,
    to: Seq<char>,
    amount: u128,
)
    requires
        caller != to,
    ensures
        transfer_outcome(b, caller, to, amount) matches Ok(nb) ==> {
            &&& balance_in(nb, caller) + balance_in(nb, to) == balance_in(b, caller) + balance_in(b, to)
            &&& balance_in(nb, caller) == balance_in(b, caller) - amount
            &&& forall|w: Seq<char>| w != caller && w != to ==> #[trigger] balance_in(nb, w) == balance_in(b, w)
        },
{
}

/// A transfer succeeds exactly when the caller holds at least `amount` and the
/// receiver's balance can grow by `amount`.
pub proof fn lemma_transfer_succeeds_iff(
    b: Map<Seq<char>, u128>,
    caller: Seq<char>,
    to: Seq<char>,
    amount: u128,
)
    ensures
        transfer_outcome(b, caller, to, amount) is Ok <==> (amount <= balance_in(b, caller)
            && balance_in(b, to) + amount <= u128::MAX),
{
}

} // verus!
