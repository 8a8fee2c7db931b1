//! Proof of existence: accounts claim pieces of content; each claim has one owner.

use vstd::prelude::*;
use crate::str_map::StrMap;
use crate::chain::support::{Dispatch, DispatchResult};

verus! {

/// The claims after `caller` claims `claim`, or the reason it is refused.
pub open spec fn create_outcome(
    claims: Map<Seq<char>, Seq<char>>,
    caller: Seq<char>,
    claim: Seq<char>,
) -> Result<Map<Seq<char>, Seq<char>>, &'static str> {
    if claims.contains_key(claim) {
        Err("Claim already exists")
    } else {
        Ok(claims.insert(claim, caller))
    }
}

/// The claims after `caller` revokes `claim`, or the reason it is refused.
pub open spec fn revoke_outcome(
    claims: Map<Seq<char>, Seq<char>>,
    caller: Seq<char>,
    claim: Seq<char>,
) -> Result<Map<Seq<char>, Seq<char>>, &'static str> {
    if !claims.contains_key(claim) {
        Err("Claim does not exist")
    } else if claims[claim] != caller {
        Err("Caller is not the owner of the claim")
    } else {
        Ok(claims.remove(claim))
    }
}

/// The proof of existence pallet: a map from content to the owner of that content.
#[derive(Debug)]
pub struct Pallet {
    pub claims: StrMap<String>,
}

/// The calls of the proof of existence pallet.
pub enum Call {
    CreateClaim { claim: String },
    RevokeClaim { claim: String },
}

impl Pallet {
    /// The owner of each claimed piece of content.
    pub closed spec fn claims(&self) -> Map<Seq<char>, Seq<char>> {
        self.claims@.map_values(|o: String| o@)
    }

    /// No claims.
    pub fn new() -> (p: Self)
        ensures
            p.claims() == Map::<Seq<char>, Seq<char>>::empty(),
    {
        let p = Pallet { claims: StrMap::new() };
        assert(p.claims() =~= Map::<Seq<char>, Seq<char>>::empty());
        p
    }

    /// The owner of `claim`, if it is claimed.
    pub fn get_claim(&self, claim: &String) -> (r: Option<&String>)
        ensures
            r is Some == self.claims().contains_key(claim@),
            r matches Some(o) ==> o@ == self.claims()[claim@],
    {
        self.claims.get(claim.as_str())
    }

    /// `caller` claims `claim`; refused if `claim` already has an owner.
    pub fn create_claim(&mut self, caller: String, claim: String) -> (r: DispatchResult)
        ensures
            match create_outcome(old(self).claims(), caller@, claim@) {
                Ok(c) => r == Ok::<(), &'static str>(()) && final(self).claims() == c,
                Err(e) => r == Err::<(), &'static str>(e) && final(self).claims() == old(self).claims(),
            },
    {
        match self.get_claim(&claim) {
            Some(_) => Err("Claim already exists"),
            None => {
                let ghost before = self.claims@;
                let ghost k = claim@;
                let ghost v = caller;
                self.claims.insert(claim, caller);
                assert(self.claims() =~= before.map_values(|o: String| o@).insert(k, v@));
                Ok(())
            },
        }
    }

    /// `caller` gives up `claim`; refused if `claim` has no owner or another owner.
    pub fn revoke_claim(&mut self, caller: String, claim: String) -> (r: DispatchResult)
        ensures
            match revoke_outcome(old(self).claims(), caller@, claim@) {
                Ok(c) => r == Ok::<(), &'static str>(()) && final(self).claims() == c,
                Err(e) => r == Err::<(), &'static str>(e) && final(self).claims() == old(self).claims(),
            },
    {
        let owner_matches = match self.get_claim(&claim) {
            None => {
                return Err("Claim does not exist");
            },
            Some(owner) => *owner == caller,
        };
        if !owner_matches {
            return Err("Caller is not the owner of the claim");
        }
        let ghost before = self.claims@;
        self.claims.remove(claim.as_str());
        assert(self.claims() =~= before.map_values(|o: String| o@).remove(claim@));
        Ok(())
    }
}

impl Dispatch for Pallet {
    type Caller = String;
    type Call = Call;

    fn dispatch(&mut self, caller: String, call: Call) -> (r: DispatchResult)
        ensures
            match call {
                Call::CreateClaim { claim } => match create_outcome(old(self).claims(), caller@, claim@) {
                    Ok(c) => r == Ok::<(), &'static str>(()) && final(self).claims() == c,
                    Err(e) => r == Err::<(), &'static str>(e) && final(self).claims() == old(self).claims(),
                },
                Call::RevokeClaim { claim } => match revoke_outcome(old(self).claims(), caller@, claim@) {
                    Ok(c) => r == Ok::<(), &'static str>(()) && final(self).claims() == c,
                    Err(e) => r == Err::<(), &'static str>(e) && final(self).claims() == old(self).claims(),
                },
            },
    {
        match call {
            Call::CreateClaim { claim } => self.create_claim(caller, claim),
            Call::RevokeClaim { claim } => self.revoke_claim(caller, claim),
        }
    }
}

/// After a successful claim, the claim's owner is the caller; each piece of
/// content has a single owner, so a second claim of it is refused.
pub proof fn lemma_create_then_owner(claims: Map<Seq<char>, Seq<char>>, caller: Seq<char>, other: Seq<char>, claim: Seq<char>)
    requires
        create_outcome(claims, caller, claim) is Ok,
    ensures
        create_outcome(claims, caller, claim)->Ok_0[claim] == caller,
        create_outcome(create_outcome(claims, caller, claim)->Ok_0, other, claim) == Err::<Map<Seq<char>, Seq<char>>, &'static str>("Claim already exists"),
{
}

/// Revoking a claim just created by the same caller gives back the claims there were before.
pub proof fn lemma_create_then_revoke(claims: Map<Seq<char>, Seq<char>>, caller: Seq<char>, claim: Seq<char>)
    requires
        create_outcome(claims, caller, claim) is Ok,
    ensures
        revoke_outcome(create_outcome(claims, caller, claim)->Ok_0, caller, claim) == Ok::<Map<Seq<char>, Seq<char>>, &'static str>(claims),
{
    assert(claims.insert(claim, caller).remove(claim) =~= claims);
}

/// Only the owner can revoke a claim: a revocation by anyone else is refused.
pub proof fn lemma_revoke_only_by_owner(claims: Map<Seq<char>, Seq<char>>, caller: Seq<char>, claim: Seq<char>)
    requires
        claims.contains_key(claim),
        claims[claim] != caller,
    ensures
        revoke_outcome(claims, caller, claim) == Err::<Map<Seq<char>, Seq<char>>, &'static str>("Caller is not the owner of the claim"),
{
}

} // verus!
