//! The attestation ledger: mints one token to each identity whose age proof
//! the verifier accepts.
use vstd::prelude::*;
use crate::account::{contains_account, AccountId};
use crate::zk_verifier::ZkVerifier;

verus! {

/// Token identifiers.
pub type Id = u32;

/// Event recording a token transfer; a mint has no sender.
#[derive(Clone, Copy, Debug, PartialEq, Eq)]
pub struct Transfer {
    pub from: Option<AccountId>,
    pub to: Option<AccountId>,
    pub id: Id,
}

/// Event recording the approval of an account for one token.
#[derive(Clone, Copy, Debug, PartialEq, Eq)]
pub struct Approval {
    pub from: AccountId,
    pub to: AccountId,
    pub id: Id,
}

/// Event recording that an operator was approved or disapproved.
#[derive(Clone, Copy, Debug, PartialEq, Eq)]
pub struct ApprovalForAll {
    pub owner: AccountId,
    pub operator: AccountId,
    pub approved: bool,
}

/// Failures of the ledger.
#[derive(Clone, Copy, Debug, PartialEq, Eq, Structural)]
pub enum Error {
    NotOwner,
    NotApproved,
    /// The caller already holds a token.
    TokenExists,
    TokenNotFound,
    CannotInsert,
    CannotRemove,
    CannotFetchValue,
    /// The verifier did not accept the proof.
    NotAllowed,
    /// The verifier handed in is not the one this ledger was set up with.
    InvalidVerifier,
    /// Every identifier has been used.
    IdOverflow,
}

/// The outcome of a mint by `caller`, given the holders so far, the next
/// identifier, whether the verifier handed in is the configured one and
/// whether it accepted the proof. The checks come in this order; nothing
/// changes unless all pass.
pub open spec fn mint_decision(
    owners: Seq<AccountId>,
    next_id: int,
    caller: AccountId,
    verifier_matches: bool,
    verified: bool,
) -> Result<(), Error> {
    if owners.contains(caller) {
        Err(Error::TokenExists)
    } else if next_id >= u32::MAX {
        Err(Error::IdOverflow)
    } else if !verifier_matches {
        Err(Error::InvalidVerifier)
    } else if !verified {
        Err(Error::NotAllowed)
    } else {
        Ok(())
    }
}

/// The ledger. Token `i` belongs to the `i`th holder; identifiers are handed
/// out from zero upwards.
pub struct AgeToken {
    name: Vec<u8>,
    symbol: Vec<u8>,
    account_id: AccountId,
    verifier: AccountId,
    token_owner: Vec<AccountId>,
    next_id: Id,
    events: Vec<Transfer>,
}

impl AgeToken {
    /// The ledger's own address, the caller the verifier sees.
    pub closed spec fn account(&self) -> AccountId {
        self.account_id
    }

    /// The address of the verifier this ledger trusts.
    pub closed spec fn verifier_address(&self) -> AccountId {
        self.verifier
    }

    /// The owner of each token, by identifier.
    pub closed spec fn owners(&self) -> Seq<AccountId> {
        self.token_owner@
    }

    /// The identifier the next mint assigns.
    pub closed spec fn next_token_id(&self) -> int {
        self.next_id as int
    }

    /// The transfer events, oldest first.
    pub closed spec fn transfers(&self) -> Seq<Transfer> {
        self.events@
    }

    pub closed spec fn name_bytes(&self) -> Seq<u8> {
        self.name@
    }

    pub closed spec fn symbol_bytes(&self) -> Seq<u8> {
        self.symbol@
    }

    /// Identifiers are dense from zero, each holder holds one token, and
    /// token `i` was minted to its owner by the `i`th event.
    pub open spec fn wf(&self) -> bool {
        &&& self.owners().len() == self.next_token_id()
        &&& self.owners().no_duplicates()
        &&& self.transfers().len() == self.owners().len()
        &&& forall|i: int|
            0 <= i < self.transfers().len() ==> #[trigger] self.transfers()[i] == (Transfer {
                from: None,
                to: Some(self.owners()[i]),
                id: i as u32,
            })
    }

    /// Both hold the same state.
    pub open spec fn same_state(&self, other: &AgeToken) -> bool {
        &&& other.account() == self.account()
        &&& other.verifier_address() == self.verifier_address()
        &&& other.owners() == self.owners()
        &&& other.next_token_id() == self.next_token_id()
        &&& other.transfers() == self.transfers()
        &&& other.name_bytes() == self.name_bytes()
        &&& other.symbol_bytes() == self.symbol_bytes()
    }

    /// A ledger at `account_id` that trusts the verifier at `verifier_address`;
    /// no token is minted yet.
    pub fn new(account_id: AccountId, verifier_address: AccountId) -> (r: Self)
        ensures
            r.wf(),
            r.account() == account_id,
            r.verifier_address() == verifier_address,
            r.owners() == Seq::<AccountId>::empty(),
            r.next_token_id() == 0,
            r.transfers() == Seq::<Transfer>::empty(),
            r.name_bytes() == seq![
                65u8, 103, 101, 32, 86, 101, 114, 105, 102, 105, 99, 97, 116, 105, 111, 110, 32,
                84, 111, 107, 101, 110,
            ],
            r.symbol_bytes() == seq![65u8, 71, 69],
    {
        // "Age Verification Token", "AGE"
        let name: Vec<u8> = vec![
            65, 103, 101, 32, 86, 101, 114, 105, 102, 105, 99, 97,
            116, 105, 111, 110, 32, 84, 111, 107, 101, 110,
        ];
        let symbol: Vec<u8> = vec![65, 71, 69];
        AgeToken {
            name,
            symbol,
            account_id,
            verifier: verifier_address,
            token_owner: Vec::new(),
            next_id: 0,
            events: Vec::new(),
        }
    }

    /// Asks the verifier whether the proof holds. Fails if the verifier
    /// handed in is not the configured one, leaving it untouched.
    fn verify_age(
        &self,
        verifier: &mut ZkVerifier,
        proof_a: Vec<u8>,
        proof_b: Vec<u8>,
        proof_c: Vec<u8>,
        public_inputs: Vec<u8>,
    ) -> (r: Result<bool, Error>)
        requires
            old(verifier).wf(),
        ensures
            final(verifier).wf(),
            old(verifier).account() != self.verifier_address() ==> r == Err::<bool, Error>(
                Error::InvalidVerifier,
            ) && old(verifier).same_state(final(verifier)),
            old(verifier).account() == self.verifier_address() ==> {
                let ok = old(verifier).verify_outcome(
                    self.account(),
                    proof_a@,
                    proof_b@,
                    proof_c@,
                    public_inputs@,
                );
                r == Ok::<bool, Error>(ok) && old(verifier).records(final(verifier), self.account(), ok)
            },
    {
        if verifier.account_id() != self.verifier {
            return Err(Error::InvalidVerifier);
        }
        proof {
            assert(verifier.account().0 =~= self.verifier.0);
        }
        Ok(verifier.verify_proof(self.account_id, proof_a, proof_b, proof_c, public_inputs))
    }

    /// Records `to` as the owner of token `id`, the next identifier.
    fn add_token_to(&mut self, to: AccountId, id: Id) -> (r: Result<(), Error>)
        requires
            id as int == old(self).owners().len(),
        ensures
            r is Ok,
            final(self).owners() == old(self).owners().push(to),
            final(self).account() == old(self).account(),
            final(self).verifier_address() == old(self).verifier_address(),
            final(self).next_token_id() == old(self).next_token_id(),
            final(self).transfers() == old(self).transfers(),
            final(self).name_bytes() == old(self).name_bytes(),
            final(self).symbol_bytes() == old(self).symbol_bytes(),
    {
        self.token_owner.push(to);
        Ok(())
    }

    /// Mints a token to `caller` if the verifier accepts the proof. A caller
    /// that already holds a token is refused before anything is verified; on
    /// every failure the ledger is left as it was.
    pub fn mint_verified(
        &mut self,
        caller: AccountId,
        verifier: &mut ZkVerifier,
        proof_a: Vec<u8>,
        proof_b: Vec<u8>,
        proof_c: Vec<u8>,
        public_inputs: Vec<u8>,
    ) -> (r: Result<(), Error>)
        requires
            old(self).wf(),
            old(verifier).wf(),
        ensures
            final(self).wf(),
            final(verifier).wf(),
            ({
                let matches = old(verifier).account() == old(self).verifier_address();
                let reached = !old(self).owners().contains(caller) && old(self).next_token_id()
                    < u32::MAX && matches;
                let verified = old(verifier).verify_outcome(
                    old(self).account(),
                    proof_a@,
                    proof_b@,
                    proof_c@,
                    public_inputs@,
                );
                &&& r == mint_decision(
                    old(self).owners(),
                    old(self).next_token_id(),
                    caller,
                    matches,
                    verified,
                )
                &&& reached ==> old(verifier).records(final(verifier), old(self).account(), verified)
                &&& !reached ==> old(verifier).same_state(final(verifier))
            }),
            r is Ok ==> {
                &&& final(self).owners() == old(self).owners().push(caller)
                &&& final(self).next_token_id() == old(self).next_token_id() + 1
                &&& final(self).transfers() == old(self).transfers().push(
                    Transfer { from: None, to: Some(caller), id: old(self).next_token_id() as u32 },
                )
            },
            r is Ok ==> final(self).account() == old(self).account()
                && final(self).verifier_address() == old(self).verifier_address()
                && final(self).name_bytes() == old(self).name_bytes()
                && final(self).symbol_bytes() == old(self).symbol_bytes(),
            r is Err ==> old(self).same_state(final(self)),
    {
        if contains_account(&self.token_owner, caller) {
            return Err(Error::TokenExists);
        }
        if self.next_id == u32::MAX {
            return Err(Error::IdOverflow);
        }
        let verified = match self.verify_age(verifier, proof_a, proof_b, proof_c, public_inputs) {
            Ok(v) => v,
            Err(e) => return Err(e),
        };
        if !verified {
            return Err(Error::NotAllowed);
        }
        let to = caller;
        let id = self.next_id;
        let ghost before = self.owners();
        let _ = self.add_token_to(to, id);
        self.next_id = self.next_id + 1;
        self.events.push(Transfer { from: None, to: Some(to), id });
        proof {
            assert forall|i: int, j: int|
                0 <= i < j < self.owners().len() implies self.owners()[i] != self.owners()[j] by {
                if j == before.len() {
                    assert(before.contains(self.owners()[i]));
                }
            }
            assert forall|i: int| 0 <= i < self.transfers().len() implies #[trigger] self.transfers()[i]
                == (Transfer { from: None, to: Some(self.owners()[i]), id: i as u32 }) by {
                if i < before.len() {
                    assert(old(self).transfers()[i] == self.transfers()[i]);
                }
            }
        }
        Ok(())
    }

    /// The owner of token `id`, if it was minted.
    pub fn owner_of(&self, id: Id) -> (r: Option<AccountId>)
        requires
            self.wf(),
        ensures
            r == (if (id as int) < self.owners().len() {
                Some(self.owners()[id as int])
            } else {
                None::<AccountId>
            }),
    {
        if (id as usize) < self.token_owner.len() {
            Some(self.token_owner[id as usize])
        } else {
            None
        }
    }

    /// Whether `account` holds a token.
    pub fn has_valid_token(&self, account: AccountId) -> (r: bool)
        ensures
            r == self.owners().contains(account),
    {
        contains_account(&self.token_owner, account)
    }

    /// The identifier the next mint assigns.
    pub fn next_id(&self) -> (r: Id)
        ensures
            r as int == self.next_token_id(),
    {
        self.next_id
    }

    /// The transfer events, oldest first.
    pub fn transfers_log(&self) -> (r: &Vec<Transfer>)
        ensures
            r@ == self.transfers(),
    {
        &self.events
    }

    /// The token's name.
    pub fn name(&self) -> (r: &Vec<u8>)
        ensures
            r@ == self.name_bytes(),
    {
        &self.name
    }

    /// The token's symbol.
    pub fn symbol(&self) -> (r: &Vec<u8>)
        ensures
            r@ == self.symbol_bytes(),
    {
        &self.symbol
    }
}

/// Once a mint by `who` has succeeded, a further mint by `who` fails with
/// `TokenExists`, whatever the verifier answers: each identity ends up with
/// exactly one token.
pub proof fn lemma_mint_once_per_identity(
    owners: Seq<AccountId>,
    next_id: int,
    who: AccountId,
    first_matches: bool,
    first_verified: bool,
    second_matches: bool,
    second_verified: bool,
)
    requires
        mint_decision(owners, next_id, who, first_matches, first_verified) is Ok,
    ensures
        !owners.contains(who),
        owners.push(who).contains(who),
        mint_decision(owners.push(who), next_id + 1, who, second_matches, second_verified)
            == Err::<(), Error>(Error::TokenExists),
{
    assert(owners.push(who)[owners.len() as int] == who);
}

/// Identifiers of successive mints are distinct and strictly increasing from
/// zero: the `i`th mint event carries identifier `i`, and the next mint gets
/// the identifier after the last.
pub proof fn lemma_ids_strictly_increase(t: &AgeToken)
    requires
        t.wf(),
    ensures
        forall|i: int| 0 <= i < t.transfers().len() ==> #[trigger] t.transfers()[i].id == i,
        forall|i: int, j: int|
            0 <= i < j < t.transfers().len() ==> t.transfers()[i].id < t.transfers()[j].id,
        t.next_token_id() == t.transfers().len(),
{
    assert forall|i: int, j: int| 0 <= i < j < t.transfers().len() implies t.transfers()[i].id
        < t.transfers()[j].id by {
        assert(t.transfers()[i].id == i);
        assert(t.transfers()[j].id == j);
    }
}

} // verus!
