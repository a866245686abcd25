//! The verifier: checks Groth16 proofs of the age circuit for callers that
//! its administrator has authorized.
use vstd::prelude::*;
use crate::account::{contains_account, AccountId};
use crate::field::{le_value, modulus, FieldElement};
use bellman::groth16::{self, Proof, VerifyingKey};
use bellman::VerificationError;
use bls12_381::{Bls12, Scalar};

verus! {

/// Bytes of a compressed G1 point of BLS12-381.
pub const G1_COMPRESSED_LEN: usize = 48;

/// Bytes of a compressed G2 point of BLS12-381.
pub const G2_COMPRESSED_LEN: usize = 96;

/// Bytes of one encoded public input.
pub const FIELD_ELEMENT_LEN: usize = 32;

/// Event recording a verification attempt and its outcome.
#[derive(Clone, Copy, Debug, PartialEq, Eq)]
pub struct Verification {
    pub account: AccountId,
    pub success: bool,
}

/// Why a proof could not be checked at all (as opposed to being rejected).
#[derive(Clone, Copy, Debug, PartialEq, Eq, Structural)]
pub enum ProofError {
    /// A proof part does not have the size of its curve point.
    MalformedProof,
    /// The public inputs are not a sequence of canonical field elements.
    MalformedInputs,
    /// The key, the points or the number of inputs were refused by the
    /// Groth16 verifier.
    Uncheckable,
}

/// Failure of an administrative call.
#[derive(Clone, Copy, Debug, PartialEq, Eq, Structural)]
pub enum AdminError {
    /// The caller is not the administrator.
    NotAdmin,
}

/// What bellman's Groth16 verification makes of a serialized verifying key,
/// a serialized proof and the encoded public inputs: `None` where it refuses
/// them, else whether the pairing check holds.
pub uninterp spec fn groth16_verdict(vk: Seq<u8>, proof: Seq<u8>, inputs: Seq<Seq<u8>>) -> Option<bool>;

/// The encodings of a sequence of field elements.
pub open spec fn encodings(inputs: Seq<FieldElement>) -> Seq<Seq<u8>> {
    inputs.map_values(|f: FieldElement| f.encoding())
}

/// The `i`th 32-byte chunk of `b`.
pub open spec fn chunk(b: Seq<u8>, i: int) -> Seq<u8> {
    b.subrange(FIELD_ELEMENT_LEN * i, FIELD_ELEMENT_LEN * i + FIELD_ELEMENT_LEN)
}

/// `b` is a sequence of canonical 32-byte field element encodings.
pub open spec fn well_formed_inputs(b: Seq<u8>) -> bool {
    &&& b.len() % (FIELD_ELEMENT_LEN as nat) == 0
    &&& forall|i: int| 0 <= i < b.len() as int / FIELD_ELEMENT_LEN as int
        ==> #[trigger] le_value(chunk(b, i)) < modulus()
}

/// The chunks of `b`, one per public input.
pub open spec fn input_chunks(b: Seq<u8>) -> Seq<Seq<u8>> {
    Seq::new((b.len() as int / FIELD_ELEMENT_LEN as int) as nat, |i: int| chunk(b, i))
}

/// The proof parts have the sizes of the points `a` (G1), `b` (G2) and `c` (G1).
pub open spec fn well_sized_proof(a: Seq<u8>, b: Seq<u8>, c: Seq<u8>) -> bool {
    a.len() == G1_COMPRESSED_LEN && b.len() == G2_COMPRESSED_LEN && c.len() == G1_COMPRESSED_LEN
}

/// The proof `a ‖ b ‖ c` is accepted for these public inputs under `vk`.
pub open spec fn proof_accepted(vk: Seq<u8>, a: Seq<u8>, b: Seq<u8>, c: Seq<u8>, inputs: Seq<u8>) -> bool {
    &&& well_sized_proof(a, b, c)
    &&& well_formed_inputs(inputs)
    &&& groth16_verdict(vk, a + b + c, input_chunks(inputs)) == Some(true)
}

/// Relies on bellman 0.14's `groth16::VerifyingKey::read`, `groth16::Proof::read`,
/// `groth16::prepare_verifying_key` and `groth16::verify_proof` over BLS12-381:
/// a deterministic check of the bytes given.
#[verifier::external_body]
fn groth16_verify(vk: &Vec<u8>, proof: &Vec<u8>, inputs: &Vec<FieldElement>) -> (r: Result<bool, ProofError>)
    requires
        forall|i: int| 0 <= i < inputs@.len() ==> (#[trigger] inputs@[i]).wf(),
    ensures
        r is Ok <==> groth16_verdict(vk@, proof@, encodings(inputs@)) is Some,
        r matches Ok(ok) ==> groth16_verdict(vk@, proof@, encodings(inputs@)) == Some(ok),
{
    let key = VerifyingKey::<Bls12>::read(&vk[..]);
    let proof = Proof::<Bls12>::read(&proof[..]);
    let (key, proof) = match (key, proof) {
        (Ok(key), Ok(proof)) => (key, proof),
        _ => return Err(ProofError::Uncheckable),
    };
    let scalars: Vec<Scalar> = inputs.iter().map(|f| Scalar::from_bytes(&f.to_bytes()).unwrap()).collect();
    match groth16::verify_proof(&groth16::prepare_verifying_key(&key), &proof, &scalars) {
        Ok(()) => Ok(true),
        Err(VerificationError::InvalidProof) => Ok(false),
        Err(VerificationError::InvalidVerifyingKey) => Err(ProofError::Uncheckable),
    }
}

/// Splits the encoded public inputs into field elements, 32 little-endian
/// bytes each.
pub fn parse_public_inputs(bytes: &Vec<u8>) -> (r: Result<Vec<FieldElement>, ProofError>)
    ensures
        r is Ok <==> well_formed_inputs(bytes@),
        r matches Err(e) ==> e == ProofError::MalformedInputs,
        r matches Ok(v) ==> encodings(v@) == input_chunks(bytes@)
            && forall|i: int| 0 <= i < v@.len() ==> (#[trigger] v@[i]).wf(),
{
    let len = bytes.len();
    if len % FIELD_ELEMENT_LEN != 0 {
        return Err(ProofError::MalformedInputs);
    }
    let mut out: Vec<FieldElement> = Vec::new();
    let mut pos: usize = 0;
    while pos < len
        invariant
            len == bytes@.len(),
            len % 32 == 0,
            pos == 32 * out@.len(),
            pos <= len,
            forall|k: int| 0 <= k < out@.len() ==> (#[trigger] out@[k]).wf()
                && out@[k].encoding() == chunk(bytes@, k),
            forall|k: int| 0 <= k < out@.len() ==> #[trigger] le_value(chunk(bytes@, k)) < modulus(),
        decreases len - pos,
    {
        assert(pos + 32 <= len) by (nonlinear_arith)
            requires
                pos < len,
                pos % 32 == 0,
                len % 32 == 0,
                pos == 32 * out@.len(),
        ;
        let mut arr: [u8; 32] = [0u8; 32];
        let mut j: usize = 0;
        while j < 32
            invariant
                pos + 32 <= len,
                len == bytes@.len(),
                0 <= j <= 32,
                forall|t: int| 0 <= t < j ==> arr@[t] == bytes@[pos + t],
            decreases 32 - j,
        {
            arr[j] = bytes[pos + j];
            j = j + 1;
        }
        let k = out.len();
        assert(arr@ =~= chunk(bytes@, k as int));
        match FieldElement::from_bytes(arr) {
            None => {
                assert(k < len as int / 32) by (nonlinear_arith)
                    requires
                        pos + 32 <= len,
                        pos == 32 * k,
                ;
                assert(!(le_value(chunk(bytes@, k as int)) < modulus()));
                return Err(ProofError::MalformedInputs);
            },
            Some(f) => {
                out.push(f);
                pos = pos + FIELD_ELEMENT_LEN;
            },
        }
    }
    assert(out@.len() == len as int / 32) by (nonlinear_arith)
        requires
            pos == len,
            pos == 32 * out@.len(),
    ;
    assert(encodings(out@) =~= input_chunks(bytes@));
    Ok(out)
}

/// `a ‖ b ‖ c`.
fn concat3(a: &Vec<u8>, b: &Vec<u8>, c: &Vec<u8>) -> (r: Vec<u8>)
    requires
        a@.len() + b@.len() + c@.len() <= usize::MAX,
    ensures
        r@ == a@ + b@ + c@,
{
    let mut out: Vec<u8> = Vec::new();
    let mut i: usize = 0;
    while i < a.len()
        invariant
            0 <= i <= a@.len(),
            out@ == a@.subrange(0, i as int),
        decreases a@.len() - i,
    {
        out.push(a[i]);
        i = i + 1;
        assert(out@ =~= a@.subrange(0, i as int));
    }
    assert(a@.subrange(0, a@.len() as int) =~= a@);
    let mut i: usize = 0;
    while i < b.len()
        invariant
            0 <= i <= b@.len(),
            out@ == a@ + b@.subrange(0, i as int),
        decreases b@.len() - i,
    {
        out.push(b[i]);
        i = i + 1;
        assert(out@ =~= a@ + b@.subrange(0, i as int));
    }
    assert(b@.subrange(0, b@.len() as int) =~= b@);
    let mut i: usize = 0;
    while i < c.len()
        invariant
            0 <= i <= c@.len(),
            out@ == a@ + b@ + c@.subrange(0, i as int),
        decreases c@.len() - i,
    {
        out.push(c[i]);
        i = i + 1;
        assert(out@ =~= a@ + b@ + c@.subrange(0, i as int));
    }
    assert(c@.subrange(0, c@.len() as int) =~= c@);
    out
}

/// Checks the proof `(a, b, c)` against a serialized verifying key and the
/// encoded public inputs, telling a rejected proof (`Ok(false)`) from one that
/// cannot be checked (`Err`).
pub fn check_proof(
    verification_key: &Vec<u8>,
    proof_a: &Vec<u8>,
    proof_b: &Vec<u8>,
    proof_c: &Vec<u8>,
    public_inputs: &Vec<u8>,
) -> (r: Result<bool, ProofError>)
    ensures
        !well_sized_proof(proof_a@, proof_b@, proof_c@) ==> r == Err::<bool, ProofError>(
            ProofError::MalformedProof,
        ),
        well_sized_proof(proof_a@, proof_b@, proof_c@) && !well_formed_inputs(public_inputs@) ==> r
            == Err::<bool, ProofError>(ProofError::MalformedInputs),
        well_sized_proof(proof_a@, proof_b@, proof_c@) && well_formed_inputs(public_inputs@) ==> {
            let verdict = groth16_verdict(
                verification_key@,
                proof_a@ + proof_b@ + proof_c@,
                input_chunks(public_inputs@),
            );
            &&& r is Ok <==> verdict is Some
            &&& r matches Ok(ok) ==> verdict == Some(ok)
        },
        r == Ok::<bool, ProofError>(true) <==> proof_accepted(
            verification_key@,
            proof_a@,
            proof_b@,
            proof_c@,
            public_inputs@,
        ),
{
    if proof_a.len() != G1_COMPRESSED_LEN || proof_b.len() != G2_COMPRESSED_LEN || proof_c.len()
        != G1_COMPRESSED_LEN {
        return Err(ProofError::MalformedProof);
    }
    let inputs = match parse_public_inputs(public_inputs) {
        Ok(v) => v,
        Err(e) => return Err(e),
    };
    let proof = concat3(proof_a, proof_b, proof_c);
    groth16_verify(verification_key, &proof, &inputs)
}


/// Holds of every account but `who`.
pub open spec fn other_than(who: AccountId) -> spec_fn(AccountId) -> bool {
    |x: AccountId| x != who
}

/// The verifier: a serialized Groth16 verifying key, the administrator who
/// manages the authorized callers, and a log of verification events.
pub struct ZkVerifier {
    account_id: AccountId,
    admin: AccountId,
    verification_key: Vec<u8>,
    authorized_minters: Vec<AccountId>,
    last_verification: bool,
    events: Vec<Verification>,
}

impl ZkVerifier {
    /// The verifier's own address.
    pub closed spec fn account(&self) -> AccountId {
        self.account_id
    }

    /// The account allowed to change the authorized set.
    pub closed spec fn administrator(&self) -> AccountId {
        self.admin
    }

    /// The serialized verifying key.
    pub closed spec fn key(&self) -> Seq<u8> {
        self.verification_key@
    }

    /// The authorized callers, in the order they were added.
    pub closed spec fn minters(&self) -> Seq<AccountId> {
        self.authorized_minters@
    }

    /// The outcome of the latest verification attempt.
    pub closed spec fn last_result(&self) -> bool {
        self.last_verification
    }

    /// The verification events, oldest first.
    pub closed spec fn event_log(&self) -> Seq<Verification> {
        self.events@
    }

    /// No caller is listed twice.
    pub open spec fn wf(&self) -> bool {
        self.minters().no_duplicates()
    }

    /// The result `verify_proof` gives `caller` for this proof.
    pub open spec fn verify_outcome(
        &self,
        caller: AccountId,
        a: Seq<u8>,
        b: Seq<u8>,
        c: Seq<u8>,
        inputs: Seq<u8>,
    ) -> bool {
        self.minters().contains(caller) && proof_accepted(self.key(), a, b, c, inputs)
    }

    /// `after` is `self` once a verification by `caller` with outcome
    /// `success` has been recorded.
    pub open spec fn records(&self, after: &ZkVerifier, caller: AccountId, success: bool) -> bool {
        &&& after.account() == self.account()
        &&& after.administrator() == self.administrator()
        &&& after.key() == self.key()
        &&& after.minters() == self.minters()
        &&& after.last_result() == success
        &&& after.event_log() == self.event_log().push(Verification { account: caller, success })
    }

    /// Both hold the same state.
    pub open spec fn same_state(&self, other: &ZkVerifier) -> bool {
        &&& other.account() == self.account()
        &&& other.administrator() == self.administrator()
        &&& other.key() == self.key()
        &&& other.minters() == self.minters()
        &&& other.last_result() == self.last_result()
        &&& other.event_log() == self.event_log()
    }

    /// A verifier at `account_id`, administered by `admin`, holding the
    /// serialized verifying key; nobody is authorized yet.
    pub fn new(account_id: AccountId, admin: AccountId, verification_key: Vec<u8>) -> (r: Self)
        ensures
            r.wf(),
            r.account() == account_id,
            r.administrator() == admin,
            r.key() == verification_key@,
            r.minters() == Seq::<AccountId>::empty(),
            !r.last_result(),
            r.event_log() == Seq::<Verification>::empty(),
    {
        ZkVerifier {
            account_id,
            admin,
            verification_key,
            authorized_minters: Vec::new(),
            last_verification: false,
            events: Vec::new(),
        }
    }

    /// Authorizes `minter`; only the administrator may do so.
    pub fn add_authorized_minter(&mut self, caller: AccountId, minter: AccountId) -> (r: Result<(), AdminError>)
        requires
            old(self).wf(),
        ensures
            final(self).wf(),
            caller != old(self).administrator() ==> r == Err::<(), AdminError>(AdminError::NotAdmin)
                && old(self).same_state(final(self)),
            caller == old(self).administrator() ==> r is Ok && final(self).minters() == (if old(
                self,
            ).minters().contains(minter) {
                old(self).minters()
            } else {
                old(self).minters().push(minter)
            }),
            caller == old(self).administrator() ==> final(self).account() == old(self).account()
                && final(self).administrator() == old(self).administrator()
                && final(self).key() == old(self).key()
                && final(self).last_result() == old(self).last_result()
                && final(self).event_log() == old(self).event_log(),
    {
        if caller != self.admin {
            return Err(AdminError::NotAdmin);
        }
        assert(caller.0 =~= self.admin.0);
        if !contains_account(&self.authorized_minters, minter) {
            self.authorized_minters.push(minter);
            proof {
                assert forall|i: int, j: int|
                    0 <= i < j < self.authorized_minters@.len() implies self.authorized_minters@[i]
                    != self.authorized_minters@[j] by {
                    if j == self.authorized_minters@.len() - 1 {
                        assert(old(self).authorized_minters@.contains(self.authorized_minters@[i]));
                    }
                }
            }
        }
        Ok(())
    }

    /// Withdraws the authorization of `minter`; only the administrator may do so.
    pub fn remove_authorized_minter(&mut self, caller: AccountId, minter: AccountId) -> (r: Result<(), AdminError>)
        requires
            old(self).wf(),
        ensures
            final(self).wf(),
            caller != old(self).administrator() ==> r == Err::<(), AdminError>(AdminError::NotAdmin)
                && old(self).same_state(final(self)),
            caller == old(self).administrator() ==> r is Ok && final(self).minters() == old(
                self,
            ).minters().filter(other_than(minter)),
            caller == old(self).administrator() ==> final(self).account() == old(self).account()
                && final(self).administrator() == old(self).administrator()
                && final(self).key() == old(self).key()
                && final(self).last_result() == old(self).last_result()
                && final(self).event_log() == old(self).event_log(),
    {
        if caller != self.admin {
            return Err(AdminError::NotAdmin);
        }
        assert(caller.0 =~= self.admin.0);
        let mut kept: Vec<AccountId> = Vec::new();
        let mut i: usize = 0;
        while i < self.authorized_minters.len()
            invariant
                0 <= i <= self.authorized_minters@.len(),
                kept@ == self.authorized_minters@.subrange(0, i as int).filter(other_than(minter)),
            decreases self.authorized_minters@.len() - i,
        {
            let m = self.authorized_minters[i];
            let ghost s = self.authorized_minters@.subrange(0, i as int + 1);
            proof {
                assert(s.drop_last() =~= self.authorized_minters@.subrange(0, i as int));
                assert(s.last() == m);
                assert(other_than(minter)(m) == (m != minter));
            }
            if m != minter {
                kept.push(m);
                assert(kept@ == s.filter(other_than(minter))) by {
                    reveal(Seq::filter);
                }
            } else {
                assert(m.0 =~= minter.0);
                assert(kept@ == s.filter(other_than(minter))) by {
                    reveal(Seq::filter);
                }
            }
            i = i + 1;
        }
        proof {
            assert(self.authorized_minters@.subrange(0, i as int) =~= self.authorized_minters@);
            let s = self.authorized_minters@;
            assert forall|a: int, b: int| 0 <= a < b < kept@.len() implies kept@[a] != kept@[b] by {
                lemma_filter_no_duplicates(s, other_than(minter));
            }
        }
        self.authorized_minters = kept;
        Ok(())
    }

    /// Whether `minter` may request verification.
    pub fn is_authorized_minter(&self, minter: AccountId) -> (r: bool)
        ensures
            r == self.minters().contains(minter),
    {
        contains_account(&self.authorized_minters, minter)
    }

    /// The verifier's own address.
    pub fn account_id(&self) -> (r: AccountId)
        ensures
            r == self.account(),
    {
        self.account_id
    }

    /// The outcome of the latest verification attempt.
    pub fn get_last_result(&self) -> (r: bool)
        ensures
            r == self.last_result(),
    {
        self.last_verification
    }

    /// The serialized verifying key.
    pub fn get_verification_key(&self) -> (r: Vec<u8>)
        ensures
            r@ == self.key(),
    {
        let mut out: Vec<u8> = Vec::new();
        let mut i: usize = 0;
        while i < self.verification_key.len()
            invariant
                0 <= i <= self.verification_key@.len(),
                out@ == self.verification_key@.subrange(0, i as int),
            decreases self.verification_key@.len() - i,
        {
            out.push(self.verification_key[i]);
            i = i + 1;
            assert(out@ =~= self.verification_key@.subrange(0, i as int));
        }
        assert(self.verification_key@.subrange(0, i as int) =~= self.verification_key@);
        out
    }

    /// The verification events, oldest first.
    pub fn events(&self) -> (r: &Vec<Verification>)
        ensures
            r@ == self.event_log(),
    {
        &self.events
    }

    /// Verifies a proof for `caller`. An unauthorized caller gets `false`
    /// and the proof is not looked at; otherwise the result is whether the
    /// proof checks against the verifying key. Either way the attempt is
    /// logged with its outcome.
    pub fn verify_proof(
        &mut self,
        caller: AccountId,
        proof_a: Vec<u8>,
        proof_b: Vec<u8>,
        proof_c: Vec<u8>,
        public_inputs: Vec<u8>,
    ) -> (r: bool)
        requires
            old(self).wf(),
        ensures
            final(self).wf(),
            r == old(self).verify_outcome(caller, proof_a@, proof_b@, proof_c@, public_inputs@),
            !old(self).minters().contains(caller) ==> !r,
            old(self).records(final(self), caller, r),
    {
        let success = if !contains_account(&self.authorized_minters, caller) {
            false
        } else {
            match check_proof(&self.verification_key, &proof_a, &proof_b, &proof_c, &public_inputs) {
                Ok(ok) => ok,
                Err(_) => false,
            }
        };
        self.last_verification = success;
        self.events.push(Verification { account: caller, success });
        success
    }
}

/// Filtering keeps a sequence free of duplicates.
proof fn lemma_filter_no_duplicates(s: Seq<AccountId>, pred: spec_fn(AccountId) -> bool)
    requires
        s.no_duplicates(),
    ensures
        s.filter(pred).no_duplicates(),
    decreases s.len(),
{
    reveal(Seq::filter);
    if s.len() > 0 {
        let rest = s.drop_last();
        let last = s.last();
        assert(rest.no_duplicates());
        lemma_filter_no_duplicates(rest, pred);
        let sub = rest.filter(pred);
        if pred(last) {
            if sub.contains(last) {
                rest.lemma_filter_contains_rev(pred, last);
                let k = choose|k: int| 0 <= k < rest.len() && rest[k] == last;
                assert(s[k] == s[s.len() - 1]);
            }
            let full = sub.push(last);
            assert forall|a: int, b: int| 0 <= a < b < full.len() implies full[a] != full[b] by {
                if b == sub.len() {
                    assert(sub.contains(full[a]));
                }
            }
        }
    }
}

} // verus!
