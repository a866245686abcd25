use age_attest::account::AccountId;
use age_attest::age_token::{AgeToken, Error};
use age_attest::circuit::{AgeVerificationCircuit, RangeCheckedAgeCircuit, DIFFERENCE_BITS};
use age_attest::field::FieldElement;
use age_attest::zk_verifier::{check_proof, ZkVerifier};
use bellman::groth16;
use bellman::{Circuit, ConstraintSystem, SynthesisError};
use bls12_381::{Bls12, Scalar};

struct BellmanCircuit {
    inner: AgeVerificationCircuit,
    // Overrides the auxiliary value, to build a witness by hand.
    forced_square: Option<FieldElement>,
}

fn scalar(f: &FieldElement) -> Scalar {
    Scalar::from_bytes(&f.to_bytes()).unwrap()
}

impl Circuit<Scalar> for BellmanCircuit {
    fn synthesize<CS: ConstraintSystem<Scalar>>(self, cs: &mut CS) -> Result<(), SynthesisError> {
        let age = self.inner.age;
        let age_var = cs.alloc(|| "age", || age.as_ref().map(scalar).ok_or(SynthesisError::AssignmentMissing))?;
        let min_age = self.inner.min_age;
        let min_var = cs.alloc_input(|| "minimum age", || Ok(scalar(&min_age)))?;
        let inner = self.inner;
        let forced = self.forced_square;
        let d2 = cs.alloc(
            || "difference squared",
            || match forced {
                Some(f) => Ok(scalar(&f)),
                None => inner.difference_squared().map(|d| scalar(&d)).map_err(|_| SynthesisError::AssignmentMissing),
            },
        )?;
        cs.enforce(
            || "difference squared constraint",
            |lc| lc + age_var - min_var,
            |lc| lc + age_var - min_var,
            |lc| lc + d2,
        );
        Ok(())
    }
}

fn setup(min_age: u64) -> groth16::Parameters<Bls12> {
    let circuit = BellmanCircuit {
        inner: AgeVerificationCircuit::without_witness(FieldElement::from_u64(min_age)),
        forced_square: None,
    };
    groth16::generate_random_parameters::<Bls12, _, _>(circuit, &mut rand::rngs::OsRng).unwrap()
}

fn vk_bytes(params: &groth16::Parameters<Bls12>) -> Vec<u8> {
    let mut out = Vec::new();
    params.vk.write(&mut out).unwrap();
    out
}

fn prove(params: &groth16::Parameters<Bls12>, age: u64, min_age: u64, forced: Option<FieldElement>) -> (Vec<u8>, Vec<u8>, Vec<u8>) {
    let circuit = BellmanCircuit {
        inner: AgeVerificationCircuit::with_witness(FieldElement::from_u64(age), FieldElement::from_u64(min_age)),
        forced_square: forced,
    };
    let proof = groth16::create_random_proof(circuit, params, &mut rand::rngs::OsRng).unwrap();
    let mut bytes = Vec::new();
    proof.write(&mut bytes).unwrap();
    assert_eq!(bytes.len(), 192);
    (bytes[0..48].to_vec(), bytes[48..144].to_vec(), bytes[144..192].to_vec())
}

fn input(n: u64) -> Vec<u8> {
    FieldElement::from_u64(n).to_bytes().to_vec()
}

fn acct(n: u8) -> AccountId {
    AccountId([n; 32])
}

#[test]
fn proof_for_25_over_18_verifies_and_fails_for_30() {
    let params = setup(18);
    let vk = vk_bytes(&params);
    let (a, b, c) = prove(&params, 25, 18, None);
    assert_eq!(check_proof(&vk, &a, &b, &c, &input(18)), Ok(true));
    assert_eq!(check_proof(&vk, &a, &b, &c, &input(30)), Ok(false));
}

#[test]
fn honest_proofs_verify_for_several_ages() {
    let params = setup(18);
    let vk = vk_bytes(&params);
    for age in [18u64, 19, 42, 120] {
        let (a, b, c) = prove(&params, age, 18, None);
        assert_eq!(check_proof(&vk, &a, &b, &c, &input(18)), Ok(true));
    }
}

#[test]
fn proof_under_other_setup_is_rejected() {
    let first = setup(18);
    let second = setup(18);
    let (a, b, c) = prove(&first, 25, 18, None);
    let result = check_proof(&vk_bytes(&second), &a, &b, &c, &input(18));
    assert_ne!(result, Ok(true));
    assert_eq!(check_proof(&vk_bytes(&first), &a, &b, &c, &input(18)), Ok(true));
}

#[test]
fn minimal_circuit_accepts_age_below_threshold() {
    // age = 18 - 3 with the auxiliary value 3²: squaring hides the sign.
    let params = setup(18);
    let vk = vk_bytes(&params);
    let (a, b, c) = prove(&params, 15, 18, Some(FieldElement::from_u64(9)));
    assert_eq!(check_proof(&vk, &a, &b, &c, &input(18)), Ok(true));
}

#[test]
fn test_verify_proof() {
    let params = setup(18);
    let (a, b, c) = prove(&params, 25, 18, None);
    let admin = acct(1);
    let minter = acct(2);
    let mut verifier = ZkVerifier::new(acct(9), admin, vk_bytes(&params));
    assert_eq!(verifier.add_authorized_minter(admin, minter), Ok(()));
    assert!(verifier.verify_proof(minter, a, b, c, input(18)));
    assert!(verifier.get_last_result());
}

#[test]
fn unauthorized_caller_gets_false_for_valid_proof() {
    let params = setup(18);
    let (a, b, c) = prove(&params, 25, 18, None);
    let mut verifier = ZkVerifier::new(acct(9), acct(1), vk_bytes(&params));
    assert!(!verifier.verify_proof(acct(3), a, b, c, input(18)));
    assert_eq!(verifier.events().len(), 1);
    assert!(!verifier.events()[0].success);
    assert_eq!(verifier.events()[0].account, acct(3));
}

#[test]
fn mint_works() {
    let params = setup(18);
    let (a, b, c) = prove(&params, 25, 18, None);
    let alice = acct(5);
    let token_address = acct(7);
    let mut verifier = ZkVerifier::new(acct(9), acct(1), vk_bytes(&params));
    verifier.add_authorized_minter(acct(1), token_address).unwrap();
    let mut contract = AgeToken::new(token_address, acct(9));
    assert!(contract.mint_verified(alice, &mut verifier, a, b, c, input(18)).is_ok());
    assert!(contract.has_valid_token(alice));
    assert_eq!(contract.owner_of(0), Some(alice));
}

#[test]
fn second_mint_by_same_caller_fails() {
    let params = setup(18);
    let (a, b, c) = prove(&params, 25, 18, None);
    let alice = acct(5);
    let token_address = acct(7);
    let mut verifier = ZkVerifier::new(acct(9), acct(1), vk_bytes(&params));
    verifier.add_authorized_minter(acct(1), token_address).unwrap();
    let mut contract = AgeToken::new(token_address, acct(9));
    assert_eq!(contract.mint_verified(alice, &mut verifier, a.clone(), b.clone(), c.clone(), input(18)), Ok(()));
    assert_eq!(contract.mint_verified(alice, &mut verifier, a, b, c, input(18)), Err(Error::TokenExists));
    let owned = (0..contract.next_id()).filter(|i| contract.owner_of(*i) == Some(alice)).count();
    assert_eq!(owned, 1);
    assert_eq!(contract.next_id(), 1);
    assert_eq!(verifier.events().len(), 1);
}

#[test]
fn mint_ids_increase_from_zero() {
    let params = setup(18);
    let token_address = acct(7);
    let mut verifier = ZkVerifier::new(acct(9), acct(1), vk_bytes(&params));
    verifier.add_authorized_minter(acct(1), token_address).unwrap();
    let mut contract = AgeToken::new(token_address, acct(9));
    let (a, b, c) = prove(&params, 30, 18, None);
    for n in 0..3u8 {
        let who = acct(20 + n);
        assert_eq!(contract.mint_verified(who, &mut verifier, a.clone(), b.clone(), c.clone(), input(18)), Ok(()));
    }
    let ids: Vec<u32> = contract.transfers_log().iter().map(|t| t.id).collect();
    assert_eq!(ids, vec![0, 1, 2]);
    for (n, t) in contract.transfers_log().iter().enumerate() {
        assert_eq!(t.from, None);
        assert_eq!(t.to, Some(acct(20 + n as u8)));
    }
    assert_eq!(contract.next_id(), 3);
}

#[test]
fn mint_with_rejected_proof_changes_nothing() {
    let params = setup(18);
    let (a, b, c) = prove(&params, 25, 18, None);
    let token_address = acct(7);
    let mut verifier = ZkVerifier::new(acct(9), acct(1), vk_bytes(&params));
    verifier.add_authorized_minter(acct(1), token_address).unwrap();
    let mut contract = AgeToken::new(token_address, acct(9));
    assert_eq!(contract.mint_verified(acct(5), &mut verifier, a, b, c, input(30)), Err(Error::NotAllowed));
    assert!(!contract.has_valid_token(acct(5)));
    assert_eq!(contract.next_id(), 0);
    assert!(contract.transfers_log().is_empty());
    assert_eq!(verifier.events().len(), 1);
}

#[test]
fn mint_by_unauthorized_ledger_is_not_allowed() {
    let params = setup(18);
    let (a, b, c) = prove(&params, 25, 18, None);
    let mut verifier = ZkVerifier::new(acct(9), acct(1), vk_bytes(&params));
    let mut contract = AgeToken::new(acct(7), acct(9));
    assert_eq!(contract.mint_verified(acct(5), &mut verifier, a, b, c, input(18)), Err(Error::NotAllowed));
    assert!(!contract.has_valid_token(acct(5)));
}

struct BellmanRangeCircuit {
    inner: RangeCheckedAgeCircuit,
    // Bits to assign in place of the library's decomposition.
    forced_bits: Option<Vec<u64>>,
}

impl Circuit<Scalar> for BellmanRangeCircuit {
    fn synthesize<CS: ConstraintSystem<Scalar>>(self, cs: &mut CS) -> Result<(), SynthesisError> {
        let age = self.inner.age;
        let age_var = cs.alloc(|| "age", || age.as_ref().map(scalar).ok_or(SynthesisError::AssignmentMissing))?;
        let min_age = self.inner.min_age;
        let min_var = cs.alloc_input(|| "minimum age", || Ok(scalar(&min_age)))?;
        let bits: Option<Vec<Scalar>> = match (&self.forced_bits, self.inner.age) {
            (Some(f), _) => Some(f.iter().map(|b| Scalar::from(*b)).collect()),
            (None, Some(_)) => Some(self.inner.synthesize().unwrap().bits.iter().map(scalar).collect()),
            (None, None) => None,
        };
        let mut sum = bellman::LinearCombination::<Scalar>::zero();
        let mut weight = Scalar::one();
        for i in 0..DIFFERENCE_BITS {
            let value = bits.as_ref().map(|v| v[i]);
            let b = cs.alloc(|| format!("bit {}", i), || value.ok_or(SynthesisError::AssignmentMissing))?;
            cs.enforce(|| format!("bit {} is boolean", i), |lc| lc + b, |lc| lc + b, |lc| lc + b);
            sum = sum + (weight, b);
            weight = weight.double();
        }
        cs.enforce(|| "bits sum to the difference", |_| sum, |lc| lc + CS::one(), |lc| lc + age_var - min_var);
        Ok(())
    }
}

fn range_setup() -> groth16::Parameters<Bls12> {
    let circuit = BellmanRangeCircuit {
        inner: RangeCheckedAgeCircuit::without_witness(FieldElement::from_u64(18)),
        forced_bits: None,
    };
    groth16::generate_random_parameters::<Bls12, _, _>(circuit, &mut rand::rngs::OsRng).unwrap()
}

fn range_prove(params: &groth16::Parameters<Bls12>, age: u64, forced: Option<Vec<u64>>) -> (Vec<u8>, Vec<u8>, Vec<u8>) {
    let circuit = BellmanRangeCircuit {
        inner: RangeCheckedAgeCircuit::with_witness(FieldElement::from_u64(age), FieldElement::from_u64(18)),
        forced_bits: forced,
    };
    let proof = groth16::create_random_proof(circuit, params, &mut rand::rngs::OsRng).unwrap();
    let mut bytes = Vec::new();
    proof.write(&mut bytes).unwrap();
    (bytes[0..48].to_vec(), bytes[48..144].to_vec(), bytes[144..192].to_vec())
}

#[test]
fn range_checked_proof_for_25_over_18_verifies() {
    let params = range_setup();
    let vk = vk_bytes(&params);
    let (a, b, c) = range_prove(&params, 25, None);
    assert_eq!(check_proof(&vk, &a, &b, &c, &input(18)), Ok(true));
    assert_eq!(check_proof(&vk, &a, &b, &c, &input(30)), Ok(false));
}

#[test]
fn range_checked_circuit_rejects_age_below_threshold() {
    // age = 18 - 3: no bits reconstruct the difference, so any proof fails.
    let params = range_setup();
    let vk = vk_bytes(&params);
    let (a, b, c) = range_prove(&params, 15, Some(vec![1, 1, 0, 0, 0, 0, 0, 0]));
    assert_eq!(check_proof(&vk, &a, &b, &c, &input(18)), Ok(false));
}
