//! The age-threshold relation as a rank-one constraint system.
//!
//! Variables: a private `age`, a public `min_age` and a private auxiliary
//! `difference_squared`. One constraint:
//! `(age - min_age) * (age - min_age) = difference_squared`.
//! Squaring loses the sign of the difference, so this relation alone does not
//! show `age >= min_age`; see `lemma_square_hides_sign`.
//!
//! `RangeCheckedAgeCircuit` is the sound relation: it decomposes
//! `age - min_age` into `DIFFERENCE_BITS` bits, each constrained by
//! `b · b = b`, whose weighted sum must equal the difference.
use vstd::prelude::*;
use crate::field::{modulus, FieldElement};
use vstd::arithmetic::power2::{lemma_pow2_unfold, pow2};

verus! {

/// Why the constraint system could not be instantiated.
#[derive(Clone, Copy, Debug, PartialEq, Eq, Structural)]
pub enum SynthesisError {
    /// A private variable was asked for its value but has none (the
    /// circuit was built for setup, without a witness).
    AssignmentMissing,
    /// The witness does not satisfy the relation: `age - min_age` is not
    /// in `0 .. 2^DIFFERENCE_BITS`.
    Unsatisfiable,
}

/// Bits in the decomposition of `age - min_age`.
pub const DIFFERENCE_BITS: usize = 8;

/// `(a - m)²` in the field.
pub open spec fn square_of_difference(a: int, m: int) -> int {
    ((a - m) * (a - m)) % modulus()
}

/// The single constraint `(age - min_age) · (age - min_age) = d2` holds.
pub open spec fn constraint_holds(age: int, min_age: int, d2: int) -> bool {
    square_of_difference(age, min_age) == d2
}

/// The circuit: a public threshold and, when proving, the private age.
#[derive(Clone, Copy, Debug)]
pub struct AgeVerificationCircuit {
    pub age: Option<FieldElement>,
    pub min_age: FieldElement,
}

/// Values of the three variables of the circuit.
#[derive(Clone, Copy, Debug)]
pub struct Assignment {
    pub age: FieldElement,
    pub min_age: FieldElement,
    pub difference_squared: FieldElement,
}

impl Assignment {
    pub open spec fn wf(&self) -> bool {
        self.age.wf() && self.min_age.wf() && self.difference_squared.wf()
    }

    /// The assignment satisfies the circuit's constraint.
    pub open spec fn satisfies(&self) -> bool {
        constraint_holds(self.age.value(), self.min_age.value(), self.difference_squared.value())
    }

    /// Checks the constraint on these values.
    pub fn is_satisfied(&self) -> (r: bool)
        requires
            self.wf(),
        ensures
            r == self.satisfies(),
    {
        let d = self.age.sub(&self.min_age);
        let sq = d.mul(&d);
        proof {
            lemma_square_reduced(self.age.value(), self.min_age.value());
        }
        sq.equals(&self.difference_squared)
    }
}

/// Reducing the difference before squaring gives the same residue.
proof fn lemma_square_reduced(a: int, m: int)
    ensures
        (((a - m) % modulus()) * ((a - m) % modulus())) % modulus() == square_of_difference(a, m),
{
    vstd::arithmetic::div_mod::lemma_mul_mod_noop(a - m, a - m, modulus());
}

impl AgeVerificationCircuit {
    pub open spec fn wf(&self) -> bool {
        &&& self.min_age.wf()
        &&& self.age matches Some(a) ==> a.wf()
    }

    /// A circuit for setup: the threshold alone, no witness.
    pub fn without_witness(min_age: FieldElement) -> (r: Self)
        ensures
            r.age is None,
            r.min_age == min_age,
    {
        AgeVerificationCircuit { age: None, min_age }
    }

    /// A circuit for proving: the threshold and the private age.
    pub fn with_witness(age: FieldElement, min_age: FieldElement) -> (r: Self)
        ensures
            r.age == Some(age),
            r.min_age == min_age,
    {
        AgeVerificationCircuit { age: Some(age), min_age }
    }

    /// The value of the auxiliary variable, `(age - min_age)²`.
    pub fn difference_squared(&self) -> (r: Result<FieldElement, SynthesisError>)
        requires
            self.wf(),
        ensures
            match r {
                Ok(d) => self.age matches Some(a) && d.wf()
                    && d.value() == square_of_difference(a.value(), self.min_age.value()),
                Err(e) => self.age is None && e == SynthesisError::AssignmentMissing,
            },
    {
        match &self.age {
            None => Err(SynthesisError::AssignmentMissing),
            Some(age) => {
                let d = age.sub(&self.min_age);
                proof {
                    lemma_square_reduced(age.value(), self.min_age.value());
                }
                Ok(d.mul(&d))
            },
        }
    }

    /// Instantiates every variable; fails without a witness.
    pub fn synthesize(&self) -> (r: Result<Assignment, SynthesisError>)
        requires
            self.wf(),
        ensures
            match r {
                Ok(asg) => self.age == Some(asg.age) && asg.min_age == self.min_age
                    && asg.wf() && asg.satisfies(),
                Err(e) => self.age is None && e == SynthesisError::AssignmentMissing,
            },
    {
        let d2 = self.difference_squared();
        match d2 {
            Err(e) => Err(e),
            Ok(difference_squared) => {
                let age = self.age.unwrap();
                Ok(Assignment { age, min_age: self.min_age, difference_squared })
            },
        }
    }

    /// The public inputs a verifier is given: the threshold.
    pub fn public_inputs(&self) -> (r: Vec<FieldElement>)
        ensures
            r@ == seq![self.min_age],
    {
        let mut v: Vec<FieldElement> = Vec::new();
        v.push(self.min_age);
        v
    }
}

/// The gap of the single-constraint relation: an age `k` below the threshold,
/// with the auxiliary value `k²`, satisfies the constraint as well.
pub proof fn lemma_square_hides_sign(min_age: int, k: int)
    requires
        0 < k <= min_age < modulus(),
    ensures
        0 <= min_age - k < min_age,
        constraint_holds(min_age - k, min_age, (k * k) % modulus()),
{
    assert((min_age - k - min_age) * (min_age - k - min_age) == k * k) by (nonlinear_arith);
}

/// `Σ bits[i] · 2^i`.
pub open spec fn weighted_sum(bits: Seq<int>) -> int
    decreases bits.len(),
{
    if bits.len() == 0 {
        0
    } else {
        weighted_sum(bits.drop_last()) + bits.last() * pow2((bits.len() - 1) as nat)
    }
}

/// Every constraint of the range-checked circuit holds: each bit is a root
/// of `b · b = b`, and the weighted sum of the bits is `age - min_age`.
pub open spec fn range_constraints_hold(age: int, min_age: int, bits: Seq<int>) -> bool {
    &&& bits.len() == DIFFERENCE_BITS
    &&& forall|i: int| 0 <= i < bits.len() ==> (#[trigger] bits[i] * bits[i]) % modulus() == bits[i]
    &&& weighted_sum(bits) % modulus() == (age - min_age) % modulus()
}

/// The values of the bits of an assignment.
pub open spec fn bit_values(bits: Seq<FieldElement>) -> Seq<int> {
    bits.map_values(|b: FieldElement| b.value())
}

/// The threshold circuit with the range check on the difference.
#[derive(Clone, Copy, Debug)]
pub struct RangeCheckedAgeCircuit {
    pub age: Option<FieldElement>,
    pub min_age: FieldElement,
}

/// Values of the variables of the range-checked circuit.
#[derive(Debug)]
pub struct RangeAssignment {
    pub age: FieldElement,
    pub min_age: FieldElement,
    /// Bits of `age - min_age`, least significant first.
    pub bits: Vec<FieldElement>,
}

impl RangeAssignment {
    /// The assignment satisfies every constraint of the range-checked circuit.
    pub open spec fn satisfies(&self) -> bool {
        range_constraints_hold(self.age.value(), self.min_age.value(), bit_values(self.bits@))
    }
}

/// Bounds of a weighted sum of bits.
proof fn lemma_weighted_sum_bounds(bits: Seq<int>)
    requires
        forall|i: int| 0 <= i < bits.len() ==> bits[i] == 0 || bits[i] == 1,
    ensures
        0 <= weighted_sum(bits) < pow2(bits.len()),
    decreases bits.len(),
{
    if bits.len() > 0 {
        let n = (bits.len() - 1) as nat;
        lemma_weighted_sum_bounds(bits.drop_last());
        lemma_pow2_unfold(bits.len());
        vstd::arithmetic::power2::lemma_pow2_pos(n);
        assert(bits.last() == bits[bits.len() - 1]);
        let l = bits.last();
        let p = pow2(n) as int;
        assert(0 <= l * p <= p) by (nonlinear_arith)
            requires
                l == 0 || l == 1,
                p > 0,
        ;
        assert(weighted_sum(bits) == weighted_sum(bits.drop_last()) + l * p);
        assert(pow2(bits.len()) == 2 * p);
    } else {
        vstd::arithmetic::power2::lemma2_to64();
    }
}

impl RangeCheckedAgeCircuit {
    pub open spec fn wf(&self) -> bool {
        &&& self.min_age.wf()
        &&& self.age matches Some(a) ==> a.wf()
    }

    /// A circuit for setup: the threshold alone, no witness.
    pub fn without_witness(min_age: FieldElement) -> (r: Self)
        ensures
            r.age is None,
            r.min_age == min_age,
    {
        RangeCheckedAgeCircuit { age: None, min_age }
    }

    /// A circuit for proving: the threshold and the private age.
    pub fn with_witness(age: FieldElement, min_age: FieldElement) -> (r: Self)
        ensures
            r.age == Some(age),
            r.min_age == min_age,
    {
        RangeCheckedAgeCircuit { age: Some(age), min_age }
    }

    /// Instantiates every variable. Fails without a witness, and refuses a
    /// witness that does not satisfy the relation rather than produce an
    /// assignment that breaks a constraint.
    pub fn synthesize(&self) -> (r: Result<RangeAssignment, SynthesisError>)
        requires
            self.wf(),
        ensures
            match r {
                Ok(asg) => self.age == Some(asg.age) && asg.min_age == self.min_age
                    && asg.satisfies()
                    && (asg.age.value() - asg.min_age.value()) % modulus() < pow2(DIFFERENCE_BITS as nat)
                    && forall|i: int| 0 <= i < asg.bits@.len() ==> (#[trigger] asg.bits@[i]).wf()
                    && (asg.bits@[i].value() == 0 || asg.bits@[i].value() == 1),
                Err(e) => match self.age {
                    None => e == SynthesisError::AssignmentMissing,
                    Some(a) => e == SynthesisError::Unsatisfiable
                        && (a.value() - self.min_age.value()) % modulus() >= pow2(DIFFERENCE_BITS as nat),
                },
            },
    {
        let age = match self.age {
            None => return Err(SynthesisError::AssignmentMissing),
            Some(a) => a,
        };
        let difference = age.sub(&self.min_age);
        proof {
            vstd::arithmetic::power2::lemma2_to64();
        }
        let value = match difference.small_value() {
            None => return Err(SynthesisError::Unsatisfiable),
            Some(v) => v,
        };
        let mut bits: Vec<FieldElement> = Vec::new();
        let mut rest: u8 = value;
        let mut i: usize = 0;
        while i < DIFFERENCE_BITS
            invariant
                0 <= i <= DIFFERENCE_BITS,
                bits@.len() == i,
                value as int == weighted_sum(bit_values(bits@)) + pow2(i as nat) * rest,
                rest as int * pow2(i as nat) < 256,
                forall|j: int| 0 <= j < i ==> (#[trigger] bits@[j]).wf()
                    && (bits@[j].value() == 0 || bits@[j].value() == 1),
            decreases DIFFERENCE_BITS - i,
        {
            let bit = rest % 2;
            let ghost before = bits@;
            bits.push(FieldElement::from_u64(bit as u64));
            proof {
                let p = pow2(i as nat);
                lemma_pow2_unfold((i + 1) as nat);
                assert(bit_values(bits@).drop_last() =~= bit_values(before));
                assert(bit_values(bits@).last() == bit as int);
                assert(p * (rest % 2) + (2 * p) * (rest / 2) == p * rest) by (nonlinear_arith)
                    requires
                        rest == 2 * (rest / 2) + rest % 2,
                ;
                assert((rest / 2) * (2 * p) <= rest * p) by (nonlinear_arith)
                    requires
                        p >= 0,
                        rest >= 0,
                ;
            }
            rest = rest / 2;
            i = i + 1;
        }
        proof {
            assert(rest == 0) by (nonlinear_arith)
                requires
                    rest as int * 256 < 256,
                    rest >= 0,
            ;
            let vals = bit_values(bits@);
            assert forall|j: int| 0 <= j < vals.len() implies (#[trigger] vals[j] * vals[j]) % modulus()
                == vals[j] by {
                assert(bits@[j].value() == 0 || bits@[j].value() == 1);
                lemma_bit_square(vals[j]);
            }
            vstd::arithmetic::div_mod::lemma_small_mod(value as nat, modulus() as nat);
            assert(weighted_sum(vals) == value);
        }
        Ok(RangeAssignment { age, min_age: self.min_age, bits })
    }
}

/// A bit squares to itself in the field.
proof fn lemma_bit_square(b: int)
    requires
        b == 0 || b == 1,
    ensures
        (b * b) % modulus() == b,
{
    vstd::arithmetic::div_mod::lemma_small_mod((b * b) as nat, modulus() as nat);
}

/// Completeness of the range-checked circuit: an age at or above the
/// threshold, by less than `2^DIFFERENCE_BITS`, has an assignment that
/// satisfies every constraint (the bits of the difference).
pub proof fn lemma_range_completeness(age: int, min_age: int, bits: Seq<int>)
    requires
        0 <= min_age <= age < modulus(),
        forall|i: int| 0 <= i < bits.len() ==> bits[i] == 0 || bits[i] == 1,
        bits.len() == DIFFERENCE_BITS,
        weighted_sum(bits) == age - min_age,
    ensures
        range_constraints_hold(age, min_age, bits),
{
    assert forall|i: int| 0 <= i < bits.len() implies (#[trigger] bits[i] * bits[i]) % modulus()
        == bits[i] by {
        lemma_bit_square(bits[i]);
    }
}

/// Soundness of the range-checked circuit: where every bit is 0 or 1 (what
/// `b · b = b` leaves in a prime field) and the remaining constraints hold,
/// the age is at least the threshold, by exactly the weighted sum. The
/// threshold must lie below `modulus() - 2^DIFFERENCE_BITS`, as every real
/// age does.
pub proof fn lemma_range_soundness(age: int, min_age: int, bits: Seq<int>)
    requires
        0 <= age < modulus(),
        0 <= min_age,
        min_age + pow2(DIFFERENCE_BITS as nat) < modulus(),
        forall|i: int| 0 <= i < bits.len() ==> bits[i] == 0 || bits[i] == 1,
        range_constraints_hold(age, min_age, bits),
    ensures
        age >= min_age,
        age - min_age == weighted_sum(bits),
{
    lemma_weighted_sum_bounds(bits);
    let s = weighted_sum(bits);
    let q = modulus();
    vstd::arithmetic::div_mod::lemma_small_mod(s as nat, q as nat);
    if age >= min_age {
        vstd::arithmetic::div_mod::lemma_small_mod((age - min_age) as nat, q as nat);
    } else {
        vstd::arithmetic::div_mod::lemma_mod_add_multiples_vanish(age - min_age, q);
        vstd::arithmetic::div_mod::lemma_small_mod((age - min_age + q) as nat, q as nat);
    }
}

} // verus!
