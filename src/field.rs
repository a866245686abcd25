//! Elements of the BLS12-381 scalar field, held as canonical little-endian bytes.
use vstd::prelude::*;
use bls12_381::Scalar;

verus! {

/// The order of the BLS12-381 scalar field,
/// 0x73eda753299d7d483339d80809a1d80553bda402fffe5bfeffffffff00000001.
pub open spec fn modulus() -> int {
    (0x73eda753_299d7d48_3339d808_09a1d805 * 0x1_00000000_00000000 * 0x1_00000000_00000000
        + 0x53bda402_fffe5bfe_ffffffff_00000001) as int
}

/// The integer that a little-endian byte string encodes.
pub open spec fn le_value(s: Seq<u8>) -> nat
    decreases s.len(),
{
    if s.len() == 0 {
        0
    } else {
        s[0] as nat + 256 * le_value(s.drop_first())
    }
}

/// Two byte strings of one length that encode the same integer are equal.
pub proof fn lemma_le_value_injective(a: Seq<u8>, b: Seq<u8>)
    requires
        a.len() == b.len(),
        le_value(a) == le_value(b),
    ensures
        a == b,
    decreases a.len(),
{
    if a.len() > 0 {
        let x = a[0] as int;
        let y = b[0] as int;
        let u = le_value(a.drop_first()) as int;
        let v = le_value(b.drop_first()) as int;
        assert(x == y && u == v) by (nonlinear_arith)
            requires
                x + 256 * u == y + 256 * v,
                0 <= x < 256,
                0 <= y < 256,
                0 <= u,
                0 <= v,
        ;
        lemma_le_value_injective(a.drop_first(), b.drop_first());
        assert(a =~= seq![a[0]] + a.drop_first());
        assert(b =~= seq![b[0]] + b.drop_first());
    }
}

/// Relies on `bls12_381::Scalar::from(u64)` and `Scalar::to_bytes`: the
/// canonical little-endian encoding of `n`.
#[verifier::external_body]
fn scalar_from_u64(n: u64) -> (r: [u8; 32])
    ensures
        le_value(r@) == n as int,
{
    Scalar::from(n).to_bytes()
}

/// Relies on `bls12_381::Scalar::from_bytes`, which accepts exactly the
/// little-endian encodings of integers below the modulus.
#[verifier::external_body]
fn scalar_is_canonical(bytes: &[u8; 32]) -> (r: bool)
    ensures
        r == (le_value(bytes@) < modulus()),
{
    bool::from(Scalar::from_bytes(bytes).is_some())
}

/// Relies on `Scalar::from_bytes`, `Scalar - Scalar` and `Scalar::to_bytes` of
/// bls12_381: subtraction modulo the field order, on canonical encodings.
#[verifier::external_body]
fn scalar_sub(a: &[u8; 32], b: &[u8; 32]) -> (r: [u8; 32])
    requires
        le_value(a@) < modulus(),
        le_value(b@) < modulus(),
    ensures
        le_value(r@) == (le_value(a@) as int - le_value(b@) as int) % modulus(),
{
    (Scalar::from_bytes(a).unwrap() - Scalar::from_bytes(b).unwrap()).to_bytes()
}

/// Relies on `Scalar::from_bytes`, `Scalar * Scalar` and `Scalar::to_bytes` of
/// bls12_381: multiplication modulo the field order, on canonical encodings.
#[verifier::external_body]
fn scalar_mul(a: &[u8; 32], b: &[u8; 32]) -> (r: [u8; 32])
    requires
        le_value(a@) < modulus(),
        le_value(b@) < modulus(),
    ensures
        le_value(r@) == (le_value(a@) as int * le_value(b@) as int) % modulus(),
{
    (Scalar::from_bytes(a).unwrap() * Scalar::from_bytes(b).unwrap()).to_bytes()
}

/// A byte string whose bytes after the first are zero encodes its first byte.
proof fn lemma_le_value_zero_tail(s: Seq<u8>)
    requires
        s.len() > 0,
        forall|j: int| 1 <= j < s.len() ==> s[j] == 0,
    ensures
        le_value(s) == s[0],
{
    lemma_le_value_all_zero(s.drop_first());
}

proof fn lemma_le_value_all_zero(s: Seq<u8>)
    requires
        forall|j: int| 0 <= j < s.len() ==> s[j] == 0,
    ensures
        le_value(s) == 0,
    decreases s.len(),
{
    if s.len() > 0 {
        lemma_le_value_all_zero(s.drop_first());
    }
}

/// A nonzero byte at position `i` puts the value at or above `256^i`, so at
/// or above 256 for `i >= 1`.
proof fn lemma_le_value_nonzero_tail(s: Seq<u8>, i: int)
    requires
        1 <= i < s.len(),
        s[i] != 0,
    ensures
        le_value(s) >= 256,
    decreases i,
{
    let rest = s.drop_first();
    if i == 1 {
        assert(rest[0] != 0);
        assert(le_value(rest) >= 1);
    } else {
        lemma_le_value_nonzero_tail(rest, i - 1);
    }
}

/// An element of the scalar field: the 32-byte little-endian encoding of an
/// integer below `modulus()`.
#[derive(Clone, Copy, Debug)]
pub struct FieldElement {
    bytes: [u8; 32],
}

impl FieldElement {
    /// The integer this element stands for.
    pub closed spec fn value(&self) -> int {
        le_value(self.bytes@) as int
    }

    /// The encoding is canonical.
    pub open spec fn wf(&self) -> bool {
        self.value() < modulus()
    }

    /// The bytes that hold the element.
    pub closed spec fn encoding(&self) -> Seq<u8> {
        self.bytes@
    }

    /// The element equal to `n`.
    pub fn from_u64(n: u64) -> (r: FieldElement)
        ensures
            r.wf(),
            r.value() == n as int,
    {
        FieldElement { bytes: scalar_from_u64(n) }
    }

    /// The element a 32-byte little-endian string encodes, if it is canonical
    /// (encodes an integer below the modulus).
    pub fn from_bytes(bytes: [u8; 32]) -> (r: Option<FieldElement>)
        ensures
            r is Some <==> le_value(bytes@) < modulus(),
            r matches Some(f) ==> f.encoding() == bytes@ && f.wf(),
    {
        if scalar_is_canonical(&bytes) {
            Some(FieldElement { bytes })
        } else {
            None
        }
    }

    /// The canonical little-endian encoding.
    pub fn to_bytes(&self) -> (r: [u8; 32])
        ensures
            r@ == self.encoding(),
            le_value(r@) == self.value(),
    {
        self.bytes
    }

    /// `self - other` in the field.
    pub fn sub(&self, other: &FieldElement) -> (r: FieldElement)
        requires
            self.wf(),
            other.wf(),
        ensures
            r.wf(),
            r.value() == (self.value() - other.value()) % modulus(),
    {
        FieldElement { bytes: scalar_sub(&self.bytes, &other.bytes) }
    }

    /// `self · other` in the field.
    pub fn mul(&self, other: &FieldElement) -> (r: FieldElement)
        requires
            self.wf(),
            other.wf(),
        ensures
            r.wf(),
            r.value() == (self.value() * other.value()) % modulus(),
    {
        FieldElement { bytes: scalar_mul(&self.bytes, &other.bytes) }
    }

    /// The element's value if it is below 256.
    pub fn small_value(&self) -> (r: Option<u8>)
        ensures
            r is Some <==> self.value() < 256,
            r matches Some(v) ==> v as int == self.value(),
    {
        let mut i: usize = 1;
        while i < 32
            invariant
                1 <= i <= 32,
                forall|j: int| 1 <= j < i ==> self.bytes@[j] == 0,
            decreases 32 - i,
        {
            if self.bytes[i] != 0 {
                proof {
                    lemma_le_value_nonzero_tail(self.bytes@, i as int);
                }
                return None;
            }
            i = i + 1;
        }
        proof {
            lemma_le_value_zero_tail(self.bytes@);
        }
        Some(self.bytes[0])
    }

    /// Whether two elements are the same field element.
    pub fn equals(&self, other: &FieldElement) -> (r: bool)
        ensures
            r == (self.value() == other.value()),
    {
        let mut i: usize = 0;
        while i < 32
            invariant
                0 <= i <= 32,
                forall|j: int| 0 <= j < i ==> self.bytes@[j] == other.bytes@[j],
            decreases 32 - i,
        {
            if self.bytes[i] != other.bytes[i] {
                proof {
                    if self.value() == other.value() {
                        lemma_le_value_injective(self.bytes@, other.bytes@);
                    }
                }
                return false;
            }
            i = i + 1;
        }
        assert(self.bytes@ =~= other.bytes@);
        true
    }
}

} // verus!
