//! Elements of the scalar field of BLS12-381, held as 32 little-endian
//! bytes, and the arithmetic on them.

use bls12_381::Scalar;
use vstd::prelude::*;

verus! {

/// The order of the scalar field.
pub open spec fn modulus() -> nat {
    0x73eda753299d7d483339d80809a1d80553bda402fffe5bfeffffffff00000001nat
}

/// The number that bytes stand for, the first byte counting least.
pub open spec fn le_value(bytes: Seq<u8>) -> nat
    decreases bytes.len(),
{
    if bytes.len() == 0 {
        0
    } else {
        bytes[0] as nat + 256 * le_value(bytes.drop_first())
    }
}

/// An element of the field: 32 little-endian bytes. It is canonical where
/// the number they stand for is below the modulus.
#[derive(Debug, Clone, Copy)]
pub struct FieldElement {
    pub bytes: [u8; 32],
}

impl View for FieldElement {
    type V = Seq<u8>;

    open spec fn view(&self) -> Seq<u8> {
        self.bytes@
    }
}

/// The bytes of each element, in order.
pub open spec fn elements_view(s: Seq<FieldElement>) -> Seq<Seq<u8>> {
    Seq::new(s.len(), |i: int| s[i]@)
}

impl FieldElement {
    /// The number that the bytes stand for.
    pub open spec fn value(&self) -> nat {
        le_value(self.bytes@)
    }

    /// The residue that the element stands for.
    pub open spec fn residue(&self) -> nat {
        self.value() % modulus()
    }

    pub open spec fn canonical(&self) -> bool {
        self.value() < modulus()
    }

    /// Whether two elements hold the same bytes.
    pub fn same(&self, other: &FieldElement) -> (r: bool)
        ensures
            r == (self@ == other@),
    {
        crate::vm::value::keys_equal(&self.bytes, &other.bytes)
    }
}

/// Calls `Scalar::from` on a `u64` and `Scalar::to_bytes` on the result.
/// Trusted: the bytes are the canonical encoding of `x`.
#[verifier::external_body]
pub(crate) fn field_from_u64(x: u64) -> (r: FieldElement)
    ensures
        r.value() == x,
        r.canonical(),
{
    FieldElement { bytes: Scalar::from(x).to_bytes() }
}

/// Reads both operands with `Scalar::from_bytes_wide`, which reduces by the
/// modulus, adds them with `Scalar`'s `+`, and encodes the sum with
/// `Scalar::to_bytes`. Trusted: the result is the canonical encoding of the
/// sum of the operands' numbers, reduced by the modulus.
#[verifier::external_body]
pub(crate) fn field_add(a: &FieldElement, b: &FieldElement) -> (r: FieldElement)
    ensures
        r.value() == (a.value() + b.value()) % modulus(),
        r.canonical(),
{
    let (mut x, mut y) = ([0u8; 64], [0u8; 64]);
    x[..32].copy_from_slice(&a.bytes);
    y[..32].copy_from_slice(&b.bytes);
    FieldElement { bytes: (Scalar::from_bytes_wide(&x) + Scalar::from_bytes_wide(&y)).to_bytes() }
}

/// As `field_add`, with `Scalar`'s `-`. Trusted: the result is the canonical
/// encoding of the difference of the operands' numbers, reduced by the
/// modulus to a number that is not negative.
#[verifier::external_body]
pub(crate) fn field_sub(a: &FieldElement, b: &FieldElement) -> (r: FieldElement)
    ensures
        r.value() == (a.value() - b.value()) % (modulus() as int),
        r.canonical(),
{
    let (mut x, mut y) = ([0u8; 64], [0u8; 64]);
    x[..32].copy_from_slice(&a.bytes);
    y[..32].copy_from_slice(&b.bytes);
    FieldElement { bytes: (Scalar::from_bytes_wide(&x) - Scalar::from_bytes_wide(&y)).to_bytes() }
}

/// As `field_add`, with `Scalar`'s `*`. Trusted: the result is the canonical
/// encoding of the product of the operands' numbers, reduced by the modulus.
#[verifier::external_body]
pub(crate) fn field_mul(a: &FieldElement, b: &FieldElement) -> (r: FieldElement)
    ensures
        r.value() == (a.value() * b.value()) % modulus(),
        r.canonical(),
{
    let (mut x, mut y) = ([0u8; 64], [0u8; 64]);
    x[..32].copy_from_slice(&a.bytes);
    y[..32].copy_from_slice(&b.bytes);
    FieldElement { bytes: (Scalar::from_bytes_wide(&x) * Scalar::from_bytes_wide(&y)).to_bytes() }
}

/// The residue of an integer, which may be negative.
pub open spec fn embed(x: int) -> nat {
    (x % (modulus() as int)) as nat
}

impl FieldElement {
    /// The element that stands for `x`.
    pub fn from_u64(x: u64) -> (r: Self)
        ensures
            r.value() == x,
            r.canonical(),
    {
        field_from_u64(x)
    }

    pub fn zero() -> (r: Self)
        ensures
            r.value() == 0,
            r.canonical(),
    {
        field_from_u64(0)
    }

    pub fn one() -> (r: Self)
        ensures
            r.value() == 1,
            r.canonical(),
    {
        field_from_u64(1)
    }

    /// The element that stands for the integer `x`: a negative integer is
    /// counted down from the modulus.
    pub fn from_i64(x: i64) -> (r: Self)
        ensures
            r.value() == embed(x as int),
            r.canonical(),
    {
        if x >= 0 {
            let r = field_from_u64(x as u64);
            assert(embed(x as int) == x as nat) by {
                vstd::arithmetic::div_mod::lemma_small_mod(x as nat, modulus());
            }
            r
        } else {
            let magnitude: u64 = if x == i64::MIN {
                0x8000_0000_0000_0000
            } else {
                (-x) as u64
            };
            let zero = field_from_u64(0);
            let m = field_from_u64(magnitude);
            field_sub(&zero, &m)
        }
    }

    /// The sum in the field.
    pub fn add(&self, other: &FieldElement) -> (r: Self)
        ensures
            r.value() == (self.value() + other.value()) % modulus(),
            r.canonical(),
    {
        field_add(self, other)
    }

    /// The difference in the field.
    pub fn sub(&self, other: &FieldElement) -> (r: Self)
        ensures
            r.value() == (self.value() - other.value()) % (modulus() as int),
            r.canonical(),
    {
        field_sub(self, other)
    }

    /// The product in the field.
    pub fn mul(&self, other: &FieldElement) -> (r: Self)
        ensures
            r.value() == (self.value() * other.value()) % modulus(),
            r.canonical(),
    {
        field_mul(self, other)
    }

    /// The canonical element with the same residue as these 32 bytes.
    pub fn from_bytes_reduced(bytes: [u8; 32]) -> (r: Self)
        ensures
            r.value() == le_value(bytes@) % modulus(),
            r.canonical(),
    {
        let raw = FieldElement { bytes };
        let zero = field_from_u64(0);
        field_add(&raw, &zero)
    }
}

/// Byte strings of one length that stand for the same number are the same.
pub proof fn lemma_le_value_injective(a: Seq<u8>, b: Seq<u8>)
    requires
        a.len() == b.len(),
        le_value(a) == le_value(b),
    ensures
        a == b,
    decreases a.len(),
{
    if a.len() == 0 {
        assert(a =~= b);
    } else {
        let x = le_value(a.drop_first());
        let y = le_value(b.drop_first());
        assert(a[0] as nat + 256 * x == b[0] as nat + 256 * y);
        assert(x == y && a[0] == b[0]) by (nonlinear_arith)
            requires
                a[0] as nat + 256 * x == b[0] as nat + 256 * y,
                a[0] < 256,
                b[0] < 256,
        ;
        lemma_le_value_injective(a.drop_first(), b.drop_first());
        assert(a =~= seq![a[0]] + a.drop_first());
        assert(b =~= seq![b[0]] + b.drop_first());
    }
}

} // verus!
