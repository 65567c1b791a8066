//! The scalar field of BLS12-381: the type `Scalar`, its arithmetic, and the
//! algebra of residues modulo the group order that the rest of the crate
//! reasons with.
//!
//! A `Scalar` stores the canonical little-endian encoding of a residue. The
//! arithmetic itself is done by the `bls12_381` crate; every operation below
//! states its result as plain modular arithmetic on integers.

use vstd::arithmetic::div_mod::*;
use vstd::arithmetic::mul::*;
use vstd::prelude::*;

verus! {

/// Number of bytes in the encoding of a scalar.
pub const BYTES_PER_FIELD_ELEMENT: usize = 32;

/// The order of the scalar field (a 255-bit prime).
pub open spec fn modulus() -> int {
    0x73eda753299d7d483339d80809a1d80553bda402fffe5bfeffffffff00000001int
}

/// The number that a little-endian byte string denotes.
pub open spec fn le_value(b: Seq<u8>) -> int
    decreases b.len(),
{
    if b.len() == 0 {
        0int
    } else {
        b[0] as int + 256 * le_value(b.drop_first())
    }
}

/// The number that a big-endian byte string denotes.
pub open spec fn be_value(b: Seq<u8>) -> int {
    le_value(b.reverse())
}

/// Sum of two residues.
pub open spec fn fadd(a: int, b: int) -> int {
    (a + b) % modulus()
}

/// Product of two residues.
pub open spec fn fmul(a: int, b: int) -> int {
    (a * b) % modulus()
}

/// Additive inverse of a residue.
pub open spec fn fneg(a: int) -> int {
    (-a) % modulus()
}

/// Difference of two residues.
pub open spec fn fsub(a: int, b: int) -> int {
    (a - b) % modulus()
}

/// `b` raised to the power `e`, reduced.
pub open spec fn fpow(b: int, e: nat) -> int
    decreases e,
{
    if e == 0 {
        1int
    } else {
        fmul(b, fpow(b, (e - 1) as nat))
    }
}

/// The multiplicative inverse of a residue that has one: the reduced residue
/// whose product with `a` is one.
pub open spec fn finv(a: int) -> int {
    choose|x: int| is_residue(x) && fmul(a, x) == 1
}

/// Whether `a` is a reduced residue.
pub open spec fn is_residue(a: int) -> bool {
    0 <= a < modulus()
}

pub proof fn lemma_fadd_range(a: int, b: int)
    ensures
        is_residue(fadd(a, b)),
{
    lemma_mod_bound(a + b, modulus());
}

pub proof fn lemma_fmul_range(a: int, b: int)
    ensures
        is_residue(fmul(a, b)),
{
    lemma_mod_bound(a * b, modulus());
}

pub proof fn lemma_fpow_range(b: int, e: nat)
    ensures
        is_residue(fpow(b, e)),
    decreases e,
{
    if e > 0 {
        lemma_fmul_range(b, fpow(b, (e - 1) as nat));
    }
}

/// A reduced residue is its own remainder.
pub proof fn lemma_residue_mod(a: int)
    requires
        is_residue(a),
    ensures
        a % modulus() == a,
{
    lemma_small_mod(a as nat, modulus() as nat);
}

pub proof fn lemma_fadd_comm(a: int, b: int)
    ensures
        fadd(a, b) == fadd(b, a),
{
}

pub proof fn lemma_fmul_comm(a: int, b: int)
    ensures
        fmul(a, b) == fmul(b, a),
{
    lemma_mul_is_commutative(a, b);
}

/// Reducing an operand first does not change a sum.
pub proof fn lemma_fadd_mod(a: int, b: int)
    ensures
        fadd(a % modulus(), b) == fadd(a, b),
        fadd(a, b % modulus()) == fadd(a, b),
{
    lemma_add_mod_noop(a, b, modulus());
    lemma_add_mod_noop(a % modulus(), b, modulus());
    lemma_add_mod_noop(a, b % modulus(), modulus());
    lemma_mod_twice(a, modulus());
    lemma_mod_twice(b, modulus());
}

/// Reducing an operand first does not change a product.
pub proof fn lemma_fmul_mod(a: int, b: int)
    ensures
        fmul(a % modulus(), b) == fmul(a, b),
        fmul(a, b % modulus()) == fmul(a, b),
{
    lemma_mul_mod_noop_left(a, b, modulus());
    lemma_mul_mod_noop_right(a, b, modulus());
}

pub proof fn lemma_fmul_assoc(a: int, b: int, c: int)
    ensures
        fmul(fmul(a, b), c) == fmul(a, fmul(b, c)),
{
    lemma_fmul_mod(a * b, c);
    lemma_fmul_mod(a, b * c);
    lemma_mul_is_associative(a, b, c);
}

pub proof fn lemma_fadd_zero(a: int)
    requires
        is_residue(a),
    ensures
        fadd(a, 0) == a,
        fadd(0, a) == a,
{
    lemma_residue_mod(a);
}

pub proof fn lemma_fmul_one(a: int)
    requires
        is_residue(a),
    ensures
        fmul(a, 1) == a,
        fmul(1, a) == a,
{
    lemma_residue_mod(a);
}

pub proof fn lemma_fmul_zero(a: int)
    ensures
        fmul(a, 0) == 0,
        fmul(0, a) == 0,
{
    lemma_residue_mod(0);
}

/// Subtracting is adding the negation.
pub proof fn lemma_fsub_is_add_neg(a: int, b: int)
    ensures
        fsub(a, b) == fadd(a, fneg(b)),
{
    lemma_fadd_mod(a, -b);
}

/// Negating is multiplying by minus one.
pub proof fn lemma_fneg_is_mul(a: int)
    ensures
        fneg(a) == fmul(modulus() - 1, a),
{
    let m = modulus();
    assert((m - 1) * a == m * a - a) by (nonlinear_arith);
    lemma_mod_multiples_vanish(a, -a, m);
    lemma_mul_is_commutative(m, a);
}

/// Powers add in the exponent.
pub proof fn lemma_fpow_add(b: int, e1: nat, e2: nat)
    ensures
        fpow(b, e1 + e2) == fmul(fpow(b, e1), fpow(b, e2)),
    decreases e1,
{
    if e1 == 0 {
        lemma_fpow_range(b, e2);
        lemma_fmul_one(fpow(b, e2));
    } else {
        lemma_fpow_add(b, (e1 - 1) as nat, e2);
        assert((e1 + e2 - 1) as nat == (e1 - 1) as nat + e2);
        lemma_fmul_assoc(b, fpow(b, (e1 - 1) as nat), fpow(b, e2));
    }
}

/// A power of a power multiplies the exponents.
pub proof fn lemma_fpow_mul(b: int, e1: nat, e2: nat)
    ensures
        fpow(fpow(b, e1), e2) == fpow(b, e1 * e2),
    decreases e2,
{
    if e2 == 0 {
        assert(e1 * e2 == 0) by (nonlinear_arith)
            requires
                e2 == 0,
        ;
    } else {
        lemma_fpow_mul(b, e1, (e2 - 1) as nat);
        assert(e1 * e2 == e1 + e1 * (e2 - 1)) by (nonlinear_arith);
        lemma_fpow_add(b, e1, e1 * ((e2 - 1) as nat));
    }
}

/// The power of a product is the product of the powers.
pub proof fn lemma_fpow_of_product(a: int, b: int, e: nat)
    ensures
        fpow(fmul(a, b), e) == fmul(fpow(a, e), fpow(b, e)),
    decreases e,
{
    if e == 0 {
        lemma_residue_mod(1);
    } else {
        let p = (e - 1) as nat;
        lemma_fpow_of_product(a, b, p);
        let x = fpow(a, p);
        let y = fpow(b, p);
        // (ab)(xy) == (ax)(by)
        lemma_fmul_mod(a * b, fmul(x, y));
        lemma_fmul_assoc(a, b, fmul(x, y));
        lemma_fmul_assoc(b, x, y);
        lemma_fmul_comm(b, x);
        lemma_fmul_assoc(x, b, y);
        lemma_fmul_assoc(a, x, fmul(b, y));
        lemma_fmul_mod(a, b);
        assert(fmul(fmul(a, b), fmul(x, y)) == fmul(a, fmul(b, fmul(x, y))));
        assert(fmul(b, fmul(x, y)) == fmul(x, fmul(b, y)));
    }
}

/// A residue has at most one inverse.
pub proof fn lemma_inverse_unique(a: int, x: int, y: int)
    requires
        is_residue(x),
        is_residue(y),
        fmul(a, x) == 1,
        fmul(a, y) == 1,
    ensures
        x == y,
{
    lemma_fmul_one(x);
    lemma_fmul_one(y);
    lemma_fmul_assoc(x, a, y);
    lemma_fmul_comm(x, a);
}

/// The inverse of `a` is the residue whose product with `a` is one.
pub proof fn lemma_finv(a: int, x: int)
    requires
        is_residue(x),
        fmul(a, x) == 1,
    ensures
        finv(a) == x,
        fmul(a, finv(a)) == 1,
        is_residue(finv(a)),
{
    let c = finv(a);
    assert(is_residue(c) && fmul(a, c) == 1);
    lemma_inverse_unique(a, x, c);
}

/// Equal-length little-endian strings that denote the same number are equal.
pub proof fn lemma_le_value_injective(a: Seq<u8>, b: Seq<u8>)
    requires
        a.len() == b.len(),
        le_value(a) == le_value(b),
    ensures
        a =~= b,
    decreases a.len(),
{
    if a.len() > 0 {
        let ra = le_value(a.drop_first());
        let rb = le_value(b.drop_first());
        assert(a[0] as int + 256 * ra == b[0] as int + 256 * rb);
        assert(a[0] == b[0] && ra == rb) by (nonlinear_arith)
            requires
                a[0] as int + 256 * ra == b[0] as int + 256 * rb,
                0 <= a[0] < 256,
                0 <= b[0] < 256,
        ;
        lemma_le_value_injective(a.drop_first(), b.drop_first());
        assert forall|i: int| 0 <= i < a.len() implies a[i] == b[i] by {
            if i > 0 {
                assert(a[i] == a.drop_first()[i - 1]);
                assert(b[i] == b.drop_first()[i - 1]);
            }
        }
    }
}

/// An element of the scalar field, held by its canonical little-endian
/// encoding: the number that the bytes denote is below the field order. The
/// operations decode the bytes with `bls12_381::Scalar::from_bytes`, which
/// accepts every such encoding.
#[derive(Clone, Copy, Debug, PartialEq, Eq)]
pub struct Scalar {
    bytes: [u8; 32],
}

/// The numbers that a sequence of scalars denotes.
pub open spec fn values(s: Seq<Scalar>) -> Seq<int> {
    Seq::new(s.len(), |i: int| s[i].value())
}

/// `bls12_381::Scalar::from_bytes`, followed by `to_bytes`. The outside
/// function accepts exactly the little-endian encodings of numbers below
/// the field order, and the scalar it returns encodes back to the same bytes.
#[verifier::external_body]
fn canonical_from_le(bytes: &[u8; 32]) -> (r: Option<Scalar>)
    ensures
        r.is_some() <==> le_value(bytes@) < modulus(),
        r.is_some() ==> r.unwrap().value() == le_value(bytes@),
{
    let parsed: Option<bls12_381::Scalar> = bls12_381::Scalar::from_bytes(bytes).into();
    match parsed {
        Some(s) => Some(Scalar { bytes: s.to_bytes() }),
        None => None,
    }
}

/// `From<u64>` of `bls12_381::Scalar`: the field element of a small integer.
#[verifier::external_body]
fn field_from_u64(x: u64) -> (r: Scalar)
    ensures
        r.value() == x,
{
    Scalar { bytes: bls12_381::Scalar::from(x).to_bytes() }
}

/// `bls12_381::Scalar::from_raw`: the field element congruent to the 256-bit
/// integer whose four limbs are given least significant first.
#[verifier::external_body]
fn field_from_raw(limbs: [u64; 4]) -> (r: Scalar)
    ensures
        r.value() == limbs_value(limbs@) % modulus(),
{
    Scalar { bytes: bls12_381::Scalar::from_raw(limbs).to_bytes() }
}

/// `bls12_381::Scalar::from_bytes_wide`: the field element congruent to the
/// 512-bit integer that the 64 bytes encode, least significant first.
#[verifier::external_body]
fn field_from_wide(bytes: &[u8; 64]) -> (r: Scalar)
    ensures
        r.value() == le_value(bytes@) % modulus(),
{
    Scalar { bytes: bls12_381::Scalar::from_bytes_wide(bytes).to_bytes() }
}

/// Addition of `bls12_381::Scalar`: the sum modulo the field order.
#[verifier::external_body]
fn field_sum(a: &Scalar, b: &Scalar) -> (r: Scalar)
    ensures
        r.value() == fadd(a.value(), b.value()),
{
    let x = bls12_381::Scalar::from_bytes(&a.bytes).unwrap();
    let y = bls12_381::Scalar::from_bytes(&b.bytes).unwrap();
    Scalar { bytes: (x + y).to_bytes() }
}

/// Subtraction of `bls12_381::Scalar`: the difference modulo the field order.
#[verifier::external_body]
fn field_difference(a: &Scalar, b: &Scalar) -> (r: Scalar)
    ensures
        r.value() == fsub(a.value(), b.value()),
{
    let x = bls12_381::Scalar::from_bytes(&a.bytes).unwrap();
    let y = bls12_381::Scalar::from_bytes(&b.bytes).unwrap();
    Scalar { bytes: (x - y).to_bytes() }
}

/// Multiplication of `bls12_381::Scalar`: the product modulo the field order.
#[verifier::external_body]
fn field_product(a: &Scalar, b: &Scalar) -> (r: Scalar)
    ensures
        r.value() == fmul(a.value(), b.value()),
{
    let x = bls12_381::Scalar::from_bytes(&a.bytes).unwrap();
    let y = bls12_381::Scalar::from_bytes(&b.bytes).unwrap();
    Scalar { bytes: (x * y).to_bytes() }
}

/// Negation of `bls12_381::Scalar`: the additive inverse modulo the field
/// order.
#[verifier::external_body]
fn field_negation(a: &Scalar) -> (r: Scalar)
    ensures
        r.value() == fneg(a.value()),
{
    let x = bls12_381::Scalar::from_bytes(&a.bytes).unwrap();
    Scalar { bytes: (-x).to_bytes() }
}

/// `bls12_381::Scalar::invert`: fails exactly on zero, and otherwise returns
/// the element whose product with the argument is one.
#[verifier::external_body]
fn field_inverse(a: &Scalar) -> (r: Option<Scalar>)
    ensures
        r.is_none() <==> a.value() == 0,
        r.is_some() ==> fmul(a.value(), r.unwrap().value()) == 1,
{
    let x = bls12_381::Scalar::from_bytes(&a.bytes).unwrap();
    let inv: Option<bls12_381::Scalar> = x.invert().into();
    match inv {
        Some(s) => Some(Scalar { bytes: s.to_bytes() }),
        None => None,
    }
}

/// The number that four 64-bit limbs denote, least significant first.
pub open spec fn limbs_value(l: Seq<u64>) -> int {
    l[0] as int + l[1] as int * 0x1_0000_0000_0000_0000int + l[2] as int
        * 0x1_0000_0000_0000_0000_0000_0000_0000_0000int + l[3] as int
        * 0x1_0000_0000_0000_0000_0000_0000_0000_0000_0000_0000_0000_0000int
}

impl Scalar {
    #[verifier::type_invariant]
    spec fn canonical(self) -> bool {
        le_value(self.bytes@) < modulus()
    }

    /// The residue that this scalar stands for, in `[0, modulus())`.
    pub closed spec fn value(&self) -> int {
        le_value(self.bytes@) % modulus()
    }

    /// Every scalar denotes a reduced residue.
    pub proof fn lemma_value_range(&self)
        ensures
            is_residue(self.value()),
    {
        lemma_mod_bound(le_value(self.bytes@), modulus());
    }

    /// The scalar of a small integer.
    pub fn from_u64(x: u64) -> (r: Scalar)
        ensures
            r.value() == x,
    {
        field_from_u64(x)
    }

    /// The scalar congruent to a 256-bit integer given by its limbs, least
    /// significant first.
    pub fn from_limbs(limbs: [u64; 4]) -> (r: Scalar)
        ensures
            r.value() == limbs_value(limbs@) % modulus(),
    {
        field_from_raw(limbs)
    }

    /// The scalar congruent to the 512-bit integer that the 64 bytes
    /// encode, least significant first.
    pub fn from_bytes_wide(bytes: &[u8; 64]) -> (r: Scalar)
        ensures
            r.value() == le_value(bytes@) % modulus(),
    {
        field_from_wide(bytes)
    }

    pub fn zero() -> (r: Scalar)
        ensures
            r.value() == 0,
    {
        field_from_u64(0)
    }

    pub fn one() -> (r: Scalar)
        ensures
            r.value() == 1,
    {
        field_from_u64(1)
    }

    pub fn add(&self, other: &Scalar) -> (r: Scalar)
        ensures
            r.value() == fadd(self.value(), other.value()),
    {
        field_sum(self, other)
    }

    pub fn sub(&self, other: &Scalar) -> (r: Scalar)
        ensures
            r.value() == fsub(self.value(), other.value()),
    {
        field_difference(self, other)
    }

    pub fn mul(&self, other: &Scalar) -> (r: Scalar)
        ensures
            r.value() == fmul(self.value(), other.value()),
    {
        field_product(self, other)
    }

    pub fn neg(&self) -> (r: Scalar)
        ensures
            r.value() == fneg(self.value()),
    {
        field_negation(self)
    }

    /// The multiplicative inverse, which every scalar but zero has.
    pub fn invert(&self) -> (r: Option<Scalar>)
        ensures
            r.is_none() <==> self.value() == 0,
            r.is_some() ==> fmul(self.value(), r.unwrap().value()) == 1 && r.unwrap().value() == finv(
                self.value(),
            ),
    {
        let r = field_inverse(self);
        proof {
            if r.is_some() {
                r.unwrap().lemma_value_range();
                lemma_finv(self.value(), r.unwrap().value());
            }
        }
        r
    }

    /// Whether two scalars denote the same residue.
    pub fn equals(&self, other: &Scalar) -> (r: bool)
        ensures
            r == (self.value() == other.value()),
    {
        proof {
            use_type_invariant(self);
            use_type_invariant(other);
            lemma_le_value_nonneg(self.bytes@);
            lemma_le_value_nonneg(other.bytes@);
            lemma_small_mod(le_value(self.bytes@) as nat, modulus() as nat);
            lemma_small_mod(le_value(other.bytes@) as nat, modulus() as nat);
        }
        let mut i: usize = 0;
        while i < 32
            invariant
                i <= 32,
                self.value() == le_value(self.bytes@),
                other.value() == le_value(other.bytes@),
                forall|j: int| 0 <= j < i ==> self.bytes@[j] == other.bytes@[j],
            decreases 32 - i,
        {
            if self.bytes[i] != other.bytes[i] {
                proof {
                    if self.value() == other.value() {
                        lemma_le_value_injective(self.bytes@, other.bytes@);
                    }
                }
                return false;
            }
            i += 1;
        }
        assert(self.bytes@ =~= other.bytes@);
        true
    }

    pub fn is_zero(&self) -> (r: bool)
        ensures
            r == (self.value() == 0),
    {
        let z = Scalar::zero();
        self.equals(&z)
    }

    /// Decodes the 32-byte big-endian encoding of a residue. Encodings of
    /// numbers that are not below the field order are not accepted.
    pub fn from_bytes_be(bytes: &[u8; 32]) -> (r: Option<Scalar>)
        ensures
            r.is_some() <==> be_value(bytes@) < modulus(),
            r.is_some() ==> r.unwrap().value() == be_value(bytes@),
    {
        let mut le: [u8; 32] = [0u8; 32];
        let mut i: usize = 0;
        while i < 32
            invariant
                i <= 32,
                forall|j: int| 0 <= j < i ==> le@[j] == bytes@[31 - j],
            decreases 32 - i,
        {
            le[i] = bytes[31 - i];
            i += 1;
        }
        assert(le@ =~= bytes@.reverse());
        canonical_from_le(&le)
    }

    /// The 32-byte little-endian encoding of the residue.
    pub fn to_bytes_le(&self) -> (r: [u8; 32])
        ensures
            le_value(r@) == self.value(),
            le_value(r@) < modulus(),
    {
        proof {
            use_type_invariant(self);
            lemma_le_value_nonneg(self.bytes@);
            lemma_small_mod(le_value(self.bytes@) as nat, modulus() as nat);
        }
        self.bytes
    }

    /// The 32-byte big-endian encoding of the residue.
    pub fn to_bytes_be(&self) -> (r: [u8; 32])
        ensures
            be_value(r@) == self.value(),
    {
        let mut be: [u8; 32] = [0u8; 32];
        let mut i: usize = 0;
        while i < 32
            invariant
                i <= 32,
                forall|j: int| 0 <= j < i ==> be@[j] == self.bytes@[31 - j],
            decreases 32 - i,
        {
            be[i] = self.bytes[31 - i];
            i += 1;
        }
        proof {
            use_type_invariant(self);
            assert(be@.reverse() =~= self.bytes@);
            lemma_le_value_nonneg(self.bytes@);
            lemma_small_mod(le_value(self.bytes@) as nat, modulus() as nat);
        }
        be
    }
}

pub proof fn lemma_le_value_nonneg(b: Seq<u8>)
    ensures
        0 <= le_value(b),
    decreases b.len(),
{
    if b.len() > 0 {
        lemma_le_value_nonneg(b.drop_first());
    }
}

} // verus!
