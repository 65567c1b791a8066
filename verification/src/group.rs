//! The groups of BLS12-381 as this crate uses them: points of G1 and G2 held
//! by their uncompressed encodings, with the group law, the scalar
//! multiplication and the pairing computed by the `bls12_381` crate.
//!
//! What the outside crate computes is not restated here: each result has a
//! name, and the contracts of this crate are written over those names.

use crate::errors::SerializationError;
use crate::field::Scalar;
use vstd::prelude::*;

verus! {

/// Number of bytes of a compressed point of G1.
pub const BYTES_PER_G1_POINT: usize = 48;

/// Number of bytes of a compressed point of G2.
pub const BYTES_PER_G2_POINT: usize = 96;

/// Whether `G1Affine::from_uncompressed` accepts the 96 bytes `u`.
pub uninterp spec fn g1_valid(u: Seq<u8>) -> bool;

/// The uncompressed encoding of the point that `G1Affine::from_compressed`
/// reads from the 48 bytes `c`, if it accepts them.
pub uninterp spec fn g1_decompressed(c: Seq<u8>) -> Option<Seq<u8>>;

/// The compressed encoding of the point whose uncompressed encoding is `u`.
pub uninterp spec fn g1_compressed(u: Seq<u8>) -> Seq<u8>;

/// The uncompressed encoding of the sum of two points of G1.
pub uninterp spec fn g1_sum(a: Seq<u8>, b: Seq<u8>) -> Seq<u8>;

/// The uncompressed encoding of the difference of two points of G1.
pub uninterp spec fn g1_difference(a: Seq<u8>, b: Seq<u8>) -> Seq<u8>;

/// The uncompressed encoding of the point `p` multiplied by the scalar `k`.
pub uninterp spec fn g1_scaled(p: Seq<u8>, k: int) -> Seq<u8>;

/// Whether `G2Affine::from_uncompressed` accepts the 192 bytes `u`.
pub uninterp spec fn g2_valid(u: Seq<u8>) -> bool;

/// The uncompressed encoding of the point that `G2Affine::from_compressed`
/// reads from the 96 bytes `c`, if it accepts them.
pub uninterp spec fn g2_decompressed(c: Seq<u8>) -> Option<Seq<u8>>;

/// Whether the pairing of `p1` with `q1` equals the pairing of `p2` with `q2`.
pub uninterp spec fn pairings_agree(p1: Seq<u8>, q1: Seq<u8>, p2: Seq<u8>, q2: Seq<u8>) -> bool;

/// The uncompressed encoding of the neutral element of G1: the flag for the
/// point at infinity, then zeros.
pub open spec fn g1_identity_encoding() -> Seq<u8> {
    Seq::new(96, |i: int| if i == 0 { 0x40u8 } else { 0u8 })
}

/// A point of G1, held by its uncompressed encoding, which is one that
/// `G1Affine::from_uncompressed` accepts: the operations decode it without
/// failure.
#[derive(Clone, Copy, Debug, PartialEq, Eq)]
pub struct G1Point {
    bytes: [u8; 96],
}

/// A point of G2, held by its uncompressed encoding, which is one that
/// `G2Affine::from_uncompressed` accepts.
#[derive(Clone, Copy, Debug, PartialEq, Eq)]
pub struct G2Point {
    bytes: [u8; 192],
}

impl View for G1Point {
    type V = Seq<u8>;

    closed spec fn view(&self) -> Seq<u8> {
        self.bytes@
    }
}

impl View for G2Point {
    type V = Seq<u8>;

    closed spec fn view(&self) -> Seq<u8> {
        self.bytes@
    }
}

/// The encodings of a sequence of points.
pub open spec fn encodings(points: Seq<G1Point>) -> Seq<Seq<u8>> {
    Seq::new(points.len(), |i: int| points[i]@)
}

/// The linear combination of points with scalars, summed from the left,
/// starting from the neutral element.
pub open spec fn g1_lincomb_spec(points: Seq<Seq<u8>>, scalars: Seq<int>) -> Seq<u8>
    decreases points.len(),
{
    if points.len() == 0 || scalars.len() != points.len() {
        g1_identity_encoding()
    } else {
        g1_sum(
            g1_lincomb_spec(points.drop_last(), scalars.drop_last()),
            g1_scaled(points.last(), scalars.last()),
        )
    }
}

/// `G1Affine::identity`, encoded by `to_uncompressed`: the point at
/// infinity, whose encoding is the infinity flag followed by zeros.
#[verifier::external_body]
fn g1_neutral() -> (r: G1Point)
    ensures
        r@ == g1_identity_encoding(),
{
    G1Point { bytes: bls12_381::G1Affine::identity().to_uncompressed() }
}

/// `G1Affine::from_uncompressed`: accepts the encodings of the points of the
/// prime-order subgroup, and no others.
#[verifier::external_body]
fn g1_check_uncompressed(bytes: &[u8; 96]) -> (r: Option<G1Point>)
    ensures
        r.is_some() <==> g1_valid(bytes@),
        r.is_some() ==> r.unwrap()@ == bytes@,
{
    let p: Option<bls12_381::G1Affine> = bls12_381::G1Affine::from_uncompressed(bytes).into();
    match p {
        Some(_) => Some(G1Point { bytes: *bytes }),
        None => None,
    }
}

/// `G1Affine::from_compressed`, then `to_uncompressed`: the point that the
/// 48 bytes encode, if they encode a point of the prime-order subgroup.
#[verifier::external_body]
fn g1_decompress(bytes: &[u8; 48]) -> (r: Option<G1Point>)
    ensures
        r.is_some() <==> g1_decompressed(bytes@).is_some(),
        r.is_some() ==> g1_decompressed(bytes@) == Some(r.unwrap()@),
{
    let p: Option<bls12_381::G1Affine> = bls12_381::G1Affine::from_compressed(bytes).into();
    match p {
        Some(a) => Some(G1Point { bytes: a.to_uncompressed() }),
        None => None,
    }
}

/// `G1Affine::to_compressed` of the point.
#[verifier::external_body]
fn g1_compress(p: &G1Point) -> (r: [u8; 48])
    ensures
        r@ == g1_compressed(p@),
{
    bls12_381::G1Affine::from_uncompressed_unchecked(&p.bytes).unwrap().to_compressed()
}

/// Addition of `G1Projective`, the sum brought back to affine form.
#[verifier::external_body]
fn g1_add_points(a: &G1Point, b: &G1Point) -> (r: G1Point)
    ensures
        r@ == g1_sum(a@, b@),
{
    let x = bls12_381::G1Affine::from_uncompressed_unchecked(&a.bytes).unwrap();
    let y = bls12_381::G1Affine::from_uncompressed_unchecked(&b.bytes).unwrap();
    let sum = bls12_381::G1Projective::from(x) + y;
    G1Point { bytes: bls12_381::G1Affine::from(sum).to_uncompressed() }
}

/// Subtraction of `G1Projective`, the difference brought back to affine form.
#[verifier::external_body]
fn g1_sub_points(a: &G1Point, b: &G1Point) -> (r: G1Point)
    ensures
        r@ == g1_difference(a@, b@),
{
    let x = bls12_381::G1Affine::from_uncompressed_unchecked(&a.bytes).unwrap();
    let y = bls12_381::G1Affine::from_uncompressed_unchecked(&b.bytes).unwrap();
    let diff = bls12_381::G1Projective::from(x) - y;
    G1Point { bytes: bls12_381::G1Affine::from(diff).to_uncompressed() }
}

/// Multiplication of a `G1Affine` by a `bls12_381::Scalar`, the product
/// brought back to affine form.
#[verifier::external_body]
fn g1_scale_point(p: &G1Point, k: &Scalar) -> (r: G1Point)
    ensures
        r@ == g1_scaled(p@, k.value()),
{
    let x = bls12_381::G1Affine::from_uncompressed_unchecked(&p.bytes).unwrap();
    let s = bls12_381::Scalar::from_bytes(&k.to_bytes_le()).unwrap();
    G1Point { bytes: bls12_381::G1Affine::from(x * s).to_uncompressed() }
}

/// `G2Affine::from_uncompressed`: accepts the encodings of the points of the
/// prime-order subgroup of G2, and no others.
#[verifier::external_body]
fn g2_check_uncompressed(bytes: &[u8; 192]) -> (r: Option<G2Point>)
    ensures
        r.is_some() <==> g2_valid(bytes@),
        r.is_some() ==> r.unwrap()@ == bytes@,
{
    let p: Option<bls12_381::G2Affine> = bls12_381::G2Affine::from_uncompressed(bytes).into();
    match p {
        Some(_) => Some(G2Point { bytes: *bytes }),
        None => None,
    }
}

/// `G2Affine::from_compressed`, then `to_uncompressed`.
#[verifier::external_body]
fn g2_decompress(bytes: &[u8; 96]) -> (r: Option<G2Point>)
    ensures
        r.is_some() <==> g2_decompressed(bytes@).is_some(),
        r.is_some() ==> g2_decompressed(bytes@) == Some(r.unwrap()@),
{
    let p: Option<bls12_381::G2Affine> = bls12_381::G2Affine::from_compressed(bytes).into();
    match p {
        Some(a) => Some(G2Point { bytes: a.to_uncompressed() }),
        None => None,
    }
}

/// `bls12_381::pairing` on two pairs of points, and the comparison of the two
/// results.
#[verifier::external_body]
fn pairings_equal(p1: &G1Point, q1: &G2Point, p2: &G1Point, q2: &G2Point) -> (r: bool)
    ensures
        r == pairings_agree(p1@, q1@, p2@, q2@),
{
    let a = bls12_381::G1Affine::from_uncompressed_unchecked(&p1.bytes).unwrap();
    let b = bls12_381::G2Affine::from_uncompressed_unchecked(&q1.bytes).unwrap();
    let c = bls12_381::G1Affine::from_uncompressed_unchecked(&p2.bytes).unwrap();
    let d = bls12_381::G2Affine::from_uncompressed_unchecked(&q2.bytes).unwrap();
    bls12_381::pairing(&a, &b) == bls12_381::pairing(&c, &d)
}

/// A copy of a byte slice.
pub fn copy_bytes(bytes: &[u8]) -> (r: Vec<u8>)
    ensures
        r@ == bytes@,
{
    let mut out: Vec<u8> = Vec::new();
    let mut i: usize = 0;
    while i < bytes.len()
        invariant
            i <= bytes.len(),
            out@ == bytes@.subrange(0, i as int),
        decreases bytes.len() - i,
    {
        out.push(bytes[i]);
        assert(bytes@.subrange(0, i + 1) =~= bytes@.subrange(0, i as int).push(bytes@[i as int]));
        i += 1;
    }
    assert(bytes@.subrange(0, bytes.len() as int) =~= bytes@);
    out
}

impl G1Point {
    #[verifier::type_invariant]
    spec fn on_group(self) -> bool {
        g1_valid(self.bytes@)
    }

    /// The neutral element.
    pub fn identity() -> (r: G1Point)
        ensures
            r@ == g1_identity_encoding(),
    {
        g1_neutral()
    }

    /// Reads a point from its 96-byte uncompressed encoding.
    pub fn from_uncompressed(bytes: &[u8]) -> (r: Result<G1Point, SerializationError>)
        ensures
            match r {
                Ok(p) => bytes@.len() == 96 && g1_valid(bytes@) && p@ == bytes@,
                Err(SerializationError::G1PointHasInvalidLength { bytes: b, length }) => bytes@.len()
                    != 96 && b@ == bytes@ && length == bytes@.len(),
                Err(SerializationError::CouldNotDeserializeG1Point { bytes: b }) => bytes@.len() == 96
                    && !g1_valid(bytes@) && b@ == bytes@,
                Err(_) => false,
            },
    {
        if bytes.len() != 96 {
            return Err(
                SerializationError::G1PointHasInvalidLength {
                    bytes: copy_bytes(bytes),
                    length: bytes.len(),
                },
            );
        }
        let mut buf: [u8; 96] = [0u8; 96];
        let mut i: usize = 0;
        while i < 96
            invariant
                i <= 96,
                bytes@.len() == 96,
                forall|j: int| 0 <= j < i ==> buf@[j] == bytes@[j],
            decreases 96 - i,
        {
            buf[i] = bytes[i];
            i += 1;
        }
        assert(buf@ =~= bytes@);
        match g1_check_uncompressed(&buf) {
            Some(p) => Ok(p),
            None => Err(SerializationError::CouldNotDeserializeG1Point { bytes: copy_bytes(bytes) }),
        }
    }

    /// Reads a point from its 48-byte compressed encoding.
    pub fn from_compressed(bytes: &[u8]) -> (r: Result<G1Point, SerializationError>)
        ensures
            match r {
                Ok(p) => bytes@.len() == 48 && g1_decompressed(bytes@) == Some(p@),
                Err(SerializationError::G1PointHasInvalidLength { bytes: b, length }) => bytes@.len()
                    != 48 && b@ == bytes@ && length == bytes@.len(),
                Err(SerializationError::CouldNotDeserializeG1Point { bytes: b }) => bytes@.len() == 48
                    && g1_decompressed(bytes@).is_none() && b@ == bytes@,
                Err(_) => false,
            },
    {
        if bytes.len() != 48 {
            return Err(
                SerializationError::G1PointHasInvalidLength {
                    bytes: copy_bytes(bytes),
                    length: bytes.len(),
                },
            );
        }
        let mut buf: [u8; 48] = [0u8; 48];
        let mut i: usize = 0;
        while i < 48
            invariant
                i <= 48,
                bytes@.len() == 48,
                forall|j: int| 0 <= j < i ==> buf@[j] == bytes@[j],
            decreases 48 - i,
        {
            buf[i] = bytes[i];
            i += 1;
        }
        assert(buf@ =~= bytes@);
        match g1_decompress(&buf) {
            Some(p) => Ok(p),
            None => Err(SerializationError::CouldNotDeserializeG1Point { bytes: copy_bytes(bytes) }),
        }
    }

    /// The 48-byte compressed encoding of the point.
    pub fn to_compressed(&self) -> (r: [u8; 48])
        ensures
            r@ == g1_compressed(self@),
    {
        g1_compress(self)
    }

    /// The 96-byte uncompressed encoding of the point.
    pub fn to_uncompressed(&self) -> (r: [u8; 96])
        ensures
            r@ == self@,
    {
        self.bytes
    }

    /// The sum of two points.
    pub fn add(&self, other: &G1Point) -> (r: G1Point)
        ensures
            r@ == g1_sum(self@, other@),
    {
        g1_add_points(self, other)
    }

    /// The difference of two points.
    pub fn sub(&self, other: &G1Point) -> (r: G1Point)
        ensures
            r@ == g1_difference(self@, other@),
    {
        g1_sub_points(self, other)
    }

    /// The point multiplied by a scalar.
    pub fn scale(&self, k: &Scalar) -> (r: G1Point)
        ensures
            r@ == g1_scaled(self@, k.value()),
    {
        g1_scale_point(self, k)
    }

    /// Whether two points are the same point.
    pub fn equals(&self, other: &G1Point) -> (r: bool)
        ensures
            r == (self@ == other@),
    {
        let mut i: usize = 0;
        while i < 96
            invariant
                i <= 96,
                forall|j: int| 0 <= j < i ==> self.bytes@[j] == other.bytes@[j],
            decreases 96 - i,
        {
            if self.bytes[i] != other.bytes[i] {
                return false;
            }
            i += 1;
        }
        assert(self.bytes@ =~= other.bytes@);
        true
    }
}

impl G2Point {
    #[verifier::type_invariant]
    spec fn on_group(self) -> bool {
        g2_valid(self.bytes@)
    }

    /// Reads a point from its 192-byte uncompressed encoding.
    pub fn from_uncompressed(bytes: &[u8]) -> (r: Option<G2Point>)
        ensures
            r.is_some() <==> bytes@.len() == 192 && g2_valid(bytes@),
            r.is_some() ==> r.unwrap()@ == bytes@,
    {
        if bytes.len() != 192 {
            return None;
        }
        let mut buf: [u8; 192] = [0u8; 192];
        let mut i: usize = 0;
        while i < 192
            invariant
                i <= 192,
                bytes@.len() == 192,
                forall|j: int| 0 <= j < i ==> buf@[j] == bytes@[j],
            decreases 192 - i,
        {
            buf[i] = bytes[i];
            i += 1;
        }
        assert(buf@ =~= bytes@);
        g2_check_uncompressed(&buf)
    }

    /// Reads a point from its 96-byte compressed encoding.
    pub fn from_compressed(bytes: &[u8]) -> (r: Option<G2Point>)
        ensures
            r.is_some() <==> bytes@.len() == 96 && g2_decompressed(bytes@).is_some(),
            r.is_some() ==> g2_decompressed(bytes@) == Some(r.unwrap()@),
    {
        if bytes.len() != 96 {
            return None;
        }
        let mut buf: [u8; 96] = [0u8; 96];
        let mut i: usize = 0;
        while i < 96
            invariant
                i <= 96,
                bytes@.len() == 96,
                forall|j: int| 0 <= j < i ==> buf@[j] == bytes@[j],
            decreases 96 - i,
        {
            buf[i] = bytes[i];
            i += 1;
        }
        assert(buf@ =~= bytes@);
        g2_decompress(&buf)
    }
}

/// Whether the pairing of `p1` with `q1` equals the pairing of `p2` with `q2`.
pub fn pairing_check(p1: &G1Point, q1: &G2Point, p2: &G1Point, q2: &G2Point) -> (r: bool)
    ensures
        r == pairings_agree(p1@, q1@, p2@, q2@),
{
    pairings_equal(p1, q1, p2, q2)
}

/// The linear combination of the points with the scalars.
pub fn g1_lincomb(points: &Vec<G1Point>, scalars: &Vec<Scalar>) -> (r: G1Point)
    requires
        points.len() == scalars.len(),
    ensures
        r@ == g1_lincomb_spec(encodings(points@), crate::field::values(scalars@)),
{
    let ghost ps = encodings(points@);
    let ghost ss = crate::field::values(scalars@);
    let mut acc = G1Point::identity();
    let mut i: usize = 0;
    assert(ps.subrange(0, 0).len() == 0);
    while i < points.len()
        invariant
            i <= points.len(),
            points.len() == scalars.len(),
            ps == encodings(points@),
            ss == crate::field::values(scalars@),
            acc@ == g1_lincomb_spec(ps.subrange(0, i as int), ss.subrange(0, i as int)),
        decreases points.len() - i,
    {
        let term = points[i].scale(&scalars[i]);
        acc = acc.add(&term);
        proof {
            let p1 = ps.subrange(0, i + 1);
            let s1 = ss.subrange(0, i + 1);
            assert(p1.drop_last() =~= ps.subrange(0, i as int));
            assert(s1.drop_last() =~= ss.subrange(0, i as int));
        }
        i += 1;
    }
    assert(ps.subrange(0, points.len() as int) =~= ps);
    assert(ss.subrange(0, points.len() as int) =~= ss);
    acc
}

} // verus!
