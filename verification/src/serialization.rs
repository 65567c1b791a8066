//! The byte encodings at the boundary of the library: scalars as 32 bytes
//! big-endian, blobs and cells as scalars one after the other, points of G1
//! as 48 bytes compressed.

use crate::errors::SerializationError;
use crate::field::{be_value, modulus, values, Scalar, BYTES_PER_FIELD_ELEMENT};
use crate::group::{copy_bytes, g1_compressed, g1_decompressed, G1Point};
use vstd::prelude::*;

verus! {

/// The 32 bytes of the scalar at position `i` of a byte string.
pub open spec fn scalar_chunk(bytes: Seq<u8>, i: int) -> Seq<u8> {
    bytes.subrange(32 * i, 32 * i + 32)
}

/// The numbers that the byte string holds, 32 bytes big-endian each.
pub open spec fn decoded_scalars(bytes: Seq<u8>) -> Seq<int> {
    Seq::new(bytes.len() / 32, |i: int| be_value(scalar_chunk(bytes, i)))
}

/// The number of bytes of the encoding of `count` scalars.
pub open spec fn scalars_size(count: int) -> int {
    32 * count
}

/// Whether the first `count` scalars of the byte string are below the field
/// order.
pub open spec fn canonical_upto(bytes: Seq<u8>, count: int) -> bool {
    forall|i: int| 0 <= i < count ==> be_value(#[trigger] scalar_chunk(bytes, i)) < modulus()
}

/// Whether the byte string is a sequence of encodings of scalars.
pub open spec fn encodes_scalars(bytes: Seq<u8>) -> bool {
    bytes.len() % 32 == 0 && canonical_upto(bytes, bytes.len() as int / 32)
}

/// Whether the byte string is the encoding of `count` scalars.
pub open spec fn encodes_scalars_exactly(bytes: Seq<u8>, count: int) -> bool {
    bytes.len() == 32 * count && canonical_upto(bytes, count)
}

/// Byte strings of one length, a multiple of 32, that hold the same numbers
/// are the same bytes.
pub proof fn lemma_decoded_scalars_injective(a: Seq<u8>, b: Seq<u8>)
    requires
        a.len() == b.len(),
        a.len() % 32 == 0,
        decoded_scalars(a) == decoded_scalars(b),
    ensures
        a == b,
{
    assert forall|p: int| 0 <= p < a.len() implies a[p] == b[p] by {
        let i = p / 32;
        let ca = scalar_chunk(a, i);
        let cb = scalar_chunk(b, i);
        assert(decoded_scalars(a)[i] == be_value(ca));
        assert(decoded_scalars(b)[i] == be_value(cb));
        crate::field::lemma_le_value_injective(ca.reverse(), cb.reverse());
        assert(ca.reverse()[31 - (p - 32 * i)] == ca[p - 32 * i]);
        assert(cb.reverse()[31 - (p - 32 * i)] == cb[p - 32 * i]);
        assert(ca[p - 32 * i] == a[p]);
        assert(cb[p - 32 * i] == b[p]);
    }
    assert(a =~= b);
}

/// Reads one scalar from its 32-byte big-endian encoding.
pub fn deserialize_scalar(bytes: &[u8]) -> (r: Result<Scalar, SerializationError>)
    ensures
        match r {
            Ok(s) => bytes@.len() == 32 && be_value(bytes@) < modulus() && s.value() == be_value(bytes@),
            Err(SerializationError::ScalarHasInvalidLength { bytes: b, length }) => bytes@.len() != 32
                && b@ == bytes@ && length == bytes@.len(),
            Err(SerializationError::CouldNotDeserializeScalar { bytes: b }) => bytes@.len() == 32
                && be_value(bytes@) >= modulus() && b@ == bytes@,
            Err(_) => false,
        },
{
    if bytes.len() != BYTES_PER_FIELD_ELEMENT {
        return Err(
            SerializationError::ScalarHasInvalidLength { bytes: copy_bytes(bytes), length: bytes.len() },
        );
    }
    let mut buf: [u8; 32] = [0u8; 32];
    let mut i: usize = 0;
    while i < 32
        invariant
            i <= 32,
            bytes@.len() == 32,
            forall|j: int| 0 <= j < i ==> buf@[j] == bytes@[j],
        decreases 32 - i,
    {
        buf[i] = bytes[i];
        i += 1;
    }
    assert(buf@ =~= bytes@);
    match Scalar::from_bytes_be(&buf) {
        Some(s) => Ok(s),
        None => Err(SerializationError::CouldNotDeserializeScalar { bytes: copy_bytes(bytes) }),
    }
}

/// The bytes of `bytes` from `start` up to `end`.
pub fn copy_range(bytes: &[u8], start: usize, end: usize) -> (r: Vec<u8>)
    requires
        start <= end <= bytes@.len(),
    ensures
        r@ == bytes@.subrange(start as int, end as int),
{
    let mut out: Vec<u8> = Vec::new();
    let mut i: usize = start;
    while i < end
        invariant
            start <= i <= end,
            end <= bytes@.len(),
            out@ == bytes@.subrange(start as int, i as int),
        decreases end - i,
    {
        out.push(bytes[i]);
        assert(bytes@.subrange(start as int, i + 1) =~= bytes@.subrange(start as int, i as int).push(
            bytes@[i as int],
        ));
        i += 1;
    }
    out
}

/// Reads a sequence of scalars, 32 bytes each. The first scalar that is not
/// below the field order is reported with its bytes.
pub fn deserialize_bytes_to_scalars(bytes: &[u8]) -> (r: Result<Vec<Scalar>, SerializationError>)
    ensures
        match r {
            Ok(v) => encodes_scalars(bytes@) && values(v@) == decoded_scalars(bytes@) && v.len()
                == bytes@.len() / 32,
            Err(SerializationError::ScalarHasInvalidLength { bytes: b, length }) => bytes@.len() % 32
                != 0 && b@ == bytes@ && length == bytes@.len(),
            Err(SerializationError::CouldNotDeserializeScalar { bytes: b }) => bytes@.len() % 32 == 0
                && exists|i: int|
                0 <= i < bytes@.len() / 32 && canonical_upto(bytes@, i) && b@ == scalar_chunk(bytes@, i)
                    && be_value(b@) >= modulus(),
            Err(_) => false,
        },
{
    if bytes.len() % BYTES_PER_FIELD_ELEMENT != 0 {
        return Err(
            SerializationError::ScalarHasInvalidLength { bytes: copy_bytes(bytes), length: bytes.len() },
        );
    }
    let count = bytes.len() / BYTES_PER_FIELD_ELEMENT;
    let mut out: Vec<Scalar> = Vec::new();
    let mut i: usize = 0;
    while i < count
        invariant
            i <= count,
            count == bytes@.len() / 32,
            bytes@.len() % 32 == 0,
            bytes@.len() == 32 * count,
            bytes@.len() <= usize::MAX,
            out.len() == i,
            canonical_upto(bytes@, i as int),
            forall|k: int| 0 <= k < i ==> (#[trigger] out@[k]).value() == be_value(scalar_chunk(bytes@, k)),
        decreases count - i,
    {
        let chunk = copy_range(bytes, 32 * i, 32 * i + 32);
        match deserialize_scalar(chunk.as_slice()) {
            Ok(s) => {
                out.push(s);
            },
            Err(e) => {
                assert(chunk@ == scalar_chunk(bytes@, i as int));
                return Err(e);
            },
        }
        i += 1;
    }
    assert(values(out@) =~= decoded_scalars(bytes@));
    Ok(out)
}

/// Writes a sequence of scalars, 32 bytes big-endian each.
pub fn serialize_scalars(scalars: &Vec<Scalar>) -> (r: Vec<u8>)
    requires
        32 * scalars.len() <= usize::MAX,
    ensures
        r.len() == 32 * scalars.len(),
        encodes_scalars(r@),
        decoded_scalars(r@) == values(scalars@),
{
    let mut out: Vec<u8> = Vec::new();
    let mut i: usize = 0;
    while i < scalars.len()
        invariant
            i <= scalars.len(),
            32 * scalars.len() <= usize::MAX,
            out.len() == 32 * i,
            forall|k: int| 0 <= k < i ==> be_value(#[trigger] scalar_chunk(out@, k)) == scalars@[k].value(),
        decreases scalars.len() - i,
    {
        let enc = scalars[i].to_bytes_be();
        let ghost before = out@;
        let mut j: usize = 0;
        while j < 32
            invariant
                j <= 32,
                out.len() == 32 * i + j,
                out@ == before + enc@.subrange(0, j as int),
            decreases 32 - j,
        {
            out.push(enc[j]);
            assert(enc@.subrange(0, j + 1) =~= enc@.subrange(0, j as int).push(enc@[j as int]));
            j += 1;
        }
        proof {
            assert(enc@.subrange(0, 32) =~= enc@);
            assert forall|k: int| 0 <= k <= i implies be_value(#[trigger] scalar_chunk(out@, k))
                == scalars@[k].value() by {
                if k < i {
                    assert(scalar_chunk(out@, k) =~= scalar_chunk(before, k));
                } else {
                    assert(scalar_chunk(out@, k) =~= enc@);
                }
            }
        }
        i += 1;
    }
    proof {
        assert forall|k: int| 0 <= k < scalars.len() implies be_value(#[trigger] scalar_chunk(out@, k))
            < modulus() by {
            scalars@[k].lemma_value_range();
        }
        assert(decoded_scalars(out@) =~= values(scalars@));
    }
    out
}

/// Reads a point of G1 from its 48-byte compressed encoding.
pub fn deserialize_compressed_g1(bytes: &[u8]) -> (r: Result<G1Point, SerializationError>)
    ensures
        match r {
            Ok(p) => bytes@.len() == 48 && g1_decompressed(bytes@) == Some(p@),
            Err(SerializationError::G1PointHasInvalidLength { bytes: b, length }) => bytes@.len() != 48
                && b@ == bytes@ && length == bytes@.len(),
            Err(SerializationError::CouldNotDeserializeG1Point { bytes: b }) => bytes@.len() == 48
                && g1_decompressed(bytes@).is_none() && b@ == bytes@,
            Err(_) => false,
        },
{
    G1Point::from_compressed(bytes)
}

/// Writes a point of G1 in its 48-byte compressed encoding.
pub fn serialize_g1_compressed(point: &G1Point) -> (r: [u8; 48])
    ensures
        r@ == g1_compressed(point@),
{
    point.to_compressed()
}

} // verus!
