//! Checks on the shape of what callers hand in: sizes of byte strings,
//! ranges of indices, repeated indices. Each search returns the first
//! position that fails, so that the error names it.

use crate::errors::SerializationError;
use crate::field::{be_value, modulus, values, Scalar};
use crate::group::{encodings, g1_decompressed, G1Point};
use crate::prover::byte_views;
use crate::serialization::{
    canonical_upto, decoded_scalars, deserialize_bytes_to_scalars, deserialize_compressed_g1,
    encodes_scalars_exactly, scalar_chunk, scalars_size,
};
use vstd::prelude::*;

verus! {

/// Whether `i` is the first position at which `bad` holds.
pub open spec fn first_bad(i: int, bad: spec_fn(int) -> bool) -> bool {
    0 <= i && bad(i) && forall|j: int| 0 <= j < i ==> !#[trigger] bad(j)
}

/// Whether the byte string at position `i` has another length than expected.
pub open spec fn wrong_size_at(bufs: Seq<Seq<u8>>, expected: int, i: int) -> bool {
    0 <= i < bufs.len() && bufs[i].len() != expected
}

/// Whether the index at position `i` is not below the bound.
pub open spec fn out_of_range_at(indices: Seq<u64>, bound: int, i: int) -> bool {
    0 <= i < indices.len() && indices[i] >= bound
}

/// Whether the index at position `i` occurred at an earlier position.
pub open spec fn repeated_at(indices: Seq<u64>, i: int) -> bool {
    0 <= i < indices.len() && exists|j: int| 0 <= j < i && indices[j] == indices[i]
}

/// Whether no index occurs twice.
pub open spec fn all_distinct(indices: Seq<u64>) -> bool {
    forall|i: int, j: int| 0 <= i < j < indices.len() ==> indices[i] != indices[j]
}

/// Whether the byte string at position `i` is not the compressed encoding
/// of a point of G1.
pub open spec fn no_point_at(bufs: Seq<Seq<u8>>, i: int) -> bool {
    0 <= i < bufs.len() && !(bufs[i].len() == 48 && g1_decompressed(bufs[i]).is_some())
}

/// Whether the byte string at position `i` is not the encoding of `count`
/// scalars.
pub open spec fn no_scalars_at(bufs: Seq<Seq<u8>>, count: int, i: int) -> bool {
    0 <= i < bufs.len() && !encodes_scalars_exactly(bufs[i], count)
}

/// Whether `e` is the error that the byte string `b`, which does not encode
/// a point of G1, is rejected with.
pub open spec fn point_error(e: SerializationError, b: Seq<u8>) -> bool {
    match e {
        SerializationError::G1PointHasInvalidLength { bytes, length } => b.len() != 48 && bytes@ == b
            && length == b.len(),
        SerializationError::CouldNotDeserializeG1Point { bytes } => b.len() == 48 && g1_decompressed(
            b,
        ).is_none() && bytes@ == b,
        _ => false,
    }
}

/// Whether `e` is the error that the byte string `b`, whose length is a
/// multiple of 32 and which holds a number that is not below the field
/// order, is rejected with: it names the first such number.
pub open spec fn scalar_error(e: SerializationError, b: Seq<u8>) -> bool {
    match e {
        SerializationError::CouldNotDeserializeScalar { bytes } => exists|c: int|
            0 <= c < b.len() / 32 && canonical_upto(b, c) && bytes@ == scalar_chunk(b, c) && be_value(
                bytes@,
            ) >= modulus(),
        _ => false,
    }
}

/// The points that a sequence of compressed encodings holds.
pub open spec fn decoded_points(bufs: Seq<Seq<u8>>) -> Seq<Seq<u8>> {
    Seq::new(bufs.len(), |i: int| g1_decompressed(bufs[i]).unwrap())
}

/// The scalars that a sequence of cells holds.
pub open spec fn decoded_cells(bufs: Seq<Seq<u8>>) -> Seq<Seq<int>> {
    Seq::new(bufs.len(), |i: int| decoded_scalars(bufs[i]))
}

/// The values of a sequence of vectors of scalars.
pub open spec fn values_of_all(cells: Seq<Vec<Scalar>>) -> Seq<Seq<int>> {
    Seq::new(cells.len(), |i: int| values(cells[i]@))
}

/// The first byte string whose length is not the expected one.
pub fn find_wrong_size(bufs: &Vec<Vec<u8>>, expected: usize) -> (r: Option<usize>)
    ensures
        match r {
            Some(i) => first_bad(i as int, |j: int| wrong_size_at(byte_views(bufs@), expected as int, j)),
            None => forall|j: int| !wrong_size_at(byte_views(bufs@), expected as int, j),
        },
{
    let mut i: usize = 0;
    while i < bufs.len()
        invariant
            i <= bufs.len(),
            forall|j: int| 0 <= j < i ==> !wrong_size_at(byte_views(bufs@), expected as int, j),
        decreases bufs.len() - i,
    {
        if bufs[i].len() != expected {
            return Some(i);
        }
        i += 1;
    }
    None
}

/// The first index that is not below the bound.
pub fn find_out_of_range(indices: &Vec<u64>, bound: u64) -> (r: Option<usize>)
    ensures
        match r {
            Some(i) => first_bad(i as int, |j: int| out_of_range_at(indices@, bound as int, j)),
            None => forall|j: int| !out_of_range_at(indices@, bound as int, j),
        },
{
    let mut i: usize = 0;
    while i < indices.len()
        invariant
            i <= indices.len(),
            forall|j: int| 0 <= j < i ==> !out_of_range_at(indices@, bound as int, j),
        decreases indices.len() - i,
    {
        if indices[i] >= bound {
            return Some(i);
        }
        i += 1;
    }
    None
}

/// Whether no index occurs twice.
pub fn are_cell_indices_unique(indices: &Vec<u64>) -> (r: bool)
    ensures
        r == all_distinct(indices@),
{
    let mut i: usize = 0;
    while i < indices.len()
        invariant
            i <= indices.len(),
            forall|a: int, b: int| 0 <= a < b < i ==> indices@[a] != indices@[b],
        decreases indices.len() - i,
    {
        let mut j: usize = 0;
        while j < i
            invariant
                j <= i,
                i < indices.len(),
                forall|a: int| 0 <= a < j ==> indices@[a] != indices@[i as int],
            decreases i - j,
        {
            if indices[j] == indices[i] {
                return false;
            }
            j += 1;
        }
        i += 1;
    }
    true
}

/// Reads a sequence of points of G1 from their compressed encodings. The
/// first byte string that holds no point is reported.
pub fn deserialize_points(bufs: &Vec<Vec<u8>>) -> (r: Result<Vec<G1Point>, SerializationError>)
    ensures
        match r {
            Ok(v) => (forall|j: int| !no_point_at(byte_views(bufs@), j)) && encodings(v@)
                == decoded_points(byte_views(bufs@)) && v.len() == bufs.len(),
            Err(e) => exists|i: int|
                first_bad(i, |j: int| no_point_at(byte_views(bufs@), j)) && point_error(
                    e,
                    byte_views(bufs@)[i],
                ),
        },
{
    let ghost bv = byte_views(bufs@);
    let mut out: Vec<G1Point> = Vec::new();
    let mut i: usize = 0;
    while i < bufs.len()
        invariant
            i <= bufs.len(),
            bv == byte_views(bufs@),
            out.len() == i,
            forall|j: int| 0 <= j < i ==> !no_point_at(bv, j),
            forall|j: int| 0 <= j < i ==> (#[trigger] out@[j])@ == g1_decompressed(bv[j]).unwrap(),
        decreases bufs.len() - i,
    {
        match deserialize_compressed_g1(bufs[i].as_slice()) {
            Ok(p) => {
                out.push(p);
            },
            Err(e) => {
                proof {
                    assert(first_bad(i as int, |j: int| no_point_at(bv, j)));
                    assert(point_error(e, bv[i as int]));
                }
                return Err(e);
            },
        }
        i += 1;
    }
    assert(encodings(out@) =~= decoded_points(bv));
    Ok(out)
}

/// Reads the scalars of a sequence of cells, each of which has the length
/// of `count` scalars. The first number that is not below the field order
/// is reported.
pub fn deserialize_cells(bufs: &Vec<Vec<u8>>, count: usize) -> (r: Result<
    Vec<Vec<Scalar>>,
    SerializationError,
>)
    requires
        forall|j: int| !wrong_size_at(byte_views(bufs@), scalars_size(count as int), j),
    ensures
        match r {
            Ok(v) => (forall|j: int| !no_scalars_at(byte_views(bufs@), count as int, j))
                && values_of_all(v@) == decoded_cells(byte_views(bufs@)) && v.len() == bufs.len()
                && forall|j: int| 0 <= j < v.len() ==> (#[trigger] v@[j]).len() == count,
            Err(e) => exists|i: int|
                first_bad(i, |j: int| no_scalars_at(byte_views(bufs@), count as int, j))
                    && scalar_error(e, byte_views(bufs@)[i]),
        },
{
    let ghost bv = byte_views(bufs@);
    let mut out: Vec<Vec<Scalar>> = Vec::new();
    let mut i: usize = 0;
    while i < bufs.len()
        invariant
            i <= bufs.len(),
            bv == byte_views(bufs@),
            forall|j: int| !wrong_size_at(bv, scalars_size(count as int), j),
            out.len() == i,
            forall|j: int| 0 <= j < i ==> !no_scalars_at(bv, count as int, j),
            forall|j: int| 0 <= j < i ==> values((#[trigger] out@[j])@) == decoded_scalars(bv[j]),
            forall|j: int| 0 <= j < i ==> (#[trigger] out@[j]).len() == count,
        decreases bufs.len() - i,
    {
        proof {
            assert(!wrong_size_at(bv, scalars_size(count as int), i as int));
            assert(bv[i as int].len() == 32 * count);
        }
        match deserialize_bytes_to_scalars(bufs[i].as_slice()) {
            Ok(s) => {
                out.push(s);
            },
            Err(e) => {
                proof {
                    assert(first_bad(i as int, |j: int| no_scalars_at(bv, count as int, j)));
                    assert(scalar_error(e, bv[i as int]));
                }
                return Err(e);
            },
        }
        i += 1;
    }
    assert(values_of_all(out@) =~= decoded_cells(bv));
    Ok(out)
}

} // verus!
