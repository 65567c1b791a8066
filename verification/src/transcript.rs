//! The challenge of batch verification: a scalar derived, by SHA-256, from
//! everything that the batch holds, so that whoever made the batch could not
//! choose its contents knowing the challenge.

use crate::field::{le_value, modulus, Scalar};
use sha2::{Digest, Sha256};
use vstd::prelude::*;

verus! {

/// The SHA-256 digest of a byte string.
pub uninterp spec fn sha256_digest(data: Seq<u8>) -> Seq<u8>;

/// `sha2::Sha256::digest`: the 32-byte SHA-256 digest of the data.
#[verifier::external_body]
fn sha256(data: &[u8]) -> (r: [u8; 32])
    ensures
        r@ == sha256_digest(data@),
{
    Sha256::digest(data).into()
}

/// The eight bytes of `x`, most significant first.
pub open spec fn u64_be_bytes(x: u64) -> Seq<u8> {
    seq![
        ((x as int / 0x1_00_0000_0000_0000) % 256) as u8,
        ((x as int / 0x1_0000_0000_0000) % 256) as u8,
        ((x as int / 0x1_00_0000_0000) % 256) as u8,
        ((x as int / 0x1_0000_0000) % 256) as u8,
        ((x as int / 0x1_00_0000) % 256) as u8,
        ((x as int / 0x1_0000) % 256) as u8,
        ((x as int / 0x1_00) % 256) as u8,
        (x as int % 256) as u8,
    ]
}

/// One entry of a batch in the transcript: the commitment, the index of the
/// cell, the cell and the proof.
pub open spec fn entry_bytes(commitment: Seq<u8>, index: u64, cell: Seq<u8>, proof: Seq<u8>) -> Seq<u8> {
    commitment + u64_be_bytes(index) + cell + proof
}

/// The transcript of the first `count` entries of a batch: the number of
/// entries of the whole batch, then the entries one after the other.
pub open spec fn transcript_spec(
    commitments: Seq<Seq<u8>>,
    rows: Seq<u64>,
    cols: Seq<u64>,
    cells: Seq<Seq<u8>>,
    proofs: Seq<Seq<u8>>,
    count: nat,
) -> Seq<u8>
    decreases count,
{
    if count == 0 {
        u64_be_bytes(cols.len() as u64)
    } else {
        let i = (count - 1) as int;
        transcript_spec(commitments, rows, cols, cells, proofs, (count - 1) as nat) + entry_bytes(
            commitments[rows[i] as int],
            cols[i],
            cells[i],
            proofs[i],
        )
    }
}

/// The scalar that a transcript gives: its digest, read as a number with the
/// least significant byte first, reduced.
pub open spec fn challenge_of(transcript: Seq<u8>) -> int {
    le_value(sha256_digest(transcript) + Seq::new(32, |i: int| 0u8)) % modulus()
}

/// The challenge of a batch.
pub open spec fn challenge_spec(
    commitments: Seq<Seq<u8>>,
    rows: Seq<u64>,
    cols: Seq<u64>,
    cells: Seq<Seq<u8>>,
    proofs: Seq<Seq<u8>>,
) -> int {
    challenge_of(transcript_spec(commitments, rows, cols, cells, proofs, cols.len()))
}

/// Appends the eight bytes of `x`, most significant first.
pub fn push_u64(out: &mut Vec<u8>, x: u64)
    ensures
        final(out)@ == old(out)@ + u64_be_bytes(x),
{
    let ghost before = out@;
    out.push(((x / 0x1_00_0000_0000_0000) % 256) as u8);
    out.push(((x / 0x1_0000_0000_0000) % 256) as u8);
    out.push(((x / 0x1_00_0000_0000) % 256) as u8);
    out.push(((x / 0x1_0000_0000) % 256) as u8);
    out.push(((x / 0x1_00_0000) % 256) as u8);
    out.push(((x / 0x1_0000) % 256) as u8);
    out.push(((x / 0x1_00) % 256) as u8);
    out.push((x % 256) as u8);
    assert(out@ =~= before + u64_be_bytes(x));
}

/// Appends a byte string.
pub fn push_bytes(out: &mut Vec<u8>, bytes: &Vec<u8>)
    ensures
        final(out)@ == old(out)@ + bytes@,
{
    let ghost before = out@;
    let mut i: usize = 0;
    while i < bytes.len()
        invariant
            i <= bytes.len(),
            out@ == before + bytes@.subrange(0, i as int),
        decreases bytes.len() - i,
    {
        out.push(bytes[i]);
        assert(bytes@.subrange(0, i + 1) =~= bytes@.subrange(0, i as int).push(bytes@[i as int]));
        i += 1;
    }
    assert(bytes@.subrange(0, bytes.len() as int) =~= bytes@);
}

/// The challenge that a transcript gives.
pub fn challenge_from_transcript(transcript: &Vec<u8>) -> (r: Scalar)
    ensures
        r.value() == challenge_of(transcript@),
{
    let digest = sha256(transcript.as_slice());
    let mut wide: [u8; 64] = [0u8; 64];
    let mut i: usize = 0;
    while i < 32
        invariant
            i <= 32,
            forall|j: int| 0 <= j < i ==> wide@[j] == digest@[j],
            forall|j: int| i <= j < 64 ==> wide@[j] == 0u8,
        decreases 32 - i,
    {
        wide[i] = digest[i];
        i += 1;
    }
    assert(wide@ =~= digest@ + Seq::new(32, |i: int| 0u8));
    Scalar::from_bytes_wide(&wide)
}

/// The challenge of a batch whose row indices are below the number of
/// commitments.
pub fn compute_challenge(
    commitments: &Vec<Vec<u8>>,
    rows: &Vec<u64>,
    cols: &Vec<u64>,
    cells: &Vec<Vec<u8>>,
    proofs: &Vec<Vec<u8>>,
) -> (r: Scalar)
    requires
        rows.len() == cols.len(),
        cells.len() == cols.len(),
        proofs.len() == cols.len(),
        forall|i: int| 0 <= i < rows.len() ==> (#[trigger] rows@[i]) < commitments.len(),
    ensures
        r.value() == challenge_spec(
            crate::prover::byte_views(commitments@),
            rows@,
            cols@,
            crate::prover::byte_views(cells@),
            crate::prover::byte_views(proofs@),
        ),
{
    let ghost cm = crate::prover::byte_views(commitments@);
    let ghost ce = crate::prover::byte_views(cells@);
    let ghost pr = crate::prover::byte_views(proofs@);
    let mut transcript: Vec<u8> = Vec::new();
    push_u64(&mut transcript, cols.len() as u64);
    assert(transcript@ =~= transcript_spec(cm, rows@, cols@, ce, pr, 0));
    let mut i: usize = 0;
    while i < cols.len()
        invariant
            i <= cols.len(),
            rows.len() == cols.len(),
            cells.len() == cols.len(),
            proofs.len() == cols.len(),
            forall|j: int| 0 <= j < rows.len() ==> (#[trigger] rows@[j]) < commitments.len(),
            cm == crate::prover::byte_views(commitments@),
            ce == crate::prover::byte_views(cells@),
            pr == crate::prover::byte_views(proofs@),
            transcript@ == transcript_spec(cm, rows@, cols@, ce, pr, i as nat),
        decreases cols.len() - i,
    {
        let ghost before = transcript@;
        push_bytes(&mut transcript, &commitments[rows[i] as usize]);
        push_u64(&mut transcript, cols[i]);
        push_bytes(&mut transcript, &cells[i]);
        push_bytes(&mut transcript, &proofs[i]);
        proof {
            assert(transcript@ =~= before + entry_bytes(
                cm[rows@[i as int] as int],
                cols@[i as int],
                ce[i as int],
                pr[i as int],
            ));
        }
        i += 1;
    }
    challenge_from_transcript(&transcript)
}

} // verus!
