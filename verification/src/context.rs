//! The context of data availability sampling: the prover and the verifier
//! over one trusted setup, with the operations on blobs and cells.

use crate::domain::{is_pow2, max_domain_size};
use crate::errors::{ProverError, VerifierError};
use crate::group::{encodings, g2_decompressed, G1Point, G2Point};
use crate::prover::{blob_error, byte_views, compressed_all, views48, ProverContext};
use crate::serialization::encodes_scalars_exactly;
use crate::validation::{decoded_points, deserialize_points, no_point_at};
use crate::verification::VerifierContext;
use vstd::prelude::*;

verus! {

/// The number of scalars of a blob.
pub const FIELD_ELEMENTS_PER_BLOB: usize = 4096;

/// The number of scalars of a cell.
pub const FIELD_ELEMENTS_PER_CELL: usize = 64;

/// How many times larger than the blob its extension is.
pub const EXPANSION_FACTOR: usize = 2;

/// The number of cells of a blob and its extension.
pub const CELLS_PER_EXT_BLOB: usize = 128;

/// The number of bytes of a blob.
pub const BYTES_PER_BLOB: usize = 131072;

/// The number of bytes of a cell.
pub const BYTES_PER_CELL: usize = 2048;

/// The number of bytes of a commitment, and of a proof.
pub const BYTES_PER_COMMITMENT: usize = 48;

/// The points of a trusted setup in monomial form: the powers of the secret
/// in G1 and in G2.
pub struct TrustedSetup {
    pub g1_monomial: Vec<G1Point>,
    pub g2_monomial: Vec<G2Point>,
}

/// Whether the byte string at position `i` is not the compressed encoding
/// of a point of G2.
pub open spec fn no_g2_point_at(bufs: Seq<Seq<u8>>, i: int) -> bool {
    0 <= i < bufs.len() && !(bufs[i].len() == 96 && g2_decompressed(bufs[i]).is_some())
}

impl TrustedSetup {
    /// Reads a setup from the compressed encodings of its points. Every
    /// byte string has to be the encoding of a point.
    pub fn from_compressed(g1: &Vec<Vec<u8>>, g2: &Vec<Vec<u8>>) -> (r: Option<TrustedSetup>)
        ensures
            r.is_some() <==> (forall|j: int| !no_point_at(byte_views(g1@), j)) && (forall|j: int|
                !no_g2_point_at(byte_views(g2@), j)),
            r.is_some() ==> encodings(r.unwrap().g1_monomial@) == decoded_points(byte_views(g1@))
                && r.unwrap().g2_monomial.len() == g2.len() && forall|j: int|
                0 <= j < g2.len() ==> g2_decompressed(byte_views(g2@)[j]) == Some(
                    (#[trigger] r.unwrap().g2_monomial@[j])@,
                ),
    {
        let g1_monomial = match deserialize_points(g1) {
            Ok(v) => v,
            Err(_) => { return None; },
        };
        let mut g2_monomial: Vec<G2Point> = Vec::new();
        let mut i: usize = 0;
        while i < g2.len()
            invariant
                i <= g2.len(),
                g2_monomial.len() == i,
                forall|j: int| 0 <= j < i ==> !no_g2_point_at(byte_views(g2@), j),
                forall|j: int|
                    0 <= j < i ==> g2_decompressed(byte_views(g2@)[j]) == Some(
                        (#[trigger] g2_monomial@[j])@,
                    ),
            decreases g2.len() - i,
        {
            match G2Point::from_compressed(g2[i].as_slice()) {
                Some(p) => {
                    g2_monomial.push(p);
                },
                None => {
                    assert(no_g2_point_at(byte_views(g2@), i as int));
                    return None;
                },
            }
            i += 1;
        }
        Some(TrustedSetup { g1_monomial, g2_monomial })
    }
}

/// The prover and the verifier over one trusted setup.
pub struct DASContext {
    pub prover_ctx: ProverContext,
    pub verifier_ctx: VerifierContext,
}

impl DASContext {
    pub open spec fn wf(&self) -> bool {
        &&& self.prover_ctx.wf()
        &&& self.verifier_ctx.wf()
        &&& self.prover_ctx.blob_len == self.verifier_ctx.blob_len
        &&& self.prover_ctx.cell_len == self.verifier_ctx.cell_len
    }

    /// The context for blobs of 4096 scalars and cells of 64 scalars, which
    /// takes a setup of at least 4096 points of G1 and 65 points of G2.
    pub fn new(setup: &TrustedSetup) -> (r: Option<DASContext>)
        ensures
            r.is_some() <==> 64 * 4096 <= usize::MAX && setup.g1_monomial.len() >= 4096
                && setup.g2_monomial.len() > 64,
            r.is_some() ==> r.unwrap().wf() && r.unwrap().prover_ctx.blob_len == 4096
                && r.unwrap().prover_ctx.cell_len == 64,
    {
        proof {
            reveal_with_fuel(is_pow2, 14);
            assert(is_pow2(4096));
            assert(is_pow2(64));
        }
        Self::with_dimensions(setup, FIELD_ELEMENTS_PER_BLOB, FIELD_ELEMENTS_PER_CELL)
    }

    /// The context for blobs of `blob_len` scalars and cells of `cell_len`
    /// scalars. Both are powers of two; the setup has a point of G1 for each
    /// scalar of a blob, and a point of G2 for each scalar of a cell and one
    /// more.
    pub fn with_dimensions(setup: &TrustedSetup, blob_len: usize, cell_len: usize) -> (r: Option<
        DASContext,
    >)
        ensures
            r.is_some() <==> is_pow2(blob_len as int) && is_pow2(cell_len as int) && cell_len
                <= blob_len && 2 * blob_len <= max_domain_size() && 64 * blob_len <= usize::MAX
                && setup.g1_monomial.len() >= blob_len && setup.g2_monomial.len() > cell_len,
            r.is_some() ==> r.unwrap().wf() && r.unwrap().prover_ctx.blob_len == blob_len
                && r.unwrap().prover_ctx.cell_len == cell_len && r.unwrap().prover_ctx.srs()
                == encodings(setup.g1_monomial@).subrange(0, blob_len as int),
    {
        let verifier_ctx = match VerifierContext::new(
            &setup.g1_monomial,
            &setup.g2_monomial,
            blob_len,
            cell_len,
        ) {
            Some(v) => v,
            None => { return None; },
        };
        let prover_ctx = match ProverContext::new(&setup.g1_monomial, blob_len, cell_len) {
            Some(p) => p,
            None => { return None; },
        };
        Some(DASContext { prover_ctx, verifier_ctx })
    }

    /// The prover.
    pub fn prover_ctx(&self) -> (r: &ProverContext)
        ensures
            r == &self.prover_ctx,
    {
        &self.prover_ctx
    }

    /// The verifier.
    pub fn verifier_ctx(&self) -> (r: &VerifierContext)
        ensures
            r == &self.verifier_ctx,
    {
        &self.verifier_ctx
    }

    /// The commitment to a blob.
    pub fn blob_to_kzg_commitment(&self, blob: &[u8]) -> (r: Result<[u8; 48], ProverError>)
        requires
            self.wf(),
        ensures
            match r {
                Ok(c) => encodes_scalars_exactly(blob@, self.prover_ctx.blob_len as int) && c@
                    == crate::group::g1_compressed(
                    self.prover_ctx.commitment_spec(self.prover_ctx.blob_poly_spec(blob@)),
                ),
                Err(ProverError::Serialization(e)) => blob_error(
                    e,
                    blob@,
                    self.prover_ctx.blob_len as int,
                ),
                Err(_) => false,
            },
    {
        self.prover_ctx.blob_to_kzg_commitment(blob)
    }

    /// The cells of the extension of a blob, and the proof of each cell.
    pub fn compute_cells_and_kzg_proofs(&self, blob: &[u8]) -> (r: Result<
        (Vec<Vec<u8>>, Vec<[u8; 48]>),
        ProverError,
    >)
        requires
            self.wf(),
        ensures
            match r {
                Ok((cells, proofs)) => encodes_scalars_exactly(
                    blob@,
                    self.prover_ctx.blob_len as int,
                ) && self.prover_ctx.cells_encode(
                    byte_views(cells@),
                    self.prover_ctx.blob_poly_spec(blob@),
                ) && views48(proofs@) == compressed_all(
                    self.prover_ctx.proofs_spec(self.prover_ctx.blob_poly_spec(blob@)),
                ) && proofs.len() == self.prover_ctx.num_cells(),
                Err(ProverError::Serialization(e)) => blob_error(
                    e,
                    blob@,
                    self.prover_ctx.blob_len as int,
                ),
                Err(_) => false,
            },
    {
        self.prover_ctx.compute_cells_and_kzg_proofs(blob)
    }

    /// Verifies the proof of one cell against a commitment.
    pub fn verify_cell_kzg_proof(
        &self,
        commitment_bytes: &[u8],
        cell_index: u64,
        cell: &[u8],
        proof_bytes: &[u8],
    ) -> (r: Result<(), VerifierError>)
        requires
            self.wf(),
        ensures
            self.verifier_ctx.batch_outcome(
                r,
                seq![commitment_bytes@],
                seq![0u64],
                seq![cell_index],
                seq![cell@],
                seq![proof_bytes@],
            ),
    {
        self.verifier_ctx.verify_cell_kzg_proof(commitment_bytes, cell_index, cell, proof_bytes)
    }

    /// Verifies the proofs of many cells at once.
    pub fn verify_cell_kzg_proof_batch(
        &self,
        row_commitments_bytes: Vec<Vec<u8>>,
        row_indices: Vec<u64>,
        cell_indices: Vec<u64>,
        cells: Vec<Vec<u8>>,
        proofs_bytes: Vec<Vec<u8>>,
    ) -> (r: Result<(), VerifierError>)
        requires
            self.wf(),
        ensures
            self.verifier_ctx.batch_outcome(
                r,
                byte_views(row_commitments_bytes@),
                row_indices@,
                cell_indices@,
                byte_views(cells@),
                byte_views(proofs_bytes@),
            ),
    {
        self.verifier_ctx.verify_cell_kzg_proof_batch(
            row_commitments_bytes,
            row_indices,
            cell_indices,
            cells,
            proofs_bytes,
        )
    }

    /// Recovers all cells of a blob, and the proofs of all cells, from at
    /// least half of the cells.
    pub fn recover_cells_and_proofs(&self, cell_indices: Vec<u64>, cells: Vec<Vec<u8>>) -> (r: Result<
        (Vec<Vec<u8>>, Vec<[u8; 48]>),
        ProverError,
    >)
        requires
            self.wf(),
        ensures
            match r {
                Ok((all_cells, proofs)) => self.prover_ctx.recovers(cell_indices@, byte_views(cells@))
                    && self.prover_ctx.cells_encode(
                    byte_views(all_cells@),
                    self.prover_ctx.recovered_poly(cell_indices@, byte_views(cells@)),
                ) && views48(proofs@) == compressed_all(
                    self.prover_ctx.proofs_spec(
                        self.prover_ctx.recovered_poly(cell_indices@, byte_views(cells@)),
                    ),
                ) && proofs.len() == self.prover_ctx.num_cells(),
                Err(ProverError::RecoveryFailure(e)) => self.prover_ctx.recover_outcome(
                    Err::<Seq<int>, VerifierError>(e),
                    cell_indices@,
                    byte_views(cells@),
                ),
                Err(_) => false,
            },
    {
        self.prover_ctx.recover_cells_and_proofs(cell_indices, cells)
    }
}

} // verus!
