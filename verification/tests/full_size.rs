use peerdas_kzg::context::{BYTES_PER_CELL, CELLS_PER_EXT_BLOB, FIELD_ELEMENTS_PER_BLOB, FIELD_ELEMENTS_PER_CELL};
use peerdas_kzg::errors::VerifierError;
use peerdas_kzg::field::Scalar;
use peerdas_kzg::group::{G1Point, G2Point};
use peerdas_kzg::verification::VerifierContext;

/// The verifier for blobs of 4096 scalars, over a setup whose secret is
/// known. The verifier reads the points of G2 at the powers 0 and 64 only.
fn full_size_context() -> VerifierContext {
    let tau = bls12_381::Scalar::from(0x0123_4567_89ab_cdefu64);
    let mut power = bls12_381::Scalar::one();
    let mut g1 = Vec::new();
    for _ in 0..FIELD_ELEMENTS_PER_CELL {
        let p = bls12_381::G1Affine::from(bls12_381::G1Projective::generator() * power);
        g1.push(G1Point::from_uncompressed(&p.to_uncompressed()).unwrap());
        power *= tau;
    }
    let generator = G2Point::from_uncompressed(&bls12_381::G2Affine::generator().to_uncompressed()).unwrap();
    let last = bls12_381::G2Affine::from(bls12_381::G2Projective::generator() * power);
    let mut g2 = vec![generator; FIELD_ELEMENTS_PER_CELL];
    g2.push(G2Point::from_uncompressed(&last.to_uncompressed()).unwrap());
    VerifierContext::new(&g1, &g2, FIELD_ELEMENTS_PER_BLOB, FIELD_ELEMENTS_PER_CELL).unwrap()
}

#[test]
fn zero_blob_at_full_size() {
    // the blob of 4096 zeros is the zero polynomial: its commitment and the
    // proofs of its cells are the neutral element, its cells are zero
    let ctx = full_size_context();
    let identity = G1Point::identity().to_compressed();
    let cell = vec![0u8; BYTES_PER_CELL];
    for index in [0u64, 1, 63, 64, 127] {
        assert_eq!(ctx.verify_cell_kzg_proof(&identity, index, &cell, &identity), Ok(()));
    }
    let mut changed = cell.clone();
    changed[BYTES_PER_CELL - 1] = 1;
    assert_eq!(
        ctx.verify_cell_kzg_proof(&identity, 5, &changed, &identity),
        Err(VerifierError::InvalidProof)
    );
    assert_eq!(
        ctx.verify_cell_kzg_proof(&identity, CELLS_PER_EXT_BLOB as u64, &cell, &identity),
        Err(VerifierError::CellIndexOutOfRange { cell_index: 128, max_number_of_cells: 128 })
    );
    assert_eq!(
        ctx.verify_cell_kzg_proof(&identity, 0, &cell[1..], &identity),
        Err(VerifierError::CellDoesNotContainEnoughBytes { cell_index: 0, num_bytes: 2047, expected_num_bytes: 2048 })
    );
}

#[test]
fn constant_blob_at_full_size() {
    // a constant blob is a constant polynomial: its commitment is the
    // constant times the generator, its cells repeat the constant, and the
    // proofs are the neutral element
    let ctx = full_size_context();
    let constant = Scalar::from_u64(0xdead_beef);
    let generator = G1Point::from_uncompressed(&bls12_381::G1Affine::generator().to_uncompressed()).unwrap();
    let commitment = generator.scale(&constant).to_compressed();
    let identity = G1Point::identity().to_compressed();
    let mut cell = Vec::new();
    for _ in 0..FIELD_ELEMENTS_PER_CELL {
        cell.extend_from_slice(&constant.to_bytes_be());
    }
    for index in [0u64, 77, 127] {
        assert_eq!(ctx.verify_cell_kzg_proof(&commitment, index, &cell, &identity), Ok(()));
    }
    assert_eq!(
        ctx.verify_cell_kzg_proof(&identity, 3, &cell, &identity),
        Err(VerifierError::InvalidProof)
    );
    let r = ctx.verify_cell_kzg_proof_batch(
        vec![commitment.to_vec(), identity.to_vec()],
        vec![0, 1, 0],
        vec![12, 99, 100],
        vec![cell.clone(), vec![0u8; BYTES_PER_CELL], cell.clone()],
        vec![identity.to_vec(), identity.to_vec(), identity.to_vec()],
    );
    assert_eq!(r, Ok(()));
}
