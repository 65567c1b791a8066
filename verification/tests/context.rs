use peerdas_kzg::context::{
    DASContext, TrustedSetup, BYTES_PER_BLOB, BYTES_PER_CELL, BYTES_PER_COMMITMENT, CELLS_PER_EXT_BLOB,
    EXPANSION_FACTOR, FIELD_ELEMENTS_PER_BLOB, FIELD_ELEMENTS_PER_CELL,
};
use peerdas_kzg::errors::{ProverError, SerializationError, VerifierError};
use peerdas_kzg::field::Scalar;
use peerdas_kzg::prover::ProverContext;
use peerdas_kzg::verification::VerifierContext;

/// A setup whose secret is known, read from compressed points.
fn insecure_setup(g1_len: usize, g2_len: usize) -> TrustedSetup {
    let tau = bls12_381::Scalar::from(0xabcdefu64);
    let mut power = bls12_381::Scalar::one();
    let mut g1 = Vec::new();
    let mut g2 = Vec::new();
    for i in 0..g1_len.max(g2_len) {
        if i < g1_len {
            let p = bls12_381::G1Affine::from(bls12_381::G1Projective::generator() * power);
            g1.push(p.to_compressed().to_vec());
        }
        if i < g2_len {
            let p = bls12_381::G2Affine::from(bls12_381::G2Projective::generator() * power);
            g2.push(p.to_compressed().to_vec());
        }
        power *= tau;
    }
    TrustedSetup::from_compressed(&g1, &g2).unwrap()
}

fn blob(len: usize) -> Vec<u8> {
    let mut blob = Vec::new();
    for i in 0..len as u64 {
        blob.extend_from_slice(&Scalar::from_u64(3 * i * i + 1).to_bytes_be());
    }
    blob
}

#[test]
fn constants_agree() {
    assert_eq!(FIELD_ELEMENTS_PER_BLOB, 4096);
    assert_eq!(FIELD_ELEMENTS_PER_CELL, 64);
    assert_eq!(CELLS_PER_EXT_BLOB, EXPANSION_FACTOR * FIELD_ELEMENTS_PER_BLOB / FIELD_ELEMENTS_PER_CELL);
    assert_eq!(BYTES_PER_BLOB, 32 * FIELD_ELEMENTS_PER_BLOB);
    assert_eq!(BYTES_PER_CELL, 32 * FIELD_ELEMENTS_PER_CELL);
    assert_eq!(BYTES_PER_COMMITMENT, 48);
}

#[test]
fn setup_with_a_line_that_is_no_point() {
    assert!(TrustedSetup::from_compressed(&vec![vec![0u8; 48]], &vec![]).is_none());
    assert!(TrustedSetup::from_compressed(&vec![], &vec![vec![0u8; 96]]).is_none());
    assert!(TrustedSetup::from_compressed(&vec![vec![0xc0u8; 1]], &vec![]).is_none());
    let empty = TrustedSetup::from_compressed(&vec![], &vec![]).unwrap();
    assert!(empty.g1_monomial.is_empty());
    assert!(empty.g2_monomial.is_empty());
}

#[test]
fn dimensions_that_are_refused() {
    let setup = insecure_setup(8, 5);
    assert!(DASContext::with_dimensions(&setup, 8, 4).is_some());
    assert!(DASContext::with_dimensions(&setup, 8, 8).is_none());
    assert!(DASContext::with_dimensions(&setup, 16, 4).is_none());
    assert!(DASContext::with_dimensions(&setup, 8, 3).is_none());
    assert!(DASContext::with_dimensions(&setup, 6, 2).is_none());
    assert!(DASContext::with_dimensions(&setup, 4, 8).is_none());
    assert!(DASContext::with_dimensions(&setup, 0, 0).is_none());
    assert!(DASContext::with_dimensions(&setup, 8, 1).is_some());
    // the full size takes 4096 points
    assert!(DASContext::new(&setup).is_none());
    assert!(ProverContext::new(&setup.g1_monomial, 8, 16).is_none());
    assert!(VerifierContext::new(&setup.g1_monomial, &setup.g2_monomial, 8, 8).is_none());
    assert!(VerifierContext::new(&setup.g1_monomial, &setup.g2_monomial, 8, 4).is_some());
}

#[test]
fn operations_through_the_context() {
    let ctx = DASContext::with_dimensions(&insecure_setup(8, 3), 8, 2).unwrap();
    let blob = blob(8);
    let commitment = ctx.blob_to_kzg_commitment(&blob).unwrap();
    assert_eq!(commitment, ctx.prover_ctx().blob_to_kzg_commitment(&blob).unwrap());
    let (cells, proofs) = ctx.compute_cells_and_kzg_proofs(&blob).unwrap();
    assert_eq!(cells.len(), 8);
    assert_eq!(proofs.len(), 8);
    for i in 0..8 {
        assert_eq!(cells[i].len(), 64);
        assert_eq!(ctx.verify_cell_kzg_proof(&commitment, i as u64, &cells[i], &proofs[i]), Ok(()));
    }
    assert_eq!(
        ctx.verify_cell_kzg_proof(&commitment, 1, &cells[0], &proofs[0]),
        Err(VerifierError::InvalidProof)
    );
    let r = ctx.verify_cell_kzg_proof_batch(
        vec![commitment.to_vec()],
        vec![0, 0, 0],
        vec![6, 1, 3],
        vec![cells[6].clone(), cells[1].clone(), cells[3].clone()],
        vec![proofs[6].to_vec(), proofs[1].to_vec(), proofs[3].to_vec()],
    );
    assert_eq!(r, Ok(()));
    let got = ctx
        .recover_cells_and_proofs(
            vec![7, 0, 2, 5],
            vec![cells[7].clone(), cells[0].clone(), cells[2].clone(), cells[5].clone()],
        )
        .unwrap();
    assert_eq!(got, (cells, proofs));
}

#[test]
fn cells_of_one_scalar() {
    // with cells of one scalar, the proofs are single openings
    let ctx = DASContext::with_dimensions(&insecure_setup(4, 2), 4, 1).unwrap();
    let blob = blob(4);
    let commitment = ctx.blob_to_kzg_commitment(&blob).unwrap();
    let (cells, proofs) = ctx.compute_cells_and_kzg_proofs(&blob).unwrap();
    assert_eq!(cells.len(), 8);
    for i in 0..8 {
        assert_eq!(ctx.verify_cell_kzg_proof(&commitment, i as u64, &cells[i], &proofs[i]), Ok(()));
    }
}

#[test]
fn blob_that_is_no_blob() {
    let ctx = DASContext::with_dimensions(&insecure_setup(8, 3), 8, 2).unwrap();
    let short = vec![0u8; 255];
    assert_eq!(
        ctx.blob_to_kzg_commitment(&short),
        Err(ProverError::Serialization(SerializationError::BlobHasInvalidLength { bytes: short.clone(), length: 255 }))
    );
    assert_eq!(
        ctx.compute_cells_and_kzg_proofs(&short),
        Err(ProverError::Serialization(SerializationError::BlobHasInvalidLength { bytes: short, length: 255 }))
    );
    let long = vec![0u8; 288];
    assert!(matches!(
        ctx.blob_to_kzg_commitment(&long),
        Err(ProverError::Serialization(SerializationError::BlobHasInvalidLength { length: 288, .. }))
    ));
    let mut bad = blob(8);
    for b in bad[64..96].iter_mut() {
        *b = 0xff;
    }
    assert_eq!(
        ctx.blob_to_kzg_commitment(&bad),
        Err(ProverError::Serialization(SerializationError::CouldNotDeserializeScalar { bytes: vec![0xff; 32] }))
    );
    assert_eq!(
        ctx.compute_cells_and_kzg_proofs(&bad),
        Err(ProverError::Serialization(SerializationError::CouldNotDeserializeScalar { bytes: vec![0xff; 32] }))
    );
}
