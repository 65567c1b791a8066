use peerdas_kzg::errors::{ProverError, RSError, SerializationError, VerifierError};
use peerdas_kzg::field::Scalar;
use peerdas_kzg::group::G1Point;
use peerdas_kzg::prover::ProverContext;

const BLOB_LEN: usize = 16;
const CELL_LEN: usize = 4;
const NUM_CELLS: usize = 8;

fn prover() -> ProverContext {
    let tau = bls12_381::Scalar::from(0x5eed_1234_5678u64);
    let mut power = bls12_381::Scalar::one();
    let mut g1 = Vec::new();
    for _ in 0..BLOB_LEN {
        let p = bls12_381::G1Affine::from(bls12_381::G1Projective::generator() * power);
        g1.push(G1Point::from_uncompressed(&p.to_uncompressed()).unwrap());
        power *= tau;
    }
    ProverContext::new(&g1, BLOB_LEN, CELL_LEN).unwrap()
}

fn sample_blob() -> Vec<u8> {
    let mut blob = Vec::new();
    for i in 0..BLOB_LEN as u64 {
        blob.extend_from_slice(&Scalar::from_u64(i * i * 104729 + 31 * i + 2).to_bytes_be());
    }
    blob
}

fn pick(cells: &[Vec<u8>], indices: &[u64]) -> Vec<Vec<u8>> {
    indices.iter().map(|i| cells[*i as usize].clone()).collect()
}

fn failure(r: Result<(Vec<Vec<u8>>, Vec<[u8; 48]>), ProverError>) -> VerifierError {
    match r {
        Err(ProverError::RecoveryFailure(e)) => e,
        other => panic!("recovery did not fail: {:?}", other),
    }
}

#[test]
fn recovery_from_half_of_the_cells() {
    let ctx = prover();
    let (cells, proofs) = ctx.compute_cells_and_kzg_proofs(&sample_blob()).unwrap();
    for indices in [vec![0u64, 1, 2, 3], vec![4, 5, 6, 7], vec![7, 2, 5, 0], vec![1, 3, 4, 6]] {
        let got = ctx.recover_cells_and_proofs(indices.clone(), pick(&cells, &indices)).unwrap();
        assert_eq!(got.0, cells);
        assert_eq!(got.1, proofs);
    }
}

#[test]
fn recovery_from_more_than_half_of_the_cells() {
    let ctx = prover();
    let (cells, proofs) = ctx.compute_cells_and_kzg_proofs(&sample_blob()).unwrap();
    for indices in [vec![0u64, 1, 2, 3, 4], vec![6, 1, 7, 0, 3, 2], vec![0, 1, 2, 3, 4, 5, 6, 7]] {
        let got = ctx.recover_cells_and_proofs(indices.clone(), pick(&cells, &indices)).unwrap();
        assert_eq!(got.0, cells);
        assert_eq!(got.1, proofs);
    }
}

#[test]
fn recovered_polynomial_is_the_polynomial_of_the_blob() {
    let ctx = prover();
    let blob = sample_blob();
    let (cells, _) = ctx.compute_cells_and_kzg_proofs(&blob).unwrap();
    let indices = vec![5u64, 0, 6, 3];
    let coeffs = ctx.recover_polynomial_coeff(&indices, &pick(&cells, &indices)).unwrap();
    assert_eq!(coeffs, ctx.blob_to_coeffs(&blob).unwrap());
}

#[test]
fn too_few_cells_are_not_enough() {
    let ctx = prover();
    let (cells, _) = ctx.compute_cells_and_kzg_proofs(&sample_blob()).unwrap();
    let indices = vec![0u64, 4, 7];
    let e = failure(ctx.recover_cells_and_proofs(indices.clone(), pick(&cells, &indices)));
    assert_eq!(e, VerifierError::NotEnoughCellsToReconstruct { num_cells_received: 3, min_cells_needed: 4 });
    let e = failure(ctx.recover_cells_and_proofs(vec![], vec![]));
    assert_eq!(e, VerifierError::NotEnoughCellsToReconstruct { num_cells_received: 0, min_cells_needed: 4 });
}

#[test]
fn repeated_index_is_not_unique() {
    let ctx = prover();
    let (cells, _) = ctx.compute_cells_and_kzg_proofs(&sample_blob()).unwrap();
    for indices in [vec![0u64, 1, 2, 3, 1], vec![2, 2], vec![0, 1, 2, 3, 4, 5, 6, 7, 7, 0]] {
        let e = failure(ctx.recover_cells_and_proofs(indices.clone(), pick(&cells, &indices)));
        assert_eq!(e, VerifierError::CellIndicesNotUnique);
    }
}

#[test]
fn shape_errors_of_recovery() {
    let ctx = prover();
    let (cells, _) = ctx.compute_cells_and_kzg_proofs(&sample_blob()).unwrap();

    let e = failure(ctx.recover_cells_and_proofs(vec![0, 1, 2, 3, 4], pick(&cells, &[0, 1, 2, 3])));
    assert_eq!(e, VerifierError::NumCellIndicesNotEqualToNumCells { num_cell_indices: 5, num_cells: 4 });

    let mut short = pick(&cells, &[0, 1, 2, 3]);
    short[2].pop();
    let e = failure(ctx.recover_cells_and_proofs(vec![0, 1, 6, 3], short));
    assert_eq!(
        e,
        VerifierError::CellDoesNotContainEnoughBytes { cell_index: 6, num_bytes: 127, expected_num_bytes: 128 }
    );

    let e = failure(ctx.recover_cells_and_proofs(vec![0, 1, 2, 8], pick(&cells, &[0, 1, 2, 3])));
    assert_eq!(e, VerifierError::CellIndexOutOfRange { cell_index: 8, max_number_of_cells: 8 });

    let indices: Vec<u64> = (0..9).collect();
    let mut nine = cells.clone();
    nine.push(cells[0].clone());
    let e = failure(ctx.recover_cells_and_proofs(indices, nine));
    assert_eq!(e, VerifierError::TooManyCellsReceived { num_cells_received: 9, max_cells_needed: 8 });
}

#[test]
fn cell_with_a_number_above_the_field_order() {
    let ctx = prover();
    let (cells, _) = ctx.compute_cells_and_kzg_proofs(&sample_blob()).unwrap();
    let mut given = pick(&cells, &[0, 1, 2, 3]);
    for b in given[1][32..64].iter_mut() {
        *b = 0xff;
    }
    let e = failure(ctx.recover_cells_and_proofs(vec![0, 1, 2, 3], given));
    assert_eq!(
        e,
        VerifierError::Serialization(SerializationError::CouldNotDeserializeScalar { bytes: vec![0xff; 32] })
    );
}

#[test]
fn cells_that_lie_on_no_polynomial() {
    let ctx = prover();
    let (cells, _) = ctx.compute_cells_and_kzg_proofs(&sample_blob()).unwrap();
    // with more than half of the cells, a changed scalar cannot be explained
    let mut given = pick(&cells, &[0, 1, 2, 3, 6]);
    given[4][31] ^= 1;
    let e = failure(ctx.recover_cells_and_proofs(vec![0, 1, 2, 3, 6], given));
    assert!(matches!(e, VerifierError::ReedSolomon(RSError::PolynomialHasInvalidLength {
        expected_num_coefficients: 16,
        ..
    })));
    // with exactly half, every choice of scalars lies on a polynomial
    let mut given = pick(&cells, &[0, 1, 2, 3]);
    given[0][31] ^= 1;
    let got = ctx.recover_cells_and_proofs(vec![0, 1, 2, 3], given.clone()).unwrap();
    assert_eq!(&got.0[..4], &given[..]);
    assert_ne!(got.0[4], cells[4]);
}
