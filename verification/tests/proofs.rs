use peerdas_kzg::errors::VerifierError;
use peerdas_kzg::field::Scalar;
use peerdas_kzg::group::{G1Point, G2Point};
use peerdas_kzg::polynomial::poly_eval;
use peerdas_kzg::prover::ProverContext;
use peerdas_kzg::serialization::deserialize_bytes_to_scalars;
use peerdas_kzg::verification::VerifierContext;

const BLOB_LEN: usize = 16;
const CELL_LEN: usize = 4;
const NUM_CELLS: usize = 8;

/// A setup whose secret is known: of no use but for tests.
fn insecure_setup(g1_len: usize, g2_len: usize) -> (Vec<G1Point>, Vec<G2Point>) {
    let tau = bls12_381::Scalar::from(0x5eed_1234_5678u64);
    let mut power = bls12_381::Scalar::one();
    let mut g1 = Vec::new();
    let mut g2 = Vec::new();
    for i in 0..g1_len.max(g2_len) {
        if i < g1_len {
            let p = bls12_381::G1Affine::from(bls12_381::G1Projective::generator() * power);
            g1.push(G1Point::from_uncompressed(&p.to_uncompressed()).unwrap());
        }
        if i < g2_len {
            let p = bls12_381::G2Affine::from(bls12_381::G2Projective::generator() * power);
            g2.push(G2Point::from_uncompressed(&p.to_uncompressed()).unwrap());
        }
        power *= tau;
    }
    (g1, g2)
}

fn contexts() -> (ProverContext, VerifierContext) {
    let (g1, g2) = insecure_setup(BLOB_LEN, CELL_LEN + 1);
    (
        ProverContext::new(&g1, BLOB_LEN, CELL_LEN).unwrap(),
        VerifierContext::new(&g1, &g2, BLOB_LEN, CELL_LEN).unwrap(),
    )
}

fn blob_of(f: impl Fn(u64) -> u64) -> Vec<u8> {
    let mut blob = Vec::new();
    for i in 0..BLOB_LEN as u64 {
        blob.extend_from_slice(&Scalar::from_u64(f(i)).to_bytes_be());
    }
    blob
}

fn sample_blob() -> Vec<u8> {
    blob_of(|i| i * i * 7919 + 13 * i + 5)
}

#[test]
fn every_cell_proof_verifies() {
    let (prover, verifier) = contexts();
    let blob = sample_blob();
    let commitment = prover.blob_to_kzg_commitment(&blob).unwrap();
    let (cells, proofs) = prover.compute_cells_and_kzg_proofs(&blob).unwrap();
    assert_eq!(cells.len(), NUM_CELLS);
    assert_eq!(proofs.len(), NUM_CELLS);
    for i in 0..NUM_CELLS {
        assert_eq!(cells[i].len(), 32 * CELL_LEN);
        assert_eq!(verifier.verify_cell_kzg_proof(&commitment, i as u64, &cells[i], &proofs[i]), Ok(()));
    }
}

#[test]
fn commitment_is_deterministic() {
    let (prover, _) = contexts();
    let blob = sample_blob();
    let first = prover.blob_to_kzg_commitment(&blob).unwrap();
    let second = prover.blob_to_kzg_commitment(&blob).unwrap();
    assert_eq!(first, second);
    let (other, _) = contexts();
    assert_eq!(other.blob_to_kzg_commitment(&blob).unwrap(), first);
    assert_ne!(prover.blob_to_kzg_commitment(&blob_of(|i| i + 1)).unwrap(), first);
}

#[test]
fn first_half_of_the_cells_is_the_blob() {
    let (prover, _) = contexts();
    let blob = sample_blob();
    let (cells, _) = prover.compute_cells_and_kzg_proofs(&blob).unwrap();
    let joined: Vec<u8> = cells[..NUM_CELLS / 2].iter().flatten().copied().collect();
    assert_eq!(joined, blob);
}

#[test]
fn cells_are_values_of_the_blob_polynomial() {
    let (prover, _) = contexts();
    let blob = sample_blob();
    let coeffs = prover.blob_to_coeffs(&blob).unwrap();
    assert_eq!(coeffs.len(), BLOB_LEN);
    let (cells, _) = prover.compute_cells_and_kzg_proofs(&blob).unwrap();
    // position 1 of the extension, bits reversed over 32 points, is point 16
    let scalars = deserialize_bytes_to_scalars(&cells[0]).unwrap();
    assert_eq!(scalars[1], poly_eval(&coeffs, &prover.ext_domain.root(16)));
    // cell 5, position 2: index 22 = 10110b, reversed 01101b = 13
    let scalars = deserialize_bytes_to_scalars(&cells[5]).unwrap();
    assert_eq!(scalars[2], poly_eval(&coeffs, &prover.ext_domain.root(13)));
}

#[test]
fn tampered_cell_or_proof_is_an_invalid_proof() {
    let (prover, verifier) = contexts();
    let blob = sample_blob();
    let commitment = prover.blob_to_kzg_commitment(&blob).unwrap();
    let (cells, proofs) = prover.compute_cells_and_kzg_proofs(&blob).unwrap();

    // a byte of the cell flipped, the scalars still below the field order
    for position in [31usize, 40, 127] {
        let mut cell = cells[3].clone();
        cell[position] ^= 1;
        let r = verifier.verify_cell_kzg_proof(&commitment, 3, &cell, &proofs[3]);
        assert_eq!(r, Err(VerifierError::InvalidProof));
        assert!(r.unwrap_err().invalid_proof());
    }
    // the proof of another cell is a valid point, and the wrong proof
    let r = verifier.verify_cell_kzg_proof(&commitment, 3, &cells[3], &proofs[4]);
    assert_eq!(r, Err(VerifierError::InvalidProof));
    // the right cell under the wrong index
    let r = verifier.verify_cell_kzg_proof(&commitment, 2, &cells[3], &proofs[3]);
    assert_eq!(r, Err(VerifierError::InvalidProof));
    // another commitment
    let other = prover.blob_to_kzg_commitment(&blob_of(|i| i + 1)).unwrap();
    let r = verifier.verify_cell_kzg_proof(&other, 3, &cells[3], &proofs[3]);
    assert_eq!(r, Err(VerifierError::InvalidProof));
}

#[test]
fn zero_blob_commits_to_the_identity() {
    let (prover, verifier) = contexts();
    let blob = vec![0u8; 32 * BLOB_LEN];
    let commitment = prover.blob_to_kzg_commitment(&blob).unwrap();
    let identity = G1Point::identity().to_compressed();
    assert_eq!(commitment, identity);
    assert_eq!(commitment[0], 0xc0);
    assert!(commitment[1..].iter().all(|b| *b == 0));
    let (cells, proofs) = prover.compute_cells_and_kzg_proofs(&blob).unwrap();
    for i in 0..NUM_CELLS {
        assert!(cells[i].iter().all(|b| *b == 0));
        assert_eq!(proofs[i], identity);
        assert_eq!(verifier.verify_cell_kzg_proof(&commitment, i as u64, &cells[i], &proofs[i]), Ok(()));
    }
}

#[test]
fn constant_blob_has_identity_proofs() {
    // the polynomial of a constant blob is the constant: the quotients vanish
    let (prover, verifier) = contexts();
    let blob = blob_of(|_| 42);
    let commitment = prover.blob_to_kzg_commitment(&blob).unwrap();
    let (g1, _) = insecure_setup(1, 0);
    assert_eq!(commitment, g1[0].scale(&Scalar::from_u64(42)).to_compressed());
    let (cells, proofs) = prover.compute_cells_and_kzg_proofs(&blob).unwrap();
    for i in 0..NUM_CELLS {
        assert_eq!(proofs[i], G1Point::identity().to_compressed());
        assert_eq!(verifier.verify_cell_kzg_proof(&commitment, i as u64, &cells[i], &proofs[i]), Ok(()));
    }
}
