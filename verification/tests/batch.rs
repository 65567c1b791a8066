use peerdas_kzg::errors::{verification_outcome, SerializationError, VerifierError};
use peerdas_kzg::field::Scalar;
use peerdas_kzg::group::{G1Point, G2Point};
use peerdas_kzg::prover::ProverContext;
use peerdas_kzg::verification::VerifierContext;

const BLOB_LEN: usize = 16;
const CELL_LEN: usize = 4;

fn contexts() -> (ProverContext, VerifierContext) {
    let tau = bls12_381::Scalar::from(0x5eed_1234_5678u64);
    let mut power = bls12_381::Scalar::one();
    let mut g1 = Vec::new();
    let mut g2 = Vec::new();
    for i in 0..BLOB_LEN {
        let p = bls12_381::G1Affine::from(bls12_381::G1Projective::generator() * power);
        g1.push(G1Point::from_uncompressed(&p.to_uncompressed()).unwrap());
        if i <= CELL_LEN {
            let p = bls12_381::G2Affine::from(bls12_381::G2Projective::generator() * power);
            g2.push(G2Point::from_uncompressed(&p.to_uncompressed()).unwrap());
        }
        power *= tau;
    }
    (
        ProverContext::new(&g1, BLOB_LEN, CELL_LEN).unwrap(),
        VerifierContext::new(&g1, &g2, BLOB_LEN, CELL_LEN).unwrap(),
    )
}

fn blob(seed: u64) -> Vec<u8> {
    let mut blob = Vec::new();
    for i in 0..BLOB_LEN as u64 {
        blob.extend_from_slice(&Scalar::from_u64(seed * 1_000_003 + i * i * 31 + i).to_bytes_be());
    }
    blob
}

struct Batch {
    commitments: Vec<Vec<u8>>,
    rows: Vec<u64>,
    cols: Vec<u64>,
    cells: Vec<Vec<u8>>,
    proofs: Vec<Vec<u8>>,
}

/// Two blobs, and five of their cells.
fn sample_batch(prover: &ProverContext) -> Batch {
    let mut commitments = Vec::new();
    let mut all = Vec::new();
    for seed in [1u64, 2] {
        let b = blob(seed);
        commitments.push(prover.blob_to_kzg_commitment(&b).unwrap().to_vec());
        all.push(prover.compute_cells_and_kzg_proofs(&b).unwrap());
    }
    let mut batch = Batch { commitments, rows: vec![], cols: vec![], cells: vec![], proofs: vec![] };
    for (row, col) in [(0u64, 0u64), (1, 3), (0, 7), (1, 0), (0, 5)] {
        batch.rows.push(row);
        batch.cols.push(col);
        batch.cells.push(all[row as usize].0[col as usize].clone());
        batch.proofs.push(all[row as usize].1[col as usize].to_vec());
    }
    batch
}

fn run(verifier: &VerifierContext, b: &Batch) -> Result<(), VerifierError> {
    verifier.verify_cell_kzg_proof_batch(
        b.commitments.clone(),
        b.rows.clone(),
        b.cols.clone(),
        b.cells.clone(),
        b.proofs.clone(),
    )
}

#[test]
fn valid_batch_is_accepted() {
    let (prover, verifier) = contexts();
    let batch = sample_batch(&prover);
    assert_eq!(run(&verifier, &batch), Ok(()));
    assert_eq!(verification_outcome(run(&verifier, &batch)), Ok(true));
    // and each of its entries alone
    for i in 0..batch.rows.len() {
        let r = verifier.verify_cell_kzg_proof(
            &batch.commitments[batch.rows[i] as usize],
            batch.cols[i],
            &batch.cells[i],
            &batch.proofs[i],
        );
        assert_eq!(r, Ok(()));
    }
}

#[test]
fn empty_batch_is_accepted() {
    let (_, verifier) = contexts();
    let r = verifier.verify_cell_kzg_proof_batch(vec![], vec![], vec![], vec![], vec![]);
    assert_eq!(r, Ok(()));
}

#[test]
fn one_invalid_entry_rejects_the_batch() {
    let (prover, verifier) = contexts();
    for entry in 0..5 {
        let mut batch = sample_batch(&prover);
        batch.cells[entry][63] ^= 0x10;
        assert_eq!(run(&verifier, &batch), Err(VerifierError::InvalidProof));
        assert_eq!(verification_outcome(run(&verifier, &batch)), Ok(false));
    }
    let mut batch = sample_batch(&prover);
    batch.proofs.swap(1, 2);
    assert_eq!(run(&verifier, &batch), Err(VerifierError::InvalidProof));
    let mut batch = sample_batch(&prover);
    batch.rows[4] = 1;
    assert_eq!(run(&verifier, &batch), Err(VerifierError::InvalidProof));
    let mut batch = sample_batch(&prover);
    batch.cols[0] = 1;
    assert_eq!(run(&verifier, &batch), Err(VerifierError::InvalidProof));
}

#[test]
fn lists_of_different_lengths() {
    let (prover, verifier) = contexts();
    let mut batch = sample_batch(&prover);
    batch.proofs.pop();
    batch.cols.push(0);
    assert_eq!(
        run(&verifier, &batch),
        Err(VerifierError::BatchVerificationInputsMustHaveSameLength {
            row_indices_len: 5,
            cell_indices_len: 6,
            cells_len: 5,
            proofs_len: 4,
        })
    );
}

#[test]
fn byte_strings_of_the_wrong_length() {
    let (prover, verifier) = contexts();

    let mut batch = sample_batch(&prover);
    batch.commitments[1].push(0);
    let bytes = batch.commitments[1].clone();
    assert_eq!(
        run(&verifier, &batch),
        Err(VerifierError::Serialization(SerializationError::G1PointHasInvalidLength { bytes, length: 49 }))
    );

    let mut batch = sample_batch(&prover);
    batch.cells[2].truncate(100);
    assert_eq!(
        run(&verifier, &batch),
        Err(VerifierError::CellDoesNotContainEnoughBytes { cell_index: 7, num_bytes: 100, expected_num_bytes: 128 })
    );

    let mut batch = sample_batch(&prover);
    batch.proofs[3].truncate(47);
    let bytes = batch.proofs[3].clone();
    assert_eq!(
        run(&verifier, &batch),
        Err(VerifierError::Serialization(SerializationError::G1PointHasInvalidLength { bytes, length: 47 }))
    );

    // the single check
    let batch = sample_batch(&prover);
    let r = verifier.verify_cell_kzg_proof(&batch.commitments[0][..40], 0, &batch.cells[0], &batch.proofs[0]);
    assert_eq!(
        r,
        Err(VerifierError::Serialization(SerializationError::G1PointHasInvalidLength {
            bytes: batch.commitments[0][..40].to_vec(),
            length: 40,
        }))
    );
    let r = verifier.verify_cell_kzg_proof(&batch.commitments[0], 0, &[], &batch.proofs[0]);
    assert_eq!(
        r,
        Err(VerifierError::CellDoesNotContainEnoughBytes { cell_index: 0, num_bytes: 0, expected_num_bytes: 128 })
    );
}

#[test]
fn indices_out_of_range() {
    let (prover, verifier) = contexts();
    let mut batch = sample_batch(&prover);
    batch.rows[2] = 2;
    assert_eq!(
        run(&verifier, &batch),
        Err(VerifierError::InvalidRowIndex { row_index: 2, max_number_of_rows: 2 })
    );
    let mut batch = sample_batch(&prover);
    batch.cols[4] = 8;
    assert_eq!(
        run(&verifier, &batch),
        Err(VerifierError::CellIndexOutOfRange { cell_index: 8, max_number_of_cells: 8 })
    );
    let r = verifier.verify_cell_kzg_proof(&batch.commitments[0], 200, &batch.cells[0], &batch.proofs[0]);
    assert_eq!(r, Err(VerifierError::CellIndexOutOfRange { cell_index: 200, max_number_of_cells: 8 }));
}

#[test]
fn byte_strings_that_do_not_decode() {
    let (prover, verifier) = contexts();

    // 48 bytes that are no point
    let mut batch = sample_batch(&prover);
    batch.commitments[0] = vec![0x11; 48];
    assert_eq!(
        run(&verifier, &batch),
        Err(VerifierError::Serialization(SerializationError::CouldNotDeserializeG1Point { bytes: vec![0x11; 48] }))
    );
    let mut batch = sample_batch(&prover);
    batch.proofs[4] = vec![0xff; 48];
    assert_eq!(
        run(&verifier, &batch),
        Err(VerifierError::Serialization(SerializationError::CouldNotDeserializeG1Point { bytes: vec![0xff; 48] }))
    );
    // the field order itself is not below the field order
    let modulus: [u8; 32] = [
        0x73, 0xed, 0xa7, 0x53, 0x29, 0x9d, 0x7d, 0x48, 0x33, 0x39, 0xd8, 0x08, 0x09, 0xa1, 0xd8, 0x05, 0x53, 0xbd,
        0xa4, 0x02, 0xff, 0xfe, 0x5b, 0xfe, 0xff, 0xff, 0xff, 0xff, 0x00, 0x00, 0x00, 0x01,
    ];
    let mut batch = sample_batch(&prover);
    batch.cells[1][96..128].copy_from_slice(&modulus);
    assert_eq!(
        run(&verifier, &batch),
        Err(VerifierError::Serialization(SerializationError::CouldNotDeserializeScalar { bytes: modulus.to_vec() }))
    );
    let r = verification_outcome(run(&verifier, &batch));
    assert!(matches!(r, Err(VerifierError::Serialization(_))));
}

#[test]
fn test_verify_cell_kzg_proof_batch() {
    let (prover, verifier) = contexts();

    // batches whose answer is true, batches whose answer is false, and
    // batches that have no answer
    let mut cases: Vec<(Batch, Option<bool>)> = Vec::new();
    cases.push((sample_batch(&prover), Some(true)));
    let mut b = sample_batch(&prover);
    b.commitments.swap(0, 1);
    cases.push((b, Some(false)));
    let mut b = sample_batch(&prover);
    b.cells.swap(0, 4);
    cases.push((b, Some(false)));
    let mut b = sample_batch(&prover);
    b.proofs[0] = b.commitments[0].clone();
    cases.push((b, Some(false)));
    let mut b = sample_batch(&prover);
    b.cells[3].push(0);
    cases.push((b, None));
    let mut b = sample_batch(&prover);
    b.commitments[0][47] ^= 1;
    b.commitments[0][0] = 0x00;
    cases.push((b, None));
    let mut b = sample_batch(&prover);
    b.cols[1] = 1 << 40;
    cases.push((b, None));
    let mut b = sample_batch(&prover);
    b.rows.pop();
    cases.push((b, None));

    for (batch, output) in cases {
        match run(&verifier, &batch) {
            Ok(_) => {
                // We arrive at this point if the proof verified as true
                assert!(output.unwrap())
            }
            Err(x) if x.invalid_proof() => {
                assert!(!output.unwrap());
            }
            Err(_) => {
                assert!(output.is_none());
            }
        };
    }
}
