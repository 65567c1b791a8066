use peerdas_kzg::errors::{verification_outcome, ProverError, RSError, SerializationError, VerifierError};
use peerdas_kzg::field::Scalar;
use peerdas_kzg::group::G1Point;
use peerdas_kzg::permutation::{bit_reverse_permute, reverse_index};
use peerdas_kzg::serialization::{
    copy_range, deserialize_bytes_to_scalars, deserialize_compressed_g1, deserialize_scalar,
    serialize_g1_compressed, serialize_scalars,
};
use peerdas_kzg::transcript::{challenge_from_transcript, compute_challenge, push_bytes, push_u64};
use peerdas_kzg::validation::{are_cell_indices_unique, find_out_of_range, find_wrong_size};
use sha2::{Digest, Sha256};

fn s(x: u64) -> Scalar {
    Scalar::from_u64(x)
}

#[test]
fn scalar_of_the_wrong_length() {
    assert_eq!(
        deserialize_scalar(&[0u8; 31]),
        Err(SerializationError::ScalarHasInvalidLength { bytes: vec![0; 31], length: 31 })
    );
    assert_eq!(
        deserialize_scalar(&[0u8; 33]),
        Err(SerializationError::ScalarHasInvalidLength { bytes: vec![0; 33], length: 33 })
    );
    assert_eq!(
        deserialize_scalar(&[0xffu8; 32]),
        Err(SerializationError::CouldNotDeserializeScalar { bytes: vec![0xff; 32] })
    );
    let mut bytes = [0u8; 32];
    bytes[31] = 9;
    assert_eq!(deserialize_scalar(&bytes), Ok(s(9)));
}

#[test]
fn scalars_one_after_the_other() {
    let scalars = vec![s(1), s(0x0203), s(0).sub(&s(1))];
    let bytes = serialize_scalars(&scalars);
    assert_eq!(bytes.len(), 96);
    assert_eq!(bytes[31], 1);
    assert_eq!(&bytes[62..64], &[2, 3]);
    assert_eq!(deserialize_bytes_to_scalars(&bytes), Ok(scalars));
    assert_eq!(deserialize_bytes_to_scalars(&[]), Ok(vec![]));

    assert_eq!(
        deserialize_bytes_to_scalars(&bytes[..95]),
        Err(SerializationError::ScalarHasInvalidLength { bytes: bytes[..95].to_vec(), length: 95 })
    );
    let mut bad = bytes.clone();
    bad[32] = 0x80;
    bad[64] = 0xff;
    assert_eq!(
        deserialize_bytes_to_scalars(&bad),
        Err(SerializationError::CouldNotDeserializeScalar { bytes: bad[32..64].to_vec() })
    );
}

#[test]
fn points_through_serialization() {
    let g = G1Point::from_uncompressed(&bls12_381::G1Affine::generator().to_uncompressed()).unwrap();
    let bytes = serialize_g1_compressed(&g);
    assert_eq!(bytes, bls12_381::G1Affine::generator().to_compressed());
    assert_eq!(deserialize_compressed_g1(&bytes), Ok(g));
    assert_eq!(
        deserialize_compressed_g1(&bytes[1..]),
        Err(SerializationError::G1PointHasInvalidLength { bytes: bytes[1..].to_vec(), length: 47 })
    );
}

#[test]
fn ranges_are_copied() {
    assert_eq!(copy_range(&[1, 2, 3, 4, 5], 1, 4), vec![2, 3, 4]);
    assert!(copy_range(&[1, 2, 3], 2, 2).is_empty());
}

#[test]
fn bit_reversal() {
    assert_eq!(reverse_index(0, 1), 0);
    assert_eq!(reverse_index(1, 2), 1);
    assert_eq!(reverse_index(1, 8), 4);
    assert_eq!(reverse_index(3, 8), 6);
    assert_eq!(reverse_index(6, 8), 3);
    assert_eq!(reverse_index(22, 32), 13);
    assert_eq!(bit_reverse_permute(&vec![0u32, 1, 2, 3, 4, 5, 6, 7]), vec![0, 4, 2, 6, 1, 5, 3, 7]);
    let v: Vec<u32> = (0..64).collect();
    assert_eq!(bit_reverse_permute(&bit_reverse_permute(&v)), v);
}

#[test]
fn searches_name_the_first_position() {
    let bufs = vec![vec![0u8; 3], vec![0; 4], vec![0; 3], vec![0; 5]];
    assert_eq!(find_wrong_size(&bufs, 3), Some(1));
    assert_eq!(find_wrong_size(&bufs[..1].to_vec(), 3), None);
    assert_eq!(find_wrong_size(&vec![], 3), None);
    assert_eq!(find_out_of_range(&vec![0, 7, 8, 9], 8), Some(2));
    assert_eq!(find_out_of_range(&vec![0, 7], 8), None);
    assert!(are_cell_indices_unique(&vec![]));
    assert!(are_cell_indices_unique(&vec![3, 1, 2]));
    assert!(!are_cell_indices_unique(&vec![3, 1, 3]));
}

#[test]
fn transcript_bytes() {
    let mut out = vec![0xaa];
    push_u64(&mut out, 0x0102_0304_0506_0708);
    push_bytes(&mut out, &vec![9, 9]);
    assert_eq!(out, vec![0xaa, 1, 2, 3, 4, 5, 6, 7, 8, 9, 9]);
}

#[test]
fn challenge_is_the_digest_reduced() {
    let transcript = vec![1u8, 2, 3];
    let digest = Sha256::digest(&transcript);
    let mut wide = [0u8; 64];
    wide[..32].copy_from_slice(&digest);
    assert_eq!(challenge_from_transcript(&transcript), Scalar::from_bytes_wide(&wide));
    assert_ne!(challenge_from_transcript(&transcript), challenge_from_transcript(&vec![1u8, 2, 4]));

    // the transcript of a batch: the number of entries, then each entry
    let commitments = vec![vec![0x11u8; 48], vec![0x22; 48]];
    let rows = vec![1u64, 0];
    let cols = vec![5u64, 6];
    let cells = vec![vec![0x33u8; 4], vec![0x44; 4]];
    let proofs = vec![vec![0x55u8; 48], vec![0x66; 48]];
    let mut expected = vec![0u8, 0, 0, 0, 0, 0, 0, 2];
    expected.extend_from_slice(&[0x22; 48]);
    expected.extend_from_slice(&[0, 0, 0, 0, 0, 0, 0, 5]);
    expected.extend_from_slice(&[0x33; 4]);
    expected.extend_from_slice(&[0x55; 48]);
    expected.extend_from_slice(&[0x11; 48]);
    expected.extend_from_slice(&[0, 0, 0, 0, 0, 0, 0, 6]);
    expected.extend_from_slice(&[0x44; 4]);
    expected.extend_from_slice(&[0x66; 48]);
    assert_eq!(
        compute_challenge(&commitments, &rows, &cols, &cells, &proofs),
        challenge_from_transcript(&expected)
    );
}

#[test]
fn errors_convert() {
    let se = SerializationError::BlobHasInvalidLength { bytes: vec![1], length: 1 };
    assert_eq!(ProverError::from(se.clone()), ProverError::Serialization(se.clone()));
    assert_eq!(VerifierError::from(se.clone()), VerifierError::Serialization(se));
    assert_eq!(
        ProverError::from(VerifierError::CellIndicesNotUnique),
        ProverError::RecoveryFailure(VerifierError::CellIndicesNotUnique)
    );
    assert_eq!(VerifierError::from(RSError::ZeroDivisor), VerifierError::ReedSolomon(RSError::ZeroDivisor));
    assert!(VerifierError::InvalidProof.invalid_proof());
    assert!(!VerifierError::CellIndicesNotUnique.invalid_proof());
}

#[test]
fn invalid_proof_is_the_answer_false() {
    assert_eq!(verification_outcome(Ok(())), Ok(true));
    assert_eq!(verification_outcome(Err(VerifierError::InvalidProof)), Ok(false));
    assert_eq!(
        verification_outcome(Err(VerifierError::CellIndicesNotUnique)),
        Err(VerifierError::CellIndicesNotUnique)
    );
    assert_eq!(
        verification_outcome(Err(VerifierError::InvalidRowIndex { row_index: 3, max_number_of_rows: 2 })),
        Err(VerifierError::InvalidRowIndex { row_index: 3, max_number_of_rows: 2 })
    );
}
