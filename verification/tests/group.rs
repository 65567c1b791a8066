use peerdas_kzg::errors::SerializationError;
use peerdas_kzg::field::Scalar;
use peerdas_kzg::group::{copy_bytes, g1_lincomb, pairing_check, G1Point, G2Point};

fn generator() -> G1Point {
    G1Point::from_uncompressed(&bls12_381::G1Affine::generator().to_uncompressed()).unwrap()
}

fn g2_generator() -> G2Point {
    G2Point::from_uncompressed(&bls12_381::G2Affine::generator().to_uncompressed()).unwrap()
}

fn s(x: u64) -> Scalar {
    Scalar::from_u64(x)
}

#[test]
fn identity_encodings() {
    let id = G1Point::identity();
    let mut expected = [0u8; 96];
    expected[0] = 0x40;
    assert_eq!(id.to_uncompressed(), expected);
    let mut compressed = [0u8; 48];
    compressed[0] = 0xc0;
    assert_eq!(id.to_compressed(), compressed);
    assert_eq!(G1Point::from_compressed(&compressed).unwrap(), id);
}

#[test]
fn group_law_on_small_multiples() {
    let g = generator();
    let id = G1Point::identity();
    assert_eq!(g.add(&id), g);
    assert_eq!(g.sub(&g), id);
    assert_eq!(g.scale(&s(0)), id);
    assert_eq!(g.scale(&s(1)), g);
    assert_eq!(g.add(&g), g.scale(&s(2)));
    assert_ne!(g.add(&g), g);
    assert_eq!(g.scale(&s(5)).sub(&g.scale(&s(2))), g.scale(&s(3)));
    assert_eq!(g.scale(&s(3)).scale(&s(4)), g.scale(&s(12)));
    assert!(g.equals(&g));
    assert!(!g.equals(&id));
}

#[test]
fn compressed_round_trip() {
    let p = generator().scale(&s(123456789));
    let c = p.to_compressed();
    assert_eq!(c.len(), 48);
    assert_eq!(c.to_vec(), bls12_381::G1Affine::from_uncompressed(&p.to_uncompressed()).unwrap().to_compressed());
    assert_eq!(G1Point::from_compressed(&c).unwrap(), p);
    assert_ne!(&c[..], &p.to_uncompressed()[..48]);
}

#[test]
fn points_that_are_refused() {
    assert_eq!(
        G1Point::from_compressed(&[0u8; 47]),
        Err(SerializationError::G1PointHasInvalidLength { bytes: vec![0; 47], length: 47 })
    );
    assert_eq!(
        G1Point::from_compressed(&[0u8; 48]),
        Err(SerializationError::CouldNotDeserializeG1Point { bytes: vec![0; 48] })
    );
    assert_eq!(
        G1Point::from_uncompressed(&[1u8; 96]),
        Err(SerializationError::CouldNotDeserializeG1Point { bytes: vec![1; 96] })
    );
    assert_eq!(
        G1Point::from_uncompressed(&[1u8; 3]),
        Err(SerializationError::G1PointHasInvalidLength { bytes: vec![1; 3], length: 3 })
    );
    assert!(G2Point::from_compressed(&[0u8; 96]).is_none());
    assert!(G2Point::from_compressed(&[0u8; 95]).is_none());
    assert!(G2Point::from_uncompressed(&[7u8; 192]).is_none());
}

#[test]
fn g2_compressed_round_trip() {
    let q = bls12_381::G2Affine::from(bls12_381::G2Projective::generator() * bls12_381::Scalar::from(77u64));
    let p = G2Point::from_compressed(&q.to_compressed()).unwrap();
    assert_eq!(p, G2Point::from_uncompressed(&q.to_uncompressed()).unwrap());
    assert_ne!(p, g2_generator());
}

#[test]
fn linear_combination() {
    let g = generator();
    let points = vec![g, g.scale(&s(2)), g.scale(&s(3))];
    // 4 * 1 + 5 * 2 + 6 * 3 = 32
    assert_eq!(g1_lincomb(&points, &vec![s(4), s(5), s(6)]), g.scale(&s(32)));
    assert_eq!(g1_lincomb(&vec![], &vec![]), G1Point::identity());
}

#[test]
fn pairing_is_bilinear() {
    let g = generator();
    let h = g2_generator();
    let h3 = G2Point::from_uncompressed(
        &bls12_381::G2Affine::from(bls12_381::G2Projective::generator() * bls12_381::Scalar::from(3u64))
            .to_uncompressed(),
    )
    .unwrap();
    // e(3 G, H) = e(G, 3 H)
    assert!(pairing_check(&g.scale(&s(3)), &h, &g, &h3));
    assert!(!pairing_check(&g.scale(&s(2)), &h, &g, &h3));
    assert!(!pairing_check(&g, &h, &g, &h3));
}

#[test]
fn bytes_are_copied() {
    assert_eq!(copy_bytes(&[1, 2, 3]), vec![1, 2, 3]);
    assert!(copy_bytes(&[]).is_empty());
}
