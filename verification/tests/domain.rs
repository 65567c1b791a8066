use peerdas_kzg::domain::Domain;
use peerdas_kzg::field::Scalar;
use peerdas_kzg::group::G1Point;
use peerdas_kzg::polynomial::poly_eval;

fn s(x: u64) -> Scalar {
    Scalar::from_u64(x)
}

fn generator_times(k: u64) -> G1Point {
    let p = bls12_381::G1Affine::from(bls12_381::G1Projective::generator() * bls12_381::Scalar::from(k));
    G1Point::from_uncompressed(&p.to_uncompressed()).unwrap()
}

#[test]
fn domain_sizes() {
    assert!(Domain::new(0).is_none());
    assert!(Domain::new(3).is_none());
    assert!(Domain::new(12).is_none());
    assert_eq!(Domain::new(1).unwrap().size(), 1);
    assert_eq!(Domain::new(8).unwrap().size(), 8);
}

#[test]
fn roots_have_the_order_of_the_domain() {
    let d = Domain::new(8).unwrap();
    let w = d.root(1);
    let mut p = s(1);
    for i in 0..8 {
        assert_eq!(d.root(i), p);
        assert_eq!(d.root(i).mul(&d.inverse_root(i)), s(1));
        if i > 0 {
            assert_ne!(p, s(1));
        }
        p = p.mul(&w);
    }
    assert_eq!(p, s(1));
    assert_eq!(d.root(4), s(1).neg());
}

#[test]
fn fft_evaluates_at_the_roots() {
    let d = Domain::new(8).unwrap();
    let poly = vec![s(3), s(1), s(4), s(1), s(5), s(9), s(2), s(6)];
    let evals = d.fft_scalars(&poly);
    for i in 0..8 {
        assert_eq!(evals[i], poly_eval(&poly, &d.root(i)));
    }
    // a shorter polynomial is continued with zeros
    let short = vec![s(7), s(11), s(13)];
    let evals = d.fft_scalars(&short);
    assert_eq!(evals.len(), 8);
    for i in 0..8 {
        assert_eq!(evals[i], poly_eval(&short, &d.root(i)));
    }
}

#[test]
fn ifft_inverts_fft() {
    let d = Domain::new(16).unwrap();
    let poly: Vec<Scalar> = (0..16).map(|i| s(i * i + 7)).collect();
    let evals = d.fft_scalars(&poly);
    assert_eq!(d.ifft_scalars(&evals), poly);
    let coeffs = d.ifft_scalars(&poly);
    assert_eq!(d.fft_scalars(&coeffs), poly);
}

#[test]
fn fft_of_a_constant() {
    let d = Domain::new(4).unwrap();
    assert_eq!(d.fft_scalars(&vec![s(5)]), vec![s(5), s(5), s(5), s(5)]);
    assert_eq!(d.ifft_scalars(&vec![s(5), s(5), s(5), s(5)]), vec![s(5), s(0), s(0), s(0)]);
}

#[test]
fn g1_fft_matches_scalar_fft() {
    // the transform of k_j * G is (transform of k)_i * G
    let d = Domain::new(4).unwrap();
    let ks = vec![s(2), s(3), s(5), s(7)];
    let points: Vec<G1Point> = vec![2u64, 3, 5, 7].into_iter().map(generator_times).collect();
    let evals = d.fft_scalars(&ks);
    let got = d.fft_g1(&points);
    let g = generator_times(1);
    for i in 0..4 {
        assert_eq!(got[i], g.scale(&evals[i]));
    }
    assert_eq!(d.ifft_g1(&got), points);
}
