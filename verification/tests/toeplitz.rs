use peerdas_kzg::batch_toeplitz::BatchToeplitzMatrixVecMul;
use peerdas_kzg::field::Scalar;
use peerdas_kzg::group::G1Point;
use peerdas_kzg::toeplitz::{CirculantMatrix, ToeplitzMatrix};

fn generator_times(k: u64) -> G1Point {
    let p = bls12_381::G1Affine::from(bls12_381::G1Projective::generator() * bls12_381::Scalar::from(k));
    G1Point::from_uncompressed(&p.to_uncompressed()).unwrap()
}

#[test]
fn smoke_aggregated_matrix_vector_mul() {
    // Create the toeplitz matrices and vectors that we want to perform matrix-vector multiplication with
    let mut toeplitz_matrices = Vec::new();
    let mut vectors = Vec::new();

    let num_matrices = 10;
    for i in 0..num_matrices {
        let col = vec![
            Scalar::from_u64((i + 1) as u64),
            Scalar::from_u64((i + 2) as u64),
            Scalar::from_u64((i + 3) as u64),
            Scalar::from_u64((i + 4) as u64),
        ];
        let row = vec![
            Scalar::from_u64((i + 1) as u64),
            Scalar::from_u64((i + 5) as u64),
            Scalar::from_u64((i + 6) as u64),
            Scalar::from_u64((i + 7) as u64),
        ];
        let vector = vec![
            generator_times((i + 1) as u64),
            generator_times((i + 2) as u64),
            generator_times((i + 3) as u64),
            generator_times((i + 4) as u64),
        ];

        vectors.push(vector);
        toeplitz_matrices.push((row, col));
    }

    let matrices = || -> Vec<ToeplitzMatrix> {
        toeplitz_matrices.iter().map(|(row, col)| ToeplitzMatrix::new(row.clone(), col.clone())).collect()
    };

    let bm = BatchToeplitzMatrixVecMul::new(vectors.clone());
    let got_result = bm.sum_matrix_vector_mul(matrices());

    let mut expected_result = vec![G1Point::identity(); got_result.len()];
    for (matrix, vector) in matrices().into_iter().zip(vectors) {
        let intermediate_result = matrix.vector_mul_g1(vector);
        for (got, expected) in expected_result.iter_mut().zip(intermediate_result) {
            *got = got.add(&expected);
        }
    }

    assert_eq!(expected_result, got_result)
}

#[test]
fn toeplitz_product_by_hand() {
    // | 1 2 |   | G  |   | 1 + 6 |
    // | 5 1 | * | 3G | = | 5 + 3 |
    let m = ToeplitzMatrix::new(
        vec![Scalar::from_u64(1), Scalar::from_u64(2)],
        vec![Scalar::from_u64(1), Scalar::from_u64(5)],
    );
    let got = m.vector_mul_g1(vec![generator_times(1), generator_times(3)]);
    assert_eq!(got, vec![generator_times(7), generator_times(8)]);
}

#[test]
fn circulant_embedding_layout() {
    let s = |x: u64| Scalar::from_u64(x);
    let m = ToeplitzMatrix::new(vec![s(1), s(2), s(3), s(4)], vec![s(1), s(5), s(6), s(7)]);
    let c = CirculantMatrix::from_toeplitz(m);
    assert_eq!(c.row, vec![s(1), s(5), s(6), s(7), s(1), s(4), s(3), s(2)]);
}
