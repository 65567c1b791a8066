use peerdas_kzg::field::Scalar;
use peerdas_kzg::polynomial::{poly_add, poly_eval, poly_mul, poly_neg, poly_sub, vanishing_poly, PolyCoeff};

fn s(x: u64) -> Scalar {
    Scalar::from_u64(x)
}

fn naive_poly_eval(poly: &PolyCoeff, value: &Scalar) -> Scalar {
    let mut result = Scalar::from_u64(0);
    let mut power = Scalar::from_u64(1);
    for coeff in poly.iter() {
        result = result.add(&coeff.mul(&power));
        power = power.mul(value);
    }
    result
}

#[test]
fn basic_polynomial_add() {
    let a = vec![s(1), s(2), s(3)];
    let b = vec![s(4), s(5), s(6)];
    let c = vec![s(5), s(7), s(9)];
    assert_eq!(poly_add(a, b), c);

    let a = vec![s(2), s(3)];
    let b = vec![s(4), s(5), s(6)];
    let c = vec![s(6), s(8), s(6)];
    assert_eq!(poly_add(a, b), c);
}

#[test]
fn polynomial_neg() {
    let a = vec![s(1), s(2), s(3)];
    let b = vec![s(1).neg(), s(2).neg(), s(3).neg()];
    assert_eq!(poly_neg(a), b);
}

#[test]
fn basic_polynomial_subtraction() {
    let a = vec![s(1), s(2), s(3)];
    let b = vec![s(4), s(5), s(6)];
    let c = vec![s(3).neg(), s(3).neg(), s(3).neg()];
    assert_eq!(poly_sub(a, b), c);

    let a = vec![s(4), s(5)];
    let b = vec![s(6), s(7), s(8)];
    let c = vec![s(2).neg(), s(2).neg(), s(8).neg()];
    assert_eq!(poly_sub(a, b), c);
}

#[test]
fn polynomial_evaluation() {
    // f(x) = 1 + 2x + 3x^2
    // f(2) = 1 + 2*2 + 3*2^2 = 1 + 4 + 12 = 17
    let poly = vec![s(1), s(2), s(3)];
    let value = s(2);
    assert!(poly_eval(&poly, &value) == naive_poly_eval(&poly, &value));
    assert_eq!(poly_eval(&poly, &value), s(17));
}

#[test]
fn polynomial_multiplication() {
    // f(x) = 1 + 2x + 3x^2
    // g(x) = 4 + 5x
    // f(x) * g(x) = 4 + 13x + 22x^2 + 15x^3
    let a = vec![s(1), s(2), s(3)];
    let b = vec![s(4), s(5)];
    let expected = vec![s(4), s(13), s(22), s(15)];
    assert_eq!(poly_mul(&a, &b), expected);
}

#[test]
fn vanishing_polynomial_smoke_test() {
    // f(x) = (x - 1)(x - 2)(x - 3) = x^3 - 6x^2 + 11x - 6
    let roots = vec![s(1), s(2), s(3)];
    let expected = vec![s(6).neg(), s(11), s(6).neg(), s(1)];
    let poly = vanishing_poly(&roots);
    assert_eq!(&poly, &expected);

    // Check that this polynomial evaluates to zero on the roots
    for root in roots.iter() {
        assert_eq!(poly_eval(&poly, &root), s(0));
    }
}
