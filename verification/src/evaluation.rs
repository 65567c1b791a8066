//! Evaluation and multiplication of polynomials: the value of a product is
//! the product of the values, and the vanishing polynomial of a list of
//! points is zero at each of them.

use crate::algebra::{
    congruent, int_eval, lemma_cong_add, lemma_cong_mul, lemma_eval_is_int_eval, lemma_ops_cong,
};
use crate::algebra::lemma_int_eval_cong;
use crate::field::{fmul, fneg, fpow, lemma_fmul_zero, lemma_residue_mod, modulus, values, Scalar};
use crate::polynomial::{
    coeff, conv_sum, linear_factor, poly_eval_spec, poly_mul_spec, vanishing_poly_spec,
};
use vstd::arithmetic::div_mod::lemma_mod_twice;
use vstd::prelude::*;

verus! {

/// The sum of the products `a[i] * b[k - i]` over the first `n` indices `i`,
/// over the integers.
pub open spec fn int_conv(a: Seq<int>, b: Seq<int>, k: int, n: nat) -> int
    decreases n,
{
    if n == 0 {
        0int
    } else {
        int_conv(a, b, k, (n - 1) as nat) + coeff(a, n - 1) * coeff(b, k - (n - 1))
    }
}

/// The product of two polynomials over the integers, with `len`
/// coefficients.
pub open spec fn int_mul(a: Seq<int>, b: Seq<int>, len: nat) -> Seq<int> {
    Seq::new(len, |k: int| int_conv(a, b, k, a.len()))
}

/// Whether two sequences of one length are congruent item by item.
pub open spec fn congruent_seqs(p: Seq<int>, q: Seq<int>) -> bool {
    p.len() == q.len() && forall|i: int| 0 <= i < p.len() ==> congruent(#[trigger] p[i], q[i])
}

/// The coefficients of a product in the field are those of the product over
/// the integers, reduced.
pub proof fn lemma_conv_is_int_conv(a: Seq<int>, b: Seq<int>, k: int, n: nat)
    ensures
        congruent(conv_sum(a, b, k, n), int_conv(a, b, k, n)),
    decreases n,
{
    if n > 0 {
        let m = (n - 1) as nat;
        lemma_conv_is_int_conv(a, b, k, m);
        let x = coeff(a, n - 1);
        let y = coeff(b, k - (n - 1));
        lemma_ops_cong(x, y);
        lemma_cong_add(conv_sum(a, b, k, m), int_conv(a, b, k, m), fmul(x, y), x * y);
        lemma_ops_cong(conv_sum(a, b, k, m), fmul(x, y));
    }
}

/// Evaluation over the integers respects congruence of the coefficients.
pub proof fn lemma_int_eval_cong_coeffs(p: Seq<int>, q: Seq<int>, x: int)
    requires
        congruent_seqs(p, q),
    ensures
        congruent(int_eval(p, x), int_eval(q, x)),
    decreases p.len(),
{
    if p.len() > 0 {
        let p1 = p.drop_first();
        let q1 = q.drop_first();
        assert(congruent_seqs(p1, q1)) by {
            assert forall|i: int| 0 <= i < p1.len() implies congruent(#[trigger] p1[i], q1[i]) by {
                assert(congruent(p[i + 1], q[i + 1]));
            }
        }
        lemma_int_eval_cong_coeffs(p1, q1, x);
        assert(congruent(x, x));
        lemma_cong_mul(x, x, int_eval(p1, x), int_eval(q1, x));
        assert(congruent(p[0], q[0]));
        lemma_cong_add(p[0], q[0], x * int_eval(p1, x), x * int_eval(q1, x));
    }
}

/// The first term of a coefficient of a product, split off.
pub proof fn lemma_int_conv_first(a: Seq<int>, b: Seq<int>, k: int, n: nat)
    requires
        n >= 1,
        a.len() >= 1,
    ensures
        int_conv(a, b, k, n) == a[0] * coeff(b, k) + int_conv(a.drop_first(), b, k - 1, (n - 1) as nat),
    decreases n,
{
    let a1 = a.drop_first();
    if n == 1 {
        assert(int_conv(a, b, k, 0) == 0);
        assert(int_conv(a1, b, k - 1, 0) == 0);
        assert(coeff(a, 0) == a[0]);
    } else {
        let m = (n - 1) as nat;
        lemma_int_conv_first(a, b, k, m);
        assert(coeff(a, n - 1) == coeff(a1, n - 2));
        assert(k - (n - 1) == (k - 1) - (n - 2));
        assert(int_conv(a1, b, k - 1, m) == int_conv(a1, b, k - 1, (m - 1) as nat) + coeff(a1, m - 1)
            * coeff(b, (k - 1) - (m - 1)));
    }
}

/// The value of the polynomial whose coefficients are given by `f`, with
/// `len` coefficients from position `from` on.
pub open spec fn int_eval_fn(f: spec_fn(int) -> int, from: int, len: nat, x: int) -> int
    decreases len,
{
    if len == 0 {
        0int
    } else {
        f(from) + x * int_eval_fn(f, from + 1, (len - 1) as nat, x)
    }
}

/// Evaluation of a sequence is evaluation of its coefficient function.
pub proof fn lemma_int_eval_as_fn(p: Seq<int>, f: spec_fn(int) -> int, from: int, x: int)
    requires
        forall|i: int| 0 <= i < p.len() ==> p[i] == #[trigger] f(from + i),
    ensures
        int_eval(p, x) == int_eval_fn(f, from, p.len(), x),
    decreases p.len(),
{
    if p.len() > 0 {
        let p1 = p.drop_first();
        assert(p[0] == f(from + 0));
        assert forall|i: int| 0 <= i < p1.len() implies p1[i] == #[trigger] f(from + 1 + i) by {
            assert(p1[i] == p[i + 1]);
            assert(p[i + 1] == f(from + (i + 1)));
        }
        lemma_int_eval_as_fn(p1, f, from + 1, x);
    }
}

/// Evaluation is additive in the coefficient function, and homogeneous.
pub proof fn lemma_int_eval_fn_linear(
    f: spec_fn(int) -> int,
    g: spec_fn(int) -> int,
    s: spec_fn(int) -> int,
    c: int,
    from: int,
    len: nat,
    x: int,
)
    requires
        forall|i: int| from <= i < from + len ==> #[trigger] s(i) == c * f(i) + g(i),
    ensures
        int_eval_fn(s, from, len, x) == c * int_eval_fn(f, from, len, x) + int_eval_fn(g, from, len, x),
    decreases len,
{
    if len > 0 {
        lemma_int_eval_fn_linear(f, g, s, c, from + 1, (len - 1) as nat, x);
        let fe = int_eval_fn(f, from + 1, (len - 1) as nat, x);
        let ge = int_eval_fn(g, from + 1, (len - 1) as nat, x);
        assert(s(from) == c * f(from) + g(from));
        assert((c * f(from) + g(from)) + x * (c * fe + ge) == c * (f(from) + x * fe) + (g(from) + x * ge))
            by (nonlinear_arith);
    }
}

/// A coefficient function that is zero gives the value zero.
pub proof fn lemma_int_eval_fn_zero(f: spec_fn(int) -> int, from: int, len: nat, x: int)
    requires
        forall|i: int| from <= i < from + len ==> #[trigger] f(i) == 0,
    ensures
        int_eval_fn(f, from, len, x) == 0,
    decreases len,
{
    if len > 0 {
        lemma_int_eval_fn_zero(f, from + 1, (len - 1) as nat, x);
        assert(f(from) == 0);
        assert(x * 0 == 0) by (nonlinear_arith);
    }
}

/// Coefficients beyond the length of a polynomial, all zero, do not change
/// its value.
pub proof fn lemma_int_eval_fn_coeff(b: Seq<int>, len: nat, x: int)
    requires
        len >= b.len(),
    ensures
        int_eval_fn(|k: int| coeff(b, k), 0, len, x) == int_eval(b, x),
    decreases len - b.len(),
{
    let f = |k: int| coeff(b, k);
    if len == b.len() {
        assert forall|i: int| 0 <= i < b.len() implies b[i] == #[trigger] f(0 + i) by {}
        lemma_int_eval_as_fn(b, f, 0, x);
    } else {
        lemma_int_eval_fn_coeff(b, (len - 1) as nat, x);
        lemma_int_eval_fn_append_zero(f, 0, (len - 1) as nat, x);
    }
}

/// One more coefficient, zero, does not change the value.
pub proof fn lemma_int_eval_fn_append_zero(f: spec_fn(int) -> int, from: int, len: nat, x: int)
    requires
        f(from + len) == 0,
    ensures
        int_eval_fn(f, from, len + 1, x) == int_eval_fn(f, from, len, x),
    decreases len,
{
    if len == 0 {
        assert(int_eval_fn(f, from + 1, 0, x) == 0);
        assert(x * 0 == 0) by (nonlinear_arith);
    } else {
        lemma_int_eval_fn_append_zero(f, from + 1, (len - 1) as nat, x);
    }
}

/// Moving every coefficient up by one multiplies the value by `x`: the
/// coefficient function `g` is `f` one position earlier, and zero at `from`.
pub proof fn lemma_int_eval_fn_shift(
    f: spec_fn(int) -> int,
    g: spec_fn(int) -> int,
    from: int,
    len: nat,
    x: int,
)
    requires
        forall|i: int| from <= i < from + len ==> #[trigger] g(i + 1) == f(i),
    ensures
        int_eval_fn(g, from + 1, len, x) == int_eval_fn(f, from, len, x),
    decreases len,
{
    if len > 0 {
        assert(g(from + 1) == f(from));
        lemma_int_eval_fn_shift(f, g, from + 1, (len - 1) as nat, x);
    }
}

/// Over the integers, the value of a product is the product of the values:
/// for the product taken with any number of coefficients that holds all of
/// them.
pub proof fn lemma_int_mul_eval(a: Seq<int>, b: Seq<int>, len: nat, x: int)
    requires
        len + 1 >= a.len() + b.len(),
    ensures
        int_eval(int_mul(a, b, len), x) == int_eval(a, x) * int_eval(b, x),
    decreases a.len(),
{
    let prod = |k: int| int_conv(a, b, k, a.len());
    assert forall|i: int| 0 <= i < len implies int_mul(a, b, len)[i] == #[trigger] prod(0 + i) by {}
    lemma_int_eval_as_fn(int_mul(a, b, len), prod, 0, x);
    if a.len() == 0 {
        assert forall|i: int| 0 <= i < 0 + len implies #[trigger] prod(i) == 0 by {}
        lemma_int_eval_fn_zero(prod, 0, len, x);
        assert(0 * int_eval(b, x) == 0);
    } else if len == 0 {
        // one coefficient and no product: the other polynomial is empty
        assert(b.len() == 0);
        assert(int_eval(a, x) * 0 == 0) by (nonlinear_arith);
    } else {
        let a1 = a.drop_first();
        let m = (len - 1) as nat;
        let fb = |k: int| coeff(b, k);
        let rest = |k: int| int_conv(a1, b, k, a1.len());
        let shifted = |k: int| int_conv(a1, b, k - 1, a1.len());
        // each coefficient is the first term plus the product of the rest,
        // one position earlier
        assert forall|i: int| 0 <= i < 0 + len implies #[trigger] prod(i) == a[0] * fb(i) + shifted(i) by {
            lemma_int_conv_first(a, b, i, a.len());
        }
        lemma_int_eval_fn_linear(fb, shifted, prod, a[0], 0, len, x);
        lemma_int_eval_fn_coeff(b, len, x);
        // the shifted part: zero at position zero, then the product of the rest
        assert(shifted(0) == 0) by {
            lemma_int_conv_negative(a1, b, -1, a1.len());
        }
        assert forall|i: int| 0 <= i < 0 + m implies #[trigger] shifted(i + 1) == rest(i) by {}
        lemma_int_eval_fn_shift(rest, shifted, 0, m, x);
        assert(int_eval_fn(shifted, 0, len, x) == shifted(0) + x * int_eval_fn(shifted, 1, m, x));
        // the product of the rest
        lemma_int_mul_eval(a1, b, m, x);
        assert forall|i: int| 0 <= i < m implies int_mul(a1, b, m)[i] == #[trigger] rest(0 + i) by {}
        lemma_int_eval_as_fn(int_mul(a1, b, m), rest, 0, x);
        let av = int_eval(a1, x);
        let bv = int_eval(b, x);
        assert(a[0] * bv + (0 + x * (av * bv)) == (a[0] + x * av) * bv) by (nonlinear_arith);
    }
}

/// A coefficient of a product below position zero is zero.
pub proof fn lemma_int_conv_negative(a: Seq<int>, b: Seq<int>, k: int, n: nat)
    requires
        k < 0,
    ensures
        int_conv(a, b, k, n) == 0,
    decreases n,
{
    if n > 0 {
        lemma_int_conv_negative(a, b, k, (n - 1) as nat);
        assert(coeff(b, k - (n - 1)) == 0);
        assert(coeff(a, n - 1) * 0 == 0) by (nonlinear_arith);
    }
}

/// The value of a product is the product of the values.
pub proof fn lemma_poly_mul_eval(a: Seq<int>, b: Seq<int>, x: int)
    ensures
        poly_eval_spec(poly_mul_spec(a, b), x) == fmul(poly_eval_spec(a, x), poly_eval_spec(b, x)),
{
    let p = poly_mul_spec(a, b);
    let len = p.len();
    let q = int_mul(a, b, len);
    assert(congruent_seqs(p, q)) by {
        assert forall|i: int| 0 <= i < p.len() implies congruent(#[trigger] p[i], q[i]) by {
            lemma_conv_is_int_conv(a, b, i, a.len());
        }
    }
    lemma_int_eval_cong_coeffs(p, q, x);
    lemma_int_mul_eval(a, b, len, x);
    lemma_eval_is_int_eval(p, x);
    lemma_eval_is_int_eval(a, x);
    lemma_eval_is_int_eval(b, x);
    let av = int_eval(a, x);
    let bv = int_eval(b, x);
    lemma_mod_twice(av, modulus());
    lemma_mod_twice(bv, modulus());
    lemma_cong_mul(poly_eval_spec(a, x), av, poly_eval_spec(b, x), bv);
    lemma_ops_cong(poly_eval_spec(a, x), poly_eval_spec(b, x));
    lemma_mod_twice(int_eval(p, x), modulus());
}

/// The linear factor of a root is zero at the root.
pub proof fn lemma_linear_factor_root(root: int)
    ensures
        poly_eval_spec(linear_factor(root), root) == 0,
{
    let p = linear_factor(root);
    lemma_eval_is_int_eval(p, root);
    assert(p.drop_first().len() == 1);
    assert(p.drop_first()[0] == 1);
    assert(p.drop_first().drop_first().len() == 0);
    assert(int_eval(p.drop_first().drop_first(), root) == 0);
    assert(int_eval(p.drop_first(), root) == 1 + root * 0);
    assert(root * 0 == 0) by (nonlinear_arith);
    assert(int_eval(p, root) == fneg(root) + root * 1);
    lemma_ops_cong(root, root);
    assert(congruent(root, root));
    lemma_cong_add(fneg(root), -root, root, root);
    lemma_residue_mod(0);
}

/// The vanishing polynomial of a list of points is zero at each of them.
pub proof fn lemma_vanishing_poly_vanishes(roots: Seq<int>, i: int)
    requires
        0 <= i < roots.len(),
    ensures
        poly_eval_spec(vanishing_poly_spec(roots), roots[i]) == 0,
    decreases roots.len(),
{
    let x = roots[i];
    let head = vanishing_poly_spec(roots.drop_last());
    let factor = linear_factor(roots.last());
    lemma_poly_mul_eval(head, factor, x);
    if i == roots.len() - 1 {
        lemma_linear_factor_root(x);
        lemma_fmul_zero(poly_eval_spec(head, x));
    } else {
        lemma_vanishing_poly_vanishes(roots.drop_last(), i);
        lemma_fmul_zero(poly_eval_spec(factor, x));
    }
}

/// Item `i` multiplied by the power `i` of `g`.
pub open spec fn scaled_by_powers(v: Seq<int>, g: int) -> Seq<int> {
    Seq::new(v.len(), |i: int| fmul(v[i], fpow(g, i as nat)))
}

/// Item `i` of `v` multiplied by the power `i` of `g`.
pub fn scale_by_powers(v: &Vec<Scalar>, g: &Scalar) -> (r: Vec<Scalar>)
    ensures
        values(r@) == scaled_by_powers(values(v@), g.value()),
        r.len() == v.len(),
{
    let mut out: Vec<Scalar> = Vec::new();
    let mut gp = Scalar::one();
    let mut i: usize = 0;
    while i < v.len()
        invariant
            i <= v.len(),
            out.len() == i,
            gp.value() == fpow(g.value(), i as nat),
            forall|j: int|
                0 <= j < i ==> (#[trigger] out@[j]).value() == fmul(
                    v@[j].value(),
                    fpow(g.value(), j as nat),
                ),
        decreases v.len() - i,
    {
        out.push(v[i].mul(&gp));
        gp = g.mul(&gp);
        i += 1;
    }
    assert(values(out@) =~= scaled_by_powers(values(v@), g.value()));
    out
}

/// Every coefficient multiplied by `c`, over the integers.
pub open spec fn int_scaled(p: Seq<int>, c: int) -> Seq<int> {
    Seq::new(p.len(), |i: int| c * p[i])
}

/// Multiplying every coefficient by `c` multiplies the value by `c`.
pub proof fn lemma_int_eval_scaled(p: Seq<int>, c: int, x: int)
    ensures
        int_eval(int_scaled(p, c), x) == c * int_eval(p, x),
    decreases p.len(),
{
    if p.len() == 0 {
        assert(c * 0 == 0) by (nonlinear_arith);
    } else {
        let p1 = p.drop_first();
        lemma_int_eval_scaled(p1, c, x);
        assert(int_scaled(p, c).drop_first() =~= int_scaled(p1, c));
        let v = int_eval(p1, x);
        assert(c * p[0] + x * (c * v) == c * (p[0] + x * v)) by (nonlinear_arith);
    }
}

/// Over the integers, up to congruence: the polynomial with coefficient `i`
/// multiplied by the power `i` of `c` has at `x` the value of the
/// polynomial at `c x`.
pub proof fn lemma_int_eval_powers(a: Seq<int>, c: int, x: int)
    ensures
        congruent(int_eval(scaled_by_powers(a, c), x), int_eval(a, c * x)),
    decreases a.len(),
{
    if a.len() > 0 {
        let a1 = a.drop_first();
        let s = scaled_by_powers(a, c);
        let s1 = scaled_by_powers(a1, c);
        lemma_int_eval_powers(a1, c, x);
        // the rest of the coefficients are those of the rest, times c
        assert(congruent_seqs(s.drop_first(), int_scaled(s1, c))) by {
            assert forall|i: int| 0 <= i < s1.len() implies congruent(
                #[trigger] s.drop_first()[i],
                int_scaled(s1, c)[i],
            ) by {
                let e = fpow(c, i as nat);
                assert(s.drop_first()[i] == fmul(a[i + 1], fpow(c, (i + 1) as nat)));
                assert(fpow(c, (i + 1) as nat) == fmul(c, e));
                assert(s1[i] == fmul(a1[i], e));
                lemma_ops_cong(a[i + 1], fmul(c, e));
                lemma_ops_cong(c, e);
                lemma_ops_cong(a1[i], e);
                assert(congruent(a[i + 1], a[i + 1]));
                assert(congruent(c, c));
                lemma_cong_mul(a[i + 1], a[i + 1], fmul(c, e), c * e);
                lemma_cong_mul(c, c, fmul(a1[i], e), a1[i] * e);
                assert(a[i + 1] * (c * e) == c * (a1[i] * e)) by (nonlinear_arith)
                    requires
                        a[i + 1] == a1[i],
                ;
            }
        }
        lemma_int_eval_cong_coeffs(s.drop_first(), int_scaled(s1, c), x);
        lemma_int_eval_scaled(s1, c, x);
        let v1 = int_eval(s1, x);
        let w1 = int_eval(a1, c * x);
        // the first coefficient is unchanged
        assert(congruent(s[0], a[0])) by {
            assert(s[0] == fmul(a[0], fpow(c, 0)));
            lemma_ops_cong(a[0], 1);
        }
        assert(congruent(c, c));
        assert(congruent(x, x));
        lemma_cong_mul(c, c, v1, w1);
        lemma_cong_mul(x, x, int_eval(s.drop_first(), x), c * v1);
        lemma_cong_mul(x, x, c * v1, c * w1);
        lemma_cong_add(s[0], a[0], x * int_eval(s.drop_first(), x), x * (c * w1));
        assert(x * (c * w1) == (c * x) * w1) by (nonlinear_arith);
    }
}

/// The polynomial with coefficient `i` multiplied by the power `i` of `c`
/// has at `x` the value of the polynomial at `c x`.
pub proof fn lemma_eval_scaled_by_powers(a: Seq<int>, c: int, x: int)
    ensures
        poly_eval_spec(scaled_by_powers(a, c), x) == poly_eval_spec(a, fmul(c, x)),
{
    lemma_eval_is_int_eval(scaled_by_powers(a, c), x);
    lemma_eval_is_int_eval(a, fmul(c, x));
    lemma_int_eval_powers(a, c, x);
    lemma_ops_cong(c, x);
    lemma_int_eval_cong(a, fmul(c, x), c * x);
}

} // verus!
