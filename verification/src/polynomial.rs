//! Polynomials in monomial form over the scalar field: coefficient `i` belongs
//! to `x^i`, lowest degree first.

use crate::field::{
    fadd, fmul, fneg, fsub, is_residue, lemma_fadd_comm, lemma_fadd_range, lemma_fadd_zero,
    lemma_fmul_comm, lemma_fmul_zero, lemma_fsub_is_add_neg, values, Scalar,
};
use vstd::prelude::*;

verus! {

/// A polynomial in monomial form, lowest degree first.
pub type PolyCoeff = Vec<Scalar>;

/// Coefficient `i` of `p`, zero beyond its length.
pub open spec fn coeff(p: Seq<int>, i: int) -> int {
    if 0 <= i < p.len() {
        p[i]
    } else {
        0
    }
}

/// The sum of two polynomials: as long as the longer one, coefficients added
/// where both have one and kept where only one has.
pub open spec fn poly_add_spec(a: Seq<int>, b: Seq<int>) -> Seq<int> {
    Seq::new(
        if a.len() < b.len() {
            b.len()
        } else {
            a.len()
        },
        |i: int|
            if i < a.len() && i < b.len() {
                fadd(a[i], b[i])
            } else if i < a.len() {
                a[i]
            } else {
                b[i]
            },
    )
}

/// The negation of a polynomial.
pub open spec fn poly_neg_spec(a: Seq<int>) -> Seq<int> {
    Seq::new(a.len(), |i: int| fneg(a[i]))
}

/// The difference of two polynomials.
pub open spec fn poly_sub_spec(a: Seq<int>, b: Seq<int>) -> Seq<int> {
    Seq::new(
        if a.len() < b.len() {
            b.len()
        } else {
            a.len()
        },
        |i: int|
            if i < a.len() && i < b.len() {
                fsub(a[i], b[i])
            } else if i < a.len() {
                a[i]
            } else {
                fneg(b[i])
            },
    )
}

/// The value of the polynomial `p` at `x`.
pub open spec fn poly_eval_spec(p: Seq<int>, x: int) -> int
    decreases p.len(),
{
    if p.len() == 0 {
        0int
    } else {
        fadd(p[0], fmul(x, poly_eval_spec(p.drop_first(), x)))
    }
}

/// The sum of the products `a[i] * b[k - i]` over the first `n` indices `i`.
pub open spec fn conv_sum(a: Seq<int>, b: Seq<int>, k: int, n: nat) -> int
    decreases n,
{
    if n == 0 {
        0int
    } else {
        fadd(conv_sum(a, b, k, (n - 1) as nat), fmul(coeff(a, n - 1), coeff(b, k - (n - 1))))
    }
}

/// The product of two polynomials: coefficient `k` is the sum of all
/// `a[i] * b[j]` with `i + j == k`. The product has one coefficient fewer than
/// the two factors have together.
pub open spec fn poly_mul_spec(a: Seq<int>, b: Seq<int>) -> Seq<int> {
    Seq::new(
        if a.len() + b.len() == 0 {
            0nat
        } else {
            (a.len() + b.len() - 1) as nat
        },
        |k: int| conv_sum(a, b, k, a.len()),
    )
}

/// The linear factor `x - root`.
pub open spec fn linear_factor(root: int) -> Seq<int> {
    seq![fneg(root), 1int]
}

/// The product of the factors `x - roots[i]`.
pub open spec fn vanishing_poly_spec(roots: Seq<int>) -> Seq<int>
    decreases roots.len(),
{
    if roots.len() == 0 {
        seq![1int]
    } else {
        poly_mul_spec(vanishing_poly_spec(roots.drop_last()), linear_factor(roots.last()))
    }
}

pub proof fn lemma_poly_eval_range(p: Seq<int>, x: int)
    ensures
        is_residue(poly_eval_spec(p, x)),
    decreases p.len(),
{
    if p.len() > 0 {
        lemma_fadd_range(p[0], fmul(x, poly_eval_spec(p.drop_first(), x)));
    }
}

pub proof fn lemma_conv_sum_range(a: Seq<int>, b: Seq<int>, k: int, n: nat)
    ensures
        is_residue(conv_sum(a, b, k, n)),
    decreases n,
{
    if n > 0 {
        lemma_fadd_range(conv_sum(a, b, k, (n - 1) as nat), fmul(coeff(a, n - 1), coeff(b, k - (n - 1))));
    }
}

/// The difference is the sum with the negated second operand.
pub proof fn lemma_sub_is_add_neg(a: Seq<int>, b: Seq<int>)
    ensures
        poly_sub_spec(a, b) =~= poly_add_spec(a, poly_neg_spec(b)),
{
    let s = poly_sub_spec(a, b);
    let t = poly_add_spec(a, poly_neg_spec(b));
    assert forall|i: int| 0 <= i < s.len() implies s[i] == t[i] by {
        if i < a.len() && i < b.len() {
            lemma_fsub_is_add_neg(a[i], b[i]);
        }
    }
}

/// For two polynomials, `f(x)` and `g(x)`, computes `f(x) + g(x)`.
/// The polynomials may differ in length.
pub fn poly_add(a: PolyCoeff, b: PolyCoeff) -> (r: PolyCoeff)
    ensures
        values(r@) == poly_add_spec(values(a@), values(b@)),
{
    let ghost va = values(a@);
    let ghost vb = values(b@);
    let (smaller_poly, mut larger_poly) = if a.len() < b.len() {
        (a, b)
    } else {
        (b, a)
    };
    let ghost vs = values(smaller_poly@);
    let ghost vl = values(larger_poly@);
    let n = smaller_poly.len();
    let mut i: usize = 0;
    while i < n
        invariant
            i <= n,
            n == smaller_poly.len(),
            n <= larger_poly.len(),
            larger_poly.len() == vl.len(),
            vs == values(smaller_poly@),
            forall|j: int| 0 <= j < i ==> (#[trigger] larger_poly@[j]).value() == fadd(vl[j], vs[j]),
            forall|j: int| i <= j < larger_poly.len() ==> (#[trigger] larger_poly@[j]).value() == vl[j],
        decreases n - i,
    {
        let s = larger_poly[i].add(&smaller_poly[i]);
        larger_poly.set(i, s);
        i += 1;
    }
    proof {
        let r = values(larger_poly@);
        let e = poly_add_spec(va, vb);
        assert(r.len() == e.len());
        assert forall|j: int| 0 <= j < r.len() implies r[j] == e[j] by {
            if j < n {
                lemma_fadd_comm(vl[j], vs[j]);
            }
        }
        assert(r =~= e);
    }
    larger_poly
}

/// For a polynomial `f(x)`, computes `-f(x)`.
pub fn poly_neg(a: PolyCoeff) -> (r: PolyCoeff)
    ensures
        values(r@) == poly_neg_spec(values(a@)),
{
    let ghost va = values(a@);
    let mut a = a;
    let n = a.len();
    let mut i: usize = 0;
    while i < n
        invariant
            i <= n,
            n == a.len(),
            n == va.len(),
            forall|j: int| 0 <= j < i ==> (#[trigger] a@[j]).value() == fneg(va[j]),
            forall|j: int| i <= j < n ==> (#[trigger] a@[j]).value() == va[j],
        decreases n - i,
    {
        let s = a[i].neg();
        a.set(i, s);
        i += 1;
    }
    assert(values(a@) =~= poly_neg_spec(va));
    a
}

/// For two polynomials, `f(x)` and `g(x)`, computes `f(x) - g(x)`.
/// The polynomials may differ in length.
pub fn poly_sub(a: PolyCoeff, b: PolyCoeff) -> (r: PolyCoeff)
    ensures
        values(r@) == poly_sub_spec(values(a@), values(b@)),
{
    proof {
        lemma_sub_is_add_neg(values(a@), values(b@));
    }
    let neg_b = poly_neg(b);
    poly_add(a, neg_b)
}

/// Given a polynomial `f(x)` and a scalar `z`, computes `f(z)`.
pub fn poly_eval(poly: &PolyCoeff, value: &Scalar) -> (r: Scalar)
    ensures
        r.value() == poly_eval_spec(values(poly@), value.value()),
{
    let ghost p = values(poly@);
    let ghost x = value.value();
    let n = poly.len();
    let mut result = Scalar::from_u64(0);
    let mut i: usize = n;
    assert(p.subrange(n as int, n as int).len() == 0);
    while i > 0
        invariant
            i <= n,
            n == poly.len(),
            p == values(poly@),
            x == value.value(),
            result.value() == poly_eval_spec(p.subrange(i as int, n as int), x),
        decreases i,
    {
        i -= 1;
        let t = result.mul(value);
        result = t.add(&poly[i]);
        proof {
            let cur = p.subrange(i as int, n as int);
            assert(cur.drop_first() =~= p.subrange(i + 1, n as int));
            assert(cur[0] == poly@[i as int].value());
            lemma_fmul_comm(x, poly_eval_spec(cur.drop_first(), x));
            lemma_fadd_comm(cur[0], fmul(x, poly_eval_spec(cur.drop_first(), x)));
        }
    }
    assert(p.subrange(0, n as int) =~= p);
    result
}

/// For two polynomials, `f(x)` and `g(x)`, computes `f(x) * g(x)`.
pub fn poly_mul(a: &PolyCoeff, b: &PolyCoeff) -> (r: PolyCoeff)
    requires
        a.len() + b.len() <= usize::MAX,
    ensures
        values(r@) == poly_mul_spec(values(a@), values(b@)),
        r.len() == poly_mul_spec(values(a@), values(b@)).len(),
{
    let ghost va = values(a@);
    let ghost vb = values(b@);
    let total = a.len() + b.len();
    let len = if total == 0 {
        0
    } else {
        total - 1
    };
    let mut result: Vec<Scalar> = Vec::new();
    let mut k: usize = 0;
    while k < len
        invariant
            k <= len,
            result.len() == k,
            forall|j: int| 0 <= j < k ==> (#[trigger] result@[j]).value() == 0,
        decreases len - k,
    {
        result.push(Scalar::zero());
        k += 1;
    }
    let mut i: usize = 0;
    while i < a.len()
        invariant
            i <= a.len(),
            result.len() == len,
            total == a.len() + b.len(),
            len == if total == 0 { 0int } else { total - 1 },
            va == values(a@),
            vb == values(b@),
            forall|k: int| 0 <= k < len ==> (#[trigger] result@[k]).value() == conv_sum(va, vb, k, i as nat),
        decreases a.len() - i,
    {
        let mut j: usize = 0;
        while j < b.len()
            invariant
                j <= b.len(),
                i < a.len(),
                result.len() == len,
                total == a.len() + b.len(),
                len == total - 1,
                va == values(a@),
                vb == values(b@),
                forall|k: int|
                    0 <= k < len ==> (#[trigger] result@[k]).value() == if i <= k < i + j {
                        conv_sum(va, vb, k, (i + 1) as nat)
                    } else {
                        conv_sum(va, vb, k, i as nat)
                    },
            decreases b.len() - j,
        {
            let t = a[i].mul(&b[j]);
            let s = result[i + j].add(&t);
            result.set(i + j, s);
            j += 1;
        }
        proof {
            assert forall|k: int| 0 <= k < len implies (#[trigger] result@[k]).value() == conv_sum(
                va,
                vb,
                k,
                (i + 1) as nat,
            ) by {
                if !(i <= k < i + b.len()) {
                    // the term of index i does not reach coefficient k
                    assert(coeff(vb, k - i) == 0);
                    lemma_fmul_zero(coeff(va, i as int));
                    lemma_conv_sum_range(va, vb, k, i as nat);
                    lemma_fadd_zero(conv_sum(va, vb, k, i as nat));
                }
            }
        }
        i += 1;
    }
    assert(values(result@) =~= poly_mul_spec(va, vb));
    result
}

/// Given a list of points, computes the polynomial `Z(x)` that is zero at each
/// of them: `vanishing_poly([1, 2, 3]) = (x - 1)(x - 2)(x - 3)`.
pub fn vanishing_poly(roots: &[Scalar]) -> (r: Vec<Scalar>)
    requires
        roots.len() < usize::MAX - 1,
    ensures
        values(r@) == vanishing_poly_spec(values(roots@)),
        r.len() == roots.len() + 1,
        forall|i: int|
            0 <= i < roots.len() ==> poly_eval_spec(values(r@), #[trigger] values(roots@)[i]) == 0,
{
    let ghost vr = values(roots@);
    let mut poly: Vec<Scalar> = Vec::new();
    poly.push(Scalar::from_u64(1));
    assert(values(poly@) =~= vanishing_poly_spec(vr.subrange(0, 0)));
    let mut i: usize = 0;
    while i < roots.len()
        invariant
            i <= roots.len(),
            roots.len() < usize::MAX - 1,
            vr == values(roots@),
            poly.len() == i + 1,
            values(poly@) == vanishing_poly_spec(vr.subrange(0, i as int)),
        decreases roots.len() - i,
    {
        let mut factor: Vec<Scalar> = Vec::new();
        factor.push(roots[i].neg());
        factor.push(Scalar::from_u64(1));
        proof {
            assert(values(factor@) =~= linear_factor(vr[i as int]));
            let next = vr.subrange(0, i + 1);
            assert(next.drop_last() =~= vr.subrange(0, i as int));
            assert(next.last() == vr[i as int]);
        }
        poly = poly_mul(&poly, &factor);
        i += 1;
    }
    proof {
        assert(vr.subrange(0, roots.len() as int) =~= vr);
        assert forall|i: int| 0 <= i < roots.len() implies poly_eval_spec(
            values(poly@),
            #[trigger] vr[i],
        ) == 0 by {
            crate::evaluation::lemma_vanishing_poly_vanishes(vr, i);
        }
    }
    poly
}

} // verus!
