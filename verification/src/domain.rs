//! Evaluation domains: the powers of a root of unity of order a power of
//! two, and the transforms between coefficients and evaluations over them,
//! for scalars and for points of G1.

use crate::algebra::{
    even_items, lemma_butterfly_upper, lemma_eval_split, lemma_fpow_of_one, lemma_fpow_of_zero,
    lemma_half_turn, lemma_inverse_butterfly, lemma_neg_square, lemma_two_adic_root_order,
    lemma_two_adic_root_unit, odd_items, two_adic_root,
};
use crate::field::{
    fadd, finv, fmul, fpow, is_residue, lemma_fadd_zero, lemma_fmul_comm, lemma_fmul_zero,
    lemma_fpow_add, lemma_fpow_mul, lemma_fpow_of_product, lemma_residue_mod, modulus, values, Scalar,
};
use crate::group::{encodings, g1_difference, g1_identity_encoding, g1_scaled, g1_sum, G1Point};
use crate::polynomial::poly_eval_spec;
use vstd::prelude::*;

verus! {

/// Whether `n` is a power of two.
pub open spec fn is_pow2(n: int) -> bool
    decreases n,
{
    if n <= 1 {
        n == 1
    } else {
        n % 2 == 0 && is_pow2(n / 2)
    }
}

/// The largest size of a domain: the field has roots of unity of order `2^32`.
pub open spec fn max_domain_size() -> int {
    0x1_0000_0000
}

/// The root of unity of order `size` that the domain of that size is built
/// on, for a power of two `size` up to `2^32`.
pub open spec fn primitive_root(size: int) -> int {
    fpow(two_adic_root(), (max_domain_size() / size) as nat)
}

/// The evaluations of the polynomial `coeffs` at the first `size` powers of
/// `omega`.
pub open spec fn dft_spec(coeffs: Seq<int>, omega: int, size: nat) -> Seq<int> {
    Seq::new(size, |i: int| poly_eval_spec(coeffs, fpow(omega, i as nat)))
}

/// The transform of a sequence of points of G1 with the root `w`: the sum
/// over `j` of `points[j]` scaled by `w^(i j)`, taken in the order of the
/// radix-2 recursion. The length is a power of two.
pub open spec fn g1_fft_spec(points: Seq<Seq<u8>>, w: int) -> Seq<Seq<u8>>
    decreases points.len(),
{
    if points.len() <= 1 {
        points
    } else {
        let e = g1_fft_spec(even_items(points), fmul(w, w));
        let o = g1_fft_spec(odd_items(points), fmul(w, w));
        let h = points.len() / 2;
        Seq::new(
            points.len(),
            |i: int|
                if i < h {
                    g1_sum(e[i], g1_scaled(o[i], fpow(w, i as nat)))
                } else {
                    g1_difference(e[i - h], g1_scaled(o[i - h], fpow(w, (i - h) as nat)))
                },
        )
    }
}

/// The inverse butterflies of the inverse transform, level by level: the
/// lower and the upper half of `x` give the half sums and the half
/// differences, the latter turned back by the powers of the inverse root
/// `wi`; the inverse transforms of the two are interleaved. `half` is the
/// inverse of two.
pub open spec fn ifft_spec(x: Seq<int>, wi: int, half: int) -> Seq<int>
    decreases x.len(),
{
    if x.len() <= 1 {
        x
    } else {
        let h = x.len() / 2;
        let e = Seq::new(h, |i: int| fmul(fadd(x[i], x[i + h]), half));
        let o = Seq::new(
            h,
            |i: int| fmul(fmul(crate::field::fsub(x[i], x[i + h]), half), fpow(wi, i as nat)),
        );
        let ce = ifft_spec(e, fmul(wi, wi), half);
        let co = ifft_spec(o, fmul(wi, wi), half);
        Seq::new(
            x.len(),
            |i: int|
                if i % 2 == 0 {
                    ce[i / 2]
                } else {
                    co[i / 2]
                },
        )
    }
}

/// The inverse of two in the scalar field.
pub open spec fn inverse_of_two() -> int {
    (modulus() + 1) / 2
}

/// Every point of a sequence scaled by `k`.
pub open spec fn g1_scale_all(points: Seq<Seq<u8>>, k: int) -> Seq<Seq<u8>> {
    Seq::new(points.len(), |i: int| g1_scaled(points[i], k))
}

/// A sequence of points continued with the neutral element up to `size`.
pub open spec fn g1_padded(points: Seq<Seq<u8>>, size: nat) -> Seq<Seq<u8>> {
    Seq::new(
        size,
        |i: int|
            if i < points.len() {
                points[i]
            } else {
                g1_identity_encoding()
            },
    )
}

pub proof fn lemma_pow2_positive(n: int)
    requires
        is_pow2(n),
    ensures
        n >= 1,
    decreases n,
{
    if n > 1 {
        lemma_pow2_positive(n / 2);
    }
}

/// Of two powers of two, the smaller is at most half the larger.
pub proof fn lemma_pow2_below(t: int, b: int)
    requires
        is_pow2(t),
        is_pow2(b),
        t < b,
    ensures
        2 * t <= b,
    decreases t,
{
    lemma_pow2_positive(t);
    if t > 1 {
        lemma_pow2_below(t / 2, b / 2);
    }
}

pub proof fn lemma_pow2_double(t: int)
    requires
        is_pow2(t),
    ensures
        is_pow2(2 * t),
{
    lemma_pow2_positive(t);
    assert((2 * t) / 2 == t);
}

pub proof fn lemma_max_domain_size_pow2()
    ensures
        is_pow2(max_domain_size()),
{
    reveal_with_fuel(is_pow2, 34);
}

/// A polynomial continued with zero coefficients has the same values.
pub proof fn lemma_eval_padded(p: Seq<int>, q: Seq<int>, x: int)
    requires
        p.len() <= q.len(),
        forall|i: int| 0 <= i < p.len() ==> q[i] == p[i],
        forall|i: int| p.len() <= i < q.len() ==> q[i] == 0,
    ensures
        poly_eval_spec(q, x) == poly_eval_spec(p, x),
    decreases q.len(),
{
    if q.len() > 0 {
        let q1 = q.drop_first();
        if p.len() == 0 {
            lemma_eval_padded(p, q1, x);
            lemma_fmul_zero(x);
            lemma_fadd_zero(0);
        } else {
            lemma_eval_padded(p.drop_first(), q1, x);
        }
    }
}

/// The value of a constant polynomial is the constant.
pub proof fn lemma_eval_constant(p: Seq<int>, x: int)
    requires
        p.len() == 1,
        is_residue(p[0]),
    ensures
        poly_eval_spec(p, x) == p[0],
{
    assert(poly_eval_spec(p.drop_first(), x) == 0);
    lemma_fmul_zero(x);
    lemma_fadd_zero(p[0]);
}

/// Whether `n` is a power of two.
pub fn is_power_of_two(n: usize) -> (r: bool)
    ensures
        r == is_pow2(n as int),
{
    let mut s: usize = n;
    while s > 1 && s % 2 == 0
        invariant
            is_pow2(s as int) == is_pow2(n as int),
        decreases s,
    {
        s = s / 2;
    }
    s == 1
}

/// The square of the root of order `2 n` is the root of order `n`.
pub proof fn lemma_primitive_root_square(n: int)
    requires
        is_pow2(n),
        2 * n <= max_domain_size(),
    ensures
        fmul(primitive_root(2 * n), primitive_root(2 * n)) == primitive_root(n),
{
    lemma_pow2_double(n);
    lemma_max_domain_size_pow2();
    lemma_pow2_positive(n);
    let q = max_domain_size() / (2 * n);
    lemma_pow2_quotient(max_domain_size(), 2 * n);
    lemma_pow2_positive(q);
    assert(max_domain_size() == (2 * q) * n) by (nonlinear_arith)
        requires
            max_domain_size() == q * (2 * n),
    ;
    vstd::arithmetic::div_mod::lemma_fundamental_div_mod_converse(max_domain_size(), n, 2 * q, 0);
    lemma_fpow_add(two_adic_root(), q as nat, q as nat);
}

/// A power of the root of order `n` is the root of a smaller order `l`: the
/// power `n / l`.
pub proof fn lemma_primitive_root_power(n: int, l: int)
    requires
        is_pow2(n),
        is_pow2(l),
        l <= n,
        n <= max_domain_size(),
    ensures
        fpow(primitive_root(n), (n / l) as nat) == primitive_root(l),
{
    lemma_max_domain_size_pow2();
    lemma_pow2_positive(l);
    lemma_pow2_positive(n);
    let q = max_domain_size() / n;
    let m = n / l;
    lemma_pow2_quotient(max_domain_size(), n);
    lemma_pow2_quotient(n, l);
    lemma_pow2_positive(q);
    lemma_pow2_positive(m);
    assert(max_domain_size() == (q * m) * l) by (nonlinear_arith)
        requires
            max_domain_size() == q * n,
            n == m * l,
    ;
    assert(q * m >= 0) by (nonlinear_arith)
        requires
            q >= 1,
            m >= 1,
    ;
    vstd::arithmetic::div_mod::lemma_fundamental_div_mod_converse(max_domain_size(), l, q * m, 0);
    lemma_fpow_mul(two_adic_root(), q as nat, m as nat);
}

/// Of two powers of two, the smaller divides the larger, and the quotient is
/// a power of two.
pub proof fn lemma_pow2_quotient(n: int, l: int)
    requires
        is_pow2(n),
        is_pow2(l),
        l <= n,
    ensures
        n == (n / l) * l,
        is_pow2(n / l),
    decreases l,
{
    lemma_pow2_positive(l);
    if l == 1 {
        assert(n / 1 == n);
    } else {
        let n2 = n / 2;
        let l2 = l / 2;
        lemma_pow2_quotient(n2, l2);
        let q = n2 / l2;
        assert(n == q * l) by (nonlinear_arith)
            requires
                n == 2 * n2,
                l == 2 * l2,
                n2 == q * l2,
        ;
        vstd::arithmetic::div_mod::lemma_fundamental_div_mod_converse(n, l, q, 0);
    }
}

/// Whether every item is a reduced residue.
pub open spec fn all_residues(s: Seq<int>) -> bool {
    forall|i: int| 0 <= i < s.len() ==> is_residue(#[trigger] s[i])
}

/// Twice the inverse of two is one.
pub proof fn lemma_inverse_of_two()
    ensures
        fmul(2, inverse_of_two()) == 1,
        is_residue(inverse_of_two()),
{
    assert((2 * inverse_of_two()) % modulus() == 1) by (nonlinear_arith)
        requires
            modulus() == 0x73eda753299d7d483339d80809a1d80553bda402fffe5bfeffffffff00000001,
            inverse_of_two() == (modulus() + 1) / 2,
    ;
}

/// The inverse transform is the inverse of the transform: over a root `w`
/// of order the length of `x`, with inverse `wi`, the polynomial that the
/// inverse transform gives takes the value `x[i]` at `w^i`.
pub proof fn lemma_ifft_spec_inverts(x: Seq<int>, w: int, wi: int)
    requires
        is_pow2(x.len() as int),
        all_residues(x),
        fmul(w, wi) == 1,
        x.len() >= 2 ==> fpow(w, (x.len() / 2) as nat) == modulus() - 1,
    ensures
        dft_spec(ifft_spec(x, wi, inverse_of_two()), w, x.len()) == x,
    decreases x.len(),
{
    let n = x.len();
    let half = inverse_of_two();
    let out = ifft_spec(x, wi, half);
    lemma_inverse_of_two();
    if n == 1 {
        assert forall|i: int| 0 <= i < 1 implies dft_spec(out, w, n)[i] == x[i] by {
            lemma_eval_constant(x, fpow(w, i as nat));
        }
        assert(dft_spec(out, w, n) =~= x);
    } else {
        let h = n / 2;
        let w2 = fmul(w, w);
        let wi2 = fmul(wi, wi);
        let e = Seq::new(h, |i: int| fmul(fadd(x[i], x[i + h]), half));
        let o = Seq::new(
            h,
            |i: int| fmul(fmul(crate::field::fsub(x[i], x[i + h]), half), fpow(wi, i as nat)),
        );
        let ce = ifft_spec(e, wi2, half);
        let co = ifft_spec(o, wi2, half);
        lemma_pow2_positive(n as int);
        assert(n == 2 * h);
        // the halves meet what the recursion asks
        assert(all_residues(e)) by {
            assert forall|i: int| 0 <= i < e.len() implies is_residue(#[trigger] e[i]) by {
                crate::field::lemma_fmul_range(fadd(x[i], x[i + h]), half);
            }
        }
        assert(all_residues(o)) by {
            assert forall|i: int| 0 <= i < o.len() implies is_residue(#[trigger] o[i]) by {
                crate::field::lemma_fmul_range(
                    fmul(crate::field::fsub(x[i], x[i + h]), half),
                    fpow(wi, i as nat),
                );
            }
        }
        assert(fmul(w2, wi2) == 1) by {
            lemma_fpow_of_product(w, wi, 2);
            lemma_fpow_of_one(2);
            lemma_square_is_power(w);
            lemma_square_is_power(wi);
        }
        if h >= 2 {
            let q = (h / 2) as nat;
            lemma_pow2_positive(h as int);
            lemma_fpow_of_product(w, w, q);
            lemma_fpow_add(w, q, q);
            assert(q + q == h);
        }
        lemma_ifft_spec_inverts(e, w2, wi2);
        lemma_ifft_spec_inverts(o, w2, wi2);
        assert(ce.len() == h && co.len() == h) by {
            assert(dft_spec(ce, w2, h).len() == h);
            if h == 1 {
                assert(ce == e);
                assert(co == o);
            }
        }
        assert(even_items(out) =~= ce);
        assert(odd_items(out) =~= co);
        assert forall|j: int| 0 <= j < n implies dft_spec(out, w, n)[j] == x[j] by {
            let i0 = if j < h { j } else { j - h };
            let k = i0 as nat;
            let xv = fpow(w, k);
            let xi = fpow(wi, k);
            lemma_fpow_of_product(w, w, k);
            lemma_fpow_of_product(w, wi, k);
            lemma_fpow_of_one(k);
            assert(dft_spec(ce, w2, h)[i0] == e[i0]);
            assert(dft_spec(co, w2, h)[i0] == o[i0]);
            lemma_inverse_butterfly(x[i0], x[i0 + h], half, xv, xi);
            if j < h {
                lemma_eval_split(out, xv);
            } else {
                lemma_half_turn(w, k, h);
                lemma_eval_split(out, fpow(w, k + h));
                lemma_neg_square(xv);
                lemma_butterfly_upper(e[i0], xv, o[i0]);
            }
        }
        assert(dft_spec(out, w, n) =~= x);
    }
}

/// The second power is the square.
pub proof fn lemma_square_is_power(a: int)
    ensures
        fpow(a, 2) == fmul(a, a),
{
    assert(fpow(a, 2) == fmul(a, fpow(a, 1)));
    assert(fpow(a, 1) == fmul(a, fpow(a, 0)));
    crate::field::lemma_fmul_mod(a, a);
}

/// The powers of a root of unity of order `size`, with what the inverse
/// transforms need.
pub struct Domain {
    size: usize,
    roots: Vec<Scalar>,
    inv_roots: Vec<Scalar>,
    inv_two: Scalar,
    inv_size: Scalar,
}

impl Domain {
    /// The number of points of the domain.
    pub closed spec fn size_spec(&self) -> int {
        self.size as int
    }

    /// The root of unity whose powers are the points of the domain.
    pub closed spec fn omega(&self) -> int {
        if self.roots.len() >= 2 {
            self.roots@[1].value()
        } else {
            1
        }
    }

    /// The inverse of the root of unity.
    pub closed spec fn omega_inv(&self) -> int {
        if self.inv_roots.len() >= 2 {
            self.inv_roots@[1].value()
        } else {
            1
        }
    }

    /// The inverse of the size of the domain.
    pub closed spec fn size_inv(&self) -> int {
        self.inv_size.value()
    }

    /// The domain is well formed: its size is a power of two, its tables
    /// hold the powers of the root and of its inverse, and the root has
    /// order `size`.
    pub closed spec fn wf(&self) -> bool {
        &&& is_pow2(self.size as int)
        &&& self.roots.len() == self.size
        &&& self.inv_roots.len() == self.size
        &&& forall|i: int|
            0 <= i < self.size ==> (#[trigger] self.roots@[i]).value() == fpow(self.omega(), i as nat)
        &&& forall|i: int|
            0 <= i < self.size ==> (#[trigger] self.inv_roots@[i]).value() == fpow(
                self.omega_inv(),
                i as nat,
            )
        &&& fmul(self.omega(), self.omega_inv()) == 1
        &&& self.omega_inv() == finv(self.omega())
        &&& self.inv_size.value() == finv(self.size as int)
        &&& self.size >= 2 ==> fpow(self.omega(), (self.size / 2) as nat) == modulus() - 1
        &&& self.inv_two.value() == inverse_of_two()
        &&& fmul(2, self.inv_two.value()) == 1
        &&& fmul(self.size as int, self.inv_size.value()) == 1
    }

    /// What a well-formed domain promises to its users.
    pub proof fn lemma_wf_facts(&self)
        requires
            self.wf(),
        ensures
            is_pow2(self.size_spec()),
            self.size_spec() <= usize::MAX,
            fmul(self.omega(), self.omega_inv()) == 1,
            fmul(self.size_spec(), self.size_inv()) == 1,
            self.omega_inv() == finv(self.omega()),
            self.size_inv() == finv(self.size_spec()),
            self.size_spec() >= 2 ==> fpow(self.omega(), (self.size_spec() / 2) as nat) == modulus()
                - 1,
    {
    }

    /// The root of unity and its inverse are reduced residues.
    pub proof fn lemma_omega_range(&self)
        ensures
            is_residue(self.omega()),
            is_residue(self.omega_inv()),
    {
        if self.roots.len() >= 2 {
            self.roots@[1].lemma_value_range();
        }
        if self.inv_roots.len() >= 2 {
            self.inv_roots@[1].lemma_value_range();
        }
    }

    /// The number of points of the domain.
    pub fn size(&self) -> (r: usize)
        ensures
            r == self.size_spec(),
    {
        self.size
    }

    /// The `i`-th power of the root of unity.
    pub fn root(&self, i: usize) -> (r: Scalar)
        requires
            self.wf(),
            i < self.size_spec(),
        ensures
            r.value() == fpow(self.omega(), i as nat),
    {
        self.roots[i]
    }

    /// The `i`-th power of the inverse of the root of unity.
    pub fn inverse_root(&self, i: usize) -> (r: Scalar)
        requires
            self.wf(),
            i < self.size_spec(),
        ensures
            r.value() == fpow(self.omega_inv(), i as nat),
    {
        self.inv_roots[i]
    }

    /// The domain of the given size, which exists for every power of two up
    /// to `2^32`.
    pub fn new(size: usize) -> (r: Option<Domain>)
        ensures
            r.is_some() <==> is_pow2(size as int) && size <= max_domain_size(),
            r.is_some() ==> r.unwrap().wf() && r.unwrap().size_spec() == size && r.unwrap().omega()
                == primitive_root(size as int),
    {
        if !is_power_of_two(size) || size as u64 > 0x1_0000_0000u64 {
            return None;
        }
        // The root of order `size` is the root of order 2^32, squared until
        // its order has come down to `size`.
        let limbs: [u64; 4] = [
            0x3829971f439f0d2bu64,
            0xb63683508c2280b9u64,
            0xd09b681922c813b4u64,
            0x16a2a19edfe81f20u64,
        ];
        let mut w = Scalar::from_limbs(limbs);
        proof {
            lemma_residue_mod(two_adic_root());
            assert(fpow(two_adic_root(), 1) == fmul(two_adic_root(), fpow(two_adic_root(), 0)));
            lemma_max_domain_size_pow2();
        }
        let mut t: u64 = size as u64;
        let ghost mut e: nat = 1;
        while t < 0x1_0000_0000u64
            invariant
                is_pow2(t as int),
                t <= 0x1_0000_0000u64,
                e * size == t,
                e >= 1,
                is_pow2(max_domain_size()),
                w.value() == fpow(two_adic_root(), e),
            decreases 0x1_0000_0000u64 - t,
        {
            proof {
                lemma_pow2_below(t as int, max_domain_size());
                lemma_pow2_double(t as int);
                lemma_pow2_positive(t as int);
                lemma_fpow_add(two_adic_root(), e, e);
                assert((e + e) * size == 2 * t) by (nonlinear_arith)
                    requires
                        e * size == t,
                ;
            }
            w = w.mul(&w);
            t = 2 * t;
            proof {
                e = e + e;
            }
        }
        proof {
            lemma_pow2_positive(size as int);
            assert(e == max_domain_size() / (size as int)) by (nonlinear_arith)
                requires
                    e * size == 0x1_0000_0000,
                    size >= 1,
            ;
            // the size-th power of the root is one, so the root is not zero
            lemma_fpow_mul(two_adic_root(), e, size as nat);
            lemma_two_adic_root_unit();
            assert(fpow(w.value(), size as nat) == 1);
            if w.value() == 0 {
                lemma_residue_mod(0);
                lemma_fpow_of_zero(w.value(), size as nat);
            }
            if size >= 2 {
                let half = (size / 2) as nat;
                lemma_fpow_mul(two_adic_root(), e, half);
                assert(e * half == 0x8000_0000) by (nonlinear_arith)
                    requires
                        e * size == 0x1_0000_0000,
                        size == 2 * half,
                ;
                lemma_two_adic_root_order();
            }
        }
        let w_inv = match w.invert() {
            Some(x) => x,
            None => { return None; },
        };
        let inv_two = match Scalar::from_u64(2).invert() {
            Some(x) => x,
            None => { return None; },
        };
        let inv_size = match Scalar::from_u64(size as u64).invert() {
            Some(x) => x,
            None => { return None; },
        };
        proof {
            // the inverse of two is the one residue h with 2 h = modulus + 1
            let hv = inv_two.value();
            inv_two.lemma_value_range();
            assert(hv == inverse_of_two()) by (nonlinear_arith)
                requires
                    (2 * hv) % modulus() == 1,
                    0 <= hv < modulus(),
                    modulus() == 0x73eda753299d7d483339d80809a1d80553bda402fffe5bfeffffffff00000001,
                    inverse_of_two() == (modulus() + 1) / 2,
            ;
        }
        let roots = Self::powers(&w, size);
        let inv_roots = Self::powers(&w_inv, size);
        proof {
            if size >= 2 {
                assert(roots@[1].value() == fpow(w.value(), 1));
                assert(inv_roots@[1].value() == fpow(w_inv.value(), 1));
                assert(fpow(w.value(), 1) == fmul(w.value(), fpow(w.value(), 0)));
                assert(fpow(w_inv.value(), 1) == fmul(w_inv.value(), fpow(w_inv.value(), 0)));
                w.lemma_value_range();
                w_inv.lemma_value_range();
                lemma_residue_mod(w.value());
                lemma_residue_mod(w_inv.value());
            } else {
                // the root of order one is one
                assert(w.value() == fpow(w.value(), 1)) by {
                    assert(fpow(w.value(), 1) == fmul(w.value(), fpow(w.value(), 0)));
                    w.lemma_value_range();
                    lemma_residue_mod(w.value());
                }
                assert(w.value() == 1);
                lemma_fmul_comm(1, w_inv.value());
                w_inv.lemma_value_range();
                lemma_residue_mod(w_inv.value());
                assert(w_inv.value() == 1);
            }
        }
        let d = Domain { size, roots, inv_roots, inv_two, inv_size };
        proof {
            assert(d.omega() == w.value());
            assert(d.omega_inv() == w_inv.value());
            assert(d.wf());
        }
        Some(d)
    }

    /// The first `count` powers of `w`.
    fn powers(w: &Scalar, count: usize) -> (r: Vec<Scalar>)
        ensures
            r.len() == count,
            forall|i: int| 0 <= i < count ==> (#[trigger] r@[i]).value() == fpow(w.value(), i as nat),
    {
        let mut out: Vec<Scalar> = Vec::new();
        let mut cur = Scalar::one();
        let mut i: usize = 0;
        while i < count
            invariant
                i <= count,
                out.len() == i,
                cur.value() == fpow(w.value(), i as nat),
                forall|j: int| 0 <= j < i ==> (#[trigger] out@[j]).value() == fpow(w.value(), j as nat),
            decreases count - i,
        {
            out.push(cur);
            cur = w.mul(&cur);
            i += 1;
        }
        out
    }

    /// The transform of `a`, whose length times `stride` is the size of the
    /// domain, with the root `omega^stride`.
    fn fft_rec(&self, a: &Vec<Scalar>, stride: usize) -> (r: Vec<Scalar>)
        requires
            self.wf(),
            is_pow2(a.len() as int),
            a.len() * stride == self.size_spec(),
        ensures
            r.len() == a.len(),
            forall|i: int|
                0 <= i < a.len() ==> (#[trigger] r@[i]).value() == poly_eval_spec(
                    values(a@),
                    fpow(self.omega(), (i * stride) as nat),
                ),
        decreases a.len(),
    {
        let m = a.len();
        let ghost va = values(a@);
        let ghost w = self.omega();
        if m == 1 {
            let mut out: Vec<Scalar> = Vec::new();
            out.push(a[0]);
            proof {
                a@[0].lemma_value_range();
                assert forall|i: int| 0 <= i < 1 implies (#[trigger] out@[i]).value() == poly_eval_spec(
                    va,
                    fpow(w, (i * stride) as nat),
                ) by {
                    lemma_eval_constant(va, fpow(w, (i * stride) as nat));
                }
            }
            return out;
        }
        let h = m / 2;
        proof {
            lemma_pow2_positive(m as int);
            assert(m == 2 * h);
            assert(h * (2 * stride) == self.size_spec()) by (nonlinear_arith)
                requires
                    m * stride == self.size_spec(),
                    m == 2 * h,
            ;
            assert(2 * stride <= self.size_spec()) by (nonlinear_arith)
                requires
                    h * (2 * stride) == self.size_spec(),
                    h >= 1,
            ;
        }
        let mut even: Vec<Scalar> = Vec::new();
        let mut odd: Vec<Scalar> = Vec::new();
        let mut i: usize = 0;
        while i < h
            invariant
                i <= h,
                m == 2 * h,
                m == a.len(),
                even.len() == i,
                odd.len() == i,
                forall|j: int| 0 <= j < i ==> even@[j] == a@[2 * j],
                forall|j: int| 0 <= j < i ==> odd@[j] == a@[2 * j + 1],
            decreases h - i,
        {
            even.push(a[2 * i]);
            odd.push(a[2 * i + 1]);
            i += 1;
        }
        assert(values(even@) =~= even_items(va));
        assert(values(odd@) =~= odd_items(va));
        let fe = self.fft_rec(&even, 2 * stride);
        let fo = self.fft_rec(&odd, 2 * stride);
        let mut out: Vec<Scalar> = Vec::new();
        let mut upper: Vec<Scalar> = Vec::new();
        let mut i: usize = 0;
        proof {
            lemma_pow2_positive(self.size_spec());
        }
        while i < h
            invariant
                i <= h,
                m == 2 * h,
                h >= 1,
                self.size_spec() >= 1,
                m == a.len(),
                self.wf(),
                w == self.omega(),
                va == values(a@),
                m * stride == self.size_spec(),
                fe.len() == h,
                fo.len() == h,
                out.len() == i,
                upper.len() == i,
                forall|j: int|
                    0 <= j < h ==> (#[trigger] fe@[j]).value() == poly_eval_spec(
                        even_items(va),
                        fpow(w, (j * (2 * stride)) as nat),
                    ),
                forall|j: int|
                    0 <= j < h ==> (#[trigger] fo@[j]).value() == poly_eval_spec(
                        odd_items(va),
                        fpow(w, (j * (2 * stride)) as nat),
                    ),
                forall|j: int|
                    0 <= j < i ==> (#[trigger] out@[j]).value() == poly_eval_spec(
                        va,
                        fpow(w, (j * stride) as nat),
                    ),
                forall|j: int|
                    0 <= j < i ==> (#[trigger] upper@[j]).value() == poly_eval_spec(
                        va,
                        fpow(w, ((j + h) * stride) as nat),
                    ),
            decreases h - i,
        {
            proof {
                assert(i * stride < self.size_spec() && self.size_spec() >= 2) by (nonlinear_arith)
                    requires
                        0 <= i < h,
                        m == 2 * h,
                        stride >= 0,
                        m * stride == self.size_spec(),
                        self.size_spec() >= 1,
                ;
            }
            let x = self.roots[i * stride];
            let t = x.mul(&fo[i]);
            let lo = fe[i].add(&t);
            let hi = fe[i].sub(&t);
            proof {
                let k = (i * stride) as nat;
                let xv = fpow(w, k);
                let ev = fe@[i as int].value();
                let ov = fo@[i as int].value();
                assert(x.value() == xv);
                lemma_fpow_add(w, k, k);
                assert((i * (2 * stride)) as nat == k + k) by (nonlinear_arith)
                    requires
                        k == i * stride,
                ;
                lemma_eval_split(va, xv);
                // the upper half: the point is the negation
                let half = (h * stride) as nat;
                assert(half == self.size_spec() / 2) by (nonlinear_arith)
                    requires
                        half == h * stride,
                        m == 2 * h,
                        m * stride == self.size_spec(),
                ;
                assert(((i + h) * stride) as nat == k + half) by (nonlinear_arith)
                    requires
                        k == i * stride,
                        half == h * stride,
                ;
                lemma_half_turn(w, k, half);
                let x2 = fpow(w, k + half);
                lemma_eval_split(va, x2);
                lemma_neg_square(xv);
                lemma_butterfly_upper(ev, xv, ov);
            }
            out.push(lo);
            upper.push(hi);
            i += 1;
        }
        let mut i: usize = 0;
        while i < h
            invariant
                i <= h,
                m == 2 * h,
                upper.len() == h,
                out.len() == h + i,
                forall|j: int|
                    0 <= j < h ==> (#[trigger] out@[j]).value() == poly_eval_spec(
                        va,
                        fpow(w, (j * stride) as nat),
                    ),
                forall|j: int|
                    0 <= j < h ==> (#[trigger] upper@[j]).value() == poly_eval_spec(
                        va,
                        fpow(w, ((j + h) * stride) as nat),
                    ),
                forall|j: int| h <= j < h + i ==> (#[trigger] out@[j]) == upper@[j - h],
            decreases h - i,
        {
            out.push(upper[i]);
            i += 1;
        }
        proof {
            assert forall|j: int| 0 <= j < m implies (#[trigger] out@[j]).value() == poly_eval_spec(
                va,
                fpow(w, (j * stride) as nat),
            ) by {
                if j >= h {
                    assert(out@[j] == upper@[j - h]);
                    assert(((j - h) + h) * stride == j * stride);
                }
            }
        }
        out
    }

    /// The evaluations of the polynomial `coeffs` at the points of the
    /// domain: item `i` is its value at `omega^i`. A polynomial with fewer
    /// coefficients than the domain has points is taken with zeros above.
    pub fn fft_scalars(&self, coeffs: &Vec<Scalar>) -> (r: Vec<Scalar>)
        requires
            self.wf(),
            coeffs.len() <= self.size_spec(),
        ensures
            values(r@) == dft_spec(values(coeffs@), self.omega(), self.size_spec() as nat),
            r.len() == self.size_spec(),
    {
        let ghost vc = values(coeffs@);
        let mut padded: Vec<Scalar> = Vec::new();
        let mut i: usize = 0;
        while i < self.size
            invariant
                i <= self.size,
                coeffs.len() <= self.size,
                padded.len() == i,
                forall|j: int| 0 <= j < i && j < coeffs.len() ==> padded@[j] == coeffs@[j],
                forall|j: int| coeffs.len() <= j < i ==> (#[trigger] padded@[j]).value() == 0,
            decreases self.size - i,
        {
            if i < coeffs.len() {
                padded.push(coeffs[i]);
            } else {
                padded.push(Scalar::zero());
            }
            i += 1;
        }
        let out = self.fft_rec(&padded, 1);
        proof {
            let vp = values(padded@);
            let e = dft_spec(vc, self.omega(), self.size as nat);
            assert forall|j: int| 0 <= j < self.size implies values(out@)[j] == e[j] by {
                assert(j * 1 == j);
                lemma_eval_padded(vc, vp, fpow(self.omega(), j as nat));
            }
            assert(values(out@) =~= e);
        }
        out
    }

    /// The inverse of the transform of `x`, whose length times `stride` is
    /// the size of the domain, with the root `omega^stride`.
    fn ifft_rec(&self, x: &Vec<Scalar>, stride: usize) -> (r: Vec<Scalar>)
        requires
            self.wf(),
            is_pow2(x.len() as int),
            x.len() * stride == self.size_spec(),
        ensures
            r.len() == x.len(),
            forall|i: int|
                0 <= i < x.len() ==> poly_eval_spec(
                    values(r@),
                    fpow(self.omega(), (i * stride) as nat),
                ) == (#[trigger] x@[i]).value(),
            values(r@) == ifft_spec(
                values(x@),
                fpow(self.omega_inv(), stride as nat),
                inverse_of_two(),
            ),
        decreases x.len(),
    {
        let m = x.len();
        let ghost w = self.omega();
        let ghost wi = self.omega_inv();
        if m == 1 {
            let mut out: Vec<Scalar> = Vec::new();
            out.push(x[0]);
            proof {
                x@[0].lemma_value_range();
                assert forall|i: int| 0 <= i < 1 implies poly_eval_spec(
                    values(out@),
                    fpow(w, (i * stride) as nat),
                ) == (#[trigger] x@[i]).value() by {
                    lemma_eval_constant(values(out@), fpow(w, (i * stride) as nat));
                }
                assert(values(out@) =~= values(x@));
            }
            return out;
        }
        let h = m / 2;
        let ghost vx = values(x@);
        let ghost ws = fpow(wi, stride as nat);
        let ghost se = Seq::new(h as nat, |i: int| fmul(fadd(vx[i], vx[i + h]), inverse_of_two()));
        let ghost so = Seq::new(
            h as nat,
            |i: int|
                fmul(fmul(crate::field::fsub(vx[i], vx[i + h]), inverse_of_two()), fpow(ws, i as nat)),
        );
        proof {
            lemma_pow2_positive(m as int);
            assert(m == 2 * h);
            assert(h * (2 * stride) == self.size_spec()) by (nonlinear_arith)
                requires
                    m * stride == self.size_spec(),
                    m == 2 * h,
            ;
            assert(2 * stride <= self.size_spec()) by (nonlinear_arith)
                requires
                    h * (2 * stride) == self.size_spec(),
                    h >= 1,
            ;
        }
        let mut even: Vec<Scalar> = Vec::new();
        let mut odd: Vec<Scalar> = Vec::new();
        let mut i: usize = 0;
        proof {
            lemma_pow2_positive(self.size_spec());
        }
        while i < h
            invariant
                i <= h,
                m == 2 * h,
                m == x.len(),
                self.size_spec() >= 1,
                self.wf(),
                vx == values(x@),
                ws == fpow(wi, stride as nat),
                forall|j: int| 0 <= j < i ==> (#[trigger] even@[j]).value() == fmul(
                    fadd(vx[j], vx[j + h]),
                    inverse_of_two(),
                ),
                forall|j: int| 0 <= j < i ==> (#[trigger] odd@[j]).value() == fmul(
                    fmul(crate::field::fsub(vx[j], vx[j + h]), inverse_of_two()),
                    fpow(ws, j as nat),
                ),
                w == self.omega(),
                wi == self.omega_inv(),
                m * stride == self.size_spec(),
                even.len() == i,
                odd.len() == i,
                forall|j: int|
                    0 <= j < i ==> fadd(
                        (#[trigger] even@[j]).value(),
                        fmul(fpow(w, (j * stride) as nat), odd@[j].value()),
                    ) == x@[j].value(),
                forall|j: int|
                    0 <= j < i ==> crate::field::fsub(
                        even@[j].value(),
                        fmul(fpow(w, (j * stride) as nat), (#[trigger] odd@[j]).value()),
                    ) == x@[j + h].value(),
            decreases h - i,
        {
            proof {
                assert(i * stride < self.size_spec() && self.size_spec() >= 2) by (nonlinear_arith)
                    requires
                        0 <= i < h,
                        m == 2 * h,
                        stride >= 0,
                        m * stride == self.size_spec(),
                        self.size_spec() >= 1,
                ;
            }
            let s = x[i].add(&x[i + h]);
            let d = x[i].sub(&x[i + h]);
            let e = s.mul(&self.inv_two);
            let dh = d.mul(&self.inv_two);
            let o = dh.mul(&self.inv_roots[i * stride]);
            proof {
                let k = (i * stride) as nat;
                lemma_fpow_of_product(w, wi, k);
                lemma_fpow_of_one(k);
                lemma_fpow_mul(wi, stride as nat, i as nat);
                assert(stride * i == i * stride) by (nonlinear_arith);
                x@[i as int].lemma_value_range();
                x@[i + h].lemma_value_range();
                lemma_inverse_butterfly(
                    x@[i as int].value(),
                    x@[i + h].value(),
                    self.inv_two.value(),
                    fpow(w, k),
                    fpow(wi, k),
                );
            }
            even.push(e);
            odd.push(o);
            i += 1;
        }
        let ce = self.ifft_rec(&even, 2 * stride);
        let co = self.ifft_rec(&odd, 2 * stride);
        let mut out: Vec<Scalar> = Vec::new();
        let mut i: usize = 0;
        while i < h
            invariant
                i <= h,
                ce.len() == h,
                co.len() == h,
                out.len() == 2 * i,
                forall|j: int| 0 <= j < i ==> out@[2 * j] == ce@[j],
                forall|j: int| 0 <= j < i ==> out@[2 * j + 1] == co@[j],
            decreases h - i,
        {
            out.push(ce[i]);
            out.push(co[i]);
            i += 1;
        }
        proof {
            let vr = values(out@);
            assert(even_items(vr) =~= values(ce@));
            assert(odd_items(vr) =~= values(co@));
            assert(values(even@) =~= se);
            assert(values(odd@) =~= so);
            lemma_fpow_add(wi, stride as nat, stride as nat);
            assert((2 * stride) as nat == stride as nat + stride as nat);
            assert forall|j: int| 0 <= j < m implies vr[j] == ifft_spec(vx, ws, inverse_of_two())[j] by {
                if j % 2 == 0 {
                    assert(out@[2 * (j / 2)] == ce@[j / 2]);
                } else {
                    assert(out@[2 * (j / 2) + 1] == co@[j / 2]);
                }
            }
            assert(vr =~= ifft_spec(vx, ws, inverse_of_two()));
            assert forall|j: int| 0 <= j < m implies poly_eval_spec(
                vr,
                fpow(w, (j * stride) as nat),
            ) == (#[trigger] x@[j]).value() by {
                let i0 = if j < h { j } else { j - h };
                let k = (i0 * stride) as nat;
                let xv = fpow(w, k);
                let ev = even@[i0].value();
                let ov = odd@[i0].value();
                lemma_fpow_add(w, k, k);
                assert((i0 * (2 * stride)) as nat == k + k) by (nonlinear_arith)
                    requires
                        k == i0 * stride,
                ;
                assert(poly_eval_spec(values(ce@), fpow(w, k + k)) == ev);
                assert(poly_eval_spec(values(co@), fpow(w, k + k)) == ov);
                if j < h {
                    lemma_eval_split(vr, xv);
                } else {
                    let half = (h * stride) as nat;
                    lemma_pow2_positive(self.size_spec());
                    assert(half == self.size_spec() / 2 && self.size_spec() >= 2) by (nonlinear_arith)
                        requires
                            half == h * stride,
                            m == 2 * h,
                            h >= 1,
                            stride >= 0,
                            self.size_spec() >= 1,
                            m * stride == self.size_spec(),
                    ;
                    assert((j * stride) as nat == k + half) by (nonlinear_arith)
                        requires
                            k == i0 * stride,
                            half == h * stride,
                            j == i0 + h,
                    ;
                    lemma_half_turn(w, k, half);
                    lemma_eval_split(vr, fpow(w, k + half));
                    lemma_neg_square(xv);
                    lemma_butterfly_upper(ev, xv, ov);
                }
            }
        }
        out
    }

    /// The polynomial with as many coefficients as the domain has points
    /// whose value at `omega^i` is `evals[i]`.
    pub fn ifft_scalars(&self, evals: &Vec<Scalar>) -> (r: Vec<Scalar>)
        requires
            self.wf(),
            evals.len() == self.size_spec(),
        ensures
            r.len() == self.size_spec(),
            dft_spec(values(r@), self.omega(), self.size_spec() as nat) == values(evals@),
            values(r@) == ifft_spec(values(evals@), self.omega_inv(), inverse_of_two()),
    {
        let out = self.ifft_rec(evals, 1);
        proof {
            assert(fpow(self.omega_inv(), 1) == fmul(self.omega_inv(), fpow(self.omega_inv(), 0)));
            self.lemma_omega_range();
            lemma_residue_mod(self.omega_inv());
            let d = dft_spec(values(out@), self.omega(), self.size as nat);
            assert forall|j: int| 0 <= j < self.size implies d[j] == values(evals@)[j] by {
                assert(j * 1 == j);
            }
            assert(d =~= values(evals@));
        }
        out
    }

    /// The transform of the points `a`, whose number times `stride` is the
    /// size of the domain, with the root `omega^stride`, or with its
    /// inverse.
    fn fft_g1_rec(&self, a: &Vec<G1Point>, stride: usize, inverse: bool) -> (r: Vec<G1Point>)
        requires
            self.wf(),
            is_pow2(a.len() as int),
            a.len() * stride == self.size_spec(),
        ensures
            r.len() == a.len(),
            encodings(r@) == g1_fft_spec(
                encodings(a@),
                fpow(
                    if inverse {
                        self.omega_inv()
                    } else {
                        self.omega()
                    },
                    stride as nat,
                ),
            ),
        decreases a.len(),
    {
        let m = a.len();
        let ghost ea = encodings(a@);
        let ghost w = if inverse {
            self.omega_inv()
        } else {
            self.omega()
        };
        let ghost ws = fpow(w, stride as nat);
        if m == 1 {
            let mut out: Vec<G1Point> = Vec::new();
            out.push(a[0]);
            assert(encodings(out@) =~= ea);
            return out;
        }
        let h = m / 2;
        proof {
            lemma_pow2_positive(m as int);
            lemma_pow2_positive(self.size_spec());
            assert(m == 2 * h);
            assert(h * (2 * stride) == self.size_spec()) by (nonlinear_arith)
                requires
                    m * stride == self.size_spec(),
                    m == 2 * h,
            ;
            assert(2 * stride <= self.size_spec()) by (nonlinear_arith)
                requires
                    h * (2 * stride) == self.size_spec(),
                    h >= 1,
            ;
        }
        let mut even: Vec<G1Point> = Vec::new();
        let mut odd: Vec<G1Point> = Vec::new();
        let mut i: usize = 0;
        while i < h
            invariant
                i <= h,
                m == 2 * h,
                m == a.len(),
                even.len() == i,
                odd.len() == i,
                forall|j: int| 0 <= j < i ==> even@[j] == a@[2 * j],
                forall|j: int| 0 <= j < i ==> odd@[j] == a@[2 * j + 1],
            decreases h - i,
        {
            even.push(a[2 * i]);
            odd.push(a[2 * i + 1]);
            i += 1;
        }
        assert(encodings(even@) =~= even_items(ea));
        assert(encodings(odd@) =~= odd_items(ea));
        let fe = self.fft_g1_rec(&even, 2 * stride, inverse);
        let fo = self.fft_g1_rec(&odd, 2 * stride, inverse);
        let ghost se = g1_fft_spec(even_items(ea), fmul(ws, ws));
        let ghost so = g1_fft_spec(odd_items(ea), fmul(ws, ws));
        proof {
            lemma_fpow_add(w, stride as nat, stride as nat);
            assert((2 * stride) as nat == stride as nat + stride as nat);
            assert(encodings(fe@) == se);
            assert(encodings(fo@) == so);
        }
        let mut out: Vec<G1Point> = Vec::new();
        let mut upper: Vec<G1Point> = Vec::new();
        let mut i: usize = 0;
        while i < h
            invariant
                i <= h,
                m == 2 * h,
                h >= 1,
                self.size_spec() >= 1,
                m == a.len(),
                self.wf(),
                w == if inverse {
                    self.omega_inv()
                } else {
                    self.omega()
                },
                ws == fpow(w, stride as nat),
                m * stride == self.size_spec(),
                fe.len() == h,
                fo.len() == h,
                encodings(fe@) == se,
                encodings(fo@) == so,
                out.len() == i,
                upper.len() == i,
                forall|j: int|
                    0 <= j < i ==> (#[trigger] out@[j])@ == g1_sum(
                        se[j],
                        g1_scaled(so[j], fpow(ws, j as nat)),
                    ),
                forall|j: int|
                    0 <= j < i ==> (#[trigger] upper@[j])@ == g1_difference(
                        se[j],
                        g1_scaled(so[j], fpow(ws, j as nat)),
                    ),
            decreases h - i,
        {
            proof {
                assert(i * stride < self.size_spec()) by (nonlinear_arith)
                    requires
                        0 <= i < h,
                        m == 2 * h,
                        stride >= 0,
                        m * stride == self.size_spec(),
                        self.size_spec() >= 1,
                ;
                lemma_fpow_mul(w, stride as nat, i as nat);
                assert(stride * i == i * stride) by (nonlinear_arith);
            }
            let x = if inverse {
                self.inv_roots[i * stride]
            } else {
                self.roots[i * stride]
            };
            let t = fo[i].scale(&x);
            let lo = fe[i].add(&t);
            let hi = fe[i].sub(&t);
            proof {
                assert(encodings(fe@)[i as int] == fe@[i as int]@);
                assert(encodings(fo@)[i as int] == fo@[i as int]@);
            }
            out.push(lo);
            upper.push(hi);
            i += 1;
        }
        let mut i: usize = 0;
        while i < h
            invariant
                i <= h,
                m == 2 * h,
                upper.len() == h,
                out.len() == h + i,
                forall|j: int|
                    0 <= j < h ==> (#[trigger] out@[j])@ == g1_sum(
                        se[j],
                        g1_scaled(so[j], fpow(ws, j as nat)),
                    ),
                forall|j: int| h <= j < h + i ==> (#[trigger] out@[j]) == upper@[j - h],
            decreases h - i,
        {
            out.push(upper[i]);
            i += 1;
        }
        proof {
            let spec = g1_fft_spec(ea, ws);
            assert(ea.len() / 2 == h);
            assert forall|j: int| 0 <= j < m implies encodings(out@)[j] == spec[j] by {
                if j >= h {
                    assert(out@[j] == upper@[j - h]);
                }
            }
            assert(encodings(out@) =~= spec);
        }
        out
    }

    /// The transform of a sequence of points: item `i` is the sum of the
    /// points scaled by the powers of `omega^i`. A sequence shorter than the
    /// domain is continued with the neutral element.
    pub fn fft_g1(&self, points: &Vec<G1Point>) -> (r: Vec<G1Point>)
        requires
            self.wf(),
            points.len() <= self.size_spec(),
        ensures
            r.len() == self.size_spec(),
            encodings(r@) == g1_fft_spec(
                g1_padded(encodings(points@), self.size_spec() as nat),
                self.omega(),
            ),
    {
        let mut padded: Vec<G1Point> = Vec::new();
        let mut i: usize = 0;
        while i < self.size
            invariant
                i <= self.size,
                points.len() <= self.size,
                padded.len() == i,
                forall|j: int| 0 <= j < i && j < points.len() ==> padded@[j] == points@[j],
                forall|j: int| points.len() <= j < i ==> (#[trigger] padded@[j])@ == g1_identity_encoding(),
            decreases self.size - i,
        {
            if i < points.len() {
                padded.push(points[i]);
            } else {
                padded.push(G1Point::identity());
            }
            i += 1;
        }
        proof {
            assert(encodings(padded@) =~= g1_padded(encodings(points@), self.size as nat));
            assert(fpow(self.omega(), 1) == fmul(self.omega(), fpow(self.omega(), 0)));
            self.lemma_omega_range();
            lemma_residue_mod(self.omega());
        }
        self.fft_g1_rec(&padded, 1, false)
    }

    /// The inverse transform of a sequence of points: the transform with the
    /// inverse root, every item scaled by the inverse of the size.
    pub fn ifft_g1(&self, points: &Vec<G1Point>) -> (r: Vec<G1Point>)
        requires
            self.wf(),
            points.len() == self.size_spec(),
        ensures
            r.len() == self.size_spec(),
            encodings(r@) == g1_scale_all(
                g1_fft_spec(encodings(points@), self.omega_inv()),
                self.size_inv(),
            ),
    {
        proof {
            assert(fpow(self.omega_inv(), 1) == fmul(self.omega_inv(), fpow(self.omega_inv(), 0)));
            self.lemma_omega_range();
            lemma_residue_mod(self.omega_inv());
        }
        let t = self.fft_g1_rec(points, 1, true);
        let mut out: Vec<G1Point> = Vec::new();
        let mut i: usize = 0;
        while i < t.len()
            invariant
                i <= t.len(),
                out.len() == i,
                forall|j: int| 0 <= j < i ==> (#[trigger] out@[j])@ == g1_scaled(
                    t@[j]@,
                    self.inv_size.value(),
                ),
            decreases t.len() - i,
        {
            out.push(t[i].scale(&self.inv_size));
            i += 1;
        }
        proof {
            let spec = g1_scale_all(g1_fft_spec(encodings(points@), self.omega_inv()), self.size_inv());
            assert forall|j: int| 0 <= j < out.len() implies encodings(out@)[j] == spec[j] by {
                assert(encodings(t@)[j] == t@[j]@);
            }
            assert(encodings(out@) =~= spec);
        }
        out
    }
}

} // verus!
