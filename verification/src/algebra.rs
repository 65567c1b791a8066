//! Facts of modular algebra that the transforms rest on: congruences, the
//! splitting of a polynomial into its even and odd part, the butterfly and
//! its inverse, and the order of the root of unity that the domains are
//! built from.

use crate::field::{
    fadd, fmul, fneg, fpow, fsub, is_residue, lemma_fneg_is_mul, lemma_fpow_add, lemma_residue_mod,
    modulus,
};
use crate::polynomial::poly_eval_spec;
use vstd::arithmetic::div_mod::{
    lemma_add_mod_noop, lemma_mod_twice, lemma_mul_mod_noop_general, lemma_sub_mod_noop,
};
use vstd::prelude::*;

verus! {

/// Whether two integers are the same residue.
pub open spec fn congruent(a: int, b: int) -> bool {
    a % modulus() == b % modulus()
}

pub proof fn lemma_cong_add(a: int, a2: int, b: int, b2: int)
    requires
        congruent(a, a2),
        congruent(b, b2),
    ensures
        congruent(a + b, a2 + b2),
{
    lemma_add_mod_noop(a, b, modulus());
    lemma_add_mod_noop(a2, b2, modulus());
}

pub proof fn lemma_cong_sub(a: int, a2: int, b: int, b2: int)
    requires
        congruent(a, a2),
        congruent(b, b2),
    ensures
        congruent(a - b, a2 - b2),
{
    lemma_sub_mod_noop(a, b, modulus());
    lemma_sub_mod_noop(a2, b2, modulus());
}

pub proof fn lemma_cong_mul(a: int, a2: int, b: int, b2: int)
    requires
        congruent(a, a2),
        congruent(b, b2),
    ensures
        congruent(a * b, a2 * b2),
{
    lemma_mul_mod_noop_general(a, b, modulus());
    lemma_mul_mod_noop_general(a2, b2, modulus());
}

/// Each field operation is congruent to the integer operation.
pub proof fn lemma_ops_cong(a: int, b: int)
    ensures
        congruent(fadd(a, b), a + b),
        congruent(fsub(a, b), a - b),
        congruent(fmul(a, b), a * b),
        congruent(fneg(a), -a),
{
    lemma_mod_twice(a + b, modulus());
    lemma_mod_twice(a - b, modulus());
    lemma_mod_twice(a * b, modulus());
    lemma_mod_twice(-a, modulus());
}

/// The items of a sequence at the even positions.
pub open spec fn even_items<A>(s: Seq<A>) -> Seq<A> {
    Seq::new(((s.len() + 1) / 2) as nat, |i: int| s[2 * i])
}

/// The items of a sequence at the odd positions.
pub open spec fn odd_items<A>(s: Seq<A>) -> Seq<A> {
    Seq::new((s.len() / 2) as nat, |i: int| s[2 * i + 1])
}

/// The value of a polynomial at `x` over the integers, without reduction.
pub open spec fn int_eval(p: Seq<int>, x: int) -> int
    decreases p.len(),
{
    if p.len() == 0 {
        0int
    } else {
        p[0] + x * int_eval(p.drop_first(), x)
    }
}

/// Evaluation in the field is evaluation over the integers, reduced.
pub proof fn lemma_eval_is_int_eval(p: Seq<int>, x: int)
    ensures
        poly_eval_spec(p, x) == int_eval(p, x) % modulus(),
    decreases p.len(),
{
    if p.len() == 0 {
        lemma_residue_mod(0);
    } else {
        let rest = p.drop_first();
        lemma_eval_is_int_eval(rest, x);
        let e = poly_eval_spec(rest, x);
        let i = int_eval(rest, x);
        lemma_mod_twice(i, modulus());
        assert(congruent(e, i));
        assert(congruent(x, x));
        lemma_cong_mul(x, x, e, i);
        lemma_ops_cong(x, e);
        assert(congruent(fmul(x, e), x * i));
        assert(congruent(p[0], p[0]));
        lemma_cong_add(p[0], p[0], fmul(x, e), x * i);
    }
}

/// Evaluation over the integers respects congruence of the point.
pub proof fn lemma_int_eval_cong(p: Seq<int>, x: int, y: int)
    requires
        congruent(x, y),
    ensures
        congruent(int_eval(p, x), int_eval(p, y)),
    decreases p.len(),
{
    if p.len() > 0 {
        let rest = p.drop_first();
        lemma_int_eval_cong(rest, x, y);
        lemma_cong_mul(x, y, int_eval(rest, x), int_eval(rest, y));
        assert(congruent(p[0], p[0]));
        lemma_cong_add(p[0], p[0], x * int_eval(rest, x), y * int_eval(rest, y));
    }
}

/// A polynomial is its even part in `x^2` plus `x` times its odd part in `x^2`.
pub proof fn lemma_int_eval_split(p: Seq<int>, x: int)
    ensures
        int_eval(p, x) == int_eval(even_items(p), x * x) + x * int_eval(odd_items(p), x * x),
    decreases p.len(),
{
    let y = x * x;
    if p.len() == 0 {
        assert(x * 0 == 0) by (nonlinear_arith);
    } else if p.len() == 1 {
        assert(p.drop_first().len() == 0);
        assert(even_items(p).drop_first().len() == 0);
        assert(even_items(p)[0] == p[0]);
        assert(odd_items(p).len() == 0);
        assert(int_eval(p.drop_first(), x) == 0);
        assert(int_eval(even_items(p).drop_first(), y) == 0);
        assert(int_eval(odd_items(p), y) == 0);
        assert(int_eval(p, x) == p[0] + x * 0);
        assert(int_eval(even_items(p), y) == p[0] + y * 0);
        assert(x * 0 == 0) by (nonlinear_arith);
        assert(y * 0 == 0) by (nonlinear_arith);
    } else {
        let rest = p.drop_first().drop_first();
        lemma_int_eval_split(rest, x);
        assert(even_items(p).drop_first() =~= even_items(rest));
        assert(odd_items(p).drop_first() =~= odd_items(rest));
        assert(even_items(p)[0] == p[0]);
        assert(odd_items(p)[0] == p[1]);
        assert(p.drop_first()[0] == p[1]);
        let ie = int_eval(even_items(rest), y);
        let io = int_eval(odd_items(rest), y);
        let ir = int_eval(rest, x);
        assert(int_eval(p.drop_first(), x) == p[1] + x * ir);
        assert(int_eval(p, x) == p[0] + x * int_eval(p.drop_first(), x));
        assert(int_eval(even_items(p), y) == p[0] + y * ie);
        assert(int_eval(odd_items(p), y) == p[1] + y * io);
        assert(p[0] + x * (p[1] + x * ir) == (p[0] + y * ie) + x * (p[1] + y * io))
            by (nonlinear_arith)
            requires
                ir == ie + x * io,
                y == x * x,
        ;
    }
}

/// In the field: `p(x) = even(p)(x^2) + x * odd(p)(x^2)`.
pub proof fn lemma_eval_split(p: Seq<int>, x: int)
    ensures
        poly_eval_spec(p, x) == fadd(
            poly_eval_spec(even_items(p), fmul(x, x)),
            fmul(x, poly_eval_spec(odd_items(p), fmul(x, x))),
        ),
{
    let y = fmul(x, x);
    let ev = poly_eval_spec(even_items(p), y);
    let od = poly_eval_spec(odd_items(p), y);
    let ie = int_eval(even_items(p), x * x);
    let io = int_eval(odd_items(p), x * x);
    lemma_eval_is_int_eval(p, x);
    lemma_int_eval_split(p, x);
    lemma_eval_is_int_eval(even_items(p), y);
    lemma_eval_is_int_eval(odd_items(p), y);
    lemma_ops_cong(x, x);
    lemma_int_eval_cong(even_items(p), y, x * x);
    lemma_int_eval_cong(odd_items(p), y, x * x);
    lemma_mod_twice(int_eval(even_items(p), y), modulus());
    lemma_mod_twice(int_eval(odd_items(p), y), modulus());
    assert(congruent(ev, ie));
    assert(congruent(od, io));
    assert(congruent(x, x));
    lemma_cong_mul(x, x, od, io);
    lemma_ops_cong(x, od);
    lemma_cong_add(ev, ie, fmul(x, od), x * io);
    lemma_ops_cong(ev, fmul(x, od));
    lemma_mod_twice(ev + fmul(x, od), modulus());
}

/// The square of a negation is the square.
pub proof fn lemma_neg_square(x: int)
    ensures
        fmul(fneg(x), fneg(x)) == fmul(x, x),
{
    lemma_ops_cong(x, x);
    lemma_cong_mul(fneg(x), -x, fneg(x), -x);
    assert((-x) * (-x) == x * x) by (nonlinear_arith);
}

/// The upper half of a butterfly: with the point negated, the odd part is
/// subtracted.
pub proof fn lemma_butterfly_upper(e: int, x: int, o: int)
    ensures
        fadd(e, fmul(fneg(x), o)) == fsub(e, fmul(x, o)),
{
    lemma_ops_cong(x, o);
    lemma_ops_cong(fneg(x), o);
    assert(congruent(o, o));
    lemma_cong_mul(fneg(x), -x, o, o);
    assert((-x) * o == -(x * o)) by (nonlinear_arith);
    assert(congruent(e, e));
    lemma_cong_add(e, e, fmul(fneg(x), o), -(x * o));
    lemma_cong_sub(e, e, fmul(x, o), x * o);
    lemma_ops_cong(e, fmul(fneg(x), o));
    lemma_ops_cong(e, fmul(x, o));
    lemma_mod_twice(e + fmul(fneg(x), o), modulus());
    lemma_mod_twice(e - fmul(x, o), modulus());
}

/// The inverse butterfly undoes the butterfly: from `a` and `b`, with `h`
/// the inverse of two and `xi` the inverse of `x`, the halves
/// `e = (a + b) h` and `o = (a - b) h xi` give back `a = e + x o` and
/// `b = e - x o`.
pub proof fn lemma_inverse_butterfly(a: int, b: int, h: int, x: int, xi: int)
    requires
        is_residue(a),
        is_residue(b),
        fmul(2, h) == 1,
        fmul(x, xi) == 1,
    ensures
        fadd(fmul(fadd(a, b), h), fmul(x, fmul(fmul(fsub(a, b), h), xi))) == a,
        fsub(fmul(fadd(a, b), h), fmul(x, fmul(fmul(fsub(a, b), h), xi))) == b,
{
    let e = fmul(fadd(a, b), h);
    let d = fmul(fsub(a, b), h);
    let o = fmul(d, xi);
    let t = fmul(x, o);
    lemma_residue_mod(1);
    // e is (a + b) h
    lemma_ops_cong(a, b);
    assert(congruent(h, h));
    lemma_cong_mul(fadd(a, b), a + b, h, h);
    lemma_ops_cong(fadd(a, b), h);
    assert(congruent(e, (a + b) * h));
    // d is (a - b) h
    lemma_cong_mul(fsub(a, b), a - b, h, h);
    lemma_ops_cong(fsub(a, b), h);
    assert(congruent(d, (a - b) * h));
    // t is x (d xi), which is (x xi) d, which is d
    lemma_ops_cong(d, xi);
    assert(congruent(x, x));
    lemma_cong_mul(x, x, o, d * xi);
    lemma_ops_cong(x, o);
    assert(x * (d * xi) == (x * xi) * d) by (nonlinear_arith);
    lemma_ops_cong(x, xi);
    assert(congruent(x * xi, 1));
    assert(congruent(d, d));
    lemma_cong_mul(x * xi, 1, d, d);
    assert(1 * d == d);
    assert(congruent(t, d));
    assert(congruent(t, (a - b) * h));
    // the two sums
    lemma_cong_add(e, (a + b) * h, t, (a - b) * h);
    lemma_cong_sub(e, (a + b) * h, t, (a - b) * h);
    assert((a + b) * h + (a - b) * h == a * (2 * h)) by (nonlinear_arith);
    assert((a + b) * h - (a - b) * h == b * (2 * h)) by (nonlinear_arith);
    lemma_ops_cong(2, h);
    assert(congruent(2 * h, 1));
    assert(congruent(a, a));
    assert(congruent(b, b));
    lemma_cong_mul(a, a, 2 * h, 1);
    lemma_cong_mul(b, b, 2 * h, 1);
    assert(a * 1 == a);
    assert(b * 1 == b);
    lemma_ops_cong(e, t);
    assert(congruent(fadd(e, t), a));
    assert(congruent(fsub(e, t), b));
    lemma_mod_twice(e + t, modulus());
    lemma_mod_twice(e - t, modulus());
    lemma_residue_mod(a);
    lemma_residue_mod(b);
}

/// Every power of one is one.
pub proof fn lemma_fpow_of_one(e: nat)
    ensures
        fpow(1, e) == 1,
    decreases e,
{
    lemma_residue_mod(1);
    if e > 0 {
        lemma_fpow_of_one((e - 1) as nat);
    }
}

/// Every positive power of zero is zero.
pub proof fn lemma_fpow_of_zero(b: int, e: nat)
    requires
        b % modulus() == 0,
        e > 0,
    ensures
        fpow(b, e) == 0,
{
    let p = fpow(b, (e - 1) as nat);
    assert(congruent(b, 0));
    assert(congruent(p, p));
    lemma_cong_mul(b, 0, p, p);
    assert(0 * p == 0);
    lemma_residue_mod(0);
}

/// Multiplying by the power `half` of a root whose `half`-th power is minus
/// one negates.
pub proof fn lemma_half_turn(w: int, k: nat, half: nat)
    requires
        fpow(w, half) == modulus() - 1,
    ensures
        fpow(w, k + half) == fneg(fpow(w, k)),
{
    lemma_fpow_add(w, k, half);
    lemma_fneg_is_mul(fpow(w, k));
    vstd::arithmetic::mul::lemma_mul_is_commutative(fpow(w, k), modulus() - 1);
}

/// A root of unity of order `2^32` in the scalar field.
pub open spec fn two_adic_root() -> int {
    0x16a2a19edfe81f20d09b681922c813b4b63683508c2280b93829971f439f0d2bint
}


/// One squaring step: if `fpow(w, e)` is `c`, then `fpow(w, 2 e)` is `c^2`.
proof fn lemma_square_step(w: int, e: nat, c: int, c2: int)
    requires
        fpow(w, e) == c,
        (c * c) % modulus() == c2,
    ensures
        fpow(w, 2 * e) == c2,
{
    lemma_fpow_add(w, e, e);
}

proof fn lemma_root_power_1()
    ensures
        fpow(two_adic_root(), 2) == 0x4b5371495990693fad1715b02e5713b5f070bb00e28a193d63e7cb4906ffc93fint,
{
    lemma_residue_mod(two_adic_root());
    assert(fpow(two_adic_root(), 1) == fmul(two_adic_root(), fpow(two_adic_root(), 0)));
    assert((0x16a2a19edfe81f20d09b681922c813b4b63683508c2280b93829971f439f0d2bint * 0x16a2a19edfe81f20d09b681922c813b4b63683508c2280b93829971f439f0d2bint) % 0x73eda753299d7d483339d80809a1d80553bda402fffe5bfeffffffff00000001int == 0x4b5371495990693fad1715b02e5713b5f070bb00e28a193d63e7cb4906ffc93fint) by (nonlinear_arith);
    lemma_square_step(two_adic_root(), 1, 0x16a2a19edfe81f20d09b681922c813b4b63683508c2280b93829971f439f0d2bint, 0x4b5371495990693fad1715b02e5713b5f070bb00e28a193d63e7cb4906ffc93fint);
}

proof fn lemma_root_power_2()
    ensures
        fpow(two_adic_root(), 4) == 0x2c6d4e4511657e1e1339a815da8b398fed3a181fabb30adc694341f608c9dd56int,
{
    lemma_root_power_1();
    assert((0x4b5371495990693fad1715b02e5713b5f070bb00e28a193d63e7cb4906ffc93fint * 0x4b5371495990693fad1715b02e5713b5f070bb00e28a193d63e7cb4906ffc93fint) % 0x73eda753299d7d483339d80809a1d80553bda402fffe5bfeffffffff00000001int == 0x2c6d4e4511657e1e1339a815da8b398fed3a181fabb30adc694341f608c9dd56int) by (nonlinear_arith);
    lemma_square_step(two_adic_root(), 2, 0x4b5371495990693fad1715b02e5713b5f070bb00e28a193d63e7cb4906ffc93fint, 0x2c6d4e4511657e1e1339a815da8b398fed3a181fabb30adc694341f608c9dd56int);
}

proof fn lemma_root_power_3()
    ensures
        fpow(two_adic_root(), 8) == 0xc83ea7744bf1bee8da40c1ef2bb459884d37b826214abc6474650359d8e211bint,
{
    lemma_root_power_2();
    assert((0x2c6d4e4511657e1e1339a815da8b398fed3a181fabb30adc694341f608c9dd56int * 0x2c6d4e4511657e1e1339a815da8b398fed3a181fabb30adc694341f608c9dd56int) % 0x73eda753299d7d483339d80809a1d80553bda402fffe5bfeffffffff00000001int == 0xc83ea7744bf1bee8da40c1ef2bb459884d37b826214abc6474650359d8e211bint) by (nonlinear_arith);
    lemma_square_step(two_adic_root(), 4, 0x2c6d4e4511657e1e1339a815da8b398fed3a181fabb30adc694341f608c9dd56int, 0xc83ea7744bf1bee8da40c1ef2bb459884d37b826214abc6474650359d8e211bint);
}

proof fn lemma_root_power_4()
    ensures
        fpow(two_adic_root(), 16) == 0x52dd465e2f09425699e276b571905a7d6558e9e3f6ac7b41d7b688830a4f2089int,
{
    lemma_root_power_3();
    assert((0xc83ea7744bf1bee8da40c1ef2bb459884d37b826214abc6474650359d8e211bint * 0xc83ea7744bf1bee8da40c1ef2bb459884d37b826214abc6474650359d8e211bint) % 0x73eda753299d7d483339d80809a1d80553bda402fffe5bfeffffffff00000001int == 0x52dd465e2f09425699e276b571905a7d6558e9e3f6ac7b41d7b688830a4f2089int) by (nonlinear_arith);
    lemma_square_step(two_adic_root(), 8, 0xc83ea7744bf1bee8da40c1ef2bb459884d37b826214abc6474650359d8e211bint, 0x52dd465e2f09425699e276b571905a7d6558e9e3f6ac7b41d7b688830a4f2089int);
}

proof fn lemma_root_power_5()
    ensures
        fpow(two_adic_root(), 32) == 0x23397a9300f8f98bece8ea224f31d25db94f1101b1d7a628e2d0a7869f0319edint,
{
    lemma_root_power_4();
    assert((0x52dd465e2f09425699e276b571905a7d6558e9e3f6ac7b41d7b688830a4f2089int * 0x52dd465e2f09425699e276b571905a7d6558e9e3f6ac7b41d7b688830a4f2089int) % 0x73eda753299d7d483339d80809a1d80553bda402fffe5bfeffffffff00000001int == 0x23397a9300f8f98bece8ea224f31d25db94f1101b1d7a628e2d0a7869f0319edint) by (nonlinear_arith);
    lemma_square_step(two_adic_root(), 16, 0x52dd465e2f09425699e276b571905a7d6558e9e3f6ac7b41d7b688830a4f2089int, 0x23397a9300f8f98bece8ea224f31d25db94f1101b1d7a628e2d0a7869f0319edint);
}

proof fn lemma_root_power_6()
    ensures
        fpow(two_adic_root(), 64) == 0xa0a77a3b1980c0d116168bffbedc11d02c8118402867ddc531a11a0d2d75182int,
{
    lemma_root_power_5();
    assert((0x23397a9300f8f98bece8ea224f31d25db94f1101b1d7a628e2d0a7869f0319edint * 0x23397a9300f8f98bece8ea224f31d25db94f1101b1d7a628e2d0a7869f0319edint) % 0x73eda753299d7d483339d80809a1d80553bda402fffe5bfeffffffff00000001int == 0xa0a77a3b1980c0d116168bffbedc11d02c8118402867ddc531a11a0d2d75182int) by (nonlinear_arith);
    lemma_square_step(two_adic_root(), 32, 0x23397a9300f8f98bece8ea224f31d25db94f1101b1d7a628e2d0a7869f0319edint, 0xa0a77a3b1980c0d116168bffbedc11d02c8118402867ddc531a11a0d2d75182int);
}

proof fn lemma_root_power_7()
    ensures
        fpow(two_adic_root(), 128) == 0x19fe632fd3287390454dc1edc61a1a3c0ba12bb3da64ca5ce32ef844e11a51eint,
{
    lemma_root_power_6();
    assert((0xa0a77a3b1980c0d116168bffbedc11d02c8118402867ddc531a11a0d2d75182int * 0xa0a77a3b1980c0d116168bffbedc11d02c8118402867ddc531a11a0d2d75182int) % 0x73eda753299d7d483339d80809a1d80553bda402fffe5bfeffffffff00000001int == 0x19fe632fd3287390454dc1edc61a1a3c0ba12bb3da64ca5ce32ef844e11a51eint) by (nonlinear_arith);
    lemma_square_step(two_adic_root(), 64, 0xa0a77a3b1980c0d116168bffbedc11d02c8118402867ddc531a11a0d2d75182int, 0x19fe632fd3287390454dc1edc61a1a3c0ba12bb3da64ca5ce32ef844e11a51eint);
}

proof fn lemma_root_power_8()
    ensures
        fpow(two_adic_root(), 256) == 0x291cf6d68823e6876e0bcd91ee76273072cf6a8029b7d7bc92cf4deb77bd779cint,
{
    lemma_root_power_7();
    assert((0x19fe632fd3287390454dc1edc61a1a3c0ba12bb3da64ca5ce32ef844e11a51eint * 0x19fe632fd3287390454dc1edc61a1a3c0ba12bb3da64ca5ce32ef844e11a51eint) % 0x73eda753299d7d483339d80809a1d80553bda402fffe5bfeffffffff00000001int == 0x291cf6d68823e6876e0bcd91ee76273072cf6a8029b7d7bc92cf4deb77bd779cint) by (nonlinear_arith);
    lemma_square_step(two_adic_root(), 128, 0x19fe632fd3287390454dc1edc61a1a3c0ba12bb3da64ca5ce32ef844e11a51eint, 0x291cf6d68823e6876e0bcd91ee76273072cf6a8029b7d7bc92cf4deb77bd779cint);
}

proof fn lemma_root_power_9()
    ensures
        fpow(two_adic_root(), 512) == 0x73560252aa0655b25121af06a3b51e3cc631ffb2585a72db5616c57de0ec9eaeint,
{
    lemma_root_power_8();
    assert((0x291cf6d68823e6876e0bcd91ee76273072cf6a8029b7d7bc92cf4deb77bd779cint * 0x291cf6d68823e6876e0bcd91ee76273072cf6a8029b7d7bc92cf4deb77bd779cint) % 0x73eda753299d7d483339d80809a1d80553bda402fffe5bfeffffffff00000001int == 0x73560252aa0655b25121af06a3b51e3cc631ffb2585a72db5616c57de0ec9eaeint) by (nonlinear_arith);
    lemma_square_step(two_adic_root(), 256, 0x291cf6d68823e6876e0bcd91ee76273072cf6a8029b7d7bc92cf4deb77bd779cint, 0x73560252aa0655b25121af06a3b51e3cc631ffb2585a72db5616c57de0ec9eaeint);
}

proof fn lemma_root_power_10()
    ensures
        fpow(two_adic_root(), 1024) == 0xabe6a5e5abcaa32f2d38f10fbb8d1bbe08fec7c86389beec6e7a6ffb08e3363int,
{
    lemma_root_power_9();
    assert((0x73560252aa0655b25121af06a3b51e3cc631ffb2585a72db5616c57de0ec9eaeint * 0x73560252aa0655b25121af06a3b51e3cc631ffb2585a72db5616c57de0ec9eaeint) % 0x73eda753299d7d483339d80809a1d80553bda402fffe5bfeffffffff00000001int == 0xabe6a5e5abcaa32f2d38f10fbb8d1bbe08fec7c86389beec6e7a6ffb08e3363int) by (nonlinear_arith);
    lemma_square_step(two_adic_root(), 512, 0x73560252aa0655b25121af06a3b51e3cc631ffb2585a72db5616c57de0ec9eaeint, 0xabe6a5e5abcaa32f2d38f10fbb8d1bbe08fec7c86389beec6e7a6ffb08e3363int);
}

proof fn lemma_root_power_11()
    ensures
        fpow(two_adic_root(), 2048) == 0x47c8b5817018af4fc70d0874b0691d4e46b3105f04db5844cd3979122d3ea03aint,
{
    lemma_root_power_10();
    assert((0xabe6a5e5abcaa32f2d38f10fbb8d1bbe08fec7c86389beec6e7a6ffb08e3363int * 0xabe6a5e5abcaa32f2d38f10fbb8d1bbe08fec7c86389beec6e7a6ffb08e3363int) % 0x73eda753299d7d483339d80809a1d80553bda402fffe5bfeffffffff00000001int == 0x47c8b5817018af4fc70d0874b0691d4e46b3105f04db5844cd3979122d3ea03aint) by (nonlinear_arith);
    lemma_square_step(two_adic_root(), 1024, 0xabe6a5e5abcaa32f2d38f10fbb8d1bbe08fec7c86389beec6e7a6ffb08e3363int, 0x47c8b5817018af4fc70d0874b0691d4e46b3105f04db5844cd3979122d3ea03aint);
}

proof fn lemma_root_power_12()
    ensures
        fpow(two_adic_root(), 4096) == 0x3e1c54bcb947035a57a6e07cb98de4a2f69e02d265e09d9fece7e0e39898d4bint,
{
    lemma_root_power_11();
    assert((0x47c8b5817018af4fc70d0874b0691d4e46b3105f04db5844cd3979122d3ea03aint * 0x47c8b5817018af4fc70d0874b0691d4e46b3105f04db5844cd3979122d3ea03aint) % 0x73eda753299d7d483339d80809a1d80553bda402fffe5bfeffffffff00000001int == 0x3e1c54bcb947035a57a6e07cb98de4a2f69e02d265e09d9fece7e0e39898d4bint) by (nonlinear_arith);
    lemma_square_step(two_adic_root(), 2048, 0x47c8b5817018af4fc70d0874b0691d4e46b3105f04db5844cd3979122d3ea03aint, 0x3e1c54bcb947035a57a6e07cb98de4a2f69e02d265e09d9fece7e0e39898d4bint);
}

proof fn lemma_root_power_13()
    ensures
        fpow(two_adic_root(), 8192) == 0x520e587a724a6955df625e80d0adef90ad8e16e84419c750194e8c62ecb38d9dint,
{
    lemma_root_power_12();
    assert((0x3e1c54bcb947035a57a6e07cb98de4a2f69e02d265e09d9fece7e0e39898d4bint * 0x3e1c54bcb947035a57a6e07cb98de4a2f69e02d265e09d9fece7e0e39898d4bint) % 0x73eda753299d7d483339d80809a1d80553bda402fffe5bfeffffffff00000001int == 0x520e587a724a6955df625e80d0adef90ad8e16e84419c750194e8c62ecb38d9dint) by (nonlinear_arith);
    lemma_square_step(two_adic_root(), 4096, 0x3e1c54bcb947035a57a6e07cb98de4a2f69e02d265e09d9fece7e0e39898d4bint, 0x520e587a724a6955df625e80d0adef90ad8e16e84419c750194e8c62ecb38d9dint);
}

proof fn lemma_root_power_14()
    ensures
        fpow(two_adic_root(), 16384) == 0x2d3056a530794f01652f717ae1c34bb0bb97a3bf30ce40fd6f421a7d8ef674fbint,
{
    lemma_root_power_13();
    assert((0x520e587a724a6955df625e80d0adef90ad8e16e84419c750194e8c62ecb38d9dint * 0x520e587a724a6955df625e80d0adef90ad8e16e84419c750194e8c62ecb38d9dint) % 0x73eda753299d7d483339d80809a1d80553bda402fffe5bfeffffffff00000001int == 0x2d3056a530794f01652f717ae1c34bb0bb97a3bf30ce40fd6f421a7d8ef674fbint) by (nonlinear_arith);
    lemma_square_step(two_adic_root(), 8192, 0x520e587a724a6955df625e80d0adef90ad8e16e84419c750194e8c62ecb38d9dint, 0x2d3056a530794f01652f717ae1c34bb0bb97a3bf30ce40fd6f421a7d8ef674fbint);
}

proof fn lemma_root_power_15()
    ensures
        fpow(two_adic_root(), 32768) == 0x224262332d8acbf4473a2eef772c33d6cd7f2bd6d0711b7d08692405f3b70f10int,
{
    lemma_root_power_14();
    assert((0x2d3056a530794f01652f717ae1c34bb0bb97a3bf30ce40fd6f421a7d8ef674fbint * 0x2d3056a530794f01652f717ae1c34bb0bb97a3bf30ce40fd6f421a7d8ef674fbint) % 0x73eda753299d7d483339d80809a1d80553bda402fffe5bfeffffffff00000001int == 0x224262332d8acbf4473a2eef772c33d6cd7f2bd6d0711b7d08692405f3b70f10int) by (nonlinear_arith);
    lemma_square_step(two_adic_root(), 16384, 0x2d3056a530794f01652f717ae1c34bb0bb97a3bf30ce40fd6f421a7d8ef674fbint, 0x224262332d8acbf4473a2eef772c33d6cd7f2bd6d0711b7d08692405f3b70f10int);
}

proof fn lemma_root_power_16()
    ensures
        fpow(two_adic_root(), 65536) == 0x2155379d12180caa88f39a78f1aeb57867a665ae1fcadc91d7118f85cd96b8adint,
{
    lemma_root_power_15();
    assert((0x224262332d8acbf4473a2eef772c33d6cd7f2bd6d0711b7d08692405f3b70f10int * 0x224262332d8acbf4473a2eef772c33d6cd7f2bd6d0711b7d08692405f3b70f10int) % 0x73eda753299d7d483339d80809a1d80553bda402fffe5bfeffffffff00000001int == 0x2155379d12180caa88f39a78f1aeb57867a665ae1fcadc91d7118f85cd96b8adint) by (nonlinear_arith);
    lemma_square_step(two_adic_root(), 32768, 0x224262332d8acbf4473a2eef772c33d6cd7f2bd6d0711b7d08692405f3b70f10int, 0x2155379d12180caa88f39a78f1aeb57867a665ae1fcadc91d7118f85cd96b8adint);
}

proof fn lemma_root_power_17()
    ensures
        fpow(two_adic_root(), 131072) == 0x3291357ee558b50d483405417a0cbe39c8d5f51db3f32699fbd047e11279bb6eint,
{
    lemma_root_power_16();
    assert((0x2155379d12180caa88f39a78f1aeb57867a665ae1fcadc91d7118f85cd96b8adint * 0x2155379d12180caa88f39a78f1aeb57867a665ae1fcadc91d7118f85cd96b8adint) % 0x73eda753299d7d483339d80809a1d80553bda402fffe5bfeffffffff00000001int == 0x3291357ee558b50d483405417a0cbe39c8d5f51db3f32699fbd047e11279bb6eint) by (nonlinear_arith);
    lemma_square_step(two_adic_root(), 65536, 0x2155379d12180caa88f39a78f1aeb57867a665ae1fcadc91d7118f85cd96b8adint, 0x3291357ee558b50d483405417a0cbe39c8d5f51db3f32699fbd047e11279bb6eint);
}

proof fn lemma_root_power_18()
    ensures
        fpow(two_adic_root(), 262144) == 0x56624634b500a166dc86b01c0d477fa6ae4622f6a9152435034d2ff22a5ad9e1int,
{
    lemma_root_power_17();
    assert((0x3291357ee558b50d483405417a0cbe39c8d5f51db3f32699fbd047e11279bb6eint * 0x3291357ee558b50d483405417a0cbe39c8d5f51db3f32699fbd047e11279bb6eint) % 0x73eda753299d7d483339d80809a1d80553bda402fffe5bfeffffffff00000001int == 0x56624634b500a166dc86b01c0d477fa6ae4622f6a9152435034d2ff22a5ad9e1int) by (nonlinear_arith);
    lemma_square_step(two_adic_root(), 131072, 0x3291357ee558b50d483405417a0cbe39c8d5f51db3f32699fbd047e11279bb6eint, 0x56624634b500a166dc86b01c0d477fa6ae4622f6a9152435034d2ff22a5ad9e1int);
}

proof fn lemma_root_power_19()
    ensures
        fpow(two_adic_root(), 524288) == 0x485d512737b1da3d2ccddea2972e89ed146b58bc434906ac6fdd00bfc78c8967int,
{
    lemma_root_power_18();
    assert((0x56624634b500a166dc86b01c0d477fa6ae4622f6a9152435034d2ff22a5ad9e1int * 0x56624634b500a166dc86b01c0d477fa6ae4622f6a9152435034d2ff22a5ad9e1int) % 0x73eda753299d7d483339d80809a1d80553bda402fffe5bfeffffffff00000001int == 0x485d512737b1da3d2ccddea2972e89ed146b58bc434906ac6fdd00bfc78c8967int) by (nonlinear_arith);
    lemma_square_step(two_adic_root(), 262144, 0x56624634b500a166dc86b01c0d477fa6ae4622f6a9152435034d2ff22a5ad9e1int, 0x485d512737b1da3d2ccddea2972e89ed146b58bc434906ac6fdd00bfc78c8967int);
}

proof fn lemma_root_power_20()
    ensures
        fpow(two_adic_root(), 1048576) == 0x564c0a11a0f704f4fc3e8acfe0f8245f0ad1347b378fbf96e206da11a5d36306int,
{
    lemma_root_power_19();
    assert((0x485d512737b1da3d2ccddea2972e89ed146b58bc434906ac6fdd00bfc78c8967int * 0x485d512737b1da3d2ccddea2972e89ed146b58bc434906ac6fdd00bfc78c8967int) % 0x73eda753299d7d483339d80809a1d80553bda402fffe5bfeffffffff00000001int == 0x564c0a11a0f704f4fc3e8acfe0f8245f0ad1347b378fbf96e206da11a5d36306int) by (nonlinear_arith);
    lemma_square_step(two_adic_root(), 524288, 0x485d512737b1da3d2ccddea2972e89ed146b58bc434906ac6fdd00bfc78c8967int, 0x564c0a11a0f704f4fc3e8acfe0f8245f0ad1347b378fbf96e206da11a5d36306int);
}

proof fn lemma_root_power_21()
    ensures
        fpow(two_adic_root(), 2097152) == 0x6d031f1b5c49c83409f1ca610a08f16655ea6811be9c622d4a838b5d59cd79e5int,
{
    lemma_root_power_20();
    assert((0x564c0a11a0f704f4fc3e8acfe0f8245f0ad1347b378fbf96e206da11a5d36306int * 0x564c0a11a0f704f4fc3e8acfe0f8245f0ad1347b378fbf96e206da11a5d36306int) % 0x73eda753299d7d483339d80809a1d80553bda402fffe5bfeffffffff00000001int == 0x6d031f1b5c49c83409f1ca610a08f16655ea6811be9c622d4a838b5d59cd79e5int) by (nonlinear_arith);
    lemma_square_step(two_adic_root(), 1048576, 0x564c0a11a0f704f4fc3e8acfe0f8245f0ad1347b378fbf96e206da11a5d36306int, 0x6d031f1b5c49c83409f1ca610a08f16655ea6811be9c622d4a838b5d59cd79e5int);
}

proof fn lemma_root_power_22()
    ensures
        fpow(two_adic_root(), 4194304) == 0x325db5c3debf77a18f4de02c0f776af3ea437f9626fc085e3c28d666a5c2d854int,
{
    lemma_root_power_21();
    assert((0x6d031f1b5c49c83409f1ca610a08f16655ea6811be9c622d4a838b5d59cd79e5int * 0x6d031f1b5c49c83409f1ca610a08f16655ea6811be9c622d4a838b5d59cd79e5int) % 0x73eda753299d7d483339d80809a1d80553bda402fffe5bfeffffffff00000001int == 0x325db5c3debf77a18f4de02c0f776af3ea437f9626fc085e3c28d666a5c2d854int) by (nonlinear_arith);
    lemma_square_step(two_adic_root(), 2097152, 0x6d031f1b5c49c83409f1ca610a08f16655ea6811be9c622d4a838b5d59cd79e5int, 0x325db5c3debf77a18f4de02c0f776af3ea437f9626fc085e3c28d666a5c2d854int);
}

proof fn lemma_root_power_23()
    ensures
        fpow(two_adic_root(), 8388608) == 0x95166525526a65439feec240d80689fd697168a3a6000fe4541b8ff2ee0434eint,
{
    lemma_root_power_22();
    assert((0x325db5c3debf77a18f4de02c0f776af3ea437f9626fc085e3c28d666a5c2d854int * 0x325db5c3debf77a18f4de02c0f776af3ea437f9626fc085e3c28d666a5c2d854int) % 0x73eda753299d7d483339d80809a1d80553bda402fffe5bfeffffffff00000001int == 0x95166525526a65439feec240d80689fd697168a3a6000fe4541b8ff2ee0434eint) by (nonlinear_arith);
    lemma_square_step(two_adic_root(), 4194304, 0x325db5c3debf77a18f4de02c0f776af3ea437f9626fc085e3c28d666a5c2d854int, 0x95166525526a65439feec240d80689fd697168a3a6000fe4541b8ff2ee0434eint);
}

proof fn lemma_root_power_24()
    ensures
        fpow(two_adic_root(), 16777216) == 0x4f9b4098e2e9f12e6b368121ac0cf4ad0a0865a899e8deff4935bd2f817f694bint,
{
    lemma_root_power_23();
    assert((0x95166525526a65439feec240d80689fd697168a3a6000fe4541b8ff2ee0434eint * 0x95166525526a65439feec240d80689fd697168a3a6000fe4541b8ff2ee0434eint) % 0x73eda753299d7d483339d80809a1d80553bda402fffe5bfeffffffff00000001int == 0x4f9b4098e2e9f12e6b368121ac0cf4ad0a0865a899e8deff4935bd2f817f694bint) by (nonlinear_arith);
    lemma_square_step(two_adic_root(), 8388608, 0x95166525526a65439feec240d80689fd697168a3a6000fe4541b8ff2ee0434eint, 0x4f9b4098e2e9f12e6b368121ac0cf4ad0a0865a899e8deff4935bd2f817f694bint);
}

proof fn lemma_root_power_25()
    ensures
        fpow(two_adic_root(), 33554432) == 0x6898111413588742b7c68b4d7fdd60d098d0caac87f5713c5130c2c1660125beint,
{
    lemma_root_power_24();
    assert((0x4f9b4098e2e9f12e6b368121ac0cf4ad0a0865a899e8deff4935bd2f817f694bint * 0x4f9b4098e2e9f12e6b368121ac0cf4ad0a0865a899e8deff4935bd2f817f694bint) % 0x73eda753299d7d483339d80809a1d80553bda402fffe5bfeffffffff00000001int == 0x6898111413588742b7c68b4d7fdd60d098d0caac87f5713c5130c2c1660125beint) by (nonlinear_arith);
    lemma_square_step(two_adic_root(), 16777216, 0x4f9b4098e2e9f12e6b368121ac0cf4ad0a0865a899e8deff4935bd2f817f694bint, 0x6898111413588742b7c68b4d7fdd60d098d0caac87f5713c5130c2c1660125beint);
}

proof fn lemma_root_power_26()
    ensures
        fpow(two_adic_root(), 67108864) == 0x45af6345ec055e4d14a1e27164d8fdbd2d967f4be2f951558140d032f0a9ee53int,
{
    lemma_root_power_25();
    assert((0x6898111413588742b7c68b4d7fdd60d098d0caac87f5713c5130c2c1660125beint * 0x6898111413588742b7c68b4d7fdd60d098d0caac87f5713c5130c2c1660125beint) % 0x73eda753299d7d483339d80809a1d80553bda402fffe5bfeffffffff00000001int == 0x45af6345ec055e4d14a1e27164d8fdbd2d967f4be2f951558140d032f0a9ee53int) by (nonlinear_arith);
    lemma_square_step(two_adic_root(), 33554432, 0x6898111413588742b7c68b4d7fdd60d098d0caac87f5713c5130c2c1660125beint, 0x45af6345ec055e4d14a1e27164d8fdbd2d967f4be2f951558140d032f0a9ee53int);
}

proof fn lemma_root_power_27()
    ensures
        fpow(two_adic_root(), 134217728) == 0x50e0903a157988bab4bcd40e22f55448bf6e88fb4c38fb8a360c60997369df4eint,
{
    lemma_root_power_26();
    assert((0x45af6345ec055e4d14a1e27164d8fdbd2d967f4be2f951558140d032f0a9ee53int * 0x45af6345ec055e4d14a1e27164d8fdbd2d967f4be2f951558140d032f0a9ee53int) % 0x73eda753299d7d483339d80809a1d80553bda402fffe5bfeffffffff00000001int == 0x50e0903a157988bab4bcd40e22f55448bf6e88fb4c38fb8a360c60997369df4eint) by (nonlinear_arith);
    lemma_square_step(two_adic_root(), 67108864, 0x45af6345ec055e4d14a1e27164d8fdbd2d967f4be2f951558140d032f0a9ee53int, 0x50e0903a157988bab4bcd40e22f55448bf6e88fb4c38fb8a360c60997369df4eint);
}

proof fn lemma_root_power_28()
    ensures
        fpow(two_adic_root(), 268435456) == 0x20b1ce9140267af9dd1c0af834cec32c17beb312f20b6f7653ea61d87742bcceint,
{
    lemma_root_power_27();
    assert((0x50e0903a157988bab4bcd40e22f55448bf6e88fb4c38fb8a360c60997369df4eint * 0x50e0903a157988bab4bcd40e22f55448bf6e88fb4c38fb8a360c60997369df4eint) % 0x73eda753299d7d483339d80809a1d80553bda402fffe5bfeffffffff00000001int == 0x20b1ce9140267af9dd1c0af834cec32c17beb312f20b6f7653ea61d87742bcceint) by (nonlinear_arith);
    lemma_square_step(two_adic_root(), 134217728, 0x50e0903a157988bab4bcd40e22f55448bf6e88fb4c38fb8a360c60997369df4eint, 0x20b1ce9140267af9dd1c0af834cec32c17beb312f20b6f7653ea61d87742bcceint);
}

proof fn lemma_root_power_29()
    ensures
        fpow(two_adic_root(), 536870912) == 0x345766f603fa66e78c0625cd70d77ce2b38b21c28713b7007228fd3397743f7aint,
{
    lemma_root_power_28();
    assert((0x20b1ce9140267af9dd1c0af834cec32c17beb312f20b6f7653ea61d87742bcceint * 0x20b1ce9140267af9dd1c0af834cec32c17beb312f20b6f7653ea61d87742bcceint) % 0x73eda753299d7d483339d80809a1d80553bda402fffe5bfeffffffff00000001int == 0x345766f603fa66e78c0625cd70d77ce2b38b21c28713b7007228fd3397743f7aint) by (nonlinear_arith);
    lemma_square_step(two_adic_root(), 268435456, 0x20b1ce9140267af9dd1c0af834cec32c17beb312f20b6f7653ea61d87742bcceint, 0x345766f603fa66e78c0625cd70d77ce2b38b21c28713b7007228fd3397743f7aint);
}

proof fn lemma_root_power_30()
    ensures
        fpow(two_adic_root(), 1073741824) == 0x8d51ccce760304d0ec030002760300000001000000000000int,
{
    lemma_root_power_29();
    assert((0x345766f603fa66e78c0625cd70d77ce2b38b21c28713b7007228fd3397743f7aint * 0x345766f603fa66e78c0625cd70d77ce2b38b21c28713b7007228fd3397743f7aint) % 0x73eda753299d7d483339d80809a1d80553bda402fffe5bfeffffffff00000001int == 0x8d51ccce760304d0ec030002760300000001000000000000int) by (nonlinear_arith);
    lemma_square_step(two_adic_root(), 536870912, 0x345766f603fa66e78c0625cd70d77ce2b38b21c28713b7007228fd3397743f7aint, 0x8d51ccce760304d0ec030002760300000001000000000000int);
}

proof fn lemma_root_power_31()
    ensures
        fpow(two_adic_root(), 2147483648) == 0x73eda753299d7d483339d80809a1d80553bda402fffe5bfeffffffff00000000int,
{
    lemma_root_power_30();
    assert((0x8d51ccce760304d0ec030002760300000001000000000000int * 0x8d51ccce760304d0ec030002760300000001000000000000int) % 0x73eda753299d7d483339d80809a1d80553bda402fffe5bfeffffffff00000001int == 0x73eda753299d7d483339d80809a1d80553bda402fffe5bfeffffffff00000000int) by (nonlinear_arith);
    lemma_square_step(two_adic_root(), 1073741824, 0x8d51ccce760304d0ec030002760300000001000000000000int, 0x73eda753299d7d483339d80809a1d80553bda402fffe5bfeffffffff00000000int);
}

/// The `2^31`-th power of the root is minus one, so its order is `2^32`.
pub proof fn lemma_two_adic_root_order()
    ensures
        fpow(two_adic_root(), 0x8000_0000) == modulus() - 1,
{
    lemma_root_power_31();
}

/// The `2^32`-th power of the root is one.
pub proof fn lemma_two_adic_root_unit()
    ensures
        fpow(two_adic_root(), 0x1_0000_0000) == 1,
{
    lemma_root_power_31();
    assert((0x73eda753299d7d483339d80809a1d80553bda402fffe5bfeffffffff00000000int * 0x73eda753299d7d483339d80809a1d80553bda402fffe5bfeffffffff00000000int) % 0x73eda753299d7d483339d80809a1d80553bda402fffe5bfeffffffff00000001int == 1int) by (nonlinear_arith);
    lemma_square_step(two_adic_root(), 0x8000_0000, 0x73eda753299d7d483339d80809a1d80553bda402fffe5bfeffffffff00000000int, 1);
}

} // verus!
