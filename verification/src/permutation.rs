//! The bit-reversal permutation of sequences whose length is a power of two.

use crate::domain::is_pow2;
use vstd::prelude::*;

verus! {

/// The index below `n`, a power of two, whose binary digits are those of
/// `i` in reverse order.
pub open spec fn rev_index(i: int, n: int) -> int
    decreases n,
{
    if n <= 1 {
        0
    } else {
        (i % 2) * (n / 2) + rev_index(i / 2, n / 2)
    }
}

/// The sequence in bit-reversed order: item `i` is the item of `s` at the
/// reversed index.
pub open spec fn bit_reversed<A>(s: Seq<A>) -> Seq<A> {
    Seq::new(s.len(), |i: int| s[rev_index(i, s.len() as int)])
}

pub proof fn lemma_rev_index_range(i: int, n: int)
    requires
        is_pow2(n),
        0 <= i < n,
    ensures
        0 <= rev_index(i, n) < n,
    decreases n,
{
    if n > 1 {
        lemma_rev_index_range(i / 2, n / 2);
        assert((i % 2) * (n / 2) == 0 || (i % 2) * (n / 2) == n / 2) by (nonlinear_arith)
            requires
                0 <= i % 2 < 2,
        ;
    }
}

/// The reversal of an index of two parts: with `p = t * b + j`, the digits
/// of `j` come first and those of `t` last.
pub proof fn lemma_rev_index_split(t: int, j: int, a: int, b: int)
    requires
        is_pow2(a),
        is_pow2(b),
        0 <= t < a,
        0 <= j < b,
    ensures
        rev_index(t * b + j, a * b) == rev_index(j, b) * a + rev_index(t, a),
    decreases b,
{
    if b == 1 {
        assert(t * 1 + 0 == t);
        assert(a * 1 == a);
        assert(0 * a == 0);
    } else {
        let h = b / 2;
        let p = t * b + j;
        assert(b == 2 * h);
        assert(p == 2 * (t * h) + j && a * b == 2 * (a * h)) by (nonlinear_arith)
            requires
                b == 2 * h,
                p == t * b + j,
        ;
        assert(a * h >= 1 && t * h >= 0) by (nonlinear_arith)
            requires
                a >= 1,
                h >= 1,
                t >= 0,
        ;
        assert(p % 2 == j % 2);
        assert(p / 2 == t * h + j / 2);
        assert((a * b) / 2 == a * h);
        lemma_rev_index_split(t, j / 2, a, h);
        assert(((j % 2) * h + rev_index(j / 2, h)) * a == (j % 2) * (a * h) + rev_index(j / 2, h) * a)
            by (nonlinear_arith);
    }
}

/// Reversing twice gives back the index.
pub proof fn lemma_rev_index_involution(i: int, n: int)
    requires
        is_pow2(n),
        0 <= i < n,
    ensures
        rev_index(rev_index(i, n), n) == i,
    decreases n,
{
    if n > 1 {
        let h = n / 2;
        let t = i % 2;
        let j = rev_index(i / 2, h);
        lemma_rev_index_range(i / 2, h);
        lemma_rev_index_involution(i / 2, h);
        assert(is_pow2(2)) by {
            reveal_with_fuel(is_pow2, 3);
        }
        lemma_rev_index_split(t, j, 2, h);
        assert(rev_index(t, 2) == t) by {
            reveal_with_fuel(rev_index, 3);
        }
        assert(2 * h == n);
        assert(rev_index(i, n) == t * h + j);
    }
}

/// The index below `n` whose binary digits are those of `i` reversed.
pub fn reverse_index(i: usize, n: usize) -> (r: usize)
    requires
        is_pow2(n as int),
        i < n,
    ensures
        r == rev_index(i as int, n as int),
        r < n,
    decreases n,
{
    if n <= 1 {
        0
    } else {
        proof {
            lemma_rev_index_range(i as int, n as int);
            lemma_rev_index_range((i / 2) as int, (n / 2) as int);
            assert((i % 2) * (n / 2) == 0 || (i % 2) * (n / 2) == n / 2) by (nonlinear_arith)
                requires
                    0 <= i % 2 < 2,
            ;
        }
        let rest = reverse_index(i / 2, n / 2);
        assert((i % 2) * (n / 2) == if i % 2 == 1 { (n / 2) as int } else { 0int }) by (nonlinear_arith)
            requires
                0 <= i % 2 < 2,
        ;
        if i % 2 == 1 {
            n / 2 + rest
        } else {
            rest
        }
    }
}

/// The items of `v` in bit-reversed order.
pub fn bit_reverse_permute<T: Copy>(v: &Vec<T>) -> (r: Vec<T>)
    requires
        is_pow2(v.len() as int),
    ensures
        r@ == bit_reversed(v@),
{
    let n = v.len();
    let mut out: Vec<T> = Vec::new();
    let mut i: usize = 0;
    while i < n
        invariant
            i <= n,
            n == v.len(),
            is_pow2(n as int),
            out.len() == i,
            forall|k: int| 0 <= k < i ==> out@[k] == v@[rev_index(k, n as int)],
        decreases n - i,
    {
        let j = reverse_index(i, n);
        out.push(v[j]);
        i += 1;
    }
    assert(out@ =~= bit_reversed(v@));
    out
}

} // verus!
