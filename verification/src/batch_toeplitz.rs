//! Many products of a Toeplitz matrix with a vector of points, summed, where
//! the vectors are known ahead of time: their transforms are computed once,
//! and each sum of products costs one inverse transform.

use crate::domain::{
    dft_spec, g1_fft_spec, g1_padded, g1_scale_all, is_pow2, lemma_pow2_double, max_domain_size,
    Domain,
};
use crate::field::{values, Scalar};
use crate::group::{encodings, g1_lincomb, g1_lincomb_spec, G1Point};
use crate::toeplitz::{circulant_embedding, CirculantMatrix, ToeplitzMatrix};
use vstd::prelude::*;

verus! {

/// The encodings of a sequence of vectors of points.
pub open spec fn encodings_of_all(vectors: Seq<Vec<G1Point>>) -> Seq<Seq<Seq<u8>>> {
    Seq::new(vectors.len(), |b: int| encodings(vectors[b]@))
}

/// Item `i` of each vector of a sequence of vectors.
pub open spec fn slot<A>(vectors: Seq<Seq<A>>, i: int) -> Seq<A> {
    Seq::new(vectors.len(), |b: int| vectors[b][i])
}

/// The transform, over a domain of twice their length with root `omega`, of
/// each of the vectors continued with the neutral element.
pub open spec fn transformed_vectors(vectors: Seq<Seq<Seq<u8>>>, size: nat, omega: int) -> Seq<
    Seq<Seq<u8>>,
> {
    Seq::new(vectors.len(), |b: int| g1_fft_spec(g1_padded(vectors[b], size), omega))
}

/// The evaluations, over the domain of twice their size, of the first
/// columns of the circulant matrices that embed the Toeplitz matrices.
pub open spec fn transformed_matrices(rows: Seq<Seq<int>>, cols: Seq<Seq<int>>, size: nat, omega: int) -> Seq<
    Seq<int>,
> {
    Seq::new(rows.len(), |b: int| dft_spec(circulant_embedding(rows[b], cols[b]), omega, size))
}

/// The first rows of a sequence of Toeplitz matrices.
pub open spec fn rows_of(matrices: Seq<ToeplitzMatrix>) -> Seq<Seq<int>> {
    Seq::new(matrices.len(), |b: int| values(matrices[b].row@))
}

/// The first columns of a sequence of Toeplitz matrices.
pub open spec fn cols_of(matrices: Seq<ToeplitzMatrix>) -> Seq<Seq<int>> {
    Seq::new(matrices.len(), |b: int| values(matrices[b].col@))
}

/// The sum of the products in the frequency domain: for each point of the
/// domain, the linear combination of what the transformed vectors hold there
/// with what the transformed matrices hold there.
pub open spec fn frequency_sums(fft_vectors: Seq<Seq<Seq<u8>>>, fft_matrices: Seq<Seq<int>>, size: nat) -> Seq<
    Seq<u8>,
> {
    Seq::new(size, |i: int| g1_lincomb_spec(slot(fft_vectors, i), slot(fft_matrices, i)))
}

/// Optimizes for the case where many matrix-vector products are summed and
/// the vectors are known ahead of time, so that their transforms can be
/// computed once.
pub struct BatchToeplitzMatrixVecMul {
    /// The vectors in the frequency domain.
    fft_vectors: Vec<Vec<G1Point>>,
    /// The length of the vectors, and of the result.
    n: usize,
    /// The domain of the circulant products, twice as large as the vectors
    /// are long.
    circulant_domain: Domain,
}

impl BatchToeplitzMatrixVecMul {
    /// The length of the vectors.
    pub closed spec fn order(&self) -> int {
        self.n as int
    }

    /// The number of vectors.
    pub closed spec fn count(&self) -> int {
        self.fft_vectors.len() as int
    }

    /// The transforms of the vectors.
    pub closed spec fn vectors(&self) -> Seq<Seq<Seq<u8>>> {
        encodings_of_all(self.fft_vectors@)
    }

    /// The root of unity of the domain of the circulant products.
    pub closed spec fn omega(&self) -> int {
        self.circulant_domain.omega()
    }

    /// The inverse of that root.
    pub closed spec fn omega_inv(&self) -> int {
        self.circulant_domain.omega_inv()
    }

    /// The inverse of the size of that domain.
    pub closed spec fn size_inv(&self) -> int {
        self.circulant_domain.size_inv()
    }

    pub closed spec fn wf(&self) -> bool {
        &&& self.circulant_domain.wf()
        &&& self.circulant_domain.size_spec() == 2 * self.n
        &&& self.fft_vectors.len() > 0
        &&& forall|b: int|
            0 <= b < self.fft_vectors.len() ==> (#[trigger] self.fft_vectors@[b]).len() == 2 * self.n
    }

    /// What the inverse transform of a well-formed multiplier is made of:
    /// the inverses of the root and of the size of its domain.
    pub proof fn lemma_wf_facts(&self)
        requires
            self.wf(),
        ensures
            self.omega_inv() == crate::field::finv(self.omega()),
            self.size_inv() == crate::field::finv(2 * self.order()),
    {
        self.circulant_domain.lemma_wf_facts();
    }

    /// The sum over all pairs of the product of a matrix with its vector:
    /// the inverse transform of the sums in the frequency domain, of which
    /// the first half is the result.
    pub open spec fn sum_spec(&self, rows: Seq<Seq<int>>, cols: Seq<Seq<int>>) -> Seq<Seq<u8>> {
        g1_scale_all(
            g1_fft_spec(
                frequency_sums(
                    self.vectors(),
                    transformed_matrices(rows, cols, (2 * self.order()) as nat, self.omega()),
                    (2 * self.order()) as nat,
                ),
                self.omega_inv(),
            ),
            self.size_inv(),
        ).subrange(0, self.order())
    }

    /// Takes the vectors, which all have the same length, a power of two,
    /// and computes their transforms.
    pub fn new(vectors: Vec<Vec<G1Point>>) -> (r: BatchToeplitzMatrixVecMul)
        requires
            vectors.len() > 0,
            forall|b: int| 0 <= b < vectors.len() ==> (#[trigger] vectors@[b]).len() == vectors@[0].len(),
            is_pow2(vectors@[0].len() as int),
            2 * vectors@[0].len() <= max_domain_size(),
            2 * vectors@[0].len() <= usize::MAX,
        ensures
            r.wf(),
            r.order() == vectors@[0].len(),
            r.count() == vectors.len(),
            r.omega() == crate::domain::primitive_root(2 * vectors@[0].len()),
            r.vectors() == transformed_vectors(
                encodings_of_all(vectors@),
                (2 * vectors@[0].len()) as nat,
                r.omega(),
            ),
    {
        let n = vectors[0].len();
        proof {
            lemma_pow2_double(n as int);
        }
        let circulant_domain = Domain::new(n * 2).unwrap();
        // Precompute the transforms of the vectors
        let mut fft_vectors: Vec<Vec<G1Point>> = Vec::new();
        let mut b: usize = 0;
        while b < vectors.len()
            invariant
                b <= vectors.len(),
                circulant_domain.wf(),
                circulant_domain.size_spec() == 2 * n,
                forall|k: int| 0 <= k < vectors.len() ==> (#[trigger] vectors@[k]).len() == n,
                fft_vectors.len() == b,
                forall|k: int| 0 <= k < b ==> (#[trigger] fft_vectors@[k]).len() == 2 * n,
                forall|k: int|
                    0 <= k < b ==> encodings((#[trigger] fft_vectors@[k])@) == g1_fft_spec(
                        g1_padded(encodings(vectors@[k]@), (2 * n) as nat),
                        circulant_domain.omega(),
                    ),
            decreases vectors.len() - b,
        {
            let t = circulant_domain.fft_g1(&vectors[b]);
            fft_vectors.push(t);
            b += 1;
        }
        let r = BatchToeplitzMatrixVecMul { n, fft_vectors, circulant_domain };
        proof {
            let spec = transformed_vectors(encodings_of_all(vectors@), (2 * n) as nat, r.omega());
            assert forall|k: int| 0 <= k < vectors.len() implies r.vectors()[k] == spec[k] by {
                assert(encodings_of_all(vectors@)[k] == encodings(vectors@[k]@));
            }
            assert(r.vectors() =~= spec);
        }
        r
    }

    /// Computes the aggregated sum of many Toeplitz matrix-vector
    /// multiplications, one matrix for each of the vectors.
    ///
    /// This is faster than computing each product and summing the results,
    /// since only one inverse transform is done.
    pub fn sum_matrix_vector_mul(&self, matrices: Vec<ToeplitzMatrix>) -> (r: Vec<G1Point>)
        requires
            self.wf(),
            matrices.len() == self.count(),
            forall|b: int|
                0 <= b < matrices.len() ==> (#[trigger] matrices@[b]).wf() && matrices@[b].order()
                    == self.order(),
        ensures
            r.len() == self.order(),
            encodings(r@) == self.sum_spec(rows_of(matrices@), cols_of(matrices@)),
    {
        let size = self.circulant_domain.size();
        let count = matrices.len();
        let ghost fm = transformed_matrices(rows_of(matrices@), cols_of(matrices@), size as nat, self.omega());
        // Embed the Toeplitz matrices into circulant matrices, and bring
        // their first columns into the frequency domain.
        let mut col_ffts: Vec<Vec<Scalar>> = Vec::new();
        let mut b: usize = 0;
        while b < count
            invariant
                b <= count,
                count == matrices.len(),
                self.wf(),
                size == 2 * self.n,
                forall|k: int|
                    0 <= k < matrices.len() ==> (#[trigger] matrices@[k]).wf() && matrices@[k].order()
                        == self.order(),
                col_ffts.len() == b,
                fm == transformed_matrices(rows_of(matrices@), cols_of(matrices@), size as nat, self.omega()),
                forall|k: int| 0 <= k < b ==> (#[trigger] col_ffts@[k]).len() == size,
                forall|k: int| 0 <= k < b ==> values((#[trigger] col_ffts@[k])@) == fm[k],
            decreases count - b,
        {
            let tm = ToeplitzMatrix { row: matrices[b].row.clone(), col: matrices[b].col.clone() };
            assert(tm.row@ =~= matrices@[b as int].row@ && tm.col@ =~= matrices@[b as int].col@) by {
                assert(tm.row@.len() == matrices@[b as int].row@.len());
                assert(tm.col@.len() == matrices@[b as int].col@.len());
                assert forall|k: int| 0 <= k < tm.row@.len() implies tm.row@[k] == matrices@[b as int].row@[k] by {
                    assert(vstd::pervasive::cloned(matrices@[b as int].row@[k], tm.row@[k]));
                }
                assert forall|k: int| 0 <= k < tm.col@.len() implies tm.col@[k] == matrices@[b as int].col@[k] by {
                    assert(vstd::pervasive::cloned(matrices@[b as int].col@[k], tm.col@[k]));
                }
            }
            let cm = CirculantMatrix::from_toeplitz(tm);
            let t = self.circulant_domain.fft_scalars(&cm.row);
            col_ffts.push(t);
            b += 1;
        }
        // The aggregation step: one linear combination for each point of
        // the domain.
        let mut sums: Vec<G1Point> = Vec::new();
        let mut i: usize = 0;
        while i < size
            invariant
                i <= size,
                self.wf(),
                size == 2 * self.n,
                count == matrices.len(),
                count == self.fft_vectors.len(),
                col_ffts.len() == count,
                fm.len() == count,
                forall|k: int| 0 <= k < count ==> (#[trigger] col_ffts@[k]).len() == size,
                forall|k: int| 0 <= k < count ==> values((#[trigger] col_ffts@[k])@) == fm[k],
                sums.len() == i,
                forall|k: int|
                    0 <= k < i ==> (#[trigger] sums@[k])@ == g1_lincomb_spec(
                        slot(self.vectors(), k),
                        slot(fm, k),
                    ),
            decreases size - i,
        {
            let mut points: Vec<G1Point> = Vec::new();
            let mut scalars: Vec<Scalar> = Vec::new();
            let mut b: usize = 0;
            while b < count
                invariant
                    b <= count,
                    i < size,
                    self.wf(),
                    size == 2 * self.n,
                    count == self.fft_vectors.len(),
                    col_ffts.len() == count,
                    forall|k: int| 0 <= k < count ==> (#[trigger] col_ffts@[k]).len() == size,
                    points.len() == b,
                    scalars.len() == b,
                    forall|k: int| 0 <= k < b ==> points@[k] == self.fft_vectors@[k]@[i as int],
                    forall|k: int| 0 <= k < b ==> scalars@[k] == col_ffts@[k]@[i as int],
                decreases count - b,
            {
                points.push(self.fft_vectors[b][i]);
                scalars.push(col_ffts[b][i]);
                b += 1;
            }
            proof {
                assert(encodings(points@) =~= slot(self.vectors(), i as int)) by {
                    assert forall|k: int| 0 <= k < count implies encodings(points@)[k] == slot(
                        self.vectors(),
                        i as int,
                    )[k] by {
                        assert(self.vectors()[k] == encodings(self.fft_vectors@[k]@));
                    }
                }
                assert(values(scalars@) =~= slot(fm, i as int)) by {
                    assert forall|k: int| 0 <= k < count implies values(scalars@)[k] == slot(fm, i as int)[k] by {
                        assert(values(col_ffts@[k]@)[i as int] == col_ffts@[k]@[i as int].value());
                    }
                }
            }
            sums.push(g1_lincomb(&points, &scalars));
            i += 1;
        }
        assert(encodings(sums@) =~= frequency_sums(self.vectors(), fm, size as nat));
        let circulant_sum = self.circulant_domain.ifft_g1(&sums);
        // The first half of the circulant product is the result of the
        // Toeplitz products.
        let mut out: Vec<G1Point> = Vec::new();
        let mut i: usize = 0;
        while i < self.n
            invariant
                i <= self.n,
                circulant_sum.len() == 2 * self.n,
                out.len() == i,
                forall|k: int| 0 <= k < i ==> out@[k] == circulant_sum@[k],
            decreases self.n - i,
        {
            out.push(circulant_sum[i]);
            i += 1;
        }
        assert(encodings(out@) =~= self.sum_spec(rows_of(matrices@), cols_of(matrices@)));
        out
    }
}

} // verus!
