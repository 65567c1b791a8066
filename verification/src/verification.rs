//! The verifier: the check of the proof of one cell against a commitment,
//! and the check of many proofs at once by a random linear combination.

use crate::domain::{
    ifft_spec, inverse_of_two, is_pow2, is_power_of_two, lemma_pow2_double, lemma_pow2_quotient, lemma_pow2_positive, max_domain_size,
    primitive_root, Domain,
};
use crate::errors::{SerializationError, VerifierError};
use crate::evaluation::{scale_by_powers, scaled_by_powers};
use crate::field::{fadd, fmul, fpow, values, Scalar};
use crate::group::{
    encodings, g1_difference, g1_lincomb, g1_lincomb_spec, g1_sum, pairing_check, pairings_agree,
    G1Point, G2Point,
};
use crate::permutation::{bit_reverse_permute, bit_reversed, lemma_rev_index_range, rev_index, reverse_index};
use crate::prover::byte_views;
use crate::serialization::scalars_size;
use crate::transcript::{challenge_spec, compute_challenge};
use crate::validation::{
    decoded_cells, decoded_points, deserialize_cells, deserialize_points, find_out_of_range,
    find_wrong_size, first_bad, no_point_at, no_scalars_at, out_of_range_at, point_error,
    scalar_error, values_of_all, wrong_size_at,
};
use vstd::prelude::*;

verus! {

/// The first `count` powers of `r`.
pub open spec fn powers_of(r: int, count: nat) -> Seq<int> {
    Seq::new(count, |i: int| fpow(r, i as nat))
}

/// The sum of the polynomials, each multiplied by its weight; all have
/// `len` coefficients.
pub open spec fn weighted_polys(polys: Seq<Seq<int>>, weights: Seq<int>, len: nat) -> Seq<int>
    decreases polys.len(),
{
    if polys.len() == 0 {
        Seq::new(len, |j: int| 0int)
    } else {
        let prev = weighted_polys(polys.drop_last(), weights.drop_last(), len);
        Seq::new(len, |j: int| fadd(prev[j], fmul(weights.last(), polys.last()[j])))
    }
}

/// The commitment of each entry of a batch: the one that its row index
/// points to.
pub open spec fn commitments_of_entries(commitments: Seq<Seq<u8>>, rows: Seq<u64>) -> Seq<Seq<u8>> {
    Seq::new(rows.len(), |i: int| commitments[rows[i] as int])
}

/// What the verifier keeps: the points of the setup that commit to a
/// polynomial with as many coefficients as a cell has scalars, the two
/// points of G2 of the pairing check, and the domains.
pub struct VerifierContext {
    /// The number of scalars of a blob.
    pub blob_len: usize,
    /// The number of scalars of a cell.
    pub cell_len: usize,
    /// The first points of the setup in G1, one for each scalar of a cell.
    pub opening_key: Vec<G1Point>,
    /// The generator of G2.
    pub g2_gen: G2Point,
    /// The point of the setup in G2 for the power `cell_len`.
    pub tau_pow_cell: G2Point,
    /// The domain of the extension.
    pub ext_domain: Domain,
    /// The domain with one point for each scalar of a cell.
    pub cell_domain: Domain,
}

impl VerifierContext {
    /// The number of cells of a blob and its extension.
    pub open spec fn num_cells(&self) -> int {
        2 * (self.blob_len as int / self.cell_len as int)
    }

    pub open spec fn wf(&self) -> bool {
        let n = self.blob_len as int;
        let l = self.cell_len as int;
        let k = n / l;
        &&& is_pow2(n)
        &&& is_pow2(l)
        &&& is_pow2(k)
        &&& l <= n
        &&& n == k * l
        &&& 64 * n <= usize::MAX
        &&& 2 * n <= max_domain_size()
        &&& self.opening_key.len() == l
        &&& self.ext_domain.wf()
        &&& self.ext_domain.size_spec() == 2 * n
        &&& self.ext_domain.omega() == primitive_root(2 * n)
        &&& self.cell_domain.wf()
        &&& self.cell_domain.size_spec() == l
        &&& self.cell_domain.omega() == primitive_root(l)
    }

    /// The inverse of the first point of the coset of cell `col`.
    pub open spec fn coset_shift_inv(&self, col: int) -> int {
        fpow(self.ext_domain.omega_inv(), rev_index(col, self.num_cells()) as nat)
    }

    /// The power `cell_len` of the points of the coset of cell `col`, which
    /// is the same for all of them.
    pub open spec fn coset_image(&self, col: int) -> int {
        fpow(self.ext_domain.omega(), (rev_index(col, self.num_cells()) * self.cell_len) as nat)
    }

    /// The coefficients of the polynomial, with as many coefficients as a
    /// cell has scalars, whose values over the coset of cell `col` are the
    /// scalars of the cell: the inverse transform over the domain of a cell,
    /// with coefficient `j` divided by the power `j` of the first point of
    /// the coset.
    pub open spec fn interpolation_spec(&self, cell: Seq<int>, col: int) -> Seq<int> {
        scaled_by_powers(
            ifft_spec(bit_reversed(cell), self.cell_domain.omega_inv(), inverse_of_two()),
            self.coset_shift_inv(col),
        )
    }

    /// The interpolation polynomials of the cells of a batch.
    pub open spec fn interpolations(&self, cells: Seq<Seq<int>>, cols: Seq<u64>) -> Seq<Seq<int>> {
        Seq::new(cols.len(), |i: int| self.interpolation_spec(cells[i], cols[i] as int))
    }

    /// The weights of the proofs on the side of the commitments: the power
    /// of the challenge times the image of the coset.
    pub open spec fn scaled_weights(&self, cols: Seq<u64>, r: int) -> Seq<int> {
        Seq::new(cols.len(), |i: int| fmul(fpow(r, i as nat), self.coset_image(cols[i] as int)))
    }

    /// The equation that a batch of proofs has to meet. With `w` the powers
    /// of the challenge `r`, `C` the commitments, `I` the commitments to the
    /// interpolation polynomials, `P` the proofs and `y` the images of the
    /// cosets: the pairing of `sum w (C - I + y P)` with the generator of G2
    /// equals the pairing of `sum w P` with the point of the setup in G2.
    pub open spec fn batch_equation(
        &self,
        commitments: Seq<Seq<u8>>,
        cols: Seq<u64>,
        cells: Seq<Seq<int>>,
        proofs: Seq<Seq<u8>>,
        r: int,
    ) -> bool {
        let w = powers_of(r, cols.len());
        let agg = weighted_polys(self.interpolations(cells, cols), w, self.cell_len as nat);
        let lhs = g1_sum(
            g1_difference(
                g1_lincomb_spec(commitments, w),
                g1_lincomb_spec(encodings(self.opening_key@), agg),
            ),
            g1_lincomb_spec(proofs, self.scaled_weights(cols, r)),
        );
        let rhs = g1_lincomb_spec(proofs, w);
        pairings_agree(lhs, self.g2_gen@, rhs, self.tau_pow_cell@)
    }

    /// Whether a batch has the right shape: the four lists of entries are
    /// equally long, every byte string has the length of what it stands
    /// for, and every index is in range.
    pub open spec fn batch_shape_ok(
        &self,
        commitments: Seq<Seq<u8>>,
        rows: Seq<u64>,
        cols: Seq<u64>,
        cells: Seq<Seq<u8>>,
        proofs: Seq<Seq<u8>>,
    ) -> bool {
        &&& rows.len() == cols.len()
        &&& rows.len() == cells.len()
        &&& rows.len() == proofs.len()
        &&& forall|j: int| !wrong_size_at(commitments, 48, j)
        &&& forall|j: int| !wrong_size_at(cells, scalars_size(self.cell_len as int), j)
        &&& forall|j: int| !wrong_size_at(proofs, 48, j)
        &&& forall|j: int| !out_of_range_at(rows, commitments.len() as int, j)
        &&& forall|j: int| !out_of_range_at(cols, self.num_cells(), j)
    }

    /// Whether `e` is the error that a batch of the wrong shape is rejected
    /// with. The checks are made in this order, and the first position that
    /// fails a check is named.
    pub open spec fn batch_shape_rejection(
        &self,
        e: VerifierError,
        commitments: Seq<Seq<u8>>,
        rows: Seq<u64>,
        cols: Seq<u64>,
        cells: Seq<Seq<u8>>,
        proofs: Seq<Seq<u8>>,
    ) -> bool {
        if !(rows.len() == cols.len() && rows.len() == cells.len() && rows.len() == proofs.len()) {
            e == (VerifierError::BatchVerificationInputsMustHaveSameLength {
                row_indices_len: rows.len() as usize,
                cell_indices_len: cols.len() as usize,
                cells_len: cells.len() as usize,
                proofs_len: proofs.len() as usize,
            })
        } else if exists|j: int| wrong_size_at(commitments, 48, j) {
            exists|i: int|
                first_bad(i, |j: int| wrong_size_at(commitments, 48, j)) && e
                    is Serialization && point_error(e->Serialization_0, commitments[i])
        } else if exists|j: int| wrong_size_at(cells, scalars_size(self.cell_len as int), j) {
            exists|i: int|
                first_bad(i, |j: int| wrong_size_at(cells, scalars_size(self.cell_len as int), j)) && e
                    == (VerifierError::CellDoesNotContainEnoughBytes {
                    cell_index: cols[i],
                    num_bytes: cells[i].len() as usize,
                    expected_num_bytes: (32 * self.cell_len) as usize,
                })
        } else if exists|j: int| wrong_size_at(proofs, 48, j) {
            exists|i: int|
                first_bad(i, |j: int| wrong_size_at(proofs, 48, j)) && e is Serialization
                    && point_error(e->Serialization_0, proofs[i])
        } else if exists|j: int| out_of_range_at(rows, commitments.len() as int, j) {
            exists|i: int|
                first_bad(i, |j: int| out_of_range_at(rows, commitments.len() as int, j)) && e == (
                VerifierError::InvalidRowIndex {
                    row_index: rows[i],
                    max_number_of_rows: commitments.len() as u64,
                })
        } else if exists|j: int| out_of_range_at(cols, self.num_cells(), j) {
            exists|i: int|
                first_bad(i, |j: int| out_of_range_at(cols, self.num_cells(), j)) && e == (
                VerifierError::CellIndexOutOfRange {
                    cell_index: cols[i],
                    max_number_of_cells: self.num_cells() as u64,
                })
        } else {
            false
        }
    }

    /// Whether every byte string of a batch decodes: the commitments and
    /// the proofs to points, the cells to scalars.
    pub open spec fn batch_decodes(
        &self,
        commitments: Seq<Seq<u8>>,
        cells: Seq<Seq<u8>>,
        proofs: Seq<Seq<u8>>,
    ) -> bool {
        &&& forall|j: int| !no_point_at(commitments, j)
        &&& forall|j: int| !no_point_at(proofs, j)
        &&& forall|j: int| !no_scalars_at(cells, self.cell_len as int, j)
    }

    /// Whether `e` is the error that a batch of the right shape is rejected
    /// with when one of its byte strings does not decode: first the
    /// commitments are read, then the proofs, then the cells.
    pub open spec fn batch_decode_rejection(
        &self,
        e: VerifierError,
        commitments: Seq<Seq<u8>>,
        cells: Seq<Seq<u8>>,
        proofs: Seq<Seq<u8>>,
    ) -> bool {
        e is Serialization && if exists|j: int| no_point_at(commitments, j) {
            exists|i: int|
                first_bad(i, |j: int| no_point_at(commitments, j)) && point_error(
                    e->Serialization_0,
                    commitments[i],
                )
        } else if exists|j: int| no_point_at(proofs, j) {
            exists|i: int|
                first_bad(i, |j: int| no_point_at(proofs, j)) && point_error(
                    e->Serialization_0,
                    proofs[i],
                )
        } else {
            exists|i: int|
                first_bad(i, |j: int| no_scalars_at(cells, self.cell_len as int, j)) && scalar_error(
                    e->Serialization_0,
                    cells[i],
                )
        }
    }

    /// Whether the proofs of a batch that decodes are valid.
    pub open spec fn batch_valid(
        &self,
        commitments: Seq<Seq<u8>>,
        rows: Seq<u64>,
        cols: Seq<u64>,
        cells: Seq<Seq<u8>>,
        proofs: Seq<Seq<u8>>,
    ) -> bool {
        self.batch_equation(
            commitments_of_entries(decoded_points(commitments), rows),
            cols,
            decoded_cells(cells),
            decoded_points(proofs),
            challenge_spec(commitments, rows, cols, cells, proofs),
        )
    }

    /// What batch verification answers: a batch is accepted if it has the
    /// right shape and is empty, or decodes and meets the equation; and else
    /// rejected with the error of the first check that it fails, the last
    /// of which is the equation.
    pub open spec fn batch_outcome(
        &self,
        r: Result<(), VerifierError>,
        commitments: Seq<Seq<u8>>,
        rows: Seq<u64>,
        cols: Seq<u64>,
        cells: Seq<Seq<u8>>,
        proofs: Seq<Seq<u8>>,
    ) -> bool {
        if !self.batch_shape_ok(commitments, rows, cols, cells, proofs) {
            r is Err && self.batch_shape_rejection(r->Err_0, commitments, rows, cols, cells, proofs)
        } else if cols.len() == 0 {
            r is Ok
        } else if !self.batch_decodes(commitments, cells, proofs) {
            r is Err && self.batch_decode_rejection(r->Err_0, commitments, cells, proofs)
        } else if self.batch_valid(commitments, rows, cols, cells, proofs) {
            r is Ok
        } else {
            r is Err && r->Err_0 is InvalidProof
        }
    }

    /// The context for blobs of `blob_len` scalars and cells of `cell_len`
    /// scalars, from the points of the setup in monomial form. Both lengths
    /// are powers of two; the setup has a point of G1 for each scalar of a
    /// cell, and one more in G2.
    pub fn new(
        g1_monomial: &Vec<G1Point>,
        g2_monomial: &Vec<G2Point>,
        blob_len: usize,
        cell_len: usize,
    ) -> (r: Option<VerifierContext>)
        ensures
            r.is_some() <==> is_pow2(blob_len as int) && is_pow2(cell_len as int) && cell_len
                <= blob_len && 2 * blob_len <= max_domain_size() && 64 * blob_len <= usize::MAX
                && g1_monomial.len() >= cell_len && g2_monomial.len() > cell_len,
            r.is_some() ==> r.unwrap().wf() && r.unwrap().blob_len == blob_len && r.unwrap().cell_len
                == cell_len && encodings(r.unwrap().opening_key@) == encodings(g1_monomial@).subrange(
                0,
                cell_len as int,
            ) && r.unwrap().g2_gen == g2_monomial@[0] && r.unwrap().tau_pow_cell
                == g2_monomial@[cell_len as int],
    {
        if blob_len > usize::MAX / 64 || cell_len > blob_len || g1_monomial.len() < cell_len
            || g2_monomial.len() <= cell_len {
            return None;
        }
        if !is_power_of_two(blob_len) {
            return None;
        }
        let ext_domain = match Domain::new(2 * blob_len) {
            Some(d) => d,
            None => {
                proof {
                    lemma_pow2_double(blob_len as int);
                }
                return None;
            },
        };
        let cell_domain = match Domain::new(cell_len) {
            Some(d) => d,
            None => { return None; },
        };
        proof {
            lemma_pow2_quotient(blob_len as int, cell_len as int);
        }
        let mut opening_key: Vec<G1Point> = Vec::new();
        let mut i: usize = 0;
        while i < cell_len
            invariant
                i <= cell_len,
                cell_len <= g1_monomial.len(),
                opening_key.len() == i,
                forall|j: int| 0 <= j < i ==> opening_key@[j] == g1_monomial@[j],
            decreases cell_len - i,
        {
            opening_key.push(g1_monomial[i]);
            i += 1;
        }
        assert(encodings(opening_key@) =~= encodings(g1_monomial@).subrange(0, cell_len as int));
        Some(
            VerifierContext {
                blob_len,
                cell_len,
                opening_key,
                g2_gen: g2_monomial[0],
                tau_pow_cell: g2_monomial[cell_len],
                ext_domain,
                cell_domain,
            },
        )
    }

    /// The first `count` powers of `r`.
    pub fn powers(r: &Scalar, count: usize) -> (w: Vec<Scalar>)
        ensures
            values(w@) == powers_of(r.value(), count as nat),
            w.len() == count,
    {
        let mut out: Vec<Scalar> = Vec::new();
        let mut cur = Scalar::one();
        let mut i: usize = 0;
        while i < count
            invariant
                i <= count,
                out.len() == i,
                cur.value() == fpow(r.value(), i as nat),
                forall|j: int| 0 <= j < i ==> (#[trigger] out@[j]).value() == fpow(r.value(), j as nat),
            decreases count - i,
        {
            out.push(cur);
            cur = r.mul(&cur);
            i += 1;
        }
        assert(values(out@) =~= powers_of(r.value(), count as nat));
        out
    }

    /// The interpolation polynomial of a cell over its coset.
    pub fn interpolate(&self, cell: &Vec<Scalar>, col: u64) -> (r: Vec<Scalar>)
        requires
            self.wf(),
            cell.len() == self.cell_len,
            col < self.num_cells(),
        ensures
            values(r@) == self.interpolation_spec(values(cell@), col as int),
            r.len() == self.cell_len,
    {
        let l = self.cell_len;
        let k = self.blob_len / l;
        proof {
            lemma_pow2_positive(l as int);
            lemma_pow2_positive(k as int);
            lemma_pow2_double(k as int);
            assert(2 * k <= 2 * (k * l)) by (nonlinear_arith)
                requires
                    l >= 1,
                    k >= 1,
            ;
        }
        let natural = bit_reverse_permute(cell);
        proof {
            assert(values(natural@) =~= bit_reversed(values(cell@))) by {
                assert forall|i: int| 0 <= i < natural.len() implies values(natural@)[i]
                    == bit_reversed(values(cell@))[i] by {
                    lemma_rev_index_range(i, cell.len() as int);
                }
            }
        }
        let a = self.cell_domain.ifft_scalars(&natural);
        let shift_inv = self.ext_domain.inverse_root(reverse_index(col as usize, 2 * k));
        scale_by_powers(&a, &shift_inv)
    }

    /// Whether the proofs of a batch are valid: `commitments`, `cells` and
    /// `proofs` hold one item for each entry, and `r` is the challenge.
    pub fn verify_multi_opening(
        &self,
        commitments: &Vec<G1Point>,
        cols: &Vec<u64>,
        cells: &Vec<Vec<Scalar>>,
        proofs: &Vec<G1Point>,
        r: &Scalar,
    ) -> (ok: bool)
        requires
            self.wf(),
            commitments.len() == cols.len(),
            cells.len() == cols.len(),
            proofs.len() == cols.len(),
            forall|i: int| 0 <= i < cols.len() ==> (#[trigger] cols@[i]) < self.num_cells(),
            forall|i: int| 0 <= i < cells.len() ==> (#[trigger] cells@[i]).len() == self.cell_len,
        ensures
            ok == self.batch_equation(
                encodings(commitments@),
                cols@,
                values_of_all(cells@),
                encodings(proofs@),
                r.value(),
            ),
    {
        let m = cols.len();
        let l = self.cell_len;
        let k = self.blob_len / l;
        let ghost rv = r.value();
        let ghost vcells = values_of_all(cells@);
        let ghost polys = self.interpolations(vcells, cols@);
        let w = Self::powers(r, m);
        let ghost wv = values(w@);
        proof {
            lemma_pow2_positive(l as int);
            lemma_pow2_positive(k as int);
            lemma_pow2_double(k as int);
        }
        // The aggregated interpolation polynomial
        let mut agg: Vec<Scalar> = Vec::new();
        let mut j: usize = 0;
        while j < l
            invariant
                j <= l,
                agg.len() == j,
                forall|i: int| 0 <= i < j ==> (#[trigger] agg@[i]).value() == 0,
            decreases l - j,
        {
            agg.push(Scalar::zero());
            j += 1;
        }
        assert(values(agg@) =~= weighted_polys(polys.subrange(0, 0), wv.subrange(0, 0), l as nat));
        let mut scaled: Vec<Scalar> = Vec::new();
        let mut i: usize = 0;
        while i < m
            invariant
                i <= m,
                m == cols.len(),
                self.wf(),
                l == self.cell_len,
                l >= 1,
                k == self.blob_len / l,
                k >= 1,
                is_pow2(2 * k),
                cells.len() == m,
                w.len() == m,
                wv == values(w@),
                wv == powers_of(rv, m as nat),
                vcells == values_of_all(cells@),
                polys == self.interpolations(vcells, cols@),
                forall|i: int| 0 <= i < cols.len() ==> (#[trigger] cols@[i]) < self.num_cells(),
                forall|i: int| 0 <= i < cells.len() ==> (#[trigger] cells@[i]).len() == self.cell_len,
                agg.len() == l,
                values(agg@) == weighted_polys(
                    polys.subrange(0, i as int),
                    wv.subrange(0, i as int),
                    l as nat,
                ),
                scaled.len() == i,
                forall|j: int|
                    0 <= j < i ==> (#[trigger] scaled@[j]).value() == fmul(
                        fpow(rv, j as nat),
                        self.coset_image(cols@[j] as int),
                    ),
            decreases m - i,
        {
            let poly = self.interpolate(&cells[i], cols[i]);
            let ghost before = values(agg@);
            let mut j: usize = 0;
            while j < l
                invariant
                    j <= l,
                    i < m,
                    w.len() == m,
                    poly.len() == l,
                    agg.len() == l,
                    before.len() == l,
                    forall|t: int|
                        0 <= t < j ==> (#[trigger] agg@[t]).value() == fadd(
                            before[t],
                            fmul(w@[i as int].value(), poly@[t].value()),
                        ),
                    forall|t: int| j <= t < l ==> (#[trigger] agg@[t]).value() == before[t],
                decreases l - j,
            {
                let term = w[i].mul(&poly[j]);
                let sum = agg[j].add(&term);
                agg.set(j, sum);
                j += 1;
            }
            proof {
                let p1 = polys.subrange(0, i + 1);
                let w1 = wv.subrange(0, i + 1);
                assert(p1.drop_last() =~= polys.subrange(0, i as int));
                assert(w1.drop_last() =~= wv.subrange(0, i as int));
                assert(p1.last() == self.interpolation_spec(vcells[i as int], cols@[i as int] as int));
                assert(vcells[i as int] == values(cells@[i as int]@));
                assert(w1.last() == w@[i as int].value());
                assert forall|t: int| 0 <= t < l implies values(agg@)[t] == weighted_polys(
                    p1,
                    w1,
                    l as nat,
                )[t] by {
                    assert(values(poly@)[t] == poly@[t].value());
                }
                assert(values(agg@) =~= weighted_polys(p1, w1, l as nat));
            }
            // The weight of the proof on the side of the commitments
            let rev = reverse_index(cols[i] as usize, 2 * k);
            proof {
                assert(rev * l < 2 * (k * l)) by (nonlinear_arith)
                    requires
                        0 <= rev < 2 * k,
                        l >= 1,
                ;
                assert(wv[i as int] == fpow(rv, i as nat));
            }
            let y = self.ext_domain.root(rev * l);
            scaled.push(w[i].mul(&y));
            i += 1;
        }
        proof {
            assert(polys.subrange(0, m as int) =~= polys);
            assert(wv.subrange(0, m as int) =~= wv);
            assert(values(scaled@) =~= self.scaled_weights(cols@, rv));
        }
        let commitment_sum = g1_lincomb(commitments, &w);
        let interpolation_commitment = g1_lincomb(&self.opening_key, &agg);
        let proof_sum_scaled = g1_lincomb(proofs, &scaled);
        let rhs = g1_lincomb(proofs, &w);
        let lhs = commitment_sum.sub(&interpolation_commitment).add(&proof_sum_scaled);
        pairing_check(&lhs, &self.g2_gen, &rhs, &self.tau_pow_cell)
    }

    /// Checks the shape of a batch.
    pub fn validate_batch(
        &self,
        commitments: &Vec<Vec<u8>>,
        rows: &Vec<u64>,
        cols: &Vec<u64>,
        cells: &Vec<Vec<u8>>,
        proofs: &Vec<Vec<u8>>,
    ) -> (r: Result<(), VerifierError>)
        requires
            self.wf(),
        ensures
            match r {
                Ok(()) => self.batch_shape_ok(
                    byte_views(commitments@),
                    rows@,
                    cols@,
                    byte_views(cells@),
                    byte_views(proofs@),
                ),
                Err(e) => !self.batch_shape_ok(
                    byte_views(commitments@),
                    rows@,
                    cols@,
                    byte_views(cells@),
                    byte_views(proofs@),
                ) && self.batch_shape_rejection(
                    e,
                    byte_views(commitments@),
                    rows@,
                    cols@,
                    byte_views(cells@),
                    byte_views(proofs@),
                ),
            },
    {
        let ghost cm = byte_views(commitments@);
        let ghost ce = byte_views(cells@);
        let ghost pr = byte_views(proofs@);
        assert(cm.len() == commitments.len() && ce.len() == cells.len() && pr.len() == proofs.len());
        // All inputs must have the same length
        if !(rows.len() == cols.len() && rows.len() == cells.len() && rows.len() == proofs.len()) {
            return Err(
                VerifierError::BatchVerificationInputsMustHaveSameLength {
                    row_indices_len: rows.len(),
                    cell_indices_len: cols.len(),
                    cells_len: cells.len(),
                    proofs_len: proofs.len(),
                },
            );
        }
        // Every byte string must have the length of what it stands for
        match find_wrong_size(commitments, 48) {
            Some(i) => {
                assert(wrong_size_at(cm, 48, i as int));
                let e = SerializationError::G1PointHasInvalidLength {
                    bytes: commitments[i].clone(),
                    length: commitments[i].len(),
                };
                assert(point_error(e, cm[i as int]));
                return Err(VerifierError::Serialization(e));
            },
            None => {},
        }
        let cell_bytes = 32 * self.cell_len;
        assert(cell_bytes == scalars_size(self.cell_len as int));
        match find_wrong_size(cells, cell_bytes) {
            Some(i) => {
                assert(wrong_size_at(ce, scalars_size(self.cell_len as int), i as int));
                return Err(
                    VerifierError::CellDoesNotContainEnoughBytes {
                        cell_index: cols[i],
                        num_bytes: cells[i].len(),
                        expected_num_bytes: cell_bytes,
                    },
                );
            },
            None => {},
        }
        match find_wrong_size(proofs, 48) {
            Some(i) => {
                assert(wrong_size_at(pr, 48, i as int));
                let e = SerializationError::G1PointHasInvalidLength {
                    bytes: proofs[i].clone(),
                    length: proofs[i].len(),
                };
                assert(point_error(e, pr[i as int]));
                return Err(VerifierError::Serialization(e));
            },
            None => {},
        }
        // The row indices must point to a commitment
        match find_out_of_range(rows, commitments.len() as u64) {
            Some(i) => {
                assert(out_of_range_at(rows@, cm.len() as int, i as int));
                assert(first_bad(i as int, |j: int| out_of_range_at(rows@, cm.len() as int, j)));
                return Err(
                    VerifierError::InvalidRowIndex {
                        row_index: rows[i],
                        max_number_of_rows: commitments.len() as u64,
                    },
                );
            },
            None => {},
        }
        // The cell indices must be below the number of cells
        let num_cells = 2 * (self.blob_len / self.cell_len);
        match find_out_of_range(cols, num_cells as u64) {
            Some(i) => {
                assert(out_of_range_at(cols@, self.num_cells(), i as int));
                return Err(
                    VerifierError::CellIndexOutOfRange {
                        cell_index: cols[i],
                        max_number_of_cells: num_cells as u64,
                    },
                );
            },
            None => {},
        }
        Ok(())
    }

    /// Verifies the proofs of many cells at once. Entry `i` of the batch is
    /// the cell `cells[i]` with index `cell_indices[i]`, its proof
    /// `proofs_bytes[i]`, and the commitment that `row_indices[i]` points
    /// to.
    ///
    /// The answer is `Ok` if every proof is valid, the error `InvalidProof`
    /// if the batch is well formed and the check fails, and another error if
    /// the batch is not well formed.
    pub fn verify_cell_kzg_proof_batch(
        &self,
        row_commitments_bytes: Vec<Vec<u8>>,
        row_indices: Vec<u64>,
        cell_indices: Vec<u64>,
        cells: Vec<Vec<u8>>,
        proofs_bytes: Vec<Vec<u8>>,
    ) -> (r: Result<(), VerifierError>)
        requires
            self.wf(),
        ensures
            self.batch_outcome(
                r,
                byte_views(row_commitments_bytes@),
                row_indices@,
                cell_indices@,
                byte_views(cells@),
                byte_views(proofs_bytes@),
            ),
    {
        let ghost cm = byte_views(row_commitments_bytes@);
        let ghost ce = byte_views(cells@);
        let ghost pr = byte_views(proofs_bytes@);
        // Validation
        match self.validate_batch(&row_commitments_bytes, &row_indices, &cell_indices, &cells, &proofs_bytes) {
            Ok(()) => {},
            Err(e) => { return Err(e); },
        }
        // If there are no inputs, we return early with no error
        if cells.len() == 0 {
            return Ok(());
        }
        // Deserialization
        let commitments = match deserialize_points(&row_commitments_bytes) {
            Ok(v) => v,
            Err(e) => { return Err(VerifierError::Serialization(e)); },
        };
        let proofs = match deserialize_points(&proofs_bytes) {
            Ok(v) => v,
            Err(e) => { return Err(VerifierError::Serialization(e)); },
        };
        let coset_evals = match deserialize_cells(&cells, self.cell_len) {
            Ok(v) => v,
            Err(e) => { return Err(VerifierError::Serialization(e)); },
        };
        // Computation
        let m = cell_indices.len();
        let mut entry_commitments: Vec<G1Point> = Vec::new();
        let mut i: usize = 0;
        while i < m
            invariant
                i <= m,
                m == row_indices.len(),
                commitments.len() == row_commitments_bytes.len(),
                forall|j: int| !out_of_range_at(row_indices@, row_commitments_bytes.len() as int, j),
                entry_commitments.len() == i,
                forall|j: int|
                    0 <= j < i ==> entry_commitments@[j] == commitments@[row_indices@[j] as int],
            decreases m - i,
        {
            assert(!out_of_range_at(row_indices@, row_commitments_bytes.len() as int, i as int));
            entry_commitments.push(commitments[row_indices[i] as usize]);
            i += 1;
        }
        proof {
            assert(encodings(entry_commitments@) =~= commitments_of_entries(
                decoded_points(cm),
                row_indices@,
            )) by {
                assert forall|j: int| 0 <= j < m implies encodings(entry_commitments@)[j]
                    == commitments_of_entries(decoded_points(cm), row_indices@)[j] by {
                    assert(!out_of_range_at(row_indices@, row_commitments_bytes.len() as int, j));
                    assert(encodings(commitments@)[row_indices@[j] as int]
                        == commitments@[row_indices@[j] as int]@);
                }
            }
            assert forall|j: int| 0 <= j < cell_indices.len() implies (#[trigger] cell_indices@[j])
                < self.num_cells() by {
                assert(!out_of_range_at(cell_indices@, self.num_cells(), j));
            }
            assert forall|j: int| 0 <= j < row_indices.len() implies (#[trigger] row_indices@[j])
                < row_commitments_bytes.len() by {
                assert(!out_of_range_at(row_indices@, row_commitments_bytes.len() as int, j));
            }
        }
        let challenge = compute_challenge(
            &row_commitments_bytes,
            &row_indices,
            &cell_indices,
            &cells,
            &proofs_bytes,
        );
        let ok = self.verify_multi_opening(
            &entry_commitments,
            &cell_indices,
            &coset_evals,
            &proofs,
            &challenge,
        );
        if ok {
            Ok(())
        } else {
            Err(VerifierError::InvalidProof)
        }
    }

    /// Verifies the proof of one cell against a commitment: a batch of one
    /// entry.
    pub fn verify_cell_kzg_proof(
        &self,
        commitment_bytes: &[u8],
        cell_index: u64,
        cell: &[u8],
        proof_bytes: &[u8],
    ) -> (r: Result<(), VerifierError>)
        requires
            self.wf(),
        ensures
            self.batch_outcome(
                r,
                seq![commitment_bytes@],
                seq![0u64],
                seq![cell_index],
                seq![cell@],
                seq![proof_bytes@],
            ),
    {
        let mut commitments: Vec<Vec<u8>> = Vec::new();
        commitments.push(crate::group::copy_bytes(commitment_bytes));
        let mut rows: Vec<u64> = Vec::new();
        rows.push(0);
        let mut cols: Vec<u64> = Vec::new();
        cols.push(cell_index);
        let mut cells: Vec<Vec<u8>> = Vec::new();
        cells.push(crate::group::copy_bytes(cell));
        let mut proofs: Vec<Vec<u8>> = Vec::new();
        proofs.push(crate::group::copy_bytes(proof_bytes));
        proof {
            assert(byte_views(commitments@) =~= seq![commitment_bytes@]);
            assert(byte_views(cells@) =~= seq![cell@]);
            assert(byte_views(proofs@) =~= seq![proof_bytes@]);
            assert(rows@ =~= seq![0u64]);
            assert(cols@ =~= seq![cell_index]);
        }
        self.verify_cell_kzg_proof_batch(commitments, rows, cols, cells, proofs)
    }
}

} // verus!
