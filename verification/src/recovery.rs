//! Erasure recovery: from at least half of the cells of an extended blob,
//! the polynomial of the blob, and from it all cells and all proofs.
//!
//! The cells that are missing are the zeros of a polynomial that is cheap to
//! write down. The known values times the values of that polynomial are the
//! values of a product that is known everywhere; dividing the product by the
//! polynomial, over a coset on which it has no zero, gives the polynomial of
//! the blob. What comes out is checked against the cells that came in.

use crate::domain::{dft_spec, ifft_spec, inverse_of_two, lemma_pow2_double, lemma_pow2_positive};
use crate::errors::{ProverError, RSError, VerifierError};
use crate::evaluation::{scale_by_powers, scaled_by_powers};
use crate::field::{finv, fmul, fpow, values, Scalar};
use crate::permutation::{bit_reverse_permute, bit_reversed, lemma_rev_index_range, rev_index, reverse_index};
use crate::polynomial::{vanishing_poly, vanishing_poly_spec};
use crate::prover::{byte_views, compressed_all, views48, ProverContext};
use crate::serialization::scalars_size;
use crate::validation::{
    all_distinct, are_cell_indices_unique, decoded_cells, deserialize_cells, find_out_of_range,
    find_wrong_size, first_bad, no_scalars_at, out_of_range_at, scalar_error, values_of_all,
    wrong_size_at,
};
use vstd::prelude::*;

verus! {

/// The generator of the coset on which the division is done.
pub open spec fn coset_generator() -> int {
    7
}

/// The last position at which `t` occurs among the indices, or -1.
pub open spec fn last_index_of(indices: Seq<u64>, t: int) -> int
    decreases indices.len(),
{
    if indices.len() == 0 {
        -1
    } else if indices.last() == t {
        indices.len() - 1
    } else {
        last_index_of(indices.drop_last(), t)
    }
}

/// The scalars of the extended blob in the order of the cells, with zero in
/// every cell that is missing.
pub open spec fn known_values(indices: Seq<u64>, cells: Seq<Seq<int>>, l: int, total: nat) -> Seq<int> {
    Seq::new(
        total,
        |p: int|
            {
                let idx = last_index_of(indices, p / l);
                if idx >= 0 {
                    cells[idx][p % l]
                } else {
                    0int
                }
            },
    )
}

/// For each of the first `upto` cells that is missing, in order, the power
/// `cell_len` of the points of its coset: a power of the root `w` of the
/// domain with one point for each cell.
pub open spec fn missing_roots(indices: Seq<u64>, w: int, count: int, upto: nat) -> Seq<int>
    decreases upto,
{
    if upto == 0 {
        Seq::empty()
    } else {
        let rest = missing_roots(indices, w, count, (upto - 1) as nat);
        if last_index_of(indices, upto - 1) >= 0 {
            rest
        } else {
            rest.push(fpow(w, rev_index(upto - 1, count) as nat))
        }
    }
}

/// The polynomial `short` in the power `l` of the variable, as a polynomial
/// with `total` coefficients.
pub open spec fn spread(short: Seq<int>, l: int, total: nat) -> Seq<int> {
    Seq::new(
        total,
        |i: int|
            if i % l == 0 && i / l < short.len() {
                short[i / l]
            } else {
                0int
            },
    )
}

/// The products of the items at the same position.
pub open spec fn pointwise_product(a: Seq<int>, b: Seq<int>) -> Seq<int> {
    Seq::new(a.len(), |i: int| fmul(a[i], b[i]))
}

/// The quotients of the items at the same position.
pub open spec fn pointwise_quotient(a: Seq<int>, b: Seq<int>) -> Seq<int> {
    Seq::new(a.len(), |i: int| fmul(a[i], finv(b[i])))
}

/// Whether the item at position `i` is zero.
pub open spec fn zero_at(v: Seq<int>, i: int) -> bool {
    0 <= i < v.len() && v[i] == 0
}

/// The number of coefficients up to the last that is not zero.
pub open spec fn effective_len(q: Seq<int>) -> nat
    decreases q.len(),
{
    if q.len() == 0 {
        0
    } else if q.last() != 0 {
        q.len()
    } else {
        effective_len(q.drop_last())
    }
}

/// Whether the extension `ext` holds, in cell `indices[idx]` at position
/// `j`, the scalar that was supplied there.
pub open spec fn agrees_at(ext: Seq<int>, l: int, indices: Seq<u64>, cells: Seq<Seq<int>>, idx: int, j: int) -> bool {
    ext[indices[idx] * l + j] == cells[idx][j]
}

/// Whether the extension holds every scalar that was supplied.
pub open spec fn agrees(ext: Seq<int>, l: int, indices: Seq<u64>, cells: Seq<Seq<int>>) -> bool {
    forall|idx: int, j: int|
        0 <= idx < indices.len() && 0 <= j < l ==> #[trigger] agrees_at(ext, l, indices, cells, idx, j)
}

/// The products of the items at the same position.
pub fn multiply_pointwise(a: &Vec<Scalar>, b: &Vec<Scalar>) -> (r: Vec<Scalar>)
    requires
        a.len() == b.len(),
    ensures
        values(r@) == pointwise_product(values(a@), values(b@)),
        r.len() == a.len(),
{
    let mut out: Vec<Scalar> = Vec::new();
    let mut i: usize = 0;
    while i < a.len()
        invariant
            i <= a.len(),
            a.len() == b.len(),
            out.len() == i,
            forall|j: int| 0 <= j < i ==> (#[trigger] out@[j]).value() == fmul(a@[j].value(), b@[j].value()),
        decreases a.len() - i,
    {
        out.push(a[i].mul(&b[i]));
        i += 1;
    }
    assert(values(out@) =~= pointwise_product(values(a@), values(b@)));
    out
}

/// The quotients of the items at the same position, unless a divisor is
/// zero.
pub fn divide_pointwise(a: &Vec<Scalar>, b: &Vec<Scalar>) -> (r: Option<Vec<Scalar>>)
    requires
        a.len() == b.len(),
    ensures
        r.is_none() <==> exists|i: int| zero_at(values(b@), i),
        r.is_some() ==> values(r.unwrap()@) == pointwise_quotient(values(a@), values(b@))
            && r.unwrap().len() == a.len(),
{
    let mut out: Vec<Scalar> = Vec::new();
    let mut i: usize = 0;
    while i < a.len()
        invariant
            i <= a.len(),
            a.len() == b.len(),
            out.len() == i,
            forall|j: int| 0 <= j < i ==> !zero_at(values(b@), j),
            forall|j: int|
                0 <= j < i ==> (#[trigger] out@[j]).value() == fmul(a@[j].value(), finv(b@[j].value())),
        decreases a.len() - i,
    {
        match b[i].invert() {
            Some(inv) => {
                out.push(a[i].mul(&inv));
            },
            None => {
                assert(zero_at(values(b@), i as int));
                return None;
            },
        }
        i += 1;
    }
    assert(values(out@) =~= pointwise_quotient(values(a@), values(b@)));
    Some(out)
}

/// The number of items up to the last that is not zero.
pub fn effective_length(q: &Vec<Scalar>) -> (r: usize)
    ensures
        r == effective_len(values(q@)),
        r <= q.len(),
{
    let mut n: usize = q.len();
    assert(values(q@).subrange(0, n as int) =~= values(q@));
    while n > 0
        invariant
            n <= q.len(),
            effective_len(values(q@)) == effective_len(values(q@).subrange(0, n as int)),
        decreases n,
    {
        let ghost cur = values(q@).subrange(0, n as int);
        if !q[n - 1].is_zero() {
            assert(cur.last() == q@[n - 1].value());
            return n;
        }
        assert(cur.last() == q@[n - 1].value());
        assert(cur.drop_last() =~= values(q@).subrange(0, n - 1));
        n -= 1;
    }
    0
}

impl ProverContext {
    /// The fewest cells that determine a blob: half of all.
    pub open spec fn min_cells(&self) -> int {
        self.blob_len as int / self.cell_len as int
    }

    /// Whether what recovery is given has the right shape.
    pub open spec fn recover_shape_ok(&self, indices: Seq<u64>, cells: Seq<Seq<u8>>) -> bool {
        &&& indices.len() == cells.len()
        &&& forall|j: int| !wrong_size_at(cells, scalars_size(self.cell_len as int), j)
        &&& all_distinct(indices)
        &&& indices.len() >= self.min_cells()
        &&& indices.len() <= self.num_cells()
        &&& forall|j: int| !out_of_range_at(indices, self.num_cells(), j)
    }

    /// Whether `e` is the error that input of the wrong shape is rejected
    /// with. The checks are made in this order, and the first position that
    /// fails a check is named.
    pub open spec fn recover_shape_rejection(&self, e: VerifierError, indices: Seq<u64>, cells: Seq<Seq<u8>>) -> bool {
        if indices.len() != cells.len() {
            e == (VerifierError::NumCellIndicesNotEqualToNumCells {
                num_cell_indices: indices.len() as usize,
                num_cells: cells.len() as usize,
            })
        } else if exists|j: int| wrong_size_at(cells, scalars_size(self.cell_len as int), j) {
            exists|i: int|
                first_bad(i, |j: int| wrong_size_at(cells, scalars_size(self.cell_len as int), j)) && e
                    == (VerifierError::CellDoesNotContainEnoughBytes {
                    cell_index: indices[i],
                    num_bytes: cells[i].len() as usize,
                    expected_num_bytes: (32 * self.cell_len) as usize,
                })
        } else if !all_distinct(indices) {
            e == VerifierError::CellIndicesNotUnique
        } else if indices.len() < self.min_cells() {
            e == (VerifierError::NotEnoughCellsToReconstruct {
                num_cells_received: indices.len() as usize,
                min_cells_needed: self.min_cells() as usize,
            })
        } else if indices.len() > self.num_cells() {
            e == (VerifierError::TooManyCellsReceived {
                num_cells_received: indices.len() as usize,
                max_cells_needed: self.num_cells() as usize,
            })
        } else if exists|j: int| out_of_range_at(indices, self.num_cells(), j) {
            exists|i: int|
                first_bad(i, |j: int| out_of_range_at(indices, self.num_cells(), j)) && e == (
                VerifierError::CellIndexOutOfRange {
                    cell_index: indices[i],
                    max_number_of_cells: self.num_cells() as u64,
                })
        } else {
            false
        }
    }

    /// The polynomial that vanishes on every cell that is missing, with as
    /// many coefficients as the extension has points.
    pub open spec fn vanishing_spec(&self, indices: Seq<u64>) -> Seq<int> {
        spread(
            vanishing_poly_spec(
                missing_roots(
                    indices,
                    self.proof_domain.omega(),
                    self.num_cells(),
                    self.num_cells() as nat,
                ),
            ),
            self.cell_len as int,
            (2 * self.blob_len) as nat,
        )
    }

    /// The product of the polynomial of the blob with the vanishing
    /// polynomial: its values are the known values times the values of the
    /// vanishing polynomial.
    pub open spec fn product_spec(&self, indices: Seq<u64>, cells: Seq<Seq<int>>) -> Seq<int> {
        let size = (2 * self.blob_len) as nat;
        let e = bit_reversed(known_values(indices, cells, self.cell_len as int, size));
        let zev = dft_spec(self.vanishing_spec(indices), self.ext_domain.omega(), size);
        ifft_spec(pointwise_product(e, zev), self.ext_domain.omega_inv(), inverse_of_two())
    }

    /// The values of the vanishing polynomial over the coset.
    pub open spec fn coset_divisor_spec(&self, indices: Seq<u64>) -> Seq<int> {
        dft_spec(
            scaled_by_powers(self.vanishing_spec(indices), coset_generator()),
            self.ext_domain.omega(),
            (2 * self.blob_len) as nat,
        )
    }

    /// The quotient of the product by the vanishing polynomial, with as
    /// many coefficients as the extension has points.
    pub open spec fn quotient_spec(&self, indices: Seq<u64>, cells: Seq<Seq<int>>) -> Seq<int> {
        let size = (2 * self.blob_len) as nat;
        let pc = dft_spec(
            scaled_by_powers(self.product_spec(indices, cells), coset_generator()),
            self.ext_domain.omega(),
            size,
        );
        scaled_by_powers(
            ifft_spec(
                pointwise_quotient(pc, self.coset_divisor_spec(indices)),
                self.ext_domain.omega_inv(),
                inverse_of_two(),
            ),
            finv(coset_generator()),
        )
    }

    /// What erasure decoding gives: the quotient, cut to the length of a
    /// blob, if the divisor has no zero on the coset, the quotient has no
    /// coefficient beyond the length of a blob, and its extension holds
    /// every scalar that was supplied.
    pub open spec fn decode_spec(&self, indices: Seq<u64>, cells: Seq<Seq<int>>) -> Result<Seq<int>, RSError> {
        if exists|i: int| zero_at(self.coset_divisor_spec(indices), i) {
            Err(RSError::ZeroDivisor)
        } else {
            let q = self.quotient_spec(indices, cells);
            if effective_len(q) > self.blob_len {
                Err(
                    RSError::PolynomialHasInvalidLength {
                        num_coefficients: effective_len(q) as usize,
                        expected_num_coefficients: self.blob_len,
                    },
                )
            } else {
                let c = q.subrange(0, self.blob_len as int);
                if agrees(self.extension_spec(c), self.cell_len as int, indices, cells) {
                    Ok(c)
                } else {
                    Err(RSError::InconsistentEvaluations)
                }
            }
        }
    }

    /// What the recovery of the polynomial answers: input of the wrong
    /// shape is rejected with the error of the first check that it fails;
    /// then a cell that holds a number not below the field order; then
    /// the cells are decoded.
    pub open spec fn recover_outcome(
        &self,
        r: Result<Seq<int>, VerifierError>,
        indices: Seq<u64>,
        cells: Seq<Seq<u8>>,
    ) -> bool {
        if !self.recover_shape_ok(indices, cells) {
            r is Err && self.recover_shape_rejection(r->Err_0, indices, cells)
        } else if exists|j: int| no_scalars_at(cells, self.cell_len as int, j) {
            r is Err && r->Err_0 is Serialization && exists|i: int|
                first_bad(i, |j: int| no_scalars_at(cells, self.cell_len as int, j)) && scalar_error(
                    r->Err_0->Serialization_0,
                    cells[i],
                )
        } else {
            match self.decode_spec(indices, decoded_cells(cells)) {
                Ok(c) => r == Ok::<Seq<int>, VerifierError>(c),
                Err(e) => r == Err::<Seq<int>, VerifierError>(VerifierError::ReedSolomon(e)),
            }
        }
    }

    /// Whether recovery succeeds: the input has the right shape, every cell
    /// decodes, and so does the whole.
    pub open spec fn recovers(&self, indices: Seq<u64>, cells: Seq<Seq<u8>>) -> bool {
        &&& self.recover_shape_ok(indices, cells)
        &&& forall|j: int| !no_scalars_at(cells, self.cell_len as int, j)
        &&& self.decode_spec(indices, decoded_cells(cells)) is Ok
    }

    /// The polynomial that recovery gives where it succeeds.
    pub open spec fn recovered_poly(&self, indices: Seq<u64>, cells: Seq<Seq<u8>>) -> Seq<int> {
        self.decode_spec(indices, decoded_cells(cells))->Ok_0
    }

    /// Checks the shape of what recovery is given.
    pub fn validate_recovery(&self, indices: &Vec<u64>, cells: &Vec<Vec<u8>>) -> (r: Result<
        (),
        VerifierError,
    >)
        requires
            self.wf(),
        ensures
            match r {
                Ok(()) => self.recover_shape_ok(indices@, byte_views(cells@)),
                Err(e) => !self.recover_shape_ok(indices@, byte_views(cells@))
                    && self.recover_shape_rejection(e, indices@, byte_views(cells@)),
            },
    {
        let ghost ce = byte_views(cells@);
        assert(ce.len() == cells.len());
        // Check that the number of cell indices is equal to the number of cells
        if indices.len() != cells.len() {
            return Err(
                VerifierError::NumCellIndicesNotEqualToNumCells {
                    num_cell_indices: indices.len(),
                    num_cells: cells.len(),
                },
            );
        }
        // Check that each cell has the right amount of bytes
        let cell_bytes = 32 * self.cell_len;
        assert(cell_bytes == scalars_size(self.cell_len as int));
        match find_wrong_size(cells, cell_bytes) {
            Some(i) => {
                assert(wrong_size_at(ce, scalars_size(self.cell_len as int), i as int));
                return Err(
                    VerifierError::CellDoesNotContainEnoughBytes {
                        cell_index: indices[i],
                        num_bytes: cells[i].len(),
                        expected_num_bytes: cell_bytes,
                    },
                );
            },
            None => {},
        }
        // Check that we have no duplicate cell indices
        if !are_cell_indices_unique(indices) {
            return Err(VerifierError::CellIndicesNotUnique);
        }
        let min_cells = self.blob_len / self.cell_len;
        let num_cells = 2 * min_cells;
        // Check that we have enough cells to perform a reconstruction
        if indices.len() < min_cells {
            return Err(
                VerifierError::NotEnoughCellsToReconstruct {
                    num_cells_received: indices.len(),
                    min_cells_needed: min_cells,
                },
            );
        }
        // Check that we don't have too many cells
        if indices.len() > num_cells {
            return Err(
                VerifierError::TooManyCellsReceived {
                    num_cells_received: indices.len(),
                    max_cells_needed: num_cells,
                },
            );
        }
        // Check that the cell indices are within the expected range
        match find_out_of_range(indices, num_cells as u64) {
            Some(i) => {
                assert(out_of_range_at(indices@, self.num_cells(), i as int));
                return Err(
                    VerifierError::CellIndexOutOfRange {
                        cell_index: indices[i],
                        max_number_of_cells: num_cells as u64,
                    },
                );
            },
            None => {},
        }
        Ok(())
    }

    /// For each cell, the last position at which it occurs among the
    /// indices, if it occurs.
    fn positions(&self, indices: &Vec<u64>) -> (r: Vec<Option<usize>>)
        requires
            self.wf(),
            forall|j: int| 0 <= j < indices.len() ==> (#[trigger] indices@[j]) < self.num_cells(),
        ensures
            r.len() == self.num_cells(),
            forall|t: int|
                0 <= t < r.len() ==> match #[trigger] r@[t] {
                    Some(x) => x == last_index_of(indices@, t),
                    None => last_index_of(indices@, t) == -1,
                },
    {
        let num_cells = 2 * (self.blob_len / self.cell_len);
        let mut slot: Vec<Option<usize>> = Vec::new();
        let mut t: usize = 0;
        while t < num_cells
            invariant
                t <= num_cells,
                slot.len() == t,
                forall|j: int| 0 <= j < t ==> (#[trigger] slot@[j]) is None,
            decreases num_cells - t,
        {
            slot.push(None);
            t += 1;
        }
        let mut i: usize = 0;
        assert(indices@.subrange(0, 0).len() == 0);
        while i < indices.len()
            invariant
                i <= indices.len(),
                slot.len() == num_cells,
                num_cells == self.num_cells(),
                forall|j: int| 0 <= j < indices.len() ==> (#[trigger] indices@[j]) < self.num_cells(),
                forall|t: int|
                    0 <= t < slot.len() ==> match #[trigger] slot@[t] {
                        Some(x) => x == last_index_of(indices@.subrange(0, i as int), t),
                        None => last_index_of(indices@.subrange(0, i as int), t) == -1,
                    },
            decreases indices.len() - i,
        {
            let ghost before = slot@;
            slot.set(indices[i] as usize, Some(i));
            proof {
                let next = indices@.subrange(0, i + 1);
                assert(next.drop_last() =~= indices@.subrange(0, i as int));
                assert(next.last() == indices@[i as int]);
                assert forall|t: int| 0 <= t < slot.len() implies match #[trigger] slot@[t] {
                    Some(x) => x == last_index_of(next, t),
                    None => last_index_of(next, t) == -1,
                } by {
                    if t != indices@[i as int] {
                        assert(slot@[t] == before[t]);
                    }
                }
            }
            i += 1;
        }
        assert(indices@.subrange(0, indices.len() as int) =~= indices@);
        slot
    }

    /// The polynomial of the blob from the scalars of at least half of the
    /// cells, which have to lie on one polynomial.
    pub fn erasure_decode(&self, indices: &Vec<u64>, cells: &Vec<Vec<Scalar>>) -> (r: Result<
        Vec<Scalar>,
        RSError,
    >)
        requires
            self.wf(),
            indices.len() == cells.len(),
            forall|j: int| 0 <= j < indices.len() ==> (#[trigger] indices@[j]) < self.num_cells(),
            forall|j: int| 0 <= j < cells.len() ==> (#[trigger] cells@[j]).len() == self.cell_len,
        ensures
            match r {
                Ok(c) => self.decode_spec(indices@, values_of_all(cells@)) == Ok::<Seq<int>, RSError>(
                    values(c@),
                ) && c.len() == self.blob_len,
                Err(e) => self.decode_spec(indices@, values_of_all(cells@)) == Err::<Seq<int>, RSError>(
                    e,
                ),
            },
    {
        let n = self.blob_len;
        let l = self.cell_len;
        let k = n / l;
        let size = 2 * n;
        let ghost vcells = values_of_all(cells@);
        proof {
            lemma_pow2_positive(l as int);
            lemma_pow2_positive(k as int);
            lemma_pow2_positive(n as int);
            lemma_pow2_double(k as int);
            lemma_pow2_double(n as int);
            assert(2 * k * l == 2 * n) by (nonlinear_arith)
                requires
                    n == k * l,
            ;
        }
        let slot = self.positions(indices);
        // The known values, in the order of the cells
        let mut known: Vec<Scalar> = Vec::new();
        let mut p: usize = 0;
        while p < size
            invariant
                p <= size,
                size == 2 * n,
                l == self.cell_len,
                l >= 1,
                2 * k * l == 2 * n,
                slot.len() == 2 * k,
                indices.len() == cells.len(),
                vcells == values_of_all(cells@),
                forall|j: int| 0 <= j < cells.len() ==> (#[trigger] cells@[j]).len() == l,
                forall|t: int|
                    0 <= t < slot.len() ==> match #[trigger] slot@[t] {
                        Some(x) => x == last_index_of(indices@, t),
                        None => last_index_of(indices@, t) == -1,
                    },
                known.len() == p,
                forall|q: int| 0 <= q < p ==> (#[trigger] known@[q]).value() == known_values(
                    indices@,
                    vcells,
                    l as int,
                    size as nat,
                )[q],
            decreases size - p,
        {
            proof {
                assert(p / l < 2 * k) by (nonlinear_arith)
                    requires
                        p < 2 * k * l,
                        l >= 1,
                        k >= 0,
                {
                    vstd::arithmetic::div_mod::lemma_div_is_ordered(p as int, 2 * k * l - 1, l as int);
                    vstd::arithmetic::div_mod::lemma_fundamental_div_mod(2 * k * l - 1, l as int);
                }
                lemma_last_index_range(indices@, (p / l) as int);
            }
            match slot[p / l] {
                Some(idx) => {
                    proof {
                        assert(vcells[idx as int] == values(cells@[idx as int]@));
                        assert(values(cells@[idx as int]@)[(p % l) as int] == cells@[idx as int]@[(p
                            % l) as int].value());
                    }
                    known.push(cells[idx][p % l]);
                },
                None => {
                    known.push(Scalar::zero());
                },
            }
            p += 1;
        }
        assert(values(known@) =~= known_values(indices@, vcells, l as int, size as nat));
        let evals = bit_reverse_permute(&known);
        proof {
            assert(values(evals@) =~= bit_reversed(values(known@))) by {
                assert forall|i: int| 0 <= i < evals.len() implies values(evals@)[i] == bit_reversed(
                    values(known@),
                )[i] by {
                    lemma_rev_index_range(i, known.len() as int);
                }
            }
        }
        // The vanishing polynomial of the missing cells
        let mut roots: Vec<Scalar> = Vec::new();
        let mut t: usize = 0;
        while t < 2 * k
            invariant
                t <= 2 * k,
                self.wf(),
                k == self.blob_len / self.cell_len,
                slot.len() == 2 * k,
                crate::domain::is_pow2(2 * k as int),
                roots.len() <= t,
                forall|t: int|
                    0 <= t < slot.len() ==> match #[trigger] slot@[t] {
                        Some(x) => x == last_index_of(indices@, t),
                        None => last_index_of(indices@, t) == -1,
                    },
                values(roots@) == missing_roots(
                    indices@,
                    self.proof_domain.omega(),
                    self.num_cells(),
                    t as nat,
                ),
            decreases 2 * k - t,
        {
            proof {
                lemma_last_index_range(indices@, t as int);
            }
            match slot[t] {
                Some(_) => {},
                None => {
                    let ghost before = values(roots@);
                    roots.push(self.proof_domain.root(reverse_index(t, 2 * k)));
                    assert(values(roots@) =~= before.push(
                        fpow(self.proof_domain.omega(), rev_index(t as int, self.num_cells()) as nat),
                    ));
                },
            }
            t += 1;
        }
        let short = vanishing_poly(roots.as_slice());
        let mut z: Vec<Scalar> = Vec::new();
        let mut i: usize = 0;
        while i < size
            invariant
                i <= size,
                l >= 1,
                z.len() == i,
                forall|j: int| 0 <= j < i ==> (#[trigger] z@[j]).value() == spread(
                    values(short@),
                    l as int,
                    size as nat,
                )[j],
            decreases size - i,
        {
            if i % l == 0 && i / l < short.len() {
                proof {
                    assert(values(short@)[(i / l) as int] == short@[(i / l) as int].value());
                }
                z.push(short[i / l]);
            } else {
                z.push(Scalar::zero());
            }
            i += 1;
        }
        assert(values(z@) =~= self.vanishing_spec(indices@));
        // The product, known everywhere
        let z_evals = self.ext_domain.fft_scalars(&z);
        let product_evals = multiply_pointwise(&evals, &z_evals);
        let product = self.ext_domain.ifft_scalars(&product_evals);
        assert(values(product@) == self.product_spec(indices@, vcells));
        // The division, over the coset
        let g = Scalar::from_u64(7);
        let g_inv = match g.invert() {
            Some(x) => x,
            None => { return Err(RSError::ZeroDivisor); },
        };
        let product_coset = self.ext_domain.fft_scalars(&scale_by_powers(&product, &g));
        let z_coset = self.ext_domain.fft_scalars(&scale_by_powers(&z, &g));
        assert(values(z_coset@) == self.coset_divisor_spec(indices@));
        let quotient_coset = match divide_pointwise(&product_coset, &z_coset) {
            Some(q) => q,
            None => { return Err(RSError::ZeroDivisor); },
        };
        let quotient = scale_by_powers(&self.ext_domain.ifft_scalars(&quotient_coset), &g_inv);
        assert(values(quotient@) == self.quotient_spec(indices@, vcells));
        // The quotient must have no more coefficients than a blob has scalars
        let len = effective_length(&quotient);
        if len > n {
            return Err(
                RSError::PolynomialHasInvalidLength {
                    num_coefficients: len,
                    expected_num_coefficients: n,
                },
            );
        }
        let mut coeffs: Vec<Scalar> = Vec::new();
        let mut i: usize = 0;
        while i < n
            invariant
                i <= n,
                n <= quotient.len(),
                coeffs.len() == i,
                forall|j: int| 0 <= j < i ==> coeffs@[j] == quotient@[j],
            decreases n - i,
        {
            coeffs.push(quotient[i]);
            i += 1;
        }
        assert(values(coeffs@) =~= values(quotient@).subrange(0, n as int));
        // What comes out must hold what came in
        if !self.holds_cells(&coeffs, indices, cells) {
            return Err(RSError::InconsistentEvaluations);
        }
        Ok(coeffs)
    }

    /// Whether the extension of the polynomial holds every scalar that was
    /// supplied.
    pub fn holds_cells(&self, coeffs: &Vec<Scalar>, indices: &Vec<u64>, cells: &Vec<Vec<Scalar>>) -> (r: bool)
        requires
            self.wf(),
            coeffs.len() == self.blob_len,
            indices.len() == cells.len(),
            forall|j: int| 0 <= j < indices.len() ==> (#[trigger] indices@[j]) < self.num_cells(),
            forall|j: int| 0 <= j < cells.len() ==> (#[trigger] cells@[j]).len() == self.cell_len,
        ensures
            r == agrees(
                self.extension_spec(values(coeffs@)),
                self.cell_len as int,
                indices@,
                values_of_all(cells@),
            ),
    {
        let l = self.cell_len;
        let k = self.blob_len / l;
        let ghost vcells = values_of_all(cells@);
        let ghost ext_spec = self.extension_spec(values(coeffs@));
        let evals = self.ext_domain.fft_scalars(coeffs);
        proof {
            lemma_pow2_positive(l as int);
            lemma_pow2_positive(k as int);
            lemma_pow2_double(self.blob_len as int);
        }
        let ext = bit_reverse_permute(&evals);
        proof {
            assert(values(ext@) =~= ext_spec) by {
                assert forall|i: int| 0 <= i < ext.len() implies values(ext@)[i] == ext_spec[i] by {
                    lemma_rev_index_range(i, evals.len() as int);
                }
            }
        }
        let mut idx: usize = 0;
        while idx < indices.len()
            invariant
                idx <= indices.len(),
                self.wf(),
                l == self.cell_len,
                l >= 1,
                k == self.blob_len / l,
                ext.len() == 2 * self.blob_len,
                values(ext@) == ext_spec,
                ext_spec == self.extension_spec(values(coeffs@)),
                vcells == values_of_all(cells@),
                indices.len() == cells.len(),
                forall|j: int| 0 <= j < indices.len() ==> (#[trigger] indices@[j]) < self.num_cells(),
                forall|j: int| 0 <= j < cells.len() ==> (#[trigger] cells@[j]).len() == self.cell_len,
                forall|a: int, j: int|
                    0 <= a < idx && 0 <= j < l ==> #[trigger] agrees_at(
                        ext_spec,
                        l as int,
                        indices@,
                        vcells,
                        a,
                        j,
                    ),
            decreases indices.len() - idx,
        {
            let t = indices[idx] as usize;
            proof {
                assert(t * l + l <= 2 * (k * l)) by (nonlinear_arith)
                    requires
                        0 <= t < 2 * k,
                        l >= 1,
                ;
            }
            let mut j: usize = 0;
            while j < l
                invariant
                    j <= l,
                    idx < indices.len(),
                    t == indices@[idx as int],
                    t * l + l <= ext.len(),
                    values(ext@) == ext_spec,
                    ext_spec == self.extension_spec(values(coeffs@)),
                    l == self.cell_len,
                    vcells == values_of_all(cells@),
                    indices.len() == cells.len(),
                    cells@[idx as int].len() == l,
                    forall|b: int|
                        0 <= b < j ==> #[trigger] agrees_at(
                            ext_spec,
                            l as int,
                            indices@,
                            vcells,
                            idx as int,
                            b,
                        ),
                decreases l - j,
            {
                proof {
                    assert(values(ext@)[t * l + j] == ext@[t * l + j].value());
                    assert(vcells[idx as int] == values(cells@[idx as int]@));
                    assert(values(cells@[idx as int]@)[j as int] == cells@[idx as int]@[j as int].value());
                }
                if !ext[t * l + j].equals(&cells[idx][j]) {
                    assert(!agrees_at(ext_spec, l as int, indices@, vcells, idx as int, j as int));
                    return false;
                }
                j += 1;
            }
            idx += 1;
        }
        true
    }

    /// Recovers the polynomial of a blob from at least half of its cells.
    pub fn recover_polynomial_coeff(&self, cell_indices: &Vec<u64>, cells: &Vec<Vec<u8>>) -> (r: Result<
        Vec<Scalar>,
        VerifierError,
    >)
        requires
            self.wf(),
        ensures
            self.recover_outcome(
                match r {
                    Ok(c) => Ok(values(c@)),
                    Err(e) => Err(e),
                },
                cell_indices@,
                byte_views(cells@),
            ),
            r is Ok ==> r->Ok_0.len() == self.blob_len && self.recovers(
                cell_indices@,
                byte_views(cells@),
            ) && values(r->Ok_0@) == self.recovered_poly(cell_indices@, byte_views(cells@)),
    {
        match self.validate_recovery(cell_indices, cells) {
            Ok(()) => {},
            Err(e) => { return Err(e); },
        }
        let coset_evals = match deserialize_cells(cells, self.cell_len) {
            Ok(v) => v,
            Err(e) => { return Err(VerifierError::Serialization(e)); },
        };
        proof {
            assert forall|j: int| 0 <= j < cell_indices.len() implies (#[trigger] cell_indices@[j])
                < self.num_cells() by {
                assert(!out_of_range_at(cell_indices@, self.num_cells(), j));
            }
        }
        match self.erasure_decode(cell_indices, &coset_evals) {
            Ok(c) => Ok(c),
            Err(e) => Err(VerifierError::ReedSolomon(e)),
        }
    }

    /// Recovers all cells of a blob, and the proofs of all cells, from at
    /// least half of the cells.
    pub fn recover_cells_and_proofs(&self, cell_indices: Vec<u64>, cells: Vec<Vec<u8>>) -> (r: Result<
        (Vec<Vec<u8>>, Vec<[u8; 48]>),
        ProverError,
    >)
        requires
            self.wf(),
        ensures
            match r {
                Ok((all_cells, proofs)) => self.recovers(cell_indices@, byte_views(cells@))
                    && self.cells_encode(
                    byte_views(all_cells@),
                    self.recovered_poly(cell_indices@, byte_views(cells@)),
                ) && views48(proofs@) == compressed_all(
                    self.proofs_spec(self.recovered_poly(cell_indices@, byte_views(cells@))),
                ) && proofs.len() == self.num_cells(),
                Err(ProverError::RecoveryFailure(e)) => self.recover_outcome(
                    Err::<Seq<int>, VerifierError>(e),
                    cell_indices@,
                    byte_views(cells@),
                ),
                Err(_) => false,
            },
    {
        // Use erasure decoding to recover the polynomial of the blob
        let coeffs = match self.recover_polynomial_coeff(&cell_indices, &cells) {
            Ok(c) => c,
            Err(e) => { return Err(ProverError::RecoveryFailure(e)); },
        };
        Ok(self.compute_cells_and_kzg_proofs_from_poly(&coeffs))
    }
}

/// A position that `last_index_of` gives is a position of the sequence.
pub proof fn lemma_last_index_range(indices: Seq<u64>, t: int)
    ensures
        -1 <= last_index_of(indices, t) < indices.len(),
        last_index_of(indices, t) >= 0 ==> indices[last_index_of(indices, t)] == t,
    decreases indices.len(),
{
    if indices.len() > 0 && indices.last() != t {
        lemma_last_index_range(indices.drop_last(), t);
    }
}

} // verus!
