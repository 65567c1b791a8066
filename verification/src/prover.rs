//! The prover: the commitment to a blob, the cells of its extension, and the
//! proofs of all cells in one pass.

use crate::batch_toeplitz::{encodings_of_all, BatchToeplitzMatrixVecMul};
use crate::domain::{
    dft_spec, g1_fft_spec, g1_padded, ifft_spec, inverse_of_two, is_pow2, is_power_of_two,
    lemma_pow2_double,
    lemma_pow2_positive, lemma_pow2_quotient, max_domain_size, primitive_root, Domain,
};
use crate::errors::{ProverError, SerializationError};
use crate::field::{modulus, values, Scalar};
use crate::group::{
    copy_bytes, encodings, g1_compressed, g1_identity_encoding, g1_lincomb, g1_lincomb_spec, G1Point,
};
use crate::permutation::{bit_reverse_permute, bit_reversed, lemma_rev_index_range};
use crate::serialization::{
    canonical_upto, decoded_scalars, deserialize_bytes_to_scalars, encodes_scalars_exactly,
    scalar_chunk, serialize_scalars,
};
use crate::toeplitz::ToeplitzMatrix;
use vstd::prelude::*;

verus! {

/// The vectors that the proofs of all cells are computed with: for each
/// position `b` in a cell, the points of the setup at the positions
/// congruent to `b`, from the last but one block of `l` down to the first,
/// and then the neutral element.
pub open spec fn fk20_vectors(srs: Seq<Seq<u8>>, l: int, k: int) -> Seq<Seq<Seq<u8>>> {
    Seq::new(
        l as nat,
        |b: int|
            Seq::new(
                k as nat,
                |c: int|
                    if c <= k - 2 {
                        srs[(k - 2 - c) * l + b]
                    } else {
                        g1_identity_encoding()
                    },
            ),
    )
}

/// The first rows of the Toeplitz matrices of a polynomial: for each
/// position `b` in a cell, its coefficients at the positions congruent to
/// `b`, from the last block of `l` down to the first.
pub open spec fn fk20_rows(coeffs: Seq<int>, l: int, k: int) -> Seq<Seq<int>> {
    Seq::new(l as nat, |b: int| Seq::new(k as nat, |c: int| coeffs[(k - 1 - c) * l + b]))
}

/// The first columns of the Toeplitz matrices of a polynomial: the first
/// item of the row, then zeros.
pub open spec fn fk20_cols(coeffs: Seq<int>, l: int, k: int) -> Seq<Seq<int>> {
    Seq::new(
        l as nat,
        |b: int|
            Seq::new(
                k as nat,
                |c: int|
                    if c == 0 {
                        coeffs[(k - 1) * l + b]
                    } else {
                        0int
                    },
            ),
    )
}

/// The compressed encodings of a sequence of points.
pub open spec fn compressed_all(points: Seq<Seq<u8>>) -> Seq<Seq<u8>> {
    Seq::new(points.len(), |i: int| g1_compressed(points[i]))
}

/// The views of a sequence of 48-byte encodings.
pub open spec fn views48(s: Seq<[u8; 48]>) -> Seq<Seq<u8>> {
    Seq::new(s.len(), |i: int| s[i]@)
}

/// The views of a sequence of byte vectors.
pub open spec fn byte_views(s: Seq<Vec<u8>>) -> Seq<Seq<u8>> {
    Seq::new(s.len(), |i: int| s[i]@)
}

/// What the prover keeps: the points of the setup, the domains of the blob,
/// of its extension and of the proofs, and the transforms of the vectors
/// that the proofs are computed with.
pub struct ProverContext {
    /// The number of scalars of a blob.
    pub blob_len: usize,
    /// The number of scalars of a cell.
    pub cell_len: usize,
    /// The points of the setup in monomial form, one for each coefficient.
    pub commit_key: Vec<G1Point>,
    /// The domain of the blob.
    pub poly_domain: Domain,
    /// The domain of the extension, twice as large.
    pub ext_domain: Domain,
    /// The domain with one point for each cell.
    pub proof_domain: Domain,
    /// The precomputed vectors.
    pub batch: BatchToeplitzMatrixVecMul,
}

impl ProverContext {
    /// The number of cells of a blob and its extension.
    pub open spec fn num_cells(&self) -> int {
        2 * (self.blob_len as int / self.cell_len as int)
    }

    /// The points of the setup.
    pub open spec fn srs(&self) -> Seq<Seq<u8>> {
        encodings(self.commit_key@)
    }

    pub open spec fn wf(&self) -> bool {
        let n = self.blob_len as int;
        let l = self.cell_len as int;
        let k = n / l;
        &&& is_pow2(n)
        &&& is_pow2(l)
        &&& is_pow2(k)
        &&& l <= n
        &&& n == k * l
        &&& 64 * n <= usize::MAX
        &&& 2 * n <= max_domain_size()
        &&& self.commit_key.len() == n
        &&& self.poly_domain.wf()
        &&& self.poly_domain.size_spec() == n
        &&& self.poly_domain.omega() == primitive_root(n)
        &&& self.ext_domain.wf()
        &&& self.ext_domain.size_spec() == 2 * n
        &&& self.ext_domain.omega() == primitive_root(2 * n)
        &&& self.proof_domain.wf()
        &&& self.proof_domain.size_spec() == 2 * k
        &&& self.proof_domain.omega() == primitive_root(2 * k)
        &&& self.batch.wf()
        &&& self.batch.order() == k
        &&& self.batch.count() == l
        &&& self.batch.omega() == primitive_root(2 * k)
        &&& self.batch.vectors() == crate::batch_toeplitz::transformed_vectors(
            fk20_vectors(self.srs(), l, k),
            (2 * k) as nat,
            self.batch.omega(),
        )
    }

    /// The coefficients of the polynomial of a blob: the polynomial with as
    /// many coefficients as the blob has scalars whose values over the
    /// domain, in bit-reversed order, are the scalars of the blob.
    pub open spec fn blob_poly_spec(&self, blob: Seq<u8>) -> Seq<int> {
        ifft_spec(bit_reversed(decoded_scalars(blob)), self.poly_domain.omega_inv(), inverse_of_two())
    }

    /// The commitment to a polynomial: the linear combination of the points
    /// of the setup with its coefficients.
    pub open spec fn commitment_spec(&self, coeffs: Seq<int>) -> Seq<u8> {
        g1_lincomb_spec(self.srs(), coeffs)
    }

    /// The values of the polynomial over the domain of the extension, in
    /// bit-reversed order.
    pub open spec fn extension_spec(&self, coeffs: Seq<int>) -> Seq<int> {
        bit_reversed(dft_spec(coeffs, self.ext_domain.omega(), (2 * self.blob_len) as nat))
    }

    /// The point of the domain of the extension at which the scalar at
    /// `position` of the extension is the value of the polynomial.
    pub open spec fn point_of(&self, position: int) -> int {
        crate::field::fpow(
            self.ext_domain.omega(),
            crate::permutation::rev_index(position, 2 * self.blob_len) as nat,
        )
    }

    /// The scalars of cell `t` of the polynomial.
    pub open spec fn cell_spec(&self, coeffs: Seq<int>, t: int) -> Seq<int> {
        self.extension_spec(coeffs).subrange(t * self.cell_len as int, (t + 1) * self.cell_len as int)
    }

    /// The proofs of all cells of the polynomial: the sum of the Toeplitz
    /// products gives the commitments to the quotient coefficients, whose
    /// transform over the domain of the proofs, in bit-reversed order, are
    /// the proofs.
    pub open spec fn proofs_spec(&self, coeffs: Seq<int>) -> Seq<Seq<u8>> {
        let l = self.cell_len as int;
        let k = self.blob_len as int / l;
        bit_reversed(
            g1_fft_spec(
                g1_padded(
                    self.batch.sum_spec(fk20_rows(coeffs, l, k), fk20_cols(coeffs, l, k)),
                    (2 * k) as nat,
                ),
                self.proof_domain.omega(),
            ),
        )
    }

    /// Whether `cells` are the encodings of the cells of the polynomial.
    pub open spec fn cells_encode(&self, cells: Seq<Seq<u8>>, coeffs: Seq<int>) -> bool {
        &&& cells.len() == self.num_cells()
        &&& forall|t: int|
            0 <= t < cells.len() ==> encodes_scalars_exactly(#[trigger] cells[t], self.cell_len as int)
                && decoded_scalars(cells[t]) == self.cell_spec(coeffs, t)
    }

    /// The context for blobs of `blob_len` scalars and cells of `cell_len`
    /// scalars, from the points of the setup in monomial form. Both lengths
    /// are powers of two, and the setup has a point for each scalar of a
    /// blob.
    pub fn new(g1_monomial: &Vec<G1Point>, blob_len: usize, cell_len: usize) -> (r: Option<ProverContext>)
        ensures
            r.is_some() <==> is_pow2(blob_len as int) && is_pow2(cell_len as int) && cell_len
                <= blob_len && 2 * blob_len <= max_domain_size() && 64 * blob_len <= usize::MAX
                && g1_monomial.len() >= blob_len,
            r.is_some() ==> r.unwrap().wf() && r.unwrap().blob_len == blob_len && r.unwrap().cell_len
                == cell_len && r.unwrap().srs() == encodings(g1_monomial@).subrange(
                0,
                blob_len as int,
            ),
    {
        if blob_len > usize::MAX / 64 || cell_len > blob_len || g1_monomial.len() < blob_len {
            return None;
        }
        let poly_domain = match Domain::new(blob_len) {
            Some(d) => d,
            None => { return None; },
        };
        let ext_domain = match Domain::new(2 * blob_len) {
            Some(d) => d,
            None => {
                proof {
                    lemma_pow2_double(blob_len as int);
                }
                return None;
            },
        };
        if !is_power_of_two(cell_len) {
            return None;
        }
        let n = blob_len;
        let l = cell_len;
        let k = n / l;
        proof {
            lemma_pow2_quotient(n as int, l as int);
            lemma_pow2_positive(l as int);
            lemma_pow2_positive(k as int);
            lemma_pow2_double(k as int);
            assert(2 * k <= 2 * n) by (nonlinear_arith)
                requires
                    n == k * l,
                    l >= 1,
                    k >= 1,
            ;
        }
        let proof_domain = Domain::new(2 * k).unwrap();
        let mut commit_key: Vec<G1Point> = Vec::new();
        let mut i: usize = 0;
        while i < n
            invariant
                i <= n,
                n <= g1_monomial.len(),
                commit_key.len() == i,
                forall|j: int| 0 <= j < i ==> commit_key@[j] == g1_monomial@[j],
            decreases n - i,
        {
            commit_key.push(g1_monomial[i]);
            i += 1;
        }
        assert(encodings(commit_key@) =~= encodings(g1_monomial@).subrange(0, n as int));
        let ghost srs = encodings(commit_key@);
        // The vectors of the proofs
        let mut vectors: Vec<Vec<G1Point>> = Vec::new();
        let mut b: usize = 0;
        while b < l
            invariant
                b <= l,
                n == k * l,
                k >= 1,
                l >= 1,
                commit_key.len() == n,
                srs == encodings(commit_key@),
                vectors.len() == b,
                forall|j: int| 0 <= j < b ==> (#[trigger] vectors@[j]).len() == k,
                forall|j: int| 0 <= j < b ==> encodings((#[trigger] vectors@[j])@) == fk20_vectors(srs, l as int, k as int)[j],
            decreases l - b,
        {
            let mut v: Vec<G1Point> = Vec::new();
            let mut c: usize = 0;
            while c < k
                invariant
                    c <= k,
                    b < l,
                    n == k * l,
                    k >= 1,
                    commit_key.len() == n,
                    srs == encodings(commit_key@),
                    v.len() == c,
                    forall|j: int| 0 <= j < c ==> (#[trigger] v@[j])@ == fk20_vectors(srs, l as int, k as int)[b as int][j],
                decreases k - c,
            {
                if k >= 2 && c <= k - 2 {
                    proof {
                        assert(0 <= (k - 2 - c) * l + b < n) by (nonlinear_arith)
                            requires
                                n == k * l,
                                c + 2 <= k,
                                0 <= b < l,
                                0 <= c,
                        ;
                    }
                    v.push(commit_key[(k - 2 - c) * l + b]);
                } else {
                    v.push(G1Point::identity());
                }
                c += 1;
            }
            assert(encodings(v@) =~= fk20_vectors(srs, l as int, k as int)[b as int]);
            vectors.push(v);
            b += 1;
        }
        assert(encodings_of_all(vectors@) =~= fk20_vectors(srs, l as int, k as int));
        let batch = BatchToeplitzMatrixVecMul::new(vectors);
        let ctx = ProverContext {
            blob_len,
            cell_len,
            commit_key,
            poly_domain,
            ext_domain,
            proof_domain,
            batch,
        };
        Some(ctx)
    }

    /// The coefficients of the polynomial of a blob.
    pub fn blob_to_coeffs(&self, blob: &[u8]) -> (r: Result<Vec<Scalar>, SerializationError>)
        requires
            self.wf(),
        ensures
            match r {
                Ok(c) => encodes_scalars_exactly(blob@, self.blob_len as int) && values(c@)
                    == self.blob_poly_spec(blob@) && c.len() == self.blob_len && dft_spec(
                    values(c@),
                    self.poly_domain.omega(),
                    self.blob_len as nat,
                ) == bit_reversed(decoded_scalars(blob@)),
                Err(SerializationError::BlobHasInvalidLength { bytes: b, length }) => blob@.len() != 32
                    * self.blob_len && b@ == blob@ && length == blob@.len(),
                Err(SerializationError::CouldNotDeserializeScalar { bytes: b }) => blob@.len() == 32
                    * self.blob_len && exists|i: int|
                    0 <= i < self.blob_len && canonical_upto(blob@, i) && b@ == scalar_chunk(blob@, i)
                        && crate::field::be_value(b@) >= modulus(),
                Err(_) => false,
            },
    {
        if blob.len() != 32 * self.blob_len {
            return Err(
                SerializationError::BlobHasInvalidLength { bytes: copy_bytes(blob), length: blob.len() },
            );
        }
        let scalars = match deserialize_bytes_to_scalars(blob) {
            Ok(s) => s,
            Err(e) => { return Err(e); },
        };
        let natural = bit_reverse_permute(&scalars);
        proof {
            assert(values(natural@) =~= bit_reversed(values(scalars@))) by {
                assert forall|i: int| 0 <= i < natural.len() implies values(natural@)[i]
                    == bit_reversed(values(scalars@))[i] by {
                    lemma_rev_index_range(i, scalars.len() as int);
                }
            }
        }
        Ok(self.poly_domain.ifft_scalars(&natural))
    }

    /// The commitment to a polynomial.
    pub fn commit(&self, coeffs: &Vec<Scalar>) -> (r: G1Point)
        requires
            self.wf(),
            coeffs.len() == self.blob_len,
        ensures
            r@ == self.commitment_spec(values(coeffs@)),
    {
        g1_lincomb(&self.commit_key, coeffs)
    }

    /// The cells of a polynomial: its values over the domain of the
    /// extension, in bit-reversed order, cut into cells and encoded.
    pub fn compute_cells(&self, coeffs: &Vec<Scalar>) -> (r: Vec<Vec<u8>>)
        requires
            self.wf(),
            coeffs.len() == self.blob_len,
        ensures
            self.cells_encode(byte_views(r@), values(coeffs@)),
    {
        let l = self.cell_len;
        let k = self.blob_len / l;
        let evals = self.ext_domain.fft_scalars(coeffs);
        let ext = bit_reverse_permute(&evals);
        let ghost vc = values(coeffs@);
        proof {
            lemma_pow2_positive(l as int);
            assert(values(ext@) =~= self.extension_spec(vc)) by {
                assert forall|i: int| 0 <= i < ext.len() implies values(ext@)[i] == self.extension_spec(
                    vc,
                )[i] by {
                    lemma_rev_index_range(i, evals.len() as int);
                }
            }
            assert(2 * k * l == 2 * self.blob_len) by (nonlinear_arith)
                requires
                    self.blob_len == k * l,
            ;
        }
        let mut cells: Vec<Vec<u8>> = Vec::new();
        let mut t: usize = 0;
        while t < 2 * k
            invariant
                t <= 2 * k,
                self.wf(),
                l == self.cell_len,
                l >= 1,
                k == self.blob_len / l,
                2 * k * l == 2 * self.blob_len,
                ext.len() == 2 * self.blob_len,
                values(ext@) == self.extension_spec(vc),
                cells.len() == t,
                forall|j: int|
                    0 <= j < t ==> encodes_scalars_exactly((#[trigger] cells@[j])@, l as int)
                        && decoded_scalars(cells@[j]@) == self.cell_spec(vc, j),
            decreases 2 * k - t,
        {
            proof {
                assert((t + 1) * l <= 2 * k * l) by (nonlinear_arith)
                    requires
                        t < 2 * k,
                        l >= 1,
                ;
                assert(t * l + l == (t + 1) * l) by (nonlinear_arith);
            }
            let mut chunk: Vec<Scalar> = Vec::new();
            let mut j: usize = 0;
            while j < l
                invariant
                    j <= l,
                    t * l + l <= ext.len(),
                    chunk.len() == j,
                    forall|i: int| 0 <= i < j ==> chunk@[i] == ext@[t * l + i],
                decreases l - j,
            {
                chunk.push(ext[t * l + j]);
                j += 1;
            }
            let bytes = serialize_scalars(&chunk);
            proof {
                assert(values(chunk@) =~= self.cell_spec(vc, t as int)) by {
                    assert forall|i: int| 0 <= i < l implies values(chunk@)[i] == self.cell_spec(
                        vc,
                        t as int,
                    )[i] by {
                        assert(values(ext@)[t * l + i] == ext@[t * l + i].value());
                    }
                }
                assert(bytes@.len() as int / 32 == l);
            }
            cells.push(bytes);
            t += 1;
        }
        proof {
            let bv = byte_views(cells@);
            assert forall|t: int| 0 <= t < bv.len() implies encodes_scalars_exactly(
                #[trigger] bv[t],
                self.cell_len as int,
            ) && decoded_scalars(bv[t]) == self.cell_spec(vc, t) by {
                assert(bv[t] == cells@[t]@);
            }
        }
        cells
    }

    /// The proofs of all cells of a polynomial.
    pub fn compute_proofs(&self, coeffs: &Vec<Scalar>) -> (r: Vec<G1Point>)
        requires
            self.wf(),
            coeffs.len() == self.blob_len,
        ensures
            encodings(r@) == self.proofs_spec(values(coeffs@)),
            r.len() == self.num_cells(),
    {
        let l = self.cell_len;
        let k = self.blob_len / l;
        let ghost vc = values(coeffs@);
        proof {
            lemma_pow2_positive(l as int);
            lemma_pow2_positive(k as int);
        }
        let mut matrices: Vec<ToeplitzMatrix> = Vec::new();
        let mut b: usize = 0;
        while b < l
            invariant
                b <= l,
                self.blob_len == k * l,
                k >= 1,
                l >= 1,
                l == self.cell_len,
                coeffs.len() == self.blob_len,
                vc == values(coeffs@),
                matrices.len() == b,
                forall|j: int|
                    0 <= j < b ==> (#[trigger] matrices@[j]).wf() && matrices@[j].order() == k,
                forall|j: int|
                    0 <= j < b ==> values((#[trigger] matrices@[j]).row@) == fk20_rows(
                        vc,
                        l as int,
                        k as int,
                    )[j],
                forall|j: int|
                    0 <= j < b ==> values((#[trigger] matrices@[j]).col@) == fk20_cols(
                        vc,
                        l as int,
                        k as int,
                    )[j],
            decreases l - b,
        {
            let mut row: Vec<Scalar> = Vec::new();
            let mut col: Vec<Scalar> = Vec::new();
            let mut c: usize = 0;
            while c < k
                invariant
                    c <= k,
                    b < l,
                    self.blob_len == k * l,
                    k >= 1,
                    coeffs.len() == self.blob_len,
                    vc == values(coeffs@),
                    row.len() == c,
                    col.len() == c,
                    forall|j: int|
                        0 <= j < c ==> (#[trigger] row@[j]).value() == fk20_rows(vc, l as int, k as int)[b as int][j],
                    forall|j: int|
                        0 <= j < c ==> (#[trigger] col@[j]).value() == fk20_cols(vc, l as int, k as int)[b as int][j],
                decreases k - c,
            {
                proof {
                    assert(0 <= (k - 1 - c) * l + b < k * l) by (nonlinear_arith)
                        requires
                            c < k,
                            0 <= b < l,
                            0 <= c,
                    ;
                }
                let x = coeffs[(k - 1 - c) * l + b];
                row.push(x);
                if c == 0 {
                    col.push(x);
                } else {
                    col.push(Scalar::zero());
                }
                c += 1;
            }
            assert(values(row@) =~= fk20_rows(vc, l as int, k as int)[b as int]);
            assert(values(col@) =~= fk20_cols(vc, l as int, k as int)[b as int]);
            matrices.push(ToeplitzMatrix::new(row, col));
            b += 1;
        }
        proof {
            assert(crate::batch_toeplitz::rows_of(matrices@) =~= fk20_rows(vc, l as int, k as int));
            assert(crate::batch_toeplitz::cols_of(matrices@) =~= fk20_cols(vc, l as int, k as int));
        }
        let h = self.batch.sum_matrix_vector_mul(matrices);
        let natural = self.proof_domain.fft_g1(&h);
        let proofs = bit_reverse_permute(&natural);
        proof {
            assert(encodings(proofs@) =~= bit_reversed(encodings(natural@))) by {
                assert forall|i: int| 0 <= i < proofs.len() implies encodings(proofs@)[i]
                    == bit_reversed(encodings(natural@))[i] by {
                    lemma_rev_index_range(i, natural.len() as int);
                }
            }
        }
        proofs
    }

    /// The compressed encodings of a sequence of points.
    pub fn serialize_points(points: &Vec<G1Point>) -> (r: Vec<[u8; 48]>)
        ensures
            views48(r@) == compressed_all(encodings(points@)),
    {
        let mut out: Vec<[u8; 48]> = Vec::new();
        let mut i: usize = 0;
        while i < points.len()
            invariant
                i <= points.len(),
                out.len() == i,
                forall|j: int| 0 <= j < i ==> (#[trigger] out@[j])@ == g1_compressed(points@[j]@),
            decreases points.len() - i,
        {
            out.push(points[i].to_compressed());
            i += 1;
        }
        assert(views48(out@) =~= compressed_all(encodings(points@)));
        out
    }

    /// The cells and the proofs of all cells of a polynomial.
    pub fn compute_cells_and_kzg_proofs_from_poly(&self, coeffs: &Vec<Scalar>) -> (r: (
        Vec<Vec<u8>>,
        Vec<[u8; 48]>,
    ))
        requires
            self.wf(),
            coeffs.len() == self.blob_len,
        ensures
            self.cells_encode(byte_views(r.0@), values(coeffs@)),
            views48(r.1@) == compressed_all(self.proofs_spec(values(coeffs@))),
            r.1.len() == self.num_cells(),
    {
        let cells = self.compute_cells(coeffs);
        let proofs = self.compute_proofs(coeffs);
        let encoded = Self::serialize_points(&proofs);
        assert(encoded.len() == views48(encoded@).len());
        (cells, encoded)
    }

    /// The commitment to a blob: the compressed encoding of the commitment
    /// to its polynomial. The blob has to be the encoding of `blob_len`
    /// scalars.
    pub fn blob_to_kzg_commitment(&self, blob: &[u8]) -> (r: Result<[u8; 48], ProverError>)
        requires
            self.wf(),
        ensures
            match r {
                Ok(c) => encodes_scalars_exactly(blob@, self.blob_len as int) && c@ == g1_compressed(
                    self.commitment_spec(self.blob_poly_spec(blob@)),
                ),
                Err(ProverError::Serialization(e)) => blob_error(e, blob@, self.blob_len as int),
                Err(_) => false,
            },
    {
        let coeffs = match self.blob_to_coeffs(blob) {
            Ok(c) => c,
            Err(e) => { return Err(ProverError::Serialization(e)); },
        };
        Ok(self.commit(&coeffs).to_compressed())
    }

    /// The cells of the extension of a blob, and the proof of each cell.
    /// The blob has to be the encoding of `blob_len` scalars.
    pub fn compute_cells_and_kzg_proofs(&self, blob: &[u8]) -> (r: Result<
        (Vec<Vec<u8>>, Vec<[u8; 48]>),
        ProverError,
    >)
        requires
            self.wf(),
        ensures
            match r {
                Ok((cells, proofs)) => encodes_scalars_exactly(blob@, self.blob_len as int)
                    && self.cells_encode(byte_views(cells@), self.blob_poly_spec(blob@))
                    && views48(proofs@) == compressed_all(self.proofs_spec(self.blob_poly_spec(blob@)))
                    && proofs.len() == self.num_cells(),
                Err(ProverError::Serialization(e)) => blob_error(e, blob@, self.blob_len as int),
                Err(_) => false,
            },
    {
        let coeffs = match self.blob_to_coeffs(blob) {
            Ok(c) => c,
            Err(e) => { return Err(ProverError::Serialization(e)); },
        };
        Ok(self.compute_cells_and_kzg_proofs_from_poly(&coeffs))
    }
}

/// Whether `e` is the error that a byte string which is not the encoding of
/// a blob of `count` scalars is rejected with: its length if that is wrong,
/// and else its first scalar that is not below the field order.
pub open spec fn blob_error(e: SerializationError, blob: Seq<u8>, count: int) -> bool {
    match e {
        SerializationError::BlobHasInvalidLength { bytes: b, length } => blob.len() != 32 * count && b@
            == blob && length == blob.len(),
        SerializationError::CouldNotDeserializeScalar { bytes: b } => blob.len() == 32 * count
            && exists|i: int|
            0 <= i < count && canonical_upto(blob, i) && b@ == scalar_chunk(blob, i)
                && crate::field::be_value(b@) >= modulus(),
        _ => false,
    }
}

} // verus!
