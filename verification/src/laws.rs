//! What holds of the operations of the library, whatever the input: each law
//! is stated over the contracts of the operations, and proved from them.

use crate::errors::{ProverError, SerializationError, VerifierError};
use crate::prover::{blob_error, ProverContext};
use crate::serialization::{decoded_scalars, encodes_scalars_exactly, scalars_size};
use crate::validation::{all_distinct, decoded_cells, wrong_size_at};
use crate::verification::VerifierContext;
use crate::recovery::agrees_at;
use vstd::prelude::*;

verus! {

/// Commitment determinism: the commitment to a blob depends on the setup,
/// on the number of scalars of a blob, and on the blob, and on nothing
/// else. Two provers over the same setup commit to a blob alike.
pub proof fn lemma_commitment_is_determined(a: &ProverContext, b: &ProverContext, blob: Seq<u8>)
    requires
        a.wf(),
        b.wf(),
        a.blob_len == b.blob_len,
        a.srs() == b.srs(),
    ensures
        a.blob_poly_spec(blob) == b.blob_poly_spec(blob),
        a.commitment_spec(a.blob_poly_spec(blob)) == b.commitment_spec(b.blob_poly_spec(blob)),
{
    a.poly_domain.lemma_wf_facts();
    b.poly_domain.lemma_wf_facts();
}

/// The cells and the proofs of a polynomial depend on the setup, on the
/// number of scalars of a blob and of a cell, and on the polynomial, and on
/// nothing else.
pub proof fn lemma_cells_and_proofs_are_determined(a: &ProverContext, b: &ProverContext, coeffs: Seq<int>)
    requires
        a.wf(),
        b.wf(),
        a.blob_len == b.blob_len,
        a.cell_len == b.cell_len,
        a.srs() == b.srs(),
    ensures
        a.extension_spec(coeffs) == b.extension_spec(coeffs),
        a.proofs_spec(coeffs) == b.proofs_spec(coeffs),
{
    a.batch.lemma_wf_facts();
    b.batch.lemma_wf_facts();
}

/// Commitment determinism: two answers of the commitment to one blob, by one
/// prover, are the same bytes.
pub proof fn lemma_commitment_is_repeatable(
    ctx: &ProverContext,
    blob: Seq<u8>,
    first: [u8; 48],
    second: [u8; 48],
)
    requires
        first@ == crate::group::g1_compressed(ctx.commitment_spec(ctx.blob_poly_spec(blob))),
        second@ == crate::group::g1_compressed(ctx.commitment_spec(ctx.blob_poly_spec(blob))),
    ensures
        first == second,
{
    assert(first@ =~= second@);
}

/// Insufficient input is rejected: recovery from fewer distinct cells of
/// the right size than half of all fails with the error that says so, and
/// names how many came and how many are needed.
pub proof fn lemma_too_few_cells_are_rejected(
    ctx: &ProverContext,
    r: Result<Seq<int>, VerifierError>,
    indices: Seq<u64>,
    cells: Seq<Seq<u8>>,
)
    requires
        ctx.wf(),
        ctx.recover_outcome(r, indices, cells),
        indices.len() == cells.len(),
        forall|j: int| !wrong_size_at(cells, scalars_size(ctx.cell_len as int), j),
        all_distinct(indices),
        indices.len() < ctx.min_cells(),
    ensures
        r == Err::<Seq<int>, VerifierError>(
            VerifierError::NotEnoughCellsToReconstruct {
                num_cells_received: indices.len() as usize,
                min_cells_needed: ctx.min_cells() as usize,
            },
        ),
{
}

/// A repeated index is rejected: recovery with an index that occurs twice
/// fails with the error that says so, however many cells came. (The number
/// of indices has to be the number of cells, and the cells of the right
/// size: those are checked first.)
pub proof fn lemma_repeated_index_is_rejected(
    ctx: &ProverContext,
    r: Result<Seq<int>, VerifierError>,
    indices: Seq<u64>,
    cells: Seq<Seq<u8>>,
    i: int,
    j: int,
)
    requires
        ctx.wf(),
        ctx.recover_outcome(r, indices, cells),
        indices.len() == cells.len(),
        forall|j: int| !wrong_size_at(cells, scalars_size(ctx.cell_len as int), j),
        0 <= i < j < indices.len(),
        indices[i] == indices[j],
    ensures
        r == Err::<Seq<int>, VerifierError>(VerifierError::CellIndicesNotUnique),
{
}

/// The serialization boundary of the prover: a blob of the wrong length is
/// rejected with the error that names its length.
pub proof fn lemma_blob_of_wrong_length_is_rejected(e: SerializationError, blob: Seq<u8>, count: int)
    requires
        blob_error(e, blob, count),
        blob.len() != 32 * count,
    ensures
        e is BlobHasInvalidLength,
        e.is_length_error(),
        e.offending_bytes() == blob,
{
}

/// The serialization boundary of the prover: what is accepted as a blob is
/// the encoding of as many scalars as a blob has.
pub proof fn lemma_accepted_blob_is_well_formed(
    ctx: &ProverContext,
    r: Result<Seq<u8>, ProverError>,
    blob: Seq<u8>,
)
    requires
        match r {
            Ok(c) => encodes_scalars_exactly(blob, ctx.blob_len as int),
            Err(ProverError::Serialization(e)) => blob_error(e, blob, ctx.blob_len as int),
            Err(_) => false,
        },
        !encodes_scalars_exactly(blob, ctx.blob_len as int),
    ensures
        r is Err,
        r->Err_0 is Serialization,
{
}

/// The serialization boundary of the verifier: a batch whose four lists of
/// entries are equally long and which holds a commitment, a cell or a proof
/// of the wrong length is rejected with an error that reports a byte string,
/// and so is neither accepted nor called an invalid proof.
pub proof fn lemma_wrong_length_is_rejected_by_verification(
    ctx: &VerifierContext,
    r: Result<(), VerifierError>,
    commitments: Seq<Seq<u8>>,
    rows: Seq<u64>,
    cols: Seq<u64>,
    cells: Seq<Seq<u8>>,
    proofs: Seq<Seq<u8>>,
    i: int,
)
    requires
        ctx.wf(),
        ctx.batch_outcome(r, commitments, rows, cols, cells, proofs),
        rows.len() == cols.len(),
        rows.len() == cells.len(),
        rows.len() == proofs.len(),
        wrong_size_at(commitments, 48, i) || wrong_size_at(cells, scalars_size(ctx.cell_len as int), i)
            || wrong_size_at(proofs, 48, i),
    ensures
        r is Err,
        r->Err_0.is_serialization_failure(),
        !(r->Err_0 is InvalidProof),
{
}

/// The serialization boundary of recovery: with as many indices as cells, a
/// cell of the wrong length is rejected with the error that names the cell
/// and its length.
pub proof fn lemma_wrong_length_is_rejected_by_recovery(
    ctx: &ProverContext,
    r: Result<Seq<int>, VerifierError>,
    indices: Seq<u64>,
    cells: Seq<Seq<u8>>,
    i: int,
)
    requires
        ctx.wf(),
        ctx.recover_outcome(r, indices, cells),
        indices.len() == cells.len(),
        wrong_size_at(cells, scalars_size(ctx.cell_len as int), i),
    ensures
        r is Err,
        r->Err_0 is CellDoesNotContainEnoughBytes,
        r->Err_0.is_serialization_failure(),
{
}

/// Verification is a function of its input: two answers to one batch, by
/// one verifier, accept alike, and call the proofs invalid alike. The check
/// of one cell is the check of the batch of that one entry.
pub proof fn lemma_verification_is_determined(
    ctx: &VerifierContext,
    first: Result<(), VerifierError>,
    second: Result<(), VerifierError>,
    commitments: Seq<Seq<u8>>,
    rows: Seq<u64>,
    cols: Seq<u64>,
    cells: Seq<Seq<u8>>,
    proofs: Seq<Seq<u8>>,
)
    requires
        ctx.wf(),
        ctx.batch_outcome(first, commitments, rows, cols, cells, proofs),
        ctx.batch_outcome(second, commitments, rows, cols, cells, proofs),
    ensures
        first is Ok <==> second is Ok,
        (first is Err && first->Err_0 is InvalidProof) <==> (second is Err && second->Err_0
            is InvalidProof),
{
}

/// "The proof is invalid" is an answer, not a failure to answer: a batch is
/// called invalid only if it has the right shape, decodes, and fails the
/// equation.
pub proof fn lemma_invalid_proof_means_the_equation_fails(
    ctx: &VerifierContext,
    commitments: Seq<Seq<u8>>,
    rows: Seq<u64>,
    cols: Seq<u64>,
    cells: Seq<Seq<u8>>,
    proofs: Seq<Seq<u8>>,
)
    requires
        ctx.wf(),
        ctx.batch_outcome(
            Err::<(), VerifierError>(VerifierError::InvalidProof),
            commitments,
            rows,
            cols,
            cells,
            proofs,
        ),
    ensures
        ctx.batch_shape_ok(commitments, rows, cols, cells, proofs),
        ctx.batch_decodes(commitments, cells, proofs),
        !ctx.batch_valid(commitments, rows, cols, cells, proofs),
{
}

/// The polynomial of a blob takes the scalars of the blob as its values:
/// over the domain of the blob, in bit-reversed order.
pub proof fn lemma_blob_polynomial_interpolates(ctx: &ProverContext, blob: Seq<u8>)
    requires
        ctx.wf(),
        encodes_scalars_exactly(blob, ctx.blob_len as int),
    ensures
        crate::domain::dft_spec(
            ctx.blob_poly_spec(blob),
            ctx.poly_domain.omega(),
            ctx.blob_len as nat,
        ) == crate::permutation::bit_reversed(decoded_scalars(blob)),
{
    let n = ctx.blob_len as int;
    let scalars = decoded_scalars(blob);
    let x = crate::permutation::bit_reversed(scalars);
    ctx.poly_domain.lemma_wf_facts();
    assert(crate::domain::all_residues(x)) by {
        assert forall|i: int| 0 <= i < x.len() implies crate::field::is_residue(#[trigger] x[i]) by {
            crate::permutation::lemma_rev_index_range(i, n);
            let j = crate::permutation::rev_index(i, n);
            let chunk = crate::serialization::scalar_chunk(blob, j);
            assert(scalars[j] == crate::field::be_value(chunk));
            crate::field::lemma_le_value_nonneg(chunk.reverse());
        }
    }
    crate::domain::lemma_ifft_spec_inverts(x, ctx.poly_domain.omega(), ctx.poly_domain.omega_inv());
}

/// The extension of a blob begins with the blob: the first scalars of the
/// extension of the polynomial of a blob, as many as the blob has, are the
/// scalars of the blob.
pub proof fn lemma_extension_begins_with_the_blob(ctx: &ProverContext, blob: Seq<u8>)
    requires
        ctx.wf(),
        encodes_scalars_exactly(blob, ctx.blob_len as int),
    ensures
        ctx.extension_spec(ctx.blob_poly_spec(blob)).subrange(0, ctx.blob_len as int)
            == decoded_scalars(blob),
{
    let n = ctx.blob_len as int;
    let c = ctx.blob_poly_spec(blob);
    let w2 = ctx.ext_domain.omega();
    let w = ctx.poly_domain.omega();
    let scalars = decoded_scalars(blob);
    let ext = ctx.extension_spec(c);
    lemma_blob_polynomial_interpolates(ctx, blob);
    crate::domain::lemma_primitive_root_square(n);
    crate::domain::lemma_pow2_double(n);
    assert(crate::domain::is_pow2(2)) by {
        reveal_with_fuel(crate::domain::is_pow2, 3);
    }
    assert forall|p: int| 0 <= p < n implies ext[p] == scalars[p] by {
        let r = crate::permutation::rev_index(p, n);
        crate::permutation::lemma_rev_index_range(p, n);
        crate::permutation::lemma_rev_index_involution(p, n);
        // the reversal over twice the length is twice the reversal
        crate::permutation::lemma_rev_index_split(0, p, 2, n);
        assert(crate::permutation::rev_index(0, 2) == 0) by {
            reveal_with_fuel(crate::permutation::rev_index, 3);
        }
        assert(0 * n + p == p);
        assert(crate::permutation::rev_index(p, 2 * n) == r * 2);
        // the even powers of the root of the extension are the powers of
        // the root of the blob
        crate::field::lemma_fpow_of_product(w2, w2, r as nat);
        crate::field::lemma_fpow_add(w2, r as nat, r as nat);
        assert((r * 2) as nat == r as nat + r as nat);
        assert(crate::domain::dft_spec(c, w, n as nat)[r] == crate::permutation::bit_reversed(
            scalars,
        )[r]);
    }
    assert(ext.subrange(0, n) =~= scalars);
}

/// The first half of the cells of a blob is the blob: cell `t` of the first
/// half holds the bytes of the blob from `32 t cell_len` on.
pub proof fn lemma_first_cells_are_the_blob(
    ctx: &ProverContext,
    blob: Seq<u8>,
    cells: Seq<Seq<u8>>,
    t: int,
)
    requires
        ctx.wf(),
        encodes_scalars_exactly(blob, ctx.blob_len as int),
        ctx.cells_encode(cells, ctx.blob_poly_spec(blob)),
        0 <= t < ctx.min_cells(),
    ensures
        cells[t] == blob.subrange(32 * (t * ctx.cell_len), 32 * ((t + 1) * ctx.cell_len)),
{
    let n = ctx.blob_len as int;
    let l = ctx.cell_len as int;
    let k = n / l;
    let c = ctx.blob_poly_spec(blob);
    let from = t * l;
    crate::domain::lemma_pow2_positive(l);
    assert(from + l <= n && 0 <= from && (t + 1) * l == from + l) by (nonlinear_arith)
        requires
            0 <= t < k,
            n == k * l,
            l >= 1,
            from == t * l,
    ;
    let part = blob.subrange(32 * from, 32 * (from + l));
    lemma_extension_begins_with_the_blob(ctx, blob);
    let ext = ctx.extension_spec(c);
    let scalars = decoded_scalars(blob);
    assert(decoded_scalars(part) =~= ctx.cell_spec(c, t)) by {
        assert forall|i: int| 0 <= i < l implies decoded_scalars(part)[i] == ctx.cell_spec(c, t)[i] by {
            assert(crate::serialization::scalar_chunk(part, i) =~= crate::serialization::scalar_chunk(
                blob,
                from + i,
            ));
            assert(ext.subrange(0, n)[from + i] == scalars[from + i]);
        }
    }
    assert(encodes_scalars_exactly(cells[t], l));
    crate::serialization::lemma_decoded_scalars_injective(cells[t], part);
}

/// The scalar at a position of the extension is the value of the polynomial
/// at the point of that position.
pub proof fn lemma_extension_holds_the_values(ctx: &ProverContext, coeffs: Seq<int>, position: int)
    requires
        ctx.wf(),
        0 <= position < 2 * ctx.blob_len,
    ensures
        ctx.extension_spec(coeffs)[position] == crate::polynomial::poly_eval_spec(
            coeffs,
            ctx.point_of(position),
        ),
{
    crate::domain::lemma_pow2_double(ctx.blob_len as int);
    crate::permutation::lemma_rev_index_range(position, 2 * ctx.blob_len);
}

/// A point of a coset, divided by the first point of the coset, is a power
/// of the root of a cell: with `mu` the power `count` of `w`, the power
/// `r * count + s` of `w` times the power `s` of the inverse of `w` is the
/// power `r` of `mu`.
proof fn lemma_point_of_coset(w: int, wi: int, mu: int, count: nat, r: nat, s: nat)
    requires
        crate::field::fmul(w, wi) == 1,
        crate::field::fpow(w, count) == mu,
    ensures
        crate::field::fmul(crate::field::fpow(wi, s), crate::field::fpow(w, r * count + s))
            == crate::field::fpow(mu, r),
{
    let h = crate::field::fpow(w, s);
    let hinv = crate::field::fpow(wi, s);
    let m = crate::field::fpow(mu, r);
    crate::field::lemma_fpow_mul(w, count, r);
    assert(count * r == r * count) by (nonlinear_arith);
    crate::field::lemma_fpow_add(w, r * count, s);
    crate::field::lemma_fpow_of_product(w, wi, s);
    crate::algebra::lemma_fpow_of_one(s);
    crate::field::lemma_fpow_range(mu, r);
    crate::field::lemma_fmul_comm(m, h);
    crate::field::lemma_fmul_assoc(hinv, h, m);
    crate::field::lemma_fmul_comm(hinv, h);
    crate::field::lemma_fmul_one(m);
}

/// Interpolation over a coset: the inverse transform of `x`, with
/// coefficient `i` multiplied by the power `i` of `hinv`, has the value
/// `x[r]` at a point whose product with `hinv` is the power `r` of the root.
proof fn lemma_interpolation_over_coset(x: Seq<int>, mu: int, mui: int, hinv: int, point: int, r: int)
    requires
        crate::domain::is_pow2(x.len() as int),
        crate::domain::all_residues(x),
        crate::field::fmul(mu, mui) == 1,
        x.len() >= 2 ==> crate::field::fpow(mu, (x.len() / 2) as nat) == crate::field::modulus() - 1,
        0 <= r < x.len(),
        crate::field::fmul(hinv, point) == crate::field::fpow(mu, r as nat),
    ensures
        crate::polynomial::poly_eval_spec(
            crate::evaluation::scaled_by_powers(
                crate::domain::ifft_spec(x, mui, crate::domain::inverse_of_two()),
                hinv,
            ),
            point,
        ) == x[r],
{
    let a = crate::domain::ifft_spec(x, mui, crate::domain::inverse_of_two());
    crate::domain::lemma_ifft_spec_inverts(x, mu, mui);
    crate::evaluation::lemma_eval_scaled_by_powers(a, hinv, point);
    assert(crate::domain::dft_spec(a, mu, x.len())[r] == x[r]);
}

/// The position of a scalar of a cell, reversed over the extension: the
/// digits of the position in the cell come first, those of the cell last.
proof fn lemma_position_in_cell(t: int, j: int, l: int, k: int, n: int)
    requires
        crate::domain::is_pow2(l),
        crate::domain::is_pow2(k),
        n == k * l,
        0 <= t < 2 * k,
        0 <= j < l,
    ensures
        0 <= t * l + j < 2 * n,
        (2 * n) / l == 2 * k,
        crate::permutation::rev_index(t * l + j, 2 * n) == crate::permutation::rev_index(j, l) * (2
            * k) + crate::permutation::rev_index(t, 2 * k),
        0 <= crate::permutation::rev_index(j, l) < l,
        0 <= crate::permutation::rev_index(t, 2 * k) < 2 * k,
        0 <= crate::permutation::rev_index(t * l + j, 2 * n) < 2 * n,
        crate::permutation::rev_index(crate::permutation::rev_index(j, l), l) == j,
{
    crate::domain::lemma_pow2_positive(l);
    crate::domain::lemma_pow2_positive(k);
    crate::domain::lemma_pow2_double(k);
    assert(2 * n == (2 * k) * l) by (nonlinear_arith)
        requires
            n == k * l,
    ;
    assert(t * l + l <= 2 * n && 0 <= t * l) by (nonlinear_arith)
        requires
            0 <= t < 2 * k,
            2 * n == (2 * k) * l,
            l >= 1,
    ;
    vstd::arithmetic::div_mod::lemma_fundamental_div_mod_converse(2 * n, l, 2 * k, 0);
    crate::permutation::lemma_rev_index_range(j, l);
    crate::permutation::lemma_rev_index_range(t, 2 * k);
    crate::permutation::lemma_rev_index_involution(j, l);
    crate::permutation::lemma_rev_index_split(t, j, 2 * k, l);
    let r = crate::permutation::rev_index(j, l);
    let s = crate::permutation::rev_index(t, 2 * k);
    assert(0 <= r * (2 * k) + s < 2 * n) by (nonlinear_arith)
        requires
            0 <= r < l,
            0 <= s < 2 * k,
            2 * n == (2 * k) * l,
    ;
}

/// Interpolation of a cell: over a root `w` of the extension and a root
/// `mu` of a cell, the polynomial interpolated from cell `t` of the
/// extension of `coeffs` has, at the point of position `j` of the cell, the
/// value of `coeffs`.
proof fn lemma_cell_interpolation(
    coeffs: Seq<int>,
    w: int,
    wi: int,
    mu: int,
    mui: int,
    l: int,
    k: int,
    n: int,
    t: int,
    j: int,
)
    requires
        crate::domain::is_pow2(l),
        crate::domain::is_pow2(k),
        n == k * l,
        0 <= t < 2 * k,
        0 <= j < l,
        crate::field::fmul(w, wi) == 1,
        crate::field::fpow(w, (2 * k) as nat) == mu,
        crate::field::fmul(mu, mui) == 1,
        l >= 2 ==> crate::field::fpow(mu, (l / 2) as nat) == crate::field::modulus() - 1,
    ensures
        ({
            let ext = crate::permutation::bit_reversed(crate::domain::dft_spec(coeffs, w, (2 * n) as nat));
            let cell = ext.subrange(t * l, (t + 1) * l);
            let point = crate::field::fpow(w, crate::permutation::rev_index(t * l + j, 2 * n) as nat);
            let hinv = crate::field::fpow(wi, crate::permutation::rev_index(t, 2 * k) as nat);
            crate::polynomial::poly_eval_spec(
                crate::evaluation::scaled_by_powers(
                    crate::domain::ifft_spec(
                        crate::permutation::bit_reversed(cell),
                        mui,
                        crate::domain::inverse_of_two(),
                    ),
                    hinv,
                ),
                point,
            ) == crate::polynomial::poly_eval_spec(coeffs, point)
        }),
{
    let ext = crate::permutation::bit_reversed(crate::domain::dft_spec(coeffs, w, (2 * n) as nat));
    let cell = ext.subrange(t * l, (t + 1) * l);
    let x = crate::permutation::bit_reversed(cell);
    let r = crate::permutation::rev_index(j, l);
    let s = crate::permutation::rev_index(t, 2 * k);
    let point = crate::field::fpow(w, crate::permutation::rev_index(t * l + j, 2 * n) as nat);
    let hinv = crate::field::fpow(wi, s as nat);
    lemma_position_in_cell(t, j, l, k, n);
    lemma_position_in_cell(t, 0, l, k, n);
    lemma_position_in_cell(t, l - 1, l, k, n);
    assert((t + 1) * l == t * l + l) by (nonlinear_arith);
    assert(cell.len() == l);
    assert(crate::domain::all_residues(x)) by {
        assert forall|i: int| 0 <= i < x.len() implies crate::field::is_residue(#[trigger] x[i]) by {
            crate::permutation::lemma_rev_index_range(i, l);
            let q = crate::permutation::rev_index(i, l);
            lemma_position_in_cell(t, q, l, k, n);
            let pos = t * l + q;
            assert(x[i] == ext[pos]);
            crate::polynomial::lemma_poly_eval_range(
                coeffs,
                crate::field::fpow(w, crate::permutation::rev_index(pos, 2 * n) as nat),
            );
        }
    }
    assert(x[r] == cell[j]);
    assert(cell[j] == ext[t * l + j]);
    assert(ext[t * l + j] == crate::polynomial::poly_eval_spec(coeffs, point));
    crate::domain::lemma_pow2_positive(k);
    assert(r * (2 * k) >= 0) by (nonlinear_arith)
        requires
            r >= 0,
            k >= 1,
    ;
    lemma_point_of_coset(w, wi, mu, (2 * k) as nat, r as nat, s as nat);
    lemma_interpolation_over_coset(x, mu, mui, hinv, point, r);
}

/// The verifier interpolates what the prover evaluated: the polynomial
/// that the verifier interpolates from a cell of a polynomial has, at each
/// point of the cell, the value of that polynomial.
pub proof fn lemma_interpolation_agrees_on_the_cell(
    p: &ProverContext,
    v: &VerifierContext,
    coeffs: Seq<int>,
    t: int,
    j: int,
)
    requires
        p.wf(),
        v.wf(),
        p.blob_len == v.blob_len,
        p.cell_len == v.cell_len,
        0 <= t < p.num_cells(),
        0 <= j < p.cell_len,
    ensures
        crate::polynomial::poly_eval_spec(
            v.interpolation_spec(p.cell_spec(coeffs, t), t),
            p.point_of(t * p.cell_len + j),
        ) == crate::polynomial::poly_eval_spec(coeffs, p.point_of(t * p.cell_len + j)),
{
    let n = p.blob_len as int;
    let l = p.cell_len as int;
    let k = n / l;
    v.ext_domain.lemma_wf_facts();
    v.cell_domain.lemma_wf_facts();
    crate::domain::lemma_pow2_double(n);
    crate::domain::lemma_primitive_root_power(2 * n, l);
    lemma_position_in_cell(t, j, l, k, n);
    lemma_cell_interpolation(
        coeffs,
        p.ext_domain.omega(),
        v.ext_domain.omega_inv(),
        v.cell_domain.omega(),
        v.cell_domain.omega_inv(),
        l,
        k,
        n,
        t,
        j,
    );
}

/// Recovery never answers with other cells than it was given: where it
/// succeeds, the cells that it returns are, at every index that was
/// supplied, the very bytes that were supplied there.
pub proof fn lemma_recovery_returns_the_supplied_cells(
    ctx: &ProverContext,
    indices: Seq<u64>,
    cells: Seq<Seq<u8>>,
    all_cells: Seq<Seq<u8>>,
    idx: int,
)
    requires
        ctx.wf(),
        ctx.recovers(indices, cells),
        ctx.cells_encode(all_cells, ctx.recovered_poly(indices, cells)),
        0 <= idx < indices.len(),
    ensures
        indices[idx] < all_cells.len(),
        all_cells[indices[idx] as int] == cells[idx],
{
    lemma_recovery_keeps_the_supplied_cells(ctx, indices, cells, all_cells, idx);
    assert(!crate::validation::out_of_range_at(indices, ctx.num_cells(), idx));
    assert(!wrong_size_at(cells, scalars_size(ctx.cell_len as int), idx));
    crate::serialization::lemma_decoded_scalars_injective(all_cells[indices[idx] as int], cells[idx]);
}

/// Where recovery succeeds, the cells of the polynomial that it found hold,
/// at every index that was supplied, the scalars that were supplied there.
pub proof fn lemma_recovery_keeps_the_supplied_cells(
    ctx: &ProverContext,
    indices: Seq<u64>,
    cells: Seq<Seq<u8>>,
    all_cells: Seq<Seq<u8>>,
    idx: int,
)
    requires
        ctx.wf(),
        ctx.recovers(indices, cells),
        ctx.cells_encode(all_cells, ctx.recovered_poly(indices, cells)),
        0 <= idx < indices.len(),
    ensures
        decoded_scalars(all_cells[indices[idx] as int]) == decoded_scalars(cells[idx]),
{
    let l = ctx.cell_len as int;
    let c = ctx.recovered_poly(indices, cells);
    let ext = ctx.extension_spec(c);
    let t = indices[idx] as int;
    assert(!crate::validation::out_of_range_at(indices, ctx.num_cells(), idx));
    assert(!wrong_size_at(cells, scalars_size(l), idx));
    let got = decoded_scalars(all_cells[t]);
    let given = decoded_scalars(cells[idx]);
    assert(got == ctx.cell_spec(c, t));
    assert(cells[idx].len() == 32 * l);
    assert(given.len() == l);
    crate::domain::lemma_pow2_positive(l);
    crate::domain::lemma_pow2_positive(ctx.blob_len as int / l);
    assert((t + 1) * l <= 2 * ctx.blob_len) by (nonlinear_arith)
        requires
            0 <= t < 2 * (ctx.blob_len as int / l),
            ctx.blob_len == (ctx.blob_len as int / l) * l,
            l >= 1,
    ;
    assert(t * l + l == (t + 1) * l) by (nonlinear_arith);
    assert forall|j: int| 0 <= j < l implies got[j] == given[j] by {
        assert(agrees_at(ext, l, indices, decoded_cells(cells), idx, j));
        assert(decoded_cells(cells)[idx] == given);
    }
    assert(got =~= given);
}

} // verus!
