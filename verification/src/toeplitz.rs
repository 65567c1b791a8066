//! Toeplitz matrices over the scalar field, and their embedding into
//! circulant matrices of twice the size.

use crate::field::{values, Scalar};
use crate::group::{encodings, g1_lincomb, g1_lincomb_spec, G1Point};
use vstd::prelude::*;

verus! {

/// A square matrix that is constant along its diagonals, given by its first
/// row and its first column.
pub struct ToeplitzMatrix {
    pub row: Vec<Scalar>,
    pub col: Vec<Scalar>,
}

/// A square matrix in which each column is the one before it rotated down by
/// one, given by its first column.
pub struct CirculantMatrix {
    pub row: Vec<Scalar>,
}

/// The entry of the Toeplitz matrix with first row `row` and first column
/// `col` at line `i` and column `j`.
pub open spec fn toeplitz_entry(row: Seq<int>, col: Seq<int>, i: int, j: int) -> int {
    if i >= j {
        col[i - j]
    } else {
        row[j - i]
    }
}

/// Line `i` of the Toeplitz matrix.
pub open spec fn toeplitz_line(row: Seq<int>, col: Seq<int>, i: int) -> Seq<int> {
    Seq::new(row.len(), |j: int| toeplitz_entry(row, col, i, j))
}

/// The product of the Toeplitz matrix with a vector of points: item `i` is
/// the linear combination of the points with line `i` of the matrix.
pub open spec fn toeplitz_product_spec(row: Seq<int>, col: Seq<int>, v: Seq<Seq<u8>>) -> Seq<Seq<u8>> {
    Seq::new(row.len(), |i: int| g1_lincomb_spec(v, toeplitz_line(row, col, i)))
}

/// The first column of the circulant matrix of twice the size whose upper
/// left quarter is the Toeplitz matrix: the column, then the first item of
/// the row, then the rest of the row backwards.
pub open spec fn circulant_embedding(row: Seq<int>, col: Seq<int>) -> Seq<int> {
    Seq::new(
        2 * row.len(),
        |i: int|
            if i < row.len() {
                col[i]
            } else if i == row.len() {
                row[0]
            } else {
                row[2 * row.len() - i]
            },
    )
}

impl ToeplitzMatrix {
    /// The matrix has as many lines as columns, and at least one.
    pub open spec fn wf(&self) -> bool {
        self.row.len() == self.col.len() && self.row.len() > 0
    }

    /// The number of lines of the matrix.
    pub open spec fn order(&self) -> int {
        self.row.len() as int
    }

    /// The matrix with the given first row and first column.
    pub fn new(row: Vec<Scalar>, col: Vec<Scalar>) -> (r: ToeplitzMatrix)
        requires
            row.len() == col.len(),
            row.len() > 0,
        ensures
            r.wf(),
            r.row == row,
            r.col == col,
    {
        ToeplitzMatrix { row, col }
    }

    /// The product of the matrix with a vector of points, line by line.
    pub fn vector_mul_g1(&self, vector: Vec<G1Point>) -> (r: Vec<G1Point>)
        requires
            self.wf(),
            vector.len() == self.order(),
        ensures
            encodings(r@) == toeplitz_product_spec(
                values(self.row@),
                values(self.col@),
                encodings(vector@),
            ),
    {
        let n = self.row.len();
        let ghost vr = values(self.row@);
        let ghost vc = values(self.col@);
        let mut out: Vec<G1Point> = Vec::new();
        let mut i: usize = 0;
        while i < n
            invariant
                i <= n,
                n == self.row.len(),
                n == self.col.len(),
                n == vector.len(),
                vr == values(self.row@),
                vc == values(self.col@),
                out.len() == i,
                forall|k: int|
                    0 <= k < i ==> (#[trigger] out@[k])@ == g1_lincomb_spec(
                        encodings(vector@),
                        toeplitz_line(vr, vc, k),
                    ),
            decreases n - i,
        {
            let mut line: Vec<Scalar> = Vec::new();
            let mut j: usize = 0;
            while j < n
                invariant
                    j <= n,
                    i < n,
                    n == self.row.len(),
                    n == self.col.len(),
                    vr == values(self.row@),
                    vc == values(self.col@),
                    line.len() == j,
                    forall|k: int|
                        0 <= k < j ==> (#[trigger] line@[k]).value() == toeplitz_entry(vr, vc, i as int, k),
                decreases n - j,
            {
                if i >= j {
                    line.push(self.col[i - j]);
                } else {
                    line.push(self.row[j - i]);
                }
                j += 1;
            }
            assert(values(line@) =~= toeplitz_line(vr, vc, i as int));
            out.push(g1_lincomb(&vector, &line));
            i += 1;
        }
        assert(encodings(out@) =~= toeplitz_product_spec(vr, vc, encodings(vector@)));
        out
    }
}

impl CirculantMatrix {
    /// The circulant matrix of twice the size that holds the Toeplitz matrix
    /// in its upper left quarter.
    pub fn from_toeplitz(tm: ToeplitzMatrix) -> (r: CirculantMatrix)
        requires
            tm.wf(),
            2 * tm.order() <= usize::MAX,
        ensures
            values(r.row@) == circulant_embedding(values(tm.row@), values(tm.col@)),
            r.row.len() == 2 * tm.order(),
    {
        let n = tm.row.len();
        let ghost vr = values(tm.row@);
        let ghost vc = values(tm.col@);
        let mut out: Vec<Scalar> = Vec::new();
        let mut i: usize = 0;
        while i < 2 * n
            invariant
                i <= 2 * n,
                2 * n <= usize::MAX,
                n > 0,
                n == tm.row.len(),
                n == tm.col.len(),
                vr == values(tm.row@),
                vc == values(tm.col@),
                out.len() == i,
                forall|k: int| 0 <= k < i ==> (#[trigger] out@[k]).value() == circulant_embedding(vr, vc)[k],
            decreases 2 * n - i,
        {
            if i < n {
                out.push(tm.col[i]);
            } else if i == n {
                out.push(tm.row[0]);
            } else {
                out.push(tm.row[2 * n - i]);
            }
            i += 1;
        }
        assert(values(out@) =~= circulant_embedding(vr, vc));
        CirculantMatrix { row: out }
    }
}

} // verus!
