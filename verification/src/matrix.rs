//! The trace matrix: an ordered set of equal-length columns of field
//! elements, with interpolation, evaluation, row commitment and row access.
//!
//! Each pipeline stage consumes one matrix and yields a new one; a matrix
//! is never mutated in place across stages.

use vstd::prelude::*;
use vstd::bytes::{spec_u64_to_le_bytes, u64_to_le_bytes};
use crate::field::{
    Felt, p, fadd, fmul, fpow, finv, lemma_fpow_zero, lemma_fpow_step, lemma_fmul_one,
};
use crate::domain::EvaluationDomain;
use crate::utils::{poly_eval, horner_evaluate, lemma_step_power};
use crate::hashing::{sha256, sha256_of, extend_bytes};
use crate::merkle::{MerkleTree, is_power_of_two};

verus! {

/// The sum, in the field, of the entries at row `i` of every column.
pub open spec fn col_sum(cols: Seq<Seq<Felt>>, i: int) -> int
    decreases cols.len(),
{
    if cols.len() == 0 {
        0int
    } else {
        fadd(col_sum(cols.drop_last(), i), cols.last()[i].val())
    }
}

/// The index of the highest nonzero entry of a coefficient column — its
/// degree when read as a polynomial — or zero if all entries are zero.
pub open spec fn last_nonzero(c: Seq<Felt>) -> int
    decreases c.len(),
{
    if c.len() == 0 {
        0int
    } else if c.last().val() != 0 {
        c.len() - 1
    } else {
        last_nonzero(c.drop_last())
    }
}

/// The coefficient `j` that interpolation over `size` points with
/// subgroup generator `g` and coset offset `o` assigns to the value
/// column `v`: `size^-1 * o^-j * (v[0] + v[1] * g^-j + v[2] * g^-2j + ...)`.
pub open spec fn interp_coeff(v: Seq<Felt>, size: u64, g: int, o: int, j: nat) -> int {
    fmul(finv(size as int), fmul(fpow(finv(o), j), poly_eval(v, fpow(finv(g), j))))
}

/// The serialization of one matrix row: each entry's canonical
/// representative in eight little-endian bytes, in column order.
pub open spec fn row_bytes(row: Seq<Felt>) -> Seq<u8>
    decreases row.len(),
{
    if row.len() == 0 {
        Seq::empty()
    } else {
        row_bytes(row.drop_last()) + spec_u64_to_le_bytes(row.last().val() as u64)
    }
}

/// The row `i` of a column-major matrix view.
pub open spec fn row_of(cols: Seq<Seq<Felt>>, i: int) -> Seq<Felt> {
    Seq::new(cols.len(), |j: int| cols[j][i])
}

/// The leaf digests that a row commitment hashes: one digest per row.
pub open spec fn row_leaves(cols: Seq<Seq<Felt>>, num_rows: nat) -> Seq<Seq<u8>> {
    Seq::new(num_rows, |i: int| sha256_of(row_bytes(row_of(cols, i))))
}

/// Why a matrix could not be converted into a single column.
#[derive(Clone, Copy, Debug, PartialEq, Eq, Structural)]
pub enum MatrixError {
    /// The matrix has no columns.
    NoColumns,
    /// The matrix has more than one column.
    ManyColumns,
}

/// A matrix of field elements as an array of equal-length columns.
pub struct Matrix {
    cols: Vec<Vec<Felt>>,
}

impl Matrix {
    /// The columns, each a sequence of field elements.
    pub closed spec fn columns(self) -> Seq<Seq<Felt>> {
        Seq::new(self.cols@.len(), |j: int| self.cols@[j]@)
    }

    /// The number of columns.
    pub open spec fn num_cols_spec(self) -> nat {
        self.columns().len()
    }

    /// The number of rows (zero for a matrix without columns).
    pub open spec fn num_rows_spec(self) -> nat {
        if self.num_cols_spec() == 0 {
            0nat
        } else {
            self.columns()[0].len()
        }
    }

    /// All columns have the same length.
    pub open spec fn wf(self) -> bool {
        forall|j: int|
            0 <= j < self.num_cols_spec() ==> (#[trigger] self.columns()[j]).len()
                == self.num_rows_spec()
    }

    /// Builds a matrix from its columns.
    pub fn new(cols: Vec<Vec<Felt>>) -> (r: Matrix)
        requires
            forall|j: int|
                0 <= j < cols@.len() ==> (#[trigger] cols@[j])@.len() == cols@[0]@.len(),
        ensures
            r.wf(),
            r.num_cols_spec() == cols@.len(),
            forall|j: int| 0 <= j < cols@.len() ==> (#[trigger] r.columns()[j]) == cols@[j]@,
    {
        Matrix { cols }
    }

    /// Builds a matrix from its rows; every row must have the same length.
    pub fn from_rows(rows: Vec<Vec<Felt>>) -> (r: Matrix)
        requires
            forall|i: int|
                0 <= i < rows@.len() ==> (#[trigger] rows@[i])@.len() == rows@[0]@.len(),
        ensures
            r.wf(),
            r.num_rows_spec() == (if rows@.len() == 0 || rows@[0]@.len() == 0 {
                0int
            } else {
                rows@.len() as int
            }),
            r.num_cols_spec() == (if rows@.len() == 0 { 0int } else { rows@[0]@.len() as int }),
            forall|i: int, j: int|
                0 <= i < rows@.len() && 0 <= j < rows@[0]@.len() ==> (#[trigger] r.columns()[j][i])
                    == rows@[i]@[j],
    {
        let num_rows = rows.len();
        let num_cols = if num_rows == 0 {
            0
        } else {
            rows[0].len()
        };
        let mut cols: Vec<Vec<Felt>> = Vec::new();
        for j in 0..num_cols
            invariant
                num_rows == rows@.len(),
                num_cols == (if rows@.len() == 0 { 0int } else { rows@[0]@.len() as int }),
                num_cols > 0 ==> num_rows > 0,
                forall|i: int|
                    0 <= i < rows@.len() ==> (#[trigger] rows@[i])@.len() == rows@[0]@.len(),
                cols@.len() == j,
                forall|a: int| 0 <= a < j ==> (#[trigger] cols@[a])@.len() == num_rows,
                forall|a: int, i: int|
                    0 <= a < j && 0 <= i < num_rows ==> (#[trigger] cols@[a]@[i]) == rows@[i]@[a],
        {
            let mut col: Vec<Felt> = Vec::new();
            for i in 0..num_rows
                invariant
                    num_rows == rows@.len(),
                    num_rows > 0,
                    j < num_cols,
                    num_cols == rows@[0]@.len(),
                    forall|a: int|
                        0 <= a < rows@.len() ==> (#[trigger] rows@[a])@.len() == rows@[0]@.len(),
                    col@.len() == i,
                    forall|a: int| 0 <= a < i ==> (#[trigger] col@[a]) == rows@[a]@[j as int],
            {
                col.push(rows[i][j]);
            }
            cols.push(col);
        }
        Matrix { cols }
    }

    /// The number of rows; all columns share it.
    pub fn num_rows(&self) -> (r: usize)
        requires
            self.wf(),
        ensures
            r == self.num_rows_spec(),
    {
        if self.cols.len() == 0 {
            return 0;
        }
        self.cols[0].len()
    }

    /// The number of columns.
    pub fn num_cols(&self) -> (r: usize)
        ensures
            r == self.num_cols_spec(),
    {
        self.cols.len()
    }

    /// Whether the matrix has no rows.
    pub fn is_empty(&self) -> (r: bool)
        requires
            self.wf(),
        ensures
            r <==> self.num_rows_spec() == 0,
    {
        self.num_rows() == 0
    }

    /// A borrow of column `j`.
    pub fn col(&self, j: usize) -> (r: &Vec<Felt>)
        requires
            j < self.num_cols_spec(),
        ensures
            r@ == self.columns()[j as int],
    {
        &self.cols[j]
    }

    /// Moves the columns of `other` onto the end of this matrix.
    pub fn append(&mut self, other: Matrix)
        requires
            old(self).wf(),
            other.wf(),
            old(self).num_cols_spec() == 0 || other.num_cols_spec() == 0 || old(
                self,
            ).num_rows_spec() == other.num_rows_spec(),
        ensures
            final(self).wf(),
            final(self).columns() == old(self).columns() + other.columns(),
    {
        let ghost self0 = self.columns();
        let ghost others = other.columns();
        let n = other.cols.len();
        let mut rest = other.cols;
        for k in 0..n
            invariant
                n == rest@.len() + k,
                n == others.len(),
                self.columns().len() == self0.len() + k,
                forall|j: int| 0 <= j < self0.len() ==> (#[trigger] self.columns()[j]) == self0[j],
                forall|j: int|
                    self0.len() <= j < self0.len() + k ==> (#[trigger] self.columns()[j])
                        == others[j - self0.len()],
                forall|j: int|
                    0 <= j < rest@.len() ==> (#[trigger] rest@[j])@ == others[j + k],
        {
            let c = rest.remove(0);
            let ghost pre = self.columns();
            self.cols.push(c);
            proof {
                assert forall|j: int| 0 <= j < pre.len() implies #[trigger] self.columns()[j]
                    == pre[j] by {
                    assert(self.columns()[j] == self.cols@[j]@);
                }
                assert(self.columns()[pre.len() as int] == c@);
            }
        }
        proof {
            assert(self.columns() =~= self0 + others);
        }
    }

    /// Concatenates the columns of all the matrices, in order.
    pub fn join(matrices: Vec<Matrix>) -> (r: Matrix)
        requires
            forall|k: int| 0 <= k < matrices@.len() ==> (#[trigger] matrices@[k]).wf(),
            forall|k1: int, k2: int|
                0 <= k1 < matrices@.len() && 0 <= k2 < matrices@.len() && matrices@[k1]
                    .num_cols_spec() > 0 && matrices@[k2].num_cols_spec() > 0 ==> matrices@[k1]
                    .num_rows_spec() == matrices@[k2].num_rows_spec(),
        ensures
            r.wf(),
            r.columns() == join_columns(matrices@),
    {
        let ghost ms = matrices@;
        let mut accumulator = Matrix { cols: Vec::new() };
        let mut rest = matrices;
        let n = rest.len();
        proof {
            assert(accumulator.columns() =~= join_columns(ms.take(0)));
        }
        for k in 0..n
            invariant
                n == ms.len(),
                rest@.len() + k == n,
                forall|j: int| 0 <= j < rest@.len() ==> (#[trigger] rest@[j]) == ms[j + k],
                forall|j: int| 0 <= j < ms.len() ==> (#[trigger] ms[j]).wf(),
                forall|k1: int, k2: int|
                    0 <= k1 < ms.len() && 0 <= k2 < ms.len() && ms[k1].num_cols_spec() > 0
                        && ms[k2].num_cols_spec() > 0 ==> ms[k1].num_rows_spec() == ms[k2]
                        .num_rows_spec(),
                accumulator.wf(),
                accumulator.columns() == join_columns(ms.take(k as int)),
                accumulator.num_cols_spec() > 0 ==> exists|k0: int|
                    0 <= k0 < k && (#[trigger] ms[k0]).num_cols_spec() > 0 && ms[k0].num_rows_spec()
                        == accumulator.num_rows_spec(),
        {
            let m = rest.remove(0);
            proof {
                if accumulator.num_cols_spec() > 0 && m.num_cols_spec() > 0 {
                    let k0 = choose|k0: int|
                        0 <= k0 < k && (#[trigger] ms[k0]).num_cols_spec() > 0 && ms[k0]
                            .num_rows_spec() == accumulator.num_rows_spec();
                    assert(ms[k0].num_rows_spec() == ms[k as int].num_rows_spec());
                }
            }
            let ghost acc0 = accumulator.columns();
            let ghost acc_rows0 = accumulator.num_rows_spec();
            let ghost acc_cols0 = accumulator.num_cols_spec();
            accumulator.append(m);
            proof {
                lemma_join_columns_step(ms, k as int);
                assert(accumulator.columns() == join_columns(ms.take(k + 1)));
                if accumulator.num_cols_spec() > 0 {
                    if acc_cols0 > 0 {
                        let k0 = choose|k0: int|
                            0 <= k0 < k && (#[trigger] ms[k0]).num_cols_spec() > 0 && ms[k0]
                                .num_rows_spec() == acc_rows0;
                        assert(accumulator.columns()[0] == acc0[0]);
                        assert(0 <= k0 < k + 1 && ms[k0].num_cols_spec() > 0 && ms[k0]
                            .num_rows_spec() == accumulator.num_rows_spec());
                    } else {
                        assert(accumulator.columns()[0] == ms[k as int].columns()[0]);
                        assert(0 <= k < k + 1 && ms[k as int].num_cols_spec() > 0 && ms[k as int]
                            .num_rows_spec() == accumulator.num_rows_spec());
                    }
                }
            }
        }
        proof {
            assert(ms.take(n as int) =~= ms);
        }
        accumulator
    }

    /// The row at `row`, or nothing when the index is out of range.
    pub fn get_row(&self, row: usize) -> (r: Option<Vec<Felt>>)
        requires
            self.wf(),
        ensures
            row < self.num_rows_spec() ==> r is Some && r->0@ == row_of(
                self.columns(),
                row as int,
            ),
            row >= self.num_rows_spec() ==> r is None,
    {
        if self.cols.len() == 0 {
            return None;
        }
        if row < self.cols[0].len() {
            let out = self.read_row(row);
            Some(out)
        } else {
            None
        }
    }

    /// Reads row `row` into a fresh vector.
    fn read_row(&self, row: usize) -> (r: Vec<Felt>)
        requires
            self.wf(),
            row < self.num_rows_spec(),
        ensures
            r@ == row_of(self.columns(), row as int),
    {
        let num_cols = self.cols.len();
        let mut out: Vec<Felt> = Vec::new();
        for j in 0..num_cols
            invariant
                self.wf(),
                num_cols == self.num_cols_spec(),
                row < self.num_rows_spec(),
                out@.len() == j,
                forall|a: int| 0 <= a < j ==> (#[trigger] out@[a]) == self.columns()[a][row as int],
        {
            proof {
                assert(self.columns()[j as int].len() == self.num_rows_spec());
            }
            out.push(self.cols[j][row]);
        }
        proof {
            assert(out@ =~= row_of(self.columns(), row as int));
        }
        out
    }

    /// All rows, top to bottom.
    pub fn rows(&self) -> (r: Vec<Vec<Felt>>)
        requires
            self.wf(),
        ensures
            r@.len() == self.num_rows_spec(),
            forall|i: int|
                0 <= i < r@.len() ==> (#[trigger] r@[i])@ == row_of(self.columns(), i),
    {
        let n = self.num_rows();
        let mut out: Vec<Vec<Felt>> = Vec::new();
        for i in 0..n
            invariant
                self.wf(),
                n == self.num_rows_spec(),
                out@.len() == i,
                forall|a: int|
                    0 <= a < i ==> (#[trigger] out@[a])@ == row_of(self.columns(), a),
        {
            let row = self.read_row(i);
            out.push(row);
        }
        out
    }

    /// Sums the columns into a single-column matrix; an empty matrix sums
    /// to a matrix of one all-zero column of its row count.
    pub fn sum_columns(&self) -> (r: Matrix)
        requires
            self.wf(),
        ensures
            r.wf(),
            r.num_cols_spec() == 1,
            r.num_rows_spec() == self.num_rows_spec(),
            forall|i: int|
                0 <= i < self.num_rows_spec() ==> (#[trigger] r.columns()[0][i]).val() == col_sum(
                    self.columns(),
                    i,
                ),
    {
        let n = self.num_rows();
        let mut accumulator: Vec<Felt> = Vec::new();
        for i in 0..n
            invariant
                accumulator@.len() == i,
                forall|a: int| 0 <= a < i ==> (#[trigger] accumulator@[a]).val() == 0,
        {
            accumulator.push(Felt::zero());
        }
        let num_cols = self.cols.len();
        proof {
            assert(self.columns().take(0) =~= Seq::<Seq<Felt>>::empty());
        }
        for j in 0..num_cols
            invariant
                self.wf(),
                n == self.num_rows_spec(),
                num_cols == self.num_cols_spec(),
                accumulator@.len() == n,
                forall|a: int|
                    0 <= a < n ==> (#[trigger] accumulator@[a]).val() == col_sum(
                        self.columns().take(j as int),
                        a,
                    ),
        {
            for i in 0..n
                invariant
                    self.wf(),
                    n == self.num_rows_spec(),
                    num_cols == self.num_cols_spec(),
                    j < num_cols,
                    accumulator@.len() == n,
                    forall|a: int|
                        i <= a < n ==> (#[trigger] accumulator@[a]).val() == col_sum(
                            self.columns().take(j as int),
                            a,
                        ),
                    forall|a: int|
                        0 <= a < i ==> (#[trigger] accumulator@[a]).val() == col_sum(
                            self.columns().take(j as int + 1),
                            a,
                        ),
            {
                proof {
                    assert(self.columns()[j as int].len() == self.num_rows_spec());
                }
                let v = accumulator[i].add(self.cols[j][i]);
                accumulator.set(i, v);
                proof {
                    let t = self.columns().take(j as int + 1);
                    assert(t.drop_last() =~= self.columns().take(j as int));
                    assert(t.last() == self.columns()[j as int]);
                }
            }
        }
        proof {
            assert(self.columns().take(num_cols as int) =~= self.columns());
        }
        let r = Matrix { cols: vec![accumulator] };
        proof {
            assert(r.columns()[0] == accumulator@);
        }
        r
    }

    /// Evaluates each column, read as polynomial coefficients, at `x`.
    pub fn evaluate_at(&self, x: Felt) -> (r: Vec<Felt>)
        ensures
            r@.len() == self.num_cols_spec(),
            forall|j: int|
                0 <= j < r@.len() ==> (#[trigger] r@[j]).val() == poly_eval(
                    self.columns()[j],
                    x.val(),
                ),
    {
        let num_cols = self.cols.len();
        let mut out: Vec<Felt> = Vec::new();
        for j in 0..num_cols
            invariant
                num_cols == self.num_cols_spec(),
                out@.len() == j,
                forall|a: int|
                    0 <= a < j ==> (#[trigger] out@[a]).val() == poly_eval(
                        self.columns()[a],
                        x.val(),
                    ),
        {
            let v = horner_evaluate(&self.cols[j], &x);
            out.push(v);
        }
        out
    }

    /// The degree of each coefficient column: the index of its highest
    /// nonzero entry, or zero for an all-zero column.
    pub fn column_degrees(&self) -> (r: Vec<usize>)
        ensures
            r@.len() == self.num_cols_spec(),
            forall|j: int|
                0 <= j < r@.len() ==> (#[trigger] r@[j]) == last_nonzero(self.columns()[j]),
    {
        let num_cols = self.cols.len();
        let mut out: Vec<usize> = Vec::new();
        for j in 0..num_cols
            invariant
                num_cols == self.num_cols_spec(),
                out@.len() == j,
                forall|a: int|
                    0 <= a < j ==> (#[trigger] out@[a]) == last_nonzero(self.columns()[a]),
        {
            let col = &self.cols[j];
            let mut deg: usize = 0;
            let mut i = col.len();
            proof {
                assert(col@.take(i as int) =~= col@);
            }
            while i > 0
                invariant_except_break
                    i <= col@.len(),
                    deg == 0,
                    last_nonzero(col@) == last_nonzero(col@.take(i as int)),
                ensures
                    deg == last_nonzero(col@),
                decreases i,
            {
                i = i - 1;
                if !col[i].is_zero() {
                    deg = i;
                    proof {
                        let t = col@.take(i as int + 1);
                        assert(t.last() == col@[i as int]);
                        assert(last_nonzero(t) == i);
                    }
                    break;
                }
                proof {
                    let t = col@.take(i as int + 1);
                    assert(t.last() == col@[i as int]);
                    assert(t.drop_last() =~= col@.take(i as int));
                }
            }
            out.push(deg);
        }
        out
    }

    /// Converts a single-column matrix into its column.
    pub fn into_column(self) -> (r: Result<Vec<Felt>, MatrixError>)
        ensures
            self.num_cols_spec() == 1 ==> r is Ok && r->Ok_0@ == self.columns()[0],
            self.num_cols_spec() == 0 ==> r == Result::<Vec<Felt>, MatrixError>::Err(
                MatrixError::NoColumns,
            ),
            self.num_cols_spec() > 1 ==> r == Result::<Vec<Felt>, MatrixError>::Err(
                MatrixError::ManyColumns,
            ),
    {
        let mut cols = self.cols;
        if cols.len() == 0 {
            Err(MatrixError::NoColumns)
        } else if cols.len() > 1 {
            Err(MatrixError::ManyColumns)
        } else {
            let c = cols.remove(0);
            Ok(c)
        }
    }

    /// A fresh matrix with the same columns.
    pub fn duplicate(&self) -> (r: Matrix)
        ensures
            r.columns() == self.columns(),
            r.wf() == self.wf(),
    {
        let num_cols = self.cols.len();
        let mut cols: Vec<Vec<Felt>> = Vec::new();
        for j in 0..num_cols
            invariant
                num_cols == self.num_cols_spec(),
                cols@.len() == j,
                forall|a: int| 0 <= a < j ==> (#[trigger] cols@[a])@ == self.columns()[a],
        {
            let mut col: Vec<Felt> = Vec::new();
            let m = self.cols[j].len();
            for i in 0..m
                invariant
                    j < num_cols,
                    num_cols == self.num_cols_spec(),
                    m == self.columns()[j as int].len(),
                    col@.len() == i,
                    forall|a: int| 0 <= a < i ==> (#[trigger] col@[a]) == self.columns()[j as int][a],
            {
                col.push(self.cols[j][i]);
            }
            proof {
                assert(col@ =~= self.columns()[j as int]);
            }
            cols.push(col);
        }
        let r = Matrix { cols };
        proof {
            assert(r.columns() =~= self.columns());
        }
        r
    }

    /// The columns as a plain vector of vectors.
    pub fn into_columns(self) -> (r: Vec<Vec<Felt>>)
        ensures
            r@.len() == self.num_cols_spec(),
            forall|j: int| 0 <= j < r@.len() ==> (#[trigger] r@[j])@ == self.columns()[j],
    {
        self.cols
    }

    /// Extends every column with zeros up to `len` rows.
    pub fn pad_rows_to(&self, len: usize) -> (r: Matrix)
        requires
            self.wf(),
            len >= self.num_rows_spec(),
        ensures
            r.wf(),
            r.num_cols_spec() == self.num_cols_spec(),
            r.num_cols_spec() > 0 ==> r.num_rows_spec() == len,
            forall|j: int, i: int|
                0 <= j < self.num_cols_spec() && 0 <= i < self.num_rows_spec()
                    ==> (#[trigger] r.columns()[j][i]) == self.columns()[j][i],
            forall|j: int, i: int|
                0 <= j < self.num_cols_spec() && self.num_rows_spec() <= i < len
                    ==> (#[trigger] r.columns()[j][i]).val() == 0,
    {
        let num_cols = self.cols.len();
        let rows = self.num_rows();
        let mut cols: Vec<Vec<Felt>> = Vec::new();
        for j in 0..num_cols
            invariant
                self.wf(),
                num_cols == self.num_cols_spec(),
                rows == self.num_rows_spec(),
                rows <= len,
                cols@.len() == j,
                forall|a: int| 0 <= a < j ==> (#[trigger] cols@[a])@.len() == len,
                forall|a: int, i: int|
                    0 <= a < j && 0 <= i < rows ==> (#[trigger] cols@[a]@[i])
                        == self.columns()[a][i],
                forall|a: int, i: int|
                    0 <= a < j && rows <= i < len ==> (#[trigger] cols@[a]@[i]).val() == 0,
        {
            let mut col: Vec<Felt> = Vec::new();
            for i in 0..rows
                invariant
                    self.wf(),
                    j < num_cols,
                    num_cols == self.num_cols_spec(),
                    rows == self.num_rows_spec(),
                    col@.len() == i,
                    forall|a: int| 0 <= a < i ==> (#[trigger] col@[a]) == self.columns()[j as int][a],
            {
                proof {
                    assert(self.columns()[j as int].len() == rows);
                }
                col.push(self.cols[j][i]);
            }
            for i in rows..len
                invariant
                    rows <= len,
                    col@.len() == i,
                    forall|a: int|
                        0 <= a < rows ==> (#[trigger] col@[a]) == self.columns()[j as int][a],
                    forall|a: int| rows <= a < i ==> (#[trigger] col@[a]).val() == 0,
            {
                col.push(Felt::zero());
            }
            cols.push(col);
        }
        let r = Matrix { cols };
        proof {
            assert(forall|a: int|
                0 <= a < r.num_cols_spec() ==> (#[trigger] r.columns()[a]).len() == len);
        }
        r
    }

    /// Consumes a matrix of evaluations over `domain` and yields the
    /// coefficient form of each column: the inverse transform.
    pub fn into_polynomials(self, domain: &EvaluationDomain) -> (r: Matrix)
        requires
            self.wf(),
            self.num_rows_spec() == domain.size_spec(),
            domain.size_spec() <= 0x1_0000_0000,
        ensures
            r.wf(),
            r.num_cols_spec() == self.num_cols_spec(),
            r.num_rows_spec() == self.num_rows_spec(),
            forall|j: int, k: int|
                0 <= j < r.num_cols_spec() && 0 <= k < r.num_rows_spec()
                    ==> (#[trigger] r.columns()[j][k]).val() == interp_coeff(
                    self.columns()[j],
                    domain.size_spec(),
                    domain.generator_spec(),
                    domain.offset_spec(),
                    k as nat,
                ),
    {
        let size = domain.size();
        let size_felt = Felt::new(size);
        proof {
            vstd::arithmetic::div_mod::lemma_small_mod(size as nat, p() as nat);
        }
        let n_inv = size_felt.inv();
        let g_inv = domain.generator().inv();
        let o_inv = domain.offset().inv();
        let num_cols = self.cols.len();
        let n = self.num_rows();
        let mut cols: Vec<Vec<Felt>> = Vec::new();
        for j in 0..num_cols
            invariant
                self.wf(),
                num_cols == self.num_cols_spec(),
                n == self.num_rows_spec(),
                n == domain.size_spec(),
                n_inv.val() == finv(domain.size_spec() as int),
                g_inv.val() == finv(domain.generator_spec()),
                o_inv.val() == finv(domain.offset_spec()),
                cols@.len() == j,
                forall|a: int| 0 <= a < j ==> (#[trigger] cols@[a])@.len() == n,
                forall|a: int, k: int|
                    0 <= a < j && 0 <= k < n ==> (#[trigger] cols@[a]@[k]).val() == interp_coeff(
                        self.columns()[a],
                        domain.size_spec(),
                        domain.generator_spec(),
                        domain.offset_spec(),
                        k as nat,
                    ),
        {
            let src = &self.cols[j];
            let mut out: Vec<Felt> = Vec::new();
            let mut x = Felt::one();
            let mut o_pow = Felt::one();
            proof {
                lemma_fpow_zero(g_inv.val());
                lemma_fpow_zero(o_inv.val());
            }
            for k in 0..n
                invariant
                    self.wf(),
                    j < num_cols,
                    num_cols == self.num_cols_spec(),
                    n == self.num_rows_spec(),
                    n == domain.size_spec(),
                    src@ == self.columns()[j as int],
                    n_inv.val() == finv(domain.size_spec() as int),
                    g_inv.val() == finv(domain.generator_spec()),
                    o_inv.val() == finv(domain.offset_spec()),
                    x.val() == fpow(finv(domain.generator_spec()), k as nat),
                    o_pow.val() == fpow(finv(domain.offset_spec()), k as nat),
                    out@.len() == k,
                    forall|a: int|
                        0 <= a < k ==> (#[trigger] out@[a]).val() == interp_coeff(
                            self.columns()[j as int],
                            domain.size_spec(),
                            domain.generator_spec(),
                            domain.offset_spec(),
                            a as nat,
                        ),
            {
                let s = horner_evaluate(src, &x);
                let c = n_inv.mul(o_pow.mul(s));
                out.push(c);
                x = x.mul(g_inv);
                o_pow = o_pow.mul(o_inv);
                proof {
                    lemma_fpow_step(finv(domain.generator_spec()), k as nat);
                    lemma_fpow_step(finv(domain.offset_spec()), k as nat);
                }
            }
            cols.push(out);
        }
        let r = Matrix { cols };
        proof {
            assert(forall|a: int|
                0 <= a < r.num_cols_spec() ==> (#[trigger] r.columns()[a]).len() == n);
        }
        r
    }

    /// Interpolates the columns of the matrix over the domain, leaving the
    /// original in place.
    pub fn interpolate(&self, domain: &EvaluationDomain) -> (r: Matrix)
        requires
            self.wf(),
            self.num_rows_spec() == domain.size_spec(),
            domain.size_spec() <= 0x1_0000_0000,
        ensures
            r.wf(),
            r.num_cols_spec() == self.num_cols_spec(),
            r.num_rows_spec() == self.num_rows_spec(),
            forall|j: int, k: int|
                0 <= j < r.num_cols_spec() && 0 <= k < r.num_rows_spec()
                    ==> (#[trigger] r.columns()[j][k]).val() == interp_coeff(
                    self.columns()[j],
                    domain.size_spec(),
                    domain.generator_spec(),
                    domain.offset_spec(),
                    k as nat,
                ),
    {
        self.duplicate().into_polynomials(domain)
    }

    /// Consumes a matrix of coefficient columns and evaluates each column
    /// at every point of `domain`: the forward transform.
    pub fn into_evaluations(self, domain: &EvaluationDomain) -> (r: Matrix)
        requires
            self.wf(),
            self.num_rows_spec() == domain.size_spec(),
        ensures
            r.wf(),
            r.num_cols_spec() == self.num_cols_spec(),
            r.num_rows_spec() == self.num_rows_spec(),
            forall|j: int, i: int|
                0 <= j < r.num_cols_spec() && 0 <= i < r.num_rows_spec()
                    ==> (#[trigger] r.columns()[j][i]).val() == poly_eval(
                    self.columns()[j],
                    domain.element_spec(i as nat),
                ),
    {
        let off = domain.offset();
        let gen = domain.generator();
        let num_cols = self.cols.len();
        let n = self.num_rows();
        let mut cols: Vec<Vec<Felt>> = Vec::new();
        for j in 0..num_cols
            invariant
                self.wf(),
                num_cols == self.num_cols_spec(),
                n == self.num_rows_spec(),
                n == domain.size_spec(),
                off.val() == domain.offset_spec(),
                0 <= off.val() < p(),
                gen.val() == domain.generator_spec(),
                cols@.len() == j,
                forall|a: int| 0 <= a < j ==> (#[trigger] cols@[a])@.len() == n,
                forall|a: int, i: int|
                    0 <= a < j && 0 <= i < n ==> (#[trigger] cols@[a]@[i]).val() == poly_eval(
                        self.columns()[a],
                        domain.element_spec(i as nat),
                    ),
        {
            let src = &self.cols[j];
            let mut out: Vec<Felt> = Vec::new();
            let mut x = off;
            proof {
                lemma_fpow_zero(gen.val());
                lemma_fmul_one(off.val());
                vstd::arithmetic::div_mod::lemma_small_mod(off.val() as nat, p() as nat);
            }
            for i in 0..n
                invariant
                    self.wf(),
                    j < num_cols,
                    num_cols == self.num_cols_spec(),
                    n == self.num_rows_spec(),
                    n == domain.size_spec(),
                    src@ == self.columns()[j as int],
                    off.val() == domain.offset_spec(),
                    gen.val() == domain.generator_spec(),
                    x.val() == fmul(domain.offset_spec(), fpow(domain.generator_spec(), i as nat)),
                    out@.len() == i,
                    forall|a: int|
                        0 <= a < i ==> (#[trigger] out@[a]).val() == poly_eval(
                            self.columns()[j as int],
                            domain.element_spec(a as nat),
                        ),
            {
                let v = horner_evaluate(src, &x);
                out.push(v);
                x = x.mul(gen);
                proof {
                    lemma_step_power(domain.offset_spec(), domain.generator_spec(), i as nat);
                }
            }
            cols.push(out);
        }
        let r = Matrix { cols };
        proof {
            assert(forall|a: int|
                0 <= a < r.num_cols_spec() ==> (#[trigger] r.columns()[a]).len() == n);
        }
        r
    }

    /// Evaluates the columns of the matrix over the domain, leaving the
    /// original in place.
    pub fn evaluate(&self, domain: &EvaluationDomain) -> (r: Matrix)
        requires
            self.wf(),
            self.num_rows_spec() == domain.size_spec(),
        ensures
            r.wf(),
            r.num_cols_spec() == self.num_cols_spec(),
            r.num_rows_spec() == self.num_rows_spec(),
            forall|j: int, i: int|
                0 <= j < r.num_cols_spec() && 0 <= i < r.num_rows_spec()
                    ==> (#[trigger] r.columns()[j][i]).val() == poly_eval(
                    self.columns()[j],
                    domain.element_spec(i as nat),
                ),
    {
        self.duplicate().into_evaluations(domain)
    }

    /// Commits to the rows: serializes each row, hashes it into a leaf
    /// digest, and builds the Merkle tree over the row digests. The row
    /// count must already be a power of two; padding is the caller's duty.
    pub fn commit_to_rows(&self) -> (r: MerkleTree)
        requires
            self.wf(),
            is_power_of_two(self.num_rows_spec() as int),
        ensures
            r.wf(),
            r.leaves() == row_leaves(self.columns(), self.num_rows_spec()),
    {
        let num_rows = self.num_rows();
        let num_cols = self.cols.len();
        let mut leaves: Vec<Vec<u8>> = Vec::new();
        for i in 0..num_rows
            invariant
                self.wf(),
                num_rows == self.num_rows_spec(),
                num_cols == self.num_cols_spec(),
                leaves@.len() == i,
                forall|a: int|
                    0 <= a < i ==> (#[trigger] leaves@[a])@ == sha256_of(
                        row_bytes(row_of(self.columns(), a)),
                    ),
        {
            let row = self.read_row(i);
            let mut bytes: Vec<u8> = Vec::new();
            proof {
                assert(row@.take(0) =~= Seq::<Felt>::empty());
            }
            for jj in 0..num_cols
                invariant
                    num_cols == row@.len(),
                    bytes@ == row_bytes(row@.take(jj as int)),
            {
                let word = u64_to_le_bytes(row[jj].as_u64());
                extend_bytes(&mut bytes, &word);
                proof {
                    let t = row@.take(jj as int + 1);
                    assert(t.drop_last() =~= row@.take(jj as int));
                    assert(t.last() == row@[jj as int]);
                    assert(row@[jj as int].val() as u64 == row@[jj as int].val());
                }
            }
            proof {
                assert(row@.take(num_cols as int) =~= row@);
            }
            let leaf = sha256(&bytes);
            leaves.push(leaf);
        }
        let tree = MerkleTree::new(leaves);
        proof {
            assert(tree.leaves() =~= row_leaves(self.columns(), self.num_rows_spec()));
        }
        tree
    }
}

/// Serializes field elements as eight little-endian bytes each, in order.
pub fn felts_to_bytes(v: &Vec<Felt>) -> (r: Vec<u8>)
    ensures
        r@ == row_bytes(v@),
{
    let mut bytes: Vec<u8> = Vec::new();
    proof {
        assert(v@.take(0) =~= Seq::<Felt>::empty());
    }
    let n = v.len();
    for j in 0..n
        invariant
            n == v@.len(),
            bytes@ == row_bytes(v@.take(j as int)),
    {
        let word = u64_to_le_bytes(v[j].as_u64());
        extend_bytes(&mut bytes, &word);
        proof {
            let t = v@.take(j as int + 1);
            assert(t.drop_last() =~= v@.take(j as int));
            assert(t.last() == v@[j as int]);
            assert(v@[j as int].val() as u64 == v@[j as int].val());
        }
    }
    proof {
        assert(v@.take(n as int) =~= v@);
    }
    bytes
}

/// The columns of all the matrices concatenated in order.
pub open spec fn join_columns(ms: Seq<Matrix>) -> Seq<Seq<Felt>>
    decreases ms.len(),
{
    if ms.len() == 0 {
        Seq::empty()
    } else {
        join_columns(ms.drop_last()) + ms.last().columns()
    }
}

proof fn lemma_join_columns_step(ms: Seq<Matrix>, k: int)
    requires
        0 <= k < ms.len(),
    ensures
        join_columns(ms.take(k + 1)) == join_columns(ms.take(k)) + ms[k].columns(),
{
    let t = ms.take(k + 1);
    assert(t.drop_last() =~= ms.take(k));
    assert(t.last() == ms[k]);
}

} // verus!
