//! Rectangular integer matrices: building from input lines, the shape
//! compatibility check, and the standard triple-loop product.

use vstd::prelude::*;
use crate::parse::{cell_value, cell_of_line, trimmed, is_int_literal};

verus! {

/// A rectangular grid of 64-bit integer cells.
pub struct Matrix {
    rows: usize,
    cols: usize,
    data: Vec<Vec<i64>>,
}

impl Matrix {
    /// Number of rows.
    pub closed spec fn spec_rows(&self) -> int {
        self.rows as int
    }

    /// Number of columns.
    pub closed spec fn spec_cols(&self) -> int {
        self.cols as int
    }

    /// The cell in row `i`, column `j`.
    pub closed spec fn entry(&self, i: int, j: int) -> int {
        self.data@[i]@[j] as int
    }

    /// Rectangularity: there are exactly `rows` rows of `cols` cells each.
    pub closed spec fn wf(&self) -> bool {
        &&& self.data@.len() == self.rows
        &&& forall|i: int| 0 <= i < self.rows ==> (#[trigger] self.data@[i])@.len() == self.cols
    }

    /// Number of rows.
    pub fn rows(&self) -> (r: usize)
        ensures
            r as int == self.spec_rows(),
    {
        self.rows
    }

    /// Number of columns.
    pub fn cols(&self) -> (r: usize)
        ensures
            r as int == self.spec_cols(),
    {
        self.cols
    }

    /// Reads one cell.
    pub fn get(&self, i: usize, j: usize) -> (v: i64)
        requires
            self.wf(),
            i < self.spec_rows(),
            j < self.spec_cols(),
        ensures
            v as int == self.entry(i as int, j as int),
    {
        self.data[i][j]
    }

    /// Whether `self * other` is defined: the left operand's column count
    /// must equal the right operand's row count.
    pub fn can_multiply(&self, other: &Matrix) -> (r: bool)
        ensures
            r == (self.spec_cols() == other.spec_rows()),
    {
        self.cols == other.rows
    }
}

/// The matrix holds, cell by cell in row-major order, the values the given
/// input lines stand for (with blank or invalid lines read as zero).
pub open spec fn built_from(m: &Matrix, lines: Seq<Seq<u8>>, rows: int, cols: int) -> bool {
    &&& m.wf()
    &&& m.spec_rows() == rows
    &&& m.spec_cols() == cols
    &&& lines.len() == rows * cols
    &&& forall|i: int, j: int|
        0 <= i < rows && 0 <= j < cols ==> #[trigger] m.entry(i, j) == cell_value(
            lines[i * cols + j],
        )
}

/// Row-major positions stay inside the grid.
proof fn lemma_index_in_grid(i: int, j: int, rows: int, cols: int)
    requires
        0 <= i < rows,
        0 <= j < cols,
    ensures
        0 <= i * cols + j < rows * cols,
{
    assert(0 <= i * cols + j < rows * cols) by (nonlinear_arith)
        requires
            0 <= i < rows,
            0 <= j < cols,
    ;
}

/// Builds a `rows` by `cols` matrix from one input line per cell, row-major,
/// reading each line under the default-on-failure policy.
#[verifier::loop_isolation(false)]
pub fn from_lines(rows: usize, cols: usize, lines: &Vec<Vec<u8>>) -> (m: Matrix)
    requires
        lines@.len() == rows * cols,
    ensures
        built_from(&m, lines@.map_values(|l: Vec<u8>| l@), rows as int, cols as int),
{
    let total = lines.len();
    let mut data: Vec<Vec<i64>> = Vec::new();
    let mut i: usize = 0;
    while i < rows
        invariant
            i <= rows,
            data@.len() == i,
            forall|p: int| 0 <= p < i ==> (#[trigger] data@[p])@.len() == cols,
            forall|p: int, q: int|
                0 <= p < i && 0 <= q < cols ==> #[trigger] data@[p]@[q] as int == cell_value(
                    lines@[p * cols + q]@,
                ),
        decreases rows - i,
    {
        let mut row: Vec<i64> = Vec::new();
        let mut j: usize = 0;
        while j < cols
            invariant
                i < rows,
                j <= cols,
                row@.len() == j,
                forall|q: int|
                    0 <= q < j ==> #[trigger] row@[q] as int == cell_value(
                        lines@[i * cols + q]@,
                    ),
            decreases cols - j,
        {
            proof {
                lemma_index_in_grid(i as int, j as int, rows as int, cols as int);
                assert(i * cols + j < total);
            }
            let idx = i * cols + j;
            row.push(cell_of_line(&lines[idx]));
            j = j + 1;
        }
        data.push(row);
        i = i + 1;
    }
    let m = Matrix { rows, cols, data };
    proof {
        let mapped = lines@.map_values(|l: Vec<u8>| l@);
        assert forall|p: int, q: int| 0 <= p < rows && 0 <= q < cols implies #[trigger] m.entry(
            p,
            q,
        ) == cell_value(mapped[p * cols + q]) by {
            lemma_index_in_grid(p, q, rows as int, cols as int);
        }
    }
    m
}

/// Partial dot product: the sum of the first `k` products pairing row `i`
/// of `a` with column `j` of `b`.
pub open spec fn psum(a: &Matrix, b: &Matrix, i: int, j: int, k: int) -> int
    decreases k,
{
    if k <= 0 {
        0
    } else {
        psum(a, b, i, j, k - 1) + a.entry(i, k - 1) * b.entry(k - 1, j)
    }
}

/// The product's cell `(i, j)`: the full dot product over `a`'s columns.
pub open spec fn product_entry(a: &Matrix, b: &Matrix, i: int, j: int) -> int {
    psum(a, b, i, j, a.spec_cols())
}

/// Every term and every partial sum of the dot product for cell `(i, j)`
/// stays inside the cell type.
pub open spec fn entry_fits(a: &Matrix, b: &Matrix, i: int, j: int) -> bool {
    &&& forall|k: int|
        0 <= k <= a.spec_cols() ==> i64::MIN <= #[trigger] psum(a, b, i, j, k) <= i64::MAX
    &&& forall|k: int|
        0 <= k < a.spec_cols() ==> i64::MIN <= #[trigger] a.entry(i, k) * b.entry(k, j)
            <= i64::MAX
}

/// The whole product can be accumulated without leaving the cell type:
/// the one machine limit the multiplier asks of its callers.
pub open spec fn products_fit(a: &Matrix, b: &Matrix) -> bool {
    forall|i: int, j: int|
        0 <= i < a.spec_rows() && 0 <= j < b.spec_cols() ==> #[trigger] entry_fits(a, b, i, j)
}

/// Standard matrix multiplication by sequential accumulation. The result is
/// freshly allocated, `a` and `b` are read only, and cell `(i, j)` is the
/// dot product of row `i` of `a` with column `j` of `b`.
#[verifier::loop_isolation(false)]
pub fn multiply(a: &Matrix, b: &Matrix) -> (r: Matrix)
    requires
        a.wf(),
        b.wf(),
        a.spec_cols() == b.spec_rows(),
        products_fit(a, b),
    ensures
        r.wf(),
        r.spec_rows() == a.spec_rows(),
        r.spec_cols() == b.spec_cols(),
        forall|i: int, j: int|
            0 <= i < a.spec_rows() && 0 <= j < b.spec_cols() ==> #[trigger] r.entry(i, j)
                == product_entry(a, b, i, j),
{
    let a_rows = a.rows();
    let a_cols = a.cols();
    let b_cols = b.cols();
    let mut data: Vec<Vec<i64>> = Vec::new();
    let mut i: usize = 0;
    while i < a_rows
        invariant
            i <= a_rows,
            data@.len() == i,
            forall|p: int| 0 <= p < i ==> (#[trigger] data@[p])@.len() == b_cols,
            forall|p: int, q: int|
                0 <= p < i && 0 <= q < b_cols ==> #[trigger] data@[p]@[q] as int == product_entry(
                    a,
                    b,
                    p,
                    q,
                ),
        decreases a_rows - i,
    {
        let mut row: Vec<i64> = Vec::new();
        let mut j: usize = 0;
        while j < b_cols
            invariant
                i < a_rows,
                j <= b_cols,
                row@.len() == j,
                forall|q: int|
                    0 <= q < j ==> #[trigger] row@[q] as int == product_entry(a, b, i as int, q),
            decreases b_cols - j,
        {
            let mut sum: i64 = 0;
            let mut k: usize = 0;
            while k < a_cols
                invariant
                    i < a_rows,
                    j < b_cols,
                    k <= a_cols,
                    sum as int == psum(a, b, i as int, j as int, k as int),
                decreases a_cols - k,
            {
                let x = a.get(i, k);
                let y = b.get(k, j);
                proof {
                    assert(entry_fits(a, b, i as int, j as int));
                    assert(i64::MIN <= a.entry(i as int, k as int) * b.entry(k as int, j as int)
                        <= i64::MAX);
                    assert(psum(a, b, i as int, j as int, k as int + 1) == psum(
                        a,
                        b,
                        i as int,
                        j as int,
                        k as int,
                    ) + a.entry(i as int, k as int) * b.entry(k as int, j as int));
                    assert(i64::MIN <= psum(a, b, i as int, j as int, k as int + 1) <= i64::MAX);
                }
                let term = x * y;
                sum = sum + term;
                k = k + 1;
            }
            row.push(sum);
            j = j + 1;
        }
        data.push(row);
        i = i + 1;
    }
    Matrix { rows: a_rows, cols: b_cols, data }
}

/// Why a guarded product gives no result matrix.
#[derive(PartialEq, Eq, Structural, Clone, Copy, Debug)]
pub enum ProductError {
    /// The left operand's column count differs from the right operand's
    /// row count: multiplication is not defined.
    ShapeMismatch,
    /// Some term or partial sum of the product leaves the cell type.
    CellOverflow,
}

/// Decides `products_fit` at run time by accumulating every dot product
/// with overflow-checked arithmetic.
#[verifier::loop_isolation(false)]
pub fn fits_check(a: &Matrix, b: &Matrix) -> (r: bool)
    requires
        a.wf(),
        b.wf(),
        a.spec_cols() == b.spec_rows(),
    ensures
        r == products_fit(a, b),
{
    let a_rows = a.rows();
    let a_cols = a.cols();
    let b_cols = b.cols();
    let mut i: usize = 0;
    while i < a_rows
        invariant
            i <= a_rows,
            forall|p: int, q: int|
                0 <= p < i && 0 <= q < b_cols ==> #[trigger] entry_fits(a, b, p, q),
        decreases a_rows - i,
    {
        let mut j: usize = 0;
        while j < b_cols
            invariant
                i < a_rows,
                j <= b_cols,
                forall|p: int, q: int|
                    0 <= p < i && 0 <= q < b_cols ==> #[trigger] entry_fits(a, b, p, q),
                forall|q: int| 0 <= q < j ==> #[trigger] entry_fits(a, b, i as int, q),
            decreases b_cols - j,
        {
            let mut sum: i64 = 0;
            let mut k: usize = 0;
            while k < a_cols
                invariant
                    i < a_rows,
                    j < b_cols,
                    k <= a_cols,
                    sum as int == psum(a, b, i as int, j as int, k as int),
                    forall|t: int|
                        0 <= t <= k ==> i64::MIN <= #[trigger] psum(a, b, i as int, j as int, t)
                            <= i64::MAX,
                    forall|t: int|
                        0 <= t < k ==> i64::MIN <= #[trigger] a.entry(i as int, t) * b.entry(
                            t,
                            j as int,
                        ) <= i64::MAX,
                decreases a_cols - k,
            {
                let x = a.get(i, k);
                let y = b.get(k, j);
                let term = match x.checked_mul(y) {
                    Some(t) => t,
                    None => {
                        proof {
                            assert(!entry_fits(a, b, i as int, j as int));
                        }
                        return false;
                    },
                };
                let next = match sum.checked_add(term) {
                    Some(s) => s,
                    None => {
                        proof {
                            assert(psum(a, b, i as int, j as int, k as int + 1) == psum(
                                a,
                                b,
                                i as int,
                                j as int,
                                k as int,
                            ) + a.entry(i as int, k as int) * b.entry(k as int, j as int));
                            assert(!entry_fits(a, b, i as int, j as int));
                        }
                        return false;
                    },
                };
                proof {
                    assert(psum(a, b, i as int, j as int, k as int + 1) == psum(
                        a,
                        b,
                        i as int,
                        j as int,
                        k as int,
                    ) + a.entry(i as int, k as int) * b.entry(k as int, j as int));
                }
                sum = next;
                k = k + 1;
            }
            proof {
                assert(entry_fits(a, b, i as int, j as int));
            }
            j = j + 1;
        }
        i = i + 1;
    }
    true
}

/// The guarded product: checks the shapes, then that the accumulation stays
/// in range, and only then multiplies. A shape mismatch produces no result
/// matrix, exactly and only then with `ShapeMismatch`.
pub fn product_of(a: &Matrix, b: &Matrix) -> (r: Result<Matrix, ProductError>)
    requires
        a.wf(),
        b.wf(),
    ensures
        (r == Err::<Matrix, ProductError>(ProductError::ShapeMismatch)) <==> (a.spec_cols()
            != b.spec_rows()),
        (r == Err::<Matrix, ProductError>(ProductError::CellOverflow)) <==> (a.spec_cols()
            == b.spec_rows() && !products_fit(a, b)),
        r matches Ok(m) ==> {
            &&& a.spec_cols() == b.spec_rows()
            &&& products_fit(a, b)
            &&& m.wf()
            &&& m.spec_rows() == a.spec_rows()
            &&& m.spec_cols() == b.spec_cols()
            &&& forall|i: int, j: int|
                0 <= i < a.spec_rows() && 0 <= j < b.spec_cols() ==> #[trigger] m.entry(i, j)
                    == product_entry(a, b, i, j)
        },
{
    if !a.can_multiply(b) {
        Err(ProductError::ShapeMismatch)
    } else if !fits_check(a, b) {
        Err(ProductError::CellOverflow)
    } else {
        Ok(multiply(a, b))
    }
}

/// The `n` by `n` identity matrix: ones on the diagonal, zeros elsewhere.
#[verifier::loop_isolation(false)]
pub fn identity(n: usize) -> (m: Matrix)
    ensures
        m.wf(),
        m.spec_rows() == n,
        m.spec_cols() == n,
        is_identity(&m),
{
    let mut data: Vec<Vec<i64>> = Vec::new();
    let mut i: usize = 0;
    while i < n
        invariant
            i <= n,
            data@.len() == i,
            forall|p: int| 0 <= p < i ==> (#[trigger] data@[p])@.len() == n,
            forall|p: int, q: int|
                0 <= p < i && 0 <= q < n ==> #[trigger] data@[p]@[q] as int == if p == q {
                    1int
                } else {
                    0int
                },
        decreases n - i,
    {
        let mut row: Vec<i64> = Vec::new();
        let mut j: usize = 0;
        while j < n
            invariant
                i < n,
                j <= n,
                row@.len() == j,
                forall|q: int|
                    0 <= q < j ==> #[trigger] row@[q] as int == if i as int == q {
                        1int
                    } else {
                        0int
                    },
            decreases n - j,
        {
            row.push(if i == j { 1 } else { 0 });
            j = j + 1;
        }
        data.push(row);
        i = i + 1;
    }
    Matrix { rows: n, cols: n, data }
}

/// A square matrix with ones on the diagonal and zeros elsewhere.
pub open spec fn is_identity(m: &Matrix) -> bool {
    &&& m.spec_rows() == m.spec_cols()
    &&& forall|i: int, j: int|
        0 <= i < m.spec_rows() && 0 <= j < m.spec_cols() ==> #[trigger] m.entry(i, j) == if i == j {
            1int
        } else {
            0int
        }
}

/// Against an identity right operand, the partial dot product is the original
/// cell once the diagonal term has been passed, and zero before.
proof fn lemma_psum_identity(a: &Matrix, b: &Matrix, i: int, j: int, k: int)
    requires
        a.wf(),
        b.wf(),
        is_identity(b),
        b.spec_rows() == a.spec_cols(),
        0 <= i < a.spec_rows(),
        0 <= j < b.spec_cols(),
        0 <= k <= a.spec_cols(),
    ensures
        psum(a, b, i, j, k) == if j < k {
            a.entry(i, j)
        } else {
            0int
        },
    decreases k,
{
    if k > 0 {
        lemma_psum_identity(a, b, i, j, k - 1);
        assert(b.entry(k - 1, j) == if k - 1 == j {
            1int
        } else {
            0int
        });
        assert(psum(a, b, i, j, k) == psum(a, b, i, j, k - 1) + a.entry(i, k - 1) * b.entry(
            k - 1,
            j,
        ));
    }
}

/// Multiplying any matrix by a matching identity matrix yields the original
/// matrix, cell for cell, and the accumulation stays in range.
pub proof fn lemma_identity_product(a: &Matrix, b: &Matrix)
    requires
        a.wf(),
        b.wf(),
        is_identity(b),
        b.spec_rows() == a.spec_cols(),
    ensures
        products_fit(a, b),
        forall|i: int, j: int|
            0 <= i < a.spec_rows() && 0 <= j < b.spec_cols() ==> #[trigger] product_entry(
                a,
                b,
                i,
                j,
            ) == a.entry(i, j),
{
    assert forall|i: int, j: int|
        0 <= i < a.spec_rows() && 0 <= j < b.spec_cols() implies #[trigger] entry_fits(a, b, i, j) by {
        assert forall|k: int| 0 <= k <= a.spec_cols() implies i64::MIN <= #[trigger] psum(
            a,
            b,
            i,
            j,
            k,
        ) <= i64::MAX by {
            lemma_psum_identity(a, b, i, j, k);
        }
        assert forall|k: int| 0 <= k < a.spec_cols() implies i64::MIN <= #[trigger] a.entry(i, k)
            * b.entry(k, j) <= i64::MAX by {
            assert(b.entry(k, j) == if k == j { 1int } else { 0int });
        }
        lemma_psum_identity(a, b, i, j, a.spec_cols());
    }
    assert forall|i: int, j: int|
        0 <= i < a.spec_rows() && 0 <= j < b.spec_cols() implies #[trigger] product_entry(
        a,
        b,
        i,
        j,
    ) == a.entry(i, j) by {
        lemma_psum_identity(a, b, i, j, a.spec_cols());
    }
}

/// When every input line is blank, the built matrix is all zeros.
pub proof fn lemma_blank_build_is_zero(m: &Matrix, lines: Seq<Seq<u8>>, rows: int, cols: int)
    requires
        built_from(m, lines, rows, cols),
        forall|k: int| 0 <= k < lines.len() ==> trimmed(#[trigger] lines[k]).len() == 0,
    ensures
        forall|i: int, j: int| 0 <= i < rows && 0 <= j < cols ==> #[trigger] m.entry(i, j) == 0,
{
    assert forall|i: int, j: int| 0 <= i < rows && 0 <= j < cols implies #[trigger] m.entry(i, j)
        == 0 by {
        lemma_index_in_grid(i, j, rows, cols);
    }
}

/// An unparseable line leaves the default zero in its own cell and touches
/// no other cell: every cell still holds its own line's value.
pub proof fn lemma_invalid_line_cell_zero(
    m: &Matrix,
    lines: Seq<Seq<u8>>,
    rows: int,
    cols: int,
    i: int,
    j: int,
)
    requires
        built_from(m, lines, rows, cols),
        0 <= i < rows,
        0 <= j < cols,
        trimmed(lines[i * cols + j]).len() > 0,
        !is_int_literal(trimmed(lines[i * cols + j])),
    ensures
        m.entry(i, j) == 0,
        forall|p: int, q: int|
            0 <= p < rows && 0 <= q < cols ==> #[trigger] m.entry(p, q) == cell_value(
                lines[p * cols + q],
            ),
{
}

} // verus!
