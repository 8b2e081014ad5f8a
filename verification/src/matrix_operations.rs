//! The three ways of making a matrix from matrices: the tensor product, the
//! matrix product and the transpose.

use crate::error::SimError;
use crate::matrix::{is_rectangular, rows_view, Matrix};
use crate::scalar::{is_constant, is_dot, is_product, is_sum, Scalar};
use vstd::arithmetic::div_mod::{lemma_fundamental_div_mod, lemma_fundamental_div_mod_converse};
use vstd::prelude::*;

verus! {

/// The place of entry `inner` of block `outer`, where a block holds `size`
/// entries.
pub open spec fn block_index(outer: int, size: int, inner: int) -> int {
    outer * size + inner
}

/// `r` is a tensor (Kronecker) product of `a` and `b`: it has a block for
/// each entry of `a`, and entry `(k, l)` of block `(i, j)` is the kernel's
/// value for `a[i][j] * b[k][l]`.
pub open spec fn is_kronecker<T: Scalar>(a: Seq<Seq<T>>, b: Seq<Seq<T>>, r: Seq<Seq<T>>) -> bool {
    &&& r.len() == a.len() * b.len()
    &&& forall|x: int| 0 <= x < r.len() ==> (#[trigger] r[x]).len() == a[0].len() * b[0].len()
    &&& forall|i: int, j: int, k: int, l: int|
        0 <= i < a.len() && 0 <= j < a[0].len() && 0 <= k < b.len() && 0 <= l < b[0].len()
            ==> is_product(
            a[i][j],
            b[k][l],
            #[trigger] r[block_index(i, b.len() as int, k)][block_index(j, b[0].len() as int, l)],
        )
}

/// Column `j` of `m`, from the top.
pub open spec fn column<T>(m: Seq<Seq<T>>, j: int) -> Seq<T> {
    Seq::new(m.len(), |k: int| m[k][j])
}

/// `r` is a matrix product of `a` and `b`: entry `(i, j)` is the kernel's
/// value for the sum of the products of row `i` of `a` and column `j` of `b`,
/// taken from left to right.
pub open spec fn is_matrix_product<T: Scalar>(
    a: Seq<Seq<T>>,
    b: Seq<Seq<T>>,
    r: Seq<Seq<T>>,
) -> bool {
    &&& r.len() == a.len()
    &&& forall|i: int| 0 <= i < r.len() ==> (#[trigger] r[i]).len() == b[0].len()
    &&& forall|i: int, j: int|
        0 <= i < a.len() && 0 <= j < b[0].len() ==> is_dot(
            a[i],
            column(b, j),
            b.len(),
            #[trigger] r[i][j],
        )
}

/// The transpose of `m`: entry `(j, i)` is entry `(i, j)` of `m`.
pub open spec fn transposed<T>(m: Seq<Seq<T>>) -> Seq<Seq<T>> {
    Seq::new(m[0].len(), |j: int| column(m, j))
}

/// A block index lies below the number of blocks times the block size, and
/// gives back its block and its place in it.
pub proof fn lemma_block_index(outer: int, size: int, inner: int, blocks: int)
    requires
        0 <= outer < blocks,
        0 <= inner < size,
    ensures
        0 <= block_index(outer, size, inner) < blocks * size,
        block_index(outer, size, inner) / size == outer,
        block_index(outer, size, inner) % size == inner,
{
    assert(0 <= outer * size + inner < blocks * size) by (nonlinear_arith)
        requires
            0 <= outer < blocks,
            0 <= inner < size,
    ;
    lemma_fundamental_div_mod_converse(block_index(outer, size, inner), size, outer, inner);
}

/// Every entry of a tensor product is a product: the entry in row `x` and
/// column `y` is the kernel's value for the product of the entries of `a` and
/// `b` that the quotients and the remainders of `x` and `y` name.
pub proof fn lemma_kronecker_entry<T: Scalar>(
    a: Seq<Seq<T>>,
    b: Seq<Seq<T>>,
    r: Seq<Seq<T>>,
    x: int,
    y: int,
)
    requires
        is_rectangular(a),
        is_rectangular(b),
        is_kronecker(a, b, r),
        0 <= x < a.len() * b.len(),
        0 <= y < a[0].len() * b[0].len(),
    ensures
        0 <= x / (b.len() as int) < a.len(),
        0 <= y / (b[0].len() as int) < a[0].len(),
        is_product(
            a[x / (b.len() as int)][y / (b[0].len() as int)],
            b[x % (b.len() as int)][y % (b[0].len() as int)],
            r[x][y],
        ),
{
    let rows = b.len() as int;
    let cols = b[0].len() as int;
    let i = x / rows;
    let k = x % rows;
    let j = y / cols;
    let l = y % cols;
    lemma_fundamental_div_mod(x, rows);
    lemma_fundamental_div_mod(y, cols);
    assert(0 <= i < a.len()) by (nonlinear_arith)
        requires
            0 <= x < a.len() * rows,
            rows > 0,
            x == rows * i + k,
            0 <= k < rows,
    ;
    assert(0 <= j < a[0].len()) by (nonlinear_arith)
        requires
            0 <= y < a[0].len() * cols,
            cols > 0,
            y == cols * j + l,
            0 <= l < cols,
    ;
    assert(block_index(i, rows, k) == x) by (nonlinear_arith)
        requires
            x == rows * i + k,
    ;
    assert(block_index(j, cols, l) == y) by (nonlinear_arith)
        requires
            y == cols * j + l,
    ;
    assert(is_product(a[i][j], b[k][l], r[block_index(i, rows, k)][block_index(j, cols, l)]));
}

/// The tensor product of `m1` and `m2`.
///
/// The product has `m1.nrows() * m2.nrows()` rows and `m1.ncols() * m2.ncols()`
/// columns; both numbers have to fit a `usize`.
pub fn tensor_product<T: Scalar>(m1: Matrix<T>, m2: Matrix<T>) -> (r: Matrix<T>)
    requires
        m1.nrows() * m2.nrows() <= usize::MAX,
        m1.ncols() * m2.ncols() <= usize::MAX,
    ensures
        is_kronecker(m1@, m2@, r@),
        r.nrows() == m1.nrows() * m2.nrows(),
        r.ncols() == m1.ncols() * m2.ncols(),
        is_product(m1@[0][0], m2@[0][0], r@[0][0]),
{
    let rows1 = m1.rows();
    let cols1 = m1.cols();
    let rows2 = m2.rows();
    let cols2 = m2.cols();
    let ghost a = m1@;
    let ghost b = m2@;
    let mut m: Vec<Vec<T>> = Vec::new();
    let mut i: usize = 0;
    while i < rows1
        invariant
            i <= rows1,
            rows1 == a.len(),
            cols1 == a[0].len(),
            rows2 == b.len(),
            cols2 == b[0].len(),
            a == m1@,
            b == m2@,
            is_rectangular(a),
            is_rectangular(b),
            rows1 * rows2 <= usize::MAX,
            cols1 * cols2 <= usize::MAX,
            m.len() == i * rows2,
            forall|x: int| 0 <= x < m.len() ==> (#[trigger] m[x]).len() == cols1 * cols2,
            forall|x: int, y: int|
                0 <= x < m.len() && 0 <= y < cols1 * cols2 ==> is_product(
                    a[x / rows2 as int][y / cols2 as int],
                    b[x % rows2 as int][y % cols2 as int],
                    #[trigger] m[x][y],
                ),
        decreases rows1 - i,
    {
        let mut k: usize = 0;
        while k < rows2
            invariant
                i < rows1,
                k <= rows2,
                rows1 == a.len(),
                cols1 == a[0].len(),
                rows2 == b.len(),
                cols2 == b[0].len(),
                a == m1@,
                b == m2@,
                is_rectangular(a),
                is_rectangular(b),
                rows1 * rows2 <= usize::MAX,
                cols1 * cols2 <= usize::MAX,
                m.len() == i * rows2 + k,
                forall|x: int| 0 <= x < m.len() ==> (#[trigger] m[x]).len() == cols1 * cols2,
                forall|x: int, y: int|
                    0 <= x < m.len() && 0 <= y < cols1 * cols2 ==> is_product(
                        a[x / rows2 as int][y / cols2 as int],
                        b[x % rows2 as int][y % cols2 as int],
                        #[trigger] m[x][y],
                    ),
            decreases rows2 - k,
        {
            let mut row: Vec<T> = Vec::new();
            let mut j: usize = 0;
            while j < cols1
                invariant
                    i < rows1,
                    k < rows2,
                    j <= cols1,
                    rows1 == a.len(),
                    cols1 == a[0].len(),
                    rows2 == b.len(),
                    cols2 == b[0].len(),
                    a == m1@,
                    b == m2@,
                    is_rectangular(a),
                    is_rectangular(b),
                    cols1 * cols2 <= usize::MAX,
                    row.len() == j * cols2,
                    forall|y: int|
                        0 <= y < row.len() ==> is_product(
                            a[i as int][y / cols2 as int],
                            b[k as int][y % cols2 as int],
                            #[trigger] row[y],
                        ),
                decreases cols1 - j,
            {
                let mut l: usize = 0;
                while l < cols2
                    invariant
                        i < rows1,
                        k < rows2,
                        j < cols1,
                        l <= cols2,
                        rows1 == a.len(),
                        cols1 == a[0].len(),
                        rows2 == b.len(),
                        cols2 == b[0].len(),
                        a == m1@,
                        b == m2@,
                        is_rectangular(a),
                        is_rectangular(b),
                        cols1 * cols2 <= usize::MAX,
                        row.len() == j * cols2 + l,
                        forall|y: int|
                            0 <= y < row.len() ==> is_product(
                                a[i as int][y / cols2 as int],
                                b[k as int][y % cols2 as int],
                                #[trigger] row[y],
                            ),
                    decreases cols2 - l,
                {
                    proof {
                        assert(a[i as int].len() == a[0].len());
                        assert(b[k as int].len() == b[0].len());
                        lemma_block_index(j as int, cols2 as int, l as int, cols1 as int);
                    }
                    let p = m1.get(i, j).times(m2.get(k, l));
                    row.push(p);
                    l = l + 1;
                }
                proof {
                    assert(j * cols2 + cols2 == (j + 1) * cols2) by (nonlinear_arith);
                }
                j = j + 1;
            }
            proof {
                lemma_block_index(i as int, rows2 as int, k as int, rows1 as int);
            }
            m.push(row);
            k = k + 1;
        }
        proof {
            assert(i * rows2 + rows2 == (i + 1) * rows2) by (nonlinear_arith);
        }
        i = i + 1;
    }
    proof {
        let v = rows_view(m@);
        assert(v.len() == rows1 * rows2);
        assert(rows1 * rows2 > 0 && cols1 * cols2 > 0) by (nonlinear_arith)
            requires
                rows1 > 0,
                rows2 > 0,
                cols1 > 0,
                cols2 > 0,
        ;
        assert forall|x: int| 0 <= x < v.len() implies (#[trigger] v[x]).len() == cols1
            * cols2 by {
            assert(m[x].len() == cols1 * cols2);
        }
        assert forall|i: int, j: int, k: int, l: int|
            0 <= i < a.len() && 0 <= j < a[0].len() && 0 <= k < b.len() && 0 <= l
                < b[0].len() implies is_product(
            a[i][j],
            b[k][l],
            #[trigger] v[block_index(i, b.len() as int, k)][block_index(j, b[0].len() as int, l)],
        ) by {
            lemma_block_index(i, rows2 as int, k, rows1 as int);
            lemma_block_index(j, cols2 as int, l, cols1 as int);
            let x = block_index(i, rows2 as int, k);
            let y = block_index(j, cols2 as int, l);
            assert(v[x][y] == m[x][y]);
        }
        assert(block_index(0, rows2 as int, 0) == 0);
        assert(block_index(0, cols2 as int, 0) == 0);
    }
    let r = Matrix::new(m);
    r.unwrap()
}

/// The matrix product of `m1` and `m2`.
///
/// Fails with `DimensionMismatch` when `m1` has another number of columns
/// than `m2` has rows.
pub fn dot_product<T: Scalar>(m1: Matrix<T>, m2: Matrix<T>) -> (r: Result<Matrix<T>, SimError>)
    ensures
        m1.ncols() == m2.nrows() ==> r.is_ok() && is_matrix_product(m1@, m2@, r.unwrap()@),
        m1.ncols() != m2.nrows() ==> r == Err::<Matrix<T>, SimError>(SimError::DimensionMismatch),
{
    let rows1 = m1.rows();
    let cols1 = m1.cols();
    let rows2 = m2.rows();
    let cols2 = m2.cols();
    if cols1 != rows2 {
        return Err(SimError::DimensionMismatch);
    }
    let ghost a = m1@;
    let ghost b = m2@;
    let mut m: Vec<Vec<T>> = Vec::new();
    let mut i: usize = 0;
    while i < rows1
        invariant
            i <= rows1,
            rows1 == a.len(),
            cols1 == a[0].len(),
            rows2 == b.len(),
            cols2 == b[0].len(),
            cols1 == rows2,
            a == m1@,
            b == m2@,
            is_rectangular(a),
            is_rectangular(b),
            m.len() == i,
            forall|x: int| 0 <= x < i ==> (#[trigger] m[x]).len() == cols2,
            forall|x: int, y: int|
                0 <= x < i && 0 <= y < cols2 ==> is_dot(
                    a[x],
                    column(b, y),
                    b.len(),
                    #[trigger] m[x][y],
                ),
        decreases rows1 - i,
    {
        let mut row: Vec<T> = Vec::new();
        let mut j: usize = 0;
        while j < cols2
            invariant
                i < rows1,
                j <= cols2,
                rows1 == a.len(),
                cols1 == a[0].len(),
                rows2 == b.len(),
                cols2 == b[0].len(),
                cols1 == rows2,
                a == m1@,
                b == m2@,
                is_rectangular(a),
                is_rectangular(b),
                row.len() == j,
                forall|y: int|
                    0 <= y < j ==> is_dot(a[i as int], column(b, y), b.len(), #[trigger] row[y]),
            decreases cols2 - j,
        {
            let mut acc = T::from_u32(0);
            let mut k: usize = 0;
            while k < cols1
                invariant
                    i < rows1,
                    j < cols2,
                    k <= cols1,
                    rows1 == a.len(),
                    cols1 == a[0].len(),
                    rows2 == b.len(),
                    cols2 == b[0].len(),
                    cols1 == rows2,
                    a == m1@,
                    b == m2@,
                    is_rectangular(a),
                    is_rectangular(b),
                    is_dot(a[i as int], column(b, j as int), k as nat, acc),
                decreases cols1 - k,
            {
                proof {
                    assert(a[i as int].len() == a[0].len());
                    assert(b[k as int].len() == b[0].len());
                    assert(column(b, j as int)[k as int] == b[k as int][j as int]);
                }
                let p = m1.get(i, k).times(m2.get(k, j));
                let next = acc.plus(p);
                assert(is_sum(acc, p, next));
                acc = next;
                k = k + 1;
            }
            row.push(acc);
            j = j + 1;
        }
        m.push(row);
        i = i + 1;
    }
    proof {
        let v = rows_view(m@);
        assert forall|x: int| 0 <= x < v.len() implies (#[trigger] v[x]).len() == cols2 by {
            assert(m[x].len() == cols2);
        }
        assert forall|x: int, y: int| 0 <= x < a.len() && 0 <= y < b[0].len() implies is_dot(
            a[x],
            column(b, y),
            b.len(),
            #[trigger] v[x][y],
        ) by {
            assert(v[x][y] == m[x][y]);
        }
    }
    Matrix::new(m)
}

/// The transpose of `m`.
pub fn transpose<T: Copy>(m: Matrix<T>) -> (r: Matrix<T>)
    ensures
        r@ == transposed(m@),
        r.nrows() == m.ncols(),
        r.ncols() == m.nrows(),
{
    let rows = m.rows();
    let cols = m.cols();
    let source = m.as_rows();
    let ghost a = m@;
    let mut t: Vec<Vec<T>> = Vec::new();
    let mut j: usize = 0;
    while j < cols
        invariant
            j <= cols,
            rows == a.len(),
            cols == a[0].len(),
            rows_view(source@) == a,
            is_rectangular(a),
            t.len() == j,
            forall|y: int| 0 <= y < j ==> (#[trigger] t[y])@ == column(a, y),
        decreases cols - j,
    {
        let mut col: Vec<T> = Vec::new();
        let mut i: usize = 0;
        while i < rows
            invariant
                j < cols,
                i <= rows,
                rows == a.len(),
                cols == a[0].len(),
                rows_view(source@) == a,
                is_rectangular(a),
                col.len() == i,
                forall|x: int| 0 <= x < i ==> #[trigger] col[x] == a[x][j as int],
            decreases rows - i,
        {
            proof {
                assert(a[i as int].len() == a[0].len());
                assert(a[i as int] == source[i as int]@);
            }
            col.push(source[i][j]);
            i = i + 1;
        }
        assert(col@ =~= column(a, j as int));
        t.push(col);
        j = j + 1;
    }
    proof {
        let v = rows_view(t@);
        assert forall|y: int| 0 <= y < v.len() implies (#[trigger] v[y]) == column(a, y) by {
            assert(t[y]@ == column(a, y));
        }
        assert(v =~= transposed(a));
        assert(v[0].len() == rows);
    }
    let r = Matrix::new(t);
    r.unwrap()
}

} // verus!
