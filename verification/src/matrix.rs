//! Dense matrices over the numeric kernel.

use crate::error::SimError;
use crate::scalar::{is_constant, is_negation, is_quotient, is_shown, is_sqrt, Scalar};
use crate::text::is_text_with;
use vstd::prelude::*;

verus! {

/// The rows of `rows`, each as a sequence.
pub open spec fn rows_view<T>(rows: Seq<Vec<T>>) -> Seq<Seq<T>> {
    Seq::new(rows.len(), |i: int| rows[i]@)
}

/// There is a row, there is a column, and all rows are as long as the first.
pub open spec fn is_rectangular<T>(rows: Seq<Seq<T>>) -> bool {
    &&& rows.len() > 0
    &&& rows[0].len() > 0
    &&& forall|i: int| 0 <= i < rows.len() ==> (#[trigger] rows[i]).len() == rows[0].len()
}

/// `e` is the kernel's value for 1/√2: the quotient of 1 and the root of 2.
pub open spec fn is_inv_sqrt2<T: Scalar>(e: T) -> bool {
    exists|one: T, two: T, root: T|
        #![trigger is_sqrt(two, root), is_quotient(one, root, e)]
        is_constant(1, one) && is_constant(2, two) && is_sqrt(two, root) && is_quotient(
            one,
            root,
            e,
        )
}

/// `e` is the kernel's value for -1/√2: the quotient of the negation of 1 and
/// the root of 2.
pub open spec fn is_neg_inv_sqrt2<T: Scalar>(e: T) -> bool {
    exists|one: T, minus_one: T, two: T, root: T|
        #![trigger is_negation(one, minus_one), is_sqrt(two, root), is_quotient(minus_one, root, e)]
        is_constant(1, one) && is_negation(one, minus_one) && is_constant(2, two) && is_sqrt(
            two,
            root,
        ) && is_quotient(minus_one, root, e)
}

/// `m` is an identity matrix of `size` rows: the kernel's 1 on the diagonal and
/// its 0 elsewhere.
pub open spec fn is_identity<T: Scalar>(size: nat, m: Seq<Seq<T>>) -> bool {
    &&& m.len() == size
    &&& forall|i: int| 0 <= i < size ==> (#[trigger] m[i]).len() == size
    &&& forall|i: int, j: int|
        0 <= i < size && 0 <= j < size ==> is_constant(
            if i == j {
                1u32
            } else {
                0u32
            },
            #[trigger] m[i][j],
        )
}

/// `m` is a Hadamard matrix: two rows of two, 1/√2 everywhere but for -1/√2 in
/// the last place.
pub open spec fn is_hadamard<T: Scalar>(m: Seq<Seq<T>>) -> bool {
    &&& m.len() == 2
    &&& m[0].len() == 2
    &&& m[1].len() == 2
    &&& is_inv_sqrt2(m[0][0])
    &&& is_inv_sqrt2(m[0][1])
    &&& is_inv_sqrt2(m[1][0])
    &&& is_neg_inv_sqrt2(m[1][1])
}

/// The number of digits behind the point with which an entry is written.
pub const ENTRY_DECIMALS: usize = 2;

/// `out` is the text of the first `n` entries of `row`: the kernel's
/// notation of each, with a blank behind it.
pub open spec fn is_row_text<T: Scalar>(row: Seq<T>, n: nat, out: Seq<char>) -> bool
    decreases n,
{
    if n == 0 {
        out == Seq::<char>::empty()
    } else {
        exists|prev: Seq<char>, entry: String|
            #![trigger is_text_with(prev, entry@ + " "@, out)]
            is_row_text(row, (n - 1) as nat, prev) && is_shown(row[n - 1], ENTRY_DECIMALS, entry)
                && is_text_with(prev, entry@ + " "@, out)
    }
}

/// `out` is the text of the first `n` rows of `m`: one line for each row.
pub open spec fn is_matrix_text<T: Scalar>(m: Seq<Seq<T>>, n: nat, out: Seq<char>) -> bool
    decreases n,
{
    if n == 0 {
        out == Seq::<char>::empty()
    } else {
        exists|prev: Seq<char>, line: Seq<char>|
            #![trigger is_text_with(prev, line + "\n"@, out)]
            is_matrix_text(m, (n - 1) as nat, prev) && is_row_text(
                m[n - 1],
                m[n - 1].len(),
                line,
            ) && is_text_with(prev, line + "\n"@, out)
    }
}

/// Whether `rows` has a row and a column and all its rows have one length.
pub fn check_valid<T>(rows: &Vec<Vec<T>>) -> (ok: bool)
    ensures
        ok == is_rectangular(rows_view(rows@)),
{
    if rows.len() == 0 || rows[0].len() == 0 {
        return false;
    }
    let row_length = rows[0].len();
    let mut i: usize = 0;
    while i < rows.len()
        invariant
            i <= rows.len(),
            rows.len() > 0,
            row_length == rows[0].len(),
            row_length > 0,
            forall|k: int| 0 <= k < i ==> (#[trigger] rows_view(rows@)[k]).len() == row_length,
        decreases rows.len() - i,
    {
        if rows[i].len() != row_length {
            assert(rows_view(rows@)[i as int].len() != rows_view(rows@)[0].len());
            return false;
        }
        i = i + 1;
    }
    true
}

/// A dense matrix, row by row.  It has at least one row and one column, and
/// all its rows have the same length; once made it does not change.
pub struct Matrix<T> {
    m: Vec<Vec<T>>,
}

impl<T> View for Matrix<T> {
    type V = Seq<Seq<T>>;

    closed spec fn view(&self) -> Seq<Seq<T>> {
        rows_view(self.m@)
    }
}

impl<T> Matrix<T> {
    #[verifier::type_invariant]
    spec fn well_formed(&self) -> bool {
        is_rectangular(rows_view(self.m@))
    }

    /// The number of rows.
    pub open spec fn nrows(&self) -> nat {
        self@.len()
    }

    /// The number of columns.
    pub open spec fn ncols(&self) -> nat {
        self@[0].len()
    }

    /// The matrix with the given rows.
    ///
    /// Fails with `InvalidShape` when there is no row, when the rows are
    /// empty, or when two rows differ in length.
    pub fn new(mat: Vec<Vec<T>>) -> (r: Result<Matrix<T>, SimError>)
        ensures
            is_rectangular(rows_view(mat@)) ==> r.is_ok() && r.unwrap()@ == rows_view(mat@),
            !is_rectangular(rows_view(mat@)) ==> r == Err::<Matrix<T>, SimError>(
                SimError::InvalidShape,
            ),
    {
        if !check_valid(&mat) {
            return Err(SimError::InvalidShape);
        }
        Ok(Matrix { m: mat })
    }

    /// The number of rows.
    pub fn rows(&self) -> (n: usize)
        ensures
            n == self.nrows(),
            n > 0,
            is_rectangular(self@),
    {
        proof {
            use_type_invariant(self);
        }
        self.m.len()
    }

    /// The number of columns.
    pub fn cols(&self) -> (n: usize)
        ensures
            n == self.ncols(),
            n > 0,
            is_rectangular(self@),
    {
        proof {
            use_type_invariant(self);
        }
        self.m[0].len()
    }

    /// The rows of the matrix.
    pub fn as_rows(&self) -> (rows: &Vec<Vec<T>>)
        ensures
            rows_view(rows@) == self@,
            is_rectangular(self@),
    {
        proof {
            use_type_invariant(self);
        }
        &self.m
    }

    /// The rows of the matrix, which is given up.
    pub fn into_rows(self) -> (rows: Vec<Vec<T>>)
        ensures
            rows_view(rows@) == self@,
            is_rectangular(self@),
    {
        proof {
            use_type_invariant(&self);
        }
        self.m
    }
}

impl<T: Scalar> Matrix<T> {
    /// The entry in row `i` and column `j`.
    pub fn get(&self, i: usize, j: usize) -> (e: T)
        requires
            i < self.nrows(),
            j < self.ncols(),
        ensures
            e == self@[i as int][j as int],
    {
        proof {
            use_type_invariant(self);
            assert(rows_view(self.m@)[i as int].len() == rows_view(self.m@)[0].len());
        }
        self.m[i][j]
    }

    /// The matrix as text: one line for each row, every entry followed by a
    /// blank.
    pub fn to_string(&self) -> (s: String)
        ensures
            is_matrix_text(self@, self@.len(), s@),
    {
        let mut s = String::new();
        assert(s@ =~= Seq::<char>::empty());
        let mut i: usize = 0;
        while i < self.m.len()
            invariant
                i <= self.m.len(),
                is_matrix_text(rows_view(self.m@), i as nat, s@),
            decreases self.m.len() - i,
        {
            let ghost prev = s@;
            let ghost row = rows_view(self.m@)[i as int];
            let mut j: usize = 0;
            let mut line = String::new();
            assert(line@ =~= Seq::<char>::empty());
            while j < self.m[i].len()
                invariant
                    i < self.m.len(),
                    j <= self.m[i as int].len(),
                    row == self.m[i as int]@,
                    is_row_text(row, j as nat, line@),
                decreases self.m[i as int].len() - j,
            {
                let ghost before = line@;
                let entry = self.m[i][j].show(ENTRY_DECIMALS);
                line.push_str(entry.as_str());
                line.push_str(" ");
                proof {
                    assert(line@ =~= before + (entry@ + " "@));
                    assert(is_text_with(before, entry@ + " "@, line@));
                }
                j = j + 1;
            }
            s.push_str(line.as_str());
            s.push_str("\n");
            proof {
                assert(s@ =~= prev + (line@ + "\n"@));
                assert(is_text_with(prev, line@ + "\n"@, s@));
            }
            i = i + 1;
        }
        s
    }

    /// The identity matrix of `size` rows and columns.
    ///
    /// Fails with `InvalidShape` when `size` is 0.
    pub fn identity(size: usize) -> (r: Result<Matrix<T>, SimError>)
        ensures
            size > 0 ==> r.is_ok() && is_identity(size as nat, r.unwrap()@),
            size == 0 ==> r == Err::<Matrix<T>, SimError>(SimError::InvalidShape),
    {
        if size == 0 {
            return Err(SimError::InvalidShape);
        }
        let zero = T::from_u32(0);
        let one = T::from_u32(1);
        let mut m: Vec<Vec<T>> = Vec::new();
        let mut i: usize = 0;
        while i < size
            invariant
                i <= size,
                m.len() == i,
                forall|a: int| 0 <= a < i ==> (#[trigger] m[a]).len() == size,
                forall|a: int, b: int|
                    0 <= a < i && 0 <= b < size ==> #[trigger] m[a][b] == (if a == b {
                        one
                    } else {
                        zero
                    }),
            decreases size - i,
        {
            let mut row: Vec<T> = Vec::new();
            let mut j: usize = 0;
            while j < size
                invariant
                    j <= size,
                    row.len() == j,
                    forall|b: int|
                        0 <= b < j ==> #[trigger] row[b] == (if i as int == b {
                            one
                        } else {
                            zero
                        }),
                decreases size - j,
            {
                row.push(if i == j { one } else { zero });
                j = j + 1;
            }
            m.push(row);
            i = i + 1;
        }
        proof {
            let v = rows_view(m@);
            assert forall|a: int| 0 <= a < size implies (#[trigger] v[a]).len() == size by {
                assert(m[a].len() == size);
            }
            assert forall|a: int, b: int| 0 <= a < size && 0 <= b < size implies is_constant(
                if a == b {
                    1u32
                } else {
                    0u32
                },
                #[trigger] v[a][b],
            ) by {
                assert(v[a][b] == m[a][b]);
            }
        }
        Ok(Matrix { m })
    }

    /// The Hadamard matrix `[[1/√2, 1/√2], [1/√2, -1/√2]]`.
    pub fn hadamard() -> (h: Matrix<T>)
        ensures
            is_hadamard(h@),
    {
        let a = Self::inv_sqrt2();
        let b = Self::inv_sqrt2();
        let c = Self::inv_sqrt2();
        let d = Self::neg_inv_sqrt2();
        let mut top: Vec<T> = Vec::new();
        top.push(a);
        top.push(b);
        let mut bottom: Vec<T> = Vec::new();
        bottom.push(c);
        bottom.push(d);
        let mut m: Vec<Vec<T>> = Vec::new();
        m.push(top);
        m.push(bottom);
        proof {
            let v = rows_view(m@);
            assert(v[0] == top@);
            assert(v[1] == bottom@);
            assert forall|i: int| 0 <= i < v.len() implies (#[trigger] v[i]).len()
                == v[0].len() by {
                if i == 0 {
                } else {
                    assert(i == 1);
                }
            }
        }
        Matrix { m }
    }

    /// 1/√2.
    fn inv_sqrt2() -> (e: T)
        ensures
            is_inv_sqrt2(e),
    {
        let one = T::from_u32(1);
        let two = T::from_u32(2);
        let root = two.sqrt();
        let e = one.over(root);
        assert(is_sqrt(two, root) && is_quotient(one, root, e));
        e
    }

    /// -1/√2.
    fn neg_inv_sqrt2() -> (e: T)
        ensures
            is_neg_inv_sqrt2(e),
    {
        let one = T::from_u32(1);
        let minus_one = one.neg();
        let two = T::from_u32(2);
        let root = two.sqrt();
        let e = minus_one.over(root);
        assert(is_negation(one, minus_one) && is_sqrt(two, root) && is_quotient(
            minus_one,
            root,
            e,
        ));
        e
    }
}

} // verus!
