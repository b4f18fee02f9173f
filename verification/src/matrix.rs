//! Dense matrices and vectors over any scalar type, stored row by row.

use vstd::prelude::*;
use crate::error::{Error, Malformed};

verus! {

/// The mathematical content of a matrix: its shape and its entries, row by row.
pub struct Grid<T> {
    pub rows: nat,
    pub cols: nat,
    pub cells: Seq<T>,
}

impl<T> Grid<T> {
    /// A grid is rectangular and has at least one row and one column.
    pub open spec fn wf(self) -> bool {
        &&& self.rows >= 1
        &&& self.cols >= 1
        &&& self.cells.len() == self.rows * self.cols
    }

    /// The entry in row `row` and column `col`, both counted from zero.
    pub open spec fn at(self, row: int, col: int) -> T
        recommends
            0 <= row < self.rows,
            0 <= col < self.cols,
    {
        self.cells[row * self.cols + col]
    }
}

/// The position of an entry in row-major storage lies inside the storage, and row and column
/// can be read off that position.
pub proof fn lemma_row_major_index(rows: int, cols: int, row: int, col: int)
    requires
        0 <= row < rows,
        0 <= col < cols,
    ensures
        0 <= row * cols <= row * cols + col < rows * cols,
        (row * cols + col) / cols == row,
        (row * cols + col) % cols == col,
{
    assert(0 <= row * cols <= row * cols + col < rows * cols) by (nonlinear_arith)
        requires
            0 <= row < rows,
            0 <= col < cols,
    ;
    vstd::arithmetic::div_mod::lemma_fundamental_div_mod_converse(row * cols + col, cols, row, col);
}

/// A rectangular array with at least one row and one column, stored row by row.
#[derive(Debug, PartialEq)]
pub struct DenseMatrix<T> {
    rows: usize,
    cols: usize,
    elements: Vec<T>,
}

impl<T> View for DenseMatrix<T> {
    type V = Grid<T>;

    closed spec fn view(&self) -> Grid<T> {
        Grid { rows: self.rows as nat, cols: self.cols as nat, cells: self.elements@ }
    }
}

impl<T> DenseMatrix<T> {
    /// Every matrix is rectangular and has at least one row and one column.
    #[verifier::type_invariant]
    spec fn valid(&self) -> bool {
        self@.wf()
    }

    /// The matrix of `rows` rows and `cols` columns whose entries are `elements`, row by row.
    /// There is no such matrix when a dimension is zero or the number of entries is not
    /// `rows * cols`.
    pub fn from_row_major(rows: usize, cols: usize, elements: Vec<T>) -> (r: Result<Self, Error>)
        ensures
            match r {
                Ok(m) => m@.wf() && m@ == (Grid { rows: rows as nat, cols: cols as nat, cells: elements@ }),
                Err(e) => if rows == 0 || cols == 0 {
                    e == Error::Format(Malformed::ZeroDimension)
                } else {
                    elements@.len() != rows * cols && e == Error::Format(Malformed::Count)
                },
            },
            r is Ok <==> rows >= 1 && cols >= 1 && elements@.len() == rows * cols,
    {
        if rows == 0 || cols == 0 {
            return Err(Error::Format(Malformed::ZeroDimension));
        }
        let count: usize = elements.len();
        match rows.checked_mul(cols) {
            Some(total) => {
                if count != total {
                    return Err(Error::Format(Malformed::Count));
                }
            },
            None => {
                return Err(Error::Format(Malformed::Count));
            },
        }
        Ok(DenseMatrix { rows, cols, elements })
    }

    /// The number of rows.
    pub fn nrows(&self) -> (r: usize)
        ensures
            r == self@.rows,
            self@.wf(),
    {
        proof {
            use_type_invariant(self);
        }
        self.rows
    }

    /// The number of columns.
    pub fn ncols(&self) -> (r: usize)
        ensures
            r == self@.cols,
            self@.wf(),
    {
        proof {
            use_type_invariant(self);
        }
        self.cols
    }

    /// The entry in row `row` and column `col`, both counted from zero; none outside the matrix.
    pub fn get(&self, row: usize, col: usize) -> (r: Option<&T>)
        ensures
            self@.wf(),
            match r {
                Some(x) => row < self@.rows && col < self@.cols && *x == self@.at(row as int, col as int),
                None => row >= self@.rows || col >= self@.cols,
            },
    {
        proof {
            use_type_invariant(self);
        }
        let count: usize = self.elements.len();
        if row < self.rows && col < self.cols {
            proof {
                lemma_row_major_index(self.rows as int, self.cols as int, row as int, col as int);
            }
            Some(&self.elements[row * self.cols + col])
        } else {
            None
        }
    }

    /// The entries, row by row.
    pub fn as_slice(&self) -> (r: &[T])
        ensures
            r@ == self@.cells,
            self@.wf(),
    {
        proof {
            use_type_invariant(self);
        }
        self.elements.as_slice()
    }

    /// Gives up the matrix for its entries, row by row.
    pub fn into_vec(self) -> (r: Vec<T>)
        ensures
            r@ == self@.cells,
            self@.wf(),
    {
        proof {
            use_type_invariant(&self);
        }
        self.elements
    }

    /// Gives up the matrix for the vector of its entries, row by row.
    pub fn into_vector(self) -> (r: DenseVector<T>)
        ensures
            r@ == self@.cells,
            self@.wf(),
    {
        proof {
            use_type_invariant(&self);
            assert(self.rows * self.cols >= 1) by (nonlinear_arith)
                requires
                    self.rows >= 1,
                    self.cols >= 1,
            ;
        }
        DenseVector { values: self.elements }
    }
}

impl<T: Clone> Clone for DenseMatrix<T> {
    /// A matrix of the same shape, with a clone of each entry in its place.
    fn clone(&self) -> (r: Self)
        ensures
            r@.wf(),
            r@.rows == self@.rows,
            r@.cols == self@.cols,
            r@.cells.len() == self@.cells.len(),
            forall|i: int|
                0 <= i < self@.cells.len() ==> cloned(self@.cells[i], #[trigger] r@.cells[i]),
    {
        proof {
            use_type_invariant(self);
        }
        DenseMatrix { rows: self.rows, cols: self.cols, elements: self.elements.clone() }
    }
}

/// A sequence of at least one scalar.
#[derive(Debug, PartialEq)]
pub struct DenseVector<T> {
    values: Vec<T>,
}

impl<T> View for DenseVector<T> {
    type V = Seq<T>;

    closed spec fn view(&self) -> Seq<T> {
        self.values@
    }
}

impl<T> DenseVector<T> {
    /// Every vector has at least one entry.
    #[verifier::type_invariant]
    spec fn valid(&self) -> bool {
        self.values@.len() >= 1
    }

    /// The vector of the entries `values`. There is none without an entry.
    pub fn from_vec(values: Vec<T>) -> (r: Result<Self, Error>)
        ensures
            match r {
                Ok(v) => values@.len() >= 1 && v@ == values@,
                Err(e) => values@.len() == 0 && e == Error::Format(Malformed::NoValues),
            },
    {
        if values.len() == 0 {
            Err(Error::Format(Malformed::NoValues))
        } else {
            Ok(DenseVector { values })
        }
    }

    /// The number of entries.
    pub fn len(&self) -> (r: usize)
        ensures
            r == self@.len(),
            r >= 1,
    {
        proof {
            use_type_invariant(self);
        }
        self.values.len()
    }

    /// The entry at position `index`, counted from zero; none outside the vector.
    pub fn get(&self, index: usize) -> (r: Option<&T>)
        ensures
            match r {
                Some(x) => index < self@.len() && *x == self@[index as int],
                None => index >= self@.len(),
            },
    {
        if index < self.values.len() {
            Some(&self.values[index])
        } else {
            None
        }
    }

    /// The entries, in order.
    pub fn as_slice(&self) -> (r: &[T])
        ensures
            r@ == self@,
            r@.len() >= 1,
    {
        proof {
            use_type_invariant(self);
        }
        self.values.as_slice()
    }

    /// Gives up the vector for its entries, in order.
    pub fn into_vec(self) -> (r: Vec<T>)
        ensures
            r@ == self@,
            r@.len() >= 1,
    {
        proof {
            use_type_invariant(&self);
        }
        self.values
    }

    /// Gives up the vector for the matrix of one column that holds its entries.
    pub fn into_column(self) -> (r: DenseMatrix<T>)
        ensures
            r@.wf(),
            r@ == (Grid { rows: self@.len(), cols: 1, cells: self@ }),
    {
        proof {
            use_type_invariant(&self);
        }
        let rows: usize = self.values.len();
        DenseMatrix { rows, cols: 1, elements: self.values }
    }
}

impl<T: Clone> Clone for DenseVector<T> {
    /// A vector of the same length, with a clone of each entry in its place.
    fn clone(&self) -> (r: Self)
        ensures
            r@.len() == self@.len(),
            forall|i: int| 0 <= i < self@.len() ==> cloned(self@[i], #[trigger] r@[i]),
    {
        proof {
            use_type_invariant(self);
        }
        DenseVector { values: self.values.clone() }
    }
}

} // verus!
