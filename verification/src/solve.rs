//! The least-norm solution of a linear system `S r = a`.
//!
//! The arithmetic on scalars is the caller's: the caller supplies the function that
//! computes the least-norm solution from the coefficients and the right-hand side. What is
//! done here is what does not depend on the scalar: the result is accepted only if it has
//! one entry for each column of `S`, and a failure is reported as such.

use vstd::prelude::*;
use crate::error::Error;
use crate::matrix::{DenseMatrix, DenseVector};

verus! {

/// What becomes of the outcome of the least-norm computation for a matrix of `cols` columns:
/// `cols` entries, and at least one, are the solution; anything else is a failure to solve.
pub open spec fn accepted<T>(cols: nat, outcome: Option<Seq<T>>) -> Result<Seq<T>, Error> {
    match outcome {
        Some(values) => if cols >= 1 && values.len() == cols {
            Ok(values)
        } else {
            Err(Error::Solve)
        },
        None => Err(Error::Solve),
    }
}

/// The entries that an outcome of the least-norm computation holds, if it holds any.
pub open spec fn entries<T>(outcome: Option<Vec<T>>) -> Option<Seq<T>> {
    match outcome {
        Some(values) => Some(values@),
        None => None,
    }
}

/// Accepts the outcome of the least-norm computation for a matrix of `cols` columns, or
/// reports the failure.
pub fn solution<T>(cols: usize, outcome: Option<Vec<T>>) -> (r: Result<DenseVector<T>, Error>)
    ensures
        match r {
            Ok(x) => accepted(cols as nat, entries(outcome)) == Ok::<Seq<T>, Error>(x@),
            Err(e) => accepted(cols as nat, entries(outcome)) == Err::<Seq<T>, Error>(e),
        },
{
    match outcome {
        Some(values) => {
            if cols >= 1 && values.len() == cols {
                DenseVector::from_vec(values)
            } else {
                Err(Error::Solve)
            }
        },
        None => Err(Error::Solve),
    }
}

/// `outcome` is something that `least_norm` may return for the matrix `s_matrix` and the
/// right-hand side `acc_vector`.
pub open spec fn computes<T, P: Fn(&DenseMatrix<T>, &DenseVector<T>) -> Option<Vec<T>>>(
    least_norm: P,
    s_matrix: DenseMatrix<T>,
    acc_vector: DenseVector<T>,
    outcome: Option<Seq<T>>,
) -> bool {
    match outcome {
        Some(values) => exists|v: Vec<T>|
            v@ == values && call_ensures(least_norm, (&s_matrix, &acc_vector), Some(v)),
        None => call_ensures(least_norm, (&s_matrix, &acc_vector), None::<Vec<T>>),
    }
}

/// This function solves the linear equation `S r = a`, where `S` is a stoichiometric matrix
/// and `a` is an accumulation vector with one entry for each row of `S`. The return value is
/// the solution vector `r`, with one entry for each column of `S`, as `least_norm` computes
/// it.
///
/// # Arguments
/// * `acc_vector` - the accumulation vector, `a`; (m x 1)
/// * `s_matrix` - the stoichiometric matrix, `S`; (m x n)
/// * `least_norm` - computes the least-norm solution, or nothing where it cannot
///
pub fn solve<T, P: Fn(&DenseMatrix<T>, &DenseVector<T>) -> Option<Vec<T>>>(
    acc_vector: DenseVector<T>,
    s_matrix: DenseMatrix<T>,
    least_norm: P,
) -> (r: Result<DenseVector<T>, Error>)
    requires
        acc_vector@.len() == s_matrix@.rows,
        forall|s: &DenseMatrix<T>, a: &DenseVector<T>| call_requires(least_norm, (s, a)),
    ensures
        exists|outcome: Option<Seq<T>>|
            {
                &&& #[trigger] computes(least_norm, s_matrix, acc_vector, outcome)
                &&& match r {
                    Ok(x) => accepted(s_matrix@.cols, outcome) == Ok::<Seq<T>, Error>(x@),
                    Err(e) => accepted(s_matrix@.cols, outcome) == Err::<Seq<T>, Error>(e),
                }
            },
{
    let cols = s_matrix.ncols();
    let outcome = least_norm(&s_matrix, &acc_vector);
    let ghost seen: Option<Seq<T>> = entries(outcome);
    assert(computes(least_norm, s_matrix, acc_vector, seen));
    solution(cols, outcome)
}

} // verus!
