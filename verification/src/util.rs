//! The built-in coefficient matrix, and the text of a matrix for display.

use vstd::prelude::*;
use crate::matrices::{S_COLS, S_MAT, S_ROWS};
use crate::matrix::{DenseMatrix, Grid};
use crate::text::texts;

verus! {

/// Compare two scalars to see if they are close enough for practical purposes.
///
/// It takes the distance of the two scalars, `a` and `b`, and returns true if that distance
/// is below `epsilon`.
///
/// # Arguments
///
/// - `a` - the first scalar to compare
/// - `b` - the second scalar to compare
/// - `epsilon` - the value that the distance between `a` and `b` is compared to
/// - `distance` - the absolute difference of two scalars
/// - `below` - whether the first scalar is smaller than the second
///
pub fn epsilon_eq<T, D: Fn(&T, &T) -> T, L: Fn(&T, &T) -> bool>(
    a: &T,
    b: &T,
    epsilon: &T,
    distance: D,
    below: L,
) -> (r: bool)
    requires
        forall|x: &T, y: &T| call_requires(distance, (x, y)),
        forall|x: &T, y: &T| call_requires(below, (x, y)),
    ensures
        exists|gap: T|
            #[trigger] call_ensures(distance, (a, b), gap) && call_ensures(
                below,
                (&gap, epsilon),
                r,
            ),
{
    let gap = distance(a, b);
    below(&gap, epsilon)
}

/// The built-in stoichiometric matrix.
pub fn default_s_matrix() -> (r: DenseMatrix<i8>)
    ensures
        r@.wf(),
        r@ == (Grid { rows: S_ROWS as nat, cols: S_COLS as nat, cells: S_MAT@ }),
{
    let mut cells: Vec<i8> = Vec::new();
    let mut k: usize = 0;
    while k < 1092
        invariant
            k <= 1092,
            cells@ == S_MAT@.take(k as int),
        decreases 1092 - k,
    {
        cells.push(S_MAT[k]);
        assert(cells@ =~= S_MAT@.take(k + 1));
        k = k + 1;
    }
    assert(cells@ =~= S_MAT@);
    match DenseMatrix::from_row_major(S_ROWS, S_COLS, cells) {
        Ok(m) => m,
        Err(_) => vstd::pervasive::unreached(),
    }
}

/// The text of a matrix for display: every entry as written and a tab behind it, and a line
/// feed behind the last tab of each row of `cols` entries. Without columns there are no rows
/// and no line feeds.
pub open spec fn display_text(parts: Seq<Seq<char>>, cols: int) -> Seq<char>
    decreases parts.len(),
{
    if parts.len() == 0 {
        Seq::empty()
    } else {
        display_text(parts.drop_last(), cols) + parts.last() + seq!['\t'] + if cols > 0 && (
        parts.len() as int) % cols == 0 {
            seq!['\n']
        } else {
            Seq::empty()
        }
    }
}

/// Lays out the entries of a matrix of `cols` columns, as written, for display.
pub fn display(parts: &Vec<String>, cols: usize) -> (r: String)
    ensures
        r@ == display_text(texts(parts@), cols as int),
{
    proof {
        reveal_strlit("\t");
        reveal_strlit("\n");
        assert("\t"@ =~= seq!['\t']);
        assert("\n"@ =~= seq!['\n']);
    }
    let mut out = String::new();
    let mut k: usize = 0;
    while k < parts.len()
        invariant
            k <= parts.len(),
            "\t"@ == seq!['\t'],
            "\n"@ == seq!['\n'],
            out@ == display_text(texts(parts@).take(k as int), cols as int),
        decreases parts.len() - k,
    {
        proof {
            let next = texts(parts@).take(k + 1);
            assert(next.drop_last() =~= texts(parts@).take(k as int));
            assert(next.last() == parts@[k as int]@);
        }
        out.append(parts[k].as_str());
        out.append("\t");
        k = k + 1;
        if cols > 0 && k % cols == 0 {
            out.append("\n");
        }
        assert(out@ =~= display_text(texts(parts@).take(k as int), cols as int));
    }
    assert(texts(parts@).take(parts.len() as int) =~= texts(parts@));
    out
}

/// `out` is a text that `show` may give for `value`.
pub open spec fn shows<T, S: Fn(&T) -> String>(show: S, value: T, out: Seq<char>) -> bool {
    exists|s: String| s@ == out && call_ensures(show, (&value,), s)
}

/// The text of `matrix` for display, each entry as `show` writes it.
pub fn print_matrix<T, S: Fn(&T) -> String>(matrix: &DenseMatrix<T>, show: S) -> (r: String)
    requires
        forall|v: &T| call_requires(show, (v,)),
    ensures
        exists|parts: Seq<Seq<char>>|
            {
                &&& parts.len() == matrix@.cells.len()
                &&& forall|i: int|
                    0 <= i < parts.len() ==> shows(show, matrix@.cells[i], #[trigger] parts[i])
                &&& r@ == display_text(parts, matrix@.cols as int)
            },
{
    let values = matrix.as_slice();
    let cols = matrix.ncols();
    let mut parts: Vec<String> = Vec::new();
    let mut k: usize = 0;
    while k < values.len()
        invariant
            k <= values.len(),
            parts.len() == k,
            forall|v: &T| call_requires(show, (v,)),
            forall|i: int| 0 <= i < k ==> shows(show, values@[i], #[trigger] texts(parts@)[i]),
        decreases values.len() - k,
    {
        let part = show(&values[k]);
        let ghost before = parts@;
        assert(shows(show, values@[k as int], part@));
        parts.push(part);
        proof {
            assert forall|i: int| 0 <= i < k + 1 implies shows(
                show,
                values@[i],
                #[trigger] texts(parts@)[i],
            ) by {
                if i < k {
                    assert(texts(parts@)[i] == texts(before)[i]);
                } else {
                    assert(texts(parts@)[i] == part@);
                }
            }
        }
        k = k + 1;
    }
    let out = display(&parts, cols);
    proof {
        let shown = texts(parts@);
        assert(shown.len() == matrix@.cells.len());
        assert(out@ == display_text(shown, matrix@.cols as int));
    }
    out
}

} // verus!
