use smas::error::{Error, Malformed};
use smas::io::{
    comparison_row, comparison_table, convert_tokens, document, document_layout, flat_line,
    format_comparison_results, format_vector_flat, format_vector_mm_array, join, load_matrix,
    load_vector, matrix_from_tokens, parse_matrix, parse_vector, read_matrix_file, render_values,
    FloatFormat,
};
use smas::matrices::{S_COLS, S_MAT, S_ROWS};
use smas::matrix::{DenseMatrix, DenseVector};
use smas::util::{default_s_matrix, display, print_matrix};

const R_STD_015: [f64; 28] = [
    5.4416e-07,
    13086.0,
    13186.0,
    13798.0,
    1.0884e-06,
    1.423e-05,
    1.4392e-05,
    1.8305e-06,
    2.1326e-05,
    2420.6,
    7014.5,
    1.8217e+05,
    1.7251e+05,
    2.5834e-06,
    2.5908e-06,
    5.3759e-07,
    4.4686e-15,
    1.8068e-08,
    4.4686e-15,
    4.4686e-15,
    2.7206e-07,
    2.7213e-07,
    7.9655e-10,
    3.039e+05,
    3.0447e+05,
    3.6711e+05,
    8901.3,
    2.7438e+05,
];

fn scalar(token: &str) -> Option<f64> {
    token.parse::<f64>().ok()
}

fn written(value: &f64, format: FloatFormat, precision: usize) -> String {
    match format {
        FloatFormat::Decimal => format!("{value:.precision$}"),
        FloatFormat::Scientific => format!("{value:.precision$e}"),
    }
}

fn distance(a: &f64, b: &f64) -> f64 {
    (a - b).abs()
}

fn below(a: &f64, b: &f64) -> bool {
    a < b
}

fn vector(values: &[f64]) -> DenseVector<f64> {
    DenseVector::from_vec(values.to_vec()).unwrap()
}

fn strings(parts: &[&str]) -> Vec<String> {
    parts.iter().map(|p| p.to_string()).collect()
}

#[test]
fn test_parse_vector() {
    let vec_string = String::from("\
            5.4416e-07 13086 13186 13798 1.0884e-06 1.423e-05 1.4392e-05 1.8305e-06 2.1326e-05 \
            2420.6 7014.5 1.8217e+05 1.7251e+05 2.5834e-06 2.5908e-06 5.3759e-07 4.4686e-15 \
            1.8068e-08 4.4686e-15 4.4686e-15 2.7206e-07 2.7213e-07 7.9655e-10 3.039e+05 \
            3.0447e+05 3.6711e+05 8901.3 2.7438e+05\
        ");
    let vec: DenseVector<f64> = parse_vector(&vec_string, scalar).unwrap();

    assert!(vec.as_slice() == &R_STD_015[..])
}

#[test]
fn test_parse_matrix() {
    let matrix_string = String::from("\
            0	2	-2	0	0	0	0	0	0	0	0	0	0	0	0	1	0	0	0	0	0	0	0	0	0	0	0	0 \
            0	0	2	-2	0	0	0	0	0	0	0	0	0	0	0	0	0	0	0	0	0	0	0	0	0	0	0	0 \
            0	0	0	0	0	0	0	0	0	0	0	0	0	0	1	-3	0	0	0	0	0	0	0	0	0	0	0	0 \
            0	0	0	0	0	2	-2	0	0	0	0	0	0	0	0	0	0	0	0	0	0	0	0	0	0	0	0	0 \
            2	0	-2	0	-2	0	0	0	0	0	0	0	0	1	0	2	0	0	0	0	-1	1	0	0	0	0	0	0 \
            0	0	0	0	0	0	0	0	0	0	0	0	0	0	0	0	0	0	0	0	0	0	0	0	0	0	0	1 \
            0	0	0	0	0	0	0	2	-2	0	0	0	0	0	0	0	0	0	0	0	0	0	0	0	0	0	1	0 \
            0	0	0	0	0	0	0	0	0	0	0	0	0	0	0	0	0	0	0	0	0	0	0	0	-1	-1	0	-1 \
            -2	0	2	0	2	0	0	0	0	0	0	0	0	-1	0	-2	0	0	0	0	1	-1	0	0	0	0	0	0 \
            0	0	0	0	0	0	2	-2	0	0	0	0	0	0	0	0	0	0	0	0	0	0	0	0	0	0	0	0 \
            0	0	0	0	0	0	0	0	0	0	0	0	0	0	0	0	0	0	2	-4	0	0	0	0	0	0	0	0 \
            0	0	0	0	0	0	0	0	0	0	0	0	0	0	0	0	0	0	-2	4	0	0	0	0	0	0	0	0 \
            0	0	0	0	0	0	0	0	0	0	-2	0	0	0	0	0	0	1	0	0	0	0	0	0	0	0	0	0 \
            0	0	0	0	0	0	0	0	0	0	2	0	0	0	0	0	0	-1	0	0	0	0	0	0	0	0	0	0 \
            1	-1	0	0	0	0	0	0	0	0	0	0	0	0	0	2	0	0	0	0	0	0	0	0	0	0	0	0 \
            0	0	0	0	0	0	0	0	0	0	2	-2	0	0	0	0	0	0	0	0	0	0	0	0	0	1	0	0 \
            0	0	0	0	0	0	0	0	0	-2	0	0	0	0	0	0	0	0	0	0	0	0	0	0	0	0	0	0 \
            -1	0	0	0	0	0	0	0	0	0	0	0	0	-1	0	0	0	0	0	0	0	0	0	0	0	0	0	0 \
            0	0	0	0	0	0	0	0	0	0	0	0	0	0	0	0	0	0	0	0	0	0	0	0	0	0	-1	0 \
            0	0	0	0	0	0	0	0	0	0	0	0	0	0	0	0	0	0	0	0	0	0	0	0	0	0	1	0 \
            0	0	0	0	0	0	0	0	0	2	0	0	0	0	0	0	0	0	0	0	0	0	0	0	0	0	0	0 \
            0	0	0	0	0	0	0	0	0	0	0	0	0	0	0	0	4	0	4	4	-3	0	0	0	0	0	0	0 \
            0	0	0	0	0	0	0	0	0	0	0	0	0	0	0	0	-5	0	-4	-4	3	0	0	0	0	0	0	0 \
            0	0	0	0	0	-2	2	0	-2	2	0	0	0	0	0	0	0	0	0	0	0	0	0	0	0	0	0	0 \
            0	0	0	0	0	0	0	0	0	0	0	2	-2	0	0	0	0	0	0	0	0	0	1	0	0	0	0	0 \
            0	0	0	0	0	0	0	0	0	0	0	0	0	0	0	0	0	0	0	0	0	0	0	1	0	0	0	0 \
            0	-2	0	0	0	-2	0	-2	-2	0	0	0	-2	0	0	-1	1	0	0	0	0	0	0	1	0	0	0	0 \
            0	2	0	0	0	2	0	2	2	0	0	0	2	0	0	1	-1	0	0	0	0	0	0	-1	0	0	0	0 \
            0	0	0	0	0	0	0	0	0	0	0	0	0	-1	0	-3	0	0	0	0	0	0	1	0	0	0	-1	0 \
            0	0	0	0	0	0	0	0	0	0	0	0	0	1	0	3	0	0	0	0	0	0	-1	0	0	0	1	0 \
            0	0	0	0	0	0	-2	0	0	0	0	0	2	0	0	0	0	0	0	0	0	1	0	0	1	0	0	0 \
            0	0	0	0	0	0	0	0	0	0	0	0	0	1	-1	0	0	0	0	0	0	0	0	0	0	0	0	0 \
            0	0	0	2	-2	0	0	0	0	0	0	0	0	0	0	0	0	0	0	0	0	0	0	0	0	0	0	0 \
            0	0	0	0	2	-2	0	0	0	0	0	0	0	0	0	0	0	0	0	0	0	-1	-1	-1	0	0	0	0 \
            0	0	0	0	0	0	0	0	0	0	0	0	0	0	0	0	-1	-1	1	0	0	0	0	0	0	0	0	0 \
            0	0	0	0	0	0	0	0	0	0	0	0	0	0	0	0	1	1	-1	0	0	0	0	0	0	0	0	0 \
            0	0	0	0	0	0	0	0	0	0	0	0	0	0	0	0	0	0	0	0	0	0	0	0	0	0	0	0 \
            0	0	0	0	0	0	0	0	0	2	-2	0	0	0	0	0	0	0	0	0	0	0	0	0	0	0	0	0 \
            0	0	0	0	0	0	0	0	2	-2	0	0	0	0	0	0	0	0	0	0	0	0	0	0	0	0	0	0
        ");
    let matrix: DenseMatrix<f64> = parse_matrix(&matrix_string, 39, 28, scalar).unwrap();

    let matrix_static: Vec<f64> = S_MAT.iter().map(|x| *x as f64).collect();
    assert_eq!(matrix.nrows(), 39);
    assert_eq!(matrix.ncols(), 28);
    assert!(matrix.as_slice() == &matrix_static[..])
}

#[test]
fn test_load_vector() {
    let text = "% reaction rates\n28 1 28\n  5.4416e-07\n  13086\n  13186\n  13798\n  1.0884e-06\n  1.423e-05\n  1.4392e-05\n  1.8305e-06\n  2.1326e-05\n  2420.6\n  7014.5\n  1.8217e+05\n  1.7251e+05\n  2.5834e-06\n  2.5908e-06\n  5.3759e-07\n  4.4686e-15\n  1.8068e-08\n  4.4686e-15\n  4.4686e-15\n  2.7206e-07\n  2.7213e-07\n  7.9655e-10\n  3.039e+05\n  3.0447e+05\n  3.6711e+05\n  8901.3\n  2.7438e+05\n";
    let vec: DenseVector<f64> = load_vector(text, scalar).unwrap();

    assert_eq!(vec.len(), 28);
    assert!(vec.as_slice() == &R_STD_015[..])
}

#[test]
fn test_load_matrix() {
    let text = "% stoichiometric matrix\n% rows are species, columns are reactions\n39 28\n0\t2\t-2\t0\t0\t0\t0\t0\t0\t0\t0\t0\t0\t0\t0\t1\t0\t0\t0\t0\t0\t0\t0\t0\t0\t0\t0\t0\n0\t0\t2\t-2\t0\t0\t0\t0\t0\t0\t0\t0\t0\t0\t0\t0\t0\t0\t0\t0\t0\t0\t0\t0\t0\t0\t0\t0\n0\t0\t0\t0\t0\t0\t0\t0\t0\t0\t0\t0\t0\t0\t1\t-3\t0\t0\t0\t0\t0\t0\t0\t0\t0\t0\t0\t0\n0\t0\t0\t0\t0\t2\t-2\t0\t0\t0\t0\t0\t0\t0\t0\t0\t0\t0\t0\t0\t0\t0\t0\t0\t0\t0\t0\t0\n2\t0\t-2\t0\t-2\t0\t0\t0\t0\t0\t0\t0\t0\t1\t0\t2\t0\t0\t0\t0\t-1\t1\t0\t0\t0\t0\t0\t0\n0\t0\t0\t0\t0\t0\t0\t0\t0\t0\t0\t0\t0\t0\t0\t0\t0\t0\t0\t0\t0\t0\t0\t0\t0\t0\t0\t1\n0\t0\t0\t0\t0\t0\t0\t2\t-2\t0\t0\t0\t0\t0\t0\t0\t0\t0\t0\t0\t0\t0\t0\t0\t0\t0\t1\t0\n0\t0\t0\t0\t0\t0\t0\t0\t0\t0\t0\t0\t0\t0\t0\t0\t0\t0\t0\t0\t0\t0\t0\t0\t-1\t-1\t0\t-1\n-2\t0\t2\t0\t2\t0\t0\t0\t0\t0\t0\t0\t0\t-1\t0\t-2\t0\t0\t0\t0\t1\t-1\t0\t0\t0\t0\t0\t0\n0\t0\t0\t0\t0\t0\t2\t-2\t0\t0\t0\t0\t0\t0\t0\t0\t0\t0\t0\t0\t0\t0\t0\t0\t0\t0\t0\t0\n0\t0\t0\t0\t0\t0\t0\t0\t0\t0\t0\t0\t0\t0\t0\t0\t0\t0\t2\t-4\t0\t0\t0\t0\t0\t0\t0\t0\n0\t0\t0\t0\t0\t0\t0\t0\t0\t0\t0\t0\t0\t0\t0\t0\t0\t0\t-2\t4\t0\t0\t0\t0\t0\t0\t0\t0\n0\t0\t0\t0\t0\t0\t0\t0\t0\t0\t-2\t0\t0\t0\t0\t0\t0\t1\t0\t0\t0\t0\t0\t0\t0\t0\t0\t0\n0\t0\t0\t0\t0\t0\t0\t0\t0\t0\t2\t0\t0\t0\t0\t0\t0\t-1\t0\t0\t0\t0\t0\t0\t0\t0\t0\t0\n1\t-1\t0\t0\t0\t0\t0\t0\t0\t0\t0\t0\t0\t0\t0\t2\t0\t0\t0\t0\t0\t0\t0\t0\t0\t0\t0\t0\n0\t0\t0\t0\t0\t0\t0\t0\t0\t0\t2\t-2\t0\t0\t0\t0\t0\t0\t0\t0\t0\t0\t0\t0\t0\t1\t0\t0\n0\t0\t0\t0\t0\t0\t0\t0\t0\t-2\t0\t0\t0\t0\t0\t0\t0\t0\t0\t0\t0\t0\t0\t0\t0\t0\t0\t0\n-1\t0\t0\t0\t0\t0\t0\t0\t0\t0\t0\t0\t0\t-1\t0\t0\t0\t0\t0\t0\t0\t0\t0\t0\t0\t0\t0\t0\n0\t0\t0\t0\t0\t0\t0\t0\t0\t0\t0\t0\t0\t0\t0\t0\t0\t0\t0\t0\t0\t0\t0\t0\t0\t0\t-1\t0\n0\t0\t0\t0\t0\t0\t0\t0\t0\t0\t0\t0\t0\t0\t0\t0\t0\t0\t0\t0\t0\t0\t0\t0\t0\t0\t1\t0\n0\t0\t0\t0\t0\t0\t0\t0\t0\t2\t0\t0\t0\t0\t0\t0\t0\t0\t0\t0\t0\t0\t0\t0\t0\t0\t0\t0\n0\t0\t0\t0\t0\t0\t0\t0\t0\t0\t0\t0\t0\t0\t0\t0\t4\t0\t4\t4\t-3\t0\t0\t0\t0\t0\t0\t0\n0\t0\t0\t0\t0\t0\t0\t0\t0\t0\t0\t0\t0\t0\t0\t0\t-5\t0\t-4\t-4\t3\t0\t0\t0\t0\t0\t0\t0\n0\t0\t0\t0\t0\t-2\t2\t0\t-2\t2\t0\t0\t0\t0\t0\t0\t0\t0\t0\t0\t0\t0\t0\t0\t0\t0\t0\t0\n0\t0\t0\t0\t0\t0\t0\t0\t0\t0\t0\t2\t-2\t0\t0\t0\t0\t0\t0\t0\t0\t0\t1\t0\t0\t0\t0\t0\n0\t0\t0\t0\t0\t0\t0\t0\t0\t0\t0\t0\t0\t0\t0\t0\t0\t0\t0\t0\t0\t0\t0\t1\t0\t0\t0\t0\n0\t-2\t0\t0\t0\t-2\t0\t-2\t-2\t0\t0\t0\t-2\t0\t0\t-1\t1\t0\t0\t0\t0\t0\t0\t1\t0\t0\t0\t0\n0\t2\t0\t0\t0\t2\t0\t2\t2\t0\t0\t0\t2\t0\t0\t1\t-1\t0\t0\t0\t0\t0\t0\t-1\t0\t0\t0\t0\n0\t0\t0\t0\t0\t0\t0\t0\t0\t0\t0\t0\t0\t-1\t0\t-3\t0\t0\t0\t0\t0\t0\t1\t0\t0\t0\t-1\t0\n0\t0\t0\t0\t0\t0\t0\t0\t0\t0\t0\t0\t0\t1\t0\t3\t0\t0\t0\t0\t0\t0\t-1\t0\t0\t0\t1\t0\n0\t0\t0\t0\t0\t0\t-2\t0\t0\t0\t0\t0\t2\t0\t0\t0\t0\t0\t0\t0\t0\t1\t0\t0\t1\t0\t0\t0\n0\t0\t0\t0\t0\t0\t0\t0\t0\t0\t0\t0\t0\t1\t-1\t0\t0\t0\t0\t0\t0\t0\t0\t0\t0\t0\t0\t0\n0\t0\t0\t2\t-2\t0\t0\t0\t0\t0\t0\t0\t0\t0\t0\t0\t0\t0\t0\t0\t0\t0\t0\t0\t0\t0\t0\t0\n0\t0\t0\t0\t2\t-2\t0\t0\t0\t0\t0\t0\t0\t0\t0\t0\t0\t0\t0\t0\t0\t-1\t-1\t-1\t0\t0\t0\t0\n0\t0\t0\t0\t0\t0\t0\t0\t0\t0\t0\t0\t0\t0\t0\t0\t-1\t-1\t1\t0\t0\t0\t0\t0\t0\t0\t0\t0\n0\t0\t0\t0\t0\t0\t0\t0\t0\t0\t0\t0\t0\t0\t0\t0\t1\t1\t-1\t0\t0\t0\t0\t0\t0\t0\t0\t0\n0\t0\t0\t0\t0\t0\t0\t0\t0\t0\t0\t0\t0\t0\t0\t0\t0\t0\t0\t0\t0\t0\t0\t0\t0\t0\t0\t0\n0\t0\t0\t0\t0\t0\t0\t0\t0\t2\t-2\t0\t0\t0\t0\t0\t0\t0\t0\t0\t0\t0\t0\t0\t0\t0\t0\t0\n0\t0\t0\t0\t0\t0\t0\t0\t2\t-2\t0\t0\t0\t0\t0\t0\t0\t0\t0\t0\t0\t0\t0\t0\t0\t0\t0\t0\n";
    let smat: DenseMatrix<f64> = load_matrix(text, scalar).unwrap();

    let smat_static: Vec<f64> = S_MAT.iter().map(|x| *x as f64).collect();
    assert_eq!(smat.nrows(), 39);
    assert_eq!(smat.ncols(), 28);
    assert!(smat.as_slice() == &smat_static[..])
}

#[test]
fn row_major_entry_of_two_by_three() {
    let m: DenseMatrix<f64> = parse_matrix("1 2 3 4 5 6", 2, 3, scalar).unwrap();
    assert_eq!(m.get(1, 2), Some(&6.0));
    assert_eq!(m.get(0, 2), Some(&3.0));
    assert_eq!(m.get(1, 0), Some(&4.0));
    assert_eq!(m.get(2, 0), None);
    assert_eq!(m.get(0, 3), None);
}

#[test]
fn every_token_maps_to_its_row_and_column() {
    let text = "0 1 2 3 4 5 6 7 8 9 10 11";
    let m: DenseMatrix<f64> = parse_matrix(text, 3, 4, scalar).unwrap();
    for k in 0..12usize {
        assert_eq!(m.get(k / 4, k % 4), Some(&(k as f64)));
    }
}

#[test]
fn parse_matrix_holds_the_count_against_the_dimensions() {
    let short: Result<DenseMatrix<f64>, Error> = parse_matrix("1 2 3 4 5", 2, 3, scalar);
    assert_eq!(short.err(), Some(Error::Format(Malformed::Count)));
    let long: Result<DenseMatrix<f64>, Error> = parse_matrix("1 2 3 4 5 6 7", 2, 3, scalar);
    assert_eq!(long.err(), Some(Error::Format(Malformed::Count)));
    let none: Result<DenseMatrix<f64>, Error> = parse_matrix("", 2, 3, scalar);
    assert_eq!(none.err(), Some(Error::Format(Malformed::Count)));
    let row: DenseMatrix<f64> = parse_matrix("1 2 3", 1, 3, scalar).unwrap();
    assert_eq!((row.nrows(), row.ncols()), (1, 3));
    let column: DenseMatrix<f64> = parse_matrix("1 2 3", 3, 1, scalar).unwrap();
    assert_eq!((column.nrows(), column.ncols()), (3, 1));
    let one: DenseMatrix<f64> = parse_matrix(" 7 ", 1, 1, scalar).unwrap();
    assert_eq!(one.as_slice(), &[7.0]);
}

#[test]
fn parse_matrix_refuses_zero_dimensions_first() {
    let a: Result<DenseMatrix<f64>, Error> = parse_matrix("", 0, 5, scalar);
    assert_eq!(a.err(), Some(Error::Format(Malformed::ZeroDimension)));
    let b: Result<DenseMatrix<f64>, Error> = parse_matrix("x y", 3, 0, scalar);
    assert_eq!(b.err(), Some(Error::Format(Malformed::ZeroDimension)));
}

#[test]
fn parse_matrix_huge_dimensions_are_a_count_mismatch() {
    let r: Result<DenseMatrix<f64>, Error> = parse_matrix("1 2", usize::MAX, 2, scalar);
    assert_eq!(r.err(), Some(Error::Format(Malformed::Count)));
}

#[test]
fn first_bad_token_is_reported_before_the_count() {
    let r: Result<DenseMatrix<f64>, Error> = parse_matrix("1 2 x 4 y", 2, 3, scalar);
    assert_eq!(r.err(), Some(Error::Parse { index: 2 }));
    let v: Result<DenseVector<f64>, Error> = parse_vector("abc", scalar);
    assert_eq!(v.err(), Some(Error::Parse { index: 0 }));
}

#[test]
fn parse_vector_without_values_fails() {
    let a: Result<DenseVector<f64>, Error> = parse_vector("", scalar);
    assert_eq!(a.err(), Some(Error::Format(Malformed::NoValues)));
    let b: Result<DenseVector<f64>, Error> = parse_vector(" \t\n  ", scalar);
    assert_eq!(b.err(), Some(Error::Format(Malformed::NoValues)));
}

#[test]
fn parse_vector_splits_on_any_whitespace() {
    let v: DenseVector<f64> = parse_vector("\t1.5\n-2e3\r\n  +4\u{00A0}inf\u{2003}0.25 ", scalar).unwrap();
    assert_eq!(v.as_slice(), &[1.5, -2000.0, 4.0, f64::INFINITY, 0.25]);
    assert_eq!(v.get(1), Some(&-2000.0));
    assert_eq!(v.get(5), None);
}

#[test]
fn document_layout_reads_dimensions_and_values() {
    let layout = document_layout("% a comment\n  % another\n2 3 extra tokens\n1 2\n3\n\n4 5 6\n").unwrap();
    assert_eq!(layout.nrows, 2);
    assert_eq!(layout.ncols, 3);
    assert_eq!(layout.values, strings(&["1", "2", "3", "4", "5", "6"]));
}

#[test]
fn document_layout_skips_comments_everywhere() {
    let layout = document_layout("%first\n+2 1\n% between\n 10 \n\t% indented comment\n20").unwrap();
    assert_eq!((layout.nrows, layout.ncols), (2, 1));
    assert_eq!(layout.values, strings(&["10", "20"]));
}

#[test]
fn document_layout_keeps_a_percent_inside_a_line() {
    let layout = document_layout("1 2\n5 %6\n").unwrap();
    assert_eq!(layout.values, strings(&["5", "%6"]));
}

#[test]
fn document_layout_takes_carriage_returns_as_whitespace() {
    let layout = document_layout("% header\r\n2 2\r\n1 2\r\n3 4\r\n").unwrap();
    assert_eq!((layout.nrows, layout.ncols), (2, 2));
    assert_eq!(layout.values, strings(&["1", "2", "3", "4"]));
}

#[test]
fn document_without_dimension_line_fails() {
    assert_eq!(document_layout("").err(), Some(Error::Format(Malformed::NoDimensions)));
    assert_eq!(document_layout("% only\n% comments\n").err(), Some(Error::Format(Malformed::NoDimensions)));
    assert_eq!(document_layout("% no line feed").err(), Some(Error::Format(Malformed::NoDimensions)));
}

#[test]
fn document_with_bad_dimension_line_fails() {
    assert_eq!(document_layout("3\n1 2 3").err(), Some(Error::Format(Malformed::Dimensions)));
    assert_eq!(document_layout("\n2 2\n1 2 3 4").err(), Some(Error::Format(Malformed::Dimensions)));
    assert_eq!(document_layout("   \n2 2\n1 2 3 4").err(), Some(Error::Format(Malformed::Dimensions)));
    assert_eq!(document_layout("2 x\n1 2").err(), Some(Error::Format(Malformed::Dimensions)));
    assert_eq!(document_layout("-2 1\n1 2").err(), Some(Error::Format(Malformed::Dimensions)));
    assert_eq!(document_layout("2.0 1\n1 2").err(), Some(Error::Format(Malformed::Dimensions)));
    assert_eq!(
        document_layout("99999999999999999999999999 1\n1").err(),
        Some(Error::Format(Malformed::Dimensions))
    );
}

#[test]
fn document_with_zero_dimension_fails() {
    assert_eq!(document_layout("0 3\n").err(), Some(Error::Format(Malformed::ZeroDimension)));
    assert_eq!(document_layout("3 0\n").err(), Some(Error::Format(Malformed::ZeroDimension)));
    assert_eq!(document_layout("0 0").err(), Some(Error::Format(Malformed::ZeroDimension)));
}

#[test]
fn read_matrix_file_short_read_fails() {
    let r: Result<DenseMatrix<f64>, Error> = read_matrix_file("2 3\n1 2 3\n4 5\n", scalar);
    assert_eq!(r.err(), Some(Error::Format(Malformed::Count)));
    let s: Result<DenseMatrix<f64>, Error> = read_matrix_file("2 3\n1 2 3\n4 5 6 7\n", scalar);
    assert_eq!(s.err(), Some(Error::Format(Malformed::Count)));
    let t: Result<DenseMatrix<f64>, Error> = read_matrix_file("2 3\n", scalar);
    assert_eq!(t.err(), Some(Error::Format(Malformed::Count)));
}

#[test]
fn read_matrix_file_reports_the_bad_token() {
    let r: Result<DenseMatrix<f64>, Error> = read_matrix_file("2 2\n1 2\n3 four\n", scalar);
    assert_eq!(r.err(), Some(Error::Parse { index: 3 }));
    let s: Result<DenseMatrix<f64>, Error> = read_matrix_file("2 2\n1,2\n", scalar);
    assert_eq!(s.err(), Some(Error::Parse { index: 0 }));
}

#[test]
fn read_matrix_file_passes_layout_failures_on() {
    let r: Result<DenseMatrix<f64>, Error> = read_matrix_file("% nothing", scalar);
    assert_eq!(r.err(), Some(Error::Format(Malformed::NoDimensions)));
    let v: Result<DenseVector<f64>, Error> = load_vector("2\n1 2", scalar);
    assert_eq!(v.err(), Some(Error::Format(Malformed::Dimensions)));
}

#[test]
fn read_matrix_file_lets_tokens_wrap_across_lines() {
    let m: DenseMatrix<f64> = read_matrix_file("2 3\n1\n2 3 4\n5\n6", scalar).unwrap();
    assert_eq!(m.as_slice(), &[1.0, 2.0, 3.0, 4.0, 5.0, 6.0]);
    assert_eq!(m.get(1, 2), Some(&6.0));
    assert_eq!(m.get(0, 1), Some(&2.0));
}

#[test]
fn load_vector_takes_the_entries_row_by_row() {
    let v: DenseVector<f64> = load_vector("2 3\n1 2 3\n4 5 6\n", scalar).unwrap();
    assert_eq!(v.as_slice(), &[1.0, 2.0, 3.0, 4.0, 5.0, 6.0]);
}

#[test]
fn matrix_from_tokens_converts_each_token() {
    let toks = strings(&["1e0", "2.5", "-3", "4"]);
    let m: DenseMatrix<f64> = matrix_from_tokens(&toks, 2, 2, scalar).unwrap();
    assert_eq!(m.as_slice(), &[1.0, 2.5, -3.0, 4.0]);
    let values: Vec<f64> = convert_tokens(&toks, scalar).unwrap();
    assert_eq!(values, vec![1.0, 2.5, -3.0, 4.0]);
    let bad: Result<Vec<f64>, Error> = convert_tokens(&strings(&["1", "", "3"]), scalar);
    assert_eq!(bad.err(), Some(Error::Parse { index: 1 }));
}

#[test]
fn format_vector_flat_decimal_and_scientific() {
    let v = vector(&[1.0, -2.5, 0.000123456]);
    assert_eq!(format_vector_flat(&v, FloatFormat::Decimal, 3, written), "1.000 -2.500 0.000");
    assert_eq!(format_vector_flat(&v, FloatFormat::Scientific, 2, written), "1.00e0 -2.50e0 1.23e-4");
    assert_eq!(format_vector_flat(&vector(&[42.0]), FloatFormat::Decimal, 0, written), "42");
}

#[test]
fn flat_round_trip_is_within_the_precision() {
    let values = [0.0, 1.0, -1.0, 3.14159265, -2718.281828, 1.0e-3, 123456.789];
    let v = vector(&values);
    let mut precision: usize = 0;
    while precision <= 9 {
        let text = format_vector_flat(&v, FloatFormat::Decimal, precision, written);
        let back: DenseMatrix<f64> = parse_matrix(&text, values.len(), 1, scalar).unwrap();
        let bound = 10f64.powi(-(precision as i32));
        for i in 0..values.len() {
            assert!((back.get(i, 0).unwrap() - values[i]).abs() <= bound);
        }
        let flat: DenseVector<f64> = parse_vector(&text, scalar).unwrap();
        assert_eq!(flat.len(), values.len());
        precision += 1;
    }
}

#[test]
fn flat_round_trip_scientific_keeps_the_leading_digits() {
    let v = vector(&R_STD_015);
    let text = format_vector_flat(&v, FloatFormat::Scientific, 5, written);
    let back: DenseVector<f64> = parse_vector(&text, scalar).unwrap();
    assert_eq!(back.len(), 28);
    for i in 0..28usize {
        let x = R_STD_015[i];
        assert!((back.get(i).unwrap() - x).abs() <= x.abs() * 1.0e-5);
    }
}

#[test]
fn format_vector_mm_array_lays_out_a_document() {
    let v = vector(&[1.0, 2.5, -3.0]);
    let text = format_vector_mm_array(&v, FloatFormat::Decimal, 2, "rates", written);
    assert_eq!(text, "% rates\n3 1 3\n  1.00\n  2.50\n  -3.00");
    let sci = format_vector_mm_array(&vector(&[1500.0]), FloatFormat::Scientific, 1, "", written);
    assert_eq!(sci, "% \n1 1 1\n  1.5e3");
}

#[test]
fn document_reads_back() {
    let v = vector(&R_STD_015);
    let text = format_vector_mm_array(&v, FloatFormat::Scientific, 4, "reaction rates", written);
    let back: DenseVector<f64> = load_vector(&text, scalar).unwrap();
    assert!(back.as_slice() == &R_STD_015[..]);
    let m: DenseMatrix<f64> = load_matrix(&text, scalar).unwrap();
    assert_eq!((m.nrows(), m.ncols()), (28, 1));
}

#[test]
fn join_and_flat_line() {
    assert_eq!(join(&strings(&["a", "bc", "d"]), ", "), "a, bc, d");
    assert_eq!(join(&strings(&["a"]), ", "), "a");
    assert_eq!(join(&strings(&[]), ", "), "");
    assert_eq!(flat_line(&strings(&["1", "2", "3"])), "1 2 3");
    assert_eq!(document("h", &strings(&["1", "2"])), "% h\n2 1 2\n  1\n  2");
    assert_eq!(document("twelve", &strings(&["0"; 12])).lines().nth(1), Some("12 1 12"));
}

#[test]
fn render_values_writes_each_value() {
    let parts = render_values(&[1.0, 0.5], FloatFormat::Decimal, 1, written);
    assert_eq!(parts, strings(&["1.0", "0.5"]));
}

#[test]
fn comparison_flag_follows_epsilon() {
    let computed = vector(&[1.0]);
    let truth = vector(&[1.0005]);
    let loose = format_comparison_results(
        &computed, &truth, FloatFormat::Decimal, 4, &1e-3, written, distance, below,
    ).unwrap();
    assert_eq!(loose, "% computed \t true \t |delta| \t |delta|<=epsilon\n  1.0000\t1.0005\t0.0005\ttrue");
    let tight = format_comparison_results(
        &computed, &truth, FloatFormat::Decimal, 4, &1e-4, written, distance, below,
    ).unwrap();
    assert_eq!(tight, "% computed \t true \t |delta| \t |delta|<=epsilon\n  1.0000\t1.0005\t0.0005\tfalse");
}

#[test]
fn comparison_has_one_row_for_each_entry() {
    let computed = vector(&[1.0, 2.0, 3.0]);
    let truth = vector(&[1.0, 2.5, 2.0]);
    let text = format_comparison_results(
        &computed, &truth, FloatFormat::Scientific, 1, &0.75, written, distance, below,
    ).unwrap();
    assert_eq!(
        text,
        "% computed \t true \t |delta| \t |delta|<=epsilon\n  1.0e0\t1.0e0\t0.0e0\ttrue\n  2.0e0\t2.5e0\t5.0e-1\ttrue\n  3.0e0\t2.0e0\t1.0e0\tfalse"
    );
}

#[test]
fn comparison_of_different_lengths_fails() {
    let computed = vector(&[1.0, 2.0]);
    let truth = vector(&[1.0]);
    let r = format_comparison_results(
        &computed, &truth, FloatFormat::Decimal, 2, &1e-3, written, distance, below,
    );
    assert_eq!(r.err(), Some(Error::Index { computed: 2, truth: 1 }));
    let s = format_comparison_results(
        &truth, &computed, FloatFormat::Decimal, 2, &1e-3, written, distance, below,
    );
    assert_eq!(s.err(), Some(Error::Index { computed: 1, truth: 2 }));
}

#[test]
fn comparison_row_and_table() {
    assert_eq!(comparison_row("1", "2", "1", false), "  1\t2\t1\tfalse");
    assert_eq!(comparison_row("a", "a", "0", true), "  a\ta\t0\ttrue");
    assert_eq!(
        comparison_table(&strings(&["r1", "r2"])),
        "% computed \t true \t |delta| \t |delta|<=epsilon\nr1\nr2"
    );
}

#[test]
fn default_matrix_has_its_shape_and_entries() {
    let s = default_s_matrix();
    assert_eq!((s.nrows(), s.ncols()), (39, 28));
    assert_eq!((S_ROWS, S_COLS), (39, 28));
    assert_eq!(s.as_slice(), &S_MAT[..]);
    assert_eq!(s.get(0, 1), Some(&2));
    assert_eq!(s.get(0, 2), Some(&-2));
    assert_eq!(s.get(0, 15), Some(&1));
    assert_eq!(s.get(22, 16), Some(&-5));
    assert_eq!(s.get(38, 9), Some(&-2));
    assert_eq!(s.get(39, 0), None);
}

#[test]
fn print_matrix_puts_a_tab_after_each_entry() {
    let m: DenseMatrix<f64> = parse_matrix("1 2.5 3 4 5 6", 2, 3, scalar).unwrap();
    let text = print_matrix(&m, |v: &f64| format!("{:?}", v));
    assert_eq!(text, "1.0\t2.5\t3.0\t\n4.0\t5.0\t6.0\t\n");
    assert_eq!(display(&strings(&["a", "b", "c"]), 1), "a\t\nb\t\nc\t\n");
    assert_eq!(display(&strings(&["a", "b", "c"]), 2), "a\tb\t\nc\t");
    assert_eq!(display(&strings(&["a", "b"]), 0), "a\tb\t");
    assert_eq!(display(&strings(&[]), 3), "");
}

#[test]
fn matrix_and_vector_constructors() {
    let m = DenseMatrix::from_row_major(2, 2, vec![1, 2, 3, 4]).unwrap();
    assert_eq!(m.get(1, 0), Some(&3));
    assert_eq!(m.into_vec(), vec![1, 2, 3, 4]);
    assert_eq!(
        DenseMatrix::from_row_major(2, 2, vec![1, 2, 3]).err(),
        Some(Error::Format(Malformed::Count))
    );
    assert_eq!(
        DenseMatrix::<u8>::from_row_major(0, 2, vec![]).err(),
        Some(Error::Format(Malformed::ZeroDimension))
    );
    assert_eq!(DenseVector::<u8>::from_vec(vec![]).err(), Some(Error::Format(Malformed::NoValues)));
    let v = DenseVector::from_vec(vec![7, 8, 9]).unwrap();
    let column = v.into_column();
    assert_eq!((column.nrows(), column.ncols()), (3, 1));
    assert_eq!(column.get(2, 0), Some(&9));
    assert_eq!(column.into_vector().into_vec(), vec![7, 8, 9]);
}

#[test]
fn messages_name_the_failure() {
    assert_eq!(Error::Format(Malformed::Count).message(), "short read");
    assert_eq!(Error::Solve.message(), "pseudo-inverse computation failed");
    assert_eq!(Error::Io.message(), "the source is missing or cannot be read");
    assert_eq!(Error::Parse { index: 3 }.message(), "a token is not a number");
    assert_eq!(Error::Index { computed: 1, truth: 2 }.message(), "the vectors differ in length");
    assert_eq!(Error::Format(Malformed::NoDimensions).message(), "the document ends before its dimension line");
    assert_eq!(Error::Format(Malformed::Dimensions).message(), "the dimension line does not hold two unsigned integers");
    assert_eq!(Error::Format(Malformed::ZeroDimension).message(), "a dimension is zero");
    assert_eq!(Error::Format(Malformed::NoValues).message(), "there is no value");
}
