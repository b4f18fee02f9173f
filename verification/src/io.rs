//! Reading matrices and vectors from text, and writing vectors as text.
//!
//! The scalar type is a parameter: the caller supplies the function that reads one scalar
//! from a token and the function that writes one.

use vstd::prelude::*;
use crate::error::{Error, Malformed};
use crate::matrix::{lemma_row_major_index, DenseMatrix, DenseVector, Grid};
use crate::number::{decimal_digits, decimal_string, parse_usize, usize_literal};
use crate::text::{
    chars_of, is_whitespace, lemma_line_len_bound, line_end, lines, space_len, split_whitespace,
    texts, tokens, tokens_in,
};

verus! {

/// How a scalar is written.
#[derive(Debug, Clone, Copy, PartialEq, Eq, Structural)]
pub enum FloatFormat {
    /// A mantissa and a signed power of ten, as in `1.0e-3`.
    Scientific,
    /// Plain decimal notation, as in `0.001`.
    Decimal,
}

/// `out` is something that `parse_scalar` may return for a token with the characters `token`.
pub open spec fn converts<T, F: Fn(&str) -> Option<T>>(
    parse_scalar: F,
    token: Seq<char>,
    out: Option<T>,
) -> bool {
    exists|s: &str| s@ == token && call_ensures(parse_scalar, (s,), out)
}

/// `parse_scalar` may read some scalar from a token with the characters `token`.
pub open spec fn accepts<T, F: Fn(&str) -> Option<T>>(parse_scalar: F, token: Seq<char>) -> bool {
    exists|v: T| converts(parse_scalar, token, Some(v))
}

/// `outcome` is a possible result of reading the tokens one by one, from the first, and
/// stopping at the first that `parse_scalar` does not read.
pub open spec fn converted<T, F: Fn(&str) -> Option<T>>(
    parse_scalar: F,
    toks: Seq<Seq<char>>,
    outcome: Result<Seq<T>, Error>,
) -> bool {
    match outcome {
        Ok(values) => {
            &&& values.len() == toks.len()
            &&& forall|i: int|
                0 <= i < toks.len() ==> converts(parse_scalar, toks[i], Some(#[trigger] values[i]))
        },
        Err(Error::Parse { index }) => {
            &&& index < toks.len()
            &&& converts(parse_scalar, toks[index as int], None::<T>)
            &&& forall|i: int| 0 <= i < index ==> accepts(parse_scalar, #[trigger] toks[i])
        },
        Err(_) => false,
    }
}

/// Reads the tokens one by one, from the first, and stops at the first that `parse_scalar`
/// does not read.
pub fn convert_tokens<T, F: Fn(&str) -> Option<T>>(toks: &Vec<String>, parse_scalar: F) -> (r:
    Result<Vec<T>, Error>)
    requires
        forall|s: &str| call_requires(parse_scalar, (s,)),
    ensures
        converted(
            parse_scalar,
            texts(toks@),
            match r {
                Ok(values) => Ok(values@),
                Err(e) => Err(e),
            },
        ),
{
    let mut out: Vec<T> = Vec::new();
    let mut k: usize = 0;
    while k < toks.len()
        invariant
            k <= toks.len(),
            out.len() == k,
            forall|s: &str| call_requires(parse_scalar, (s,)),
            forall|i: int|
                0 <= i < k ==> converts(parse_scalar, texts(toks@)[i], Some(#[trigger] out@[i])),
        decreases toks.len() - k,
    {
        let s: &str = toks[k].as_str();
        match parse_scalar(s) {
            Some(x) => {
                out.push(x);
                assert(converts(parse_scalar, texts(toks@)[k as int], Some(out@[k as int])));
            },
            None => {
                proof {
                    assert(converts(parse_scalar, texts(toks@)[k as int], None::<T>));
                    assert forall|i: int| 0 <= i < k implies accepts(
                        parse_scalar,
                        #[trigger] texts(toks@)[i],
                    ) by {
                        assert(converts(parse_scalar, texts(toks@)[i], Some(out@[i])));
                    }
                }
                return Err(Error::Parse { index: k });
            },
        }
        k = k + 1;
    }
    Ok(out)
}

/// A line is a comment when its first character that is no separator is `%`.
pub open spec fn is_comment(line: Seq<char>) -> bool {
    space_len(line) < line.len() && line[space_len(line) as int] == '%'
}

/// Tells the lines that are no comments.
pub open spec fn not_comment() -> spec_fn(Seq<char>) -> bool {
    |line: Seq<char>| !is_comment(line)
}

/// Gives a line's tokens.
pub open spec fn line_tokens() -> spec_fn(Seq<char>) -> Seq<Seq<char>> {
    |line: Seq<char>| tokens(line)
}

/// The tokens of all the lines `ls`, in order.
pub open spec fn flat_tokens(ls: Seq<Seq<char>>) -> Seq<Seq<char>> {
    ls.map_values(line_tokens()).flatten()
}

/// What a matrix document announces and holds: its dimensions and its value tokens.
pub struct Outline {
    pub rows: usize,
    pub cols: usize,
    pub values: Seq<Seq<char>>,
}

/// The outline of the document `text`. Comment lines count nowhere. The first other line is
/// the dimension line: its first two tokens are the numbers of rows and of columns, and what
/// follows them on that line is passed over. The tokens of all later lines are the values.
pub open spec fn outline_of(text: Seq<char>) -> Result<Outline, Error> {
    let body = lines(text).filter(not_comment());
    if body.len() == 0 {
        Err(Error::Format(Malformed::NoDimensions))
    } else {
        let head = tokens(body[0]);
        if head.len() < 2 {
            Err(Error::Format(Malformed::Dimensions))
        } else {
            match (usize_literal(head[0]), usize_literal(head[1])) {
                (Some(rows), Some(cols)) => if rows == 0 || cols == 0 {
                    Err(Error::Format(Malformed::ZeroDimension))
                } else {
                    Ok(Outline { rows, cols, values: flat_tokens(body.skip(1)) })
                },
                _ => Err(Error::Format(Malformed::Dimensions)),
            }
        }
    }
}

/// The dimensions that a matrix document announces, and its value tokens.
#[derive(Debug, PartialEq, Eq)]
pub struct Layout {
    pub nrows: usize,
    pub ncols: usize,
    pub values: Vec<String>,
}

impl View for Layout {
    type V = Outline;

    open spec fn view(&self) -> Outline {
        Outline { rows: self.nrows, cols: self.ncols, values: texts(self.values@) }
    }
}

/// Whether `chars[from..to]` is a comment line.
fn is_comment_line(chars: &Vec<char>, from: usize, to: usize) -> (r: bool)
    requires
        from <= to <= chars.len(),
    ensures
        r == is_comment(chars@.subrange(from as int, to as int)),
{
    let ghost line = chars@.subrange(from as int, to as int);
    let mut j: usize = from;
    assert(line.skip(0) =~= line);
    while j < to && is_whitespace(chars[j])
        invariant
            from <= j <= to <= chars.len(),
            line == chars@.subrange(from as int, to as int),
            space_len(line) == (j - from) + space_len(line.skip(j - from)),
        decreases to - j,
    {
        let ghost tail = line.skip(j - from);
        assert(tail[0] == chars@[j as int]);
        assert(tail.drop_first() =~= line.skip(j + 1 - from));
        j = j + 1;
    }
    proof {
        let tail = line.skip(j - from);
        if j < to {
            assert(tail[0] == chars@[j as int]);
            assert(line[j - from] == chars@[j as int]);
        }
    }
    j < to && chars[j] == '%'
}

/// Reads the dimensions and gathers the value tokens of a matrix document.
pub fn document_layout(text: &str) -> (r: Result<Layout, Error>)
    ensures
        match r {
            Ok(layout) => outline_of(text@) == Ok::<Outline, Error>(layout@),
            Err(e) => outline_of(text@) == Err::<Outline, Error>(e),
        },
{
    let chars = chars_of(text);
    let n: usize = chars.len();
    let mut dims: Option<(usize, usize)> = None;
    let mut values: Vec<String> = Vec::new();
    let mut pos: usize = 0;
    let ghost done: Seq<Seq<char>> = Seq::empty();
    proof {
        assert(chars@.skip(0) =~= chars@);
        reveal(Seq::filter);
        assert(texts(values@) =~= Seq::<Seq<char>>::empty());
    }
    while pos < n
        invariant
            pos <= n == chars.len(),
            chars@ == text@,
            lines(text@) == done + lines(chars@.skip(pos as int)),
            dims is None ==> done.filter(not_comment()).len() == 0 && values@.len() == 0,
            dims matches Some((rows, cols)) ==> {
                let body = done.filter(not_comment());
                &&& body.len() >= 1
                &&& tokens(body[0]).len() >= 2
                &&& usize_literal(tokens(body[0])[0]) == Some(rows)
                &&& usize_literal(tokens(body[0])[1]) == Some(cols)
                &&& rows >= 1
                &&& cols >= 1
                &&& texts(values@) == flat_tokens(body.skip(1))
            },
        decreases n - pos,
    {
        let end = line_end(&chars, pos);
        let next: usize = if end < n {
            end + 1
        } else {
            n
        };
        let ghost rest = chars@.skip(pos as int);
        let ghost line = chars@.subrange(pos as int, end as int);
        let ghost body = done.filter(not_comment());
        proof {
            lemma_line_len_bound(rest);
            assert(rest.take(end - pos) =~= line);
            if end < n {
                assert(rest.skip(end - pos + 1) =~= chars@.skip(end + 1));
            } else {
                assert(rest =~= line);
                assert(lines(chars@.skip(n as int)) =~= Seq::<Seq<char>>::empty());
            }
            assert(lines(rest) =~= seq![line] + lines(chars@.skip(next as int)));
            done.lemma_filter_push(line, not_comment());
            assert(done + seq![line] =~= done.push(line));
        }
        if !is_comment_line(&chars, pos, end) {
            let toks = tokens_in(&chars, pos, end);
            match dims {
                None => {
                    assert(done.push(line).filter(not_comment())[0] == line);
                    assert(lines(text@).filter(not_comment())[0] == line) by {
                        lemma_filter_first(done.push(line), lines(chars@.skip(next as int)));
                    }
                    if toks.len() < 2 {
                        return Err(Error::Format(Malformed::Dimensions));
                    }
                    assert(texts(toks@)[0] == toks@[0]@);
                    assert(texts(toks@)[1] == toks@[1]@);
                    let rows = parse_usize(toks[0].as_str());
                    let cols = parse_usize(toks[1].as_str());
                    match (rows, cols) {
                        (Some(rows), Some(cols)) => {
                            if rows == 0 || cols == 0 {
                                return Err(Error::Format(Malformed::ZeroDimension));
                            }
                            dims = Some((rows, cols));
                            proof {
                                assert(done.push(line).filter(not_comment()).skip(1)
                                    =~= Seq::<Seq<char>>::empty());
                                assert(flat_tokens(Seq::<Seq<char>>::empty())
                                    =~= Seq::<Seq<char>>::empty());
                                assert(texts(values@) =~= Seq::<Seq<char>>::empty());
                            }
                        },
                        _ => {
                            return Err(Error::Format(Malformed::Dimensions));
                        },
                    }
                },
                Some(_) => {
                    proof {
                        let before = body.skip(1);
                        assert(body.push(line).skip(1) =~= before.push(line));
                        before.lemma_push_map_commute(line_tokens(), line);
                        before.map_values(line_tokens()).lemma_flatten_push(tokens(line));
                        assert(texts(values@ + toks@) =~= texts(values@) + texts(toks@));
                    }
                    let mut toks = toks;
                    values.append(&mut toks);
                },
            }
        }
        proof {
            done = done.push(line);
        }
        pos = if end < n {
            end + 1
        } else {
            n
        };
    }
    proof {
        assert(lines(chars@.skip(n as int)) =~= Seq::<Seq<char>>::empty());
        assert(done + Seq::<Seq<char>>::empty() =~= done);
    }
    match dims {
        Some((nrows, ncols)) => Ok(Layout { nrows, ncols, values }),
        None => Err(Error::Format(Malformed::NoDimensions)),
    }
}

/// The mathematical content of a matrix that was read, or why there is none.
pub open spec fn grid_of<T>(r: Result<DenseMatrix<T>, Error>) -> Result<Grid<T>, Error> {
    match r {
        Ok(m) => Ok(m@),
        Err(e) => Err(e),
    }
}

/// The entries of a vector that was read, or why there is none.
pub open spec fn entries_of<T>(r: Result<DenseVector<T>, Error>) -> Result<Seq<T>, Error> {
    match r {
        Ok(v) => Ok(v@),
        Err(e) => Err(e),
    }
}

/// `outcome` is a possible result of making a matrix of `rows` rows and `cols` columns from
/// the value tokens `toks`, taken as its entries row by row. A zero dimension is refused
/// before any token is read; then the tokens are read, up to the first that is no scalar;
/// then their number is held against the dimensions.
pub open spec fn shaped<T, F: Fn(&str) -> Option<T>>(
    parse_scalar: F,
    toks: Seq<Seq<char>>,
    rows: usize,
    cols: usize,
    outcome: Result<Grid<T>, Error>,
) -> bool {
    if rows == 0 || cols == 0 {
        outcome == Err::<Grid<T>, Error>(Error::Format(Malformed::ZeroDimension))
    } else {
        match outcome {
            Ok(grid) => {
                &&& grid.rows == rows
                &&& grid.cols == cols
                &&& grid.wf()
                &&& converted(parse_scalar, toks, Ok(grid.cells))
            },
            Err(Error::Format(Malformed::Count)) => {
                &&& toks.len() != rows * cols
                &&& forall|i: int| 0 <= i < toks.len() ==> accepts(parse_scalar, #[trigger] toks[i])
            },
            Err(e) => converted(parse_scalar, toks, Err::<Seq<T>, Error>(e)),
        }
    }
}

/// Makes the matrix of `nrows` rows and `ncols` columns whose entries, row by row, are the
/// scalars that `parse_scalar` reads from the tokens `toks`.
pub fn matrix_from_tokens<T, F: Fn(&str) -> Option<T>>(
    toks: &Vec<String>,
    nrows: usize,
    ncols: usize,
    parse_scalar: F,
) -> (r: Result<DenseMatrix<T>, Error>)
    requires
        forall|s: &str| call_requires(parse_scalar, (s,)),
    ensures
        shaped(parse_scalar, texts(toks@), nrows, ncols, grid_of(r)),
{
    if nrows == 0 || ncols == 0 {
        return Err(Error::Format(Malformed::ZeroDimension));
    }
    match convert_tokens(toks, parse_scalar) {
        Ok(values) => {
            proof {
                assert forall|i: int| 0 <= i < toks@.len() implies accepts(
                    parse_scalar,
                    #[trigger] texts(toks@)[i],
                ) by {
                    assert(converts(parse_scalar, texts(toks@)[i], Some(values@[i])));
                }
            }
            DenseMatrix::from_row_major(nrows, ncols, values)
        },
        Err(e) => Err(e),
    }
}

/// Reads a matrix of `nrows` rows and `ncols` columns from its entries, written row by row
/// and set apart by whitespace.
pub fn parse_matrix<T, F: Fn(&str) -> Option<T>>(
    matrix_string: &str,
    nrows: usize,
    ncols: usize,
    parse_scalar: F,
) -> (r: Result<DenseMatrix<T>, Error>)
    requires
        forall|s: &str| call_requires(parse_scalar, (s,)),
    ensures
        shaped(parse_scalar, tokens(matrix_string@), nrows, ncols, grid_of(r)),
{
    let toks = split_whitespace(matrix_string);
    matrix_from_tokens(&toks, nrows, ncols, parse_scalar)
}

/// Reads a vector from its entries, set apart by whitespace. There is no vector without an
/// entry.
pub fn parse_vector<T, F: Fn(&str) -> Option<T>>(vector_string: &str, parse_scalar: F) -> (r:
    Result<DenseVector<T>, Error>)
    requires
        forall|s: &str| call_requires(parse_scalar, (s,)),
    ensures
        tokens(vector_string@).len() == 0 ==> r == Err::<DenseVector<T>, Error>(
            Error::Format(Malformed::NoValues),
        ),
        tokens(vector_string@).len() > 0 ==> converted(
            parse_scalar,
            tokens(vector_string@),
            entries_of(r),
        ),
{
    let toks = split_whitespace(vector_string);
    if toks.len() == 0 {
        return Err(Error::Format(Malformed::NoValues));
    }
    match convert_tokens(&toks, parse_scalar) {
        Ok(values) => DenseVector::from_vec(values),
        Err(e) => Err(e),
    }
}

/// `outcome` is a possible result of reading the matrix document `text`: the failure that its
/// layout gives, or else a possible result of making the matrix that its dimension line
/// announces from its value tokens.
pub open spec fn read_as<T, F: Fn(&str) -> Option<T>>(
    parse_scalar: F,
    text: Seq<char>,
    outcome: Result<Grid<T>, Error>,
) -> bool {
    match outline_of(text) {
        Ok(outline) => shaped(parse_scalar, outline.values, outline.rows, outline.cols, outcome),
        Err(e) => outcome == Err::<Grid<T>, Error>(e),
    }
}

/// Reads a matrix document: comment lines, a dimension line, and the entries row by row.
pub fn read_matrix_file<T, F: Fn(&str) -> Option<T>>(text: &str, parse_scalar: F) -> (r: Result<
    DenseMatrix<T>,
    Error,
>)
    requires
        forall|s: &str| call_requires(parse_scalar, (s,)),
    ensures
        read_as(parse_scalar, text@, grid_of(r)),
{
    match document_layout(text) {
        Ok(layout) => matrix_from_tokens(&layout.values, layout.nrows, layout.ncols, parse_scalar),
        Err(e) => Err(e),
    }
}

/// Reads the matrix that the document `text` holds.
pub fn load_matrix<T, F: Fn(&str) -> Option<T>>(text: &str, parse_scalar: F) -> (r: Result<
    DenseMatrix<T>,
    Error,
>)
    requires
        forall|s: &str| call_requires(parse_scalar, (s,)),
    ensures
        read_as(parse_scalar, text@, grid_of(r)),
{
    read_matrix_file(text, parse_scalar)
}

/// Reads the vector that the document `text` holds: the entries of its matrix, row by row.
pub fn load_vector<T, F: Fn(&str) -> Option<T>>(text: &str, parse_scalar: F) -> (r: Result<
    DenseVector<T>,
    Error,
>)
    requires
        forall|s: &str| call_requires(parse_scalar, (s,)),
    ensures
        match r {
            Ok(v) => exists|grid: Grid<T>|
                #[trigger] read_as(parse_scalar, text@, Ok::<Grid<T>, Error>(grid)) && grid.cells
                    == v@,
            Err(e) => read_as(parse_scalar, text@, Err::<Grid<T>, Error>(e)),
        },
{
    match read_matrix_file(text, parse_scalar) {
        Ok(matrix) => {
            assert(read_as(parse_scalar, text@, Ok::<Grid<T>, Error>(matrix@)));
            Ok(matrix.into_vector())
        },
        Err(e) => Err(e),
    }
}

/// The parts, in order, with `sep` between each two neighbours.
pub open spec fn joined(parts: Seq<Seq<char>>, sep: Seq<char>) -> Seq<char>
    decreases parts.len(),
{
    if parts.len() == 0 {
        Seq::empty()
    } else if parts.len() == 1 {
        parts[0]
    } else {
        joined(parts.drop_last(), sep) + sep + parts.last()
    }
}

/// The parts, in order, with `separator` between each two neighbours.
pub fn join(parts: &Vec<String>, separator: &str) -> (r: String)
    ensures
        r@ == joined(texts(parts@), separator@),
{
    let mut out = String::new();
    let mut k: usize = 0;
    while k < parts.len()
        invariant
            k <= parts.len(),
            out@ == joined(texts(parts@).take(k as int), separator@),
        decreases parts.len() - k,
    {
        proof {
            let next = texts(parts@).take(k + 1);
            assert(next.drop_last() =~= texts(parts@).take(k as int));
            assert(next.last() == parts@[k as int]@);
        }
        if k > 0 {
            out.append(separator);
        }
        out.append(parts[k].as_str());
        k = k + 1;
    }
    assert(texts(parts@).take(parts.len() as int) =~= texts(parts@));
    out
}

/// `out` is a text that `render` may give for `value` in the format `format` with
/// `precision` digits.
pub open spec fn renders<T, R: Fn(&T, FloatFormat, usize) -> String>(
    render: R,
    value: T,
    format: FloatFormat,
    precision: usize,
    out: Seq<char>,
) -> bool {
    exists|s: String| s@ == out && call_ensures(render, (&value, format, precision), s)
}

/// `parts` are texts that `render` may give for `values`, one for one.
pub open spec fn rendered<T, R: Fn(&T, FloatFormat, usize) -> String>(
    render: R,
    values: Seq<T>,
    format: FloatFormat,
    precision: usize,
    parts: Seq<Seq<char>>,
) -> bool {
    &&& parts.len() == values.len()
    &&& forall|i: int|
        0 <= i < values.len() ==> renders(render, values[i], format, precision, #[trigger] parts[i])
}

/// Writes each of `values` with `render`.
pub fn render_values<T, R: Fn(&T, FloatFormat, usize) -> String>(
    values: &[T],
    float_format: FloatFormat,
    float_precision: usize,
    render: R,
) -> (r: Vec<String>)
    requires
        forall|v: &T, f: FloatFormat, p: usize| call_requires(render, (v, f, p)),
    ensures
        rendered(render, values@, float_format, float_precision, texts(r@)),
{
    let mut out: Vec<String> = Vec::new();
    let mut k: usize = 0;
    while k < values.len()
        invariant
            k <= values.len(),
            out.len() == k,
            forall|v: &T, f: FloatFormat, p: usize| call_requires(render, (v, f, p)),
            forall|i: int|
                0 <= i < k ==> renders(
                    render,
                    values@[i],
                    float_format,
                    float_precision,
                    #[trigger] texts(out@)[i],
                ),
        decreases values.len() - k,
    {
        let part = render(&values[k], float_format, float_precision);
        let ghost before = out@;
        assert(renders(render, values@[k as int], float_format, float_precision, part@));
        out.push(part);
        proof {
            assert forall|i: int| 0 <= i < k + 1 implies renders(
                render,
                values@[i],
                float_format,
                float_precision,
                #[trigger] texts(out@)[i],
            ) by {
                if i < k {
                    assert(texts(out@)[i] == texts(before)[i]);
                } else {
                    assert(texts(out@)[i] == part@);
                }
            }
        }
        k = k + 1;
    }
    out
}

/// The text of a vector on one line: the entries as written, a blank between each two.
pub open spec fn flat_text(parts: Seq<Seq<char>>) -> Seq<char> {
    joined(parts, seq![' '])
}

/// Puts the entries as written on one line, a blank between each two.
pub fn flat_line(parts: &Vec<String>) -> (r: String)
    ensures
        r@ == flat_text(texts(parts@)),
{
    proof {
        reveal_strlit(" ");
        assert(" "@ =~= seq![' ']);
    }
    join(parts, " ")
}

/// Writes a vector on one line: its entries in order, each as `render` writes it, a blank
/// between each two, and nothing after the last.
pub fn format_vector_flat<T, R: Fn(&T, FloatFormat, usize) -> String>(
    vector: &DenseVector<T>,
    float_format: FloatFormat,
    float_precision: usize,
    render: R,
) -> (r: String)
    requires
        forall|v: &T, f: FloatFormat, p: usize| call_requires(render, (v, f, p)),
    ensures
        exists|parts: Seq<Seq<char>>|
            rendered(render, vector@, float_format, float_precision, parts) && r@ == flat_text(
                parts,
            ),
{
    let parts = render_values(vector.as_slice(), float_format, float_precision, render);
    let out = flat_line(&parts);
    assert(rendered(render, vector@, float_format, float_precision, texts(parts@)) && out@
        == flat_text(texts(parts@)));
    out
}

/// Each part behind two blanks.
pub open spec fn indented(parts: Seq<Seq<char>>) -> Seq<Seq<char>> {
    Seq::new(parts.len(), |i: int| seq![' ', ' '] + parts[i])
}

/// The text of a vector as a document: a comment line with the header, the dimension line
/// (the number of entries, `1`, and the number of entries again), then the entries as
/// written, one on a line behind two blanks. No line feed ends the last line.
pub open spec fn document_text(header: Seq<char>, parts: Seq<Seq<char>>) -> Seq<char> {
    seq!['%', ' '] + header + seq!['\n'] + decimal_digits(parts.len()) + seq![' ', '1', ' ']
        + decimal_digits(parts.len()) + seq!['\n'] + joined(indented(parts), seq!['\n'])
}

/// Puts each part behind two blanks.
fn indent(parts: &Vec<String>) -> (r: Vec<String>)
    ensures
        texts(r@) == indented(texts(parts@)),
{
    let mut out: Vec<String> = Vec::new();
    let mut k: usize = 0;
    while k < parts.len()
        invariant
            k <= parts.len(),
            out.len() == k,
            forall|i: int| 0 <= i < k ==> (#[trigger] out@[i])@ == seq![' ', ' '] + parts@[i]@,
        decreases parts.len() - k,
    {
        let mut line = String::new();
        proof {
            reveal_strlit("  ");
            assert("  "@ =~= seq![' ', ' ']);
        }
        line.append("  ");
        line.append(parts[k].as_str());
        assert(line@ =~= seq![' ', ' '] + parts@[k as int]@);
        out.push(line);
        k = k + 1;
    }
    assert(texts(out@) =~= indented(texts(parts@)));
    out
}

/// Lays out the entries of a vector, as written, as a document under `header`.
pub fn document(header: &str, parts: &Vec<String>) -> (r: String)
    ensures
        r@ == document_text(header@, texts(parts@)),
{
    proof {
        reveal_strlit("% ");
        reveal_strlit("\n");
        reveal_strlit(" 1 ");
        assert("% "@ =~= seq!['%', ' ']);
        assert("\n"@ =~= seq!['\n']);
        assert(" 1 "@ =~= seq![' ', '1', ' ']);
    }
    let count = decimal_string(parts.len());
    let rows = indent(parts);
    let body = join(&rows, "\n");
    let mut out = String::new();
    out.append("% ");
    out.append(header);
    out.append("\n");
    out.append(count.as_str());
    out.append(" 1 ");
    out.append(count.as_str());
    out.append("\n");
    out.append(body.as_str());
    assert(out@ =~= document_text(header@, texts(parts@)));
    out
}

/// Writes a vector as a document under `header`, each entry as `render` writes it.
pub fn format_vector_mm_array<T, R: Fn(&T, FloatFormat, usize) -> String>(
    vector: &DenseVector<T>,
    float_format: FloatFormat,
    float_precision: usize,
    header: &str,
    render: R,
) -> (r: String)
    requires
        forall|v: &T, f: FloatFormat, p: usize| call_requires(render, (v, f, p)),
    ensures
        exists|parts: Seq<Seq<char>>|
            rendered(render, vector@, float_format, float_precision, parts) && r@
                == document_text(header@, parts),
{
    let parts = render_values(vector.as_slice(), float_format, float_precision, render);
    let out = document(header, &parts);
    assert(rendered(render, vector@, float_format, float_precision, texts(parts@)) && out@
        == document_text(header@, texts(parts@)));
    out
}

/// How the flag of a comparison is written.
pub open spec fn flag_text(within: bool) -> Seq<char> {
    if within {
        seq!['t', 'r', 'u', 'e']
    } else {
        seq!['f', 'a', 'l', 's', 'e']
    }
}

/// One row of a comparison: behind two blanks the computed value, the true value, their
/// distance and the flag, a tab between each two.
pub open spec fn row_text(
    computed: Seq<char>,
    truth: Seq<char>,
    distance: Seq<char>,
    within: bool,
) -> Seq<char> {
    seq![' ', ' '] + computed + seq!['\t'] + truth + seq!['\t'] + distance + seq!['\t']
        + flag_text(within)
}

/// The heading of a comparison.
pub open spec fn comparison_heading() -> Seq<char> {
    "% computed \t true \t |delta| \t |delta|<=epsilon"@
}

/// A comparison: the heading on a line of its own, then the rows, one on a line. No line
/// feed ends the last row.
pub open spec fn comparison_text(rows: Seq<Seq<char>>) -> Seq<char> {
    comparison_heading() + seq!['\n'] + joined(rows, seq!['\n'])
}

/// Writes one row of a comparison from its four fields.
pub fn comparison_row(computed: &str, truth: &str, distance: &str, within: bool) -> (r: String)
    ensures
        r@ == row_text(computed@, truth@, distance@, within),
{
    proof {
        reveal_strlit("  ");
        reveal_strlit("\t");
        reveal_strlit("true");
        reveal_strlit("false");
        assert("  "@ =~= seq![' ', ' ']);
        assert("\t"@ =~= seq!['\t']);
        assert("true"@ =~= seq!['t', 'r', 'u', 'e']);
        assert("false"@ =~= seq!['f', 'a', 'l', 's', 'e']);
    }
    let mut out = String::new();
    out.append("  ");
    out.append(computed);
    out.append("\t");
    out.append(truth);
    out.append("\t");
    out.append(distance);
    out.append("\t");
    if within {
        out.append("true");
    } else {
        out.append("false");
    }
    assert(out@ =~= row_text(computed@, truth@, distance@, within));
    out
}

/// Puts the rows of a comparison under its heading.
pub fn comparison_table(rows: &Vec<String>) -> (r: String)
    ensures
        r@ == comparison_text(texts(rows@)),
{
    proof {
        reveal_strlit("\n");
        assert("\n"@ =~= seq!['\n']);
    }
    let body = join(rows, "\n");
    let mut out = String::new();
    out.append("% computed \t true \t |delta| \t |delta|<=epsilon");
    out.append("\n");
    out.append(body.as_str());
    assert(out@ =~= comparison_text(texts(rows@)));
    out
}

/// `row` is a possible row for `computed` and `truth` at the distance `gap`: all three as
/// `render` writes them, and the flag that `below` gives for `gap` and `epsilon`.
pub open spec fn row_of<T, R: Fn(&T, FloatFormat, usize) -> String, L: Fn(&T, &T) -> bool>(
    render: R,
    below: L,
    computed: T,
    truth: T,
    gap: T,
    epsilon: T,
    format: FloatFormat,
    precision: usize,
    row: Seq<char>,
) -> bool {
    exists|c: Seq<char>, t: Seq<char>, d: Seq<char>, flag: bool|
        {
            &&& renders(render, computed, format, precision, c)
            &&& renders(render, truth, format, precision, t)
            &&& renders(render, gap, format, precision, d)
            &&& call_ensures(below, (&gap, &epsilon), flag)
            &&& row == #[trigger] row_text(c, t, d, flag)
        }
}

/// `row` is a possible row of the comparison of `computed` with `truth`: both values, their
/// distance as `distance` gives it, and the flag that tells whether this same distance is
/// below `epsilon`.
pub open spec fn compared<
    T,
    R: Fn(&T, FloatFormat, usize) -> String,
    D: Fn(&T, &T) -> T,
    L: Fn(&T, &T) -> bool,
>(
    render: R,
    distance: D,
    below: L,
    computed: T,
    truth: T,
    epsilon: T,
    format: FloatFormat,
    precision: usize,
    row: Seq<char>,
) -> bool {
    exists|gap: T|
        call_ensures(distance, (&computed, &truth), gap) && #[trigger] row_of(
            render,
            below,
            computed,
            truth,
            gap,
            epsilon,
            format,
            precision,
            row,
        )
}

/// Writes the comparison of a computed vector with the true one, entry by entry: for each
/// entry both values, their distance, and whether the distance is below `epsilon`. Vectors of
/// different lengths are not compared.
///
/// # Arguments
/// * `render` - writes one scalar
/// * `distance` - the absolute difference of two scalars
/// * `below` - whether the first scalar is smaller than the second
///
pub fn format_comparison_results<
    T,
    R: Fn(&T, FloatFormat, usize) -> String,
    D: Fn(&T, &T) -> T,
    L: Fn(&T, &T) -> bool,
>(
    reactions_computed: &DenseVector<T>,
    reactions_true: &DenseVector<T>,
    float_format: FloatFormat,
    float_precision: usize,
    epsilon: &T,
    render: R,
    distance: D,
    below: L,
) -> (r: Result<String, Error>)
    requires
        forall|v: &T, f: FloatFormat, p: usize| call_requires(render, (v, f, p)),
        forall|a: &T, b: &T| call_requires(distance, (a, b)),
        forall|a: &T, b: &T| call_requires(below, (a, b)),
    ensures
        reactions_computed@.len() != reactions_true@.len() ==> r == Err::<String, Error>(
            Error::Index {
                computed: reactions_computed@.len() as usize,
                truth: reactions_true@.len() as usize,
            },
        ),
        reactions_computed@.len() == reactions_true@.len() ==> r is Ok && exists|
            rows: Seq<Seq<char>>,
        |
            {
                &&& rows.len() == reactions_computed@.len()
                &&& forall|i: int|
                    0 <= i < rows.len() ==> compared(
                        render,
                        distance,
                        below,
                        reactions_computed@[i],
                        reactions_true@[i],
                        *epsilon,
                        float_format,
                        float_precision,
                        #[trigger] rows[i],
                    )
                &&& r->Ok_0@ == comparison_text(rows)
            },
{
    let computed = reactions_computed.as_slice();
    let truth = reactions_true.as_slice();
    let n: usize = computed.len();
    if n != truth.len() {
        return Err(Error::Index { computed: n, truth: truth.len() });
    }
    let mut rows: Vec<String> = Vec::new();
    let mut k: usize = 0;
    while k < n
        invariant
            k <= n == computed@.len() == truth@.len(),
            rows.len() == k,
            forall|v: &T, f: FloatFormat, p: usize| call_requires(render, (v, f, p)),
            forall|a: &T, b: &T| call_requires(distance, (a, b)),
            forall|a: &T, b: &T| call_requires(below, (a, b)),
            forall|i: int|
                0 <= i < k ==> compared(
                    render,
                    distance,
                    below,
                    computed@[i],
                    truth@[i],
                    *epsilon,
                    float_format,
                    float_precision,
                    #[trigger] texts(rows@)[i],
                ),
        decreases n - k,
    {
        let c = render(&computed[k], float_format, float_precision);
        let t = render(&truth[k], float_format, float_precision);
        let gap = distance(&computed[k], &truth[k]);
        let d = render(&gap, float_format, float_precision);
        let flag = below(&gap, epsilon);
        let row = comparison_row(c.as_str(), t.as_str(), d.as_str(), flag);
        let ghost before = rows@;
        proof {
            assert(renders(render, computed@[k as int], float_format, float_precision, c@));
            assert(renders(render, truth@[k as int], float_format, float_precision, t@));
            assert(renders(render, gap, float_format, float_precision, d@));
            assert(row@ == row_text(c@, t@, d@, flag));
            assert(row_of(
                render,
                below,
                computed@[k as int],
                truth@[k as int],
                gap,
                *epsilon,
                float_format,
                float_precision,
                row@,
            ));
            assert(compared(
                render,
                distance,
                below,
                computed@[k as int],
                truth@[k as int],
                *epsilon,
                float_format,
                float_precision,
                row@,
            ));
        }
        rows.push(row);
        proof {
            assert forall|i: int| 0 <= i < k + 1 implies compared(
                render,
                distance,
                below,
                computed@[i],
                truth@[i],
                *epsilon,
                float_format,
                float_precision,
                #[trigger] texts(rows@)[i],
            ) by {
                if i < k {
                    assert(texts(rows@)[i] == texts(before)[i]);
                } else {
                    assert(texts(rows@)[i] == row@);
                }
            }
        }
        k = k + 1;
    }
    let out = comparison_table(&rows);
    proof {
        let shown = texts(rows@);
        assert(shown.len() == reactions_computed@.len());
        assert(out@ == comparison_text(shown));
    }
    Ok(out)
}

/// The number of value tokens decides. Where the reader refuses no token: a matrix is made
/// if and only if both dimensions are at least one and the number of tokens is their
/// product, and otherwise the failure is one of format.
pub proof fn lemma_count_decides<T, F: Fn(&str) -> Option<T>>(
    parse_scalar: F,
    toks: Seq<Seq<char>>,
    rows: usize,
    cols: usize,
    outcome: Result<Grid<T>, Error>,
)
    requires
        forall|i: int| 0 <= i < toks.len() ==> !converts(parse_scalar, #[trigger] toks[i], None::<T>),
        shaped(parse_scalar, toks, rows, cols, outcome),
    ensures
        outcome is Ok <==> rows >= 1 && cols >= 1 && toks.len() == rows * cols,
        outcome is Err ==> outcome->Err_0 is Format,
{
}

/// The same of a document. Where its layout is sound and the reader refuses none of its value
/// tokens: the document is read as a matrix if and only if the number of its value tokens is
/// the product of the dimensions that it announces, and otherwise the failure is that of the
/// count.
pub proof fn lemma_document_count_decides<T, F: Fn(&str) -> Option<T>>(
    parse_scalar: F,
    text: Seq<char>,
    outline: Outline,
    outcome: Result<Grid<T>, Error>,
)
    requires
        outline_of(text) == Ok::<Outline, Error>(outline),
        forall|i: int|
            0 <= i < outline.values.len() ==> !converts(
                parse_scalar,
                #[trigger] outline.values[i],
                None::<T>,
            ),
        read_as(parse_scalar, text, outcome),
    ensures
        outline.rows >= 1,
        outline.cols >= 1,
        outcome is Ok <==> outline.values.len() == outline.rows * outline.cols,
        outcome is Err ==> outcome->Err_0 == Error::Format(Malformed::Count),
{
}

/// Entries are taken row by row: the entry in row `row` and column `col` of a matrix that
/// was read is read from the token at position `row * cols + col`.
pub proof fn lemma_entries_row_by_row<T, F: Fn(&str) -> Option<T>>(
    parse_scalar: F,
    toks: Seq<Seq<char>>,
    rows: usize,
    cols: usize,
    grid: Grid<T>,
    row: int,
    col: int,
)
    requires
        shaped(parse_scalar, toks, rows, cols, Ok::<Grid<T>, Error>(grid)),
        0 <= row < rows,
        0 <= col < cols,
    ensures
        0 <= row * cols + col < toks.len(),
        converts(parse_scalar, toks[row * cols + col], Some(grid.at(row, col))),
{
    lemma_row_major_index(rows as int, cols as int, row, col);
}

/// A reader that gives one result for one text leaves one outcome: two outcomes of making a
/// matrix from the same tokens and dimensions are equal.
pub proof fn lemma_outcome_unique<T, F: Fn(&str) -> Option<T>>(
    parse_scalar: F,
    toks: Seq<Seq<char>>,
    rows: usize,
    cols: usize,
    first: Result<Grid<T>, Error>,
    second: Result<Grid<T>, Error>,
)
    requires
        forall|a: &str, b: &str, x: Option<T>, y: Option<T>|
            a@ == b@ && call_ensures(parse_scalar, (a,), x) && call_ensures(parse_scalar, (b,), y)
                ==> x == y,
        shaped(parse_scalar, toks, rows, cols, first),
        shaped(parse_scalar, toks, rows, cols, second),
    ensures
        first == second,
{
    assert forall|t: Seq<char>, x: Option<T>, y: Option<T>|
        converts(parse_scalar, t, x) && converts(parse_scalar, t, y) implies x == y by {
        let a = choose|s: &str| s@ == t && call_ensures(parse_scalar, (s,), x);
        let b = choose|s: &str| s@ == t && call_ensures(parse_scalar, (s,), y);
        assert(a@ == b@);
    }
    if rows == 0 || cols == 0 {
    } else {
        match (first, second) {
            (Ok(g), Ok(h)) => {
                assert(g.cells =~= h.cells) by {
                    assert forall|i: int| 0 <= i < g.cells.len() implies g.cells[i] == h.cells[i] by {
                        assert(converts(parse_scalar, toks[i], Some(g.cells[i])));
                        assert(converts(parse_scalar, toks[i], Some(h.cells[i])));
                    }
                }
            },
            (Ok(g), Err(e)) => {
                lemma_ok_excludes_err(parse_scalar, toks, rows, cols, g, e);
            },
            (Err(e), Ok(g)) => {
                lemma_ok_excludes_err(parse_scalar, toks, rows, cols, g, e);
            },
            (Err(e), Err(f)) => {
                match (e, f) {
                    (Error::Parse { index: i }, Error::Parse { index: j }) => {
                        if i < j {
                            let v = choose|v: T| converts(parse_scalar, toks[i as int], Some(v));
                            assert(converts(parse_scalar, toks[i as int], Some(v)));
                            assert(converts(parse_scalar, toks[i as int], None::<T>));
                        } else if j < i {
                            let v = choose|v: T| converts(parse_scalar, toks[j as int], Some(v));
                            assert(converts(parse_scalar, toks[j as int], Some(v)));
                            assert(converts(parse_scalar, toks[j as int], None::<T>));
                        }
                    },
                    (Error::Parse { index: i }, Error::Format(Malformed::Count)) => {
                        let v = choose|v: T| converts(parse_scalar, toks[i as int], Some(v));
                        assert(converts(parse_scalar, toks[i as int], Some(v)));
                    },
                    (Error::Format(Malformed::Count), Error::Parse { index: j }) => {
                        let v = choose|v: T| converts(parse_scalar, toks[j as int], Some(v));
                        assert(converts(parse_scalar, toks[j as int], Some(v)));
                    },
                    _ => {},
                }
            },
        }
    }
}

/// With a reader that gives one result for one text, a matrix and a failure cannot both be
/// outcomes for the same tokens and dimensions.
proof fn lemma_ok_excludes_err<T, F: Fn(&str) -> Option<T>>(
    parse_scalar: F,
    toks: Seq<Seq<char>>,
    rows: usize,
    cols: usize,
    grid: Grid<T>,
    e: Error,
)
    requires
        rows >= 1,
        cols >= 1,
        forall|t: Seq<char>, x: Option<T>, y: Option<T>|
            converts(parse_scalar, t, x) && converts(parse_scalar, t, y) ==> x == y,
        shaped(parse_scalar, toks, rows, cols, Ok::<Grid<T>, Error>(grid)),
    ensures
        !shaped(parse_scalar, toks, rows, cols, Err::<Grid<T>, Error>(e)),
{
    match e {
        Error::Parse { index } => {
            if index < toks.len() && converts(parse_scalar, toks[index as int], None::<T>) {
                assert(converts(parse_scalar, toks[index as int], Some(grid.cells[index as int])));
            }
        },
        _ => {},
    }
}

/// The first line kept of `a + b` is the first line kept of `a`, when `a` has one.
proof fn lemma_filter_first(a: Seq<Seq<char>>, b: Seq<Seq<char>>)
    requires
        a.filter(not_comment()).len() >= 1,
    ensures
        (a + b).filter(not_comment()).len() >= 1,
        (a + b).filter(not_comment())[0] == a.filter(not_comment())[0],
{
    Seq::filter_distributes_over_add(a, b, not_comment());
}

} // verus!
