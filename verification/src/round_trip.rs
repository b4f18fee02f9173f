//! What the writers write, the readers read: the layout of a written vector, as the reader
//! sees it.

use vstd::prelude::*;
use crate::error::Error;
use crate::io::{
    converts, document_text, flat_text, flat_tokens, indented, is_comment, joined, line_tokens,
    not_comment, outline_of, read_as, shaped, Outline,
};
use crate::matrix::Grid;
use crate::number::{
    decimal_digits, is_digit, lemma_decimal_round_trip, usize_literal,
};
use crate::text::{
    is_space, is_token, lemma_lines_cons, lemma_lines_single, lemma_space_len_concat,
    lemma_tokens_are_tokens,
    lemma_tokens_after_spaces, lemma_tokens_concat, lemma_tokens_of_token, lines, one_line, tokens,
};

verus! {

/// The tokens of a vector written on one line are the entries as written, if each was
/// written as a token.
pub proof fn lemma_flat_text_tokens(parts: Seq<Seq<char>>)
    requires
        forall|i: int| 0 <= i < parts.len() ==> is_token(#[trigger] parts[i]),
    ensures
        tokens(flat_text(parts)) == parts,
    decreases parts.len(),
{
    if parts.len() == 0 {
        assert(tokens(flat_text(parts)) =~= parts);
    } else if parts.len() == 1 {
        lemma_tokens_of_token(parts[0]);
        assert(seq![parts[0]] =~= parts);
    } else {
        let init = parts.drop_last();
        let last = parts.last();
        assert forall|i: int| 0 <= i < init.len() implies is_token(#[trigger] init[i]) by {
            assert(init[i] == parts[i]);
        }
        lemma_flat_text_tokens(init);
        let blank = seq![' '];
        assert(flat_text(parts) =~= flat_text(init) + (blank + last));
        assert((blank + last)[0] == ' ');
        lemma_tokens_concat(flat_text(init), blank + last);
        lemma_tokens_after_spaces(blank, last);
        lemma_tokens_of_token(last);
        assert(init + seq![last] =~= parts);
    }
}

/// Writing the tokens of a text on one line, a blank between each two, leaves its tokens as
/// they are.
pub proof fn lemma_tokens_of_flat_tokens(s: Seq<char>)
    ensures
        tokens(flat_text(tokens(s))) == tokens(s),
{
    lemma_tokens_are_tokens(s);
    lemma_flat_text_tokens(tokens(s));
}

/// Parts joined with a separator: the first part, the separator, and the others joined.
pub proof fn lemma_joined_front(parts: Seq<Seq<char>>, sep: Seq<char>)
    requires
        parts.len() >= 2,
    ensures
        joined(parts, sep) == parts[0] + sep + joined(parts.drop_first(), sep),
    decreases parts.len(),
{
    let init = parts.drop_last();
    let tail = parts.drop_first();
    if parts.len() == 2 {
        assert(joined(init, sep) == parts[0]);
        assert(joined(tail, sep) == parts[1]);
    } else {
        lemma_joined_front(init, sep);
        assert(init.drop_first() =~= tail.drop_last());
        assert(tail.last() == parts.last());
        assert(init[0] == parts[0]);
        assert(joined(parts, sep) =~= parts[0] + sep + (joined(tail.drop_last(), sep) + sep
            + tail.last()));
    }
}

/// Lines that are joined with line feeds are read as the same lines again.
pub proof fn lemma_lines_joined(ls: Seq<Seq<char>>)
    requires
        ls.len() >= 1,
        forall|i: int| 0 <= i < ls.len() ==> one_line(#[trigger] ls[i]) && ls[i].len() > 0,
    ensures
        lines(joined(ls, seq!['\n'])) == ls,
    decreases ls.len(),
{
    let feed = seq!['\n'];
    if ls.len() == 1 {
        lemma_lines_single(ls[0]);
        assert(seq![ls[0]] =~= ls);
    } else {
        let tail = ls.drop_first();
        assert forall|i: int| 0 <= i < tail.len() implies one_line(#[trigger] tail[i])
            && tail[i].len() > 0 by {
            assert(tail[i] == ls[i + 1]);
        }
        lemma_joined_front(ls, feed);
        lemma_lines_cons(ls[0], joined(tail, feed));
        lemma_lines_joined(tail);
        assert(seq![ls[0]] + tail =~= ls);
    }
}

/// Where no line is a comment, all lines stay.
pub proof fn lemma_content_keeps_all(ls: Seq<Seq<char>>)
    requires
        forall|i: int| 0 <= i < ls.len() ==> !is_comment(#[trigger] ls[i]),
    ensures
        ls.filter(not_comment()) == ls,
    decreases ls.len(),
{
    reveal(Seq::filter);
    if ls.len() > 0 {
        let init = ls.drop_last();
        assert forall|i: int| 0 <= i < init.len() implies !is_comment(#[trigger] init[i]) by {
            assert(init[i] == ls[i]);
        }
        lemma_content_keeps_all(init);
        assert(not_comment()(ls.last()));
        assert(init.push(ls.last()) =~= ls);
    }
}

/// The tokens of tokens written one on a line, each behind two blanks, are those tokens.
pub proof fn lemma_flat_tokens_indented(parts: Seq<Seq<char>>)
    requires
        forall|i: int| 0 <= i < parts.len() ==> is_token(#[trigger] parts[i]),
    ensures
        flat_tokens(indented(parts)) == parts,
    decreases parts.len(),
{
    if parts.len() == 0 {
        assert(indented(parts).map_values(line_tokens()) =~= Seq::<Seq<Seq<char>>>::empty());
        assert(flat_tokens(indented(parts)) =~= parts);
    } else {
        let init = parts.drop_last();
        let last = parts.last();
        assert forall|i: int| 0 <= i < init.len() implies is_token(#[trigger] init[i]) by {
            assert(init[i] == parts[i]);
        }
        lemma_flat_tokens_indented(init);
        let pad = seq![' ', ' '];
        assert(indented(parts) =~= indented(init).push(pad + last));
        indented(init).lemma_push_map_commute(line_tokens(), pad + last);
        indented(init).map_values(line_tokens()).lemma_flatten_push(tokens(pad + last));
        lemma_tokens_after_spaces(pad, last);
        lemma_tokens_of_token(last);
        assert(init + seq![last] =~= parts);
    }
}

/// The dimension line of a written vector of `n` entries holds three tokens: the numeral of
/// `n`, `1`, and the numeral of `n` again.
proof fn lemma_dimension_line(n: nat)
    ensures
        one_line(dimension_line(n)),
        !is_comment(dimension_line(n)),
        tokens(dimension_line(n)) == seq![decimal_digits(n), seq!['1'], decimal_digits(n)],
        tokens(dimension_line(n)).len() == 3,
        tokens(dimension_line(n))[0] == decimal_digits(n),
        tokens(dimension_line(n))[1] == seq!['1'],
{
    let d = decimal_digits(n);
    let one = seq!['1'];
    let line = d + seq![' ', '1', ' '] + d;
    let three = seq![d, one, d];
    lemma_decimal_round_trip(n);
    assert forall|i: int| 0 <= i < d.len() implies !is_space(#[trigger] d[i]) && d[i] != '\n'
        && d[i] != '%' by {
        assert(is_digit(d[i]));
    }
    assert(is_token(d));
    assert(is_token(one));
    assert(three.drop_last() =~= seq![d, one]);
    assert(seq![d, one].drop_last() =~= seq![d]);
    assert(flat_text(seq![d]) == d);
    assert(flat_text(seq![d, one]) =~= d + seq![' '] + one);
    assert(flat_text(three) =~= line);
    assert forall|i: int| 0 <= i < three.len() implies is_token(#[trigger] three[i]) by {}
    lemma_flat_text_tokens(three);
    assert forall|i: int| 0 <= i < line.len() implies #[trigger] line[i] != '\n' by {
        if i < d.len() {
            assert(line[i] == d[i]);
        } else if i >= d.len() + 3 {
            assert(line[i] == d[i - d.len() - 3]);
        }
    }
    assert(line[0] == d[0]);
    lemma_space_len_concat(Seq::empty(), line);
    assert(Seq::<char>::empty() + line =~= line);
}

/// The comment line of a written vector.
pub open spec fn comment_line(header: Seq<char>) -> Seq<char> {
    seq!['%', ' '] + header
}

/// The dimension line of a written vector of `n` entries.
pub open spec fn dimension_line(n: nat) -> Seq<char> {
    decimal_digits(n) + seq![' ', '1', ' '] + decimal_digits(n)
}

/// An entry written as a token that does not begin with `%`, behind two blanks, makes a
/// line that is no comment.
proof fn lemma_indented_rows(parts: Seq<Seq<char>>)
    requires
        forall|i: int| 0 <= i < parts.len() ==> is_token(#[trigger] parts[i]) && parts[i][0] != '%',
    ensures
        forall|i: int|
            0 <= i < parts.len() ==> one_line(#[trigger] indented(parts)[i]) && indented(
                parts,
            )[i].len() > 0 && !is_comment(indented(parts)[i]),
{
    let rows = indented(parts);
    let pad = seq![' ', ' '];
    assert forall|i: int| 0 <= i < parts.len() implies one_line(#[trigger] rows[i]) && rows[i].len()
        > 0 && !is_comment(rows[i]) by {
        let p = parts[i];
        assert(is_token(p));
        assert(rows[i] == pad + p);
        assert forall|j: int| 0 <= j < rows[i].len() implies #[trigger] rows[i][j] != '\n' by {
            if j >= 2 {
                assert(rows[i][j] == p[j - 2]);
                assert(!is_space(p[j - 2]));
            }
        }
        lemma_space_len_concat(pad, p);
        assert(rows[i][2] == p[0]);
    }
}

/// The lines of a written vector: the comment line, the dimension line, and one line for
/// each entry.
proof fn lemma_document_lines(header: Seq<char>, parts: Seq<Seq<char>>)
    requires
        one_line(header),
        parts.len() >= 1,
        forall|i: int| 0 <= i < parts.len() ==> is_token(#[trigger] parts[i]) && parts[i][0] != '%',
    ensures
        lines(document_text(header, parts)) == seq![comment_line(header)] + (seq![
            dimension_line(parts.len()),
        ] + indented(parts)),
{
    let feed = seq!['\n'];
    let comment = comment_line(header);
    let dims = dimension_line(parts.len());
    let rows = indented(parts);
    let body_text = joined(rows, feed);
    assert(document_text(header, parts) =~= comment + feed + (dims + feed + body_text));
    assert forall|i: int| 0 <= i < comment.len() implies #[trigger] comment[i] != '\n' by {
        if i >= 2 {
            assert(comment[i] == header[i - 2]);
        }
    }
    lemma_dimension_line(parts.len());
    lemma_indented_rows(parts);
    lemma_lines_cons(comment, dims + feed + body_text);
    lemma_lines_cons(dims, body_text);
    lemma_lines_joined(rows);
}

/// Of the lines of a written vector, all but the comment line count.
proof fn lemma_document_content(header: Seq<char>, parts: Seq<Seq<char>>)
    requires
        forall|i: int| 0 <= i < parts.len() ==> is_token(#[trigger] parts[i]) && parts[i][0] != '%',
    ensures
        (seq![comment_line(header)] + (seq![dimension_line(parts.len())] + indented(parts))).filter(
            not_comment(),
        ) == seq![dimension_line(parts.len())] + indented(parts),
{
    let comment = comment_line(header);
    let dims = dimension_line(parts.len());
    let rows = indented(parts);
    let kept = seq![dims] + rows;
    lemma_dimension_line(parts.len());
    lemma_indented_rows(parts);
    assert(is_comment(comment)) by {
        lemma_space_len_concat(Seq::empty(), comment);
        assert(Seq::<char>::empty() + comment =~= comment);
        assert(comment[0] == '%');
    }
    assert forall|i: int| 0 <= i < kept.len() implies !is_comment(#[trigger] kept[i]) by {
        if i > 0 {
            assert(kept[i] == rows[i - 1]);
        }
    }
    lemma_content_keeps_all(kept);
    assert(seq![comment].filter(not_comment()) =~= Seq::<Seq<char>>::empty()) by {
        Seq::<Seq<char>>::empty().lemma_filter_push(comment, not_comment());
        assert(Seq::<Seq<char>>::empty().push(comment) =~= seq![comment]);
        assert(!not_comment()(comment));
        assert(Seq::<Seq<char>>::empty().filter(not_comment()) =~= Seq::<Seq<char>>::empty()) by {
            reveal(Seq::filter);
        }
    }
    Seq::filter_distributes_over_add(seq![comment], kept, not_comment());
    assert(Seq::<Seq<char>>::empty() + kept =~= kept);
}

/// The outline of a text, from its lines that are no comments: the dimension line and the
/// lines behind it.
proof fn lemma_outline_of_body(
    text: Seq<char>,
    head: Seq<char>,
    rest: Seq<Seq<char>>,
    rows: usize,
    cols: usize,
)
    requires
        lines(text).filter(not_comment()) == seq![head] + rest,
        tokens(head).len() >= 2,
        usize_literal(tokens(head)[0]) == Some(rows),
        usize_literal(tokens(head)[1]) == Some(cols),
        rows >= 1,
        cols >= 1,
    ensures
        outline_of(text) == Ok::<Outline, Error>(Outline { rows, cols, values: flat_tokens(rest) }),
{
    let body = lines(text).filter(not_comment());
    assert(body[0] == head);
    assert(body.skip(1) =~= rest);
}

/// The numerals on the dimension line of a written vector of `n` entries are read as `n`
/// and as one.
proof fn lemma_dimension_numerals(n: nat)
    requires
        n <= usize::MAX,
    ensures
        usize_literal(decimal_digits(n)) == Some(n as usize),
        usize_literal(seq!['1']) == Some(1usize),
{
    lemma_decimal_round_trip(n);
    lemma_decimal_round_trip(1);
    assert(decimal_digits(1) =~= seq!['1']);
}

/// Reading the layout of a vector that was written as a document. If the header holds no
/// line feed, and each entry was written as a token that does not begin with `%`, then the
/// reader finds as many rows as there are entries, one column, and as value tokens the
/// entries as written.
pub proof fn lemma_document_text_outline(header: Seq<char>, parts: Seq<Seq<char>>)
    requires
        one_line(header),
        1 <= parts.len() <= usize::MAX,
        forall|i: int| 0 <= i < parts.len() ==> is_token(#[trigger] parts[i]) && parts[i][0] != '%',
    ensures
        outline_of(document_text(header, parts)) == Ok::<Outline, Error>(
            Outline { rows: parts.len() as usize, cols: 1, values: parts },
        ),
{
    let n = parts.len();
    let text = document_text(header, parts);
    let head = dimension_line(n);
    let rest = indented(parts);
    assert(lines(text).filter(not_comment()) == seq![head] + rest) by {
        lemma_document_lines(header, parts);
        lemma_document_content(header, parts);
    }
    assert(tokens(head).len() >= 2 && usize_literal(tokens(head)[0]) == Some(n as usize)
        && usize_literal(tokens(head)[1]) == Some(1usize)) by {
        lemma_dimension_line(n);
        lemma_dimension_numerals(n);
    }
    assert(flat_tokens(rest) == parts) by {
        lemma_flat_tokens_indented(parts);
    }
    lemma_outline_of_body(text, head, rest, n as usize, 1);
}

/// Reading back a vector that was written on one line. If each entry was written as a
/// token, and the reader refuses none of these tokens, then reading the line as a matrix of
/// one column succeeds, and gives as many entries as were written, each read from the text
/// that was written for it.
pub proof fn lemma_flat_text_reads_back<T, F: Fn(&str) -> Option<T>>(
    parse_scalar: F,
    parts: Seq<Seq<char>>,
    outcome: Result<Grid<T>, Error>,
)
    requires
        1 <= parts.len() <= usize::MAX,
        forall|i: int| 0 <= i < parts.len() ==> is_token(#[trigger] parts[i]),
        forall|i: int| 0 <= i < parts.len() ==> !converts(parse_scalar, #[trigger] parts[i], None::<T>),
        shaped(parse_scalar, tokens(flat_text(parts)), parts.len() as usize, 1, outcome),
    ensures
        outcome is Ok,
        outcome->Ok_0.rows == parts.len(),
        outcome->Ok_0.cols == 1,
        outcome->Ok_0.cells.len() == parts.len(),
        forall|i: int|
            0 <= i < parts.len() ==> converts(
                parse_scalar,
                parts[i],
                Some(#[trigger] outcome->Ok_0.cells[i]),
            ),
{
    lemma_flat_text_tokens(parts);
}

/// Reading back a vector that was written as a document. If the header holds no line feed,
/// each entry was written as a token that does not begin with `%`, and the reader refuses
/// none of these tokens, then reading the document succeeds, and gives a matrix of one
/// column with as many rows as entries were written, each entry read from the text that was
/// written for it.
pub proof fn lemma_document_text_reads_back<T, F: Fn(&str) -> Option<T>>(
    parse_scalar: F,
    header: Seq<char>,
    parts: Seq<Seq<char>>,
    outcome: Result<Grid<T>, Error>,
)
    requires
        one_line(header),
        1 <= parts.len() <= usize::MAX,
        forall|i: int| 0 <= i < parts.len() ==> is_token(#[trigger] parts[i]) && parts[i][0] != '%',
        forall|i: int| 0 <= i < parts.len() ==> !converts(parse_scalar, #[trigger] parts[i], None::<T>),
        read_as(parse_scalar, document_text(header, parts), outcome),
    ensures
        outcome is Ok,
        outcome->Ok_0.rows == parts.len(),
        outcome->Ok_0.cols == 1,
        outcome->Ok_0.cells.len() == parts.len(),
        forall|i: int|
            0 <= i < parts.len() ==> converts(
                parse_scalar,
                parts[i],
                Some(#[trigger] outcome->Ok_0.cells[i]),
            ),
{
    lemma_document_text_outline(header, parts);
}

} // verus!
