//! Characters, whitespace-delimited tokens and lines.

use vstd::prelude::*;

verus! {

/// The characters that separate tokens: those that Unicode calls `White_Space`.
pub open spec fn is_space(c: char) -> bool {
    let n = c as u32;
    ||| 0x09 <= n <= 0x0D
    ||| n == 0x20
    ||| n == 0x85
    ||| n == 0xA0
    ||| n == 0x1680
    ||| 0x2000 <= n <= 0x200A
    ||| n == 0x2028
    ||| n == 0x2029
    ||| n == 0x202F
    ||| n == 0x205F
    ||| n == 0x3000
}

/// Number of characters at the front of `s` before its first separator.
pub open spec fn word_len(s: Seq<char>) -> nat
    decreases s.len(),
{
    if s.len() == 0 || is_space(s[0]) {
        0
    } else {
        1 + word_len(s.drop_first())
    }
}

/// The tokens of `s`: its maximal runs of characters that are not separators, in order.
pub open spec fn tokens(s: Seq<char>) -> Seq<Seq<char>>
    decreases s.len(),
{
    if s.len() == 0 {
        Seq::empty()
    } else if is_space(s[0]) {
        tokens(s.drop_first())
    } else {
        proof {
            lemma_word_len_bound(s);
        }
        seq![s.take(word_len(s) as int)] + tokens(s.skip(word_len(s) as int))
    }
}

/// Number of separators at the front of `s`.
pub open spec fn space_len(s: Seq<char>) -> nat
    decreases s.len(),
{
    if s.len() == 0 || !is_space(s[0]) {
        0
    } else {
        1 + space_len(s.drop_first())
    }
}

/// Number of characters at the front of `s` before its first line feed.
pub open spec fn line_len(s: Seq<char>) -> nat
    decreases s.len(),
{
    if s.len() == 0 || s[0] == '\n' {
        0
    } else {
        1 + line_len(s.drop_first())
    }
}

/// The lines of `s`. A line ends before a line feed or at the end of `s`; what follows the
/// last line feed is a line only if it holds a character.
pub open spec fn lines(s: Seq<char>) -> Seq<Seq<char>>
    decreases s.len(),
{
    if s.len() == 0 {
        Seq::empty()
    } else if line_len(s) < s.len() {
        seq![s.take(line_len(s) as int)] + lines(s.skip(line_len(s) as int + 1))
    } else {
        seq![s]
    }
}

/// The character contents of a sequence of strings.
pub open spec fn texts(v: Seq<String>) -> Seq<Seq<char>> {
    Seq::new(v.len(), |i: int| v[i]@)
}

/// The first word of a text lies inside it and holds no separator; it holds a character
/// where the text begins with one that is no separator.
pub proof fn lemma_word_len_bound(s: Seq<char>)
    ensures
        word_len(s) <= s.len(),
        s.len() > 0 && !is_space(s[0]) ==> word_len(s) >= 1,
        forall|i: int| 0 <= i < word_len(s) ==> !is_space(#[trigger] s[i]),
    decreases s.len(),
{
    if s.len() > 0 && !is_space(s[0]) {
        let t = s.drop_first();
        lemma_word_len_bound(t);
        assert forall|i: int| 0 <= i < word_len(s) implies !is_space(#[trigger] s[i]) by {
            if i > 0 {
                assert(s[i] == t[i - 1]);
            }
        }
    }
}

/// Whether `c` separates tokens.
pub fn is_whitespace(c: char) -> (r: bool)
    ensures
        r == is_space(c),
{
    let n: u32 = c as u32;
    (0x09 <= n && n <= 0x0D) || n == 0x20 || n == 0x85 || n == 0xA0 || n == 0x1680 || (0x2000 <= n
        && n <= 0x200A) || n == 0x2028 || n == 0x2029 || n == 0x202F || n == 0x205F || n == 0x3000
}

/// `String::push`: the string grows by the one character given, at its end.
#[verifier::external_body]
pub(crate) fn push_char(s: &mut String, c: char)
    ensures
        final(s)@ == old(s)@.push(c),
{
    s.push(c);
}

/// The characters of `text`, in order.
pub fn chars_of(text: &str) -> (r: Vec<char>)
    ensures
        r@ == text@,
{
    let mut out: Vec<char> = Vec::new();
    for c in it: text.chars()
        invariant
            out@ == text@.take(it.index() as int),
            it.seq() == text@,
    {
        out.push(c);
    }
    out
}

/// The string made of `chars[from..to]`.
pub(crate) fn string_of(chars: &Vec<char>, from: usize, to: usize) -> (r: String)
    requires
        from <= to <= chars.len(),
    ensures
        r@ == chars@.subrange(from as int, to as int),
{
    let mut out = String::new();
    let mut i: usize = from;
    while i < to
        invariant
            from <= i <= to <= chars.len(),
            out@ == chars@.subrange(from as int, i as int),
        decreases to - i,
    {
        push_char(&mut out, chars[i]);
        i = i + 1;
    }
    out
}

/// The first line of a text lies inside it and holds no line feed; behind it stands a line
/// feed or nothing.
pub proof fn lemma_line_len_bound(s: Seq<char>)
    ensures
        line_len(s) <= s.len(),
        line_len(s) < s.len() ==> s[line_len(s) as int] == '\n',
        forall|i: int| 0 <= i < line_len(s) ==> s[i] != '\n',
    decreases s.len(),
{
    if s.len() > 0 && s[0] != '\n' {
        let t = s.drop_first();
        lemma_line_len_bound(t);
        assert forall|i: int| 0 <= i < line_len(s) implies s[i] != '\n' by {
            if i > 0 {
                assert(s[i] == t[i - 1]);
            }
        }
    }
}

/// A token: at least one character, and no separator among its characters.
pub open spec fn is_token(s: Seq<char>) -> bool {
    s.len() > 0 && forall|i: int| 0 <= i < s.len() ==> !is_space(#[trigger] s[i])
}

/// Every token of a text holds a character, and no separator.
pub proof fn lemma_tokens_are_tokens(s: Seq<char>)
    ensures
        forall|i: int| 0 <= i < tokens(s).len() ==> is_token(#[trigger] tokens(s)[i]),
    decreases s.len(),
{
    if s.len() == 0 {
        assert(tokens(s).len() == 0);
    } else if is_space(s[0]) {
        lemma_tokens_are_tokens(s.drop_first());
        assert(tokens(s) == tokens(s.drop_first()));
    } else {
        lemma_word_len_bound(s);
        let n = word_len(s) as int;
        let first = s.take(n);
        let rest = tokens(s.skip(n));
        lemma_tokens_are_tokens(s.skip(n));
        assert(is_token(first)) by {
            assert forall|j: int| 0 <= j < first.len() implies !is_space(#[trigger] first[j]) by {
                assert(first[j] == s[j]);
            }
        }
        assert forall|i: int| 0 <= i < tokens(s).len() implies is_token(#[trigger] tokens(s)[i]) by {
            if i > 0 {
                assert(tokens(s)[i] == rest[i - 1]);
            } else {
                assert(tokens(s)[0] == first);
            }
        }
    }
}

/// The first word of `a` is not changed by what follows `a`, if that begins with a separator.
pub proof fn lemma_word_len_concat(a: Seq<char>, b: Seq<char>)
    requires
        b.len() == 0 || is_space(b[0]),
        a.len() > 0,
    ensures
        word_len(a + b) == word_len(a),
    decreases a.len(),
{
    let ab = a + b;
    if !is_space(a[0]) {
        assert(ab[0] == a[0]);
        assert(ab.drop_first() =~= a.drop_first() + b);
        if a.len() > 1 {
            lemma_word_len_concat(a.drop_first(), b);
        } else {
            assert(a.drop_first() + b =~= b);
            assert(word_len(a.drop_first()) == 0);
            assert(word_len(b) == 0);
        }
        assert(word_len(ab) == 1 + word_len(ab.drop_first()));
        assert(word_len(a) == 1 + word_len(a.drop_first()));
    } else {
        assert(ab[0] == a[0]);
    }
}

/// The tokens of a text followed by one that begins with a separator are those of the first,
/// then those of the second.
pub proof fn lemma_tokens_concat(a: Seq<char>, b: Seq<char>)
    requires
        b.len() == 0 || is_space(b[0]),
    ensures
        tokens(a + b) == tokens(a) + tokens(b),
    decreases a.len(),
{
    let ab = a + b;
    if a.len() == 0 {
        assert(ab =~= b);
        assert(tokens(a) + tokens(b) =~= tokens(b));
    } else if is_space(a[0]) {
        assert(ab[0] == a[0]);
        assert(ab.drop_first() =~= a.drop_first() + b);
        lemma_tokens_concat(a.drop_first(), b);
    } else {
        assert(ab[0] == a[0]);
        lemma_word_len_concat(a, b);
        lemma_word_len_bound(a);
        let n = word_len(a) as int;
        assert(ab.take(n) =~= a.take(n));
        assert(ab.skip(n) =~= a.skip(n) + b);
        lemma_tokens_concat(a.skip(n), b);
        assert(seq![a.take(n)] + (tokens(a.skip(n)) + tokens(b)) =~= (seq![a.take(n)] + tokens(
            a.skip(n),
        )) + tokens(b));
    }
}

/// A token is the one token of itself.
pub proof fn lemma_tokens_of_token(w: Seq<char>)
    requires
        is_token(w),
    ensures
        word_len(w) == w.len(),
        tokens(w) == seq![w],
    decreases w.len(),
{
    assert(!is_space(w[0]));
    if w.len() > 1 {
        let rest = w.drop_first();
        assert forall|i: int| 0 <= i < rest.len() implies !is_space(#[trigger] rest[i]) by {
            assert(rest[i] == w[i + 1]);
        }
        lemma_tokens_of_token(rest);
    } else {
        assert(w.drop_first().len() == 0);
        assert(word_len(w.drop_first()) == 0);
    }
    assert(word_len(w) == 1 + word_len(w.drop_first()));
    assert(w.take(w.len() as int) =~= w);
    assert(w.skip(w.len() as int).len() == 0);
    assert(tokens(w.skip(w.len() as int)) =~= Seq::<Seq<char>>::empty());
    assert(seq![w] + Seq::<Seq<char>>::empty() =~= seq![w]);
}

/// Separators in front of a text add no token.
pub proof fn lemma_tokens_after_spaces(pad: Seq<char>, s: Seq<char>)
    requires
        forall|i: int| 0 <= i < pad.len() ==> is_space(#[trigger] pad[i]),
    ensures
        tokens(pad + s) == tokens(s),
    decreases pad.len(),
{
    if pad.len() == 0 {
        assert(pad + s =~= s);
    } else {
        let rest = pad.drop_first();
        assert((pad + s)[0] == pad[0]);
        assert((pad + s).drop_first() =~= rest + s);
        assert forall|i: int| 0 <= i < rest.len() implies is_space(#[trigger] rest[i]) by {
            assert(rest[i] == pad[i + 1]);
        }
        lemma_tokens_after_spaces(rest, s);
    }
}

/// Whether no character of `s` is a line feed.
pub open spec fn one_line(s: Seq<char>) -> bool {
    forall|i: int| 0 <= i < s.len() ==> #[trigger] s[i] != '\n'
}

/// A text without line feed, followed by nothing or by a line feed, is the first line.
pub proof fn lemma_line_len_concat(a: Seq<char>, b: Seq<char>)
    requires
        one_line(a),
        b.len() == 0 || b[0] == '\n',
    ensures
        line_len(a + b) == a.len(),
    decreases a.len(),
{
    let ab = a + b;
    if a.len() == 0 {
        assert(ab =~= b);
    } else {
        assert(ab[0] == a[0]);
        let rest = a.drop_first();
        assert(ab.drop_first() =~= rest + b);
        assert forall|i: int| 0 <= i < rest.len() implies #[trigger] rest[i] != '\n' by {
            assert(rest[i] == a[i + 1]);
        }
        lemma_line_len_concat(rest, b);
        assert(line_len(ab) == 1 + line_len(ab.drop_first()));
    }
}

/// A line followed by a line feed is the first of the lines, and the lines of what follows
/// the line feed are the others.
pub proof fn lemma_lines_cons(a: Seq<char>, rest: Seq<char>)
    requires
        one_line(a),
    ensures
        lines(a + seq!['\n'] + rest) == seq![a] + lines(rest),
{
    let feed = seq!['\n'];
    let s = a + feed + rest;
    assert(s =~= a + (feed + rest));
    assert((feed + rest)[0] == '\n');
    lemma_line_len_concat(a, feed + rest);
    assert(s.take(a.len() as int) =~= a);
    assert(s.skip(a.len() as int + 1) =~= rest);
}

/// A text without line feed that holds a character is its own and only line.
pub proof fn lemma_lines_single(a: Seq<char>)
    requires
        one_line(a),
        a.len() > 0,
    ensures
        lines(a) == seq![a],
{
    lemma_line_len_concat(a, Seq::empty());
    assert(a + Seq::<char>::empty() =~= a);
}

/// Separators in front of a text that begins with another character are all the separators
/// at its front.
pub proof fn lemma_space_len_concat(pad: Seq<char>, s: Seq<char>)
    requires
        forall|i: int| 0 <= i < pad.len() ==> is_space(#[trigger] pad[i]),
        s.len() > 0,
        !is_space(s[0]),
    ensures
        space_len(pad + s) == pad.len(),
    decreases pad.len(),
{
    let ps = pad + s;
    if pad.len() == 0 {
        assert(ps =~= s);
    } else {
        let rest = pad.drop_first();
        assert(ps[0] == pad[0]);
        assert(ps.drop_first() =~= rest + s);
        assert forall|i: int| 0 <= i < rest.len() implies is_space(#[trigger] rest[i]) by {
            assert(rest[i] == pad[i + 1]);
        }
        lemma_space_len_concat(rest, s);
        assert(space_len(ps) == 1 + space_len(ps.drop_first()));
    }
}

/// The tokens of `chars[from..to]`, in order.
pub(crate) fn tokens_in(chars: &Vec<char>, from: usize, to: usize) -> (r: Vec<String>)
    requires
        from <= to <= chars.len(),
    ensures
        texts(r@) == tokens(chars@.subrange(from as int, to as int)),
{
    let ghost s = chars@.subrange(from as int, to as int);
    let mut out: Vec<String> = Vec::new();
    let mut i: usize = from;
    assert(s.skip(0) =~= s);
    assert(texts(out@) =~= Seq::<Seq<char>>::empty());
    while i < to
        invariant
            from <= i <= to <= chars.len(),
            s == chars@.subrange(from as int, to as int),
            tokens(s) == texts(out@) + tokens(s.skip(i - from)),
        decreases to - i,
    {
        let ghost rest = s.skip(i - from);
        assert(rest[0] == chars@[i as int]);
        if is_whitespace(chars[i]) {
            assert(rest.drop_first() =~= s.skip(i + 1 - from));
            i = i + 1;
        } else {
            let mut j: usize = i + 1;
            assert(rest.skip(1) =~= rest.drop_first());
            while j < to && !is_whitespace(chars[j])
                invariant
                    from <= i < j <= to <= chars.len(),
                    s == chars@.subrange(from as int, to as int),
                    rest == s.skip(i - from),
                    word_len(rest) == (j - i) + word_len(rest.skip(j - i)),
                decreases to - j,
            {
                let ghost tail = rest.skip(j - i);
                assert(tail[0] == chars@[j as int]);
                assert(tail.drop_first() =~= rest.skip(j + 1 - i));
                j = j + 1;
            }
            proof {
                let tail = rest.skip(j - i);
                if j < to {
                    assert(tail[0] == chars@[j as int]);
                }
                assert(word_len(tail) == 0);
            }
            let token = string_of(chars, i, j);
            proof {
                assert(token@ =~= rest.take(word_len(rest) as int));
                assert(rest.skip(j - i) =~= s.skip(j - from));
                assert(texts(out@.push(token)) =~= texts(out@) + seq![token@]);
            }
            out.push(token);
            i = j;
        }
    }
    assert(s.skip(to - from).len() == 0);
    out
}

/// The tokens of `text`: its maximal runs of characters that are not separators, in order.
pub fn split_whitespace(text: &str) -> (r: Vec<String>)
    ensures
        texts(r@) == tokens(text@),
{
    let chars = chars_of(text);
    assert(chars@.subrange(0, chars.len() as int) =~= chars@);
    tokens_in(&chars, 0, chars.len())
}

/// The index at which the line that starts at `from` ends: that of the next line feed, or
/// the end of `chars`.
pub(crate) fn line_end(chars: &Vec<char>, from: usize) -> (r: usize)
    requires
        from <= chars.len(),
    ensures
        from <= r <= chars.len(),
        r - from == line_len(chars@.skip(from as int)),
{
    let ghost rest = chars@.skip(from as int);
    let mut j: usize = from;
    assert(rest.skip(0) =~= rest);
    while j < chars.len() && chars[j] != '\n'
        invariant
            from <= j <= chars.len(),
            rest == chars@.skip(from as int),
            line_len(rest) == (j - from) + line_len(rest.skip(j - from)),
        decreases chars.len() - j,
    {
        let ghost tail = rest.skip(j - from);
        assert(tail[0] == chars@[j as int]);
        assert(tail.drop_first() =~= rest.skip(j + 1 - from));
        j = j + 1;
    }
    proof {
        let tail = rest.skip(j - from);
        if j < chars.len() {
            assert(tail[0] == chars@[j as int]);
        }
    }
    j
}

} // verus!
