//! Laws of tokens: what was written is read.

use vstd::prelude::*;
use crate::filters::hex_value;
use crate::laws::filters::{hex_digit_of, hex_written, law_hex_case};
use crate::lex::{
    digits_value, hex_span, integer_value, lexed, line_end, literal_cons, literal_span, name_span,
    number_scan, octal_value, skip_space, word_end, KindV, LexV, TokV,
};

verus! {

/// The bytes `t` stand in `s` from place `p` on.
pub open spec fn stands(s: Seq<u8>, p: int, t: Seq<u8>) -> bool {
    0 <= p && p + t.len() <= s.len() && s.subrange(p, p + t.len()) == t
}

pub proof fn lemma_stands(s: Seq<u8>, p: int, t: Seq<u8>)
    requires
        stands(s, p, t),
    ensures
        forall|i: int| 0 <= i < t.len() ==> #[trigger] t[i] == s[p + i],
{
    assert forall|i: int| 0 <= i < t.len() implies #[trigger] t[i] == s[p + i] by {
        assert(s.subrange(p, p + t.len())[i] == s[p + i]);
    }
}

pub proof fn lemma_stands_parts(s: Seq<u8>, p: int, a: Seq<u8>, b: Seq<u8>)
    requires
        stands(s, p, a + b),
    ensures
        stands(s, p, a),
        stands(s, p + a.len(), b),
{
    let t = s.subrange(p, p + a.len() + b.len());
    assert(t == a + b);
    assert(s.subrange(p, p + a.len()) =~= a) by {
        assert forall|i: int| 0 <= i < a.len() implies s[p + i] == a[i] by {
            assert(t[i] == (a + b)[i]);
        }
    }
    assert(s.subrange(p + a.len(), p + a.len() + b.len()) =~= b) by {
        assert forall|i: int| 0 <= i < b.len() implies s[p + a.len() + i] == b[i] by {
            assert(t[a.len() + i] == (a + b)[a.len() + i]);
        }
    }
}

/// The token with these bounds was read.
pub open spec fn reads(l: LexV, start: int, end: int, kind: KindV) -> bool {
    l.result == Ok::<Option<TokV>, Seq<char>>(Some(TokV { start, end, kind })) && l.pos == end
}

/// White space: space, tab, line feed, form feed, carriage return and NUL.
pub open spec fn blank(b: u8) -> bool {
    b == 0x20 || b == 0x09 || b == 0x0A || b == 0x0C || b == 0x0D || b == 0x00
}

/// One of `( ) < > [ ] { } / %`.
pub open spec fn bracket(b: u8) -> bool {
    b == 0x28 || b == 0x29 || b == 0x3C || b == 0x3E || b == 0x5B || b == 0x5D || b == 0x7B || b
        == 0x7D || b == 0x2F || b == 0x25
}

/// Nothing that could go on with a word stands at place `p`.
pub open spec fn ends(s: Seq<u8>, p: int) -> bool {
    p == s.len() || (0 <= p < s.len() && (blank(s[p]) || bracket(s[p])))
}

/// A byte that starts a token, and does not stand between tokens.
pub open spec fn starts(b: u8) -> bool {
    !blank(b) && b != 0x25
}

/// White space in front of a token says nothing.
pub proof fn law_space_skipped(s: Seq<u8>, p: int)
    requires
        0 <= p < s.len(),
        blank(s[p]),
    ensures
        lexed(s, p) == lexed(s, p + 1),
{
    reveal(lexed);
}

/// A comment says nothing: it goes from `%` to the end of its line.
pub proof fn law_comment_skipped(s: Seq<u8>, p: int, e: int)
    requires
        0 <= p < e <= s.len(),
        s[p] == 0x25,
        forall|i: int| p < i < e ==> #[trigger] s[i] != 0x0A && s[i] != 0x0D,
        e < s.len() ==> s[e] == 0x0A || s[e] == 0x0D,
    ensures
        lexed(s, p) == lexed(s, e),
{
    reveal(lexed);
    lemma_line_end_at(s, p, e);
    assert(skip_space(s, p) == skip_space(s, e));
}

proof fn lemma_line_end_at(s: Seq<u8>, p: int, e: int)
    requires
        0 <= p <= e <= s.len(),
        forall|i: int| p <= i < e ==> #[trigger] s[i] != 0x0A && s[i] != 0x0D,
        e < s.len() ==> s[e] == 0x0A || s[e] == 0x0D,
    ensures
        line_end(s, p) == e,
    decreases e - p,
{
    if p < e {
        lemma_line_end_at(s, p + 1, e);
    }
}

/// Behind the last token there is none.
pub proof fn law_nothing_left(s: Seq<u8>)
    ensures
        lexed(s, s.len() as int).result == Ok::<Option<TokV>, Seq<char>>(None),
{
    reveal(lexed);
}

/// Brackets of arrays and dictionaries are tokens of their own.
pub proof fn law_bracket_tokens(s: Seq<u8>, p: int)
    requires
        0 <= p < s.len(),
    ensures
        s[p] == 0x5B ==> reads(lexed(s, p), p, p + 1, KindV::ArrayStart),
        s[p] == 0x5D ==> reads(lexed(s, p), p, p + 1, KindV::ArrayEnd),
        stands(s, p, seq![0x3Cu8, 0x3C]) ==> reads(lexed(s, p), p, p + 2, KindV::DictStart),
        stands(s, p, seq![0x3Eu8, 0x3E]) ==> reads(lexed(s, p), p, p + 2, KindV::DictEnd),
        s[p] == 0x3E && !(p + 1 < s.len() && s[p + 1] == 0x3E) ==> lexed(s, p).result is Err,
{
    reveal(lexed);
    if stands(s, p, seq![0x3Cu8, 0x3C]) {
        lemma_stands(s, p, seq![0x3Cu8, 0x3C]);
        assert(seq![0x3Cu8, 0x3C][1] == s[p + 1]);
        assert(seq![0x3Cu8, 0x3C][0] == s[p]);
    }
    if stands(s, p, seq![0x3Eu8, 0x3E]) {
        lemma_stands(s, p, seq![0x3Eu8, 0x3E]);
        assert(seq![0x3Eu8, 0x3E][1] == s[p + 1]);
        assert(seq![0x3Eu8, 0x3E][0] == s[p]);
    }
}

// ------------------------------------------------------------ hex strings

proof fn lemma_hex_span(
    s: Seq<u8>,
    p: int,
    data: Seq<u8>,
    upper: spec_fn(int) -> bool,
    start: int,
)
    requires
        stands(s, p, hex_written(data, upper) + seq![0x3Eu8]),
    ensures
        hex_span(s, p, None, start) == Ok::<(Seq<u8>, int), Seq<char>>(
            (data, p + 2 * data.len() + 1),
        ),
    decreases data.len(),
{
    let t = hex_written(data, upper) + seq![0x3Eu8];
    lemma_stands(s, p, t);
    if data.len() == 0 {
        assert(t[0] == s[p + 0]);
        assert(data =~= Seq::empty());
    } else {
        let next = |i: int| upper(i + 2);
        let b = data[0];
        law_hex_case(0);
        assert(t[0] == s[p + 0] && t[1] == s[p + 1]);
        assert(s[p] == hex_digit_of(b as int / 16, upper(0)));
        assert(s[p + 1] == hex_digit_of(b as int % 16, upper(1)));
        assert(hex_value(s[p]) == Some((b / 16) as u8));
        assert(hex_value(s[p + 1]) == Some((b % 16) as u8));
        let u = hex_written(data.skip(1), next) + seq![0x3Eu8];
        assert(s.subrange(p + 2, p + 2 + u.len()) =~= u) by {
            assert forall|i: int| 0 <= i < u.len() implies s[p + 2 + i] == u[i] by {
                assert(t[i + 2] == s[p + (i + 2)]);
                if i < u.len() - 1 {
                    assert(data.skip(1)[i / 2] == data[(i + 2) / 2]);
                }
            }
        }
        lemma_hex_span(s, p + 2, data.skip(1), next, start);
        assert(hex_span(s, p, None, start) == hex_span(s, p + 1, Some((b / 16) as u8), start));
        assert(((b / 16) * 16 + b % 16) as u8 == b);
        assert(seq![b] + data.skip(1) =~= data);
    }
}

/// Bytes written between `<` and `>`, with digits of either case, are read back.
pub proof fn law_hex_string(s: Seq<u8>, p: int, data: Seq<u8>, upper: spec_fn(int) -> bool)
    requires
        stands(s, p, seq![0x3Cu8] + (hex_written(data, upper) + seq![0x3Eu8])),
    ensures
        reads(lexed(s, p), p, p + 2 * data.len() + 2, KindV::HexString(data)),
{
    reveal(lexed);
    let t = hex_written(data, upper) + seq![0x3Eu8];
    lemma_stands_parts(s, p, seq![0x3Cu8], t);
    lemma_stands(s, p, seq![0x3Cu8]);
    lemma_stands(s, p + 1, t);
    assert(seq![0x3Cu8][0] == s[p + 0]);
    assert(t[0] == s[p + 1 + 0]);
    law_hex_case(0);
    if data.len() > 0 {
        assert(s[p + 1] == hex_digit_of(data[0] as int / 16, upper(0)));
    }
    lemma_hex_span(s, p + 1, data, upper, p);
}

/// White space within a hexadecimal string says nothing, a last digit without a
/// partner counts as if `0` followed it, and anything else is refused.
pub proof fn law_hex_string_parts(s: Seq<u8>, p: int, high: u8, start: int)
    requires
        0 <= p < s.len(),
    ensures
        blank(s[p]) ==> hex_span(s, p, Some(high), start) == hex_span(s, p + 1, Some(high), start)
            && hex_span(s, p, None, start) == hex_span(s, p + 1, None, start),
        s[p] == 0x3E && high < 16 ==> hex_span(s, p, Some(high), start) == Ok::<
            (Seq<u8>, int),
            Seq<char>,
        >((seq![(16 * high) as u8], p + 1)),
        !blank(s[p]) && s[p] != 0x3E && !(0x30 <= s[p] <= 0x39) && !(0x41 <= s[p] <= 0x46) && !(
        0x61 <= s[p] <= 0x66) ==> hex_span(s, p, Some(high), start) is Err && hex_span(
            s,
            p,
            None,
            start,
        ) is Err,
        hex_span(s, s.len() as int, None, start) is Err,
{
}

// ------------------------------------------------------------------ names

/// A byte of a name: as it is, or as `#` and two digits.
pub open spec fn name_byte(b: u8, plain: bool, upper: bool) -> Seq<u8> {
    if plain {
        seq![b]
    } else {
        seq![0x23u8, hex_digit_of(b as int / 16, upper), hex_digit_of(b as int % 16, upper)]
    }
}

/// The bytes of a name as they are written; `plain` says which stand for
/// themselves, and `upper` which case digits have.
pub open spec fn name_written(
    data: Seq<u8>,
    plain: spec_fn(int) -> bool,
    upper: spec_fn(int) -> bool,
) -> Seq<u8>
    decreases data.len(),
{
    if data.len() == 0 {
        Seq::empty()
    } else {
        name_byte(data[0], plain(0), upper(0)) + name_written(
            data.skip(1),
            |i: int| plain(i + 1),
            |i: int| upper(i + 1),
        )
    }
}

/// Only bytes that may do so stand for themselves.
pub open spec fn plain_allowed(data: Seq<u8>, plain: spec_fn(int) -> bool) -> bool {
    forall|i: int|
        0 <= i < data.len() && #[trigger] plain(i) ==> !blank(data[i]) && !bracket(data[i])
            && data[i] != 0x23
}

proof fn lemma_name_span(
    s: Seq<u8>,
    p: int,
    data: Seq<u8>,
    plain: spec_fn(int) -> bool,
    upper: spec_fn(int) -> bool,
)
    requires
        stands(s, p, name_written(data, plain, upper)),
        plain_allowed(data, plain),
        ends(s, p + name_written(data, plain, upper).len()),
    ensures
        name_span(s, p) == Ok::<(Seq<u8>, int), Seq<char>>(
            (data, p + name_written(data, plain, upper).len()),
        ),
    decreases data.len(),
{
    if data.len() == 0 {
        assert(data =~= Seq::empty());
    } else {
        let b = data[0];
        let first = name_byte(b, plain(0), upper(0));
        let pl = |i: int| plain(i + 1);
        let up = |i: int| upper(i + 1);
        let rest = name_written(data.skip(1), pl, up);
        lemma_stands_parts(s, p, first, rest);
        lemma_stands(s, p, first);
        assert forall|i: int|
            0 <= i < data.skip(1).len() && #[trigger] pl(i) implies !blank(data.skip(1)[i])
            && !bracket(data.skip(1)[i]) && data.skip(1)[i] != 0x23 by {
            assert(plain(i + 1));
        }
        lemma_name_span(s, p + first.len(), data.skip(1), pl, up);
        assert(seq![b] + data.skip(1) =~= data);
        assert(first[0] == s[p + 0]);
        if !plain(0) {
            law_hex_case(0);
            assert(first[1] == s[p + 1] && first[2] == s[p + 2]);
            assert(hex_value(s[p + 1]) == Some((b / 16) as u8));
            assert(hex_value(s[p + 2]) == Some((b % 16) as u8));
            assert(((b / 16) * 16 + b % 16) as u8 == b);
        }
    }
}

/// A name is read back, whichever of its bytes are written as `#xx` and
/// whichever case the digits have.
pub proof fn law_name(
    s: Seq<u8>,
    p: int,
    data: Seq<u8>,
    plain: spec_fn(int) -> bool,
    upper: spec_fn(int) -> bool,
)
    requires
        stands(s, p, seq![0x2Fu8] + name_written(data, plain, upper)),
        plain_allowed(data, plain),
        ends(s, p + 1 + name_written(data, plain, upper).len()),
    ensures
        reads(
            lexed(s, p),
            p,
            p + 1 + name_written(data, plain, upper).len(),
            KindV::Name(data),
        ),
{
    reveal(lexed);
    let t = name_written(data, plain, upper);
    lemma_stands_parts(s, p, seq![0x2Fu8], t);
    lemma_stands(s, p, seq![0x2Fu8]);
    assert(seq![0x2Fu8][0] == s[p + 0]);
    lemma_name_span(s, p + 1, data, plain, upper);
}

/// A `#` in a name without two hexadecimal digits behind it is refused.
pub proof fn law_bad_name_escape(s: Seq<u8>, p: int)
    requires
        0 <= p < s.len(),
        s[p] == 0x23,
        p + 2 >= s.len() || !(0x30 <= s[p + 1] <= 0x39 || 0x41 <= s[p + 1] <= 0x46 || 0x61 <= s[p
            + 1] <= 0x66) || !(0x30 <= s[p + 2] <= 0x39 || 0x41 <= s[p + 2] <= 0x46 || 0x61 <= s[p
            + 2] <= 0x66),
    ensures
        name_span(s, p) is Err,
{
}

// ---------------------------------------------------- strings in parentheses

/// A byte other than a backslash, a parenthesis or a carriage return stands for
/// itself in a string.
pub proof fn law_string_byte(s: Seq<u8>, p: int, depth: int)
    requires
        0 <= p < s.len(),
        s[p] != 0x5C && s[p] != 0x28 && s[p] != 0x29 && s[p] != 0x0D,
    ensures
        literal_span(s, p, depth) == literal_cons(s[p], literal_span(s, p + 1, depth)),
{
}

/// Every end of a line in a string, be it CR, LF or both, stands for LF.
pub proof fn law_string_line_end(s: Seq<u8>, p: int, depth: int)
    requires
        0 <= p < s.len(),
        s[p] == 0x0D,
    ensures
        p + 1 < s.len() && s[p + 1] == 0x0A ==> literal_span(s, p, depth) == literal_cons(
            0x0A,
            literal_span(s, p + 2, depth),
        ),
        !(p + 1 < s.len() && s[p + 1] == 0x0A) ==> literal_span(s, p, depth) == literal_cons(
            0x0A,
            literal_span(s, p + 1, depth),
        ),
{
}

/// Parentheses within a string are part of it where they are balanced, and the
/// one that closes the string ends it.
pub proof fn law_string_parentheses(s: Seq<u8>, p: int, depth: int)
    requires
        0 <= p < s.len(),
        depth >= 1,
    ensures
        s[p] == 0x28 ==> literal_span(s, p, depth) == literal_cons(
            0x28,
            literal_span(s, p + 1, depth + 1),
        ),
        s[p] == 0x29 && depth > 1 ==> literal_span(s, p, depth) == literal_cons(
            0x29,
            literal_span(s, p + 1, depth - 1),
        ),
        s[p] == 0x29 && depth == 1 ==> literal_span(s, p, depth) == Some(
            (Seq::<u8>::empty(), p + 1),
        ),
{
}

/// A backslash before `n`, `r`, `t`, `b` or `f` makes the control character, and
/// before any other character but an octal digit or a line end it says nothing.
pub proof fn law_string_escape(s: Seq<u8>, p: int, depth: int, c: u8, v: u8)
    requires
        stands(s, p, seq![0x5Cu8, c]),
        (c == 0x6E && v == 0x0A) || (c == 0x72 && v == 0x0D) || (c == 0x74 && v == 0x09) || (c
            == 0x62 && v == 0x08) || (c == 0x66 && v == 0x0C) || (c == v && c != 0x6E && c != 0x72
            && c != 0x74 && c != 0x62 && c != 0x66 && !(0x30 <= c <= 0x37) && c != 0x0A && c
            != 0x0D),
    ensures
        literal_span(s, p, depth) == literal_cons(v, literal_span(s, p + 2, depth)),
{
    lemma_stands(s, p, seq![0x5Cu8, c]);
    assert(seq![0x5Cu8, c][0] == s[p + 0] && seq![0x5Cu8, c][1] == s[p + 1]);
}

/// A backslash before the end of a line joins the lines.
pub proof fn law_string_joined_lines(s: Seq<u8>, p: int, depth: int)
    requires
        0 <= p,
        p + 1 < s.len(),
        s[p] == 0x5C,
    ensures
        s[p + 1] == 0x0A ==> literal_span(s, p, depth) == literal_span(s, p + 2, depth),
        s[p + 1] == 0x0D && p + 2 < s.len() && s[p + 2] == 0x0A ==> literal_span(s, p, depth)
            == literal_span(s, p + 3, depth),
        s[p + 1] == 0x0D && !(p + 2 < s.len() && s[p + 2] == 0x0A) ==> literal_span(s, p, depth)
            == literal_span(s, p + 2, depth),
{
}

proof fn lemma_octal(d: Seq<u8>)
    ensures
        d.len() == 1 ==> octal_value(d) == d[0] - 48,
        d.len() == 2 ==> octal_value(d) == 8 * (d[0] - 48) + (d[1] - 48),
        d.len() == 3 ==> octal_value(d) == 64 * (d[0] - 48) + 8 * (d[1] - 48) + (d[2] - 48),
{
    reveal_with_fuel(octal_value, 4);
    if d.len() >= 1 {
        assert(d.drop_last().len() == d.len() - 1);
    }
    if d.len() == 2 {
        assert(d.drop_last()[0] == d[0]);
    }
    if d.len() == 3 {
        assert(d.drop_last().last() == d[1]);
        assert(d.drop_last().drop_last().last() == d[0]);
    }
}

/// A backslash and up to three octal digits make the byte with that number.
pub proof fn law_string_octal(s: Seq<u8>, p: int, depth: int, n: int)
    requires
        0 <= p,
        1 <= n <= 3,
        p + n < s.len(),
        s[p] == 0x5C,
        forall|i: int| 1 <= i <= n ==> 0x30 <= #[trigger] s[p + i] <= 0x37,
        n == 3 || p + n + 1 >= s.len() || !(0x30 <= s[p + n + 1] <= 0x37),
    ensures
        literal_span(s, p, depth) == literal_cons(
            (if n == 1 {
                s[p + 1] - 0x30
            } else if n == 2 {
                8 * (s[p + 1] - 0x30) + (s[p + 2] - 0x30)
            } else {
                (64 * (s[p + 1] - 0x30) + 8 * (s[p + 2] - 0x30) + (s[p + 3] - 0x30)) % 256
            }) as u8,
            literal_span(s, p + n + 1, depth),
        ),
{
    assert(0x30 <= s[p + 1] <= 0x37);
    if n >= 2 {
        assert(0x30 <= s[p + 2] <= 0x37);
    }
    if n == 3 {
        assert(0x30 <= s[p + 3] <= 0x37);
    }
    let d = s.subrange(p + 1, p + n + 1);
    lemma_octal(d);
}

/// A string in parentheses that holds `data` and ends at `e`.
pub open spec fn spans(s: Seq<u8>, p: int, depth: int, data: Seq<u8>, e: int) -> bool {
    literal_span(s, p, depth) == Some((data, e))
}

/// Three octal digits for a byte, behind a backslash.
pub open spec fn octal_written(data: Seq<u8>) -> Seq<u8>
    decreases data.len(),
{
    if data.len() == 0 {
        Seq::empty()
    } else {
        seq![
            0x5Cu8,
            (0x30 + data[0] as int / 64) as u8,
            (0x30 + (data[0] as int / 8) % 8) as u8,
            (0x30 + data[0] as int % 8) as u8,
        ] + octal_written(data.skip(1))
    }
}

proof fn lemma_octal_span(s: Seq<u8>, p: int, data: Seq<u8>)
    requires
        stands(s, p, octal_written(data) + seq![0x29u8]),
    ensures
        literal_span(s, p, 1) == Some((data, p + 4 * data.len() + 1)),
    decreases data.len(),
{
    let t = octal_written(data) + seq![0x29u8];
    if data.len() == 0 {
        lemma_stands(s, p, t);
        assert(t[0] == s[p + 0]);
        assert(data =~= Seq::empty());
    } else {
        let b = data[0] as int;
        let q = seq![
            0x5Cu8,
            (0x30 + b / 64) as u8,
            (0x30 + (b / 8) % 8) as u8,
            (0x30 + b % 8) as u8,
        ];
        let rest = octal_written(data.skip(1)) + seq![0x29u8];
        assert(t =~= q + rest);
        lemma_stands_parts(s, p, q, rest);
        lemma_stands(s, p, q);
        assert(q[0] == s[p + 0] && q[1] == s[p + 1] && q[2] == s[p + 2] && q[3] == s[p + 3]);
        lemma_octal_span(s, p + 4, data.skip(1));
        assert forall|i: int| 1 <= i <= 3 implies 0x30 <= #[trigger] s[p + i] <= 0x37 by {
            assert(i == 1 || i == 2 || i == 3);
        }
        law_string_octal(s, p, 1, 3);
        assert((64 * (b / 64) + 8 * ((b / 8) % 8) + b % 8) == b) by {
            assert(b / 64 == (b / 8) / 8);
        }
        assert(seq![data[0]] + data.skip(1) =~= data);
    }
}

/// Bytes written in octal between parentheses are read back.
pub proof fn law_octal_string(s: Seq<u8>, p: int, data: Seq<u8>)
    requires
        stands(s, p, seq![0x28u8] + (octal_written(data) + seq![0x29u8])),
    ensures
        reads(lexed(s, p), p, p + 4 * data.len() + 2, KindV::LiteralString(data)),
{
    reveal(lexed);
    let t = octal_written(data) + seq![0x29u8];
    lemma_stands_parts(s, p, seq![0x28u8], t);
    lemma_stands(s, p, seq![0x28u8]);
    assert(seq![0x28u8][0] == s[p + 0]);
    lemma_octal_span(s, p + 1, data);
}

/// A string token holds what stands between its parentheses, and one that is not
/// closed is refused.
pub proof fn law_string_token(s: Seq<u8>, p: int, data: Seq<u8>, e: int)
    requires
        0 <= p < s.len(),
        s[p] == 0x28,
    ensures
        literal_span(s, p + 1, 1) == Some((data, e)) ==> reads(
            lexed(s, p),
            p,
            e,
            KindV::LiteralString(data),
        ),
        literal_span(s, p + 1, 1) is None ==> lexed(s, p).result is Err,
        literal_span(s, s.len() as int, 1) is None,
{
    reveal(lexed);
}

// ---------------------------------------------------------------- numbers

/// The decimal digits of a number.
pub open spec fn decimal(n: int) -> Seq<u8>
    decreases n,
{
    if n < 10 {
        seq![(0x30 + n) as u8]
    } else {
        decimal(n / 10).push((0x30 + n % 10) as u8)
    }
}

pub(crate) proof fn lemma_decimal(n: int)
    requires
        0 <= n,
    ensures
        decimal(n).len() >= 1,
        forall|i: int| 0 <= i < decimal(n).len() ==> 0x30 <= #[trigger] decimal(n)[i] <= 0x39,
        digits_value(decimal(n)) == n,
    decreases n,
{
    if n >= 10 {
        lemma_decimal(n / 10);
        let d = decimal(n);
        assert(d.drop_last() =~= decimal(n / 10));
        assert forall|i: int| 0 <= i < d.len() implies 0x30 <= #[trigger] d[i] <= 0x39 by {
            if i < d.len() - 1 {
                assert(d[i] == decimal(n / 10)[i]);
            }
        }
    } else {
        let d = decimal(n);
        assert(d.drop_last() =~= Seq::empty());
        assert(digits_value(d.drop_last()) == 0);
    }
}

pub(crate) proof fn lemma_digits_scan(s: Seq<u8>, p: int, e: int, dot: bool, digit: bool)
    requires
        0 <= p <= e <= s.len(),
        forall|i: int| p <= i < e ==> 0x30 <= #[trigger] s[i] <= 0x39,
    ensures
        number_scan(s, p, dot, digit) == number_scan(s, e, dot, digit || p < e),
    decreases e - p,
{
    if p < e {
        lemma_digits_scan(s, p + 1, e, dot, true);
    }
}

/// The text of an integer: its digits, and `-` or, where `plus` says so, `+`.
pub open spec fn integer_written(n: int, plus: bool) -> Seq<u8> {
    if n < 0 {
        seq![0x2Du8] + decimal(-n)
    } else if plus {
        seq![0x2Bu8] + decimal(n)
    } else {
        decimal(n)
    }
}

/// Every integer is read back, with or without a sign.
pub proof fn law_integer(s: Seq<u8>, p: int, n: i64, plus: bool)
    requires
        stands(s, p, integer_written(n as int, plus)),
        ends(s, p + integer_written(n as int, plus).len()),
    ensures
        reads(
            lexed(s, p),
            p,
            p + integer_written(n as int, plus).len(),
            KindV::Integer(n),
        ),
{
    reveal(lexed);
    let v = n as int;
    let t = integer_written(v, plus);
    let d = decimal(if v < 0 {
        -v
    } else {
        v
    });
    lemma_decimal(if v < 0 {
        -v
    } else {
        v
    });
    lemma_stands(s, p, t);
    let e = p + t.len();
    let first = e - d.len();
    assert(t[0] == s[p + 0]);
    assert forall|i: int| first <= i < e implies 0x30 <= #[trigger] s[i] <= 0x39 by {
        assert(t[i - p] == s[p + (i - p)]);
        assert(t[i - p] == d[i - first]);
    }
    lemma_digits_scan(s, first, e, false, false);
    assert(number_scan(s, e, false, true) == (e, false, true));
    assert(s.subrange(p, e) =~= t);
    if v < 0 || plus {
        assert(t.skip(1) =~= d);
    }
    assert(integer_value(t) == v);
    assert(skip_space(s, p) == p);
}

/// Digits with one point among them, with or without a sign, are a real, which
/// is kept as it is written.
pub proof fn law_real(s: Seq<u8>, p: int, point: int, e: int)
    requires
        0 <= p < s.len(),
        p <= point < e <= s.len(),
        s[point] == 0x2E,
        p == point || 0x30 <= s[p] <= 0x39 || s[p] == 0x2B || s[p] == 0x2D,
        forall|i: int| p < i < e && i != point ==> 0x30 <= #[trigger] s[i] <= 0x39,
        e - p >= 3 || (e - p == 2 && (0x30 <= s[p] <= 0x39 || point == p)),
        ends(s, e),
    ensures
        reads(lexed(s, p), p, e, KindV::Real(s.subrange(p, e))),
{
    reveal(lexed);
    let first = if s[p] == 0x2B || s[p] == 0x2D {
        p + 1
    } else {
        p
    };
    assert forall|i: int| first <= i < point implies 0x30 <= #[trigger] s[i] <= 0x39 by {
        if i == p {
        }
    }
    lemma_digits_scan(s, first, point, false, false);
    let before = first < point;
    assert(number_scan(s, point, false, before) == number_scan(s, point + 1, true, before));
    lemma_digits_scan(s, point + 1, e, true, before);
    assert(before || point + 1 < e);
    assert(number_scan(s, e, true, true) == (e, true, true));
    assert(skip_space(s, p) == p);
}

/// An integer beyond the range of 64 bits is refused.
pub proof fn law_integer_too_large(s: Seq<u8>, p: int, n: int)
    requires
        n > i64::MAX || n < i64::MIN,
        stands(s, p, integer_written(n, false)),
        ends(s, p + integer_written(n, false).len()),
    ensures
        lexed(s, p).result is Err,
{
    reveal(lexed);
    let t = integer_written(n, false);
    let d = decimal(if n < 0 {
        -n
    } else {
        n
    });
    lemma_decimal(if n < 0 {
        -n
    } else {
        n
    });
    lemma_stands(s, p, t);
    let e = p + t.len();
    let first = e - d.len();
    assert(t[0] == s[p + 0]);
    assert forall|i: int| first <= i < e implies 0x30 <= #[trigger] s[i] <= 0x39 by {
        assert(t[i - p] == s[p + (i - p)]);
        assert(t[i - p] == d[i - first]);
    }
    lemma_digits_scan(s, first, e, false, false);
    assert(number_scan(s, e, false, true) == (e, false, true));
    assert(s.subrange(p, e) =~= t);
    if n < 0 {
        assert(t.skip(1) =~= d);
    }
    assert(integer_value(t) == n);
    assert(skip_space(s, p) == p);
}

// --------------------------------------------------------------- keywords

pub(crate) proof fn lemma_word_end_at(s: Seq<u8>, p: int, e: int)
    requires
        0 <= p <= e <= s.len(),
        forall|i: int| p <= i < e ==> !blank(#[trigger] s[i]) && !bracket(s[i]),
        ends(s, e),
    ensures
        word_end(s, p) == e,
    decreases e - p,
{
    if p < e {
        lemma_word_end_at(s, p + 1, e);
    }
}

/// A word that does not begin like a number is a keyword, up to the next white
/// space or bracket.
pub proof fn law_keyword(s: Seq<u8>, p: int, e: int)
    requires
        0 <= p < e <= s.len(),
        forall|i: int| p <= i < e ==> !blank(#[trigger] s[i]) && !bracket(s[i]),
        ends(s, e),
        !(0x30 <= s[p] <= 0x39) && s[p] != 0x2B && s[p] != 0x2D && s[p] != 0x2E,
    ensures
        reads(lexed(s, p), p, e, KindV::Keyword(s.subrange(p, e))),
{
    reveal(lexed);
    lemma_word_end_at(s, p, e);
    assert(!blank(s[p]) && !bracket(s[p]));
}

} // verus!
