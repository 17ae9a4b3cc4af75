//! Laws of the filters and predictors: what was encoded is decoded again.

use vstd::prelude::*;
use crate::filters::{
    a85, be_bytes, copies, hex_data, hex_value, paeth_of, png_row, png_rows, predicted, run_length,
    PredictorParams,
};

verus! {

broadcast use vstd::seq_lib::group_seq_properties;

// -------------------------------------------------------------------- PNG

/// The absolute value of a difference.
pub open spec fn gap(x: int, y: int) -> int {
    if x >= y {
        x - y
    } else {
        y - x
    }
}

/// The Paeth predictor picks one of the three neighbours, none of the three is
/// nearer to left + up - up-left, and left goes before up and up before up-left
/// where they are equally near.
pub proof fn law_paeth_pick(left: u8, up: u8, corner: u8)
    ensures
        paeth_of(left, up, corner) == left || paeth_of(left, up, corner) == up || paeth_of(
            left,
            up,
            corner,
        ) == corner,
        forall|n: u8|
            n == left || n == up || n == corner ==> gap(
                left + up - corner,
                paeth_of(left, up, corner) as int,
            ) <= #[trigger] gap(left + up - corner, n as int),
        gap(up as int, corner as int) <= gap(left as int, corner as int) && gap(
            up as int,
            corner as int,
        ) <= gap(left + up, 2 * corner) ==> paeth_of(left, up, corner) == left,
        gap(left as int, corner as int) < gap(up as int, corner as int) && gap(
            left as int,
            corner as int,
        ) <= gap(left + up, 2 * corner) ==> paeth_of(left, up, corner) == up,
        up == corner ==> paeth_of(left, up, corner) == left,
        left == corner && up != corner ==> paeth_of(left, up, corner) == up,
{
}

/// What an encoder of PNG rows subtracts from a byte with these neighbours.
pub open spec fn png_guess(tag: u8, left: int, up: int, corner: int) -> int {
    let by_left = gap(up, corner);
    let by_up = gap(left, corner);
    let by_corner = gap(left + up, 2 * corner);
    match tag {
        0 => 0,
        1 => left,
        2 => up,
        3 => (left + up) / 2,
        _ => if by_left <= by_up && by_left <= by_corner {
            left
        } else if by_up <= by_corner {
            up
        } else {
            corner
        },
    }
}

/// The byte `back` places before `i` in a row; nothing is in front of a row.
pub open spec fn neighbour(row: Seq<u8>, i: int, back: int) -> int {
    if i < back {
        0
    } else {
        row[i - back] as int
    }
}

/// A row as an encoder writes it below `above`: its tag and its differences.
pub open spec fn png_written(row: Seq<u8>, tag: u8, above: Seq<u8>, back: int) -> Seq<u8> {
    seq![tag] + Seq::new(
        row.len(),
        |i: int|
            ((row[i] - png_guess(
                tag,
                neighbour(row, i, back),
                above[i] as int,
                neighbour(above, i, back),
            )) % 256) as u8,
    )
}

/// Rows with their tags, each written below the one before it, and the first
/// below a row of zeros.
pub open spec fn png_image(rows: Seq<Seq<u8>>, tags: Seq<u8>, above: Seq<u8>, back: int) -> Seq<u8>
    decreases rows.len(),
{
    if rows.len() == 0 {
        Seq::empty()
    } else {
        png_written(rows[0], tags[0], above, back) + png_image(
            rows.skip(1),
            tags.skip(1),
            rows[0],
            back,
        )
    }
}

/// Rows one behind the other.
pub open spec fn joined_rows(rows: Seq<Seq<u8>>) -> Seq<u8>
    decreases rows.len(),
{
    if rows.len() == 0 {
        Seq::empty()
    } else {
        rows[0] + joined_rows(rows.skip(1))
    }
}

proof fn lemma_guess(tag: u8, left: u8, up: u8, corner: u8)
    requires
        tag <= 4,
    ensures
        crate::filters::png_predicted(tag, left, up, corner) == png_guess(
            tag,
            left as int,
            up as int,
            corner as int,
        ),
{
}

proof fn lemma_png_row(row: Seq<u8>, tag: u8, above: Seq<u8>, back: int, n: int)
    requires
        tag <= 4,
        back >= 1,
        0 <= n <= row.len(),
        above.len() == row.len(),
    ensures
        png_row(png_written(row, tag, above, back).skip(1), tag, above, back, n) == row.take(n),
    decreases n,
{
    let src = png_written(row, tag, above, back).skip(1);
    if n > 0 {
        let i = n - 1;
        lemma_png_row(row, tag, above, back, i);
        let done = png_row(src, tag, above, back, i);
        let left = crate::filters::before_by(done, i, back);
        let corner = crate::filters::before_by(above, i, back);
        assert(left as int == neighbour(row, i, back));
        lemma_guess(tag, left, above[i], corner);
        let g = png_guess(
            tag,
            neighbour(row, i, back),
            above[i] as int,
            neighbour(above, i, back),
        );
        assert(src[i] == ((row[i] - g) % 256) as u8);
        assert(((row[i] - g) % 256 + g) % 256 == row[i] as int) by {
            vstd::arithmetic::div_mod::lemma_add_mod_noop(row[i] - g, g, 256);
            vstd::arithmetic::div_mod::lemma_add_mod_noop((row[i] - g) % 256, g, 256);
        }
        assert(png_row(src, tag, above, back, n) =~= row.take(n));
    } else {
        assert(row.take(0) =~= Seq::empty());
    }
}

proof fn lemma_png_rows(rows: Seq<Seq<u8>>, tags: Seq<u8>, above: Seq<u8>, back: int, width: int)
    requires
        tags.len() == rows.len(),
        forall|i: int| 0 <= i < tags.len() ==> #[trigger] tags[i] <= 4,
        forall|i: int| 0 <= i < rows.len() ==> (#[trigger] rows[i]).len() == width,
        above.len() == width,
        width >= 1,
        back >= 1,
    ensures
        png_rows(png_image(rows, tags, above, back), back, width, above) == Ok::<
            Seq<u8>,
            Seq<char>,
        >(joined_rows(rows)),
        png_image(rows, tags, above, back).len() == rows.len() * (width + 1),
    decreases rows.len(),
{
    let data = png_image(rows, tags, above, back);
    if rows.len() > 0 {
        let first = png_written(rows[0], tags[0], above, back);
        let rest = png_image(rows.skip(1), tags.skip(1), rows[0], back);
        assert forall|i: int| 0 <= i < tags.skip(1).len() implies #[trigger] tags.skip(1)[i]
            <= 4 by {
            assert(tags[i + 1] <= 4);
        }
        assert forall|i: int| 0 <= i < rows.skip(1).len() implies (
        #[trigger] rows.skip(1)[i]).len() == width by {
            assert(rows[i + 1].len() == width);
        }
        assert(tags[0] <= 4 && rows[0].len() == width);
        lemma_png_rows(rows.skip(1), tags.skip(1), rows[0], back, width);
        lemma_png_row(rows[0], tags[0], above, back, width);
        assert(first.len() == width + 1);
        assert(data.subrange(1, width + 1) =~= first.skip(1));
        assert(data.skip(width + 1) =~= rest);
        assert(rows[0].take(width) =~= rows[0]);
        assert(rows.len() * (width + 1) == (rows.len() - 1) * (width + 1) + (width + 1))
            by (nonlinear_arith);
    } else {
        assert(rows.len() * (width + 1) == 0) by (nonlinear_arith)
            requires
                rows.len() == 0,
        ;
    }
}

/// A row of zeros.
pub open spec fn zero_row(width: int) -> Seq<u8> {
    Seq::new(width as nat, |i: int| 0u8)
}

/// An image that was written with PNG prediction, whatever the tags of its rows,
/// is read back, for every number and width of components. A row takes `width`
/// bytes, and a sample `back` bytes.
#[verifier::rlimit(50)]
pub proof fn law_png_round_trip(
    rows: Seq<Seq<u8>>,
    tags: Seq<u8>,
    p: PredictorParams,
    width: int,
    back: int,
)
    requires
        10 <= p.predictor <= 15,
        p.colors >= 1,
        p.columns >= 1,
        p.bits_per_component == 1 || p.bits_per_component == 2 || p.bits_per_component == 4
            || p.bits_per_component == 8 || p.bits_per_component == 16,
        p.colors * p.bits_per_component * p.columns <= usize::MAX,
        8 * width - 7 <= p.colors * p.bits_per_component * p.columns <= 8 * width,
        8 * back - 7 <= p.colors * p.bits_per_component <= 8 * back,
        tags.len() == rows.len(),
        forall|i: int| 0 <= i < tags.len() ==> #[trigger] tags[i] <= 4,
        forall|i: int| 0 <= i < rows.len() ==> (#[trigger] rows[i]).len() == width,
    ensures
        predicted(png_image(rows, tags, zero_row(width), back), p) == Ok::<Seq<u8>, Seq<char>>(
            joined_rows(rows),
        ),
{
    let zeros = zero_row(width);
    let bits = p.colors * p.bits_per_component;
    assert(bits >= 1) by (nonlinear_arith)
        requires
            bits == p.colors * p.bits_per_component,
            p.colors >= 1,
            p.bits_per_component >= 1,
    ;
    assert(bits * p.columns >= 1) by (nonlinear_arith)
        requires
            bits >= 1,
            p.columns >= 1,
    ;
    let data = png_image(rows, tags, zeros, back);
    assert((bits + 7) / 8 == back);
    assert((bits * p.columns + 7) / 8 == width);
    lemma_png_rows(rows, tags, zeros, back, width);
    assert(data.len() as int % (width + 1) == 0) by {
        vstd::arithmetic::div_mod::lemma_mod_multiples_basic(rows.len() as int, width + 1);
    }
    assert(copies(0, width) =~= zeros);
}

/// Data without a predictor are as they are.
pub proof fn law_no_predictor(data: Seq<u8>, p: PredictorParams)
    requires
        p.predictor <= 1,
    ensures
        predicted(data, p) == Ok::<Seq<u8>, Seq<char>>(data),
{
}

/// A predictor other than those known, or a component of an impossible width or
/// an empty row with one, is refused.
pub proof fn law_bad_predictor(data: Seq<u8>, p: PredictorParams)
    requires
        p.predictor > 1,
        (p.predictor != 2 && (p.predictor < 10 || p.predictor > 15)) || p.colors == 0 || p.columns
            == 0 || p.bits_per_component == 0 || p.bits_per_component == 3 || (
        p.bits_per_component > 4 && p.bits_per_component != 8 && p.bits_per_component != 16),
    ensures
        predicted(data, p) is Err,
{
}

// -------------------------------------------------------------------- hex

/// A hexadecimal digit of either case for a value below 16.
pub open spec fn hex_digit_of(v: int, upper: bool) -> u8 {
    if v <= 9 {
        (0x30 + v) as u8
    } else if upper {
        (0x41 + (v - 10)) as u8
    } else {
        (0x61 + (v - 10)) as u8
    }
}

/// Bytes in hexadecimal; `upper` says for each digit which case it has.
pub open spec fn hex_written(data: Seq<u8>, upper: spec_fn(int) -> bool) -> Seq<u8> {
    Seq::new(
        2 * data.len(),
        |i: int|
            hex_digit_of(
                if i % 2 == 0 {
                    data[i / 2] as int / 16
                } else {
                    data[i / 2] as int % 16
                },
                upper(i),
            ),
    )
}

/// The value of a hexadecimal digit does not depend on its case.
pub proof fn law_hex_case(b: u8)
    ensures
        forall|v: int, upper: bool|
            0 <= v < 16 ==> hex_value(#[trigger] hex_digit_of(v, upper)) == Some(v as u8),
        97 <= b <= 122 ==> hex_value(b) == hex_value((b - 32) as u8),
        hex_value(b) is Some ==> exists|v: int, upper: bool|
            0 <= v < 16 && b == #[trigger] hex_digit_of(v, upper),
{
    if 48 <= b <= 57 {
        assert(b == hex_digit_of(b - 48, true));
    } else if 65 <= b <= 70 {
        assert(b == hex_digit_of(b - 55, true));
    } else if 97 <= b <= 102 {
        assert(b == hex_digit_of(b - 87, false));
    }
}

/// Bytes written in hexadecimal, with digits of either case, are read back,
/// whether a `>` and more follows or nothing does.
pub proof fn law_hex_any_case(data: Seq<u8>, upper: spec_fn(int) -> bool, after: Seq<u8>)
    requires
        after.len() == 0 || after[0] == 0x3E,
    ensures
        hex_data(hex_written(data, upper) + after, None) == Ok::<Seq<u8>, Seq<char>>(data),
    decreases data.len(),
{
    let s = hex_written(data, upper) + after;
    if data.len() == 0 {
        assert(s =~= after);
        assert(data =~= Seq::empty());
    } else {
        let next = |i: int| upper(i + 2);
        let b = data[0];
        law_hex_any_case(data.skip(1), next, after);
        law_hex_case(0);
        assert(s.skip(1).skip(1) =~= hex_written(data.skip(1), next) + after) by {
            let l = s.skip(1).skip(1);
            let r = hex_written(data.skip(1), next) + after;
            assert forall|i: int| 0 <= i < l.len() implies l[i] == r[i] by {
                if i < 2 * data.len() - 2 {
                    assert(data.skip(1)[i / 2] == data[(i + 2) / 2]);
                }
            }
        }
        assert(s[0] == hex_digit_of(b as int / 16, upper(0)));
        assert(s.skip(1)[0] == hex_digit_of(b as int % 16, upper(1)));
        let h = (b / 16) as u8;
        let l = (b % 16) as u8;
        assert(hex_value(s[0]) == Some(h));
        assert(hex_value(s.skip(1)[0]) == Some(l));
        assert(hex_data(s, None) == hex_data(s.skip(1), Some(h)));
        assert((h * 16 + l) as u8 == b);
        assert(seq![b] + data.skip(1) =~= data);
    }
}

/// White space between hexadecimal digits says nothing.
pub proof fn law_hex_space(w: u8, t: Seq<u8>, high: Option<u8>)
    requires
        w == 0x20 || w == 0x09 || w == 0x0A || w == 0x0C || w == 0x0D || w == 0x00,
    ensures
        hex_data(seq![w] + t, high) == hex_data(t, high),
{
    assert((seq![w] + t).skip(1) =~= t);
}

/// A last digit without a partner counts as if `0` followed it.
pub proof fn law_hex_odd(v: int, upper: bool)
    requires
        0 <= v < 16,
    ensures
        hex_data(seq![hex_digit_of(v, upper)], None) == Ok::<Seq<u8>, Seq<char>>(
            seq![(16 * v) as u8],
        ),
{
    law_hex_case(0);
    let s = seq![hex_digit_of(v, upper)];
    assert(s.skip(1) =~= Seq::empty());
    assert(hex_data(s, None) == hex_data(s.skip(1), Some(v as u8)));
}

/// Anything else in hexadecimal text is refused.
pub proof fn law_hex_illegal(b: u8, t: Seq<u8>, high: Option<u8>)
    requires
        !(0x30 <= b <= 0x39) && !(0x41 <= b <= 0x46) && !(0x61 <= b <= 0x66),
        b != 0x3E,
        b != 0x20 && b != 0x09 && b != 0x0A && b != 0x0C && b != 0x0D && b != 0x00,
    ensures
        hex_data(seq![b] + t, high) is Err,
{
}

// ---------------------------------------------------------------- base 85

/// White space between base-85 digits says nothing.
pub proof fn law_a85_space(w: u8, t: Seq<u8>, g: Seq<u8>)
    requires
        w == 0x20 || w == 0x09 || w == 0x0A || w == 0x0C || w == 0x0D || w == 0x00,
    ensures
        a85(seq![w] + t, g) == a85(t, g),
{
    assert((seq![w] + t).skip(1) =~= t);
}

/// `z` between groups stands for four zero bytes, and within a group it is
/// refused.
pub proof fn law_a85_zeros(t: Seq<u8>, g: Seq<u8>)
    ensures
        a85(t, Seq::empty()) matches Ok(rest) ==> a85(seq![0x7Au8] + t, Seq::empty()) == Ok::<
            Seq<u8>,
            Seq<char>,
        >(seq![0u8, 0, 0, 0] + rest),
        g.len() > 0 ==> a85(seq![0x7Au8] + t, g) is Err,
{
    assert((seq![0x7Au8] + t).skip(1) =~= t);
}

/// What is no digit, no white space, no `z` and no end mark is refused.
pub proof fn law_a85_illegal(b: u8, t: Seq<u8>, g: Seq<u8>)
    requires
        b > 0x75 || b < 0x21,
        b != 0x7A && b != 0x7E,
        b != 0x20 && b != 0x09 && b != 0x0A && b != 0x0C && b != 0x0D && b != 0x00,
    ensures
        a85(seq![b] + t, g) is Err,
{
}

/// `~>` ends base-85 text: what follows does not count.
pub proof fn law_a85_end(t: Seq<u8>, g: Seq<u8>)
    ensures
        a85(seq![0x7Eu8, 0x3E] + t, g) == a85(Seq::empty(), g),
        t.len() > 0 && t[0] != 0x3E ==> a85(seq![0x7Eu8] + t, g) is Err,
{
}

/// The power of 85.
pub open spec fn pow85(k: int) -> int {
    if k <= 0 {
        1
    } else if k == 1 {
        85
    } else if k == 2 {
        7225
    } else {
        614125
    }
}

/// One to three bytes at the end of data: one base-85 digit more than bytes.
pub open spec fn a85_tail(b: Seq<u8>) -> Seq<u8> {
    let v = b[0] * 16777216 + (if b.len() > 1 {
        b[1] * 65536
    } else {
        0
    }) + (if b.len() > 2 {
        b[2] * 256
    } else {
        0
    });
    Seq::new(
        b.len() + 1,
        |i: int|
            (0x21 + (if i == 0 {
                v / 52200625
            } else {
                (v / pow85(4 - i)) % 85
            })) as u8,
    )
}

/// The number that a tail stands for with its missing bytes 0.
spec fn tail_value(b: Seq<u8>) -> int {
    b[0] * 16777216 + (if b.len() > 1 {
        b[1] * 65536
    } else {
        0
    }) + (if b.len() > 2 {
        b[2] * 256
    } else {
        0
    })
}

proof fn lemma_split(v: int, d: int)
    requires
        d > 0,
    ensures
        v == d * (v / d) + v % d,
        0 <= v % d < d,
{
    vstd::arithmetic::div_mod::lemma_fundamental_div_mod(v, d);
    vstd::arithmetic::div_mod::lemma_mod_bound(v, d);
}

proof fn lemma_quotient(w: int, d: int, q: int)
    requires
        d > 0,
        d * q <= w < d * q + d,
    ensures
        w / d == q,
{
    assert(q * d == d * q) by (nonlinear_arith);
    vstd::arithmetic::div_mod::lemma_fundamental_div_mod_converse(w, d, q, w - d * q);
}

#[verifier::rlimit(50)]
proof fn lemma_powers(v: int)
    requires
        0 <= v < 4294967296,
    ensures
        v / 7225 == (v / 85) / 85,
        v / 614125 == (v / 7225) / 85,
        v / 52200625 == (v / 614125) / 85,
        0 <= v / 52200625 < 85,
{
    vstd::arithmetic::div_mod::lemma_div_denominator(v, 85, 85);
    vstd::arithmetic::div_mod::lemma_div_denominator(v, 7225, 85);
    vstd::arithmetic::div_mod::lemma_div_denominator(v, 614125, 85);
    lemma_split(v, 52200625);
}

proof fn lemma_byte_places(a: int, b: int, x: int)
    requires
        0 <= a < 256,
        0 <= b < 256,
        0 <= x < 256,
    ensures
        a % 256 == a,
        (a * 256 + b) % 256 == b,
        (a * 65536 + b * 256 + x) % 256 == x,
{
    vstd::arithmetic::div_mod::lemma_fundamental_div_mod_converse(a, 256, 0, a);
    vstd::arithmetic::div_mod::lemma_fundamental_div_mod_converse(a * 256 + b, 256, a, b);
    vstd::arithmetic::div_mod::lemma_fundamental_div_mod_converse(
        a * 65536 + b * 256 + x,
        256,
        a * 256 + b,
        x,
    );
}

#[verifier::rlimit(50)]
proof fn lemma_tail_one(v: int, a: int)
    requires
        0 <= a < 256,
        v == a * 16777216,
    ensures
        ({
            let w = ((((v / 52200625) * 85 + (v / 614125) % 85) * 85 + 84) * 85 + 84) * 85 + 84;
            (w / 16777216) % 256 == a
        }),
        0 <= v / 52200625 < 85,
{
    lemma_powers(v);
    let c = v / 614125;
    lemma_split(c, 85);
    lemma_split(v, 614125);
    let w = c * 614125 + 614124;
    lemma_quotient(w, 16777216, a);
    lemma_byte_places(a, 0, 0);
}

#[verifier::rlimit(50)]
proof fn lemma_tail_two(v: int, a: int, b: int)
    requires
        0 <= a < 256,
        0 <= b < 256,
        v == a * 16777216 + b * 65536,
    ensures
        ({
            let w = ((((v / 52200625) * 85 + (v / 614125) % 85) * 85 + (v / 7225) % 85) * 85 + 84)
                * 85 + 84;
            (w / 16777216) % 256 == a && (w / 65536) % 256 == b
        }),
        0 <= v / 52200625 < 85,
{
    lemma_powers(v);
    let d = v / 7225;
    let c = v / 614125;
    lemma_split(c, 85);
    lemma_split(d, 85);
    lemma_split(v, 7225);
    let w = d * 7225 + 7224;
    lemma_quotient(w, 65536, a * 256 + b);
    lemma_quotient(w, 16777216, a);
    lemma_byte_places(a, b, 0);
}

#[verifier::rlimit(50)]
proof fn lemma_tail_three(v: int, a: int, b: int, x: int)
    requires
        0 <= a < 256,
        0 <= b < 256,
        0 <= x < 256,
        v == a * 16777216 + b * 65536 + x * 256,
    ensures
        ({
            let w = ((((v / 52200625) * 85 + (v / 614125) % 85) * 85 + (v / 7225) % 85) * 85 + (v
                / 85) % 85) * 85 + 84;
            (w / 16777216) % 256 == a && (w / 65536) % 256 == b && (w / 256) % 256 == x
        }),
        0 <= v / 52200625 < 85,
{
    lemma_powers(v);
    let e = v / 85;
    let d = v / 7225;
    let c = v / 614125;
    lemma_split(c, 85);
    lemma_split(d, 85);
    lemma_split(e, 85);
    lemma_split(v, 85);
    let w = e * 85 + 84;
    lemma_quotient(w, 256, a * 65536 + b * 256 + x);
    lemma_quotient(w, 65536, a * 256 + b);
    lemma_quotient(w, 16777216, a);
    lemma_byte_places(a, b, x);
}

/// Digits in front of the end mark are those that are left over.
proof fn lemma_digits_left(d: Seq<u8>, t: Seq<u8>, g: Seq<u8>)
    requires
        d.len() + g.len() <= 4,
        forall|i: int| 0 <= i < d.len() ==> 0 <= #[trigger] d[i] < 85,
        t == seq![0x7Eu8, 0x3E],
    ensures
        a85(d.map_values(|x: u8| (0x21 + x) as u8) + t, g) == crate::filters::a85_rest(g + d),
    decreases d.len(),
{
    let s = d.map_values(|x: u8| (0x21 + x) as u8) + t;
    if d.len() == 0 {
        assert(s =~= t);
        assert(g + d =~= g);
    } else {
        assert(0 <= d[0] < 85);
        assert(s[0] == 0x21 + d[0]);
        assert(s.skip(1) =~= d.skip(1).map_values(|x: u8| (0x21 + x) as u8) + t);
        assert forall|i: int| 0 <= i < d.skip(1).len() implies 0 <= #[trigger] d.skip(1)[i]
            < 85 by {
            assert(0 <= d[i + 1] < 85);
        }
        lemma_digits_left(d.skip(1), t, g.push(d[0]));
        assert(g.push(d[0]) + d.skip(1) =~= g + d);
    }
}

/// The one to three bytes at the end of data come back from base-85 text.
#[verifier::rlimit(50)]
pub proof fn law_a85_tail(b: Seq<u8>)
    requires
        1 <= b.len() <= 3,
    ensures
        a85(a85_tail(b) + seq![0x7Eu8, 0x3E], Seq::empty()) == Ok::<Seq<u8>, Seq<char>>(b),
{
    let n = b.len() as int;
    let v = tail_value(b);
    let x1 = if n > 1 {
        b[1] as int
    } else {
        0
    };
    let x2 = if n > 2 {
        b[2] as int
    } else {
        0
    };
    lemma_tail_three(v, b[0] as int, x1, x2);
    let digits = Seq::new(
        (n + 1) as nat,
        |i: int|
            (if i == 0 {
                v / 52200625
            } else {
                (v / pow85(4 - i)) % 85
            }) as u8,
    );
    assert(a85_tail(b) =~= digits.map_values(|x: u8| (0x21 + x) as u8));
    lemma_digits_left(digits, seq![0x7Eu8, 0x3E], Seq::empty());
    assert(Seq::<u8>::empty() + digits =~= digits);
    let padded = crate::filters::a85_padded(digits);
    let w = crate::filters::a85_value(padded);
    if n == 1 {
        lemma_tail_one(v, b[0] as int);
        assert(be_bytes(w).take(1) =~= b);
    } else if n == 2 {
        lemma_tail_two(v, b[0] as int, b[1] as int);
        assert(be_bytes(w).take(2) =~= b);
    } else {
        assert(be_bytes(w).take(3) =~= b);
    }
}

// ------------------------------------------------------------- run lengths

/// A literal run of 1 to 128 bytes comes out as it is, and what is behind it as
/// if it stood alone.
pub proof fn law_literal_run(run: Seq<u8>, rest: Seq<u8>, out: Seq<u8>)
    requires
        1 <= run.len() <= 128,
        run_length(rest) == Ok::<Seq<u8>, Seq<char>>(out),
    ensures
        run_length(seq![(run.len() - 1) as u8] + run + rest) == Ok::<Seq<u8>, Seq<char>>(
            run + out,
        ),
{
    let s = seq![(run.len() - 1) as u8] + run + rest;
    assert(s.subrange(1, 1 + run.len() as int) =~= run);
    assert(s.skip(1 + run.len() as int) =~= rest);
}

/// A repeat run gives 2 to 128 copies of its byte.
pub proof fn law_repeat_run(b: u8, n: int, rest: Seq<u8>, out: Seq<u8>)
    requires
        2 <= n <= 128,
        run_length(rest) == Ok::<Seq<u8>, Seq<char>>(out),
    ensures
        run_length(seq![(257 - n) as u8, b] + rest) == Ok::<Seq<u8>, Seq<char>>(
            Seq::new(n as nat, |i: int| b) + out,
        ),
{
    let s = seq![(257 - n) as u8, b] + rest;
    assert(s.skip(2) =~= rest);
    assert(copies(b, n) =~= Seq::new(n as nat, |i: int| b));
}

/// The tag 128 ends run-length data, and so does their end; a run that is cut
/// off is refused.
pub proof fn law_run_length_end(rest: Seq<u8>, tag: u8)
    ensures
        run_length(seq![128u8] + rest) == Ok::<Seq<u8>, Seq<char>>(Seq::empty()),
        run_length(Seq::empty()) == Ok::<Seq<u8>, Seq<char>>(Seq::empty()),
        tag < 128 && rest.len() <= tag ==> run_length(seq![tag] + rest) is Err,
        tag > 128 ==> run_length(seq![tag]) is Err,
{
}

} // verus!
