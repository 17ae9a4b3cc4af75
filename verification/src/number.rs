//! Numbers: integers, and reals by the digits they are written with.

use vstd::prelude::*;
use crate::lex::{digits_value, has_sign, integer_value, is_digit, parse_integer};
use crate::objects::{clone_bytes, ObjV, Object, Real};
use crate::text::{ascii_text, cat, cat_ascii};

verus! {

/// The first place at or after `p` that is not a digit.
pub open spec fn digits_end(t: Seq<u8>, p: int) -> int
    decreases t.len() - p,
{
    if p < 0 || p >= t.len() || !is_digit(t[p]) {
        p
    } else {
        digits_end(t, p + 1)
    }
}

/// A real's sign and the digits before its point.
pub open spec fn real_head(t: Seq<u8>) -> Seq<u8> {
    t.take(
        digits_end(
            t,
            if has_sign(t) {
                1
            } else {
                0
            },
        ),
    )
}

/// `v` as near as the range of `i64` allows.
pub open spec fn clamp_i64(v: int) -> i64 {
    if v < i64::MIN {
        i64::MIN
    } else if v > i64::MAX {
        i64::MAX
    } else {
        v as i64
    }
}

/// A real without its fraction, as near as the range of `i64` allows.
pub open spec fn real_to_i64(t: Seq<u8>) -> i64 {
    clamp_i64(integer_value(real_head(t)))
}

/// Every digit of a real is 0.
pub open spec fn real_is_zero(t: Seq<u8>) -> bool {
    forall|i: int| 0 <= i < t.len() ==> !(49 <= #[trigger] t[i] <= 57)
}

/// A real is 0 or more.
pub open spec fn real_is_nonneg(t: Seq<u8>) -> bool {
    !(t.len() > 0 && t[0] == 45) || real_is_zero(t)
}

/// Where the digits of a real begin.
pub open spec fn real_start(t: Seq<u8>) -> int {
    if has_sign(t) {
        1
    } else {
        0
    }
}

/// Where the digits before the point of a real end.
pub open spec fn real_point(t: Seq<u8>) -> int {
    digits_end(t, real_start(t))
}

/// The digits of a real before its point.
pub open spec fn real_whole(t: Seq<u8>) -> Seq<u8> {
    t.subrange(real_start(t), real_point(t))
}

/// The digits of a real behind its point.
pub open spec fn real_fraction(t: Seq<u8>) -> Seq<u8> {
    let p = real_point(t);
    if p < t.len() && t[p] == 46 {
        t.subrange(p + 1, digits_end(t, p + 1))
    } else {
        Seq::empty()
    }
}

/// Only digits.
pub open spec fn all_digits(d: Seq<u8>) -> bool {
    forall|i: int| 0 <= i < d.len() ==> is_digit(#[trigger] d[i])
}

/// Digits without the zeros in front.
pub open spec fn without_lead(d: Seq<u8>) -> Seq<u8>
    decreases d.len(),
{
    if d.len() > 0 && d[0] == 48 {
        without_lead(d.skip(1))
    } else {
        d
    }
}

/// Digits without the zeros behind.
pub open spec fn without_tail(d: Seq<u8>) -> Seq<u8>
    decreases d.len(),
{
    if d.len() > 0 && d.last() == 48 {
        without_tail(d.drop_last())
    } else {
        d
    }
}

/// A real as text: its sign if it is negative, and its digits without zeros that
/// say nothing, with one digit before the point at least and no point at the
/// end. Digits beyond those that a double keeps are not rounded.
pub open spec fn real_text(t: Seq<u8>) -> Seq<char> {
    let whole = without_lead(real_whole(t));
    let fraction = without_tail(real_fraction(t));
    let sign = if t.len() > 0 && t[0] == 45 {
        "-"@
    } else {
        ""@
    };
    let head = if whole.len() == 0 {
        sign + "0"@
    } else {
        sign + ascii_text(whole)
    };
    if fraction.len() == 0 {
        head
    } else {
        head + "."@ + ascii_text(fraction)
    }
}

/// 10 to the power of `k`.
pub open spec fn pow10(k: int) -> int
    decreases k,
{
    if k <= 0 {
        1
    } else {
        10 * pow10(k - 1)
    }
}

/// The least number that is infinite in single precision, if it is rounded to
/// double precision first: 2^128 - 2^103 - 2^74.
pub const SINGLE_LIMIT: u128 = 0xFFFF_FF7F_FFFF_FC00_0000_0000_0000_0000;

/// A real is infinite in single precision.
pub open spec fn real_overflows(t: Seq<u8>) -> bool {
    digits_value(real_whole(t)) >= SINGLE_LIMIT
}

/// 2^100.
pub const LOW_LIMB: u128 = 0x10_0000_0000_0000_0000_0000_0000;

/// 2^103.
pub const HIGH_LIMB: u128 = 0x80_0000_0000_0000_0000_0000_0000;

/// 2^53 + 1.
pub const SINGLE_LEAST: u128 = 0x20_0000_0000_0001;

/// A real is zero in single precision: without its sign it is at most
/// 2^-150 + 2^-203, which is (2^53 + 1) / 2^203.
pub open spec fn real_vanishes(t: Seq<u8>) -> bool {
    let fraction = real_fraction(t);
    &&& digits_value(real_whole(t)) == 0
    &&& digits_value(fraction) * (LOW_LIMB * HIGH_LIMB) <= SINGLE_LEAST * pow10(
        fraction.len() as int,
    )
}

impl Real {
    /// Where the digits begin, where those before the point end, and where those
    /// behind it do.
    fn parts(&self) -> (r: (usize, usize, usize))
        ensures
            r.0 == real_start(self@),
            r.1 == real_point(self@),
            r.0 <= r.1 <= self@.len(),
            all_digits(real_whole(self@)),
            all_digits(real_fraction(self@)),
            r.2 <= self@.len(),
            r.1 < r.2 ==> real_fraction(self@) == self@.subrange(r.1 + 1, r.2 as int),
            r.1 >= r.2 ==> real_fraction(self@) == Seq::<u8>::empty(),
    {
        let start: usize = if self.text.len() > 0 && (self.text[0] == 43 || self.text[0] == 45) {
            1
        } else {
            0
        };
        let point: usize = self.skip_digits(start);
        if point < self.text.len() && self.text[point] == 46 {
            let end: usize = self.skip_digits(point + 1);
            (start, point, end)
        } else {
            (start, point, point)
        }
    }

    fn skip_digits(&self, from: usize) -> (r: usize)
        requires
            from <= self@.len(),
        ensures
            r == digits_end(self@, from as int),
            from <= r <= self@.len(),
            all_digits(self@.subrange(from as int, r as int)),
    {
        let mut end: usize = from;
        while end < self.text.len() && 48 <= self.text[end] && self.text[end] <= 57
            invariant
                from <= end <= self@.len(),
                digits_end(self@, from as int) == digits_end(self@, end as int),
                forall|i: int| from <= i < end ==> is_digit(#[trigger] self@[i]),
            decreases self.text.len() - end,
        {
            end = end + 1;
        }
        end
    }

    /// The real as text.
    pub fn to_text(&self) -> (r: String)
        ensures
            r@ == real_text(self@),
    {
        let (start, point, end): (usize, usize, usize) = self.parts();
        let t: &Vec<u8> = &self.text;
        let mut out: String = if t.len() > 0 && t[0] == 45 {
            "-".to_owned()
        } else {
            "".to_owned()
        };
        let ghost sign = out@;
        let mut a: usize = start;
        proof {
            assert(t@.subrange(start as int, point as int) =~= real_whole(t@));
        }
        while a < point && t[a] == 48
            invariant
                start <= a <= point <= t@.len(),
                without_lead(real_whole(t@)) == without_lead(t@.subrange(a as int, point as int)),
            decreases point - a,
        {
            proof {
                assert(t@.subrange(a as int, point as int).skip(1) =~= t@.subrange(
                    a + 1,
                    point as int,
                ));
            }
            a = a + 1;
        }
        if a == point {
            out = cat(out, "0");
        } else {
            out = cat_ascii(out, vstd::slice::slice_subrange(t.as_slice(), a, point));
        }
        if point >= end {
            return out;
        }
        let mut b: usize = end;
        while b > point + 1 && t[b - 1] == 48
            invariant
                point + 1 <= b <= end <= t@.len(),
                without_tail(real_fraction(t@)) == without_tail(
                    t@.subrange(point + 1, b as int),
                ),
            decreases b,
        {
            proof {
                assert(t@.subrange(point + 1, b as int).drop_last() =~= t@.subrange(
                    point + 1,
                    b - 1,
                ));
            }
            b = b - 1;
        }
        if b == point + 1 {
            return out;
        }
        out = cat(out, ".");
        cat_ascii(out, vstd::slice::slice_subrange(t.as_slice(), point + 1, b))
    }

    /// The real has a fraction other than 0.
    pub(crate) fn has_fraction(&self) -> (r: bool)
        ensures
            r == (without_tail(real_fraction(self@)).len() > 0),
    {
        let (_, point, end): (usize, usize, usize) = self.parts();
        if point >= end {
            return false;
        }
        let mut b: usize = end;
        while b > point + 1 && self.text[b - 1] == 48
            invariant
                point + 1 <= b <= end <= self@.len(),
                without_tail(real_fraction(self@)) == without_tail(
                    self@.subrange(point + 1, b as int),
                ),
            decreases b,
        {
            proof {
                assert(self@.subrange(point + 1, b as int).drop_last() =~= self@.subrange(
                    point + 1,
                    b - 1,
                ));
            }
            b = b - 1;
        }
        b > point + 1
    }

    /// The real is infinite in single precision.
    pub fn overflows(&self) -> (r: bool)
        ensures
            r == real_overflows(self@),
    {
        let (start, point, _): (usize, usize, usize) = self.parts();
        let ghost whole = real_whole(self@);
        let mut n: u128 = 0;
        let mut i: usize = start;
        proof {
            assert(whole.take(0) =~= Seq::empty());
        }
        while i < point
            invariant
                start <= i <= point <= self@.len(),
                start == real_start(self@),
                point == real_point(self@),
                whole == real_whole(self@),
                all_digits(whole),
                n == digits_value(whole.take(i - start)),
                n < SINGLE_LIMIT,
            decreases point - i,
        {
            proof {
                let k = i - start;
                assert(whole[k] == self@[i as int]);
                assert(is_digit(whole[k]));
                assert(whole.take(k + 1).drop_last() =~= whole.take(k));
                assert(whole.take(k + 1).last() == whole[k]);
            }
            let d: u8 = self.text[i] - 48;
            if n > SINGLE_LIMIT / 10 || n * 10 >= SINGLE_LIMIT - d as u128 {
                proof {
                    lemma_prefix_value(whole, i - start + 1);
                }
                return true;
            }
            n = n * 10 + d as u128;
            i = i + 1;
        }
        proof {
            assert(whole.take(point - start) =~= whole);
        }
        false
    }

    /// The real is zero in single precision.
    pub fn vanishes(&self) -> (r: bool)
        ensures
            r == real_vanishes(self@),
    {
        let (start, point, end): (usize, usize, usize) = self.parts();
        let ghost whole = real_whole(self@);
        let ghost fraction = real_fraction(self@);
        let mut i: usize = start;
        proof {
            assert(whole.take(0) =~= Seq::empty());
        }
        while i < point
            invariant
                start <= i <= point <= self@.len(),
                start == real_start(self@),
                point == real_point(self@),
                whole == real_whole(self@),
                all_digits(whole),
                digits_value(whole.take(i - start)) == 0,
            decreases point - i,
        {
            proof {
                let k = i - start;
                assert(whole[k] == self@[i as int]);
                assert(is_digit(whole[k]));
                assert(whole.take(k + 1).drop_last() =~= whole.take(k));
                assert(whole.take(k + 1).last() == whole[k]);
            }
            if self.text[i] != 48 {
                proof {
                    lemma_prefix_value(whole, i - start + 1);
                }
                return false;
            }
            i = i + 1;
        }
        proof {
            assert(whole.take(point - start) =~= whole);
            assert(fraction.take(0) =~= Seq::empty());
        }
        if point >= end {
            return true;
        }
        let mut high: u128 = 0;
        let mut low: u128 = SINGLE_LEAST;
        let mut j: usize = point + 1;
        while j < end
            invariant
                point + 1 <= j <= end <= self@.len(),
                fraction == real_fraction(self@),
                fraction == self@.subrange(point + 1, end as int),
                all_digits(fraction),
                digits_value(real_whole(self@)) == 0,
                high < HIGH_LIMB,
                low < LOW_LIMB,
                room_left(fraction, j - point - 1) == high * LOW_LIMB + low,
            decreases end - j,
        {
            let ghost k = j - point - 1;
            proof {
                assert(fraction[k] == self@[j as int]);
                assert(is_digit(fraction[k]));
                lemma_room_step(fraction, k);
            }
            let d: u128 = (self.text[j] - 48) as u128;
            let low2: u128 = low * 10;
            let high2: u128 = high * 10 + low2 / LOW_LIMB;
            low = low2 % LOW_LIMB;
            if high2 < d * HIGH_LIMB {
                proof {
                    assert(room_left(fraction, k + 1) < 0);
                    lemma_no_room(fraction, k + 1);
                }
                return false;
            }
            high = high2 - d * HIGH_LIMB;
            if high >= HIGH_LIMB {
                proof {
                    assert(room_left(fraction, k + 1) >= LOW_LIMB * HIGH_LIMB);
                    lemma_much_room(fraction, k + 1);
                }
                return true;
            }
            j = j + 1;
        }
        proof {
            assert(fraction.take(fraction.len() as int) =~= fraction);
        }
        true
    }

    /// The real written with the given digits.
    pub fn new(text: &[u8]) -> (r: Real)
        ensures
            r@ == text@,
    {
        Real { text: vstd::slice::slice_to_vec(text) }
    }

    /// The real without its fraction, as near as the range allows.
    pub fn to_i64(&self) -> (r: i64)
        ensures
            r == real_to_i64(self@),
    {
        let t: &Vec<u8> = &self.text;
        let first: usize = if t.len() > 0 && (t[0] == 43 || t[0] == 45) {
            1
        } else {
            0
        };
        let mut end: usize = first;
        while end < t.len() && 48 <= t[end] && t[end] <= 57
            invariant
                first <= end <= t@.len(),
                digits_end(t@, first as int) == digits_end(t@, end as int),
                forall|i: int| first <= i < end ==> is_digit(#[trigger] t@[i]),
            decreases t.len() - end,
        {
            end = end + 1;
        }
        let head: &[u8] = vstd::slice::slice_subrange(t.as_slice(), 0, end);
        proof {
            assert(head@ =~= real_head(t@));
        }
        match parse_integer(head) {
            Some(n) => n,
            None => {
                proof {
                    lemma_integer_sign(head@);
                }
                if t.len() > 0 && t[0] == 45 {
                    i64::MIN
                } else {
                    i64::MAX
                }
            },
        }
    }

    /// Every digit of the real is 0.
    pub fn is_zero(&self) -> (r: bool)
        ensures
            r == real_is_zero(self@),
    {
        let mut i: usize = 0;
        while i < self.text.len()
            invariant
                i <= self.text@.len(),
                forall|k: int| 0 <= k < i ==> !(49 <= #[trigger] self.text@[k] <= 57),
            decreases self.text.len() - i,
        {
            if 49 <= self.text[i] && self.text[i] <= 57 {
                return false;
            }
            i = i + 1;
        }
        true
    }

    /// The real is 0 or more.
    pub fn is_nonneg(&self) -> (r: bool)
        ensures
            r == real_is_nonneg(self@),
    {
        !(self.text.len() > 0 && self.text[0] == 45) || self.is_zero()
    }
}

/// How far the first `k` digits of a fraction stay below the bound for zero, in
/// parts of 2^203 and with the point moved by `k` places.
spec fn room_left(fraction: Seq<u8>, k: int) -> int {
    SINGLE_LEAST * pow10(k) - digits_value(fraction.take(k)) * (LOW_LIMB * HIGH_LIMB)
}

proof fn lemma_room_step(fraction: Seq<u8>, k: int)
    requires
        0 <= k < fraction.len(),
    ensures
        room_left(fraction, k + 1) == 10 * room_left(fraction, k) - (fraction[k] - 48) * (LOW_LIMB
            * HIGH_LIMB),
{
    let p = digits_value(fraction.take(k));
    let d = fraction[k] - 48;
    let unit = LOW_LIMB * HIGH_LIMB;
    assert(fraction.take(k + 1).drop_last() =~= fraction.take(k));
    assert(fraction.take(k + 1).last() == fraction[k]);
    assert((p * 10 + d) * unit == 10 * (p * unit) + d * unit) by (nonlinear_arith);
    let m = pow10(k);
    assert(SINGLE_LEAST * (10 * m) == 10 * (SINGLE_LEAST * m)) by (nonlinear_arith);
}

/// What is above the bound stays above it.
proof fn lemma_no_room(fraction: Seq<u8>, k: int)
    requires
        all_digits(fraction),
        0 <= k <= fraction.len(),
        room_left(fraction, k) < 0,
    ensures
        room_left(fraction, fraction.len() as int) < 0,
        fraction.take(fraction.len() as int) == fraction,
    decreases fraction.len() - k,
{
    assert(fraction.take(fraction.len() as int) =~= fraction);
    if k < fraction.len() {
        lemma_room_step(fraction, k);
        assert(is_digit(fraction[k]));
        lemma_no_room(fraction, k + 1);
    }
}

/// What is below the bound by a whole unit stays below it.
proof fn lemma_much_room(fraction: Seq<u8>, k: int)
    requires
        all_digits(fraction),
        0 <= k <= fraction.len(),
        room_left(fraction, k) >= LOW_LIMB * HIGH_LIMB,
    ensures
        room_left(fraction, fraction.len() as int) >= LOW_LIMB * HIGH_LIMB,
        fraction.take(fraction.len() as int) == fraction,
    decreases fraction.len() - k,
{
    assert(fraction.take(fraction.len() as int) =~= fraction);
    if k < fraction.len() {
        lemma_room_step(fraction, k);
        assert(is_digit(fraction[k]));
        lemma_much_room(fraction, k + 1);
    }
}

/// More digits spell no smaller number.
proof fn lemma_prefix_value(d: Seq<u8>, k: int)
    requires
        all_digits(d),
        0 <= k <= d.len(),
    ensures
        0 <= digits_value(d.take(k)) <= digits_value(d),
    decreases d.len() - k,
{
    lemma_digits_nonneg(d.take(k));
    if k < d.len() {
        lemma_prefix_value(d, k + 1);
        assert(d.take(k + 1).drop_last() =~= d.take(k));
        assert(d.take(k + 1).last() == d[k]);
        assert(is_digit(d[k]));
    } else {
        assert(d.take(k) =~= d);
    }
}

/// Digits spell no negative number.
proof fn lemma_digits_nonneg(d: Seq<u8>)
    requires
        forall|i: int| 0 <= i < d.len() ==> is_digit(#[trigger] d[i]),
    ensures
        digits_value(d) >= 0,
    decreases d.len(),
{
    if d.len() > 0 {
        assert forall|i: int| 0 <= i < d.drop_last().len() implies is_digit(
            #[trigger] d.drop_last()[i],
        ) by {
            assert(d.drop_last()[i] == d[i]);
        }
        lemma_digits_nonneg(d.drop_last());
    }
}

/// The sign of a number is the sign it is written with.
proof fn lemma_integer_sign(t: Seq<u8>)
    requires
        forall|i: int|
            (if has_sign(t) {
                1int
            } else {
                0int
            }) <= i < t.len() ==> is_digit(#[trigger] t[i]),
    ensures
        t.len() > 0 && t[0] == 45 ==> integer_value(t) <= 0,
        !(t.len() > 0 && t[0] == 45) ==> integer_value(t) >= 0,
{
    if has_sign(t) {
        assert forall|i: int| 0 <= i < t.skip(1).len() implies is_digit(#[trigger] t.skip(1)[i]) by {
            assert(t.skip(1)[i] == t[i + 1]);
        }
        lemma_digits_nonneg(t.skip(1));
    } else {
        lemma_digits_nonneg(t);
    }
}

/// An integer or a real.
#[derive(Debug, Clone, PartialEq, Eq)]
pub enum Number {
    Integer(i64),
    Real(Real),
}

/// A number as a mathematical value.
pub enum NumV {
    Integer(i64),
    Real(Seq<u8>),
}

impl View for Number {
    type V = NumV;

    open spec fn view(&self) -> NumV {
        match *self {
            Number::Integer(n) => NumV::Integer(n),
            Number::Real(r) => NumV::Real(r@),
        }
    }
}

/// The number that an object is.
pub open spec fn number_of(o: ObjV) -> Option<NumV> {
    match o {
        ObjV::Integer(n) => Some(NumV::Integer(n)),
        ObjV::Real(t) => Some(NumV::Real(t)),
        _ => None,
    }
}

/// A number is 0 in single precision.
pub open spec fn number_is_zero(n: NumV) -> bool {
    match n {
        NumV::Integer(n) => n == 0,
        NumV::Real(t) => real_vanishes(t),
    }
}

/// A number is finite in single precision.
pub open spec fn number_is_finite(n: NumV) -> bool {
    match n {
        NumV::Integer(_) => true,
        NumV::Real(t) => !real_overflows(t),
    }
}

/// What an optional number stands for.
pub open spec fn opt_number(n: Option<Number>) -> Option<NumV> {
    match n {
        Some(v) => Some(v@),
        None => None,
    }
}

/// What a sequence of numbers stands for.
pub open spec fn numbers(s: Seq<Number>) -> Seq<NumV> {
    s.map_values(|n: Number| n@)
}

/// The number that an object is.
pub fn object_number(o: &Object) -> (r: Option<Number>)
    ensures
        opt_number(r) == number_of(o@),
{
    match o {
        Object::Integer(n) => Some(Number::Integer(*n)),
        Object::Real(x) => Some(Number::Real(Real { text: clone_bytes(&x.text) })),
        _ => None,
    }
}

impl Number {
    /// The number is 0 in single precision.
    pub fn is_zero(&self) -> (r: bool)
        ensures
            r == number_is_zero(self@),
    {
        match self {
            Number::Integer(n) => *n == 0,
            Number::Real(x) => x.vanishes(),
        }
    }

    /// The number is finite in single precision.
    pub fn is_finite(&self) -> (r: bool)
        ensures
            r == number_is_finite(self@),
    {
        match self {
            Number::Integer(_) => true,
            Number::Real(x) => !x.overflows(),
        }
    }
}

/// The number that an object is, without its fraction.
pub open spec fn int_of(o: ObjV) -> Option<i64> {
    match o {
        ObjV::Integer(n) => Some(n),
        ObjV::Real(t) => Some(real_to_i64(t)),
        _ => None,
    }
}

/// The number that an object is, without its fraction.
pub fn object_int(o: &Object) -> (r: Option<i64>)
    ensures
        r == int_of(o@),
{
    match o {
        Object::Integer(n) => Some(*n),
        Object::Real(x) => Some(x.to_i64()),
        _ => None,
    }
}

} // verus!
