//! Laws of numbers with a point, and of objects described in words.

use vstd::prelude::*;
use crate::describe::{bytes_text, obj_text, quoted, quoted_char, quoted_chars};
use crate::laws::tokens::{decimal, lemma_decimal};
use crate::lex::digits_value;
use crate::number::{
    digits_end, int_of, number_is_finite, number_is_zero, number_of, real_fraction, real_head,
    real_is_nonneg, real_is_zero, real_point, real_start, real_text, real_to_i64, real_whole,
    without_lead, without_tail, NumV, HIGH_LIMB, LOW_LIMB, SINGLE_LEAST, SINGLE_LIMIT,
};
use crate::objects::{ObjV, ObjectId};
use crate::text::{ascii_text, dec};

verus! {

/// A sign in front of a number: none, plus or minus.
pub enum Sign {
    Bare,
    Plus,
    Minus,
}

/// The sign as it is written.
pub open spec fn sign_text(g: Sign) -> Seq<u8> {
    match g {
        Sign::Bare => seq![],
        Sign::Plus => seq![0x2Bu8],
        Sign::Minus => seq![0x2Du8],
    }
}

/// Decimal digits.
pub open spec fn digits(d: Seq<u8>) -> bool {
    forall|i: int| 0 <= i < d.len() ==> 0x30 <= #[trigger] d[i] <= 0x39
}

/// A number with a point: its sign, the digits before the point and those behind it.
pub open spec fn real_written(g: Sign, whole: Seq<u8>, fraction: Seq<u8>) -> Seq<u8> {
    sign_text(g) + whole + seq![0x2Eu8] + fraction
}

proof fn lemma_end(t: Seq<u8>, p: int, e: int)
    requires
        0 <= p <= e <= t.len(),
        forall|i: int| p <= i < e ==> 0x30 <= #[trigger] t[i] <= 0x39,
        e == t.len() || !(0x30 <= t[e] <= 0x39),
    ensures
        digits_end(t, p) == e,
    decreases e - p,
{
    if p < e {
        lemma_end(t, p + 1, e);
    }
}

/// A number is taken apart into its sign and the digits before and behind its point.
pub proof fn law_real_parts(g: Sign, whole: Seq<u8>, fraction: Seq<u8>)
    requires
        digits(whole),
        digits(fraction),
    ensures
        real_whole(real_written(g, whole, fraction)) == whole,
        real_fraction(real_written(g, whole, fraction)) == fraction,
        real_head(real_written(g, whole, fraction)) == sign_text(g) + whole,
{
    let t = real_written(g, whole, fraction);
    let a = sign_text(g).len() as int;
    let p = a + whole.len();
    if a > 0 {
        assert(t[0] == sign_text(g)[0]);
    } else if whole.len() > 0 {
        assert(t[0] == whole[0]);
    } else {
        assert(t[0] == 0x2E);
    }
    assert(real_start(t) == a);
    assert forall|i: int| a <= i < p implies 0x30 <= #[trigger] t[i] <= 0x39 by {
        assert(t[i] == whole[i - a]);
    }
    assert(t[p] == 0x2E);
    lemma_end(t, a, p);
    assert(real_point(t) == p);
    assert forall|i: int| p + 1 <= i < t.len() implies 0x30 <= #[trigger] t[i] <= 0x39 by {
        assert(t[i] == fraction[i - p - 1]);
    }
    lemma_end(t, p + 1, t.len() as int);
    assert(t.subrange(a, p) =~= whole);
    assert(t.subrange(p + 1, t.len() as int) =~= fraction);
    assert(t.take(p) =~= sign_text(g) + whole);
}

/// Without its fraction a number is the digits before its point with its sign, and
/// the nearest integer of 64 bits where that is out of range.
pub proof fn law_real_to_integer(g: Sign, n: int, fraction: Seq<u8>)
    requires
        n >= 0,
        digits(fraction),
    ensures
        ({
            let v = if g is Minus {
                -n
            } else {
                n
            };
            let r = real_to_i64(real_written(g, decimal(n), fraction));
            &&& i64::MIN <= v <= i64::MAX ==> r == v
            &&& v > i64::MAX ==> r == i64::MAX
            &&& v < i64::MIN ==> r == i64::MIN
            &&& int_of(ObjV::Real(real_written(g, decimal(n), fraction))) == Some(r)
        }),
{
    lemma_decimal(n);
    let d = decimal(n);
    law_real_parts(g, d, fraction);
    let h = sign_text(g) + d;
    if g is Bare {
        assert(h =~= d);
        assert(h[0] == d[0]);
    } else {
        assert(h[0] == sign_text(g)[0]);
        assert(h.skip(1) =~= d);
    }
}

/// A number is negative only with a minus sign and a digit other than 0.
pub proof fn law_real_sign(g: Sign, whole: Seq<u8>, fraction: Seq<u8>, i: int)
    requires
        digits(whole),
        digits(fraction),
    ensures
        !(g is Minus) ==> real_is_nonneg(real_written(g, whole, fraction)),
        g is Minus && 0 <= i < whole.len() && whole[i] != 0x30 ==> !real_is_nonneg(
            real_written(g, whole, fraction),
        ),
        g is Minus && 0 <= i < fraction.len() && fraction[i] != 0x30 ==> !real_is_nonneg(
            real_written(g, whole, fraction),
        ),
        (forall|k: int| 0 <= k < whole.len() ==> #[trigger] whole[k] == 0x30) && (forall|k: int|
            0 <= k < fraction.len() ==> #[trigger] fraction[k] == 0x30) ==> real_is_zero(
            real_written(g, whole, fraction),
        ) && real_is_nonneg(real_written(g, whole, fraction)),
{
    let t = real_written(g, whole, fraction);
    let a = sign_text(g).len() as int;
    let p = a + whole.len();
    if a > 0 {
        assert(t[0] == sign_text(g)[0]);
    } else if whole.len() > 0 {
        assert(t[0] == whole[0]);
    } else {
        assert(t[0] == 0x2E);
    }
    if 0 <= i < whole.len() {
        assert(t[a + i] == whole[i]);
    }
    if 0 <= i < fraction.len() {
        assert(t[p + 1 + i] == fraction[i]);
    }
    if (forall|k: int| 0 <= k < whole.len() ==> #[trigger] whole[k] == 0x30) && (forall|k: int|
        0 <= k < fraction.len() ==> #[trigger] fraction[k] == 0x30) {
        assert forall|k: int| 0 <= k < t.len() implies !(49 <= #[trigger] t[k] <= 57) by {
            if k < a {
                assert(t[k] == sign_text(g)[k]);
            } else if k < p {
                assert(t[k] == whole[k - a]);
            } else if k == p {
                assert(t[k] == 0x2E);
            } else {
                assert(t[k] == fraction[k - p - 1]);
            }
        }
    }
}

/// A number in words is its sign if it is negative, the digits before the point from
/// the first that counts on, at least one, and the digits behind the point up to the
/// last that counts, with no point where there are none.
pub proof fn law_real_text(
    g: Sign,
    zeros: nat,
    whole: Seq<u8>,
    fraction: Seq<u8>,
    more: nat,
)
    requires
        digits(whole),
        digits(fraction),
        whole.len() > 0 ==> whole[0] != 0x30,
        fraction.len() > 0 ==> fraction.last() != 0x30,
    ensures
        ({
            let t = real_written(
                g,
                Seq::new(zeros, |i: int| 0x30u8) + whole,
                fraction + Seq::new(more, |i: int| 0x30u8),
            );
            let minus = if g is Minus {
                seq!['-']
            } else {
                seq![]
            };
            let head = if whole.len() == 0 {
                seq!['0']
            } else {
                whole.map_values(|b: u8| b as char)
            };
            let tail = if fraction.len() == 0 {
                seq![]
            } else {
                seq!['.'] + fraction.map_values(|b: u8| b as char)
            };
            real_text(t) == minus + head + tail
        }),
{
    reveal_strlit("-");
    reveal_strlit("");
    reveal_strlit("0");
    reveal_strlit(".");
    let w = Seq::new(zeros, |i: int| 0x30u8) + whole;
    let f = fraction + Seq::new(more, |i: int| 0x30u8);
    assert(digits(w));
    assert(digits(f));
    law_real_parts(g, w, f);
    lemma_lead(zeros, whole);
    lemma_tail(fraction, more);
    let t = real_written(g, w, f);
    if sign_text(g).len() > 0 {
        assert(t[0] == sign_text(g)[0]);
    } else if w.len() > 0 {
        assert(t[0] == w[0]);
    } else {
        assert(t[0] == 0x2E);
    }
    let minus = if g is Minus {
        seq!['-']
    } else {
        seq![]
    };
    let head = if whole.len() == 0 {
        seq!['0']
    } else {
        whole.map_values(|b: u8| b as char)
    };
    let tail = if fraction.len() == 0 {
        seq![]
    } else {
        seq!['.'] + fraction.map_values(|b: u8| b as char)
    };
    assert(ascii_text(whole) =~= whole.map_values(|b: u8| b as char));
    assert(ascii_text(fraction) =~= fraction.map_values(|b: u8| b as char));
    assert(real_text(t) =~= minus + head + tail);
}

proof fn lemma_lead(zeros: nat, whole: Seq<u8>)
    requires
        whole.len() > 0 ==> whole[0] != 0x30,
    ensures
        without_lead(Seq::new(zeros, |i: int| 0x30u8) + whole) == whole,
    decreases zeros,
{
    let d = Seq::new(zeros, |i: int| 0x30u8) + whole;
    if zeros > 0 {
        lemma_lead((zeros - 1) as nat, whole);
        assert(d[0] == 0x30);
        assert(d.skip(1) =~= Seq::new((zeros - 1) as nat, |i: int| 0x30u8) + whole);
    } else {
        assert(d =~= whole);
    }
}

proof fn lemma_tail(fraction: Seq<u8>, more: nat)
    requires
        fraction.len() > 0 ==> fraction.last() != 0x30,
    ensures
        without_tail(fraction + Seq::new(more, |i: int| 0x30u8)) == fraction,
    decreases more,
{
    let d = fraction + Seq::new(more, |i: int| 0x30u8);
    if more > 0 {
        lemma_tail(fraction, (more - 1) as nat);
        assert(d.last() == 0x30);
        assert(d.drop_last() =~= fraction + Seq::new((more - 1) as nat, |i: int| 0x30u8));
    } else {
        assert(d =~= fraction);
    }
}

/// A number is infinite in single precision from 2^128 - 2^103 - 2^74 on, by the
/// digits before its point; integers never are.
pub proof fn law_real_overflow(g: Sign, n: int, fraction: Seq<u8>, i: i64)
    requires
        n >= 0,
        digits(fraction),
    ensures
        number_is_finite(NumV::Real(real_written(g, decimal(n), fraction))) <==> n
            < 340282366920938463463374607431768211456 - 10141204801825835211973625643008
            - 18889465931478580854784,
        number_is_finite(NumV::Integer(i)),
        number_is_zero(NumV::Integer(i)) <==> i == 0,
{
    lemma_decimal(n);
    law_real_parts(g, decimal(n), fraction);
    assert(SINGLE_LIMIT as int == 340282366920938463463374607431768211456
        - 10141204801825835211973625643008 - 18889465931478580854784);
}

/// A number whose digits before the point do not vanish is not zero in single
/// precision, and one whose digits are all 0 is.
pub proof fn law_real_zero(g: Sign, n: int, fraction: Seq<u8>)
    requires
        n >= 0,
        digits(fraction),
    ensures
        n > 0 ==> !number_is_zero(NumV::Real(real_written(g, decimal(n), fraction))),
        (forall|i: int| 0 <= i < fraction.len() ==> #[trigger] fraction[i] == 0x30)
            ==> number_is_zero(NumV::Real(real_written(g, decimal(0), fraction))),
{
    lemma_decimal(n);
    lemma_decimal(0);
    law_real_parts(g, decimal(n), fraction);
    law_real_parts(g, decimal(0), fraction);
    if forall|i: int| 0 <= i < fraction.len() ==> #[trigger] fraction[i] == 0x30 {
        lemma_zeros(fraction);
        lemma_pow10_positive(fraction.len() as int);
        assert(0 * (LOW_LIMB * HIGH_LIMB) == 0);
        assert(0 <= SINGLE_LEAST * crate::number::pow10(fraction.len() as int)) by (nonlinear_arith)
            requires
                crate::number::pow10(fraction.len() as int) > 0,
        ;
    }
}

/// A number without digits before its point is zero in single precision up to
/// (2^53 + 1) / 2^203.
pub proof fn law_real_tiny(g: Sign, fraction: Seq<u8>)
    requires
        digits(fraction),
    ensures
        number_is_zero(NumV::Real(real_written(g, decimal(0), fraction))) <==> digits_value(fraction)
            * 12855504354071922204335696738729300820177623950262342682411008
            <= 9007199254740993 * crate::number::pow10(fraction.len() as int),
{
    lemma_decimal(0);
    law_real_parts(g, decimal(0), fraction);
    assert(LOW_LIMB * HIGH_LIMB
        == 12855504354071922204335696738729300820177623950262342682411008);
    assert(SINGLE_LEAST == 9007199254740993);
}

proof fn lemma_zeros(d: Seq<u8>)
    requires
        forall|i: int| 0 <= i < d.len() ==> #[trigger] d[i] == 0x30,
    ensures
        digits_value(d) == 0,
    decreases d.len(),
{
    if d.len() > 0 {
        assert(d[d.len() - 1] == 0x30);
        assert forall|i: int| 0 <= i < d.drop_last().len() implies #[trigger] d.drop_last()[i]
            == 0x30 by {
            assert(d[i] == 0x30);
        }
        lemma_zeros(d.drop_last());
    }
}

proof fn lemma_pow10_positive(k: int)
    ensures
        crate::number::pow10(k) > 0,
    decreases k,
{
    if k > 0 {
        lemma_pow10_positive(k - 1);
    }
}

/// Integers and reals are numbers, and nothing else is.
pub proof fn law_number_of(n: i64, t: Seq<u8>, o: ObjV)
    ensures
        number_of(ObjV::Integer(n)) == Some(NumV::Integer(n)),
        number_of(ObjV::Real(t)) == Some(NumV::Real(t)),
        int_of(ObjV::Integer(n)) == Some(n),
        !(o is Integer) && !(o is Real) ==> number_of(o) is None && int_of(o) is None,
{
}

// -------------------------------------------------------------- descriptions

/// A text in quotes is its characters, with a backslash in front of quotes and
/// backslashes, and control characters written out.
pub proof fn law_quoted(c: char, t: Seq<char>)
    ensures
        quoted(Seq::empty()) == seq!['"', '"'],
        quoted_chars(t.push(c), t.len() as int + 1) == quoted_chars(t, t.len() as int)
            + quoted_char(c),
        (0x20 <= c as int && (c as int) < 0x7F && c != '"' && c != '\\') || (c as int) >= 0xA0
            ==> quoted_char(c) == seq![c],
        quoted_char('"') == seq!['\\', '"'],
        quoted_char('\\') == seq!['\\', '\\'],
        c as int == 0x0A ==> quoted_char(c) == seq!['\\', 'n'],
        c as int == 0x0D ==> quoted_char(c) == seq!['\\', 'r'],
        c as int == 0x09 ==> quoted_char(c) == seq!['\\', 't'],
        c as int == 0 ==> quoted_char(c) == seq!['\\', '0'],
        c as int == 0x1B ==> quoted_char(c) == seq!['\\', 'u', '{', '1', 'b', '}'],
        c as int == 0x01 ==> quoted_char(c) == seq!['\\', 'u', '{', '1', '}'],
{
    assert(quoted(Seq::empty()) =~= seq!['"', '"']);
    lemma_quoted_prefix(t, c, t.len() as int);
    if c as int == 0x1B {
        assert(quoted_char(c) =~= seq!['\\', 'u', '{', '1', 'b', '}']);
    }
    if c as int == 0x01 {
        assert(quoted_char(c) =~= seq!['\\', 'u', '{', '1', '}']);
    }
}

proof fn lemma_quoted_prefix(t: Seq<char>, c: char, n: int)
    requires
        0 <= n <= t.len(),
    ensures
        quoted_chars(t.push(c), n) == quoted_chars(t, n),
    decreases n,
{
    if n > 0 {
        lemma_quoted_prefix(t, c, n - 1);
    }
}

/// Objects in words: their kind, and what they hold in brackets.
pub proof fn law_described_object(n: i64, name: Seq<char>, b: Seq<u8>, id: ObjectId)
    ensures
        obj_text(ObjV::Null) == "Null"@,
        obj_text(ObjV::Bool(true)) == "Bool(true)"@,
        obj_text(ObjV::Bool(false)) == "Bool(false)"@,
        obj_text(ObjV::Integer(n)) == "Integer("@ + dec(n as int) + ")"@,
        obj_text(ObjV::Name(name)) == "Name("@ + quoted(name) + ")"@,
        obj_text(ObjV::LiteralString(b)) == "LiteralString("@ + bytes_text(b) + ")"@,
        obj_text(ObjV::HexString(b)) == "HexString("@ + bytes_text(b) + ")"@,
        obj_text(ObjV::Reference(id)) == "Reference(ObjectId { number: "@ + dec(id.number as int)
            + ", generation: "@ + dec(id.generation as int) + " })"@,
{
    reveal_strlit("Reference(");
    reveal_strlit("ObjectId { number: ");
    reveal_strlit("Reference(ObjectId { number: ");
    reveal_strlit(" }");
    reveal_strlit(")");
    reveal_strlit(" })");
    assert("Reference(ObjectId { number: "@ =~= "Reference("@ + "ObjectId { number: "@);
    assert(" })"@ =~= " }"@ + ")"@);
    assert(obj_text(ObjV::Reference(id)) =~= "Reference(ObjectId { number: "@ + dec(
        id.number as int,
    ) + ", generation: "@ + dec(id.generation as int) + " })"@);
}

} // verus!
