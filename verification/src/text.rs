//! Building and comparing text.

use vstd::prelude::*;
use crate::objects::ObjectId;

verus! {

/// `String::push` appends one character at the end.
pub assume_specification[ String::push ](s: &mut String, c: char)
    ensures
        final(s)@ == old(s)@.push(c),
;

/// A code that some character has: below 0x110000 and no surrogate.
pub open spec fn is_char_code(v: int) -> bool {
    (0 <= v < 0xD800) || (0xDFFF < v < 0x110000)
}

/// The code of a character.
pub open spec fn has_code(c: char, v: int) -> bool {
    c as int == v
}

/// The character with a given code.
pub open spec fn char_of(v: int) -> char {
    choose|c: char| has_code(c, v)
}

/// `char::from_u32` gives the character with a code, where there is one.
pub assume_specification[ char::from_u32 ](v: u32) -> (r: Option<char>)
    ensures
        r is Some == is_char_code(v as int),
        r matches Some(c) ==> c as int == v,
;

/// `str == str`: two string slices are equal when they hold the same
/// characters in the same order.
#[verifier::external_body]
pub(crate) fn same_text(a: &str, b: &str) -> (r: bool)
    ensures
        r == (a@ == b@),
{
    a == b
}

/// What [`String::from_utf8_lossy`] makes of a byte string: the text that
/// the bytes encode, with U+FFFD in place of every ill-formed part.
pub uninterp spec fn utf8_lossy(bytes: Seq<u8>) -> Seq<char>;

/// [`String::from_utf8_lossy`]. On well-formed UTF-8 nothing is replaced, so
/// the result is the decoded text.
#[verifier::external_body]
pub(crate) fn decode_utf8_lossy(bytes: &[u8]) -> (r: String)
    ensures
        r@ == utf8_lossy(bytes@),
        vstd::utf8::valid_utf8(bytes@) ==> r@ == vstd::utf8::decode_utf8(bytes@),
{
    String::from_utf8_lossy(bytes).into_owned()
}

/// [`String::from_utf8`]. It fails exactly on bytes that are not UTF-8.
#[verifier::external_body]
pub(crate) fn decode_utf8_strict(bytes: Vec<u8>) -> (r: Option<String>)
    ensures
        r is Some == vstd::utf8::valid_utf8(bytes@),
        r matches Some(s) ==> s@ == vstd::utf8::decode_utf8(bytes@),
{
    String::from_utf8(bytes).ok()
}

/// The first half of a surrogate pair.
pub open spec fn is_high_half(u: u16) -> bool {
    0xD800 <= u < 0xDC00
}

/// The second half of a surrogate pair.
pub open spec fn is_low_half(u: u16) -> bool {
    0xDC00 <= u < 0xE000
}

/// The text that UTF-16 units stand for from place `i` on. A pair of halves is
/// one character, a half without the other is U+FFFD, and any other unit is the
/// character with that code.
pub open spec fn utf16_from(units: Seq<u16>, i: int) -> Seq<char>
    decreases units.len() - i,
{
    if i < 0 || i >= units.len() {
        Seq::empty()
    } else if !is_high_half(units[i]) && !is_low_half(units[i]) {
        seq![char_of(units[i] as int)] + utf16_from(units, i + 1)
    } else if is_high_half(units[i]) && i + 1 < units.len() && is_low_half(units[i + 1]) {
        seq![char_of(0x10000 + (units[i] - 0xD800) * 0x400 + (units[i + 1] - 0xDC00))]
            + utf16_from(units, i + 2)
    } else {
        seq![char_of(0xFFFD)] + utf16_from(units, i + 1)
    }
}

/// The text that UTF-16 units stand for.
pub open spec fn utf16_text(units: Seq<u16>) -> Seq<char> {
    utf16_from(units, 0)
}

/// [`String::from_utf16_lossy`]. It decodes UTF-16 and puts U+FFFD in place of
/// every unpaired surrogate.
#[verifier::external_body]
pub(crate) fn decode_utf16_lossy(units: &[u16]) -> (r: String)
    ensures
        r@ == utf16_text(units@),
{
    String::from_utf16_lossy(units)
}

/// The decimal digit `d` as a character.
pub open spec fn digit_char(d: nat) -> char {
    ((48 + d) as u8) as char
}

/// The decimal digits of `n`, most significant first.
pub open spec fn dec_nat(n: nat) -> Seq<char>
    decreases n,
{
    if n < 10 {
        seq![digit_char(n)]
    } else {
        dec_nat(n / 10).push(digit_char(n % 10))
    }
}

/// The decimal form of `n`, with a leading `-` below zero.
pub open spec fn dec(n: int) -> Seq<char> {
    if n < 0 {
        seq!['-'] + dec_nat((-n) as nat)
    } else {
        dec_nat(n as nat)
    }
}

/// `base` followed by `tail`.
pub(crate) fn cat(base: String, tail: &str) -> (r: String)
    ensures
        r@ == base@ + tail@,
{
    base.concat(tail)
}

/// Append the decimal digits of `n`.
pub(crate) fn push_nat(out: &mut String, n: u64)
    ensures
        final(out)@ == old(out)@ + dec_nat(n as nat),
    decreases n,
{
    if n >= 10 {
        push_nat(out, n / 10);
    }
    let d: u8 = 48 + (n % 10) as u8;
    out.push(d as char);
    proof {
        if n >= 10 {
            assert(out@ =~= old(out)@ + dec_nat((n / 10) as nat).push(digit_char((n % 10) as nat)));
        } else {
            assert(out@ =~= old(out)@ + seq![digit_char(n as nat)]);
        }
    }
}

/// `base` followed by the decimal form of an unsigned number.
pub(crate) fn cat_nat(base: String, n: u64) -> (r: String)
    ensures
        r@ == base@ + dec(n as int),
{
    let mut out: String = base;
    push_nat(&mut out, n);
    out
}

/// `base` followed by the decimal form of a signed number.
pub(crate) fn cat_int(base: String, n: i64) -> (r: String)
    ensures
        r@ == base@ + dec(n as int),
{
    let mut out: String = base;
    if n < 0 {
        let m: u64 = (-(n + 1)) as u64 + 1;
        let ghost before = out@;
        out.push('-');
        push_nat(&mut out, m);
        proof {
            assert(out@ =~= before + (seq!['-'] + dec_nat(m as nat)));
        }
    } else {
        push_nat(&mut out, n as u64);
    }
    out
}

/// The digit `d` (below 16) as a lowercase hexadecimal character.
pub open spec fn hex_char(d: nat) -> char {
    if d < 10 {
        ((48 + d) as u8) as char
    } else {
        ((87 + d) as u8) as char
    }
}

/// The hexadecimal form of a byte: `0x` and one or two lowercase digits.
pub open spec fn hex_text(b: u8) -> Seq<char> {
    if b < 16 {
        "0x"@ + seq![hex_char(b as nat)]
    } else {
        "0x"@ + seq![hex_char((b / 16) as nat), hex_char((b % 16) as nat)]
    }
}

/// The digit `d` (below 16) as a lowercase hexadecimal character.
pub(crate) fn hex_digit_char(d: u8) -> (c: char)
    requires
        d < 16,
    ensures
        c == hex_char(d as nat),
{
    if d < 10 {
        (48 + d) as char
    } else {
        (87 + d) as char
    }
}

/// `base` followed by the hexadecimal form of a byte.
pub(crate) fn cat_hex(base: String, b: u8) -> (r: String)
    ensures
        r@ == base@ + hex_text(b),
{
    let mut out: String = cat(base, "0x");
    if b >= 16 {
        out.push(hex_digit_char(b / 16));
    }
    out.push(hex_digit_char(b % 16));
    proof {
        assert(out@ =~= base@ + hex_text(b));
    }
    out
}

/// ASCII bytes as text.
pub open spec fn ascii_text(b: Seq<u8>) -> Seq<char> {
    b.map_values(|x: u8| x as char)
}

/// `base` followed by ASCII bytes.
pub(crate) fn cat_ascii(base: String, b: &[u8]) -> (r: String)
    ensures
        r@ == base@ + ascii_text(b@),
{
    let mut out: String = base;
    let mut i: usize = 0;
    while i < b.len()
        invariant
            i <= b@.len(),
            out@ =~= base@ + ascii_text(b@.take(i as int)),
        decreases b.len() - i,
    {
        out.push(b[i] as char);
        proof {
            assert(b@.take(i + 1) =~= b@.take(i as int).push(b@[i as int]));
        }
        i = i + 1;
    }
    proof {
        assert(b@.take(i as int) =~= b@);
    }
    out
}

/// The number and generation of an object, named.
pub open spec fn id_text(id: ObjectId) -> Seq<char> {
    "ObjectId { number: "@ + dec(id.number as int) + ", generation: "@ + dec(id.generation as int)
        + " }"@
}

/// `base` followed by the number and generation of an object, named.
pub(crate) fn cat_id(base: String, id: ObjectId) -> (r: String)
    ensures
        r@ == base@ + id_text(id),
{
    let m: String = cat_nat(cat(base, "ObjectId { number: "), id.number as u64);
    let m: String = cat_nat(cat(m, ", generation: "), id.generation as u64);
    let r: String = cat(m, " }");
    proof {
        assert(r@ =~= base@ + id_text(id));
    }
    r
}

/// Texts as mathematical values.
pub open spec fn texts(s: Seq<String>) -> Seq<Seq<char>> {
    s.map_values(|t: String| t@)
}

/// The characters of a text.
pub(crate) fn chars_of(s: &str) -> (r: Vec<char>)
    ensures
        r@ == s@,
{
    let mut out: Vec<char> = Vec::new();
    for c in it: s.chars()
        invariant
            out@ =~= it.seq().take(it.index()),
            it.seq() == s@,
    {
        out.push(c);
    }
    out
}

/// The decimal form of a signed number.
pub(crate) fn int_text(n: i64) -> (r: String)
    ensures
        r@ == dec(n as int),
{
    let r: String = cat_int(String::new(), n);
    proof {
        assert(Seq::<char>::empty() + dec(n as int) =~= dec(n as int));
    }
    r
}

} // verus!
