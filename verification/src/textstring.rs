//! Text strings: bytes of a document that stand for text.

use vstd::prelude::*;
use crate::encoding::opt_text;
use crate::objects::{ObjV, Object};
use crate::text::{decode_utf16_lossy, decode_utf8_lossy, utf16_text, utf8_lossy};

verus! {

/// Bytes that begin with the big-endian byte order mark.
pub open spec fn has_bom(b: Seq<u8>) -> bool {
    b.len() >= 2 && b[0] == 0xFE && b[1] == 0xFF
}

/// The 16-bit units behind a byte order mark; an odd last byte is dropped.
pub open spec fn units_behind_bom(b: Seq<u8>) -> Seq<u16> {
    Seq::new(
        ((b.len() - 2) / 2) as nat,
        |i: int| (b[2 + 2 * i] * 256 + b[3 + 2 * i]) as u16,
    )
}

/// The text that bytes stand for: UTF-16 behind a byte order mark, and UTF-8
/// otherwise.
pub open spec fn text_of_bytes(b: Seq<u8>) -> Seq<char> {
    if has_bom(b) {
        utf16_text(units_behind_bom(b))
    } else {
        utf8_lossy(b)
    }
}

/// The text that bytes stand for.
pub fn decode_text_bytes(b: &[u8]) -> (r: String)
    ensures
        r@ == text_of_bytes(b@),
{
    if b.len() >= 2 && b[0] == 0xFE && b[1] == 0xFF {
        let mut units: Vec<u16> = Vec::new();
        let mut p: usize = 2;
        while b.len() - p >= 2
            invariant
                2 <= p <= b@.len(),
                p % 2 == 0,
                units@.len() == (p - 2) / 2,
                forall|i: int|
                    0 <= i < units@.len() ==> #[trigger] units@[i] == (b@[2 + 2 * i] * 256 + b@[3
                        + 2 * i]) as u16,
            decreases b.len() - p,
        {
            units.push(b[p] as u16 * 256 + b[p + 1] as u16);
            p = p + 2;
        }
        proof {
            assert(units@ =~= units_behind_bom(b@));
        }
        decode_utf16_lossy(units.as_slice())
    } else {
        decode_utf8_lossy(b)
    }
}

/// The text of an information entry: a string in parentheses is UTF-8, and
/// one in hexadecimal may be UTF-16 behind a byte order mark.
pub open spec fn info_text(o: ObjV) -> Option<Seq<char>> {
    match o {
        ObjV::LiteralString(b) => Some(utf8_lossy(b)),
        ObjV::HexString(b) => Some(text_of_bytes(b)),
        _ => None,
    }
}

/// The text of an information entry.
pub fn decode_text(o: &Object) -> (r: Option<String>)
    ensures
        opt_text(r) == info_text(o@),
{
    match o {
        Object::LiteralString(b) => Some(decode_utf8_lossy(b.as_slice())),
        Object::HexString(b) => Some(decode_text_bytes(b.as_slice())),
        _ => None,
    }
}

/// The text of an optional information entry.
pub open spec fn opt_info_text(o: Option<ObjV>) -> Option<Seq<char>> {
    match o {
        Some(v) => info_text(v),
        None => None,
    }
}

/// The text of an optional information entry.
pub fn decode_opt_text(o: Option<&Object>) -> (r: Option<String>)
    ensures
        opt_text(r) == opt_info_text(crate::objects::opt_view(o)),
{
    match o {
        Some(v) => decode_text(v),
        None => None,
    }
}

// ------------------------------------------------------------------ dates

/// The part of the bytes from `a` up to `b` as text.
pub open spec fn part(s: Seq<u8>, a: int, b: int) -> Seq<char> {
    utf8_lossy(s.subrange(a, b))
}

/// A date and time whose digits follow the mark `D:` in `s`, as far as it is
/// given: year, month, day, hour, minute and second.
pub open spec fn iso_digits(s: Seq<u8>) -> Seq<char> {
    let n = s.len() - 2;
    let t = part(s, 2, 6);
    let t = if n >= 6 {
        t + "-"@ + part(s, 6, 8)
    } else {
        t
    };
    let t = if n >= 8 {
        t + "-"@ + part(s, 8, 10)
    } else {
        t
    };
    let t = if n >= 10 {
        t + "T"@ + part(s, 10, 12)
    } else {
        t
    };
    let t = if n >= 12 {
        t + ":"@ + part(s, 12, 14)
    } else {
        t
    };
    if n >= 14 {
        t + ":"@ + part(s, 14, 16)
    } else {
        t
    }
}

/// The zone that a date in `s` ends with: `Z`, or a sign, hours and minutes.
pub open spec fn iso_zone(s: Seq<u8>) -> Seq<char> {
    let n = s.len() - 2;
    if n == 15 && s[16] == 90 {
        "Z"@
    } else if n >= 17 && (s[16] == 43 || s[16] == 45) {
        let sign = if s[16] == 43 {
            "+"@
        } else {
            "-"@
        };
        if n >= 20 && s[19] == 39 {
            sign + part(s, 17, 19) + ":"@ + part(s, 20, 22)
        } else {
            sign + part(s, 17, 19)
        }
    } else {
        ""@
    }
}

/// A date of the form `D:YYYYMMDDHHmmSSOHH'mm'` in ISO 8601. A text that does
/// not begin with `D:` and four more bytes is left as it is.
pub open spec fn iso_date(text: Seq<char>, s: Seq<u8>) -> Seq<char> {
    if s.len() < 6 || s[0] != 68 || s[1] != 58 {
        text
    } else {
        iso_digits(s) + iso_zone(s)
    }
}

/// `out` followed by a separator and the bytes from `a` up to `b`.
fn cat_part(out: String, sep: &str, s: &[u8], a: usize, b: usize) -> (r: String)
    requires
        a <= b <= s@.len(),
    ensures
        r@ == out@ + sep@ + part(s@, a as int, b as int),
{
    let t: String = decode_utf8_lossy(vstd::slice::slice_subrange(s, a, b));
    crate::text::cat(crate::text::cat(out, sep), t.as_str())
}

/// A date of the form `D:YYYYMMDDHHmmSSOHH'mm'` in ISO 8601. A text that does
/// not begin with `D:` and four more bytes is left as it is.
pub fn pdf_date_to_iso8601(s: String) -> (r: String)
    ensures
        r@ == iso_date(s@, vstd::utf8::encode_utf8(s@)),
{
    let b: &[u8] = s.as_str().as_bytes();
    if b.len() < 6 || b[0] != 68 || b[1] != 58 {
        return s.clone();
    }
    let n: usize = b.len() - 2;
    let mut out: String = decode_utf8_lossy(vstd::slice::slice_subrange(b, 2, 6));
    if n >= 6 {
        out = cat_part(out, "-", b, 6, 8);
    }
    if n >= 8 {
        out = cat_part(out, "-", b, 8, 10);
    }
    if n >= 10 {
        out = cat_part(out, "T", b, 10, 12);
    }
    if n >= 12 {
        out = cat_part(out, ":", b, 12, 14);
    }
    if n >= 14 {
        out = cat_part(out, ":", b, 14, 16);
    }
    let zone: String = zone_of(b);
    crate::text::cat(out, zone.as_str())
}

/// The zone that a date ends with.
fn zone_of(b: &[u8]) -> (r: String)
    requires
        b@.len() >= 6,
    ensures
        r@ == iso_zone(b@),
{
    let n: usize = b.len() - 2;
    if n == 15 && b[16] == 90 {
        "Z".to_owned()
    } else if n >= 17 && (b[16] == 43 || b[16] == 45) {
        let sign: String = if b[16] == 43 {
            "+".to_owned()
        } else {
            "-".to_owned()
        };
        let hours: String = decode_utf8_lossy(vstd::slice::slice_subrange(b, 17, 19));
        let out: String = crate::text::cat(sign, hours.as_str());
        if n >= 20 && b[19] == 39 {
            cat_part(out, ":", b, 20, 22)
        } else {
            out
        }
    } else {
        "".to_owned()
    }
}

} // verus!
