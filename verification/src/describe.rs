//! Objects and tokens as they are named in the descriptions of errors.

use vstd::prelude::*;
use crate::error::PdfError;
use crate::lex::{KindV, TokenKind};
use crate::number::{real_fraction, real_text, without_tail};
use crate::objects::{lemma_array_view, objs_view, Dict, DictV, ObjV, Object, Real};
use crate::text::{
    cat, cat_id, cat_int, cat_nat, chars_of, dec, hex_char, hex_digit_char, id_text,
};

verus! {

/// A number below 256 in hexadecimal.
pub open spec fn short_hex(n: int) -> Seq<char> {
    if n < 16 {
        seq![hex_char(n as nat)]
    } else {
        seq![hex_char((n / 16) as nat), hex_char((n % 16) as nat)]
    }
}

/// A character within quotes: quotes, backslashes and control characters are
/// written with a backslash.
pub open spec fn quoted_char(c: char) -> Seq<char> {
    let n = c as u32;
    if c == '"' {
        seq!['\\', '"']
    } else if c == '\\' {
        seq!['\\', '\\']
    } else if n == 0 {
        seq!['\\', '0']
    } else if n == 9 {
        seq!['\\', 't']
    } else if n == 10 {
        seq!['\\', 'n']
    } else if n == 13 {
        seq!['\\', 'r']
    } else if n < 32 || 127 <= n < 160 {
        seq!['\\', 'u', '{'] + short_hex(n as int) + seq!['}']
    } else {
        seq![c]
    }
}

/// The first `n` characters of a text, as they stand within quotes.
pub open spec fn quoted_chars(t: Seq<char>, n: int) -> Seq<char>
    decreases n,
{
    if n <= 0 || n > t.len() {
        Seq::empty()
    } else {
        quoted_chars(t, n - 1) + quoted_char(t[n - 1])
    }
}

/// A text in quotes.
pub open spec fn quoted(t: Seq<char>) -> Seq<char> {
    seq!['"'] + quoted_chars(t, t.len() as int) + seq!['"']
}

fn add_quoted_char(out: &mut String, c: char)
    ensures
        final(out)@ == old(out)@ + quoted_char(c),
{
    let n: u32 = c as u32;
    if c == '"' {
        out.push('\\');
        out.push('"');
    } else if c == '\\' {
        out.push('\\');
        out.push('\\');
    } else if n == 0 {
        out.push('\\');
        out.push('0');
    } else if n == 9 {
        out.push('\\');
        out.push('t');
    } else if n == 10 {
        out.push('\\');
        out.push('n');
    } else if n == 13 {
        out.push('\\');
        out.push('r');
    } else if n < 32 || (127 <= n && n < 160) {
        out.push('\\');
        out.push('u');
        out.push('{');
        if n >= 16 {
            out.push(hex_digit_char((n / 16) as u8));
        }
        out.push(hex_digit_char((n % 16) as u8));
        out.push('}');
    } else {
        out.push(c);
    }
    proof {
        assert(out@ =~= old(out)@ + quoted_char(c));
    }
}

fn add_quoted(base: String, t: &str) -> (r: String)
    ensures
        r@ == base@ + quoted(t@),
{
    let chars: Vec<char> = chars_of(t);
    let mut out: String = base;
    out.push('"');
    let ghost start = out@;
    let mut i: usize = 0;
    proof {
        assert(start + Seq::<char>::empty() =~= start);
    }
    while i < chars.len()
        invariant
            i <= chars@.len(),
            out@ == start + quoted_chars(chars@, i as int),
        decreases chars.len() - i,
    {
        let ghost before = quoted_chars(chars@, i as int);
        add_quoted_char(&mut out, chars[i]);
        proof {
            let more = quoted_char(chars@[i as int]);
            assert(start + before + more =~= start + (before + more));
        }
        i = i + 1;
    }
    out.push('"');
    proof {
        assert(out@ =~= base@ + quoted(t@));
    }
    out
}

/// The first `n` bytes, as numbers with commas between them.
pub open spec fn byte_list(b: Seq<u8>, n: int) -> Seq<char>
    decreases n,
{
    if n <= 0 || n > b.len() {
        Seq::empty()
    } else if n == 1 {
        dec(b[0] as int)
    } else {
        byte_list(b, n - 1) + ", "@ + dec(b[n - 1] as int)
    }
}

/// Bytes as a list of numbers in brackets.
pub open spec fn bytes_text(b: Seq<u8>) -> Seq<char> {
    "["@ + byte_list(b, b.len() as int) + "]"@
}

fn add_bytes(base: String, b: &[u8]) -> (r: String)
    ensures
        r@ == base@ + bytes_text(b@),
{
    let mut out: String = cat(base, "[");
    let ghost start = out@;
    let mut i: usize = 0;
    proof {
        assert(start + Seq::<char>::empty() =~= start);
    }
    while i < b.len()
        invariant
            i <= b@.len(),
            out@ == start + byte_list(b@, i as int),
        decreases b.len() - i,
    {
        let ghost before = byte_list(b@, i as int);
        if i > 0 {
            out = cat(out, ", ");
        }
        out = cat_nat(out, b[i] as u64);
        proof {
            assert(out@ =~= start + byte_list(b@, i + 1));
        }
        i = i + 1;
    }
    let r: String = cat(out, "]");
    proof {
        assert(r@ =~= base@ + bytes_text(b@));
    }
    r
}

/// A real with a fraction, which may be 0.
pub open spec fn real_in_full(t: Seq<u8>) -> Seq<char> {
    if without_tail(real_fraction(t)).len() == 0 {
        real_text(t) + ".0"@
    } else {
        real_text(t)
    }
}

fn add_real(base: String, x: &Real) -> (r: String)
    ensures
        r@ == base@ + real_in_full(x@),
{
    let text: String = x.to_text();
    let out: String = cat(base, text.as_str());
    if x.has_fraction() {
        out
    } else {
        let r: String = cat(out, ".0");
        proof {
            assert(r@ =~= base@ + real_in_full(x@));
        }
        r
    }
}

/// An object: its kind and what it holds.
pub open spec fn obj_text(o: ObjV) -> Seq<char>
    decreases o, 0int,
{
    match o {
        ObjV::Null => "Null"@,
        ObjV::Bool(b) => if b {
            "Bool(true)"@
        } else {
            "Bool(false)"@
        },
        ObjV::Integer(n) => "Integer("@ + dec(n as int) + ")"@,
        ObjV::Real(t) => "Real("@ + real_in_full(t) + ")"@,
        ObjV::Name(n) => "Name("@ + quoted(n) + ")"@,
        ObjV::LiteralString(b) => "LiteralString("@ + bytes_text(b) + ")"@,
        ObjV::HexString(b) => "HexString("@ + bytes_text(b) + ")"@,
        ObjV::Array(v) => "Array(["@ + items_text(v, v.len() as int) + "])"@,
        ObjV::Dict(d) => "Dict("@ + ("Dict { entries: ["@ + entries_text(d, d.len() as int)
            + "] }"@) + ")"@,
        ObjV::Stream(d, data) => "Stream(Stream { dict: "@ + ("Dict { entries: ["@ + entries_text(
            d,
            d.len() as int,
        ) + "] }"@) + ", data: "@ + bytes_text(data) + " })"@,
        ObjV::Reference(id) => "Reference("@ + id_text(id) + ")"@,
    }
}

/// The first `n` items of an array, with commas between them.
pub open spec fn items_text(v: Seq<ObjV>, n: int) -> Seq<char>
    decreases v, n,
{
    if n <= 0 || n > v.len() {
        Seq::empty()
    } else if n == 1 {
        obj_text(v[0])
    } else {
        items_text(v, n - 1) + ", "@ + obj_text(v[n - 1])
    }
}

/// The first `n` entries of a dictionary, with commas between them.
pub open spec fn entries_text(d: DictV, n: int) -> Seq<char>
    decreases d, n,
{
    if n <= 0 || n > d.len() {
        Seq::empty()
    } else {
        let entry = "("@ + quoted(d[n - 1].0) + ", "@ + obj_text(d[n - 1].1) + ")"@;
        if n == 1 {
            entry
        } else {
            entries_text(d, n - 1) + ", "@ + entry
        }
    }
}

fn add_object(base: String, obj: &Object) -> (r: String)
    ensures
        r@ == base@ + obj_text(obj@),
    decreases *obj,
{
    let r: String = match obj {
        Object::Null => cat(base, "Null"),
        Object::Bool(b) => if *b {
            cat(base, "Bool(true)")
        } else {
            cat(base, "Bool(false)")
        },
        Object::Integer(n) => cat(cat_int(cat(base, "Integer("), *n), ")"),
        Object::Real(x) => cat(add_real(cat(base, "Real("), x), ")"),
        Object::Name(n) => cat(add_quoted(cat(base, "Name("), n.as_str()), ")"),
        Object::LiteralString(b) => cat(add_bytes(cat(base, "LiteralString("), b.as_slice()), ")"),
        Object::HexString(b) => cat(add_bytes(cat(base, "HexString("), b.as_slice()), ")"),
        Object::Array(v) => {
            let mut out: String = cat(base, "Array([");
            let ghost start = out@;
            let ghost view = objs_view(v@);
            proof {
                lemma_array_view(*v);
                assert(start + Seq::<char>::empty() =~= start);
            }
            let mut i: usize = 0;
            while i < v.len()
                invariant
                    i <= v@.len(),
                    *obj == Object::Array(*v),
                    view == objs_view(v@),
                    out@ == start + items_text(view, i as int),
                decreases v.len() - i,
            {
                proof {
                    assert(obj->Array_0 == *v);
                    assert(decreases_to!(*obj => *v));
                    assert(decreases_to!(*v => v[i as int]));
                    assert(view[i as int] == v@[i as int]@);
                }
                if i > 0 {
                    out = cat(out, ", ");
                }
                out = add_object(out, &v[i]);
                proof {
                    assert(out@ =~= start + items_text(view, i + 1));
                }
                i = i + 1;
            }
            cat(out, "])")
        },
        Object::Dict(d) => cat(add_dict(cat(base, "Dict("), d), ")"),
        Object::Stream(s) => {
            let out: String = add_dict(cat(base, "Stream(Stream { dict: "), &s.dict);
            cat(add_bytes(cat(out, ", data: "), s.data.as_slice()), " })")
        },
        Object::Reference(id) => cat(cat_id(cat(base, "Reference("), *id), ")"),
    };
    proof {
        assert(r@ =~= base@ + obj_text(obj@));
    }
    r
}

fn add_dict(base: String, d: &Dict) -> (r: String)
    ensures
        r@ == base@ + ("Dict { entries: ["@ + entries_text(d@, d@.len() as int) + "] }"@),
    decreases *d,
{
    let mut out: String = cat(base, "Dict { entries: [");
    let ghost start = out@;
    proof {
        assert(start + Seq::<char>::empty() =~= start);
    }
    let mut i: usize = 0;
    while i < d.entries.len()
        invariant
            i <= d.entries@.len(),
            out@ == start + entries_text(d@, i as int),
        decreases d.entries.len() - i,
    {
        proof {
            assert(decreases_to!(d.entries => d.entries[i as int]));
        }
        if i > 0 {
            out = cat(out, ", ");
        }
        out = add_quoted(cat(out, "("), d.entries[i].0.as_str());
        out = cat(add_object(cat(out, ", "), &d.entries[i].1), ")");
        proof {
            assert(out@ =~= start + entries_text(d@, i + 1));
        }
        i = i + 1;
    }
    let r: String = cat(out, "] }");
    proof {
        assert(r@ =~= base@ + ("Dict { entries: ["@ + entries_text(d@, d@.len() as int) + "] }"@));
    }
    r
}

/// What was found, behind a message.
pub open spec fn got(o: ObjV) -> Seq<char> {
    " (got "@ + obj_text(o) + ")"@
}

/// What was found in the place of an entry that may be missing.
pub open spec fn got_entry(o: Option<ObjV>) -> Seq<char> {
    match o {
        Some(o) => " (got Some("@ + obj_text(o) + "))"@,
        None => " (got None)"@,
    }
}

/// `base`, and what was found.
pub(crate) fn cat_got(base: String, o: &Object) -> (r: String)
    ensures
        r@ == base@ + got(o@),
{
    let r: String = cat(add_object(cat(base, " (got "), o), ")");
    proof {
        assert(r@ =~= base@ + got(o@));
    }
    r
}

/// `base`, and what was found in the place of an entry.
pub(crate) fn cat_got_entry(base: String, o: Option<&Object>) -> (r: String)
    ensures
        r@ == base@ + got_entry(crate::objects::opt_view(o)),
{
    let r: String = match o {
        Some(o) => cat(add_object(cat(base, " (got Some("), o), "))"),
        None => cat(base, " (got None)"),
    };
    proof {
        assert(r@ =~= base@ + got_entry(crate::objects::opt_view(o)));
    }
    r
}

/// `base`, and an object.
pub(crate) fn cat_object(base: String, o: &Object) -> (r: String)
    ensures
        r@ == base@ + obj_text(o@),
{
    add_object(base, o)
}

/// The error that something else was found.
pub(crate) fn unexpected(message: &str, o: &Object) -> (r: PdfError)
    ensures
        r@ == message@ + got(o@),
{
    PdfError::Other(cat_got(message.to_owned(), o))
}

/// A name that may be missing.
pub open spec fn opt_quoted(t: Option<Seq<char>>) -> Seq<char> {
    match t {
        Some(t) => "Some("@ + quoted(t) + ")"@,
        None => "None"@,
    }
}

/// `base`, and the name under a key, which may be missing.
pub(crate) fn cat_name_entry(base: String, d: &Dict, key: &str) -> (r: String)
    ensures
        r@ == base@ + opt_quoted(crate::pages::dict_name(d@, key@)),
{
    let r: String = match d.get(key) {
        Some(Object::Name(n)) => cat(add_quoted(cat(base, "Some("), n.as_str()), ")"),
        _ => cat(base, "None"),
    };
    proof {
        assert(r@ =~= base@ + opt_quoted(crate::pages::dict_name(d@, key@)));
    }
    r
}

/// A token: its kind and what it holds.
pub open spec fn token_text(k: KindV) -> Seq<char> {
    match k {
        KindV::Integer(n) => "Integer("@ + dec(n as int) + ")"@,
        KindV::Real(t) => "Real("@ + real_in_full(t) + ")"@,
        KindV::Name(b) => "Name("@ + bytes_text(b) + ")"@,
        KindV::LiteralString(b) => "LiteralString("@ + bytes_text(b) + ")"@,
        KindV::HexString(b) => "HexString("@ + bytes_text(b) + ")"@,
        KindV::Keyword(b) => "Keyword("@ + bytes_text(b) + ")"@,
        KindV::ArrayStart => "ArrayStart"@,
        KindV::ArrayEnd => "ArrayEnd"@,
        KindV::DictStart => "DictStart"@,
        KindV::DictEnd => "DictEnd"@,
    }
}

/// The token that was found, behind a message.
pub open spec fn got_token(k: KindV) -> Seq<char> {
    " (got "@ + token_text(k) + ")"@
}

/// `base`, and the token that was found.
pub(crate) fn cat_got_token(base: String, k: &TokenKind) -> (r: String)
    ensures
        r@ == base@ + got_token(k@),
{
    let r: String = cat(cat_token(cat(base, " (got "), k), ")");
    proof {
        assert(r@ =~= base@ + got_token(k@));
    }
    r
}

/// `base`, and a token.
pub(crate) fn cat_token(base: String, k: &TokenKind) -> (r: String)
    ensures
        r@ == base@ + token_text(k@),
{
    let r: String = match k {
        TokenKind::Integer(n) => cat(cat_int(cat(base, "Integer("), *n), ")"),
        TokenKind::Real(x) => cat(add_real(cat(base, "Real("), x), ")"),
        TokenKind::Name(b) => cat(add_bytes(cat(base, "Name("), b.as_slice()), ")"),
        TokenKind::LiteralString(b) => cat(
            add_bytes(cat(base, "LiteralString("), b.as_slice()),
            ")",
        ),
        TokenKind::HexString(b) => cat(add_bytes(cat(base, "HexString("), b.as_slice()), ")"),
        TokenKind::Keyword(b) => cat(add_bytes(cat(base, "Keyword("), b), ")"),
        TokenKind::ArrayStart => cat(base, "ArrayStart"),
        TokenKind::ArrayEnd => cat(base, "ArrayEnd"),
        TokenKind::DictStart => cat(base, "DictStart"),
        TokenKind::DictEnd => cat(base, "DictEnd"),
    };
    proof {
        assert(r@ =~= base@ + token_text(k@));
    }
    r
}

} // verus!
