//! Laws of inline images: their dictionaries, their data and where they stand.

use vstd::prelude::*;
use crate::images::ColorV;
use crate::inline_images::{
    array_from, codec_of, color_of_value, depth_of_value, end_from, ends_at, entries_from,
    entry_value, image_at, image_value, images_from, last_value, names_of_value, size_of_value,
    stands_at, undone, undone_count, value_at, word_at, word_bi, word_from, InlineImageFilter,
    InlineV, ValV,
};
use crate::laws::tokens::{
    blank, bracket, decimal, integer_written, lemma_decimal, lemma_digits_scan, lemma_stands,
    lemma_stands_parts, lemma_word_end_at, stands,
};
use crate::lex::{integer_value, number_scan, skip_space, word_end};
use crate::objects::ObjectId;
use crate::stream::{filtered, is_byte_filter};
use crate::text::utf8_lossy;

verus! {

// -------------------------------------------------------------- dictionaries

/// A value in the dictionary of an image.
pub enum Value {
    Name(Seq<u8>),
    Integer(i64),
    Bool(bool),
    List(Seq<Seq<u8>>),
}

/// A name, with its slash and a space behind it.
pub open spec fn name_text(b: Seq<u8>) -> Seq<u8> {
    (seq![0x2Fu8] + b) + seq![0x20u8]
}

/// The names from place `i` on, and the bracket that closes the list.
pub open spec fn list_text(names: Seq<Seq<u8>>, i: int) -> Seq<u8>
    decreases names.len() - i,
{
    if i < 0 || i >= names.len() {
        seq![0x5Du8, 0x20]
    } else {
        name_text(names[i]) + list_text(names, i + 1)
    }
}

/// A value with a space behind it.
pub open spec fn value_text(v: Value) -> Seq<u8> {
    match v {
        Value::Name(b) => name_text(b),
        Value::Integer(n) => integer_written(n as int, false) + seq![0x20u8],
        Value::Bool(b) => if b {
            seq![0x74u8, 0x72, 0x75, 0x65, 0x20]
        } else {
            seq![0x66u8, 0x61, 0x6C, 0x73, 0x65, 0x20]
        },
        Value::List(names) => seq![0x5Bu8] + list_text(names, 0),
    }
}

/// The entries from place `i` on, and `ID` with a space behind them.
pub open spec fn entries_text(es: Seq<(Seq<u8>, Value)>, i: int) -> Seq<u8>
    decreases es.len() - i,
{
    if i < 0 || i >= es.len() {
        seq![0x49u8, 0x44, 0x20]
    } else {
        name_text(es[i].0) + (value_text(es[i].1) + entries_text(es, i + 1))
    }
}

/// A word without white space and brackets.
pub open spec fn is_word(b: Seq<u8>) -> bool {
    forall|i: int| 0 <= i < b.len() ==> !blank(#[trigger] b[i]) && !bracket(b[i])
}

/// A value that can be written.
pub open spec fn value_fits(v: Value) -> bool {
    match v {
        Value::Name(b) => is_word(b),
        Value::List(names) => forall|i: int| 0 <= i < names.len() ==> is_word(#[trigger] names[i]),
        _ => true,
    }
}

/// What a value is read as.
pub open spec fn value_read(v: Value) -> ValV {
    match v {
        Value::Name(b) => ValV::Name(utf8_lossy(b)),
        Value::Integer(n) => ValV::Integer(n),
        Value::Bool(b) => ValV::Bool(b),
        Value::List(names) => ValV::NameList(Seq::new(names.len(), |i: int| utf8_lossy(names[i]))),
    }
}

proof fn lemma_name(s: Seq<u8>, p: int, b: Seq<u8>)
    requires
        stands(s, p, name_text(b)),
        is_word(b),
    ensures
        s[p] == 0x2F,
        p + 1 + b.len() < s.len(),
        word_end(s, p + 1) == p + 1 + b.len(),
        s[p + 1 + b.len()] == 0x20,
        crate::inline_images::name_at(s, p) == utf8_lossy(b),
{
    let t = name_text(b);
    lemma_stands(s, p, t);
    let e = p + 1 + b.len();
    assert(t[0] == s[p + 0]);
    assert(t[1 + b.len() as int] == s[p + (1 + b.len())]);
    assert forall|i: int| p + 1 <= i < e implies !blank(#[trigger] s[i]) && !bracket(s[i]) by {
        assert(t[i - p] == s[p + (i - p)]);
        assert(t[i - p] == b[i - p - 1]);
    }
    lemma_word_end_at(s, p + 1, e);
    assert(s.subrange(p + 1, e) =~= b) by {
        assert forall|i: int| 0 <= i < b.len() implies s[p + 1 + i] == b[i] by {
            assert(t[1 + i] == s[p + (1 + i)]);
        }
    }
}

proof fn lemma_list(s: Seq<u8>, p: int, names: Seq<Seq<u8>>, i: int, read: Seq<Seq<char>>)
    requires
        0 <= i <= names.len(),
        stands(s, p, list_text(names, i)),
        forall|i: int| 0 <= i < names.len() ==> is_word(#[trigger] names[i]),
        read == Seq::new(i as nat, |k: int| utf8_lossy(names[k])),
    ensures
        list_text(names, i).len() >= 2,
        array_from(s, p, read, false) == Ok::<(ValV, int), Seq<char>>(
            (
                ValV::NameList(Seq::new(names.len(), |i: int| utf8_lossy(names[i]))),
                p + list_text(names, i).len() - 1,
            ),
        ),
        s[p + list_text(names, i).len() - 1] == 0x20,
    decreases names.len() - i,
{
    let t = list_text(names, i);
    if i < names.len() {
        let n = name_text(names[i]);
        let rest = list_text(names, i + 1);
        lemma_stands_parts(s, p, n, rest);
        assert(is_word(names[i]));
        lemma_name(s, p, names[i]);
        let next = read.push(utf8_lossy(names[i]));
        assert(next =~= Seq::new((i + 1) as nat, |k: int| utf8_lossy(names[k])));
        let e = p + 1 + names[i].len();
        lemma_list(s, e + 1, names, i + 1, next);
        assert(skip_space(s, p) == p);
        assert(skip_space(s, e) == skip_space(s, e + 1));
        assert(array_from(s, e, next, false) == array_from(s, e + 1, next, false));
        assert(array_from(s, p, read, false) == array_from(s, e, next, false));
    } else {
        lemma_stands(s, p, t);
        assert(t[0] == s[p + 0] && t[1] == s[p + 1]);
        assert(read =~= Seq::new(names.len(), |i: int| utf8_lossy(names[i])));
        assert(skip_space(s, p) == p);
    }
}

proof fn lemma_not_word(s: Seq<u8>, w: Seq<u8>, p: int)
    requires
        w.len() > 0,
        0 <= p < s.len(),
        s[p] != w[0],
    ensures
        !stands_at(s, w, p),
{
    if stands_at(s, w, p) {
        assert(s.subrange(p, p + w.len())[0] == s[p]);
    }
}

/// Every value is read back.
#[verifier::rlimit(50)]
pub proof fn law_inline_value(s: Seq<u8>, p: int, v: Value)
    requires
        stands(s, p, value_text(v)),
        value_fits(v),
    ensures
        value_text(v).len() >= 2,
        value_at(s, p) == Ok::<(ValV, int), Seq<char>>(
            (value_read(v), p + value_text(v).len() - 1),
        ),
        s[p + value_text(v).len() - 1] == 0x20,
        !blank(s[p]) && s[p] != 0x25,
{
    let t = value_text(v);
    let wt = crate::inline_images::word_true();
    let wf = crate::inline_images::word_false();
    lemma_stands(s, p, t);
    assert(t.len() >= 1 ==> t[0] == s[p + 0]);
    match v {
        Value::Name(b) => {
            lemma_name(s, p, b);
        },
        Value::Integer(n) => {
            let m = n as int;
            let d = decimal(if m < 0 {
                -m
            } else {
                m
            });
            lemma_decimal(if m < 0 {
                -m
            } else {
                m
            });
            let w = integer_written(m, false);
            let e = p + w.len();
            let first = e - d.len();
            assert(t[w.len() as int] == s[p + w.len()]);
            assert forall|i: int| first <= i < e implies 0x30 <= #[trigger] s[i] <= 0x39 by {
                assert(t[i - p] == s[p + (i - p)]);
                assert(t[i - p] == d[i - first]);
            }
            lemma_digits_scan(s, first, e, false, false);
            assert(number_scan(s, e, false, true) == (e, false, true));
            assert(s.subrange(p, e) =~= w) by {
                assert forall|i: int| 0 <= i < w.len() implies s[p + i] == w[i] by {
                    assert(t[i] == s[p + i]);
                }
            }
            if m < 0 {
                assert(w.skip(1) =~= d);
            } else {
                assert(w[0] == d[0]);
            }
            assert(integer_value(w) == m);
            lemma_not_word(s, wt, p);
            lemma_not_word(s, wf, p);
        },
        Value::Bool(b) => {
            if b {
                assert(s.subrange(p, p + 4) =~= wt) by {
                    assert(t[1] == s[p + 1] && t[2] == s[p + 2] && t[3] == s[p + 3]);
                }
                assert(t[4] == s[p + 4]);
            } else {
                lemma_not_word(s, wt, p);
                assert(s.subrange(p, p + 5) =~= wf) by {
                    assert(t[1] == s[p + 1] && t[2] == s[p + 2] && t[3] == s[p + 3] && t[4] == s[p
                        + 4]);
                }
                assert(t[5] == s[p + 5]);
            }
        },
        Value::List(names) => {
            lemma_stands_parts(s, p, seq![0x5Bu8], list_text(names, 0));
            assert(Seq::<Seq<char>>::empty() =~= Seq::new(0, |k: int| utf8_lossy(names[k])));
            lemma_list(s, p + 1, names, 0, Seq::empty());
            lemma_not_word(s, wt, p);
            lemma_not_word(s, wf, p);
        },
    }
}

/// What entries are read as.
pub open spec fn entries_read(es: Seq<(Seq<u8>, Value)>) -> Seq<(Seq<char>, ValV)> {
    Seq::new(es.len(), |i: int| (utf8_lossy(es[i].0), value_read(es[i].1)))
}

/// The entries of the dictionary of an image are read back, and its data begin
/// behind `ID` and one white space.
#[verifier::rlimit(50)]
pub proof fn law_inline_entries(
    s: Seq<u8>,
    p: int,
    es: Seq<(Seq<u8>, Value)>,
    k: int,
    out: Seq<(Seq<char>, ValV)>,
)
    requires
        0 <= k <= es.len(),
        stands(s, p, entries_text(es, k)),
        forall|i: int|
            0 <= i < es.len() ==> is_word((#[trigger] es[i]).0) && value_fits(es[i].1),
        out == entries_read(es).take(k),
    ensures
        entries_from(s, p, out) == Ok::<(Seq<(Seq<char>, ValV)>, int), Seq<char>>(
            (entries_read(es), p + entries_text(es, k).len()),
        ),
    decreases es.len() - k,
{
    let t = entries_text(es, k);
    if k < es.len() {
        let n = name_text(es[k].0);
        let v = value_text(es[k].1);
        let rest = entries_text(es, k + 1);
        assert(is_word(es[k].0) && value_fits(es[k].1));
        lemma_stands_parts(s, p, n, v + rest);
        lemma_stands_parts(s, p + n.len(), v, rest);
        lemma_name(s, p, es[k].0);
        law_inline_value(s, p + n.len(), es[k].1);
        let e = p + 1 + es[k].0.len();
        let q = p + n.len() + v.len() - 1;
        let next = out.push((utf8_lossy(es[k].0), value_read(es[k].1)));
        assert(next =~= entries_read(es).take(k + 1));
        law_inline_entries(s, q + 1, es, k + 1, next);
        assert(skip_space(s, p) == p);
        assert(skip_space(s, e) == skip_space(s, e + 1));
        assert(skip_space(s, e + 1) == e + 1);
        assert(entries_from(s, p, out) == entries_from(s, q, next));
        assert(skip_space(s, q) == skip_space(s, q + 1));
        assert(entries_from(s, q, next) == entries_from(s, q + 1, next));
    } else {
        lemma_stands(s, p, t);
        assert(t[0] == s[p + 0] && t[1] == s[p + 1] && t[2] == s[p + 2]);
        assert(skip_space(s, p) == p);
        assert(out =~= entries_read(es));
    }
}

// ---------------------------------------------------------------------- data

/// `EI` ends an image with white space in front of it, and white space or nothing
/// behind it, and in no other place.
pub proof fn law_image_end(s: Seq<u8>, p: int)
    ensures
        ends_at(s, p) <==> 0 < p && p + 2 <= s.len() && blank(s[p - 1]) && s[p] == 0x45 && s[p + 1]
            == 0x49 && (p + 2 == s.len() || blank(s[p + 2])),
{
}

proof fn lemma_end_found(s: Seq<u8>, from: int, ei: int)
    requires
        0 <= from <= ei,
        ends_at(s, ei),
        forall|p: int| from <= p < ei ==> !#[trigger] ends_at(s, p),
    ensures
        end_from(s, from) == Some(ei),
    decreases ei - from,
{
    if from < ei {
        assert(!ends_at(s, from));
        lemma_end_found(s, from + 1, ei);
    }
}

/// An image is read from its dictionary and its data: the data lie between the white
/// space behind `ID` and that in front of the first `EI` that ends an image.
pub proof fn law_inline_image(
    s: Seq<u8>,
    p: int,
    es: Seq<(Seq<u8>, Value)>,
    data: Seq<u8>,
    image: InlineV,
)
    requires
        stands(s, p, entries_text(es, 0)),
        forall|i: int|
            0 <= i < es.len() ==> is_word((#[trigger] es[i]).0) && value_fits(es[i].1),
        stands(s, p + entries_text(es, 0).len(), data),
        ends_at(s, p + entries_text(es, 0).len() + data.len() + 1),
        forall|q: int|
            p + entries_text(es, 0).len() <= q <= p + entries_text(es, 0).len() + data.len()
                ==> !#[trigger] ends_at(s, q),
        image_value(entries_read(es), data) == Ok::<InlineV, Seq<char>>(image),
    ensures
        image_at(s, p) == Ok::<(InlineV, int), Seq<char>>(
            (image, p + entries_text(es, 0).len() + data.len() + 3),
        ),
{
    reveal(image_at);
    let start = p + entries_text(es, 0).len();
    let ei = start + data.len() + 1;
    assert(entries_read(es).take(0) =~= Seq::empty());
    law_inline_entries(s, p, es, 0, Seq::empty());
    lemma_end_found(s, start, ei);
    assert(s.subrange(start, ei - 1) == data);
}

// ------------------------------------------------------------- the image

/// Of entries by either name the last counts; others do not.
pub proof fn law_entry_value(
    es: Seq<(Seq<char>, ValV)>,
    key: Seq<char>,
    v: ValV,
    a: Seq<char>,
    b: Seq<char>,
)
    ensures
        entry_value(es.push((a, v)), a, b) == Some(v),
        entry_value(es.push((b, v)), a, b) == Some(v),
        key != a && key != b ==> entry_value(es.push((key, v)), a, b) == entry_value(es, a, b),
        entry_value(Seq::empty(), a, b) is None,
{
    lemma_last_prefix(es, (key, v), es.len() as int, a, b);
}

proof fn lemma_last_prefix(
    es: Seq<(Seq<char>, ValV)>,
    e: (Seq<char>, ValV),
    n: int,
    a: Seq<char>,
    b: Seq<char>,
)
    requires
        0 <= n <= es.len(),
    ensures
        last_value(es.push(e), n, a, b) == last_value(es, n, a, b),
    decreases n,
{
    if n > 0 {
        lemma_last_prefix(es, e, n - 1, a, b);
    }
}

/// Sizes are integers that are not negative, and depths integers from 1 to 16.
pub proof fn law_inline_numbers(n: i64, name: Seq<char>)
    ensures
        0 <= n <= u32::MAX ==> size_of_value(Some(ValV::Integer(n))) == Some(n as u32),
        n < 0 ==> size_of_value(Some(ValV::Integer(n))) is None,
        size_of_value(None) is None,
        size_of_value(Some(ValV::Name(name))) is None,
        1 <= n <= 16 ==> depth_of_value(Some(ValV::Integer(n))) == Some(n as u8),
        n < 1 || n > 16 ==> depth_of_value(Some(ValV::Integer(n))) is None,
{
}

/// The colour spaces of an inline image by their long and their short names.
pub proof fn law_inline_colors(n: Seq<char>)
    ensures
        color_of_value(Some(ValV::Name("G"@))) == Some(ColorV::DeviceGray),
        color_of_value(Some(ValV::Name("DeviceGray"@))) == Some(ColorV::DeviceGray),
        color_of_value(Some(ValV::Name("RGB"@))) == Some(ColorV::DeviceRGB),
        color_of_value(Some(ValV::Name("DeviceRGB"@))) == Some(ColorV::DeviceRGB),
        color_of_value(Some(ValV::Name("CMYK"@))) == Some(ColorV::DeviceCMYK),
        color_of_value(Some(ValV::Name("DeviceCMYK"@))) == Some(ColorV::DeviceCMYK),
        color_of_value(Some(ValV::Name("I"@))) == Some(ColorV::Indexed),
        color_of_value(Some(ValV::Name("Indexed"@))) == Some(ColorV::Indexed),
        n.len() > 10 || n.len() == 2 ==> color_of_value(Some(ValV::Name(n))) == Some(
            ColorV::Other(n),
        ),
        color_of_value(None) is None,
{
    reveal_strlit("G");
    reveal_strlit("DeviceGray");
    reveal_strlit("RGB");
    reveal_strlit("DeviceRGB");
    reveal_strlit("CMYK");
    reveal_strlit("DeviceCMYK");
    reveal_strlit("I");
    reveal_strlit("Indexed");
    assert("G"@.len() == 1 && "DeviceGray"@.len() == 10 && "RGB"@.len() == 3 && "DeviceRGB"@.len()
        == 9 && "CMYK"@.len() == 4 && "DeviceCMYK"@.len() == 10 && "I"@.len() == 1
        && "Indexed"@.len() == 7);
    assert("G"@[0] == 'G' && "I"@[0] == 'I' && "DeviceGray"@[6] == 'G' && "DeviceCMYK"@[6] == 'C');
}

/// The codecs by their long and their short names: only the last filter counts.
pub proof fn law_codecs(before: Seq<Seq<char>>)
    ensures
        codec_of(before.push("DCT"@)) == InlineImageFilter::DctDecode,
        codec_of(before.push("DCTDecode"@)) == InlineImageFilter::DctDecode,
        codec_of(before.push("JPX"@)) == InlineImageFilter::JpxDecode,
        codec_of(before.push("JPXDecode"@)) == InlineImageFilter::JpxDecode,
        codec_of(before.push("JBIG2"@)) == InlineImageFilter::Jbig2Decode,
        codec_of(before.push("JBIG2Decode"@)) == InlineImageFilter::Jbig2Decode,
        codec_of(before.push("CCF"@)) == InlineImageFilter::CcittFaxDecode,
        codec_of(before.push("CCITTFaxDecode"@)) == InlineImageFilter::CcittFaxDecode,
        codec_of(before.push("Fl"@)) == InlineImageFilter::Raw,
        codec_of(Seq::empty()) == InlineImageFilter::Raw,
{
    reveal_strlit("DCT");
    reveal_strlit("DCTDecode");
    reveal_strlit("JPX");
    reveal_strlit("JPXDecode");
    reveal_strlit("JBIG2");
    reveal_strlit("JBIG2Decode");
    reveal_strlit("CCF");
    reveal_strlit("CCITTFaxDecode");
    reveal_strlit("Fl");
    assert("DCT"@.len() == 3 && "DCTDecode"@.len() == 9 && "JPX"@.len() == 3 && "JPXDecode"@.len()
        == 9 && "JBIG2"@.len() == 5 && "JBIG2Decode"@.len() == 11 && "CCF"@.len() == 3
        && "CCITTFaxDecode"@.len() == 14 && "Fl"@.len() == 2);
    assert("DCT"@[0] == 'D' && "DCTDecode"@[0] == 'D' && "JPX"@[0] == 'J' && "JPXDecode"@[0] == 'J'
        && "CCF"@[0] == 'C');
}

/// Filters are undone from the first to the last, but for that of a codec at the
/// end; a filter in front of it that is not undone byte by byte is refused.
pub proof fn law_inline_filters(
    a: Seq<char>,
    b: Seq<char>,
    data: Seq<u8>,
    once: Seq<u8>,
)
    requires
        is_byte_filter(a),
        filtered(a, data, None) == Ok::<Seq<u8>, Seq<char>>(once),
    ensures
        codec_of(seq![a, b]) != InlineImageFilter::Raw ==> undone(
            seq![a, b],
            undone_count(seq![a, b]),
            data,
        ) == Ok::<Seq<u8>, Seq<char>>(once),
        codec_of(seq![a, b]) == InlineImageFilter::Raw && is_byte_filter(b) ==> undone(
            seq![a, b],
            undone_count(seq![a, b]),
            data,
        ) == filtered(b, once, None),
        codec_of(seq![a, b]) == InlineImageFilter::Raw && !is_byte_filter(b) ==> undone(
            seq![a, b],
            undone_count(seq![a, b]),
            data,
        ) is Err,
        undone(Seq::empty(), undone_count(Seq::empty()), data) == Ok::<Seq<u8>, Seq<char>>(data),
{
    let s = seq![a, b];
    assert(s[0] == a && s[1] == b);
    reveal_with_fuel(undone, 3);
}

/// Filters are one name or a list of names.
pub proof fn law_filter_value(n: Seq<char>, list: Seq<Seq<char>>)
    ensures
        names_of_value(Some(ValV::Name(n))) == seq![n],
        names_of_value(Some(ValV::NameList(list))) == list,
        names_of_value(None).len() == 0,
{
}

/// An image has its size, its colours, its depth and its filter from its dictionary;
/// without a width or a height it is refused.
pub proof fn law_image_value(
    es: Seq<(Seq<char>, ValV)>,
    payload: Seq<u8>,
    w: u32,
    h: u32,
    data: Seq<u8>,
    color: ColorV,
    bits: u8,
)
    ensures
        ({
            let names = names_of_value(entry_value(es, "F"@, "Filter"@));
            size_of_value(entry_value(es, "W"@, "Width"@)) == Some(w) && size_of_value(
                entry_value(es, "H"@, "Height"@),
            ) == Some(h) && undone(names, undone_count(names), payload) == Ok::<Seq<u8>, Seq<char>>(
                data,
            ) ==> (image_value(es, payload) matches Ok(i) && {
                &&& i.data == data
                &&& i.width == w
                &&& i.height == h
                &&& i.filter == codec_of(names)
                &&& i.image_mask <==> entry_value(es, "IM"@, "ImageMask"@) == Some(ValV::Bool(true))
                &&& !i.image_mask ==> (color_of_value(entry_value(es, "CS"@, "ColorSpace"@))
                    == Some(color) ==> i.color_space == color)
                &&& !i.image_mask ==> (entry_value(es, "CS"@, "ColorSpace"@) is None
                    ==> i.color_space == ColorV::DeviceRGB)
                &&& i.image_mask ==> i.color_space == ColorV::DeviceGray
                &&& i.filter != InlineImageFilter::JpxDecode ==> (depth_of_value(
                    entry_value(es, "BPC"@, "BitsPerComponent"@),
                ) == Some(bits) ==> i.bits_per_component == bits)
                &&& i.filter != InlineImageFilter::JpxDecode && entry_value(
                    es,
                    "BPC"@,
                    "BitsPerComponent"@,
                ) is None ==> i.bits_per_component == (if i.image_mask {
                    1u8
                } else {
                    8u8
                })
                &&& i.filter == InlineImageFilter::JpxDecode ==> i.bits_per_component == 8
            })
        }),
        entry_value(es, "W"@, "Width"@) is None || entry_value(es, "H"@, "Height"@) is None
            ==> image_value(es, payload) is Err,
{
}

// ------------------------------------------------------------------- content

/// A word stands alone with white space, a bracket or nothing on either side.
pub proof fn law_word(s: Seq<u8>, w: Seq<u8>, p: int)
    ensures
        word_at(s, w, p) <==> stands(s, p, w) && (p == 0 || blank(s[p - 1]) || bracket(s[p - 1]))
            && (p + w.len() == s.len() || blank(s[p + w.len()]) || bracket(s[p + w.len()])),
        word_bi() == seq![0x42u8, 0x49],
{
}

proof fn lemma_word_found(s: Seq<u8>, w: Seq<u8>, from: int, p: int)
    requires
        0 <= from <= p,
        word_at(s, w, p),
        forall|q: int| from <= q < p ==> !#[trigger] word_at(s, w, q),
    ensures
        word_from(s, w, from) == Some(p),
    decreases p - from,
{
    if from < p {
        assert(!word_at(s, w, from));
        lemma_word_found(s, w, from + 1, p);
    }
}

proof fn lemma_no_word(s: Seq<u8>, w: Seq<u8>, from: int)
    requires
        0 <= from,
        forall|q: int| from <= q ==> !#[trigger] word_at(s, w, q),
    ensures
        word_from(s, w, from) is None,
    decreases s.len() + 1 - from,
{
    if from + w.len() <= s.len() {
        assert(!word_at(s, w, from));
        lemma_no_word(s, w, from + 1);
    }
}

/// The images of content are read one behind the other, each from its `BI` on, with
/// the number and the object of the page; behind the last there is no more.
pub proof fn law_images_in_content(
    s: Seq<u8>,
    w: Seq<u8>,
    from: int,
    bi: int,
    image: InlineV,
    end: int,
    number: u32,
    page: ObjectId,
    out: Seq<InlineV>,
)
    requires
        w == seq![0x42u8, 0x49],
        0 <= from,
    ensures
        from <= bi && word_at(s, w, bi) && (forall|q: int|
            from <= q < bi ==> !#[trigger] word_at(s, w, q)) && image_at(s, bi + 2)
            == Ok::<(InlineV, int), Seq<char>>((image, end)) ==> images_from(
            s,
            from,
            number,
            page,
            out,
        ) == images_from(
            s,
            end,
            number,
            page,
            out.push(InlineV { source_page_index: number, source_page_obj: page, ..image }),
        ),
        (forall|q: int| from <= q ==> !#[trigger] word_at(s, w, q)) ==> images_from(
            s,
            from,
            number,
            page,
            out,
        ) == Ok::<Seq<InlineV>, Seq<char>>(out),
{
    assert(word_bi() == w);
    if from <= bi && word_at(s, w, bi) && (forall|q: int|
        from <= q < bi ==> !#[trigger] word_at(s, w, q)) {
        lemma_word_found(s, word_bi(), from, bi);
    }
    if forall|q: int| from <= q ==> !#[trigger] word_at(s, w, q) {
        lemma_no_word(s, word_bi(), from);
    }
}

} // verus!
