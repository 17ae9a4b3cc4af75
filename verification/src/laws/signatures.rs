//! Laws of signatures: what was signed, the message, and where signatures are found.

use vstd::prelude::*;
use crate::document::{cache_key, DocV};
use crate::objects::{dict_get, DictV, ObjV, ObjectId};
use crate::sig::{
    cms_form, covered, document_sigs, document_stamps, field_sigs, is_timestamp, kids_sigs, sig_of,
    stamps_among, trimmed, SigV, StampV,
};
use crate::textstring::info_text;

verus! {

/// What was signed is the two stretches of the file, one behind the other; a stretch
/// beyond the end of the file, a negative number, and a second stretch that begins
/// before the first ends, is refused.
pub proof fn law_covered(pdf: Seq<u8>, a: i64, b: i64, c: i64, d: i64)
    ensures
        0 <= a && 0 <= b && a + b <= c && 0 <= d && c + d <= pdf.len() ==> (covered(
            pdf,
            seq![a, b, c, d],
        ) matches Ok(s) && s.len() == b + d && (forall|i: int|
            0 <= i < b ==> #[trigger] s[i] == pdf[a + i]) && (forall|i: int|
            b <= i < b + d ==> #[trigger] s[i] == pdf[c + (i - b)])),
        a < 0 || b < 0 || c < 0 || d < 0 || c < a + b || a + b > pdf.len() || c + d > pdf.len()
            ==> covered(pdf, seq![a, b, c, d]) is Err,
{
    let r = seq![a, b, c, d];
    assert(r[0] == a && r[1] == b && r[2] == c && r[3] == d);
}

// ------------------------------------------------------------------ message

/// An element: a tag, its length, and its content. The length is one byte below 128,
/// or `n` bytes behind a byte that counts them.
pub open spec fn element(tag: u8, n: int, content: Seq<u8>) -> Seq<u8> {
    let len = content.len() as int;
    let head = if n == 0 {
        seq![tag, len as u8]
    } else if n == 1 {
        seq![tag, 0x81u8, len as u8]
    } else if n == 2 {
        seq![tag, 0x82u8, (len / 256) as u8, (len % 256) as u8]
    } else if n == 3 {
        seq![tag, 0x83u8, (len / 65536) as u8, ((len / 256) % 256) as u8, (len % 256) as u8]
    } else {
        seq![
            tag,
            0x84u8,
            (len / 16777216) as u8,
            ((len / 65536) % 256) as u8,
            ((len / 256) % 256) as u8,
            (len % 256) as u8,
        ]
    };
    head + content
}

/// Length fits `n` bytes.
pub open spec fn length_fits(n: int, len: int) -> bool {
    if n == 0 {
        len < 128
    } else if n == 1 {
        len < 256
    } else if n == 2 {
        len < 65536
    } else if n == 3 {
        len < 16777216
    } else {
        len < 4294967296
    }
}

#[verifier::rlimit(50)]
proof fn lemma_bytes(len: int)
    requires
        0 <= len < 4294967296,
    ensures
        len < 65536 ==> (len / 256) * 256 + len % 256 == len && len / 256 < 256,
        len < 16777216 ==> ((len / 65536) * 256 + (len / 256) % 256) * 256 + len % 256 == len && len
            / 65536 < 256,
        (((len / 16777216) * 256 + (len / 65536) % 256) * 256 + (len / 256) % 256) * 256 + len % 256
            == len,
        len / 16777216 < 256,
{
    assert(len / 65536 == (len / 256) / 256);
    assert(len / 16777216 == (len / 65536) / 256);
    assert(len == (len / 256) * 256 + len % 256);
    assert(len / 256 == (len / 65536) * 256 + (len / 256) % 256);
    assert(len / 65536 == (len / 16777216) * 256 + (len / 65536) % 256);
}

proof fn lemma_big_endian(b: Seq<u8>)
    requires
        1 <= b.len() <= 4,
    ensures
        b.len() == 1 ==> crate::sig::big_endian(b) == b[0],
        b.len() == 2 ==> crate::sig::big_endian(b) == b[0] * 256 + b[1],
        b.len() == 3 ==> crate::sig::big_endian(b) == (b[0] * 256 + b[1]) * 256 + b[2],
        b.len() == 4 ==> crate::sig::big_endian(b) == ((b[0] * 256 + b[1]) * 256 + b[2]) * 256
            + b[3],
    decreases b.len(),
{
    if b.len() == 1 {
        assert(b.drop_last() =~= Seq::empty());
        reveal_with_fuel(crate::sig::big_endian, 2);
    } else {
        lemma_big_endian(b.drop_last());
    }
}

/// The message of a signature is its first element, whole, whatever follows; data
/// that end within the element hold none.
#[verifier::rlimit(50)]
pub proof fn law_message(tag: u8, n: int, content: Seq<u8>, padding: Seq<u8>, k: int)
    requires
        0 <= n <= 4,
        length_fits(n, content.len() as int),
    ensures
        trimmed(element(tag, n, content) + padding) == Some(element(tag, n, content)),
        0 <= k < element(tag, n, content).len() ==> trimmed(element(tag, n, content).take(k)) is None,
{
    let len = content.len() as int;
    let e = element(tag, n, content);
    let s = e + padding;
    let t = if 0 <= k < e.len() {
        e.take(k)
    } else {
        Seq::empty()
    };
    lemma_bytes(len);
    assert(s.take(e.len() as int) =~= e);
    assert(e[1] == s[1]);
    if n == 0 {
        assert(s[1] == len);
        if t.len() >= 2 {
            assert(t[1] == len);
        }
    } else {
        assert(s[1] == 0x80 + n);
        let b = e.subrange(2, 2 + n);
        lemma_big_endian(b);
        assert(s.subrange(2, 2 + n) =~= b);
        assert(crate::sig::big_endian(b) == len) by {
            if n == 1 {
                assert(b[0] == len);
            } else if n == 2 {
                assert(b[0] == len / 256 && b[1] == len % 256);
            } else if n == 3 {
                assert(b[0] == len / 65536 && b[1] == (len / 256) % 256 && b[2] == len % 256);
            } else {
                assert(b[0] == len / 16777216 && b[1] == (len / 65536) % 256 && b[2] == (len / 256)
                    % 256 && b[3] == len % 256);
            }
        }
        if t.len() >= 2 {
            assert(t[1] == 0x80 + n);
            if 2 + n <= t.len() {
                assert(t.subrange(2, 2 + n) =~= b);
            }
        }
    }
}

/// A length without an end, or of more than four bytes, is not read.
pub proof fn law_bad_length(tag: u8, b: u8, rest: Seq<u8>)
    ensures
        b == 0x80 || b > 0x84 ==> trimmed(seq![tag, b] + rest) is None,
        trimmed(seq![tag]) is None,
        trimmed(Seq::empty()) is None,
{
    let s = seq![tag, b] + rest;
    assert(s[1] == b);
}

// --------------------------------------------------------------- description

/// A signature has each of its parts from the entry of that name.
#[verifier::rlimit(50)]
pub proof fn law_signature(
    d: DictV,
    a: i64,
    b: i64,
    c: i64,
    e: i64,
    contents: Seq<u8>,
    o: ObjV,
    t: Seq<char>,
    n: Seq<char>,
)
    requires
        dict_get(d, "ByteRange"@) == Some(
            ObjV::Array(
                seq![ObjV::Integer(a), ObjV::Integer(b), ObjV::Integer(c), ObjV::Integer(e)],
            ),
        ),
        dict_get(d, "Contents"@) == Some(ObjV::HexString(contents)) || dict_get(d, "Contents"@)
            == Some(ObjV::LiteralString(contents)),
        info_text(o) == Some(t),
    ensures
        sig_of(d) matches Some(s) && {
            &&& s.byte_range == seq![a, b, c, e]
            &&& s.contents == contents
            &&& dict_get(d, "SubFilter"@) == Some(ObjV::Name(n)) ==> s.sub_filter == Some(n)
            &&& dict_get(d, "SubFilter"@) is None ==> s.sub_filter is None && s.signed_data is None
            &&& dict_get(d, "Filter"@) == Some(ObjV::Name(n)) ==> s.filter == Some(n)
            &&& dict_get(d, "Type"@) == Some(ObjV::Name(n)) ==> s.sig_type == Some(n)
            &&& dict_get(d, "Name"@) == Some(o) ==> s.name == Some(t)
            &&& dict_get(d, "Reason"@) == Some(o) ==> s.reason == Some(t)
            &&& dict_get(d, "Location"@) == Some(o) ==> s.location == Some(t)
            &&& dict_get(d, "ContactInfo"@) == Some(o) ==> s.contact_info == Some(t)
            &&& dict_get(d, "M"@) == Some(o) ==> s.signing_time == Some(t)
            &&& dict_get(d, "Name"@) is None ==> s.name is None
            &&& dict_get(d, "M"@) is None ==> s.signing_time is None
            &&& dict_get(d, "SubFilter"@) == Some(ObjV::Name("adbe.pkcs7.detached"@)) || dict_get(
                d,
                "SubFilter"@,
            ) == Some(ObjV::Name("ETSI.CAdES.detached"@)) ==> s.signed_data == trimmed(contents)
        },
{
    let items = seq![ObjV::Integer(a), ObjV::Integer(b), ObjV::Integer(c), ObjV::Integer(e)];
    assert(items[0] == ObjV::Integer(a) && items[1] == ObjV::Integer(b) && items[2]
        == ObjV::Integer(c) && items[3] == ObjV::Integer(e));
    assert(crate::sig::four_numbers(Some(ObjV::Array(items))) == Some(seq![a, b, c, e]));
}

/// Without the four numbers or the contents there is no signature; forms other than
/// the two detached ones have no message here.
pub proof fn law_no_signature(d: DictV, items: Seq<ObjV>, form: Seq<char>)
    ensures
        dict_get(d, "ByteRange"@) is None || dict_get(d, "Contents"@) is None ==> sig_of(d) is None,
        dict_get(d, "ByteRange"@) == Some(ObjV::Array(items)) && items.len() != 4 ==> sig_of(
            d,
        ) is None,
        form.len() != 19 ==> !cms_form(Some(form)),
        cms_form(Some("adbe.pkcs7.detached"@)),
        cms_form(Some("ETSI.CAdES.detached"@)),
{
    reveal_strlit("adbe.pkcs7.detached");
    reveal_strlit("ETSI.CAdES.detached");
    assert("adbe.pkcs7.detached"@.len() == 19 && "ETSI.CAdES.detached"@.len() == 19);
}

/// A signature is a time stamp by its type or by its form, and by nothing else.
pub proof fn law_time_stamp(s: SigV)
    ensures
        s.sig_type == Some("DocTimeStamp"@) ==> is_timestamp(s),
        s.sub_filter == Some("ETSI.RFC3161"@) ==> is_timestamp(s),
        s.sig_type is None && s.sub_filter is None ==> !is_timestamp(s),
        s.sig_type == Some("Sig"@) && s.sub_filter == Some("adbe.pkcs7.detached"@)
            ==> !is_timestamp(s),
{
    reveal_strlit("DocTimeStamp");
    reveal_strlit("ETSI.RFC3161");
    reveal_strlit("Sig");
    reveal_strlit("adbe.pkcs7.detached");
    assert("DocTimeStamp"@.len() == 12 && "ETSI.RFC3161"@.len() == 12 && "Sig"@.len() == 3
        && "adbe.pkcs7.detached"@.len() == 19);
}

/// The time stamps of a document are those of its signatures that are time stamps,
/// each with its range, its token and its filters, in order.
pub proof fn law_time_stamps(sigs: Seq<SigV>, n: int)
    requires
        0 <= n <= sigs.len(),
    ensures
        stamps_among(sigs, n) == sigs.take(n).filter(|s: SigV| is_timestamp(s)).map_values(
            |s: SigV|
                StampV {
                    byte_range: s.byte_range,
                    contents: s.contents,
                    sub_filter: s.sub_filter,
                    filter: s.filter,
                },
        ),
    decreases n,
{
    reveal(Seq::filter);
    let p = |s: SigV| is_timestamp(s);
    let f = |s: SigV|
        StampV {
            byte_range: s.byte_range,
            contents: s.contents,
            sub_filter: s.sub_filter,
            filter: s.filter,
        };
    if n > 0 {
        law_time_stamps(sigs, n - 1);
        let s = sigs[n - 1];
        assert(sigs.take(n).drop_last() =~= sigs.take(n - 1));
        assert(sigs.take(n).last() == s);
        let before = sigs.take(n - 1).filter(p);
        if p(s) {
            assert(before.push(s).map_values(f) =~= before.map_values(f).push(f(s)));
        }
    } else {
        assert(sigs.take(0).filter(p).map_values(f) =~= Seq::empty());
    }
}

// -------------------------------------------------------------------- fields

/// A field with its own type, what its value gives, and the fields below it.
pub struct Field {
    pub id: ObjectId,
    pub kind: Option<Seq<char>>,
    /// The signature that is its value.
    pub value: Option<SigV>,
    pub kids: Option<Seq<Field>>,
}

/// The type that counts: the one that is given here, or the one from above.
pub open spec fn kind_here(kind: Option<Seq<char>>, above: Option<Seq<char>>) -> Option<Seq<char>> {
    match kind {
        Some(k) => Some(k),
        None => above,
    }
}

/// The value of a field, which it may refer to, is this signature.
pub open spec fn value_shown(doc: DocV, d: DictV, value: Option<SigV>) -> bool {
    match value {
        Some(s) => dict_get(d, "V"@) matches Some(v) && (doc.deref(v) matches Ok(ObjV::Dict(e))
            && sig_of(e) == Some(s)),
        None => dict_get(d, "V"@) is None,
    }
}

/// A document shows a field and the fields below it, none of which lies below
/// itself.
pub open spec fn field_shown(doc: DocV, f: Field, path: Seq<u64>, fuel: int) -> bool
    decreases f, 0int,
{
    &&& !path.contains(cache_key(f.id))
    &&& doc.resolve(f.id) matches Ok(ObjV::Dict(d)) && dict_get(d, "FT"@) == (match f.kind {
        Some(k) => Some(ObjV::Name(k)),
        None => None,
    }) && value_shown(doc, d, f.value) && (match f.kids {
        Some(kids) => dict_get(d, "Kids"@) == Some(
            ObjV::Array(Seq::new(kids.len(), |i: int| ObjV::Reference(kids[i].id))),
        ) && fuel > 0 && fields_shown(doc, kids, 0, path.push(cache_key(f.id)), fuel),
        None => dict_get(d, "Kids"@) is None,
    })
}

/// A document shows the fields from place `i` on.
pub open spec fn fields_shown(doc: DocV, kids: Seq<Field>, i: int, path: Seq<u64>, fuel: int) -> bool
    decreases kids, kids.len() - i,
{
    if i < 0 || i >= kids.len() {
        true
    } else {
        field_shown(doc, kids[i], path, fuel - 1) && fields_shown(doc, kids, i + 1, path, fuel)
    }
}

/// The signatures of a field: its value, if it has no fields below it and its type
/// is that of signatures, or those of the fields below it.
pub open spec fn field_signatures(f: Field, above: Option<Seq<char>>) -> Seq<SigV>
    decreases f, 0int,
{
    match f.kids {
        Some(kids) => fields_signatures(kids, 0, kind_here(f.kind, above)),
        None => if kind_here(f.kind, above) == Some("Sig"@) {
            match f.value {
                Some(s) => seq![s],
                None => Seq::empty(),
            }
        } else {
            Seq::empty()
        },
    }
}

/// The signatures of the fields from place `i` on.
pub open spec fn fields_signatures(kids: Seq<Field>, i: int, above: Option<Seq<char>>) -> Seq<SigV>
    decreases kids, kids.len() - i,
{
    if i < 0 || i >= kids.len() {
        Seq::empty()
    } else {
        field_signatures(kids[i], above) + fields_signatures(kids, i + 1, above)
    }
}

proof fn lemma_field(
    doc: DocV,
    f: Field,
    above: Option<Seq<char>>,
    path: Seq<u64>,
    fuel: int,
    out: Seq<SigV>,
)
    requires
        field_shown(doc, f, path, fuel),
    ensures
        field_sigs(doc, f.id, above, path, fuel, out) == Ok::<Seq<SigV>, Seq<char>>(
            out + field_signatures(f, above),
        ),
    decreases f, 0int,
{
    let d = doc.resolve(f.id)->Ok_0->Dict_0;
    assert(crate::sig::field_type(d, above) == kind_here(f.kind, above));
    match f.kids {
        Some(kids) => {
            let items = Seq::new(kids.len(), |i: int| ObjV::Reference(kids[i].id));
            lemma_fields(
                doc,
                kids,
                items,
                0,
                kind_here(f.kind, above),
                path.push(cache_key(f.id)),
                fuel,
                out,
            );
        },
        None => {
            assert(out + Seq::<SigV>::empty() =~= out);
            if let Some(s) = f.value {
                assert(out + seq![s] =~= out.push(s));
            }
        },
    }
}

proof fn lemma_fields(
    doc: DocV,
    kids: Seq<Field>,
    items: Seq<ObjV>,
    i: int,
    above: Option<Seq<char>>,
    path: Seq<u64>,
    fuel: int,
    out: Seq<SigV>,
)
    requires
        0 <= i <= kids.len(),
        fuel > 0,
        items == Seq::new(kids.len(), |i: int| ObjV::Reference(kids[i].id)),
        fields_shown(doc, kids, i, path, fuel),
    ensures
        kids_sigs(doc, items, i, above, path, fuel, out) == Ok::<Seq<SigV>, Seq<char>>(
            out + fields_signatures(kids, i, above),
        ),
    decreases kids, kids.len() - i,
{
    if i < kids.len() {
        assert(items[i] == ObjV::Reference(kids[i].id));
        lemma_field(doc, kids[i], above, path, fuel - 1, out);
        let next = out + field_signatures(kids[i], above);
        lemma_fields(doc, kids, items, i + 1, above, path, fuel, next);
        assert(next + fields_signatures(kids, i + 1, above) =~= out + fields_signatures(
            kids,
            i,
            above,
        ));
    } else {
        assert(out + fields_signatures(kids, i, above) =~= out);
    }
}

/// The signatures of a document are the values of the fields of its form, which may
/// be referred to, whose type, their own or one from above, is that of signatures, in
/// the order of the fields; its time stamps are those among them.
pub proof fn law_document_signatures(doc: DocV, catalog: DictV, o: ObjV, form: DictV, fields: Seq<Field>)
    requires
        doc.catalog() == Ok::<ObjV, Seq<char>>(ObjV::Dict(catalog)),
        dict_get(catalog, "AcroForm"@) == Some(o),
        doc.deref(o) == Ok::<ObjV, Seq<char>>(ObjV::Dict(form)),
        dict_get(form, "Fields"@) == Some(
            ObjV::Array(Seq::new(fields.len(), |i: int| ObjV::Reference(fields[i].id))),
        ),
        fields_shown(doc, fields, 0, Seq::empty(), doc.longest_chain()),
    ensures
        document_sigs(doc) == Ok::<Seq<SigV>, Seq<char>>(fields_signatures(fields, 0, None)),
        document_stamps(doc) == Ok::<Seq<StampV>, Seq<char>>(
            stamps_among(
                fields_signatures(fields, 0, None),
                fields_signatures(fields, 0, None).len() as int,
            ),
        ),
{
    let items = Seq::new(fields.len(), |i: int| ObjV::Reference(fields[i].id));
    lemma_fields(doc, fields, items, 0, None, Seq::empty(), doc.longest_chain(), Seq::empty());
    let s = fields_signatures(fields, 0, None);
    assert(Seq::<SigV>::empty() + s =~= s);
}

/// A document without a form has no signatures.
pub proof fn law_no_form(doc: DocV, catalog: DictV)
    requires
        doc.catalog() == Ok::<ObjV, Seq<char>>(ObjV::Dict(catalog)),
        dict_get(catalog, "AcroForm"@) is None,
    ensures
        document_sigs(doc) == Ok::<Seq<SigV>, Seq<char>>(Seq::empty()),
{
}

} // verus!
