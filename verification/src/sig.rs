//! Signatures: the signature fields of a document, and the bytes that they
//! cover.

use vstd::prelude::*;
use crate::content::holds_key;
use crate::document::{cache_key, DocV, DocumentReader};
use crate::encoding::opt_text;
use crate::error::PdfError;
use crate::number::{int_of, object_int};
use crate::objects::{
    clone_bytes, dict_get, lemma_array_view, objs_view, Dict, DictV, ObjV, Object, ObjectId,
};
use crate::pages::dict_name;
use crate::text::{cat, cat_int, cat_nat, dec, same_text};
use crate::textstring::{decode_opt_text, opt_info_text};

verus! {

// ------------------------------------------------------------ signed bytes

/// Four numbers in brackets.
pub open spec fn range_text(r: Seq<i64>) -> Seq<char> {
    "["@ + dec(r[0] as int) + ", "@ + dec(r[1] as int) + ", "@ + dec(r[2] as int) + ", "@ + dec(
        r[3] as int,
    ) + "]"@
}

fn cat_range(base: String, r: &[i64; 4]) -> (t: String)
    ensures
        t@ == base@ + range_text(r@),
{
    let m: String = cat(cat_int(cat(base, "["), r[0]), ", ");
    let m: String = cat(cat_int(m, r[1]), ", ");
    let m: String = cat(cat_int(m, r[2]), ", ");
    let t: String = cat(cat_int(m, r[3]), "]");
    proof {
        assert(t@ =~= base@ + range_text(r@));
    }
    t
}

/// The bytes that `[a b c d]` names: `b` bytes from `a` on, and behind them
/// `d` bytes from `c` on. The two ranges lie in the file, and the second
/// begins no earlier than the first ends.
pub open spec fn covered(pdf: Seq<u8>, r: Seq<i64>) -> Result<Seq<u8>, Seq<char>> {
    let end1 = r[0] + r[1];
    let end2 = r[2] + r[3];
    if r[0] < 0 || r[1] < 0 || r[2] < 0 || r[3] < 0 {
        Err("PDF /Sig: /ByteRange contains a negative integer ("@ + range_text(r) + ")"@)
    } else if end1 > pdf.len() || end2 > pdf.len() {
        Err(
            "PDF /Sig: /ByteRange "@ + range_text(r) + " extends past file length "@ + dec(
                pdf.len() as int,
            ),
        )
    } else if r[2] < end1 {
        Err(
            "PDF /Sig: /ByteRange "@ + range_text(r) + " second range starts ("@ + dec(r[2] as int)
                + ") before first range ends ("@ + dec(end1) + ")"@,
        )
    } else {
        Ok(pdf.subrange(r[0] as int, end1) + pdf.subrange(r[2] as int, end2))
    }
}

/// The bytes that a `/ByteRange` names, joined.
pub fn signed_bytes(pdf: &[u8], byte_range: &[i64; 4]) -> (r: Result<Vec<u8>, PdfError>)
    ensures
        crate::error::outcome(r) == covered(pdf@, byte_range@),
{
    if byte_range[0] < 0 || byte_range[1] < 0 || byte_range[2] < 0 || byte_range[3] < 0 {
        let m: String = cat_range(
            "PDF /Sig: /ByteRange contains a negative integer (".to_owned(),
            byte_range,
        );
        return Err(PdfError::Other(cat(m, ")")));
    }
    let total: u64 = pdf.len() as u64;
    let end1: u64 = byte_range[0] as u64 + byte_range[1] as u64;
    let end2: u64 = byte_range[2] as u64 + byte_range[3] as u64;
    if end1 > total || end2 > total {
        let m: String = cat_range("PDF /Sig: /ByteRange ".to_owned(), byte_range);
        return Err(PdfError::Other(cat_nat(cat(m, " extends past file length "), total)));
    }
    let start: u64 = byte_range[2] as u64;
    if start < end1 {
        let m: String = cat_range("PDF /Sig: /ByteRange ".to_owned(), byte_range);
        let m: String = cat_nat(cat(m, " second range starts ("), start);
        let m: String = cat_nat(cat(m, ") before first range ends ("), end1);
        return Err(PdfError::Other(cat(m, ")")));
    }
    let mut out: Vec<u8> = Vec::new();
    let first: &[u8] = vstd::slice::slice_subrange(pdf, byte_range[0] as usize, end1 as usize);
    let second: &[u8] = vstd::slice::slice_subrange(pdf, byte_range[2] as usize, end2 as usize);
    out.extend_from_slice(first);
    out.extend_from_slice(second);
    proof {
        assert(out@ =~= pdf@.subrange(byte_range@[0] as int, end1 as int) + pdf@.subrange(
            byte_range@[2] as int,
            end2 as int,
        ));
    }
    Ok(out)
}

// -------------------------------------------------------------- signatures

/// The bytes of a signed message, without the padding behind them.
#[derive(Debug, Clone)]
pub struct SignedData {
    pub der: Vec<u8>,
}

/// One signature of a document.
#[derive(Debug, Clone)]
pub struct PdfSignature {
    /// `/ByteRange`: what was signed, as two pairs of a place and a length.
    pub byte_range: [i64; 4],
    /// `/Contents`: the signature itself.
    pub contents: Vec<u8>,
    /// `/SubFilter`: the form of the signature.
    pub sub_filter: Option<String>,
    /// `/Filter`: what made the signature.
    pub filter: Option<String>,
    /// `/Type`.
    pub sig_type: Option<String>,
    /// `/Name`: who signed.
    pub name: Option<String>,
    /// `/Reason`.
    pub reason: Option<String>,
    /// `/Location`.
    pub location: Option<String>,
    /// `/ContactInfo`.
    pub contact_info: Option<String>,
    /// `/M`: when it was signed.
    pub signing_time: Option<String>,
    /// The signed message in a signature of one of the two detached forms, as
    /// far as it is a complete element; [`PdfSignature::message_parsed`] drops
    /// one that turns out not to be a signed message.
    pub signed_data: Option<SignedData>,
    /// Where `/Contents` begins in the file, if known.
    pub contents_offset: Option<u64>,
}

/// A signature as a mathematical value.
pub struct SigV {
    pub byte_range: Seq<i64>,
    pub contents: Seq<u8>,
    pub sub_filter: Option<Seq<char>>,
    pub filter: Option<Seq<char>>,
    pub sig_type: Option<Seq<char>>,
    pub name: Option<Seq<char>>,
    pub reason: Option<Seq<char>>,
    pub location: Option<Seq<char>>,
    pub contact_info: Option<Seq<char>>,
    pub signing_time: Option<Seq<char>>,
    pub signed_data: Option<Seq<u8>>,
    pub contents_offset: Option<u64>,
}

impl View for PdfSignature {
    type V = SigV;

    open spec fn view(&self) -> SigV {
        SigV {
            byte_range: self.byte_range@,
            contents: self.contents@,
            sub_filter: opt_text(self.sub_filter),
            filter: opt_text(self.filter),
            sig_type: opt_text(self.sig_type),
            name: opt_text(self.name),
            reason: opt_text(self.reason),
            location: opt_text(self.location),
            contact_info: opt_text(self.contact_info),
            signing_time: opt_text(self.signing_time),
            signed_data: match self.signed_data {
                Some(d) => Some(d.der@),
                None => None,
            },
            contents_offset: self.contents_offset,
        }
    }
}

/// Signatures as mathematical values.
pub open spec fn sigs_view(s: Seq<PdfSignature>) -> Seq<SigV> {
    s.map_values(|g: PdfSignature| g@)
}

/// One of the forms in which the contents are a signed message.
pub open spec fn cms_form(sub_filter: Option<Seq<char>>) -> bool {
    sub_filter == Some("adbe.pkcs7.detached"@) || sub_filter == Some("ETSI.CAdES.detached"@)
}

/// A signature that is a time stamp, by its type or by its form.
pub open spec fn is_timestamp(s: SigV) -> bool {
    s.sig_type == Some("DocTimeStamp"@) || s.sub_filter == Some("ETSI.RFC3161"@)
}

fn is_text(t: &Option<String>, wanted: &str) -> (r: bool)
    ensures
        r == (opt_text(*t) == Some(wanted@)),
{
    match t {
        Some(t) => same_text(t.as_str(), wanted),
        None => false,
    }
}

impl PdfSignature {
    /// The bytes of the file that were signed.
    pub fn signed_message(&self, pdf: &[u8]) -> (r: Result<Vec<u8>, PdfError>)
        ensures
            crate::error::outcome(r) == covered(pdf@, self@.byte_range),
    {
        signed_bytes(pdf, &self.byte_range)
    }

    /// Whether the contents are a signed message.
    pub fn is_cms_detached(&self) -> (r: bool)
        ensures
            r == cms_form(self@.sub_filter),
    {
        is_text(&self.sub_filter, "adbe.pkcs7.detached") || is_text(
            &self.sub_filter,
            "ETSI.CAdES.detached",
        )
    }

    /// The signature once its message was parsed: a message that does not parse
    /// is none.
    pub fn message_parsed(self, parses: bool) -> (r: PdfSignature)
        ensures
            r@ == (SigV {
                signed_data: if parses {
                    self@.signed_data
                } else {
                    None
                },
                ..self@
            }),
    {
        if parses {
            self
        } else {
            PdfSignature { signed_data: None, ..self }
        }
    }

    /// Whether this is a time stamp.
    pub fn is_doc_timestamp(&self) -> (r: bool)
        ensures
            r == is_timestamp(self@),
    {
        is_text(&self.sig_type, "DocTimeStamp") || is_text(&self.sub_filter, "ETSI.RFC3161")
    }
}

/// One time stamp of a document.
#[derive(Debug, Clone)]
pub struct PdfDocTimestamp {
    /// `/ByteRange`.
    pub byte_range: [i64; 4],
    /// `/Contents`: the token.
    pub contents: Vec<u8>,
    /// `/SubFilter`.
    pub sub_filter: Option<String>,
    /// `/Filter`.
    pub filter: Option<String>,
}

/// A time stamp as a mathematical value.
pub struct StampV {
    pub byte_range: Seq<i64>,
    pub contents: Seq<u8>,
    pub sub_filter: Option<Seq<char>>,
    pub filter: Option<Seq<char>>,
}

impl View for PdfDocTimestamp {
    type V = StampV;

    open spec fn view(&self) -> StampV {
        StampV {
            byte_range: self.byte_range@,
            contents: self.contents@,
            sub_filter: opt_text(self.sub_filter),
            filter: opt_text(self.filter),
        }
    }
}

/// Time stamps as mathematical values.
pub open spec fn stamps_view(s: Seq<PdfDocTimestamp>) -> Seq<StampV> {
    s.map_values(|t: PdfDocTimestamp| t@)
}

impl PdfDocTimestamp {
    /// The bytes of the file that the time stamp covers.
    pub fn signed_message(&self, pdf: &[u8]) -> (r: Result<Vec<u8>, PdfError>)
        ensures
            crate::error::outcome(r) == covered(pdf@, self@.byte_range),
    {
        signed_bytes(pdf, &self.byte_range)
    }
}

/// A signature seen as a time stamp, if it is one.
pub open spec fn stamp_of(s: SigV) -> Option<StampV> {
    if is_timestamp(s) {
        Some(
            StampV {
                byte_range: s.byte_range,
                contents: s.contents,
                sub_filter: s.sub_filter,
                filter: s.filter,
            },
        )
    } else {
        None
    }
}

fn clone_text(t: &Option<String>) -> (r: Option<String>)
    ensures
        opt_text(r) == opt_text(*t),
{
    match t {
        Some(t) => Some(t.clone()),
        None => None,
    }
}

fn promote_doc_timestamp(sig: &PdfSignature) -> (r: Option<PdfDocTimestamp>)
    ensures
        match r {
            Some(t) => stamp_of(sig@) == Some(t@),
            None => stamp_of(sig@) is None,
        },
{
    if !sig.is_doc_timestamp() {
        return None;
    }
    Some(
        PdfDocTimestamp {
            byte_range: sig.byte_range,
            contents: clone_bytes(&sig.contents),
            sub_filter: clone_text(&sig.sub_filter),
            filter: clone_text(&sig.filter),
        },
    )
}

// ------------------------------------------------- the signed message

/// How long the first element of DER data is: a tag, a length in one byte or
/// in up to four behind a byte that counts them, and as many bytes as the
/// length says. None where the element does not end within the data.
pub open spec fn element_length(data: Seq<u8>) -> Option<int> {
    if data.len() < 2 {
        None
    } else if data[1] < 0x80 {
        within(2 + data[1] as int, data.len() as int)
    } else {
        let n = data[1] - 0x80;
        if n == 0 || n > 4 || 2 + n > data.len() {
            None
        } else {
            within(2 + n + big_endian(data.subrange(2, 2 + n)), data.len() as int)
        }
    }
}

/// `n`, where it is no more than `limit`.
pub open spec fn within(n: int, limit: int) -> Option<int> {
    if n <= limit {
        Some(n)
    } else {
        None
    }
}

/// The number that bytes stand for, the first the most significant.
pub open spec fn big_endian(b: Seq<u8>) -> int
    decreases b.len(),
{
    if b.len() == 0 {
        0
    } else {
        big_endian(b.drop_last()) * 256 + b.last()
    }
}

/// DER data without what follows its first element.
pub open spec fn trimmed(data: Seq<u8>) -> Option<Seq<u8>> {
    match element_length(data) {
        Some(n) => Some(data.take(n)),
        None => None,
    }
}

/// DER data without what follows its first element. Signatures are written
/// into a space that was kept for them, and what they leave of it is padding.
fn cms_trim_to_outer_sequence(data: &[u8]) -> (r: Option<Vec<u8>>)
    ensures
        match r {
            Some(v) => trimmed(data@) == Some(v@),
            None => trimmed(data@) is None,
        },
{
    if data.len() < 2 {
        return None;
    }
    let lead: u8 = data[1];
    let total: u64 = if lead < 0x80 {
        2 + lead as u64
    } else {
        let n: usize = (lead - 0x80) as usize;
        if n == 0 || n > 4 || data.len() < 2 + n {
            return None;
        }
        let mut body: u64 = 0;
        let mut i: usize = 0;
        proof {
            assert(data@.subrange(2, 2) =~= Seq::empty());
        }
        while i < n
            invariant
                i <= n <= 4,
                data@.len() >= 2 + n,
                body == big_endian(data@.subrange(2, 2 + i)),
                i == 0 ==> body == 0,
                i == 1 ==> body < 0x100,
                i == 2 ==> body < 0x1_0000,
                i == 3 ==> body < 0x100_0000,
                i == 4 ==> body < 0x1_0000_0000,
            decreases n - i,
        {
            proof {
                let s = data@.subrange(2, 2 + i + 1);
                assert(s.drop_last() =~= data@.subrange(2, 2 + i));
            }
            body = body * 256 + data[2 + i] as u64;
            i = i + 1;
        }
        2 + n as u64 + body
    };
    if total > data.len() as u64 {
        return None;
    }
    let head: &[u8] = vstd::slice::slice_subrange(data, 0, total as usize);
    let mut out: Vec<u8> = Vec::new();
    out.extend_from_slice(head);
    proof {
        assert(out@ =~= data@.take(total as int));
    }
    Some(out)
}

// ----------------------------------------------------------------- reading

/// The four numbers of a `/ByteRange`.
pub open spec fn four_numbers(o: Option<ObjV>) -> Option<Seq<i64>> {
    match o {
        Some(ObjV::Array(items)) => if items.len() == 4 && int_of(items[0]) is Some && int_of(
            items[1],
        ) is Some && int_of(items[2]) is Some && int_of(items[3]) is Some {
            Some(
                seq![
                    int_of(items[0])->Some_0,
                    int_of(items[1])->Some_0,
                    int_of(items[2])->Some_0,
                    int_of(items[3])->Some_0,
                ],
            )
        } else {
            None
        },
        _ => None,
    }
}

fn read_byte_range(d: &Dict) -> (r: Option<[i64; 4]>)
    ensures
        match r {
            Some(v) => four_numbers(dict_get(d@, "ByteRange"@)) == Some(v@),
            None => four_numbers(dict_get(d@, "ByteRange"@)) is None,
        },
{
    match d.get("ByteRange") {
        Some(Object::Array(items)) => {
            proof {
                lemma_array_view(*items);
            }
            if items.len() != 4 {
                return None;
            }
            let ghost view = objs_view(items@);
            proof {
                assert(view[0] == items@[0]@);
                assert(view[1] == items@[1]@);
                assert(view[2] == items@[2]@);
                assert(view[3] == items@[3]@);
            }
            match (
                object_int(&items[0]),
                object_int(&items[1]),
                object_int(&items[2]),
                object_int(&items[3]),
            ) {
                (Some(a), Some(b), Some(c), Some(d)) => {
                    let r: [i64; 4] = [a, b, c, d];
                    proof {
                        assert(r@ =~= seq![a, b, c, d]);
                    }
                    Some(r)
                },
                _ => None,
            }
        },
        _ => None,
    }
}

/// The bytes of a string.
pub open spec fn string_bytes(o: Option<ObjV>) -> Option<Seq<u8>> {
    match o {
        Some(ObjV::HexString(b)) => Some(b),
        Some(ObjV::LiteralString(b)) => Some(b),
        _ => None,
    }
}

/// The signature that a dictionary describes; none where it does not say what
/// was signed, or has no contents.
pub open spec fn sig_of(d: DictV) -> Option<SigV> {
    match (four_numbers(dict_get(d, "ByteRange"@)), string_bytes(dict_get(d, "Contents"@))) {
        (Some(byte_range), Some(contents)) => {
            let sub_filter = dict_name(d, "SubFilter"@);
            Some(
                SigV {
                    byte_range,
                    contents,
                    sub_filter,
                    filter: dict_name(d, "Filter"@),
                    sig_type: dict_name(d, "Type"@),
                    name: opt_info_text(dict_get(d, "Name"@)),
                    reason: opt_info_text(dict_get(d, "Reason"@)),
                    location: opt_info_text(dict_get(d, "Location"@)),
                    contact_info: opt_info_text(dict_get(d, "ContactInfo"@)),
                    signing_time: opt_info_text(dict_get(d, "M"@)),
                    signed_data: if cms_form(sub_filter) {
                        trimmed(contents)
                    } else {
                        None
                    },
                    contents_offset: None,
                },
            )
        },
        _ => None,
    }
}

fn read_name(d: &Dict, key: &str) -> (r: Option<String>)
    ensures
        opt_text(r) == dict_name(d@, key@),
{
    match d.get(key) {
        Some(Object::Name(n)) => Some(n.clone()),
        _ => None,
    }
}

/// Read a signature dictionary.
pub fn decode_sig_dict(dict: &Dict) -> (r: Option<PdfSignature>)
    ensures
        match r {
            Some(s) => sig_of(dict@) == Some(s@),
            None => sig_of(dict@) is None,
        },
{
    let byte_range: [i64; 4] = match read_byte_range(dict) {
        Some(r) => r,
        None => {
            return None;
        },
    };
    let contents: Vec<u8> = match dict.get("Contents") {
        Some(Object::HexString(b)) => clone_bytes(b),
        Some(Object::LiteralString(b)) => clone_bytes(b),
        _ => {
            return None;
        },
    };
    let mut s: PdfSignature = PdfSignature {
        byte_range,
        contents,
        sub_filter: read_name(dict, "SubFilter"),
        filter: read_name(dict, "Filter"),
        sig_type: read_name(dict, "Type"),
        name: decode_opt_text(dict.get("Name")),
        reason: decode_opt_text(dict.get("Reason")),
        location: decode_opt_text(dict.get("Location")),
        contact_info: decode_opt_text(dict.get("ContactInfo")),
        signing_time: decode_opt_text(dict.get("M")),
        signed_data: None,
        contents_offset: None,
    };
    if s.is_cms_detached() {
        match cms_trim_to_outer_sequence(s.contents.as_slice()) {
            Some(der) => {
                s.signed_data = Some(SignedData { der });
            },
            None => {},
        }
    }
    Some(s)
}

/// The type of a field: its own, or that of the field above it.
pub open spec fn field_type(d: DictV, inherited: Option<Seq<char>>) -> Option<Seq<char>> {
    match dict_name(d, "FT"@) {
        Some(t) => Some(t),
        None => inherited,
    }
}

/// The signatures of field `id` and of the fields below it, behind `out`. A
/// field that lies below itself is passed over; `path` leads to this one.
pub open spec fn field_sigs(
    doc: DocV,
    id: ObjectId,
    inherited: Option<Seq<char>>,
    path: Seq<u64>,
    fuel: int,
    out: Seq<SigV>,
) -> Result<Seq<SigV>, Seq<char>>
    decreases fuel, 1int, 0int,
{
    if path.contains(cache_key(id)) {
        Ok(out)
    } else {
        match doc.resolve(id) {
            Err(e) => Err(e),
            Ok(ObjV::Dict(d)) => match dict_get(d, "Kids"@) {
                Some(ObjV::Array(kids)) => kids_sigs(
                    doc,
                    kids,
                    0,
                    field_type(d, inherited),
                    path.push(cache_key(id)),
                    fuel,
                    out,
                ),
                _ => if field_type(d, inherited) == Some("Sig"@) {
                    value_sigs(doc, d, out)
                } else {
                    Ok(out)
                },
            },
            Ok(_) => Ok(out),
        }
    }
}

/// The signature that is the value of a field, behind `out`.
pub open spec fn value_sigs(doc: DocV, d: DictV, out: Seq<SigV>) -> Result<Seq<SigV>, Seq<char>> {
    match dict_get(d, "V"@) {
        None => Ok(out),
        Some(v) => match doc.deref(v) {
            Err(e) => Err(e),
            Ok(ObjV::Dict(s)) => match sig_of(s) {
                Some(sig) => Ok(out.push(sig)),
                None => Ok(out),
            },
            Ok(_) => Ok(out),
        },
    }
}

/// The signatures of the fields from place `i` on.
pub open spec fn kids_sigs(
    doc: DocV,
    kids: Seq<ObjV>,
    i: int,
    inherited: Option<Seq<char>>,
    path: Seq<u64>,
    fuel: int,
    out: Seq<SigV>,
) -> Result<Seq<SigV>, Seq<char>>
    decreases fuel, 0int, kids.len() - i,
{
    if i < 0 || i >= kids.len() || fuel <= 0 {
        Ok(out)
    } else {
        match kids[i] {
            ObjV::Reference(kid) => match field_sigs(doc, kid, inherited, path, fuel - 1, out) {
                Err(e) => Err(e),
                Ok(o) => kids_sigs(doc, kids, i + 1, inherited, path, fuel, o),
            },
            _ => kids_sigs(doc, kids, i + 1, inherited, path, fuel, out),
        }
    }
}

/// The walk left `out` as `w` says, or ended in the error that `w` says.
pub open spec fn walk_agrees(
    r: Result<(), PdfError>,
    out: Seq<PdfSignature>,
    w: Result<Seq<SigV>, Seq<char>>,
) -> bool {
    match r {
        Ok(_) => w == Ok::<Seq<SigV>, Seq<char>>(sigs_view(out)),
        Err(e) => w == Err::<Seq<SigV>, Seq<char>>(e@),
    }
}

fn walk_kids(
    reader: &mut DocumentReader,
    kids: &Vec<Object>,
    inherited: &Option<String>,
    path: &mut Vec<u64>,
    fuel: usize,
    out: &mut Vec<PdfSignature>,
) -> (r: Result<(), PdfError>)
    requires
        old(reader).wf(),
    ensures
        final(reader).wf(),
        final(reader).doc() == old(reader).doc(),
        r is Ok ==> final(path)@ == old(path)@,
        walk_agrees(
            r,
            final(out)@,
            kids_sigs(
                old(reader).doc(),
                objs_view(kids@),
                0,
                opt_text(*inherited),
                old(path)@,
                fuel as int,
                sigs_view(old(out)@),
            ),
        ),
    decreases fuel, 0int,
{
    let ghost doc = reader.doc();
    let ghost view = objs_view(kids@);
    let ghost above = path@;
    let ghost goal = kids_sigs(
        doc,
        view,
        0,
        opt_text(*inherited),
        above,
        fuel as int,
        sigs_view(out@),
    );
    if fuel == 0 {
        return Ok(());
    }
    let mut i: usize = 0;
    while i < kids.len()
        invariant
            i <= kids@.len(),
            view == objs_view(kids@),
            reader.wf(),
            reader.doc() == doc,
            doc == old(reader).doc(),
            fuel > 0,
            path@ == above,
            above == old(path)@,
            goal == kids_sigs(
                old(reader).doc(),
                objs_view(kids@),
                0,
                opt_text(*inherited),
                old(path)@,
                fuel as int,
                sigs_view(old(out)@),
            ),
            goal == kids_sigs(
                doc,
                view,
                i as int,
                opt_text(*inherited),
                above,
                fuel as int,
                sigs_view(out@),
            ),
        decreases kids.len() - i,
    {
        proof {
            assert(view[i as int] == kids@[i as int]@);
        }
        if let Object::Reference(kid) = &kids[i] {
            match walk_field(reader, *kid, inherited, path, fuel - 1, out) {
                Ok(_) => {},
                Err(e) => {
                    return Err(e);
                },
            }
        }
        i = i + 1;
    }
    Ok(())
}

fn walk_field(
    reader: &mut DocumentReader,
    id: ObjectId,
    inherited: &Option<String>,
    path: &mut Vec<u64>,
    fuel: usize,
    out: &mut Vec<PdfSignature>,
) -> (r: Result<(), PdfError>)
    requires
        old(reader).wf(),
    ensures
        final(reader).wf(),
        final(reader).doc() == old(reader).doc(),
        r is Ok ==> final(path)@ == old(path)@,
        walk_agrees(
            r,
            final(out)@,
            field_sigs(
                old(reader).doc(),
                id,
                opt_text(*inherited),
                old(path)@,
                fuel as int,
                sigs_view(old(out)@),
            ),
        ),
    decreases fuel, 1int,
{
    let key: u64 = id.number as u64 * 65536 + id.generation as u64;
    proof {
        assert(key == cache_key(id));
    }
    if holds_key(path, key) {
        return Ok(());
    }
    let d: Dict = match reader.resolve(id) {
        Err(e) => {
            return Err(e);
        },
        Ok(Object::Dict(d)) => d,
        Ok(_) => {
            return Ok(());
        },
    };
    let ft: Option<String> = match d.get("FT") {
        Some(Object::Name(n)) => Some(n.clone()),
        _ => clone_text(inherited),
    };
    if let Some(Object::Array(kids)) = d.get("Kids") {
        proof {
            lemma_array_view(*kids);
        }
        path.push(key);
        return match walk_kids(reader, kids, &ft, path, fuel, out) {
            Err(e) => Err(e),
            Ok(_) => {
                path.pop();
                proof {
                    assert(old(path)@.push(key).drop_last() =~= old(path)@);
                }
                Ok(())
            },
        };
    }
    if !is_text(&ft, "Sig") {
        return Ok(());
    }
    let v: Object = match d.get("V") {
        None => {
            return Ok(());
        },
        Some(v) => v.clone(),
    };
    match reader.deref(v) {
        Err(e) => Err(e),
        Ok(Object::Dict(s)) => {
            if let Some(sig) = decode_sig_dict(&s) {
                let ghost before = sigs_view(out@);
                let ghost g = sig@;
                out.push(sig);
                proof {
                    assert(sigs_view(out@) =~= before.push(g));
                }
            }
            Ok(())
        },
        Ok(_) => Ok(()),
    }
}

/// The signatures of a document, in the order of its fields. A document
/// without a form has none.
pub open spec fn document_sigs(doc: DocV) -> Result<Seq<SigV>, Seq<char>> {
    match doc.catalog() {
        Err(e) => Err(e),
        Ok(ObjV::Dict(catalog)) => match dict_get(catalog, "AcroForm"@) {
            None => Ok(Seq::empty()),
            Some(o) => match doc.deref(o) {
                Err(e) => Err(e),
                Ok(ObjV::Dict(form)) => match dict_get(form, "Fields"@) {
                    Some(ObjV::Array(fields)) => kids_sigs(
                        doc,
                        fields,
                        0,
                        None,
                        Seq::empty(),
                        doc.longest_chain(),
                        Seq::empty(),
                    ),
                    _ => Ok(Seq::empty()),
                },
                Ok(_) => Ok(Seq::empty()),
            },
        },
        Ok(_) => Ok(Seq::empty()),
    }
}

/// The signatures of a document.
pub fn signatures(reader: &mut DocumentReader) -> (r: Result<Vec<PdfSignature>, PdfError>)
    requires
        old(reader).wf(),
    ensures
        final(reader).wf(),
        final(reader).doc() == old(reader).doc(),
        match r {
            Ok(v) => document_sigs(old(reader).doc()) == Ok::<Seq<SigV>, Seq<char>>(sigs_view(v@)),
            Err(e) => document_sigs(old(reader).doc()) == Err::<Seq<SigV>, Seq<char>>(e@),
        },
{
    let mut out: Vec<PdfSignature> = Vec::new();
    proof {
        assert(sigs_view(out@) =~= Seq::empty());
    }
    let catalog: Dict = match reader.catalog() {
        Err(e) => {
            return Err(e);
        },
        Ok(Object::Dict(d)) => d,
        Ok(_) => {
            return Ok(out);
        },
    };
    let form: Object = match catalog.get("AcroForm") {
        None => {
            return Ok(out);
        },
        Some(o) => o.clone(),
    };
    let form: Dict = match reader.deref(form) {
        Err(e) => {
            return Err(e);
        },
        Ok(Object::Dict(d)) => d,
        Ok(_) => {
            return Ok(out);
        },
    };
    let fuel: usize = reader.chain_limit();
    if let Some(Object::Array(fields)) = form.get("Fields") {
        proof {
            lemma_array_view(*fields);
        }
        let mut path: Vec<u64> = Vec::new();
        proof {
            assert(path@ =~= Seq::empty());
        }
        match walk_kids(reader, fields, &None, &mut path, fuel, &mut out) {
            Ok(_) => {},
            Err(e) => {
                return Err(e);
            },
        }
    }
    Ok(out)
}

/// The time stamps among the first `n` signatures, in order.
pub open spec fn stamps_among(sigs: Seq<SigV>, n: int) -> Seq<StampV>
    decreases n,
{
    if n <= 0 || n > sigs.len() {
        Seq::empty()
    } else {
        match stamp_of(sigs[n - 1]) {
            Some(t) => stamps_among(sigs, n - 1).push(t),
            None => stamps_among(sigs, n - 1),
        }
    }
}

/// The time stamps of a document, in the order of its fields.
pub open spec fn document_stamps(doc: DocV) -> Result<Seq<StampV>, Seq<char>> {
    match document_sigs(doc) {
        Err(e) => Err(e),
        Ok(sigs) => Ok(stamps_among(sigs, sigs.len() as int)),
    }
}

/// The time stamps of a document.
pub fn doc_timestamps(reader: &mut DocumentReader) -> (r: Result<Vec<PdfDocTimestamp>, PdfError>)
    requires
        old(reader).wf(),
    ensures
        final(reader).wf(),
        final(reader).doc() == old(reader).doc(),
        match r {
            Ok(v) => document_stamps(old(reader).doc()) == Ok::<Seq<StampV>, Seq<char>>(
                stamps_view(v@),
            ),
            Err(e) => document_stamps(old(reader).doc()) == Err::<Seq<StampV>, Seq<char>>(e@),
        },
{
    let sigs: Vec<PdfSignature> = match signatures(reader) {
        Ok(v) => v,
        Err(e) => {
            return Err(e);
        },
    };
    let mut out: Vec<PdfDocTimestamp> = Vec::new();
    proof {
        assert(stamps_view(out@) =~= Seq::empty());
    }
    let mut i: usize = 0;
    while i < sigs.len()
        invariant
            i <= sigs@.len(),
            stamps_view(out@) == stamps_among(sigs_view(sigs@), i as int),
        decreases sigs.len() - i,
    {
        let ghost before = stamps_view(out@);
        proof {
            assert(sigs_view(sigs@)[i as int] == sigs@[i as int]@);
        }
        if let Some(t) = promote_doc_timestamp(&sigs[i]) {
            let ghost v = t@;
            out.push(t);
            proof {
                assert(stamps_view(out@) =~= before.push(v));
            }
        }
        i = i + 1;
    }
    Ok(out)
}

impl<'a> DocumentReader<'a> {
    /// The signatures of the document.
    pub fn signatures(&mut self) -> (r: Result<Vec<PdfSignature>, PdfError>)
        requires
            old(self).wf(),
        ensures
            final(self).wf(),
            final(self).doc() == old(self).doc(),
            match r {
                Ok(v) => document_sigs(old(self).doc()) == Ok::<Seq<SigV>, Seq<char>>(
                    sigs_view(v@),
                ),
                Err(e) => document_sigs(old(self).doc()) == Err::<Seq<SigV>, Seq<char>>(e@),
            },
    {
        signatures(self)
    }

    /// The time stamps of the document.
    pub fn doc_timestamps(&mut self) -> (r: Result<Vec<PdfDocTimestamp>, PdfError>)
        requires
            old(self).wf(),
        ensures
            final(self).wf(),
            final(self).doc() == old(self).doc(),
            match r {
                Ok(v) => document_stamps(old(self).doc()) == Ok::<Seq<StampV>, Seq<char>>(
                    stamps_view(v@),
                ),
                Err(e) => document_stamps(old(self).doc()) == Err::<Seq<StampV>, Seq<char>>(e@),
            },
    {
        doc_timestamps(self)
    }
}

// ------------------------------------------------------------------- laws

/// The bytes that were signed are as many as the two lengths say.
pub proof fn law_signed_length(pdf: Seq<u8>, r: Seq<i64>, b: Seq<u8>)
    requires
        r.len() == 4,
        covered(pdf, r) == Ok::<Seq<u8>, Seq<char>>(b),
    ensures
        b.len() == r[1] + r[3],
{
}

/// A file of which all but one stretch was signed is what was signed with that
/// stretch between its two parts.
pub proof fn law_all_but_a_gap(pdf: Seq<u8>, from: i64, to: i64)
    requires
        0 <= from <= to <= pdf.len(),
        pdf.len() <= i64::MAX,
    ensures
        covered(pdf, seq![0i64, from, to, (pdf.len() - to) as i64]) == Ok::<Seq<u8>, Seq<char>>(
            pdf.take(from as int) + pdf.skip(to as int),
        ),
{
    let r = seq![0i64, from, to, (pdf.len() - to) as i64];
    assert(r[0] == 0 && r[1] == from && r[2] == to && r[3] == pdf.len() - to);
    assert(pdf.subrange(0, from as int) =~= pdf.take(from as int));
    assert(pdf.subrange(to as int, pdf.len() as int) =~= pdf.skip(to as int));
}

/// Padding behind a signed message does not change what is read of it.
pub proof fn law_padding_ignored(data: Seq<u8>, padding: Seq<u8>, message: Seq<u8>)
    requires
        trimmed(data) == Some(message),
    ensures
        trimmed(data + padding) == Some(message),
        trimmed(message) == Some(message),
{
    let long = data + padding;
    let n = data[1] - 0x80;
    if data[1] >= 0x80 {
        assert(long.subrange(2, 2 + n) =~= data.subrange(2, 2 + n));
        assert(message.subrange(2, 2 + n) =~= data.subrange(2, 2 + n)) by {
            lemma_big_endian_nonneg(data.subrange(2, 2 + n));
        }
        lemma_big_endian_nonneg(data.subrange(2, 2 + n));
    }
    let total = element_length(data)->Some_0;
    assert(long.take(total) =~= data.take(total));
    assert(message.take(total) =~= message);
    assert(message[1] == data[1]);
}

proof fn lemma_big_endian_nonneg(b: Seq<u8>)
    ensures
        big_endian(b) >= 0,
    decreases b.len(),
{
    if b.len() > 0 {
        lemma_big_endian_nonneg(b.drop_last());
    }
}

/// A field that lies below itself is not entered again.
pub proof fn law_no_field_in_itself(
    doc: DocV,
    id: ObjectId,
    inherited: Option<Seq<char>>,
    path: Seq<u64>,
    fuel: int,
    out: Seq<SigV>,
)
    requires
        path.contains(cache_key(id)),
    ensures
        field_sigs(doc, id, inherited, path, fuel, out) == Ok::<Seq<SigV>, Seq<char>>(out),
{
}

/// There are no more time stamps than signatures.
pub proof fn law_stamps_among_signatures(sigs: Seq<SigV>)
    ensures
        stamps_among(sigs, sigs.len() as int).len() <= sigs.len(),
        forall|t: StampV|
            #[trigger] stamps_among(sigs, sigs.len() as int).contains(t) ==> exists|i: int|
                0 <= i < sigs.len() && stamp_of(#[trigger] sigs[i]) == Some(t),
{
    lemma_stamps(sigs, sigs.len() as int);
}

proof fn lemma_stamps(sigs: Seq<SigV>, n: int)
    requires
        0 <= n <= sigs.len(),
    ensures
        stamps_among(sigs, n).len() <= n,
        forall|t: StampV|
            #[trigger] stamps_among(sigs, n).contains(t) ==> exists|i: int|
                0 <= i < n && stamp_of(#[trigger] sigs[i]) == Some(t),
    decreases n,
{
    if n > 0 {
        lemma_stamps(sigs, n - 1);
        let before = stamps_among(sigs, n - 1);
        assert forall|t: StampV| #[trigger] stamps_among(sigs, n).contains(t) implies exists|i: int|
            0 <= i < n && stamp_of(#[trigger] sigs[i]) == Some(t) by {
            if before.contains(t) {
                let i = choose|i: int| 0 <= i < n - 1 && stamp_of(#[trigger] sigs[i]) == Some(t);
                assert(stamp_of(sigs[i]) == Some(t));
            } else {
                assert(stamp_of(sigs[n - 1]) == Some(t));
            }
        }
    }
}

} // verus!
