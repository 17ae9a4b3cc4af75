//! A document: its objects, found through the cross-reference table.

use std::collections::HashMap;
use vstd::prelude::*;
use crate::crypt::{
    byte_strings, cipher_parts, collect_ciphers, decrypt_object, decrypted, knows,
    law_known_is_decrypted, HandlerV, StandardHandler,
};
use crate::describe::{cat_got, cat_got_entry, got, got_entry, unexpected};
use crate::error::{outcome, PdfError};
use crate::objects::{clone_bytes, dict_get, Dict, DictV, ObjV, Object, ObjectId, Stream};
use crate::parse::{indirect_at, lengths_of, object_at, LengthSource, Lengths, NoLengths, Parser};
use crate::stream::{decode_stream, dict_integer, stream_data};
use crate::text::{cat, cat_id, cat_int, cat_nat, dec, id_text, same_text};
use crate::xref::{XrefEntry, XrefTable, XrefV};

verus! {

broadcast use vstd::std_specs::hash::group_hash_axioms;

/// A document as a mathematical value: the bytes of the file, its
/// cross-reference table, and what its encrypted parts decrypt to.
pub struct DocV {
    pub input: Seq<u8>,
    pub xref: XrefV,
    pub crypt: Option<HandlerV>,
}

/// A byte offset, or the end of the input if that comes first.
pub open spec fn place(s: Seq<u8>, offset: u64) -> int {
    if offset < s.len() {
        offset as int
    } else {
        s.len() as int
    }
}

/// The length that object `id` holds for the stream of `containing`. It must
/// be an integer at a byte offset, other than the stream itself.
pub open spec fn indirect_length(
    s: Seq<u8>,
    x: XrefV,
    id: ObjectId,
    containing: ObjectId,
) -> Result<i64, Seq<char>> {
    if id == containing {
        Err("PDF reader: stream "@ + id_text(containing) + " /Length refers to itself"@)
    } else if x.is_compressed(id.number) {
        Err(
            "PDF reader: indirect /Length "@ + id_text(id)
                + " lives in an object stream — not supported (ISO 32000-1 §7.5.7); the length object should be a direct uncompressed integer"@,
        )
    } else {
        match x.offset(id) {
            None => Err(
                "PDF reader: indirect /Length "@ + id_text(id) + " (for stream "@ + id_text(
                    containing,
                ) + ") is not in the xref table"@,
            ),
            Some(offset) => match indirect_at(s, place(s, offset), lengths_of(NoLengths)) {
                Err(e) => Err(e),
                Ok((found, o, _)) => if found != id {
                    Err(
                        "PDF reader: xref points to wrong object for indirect /Length — wanted "@
                            + id_text(id) + ", got "@ + id_text(found),
                    )
                } else {
                    match o {
                        ObjV::Integer(n) => Ok(n),
                        _ => Err(
                            "PDF reader: indirect /Length "@ + id_text(id)
                                + " target must be an integer"@ + got(o),
                        ),
                    }
                },
            },
        }
    }
}

/// An object stream taken apart: its decoded data, and for each slot the
/// number of the object and where its body begins.
pub struct ObjStmV {
    pub payload: Seq<u8>,
    pub slots: Seq<(u32, usize)>,
}

/// A number kept in 32 bits.
pub open spec fn low32(n: i64) -> u32 {
    (n as int % 0x1_0000_0000) as u32
}

/// Pair `i` of an object stream's header, at `p`, and where it ends.
#[verifier::opaque]
pub open spec fn pair_at(header: Seq<u8>, p: int, i: int) -> Result<(i64, i64, int), Seq<char>> {
    match object_at(header, p, lengths_of(NoLengths)) {
        Err(e) => Err(e),
        Ok(None) => Err("PDF reader: ObjStm header truncated at pair "@ + dec(i) + " (obj_num)"@),
        Ok(Some((a, q))) => match object_at(header, q, lengths_of(NoLengths)) {
            Err(e) => Err(e),
            Ok(None) => Err(
                "PDF reader: ObjStm header truncated at pair "@ + dec(i) + " (offset)"@,
            ),
            Ok(Some((b, r))) => match (a, b) {
                (ObjV::Integer(num), ObjV::Integer(off)) => if num < 1 || off < 0 {
                    Err(
                        "PDF reader: ObjStm header pair "@ + dec(i) + " out of range ("@ + dec(
                            num as int,
                        ) + ", "@ + dec(off as int) + ")"@,
                    )
                } else {
                    Ok((num, off, r))
                },
                _ => Err("PDF reader: ObjStm header pair "@ + dec(i) + " must be two integers"@),
            },
        },
    }
}

/// The slots of an object stream from pair `i` of its header on, read at `p`
/// of the header, behind the slots `done`.
pub open spec fn slots_from(
    header: Seq<u8>,
    p: int,
    first: int,
    len: int,
    i: int,
    n: int,
    done: Seq<(u32, usize)>,
) -> Result<Seq<(u32, usize)>, Seq<char>>
    decreases n - i,
{
    if i >= n {
        Ok(done)
    } else {
        match pair_at(header, p, i) {
            Err(e) => Err(e),
            Ok((num, off, q)) => if first + off > u64::MAX {
                Err("PDF reader: ObjStm offset overflow"@)
            } else if first + off > len {
                Err(
                    "PDF reader: ObjStm body offset "@ + dec(first + off)
                        + " past payload length "@ + dec(len),
                )
            } else {
                slots_from(
                    header,
                    q,
                    first,
                    len,
                    i + 1,
                    n,
                    done.push((low32(num), (first + off) as usize)),
                )
            },
        }
    }
}

/// An object stream taken apart.
pub open spec fn object_stream(id: ObjectId, d: DictV, data: Seq<u8>) -> Result<
    ObjStmV,
    Seq<char>,
> {
    if dict_get(d, "Type"@) != Some(ObjV::Name("ObjStm"@)) {
        Err("PDF reader: container "@ + id_text(id) + " is not /Type /ObjStm"@)
    } else {
        match (dict_integer(d, "N"@), dict_integer(d, "First"@)) {
            (Some(n), _) if n < 0 => Err(bad_objstm_n(d)),
            (None, _) => Err(bad_objstm_n(d)),
            (Some(_), Some(first)) if first < 0 => Err(bad_objstm_first(d)),
            (Some(_), None) => Err(bad_objstm_first(d)),
            (Some(n), Some(first)) => match stream_data(d, data) {
                Err(e) => Err(e),
                Ok(payload) => if first > payload.len() {
                    Err(
                        "PDF reader: ObjStm /First "@ + dec(first as int)
                            + " exceeds payload length "@ + dec(payload.len() as int),
                    )
                } else {
                    match slots_from(
                        payload.take(first as int),
                        0,
                        first as int,
                        payload.len() as int,
                        0,
                        low32(n) as int,
                        Seq::empty(),
                    ) {
                        Err(e) => Err(e),
                        Ok(slots) => Ok(ObjStmV { payload, slots }),
                    }
                },
            },
        }
    }
}

/// The number of slots of an object stream is no number that can be.
pub open spec fn bad_objstm_n(d: DictV) -> Seq<char> {
    "PDF reader: ObjStm /N must be a non-negative integer"@ + got_entry(dict_get(d, "N"@))
}

/// The place of the first body of an object stream is no number that can be.
pub open spec fn bad_objstm_first(d: DictV) -> Seq<char> {
    "PDF reader: ObjStm /First must be a non-negative integer"@ + got_entry(dict_get(d, "First"@))
}

/// The object in slot `index` of an object stream, which must be `wanted`.
pub open spec fn slot_object(c: ObjStmV, wanted: ObjectId, index: u32) -> Result<ObjV, Seq<char>> {
    if index >= c.slots.len() {
        Err(
            "PDF reader: ObjStm index "@ + dec(index as int) + " out of range (N="@ + dec(
                c.slots.len() as int,
            ) + ")"@,
        )
    } else if c.slots[index as int].0 != wanted.number {
        Err(
            "PDF reader: ObjStm slot "@ + dec(index as int) + " declares object "@ + dec(
                c.slots[index as int].0 as int,
            ) + ",but xref expected "@ + dec(wanted.number as int),
        )
    } else {
        match object_at(
            c.payload.skip(c.slots[index as int].1 as int),
            0,
            lengths_of(NoLengths),
        ) {
            Err(e) => Err(e),
            Ok(None) => Err("PDF reader: ObjStm body parse returned EOF"@),
            Ok(Some((o, _))) => Ok(o),
        }
    }
}

/// The lengths that streams of object `containing` of a file may refer to.
pub open spec fn lengths_in(s: Seq<u8>, x: XrefV, containing: ObjectId) -> Lengths {
    |id: ObjectId| indirect_length(s, x, id, containing)
}

/// The object that stands at a byte offset of a file, as it is stored.
pub open spec fn stored_object(s: Seq<u8>, x: XrefV, id: ObjectId) -> Result<ObjV, Seq<char>> {
    match x.offset(id) {
        None => Err("PDF reader: object "@ + id_text(id) + " not in xref"@),
        Some(offset) => match indirect_at(s, place(s, offset), lengths_in(s, x, id)) {
            Err(e) => Err(e),
            Ok((found, o, _)) => if found != id {
                Err(
                    "PDF reader: xref points to wrong object — wanted "@ + id_text(id) + ", got "@
                        + id_text(found),
                )
            } else {
                Ok(o)
            },
        },
    }
}

impl DocV {
    /// The lengths that streams of object `containing` may refer to.
    pub open spec fn lengths(self, containing: ObjectId) -> Lengths {
        lengths_in(self.input, self.xref, containing)
    }

    /// The object that stands at a byte offset of the file, decrypted.
    pub open spec fn plain_object(self, id: ObjectId) -> Result<ObjV, Seq<char>> {
        match stored_object(self.input, self.xref, id) {
            Err(e) => Err(e),
            Ok(o) => match self.crypt {
                None => Ok(o),
                Some(h) => decrypted(o, id, h),
            },
        }
    }

    /// The object stream with number `number`, in which `wanted` is looked for.
    pub open spec fn container(self, wanted: ObjectId, number: u32) -> Result<ObjStmV, Seq<char>> {
        let id = ObjectId { number, generation: 0 };
        if self.xref.is_compressed(number) {
            Err(
                "PDF reader: ObjStm container "@ + id_text(id) + " (for compressed object "@
                    + id_text(wanted)
                    + ") is itself declared as a Type-2 compressed entry in the xref — forbidden by ISO 32000-1 §7.5.7"@,
            )
        } else {
            match self.plain_object(id) {
                Err(e) => Err(e),
                Ok(ObjV::Stream(d, data)) => object_stream(id, d, data),
                Ok(_) => Err(
                    "PDF reader: object "@ + id_text(wanted) + " expected its container "@
                        + id_text(id) + " to be a Stream"@,
                ),
            }
        }
    }

    /// The object `id`: at its byte offset, or in its object stream.
    #[verifier::opaque]
    pub open spec fn resolve(self, id: ObjectId) -> Result<ObjV, Seq<char>> {
        match self.xref.entry(id.number) {
            Some(XrefEntry::Compressed { obj_stream_id, index_within_stream }) => {
                match self.container(id, obj_stream_id) {
                    Err(e) => Err(e),
                    Ok(c) => slot_object(c, id, index_within_stream),
                }
            },
            _ => self.plain_object(id),
        }
    }

    /// What an object stands for when references are followed, `hops` of
    /// which were followed already: at most 16 are.
    pub open spec fn deref_from(self, o: ObjV, hops: int) -> Result<ObjV, Seq<char>>
        decreases 17 - hops,
    {
        match o {
            ObjV::Reference(id) => match self.resolve(id) {
                Err(e) => Err(e),
                Ok(v) => if hops + 1 > 16 {
                    Err("PDF reader: indirect-reference chain too deep (>16 hops)"@)
                } else {
                    self.deref_from(v, hops + 1)
                },
            },
            _ => Ok(o),
        }
    }

    /// What an object stands for when references are followed.
    #[verifier::opaque]
    pub open spec fn deref(self, o: ObjV) -> Result<ObjV, Seq<char>> {
        self.deref_from(o, 0)
    }

    /// The catalogue.
    pub open spec fn catalog(self) -> Result<ObjV, Seq<char>> {
        match self.xref.root() {
            Ok(id) => self.resolve(id),
            Err(e) => Err(e),
        }
    }
}

/// The lengths of streams, looked up in a file.
struct FileLengths<'a> {
    input: &'a [u8],
    xref: &'a XrefTable,
    containing: ObjectId,
}

impl<'a> LengthSource for FileLengths<'a> {
    closed spec fn length_of(&self, id: ObjectId) -> Result<i64, Seq<char>> {
        indirect_length(self.input@, self.xref@, id, self.containing)
    }

    fn find_length(&self, id: ObjectId) -> (r: Result<i64, PdfError>) {
        resolve_indirect_length(self.input, self.xref, id, self.containing)
    }
}

/// Read the object that stands at a byte offset of a file, as it is stored.
fn read_stored(input: &[u8], xref: &XrefTable, id: ObjectId) -> (r: Result<Object, PdfError>)
    ensures
        outcome(r) == stored_object(input@, xref@, id),
{
    let offset: u64 = match xref.offset_of(id) {
        Some(o) => o,
        None => {
            let m: String = cat_id("PDF reader: object ".to_owned(), id);
            return Err(PdfError::Other(cat(m, " not in xref")));
        },
    };
    let mut p: Parser = parser_at(input, offset);
    let lengths: FileLengths = FileLengths { input, xref, containing: id };
    proof {
        assert(lengths_of(lengths) =~= lengths_in(input@, xref@, id));
    }
    match p.parse_indirect_with_lengths(&lengths) {
        Err(e) => Err(e),
        Ok((found, body)) => {
            if found != id {
                let m: String = cat_id(
                    "PDF reader: xref points to wrong object — wanted ".to_owned(),
                    id,
                );
                return Err(PdfError::Other(cat_id(cat(m, ", got "), found)));
            }
            Ok(body)
        },
    }
}

/// A parser at a byte offset of the file.
fn parser_at<'a>(input: &'a [u8], offset: u64) -> (r: Parser<'a>)
    ensures
        r.wf(),
        r.bytes() == input@,
        r.at() == place(input@, offset),
{
    let at: usize = if offset < input.len() as u64 {
        offset as usize
    } else {
        input.len()
    };
    let mut p: Parser<'a> = Parser::new(input);
    p.lexer_mut().seek(at);
    p
}

/// The length that object `id` holds for the stream of `containing`.
fn resolve_indirect_length(
    input: &[u8],
    xref: &XrefTable,
    id: ObjectId,
    containing: ObjectId,
) -> (r: Result<i64, PdfError>)
    ensures
        match r {
            Ok(n) => indirect_length(input@, xref@, id, containing) == Ok::<i64, Seq<char>>(n),
            Err(e) => indirect_length(input@, xref@, id, containing) == Err::<i64, Seq<char>>(e@),
        },
{
    if id == containing {
        let m: String = cat_id("PDF reader: stream ".to_owned(), containing);
        return Err(PdfError::Other(cat(m, " /Length refers to itself")));
    }
    if xref.is_compressed(id.number) {
        let m: String = cat_id("PDF reader: indirect /Length ".to_owned(), id);
        return Err(
            PdfError::Other(
                cat(
                    m,
                    " lives in an object stream — not supported (ISO 32000-1 §7.5.7); the length object should be a direct uncompressed integer",
                ),
            ),
        );
    }
    let offset: u64 = match xref.offset_of(id) {
        Some(o) => o,
        None => {
            let m: String = cat_id("PDF reader: indirect /Length ".to_owned(), id);
            let m: String = cat_id(cat(m, " (for stream "), containing);
            return Err(PdfError::Other(cat(m, ") is not in the xref table")));
        },
    };
    let mut p: Parser = parser_at(input, offset);
    match p.parse_indirect() {
        Err(e) => Err(e),
        Ok((found, o)) => {
            if found != id {
                let m: String = cat_id(
                    "PDF reader: xref points to wrong object for indirect /Length — wanted ".to_owned(),
                    id,
                );
                return Err(PdfError::Other(cat_id(cat(m, ", got "), found)));
            }
            match o {
                Object::Integer(n) => Ok(n),
                other => {
                    let m: String = cat_id("PDF reader: indirect /Length ".to_owned(), id);
                    Err(PdfError::Other(cat_got(cat(m, " target must be an integer"), &other)))
                },
            }
        },
    }
}

/// An object stream taken apart.
struct ObjStmDecoded {
    payload: Vec<u8>,
    slots: Vec<(u32, usize)>,
}

impl View for ObjStmDecoded {
    type V = ObjStmV;

    closed spec fn view(&self) -> ObjStmV {
        ObjStmV { payload: self.payload@, slots: self.slots@ }
    }
}

/// An open document. Objects are read when they are asked for and kept.
pub struct DocumentReader<'a> {
    input: &'a [u8],
    xref: XrefTable,
    crypt: Option<StandardHandler>,
    cache: HashMap<u64, Object>,
    objstm_cache: HashMap<u32, ObjStmDecoded>,
}

/// The key under which an object is kept.
pub open spec fn cache_key(id: ObjectId) -> u64 {
    (id.number * 65536 + id.generation) as u64
}

fn key_of(id: ObjectId) -> (r: u64)
    ensures
        r == cache_key(id),
{
    id.number as u64 * 65536 + id.generation as u64
}

/// Different objects are kept under different keys.
pub(crate) proof fn lemma_key(a: ObjectId, b: ObjectId)
    requires
        cache_key(a) == cache_key(b),
    ensures
        a == b,
{
    assert(a.number * 65536 + a.generation <= u64::MAX);
    assert(b.number * 65536 + b.generation <= u64::MAX);
}

impl<'a> DocumentReader<'a> {
    /// The document that is read.
    pub closed spec fn doc(&self) -> DocV {
        DocV {
            input: self.input@,
            xref: self.xref@,
            crypt: match self.crypt {
                Some(h) => Some(h@),
                None => None,
            },
        }
    }

    /// Everything that is kept is what reading it again would give.
    pub closed spec fn wf(&self) -> bool {
        &&& forall|id: ObjectId|
            self.cache@.contains_key(#[trigger] cache_key(id)) ==> self.doc().resolve(id) == Ok::<
                ObjV,
                Seq<char>,
            >(self.cache@[cache_key(id)]@)
        &&& forall|n: u32, wanted: ObjectId|
            self.objstm_cache@.contains_key(n) ==> #[trigger] self.doc().container(wanted, n)
                == Ok::<ObjStmV, Seq<char>>(self.objstm_cache@[n]@)
    }

    /// Decode the object `id`, from what is kept or from the file.
    pub fn resolve(&mut self, id: ObjectId) -> (r: Result<Object, PdfError>)
        requires
            old(self).wf(),
        ensures
            final(self).wf(),
            final(self).doc() == old(self).doc(),
            outcome(r) == old(self).doc().resolve(id),
    {
        proof {
            reveal(DocV::resolve);
        }
        let key: u64 = key_of(id);
        if let Some(o) = self.cache.get(&key) {
            return Ok(o.clone());
        }
        let body: Object = match self.xref.entry(id.number) {
            Some(XrefEntry::Compressed { obj_stream_id, index_within_stream }) => {
                match self.resolve_compressed(id, obj_stream_id, index_within_stream) {
                    Ok(o) => o,
                    Err(e) => {
                        return Err(e);
                    },
                }
            },
            _ => {
                match self.read_plain(id) {
                    Ok(o) => o,
                    Err(e) => {
                        return Err(e);
                    },
                }
            },
        };
        self.keep(id, &body);
        Ok(body)
    }

    /// Keep an object that was read.
    fn keep(&mut self, id: ObjectId, body: &Object)
        requires
            old(self).wf(),
            old(self).doc().resolve(id) == Ok::<ObjV, Seq<char>>(body@),
        ensures
            final(self).wf(),
            final(self).doc() == old(self).doc(),
    {
        let copy: Object = body.clone();
        self.cache.insert(key_of(id), copy);
        proof {
            assert forall|other: ObjectId|
                self.cache@.contains_key(#[trigger] cache_key(other)) implies self.doc().resolve(
                other,
            ) == Ok::<ObjV, Seq<char>>(self.cache@[cache_key(other)]@) by {
                if cache_key(other) == cache_key(id) {
                    lemma_key(other, id);
                }
            }
        }
    }

    /// Read the object that stands at a byte offset of the file.
    fn read_plain(&self, id: ObjectId) -> (r: Result<Object, PdfError>)
        ensures
            outcome(r) == self.doc().plain_object(id),
    {
        match read_stored(self.input, &self.xref, id) {
            Err(e) => Err(e),
            Ok(body) => match &self.crypt {
                None => Ok(body),
                Some(h) => decrypt_object(&body, id, h),
            },
        }
    }

    /// Read an object out of its object stream, which is kept.
    fn resolve_compressed(&mut self, wanted: ObjectId, number: u32, index: u32) -> (r: Result<
        Object,
        PdfError,
    >)
        requires
            old(self).wf(),
            old(self).doc().xref.is_compressed(wanted.number),
        ensures
            final(self).wf(),
            final(self).doc() == old(self).doc(),
            outcome(r) == match old(self).doc().container(wanted, number) {
                Err(e) => Err::<ObjV, Seq<char>>(e),
                Ok(c) => slot_object(c, wanted, index),
            },
    {
        if let Some(decoded) = self.objstm_cache.get(&number) {
            proof {
                assert(self.doc().container(wanted, number) == Ok::<ObjStmV, Seq<char>>(decoded@));
                assert(decoded.payload@.len() == decoded.payload.len());
                lemma_container_within(self.doc(), wanted, number, decoded@);
            }
            return slot_from_decoded(decoded, wanted, index);
        }
        let decoded: ObjStmDecoded = match self.decode_objstm_container(wanted, number) {
            Ok(d) => d,
            Err(e) => {
                return Err(e);
            },
        };
        proof {
            assert(decoded.payload@.len() == decoded.payload.len());
            lemma_container_within(self.doc(), wanted, number, decoded@);
        }
        let body: Result<Object, PdfError> = slot_from_decoded(&decoded, wanted, index);
        if body.is_ok() {
            let ghost before = *self;
            self.objstm_cache.insert(number, decoded);
            proof {
                assert forall|n: u32, other: ObjectId|
                    self.objstm_cache@.contains_key(n) implies #[trigger] self.doc().container(
                    other,
                    n,
                ) == Ok::<ObjStmV, Seq<char>>(self.objstm_cache@[n]@) by {
                    assert(before.doc() == self.doc());
                    if n == number {
                        lemma_container_same(self.doc(), wanted, other, n);
                    } else {
                        assert(before.doc().container(other, n) == Ok::<ObjStmV, Seq<char>>(
                            before.objstm_cache@[n]@,
                        ));
                    }
                }
            }
        }
        body
    }

    /// Read an object stream and take it apart.
    fn decode_objstm_container(&mut self, wanted: ObjectId, number: u32) -> (r: Result<
        ObjStmDecoded,
        PdfError,
    >)
        requires
            old(self).wf(),
        ensures
            final(self).wf(),
            final(self).doc() == old(self).doc(),
            outcome(r) == old(self).doc().container(wanted, number),
    {
        let id: ObjectId = ObjectId::new(number);
        if self.xref.is_compressed(number) {
            let m: String = cat_id("PDF reader: ObjStm container ".to_owned(), id);
            let m: String = cat_id(cat(m, " (for compressed object "), wanted);
            return Err(
                PdfError::Other(
                    cat(
                        m,
                        ") is itself declared as a Type-2 compressed entry in the xref — forbidden by ISO 32000-1 §7.5.7",
                    ),
                ),
            );
        }
        proof {
            reveal(DocV::resolve);
        }
        let key: u64 = key_of(id);
        let mut known: Option<Object> = None;
        if let Some(o) = self.cache.get(&key) {
            known = Some(o.clone());
        }
        let body: Object = match known {
            Some(o) => o,
            None => match self.read_plain(id) {
                Ok(o) => {
                    self.keep(id, &o);
                    o
                },
                Err(e) => {
                    return Err(e);
                },
            },
        };
        match body {
            Object::Stream(s) => take_apart(id, &s),
            _ => {
                let m: String = cat_id("PDF reader: object ".to_owned(), wanted);
                let m: String = cat_id(cat(m, " expected its container "), id);
                Err(PdfError::Other(cat(m, " to be a Stream")))
            },
        }
    }

    /// Follow references until something else comes, 16 of them at most.
    pub fn deref(&mut self, obj: Object) -> (r: Result<Object, PdfError>)
        requires
            old(self).wf(),
        ensures
            final(self).wf(),
            final(self).doc() == old(self).doc(),
            outcome(r) == old(self).doc().deref(obj@),
    {
        proof {
            reveal(DocV::deref);
        }
        let mut cur: Object = obj;
        let mut hops: usize = 0;
        let ghost goal = self.doc().deref(cur@);
        loop
            invariant
                self.wf(),
                self.doc() == old(self).doc(),
                hops <= 16,
                goal == old(self).doc().deref(obj@),
                goal == self.doc().deref_from(cur@, hops as int),
            decreases 17 - hops,
        {
            let id: ObjectId = match &cur {
                Object::Reference(id) => *id,
                _ => {
                    return Ok(cur);
                },
            };
            match self.resolve(id) {
                Ok(v) => {
                    hops = hops + 1;
                    if hops > 16 {
                        return Err(
                            PdfError::other(
                                "PDF reader: indirect-reference chain too deep (>16 hops)",
                            ),
                        );
                    }
                    cur = v;
                },
                Err(e) => {
                    return Err(e);
                },
            }
        }
    }
}

/// Every body of an object stream begins within its data.
proof fn lemma_slots_within(
    header: Seq<u8>,
    p: int,
    first: int,
    len: int,
    i: int,
    n: int,
    done: Seq<(u32, usize)>,
)
    requires
        0 <= first <= len <= usize::MAX,
        forall|k: int| 0 <= k < done.len() ==> (#[trigger] done[k]).1 <= len,
    ensures
        slots_from(header, p, first, len, i, n, done) matches Ok(slots) ==> forall|k: int|
            0 <= k < slots.len() ==> (#[trigger] slots[k]).1 <= len,
    decreases n - i,
{
    if i < n {
        reveal(pair_at);
        match pair_at(header, p, i) {
            Ok((num, off, q)) => {
                if first + off <= len {
                    lemma_slots_within(
                        header,
                        q,
                        first,
                        len,
                        i + 1,
                        n,
                        done.push((low32(num), (first + off) as usize)),
                    );
                }
            },
            _ => {},
        }
    }
}

/// Every body of an object stream begins within its data.
proof fn lemma_container_within(doc: DocV, wanted: ObjectId, number: u32, c: ObjStmV)
    requires
        doc.container(wanted, number) == Ok::<ObjStmV, Seq<char>>(c),
        c.payload.len() <= usize::MAX,
    ensures
        forall|k: int| 0 <= k < c.slots.len() ==> (#[trigger] c.slots[k]).1 <= c.payload.len(),
{
    let id = ObjectId { number, generation: 0 };
    match doc.plain_object(id) {
        Ok(ObjV::Stream(d, data)) => {
            match (dict_integer(d, "N"@), dict_integer(d, "First"@)) {
                (Some(n), Some(first)) => {
                    lemma_slots_within(
                        c.payload.take(first as int),
                        0,
                        first as int,
                        c.payload.len() as int,
                        0,
                        low32(n) as int,
                        Seq::empty(),
                    );
                },
                _ => {},
            }
        },
        _ => {},
    }
}

/// An object stream does not depend on what is looked for in it.
proof fn lemma_container_same(doc: DocV, a: ObjectId, b: ObjectId, number: u32)
    requires
        doc.container(a, number) is Ok,
    ensures
        doc.container(b, number) == doc.container(a, number),
{
}

/// The object in slot `index` of an object stream.
fn slot_from_decoded(decoded: &ObjStmDecoded, wanted: ObjectId, index: u32) -> (r: Result<
    Object,
    PdfError,
>)
    requires
        forall|i: int|
            0 <= i < decoded.slots@.len() ==> (#[trigger] decoded.slots@[i]).1
                <= decoded.payload@.len(),
    ensures
        outcome(r) == slot_object(decoded@, wanted, index),
{
    let n: usize = decoded.slots.len();
    if index as usize >= n {
        let m: String = cat_nat("PDF reader: ObjStm index ".to_owned(), index as u64);
        let m: String = cat_nat(cat(m, " out of range (N="), n as u64);
        return Err(PdfError::Other(cat(m, ")")));
    }
    let (number, at) = decoded.slots[index as usize];
    if number != wanted.number {
        let m: String = cat_nat("PDF reader: ObjStm slot ".to_owned(), index as u64);
        let m: String = cat_nat(cat(m, " declares object "), number as u64);
        let m: String = cat_nat(cat(m, ",but xref expected "), wanted.number as u64);
        return Err(PdfError::Other(m));
    }
    let body: &[u8] = vstd::slice::slice_subrange(
        decoded.payload.as_slice(),
        at,
        decoded.payload.len(),
    );
    proof {
        assert(body@ =~= decoded.payload@.skip(at as int));
    }
    let mut p: Parser = Parser::new(body);
    match p.parse_object() {
        Ok(Some(o)) => Ok(o),
        Ok(None) => Err(PdfError::other("PDF reader: ObjStm body parse returned EOF")),
        Err(e) => Err(e),
    }
}

/// Take an object stream apart.
fn take_apart(id: ObjectId, s: &Stream) -> (r: Result<ObjStmDecoded, PdfError>)
    ensures
        outcome(r) == object_stream(id, s.dict@, s.data@),
{
    let is_objstm: bool = match s.dict.get("Type") {
        Some(Object::Name(n)) => same_text(n.as_str(), "ObjStm"),
        _ => false,
    };
    if !is_objstm {
        let m: String = cat_id("PDF reader: container ".to_owned(), id);
        return Err(PdfError::Other(cat(m, " is not /Type /ObjStm")));
    }
    let n: i64 = match s.dict.get("N") {
        Some(Object::Integer(v)) if *v >= 0 => *v,
        other => {
            let m: String = "PDF reader: ObjStm /N must be a non-negative integer".to_owned();
            return Err(PdfError::Other(cat_got_entry(m, other)));
        },
    };
    let first: i64 = match s.dict.get("First") {
        Some(Object::Integer(v)) if *v >= 0 => *v,
        other => {
            let m: String = "PDF reader: ObjStm /First must be a non-negative integer".to_owned();
            return Err(PdfError::Other(cat_got_entry(m, other)));
        },
    };
    let payload: Vec<u8> = match decode_stream(s) {
        Ok(v) => v,
        Err(e) => {
            return Err(e);
        },
    };
    if first as u64 > payload.len() as u64 {
        let m: String = cat_int("PDF reader: ObjStm /First ".to_owned(), first);
        let m: String = cat_nat(cat(m, " exceeds payload length "), payload.len() as u64);
        return Err(PdfError::Other(m));
    }
    let base: usize = first as usize;
    let header: &[u8] = vstd::slice::slice_subrange(payload.as_slice(), 0, base);
    proof {
        assert(header@ =~= payload@.take(base as int));
    }
    let count: u32 = (n as u64 % 0x1_0000_0000) as u32;
    match read_slots(header, base, payload.len(), count) {
        Ok(slots) => Ok(ObjStmDecoded { payload, slots }),
        Err(e) => Err(e),
    }
}

/// Read pair `i` of an object stream's header.
fn read_pair(p: &mut Parser, i: u32) -> (r: Result<(i64, i64), PdfError>)
    requires
        old(p).wf(),
    ensures
        final(p).wf(),
        final(p).bytes() == old(p).bytes(),
        match r {
            Ok((num, off)) => pair_at(old(p).bytes(), old(p).at(), i as int) == Ok::<
                (i64, i64, int),
                Seq<char>,
            >((num, off, final(p).at())) && num >= 1 && off >= 0,
            Err(e) => pair_at(old(p).bytes(), old(p).at(), i as int) == Err::<
                (i64, i64, int),
                Seq<char>,
            >(e@),
        },
{
    proof {
        reveal(pair_at);
    }
    let a: Object = match p.parse_object() {
        Ok(Some(o)) => o,
        Ok(None) => {
            let m: String = cat_nat(
                "PDF reader: ObjStm header truncated at pair ".to_owned(),
                i as u64,
            );
            return Err(PdfError::Other(cat(m, " (obj_num)")));
        },
        Err(e) => {
            return Err(e);
        },
    };
    let b: Object = match p.parse_object() {
        Ok(Some(o)) => o,
        Ok(None) => {
            let m: String = cat_nat(
                "PDF reader: ObjStm header truncated at pair ".to_owned(),
                i as u64,
            );
            return Err(PdfError::Other(cat(m, " (offset)")));
        },
        Err(e) => {
            return Err(e);
        },
    };
    let (num, off): (i64, i64) = match (&a, &b) {
        (Object::Integer(x), Object::Integer(y)) => (*x, *y),
        _ => {
            let m: String = cat_nat("PDF reader: ObjStm header pair ".to_owned(), i as u64);
            return Err(PdfError::Other(cat(m, " must be two integers")));
        },
    };
    if num < 1 || off < 0 {
        let m: String = cat_nat("PDF reader: ObjStm header pair ".to_owned(), i as u64);
        let m: String = cat_int(cat(m, " out of range ("), num);
        let m: String = cat_int(cat(m, ", "), off);
        return Err(PdfError::Other(cat(m, ")")));
    }
    Ok((num, off))
}

/// Read the header of an object stream.
fn read_slots(header: &[u8], first: usize, len: usize, n: u32) -> (r: Result<
    Vec<(u32, usize)>,
    PdfError,
>)
    requires
        first <= len,
    ensures
        outcome(r) == slots_from(
            header@,
            0,
            first as int,
            len as int,
            0,
            n as int,
            Seq::empty(),
        ),
{
    let mut slots: Vec<(u32, usize)> = Vec::new();
    let mut p: Parser = Parser::new(header);
    let ghost goal = slots_from(header@, 0, first as int, len as int, 0, n as int, Seq::empty());
    let mut i: u32 = 0;
    while i < n
        invariant
            p.wf(),
            p.bytes() == header@,
            first <= len,
            i <= n,
            goal == slots_from(header@, 0, first as int, len as int, 0, n as int, Seq::empty()),
            goal == slots_from(
                header@,
                p.at(),
                first as int,
                len as int,
                i as int,
                n as int,
                slots@,
            ),
        decreases n - i,
    {
        let (num, off): (i64, i64) = match read_pair(&mut p, i) {
            Ok(v) => v,
            Err(e) => {
                return Err(e);
            },
        };
        let at: u64 = match (first as u64).checked_add(off as u64) {
            Some(v) => v,
            None => {
                return Err(PdfError::other("PDF reader: ObjStm offset overflow"));
            },
        };
        if at > len as u64 {
            let m: String = cat_nat("PDF reader: ObjStm body offset ".to_owned(), at);
            let m: String = cat_nat(cat(m, " past payload length "), len as u64);
            return Err(PdfError::Other(m));
        }
        slots.push(((num as u64 % 0x1_0000_0000) as u32, at as usize));
        i = i + 1;
    }
    Ok(slots)
}

// ---------------------------------------------------------------- opening

/// The encryption dictionary of a file, if it has one.
pub open spec fn encryption_dict(s: Seq<u8>, x: XrefV) -> Result<Option<DictV>, Seq<char>> {
    match dict_get(x.trailer, "Encrypt"@) {
        None => Ok(None),
        Some(ObjV::Dict(d)) => Ok(Some(d)),
        Some(ObjV::Reference(id)) => match x.offset(id) {
            None => Err("PDF reader: /Encrypt refers to missing object"@),
            Some(offset) => match indirect_at(s, place(s, offset), lengths_of(NoLengths)) {
                Err(e) => Err(e),
                Ok((_, ObjV::Dict(d), _)) => Ok(Some(d)),
                Ok((_, o, _)) => Err("PDF reader: /Encrypt must resolve to a dict"@ + got(o)),
            },
        },
        Some(o) => Err("PDF reader: /Encrypt must be a dict or reference"@ + got(o)),
    }
}

/// The permanent identifier of a file, without which it cannot be decrypted.
pub open spec fn file_identifier(x: XrefV) -> Result<Seq<u8>, Seq<char>> {
    match dict_get(x.trailer, "ID"@) {
        None => Err("PDF reader: encrypted PDF missing /ID in trailer"@),
        Some(ObjV::Array(items)) => if items.len() == 0 {
            Err("PDF reader: trailer /ID array is empty"@)
        } else {
            match items[0] {
                ObjV::LiteralString(b) => Ok(b),
                ObjV::HexString(b) => Ok(b),
                o => Err("PDF reader: /ID[0] must be a string"@ + got(o)),
            }
        },
        Some(_) => Err("PDF reader: /ID must be an array"@),
    }
}

/// What a password is tried on: the encryption dictionary and the file
/// identifier. `None` for a file that is not encrypted.
pub open spec fn password_inputs(s: Seq<u8>, x: XrefV) -> Result<
    Option<(DictV, Seq<u8>)>,
    Seq<char>,
> {
    match encryption_dict(s, x) {
        Err(e) => Err(e),
        Ok(None) => Ok(None),
        Ok(Some(d)) => match file_identifier(x) {
            Err(e) => Err(e),
            Ok(b) => Ok(Some((d, b))),
        },
    }
}

/// What a password is tried on.
pub struct EncryptionInputs {
    pub dict: Dict,
    pub file_id: Vec<u8>,
}

fn find_encryption_dict(input: &[u8], xref: &XrefTable) -> (r: Result<Option<Dict>, PdfError>)
    ensures
        match r {
            Ok(Some(d)) => encryption_dict(input@, xref@) == Ok::<Option<DictV>, Seq<char>>(
                Some(d@),
            ),
            Ok(None) => encryption_dict(input@, xref@) == Ok::<Option<DictV>, Seq<char>>(None),
            Err(e) => encryption_dict(input@, xref@) == Err::<Option<DictV>, Seq<char>>(e@),
        },
{
    match xref.trailer.get("Encrypt") {
        None => Ok(None),
        Some(Object::Dict(d)) => Ok(Some(d.clone())),
        Some(Object::Reference(id)) => {
            let offset: u64 = match xref.offset_of(*id) {
                Some(o) => o,
                None => {
                    return Err(PdfError::other("PDF reader: /Encrypt refers to missing object"));
                },
            };
            let mut p: Parser = parser_at(input, offset);
            match p.parse_indirect() {
                Err(e) => Err(e),
                Ok((_, Object::Dict(d))) => Ok(Some(d)),
                Ok((_, o)) => Err(unexpected("PDF reader: /Encrypt must resolve to a dict", &o)),
            }
        },
        Some(o) => Err(unexpected("PDF reader: /Encrypt must be a dict or reference", o)),
    }
}

fn find_file_identifier(xref: &XrefTable) -> (r: Result<Vec<u8>, PdfError>)
    ensures
        outcome(r) == file_identifier(xref@),
{
    match xref.trailer.get("ID") {
        None => Err(PdfError::other("PDF reader: encrypted PDF missing /ID in trailer")),
        Some(Object::Array(items)) => {
            proof {
                crate::objects::lemma_array_view(*items);
            }
            if items.len() == 0 {
                return Err(PdfError::other("PDF reader: trailer /ID array is empty"));
            }
            proof {
                assert(crate::objects::objs_view(items@)[0] == items@[0]@);
            }
            match &items[0] {
                Object::LiteralString(b) => Ok(clone_bytes(b)),
                Object::HexString(b) => Ok(clone_bytes(b)),
                o => Err(unexpected("PDF reader: /ID[0] must be a string", o)),
            }
        },
        Some(_) => Err(PdfError::other("PDF reader: /ID must be an array")),
    }
}

/// What a password is tried on; `None` for a file that is not encrypted.
pub fn encryption_inputs(input: &[u8], xref: &XrefTable) -> (r: Result<
    Option<EncryptionInputs>,
    PdfError,
>)
    ensures
        match r {
            Ok(Some(i)) => password_inputs(input@, xref@) == Ok::<
                Option<(DictV, Seq<u8>)>,
                Seq<char>,
            >(Some((i.dict@, i.file_id@))),
            Ok(None) => password_inputs(input@, xref@) == Ok::<
                Option<(DictV, Seq<u8>)>,
                Seq<char>,
            >(None),
            Err(e) => password_inputs(input@, xref@) == Err::<
                Option<(DictV, Seq<u8>)>,
                Seq<char>,
            >(e@),
        },
{
    match find_encryption_dict(input, xref) {
        Err(e) => Err(e),
        Ok(None) => Ok(None),
        Ok(Some(dict)) => match find_file_identifier(xref) {
            Err(e) => Err(e),
            Ok(file_id) => Ok(Some(EncryptionInputs { dict, file_id })),
        },
    }
}

/// The byte strings of object `id` that may have to be decrypted to read it.
pub open spec fn object_ciphers(s: Seq<u8>, x: XrefV, id: ObjectId) -> Result<
    Seq<Seq<u8>>,
    Seq<char>,
> {
    match stored_object(s, x, id) {
        Ok(o) => Ok(cipher_parts(o)),
        Err(e) => Err(e),
    }
}

/// The byte strings of an object that may have to be decrypted to read it: what
/// an unlocked handler has to know the plaintexts of. Objects that lie in an
/// object stream have none of their own.
pub fn ciphertexts(input: &[u8], xref: &XrefTable, id: ObjectId) -> (r: Result<
    Vec<Vec<u8>>,
    PdfError,
>)
    ensures
        match r {
            Ok(v) => object_ciphers(input@, xref@, id) == Ok::<Seq<Seq<u8>>, Seq<char>>(
                byte_strings(v@),
            ),
            Err(e) => object_ciphers(input@, xref@, id) == Err::<Seq<Seq<u8>>, Seq<char>>(e@),
        },
{
    match read_stored(input, xref, id) {
        Err(e) => Err(e),
        Ok(o) => {
            let mut out: Vec<Vec<u8>> = Vec::new();
            proof {
                assert(byte_strings(out@) =~= Seq::empty());
                assert(byte_strings(out@) + cipher_parts(o@) =~= cipher_parts(o@));
            }
            collect_ciphers(&o, &mut out);
            Ok(out)
        },
    }
}

/// What an optional handler stands for.
pub open spec fn opt_handler(h: Option<StandardHandler>) -> Option<HandlerV> {
    match h {
        Some(v) => Some(v@),
        None => None,
    }
}

/// The handler that a file is read with when a password was tried on it:
/// none if it is not encrypted, and otherwise the one that was unlocked.
pub open spec fn password_crypt(
    s: Seq<u8>,
    x: XrefV,
    unlocked: Option<HandlerV>,
) -> Result<Option<HandlerV>, Seq<char>> {
    match password_inputs(s, x) {
        Err(e) => Err(e),
        Ok(None) => Ok(None),
        Ok(Some(_)) => match unlocked {
            Some(h) => Ok(Some(h)),
            None => Err("PDF reader: wrong password (or PDF requires owner password)"@),
        },
    }
}

/// The handler that a file is read with when a certificate was tried on it.
pub open spec fn certificate_crypt(
    s: Seq<u8>,
    x: XrefV,
    unlocked: Option<HandlerV>,
) -> Result<Option<HandlerV>, Seq<char>> {
    match encryption_dict(s, x) {
        Err(e) => Err(e),
        Ok(None) => Ok(None),
        Ok(Some(_)) => match unlocked {
            Some(h) => Ok(Some(h)),
            None => Err(
                "PDF reader: certificate did not match any recipient in /Recipients"@,
            ),
        },
    }
}

/// `r` is a document over the given file, read with the given handler.
pub open spec fn opened(
    r: Result<DocumentReader, PdfError>,
    s: Seq<u8>,
    x: XrefV,
    crypt: Result<Option<HandlerV>, Seq<char>>,
) -> bool {
    match r {
        Ok(reader) => reader.wf() && crypt is Ok && reader.doc() == (DocV {
            input: s,
            xref: x,
            crypt: crypt->Ok_0,
        }),
        Err(e) => crypt == Err::<Option<HandlerV>, Seq<char>>(e@),
    }
}

impl<'a> DocumentReader<'a> {
    /// A document of which nothing was read yet.
    fn over(input: &'a [u8], xref: XrefTable, crypt: Option<StandardHandler>) -> (r: DocumentReader<
        'a,
    >)
        ensures
            r.wf(),
            r.doc() == (DocV { input: input@, xref: xref@, crypt: opt_handler(crypt) }),
    {
        DocumentReader {
            input,
            xref,
            crypt,
            cache: HashMap::new(),
            objstm_cache: HashMap::new(),
        }
    }

    /// Open a file without a password. The empty password is tried on its
    /// [`encryption_inputs`]; `unlocked` is the handler that it unlocked, if it
    /// did. Files that are not encrypted open whatever it is.
    pub fn open(input: &'a [u8], xref: XrefTable, unlocked: Option<StandardHandler>) -> (r: Result<
        DocumentReader<'a>,
        PdfError,
    >)
        ensures
            opened(r, input@, xref@, password_crypt(input@, xref@, opt_handler(unlocked))),
    {
        DocumentReader::open_with_password(input, xref, unlocked)
    }

    /// Open a file on whose [`encryption_inputs`] a password was tried;
    /// `unlocked` is the handler that it unlocked, if it did.
    pub fn open_with_password(
        input: &'a [u8],
        xref: XrefTable,
        unlocked: Option<StandardHandler>,
    ) -> (r: Result<DocumentReader<'a>, PdfError>)
        ensures
            opened(r, input@, xref@, password_crypt(input@, xref@, opt_handler(unlocked))),
    {
        match encryption_inputs(input, &xref) {
            Err(e) => Err(e),
            Ok(None) => Ok(DocumentReader::over(input, xref, None)),
            Ok(Some(_)) => match unlocked {
                Some(h) => Ok(DocumentReader::over(input, xref, Some(h))),
                None => Err(
                    PdfError::other("PDF reader: wrong password (or PDF requires owner password)"),
                ),
            },
        }
    }

    /// Open a file on whose encryption dictionary a certificate was tried;
    /// `unlocked` is the handler that it unlocked, if it did.
    pub fn open_with_certificate(
        input: &'a [u8],
        xref: XrefTable,
        unlocked: Option<StandardHandler>,
    ) -> (r: Result<DocumentReader<'a>, PdfError>)
        ensures
            opened(r, input@, xref@, certificate_crypt(input@, xref@, opt_handler(unlocked))),
    {
        match find_encryption_dict(input, &xref) {
            Err(e) => Err(e),
            Ok(None) => Ok(DocumentReader::over(input, xref, None)),
            Ok(Some(_)) => match unlocked {
                Some(h) => Ok(DocumentReader::over(input, xref, Some(h))),
                None => Err(
                    PdfError::other(
                        "PDF reader: certificate did not match any recipient in /Recipients",
                    ),
                ),
            },
        }
    }

    /// Open a file on whose encryption dictionary a certificate was tried
    /// with the help of a trust store.
    pub fn open_with_certificate_and_trust_store(
        input: &'a [u8],
        xref: XrefTable,
        unlocked: Option<StandardHandler>,
    ) -> (r: Result<DocumentReader<'a>, PdfError>)
        ensures
            opened(r, input@, xref@, certificate_crypt(input@, xref@, opt_handler(unlocked))),
    {
        DocumentReader::open_with_certificate(input, xref, unlocked)
    }

    /// The cross-reference table.
    pub fn xref(&self) -> (r: &XrefTable)
        ensures
            r@ == self.doc().xref,
    {
        &self.xref
    }

    /// The bytes of the file.
    pub fn input(&self) -> (r: &'a [u8])
        ensures
            r@ == self.doc().input,
    {
        self.input
    }

    /// The file is encrypted and was unlocked.
    pub fn is_encrypted(&self) -> (r: bool)
        ensures
            r == self.doc().crypt is Some,
    {
        self.crypt.is_some()
    }

    /// The catalogue, as it is.
    pub(crate) fn catalog(&mut self) -> (r: Result<Object, PdfError>)
        requires
            old(self).wf(),
        ensures
            final(self).wf(),
            final(self).doc() == old(self).doc(),
            outcome(r) == old(self).doc().catalog(),
    {
        match self.xref.root() {
            Ok(id) => self.resolve(id),
            Err(e) => Err(e),
        }
    }

    /// How many references can follow one another without a cycle.
    pub(crate) fn chain_limit(&self) -> (r: usize)
        ensures
            r == self.doc().longest_chain(),
    {
        let n: usize = self.xref.entries.len();
        if n <= (usize::MAX - 2) / 2 {
            2 * n + 2
        } else {
            usize::MAX
        }
    }

    /// Decode the stream `id`.
    pub(crate) fn extract_stream_data(&mut self, id: ObjectId) -> (r: Result<Vec<u8>, PdfError>)
        requires
            old(self).wf(),
        ensures
            final(self).wf(),
            final(self).doc() == old(self).doc(),
            outcome(r) == old(self).doc().stream_bytes(id),
    {
        proof {
            reveal(DocV::stream_bytes);
        }
        match self.resolve(id) {
            Err(e) => Err(e),
            Ok(Object::Stream(s)) => decode_stream(&s),
            Ok(o) => {
                let m: String = cat_id("PDF reader: object ".to_owned(), id);
                Err(PdfError::Other(cat_got(cat(m, " expected to be a Stream"), &o)))
            },
        }
    }

    /// The XMP metadata of the document, decoded; `None` if it has none.
    pub fn xmp_metadata(&mut self) -> (r: Result<Option<Vec<u8>>, PdfError>)
        requires
            old(self).wf(),
        ensures
            final(self).wf(),
            final(self).doc() == old(self).doc(),
            match r {
                Ok(b) => old(self).doc().metadata() == Ok::<Option<Seq<u8>>, Seq<char>>(
                    crate::filters::opt_bytes(b),
                ),
                Err(e) => old(self).doc().metadata() == Err::<Option<Seq<u8>>, Seq<char>>(e@),
            },
    {
        proof {
            reveal(DocV::metadata);
        }
        let catalog: Dict = match self.catalog() {
            Err(e) => {
                return Err(e);
            },
            Ok(Object::Dict(d)) => d,
            Ok(o) => {
                return Err(unexpected("PDF reader: /Root must be a dictionary", &o));
            },
        };
        let found: Object = match catalog.get("Metadata") {
            None => {
                return Ok(None);
            },
            Some(Object::Reference(id)) => match self.resolve(*id) {
                Ok(o) => o,
                Err(e) => {
                    return Err(e);
                },
            },
            Some(o) => o.clone(),
        };
        match found {
            Object::Stream(s) => match decode_stream(&s) {
                Ok(b) => Ok(Some(b)),
                Err(e) => Err(e),
            },
            o => Err(unexpected("PDF reader: catalog /Metadata must resolve to a Stream", &o)),
        }
    }
}

impl DocV {
    /// The decoded data of the stream `id`.
    #[verifier::opaque]
    pub open spec fn stream_bytes(self, id: ObjectId) -> Result<Seq<u8>, Seq<char>> {
        match self.resolve(id) {
            Err(e) => Err(e),
            Ok(ObjV::Stream(d, data)) => stream_data(d, data),
            Ok(o) => Err(
                "PDF reader: object "@ + id_text(id) + " expected to be a Stream"@ + got(o),
            ),
        }
    }

    /// An object, or the object that it refers to directly.
    pub open spec fn one_hop(self, o: ObjV) -> Result<ObjV, Seq<char>> {
        match o {
            ObjV::Reference(id) => self.resolve(id),
            _ => Ok(o),
        }
    }

    /// The XMP metadata of the document, decoded.
    #[verifier::opaque]
    pub open spec fn metadata(self) -> Result<Option<Seq<u8>>, Seq<char>> {
        match self.catalog() {
            Err(e) => Err(e),
            Ok(ObjV::Dict(d)) => match dict_get(d, "Metadata"@) {
                None => Ok(None),
                Some(o) => match self.one_hop(o) {
                    Err(e) => Err(e),
                    Ok(ObjV::Stream(d, data)) => match stream_data(d, data) {
                        Ok(b) => Ok(Some(b)),
                        Err(e) => Err(e),
                    },
                    Ok(o) => Err(
                        "PDF reader: catalog /Metadata must resolve to a Stream"@ + got(o),
                    ),
                },
            },
            Ok(o) => Err("PDF reader: /Root must be a dictionary"@ + got(o)),
        }
    }
}

// ------------------------------------------------------------------- laws

/// Following references never ends at a reference.
pub proof fn law_deref_not_reference(doc: DocV, o: ObjV)
    ensures
        doc.deref(o) matches Ok(v) ==> !(v is Reference),
{
    reveal(DocV::deref);
    lemma_deref_from(doc, o, 0);
}

proof fn lemma_deref_from(doc: DocV, o: ObjV, hops: int)
    ensures
        doc.deref_from(o, hops) matches Ok(v) ==> !(v is Reference),
    decreases 17 - hops,
{
    match o {
        ObjV::Reference(id) => match doc.resolve(id) {
            Ok(v) => {
                if hops + 1 <= 16 {
                    lemma_deref_from(doc, v, hops + 1);
                }
            },
            _ => {},
        },
        _ => {},
    }
}

/// What is no reference stands for itself.
pub proof fn law_deref_direct(doc: DocV, o: ObjV)
    requires
        !(o is Reference),
    ensures
        doc.deref(o) == Ok::<ObjV, Seq<char>>(o),
{
    reveal(DocV::deref);
}

/// Following references twice is following them once.
pub proof fn law_deref_twice(doc: DocV, o: ObjV, v: ObjV)
    requires
        doc.deref(o) == Ok::<ObjV, Seq<char>>(v),
    ensures
        doc.deref(v) == Ok::<ObjV, Seq<char>>(v),
{
    law_deref_not_reference(doc, o);
    law_deref_direct(doc, v);
}

/// A stream whose `/Length` refers to an integer elsewhere in the file has
/// that many bytes.
pub proof fn law_indirect_length(
    doc: DocV,
    containing: ObjectId,
    id: ObjectId,
    offset: u64,
    n: i64,
    end: int,
    d: DictV,
)
    requires
        id != containing,
        doc.xref.offset(id) == Some(offset),
        indirect_at(doc.input, place(doc.input, offset), lengths_of(NoLengths)) == Ok::<
            (ObjectId, ObjV, int),
            Seq<char>,
        >((id, ObjV::Integer(n), end)),
        n >= 0,
        dict_get(d, "Length"@) == Some(ObjV::Reference(id)),
    ensures
        crate::parse::stream_length(d, doc.lengths(containing)) == Ok::<i64, Seq<char>>(n),
{
}

/// With a handler that knows the plaintexts of its ciphertexts, an object of a
/// file can be read whenever it can be parsed.
pub proof fn law_unlocked_object_is_read(doc: DocV, id: ObjectId, h: HandlerV)
    requires
        doc.crypt == Some(h),
        object_ciphers(doc.input, doc.xref, id) matches Ok(ciphers) && knows(h, id, ciphers),
    ensures
        doc.plain_object(id) is Ok,
{
    law_known_is_decrypted(stored_object(doc.input, doc.xref, id)->Ok_0, id, h);
}

/// A document that is not encrypted can always be opened, whatever was tried
/// on it, and is read without a handler.
pub proof fn law_plain_file_opens(s: Seq<u8>, x: XrefV, unlocked: Option<HandlerV>)
    requires
        dict_get(x.trailer, "Encrypt"@) is None,
    ensures
        password_crypt(s, x, unlocked) == Ok::<Option<HandlerV>, Seq<char>>(None),
        certificate_crypt(s, x, unlocked) == Ok::<Option<HandlerV>, Seq<char>>(None),
{
}

} // verus!
