//! Encrypted files: which parts of an object are decrypted, and where the
//! decrypted parts go.

use vstd::prelude::*;
use crate::error::{outcome, PdfError};
use crate::objects::{clone_bytes, dict_get, dict_set, lemma_array_view, objs_view, Dict, DictV, ObjV, Object, ObjectId, Stream};
use crate::text::{cat_id, id_text, same_text};

verus! {

/// What one string or stream of an object decrypts to.
#[derive(Clone, Debug)]
pub struct Plaintext {
    pub id: ObjectId,
    pub cipher: Vec<u8>,
    pub plain: Vec<u8>,
}

/// An unlocked security handler: the plaintexts of a document, for the
/// ciphertexts that [`crate::document::ciphertexts`] gives.
#[derive(Clone, Debug)]
pub struct StandardHandler {
    pub plaintexts: Vec<Plaintext>,
}

/// The plaintexts of a document as a mathematical value.
pub type HandlerV = Seq<(ObjectId, Seq<u8>, Seq<u8>)>;

impl View for StandardHandler {
    type V = HandlerV;

    open spec fn view(&self) -> HandlerV {
        self.plaintexts@.map_values(|p: Plaintext| (p.id, p.cipher@, p.plain@))
    }
}

/// What bytes of object `id` decrypt to, from place `from` of the plaintexts on.
pub open spec fn plain_from(h: HandlerV, id: ObjectId, data: Seq<u8>, from: int) -> Result<
    Seq<u8>,
    Seq<char>,
>
    decreases h.len() - from,
{
    if from < 0 || from >= h.len() {
        Err("PDF decrypt: no plaintext is known for "@ + id_text(id))
    } else if h[from].0 == id && h[from].1 == data {
        Ok(h[from].2)
    } else {
        plain_from(h, id, data, from + 1)
    }
}

/// Two byte strings are equal.
pub(crate) fn same_bytes(a: &[u8], b: &[u8]) -> (r: bool)
    ensures
        r == (a@ == b@),
{
    if a.len() != b.len() {
        return false;
    }
    let mut i: usize = 0;
    while i < a.len()
        invariant
            i <= a@.len(),
            a@.len() == b@.len(),
            forall|k: int| 0 <= k < i ==> #[trigger] a@[k] == b@[k],
        decreases a.len() - i,
    {
        if a[i] != b[i] {
            proof {
                assert(a@[i as int] != b@[i as int]);
            }
            return false;
        }
        i = i + 1;
    }
    proof {
        assert(a@ =~= b@);
    }
    true
}

impl StandardHandler {
    /// What bytes of object `id` decrypt to.
    pub fn decrypt_object(&self, id: ObjectId, data: &[u8]) -> (r: Result<Vec<u8>, PdfError>)
        ensures
            outcome(r) == plain_from(self@, id, data@, 0),
    {
        let mut i: usize = 0;
        while i < self.plaintexts.len()
            invariant
                i <= self.plaintexts@.len(),
                plain_from(self@, id, data@, 0) == plain_from(self@, id, data@, i as int),
            decreases self.plaintexts.len() - i,
        {
            let p: &Plaintext = &self.plaintexts[i];
            if p.id == id && same_bytes(p.cipher.as_slice(), data) {
                return Ok(clone_bytes(&p.plain));
            }
            i = i + 1;
        }
        Err(PdfError::Other(cat_id("PDF decrypt: no plaintext is known for ".to_owned(), id)))
    }
}

// --------------------------------------------------------- identity filter

/// The first place of a name in an array, or its length.
pub open spec fn name_place(items: Seq<ObjV>, name: Seq<char>, from: int) -> int
    decreases items.len() - from,
{
    if from < 0 || from >= items.len() {
        items.len() as int
    } else if items[from] == ObjV::Name(name) {
        from
    } else {
        name_place(items, name, from + 1)
    }
}

/// Where the `/Crypt` filter stands among the filters of a stream.
pub open spec fn crypt_place(filter: Option<ObjV>) -> Option<int> {
    match filter {
        Some(ObjV::Name(n)) => if n == "Crypt"@ {
            Some(0)
        } else {
            None
        },
        Some(ObjV::Array(items)) => {
            let p = name_place(items, "Crypt"@, 0);
            if p < items.len() {
                Some(p)
            } else {
                None
            }
        },
        _ => None,
    }
}

/// A stream that says it is not encrypted: it has a `/Crypt` filter, whose
/// parameters name `/Identity` or no filter at all.
pub open spec fn opts_out(d: DictV) -> bool {
    match crypt_place(dict_get(d, "Filter"@)) {
        None => false,
        Some(p) => match crate::stream::parms_at(dict_get(d, "DecodeParms"@), p) {
            None => true,
            Some(parms) => match dict_get(parms, "Name"@) {
                Some(ObjV::Name(n)) => n == "Identity"@,
                None => true,
                _ => false,
            },
        },
    }
}

/// A stream says that it is not encrypted.
pub fn has_identity_crypt_filter(dict: &Dict) -> (r: bool)
    ensures
        r == opts_out(dict@),
{
    let place: usize = match dict.get("Filter") {
        Some(Object::Name(n)) => {
            if !same_text(n.as_str(), "Crypt") {
                return false;
            }
            0
        },
        Some(Object::Array(items)) => {
            proof {
                lemma_array_view(*items);
            }
            let ghost view = objs_view(items@);
            let mut i: usize = 0;
            while i < items.len()
                invariant_except_break
                    name_place(view, "Crypt"@, 0) == name_place(view, "Crypt"@, i as int),
                invariant
                    i <= items@.len(),
                    view == objs_view(items@),
                ensures
                    i <= items@.len(),
                    i as int == name_place(view, "Crypt"@, 0),
                decreases items.len() - i,
            {
                proof {
                    assert(view[i as int] == items@[i as int]@);
                }
                if let Object::Name(n) = &items[i] {
                    if same_text(n.as_str(), "Crypt") {
                        break;
                    }
                }
                i = i + 1;
            }
            if i == items.len() {
                return false;
            }
            i
        },
        _ => {
            return false;
        },
    };
    let parms: Option<&Dict> = match dict.get("DecodeParms") {
        Some(Object::Dict(d)) => if place == 0 {
            Some(d)
        } else {
            None
        },
        Some(Object::Array(items)) => {
            proof {
                lemma_array_view(*items);
            }
            if place < items.len() {
                proof {
                    assert(objs_view(items@)[place as int] == items@[place as int]@);
                }
                match &items[place] {
                    Object::Dict(d) => Some(d),
                    _ => None,
                }
            } else {
                None
            }
        },
        _ => None,
    };
    match parms {
        None => true,
        Some(d) => match d.get("Name") {
            Some(Object::Name(n)) => same_text(n.as_str(), "Identity"),
            None => true,
            _ => false,
        },
    }
}

// ------------------------------------------------------------- decryption

/// An object of `id` with its strings and streams decrypted.
pub open spec fn decrypted(o: ObjV, id: ObjectId, h: HandlerV) -> Result<ObjV, Seq<char>>
    decreases o, 0int,
{
    match o {
        ObjV::LiteralString(b) => match plain_from(h, id, b, 0) {
            Ok(v) => Ok(ObjV::LiteralString(v)),
            Err(e) => Err(e),
        },
        ObjV::HexString(b) => match plain_from(h, id, b, 0) {
            Ok(v) => Ok(ObjV::HexString(v)),
            Err(e) => Err(e),
        },
        ObjV::Array(v) => match decrypted_items(v, v.len() as int, id, h) {
            Ok(items) => Ok(ObjV::Array(items)),
            Err(e) => Err(e),
        },
        ObjV::Dict(d) => match decrypted_entries(d, d.len() as int, id, h) {
            Ok(d) => Ok(ObjV::Dict(d)),
            Err(e) => Err(e),
        },
        ObjV::Stream(d, data) => match decrypted_entries(d, d.len() as int, id, h) {
            Ok(d) => if opts_out(d) {
                Ok(ObjV::Stream(d, data))
            } else {
                match plain_from(h, id, data, 0) {
                    Ok(v) => Ok(ObjV::Stream(d, v)),
                    Err(e) => Err(e),
                }
            },
            Err(e) => Err(e),
        },
        _ => Ok(o),
    }
}

/// The first `n` items of an array, decrypted.
pub open spec fn decrypted_items(v: Seq<ObjV>, n: int, id: ObjectId, h: HandlerV) -> Result<
    Seq<ObjV>,
    Seq<char>,
>
    decreases v, n,
{
    if n <= 0 || n > v.len() {
        Ok(Seq::empty())
    } else {
        match decrypted_items(v, n - 1, id, h) {
            Err(e) => Err(e),
            Ok(items) => match decrypted(v[n - 1], id, h) {
                Err(e) => Err(e),
                Ok(o) => Ok(items.push(o)),
            },
        }
    }
}

/// The first `n` entries of a dictionary, decrypted.
pub open spec fn decrypted_entries(d: DictV, n: int, id: ObjectId, h: HandlerV) -> Result<
    DictV,
    Seq<char>,
>
    decreases d, n,
{
    if n <= 0 || n > d.len() {
        Ok(Seq::empty())
    } else {
        match decrypted_entries(d, n - 1, id, h) {
            Err(e) => Err(e),
            Ok(done) => match decrypted(d[n - 1].1, id, h) {
                Err(e) => Err(e),
                Ok(o) => Ok(dict_set(done, d[n - 1].0, o)),
            },
        }
    }
}

/// An error among the first items is an error of all.
proof fn lemma_items_error(v: Seq<ObjV>, n: int, m: int, id: ObjectId, h: HandlerV)
    requires
        0 <= n <= m <= v.len(),
        decrypted_items(v, n, id, h) is Err,
    ensures
        decrypted_items(v, m, id, h) == decrypted_items(v, n, id, h),
    decreases m - n,
{
    if n < m {
        lemma_items_error(v, n, m - 1, id, h);
    }
}

/// An error among the first entries is an error of all.
proof fn lemma_entries_error(d: DictV, n: int, m: int, id: ObjectId, h: HandlerV)
    requires
        0 <= n <= m <= d.len(),
        decrypted_entries(d, n, id, h) is Err,
    ensures
        decrypted_entries(d, m, id, h) == decrypted_entries(d, n, id, h),
    decreases m - n,
{
    if n < m {
        lemma_entries_error(d, n, m - 1, id, h);
    }
}

/// Decrypt the strings and streams of an object.
pub fn decrypt_object(obj: &Object, id: ObjectId, crypt: &StandardHandler) -> (r: Result<
    Object,
    PdfError,
>)
    ensures
        outcome(r) == decrypted(obj@, id, crypt@),
    decreases *obj,
{
    match obj {
        Object::LiteralString(b) => match crypt.decrypt_object(id, b.as_slice()) {
            Ok(v) => Ok(Object::LiteralString(v)),
            Err(e) => Err(e),
        },
        Object::HexString(b) => match crypt.decrypt_object(id, b.as_slice()) {
            Ok(v) => Ok(Object::HexString(v)),
            Err(e) => Err(e),
        },
        Object::Array(v) => {
            let mut items: Vec<Object> = Vec::new();
            let ghost view = objs_view(v@);
            proof {
                lemma_array_view(*v);
                assert(objs_view(items@) =~= Seq::empty());
            }
            let mut i: usize = 0;
            while i < v.len()
                invariant
                    i <= v@.len(),
                    *obj == Object::Array(*v),
                    view == objs_view(v@),
                    obj@ == ObjV::Array(view),
                    decrypted_items(view, i as int, id, crypt@) == Ok::<Seq<ObjV>, Seq<char>>(
                        objs_view(items@),
                    ),
                decreases v.len() - i,
            {
                let ghost before = objs_view(items@);
                proof {
                    assert(obj->Array_0 == *v);
                    assert(decreases_to!(*obj => *v));
                    assert(decreases_to!(*v => v[i as int]));
                    assert(view[i as int] == v@[i as int]@);
                }
                match decrypt_object(&v[i], id, crypt) {
                    Ok(o) => {
                        items.push(o);
                        proof {
                            assert(objs_view(items@) =~= before.push(o@));
                        }
                    },
                    Err(e) => {
                        proof {
                            lemma_items_error(view, i + 1, view.len() as int, id, crypt@);
                        }
                        return Err(e);
                    },
                }
                i = i + 1;
            }
            proof {
                lemma_array_view(items);
            }
            Ok(Object::Array(items))
        },
        Object::Dict(d) => match decrypt_dict(d, id, crypt) {
            Ok(d) => Ok(Object::Dict(d)),
            Err(e) => Err(e),
        },
        Object::Stream(s) => {
            let d: Dict = match decrypt_dict(&s.dict, id, crypt) {
                Ok(d) => d,
                Err(e) => {
                    return Err(e);
                },
            };
            if has_identity_crypt_filter(&d) {
                return Ok(Object::Stream(Stream::new(d, clone_bytes(&s.data))));
            }
            match crypt.decrypt_object(id, s.data.as_slice()) {
                Ok(v) => Ok(Object::Stream(Stream::new(d, v))),
                Err(e) => Err(e),
            }
        },
        _ => Ok(obj.clone()),
    }
}

/// Decrypt the values of a dictionary.
fn decrypt_dict(d: &Dict, id: ObjectId, crypt: &StandardHandler) -> (r: Result<Dict, PdfError>)
    ensures
        outcome(r) == decrypted_entries(d@, d@.len() as int, id, crypt@),
    decreases *d,
{
    let mut out: Dict = Dict::new();
    let mut i: usize = 0;
    while i < d.entries.len()
        invariant
            i <= d.entries@.len(),
            decrypted_entries(d@, i as int, id, crypt@) == Ok::<DictV, Seq<char>>(out@),
        decreases d.entries.len() - i,
    {
        proof {
            assert(decreases_to!(d.entries => d.entries[i as int]));
        }
        match decrypt_object(&d.entries[i].1, id, crypt) {
            Ok(o) => {
                out.set(d.entries[i].0.as_str(), o);
            },
            Err(e) => {
                proof {
                    lemma_entries_error(d@, i + 1, d@.len() as int, id, crypt@);
                }
                return Err(e);
            },
        }
        i = i + 1;
    }
    Ok(out)
}

// ------------------------------------------------------------- ciphertexts

/// The strings of an object, and the data if it is a stream, in order: all that
/// may have to be decrypted to read it.
pub open spec fn cipher_parts(o: ObjV) -> Seq<Seq<u8>>
    decreases o, 0int,
{
    match o {
        ObjV::LiteralString(b) => seq![b],
        ObjV::HexString(b) => seq![b],
        ObjV::Array(v) => items_ciphers(v, v.len() as int),
        ObjV::Dict(d) => entries_ciphers(d, d.len() as int),
        ObjV::Stream(d, data) => entries_ciphers(d, d.len() as int).push(data),
        _ => Seq::empty(),
    }
}

/// The same of the first `n` items of an array.
pub open spec fn items_ciphers(v: Seq<ObjV>, n: int) -> Seq<Seq<u8>>
    decreases v, n,
{
    if n <= 0 || n > v.len() {
        Seq::empty()
    } else {
        items_ciphers(v, n - 1) + cipher_parts(v[n - 1])
    }
}

/// The same of the first `n` entries of a dictionary.
pub open spec fn entries_ciphers(d: DictV, n: int) -> Seq<Seq<u8>>
    decreases d, n,
{
    if n <= 0 || n > d.len() {
        Seq::empty()
    } else {
        entries_ciphers(d, n - 1) + cipher_parts(d[n - 1].1)
    }
}

/// Byte strings as mathematical values.
pub open spec fn byte_strings(s: Seq<Vec<u8>>) -> Seq<Seq<u8>> {
    s.map_values(|b: Vec<u8>| b@)
}

fn push_cipher(b: &Vec<u8>, out: &mut Vec<Vec<u8>>)
    ensures
        byte_strings(final(out)@) == byte_strings(old(out)@).push(b@),
{
    let ghost before = byte_strings(out@);
    out.push(clone_bytes(b));
    proof {
        assert(byte_strings(out@) =~= before.push(b@));
    }
}

/// Add the strings of an object, and the data if it is a stream.
pub(crate) fn collect_ciphers(obj: &Object, out: &mut Vec<Vec<u8>>)
    ensures
        byte_strings(final(out)@) == byte_strings(old(out)@) + cipher_parts(obj@),
    decreases *obj,
{
    let ghost start = byte_strings(out@);
    match obj {
        Object::LiteralString(b) => {
            push_cipher(b, out);
            proof {
                assert(start + seq![b@] =~= start.push(b@));
            }
        },
        Object::HexString(b) => {
            push_cipher(b, out);
            proof {
                assert(start + seq![b@] =~= start.push(b@));
            }
        },
        Object::Array(v) => {
            let ghost view = objs_view(v@);
            proof {
                lemma_array_view(*v);
                assert(start + Seq::empty() =~= start);
            }
            let mut i: usize = 0;
            while i < v.len()
                invariant
                    i <= v@.len(),
                    *obj == Object::Array(*v),
                    view == objs_view(v@),
                    byte_strings(out@) == start + items_ciphers(view, i as int),
                decreases v.len() - i,
            {
                proof {
                    assert(obj->Array_0 == *v);
                    assert(decreases_to!(*obj => *v));
                    assert(decreases_to!(*v => v[i as int]));
                    assert(view[i as int] == v@[i as int]@);
                    let before = items_ciphers(view, i as int);
                    let more = cipher_parts(view[i as int]);
                    assert(start + (before + more) =~= start + before + more);
                }
                collect_ciphers(&v[i], out);
                i = i + 1;
            }
        },
        Object::Dict(d) => {
            collect_dict_ciphers(d, out);
        },
        Object::Stream(s) => {
            collect_dict_ciphers(&s.dict, out);
            push_cipher(&s.data, out);
            proof {
                let d = s.dict@;
                let before = entries_ciphers(d, d.len() as int);
                assert((start + before).push(s.data@) =~= start + before.push(s.data@));
            }
        },
        _ => {
            proof {
                assert(start + Seq::empty() =~= start);
            }
        },
    }
}

fn collect_dict_ciphers(d: &Dict, out: &mut Vec<Vec<u8>>)
    ensures
        byte_strings(final(out)@) == byte_strings(old(out)@) + entries_ciphers(
            d@,
            d@.len() as int,
        ),
    decreases *d,
{
    let ghost start = byte_strings(out@);
    proof {
        assert(start + Seq::empty() =~= start);
    }
    let mut i: usize = 0;
    while i < d.entries.len()
        invariant
            i <= d.entries@.len(),
            byte_strings(out@) == start + entries_ciphers(d@, i as int),
        decreases d.entries.len() - i,
    {
        proof {
            assert(decreases_to!(d.entries => d.entries[i as int]));
            let before = entries_ciphers(d@, i as int);
            let more = cipher_parts(d@[i as int].1);
            assert(start + (before + more) =~= start + before + more);
        }
        collect_ciphers(&d.entries[i].1, out);
        i = i + 1;
    }
}

// ------------------------------------------------------------------- laws

/// A handler knows what the byte strings of object `id` decrypt to.
pub open spec fn knows(h: HandlerV, id: ObjectId, ciphers: Seq<Seq<u8>>) -> bool {
    forall|i: int| 0 <= i < ciphers.len() ==> plain_from(h, id, #[trigger] ciphers[i], 0) is Ok
}

/// An object can be decrypted by a handler that knows all that its strings and
/// its data decrypt to.
pub proof fn law_known_is_decrypted(o: ObjV, id: ObjectId, h: HandlerV)
    requires
        knows(h, id, cipher_parts(o)),
    ensures
        decrypted(o, id, h) is Ok,
    decreases o, 0int,
{
    match o {
        ObjV::LiteralString(b) => {
            assert(cipher_parts(o)[0] == b);
        },
        ObjV::HexString(b) => {
            assert(cipher_parts(o)[0] == b);
        },
        ObjV::Array(v) => {
            lemma_known_items(v, v.len() as int, id, h);
        },
        ObjV::Dict(d) => {
            lemma_known_entries(d, d.len() as int, id, h);
        },
        ObjV::Stream(d, data) => {
            let all = cipher_parts(o);
            let before = entries_ciphers(d, d.len() as int);
            assert(all[before.len() as int] == data);
            assert forall|i: int| 0 <= i < before.len() implies plain_from(
                h,
                id,
                #[trigger] before[i],
                0,
            ) is Ok by {
                assert(all[i] == before[i]);
            }
            lemma_known_entries(d, d.len() as int, id, h);
        },
        _ => {},
    }
}

proof fn lemma_known_parts(h: HandlerV, id: ObjectId, a: Seq<Seq<u8>>, b: Seq<Seq<u8>>)
    requires
        knows(h, id, a + b),
    ensures
        knows(h, id, a),
        knows(h, id, b),
{
    assert forall|i: int| 0 <= i < a.len() implies plain_from(h, id, #[trigger] a[i], 0) is Ok by {
        assert((a + b)[i] == a[i]);
    }
    assert forall|i: int| 0 <= i < b.len() implies plain_from(h, id, #[trigger] b[i], 0) is Ok by {
        assert((a + b)[a.len() + i] == b[i]);
    }
}

proof fn lemma_known_items(v: Seq<ObjV>, n: int, id: ObjectId, h: HandlerV)
    requires
        knows(h, id, items_ciphers(v, n)),
    ensures
        decrypted_items(v, n, id, h) is Ok,
    decreases v, n,
{
    if 0 < n <= v.len() {
        lemma_known_parts(h, id, items_ciphers(v, n - 1), cipher_parts(v[n - 1]));
        lemma_known_items(v, n - 1, id, h);
        law_known_is_decrypted(v[n - 1], id, h);
    }
}

proof fn lemma_known_entries(d: DictV, n: int, id: ObjectId, h: HandlerV)
    requires
        knows(h, id, entries_ciphers(d, n)),
    ensures
        decrypted_entries(d, n, id, h) is Ok,
    decreases d, n,
{
    if 0 < n <= d.len() {
        lemma_known_parts(h, id, entries_ciphers(d, n - 1), cipher_parts(d[n - 1].1));
        lemma_known_entries(d, n - 1, id, h);
        law_known_is_decrypted(d[n - 1].1, id, h);
    }
}

/// The data of a stream that opts out stays as it is.
pub proof fn law_identity_stream_kept(
    d: DictV,
    data: Seq<u8>,
    plain: DictV,
    id: ObjectId,
    h: HandlerV,
)
    requires
        decrypted_entries(d, d.len() as int, id, h) == Ok::<DictV, Seq<char>>(plain),
        opts_out(plain),
    ensures
        decrypted(ObjV::Stream(d, data), id, h) == Ok::<ObjV, Seq<char>>(
            ObjV::Stream(plain, data),
        ),
{
}

/// Numbers, names, booleans, null and references are never encrypted.
pub proof fn law_plain_kinds_kept(o: ObjV, id: ObjectId, h: HandlerV)
    requires
        !(o is LiteralString) && !(o is HexString) && !(o is Array) && !(o is Dict) && !(
        o is Stream),
    ensures
        decrypted(o, id, h) == Ok::<ObjV, Seq<char>>(o),
{
}

/// Decryption keeps the length of an array.
pub proof fn law_decrypted_array_length(v: Seq<ObjV>, id: ObjectId, h: HandlerV)
    ensures
        decrypted(ObjV::Array(v), id, h) matches Ok(o) ==> (o matches ObjV::Array(w) && w.len()
            == v.len()),
{
    lemma_items_length(v, v.len() as int, id, h);
}

proof fn lemma_items_length(v: Seq<ObjV>, n: int, id: ObjectId, h: HandlerV)
    requires
        0 <= n <= v.len(),
    ensures
        decrypted_items(v, n, id, h) matches Ok(w) ==> w.len() == n,
    decreases n,
{
    if n > 0 {
        lemma_items_length(v, n - 1, id, h);
    }
}

} // verus!
