//! Laws of documents: where objects are found, and what references lead to.

use vstd::prelude::*;
use crate::crypt::{
    decrypted, decrypted_entries, decrypted_items, opts_out, plain_from, HandlerV,
};
use crate::document::{
    encryption_dict, file_identifier, indirect_length, object_stream, pair_at, password_crypt,
    slot_object, slots_from, DocV, ObjStmV,
};
use crate::laws::objects::{
    calm, indirect_text, law_indirect_round_trip, lemma_calm, lemma_new_key, lemma_object,
    object_text, writable,
};
use crate::laws::tokens::{law_nothing_left, lemma_stands_parts, stands};
use crate::lex::lexed;
use crate::objects::{dict_get, distinct_keys, DictV, ObjV, ObjectId};
use crate::parse::{lengths_of, nested_within, object_at, NoLengths, MAX_PARSE_DEPTH};
use crate::stream::stream_data;
use crate::xref::{XrefEntry, XrefV};

verus! {

/// The table says that object `id` stands at a byte offset.
pub open spec fn stands_at(x: XrefV, id: ObjectId, offset: u64) -> bool {
    x.entries.contains_key(id.number) && x.entries[id.number] == (XrefEntry::InUse {
        offset,
        generation: id.generation,
    })
}

/// The table says that object `number` is item `index` of an object stream.
pub open spec fn lies_in(x: XrefV, number: u32, container: u32, index: u32) -> bool {
    x.entries.contains_key(number) && x.entries[number] == (XrefEntry::Compressed {
        obj_stream_id: container,
        index_within_stream: index,
    })
}

/// An object that stands in the file where the table says is found, as it is where
/// the file is not encrypted.
pub proof fn law_object_found(doc: DocV, id: ObjectId, offset: u64, o: ObjV)
    requires
        stands_at(doc.xref, id, offset),
        stands(doc.input, offset as int, indirect_text(id, o)),
        id.number >= 1,
        writable(o),
        nested_within(o, MAX_PARSE_DEPTH as int),
    ensures
        doc.crypt is None ==> doc.resolve(id) == Ok::<ObjV, Seq<char>>(o),
        doc.crypt matches Some(h) ==> doc.resolve(id) == decrypted(o, id, h),
{
    reveal(DocV::resolve);
    let lens = crate::document::lengths_in(doc.input, doc.xref, id);
    law_indirect_round_trip(doc.input, offset as int, id, o, lens);
    assert(indirect_text(id, o).len() >= 1);
}

/// An object is refused that the table does not have, that it has as free or
/// under another generation, or in whose place another object stands.
pub proof fn law_object_not_found(doc: DocV, id: ObjectId, offset: u64, other: ObjectId, o: ObjV)
    ensures
        !doc.xref.entries.contains_key(id.number) ==> doc.resolve(id) is Err,
        doc.xref.entries.contains_key(id.number) && doc.xref.entries[id.number]
            == XrefEntry::Free ==> doc.resolve(id) is Err,
        stands_at(doc.xref, other, offset) && other.number == id.number && other.generation
            != id.generation ==> doc.resolve(id) is Err,
        stands_at(doc.xref, id, offset) && other != id && other.number >= 1 && stands(
            doc.input,
            offset as int,
            indirect_text(other, o),
        ) && writable(o) && nested_within(o, MAX_PARSE_DEPTH as int) ==> doc.resolve(id) is Err,
{
    reveal(DocV::resolve);
    if stands_at(doc.xref, id, offset) && other != id && other.number >= 1 && stands(
        doc.input,
        offset as int,
        indirect_text(other, o),
    ) && writable(o) && nested_within(o, MAX_PARSE_DEPTH as int) {
        let lens = crate::document::lengths_in(doc.input, doc.xref, id);
        law_indirect_round_trip(doc.input, offset as int, other, o, lens);
        assert(indirect_text(other, o).len() >= 1);
    }
}

/// Object `id` refers to the next of a chain.
pub open spec fn chained(doc: DocV, ids: Seq<ObjectId>, v: ObjV) -> bool {
    &&& forall|i: int|
        0 <= i < ids.len() - 1 ==> doc.resolve(#[trigger] ids[i]) == Ok::<ObjV, Seq<char>>(
            ObjV::Reference(ids[i + 1]),
        )
    &&& ids.len() > 0 ==> doc.resolve(ids.last()) == Ok::<ObjV, Seq<char>>(v)
}

proof fn lemma_chain(doc: DocV, ids: Seq<ObjectId>, v: ObjV, i: int)
    requires
        chained(doc, ids, v),
        !(v is Reference),
        0 <= i < ids.len(),
    ensures
        ids.len() <= 16 ==> doc.deref_from(ObjV::Reference(ids[i]), i) == Ok::<ObjV, Seq<char>>(v),
        ids.len() > 16 && i <= 16 ==> doc.deref_from(ObjV::Reference(ids[i]), i) is Err,
    decreases ids.len() - i,
{
    if i + 1 < ids.len() {
        assert(doc.resolve(ids[i]) == Ok::<ObjV, Seq<char>>(ObjV::Reference(ids[i + 1])));
        lemma_chain(doc, ids, v, i + 1);
    } else {
        assert(ids[i] == ids.last());
        assert(doc.deref_from(v, i + 1) == Ok::<ObjV, Seq<char>>(v));
    }
}

/// References are followed to what is none, up to 16 of them; a longer chain is
/// refused, and so is one that leads nowhere. What is no reference stands for
/// itself.
pub proof fn law_references_followed(doc: DocV, ids: Seq<ObjectId>, v: ObjV, id: ObjectId)
    requires
        chained(doc, ids, v),
        ids.len() > 0,
        !(v is Reference),
    ensures
        ids.len() <= 16 ==> doc.deref(ObjV::Reference(ids[0])) == Ok::<ObjV, Seq<char>>(v),
        ids.len() > 16 ==> doc.deref(ObjV::Reference(ids[0])) is Err,
        doc.deref(v) == Ok::<ObjV, Seq<char>>(v),
        doc.resolve(id) is Err ==> doc.deref(ObjV::Reference(id)) is Err,
{
    reveal(DocV::deref);
    lemma_chain(doc, ids, v, 0);
}

/// A reference may stand in the place of what it refers to.
pub proof fn law_one_hop(doc: DocV, id: ObjectId, o: ObjV)
    ensures
        doc.one_hop(ObjV::Reference(id)) == doc.resolve(id),
        !(o is Reference) ==> doc.one_hop(o) == Ok::<ObjV, Seq<char>>(o),
{
}

/// The length of a stream may be an object of its own, but neither the stream
/// itself nor one in an object stream.
pub proof fn law_length_object(
    s: Seq<u8>,
    x: XrefV,
    id: ObjectId,
    stream: ObjectId,
    offset: u64,
    n: i64,
    container: u32,
    index: u32,
)
    requires
        id.number >= 1,
    ensures
        id != stream && stands_at(x, id, offset) && stands(
            s,
            offset as int,
            indirect_text(id, ObjV::Integer(n)),
        ) ==> indirect_length(s, x, id, stream) == Ok::<i64, Seq<char>>(n),
        indirect_length(s, x, id, id) is Err,
        lies_in(x, id.number, container, index) ==> indirect_length(s, x, id, stream) is Err,
{
    if id != stream && stands_at(x, id, offset) && stands(
        s,
        offset as int,
        indirect_text(id, ObjV::Integer(n)),
    ) {
        law_indirect_round_trip(
            s,
            offset as int,
            id,
            ObjV::Integer(n),
            lengths_of(NoLengths),
        );
        assert(indirect_text(id, ObjV::Integer(n)).len() >= 1);
    }
}

// -------------------------------------------------------- object streams

/// The bodies of an object stream from item `i` on.
pub open spec fn bodies_text(objs: Seq<ObjV>, i: int) -> Seq<u8>
    decreases objs.len() - i,
{
    if i < 0 || i >= objs.len() {
        Seq::empty()
    } else {
        object_text(objs[i]) + bodies_text(objs, i + 1)
    }
}

/// Where item `i` begins behind the header.
pub open spec fn body_offset(objs: Seq<ObjV>, i: int) -> int
    decreases i,
{
    if i <= 0 || i > objs.len() {
        0
    } else {
        body_offset(objs, i - 1) + object_text(objs[i - 1]).len()
    }
}

/// The header of an object stream from pair `i` on: numbers and places.
pub open spec fn header_text(nums: Seq<u32>, objs: Seq<ObjV>, i: int) -> Seq<u8>
    decreases nums.len() - i,
{
    if i < 0 || i >= nums.len() {
        Seq::empty()
    } else {
        object_text(ObjV::Integer(nums[i] as i64)) + (object_text(
            ObjV::Integer(body_offset(objs, i) as i64),
        ) + header_text(nums, objs, i + 1))
    }
}

proof fn lemma_bodies(objs: Seq<ObjV>, i: int)
    requires
        0 <= i <= objs.len(),
    ensures
        bodies_text(objs, 0).len() == body_offset(objs, i) + bodies_text(objs, i).len(),
        bodies_text(objs, 0).skip(body_offset(objs, i)) == bodies_text(objs, i),
    decreases i,
{
    let all = bodies_text(objs, 0);
    if i == 0 {
        assert(all.skip(0) =~= all);
    } else {
        lemma_bodies(objs, i - 1);
        lemma_offset_nonneg(objs, i - 1);
        let here = bodies_text(objs, i - 1);
        let a = object_text(objs[i - 1]);
        assert(here == a + bodies_text(objs, i));
        assert(here.skip(a.len() as int) =~= bodies_text(objs, i));
        assert(all.skip(body_offset(objs, i)) =~= all.skip(body_offset(objs, i - 1)).skip(
            a.len() as int,
        ));
    }
}

proof fn lemma_bodies_calm(s: Seq<u8>, p: int, objs: Seq<ObjV>, i: int)
    requires
        0 <= i <= objs.len(),
        forall|k: int| 0 <= k < objs.len() ==> writable(#[trigger] objs[k]),
        stands(s, p, bodies_text(objs, i)),
        p + bodies_text(objs, i).len() == s.len(),
    ensures
        calm(s, p),
    decreases objs.len() - i,
{
    if i == objs.len() {
        law_nothing_left(s);
    } else {
        lemma_stands_parts(s, p, object_text(objs[i]), bodies_text(objs, i + 1));
        lemma_bodies_calm(s, p + object_text(objs[i]).len(), objs, i + 1);
        assert(writable(objs[i]));
        lemma_calm(s, p, objs[i]);
    }
}

/// Objects and numbers of an object stream that can be written.
pub open spec fn stream_writable(nums: Seq<u32>, objs: Seq<ObjV>) -> bool {
    &&& nums.len() == objs.len()
    &&& forall|k: int| 0 <= k < nums.len() ==> #[trigger] nums[k] >= 1
    &&& forall|k: int|
        0 <= k < objs.len() ==> writable(#[trigger] objs[k]) && nested_within(
            objs[k],
            MAX_PARSE_DEPTH as int,
        )
}

proof fn lemma_header_calm(s: Seq<u8>, p: int, nums: Seq<u32>, objs: Seq<ObjV>, i: int)
    requires
        0 <= i <= nums.len(),
        stands(s, p, header_text(nums, objs, i)),
        p + header_text(nums, objs, i).len() == s.len(),
    ensures
        calm(s, p),
        i < nums.len() ==> calm(s, p + object_text(ObjV::Integer(nums[i] as i64)).len()),
    decreases nums.len() - i,
{
    if i == nums.len() {
        law_nothing_left(s);
    } else {
        let a = ObjV::Integer(nums[i] as i64);
        let b = ObjV::Integer(body_offset(objs, i) as i64);
        let rest = header_text(nums, objs, i + 1);
        lemma_stands_parts(s, p, object_text(a), object_text(b) + rest);
        lemma_stands_parts(s, p + object_text(a).len(), object_text(b), rest);
        lemma_header_calm(
            s,
            p + object_text(a).len() + object_text(b).len(),
            nums,
            objs,
            i + 1,
        );
        lemma_calm(s, p + object_text(a).len(), b);
        lemma_calm(s, p, a);
    }
}

/// The slots that pairs up to `i` give.
spec fn slots_of(nums: Seq<u32>, objs: Seq<ObjV>, first: int, i: int) -> Seq<(u32, usize)> {
    Seq::new(i as nat, |k: int| (nums[k], (first + body_offset(objs, k)) as usize))
}

proof fn lemma_offset_bound(objs: Seq<ObjV>, i: int)
    requires
        0 <= i <= objs.len(),
    ensures
        0 <= body_offset(objs, i) <= bodies_text(objs, 0).len(),
{
    lemma_bodies(objs, i);
    lemma_offset_nonneg(objs, i);
}

proof fn lemma_offset_nonneg(objs: Seq<ObjV>, i: int)
    ensures
        0 <= body_offset(objs, i),
    decreases i,
{
    if 0 < i <= objs.len() {
        lemma_offset_nonneg(objs, i - 1);
    }
}

proof fn lemma_slots(
    header: Seq<u8>,
    p: int,
    q: int,
    nums: Seq<u32>,
    objs: Seq<ObjV>,
    first: int,
    len: int,
    i: int,
)
    requires
        0 <= i <= nums.len(),
        stream_writable(nums, objs),
        stands(header, p, header_text(nums, objs, i)),
        p + header_text(nums, objs, i).len() == header.len(),
        lexed(header, q) == lexed(header, p),
        first + bodies_text(objs, 0).len() == len,
        0 <= first,
        len <= i64::MAX,
        len <= usize::MAX,
    ensures
        slots_from(
            header,
            q,
            first,
            len,
            i,
            nums.len() as int,
            slots_of(nums, objs, first, i),
        ) == Ok::<Seq<(u32, usize)>, Seq<char>>(slots_of(nums, objs, first, nums.len() as int)),
    decreases nums.len() - i,
{
    if i < nums.len() {
        let off = body_offset(objs, i);
        let a = ObjV::Integer(nums[i] as i64);
        let b = ObjV::Integer(off as i64);
        let rest = header_text(nums, objs, i + 1);
        let lens = lengths_of(NoLengths);
        lemma_offset_bound(objs, i);
        lemma_stands_parts(header, p, object_text(a), object_text(b) + rest);
        let p1 = p + object_text(a).len();
        lemma_stands_parts(header, p1, object_text(b), rest);
        let p2 = p1 + object_text(b).len();
        lemma_header_calm(header, p, nums, objs, i);
        lemma_header_calm(header, p2, nums, objs, i + 1);
        lemma_object(header, p, a, 0, lens);
        lemma_object(header, p1, b, 0, lens);
        reveal(object_at);
        reveal(pair_at);
        let t = lexed(header, p).result->Ok_0->Some_0;
        let q1 = crate::parse::object_from(header, t, 0, lens)->Ok_0.1;
        assert(object_at(header, q, lens) == Ok::<Option<(ObjV, int)>, Seq<char>>(Some((a, q1))));
        let u = lexed(header, p1).result->Ok_0->Some_0;
        let q2 = crate::parse::object_from(header, u, 0, lens)->Ok_0.1;
        assert(object_at(header, q1, lens) == Ok::<Option<(ObjV, int)>, Seq<char>>(Some((b, q2))));
        assert(nums[i] >= 1);
        assert(pair_at(header, q, i) == Ok::<(i64, i64, int), Seq<char>>(
            (nums[i] as i64, off as i64, q2),
        ));
        assert(slots_of(nums, objs, first, i).push((nums[i], (first + off) as usize)) =~= slots_of(
            nums,
            objs,
            first,
            i + 1,
        ));
        lemma_slots(header, p2, q2, nums, objs, first, len, i + 1);
    }
}

/// Every object that is packed into an object stream is found there: the table
/// names the stream and the place among its items, and the header of the stream
/// gives the numbers of the items and where they begin.
#[verifier::rlimit(50)]
pub proof fn law_packed_object_found(
    doc: DocV,
    id: ObjectId,
    container: u32,
    index: u32,
    d: DictV,
    data: Seq<u8>,
    nums: Seq<u32>,
    objs: Seq<ObjV>,
)
    requires
        lies_in(doc.xref, id.number, container, index),
        !doc.xref.is_compressed(container),
        doc.plain_object(ObjectId { number: container, generation: 0 }) == Ok::<ObjV, Seq<char>>(
            ObjV::Stream(d, data),
        ),
        dict_get(d, "Type"@) == Some(ObjV::Name("ObjStm"@)),
        dict_get(d, "N"@) == Some(ObjV::Integer(nums.len() as i64)),
        dict_get(d, "First"@) == Some(ObjV::Integer(header_text(nums, objs, 0).len() as i64)),
        stream_data(d, data) == Ok::<Seq<u8>, Seq<char>>(
            header_text(nums, objs, 0) + bodies_text(objs, 0),
        ),
        header_text(nums, objs, 0).len() + bodies_text(objs, 0).len() <= i64::MAX,
        header_text(nums, objs, 0).len() + bodies_text(objs, 0).len() <= usize::MAX,
        nums.len() <= u32::MAX,
        stream_writable(nums, objs),
        index < nums.len(),
        nums[index as int] == id.number,
    ensures
        doc.resolve(id) == Ok::<ObjV, Seq<char>>(objs[index as int]),
{
    reveal(DocV::resolve);
    let header = header_text(nums, objs, 0);
    let bodies = bodies_text(objs, 0);
    let payload = header + bodies;
    let first = header.len() as int;
    let k = index as int;
    assert(payload.take(first) =~= header);
    assert(header.subrange(0, first) =~= header);
    lemma_slots(header, 0, 0, nums, objs, first, payload.len() as int, 0);
    assert(slots_of(nums, objs, first, 0) =~= Seq::empty());
    let slots = slots_of(nums, objs, first, nums.len() as int);
    let cid = ObjectId { number: container, generation: 0 };
    assert(object_stream(cid, d, data) == Ok::<ObjStmV, Seq<char>>(ObjStmV { payload, slots }));
    lemma_bodies(objs, k);
    lemma_offset_bound(objs, k);
    let off = body_offset(objs, k);
    let slice = payload.skip(first + off);
    assert(slice =~= bodies.skip(off));
    assert(slice == bodies_text(objs, k));
    assert(slice.subrange(0, slice.len() as int) =~= slice);
    let a = object_text(objs[k]);
    lemma_stands_parts(slice, 0, a, bodies_text(objs, k + 1));
    lemma_bodies_calm(slice, a.len() as int, objs, k + 1);
    assert(writable(objs[k]));
    lemma_object(slice, 0, objs[k], 0, lengths_of(NoLengths));
    reveal(object_at);
}

/// An object stream is refused that says it is another kind of stream, that lies
/// in an object stream itself, or that has another object in the place.
pub proof fn law_bad_object_stream(
    doc: DocV,
    id: ObjectId,
    container: u32,
    index: u32,
    c: ObjStmV,
    d: DictV,
    data: Seq<u8>,
)
    requires
        lies_in(doc.xref, id.number, container, index),
    ensures
        doc.xref.is_compressed(container) ==> doc.resolve(id) is Err,
        dict_get(d, "Type"@) is None ==> object_stream(id, d, data) is Err,
        index >= c.slots.len() ==> slot_object(c, id, index) is Err,
        index < c.slots.len() && c.slots[index as int].0 != id.number ==> slot_object(
            c,
            id,
            index,
        ) is Err,
{
    reveal(DocV::resolve);
}

// -------------------------------------------------------------- encryption

/// What a handler knows of the bytes of an object is what they are decrypted to;
/// names, numbers and references are not touched.
pub proof fn law_strings_decrypted(h: HandlerV, id: ObjectId, c: Seq<u8>, p: Seq<u8>, i: int)
    requires
        0 <= i < h.len(),
        h[i] == (id, c, p),
        forall|j: int| 0 <= j < i ==> (#[trigger] h[j]).0 != id || h[j].1 != c,
    ensures
        decrypted(ObjV::LiteralString(c), id, h) == Ok::<ObjV, Seq<char>>(ObjV::LiteralString(p)),
        decrypted(ObjV::HexString(c), id, h) == Ok::<ObjV, Seq<char>>(ObjV::HexString(p)),
{
    lemma_known(h, id, c, p, i, 0);
}

proof fn lemma_known(h: HandlerV, id: ObjectId, c: Seq<u8>, p: Seq<u8>, i: int, from: int)
    requires
        0 <= from <= i < h.len(),
        h[i] == (id, c, p),
        forall|j: int| 0 <= j < i ==> (#[trigger] h[j]).0 != id || h[j].1 != c,
    ensures
        plain_from(h, id, c, from) == Ok::<Seq<u8>, Seq<char>>(p),
    decreases i - from,
{
    if from < i {
        assert(h[from].0 != id || h[from].1 != c);
        lemma_known(h, id, c, p, i, from + 1);
    }
}

/// Decryption goes into arrays: every item is decrypted in its place.
pub proof fn law_array_decrypted(h: HandlerV, id: ObjectId, v: Seq<ObjV>, w: Seq<ObjV>)
    requires
        w.len() == v.len(),
        forall|i: int|
            0 <= i < v.len() ==> decrypted(#[trigger] v[i], id, h) == Ok::<ObjV, Seq<char>>(w[i]),
    ensures
        decrypted(ObjV::Array(v), id, h) == Ok::<ObjV, Seq<char>>(ObjV::Array(w)),
{
    lemma_items_decrypted(h, id, v, w, v.len() as int);
    assert(w.take(v.len() as int) =~= w);
}

proof fn lemma_items_decrypted(h: HandlerV, id: ObjectId, v: Seq<ObjV>, w: Seq<ObjV>, n: int)
    requires
        w.len() == v.len(),
        0 <= n <= v.len(),
        forall|i: int|
            0 <= i < v.len() ==> decrypted(#[trigger] v[i], id, h) == Ok::<ObjV, Seq<char>>(w[i]),
    ensures
        decrypted_items(v, n, id, h) == Ok::<Seq<ObjV>, Seq<char>>(w.take(n)),
    decreases n,
{
    if n > 0 {
        lemma_items_decrypted(h, id, v, w, n - 1);
        assert(decrypted(v[n - 1], id, h) == Ok::<ObjV, Seq<char>>(w[n - 1]));
        assert(w.take(n - 1).push(w[n - 1]) =~= w.take(n));
    } else {
        assert(w.take(0) =~= Seq::empty());
    }
}

/// Decryption goes into dictionaries: every value is decrypted under its key. The
/// data of a stream are decrypted too, unless a `/Crypt` filter without another
/// name says that they are not encrypted.
pub proof fn law_dict_decrypted(
    h: HandlerV,
    id: ObjectId,
    d: DictV,
    e: DictV,
    c: Seq<u8>,
    p: Seq<u8>,
)
    requires
        e.len() == d.len(),
        distinct_keys(d),
        forall|i: int|
            0 <= i < d.len() ==> (#[trigger] d[i]).0 == e[i].0 && decrypted(d[i].1, id, h) == Ok::<
                ObjV,
                Seq<char>,
            >(e[i].1),
        plain_from(h, id, c, 0) == Ok::<Seq<u8>, Seq<char>>(p),
    ensures
        decrypted(ObjV::Dict(d), id, h) == Ok::<ObjV, Seq<char>>(ObjV::Dict(e)),
        dict_get(e, "Filter"@) is None ==> decrypted(ObjV::Stream(d, c), id, h) == Ok::<
            ObjV,
            Seq<char>,
        >(ObjV::Stream(e, p)),
        dict_get(e, "Filter"@) == Some(ObjV::Name("FlateDecode"@)) ==> decrypted(
            ObjV::Stream(d, c),
            id,
            h,
        ) == Ok::<ObjV, Seq<char>>(ObjV::Stream(e, p)),
        dict_get(e, "Filter"@) == Some(ObjV::Name("Crypt"@)) && dict_get(e, "DecodeParms"@) is None
            ==> decrypted(ObjV::Stream(d, c), id, h) == Ok::<ObjV, Seq<char>>(ObjV::Stream(e, c)),
{
    lemma_entries_decrypted(h, id, d, e, d.len() as int);
    assert(e.take(d.len() as int) =~= e);
    reveal_strlit("FlateDecode");
    reveal_strlit("Crypt");
    assert("FlateDecode"@.len() == 11 && "Crypt"@.len() == 5);
}

/// A stream is not encrypted where its `/Crypt` filter, alone or among others, has
/// parameters that name `/Identity` or nothing; with any other name it is.
pub proof fn law_identity_filter(d: DictV, parms: DictV, other: Seq<char>)
    requires
        other != "Identity"@,
    ensures
        dict_get(d, "Filter"@) == Some(ObjV::Name("Crypt"@)) && dict_get(d, "DecodeParms"@) == Some(
            ObjV::Dict(parms),
        ) && dict_get(parms, "Name"@) == Some(ObjV::Name("Identity"@)) ==> opts_out(d),
        dict_get(d, "Filter"@) == Some(ObjV::Name("Crypt"@)) && dict_get(d, "DecodeParms"@) == Some(
            ObjV::Dict(parms),
        ) && dict_get(parms, "Name"@) == Some(ObjV::Name(other)) ==> !opts_out(d),
        dict_get(d, "Filter"@) == Some(
            ObjV::Array(seq![ObjV::Name("Crypt"@), ObjV::Name("FlateDecode"@)]),
        ) && dict_get(d, "DecodeParms"@) is None ==> opts_out(d),
        dict_get(d, "Filter"@) == Some(
            ObjV::Array(seq![ObjV::Name("FlateDecode"@), ObjV::Name("Crypt"@)]),
        ) && dict_get(d, "DecodeParms"@) == Some(
            ObjV::Array(seq![ObjV::Null, ObjV::Dict(parms)]),
        ) && dict_get(parms, "Name"@) == Some(ObjV::Name(other)) ==> !opts_out(d),
        dict_get(d, "Filter"@) is None ==> !opts_out(d),
{
    reveal_strlit("FlateDecode");
    reveal_strlit("Crypt");
    assert("FlateDecode"@.len() == 11 && "Crypt"@.len() == 5);
    reveal_with_fuel(crate::crypt::name_place, 3);
    let a = seq![ObjV::Name("Crypt"@), ObjV::Name("FlateDecode"@)];
    let b = seq![ObjV::Name("FlateDecode"@), ObjV::Name("Crypt"@)];
    assert(a[0] == ObjV::Name("Crypt"@));
    assert(b[0] == ObjV::Name("FlateDecode"@) && b[1] == ObjV::Name("Crypt"@));
    let q = seq![ObjV::Null, ObjV::Dict(parms)];
    assert(q[1] == ObjV::Dict(parms));
}

proof fn lemma_entries_decrypted(h: HandlerV, id: ObjectId, d: DictV, e: DictV, n: int)
    requires
        e.len() == d.len(),
        distinct_keys(d),
        0 <= n <= d.len(),
        forall|i: int|
            0 <= i < d.len() ==> (#[trigger] d[i]).0 == e[i].0 && decrypted(d[i].1, id, h) == Ok::<
                ObjV,
                Seq<char>,
            >(e[i].1),
    ensures
        decrypted_entries(d, n, id, h) == Ok::<DictV, Seq<char>>(e.take(n)),
    decreases n,
{
    if n > 0 {
        lemma_entries_decrypted(h, id, d, e, n - 1);
        assert(d[n - 1].0 == e[n - 1].0);
        assert(distinct_keys(e)) by {
            assert forall|i: int, j: int| 0 <= i < j < e.len() implies (#[trigger] e[i]).0 != (
            #[trigger] e[j]).0 by {
                assert(d[i].0 == e[i].0 && d[j].0 == e[j].0);
            }
        }
        lemma_new_key(e, n - 1);
    } else {
        assert(e.take(0) =~= Seq::empty());
    }
}

/// A file is encrypted exactly where its trailer has `/Encrypt`, a dictionary or a
/// reference to one. It opens with the handler that was unlocked, and not
/// without one; a password also needs the first of the file's identifiers.
pub proof fn law_encrypted_file(
    s: Seq<u8>,
    x: XrefV,
    d: DictV,
    first: Seq<u8>,
    more: ObjV,
    h: HandlerV,
)
    ensures
        dict_get(x.trailer, "Encrypt"@) is None ==> encryption_dict(s, x) == Ok::<
            Option<DictV>,
            Seq<char>,
        >(None),
        dict_get(x.trailer, "Encrypt"@) == Some(ObjV::Dict(d)) ==> encryption_dict(s, x) == Ok::<
            Option<DictV>,
            Seq<char>,
        >(Some(d)),
        dict_get(x.trailer, "ID"@) == Some(ObjV::Array(seq![ObjV::HexString(first), more]))
            || dict_get(x.trailer, "ID"@) == Some(
            ObjV::Array(seq![ObjV::LiteralString(first), more]),
        ) ==> file_identifier(x) == Ok::<Seq<u8>, Seq<char>>(first),
        dict_get(x.trailer, "ID"@) is None ==> file_identifier(x) is Err,
        dict_get(x.trailer, "Encrypt"@) == Some(ObjV::Dict(d)) && dict_get(x.trailer, "ID"@)
            == Some(ObjV::Array(seq![ObjV::HexString(first), more])) ==> password_crypt(
            s,
            x,
            Some(h),
        ) == Ok::<Option<HandlerV>, Seq<char>>(Some(h)) && password_crypt(s, x, None) is Err,
        dict_get(x.trailer, "Encrypt"@) == Some(ObjV::Dict(d)) && dict_get(x.trailer, "ID"@)
            is None ==> password_crypt(s, x, Some(h)) is Err,
        dict_get(x.trailer, "Encrypt"@) == Some(ObjV::Dict(d))
            ==> crate::document::certificate_crypt(s, x, Some(h)) == Ok::<
            Option<HandlerV>,
            Seq<char>,
        >(Some(h)) && crate::document::certificate_crypt(s, x, None) is Err,
{
    let a = seq![ObjV::HexString(first), more];
    let b = seq![ObjV::LiteralString(first), more];
    assert(a[0] == ObjV::HexString(first) && a.len() == 2);
    assert(b[0] == ObjV::LiteralString(first) && b.len() == 2);
}

/// An encryption dictionary that is referred to is read where it stands.
pub proof fn law_encryption_by_reference(
    s: Seq<u8>,
    x: XrefV,
    id: ObjectId,
    offset: u64,
    d: DictV,
)
    requires
        dict_get(x.trailer, "Encrypt"@) == Some(ObjV::Reference(id)),
        stands_at(x, id, offset),
        stands(s, offset as int, indirect_text(id, ObjV::Dict(d))),
        id.number >= 1,
        writable(ObjV::Dict(d)),
        nested_within(ObjV::Dict(d), MAX_PARSE_DEPTH as int),
    ensures
        encryption_dict(s, x) == Ok::<Option<DictV>, Seq<char>>(Some(d)),
{
    law_indirect_round_trip(s, offset as int, id, ObjV::Dict(d), lengths_of(NoLengths));
    assert(indirect_text(id, ObjV::Dict(d)).len() >= 1);
}

/// The metadata of a document are the data of the stream that its catalog names,
/// direct or by way of a reference.
pub proof fn law_metadata(
    doc: DocV,
    root: ObjectId,
    catalog: DictV,
    o: ObjV,
    d: DictV,
    data: Seq<u8>,
    v: Seq<u8>,
)
    requires
        dict_get(doc.xref.trailer, "Root"@) == Some(ObjV::Reference(root)),
        doc.resolve(root) == Ok::<ObjV, Seq<char>>(ObjV::Dict(catalog)),
    ensures
        doc.catalog() == Ok::<ObjV, Seq<char>>(ObjV::Dict(catalog)),
        dict_get(catalog, "Metadata"@) is None ==> doc.metadata() == Ok::<
            Option<Seq<u8>>,
            Seq<char>,
        >(None),
        dict_get(catalog, "Metadata"@) == Some(o) && (o == ObjV::Stream(d, data) || (
        o matches ObjV::Reference(id) && doc.resolve(id) == Ok::<ObjV, Seq<char>>(
            ObjV::Stream(d, data),
        ))) && stream_data(d, data) == Ok::<Seq<u8>, Seq<char>>(v) ==> doc.metadata() == Ok::<
            Option<Seq<u8>>,
            Seq<char>,
        >(Some(v)),
{
    reveal(DocV::metadata);
}

/// The data of a stream are decoded by its own filters; what is no stream, or cannot
/// be found, is refused.
pub proof fn law_stream_bytes(doc: DocV, id: ObjectId, d: DictV, data: Seq<u8>, o: ObjV)
    ensures
        doc.resolve(id) == Ok::<ObjV, Seq<char>>(ObjV::Stream(d, data)) ==> doc.stream_bytes(id)
            == stream_data(d, data),
        doc.resolve(id) == Ok::<ObjV, Seq<char>>(o) && !(o is Stream) ==> doc.stream_bytes(
            id,
        ) is Err,
        doc.resolve(id) is Err ==> doc.stream_bytes(id) is Err,
{
    reveal(DocV::stream_bytes);
}

/// The trailer names the catalogue and the information dictionary.
pub proof fn law_trailer(x: XrefV, id: ObjectId, doc: DocV)
    ensures
        dict_get(x.trailer, "Root"@) == Some(ObjV::Reference(id)) ==> x.root() == Ok::<
            ObjectId,
            Seq<char>,
        >(id),
        dict_get(x.trailer, "Root"@) is None ==> x.root() is Err,
        dict_get(x.trailer, "Info"@) == Some(ObjV::Reference(id)) ==> x.info() == Some(id),
        dict_get(x.trailer, "Info"@) is None ==> x.info() is None,
        dict_get(doc.xref.trailer, "Root"@) == Some(ObjV::Reference(id)) ==> doc.catalog()
            == doc.resolve(id),
{
}

/// What the table says of an object can be asked of it.
pub proof fn law_table(x: XrefV, id: ObjectId, offset: u64, container: u32, index: u32, g: u16)
    ensures
        stands_at(x, id, offset) ==> x.offset(id) == Some(offset) && !x.is_compressed(id.number),
        stands_at(x, id, offset) && g != id.generation ==> x.offset(
            ObjectId { number: id.number, generation: g },
        ) is None,
        lies_in(x, id.number, container, index) ==> x.offset(id) is None && x.is_compressed(
            id.number,
        ),
        !x.entries.contains_key(id.number) ==> x.offset(id) is None && !x.is_compressed(id.number),
{
}

} // verus!
