//! Laws of objects: an object that was written is read back.

use vstd::prelude::*;
use vstd::utf8::{decode_utf8, encode_utf8, valid_utf8};
use crate::laws::tokens::{
    blank, bracket, ends, integer_written, law_bracket_tokens, law_hex_string, law_integer,
    law_keyword, law_name, law_nothing_left, law_octal_string, law_real, law_space_skipped,
    lemma_stands, lemma_stands_parts, name_written, octal_written, plain_allowed, reads, stands,
};
use crate::laws::filters::hex_written;
use crate::lex::{law_token_place, lexed, skip_space, KindV, TokV};
use crate::objects::{dict_get, dict_set, distinct_keys, key_pos, lemma_key_pos, DictV, ObjV, ObjectId};
use crate::parse::{
    array_from, dict_from, dict_or_stream, indirect_at, integer_or_reference, nested_within,
    object_at, object_from, stream_length, word, Lengths, MAX_PARSE_DEPTH,
};

verus! {

/// The bytes of a name, each written as `#` and two digits.
pub open spec fn name_text(n: Seq<char>) -> Seq<u8> {
    seq![0x2Fu8] + name_written(encode_utf8(n), |i: int| false, |i: int| true)
}

/// Digits with one point among them, with or without a sign.
pub open spec fn real_ok(t: Seq<u8>) -> bool {
    exists|point: int| #[trigger] real_with_point(t, point)
}

/// The same, with the place of the point.
pub open spec fn real_with_point(t: Seq<u8>, point: int) -> bool {
    &&& 0 <= point < t.len()
    &&& t[point] == 0x2E
    &&& point == 0 || 0x30 <= t[0] <= 0x39 || t[0] == 0x2B || t[0] == 0x2D
    &&& forall|i: int| 0 < i < t.len() && i != point ==> 0x30 <= #[trigger] t[i] <= 0x39
    &&& t.len() >= 3 || (t.len() == 2 && (0x30 <= t[0] <= 0x39 || point == 0))
}

/// An object that can be written: its references name objects, its reals are
/// numbers, and no key of a dictionary occurs twice. Streams stand on their own.
pub open spec fn writable(o: ObjV) -> bool
    decreases o,
{
    match o {
        ObjV::Real(t) => real_ok(t),
        ObjV::Reference(id) => id.number >= 1,
        ObjV::Array(v) => forall|i: int| 0 <= i < v.len() ==> writable(#[trigger] v[i]),
        ObjV::Dict(d) => distinct_keys(d) && forall|i: int|
            0 <= i < d.len() ==> writable((#[trigger] d[i]).1),
        ObjV::Stream(_, _) => false,
        _ => true,
    }
}

/// An object as text, with a space behind it.
pub open spec fn object_text(o: ObjV) -> Seq<u8>
    decreases o, 0int,
{
    match o {
        ObjV::Null => seq![0x6Eu8, 0x75, 0x6C, 0x6C, 0x20],
        ObjV::Bool(b) => if b {
            seq![0x74u8, 0x72, 0x75, 0x65, 0x20]
        } else {
            seq![0x66u8, 0x61, 0x6C, 0x73, 0x65, 0x20]
        },
        ObjV::Integer(n) => integer_written(n as int, false) + seq![0x20u8],
        ObjV::Real(t) => t + seq![0x20u8],
        ObjV::Name(n) => name_text(n) + seq![0x20u8],
        ObjV::LiteralString(b) => (seq![0x28u8] + (octal_written(b) + seq![0x29u8])) + seq![0x20u8],
        ObjV::HexString(b) => (seq![0x3Cu8] + (hex_written(b, |i: int| i % 2 == 0) + seq![0x3Eu8]))
            + seq![0x20u8],
        ObjV::Array(v) => seq![0x5Bu8] + items_text(v, 0),
        ObjV::Dict(d) => seq![0x3Cu8, 0x3C] + entries_text(d, 0),
        ObjV::Reference(id) => integer_written(id.number as int, false) + seq![0x20u8] + (
        integer_written(id.generation as int, false) + seq![0x20u8, 0x52, 0x20]),
        ObjV::Stream(_, _) => Seq::empty(),
    }
}

/// The items of an array from place `i` on, and the bracket that closes it.
pub open spec fn items_text(v: Seq<ObjV>, i: int) -> Seq<u8>
    decreases v, v.len() - i,
{
    if i < 0 || i >= v.len() {
        seq![0x5Du8, 0x20]
    } else {
        object_text(v[i]) + items_text(v, i + 1)
    }
}

/// The entries of a dictionary from place `i` on, and the brackets that close it.
pub open spec fn entries_text(d: DictV, i: int) -> Seq<u8>
    decreases d, d.len() - i,
{
    if i < 0 || i >= d.len() {
        seq![0x3Eu8, 0x3E, 0x20]
    } else {
        (name_text(d[i].0) + seq![0x20u8]) + (object_text(d[i].1) + entries_text(d, i + 1))
    }
}

/// A token that neither ends a reference nor begins the data of a stream.
pub open spec fn harmless(k: KindV) -> bool {
    !word(k, "R"@) && !word(k, "stream"@)
}

/// What stands at place `p` does not change what an integer or a dictionary in
/// front of it is.
pub open spec fn calm(s: Seq<u8>, p: int) -> bool {
    match lexed(s, p).result {
        Err(_) => false,
        Ok(None) => true,
        Ok(Some(t)) => harmless(t.kind) && (t.kind is Integer ==> match lexed(s, t.end).result {
            Err(_) => false,
            Ok(None) => true,
            Ok(Some(u)) => !word(u.kind, "R"@),
        }),
    }
}

proof fn lemma_space(s: Seq<u8>, p: int)
    requires
        stands(s, p, seq![0x20u8]),
    ensures
        lexed(s, p) == lexed(s, p + 1),
        ends(s, p),
{
    lemma_stands(s, p, seq![0x20u8]);
    assert(seq![0x20u8][0] == s[p + 0]);
    law_space_skipped(s, p);
}

proof fn lemma_words()
    ensures
        "R"@.len() == 1 && "R"@[0] == 'R',
        "stream"@.len() == 6,
        "true"@.len() == 4 && "true"@[0] == 't' && "true"@[1] == 'r' && "true"@[2] == 'u'
            && "true"@[3] == 'e',
        "false"@.len() == 5 && "false"@[0] == 'f' && "false"@[1] == 'a' && "false"@[2] == 'l'
            && "false"@[3] == 's' && "false"@[4] == 'e',
        "null"@.len() == 4 && "null"@[0] == 'n' && "null"@[1] == 'u' && "null"@[2] == 'l'
            && "null"@[3] == 'l',
{
    reveal_strlit("R");
    reveal_strlit("stream");
    reveal_strlit("true");
    reveal_strlit("false");
    reveal_strlit("null");
}

proof fn lemma_keyword_stands(s: Seq<u8>, p: int, w: Seq<u8>)
    requires
        stands(s, p, w + seq![0x20u8]),
        w.len() >= 1,
        forall|i: int| 0 <= i < w.len() ==> 0x41 <= #[trigger] w[i] <= 0x5A || 0x61 <= w[i] <= 0x7A,
    ensures
        reads(lexed(s, p), p, p + w.len(), KindV::Keyword(w)),
        lexed(s, p + w.len()) == lexed(s, p + w.len() + 1),
{
    lemma_stands_parts(s, p, w, seq![0x20u8]);
    lemma_space(s, p + w.len());
    lemma_stands(s, p, w);
    let e = p + w.len();
    assert forall|i: int| p <= i < e implies !blank(#[trigger] s[i]) && !bracket(s[i]) by {
        assert(w[i - p] == s[p + (i - p)]);
    }
    assert(w[0] == s[p + 0]);
    law_keyword(s, p, e);
    assert(s.subrange(p, e) =~= w);
}

proof fn lemma_integer_stands(s: Seq<u8>, p: int, n: i64)
    requires
        stands(s, p, integer_written(n as int, false) + seq![0x20u8]),
    ensures
        reads(
            lexed(s, p),
            p,
            p + integer_written(n as int, false).len(),
            KindV::Integer(n),
        ),
        lexed(s, p + integer_written(n as int, false).len()) == lexed(
            s,
            p + integer_written(n as int, false).len() + 1,
        ),
{
    let t = integer_written(n as int, false);
    lemma_stands_parts(s, p, t, seq![0x20u8]);
    lemma_space(s, p + t.len());
    law_integer(s, p, n, false);
}

proof fn lemma_name_stands(s: Seq<u8>, p: int, n: Seq<char>)
    requires
        stands(s, p, name_text(n) + seq![0x20u8]),
    ensures
        reads(lexed(s, p), p, p + name_text(n).len(), KindV::Name(encode_utf8(n))),
        lexed(s, p + name_text(n).len()) == lexed(s, p + name_text(n).len() + 1),
        valid_utf8(encode_utf8(n)),
        decode_utf8(encode_utf8(n)) == n,
{
    let t = name_text(n);
    lemma_stands_parts(s, p, t, seq![0x20u8]);
    lemma_space(s, p + t.len());
    let plain = |i: int| false;
    let upper = |i: int| true;
    assert(plain_allowed(encode_utf8(n), plain));
    law_name(s, p, encode_utf8(n), plain, upper);
    vstd::utf8::encode_utf8_valid_utf8(n);
    vstd::utf8::encode_utf8_decode_utf8(n);
}

proof fn lemma_reference_parts(s: Seq<u8>, p: int, id: ObjectId)
    requires
        stands(s, p, object_text(ObjV::Reference(id))),
    ensures
        ({
            let a = integer_written(id.number as int, false);
            let b = integer_written(id.generation as int, false);
            let q = p + a.len() + 1;
            let r = q + b.len() + 1;
            &&& reads(lexed(s, p), p, q - 1, KindV::Integer(id.number as i64))
            &&& lexed(s, q - 1) == lexed(s, q)
            &&& reads(lexed(s, q), q, r - 1, KindV::Integer(id.generation as i64))
            &&& lexed(s, r - 1) == lexed(s, r)
            &&& reads(lexed(s, r), r, r + 1, KindV::Keyword(seq![0x52u8]))
            &&& lexed(s, r + 1) == lexed(s, r + 2)
            &&& p + object_text(ObjV::Reference(id)).len() == r + 2
        }),
{
    let a = integer_written(id.number as int, false);
    let b = integer_written(id.generation as int, false);
    let sp = seq![0x20u8];
    let tail = seq![0x20u8, 0x52, 0x20];
    let q = p + a.len() + 1;
    let r = q + b.len() + 1;
    assert(object_text(ObjV::Reference(id)) == (a + sp) + (b + tail));
    lemma_stands_parts(s, p, a + sp, b + tail);
    lemma_integer_stands(s, p, id.number as i64);
    assert(tail =~= sp + seq![0x52u8, 0x20]);
    assert(b + tail =~= (b + sp) + seq![0x52u8, 0x20]);
    lemma_stands_parts(s, q, b + sp, seq![0x52u8, 0x20]);
    lemma_integer_stands(s, q, id.generation as i64);
    let w = seq![0x52u8];
    assert(seq![0x52u8, 0x20] =~= w + sp);
    lemma_keyword_stands(s, r, w);
}

/// An object that is written begins with a harmless token, and what stands behind
/// it is as calm as what it begins with.
pub(crate) proof fn lemma_calm(s: Seq<u8>, p: int, o: ObjV)
    requires
        stands(s, p, object_text(o)),
        writable(o),
        calm(s, p + object_text(o).len()),
    ensures
        calm(s, p),
        lexed(s, p).result matches Ok(Some(t)) && t.start == p && p < t.end <= s.len() && !(
        t.kind is ArrayEnd) && !(t.kind is DictEnd),
{
    lemma_words();
    law_token_place(s, p);
    let end = p + object_text(o).len();
    match o {
        ObjV::Null => {
            let w = seq![0x6Eu8, 0x75, 0x6C, 0x6C];
            assert(object_text(o) =~= w + seq![0x20u8]);
            lemma_keyword_stands(s, p, w);
            assert(w[0] as char == 'n');
        },
        ObjV::Bool(b) => {
            let w = if b {
                seq![0x74u8, 0x72, 0x75, 0x65]
            } else {
                seq![0x66u8, 0x61, 0x6C, 0x73, 0x65]
            };
            assert(object_text(o) =~= w + seq![0x20u8]);
            lemma_keyword_stands(s, p, w);
        },
        ObjV::Integer(n) => {
            lemma_integer_stands(s, p, n);
        },
        ObjV::Real(t) => {
            lemma_real_stands(s, p, t);
        },
        ObjV::Name(n) => {
            lemma_name_stands(s, p, n);
        },
        ObjV::LiteralString(b) => {
            lemma_stands_parts(
                s,
                p,
                seq![0x28u8] + (octal_written(b) + seq![0x29u8]),
                seq![0x20u8],
            );
            law_octal_string(s, p, b);
        },
        ObjV::HexString(b) => {
            let upper = |i: int| i % 2 == 0;
            lemma_stands_parts(
                s,
                p,
                seq![0x3Cu8] + (hex_written(b, upper) + seq![0x3Eu8]),
                seq![0x20u8],
            );
            law_hex_string(s, p, b, upper);
        },
        ObjV::Array(v) => {
            lemma_stands_parts(s, p, seq![0x5Bu8], items_text(v, 0));
            lemma_stands(s, p, seq![0x5Bu8]);
            assert(seq![0x5Bu8][0] == s[p + 0]);
            law_bracket_tokens(s, p);
        },
        ObjV::Dict(d) => {
            lemma_stands_parts(s, p, seq![0x3Cu8, 0x3C], entries_text(d, 0));
            law_bracket_tokens(s, p);
        },
        ObjV::Reference(id) => {
            lemma_reference_parts(s, p, id);
        },
        ObjV::Stream(_, _) => {},
    }
}

proof fn lemma_real_stands(s: Seq<u8>, p: int, t: Seq<u8>)
    requires
        stands(s, p, t + seq![0x20u8]),
        real_ok(t),
    ensures
        reads(lexed(s, p), p, p + t.len(), KindV::Real(t)),
        lexed(s, p + t.len()) == lexed(s, p + t.len() + 1),
{
    lemma_stands_parts(s, p, t, seq![0x20u8]);
    lemma_space(s, p + t.len());
    lemma_stands(s, p, t);
    let point = choose|point: int| #[trigger] real_with_point(t, point);
    let e = p + t.len();
    assert(t[0] == s[p + 0]);
    assert(t[point] == s[p + point]);
    assert forall|i: int| p < i < e && i != p + point implies 0x30 <= #[trigger] s[i] <= 0x39 by {
        assert(t[i - p] == s[p + (i - p)]);
    }
    law_real(s, p, p + point, e);
    assert(s.subrange(p, e) =~= t);
}

/// What reading an object that stands at place `p` has to give.
pub(crate) open spec fn comes_back(s: Seq<u8>, p: int, o: ObjV, depth: int, lens: Lengths) -> bool {
    &&& lexed(s, p).result matches Ok(Some(t)) && match object_from(s, t, depth, lens) {
        Ok((found, q)) => found == o && lexed(s, q) == lexed(s, p + object_text(o).len()) && p < q
            <= s.len(),
        Err(_) => false,
    }
}

proof fn lemma_skip_twice(s: Seq<u8>, p: int)
    requires
        0 <= p <= s.len(),
    ensures
        lexed(s, p).result matches Ok(Some(t)) ==> lexed(s, t.start) == lexed(s, p),
{
    reveal(lexed);
    law_token_place(s, p);
    crate::lex::lemma_skip_space(s, p);
    let q = skip_space(s, p);
    if q < s.len() {
        assert(skip_space(s, q) == q);
    }
}

/// An object that is written is read back, and reading goes on behind it.
#[verifier::rlimit(40)]
pub(crate) proof fn lemma_object(s: Seq<u8>, p: int, o: ObjV, depth: int, lens: Lengths)
    requires
        stands(s, p, object_text(o)),
        writable(o),
        0 <= depth,
        nested_within(o, MAX_PARSE_DEPTH - depth),
        calm(s, p + object_text(o).len()),
    ensures
        comes_back(s, p, o, depth, lens),
    decreases o, 1int, 0int,
{
    lemma_words();
    lemma_calm(s, p, o);
    let end = p + object_text(o).len();
    match o {
        ObjV::Null => {
            let w = seq![0x6Eu8, 0x75, 0x6C, 0x6C];
            assert(object_text(o) =~= w + seq![0x20u8]);
            lemma_keyword_stands(s, p, w);
            assert(w[0] as char == 'n' && w[1] as char == 'u' && w[2] as char == 'l' && w[3] as char
                == 'l');
            assert(word(KindV::Keyword(w), "null"@));
            assert(!word(KindV::Keyword(w), "true"@));
        },
        ObjV::Bool(b) => {
            if b {
                let w = seq![0x74u8, 0x72, 0x75, 0x65];
                assert(object_text(o) =~= w + seq![0x20u8]);
                lemma_keyword_stands(s, p, w);
                assert(w[0] as char == 't' && w[1] as char == 'r' && w[2] as char == 'u'
                    && w[3] as char == 'e');
                assert(word(KindV::Keyword(w), "true"@));
            } else {
                let w = seq![0x66u8, 0x61, 0x6C, 0x73, 0x65];
                assert(object_text(o) =~= w + seq![0x20u8]);
                lemma_keyword_stands(s, p, w);
                assert(w[0] as char == 'f' && w[1] as char == 'a' && w[2] as char == 'l'
                    && w[3] as char == 's' && w[4] as char == 'e');
                assert(word(KindV::Keyword(w), "false"@));
                assert(!word(KindV::Keyword(w), "true"@));
            }
        },
        ObjV::Integer(n) => {
            lemma_integer_stands(s, p, n);
            lemma_skip_twice(s, end - 1);
            law_token_place(s, end - 1);
            lemma_integer_rest(s, n, end);
        },
        ObjV::Real(t) => {
            lemma_real_stands(s, p, t);
        },
        ObjV::Name(n) => {
            lemma_name_stands(s, p, n);
        },
        ObjV::LiteralString(b) => {
            let t = seq![0x28u8] + (octal_written(b) + seq![0x29u8]);
            lemma_stands_parts(s, p, t, seq![0x20u8]);
            lemma_octal_length(b);
            lemma_space(s, p + t.len());
            law_octal_string(s, p, b);
        },
        ObjV::HexString(b) => {
            let upper = |i: int| i % 2 == 0;
            let t = seq![0x3Cu8] + (hex_written(b, upper) + seq![0x3Eu8]);
            lemma_stands_parts(s, p, t, seq![0x20u8]);
            lemma_space(s, p + t.len());
            law_hex_string(s, p, b, upper);
        },
        ObjV::Array(v) => {
            lemma_stands_parts(s, p, seq![0x5Bu8], items_text(v, 0));
            lemma_stands(s, p, seq![0x5Bu8]);
            assert(seq![0x5Bu8][0] == s[p + 0]);
            law_bracket_tokens(s, p);
            assert(v.take(0) =~= Seq::empty());
            lemma_items(s, p + 1, p + 1, v, 0, depth + 1, lens);
        },
        ObjV::Dict(d) => {
            lemma_stands_parts(s, p, seq![0x3Cu8, 0x3C], entries_text(d, 0));
            law_bracket_tokens(s, p);
            assert(d.take(0) =~= Seq::empty());
            lemma_entries(s, p + 2, p + 2, d, 0, depth + 1, lens, p);
        },
        ObjV::Reference(id) => {
            lemma_reference_parts(s, p, id);
            let w = seq![0x52u8];
            assert(w[0] as char == 'R');
            assert(word(KindV::Keyword(w), "R"@));
        },
        ObjV::Stream(_, _) => {},
    }
}

proof fn lemma_octal_length(b: Seq<u8>)
    ensures
        octal_written(b).len() == 4 * b.len(),
    decreases b.len(),
{
    if b.len() > 0 {
        lemma_octal_length(b.skip(1));
    }
}

/// Behind an integer that is no part of a reference.
proof fn lemma_integer_rest(s: Seq<u8>, n: i64, end: int)
    requires
        1 <= end <= s.len(),
        lexed(s, end - 1) == lexed(s, end),
        calm(s, end),
    ensures
        integer_or_reference(s, n, end - 1) matches Ok((o, q)) && o == ObjV::Integer(n) && lexed(
            s,
            q,
        ) == lexed(s, end) && end - 1 <= q <= s.len(),
{
    law_token_place(s, end);
    lemma_skip_twice(s, end);
    lemma_at_end(s, end);
}

/// Where nothing is left, nothing is left at the end.
pub(crate) proof fn lemma_at_end(s: Seq<u8>, p: int)
    requires
        0 <= p <= s.len(),
    ensures
        lexed(s, p).result == Ok::<Option<TokV>, Seq<char>>(None) ==> lexed(s, s.len() as int)
            == lexed(s, p),
{
    reveal(lexed);
    law_token_place(s, p);
}

proof fn lemma_items(
    s: Seq<u8>,
    p: int,
    q: int,
    v: Seq<ObjV>,
    i: int,
    depth: int,
    lens: Lengths,
)
    requires
        stands(s, p, items_text(v, i)),
        0 <= i <= v.len(),
        forall|k: int| 0 <= k < v.len() ==> writable(#[trigger] v[k]),
        forall|k: int|
            0 <= k < v.len() ==> nested_within(#[trigger] v[k], MAX_PARSE_DEPTH - depth),
        0 <= depth,
        0 <= q <= s.len(),
        lexed(s, q) == lexed(s, p),
        calm(s, p + items_text(v, i).len()),
    ensures
        array_from(s, q, depth, lens, v.take(i)) matches Ok((found, e)) && found == ObjV::Array(v)
            && lexed(s, e) == lexed(s, p + items_text(v, i).len()) && p < e <= s.len(),
        calm(s, p),
    decreases v, 0int, v.len() - i,
{
    lemma_words();
    law_token_place(s, q);
    if i == v.len() {
        let t = seq![0x5Du8, 0x20];
        assert(t =~= seq![0x5Du8] + seq![0x20u8]);
        lemma_stands_parts(s, p, seq![0x5Du8], seq![0x20u8]);
        lemma_stands(s, p, seq![0x5Du8]);
        assert(seq![0x5Du8][0] == s[p + 0]);
        lemma_space(s, p + 1);
        law_bracket_tokens(s, p);
        assert(v.take(i) =~= v);
    } else {
        let a = object_text(v[i]);
        let rest = items_text(v, i + 1);
        lemma_stands_parts(s, p, a, rest);
        assert(writable(v[i]));
        assert(nested_within(v[i], MAX_PARSE_DEPTH - depth));
        // What is behind the item is calm: read the rest first.
        lemma_items(s, p + a.len(), p + a.len(), v, i + 1, depth, lens);
        lemma_object(s, p, v[i], depth, lens);
        lemma_calm(s, p, v[i]);
        let t = lexed(s, p).result->Ok_0->Some_0;
        let next = object_from(s, t, depth, lens)->Ok_0.1;
        lemma_items(s, p + a.len(), next, v, i + 1, depth, lens);
        assert(v.take(i).push(v[i]) =~= v.take(i + 1));
    }
}

pub(crate) proof fn lemma_new_key(d: DictV, i: int)
    requires
        0 <= i < d.len(),
        distinct_keys(d),
    ensures
        dict_set(d.take(i), d[i].0, d[i].1) == d.take(i + 1),
{
    let before = d.take(i);
    lemma_key_pos(before, d[i].0, 0);
    let k = key_pos(before, d[i].0, 0);
    if k < before.len() {
        assert(before[k].0 == d[i].0);
        assert(d[k].0 != d[i].0);
    }
    assert(before.push((d[i].0, d[i].1)) =~= d.take(i + 1));
}

proof fn lemma_entries(
    s: Seq<u8>,
    p: int,
    q: int,
    d: DictV,
    i: int,
    depth: int,
    lens: Lengths,
    start: int,
)
    requires
        stands(s, p, entries_text(d, i)),
        0 <= i <= d.len(),
        distinct_keys(d),
        forall|k: int| 0 <= k < d.len() ==> writable((#[trigger] d[k]).1),
        forall|k: int|
            0 <= k < d.len() ==> nested_within((#[trigger] d[k]).1, MAX_PARSE_DEPTH - depth),
        0 <= depth,
        0 <= q <= s.len(),
        lexed(s, q) == lexed(s, p),
        calm(s, p + entries_text(d, i).len()),
    ensures
        dict_from(s, q, depth, lens, start, d.take(i)) matches Ok((found, e)) && found
            == ObjV::Dict(d) && lexed(s, e) == lexed(s, p + entries_text(d, i).len()) && p < e <= s.len(),
        calm(s, p),
    decreases d, 0int, d.len() - i,
{
    lemma_words();
    law_token_place(s, q);
    if i == d.len() {
        let t = seq![0x3Eu8, 0x3E, 0x20];
        assert(t =~= seq![0x3Eu8, 0x3E] + seq![0x20u8]);
        lemma_stands_parts(s, p, seq![0x3Eu8, 0x3E], seq![0x20u8]);
        lemma_space(s, p + 2);
        law_bracket_tokens(s, p);
        assert(d.take(i) =~= d);
        lemma_dict_rest(s, p + 2, lens, d);
    } else {
        let n = name_text(d[i].0) + seq![0x20u8];
        let a = object_text(d[i].1);
        let rest = entries_text(d, i + 1);
        lemma_stands_parts(s, p, n, a + rest);
        let p1 = p + n.len();
        lemma_stands_parts(s, p1, a, rest);
        lemma_name_stands(s, p, d[i].0);
        assert(writable(d[i].1));
        assert(nested_within(d[i].1, MAX_PARSE_DEPTH - depth));
        lemma_entries(s, p1 + a.len(), p1 + a.len(), d, i + 1, depth, lens, start);
        lemma_object(s, p1, d[i].1, depth, lens);
        lemma_calm(s, p1, d[i].1);
        let t = lexed(s, p1).result->Ok_0->Some_0;
        let next = object_from(s, t, depth, lens)->Ok_0.1;
        lemma_entries(s, p1 + a.len(), next, d, i + 1, depth, lens, start);
        lemma_new_key(d, i);
    }
}

/// Behind a dictionary that is no part of a stream.
proof fn lemma_dict_rest(s: Seq<u8>, p: int, lens: Lengths, d: DictV)
    requires
        0 <= p < s.len(),
        lexed(s, p) == lexed(s, p + 1),
        calm(s, p + 1),
    ensures
        dict_or_stream(s, p, lens, d) matches Ok((o, q)) && o == ObjV::Dict(d) && lexed(s, q)
            == lexed(s, p + 1) && p <= q <= s.len(),
{
    law_token_place(s, p + 1);
    lemma_skip_twice(s, p + 1);
    lemma_at_end(s, p + 1);
}

/// Every object without streams that is nested no deeper than the ceiling is read
/// back from its text: numbers, names, strings, arrays, dictionaries with their
/// entries in order, references, booleans and null.
#[verifier::rlimit(50)]
pub proof fn law_object_round_trip(o: ObjV, lens: Lengths)
    requires
        writable(o),
        nested_within(o, MAX_PARSE_DEPTH as int),
    ensures
        object_at(object_text(o), 0, lens) matches Ok(Some((found, e))) && found == o,
{
    let s = object_text(o);
    reveal(object_at);
    assert(s.subrange(0, s.len() as int) =~= s);
    law_nothing_left(s);
    assert(calm(s, s.len() as int));
    lemma_object(s, 0, o, 0, lens);
}

// ---------------------------------------------------------------- streams

/// The length of a stream is its `/Length`, direct or by way of a reference; one
/// that is missing, negative or no number is refused.
pub proof fn law_stream_length(d: DictV, lens: Lengths, n: i64, id: ObjectId)
    ensures
        dict_get(d, "Length"@) == Some(ObjV::Integer(n)) && n >= 0 ==> stream_length(d, lens) == Ok::<
            i64,
            Seq<char>,
        >(n),
        dict_get(d, "Length"@) == Some(ObjV::Integer(n)) && n < 0 ==> stream_length(d, lens) is Err,
        dict_get(d, "Length"@) == Some(ObjV::Reference(id)) && lens(id) == Ok::<i64, Seq<char>>(n)
            && n >= 0 ==> stream_length(d, lens) == Ok::<i64, Seq<char>>(n),
        dict_get(d, "Length"@) == Some(ObjV::Reference(id)) && lens(id) is Err ==> stream_length(
            d,
            lens,
        ) is Err,
        dict_get(d, "Length"@) is None ==> stream_length(d, lens) is Err,
{
}

/// The word `stream`.
pub open spec fn stream_word() -> Seq<u8> {
    seq![0x73u8, 0x74, 0x72, 0x65, 0x61, 0x6D]
}

/// The word `endstream`.
pub open spec fn endstream_word() -> Seq<u8> {
    seq![0x65u8, 0x6E, 0x64, 0x73, 0x74, 0x72, 0x65, 0x61, 0x6D]
}

proof fn lemma_word_of(w: Seq<u8>, t: Seq<char>)
    requires
        w.len() == t.len(),
        forall|i: int| 0 <= i < w.len() ==> #[trigger] w[i] as char == t[i],
    ensures
        word(KindV::Keyword(w), t),
{
}

/// The data of a stream are the bytes behind the line end that follows the word
/// `stream`, which is LF or CR and LF, as many as its length says.
pub proof fn law_stream_data(
    s: Seq<u8>,
    p: int,
    lens: Lengths,
    d: DictV,
    data: Seq<u8>,
    eol: Seq<u8>,
    n: i64,
)
    requires
        eol == seq![0x0Au8] || eol == seq![0x0Du8, 0x0A],
        stands(
            s,
            p,
            stream_word() + eol + (data + (seq![0x0Au8] + (endstream_word() + seq![0x20u8]))),
        ),
        n == data.len(),
        stream_length(d, lens) == Ok::<i64, Seq<char>>(n),
    ensures
        dict_or_stream(s, p, lens, d) matches Ok((o, e)) && o == ObjV::Stream(d, data) && e == p
            + 6 + eol.len() + data.len() + 10,
{
    let w = stream_word();
    let end = endstream_word() + seq![0x20u8];
    let rest = data + (seq![0x0Au8] + end);
    lemma_stands_parts(s, p, w + eol, rest);
    lemma_stands_parts(s, p, w, eol);
    let a = p + 6 + eol.len();
    lemma_stands_parts(s, a, data, seq![0x0Au8] + end);
    let b = a + data.len();
    lemma_stands_parts(s, b, seq![0x0Au8], end);
    lemma_stands(s, p, w);
    lemma_stands(s, p + 6, eol);
    assert(eol[0] == s[p + 6 + 0]);
    if eol.len() == 2 {
        assert(eol[1] == s[p + 6 + 1]);
    }
    assert forall|i: int| p <= i < p + 6 implies !blank(#[trigger] s[i]) && !bracket(s[i]) by {
        assert(w[i - p] == s[p + (i - p)]);
    }
    assert(w[0] == s[p + 0]);
    law_keyword(s, p, p + 6);
    assert(s.subrange(p, p + 6) =~= w);
    reveal_strlit("stream");
    reveal_strlit("endstream");
    assert forall|i: int| 0 <= i < 6 implies #[trigger] w[i] as char == "stream"@[i] by {
        assert(i == 0 || i == 1 || i == 2 || i == 3 || i == 4 || i == 5);
    }
    lemma_word_of(w, "stream"@);
    assert(crate::parse::data_start(s, p + 6) == a);
    lemma_stands(s, b, seq![0x0Au8]);
    assert(seq![0x0Au8][0] == s[b + 0]);
    law_space_skipped(s, b);
    let x = endstream_word();
    lemma_keyword_stands(s, b + 1, x);
    assert forall|i: int| 0 <= i < 9 implies #[trigger] x[i] as char == "endstream"@[i] by {
        assert(i == 0 || i == 1 || i == 2 || i == 3 || i == 4 || i == 5 || i == 6 || i == 7 || i
            == 8);
    }
    lemma_word_of(x, "endstream"@);
    assert(s.subrange(a, b) =~= data);
}

// ------------------------------------------------------- indirect objects

/// An object with its number and generation, between `obj` and `endobj`.
pub open spec fn indirect_text(id: ObjectId, o: ObjV) -> Seq<u8> {
    (integer_written(id.number as int, false) + seq![0x20u8]) + ((integer_written(
        id.generation as int,
        false,
    ) + seq![0x20u8]) + (seq![0x6Fu8, 0x62, 0x6A, 0x20] + (object_text(o) + seq![
        0x65u8,
        0x6E,
        0x64,
        0x6F,
        0x62,
        0x6A,
        0x20,
    ])))
}

/// An indirect object that stands in the input is read back with its number and
/// generation.
#[verifier::rlimit(50)]
pub proof fn law_indirect_round_trip(s: Seq<u8>, p: int, id: ObjectId, o: ObjV, lens: Lengths)
    requires
        stands(s, p, indirect_text(id, o)),
        id.number >= 1,
        writable(o),
        nested_within(o, MAX_PARSE_DEPTH as int),
    ensures
        indirect_at(s, p, lens) matches Ok((found, body, e)) && found == id && body == o,
{
    reveal(indirect_at);
    reveal(object_at);
    let sp = seq![0x20u8];
    let a = integer_written(id.number as int, false);
    let b = integer_written(id.generation as int, false);
    let w = seq![0x6Fu8, 0x62, 0x6A];
    let x = seq![0x65u8, 0x6E, 0x64, 0x6F, 0x62, 0x6A];
    assert(seq![0x6Fu8, 0x62, 0x6A, 0x20] =~= w + sp);
    assert(seq![0x65u8, 0x6E, 0x64, 0x6F, 0x62, 0x6A, 0x20] =~= x + sp);
    let p1 = p + a.len() + 1;
    let p2 = p1 + b.len() + 1;
    let p3 = p2 + 4;
    let p4 = p3 + object_text(o).len();
    lemma_stands_parts(
        s,
        p,
        a + sp,
        (b + sp) + ((w + sp) + (object_text(o) + (x + sp))),
    );
    lemma_stands_parts(s, p1, b + sp, (w + sp) + (object_text(o) + (x + sp)));
    lemma_stands_parts(s, p2, w + sp, object_text(o) + (x + sp));
    lemma_stands_parts(s, p3, object_text(o), x + sp);
    lemma_integer_stands(s, p, id.number as i64);
    lemma_integer_stands(s, p1, id.generation as i64);
    lemma_keyword_stands(s, p2, w);
    lemma_keyword_stands(s, p4, x);
    lemma_words();
    reveal_strlit("obj");
    reveal_strlit("endobj");
    assert forall|i: int| 0 <= i < 3 implies #[trigger] w[i] as char == "obj"@[i] by {
        assert(i == 0 || i == 1 || i == 2);
    }
    lemma_word_of(w, "obj"@);
    assert forall|i: int| 0 <= i < 6 implies #[trigger] x[i] as char == "endobj"@[i] by {
        assert(i == 0 || i == 1 || i == 2 || i == 3 || i == 4 || i == 5);
    }
    lemma_word_of(x, "endobj"@);
    assert(!word(KindV::Keyword(x), "stream"@)) by {
        reveal_strlit("stream");
        assert(x[0] as char == 'e');
    }
    assert(calm(s, p4));
    lemma_object(s, p3, o, 0, lens);
}

} // verus!
