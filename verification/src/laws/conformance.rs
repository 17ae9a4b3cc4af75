//! Laws of conformance and of linearization: what a document says of its own form.

use vstd::prelude::*;
use crate::document::DocV;
use crate::laws::objects::{indirect_text, law_indirect_round_trip, writable};
use crate::laws::pages::written;
use crate::laws::tokens::stands;
use crate::linearize::{
    before_blanks, before_digits, header_before, header_from, linearization_of, mismatch, params_of,
    LinV,
};
use crate::objects::{dict_get, DictV, ObjV, ObjectId};
use crate::parse::{lengths_of, nested_within, NoLengths, MAX_PARSE_DEPTH};
use crate::pdfa::{claim_of, conformance, document_signals, SignalsV, XmpPacket};
use crate::text::utf8_lossy;

verus! {

// ------------------------------------------------------------------- PDF/A

/// The accessible level, in either case.
pub open spec fn accessible(level: Seq<char>) -> bool {
    level == seq!['A'] || level == seq!['a']
}

/// How many of these hold.
pub open spec fn count(a: bool, b: bool) -> int {
    (if a {
        1int
    } else {
        0
    }) + (if b {
        1int
    } else {
        0
    })
}

/// A claim is sound where the document has metadata and output intents and, for the
/// accessible level, marks and a structure tree. Each thing that is missing is told,
/// and so is a missing language at that level.
pub proof fn law_claim(sig: SignalsV, part: u8, level: Seq<char>)
    ensures
        ({
            let c = conformance(sig, Some((part, level)));
            let basic = count(!sig.has_xmp_metadata, sig.output_intent_count == 0);
            let more = count(!sig.mark_info_marked, !sig.has_struct_tree_root) + count(
                sig.catalog_lang is None,
                false,
            );
            &&& c.declared == Some((part, level))
            &&& c.structurally_sound <==> sig.has_xmp_metadata && sig.output_intent_count > 0 && (
            accessible(level) ==> sig.mark_info_marked && sig.has_struct_tree_root)
            &&& accessible(level) ==> c.inconsistencies.len() == basic + more
            &&& !accessible(level) ==> c.inconsistencies.len() == basic
            &&& c.claim_inconsistent <==> c.inconsistencies.len() > 0
        }),
{
    reveal_strlit("A");
    reveal_strlit("a");
    assert("A"@ =~= seq!['A'] && "a"@ =~= seq!['a']);
}

/// A claim is the part and the level of the metadata; without a part there is none,
/// and a level that is missing is empty.
pub proof fn law_claimed(x: &XmpPacket, part: u8, level: Seq<char>)
    ensures
        x.pdfaid_part == Some(part) && (x.pdfaid_conformance matches Some(l) && l@ == level)
            ==> claim_of(Some(x)) == Some((part, level)),
        x.pdfaid_part == Some(part) && x.pdfaid_conformance is None ==> (claim_of(Some(x)) matches
            Some(c) && c.0 == part && c.1.len() == 0),
        x.pdfaid_part is None ==> claim_of(Some(x)) is None,
        claim_of(None) is None,
{
}

/// The signals of a document are read from its catalogue; marks and output intents
/// may be referred to.
pub proof fn law_signals(
    doc: DocV,
    catalog: DictV,
    mo: ObjV,
    marks: DictV,
    oo: ObjV,
    intents: Seq<ObjV>,
    lang: Seq<u8>,
    r: SignalsV,
)
    requires
        doc.catalog() == Ok::<ObjV, Seq<char>>(ObjV::Dict(catalog)),
        document_signals(doc) == Ok::<SignalsV, Seq<char>>(r),
    ensures
        dict_get(catalog, "MarkInfo"@) == Some(mo) && doc.deref(mo) == Ok::<ObjV, Seq<char>>(
            ObjV::Dict(marks),
        ) ==> {
            &&& r.mark_info_marked <==> dict_get(marks, "Marked"@) == Some(ObjV::Bool(true))
            &&& r.mark_info_user_properties <==> dict_get(marks, "UserProperties"@) == Some(
                ObjV::Bool(true),
            )
            &&& r.mark_info_suspects <==> dict_get(marks, "Suspects"@) == Some(ObjV::Bool(true))
        },
        dict_get(catalog, "MarkInfo"@) is None ==> !r.mark_info_marked
            && !r.mark_info_user_properties && !r.mark_info_suspects,
        r.has_struct_tree_root <==> dict_get(catalog, "StructTreeRoot"@) is Some,
        r.has_xmp_metadata <==> dict_get(catalog, "Metadata"@) is Some,
        dict_get(catalog, "Lang"@) == Some(ObjV::LiteralString(lang)) || dict_get(catalog, "Lang"@)
            == Some(ObjV::HexString(lang)) ==> r.catalog_lang == Some(utf8_lossy(lang)),
        dict_get(catalog, "Lang"@) is None ==> r.catalog_lang is None,
        dict_get(catalog, "OutputIntents"@) == Some(oo) && doc.deref(oo) == Ok::<ObjV, Seq<char>>(
            ObjV::Array(intents),
        ) ==> r.output_intent_count == intents.len(),
        dict_get(catalog, "OutputIntents"@) is None ==> r.output_intent_count == 0,
{
}

/// Signals are read wherever marks and output intents can be followed.
pub proof fn law_signals_read(doc: DocV, catalog: DictV)
    requires
        doc.catalog() == Ok::<ObjV, Seq<char>>(ObjV::Dict(catalog)),
        dict_get(catalog, "MarkInfo"@) matches Some(o) ==> doc.deref(o) is Ok,
        dict_get(catalog, "OutputIntents"@) matches Some(o) ==> doc.deref(o) is Ok,
    ensures
        document_signals(doc) is Ok,
{
}

// ------------------------------------------------------------ linearization

/// A number of `/H`, as an item.
pub open spec fn natural(n: u64) -> ObjV {
    ObjV::Integer(n as i64)
}

/// A dictionary says this of how the file is linearized.
pub open spec fn says_linearized(d: DictV, p: LinV) -> bool {
    &&& dict_get(d, "Linearized"@) == Some(written(p.linearized))
    &&& dict_get(d, "L"@) == Some(natural(p.file_length))
    &&& dict_get(d, "H"@) == Some(
        ObjV::Array(
            match p.hint_overflow {
                Some((a, b)) => seq![
                    natural(p.hint_offset),
                    natural(p.hint_length),
                    natural(a),
                    natural(b),
                ],
                None => seq![natural(p.hint_offset), natural(p.hint_length)],
            },
        ),
    )
    &&& dict_get(d, "O"@) == Some(natural(p.first_page_object_number as u64))
    &&& dict_get(d, "E"@) == Some(natural(p.end_of_first_page))
    &&& dict_get(d, "N"@) == Some(natural(p.page_count as u64))
    &&& dict_get(d, "T"@) == Some(natural(p.main_xref_offset))
}

/// All numbers can be written as integers.
pub open spec fn sizes_fit(p: LinV) -> bool {
    &&& p.file_length <= i64::MAX
    &&& p.hint_offset <= i64::MAX
    &&& p.hint_length <= i64::MAX
    &&& p.hint_overflow matches Some((a, b)) ==> a <= i64::MAX && b <= i64::MAX
    &&& p.end_of_first_page <= i64::MAX
    &&& p.main_xref_offset <= i64::MAX
}

/// What a dictionary says of how the file is linearized is read back.
#[verifier::rlimit(50)]
pub proof fn law_parameters(d: DictV, p: LinV)
    requires
        says_linearized(d, p),
        sizes_fit(p),
    ensures
        params_of(d) == Ok::<LinV, Seq<char>>(p),
{
    let two = seq![natural(p.hint_offset), natural(p.hint_length)];
    assert(two[0] == natural(p.hint_offset) && two[1] == natural(p.hint_length));
    if let Some((a, b)) = p.hint_overflow {
        let four = seq![
            natural(p.hint_offset),
            natural(p.hint_length),
            natural(a),
            natural(b),
        ];
        assert(four[0] == natural(p.hint_offset) && four[1] == natural(p.hint_length) && four[2]
            == natural(a) && four[3] == natural(b));
    }
}

/// A missing entry, a negative number, and another count of hints, is refused.
#[verifier::rlimit(50)]
pub proof fn law_bad_parameters(d: DictV, key: Seq<char>, n: i64, items: Seq<ObjV>)
    ensures
        (key == "Linearized"@ || key == "L"@ || key == "H"@ || key == "O"@ || key == "E"@ || key
            == "N"@ || key == "T"@) && dict_get(d, key) is None ==> params_of(d) is Err,
        (key == "L"@ || key == "O"@ || key == "E"@ || key == "N"@ || key == "T"@) && dict_get(
            d,
            key,
        ) == Some(ObjV::Integer(n)) && n < 0 ==> params_of(d) is Err,
        dict_get(d, "H"@) == Some(ObjV::Array(items)) && items.len() != 2 && items.len() != 4
            ==> params_of(d) is Err,
{
}

/// The dictionary fits a file of `n` bytes where the length is right, everything that
/// it points at lies in the file, and there is a page.
pub proof fn law_fits(p: LinV, n: int)
    ensures
        mismatch(p, n) is None <==> p.file_length == n && p.main_xref_offset < n
            && p.end_of_first_page <= n && p.hint_offset < n && p.hint_offset + p.hint_length <= n
            && p.page_count > 0,
{
}

/// White space between numbers.
pub open spec fn spaces(s: Seq<u8>) -> bool {
    forall|i: int|
        0 <= i < s.len() ==> #[trigger] s[i] == 0x20 || s[i] == 0x09 || s[i] == 0x0A || s[i] == 0x0C
            || s[i] == 0x0D
}

/// Decimal digits.
pub open spec fn digits(s: Seq<u8>) -> bool {
    forall|i: int| 0 <= i < s.len() ==> 0x30 <= #[trigger] s[i] <= 0x39
}

proof fn lemma_back_digits(s: Seq<u8>, p: int, q: int)
    requires
        0 <= q <= p < s.len(),
        forall|i: int| q < i <= p ==> 0x30 <= #[trigger] s[i] <= 0x39,
        q == 0 || !(0x30 <= s[q] <= 0x39),
    ensures
        before_digits(s, p) == q,
    decreases p - q,
{
    if q < p {
        lemma_back_digits(s, p - 1, q);
    }
}

proof fn lemma_back_blanks(s: Seq<u8>, p: int, q: int)
    requires
        0 <= q <= p < s.len(),
        forall|i: int|
            q < i <= p ==> #[trigger] s[i] == 0x20 || s[i] == 0x09 || s[i] == 0x0A || s[i] == 0x0C
                || s[i] == 0x0D,
        q == 0 || !(s[q] == 0x20 || s[q] == 0x09 || s[q] == 0x0A || s[q] == 0x0C || s[q] == 0x0D),
    ensures
        before_blanks(s, p) == q,
    decreases p - q,
{
    if q < p {
        lemma_back_blanks(s, p - 1, q);
    }
}

/// The header of an object is found from its word back: two numbers with white space
/// between them, behind something that is no digit.
pub proof fn law_header_before(
    head: Seq<u8>,
    num: Seq<u8>,
    gap: Seq<u8>,
    gen: Seq<u8>,
    rest: Seq<u8>,
)
    requires
        digits(num),
        digits(gen),
        spaces(gap),
        num.len() > 0,
        gap.len() > 0,
        gen.len() > 0,
        head.len() == 0 || !(0x30 <= head.last() <= 0x39),
    ensures
        header_before(head + num + gap + gen + rest, (head + num + gap + gen).len() as int) == Some(
            head.len() as int,
        ),
{
    let s = head + num + gap + gen + rest;
    let h = head.len() as int;
    let a = h + num.len();
    let b = a + gap.len();
    let p = b + gen.len();
    assert forall|i: int| b <= i < p implies 0x30 <= #[trigger] s[i] <= 0x39 by {
        assert(s[i] == gen[i - b]);
    }
    assert forall|i: int| a <= i < b implies #[trigger] s[i] == 0x20 || s[i] == 0x09 || s[i] == 0x0A
        || s[i] == 0x0C || s[i] == 0x0D by {
        assert(s[i] == gap[i - a]);
    }
    assert forall|i: int| h <= i < a implies 0x30 <= #[trigger] s[i] <= 0x39 by {
        assert(s[i] == num[i - h]);
    }
    lemma_back_digits(s, p - 1, b - 1);
    lemma_back_blanks(s, b - 1, a - 1);
    if h > 0 {
        assert(s[h - 1] == head.last());
        lemma_back_digits(s, a - 1, h - 1);
    } else {
        lemma_back_digits(s, a - 1, 0);
    }
}

/// The first object of a file, in its first 2048 bytes, is found where its header
/// begins.
pub proof fn law_first_header(s: Seq<u8>, p: int, q: int, k: int)
    requires
        0 <= k <= p,
        p + 4 <= s.len(),
        s[p] == 0x20,
        s[p + 1] == 0x6F,
        s[p + 2] == 0x62,
        s[p + 3] == 0x6A,
        header_before(s, p) == Some(q),
        forall|i: int|
            0 <= i < p ==> !(#[trigger] s[i] == 0x20 && s[i + 1] == 0x6F && s[i + 2] == 0x62 && s[i
                + 3] == 0x6A),
    ensures
        header_from(s, k) == Some(q),
    decreases p - k,
{
    if k < p {
        assert(!(s[k] == 0x20 && s[k + 1] == 0x6F && s[k + 2] == 0x62 && s[k + 3] == 0x6A));
        law_first_header(s, p, q, k + 1);
    }
}

/// A file whose first object is a dictionary that says how the file is linearized is
/// read as saying that; one whose first object has no `/Linearized` is not
/// linearized.
#[verifier::rlimit(50)]
pub proof fn law_linearized(s: Seq<u8>, q: int, id: ObjectId, d: DictV, p: LinV)
    requires
        s.len() >= 16,
        header_from(
            if s.len() < 2048 {
                s
            } else {
                s.take(2048)
            },
            0,
        ) == Some(q),
        0 <= q,
        stands(s, q, indirect_text(id, ObjV::Dict(d))),
        id.number >= 1,
        writable(ObjV::Dict(d)),
        nested_within(ObjV::Dict(d), MAX_PARSE_DEPTH as int),
    ensures
        says_linearized(d, p) && sizes_fit(p) ==> linearization_of(s) == Ok::<
            Option<LinV>,
            Seq<char>,
        >(Some(p)),
        dict_get(d, "Linearized"@) is None ==> linearization_of(s) == Ok::<Option<LinV>, Seq<char>>(
            None,
        ),
        dict_get(d, "Linearized"@) is Some && params_of(d) is Err ==> linearization_of(s) is Err,
{
    law_indirect_round_trip(s, q, id, ObjV::Dict(d), lengths_of(NoLengths));
    if says_linearized(d, p) && sizes_fit(p) {
        law_parameters(d, p);
    }
}

} // verus!
