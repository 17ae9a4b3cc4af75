//! Laws of limits and refusals: what is too deep, malformed or out of place.

use vstd::prelude::*;
use crate::document::{cache_key, DocV};
use crate::encoding::differences_from;
use crate::filters::{png_rows, predicted, row_bits, PredictorParams};
use crate::lex::{lexed, KindV, TokV};
use crate::link::{links_from, page_links, LinkV};
use crate::destination::NamesV;
use crate::nametree::{leaf_entries, looked_up, walked, walked_kids, TreeKey};
use crate::number::real_to_i64;
use crate::objects::{dict_get, DictV, ObjV, ObjectId};
use crate::ocg::{expression_of, order_items, ExprV};
use crate::outline::{level_from, NodeV};
use crate::pages::{document_pages, inherited_from, listed_kids, pages_below, pages_of_kids};
use crate::parse::{
    array_from, dict_from, integer_or_reference, object_at, object_from, Lengths,
};

verus! {

// ------------------------------------------------------------------- objects

/// A token stands at `p` and behind.
pub open spec fn next_is(s: Seq<u8>, p: int, t: TokV) -> bool {
    lexed(s, p).result == Ok::<Option<TokV>, Seq<char>>(Some(t))
}

/// No object begins with a closing bracket or with a word other than `true`,
/// `false` and `null`; at the end of the input there is none.
pub proof fn law_no_object(s: Seq<u8>, p: int, t: TokV, lens: Lengths, w: Seq<u8>)
    ensures
        next_is(s, p, t) && (t.kind is ArrayEnd || t.kind is DictEnd) ==> object_at(
            s,
            p,
            lens,
        ) is Err,
        next_is(s, p, t) && t.kind == KindV::Keyword(w) && w.len() != 4 && w.len() != 5
            ==> object_at(s, p, lens) is Err,
        lexed(s, p).result == Ok::<Option<TokV>, Seq<char>>(None) ==> object_at(s, p, lens) == Ok::<
            Option<(ObjV, int)>,
            Seq<char>,
        >(None),
        lexed(s, p).result is Err ==> object_at(s, p, lens) is Err,
{
    reveal(object_at);
    reveal_strlit("true");
    reveal_strlit("false");
    reveal_strlit("null");
    assert("true"@.len() == 4 && "false"@.len() == 5 && "null"@.len() == 4);
}

/// An array needs its bracket, and a dictionary its brackets, a name for each key and
/// a value for each name.
pub proof fn law_unfinished(
    s: Seq<u8>,
    p: int,
    depth: int,
    lens: Lengths,
    items: Seq<ObjV>,
    d: DictV,
    start: int,
    t: TokV,
)
    ensures
        lexed(s, p).result == Ok::<Option<TokV>, Seq<char>>(None) ==> array_from(
            s,
            p,
            depth,
            lens,
            items,
        ) is Err && dict_from(s, p, depth, lens, start, d) is Err,
        next_is(s, p, t) && !(t.kind is DictEnd) && !(t.kind is Name) ==> dict_from(
            s,
            p,
            depth,
            lens,
            start,
            d,
        ) is Err,
        next_is(s, p, t) && t.kind is Name && lexed(s, t.end).result == Ok::<
            Option<TokV>,
            Seq<char>,
        >(None) ==> dict_from(s, p, depth, lens, start, d) is Err,
        next_is(s, p, t) && t.kind is DictEnd ==> array_from(s, p, depth, lens, items) is Err,
{
    if t.kind is DictEnd {
        assert(object_from(s, t, depth, lens) is Err);
    }
}

/// Nothing opens a bracket 1024 levels deep.
pub proof fn law_brackets_limited(s: Seq<u8>, t: TokV, depth: int, lens: Lengths)
    requires
        depth >= 1024,
        t.kind is ArrayStart || t.kind is DictStart,
    ensures
        object_from(s, t, depth, lens) is Err,
{
}

/// A reference has a number from 1 to the largest of 32 bits, and a generation of 16
/// bits.
pub proof fn law_reference_range(s: Seq<u8>, p: int, n: i64, g: i64, t2: TokV, t3: TokV)
    requires
        next_is(s, p, t2),
        t2.kind == KindV::Integer(g),
        next_is(s, t2.end, t3),
        t3.kind == KindV::Keyword(seq![0x52u8]),
    ensures
        n < 1 || n > 4294967295 || g < 0 || g > 65535 ==> integer_or_reference(s, n, p) is Err,
        1 <= n <= 4294967295 && 0 <= g <= 65535 ==> integer_or_reference(s, n, p) == Ok::<
            (ObjV, int),
            Seq<char>,
        >((ObjV::Reference(ObjectId { number: n as u32, generation: g as u16 }), t3.end)),
{
    reveal_strlit("R");
    assert("R"@[0] == 'R' && "R"@.len() == 1);
    let b = seq![0x52u8];
    assert(b[0] as char == 'R');
}

/// Two integers that no `R` follows are two integers.
pub proof fn law_two_integers(s: Seq<u8>, p: int, n: i64, t2: TokV, t3: TokV)
    requires
        next_is(s, p, t2),
        t2.kind is Integer,
        next_is(s, t2.end, t3),
        !(t3.kind is Keyword),
    ensures
        integer_or_reference(s, n, p) == Ok::<(ObjV, int), Seq<char>>((ObjV::Integer(n), p)),
{
}

// --------------------------------------------------------------------- pages

/// A page tree is refused more than 256 levels down, at a node that cannot be read or
/// is no dictionary, at another type, and at a node without kids. Kids that are no
/// references are passed over.
pub proof fn law_bad_page_nodes(
    doc: DocV,
    id: ObjectId,
    seen: Set<u64>,
    depth: int,
    out: Seq<ObjectId>,
    d: DictV,
    t: Seq<char>,
    kids: Seq<ObjV>,
    i: int,
)
    ensures
        depth > 256 ==> pages_below(doc, id, seen, depth, out) is Err,
        doc.resolve(id) is Err ==> pages_below(doc, id, seen, depth, out) is Err,
        doc.resolve(id) == Ok::<ObjV, Seq<char>>(ObjV::Null) ==> pages_below(
            doc,
            id,
            seen,
            depth,
            out,
        ) is Err,
        doc.resolve(id) == Ok::<ObjV, Seq<char>>(ObjV::Dict(d)) && (dict_get(d, "Type"@) is None || (
        dict_get(d, "Type"@) == Some(ObjV::Name(t)) && t.len() != 4 && t.len() != 5))
            ==> pages_below(doc, id, seen, depth, out) is Err,
        doc.resolve(id) == Ok::<ObjV, Seq<char>>(ObjV::Dict(d)) && dict_get(d, "Type"@) == Some(
            ObjV::Name("Pages"@),
        ) && dict_get(d, "Kids"@) is None ==> pages_below(doc, id, seen, depth, out) is Err,
        0 <= i < kids.len() && !(kids[i] is Reference) && depth <= 256 ==> pages_of_kids(
            doc,
            kids,
            i,
            seen,
            depth,
            out,
        ) == pages_of_kids(doc, kids, i + 1, seen, depth, out),
{
    reveal_strlit("Page");
    reveal_strlit("Pages");
    assert("Page"@.len() == 4 && "Pages"@.len() == 5);
}

/// A document without a catalogue that is a dictionary, or whose catalogue does not
/// refer to a page tree, is refused.
pub proof fn law_no_page_tree(doc: DocV, catalog: DictV)
    ensures
        doc.catalog() is Err ==> document_pages(doc) is Err,
        doc.catalog() == Ok::<ObjV, Seq<char>>(ObjV::Null) ==> document_pages(doc) is Err,
        doc.catalog() == Ok::<ObjV, Seq<char>>(ObjV::Dict(catalog)) && dict_get(catalog, "Pages"@)
            is None ==> document_pages(doc) is Err,
        doc.catalog() == Ok::<ObjV, Seq<char>>(ObjV::Dict(catalog)) && (dict_get(
            catalog,
            "Pages"@,
        ) matches Some(o) && !(o is Reference)) ==> document_pages(doc) is Err,
{
}

/// Nothing is inherited from the 65th node up, from a node that was passed before, or
/// from what is no node; a node that cannot be read is refused.
pub proof fn law_inheritance_ends(
    doc: DocV,
    id: ObjectId,
    key: Seq<char>,
    seen: Set<u64>,
    depth: int,
)
    ensures
        depth >= 64 ==> inherited_from(doc, Some(ObjV::Reference(id)), key, seen, depth) == Ok::<
            Option<ObjV>,
            Seq<char>,
        >(None),
        seen.contains(cache_key(id)) ==> inherited_from(
            doc,
            Some(ObjV::Reference(id)),
            key,
            seen,
            depth,
        ) == Ok::<Option<ObjV>, Seq<char>>(None),
        inherited_from(doc, None, key, seen, depth) == Ok::<Option<ObjV>, Seq<char>>(None),
        depth < 64 && !seen.contains(cache_key(id)) && doc.resolve(id) is Err ==> inherited_from(
            doc,
            Some(ObjV::Reference(id)),
            key,
            seen,
            depth,
        ) is Err,
{
}

/// No page is listed behind 100001 of them.
pub proof fn law_listing_ends(doc: DocV, kids: Seq<ObjV>, i: int, fuel: int, out: Seq<u32>)
    requires
        0 <= i < kids.len(),
        fuel > 0,
        kids[i] is Reference,
        out.len() > 100_000,
    ensures
        listed_kids(doc, kids, i, fuel, out) == Ok::<Seq<u32>, Seq<char>>(out),
{
}

/// A level of bookmarks ends behind 10001 of them, and at one that was on it before.
pub proof fn law_level_ends(
    doc: DocV,
    id: ObjectId,
    path: Seq<u32>,
    seen: Set<u32>,
    out: Seq<NodeV>,
    fuel: int,
    pages: Map<u32, usize>,
    names: NamesV,
)
    ensures
        out.len() > 10_000 || seen.contains(id.number) ==> level_from(
            doc,
            Some(id),
            path,
            seen,
            out,
            fuel,
            pages,
            names,
        ) == Ok::<Seq<NodeV>, Seq<char>>(out),
        !seen.contains(id.number) && !path.contains(id.number) && out.len() <= 10_000
            && doc.resolve(id) is Err ==> level_from(
            doc,
            Some(id),
            path,
            seen,
            out,
            fuel,
            pages,
            names,
        ) is Err,
{
}

// --------------------------------------------------------------------- trees

/// Nothing is listed or found more than 32 levels down a tree, nor behind 100000
/// entries of a leaf.
pub proof fn law_tree_limits<K: TreeKey>(
    doc: DocV,
    node: DictV,
    payload: Seq<char>,
    seen: Set<u32>,
    depth: int,
    out: Seq<(K::V, ObjV)>,
    key: Seq<u8>,
    items: Seq<ObjV>,
    i: int,
)
    ensures
        depth > 32 ==> walked::<K>(doc, node, payload, seen, depth, out) == Ok::<
            (Set<u32>, Seq<(K::V, ObjV)>),
            Seq<char>,
        >((seen, out)),
        depth > 32 ==> looked_up(doc, node, key, seen, depth) == Ok::<
            (Set<u32>, Option<ObjV>),
            Seq<char>,
        >((seen, None)),
        out.len() >= 100_000 ==> leaf_entries::<K>(items, i, out) == out,
{
}

/// A pair whose key is of another kind is left out, and so is a key without a value.
pub proof fn law_leaf_skips<K: TreeKey>(items: Seq<ObjV>, i: int, out: Seq<(K::V, ObjV)>)
    requires
        0 <= i,
        out.len() < 100_000,
    ensures
        i + 1 < items.len() && K::key_of(items[i]) is None ==> leaf_entries::<K>(items, i, out)
            == leaf_entries::<K>(items, i + 2, out),
        i + 1 == items.len() ==> leaf_entries::<K>(items, i, out) == out,
{
}

/// A kid may stand in the list itself; a kid that was met before is passed over.
pub proof fn law_tree_kids<K: TreeKey>(
    doc: DocV,
    kids: Seq<ObjV>,
    i: int,
    payload: Seq<char>,
    seen: Set<u32>,
    depth: int,
    out: Seq<(K::V, ObjV)>,
    d: DictV,
    id: ObjectId,
)
    requires
        0 <= i < kids.len(),
        depth <= 32,
    ensures
        kids[i] == ObjV::Dict(d) ==> (walked::<K>(doc, d, payload, seen, depth + 1, out) matches Ok(
            r,
        ) ==> walked_kids::<K>(doc, kids, i, payload, seen, depth, out) == walked_kids::<K>(
            doc,
            kids,
            i + 1,
            payload,
            r.0,
            depth,
            r.1,
        )),
        kids[i] == ObjV::Reference(id) && seen.contains(id.number) ==> walked_kids::<K>(
            doc,
            kids,
            i,
            payload,
            seen,
            depth,
            out,
        ) == walked_kids::<K>(doc, kids, i + 1, payload, seen, depth, out),
        kids[i] == ObjV::Reference(id) && !seen.contains(id.number) && doc.resolve(id) is Err
            ==> walked_kids::<K>(doc, kids, i, payload, seen, depth, out) is Err,
{
}

/// Expressions and lists of layers end 32 levels down; an empty expression, and one
/// that does not begin with an operator, is none.
pub proof fn law_layer_limits(doc: DocV, items: Seq<ObjV>, n: int, depth: int)
    ensures
        depth > 32 ==> expression_of(doc, items, depth) == Ok::<Option<ExprV>, Seq<char>>(None),
        depth > 32 ==> order_items(items, n, depth).len() == 0,
        items.len() == 0 ==> expression_of(doc, items, depth) == Ok::<Option<ExprV>, Seq<char>>(
            None,
        ),
        depth <= 32 && items.len() > 0 && !(items[0] is Name) ==> expression_of(doc, items, depth)
            == Ok::<Option<ExprV>, Seq<char>>(None),
{
}

// -------------------------------------------------------------------- others

/// Data with a PNG predictor are whole rows, each behind a tag from 0 to 4; anything
/// else is refused.
pub proof fn law_png_refusals(data: Seq<u8>, p: PredictorParams)
    requires
        10 <= p.predictor <= 15,
    ensures
        data.len() as int % ((row_bits(p) + 7) / 8 + 1) != 0 ==> predicted(data, p) is Err,
        data.len() > 0 && data[0] > 4 ==> predicted(data, p) is Err,
{
    let width = (row_bits(p) + 7) / 8;
    assert(row_bits(p) >= 0) by (nonlinear_arith)
        requires
            row_bits(p) == p.colors * p.bits_per_component * p.columns,
            p.colors >= 0,
            p.columns >= 0,
            p.bits_per_component >= 0,
    ;
    if data.len() > 0 && data[0] > 4 && data.len() as int % (width + 1) == 0 {
        if data.len() < width + 1 {
            vstd::arithmetic::div_mod::lemma_small_mod(data.len(), (width + 1) as nat);
        }
        assert(png_rows(
            data,
            (p.colors * p.bits_per_component + 7) / 8,
            width,
            crate::filters::copies(0, width),
        ) is Err);
    }
}

/// A code of a font may be given with a point; its fraction does not count.
pub proof fn law_real_code(items: Seq<ObjV>, i: int, t: Seq<u8>, running: Option<int>)
    requires
        0 <= i < items.len(),
        items[i] == ObjV::Real(t),
        0 <= real_to_i64(t) <= 255,
    ensures
        differences_from(items, i, running) == differences_from(
            items,
            i + 1,
            Some(real_to_i64(t) as int),
        ),
{
}

/// An annotation or a list of annotations that cannot be followed refuses the links;
/// a page without annotations has none.
pub proof fn law_link_refusals(
    doc: DocV,
    id: ObjectId,
    d: DictV,
    o: ObjV,
    annots: Seq<ObjV>,
    i: int,
    page: int,
    pages: Map<u32, usize>,
    names: NamesV,
    out: Seq<LinkV>,
)
    ensures
        0 <= i < annots.len() && doc.deref(annots[i]) is Err ==> links_from(
            doc,
            annots,
            i,
            page,
            pages,
            names,
            out,
        ) is Err,
        doc.resolve(id) is Err ==> page_links(doc, id, page, pages, names, out) is Err,
        doc.resolve(id) == Ok::<ObjV, Seq<char>>(ObjV::Dict(d)) && dict_get(d, "Annots"@) == Some(o)
            && doc.deref(o) is Err ==> page_links(doc, id, page, pages, names, out) is Err,
        doc.resolve(id) == Ok::<ObjV, Seq<char>>(ObjV::Dict(d)) && dict_get(d, "Annots"@) is None
            ==> page_links(doc, id, page, pages, names, out) == Ok::<Seq<LinkV>, Seq<char>>(out),
{
}

} // verus!
