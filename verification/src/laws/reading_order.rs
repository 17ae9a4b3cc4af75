//! Laws of the reading order: what a structure tree says of the order of text.

use vstd::prelude::*;
use crate::document::DocV;
use crate::laws::pages::{lemma_seen_with, lemma_unseen, seen_with, unseen};
use crate::layout::{
    bucket, element_walked, flat, kid_walked, kids_walked, logical_order, mark_key, places,
    struct_root, LayoutMode, MarkedV, OrderedV, RunV, TreeV,
};
use crate::objects::{dict_get, DictV, ObjV, ObjectId};

verus! {

// ------------------------------------------------------------------- marks

/// A piece of text belongs to a marked content of a page.
pub open spec fn belongs(m: MarkedV, page: u32, mcid: u32) -> bool {
    m.page_obj_num == page && m.mcid == Some(mcid)
}

/// The text of a marked content: the pieces that belong to it, in order.
pub open spec fn marked_text(marked: Seq<MarkedV>, page: u32, mcid: u32) -> Seq<RunV> {
    marked.filter(|m: MarkedV| belongs(m, page, mcid)).map_values(|m: MarkedV| m.run)
}

proof fn lemma_mark_key(a: u32, b: u32, c: u32, d: u32)
    ensures
        mark_key(a, b) == mark_key(c, d) <==> a == c && b == d,
{
    assert(a * 0x1_0000_0000 + b <= u64::MAX);
    assert(c * 0x1_0000_0000 + d <= u64::MAX);
}

proof fn lemma_bucket(marked: Seq<MarkedV>, n: int, page: u32, mcid: u32)
    requires
        0 <= n <= marked.len(),
    ensures
        places(marked, n, mark_key(page, mcid)).map_values(|i: int| marked[i].run) == marked_text(
            marked.take(n),
            page,
            mcid,
        ),
    decreases n,
{
    let f = |i: int| marked[i].run;
    let g = |m: MarkedV| m.run;
    let p = |m: MarkedV| belongs(m, page, mcid);
    let key = mark_key(page, mcid);
    reveal(Seq::filter);
    if n > 0 {
        lemma_bucket(marked, n - 1, page, mcid);
        let m = marked[n - 1];
        assert(marked.take(n).drop_last() =~= marked.take(n - 1));
        assert(marked.take(n).last() == m);
        if let Some(c) = m.mcid {
            lemma_mark_key(m.page_obj_num, c, page, mcid);
        }
        if p(m) {
            assert(places(marked, n - 1, key).push(n - 1).map_values(f) =~= places(
                marked,
                n - 1,
                key,
            ).map_values(f).push(m.run));
            assert(marked.take(n - 1).filter(p).push(m).map_values(g) =~= marked.take(n - 1).filter(
                p,
            ).map_values(g).push(m.run));
        }
    } else {
        assert(marked.take(0).filter(p).map_values(g) =~= Seq::empty());
        assert(places(marked, 0, key).map_values(f) =~= Seq::empty());
    }
}

/// The text of a marked content is what belongs to it, in order, and nothing else.
pub proof fn law_marked_text(marked: Seq<MarkedV>, page: u32, mcid: u32)
    ensures
        bucket(marked, mark_key(page, mcid)) == marked_text(marked, page, mcid),
{
    lemma_bucket(marked, marked.len() as int, page, mcid);
    assert(marked.take(marked.len() as int) =~= marked);
}

// -------------------------------------------------------------------- trees

/// A structure tree.
pub enum Structure {
    /// The number of a marked content.
    Mark(u32),
    /// A marked content with the page that it is on.
    MarkOn(Option<ObjectId>, u32),
    /// An element with its page, and what it holds.
    Element(Option<ObjectId>, Box<Structure>),
    /// An element that holds nothing.
    Empty,
    /// An object that is marked, such as an annotation.
    Annotation,
    List(Seq<Structure>),
    /// What a reference leads to.
    Linked(ObjectId, Box<Structure>),
}

/// The entry `/Pg` names this page.
pub open spec fn says_page(d: DictV, page: Option<ObjectId>) -> bool {
    dict_get(d, "Pg"@) == match page {
        Some(id) => Some(ObjV::Reference(id)),
        None => None,
    }
}

/// A dictionary is an element of the tree.
pub open spec fn is_element(d: DictV) -> bool {
    dict_get(d, "Type"@) != Some(ObjV::Name("MCR"@)) && dict_get(d, "Type"@) != Some(
        ObjV::Name("OBJR"@),
    )
}

/// An object shows the tree, in which no element is nested deeper than 64.
pub open spec fn shows(doc: DocV, o: ObjV, t: Structure, depth: int) -> bool
    decreases t, 0int,
{
    match t {
        Structure::Mark(n) => o == ObjV::Integer(n as i64),
        Structure::MarkOn(page, n) => {
            &&& o matches ObjV::Dict(d)
            &&& dict_get(d, "Type"@) == Some(ObjV::Name("MCR"@))
            &&& dict_get(d, "MCID"@) == Some(ObjV::Integer(n as i64))
            &&& says_page(d, page)
        },
        Structure::Element(page, k) => {
            &&& o matches ObjV::Dict(d)
            &&& is_element(d)
            &&& says_page(d, page)
            &&& depth <= 64
            &&& dict_get(d, "K"@) matches Some(v)
            &&& shows(doc, v, *k, depth + 1)
        },
        Structure::Empty => {
            &&& o matches ObjV::Dict(d)
            &&& is_element(d)
            &&& dict_get(d, "K"@) is None
        },
        Structure::Annotation => {
            &&& o matches ObjV::Dict(d)
            &&& dict_get(d, "Type"@) == Some(ObjV::Name("OBJR"@))
        },
        Structure::List(ts) => {
            &&& o matches ObjV::Array(items)
            &&& items.len() == ts.len()
            &&& all_show(doc, items, ts, ts.len() as int, depth)
        },
        Structure::Linked(id, t) => {
            &&& o == ObjV::Reference(id)
            &&& doc.resolve(id) matches Ok(v)
            &&& shows(doc, v, *t, depth)
        },
    }
}

/// The first `n` objects show the trees.
pub open spec fn all_show(
    doc: DocV,
    items: Seq<ObjV>,
    ts: Seq<Structure>,
    n: int,
    depth: int,
) -> bool
    decreases ts, n,
{
    n <= 0 || n > ts.len() || n > items.len() || (all_show(doc, items, ts, n - 1, depth) && shows(
        doc,
        items[n - 1],
        ts[n - 1],
        depth,
    ))
}

/// The references in a tree, in tree order.
pub open spec fn links(t: Structure) -> Seq<ObjectId>
    decreases t, 0int,
{
    match t {
        Structure::Element(_, k) => links(*k),
        Structure::List(ts) => links_among(ts, ts.len() as int),
        Structure::Linked(id, t) => seq![id] + links(*t),
        _ => Seq::empty(),
    }
}

/// The references in the first `n` trees.
pub open spec fn links_among(ts: Seq<Structure>, n: int) -> Seq<ObjectId>
    decreases ts, n,
{
    if n <= 0 || n > ts.len() {
        Seq::empty()
    } else {
        links_among(ts, n - 1) + links(ts[n - 1])
    }
}

/// The page that counts: the one that is named here, or the one from above.
pub open spec fn page_here(page: Option<ObjectId>, above: Option<u32>) -> Option<u32> {
    match page {
        Some(id) => Some(id.number),
        None => above,
    }
}

/// The text of a marked content whose page may be unknown.
pub open spec fn text_on(marked: Seq<MarkedV>, page: Option<u32>, mcid: u32) -> Seq<RunV> {
    match page {
        Some(p) => marked_text(marked, p, mcid),
        None => Seq::empty(),
    }
}

/// The text of a tree: that of every marked content in it, in tree order.
pub open spec fn tree_text(marked: Seq<MarkedV>, t: Structure, page: Option<u32>) -> Seq<RunV>
    decreases t, 0int,
{
    match t {
        Structure::Mark(n) => text_on(marked, page, n),
        Structure::MarkOn(p, n) => text_on(marked, page_here(p, page), n),
        Structure::Element(p, k) => tree_text(marked, *k, page_here(p, page)),
        Structure::List(ts) => texts_among(marked, ts, ts.len() as int, page),
        Structure::Linked(_, t) => tree_text(marked, *t, page),
        Structure::Empty | Structure::Annotation => Seq::empty(),
    }
}

/// The text of the first `n` trees.
pub open spec fn texts_among(
    marked: Seq<MarkedV>,
    ts: Seq<Structure>,
    n: int,
    page: Option<u32>,
) -> Seq<RunV>
    decreases ts, n,
{
    if n <= 0 || n > ts.len() {
        Seq::empty()
    } else {
        texts_among(marked, ts, n - 1, page) + tree_text(marked, ts[n - 1], page)
    }
}

proof fn lemma_types()
    ensures
        "MCR"@ != "OBJR"@,
{
    reveal_strlit("MCR");
    reveal_strlit("OBJR");
    assert("MCR"@.len() == 3 && "OBJR"@.len() == 4);
}

#[verifier::rlimit(50)]
proof fn lemma_walk(
    doc: DocV,
    marked: Seq<MarkedV>,
    o: ObjV,
    t: Structure,
    page: Option<u32>,
    depth: int,
    fuel: int,
    w: TreeV,
)
    requires
        shows(doc, o, t, depth),
        unseen(w.visited, links(t)),
        links(t).no_duplicates(),
        links(t).len() <= fuel,
    ensures
        kid_walked(doc, marked, o, page, depth, fuel, w) == Ok::<TreeV, Seq<char>>(
            TreeV {
                visited: seen_with(w.visited, links(t)),
                out: w.out + tree_text(marked, t, page),
            },
        ),
    decreases t, 0int,
{
    lemma_types();
    assert(w.out + Seq::<RunV>::empty() =~= w.out);
    match t {
        Structure::Mark(n) => {
            if let Some(p) = page {
                law_marked_text(marked, p, n);
            }
        },
        Structure::MarkOn(p, n) => {
            if let Some(p) = page_here(p, page) {
                law_marked_text(marked, p, n);
            }
        },
        Structure::Element(p, k) => {
            let d = o->Dict_0;
            law_element_walked(
                doc,
                marked,
                d,
                dict_get(d, "K"@)->Some_0,
                p,
                page,
                depth,
                fuel,
                w,
            );
            lemma_walk(
                doc,
                marked,
                dict_get(d, "K"@)->Some_0,
                *k,
                page_here(p, page),
                depth + 1,
                fuel,
                w,
            );
        },
        Structure::List(ts) => {
            lemma_walks(doc, marked, o->Array_0, ts, ts.len() as int, page, depth, fuel, w);
        },
        Structure::Linked(id, k) => {
            let seen = w.visited.insert(crate::document::cache_key(id));
            lemma_unseen(w.visited, seq![id], links(*k));
            assert(links(t)[0] == id);
            assert(links(t).skip(1) =~= links(*k));
            reveal_with_fuel(seen_with, 2);
            assert(seq![id].skip(1) =~= Seq::empty());
            lemma_walk(
                doc,
                marked,
                doc.resolve(id)->Ok_0,
                *k,
                page,
                depth,
                fuel - 1,
                TreeV { visited: seen, ..w },
            );
        },
        Structure::Empty => {
            assert(element_walked(doc, marked, o->Dict_0, page, depth, fuel, w) == Ok::<
                TreeV,
                Seq<char>,
            >(w));
        },
        Structure::Annotation => {},
    }
}

proof fn lemma_walks(
    doc: DocV,
    marked: Seq<MarkedV>,
    items: Seq<ObjV>,
    ts: Seq<Structure>,
    n: int,
    page: Option<u32>,
    depth: int,
    fuel: int,
    w: TreeV,
)
    requires
        0 <= n <= ts.len(),
        items.len() == ts.len(),
        all_show(doc, items, ts, n, depth),
        unseen(w.visited, links_among(ts, n)),
        links_among(ts, n).no_duplicates(),
        links_among(ts, n).len() <= fuel,
    ensures
        kids_walked(doc, marked, items, n, page, depth, fuel, w) == Ok::<TreeV, Seq<char>>(
            TreeV {
                visited: seen_with(w.visited, links_among(ts, n)),
                out: w.out + texts_among(marked, ts, n, page),
            },
        ),
    decreases ts, n,
{
    if n > 0 {
        let a = links_among(ts, n - 1);
        let b = links(ts[n - 1]);
        lemma_unseen(w.visited, a, b);
        lemma_seen_with(w.visited, a, b);
        lemma_walks(doc, marked, items, ts, n - 1, page, depth, fuel, w);
        let next = TreeV {
            visited: seen_with(w.visited, a),
            out: w.out + texts_among(marked, ts, n - 1, page),
        };
        lemma_walk(doc, marked, items[n - 1], ts[n - 1], page, depth, fuel, next);
        assert(w.out + texts_among(marked, ts, n - 1, page) + tree_text(marked, ts[n - 1], page)
            =~= w.out + texts_among(marked, ts, n, page));
    } else {
        assert(w.out + texts_among(marked, ts, n, page) =~= w.out);
    }
}

/// An element that is nested no deeper than 64 is walked through its `/K`, with its
/// own page or else the page of the element around it; one that is nested deeper is
/// passed over.
pub proof fn law_element_walked(
    doc: DocV,
    marked: Seq<MarkedV>,
    d: DictV,
    k: ObjV,
    own: Option<ObjectId>,
    page: Option<u32>,
    depth: int,
    fuel: int,
    w: TreeV,
)
    requires
        is_element(d),
        says_page(d, own),
        dict_get(d, "K"@) == Some(k),
    ensures
        depth <= 64 ==> kid_walked(doc, marked, ObjV::Dict(d), page, depth, fuel, w) == kid_walked(
            doc,
            marked,
            k,
            page_here(own, page),
            depth + 1,
            fuel,
            w,
        ),
        depth > 64 ==> kid_walked(doc, marked, ObjV::Dict(d), page, depth, fuel, w) == Ok::<
            TreeV,
            Seq<char>,
        >(w),
        element_walked(doc, marked, d, page, depth, fuel, w) == kid_walked(
            doc,
            marked,
            ObjV::Dict(d),
            page,
            depth,
            fuel,
            w,
        ),
{
    lemma_types();
}

/// The walk through a tree without cycles, no deeper than 64, puts out the text of
/// every marked content that a leaf of it names, in tree order.
pub proof fn law_tree_walked(
    doc: DocV,
    marked: Seq<MarkedV>,
    o: ObjV,
    t: Structure,
    page: Option<u32>,
    fuel: int,
)
    requires
        shows(doc, o, t, 0),
        links(t).no_duplicates(),
        links(t).len() <= fuel,
    ensures
        kid_walked(
            doc,
            marked,
            o,
            page,
            0,
            fuel,
            TreeV { visited: Set::empty(), out: Seq::empty() },
        ) matches Ok(w) && w.out == tree_text(marked, t, page),
{
    lemma_walk(
        doc,
        marked,
        o,
        t,
        page,
        0,
        fuel,
        TreeV { visited: Set::empty(), out: Seq::empty() },
    );
    assert(Seq::<RunV>::empty() + tree_text(marked, t, page) =~= tree_text(marked, t, page));
}

/// Objects of different numbers.
pub open spec fn numbers_differ(ids: Seq<ObjectId>) -> bool {
    forall|i: int, j: int|
        0 <= i < ids.len() && 0 <= j < ids.len() && i != j ==> (#[trigger] ids[i]).number != (
        #[trigger] ids[j]).number
}

proof fn lemma_links_resolve(doc: DocV, o: ObjV, t: Structure, depth: int, i: int)
    requires
        shows(doc, o, t, depth),
        0 <= i < links(t).len(),
    ensures
        doc.resolve(links(t)[i]) is Ok,
    decreases t, 0int,
{
    match t {
        Structure::Element(_, k) => {
            lemma_links_resolve(doc, dict_get(o->Dict_0, "K"@)->Some_0, *k, depth + 1, i);
        },
        Structure::List(ts) => {
            lemma_links_resolve_among(doc, o->Array_0, ts, ts.len() as int, depth, i);
        },
        Structure::Linked(id, k) => {
            if i > 0 {
                lemma_links_resolve(doc, doc.resolve(id)->Ok_0, *k, depth, i - 1);
            }
        },
        _ => {},
    }
}

proof fn lemma_links_resolve_among(
    doc: DocV,
    items: Seq<ObjV>,
    ts: Seq<Structure>,
    n: int,
    depth: int,
    i: int,
)
    requires
        items.len() == ts.len(),
        0 <= n <= ts.len(),
        all_show(doc, items, ts, n, depth),
        0 <= i < links_among(ts, n).len(),
    ensures
        doc.resolve(links_among(ts, n)[i]) is Ok,
    decreases ts, n,
{
    if n > 0 {
        let a = links_among(ts, n - 1);
        if i < a.len() {
            lemma_links_resolve_among(doc, items, ts, n - 1, depth, i);
        } else {
            lemma_links_resolve(doc, items[n - 1], ts[n - 1], depth, i - a.len());
        }
    }
}

/// A document whose structure tree has no cycles and is no deeper than 64 is read in
/// the order of that tree: the text is that of every marked content that the tree
/// names. Where that is none though text is marked, the order of the pages counts.
pub proof fn law_logical_order(
    doc: DocV,
    root: DictV,
    t: Structure,
    raster: Seq<RunV>,
    marked: Seq<MarkedV>,
)
    requires
        struct_root(doc) == Ok::<Option<DictV>, Seq<char>>(Some(root)),
        t is Element,
        shows(doc, ObjV::Dict(root), t, 0),
        links(t).no_duplicates(),
        links(t).len() <= doc.longest_chain(),
    ensures
        tree_text(marked, t, None).len() > 0 ==> logical_order(doc, Ok(raster), Ok(marked)) == Ok::<
            OrderedV,
            Seq<char>,
        >(OrderedV { mode: LayoutMode::Tagged, runs: tree_text(marked, t, None) }),
        tree_text(marked, t, None).len() == 0 && (exists|i: int|
            0 <= i < marked.len() && (#[trigger] marked[i]).mcid is Some) ==> logical_order(
            doc,
            Ok(raster),
            Ok(marked),
        ) == Ok::<OrderedV, Seq<char>>(OrderedV { mode: LayoutMode::Raster, runs: raster }),
{
    law_tree_walked(doc, marked, ObjV::Dict(root), t, None, doc.longest_chain());
    if let Structure::Element(own, k) = t {
        law_element_walked(
            doc,
            marked,
            root,
            dict_get(root, "K"@)->Some_0,
            own,
            None,
            0,
            doc.longest_chain(),
            TreeV { visited: Set::empty(), out: Seq::empty() },
        );
    }
}

/// Where the table of a document lists its objects, references to objects of
/// different numbers are never too many for a walk.
pub proof fn law_links_within_chain(doc: DocV, o: ObjV, t: Structure)
    requires
        shows(doc, o, t, 0),
        numbers_differ(links(t)),
        doc.xref.entries.dom().finite(),
        links(t).len() <= usize::MAX,
    ensures
        links(t).no_duplicates(),
        links(t).len() <= doc.longest_chain(),
{
    let ids = links(t);
    let ns = Seq::new(ids.len(), |i: int| ids[i].number);
    assert forall|i: int| 0 <= i < ns.len() implies doc.xref.entries.dom().contains(
        #[trigger] ns[i],
    ) by {
        lemma_links_resolve(doc, o, t, 0, i);
        crate::laws::documents::law_object_not_found(doc, ids[i], 0, ids[i], ObjV::Null);
    }
    assert(ns.no_duplicates());
    ns.unique_seq_to_set();
    assert(ns.to_set().subset_of(doc.xref.entries.dom()));
    vstd::set_lib::lemma_len_subset(ns.to_set(), doc.xref.entries.dom());
}

/// The structure tree is the dictionary that the catalogue has as
/// `/StructTreeRoot`, itself or by reference.
pub proof fn law_struct_root(doc: DocV, catalog: DictV, id: ObjectId, root: DictV)
    requires
        doc.catalog() == Ok::<ObjV, Seq<char>>(ObjV::Dict(catalog)),
    ensures
        dict_get(catalog, "StructTreeRoot"@) == Some(ObjV::Dict(root)) ==> struct_root(doc) == Ok::<
            Option<DictV>,
            Seq<char>,
        >(Some(root)),
        dict_get(catalog, "StructTreeRoot"@) == Some(ObjV::Reference(id)) && doc.resolve(id)
            == Ok::<ObjV, Seq<char>>(ObjV::Dict(root)) ==> struct_root(doc) == Ok::<
            Option<DictV>,
            Seq<char>,
        >(Some(root)),
        dict_get(catalog, "StructTreeRoot"@) is None ==> struct_root(doc) == Ok::<
            Option<DictV>,
            Seq<char>,
        >(None),
{
    reveal(DocV::deref);
    reveal_with_fuel(DocV::deref_from, 2);
}

/// Text put together has one space between each two pieces, and none at its ends.
pub proof fn law_flat_text(runs: Seq<RunV>, r: RunV)
    ensures
        flat(Seq::empty(), 0) == Seq::<char>::empty(),
        flat(seq![r], 1) == r.text,
        runs.len() > 0 ==> flat(runs.push(r), runs.len() as int + 1) == flat(
            runs,
            runs.len() as int,
        ) + seq![' '] + r.text,
{
    lemma_flat_prefix(runs, r, runs.len() as int);
}

proof fn lemma_flat_prefix(runs: Seq<RunV>, r: RunV, n: int)
    requires
        0 <= n <= runs.len(),
    ensures
        flat(runs.push(r), n) == flat(runs, n),
    decreases n,
{
    if n > 1 {
        lemma_flat_prefix(runs, r, n - 1);
    }
}

} // verus!
