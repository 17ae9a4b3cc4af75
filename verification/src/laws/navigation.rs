//! Laws of navigation: places in a document, the names of places, bookmarks and
//! links.

use vstd::prelude::*;
use crate::destination::{
    array_text, dest_value, explicit_dest, item_text, items_text, named_from, named_place, DestV,
    NamesV, TargetV,
};
use crate::document::DocV;
use crate::laws::pages::{
    leaves, leaves_from, law_numbers, numbers_written, tree_in, tree_root, trees_in, written,
    PageTree,
};
use crate::link::{
    link_dest, link_of, link_target, links_from, links_of_pages, page_links, LinkTargetV, LinkV,
};
use crate::named_dest::{
    dict_place, lemma_dict_names_in_order, lemma_named_from, lemma_with_name, names_of_dict,
    resolved_name, target_of,
};
use crate::number::{number_is_zero, NumV};
use crate::objects::{dict_get, DictV, ObjV, ObjectId};
use crate::outline::{document_outline, item_target, level_from, node_open, NodeV, OutlineV};
use crate::pages::{index_of_pages, lemma_listed, listed_below, listed_kids, page_index};
use crate::text::{dec, utf8_lossy};
use crate::textstring::{info_text, text_of_bytes};

verus! {

// ------------------------------------------------------------------- places

/// A number that may be left open.
pub open spec fn open_number(n: Option<NumV>) -> ObjV {
    match n {
        Some(v) => written(v),
        None => ObjV::Null,
    }
}

/// A place as an array: the page, the mode and its numbers.
pub open spec fn place_written(d: DestV, page: ObjectId) -> Seq<ObjV> {
    let p = ObjV::Reference(page);
    match d {
        DestV::Xyz { left, top, zoom, .. } => seq![
            p,
            ObjV::Name("XYZ"@),
            open_number(left),
            open_number(top),
            open_number(zoom),
        ],
        DestV::Fit { .. } => seq![p, ObjV::Name("Fit"@)],
        DestV::FitH { top, .. } => seq![p, ObjV::Name("FitH"@), open_number(top)],
        DestV::FitV { left, .. } => seq![p, ObjV::Name("FitV"@), open_number(left)],
        DestV::FitR { left, bottom, right, top, .. } => seq![
            p,
            ObjV::Name("FitR"@),
            written(left),
            written(bottom),
            written(right),
            written(top),
        ],
        DestV::FitB { .. } => seq![p, ObjV::Name("FitB"@)],
        DestV::FitBH { top, .. } => seq![p, ObjV::Name("FitBH"@), open_number(top)],
        DestV::FitBV { left, .. } => seq![p, ObjV::Name("FitBV"@), open_number(left)],
    }
}

proof fn lemma_modes()
    ensures
        "XYZ"@.len() == 3,
        "XYZ"@[0] == 'X',
        "Fit"@.len() == 3,
        "Fit"@[0] == 'F',
        "FitH"@.len() == 4,
        "FitH"@[3] == 'H',
        "FitV"@.len() == 4,
        "FitV"@[3] == 'V',
        "FitR"@.len() == 4,
        "FitR"@[3] == 'R',
        "FitB"@.len() == 4,
        "FitB"@[3] == 'B',
        "FitBH"@.len() == 5,
        "FitBH"@[4] == 'H',
        "FitBV"@.len() == 5,
        "FitBV"@[4] == 'V',
{
    reveal_strlit("XYZ");
    reveal_strlit("Fit");
    reveal_strlit("FitH");
    reveal_strlit("FitV");
    reveal_strlit("FitR");
    reveal_strlit("FitB");
    reveal_strlit("FitBH");
    reveal_strlit("FitBV");
}

/// A place written as an array is read back, on a page that the document has; a zoom
/// of 0 is none.
pub proof fn law_place_round_trip(d: DestV, page: ObjectId, pages: Map<u32, usize>)
    requires
        pages.contains_key(page.number),
        pages[page.number] == d.page(),
        d matches DestV::Xyz { zoom, .. } ==> (zoom matches Some(z) ==> !number_is_zero(z)),
    ensures
        explicit_dest(place_written(d, page), pages) == Some(d),
{
    lemma_modes();
}

/// No place is read from an array without a page of the document or without a mode.
pub proof fn law_no_place(items: Seq<ObjV>, page: ObjectId, mode: Seq<char>, pages: Map<u32, usize>)
    ensures
        items.len() < 2 ==> explicit_dest(items, pages) is None,
        items.len() >= 2 && items[0] == ObjV::Reference(page) && !pages.contains_key(page.number)
            ==> explicit_dest(items, pages) is None,
        items.len() >= 2 && !(items[0] is Reference) ==> explicit_dest(items, pages) is None,
        items.len() >= 2 && items[1] == ObjV::Name(mode) && (mode.len() < 3 || mode.len() > 5)
            ==> explicit_dest(items, pages) is None,
        items.len() >= 2 && !(items[1] is Name) ==> explicit_dest(items, pages) is None,
        explicit_dest(
            seq![
                ObjV::Reference(page),
                ObjV::Name("XYZ"@),
                ObjV::Null,
                ObjV::Null,
                ObjV::Integer(0),
            ],
            pages,
        ) matches Some(d) ==> (d matches DestV::Xyz { left, top, zoom, .. } && left is None
            && top is None && zoom is None),
{
    lemma_modes();
}

/// An array that is no place stays readable: its items in brackets, with a space
/// between each two.
pub proof fn law_array_text(items: Seq<ObjV>, o: ObjV, id: ObjectId, n: Seq<char>, i: i64)
    ensures
        array_text(Seq::empty()) == seq!['[', ']'],
        array_text(seq![o]) == seq!['['] + item_text(o) + seq![']'],
        items.len() > 0 ==> array_text(items.push(o)) == items_text(items, items.len() as int)
            + seq![' '] + item_text(o) + seq![']'],
        item_text(ObjV::Reference(id)) == dec(id.number as int) + seq![' ', '0', ' ', 'R'],
        item_text(ObjV::Name(n)) == seq!['/'] + n,
        item_text(ObjV::Integer(i)) == dec(i as int),
        item_text(ObjV::Null) == seq!['n', 'u', 'l', 'l'],
        item_text(ObjV::Bool(true)) == seq!['?'],
{
    reveal_strlit("[");
    reveal_strlit("]");
    reveal_strlit(" ");
    reveal_strlit(" 0 R");
    reveal_strlit("/");
    reveal_strlit("null");
    reveal_strlit("?");
    assert("["@ =~= seq!['['] && "]"@ =~= seq![']'] && " "@ =~= seq![' '] && "/"@ =~= seq!['/']
        && "null"@ =~= seq!['n', 'u', 'l', 'l'] && "?"@ =~= seq!['?'] && " 0 R"@ =~= seq![
        ' ',
        '0',
        ' ',
        'R',
    ]);
    assert(array_text(Seq::empty()) =~= seq!['[', ']']);
    assert(items_text(seq![o], 0) == "["@);
    assert(items_text(seq![o], 1) == "["@ + item_text(o));
    lemma_items_prefix(items, o, items.len() as int);
}

proof fn lemma_items_prefix(items: Seq<ObjV>, o: ObjV, n: int)
    requires
        0 <= n <= items.len(),
    ensures
        items_text(items.push(o), n) == items_text(items, n),
    decreases n,
{
    if n > 0 {
        lemma_items_prefix(items, o, n - 1);
        assert(items.push(o)[n - 1] == items[n - 1]);
        if n == 1 {
            lemma_items_prefix(items, o, 0);
        }
    }
}

/// What a destination leads to once references are followed: an array to its place,
/// a string or a name to the place that the name has.
pub proof fn law_destination(
    doc: DocV,
    o: ObjV,
    v: ObjV,
    pages: Map<u32, usize>,
    names: NamesV,
    b: Seq<u8>,
    n: Seq<char>,
    d: DestV,
)
    requires
        doc.deref(o) == Ok::<ObjV, Seq<char>>(v),
    ensures
        v matches ObjV::Array(items) ==> {
            &&& explicit_dest(items, pages) == Some(d) ==> dest_value(doc, o, pages, Some(names))
                == (Some(d), None::<Seq<char>>)
            &&& explicit_dest(items, pages) is None ==> dest_value(doc, o, pages, Some(names)) == (
                None::<DestV>,
                Some(array_text(items)),
            )
        },
        v == ObjV::LiteralString(b) || v == ObjV::HexString(b) ==> dest_value(
            doc,
            o,
            pages,
            Some(names),
        ) == (named_place(names, b), Some("named:"@ + text_of_bytes(b))),
        v == ObjV::Name(n) ==> dest_value(doc, o, pages, Some(names)).0 == named_place(
            names,
            vstd::utf8::encode_utf8(n),
        ),
{
}

// -------------------------------------------------------------------- names

/// A name of the dictionary leads where its entry says.
pub proof fn law_dict_name(doc: DocV, d: DictV, n: int, i: int, pages: Map<u32, usize>)
    requires
        0 <= i < n <= d.len(),
        forall|j: int|
            0 <= j < d.len() && j != i ==> vstd::utf8::encode_utf8((#[trigger] d[j]).0)
                != vstd::utf8::encode_utf8(d[i].0),
    ensures
        named_from(names_of_dict(doc, d, n, pages), vstd::utf8::encode_utf8(d[i].0), 0) == Some(
            target_of(doc, d[i].1, pages),
        ),
{
    let x = (vstd::utf8::encode_utf8(d[i].0), target_of(doc, d[i].1, pages));
    lemma_dict_name(doc, d, n, i, pages);
    lemma_dict_names_in_order(doc, d, n, pages);
    lemma_named_from(names_of_dict(doc, d, n, pages), x);
}

proof fn lemma_absent(names: NamesV, name: Seq<u8>, i: int)
    requires
        0 <= i,
        forall|j: int| i <= j < names.len() ==> (#[trigger] names[j]).0 != name,
    ensures
        named_from(names, name, i) is None,
    decreases names.len() - i,
{
    if i < names.len() {
        lemma_absent(names, name, i + 1);
    }
}

proof fn lemma_dict_name(doc: DocV, d: DictV, n: int, i: int, pages: Map<u32, usize>)
    requires
        0 <= i < d.len(),
        0 <= n <= d.len(),
        forall|j: int|
            0 <= j < d.len() && j != i ==> vstd::utf8::encode_utf8((#[trigger] d[j]).0)
                != vstd::utf8::encode_utf8(d[i].0),
    ensures
        ({
            let names = names_of_dict(doc, d, n, pages);
            let name = vstd::utf8::encode_utf8(d[i].0);
            &&& i < n ==> names.contains((name, target_of(doc, d[i].1, pages)))
            &&& i >= n ==> forall|x: (Seq<u8>, TargetV)| #[trigger] names.contains(x) ==> x.0 != name
        }),
    decreases n,
{
    if n > 0 {
        lemma_dict_name(doc, d, n - 1, i, pages);
        lemma_dict_names_in_order(doc, d, n - 1, pages);
        let names = names_of_dict(doc, d, n - 1, pages);
        let here = vstd::utf8::encode_utf8(d[n - 1].0);
        lemma_with_name(names, here, target_of(doc, d[n - 1].1, pages));
        if i == n - 1 {
            assert forall|j: int| 0 <= j < names.len() implies (#[trigger] names[j]).0 != here by {
                assert(names.contains(names[j]));
            }
            lemma_absent(names, here, 0);
        } else {
            assert(vstd::utf8::encode_utf8(d[n - 1].0) != vstd::utf8::encode_utf8(d[i].0));
        }
    }
}

/// The value of a name is a place, or a dictionary that has it under `/D`; either may
/// be referred to.
pub proof fn law_name_target(
    doc: DocV,
    o: ObjV,
    items: Seq<ObjV>,
    d: DictV,
    inner: ObjV,
    pages: Map<u32, usize>,
    p: DestV,
)
    requires
        explicit_dest(items, pages) == Some(p),
    ensures
        doc.deref(o) == Ok::<ObjV, Seq<char>>(ObjV::Array(items)) ==> target_of(doc, o, pages).0
            == Some(p),
        doc.deref(o) == Ok::<ObjV, Seq<char>>(ObjV::Dict(d)) && dict_get(d, "D"@) == Some(inner)
            && doc.deref(inner) == Ok::<ObjV, Seq<char>>(ObjV::Array(items)) ==> target_of(
            doc,
            o,
            pages,
        ).0 == Some(p),
        doc.deref(o) is Err ==> target_of(doc, o, pages).0 is None,
{
    reveal(DocV::deref);
    reveal_with_fuel(DocV::deref_from, 2);
}

/// A name leads to the place that the tree of names has for it, and where it has
/// none to that of the dictionary.
pub proof fn law_name_resolved(
    doc: DocV,
    catalog: DictV,
    names: DictV,
    root: DictV,
    name: Seq<u8>,
    v: ObjV,
    pages: Map<u32, usize>,
    p: DestV,
)
    requires
        page_index(doc) == Ok::<Map<u32, usize>, Seq<char>>(pages),
        doc.catalog() == Ok::<ObjV, Seq<char>>(ObjV::Dict(catalog)),
        dict_get(catalog, "Names"@) matches Some(a) && doc.deref(a) == Ok::<ObjV, Seq<char>>(
            ObjV::Dict(names),
        ),
        dict_get(names, "Dests"@) matches Some(b) && doc.deref(b) == Ok::<ObjV, Seq<char>>(
            ObjV::Dict(root),
        ),
    ensures
        crate::nametree::tree_value(doc, root, name) == Ok::<Option<ObjV>, Seq<char>>(Some(v))
            && target_of(doc, v, pages).0 == Some(p) ==> resolved_name(doc, name) == Ok::<
            Option<DestV>,
            Seq<char>,
        >(Some(p)),
        crate::nametree::tree_value(doc, root, name) == Ok::<Option<ObjV>, Seq<char>>(None)
            ==> resolved_name(doc, name) == dict_place(doc, name, pages),
{
}

/// Without a tree the dictionary of names counts, which the catalogue has or refers
/// to.
pub proof fn law_name_in_dictionary(
    doc: DocV,
    catalog: DictV,
    d: DictV,
    i: int,
    pages: Map<u32, usize>,
)
    requires
        page_index(doc) == Ok::<Map<u32, usize>, Seq<char>>(pages),
        doc.catalog() == Ok::<ObjV, Seq<char>>(ObjV::Dict(catalog)),
        dict_get(catalog, "Names"@) is None,
        dict_get(catalog, "Dests"@) matches Some(a) && doc.deref(a) == Ok::<ObjV, Seq<char>>(
            ObjV::Dict(d),
        ),
        0 <= i < d.len(),
        forall|j: int|
            0 <= j < i ==> vstd::utf8::encode_utf8((#[trigger] d[j]).0)
                != vstd::utf8::encode_utf8(d[i].0),
    ensures
        resolved_name(doc, vstd::utf8::encode_utf8(d[i].0)) == Ok::<Option<DestV>, Seq<char>>(
            target_of(doc, d[i].1, pages).0,
        ),
{
    lemma_dict_entry(d, i, 0);
}

proof fn lemma_dict_entry(d: DictV, i: int, k: int)
    requires
        0 <= k <= i < d.len(),
        forall|j: int|
            0 <= j < i ==> vstd::utf8::encode_utf8((#[trigger] d[j]).0)
                != vstd::utf8::encode_utf8(d[i].0),
    ensures
        crate::named_dest::dict_entry_named(d, vstd::utf8::encode_utf8(d[i].0), k) == Some(d[i].1),
    decreases i - k,
{
    if k < i {
        lemma_dict_entry(d, i, k + 1);
    }
}

// ------------------------------------------------------------- page numbers

/// The numbers of objects.
pub open spec fn numbers_of_ids(ids: Seq<ObjectId>) -> Seq<u32> {
    Seq::new(ids.len(), |i: int| ids[i].number)
}

/// How many levels a tree has below its first node.
pub open spec fn height(t: PageTree) -> int
    decreases t, 0int,
{
    match t {
        PageTree::Page(_) => 0,
        PageTree::Pages(_, kids) => 1 + height_from(kids, 0),
    }
}

/// The greatest height of the trees from place `i` on.
pub open spec fn height_from(kids: Seq<PageTree>, i: int) -> int
    decreases kids, kids.len() - i,
{
    if i < 0 || i >= kids.len() {
        0
    } else if height(kids[i]) > height_from(kids, i + 1) {
        height(kids[i])
    } else {
        height_from(kids, i + 1)
    }
}

proof fn lemma_height(t: PageTree)
    ensures
        height(t) >= 0,
    decreases t, 0int,
{
    if let PageTree::Pages(_, kids) = t {
        lemma_height_from(kids, 0);
    }
}

pub(crate) proof fn lemma_height_from(kids: Seq<PageTree>, i: int)
    ensures
        height_from(kids, i) >= 0,
    decreases kids, kids.len() - i,
{
    if 0 <= i < kids.len() {
        lemma_height(kids[i]);
        lemma_height_from(kids, i + 1);
    }
}

proof fn lemma_listed_tree(doc: DocV, t: PageTree, depth: int, fuel: int, out: Seq<u32>)
    requires
        tree_in(doc, t, depth),
        height(t) <= fuel,
        out.len() + leaves(t).len() <= 100_000,
    ensures
        listed_below(doc, tree_root(t), fuel, out) == Ok::<Seq<u32>, Seq<char>>(
            out + numbers_of_ids(leaves(t)),
        ),
    decreases t, 0int,
{
    reveal_strlit("Page");
    reveal_strlit("Pages");
    assert("Page"@.len() == 4 && "Pages"@.len() == 5);
    match t {
        PageTree::Page(id) => {
            assert(out + numbers_of_ids(leaves(t)) =~= out.push(id.number));
        },
        PageTree::Pages(id, kids) => {
            let items = Seq::new(kids.len(), |i: int| ObjV::Reference(tree_root(kids[i])));
            lemma_height_from(kids, 0);
            lemma_listed_trees(doc, kids, items, 0, depth, fuel, out);
        },
    }
}

proof fn lemma_listed_trees(
    doc: DocV,
    kids: Seq<PageTree>,
    items: Seq<ObjV>,
    i: int,
    depth: int,
    fuel: int,
    out: Seq<u32>,
)
    requires
        0 <= i <= kids.len(),
        items == Seq::new(kids.len(), |i: int| ObjV::Reference(tree_root(kids[i]))),
        trees_in(doc, kids, i, depth + 1),
        height_from(kids, i) <= fuel - 1,
        fuel > 0,
        out.len() + leaves_from(kids, i).len() <= 100_000,
    ensures
        listed_kids(doc, items, i, fuel, out) == Ok::<Seq<u32>, Seq<char>>(
            out + numbers_of_ids(leaves_from(kids, i)),
        ),
    decreases kids, kids.len() - i,
{
    if i < kids.len() {
        assert(items[i] == ObjV::Reference(tree_root(kids[i])));
        lemma_listed_tree(doc, kids[i], depth + 1, fuel - 1, out);
        let next = out + numbers_of_ids(leaves(kids[i]));
        lemma_listed_trees(doc, kids, items, i + 1, depth, fuel, next);
        assert(next + numbers_of_ids(leaves_from(kids, i + 1)) =~= out + numbers_of_ids(
            leaves_from(kids, i),
        ));
    } else {
        assert(out + numbers_of_ids(leaves_from(kids, i)) =~= out);
    }
}

/// The pages that links and bookmarks go by are the leaves of the page tree from left
/// to right, up to 100000 of them, and each has its place in that order.
pub proof fn law_page_index(doc: DocV, catalog: DictV, t: PageTree, i: int)
    requires
        doc.catalog() == Ok::<ObjV, Seq<char>>(ObjV::Dict(catalog)),
        dict_get(catalog, "Pages"@) == Some(ObjV::Reference(tree_root(t))),
        tree_in(doc, t, 0),
        height(t) <= doc.longest_chain(),
        leaves(t).len() <= 100_000,
        numbers_of_ids(leaves(t)).no_duplicates(),
        0 <= i < leaves(t).len(),
    ensures
        crate::pages::listed_pages(doc) == Ok::<Seq<u32>, Seq<char>>(numbers_of_ids(leaves(t))),
        page_index(doc) matches Ok(pages) && pages.contains_key(leaves(t)[i].number)
            && pages[leaves(t)[i].number] == i,
{
    lemma_listed_tree(doc, t, 0, doc.longest_chain(), Seq::empty());
    let ns = numbers_of_ids(leaves(t));
    assert(Seq::<u32>::empty() + ns =~= ns);
    lemma_place_of_page(ns, i);
}

proof fn lemma_place_of_page(ns: Seq<u32>, i: int)
    requires
        ns.no_duplicates(),
        ns.len() <= usize::MAX,
        0 <= i < ns.len(),
    ensures
        index_of_pages(ns).contains_key(ns[i]),
        index_of_pages(ns)[ns[i]] == i,
    decreases ns.len(),
{
    if i < ns.len() - 1 {
        lemma_place_of_page(ns.drop_last(), i);
        assert(ns.last() == ns[ns.len() - 1]);
    }
}

/// Only listed pages have a place.
pub proof fn law_only_listed(ns: Seq<u32>, n: u32)
    ensures
        index_of_pages(ns).contains_key(n) <==> ns.contains(n),
    decreases ns.len(),
{
    if ns.len() > 0 {
        law_only_listed(ns.drop_last(), n);
        if ns.contains(n) {
            let j = choose|j: int| 0 <= j < ns.len() && ns[j] == n;
            lemma_listed(ns, j);
        }
        if ns.drop_last().contains(n) {
            let j = choose|j: int| 0 <= j < ns.drop_last().len() && ns.drop_last()[j] == n;
            assert(ns[j] == n);
        }
        assert(ns.contains(ns.last())) by {
            assert(ns[ns.len() - 1] == ns.last());
        }
    }
}

// ---------------------------------------------------------------- bookmarks

/// A bookmark with those below it.
pub struct Bookmark {
    pub id: ObjectId,
    pub title: Seq<char>,
    pub target: TargetV,
    pub count: Option<i64>,
    pub below: Seq<Bookmark>,
}

/// What a bookmark is read as.
pub open spec fn bookmark_node(m: Bookmark) -> NodeV
    decreases m, 0int,
{
    NodeV {
        title: m.title,
        destination: m.target.0,
        raw_dest: m.target.1,
        count: m.count,
        children: bookmark_nodes(m.below, m.below.len() as int),
    }
}

/// What the first `n` bookmarks are read as.
pub open spec fn bookmark_nodes(ms: Seq<Bookmark>, n: int) -> Seq<NodeV>
    decreases ms, n,
{
    if n <= 0 || n > ms.len() {
        Seq::empty()
    } else {
        bookmark_nodes(ms, n - 1).push(bookmark_node(ms[n - 1]))
    }
}

/// A reference to the bookmark at place `i`, if there is one.
pub open spec fn bookmark_at(ms: Seq<Bookmark>, i: int) -> Option<ObjV> {
    if 0 <= i < ms.len() {
        Some(ObjV::Reference(ms[i].id))
    } else {
        None
    }
}

/// The item has this title, this count and this target.
pub open spec fn item_shows(
    doc: DocV,
    item: DictV,
    m: Bookmark,
    pages: Map<u32, usize>,
    names: NamesV,
) -> bool {
    &&& dict_get(item, "Title"@) matches Some(o) && info_text(o) == Some(m.title)
    &&& dict_get(item, "Count"@) == match m.count {
        Some(c) => Some(ObjV::Integer(c)),
        None => None,
    }
    &&& item_target(doc, item, pages, names) == Ok::<TargetV, Seq<char>>(m.target)
}

/// The document shows the bookmarks from place `i` on: each refers to the next one
/// and to the first one below it, and none lies below itself.
pub open spec fn level_shown(
    doc: DocV,
    ms: Seq<Bookmark>,
    i: int,
    path: Seq<u32>,
    fuel: int,
    pages: Map<u32, usize>,
    names: NamesV,
) -> bool
    decreases ms, ms.len() - i,
{
    if i < 0 || i >= ms.len() {
        true
    } else {
        let m = ms[i];
        &&& !path.contains(m.id.number)
        &&& forall|j: int| 0 <= j < i ==> (#[trigger] ms[j]).id.number != m.id.number
        &&& doc.resolve(m.id) matches Ok(ObjV::Dict(item)) && item_shows(doc, item, m, pages, names)
            && dict_get(item, "Next"@) == bookmark_at(ms, i + 1) && dict_get(item, "First"@)
            == bookmark_at(m.below, 0)
        &&& m.below.len() > 0 ==> fuel > 0
        &&& m.below.len() <= 10_000
        &&& level_shown(doc, m.below, 0, path.push(m.id.number), fuel - 1, pages, names)
        &&& level_shown(doc, ms, i + 1, path, fuel, pages, names)
    }
}

/// The numbers of the first `n` bookmarks.
spec fn met(ms: Seq<Bookmark>, n: int) -> Set<u32>
    decreases n,
{
    if n <= 0 || n > ms.len() {
        Set::empty()
    } else {
        met(ms, n - 1).insert(ms[n - 1].id.number)
    }
}

proof fn lemma_met(ms: Seq<Bookmark>, n: int, x: u32)
    requires
        0 <= n <= ms.len(),
        forall|j: int| 0 <= j < n ==> (#[trigger] ms[j]).id.number != x,
    ensures
        !met(ms, n).contains(x),
    decreases n,
{
    if n > 0 {
        lemma_met(ms, n - 1, x);
    }
}

proof fn lemma_nodes_len(ms: Seq<Bookmark>, n: int)
    requires
        0 <= n <= ms.len(),
    ensures
        bookmark_nodes(ms, n).len() == n,
    decreases n,
{
    if n > 0 {
        lemma_nodes_len(ms, n - 1);
    }
}

spec fn id_at(ms: Seq<Bookmark>, i: int) -> Option<ObjectId> {
    if 0 <= i < ms.len() {
        Some(ms[i].id)
    } else {
        None
    }
}

#[verifier::rlimit(50)]
proof fn lemma_level(
    doc: DocV,
    ms: Seq<Bookmark>,
    i: int,
    path: Seq<u32>,
    fuel: int,
    pages: Map<u32, usize>,
    names: NamesV,
)
    requires
        0 <= i <= ms.len(),
        ms.len() <= 10_000,
        level_shown(doc, ms, i, path, fuel, pages, names),
    ensures
        level_from(doc, id_at(ms, i), path, met(ms, i), bookmark_nodes(ms, i), fuel, pages, names)
            == Ok::<Seq<NodeV>, Seq<char>>(bookmark_nodes(ms, ms.len() as int)),
    decreases ms, ms.len() - i,
{
    if i < ms.len() {
        let m = ms[i];
        let item = doc.resolve(m.id)->Ok_0->Dict_0;
        lemma_met(ms, i, m.id.number);
        lemma_nodes_len(ms, i);
        let below = path.push(m.id.number);
        if m.below.len() > 0 {
            lemma_level(doc, m.below, 0, below, fuel - 1, pages, names);
        }
        assert(crate::outline::item_children(doc, item, below, fuel, pages, names) == Ok::<
            Seq<NodeV>,
            Seq<char>,
        >(bookmark_nodes(m.below, m.below.len() as int)));
        lemma_level(doc, ms, i + 1, path, fuel, pages, names);
        assert(crate::outline::item_node(
            item,
            m.target.0,
            m.target.1,
            bookmark_nodes(m.below, m.below.len() as int),
        ) == bookmark_node(m));
        assert(bookmark_nodes(ms, i + 1) == bookmark_nodes(ms, i).push(bookmark_node(m)));
        assert(crate::pages::dict_ref(item, "Next"@) == id_at(ms, i + 1));
    }
}

/// The outline of a document holds every bookmark, each with its title, its target,
/// its count and the bookmarks below it, in the order in which they follow one
/// another.
#[verifier::rlimit(50)]
pub proof fn law_outline(
    doc: DocV,
    catalog: DictV,
    root_id: ObjectId,
    root: DictV,
    ms: Seq<Bookmark>,
    pages: Map<u32, usize>,
    names: NamesV,
    count: Option<i64>,
)
    requires
        page_index(doc) == Ok::<Map<u32, usize>, Seq<char>>(pages),
        crate::named_dest::all_names(doc, pages) == Ok::<NamesV, Seq<char>>(names),
        doc.catalog() == Ok::<ObjV, Seq<char>>(ObjV::Dict(catalog)),
        dict_get(catalog, "Outlines"@) == Some(ObjV::Reference(root_id)),
        doc.resolve(root_id) == Ok::<ObjV, Seq<char>>(ObjV::Dict(root)),
        dict_get(root, "First"@) == bookmark_at(ms, 0),
        dict_get(root, "Count"@) == match count {
            Some(c) => Some(ObjV::Integer(c)),
            None => None,
        },
        ms.len() <= 10_000,
        level_shown(doc, ms, 0, Seq::empty(), doc.longest_chain(), pages, names),
    ensures
        document_outline(doc) == Ok::<Option<OutlineV>, Seq<char>>(
            Some(OutlineV { roots: bookmark_nodes(ms, ms.len() as int), count }),
        ),
{
    lemma_level(doc, ms, 0, Seq::empty(), doc.longest_chain(), pages, names);
}

/// A document without `/Outlines` has no outline.
pub proof fn law_no_outline(doc: DocV, catalog: DictV)
    requires
        page_index(doc) matches Ok(pages) && crate::named_dest::all_names(doc, pages) is Ok,
        doc.catalog() == Ok::<ObjV, Seq<char>>(ObjV::Dict(catalog)),
        dict_get(catalog, "Outlines"@) is None,
    ensures
        document_outline(doc) == Ok::<Option<OutlineV>, Seq<char>>(None),
{
}

proof fn lemma_actions()
    ensures
        "GoTo"@ != "URI"@,
{
    reveal_strlit("GoTo");
    reveal_strlit("URI");
    assert("GoTo"@.len() == 4 && "URI"@.len() == 3);
}

/// A bookmark leads where its destination says; without one, where its action goes.
/// The action may be referred to.
pub proof fn law_bookmark_target(
    doc: DocV,
    item: DictV,
    o: ObjV,
    action: DictV,
    d: ObjV,
    uri: Seq<u8>,
    pages: Map<u32, usize>,
    names: NamesV,
)
    ensures
        dict_get(item, "Dest"@) == Some(d) ==> item_target(doc, item, pages, names) == Ok::<
            TargetV,
            Seq<char>,
        >(dest_value(doc, d, pages, Some(names))),
        dict_get(item, "Dest"@) is None && dict_get(item, "A"@) is None ==> item_target(
            doc,
            item,
            pages,
            names,
        ) == Ok::<TargetV, Seq<char>>((None, None)),
        dict_get(item, "Dest"@) is None && dict_get(item, "A"@) == Some(o) && doc.deref(o) == Ok::<
            ObjV,
            Seq<char>,
        >(ObjV::Dict(action)) ==> {
            &&& dict_get(action, "S"@) == Some(ObjV::Name("GoTo"@)) && dict_get(action, "D"@)
                == Some(d) ==> item_target(doc, item, pages, names) == Ok::<TargetV, Seq<char>>(
                dest_value(doc, d, pages, Some(names)),
            )
            &&& dict_get(action, "S"@) == Some(ObjV::Name("URI"@)) && (dict_get(action, "URI"@)
                == Some(ObjV::LiteralString(uri)) || dict_get(action, "URI"@) == Some(
                ObjV::HexString(uri),
            )) ==> item_target(doc, item, pages, names) == Ok::<TargetV, Seq<char>>(
                (None, Some("uri:"@ + utf8_lossy(uri))),
            )
        },
{
    lemma_actions();
}

/// A bookmark is open where its count is above 0, closed where it is not, and where
/// it has no count open if nothing lies below it.
pub proof fn law_bookmark_open(n: NodeV, c: i64)
    ensures
        n.count == Some(c) && c > 0 ==> node_open(n),
        n.count == Some(c) && c <= 0 ==> !node_open(n),
        n.count is None ==> (node_open(n) <==> n.children.len() == 0),
{
}

// -------------------------------------------------------------------- links

/// A link leads where its destination says; without one, where its action goes.
pub proof fn law_link_target(
    doc: DocV,
    annot: DictV,
    o: ObjV,
    action: DictV,
    d: ObjV,
    v: ObjV,
    uri: Seq<u8>,
    pages: Map<u32, usize>,
    names: NamesV,
)
    requires
        doc.deref(d) == Ok::<ObjV, Seq<char>>(v),
    ensures
        dict_get(annot, "Dest"@) == Some(d) ==> link_target(doc, annot, pages, names) == Ok::<
            Option<LinkTargetV>,
            Seq<char>,
        >(link_dest(v, pages, names)),
        dict_get(annot, "Dest"@) is None && dict_get(annot, "A"@) is None ==> link_target(
            doc,
            annot,
            pages,
            names,
        ) == Ok::<Option<LinkTargetV>, Seq<char>>(None),
        dict_get(annot, "Dest"@) is None && dict_get(annot, "A"@) == Some(o) && doc.deref(o)
            == Ok::<ObjV, Seq<char>>(ObjV::Dict(action)) ==> {
            &&& dict_get(action, "S"@) == Some(ObjV::Name("GoTo"@)) && dict_get(action, "D"@)
                == Some(d) ==> link_target(doc, annot, pages, names) == Ok::<
                Option<LinkTargetV>,
                Seq<char>,
            >(link_dest(v, pages, names))
            &&& dict_get(action, "S"@) == Some(ObjV::Name("URI"@)) && (dict_get(action, "URI"@)
                == Some(ObjV::LiteralString(uri)) || dict_get(action, "URI"@) == Some(
                ObjV::HexString(uri),
            )) ==> link_target(doc, annot, pages, names) == Ok::<Option<LinkTargetV>, Seq<char>>(
                Some(LinkTargetV::Uri(utf8_lossy(uri))),
            )
        },
{
    lemma_actions();
}

/// A link leads to the place that it describes, or that its name has; a name without
/// a place stays a name.
pub proof fn law_link_dest(
    items: Seq<ObjV>,
    b: Seq<u8>,
    n: Seq<char>,
    pages: Map<u32, usize>,
    names: NamesV,
    p: DestV,
)
    ensures
        explicit_dest(items, pages) == Some(p) ==> link_dest(ObjV::Array(items), pages, names)
            == Some(LinkTargetV::Internal(p)),
        explicit_dest(items, pages) is None ==> link_dest(ObjV::Array(items), pages, names) is None,
        link_dest(ObjV::HexString(b), pages, names) == link_dest(
            ObjV::LiteralString(b),
            pages,
            names,
        ),
        link_dest(ObjV::Name(n), pages, names) == link_dest(
            ObjV::LiteralString(vstd::utf8::encode_utf8(n)),
            pages,
            names,
        ),
        named_place(names, b) == Some(p) ==> link_dest(ObjV::LiteralString(b), pages, names)
            == Some(LinkTargetV::Internal(p)),
        named_place(names, b) is None ==> link_dest(ObjV::LiteralString(b), pages, names) == Some(
            LinkTargetV::Named(text_of_bytes(b)),
        ),
{
}

/// The link that an item of `/Annots` is.
pub open spec fn link_here(
    doc: DocV,
    item: ObjV,
    page: int,
    pages: Map<u32, usize>,
    names: NamesV,
) -> Seq<LinkV> {
    match doc.deref(item) {
        Ok(ObjV::Dict(annot)) => if dict_get(annot, "Subtype"@) != Some(ObjV::Name("Link"@)) {
            Seq::empty()
        } else {
            match link_of(doc, annot, page, pages, names) {
                Ok(Some(l)) => seq![l],
                _ => Seq::empty(),
            }
        },
        _ => Seq::empty(),
    }
}

/// The items can be followed, and the links among them can be read.
pub open spec fn links_readable(
    doc: DocV,
    items: Seq<ObjV>,
    page: int,
    pages: Map<u32, usize>,
    names: NamesV,
) -> bool {
    forall|i: int|
        0 <= i < items.len() ==> (doc.deref(#[trigger] items[i]) matches Ok(v) && (
        v matches ObjV::Dict(annot) ==> link_of(doc, annot, page, pages, names) is Ok))
}

proof fn lemma_links(
    doc: DocV,
    items: Seq<ObjV>,
    i: int,
    page: int,
    pages: Map<u32, usize>,
    names: NamesV,
    first: Seq<LinkV>,
    out: Seq<LinkV>,
)
    requires
        0 <= i <= items.len(),
        links_readable(doc, items, page, pages, names),
        out == first + Seq::new(
            items.len(),
            |k: int| link_here(doc, items[k], page, pages, names),
        ).take(i).flatten_alt(),
    ensures
        links_from(doc, items, i, page, pages, names, out) == Ok::<Seq<LinkV>, Seq<char>>(
            first + Seq::new(
                items.len(),
                |k: int| link_here(doc, items[k], page, pages, names),
            ).flatten_alt(),
        ),
    decreases items.len() - i,
{
    let all = Seq::new(items.len(), |k: int| link_here(doc, items[k], page, pages, names));
    if i < items.len() {
        let h = link_here(doc, items[i], page, pages, names);
        assert(all.take(i + 1).drop_last() =~= all.take(i));
        assert(all.take(i + 1).last() == h);
        let next = first + all.take(i + 1).flatten_alt();
        assert(next =~= out + h);
        assert(out + Seq::<LinkV>::empty() =~= out);
        assert(doc.deref(items[i]) is Ok);
        if let Ok(ObjV::Dict(annot)) = doc.deref(items[i]) {
            if let Ok(Some(l)) = link_of(doc, annot, page, pages, names) {
                assert(out + seq![l] =~= out.push(l));
            }
        }
        lemma_links(doc, items, i + 1, page, pages, names, first, next);
    } else {
        assert(all.take(i) =~= all);
    }
}

/// The links of a page are those among its annotations, in order, behind the links
/// before. The list may be referred to.
pub proof fn law_page_links(
    doc: DocV,
    id: ObjectId,
    d: DictV,
    o: ObjV,
    items: Seq<ObjV>,
    page: int,
    pages: Map<u32, usize>,
    names: NamesV,
    out: Seq<LinkV>,
)
    requires
        doc.resolve(id) == Ok::<ObjV, Seq<char>>(ObjV::Dict(d)),
        dict_get(d, "Annots"@) == Some(o),
        doc.deref(o) == Ok::<ObjV, Seq<char>>(ObjV::Array(items)),
        links_readable(doc, items, page, pages, names),
    ensures
        page_links(doc, id, page, pages, names, out) == Ok::<Seq<LinkV>, Seq<char>>(
            out + Seq::new(
                items.len(),
                |k: int| link_here(doc, items[k], page, pages, names),
            ).flatten_alt(),
        ),
{
    let all = Seq::new(items.len(), |k: int| link_here(doc, items[k], page, pages, names));
    assert(all.take(0).flatten_alt() =~= Seq::empty());
    assert(out + all.take(0).flatten_alt() =~= out);
    lemma_links(doc, items, 0, page, pages, names, out, out);
}

/// A link has its four numbers, its page and its target; without the numbers it is
/// none.
pub proof fn law_link(
    doc: DocV,
    annot: DictV,
    rect: Seq<NumV>,
    page: int,
    pages: Map<u32, usize>,
    names: NamesV,
    target: Option<LinkTargetV>,
)
    ensures
        rect.len() == 4 && dict_get(annot, "Rect"@) == Some(numbers_written(rect)) && link_target(
            doc,
            annot,
            pages,
            names,
        ) == Ok::<Option<LinkTargetV>, Seq<char>>(target) ==> link_of(
            doc,
            annot,
            page,
            pages,
            names,
        ) == Ok::<Option<LinkV>, Seq<char>>(Some(LinkV { source_page_index: page, rect, target })),
        dict_get(annot, "Rect"@) is None ==> link_of(doc, annot, page, pages, names) == Ok::<
            Option<LinkV>,
            Seq<char>,
        >(None),
{
    law_numbers(rect, Seq::empty(), 0, 4);
}

/// The links of a document are those of its pages, one page behind the other.
pub proof fn law_links_of_pages(
    doc: DocV,
    list: Seq<u32>,
    i: int,
    names: NamesV,
    out: Seq<LinkV>,
    each: Seq<Seq<LinkV>>,
)
    requires
        list.no_duplicates(),
        list.len() <= usize::MAX,
        0 <= i <= list.len(),
        each.len() == list.len(),
        forall|k: int| 0 <= k < list.len() ==> #[trigger] list[k] != 0,
        forall|k: int, before: Seq<LinkV>|
            0 <= k < list.len() ==> #[trigger] page_links(
                doc,
                ObjectId { number: list[k], generation: 0 },
                k,
                index_of_pages(list),
                names,
                before,
            ) == Ok::<Seq<LinkV>, Seq<char>>(before + each[k]),
        out == each.take(i).flatten_alt(),
    ensures
        links_of_pages(doc, list, i, names, out) == Ok::<Seq<LinkV>, Seq<char>>(
            each.flatten_alt(),
        ),
    decreases list.len() - i,
{
    if i < list.len() {
        lemma_place_of_page(list, i);
        assert(list[i] != 0);
        let next = each.take(i + 1).flatten_alt();
        assert(each.take(i + 1).drop_last() =~= each.take(i));
        assert(page_links(
            doc,
            ObjectId { number: list[i], generation: 0 },
            i,
            index_of_pages(list),
            names,
            out,
        ) == Ok::<Seq<LinkV>, Seq<char>>(out + each[i]));
        law_links_of_pages(doc, list, i + 1, names, next, each);
    } else {
        assert(each.take(i) =~= each);
    }
}

} // verus!
