//! Laws of pages: the tree that they stand in, what they have from the nodes above
//! them, and what is painted on them.

use vstd::prelude::*;
use crate::content::{content_value, entering, form_part, KindV, Scope};
use crate::document::{cache_key, lemma_key, DocV};
use crate::link::{array_numbers, numbers_of};
use crate::number::NumV;
use crate::objects::{dict_get, DictV, ObjV, ObjectId};
use crate::ocg::{oc_visible, OcStates};
use crate::page::{
    appearance_of, appearances_from, document_value, flags_visible, joined, media_box,
    page_appearances, page_data, page_resources, page_rotation, page_value, pages_among,
    quarter_turns, AppearanceV, PageV,
};
use crate::pages::{
    document_pages, hop_dict, inheritable, inherited_from, pages_below, pages_of_kids,
    pages_of_tree,
};

verus! {

// --------------------------------------------------------------- page tree

/// A tree of pages.
pub enum PageTree {
    Page(ObjectId),
    Pages(ObjectId, Seq<PageTree>),
}

/// The object that a tree begins with.
pub open spec fn tree_root(t: PageTree) -> ObjectId {
    match t {
        PageTree::Page(id) => id,
        PageTree::Pages(id, _) => id,
    }
}

/// The pages of a tree from left to right.
pub open spec fn leaves(t: PageTree) -> Seq<ObjectId>
    decreases t, 0int,
{
    match t {
        PageTree::Page(id) => seq![id],
        PageTree::Pages(_, kids) => leaves_from(kids, 0),
    }
}

/// The pages of the trees from place `i` on.
pub open spec fn leaves_from(kids: Seq<PageTree>, i: int) -> Seq<ObjectId>
    decreases kids, kids.len() - i,
{
    if i < 0 || i >= kids.len() {
        Seq::empty()
    } else {
        leaves(kids[i]) + leaves_from(kids, i + 1)
    }
}

/// The objects of a tree.
pub open spec fn nodes(t: PageTree) -> Seq<ObjectId>
    decreases t, 0int,
{
    match t {
        PageTree::Page(id) => seq![id],
        PageTree::Pages(id, kids) => seq![id] + nodes_from(kids, 0),
    }
}

/// The objects of the trees from place `i` on.
pub open spec fn nodes_from(kids: Seq<PageTree>, i: int) -> Seq<ObjectId>
    decreases kids, kids.len() - i,
{
    if i < 0 || i >= kids.len() {
        Seq::empty()
    } else {
        nodes(kids[i]) + nodes_from(kids, i + 1)
    }
}

/// A document holds the tree, and no node lies more than 256 levels below the
/// first.
pub open spec fn tree_in(doc: DocV, t: PageTree, depth: int) -> bool
    decreases t, 0int,
{
    &&& 0 <= depth <= 256
    &&& match t {
        PageTree::Page(id) => doc.resolve(id) matches Ok(ObjV::Dict(d)) && dict_get(d, "Type"@)
            == Some(ObjV::Name("Page"@)),
        PageTree::Pages(id, kids) => {
            &&& doc.resolve(id) matches Ok(ObjV::Dict(d)) && dict_get(d, "Type"@) == Some(
                ObjV::Name("Pages"@),
            ) && dict_get(d, "Kids"@) == Some(
                ObjV::Array(
                    Seq::new(kids.len(), |i: int| ObjV::Reference(tree_root(kids[i]))),
                ),
            )
            &&& trees_in(doc, kids, 0, depth + 1)
        },
    }
}

/// A document holds the trees from place `i` on.
pub open spec fn trees_in(doc: DocV, kids: Seq<PageTree>, i: int, depth: int) -> bool
    decreases kids, kids.len() - i,
{
    if i < 0 || i >= kids.len() {
        true
    } else {
        tree_in(doc, kids[i], depth) && trees_in(doc, kids, i + 1, depth)
    }
}

/// What was seen, with the objects `ids`.
pub open spec fn seen_with(seen: Set<u64>, ids: Seq<ObjectId>) -> Set<u64>
    decreases ids.len(),
{
    if ids.len() == 0 {
        seen
    } else {
        seen_with(seen.insert(cache_key(ids[0])), ids.skip(1))
    }
}

pub(crate) proof fn lemma_seen_with(seen: Set<u64>, a: Seq<ObjectId>, b: Seq<ObjectId>)
    ensures
        seen_with(seen_with(seen, a), b) == seen_with(seen, a + b),
    decreases a.len(),
{
    if a.len() == 0 {
        assert(a + b =~= b);
    } else {
        lemma_seen_with(seen.insert(cache_key(a[0])), a.skip(1), b);
        assert((a + b).skip(1) =~= a.skip(1) + b);
        assert((a + b)[0] == a[0]);
    }
}

/// No object of `ids` was seen.
pub open spec fn unseen(seen: Set<u64>, ids: Seq<ObjectId>) -> bool {
    forall|i: int| 0 <= i < ids.len() ==> !seen.contains(cache_key(#[trigger] ids[i]))
}

pub(crate) proof fn lemma_unseen(seen: Set<u64>, a: Seq<ObjectId>, b: Seq<ObjectId>)
    requires
        unseen(seen, a + b),
        (a + b).no_duplicates(),
    ensures
        unseen(seen, a),
        a.no_duplicates(),
        b.no_duplicates(),
        unseen(seen_with(seen, a), b),
    decreases a.len(),
{
    let s = a + b;
    assert forall|i: int| 0 <= i < a.len() implies !seen.contains(cache_key(#[trigger] a[i])) by {
        assert(s[i] == a[i]);
    }
    assert forall|i: int, j: int| 0 <= i < a.len() && 0 <= j < a.len() && i != j implies a[i]
        != a[j] by {
        assert(s[i] == a[i] && s[j] == a[j]);
    }
    assert forall|i: int, j: int| 0 <= i < b.len() && 0 <= j < b.len() && i != j implies b[i]
        != b[j] by {
        assert(s[a.len() + i] == b[i] && s[a.len() + j] == b[j]);
    }
    if a.len() == 0 {
        assert(s =~= b);
    } else {
        let more = seen.insert(cache_key(a[0]));
        let rest = a.skip(1) + b;
        assert(rest =~= s.skip(1));
        assert forall|i: int| 0 <= i < rest.len() implies !more.contains(
            cache_key(#[trigger] rest[i]),
        ) by {
            assert(rest[i] == s[i + 1]);
            assert(s[0] == a[0]);
            if cache_key(rest[i]) == cache_key(a[0]) {
                lemma_key(rest[i], a[0]);
            }
        }
        assert forall|i: int, j: int| 0 <= i < rest.len() && 0 <= j < rest.len() && i
            != j implies rest[i] != rest[j] by {
            assert(rest[i] == s[i + 1] && rest[j] == s[j + 1]);
        }
        lemma_unseen(more, a.skip(1), b);
    }
}

proof fn lemma_tree(doc: DocV, t: PageTree, seen: Set<u64>, depth: int, out: Seq<ObjectId>)
    requires
        tree_in(doc, t, depth),
        unseen(seen, nodes(t)),
        nodes(t).no_duplicates(),
    ensures
        pages_below(doc, tree_root(t), seen, depth, out) == Ok::<
            (Set<u64>, Seq<ObjectId>),
            Seq<char>,
        >((seen_with(seen, nodes(t)), out + leaves(t))),
    decreases t, 0int,
{
    reveal_strlit("Page");
    reveal_strlit("Pages");
    assert("Page"@.len() == 4 && "Pages"@.len() == 5);
    let id = tree_root(t);
    assert(nodes(t)[0] == id);
    match t {
        PageTree::Page(_) => {
            reveal_with_fuel(seen_with, 2);
            assert(nodes(t).skip(1) =~= Seq::empty());
            assert(out + leaves(t) =~= out.push(id));
        },
        PageTree::Pages(_, kids) => {
            let below = nodes_from(kids, 0);
            let items = Seq::new(kids.len(), |i: int| ObjV::Reference(tree_root(kids[i])));
            lemma_unseen(seen, seq![id], below);
            reveal_with_fuel(seen_with, 2);
            assert(seq![id].skip(1) =~= Seq::empty());
            assert(seen_with(seen, seq![id]) == seen.insert(cache_key(id)));
            lemma_trees(doc, kids, items, 0, seen.insert(cache_key(id)), depth, out);
            assert(nodes(t).skip(1) =~= below);
        },
    }
}

proof fn lemma_trees(
    doc: DocV,
    kids: Seq<PageTree>,
    items: Seq<ObjV>,
    i: int,
    seen: Set<u64>,
    depth: int,
    out: Seq<ObjectId>,
)
    requires
        0 <= i <= kids.len(),
        0 <= depth <= 256,
        items == Seq::new(kids.len(), |i: int| ObjV::Reference(tree_root(kids[i]))),
        trees_in(doc, kids, i, depth + 1),
        unseen(seen, nodes_from(kids, i)),
        nodes_from(kids, i).no_duplicates(),
    ensures
        pages_of_kids(doc, items, i, seen, depth, out) == Ok::<
            (Set<u64>, Seq<ObjectId>),
            Seq<char>,
        >((seen_with(seen, nodes_from(kids, i)), out + leaves_from(kids, i))),
    decreases kids, kids.len() - i,
{
    if i < kids.len() {
        let here = nodes(kids[i]);
        let more = nodes_from(kids, i + 1);
        lemma_unseen(seen, here, more);
        lemma_tree(doc, kids[i], seen, depth + 1, out);
        lemma_seen_with(seen, here, more);
        assert(items[i] == ObjV::Reference(tree_root(kids[i])));
        lemma_trees(
            doc,
            kids,
            items,
            i + 1,
            seen_with(seen, here),
            depth,
            out + leaves(kids[i]),
        );
        assert(out + leaves(kids[i]) + leaves_from(kids, i + 1) =~= out + (leaves(kids[i])
            + leaves_from(kids, i + 1)));
    } else {
        assert(out + leaves_from(kids, i) =~= out);
    }
}

/// The pages of a document are the leaves of its tree from left to right.
pub proof fn law_pages_in_tree_order(doc: DocV, t: PageTree, catalog: DictV)
    requires
        tree_in(doc, t, 0),
        nodes(t).no_duplicates(),
        doc.catalog() == Ok::<ObjV, Seq<char>>(ObjV::Dict(catalog)),
        dict_get(catalog, "Pages"@) == Some(ObjV::Reference(tree_root(t))),
    ensures
        pages_of_tree(doc, tree_root(t)) == Ok::<Seq<ObjectId>, Seq<char>>(leaves(t)),
        leaves(t).len() > 0 ==> document_pages(doc) == Ok::<Seq<ObjectId>, Seq<char>>(leaves(t)),
        leaves(t).len() == 0 ==> document_pages(doc) is Err,
{
    lemma_tree(doc, t, Set::empty(), 0, Seq::empty());
    assert(Seq::<ObjectId>::empty() + leaves(t) =~= leaves(t));
}

/// A node below itself is refused.
pub proof fn law_page_cycle(doc: DocV, id: ObjectId, d: DictV)
    requires
        doc.resolve(id) == Ok::<ObjV, Seq<char>>(ObjV::Dict(d)),
        dict_get(d, "Type"@) == Some(ObjV::Name("Pages"@)),
        dict_get(d, "Kids"@) == Some(ObjV::Array(seq![ObjV::Reference(id)])),
    ensures
        pages_of_tree(doc, id) is Err,
{
    reveal_strlit("Page");
    reveal_strlit("Pages");
    assert("Page"@.len() == 4 && "Pages"@.len() == 5);
    reveal_with_fuel(pages_below, 2);
    reveal_with_fuel(pages_of_kids, 2);
}

// ------------------------------------------------------ inherited attributes

/// The nodes above a page: `ids` are the objects, `above` what they hold.
pub open spec fn ancestors(doc: DocV, page: DictV, ids: Seq<ObjectId>, above: Seq<DictV>) -> bool {
    &&& ids.len() == above.len()
    &&& ids.no_duplicates()
    &&& ids.len() > 0 ==> dict_get(page, "Parent"@) == Some(ObjV::Reference(ids[0]))
    &&& forall|i: int|
        0 <= i < ids.len() ==> doc.resolve(#[trigger] ids[i]) == Ok::<ObjV, Seq<char>>(
            ObjV::Dict(above[i]),
        )
    &&& forall|i: int|
        0 <= i < ids.len() - 1 ==> dict_get(#[trigger] above[i], "Parent"@) == Some(
            ObjV::Reference(ids[i + 1]),
        )
}

proof fn lemma_inherited(
    doc: DocV,
    page: DictV,
    ids: Seq<ObjectId>,
    above: Seq<DictV>,
    key: Seq<char>,
    seen: Set<u64>,
    i: int,
    k: int,
)
    requires
        ancestors(doc, page, ids, above),
        0 <= i < ids.len() <= 64,
        i <= k <= ids.len(),
        forall|j: int| 0 <= j < k ==> dict_get(#[trigger] above[j], key) is None,
        k < ids.len() ==> dict_get(above[k], key) is Some,
        k == ids.len() ==> dict_get(above.last(), "Parent"@) is None,
        unseen(seen, ids.skip(i)),
    ensures
        inherited_from(doc, Some(ObjV::Reference(ids[i])), key, seen, i) == Ok::<
            Option<ObjV>,
            Seq<char>,
        >(if k < ids.len() { dict_get(above[k], key) } else { None }),
    decreases ids.len() - i,
{
    assert(ids.skip(i)[0] == ids[i]);
    assert(doc.resolve(ids[i]) == Ok::<ObjV, Seq<char>>(ObjV::Dict(above[i])));
    if i < k {
        assert(dict_get(above[i], key) is None);
        let more = seen.insert(cache_key(ids[i]));
        if i + 1 < ids.len() {
            let rest = ids.skip(i + 1);
            assert forall|j: int| 0 <= j < rest.len() implies !more.contains(
                cache_key(#[trigger] rest[j]),
            ) by {
                assert(ids.skip(i)[j + 1] == rest[j]);
                if cache_key(rest[j]) == cache_key(ids[i]) {
                    lemma_key(rest[j], ids[i]);
                }
            }
            lemma_inherited(doc, page, ids, above, key, more, i + 1, k);
        } else {
            assert(above[i] == above.last());
            assert(inherited_from(doc, None, key, more, i + 1) == Ok::<Option<ObjV>, Seq<char>>(
                None,
            ));
        }
    }
}

/// What a page does not say itself it has from the nearest node above it that
/// says it, up to 64 nodes away.
pub proof fn law_inherited(
    doc: DocV,
    page: DictV,
    ids: Seq<ObjectId>,
    above: Seq<DictV>,
    key: Seq<char>,
    k: int,
)
    requires
        ancestors(doc, page, ids, above),
        ids.len() <= 64,
        dict_get(page, key) is None,
        0 <= k < ids.len(),
        forall|j: int| 0 <= j < k ==> dict_get(#[trigger] above[j], key) is None,
        dict_get(above[k], key) is Some,
    ensures
        inheritable(doc, page, key) == Ok::<Option<ObjV>, Seq<char>>(dict_get(above[k], key)),
{
    lemma_inherited(doc, page, ids, above, key, Set::empty(), 0, k);
}

/// What neither a page nor a node above it says, it has not; what it says itself
/// it does not inherit.
pub proof fn law_not_inherited(
    doc: DocV,
    page: DictV,
    ids: Seq<ObjectId>,
    above: Seq<DictV>,
    key: Seq<char>,
)
    requires
        ancestors(doc, page, ids, above),
        ids.len() <= 64,
        forall|j: int| 0 <= j < ids.len() ==> dict_get(#[trigger] above[j], key) is None,
        ids.len() > 0 ==> dict_get(above.last(), "Parent"@) is None,
        ids.len() == 0 ==> dict_get(page, "Parent"@) is None,
    ensures
        inheritable(doc, page, key) == Ok::<Option<ObjV>, Seq<char>>(dict_get(page, key)),
{
    if ids.len() > 0 {
        lemma_inherited(doc, page, ids, above, key, Set::empty(), 0, ids.len() as int);
    }
}

// ---------------------------------------------------------------- resources

/// Two dictionaries agree but for one entry.
pub open spec fn same_but(p: DictV, q: DictV, key: Seq<char>) -> bool {
    forall|k: Seq<char>| k != key ==> #[trigger] dict_get(p, k) == dict_get(q, k)
}

/// Resources may be referred to: where the value of `/Resources` that a page has or
/// inherits is a reference to a dictionary, the page's resources and parts are
/// those of that dictionary, as they are with the dictionary in the place of the
/// reference.
#[verifier::rlimit(50)]
pub proof fn law_resources_by_reference(
    doc: DocV,
    a: ObjectId,
    p: DictV,
    b: ObjectId,
    q: DictV,
    id: ObjectId,
    d: DictV,
    states: Option<OcStates>,
)
    requires
        doc.resolve(a) == Ok::<ObjV, Seq<char>>(ObjV::Dict(p)),
        doc.resolve(b) == Ok::<ObjV, Seq<char>>(ObjV::Dict(q)),
        doc.resolve(id) == Ok::<ObjV, Seq<char>>(ObjV::Dict(d)),
        inheritable(doc, p, "Resources"@) == Ok::<Option<ObjV>, Seq<char>>(
            Some(ObjV::Reference(id)),
        ),
        inheritable(doc, q, "Resources"@) == Ok::<Option<ObjV>, Seq<char>>(Some(ObjV::Dict(d))),
    ensures
        page_resources(doc, p) == Ok::<Option<DictV>, Seq<char>>(Some(d)),
        page_resources(doc, q) == Ok::<Option<DictV>, Seq<char>>(Some(d)),
        page_value(doc, a, states) matches Ok(v) ==> content_value(
            doc,
            Some(d),
            0,
            Seq::empty(),
            Scope::Form,
        ) == Ok::<_, Seq<char>>((v.resources, v.parts)),
        page_value(doc, a, states) matches Ok(v) ==> (page_value(doc, b, states) matches Ok(w)
            ==> v.resources == w.resources && v.parts == w.parts),
{
}

/// A page that refers to its resources is the page that holds them.
#[verifier::rlimit(50)]
pub proof fn law_page_with_resources(
    doc: DocV,
    a: ObjectId,
    p: DictV,
    b: ObjectId,
    q: DictV,
    id: ObjectId,
    d: DictV,
    states: Option<OcStates>,
)
    requires
        doc.resolve(a) == Ok::<ObjV, Seq<char>>(ObjV::Dict(p)),
        doc.resolve(b) == Ok::<ObjV, Seq<char>>(ObjV::Dict(q)),
        doc.resolve(id) == Ok::<ObjV, Seq<char>>(ObjV::Dict(d)),
        dict_get(p, "Resources"@) == Some(ObjV::Reference(id)),
        dict_get(q, "Resources"@) == Some(ObjV::Dict(d)),
        same_but(p, q, "Resources"@),
    ensures
        page_value(doc, a, states) == page_value(doc, b, states),
{
    reveal_strlit("Resources");
    reveal_strlit("Parent");
    reveal_strlit("MediaBox");
    reveal_strlit("Contents");
    reveal_strlit("Rotate");
    reveal_strlit("Annots");
    assert("Resources"@.len() == 9 && "Parent"@.len() == 6 && "MediaBox"@.len() == 8
        && "Contents"@.len() == 8 && "Rotate"@.len() == 6 && "Annots"@.len() == 6);
    assert(dict_get(p, "Parent"@) == dict_get(q, "Parent"@));
    assert(dict_get(p, "MediaBox"@) == dict_get(q, "MediaBox"@));
    assert(dict_get(p, "Contents"@) == dict_get(q, "Contents"@));
    assert(dict_get(p, "Rotate"@) == dict_get(q, "Rotate"@));
    assert(dict_get(p, "Annots"@) == dict_get(q, "Annots"@));
}

/// A page without resources, or whose resources are no dictionary, has none and
/// paints nothing by name; a reference that leads nowhere refuses the page.
pub proof fn law_no_resources(doc: DocV, page: DictV, o: ObjV, id: ObjectId)
    ensures
        inheritable(doc, page, "Resources"@) == Ok::<Option<ObjV>, Seq<char>>(None)
            ==> page_resources(doc, page) == Ok::<Option<DictV>, Seq<char>>(None),
        inheritable(doc, page, "Resources"@) == Ok::<Option<ObjV>, Seq<char>>(Some(o)) && !(
        o is Dict) && !(o is Reference) ==> page_resources(doc, page) == Ok::<
            Option<DictV>,
            Seq<char>,
        >(None),
        inheritable(doc, page, "Resources"@) == Ok::<Option<ObjV>, Seq<char>>(
            Some(ObjV::Reference(id)),
        ) && doc.resolve(id) is Err ==> page_resources(doc, page) is Err,
{
}

// --------------------------------------------------------- size and rotation

/// A number as an object.
pub open spec fn written(n: NumV) -> ObjV {
    match n {
        NumV::Integer(i) => ObjV::Integer(i),
        NumV::Real(t) => ObjV::Real(t),
    }
}

/// Numbers as an array.
pub open spec fn numbers_written(ns: Seq<NumV>) -> ObjV {
    ObjV::Array(Seq::new(ns.len(), |i: int| written(ns[i])))
}

proof fn lemma_numbers(ns: Seq<NumV>, items: Seq<ObjV>, k: int)
    requires
        items == Seq::new(ns.len(), |i: int| written(ns[i])),
        0 <= k <= ns.len(),
    ensures
        numbers_of(items, k) == Some(ns.take(k)),
    decreases k,
{
    if k > 0 {
        lemma_numbers(ns, items, k - 1);
        assert(items[k - 1] == written(ns[k - 1]));
        assert(ns.take(k) =~= ns.take(k - 1).push(ns[k - 1]));
    } else {
        assert(ns.take(0) =~= Seq::empty());
    }
}

proof fn lemma_no_numbers(items: Seq<ObjV>, i: int, k: int)
    requires
        0 <= i < k <= items.len(),
        !(items[i] is Integer),
        !(items[i] is Real),
    ensures
        numbers_of(items, k) is None,
    decreases k,
{
    if i < k - 1 {
        lemma_no_numbers(items, i, k - 1);
    }
}

/// Numbers written as an array are read back; an array of another length, or with
/// something else among the numbers, is none of them.
pub proof fn law_numbers(ns: Seq<NumV>, items: Seq<ObjV>, i: int, n: int)
    ensures
        array_numbers(Some(numbers_written(ns)), ns.len() as int) == Some(ns),
        n != items.len() ==> array_numbers(Some(ObjV::Array(items)), n) is None,
        0 <= i < items.len() && !(items[i] is Integer) && !(items[i] is Real) ==> array_numbers(
            Some(ObjV::Array(items)),
            items.len() as int,
        ) is None,
        array_numbers(None, n) is None,
{
    lemma_numbers(ns, Seq::new(ns.len(), |i: int| written(ns[i])), ns.len() as int);
    assert(ns.take(ns.len() as int) =~= ns);
    if 0 <= i < items.len() && !(items[i] is Integer) && !(items[i] is Real) {
        lemma_no_numbers(items, i, items.len() as int);
    }
}

/// The box of a page is the four numbers that it has or inherits; without them it is
/// A4, and anything else than four numbers is refused.
pub proof fn law_media_box(doc: DocV, page: DictV, ns: Seq<NumV>, items: Seq<ObjV>, i: int)
    ensures
        inheritable(doc, page, "MediaBox"@) == Ok::<Option<ObjV>, Seq<char>>(
            Some(numbers_written(ns)),
        ) && ns.len() == 4 ==> media_box(doc, page) == Ok::<Seq<NumV>, Seq<char>>(ns),
        inheritable(doc, page, "MediaBox"@) == Ok::<Option<ObjV>, Seq<char>>(
            Some(ObjV::Array(items)),
        ) && (items.len() != 4 || (0 <= i < 4 && !(items[i] is Integer) && !(items[i] is Real)))
            ==> media_box(doc, page) is Err,
        inheritable(doc, page, "MediaBox"@) == Ok::<Option<ObjV>, Seq<char>>(None) ==> media_box(
            doc,
            page,
        ) == Ok::<Seq<NumV>, Seq<char>>(
            seq![NumV::Integer(0), NumV::Integer(0), NumV::Integer(595), NumV::Integer(842)],
        ),
{
    law_numbers(ns, items, i, 4);
    if items.len() == 4 && 0 <= i < 4 && !(items[i] is Integer) && !(items[i] is Real) {
        lemma_no_numbers(items, i, 4);
    }
}

/// The rotation of a page is the angle that it has or inherits, as a multiple of 90
/// from 0 to 270; any other angle, and none, is 0.
pub proof fn law_rotation(doc: DocV, page: DictV, n: i64, r: u16)
    ensures
        inheritable(doc, page, "Rotate"@) == Ok::<Option<ObjV>, Seq<char>>(
            Some(ObjV::Integer(n)),
        ) ==> page_rotation(doc, page) == Ok::<u16, Seq<char>>(quarter_turns(n)),
        inheritable(doc, page, "Rotate"@) == Ok::<Option<ObjV>, Seq<char>>(None) ==> page_rotation(
            doc,
            page,
        ) == Ok::<u16, Seq<char>>(0u16),
        (r == 0 || r == 90 || r == 180 || r == 270) && (n - r) % 360 == 0 ==> quarter_turns(n)
            == r,
        n as int % 90 != 0 ==> quarter_turns(n) == 0,
{
    if (r == 0 || r == 90 || r == 180 || r == 270) && (n - r) % 360 == 0 {
        let q = (n - r) / 360;
        vstd::arithmetic::div_mod::lemma_fundamental_div_mod(n - r, 360);
        assert(n == q * 360 + r);
        vstd::arithmetic::div_mod::lemma_fundamental_div_mod_converse(n as int, 360, q, r as int);
        vstd::arithmetic::div_mod::lemma_mod_multiples_vanish(4 * q, r as int, 90);
        assert(90 * (4 * q) + r == n);
        assert(r as int % 90 == 0);
    }
}

// ----------------------------------------------------------------- contents

/// The content of a page is that of its stream, or of its streams in order with a
/// line end behind each; without `/Contents` it is empty.
pub proof fn law_contents(
    doc: DocV,
    page: DictV,
    id: ObjectId,
    ids: Seq<ObjectId>,
    data: Seq<Seq<u8>>,
)
    requires
        ids.len() == data.len(),
        forall|i: int|
            0 <= i < ids.len() ==> doc.stream_bytes(#[trigger] ids[i]) == Ok::<Seq<u8>, Seq<char>>(
                data[i],
            ),
    ensures
        dict_get(page, "Contents"@) is None ==> page_data(doc, page) == Ok::<Seq<u8>, Seq<char>>(
            Seq::empty(),
        ),
        dict_get(page, "Contents"@) == Some(ObjV::Reference(id)) ==> page_data(doc, page)
            == doc.stream_bytes(id),
        dict_get(page, "Contents"@) == Some(
            ObjV::Array(Seq::new(ids.len(), |i: int| ObjV::Reference(ids[i]))),
        ) ==> page_data(doc, page) == Ok::<Seq<u8>, Seq<char>>(
            Seq::new(data.len(), |i: int| data[i].push(10u8)).flatten_alt(),
        ),
{
    let items = Seq::new(ids.len(), |i: int| ObjV::Reference(ids[i]));
    lemma_joined_data(doc, items, ids, data, ids.len() as int);
    let lines = Seq::new(data.len(), |i: int| data[i].push(10u8));
    assert(lines.take(ids.len() as int) =~= lines);
}

proof fn lemma_joined_data(
    doc: DocV,
    items: Seq<ObjV>,
    ids: Seq<ObjectId>,
    data: Seq<Seq<u8>>,
    n: int,
)
    requires
        items == Seq::new(ids.len(), |i: int| ObjV::Reference(ids[i])),
        ids.len() == data.len(),
        0 <= n <= ids.len(),
        forall|i: int|
            0 <= i < ids.len() ==> doc.stream_bytes(#[trigger] ids[i]) == Ok::<Seq<u8>, Seq<char>>(
                data[i],
            ),
    ensures
        joined(doc, items, n) == Ok::<Seq<u8>, Seq<char>>(
            Seq::new(data.len(), |i: int| data[i].push(10u8)).take(n).flatten_alt(),
        ),
    decreases n,
{
    let lines = Seq::new(data.len(), |i: int| data[i].push(10u8));
    if n > 0 {
        lemma_joined_data(doc, items, ids, data, n - 1);
        assert(items[n - 1] == ObjV::Reference(ids[n - 1]));
        let before = lines.take(n - 1).flatten_alt();
        assert(lines.take(n).drop_last() =~= lines.take(n - 1));
        assert(lines.take(n).last() == data[n - 1].push(10u8));
        assert(before + data[n - 1] + seq![10u8] =~= before + data[n - 1].push(10u8));
    }
}

// -------------------------------------------------------------- annotations

/// An annotation is shown unless its flags hide it: bit 2 (hidden) or bit 6 (not on
/// a screen).
pub proof fn law_annotation_flags(annot: DictV, f: i64)
    requires
        dict_get(annot, "F"@) == Some(ObjV::Integer(f)),
        f >= 0,
    ensures
        flags_visible(annot) <==> (f as int / 2) % 2 == 0 && (f as int / 32) % 2 == 0,
{
    let u = f as u64;
    assert(u & (2u64 | 32u64) == 0 <==> (u / 2) % 2 == 0 && (u / 32) % 2 == 0) by (bit_vector);
}

/// The appearance stream of an annotation by its normal appearance, or by the one of
/// several that its state names, is painted in its rectangle. Each dictionary on the
/// way may be referred to.
pub proof fn law_appearance(
    doc: DocV,
    annot: DictV,
    rect: Seq<NumV>,
    ap: DictV,
    apo: ObjV,
    n: ObjV,
    states: DictV,
    state: Seq<char>,
    id: ObjectId,
    d: DictV,
    data: Seq<u8>,
    bbox: Seq<NumV>,
)
    requires
        dict_get(annot, "F"@) is None,
        dict_get(annot, "Subtype"@) != Some(ObjV::Name("Popup"@)),
        dict_get(annot, "Rect"@) == Some(numbers_written(rect)),
        rect.len() == 4,
        dict_get(annot, "AP"@) == Some(apo),
        apo == ObjV::Dict(ap) || (apo matches ObjV::Reference(r) && doc.resolve(r) == Ok::<
            ObjV,
            Seq<char>,
        >(ObjV::Dict(ap))),
        dict_get(ap, "N"@) == Some(n),
        n == ObjV::Reference(id) || (dict_get(annot, "AS"@) == Some(ObjV::Name(state)) && dict_get(
            states,
            state,
        ) == Some(ObjV::Reference(id)) && (n == ObjV::Dict(states) || (n matches ObjV::Reference(r)
            && doc.resolve(r) == Ok::<ObjV, Seq<char>>(ObjV::Dict(states))))),
        doc.resolve(id) == Ok::<ObjV, Seq<char>>(ObjV::Stream(d, data)),
        dict_get(d, "BBox"@) == Some(numbers_written(bbox)),
        bbox.len() == 4,
    ensures
        match form_part(
            doc,
            Seq::empty(),
            KindV::Form,
            d,
            data,
            0,
            entering(Some(id), Seq::empty()),
        ) {
            Err(e) => appearance_of(doc, annot) == Err::<Option<AppearanceV>, Seq<char>>(e),
            Ok(None) => appearance_of(doc, annot) == Ok::<Option<AppearanceV>, Seq<char>>(None),
            Ok(Some(form)) => appearance_of(doc, annot) == Ok::<Option<AppearanceV>, Seq<char>>(
                Some(AppearanceV { rect, form }),
            ),
        },
{
    law_numbers(rect, Seq::empty(), 0, 4);
    law_numbers(bbox, Seq::empty(), 0, 4);
}

/// Nothing is painted for a popup, nor without a rectangle, appearances or a box.
pub proof fn law_no_appearance(doc: DocV, annot: DictV)
    ensures
        dict_get(annot, "Subtype"@) == Some(ObjV::Name("Popup"@)) || dict_get(annot, "Rect"@)
            is None || dict_get(annot, "AP"@) is None ==> appearance_of(doc, annot) == Ok::<
            Option<AppearanceV>,
            Seq<char>,
        >(None),
{
}

/// What an item of `/Annots` paints.
pub open spec fn painted(doc: DocV, item: ObjV, states: Option<OcStates>) -> Seq<AppearanceV> {
    match doc.one_hop(item) {
        Ok(ObjV::Dict(annot)) => if !oc_visible(doc, annot, states) {
            Seq::empty()
        } else {
            match appearance_of(doc, annot) {
                Ok(Some(a)) => seq![a],
                _ => Seq::empty(),
            }
        },
        _ => Seq::empty(),
    }
}

proof fn lemma_painted(
    doc: DocV,
    items: Seq<ObjV>,
    i: int,
    states: Option<OcStates>,
    out: Seq<AppearanceV>,
)
    requires
        0 <= i <= items.len(),
        out == Seq::new(items.len(), |k: int| painted(doc, items[k], states)).take(
            i,
        ).flatten_alt(),
    ensures
        appearances_from(doc, items, i, states, out) == Seq::new(
            items.len(),
            |k: int| painted(doc, items[k], states),
        ).flatten_alt(),
    decreases items.len() - i,
{
    let all = Seq::new(items.len(), |k: int| painted(doc, items[k], states));
    if i < items.len() {
        let next = all.take(i + 1).flatten_alt();
        assert(all.take(i + 1).drop_last() =~= all.take(i));
        assert(all.take(i + 1).last() == painted(doc, items[i], states));
        assert(next == out + painted(doc, items[i], states));
        assert(out + Seq::<AppearanceV>::empty() =~= out);
        if let Ok(ObjV::Dict(annot)) = doc.one_hop(items[i]) {
            if let Ok(Some(a)) = appearance_of(doc, annot) {
                assert(out + seq![a] =~= out.push(a));
            }
        }
        lemma_painted(doc, items, i + 1, states, next);
    } else {
        assert(all.take(i) =~= all);
    }
}

/// The annotations of a page are painted in the order in which it lists them; the
/// list may be referred to.
pub proof fn law_annotations_in_order(
    doc: DocV,
    page: DictV,
    items: Seq<ObjV>,
    id: ObjectId,
    states: Option<OcStates>,
)
    requires
        dict_get(page, "Annots"@) == Some(ObjV::Array(items)) || (dict_get(page, "Annots"@) == Some(
            ObjV::Reference(id),
        ) && doc.resolve(id) == Ok::<ObjV, Seq<char>>(ObjV::Array(items))),
    ensures
        page_appearances(doc, page, states) == Seq::new(
            items.len(),
            |k: int| painted(doc, items[k], states),
        ).flatten_alt(),
{
    let all = Seq::new(items.len(), |k: int| painted(doc, items[k], states));
    assert(all.take(0).flatten_alt() =~= Seq::empty());
    lemma_painted(doc, items, 0, states, Seq::empty());
}

/// What a page is read as.
#[verifier::opaque]
spec fn page_read(doc: DocV, id: ObjectId, states: Option<OcStates>) -> Result<PageV, Seq<char>> {
    page_value(doc, id, states)
}

proof fn lemma_pages_step(doc: DocV, ids: Seq<ObjectId>, n: int, states: Option<OcStates>)
    requires
        0 < n <= ids.len(),
    ensures
        pages_among(doc, ids, n, states) == match pages_among(doc, ids, n - 1, states) {
            Err(e) => Err(e),
            Ok(before) => match page_read(doc, ids[n - 1], states) {
                Err(e) => Err(e),
                Ok(p) => Ok(before.push(p)),
            },
        },
{
    reveal(page_read);
}

proof fn lemma_pages_each(doc: DocV, ids: Seq<ObjectId>, n: int, states: Option<OcStates>)
    requires
        0 <= n <= ids.len(),
    ensures
        pages_among(doc, ids, n, states) is Ok <==> forall|i: int|
            0 <= i < n ==> page_read(doc, #[trigger] ids[i], states) is Ok,
        pages_among(doc, ids, n, states) matches Ok(pages) ==> pages.len() == n && forall|i: int|
            0 <= i < n ==> Ok::<_, Seq<char>>(#[trigger] pages[i]) == page_read(
                doc,
                ids[i],
                states,
            ),
    decreases n,
{
    if n > 0 {
        lemma_pages_each(doc, ids, n - 1, states);
        lemma_pages_step(doc, ids, n, states);
    }
}

/// A document shows each of its pages, in order; one that cannot be read refuses the
/// document.
#[verifier::rlimit(50)]
pub proof fn law_every_page(doc: DocV, ids: Seq<ObjectId>, states: Option<OcStates>)
    ensures
        document_value(doc, ids, states) matches Ok(v) ==> v.pages.len() == ids.len() && forall|
            i: int,
        |
            0 <= i < ids.len() ==> Ok::<_, Seq<char>>(#[trigger] v.pages[i]) == page_value(
                doc,
                ids[i],
                states,
            ),
        (exists|i: int| 0 <= i < ids.len() && page_value(doc, #[trigger] ids[i], states) is Err)
            ==> document_value(doc, ids, states) is Err,
{
    lemma_pages_each(doc, ids, ids.len() as int, states);
    reveal(page_read);
}

/// What a page is made of: each part is read from its own entry.
#[verifier::rlimit(50)]
pub proof fn law_page_parts(doc: DocV, id: ObjectId, page: DictV, states: Option<OcStates>)
    requires
        doc.resolve(id) == Ok::<ObjV, Seq<char>>(ObjV::Dict(page)),
    ensures
        page_value(doc, id, states) matches Ok(v) ==> {
            &&& media_box(doc, page) == Ok::<_, Seq<char>>(v.media_box)
            &&& page_data(doc, page) == Ok::<_, Seq<char>>(v.content)
            &&& page_rotation(doc, page) == Ok::<_, Seq<char>>(v.orientation)
            &&& page_appearances(doc, page, states) == v.appearances
        },
        media_box(doc, page) is Ok && page_data(doc, page) is Ok && page_rotation(doc, page) is Ok
            && page_resources(doc, page) == Ok::<Option<DictV>, Seq<char>>(None) ==> page_value(
            doc,
            id,
            states,
        ) is Ok,
{
}

/// An entry that is to be a dictionary may be a reference to one.
pub proof fn law_hop_dict(doc: DocV, d: DictV, key: Seq<char>, id: ObjectId, v: DictV)
    ensures
        dict_get(d, key) == Some(ObjV::Dict(v)) ==> hop_dict(doc, d, key) == Ok::<
            Option<DictV>,
            Seq<char>,
        >(Some(v)),
        dict_get(d, key) == Some(ObjV::Reference(id)) && doc.resolve(id) == Ok::<ObjV, Seq<char>>(
            ObjV::Dict(v),
        ) ==> hop_dict(doc, d, key) == Ok::<Option<DictV>, Seq<char>>(Some(v)),
        dict_get(d, key) is None ==> hop_dict(doc, d, key) == Ok::<Option<DictV>, Seq<char>>(None),
        dict_get(d, key) == Some(ObjV::Reference(id)) && doc.resolve(id) is Err ==> hop_dict(
            doc,
            d,
            key,
        ) is Err,
{
}

} // verus!
