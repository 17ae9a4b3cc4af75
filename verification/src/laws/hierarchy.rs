//! Laws of the report on a document: a sound tree is free of issues, and each fault
//! is told at the object that has it.

use vstd::prelude::*;
use crate::document::DocV;
use crate::hierarchy::{
    catalog_report, count_checked, document_report, kids_walked, leaf_checked, node_walked,
    parent_checked, walked, with_severity, IssueSeverity, IssueV, ReportV, WalkV,
};
use crate::laws::name_trees::{lemma_numbers_unseen, numbers_unseen};
use crate::laws::pages::{tree_root, PageTree};
use crate::objects::{dict_get, DictV, ObjV, ObjectId};

verus! {

// -------------------------------------------------------------- sound trees

/// How many pages a tree has.
pub open spec fn page_total(t: PageTree) -> int
    decreases t, 0int,
{
    match t {
        PageTree::Page(_) => 1,
        PageTree::Pages(_, kids) => pages_total(kids, kids.len() as int),
    }
}

/// How many pages the first `n` trees have.
pub open spec fn pages_total(kids: Seq<PageTree>, n: int) -> int
    decreases kids, n,
{
    if n <= 0 || n > kids.len() {
        0
    } else {
        pages_total(kids, n - 1) + page_total(kids[n - 1])
    }
}

/// The numbers of the nodes of a tree.
pub open spec fn node_numbers(t: PageTree) -> Seq<u32>
    decreases t, 0int,
{
    match t {
        PageTree::Page(id) => seq![id.number],
        PageTree::Pages(id, kids) => seq![id.number] + nodes_numbers(kids, kids.len() as int),
    }
}

/// The numbers of the nodes of the first `n` trees.
pub open spec fn nodes_numbers(kids: Seq<PageTree>, n: int) -> Seq<u32>
    decreases kids, n,
{
    if n <= 0 || n > kids.len() {
        Seq::empty()
    } else {
        nodes_numbers(kids, n - 1) + node_numbers(kids[n - 1])
    }
}

/// The greater of two numbers.
pub open spec fn greater(a: int, b: int) -> int {
    if a > b {
        a
    } else {
        b
    }
}

/// The level of the deepest node of a tree whose first node is at level `depth`.
pub open spec fn deepest(t: PageTree, depth: int) -> int
    decreases t, 0int,
{
    match t {
        PageTree::Page(_) => depth,
        PageTree::Pages(_, kids) => greater(
            depth,
            deepest_among(kids, kids.len() as int, depth + 1),
        ),
    }
}

/// The same of the first `n` trees.
pub open spec fn deepest_among(kids: Seq<PageTree>, n: int, depth: int) -> int
    decreases kids, n,
{
    if n <= 0 || n > kids.len() {
        0
    } else {
        greater(deepest_among(kids, n - 1, depth), deepest(kids[n - 1], depth))
    }
}

/// A document holds the tree, with all that is asked of its nodes: each but the first
/// refers to the one above it, pages have a box, and the counts are right.
pub open spec fn sound_tree(doc: DocV, t: PageTree, parent: Option<ObjectId>, depth: int) -> bool
    decreases t, 0int,
{
    &&& 0 <= depth <= 32
    &&& match t {
        PageTree::Page(id) => parent is Some && (doc.resolve(id) matches Ok(ObjV::Dict(d))
            && dict_get(d, "Type"@) == Some(ObjV::Name("Page"@)) && dict_get(d, "Parent"@) == Some(
            ObjV::Reference(parent->Some_0),
        ) && dict_get(d, "MediaBox"@) is Some),
        PageTree::Pages(id, kids) => (doc.resolve(id) matches Ok(ObjV::Dict(d)) && dict_get(
            d,
            "Type"@,
        ) == Some(ObjV::Name("Pages"@)) && (parent matches Some(p) ==> dict_get(d, "Parent"@)
            == Some(ObjV::Reference(p))) && dict_get(d, "Kids"@) == Some(
            ObjV::Array(Seq::new(kids.len(), |i: int| ObjV::Reference(tree_root(kids[i])))),
        ) && dict_get(d, "Count"@) == Some(ObjV::Integer(page_total(t) as i64)) && page_total(t)
            <= i64::MAX) && sound_trees(doc, kids, kids.len() as int, id, depth + 1),
    }
}

/// The same of the first `n` kids of a node.
pub open spec fn sound_trees(
    doc: DocV,
    kids: Seq<PageTree>,
    n: int,
    parent: ObjectId,
    depth: int,
) -> bool
    decreases kids, n,
{
    n <= 0 || n > kids.len() || (sound_trees(doc, kids, n - 1, parent, depth) && sound_tree(
        doc,
        kids[n - 1],
        Some(parent),
        depth,
    ))
}

proof fn lemma_total(t: PageTree)
    ensures
        page_total(t) >= 0,
    decreases t, 0int,
{
    if let PageTree::Pages(_, kids) = t {
        lemma_totals(kids, kids.len() as int);
    }
}

proof fn lemma_totals(kids: Seq<PageTree>, n: int)
    ensures
        pages_total(kids, n) >= 0,
    decreases kids, n,
{
    if 0 < n <= kids.len() {
        lemma_totals(kids, n - 1);
        lemma_total(kids[n - 1]);
    }
}

/// What a walk through a sound tree comes to.
pub open spec fn walk_end(w: WalkV, numbers: Seq<u32>, pages: int, level: int) -> WalkV {
    WalkV {
        seen: w.seen.union(numbers.to_set()),
        leaves: (w.leaves + pages) as usize,
        max_depth: greater(w.max_depth as int, level) as usize,
        issues: w.issues,
    }
}

proof fn lemma_one(seen: Set<u32>, n: u32)
    ensures
        seen.union(seq![n].to_set()) == seen.insert(n),
{
    assert(seen.union(seq![n].to_set()) =~= seen.insert(n)) by {
        assert forall|x: u32| seq![n].to_set().contains(x) <==> x == n by {
            if x == n {
                assert(seq![n][0] == x);
            }
        }
    }
}

#[verifier::rlimit(50)]
proof fn lemma_sound(doc: DocV, t: PageTree, parent: Option<ObjectId>, depth: int, w: WalkV)
    requires
        sound_tree(doc, t, parent, depth),
        numbers_unseen(w.seen, node_numbers(t)),
        node_numbers(t).no_duplicates(),
        w.leaves + page_total(t) <= usize::MAX,
    ensures
        walked(doc, tree_root(t), parent, depth, w) == walk_end(
            w,
            node_numbers(t),
            page_total(t),
            deepest(t, depth),
        ),
        0 <= deepest(t, depth) <= 33,
    decreases t, 0int,
{
    reveal_strlit("Page");
    reveal_strlit("Pages");
    assert("Page"@.len() == 4 && "Pages"@.len() == 5);
    let id = tree_root(t);
    assert(node_numbers(t)[0] == id.number);
    lemma_one(w.seen, id.number);
    let here = WalkV {
        seen: w.seen.insert(id.number),
        leaves: w.leaves,
        max_depth: greater(w.max_depth as int, depth) as usize,
        issues: w.issues,
    };
    let d = doc.resolve(id)->Ok_0->Dict_0;
    match t {
        PageTree::Page(_) => {
            assert(walked(doc, id, parent, depth, w) == leaf_checked(
                d,
                id,
                parent,
                here.with_leaf(),
            ));
        },
        PageTree::Pages(_, kids) => {
            let items = Seq::new(kids.len(), |i: int| ObjV::Reference(tree_root(kids[i])));
            let below = nodes_numbers(kids, kids.len() as int);
            lemma_numbers_unseen(w.seen, seq![id.number], below);
            assert(walked(doc, id, parent, depth, w) == node_walked(
                doc,
                d,
                id,
                parent,
                depth,
                here,
            ));
            assert(parent_checked(d, id, parent, here) == here);
            lemma_total(t);
            lemma_sounds(doc, kids, items, kids.len() as int, id, depth, here);
            let after = kids_walked(doc, id, items, kids.len() as int, depth, here);
            assert(after.leaves - here.leaves == page_total(t));
            assert(count_checked(d, id, after.leaves - here.leaves, after) == after);
        },
    }
}

#[verifier::rlimit(50)]
proof fn lemma_sounds(
    doc: DocV,
    kids: Seq<PageTree>,
    items: Seq<ObjV>,
    n: int,
    id: ObjectId,
    depth: int,
    w: WalkV,
)
    requires
        0 <= n <= kids.len(),
        0 <= depth <= 32,
        items == Seq::new(kids.len(), |i: int| ObjV::Reference(tree_root(kids[i]))),
        sound_trees(doc, kids, n, id, depth + 1),
        numbers_unseen(w.seen, nodes_numbers(kids, n)),
        nodes_numbers(kids, n).no_duplicates(),
        w.leaves + pages_total(kids, n) <= usize::MAX,
    ensures
        kids_walked(doc, id, items, n, depth, w) == walk_end(
            w,
            nodes_numbers(kids, n),
            pages_total(kids, n),
            deepest_among(kids, n, depth + 1),
        ),
        0 <= deepest_among(kids, n, depth + 1) <= 33,
    decreases kids, n,
{
    if n > 0 {
        let a = nodes_numbers(kids, n - 1);
        let b = node_numbers(kids[n - 1]);
        lemma_numbers_unseen(w.seen, a, b);
        lemma_totals(kids, n - 1);
        lemma_total(kids[n - 1]);
        lemma_sounds(doc, kids, items, n - 1, id, depth, w);
        let before = kids_walked(doc, id, items, n - 1, depth, w);
        lemma_sound(doc, kids[n - 1], Some(id), depth + 1, before);
        assert(items[n - 1] == ObjV::Reference(tree_root(kids[n - 1])));
    } else {
        assert(w.seen.union(nodes_numbers(kids, n).to_set()) =~= w.seen);
    }
}

/// The report on a sound document has no issues; it counts the pages, and tells how
/// deep the tree is.
pub proof fn law_sound_document(doc: DocV, root: ObjectId, catalog: DictV, t: PageTree)
    requires
        doc.xref.root() == Ok::<ObjectId, Seq<char>>(root),
        doc.resolve(root) == Ok::<ObjV, Seq<char>>(ObjV::Dict(catalog)),
        dict_get(catalog, "Type"@) == Some(ObjV::Name("Catalog"@)),
        dict_get(catalog, "Pages"@) == Some(ObjV::Reference(tree_root(t))),
        sound_tree(doc, t, None, 0),
        node_numbers(t).no_duplicates(),
        0 < page_total(t) <= usize::MAX,
    ensures
        document_report(doc) == Ok::<ReportV, Seq<char>>(
            ReportV {
                page_count: page_total(t) as usize,
                max_depth: deepest(t, 0) as usize,
                issues: Seq::empty(),
            },
        ),
{
    let w = WalkV {
        seen: Set::<u32>::empty(),
        leaves: 0,
        max_depth: 0,
        issues: Seq::<IssueV>::empty(),
    };
    lemma_sound(doc, t, None, 0, w);
}

// -------------------------------------------------------------------- faults

/// The walk found one more issue, of this severity and at this object.
pub open spec fn one_more(a: WalkV, b: WalkV, severity: IssueSeverity, id: ObjectId) -> bool {
    &&& b.issues.len() == a.issues.len() + 1
    &&& b.issues.drop_last() == a.issues
    &&& b.issues.last().severity == severity
    &&& b.issues.last().object_id == Some(id)
    &&& b.leaves == a.leaves
}

proof fn lemma_push(s: Seq<IssueV>, i: IssueV)
    ensures
        s.push(i).drop_last() == s,
{
    assert(s.push(i).drop_last() =~= s);
}

/// A page warns of a missing or a wrong parent, and of a box that it does not have
/// itself.
pub proof fn law_page_faults(d: DictV, id: ObjectId, parent: ObjectId, other: ObjectId, w: WalkV)
    ensures
        dict_get(d, "MediaBox"@) is Some ==> {
            &&& dict_get(d, "Parent"@) == Some(ObjV::Reference(parent)) ==> leaf_checked(
                d,
                id,
                Some(parent),
                w,
            ) == w
            &&& dict_get(d, "Parent"@) is None ==> one_more(
                w,
                leaf_checked(d, id, Some(parent), w),
                IssueSeverity::Warning,
                id,
            )
            &&& other != parent && dict_get(d, "Parent"@) == Some(ObjV::Reference(other))
                ==> one_more(
                w,
                leaf_checked(d, id, Some(parent), w),
                IssueSeverity::Warning,
                id,
            )
        },
        dict_get(d, "MediaBox"@) is None && dict_get(d, "Parent"@) == Some(ObjV::Reference(parent))
            ==> one_more(w, leaf_checked(d, id, Some(parent), w), IssueSeverity::Warning, id),
{
    assert forall|x: IssueV| #[trigger] w.issues.push(x).drop_last() == w.issues by {
        lemma_push(w.issues, x);
    }
}

/// A node warns of a missing or a wrong parent, and of a count that is missing, wrong
/// or no integer.
pub proof fn law_node_faults(
    d: DictV,
    id: ObjectId,
    parent: ObjectId,
    other: ObjectId,
    found: int,
    n: i64,
    w: WalkV,
)
    ensures
        parent_checked(d, id, None, w) == w,
        dict_get(d, "Parent"@) == Some(ObjV::Reference(parent)) ==> parent_checked(
            d,
            id,
            Some(parent),
            w,
        ) == w,
        dict_get(d, "Parent"@) is None || (other != parent && dict_get(d, "Parent"@) == Some(
            ObjV::Reference(other),
        )) ==> one_more(w, parent_checked(d, id, Some(parent), w), IssueSeverity::Warning, id),
        dict_get(d, "Count"@) == Some(ObjV::Integer(n)) && n == found ==> count_checked(
            d,
            id,
            found,
            w,
        ) == w,
        dict_get(d, "Count"@) is None || (dict_get(d, "Count"@) == Some(ObjV::Integer(n)) && n
            != found) ==> one_more(w, count_checked(d, id, found, w), IssueSeverity::Warning, id),
{
    assert forall|x: IssueV| #[trigger] w.issues.push(x).drop_last() == w.issues by {
        lemma_push(w.issues, x);
    }
}

/// It is an error where a node lies more than 32 levels down, cannot be read, is no
/// dictionary, has another type, or has no kids; none of these counts as a page.
#[verifier::rlimit(50)]
pub proof fn law_walk_errors(
    doc: DocV,
    id: ObjectId,
    parent: ObjectId,
    depth: int,
    w: WalkV,
    d: DictV,
    t: Seq<char>,
)
    requires
        0 <= depth,
    ensures
        depth > 32 ==> one_more(
            w,
            walked(doc, id, Some(parent), depth, w),
            IssueSeverity::Error,
            id,
        ),
        depth <= 32 && !w.seen.contains(id.number) ==> {
            &&& doc.resolve(id) is Err ==> one_more(
                w,
                walked(doc, id, Some(parent), depth, w),
                IssueSeverity::Error,
                id,
            )
            &&& doc.resolve(id) == Ok::<ObjV, Seq<char>>(ObjV::Null) ==> one_more(
                w,
                walked(doc, id, Some(parent), depth, w),
                IssueSeverity::Error,
                id,
            )
            &&& doc.resolve(id) == Ok::<ObjV, Seq<char>>(ObjV::Dict(d)) && dict_get(d, "Type"@)
                == Some(ObjV::Name(t)) && t.len() != 4 && t.len() != 5 ==> one_more(
                w,
                walked(doc, id, Some(parent), depth, w),
                IssueSeverity::Error,
                id,
            )
            &&& doc.resolve(id) == Ok::<ObjV, Seq<char>>(ObjV::Dict(d)) && dict_get(d, "Type"@)
                == Some(ObjV::Name("Pages"@)) && dict_get(d, "Parent"@) == Some(
                ObjV::Reference(parent),
            ) && dict_get(d, "Kids"@) is None ==> one_more(
                w,
                walked(doc, id, Some(parent), depth, w),
                IssueSeverity::Error,
                id,
            )
        },
{
    reveal_strlit("Page");
    reveal_strlit("Pages");
    assert("Page"@.len() == 4 && "Pages"@.len() == 5);
    assert forall|x: IssueV| #[trigger] w.issues.push(x).drop_last() == w.issues by {
        lemma_push(w.issues, x);
    }
}

/// A kid that is no reference is an error at the node that lists it.
pub proof fn law_bad_kid(doc: DocV, id: ObjectId, kids: Seq<ObjV>, n: int, depth: int, w: WalkV)
    requires
        0 < n <= kids.len(),
        0 <= depth <= 32,
        !(kids[n - 1] is Reference),
    ensures
        one_more(
            kids_walked(doc, id, kids, n - 1, depth, w),
            kids_walked(doc, id, kids, n, depth, w),
            IssueSeverity::Error,
            id,
        ),
{
    let before = kids_walked(doc, id, kids, n - 1, depth, w);
    assert forall|x: IssueV| #[trigger] before.issues.push(x).drop_last() == before.issues by {
        lemma_push(before.issues, x);
    }
}

/// A catalogue with another type, without a type or without pages is an error, and
/// so is a trailer without a catalogue.
#[verifier::rlimit(50)]
pub proof fn law_catalog_faults(doc: DocV, root: ObjectId, catalog: DictV, t: Seq<char>)
    ensures
        dict_get(catalog, "Pages"@) is None ==> catalog_report(doc, root, catalog).page_count == 0
            && catalog_report(doc, root, catalog).issues.len() >= 1 && catalog_report(
            doc,
            root,
            catalog,
        ).issues.last().severity == IssueSeverity::Error,
        dict_get(catalog, "Pages"@) is None && dict_get(catalog, "Type"@) == Some(
            ObjV::Name("Catalog"@),
        ) ==> catalog_report(doc, root, catalog).issues.len() == 1,
        dict_get(catalog, "Pages"@) is None && (dict_get(catalog, "Type"@) is None || (dict_get(
            catalog,
            "Type"@,
        ) == Some(ObjV::Name(t)) && t.len() != 7)) ==> catalog_report(doc, root, catalog).issues.len()
            == 2,
        doc.xref.root() is Err ==> (document_report(doc) matches Ok(r) && r.page_count == 0
            && r.issues.len() == 1 && r.issues[0].severity == IssueSeverity::Error),
        doc.xref.root() == Ok::<ObjectId, Seq<char>>(root) && doc.resolve(root) is Err
            ==> document_report(doc) is Err,
        doc.xref.root() == Ok::<ObjectId, Seq<char>>(root) && doc.resolve(root) == Ok::<
            ObjV,
            Seq<char>,
        >(ObjV::Null) ==> (document_report(doc) matches Ok(r) && r.issues.len() == 1
            && r.issues[0].severity == IssueSeverity::Error && r.issues[0].object_id == Some(root)),
{
    reveal_strlit("Catalog");
    assert("Catalog"@.len() == 7);
}

/// The issues of one severity are those that have it, in order.
pub proof fn law_issues_of_severity(issues: Seq<IssueV>, n: int, severity: IssueSeverity)
    requires
        0 <= n <= issues.len(),
    ensures
        with_severity(issues, n, severity) == issues.take(n).filter(
            |i: IssueV| i.severity == severity,
        ),
    decreases n,
{
    reveal(Seq::filter);
    if n > 0 {
        law_issues_of_severity(issues, n - 1, severity);
        assert(issues.take(n).drop_last() =~= issues.take(n - 1));
        assert(issues.take(n).last() == issues[n - 1]);
    } else {
        assert(issues.take(0).filter(|i: IssueV| i.severity == severity) =~= Seq::empty());
    }
}

} // verus!
