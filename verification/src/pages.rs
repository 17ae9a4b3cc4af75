//! The page tree.

use std::collections::{HashMap, HashSet};
use vstd::prelude::*;
use crate::describe::{cat_name_entry, got, opt_quoted, unexpected};
use crate::document::{cache_key, DocV, DocumentReader};
use crate::error::{outcome, PdfError};
use crate::nametree::opt_obj;
use crate::objects::{dict_get, lemma_array_view, objs_view, Dict, DictV, ObjV, Object, ObjectId};
use crate::text::{cat, cat_id, id_text, same_text};

verus! {

broadcast use vstd::std_specs::hash::group_hash_axioms;

/// The entry `key` of a dictionary, if it is a name.
pub open spec fn dict_name(d: DictV, key: Seq<char>) -> Option<Seq<char>> {
    match dict_get(d, key) {
        Some(ObjV::Name(n)) => Some(n),
        _ => None,
    }
}

/// The entry `key` of a dictionary is the name `name`.
pub(crate) fn is_named(d: &Dict, key: &str, name: &str) -> (r: bool)
    ensures
        r == (dict_name(d@, key@) == Some(name@)),
{
    match d.get(key) {
        Some(Object::Name(n)) => same_text(n.as_str(), name),
        _ => false,
    }
}

/// The entry `key` of a dictionary, if it is a reference.
pub open spec fn dict_ref(d: DictV, key: Seq<char>) -> Option<ObjectId> {
    match dict_get(d, key) {
        Some(ObjV::Reference(id)) => Some(id),
        _ => None,
    }
}

/// The entry `key` of a dictionary, if it is a reference.
pub(crate) fn get_ref(d: &Dict, key: &str) -> (r: Option<ObjectId>)
    ensures
        r == dict_ref(d@, key@),
{
    match d.get(key) {
        Some(Object::Reference(id)) => Some(*id),
        _ => None,
    }
}

// --------------------------------------------------------- the strict walk

/// How deep the page tree may be.
pub const MAX_PAGES_TREE_DEPTH: u32 = 256;

/// What walking a part of the page tree gives: the nodes seen and the pages
/// found so far, or the description of an error.
pub type PagesV = Result<(Set<u64>, Seq<ObjectId>), Seq<char>>;

/// The pages of node `id` and below, behind what was `seen` and found (`out`)
/// before. A node seen twice, or of an unknown type, is an error.
pub open spec fn pages_below(
    doc: DocV,
    id: ObjectId,
    seen: Set<u64>,
    depth: int,
    out: Seq<ObjectId>,
) -> PagesV
    decreases MAX_PAGES_TREE_DEPTH + 1 - depth, 1int, 0int,
{
    if depth > MAX_PAGES_TREE_DEPTH {
        Err("PDF reader: /Pages tree exceeds maximum depth (256)"@)
    } else if seen.contains(cache_key(id)) {
        Err("PDF reader: /Pages tree contains a cycle at "@ + id_text(id))
    } else {
        let seen = seen.insert(cache_key(id));
        match doc.resolve(id) {
            Err(e) => Err(e),
            Ok(ObjV::Dict(d)) => if dict_name(d, "Type"@) == Some("Page"@) {
                Ok((seen, out.push(id)))
            } else if dict_name(d, "Type"@) == Some("Pages"@) {
                match dict_get(d, "Kids"@) {
                    None => Err("PDF reader: /Pages node "@ + id_text(id) + " missing /Kids"@),
                    Some(ObjV::Array(kids)) => pages_of_kids(doc, kids, 0, seen, depth, out),
                    Some(_) => Err("PDF reader: /Kids must be an array on "@ + id_text(id)),
                }
            } else {
                Err(
                    "PDF reader: pages-tree node "@ + id_text(id) + " has unknown /Type "@
                        + opt_quoted(dict_name(d, "Type"@)),
                )
            },
            Ok(_) => Err("PDF reader: pages-tree node "@ + id_text(id) + " is not a dict"@),
        }
    }
}

/// The pages below the kids from place `i` on; kids that are no references
/// are passed over.
pub open spec fn pages_of_kids(
    doc: DocV,
    kids: Seq<ObjV>,
    i: int,
    seen: Set<u64>,
    depth: int,
    out: Seq<ObjectId>,
) -> PagesV
    decreases MAX_PAGES_TREE_DEPTH + 1 - depth, 0int, kids.len() - i,
{
    if i < 0 || i >= kids.len() || depth > MAX_PAGES_TREE_DEPTH {
        Ok((seen, out))
    } else {
        match kids[i] {
            ObjV::Reference(kid) => match pages_below(doc, kid, seen, depth + 1, out) {
                Err(e) => Err(e),
                Ok((s, o)) => pages_of_kids(doc, kids, i + 1, s, depth, o),
            },
            _ => pages_of_kids(doc, kids, i + 1, seen, depth, out),
        }
    }
}

/// `r`, with `seen` and `out` as they are afterwards, is what `w` says.
pub open spec fn pages_agree(
    r: Result<(), PdfError>,
    seen: Set<u64>,
    out: Seq<ObjectId>,
    w: PagesV,
) -> bool {
    match r {
        Ok(_) => w == Ok::<(Set<u64>, Seq<ObjectId>), Seq<char>>((seen, out)),
        Err(e) => w == Err::<(Set<u64>, Seq<ObjectId>), Seq<char>>(e@),
    }
}

fn walk_pages_tree_inner(
    reader: &mut DocumentReader,
    id: ObjectId,
    out: &mut Vec<ObjectId>,
    seen: &mut HashSet<u64>,
    depth: u32,
) -> (r: Result<(), PdfError>)
    requires
        old(reader).wf(),
        depth <= MAX_PAGES_TREE_DEPTH + 1,
    ensures
        final(reader).wf(),
        final(reader).doc() == old(reader).doc(),
        pages_agree(
            r,
            final(seen)@,
            final(out)@,
            pages_below(old(reader).doc(), id, old(seen)@, depth as int, old(out)@),
        ),
    decreases MAX_PAGES_TREE_DEPTH + 1 - depth,
{
    let ghost doc = reader.doc();
    if depth > MAX_PAGES_TREE_DEPTH {
        return Err(PdfError::other("PDF reader: /Pages tree exceeds maximum depth (256)"));
    }
    let key: u64 = id.number as u64 * 65536 + id.generation as u64;
    proof {
        assert(key == cache_key(id));
    }
    if seen.contains(&key) {
        return Err(
            PdfError::Other(
                cat_id("PDF reader: /Pages tree contains a cycle at ".to_owned(), id),
            ),
        );
    }
    seen.insert(key);
    let d: Dict = match reader.resolve(id) {
        Err(e) => {
            return Err(e);
        },
        Ok(Object::Dict(d)) => d,
        Ok(_) => {
            let m: String = cat_id("PDF reader: pages-tree node ".to_owned(), id);
            return Err(PdfError::Other(cat(m, " is not a dict")));
        },
    };
    if is_named(&d, "Type", "Page") {
        out.push(id);
        return Ok(());
    }
    if !is_named(&d, "Type", "Pages") {
        let m: String = cat_id("PDF reader: pages-tree node ".to_owned(), id);
        return Err(PdfError::Other(cat_name_entry(cat(m, " has unknown /Type "), &d, "Type")));
    }
    let kids: &Vec<Object> = match d.get("Kids") {
        None => {
            let m: String = cat_id("PDF reader: /Pages node ".to_owned(), id);
            return Err(PdfError::Other(cat(m, " missing /Kids")));
        },
        Some(Object::Array(kids)) => kids,
        Some(_) => {
            return Err(
                PdfError::Other(
                    cat_id("PDF reader: /Kids must be an array on ".to_owned(), id),
                ),
            );
        },
    };
    proof {
        lemma_array_view(*kids);
    }
    let ghost view = objs_view(kids@);
    let ghost goal = pages_of_kids(doc, view, 0, seen@, depth as int, out@);
    let mut i: usize = 0;
    while i < kids.len()
        invariant
            i <= kids@.len(),
            view == objs_view(kids@),
            reader.wf(),
            reader.doc() == doc,
            doc == old(reader).doc(),
            depth <= MAX_PAGES_TREE_DEPTH,
            goal == pages_below(doc, id, old(seen)@, depth as int, old(out)@),
            goal == pages_of_kids(doc, view, i as int, seen@, depth as int, out@),
        decreases kids.len() - i,
    {
        proof {
            assert(view[i as int] == kids@[i as int]@);
        }
        if let Object::Reference(kid) = &kids[i] {
            match walk_pages_tree_inner(reader, *kid, out, seen, depth + 1) {
                Ok(_) => {},
                Err(e) => {
                    return Err(e);
                },
            }
        }
        i = i + 1;
    }
    Ok(())
}

/// The pages of a tree, in order.
pub open spec fn pages_of_tree(doc: DocV, root: ObjectId) -> Result<Seq<ObjectId>, Seq<char>> {
    match pages_below(doc, root, Set::empty(), 0, Seq::empty()) {
        Ok((_, out)) => Ok(out),
        Err(e) => Err(e),
    }
}

/// The pages below `root`, in order. A cycle, a node that is neither a page
/// nor a list of kids, and too deep a tree are errors.
pub fn walk_pages_tree(reader: &mut DocumentReader, root: ObjectId) -> (r: Result<
    Vec<ObjectId>,
    PdfError,
>)
    requires
        old(reader).wf(),
    ensures
        final(reader).wf(),
        final(reader).doc() == old(reader).doc(),
        outcome(r) == pages_of_tree(old(reader).doc(), root),
{
    let mut out: Vec<ObjectId> = Vec::new();
    let mut seen: HashSet<u64> = HashSet::new();
    match walk_pages_tree_inner(reader, root, &mut out, &mut seen, 0) {
        Ok(_) => Ok(out),
        Err(e) => Err(e),
    }
}

/// The pages of a document, in order; there must be one.
pub open spec fn document_pages(doc: DocV) -> Result<Seq<ObjectId>, Seq<char>> {
    match doc.catalog() {
        Err(e) => Err(e),
        Ok(ObjV::Dict(d)) => match dict_get(d, "Pages"@) {
            None => Err("PDF reader: catalog missing /Pages"@),
            Some(ObjV::Reference(root)) => match pages_of_tree(doc, root) {
                Err(e) => Err(e),
                Ok(pages) => if pages.len() == 0 {
                    Err("PDF reader: /Pages tree contained no Page leaves"@)
                } else {
                    Ok(pages)
                },
            },
            Some(o) => Err("PDF reader: catalog /Pages must be an indirect reference"@ + got(o)),
        },
        Ok(o) => Err("PDF reader: /Root must be a dictionary"@ + got(o)),
    }
}

/// The pages of a document, in order; there must be one.
pub fn page_leaves(reader: &mut DocumentReader) -> (r: Result<Vec<ObjectId>, PdfError>)
    requires
        old(reader).wf(),
    ensures
        final(reader).wf(),
        final(reader).doc() == old(reader).doc(),
        outcome(r) == document_pages(old(reader).doc()),
{
    let d: Dict = match reader.catalog() {
        Err(e) => {
            return Err(e);
        },
        Ok(Object::Dict(d)) => d,
        Ok(o) => {
            return Err(unexpected("PDF reader: /Root must be a dictionary", &o));
        },
    };
    let root: ObjectId = match d.get("Pages") {
        None => {
            return Err(PdfError::other("PDF reader: catalog missing /Pages"));
        },
        Some(Object::Reference(id)) => *id,
        Some(o) => {
            return Err(unexpected("PDF reader: catalog /Pages must be an indirect reference", o));
        },
    };
    match walk_pages_tree(reader, root) {
        Err(e) => Err(e),
        Ok(pages) => {
            if pages.len() == 0 {
                return Err(PdfError::other("PDF reader: /Pages tree contained no Page leaves"));
            }
            Ok(pages)
        },
    }
}

// -------------------------------------------------- inherited attributes

/// How far up the page tree an attribute is looked for.
pub const MAX_PAGE_TREE_DEPTH: usize = 64;

/// The value of `key` at the first of the ancestors from `parent` on that has
/// it. The climb ends at a node that was seen before, is no dictionary, or
/// lies too far up.
pub open spec fn inherited_from(
    doc: DocV,
    parent: Option<ObjV>,
    key: Seq<char>,
    seen: Set<u64>,
    depth: int,
) -> Result<Option<ObjV>, Seq<char>>
    decreases MAX_PAGE_TREE_DEPTH - depth,
{
    match parent {
        Some(ObjV::Reference(id)) => if depth >= MAX_PAGE_TREE_DEPTH || seen.contains(
            cache_key(id),
        ) {
            Ok(None)
        } else {
            match doc.resolve(id) {
                Err(e) => Err(e),
                Ok(ObjV::Dict(node)) => match dict_get(node, key) {
                    Some(v) => Ok(Some(v)),
                    None => inherited_from(
                        doc,
                        dict_get(node, "Parent"@),
                        key,
                        seen.insert(cache_key(id)),
                        depth + 1,
                    ),
                },
                Ok(_) => Ok(None),
            }
        },
        _ => Ok(None),
    }
}

/// The value of an inheritable attribute of a page: its own, or that of the
/// nearest ancestor that has it.
pub open spec fn inheritable(doc: DocV, page: DictV, key: Seq<char>) -> Result<
    Option<ObjV>,
    Seq<char>,
> {
    match dict_get(page, key) {
        Some(v) => Ok(Some(v)),
        None => inherited_from(doc, dict_get(page, "Parent"@), key, Set::empty(), 0),
    }
}

/// `r` is the optional object that `w` says.
pub open spec fn opt_agrees(
    r: Result<Option<Object>, PdfError>,
    w: Result<Option<ObjV>, Seq<char>>,
) -> bool {
    match r {
        Ok(v) => w == Ok::<Option<ObjV>, Seq<char>>(opt_obj(v)),
        Err(e) => w == Err::<Option<ObjV>, Seq<char>>(e@),
    }
}

/// A copy of an optional object.
pub(crate) fn clone_opt(o: Option<&Object>) -> (r: Option<Object>)
    ensures
        opt_obj(r) == crate::objects::opt_view(o),
{
    match o {
        Some(v) => Some(v.clone()),
        None => None,
    }
}

/// The value of an inheritable attribute of a page, as it is written.
pub fn resolve_inheritable_attr(reader: &mut DocumentReader, page: &Dict, key: &str) -> (r: Result<
    Option<Object>,
    PdfError,
>)
    requires
        old(reader).wf(),
    ensures
        final(reader).wf(),
        final(reader).doc() == old(reader).doc(),
        opt_agrees(r, inheritable(old(reader).doc(), page@, key@)),
{
    if let Some(v) = page.get(key) {
        return Ok(Some(v.clone()));
    }
    let mut parent: Option<Object> = clone_opt(page.get("Parent"));
    let mut seen: HashSet<u64> = HashSet::new();
    let mut depth: usize = 0;
    let ghost doc = reader.doc();
    let ghost goal = inheritable(doc, page@, key@);
    loop
        invariant
            reader.wf(),
            reader.doc() == doc,
            doc == old(reader).doc(),
            depth <= MAX_PAGE_TREE_DEPTH,
            goal == inheritable(doc, page@, key@),
            goal == inherited_from(doc, opt_obj(parent), key@, seen@, depth as int),
        decreases MAX_PAGE_TREE_DEPTH - depth,
    {
        let id: ObjectId = match &parent {
            Some(Object::Reference(id)) => *id,
            _ => {
                return Ok(None);
            },
        };
        let k: u64 = id.number as u64 * 65536 + id.generation as u64;
        proof {
            assert(k == cache_key(id));
        }
        if depth >= MAX_PAGE_TREE_DEPTH || seen.contains(&k) {
            return Ok(None);
        }
        seen.insert(k);
        depth = depth + 1;
        let node: Dict = match reader.resolve(id) {
            Err(e) => {
                return Err(e);
            },
            Ok(Object::Dict(d)) => d,
            Ok(_) => {
                return Ok(None);
            },
        };
        if let Some(v) = node.get(key) {
            return Ok(Some(v.clone()));
        }
        parent = clone_opt(node.get("Parent"));
    }
}

/// A dictionary that is the value of an entry, or that the entry refers to
/// directly.
pub open spec fn hop_dict(doc: DocV, d: DictV, key: Seq<char>) -> Result<Option<DictV>, Seq<char>> {
    match dict_get(d, key) {
        None => Ok(None),
        Some(o) => match doc.one_hop(o) {
            Err(e) => Err(e),
            Ok(ObjV::Dict(v)) => Ok(Some(v)),
            Ok(_) => Ok(None),
        },
    }
}

pub(crate) fn read_hop_dict(reader: &mut DocumentReader, d: &Dict, key: &str) -> (r: Result<
    Option<Dict>,
    PdfError,
>)
    requires
        old(reader).wf(),
    ensures
        final(reader).wf(),
        final(reader).doc() == old(reader).doc(),
        crate::named_dest::dict_agrees(r, hop_dict(old(reader).doc(), d@, key@)),
{
    match d.get(key) {
        None => Ok(None),
        Some(Object::Reference(id)) => match reader.resolve(*id) {
            Err(e) => Err(e),
            Ok(Object::Dict(v)) => Ok(Some(v)),
            Ok(_) => Ok(None),
        },
        Some(Object::Dict(v)) => Ok(Some(v.clone())),
        Some(_) => Ok(None),
    }
}

// -------------------------------------------------------- the lenient walk

/// No further kids are looked at once this many pages were passed.
pub const MAX_LISTED_PAGES: usize = 100_000;

impl DocV {
    /// How many references can follow one another without a cycle.
    pub open spec fn longest_chain(self) -> int {
        let n = 2 * self.xref.entries.len() as int + 2;
        if n > usize::MAX {
            usize::MAX as int
        } else {
            n
        }
    }
}

/// References form a cycle.
pub open spec fn cyclic() -> Seq<char> {
    "PDF reader: references form a cycle"@
}

/// The numbers of the pages of node `id` and below, behind `out`. Whatever is
/// neither a page nor a list of kids is passed over.
pub open spec fn listed_below(doc: DocV, id: ObjectId, fuel: int, out: Seq<u32>) -> Result<
    Seq<u32>,
    Seq<char>,
>
    decreases fuel, 1int, 0int,
{
    match doc.resolve(id) {
        Err(e) => Err(e),
        Ok(ObjV::Dict(d)) => if dict_name(d, "Type"@) == Some("Page"@) {
            Ok(out.push(id.number))
        } else if dict_name(d, "Type"@) is None || dict_name(d, "Type"@) == Some("Pages"@) {
            match dict_get(d, "Kids"@) {
                Some(ObjV::Array(kids)) => if fuel <= 0 {
                    Err(cyclic())
                } else {
                    listed_kids(doc, kids, 0, fuel, out)
                },
                _ => Ok(out),
            }
        } else {
            Ok(out)
        },
        Ok(_) => Ok(out),
    }
}

/// The numbers of the pages below the kids from place `i` on.
pub open spec fn listed_kids(
    doc: DocV,
    kids: Seq<ObjV>,
    i: int,
    fuel: int,
    out: Seq<u32>,
) -> Result<Seq<u32>, Seq<char>>
    decreases fuel, 0int, kids.len() - i,
{
    if i < 0 || i >= kids.len() || fuel <= 0 {
        Ok(out)
    } else {
        match kids[i] {
            ObjV::Reference(kid) => if out.len() > MAX_LISTED_PAGES {
                Ok(out)
            } else {
                match listed_below(doc, kid, fuel - 1, out) {
                    Err(e) => Err(e),
                    Ok(o) => listed_kids(doc, kids, i + 1, fuel, o),
                }
            },
            _ => listed_kids(doc, kids, i + 1, fuel, out),
        }
    }
}

/// The numbers of the pages of a document, in order. A document without a
/// page tree has none.
pub open spec fn listed_pages(doc: DocV) -> Result<Seq<u32>, Seq<char>> {
    match doc.catalog() {
        Err(e) => Err(e),
        Ok(ObjV::Dict(d)) => match dict_ref(d, "Pages"@) {
            Some(root) => listed_below(doc, root, doc.longest_chain(), Seq::empty()),
            None => Ok(Seq::empty()),
        },
        Ok(_) => Ok(Seq::empty()),
    }
}

fn walk_pages(reader: &mut DocumentReader, id: ObjectId, fuel: usize, out: &mut Vec<u32>) -> (r:
    Result<(), PdfError>)
    requires
        old(reader).wf(),
    ensures
        final(reader).wf(),
        final(reader).doc() == old(reader).doc(),
        match r {
            Ok(_) => listed_below(old(reader).doc(), id, fuel as int, old(out)@) == Ok::<
                Seq<u32>,
                Seq<char>,
            >(final(out)@),
            Err(e) => listed_below(old(reader).doc(), id, fuel as int, old(out)@) == Err::<
                Seq<u32>,
                Seq<char>,
            >(e@),
        },
    decreases fuel,
{
    let ghost doc = reader.doc();
    let d: Dict = match reader.resolve(id) {
        Err(e) => {
            return Err(e);
        },
        Ok(Object::Dict(d)) => d,
        Ok(_) => {
            return Ok(());
        },
    };
    if is_named(&d, "Type", "Page") {
        out.push(id.number);
        return Ok(());
    }
    let untyped: bool = match d.get("Type") {
        Some(Object::Name(_)) => false,
        _ => true,
    };
    if !untyped && !is_named(&d, "Type", "Pages") {
        return Ok(());
    }
    let kids: &Vec<Object> = match d.get("Kids") {
        Some(Object::Array(kids)) => kids,
        _ => {
            return Ok(());
        },
    };
    if fuel == 0 {
        return Err(PdfError::other("PDF reader: references form a cycle"));
    }
    proof {
        lemma_array_view(*kids);
    }
    let ghost view = objs_view(kids@);
    let ghost goal = listed_kids(doc, view, 0, fuel as int, out@);
    let mut i: usize = 0;
    while i < kids.len()
        invariant
            i <= kids@.len(),
            view == objs_view(kids@),
            reader.wf(),
            reader.doc() == doc,
            doc == old(reader).doc(),
            fuel > 0,
            goal == listed_below(doc, id, fuel as int, old(out)@),
            goal == listed_kids(doc, view, i as int, fuel as int, out@),
        decreases kids.len() - i,
    {
        proof {
            assert(view[i as int] == kids@[i as int]@);
        }
        if let Object::Reference(kid) = &kids[i] {
            if out.len() > MAX_LISTED_PAGES {
                return Ok(());
            }
            match walk_pages(reader, *kid, fuel - 1, out) {
                Ok(_) => {},
                Err(e) => {
                    return Err(e);
                },
            }
        }
        i = i + 1;
    }
    Ok(())
}

/// The numbers of the pages of a document, in order.
pub fn list_pages(reader: &mut DocumentReader) -> (r: Result<Vec<u32>, PdfError>)
    requires
        old(reader).wf(),
    ensures
        final(reader).wf(),
        final(reader).doc() == old(reader).doc(),
        outcome(r) == listed_pages(old(reader).doc()),
{
    let d: Dict = match reader.catalog() {
        Err(e) => {
            return Err(e);
        },
        Ok(Object::Dict(d)) => d,
        Ok(_) => {
            return Ok(Vec::new());
        },
    };
    let root: ObjectId = match get_ref(&d, "Pages") {
        Some(id) => id,
        None => {
            return Ok(Vec::new());
        },
    };
    let fuel: usize = reader.chain_limit();
    let mut out: Vec<u32> = Vec::new();
    match walk_pages(reader, root, fuel, &mut out) {
        Ok(_) => Ok(out),
        Err(e) => Err(e),
    }
}

/// Where each page number comes in a list of pages; of two places the later
/// one counts.
pub open spec fn index_of_pages(pages: Seq<u32>) -> Map<u32, usize>
    decreases pages.len(),
{
    if pages.len() == 0 {
        Map::empty()
    } else {
        index_of_pages(pages.drop_last()).insert(pages.last(), (pages.len() - 1) as usize)
    }
}

/// Where each page of a document comes, by its object number.
pub open spec fn page_index(doc: DocV) -> Result<Map<u32, usize>, Seq<char>> {
    match listed_pages(doc) {
        Ok(pages) => Ok(index_of_pages(pages)),
        Err(e) => Err(e),
    }
}

/// Where each page of a document comes, by its object number.
pub fn build_page_index_map(reader: &mut DocumentReader) -> (r: Result<
    HashMap<u32, usize>,
    PdfError,
>)
    requires
        old(reader).wf(),
    ensures
        final(reader).wf(),
        final(reader).doc() == old(reader).doc(),
        outcome(r) == page_index(old(reader).doc()),
{
    match list_pages(reader) {
        Ok(pages) => Ok(index_pages(&pages)),
        Err(e) => Err(e),
    }
}

/// Where each page number comes in a list of pages.
pub(crate) fn index_pages(pages: &Vec<u32>) -> (map: HashMap<u32, usize>)
    ensures
        map@ == index_of_pages(pages@),
{
    let mut map: HashMap<u32, usize> = HashMap::new();
    let mut i: usize = 0;
    proof {
        assert(pages@.take(0) =~= Seq::empty());
    }
    while i < pages.len()
        invariant
            i <= pages@.len(),
            map@ == index_of_pages(pages@.take(i as int)),
        decreases pages.len() - i,
    {
        proof {
            assert(pages@.take(i + 1).drop_last() =~= pages@.take(i as int));
        }
        map.insert(pages[i], i);
        i = i + 1;
    }
    proof {
        assert(pages@.take(i as int) =~= pages@);
    }
    map
}

/// Every page of a list has a place in it.
pub(crate) proof fn lemma_listed(pages: Seq<u32>, i: int)
    requires
        0 <= i < pages.len(),
    ensures
        index_of_pages(pages).contains_key(pages[i]),
    decreases pages.len(),
{
    if i < pages.len() - 1 {
        lemma_listed(pages.drop_last(), i);
    }
}

// ------------------------------------------------------------------- laws

/// No page is listed twice by the strict walk.
pub proof fn law_pages_distinct(doc: DocV, root: ObjectId)
    ensures
        pages_of_tree(doc, root) matches Ok(pages) ==> forall|i: int, j: int|
            0 <= i < j < pages.len() ==> #[trigger] pages[i] != #[trigger] pages[j],
{
    lemma_pages_below(doc, root, Set::empty(), 0, Seq::empty());
}

/// Every page that was found was seen, and no page was found twice.
pub open spec fn found_once(seen: Set<u64>, out: Seq<ObjectId>) -> bool {
    &&& forall|i: int| 0 <= i < out.len() ==> seen.contains(cache_key(#[trigger] out[i]))
    &&& forall|i: int, j: int| 0 <= i < j < out.len() ==> #[trigger] out[i] != #[trigger] out[j]
}

proof fn lemma_pages_below(
    doc: DocV,
    id: ObjectId,
    seen: Set<u64>,
    depth: int,
    out: Seq<ObjectId>,
)
    requires
        found_once(seen, out),
    ensures
        pages_below(doc, id, seen, depth, out) matches Ok((s, o)) ==> found_once(s, o),
    decreases MAX_PAGES_TREE_DEPTH + 1 - depth, 1int, 0int,
{
    if depth <= MAX_PAGES_TREE_DEPTH && !seen.contains(cache_key(id)) {
        match doc.resolve(id) {
            Ok(ObjV::Dict(d)) => match dict_get(d, "Kids"@) {
                Some(ObjV::Array(kids)) => {
                    lemma_pages_of_kids(doc, kids, 0, seen.insert(cache_key(id)), depth, out);
                },
                _ => {},
            },
            _ => {},
        }
    }
}

proof fn lemma_pages_of_kids(
    doc: DocV,
    kids: Seq<ObjV>,
    i: int,
    seen: Set<u64>,
    depth: int,
    out: Seq<ObjectId>,
)
    requires
        found_once(seen, out),
    ensures
        pages_of_kids(doc, kids, i, seen, depth, out) matches Ok((s, o)) ==> found_once(s, o),
    decreases MAX_PAGES_TREE_DEPTH + 1 - depth, 0int, kids.len() - i,
{
    if !(i < 0 || i >= kids.len() || depth > MAX_PAGES_TREE_DEPTH) {
        match kids[i] {
            ObjV::Reference(kid) => {
                lemma_pages_below(doc, kid, seen, depth + 1, out);
                match pages_below(doc, kid, seen, depth + 1, out) {
                    Ok((s, o)) => {
                        lemma_pages_of_kids(doc, kids, i + 1, s, depth, o);
                    },
                    _ => {},
                }
            },
            _ => {
                lemma_pages_of_kids(doc, kids, i + 1, seen, depth, out);
            },
        }
    }
}

/// A page that lists itself among its own descendants is an error: a node
/// that was seen is never entered again.
pub proof fn law_no_reentry(doc: DocV, id: ObjectId, seen: Set<u64>, depth: int, out: Seq<ObjectId>)
    requires
        seen.contains(cache_key(id)),
    ensures
        pages_below(doc, id, seen, depth, out) is Err,
{
}

/// An attribute that a page has itself is never looked for elsewhere.
pub proof fn law_own_attribute_first(doc: DocV, page: DictV, key: Seq<char>, v: ObjV)
    requires
        dict_get(page, key) == Some(v),
    ensures
        inheritable(doc, page, key) == Ok::<Option<ObjV>, Seq<char>>(Some(v)),
{
}

/// An attribute that a page lacks and its parent has is the parent's.
pub proof fn law_parent_attribute(
    doc: DocV,
    page: DictV,
    parent: ObjectId,
    node: DictV,
    key: Seq<char>,
    v: ObjV,
)
    requires
        dict_get(page, key) is None,
        dict_get(page, "Parent"@) == Some(ObjV::Reference(parent)),
        doc.resolve(parent) == Ok::<ObjV, Seq<char>>(ObjV::Dict(node)),
        dict_get(node, key) == Some(v),
    ensures
        inheritable(doc, page, key) == Ok::<Option<ObjV>, Seq<char>>(Some(v)),
{
}

} // verus!
