//! The outline: a document's tree of bookmarks.

use std::collections::{HashMap, HashSet};
use vstd::prelude::*;
use crate::describe::{cat_got, cat_object, got, obj_text, unexpected};
use crate::destination::{decode_dest_value, dest_value, is_target, opt_dest, DestV, NamedDests, NamesV, OutlineDestination, TargetV};
use crate::document::{DocV, DocumentReader};
use crate::encoding::opt_text;
use crate::error::PdfError;
use crate::named_dest::{all_names, named_dest_map};
use crate::objects::{dict_get, Dict, DictV, ObjV, Object, ObjectId};
use crate::pages::{build_page_index_map, dict_name, dict_ref, get_ref, is_named, page_index};
use crate::stream::{dict_integer, get_integer};
use crate::text::{cat, cat_id, decode_utf8_lossy, id_text, utf8_lossy};
use crate::textstring::{decode_opt_text, opt_info_text};

verus! {

broadcast use vstd::std_specs::hash::group_hash_axioms;

/// One bookmark and those below it.
#[derive(Debug)]
pub struct OutlineNode {
    /// Its title.
    pub title: String,
    /// The place that it leads to, if that could be made out.
    pub destination: Option<OutlineDestination>,
    /// Where it leads as text: `named:` and a name, `uri:` and an address, or
    /// an array that describes no place.
    pub raw_dest: Option<String>,
    /// `/Count`: above 0 for an open bookmark, below 0 for a closed one.
    pub count: Option<i64>,
    /// The bookmarks below it.
    pub children: Vec<OutlineNode>,
}

/// A bookmark as a mathematical value.
pub struct NodeV {
    pub title: Seq<char>,
    pub destination: Option<DestV>,
    pub raw_dest: Option<Seq<char>>,
    pub count: Option<i64>,
    pub children: Seq<NodeV>,
}

/// The value that a bookmark stands for.
pub open spec fn node_view(n: OutlineNode) -> NodeV
    decreases n,
{
    NodeV {
        title: n.title@,
        destination: opt_dest(n.destination),
        raw_dest: opt_text(n.raw_dest),
        count: n.count,
        children: Seq::new(
            n.children@.len(),
            |i: int|
                if 0 <= i < n.children@.len() {
                    node_view(n.children@[i])
                } else {
                    arbitrary()
                },
        ),
    }
}

impl View for OutlineNode {
    type V = NodeV;

    open spec fn view(&self) -> NodeV {
        node_view(*self)
    }
}

/// The values that bookmarks stand for.
pub open spec fn nodes_view(s: Seq<OutlineNode>) -> Seq<NodeV> {
    s.map_values(|n: OutlineNode| n@)
}

impl Clone for OutlineNode {
    fn clone(&self) -> (r: OutlineNode)
        ensures
            r@ == self@,
        decreases *self,
    {
        let mut children: Vec<OutlineNode> = Vec::new();
        let mut i: usize = 0;
        while i < self.children.len()
            invariant
                i <= self.children@.len(),
                children@.len() == i,
                forall|k: int| 0 <= k < i ==> (#[trigger] children@[k])@ == self.children@[k]@,
            decreases self.children.len() - i,
        {
            proof {
                assert(decreases_to!(self.children => self.children[i as int]));
            }
            children.push(self.children[i].clone());
            i = i + 1;
        }
        let destination: Option<OutlineDestination> = match &self.destination {
            Some(d) => Some(d.duplicate()),
            None => None,
        };
        let raw_dest: Option<String> = match &self.raw_dest {
            Some(t) => Some(t.clone()),
            None => None,
        };
        let r: OutlineNode = OutlineNode {
            title: self.title.clone(),
            destination,
            raw_dest,
            count: self.count,
            children,
        };
        proof {
            assert(r@.children =~= self@.children);
        }
        r
    }
}

/// A bookmark and all below it, counted.
pub open spec fn node_count(n: NodeV) -> nat
    decreases n, 0int,
{
    1 + nodes_count(n.children, n.children.len() as int)
}

/// The first `k` bookmarks and all below them, counted.
pub open spec fn nodes_count(s: Seq<NodeV>, k: int) -> nat
    decreases s, k,
{
    if k <= 0 || k > s.len() {
        0
    } else {
        nodes_count(s, k - 1) + node_count(s[k - 1])
    }
}

proof fn lemma_nodes_count_grows(s: Seq<NodeV>, j: int, k: int)
    requires
        0 <= j <= k <= s.len(),
    ensures
        nodes_count(s, j) <= nodes_count(s, k),
    decreases k - j,
{
    if j < k {
        lemma_nodes_count_grows(s, j, k - 1);
    }
}

/// A bookmark is open: by the sign of its count, or, without a count, when it
/// has nothing below it.
pub open spec fn node_open(n: NodeV) -> bool {
    match n.count {
        Some(c) => c > 0,
        None => n.children.len() == 0,
    }
}

impl OutlineNode {
    /// The bookmark and all below it, counted.
    pub fn descendant_count(&self) -> (r: usize)
        requires
            node_count(self@) <= usize::MAX,
        ensures
            r == node_count(self@),
        decreases *self,
    {
        let ghost kids = self@.children;
        let mut sum: usize = 1;
        let mut i: usize = 0;
        while i < self.children.len()
            invariant
                i <= self.children@.len(),
                kids == self@.children,
                kids.len() == self.children@.len(),
                sum == 1 + nodes_count(kids, i as int),
                node_count(self@) == 1 + nodes_count(kids, kids.len() as int),
                node_count(self@) <= usize::MAX,
            decreases self.children.len() - i,
        {
            proof {
                assert(kids[i as int] == self.children@[i as int]@);
                assert(decreases_to!(self.children => self.children[i as int]));
                lemma_nodes_count_grows(kids, i + 1, kids.len() as int);
            }
            sum = sum + self.children[i].descendant_count();
            i = i + 1;
        }
        sum
    }

    /// The bookmark is open.
    pub fn is_open(&self) -> (r: bool)
        ensures
            r == node_open(self@),
    {
        match self.count {
            Some(n) => n > 0,
            None => self.children.len() == 0,
        }
    }
}

/// The outline of a document.
#[derive(Debug)]
pub struct PdfOutline {
    /// The bookmarks at the top.
    pub roots: Vec<OutlineNode>,
    /// The outline's own `/Count`.
    pub count: Option<i64>,
}

/// The outline of a document as a mathematical value.
pub struct OutlineV {
    pub roots: Seq<NodeV>,
    pub count: Option<i64>,
}

impl View for PdfOutline {
    type V = OutlineV;

    open spec fn view(&self) -> OutlineV {
        OutlineV { roots: nodes_view(self.roots@), count: self.count }
    }
}

// ---------------------------------------------------------------- targets

/// The address that an action opens, as text.
pub open spec fn uri_text(action: DictV) -> Option<Seq<char>> {
    match dict_get(action, "URI"@) {
        Some(ObjV::LiteralString(b)) => Some(utf8_lossy(b)),
        Some(ObjV::HexString(b)) => Some(utf8_lossy(b)),
        _ => None,
    }
}

/// The address that an action opens.
pub(crate) fn action_uri(action: &Dict) -> (r: Option<String>)
    ensures
        opt_text(r) == uri_text(action@),
{
    match action.get("URI") {
        Some(Object::LiteralString(b)) => Some(decode_utf8_lossy(b.as_slice())),
        Some(Object::HexString(b)) => Some(decode_utf8_lossy(b.as_slice())),
        _ => None,
    }
}

/// Where a bookmark leads: its `/Dest`, or else what its action does.
pub open spec fn item_target(doc: DocV, item: DictV, pages: Map<u32, usize>, names: NamesV) -> Result<
    TargetV,
    Seq<char>,
> {
    match dict_get(item, "Dest"@) {
        Some(o) => Ok(dest_value(doc, o, pages, Some(names))),
        None => match dict_get(item, "A"@) {
            None => Ok((None, None)),
            Some(a) => match doc.deref(a) {
                Err(e) => Err(e),
                Ok(ObjV::Dict(action)) => if dict_name(action, "S"@) == Some("GoTo"@) {
                    match dict_get(action, "D"@) {
                        Some(d) => Ok(dest_value(doc, d, pages, Some(names))),
                        None => Ok((None, None)),
                    }
                } else if dict_name(action, "S"@) == Some("URI"@) {
                    match uri_text(action) {
                        Some(t) => Ok((None, Some("uri:"@ + t))),
                        None => Ok((None, None)),
                    }
                } else {
                    Ok((None, None))
                },
                Ok(_) => Ok((None, None)),
            },
        },
    }
}

fn decode_dest_or_action(
    reader: &mut DocumentReader,
    item: &Dict,
    pages: &HashMap<u32, usize>,
    names: &NamedDests,
) -> (r: Result<(Option<OutlineDestination>, Option<String>), PdfError>)
    requires
        old(reader).wf(),
    ensures
        final(reader).wf(),
        final(reader).doc() == old(reader).doc(),
        match r {
            Ok(t) => item_target(old(reader).doc(), item@, pages@, names@) matches Ok(w)
                && is_target(t, w),
            Err(e) => item_target(old(reader).doc(), item@, pages@, names@) == Err::<
                TargetV,
                Seq<char>,
            >(e@),
        },
{
    if let Some(o) = item.get("Dest") {
        return Ok(decode_dest_value(reader, o.clone(), pages, Some(names)));
    }
    let action: Object = match item.get("A") {
        Some(a) => a.clone(),
        None => {
            return Ok((None, None));
        },
    };
    let action: Dict = match reader.deref(action) {
        Err(e) => {
            return Err(e);
        },
        Ok(Object::Dict(d)) => d,
        Ok(_) => {
            return Ok((None, None));
        },
    };
    if is_named(&action, "S", "GoTo") {
        return match action.get("D") {
            Some(d) => Ok(decode_dest_value(reader, d.clone(), pages, Some(names))),
            None => Ok((None, None)),
        };
    }
    if is_named(&action, "S", "URI") {
        return match action_uri(&action) {
            Some(t) => Ok((None, Some(cat("uri:".to_owned(), t.as_str())))),
            None => Ok((None, None)),
        };
    }
    Ok((None, None))
}

// ----------------------------------------------------------------- levels

/// No level is followed beyond this many bookmarks.
pub const MAX_LEVEL_ITEMS: usize = 10_000;

/// The bookmark that an item of the outline describes.
pub open spec fn item_node(
    item: DictV,
    destination: Option<DestV>,
    raw_dest: Option<Seq<char>>,
    children: Seq<NodeV>,
) -> NodeV {
    NodeV {
        title: match opt_info_text(dict_get(item, "Title"@)) {
            Some(t) => t,
            None => Seq::empty(),
        },
        destination,
        raw_dest,
        count: dict_integer(item, "Count"@),
        children,
    }
}

/// The bookmarks below an item of the outline; `path` leads to the item, and
/// ends with it.
pub open spec fn item_children(
    doc: DocV,
    item: DictV,
    path: Seq<u32>,
    fuel: int,
    pages: Map<u32, usize>,
    names: NamesV,
) -> Result<Seq<NodeV>, Seq<char>>
    decreases fuel, 0int, 0int,
{
    match dict_ref(item, "First"@) {
        None => Ok(Seq::empty()),
        Some(first) => if fuel <= 0 {
            Ok(Seq::empty())
        } else {
            level_from(doc, Some(first), path, Set::empty(), Seq::empty(), fuel - 1, pages, names)
        },
    }
}

/// The bookmarks of a level from `cur` on, behind the bookmarks `out`. The
/// level ends at a bookmark that was seen on it before or that it lies below,
/// or where it is too long; `fuel` levels may lie below it.
pub open spec fn level_from(
    doc: DocV,
    cur: Option<ObjectId>,
    path: Seq<u32>,
    seen: Set<u32>,
    out: Seq<NodeV>,
    fuel: int,
    pages: Map<u32, usize>,
    names: NamesV,
) -> Result<Seq<NodeV>, Seq<char>>
    decreases fuel, 1int, MAX_LEVEL_ITEMS + 1 - out.len(),
{
    match cur {
        None => Ok(out),
        Some(id) => if seen.contains(id.number) || path.contains(id.number) || out.len()
            > MAX_LEVEL_ITEMS {
            Ok(out)
        } else {
            match doc.resolve(id) {
                Err(e) => Err(e),
                Ok(ObjV::Dict(item)) => match item_target(doc, item, pages, names) {
                    Err(e) => Err(e),
                    Ok((destination, raw_dest)) => match item_children(
                        doc,
                        item,
                        path.push(id.number),
                        fuel,
                        pages,
                        names,
                    ) {
                        Err(e) => Err(e),
                        Ok(children) => level_from(
                            doc,
                            dict_ref(item, "Next"@),
                            path,
                            seen.insert(id.number),
                            out.push(item_node(item, destination, raw_dest, children)),
                            fuel,
                            pages,
                            names,
                        ),
                    },
                },
                Ok(o) => Err(
                    "PDF outline reader: outline item "@ + id_text(id) + " is not a dict"@ + got(o),
                ),
            }
        },
    }
}

/// The bookmarks of the level that begins with `first`, below those of `path`.
pub open spec fn level(
    doc: DocV,
    first: ObjectId,
    path: Seq<u32>,
    fuel: int,
    pages: Map<u32, usize>,
    names: NamesV,
) -> Result<Seq<NodeV>, Seq<char>> {
    level_from(doc, Some(first), path, Set::empty(), Seq::empty(), fuel, pages, names)
}

/// `r` holds the bookmarks that `w` says.
pub open spec fn nodes_agree(
    r: Result<Vec<OutlineNode>, PdfError>,
    w: Result<Seq<NodeV>, Seq<char>>,
) -> bool {
    match r {
        Ok(v) => w == Ok::<Seq<NodeV>, Seq<char>>(nodes_view(v@)),
        Err(e) => w == Err::<Seq<NodeV>, Seq<char>>(e@),
    }
}

fn on_path(path: &Vec<u32>, number: u32) -> (r: bool)
    ensures
        r == path@.contains(number),
{
    let mut i: usize = 0;
    while i < path.len()
        invariant
            i <= path@.len(),
            forall|k: int| 0 <= k < i ==> path@[k] != number,
        decreases path.len() - i,
    {
        if path[i] == number {
            proof {
                assert(path@[i as int] == number);
            }
            return true;
        }
        i = i + 1;
    }
    false
}

/// Read one level of the outline and all below it.
fn walk_level(
    reader: &mut DocumentReader,
    first: ObjectId,
    path: &mut Vec<u32>,
    fuel: usize,
    pages: &HashMap<u32, usize>,
    names: &NamedDests,
) -> (r: Result<Vec<OutlineNode>, PdfError>)
    requires
        old(reader).wf(),
    ensures
        final(reader).wf(),
        final(reader).doc() == old(reader).doc(),
        r is Ok ==> final(path)@ == old(path)@,
        nodes_agree(
            r,
            level(old(reader).doc(), first, old(path)@, fuel as int, pages@, names@),
        ),
    decreases fuel,
{
    let ghost doc = reader.doc();
    let ghost above = path@;
    let ghost goal = level(doc, first, above, fuel as int, pages@, names@);
    let mut out: Vec<OutlineNode> = Vec::new();
    let mut seen: HashSet<u32> = HashSet::new();
    let mut cur: Option<ObjectId> = Some(first);
    proof {
        assert(nodes_view(out@) =~= Seq::empty());
    }
    loop
        invariant
            reader.wf(),
            reader.doc() == doc,
            doc == old(reader).doc(),
            out@.len() <= MAX_LEVEL_ITEMS + 1,
            path@ == above,
            above == old(path)@,
            goal == level(doc, first, above, fuel as int, pages@, names@),
            goal == level_from(
                doc,
                cur,
                above,
                seen@,
                nodes_view(out@),
                fuel as int,
                pages@,
                names@,
            ),
        decreases MAX_LEVEL_ITEMS + 1 - out@.len(),
    {
        let id: ObjectId = match cur {
            Some(id) => id,
            None => {
                return Ok(out);
            },
        };
        if seen.contains(&id.number) || on_path(path, id.number) || out.len() > MAX_LEVEL_ITEMS {
            return Ok(out);
        }
        seen.insert(id.number);
        let item: Dict = match reader.resolve(id) {
            Err(e) => {
                return Err(e);
            },
            Ok(Object::Dict(d)) => d,
            Ok(o) => {
                let m: String = cat_id("PDF outline reader: outline item ".to_owned(), id);
                return Err(PdfError::Other(cat_got(cat(m, " is not a dict"), &o)));
            },
        };
        let title: String = match decode_opt_text(item.get("Title")) {
            Some(t) => t,
            None => String::new(),
        };
        let (destination, raw_dest) = match decode_dest_or_action(reader, &item, pages, names) {
            Ok(t) => t,
            Err(e) => {
                return Err(e);
            },
        };
        let count: Option<i64> = get_integer(&item, "Count");
        let ghost inner = above.push(id.number);
        let ghost below = item_children(doc, item@, inner, fuel as int, pages@, names@);
        proof {
            assert(below == match dict_ref(item@, "First"@) {
                None => Ok::<Seq<NodeV>, Seq<char>>(Seq::empty()),
                Some(f) => if fuel == 0 {
                    Ok(Seq::empty())
                } else {
                    level(doc, f, inner, fuel - 1, pages@, names@)
                },
            });
        }
        let mut children: Vec<OutlineNode> = Vec::new();
        proof {
            assert(nodes_view(children@) =~= Seq::empty());
        }
        if let Some(child) = get_ref(&item, "First") {
            if fuel > 0 {
                path.push(id.number);
                match walk_level(reader, child, path, fuel - 1, pages, names) {
                    Ok(v) => {
                        children = v;
                    },
                    Err(e) => {
                        return Err(e);
                    },
                }
                path.pop();
                proof {
                    assert(inner.drop_last() =~= above);
                }
            }
        }
        let ghost before = nodes_view(out@);
        let node: OutlineNode = OutlineNode { title, destination, raw_dest, count, children };
        proof {
            assert(node@.children =~= nodes_view(children@));
            assert(node@ == item_node(
                item@,
                opt_dest(destination),
                opt_text(raw_dest),
                nodes_view(children@),
            ));
        }
        let ghost v = node@;
        out.push(node);
        proof {
            assert(nodes_view(out@) =~= before.push(v));
        }
        cur = get_ref(&item, "Next");
    }
}

/// The outline of a document; `None` where it has none.
pub open spec fn document_outline(doc: DocV) -> Result<Option<OutlineV>, Seq<char>> {
    match page_index(doc) {
        Err(e) => Err(e),
        Ok(pages) => match all_names(doc, pages) {
            Err(e) => Err(e),
            Ok(names) => match doc.catalog() {
                Err(e) => Err(e),
                Ok(ObjV::Dict(catalog)) => match dict_get(catalog, "Outlines"@) {
                    None => Ok(None),
                    Some(ObjV::Reference(id)) => match doc.resolve(id) {
                        Err(e) => Err(e),
                        Ok(ObjV::Dict(root)) => match dict_ref(root, "First"@) {
                            None => Ok(
                                Some(
                                    OutlineV {
                                        roots: Seq::empty(),
                                        count: dict_integer(root, "Count"@),
                                    },
                                ),
                            ),
                            Some(first) => match level(
                                doc,
                                first,
                                Seq::empty(),
                                doc.longest_chain(),
                                pages,
                                names,
                            ) {
                                Err(e) => Err(e),
                                Ok(roots) => Ok(
                                    Some(
                                        OutlineV { roots, count: dict_integer(root, "Count"@) },
                                    ),
                                ),
                            },
                        },
                        Ok(o) => Err(
                            "PDF outline reader: outline root resolves to non-dict ("@ + obj_text(o)
                                + ")"@,
                        ),
                    },
                    Some(_) => Err(
                        "PDF outline reader: /Outlines must be an indirect reference"@,
                    ),
                },
                Ok(o) => Err("PDF outline reader: /Root must be a dict"@ + got(o)),
            },
        },
    }
}

/// The outline of a document; `None` where it has none.
pub fn outline(reader: &mut DocumentReader) -> (r: Result<Option<PdfOutline>, PdfError>)
    requires
        old(reader).wf(),
    ensures
        final(reader).wf(),
        final(reader).doc() == old(reader).doc(),
        match r {
            Ok(Some(o)) => document_outline(old(reader).doc()) == Ok::<
                Option<OutlineV>,
                Seq<char>,
            >(Some(o@)),
            Ok(None) => document_outline(old(reader).doc()) == Ok::<Option<OutlineV>, Seq<char>>(
                None,
            ),
            Err(e) => document_outline(old(reader).doc()) == Err::<Option<OutlineV>, Seq<char>>(
                e@,
            ),
        },
{
    let pages: HashMap<u32, usize> = match build_page_index_map(reader) {
        Ok(m) => m,
        Err(e) => {
            return Err(e);
        },
    };
    let names: NamedDests = match named_dest_map(reader, &pages) {
        Ok(n) => n,
        Err(e) => {
            return Err(e);
        },
    };
    let catalog: Dict = match reader.catalog() {
        Err(e) => {
            return Err(e);
        },
        Ok(Object::Dict(d)) => d,
        Ok(o) => {
            return Err(unexpected("PDF outline reader: /Root must be a dict", &o));
        },
    };
    let root_id: ObjectId = match catalog.get("Outlines") {
        None => {
            return Ok(None);
        },
        Some(Object::Reference(id)) => *id,
        Some(_) => {
            return Err(
                PdfError::other("PDF outline reader: /Outlines must be an indirect reference"),
            );
        },
    };
    let root: Dict = match reader.resolve(root_id) {
        Err(e) => {
            return Err(e);
        },
        Ok(Object::Dict(d)) => d,
        Ok(o) => {
            let m: String = "PDF outline reader: outline root resolves to non-dict (".to_owned();
            return Err(PdfError::Other(cat(cat_object(m, &o), ")")));
        },
    };
    let count: Option<i64> = get_integer(&root, "Count");
    let roots: Vec<OutlineNode> = match get_ref(&root, "First") {
        None => {
            let roots: Vec<OutlineNode> = Vec::new();
            proof {
                assert(nodes_view(roots@) =~= Seq::empty());
            }
            roots
        },
        Some(first) => {
            let fuel: usize = reader.chain_limit();
            let mut path: Vec<u32> = Vec::new();
            proof {
                assert(path@ =~= Seq::empty());
            }
            match walk_level(reader, first, &mut path, fuel, &pages, &names) {
                Ok(v) => v,
                Err(e) => {
                    return Err(e);
                },
            }
        },
    };
    Ok(Some(PdfOutline { roots, count }))
}

// ------------------------------------------------------------------- laws

/// No level holds more bookmarks than the cap allows.
pub proof fn law_level_capped(
    doc: DocV,
    first: ObjectId,
    path: Seq<u32>,
    fuel: int,
    pages: Map<u32, usize>,
    names: NamesV,
)
    ensures
        within_cap(level(doc, first, path, fuel, pages, names)),
{
    lemma_level_capped(doc, Some(first), path, Set::empty(), Seq::empty(), fuel, pages, names);
}

/// A level holds no more bookmarks than the cap allows.
pub open spec fn within_cap(r: Result<Seq<NodeV>, Seq<char>>) -> bool {
    r matches Ok(s) ==> s.len() <= MAX_LEVEL_ITEMS + 1
}

proof fn lemma_level_capped(
    doc: DocV,
    cur: Option<ObjectId>,
    path: Seq<u32>,
    seen: Set<u32>,
    out: Seq<NodeV>,
    fuel: int,
    pages: Map<u32, usize>,
    names: NamesV,
)
    requires
        out.len() <= MAX_LEVEL_ITEMS + 1,
    ensures
        within_cap(level_from(doc, cur, path, seen, out, fuel, pages, names)),
    decreases MAX_LEVEL_ITEMS + 1 - out.len(),
{
    match cur {
        Some(id) => {
            if !seen.contains(id.number) && !path.contains(id.number) && out.len()
                <= MAX_LEVEL_ITEMS {
                match doc.resolve(id) {
                    Ok(ObjV::Dict(item)) => {
                        match item_target(doc, item, pages, names) {
                            Ok((destination, raw_dest)) => {
                                let below = item_children(
                                    doc,
                                    item,
                                    path.push(id.number),
                                    fuel,
                                    pages,
                                    names,
                                );
                                if below is Ok {
                                    lemma_level_capped(
                                        doc,
                                        dict_ref(item, "Next"@),
                                        path,
                                        seen.insert(id.number),
                                        out.push(
                                            item_node(item, destination, raw_dest, below->Ok_0),
                                        ),
                                        fuel,
                                        pages,
                                        names,
                                    );
                                }
                            },
                            _ => {},
                        }
                    },
                    _ => {},
                }
            }
        },
        None => {},
    }
}

/// A level ends where it comes to a bookmark that it lies below.
pub proof fn law_no_bookmark_below_itself(
    doc: DocV,
    id: ObjectId,
    path: Seq<u32>,
    seen: Set<u32>,
    out: Seq<NodeV>,
    fuel: int,
    pages: Map<u32, usize>,
    names: NamesV,
)
    requires
        path.contains(id.number),
    ensures
        level_from(doc, Some(id), path, seen, out, fuel, pages, names) == Ok::<
            Seq<NodeV>,
            Seq<char>,
        >(out),
{
}

} // verus!
