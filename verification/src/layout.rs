//! Text in the order in which it is meant to be read, as the structure tree of a
//! document gives it.

use std::collections::{HashMap, HashSet};
use vstd::prelude::*;
use crate::destination::clone_number;
use crate::document::{cache_key, DocV, DocumentReader};
use crate::error::PdfError;
use crate::number::{NumV, Number};
use crate::objects::{
    dict_get, key_pos, lemma_array_view, lemma_key_pos, objs_view, Dict, DictV, ObjV, Object,
    ObjectId,
};
use crate::pages::{dict_name, dict_ref, get_ref, is_named};
use crate::stream::{dict_integer, get_integer};

verus! {

broadcast use vstd::std_specs::hash::group_hash_axioms;

// -------------------------------------------------------------------- values

/// How text is painted.
#[derive(Debug, Clone, Copy, PartialEq, Eq, Structural)]
pub enum TextRenderMode {
    Fill,
    Stroke,
    FillStroke,
    Invisible,
    FillClip,
    StrokeClip,
    FillStrokeClip,
    Clip,
}

/// A piece of text in one font.
#[derive(Debug, PartialEq)]
pub struct TextRun {
    pub text: String,
    /// Where it begins.
    pub position: (Number, Number),
    pub font_name: String,
    pub font_size: Number,
    pub render_mode: TextRenderMode,
    pub text_rise: Number,
}

/// The same as a mathematical value.
pub struct RunV {
    pub text: Seq<char>,
    pub position: (NumV, NumV),
    pub font_name: Seq<char>,
    pub font_size: NumV,
    pub render_mode: TextRenderMode,
    pub text_rise: NumV,
}

impl View for TextRun {
    type V = RunV;

    open spec fn view(&self) -> RunV {
        RunV {
            text: self.text@,
            position: (self.position.0@, self.position.1@),
            font_name: self.font_name@,
            font_size: self.font_size@,
            render_mode: self.render_mode,
            text_rise: self.text_rise@,
        }
    }
}

impl Clone for TextRun {
    fn clone(&self) -> (r: TextRun)
        ensures
            r@ == self@,
    {
        TextRun {
            text: self.text.clone(),
            position: (clone_number(&self.position.0), clone_number(&self.position.1)),
            font_name: self.font_name.clone(),
            font_size: clone_number(&self.font_size),
            render_mode: self.render_mode,
            text_rise: clone_number(&self.text_rise),
        }
    }
}

/// Pieces of text as mathematical values.
pub open spec fn runs_view(s: Seq<TextRun>) -> Seq<RunV> {
    s.map_values(|r: TextRun| r@)
}

/// A piece of text, the page on which it stands, and the number of the marked
/// content that it belongs to.
#[derive(Debug, Clone, PartialEq)]
pub struct MarkedTextRun {
    pub run: TextRun,
    pub page_obj_num: u32,
    pub mcid: Option<u32>,
}

/// The same as a mathematical value.
pub struct MarkedV {
    pub run: RunV,
    pub page_obj_num: u32,
    pub mcid: Option<u32>,
}

impl View for MarkedTextRun {
    type V = MarkedV;

    open spec fn view(&self) -> MarkedV {
        MarkedV { run: self.run@, page_obj_num: self.page_obj_num, mcid: self.mcid }
    }
}

/// Marked pieces of text as mathematical values.
pub open spec fn marked_view(s: Seq<MarkedTextRun>) -> Seq<MarkedV> {
    s.map_values(|r: MarkedTextRun| r@)
}

/// Where an order of text comes from.
#[derive(Debug, Clone, Copy, PartialEq, Eq, Structural)]
pub enum LayoutMode {
    /// From the structure tree.
    Tagged,
    /// From the content of the pages.
    Raster,
}

/// Text in the order in which it is meant to be read.
#[derive(Debug, Clone, PartialEq)]
pub struct ReadingOrderText {
    pub mode: LayoutMode,
    pub runs: Vec<TextRun>,
}

/// The same as a mathematical value.
pub struct OrderedV {
    pub mode: LayoutMode,
    pub runs: Seq<RunV>,
}

impl View for ReadingOrderText {
    type V = OrderedV;

    open spec fn view(&self) -> OrderedV {
        OrderedV { mode: self.mode, runs: runs_view(self.runs@) }
    }
}

/// The first `n` pieces of text with a space between each two.
pub open spec fn flat(runs: Seq<RunV>, n: int) -> Seq<char>
    decreases n,
{
    if n <= 0 || n > runs.len() {
        Seq::empty()
    } else if n == 1 {
        runs[0].text
    } else {
        flat(runs, n - 1) + seq![' '] + runs[n - 1].text
    }
}

impl ReadingOrderText {
    /// All text, with a space between each two pieces.
    pub fn flat_text(&self) -> (r: String)
        ensures
            r@ == flat(self@.runs, self@.runs.len() as int),
    {
        let ghost view = self@.runs;
        let mut out: String = String::new();
        let mut i: usize = 0;
        proof {
            assert(out@ =~= Seq::empty());
        }
        while i < self.runs.len()
            invariant
                i <= self.runs@.len(),
                view == runs_view(self.runs@),
                out@ == flat(view, i as int),
            decreases self.runs.len() - i,
        {
            let ghost before = out@;
            if i > 0 {
                out.push(' ');
            }
            let run: &TextRun = &self.runs[i];
            out = crate::text::cat(out, run.text.as_str());
            proof {
                assert(view[i as int] == run@);
                if i > 0 {
                    assert(before.push(' ') =~= before + seq![' ']);
                } else {
                    assert(out@ =~= run.text@);
                }
            }
            i = i + 1;
        }
        out
    }
}

// -------------------------------------------------------------------- index

/// A page and the number of a marked content on it, as one number.
pub open spec fn mark_key(page: u32, mcid: u32) -> u64 {
    (page * 0x1_0000_0000 + mcid) as u64
}

/// The page and the marked content that a piece of text belongs to.
pub open spec fn run_key(m: MarkedV) -> Option<u64> {
    match m.mcid {
        Some(c) => Some(mark_key(m.page_obj_num, c)),
        None => None,
    }
}

/// The places of the pieces among the first `n` that belong to a marked content.
pub open spec fn places(marked: Seq<MarkedV>, n: int, key: u64) -> Seq<int>
    decreases n,
{
    if n <= 0 || n > marked.len() {
        Seq::empty()
    } else if run_key(marked[n - 1]) == Some(key) {
        places(marked, n - 1, key).push(n - 1)
    } else {
        places(marked, n - 1, key)
    }
}

/// The pieces of text that belong to a marked content, in order.
pub open spec fn bucket(marked: Seq<MarkedV>, key: u64) -> Seq<RunV> {
    places(marked, marked.len() as int, key).map_values(|i: int| marked[i].run)
}

/// Some piece of text belongs to a marked content.
pub open spec fn any_marked(marked: Seq<MarkedV>) -> bool {
    exists|i: int| 0 <= i < marked.len() && (#[trigger] marked[i]).mcid is Some
}

struct RunIndex {
    map: HashMap<u64, Vec<usize>>,
}

impl RunIndex {
    spec fn at(&self, key: u64) -> Seq<int> {
        if self.map@.contains_key(key) {
            self.map@[key]@.map_values(|i: usize| i as int)
        } else {
            Seq::empty()
        }
    }

    /// Each marked content is found with the places of its pieces among the
    /// first `n`.
    spec fn covers(&self, marked: Seq<MarkedV>, n: int) -> bool {
        forall|key: u64| #[trigger] self.at(key) == places(marked, n, key)
    }

    fn build(marked: &Vec<MarkedTextRun>) -> (r: (RunIndex, bool))
        ensures
            r.0.covers(marked_view(marked@), marked@.len() as int),
            r.1 == any_marked(marked_view(marked@)),
    {
        let ghost view = marked_view(marked@);
        let mut index: RunIndex = RunIndex { map: HashMap::new() };
        let mut any: bool = false;
        let mut i: usize = 0;
        while i < marked.len()
            invariant
                i <= marked@.len(),
                view == marked_view(marked@),
                index.covers(view, i as int),
                any == exists|k: int| 0 <= k < i && (#[trigger] view[k]).mcid is Some,
            decreases marked.len() - i,
        {
            proof {
                assert(view[i as int] == marked@[i as int]@);
            }
            if let Some(mcid) = marked[i].mcid {
                let key: u64 = marked[i].page_obj_num as u64 * 0x1_0000_0000 + mcid as u64;
                let ghost before = index;
                let mut list: Vec<usize> = match index.map.remove(&key) {
                    Some(v) => v,
                    None => Vec::new(),
                };
                let ghost was = before.at(key);
                proof {
                    assert(list@.map_values(|k: usize| k as int) =~= was);
                }
                list.push(i);
                proof {
                    assert(list@.map_values(|k: usize| k as int) =~= was.push(i as int));
                }
                index.map.insert(key, list);
                any = true;
                proof {
                    assert forall|other: u64| #[trigger] index.at(other) == places(
                        view,
                        i + 1,
                        other,
                    ) by {
                        assert(before.at(other) == places(view, i as int, other));
                        if other != key {
                            assert(index.map@.contains_key(other) == before.map@.contains_key(
                                other,
                            ));
                        }
                    }
                    assert(view[i as int].mcid is Some);
                }
            } else {
                proof {
                    assert forall|other: u64| #[trigger] index.at(other) == places(
                        view,
                        i + 1,
                        other,
                    ) by {
                        assert(index.at(other) == places(view, i as int, other));
                    }
                }
            }
            i = i + 1;
        }
        (index, any)
    }
}

/// Places lie among the pieces that they were looked for in.
proof fn lemma_places(marked: Seq<MarkedV>, n: int, key: u64)
    requires
        n <= marked.len(),
    ensures
        forall|k: int|
            0 <= k < places(marked, n, key).len() ==> 0 <= #[trigger] places(marked, n, key)[k] < n,
    decreases n,
{
    if n > 0 {
        lemma_places(marked, n - 1, key);
        let before = places(marked, n - 1, key);
        let all = places(marked, n, key);
        assert forall|k: int| 0 <= k < all.len() implies 0 <= #[trigger] all[k] < n by {
            if k < before.len() {
                assert(all[k] == before[k]);
            }
        }
    }
}

/// Append the pieces of text of a marked content.
fn append_bucket(
    out: &mut Vec<TextRun>,
    marked: &Vec<MarkedTextRun>,
    index: &RunIndex,
    page: u32,
    mcid: u32,
)
    requires
        index.covers(marked_view(marked@), marked@.len() as int),
    ensures
        runs_view(final(out)@) == runs_view(old(out)@) + bucket(
            marked_view(marked@),
            mark_key(page, mcid),
        ),
{
    let ghost view = marked_view(marked@);
    let ghost start = runs_view(out@);
    let key: u64 = page as u64 * 0x1_0000_0000 + mcid as u64;
    let ghost all = places(view, view.len() as int, key);
    let ghost goal = bucket(view, key);
    proof {
        assert(key == mark_key(page, mcid));
        assert(index.at(key) == all);
        lemma_places(view, view.len() as int, key);
    }
    match index.map.get(&key) {
        None => {
            proof {
                assert(start + goal =~= start);
            }
        },
        Some(list) => {
            proof {
                assert(start + goal.take(0) =~= start);
                assert(list@.len() == all.len());
            }
            let mut i: usize = 0;
            while i < list.len()
                invariant
                    i <= list@.len(),
                    view == marked_view(marked@),
                    all == places(view, view.len() as int, key),
                    goal == bucket(view, key),
                    list@.map_values(|k: usize| k as int) == all,
                    forall|k: int| 0 <= k < all.len() ==> 0 <= #[trigger] all[k] < view.len(),
                    runs_view(out@) == start + goal.take(i as int),
                decreases list.len() - i,
            {
                let ghost before = runs_view(out@);
                proof {
                    assert(list@.map_values(|k: usize| k as int)[i as int] == list@[i as int]);
                    assert(all[i as int] == list@[i as int]);
                }
                let at: usize = list[i];
                let run: TextRun = marked[at].run.clone();
                let ghost v = run@;
                out.push(run);
                proof {
                    assert(view[at as int] == marked@[at as int]@);
                    assert(goal[i as int] == v);
                    assert(runs_view(out@) =~= before.push(v));
                    assert(goal.take(i + 1) =~= goal.take(i as int).push(v));
                    assert(start + goal.take(i + 1) =~= (start + goal.take(i as int)).push(v));
                }
                i = i + 1;
            }
            proof {
                assert(goal.take(goal.len() as int) =~= goal);
            }
        },
    }
}

// --------------------------------------------------------------------- walk

/// How deep the elements of a structure tree may be nested.
pub const MAX_STRUCT_DEPTH: u32 = 64;

/// What a walk through a structure tree has come to: the objects that were
/// visited, and the text.
pub struct TreeV {
    pub visited: Set<u64>,
    pub out: Seq<RunV>,
}

/// What a walk comes to, or the description of an error.
pub type WalkedV = Result<TreeV, Seq<char>>;

/// With the text of a marked content, if page and number are known.
pub open spec fn with_bucket(
    t: TreeV,
    marked: Seq<MarkedV>,
    page: Option<u32>,
    mcid: Option<i64>,
) -> TreeV {
    match (page, mcid) {
        (Some(page), Some(n)) => if 0 <= n <= u32::MAX {
            TreeV { out: t.out + bucket(marked, mark_key(page, n as u32)), ..t }
        } else {
            t
        },
        _ => t,
    }
}

/// The page of an element: its own, or that of the element around it.
pub open spec fn element_page(d: DictV, page: Option<u32>) -> Option<u32> {
    match dict_ref(d, "Pg"@) {
        Some(id) => Some(id.number),
        None => page,
    }
}

/// The walk through a kid of an element: the number of a marked content, a list
/// of kids, a reference to a kid, or a dictionary.
pub open spec fn kid_walked(
    doc: DocV,
    marked: Seq<MarkedV>,
    o: ObjV,
    page: Option<u32>,
    depth: int,
    fuel: int,
    t: TreeV,
) -> WalkedV
    decreases fuel, o, 1int,
{
    match o {
        ObjV::Integer(n) => Ok(with_bucket(t, marked, page, Some(n))),
        ObjV::Array(items) => kids_walked(doc, marked, items, items.len() as int, page, depth, fuel, t),
        ObjV::Reference(id) => if t.visited.contains(cache_key(id)) || fuel <= 0 {
            Ok(t)
        } else {
            match doc.resolve(id) {
                Err(e) => Err(e),
                Ok(v) => kid_walked(
                    doc,
                    marked,
                    v,
                    page,
                    depth,
                    fuel - 1,
                    TreeV { visited: t.visited.insert(cache_key(id)), ..t },
                ),
            }
        },
        ObjV::Dict(d) => if dict_name(d, "Type"@) == Some("MCR"@) {
            Ok(with_bucket(t, marked, element_page(d, page), dict_integer(d, "MCID"@)))
        } else if dict_name(d, "Type"@) == Some("OBJR"@) {
            Ok(t)
        } else {
            element_walked(doc, marked, d, page, depth, fuel, t)
        },
        _ => Ok(t),
    }
}

/// The walk through the first `n` kids of a list.
pub open spec fn kids_walked(
    doc: DocV,
    marked: Seq<MarkedV>,
    items: Seq<ObjV>,
    n: int,
    page: Option<u32>,
    depth: int,
    fuel: int,
    t: TreeV,
) -> WalkedV
    decreases fuel, items, n,
{
    if n <= 0 || n > items.len() {
        Ok(t)
    } else {
        match kids_walked(doc, marked, items, n - 1, page, depth, fuel, t) {
            Err(e) => Err(e),
            Ok(next) => kid_walked(doc, marked, items[n - 1], page, depth, fuel, next),
        }
    }
}

/// The walk through an element and what it holds.
pub open spec fn element_walked(
    doc: DocV,
    marked: Seq<MarkedV>,
    d: DictV,
    page: Option<u32>,
    depth: int,
    fuel: int,
    t: TreeV,
) -> WalkedV
    decreases fuel, d, 0int,
    via element_walked_decreases
{
    if depth > MAX_STRUCT_DEPTH {
        Ok(t)
    } else {
        match dict_get(d, "K"@) {
            None => Ok(t),
            Some(k) => kid_walked(doc, marked, k, element_page(d, page), depth + 1, fuel, t),
        }
    }
}

/// What is in a dictionary is smaller than the dictionary.
proof fn lemma_value_smaller(d: DictV, key: Seq<char>, e: ObjV)
    requires
        dict_get(d, key) == Some(e),
    ensures
        decreases_to!(d => e),
{
    lemma_key_pos(d, key, 0);
    let p = key_pos(d, key, 0);
    assert(e == d[p].1);
    assert(decreases_to!(d => d[p]));
}

#[via_fn]
proof fn element_walked_decreases(
    doc: DocV,
    marked: Seq<MarkedV>,
    d: DictV,
    page: Option<u32>,
    depth: int,
    fuel: int,
    t: TreeV,
) {
    if let Some(k) = dict_get(d, "K"@) {
        lemma_value_smaller(d, "K"@, k);
    }
}

proof fn lemma_kids_error(
    doc: DocV,
    marked: Seq<MarkedV>,
    items: Seq<ObjV>,
    n: int,
    m: int,
    page: Option<u32>,
    depth: int,
    fuel: int,
    t: TreeV,
)
    requires
        0 <= n <= m <= items.len(),
        kids_walked(doc, marked, items, n, page, depth, fuel, t) is Err,
    ensures
        kids_walked(doc, marked, items, m, page, depth, fuel, t) == kids_walked(
            doc,
            marked,
            items,
            n,
            page,
            depth,
            fuel,
            t,
        ),
    decreases m - n,
{
    if n < m {
        lemma_kids_error(doc, marked, items, n, m - 1, page, depth, fuel, t);
    }
}

struct StructWalk<'m> {
    marked: &'m Vec<MarkedTextRun>,
    index: RunIndex,
    visited: HashSet<u64>,
    out: Vec<TextRun>,
}

impl<'m> StructWalk<'m> {
    spec fn wf(&self) -> bool {
        self.index.covers(marked_view(self.marked@), self.marked@.len() as int)
    }

    spec fn state(&self) -> TreeV {
        TreeV { visited: self.visited@, out: runs_view(self.out@) }
    }

    /// The walk has gone on from `before` as `w` says.
    spec fn went(&self, r: Result<(), PdfError>, before: &StructWalk<'m>, w: WalkedV) -> bool {
        &&& self.wf()
        &&& self.marked == before.marked
        &&& match r {
            Ok(_) => w == Ok::<TreeV, Seq<char>>(self.state()),
            Err(e) => w == Err::<TreeV, Seq<char>>(e@),
        }
    }

    fn add_bucket(&mut self, page: Option<u32>, mcid: Option<i64>)
        requires
            old(self).wf(),
        ensures
            final(self).wf(),
            final(self).marked == old(self).marked,
            final(self).state() == with_bucket(
                old(self).state(),
                marked_view(old(self).marked@),
                page,
                mcid,
            ),
    {
        if let (Some(page), Some(n)) = (page, mcid) {
            if 0 <= n && n <= u32::MAX as i64 {
                append_bucket(&mut self.out, self.marked, &self.index, page, n as u32);
            }
        }
    }
}

/// The page of an element.
fn read_element_page(d: &Dict, page: Option<u32>) -> (r: Option<u32>)
    ensures
        r == element_page(d@, page),
{
    match get_ref(d, "Pg") {
        Some(id) => Some(id.number),
        None => page,
    }
}

fn walk_struct_node(
    reader: &mut DocumentReader,
    d: &Dict,
    page: Option<u32>,
    depth: u32,
    fuel: usize,
    w: &mut StructWalk,
) -> (r: Result<(), PdfError>)
    requires
        old(reader).wf(),
        old(w).wf(),
        depth <= MAX_STRUCT_DEPTH + 1,
    ensures
        final(reader).wf(),
        final(reader).doc() == old(reader).doc(),
        final(w).went(
            r,
            old(w),
            element_walked(
                old(reader).doc(),
                marked_view(old(w).marked@),
                d@,
                page,
                depth as int,
                fuel as int,
                old(w).state(),
            ),
        ),
    decreases fuel, d@, 0int,
{
    if depth > MAX_STRUCT_DEPTH {
        return Ok(());
    }
    match d.get("K") {
        None => Ok(()),
        Some(k) => {
            proof {
                lemma_value_smaller(d@, "K"@, k@);
            }
            visit_k(reader, k, read_element_page(d, page), depth + 1, fuel, w)
        },
    }
}

fn visit_k(
    reader: &mut DocumentReader,
    kid: &Object,
    page: Option<u32>,
    depth: u32,
    fuel: usize,
    w: &mut StructWalk,
) -> (r: Result<(), PdfError>)
    requires
        old(reader).wf(),
        old(w).wf(),
        depth <= MAX_STRUCT_DEPTH + 1,
    ensures
        final(reader).wf(),
        final(reader).doc() == old(reader).doc(),
        final(w).went(
            r,
            old(w),
            kid_walked(
                old(reader).doc(),
                marked_view(old(w).marked@),
                kid@,
                page,
                depth as int,
                fuel as int,
                old(w).state(),
            ),
        ),
    decreases fuel, kid@, 1int,
{
    match kid {
        Object::Integer(n) => {
            w.add_bucket(page, Some(*n));
            Ok(())
        },
        Object::Array(items) => {
            let ghost doc = reader.doc();
            let ghost marked = marked_view(w.marked@);
            let ghost t0 = w.state();
            let ghost view = objs_view(items@);
            proof {
                lemma_array_view(*items);
                assert(kid@ == ObjV::Array(view));
                assert(decreases_to!(kid@ => view));
            }
            let mut i: usize = 0;
            while i < items.len()
                invariant
                    i <= items@.len(),
                    view == objs_view(items@),
                    kid@ == ObjV::Array(view),
                    decreases_to!(kid@ => view),
                    reader.wf(),
                    reader.doc() == doc,
                    doc == old(reader).doc(),
                    w.wf(),
                    w.marked == old(w).marked,
                    marked == marked_view(w.marked@),
                    t0 == old(w).state(),
                    depth <= MAX_STRUCT_DEPTH + 1,
                    kids_walked(doc, marked, view, i as int, page, depth as int, fuel as int, t0)
                        == Ok::<TreeV, Seq<char>>(w.state()),
                decreases items.len() - i,
            {
                proof {
                    assert(view[i as int] == items@[i as int]@);
                    assert(decreases_to!(view => view[i as int]));
                }
                match visit_k(reader, &items[i], page, depth, fuel, w) {
                    Ok(_) => {},
                    Err(e) => {
                        proof {
                            lemma_kids_error(
                                doc,
                                marked,
                                view,
                                i + 1,
                                view.len() as int,
                                page,
                                depth as int,
                                fuel as int,
                                t0,
                            );
                        }
                        return Err(e);
                    },
                }
                i = i + 1;
            }
            Ok(())
        },
        Object::Reference(id) => {
            let key: u64 = id.number as u64 * 65536 + id.generation as u64;
            proof {
                assert(key == cache_key(*id));
            }
            if w.visited.contains(&key) || fuel == 0 {
                return Ok(());
            }
            match reader.resolve(*id) {
                Err(e) => Err(e),
                Ok(v) => {
                    w.visited.insert(key);
                    visit_k(reader, &v, page, depth, fuel - 1, w)
                },
            }
        },
        Object::Dict(d) => {
            if is_named(d, "Type", "MCR") {
                w.add_bucket(read_element_page(d, page), get_integer(d, "MCID"));
                Ok(())
            } else if is_named(d, "Type", "OBJR") {
                Ok(())
            } else {
                proof {
                    assert(kid@ == ObjV::Dict(d@));
                    assert(decreases_to!(kid@ => d@));
                }
                walk_struct_node(reader, d, page, depth, fuel, w)
            }
        },
        _ => Ok(()),
    }
}

// ------------------------------------------------------------- the document

/// Text in the order of the content of the pages.
pub open spec fn raster_order(raster: Result<Seq<RunV>, Seq<char>>) -> Result<OrderedV, Seq<char>> {
    match raster {
        Err(e) => Err(e),
        Ok(runs) => Ok(OrderedV { mode: LayoutMode::Raster, runs }),
    }
}

/// The structure tree of a document, if it has one that can be read.
pub open spec fn struct_root(doc: DocV) -> Result<Option<DictV>, Seq<char>> {
    match doc.catalog() {
        Err(e) => Err(e),
        Ok(ObjV::Dict(catalog)) => match dict_get(catalog, "StructTreeRoot"@) {
            None => Ok(None),
            Some(o) => match doc.deref(o) {
                Ok(ObjV::Dict(d)) => Ok(Some(d)),
                _ => Ok(None),
            },
        },
        Ok(_) => Ok(None),
    }
}

/// A structure tree without kids.
pub open spec fn is_bare(root: DictV) -> bool {
    match dict_get(root, "K"@) {
        None => true,
        Some(ObjV::Array(items)) => items.len() == 0,
        Some(_) => false,
    }
}

/// Text in the order of a structure tree. Where the tree cannot be walked, has no
/// kids, or leads to no text though there is marked text, the order of the pages
/// counts.
pub open spec fn tree_order(
    doc: DocV,
    root: DictV,
    raster: Result<Seq<RunV>, Seq<char>>,
    marked: Seq<MarkedV>,
) -> Result<OrderedV, Seq<char>> {
    match element_walked(
        doc,
        marked,
        root,
        None,
        0,
        doc.longest_chain(),
        TreeV { visited: Set::empty(), out: Seq::empty() },
    ) {
        Err(_) => raster_order(raster),
        Ok(t) => if t.out.len() == 0 && (any_marked(marked) || is_bare(root)) {
            raster_order(raster)
        } else {
            Ok(OrderedV { mode: LayoutMode::Tagged, runs: t.out })
        },
    }
}

/// Text in the order in which it is meant to be read, where `raster` is the text
/// in the order of the pages and `marked` the text with its marks.
pub open spec fn logical_order(
    doc: DocV,
    raster: Result<Seq<RunV>, Seq<char>>,
    marked: Result<Seq<MarkedV>, Seq<char>>,
) -> Result<OrderedV, Seq<char>> {
    match struct_root(doc) {
        Err(e) => Err(e),
        Ok(None) => raster_order(raster),
        Ok(Some(root)) => match marked {
            Err(e) => Err(e),
            Ok(marked) => tree_order(doc, root, raster, marked),
        },
    }
}

/// Text in the order of the pages, or why there is none.
pub open spec fn raster_view(r: Result<Vec<TextRun>, PdfError>) -> Result<Seq<RunV>, Seq<char>> {
    match r {
        Ok(v) => Ok(runs_view(v@)),
        Err(e) => Err(e@),
    }
}

/// Marked text, or why there is none.
pub open spec fn marks_view(r: Result<Vec<MarkedTextRun>, PdfError>) -> Result<
    Seq<MarkedV>,
    Seq<char>,
> {
    match r {
        Ok(v) => Ok(marked_view(v@)),
        Err(e) => Err(e@),
    }
}

fn as_raster(raster: Result<Vec<TextRun>, PdfError>) -> (r: Result<ReadingOrderText, PdfError>)
    ensures
        crate::error::outcome(r) == raster_order(raster_view(raster)),
{
    match raster {
        Err(e) => Err(e),
        Ok(runs) => Ok(ReadingOrderText { mode: LayoutMode::Raster, runs }),
    }
}

fn has_no_kids(root: &Dict) -> (r: bool)
    ensures
        r == is_bare(root@),
{
    match root.get("K") {
        None => true,
        Some(Object::Array(items)) => {
            proof {
                lemma_array_view(*items);
            }
            items.len() == 0
        },
        Some(_) => false,
    }
}

fn read_struct_root(reader: &mut DocumentReader) -> (r: Result<Option<Dict>, PdfError>)
    requires
        old(reader).wf(),
    ensures
        final(reader).wf(),
        final(reader).doc() == old(reader).doc(),
        crate::named_dest::dict_agrees(r, struct_root(old(reader).doc())),
{
    let catalog: Dict = match reader.catalog() {
        Err(e) => {
            return Err(e);
        },
        Ok(Object::Dict(d)) => d,
        Ok(_) => {
            return Ok(None);
        },
    };
    match catalog.get("StructTreeRoot") {
        None => Ok(None),
        Some(o) => match reader.deref(o.clone()) {
            Ok(Object::Dict(d)) => Ok(Some(d)),
            _ => Ok(None),
        },
    }
}

/// Put the text of a document in the order in which it is meant to be read.
/// `raster` is the text in the order of the pages, and `marked` the text with its
/// marks; either counts only where it is needed.
pub fn read_in_logical_order(
    reader: &mut DocumentReader,
    raster: Result<Vec<TextRun>, PdfError>,
    marked: Result<Vec<MarkedTextRun>, PdfError>,
) -> (r: Result<ReadingOrderText, PdfError>)
    requires
        old(reader).wf(),
    ensures
        final(reader).wf(),
        final(reader).doc() == old(reader).doc(),
        crate::error::outcome(r) == logical_order(
            old(reader).doc(),
            raster_view(raster),
            marks_view(marked),
        ),
{
    let root: Dict = match read_struct_root(reader) {
        Err(e) => {
            return Err(e);
        },
        Ok(None) => {
            return as_raster(raster);
        },
        Ok(Some(d)) => d,
    };
    let marked: Vec<MarkedTextRun> = match marked {
        Ok(v) => v,
        Err(e) => {
            return Err(e);
        },
    };
    let (index, any): (RunIndex, bool) = RunIndex::build(&marked);
    let mut w: StructWalk = StructWalk {
        marked: &marked,
        index,
        visited: HashSet::new(),
        out: Vec::new(),
    };
    proof {
        assert(w.state().out =~= Seq::empty());
        assert(w.state().visited =~= Set::empty());
    }
    let fuel: usize = reader.chain_limit();
    match walk_struct_node(reader, &root, None, 0, fuel, &mut w) {
        Ok(_) => {},
        Err(_) => {
            return as_raster(raster);
        },
    }
    if w.out.len() == 0 && (any || has_no_kids(&root)) {
        return as_raster(raster);
    }
    Ok(ReadingOrderText { mode: LayoutMode::Tagged, runs: w.out })
}

impl<'a> DocumentReader<'a> {
    /// Put the text of the document in the order in which it is meant to be read.
    pub fn read_in_logical_order(
        &mut self,
        raster: Result<Vec<TextRun>, PdfError>,
        marked: Result<Vec<MarkedTextRun>, PdfError>,
    ) -> (r: Result<ReadingOrderText, PdfError>)
        requires
            old(self).wf(),
        ensures
            final(self).wf(),
            final(self).doc() == old(self).doc(),
            crate::error::outcome(r) == logical_order(
                old(self).doc(),
                raster_view(raster),
                marks_view(marked),
            ),
    {
        read_in_logical_order(self, raster, marked)
    }
}

// --------------------------------------------------------------------- laws

/// Without a structure tree the order is that of the pages.
pub proof fn law_untagged_is_raster(
    doc: DocV,
    raster: Seq<RunV>,
    marked: Result<Seq<MarkedV>, Seq<char>>,
)
    requires
        struct_root(doc) == Ok::<Option<DictV>, Seq<char>>(None),
    ensures
        logical_order(doc, Ok(raster), marked) == Ok::<OrderedV, Seq<char>>(
            OrderedV { mode: LayoutMode::Raster, runs: raster },
        ),
{
}

/// Marked text is never lost altogether: where there is marked text, the order
/// holds text, or is that of the pages.
pub proof fn law_marked_text_kept(
    doc: DocV,
    raster: Result<Seq<RunV>, Seq<char>>,
    marked: Seq<MarkedV>,
    r: OrderedV,
)
    requires
        any_marked(marked),
        logical_order(doc, raster, Ok(marked)) == Ok::<OrderedV, Seq<char>>(r),
    ensures
        r.mode == LayoutMode::Tagged ==> r.runs.len() > 0,
        r.mode == LayoutMode::Raster ==> raster == Ok::<Seq<RunV>, Seq<char>>(r.runs),
{
}

/// A marked content that a kid names is put out whole, in the order of its page.
pub proof fn law_kid_puts_bucket(
    doc: DocV,
    marked: Seq<MarkedV>,
    page: u32,
    mcid: u32,
    depth: int,
    fuel: int,
    t: TreeV,
)
    ensures
        kid_walked(doc, marked, ObjV::Integer(mcid as i64), Some(page), depth, fuel, t) == Ok::<
            TreeV,
            Seq<char>,
        >(TreeV { out: t.out + bucket(marked, mark_key(page, mcid)), ..t }),
{
}

/// With a structure tree that has no kids the order is that of the pages.
pub proof fn law_bare_tree_is_raster(
    doc: DocV,
    root: DictV,
    raster: Seq<RunV>,
    marked: Seq<MarkedV>,
)
    requires
        struct_root(doc) == Ok::<Option<DictV>, Seq<char>>(Some(root)),
        is_bare(root),
    ensures
        logical_order(doc, Ok(raster), Ok(marked)) == Ok::<OrderedV, Seq<char>>(
            OrderedV { mode: LayoutMode::Raster, runs: raster },
        ),
{
    let t = TreeV { visited: Set::<u64>::empty(), out: Seq::<RunV>::empty() };
    if let Some(ObjV::Array(items)) = dict_get(root, "K"@) {
        let fuel = doc.longest_chain();
        let page = element_page(root, None);
        let walked = Ok::<TreeV, Seq<char>>(t);
        assert(kids_walked(doc, marked, items, 0, page, 1, fuel, t) == walked);
        assert(kid_walked(doc, marked, ObjV::Array(items), page, 1, fuel, t) == walked);
    }
}

/// An object that was visited is not entered again.
pub proof fn law_no_second_visit(
    doc: DocV,
    marked: Seq<MarkedV>,
    id: ObjectId,
    page: Option<u32>,
    depth: int,
    fuel: int,
    t: TreeV,
)
    requires
        t.visited.contains(cache_key(id)),
    ensures
        kid_walked(doc, marked, ObjV::Reference(id), page, depth, fuel, t) == Ok::<
            TreeV,
            Seq<char>,
        >(t),
{
}

} // verus!
