//! Link annotations.

use std::collections::HashMap;
use vstd::prelude::*;
use vstd::utf8::encode_utf8;
use crate::destination::{decode_explicit_dest, explicit_dest, named_place, DestV, NamedDests, NamesV, OutlineDestination};
use crate::document::{DocV, DocumentReader};
use crate::error::PdfError;
use crate::named_dest::{all_names, named_dest_map};
use crate::nametree::decode_key_text;
use crate::number::{number_of, numbers, object_number, NumV, Number};
use crate::objects::{dict_get, lemma_array_view, objs_view, Dict, DictV, ObjV, Object, ObjectId};
use crate::outline::{action_uri, uri_text};
use crate::pages::{dict_name, index_of_pages, is_named, list_pages, listed_pages};
use crate::textstring::text_of_bytes;

verus! {

broadcast use vstd::std_specs::hash::group_hash_axioms;

/// A link on a page.
#[derive(Debug, Clone)]
pub struct PdfLink {
    /// The index of the page that the link is on.
    pub source_page_index: usize,
    /// `/Rect`: the four numbers of the area that can be clicked.
    pub rect: Vec<Number>,
    /// Where the link leads, if that could be made out.
    pub target: Option<PdfLinkTarget>,
}

/// Where a link leads.
#[derive(Debug, Clone)]
pub enum PdfLinkTarget {
    /// To a place in the document.
    Internal(OutlineDestination),
    /// To an address.
    Uri(String),
    /// To a name that the document does not define.
    Named(String),
}

/// Where a link leads, as a mathematical value.
pub enum LinkTargetV {
    Internal(DestV),
    Uri(Seq<char>),
    Named(Seq<char>),
}

impl View for PdfLinkTarget {
    type V = LinkTargetV;

    open spec fn view(&self) -> LinkTargetV {
        match *self {
            PdfLinkTarget::Internal(d) => LinkTargetV::Internal(d@),
            PdfLinkTarget::Uri(s) => LinkTargetV::Uri(s@),
            PdfLinkTarget::Named(s) => LinkTargetV::Named(s@),
        }
    }
}

/// What an optional target stands for.
pub open spec fn opt_link(t: Option<PdfLinkTarget>) -> Option<LinkTargetV> {
    match t {
        Some(v) => Some(v@),
        None => None,
    }
}

/// A link as a mathematical value.
pub struct LinkV {
    pub source_page_index: int,
    pub rect: Seq<NumV>,
    pub target: Option<LinkTargetV>,
}

impl View for PdfLink {
    type V = LinkV;

    open spec fn view(&self) -> LinkV {
        LinkV {
            source_page_index: self.source_page_index as int,
            rect: numbers(self.rect@),
            target: opt_link(self.target),
        }
    }
}

/// Links as mathematical values.
pub open spec fn links_view(s: Seq<PdfLink>) -> Seq<LinkV> {
    s.map_values(|l: PdfLink| l@)
}

// ---------------------------------------------------------------- targets

/// Where a name leads: to its place, if the document defines it.
pub open spec fn named_link(names: NamesV, name: Seq<u8>) -> LinkTargetV {
    match named_place(names, name) {
        Some(d) => LinkTargetV::Internal(d),
        None => LinkTargetV::Named(text_of_bytes(name)),
    }
}

/// Where a destination leads.
pub open spec fn link_dest(o: ObjV, pages: Map<u32, usize>, names: NamesV) -> Option<LinkTargetV> {
    match o {
        ObjV::Array(items) => match explicit_dest(items, pages) {
            Some(d) => Some(LinkTargetV::Internal(d)),
            None => None,
        },
        ObjV::Name(n) => Some(named_link(names, encode_utf8(n))),
        ObjV::LiteralString(b) => Some(named_link(names, b)),
        ObjV::HexString(b) => Some(named_link(names, b)),
        _ => None,
    }
}

fn named_target(names: &NamedDests, name: &[u8]) -> (r: PdfLinkTarget)
    ensures
        r@ == named_link(names@, name@),
{
    match names.place(name) {
        Some(d) => PdfLinkTarget::Internal(d),
        None => PdfLinkTarget::Named(decode_key_text(name)),
    }
}

/// Where a destination leads.
pub fn decode_dest_value(dest: &Object, pages: &HashMap<u32, usize>, names: &NamedDests) -> (r:
    Option<PdfLinkTarget>)
    ensures
        opt_link(r) == link_dest(dest@, pages@, names@),
{
    match dest {
        Object::Array(items) => {
            proof {
                lemma_array_view(*items);
            }
            match decode_explicit_dest(items, pages) {
                Some(d) => Some(PdfLinkTarget::Internal(d)),
                None => None,
            }
        },
        Object::Name(n) => Some(named_target(names, n.as_str().as_bytes())),
        Object::LiteralString(b) => Some(named_target(names, b.as_slice())),
        Object::HexString(b) => Some(named_target(names, b.as_slice())),
        _ => None,
    }
}

/// Where a destination leads once references are followed.
pub open spec fn followed_dest(doc: DocV, o: ObjV, pages: Map<u32, usize>, names: NamesV) -> Result<
    Option<LinkTargetV>,
    Seq<char>,
> {
    match doc.deref(o) {
        Err(e) => Err(e),
        Ok(v) => Ok(link_dest(v, pages, names)),
    }
}

/// Where a link leads: its `/Dest`, or else what its action does.
pub open spec fn link_target(
    doc: DocV,
    annot: DictV,
    pages: Map<u32, usize>,
    names: NamesV,
) -> Result<Option<LinkTargetV>, Seq<char>> {
    match dict_get(annot, "Dest"@) {
        Some(o) => followed_dest(doc, o, pages, names),
        None => match dict_get(annot, "A"@) {
            None => Ok(None),
            Some(a) => match doc.deref(a) {
                Err(e) => Err(e),
                Ok(ObjV::Dict(action)) => if dict_name(action, "S"@) == Some("URI"@) {
                    match uri_text(action) {
                        Some(t) => Ok(Some(LinkTargetV::Uri(t))),
                        None => Ok(None),
                    }
                } else if dict_name(action, "S"@) == Some("GoTo"@) {
                    match dict_get(action, "D"@) {
                        Some(o) => followed_dest(doc, o, pages, names),
                        None => Ok(None),
                    }
                } else {
                    Ok(None)
                },
                Ok(_) => Ok(None),
            },
        },
    }
}

/// `r` is the optional target that `w` says.
pub open spec fn target_agrees(
    r: Result<Option<PdfLinkTarget>, PdfError>,
    w: Result<Option<LinkTargetV>, Seq<char>>,
) -> bool {
    match r {
        Ok(t) => w == Ok::<Option<LinkTargetV>, Seq<char>>(opt_link(t)),
        Err(e) => w == Err::<Option<LinkTargetV>, Seq<char>>(e@),
    }
}

fn follow_dest(
    reader: &mut DocumentReader,
    o: Object,
    pages: &HashMap<u32, usize>,
    names: &NamedDests,
) -> (r: Result<Option<PdfLinkTarget>, PdfError>)
    requires
        old(reader).wf(),
    ensures
        final(reader).wf(),
        final(reader).doc() == old(reader).doc(),
        target_agrees(r, followed_dest(old(reader).doc(), o@, pages@, names@)),
{
    match reader.deref(o) {
        Err(e) => Err(e),
        Ok(v) => Ok(decode_dest_value(&v, pages, names)),
    }
}

fn decode_link_target(
    reader: &mut DocumentReader,
    annot: &Dict,
    pages: &HashMap<u32, usize>,
    names: &NamedDests,
) -> (r: Result<Option<PdfLinkTarget>, PdfError>)
    requires
        old(reader).wf(),
    ensures
        final(reader).wf(),
        final(reader).doc() == old(reader).doc(),
        target_agrees(r, link_target(old(reader).doc(), annot@, pages@, names@)),
{
    if let Some(o) = annot.get("Dest") {
        return follow_dest(reader, o.clone(), pages, names);
    }
    let action: Object = match annot.get("A") {
        None => {
            return Ok(None);
        },
        Some(a) => a.clone(),
    };
    let action: Dict = match reader.deref(action) {
        Err(e) => {
            return Err(e);
        },
        Ok(Object::Dict(d)) => d,
        Ok(_) => {
            return Ok(None);
        },
    };
    if is_named(&action, "S", "URI") {
        return match action_uri(&action) {
            Some(t) => Ok(Some(PdfLinkTarget::Uri(t))),
            None => Ok(None),
        };
    }
    if is_named(&action, "S", "GoTo") {
        return match action.get("D") {
            Some(o) => follow_dest(reader, o.clone(), pages, names),
            None => Ok(None),
        };
    }
    Ok(None)
}

// ------------------------------------------------------------------ links

/// The first `n` items of an array as numbers, if all of them are.
pub open spec fn numbers_of(items: Seq<ObjV>, n: int) -> Option<Seq<NumV>>
    decreases n,
{
    if n <= 0 || n > items.len() {
        Some(Seq::empty())
    } else {
        match (numbers_of(items, n - 1), number_of(items[n - 1])) {
            (Some(s), Some(v)) => Some(s.push(v)),
            _ => None,
        }
    }
}

/// An array of `n` numbers.
pub open spec fn array_numbers(o: Option<ObjV>, n: int) -> Option<Seq<NumV>> {
    match o {
        Some(ObjV::Array(items)) => if items.len() == n {
            numbers_of(items, n)
        } else {
            None
        },
        _ => None,
    }
}

/// What optional numbers stand for.
pub open spec fn opt_numbers(n: Option<Vec<Number>>) -> Option<Seq<NumV>> {
    match n {
        Some(v) => Some(numbers(v@)),
        None => None,
    }
}

/// An entry of a dictionary, if it is an array of `n` numbers.
pub(crate) fn get_numbers(d: &Dict, key: &str, n: usize) -> (r: Option<Vec<Number>>)
    ensures
        opt_numbers(r) == array_numbers(dict_get(d@, key@), n as int),
{
    let items: &Vec<Object> = match d.get(key) {
        Some(Object::Array(items)) => items,
        _ => {
            return None;
        },
    };
    proof {
        lemma_array_view(*items);
    }
    if items.len() != n {
        return None;
    }
    items_numbers(items)
}

/// The items of an array as numbers, if all of them are.
pub(crate) fn items_numbers(items: &Vec<Object>) -> (r: Option<Vec<Number>>)
    ensures
        opt_numbers(r) == numbers_of(objs_view(items@), items@.len() as int),
{
    let ghost view = objs_view(items@);
    let mut out: Vec<Number> = Vec::new();
    let mut i: usize = 0;
    proof {
        assert(numbers(out@) =~= Seq::empty());
    }
    while i < items.len()
        invariant
            i <= items@.len(),
            view == objs_view(items@),
            numbers_of(view, i as int) == Some(numbers(out@)),
        decreases items.len() - i,
    {
        let ghost before = numbers(out@);
        proof {
            assert(view[i as int] == items@[i as int]@);
        }
        match object_number(&items[i]) {
            Some(v) => {
                out.push(v);
                proof {
                    assert(numbers(out@) =~= before.push(v@));
                }
            },
            None => {
                proof {
                    lemma_no_number(view, i + 1, view.len() as int);
                }
                return None;
            },
        }
        i = i + 1;
    }
    Some(out)
}

/// One item that is no number spoils the numbers.
proof fn lemma_no_number(items: Seq<ObjV>, n: int, m: int)
    requires
        0 < n <= m <= items.len(),
        numbers_of(items, n) is None,
    ensures
        numbers_of(items, m) is None,
    decreases m - n,
{
    if n < m {
        lemma_no_number(items, n, m - 1);
    }
}

/// The link that an annotation is, on page `page`; `None` where it has no
/// area.
pub open spec fn link_of(
    doc: DocV,
    annot: DictV,
    page: int,
    pages: Map<u32, usize>,
    names: NamesV,
) -> Result<Option<LinkV>, Seq<char>> {
    match array_numbers(dict_get(annot, "Rect"@), 4) {
        None => Ok(None),
        Some(rect) => match link_target(doc, annot, pages, names) {
            Err(e) => Err(e),
            Ok(target) => Ok(Some(LinkV { source_page_index: page, rect, target })),
        },
    }
}

/// The links among the annotations from place `i` on, behind the links `out`.
pub open spec fn links_from(
    doc: DocV,
    annots: Seq<ObjV>,
    i: int,
    page: int,
    pages: Map<u32, usize>,
    names: NamesV,
    out: Seq<LinkV>,
) -> Result<Seq<LinkV>, Seq<char>>
    decreases annots.len() - i,
{
    if i < 0 || i >= annots.len() {
        Ok(out)
    } else {
        match doc.deref(annots[i]) {
            Err(e) => Err(e),
            Ok(ObjV::Dict(annot)) => if dict_name(annot, "Subtype"@) == Some("Link"@) {
                match link_of(doc, annot, page, pages, names) {
                    Err(e) => Err(e),
                    Ok(None) => links_from(doc, annots, i + 1, page, pages, names, out),
                    Ok(Some(l)) => links_from(
                        doc,
                        annots,
                        i + 1,
                        page,
                        pages,
                        names,
                        out.push(l),
                    ),
                }
            } else {
                links_from(doc, annots, i + 1, page, pages, names, out)
            },
            Ok(_) => links_from(doc, annots, i + 1, page, pages, names, out),
        }
    }
}

/// The links of one page, behind the links `out`.
pub open spec fn page_links(
    doc: DocV,
    id: ObjectId,
    page: int,
    pages: Map<u32, usize>,
    names: NamesV,
    out: Seq<LinkV>,
) -> Result<Seq<LinkV>, Seq<char>> {
    match doc.resolve(id) {
        Err(e) => Err(e),
        Ok(ObjV::Dict(d)) => match dict_get(d, "Annots"@) {
            None => Ok(out),
            Some(o) => match doc.deref(o) {
                Err(e) => Err(e),
                Ok(ObjV::Array(annots)) => links_from(doc, annots, 0, page, pages, names, out),
                Ok(_) => Ok(out),
            },
        },
        Ok(_) => Ok(out),
    }
}

/// The links of the pages from place `i` of the list on, behind the links
/// `out`. A page that is listed twice counts at its last place only.
pub open spec fn links_of_pages(
    doc: DocV,
    list: Seq<u32>,
    i: int,
    names: NamesV,
    out: Seq<LinkV>,
) -> Result<Seq<LinkV>, Seq<char>>
    decreases list.len() - i,
{
    let pages = index_of_pages(list);
    if i < 0 || i >= list.len() {
        Ok(out)
    } else if pages[list[i]] != i || list[i] == 0 {
        links_of_pages(doc, list, i + 1, names, out)
    } else {
        match page_links(
            doc,
            ObjectId { number: list[i], generation: 0 },
            i,
            pages,
            names,
            out,
        ) {
            Err(e) => Err(e),
            Ok(o) => links_of_pages(doc, list, i + 1, names, o),
        }
    }
}

/// All links of a document.
pub open spec fn document_links(doc: DocV) -> Result<Seq<LinkV>, Seq<char>> {
    match listed_pages(doc) {
        Err(e) => Err(e),
        Ok(list) => match all_names(doc, index_of_pages(list)) {
            Err(e) => Err(e),
            Ok(names) => links_of_pages(doc, list, 0, names, Seq::empty()),
        },
    }
}

fn decode_link(
    reader: &mut DocumentReader,
    annot: &Dict,
    page: usize,
    pages: &HashMap<u32, usize>,
    names: &NamedDests,
) -> (r: Result<Option<PdfLink>, PdfError>)
    requires
        old(reader).wf(),
    ensures
        final(reader).wf(),
        final(reader).doc() == old(reader).doc(),
        match r {
            Ok(Some(l)) => link_of(old(reader).doc(), annot@, page as int, pages@, names@) == Ok::<
                Option<LinkV>,
                Seq<char>,
            >(Some(l@)),
            Ok(None) => link_of(old(reader).doc(), annot@, page as int, pages@, names@) == Ok::<
                Option<LinkV>,
                Seq<char>,
            >(None),
            Err(e) => link_of(old(reader).doc(), annot@, page as int, pages@, names@) == Err::<
                Option<LinkV>,
                Seq<char>,
            >(e@),
        },
{
    let rect: Vec<Number> = match get_numbers(annot, "Rect", 4) {
        Some(v) => v,
        None => {
            return Ok(None);
        },
    };
    match decode_link_target(reader, annot, pages, names) {
        Err(e) => Err(e),
        Ok(target) => Ok(Some(PdfLink { source_page_index: page, rect, target })),
    }
}

/// `r`, with `out` as it is afterwards, is what `w` says.
pub open spec fn links_agree(
    r: Result<(), PdfError>,
    out: Seq<PdfLink>,
    w: Result<Seq<LinkV>, Seq<char>>,
) -> bool {
    match r {
        Ok(_) => w == Ok::<Seq<LinkV>, Seq<char>>(links_view(out)),
        Err(e) => w == Err::<Seq<LinkV>, Seq<char>>(e@),
    }
}

fn links_on_page(
    reader: &mut DocumentReader,
    id: ObjectId,
    page: usize,
    pages: &HashMap<u32, usize>,
    names: &NamedDests,
    out: &mut Vec<PdfLink>,
) -> (r: Result<(), PdfError>)
    requires
        old(reader).wf(),
    ensures
        final(reader).wf(),
        final(reader).doc() == old(reader).doc(),
        links_agree(
            r,
            final(out)@,
            page_links(
                old(reader).doc(),
                id,
                page as int,
                pages@,
                names@,
                links_view(old(out)@),
            ),
        ),
{
    let ghost doc = reader.doc();
    let d: Dict = match reader.resolve(id) {
        Err(e) => {
            return Err(e);
        },
        Ok(Object::Dict(d)) => d,
        Ok(_) => {
            return Ok(());
        },
    };
    let annots: Object = match d.get("Annots") {
        None => {
            return Ok(());
        },
        Some(o) => o.clone(),
    };
    let items: Vec<Object> = match reader.deref(annots) {
        Err(e) => {
            return Err(e);
        },
        Ok(Object::Array(items)) => items,
        Ok(_) => {
            return Ok(());
        },
    };
    proof {
        lemma_array_view(items);
    }
    let ghost view = objs_view(items@);
    let ghost goal = links_from(doc, view, 0, page as int, pages@, names@, links_view(out@));
    let mut i: usize = 0;
    while i < items.len()
        invariant
            i <= items@.len(),
            view == objs_view(items@),
            reader.wf(),
            reader.doc() == doc,
            doc == old(reader).doc(),
            goal == page_links(
                doc,
                id,
                page as int,
                pages@,
                names@,
                links_view(old(out)@),
            ),
            goal == links_from(
                doc,
                view,
                i as int,
                page as int,
                pages@,
                names@,
                links_view(out@),
            ),
        decreases items.len() - i,
    {
        let ghost before = links_view(out@);
        proof {
            assert(view[i as int] == items@[i as int]@);
        }
        match reader.deref(items[i].clone()) {
            Err(e) => {
                return Err(e);
            },
            Ok(Object::Dict(annot)) => {
                if is_named(&annot, "Subtype", "Link") {
                    match decode_link(reader, &annot, page, pages, names) {
                        Err(e) => {
                            return Err(e);
                        },
                        Ok(None) => {},
                        Ok(Some(l)) => {
                            out.push(l);
                            proof {
                                assert(links_view(out@) =~= before.push(l@));
                            }
                        },
                    }
                }
            },
            Ok(_) => {},
        }
        i = i + 1;
    }
    Ok(())
}

/// All links of a document, page by page.
pub fn links(reader: &mut DocumentReader) -> (r: Result<Vec<PdfLink>, PdfError>)
    requires
        old(reader).wf(),
    ensures
        final(reader).wf(),
        final(reader).doc() == old(reader).doc(),
        match r {
            Ok(v) => document_links(old(reader).doc()) == Ok::<Seq<LinkV>, Seq<char>>(
                links_view(v@),
            ),
            Err(e) => document_links(old(reader).doc()) == Err::<Seq<LinkV>, Seq<char>>(e@),
        },
{
    let ghost doc = reader.doc();
    let list: Vec<u32> = match list_pages(reader) {
        Ok(p) => p,
        Err(e) => {
            return Err(e);
        },
    };
    let pages: HashMap<u32, usize> = crate::pages::index_pages(&list);
    let names: NamedDests = match named_dest_map(reader, &pages) {
        Ok(n) => n,
        Err(e) => {
            return Err(e);
        },
    };
    let mut out: Vec<PdfLink> = Vec::new();
    proof {
        assert(links_view(out@) =~= Seq::empty());
    }
    let ghost goal = links_of_pages(doc, list@, 0, names@, Seq::empty());
    let mut i: usize = 0;
    while i < list.len()
        invariant
            i <= list@.len(),
            reader.wf(),
            reader.doc() == doc,
            doc == old(reader).doc(),
            pages@ == index_of_pages(list@),
            goal == document_links(doc),
            goal == links_of_pages(doc, list@, i as int, names@, links_view(out@)),
        decreases list.len() - i,
    {
        let number: u32 = list[i];
        proof {
            crate::pages::lemma_listed(list@, i as int);
        }
        let last: usize = match pages.get(&number) {
            Some(p) => *p,
            None => 0,
        };
        if last == i && number != 0 {
            match links_on_page(reader, ObjectId::new(number), i, &pages, &names, &mut out) {
                Ok(_) => {},
                Err(e) => {
                    return Err(e);
                },
            }
        }
        i = i + 1;
    }
    Ok(out)
}

// ------------------------------------------------------------------- laws

/// A name that the document defines never stays a name.
pub proof fn law_defined_name_is_internal(names: NamesV, name: Seq<u8>, d: DestV)
    requires
        named_place(names, name) == Some(d),
    ensures
        link_dest(ObjV::LiteralString(name), Map::empty(), names) == Some(
            LinkTargetV::Internal(d),
        ),
{
}

} // verus!
