//! Pages: their size, their content, the appearances of their annotations and
//! how they are turned.

use vstd::prelude::*;
use crate::content::{
    content_value, entering, form_part, page_content, parts_view, read_appearance, target,
    ContentPart, KindV, PartResources, PartV, ResV, Scope,
};
use crate::describe::{cat_object, got, obj_text, unexpected};
use crate::document::{DocV, DocumentReader};
use crate::error::PdfError;
use crate::info::{document_info, read_info, DocumentInfo, InfoV};
use crate::link::{array_numbers, get_numbers, items_numbers, numbers_of};
use crate::number::{number_of, numbers, object_number, NumV, Number};
use crate::objects::{
    clone_bytes, dict_get, lemma_array_view, objs_view, Dict, DictV, ObjV, Object, ObjectId, Stream,
};
use crate::ocg::{
    annotation_oc_visible, document_content, oc_visible, optional_content, states_of, OcStates,
    OptionalContent,
};
use crate::pages::{
    dict_name, document_pages, inheritable, is_named, page_leaves, resolve_inheritable_attr,
};
use crate::stream::{dict_integer, get_integer};
use crate::text::{cat, cat_id, id_text};

verus! {

// -------------------------------------------------------------------- size

/// The size of a page that has none: A4.
pub open spec fn default_box() -> Seq<NumV> {
    seq![NumV::Integer(0), NumV::Integer(0), NumV::Integer(595), NumV::Integer(842)]
}

/// The first item from place `i` on that is no number.
pub open spec fn first_other(items: Seq<ObjV>, i: int) -> ObjV
    decreases items.len() - i,
{
    if i < 0 || i >= items.len() {
        ObjV::Null
    } else if number_of(items[i]) is None {
        items[i]
    } else {
        first_other(items, i + 1)
    }
}

fn no_number(items: &Vec<Object>) -> (r: PdfError)
    ensures
        r@ == "PDF reader: expected number, got "@ + obj_text(first_other(objs_view(items@), 0)),
{
    let ghost view = objs_view(items@);
    let m: String = "PDF reader: expected number, got ".to_owned();
    let mut i: usize = 0;
    while i < items.len()
        invariant
            i <= items@.len(),
            view == objs_view(items@),
            m@ == "PDF reader: expected number, got "@,
            first_other(view, 0) == first_other(view, i as int),
        decreases items.len() - i,
    {
        proof {
            assert(view[i as int] == items@[i as int]@);
        }
        if object_number(&items[i]).is_none() {
            return PdfError::Other(cat_object(m, &items[i]));
        }
        i = i + 1;
    }
    PdfError::Other(cat_object(m, &Object::Null))
}

/// The `/MediaBox` of a page, its own or that of a node above it.
pub open spec fn media_box(doc: DocV, page: DictV) -> Result<Seq<NumV>, Seq<char>> {
    match inheritable(doc, page, "MediaBox"@) {
        Err(e) => Err(e),
        Ok(None) => Ok(default_box()),
        Ok(Some(ObjV::Array(items))) => if items.len() != 4 {
            Err("PDF reader: /MediaBox must be a 4-array"@ + got(ObjV::Array(items)))
        } else {
            match numbers_of(items, 4) {
                Some(n) => Ok(n),
                None => Err("PDF reader: expected number, got "@ + obj_text(first_other(items, 0))),
            }
        },
        Ok(Some(o)) => Err("PDF reader: /MediaBox must be a 4-array"@ + got(o)),
    }
}

fn read_media_box(reader: &mut DocumentReader, page: &Dict) -> (r: Result<Vec<Number>, PdfError>)
    requires
        old(reader).wf(),
    ensures
        final(reader).wf(),
        final(reader).doc() == old(reader).doc(),
        match r {
            Ok(v) => media_box(old(reader).doc(), page@) == Ok::<Seq<NumV>, Seq<char>>(
                numbers(v@),
            ),
            Err(e) => media_box(old(reader).doc(), page@) == Err::<Seq<NumV>, Seq<char>>(e@),
        },
{
    match resolve_inheritable_attr(reader, page, "MediaBox") {
        Err(e) => Err(e),
        Ok(None) => {
            let v: Vec<Number> = vec![
                Number::Integer(0),
                Number::Integer(0),
                Number::Integer(595),
                Number::Integer(842),
            ];
            proof {
                assert(numbers(v@) =~= default_box());
            }
            Ok(v)
        },
        Ok(Some(Object::Array(items))) => {
            proof {
                lemma_array_view(items);
            }
            if items.len() != 4 {
                let all: Object = Object::Array(items);
                return Err(unexpected("PDF reader: /MediaBox must be a 4-array", &all));
            }
            match items_numbers(&items) {
                Some(n) => Ok(n),
                None => Err(no_number(&items)),
            }
        },
        Ok(Some(o)) => Err(unexpected("PDF reader: /MediaBox must be a 4-array", &o)),
    }
}

// ----------------------------------------------------------------- content

/// The data of the streams among the first `n` items, each with a line end
/// behind it.
pub open spec fn joined(doc: DocV, items: Seq<ObjV>, n: int) -> Result<Seq<u8>, Seq<char>>
    decreases n,
{
    if n <= 0 || n > items.len() {
        Ok(Seq::empty())
    } else {
        match joined(doc, items, n - 1) {
            Err(e) => Err(e),
            Ok(before) => match items[n - 1] {
                ObjV::Reference(id) => match doc.stream_bytes(id) {
                    Err(e) => Err(e),
                    Ok(b) => Ok(before + b + seq![10u8]),
                },
                _ => Ok(before),
            },
        }
    }
}

proof fn lemma_joined_error(doc: DocV, items: Seq<ObjV>, n: int, m: int)
    requires
        0 <= n <= m <= items.len(),
        joined(doc, items, n) is Err,
    ensures
        joined(doc, items, m) == joined(doc, items, n),
    decreases m - n,
{
    if n < m {
        lemma_joined_error(doc, items, n, m - 1);
    }
}

/// The content of a page: that of one stream, or of several joined.
pub open spec fn page_data(doc: DocV, page: DictV) -> Result<Seq<u8>, Seq<char>> {
    match dict_get(page, "Contents"@) {
        None => Ok(Seq::empty()),
        Some(ObjV::Reference(id)) => doc.stream_bytes(id),
        Some(ObjV::Array(items)) => joined(doc, items, items.len() as int),
        Some(o) => Err("PDF reader: /Contents must be a Stream or array"@ + got(o)),
    }
}

/// Read the content of a page.
pub fn page_contents(reader: &mut DocumentReader, page: &Dict) -> (r: Result<Vec<u8>, PdfError>)
    requires
        old(reader).wf(),
    ensures
        final(reader).wf(),
        final(reader).doc() == old(reader).doc(),
        crate::error::outcome(r) == page_data(old(reader).doc(), page@),
{
    let ghost doc = reader.doc();
    match page.get("Contents") {
        None => {
            let v: Vec<u8> = Vec::new();
            proof {
                assert(v@ =~= Seq::empty());
            }
            Ok(v)
        },
        Some(Object::Reference(id)) => reader.extract_stream_data(*id),
        Some(Object::Array(items)) => {
            proof {
                lemma_array_view(*items);
            }
            let ghost view = objs_view(items@);
            let mut all: Vec<u8> = Vec::new();
            proof {
                assert(all@ =~= Seq::empty());
            }
            let mut i: usize = 0;
            while i < items.len()
                invariant
                    i <= items@.len(),
                    view == objs_view(items@),
                    reader.wf(),
                    reader.doc() == doc,
                    doc == old(reader).doc(),
                    page_data(doc, page@) == joined(doc, view, view.len() as int),
                    joined(doc, view, i as int) == Ok::<Seq<u8>, Seq<char>>(all@),
                decreases items.len() - i,
            {
                let ghost before = all@;
                proof {
                    assert(view[i as int] == items@[i as int]@);
                }
                if let Object::Reference(id) = &items[i] {
                    match reader.extract_stream_data(*id) {
                        Err(e) => {
                            proof {
                                lemma_joined_error(doc, view, i + 1, view.len() as int);
                            }
                            return Err(e);
                        },
                        Ok(b) => {
                            all.extend_from_slice(b.as_slice());
                            all.push(10);
                            proof {
                                assert(all@ =~= before + b@ + seq![10u8]);
                            }
                        },
                    }
                }
                i = i + 1;
            }
            Ok(all)
        },
        Some(o) => Err(unexpected("PDF reader: /Contents must be a Stream or array", o)),
    }
}

/// The resources of a page, its own or those of a node above it.
pub open spec fn page_resources(doc: DocV, page: DictV) -> Result<Option<DictV>, Seq<char>> {
    match inheritable(doc, page, "Resources"@) {
        Err(e) => Err(e),
        Ok(None) => Ok(None),
        Ok(Some(o)) => match doc.one_hop(o) {
            Err(e) => Err(e),
            Ok(ObjV::Dict(d)) => Ok(Some(d)),
            Ok(_) => Ok(None),
        },
    }
}

fn read_page_resources(reader: &mut DocumentReader, page: &Dict) -> (r: Result<
    Option<Dict>,
    PdfError,
>)
    requires
        old(reader).wf(),
    ensures
        final(reader).wf(),
        final(reader).doc() == old(reader).doc(),
        crate::named_dest::dict_agrees(r, page_resources(old(reader).doc(), page@)),
{
    match resolve_inheritable_attr(reader, page, "Resources") {
        Err(e) => Err(e),
        Ok(None) => Ok(None),
        Ok(Some(Object::Reference(id))) => match reader.resolve(id) {
            Err(e) => Err(e),
            Ok(Object::Dict(d)) => Ok(Some(d)),
            Ok(_) => Ok(None),
        },
        Ok(Some(Object::Dict(d))) => Ok(Some(d)),
        Ok(Some(_)) => Ok(None),
    }
}

// ---------------------------------------------------------------- rotation

/// How a page is turned, clockwise in degrees: a multiple of 90 below 360.
/// Anything but a multiple of 90 counts as 0.
pub open spec fn quarter_turns(degrees: i64) -> u16 {
    if degrees as int % 90 == 0 {
        (degrees as int % 360) as u16
    } else {
        0
    }
}

fn turned(degrees: i64) -> (r: u16)
    ensures
        r == quarter_turns(degrees),
{
    let m: i64 = if degrees >= 0 {
        degrees % 360
    } else {
        let k: i64 = -(degrees + 1);
        let rest: i64 = k % 360;
        proof {
            vstd::arithmetic::div_mod::lemma_fundamental_div_mod(k as int, 360);
            vstd::arithmetic::div_mod::lemma_fundamental_div_mod_converse(
                degrees as int,
                360,
                -(k as int / 360) - 1,
                359 - rest,
            );
        }
        359 - rest
    };
    proof {
        assert(m == degrees as int % 360);
        let q = degrees as int / 360;
        vstd::arithmetic::div_mod::lemma_fundamental_div_mod(degrees as int, 360);
        assert(degrees == 360 * q + m);
        assert(degrees as int % 90 == m as int % 90) by {
            vstd::arithmetic::div_mod::lemma_mod_multiples_vanish(4 * q, m as int, 90);
            assert(90 * (4 * q) + m == degrees);
        }
    }
    if m % 90 == 0 {
        m as u16
    } else {
        0
    }
}

/// How a page is turned; it may have that from a node above it.
pub open spec fn page_rotation(doc: DocV, page: DictV) -> Result<u16, Seq<char>> {
    match inheritable(doc, page, "Rotate"@) {
        Err(e) => Err(e),
        Ok(Some(ObjV::Integer(n))) => Ok(quarter_turns(n)),
        Ok(_) => Ok(0),
    }
}

// ------------------------------------------------------------- appearances

/// How an annotation looks, and where.
#[derive(Debug)]
pub struct Appearance {
    /// `/Rect`: four numbers.
    pub rect: Vec<Number>,
    /// The form that is painted; it has a box.
    pub form: ContentPart,
}

/// The same as a mathematical value.
pub struct AppearanceV {
    pub rect: Seq<NumV>,
    pub form: PartV,
}

impl View for Appearance {
    type V = AppearanceV;

    open spec fn view(&self) -> AppearanceV {
        AppearanceV { rect: numbers(self.rect@), form: self.form@ }
    }
}

/// Appearances as mathematical values.
pub open spec fn appearances_view(s: Seq<Appearance>) -> Seq<AppearanceV> {
    s.map_values(|a: Appearance| a@)
}

/// The flag of an annotation that is never shown.
pub const FLAG_HIDDEN: u64 = 2;

/// The flag of an annotation that is not shown on a screen.
pub const FLAG_NO_VIEW: u64 = 32;

/// The flags of an annotation let it be seen.
pub open spec fn flags_visible(annot: DictV) -> bool {
    match dict_integer(annot, "F"@) {
        Some(f) => (f as u64) & (FLAG_HIDDEN | FLAG_NO_VIEW) == 0,
        None => true,
    }
}

/// A stream, and its number if it was referred to.
pub struct StreamV {
    pub id: Option<ObjectId>,
    pub dict: DictV,
    pub data: Seq<u8>,
}

/// The stream that an object is or refers to directly. An object that cannot be
/// read is none.
pub open spec fn stream_value(doc: DocV, o: ObjV) -> Option<StreamV> {
    match doc.one_hop(o) {
        Ok(ObjV::Stream(dict, data)) => Some(StreamV { id: target(o), dict, data }),
        _ => None,
    }
}

/// The stream of the normal appearance of an annotation: the entry `N` of its
/// appearances, or the one among several that its state selects.
pub open spec fn normal_stream(doc: DocV, annot: DictV, ap: DictV) -> Option<StreamV> {
    match dict_get(ap, "N"@) {
        None => None,
        Some(n) => match doc.one_hop(n) {
            Ok(ObjV::Stream(_, _)) => stream_value(doc, n),
            Ok(ObjV::Dict(states)) => match dict_name(annot, "AS"@) {
                Some(state) => match dict_get(states, state) {
                    Some(o) => stream_value(doc, o),
                    None => None,
                },
                None => None,
            },
            _ => None,
        },
    }
}

/// The appearance stream of an annotation and its rectangle, if it is to be
/// painted.
pub open spec fn appearance_stream(doc: DocV, annot: DictV) -> Option<(Seq<NumV>, StreamV)> {
    if !flags_visible(annot) || dict_name(annot, "Subtype"@) == Some("Popup"@) {
        None
    } else {
        match (array_numbers(dict_get(annot, "Rect"@), 4), dict_get(annot, "AP"@)) {
            (Some(rect), Some(o)) => match doc.one_hop(o) {
                Ok(ObjV::Dict(ap)) => match normal_stream(doc, annot, ap) {
                    Some(s) => if array_numbers(dict_get(s.dict, "BBox"@), 4) is Some {
                        Some((rect, s))
                    } else {
                        None
                    },
                    None => None,
                },
                _ => None,
            },
            _ => None,
        }
    }
}

/// How an annotation looks; none where it has no appearance that can be painted.
pub open spec fn appearance_of(doc: DocV, annot: DictV) -> Result<Option<AppearanceV>, Seq<char>> {
    match appearance_stream(doc, annot) {
        None => Ok(None),
        Some((rect, s)) => match form_part(
            doc,
            Seq::empty(),
            KindV::Form,
            s.dict,
            s.data,
            0,
            entering(s.id, Seq::empty()),
        ) {
            Err(e) => Err(e),
            Ok(Some(form)) => Ok(Some(AppearanceV { rect, form })),
            Ok(None) => Ok(None),
        },
    }
}

/// `s` is the stream that `w` says.
spec fn stream_agrees(s: Option<(Stream, Option<ObjectId>)>, w: Option<StreamV>) -> bool {
    match s {
        Some((s, id)) => w == Some(StreamV { id, dict: s.dict@, data: s.data@ }),
        None => w is None,
    }
}

fn read_stream(reader: &mut DocumentReader, o: &Object) -> (r: Option<(Stream, Option<ObjectId>)>)
    requires
        old(reader).wf(),
    ensures
        final(reader).wf(),
        final(reader).doc() == old(reader).doc(),
        stream_agrees(r, stream_value(old(reader).doc(), o@)),
{
    match o {
        Object::Reference(id) => match reader.resolve(*id) {
            Ok(Object::Stream(s)) => Some((s, Some(*id))),
            _ => None,
        },
        Object::Stream(s) => Some(
            (Stream { dict: s.dict.clone(), data: clone_bytes(&s.data) }, None),
        ),
        _ => None,
    }
}

fn read_normal_stream(reader: &mut DocumentReader, annot: &Dict, ap: &Dict) -> (r: Option<
    (Stream, Option<ObjectId>),
>)
    requires
        old(reader).wf(),
    ensures
        final(reader).wf(),
        final(reader).doc() == old(reader).doc(),
        stream_agrees(r, normal_stream(old(reader).doc(), annot@, ap@)),
{
    let n: &Object = match ap.get("N") {
        None => {
            return None;
        },
        Some(o) => o,
    };
    match crate::resources::hop(reader, n) {
        Ok(Object::Stream(_)) => read_stream(reader, n),
        Ok(Object::Dict(states)) => match annot.get("AS") {
            Some(Object::Name(state)) => match states.get(state.as_str()) {
                Some(o) => read_stream(reader, o),
                None => None,
            },
            _ => None,
        },
        _ => None,
    }
}

fn read_appearance_stream(reader: &mut DocumentReader, annot: &Dict) -> (r: Option<
    (Vec<Number>, Stream, Option<ObjectId>),
>)
    requires
        old(reader).wf(),
    ensures
        final(reader).wf(),
        final(reader).doc() == old(reader).doc(),
        match r {
            Some((rect, s, id)) => appearance_stream(old(reader).doc(), annot@) == Some(
                (numbers(rect@), StreamV { id, dict: s.dict@, data: s.data@ }),
            ),
            None => appearance_stream(old(reader).doc(), annot@) is None,
        },
{
    if let Some(f) = get_integer(annot, "F") {
        if (f as u64) & (FLAG_HIDDEN | FLAG_NO_VIEW) != 0 {
            return None;
        }
    }
    if is_named(annot, "Subtype", "Popup") {
        return None;
    }
    let rect: Vec<Number> = match get_numbers(annot, "Rect", 4) {
        Some(r) => r,
        None => {
            return None;
        },
    };
    let ap: Dict = match annot.get("AP") {
        None => {
            return None;
        },
        Some(o) => match crate::resources::hop(reader, o) {
            Ok(Object::Dict(d)) => d,
            _ => {
                return None;
            },
        },
    };
    match read_normal_stream(reader, annot, &ap) {
        Some((s, id)) => if get_numbers(&s.dict, "BBox", 4).is_some() {
            Some((rect, s, id))
        } else {
            None
        },
        None => None,
    }
}

/// `r` is the optional appearance that `w` says.
pub open spec fn appearance_agrees(
    r: Result<Option<Appearance>, PdfError>,
    w: Result<Option<AppearanceV>, Seq<char>>,
) -> bool {
    match r {
        Ok(Some(a)) => w == Ok::<Option<AppearanceV>, Seq<char>>(Some(a@)),
        Ok(None) => w == Ok::<Option<AppearanceV>, Seq<char>>(None),
        Err(e) => w == Err::<Option<AppearanceV>, Seq<char>>(e@),
    }
}

/// Read how an annotation looks.
pub fn annotation_appearance(reader: &mut DocumentReader, annot: &Dict) -> (r: Result<
    Option<Appearance>,
    PdfError,
>)
    requires
        old(reader).wf(),
    ensures
        final(reader).wf(),
        final(reader).doc() == old(reader).doc(),
        appearance_agrees(r, appearance_of(old(reader).doc(), annot@)),
{
    match read_appearance_stream(reader, annot) {
        None => Ok(None),
        Some((rect, s, id)) => match read_appearance(reader, &s, id) {
            Err(e) => Err(e),
            Ok(Some(form)) => Ok(Some(Appearance { rect, form })),
            Ok(None) => Ok(None),
        },
    }
}

/// The appearances of the annotations from place `i` on, behind `out`. What is
/// no dictionary, is hidden with its layer, or has an appearance that cannot be
/// read is passed over.
pub open spec fn appearances_from(
    doc: DocV,
    items: Seq<ObjV>,
    i: int,
    states: Option<OcStates>,
    out: Seq<AppearanceV>,
) -> Seq<AppearanceV>
    decreases items.len() - i,
{
    if i < 0 || i >= items.len() {
        out
    } else {
        match doc.one_hop(items[i]) {
            Ok(ObjV::Dict(annot)) => if !oc_visible(doc, annot, states) {
                appearances_from(doc, items, i + 1, states, out)
            } else {
                match appearance_of(doc, annot) {
                    Ok(Some(a)) => appearances_from(doc, items, i + 1, states, out.push(a)),
                    _ => appearances_from(doc, items, i + 1, states, out),
                }
            },
            _ => appearances_from(doc, items, i + 1, states, out),
        }
    }
}

/// The appearances of the annotations of a page, in the order in which they are
/// painted.
pub open spec fn page_appearances(doc: DocV, page: DictV, states: Option<OcStates>) -> Seq<
    AppearanceV,
> {
    match dict_get(page, "Annots"@) {
        None => Seq::empty(),
        Some(o) => match doc.one_hop(o) {
            Ok(ObjV::Array(items)) => appearances_from(doc, items, 0, states, Seq::empty()),
            _ => Seq::empty(),
        },
    }
}

/// The states of optional content.
pub open spec fn opt_states(c: Option<&OptionalContent>) -> Option<OcStates> {
    match c {
        Some(c) => Some(c.states),
        None => None,
    }
}

/// Read the appearances of the annotations of a page.
pub fn annotation_appearances(
    reader: &mut DocumentReader,
    page: &Dict,
    optional_content: Option<&OptionalContent>,
) -> (r: Vec<Appearance>)
    requires
        old(reader).wf(),
    ensures
        final(reader).wf(),
        final(reader).doc() == old(reader).doc(),
        appearances_view(r@) == page_appearances(
            old(reader).doc(),
            page@,
            opt_states(optional_content),
        ),
{
    let ghost doc = reader.doc();
    let ghost states = opt_states(optional_content);
    let mut out: Vec<Appearance> = Vec::new();
    proof {
        assert(appearances_view(out@) =~= Seq::empty());
    }
    let items: Vec<Object> = match page.get("Annots") {
        None => {
            return out;
        },
        Some(o) => match crate::resources::hop(reader, o) {
            Ok(Object::Array(items)) => items,
            _ => {
                return out;
            },
        },
    };
    proof {
        lemma_array_view(items);
    }
    let ghost view = objs_view(items@);
    let ghost goal = appearances_from(doc, view, 0, states, Seq::empty());
    let mut i: usize = 0;
    while i < items.len()
        invariant
            i <= items@.len(),
            view == objs_view(items@),
            reader.wf(),
            reader.doc() == doc,
            doc == old(reader).doc(),
            states == opt_states(optional_content),
            goal == page_appearances(doc, page@, states),
            goal == appearances_from(doc, view, i as int, states, appearances_view(out@)),
        decreases items.len() - i,
    {
        proof {
            assert(view[i as int] == items@[i as int]@);
        }
        match crate::resources::hop(reader, &items[i]) {
            Ok(Object::Dict(annot)) => {
                if annotation_oc_visible(reader, &annot, optional_content) {
                    match annotation_appearance(reader, &annot) {
                        Ok(Some(a)) => {
                            let ghost before = appearances_view(out@);
                            let ghost v = a@;
                            out.push(a);
                            proof {
                                assert(appearances_view(out@) =~= before.push(v));
                            }
                        },
                        _ => {},
                    }
                }
            },
            _ => {},
        }
        i = i + 1;
    }
    out
}

// ------------------------------------------------------------------- pages

/// All that is needed to paint a page.
#[derive(Debug)]
pub struct PageContent {
    /// `/MediaBox`: four numbers.
    pub media_box: Vec<Number>,
    /// The content, decoded.
    pub content: Vec<u8>,
    pub resources: PartResources,
    /// The forms, patterns, fonts and masks that the content names.
    pub parts: Vec<ContentPart>,
    /// How the annotations look, in the order in which they are painted.
    pub appearances: Vec<Appearance>,
    /// How the page is turned, clockwise in degrees.
    pub orientation: u16,
}

/// The same as a mathematical value.
pub struct PageV {
    pub media_box: Seq<NumV>,
    pub content: Seq<u8>,
    pub resources: ResV,
    pub parts: Seq<PartV>,
    pub appearances: Seq<AppearanceV>,
    pub orientation: u16,
}

impl View for PageContent {
    type V = PageV;

    open spec fn view(&self) -> PageV {
        PageV {
            media_box: numbers(self.media_box@),
            content: self.content@,
            resources: self.resources@,
            parts: parts_view(self.parts@),
            appearances: appearances_view(self.appearances@),
            orientation: self.orientation,
        }
    }
}

/// Pages as mathematical values.
pub open spec fn pages_view(s: Seq<PageContent>) -> Seq<PageV> {
    s.map_values(|p: PageContent| p@)
}

/// A page. Its size, its content, its resources and its rotation are read in
/// this order, and the first that cannot be read is an error.
pub open spec fn page_value(doc: DocV, id: ObjectId, states: Option<OcStates>) -> Result<
    PageV,
    Seq<char>,
> {
    match doc.resolve(id) {
        Err(e) => Err(e),
        Ok(ObjV::Dict(page)) => match media_box(doc, page) {
            Err(e) => Err(e),
            Ok(media_box) => match page_data(doc, page) {
                Err(e) => Err(e),
                Ok(content) => match page_resources(doc, page) {
                    Err(e) => Err(e),
                    Ok(r) => match content_value(doc, r, 0, Seq::empty(), Scope::Form) {
                        Err(e) => Err(e),
                        Ok((resources, parts)) => match page_rotation(doc, page) {
                            Err(e) => Err(e),
                            Ok(orientation) => Ok(
                                PageV {
                                    media_box,
                                    content,
                                    resources,
                                    parts,
                                    appearances: page_appearances(doc, page, states),
                                    orientation,
                                },
                            ),
                        },
                    },
                },
            },
        },
        Ok(_) => Err("PDF reader: page "@ + id_text(id) + " is not a dict"@),
    }
}

/// Read a page.
pub fn decode_page(
    reader: &mut DocumentReader,
    id: ObjectId,
    optional_content: Option<&OptionalContent>,
) -> (r: Result<PageContent, PdfError>)
    requires
        old(reader).wf(),
    ensures
        final(reader).wf(),
        final(reader).doc() == old(reader).doc(),
        crate::error::outcome(r) == page_value(
            old(reader).doc(),
            id,
            opt_states(optional_content),
        ),
{
    let page: Dict = match reader.resolve(id) {
        Err(e) => {
            return Err(e);
        },
        Ok(Object::Dict(d)) => d,
        Ok(_) => {
            let m: String = cat_id("PDF reader: page ".to_owned(), id);
            return Err(PdfError::Other(cat(m, " is not a dict")));
        },
    };
    let media_box: Vec<Number> = match read_media_box(reader, &page) {
        Ok(b) => b,
        Err(e) => {
            return Err(e);
        },
    };
    let content: Vec<u8> = match page_contents(reader, &page) {
        Ok(b) => b,
        Err(e) => {
            return Err(e);
        },
    };
    let r: Option<Dict> = match read_page_resources(reader, &page) {
        Ok(r) => r,
        Err(e) => {
            return Err(e);
        },
    };
    let (resources, parts): (PartResources, Vec<ContentPart>) = match page_content(
        reader,
        r.as_ref(),
    ) {
        Ok(v) => v,
        Err(e) => {
            return Err(e);
        },
    };
    let appearances: Vec<Appearance> = annotation_appearances(reader, &page, optional_content);
    let orientation: u16 = match resolve_inheritable_attr(reader, &page, "Rotate") {
        Err(e) => {
            return Err(e);
        },
        Ok(Some(Object::Integer(n))) => turned(n),
        Ok(_) => 0,
    };
    Ok(PageContent { media_box, content, resources, parts, appearances, orientation })
}

// ----------------------------------------------------------- the document

/// All that is needed to show a document.
#[derive(Debug)]
pub struct DocumentContent {
    pub pages: Vec<PageContent>,
    pub info: DocumentInfo,
}

/// The same as a mathematical value.
pub struct ContentsV {
    pub pages: Seq<PageV>,
    pub info: InfoV,
}

impl View for DocumentContent {
    type V = ContentsV;

    open spec fn view(&self) -> ContentsV {
        ContentsV { pages: pages_view(self.pages@), info: self.info@ }
    }
}

/// The states of the optional content of a document. Optional content that
/// cannot be read counts as none.
pub open spec fn states_in(doc: DocV, states: Option<OcStates>) -> bool {
    match document_content(doc) {
        Ok(Some(c)) => states is Some && states_of(states->Some_0, c.groups, c.default_config),
        _ => states is None,
    }
}

/// The first `n` pages.
pub open spec fn pages_among(
    doc: DocV,
    ids: Seq<ObjectId>,
    n: int,
    states: Option<OcStates>,
) -> Result<Seq<PageV>, Seq<char>>
    decreases n,
{
    if n <= 0 || n > ids.len() {
        Ok(Seq::empty())
    } else {
        match pages_among(doc, ids, n - 1, states) {
            Err(e) => Err(e),
            Ok(before) => match page_value(doc, ids[n - 1], states) {
                Err(e) => Err(e),
                Ok(p) => Ok(before.push(p)),
            },
        }
    }
}

proof fn lemma_pages_error(
    doc: DocV,
    ids: Seq<ObjectId>,
    n: int,
    m: int,
    states: Option<OcStates>,
)
    requires
        0 <= n <= m <= ids.len(),
        pages_among(doc, ids, n, states) is Err,
    ensures
        pages_among(doc, ids, m, states) == pages_among(doc, ids, n, states),
    decreases m - n,
{
    if n < m {
        lemma_pages_error(doc, ids, n, m - 1, states);
    }
}

/// The pages `ids` of a document with these states of its optional content, and
/// what the document says of itself.
pub open spec fn document_value(
    doc: DocV,
    ids: Seq<ObjectId>,
    states: Option<OcStates>,
) -> Result<ContentsV, Seq<char>> {
    match pages_among(doc, ids, ids.len() as int, states) {
        Err(e) => Err(e),
        Ok(pages) => match document_info(doc) {
            Err(e) => Err(e),
            Ok(info) => Ok(ContentsV { pages, info }),
        },
    }
}

/// A document reads as `r`.
pub open spec fn reads_as(doc: DocV, r: Result<ContentsV, Seq<char>>) -> bool {
    match document_pages(doc) {
        Err(e) => r == Err::<ContentsV, Seq<char>>(e),
        Ok(ids) => exists|states: Option<OcStates>|
            states_in(doc, states) && r == #[trigger] document_value(doc, ids, states),
    }
}

/// Read all that is needed to show a document: its pages, in order, and what
/// it says of itself.
pub fn read_document(reader: &mut DocumentReader) -> (r: Result<DocumentContent, PdfError>)
    requires
        old(reader).wf(),
    ensures
        final(reader).wf(),
        final(reader).doc() == old(reader).doc(),
        reads_as(old(reader).doc(), crate::error::outcome(r)),
{
    let ghost doc = reader.doc();
    let ids: Vec<ObjectId> = match page_leaves(reader) {
        Ok(v) => v,
        Err(e) => {
            return Err(e);
        },
    };
    let oc: Option<OptionalContent> = match optional_content(reader) {
        Ok(c) => c,
        Err(_) => None,
    };
    let content: Option<&OptionalContent> = oc.as_ref();
    let ghost states = opt_states(content);
    proof {
        assert(states_in(doc, states));
    }
    let mut pages: Vec<PageContent> = Vec::new();
    proof {
        assert(pages_view(pages@) =~= Seq::empty());
    }
    let mut i: usize = 0;
    while i < ids.len()
        invariant
            i <= ids@.len(),
            reader.wf(),
            reader.doc() == doc,
            doc == old(reader).doc(),
            document_pages(doc) == Ok::<Seq<ObjectId>, Seq<char>>(ids@),
            states_in(doc, states),
            states == opt_states(content),
            pages_among(doc, ids@, i as int, states) == Ok::<Seq<PageV>, Seq<char>>(
                pages_view(pages@),
            ),
        decreases ids.len() - i,
    {
        let ghost before = pages_view(pages@);
        match decode_page(reader, ids[i], content) {
            Err(e) => {
                proof {
                    lemma_pages_error(doc, ids@, i + 1, ids@.len() as int, states);
                    assert(document_value(doc, ids@, states) == Err::<ContentsV, Seq<char>>(e@));
                }
                return Err(e);
            },
            Ok(p) => {
                let ghost v = p@;
                pages.push(p);
                proof {
                    assert(pages_view(pages@) =~= before.push(v));
                }
            },
        }
        i = i + 1;
    }
    match read_info(reader) {
        Err(e) => {
            proof {
                assert(document_value(doc, ids@, states) == Err::<ContentsV, Seq<char>>(e@));
            }
            Err(e)
        },
        Ok(info) => {
            let r: DocumentContent = DocumentContent { pages, info };
            proof {
                assert(document_value(doc, ids@, states) == Ok::<ContentsV, Seq<char>>(r@));
            }
            Ok(r)
        },
    }
}

// ------------------------------------------------------------------- laws

/// A page is turned by a multiple of 90 degrees below 360.
pub proof fn law_quarter_turns(degrees: i64)
    ensures
        quarter_turns(degrees) % 90 == 0,
        quarter_turns(degrees) < 360,
        degrees as int % 90 == 0 ==> (degrees - quarter_turns(degrees)) % 360 == 0,
{
    let d = degrees as int;
    vstd::arithmetic::div_mod::lemma_fundamental_div_mod(d, 360);
    let q = d / 360;
    let m = d % 360;
    if d % 90 == 0 {
        vstd::arithmetic::div_mod::lemma_mod_multiples_vanish(4 * q, m, 90);
        assert(90 * (4 * q) + m == d);
        vstd::arithmetic::div_mod::lemma_mod_multiples_basic(q, 360);
        assert(d - m == q * 360);
    }
}

/// An annotation that is hidden, or not shown on a screen, has no appearance.
pub proof fn law_hidden_annotation(doc: DocV, annot: DictV)
    requires
        !flags_visible(annot),
    ensures
        appearance_of(doc, annot) == Ok::<Option<AppearanceV>, Seq<char>>(None),
{
}

/// Annotations never keep a page from being read: with layers shown or hidden,
/// a page is read or refused alike, and but for its appearances it is the same.
pub proof fn law_annotations_harmless(
    doc: DocV,
    id: ObjectId,
    a: Option<OcStates>,
    b: Option<OcStates>,
)
    ensures
        match (page_value(doc, id, a), page_value(doc, id, b)) {
            (Ok(p), Ok(q)) => q == (PageV { appearances: q.appearances, ..p }),
            (Err(e), Err(f)) => e == f,
            _ => false,
        },
{
}

/// Streams of content are joined in order, each with a line end behind it.
pub proof fn law_contents_in_order(
    doc: DocV,
    items: Seq<ObjV>,
    id: ObjectId,
    a: Seq<u8>,
    b: Seq<u8>,
)
    requires
        joined(doc, items, items.len() as int) == Ok::<Seq<u8>, Seq<char>>(a),
        doc.stream_bytes(id) == Ok::<Seq<u8>, Seq<char>>(b),
    ensures
        joined(doc, items.push(ObjV::Reference(id)), items.len() as int + 1) == Ok::<Seq<u8>, Seq<char>>(
            a + b + seq![10u8],
        ),
{
    let all = items.push(ObjV::Reference(id));
    assert(all.take(items.len() as int) =~= items);
    lemma_joined_prefix(doc, items, all, items.len() as int);
}

proof fn lemma_joined_prefix(doc: DocV, a: Seq<ObjV>, b: Seq<ObjV>, n: int)
    requires
        0 <= n <= a.len() <= b.len(),
        b.take(a.len() as int) == a,
    ensures
        joined(doc, a, n) == joined(doc, b, n),
    decreases n,
{
    if n > 0 {
        lemma_joined_prefix(doc, a, b, n - 1);
        assert(b.take(a.len() as int)[n - 1] == b[n - 1]);
    }
}

} // verus!
