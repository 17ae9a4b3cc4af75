//! Destinations: places in a document that a bookmark or a link leads to.

use std::collections::HashMap;
use vstd::prelude::*;
use crate::document::{DocV, DocumentReader};
use crate::encoding::opt_text;
use crate::nametree::decode_key_text;
use crate::number::{
    number_is_zero, number_of, object_number, opt_number, real_text, NumV, Number,
};
use crate::objects::{clone_bytes, lemma_array_view, objs_view, ObjV, Object, Real};
use crate::text::{cat, cat_nat, dec, same_text};
use crate::textstring::text_of_bytes;

verus! {

broadcast use vstd::std_specs::hash::group_hash_axioms;

/// A place in a document: a page, and how it is shown.
#[allow(inconsistent_fields)]
#[derive(Debug, Clone, PartialEq)]
pub enum OutlineDestination {
    Xyz { page_index: usize, left: Option<Number>, top: Option<Number>, zoom: Option<Number> },
    Fit { page_index: usize },
    FitH { page_index: usize, top: Option<Number> },
    FitV { page_index: usize, left: Option<Number> },
    FitR { page_index: usize, left: Number, bottom: Number, right: Number, top: Number },
    FitB { page_index: usize },
    FitBH { page_index: usize, top: Option<Number> },
    FitBV { page_index: usize, left: Option<Number> },
}

/// A place in a document as a mathematical value.
#[allow(inconsistent_fields)]
pub enum DestV {
    Xyz { page_index: usize, left: Option<NumV>, top: Option<NumV>, zoom: Option<NumV> },
    Fit { page_index: usize },
    FitH { page_index: usize, top: Option<NumV> },
    FitV { page_index: usize, left: Option<NumV> },
    FitR { page_index: usize, left: NumV, bottom: NumV, right: NumV, top: NumV },
    FitB { page_index: usize },
    FitBH { page_index: usize, top: Option<NumV> },
    FitBV { page_index: usize, left: Option<NumV> },
}

impl View for OutlineDestination {
    type V = DestV;

    open spec fn view(&self) -> DestV {
        match *self {
            OutlineDestination::Xyz { page_index, left, top, zoom } => DestV::Xyz {
                page_index,
                left: opt_number(left),
                top: opt_number(top),
                zoom: opt_number(zoom),
            },
            OutlineDestination::Fit { page_index } => DestV::Fit { page_index },
            OutlineDestination::FitH { page_index, top } => DestV::FitH {
                page_index,
                top: opt_number(top),
            },
            OutlineDestination::FitV { page_index, left } => DestV::FitV {
                page_index,
                left: opt_number(left),
            },
            OutlineDestination::FitR { page_index, left, bottom, right, top } => DestV::FitR {
                page_index,
                left: left@,
                bottom: bottom@,
                right: right@,
                top: top@,
            },
            OutlineDestination::FitB { page_index } => DestV::FitB { page_index },
            OutlineDestination::FitBH { page_index, top } => DestV::FitBH {
                page_index,
                top: opt_number(top),
            },
            OutlineDestination::FitBV { page_index, left } => DestV::FitBV {
                page_index,
                left: opt_number(left),
            },
        }
    }
}

/// What an optional place stands for.
pub open spec fn opt_dest(d: Option<OutlineDestination>) -> Option<DestV> {
    match d {
        Some(v) => Some(v@),
        None => None,
    }
}

impl DestV {
    /// The index of the page.
    pub open spec fn page(self) -> usize {
        match self {
            DestV::Xyz { page_index, .. } => page_index,
            DestV::Fit { page_index } => page_index,
            DestV::FitH { page_index, .. } => page_index,
            DestV::FitV { page_index, .. } => page_index,
            DestV::FitR { page_index, .. } => page_index,
            DestV::FitB { page_index } => page_index,
            DestV::FitBH { page_index, .. } => page_index,
            DestV::FitBV { page_index, .. } => page_index,
        }
    }
}

pub(crate) fn clone_number(n: &Number) -> (r: Number)
    ensures
        r@ == n@,
{
    match n {
        Number::Integer(v) => Number::Integer(*v),
        Number::Real(x) => Number::Real(Real { text: clone_bytes(&x.text) }),
    }
}

fn clone_opt_number(n: &Option<Number>) -> (r: Option<Number>)
    ensures
        opt_number(r) == opt_number(*n),
{
    match n {
        Some(v) => Some(clone_number(v)),
        None => None,
    }
}

impl OutlineDestination {
    /// The index of the page.
    pub fn page_index(&self) -> (r: usize)
        ensures
            r == self@.page(),
    {
        match self {
            OutlineDestination::Xyz { page_index, left, top, zoom } => *page_index,
            OutlineDestination::Fit { page_index } => *page_index,
            OutlineDestination::FitH { page_index, top } => *page_index,
            OutlineDestination::FitV { page_index, left } => *page_index,
            OutlineDestination::FitR { page_index, left, bottom, right, top } => *page_index,
            OutlineDestination::FitB { page_index } => *page_index,
            OutlineDestination::FitBH { page_index, top } => *page_index,
            OutlineDestination::FitBV { page_index, left } => *page_index,
        }
    }

    /// A copy of the place.
    pub fn duplicate(&self) -> (r: OutlineDestination)
        ensures
            r@ == self@,
    {
        match self {
            OutlineDestination::Xyz { page_index, left, top, zoom } => OutlineDestination::Xyz {
                page_index: *page_index,
                left: clone_opt_number(left),
                top: clone_opt_number(top),
                zoom: clone_opt_number(zoom),
            },
            OutlineDestination::Fit { page_index } => OutlineDestination::Fit {
                page_index: *page_index,
            },
            OutlineDestination::FitH { page_index, top } => OutlineDestination::FitH {
                page_index: *page_index,
                top: clone_opt_number(top),
            },
            OutlineDestination::FitV { page_index, left } => OutlineDestination::FitV {
                page_index: *page_index,
                left: clone_opt_number(left),
            },
            OutlineDestination::FitR { page_index, left, bottom, right, top } =>
                OutlineDestination::FitR {
                page_index: *page_index,
                left: clone_number(left),
                bottom: clone_number(bottom),
                right: clone_number(right),
                top: clone_number(top),
            },
            OutlineDestination::FitB { page_index } => OutlineDestination::FitB {
                page_index: *page_index,
            },
            OutlineDestination::FitBH { page_index, top } => OutlineDestination::FitBH {
                page_index: *page_index,
                top: clone_opt_number(top),
            },
            OutlineDestination::FitBV { page_index, left } => OutlineDestination::FitBV {
                page_index: *page_index,
                left: clone_opt_number(left),
            },
        }
    }
}

// ---------------------------------------------------- explicit destinations

/// The number at place `i` of an array, if there is one.
pub open spec fn number_at(items: Seq<ObjV>, i: int) -> Option<NumV> {
    if 0 <= i < items.len() {
        number_of(items[i])
    } else {
        None
    }
}

fn item_number(items: &Vec<Object>, i: usize) -> (r: Option<Number>)
    ensures
        opt_number(r) == number_at(objs_view(items@), i as int),
{
    if i < items.len() {
        proof {
            assert(objs_view(items@)[i as int] == items@[i as int]@);
        }
        object_number(&items[i])
    } else {
        None
    }
}

/// A number other than 0.
pub open spec fn nonzero(n: Option<NumV>) -> Option<NumV> {
    match n {
        Some(v) => if number_is_zero(v) {
            None
        } else {
            Some(v)
        },
        None => None,
    }
}

/// The place that an array describes: a reference to a page of `pages`, the
/// name of a mode, and the numbers that the mode takes.
pub open spec fn explicit_dest(items: Seq<ObjV>, pages: Map<u32, usize>) -> Option<DestV> {
    if items.len() < 2 {
        None
    } else {
        match (items[0], items[1]) {
            (ObjV::Reference(id), ObjV::Name(mode)) => if pages.contains_key(id.number) {
                dest_in_mode(items, pages[id.number], mode)
            } else {
                None
            },
            _ => None,
        }
    }
}

/// The place on page `page_index` that a mode and its numbers describe.
pub open spec fn dest_in_mode(items: Seq<ObjV>, page_index: usize, mode: Seq<char>) -> Option<
    DestV,
> {
    if mode == "XYZ"@ {
        Some(
            DestV::Xyz {
                page_index,
                left: number_at(items, 2),
                top: number_at(items, 3),
                zoom: nonzero(number_at(items, 4)),
            },
        )
    } else if mode == "Fit"@ {
        Some(DestV::Fit { page_index })
    } else if mode == "FitH"@ {
        Some(DestV::FitH { page_index, top: number_at(items, 2) })
    } else if mode == "FitV"@ {
        Some(DestV::FitV { page_index, left: number_at(items, 2) })
    } else if mode == "FitR"@ {
        match (number_at(items, 2), number_at(items, 3), number_at(items, 4), number_at(items, 5)) {
            (Some(left), Some(bottom), Some(right), Some(top)) => Some(
                DestV::FitR { page_index, left, bottom, right, top },
            ),
            _ => None,
        }
    } else if mode == "FitB"@ {
        Some(DestV::FitB { page_index })
    } else if mode == "FitBH"@ {
        Some(DestV::FitBH { page_index, top: number_at(items, 2) })
    } else if mode == "FitBV"@ {
        Some(DestV::FitBV { page_index, left: number_at(items, 2) })
    } else {
        None
    }
}

/// The place that an array describes; `None` where it describes none.
pub fn decode_explicit_dest(items: &Vec<Object>, pages: &HashMap<u32, usize>) -> (r: Option<
    OutlineDestination,
>)
    ensures
        opt_dest(r) == explicit_dest(objs_view(items@), pages@),
{
    if items.len() < 2 {
        return None;
    }
    proof {
        assert(objs_view(items@)[0] == items@[0]@);
        assert(objs_view(items@)[1] == items@[1]@);
    }
    let number: u32 = match &items[0] {
        Object::Reference(id) => id.number,
        _ => {
            return None;
        },
    };
    let mode: &str = match &items[1] {
        Object::Name(n) => n.as_str(),
        _ => {
            return None;
        },
    };
    let page_index: usize = match pages.get(&number) {
        Some(p) => *p,
        None => {
            return None;
        },
    };
    if same_text(mode, "XYZ") {
        let zoom: Option<Number> = match item_number(items, 4) {
            Some(z) => if z.is_zero() {
                None
            } else {
                Some(z)
            },
            None => None,
        };
        Some(
            OutlineDestination::Xyz {
                page_index,
                left: item_number(items, 2),
                top: item_number(items, 3),
                zoom,
            },
        )
    } else if same_text(mode, "Fit") {
        Some(OutlineDestination::Fit { page_index })
    } else if same_text(mode, "FitH") {
        Some(OutlineDestination::FitH { page_index, top: item_number(items, 2) })
    } else if same_text(mode, "FitV") {
        Some(OutlineDestination::FitV { page_index, left: item_number(items, 2) })
    } else if same_text(mode, "FitR") {
        match (
            item_number(items, 2),
            item_number(items, 3),
            item_number(items, 4),
            item_number(items, 5),
        ) {
            (Some(left), Some(bottom), Some(right), Some(top)) => Some(
                OutlineDestination::FitR { page_index, left, bottom, right, top },
            ),
            _ => None,
        }
    } else if same_text(mode, "FitB") {
        Some(OutlineDestination::FitB { page_index })
    } else if same_text(mode, "FitBH") {
        Some(OutlineDestination::FitBH { page_index, top: item_number(items, 2) })
    } else if same_text(mode, "FitBV") {
        Some(OutlineDestination::FitBV { page_index, left: item_number(items, 2) })
    } else {
        None
    }
}

/// An item of an array as text.
pub open spec fn item_text(o: ObjV) -> Seq<char> {
    match o {
        ObjV::Reference(id) => dec(id.number as int) + " 0 R"@,
        ObjV::Name(n) => "/"@ + n,
        ObjV::Integer(n) => dec(n as int),
        ObjV::Real(t) => real_text(t),
        ObjV::Null => "null"@,
        _ => "?"@,
    }
}

/// The first `n` items of an array as text, behind the opening bracket.
pub open spec fn items_text(items: Seq<ObjV>, n: int) -> Seq<char>
    decreases n,
{
    if n <= 0 {
        "["@
    } else if n == 1 {
        items_text(items, 0) + item_text(items[0])
    } else {
        items_text(items, n - 1) + " "@ + item_text(items[n - 1])
    }
}

/// An array as text: its items in brackets, with a space between them.
pub open spec fn array_text(items: Seq<ObjV>) -> Seq<char> {
    items_text(items, items.len() as int) + "]"@
}

fn item_as_text(o: &Object) -> (r: String)
    ensures
        r@ == item_text(o@),
{
    match o {
        Object::Reference(id) => {
            let r: String = cat(cat_nat(String::new(), id.number as u64), " 0 R");
            proof {
                assert(r@ =~= item_text(o@));
            }
            r
        },
        Object::Name(n) => cat("/".to_owned(), n.as_str()),
        Object::Integer(n) => crate::text::int_text(*n),
        Object::Real(x) => x.to_text(),
        Object::Null => "null".to_owned(),
        _ => "?".to_owned(),
    }
}

/// An array as text.
pub fn format_array_dest(items: &Vec<Object>) -> (r: String)
    ensures
        r@ == array_text(objs_view(items@)),
{
    let ghost view = objs_view(items@);
    let mut out: String = "[".to_owned();
    let mut i: usize = 0;
    while i < items.len()
        invariant
            i <= items@.len(),
            view == objs_view(items@),
            out@ == items_text(view, i as int),
        decreases items.len() - i,
    {
        proof {
            assert(view[i as int] == items@[i as int]@);
        }
        if i > 0 {
            out = cat(out, " ");
        }
        let t: String = item_as_text(&items[i]);
        out = cat(out, t.as_str());
        i = i + 1;
    }
    cat(out, "]")
}

// ------------------------------------------------------- named destinations

/// What a name leads to: a place, if it could be made out, and a text where
/// it could not.
pub type TargetV = (Option<DestV>, Option<Seq<char>>);

/// A name and what it leads to.
#[derive(Debug, Clone)]
pub struct NamedDestination {
    /// The name as text.
    pub name: String,
    /// The name as it is written.
    pub raw_name: Vec<u8>,
    /// The place that it leads to, if that could be made out.
    pub destination: Option<OutlineDestination>,
    /// What it leads to as text, where the place could not be made out.
    pub raw_dest: Option<String>,
}

impl View for NamedDestination {
    type V = (Seq<u8>, TargetV);

    open spec fn view(&self) -> (Seq<u8>, TargetV) {
        (self.raw_name@, (opt_dest(self.destination), opt_text(self.raw_dest)))
    }
}

/// The names of a document in byte order, with what they lead to.
pub struct NamedDests {
    pub entries: Vec<NamedDestination>,
}

/// Names with what they lead to, as mathematical values.
pub type NamesV = Seq<(Seq<u8>, TargetV)>;

impl View for NamedDests {
    type V = NamesV;

    open spec fn view(&self) -> NamesV {
        self.entries@.map_values(|e: NamedDestination| e@)
    }
}

/// What a name leads to, from place `i` on.
pub open spec fn named_from(names: NamesV, name: Seq<u8>, i: int) -> Option<TargetV>
    decreases names.len() - i,
{
    if i < 0 || i >= names.len() {
        None
    } else if names[i].0 == name {
        Some(names[i].1)
    } else {
        named_from(names, name, i + 1)
    }
}

/// The place that a name leads to.
pub open spec fn named_place(names: NamesV, name: Seq<u8>) -> Option<DestV> {
    match named_from(names, name, 0) {
        Some((d, _)) => d,
        None => None,
    }
}

impl NamedDests {
    /// No names.
    pub fn new() -> (r: NamedDests)
        ensures
            r@ == Seq::<(Seq<u8>, TargetV)>::empty(),
            r.entries@.len() == 0,
    {
        let r: NamedDests = NamedDests { entries: Vec::new() };
        proof {
            assert(r@ =~= Seq::<(Seq<u8>, TargetV)>::empty());
        }
        r
    }

    /// The place that a name leads to.
    pub fn place(&self, name: &[u8]) -> (r: Option<OutlineDestination>)
        ensures
            opt_dest(r) == named_place(self@, name@),
    {
        let mut i: usize = 0;
        while i < self.entries.len()
            invariant
                i <= self.entries@.len(),
                named_from(self@, name@, 0) == named_from(self@, name@, i as int),
            decreases self.entries.len() - i,
        {
            let e: &NamedDestination = &self.entries[i];
            proof {
                assert(self@[i as int] == e@);
            }
            if crate::crypt::same_bytes(e.raw_name.as_slice(), name) {
                return match &e.destination {
                    Some(d) => Some(d.duplicate()),
                    None => None,
                };
            }
            i = i + 1;
        }
        None
    }
}

/// What a name found in a bookmark or link leads to: the place, if the name
/// is among `names`, and the name itself as text.
pub open spec fn named_result(names: Option<NamesV>, name: Seq<u8>) -> TargetV {
    (
        match names {
            Some(n) => named_place(n, name),
            None => None,
        },
        Some("named:"@ + text_of_bytes(name)),
    )
}

/// What optional names stand for.
pub open spec fn opt_names(n: Option<&NamedDests>) -> Option<NamesV> {
    match n {
        Some(v) => Some(v@),
        None => None,
    }
}

/// `r` is the target `t`.
pub open spec fn is_target(
    r: (Option<OutlineDestination>, Option<String>),
    t: TargetV,
) -> bool {
    t == (opt_dest(r.0), opt_text(r.1))
}

fn named_lookup(names: Option<&NamedDests>, name: &[u8]) -> (r: (
    Option<OutlineDestination>,
    Option<String>,
))
    ensures
        is_target(r, named_result(opt_names(names), name@)),
{
    let text: String = decode_key_text(name);
    let display: String = cat("named:".to_owned(), text.as_str());
    let dest: Option<OutlineDestination> = match names {
        Some(n) => n.place(name),
        None => None,
    };
    (dest, Some(display))
}

/// What a destination leads to: an array describes a place, and a name or
/// string is looked up among `names`.
pub open spec fn dest_value(
    doc: DocV,
    o: ObjV,
    pages: Map<u32, usize>,
    names: Option<NamesV>,
) -> TargetV {
    match doc.deref(o) {
        Err(_) => (None, Some("<unresolvable>"@)),
        Ok(ObjV::Array(items)) => match explicit_dest(items, pages) {
            Some(d) => (Some(d), None),
            None => (None, Some(array_text(items))),
        },
        Ok(ObjV::Name(n)) => named_result(names, vstd::utf8::encode_utf8(n)),
        Ok(ObjV::LiteralString(b)) => named_result(names, b),
        Ok(ObjV::HexString(b)) => named_result(names, b),
        Ok(_) => (None, None),
    }
}

/// What a destination leads to.
pub fn decode_dest_value(
    reader: &mut DocumentReader,
    dest: Object,
    pages: &HashMap<u32, usize>,
    names: Option<&NamedDests>,
) -> (r: (Option<OutlineDestination>, Option<String>))
    requires
        old(reader).wf(),
    ensures
        final(reader).wf(),
        final(reader).doc() == old(reader).doc(),
        is_target(r, dest_value(old(reader).doc(), dest@, pages@, opt_names(names))),
{
    match reader.deref(dest) {
        Err(_) => (None, Some("<unresolvable>".to_owned())),
        Ok(Object::Array(items)) => {
            proof {
                lemma_array_view(items);
            }
            match decode_explicit_dest(&items, pages) {
                Some(d) => (Some(d), None),
                None => (None, Some(format_array_dest(&items))),
            }
        },
        Ok(Object::Name(n)) => named_lookup(names, n.as_str().as_bytes()),
        Ok(Object::LiteralString(b)) => named_lookup(names, b.as_slice()),
        Ok(Object::HexString(b)) => named_lookup(names, b.as_slice()),
        Ok(_) => (None, None),
    }
}

// ------------------------------------------------------------------- laws

/// An array describes a place only on a page that is listed, and on that page.
pub proof fn law_explicit_page(items: Seq<ObjV>, pages: Map<u32, usize>)
    ensures
        explicit_dest(items, pages) matches Some(d) ==> (items[0] matches ObjV::Reference(id)
            && pages.contains_key(id.number) && d.page() == pages[id.number]),
{
}

/// A name always stays readable, whether or not it leads to a place.
pub proof fn law_name_kept(
    doc: DocV,
    o: ObjV,
    name: Seq<u8>,
    pages: Map<u32, usize>,
    names: Option<NamesV>,
)
    requires
        doc.deref(o) == Ok::<ObjV, Seq<char>>(ObjV::LiteralString(name)) || doc.deref(o) == Ok::<
            ObjV,
            Seq<char>,
        >(ObjV::HexString(name)),
    ensures
        dest_value(doc, o, pages, names).1 == Some("named:"@ + text_of_bytes(name)),
{
}

} // verus!
