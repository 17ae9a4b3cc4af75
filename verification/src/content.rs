//! What content is made of: the data of a page or a form, the resources that it
//! names, and the forms, patterns, fonts and masks among these, which are
//! content themselves.

use vstd::prelude::*;
use crate::document::{cache_key, DocV, DocumentReader};
use crate::encoding::{differences_from, parse_encoding_differences, EncodingDifferences};
use crate::error::PdfError;
use crate::link::{array_numbers, get_numbers, opt_numbers};
use crate::number::{
    number_is_finite, number_is_zero, number_of, numbers, object_number, NumV, Number,
};
use crate::objects::{dict_get, Dict, DictV, ObjV, Object, ObjectId, Real, Stream};
use crate::pages::{dict_name, hop_dict, is_named, read_hop_dict};
use crate::resources::{category, hop, resolve_category, ResourceKind};
use crate::stream::{decode_stream, dict_integer, get_integer, stream_data};
use crate::text::same_text;

verus! {

// ------------------------------------------------------------------ values

/// The resources that content names, by category, with all that they refer to
/// in place of the references.
#[derive(Debug)]
pub struct PartResources {
    pub ext_gstate: Option<Dict>,
    pub fonts: Option<Dict>,
    pub shading: Option<Dict>,
    pub color_space: Option<Dict>,
    pub properties: Option<Dict>,
    pub pattern: Option<Dict>,
}

/// The same as a mathematical value.
pub struct ResV {
    pub ext_gstate: Option<DictV>,
    pub fonts: Option<DictV>,
    pub shading: Option<DictV>,
    pub color_space: Option<DictV>,
    pub properties: Option<DictV>,
    pub pattern: Option<DictV>,
}

/// What an optional dictionary stands for.
pub open spec fn dict_opt(d: Option<Dict>) -> Option<DictV> {
    match d {
        Some(v) => Some(v@),
        None => None,
    }
}

impl View for PartResources {
    type V = ResV;

    open spec fn view(&self) -> ResV {
        ResV {
            ext_gstate: dict_opt(self.ext_gstate),
            fonts: dict_opt(self.fonts),
            shading: dict_opt(self.shading),
            color_space: dict_opt(self.color_space),
            properties: dict_opt(self.properties),
            pattern: dict_opt(self.pattern),
        }
    }
}

/// No resources.
pub open spec fn no_resources() -> ResV {
    ResV {
        ext_gstate: None,
        fonts: None,
        shading: None,
        color_space: None,
        properties: None,
        pattern: None,
    }
}

impl PartResources {
    /// No resources.
    pub fn none() -> (r: PartResources)
        ensures
            r@ == no_resources(),
    {
        PartResources {
            ext_gstate: None,
            fonts: None,
            shading: None,
            color_space: None,
            properties: None,
            pattern: None,
        }
    }
}

/// What a part of content is.
#[derive(Debug)]
pub enum PartKind {
    /// A form, or the appearance of an annotation.
    Form,
    /// A pattern that repeats a cell.
    Tiling { xstep: Number, ystep: Number, paint_type: i64 },
    /// A font whose glyphs are content; they are its parts.
    Type3Font { encoding: EncodingDifferences },
    /// A glyph; one that is only a shape takes the colour that is current.
    Glyph { shape_only: bool },
    /// A mask, by the luminosity or by the opacity of what it paints.
    SoftMask { luminosity: bool },
}

/// The same as a mathematical value.
pub enum KindV {
    Form,
    Tiling { xstep: NumV, ystep: NumV, paint_type: i64 },
    Type3Font { encoding: Seq<(u8, Seq<char>)> },
    Glyph { shape_only: bool },
    SoftMask { luminosity: bool },
}

impl View for PartKind {
    type V = KindV;

    open spec fn view(&self) -> KindV {
        match *self {
            PartKind::Form => KindV::Form,
            PartKind::Tiling { xstep, ystep, paint_type } => KindV::Tiling {
                xstep: xstep@,
                ystep: ystep@,
                paint_type,
            },
            PartKind::Type3Font { encoding } => KindV::Type3Font { encoding: encoding@ },
            PartKind::Glyph { shape_only } => KindV::Glyph { shape_only },
            PartKind::SoftMask { luminosity } => KindV::SoftMask { luminosity },
        }
    }
}

/// A part of content.
#[derive(Debug)]
pub struct ContentPart {
    /// The name by which the content around it refers to it.
    pub name: String,
    pub kind: PartKind,
    /// `/Matrix`, or the `/FontMatrix` of a font: six numbers.
    pub matrix: Vec<Number>,
    /// `/BBox`: four numbers, if it has them.
    pub bbox: Option<Vec<Number>>,
    /// The data, decoded.
    pub content: Vec<u8>,
    pub resources: PartResources,
    /// The forms, patterns, fonts and masks that it names.
    pub parts: Vec<ContentPart>,
}

/// The same as a mathematical value.
pub struct PartV {
    pub name: Seq<char>,
    pub kind: KindV,
    pub matrix: Seq<NumV>,
    pub bbox: Option<Seq<NumV>>,
    pub content: Seq<u8>,
    pub resources: ResV,
    pub parts: Seq<PartV>,
}

/// The value that a part stands for.
pub open spec fn part_view(p: ContentPart) -> PartV
    decreases p,
{
    PartV {
        name: p.name@,
        kind: p.kind@,
        matrix: numbers(p.matrix@),
        bbox: opt_numbers(p.bbox),
        content: p.content@,
        resources: p.resources@,
        parts: Seq::new(
            p.parts@.len(),
            |i: int|
                if 0 <= i < p.parts@.len() {
                    part_view(p.parts@[i])
                } else {
                    arbitrary()
                },
        ),
    }
}

impl View for ContentPart {
    type V = PartV;

    open spec fn view(&self) -> PartV {
        part_view(*self)
    }
}

/// The values that parts stand for.
pub open spec fn parts_view(s: Seq<ContentPart>) -> Seq<PartV> {
    s.map_values(|p: ContentPart| p@)
}

// ---------------------------------------------------------------- geometry

/// The matrix that changes nothing.
pub open spec fn identity_matrix() -> Seq<NumV> {
    seq![
        NumV::Integer(1),
        NumV::Integer(0),
        NumV::Integer(0),
        NumV::Integer(1),
        NumV::Integer(0),
        NumV::Integer(0),
    ]
}

/// The digits of one thousandth.
pub open spec fn thousandth() -> Seq<u8> {
    seq![48u8, 46, 48, 48, 49]
}

/// The matrix of fonts whose glyphs are drawn in units of one thousandth.
pub open spec fn thousandth_matrix() -> Seq<NumV> {
    seq![
        NumV::Real(thousandth()),
        NumV::Integer(0),
        NumV::Integer(0),
        NumV::Real(thousandth()),
        NumV::Integer(0),
        NumV::Integer(0),
    ]
}

/// The `/Matrix` of a form or pattern: six numbers, or else the matrix that
/// changes nothing.
pub open spec fn matrix_of(d: DictV) -> Seq<NumV> {
    match array_numbers(dict_get(d, "Matrix"@), 6) {
        Some(m) => m,
        None => identity_matrix(),
    }
}

/// The `/FontMatrix` of a font. An array of six that are not all numbers
/// changes nothing; without an array of six, the units are thousandths.
pub open spec fn font_matrix_of(d: DictV) -> Seq<NumV> {
    match dict_get(d, "FontMatrix"@) {
        Some(ObjV::Array(items)) => if items.len() == 6 {
            match array_numbers(dict_get(d, "FontMatrix"@), 6) {
                Some(m) => m,
                None => identity_matrix(),
            }
        } else {
            thousandth_matrix()
        },
        _ => thousandth_matrix(),
    }
}

fn read_identity() -> (r: Vec<Number>)
    ensures
        numbers(r@) == identity_matrix(),
{
    let r: Vec<Number> = vec![
        Number::Integer(1),
        Number::Integer(0),
        Number::Integer(0),
        Number::Integer(1),
        Number::Integer(0),
        Number::Integer(0),
    ];
    proof {
        assert(numbers(r@) =~= identity_matrix());
    }
    r
}

fn one_thousandth() -> (r: Number)
    ensures
        r@ == NumV::Real(thousandth()),
{
    let digits: [u8; 5] = [48, 46, 48, 48, 49];
    let r: Real = Real::new(&digits);
    proof {
        assert(r@ =~= thousandth());
    }
    Number::Real(r)
}

fn form_matrix(d: &Dict) -> (r: Vec<Number>)
    ensures
        numbers(r@) == matrix_of(d@),
{
    match get_numbers(d, "Matrix", 6) {
        Some(m) => m,
        None => read_identity(),
    }
}

fn font_matrix(d: &Dict) -> (r: Vec<Number>)
    ensures
        numbers(r@) == font_matrix_of(d@),
{
    if let Some(Object::Array(items)) = d.get("FontMatrix") {
        proof {
            crate::objects::lemma_array_view(*items);
        }
        if items.len() == 6 {
            return match get_numbers(d, "FontMatrix", 6) {
                Some(m) => m,
                None => read_identity(),
            };
        }
    }
    let r: Vec<Number> = vec![
        one_thousandth(),
        Number::Integer(0),
        Number::Integer(0),
        one_thousandth(),
        Number::Integer(0),
        Number::Integer(0),
    ];
    proof {
        assert(numbers(r@) =~= thousandth_matrix());
    }
    r
}

// ------------------------------------------------------------------ glyphs

/// White space, or a character of a number.
pub open spec fn is_operand_byte(b: u8) -> bool {
    b == 9 || b == 10 || b == 12 || b == 13 || b == 32 || 48 <= b <= 57 || b == 43 || b == 45 || b
        == 46 || b == 101 || b == 69
}

/// The first operator of a glyph, at place `p` or behind it, is `d1`.
pub open spec fn shape_from(s: Seq<u8>, p: int) -> bool
    decreases s.len() - p,
{
    if p < 0 || p >= s.len() {
        false
    } else if is_operand_byte(s[p]) {
        shape_from(s, p + 1)
    } else {
        p + 1 < s.len() && s[p] == 100 && s[p + 1] == 49
    }
}

/// Whether a glyph is only a shape: its first operator is `d1`.
pub fn charproc_is_shape_only(bytes: &[u8]) -> (r: bool)
    ensures
        r == shape_from(bytes@, 0),
{
    let mut i: usize = 0;
    while i < bytes.len()
        invariant
            i <= bytes@.len(),
            shape_from(bytes@, 0) == shape_from(bytes@, i as int),
        decreases bytes.len() - i,
    {
        let c: u8 = bytes[i];
        if c == 9 || c == 10 || c == 12 || c == 13 || c == 32 || (48 <= c && c <= 57) || c == 43
            || c == 45 || c == 46 || c == 101 || c == 69 {
            i = i + 1;
        } else {
            return c == 100 && bytes.len() - i > 1 && bytes[i + 1] == 49;
        }
    }
    false
}

/// An encoding names a glyph for some code; of two entries for one code the
/// later counts.
pub open spec fn names_glyph(encoding: Seq<(u8, Seq<char>)>, name: Seq<char>) -> bool {
    exists|i: int| #[trigger] names_at(encoding, i, name)
}

/// The entry at place `i` names a glyph, and none behind it is for its code.
pub open spec fn names_at(encoding: Seq<(u8, Seq<char>)>, i: int, name: Seq<char>) -> bool {
    &&& 0 <= i < encoding.len()
    &&& encoding[i].1 == name
    &&& forall|j: int| i < j < encoding.len() ==> (#[trigger] encoding[j]).0 != encoding[i].0
}

fn is_referenced(encoding: &EncodingDifferences, name: &str) -> (r: bool)
    ensures
        r == names_glyph(encoding@, name@),
{
    let n: usize = encoding.overrides.len();
    let mut i: usize = 0;
    while i < n
        invariant
            i <= n == encoding.overrides@.len(),
            encoding@.len() == n,
            forall|k: int| 0 <= k < i ==> !#[trigger] names_at(encoding@, k, name@),
        decreases n - i,
    {
        proof {
            assert(encoding@[i as int] == encoding.overrides@[i as int]@);
        }
        if same_text(encoding.overrides[i].glyph_name.as_str(), name) {
            let code: u8 = encoding.overrides[i].code;
            let mut last: bool = true;
            let mut j: usize = i + 1;
            while j < n
                invariant
                    i < j <= n,
                    n == encoding.overrides@.len(),
                    encoding@.len() == n,
                    code == encoding@[i as int].0,
                    last == (forall|k: int|
                        i < k < j ==> (#[trigger] encoding@[k]).0 != encoding@[i as int].0),
                decreases n - j,
            {
                proof {
                    assert(encoding@[j as int] == encoding.overrides@[j as int]@);
                }
                if encoding.overrides[j].code == code {
                    last = false;
                }
                j = j + 1;
            }
            if last {
                proof {
                    assert(names_at(encoding@, i as int, name@));
                }
                return true;
            }
        }
        i = i + 1;
    }
    false
}

// ------------------------------------------------------------------- parts

/// How deep content may be nested in content.
pub const MAX_XOBJECT_DEPTH: usize = 12;

/// What content belongs to.
#[derive(Debug, Clone, Copy, PartialEq, Eq, Structural)]
pub enum Scope {
    /// A page or a form: it may name forms, patterns, fonts and masks.
    Form,
    /// The cell of a pattern: it may name forms and patterns.
    Cell,
    /// A glyph: it may name forms, patterns and fonts.
    Glyph,
}

/// The resources of content and the parts that it names.
pub type ContentV = Result<(ResV, Seq<PartV>), Seq<char>>;

/// Parts, or the description of an error.
pub type PartsV = Result<Seq<PartV>, Seq<char>>;

/// The categories of resources, but for patterns.
pub open spec fn plain_resources(doc: DocV, r: DictV) -> Result<ResV, Seq<char>> {
    match category(doc, ResourceKind::ExtGState, r) {
        Err(e) => Err(e),
        Ok(ext_gstate) => match category(doc, ResourceKind::Font, r) {
            Err(e) => Err(e),
            Ok(fonts) => match category(doc, ResourceKind::Shading, r) {
                Err(e) => Err(e),
                Ok(shading) => match category(doc, ResourceKind::ColorSpace, r) {
                    Err(e) => Err(e),
                    Ok(color_space) => match category(doc, ResourceKind::Properties, r) {
                        Err(e) => Err(e),
                        Ok(properties) => Ok(
                            ResV {
                                ext_gstate,
                                fonts,
                                shading,
                                color_space,
                                properties,
                                pattern: None,
                            },
                        ),
                    },
                },
            },
        },
    }
}

/// The resources of content and the parts that it names. The forms that are
/// being read around it are in `visited`.
pub open spec fn content_value(
    doc: DocV,
    r: Option<DictV>,
    depth: int,
    visited: Seq<u64>,
    scope: Scope,
) -> ContentV
    decreases MAX_XOBJECT_DEPTH + 1 - depth, 5int, 0int,
{
    match r {
        None => Ok((no_resources(), Seq::empty())),
        Some(r) => match plain_resources(doc, r) {
            Err(e) => Err(e),
            Ok(plain) => match forms_value(doc, r, depth, visited) {
                Err(e) => Err(e),
                Ok(forms) => match category(doc, ResourceKind::Pattern, r) {
                    Err(e) => Err(e),
                    Ok(pattern) => match tilings_value(doc, r, depth) {
                        Err(e) => Err(e),
                        Ok(tilings) => {
                            let fonts = if scope == Scope::Cell {
                                Ok(Seq::empty())
                            } else {
                                type3_value(doc, r, depth)
                            };
                            match fonts {
                                Err(e) => Err(e),
                                Ok(fonts) => {
                                    let masks = if scope == Scope::Form {
                                        masks_value(doc, r, depth, visited)
                                    } else {
                                        Ok(Seq::empty())
                                    };
                                    match masks {
                                        Err(e) => Err(e),
                                        Ok(masks) => Ok(
                                            (
                                                ResV { pattern, ..plain },
                                                forms + tilings + fonts + masks,
                                            ),
                                        ),
                                    }
                                },
                            }
                        },
                    },
                },
            },
        },
    }
}

/// The content of a stream as a part. A stream that cannot be decoded, or one
/// that is nested too deep, is none.
pub open spec fn form_part(
    doc: DocV,
    name: Seq<char>,
    kind: KindV,
    d: DictV,
    data: Seq<u8>,
    depth: int,
    visited: Seq<u64>,
) -> Result<Option<PartV>, Seq<char>>
    decreases MAX_XOBJECT_DEPTH + 1 - depth, 1int, 0int,
{
    if depth >= MAX_XOBJECT_DEPTH {
        Ok(None)
    } else {
        match stream_data(d, data) {
            Err(_) => Ok(None),
            Ok(content) => match hop_dict(doc, d, "Resources"@) {
                Err(e) => Err(e),
                Ok(r) => match content_value(doc, r, depth + 1, visited, Scope::Form) {
                    Err(e) => Err(e),
                    Ok((resources, parts)) => Ok(
                        Some(
                            PartV {
                                name,
                                kind,
                                matrix: matrix_of(d),
                                bbox: array_numbers(dict_get(d, "BBox"@), 4),
                                content,
                                resources,
                                parts,
                            },
                        ),
                    ),
                },
            },
        }
    }
}

/// The number of what an object refers to, if it is a reference.
pub open spec fn target(o: ObjV) -> Option<ObjectId> {
    match o {
        ObjV::Reference(id) => Some(id),
        _ => None,
    }
}

/// What is being read is read already.
pub open spec fn entered(id: Option<ObjectId>, visited: Seq<u64>) -> bool {
    id is Some && visited.contains(cache_key(id->Some_0))
}

/// What is being read, with one more.
pub open spec fn entering(id: Option<ObjectId>, visited: Seq<u64>) -> Seq<u64> {
    match id {
        Some(id) => visited.push(cache_key(id)),
        None => visited,
    }
}

/// `out` with a part, if there is one.
pub open spec fn with_part(out: Seq<PartV>, p: Option<PartV>) -> Seq<PartV> {
    match p {
        Some(v) => out.push(v),
        None => out,
    }
}

/// The forms among resources.
pub open spec fn forms_value(doc: DocV, r: DictV, depth: int, visited: Seq<u64>) -> PartsV
    decreases MAX_XOBJECT_DEPTH + 1 - depth, 3int, 0int,
{
    if depth >= MAX_XOBJECT_DEPTH {
        Ok(Seq::empty())
    } else {
        match hop_dict(doc, r, "XObject"@) {
            Err(e) => Err(e),
            Ok(None) => Ok(Seq::empty()),
            Ok(Some(d)) => forms_from(doc, d, 0, depth, visited, Seq::empty()),
        }
    }
}

/// The forms among the entries from place `i` on, behind `out`. One that cannot
/// be found, or that is being read around this place, is left out.
pub open spec fn forms_from(
    doc: DocV,
    d: DictV,
    i: int,
    depth: int,
    visited: Seq<u64>,
    out: Seq<PartV>,
) -> PartsV
    decreases MAX_XOBJECT_DEPTH + 1 - depth, 2int, d.len() - i,
{
    if i < 0 || i >= d.len() {
        Ok(out)
    } else {
        match doc.one_hop(d[i].1) {
            Ok(ObjV::Stream(sd, data)) => if dict_name(sd, "Subtype"@) != Some("Form"@) || entered(
                target(d[i].1),
                visited,
            ) {
                forms_from(doc, d, i + 1, depth, visited, out)
            } else {
                match form_part(
                    doc,
                    d[i].0,
                    KindV::Form,
                    sd,
                    data,
                    depth,
                    entering(target(d[i].1), visited),
                ) {
                    Err(e) => Err(e),
                    Ok(p) => forms_from(doc, d, i + 1, depth, visited, with_part(out, p)),
                }
            },
            _ => forms_from(doc, d, i + 1, depth, visited, out),
        }
    }
}

/// The tiling patterns among resources.
pub open spec fn tilings_value(doc: DocV, r: DictV, depth: int) -> PartsV
    decreases MAX_XOBJECT_DEPTH + 1 - depth, 3int, 0int,
{
    if depth >= MAX_XOBJECT_DEPTH {
        Ok(Seq::empty())
    } else {
        match hop_dict(doc, r, "Pattern"@) {
            Err(e) => Err(e),
            Ok(None) => Ok(Seq::empty()),
            Ok(Some(d)) => tilings_from(doc, d, 0, depth, Seq::empty()),
        }
    }
}

/// The tiling patterns among the entries from place `i` on, behind `out`.
pub open spec fn tilings_from(doc: DocV, d: DictV, i: int, depth: int, out: Seq<PartV>) -> PartsV
    decreases MAX_XOBJECT_DEPTH + 1 - depth, 2int, d.len() - i,
{
    if i < 0 || i >= d.len() {
        Ok(out)
    } else {
        match doc.one_hop(d[i].1) {
            Err(e) => Err(e),
            Ok(ObjV::Stream(sd, data)) => if dict_integer(sd, "PatternType"@) != Some(1i64) {
                tilings_from(doc, d, i + 1, depth, out)
            } else {
                match tiling_part(doc, d[i].0, sd, data, depth) {
                    Err(e) => Err(e),
                    Ok(p) => tilings_from(doc, d, i + 1, depth, with_part(out, p)),
                }
            },
            Ok(_) => tilings_from(doc, d, i + 1, depth, out),
        }
    }
}

/// A step of a pattern: a number that is finite and other than 0 in single
/// precision.
pub open spec fn step_of(d: DictV, key: Seq<char>) -> Option<NumV> {
    match dict_get(d, key) {
        Some(o) => match number_of(o) {
            Some(n) => if number_is_zero(n) || !number_is_finite(n) {
                None
            } else {
                Some(n)
            },
            None => None,
        },
        None => None,
    }
}

/// The box of a pattern: four numbers that are finite in single precision.
pub open spec fn cell_box(d: DictV) -> Option<Seq<NumV>> {
    match array_numbers(dict_get(d, "BBox"@), 4) {
        Some(b) => if forall|i: int| 0 <= i < b.len() ==> number_is_finite(#[trigger] b[i]) {
            Some(b)
        } else {
            None
        },
        None => None,
    }
}

/// A tiling pattern as a part. One without a box or without steps, or one that
/// cannot be decoded, is none.
pub open spec fn tiling_part(
    doc: DocV,
    name: Seq<char>,
    d: DictV,
    data: Seq<u8>,
    depth: int,
) -> Result<Option<PartV>, Seq<char>>
    decreases MAX_XOBJECT_DEPTH + 1 - depth, 1int, 0int,
{
    match (cell_box(d), step_of(d, "XStep"@), step_of(d, "YStep"@)) {
        (Some(bbox), Some(xstep), Some(ystep)) => if depth >= MAX_XOBJECT_DEPTH {
            Ok(None)
        } else {
            match stream_data(d, data) {
                Err(_) => Ok(None),
                Ok(content) => match hop_dict(doc, d, "Resources"@) {
                    Err(e) => Err(e),
                    Ok(r) => match content_value(doc, r, depth + 1, Seq::empty(), Scope::Cell) {
                        Err(e) => Err(e),
                        Ok((resources, parts)) => Ok(
                            Some(
                                PartV {
                                    name,
                                    kind: KindV::Tiling {
                                        xstep,
                                        ystep,
                                        paint_type: match dict_integer(d, "PaintType"@) {
                                            Some(n) => n,
                                            None => 1,
                                        },
                                    },
                                    matrix: matrix_of(d),
                                    bbox: Some(bbox),
                                    content,
                                    resources,
                                    parts,
                                },
                            ),
                        ),
                    },
                },
            }
        },
        _ => Ok(None),
    }
}

/// The fonts among resources whose glyphs are content.
pub open spec fn type3_value(doc: DocV, r: DictV, depth: int) -> PartsV
    decreases MAX_XOBJECT_DEPTH + 1 - depth, 3int, 0int,
{
    if depth >= MAX_XOBJECT_DEPTH {
        Ok(Seq::empty())
    } else {
        match hop_dict(doc, r, "Font"@) {
            Err(e) => Err(e),
            Ok(None) => Ok(Seq::empty()),
            Ok(Some(d)) => type3_from(doc, d, 0, r, depth, Seq::empty()),
        }
    }
}

/// Such fonts among the entries from place `i` on, behind `out`.
pub open spec fn type3_from(
    doc: DocV,
    d: DictV,
    i: int,
    enclosing: DictV,
    depth: int,
    out: Seq<PartV>,
) -> PartsV
    decreases MAX_XOBJECT_DEPTH + 1 - depth, 2int, d.len() - i,
{
    if i < 0 || i >= d.len() {
        Ok(out)
    } else {
        match doc.one_hop(d[i].1) {
            Err(e) => Err(e),
            Ok(ObjV::Dict(fd)) => if dict_name(fd, "Subtype"@) != Some("Type3"@) {
                type3_from(doc, d, i + 1, enclosing, depth, out)
            } else {
                match font_part(doc, d[i].0, fd, enclosing, depth) {
                    Err(e) => Err(e),
                    Ok(p) => type3_from(doc, d, i + 1, enclosing, depth, with_part(out, p)),
                }
            },
            Ok(_) => type3_from(doc, d, i + 1, enclosing, depth, out),
        }
    }
}

/// The encoding of a font whose glyphs are content: its differences.
pub open spec fn font_encoding(doc: DocV, fd: DictV) -> Result<Seq<(u8, Seq<char>)>, Seq<char>> {
    match hop_dict(doc, fd, "Encoding"@) {
        Err(e) => Err(e),
        Ok(None) => Ok(Seq::empty()),
        Ok(Some(enc)) => match dict_get(enc, "Differences"@) {
            None => Ok(Seq::empty()),
            Some(o) => match doc.one_hop(o) {
                Err(e) => Err(e),
                Ok(ObjV::Array(items)) => Ok(differences_from(items, 0, None)),
                Ok(_) => Ok(Seq::empty()),
            },
        },
    }
}

/// The resources of glyphs: those of the font, or else those around it.
pub open spec fn glyph_resources(doc: DocV, fd: DictV, enclosing: DictV) -> Result<
    DictV,
    Seq<char>,
> {
    match hop_dict(doc, fd, "Resources"@) {
        Err(e) => Err(e),
        Ok(Some(d)) => Ok(d),
        Ok(None) => Ok(enclosing),
    }
}

/// A font whose glyphs are content, as a part. Without an encoding or without
/// glyphs it is none.
pub open spec fn font_part(
    doc: DocV,
    name: Seq<char>,
    fd: DictV,
    enclosing: DictV,
    depth: int,
) -> Result<Option<PartV>, Seq<char>>
    decreases MAX_XOBJECT_DEPTH + 1 - depth, 1int, 0int,
{
    match font_encoding(doc, fd) {
        Err(e) => Err(e),
        Ok(encoding) => if encoding.len() == 0 {
            Ok(None)
        } else {
            match glyph_resources(doc, fd, enclosing) {
                Err(e) => Err(e),
                Ok(r) => match hop_dict(doc, fd, "CharProcs"@) {
                    Err(e) => Err(e),
                    Ok(None) => Ok(None),
                    Ok(Some(procs)) => match glyphs_from(
                        doc,
                        procs,
                        0,
                        encoding,
                        r,
                        depth,
                        Seq::empty(),
                    ) {
                        Err(e) => Err(e),
                        Ok(glyphs) => if glyphs.len() == 0 {
                            Ok(None)
                        } else {
                            Ok(
                                Some(
                                    PartV {
                                        name,
                                        kind: KindV::Type3Font { encoding },
                                        matrix: font_matrix_of(fd),
                                        bbox: None,
                                        content: Seq::empty(),
                                        resources: no_resources(),
                                        parts: glyphs,
                                    },
                                ),
                            )
                        },
                    },
                },
            }
        },
    }
}

/// The glyphs among the entries from place `i` on that the encoding names,
/// behind `out`.
pub open spec fn glyphs_from(
    doc: DocV,
    procs: DictV,
    i: int,
    encoding: Seq<(u8, Seq<char>)>,
    r: DictV,
    depth: int,
    out: Seq<PartV>,
) -> PartsV
    decreases MAX_XOBJECT_DEPTH + 1 - depth, 0int, procs.len() - i,
{
    if i < 0 || i >= procs.len() || depth >= MAX_XOBJECT_DEPTH {
        Ok(out)
    } else if !names_glyph(encoding, procs[i].0) {
        glyphs_from(doc, procs, i + 1, encoding, r, depth, out)
    } else {
        match doc.one_hop(procs[i].1) {
            Err(e) => Err(e),
            Ok(ObjV::Stream(d, data)) => match stream_data(d, data) {
                Err(_) => glyphs_from(doc, procs, i + 1, encoding, r, depth, out),
                Ok(content) => match content_value(
                    doc,
                    Some(r),
                    depth + 1,
                    Seq::empty(),
                    Scope::Glyph,
                ) {
                    Err(e) => Err(e),
                    Ok((resources, parts)) => glyphs_from(
                        doc,
                        procs,
                        i + 1,
                        encoding,
                        r,
                        depth,
                        out.push(
                            PartV {
                                name: procs[i].0,
                                kind: KindV::Glyph { shape_only: shape_from(content, 0) },
                                matrix: identity_matrix(),
                                bbox: None,
                                content,
                                resources,
                                parts,
                            },
                        ),
                    ),
                },
            },
            Ok(_) => glyphs_from(doc, procs, i + 1, encoding, r, depth, out),
        }
    }
}

/// The masks among resources.
pub open spec fn masks_value(doc: DocV, r: DictV, depth: int, visited: Seq<u64>) -> PartsV
    decreases MAX_XOBJECT_DEPTH + 1 - depth, 4int, 0int,
{
    if depth >= MAX_XOBJECT_DEPTH {
        Ok(Seq::empty())
    } else {
        match hop_dict(doc, r, "ExtGState"@) {
            Err(e) => Err(e),
            Ok(None) => Ok(Seq::empty()),
            Ok(Some(d)) => masks_from(doc, d, 0, depth, visited, Seq::empty()),
        }
    }
}

/// The dictionary of the mask of a graphics state: a state that is no
/// dictionary has none.
pub open spec fn mask_dict(doc: DocV, o: ObjV) -> Result<Option<DictV>, Seq<char>> {
    match doc.one_hop(o) {
        Err(e) => Err(e),
        Ok(ObjV::Dict(gs)) => hop_dict(doc, gs, "SMask"@),
        Ok(_) => Ok(None),
    }
}

/// What a mask goes by: its luminosity, or else its opacity.
pub open spec fn mask_subtype(sm: DictV) -> Option<bool> {
    match dict_name(sm, "S"@) {
        Some(s) => if s == "Luminosity"@ {
            Some(true)
        } else if s == "Alpha"@ {
            Some(false)
        } else {
            None
        },
        None => None,
    }
}

/// The mask that a dictionary describes, as a part. One whose group cannot be
/// found is none.
pub open spec fn mask_part(
    doc: DocV,
    name: Seq<char>,
    sm: DictV,
    depth: int,
    visited: Seq<u64>,
) -> Result<Option<PartV>, Seq<char>>
    decreases MAX_XOBJECT_DEPTH + 1 - depth, 2int, 0int,
{
    match (mask_subtype(sm), dict_get(sm, "G"@)) {
        (Some(luminosity), Some(g)) => match doc.one_hop(g) {
            Ok(ObjV::Stream(d, data)) => if entered(target(g), visited) {
                Ok(None)
            } else {
                form_part(
                    doc,
                    name,
                    KindV::SoftMask { luminosity },
                    d,
                    data,
                    depth,
                    entering(target(g), visited),
                )
            },
            _ => Ok(None),
        },
        _ => Ok(None),
    }
}

/// The masks of the graphics states from place `i` on, behind `out`.
pub open spec fn masks_from(
    doc: DocV,
    d: DictV,
    i: int,
    depth: int,
    visited: Seq<u64>,
    out: Seq<PartV>,
) -> PartsV
    decreases MAX_XOBJECT_DEPTH + 1 - depth, 3int, d.len() - i,
{
    if i < 0 || i >= d.len() {
        Ok(out)
    } else {
        match mask_dict(doc, d[i].1) {
            Err(e) => Err(e),
            Ok(None) => masks_from(doc, d, i + 1, depth, visited, out),
            Ok(Some(sm)) => match mask_part(doc, d[i].0, sm, depth, visited) {
                Err(e) => Err(e),
                Ok(p) => masks_from(doc, d, i + 1, depth, visited, with_part(out, p)),
            },
        }
    }
}

// ----------------------------------------------------------------- reading

/// `r` is what `w` says.
pub open spec fn content_agrees(
    r: Result<(PartResources, Vec<ContentPart>), PdfError>,
    w: ContentV,
) -> bool {
    match r {
        Ok((res, parts)) => w == Ok::<(ResV, Seq<PartV>), Seq<char>>((res@, parts_view(parts@))),
        Err(e) => w == Err::<(ResV, Seq<PartV>), Seq<char>>(e@),
    }
}

/// `r` is what `w` says.
pub open spec fn parts_agree(r: Result<Vec<ContentPart>, PdfError>, w: PartsV) -> bool {
    match r {
        Ok(parts) => w == Ok::<Seq<PartV>, Seq<char>>(parts_view(parts@)),
        Err(e) => w == Err::<Seq<PartV>, Seq<char>>(e@),
    }
}

/// `r` is what `w` says.
pub open spec fn part_agrees(
    r: Result<Option<ContentPart>, PdfError>,
    w: Result<Option<PartV>, Seq<char>>,
) -> bool {
    match r {
        Ok(Some(p)) => w == Ok::<Option<PartV>, Seq<char>>(Some(p@)),
        Ok(None) => w == Ok::<Option<PartV>, Seq<char>>(None),
        Err(e) => w == Err::<Option<PartV>, Seq<char>>(e@),
    }
}

/// Add a part, if there is one.
fn add_part(out: &mut Vec<ContentPart>, p: Option<ContentPart>)
    ensures
        parts_view(final(out)@) == with_part(
            parts_view(old(out)@),
            match p {
                Some(v) => Some(v@),
                None => None,
            },
        ),
{
    if let Some(v) = p {
        let ghost before = parts_view(out@);
        out.push(v);
        proof {
            assert(parts_view(out@) =~= before.push(v@));
        }
    }
}

/// A part with these values.
fn new_part(
    name: String,
    kind: PartKind,
    matrix: Vec<Number>,
    bbox: Option<Vec<Number>>,
    content: Vec<u8>,
    inner: (PartResources, Vec<ContentPart>),
) -> (r: ContentPart)
    ensures
        r@ == (PartV {
            name: name@,
            kind: kind@,
            matrix: numbers(matrix@),
            bbox: opt_numbers(bbox),
            content: content@,
            resources: inner.0@,
            parts: parts_view(inner.1@),
        }),
{
    let (resources, parts) = inner;
    let r: ContentPart = ContentPart { name, kind, matrix, bbox, content, resources, parts };
    proof {
        assert(r@.parts =~= parts_view(parts@));
    }
    r
}

/// No parts.
fn no_parts() -> (r: Vec<ContentPart>)
    ensures
        parts_view(r@) == Seq::<PartV>::empty(),
{
    let r: Vec<ContentPart> = Vec::new();
    proof {
        assert(parts_view(r@) =~= Seq::empty());
    }
    r
}

/// Add the parts of one list to another.
fn join_parts(out: &mut Vec<ContentPart>, more: Vec<ContentPart>)
    ensures
        parts_view(final(out)@) == parts_view(old(out)@) + parts_view(more@),
{
    let mut more: Vec<ContentPart> = more;
    let ghost a = out@;
    let ghost b = more@;
    out.append(&mut more);
    proof {
        assert(out@ =~= a + b);
        assert(parts_view(out@) =~= parts_view(a) + parts_view(b));
    }
}

/// Whether a number is among others.
pub(crate) fn holds_key(visited: &Vec<u64>, key: u64) -> (r: bool)
    ensures
        r == visited@.contains(key),
{
    let mut i: usize = 0;
    while i < visited.len()
        invariant
            i <= visited@.len(),
            forall|k: int| 0 <= k < i ==> visited@[k] != key,
        decreases visited.len() - i,
    {
        if visited[i] == key {
            proof {
                assert(visited@[i as int] == key);
            }
            return true;
        }
        i = i + 1;
    }
    false
}

/// Whether what is being read is read already.
fn is_entered(id: Option<ObjectId>, visited: &Vec<u64>) -> (r: bool)
    ensures
        r == entered(id, visited@),
{
    match id {
        None => false,
        Some(id) => {
            let key: u64 = id.number as u64 * 65536 + id.generation as u64;
            proof {
                assert(key == cache_key(id));
            }
            holds_key(visited, key)
        },
    }
}

/// Note what is being read.
fn enter(id: Option<ObjectId>, visited: &mut Vec<u64>)
    ensures
        final(visited)@ == entering(id, old(visited)@),
{
    if let Some(id) = id {
        let key: u64 = id.number as u64 * 65536 + id.generation as u64;
        proof {
            assert(key == cache_key(id));
        }
        visited.push(key);
    }
}

/// Forget what was being read.
fn leave(id: Option<ObjectId>, visited: &mut Vec<u64>)
    ensures
        forall|before: Seq<u64>|
            old(visited)@ == #[trigger] entering(id, before) ==> final(visited)@ == before,
{
    if id.is_some() {
        visited.pop();
        proof {
            assert forall|before: Seq<u64>| old(visited)@ == #[trigger] entering(id, before) implies
                visited@ == before by {
                assert(entering(id, before).drop_last() =~= before);
            }
        }
    }
}

fn target_of(o: &Object) -> (r: Option<ObjectId>)
    ensures
        r == target(o@),
{
    match o {
        Object::Reference(id) => Some(*id),
        _ => None,
    }
}

fn read_plain(reader: &mut DocumentReader, r: &Dict) -> (res: Result<PartResources, PdfError>)
    requires
        old(reader).wf(),
    ensures
        final(reader).wf(),
        final(reader).doc() == old(reader).doc(),
        crate::error::outcome(res) == plain_resources(old(reader).doc(), r@),
{
    let ext_gstate: Option<Dict> = match resolve_category(reader, ResourceKind::ExtGState, r) {
        Ok(d) => d,
        Err(e) => {
            return Err(e);
        },
    };
    let fonts: Option<Dict> = match resolve_category(reader, ResourceKind::Font, r) {
        Ok(d) => d,
        Err(e) => {
            return Err(e);
        },
    };
    let shading: Option<Dict> = match resolve_category(reader, ResourceKind::Shading, r) {
        Ok(d) => d,
        Err(e) => {
            return Err(e);
        },
    };
    let color_space: Option<Dict> = match resolve_category(reader, ResourceKind::ColorSpace, r) {
        Ok(d) => d,
        Err(e) => {
            return Err(e);
        },
    };
    let properties: Option<Dict> = match resolve_category(reader, ResourceKind::Properties, r) {
        Ok(d) => d,
        Err(e) => {
            return Err(e);
        },
    };
    Ok(PartResources { ext_gstate, fonts, shading, color_space, properties, pattern: None })
}

/// Read the resources of content and the parts that it names.
fn content_from(
    reader: &mut DocumentReader,
    r: Option<&Dict>,
    depth: usize,
    visited: &mut Vec<u64>,
    scope: Scope,
) -> (res: Result<(PartResources, Vec<ContentPart>), PdfError>)
    requires
        old(reader).wf(),
        depth <= MAX_XOBJECT_DEPTH,
    ensures
        final(reader).wf(),
        final(reader).doc() == old(reader).doc(),
        res is Ok ==> final(visited)@ == old(visited)@,
        content_agrees(
            res,
            content_value(
                old(reader).doc(),
                crate::stream::opt_dict(r),
                depth as int,
                old(visited)@,
                scope,
            ),
        ),
    decreases MAX_XOBJECT_DEPTH + 1 - depth, 5int,
{
    let r: &Dict = match r {
        None => {
            return Ok((PartResources::none(), no_parts()));
        },
        Some(d) => d,
    };
    let mut resources: PartResources = match read_plain(reader, r) {
        Ok(v) => v,
        Err(e) => {
            return Err(e);
        },
    };
    let mut parts: Vec<ContentPart> = match read_forms(reader, r, depth, visited) {
        Ok(v) => v,
        Err(e) => {
            return Err(e);
        },
    };
    resources.pattern = match resolve_category(reader, ResourceKind::Pattern, r) {
        Ok(d) => d,
        Err(e) => {
            return Err(e);
        },
    };
    match read_tilings(reader, r, depth) {
        Ok(v) => {
            join_parts(&mut parts, v);
        },
        Err(e) => {
            return Err(e);
        },
    }
    let fonts: Vec<ContentPart> = if scope == Scope::Cell {
        no_parts()
    } else {
        match read_type3(reader, r, depth) {
            Ok(v) => v,
            Err(e) => {
                return Err(e);
            },
        }
    };
    join_parts(&mut parts, fonts);
    let masks: Vec<ContentPart> = if scope == Scope::Form {
        match read_masks(reader, r, depth, visited) {
            Ok(v) => v,
            Err(e) => {
                return Err(e);
            },
        }
    } else {
        no_parts()
    };
    join_parts(&mut parts, masks);
    Ok((resources, parts))
}

/// Read the content of a stream as a part.
fn read_form(
    reader: &mut DocumentReader,
    name: &str,
    kind: PartKind,
    s: &Stream,
    depth: usize,
    visited: &mut Vec<u64>,
) -> (r: Result<Option<ContentPart>, PdfError>)
    requires
        old(reader).wf(),
        depth <= MAX_XOBJECT_DEPTH,
    ensures
        final(reader).wf(),
        final(reader).doc() == old(reader).doc(),
        r is Ok ==> final(visited)@ == old(visited)@,
        part_agrees(
            r,
            form_part(
                old(reader).doc(),
                name@,
                kind@,
                s.dict@,
                s.data@,
                depth as int,
                old(visited)@,
            ),
        ),
    decreases MAX_XOBJECT_DEPTH + 1 - depth, 1int,
{
    if depth >= MAX_XOBJECT_DEPTH {
        return Ok(None);
    }
    let content: Vec<u8> = match decode_stream(s) {
        Ok(b) => b,
        Err(_) => {
            return Ok(None);
        },
    };
    let r: Option<Dict> = match read_hop_dict(reader, &s.dict, "Resources") {
        Ok(d) => d,
        Err(e) => {
            return Err(e);
        },
    };
    match content_from(reader, r.as_ref(), depth + 1, visited, Scope::Form) {
        Err(e) => Err(e),
        Ok(inner) => {
            let bbox: Option<Vec<Number>> = get_numbers(&s.dict, "BBox", 4);
            Ok(Some(new_part(name.to_owned(), kind, form_matrix(&s.dict), bbox, content, inner)))
        },
    }
}

/// Read the forms among resources.
fn read_forms(reader: &mut DocumentReader, r: &Dict, depth: usize, visited: &mut Vec<u64>) -> (res:
    Result<Vec<ContentPart>, PdfError>)
    requires
        old(reader).wf(),
        depth <= MAX_XOBJECT_DEPTH,
    ensures
        final(reader).wf(),
        final(reader).doc() == old(reader).doc(),
        res is Ok ==> final(visited)@ == old(visited)@,
        parts_agree(res, forms_value(old(reader).doc(), r@, depth as int, old(visited)@)),
    decreases MAX_XOBJECT_DEPTH + 1 - depth, 3int,
{
    let ghost doc = reader.doc();
    let mut out: Vec<ContentPart> = no_parts();
    if depth >= MAX_XOBJECT_DEPTH {
        return Ok(out);
    }
    let d: Dict = match read_hop_dict(reader, r, "XObject") {
        Err(e) => {
            return Err(e);
        },
        Ok(None) => {
            return Ok(out);
        },
        Ok(Some(d)) => d,
    };
    let ghost v0 = visited@;
    let ghost goal = forms_from(doc, d@, 0, depth as int, v0, Seq::empty());
    let mut i: usize = 0;
    while i < d.entries.len()
        invariant
            i <= d.entries@.len(),
            d@.len() == d.entries@.len(),
            reader.wf(),
            reader.doc() == doc,
            doc == old(reader).doc(),
            depth < MAX_XOBJECT_DEPTH,
            visited@ == v0,
            v0 == old(visited)@,
            goal == forms_value(doc, r@, depth as int, v0),
            goal == forms_from(doc, d@, i as int, depth as int, v0, parts_view(out@)),
        decreases d.entries.len() - i,
    {
        let entry: &(String, Object) = &d.entries[i];
        proof {
            assert(d@[i as int] == (entry.0@, entry.1@));
        }
        match hop(reader, &entry.1) {
            Ok(Object::Stream(s)) => {
                let id: Option<ObjectId> = target_of(&entry.1);
                if is_named(&s.dict, "Subtype", "Form") && !is_entered(id, visited) {
                    enter(id, visited);
                    match read_form(reader, entry.0.as_str(), PartKind::Form, &s, depth, visited) {
                        Err(e) => {
                            return Err(e);
                        },
                        Ok(p) => {
                            add_part(&mut out, p);
                        },
                    }
                    leave(id, visited);
                }
            },
            _ => {},
        }
        i = i + 1;
    }
    Ok(out)
}

fn read_step(d: &Dict, key: &str) -> (r: Option<Number>)
    ensures
        crate::number::opt_number(r) == step_of(d@, key@),
{
    match d.get(key) {
        Some(o) => match object_number(o) {
            Some(n) => if n.is_zero() || !n.is_finite() {
                None
            } else {
                Some(n)
            },
            None => None,
        },
        None => None,
    }
}

fn read_cell_box(d: &Dict) -> (r: Option<Vec<Number>>)
    ensures
        opt_numbers(r) == cell_box(d@),
{
    match get_numbers(d, "BBox", 4) {
        None => None,
        Some(b) => {
            let ghost view = numbers(b@);
            let mut i: usize = 0;
            while i < b.len()
                invariant
                    i <= b@.len(),
                    view == numbers(b@),
                    array_numbers(dict_get(d@, "BBox"@), 4) == Some(view),
                    forall|k: int| 0 <= k < i ==> number_is_finite(#[trigger] view[k]),
                decreases b.len() - i,
            {
                proof {
                    assert(view[i as int] == b@[i as int]@);
                }
                if !b[i].is_finite() {
                    return None;
                }
                i = i + 1;
            }
            Some(b)
        },
    }
}

/// Read a tiling pattern.
fn read_tiling(reader: &mut DocumentReader, name: &str, s: &Stream, depth: usize) -> (r: Result<
    Option<ContentPart>,
    PdfError,
>)
    requires
        old(reader).wf(),
        depth <= MAX_XOBJECT_DEPTH,
    ensures
        final(reader).wf(),
        final(reader).doc() == old(reader).doc(),
        part_agrees(
            r,
            tiling_part(old(reader).doc(), name@, s.dict@, s.data@, depth as int),
        ),
    decreases MAX_XOBJECT_DEPTH + 1 - depth, 1int,
{
    let bbox: Vec<Number> = match read_cell_box(&s.dict) {
        Some(b) => b,
        None => {
            return Ok(None);
        },
    };
    let xstep: Number = match read_step(&s.dict, "XStep") {
        Some(n) => n,
        None => {
            return Ok(None);
        },
    };
    let ystep: Number = match read_step(&s.dict, "YStep") {
        Some(n) => n,
        None => {
            return Ok(None);
        },
    };
    if depth >= MAX_XOBJECT_DEPTH {
        return Ok(None);
    }
    let paint_type: i64 = match get_integer(&s.dict, "PaintType") {
        Some(n) => n,
        None => 1,
    };
    let content: Vec<u8> = match decode_stream(s) {
        Ok(b) => b,
        Err(_) => {
            return Ok(None);
        },
    };
    let r: Option<Dict> = match read_hop_dict(reader, &s.dict, "Resources") {
        Ok(d) => d,
        Err(e) => {
            return Err(e);
        },
    };
    let mut seen: Vec<u64> = Vec::new();
    proof {
        assert(seen@ =~= Seq::empty());
    }
    match content_from(reader, r.as_ref(), depth + 1, &mut seen, Scope::Cell) {
        Err(e) => Err(e),
        Ok(inner) => {
            let kind: PartKind = PartKind::Tiling { xstep, ystep, paint_type };
            Ok(
                Some(
                    new_part(
                        name.to_owned(),
                        kind,
                        form_matrix(&s.dict),
                        Some(bbox),
                        content,
                        inner,
                    ),
                ),
            )
        },
    }
}

/// Read the tiling patterns among resources.
fn read_tilings(reader: &mut DocumentReader, r: &Dict, depth: usize) -> (res: Result<
    Vec<ContentPart>,
    PdfError,
>)
    requires
        old(reader).wf(),
        depth <= MAX_XOBJECT_DEPTH,
    ensures
        final(reader).wf(),
        final(reader).doc() == old(reader).doc(),
        parts_agree(res, tilings_value(old(reader).doc(), r@, depth as int)),
    decreases MAX_XOBJECT_DEPTH + 1 - depth, 3int,
{
    let ghost doc = reader.doc();
    let mut out: Vec<ContentPart> = no_parts();
    if depth >= MAX_XOBJECT_DEPTH {
        return Ok(out);
    }
    let d: Dict = match read_hop_dict(reader, r, "Pattern") {
        Err(e) => {
            return Err(e);
        },
        Ok(None) => {
            return Ok(out);
        },
        Ok(Some(d)) => d,
    };
    let ghost goal = tilings_from(doc, d@, 0, depth as int, Seq::empty());
    let mut i: usize = 0;
    while i < d.entries.len()
        invariant
            i <= d.entries@.len(),
            d@.len() == d.entries@.len(),
            reader.wf(),
            reader.doc() == doc,
            doc == old(reader).doc(),
            depth < MAX_XOBJECT_DEPTH,
            goal == tilings_value(doc, r@, depth as int),
            goal == tilings_from(doc, d@, i as int, depth as int, parts_view(out@)),
        decreases d.entries.len() - i,
    {
        let entry: &(String, Object) = &d.entries[i];
        proof {
            assert(d@[i as int] == (entry.0@, entry.1@));
        }
        match hop(reader, &entry.1) {
            Err(e) => {
                return Err(e);
            },
            Ok(Object::Stream(s)) => {
                let tiles: bool = match get_integer(&s.dict, "PatternType") {
                    Some(n) => n == 1,
                    None => false,
                };
                if tiles {
                    match read_tiling(reader, entry.0.as_str(), &s, depth) {
                        Err(e) => {
                            return Err(e);
                        },
                        Ok(p) => {
                            add_part(&mut out, p);
                        },
                    }
                }
            },
            Ok(_) => {},
        }
        i = i + 1;
    }
    Ok(out)
}

fn read_font_encoding(reader: &mut DocumentReader, fd: &Dict) -> (r: Result<
    EncodingDifferences,
    PdfError,
>)
    requires
        old(reader).wf(),
    ensures
        final(reader).wf(),
        final(reader).doc() == old(reader).doc(),
        crate::error::outcome(r) == font_encoding(old(reader).doc(), fd@),
{
    let none: EncodingDifferences = EncodingDifferences::default();
    proof {
        assert(none@ =~= Seq::empty());
    }
    let enc: Dict = match read_hop_dict(reader, fd, "Encoding") {
        Err(e) => {
            return Err(e);
        },
        Ok(None) => {
            return Ok(none);
        },
        Ok(Some(d)) => d,
    };
    match enc.get("Differences") {
        None => Ok(none),
        Some(o) => match hop(reader, o) {
            Err(e) => Err(e),
            Ok(v) => match parse_encoding_differences(&v) {
                Ok(d) => Ok(d),
                Err(_) => Ok(none),
            },
        },
    }
}

/// Read the glyphs that an encoding names.
fn read_glyphs(
    reader: &mut DocumentReader,
    procs: &Dict,
    encoding: &EncodingDifferences,
    r: &Dict,
    depth: usize,
) -> (res: Result<Vec<ContentPart>, PdfError>)
    requires
        old(reader).wf(),
        depth < MAX_XOBJECT_DEPTH,
    ensures
        final(reader).wf(),
        final(reader).doc() == old(reader).doc(),
        parts_agree(
            res,
            glyphs_from(
                old(reader).doc(),
                procs@,
                0,
                encoding@,
                r@,
                depth as int,
                Seq::empty(),
            ),
        ),
    decreases MAX_XOBJECT_DEPTH + 1 - depth, 0int,
{
    let ghost doc = reader.doc();
    let mut out: Vec<ContentPart> = no_parts();
    let ghost goal = glyphs_from(doc, procs@, 0, encoding@, r@, depth as int, Seq::empty());
    let mut i: usize = 0;
    while i < procs.entries.len()
        invariant
            i <= procs.entries@.len(),
            procs@.len() == procs.entries@.len(),
            reader.wf(),
            reader.doc() == doc,
            doc == old(reader).doc(),
            depth < MAX_XOBJECT_DEPTH,
            goal == glyphs_from(doc, procs@, 0, encoding@, r@, depth as int, Seq::empty()),
            goal == glyphs_from(
                doc,
                procs@,
                i as int,
                encoding@,
                r@,
                depth as int,
                parts_view(out@),
            ),
        decreases procs.entries.len() - i,
    {
        let entry: &(String, Object) = &procs.entries[i];
        proof {
            assert(procs@[i as int] == (entry.0@, entry.1@));
        }
        if is_referenced(encoding, entry.0.as_str()) {
            match hop(reader, &entry.1) {
                Err(e) => {
                    return Err(e);
                },
                Ok(Object::Stream(s)) => match decode_stream(&s) {
                    Err(_) => {},
                    Ok(content) => {
                        let mut seen: Vec<u64> = Vec::new();
                        proof {
                            assert(seen@ =~= Seq::empty());
                        }
                        let shape_only: bool = charproc_is_shape_only(content.as_slice());
                        match content_from(reader, Some(r), depth + 1, &mut seen, Scope::Glyph) {
                            Err(e) => {
                                return Err(e);
                            },
                            Ok(inner) => {
                                let p: ContentPart = new_part(
                                    entry.0.clone(),
                                    PartKind::Glyph { shape_only },
                                    read_identity(),
                                    None,
                                    content,
                                    inner,
                                );
                                add_part(&mut out, Some(p));
                            },
                        }
                    },
                },
                Ok(_) => {},
            }
        }
        i = i + 1;
    }
    Ok(out)
}

/// Read a font whose glyphs are content.
fn read_type3_font(
    reader: &mut DocumentReader,
    name: &str,
    fd: &Dict,
    enclosing: &Dict,
    depth: usize,
) -> (r: Result<Option<ContentPart>, PdfError>)
    requires
        old(reader).wf(),
        depth < MAX_XOBJECT_DEPTH,
    ensures
        final(reader).wf(),
        final(reader).doc() == old(reader).doc(),
        part_agrees(r, font_part(old(reader).doc(), name@, fd@, enclosing@, depth as int)),
    decreases MAX_XOBJECT_DEPTH + 1 - depth, 1int,
{
    let encoding: EncodingDifferences = match read_font_encoding(reader, fd) {
        Ok(d) => d,
        Err(e) => {
            return Err(e);
        },
    };
    proof {
        assert(encoding@.len() == encoding.overrides@.len());
    }
    if encoding.overrides.len() == 0 {
        return Ok(None);
    }
    let own: Option<Dict> = match read_hop_dict(reader, fd, "Resources") {
        Ok(d) => d,
        Err(e) => {
            return Err(e);
        },
    };
    let r: &Dict = match &own {
        Some(d) => d,
        None => enclosing,
    };
    let procs: Dict = match read_hop_dict(reader, fd, "CharProcs") {
        Err(e) => {
            return Err(e);
        },
        Ok(None) => {
            return Ok(None);
        },
        Ok(Some(d)) => d,
    };
    let glyphs: Vec<ContentPart> = match read_glyphs(reader, &procs, &encoding, r, depth) {
        Ok(v) => v,
        Err(e) => {
            return Err(e);
        },
    };
    if glyphs.len() == 0 {
        return Ok(None);
    }
    let none: Vec<u8> = Vec::new();
    proof {
        assert(none@ =~= Seq::empty());
    }
    Ok(
        Some(
            new_part(
                name.to_owned(),
                PartKind::Type3Font { encoding },
                font_matrix(fd),
                None,
                none,
                (PartResources::none(), glyphs),
            ),
        ),
    )
}

/// Read the fonts among resources whose glyphs are content.
fn read_type3(reader: &mut DocumentReader, r: &Dict, depth: usize) -> (res: Result<
    Vec<ContentPart>,
    PdfError,
>)
    requires
        old(reader).wf(),
        depth <= MAX_XOBJECT_DEPTH,
    ensures
        final(reader).wf(),
        final(reader).doc() == old(reader).doc(),
        parts_agree(res, type3_value(old(reader).doc(), r@, depth as int)),
    decreases MAX_XOBJECT_DEPTH + 1 - depth, 3int,
{
    let ghost doc = reader.doc();
    let mut out: Vec<ContentPart> = no_parts();
    if depth >= MAX_XOBJECT_DEPTH {
        return Ok(out);
    }
    let d: Dict = match read_hop_dict(reader, r, "Font") {
        Err(e) => {
            return Err(e);
        },
        Ok(None) => {
            return Ok(out);
        },
        Ok(Some(d)) => d,
    };
    let ghost goal = type3_from(doc, d@, 0, r@, depth as int, Seq::empty());
    let mut i: usize = 0;
    while i < d.entries.len()
        invariant
            i <= d.entries@.len(),
            d@.len() == d.entries@.len(),
            reader.wf(),
            reader.doc() == doc,
            doc == old(reader).doc(),
            depth < MAX_XOBJECT_DEPTH,
            goal == type3_value(doc, r@, depth as int),
            goal == type3_from(doc, d@, i as int, r@, depth as int, parts_view(out@)),
        decreases d.entries.len() - i,
    {
        let entry: &(String, Object) = &d.entries[i];
        proof {
            assert(d@[i as int] == (entry.0@, entry.1@));
        }
        match hop(reader, &entry.1) {
            Err(e) => {
                return Err(e);
            },
            Ok(Object::Dict(fd)) => {
                if is_named(&fd, "Subtype", "Type3") {
                    match read_type3_font(reader, entry.0.as_str(), &fd, r, depth) {
                        Err(e) => {
                            return Err(e);
                        },
                        Ok(p) => {
                            add_part(&mut out, p);
                        },
                    }
                }
            },
            Ok(_) => {},
        }
        i = i + 1;
    }
    Ok(out)
}

fn read_mask_dict(reader: &mut DocumentReader, o: &Object) -> (r: Result<Option<Dict>, PdfError>)
    requires
        old(reader).wf(),
    ensures
        final(reader).wf(),
        final(reader).doc() == old(reader).doc(),
        crate::named_dest::dict_agrees(r, mask_dict(old(reader).doc(), o@)),
{
    match hop(reader, o) {
        Err(e) => Err(e),
        Ok(Object::Dict(gs)) => read_hop_dict(reader, &gs, "SMask"),
        Ok(_) => Ok(None),
    }
}

/// Read the mask that a dictionary describes.
fn read_mask(
    reader: &mut DocumentReader,
    name: &str,
    sm: &Dict,
    depth: usize,
    visited: &mut Vec<u64>,
) -> (r: Result<Option<ContentPart>, PdfError>)
    requires
        old(reader).wf(),
        depth <= MAX_XOBJECT_DEPTH,
    ensures
        final(reader).wf(),
        final(reader).doc() == old(reader).doc(),
        r is Ok ==> final(visited)@ == old(visited)@,
        part_agrees(
            r,
            mask_part(old(reader).doc(), name@, sm@, depth as int, old(visited)@),
        ),
    decreases MAX_XOBJECT_DEPTH + 1 - depth, 2int,
{
    let luminosity: bool = match sm.get("S") {
        Some(Object::Name(s)) => if same_text(s.as_str(), "Luminosity") {
            true
        } else if same_text(s.as_str(), "Alpha") {
            false
        } else {
            return Ok(None);
        },
        _ => {
            return Ok(None);
        },
    };
    let g: &Object = match sm.get("G") {
        None => {
            return Ok(None);
        },
        Some(o) => o,
    };
    match hop(reader, g) {
        Ok(Object::Stream(s)) => {
            let id: Option<ObjectId> = target_of(g);
            if is_entered(id, visited) {
                return Ok(None);
            }
            enter(id, visited);
            let kind: PartKind = PartKind::SoftMask { luminosity };
            match read_form(reader, name, kind, &s, depth, visited) {
                Err(e) => Err(e),
                Ok(p) => {
                    leave(id, visited);
                    Ok(p)
                },
            }
        },
        _ => Ok(None),
    }
}

/// Read the masks among resources.
fn read_masks(reader: &mut DocumentReader, r: &Dict, depth: usize, visited: &mut Vec<u64>) -> (res:
    Result<Vec<ContentPart>, PdfError>)
    requires
        old(reader).wf(),
        depth <= MAX_XOBJECT_DEPTH,
    ensures
        final(reader).wf(),
        final(reader).doc() == old(reader).doc(),
        res is Ok ==> final(visited)@ == old(visited)@,
        parts_agree(res, masks_value(old(reader).doc(), r@, depth as int, old(visited)@)),
    decreases MAX_XOBJECT_DEPTH + 1 - depth, 4int,
{
    let ghost doc = reader.doc();
    let mut out: Vec<ContentPart> = no_parts();
    if depth >= MAX_XOBJECT_DEPTH {
        return Ok(out);
    }
    let d: Dict = match read_hop_dict(reader, r, "ExtGState") {
        Err(e) => {
            return Err(e);
        },
        Ok(None) => {
            return Ok(out);
        },
        Ok(Some(d)) => d,
    };
    let ghost v0 = visited@;
    let ghost goal = masks_from(doc, d@, 0, depth as int, v0, Seq::empty());
    let mut i: usize = 0;
    while i < d.entries.len()
        invariant
            i <= d.entries@.len(),
            d@.len() == d.entries@.len(),
            reader.wf(),
            reader.doc() == doc,
            doc == old(reader).doc(),
            depth < MAX_XOBJECT_DEPTH,
            visited@ == v0,
            v0 == old(visited)@,
            goal == masks_value(doc, r@, depth as int, v0),
            goal == masks_from(doc, d@, i as int, depth as int, v0, parts_view(out@)),
        decreases d.entries.len() - i,
    {
        let entry: &(String, Object) = &d.entries[i];
        proof {
            assert(d@[i as int] == (entry.0@, entry.1@));
        }
        match read_mask_dict(reader, &entry.1) {
            Err(e) => {
                return Err(e);
            },
            Ok(None) => {},
            Ok(Some(sm)) => match read_mask(reader, entry.0.as_str(), &sm, depth, visited) {
                Err(e) => {
                    return Err(e);
                },
                Ok(p) => {
                    add_part(&mut out, p);
                },
            },
        }
        i = i + 1;
    }
    Ok(out)
}

/// Read the resources of a page and the parts that it names.
pub fn page_content(reader: &mut DocumentReader, resources: Option<&Dict>) -> (res: Result<
    (PartResources, Vec<ContentPart>),
    PdfError,
>)
    requires
        old(reader).wf(),
    ensures
        final(reader).wf(),
        final(reader).doc() == old(reader).doc(),
        content_agrees(
            res,
            content_value(
                old(reader).doc(),
                crate::stream::opt_dict(resources),
                0,
                Seq::empty(),
                Scope::Form,
            ),
        ),
{
    let mut visited: Vec<u64> = Vec::new();
    proof {
        assert(visited@ =~= Seq::empty());
    }
    content_from(reader, resources, 0, &mut visited, Scope::Form)
}

/// Read the appearance of an annotation, a form that is not nested.
pub(crate) fn read_appearance(reader: &mut DocumentReader, s: &Stream, id: Option<ObjectId>) -> (r:
    Result<Option<ContentPart>, PdfError>)
    requires
        old(reader).wf(),
    ensures
        final(reader).wf(),
        final(reader).doc() == old(reader).doc(),
        part_agrees(
            r,
            form_part(
                old(reader).doc(),
                Seq::empty(),
                KindV::Form,
                s.dict@,
                s.data@,
                0,
                entering(id, Seq::empty()),
            ),
        ),
{
    let mut visited: Vec<u64> = Vec::new();
    proof {
        assert(visited@ =~= Seq::empty());
        reveal_strlit("");
        assert(""@ =~= Seq::empty());
    }
    enter(id, &mut visited);
    read_form(reader, "", PartKind::Form, s, 0, &mut visited)
}

// ------------------------------------------------------------------- laws

/// A part holds no more than `n` levels of parts, itself included.
pub open spec fn within_levels(p: PartV, n: int) -> bool
    decreases n,
{
    n > 0 && forall|i: int| 0 <= i < p.parts.len() ==> within_levels(#[trigger] p.parts[i], n - 1)
}

/// Each of the parts holds no more than `n` levels.
pub open spec fn all_within(s: Seq<PartV>, n: int) -> bool {
    forall|i: int| 0 <= i < s.len() ==> within_levels(#[trigger] s[i], n)
}

/// The parts, if there are any, hold no more than `n` levels each.
pub open spec fn parts_within(r: PartsV, n: int) -> bool {
    match r {
        Ok(s) => all_within(s, n),
        Err(_) => true,
    }
}

/// The part, if there is one, holds no more than `n` levels.
pub open spec fn part_within(r: Result<Option<PartV>, Seq<char>>, n: int) -> bool {
    match r {
        Ok(Some(p)) => within_levels(p, n),
        _ => true,
    }
}

/// How many levels of parts content may hold at a depth. A font takes two.
pub open spec fn levels_at(depth: int) -> int {
    2 * (MAX_XOBJECT_DEPTH - depth)
}

proof fn lemma_more_levels(p: PartV, n: int, m: int)
    requires
        within_levels(p, n),
        n <= m,
    ensures
        within_levels(p, m),
    decreases m,
{
    assert forall|i: int| 0 <= i < p.parts.len() implies within_levels(
        #[trigger] p.parts[i],
        m - 1,
    ) by {
        lemma_more_levels(p.parts[i], n - 1, m - 1);
    }
}

proof fn lemma_pushed_within(out: Seq<PartV>, p: PartV, n: int)
    requires
        all_within(out, n),
        within_levels(p, n),
    ensures
        all_within(out.push(p), n),
{
}

/// What content names is nested no deeper than the limit allows.
pub proof fn law_nesting_bounded(
    doc: DocV,
    r: Option<DictV>,
    depth: int,
    visited: Seq<u64>,
    scope: Scope,
)
    requires
        0 <= depth <= MAX_XOBJECT_DEPTH,
    ensures
        match content_value(doc, r, depth, visited, scope) {
            Ok((_, parts)) => all_within(parts, levels_at(depth)),
            Err(_) => true,
        },
    decreases MAX_XOBJECT_DEPTH + 1 - depth, 5int, 0int,
{
    if let Some(d) = r {
        if depth < MAX_XOBJECT_DEPTH {
            if let Ok(Some(x)) = hop_dict(doc, d, "XObject"@) {
                lemma_forms_within(doc, x, 0, depth, visited, Seq::empty());
            }
            if let Ok(Some(x)) = hop_dict(doc, d, "Pattern"@) {
                lemma_tilings_within(doc, x, 0, depth, Seq::empty());
            }
            if let Ok(Some(x)) = hop_dict(doc, d, "Font"@) {
                lemma_fonts_within(doc, x, 0, d, depth, Seq::empty());
            }
            if let Ok(Some(x)) = hop_dict(doc, d, "ExtGState"@) {
                lemma_masks_within(doc, x, 0, depth, visited, Seq::empty());
            }
        }
    }
}

proof fn lemma_form_within(
    doc: DocV,
    name: Seq<char>,
    kind: KindV,
    d: DictV,
    data: Seq<u8>,
    depth: int,
    visited: Seq<u64>,
)
    requires
        0 <= depth < MAX_XOBJECT_DEPTH,
    ensures
        part_within(form_part(doc, name, kind, d, data, depth, visited), levels_at(depth)),
    decreases MAX_XOBJECT_DEPTH + 1 - depth, 1int, 0int,
{
    if let Ok(r) = hop_dict(doc, d, "Resources"@) {
        law_nesting_bounded(doc, r, depth + 1, visited, Scope::Form);
        if let Ok(Some(p)) = form_part(doc, name, kind, d, data, depth, visited) {
            assert(within_levels(p, levels_at(depth + 1) + 1));
            lemma_more_levels(p, levels_at(depth + 1) + 1, levels_at(depth));
        }
    }
}

proof fn lemma_forms_within(
    doc: DocV,
    d: DictV,
    i: int,
    depth: int,
    visited: Seq<u64>,
    out: Seq<PartV>,
)
    requires
        0 <= depth < MAX_XOBJECT_DEPTH,
        all_within(out, levels_at(depth)),
    ensures
        parts_within(forms_from(doc, d, i, depth, visited, out), levels_at(depth)),
    decreases MAX_XOBJECT_DEPTH + 1 - depth, 2int, d.len() - i,
{
    if 0 <= i < d.len() {
        lemma_forms_within(doc, d, i + 1, depth, visited, out);
        if let Ok(ObjV::Stream(sd, data)) = doc.one_hop(d[i].1) {
            let inner = entering(target(d[i].1), visited);
            lemma_form_within(doc, d[i].0, KindV::Form, sd, data, depth, inner);
            if let Ok(Some(p)) = form_part(doc, d[i].0, KindV::Form, sd, data, depth, inner) {
                lemma_pushed_within(out, p, levels_at(depth));
                lemma_forms_within(doc, d, i + 1, depth, visited, out.push(p));
            }
        }
    }
}

proof fn lemma_tilings_within(doc: DocV, d: DictV, i: int, depth: int, out: Seq<PartV>)
    requires
        0 <= depth < MAX_XOBJECT_DEPTH,
        all_within(out, levels_at(depth)),
    ensures
        parts_within(tilings_from(doc, d, i, depth, out), levels_at(depth)),
    decreases MAX_XOBJECT_DEPTH + 1 - depth, 2int, d.len() - i,
{
    if 0 <= i < d.len() {
        lemma_tilings_within(doc, d, i + 1, depth, out);
        if let Ok(ObjV::Stream(sd, data)) = doc.one_hop(d[i].1) {
            if let Ok(r) = hop_dict(doc, sd, "Resources"@) {
                law_nesting_bounded(doc, r, depth + 1, Seq::empty(), Scope::Cell);
            }
            if let Ok(Some(p)) = tiling_part(doc, d[i].0, sd, data, depth) {
                assert(within_levels(p, levels_at(depth + 1) + 1));
                lemma_more_levels(p, levels_at(depth + 1) + 1, levels_at(depth));
                lemma_pushed_within(out, p, levels_at(depth));
                lemma_tilings_within(doc, d, i + 1, depth, out.push(p));
            }
        }
    }
}

proof fn lemma_glyphs_within(
    doc: DocV,
    procs: DictV,
    i: int,
    encoding: Seq<(u8, Seq<char>)>,
    r: DictV,
    depth: int,
    out: Seq<PartV>,
)
    requires
        0 <= depth < MAX_XOBJECT_DEPTH,
        all_within(out, levels_at(depth) - 1),
    ensures
        parts_within(glyphs_from(doc, procs, i, encoding, r, depth, out), levels_at(depth) - 1),
    decreases MAX_XOBJECT_DEPTH + 1 - depth, 0int, procs.len() - i,
{
    if 0 <= i < procs.len() {
        lemma_glyphs_within(doc, procs, i + 1, encoding, r, depth, out);
        if let Ok(ObjV::Stream(d, data)) = doc.one_hop(procs[i].1) {
            if let Ok(content) = stream_data(d, data) {
                law_nesting_bounded(doc, Some(r), depth + 1, Seq::empty(), Scope::Glyph);
                if let Ok((resources, parts)) = content_value(
                    doc,
                    Some(r),
                    depth + 1,
                    Seq::empty(),
                    Scope::Glyph,
                ) {
                    let p = PartV {
                        name: procs[i].0,
                        kind: KindV::Glyph { shape_only: shape_from(content, 0) },
                        matrix: identity_matrix(),
                        bbox: None,
                        content,
                        resources,
                        parts,
                    };
                    assert(within_levels(p, levels_at(depth + 1) + 1));
                    lemma_pushed_within(out, p, levels_at(depth) - 1);
                    lemma_glyphs_within(doc, procs, i + 1, encoding, r, depth, out.push(p));
                }
            }
        }
    }
}

proof fn lemma_fonts_within(
    doc: DocV,
    d: DictV,
    i: int,
    enclosing: DictV,
    depth: int,
    out: Seq<PartV>,
)
    requires
        0 <= depth < MAX_XOBJECT_DEPTH,
        all_within(out, levels_at(depth)),
    ensures
        parts_within(type3_from(doc, d, i, enclosing, depth, out), levels_at(depth)),
    decreases MAX_XOBJECT_DEPTH + 1 - depth, 2int, d.len() - i,
{
    if 0 <= i < d.len() {
        lemma_fonts_within(doc, d, i + 1, enclosing, depth, out);
        if let Ok(ObjV::Dict(fd)) = doc.one_hop(d[i].1) {
            if let Ok(encoding) = font_encoding(doc, fd) {
                if let Ok(r) = glyph_resources(doc, fd, enclosing) {
                    if let Ok(Some(procs)) = hop_dict(doc, fd, "CharProcs"@) {
                        lemma_glyphs_within(doc, procs, 0, encoding, r, depth, Seq::empty());
                    }
                }
            }
            if let Ok(Some(p)) = font_part(doc, d[i].0, fd, enclosing, depth) {
                assert(within_levels(p, levels_at(depth)));
                lemma_pushed_within(out, p, levels_at(depth));
                lemma_fonts_within(doc, d, i + 1, enclosing, depth, out.push(p));
            }
        }
    }
}

proof fn lemma_masks_within(
    doc: DocV,
    d: DictV,
    i: int,
    depth: int,
    visited: Seq<u64>,
    out: Seq<PartV>,
)
    requires
        0 <= depth < MAX_XOBJECT_DEPTH,
        all_within(out, levels_at(depth)),
    ensures
        parts_within(masks_from(doc, d, i, depth, visited, out), levels_at(depth)),
    decreases MAX_XOBJECT_DEPTH + 1 - depth, 3int, d.len() - i,
{
    if 0 <= i < d.len() {
        lemma_masks_within(doc, d, i + 1, depth, visited, out);
        if let Ok(Some(sm)) = mask_dict(doc, d[i].1) {
            if let (Some(luminosity), Some(g)) = (mask_subtype(sm), dict_get(sm, "G"@)) {
                if let Ok(ObjV::Stream(gd, data)) = doc.one_hop(g) {
                    lemma_form_within(
                        doc,
                        d[i].0,
                        KindV::SoftMask { luminosity },
                        gd,
                        data,
                        depth,
                        entering(target(g), visited),
                    );
                }
            }
            if let Ok(Some(p)) = mask_part(doc, d[i].0, sm, depth, visited) {
                lemma_pushed_within(out, p, levels_at(depth));
                lemma_masks_within(doc, d, i + 1, depth, visited, out.push(p));
            }
        }
    }
}

/// A form that is being read is not read again inside itself.
pub proof fn law_no_form_in_itself(
    doc: DocV,
    name: Seq<char>,
    id: ObjectId,
    depth: int,
    visited: Seq<u64>,
    out: Seq<PartV>,
)
    requires
        visited.contains(cache_key(id)),
    ensures
        forms_from(doc, seq![(name, ObjV::Reference(id))], 0, depth, visited, out) == Ok::<
            Seq<PartV>,
            Seq<char>,
        >(out),
{
    let d = seq![(name, ObjV::Reference(id))];
    assert(d[0] == (name, ObjV::Reference(id)));
    assert(forms_from(doc, d, 1, depth, visited, out) == Ok::<Seq<PartV>, Seq<char>>(out));
}

/// Content without resources names no parts.
pub proof fn law_no_resources_no_parts(doc: DocV, depth: int, visited: Seq<u64>, scope: Scope)
    ensures
        content_value(doc, None, depth, visited, scope) == Ok::<(ResV, Seq<PartV>), Seq<char>>(
            (no_resources(), Seq::empty()),
        ),
{
}

} // verus!
