//! Images of a document that are JPEG files.

use std::collections::HashSet;
use vstd::prelude::*;
use crate::describe::{got, unexpected};
use crate::document::{cache_key, DocV, DocumentReader};
use crate::error::PdfError;
use crate::filters::opt_bytes;
use crate::link::{items_numbers, numbers_of, opt_numbers};
use crate::number::{int_of, object_int, NumV, Number};
use crate::objects::{
    clone_bytes, dict_get, lemma_array_view, objs_view, Dict, DictV, ObjV, Object, ObjectId, Stream,
};
use crate::pages::{cyclic, dict_name, hop_dict, is_named, read_hop_dict};
use crate::stream::{apply_filter, byte_filter, decode_stream, filtered, is_byte_filter, stream_data};
use crate::text::{cat, cat_id, cat_int, dec, id_text, same_text, texts};

verus! {

broadcast use vstd::std_specs::hash::group_hash_axioms;

// ------------------------------------------------------------------ values

/// The kind of a colour space.
#[derive(Debug, Clone, PartialEq, Eq)]
pub enum ColorSpace {
    DeviceRGB,
    DeviceCMYK,
    DeviceGray,
    Indexed,
    /// Any other, by its name.
    Other(String),
}

/// The kind of a colour space as a mathematical value.
pub enum ColorV {
    DeviceRGB,
    DeviceCMYK,
    DeviceGray,
    Indexed,
    Other(Seq<char>),
}

impl View for ColorSpace {
    type V = ColorV;

    open spec fn view(&self) -> ColorV {
        match *self {
            ColorSpace::DeviceRGB => ColorV::DeviceRGB,
            ColorSpace::DeviceCMYK => ColorV::DeviceCMYK,
            ColorSpace::DeviceGray => ColorV::DeviceGray,
            ColorSpace::Indexed => ColorV::Indexed,
            ColorSpace::Other(n) => ColorV::Other(n@),
        }
    }
}

/// The kind of the colour space that an object describes.
pub open spec fn color_of(o: ObjV) -> ColorV {
    match o {
        ObjV::Name(n) => if n == "DeviceRGB"@ || n == "RGB"@ {
            ColorV::DeviceRGB
        } else if n == "DeviceCMYK"@ || n == "CMYK"@ {
            ColorV::DeviceCMYK
        } else if n == "DeviceGray"@ || n == "G"@ {
            ColorV::DeviceGray
        } else {
            ColorV::Other(n)
        },
        ObjV::Array(items) => if items.len() == 0 {
            ColorV::Other(Seq::empty())
        } else {
            match items[0] {
                ObjV::Name(n) => if n == "Indexed"@ {
                    ColorV::Indexed
                } else {
                    ColorV::Other(n)
                },
                _ => ColorV::Other(Seq::empty()),
            }
        },
        _ => ColorV::Other(Seq::empty()),
    }
}

impl ColorSpace {
    /// The kind of the colour space that an object describes.
    pub fn from_object(obj: &Object) -> (r: ColorSpace)
        ensures
            r@ == color_of(obj@),
    {
        match obj {
            Object::Name(n) => {
                let n: &str = n.as_str();
                if same_text(n, "DeviceRGB") || same_text(n, "RGB") {
                    ColorSpace::DeviceRGB
                } else if same_text(n, "DeviceCMYK") || same_text(n, "CMYK") {
                    ColorSpace::DeviceCMYK
                } else if same_text(n, "DeviceGray") || same_text(n, "G") {
                    ColorSpace::DeviceGray
                } else {
                    ColorSpace::Other(n.to_owned())
                }
            },
            Object::Array(items) => {
                proof {
                    lemma_array_view(*items);
                    if items@.len() > 0 {
                        assert(objs_view(items@)[0] == items@[0]@);
                    }
                }
                if items.len() == 0 {
                    return ColorSpace::Other(String::new());
                }
                match &items[0] {
                    Object::Name(n) => if same_text(n.as_str(), "Indexed") {
                        ColorSpace::Indexed
                    } else {
                        ColorSpace::Other(n.clone())
                    },
                    _ => ColorSpace::Other(String::new()),
                }
            },
            _ => ColorSpace::Other(String::new()),
        }
    }
}

/// An image that gives the opacity of another.
#[derive(Debug, Clone, PartialEq)]
pub struct SoftMaskImage {
    pub width: u32,
    pub height: u32,
    pub bits_per_component: u8,
    /// The samples, where their filters can be undone here.
    pub data: Option<Vec<u8>>,
    /// `/Matte`: the colour that the image was blended with.
    pub matte: Option<Vec<Number>>,
}

/// The same as a mathematical value.
pub struct MaskV {
    pub width: u32,
    pub height: u32,
    pub bits_per_component: u8,
    pub data: Option<Seq<u8>>,
    pub matte: Option<Seq<NumV>>,
}

impl View for SoftMaskImage {
    type V = MaskV;

    open spec fn view(&self) -> MaskV {
        MaskV {
            width: self.width,
            height: self.height,
            bits_per_component: self.bits_per_component,
            data: opt_bytes(self.data),
            matte: opt_numbers(self.matte),
        }
    }
}

/// An image that is a JPEG file.
#[derive(Debug, Clone, PartialEq)]
pub struct PdfImageXObject {
    /// The JPEG file.
    pub data: Vec<u8>,
    pub width: u32,
    pub height: u32,
    pub color_space: ColorSpace,
    pub bits_per_component: u8,
    /// `/SMask`.
    pub smask: Option<SoftMaskImage>,
}

/// The same as a mathematical value.
pub struct ImageV {
    pub data: Seq<u8>,
    pub width: u32,
    pub height: u32,
    pub color_space: ColorV,
    pub bits_per_component: u8,
    pub smask: Option<MaskV>,
}

/// What an optional mask stands for.
pub open spec fn opt_mask(m: Option<SoftMaskImage>) -> Option<MaskV> {
    match m {
        Some(v) => Some(v@),
        None => None,
    }
}

impl View for PdfImageXObject {
    type V = ImageV;

    open spec fn view(&self) -> ImageV {
        ImageV {
            data: self.data@,
            width: self.width,
            height: self.height,
            color_space: self.color_space@,
            bits_per_component: self.bits_per_component,
            smask: opt_mask(self.smask),
        }
    }
}

/// Images with their numbers as mathematical values.
pub open spec fn images_view(s: Seq<(ObjectId, PdfImageXObject)>) -> Seq<(ObjectId, ImageV)> {
    s.map_values(|p: (ObjectId, PdfImageXObject)| (p.0, p.1@))
}

// ----------------------------------------------------------------- filters

/// The filters that a `/Filter` entry names, if it names nothing else.
pub open spec fn filter_names(o: Option<ObjV>) -> Option<Seq<Seq<char>>> {
    match o {
        Some(ObjV::Name(n)) => Some(seq![n]),
        Some(ObjV::Array(items)) => all_names(items, items.len() as int),
        _ => None,
    }
}

/// The first `n` items as names, if all of them are.
pub open spec fn all_names(items: Seq<ObjV>, n: int) -> Option<Seq<Seq<char>>>
    decreases n,
{
    if n <= 0 || n > items.len() {
        Some(Seq::empty())
    } else {
        match (all_names(items, n - 1), items[n - 1]) {
            (Some(s), ObjV::Name(t)) => Some(s.push(t)),
            _ => None,
        }
    }
}

proof fn lemma_not_all_names(items: Seq<ObjV>, n: int, m: int)
    requires
        0 <= n <= m <= items.len(),
        all_names(items, n) is None,
    ensures
        all_names(items, m) is None,
    decreases m - n,
{
    if n < m {
        lemma_not_all_names(items, n, m - 1);
    }
}

fn read_filter_names(d: &Dict) -> (r: Option<Vec<String>>)
    ensures
        match r {
            Some(v) => filter_names(dict_get(d@, "Filter"@)) == Some(texts(v@)),
            None => filter_names(dict_get(d@, "Filter"@)) is None,
        },
{
    let mut out: Vec<String> = Vec::new();
    proof {
        assert(texts(out@) =~= Seq::empty());
    }
    match d.get("Filter") {
        Some(Object::Name(n)) => {
            out.push(n.clone());
            proof {
                assert(texts(out@) =~= seq![n@]);
            }
            Some(out)
        },
        Some(Object::Array(items)) => {
            proof {
                lemma_array_view(*items);
            }
            let ghost view = objs_view(items@);
            let mut i: usize = 0;
            while i < items.len()
                invariant
                    i <= items@.len(),
                    view == objs_view(items@),
                    dict_get(d@, "Filter"@) == Some(ObjV::Array(view)),
                    all_names(view, i as int) == Some(texts(out@)),
                decreases items.len() - i,
            {
                let ghost before = texts(out@);
                proof {
                    assert(view[i as int] == items@[i as int]@);
                }
                match &items[i] {
                    Object::Name(n) => {
                        out.push(n.clone());
                        proof {
                            assert(texts(out@) =~= before.push(n@));
                        }
                    },
                    _ => {
                        proof {
                            lemma_not_all_names(view, i + 1, view.len() as int);
                        }
                        return None;
                    },
                }
                i = i + 1;
            }
            Some(out)
        },
        _ => None,
    }
}

/// Data with the first `n` filters undone, in order; none where one of them is
/// not undone byte by byte.
pub open spec fn peeled(names: Seq<Seq<char>>, n: int, data: Seq<u8>) -> Result<
    Option<Seq<u8>>,
    Seq<char>,
>
    decreases n,
{
    if n <= 0 || n > names.len() {
        Ok(Some(data))
    } else {
        match peeled(names, n - 1, data) {
            Err(e) => Err(e),
            Ok(None) => Ok(None),
            Ok(Some(d)) => if is_byte_filter(names[n - 1]) {
                match filtered(names[n - 1], d, None) {
                    Err(e) => Err(e),
                    Ok(v) => Ok(Some(v)),
                }
            } else {
                Ok(None)
            },
        }
    }
}

proof fn lemma_peeled_ends(names: Seq<Seq<char>>, n: int, m: int, data: Seq<u8>)
    requires
        0 <= n <= m <= names.len(),
        peeled(names, n, data) is Err || peeled(names, n, data) == Ok::<Option<Seq<u8>>, Seq<char>>(
            None,
        ),
    ensures
        peeled(names, m, data) == peeled(names, n, data),
    decreases m - n,
{
    if n < m {
        lemma_peeled_ends(names, n, m - 1, data);
    }
}

/// Undo the first `n` filters.
pub(crate) fn peel(names: &Vec<String>, n: usize, data: Vec<u8>) -> (r: Result<
    Option<Vec<u8>>,
    PdfError,
>)
    requires
        n <= names@.len(),
    ensures
        match r {
            Ok(b) => peeled(texts(names@), n as int, data@) == Ok::<Option<Seq<u8>>, Seq<char>>(
                opt_bytes(b),
            ),
            Err(e) => peeled(texts(names@), n as int, data@) == Err::<Option<Seq<u8>>, Seq<char>>(
                e@,
            ),
        },
{
    let ghost all = texts(names@);
    let ghost start = data@;
    let mut cur: Vec<u8> = data;
    let mut i: usize = 0;
    while i < n
        invariant
            i <= n <= names@.len(),
            all == texts(names@),
            start == data@,
            peeled(all, i as int, start) == Ok::<Option<Seq<u8>>, Seq<char>>(Some(cur@)),
        decreases n - i,
    {
        let name: &str = names[i].as_str();
        proof {
            assert(all[i as int] == name@);
        }
        if !byte_filter(name) {
            proof {
                lemma_peeled_ends(all, i + 1, n as int, start);
            }
            return Ok(None);
        }
        match apply_filter(name, cur.as_slice(), None) {
            Ok(v) => {
                cur = v;
            },
            Err(e) => {
                proof {
                    lemma_peeled_ends(all, i + 1, n as int, start);
                }
                return Err(e);
            },
        }
        i = i + 1;
    }
    Ok(Some(cur))
}

// ------------------------------------------------------------------ images

/// A number of a dictionary, without its fraction.
pub open spec fn dict_int(d: DictV, key: Seq<char>) -> Option<i64> {
    match dict_get(d, key) {
        Some(o) => int_of(o),
        None => None,
    }
}

pub(crate) fn lookup_int(d: &Dict, key: &str) -> (r: Option<i64>)
    ensures
        r == dict_int(d@, key@),
{
    match d.get(key) {
        Some(o) => object_int(o),
        None => None,
    }
}

/// The low half of a number that is not negative.
pub open spec fn low_half(n: i64) -> u32 {
    (n % 0x1_0000_0000) as u32
}

/// The bits of a component: 8 where nothing is said.
pub open spec fn component_bits(d: DictV) -> i64 {
    match dict_int(d, "BitsPerComponent"@) {
        Some(n) => n,
        None => 8,
    }
}

/// The mask that a stream is; none where it is not an image, or its size or its
/// depth cannot be.
pub open spec fn mask_of(d: DictV, data: Seq<u8>) -> Option<MaskV> {
    match (dict_int(d, "Width"@), dict_int(d, "Height"@)) {
        (Some(w), Some(h)) => if dict_name(d, "Subtype"@) == Some("Image"@) && w >= 0 && h >= 0
            && 1 <= component_bits(d) <= 16 {
            Some(
                MaskV {
                    width: low_half(w),
                    height: low_half(h),
                    bits_per_component: component_bits(d) as u8,
                    data: match stream_data(d, data) {
                        Ok(b) => Some(b),
                        Err(_) => None,
                    },
                    matte: match dict_get(d, "Matte"@) {
                        Some(ObjV::Array(items)) => numbers_of(items, items.len() as int),
                        _ => None,
                    },
                },
            )
        } else {
            None
        },
        _ => None,
    }
}

fn read_mask(s: &Stream) -> (r: Option<SoftMaskImage>)
    ensures
        opt_mask(r) == mask_of(s.dict@, s.data@),
{
    if !is_named(&s.dict, "Subtype", "Image") {
        return None;
    }
    let (width, height): (i64, i64) = match (
        lookup_int(&s.dict, "Width"),
        lookup_int(&s.dict, "Height"),
    ) {
        (Some(w), Some(h)) => (w, h),
        _ => {
            return None;
        },
    };
    let bpc: i64 = match lookup_int(&s.dict, "BitsPerComponent") {
        Some(n) => n,
        None => 8,
    };
    if width < 0 || height < 0 || bpc < 1 || bpc > 16 {
        return None;
    }
    let data: Option<Vec<u8>> = match decode_stream(s) {
        Ok(b) => Some(b),
        Err(_) => None,
    };
    let matte: Option<Vec<Number>> = match s.dict.get("Matte") {
        Some(Object::Array(items)) => {
            proof {
                lemma_array_view(*items);
            }
            items_numbers(items)
        },
        _ => None,
    };
    Some(
        SoftMaskImage {
            width: (width % 0x1_0000_0000) as u32,
            height: (height % 0x1_0000_0000) as u32,
            bits_per_component: bpc as u8,
            data,
            matte,
        },
    )
}

/// The mask that the entry `/SMask` of an image names. An entry that cannot be
/// used is none.
pub open spec fn soft_mask(doc: DocV, parent: DictV) -> Option<MaskV> {
    match dict_get(parent, "SMask"@) {
        None => None,
        Some(o) => match doc.one_hop(o) {
            Ok(ObjV::Stream(d, data)) => mask_of(d, data),
            _ => None,
        },
    }
}

fn extract_soft_mask_image(reader: &mut DocumentReader, parent: &Dict) -> (r: Option<
    SoftMaskImage,
>)
    requires
        old(reader).wf(),
    ensures
        final(reader).wf(),
        final(reader).doc() == old(reader).doc(),
        opt_mask(r) == soft_mask(old(reader).doc(), parent@),
{
    match parent.get("SMask") {
        Some(Object::Reference(id)) => match reader.resolve(*id) {
            Ok(Object::Stream(s)) => read_mask(&s),
            _ => None,
        },
        Some(Object::Stream(s)) => read_mask(s),
        _ => None,
    }
}

/// The kind of the colour space of an image: RGB where nothing is said.
pub open spec fn image_color(doc: DocV, d: DictV) -> Result<ColorV, Seq<char>> {
    match dict_get(d, "ColorSpace"@) {
        None => Ok(ColorV::DeviceRGB),
        Some(o) => match doc.one_hop(o) {
            Err(e) => Err(e),
            Ok(v) => Ok(color_of(v)),
        },
    }
}

fn read_color(reader: &mut DocumentReader, d: &Dict) -> (r: Result<ColorSpace, PdfError>)
    requires
        old(reader).wf(),
    ensures
        final(reader).wf(),
        final(reader).doc() == old(reader).doc(),
        crate::error::outcome(r) == image_color(old(reader).doc(), d@),
{
    match d.get("ColorSpace") {
        None => Ok(ColorSpace::DeviceRGB),
        Some(Object::Reference(id)) => match reader.resolve(*id) {
            Err(e) => Err(e),
            Ok(o) => Ok(ColorSpace::from_object(&o)),
        },
        Some(o) => Ok(ColorSpace::from_object(o)),
    }
}

/// The image that a stream is whose data are a JPEG file: what its dictionary
/// says of it. A size that is missing or negative and a depth that cannot be
/// are errors.
pub open spec fn described(doc: DocV, d: DictV, payload: Seq<u8>) -> Result<ImageV, Seq<char>> {
    match dict_int(d, "Width"@) {
        None => Err("PDF image extraction: Image XObject missing /Width"@),
        Some(w) => match dict_int(d, "Height"@) {
            None => Err("PDF image extraction: Image XObject missing /Height"@),
            Some(h) => if w < 0 || h < 0 {
                Err(
                    "PDF image extraction: negative /Width or /Height ("@ + dec(w as int) + ", "@
                        + dec(h as int) + ")"@,
                )
            } else {
                match image_color(doc, d) {
                    Err(e) => Err(e),
                    Ok(color_space) => if !(1 <= component_bits(d) <= 16) {
                        Err(
                            "PDF image extraction: implausible /BitsPerComponent "@ + dec(
                                component_bits(d) as int,
                            ),
                        )
                    } else {
                        Ok(
                            ImageV {
                                data: payload,
                                width: low_half(w),
                                height: low_half(h),
                                color_space,
                                bits_per_component: component_bits(d) as u8,
                                smask: soft_mask(doc, d),
                            },
                        )
                    },
                }
            },
        },
    }
}

fn describe(reader: &mut DocumentReader, d: &Dict, payload: Vec<u8>) -> (r: Result<
    PdfImageXObject,
    PdfError,
>)
    requires
        old(reader).wf(),
    ensures
        final(reader).wf(),
        final(reader).doc() == old(reader).doc(),
        crate::error::outcome(r) == described(old(reader).doc(), d@, payload@),
{
    let width: i64 = match lookup_int(d, "Width") {
        Some(n) => n,
        None => {
            return Err(PdfError::other("PDF image extraction: Image XObject missing /Width"));
        },
    };
    let height: i64 = match lookup_int(d, "Height") {
        Some(n) => n,
        None => {
            return Err(PdfError::other("PDF image extraction: Image XObject missing /Height"));
        },
    };
    if width < 0 || height < 0 {
        let m: String = cat_int(
            "PDF image extraction: negative /Width or /Height (".to_owned(),
            width,
        );
        let m: String = cat_int(cat(m, ", "), height);
        return Err(PdfError::Other(cat(m, ")")));
    }
    let color_space: ColorSpace = match read_color(reader, d) {
        Ok(c) => c,
        Err(e) => {
            return Err(e);
        },
    };
    let bpc: i64 = match lookup_int(d, "BitsPerComponent") {
        Some(n) => n,
        None => 8,
    };
    if bpc < 1 || bpc > 16 {
        return Err(
            PdfError::Other(
                cat_int(
                    "PDF image extraction: implausible /BitsPerComponent ".to_owned(),
                    bpc,
                ),
            ),
        );
    }
    let smask: Option<SoftMaskImage> = extract_soft_mask_image(reader, d);
    Ok(
        PdfImageXObject {
            data: payload,
            width: (width % 0x1_0000_0000) as u32,
            height: (height % 0x1_0000_0000) as u32,
            color_space,
            bits_per_component: bpc as u8,
            smask,
        },
    )
}

/// The image that an object is, if it is one whose last filter is that of JPEG
/// files and whose others can be undone.
pub open spec fn image_of(doc: DocV, o: ObjV) -> Result<Option<ImageV>, Seq<char>> {
    match o {
        ObjV::Stream(d, data) => if dict_name(d, "Subtype"@) != Some("Image"@) {
            Ok(None)
        } else {
            match filter_names(dict_get(d, "Filter"@)) {
                None => Ok(None),
                Some(names) => if names.len() == 0 || names.last() != "DCTDecode"@ {
                    Ok(None)
                } else {
                    match peeled(names, names.len() - 1, data) {
                        Err(e) => Err(e),
                        Ok(None) => Ok(None),
                        Ok(Some(payload)) => match described(doc, d, payload) {
                            Err(e) => Err(e),
                            Ok(i) => Ok(Some(i)),
                        },
                    }
                },
            }
        },
        _ => Ok(None),
    }
}

/// The image that an object is, if it is a JPEG file.
pub fn try_extract_jpeg(reader: &mut DocumentReader, obj: &Object) -> (r: Result<
    Option<PdfImageXObject>,
    PdfError,
>)
    requires
        old(reader).wf(),
    ensures
        final(reader).wf(),
        final(reader).doc() == old(reader).doc(),
        match r {
            Ok(Some(i)) => image_of(old(reader).doc(), obj@) == Ok::<Option<ImageV>, Seq<char>>(
                Some(i@),
            ),
            Ok(None) => image_of(old(reader).doc(), obj@) == Ok::<Option<ImageV>, Seq<char>>(None),
            Err(e) => image_of(old(reader).doc(), obj@) == Err::<Option<ImageV>, Seq<char>>(e@),
        },
{
    let s: &Stream = match obj {
        Object::Stream(s) => s,
        _ => {
            return Ok(None);
        },
    };
    if !is_named(&s.dict, "Subtype", "Image") {
        return Ok(None);
    }
    let names: Vec<String> = match read_filter_names(&s.dict) {
        Some(v) => v,
        None => {
            return Ok(None);
        },
    };
    let n: usize = names.len();
    if n == 0 {
        return Ok(None);
    }
    proof {
        assert(texts(names@).last() == names@[n - 1]@);
    }
    if !same_text(names[n - 1].as_str(), "DCTDecode") {
        return Ok(None);
    }
    match peel(&names, n - 1, clone_bytes(&s.data)) {
        Err(e) => Err(e),
        Ok(None) => Ok(None),
        Ok(Some(payload)) => match describe(reader, &s.dict, payload) {
            Err(e) => Err(e),
            Ok(i) => Ok(Some(i)),
        },
    }
}

// ----------------------------------------------------------------- the walk

/// The pages of node `id` and below, behind `out`.
pub open spec fn leaves_below(doc: DocV, id: ObjectId, fuel: int, out: Seq<ObjectId>) -> Result<
    Seq<ObjectId>,
    Seq<char>,
>
    decreases fuel, 1int, 0int,
{
    match doc.resolve(id) {
        Err(e) => Err(e),
        Ok(ObjV::Dict(d)) => if dict_name(d, "Type"@) == Some("Page"@) {
            Ok(out.push(id))
        } else if dict_name(d, "Type"@) == Some("Pages"@) {
            match dict_get(d, "Kids"@) {
                Some(ObjV::Array(kids)) => if fuel <= 0 {
                    Err(cyclic())
                } else {
                    leaves_of_kids(doc, kids, 0, fuel, out)
                },
                Some(_) => Err(
                    "PDF image extraction: /Kids must be an array on "@ + id_text(id),
                ),
                None => Err(
                    "PDF image extraction: /Pages node "@ + id_text(id) + " missing /Kids"@,
                ),
            }
        } else {
            Ok(out)
        },
        Ok(_) => Err("PDF image extraction: /Pages node "@ + id_text(id) + " is not a dict"@),
    }
}

/// The pages of the kids from place `i` on and below, behind `out`.
pub open spec fn leaves_of_kids(
    doc: DocV,
    kids: Seq<ObjV>,
    i: int,
    fuel: int,
    out: Seq<ObjectId>,
) -> Result<Seq<ObjectId>, Seq<char>>
    decreases fuel, 0int, kids.len() - i,
{
    if i < 0 || i >= kids.len() || fuel <= 0 {
        Ok(out)
    } else {
        match kids[i] {
            ObjV::Reference(kid) => match leaves_below(doc, kid, fuel - 1, out) {
                Err(e) => Err(e),
                Ok(o) => leaves_of_kids(doc, kids, i + 1, fuel, o),
            },
            _ => leaves_of_kids(doc, kids, i + 1, fuel, out),
        }
    }
}

fn walk_pages(reader: &mut DocumentReader, id: ObjectId, fuel: usize, out: &mut Vec<ObjectId>) -> (r:
    Result<(), PdfError>)
    requires
        old(reader).wf(),
    ensures
        final(reader).wf(),
        final(reader).doc() == old(reader).doc(),
        match r {
            Ok(_) => leaves_below(old(reader).doc(), id, fuel as int, old(out)@) == Ok::<
                Seq<ObjectId>,
                Seq<char>,
            >(final(out)@),
            Err(e) => leaves_below(old(reader).doc(), id, fuel as int, old(out)@) == Err::<
                Seq<ObjectId>,
                Seq<char>,
            >(e@),
        },
    decreases fuel,
{
    let ghost doc = reader.doc();
    let d: Dict = match reader.resolve(id) {
        Err(e) => {
            return Err(e);
        },
        Ok(Object::Dict(d)) => d,
        Ok(_) => {
            let m: String = cat_id("PDF image extraction: /Pages node ".to_owned(), id);
            return Err(PdfError::Other(cat(m, " is not a dict")));
        },
    };
    if is_named(&d, "Type", "Page") {
        out.push(id);
        return Ok(());
    }
    if !is_named(&d, "Type", "Pages") {
        return Ok(());
    }
    let kids: &Vec<Object> = match d.get("Kids") {
        Some(Object::Array(kids)) => kids,
        Some(_) => {
            return Err(
                PdfError::Other(
                    cat_id("PDF image extraction: /Kids must be an array on ".to_owned(), id),
                ),
            );
        },
        None => {
            let m: String = cat_id("PDF image extraction: /Pages node ".to_owned(), id);
            return Err(PdfError::Other(cat(m, " missing /Kids")));
        },
    };
    if fuel == 0 {
        return Err(PdfError::other("PDF reader: references form a cycle"));
    }
    proof {
        lemma_array_view(*kids);
    }
    let ghost view = objs_view(kids@);
    let ghost goal = leaves_of_kids(doc, view, 0, fuel as int, out@);
    let mut i: usize = 0;
    while i < kids.len()
        invariant
            i <= kids@.len(),
            view == objs_view(kids@),
            reader.wf(),
            reader.doc() == doc,
            doc == old(reader).doc(),
            fuel > 0,
            goal == leaves_below(doc, id, fuel as int, old(out)@),
            goal == leaves_of_kids(doc, view, i as int, fuel as int, out@),
        decreases kids.len() - i,
    {
        proof {
            assert(view[i as int] == kids@[i as int]@);
        }
        if let Object::Reference(kid) = &kids[i] {
            match walk_pages(reader, *kid, fuel - 1, out) {
                Ok(_) => {},
                Err(e) => {
                    return Err(e);
                },
            }
        }
        i = i + 1;
    }
    Ok(())
}

/// What a walk has found: the objects that were looked at, and the images.
pub struct FoundV {
    pub seen: Set<u64>,
    pub images: Seq<(ObjectId, ImageV)>,
}

struct Found {
    seen: HashSet<u64>,
    images: Vec<(ObjectId, PdfImageXObject)>,
}

impl View for Found {
    type V = FoundV;

    closed spec fn view(&self) -> FoundV {
        FoundV { seen: self.seen@, images: images_view(self.images@) }
    }
}

/// The images among the entries of a dictionary from place `i` on. Each object
/// is looked at once.
pub open spec fn found_in_dict(doc: DocV, d: DictV, i: int, f: FoundV) -> Result<FoundV, Seq<char>>
    decreases d.len() - i,
{
    if i < 0 || i >= d.len() {
        Ok(f)
    } else {
        match d[i].1 {
            ObjV::Reference(id) => if f.seen.contains(cache_key(id)) {
                found_in_dict(doc, d, i + 1, f)
            } else {
                match doc.resolve(id) {
                    Err(e) => Err(e),
                    Ok(o) => match image_of(doc, o) {
                        Err(e) => Err(e),
                        Ok(image) => found_in_dict(
                            doc,
                            d,
                            i + 1,
                            FoundV {
                                seen: f.seen.insert(cache_key(id)),
                                images: match image {
                                    Some(v) => f.images.push((id, v)),
                                    None => f.images,
                                },
                            },
                        ),
                    },
                }
            },
            _ => found_in_dict(doc, d, i + 1, f),
        }
    }
}

/// `r` and `f` are what `w` says.
spec fn found_agrees(r: Result<(), PdfError>, f: Found, w: Result<FoundV, Seq<char>>) -> bool {
    match r {
        Ok(_) => w == Ok::<FoundV, Seq<char>>(f@),
        Err(e) => w == Err::<FoundV, Seq<char>>(e@),
    }
}

fn collect_dict_images(reader: &mut DocumentReader, d: &Dict, f: &mut Found) -> (r: Result<
    (),
    PdfError,
>)
    requires
        old(reader).wf(),
    ensures
        final(reader).wf(),
        final(reader).doc() == old(reader).doc(),
        found_agrees(r, *final(f), found_in_dict(old(reader).doc(), d@, 0, old(f)@)),
{
    let ghost doc = reader.doc();
    let ghost goal = found_in_dict(doc, d@, 0, f@);
    let mut i: usize = 0;
    while i < d.entries.len()
        invariant
            i <= d.entries@.len(),
            reader.wf(),
            reader.doc() == doc,
            doc == old(reader).doc(),
            d@.len() == d.entries@.len(),
            goal == found_in_dict(doc, d@, 0, old(f)@),
            goal == found_in_dict(doc, d@, i as int, f@),
        decreases d.entries.len() - i,
    {
        proof {
            assert(d@[i as int] == (d.entries@[i as int].0@, d.entries@[i as int].1@));
        }
        if let Object::Reference(id) = &d.entries[i].1 {
            let key: u64 = id.number as u64 * 65536 + id.generation as u64;
            proof {
                assert(key == cache_key(*id));
            }
            if !f.seen.contains(&key) {
                let o: Object = match reader.resolve(*id) {
                    Ok(o) => o,
                    Err(e) => {
                        return Err(e);
                    },
                };
                f.seen.insert(key);
                match try_extract_jpeg(reader, &o) {
                    Err(e) => {
                        return Err(e);
                    },
                    Ok(Some(image)) => {
                        let ghost before = images_view(f.images@);
                        let ghost v = image@;
                        f.images.push((*id, image));
                        proof {
                            assert(images_view(f.images@) =~= before.push((*id, v)));
                        }
                    },
                    Ok(None) => {},
                }
            }
        }
        i = i + 1;
    }
    Ok(())
}

/// The images of a page.
pub open spec fn found_on_page(doc: DocV, page: ObjectId, f: FoundV) -> Result<FoundV, Seq<char>> {
    match doc.resolve(page) {
        Err(e) => Err(e),
        Ok(ObjV::Dict(d)) => match hop_dict(doc, d, "Resources"@) {
            Err(e) => Err(e),
            Ok(None) => Ok(f),
            Ok(Some(resources)) => match hop_dict(doc, resources, "XObject"@) {
                Err(e) => Err(e),
                Ok(None) => Ok(f),
                Ok(Some(xobjects)) => found_in_dict(doc, xobjects, 0, f),
            },
        },
        Ok(_) => Ok(f),
    }
}

fn collect_page_xobjects(reader: &mut DocumentReader, page: ObjectId, f: &mut Found) -> (r: Result<
    (),
    PdfError,
>)
    requires
        old(reader).wf(),
    ensures
        final(reader).wf(),
        final(reader).doc() == old(reader).doc(),
        found_agrees(r, *final(f), found_on_page(old(reader).doc(), page, old(f)@)),
{
    let d: Dict = match reader.resolve(page) {
        Err(e) => {
            return Err(e);
        },
        Ok(Object::Dict(d)) => d,
        Ok(_) => {
            return Ok(());
        },
    };
    let resources: Dict = match read_hop_dict(reader, &d, "Resources") {
        Err(e) => {
            return Err(e);
        },
        Ok(Some(d)) => d,
        Ok(None) => {
            return Ok(());
        },
    };
    match read_hop_dict(reader, &resources, "XObject") {
        Err(e) => Err(e),
        Ok(Some(xobjects)) => collect_dict_images(reader, &xobjects, f),
        Ok(None) => Ok(()),
    }
}

/// The images of the pages from place `i` on.
pub open spec fn found_on_pages(doc: DocV, pages: Seq<ObjectId>, i: int, f: FoundV) -> Result<
    FoundV,
    Seq<char>,
>
    decreases pages.len() - i,
{
    if i < 0 || i >= pages.len() {
        Ok(f)
    } else {
        match found_on_page(doc, pages[i], f) {
            Err(e) => Err(e),
            Ok(next) => found_on_pages(doc, pages, i + 1, next),
        }
    }
}

/// The images of a document that are JPEG files, in the order in which its pages
/// first name them.
pub open spec fn document_images(doc: DocV) -> Result<Seq<(ObjectId, ImageV)>, Seq<char>> {
    match doc.catalog() {
        Err(e) => Err(e),
        Ok(ObjV::Dict(catalog)) => match dict_get(catalog, "Pages"@) {
            None => Err("PDF image extraction: catalog missing /Pages"@),
            Some(ObjV::Reference(root)) => match leaves_below(
                doc,
                root,
                doc.longest_chain(),
                Seq::empty(),
            ) {
                Err(e) => Err(e),
                Ok(leaves) => match found_on_pages(
                    doc,
                    leaves,
                    0,
                    FoundV { seen: Set::empty(), images: Seq::empty() },
                ) {
                    Err(e) => Err(e),
                    Ok(f) => Ok(f.images),
                },
            },
            Some(o) => Err("PDF image extraction: catalog /Pages must be a reference"@ + got(o)),
        },
        Ok(o) => Err("PDF image extraction: /Root must be a dictionary"@ + got(o)),
    }
}

/// The images of a document that are JPEG files, each once.
pub fn image_xobjects(reader: &mut DocumentReader) -> (r: Result<
    Vec<(ObjectId, PdfImageXObject)>,
    PdfError,
>)
    requires
        old(reader).wf(),
    ensures
        final(reader).wf(),
        final(reader).doc() == old(reader).doc(),
        match r {
            Ok(v) => document_images(old(reader).doc()) == Ok::<
                Seq<(ObjectId, ImageV)>,
                Seq<char>,
            >(images_view(v@)),
            Err(e) => document_images(old(reader).doc()) == Err::<
                Seq<(ObjectId, ImageV)>,
                Seq<char>,
            >(e@),
        },
{
    let ghost doc = reader.doc();
    let catalog: Dict = match reader.catalog() {
        Err(e) => {
            return Err(e);
        },
        Ok(Object::Dict(d)) => d,
        Ok(o) => {
            return Err(unexpected("PDF image extraction: /Root must be a dictionary", &o));
        },
    };
    let root: ObjectId = match catalog.get("Pages") {
        None => {
            return Err(PdfError::other("PDF image extraction: catalog missing /Pages"));
        },
        Some(Object::Reference(id)) => *id,
        Some(o) => {
            return Err(unexpected("PDF image extraction: catalog /Pages must be a reference", o));
        },
    };
    let mut leaves: Vec<ObjectId> = Vec::new();
    let fuel: usize = reader.chain_limit();
    match walk_pages(reader, root, fuel, &mut leaves) {
        Ok(_) => {},
        Err(e) => {
            return Err(e);
        },
    }
    let mut f: Found = Found { seen: HashSet::new(), images: Vec::new() };
    let ghost start = FoundV { seen: Set::empty(), images: Seq::empty() };
    proof {
        assert(f@.images =~= Seq::empty());
        assert(f@.seen =~= Set::empty());
    }
    let mut i: usize = 0;
    while i < leaves.len()
        invariant
            i <= leaves@.len(),
            reader.wf(),
            reader.doc() == doc,
            doc == old(reader).doc(),
            document_images(doc) == (match found_on_pages(doc, leaves@, 0, start) {
                Err(e) => Err::<Seq<(ObjectId, ImageV)>, Seq<char>>(e),
                Ok(v) => Ok::<Seq<(ObjectId, ImageV)>, Seq<char>>(v.images),
            }),
            found_on_pages(doc, leaves@, 0, start) == found_on_pages(doc, leaves@, i as int, f@),
        decreases leaves.len() - i,
    {
        match collect_page_xobjects(reader, leaves[i], &mut f) {
            Ok(_) => {},
            Err(e) => {
                return Err(e);
            },
        }
        i = i + 1;
    }
    Ok(f.images)
}

impl<'a> DocumentReader<'a> {
    /// The images of the document that are JPEG files, each once.
    pub fn image_xobjects(&mut self) -> (r: Result<Vec<(ObjectId, PdfImageXObject)>, PdfError>)
        requires
            old(self).wf(),
        ensures
            final(self).wf(),
            final(self).doc() == old(self).doc(),
            match r {
                Ok(v) => document_images(old(self).doc()) == Ok::<
                    Seq<(ObjectId, ImageV)>,
                    Seq<char>,
                >(images_view(v@)),
                Err(e) => document_images(old(self).doc()) == Err::<
                    Seq<(ObjectId, ImageV)>,
                    Seq<char>,
                >(e@),
            },
    {
        image_xobjects(self)
    }
}

// ------------------------------------------------------------------- laws

/// Every image found is among the objects looked at, and none occurs twice.
pub open spec fn once(f: FoundV) -> bool {
    &&& forall|i: int|
        0 <= i < f.images.len() ==> f.seen.contains(cache_key((#[trigger] f.images[i]).0))
    &&& forall|i: int, j: int|
        0 <= i < j < f.images.len() ==> (#[trigger] f.images[i]).0 != (#[trigger] f.images[j]).0
}

proof fn lemma_dict_once(doc: DocV, d: DictV, i: int, f: FoundV)
    requires
        once(f),
    ensures
        match found_in_dict(doc, d, i, f) {
            Ok(g) => once(g),
            Err(_) => true,
        },
    decreases d.len() - i,
{
    if 0 <= i < d.len() {
        match d[i].1 {
            ObjV::Reference(id) => {
                if !f.seen.contains(cache_key(id)) && doc.resolve(id) is Ok {
                    let image = image_of(doc, doc.resolve(id)->Ok_0);
                    if image is Ok {
                        let next = FoundV {
                            seen: f.seen.insert(cache_key(id)),
                            images: match image->Ok_0 {
                                Some(v) => f.images.push((id, v)),
                                None => f.images,
                            },
                        };
                        assert(once(next));
                        lemma_dict_once(doc, d, i + 1, next);
                    }
                } else {
                    lemma_dict_once(doc, d, i + 1, f);
                }
            },
            _ => {
                lemma_dict_once(doc, d, i + 1, f);
            },
        }
    }
}

proof fn lemma_pages_once(doc: DocV, pages: Seq<ObjectId>, i: int, f: FoundV)
    requires
        once(f),
    ensures
        match found_on_pages(doc, pages, i, f) {
            Ok(g) => once(g),
            Err(_) => true,
        },
    decreases pages.len() - i,
{
    if 0 <= i < pages.len() {
        if let Ok(ObjV::Dict(d)) = doc.resolve(pages[i]) {
            if let Ok(Some(resources)) = hop_dict(doc, d, "Resources"@) {
                if let Ok(Some(xobjects)) = hop_dict(doc, resources, "XObject"@) {
                    lemma_dict_once(doc, xobjects, 0, f);
                }
            }
        }
        if let Ok(next) = found_on_page(doc, pages[i], f) {
            lemma_pages_once(doc, pages, i + 1, next);
        }
    }
}

/// An image that several pages name is listed once.
pub proof fn law_images_once(doc: DocV, images: Seq<(ObjectId, ImageV)>)
    requires
        document_images(doc) == Ok::<Seq<(ObjectId, ImageV)>, Seq<char>>(images),
    ensures
        forall|i: int, j: int|
            0 <= i < j < images.len() ==> (#[trigger] images[i]).0 != (#[trigger] images[j]).0,
{
    if let Ok(ObjV::Dict(catalog)) = doc.catalog() {
        if let Some(ObjV::Reference(root)) = dict_get(catalog, "Pages"@) {
            let leaves = leaves_below(doc, root, doc.longest_chain(), Seq::empty())->Ok_0;
            lemma_pages_once(
                doc,
                leaves,
                0,
                FoundV { seen: Set::empty(), images: Seq::empty() },
            );
        }
    }
}

/// The data of an image with no filter but that of JPEG files are handed out as
/// they are.
pub proof fn law_jpeg_unchanged(doc: DocV, d: DictV, data: Seq<u8>, image: ImageV)
    requires
        dict_get(d, "Filter"@) == Some(ObjV::Name("DCTDecode"@)),
        image_of(doc, ObjV::Stream(d, data)) == Ok::<Option<ImageV>, Seq<char>>(Some(image)),
    ensures
        image.data == data,
{
    let names = seq!["DCTDecode"@];
    assert(names.len() == 1 && names.last() == "DCTDecode"@);
    assert(peeled(names, 0, data) == Ok::<Option<Seq<u8>>, Seq<char>>(Some(data)));
}

} // verus!
