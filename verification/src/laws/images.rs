//! Laws of images: their samples, their colours and where they are found.

use vstd::prelude::*;
use crate::document::{cache_key, DocV};
use crate::image_decode::{
    codes_of, coverage_of, in_key, masked_of, pixels_of, readable, resampled, row_at, stride_of,
};
use crate::images::{
    color_of, component_bits, described, document_images, filter_names, found_in_dict,
    found_on_page, found_on_pages, image_color, image_of, leaves_below, leaves_of_kids, peeled,
    soft_mask, ColorV, FoundV, ImageV,
};
use crate::laws::content::has_dict;
use crate::laws::navigation::{height, height_from, lemma_height_from};
use crate::laws::pages::{
    law_numbers, leaves, leaves_from, numbers_written, tree_in, tree_root, trees_in, PageTree,
};
use crate::laws::resources::leads;
use crate::laws::tiff::{are_components, lemma_component_of, row_of};
use crate::number::NumV;
use crate::objects::{dict_get, DictV, ObjV, ObjectId};
use crate::stream::{filtered, is_byte_filter, stream_data};

verus! {

// ------------------------------------------------------------------ samples

/// A row takes as many whole bytes as its bits need, and no more.
pub proof fn law_row_stride(width: int, n: int, bpc: int, s: int)
    requires
        width >= 0,
        n >= 0,
        bpc >= 0,
        width * n * bpc + 7 <= usize::MAX,
        width * n <= usize::MAX,
        width * n * bpc >= 0,
        stride_of(width, n, bpc) == Some(s),
    ensures
        8 * s >= width * n * bpc,
        8 * (s - 1) < width * n * bpc,
{
    let b = width * n * bpc;
    assert(s == (b + 7) / 8);
}

proof fn lemma_row(rows: Seq<Seq<u8>>, stride: int, y: int)
    requires
        0 <= y < rows.len(),
        stride >= 0,
        forall|k: int| 0 <= k < rows.len() ==> (#[trigger] rows[k]).len() == stride,
    ensures
        rows.flatten_alt().len() == stride * rows.len(),
        row_at(rows.flatten_alt(), stride, y) == rows[y],
    decreases rows.len(),
{
    let all = rows.flatten_alt();
    let before = rows.drop_last();
    let last = rows.last();
    assert(all == before.flatten_alt() + last);
    assert(rows[rows.len() - 1].len() == stride);
    assert forall|k: int| 0 <= k < before.len() implies (#[trigger] before[k]).len() == stride by {
        assert(before[k] == rows[k]);
    }
    lemma_rows_len(before, stride);
    let n = before.len() as int;
    assert(stride * n + stride == stride * (n + 1)) by (nonlinear_arith);
    if y == n {
        assert(y * stride == stride * n && (y + 1) * stride == stride * n + stride)
            by (nonlinear_arith)
            requires
                y == n,
        ;
        assert(all.subrange(y * stride, (y + 1) * stride) =~= last);
    } else {
        lemma_row(before, stride, y);
        assert(0 <= y * stride && y * stride <= (y + 1) * stride && (y + 1) * stride <= stride * n)
            by (nonlinear_arith)
            requires
                0 <= y < n,
                stride >= 0,
        ;
        assert(row_at(all, stride, y) =~= row_at(before.flatten_alt(), stride, y));
        assert(before[y] == rows[y]);
    }
}

proof fn lemma_rows_len(rows: Seq<Seq<u8>>, stride: int)
    requires
        stride >= 0,
        forall|k: int| 0 <= k < rows.len() ==> (#[trigger] rows[k]).len() == stride,
    ensures
        rows.flatten_alt().len() == stride * rows.len(),
    decreases rows.len(),
{
    if rows.len() > 0 {
        let before = rows.drop_last();
        assert(rows[rows.len() - 1].len() == stride);
        assert forall|k: int| 0 <= k < before.len() implies (#[trigger] before[k]).len()
            == stride by {
            assert(before[k] == rows[k]);
        }
        lemma_rows_len(before, stride);
        let n = before.len() as int;
        assert(stride * n + stride == stride * (n + 1)) by (nonlinear_arith);
    }
}

/// The rows of an image, packed one behind the other, each from a byte of its own.
pub open spec fn image_bytes(rows: Seq<Seq<int>>, bpc: int, stride: int) -> Seq<u8> {
    Seq::new(rows.len(), |y: int| row_of(rows[y], bpc, stride)).flatten_alt()
}

/// The codes of an image are read back from its packed rows, whatever the width of a
/// component.
#[verifier::rlimit(50)]
pub proof fn law_codes_round_trip(
    rows: Seq<Seq<int>>,
    per_row: int,
    bpc: int,
    stride: int,
    y: int,
    k: int,
)
    requires
        bpc == 1 || bpc == 2 || bpc == 4 || bpc == 8 || bpc == 16,
        0 <= y < rows.len(),
        0 <= k < per_row,
        per_row * bpc <= 8 * stride,
        stride >= 0,
        forall|j: int|
            0 <= j < rows.len() ==> (#[trigger] rows[j]).len() == per_row && are_components(
                rows[j],
                bpc,
            ),
    ensures
        codes_of(image_bytes(rows, bpc, stride), per_row, rows.len() as int, bpc, stride).len()
            == rows.len() * per_row,
        codes_of(image_bytes(rows, bpc, stride), per_row, rows.len() as int, bpc, stride)[y
            * per_row + k] == rows[y][k],
{
    let packed = Seq::new(rows.len(), |y: int| row_of(rows[y], bpc, stride));
    let data = image_bytes(rows, bpc, stride);
    lemma_row(packed, stride, y);
    let i = y * per_row + k;
    assert(rows[y].len() == per_row && are_components(rows[y], bpc));
    lemma_component_of(rows[y], bpc, stride, k);
    vstd::arithmetic::div_mod::lemma_fundamental_div_mod_converse(i, per_row, y, k);
    assert(0 <= i < rows.len() * per_row) by (nonlinear_arith)
        requires
            0 <= y < rows.len(),
            0 <= k < per_row,
            i == y * per_row + k,
    ;
    assert(rows.len() * per_row >= 0) by (nonlinear_arith)
        requires
            0 <= per_row,
            rows.len() >= 0,
    ;
    assert(0 <= rows[y][k] < 65536);
}

/// An image can be read if it has pixels, components of 1, 2, 4, 8 or 16 bits, and
/// data for all rows; a key needs a range for each component.
pub proof fn law_readable(
    len: int,
    width: int,
    height: int,
    bpc: int,
    n: int,
    key: Seq<(u16, u16)>,
    s: int,
)
    requires
        width > 0,
        height > 0,
        n > 0,
        stride_of(width, n, bpc) == Some(s),
    ensures
        (bpc == 1 || bpc == 2 || bpc == 4 || bpc == 8 || bpc == 16) ==> (readable(
            len,
            width,
            height,
            bpc,
            n,
            None,
        ) <==> s * height <= len),
        key.len() == n ==> (readable(len, width, height, bpc, n, Some(key)) <==> readable(
            len,
            width,
            height,
            bpc,
            n,
            None,
        )),
        key.len() != n ==> !readable(len, width, height, bpc, n, Some(key)),
        !(bpc == 1 || bpc == 2 || bpc == 4 || bpc == 8 || bpc == 16) ==> !readable(
            len,
            width,
            height,
            bpc,
            n,
            None,
        ),
        !readable(len, 0, height, bpc, n, None),
        !readable(len, width, 0, bpc, n, None),
{
}

/// A key hides a pixel if each of its codes is no less than the first and no more
/// than the last of its range.
pub proof fn law_key(
    codes: Seq<u16>,
    pixels: int,
    i: int,
    r: (u16, u16),
    g: (u16, u16),
    b: (u16, u16),
)
    requires
        0 <= i < pixels,
        codes.len() == 3 * pixels,
    ensures
        masked_of(codes, pixels, 3, Some(seq![r, g, b]))[i] == (r.0 <= codes[3 * i] <= r.1 && g.0
            <= codes[3 * i + 1] <= g.1 && b.0 <= codes[3 * i + 2] <= b.1),
        masked_of(codes, pixels, 3, None)[i] == false,
        masked_of(codes, pixels, 3, Some(seq![r, g, b])).len() == pixels,
{
    let key = seq![r, g, b];
    assert(key[0] == r && key[1] == g && key[2] == b);
    if in_key(codes, i * 3, key) {
        assert(key[0].0 <= codes[i * 3 + 0]);
        assert(key[1].0 <= codes[i * 3 + 1]);
        assert(key[2].0 <= codes[i * 3 + 2]);
    }
}

proof fn lemma_pixels(colors: Seq<Option<[u8; 4]>>, masked: Seq<bool>, n: int, i: int, c: int)
    requires
        colors.len() == masked.len(),
        0 <= i < n <= colors.len(),
        0 <= c < 4,
    ensures
        pixels_of(colors, masked, n).len() == 4 * n,
        colors[i] matches Some(p) ==> pixels_of(colors, masked, n)[4 * i + c] == (if c == 3
            && masked[i] {
            0
        } else {
            p@[c]
        }),
        colors[i] is None ==> pixels_of(colors, masked, n)[4 * i + c] == 0,
    decreases n,
{
    lemma_pixels_len(colors, masked, n - 1);
    if i < n - 1 {
        lemma_pixels(colors, masked, n - 1, i, c);
    }
}

proof fn lemma_pixels_len(colors: Seq<Option<[u8; 4]>>, masked: Seq<bool>, n: int)
    requires
        colors.len() == masked.len(),
        0 <= n <= colors.len(),
    ensures
        pixels_of(colors, masked, n).len() == 4 * n,
    decreases n,
{
    if n > 0 {
        lemma_pixels_len(colors, masked, n - 1);
    }
}

/// Pixel `i` is the four bytes from `4 * i` on: its colour, and its opacity, which is
/// 0 where it is hidden.
pub proof fn law_pixels(colors: Seq<Option<[u8; 4]>>, masked: Seq<bool>, i: int, c: int)
    requires
        colors.len() == masked.len(),
        0 <= i < colors.len(),
        0 <= c < 4,
    ensures
        pixels_of(colors, masked, colors.len() as int).len() == 4 * colors.len(),
        colors[i] matches Some(p) ==> pixels_of(colors, masked, colors.len() as int)[4 * i + c] == (
        if c == 3 && masked[i] {
            0
        } else {
            p@[c]
        }),
        colors[i] is None ==> pixels_of(colors, masked, colors.len() as int)[4 * i + c] == 0,
{
    lemma_pixels(colors, masked, colors.len() as int, i, c);
}

/// A stencil marks where its bits are 0, or where they are 1 if it is flipped.
#[verifier::rlimit(50)]
pub proof fn law_stencil(rows: Seq<Seq<int>>, width: int, stride: int, y: int, x: int, flip: bool)
    requires
        0 <= y < rows.len(),
        0 <= x < width,
        width <= 8 * stride,
        stride >= 0,
        forall|j: int|
            0 <= j < rows.len() ==> (#[trigger] rows[j]).len() == width && are_components(
                rows[j],
                1,
            ),
    ensures
        coverage_of(image_bytes(rows, 1, stride), width, rows.len() as int, stride, false)[y * width
            + x] == (if rows[y][x] == 0 {
            255u8
        } else {
            0u8
        }),
        coverage_of(image_bytes(rows, 1, stride), width, rows.len() as int, stride, true)[y * width
            + x] == (if rows[y][x] == 0 {
            0u8
        } else {
            255u8
        }),
{
    let packed = Seq::new(rows.len(), |y: int| row_of(rows[y], 1, stride));
    lemma_row(packed, stride, y);
    let i = y * width + x;
    assert(rows[y].len() == width && are_components(rows[y], 1));
    lemma_component_of(rows[y], 1, stride, x);
    vstd::arithmetic::div_mod::lemma_fundamental_div_mod_converse(i, width, y, x);
    assert(0 <= i < rows.len() * width) by (nonlinear_arith)
        requires
            0 <= y < rows.len(),
            0 <= x < width,
            i == y * width + x,
    ;
}

/// A stretched plane has at each place the value of the source at the same part of
/// the width and of the height.
#[verifier::rlimit(50)]
pub proof fn law_resampled(
    src: Seq<u8>,
    sw: int,
    sh: int,
    dw: int,
    dh: int,
    x: int,
    y: int,
    sx: int,
    sy: int,
)
    requires
        sw > 0,
        sh > 0,
        0 <= x < dw,
        0 <= y < dh,
        sx * dw <= x * sw < (sx + 1) * dw,
        sy * dh <= y * sh < (sy + 1) * dh,
    ensures
        resampled(src, sw, sh, dw, dh)[y * dw + x] == src[sy * sw + sx],
        resampled(src, sw, sh, dw, dh).len() == dw * dh,
{
    let i = y * dw + x;
    vstd::arithmetic::div_mod::lemma_fundamental_div_mod_converse(i, dw, y, x);
    assert(0 <= i < dh * dw) by (nonlinear_arith)
        requires
            0 <= y < dh,
            0 <= x < dw,
            i == y * dw + x,
    ;
    assert(dw * dh == dh * dw) by (nonlinear_arith);
    lemma_part(x * sw, dw, sx);
    lemma_part(y * sh, dh, sy);
}

proof fn lemma_part(v: int, d: int, q: int)
    requires
        d > 0,
        q * d <= v < (q + 1) * d,
    ensures
        v / d == q,
{
    assert((q + 1) * d == q * d + d) by (nonlinear_arith);
    vstd::arithmetic::div_mod::lemma_fundamental_div_mod_converse(v, d, q, v - q * d);
}

// ------------------------------------------------------------- descriptions

/// The kinds of colour spaces by their names, long and short.
pub proof fn law_color_names(n: Seq<char>, rest: Seq<ObjV>)
    ensures
        color_of(ObjV::Name("DeviceRGB"@)) == ColorV::DeviceRGB,
        color_of(ObjV::Name("RGB"@)) == ColorV::DeviceRGB,
        color_of(ObjV::Name("DeviceCMYK"@)) == ColorV::DeviceCMYK,
        color_of(ObjV::Name("CMYK"@)) == ColorV::DeviceCMYK,
        color_of(ObjV::Name("DeviceGray"@)) == ColorV::DeviceGray,
        color_of(ObjV::Name("G"@)) == ColorV::DeviceGray,
        color_of(ObjV::Array(seq![ObjV::Name("Indexed"@)] + rest)) == ColorV::Indexed,
        n.len() > 10 || n.len() == 0 ==> color_of(ObjV::Name(n)) == ColorV::Other(n),
        n.len() != 7 ==> color_of(ObjV::Array(seq![ObjV::Name(n)] + rest)) == ColorV::Other(n),
{
    reveal_strlit("DeviceRGB");
    reveal_strlit("RGB");
    reveal_strlit("DeviceCMYK");
    reveal_strlit("CMYK");
    reveal_strlit("DeviceGray");
    reveal_strlit("G");
    reveal_strlit("Indexed");
    assert("DeviceRGB"@.len() == 9 && "RGB"@.len() == 3 && "DeviceCMYK"@.len() == 10
        && "CMYK"@.len() == 4 && "DeviceGray"@.len() == 10 && "G"@.len() == 1 && "Indexed"@.len()
        == 7);
    assert("DeviceCMYK"@[6] == 'C' && "DeviceGray"@[6] == 'G');
    assert((seq![ObjV::Name("Indexed"@)] + rest)[0] == ObjV::Name("Indexed"@));
    assert((seq![ObjV::Name(n)] + rest)[0] == ObjV::Name(n));
}

/// The colour space of an image, which it may refer to, is RGB where none is said;
/// a component has 8 bits where nothing is said.
pub proof fn law_image_defaults(doc: DocV, d: DictV, o: ObjV, v: ObjV, n: i64)
    ensures
        dict_get(d, "ColorSpace"@) is None ==> image_color(doc, d) == Ok::<ColorV, Seq<char>>(
            ColorV::DeviceRGB,
        ),
        dict_get(d, "ColorSpace"@) == Some(o) && leads(doc, o, v) ==> image_color(doc, d) == Ok::<
            ColorV,
            Seq<char>,
        >(color_of(v)),
        dict_get(d, "BitsPerComponent"@) is None ==> component_bits(d) == 8,
        dict_get(d, "BitsPerComponent"@) == Some(ObjV::Integer(n)) ==> component_bits(d) == n,
{
}

/// An image has its size, its depth, its colours and its mask from its dictionary; a
/// missing or negative size, and a depth other than 1 to 16, is refused.
pub proof fn law_described(
    doc: DocV,
    d: DictV,
    payload: Seq<u8>,
    w: i64,
    h: i64,
    bits: i64,
    color: ColorV,
)
    requires
        image_color(doc, d) == Ok::<ColorV, Seq<char>>(color),
        component_bits(d) == bits,
    ensures
        dict_get(d, "Width"@) == Some(ObjV::Integer(w)) && dict_get(d, "Height"@) == Some(
            ObjV::Integer(h),
        ) && 0 <= w <= u32::MAX && 0 <= h <= u32::MAX && 1 <= bits <= 16 ==> described(
            doc,
            d,
            payload,
        ) == Ok::<ImageV, Seq<char>>(
            ImageV {
                data: payload,
                width: w as u32,
                height: h as u32,
                color_space: color,
                bits_per_component: bits as u8,
                smask: soft_mask(doc, d),
            },
        ),
        dict_get(d, "Width"@) is None || dict_get(d, "Height"@) is None ==> described(
            doc,
            d,
            payload,
        ) is Err,
        dict_get(d, "Width"@) == Some(ObjV::Integer(w)) && w < 0 ==> described(doc, d, payload) is Err,
        dict_get(d, "Height"@) == Some(ObjV::Integer(h)) && h < 0 ==> described(doc, d, payload) is Err,
        bits < 1 || bits > 16 ==> described(doc, d, payload) is Err,
{
}

/// A mask, which may be referred to, has its size, its depth, its samples and its
/// matte; a mask that is no image is none.
pub proof fn law_soft_mask(
    doc: DocV,
    parent: DictV,
    o: ObjV,
    d: DictV,
    data: Seq<u8>,
    w: u32,
    h: u32,
    bits: i64,
    matte: Seq<NumV>,
)
    requires
        dict_get(parent, "SMask"@) == Some(o),
        leads(doc, o, ObjV::Stream(d, data)),
        dict_get(d, "Width"@) == Some(ObjV::Integer(w as i64)),
        dict_get(d, "Height"@) == Some(ObjV::Integer(h as i64)),
        component_bits(d) == bits,
        1 <= bits <= 16,
    ensures
        dict_get(d, "Subtype"@) == Some(ObjV::Name("Image"@)) ==> (soft_mask(doc, parent) matches
            Some(m) && {
            &&& m.width == w
            &&& m.height == h
            &&& m.bits_per_component == bits
            &&& stream_data(d, data) matches Ok(b) ==> m.data == Some(b)
            &&& stream_data(d, data) is Err ==> m.data is None
            &&& dict_get(d, "Matte"@) == Some(numbers_written(matte)) ==> m.matte == Some(matte)
            &&& dict_get(d, "Matte"@) is None ==> m.matte is None
        }),
        dict_get(d, "Subtype"@) is None ==> soft_mask(doc, parent) is None,
{
    law_numbers(matte, Seq::empty(), 0, 0);
}

/// An image without a mask has none.
pub proof fn law_no_soft_mask(doc: DocV, parent: DictV)
    requires
        dict_get(parent, "SMask"@) is None,
    ensures
        soft_mask(doc, parent) is None,
{
}

proof fn lemma_filter_names(names: Seq<Seq<char>>, n: int)
    requires
        0 <= n <= names.len(),
    ensures
        crate::images::all_names(Seq::new(names.len(), |i: int| ObjV::Name(names[i])), n) == Some(
            names.take(n),
        ),
    decreases n,
{
    if n > 0 {
        lemma_filter_names(names, n - 1);
        assert(names.take(n) =~= names.take(n - 1).push(names[n - 1]));
    } else {
        assert(names.take(0) =~= Seq::empty());
    }
}

/// An image whose last filter is that of JPEG files is the data with the filters in
/// front of it undone, in order.
pub proof fn law_jpeg_behind_filter(
    doc: DocV,
    d: DictV,
    data: Seq<u8>,
    first: Seq<char>,
    inner: Seq<u8>,
    image: ImageV,
)
    requires
        dict_get(d, "Subtype"@) == Some(ObjV::Name("Image"@)),
        dict_get(d, "Filter"@) == Some(
            ObjV::Array(seq![ObjV::Name(first), ObjV::Name("DCTDecode"@)]),
        ),
        is_byte_filter(first),
        filtered(first, data, None) == Ok::<Seq<u8>, Seq<char>>(inner),
        described(doc, d, inner) == Ok::<ImageV, Seq<char>>(image),
    ensures
        image_of(doc, ObjV::Stream(d, data)) == Ok::<Option<ImageV>, Seq<char>>(Some(image)),
{
    let names = seq![first, "DCTDecode"@];
    lemma_filter_names(names, 2);
    assert(names.take(2) =~= names);
    assert(Seq::new(names.len(), |i: int| ObjV::Name(names[i])) =~= seq![
        ObjV::Name(first),
        ObjV::Name("DCTDecode"@),
    ]);
    assert(filter_names(dict_get(d, "Filter"@)) == Some(names));
    assert(names.last() == "DCTDecode"@ && names[0] == first);
    assert(peeled(names, 0, data) == Ok::<Option<Seq<u8>>, Seq<char>>(Some(data)));
    assert(peeled(names, 1, data) == Ok::<Option<Seq<u8>>, Seq<char>>(Some(inner)));
}

/// An image with the filter of JPEG files alone is its data; a stream that is no
/// image, or has no such filter last, is none.
pub proof fn law_jpeg(doc: DocV, d: DictV, data: Seq<u8>, image: ImageV, f: Seq<char>)
    ensures
        dict_get(d, "Subtype"@) == Some(ObjV::Name("Image"@)) && (dict_get(d, "Filter"@) == Some(
            ObjV::Name("DCTDecode"@),
        ) || dict_get(d, "Filter"@) == Some(ObjV::Array(seq![ObjV::Name("DCTDecode"@)])))
            && described(doc, d, data) == Ok::<ImageV, Seq<char>>(image) ==> image_of(
            doc,
            ObjV::Stream(d, data),
        ) == Ok::<Option<ImageV>, Seq<char>>(Some(image)),
        dict_get(d, "Subtype"@) is None ==> image_of(doc, ObjV::Stream(d, data)) == Ok::<
            Option<ImageV>,
            Seq<char>,
        >(None),
        dict_get(d, "Filter"@) == Some(ObjV::Name(f)) && f.len() != 9 ==> image_of(
            doc,
            ObjV::Stream(d, data),
        ) == Ok::<Option<ImageV>, Seq<char>>(None),
        image_of(doc, ObjV::Dict(d)) == Ok::<Option<ImageV>, Seq<char>>(None),
{
    reveal_strlit("DCTDecode");
    assert("DCTDecode"@.len() == 9);
    let names = seq!["DCTDecode"@];
    lemma_filter_names(names, 1);
    assert(names.take(1) =~= names);
    assert(Seq::new(names.len(), |i: int| ObjV::Name(names[i])) =~= seq![ObjV::Name("DCTDecode"@)]);
    assert(names.last() == "DCTDecode"@);
    assert(peeled(names, 0, data) == Ok::<Option<Seq<u8>>, Seq<char>>(Some(data)));
}

// ------------------------------------------------------------------- finding

/// The images that entries of `/XObject` from place `i` on refer to, but for objects
/// that were looked at before.
pub open spec fn new_images(doc: DocV, d: DictV, i: int, seen: Set<u64>) -> Seq<(ObjectId, ImageV)>
    decreases d.len() - i,
{
    if i < 0 || i >= d.len() {
        Seq::empty()
    } else {
        match d[i].1 {
            ObjV::Reference(id) => if seen.contains(cache_key(id)) {
                new_images(doc, d, i + 1, seen)
            } else {
                let rest = new_images(doc, d, i + 1, seen.insert(cache_key(id)));
                match doc.resolve(id) {
                    Ok(o) => match image_of(doc, o) {
                        Ok(Some(v)) => seq![(id, v)] + rest,
                        _ => rest,
                    },
                    Err(_) => rest,
                }
            },
            _ => new_images(doc, d, i + 1, seen),
        }
    }
}

/// Every object that is referred to can be read.
pub open spec fn images_readable(doc: DocV, d: DictV) -> bool {
    forall|i: int|
        0 <= i < d.len() ==> ((#[trigger] d[i]).1 matches ObjV::Reference(id) ==> (
        doc.resolve(id) matches Ok(o) && image_of(doc, o) is Ok))
}

proof fn lemma_found(doc: DocV, d: DictV, i: int, f: FoundV)
    requires
        0 <= i <= d.len(),
        images_readable(doc, d),
    ensures
        found_in_dict(doc, d, i, f) matches Ok(g) && g.images == f.images + new_images(
            doc,
            d,
            i,
            f.seen,
        ),
    decreases d.len() - i,
{
    if i < d.len() {
        match d[i].1 {
            ObjV::Reference(id) => {
                if f.seen.contains(cache_key(id)) {
                    lemma_found(doc, d, i + 1, f);
                } else {
                    let image = image_of(doc, doc.resolve(id)->Ok_0)->Ok_0;
                    let next = FoundV {
                        seen: f.seen.insert(cache_key(id)),
                        images: match image {
                            Some(v) => f.images.push((id, v)),
                            None => f.images,
                        },
                    };
                    lemma_found(doc, d, i + 1, next);
                    assert(next.images + new_images(doc, d, i + 1, next.seen) =~= f.images
                        + new_images(doc, d, i, f.seen));
                }
            },
            _ => {
                lemma_found(doc, d, i + 1, f);
            },
        }
    } else {
        assert(f.images + new_images(doc, d, i, f.seen) =~= f.images);
    }
}

/// The images of a page are those that the `/XObject` of its resources refers to, in
/// order, behind those found before; page, resources and objects may be referred to.
pub proof fn law_images_of_page(
    doc: DocV,
    page: ObjectId,
    d: DictV,
    r: DictV,
    x: DictV,
    f: FoundV,
)
    requires
        doc.resolve(page) == Ok::<ObjV, Seq<char>>(ObjV::Dict(d)),
        has_dict(doc, d, "Resources"@, Some(r)),
        has_dict(doc, r, "XObject"@, Some(x)),
        images_readable(doc, x),
    ensures
        found_on_page(doc, page, f) matches Ok(g) && g.images == f.images + new_images(
            doc,
            x,
            0,
            f.seen,
        ),
{
    lemma_found(doc, x, 0, f);
}

/// A page that names one image for the first time adds that image.
pub proof fn law_one_image(
    doc: DocV,
    x: DictV,
    name: Seq<char>,
    id: ObjectId,
    o: ObjV,
    v: ImageV,
    f: FoundV,
)
    requires
        x == seq![(name, ObjV::Reference(id))],
        doc.resolve(id) == Ok::<ObjV, Seq<char>>(o),
        image_of(doc, o) == Ok::<Option<ImageV>, Seq<char>>(Some(v)),
    ensures
        !f.seen.contains(cache_key(id)) ==> found_in_dict(doc, x, 0, f) == Ok::<FoundV, Seq<char>>(
            FoundV { seen: f.seen.insert(cache_key(id)), images: f.images.push((id, v)) },
        ),
        f.seen.contains(cache_key(id)) ==> found_in_dict(doc, x, 0, f) == Ok::<FoundV, Seq<char>>(f),
{
    reveal_with_fuel(found_in_dict, 2);
    assert(x[0].1 == ObjV::Reference(id));
}

proof fn lemma_leaves(doc: DocV, t: PageTree, depth: int, fuel: int, out: Seq<ObjectId>)
    requires
        tree_in(doc, t, depth),
        height(t) <= fuel,
    ensures
        leaves_below(doc, tree_root(t), fuel, out) == Ok::<Seq<ObjectId>, Seq<char>>(
            out + leaves(t),
        ),
    decreases t, 0int,
{
    reveal_strlit("Page");
    reveal_strlit("Pages");
    assert("Page"@.len() == 4 && "Pages"@.len() == 5);
    match t {
        PageTree::Page(id) => {
            assert(out + leaves(t) =~= out.push(id));
        },
        PageTree::Pages(id, kids) => {
            let items = Seq::new(kids.len(), |i: int| ObjV::Reference(tree_root(kids[i])));
            lemma_height_from(kids, 0);
            lemma_leaves_of(doc, kids, items, 0, depth, fuel, out);
        },
    }
}

proof fn lemma_leaves_of(
    doc: DocV,
    kids: Seq<PageTree>,
    items: Seq<ObjV>,
    i: int,
    depth: int,
    fuel: int,
    out: Seq<ObjectId>,
)
    requires
        0 <= i <= kids.len(),
        items == Seq::new(kids.len(), |i: int| ObjV::Reference(tree_root(kids[i]))),
        trees_in(doc, kids, i, depth + 1),
        height_from(kids, i) <= fuel - 1,
        fuel > 0,
    ensures
        leaves_of_kids(doc, items, i, fuel, out) == Ok::<Seq<ObjectId>, Seq<char>>(
            out + leaves_from(kids, i),
        ),
    decreases kids, kids.len() - i,
{
    if i < kids.len() {
        assert(items[i] == ObjV::Reference(tree_root(kids[i])));
        lemma_leaves(doc, kids[i], depth + 1, fuel - 1, out);
        let next = out + leaves(kids[i]);
        lemma_leaves_of(doc, kids, items, i + 1, depth, fuel, next);
        assert(next + leaves_from(kids, i + 1) =~= out + leaves_from(kids, i));
    } else {
        assert(out + leaves_from(kids, i) =~= out);
    }
}

/// The images of a document are those of its pages, from the first page to the last.
pub proof fn law_document_images(doc: DocV, catalog: DictV, t: PageTree)
    requires
        doc.catalog() == Ok::<ObjV, Seq<char>>(ObjV::Dict(catalog)),
        dict_get(catalog, "Pages"@) == Some(ObjV::Reference(tree_root(t))),
        tree_in(doc, t, 0),
        height(t) <= doc.longest_chain(),
    ensures
        match found_on_pages(
            doc,
            leaves(t),
            0,
            FoundV { seen: Set::empty(), images: Seq::empty() },
        ) {
            Ok(f) => document_images(doc) == Ok::<Seq<(ObjectId, ImageV)>, Seq<char>>(f.images),
            Err(e) => document_images(doc) == Err::<Seq<(ObjectId, ImageV)>, Seq<char>>(e),
        },
{
    lemma_leaves(doc, t, 0, doc.longest_chain(), Seq::empty());
    assert(Seq::<ObjectId>::empty() + leaves(t) =~= leaves(t));
}

/// Pages are looked at one by one.
pub proof fn law_images_page_by_page(doc: DocV, pages: Seq<ObjectId>, i: int, f: FoundV, g: FoundV)
    requires
        0 <= i < pages.len(),
        found_on_page(doc, pages[i], f) == Ok::<FoundV, Seq<char>>(g),
    ensures
        found_on_pages(doc, pages, i, f) == found_on_pages(doc, pages, i + 1, g),
        found_on_pages(doc, pages, pages.len() as int, f) == Ok::<FoundV, Seq<char>>(f),
{
}

} // verus!
