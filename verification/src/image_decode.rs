//! The samples of images: codes of a few bits each, packed into rows of bytes.

use vstd::arithmetic::div_mod::lemma_fundamental_div_mod_converse;
use vstd::prelude::*;
use crate::filters::{component, is_component_width, read_component};

verus! {

// --------------------------------------------------------------------- rows

/// Whether samples can have this many bits.
pub fn valid_bpc(bpc: u32) -> (r: bool)
    ensures
        r == is_component_width(bpc as int),
{
    bpc == 1 || bpc == 2 || bpc == 4 || bpc == 8 || bpc == 16
}

/// The bytes of a row of `width` pixels of `n` components of `bpc` bits; none
/// where the bits are too many to be counted.
pub open spec fn stride_of(width: int, n: int, bpc: int) -> Option<int> {
    if width * n > usize::MAX || width * n * bpc > usize::MAX || width * n * bpc + 7
        > usize::MAX {
        None
    } else {
        Some((width * n * bpc + 7) / 8)
    }
}

/// The bytes of a row of an image; a row begins with a byte of its own.
pub fn row_stride(width: u32, n_comps: usize, bpc: u32) -> (r: Option<usize>)
    ensures
        match r {
            Some(s) => stride_of(width as int, n_comps as int, bpc as int) == Some(s as int),
            None => stride_of(width as int, n_comps as int, bpc as int) is None,
        },
{
    match (width as usize).checked_mul(n_comps) {
        None => None,
        Some(samples) => match samples.checked_mul(bpc as usize) {
            None => None,
            Some(bits) => match bits.checked_add(7) {
                None => None,
                Some(b) => Some(b / 8),
            },
        },
    }
}

/// Row `y` of rows of `stride` bytes.
pub open spec fn row_at(data: Seq<u8>, stride: int, y: int) -> Seq<u8> {
    data.subrange(y * stride, (y + 1) * stride)
}

proof fn lemma_place(y: int, w: int, x: int)
    requires
        0 <= x < w,
    ensures
        (y * w + x) / w == y,
        (y * w + x) % w == x,
{
    lemma_fundamental_div_mod_converse(y * w + x, w, y, x);
}

proof fn lemma_row_within(y: int, h: int, stride: int, len: int)
    requires
        0 <= y < h,
        0 <= stride,
        stride * h <= len,
    ensures
        0 <= y * stride <= (y + 1) * stride <= len,
        (y + 1) * stride == y * stride + stride,
{
    assert((y + 1) * stride == y * stride + stride) by (nonlinear_arith);
    assert(0 <= y * stride) by (nonlinear_arith)
        requires
            0 <= y,
            0 <= stride,
    ;
    assert((y + 1) * stride <= stride * h) by (nonlinear_arith)
        requires
            0 <= y < h,
            0 <= stride,
    ;
}

/// Enough data for `height` rows of so many bytes.
pub open spec fn rows_fit(stride: Option<int>, height: int, len: int) -> bool {
    stride is Some && stride->Some_0 * height <= len
}

fn check_rows(stride: Option<usize>, height: u32, len: usize) -> (r: Option<usize>)
    ensures
        match r {
            Some(s) => stride == Some(s) && s * height <= len,
            None => stride is None || stride->Some_0 * height > len,
        },
{
    match stride {
        None => None,
        Some(s) => match s.checked_mul(height as usize) {
            None => None,
            Some(total) => if total <= len {
                Some(s)
            } else {
                None
            },
        },
    }
}

// -------------------------------------------------------------------- codes

/// The codes of an image, and which of its pixels a colour key hides.
#[derive(Debug, Clone, PartialEq, Eq)]
pub struct ImageCodes {
    /// The codes, pixel by pixel.
    pub codes: Vec<u16>,
    /// For each pixel whether it is hidden.
    pub masked: Vec<bool>,
}

/// All codes of an image, `per_row` to a row.
pub open spec fn codes_of(data: Seq<u8>, per_row: int, height: int, bpc: int, stride: int) -> Seq<
    u16,
> {
    Seq::new(
        (height * per_row) as nat,
        |i: int| component(row_at(data, stride, i / per_row), i % per_row, bpc) as u16,
    )
}

/// The pixel whose codes begin at place `at` lies in all ranges of a key.
pub open spec fn in_key(codes: Seq<u16>, at: int, key: Seq<(u16, u16)>) -> bool {
    forall|c: int| #![trigger key[c]] 0 <= c < key.len() ==> key[c].0 <= codes[at + c] <= key[c].1
}

/// Which pixels of `n` codes each a key hides; without a key, none.
pub open spec fn masked_of(codes: Seq<u16>, pixels: int, n: int, key: Option<Seq<(u16, u16)>>) -> Seq<
    bool,
> {
    Seq::new(
        pixels as nat,
        |i: int| key is Some && in_key(codes, i * n, key->Some_0),
    )
}

/// What an optional key stands for.
pub open spec fn opt_key(key: Option<&Vec<(u16, u16)>>) -> Option<Seq<(u16, u16)>> {
    match key {
        Some(k) => Some(k@),
        None => None,
    }
}

/// An image whose codes can be read: it has pixels and components of a width that
/// can be, a key has a range for each component, and the data are long enough.
pub open spec fn readable(
    len: int,
    width: int,
    height: int,
    bpc: int,
    n: int,
    key: Option<Seq<(u16, u16)>>,
) -> bool {
    &&& is_component_width(bpc)
    &&& width > 0 && height > 0 && n > 0
    &&& key is Some ==> key->Some_0.len() == n
    &&& rows_fit(stride_of(width, n, bpc), height, len)
}

fn pixel_in_key(codes: &Vec<u16>, at: usize, key: &Vec<(u16, u16)>) -> (r: bool)
    requires
        at + key@.len() <= codes@.len() <= usize::MAX,
    ensures
        r == in_key(codes@, at as int, key@),
{
    let mut c: usize = 0;
    while c < key.len()
        invariant
            c <= key@.len(),
            at + key@.len() <= codes@.len() <= usize::MAX,
            forall|j: int|
                #![trigger key@[j]]
                0 <= j < c ==> key@[j].0 <= codes@[at + j] <= key@[j].1,
        decreases key.len() - c,
    {
        let code: u16 = codes[at + c];
        if code < key[c].0 || code > key[c].1 {
            proof {
                assert(key@[c as int].0 <= codes@[at + c] ==> codes@[at + c] > key@[c as int].1);
            }
            return false;
        }
        c = c + 1;
    }
    true
}

fn read_codes(data: &[u8], per_row: usize, height: u32, bpc: u32, stride: usize) -> (codes: Vec<u16>)
    requires
        is_component_width(bpc as int),
        per_row > 0,
        per_row * bpc <= usize::MAX,
        stride == (per_row * bpc + 7) / 8,
        stride * height <= data@.len(),
    ensures
        codes@ == codes_of(data@, per_row as int, height as int, bpc as int, stride as int),
{
    let ghost goal = codes_of(data@, per_row as int, height as int, bpc as int, stride as int);
    let mut codes: Vec<u16> = Vec::new();
    let mut y: u32 = 0;
    while y < height
        invariant
            y <= height,
            is_component_width(bpc as int),
            per_row > 0,
            per_row * bpc <= usize::MAX,
            stride == (per_row * bpc + 7) / 8,
            stride * height <= data@.len(),
            goal == codes_of(data@, per_row as int, height as int, bpc as int, stride as int),
            codes@.len() == y * per_row,
            forall|i: int| 0 <= i < codes@.len() ==> codes@[i] == goal[i],
        decreases height - y,
    {
        proof {
            lemma_row_within(y as int, height as int, stride as int, data@.len() as int);
            assert(data@.len() == data.len());
        }
        let from: usize = y as usize * stride;
        let row: &[u8] = vstd::slice::slice_subrange(data, from, from + stride);
        proof {
            assert(row@ =~= row_at(data@, stride as int, y as int));
        }
        let mut k: usize = 0;
        while k < per_row
            invariant
                k <= per_row,
                y < height,
                is_component_width(bpc as int),
                per_row > 0,
                per_row * bpc <= usize::MAX,
                row@.len() == (per_row * bpc + 7) / 8,
                row@ == row_at(data@, stride as int, y as int),
                goal == codes_of(data@, per_row as int, height as int, bpc as int, stride as int),
                codes@.len() == y * per_row + k,
                forall|i: int| 0 <= i < codes@.len() ==> codes@[i] == goal[i],
            decreases per_row - k,
        {
            let code: u32 = read_component(row, k, per_row, bpc as usize);
            proof {
                let i = y * per_row + k;
                lemma_place(y as int, per_row as int, k as int);
                assert(i < height * per_row) by (nonlinear_arith)
                    requires
                        i == y * per_row + k,
                        k < per_row,
                        y < height,
                ;
                assert(goal[i] == code as u16);
            }
            codes.push(code as u16);
            k = k + 1;
        }
        proof {
            assert((y + 1) * per_row == y * per_row + per_row) by (nonlinear_arith);
        }
        y = y + 1;
    }
    proof {
        assert(codes@ =~= goal);
    }
    codes
}

/// Read the codes of an image, high bits first, and hold each pixel against the
/// ranges of a colour key. None where they cannot be read.
pub fn decode_image_codes(
    data: &[u8],
    width: u32,
    height: u32,
    bpc: u32,
    n_comps: usize,
    color_key: Option<&Vec<(u16, u16)>>,
) -> (r: Option<ImageCodes>)
    ensures
        r is Some == readable(
            data@.len() as int,
            width as int,
            height as int,
            bpc as int,
            n_comps as int,
            opt_key(color_key),
        ),
        r matches Some(image) ==> {
            let stride = stride_of(width as int, n_comps as int, bpc as int)->Some_0;
            &&& image.codes@ == codes_of(
                data@,
                width * n_comps,
                height as int,
                bpc as int,
                stride,
            )
            &&& image.masked@ == masked_of(
                image.codes@,
                width * height,
                n_comps as int,
                opt_key(color_key),
            )
        },
{
    if !valid_bpc(bpc) || width == 0 || height == 0 || n_comps == 0 {
        return None;
    }
    if let Some(key) = color_key {
        if key.len() != n_comps {
            return None;
        }
    }
    let stride: usize = match check_rows(row_stride(width, n_comps, bpc), height, data.len()) {
        Some(s) => s,
        None => {
            return None;
        },
    };
    proof {
        assert(width * n_comps <= usize::MAX);
        assert(width * n_comps > 0) by (nonlinear_arith)
            requires
                width > 0,
                n_comps > 0,
        ;
    }
    let per_row: usize = width as usize * n_comps;
    let codes: Vec<u16> = read_codes(data, per_row, height, bpc, stride);
    let ghost pixels = width * height;
    proof {
        assert(codes@.len() == pixels * n_comps) by {
            assert(height * (width * n_comps) == (width * height) * n_comps) by (nonlinear_arith);
        }
    }
    let mut masked: Vec<bool> = Vec::new();
    let mut at: usize = 0;
    while at < codes.len()
        invariant
            n_comps > 0,
            codes@.len() == pixels * n_comps,
            0 <= pixels,
            at == masked@.len() * n_comps,
            masked@.len() <= pixels,
            color_key matches Some(k) ==> k@.len() == n_comps,
            forall|i: int|
                0 <= i < masked@.len() ==> masked@[i] == (opt_key(color_key) is Some && in_key(
                    codes@,
                    i * n_comps,
                    opt_key(color_key)->Some_0,
                )),
        decreases codes.len() - at,
    {
        proof {
            let i = masked@.len() as int;
            assert(i < pixels) by (nonlinear_arith)
                requires
                    i * n_comps < pixels * n_comps,
                    n_comps > 0,
            ;
            assert((i + 1) * n_comps == i * n_comps + n_comps) by (nonlinear_arith);
            assert((i + 1) * n_comps <= pixels * n_comps) by (nonlinear_arith)
                requires
                    i + 1 <= pixels,
                    n_comps > 0,
            ;
        }
        let hidden: bool = match color_key {
            Some(key) => pixel_in_key(&codes, at, key),
            None => false,
        };
        masked.push(hidden);
        at = at + n_comps;
    }
    proof {
        let i = masked@.len() as int;
        assert(i == pixels) by (nonlinear_arith)
            requires
                i * n_comps >= pixels * n_comps,
                i <= pixels,
                n_comps > 0,
        ;
        assert(masked@ =~= masked_of(codes@, pixels, n_comps as int, opt_key(color_key)));
    }
    Some(ImageCodes { codes, masked })
}

/// A pixel: nothing where its colour is none, and hidden or not where it is one.
pub open spec fn pixel(color: Option<[u8; 4]>, masked: bool) -> Seq<u8> {
    match color {
        None => seq![0u8, 0, 0, 0],
        Some(c) => seq![
            c@[0],
            c@[1],
            c@[2],
            if masked {
                0
            } else {
                c@[3]
            },
        ],
    }
}

/// The first `n` pixels with these colours, one behind the other.
pub open spec fn pixels_of(colors: Seq<Option<[u8; 4]>>, masked: Seq<bool>, n: int) -> Seq<u8>
    decreases n,
{
    if n <= 0 || n > colors.len() || n > masked.len() {
        Seq::empty()
    } else {
        pixels_of(colors, masked, n - 1) + pixel(colors[n - 1], masked[n - 1])
    }
}

/// The pixels of an image whose codes stand for these colours; a colour may be
/// none.
pub fn assemble_rgba(colors: &Vec<Option<[u8; 4]>>, masked: &Vec<bool>) -> (r: Vec<u8>)
    requires
        colors@.len() == masked@.len(),
    ensures
        r@ == pixels_of(colors@, masked@, colors@.len() as int),
{
    let mut out: Vec<u8> = Vec::new();
    let mut i: usize = 0;
    proof {
        assert(out@ =~= Seq::empty());
    }
    while i < colors.len()
        invariant
            i <= colors@.len(),
            colors@.len() == masked@.len(),
            out@ == pixels_of(colors@, masked@, i as int),
        decreases colors.len() - i,
    {
        let ghost before = out@;
        match colors[i] {
            None => {
                out.push(0);
                out.push(0);
                out.push(0);
                out.push(0);
            },
            Some(c) => {
                out.push(c[0]);
                out.push(c[1]);
                out.push(c[2]);
                out.push(
                    if masked[i] {
                        0
                    } else {
                        c[3]
                    },
                );
            },
        }
        proof {
            assert(out@ =~= before + pixel(colors@[i as int], masked@[i as int]));
        }
        i = i + 1;
    }
    out
}

// ----------------------------------------------------------------- stencils

/// What a bit of a stencil does: 255 marks the page and 0 leaves it.
pub open spec fn coverage(bit: int, flip: bool) -> u8 {
    if (bit == 0) != flip {
        255
    } else {
        0
    }
}

/// What all bits of a stencil do.
pub open spec fn coverage_of(data: Seq<u8>, width: int, height: int, stride: int, flip: bool) -> Seq<
    u8,
> {
    Seq::new(
        (height * width) as nat,
        |i: int| coverage(component(row_at(data, stride, i / width), i % width, 1), flip),
    )
}

/// Read a stencil of one bit a pixel. With `decode_flip` a bit that is set marks
/// the page, and otherwise one that is not. None where the data are too short.
pub fn decode_stencil_coverage(data: &[u8], width: u32, height: u32, decode_flip: bool) -> (r:
    Option<Vec<u8>>)
    ensures
        r is Some == readable(data@.len() as int, width as int, height as int, 1, 1, None),
        r matches Some(v) ==> v@ == coverage_of(
            data@,
            width as int,
            height as int,
            stride_of(width as int, 1, 1)->Some_0,
            decode_flip,
        ),
{
    let image: ImageCodes = match decode_image_codes(data, width, height, 1, 1, None) {
        Some(i) => i,
        None => {
            return None;
        },
    };
    let codes: Vec<u16> = image.codes;
    let mut out: Vec<u8> = Vec::new();
    let mut i: usize = 0;
    while i < codes.len()
        invariant
            i <= codes@.len(),
            out@.len() == i,
            forall|k: int| 0 <= k < i ==> out@[k] == coverage(codes@[k] as int, decode_flip),
        decreases codes.len() - i,
    {
        let paint: bool = (codes[i] == 0) != decode_flip;
        out.push(
            if paint {
                255
            } else {
                0
            },
        );
        i = i + 1;
    }
    proof {
        let stride = stride_of(width as int, 1, 1)->Some_0;
        let goal = coverage_of(data@, width as int, height as int, stride, decode_flip);
        assert(width * 1 == width);
        assert(out@ =~= goal) by {
            assert forall|k: int| 0 <= k < goal.len() implies out@[k] == goal[k] by {
                let c = component(row_at(data@, stride, k / (width as int)), k % (width as int), 1);
                crate::filters::lemma_bit_component(
                    row_at(data@, stride, k / (width as int)),
                    k % (width as int),
                );
                assert(codes@[k] == c as u16);
            }
        }
    }
    Some(out)
}

// --------------------------------------------------------------- resampling

/// A plane of `sw` by `sh` values stretched to `dw` by `dh`: each value is that
/// of the source at the same part of the width and of the height.
pub open spec fn resampled(src: Seq<u8>, sw: int, sh: int, dw: int, dh: int) -> Seq<u8> {
    Seq::new(
        (dh * dw) as nat,
        |i: int| src[((i / dw) * sh / dh) * sw + (i % dw) * sw / dw],
    )
}

/// A part of a whole, of a smaller place of another whole.
fn scaled(place: u32, from: u32, to: u32) -> (r: u32)
    requires
        place < from,
        to > 0,
    ensures
        r == place * to / from as int,
        r < to,
{
    proof {
        assert(place * to < from * to) by (nonlinear_arith)
            requires
                place < from,
                to > 0,
        ;
        assert(place * to <= u64::MAX) by (nonlinear_arith)
            requires
                place <= u32::MAX,
                to <= u32::MAX,
        ;
        assert((place * to) / from as int <= to - 1) by (nonlinear_arith)
            requires
                place * to < from * to,
                from > 0,
                to > 0,
                place >= 0,
        ;
        assert((place * to) / from as int >= 0) by (nonlinear_arith)
            requires
                place * to >= 0,
                from > 0,
        ;
    }
    (place as u64 * to as u64 / from as u64) as u32
}

/// Stretch a plane to another size. None where a side is 0 or the source too
/// short.
pub fn resample_nearest(src: &[u8], sw: u32, sh: u32, dw: u32, dh: u32) -> (r: Option<Vec<u8>>)
    ensures
        r is Some == (sw > 0 && sh > 0 && dw > 0 && dh > 0 && src@.len() >= sw * sh),
        r matches Some(v) ==> v@ == resampled(src@, sw as int, sh as int, dw as int, dh as int),
{
    if sw == 0 || sh == 0 || dw == 0 || dh == 0 {
        return None;
    }
    proof {
        assert(sw * sh <= u64::MAX) by (nonlinear_arith)
            requires
                sw <= u32::MAX,
                sh <= u32::MAX,
        ;
    }
    if (src.len() as u64) < sw as u64 * sh as u64 {
        return None;
    }
    let ghost goal = resampled(src@, sw as int, sh as int, dw as int, dh as int);
    let mut out: Vec<u8> = Vec::new();
    let mut y: u32 = 0;
    while y < dh
        invariant
            y <= dh,
            sw > 0,
            sh > 0,
            dw > 0,
            dh > 0,
            src@.len() >= sw * sh,
            src@.len() <= usize::MAX,
            goal == resampled(src@, sw as int, sh as int, dw as int, dh as int),
            out@.len() == y * dw,
            forall|i: int| 0 <= i < out@.len() ==> out@[i] == goal[i],
        decreases dh - y,
    {
        let sy: u32 = scaled(y, dh, sh);
        let mut x: u32 = 0;
        while x < dw
            invariant
                x <= dw,
                y < dh,
                sw > 0,
                sh > 0,
                dw > 0,
                dh > 0,
                sy == y * sh / dh as int,
                sy < sh,
                src@.len() >= sw * sh,
                src@.len() <= usize::MAX,
                goal == resampled(src@, sw as int, sh as int, dw as int, dh as int),
                out@.len() == y * dw + x,
                forall|i: int| 0 <= i < out@.len() ==> out@[i] == goal[i],
            decreases dw - x,
        {
            let sx: u32 = scaled(x, dw, sw);
            proof {
                assert(sy * sw + sx < sw * sh) by (nonlinear_arith)
                    requires
                        sy < sh,
                        sx < sw,
                ;
                assert(0 <= sy * sw) by (nonlinear_arith);
                let i = y * dw + x;
                lemma_place(y as int, dw as int, x as int);
                assert(0 <= i < dh * dw) by (nonlinear_arith)
                    requires
                        i == y * dw + x,
                        x < dw,
                        y < dh,
                        0 <= x,
                        0 <= y,
                ;
                assert(goal[i] == src@[sy * sw + sx]);
            }
            out.push(src[sy as usize * sw as usize + sx as usize]);
            x = x + 1;
        }
        proof {
            assert((y + 1) * dw == y * dw + dw) by (nonlinear_arith);
        }
        y = y + 1;
    }
    proof {
        assert(out@ =~= goal);
    }
    Some(out)
}

// --------------------------------------------------------------------- laws

/// A plane that keeps its size keeps its values.
pub proof fn law_same_size_kept(src: Seq<u8>, w: int, h: int)
    requires
        w > 0,
        h > 0,
        src.len() >= w * h,
    ensures
        resampled(src, w, h, w, h) == src.take(w * h),
{
    let r = resampled(src, w, h, w, h);
    assert(h * w == w * h) by (nonlinear_arith);
    assert(0 <= w * h) by (nonlinear_arith)
        requires
            w > 0,
            h > 0,
    ;
    assert(r =~= src.take(w * h)) by {
        assert forall|i: int| 0 <= i < w * h implies r[i] == src[i] by {
            let y = i / w;
            let x = i % w;
            vstd::arithmetic::div_mod::lemma_fundamental_div_mod(i, w);
            vstd::arithmetic::div_mod::lemma_div_multiples_vanish(y, h);
            vstd::arithmetic::div_mod::lemma_div_multiples_vanish(x, w);
            assert(y * h / h == y) by {
                assert(y * h == h * y) by (nonlinear_arith);
            }
            assert(x * w / w == x) by {
                assert(x * w == w * x) by (nonlinear_arith);
            }
            assert(w * y == y * w) by (nonlinear_arith);
        }
    }
}

/// A stencil that is flipped marks what it left, and leaves what it marked.
pub proof fn law_flip_reverses(data: Seq<u8>, width: int, height: int, stride: int, i: int)
    requires
        0 <= i < height * width,
    ensures
        coverage_of(data, width, height, stride, true)[i] + coverage_of(
            data,
            width,
            height,
            stride,
            false,
        )[i] == 255,
{
}

/// A pixel that a colour key hides is not seen, and no other is changed.
pub proof fn law_key_hides(color: [u8; 4])
    ensures
        pixel(Some(color), true)[3] == 0,
        pixel(Some(color), false) == color@,
        pixel(Some(color), true).take(3) == color@.take(3),
{
    assert(pixel(Some(color), false) =~= color@);
    assert(pixel(Some(color), true).take(3) =~= color@.take(3));
}

} // verus!
