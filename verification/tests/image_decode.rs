use oxideav_pdf::image_decode::{
    assemble_rgba, decode_image_codes, decode_stencil_coverage, resample_nearest, row_stride,
    valid_bpc,
};

/// The pixels of an image whose colour space reduces components as `reduce`
/// does.
fn decode_rgba(
    data: &[u8],
    size: (u32, u32),
    bpc: u32,
    n: usize,
    decode: &[f32],
    key: Option<&Vec<(u16, u16)>>,
    reduce: fn(&[f32]) -> Option<[u8; 4]>,
) -> Option<Vec<u8>> {
    let image = decode_image_codes(data, size.0, size.1, bpc, n, key)?;
    let top = ((1u32 << bpc) - 1) as f32;
    let colors: Vec<Option<[u8; 4]>> = image
        .codes
        .chunks(n)
        .map(|pixel| {
            let comps: Vec<f32> = pixel
                .iter()
                .enumerate()
                .map(|(c, code)| {
                    let (low, high) = (decode[2 * c], decode[2 * c + 1]);
                    low + (*code as f32) * (high - low) / top
                })
                .collect();
            reduce(&comps)
        })
        .collect();
    Some(assemble_rgba(&colors, &image.masked))
}

fn byte(v: f32) -> u8 {
    (v * 255.0).round() as u8
}

fn gray(c: &[f32]) -> Option<[u8; 4]> {
    Some([byte(c[0]), byte(c[0]), byte(c[0]), 255])
}

fn rgb(c: &[f32]) -> Option<[u8; 4]> {
    Some([byte(c[0]), byte(c[1]), byte(c[2]), 255])
}

fn cmyk(c: &[f32]) -> Option<[u8; 4]> {
    let part = |v: f32| byte((1.0 - v) * (1.0 - c[3]));
    Some([part(c[0]), part(c[1]), part(c[2]), 255])
}

fn palette(c: &[f32]) -> Option<[u8; 4]> {
    let table = [[255, 0, 0], [0, 255, 0], [0, 0, 255], [255, 255, 0]];
    let [r, g, b] = table[c[0] as usize];
    Some([r, g, b, 255])
}

#[test]
fn gray_1bit_rows_are_byte_aligned() {
    // 3×2 at 1 bpc: each row occupies one byte (3 data bits + 5 pad bits).
    // Row 0 = 1,0,1  row 1 = 0,1,0.
    let data = [0b1010_0000u8, 0b0100_0000];
    let rgba = decode_rgba(&data, (3, 2), 1, 1, &[0.0, 1.0], None, gray).expect("decodable");
    let px = |i: usize| &rgba[i * 4..i * 4 + 4];
    assert_eq!(px(0), &[255, 255, 255, 255]); // code 1 → 1.0 → white
    assert_eq!(px(1), &[0, 0, 0, 255]);
    assert_eq!(px(2), &[255, 255, 255, 255]);
    assert_eq!(px(3), &[0, 0, 0, 255]);
    assert_eq!(px(4), &[255, 255, 255, 255]);
    assert_eq!(px(5), &[0, 0, 0, 255]);
}

#[test]
fn decode_array_inverts_gray() {
    let data = [0u8, 255];
    let rgba = decode_rgba(&data, (2, 1), 8, 1, &[1.0, 0.0], None, gray).expect("decodable");
    assert_eq!(&rgba[0..4], &[255, 255, 255, 255]);
    assert_eq!(&rgba[4..8], &[0, 0, 0, 255]);
}

#[test]
fn cmyk_reduces_to_rgb() {
    // Pure cyan (1,0,0,0) → (0,255,255); pure black K → (0,0,0).
    let data = [255u8, 0, 0, 0, 0, 0, 0, 255];
    let decode = [0.0, 1.0, 0.0, 1.0, 0.0, 1.0, 0.0, 1.0];
    let rgba = decode_rgba(&data, (2, 1), 8, 4, &decode, None, cmyk).expect("decodable");
    assert_eq!(&rgba[0..4], &[0, 255, 255, 255]);
    assert_eq!(&rgba[4..8], &[0, 0, 0, 255]);
}

#[test]
fn indexed_2bit_palette_lookup() {
    // 4×1 pixels: codes 0,1,2,3 → one byte 0b00_01_10_11.
    let data = [0b0001_1011u8];
    let rgba = decode_rgba(&data, (4, 1), 2, 1, &[0.0, 3.0], None, palette).expect("decodable");
    assert_eq!(&rgba[0..4], &[255, 0, 0, 255]);
    assert_eq!(&rgba[4..8], &[0, 255, 0, 255]);
    assert_eq!(&rgba[8..12], &[0, 0, 255, 255]);
    assert_eq!(&rgba[12..16], &[255, 255, 0, 255]);
}

#[test]
fn sixteen_bit_big_endian_codes() {
    // 16-bit samples are big-endian.
    let data = [0xFFu8, 0xFF, 0x00, 0x00, 0x80, 0x00];
    let rgba = decode_rgba(&data, (3, 1), 16, 1, &[0.0, 1.0], None, gray).expect("decodable");
    assert_eq!(&rgba[0..4], &[255, 255, 255, 255]);
    assert_eq!(&rgba[4..8], &[0, 0, 0, 255]);
    assert_eq!(rgba[8], 128); // 0x8000/0xFFFF ≈ 0.5
}

#[test]
fn color_key_masks_in_range_codes() {
    let data = [10u8, 20, 30, 200, 20, 30, 10, 99, 30];
    let key = vec![(0u16, 50u16), (0, 50), (0, 50)];
    let decode = [0.0, 1.0, 0.0, 1.0, 0.0, 1.0];
    let rgba = decode_rgba(&data, (3, 1), 8, 3, &decode, Some(&key), rgb).expect("decodable");
    assert_eq!(rgba[3], 0, "all components in range → masked");
    assert_eq!(rgba[7], 255, "red 200 out of range → painted");
    assert_eq!(rgba[11], 255, "green 99 out of range → painted");
}

#[test]
fn stencil_coverage_default_and_flipped() {
    // 2×2 at 1 bpc, one byte per row: samples (1,0) / (0,1).
    let data = [0b1000_0000u8, 0b0100_0000];
    let cov = decode_stencil_coverage(&data, 2, 2, false).expect("decodable");
    // By default 0 marks the page.
    assert_eq!(cov, vec![0, 255, 255, 0]);
    let flipped = decode_stencil_coverage(&data, 2, 2, true).expect("decodable");
    assert_eq!(flipped, vec![255, 0, 0, 255]);
}

#[test]
fn short_payload_is_rejected() {
    assert!(decode_rgba(&[0u8; 5], (2, 2), 8, 3, &[0.0, 1.0, 0.0, 1.0, 0.0, 1.0], None, rgb)
        .is_none());
    assert!(decode_stencil_coverage(&[0u8], 9, 2, false).is_none());
}

#[test]
fn resample_nearest_scales_plane() {
    let plane = [10u8, 20, 30, 40]; // 2×2
    let up = resample_nearest(&plane, 2, 2, 4, 4).expect("resample");
    assert_eq!(up.len(), 16);
    assert_eq!(up[0], 10);
    assert_eq!(up[3], 20);
    assert_eq!(up[15], 40);
    let same = resample_nearest(&plane, 2, 2, 2, 2).expect("identity");
    assert_eq!(same, plane);
}

#[test]
fn shapes_that_cannot_be_read() {
    assert!(!valid_bpc(3));
    assert!(valid_bpc(16));
    assert_eq!(row_stride(3, 3, 4), Some(5));
    assert_eq!(row_stride(u32::MAX, usize::MAX, 8), None);
    assert!(decode_image_codes(&[0; 8], 2, 2, 3, 1, None).is_none());
    assert!(decode_image_codes(&[0; 8], 0, 2, 8, 1, None).is_none());
    assert!(decode_image_codes(&[0; 8], 2, 2, 8, 1, Some(&vec![(0, 1), (0, 1)])).is_none());
    assert!(resample_nearest(&[1, 2, 3], 2, 2, 1, 1).is_none());
    assert!(resample_nearest(&[1, 2, 3, 4], 2, 2, 0, 1).is_none());
    assert_eq!(resample_nearest(&[1, 2, 3, 4], 2, 2, 1, 1), Some(vec![1]));
}

#[test]
fn a_missing_colour_is_transparent() {
    assert_eq!(
        assemble_rgba(&vec![None, Some([1, 2, 3, 4]), Some([1, 2, 3, 4])], &vec![false, false, true]),
        vec![0, 0, 0, 0, 1, 2, 3, 4, 1, 2, 3, 0]
    );
}
