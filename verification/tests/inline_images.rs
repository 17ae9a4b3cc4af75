use oxideav_pdf::images::ColorSpace;
use oxideav_pdf::inline_images::{
    extract_inline_images_from_stream, find_inline_image_ei, find_keyword, InlineImageFilter,
};

#[test]
fn finds_bi_keyword_at_start() {
    let stream = b"BI /W 4 /H 4 ID 0123456789ABCDEF EI";
    let pos = find_keyword(stream, b"BI", 0).unwrap();
    assert_eq!(pos, 0);
}

#[test]
fn finds_bi_keyword_after_other_ops() {
    let stream = b"q 100 0 0 100 0 0 cm BI /W 1 /H 1 /BPC 8 /CS /G ID \x42 EI Q";
    let pos = find_keyword(stream, b"BI", 0).unwrap();
    assert_eq!(&stream[pos..pos + 2], b"BI");
}

#[test]
fn rejects_bi_substring_inside_longer_kw() {
    // `BIM` is not the `BI` operator.
    let stream = b"q BIM ID 0 EI Q";
    assert!(find_keyword(stream, b"BI", 0).is_none());
}

#[test]
fn ei_termination_requires_surrounding_ws() {
    // The "EI" inside the payload (no surrounding ws) is NOT the
    // terminator; the real terminator follows a space.
    let stream = b"abcEIxyz EI rest";
    let pos = find_inline_image_ei(stream, 0).unwrap();
    // Position points at the real `EI` (after the space).
    assert_eq!(&stream[pos..pos + 2], b"EI");
    assert!(pos > 4); // skipped the bogus inline one
}

#[test]
fn extracts_one_inline_image_minimal() {
    // Payload bytes: 0x00 0x01 0x02 0x03.
    let stream: &[u8] = b"BI /W 1 /H 4 /CS /G /BPC 8 ID \x00\x01\x02\x03 EI";
    let images = extract_inline_images_from_stream(stream).unwrap();
    assert_eq!(images.len(), 1);
    let img = &images[0];
    assert_eq!(img.width, 1);
    assert_eq!(img.height, 4);
    assert_eq!(img.bits_per_component, 8);
    assert_eq!(img.color_space, ColorSpace::DeviceGray);
    assert_eq!(img.data, [0x00, 0x01, 0x02, 0x03]);
    assert_eq!(img.filter, InlineImageFilter::Raw);
}

#[test]
fn extracts_dct_inline_image_preserves_payload() {
    // Tiny "JPEG"-looking payload; the parser should keep the
    // bytes as-is and tag the filter as DctDecode.
    let payload: &[u8] = &[0xFF, 0xD8, 0xFF, 0xE0, 0x00, 0x10];
    let mut stream: Vec<u8> = b"BI /W 8 /H 8 /CS /RGB /F /DCT ID ".to_vec();
    stream.extend_from_slice(payload);
    stream.extend_from_slice(b" EI");
    let images = extract_inline_images_from_stream(&stream).unwrap();
    assert_eq!(images.len(), 1);
    assert_eq!(images[0].filter, InlineImageFilter::DctDecode);
    assert_eq!(images[0].data, payload);
    assert_eq!(images[0].color_space, ColorSpace::DeviceRGB);
}

#[test]
fn image_mask_defaults_to_1bpc_devicegray() {
    let stream: &[u8] = b"BI /W 8 /H 8 /IM true ID \xFF EI";
    let images = extract_inline_images_from_stream(stream).unwrap();
    assert_eq!(images.len(), 1);
    assert!(images[0].image_mask);
    assert_eq!(images[0].bits_per_component, 1);
    assert_eq!(images[0].color_space, ColorSpace::DeviceGray);
}

#[test]
fn long_keys_accepted_alongside_abbreviated() {
    let stream: &[u8] =
        b"BI /Width 2 /Height 2 /ColorSpace /DeviceGray /BitsPerComponent 4 ID \x12\x34 EI";
    let images = extract_inline_images_from_stream(stream).unwrap();
    assert_eq!(images.len(), 1);
    assert_eq!(images[0].width, 2);
    assert_eq!(images[0].height, 2);
    assert_eq!(images[0].bits_per_component, 4);
}

#[test]
fn filter_list_with_a85_wrapper_peels_correctly() {
    // Wrap the payload [0x4D 0x61 0x6E 0x20] = "Man " in ASCII85
    // and verify the peel.
    let raw: &[u8] = &[0x4D, 0x61, 0x6E, 0x20];
    let mut stream: Vec<u8> = b"BI /W 4 /H 1 /CS /G /F [/A85] ID ".to_vec();
    // "Man " encodes to "9jqo^" + the EOD marker "~>" in ASCII85.
    stream.extend_from_slice(b"9jqo^~>");
    stream.extend_from_slice(b" EI");
    let images = extract_inline_images_from_stream(&stream).unwrap();
    assert_eq!(images.len(), 1);
    assert_eq!(images[0].data, raw);
    assert_eq!(images[0].filter, InlineImageFilter::Raw);
}

#[test]
fn two_inline_images_in_one_stream() {
    let stream: &[u8] =
        b"BI /W 1 /H 1 /CS /G /BPC 8 ID \xAA EI BI /W 1 /H 1 /CS /G /BPC 8 ID \xBB EI";
    let images = extract_inline_images_from_stream(stream).unwrap();
    assert_eq!(images.len(), 2);
    assert_eq!(images[0].data, [0xAA]);
    assert_eq!(images[1].data, [0xBB]);
}

#[test]
fn payload_containing_ei_substring_is_preserved() {
    // The bytes `E I` (with no surrounding whitespace) should NOT
    // be treated as a terminator. The real terminator follows a
    // space.
    let stream: &[u8] = b"BI /W 5 /H 1 /CS /G /BPC 8 ID EIfoo EI";
    let images = extract_inline_images_from_stream(stream).unwrap();
    assert_eq!(images.len(), 1);
    assert_eq!(&images[0].data, b"EIfoo");
}

#[test]
fn unterminated_inline_image_errors() {
    let stream: &[u8] = b"BI /W 1 /H 1 /CS /G /BPC 8 ID \xAA";
    let err = extract_inline_images_from_stream(stream).unwrap_err();
    assert!(err.to_string().contains("EI"));
}

#[test]
fn rejects_missing_width() {
    let stream: &[u8] = b"BI /H 1 /CS /G ID \xAA EI";
    let err = extract_inline_images_from_stream(stream).unwrap_err();
    assert!(err.to_string().contains("/W"));
}
