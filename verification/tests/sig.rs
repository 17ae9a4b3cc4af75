use oxideav_pdf::sig::{signed_bytes, PdfSignature};

#[test]
fn signed_bytes_concatenates_two_ranges() {
    let pdf = b"AAAABBBBCCCCDDDD";
    // First range = bytes 0..4 ("AAAA"); skip "BBBB" (4 bytes);
    // second range = bytes 8..16 ("CCCCDDDD").
    let signed = signed_bytes(pdf, &[0, 4, 8, 8]).unwrap();
    assert_eq!(signed, b"AAAACCCCDDDD");
}

#[test]
fn signed_bytes_rejects_negative_range() {
    let pdf = b"AAAA";
    assert!(signed_bytes(pdf, &[-1, 0, 0, 0]).is_err());
    assert!(signed_bytes(pdf, &[0, -1, 0, 0]).is_err());
}

#[test]
fn signed_bytes_rejects_out_of_bounds() {
    let pdf = b"AAAA";
    // Range 0..5 doesn't fit a 4-byte file.
    assert!(signed_bytes(pdf, &[0, 5, 5, 0]).is_err());
    // Second range overruns.
    assert!(signed_bytes(pdf, &[0, 2, 2, 5]).is_err());
}

#[test]
fn signed_bytes_rejects_overlapping_ranges() {
    let pdf = b"AAAABBBBCCCC";
    // Second range starts (3) before first range ends (4).
    assert!(signed_bytes(pdf, &[0, 4, 3, 9]).is_err());
}

#[test]
fn signed_bytes_overflow_caught() {
    let pdf = b"AAAA";
    let huge = i64::MAX;
    assert!(signed_bytes(pdf, &[huge, huge, 0, 0]).is_err());
}

#[test]
fn pdf_signature_is_cms_detached_recognises_two_subfilters() {
    let mut s = PdfSignature {
        byte_range: [0, 0, 0, 0],
        contents: Vec::new(),
        sub_filter: Some("adbe.pkcs7.detached".into()),
        filter: None,
        sig_type: None,
        name: None,
        reason: None,
        location: None,
        contact_info: None,
        signing_time: None,
        signed_data: None,
        contents_offset: None,
    };
    assert!(s.is_cms_detached());
    s.sub_filter = Some("ETSI.CAdES.detached".into());
    assert!(s.is_cms_detached());
    s.sub_filter = Some("ETSI.RFC3161".into());
    assert!(!s.is_cms_detached());
    s.sub_filter = None;
    assert!(!s.is_cms_detached());
}
