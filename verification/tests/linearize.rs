use oxideav_pdf::linearize::{scan_back_two_ints, LinearizationParams};

#[test]
fn empty_input_returns_none() {
    assert!(LinearizationParams::parse(b"").expect("parse").is_none());
    assert!(LinearizationParams::parse(b"%PDF-1.7\n%%EOF\n")
        .expect("parse")
        .is_none());
}

#[test]
fn malformed_input_returns_none() {
    // No `obj` keyword anywhere — parser returns None, not Err.
    let stub = b"%PDF-1.5\n\xE2\xE3\xCF\xD3 no obj here at all\n%%EOF\n";
    assert!(LinearizationParams::parse(stub).expect("parse").is_none());
}

#[test]
fn rejects_lin_dict_missing_required_key() {
    // Hand-rolled minimal first object that LOOKS like a
    // lin-dict (has /Linearized 1) but is missing /L.
    let mut bytes = Vec::new();
    bytes.extend_from_slice(b"%PDF-1.5\n%\xE2\xE3\xCF\xD3\n");
    bytes.extend_from_slice(b"1 0 obj\n<< /Linearized 1 >>\nendobj\n");
    bytes.extend_from_slice(
        b"xref\n0 1\n0000000000 65535 f \ntrailer\n<<>>\nstartxref\n0\n%%EOF\n",
    );
    let err = LinearizationParams::parse(&bytes).expect_err("must reject");
    let msg = err.to_string();
    assert!(msg.contains("/L"), "msg = {msg:?}");
}

#[test]
fn rejects_hint_array_with_odd_length() {
    let mut bytes = Vec::new();
    bytes.extend_from_slice(b"%PDF-1.5\n%\xE2\xE3\xCF\xD3\n");
    bytes.extend_from_slice(
        b"1 0 obj\n<< /Linearized 1 /L 100 /H [ 50 ] /O 2 /E 80 /N 1 /T 90 >>\nendobj\n",
    );
    bytes.extend_from_slice(
        b"xref\n0 1\n0000000000 65535 f \ntrailer\n<<>>\nstartxref\n0\n%%EOF\n",
    );
    let err = LinearizationParams::parse(&bytes).expect_err("must reject /H length");
    let msg = err.to_string();
    assert!(msg.contains("/H"), "msg = {msg:?}");
}

#[test]
fn accepts_hint_array_with_four_elements() {
    let mut bytes = Vec::new();
    bytes.extend_from_slice(b"%PDF-1.5\n%\xE2\xE3\xCF\xD3\n");
    bytes.extend_from_slice(
        b"1 0 obj\n<< /Linearized 1 /L 200 /H [ 50 30 100 20 ] /O 2 /E 80 /N 1 /T 180 >>\nendobj\n",
    );
    bytes.extend_from_slice(
        b"xref\n0 1\n0000000000 65535 f \ntrailer\n<<>>\nstartxref\n0\n%%EOF\n",
    );
    let lin = LinearizationParams::parse(&bytes)
        .expect("parse")
        .expect("Some");
    assert_eq!(lin.hint_offset, 50);
    assert_eq!(lin.hint_length, 30);
    assert_eq!(lin.hint_overflow, Some((100, 20)));
}

#[test]
fn rejects_lin_dict_with_negative_int() {
    let mut bytes = Vec::new();
    bytes.extend_from_slice(b"%PDF-1.5\n%\xE2\xE3\xCF\xD3\n");
    bytes.extend_from_slice(
        b"1 0 obj\n<< /Linearized 1 /L -1 /H [ 50 30 ] /O 2 /E 80 /N 1 /T 90 >>\nendobj\n",
    );
    bytes.extend_from_slice(
        b"xref\n0 1\n0000000000 65535 f \ntrailer\n<<>>\nstartxref\n0\n%%EOF\n",
    );
    let err = LinearizationParams::parse(&bytes).expect_err("must reject /L=-1");
    let msg = err.to_string();
    assert!(msg.contains("/L"), "msg = {msg:?}");
}

#[test]
fn scan_back_two_ints_finds_header_start() {
    // `   1 0 obj\n<<` — the call site supplies the position of
    // the space immediately before "obj"; helper should return
    // the offset of `1`.
    let buf = b"   1 0 obj\n<<";
    let space_pos = buf
        .windows(b" obj".len())
        .position(|w| w == b" obj")
        .unwrap();
    let start = scan_back_two_ints(buf, space_pos).expect("found");
    assert_eq!(&buf[start..start + 1], b"1");
}
