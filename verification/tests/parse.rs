use oxideav_pdf::objects::{Object, Real};
use oxideav_pdf::parse::Parser;

fn value(r: &Real) -> f64 {
    std::str::from_utf8(&r.text).unwrap().parse().unwrap()
}

fn parse_one(input: &[u8]) -> Object {
    Parser::new(input)
        .parse_object()
        .unwrap()
        .expect("parsed object")
}

#[test]
fn primitives_parse_to_objects() {
    assert!(matches!(parse_one(b"true"), Object::Bool(true)));
    assert!(matches!(parse_one(b"false"), Object::Bool(false)));
    assert!(matches!(parse_one(b"null"), Object::Null));
    assert!(matches!(parse_one(b"42"), Object::Integer(42)));
    match parse_one(b"2.5") {
        Object::Real(f) => assert!((value(&f) - 2.5).abs() < 1e-9),
        other => panic!("expected real, got {other:?}"),
    }
    match parse_one(b"(hello)") {
        Object::LiteralString(b) => assert_eq!(b, b"hello".to_vec()),
        other => panic!("expected literal string, got {other:?}"),
    }
    match parse_one(b"<48656C6C6F>") {
        Object::HexString(b) => assert_eq!(b, b"Hello".to_vec()),
        other => panic!("expected hex string, got {other:?}"),
    }
    match parse_one(b"/Pages") {
        Object::Name(s) => assert_eq!(s, "Pages"),
        other => panic!("expected name, got {other:?}"),
    }
}

#[test]
fn array_parses_recursively() {
    let arr = parse_one(b"[1 2.5 (a) /b [3 4]]");
    let Object::Array(items) = arr else {
        panic!("expected array")
    };
    assert_eq!(items.len(), 5);
    assert!(matches!(items[0], Object::Integer(1)));
    assert!(matches!(items[1], Object::Real(_)));
    assert!(matches!(items[2], Object::LiteralString(_)));
    assert!(matches!(items[3], Object::Name(_)));
    assert!(matches!(items[4], Object::Array(_)));
}

#[test]
fn dict_parses_with_named_keys() {
    let d = parse_one(b"<< /Type /Page /Count 3 /Kids [1 2 3] >>");
    let Object::Dict(d) = d else {
        panic!("expected dict")
    };
    let entries = d.entries();
    assert_eq!(entries.len(), 3);
    assert_eq!(entries[0].0, "Type");
    assert_eq!(entries[1].0, "Count");
    assert_eq!(entries[2].0, "Kids");
}

#[test]
fn indirect_reference_recognised() {
    let r = parse_one(b"5 0 R");
    let Object::Reference(id) = r else {
        panic!("expected ref")
    };
    assert_eq!(id.number, 5);
    assert_eq!(id.generation, 0);
}

#[test]
fn integer_followed_by_non_ref_does_not_become_ref() {
    // `5 0` (without R) → array of two integers.
    let arr = parse_one(b"[5 0]");
    let Object::Array(items) = arr else {
        panic!("expected array")
    };
    assert_eq!(items.len(), 2);
    assert!(matches!(items[0], Object::Integer(5)));
    assert!(matches!(items[1], Object::Integer(0)));
}

#[test]
fn indirect_object_round_trip() {
    let input = b"3 0 obj\n<< /Type /Page >>\nendobj\n";
    let mut p = Parser::new(input);
    let (id, body) = p.parse_indirect().unwrap();
    assert_eq!(id.number, 3);
    assert!(matches!(body, Object::Dict(_)));
}

#[test]
fn stream_object_extracts_body_per_length() {
    let input = b"4 0 obj\n<< /Length 5 >>\nstream\nABCDE\nendstream\nendobj\n";
    let mut p = Parser::new(input);
    let (_, body) = p.parse_indirect().unwrap();
    let Object::Stream(s) = body else {
        panic!("expected stream")
    };
    assert_eq!(s.data, b"ABCDE".to_vec());
}

#[test]
fn stream_with_crlf_eol_marker() {
    // After `stream`, the EOL can be CRLF (or LF). The body
    // begins immediately after the marker.
    let mut input = Vec::new();
    input.extend_from_slice(b"4 0 obj\n<< /Length 3 >>\nstream\r\nXYZ\nendstream\nendobj\n");
    let mut p = Parser::new(&input);
    let (_, body) = p.parse_indirect().unwrap();
    let Object::Stream(s) = body else {
        panic!("expected stream")
    };
    assert_eq!(s.data, b"XYZ".to_vec());
}

#[test]
fn stream_indirect_length_is_rejected() {
    // /Length 7 0 R: an indirect reference, which only a document can resolve.
    let input = b"4 0 obj\n<< /Length 7 0 R >>\nstream\nXYZ\nendstream\nendobj\n";
    let mut p = Parser::new(input);
    let err = p.parse_indirect().unwrap_err();
    assert!(err.to_string().contains("indirect reference"));
}

#[test]
fn stream_missing_length_is_rejected() {
    let input = b"4 0 obj\n<< /Type /XObject >>\nstream\nXYZ\nendstream\nendobj\n";
    let mut p = Parser::new(input);
    let err = p.parse_indirect().unwrap_err();
    assert!(err.to_string().contains("/Length"));
}

#[test]
fn nested_dict_in_array() {
    // The bracket-state tracking has to handle dicts nested inside
    // arrays and vice versa.
    let arr = parse_one(b"[<< /A 1 >> << /B 2 >>]");
    let Object::Array(items) = arr else {
        panic!("expected array")
    };
    assert_eq!(items.len(), 2);
    assert!(matches!(items[0], Object::Dict(_)));
    assert!(matches!(items[1], Object::Dict(_)));
}

#[test]
fn dict_with_indirect_reference_value() {
    let d = parse_one(b"<< /Pages 2 0 R >>");
    let Object::Dict(d) = d else {
        panic!("expected dict")
    };
    let entries = d.entries();
    assert_eq!(entries.len(), 1);
    assert_eq!(entries[0].0, "Pages");
    assert!(matches!(entries[0].1, Object::Reference(_)));
}

#[test]
fn errors_say_which_token_was_found() {
    let failure = |s: &[u8]| Parser::new(s).parse_object().unwrap_err().to_string();
    assert!(failure(b"<< 1.0 2 >>").ends_with("dict key must be a Name at byte 3 (got Real(1.0))"));
    assert!(failure(b"<< [ >>").ends_with("(got ArrayStart)"));
    let failure = |s: &[u8]| Parser::new(s).parse_indirect().unwrap_err().to_string();
    assert!(failure(b"1 0 xy").ends_with("expected `obj` keyword at byte 4 (got Keyword([120, 121]))"));
    assert!(failure(b"1 /A obj").ends_with("(integer), got Name([65]) at byte 2"));
    assert!(failure(b"1 0 obj null (x)").ends_with("(got LiteralString([120]))"));
    assert!(failure(b"1 0 obj << /Length -1 >> stream\nendstream")
        .ends_with("non-negative integer (got Integer(-1))"));
}
