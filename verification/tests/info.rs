use oxideav_pdf::info::{decode_metadata, split_keywords, DocumentInfo};
use oxideav_pdf::objects::{Dict, Object, ObjectId, Real, Stream};

fn text(s: &str) -> Object {
    Object::LiteralString(s.as_bytes().to_vec())
}

#[test]
fn keywords_are_split_and_trimmed() {
    assert_eq!(split_keywords("alpha, beta ,\u{3000}gamma delta"), ["alpha", "beta", "gamma delta"]);
    assert_eq!(split_keywords("single"), ["single"]);
    assert_eq!(split_keywords(""), [""]);
    assert_eq!(split_keywords("a,,b"), ["a", "", "b"]);
}

#[test]
fn joined_keywords_are_found_again() {
    let words = ["pdf", "verified reader", "état"];
    assert_eq!(split_keywords(&words.join(", ")), words);
}

#[test]
fn entries_go_to_their_fields() {
    let d = Dict::new()
        .with("Title", text("A title"))
        .with("Author", text("Somebody"))
        .with("Keywords", text("one, two"))
        .with("Producer", Object::Integer(1))
        .with("CreationDate", text("D:20260504123045Z"))
        .with("ModDate", text("unknown"))
        .with("Department", text("Research"))
        .with("Trapped", Object::Name("False".into()));
    let m = decode_metadata(&Object::Dict(d)).unwrap();
    assert_eq!(m.title.as_deref(), Some("A title"));
    assert_eq!(m.author.as_deref(), Some("Somebody"));
    assert_eq!(m.subject, None);
    assert_eq!(m.keywords, ["one", "two"]);
    assert_eq!(m.producer, None);
    assert_eq!(m.created_at.as_deref(), Some("2026-05-04T12:30:45Z"));
    assert_eq!(m.modified_at.as_deref(), Some("unknown"));
    assert_eq!(m.custom, [("Department".to_string(), "Research".to_string())]);
}

#[test]
fn unicode_titles_are_decoded() {
    let utf16: Vec<u8> = [0xFEu8, 0xFF]
        .into_iter()
        .chain("日本語".encode_utf16().flat_map(|u| u.to_be_bytes()))
        .collect();
    let d = Dict::new()
        .with("Title", Object::HexString(utf16))
        .with("Subject", Object::LiteralString(vec![b'a', 0xFF]));
    let m = decode_metadata(&Object::Dict(d)).unwrap();
    assert_eq!(m.title.as_deref(), Some("日本語"));
    assert_eq!(m.subject.as_deref(), Some("a\u{FFFD}"));
}

#[test]
fn only_a_dictionary_is_information() {
    let err = decode_metadata(&Object::Null).unwrap_err();
    assert!(err.to_string().contains("/Info must be a dict"));
    assert_eq!(decode_metadata(&Object::Dict(Dict::new())).unwrap(), DocumentInfo::default());
}

#[test]
fn pairs_and_lone_halves_are_decoded() {
    let mut bytes = vec![0xFEu8, 0xFF];
    for unit in [0xD83Du16, 0xDE00, 0x0041, 0xDE00, 0xD83D, 0xD83D, 0x0042, 0xD83D] {
        bytes.extend_from_slice(&unit.to_be_bytes());
    }
    let d = Dict::new().with("Title", Object::HexString(bytes));
    let m = decode_metadata(&Object::Dict(d)).unwrap();
    assert_eq!(
        m.title.as_deref(),
        Some("\u{1F600}A\u{FFFD}\u{FFFD}\u{FFFD}B\u{FFFD}")
    );
}

#[test]
fn errors_say_what_was_found() {
    let nested = Object::Array(vec![
        Object::Null,
        Object::Bool(true),
        Object::Bool(false),
        Object::Integer(-7),
        Object::Name("a \"b\"\\c\n\r\t\u{0}\u{1}\u{7f}\u{1f}é'".into()),
        Object::LiteralString(vec![]),
        Object::HexString(vec![1, 255]),
        Object::Array(vec![]),
        Object::Dict(Dict::new().with("K", Object::Integer(1)).with("L", Object::Null)),
        Object::Stream(Stream::new(Dict::new(), vec![9])),
        Object::Reference(ObjectId { number: 3, generation: 1 }),
    ]);
    assert_eq!(
        decode_metadata(&nested).unwrap_err().to_string(),
        format!("PDF reader: /Info must be a dict (got {nested:?})")
    );
    let real = |digits: &[u8]| {
        let o = Object::Real(Real::new(digits));
        decode_metadata(&o).unwrap_err().to_string()
    };
    assert!(real(b"1.50").ends_with("(got Real(1.5))"));
    assert!(real(b"-2.").ends_with("(got Real(-2.0))"));
}
