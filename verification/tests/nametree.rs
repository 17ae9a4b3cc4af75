use oxideav_pdf::nametree::{decode_key_text, key_bytes};
use oxideav_pdf::objects::Object;

#[test]
fn key_bytes_accepts_strings_and_names() {
    assert_eq!(
        key_bytes(&Object::LiteralString(b"abc".to_vec())).as_deref(),
        Some(b"abc".as_slice())
    );
    assert_eq!(
        key_bytes(&Object::HexString(vec![0x01, 0x02])).as_deref(),
        Some([0x01, 0x02].as_slice())
    );
    assert_eq!(
        key_bytes(&Object::Name("N1".into())).as_deref(),
        Some(b"N1".as_slice())
    );
    assert_eq!(key_bytes(&Object::Integer(3)), None);
}

#[test]
fn decode_key_text_bom_sniffs() {
    assert_eq!(decode_key_text(b"plain"), "plain");
    assert_eq!(decode_key_text(&[0xFE, 0xFF, 0x00, 0x41]), "A");
}
