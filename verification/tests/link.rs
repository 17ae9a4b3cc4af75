use oxideav_pdf::destination::{
    decode_explicit_dest, NamedDestination, NamedDests, OutlineDestination,
};
use oxideav_pdf::link::{decode_dest_value, PdfLinkTarget};
use oxideav_pdf::number::Number;
use oxideav_pdf::objects::{Object, ObjectId, Real};
use std::collections::HashMap;

fn written(digits: &str) -> Number {
    Number::Real(Real::new(digits.as_bytes()))
}

#[test]
fn decode_dest_value_named_byte_string() {
    // Undefined name → stays Named.
    let v = decode_dest_value(
        &Object::LiteralString(b"Chap6.begin".to_vec()),
        &HashMap::new(),
        &NamedDests::new(),
    );
    match v {
        Some(PdfLinkTarget::Named(s)) => assert_eq!(s, "Chap6.begin"),
        other => panic!("expected Named, got {other:?}"),
    }
}

#[test]
fn decode_dest_value_named_resolves_to_internal() {
    let named = NamedDests {
        entries: vec![NamedDestination {
            name: "Chap6.begin".into(),
            raw_name: b"Chap6.begin".to_vec(),
            destination: Some(OutlineDestination::Fit { page_index: 4 }),
            raw_dest: None,
        }],
    };
    let v = decode_dest_value(
        &Object::LiteralString(b"Chap6.begin".to_vec()),
        &HashMap::new(),
        &named,
    );
    match v {
        Some(PdfLinkTarget::Internal(OutlineDestination::Fit { page_index })) => {
            assert_eq!(page_index, 4);
        }
        other => panic!("expected Internal Fit, got {other:?}"),
    }
}

#[test]
fn decode_dest_value_array_fit_resolves_page_index() {
    let mut map = HashMap::new();
    map.insert(7u32, 3usize);
    let v = decode_dest_value(
        &Object::Array(vec![
            Object::Reference(ObjectId::new(7)),
            Object::Name("Fit".into()),
        ]),
        &map,
        &NamedDests::new(),
    );
    match v {
        Some(PdfLinkTarget::Internal(OutlineDestination::Fit { page_index })) => {
            assert_eq!(page_index, 3);
        }
        other => panic!("expected Internal Fit, got {other:?}"),
    }
}

#[test]
fn decode_explicit_dest_xyz_with_zoom_zero_is_none() {
    let mut map = HashMap::new();
    map.insert(2u32, 0usize);
    let arr = vec![
        Object::Reference(ObjectId::new(2)),
        Object::Name("XYZ".into()),
        Object::Real(Real::new(b"10.0")),
        Object::Real(Real::new(b"20.0")),
        Object::Real(Real::new(b"0.0")),
    ];
    let d = decode_explicit_dest(&arr, &map).unwrap();
    assert_eq!(
        d,
        OutlineDestination::Xyz {
            page_index: 0,
            left: Some(written("10.0")),
            top: Some(written("20.0")),
            zoom: None,
        }
    );
}
