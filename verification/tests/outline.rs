use oxideav_pdf::destination::{decode_explicit_dest, OutlineDestination};
use oxideav_pdf::number::Number;
use oxideav_pdf::objects::{Object, ObjectId, Real};
use oxideav_pdf::outline::OutlineNode;
use std::collections::HashMap;

fn written(digits: &str) -> Number {
    Number::Real(Real::new(digits.as_bytes()))
}

#[test]
fn descendant_count_sums_recursively() {
    let leaf = OutlineNode {
        title: "leaf".into(),
        destination: None,
        raw_dest: None,
        count: None,
        children: Vec::new(),
    };
    let parent = OutlineNode {
        title: "parent".into(),
        destination: None,
        raw_dest: None,
        count: Some(2),
        children: vec![leaf.clone(), leaf.clone()],
    };
    assert_eq!(parent.descendant_count(), 3);
}

#[test]
fn is_open_recognises_count_sign() {
    let mut n = OutlineNode {
        title: "x".into(),
        destination: None,
        raw_dest: None,
        count: Some(2),
        children: Vec::new(),
    };
    assert!(n.is_open());
    n.count = Some(-2);
    assert!(!n.is_open());
    n.count = None;
    assert!(n.is_open()); // childless / absent treated as open
}

#[test]
fn explicit_dest_fit_decodes() {
    let map: HashMap<u32, usize> = [(7u32, 3usize)].into_iter().collect();
    let arr = vec![
        Object::Reference(ObjectId::new(7)),
        Object::Name("Fit".into()),
    ];
    let d = decode_explicit_dest(&arr, &map).unwrap();
    assert_eq!(d, OutlineDestination::Fit { page_index: 3 });
}

#[test]
fn explicit_dest_xyz_decodes_with_nulls() {
    let map: HashMap<u32, usize> = [(11u32, 5usize)].into_iter().collect();
    let arr = vec![
        Object::Reference(ObjectId::new(11)),
        Object::Name("XYZ".into()),
        Object::Null,
        Object::Integer(800),
        Object::Integer(0),
    ];
    let d = decode_explicit_dest(&arr, &map).unwrap();
    assert_eq!(
        d,
        OutlineDestination::Xyz {
            page_index: 5,
            left: None,
            top: Some(Number::Integer(800)),
            zoom: None,
        }
    );
}

#[test]
fn explicit_dest_fitr_requires_four_numbers() {
    let map: HashMap<u32, usize> = [(2u32, 0usize)].into_iter().collect();
    let arr = vec![
        Object::Reference(ObjectId::new(2)),
        Object::Name("FitR".into()),
        Object::Real(Real::new(b"10.0")),
        Object::Real(Real::new(b"20.0")),
        Object::Real(Real::new(b"30.0")),
        Object::Real(Real::new(b"40.0")),
    ];
    let d = decode_explicit_dest(&arr, &map).unwrap();
    assert_eq!(
        d,
        OutlineDestination::FitR {
            page_index: 0,
            left: written("10.0"),
            bottom: written("20.0"),
            right: written("30.0"),
            top: written("40.0"),
        }
    );
}

#[test]
fn explicit_dest_unknown_mode_returns_none() {
    let map: HashMap<u32, usize> = [(3u32, 1usize)].into_iter().collect();
    let arr = vec![
        Object::Reference(ObjectId::new(3)),
        Object::Name("Unknown".into()),
    ];
    assert!(decode_explicit_dest(&arr, &map).is_none());
}
