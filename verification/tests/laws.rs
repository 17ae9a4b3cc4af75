use oxideav_pdf::crypt::{decrypt_object, Plaintext, StandardHandler};
use oxideav_pdf::document::DocumentReader;
use oxideav_pdf::encoding::{
    apply_encoding_differences, BaseEncoding, EncodingDifferences, EncodingMap, EncodingOverride,
};
use oxideav_pdf::filters::{
    apply_predictor, ascii85_decode, ascii_hex_decode, run_length_decode, PredictorParams,
};
use oxideav_pdf::lex::Lexer;
use oxideav_pdf::nametree::{name_tree_entries, number_tree_entries};
use oxideav_pdf::objects::{Dict, Object, ObjectId, Stream};
use oxideav_pdf::ocg::{
    evaluate_membership_with_states, evaluate_visibility_expression, resolve_states, OcConfig,
    OcMembership, OcStates, OcVisibilityExpression, OcVisibilityPolicy,
};
use oxideav_pdf::outline::outline;
use oxideav_pdf::page_labels::{labels_for_pages, PageLabelRange, PageLabelStyle};
use oxideav_pdf::pages::resolve_inheritable_attr;
use oxideav_pdf::parse::Parser;
use oxideav_pdf::stream::decode_stream;
use oxideav_pdf::xref::{XrefEntry, XrefTable};

fn file(objects: &[String]) -> (Vec<u8>, XrefTable) {
    let mut out: Vec<u8> = b"%PDF-1.7\n".to_vec();
    let mut table = XrefTable::new(
        Dict::new().with("Root", Object::Reference(ObjectId::new(1))),
    );
    for (i, body) in objects.iter().enumerate() {
        let number = i as u32 + 1;
        table.entries.insert(
            number,
            XrefEntry::InUse { offset: out.len() as u64, generation: 0 },
        );
        out.extend_from_slice(format!("{number} 0 obj\n{body}\nendobj\n").as_bytes());
    }
    (out, table)
}

const SAMPLE: [u8; 11] = [0, 1, 2, 3, 254, 255, 128, 64, 10, 13, 77];

#[test]
fn hex_text_gives_the_bytes_back() {
    let text: String = SAMPLE.iter().map(|b| format!("{b:02X}")).collect();
    assert_eq!(ascii_hex_decode(format!("{text}> more").as_bytes()).unwrap(), SAMPLE);
    assert!(ascii_hex_decode(b"4G").unwrap_err().to_string().contains("illegal byte 0x47"));
}

#[test]
fn base_85_text_gives_the_bytes_back() {
    let whole = &SAMPLE[..8];
    let mut text: Vec<u8> = Vec::new();
    for group in whole.chunks(4) {
        let mut v = u32::from_be_bytes([group[0], group[1], group[2], group[3]]);
        let mut digits = [0u8; 5];
        for d in digits.iter_mut().rev() {
            *d = (v % 85) as u8 + b'!';
            v /= 85;
        }
        text.extend_from_slice(&digits);
    }
    text.extend_from_slice(b"~>");
    assert_eq!(ascii85_decode(&text).unwrap(), whole);
    assert!(ascii85_decode(b"!z").unwrap_err().to_string().contains("mid-group"));
    assert!(ascii85_decode(b"!").unwrap_err().to_string().contains("1-character"));
    assert!(ascii85_decode(b"~x").unwrap_err().to_string().contains("stray"));
    assert!(ascii85_decode(b"\x7F").unwrap_err().to_string().contains("0x7f"));
}

#[test]
fn runs_give_the_bytes_back() {
    let mut literal = vec![SAMPLE.len() as u8 - 1];
    literal.extend_from_slice(&SAMPLE);
    literal.push(128);
    assert_eq!(run_length_decode(&literal).unwrap(), SAMPLE);
    assert_eq!(run_length_decode(&[129, 7, 128]).unwrap(), [7; 128]);
    assert!(run_length_decode(&[5, 1]).is_err());
    assert!(run_length_decode(&[200]).is_err());
}

#[test]
fn predictors_keep_the_length() {
    let png = PredictorParams { predictor: 10, colors: 1, bits_per_component: 8, columns: 3 };
    assert_eq!(apply_predictor(&[0, 1, 2, 3, 1, 1, 1, 1], &png).unwrap().len(), 6);
    let tiff = PredictorParams { predictor: 2, ..png };
    assert_eq!(apply_predictor(&[1, 2, 3, 4, 5, 6], &tiff).unwrap().len(), 6);
    let failure = |p: PredictorParams| apply_predictor(&[9; 4], &p).unwrap_err().to_string();
    assert!(failure(png).contains("row tag 9 unknown"));
    assert!(failure(tiff).contains("does not divide"));
    assert!(failure(PredictorParams { predictor: 3, ..png }).contains("/Predictor 3"));
    assert!(failure(PredictorParams { colors: 0, ..png }).contains("must be positive"));
    assert!(failure(PredictorParams { bits_per_component: 3, ..png }).contains("3 invalid"));
    assert!(failure(PredictorParams { columns: usize::MAX, ..png }).contains("overflow"));
}

#[test]
fn a_chain_is_its_filters_one_by_one() {
    let name = |n: &str| Object::Name(n.into());
    let both = Dict::new().with("Filter", Object::Array(vec![name("AHx"), name("A85")]));
    let first = Dict::new().with("Filter", name("AHx"));
    let second = Dict::new().with("Filter", Object::Array(vec![name("A85")]));
    let data = b"396A716F5E7E3E>".to_vec();
    let middle = decode_stream(&Stream::new(first, data.clone())).unwrap();
    assert_eq!(middle, b"9jqo^~>");
    assert_eq!(decode_stream(&Stream::new(second, middle)).unwrap(), b"Man ");
    assert_eq!(decode_stream(&Stream::new(both, data)).unwrap(), b"Man ");
    let odd = Dict::new().with("Filter", Object::Integer(1));
    assert!(decode_stream(&Stream::new(odd, vec![])).is_err());
    assert_eq!(decode_stream(&Stream::new(Dict::new(), vec![1])).unwrap(), [1]);
}

#[test]
fn dictionaries_hold_what_was_set() {
    let mut d = Dict::new().with("A", Object::Integer(1)).with("B", Object::Integer(2));
    d.set("A", Object::Integer(3));
    assert_eq!(d.get("A"), Some(&Object::Integer(3)));
    assert_eq!(d.get("B"), Some(&Object::Integer(2)));
    assert_eq!(d.get("C"), None);
    assert_eq!(d.entries().len(), 2);
}

#[test]
fn parsed_dictionaries_hold_a_key_once() {
    match Parser::new(b"<< /A 1 /B 2 /A 3 >>").parse_object().unwrap() {
        Some(Object::Dict(d)) => {
            assert_eq!(d.entries().len(), 2);
            assert_eq!(d.get("A"), Some(&Object::Integer(3)));
        }
        other => panic!("{other:?}"),
    }
}

#[test]
fn nesting_has_a_ceiling() {
    let nested = |n: usize| [vec![b'['; n], vec![b']'; n]].concat();
    assert!(Parser::new(&nested(1024)).parse_object().is_ok());
    let err = Parser::new(&nested(1025)).parse_object().unwrap_err();
    assert!(err.to_string().contains("nested too deeply"));
}

#[test]
fn tokens_lie_in_the_input() {
    let input = b" [ 12 ] % end\n";
    let mut lex = Lexer::new(input);
    let mut places = Vec::new();
    while let Some(t) = lex.next_token().unwrap() {
        places.push((t.start, t.end));
    }
    assert_eq!(places, [(1, 2), (3, 5), (6, 7)]);
    assert_eq!(lex.position(), input.len());
    let mut lex = Lexer::new(b"ab");
    assert_eq!(lex.peek_byte(0), Some(b'a'));
    lex.seek(9);
    assert_eq!(lex.peek_byte(0), None);
}

#[test]
fn only_strings_and_streams_are_decrypted() {
    let id = ObjectId::new(7);
    let handler = StandardHandler {
        plaintexts: vec![Plaintext { id, cipher: b"xx".to_vec(), plain: b"ok".to_vec() }],
    };
    let array = Object::Array(vec![
        Object::Integer(1),
        Object::LiteralString(b"xx".to_vec()),
        Object::Name("xx".into()),
    ]);
    assert_eq!(
        decrypt_object(&array, id, &handler).unwrap(),
        Object::Array(vec![
            Object::Integer(1),
            Object::LiteralString(b"ok".to_vec()),
            Object::Name("xx".into()),
        ])
    );
    let plain = Stream::new(
        Dict::new().with("Filter", Object::Name("Crypt".into())),
        b"as it is".to_vec(),
    );
    match decrypt_object(&Object::Stream(plain), id, &handler).unwrap() {
        Object::Stream(s) => assert_eq!(s.data, b"as it is"),
        other => panic!("{other:?}"),
    }
    let unknown = Object::HexString(b"??".to_vec());
    assert!(decrypt_object(&unknown, id, &handler).is_err());
}

#[test]
fn text_is_decoded_piece_by_piece() {
    let m = EncodingMap::from_base(BaseEncoding::WinAnsi);
    assert_eq!(m.decode(b"ab\x93"), m.decode(b"a") + &m.decode(b"b\x93"));
    let entry = |name: &str| EncodingOverride { code: 65, glyph_name: name.into() };
    let d = EncodingDifferences { overrides: vec![entry("Omega"), entry("fi")] };
    let out = apply_encoding_differences(&m, &d);
    assert_eq!(out.decode(b"A"), "fi");
    assert_eq!(out.decode(b"BCD"), m.decode(b"BCD"));
}

#[test]
fn policies_and_their_opposites() {
    let id = ObjectId::new;
    for on in [[true, true], [true, false], [false, false]] {
        let mut states = OcStates::new();
        states.insert(id(1), on[0]);
        states.insert(id(2), on[1]);
        let shown = |policy: OcVisibilityPolicy| {
            let m = OcMembership {
                groups: vec![id(1), id(2)],
                policy,
                visibility_expression: None,
            };
            evaluate_membership_with_states(&m, &states)
        };
        assert_eq!(shown(OcVisibilityPolicy::AllOn), !shown(OcVisibilityPolicy::AnyOff));
        assert_eq!(shown(OcVisibilityPolicy::AnyOn), !shown(OcVisibilityPolicy::AllOff));
        let group = |n: u32| OcVisibilityExpression::Group(id(n));
        let not = |e: OcVisibilityExpression| OcVisibilityExpression::Not(Box::new(e));
        assert_eq!(
            evaluate_visibility_expression(
                &not(OcVisibilityExpression::And(vec![group(1), group(2)])),
                &states
            ),
            evaluate_visibility_expression(
                &OcVisibilityExpression::Or(vec![not(group(1)), not(group(2))]),
                &states
            )
        );
        let m = OcMembership {
            groups: vec![id(1)],
            policy: OcVisibilityPolicy::AllOn,
            visibility_expression: Some(group(2)),
        };
        assert_eq!(evaluate_membership_with_states(&m, &states), on[1]);
    }
    let config = OcConfig { on: vec![id(1)], off: vec![id(1)], ..OcConfig::default() };
    assert_eq!(resolve_states(&vec![], &config).get(&id(1)), Some(false));
}

#[test]
fn trees_are_capped_as_a_whole() {
    let leaf: String = (0..60_000).map(|i| format!("{i} {i} ")).collect();
    let leaf = format!("<< /Nums [{leaf}] >>");
    let (bytes, table) = file(&["<< /Kids [2 0 R 3 0 R] >>".to_string(), leaf.clone(), leaf]);
    let mut reader = DocumentReader::open(&bytes, table, None).unwrap();
    let root = match reader.resolve(ObjectId::new(1)).unwrap() {
        Object::Dict(d) => d,
        other => panic!("{other:?}"),
    };
    assert_eq!(number_tree_entries(&mut reader, &root).unwrap().len(), 100_000);
    assert!(name_tree_entries(&mut reader, &root).unwrap().is_empty());
}

#[test]
fn bookmarks_in_a_circle_end() {
    let (bytes, table) = file(&[
        "<< /Pages 2 0 R /Outlines 3 0 R >>".to_string(),
        "<< /Type /Pages /Kids [] >>".to_string(),
        "<< /First 4 0 R >>".to_string(),
        "<< /Title (a) /Next 5 0 R >>".to_string(),
        "<< /Title (b) /Next 4 0 R >>".to_string(),
    ]);
    let mut reader = DocumentReader::open(&bytes, table, None).unwrap();
    let o = outline(&mut reader).unwrap().unwrap();
    let titles: Vec<&str> = o.roots.iter().map(|n| n.title.as_str()).collect();
    assert_eq!(titles, ["a", "b"]);

    let (bytes, table) = file(&[
        "<< /Pages 2 0 R /Outlines 3 0 R >>".to_string(),
        "<< /Type /Pages /Kids [] >>".to_string(),
        "<< /First 4 0 R >>".to_string(),
        "<< /Title (a) /First 5 0 R >>".to_string(),
        "<< /Title (b) /First 4 0 R >>".to_string(),
    ]);
    let mut reader = DocumentReader::open(&bytes, table, None).unwrap();
    let o = outline(&mut reader).unwrap().unwrap();
    assert_eq!(o.roots[0].children[0].title, "b");
    assert!(o.roots[0].children[0].children.is_empty());
}

#[test]
fn labels_begin_anew_with_each_range() {
    let range = |start_index: i64, style: PageLabelStyle, start_value: i64| PageLabelRange {
        start_index,
        style: Some(style),
        prefix: "p".into(),
        start_value,
    };
    let ranges =
        vec![range(1, PageLabelStyle::AlphaLower, 26), range(3, PageLabelStyle::RomanUpper, 9)];
    assert_eq!(labels_for_pages(&ranges, 5), ["1", "pz", "paa", "pIX", "pX"]);
    assert_eq!(labels_for_pages(&vec![], 2), ["1", "2"]);
}

#[test]
fn a_page_goes_by_its_own_attribute_first() {
    let (bytes, table) = file(&[
        "<< /Rotate 90 /Parent 2 0 R >>".to_string(),
        "<< /Rotate 180 /Parent 1 0 R >>".to_string(),
    ]);
    let mut reader = DocumentReader::open(&bytes, table, None).unwrap();
    let mut rotate = |text: &[u8]| {
        let page = match Parser::new(text).parse_object().unwrap() {
            Some(Object::Dict(d)) => d,
            other => panic!("{other:?}"),
        };
        resolve_inheritable_attr(&mut reader, &page, "Rotate").unwrap()
    };
    assert_eq!(rotate(b"<< /Rotate 0 /Parent 1 0 R >>"), Some(Object::Integer(0)));
    assert_eq!(rotate(b"<< /Parent 2 0 R >>"), Some(Object::Integer(180)));
    assert_eq!(rotate(b"<< >>"), None);
}
