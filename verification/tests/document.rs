use oxideav_pdf::crypt::{Plaintext, StandardHandler};
use oxideav_pdf::document::{ciphertexts, DocumentReader};
use oxideav_pdf::objects::{Dict, Object, ObjectId, Stream};
use oxideav_pdf::resources::resolve_shading_resources;
use oxideav_pdf::stream::decode_stream;
use oxideav_pdf::textstring::pdf_date_to_iso8601;
use oxideav_pdf::xref::{XrefEntry, XrefTable};

fn flate_compress(data: &[u8]) -> Vec<u8> {
    compcol::vec::compress_to_vec::<compcol::zlib::Zlib>(data).unwrap()
}

/// A file with these objects, numbered from 1 on, and its table.
fn file(objects: &[&[u8]], trailer: Dict) -> (Vec<u8>, XrefTable) {
    let mut out: Vec<u8> = b"%PDF-1.7\n".to_vec();
    let mut table = XrefTable::new(trailer);
    for (i, body) in objects.iter().enumerate() {
        let number = i as u32 + 1;
        table.entries.insert(
            number,
            XrefEntry::InUse { offset: out.len() as u64, generation: 0 },
        );
        out.extend_from_slice(format!("{number} 0 obj\n").as_bytes());
        out.extend_from_slice(body);
        out.extend_from_slice(b"\nendobj\n");
    }
    (out, table)
}

fn rooted() -> Dict {
    Dict::new().with("Root", Object::Reference(ObjectId::new(1)))
}

fn stream(entries: &str, data: &[u8]) -> Vec<u8> {
    let mut out = format!("<< {entries} /Length {} >>\nstream\n", data.len()).into_bytes();
    out.extend_from_slice(data);
    out.extend_from_slice(b"\nendstream");
    out
}

#[test]
fn pdf_date_to_iso8601_format() {
    assert_eq!(
        pdf_date_to_iso8601("D:20260504123045Z".to_string()),
        "2026-05-04T12:30:45Z"
    );
    assert_eq!(
        pdf_date_to_iso8601("D:20260504123045+09'00'".to_string()),
        "2026-05-04T12:30:45+09:00"
    );
}

#[test]
fn short_and_foreign_dates() {
    assert_eq!(pdf_date_to_iso8601("D:2026".to_string()), "2026");
    assert_eq!(pdf_date_to_iso8601("D:202605".to_string()), "2026-05");
    assert_eq!(pdf_date_to_iso8601("D:20".to_string()), "D:20");
    assert_eq!(pdf_date_to_iso8601("yesterday".to_string()), "yesterday");
}

#[test]
fn decode_stream_applies_flate_png_predictor() {
    let predicted: &[u8] = &[
        0, 10, 20, 30, // row 0: tag None
        2, 1, 2, 3, // row 1: tag Up
    ];
    let compressed = flate_compress(predicted);

    let dict = Dict::new()
        .with("Filter", Object::Name("FlateDecode".into()))
        .with(
            "DecodeParms",
            Object::Dict(
                Dict::new()
                    .with("Predictor", Object::Integer(12))
                    .with("Columns", Object::Integer(3)),
            ),
        );
    let stream = Stream::new(dict, compressed);
    let out = decode_stream(&stream).unwrap();
    assert_eq!(out, [10u8, 20, 30, 11, 22, 33]);
}

#[test]
fn decode_stream_flate_without_predictor_is_passthrough() {
    let raw = b"hello predictor-free world";
    let compressed = flate_compress(raw);

    let dict = Dict::new().with("Filter", Object::Name("FlateDecode".into()));
    let stream = Stream::new(dict, compressed);
    assert_eq!(decode_stream(&stream).unwrap(), raw);
}

#[test]
fn filters_are_undone_in_array_order() {
    let dict = Dict::new().with(
        "Filter",
        Object::Array(vec![
            Object::Name("ASCIIHexDecode".into()),
            Object::Name("RunLengthDecode".into()),
        ]),
    );
    // fd 78 80: four times `x`, and the end.
    let stream = Stream::new(dict, b"FD7880>".to_vec());
    assert_eq!(decode_stream(&stream).unwrap(), b"xxxx");
}

#[test]
fn image_filters_are_left_to_others() {
    let dict = Dict::new().with("Filter", Object::Name("DCTDecode".into()));
    let err = decode_stream(&Stream::new(dict, vec![0xFF, 0xD8])).unwrap_err();
    assert!(err.to_string().contains("`DCTDecode` not yet supported"));
}

#[test]
fn broken_flate_data_are_an_error() {
    let dict = Dict::new().with("Filter", Object::Name("FlateDecode".into()));
    assert!(decode_stream(&Stream::new(dict, b"no zlib here".to_vec())).is_err());
}

#[test]
fn resolve_shading_folds_mesh_stream_body() {
    // One all-coloured triangle: 8-bit flag / coord / component, byte-aligned
    // per vertex.
    let mut body: Vec<u8> = Vec::new();
    for (x, y, r, g, b) in [
        (0u8, 0u8, 255u8, 0u8, 0u8),
        (255, 0, 0, 255, 0),
        (0, 255, 0, 0, 255),
    ] {
        body.extend_from_slice(&[0, x, y, r, g, b]); // flag, x, y, r, g, b
    }
    let compressed = flate_compress(&body);

    let mesh = stream(
        "/ShadingType 4 /ColorSpace /DeviceRGB \
         /BitsPerCoordinate 8 /BitsPerComponent 8 /BitsPerFlag 8 \
         /Decode [0 1 0 1 0 1 0 1 0 1] /Filter /FlateDecode",
        &compressed,
    );
    let (bytes, table) = file(
        &[
            b"<< /Type /Catalog /Pages 2 0 R >>",
            b"<< /Type /Pages /Count 1 /Kids [3 0 R] >>",
            b"<< /Type /Page /Parent 2 0 R /MediaBox [0 0 100 100] \
              /Resources << /Shading << /Sh1 5 0 R >> >> >>",
            b"<< >>",
            &mesh,
        ],
        rooted(),
    );
    let mut reader = DocumentReader::open(&bytes, table, None).expect("open");
    let resources = Dict::new().with(
        "Shading",
        Object::Dict(Dict::new().with("Sh1", Object::Reference(ObjectId::new(5)))),
    );
    let resolved = resolve_shading_resources(&mut reader, &resources)
        .expect("resolve")
        .expect("some shading dict");
    let sh1 = match resolved.entries().iter().find(|(k, _)| k == "Sh1") {
        Some((_, Object::Dict(d))) => d.clone(),
        _ => panic!("Sh1 not a dict"),
    };
    // The decompressed mesh body was folded into __MeshData.
    assert!(sh1.entries().iter().any(|(k, _)| k == "__MeshData"));
    // Three vertices of six bytes each.
    assert_eq!(sh1.get("__MeshData"), Some(&Object::HexString(body)));
}

#[test]
fn references_are_followed_to_the_end() {
    let (bytes, table) = file(&[b"2 0 R", b"3 0 R", b"(end)"], rooted());
    let mut reader = DocumentReader::open(&bytes, table, None).unwrap();
    let one = Object::Reference(ObjectId::new(1));
    assert_eq!(reader.deref(one).unwrap(), Object::LiteralString(b"end".to_vec()));
    assert_eq!(
        reader.resolve(ObjectId::new(1)).unwrap(),
        Object::Reference(ObjectId::new(2))
    );
    assert_eq!(reader.deref(Object::Integer(7)).unwrap(), Object::Integer(7));
}

#[test]
fn references_in_a_circle_are_an_error() {
    let (bytes, table) = file(&[b"2 0 R", b"1 0 R"], rooted());
    let mut reader = DocumentReader::open(&bytes, table, None).unwrap();
    assert!(reader.deref(Object::Reference(ObjectId::new(1))).is_err());
}

#[test]
fn indirect_lengths_are_looked_up() {
    let (bytes, table) = file(
        &[b"<< /Length 2 0 R >>\nstream\nABCDE\nendstream", b"5"],
        rooted(),
    );
    let mut reader = DocumentReader::open(&bytes, table, None).unwrap();
    match reader.resolve(ObjectId::new(1)).unwrap() {
        Object::Stream(s) => assert_eq!(s.data, b"ABCDE"),
        other => panic!("expected a stream, got {other:?}"),
    }
}

#[test]
fn objects_in_object_streams_are_found() {
    // Objects 10 and 11 at places 0 and 5 behind the header.
    let container = stream("/Type /ObjStm /N 2 /First 11", b"10 0 11 5  (ab) 42");
    let (bytes, mut table) = file(&[b"null", &container], rooted());
    table.entries.insert(
        10,
        XrefEntry::Compressed { obj_stream_id: 2, index_within_stream: 0 },
    );
    table.entries.insert(
        11,
        XrefEntry::Compressed { obj_stream_id: 2, index_within_stream: 1 },
    );
    let mut reader = DocumentReader::open(&bytes, table, None).unwrap();
    assert_eq!(
        reader.resolve(ObjectId::new(10)).unwrap(),
        Object::LiteralString(b"ab".to_vec())
    );
    assert_eq!(reader.resolve(ObjectId::new(11)).unwrap(), Object::Integer(42));
    assert_eq!(reader.resolve(ObjectId::new(11)).unwrap(), Object::Integer(42));
}

#[test]
fn metadata_is_decoded() {
    let meta = stream("/Filter /ASCIIHexDecode", b"3C783E>");
    let (bytes, table) = file(&[b"<< /Metadata 2 0 R >>", &meta], rooted());
    let mut reader = DocumentReader::open(&bytes, table, None).unwrap();
    assert_eq!(reader.xmp_metadata().unwrap(), Some(b"<x>".to_vec()));

    let (bytes, table) = file(&[b"<< >>"], rooted());
    let mut reader = DocumentReader::open(&bytes, table, None).unwrap();
    assert_eq!(reader.xmp_metadata().unwrap(), None);

    let (bytes, table) = file(&[b"<< /Metadata 7 >>"], rooted());
    let mut reader = DocumentReader::open(&bytes, table, None).unwrap();
    assert!(reader.xmp_metadata().unwrap_err().to_string().contains("must resolve to a Stream"));
}

#[test]
fn a_locked_file_needs_a_handler() {
    let locked = || {
        file(
            &[b"(cipher)", b"<< /Filter /Standard >>"],
            rooted()
                .with("Encrypt", Object::Reference(ObjectId::new(2)))
                .with(
                    "ID",
                    Object::Array(vec![Object::HexString(vec![1]), Object::HexString(vec![1])]),
                ),
        )
    };
    let (bytes, table) = locked();
    match DocumentReader::open(&bytes, table, None) {
        Ok(_) => panic!("opened without a handler"),
        Err(e) => assert!(e.to_string().contains("wrong password")),
    }
    let (bytes, table) = locked();
    let handler = StandardHandler {
        plaintexts: vec![Plaintext {
            id: ObjectId::new(1),
            cipher: b"cipher".to_vec(),
            plain: b"plain".to_vec(),
        }],
    };
    let mut reader = match DocumentReader::open_with_password(&bytes, table, Some(handler)) {
        Ok(r) => r,
        Err(e) => panic!("{e:?}"),
    };
    assert!(reader.is_encrypted());
    assert_eq!(
        reader.resolve(ObjectId::new(1)).unwrap(),
        Object::LiteralString(b"plain".to_vec())
    );
    let (bytes, table) = locked();
    assert_eq!(ciphertexts(&bytes, &table, ObjectId::new(1)).unwrap(), [b"cipher".to_vec()]);
    assert!(ciphertexts(&bytes, &table, ObjectId::new(2)).unwrap().is_empty());
    assert!(ciphertexts(&bytes, &table, ObjectId::new(9)).is_err());
    let handler = StandardHandler { plaintexts: vec![] };
    let (bytes, table) = locked();
    let reader = DocumentReader::open(&bytes, table, Some(handler)).unwrap();
    assert!(reader.is_encrypted());
    let (bytes, table) = locked();
    match DocumentReader::open_with_certificate(&bytes, table, None) {
        Ok(_) => panic!("opened without a handler"),
        Err(e) => assert!(e.to_string().contains("did not match any recipient")),
    }
}

#[test]
fn ciphertexts_are_all_that_is_decrypted() {
    let body = stream("/A [(one) <02> /name] /B << /C (three) >>", b"data");
    let (bytes, table) = file(&[&body], rooted());
    let id = ObjectId::new(1);
    let parts = ciphertexts(&bytes, &table, id).unwrap();
    assert_eq!(
        parts,
        [b"one".to_vec(), vec![2], b"three".to_vec(), b"data".to_vec()]
    );
    let plaintexts = parts
        .iter()
        .map(|c| Plaintext { id, cipher: c.clone(), plain: c.iter().rev().copied().collect() })
        .collect();
    let table_again = file(&[&body], rooted().with("Encrypt", Object::Dict(Dict::new()))).1;
    let handler = StandardHandler { plaintexts };
    let mut reader =
        DocumentReader::open_with_certificate(&bytes, table_again, Some(handler)).unwrap();
    match reader.resolve(id).unwrap() {
        Object::Stream(s) => {
            assert_eq!(s.data, b"atad");
            match s.dict.get("B") {
                Some(Object::Dict(d)) => {
                    assert_eq!(d.get("C"), Some(&Object::LiteralString(b"eerht".to_vec())));
                }
                other => panic!("{other:?}"),
            }
        }
        other => panic!("{other:?}"),
    }
}

#[test]
fn what_cannot_lie_in_an_object_stream_is_described() {
    let (bytes, mut table) = file(
        &[b"<< /Length 9 0 R >>\nstream\nA\nendstream", b"null"],
        rooted(),
    );
    for number in [8, 9] {
        table.entries.insert(
            number,
            XrefEntry::Compressed { obj_stream_id: 8, index_within_stream: 0 },
        );
    }
    let mut reader = DocumentReader::open(&bytes, table, None).unwrap();
    assert_eq!(
        reader.resolve(ObjectId::new(1)).unwrap_err().to_string(),
        "PDF reader: indirect /Length ObjectId { number: 9, generation: 0 } lives in an object \
         stream — not supported (ISO 32000-1 §7.5.7); the length object should be a direct \
         uncompressed integer"
    );
    assert_eq!(
        reader.resolve(ObjectId::new(9)).unwrap_err().to_string(),
        "PDF reader: ObjStm container ObjectId { number: 8, generation: 0 } (for compressed \
         object ObjectId { number: 9, generation: 0 }) is itself declared as a Type-2 compressed \
         entry in the xref — forbidden by ISO 32000-1 §7.5.7"
    );
}
