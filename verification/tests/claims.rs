use oxideav_pdf::document::DocumentReader;
use oxideav_pdf::linearize::LinearizationParams;
use oxideav_pdf::number::Number;
use oxideav_pdf::objects::{Dict, Object, ObjectId};
use oxideav_pdf::pdfa::{pdfa_signals, PdfACatalogSignals, XmpPacket};
use oxideav_pdf::sig::{decode_sig_dict, signed_bytes};
use oxideav_pdf::xref::{XrefEntry, XrefTable};

fn file(objects: &[&str]) -> (Vec<u8>, XrefTable) {
    let mut out: Vec<u8> = b"%PDF-1.7\n".to_vec();
    let mut table = XrefTable::new(
        Dict::new().with("Root", Object::Reference(ObjectId::new(1))),
    );
    for (i, body) in objects.iter().enumerate() {
        let number = i as u32 + 1;
        table.entries.insert(
            number,
            XrefEntry::InUse { offset: out.len() as u64, generation: 0 },
        );
        out.extend_from_slice(format!("{number} 0 obj\n{body}\nendobj\n").as_bytes());
    }
    (out, table)
}

#[test]
fn signature_fields_are_found() {
    let (bytes, table) = file(&[
        "<< /AcroForm << /Fields [2 0 R 5 0 R 9] >> >>",
        "<< /FT /Sig /Kids [3 0 R 4 0 R] >>",
        "<< /V << /Type /Sig /SubFilter /adbe.pkcs7.detached /ByteRange [0 4 8 4.9] \
            /Contents <300201FF0000> /Name (Signer) >> >>",
        "<< /V << /Type /DocTimeStamp /ByteRange [0 1 2 3] /Contents <30> >> >>",
        "<< /FT /Tx /V << /ByteRange [0 1 2 3] /Contents <30> >> >>",
    ]);
    let mut reader = DocumentReader::open(&bytes, table, None).unwrap();
    let all = reader.signatures().unwrap();
    assert_eq!(all.len(), 2);
    assert_eq!(all[0].byte_range, [0, 4, 8, 4]);
    assert_eq!(all[0].name.as_deref(), Some("Signer"));
    assert!(all[0].is_cms_detached());
    assert!(!all[0].is_doc_timestamp());
    // The padding behind the message is not part of it.
    assert_eq!(all[0].contents, [0x30, 2, 1, 0xFF, 0, 0]);
    assert_eq!(all[0].signed_data.as_ref().unwrap().der, [0x30, 2, 1, 0xFF]);
    assert_eq!(all[0].signed_message(b"AAAABBBBCCCC").unwrap(), b"AAAACCCC");
    let stamps = reader.doc_timestamps().unwrap();
    assert_eq!(stamps.len(), 1);
    assert_eq!(stamps[0].byte_range, [0, 1, 2, 3]);
    assert_eq!(stamps[0].signed_message(b"ABCDE").unwrap(), b"ACDE");
}

#[test]
fn fields_in_a_circle_are_passed_over() {
    let (bytes, table) = file(&[
        "<< /AcroForm << /Fields [2 0 R] >> >>",
        "<< /FT /Sig /Kids [2 0 R 3 0 R] >>",
        "<< /V << /ByteRange [0 1 2 3] /Contents <30> >> >>",
    ]);
    let mut reader = DocumentReader::open(&bytes, table, None).unwrap();
    assert_eq!(reader.signatures().unwrap().len(), 1);
}

#[test]
fn long_lengths_of_messages() {
    let message = |contents: Vec<u8>| {
        let range = Object::Array(vec![Object::Integer(0); 4]);
        let d = Dict::new()
            .with("SubFilter", Object::Name("ETSI.CAdES.detached".into()))
            .with("ByteRange", range)
            .with("Contents", Object::HexString(contents));
        decode_sig_dict(&d).unwrap().signed_data.map(|s| s.der)
    };
    assert_eq!(message(vec![0x30, 0x81, 1, 7, 0]), Some(vec![0x30, 0x81, 1, 7]));
    assert_eq!(message(vec![0x30, 0x82, 0, 1, 7, 0]), Some(vec![0x30, 0x82, 0, 1, 7]));
    assert_eq!(message(vec![0x30, 0x80, 0]), None);
    assert_eq!(message(vec![0x30, 5, 0]), None);
    assert_eq!(message(vec![0x30]), None);
    assert!(decode_sig_dict(&Dict::new()).is_none());
}

#[test]
fn ranges_that_cannot_be_are_described() {
    let failure = |r: [i64; 4]| signed_bytes(b"ABCD", &r).unwrap_err().to_string();
    assert!(failure([0, -1, 0, 0]).contains("negative integer ([0, -1, 0, 0])"));
    assert!(failure([0, 5, 0, 0]).contains("[0, 5, 0, 0] extends past file length 4"));
    assert!(failure([0, 3, 2, 1]).contains("second range starts (2) before first range ends (3)"));
    assert_eq!(signed_bytes(b"ABCD", &[0, 1, 3, 1]).unwrap(), b"AD");
}

#[test]
fn signals_come_from_the_catalog() {
    let (bytes, table) = file(&[
        "<< /MarkInfo 2 0 R /StructTreeRoot 3 0 R /Lang (en) /OutputIntents [1 2] /Metadata 3 0 R >>",
        "<< /Marked true /Suspects true /UserProperties false >>",
    ]);
    let mut reader = DocumentReader::open(&bytes, table, None).unwrap();
    assert_eq!(
        pdfa_signals(&mut reader).unwrap(),
        PdfACatalogSignals {
            mark_info_marked: true,
            mark_info_user_properties: false,
            mark_info_suspects: true,
            has_struct_tree_root: true,
            catalog_lang: Some("en".into()),
            output_intent_count: 2,
            has_xmp_metadata: true,
        }
    );
    let (bytes, table) = file(&["<< >>"]);
    let mut reader = DocumentReader::open(&bytes, table, None).unwrap();
    assert_eq!(pdfa_signals(&mut reader).unwrap(), PdfACatalogSignals::default());
}

#[test]
fn the_metadata_are_read_for_the_claim() {
    let parse = |b: &[u8]| XmpPacket {
        pdfaid_part: Some(b[0] - b'0'),
        pdfaid_conformance: Some("B".into()),
    };
    let (bytes, table) = file(&[
        "<< /Metadata 2 0 R /OutputIntents [1] >>",
        "<< /Length 1 >>\nstream\n2\nendstream",
    ]);
    let mut reader = DocumentReader::open(&bytes, table, None).unwrap();
    let c = reader.pdfa_conformance(parse).unwrap();
    assert_eq!(c.designator().as_deref(), Some("2B"));
    assert!(c.structurally_sound);
    assert_eq!(reader.xmp_packet(parse).unwrap().unwrap().pdfaid_part, Some(2));
    let (bytes, table) = file(&["<< /Metadata 3 >>"]);
    let mut reader = DocumentReader::open(&bytes, table, None).unwrap();
    assert!(reader.pdfa_conformance(parse).is_err());
}

fn linearized(entries: &str) -> Vec<u8> {
    format!("%PDF-1.5\n1 0 obj\n<< /Linearized 1 {entries} >>\nendobj\n").into_bytes()
}

#[test]
fn a_linearized_file_is_held_against_its_dictionary() {
    let bytes = linearized("/L 97 /H [10 20] /O 2 /E 30 /N 1 /T 40");
    let good = LinearizationParams::parse(&bytes).unwrap().unwrap();
    assert_eq!(good.linearized, Number::Integer(1));
    assert_eq!(good.first_page_object_number, 2);
    let n = good.file_length as usize;
    let input = vec![0u8; n];
    assert!(good.verify(&input).is_ok());
    let failure = |change: fn(&mut LinearizationParams)| {
        let mut p = good.clone();
        change(&mut p);
        p.verify(&input).unwrap_err().to_string()
    };
    assert!(failure(|p| p.file_length = 98).contains("/L = 98 but file is 97 bytes"));
    assert!(failure(|p| p.main_xref_offset = 97).contains("/T = 97 points past end"));
    assert!(failure(|p| p.end_of_first_page = 98).contains("/E = 98 points past end"));
    assert!(failure(|p| p.hint_offset = 97).contains("/H[0] = 97 points past end"));
    assert!(failure(|p| p.hint_length = u64::MAX).contains("/H stream extends past"));
    assert!(failure(|p| p.page_count = 0).contains("/N = 0"));
    let table = XrefTable::new(Dict::new());
    let reader = DocumentReader::open(&bytes, table, None).unwrap();
    assert!(reader.linearization().unwrap().is_some());
}

#[test]
fn each_entry_of_a_linearized_file_is_needed() {
    let failure = |entries: &str| {
        LinearizationParams::parse(&linearized(entries)).unwrap_err().to_string()
    };
    assert!(failure("/L (x)").contains("/L must be an integer"));
    assert!(failure("/L 1").contains("missing required /H"));
    assert!(failure("/L 1 /H 1").contains("/H must be an array"));
    assert!(failure("/L 1 /H [1 2 3 4 5 6]").contains("2 or 4 elements (got 6)"));
    assert!(failure("/L 1 /H [1 -2]").contains("/H[1] must be a non-negative integer"));
    assert!(failure("/L 1 /H [1 2]").contains("missing required /O"));
    let odd = b"%PDF-1.5\n1 0 obj\n<< /Linearized /Yes >>\nendobj\n";
    assert!(LinearizationParams::parse(odd)
        .unwrap_err()
        .to_string()
        .contains("/Linearized must be a number"));
    let plain = b"%PDF-1.5\n1 0 obj\n<< /Type /Catalog >>\nendobj\n";
    assert!(LinearizationParams::parse(plain).unwrap().is_none());
}

#[test]
fn one_number_is_no_header() {
    let mut bytes = b"%PDF-1.5\n% 7  obj\n".to_vec();
    bytes.extend_from_slice(&linearized("/L 97 /H [10 20] /O 2 /E 30 /N 1 /T 40"));
    assert!(LinearizationParams::parse(&bytes).unwrap().is_some());
}

#[test]
fn a_message_that_does_not_parse_is_dropped() {
    let (bytes, table) = file(&[
        "<< /AcroForm << /Fields [2 0 R] >> >>",
        "<< /FT /Sig /V << /SubFilter /adbe.pkcs7.detached /ByteRange [0 1 2 3] \
            /Contents <300101> >> >>",
    ]);
    let mut reader = DocumentReader::open(&bytes, table, None).unwrap();
    let all = reader.signatures().unwrap();
    let kept = all[0].clone().message_parsed(true);
    assert_eq!(kept.signed_data.unwrap().der, [0x30, 1, 1]);
    let dropped = all[0].clone().message_parsed(false);
    assert!(dropped.signed_data.is_none());
    assert_eq!(dropped.contents, [0x30, 1, 1]);
}
