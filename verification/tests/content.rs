use oxideav_pdf::content::{charproc_is_shape_only, ContentPart, PartKind};
use oxideav_pdf::document::DocumentReader;
use oxideav_pdf::images::ColorSpace;
use oxideav_pdf::inline_images::{extract_inline_images_from_stream, InlineImageFilter};
use oxideav_pdf::number::Number;
use oxideav_pdf::objects::{Dict, Object, ObjectId, Real};
use oxideav_pdf::ocg::{
    optional_content, parse_membership, OcOrderItem, OcVisibilityExpression,
};
use oxideav_pdf::page::{decode_page, read_document, PageContent};
use oxideav_pdf::resources::{
    prepare_color_space_object, prepare_function_object, resolve_category,
    resolve_color_space_resources, resolve_font_resources, ResourceKind,
};
use oxideav_pdf::xref::{XrefEntry, XrefTable};

fn file(objects: &[String]) -> (Vec<u8>, XrefTable) {
    let mut out: Vec<u8> = b"%PDF-1.7\n".to_vec();
    let mut table = XrefTable::new(
        Dict::new().with("Root", Object::Reference(ObjectId::new(1))),
    );
    for (i, body) in objects.iter().enumerate() {
        let number = i as u32 + 1;
        table.entries.insert(
            number,
            XrefEntry::InUse { offset: out.len() as u64, generation: 0 },
        );
        out.extend_from_slice(format!("{number} 0 obj\n{body}\nendobj\n").as_bytes());
    }
    (out, table)
}

fn stream(entries: &str, data: &str) -> String {
    format!("<< {entries} /Length {} >>\nstream\n{data}\nendstream", data.len())
}

/// A document of one page, which is object 3; the rest is numbered from 4 on.
fn one_page(catalog: &str, tree: &str, page: &str, rest: &[String]) -> (Vec<u8>, XrefTable) {
    let mut objects = vec![
        format!("<< /Type /Catalog /Pages 2 0 R {catalog} >>"),
        format!("<< /Type /Pages /Count 1 /Kids [3 0 R] {tree} >>"),
        format!("<< /Type /Page /Parent 2 0 R {page} >>"),
    ];
    objects.extend_from_slice(rest);
    file(&objects)
}

fn page(tree: &str, page: &str, rest: &[String]) -> PageContent {
    let (bytes, table) = one_page("", tree, page, rest);
    let mut reader = DocumentReader::open(&bytes, table, None).unwrap();
    decode_page(&mut reader, ObjectId::new(3), None).unwrap()
}

fn names(parts: &[ContentPart]) -> Vec<&str> {
    parts.iter().map(|p| p.name.as_str()).collect()
}

fn whole(values: &[i64]) -> Vec<Number> {
    values.iter().map(|v| Number::Integer(*v)).collect()
}

#[test]
fn a_bare_page_has_defaults() {
    let p = page("", "", &[]);
    assert_eq!(p.media_box, whole(&[0, 0, 595, 842]));
    assert_eq!(p.content, b"");
    assert_eq!(p.orientation, 0);
    assert!(p.parts.is_empty());
    assert!(p.appearances.is_empty());
}

#[test]
fn attributes_are_inherited() {
    let p = page("/MediaBox [0 0 10 20] /Rotate -90", "", &[]);
    assert_eq!(p.media_box, whole(&[0, 0, 10, 20]));
    assert_eq!(p.orientation, 270);
    let p = page("/Rotate 90", "/Rotate 45", &[]);
    assert_eq!(p.orientation, 0);
    let p = page("", "/Rotate 810", &[]);
    assert_eq!(p.orientation, 90);
}

#[test]
fn streams_of_content_are_joined() {
    let p = page("", "/Contents [4 0 R 5 0 R]", &[stream("", "q"), stream("", "Q")]);
    assert_eq!(p.content, b"q\nQ\n");
    let p = page("", "/Contents 4 0 R", &[stream("/Filter /ASCIIHexDecode", "7120>")]);
    assert_eq!(p.content, b"q ");
}

#[test]
fn broken_pages_are_errors() {
    let failure = |text: &str| {
        let (bytes, table) = one_page("", "", text, &[]);
        let mut reader = DocumentReader::open(&bytes, table, None).unwrap();
        decode_page(&mut reader, ObjectId::new(3), None).unwrap_err().to_string()
    };
    assert!(failure("/MediaBox [0 0 1]").contains("/MediaBox must be a 4-array"));
    assert!(failure("/MediaBox [0 0 1 /x]").contains("expected number"));
    assert!(failure("/Contents (x)").contains("/Contents must be a Stream or array"));
    let (bytes, table) = file(&["[]".to_string()]);
    let mut reader = DocumentReader::open(&bytes, table, None).unwrap();
    let err = decode_page(&mut reader, ObjectId::new(1), None).unwrap_err();
    assert!(err.to_string().contains("is not a dict"));
}

#[test]
fn forms_are_read_with_what_they_name() {
    let p = page(
        "",
        "/Resources << /XObject << /Fm 4 0 R /Im 6 0 R >> >>",
        &[
            stream(
                "/Subtype /Form /BBox [0 0 5 5] /Resources << /XObject << /Self 4 0 R /In 5 0 R >> >>",
                "outer",
            ),
            stream("/Subtype /Form /Matrix [2 0 0 2 0 0]", "inner"),
            stream("/Subtype /Image", "x"),
        ],
    );
    assert_eq!(names(&p.parts), ["Fm"]);
    let outer = &p.parts[0];
    assert_eq!(outer.content, b"outer");
    assert_eq!(outer.bbox, Some(whole(&[0, 0, 5, 5])));
    assert_eq!(outer.matrix, whole(&[1, 0, 0, 1, 0, 0]));
    // The form does not hold itself.
    assert_eq!(names(&outer.parts), ["In"]);
    assert_eq!(outer.parts[0].matrix, whole(&[2, 0, 0, 2, 0, 0]));
    assert_eq!(outer.parts[0].bbox, None);
}

#[test]
fn nesting_has_a_limit() {
    // A chain of forms, each naming the next.
    let rest: Vec<String> = (0..20)
        .map(|i| {
            let next = i + 5;
            stream(
                &format!("/Subtype /Form /Resources << /XObject << /N {next} 0 R >> >>"),
                "x",
            )
        })
        .chain([stream("/Subtype /Form", "end")])
        .collect();
    let p = page("", "/Resources << /XObject << /N 4 0 R >> >>", &rest);
    let mut depth = 0;
    let mut parts = &p.parts;
    while let Some(part) = parts.first() {
        depth += 1;
        parts = &part.parts;
    }
    assert_eq!(depth, 12);
}

#[test]
fn patterns_fonts_and_masks_are_parts() {
    let p = page(
        "",
        "/Resources << /Pattern << /P1 4 0 R /P2 5 0 R >> /Font << /F1 6 0 R >> \
         /ExtGState << /G1 << /SMask << /S /Luminosity /G 8 0 R >> >> /G2 << /SMask /None >> >> >>",
        &[
            stream("/PatternType 1 /BBox [0 0 1 1] /XStep 2 /YStep 2.5 /PaintType 2", "cell"),
            stream("/PatternType 1 /BBox [0 0 1 1] /XStep 0 /YStep 2", "no step"),
            "<< /Subtype /Type3 /Encoding << /Differences [65 /a /b 66 /c] >> \
             /CharProcs << /a 7 0 R /b 7 0 R /c 7 0 R /d 7 0 R >> >>"
                .to_string(),
            stream("", "10 0 0 0 1 1 d1 f"),
            stream("/Subtype /Form", "mask"),
        ],
    );
    assert_eq!(names(&p.parts), ["P1", "F1", "G1"]);
    match &p.parts[0].kind {
        PartKind::Tiling { xstep, ystep, paint_type } => {
            assert_eq!(*xstep, Number::Integer(2));
            assert_eq!(*ystep, Number::Real(Real::new(b"2.5")));
            assert_eq!(*paint_type, 2);
        }
        other => panic!("{other:?}"),
    }
    // Code 66 was given to `b` and then to `c`, and `d` has no code.
    let font = &p.parts[1];
    assert_eq!(names(&font.parts), ["a", "c"]);
    assert!(matches!(font.parts[0].kind, PartKind::Glyph { shape_only: true }));
    assert_eq!(font.matrix[0], Number::Real(Real::new(b"0.001")));
    assert!(matches!(p.parts[2].kind, PartKind::SoftMask { luminosity: true }));
}

#[test]
fn shape_only_glyphs_begin_with_d1() {
    assert!(charproc_is_shape_only(b" 750 0 -1.5 0 7.5E2 750 d1 0 0 m"));
    assert!(!charproc_is_shape_only(b"750 0 d0 1 0 0 rg"));
    assert!(!charproc_is_shape_only(b"0 0 m"));
    assert!(!charproc_is_shape_only(b"12 13"));
}

#[test]
fn annotations_show_their_normal_appearance() {
    let p = page(
        "",
        "/Annots [4 0 R 5 0 R 6 0 R 7 0 R 8 0 R 99]",
        &[
            "<< /Rect [9 9 0 0] /AP << /N 9 0 R >> >>".to_string(),
            "<< /Rect [0 0 9 9] /AP << /N << /On 9 0 R /Off 10 0 R >> >> /AS /Off >>".to_string(),
            "<< /Rect [0 0 9 9] /F 2 /AP << /N 9 0 R >> >>".to_string(),
            "<< /Rect [0 0 9 9] /F 32 /AP << /N 9 0 R >> >>".to_string(),
            "<< /Rect [0 0 9 9] /Subtype /Popup /AP << /N 9 0 R >> >>".to_string(),
            stream("/BBox [0 0 1 1]", "on"),
            stream("/BBox [0 0 1 1]", "off"),
        ],
    );
    let shown: Vec<&[u8]> = p.appearances.iter().map(|a| a.form.content.as_slice()).collect();
    assert_eq!(shown, [b"on".as_slice(), b"off".as_slice()]);
    assert_eq!(p.appearances[0].rect, whole(&[9, 9, 0, 0]));
}

#[test]
fn hidden_layers_hide_their_annotations() {
    let (bytes, table) = one_page(
        "/OCProperties << /OCGs [4 0 R 5 0 R] /D << /OFF [5 0 R] >> >>",
        "",
        "/Annots [<< /Rect [0 0 1 1] /OC 4 0 R /AP << /N 6 0 R >> >> \
                  << /Rect [0 0 2 2] /OC 5 0 R /AP << /N 6 0 R >> >> \
                  << /Rect [0 0 3 3] /OC << /Type /OCMD /VE [/Not 5 0 R] >> /AP << /N 6 0 R >> >> \
                  << /Rect [0 0 4 4] /OC << /OCGs [4 0 R 5 0 R] /P /AllOn >> /AP << /N 6 0 R >> >>]",
        &[
            "<< /Type /OCG /Name (Shown) >>".to_string(),
            "<< /Type /OCG /Name (Hidden) >>".to_string(),
            stream("/BBox [0 0 1 1]", "x"),
        ],
    );
    let mut reader = DocumentReader::open(&bytes, table, None).unwrap();
    let doc = read_document(&mut reader).unwrap();
    assert_eq!(doc.pages.len(), 1);
    let shown: Vec<Number> =
        doc.pages[0].appearances.iter().map(|a| a.rect[2].clone()).collect();
    assert_eq!(shown, whole(&[1, 3]));
}

#[test]
fn optional_content_is_read() {
    let (bytes, table) = one_page(
        "/OCProperties << /OCGs [4 0 R 5 0 R 3 0 R 77 0 R 9] \
         /D << /Name (Main) /BaseState /OFF /ON [4 0 R] /Order [4 0 R [(Sub) 5 0 R]] \
               /RBGroups [[4 0 R 5 0 R] []] /ListMode /VisiblePages >> \
         /Configs [<< /OFF [4 0 R] >> 12] >>",
        "",
        "",
        &[
            "<< /Type /OCG /Name (One) /Intent [/View /Design] /Usage << /Zoom << /min 1.5 >> \
               /Print << /PrintState /ON >> >> >>"
                .to_string(),
            "<< /Name (Two) /Intent /View >>".to_string(),
        ],
    );
    let mut reader = DocumentReader::open(&bytes, table, None).unwrap();
    let oc = optional_content(&mut reader).unwrap().expect("optional content");
    let listed: Vec<(u32, &str)> =
        oc.groups.iter().map(|g| (g.id.number, g.name.as_str())).collect();
    assert_eq!(listed, [(4, "One"), (5, "Two")]);
    assert_eq!(oc.groups[0].intents, ["View", "Design"]);
    let usage = oc.groups[0].usage.as_ref().unwrap();
    assert_eq!(usage.zoom_min, Some(Number::Real(Real::new(b"1.5"))));
    assert_eq!(usage.print_state, Some(true));
    assert!(oc.is_visible(ObjectId::new(4)));
    assert!(!oc.is_visible(ObjectId::new(5)));
    assert!(!oc.is_visible(ObjectId::new(6)));
    assert_eq!(oc.default_config.name.as_deref(), Some("Main"));
    assert_eq!(oc.default_config.intents, ["View"]);
    assert_eq!(oc.default_config.rb_groups.len(), 1);
    match &oc.default_config.order[1] {
        OcOrderItem::Subtree { label, items } => {
            assert_eq!(label.as_deref(), Some("Sub"));
            assert_eq!(items.len(), 1);
        }
        other => panic!("{other:?}"),
    }
    assert_eq!(oc.alternate_configs.len(), 1);
    let other = oc.states_for_config(&oc.alternate_configs[0]);
    assert_eq!(other.get(&ObjectId::new(4)), Some(false));
    assert_eq!(other.get(&ObjectId::new(5)), Some(true));
}

#[test]
fn memberships_without_content_are_none() {
    let (bytes, table) = one_page("", "", "", &[]);
    let mut reader = DocumentReader::open(&bytes, table, None).unwrap();
    let wrong = Dict::new().with("Type", Object::Name("OCG".into()));
    assert!(parse_membership(&mut reader, &wrong).unwrap().is_none());
    let empty = Dict::new().with("Type", Object::Name("OCMD".into()));
    assert!(parse_membership(&mut reader, &empty).unwrap().is_none());
    // One group may stand without an array.
    let good = empty.with("OCGs", Object::Reference(ObjectId::new(3)));
    let m = parse_membership(&mut reader, &good).unwrap().unwrap();
    assert_eq!(m.groups, [ObjectId::new(3)]);
    let missing = Dict::new().with("OCGs", Object::Reference(ObjectId::new(9)));
    assert!(parse_membership(&mut reader, &missing).is_err());
    assert!(optional_content(&mut reader).unwrap().is_none());
}

#[test]
fn colour_spaces_are_made_self_contained() {
    let (bytes, table) = one_page(
        "",
        "",
        "",
        &[
            stream("/N 3 /Alternate 5 0 R", "profile"),
            "/DeviceRGB".to_string(),
            stream("/Filter /ASCIIHexDecode", "FF0000>"),
            stream("/FunctionType 4", "{ dup }"),
            "[/Indexed 9 0 R 0 <00>]".to_string(),
            "[/Indexed 8 0 R 0 <00>]".to_string(),
        ],
    );
    let mut reader = DocumentReader::open(&bytes, table, None).unwrap();
    let reference = |n: u32| Object::Reference(ObjectId::new(n));
    let name = |n: &str| Object::Name(n.into());
    let icc = Object::Array(vec![name("ICCBased"), reference(4)]);
    match prepare_color_space_object(&mut reader, icc).unwrap() {
        Object::Array(items) => {
            assert_eq!(items[0], name("ICCBased"));
            match &items[1] {
                Object::Dict(d) => {
                    assert_eq!(d.get("N"), Some(&Object::Integer(3)));
                    assert_eq!(d.get("Alternate"), Some(&name("DeviceRGB")));
                }
                other => panic!("{other:?}"),
            }
        }
        other => panic!("{other:?}"),
    }
    let indexed = Object::Array(vec![
        name("Indexed"),
        reference(5),
        Object::Integer(0),
        reference(6),
    ]);
    assert_eq!(
        prepare_color_space_object(&mut reader, indexed).unwrap(),
        Object::Array(vec![
            name("Indexed"),
            name("DeviceRGB"),
            Object::Integer(0),
            Object::HexString(vec![0xFF, 0, 0]),
        ])
    );
    let separation = Object::Array(vec![name("Separation"), name("Spot"), reference(5)]);
    assert_eq!(
        prepare_color_space_object(&mut reader, separation).unwrap(),
        Object::Array(vec![name("Separation"), name("Spot"), name("DeviceRGB"), Object::Null])
    );
    let device_n = Object::Array(vec![
        name("DeviceN"),
        Object::Array(vec![reference(5), name("B")]),
        name("DeviceCMYK"),
        reference(7),
        Object::Dict(Dict::new()),
    ]);
    match prepare_color_space_object(&mut reader, device_n).unwrap() {
        Object::Array(items) => {
            assert_eq!(items.len(), 4);
            assert_eq!(items[1], Object::Array(vec![name("DeviceRGB"), name("B")]));
            match &items[3] {
                Object::Dict(d) => {
                    assert_eq!(d.get("__Program"), Some(&Object::HexString(b"{ dup }".to_vec())));
                }
                other => panic!("{other:?}"),
            }
        }
        other => panic!("{other:?}"),
    }
    let circle = prepare_color_space_object(&mut reader, reference(8)).unwrap_err();
    assert!(circle.to_string().contains("cycle"));
    let lab = Object::Array(vec![name("Lab"), reference(5)]);
    assert_eq!(prepare_color_space_object(&mut reader, lab.clone()).unwrap(), lab);
    let one = Object::Array(vec![name("Indexed")]);
    assert_eq!(prepare_color_space_object(&mut reader, one.clone()).unwrap(), one);
}

#[test]
fn functions_carry_their_data() {
    let (bytes, table) = one_page(
        "",
        "",
        "",
        &[
            stream("/FunctionType 0 /Size [2]", "ab"),
            "<< /FunctionType 3 /Functions [4 0 R << /FunctionType 2 >>] >>".to_string(),
        ],
    );
    let mut reader = DocumentReader::open(&bytes, table, None).unwrap();
    let joined =
        prepare_function_object(&mut reader, Object::Reference(ObjectId::new(5))).unwrap();
    let parts = match joined {
        Object::Dict(d) => match d.get("Functions") {
            Some(Object::Array(items)) => items.clone(),
            other => panic!("{other:?}"),
        },
        other => panic!("{other:?}"),
    };
    match &parts[0] {
        Object::Dict(d) => {
            assert_eq!(d.get("__Samples"), Some(&Object::HexString(b"ab".to_vec())));
        }
        other => panic!("{other:?}"),
    }
    assert_eq!(prepare_function_object(&mut reader, Object::Null).unwrap(), Object::Null);
}

#[test]
fn fonts_carry_their_widths() {
    let (bytes, table) = one_page(
        "",
        "",
        "",
        &[
            "<< /Widths 5 0 R /FontDescriptor 6 0 R /DescendantFonts [7 0 R] >>".to_string(),
            "[500 600]".to_string(),
            "<< /MissingWidth 250 >>".to_string(),
            "<< /W 5 0 R >>".to_string(),
        ],
    );
    let mut reader = DocumentReader::open(&bytes, table, None).unwrap();
    let fonts = Dict::new().with("F1", Object::Reference(ObjectId::new(4)));
    let resources = Dict::new().with("Font", Object::Dict(fonts));
    let all = resolve_font_resources(&mut reader, &resources).unwrap().unwrap();
    let widths = Object::Array(vec![Object::Integer(500), Object::Integer(600)]);
    match all.get("F1") {
        Some(Object::Dict(f)) => {
            assert_eq!(f.get("Widths"), Some(&widths));
            assert!(matches!(f.get("FontDescriptor"), Some(Object::Dict(_))));
            match f.get("DescendantFonts") {
                Some(Object::Dict(d)) => assert_eq!(d.get("W"), Some(&widths)),
                other => panic!("{other:?}"),
            }
        }
        other => panic!("{other:?}"),
    }
    assert!(resolve_color_space_resources(&mut reader, &resources).unwrap().is_none());
    assert!(resolve_category(&mut reader, ResourceKind::Shading, &resources).unwrap().is_none());
}

#[test]
fn jpeg_images_are_found_once() {
    let jpeg = stream(
        "/Subtype /Image /Width 4 /Height 2 /ColorSpace 5 0 R /Filter [/ASCIIHexDecode /DCTDecode] \
         /SMask 6 0 R",
        "FFD8FF>",
    );
    let (bytes, table) = one_page(
        "",
        "",
        "/Resources << /XObject << /A 4 0 R /B 4 0 R /C 7 0 R >> >>",
        &[
            jpeg,
            "/DeviceGray".to_string(),
            stream("/Subtype /Image /Width 1 /Height 1 /BitsPerComponent 8 /Matte [0 0.5]", "m"),
            stream("/Subtype /Image /Width 1 /Height 1 /Filter /FlateDecode", "x"),
        ],
    );
    let mut reader = DocumentReader::open(&bytes, table, None).unwrap();
    let all = reader.image_xobjects().unwrap();
    assert_eq!(all.len(), 1);
    let (id, image) = &all[0];
    assert_eq!(*id, ObjectId::new(4));
    assert_eq!(image.data, [0xFF, 0xD8, 0xFF]);
    assert_eq!((image.width, image.height, image.bits_per_component), (4, 2, 8));
    assert_eq!(image.color_space, ColorSpace::DeviceGray);
    let mask = image.smask.as_ref().unwrap();
    assert_eq!(mask.data.as_deref(), Some(b"m".as_slice()));
    assert_eq!(
        mask.matte,
        Some(vec![Number::Integer(0), Number::Real(Real::new(b"0.5"))])
    );
}

#[test]
fn jpeg_images_need_a_size_that_can_be() {
    let failure = |entries: &str| {
        let (bytes, table) = one_page(
            "",
            "",
            "/Resources << /XObject << /A 4 0 R >> >>",
            &[stream(&format!("/Subtype /Image /Filter /DCTDecode {entries}"), "x")],
        );
        let mut reader = DocumentReader::open(&bytes, table, None).unwrap();
        reader.image_xobjects().unwrap_err().to_string()
    };
    assert!(failure("/Height 1").contains("missing /Width"));
    assert!(failure("/Width 1").contains("missing /Height"));
    assert!(failure("/Width -1 /Height 1").contains("negative /Width or /Height (-1, 1)"));
    assert!(failure("/Width 1 /Height 1 /BitsPerComponent 17").contains("BitsPerComponent 17"));
}

#[test]
fn inline_images_know_their_page() {
    let (bytes, table) = one_page(
        "",
        "",
        "/Contents 4 0 R",
        &[stream("", "q BI /W 1 /H 1 /CS /G ID A EI Q")],
    );
    let mut reader = DocumentReader::open(&bytes, table, None).unwrap();
    let all = reader.inline_images().unwrap();
    assert_eq!(all.len(), 1);
    assert_eq!(all[0].data, b"A");
    assert_eq!(all[0].source_page_index, 1);
    assert_eq!(all[0].source_page_obj, ObjectId::new(3));
}

#[test]
fn inline_image_dictionaries_hold_all_kinds_of_values() {
    let images = extract_inline_images_from_stream(
        b"BI /W 2.9 /H +1 /D [0 1] /DP << /K (a\\)b) >> /X <41> /Y (s(t)) /IM false \
          /F [/AHx /JPX] /BPC 4 /CS /Lab ID FF> EI",
    )
    .unwrap();
    assert_eq!(images.len(), 1);
    assert_eq!((images[0].width, images[0].height), (2, 1));
    assert_eq!(images[0].filter, InlineImageFilter::JpxDecode);
    assert_eq!(images[0].bits_per_component, 8);
    assert_eq!(images[0].color_space, ColorSpace::Other("Lab".into()));
    assert_eq!(images[0].data, [0xFF]);
}

#[test]
fn broken_inline_images_are_errors() {
    let failure = |s: &[u8]| extract_inline_images_from_stream(s).unwrap_err().to_string();
    assert!(failure(b"BI /W 1 IDx").contains("must be followed by exactly one whitespace"));
    assert!(failure(b"BI /W 1").contains("stream ended before `ID`"));
    assert!(failure(b"BI W 1 ID x EI").contains("expected `/Key` in BI dict at byte 3 (got 0x57)"));
    assert!(failure(b"BI /W").contains("stream ended after key `W`"));
    assert!(failure(b"BI /W [/A").contains("unterminated `[`"));
    assert!(failure(b"BI /W [)]").contains("unexpected byte 0x29"));
    assert!(failure(b"BI /W << /A").contains("unterminated `<<`"));
    assert!(failure(b"BI /W +x").contains("malformed number at byte 6"));
    assert!(failure(b"BI /W 99999999999999999999 ID").contains("bad integer"));
    assert!(failure(b"BI /W *").contains("starting with 0x2a at byte 6"));
    assert!(failure(b"BI /W 1 ID x EI").contains("missing /H"));
    assert!(failure(b"BI /W 1 /H 1 /F /Odd ID x EI").contains("unsupported wrapping filter `Odd`"));
}

#[test]
fn what_cannot_be_found_is_left_out() {
    let form = stream("/Subtype /Form /BBox [0 0 1 1]", "q");
    let p = page(
        "",
        "/Resources << /XObject << /Gone 99 0 R /Fm 4 0 R >> >>",
        &[form],
    );
    assert_eq!(names(&p.parts), ["Fm"]);

    let p = page(
        "",
        "/Resources << /ExtGState << /Gs << /SMask << /S /Alpha /G 99 0 R >> >> >> >>",
        &[],
    );
    assert!(p.parts.is_empty());

    let broken = stream("/Subtype /Form /BBox [0 0 1 1] /Resources 99 0 R", "q");
    let whole_form = stream("/Subtype /Form /BBox [0 0 1 1]", "Q");
    let p = page(
        "",
        "/Annots [<< /Rect [0 0 1 1] /AP << /N 4 0 R >> >> << /Rect [0 0 2 2] /AP << /N 5 0 R >> >>]",
        &[broken, whole_form],
    );
    assert_eq!(p.appearances.len(), 1);
    assert_eq!(p.appearances[0].rect, whole(&[0, 0, 2, 2]));
    assert_eq!(p.appearances[0].form.content, b"Q");

    let (bytes, table) = one_page("/OCProperties 99 0 R", "", "", &[]);
    let mut reader = DocumentReader::open(&bytes, table, None).unwrap();
    assert!(optional_content(&mut reader).unwrap().is_none());

    let (bytes, table) = one_page(
        "",
        "",
        "/Resources << /XObject << /Im 4 0 R >> >>",
        &[stream("/Subtype /Image /Filter /DCTDecode /Width 1 /Height 1 /SMask 99 0 R", "jpeg")],
    );
    let mut reader = DocumentReader::open(&bytes, table, None).unwrap();
    let images = reader.image_xobjects().unwrap();
    assert_eq!(images.len(), 1);
    assert!(images[0].1.smask.is_none());
}

#[test]
fn inline_images_are_those_of_each_content() {
    let first = "BI /W 1 /H 1 /CS /G ID A EI BI /W 2 /H 1 /CS /G ID BC EI";
    let second = "BI /W 1 /H 1 /CS /G ID D EI";
    let (bytes, table) = file(&[
        "<< /Type /Catalog /Pages 2 0 R >>".to_string(),
        "<< /Type /Pages /Count 3 /Kids [3 0 R 4 0 R 5 0 R] >>".to_string(),
        "<< /Type /Page /Parent 2 0 R /Contents 6 0 R >>".to_string(),
        "<< /Type /Page /Parent 2 0 R >>".to_string(),
        "<< /Type /Page /Parent 2 0 R /Contents 7 0 R >>".to_string(),
        stream("", first),
        stream("", second),
    ]);
    let mut reader = DocumentReader::open(&bytes, table, None).unwrap();
    let mut wanted = extract_inline_images_from_stream(first.as_bytes()).unwrap();
    for image in &mut wanted {
        image.source_page_index = 1;
        image.source_page_obj = ObjectId::new(3);
    }
    for mut image in extract_inline_images_from_stream(second.as_bytes()).unwrap() {
        image.source_page_index = 3;
        image.source_page_obj = ObjectId::new(5);
        wanted.push(image);
    }
    assert_eq!(reader.inline_images().unwrap(), wanted);
}

#[test]
fn a_pattern_without_an_extent_is_dropped_unread() {
    let huge = "9".repeat(40);
    let tiny = format!("0.{}1", "0".repeat(50));
    for entries in [
        format!("/BBox [0 0 1 {huge}.5] /XStep 1 /YStep 1"),
        format!("/BBox [0 0 1 1] /XStep {tiny} /YStep 1"),
        format!("/BBox [0 0 1 1] /XStep 1 /YStep {huge}.0"),
    ] {
        let cell = stream(&format!("/PatternType 1 {entries} /Resources 99 0 R"), "cell");
        let p = page("", "/Resources << /Pattern << /P 4 0 R >> >>", &[cell]);
        assert!(p.parts.is_empty());
    }
}

#[test]
fn only_dictionaries_are_groups_of_an_expression() {
    let (bytes, table) = one_page(
        "",
        "",
        "",
        &[
            "<< /Type /OCG /Name (a) >>".to_string(),
            "7".to_string(),
            "[/Not 4 0 R]".to_string(),
        ],
    );
    let mut reader = DocumentReader::open(&bytes, table, None).unwrap();
    let expression = Object::Array(vec![
        Object::Name("And".into()),
        Object::Reference(ObjectId::new(5)),
        Object::Reference(ObjectId::new(4)),
        Object::Reference(ObjectId::new(6)),
        Object::Integer(1),
    ]);
    let d = Dict::new().with("VE", expression);
    let m = parse_membership(&mut reader, &d).unwrap().unwrap();
    assert_eq!(
        format!("{:?}", m.visibility_expression.unwrap()),
        format!(
            "{:?}",
            OcVisibilityExpression::And(vec![
                OcVisibilityExpression::Group(ObjectId::new(4)),
                OcVisibilityExpression::Not(Box::new(OcVisibilityExpression::Group(
                    ObjectId::new(4)
                ))),
            ])
        )
    );
}
