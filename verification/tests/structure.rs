use oxideav_pdf::document::DocumentReader;
use oxideav_pdf::hierarchy::{verify_hierarchy, HierarchyReport, IssueSeverity};
use oxideav_pdf::layout::{LayoutMode, MarkedTextRun, TextRenderMode, TextRun};
use oxideav_pdf::named_dest::{named_destinations, resolve_named_destination};
use oxideav_pdf::destination::OutlineDestination;
use oxideav_pdf::link::{links, PdfLinkTarget};
use oxideav_pdf::nametree::{name_tree_entries, name_tree_lookup};
use oxideav_pdf::number::Number;
use oxideav_pdf::objects::{Dict, Object, ObjectId};
use oxideav_pdf::outline::outline;
use oxideav_pdf::page_labels::{page_label_map, page_labels};
use oxideav_pdf::pages::{build_page_index_map, page_leaves};
use oxideav_pdf::error::PdfError;
use oxideav_pdf::xref::{XrefEntry, XrefTable};

fn file(objects: &[&str]) -> (Vec<u8>, XrefTable) {
    let mut out: Vec<u8> = b"%PDF-1.7\n".to_vec();
    let mut table = XrefTable::new(
        Dict::new().with("Root", Object::Reference(ObjectId::new(1))),
    );
    for (i, body) in objects.iter().enumerate() {
        let number = i as u32 + 1;
        table.entries.insert(
            number,
            XrefEntry::InUse { offset: out.len() as u64, generation: 0 },
        );
        out.extend_from_slice(format!("{number} 0 obj\n{body}\nendobj\n").as_bytes());
    }
    (out, table)
}

const TWO_PAGES: [&str; 4] = [
    "<< /Type /Catalog /Pages 2 0 R >>",
    "<< /Type /Pages /Count 2 /Kids [3 0 R 4 0 R] >>",
    "<< /Type /Page /Parent 2 0 R /MediaBox [0 0 10 10] >>",
    "<< /Type /Page /Parent 2 0 R /MediaBox [0 0 10 10] >>",
];

fn two_pages_with(catalog: &str, more: &[&'static str]) -> (Vec<u8>, XrefTable) {
    let head = format!("<< /Type /Catalog /Pages 2 0 R {catalog} >>");
    let mut objects: Vec<&str> = vec![&head];
    objects.extend_from_slice(&TWO_PAGES[1..]);
    objects.extend_from_slice(more);
    file(&objects)
}

fn report(objects: &[&str]) -> HierarchyReport {
    let (bytes, table) = file(objects);
    let mut reader = DocumentReader::open(&bytes, table, None).unwrap();
    verify_hierarchy(&mut reader).unwrap()
}

#[test]
fn a_sound_hierarchy_has_no_issues() {
    let r = report(&TWO_PAGES);
    assert!(r.is_valid());
    assert_eq!(r.issues.len(), 0);
    assert_eq!(r.page_count, 2);
    assert_eq!(r.max_depth, 1);
}

#[test]
fn a_cycle_of_kids_is_an_error() {
    let r = report(&[
        "<< /Type /Catalog /Pages 2 0 R >>",
        "<< /Type /Pages /Count 1 /Kids [3 0 R 2 0 R] >>",
        "<< /Type /Page /Parent 2 0 R /MediaBox [0 0 10 10] >>",
    ]);
    assert!(!r.is_valid());
    assert_eq!(r.page_count, 1);
    assert_eq!(r.errors().len(), 1);
    assert!(r.errors()[0].message.contains("visited twice"));
    assert_eq!(r.errors()[0].object_id, Some(ObjectId::new(2)));
}

#[test]
fn divergences_are_warnings() {
    let r = report(&[
        "<< /Type /Catalog /Pages 2 0 R >>",
        "<< /Count 7 /Kids [3 0 R] >>",
        "<< /Type /Page >>",
    ]);
    assert!(r.is_valid());
    let messages: Vec<&str> = r.warnings().iter().map(|i| i.message.as_str()).collect();
    assert_eq!(messages.len(), 4);
    assert!(messages[0].contains("missing /Type"));
    assert!(messages[1].contains("missing /Parent"));
    assert!(messages[2].contains("no directly-attached /MediaBox"));
    assert!(messages[3].contains("/Count = 7 but DFS found 1 leaves"));
    assert!(r.issues.iter().all(|i| i.severity == IssueSeverity::Warning));
}

#[test]
fn each_kind_of_broken_hierarchy() {
    let first = |objects: &[&str]| report(objects).errors()[0].message.clone();
    assert!(first(&["[]"]).contains("must be a dictionary"));
    assert!(first(&["<< /Pages 2 0 R >>", "<< >>"]).contains("Catalog missing /Type"));
    assert!(first(&["<< /Type /Catalog >>"]).contains("missing required /Pages"));
    assert!(first(&["<< /Type /Catalog /Pages 3 >>"]).contains("must be an indirect reference"));
    assert!(first(&["<< /Type /Other /Pages 2 0 R >>", "<< >>"]).contains("must be /Catalog"));
    assert!(first(&["<< /Type /Catalog /Pages 2 0 R >>", "[1]"]).contains("is not a dictionary"));
    assert!(first(&["<< /Type /Catalog /Pages 2 0 R >>", "<< >>"]).contains("missing required /Kids"));
    assert!(first(&["<< /Type /Catalog /Pages 2 0 R >>", "<< /Kids 1 >>"]).contains("/Kids must be an array"));
    assert!(first(&["<< /Type /Catalog /Pages 2 0 R >>", "<< /Kids [1] >>"]).contains("/Kids entry must be"));
    assert!(first(&["<< /Type /Catalog /Pages 2 0 R >>", "<< /Type /Font >>"]).contains("unrecognised /Type /Font"));
    assert!(first(&["<< /Type /Catalog /Pages 2 0 R >>", "<< /Type /Page >>"]).contains("must be a /Pages node"));
    assert!(first(&["<< /Type /Catalog /Pages 2 0 R >>", "<< /Kids [] /Count 0 >>"]).contains("no Page leaves"));
}

#[test]
fn errors_of_the_whole_document_name_no_object() {
    let r = report(&["<< /Type /Catalog >>"]);
    assert_eq!(r.issues.len(), 1);
    assert_eq!(r.issues[0].object_id, None);

    let mut reader = DocumentReader::open(b"", XrefTable::new(Dict::new()), None).unwrap();
    let r = reader.verify_hierarchy().unwrap();
    assert!(!r.is_valid());
    assert_eq!(r.issues.len(), 1);
    assert_eq!(r.issues[0].object_id, None);
    assert!(r.issues[0].message.contains("/Root"));
}

#[test]
fn pages_are_listed_in_order() {
    let (bytes, table) = file(&TWO_PAGES);
    let mut reader = DocumentReader::open(&bytes, table, None).unwrap();
    assert_eq!(page_leaves(&mut reader).unwrap(), [ObjectId::new(3), ObjectId::new(4)]);
    let map = build_page_index_map(&mut reader).unwrap();
    assert_eq!(map.get(&3), Some(&0));
    assert_eq!(map.get(&4), Some(&1));
}

#[test]
fn a_page_tree_that_holds_itself_is_refused() {
    let (bytes, table) = file(&[
        "<< /Pages 2 0 R >>",
        "<< /Type /Pages /Kids [2 0 R] >>",
    ]);
    let mut reader = DocumentReader::open(&bytes, table, None).unwrap();
    assert!(page_leaves(&mut reader).unwrap_err().to_string().contains("cycle"));
}

#[test]
fn names_lead_to_places() {
    let (bytes, table) = two_pages_with(
        "/Dests << /old [3 0 R /Fit] /both [3 0 R /Fit] >> /Names << /Dests 5 0 R >>",
        &["<< /Names [(both) [4 0 R /FitB] (new) << /D [4 0 R /Fit] >>] >>"],
    );
    let mut reader = DocumentReader::open(&bytes, table, None).unwrap();
    let all = named_destinations(&mut reader).unwrap();
    let names: Vec<&str> = all.iter().map(|d| d.name.as_str()).collect();
    assert_eq!(names, ["both", "new", "old"]);
    assert_eq!(all[0].destination, Some(OutlineDestination::FitB { page_index: 1 }));
    assert_eq!(
        resolve_named_destination(&mut reader, b"new").unwrap(),
        Some(OutlineDestination::Fit { page_index: 1 })
    );
    assert_eq!(resolve_named_destination(&mut reader, b"none").unwrap(), None);
}

#[test]
fn name_trees_are_walked_and_searched() {
    let (bytes, table) = file(&[
        "<< /Kids [2 0 R 3 0 R] >>",
        "<< /Limits [(a) (b)] /Names [(a) 1 (b) 2] >>",
        "<< /Limits [(c) (c)] /Names [(c) 3] >>",
    ]);
    let mut reader = DocumentReader::open(&bytes, table, None).unwrap();
    let root = match reader.resolve(ObjectId::new(1)).unwrap() {
        Object::Dict(d) => d,
        other => panic!("{other:?}"),
    };
    let entries = name_tree_entries(&mut reader, &root).unwrap();
    assert_eq!(
        entries,
        [
            (b"a".to_vec(), Object::Integer(1)),
            (b"b".to_vec(), Object::Integer(2)),
            (b"c".to_vec(), Object::Integer(3)),
        ]
    );
    assert_eq!(name_tree_lookup(&mut reader, &root, b"c").unwrap(), Some(Object::Integer(3)));
    assert_eq!(name_tree_lookup(&mut reader, &root, b"d").unwrap(), None);
}

#[test]
fn bookmarks_are_read_level_by_level() {
    let (bytes, table) = two_pages_with(
        "/Outlines 5 0 R",
        &[
            "<< /First 6 0 R >>",
            "<< /Title (One) /Dest [3 0 R /Fit] /First 7 0 R /Next 8 0 R /Count 1 >>",
            "<< /Title <FEFF0041> /A << /S /URI /URI (http://example.com) >> >>",
            "<< /Title (Two) /Dest [4 0 R /Fit] >>",
        ],
    );
    let mut reader = DocumentReader::open(&bytes, table, None).unwrap();
    let o = outline(&mut reader).unwrap().expect("an outline");
    let top: Vec<&str> = o.roots.iter().map(|n| n.title.as_str()).collect();
    assert_eq!(top, ["One", "Two"]);
    assert_eq!(o.roots[0].children[0].title, "A");
    assert_eq!(o.roots[0].children[0].raw_dest.as_deref(), Some("uri:http://example.com"));
    assert_eq!(o.roots[1].destination, Some(OutlineDestination::Fit { page_index: 1 }));
}

#[test]
fn links_lead_to_places_and_addresses() {
    let (bytes, table) = file(&[
        "<< /Type /Catalog /Pages 2 0 R >>",
        "<< /Type /Pages /Count 1 /Kids [3 0 R] >>",
        "<< /Type /Page /Parent 2 0 R /Annots [4 0 R 5 0 R 6 0 R] >>",
        "<< /Subtype /Link /Rect [0 0 5 5] /Dest [3 0 R /Fit] >>",
        "<< /Subtype /Link /Rect [0 0 5 5.5] /A << /S /URI /URI (http://x) >> >>",
        "<< /Subtype /Text /Rect [0 0 5 5] >>",
    ]);
    let mut reader = DocumentReader::open(&bytes, table, None).unwrap();
    let all = links(&mut reader).unwrap();
    assert_eq!(all.len(), 2);
    assert!(matches!(
        all[0].target,
        Some(PdfLinkTarget::Internal(OutlineDestination::Fit { page_index: 0 }))
    ));
    match &all[1].target {
        Some(PdfLinkTarget::Uri(u)) => assert_eq!(u, "http://x"),
        other => panic!("{other:?}"),
    }
    assert_eq!(all[1].rect[0], Number::Integer(0));
}

#[test]
fn labels_come_from_the_number_tree() {
    let (bytes, table) = two_pages_with(
        "/PageLabels << /Nums [0 << /S /r >> 1 << /S /D /P (A-) /St 8 >>] >>",
        &[],
    );
    let mut reader = DocumentReader::open(&bytes, table, None).unwrap();
    assert_eq!(
        page_labels(&mut reader).unwrap(),
        Some(vec!["i".to_string(), "A-8".to_string()])
    );
    assert!(page_label_map(&mut reader).is_ok());
    let (bytes, table) = file(&TWO_PAGES);
    let mut reader = DocumentReader::open(&bytes, table, None).unwrap();
    assert_eq!(page_labels(&mut reader).unwrap(), None);
}

fn run(text: &str) -> TextRun {
    TextRun {
        text: text.into(),
        position: (Number::Integer(0), Number::Integer(0)),
        font_name: "F0".into(),
        font_size: Number::Integer(12),
        render_mode: TextRenderMode::Fill,
        text_rise: Number::Integer(0),
    }
}

fn marked(text: &str, page: u32, mcid: Option<u32>) -> MarkedTextRun {
    MarkedTextRun { run: run(text), page_obj_num: page, mcid }
}

#[test]
fn the_structure_tree_gives_the_order() {
    let (bytes, table) = two_pages_with(
        "/StructTreeRoot 5 0 R",
        &[
            "<< /Type /StructTreeRoot /K [6 0 R 6 0 R << /S /P /Pg 3 0 R /K 0 >>] >>",
            "<< /S /P /Pg 4 0 R /K [<< /Type /MCR /MCID 1 >> << /Type /OBJR >> 0] >>",
        ],
    );
    let mut reader = DocumentReader::open(&bytes, table, None).unwrap();
    let runs = vec![
        marked("first on three", 3, Some(0)),
        marked("zero on four", 4, Some(0)),
        marked("one on four", 4, Some(1)),
        marked("still one", 4, Some(1)),
        marked("no mark", 3, None),
    ];
    let order = reader.read_in_logical_order(Ok(vec![run("raster")]), Ok(runs)).unwrap();
    assert_eq!(order.mode, LayoutMode::Tagged);
    assert_eq!(order.flat_text(), "one on four still one zero on four first on three");
}

#[test]
fn without_a_useful_tree_the_order_is_that_of_the_pages() {
    let (bytes, table) = file(&TWO_PAGES);
    let mut reader = DocumentReader::open(&bytes, table, None).unwrap();
    let order = reader
        .read_in_logical_order(Ok(vec![run("raster")]), Err(PdfError::other("not needed")))
        .unwrap();
    assert_eq!(order.mode, LayoutMode::Raster);
    assert_eq!(order.flat_text(), "raster");

    let (bytes, table) = two_pages_with("/StructTreeRoot << /K 9 >>", &[]);
    let mut reader = DocumentReader::open(&bytes, table, None).unwrap();
    let order = reader
        .read_in_logical_order(Ok(vec![run("raster")]), Ok(vec![marked("x", 3, Some(9))]))
        .unwrap();
    assert_eq!(order.mode, LayoutMode::Raster);
    assert!(reader
        .read_in_logical_order(Err(PdfError::other("needed")), Ok(vec![marked("x", 3, Some(9))]))
        .is_err());
}

#[test]
fn a_tree_that_leads_nowhere_gives_the_order_of_the_pages() {
    for tree in [
        "<< >>",
        "<< /K [] >>",
        "<< /K 77 0 R >>",
        "77 0 R",
    ] {
        let catalog = format!("/StructTreeRoot {tree}");
        let (bytes, table) = two_pages_with(&catalog, &[]);
        let mut reader = DocumentReader::open(&bytes, table, None).unwrap();
        let order = reader.read_in_logical_order(Ok(vec![run("raster")]), Ok(vec![])).unwrap();
        assert_eq!(order.mode, LayoutMode::Raster);
        assert_eq!(order.flat_text(), "raster");
    }
}

fn root_of(reader: &mut DocumentReader) -> Dict {
    match reader.resolve(ObjectId::new(1)).unwrap() {
        Object::Dict(d) => d,
        other => panic!("{other:?}"),
    }
}

#[test]
fn a_lookup_finds_what_is_listed() {
    let trees: [&[&str]; 4] = [
        // The array of a leaf is referred to.
        &["<< /Names 2 0 R >>", "[(k) 1 (k) 2]"],
        // Limits are missing, malformed, or bound the keys.
        &[
            "<< /Kids [2 0 R 3 0 R 4 0 R] >>",
            "<< /Limits [(a)] /Names [(j) 0 (k) 1] >>",
            "<< /Limits [(x) (z)] /Kids [5 0 R] >>",
            "<< /Names 6 0 R >>",
            "<< /Limits [(x) (y)] /Names [(x) 3] >>",
            "[(k) 4]",
        ],
        // A node lies below itself.
        &[
            "<< /Kids [2 0 R 3 0 R] >>",
            "<< /Limits [(a) (b)] /Kids [2 0 R 4 0 R] >>",
            "<< /Limits [(k) (k)] /Names [(k) 1] >>",
            "<< /Names [(a) 0] >>",
        ],
        // `/Names` that is no array hides the kids alike.
        &["<< /Names 7 /Kids [2 0 R] >>", "<< /Names [(k) 1] >>"],
    ];
    for tree in trees {
        let (bytes, table) = file(tree);
        let mut reader = DocumentReader::open(&bytes, table, None).unwrap();
        let root = root_of(&mut reader);
        let all = name_tree_entries(&mut reader, &root).unwrap();
        for key in [b"a".as_slice(), b"j", b"k", b"x", b"none"] {
            let listed = all.iter().find(|(k, _)| k == key).map(|(_, v)| v.clone());
            assert_eq!(name_tree_lookup(&mut reader, &root, key).unwrap(), listed);
        }
    }
}

#[test]
fn a_name_resolves_as_it_is_listed() {
    let (bytes, table) = two_pages_with(
        "/Dests << /old [3 0 R /Fit] /both [3 0 R /Fit] >> /Names << /Dests 5 0 R >>",
        &[
            "<< /Kids [6 0 R] >>",
            "<< /Limits [(both) (new)] /Names 7 0 R >>",
            "[(both) [4 0 R /FitB] (new) << /D [4 0 R /Fit] >>]",
        ],
    );
    let mut reader = DocumentReader::open(&bytes, table, None).unwrap();
    let all = named_destinations(&mut reader).unwrap();
    assert_eq!(all.len(), 3);
    for name in [b"both".as_slice(), b"new", b"old", b"none"] {
        let listed = all.iter().find(|d| d.raw_name == name).and_then(|d| d.destination.clone());
        assert_eq!(resolve_named_destination(&mut reader, name).unwrap(), listed);
    }
}
