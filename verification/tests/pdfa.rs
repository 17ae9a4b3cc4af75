use oxideav_pdf::pdfa::{PdfACatalogSignals, PdfAConformance, XmpPacket};

#[test]
fn unclaimed_doc_yields_undeclared_conformance() {
    let sig = PdfACatalogSignals::default();
    let conformance = PdfAConformance::from_signals_and_xmp(&sig, None);
    assert!(!conformance.is_declared());
    assert!(conformance.structurally_sound);
    assert!(!conformance.claim_inconsistent);
    assert!(conformance.inconsistencies.is_empty());
    assert!(conformance.designator().is_none());
}

#[test]
fn claim_without_outputintents_flags_inconsistency() {
    let sig = PdfACatalogSignals {
        has_xmp_metadata: true,
        output_intent_count: 0,
        ..Default::default()
    };
    let xmp = XmpPacket {
        pdfaid_part: Some(2),
        pdfaid_conformance: Some("B".into()),
        ..XmpPacket::default()
    };
    let c = PdfAConformance::from_signals_and_xmp(&sig, Some(&xmp));
    assert!(c.is_declared());
    assert!(c.claim_inconsistent);
    assert!(!c.structurally_sound);
    assert!(c
        .inconsistencies
        .iter()
        .any(|m| m.contains("OutputIntents")));
}

#[test]
fn a_level_without_marked_flags_accessibility_gap() {
    let sig = PdfACatalogSignals {
        has_xmp_metadata: true,
        output_intent_count: 1,
        mark_info_marked: false,
        has_struct_tree_root: false,
        ..Default::default()
    };
    let xmp = XmpPacket {
        pdfaid_part: Some(2),
        pdfaid_conformance: Some("A".into()),
        ..XmpPacket::default()
    };
    let c = PdfAConformance::from_signals_and_xmp(&sig, Some(&xmp));
    assert!(c.claim_inconsistent);
    assert!(c
        .inconsistencies
        .iter()
        .any(|m| m.contains("Marked is not true")));
    assert!(c
        .inconsistencies
        .iter()
        .any(|m| m.contains("StructTreeRoot is absent")));
}

#[test]
fn a_level_with_full_structure_is_sound() {
    let sig = PdfACatalogSignals {
        has_xmp_metadata: true,
        output_intent_count: 1,
        mark_info_marked: true,
        has_struct_tree_root: true,
        catalog_lang: Some("en".into()),
        ..Default::default()
    };
    let xmp = XmpPacket {
        pdfaid_part: Some(3),
        pdfaid_conformance: Some("A".into()),
        ..XmpPacket::default()
    };
    let c = PdfAConformance::from_signals_and_xmp(&sig, Some(&xmp));
    assert!(c.is_declared());
    assert!(c.structurally_sound);
    assert!(!c.claim_inconsistent);
    assert!(c.inconsistencies.is_empty());
    assert_eq!(c.designator().as_deref(), Some("3A"));
}

#[test]
fn b_level_no_structural_requirements_beyond_oi() {
    let sig = PdfACatalogSignals {
        has_xmp_metadata: true,
        output_intent_count: 1,
        mark_info_marked: false,
        has_struct_tree_root: false,
        ..Default::default()
    };
    let xmp = XmpPacket {
        pdfaid_part: Some(2),
        pdfaid_conformance: Some("B".into()),
        ..XmpPacket::default()
    };
    let c = PdfAConformance::from_signals_and_xmp(&sig, Some(&xmp));
    assert!(c.is_declared());
    // B-level needs no tagged-PDF — sound despite missing marked/struct.
    assert!(c.structurally_sound);
    assert!(!c.claim_inconsistent);
}

#[test]
fn case_insensitive_conformance_match() {
    let sig = PdfACatalogSignals {
        has_xmp_metadata: true,
        output_intent_count: 1,
        mark_info_marked: false,
        has_struct_tree_root: false,
        ..Default::default()
    };
    let xmp = XmpPacket {
        pdfaid_part: Some(1),
        // Some authoring tools emit lowercase.
        pdfaid_conformance: Some("a".into()),
        ..XmpPacket::default()
    };
    let c = PdfAConformance::from_signals_and_xmp(&sig, Some(&xmp));
    assert!(c.claim_inconsistent);
}
