use oxideav_pdf::encoding::{
    apply_encoding_differences, glyph_name_to_unicode, parse_encoding_differences, BaseEncoding,
    EncodingDifferences, EncodingMap, EncodingOverride,
};
use oxideav_pdf::objects::{Object, Real};

fn name(s: &str) -> Object {
    Object::Name(s.to_string())
}
fn integer(n: i64) -> Object {
    Object::Integer(n)
}

#[test]
fn parse_simple_differences_array() {
    // [24 /breve /caron /circumflex 32 /space]
    let arr = Object::Array(vec![
        integer(24),
        name("breve"),
        name("caron"),
        name("circumflex"),
        integer(32),
        name("space"),
    ]);
    let d = parse_encoding_differences(&arr).unwrap();
    assert_eq!(d.overrides.len(), 4);
    assert_eq!(d.overrides[0].code, 24);
    assert_eq!(d.overrides[0].glyph_name, "breve");
    assert_eq!(d.overrides[1].code, 25);
    assert_eq!(d.overrides[1].glyph_name, "caron");
    assert_eq!(d.overrides[2].code, 26);
    assert_eq!(d.overrides[2].glyph_name, "circumflex");
    assert_eq!(d.overrides[3].code, 32);
    assert_eq!(d.overrides[3].glyph_name, "space");
}

#[test]
fn parse_differences_skips_unknown_tokens() {
    // [24 /breve null /caron]  → null is skipped, caron lands at 25.
    let arr = Object::Array(vec![integer(24), name("breve"), Object::Null, name("caron")]);
    let d = parse_encoding_differences(&arr).unwrap();
    assert_eq!(d.overrides.len(), 2);
    assert_eq!(d.overrides[0].code, 24);
    assert_eq!(d.overrides[1].code, 25);
    assert_eq!(d.overrides[1].glyph_name, "caron");
}

#[test]
fn parse_differences_real_coerced() {
    // [24.0 /breve]
    let arr = Object::Array(vec![Object::Real(Real::new(b"24.0")), name("breve")]);
    let d = parse_encoding_differences(&arr).unwrap();
    assert_eq!(d.overrides.len(), 1);
    assert_eq!(d.overrides[0].code, 24);
}

#[test]
fn parse_differences_rejects_non_array() {
    let r = parse_encoding_differences(&Object::Null);
    assert!(r.is_err());
}

#[test]
fn agl_lookup_basic_latin() {
    assert_eq!(glyph_name_to_unicode("A").as_deref(), Some("A"));
    assert_eq!(glyph_name_to_unicode("space").as_deref(), Some(" "));
    assert_eq!(glyph_name_to_unicode("zero").as_deref(), Some("0"));
}

#[test]
fn agl_lookup_smart_quotes() {
    assert_eq!(
        glyph_name_to_unicode("quoteright").as_deref(),
        Some("\u{2019}")
    );
    assert_eq!(
        glyph_name_to_unicode("quotedblleft").as_deref(),
        Some("\u{201C}")
    );
}

#[test]
fn agl_lookup_ligature() {
    assert_eq!(glyph_name_to_unicode("fi").as_deref(), Some("fi"));
    assert_eq!(glyph_name_to_unicode("fl").as_deref(), Some("fl"));
}

#[test]
fn agl_lookup_notdef_is_empty() {
    assert_eq!(glyph_name_to_unicode(".notdef").as_deref(), Some(""));
}

#[test]
fn agl_lookup_unknown() {
    assert!(glyph_name_to_unicode("notaglyphname").is_none());
}

#[test]
fn agl_uni_bmp_single_group() {
    assert_eq!(
        glyph_name_to_unicode("uni201C").as_deref(),
        Some("\u{201C}")
    );
    assert_eq!(
        glyph_name_to_unicode("uni2019").as_deref(),
        Some("\u{2019}")
    );
    // BMP edge — U+0041 ('A'). Static table preferred when `/A` is
    // emitted, but the escape resolves through this path too.
    assert_eq!(glyph_name_to_unicode("uni0041").as_deref(), Some("A"));
}

#[test]
fn agl_uni_bmp_multi_group() {
    assert_eq!(
        glyph_name_to_unicode("uni20142019").as_deref(),
        Some("\u{2014}\u{2019}")
    );
}

#[test]
fn agl_uni_supplementary_plane() {
    // `uXXXXXXXX` form for a supplementary-plane codepoint.
    // U+1F600 GRINNING FACE — encoded as 5 hex chars.
    assert_eq!(
        glyph_name_to_unicode("u1F600").as_deref(),
        Some("\u{1F600}")
    );
    // Full 6-char form for the highest valid Unicode (U+10FFFF).
    assert_eq!(
        glyph_name_to_unicode("u10FFFF").as_deref(),
        Some("\u{10FFFF}")
    );
    assert_eq!(glyph_name_to_unicode("u00A9").as_deref(), Some("\u{00A9}"));
}

#[test]
fn agl_uni_rejects_surrogate_halves() {
    // U+D800 is the start of the surrogate range — must not decode.
    assert!(glyph_name_to_unicode("uniD800").is_none());
    assert!(glyph_name_to_unicode("uniDFFF").is_none());
    assert!(glyph_name_to_unicode("uD800").is_none());
}

#[test]
fn agl_uni_rejects_ffff_noncharacter() {
    assert!(glyph_name_to_unicode("uniFFFF").is_none());
    assert!(glyph_name_to_unicode("uFFFF").is_none());
}

#[test]
fn agl_uni_rejects_misshapen_input() {
    // `uni` with a remainder not divisible by 4 — reject.
    assert!(glyph_name_to_unicode("uni20").is_none());
    assert!(glyph_name_to_unicode("uni20142").is_none());
    // `uni` with no remainder — reject.
    assert!(glyph_name_to_unicode("uni").is_none());
    // `u` with too-few or too-many hex digits — reject.
    assert!(glyph_name_to_unicode("u041").is_none());
    assert!(glyph_name_to_unicode("u1234567").is_none());
    // `u` over U+10FFFF — reject (char::from_u32 returns None).
    assert!(glyph_name_to_unicode("u110000").is_none());
    // Lowercase hex — AGL canon is uppercase, reject so the
    // ambiguity doesn't propagate into the encoding table.
    assert!(glyph_name_to_unicode("uni201c").is_none());
    assert!(glyph_name_to_unicode("u1f600").is_none());
    // Non-hex bytes in the suffix — reject.
    assert!(glyph_name_to_unicode("uniZZZZ").is_none());
    // The bare `u` / `uni` prefix on a real AGL name (e.g.
    // `university` — not in the AGL subset) must not be mistaken
    // for the escape form.
    assert!(glyph_name_to_unicode("university").is_none());
}

#[test]
fn agl_uni_escape_in_differences() {
    // End-to-end: a `/Differences` override that uses the
    // `uniXXXX` escape decodes to the correct Unicode payload.
    let base = EncodingMap::from_base(BaseEncoding::WinAnsi);
    let diffs = EncodingDifferences {
        overrides: vec![
            EncodingOverride {
                code: 0x80,
                glyph_name: "uni201C".to_string(),
            },
            EncodingOverride {
                code: 0x81,
                glyph_name: "u1F600".to_string(),
            },
        ],
    };
    let out = apply_encoding_differences(&base, &diffs);
    assert_eq!(out.decode(&[0x80]), "\u{201C}");
    assert_eq!(out.decode(&[0x81]), "\u{1F600}");
}

#[test]
fn winansi_base_map_decodes_ascii_and_smart_quote() {
    let m = EncodingMap::from_base(BaseEncoding::WinAnsi);
    assert_eq!(m.decode(b"Hello"), "Hello");
    // 0x93 = U+201C in CP1252.
    assert_eq!(m.decode(&[0x93]), "\u{201C}");
}

#[test]
fn apply_differences_overrides_base_map() {
    // Start with WinAnsi (0x41 = 'A'). Override 0x41 → /Omega.
    let base = EncodingMap::from_base(BaseEncoding::WinAnsi);
    let diffs = EncodingDifferences {
        overrides: vec![EncodingOverride {
            code: 0x41,
            glyph_name: "Omega".to_string(),
        }],
    };
    let out = apply_encoding_differences(&base, &diffs);
    assert_eq!(out.decode(&[0x41]), "\u{03A9}"); // Greek capital Omega
                                                 // Sibling codes unchanged.
    assert_eq!(out.decode(&[0x42]), "B");
}

#[test]
fn apply_differences_unknown_glyph_becomes_replacement() {
    let base = EncodingMap::from_base(BaseEncoding::WinAnsi);
    let diffs = EncodingDifferences {
        overrides: vec![EncodingOverride {
            code: 0x41,
            glyph_name: "not-a-real-glyph-name".to_string(),
        }],
    };
    let out = apply_encoding_differences(&base, &diffs);
    // 0x41 slot is now empty → decode emits U+FFFD.
    assert_eq!(out.decode(&[0x41]), "\u{FFFD}");
}

#[test]
fn apply_differences_ligature_expands() {
    let base = EncodingMap::from_base(BaseEncoding::WinAnsi);
    let diffs = EncodingDifferences {
        overrides: vec![EncodingOverride {
            code: 0xFD,
            glyph_name: "fi".to_string(),
        }],
    };
    let out = apply_encoding_differences(&base, &diffs);
    assert_eq!(out.decode(&[0xFD]), "fi");
}

#[test]
fn macroman_base_map_smart_quotes() {
    let m = EncodingMap::from_base(BaseEncoding::MacRoman);
    // MacRoman 0xD2 = U+201C left double smart quote.
    assert_eq!(m.decode(&[0xD2]), "\u{201C}");
}

#[test]
fn standard_base_map_quotes() {
    let m = EncodingMap::from_base(BaseEncoding::Standard);
    // Standard 0x27 = quoteright = U+2019, not ASCII apostrophe.
    assert_eq!(m.decode(&[0x27]), "\u{2019}");
}

#[test]
fn symbol_base_map_alpha() {
    let m = EncodingMap::from_base(BaseEncoding::Symbol);
    // Symbol 0x41 = uppercase Alpha = U+0391.
    assert_eq!(m.decode(&[0x41]), "\u{0391}");
    // Symbol 0x70 = lowercase pi = U+03C0.
    assert_eq!(m.decode(&[0x70]), "\u{03C0}");
}

#[test]
fn base_encoding_name_recognition() {
    assert_eq!(
        BaseEncoding::from_name("WinAnsiEncoding"),
        Some(BaseEncoding::WinAnsi)
    );
    assert_eq!(
        BaseEncoding::from_name("MacRomanEncoding"),
        Some(BaseEncoding::MacRoman)
    );
    assert_eq!(BaseEncoding::from_name("not-a-real-name"), None);
}

#[test]
fn unassigned_code_decodes_to_replacement() {
    let m = EncodingMap::from_base(BaseEncoding::Standard);
    // StandardEncoding has nothing at 0x00 — must come back as FFFD.
    assert_eq!(m.decode(&[0x00]), "\u{FFFD}");
}
