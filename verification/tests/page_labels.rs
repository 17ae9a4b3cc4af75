use oxideav_pdf::page_labels::{
    alpha, labels_for_pages, numeric_portion, roman, PageLabelRange, PageLabelStyle,
};

#[test]
fn roman_standard_form() {
    assert_eq!(roman(1, true), "I");
    assert_eq!(roman(4, true), "IV");
    assert_eq!(roman(9, true), "IX");
    assert_eq!(roman(14, true), "XIV");
    assert_eq!(roman(40, true), "XL");
    assert_eq!(roman(90, true), "XC");
    assert_eq!(roman(400, true), "CD");
    assert_eq!(roman(1990, true), "MCMXC");
    assert_eq!(roman(2026, true), "MMXXVI");
    assert_eq!(roman(3999, true), "MMMCMXCIX");
}

#[test]
fn alpha_repeats_beyond_z() {
    assert_eq!(alpha(1, b'A'), "A");
    assert_eq!(alpha(26, b'A'), "Z");
    assert_eq!(alpha(27, b'A'), "AA");
    assert_eq!(alpha(52, b'A'), "ZZ");
    assert_eq!(alpha(53, b'A'), "AAA");
    assert_eq!(alpha(2, b'a'), "b");
}

#[test]
fn spec_example_labels() {
    let ranges = vec![
        PageLabelRange {
            start_index: 0,
            style: Some(PageLabelStyle::RomanLower),
            prefix: String::new(),
            start_value: 1,
        },
        PageLabelRange {
            start_index: 4,
            style: Some(PageLabelStyle::Decimal),
            prefix: String::new(),
            start_value: 1,
        },
        PageLabelRange {
            start_index: 7,
            style: Some(PageLabelStyle::Decimal),
            prefix: "A-".into(),
            start_value: 8,
        },
    ];
    let labels = labels_for_pages(&ranges, 9);
    assert_eq!(
        labels,
        vec!["i", "ii", "iii", "iv", "1", "2", "3", "A-8", "A-9"]
    );
}

#[test]
fn prefix_only_and_missing_zero_entry() {
    let ranges = vec![PageLabelRange {
        start_index: 2,
        style: None,
        prefix: "Contents".into(),
        start_value: 1,
    }];
    let labels = labels_for_pages(&ranges, 4);
    assert_eq!(labels, vec!["1", "2", "Contents", "Contents"]);
}

#[test]
fn numbers_in_each_style() {
    assert_eq!(numeric_portion(PageLabelStyle::Decimal, 12), "12");
    assert_eq!(numeric_portion(PageLabelStyle::RomanUpper, 12), "XII");
    assert_eq!(numeric_portion(PageLabelStyle::RomanLower, 12), "xii");
    assert_eq!(numeric_portion(PageLabelStyle::AlphaUpper, 12), "L");
    assert_eq!(numeric_portion(PageLabelStyle::AlphaLower, 28), "bb");
    assert_eq!(roman(0, true), "0");
    assert_eq!(alpha(-3, b'A'), "-3");
}
