use oxideav_pdf::hierarchy::{HierarchyIssue, HierarchyReport, IssueSeverity};

#[test]
fn report_is_valid_no_errors_default() {
    let report = HierarchyReport::default();
    assert!(report.is_valid());
    assert_eq!(report.page_count, 0);
    assert_eq!(report.max_depth, 0);
}

#[test]
fn report_distinguishes_errors_from_warnings() {
    let mut report = HierarchyReport::default();
    report.issues.push(HierarchyIssue {
        object_id: None,
        severity: IssueSeverity::Warning,
        message: "warn".into(),
    });
    assert!(report.is_valid(), "warnings don't invalidate report");
    report.issues.push(HierarchyIssue {
        object_id: None,
        severity: IssueSeverity::Error,
        message: "err".into(),
    });
    assert!(!report.is_valid(), "errors invalidate report");
    assert_eq!(report.errors().iter().count(), 1);
    assert_eq!(report.warnings().iter().count(), 1);
}
