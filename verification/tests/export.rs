use mdd_core::diff::compare::{DiffResult, DiffSummary, ElementDiff, PropertyDiff};
use mdd_core::diff::export::{report_text, write_text_report};
use mdd_core::tree::DiffStatus;

fn element(name: &str, status: DiffStatus, property_diffs: Vec<PropertyDiff>, children: Vec<ElementDiff>) -> ElementDiff {
    ElementDiff { name: name.into(), status, property_diffs, children }
}

fn prop(name: &str, old_value: &str, new_value: &str) -> PropertyDiff {
    PropertyDiff { name: name.into(), old_value: old_value.into(), new_value: new_value.into() }
}

fn summary(added: usize, removed: usize, modified: usize, unchanged: usize) -> DiffSummary {
    DiffSummary { added, removed, modified, unchanged }
}

fn render(diff: &DiffResult) -> String {
    let mut buf = Vec::new();
    write_text_report(&mut buf, diff).unwrap();
    String::from_utf8(buf).unwrap()
}

#[test]
fn empty_diff_prints_header_and_summary() {
    let diff = DiffResult {
        old_name: "old.mdd".into(),
        new_name: "new.mdd".into(),
        ecu_diffs: vec![],
        variants: vec![],
        functional_groups: vec![],
        dtcs: vec![],
        summary: DiffSummary::default(),
    };
    let output = render(&diff);
    assert!(output.contains("Comparing: old.mdd vs new.mdd"));
    assert!(output.contains("+0 added, -0 removed, ~0 modified, 0 unchanged"));
}

#[test]
fn unchanged_elements_are_skipped() {
    let diff = DiffResult {
        old_name: "a.mdd".into(),
        new_name: "b.mdd".into(),
        ecu_diffs: vec![],
        variants: vec![
            element("V1", DiffStatus::Unchanged, vec![], vec![]),
            element("V2", DiffStatus::Added, vec![], vec![]),
        ],
        functional_groups: vec![],
        dtcs: vec![],
        summary: summary(1, 0, 0, 1),
    };
    let output = render(&diff);
    assert!(!output.contains("V1"), "unchanged element should be omitted");
    assert!(output.contains("[+] V2 (Variant)"));
}

#[test]
fn all_unchanged_section_is_omitted() {
    let diff = DiffResult {
        old_name: "a.mdd".into(),
        new_name: "b.mdd".into(),
        ecu_diffs: vec![],
        variants: vec![element("V1", DiffStatus::Unchanged, vec![], vec![])],
        functional_groups: vec![],
        dtcs: vec![],
        summary: summary(0, 0, 0, 1),
    };
    let output = render(&diff);
    assert!(!output.contains("Variants:"), "fully unchanged section should be omitted");
}

#[test]
fn single_property_diff_is_inlined() {
    let diff = DiffResult {
        old_name: "a.mdd".into(),
        new_name: "b.mdd".into(),
        ecu_diffs: vec![],
        variants: vec![],
        functional_groups: vec![],
        dtcs: vec![element(
            "DTC_001",
            DiffStatus::Modified,
            vec![prop("text", "old desc", "new desc")],
            vec![],
        )],
        summary: summary(0, 0, 1, 0),
    };
    let output = render(&diff);
    assert!(
        output.contains("[~] DTC_001 (DTC): old desc -> new desc"),
        "single diff should be inlined. Got:\n{output}",
    );
}

#[test]
fn kind_labels_and_nested_hierarchy() {
    let diff = DiffResult {
        old_name: "a.mdd".into(),
        new_name: "b.mdd".into(),
        ecu_diffs: vec![],
        variants: vec![element(
            "BaseVariant",
            DiffStatus::Modified,
            vec![],
            vec![element(
                "Services",
                DiffStatus::Modified,
                vec![],
                vec![
                    element("ReadDID", DiffStatus::Added, vec![], vec![]),
                    element(
                        "WriteDID",
                        DiffStatus::Modified,
                        vec![prop("addressing", "physical", "functional"), prop("is_cyclic", "false", "true")],
                        vec![],
                    ),
                ],
            )],
        )],
        functional_groups: vec![],
        dtcs: vec![],
        summary: summary(1, 0, 1, 0),
    };
    let output = render(&diff);
    assert!(output.contains("[~] BaseVariant (Variant)"), "top-level item gets kind label");
    assert!(output.contains("[+] ReadDID (Service)"), "service child gets kind label");
    assert!(output.contains("[~] WriteDID (Service)"), "modified service gets kind label");
    assert!(output.contains("addressing: physical -> functional"), "multi-property diffs listed");
}

#[test]
fn elements_render_with_markers_and_indentation() {
    let diff = DiffResult {
        old_name: "a.mdd".into(),
        new_name: "b.mdd".into(),
        ecu_diffs: vec![],
        variants: vec![element(
            "V1",
            DiffStatus::Added,
            vec![],
            vec![element("child", DiffStatus::Modified, vec![prop("version", "1", "2")], vec![])],
        )],
        functional_groups: vec![],
        dtcs: vec![element("DTC_001", DiffStatus::Removed, vec![], vec![])],
        summary: summary(1, 1, 0, 0),
    };
    let output = render(&diff);
    assert!(output.contains("  [+] V1 (Variant)"));
    assert!(output.contains("[~] child: 1 -> 2"));
    assert!(output.contains("  [-] DTC_001 (DTC)"));
}

#[test]
fn report_text_matches_written_bytes() {
    let diff = DiffResult {
        old_name: "a.mdd".into(),
        new_name: "b.mdd".into(),
        ecu_diffs: vec![prop("version", "1.0", "2.0")],
        variants: vec![],
        functional_groups: vec![],
        dtcs: vec![element("DTC_9", DiffStatus::Added, vec![], vec![])],
        summary: summary(1, 0, 0, 0),
    };
    let text = report_text(&diff);
    assert_eq!(render(&diff), text);
    let mut buf = b"prefix".to_vec();
    write_text_report(&mut buf, &diff).unwrap();
    assert!(buf.starts_with(b"prefix"));
    assert_eq!(&buf[6..], text.as_bytes());
}
