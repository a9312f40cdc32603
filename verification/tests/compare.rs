use mdd_core::diff::compare::{
    compare, compare_params_list, compare_services, compare_state_charts, join_strings,
};
use mdd_core::diff::keyed_map::KeyedMap;
use mdd_core::diff::snapshot::{
    DiagCommSnapshot, DiagLayerSnapshot, DiagServiceSnapshot, DtcSnapshot, EcuSnapshot,
    ParamSnapshot, RequestSnapshot, StateChartSnapshot, VariantSnapshot,
};
use mdd_core::tree::DiffStatus;

fn empty_diag_comm() -> DiagCommSnapshot {
    DiagCommSnapshot::default()
}

fn empty_diag_layer() -> DiagLayerSnapshot {
    DiagLayerSnapshot::default()
}

fn simple_ecu(name: &str, version: &str) -> EcuSnapshot {
    EcuSnapshot {
        name: name.to_owned(),
        version: version.to_owned(),
        revision: String::new(),
        metadata: Vec::new(),
        variants: KeyedMap::new(),
        functional_groups: KeyedMap::new(),
        dtcs: KeyedMap::new(),
    }
}

fn param(short_name: &str, semantic: &str, value: &str, byte_position: u32, param_type: &str) -> ParamSnapshot {
    ParamSnapshot {
        short_name: short_name.to_owned(),
        semantic: semantic.to_owned(),
        physical_default_value: value.to_owned(),
        byte_position,
        bit_position: 0,
        param_type: param_type.to_owned(),
        specific_data_summary: String::new(),
    }
}

#[test]
fn identical_snapshots_produce_no_diffs() {
    let a = simple_ecu("ECU_A", "1.0");
    let b = simple_ecu("ECU_A", "1.0");
    let result = compare(&a, &b);

    assert!(result.ecu_diffs.is_empty());
    assert!(result.variants.is_empty());
    assert!(result.functional_groups.is_empty());
    assert!(result.dtcs.is_empty());
    assert_eq!(result.summary.added, 0);
    assert_eq!(result.summary.removed, 0);
    assert_eq!(result.summary.modified, 0);
    assert_eq!(result.summary.unchanged, 0);
}

#[test]
fn ecu_property_change_detected() {
    let a = simple_ecu("ECU_A", "1.0");
    let b = simple_ecu("ECU_A", "2.0");
    let result = compare(&a, &b);

    assert_eq!(result.ecu_diffs.len(), 1);
    let first = result.ecu_diffs.first();
    assert_eq!(first.map(|d| d.name.as_str()), Some("version"));
    assert_eq!(first.map(|d| d.old_value.as_str()), Some("1.0"));
    assert_eq!(first.map(|d| d.new_value.as_str()), Some("2.0"));
}

#[test]
fn added_variant_counted_in_summary() {
    let a = simple_ecu("ECU", "1.0");
    let mut b = simple_ecu("ECU", "1.0");
    b.variants.insert(
        "V1".to_owned(),
        VariantSnapshot {
            is_base_variant: true,
            diag_layer: empty_diag_layer(),
        },
    );

    let result = compare(&a, &b);
    assert_eq!(result.summary.added, 1);
    assert_eq!(result.variants.len(), 1);
    assert_eq!(result.variants.first().map(|v| v.status), Some(DiffStatus::Added));
}

fn dtc(text: &str, level: Option<u32>, is_temporary: bool) -> DtcSnapshot {
    DtcSnapshot {
        short_name: "DTC_001".to_owned(),
        trouble_code: 0x1234,
        display_trouble_code: "P1234".to_owned(),
        text: text.to_owned(),
        level,
        is_temporary,
    }
}

#[test]
fn removed_dtc_counted_in_summary() {
    let mut a = simple_ecu("ECU", "1.0");
    a.dtcs.insert("DTC_001".to_owned(), dtc("Sensor fault", Some(1), false));
    let b = simple_ecu("ECU", "1.0");

    let result = compare(&a, &b);
    assert_eq!(result.summary.removed, 1);
    assert_eq!(result.dtcs.len(), 1);
    assert_eq!(result.dtcs.first().map(|d| d.status), Some(DiffStatus::Removed));
}

#[test]
fn modified_dtc_produces_property_diffs() {
    let mut a = simple_ecu("ECU", "1.0");
    a.dtcs.insert("DTC_001".to_owned(), dtc("Sensor fault", Some(1), false));
    let mut b = simple_ecu("ECU", "1.0");
    b.dtcs.insert("DTC_001".to_owned(), dtc("Sensor malfunction", Some(2), true));

    let result = compare(&a, &b);
    assert_eq!(result.summary.modified, 1);
    assert_eq!(result.dtcs.len(), 1);
    let first_dtc = result.dtcs.first();
    assert_eq!(first_dtc.map(|d| d.status), Some(DiffStatus::Modified));

    let prop_names: Vec<&str> = first_dtc
        .map(|d| d.property_diffs.iter().map(|p| p.name.as_str()).collect())
        .unwrap_or_default();
    assert!(prop_names.contains(&"text"));
    assert!(prop_names.contains(&"level"));
    assert!(prop_names.contains(&"is_temporary"));
    assert!(!prop_names.contains(&"trouble_code"));
}

#[test]
fn param_comparison_by_short_name() {
    let old_params = vec![
        param("P1", "data", "0", 0, "Value"),
        param("P2", "data", "0", 1, "Value"),
    ];
    let new_params = vec![
        param("P1", "data", "42", 0, "Value"),
        param("P3", "control", "0", 2, "CodedConst"),
    ];

    let result = compare_params_list("TestParams", &old_params, &new_params);
    assert_eq!(result.len(), 1);
    let wrapper = result.first();
    assert_eq!(wrapper.map(|w| w.name.as_str()), Some("TestParams"));
    let children = wrapper.map(|w| &w.children);
    assert_eq!(children.map(Vec::len), Some(3));

    let statuses: Vec<DiffStatus> = children
        .map(|c| c.iter().map(|e| e.status).collect())
        .unwrap_or_default();
    assert!(statuses.contains(&DiffStatus::Removed));
    assert!(statuses.contains(&DiffStatus::Modified));
    assert!(statuses.contains(&DiffStatus::Added));
}

#[test]
fn service_modification_detected() {
    let svc = DiagServiceSnapshot {
        diag_comm: empty_diag_comm(),
        request_id: Some(0x22),
        request_sub_function: None,
        addressing: "physical".to_owned(),
        transmission_mode: "send".to_owned(),
        is_cyclic: false,
        is_multiple: false,
        request: Some(RequestSnapshot {
            params: vec![param("SID", "", "0x22", 0, "CodedConst")],
        }),
        pos_responses: Vec::new(),
        neg_responses: Vec::new(),
    };

    let mut svc_new = svc.clone();
    svc_new.is_cyclic = true;

    let (props, _children) = compare_services(&svc, &svc_new);
    assert_eq!(props.len(), 1);
    assert_eq!(props.first().map(|p| p.name.as_str()), Some("is_cyclic"));
}

#[test]
fn state_chart_diff_detected() {
    let old = StateChartSnapshot {
        short_name: "SC1".to_owned(),
        semantic: "lifecycle".to_owned(),
        start_state: "Init".to_owned(),
        states: vec!["Init".to_owned(), "Running".to_owned()],
        transitions: vec!["Init -> Running".to_owned()],
    };
    let new = StateChartSnapshot {
        short_name: "SC1".to_owned(),
        semantic: "lifecycle".to_owned(),
        start_state: "Init".to_owned(),
        states: vec!["Init".to_owned(), "Running".to_owned(), "Stopped".to_owned()],
        transitions: vec!["Init -> Running".to_owned(), "Running -> Stopped".to_owned()],
    };

    let (props, children) = compare_state_charts(&old, &new);
    assert!(children.is_empty());
    let names: Vec<&str> = props.iter().map(|p| p.name.as_str()).collect();
    assert!(names.contains(&"states"));
    assert!(names.contains(&"transitions"));
    assert!(!names.contains(&"short_name"));
}

#[test]
fn state_chart_list_values_are_joined() {
    let old = StateChartSnapshot {
        short_name: "SC1".to_owned(),
        semantic: "s".to_owned(),
        start_state: "A".to_owned(),
        states: vec!["A".to_owned(), "B".to_owned()],
        transitions: Vec::new(),
    };
    let mut new = old.clone();
    new.states.push("C".to_owned());
    let (props, _) = compare_state_charts(&old, &new);
    assert_eq!(props.len(), 1);
    assert_eq!(props[0].old_value, "A, B");
    assert_eq!(props[0].new_value, "A, B, C");
}

#[test]
fn join_strings_separates_items() {
    let parts = vec!["a".to_owned(), "b".to_owned(), "c".to_owned()];
    assert_eq!(join_strings(&parts, ", "), "a, b, c");
    assert_eq!(join_strings(&Vec::new(), ", "), "");
}

#[test]
fn identical_snapshot_with_content_counts_unchanged() {
    let build = || {
        let mut a = simple_ecu("ECU", "1.0");
        a.dtcs.insert("DTC_001".to_owned(), dtc("Sensor fault", Some(1), false));
        a.variants.insert(
            "V1".to_owned(),
            VariantSnapshot { is_base_variant: true, diag_layer: empty_diag_layer() },
        );
        a
    };
    let a = build();
    let b = build();
    let result = compare(&a, &b);
    assert_eq!(result.summary.unchanged, 2);
    assert_eq!(result.summary.added + result.summary.removed + result.summary.modified, 0);
    assert!(result.dtcs.iter().all(|d| d.status == DiffStatus::Unchanged));
}

#[test]
fn map_diff_names_each_key_once() {
    let mut a = simple_ecu("ECU", "1.0");
    a.dtcs.insert("DTC_B".to_owned(), dtc("b", Some(1), false));
    a.dtcs.insert("DTC_A".to_owned(), dtc("a", Some(1), false));
    a.dtcs.insert("DTC_C".to_owned(), dtc("c", Some(1), false));
    let mut b = simple_ecu("ECU", "1.0");
    b.dtcs.insert("DTC_C".to_owned(), dtc("c2", Some(1), false));
    b.dtcs.insert("DTC_D".to_owned(), dtc("d", Some(1), false));
    b.dtcs.insert("DTC_A".to_owned(), dtc("a", Some(1), false));

    let result = compare(&a, &b);
    let listed: Vec<(&str, DiffStatus)> = result.dtcs.iter().map(|d| (d.name.as_str(), d.status)).collect();
    assert_eq!(
        listed,
        vec![
            ("DTC_B", DiffStatus::Removed),
            ("DTC_A", DiffStatus::Unchanged),
            ("DTC_C", DiffStatus::Modified),
            ("DTC_D", DiffStatus::Added),
        ]
    );
}
