use mdd_core::tree::rows::{
    build_child_row, format_expected_value_as_hex, format_value_hex_decimal, kv_row,
    make_dop_row, make_service_or_job_row, param_class_badge, parse_i64_exec, parse_u64_exec,
    sd_entry_label,
};
use mdd_core::tree::types::DetailRowType;
use mdd_core::tree::{CellJumpTargetType, CellType, ChildElementType, RowMetadata};

#[test]
fn expected_values_pad_to_their_width() {
    assert_eq!(format_expected_value_as_hex("34"), "0x22");
    assert_eq!(format_expected_value_as_hex("300"), "0x012C");
    assert_eq!(format_expected_value_as_hex("70000"), "0x00011170");
    assert_eq!(format_expected_value_as_hex("4294967296"), "0x0000000100000000");
    assert_eq!(format_expected_value_as_hex("+5"), "0x05");
}

#[test]
fn expected_values_that_are_no_number_stay() {
    assert_eq!(format_expected_value_as_hex("abc"), "abc");
    assert_eq!(format_expected_value_as_hex(""), "");
    assert_eq!(format_expected_value_as_hex("-1"), "-1");
    assert_eq!(format_expected_value_as_hex("18446744073709551616"), "18446744073709551616");
}

#[test]
fn hex_with_decimal_values() {
    assert_eq!(format_value_hex_decimal("255"), "0xFF (255)");
    assert_eq!(format_value_hex_decimal("0"), "0x0 (0)");
    assert_eq!(format_value_hex_decimal("-1"), "0xFFFFFFFFFFFFFFFF (-1)");
    assert_eq!(
        format_value_hex_decimal("-9223372036854775808"),
        "0x8000000000000000 (-9223372036854775808)"
    );
    assert_eq!(format_value_hex_decimal("x12"), "x12");
    assert_eq!(format_value_hex_decimal("9223372036854775808"), "9223372036854775808");
}

#[test]
fn decimal_parsing_follows_std() {
    for s in ["0", "+7", "18446744073709551615", "18446744073709551616", "", "+", "1a", "-3"] {
        assert_eq!(parse_u64_exec(s), s.parse::<u64>().ok(), "{}", s);
    }
    for s in ["0", "-0", "+7", "-9223372036854775808", "-9223372036854775809", "9223372036854775807", "-", "1-"] {
        assert_eq!(parse_i64_exec(s), s.parse::<i64>().ok(), "{}", s);
    }
}

#[test]
fn class_badges() {
    assert_eq!(param_class_badge(Some("TIMING")), "[TIMING] ");
    assert_eq!(param_class_badge(Some("-")), "");
    assert_eq!(param_class_badge(Some("")), "");
    assert_eq!(param_class_badge(None), "");
}

#[test]
fn sd_entry_labels() {
    let mut idx: usize = 0;
    assert_eq!(sd_entry_label("SI", "TI", "Cap", &mut idx, 3), "SI");
    assert_eq!(sd_entry_label("", "TI", "Cap", &mut idx, 3), "TI");
    assert_eq!(idx, 0);
    assert_eq!(sd_entry_label("", "", "Cap", &mut idx, 3), "Cap [1]");
    assert_eq!(sd_entry_label("", "", "Cap", &mut idx, 3), "Cap [2]");
    assert_eq!(sd_entry_label("", "", "Cap", &mut idx, 1), "Cap");
    assert_eq!(idx, 2);
}

#[test]
fn navigation_rows() {
    let row = make_dop_row("DOP_A");
    assert_eq!(row.cells.len(), 1);
    assert_eq!(row.cells[0].text, "DOP_A");
    assert_eq!(row.cells[0].cell_type, CellType::DopReference);
    match &row.cells[0].jump_target.as_ref().unwrap().target_type {
        CellJumpTargetType::Dop { index, name } => {
            assert_eq!(*index, usize::MAX);
            assert_eq!(name, "DOP_A");
        }
        other => panic!("unexpected target {:?}", other),
    }
    let row = make_service_or_job_row("Svc");
    assert_eq!(row.cells[0].cell_type, CellType::ParameterName);
    assert!(matches!(
        &row.cells[0].jump_target.as_ref().unwrap().target_type,
        CellJumpTargetType::TreeNodeByIndex { index, short_name } if *index == usize::MAX && short_name == "Svc"
    ));
    let row = kv_row("Key", "Value".to_string());
    assert_eq!(row.cells[0].text, "Key");
    assert_eq!(row.cells[1].text, "Value");
    assert!(row.cells[1].jump_target.is_none());
}

#[test]
fn child_rows_only_for_present_lists() {
    assert!(build_child_row("Services", None, ChildElementType::DiagComms).is_none());
    let row = build_child_row("Services", Some("3".to_string()), ChildElementType::DiagComms).unwrap();
    assert_eq!(row.row_type, DetailRowType::ChildElement);
    assert_eq!(row.cells[0].text, "Services");
    assert_eq!(row.cells[1].text, "3");
    assert!(matches!(
        row.metadata,
        Some(RowMetadata::ChildElement { element_type: ChildElementType::DiagComms })
    ));
}
