use mdd_core::uds::byte_pattern::{
    build_byte_pattern_rows, effective_bit_pos, format_binary, format_bit_range, format_hex,
    format_offset, ByteField,
};
use mdd_core::uds::translator::{
    describe_sid, format_hex_bytes, is_unsupported_dop_error, parse_hex_string, scanned_sids,
    HexError,
};

fn field(byte_pos: u32, bit_pos: u32, bit_length: Option<u32>, name: &str, type_label: &'static str, coded_value: Option<u64>, param_id: u32) -> ByteField {
    ByteField { byte_pos, bit_pos, bit_length, name: name.to_owned(), type_label, coded_value, param_id }
}

#[test]
fn format_hex_coded_value() {
    let f = field(0, 0, Some(8), "SID", "CodedConst", Some(0x22), 0);
    assert_eq!(format_hex(&f), "0x22");
}

#[test]
fn format_hex_unknown() {
    let f = field(3, 0, Some(16), "Data", "Value", None, 1);
    assert_eq!(format_hex(&f), "????");
}

#[test]
fn format_binary_known() {
    let f = field(0, 0, Some(8), "SID", "CodedConst", Some(0x22), 0);
    assert_eq!(format_binary(&f), "0010 0010");
}

#[test]
fn format_binary_unknown() {
    let f = field(1, 0, Some(8), "Dyn", "Value", None, 2);
    assert_eq!(format_binary(&f), "????????");
}

#[test]
fn format_bit_range_full_byte() {
    let f = field(0, 0, Some(8), "", "", None, 0);
    assert_eq!(format_bit_range(&f), "[7:0]");
}

#[test]
fn format_bit_range_single_bit() {
    let f = field(1, 7, Some(1), "", "", None, 0);
    assert_eq!(format_bit_range(&f), "[7]");
}

#[test]
fn format_bit_range_sub_byte() {
    let f = field(1, 0, Some(7), "", "", None, 0);
    assert_eq!(format_bit_range(&f), "[6:0]");
}

#[test]
fn format_offset_single_byte() {
    let f = field(5, 0, Some(8), "", "", None, 0);
    assert_eq!(format_offset(&f), "5");
}

#[test]
fn format_offset_multi_byte() {
    let f = field(1, 0, Some(16), "", "", None, 0);
    assert_eq!(format_offset(&f), "1-2");
}

#[test]
fn effective_bit_pos_of_unset_is_zero() {
    assert_eq!(effective_bit_pos(255), 0);
    assert_eq!(effective_bit_pos(3), 3);
}

#[test]
fn byte_pattern_rows_cover_each_field() {
    let rows = build_byte_pattern_rows(vec![
        field(0, 0, Some(8), "SID", "CodedConst", Some(0x22), 0),
        field(1, 0, Some(16), "DID", "Value", None, 1),
    ]);
    assert_eq!(rows.len(), 2);
    assert_eq!(rows[0].cells[0].text, "0");
    assert_eq!(rows[0].cells[2].text, "0x22");
    assert_eq!(rows[0].cells[4].text, "SID");
    assert_eq!(rows[1].cells[0].text, "1-2");
    assert_eq!(rows[1].cells[3].text, "????????????????");
}

#[test]
fn parse_hex_spaced() {
    let bytes = parse_hex_string("22 F1 90").unwrap();
    assert_eq!(bytes, vec![0x22, 0xF1, 0x90]);
}

#[test]
fn parse_hex_compact() {
    let bytes = parse_hex_string("22F190").unwrap();
    assert_eq!(bytes, vec![0x22, 0xF1, 0x90]);
}

#[test]
fn parse_hex_odd_digits_fails() {
    assert!(parse_hex_string("22F").is_err());
    assert_eq!(parse_hex_string("22F"), Err(HexError::OddDigitCount(3)));
}

#[test]
fn parse_then_format_hex_round_trips() {
    let bytes = parse_hex_string("22f190").unwrap();
    assert_eq!(format_hex_bytes(&bytes), "22 F1 90");
    assert_eq!(format_hex_bytes(&[]), "");
}

#[test]
fn describe_sid_known() {
    assert_eq!(describe_sid(0x22), "ReadDataByIdentifier");
    assert_eq!(describe_sid(0x10), "DiagnosticSessionControl");
}

#[test]
fn describe_sid_response() {
    assert_eq!(describe_sid(0x62), "ReadDataByIdentifier (positive response)");
}

#[test]
fn describe_sid_unknown() {
    assert_eq!(describe_sid(0xAA), "Unknown SID 0xAA");
}

#[test]
fn unsupported_dop_messages() {
    assert!(is_unsupported_dop_error("cannot encode EnvData parameter"));
    assert!(!is_unsupported_dop_error("timeout"));
}

#[test]
fn scanned_sids_start_with_read_data() {
    let sids = scanned_sids();
    assert_eq!(sids.first(), Some(&0x22));
    assert!(sids.contains(&0x3E));
}

#[test]
fn format_offset_variable_length() {
    let f = field(3, 0, None, "Data", "Value", None, 0);
    assert_eq!(format_offset(&f), "3..n");
}

#[test]
fn parse_hex_rejects_invalid_characters() {
    assert_eq!(parse_hex_string("22 ZZ"), Err(HexError::InvalidChar('Z')));
    assert_eq!(parse_hex_string("0x22"), Err(HexError::InvalidChar('x')));
    assert_eq!(parse_hex_string("22\tF1\n90").unwrap(), vec![0x22, 0xF1, 0x90]);
    assert_eq!(parse_hex_string("").unwrap(), Vec::<u8>::new());
}

#[test]
fn hex_error_messages() {
    assert_eq!(
        parse_hex_string("22F").unwrap_err().message(),
        "Hex string has odd number of digits (3 digits)"
    );
    assert_eq!(parse_hex_string("2G").unwrap_err().message(), "Invalid hex digit");
}
