use mdd_core::tree::builder::TreeBuilder;
use mdd_core::tree::elements::param_detail::{
    build_param_detail_sections, build_specific_data_rows, dop_kv_row, CodedTypeInfo, DopRef,
    LengthInfo, ParamDetail, SpecificData,
};
use mdd_core::tree::elements::params::{build_param_section, param_byte_len_text, ParamInfo};
use mdd_core::tree::elements::tables::{add_tables, build_table_detail, TableData, TableRowData};
use mdd_core::tree::types::DetailSectionType;
use mdd_core::tree::{CellJumpTargetType, CellType, DetailContent, DetailRow, NodeType};
use mdd_core::uds::byte_pattern::ByteField;

fn texts(row: &DetailRow) -> Vec<String> {
    row.cells.iter().map(|c| c.text.clone()).collect()
}

fn table_rows(content: &DetailContent) -> &Vec<DetailRow> {
    match content {
        DetailContent::Table { rows, .. } => rows,
        _ => panic!("not a table"),
    }
}

fn info(name: &str, byte_pos: u32, bit_pos: u32, bit_len: Option<u32>, dop: &str) -> ParamInfo {
    ParamInfo {
        name: name.to_string(),
        byte_pos,
        bit_pos,
        bit_len,
        value: "0x10".to_string(),
        dop_name: dop.to_string(),
        dop_badge: "[N] ".to_string(),
        semantic: "DATA".to_string(),
        param_id: byte_pos + 100,
    }
}

#[test]
fn byte_lengths_from_bits_or_next_parameter() {
    let a = info("A", 0, 255, Some(8), "");
    let b = info("B", 1, 4, Some(12), "");
    let c = info("C", 3, 0, None, "");
    let d = info("D", 7, 0, None, "");
    assert_eq!(param_byte_len_text(&a, None), "1");
    assert_eq!(param_byte_len_text(&b, None), "2");
    assert_eq!(param_byte_len_text(&c, Some(&d)), "4");
    assert_eq!(param_byte_len_text(&d, Some(&c)), "0");
    assert_eq!(param_byte_len_text(&c, None), "-");
    let big = info("E", 0, 0, Some(u32::MAX), "");
    assert_eq!(param_byte_len_text(&big, None), "536870911");
}

#[test]
fn param_table_rows() {
    let infos = vec![info("SID", 0, 255, Some(8), ""), info("DID", 1, 0, None, "DOP_X")];
    let section = build_param_section("Request", infos, Vec::new(), DetailSectionType::Requests);
    assert_eq!(section.title, "Request");
    assert!(section.byte_pattern_rows.is_none());
    let rows = table_rows(&section.content);
    assert_eq!(rows.len(), 2);
    assert_eq!(texts(&rows[0]), vec!["SID", "0", "255", "8", "1", "0x10", "", "DATA"]);
    assert_eq!(texts(&rows[1]), vec!["DID", "1", "0", "-", "-", "0x10", "[N] DOP_X", "DATA"]);
    assert_eq!(rows[1].cells[6].cell_type, CellType::DopReference);
    assert!(rows[0].cells[6].jump_target.is_none());
}

#[test]
fn param_table_carries_byte_layout() {
    let field = ByteField {
        byte_pos: 0,
        bit_pos: 0,
        bit_length: Some(8),
        name: "SID".to_string(),
        type_label: "CodedConst",
        coded_value: Some(0x22),
        param_id: 1,
    };
    let section = build_param_section(
        "Request",
        vec![info("SID", 0, 0, Some(8), "")],
        vec![field],
        DetailSectionType::Requests,
    );
    assert_eq!(section.byte_pattern_rows.unwrap().len(), 1);
}

fn table(name: &str, rows: usize) -> TableData {
    TableData {
        short_name: name.to_string(),
        semantic: "SEM".to_string(),
        key_label: "KL".to_string(),
        struct_label: "SL".to_string(),
        key_dop_name: if rows > 0 { Some("KEY_DOP".to_string()) } else { None },
        row_count: rows,
        rows: (0..rows)
            .map(|i| TableRowData {
                short_name: format!("Row{i}"),
                key: format!("{i}"),
                structure: if i == 0 { Some("STRUCT".to_string()) } else { None },
            })
            .collect(),
    }
}

#[test]
fn table_detail_sections() {
    let detail = build_table_detail(&table("T1", 2));
    assert_eq!(detail.len(), 2);
    let overview = table_rows(&detail[0].content);
    assert_eq!(texts(&overview[4]), vec!["Key DOP", "KEY_DOP"]);
    assert_eq!(overview[4].cells[1].cell_type, CellType::DopReference);
    assert_eq!(texts(&overview[5]), vec!["Row Count", "2"]);
    assert_eq!(detail[1].title, "Rows (2)");
    let rows = table_rows(&detail[1].content);
    assert_eq!(texts(&rows[0]), vec!["Row0", "0", "STRUCT"]);
    assert_eq!(texts(&rows[1]), vec!["Row1", "1", "-"]);
    let empty = build_table_detail(&table("T0", 0));
    assert_eq!(empty.len(), 1);
    assert_eq!(texts(&table_rows(&empty[0].content)[4]), vec!["Key DOP", "-"]);
}

#[test]
fn tables_section_keeps_first_of_each_name() {
    let mut b = TreeBuilder::new();
    add_tables(&mut b, 2, Some(vec![table("A", 1), table("B", 0), table("A", 3)]));
    assert_eq!(b.nodes.len(), 3);
    assert_eq!(b.nodes[0].text, "Tables (2)");
    assert_eq!(b.nodes[0].node_type, NodeType::SectionHeader);
    assert_eq!(b.nodes[0].depth, 2);
    assert_eq!(b.nodes[1].text, "A");
    assert_eq!(b.nodes[1].depth, 3);
    assert_eq!(b.nodes[1].detail_sections.len(), 2);
    assert_eq!(b.nodes[2].text, "B");
    let mut empty = TreeBuilder::new();
    add_tables(&mut empty, 0, None);
    add_tables(&mut empty, 0, Some(Vec::new()));
    assert!(empty.nodes.is_empty());
}

fn detail(specific: SpecificData) -> ParamDetail {
    ParamDetail {
        id: 42,
        short_name: Some("P".to_string()),
        type_label: Some("CodedConst".to_string()),
        semantic: None,
        byte_pos: 3,
        bit_pos: 255,
        physical_default_value: None,
        coded_value: "0x22".to_string(),
        dop: DopRef { name: String::new(), display_name: String::new() },
        specific,
    }
}

#[test]
fn param_detail_sections() {
    let coded_type = CodedTypeInfo {
        dct_type: "StandardLength".to_string(),
        base_type_encoding: None,
        base_data_type: "AUint32".to_string(),
        high_low_byte_order: true,
        length_type: "StandardLengthType".to_string(),
        length: LengthInfo::Standard { bit_length: 8, bit_mask: None, condensed: false },
    };
    let p = detail(SpecificData::CodedConst {
        coded_value: Some("34".to_string()),
        coded_type: Some(coded_type),
    });
    let sections = build_param_detail_sections(&p);
    assert_eq!(sections.len(), 3);
    assert_eq!(sections[0].title, "Parameter - P");
    assert!(sections[0].render_as_header);
    let overview = table_rows(&sections[1].content);
    let keys: Vec<String> = overview.iter().map(|r| r.cells[0].text.clone()).collect();
    assert_eq!(keys, vec!["ID", "Short Name", "Type", "Byte Position", "Bit Position", "Coded Value"]);
    assert_eq!(texts(&overview[4]), vec!["Bit Position", "unset"]);
    assert_eq!(sections[2].title, "CodedConst");
    let specific = table_rows(&sections[2].content);
    assert_eq!(texts(&specific[0]), vec!["Coded Value", "34"]);
    assert_eq!(texts(&specific[3]), vec!["High-Low Byte Order", "true"]);
    assert_eq!(texts(&specific[7]), vec!["Condensed", "false"]);
    assert_eq!(specific.len(), 8);
}

#[test]
fn param_detail_without_specific_rows() {
    let mut p = detail(SpecificData::Other);
    p.short_name = None;
    p.dop = DopRef { name: "DOP_RAW".to_string(), display_name: "Nice".to_string() };
    let sections = build_param_detail_sections(&p);
    assert_eq!(sections.len(), 2);
    assert_eq!(sections[0].title, "Parameter - ?");
    let overview = table_rows(&sections[1].content);
    let last = overview.last().unwrap();
    assert_eq!(texts(last), vec!["DOP", "Nice"]);
}

#[test]
fn specific_rows_of_each_kind() {
    let rows = build_specific_data_rows(&SpecificData::MatchingRequestParam {
        request_byte_pos: -1,
        byte_length: 2,
    });
    assert_eq!(texts(&rows[0]), vec!["Request Byte Pos", "-1"]);
    let rows = build_specific_data_rows(&SpecificData::NrcConst {
        coded_values: Some(vec!["0x11".to_string(), "0x12".to_string()]),
        coded_type: None,
    });
    assert_eq!(texts(&rows[0]), vec!["Coded Values", "0x11, 0x12"]);
    let rows = build_specific_data_rows(&SpecificData::TableEntry {
        target: "Key".to_string(),
        param: Some(None),
        table_row: Some("R1".to_string()),
    });
    assert_eq!(rows.len(), 3);
    assert_eq!(texts(&rows[1]), vec!["Entry Param", "-"]);
    let rows = build_specific_data_rows(&SpecificData::System {
        sys_param: None,
        dop: Some(DopRef { name: "D".to_string(), display_name: String::new() }),
    });
    assert_eq!(texts(&rows[0]), vec!["DOP", "D"]);
    assert!(build_specific_data_rows(&SpecificData::TableStruct { table_key: None }).is_empty());
    let row = dop_kv_row(&DopRef { name: "X".to_string(), display_name: String::new() });
    assert!(matches!(
        &row.cells[1].jump_target.as_ref().unwrap().target_type,
        CellJumpTargetType::Dop { name, .. } if name == "X"
    ));
    let coded = CodedTypeInfo {
        dct_type: "MinMaxLength".to_string(),
        base_type_encoding: Some("ISO-8859-1".to_string()),
        base_data_type: "AAsciiString".to_string(),
        high_low_byte_order: false,
        length_type: "MinMaxLengthType".to_string(),
        length: LengthInfo::MinMax { min_length: 1, max_length: None, termination: "Zero".to_string() },
    };
    let rows = build_specific_data_rows(&SpecificData::CodedConst { coded_value: None, coded_type: Some(coded) });
    let keys: Vec<String> = rows.iter().map(|r| r.cells[0].text.clone()).collect();
    assert_eq!(
        keys,
        vec![
            "DCT Type", "Base Type Encoding", "Base Data Type", "High-Low Byte Order", "Length Type",
            "Min Length", "Max Length", "Termination"
        ]
    );
    assert_eq!(texts(&rows[6]), vec!["Max Length", "None"]);
}

use mdd_core::tree::elements::com_params::{
    add_com_params, build_com_param_ref_detail, build_complex_value_section, build_general_section,
    build_sub_params_section, dop_type_badge, trim_quotes_exec, ComDop, ComParam, ComParamRef,
    ComplexData, ComplexEntry, DopKind, RegularData, SubParam,
};
use mdd_core::tree::elements::normal_dops::{
    build_compu_internal_to_phys_section, build_compu_phys_to_internal_section,
    build_constraints_section, CompuDirection, CompuMethod, CompuScale, CompuValue,
    InternalConstraint, Limit, ScaleConstraint,
};
use mdd_core::tree::elements::structures::{build_params_section, StructureParam};

fn com_param(name: &str, class: Option<&str>, ty: &str) -> ComParam {
    ComParam {
        short_name: Some(name.to_string()),
        com_param_type: ty.to_string(),
        specific_data_type: "\"RegularComParam\"".to_string(),
        param_class: class.map(|c| c.to_string()),
        cp_type: "STANDARD".to_string(),
        cp_usage: "ECU_COMM".to_string(),
        display_level: Some(1),
        regular: Some(RegularData {
            physical_default_value: Some("255".to_string()),
            dop: Some(ComDop { name: "DOP_T".to_string(), display_name: String::new(), kind: Some(DopKind::Normal) }),
        }),
        complex: None,
    }
}

fn cp_ref(cp: Option<ComParam>) -> ComParamRef {
    ComParamRef {
        com_param: cp,
        simple_value: None,
        complex_entries: None,
        protocol_name: None,
        prot_stack_name: None,
    }
}

#[test]
fn quotes_are_trimmed_at_both_ends() {
    assert_eq!(trim_quotes_exec("\"Regular\""), "Regular");
    assert_eq!(trim_quotes_exec("\"\"a\"b\""), "a\"b");
    assert_eq!(trim_quotes_exec("\"\"\""), "");
    assert_eq!(trim_quotes_exec("plain"), "plain");
    assert_eq!(dop_type_badge(Some(DopKind::EnvDataDesc)), "[EnvDesc] ");
    assert_eq!(dop_type_badge(None), "");
}

#[test]
fn general_section_of_a_regular_parameter() {
    let mut r = cp_ref(Some(com_param("CP_Timeout", Some("TIMING"), "REGULAR")));
    r.simple_value = Some("16".to_string());
    r.protocol_name = Some("UDS".to_string());
    r.prot_stack_name = Some("ISO_15765".to_string());
    let general = build_general_section(&r).unwrap();
    assert_eq!(general.title, "General");
    let rows = table_rows(&general.content);
    let all: Vec<Vec<String>> = rows.iter().map(texts).collect();
    assert_eq!(all[0], vec!["Short Name", "CP_Timeout"]);
    assert_eq!(all[2], vec!["Specific Data Type", "RegularComParam"]);
    assert_eq!(all[3], vec!["Param Class", "TIMING"]);
    assert_eq!(all[6], vec!["Display Level", "1"]);
    assert_eq!(all[7], vec!["Physical Default Value", "0xFF (255)"]);
    assert_eq!(all[8], vec!["DOP", "[DOP] DOP_T"]);
    assert_eq!(all[9], vec!["Simple Value", "0x10 (16)"]);
    assert_eq!(all[10], vec!["Protocol", "UDS"]);
    assert_eq!(all[11], vec!["Prot Stack", "ISO_15765"]);
    assert!(build_general_section(&cp_ref(None)).is_none());
}

#[test]
fn kind_mismatch_is_flagged() {
    let mut cp = com_param("CP_X", None, "COMPLEX");
    cp.specific_data_type = "RegularComParam".to_string();
    let general = build_general_section(&cp_ref(Some(cp))).unwrap();
    let rows = table_rows(&general.content);
    assert_eq!(texts(&rows[2]), vec!["Specific Data Type", "RegularComParam (MISMATCH: Type=COMPLEX)"]);
    assert_eq!(texts(&rows[3]), vec!["Param Class", "-"]);
}

#[test]
fn complex_values_and_sub_parameters() {
    let mut cp = com_param("CP_C", None, "COMPLEX");
    cp.regular = None;
    cp.complex = Some(ComplexData {
        sub_params: Some(vec![SubParam {
            short_name: Some("Sub".to_string()),
            com_param_type: "REGULAR".to_string(),
            specific_data_type: "\"RegularComParam\"".to_string(),
            param_class: None,
            regular: None,
            has_complex: false,
        }]),
    });
    let mut r = cp_ref(Some(cp));
    r.complex_entries = Some(vec![
        ComplexEntry { tag: "SimpleValue".to_string(), simple_value: Some("1".to_string()) },
        ComplexEntry { tag: "ComplexValue".to_string(), simple_value: None },
    ]);
    let complex = build_complex_value_section(&r).unwrap();
    let rows = table_rows(&complex.content);
    assert_eq!(texts(&rows[0]), vec!["0", "SimpleValue", "0x1 (1)"]);
    assert_eq!(texts(&rows[1]), vec!["1", "ComplexValue", "Complex[1]"]);
    let subs = build_sub_params_section(&r).unwrap();
    let rows = table_rows(&subs.content);
    assert_eq!(texts(&rows[0]), vec!["Sub", "REGULAR", "RegularComParam (MISMATCH)", "-", ""]);
    let detail = build_com_param_ref_detail(&r);
    let titles: Vec<String> = detail.iter().map(|s| s.title.clone()).collect();
    assert_eq!(titles, vec!["General", "Complex Value", "Sub-Parameters"]);
}

#[test]
fn com_param_list_sorted_with_jumps_to_labels() {
    let refs = vec![
        cp_ref(Some(com_param("Zeta", None, "REGULAR"))),
        cp_ref(None),
        cp_ref(Some(com_param("Alpha", Some("TIMING"), "REGULAR"))),
    ];
    let mut b = TreeBuilder::new();
    add_com_params(&mut b, Some(refs), 1);
    assert_eq!(b.nodes.len(), 3);
    assert_eq!(b.nodes[0].text, "ComParam Refs (3)");
    assert_eq!(b.nodes[1].text, "[TIMING] Alpha");
    assert_eq!(b.nodes[2].text, "Zeta");
    let overview = table_rows(&b.nodes[0].detail_sections[0].content);
    assert_eq!(texts(&overview[0]), vec!["Alpha", "REGULAR"]);
    match &overview[0].cells[0].jump_target.as_ref().unwrap().target_type {
        CellJumpTargetType::TreeNodeByIndex { index, short_name } => {
            assert_eq!(*index, 1);
            assert_eq!(short_name, "[TIMING] Alpha");
        }
        other => panic!("unexpected {:?}", other),
    }
    let mut empty = TreeBuilder::new();
    add_com_params(&mut empty, Some(Vec::new()), 1);
    assert!(empty.nodes.is_empty());
}

fn limit(t: &str, v: Option<&str>) -> Option<Limit> {
    Some(Limit { interval_type: t.to_string(), value: v.map(|s| s.to_string()) })
}

#[test]
fn constraint_table_rows() {
    let c = InternalConstraint {
        lower: limit("Closed", Some("0")),
        upper: limit("Open", None),
        scales: vec![ScaleConstraint { lower: None, upper: limit("Closed", Some("9")), validity: "NotValid".to_string() }],
    };
    let section = build_constraints_section(&Some(c));
    assert_eq!(section.title, "Internal-Constr");
    let rows = table_rows(&section.content);
    assert_eq!(texts(&rows[0]), vec!["Closed", "0", "-", "Open", "-"]);
    assert_eq!(texts(&rows[1]), vec!["-", "-", "9", "Closed", "NotValid"]);
    assert!(table_rows(&build_constraints_section(&None).content).is_empty());
}

#[test]
fn compu_method_directions() {
    let scale = CompuScale {
        lower: limit("Closed", Some("0")),
        upper: None,
        inverse: Some(CompuValue { vt: None, v: Some("1.5".to_string()) }),
        consts: Some(CompuValue { vt: Some("ON".to_string()), v: None }),
    };
    let cm = CompuMethod {
        category: "TextTable".to_string(),
        internal_to_phys: Some(CompuDirection { scales: Some(vec![scale]) }),
        phys_to_internal: None,
    };
    let i2p = build_compu_internal_to_phys_section(&Some(cm.clone()));
    assert_eq!(i2p.title, "Compu-Internal-To-Phys");
    match &i2p.content {
        DetailContent::Composite(parts) => {
            assert_eq!(parts.len(), 2);
            assert!(matches!(&parts[0].content, DetailContent::PlainText(l) if l == &vec!["Category: TextTable".to_string()]));
            assert_eq!(texts(&table_rows(&parts[1].content)[0]), vec!["0", "-", "1.5", "ON"]);
        }
        _ => panic!("not composite"),
    }
    let p2i = build_compu_phys_to_internal_section(&Some(cm));
    match &p2i.content {
        DetailContent::Composite(parts) => {
            assert_eq!(parts.len(), 1);
            assert!(table_rows(&parts[0].content).is_empty());
        }
        _ => panic!("not composite"),
    }
}

#[test]
fn structure_params_tab() {
    let none = build_params_section(&None);
    assert!(matches!(&none.content, DetailContent::PlainText(l) if l == &vec!["No params".to_string()]));
    let p = StructureParam {
        name: "Field".to_string(),
        byte_pos: 2,
        value: "".to_string(),
        dop_name: "DOP_F".to_string(),
        semantic: "DATA".to_string(),
        param_id: 7,
    };
    let section = build_params_section(&Some(vec![p]));
    let rows = table_rows(&section.content);
    assert_eq!(texts(&rows[0]), vec!["Field", "2", "-", "-", "", "DOP_F", "DATA"]);
    assert_eq!(rows[0].cells[5].cell_type, CellType::DopReference);
}

use mdd_core::tree::elements::parent_services::{
    get_parent_ref_services_recursive, LayerKind, ParentRefNode, RefLayer, ServiceRef,
};

fn svc(name: Option<&str>, key: usize) -> ServiceRef {
    ServiceRef { short_name: name.map(|n| n.to_string()), key }
}

fn layer_ref(kind: LayerKind, name: Option<&str>, services: Vec<ServiceRef>, not_inherited: &[&str]) -> ParentRefNode {
    ParentRefNode::Layer {
        kind,
        layer: Some(RefLayer { short_name: name.map(|n| n.to_string()), services: Some(services) }),
        not_inherited: not_inherited.iter().map(|s| s.to_string()).collect(),
    }
}

#[test]
fn parent_services_follow_refs_and_keep_first_names() {
    let refs = vec![
        layer_ref(LayerKind::Protocol, Some("UDS"), vec![svc(Some("Read"), 1), svc(Some("Reset"), 2)], &["Reset"]),
        ParentRefNode::FunctionalGroup {
            nested: Some(vec![
                layer_ref(LayerKind::EcuSharedData, None, vec![svc(Some("Read"), 3), svc(Some("Write"), 4)], &[]),
                ParentRefNode::Other,
            ]),
        },
        layer_ref(LayerKind::Variant, None, vec![svc(None, 5), svc(None, 6)], &[]),
        ParentRefNode::FunctionalGroup { nested: None },
    ];
    let found = get_parent_ref_services_recursive(refs);
    let summary: Vec<(usize, String)> = found.iter().map(|(s, l)| (s.key, l.clone())).collect();
    assert_eq!(
        summary,
        vec![
            (1, "UDS".to_string()),
            (4, "EcuSharedData".to_string()),
            (5, "Variant".to_string()),
        ]
    );
    assert!(get_parent_ref_services_recursive(Vec::new()).is_empty());
}

use mdd_core::tree::elements::services::{
    build_diag_comms_table_section, build_overview_section, build_request_view_sections,
    build_service_list_table_section, build_service_overview_section, format_service_display_name,
    format_service_id, DiagCommInfo, PreconditionRef, ServiceInfo,
};
use vstd::hash_map::StringHashMap;

fn service(name: Option<&str>, sid: Option<u8>, sub: Option<(u32, u32)>, extra: &[&str]) -> ServiceInfo {
    ServiceInfo {
        diag_comm: Some(DiagCommInfo {
            short_name: name.map(|n| n.to_string()),
            semantic: Some("DATA".to_string()),
            funct_class: None,
            precondition_refs: vec![],
            transition_refs: vec![],
            audience: None,
            sdgs: vec![],
        }),
        request_id: sid,
        sub_function: sub,
        extra_bytes: extra.iter().map(|s| s.to_string()).collect(),
        addressing: "Physical".to_string(),
        transmission: "SendAndReceive".to_string(),
    }
}

#[test]
fn service_ids_and_labels() {
    let s = service(Some("ReadVIN"), Some(0x22), None, &["F1", "90"]);
    assert_eq!(format_service_id(&s), "0x22F190");
    assert_eq!(format_service_display_name(&s).unwrap(), "0x22F190 - ReadVIN");
    let s = service(Some("Reset"), Some(0x11), Some((1, 8)), &[]);
    assert_eq!(format_service_display_name(&s).unwrap(), "0x1101 - Reset");
    let s = service(Some("Routine"), Some(0x31), Some((0x0203, 16)), &[]);
    assert_eq!(format_service_id(&s), "0x310203");
    let s = service(None, None, None, &[]);
    assert_eq!(format_service_id(&s), "");
    assert_eq!(format_service_display_name(&s).unwrap(), "?");
    let mut none = service(Some("X"), Some(1), None, &[]);
    none.diag_comm = None;
    assert!(format_service_display_name(&none).is_none());
}

#[test]
fn service_overviews() {
    let s = service(Some("Reset"), Some(0x11), Some((1, 8)), &[]);
    let section = build_service_overview_section(&s, Some("BaseLayer"), Some(4));
    let rows = table_rows(&section.content);
    let all: Vec<Vec<String>> = rows.iter().map(texts).collect();
    assert_eq!(all[0], vec!["Service", "Reset"]);
    assert_eq!(all[2], vec!["SID", "0x11"]);
    assert_eq!(all[3], vec!["Sub-Function", "0x01 (8 bits)"]);
    assert_eq!(all[6], vec!["Inherited From", "BaseLayer"]);
    let mut s2 = s.clone();
    if let Some(dc) = s2.diag_comm.as_mut() {
        dc.precondition_refs = ["Default", "Extended"]
            .iter()
            .map(|s| PreconditionRef {
                state: Some(s.to_string()),
                value: None,
                in_param_if: None,
                in_param_path: None,
            })
            .collect();
        dc.funct_class = Some("FC_Reset".to_string());
    }
    let section = build_overview_section(&s2, None, None);
    let rows = table_rows(&section.content);
    let all: Vec<Vec<String>> = rows.iter().map(texts).collect();
    assert_eq!(all[all.len() - 2], vec!["State", "Default, Extended"]);
    assert_eq!(all[all.len() - 1], vec!["Functional Class", "FC_Reset"]);
}

#[test]
fn service_tables() {
    let mut indices: StringHashMap<usize> = StringHashMap::new();
    indices.insert("Reset".to_string(), 7);
    let own = vec![service(Some("Reset"), Some(0x11), None, &[]), {
        let mut s = service(Some("Hidden"), None, None, &[]);
        s.diag_comm = None;
        s
    }];
    let parents = vec![(service(Some("Read"), None, None, &[]), "Base".to_string())];
    let jobs = vec!["FlashJob".to_string()];
    let table = build_diag_comms_table_section(&own, &parents, &jobs, &indices);
    assert_eq!(table.title, "Diag-Comms (3 services, 1 jobs)");
    let rows = table_rows(&table.content);
    assert_eq!(rows.len(), 3);
    assert_eq!(texts(&rows[0]), vec!["0x11", "Reset", "-", "Service", "false"]);
    assert!(matches!(
        &rows[0].cells[1].jump_target.as_ref().unwrap().target_type,
        CellJumpTargetType::TreeNodeByIndex { index: 7, .. }
    ));
    assert_eq!(texts(&rows[1]), vec!["-", "Read", "-", "Service", "true"]);
    assert_eq!(texts(&rows[2]), vec!["-", "FlashJob", "-", "Job", "false"]);
    let list = build_service_list_table_section(&own, &parents, "Requests", DetailSectionType::Requests, &indices);
    assert_eq!(list.title, "Requests (3)");
    assert_eq!(texts(&table_rows(&list.content)[1]), vec!["-", "Read", "true"]);
}

#[test]
fn request_view() {
    let s = service(Some("ReadVIN"), Some(0x22), None, &["F1", "90"]);
    let sections = build_request_view_sections(&s, vec![info("SID", 0, 0, Some(8), "")], Vec::new(), None, None);
    assert_eq!(sections.len(), 3);
    assert_eq!(sections[0].title, "Request - 0x22F190 - ReadVIN");
    assert_eq!(sections[2].title, "Request");
}

use mdd_core::tree::elements::service_details::{
    build_diag_comm_details_with_parent, build_responses_sections, ParamEntry, RequestInfo,
    ResponseInfo, ResponseKind, Service,
};
use mdd_core::tree::elements::service_lists::{
    add_neg_responses_section, add_pos_responses_section, add_requests_section,
};
use mdd_core::tree::elements::services::{
    AudienceInfo, SdEntry, SdInfo, SdgInfo, TransitionInfo, TransitionRef,
};

fn entry(name: &str, byte_pos: u32, id: u32) -> ParamEntry {
    let mut i = info(name, byte_pos, 0, Some(8), "");
    i.param_id = id;
    ParamEntry {
        info: i,
        field: ByteField {
            byte_pos,
            bit_pos: 0,
            bit_length: Some(8),
            name: name.to_string(),
            type_label: "Value",
            coded_value: None,
            param_id: id,
        },
        detail: detail(SpecificData::Other),
    }
}

fn full_service(name: &str, sid: u8, request: Option<Vec<ParamEntry>>, pos: Vec<Vec<ParamEntry>>) -> Service {
    Service {
        info: service(Some(name), Some(sid), None, &[]),
        request: request.map(|p| RequestInfo { params: Some(p) }),
        pos_responses: Some(pos.into_iter().map(|p| ResponseInfo { params: Some(p) }).collect()),
        neg_responses: None,
    }
}

#[test]
fn requests_list_with_parameter_nodes() {
    let own = vec![
        full_service("ReadVIN", 0x22, Some(vec![entry("SID", 0, 1), entry("DID", 1, 2)]), vec![]),
        full_service("NoRequest", 0x10, None, vec![]),
    ];
    let parents = vec![(full_service("Reset", 0x11, Some(vec![]), vec![]), "Base".to_string())];
    let mut b = TreeBuilder::new();
    add_requests_section(&mut b, &own, &parents, 1);
    let texts_depths: Vec<(String, usize)> = b.nodes.iter().map(|n| (n.text.clone(), n.depth)).collect();
    assert_eq!(
        texts_depths,
        vec![
            ("Requests (2)".to_string(), 1),
            ("0x22 - ReadVIN".to_string(), 2),
            ("SID".to_string(), 3),
            ("DID".to_string(), 3),
            ("0x11 - Reset".to_string(), 2),
        ]
    );
    assert!(b.nodes[1].has_children);
    assert!(!b.nodes[4].has_children);
    assert_eq!(b.nodes[1].node_type, NodeType::Request);
    assert_eq!(b.nodes[1].detail_sections[0].title, "Request - 0x22 - ReadVIN");
    let table = table_rows(&b.nodes[0].detail_sections[0].content);
    assert_eq!(texts(&table[0]), vec!["0x22", "ReadVIN", "false"]);
    assert!(matches!(
        &table[1].cells[1].jump_target.as_ref().unwrap().target_type,
        CellJumpTargetType::TreeNodeByIndex { index: 4, .. }
    ));
    let mut empty = TreeBuilder::new();
    add_requests_section(&mut empty, &vec![full_service("X", 1, None, vec![])], &Vec::new(), 0);
    assert!(empty.nodes.is_empty());
}

#[test]
fn response_lists_group_several_responses() {
    let own = vec![full_service(
        "ReadVIN",
        0x22,
        None,
        vec![vec![entry("RSID", 0, 5)], vec![], vec![entry("Data", 1, 6)]],
    )];
    let mut b = TreeBuilder::new();
    add_pos_responses_section(&mut b, &own, &Vec::new(), 0);
    let texts_depths: Vec<(String, usize)> = b.nodes.iter().map(|n| (n.text.clone(), n.depth)).collect();
    assert_eq!(
        texts_depths,
        vec![
            ("Pos-Responses (1)".to_string(), 0),
            ("0x22 - ReadVIN".to_string(), 1),
            ("Response 1".to_string(), 2),
            ("RSID".to_string(), 3),
            ("Response 3".to_string(), 2),
            ("Data".to_string(), 3),
        ]
    );
    assert_eq!(b.nodes[1].detail_sections[0].title, "Pos Response - 0x22 - ReadVIN");
    let titles: Vec<String> = b.nodes[1].detail_sections.iter().map(|s| s.title.clone()).collect();
    assert_eq!(titles[2..].to_vec(), vec!["Pos-Response 1", "Pos-Response 2", "Pos-Response 3"]);
    let mut neg = TreeBuilder::new();
    add_neg_responses_section(&mut neg, &own, &Vec::new(), 0);
    assert!(neg.nodes.is_empty());
}

#[test]
fn diag_comm_detail_tabs() {
    let mut s = full_service("ReadVIN", 0x22, Some(vec![entry("SID", 0, 1)]), vec![]);
    if let Some(dc) = s.info.diag_comm.as_mut() {
        dc.audience = Some(AudienceInfo {
            is_manufacturing: true,
            is_development: false,
            is_after_sales: true,
            is_after_market: false,
            enabled: vec![Some("Workshop".to_string()), None],
        });
        dc.sdgs = vec![SdgInfo {
            caption: Some("Cap".to_string()),
            si: None,
            entries: vec![SdEntry::Sd(SdInfo { value: Some("1".to_string()), si: None, ti: None }), SdEntry::Group],
        }];
        dc.transition_refs = vec![TransitionRef {
            transition: Some(TransitionInfo {
                short_name: Some("T".to_string()),
                source: Some("A".to_string()),
                target: None,
            }),
            value: None,
        }];
    }
    let tabs = build_diag_comm_details_with_parent(&s, Some("Base"), Some(3));
    let titles: Vec<String> = tabs.iter().map(|t| t.title.clone()).collect();
    assert_eq!(
        titles,
        vec![
            "Service - 0x22 - ReadVIN",
            "Overview",
            "Request",
            "Pos-Response",
            "Neg-Response",
            "ComParam-Refs",
            "Audience",
            "SDGs",
            "Precondition-State-Refs",
            "State-Transition-Refs",
            "Related-Diag-Comm-Refs",
        ]
    );
    match &tabs[6].content {
        DetailContent::Composite(parts) => {
            assert_eq!(parts.len(), 2);
            assert!(matches!(&parts[0].content, DetailContent::PlainText(l) if l[0] == "IS_MANUFACTURER: true"));
            assert!(matches!(&parts[1].content, DetailContent::PlainText(l) if l == &vec!["Workshop".to_string()]));
        }
        _ => panic!("composite expected"),
    }
    match &tabs[7].content {
        DetailContent::Composite(parts) => {
            assert!(matches!(&parts[0].content, DetailContent::PlainText(l) if l[0] == "SDG: Cap  (SI: -)"));
            assert_eq!(table_rows(&parts[1].content).len(), 1);
        }
        _ => panic!("composite expected"),
    }
    assert_eq!(texts(&table_rows(&tabs[8].content)[0]), vec!["(No precondition state refs)", "-", "-"]);
    assert_eq!(texts(&table_rows(&tabs[9].content)[0]), vec!["T", "A", "-", "-"]);
    let overview = table_rows(&tabs[1].content);
    assert_eq!(texts(overview.last().unwrap()), vec!["Functional Class", "-"]);
    let neg = build_responses_sections(&s, ResponseKind::Negative);
    assert_eq!(neg.len(), 1);
    assert_eq!(neg[0].title, "Neg-Response");
}

use mdd_core::tree::elements::diag_comms::{add_diag_comms, SingleEcuJob};
use mdd_core::tree::types::{NodePayload, ServiceListType};

fn job(name: Option<&str>, semantic: Option<&str>) -> SingleEcuJob {
    let mut info = service(name, None, None, &[]);
    let mut dc = info.diag_comm.take().unwrap();
    dc.semantic = semantic.map(|s| s.to_string());
    SingleEcuJob { diag_comm: Some(dc) }
}

#[test]
fn diag_comms_sorted_with_jobs_and_jumps() {
    let mut b = TreeBuilder::new();
    b.push_container(0, "Base".to_string(), "Base".to_string(), Vec::new(), Vec::new());
    let own = vec![
        full_service("writeData", 0x2E, None, vec![]),
        full_service("ReadVIN", 0x22, None, vec![]),
        {
            let mut s = full_service("Hidden", 0x10, None, vec![]);
            s.info.diag_comm = None;
            s
        },
    ];
    let parents = vec![(full_service("Reset", 0x11, None, vec![]), "Base".to_string())];
    let jobs = vec![job(Some("zJob"), None), job(None, None), job(Some("AJob"), Some("FLASH"))];
    add_diag_comms(&mut b, own, parents, jobs, 1);
    let texts_depths: Vec<(String, usize)> = b.nodes.iter().map(|n| (n.text.clone(), n.depth)).collect();
    assert_eq!(
        texts_depths,
        vec![
            ("Base".to_string(), 0),
            ("Diag-Comms (4 services, 3 jobs)".to_string(), 1),
            ("0x22 - ReadVIN".to_string(), 2),
            ("0x2E - writeData".to_string(), 2),
            ("0x11 - Reset".to_string(), 2),
            ("AJob".to_string(), 2),
            ("zJob".to_string(), 2),
        ]
    );
    assert!(matches!(
        b.nodes[1].payload,
        NodePayload::ServiceListHeader { service_list_type: ServiceListType::DiagComms }
    ));
    assert_eq!(b.nodes[2].node_type, NodeType::Service);
    assert_eq!(b.nodes[4].node_type, NodeType::ParentRefService);
    assert_eq!(b.nodes[5].node_type, NodeType::Job);
    let inherited = table_rows(&b.nodes[4].detail_sections[1].content);
    assert!(inherited.iter().any(|r| texts(r) == vec!["Inherited From", "Base"]));
    let job_titles: Vec<String> = b.nodes[5].detail_sections.iter().map(|s| s.title.clone()).collect();
    assert_eq!(job_titles, vec!["Job - AJob", "Overview", "Precondition-State-Refs"]);
    let overview: Vec<Vec<String>> = table_rows(&b.nodes[5].detail_sections[1].content).iter().map(texts).collect();
    assert_eq!(overview, vec![vec!["Job", "AJob"], vec!["Semantic", "FLASH"]]);
    let table = table_rows(&b.nodes[1].detail_sections[0].content);
    let names: Vec<String> = table.iter().map(|r| texts(r)[1].clone()).collect();
    assert_eq!(names, vec!["ReadVIN", "writeData", "Reset", "AJob", "Unnamed", "zJob"]);
    assert!(matches!(
        &table[1].cells[1].jump_target.as_ref().unwrap().target_type,
        CellJumpTargetType::TreeNodeByIndex { index: 3, .. }
    ));
    assert!(matches!(
        &table[5].cells[1].jump_target.as_ref().unwrap().target_type,
        CellJumpTargetType::TreeNodeByIndex { index: 6, .. }
    ));
    assert!(matches!(
        &table[4].cells[1].jump_target.as_ref().unwrap().target_type,
        CellJumpTargetType::TreeNodeByIndex { index: usize::MAX, .. }
    ));
    let mut empty = TreeBuilder::new();
    add_diag_comms(&mut empty, Vec::new(), Vec::new(), Vec::new(), 0);
    assert!(empty.nodes.is_empty());
}

use mdd_core::tree::elements::state_charts::{
    add_state_charts, build_states_section, build_transitions_section, StateChartInfo, StateInfo,
};

fn transition(name: Option<&str>, src: &str, tgt: Option<&str>) -> TransitionInfo {
    TransitionInfo {
        short_name: name.map(|s| s.to_string()),
        source: Some(src.to_string()),
        target: tgt.map(|s| s.to_string()),
    }
}

fn state(name: &str) -> StateInfo {
    StateInfo { short_name: Some(name.to_string()) }
}

#[test]
fn state_charts_sorted_with_overview() {
    let charts = vec![
        StateChartInfo {
            short_name: Some("Session".to_string()),
            semantic: Some("SESSION".to_string()),
            transitions: vec![
                transition(Some("ToProg"), "Default", Some("Programming")),
                transition(None, "Extended", None),
                transition(Some("backToDefault"), "Extended", Some("Default")),
            ],
            states: vec![state("extended"), state("Default"), state("Programming")],
        },
        StateChartInfo { short_name: Some("access".to_string()), semantic: None, transitions: vec![], states: vec![] },
    ];
    let mut b = TreeBuilder::new();
    add_state_charts(&mut b, charts, 1);
    let texts_depths: Vec<(String, usize)> = b.nodes.iter().map(|n| (n.text.clone(), n.depth)).collect();
    assert_eq!(
        texts_depths,
        vec![("State Charts (2)".to_string(), 1), ("access".to_string(), 2), ("Session".to_string(), 2)]
    );
    let session = &b.nodes[2];
    assert_eq!(session.detail_sections[0].title, "State Chart - Session");
    assert!(matches!(&session.detail_sections[0].content, DetailContent::PlainText(l) if l == &vec!["Semantic: SESSION".to_string()]));
    let transitions: Vec<Vec<String>> = table_rows(&session.detail_sections[1].content).iter().map(texts).collect();
    assert_eq!(
        transitions,
        vec![
            vec!["?", "Extended", "?"],
            vec!["backToDefault", "Extended", "Default"],
            vec!["ToProg", "Default", "Programming"],
        ]
    );
    let states: Vec<Vec<String>> = table_rows(&session.detail_sections[2].content).iter().map(texts).collect();
    assert_eq!(states, vec![vec!["Default"], vec!["extended"], vec!["Programming"]]);
    let access = &b.nodes[1];
    assert!(matches!(&access.detail_sections[1].content, DetailContent::PlainText(l) if l == &vec!["No state transitions".to_string()]));
    assert!(matches!(&access.detail_sections[2].content, DetailContent::PlainText(l) if l == &vec!["No states".to_string()]));
    let overview = &b.nodes[0].detail_sections[0];
    assert_eq!(overview.title, "State Charts Overview");
    let rows = table_rows(&overview.content);
    assert_eq!(texts(&rows[1]), vec!["Session", "3", "3"]);
    assert!(matches!(
        &rows[1].cells[0].jump_target.as_ref().unwrap().target_type,
        CellJumpTargetType::TreeNodeByIndex { index: 2, .. }
    ));
    let mut empty = TreeBuilder::new();
    add_state_charts(&mut empty, Vec::new(), 0);
    assert!(empty.nodes.is_empty());
    assert_eq!(build_states_section(Vec::new()).title, "States");
    assert_eq!(build_transitions_section(Vec::new()).title, "State Transitions");
}

use mdd_core::tree::elements::params::{extract_coded_value, CodedParam};
use mdd_core::tree::types::{param_type_label, ParamType};

#[test]
fn param_type_label_covers_all_variants() {
    let all = [
        (ParamType::CodedConst, "CodedConst"),
        (ParamType::Dynamic, "Dynamic"),
        (ParamType::LengthKey, "LengthKey"),
        (ParamType::MatchingRequestParam, "MatchingRequestParam"),
        (ParamType::NrcConst, "NrcConst"),
        (ParamType::PhysConst, "PhysConst"),
        (ParamType::Reserved, "Reserved"),
        (ParamType::System, "System"),
        (ParamType::TableEntry, "TableEntry"),
        (ParamType::TableKey, "TableKey"),
        (ParamType::TableStruct, "TableStruct"),
        (ParamType::Value, "Value"),
    ];
    for (pt, expected) in all {
        assert_eq!(param_type_label(&pt), expected);
    }
}

#[test]
fn coded_values_as_padded_hex() {
    let coded = |v: &str| CodedParam { param_type: Some(ParamType::CodedConst), coded_value: Some(v.to_string()) };
    assert_eq!(extract_coded_value(&coded("34")), "0x22");
    assert_eq!(extract_coded_value(&coded("61840")), "0xF190");
    assert_eq!(extract_coded_value(&coded("65536")), "0x010000");
    assert_eq!(extract_coded_value(&coded("16777216")), "0x01000000");
    assert_eq!(extract_coded_value(&coded("4294967296")), "0x0000000100000000");
    assert_eq!(extract_coded_value(&coded("abc")), "abc");
    let value = CodedParam { param_type: Some(ParamType::Value), coded_value: Some("34".to_string()) };
    assert_eq!(extract_coded_value(&value), "");
    let unknown = CodedParam { param_type: None, coded_value: Some("34".to_string()) };
    assert_eq!(extract_coded_value(&unknown), "");
    let empty = CodedParam { param_type: Some(ParamType::CodedConst), coded_value: None };
    assert_eq!(extract_coded_value(&empty), "");
}

use mdd_core::tree::elements::functional_classes::{
    add_functional_classes, build_job_row, collect_services_and_jobs_for_functional_class, FcJob, FcLayer,
    FcService,
};

fn fc_service(name: &str, sid: u8, classes: &[&str]) -> FcService {
    FcService {
        info: service(Some(name), Some(sid), None, &[]),
        class_names: classes.iter().map(|c| Some(c.to_string())).collect(),
    }
}

fn fc_job(name: &str, classes: &[&str]) -> FcJob {
    FcJob { short_name: Some(name.to_string()), class_names: classes.iter().map(|c| Some(c.to_string())).collect() }
}

fn fc_layer(name: &str, classes: &[&str], services: Vec<FcService>, jobs: Vec<FcJob>) -> FcLayer {
    FcLayer {
        short_name: Some(name.to_string()),
        funct_classes: classes.iter().map(|c| Some(c.to_string())).collect(),
        services,
        jobs,
    }
}

#[test]
fn functional_classes_list_members_by_class() {
    let base = fc_layer(
        "Base",
        &["Ident", "Coding", "Ident"],
        vec![fc_service("readVIN", 0x22, &["Ident"]), fc_service("Adapt", 0x2E, &["Coding", "Ident"])],
        vec![fc_job("FlashJob", &["Coding"])],
    );
    let mut b = TreeBuilder::new();
    add_functional_classes(&mut b, &base, 1, None);
    let texts_depths: Vec<(String, usize)> = b.nodes.iter().map(|n| (n.text.clone(), n.depth)).collect();
    assert_eq!(
        texts_depths,
        vec![("Functional Classes (2)".to_string(), 1), ("Coding".to_string(), 2), ("Ident".to_string(), 2)]
    );
    assert_eq!(b.nodes[1].node_type, NodeType::FunctionalClass);
    let ident = &b.nodes[2].detail_sections;
    assert_eq!(ident[0].title, "Functional Class: Ident");
    assert_eq!(ident[1].title, "Services and Jobs (2)");
    let rows: Vec<Vec<String>> = table_rows(&ident[1].content).iter().map(texts).collect();
    assert_eq!(rows[0], vec!["Adapt", "Service", "0x2E", "DATA", "Physical", "Base"]);
    assert_eq!(rows[1][0], "readVIN");
    let coding: Vec<Vec<String>> = table_rows(&b.nodes[1].detail_sections[1].content).iter().map(texts).collect();
    assert_eq!(coding[1], vec!["FlashJob", "Job", "-", "-", "-", "Base"]);
    let table = table_rows(&b.nodes[0].detail_sections[0].content);
    assert!(matches!(
        &table[1].cells[0].jump_target.as_ref().unwrap().target_type,
        CellJumpTargetType::TreeNodeByIndex { index: 2, .. }
    ));

    let v1 = fc_layer("V1", &[], vec![fc_service("readVIN", 0x22, &["Ident"])], vec![]);
    let v2 = fc_layer("V2", &[], vec![fc_service("readVIN", 0x22, &["Ident"]), fc_service("readSW", 0x22, &["Ident"])], vec![fc_job("J", &["Ident"])]);
    let variants = vec![Some(v1), None, Some(v2)];
    let (svcs, jobs) = collect_services_and_jobs_for_functional_class("Ident", &variants);
    let found: Vec<(String, String)> = svcs
        .iter()
        .map(|(s, l)| (s.diag_comm.as_ref().unwrap().short_name.clone().unwrap(), l.clone()))
        .collect();
    assert_eq!(found, vec![("readVIN".to_string(), "V1".to_string()), ("readSW".to_string(), "V2".to_string())]);
    assert_eq!(jobs, vec![("J".to_string(), "V2".to_string())]);

    let mut empty = TreeBuilder::new();
    add_functional_classes(&mut empty, &fc_layer("X", &[], vec![], vec![]), 0, None);
    assert!(empty.nodes.is_empty());
    let mut none_found = TreeBuilder::new();
    add_functional_classes(&mut none_found, &fc_layer("X", &["Empty"], vec![], vec![]), 0, Some(vec![None]));
    let rows: Vec<Vec<String>> = table_rows(&none_found.nodes[1].detail_sections[1].content).iter().map(texts).collect();
    assert_eq!(rows, vec![vec!["No services or jobs in this functional class", "-", "-", "-", "-", "-"]]);
    assert_eq!(texts(&build_job_row("J", "L")), vec!["J", "Job", "-", "-", "-", "L"]);
}

use mdd_core::tree::elements::parent_refs::{
    add_parent_refs_with_details, build_parent_refs_detail_section, extract_parent_ref_short_names,
    ParentRefInfo, ParentRefKind,
};

fn parent_ref(kind: ParentRefKind, name: Option<&str>) -> ParentRefInfo {
    ParentRefInfo {
        kind,
        layer_name: name.map(|n| n.to_string()),
        not_inherited_diag_comms: None,
        not_inherited_variables: None,
        not_inherited_dops: None,
        not_inherited_tables: None,
    }
}

#[test]
fn parent_refs_list_and_detail() {
    let mut proto = parent_ref(ParentRefKind::Protocol, Some("UDS"));
    proto.not_inherited_diag_comms = Some(vec!["Reset".to_string()]);
    proto.not_inherited_dops = Some(vec!["DOP_A".to_string()]);
    proto.not_inherited_tables = Some(vec![]);
    let refs = vec![
        parent_ref(ParentRefKind::EcuSharedData, Some("ESD")),
        proto,
        parent_ref(ParentRefKind::TableDop, Some("T")),
        parent_ref(ParentRefKind::Variant, None),
    ];
    assert_eq!(extract_parent_ref_short_names(Some(refs.clone())), vec!["ESD", "UDS"]);
    assert!(extract_parent_ref_short_names(None).is_empty());
    let tab = build_parent_refs_detail_section(Some(refs.clone())).unwrap();
    assert_eq!(tab.title, "Parent Refs");
    assert_eq!(texts(&table_rows(&tab.content)[0]), vec!["ESD", "ECU Shared Data"]);
    assert!(build_parent_refs_detail_section(Some(Vec::new())).is_none());
    let mut b = TreeBuilder::new();
    add_parent_refs_with_details(&mut b, 2, Some(refs));
    let texts_depths: Vec<(String, usize)> = b.nodes.iter().map(|n| (n.text.clone(), n.depth)).collect();
    assert_eq!(
        texts_depths,
        vec![
            ("Parent Refs (4)".to_string(), 2),
            ("ESD".to_string(), 3),
            ("UDS".to_string(), 3),
            ("?".to_string(), 3),
            ("?".to_string(), 3),
        ]
    );
    assert_eq!(b.nodes[0].node_type, NodeType::ParentRefs);
    let titles: Vec<String> = b.nodes[2].detail_sections.iter().map(|s| s.title.clone()).collect();
    assert_eq!(titles, vec!["General", "Not Inherited DiagComms", "Not Inherited DOPs"]);
    let general: Vec<Vec<String>> = table_rows(&b.nodes[2].detail_sections[0].content).iter().map(texts).collect();
    assert_eq!(general, vec![vec!["Short Name", "UDS"], vec!["Type", "Protocol"]]);
    assert!(matches!(
        &table_rows(&b.nodes[2].detail_sections[2].content)[0].cells[0].jump_target.as_ref().unwrap().target_type,
        CellJumpTargetType::Dop { .. }
    ));
    let mut empty = TreeBuilder::new();
    add_parent_refs_with_details(&mut empty, 0, None);
    assert!(empty.nodes.is_empty());
}

use mdd_core::tree::elements::variants::{
    build_names_overview_table, build_variants_overview_table, format_expected_value_as_hex, VariantSummary,
};

#[test]
fn expected_values_as_hex() {
    assert_eq!(format_expected_value_as_hex("255"), "0xFF");
    assert_eq!(format_expected_value_as_hex("256"), "0x0100");
    assert_eq!(format_expected_value_as_hex("65536"), "0x00010000");
    assert_eq!(format_expected_value_as_hex("4294967296"), "0x0000000100000000");
    assert_eq!(format_expected_value_as_hex("v1.2"), "v1.2");
}

#[test]
fn variant_and_name_overviews() {
    let vs = vec![
        VariantSummary { short_name: Some("Base".to_string()), is_base: true },
        VariantSummary { short_name: None, is_base: false },
    ];
    let tabs = build_variants_overview_table(&vs);
    assert_eq!(tabs[0].title, "Variants Overview");
    let rows: Vec<Vec<String>> = table_rows(&tabs[0].content).iter().map(texts).collect();
    assert_eq!(rows, vec![vec!["Base", "Yes"], vec!["unnamed", "No"]]);
    assert!(build_variants_overview_table(&[]).is_empty());
    let mut indices: StringHashMap<usize> = StringHashMap::new();
    indices.insert("FG1".to_string(), 4);
    let names = vec!["FG1".to_string(), "FG2".to_string()];
    let tabs = build_names_overview_table(&names, "Functional Groups", &indices);
    let rows = table_rows(&tabs[0].content);
    assert!(matches!(
        &rows[0].cells[0].jump_target.as_ref().unwrap().target_type,
        CellJumpTargetType::TreeNodeByIndex { index: 4, .. }
    ));
    assert!(matches!(
        &rows[1].cells[0].jump_target.as_ref().unwrap().target_type,
        CellJumpTargetType::TreeNodeByIndex { index: usize::MAX, .. }
    ));
    assert!(build_names_overview_table(&[], "X", &indices).is_empty());
}
