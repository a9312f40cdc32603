//! The detail of one request or response parameter: a header, its
//! properties, and the rows of its kind-specific data.
use vstd::prelude::*;
use crate::diff::compare::{bool_str, bool_text, join, join_strings};
use crate::text::{decimal, i64_to_decimal, signed_decimal, u64_to_decimal};
use crate::tree::elements::{
    build_property_table, opt_row, plain_cell, prop, prop_row, property_row, property_row_with,
    property_table, push_row,
};
use crate::tree::types::{
    rows_view, sections_view, strings_view, CellJumpTarget, CellJumpTargetType, CellType, CellV,
    ContentV, DetailCell, DetailContent, DetailRow, DetailSectionData, DetailSectionType, JumpV, RowV,
    SectionV, BIT_POSITION_UNSET,
};

verus! {

broadcast use vstd::std_specs::vec::group_vec_axioms;

/// A reference to a data operation: its short name and the display name
/// its nodes are labelled with (empty when it has none of its own).
#[derive(Clone, Debug)]
pub struct DopRef {
    pub name: String,
    pub display_name: String,
}

/// How the length of a coded type is given.
#[derive(Clone, Debug)]
pub enum LengthInfo {
    Standard { bit_length: u32, bit_mask: Option<String>, condensed: bool },
    MinMax { min_length: u32, max_length: Option<u32>, termination: String },
    LeadingLength { bit_length: u32 },
    ParamLength { length_key: Option<String> },
    Unspecified,
}

/// A coded type, its enumerations given by their names.
#[derive(Clone, Debug)]
pub struct CodedTypeInfo {
    pub dct_type: String,
    pub base_type_encoding: Option<String>,
    pub base_data_type: String,
    pub high_low_byte_order: bool,
    pub length_type: String,
    pub length: LengthInfo,
}

/// The kind-specific data of a parameter. A reference whose target has no
/// short name is `Some(None)`.
#[derive(Clone, Debug)]
pub enum SpecificData {
    CodedConst { coded_value: Option<String>, coded_type: Option<CodedTypeInfo> },
    NrcConst { coded_values: Option<Vec<String>>, coded_type: Option<CodedTypeInfo> },
    MatchingRequestParam { request_byte_pos: i64, byte_length: u32 },
    PhysConst { value: Option<String>, dop: Option<DopRef> },
    Reserved { bit_length: u32 },
    System { sys_param: Option<String>, dop: Option<DopRef> },
    LengthKeyRef { dop: Option<DopRef> },
    TableEntry { target: String, param: Option<Option<String>>, table_row: Option<String> },
    TableStruct { table_key: Option<Option<String>> },
    Other,
}

/// What the detail of one parameter shows.
#[derive(Clone, Debug)]
pub struct ParamDetail {
    pub id: u32,
    pub short_name: Option<String>,
    pub type_label: Option<String>,
    pub semantic: Option<String>,
    pub byte_pos: u32,
    pub bit_pos: u32,
    pub physical_default_value: Option<String>,
    pub coded_value: String,
    pub dop: DopRef,
    pub specific: SpecificData,
}

/// A name, or `-` when there is none.
pub open spec fn name_or_dash(o: Option<String>) -> Seq<char> {
    match o {
        Some(n) => n@,
        None => "-"@,
    }
}

fn name_or_dash_exec(o: &Option<String>) -> (r: String)
    ensures
        r@ == name_or_dash(*o),
{
    match o {
        Some(n) => n.clone(),
        None => "-".to_owned(),
    }
}

/// The row naming a data operation and leading to it, by its display name
/// when it has one.
pub open spec fn dop_row(d: DopRef) -> RowV {
    let nav = if d.display_name@.len() == 0 {
        d.name@
    } else {
        d.display_name@
    };
    property_row(
        "DOP"@,
        CellV {
            text: nav,
            cell_type: CellType::DopReference,
            jump_target: Some(JumpV::Dop { index: usize::MAX, name: nav }),
        },
    )
}

pub fn dop_kv_row(d: &DopRef) -> (r: DetailRow)
    ensures
        r@ == dop_row(*d),
{
    let nav = if d.display_name.as_str().is_empty() {
        d.name.clone()
    } else {
        d.display_name.clone()
    };
    let cell = DetailCell::new(nav.as_str(), CellType::DopReference).with_jump(
        CellJumpTarget::new(CellJumpTargetType::Dop { index: usize::MAX, name: nav }),
    );
    property_row_with("DOP", cell)
}

/// The rows describing a coded type.
pub open spec fn coded_type_rows(t: CodedTypeInfo) -> Seq<RowV> {
    seq![prop("DCT Type"@, t.dct_type@, CellType::Text)] + (match t.base_type_encoding {
        Some(e) => seq![prop("Base Type Encoding"@, e@, CellType::Text)],
        None => Seq::empty(),
    }) + seq![
        prop("Base Data Type"@, t.base_data_type@, CellType::Text),
        prop("High-Low Byte Order"@, bool_text(t.high_low_byte_order), CellType::Text),
        prop("Length Type"@, t.length_type@, CellType::Text),
    ] + match t.length {
        LengthInfo::Standard { bit_length, bit_mask, condensed } => seq![
            prop("Bit Length"@, decimal(bit_length as nat), CellType::NumericValue),
            prop(
                "Bit Mask"@,
                match bit_mask {
                    Some(m) => m@,
                    None => "None"@,
                },
                CellType::Text,
            ),
            prop("Condensed"@, bool_text(condensed), CellType::Text),
        ],
        LengthInfo::MinMax { min_length, max_length, termination } => seq![
            prop("Min Length"@, decimal(min_length as nat), CellType::NumericValue),
            prop(
                "Max Length"@,
                match max_length {
                    Some(v) => decimal(v as nat),
                    None => "None"@,
                },
                CellType::NumericValue,
            ),
            prop("Termination"@, termination@, CellType::Text),
        ],
        LengthInfo::LeadingLength { bit_length } => seq![
            prop("Bit Length"@, decimal(bit_length as nat), CellType::NumericValue),
        ],
        LengthInfo::ParamLength { length_key } => seq![
            prop("Length Key Param"@, name_or_dash(length_key), CellType::Text),
        ],
        LengthInfo::Unspecified => Seq::empty(),
    }
}

fn append_coded_type_rows(t: &CodedTypeInfo, rows: &mut Vec<DetailRow>)
    ensures
        rows_view(final(rows)@) == rows_view(old(rows)@) + coded_type_rows(*t),
{
    let ghost start = rows_view(rows@);
    push_row(rows, prop_row("DCT Type", t.dct_type.as_str(), CellType::Text));
    match &t.base_type_encoding {
        Some(e) => push_row(rows, prop_row("Base Type Encoding", e.as_str(), CellType::Text)),
        None => {},
    }
    push_row(rows, prop_row("Base Data Type", t.base_data_type.as_str(), CellType::Text));
    push_row(rows, prop_row("High-Low Byte Order", bool_str(t.high_low_byte_order), CellType::Text));
    push_row(rows, prop_row("Length Type", t.length_type.as_str(), CellType::Text));
    let ghost mid = rows_view(rows@);
    assert(mid =~= start + coded_type_rows(*t).subrange(0, mid.len() - start.len()));
    match &t.length {
        LengthInfo::Standard { bit_length, bit_mask, condensed } => {
            push_row(rows, prop_row("Bit Length", u64_to_decimal(*bit_length as u64).as_str(), CellType::NumericValue));
            let mask = match bit_mask {
                Some(m) => m.clone(),
                None => "None".to_owned(),
            };
            push_row(rows, prop_row("Bit Mask", mask.as_str(), CellType::Text));
            push_row(rows, prop_row("Condensed", bool_str(*condensed), CellType::Text));
        },
        LengthInfo::MinMax { min_length, max_length, termination } => {
            push_row(rows, prop_row("Min Length", u64_to_decimal(*min_length as u64).as_str(), CellType::NumericValue));
            let max = match max_length {
                Some(v) => u64_to_decimal(*v as u64),
                None => "None".to_owned(),
            };
            push_row(rows, prop_row("Max Length", max.as_str(), CellType::NumericValue));
            push_row(rows, prop_row("Termination", termination.as_str(), CellType::Text));
        },
        LengthInfo::LeadingLength { bit_length } => {
            push_row(rows, prop_row("Bit Length", u64_to_decimal(*bit_length as u64).as_str(), CellType::NumericValue));
        },
        LengthInfo::ParamLength { length_key } => {
            push_row(rows, prop_row("Length Key Param", name_or_dash_exec(length_key).as_str(), CellType::Text));
        },
        LengthInfo::Unspecified => {},
    }
    assert(rows_view(rows@) =~= start + coded_type_rows(*t));
}

/// A property row when the value is present.
pub open spec fn opt_prop(key: Seq<char>, value: Option<String>, cell_type: CellType) -> Seq<RowV> {
    match value {
        Some(v) => seq![prop(key, v@, cell_type)],
        None => Seq::empty(),
    }
}

/// The coded-type rows when there is a coded type.
pub open spec fn opt_coded_type_rows(t: Option<CodedTypeInfo>) -> Seq<RowV> {
    match t {
        Some(t) => coded_type_rows(t),
        None => Seq::empty(),
    }
}

/// The rows of a data-operation reference when there is one.
pub open spec fn opt_dop_row(d: Option<DopRef>) -> Seq<RowV> {
    match d {
        Some(d) => seq![dop_row(d)],
        None => Seq::empty(),
    }
}

/// The rows of the kind-specific data.
pub open spec fn specific_rows(s: SpecificData) -> Seq<RowV> {
    match s {
        SpecificData::CodedConst { coded_value, coded_type } => (match coded_value {
            Some(v) => seq![prop("Coded Value"@, v@, CellType::Text)],
            None => Seq::empty(),
        }) + opt_coded_type_rows(coded_type),
        SpecificData::NrcConst { coded_values, coded_type } => (match coded_values {
            Some(vs) => seq![prop("Coded Values"@, join(strings_view(vs@), ", "@), CellType::Text)],
            None => Seq::empty(),
        }) + opt_coded_type_rows(coded_type),
        SpecificData::MatchingRequestParam { request_byte_pos, byte_length } => seq![
            prop("Request Byte Pos"@, signed_decimal(request_byte_pos as int), CellType::NumericValue),
            prop("Byte Length"@, decimal(byte_length as nat), CellType::NumericValue),
        ],
        SpecificData::PhysConst { value, dop } => (match value {
            Some(v) => seq![prop("Phys Constant Value"@, v@, CellType::Text)],
            None => Seq::empty(),
        }) + opt_dop_row(dop),
        SpecificData::Reserved { bit_length } => seq![
            prop("Bit Length"@, decimal(bit_length as nat), CellType::NumericValue),
        ],
        SpecificData::System { sys_param, dop } => (match sys_param {
            Some(v) => seq![prop("Sys Param"@, v@, CellType::Text)],
            None => Seq::empty(),
        }) + opt_dop_row(dop),
        SpecificData::LengthKeyRef { dop } => opt_dop_row(dop),
        SpecificData::TableEntry { target, param, table_row } => seq![prop("Target"@, target@, CellType::Text)]
            + (match param {
            Some(p) => seq![prop("Entry Param"@, name_or_dash(p), CellType::Text)],
            None => Seq::empty(),
        }) + (match table_row {
            Some(t) => seq![prop("Table Row"@, t@, CellType::Text)],
            None => Seq::empty(),
        }),
        SpecificData::TableStruct { table_key } => match table_key {
            Some(k) => seq![prop("Table Key Param"@, name_or_dash(k), CellType::Text)],
            None => Seq::empty(),
        },
        SpecificData::Other => Seq::empty(),
    }
}

fn push_opt_dop_row(rows: &mut Vec<DetailRow>, dop: &Option<DopRef>)
    ensures
        rows_view(final(rows)@) == rows_view(old(rows)@) + opt_dop_row(*dop),
{
    match dop {
        Some(d) => push_row(rows, dop_kv_row(d)),
        None => {},
    }
    assert(rows_view(rows@) =~= rows_view(old(rows)@) + opt_dop_row(*dop));
}

fn push_opt_prop(rows: &mut Vec<DetailRow>, key: &str, value: &Option<String>, cell_type: CellType)
    ensures
        rows_view(final(rows)@) == rows_view(old(rows)@) + opt_prop(key@, *value, cell_type),
{
    match value {
        Some(v) => push_row(rows, prop_row(key, v.as_str(), cell_type)),
        None => {},
    }
    assert(rows_view(rows@) =~= rows_view(old(rows)@) + opt_prop(key@, *value, cell_type));
}

fn push_opt_coded_type(rows: &mut Vec<DetailRow>, t: &Option<CodedTypeInfo>)
    ensures
        rows_view(final(rows)@) == rows_view(old(rows)@) + opt_coded_type_rows(*t),
{
    match t {
        Some(t) => append_coded_type_rows(t, rows),
        None => {},
    }
    assert(rows_view(rows@) =~= rows_view(old(rows)@) + opt_coded_type_rows(*t));
}

pub fn build_specific_data_rows(s: &SpecificData) -> (r: Vec<DetailRow>)
    ensures
        rows_view(r@) == specific_rows(*s),
{
    let mut rows: Vec<DetailRow> = Vec::new();
    assert(rows_view(rows@) =~= Seq::<RowV>::empty());
    match s {
        SpecificData::CodedConst { coded_value, coded_type } => {
            push_opt_prop(&mut rows, "Coded Value", coded_value, CellType::Text);
            push_opt_coded_type(&mut rows, coded_type);
        },
        SpecificData::NrcConst { coded_values, coded_type } => {
            match coded_values {
                Some(vs) => push_row(&mut rows, prop_row("Coded Values", join_strings(vs, ", ").as_str(), CellType::Text)),
                None => {},
            }
            push_opt_coded_type(&mut rows, coded_type);
        },
        SpecificData::MatchingRequestParam { request_byte_pos, byte_length } => {
            push_row(&mut rows, prop_row("Request Byte Pos", i64_to_decimal(*request_byte_pos).as_str(), CellType::NumericValue));
            push_row(&mut rows, prop_row("Byte Length", u64_to_decimal(*byte_length as u64).as_str(), CellType::NumericValue));
        },
        SpecificData::PhysConst { value, dop } => {
            push_opt_prop(&mut rows, "Phys Constant Value", value, CellType::Text);
            push_opt_dop_row(&mut rows, dop);
        },
        SpecificData::Reserved { bit_length } => {
            push_row(&mut rows, prop_row("Bit Length", u64_to_decimal(*bit_length as u64).as_str(), CellType::NumericValue));
        },
        SpecificData::System { sys_param, dop } => {
            push_opt_prop(&mut rows, "Sys Param", sys_param, CellType::Text);
            push_opt_dop_row(&mut rows, dop);
        },
        SpecificData::LengthKeyRef { dop } => {
            push_opt_dop_row(&mut rows, dop);
        },
        SpecificData::TableEntry { target, param, table_row } => {
            push_row(&mut rows, prop_row("Target", target.as_str(), CellType::Text));
            match param {
                Some(p) => push_row(&mut rows, prop_row("Entry Param", name_or_dash_exec(p).as_str(), CellType::Text)),
                None => {},
            }
            push_opt_prop(&mut rows, "Table Row", table_row, CellType::Text);
        },
        SpecificData::TableStruct { table_key } => {
            match table_key {
                Some(k) => push_row(&mut rows, prop_row("Table Key Param", name_or_dash_exec(k).as_str(), CellType::Text)),
                None => {},
            }
        },
        SpecificData::Other => {},
    }
    assert(rows_view(rows@) =~= specific_rows(*s));
    rows
}

/// The text of the bit position: `unset` for the marker value.
pub open spec fn bit_pos_text(bit_pos: u32) -> Seq<char> {
    if bit_pos == BIT_POSITION_UNSET {
        "unset"@
    } else {
        decimal(bit_pos as nat)
    }
}

/// The properties of a parameter.
pub open spec fn param_overview_rows(p: ParamDetail) -> Seq<RowV> {
    seq![prop("ID"@, decimal(p.id as nat), CellType::NumericValue)]
        + opt_prop("Short Name"@, p.short_name, CellType::Text)
        + opt_prop("Type"@, p.type_label, CellType::Text)
        + opt_prop("Semantic"@, p.semantic, CellType::Text)
        + seq![prop("Byte Position"@, decimal(p.byte_pos as nat), CellType::NumericValue)]
        + seq![prop("Bit Position"@, bit_pos_text(p.bit_pos), CellType::NumericValue)]
        + opt_prop("Physical Default Value"@, p.physical_default_value, CellType::Text)
        + opt_row(p.coded_value@.len() > 0, prop("Coded Value"@, p.coded_value@, CellType::NumericValue))
        + opt_row(p.dop.name@.len() > 0, dop_row(p.dop))
}

/// The detail of a parameter: a header naming it, its properties, and its
/// kind-specific data when there is any.
pub open spec fn param_detail(p: ParamDetail) -> Seq<SectionV> {
    let header = SectionV {
        title: "Parameter - "@ + match p.short_name {
            Some(n) => n@,
            None => "?"@,
        },
        content: ContentV::PlainText(Seq::empty()),
        render_as_header: true,
        section_type: DetailSectionType::Header,
        byte_pattern_rows: None,
    };
    let overview = property_table("Overview"@, param_overview_rows(p), DetailSectionType::Overview);
    let specific = specific_rows(p.specific);
    seq![header, overview] + if specific.len() == 0 {
        Seq::empty()
    } else {
        seq![
            property_table(
                match p.type_label {
                    Some(t) => t@,
                    None => "Specific Data"@,
                },
                specific,
                DetailSectionType::Custom,
            ),
        ]
    }
}

fn build_param_overview_rows(p: &ParamDetail) -> (rows: Vec<DetailRow>)
    ensures
        rows_view(rows@) == param_overview_rows(*p),
{
    let mut rows: Vec<DetailRow> = Vec::new();
    assert(rows_view(rows@) =~= Seq::<RowV>::empty());
    push_row(&mut rows, prop_row("ID", u64_to_decimal(p.id as u64).as_str(), CellType::NumericValue));
    let ghost acc = seq![prop("ID"@, decimal(p.id as nat), CellType::NumericValue)];
    assert(rows_view(rows@) =~= acc);
    push_opt_prop(&mut rows, "Short Name", &p.short_name, CellType::Text);
    let ghost acc = acc + opt_prop("Short Name"@, p.short_name, CellType::Text);
    push_opt_prop(&mut rows, "Type", &p.type_label, CellType::Text);
    let ghost acc = acc + opt_prop("Type"@, p.type_label, CellType::Text);
    push_opt_prop(&mut rows, "Semantic", &p.semantic, CellType::Text);
    let ghost acc = acc + opt_prop("Semantic"@, p.semantic, CellType::Text);
    assert(rows_view(rows@) == acc);
    push_row(&mut rows, prop_row("Byte Position", u64_to_decimal(p.byte_pos as u64).as_str(), CellType::NumericValue));
    let ghost acc2 = acc + seq![prop("Byte Position"@, decimal(p.byte_pos as nat), CellType::NumericValue)];
    assert(rows_view(rows@) =~= acc2);
    let bit_text = if p.bit_pos == BIT_POSITION_UNSET {
        "unset".to_owned()
    } else {
        u64_to_decimal(p.bit_pos as u64)
    };
    push_row(&mut rows, prop_row("Bit Position", bit_text.as_str(), CellType::NumericValue));
    let ghost acc3 = acc2 + seq![prop("Bit Position"@, bit_pos_text(p.bit_pos), CellType::NumericValue)];
    assert(rows_view(rows@) =~= acc3);
    push_opt_prop(&mut rows, "Physical Default Value", &p.physical_default_value, CellType::Text);
    let ghost acc4 = acc3 + opt_prop("Physical Default Value"@, p.physical_default_value, CellType::Text);
    if !p.coded_value.as_str().is_empty() {
        push_row(&mut rows, prop_row("Coded Value", p.coded_value.as_str(), CellType::NumericValue));
    }
    let ghost acc5 = acc4 + opt_row(p.coded_value@.len() > 0, prop("Coded Value"@, p.coded_value@, CellType::NumericValue));
    assert(rows_view(rows@) =~= acc5);
    if !p.dop.name.as_str().is_empty() {
        push_row(&mut rows, dop_kv_row(&p.dop));
    }
    assert(rows_view(rows@) =~= acc5 + opt_row(p.dop.name@.len() > 0, dop_row(p.dop)));
    rows
}

pub fn build_param_detail_sections(p: &ParamDetail) -> (r: Vec<DetailSectionData>)
    ensures
        sections_view(r@) == param_detail(*p),
{
    let mut title = "Parameter - ".to_owned();
    match &p.short_name {
        Some(n) => title.append(n.as_str()),
        None => title.append("?"),
    }
    let lines: Vec<String> = Vec::new();
    assert(strings_view(lines@) =~= Seq::<Seq<char>>::empty());
    let header = DetailSectionData {
        title,
        render_as_header: true,
        section_type: DetailSectionType::Header,
        content: DetailContent::PlainText(lines),
        byte_pattern_rows: None,
    };
    let rows = build_param_overview_rows(p);
    let overview = build_property_table("Overview".to_owned(), rows, DetailSectionType::Overview);
    let mut sections: Vec<DetailSectionData> = Vec::new();
    sections.push(header);
    sections.push(overview);
    let specific = build_specific_data_rows(&p.specific);
    if specific.len() > 0 {
        let title = match &p.type_label {
            Some(t) => t.clone(),
            None => "Specific Data".to_owned(),
        };
        sections.push(build_property_table(title, specific, DetailSectionType::Custom));
    }
    assert(sections_view(sections@) =~= param_detail(*p));
    sections
}

} // verus!
