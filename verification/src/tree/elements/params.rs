//! The parameter table of a request or response: one row per parameter with
//! its position, length, value, data operation and semantic.
use vstd::prelude::*;
use crate::text::{decimal, u64_to_decimal};
use crate::tree::types::{
    cells_view, rows_view, CellJumpTarget, ContentV, SectionV, CellJumpTargetType, CellType, CellV, ColumnConstraint,
    DetailCell, DetailContent, DetailRow, DetailRowType, DetailSectionData, DetailSectionType, JumpV,
    MetadataV, RowMetadata, RowV, BIT_POSITION_UNSET,
};
use crate::uds::byte_pattern::{build_byte_pattern_rows, layout_rows, ByteField};
use crate::sort::is_stable_sort_of;

verus! {

broadcast use vstd::std_specs::vec::group_vec_axioms;

/// What the parameter table shows of one parameter.
#[derive(Clone, Debug)]
pub struct ParamInfo {
    pub name: String,
    pub byte_pos: u32,
    pub bit_pos: u32,
    pub bit_len: Option<u32>,
    pub value: String,
    pub dop_name: String,
    pub dop_badge: String,
    pub semantic: String,
    pub param_id: u32,
}

/// `a + b`, or `u32::MAX` when that does not fit.
pub open spec fn sat_add(a: u32, b: u32) -> u32 {
    if a + b > u32::MAX {
        u32::MAX
    } else {
        (a + b) as u32
    }
}

/// `a - b`, or zero when `b` is larger.
pub open spec fn sat_sub(a: u32, b: u32) -> u32 {
    if a < b {
        0
    } else {
        (a - b) as u32
    }
}

/// The byte length column: whole bytes covered from the start bit when the
/// bit length is known, else the distance to the next parameter, else `-`.
pub open spec fn byte_len_text(info: ParamInfo, next: Option<ParamInfo>) -> Seq<char> {
    match info.bit_len {
        Some(bl) => {
            let start: u32 = if info.bit_pos == BIT_POSITION_UNSET {
                0
            } else {
                info.bit_pos
            };
            decimal((sat_add(sat_add(start, bl), 7) / 8) as nat)
        },
        None => match next {
            Some(n) => decimal(sat_sub(n.byte_pos, info.byte_pos) as nat),
            None => "-"@,
        },
    }
}

pub fn param_byte_len_text(info: &ParamInfo, next: Option<&ParamInfo>) -> (r: String)
    ensures
        r@ == byte_len_text(*info, match next {
            Some(n) => Some(*n),
            None => None,
        }),
{
    match info.bit_len {
        Some(bl) => {
            let start: u32 = if info.bit_pos == BIT_POSITION_UNSET {
                0
            } else {
                info.bit_pos
            };
            let bytes: u32 = start.saturating_add(bl).saturating_add(7) / 8;
            u64_to_decimal(bytes as u64)
        },
        None => match next {
            Some(n) => u64_to_decimal(n.byte_pos.saturating_sub(info.byte_pos) as u64),
            None => "-".to_owned(),
        },
    }
}

/// The data operation cell: the badge and name leading to the operation, or
/// plain (empty) text when the parameter has none.
pub open spec fn dop_cell(info: ParamInfo) -> CellV {
    if info.dop_name@.len() > 0 {
        CellV {
            text: info.dop_badge@ + info.dop_name@,
            cell_type: CellType::DopReference,
            jump_target: Some(JumpV::Dop { index: usize::MAX, name: info.dop_name@ }),
        }
    } else {
        CellV { text: info.dop_name@, cell_type: CellType::Text, jump_target: None }
    }
}

/// The row of parameter `idx` of `infos`.
pub open spec fn param_row(infos: Seq<ParamInfo>, idx: int) -> RowV {
    let info = infos[idx];
    let next = if idx < infos.len() - 1 {
        Some(infos[idx + 1])
    } else {
        None
    };
    RowV {
        cells: seq![
            CellV {
                text: info.name@,
                cell_type: CellType::ParameterName,
                jump_target: Some(JumpV::Parameter { param_id: info.param_id }),
            },
            CellV { text: decimal(info.byte_pos as nat), cell_type: CellType::NumericValue, jump_target: None },
            CellV { text: decimal(info.bit_pos as nat), cell_type: CellType::NumericValue, jump_target: None },
            CellV {
                text: match info.bit_len {
                    Some(bl) => decimal(bl as nat),
                    None => "-"@,
                },
                cell_type: CellType::NumericValue,
                jump_target: None,
            },
            CellV { text: byte_len_text(info, next), cell_type: CellType::NumericValue, jump_target: None },
            CellV { text: info.value@, cell_type: CellType::NumericValue, jump_target: None },
            dop_cell(info),
            CellV { text: info.semantic@, cell_type: CellType::Text, jump_target: None },
        ],
        indent: 0,
        row_type: DetailRowType::Normal,
        metadata: Some(MetadataV::ParameterRow { param_id: info.param_id }),
        diff_status: None,
    }
}

fn build_param_row(infos: &Vec<ParamInfo>, idx: usize) -> (r: DetailRow)
    requires
        idx < infos@.len(),
    ensures
        r@ == param_row(infos@, idx as int),
{
    let info = &infos[idx];
    let has_dop = !info.dop_name.as_str().is_empty();
    let dop_cell = if has_dop {
        let mut text = info.dop_badge.clone();
        text.append(info.dop_name.as_str());
        DetailCell::new(text.as_str(), CellType::DopReference).with_jump(
            CellJumpTarget::new(CellJumpTargetType::Dop { index: usize::MAX, name: info.dop_name.clone() }),
        )
    } else {
        DetailCell::text(info.dop_name.as_str())
    };
    let bit_len_text = match info.bit_len {
        Some(bl) => u64_to_decimal(bl as u64),
        None => "-".to_owned(),
    };
    let next = if idx < infos.len() - 1 {
        Some(&infos[idx + 1])
    } else {
        None
    };
    let byte_len_text = param_byte_len_text(info, next);
    let byte_text = u64_to_decimal(info.byte_pos as u64);
    let bit_text = u64_to_decimal(info.bit_pos as u64);
    let c0 = DetailCell::new(info.name.as_str(), CellType::ParameterName).with_jump(
        CellJumpTarget::new(CellJumpTargetType::Parameter { param_id: info.param_id }),
    );
    let c1 = DetailCell::new(byte_text.as_str(), CellType::NumericValue);
    let c2 = DetailCell::new(bit_text.as_str(), CellType::NumericValue);
    let c3 = DetailCell::new(bit_len_text.as_str(), CellType::NumericValue);
    let c4 = DetailCell::new(byte_len_text.as_str(), CellType::NumericValue);
    let c5 = DetailCell::new(info.value.as_str(), CellType::NumericValue);
    let c7 = DetailCell::text(info.semantic.as_str());
    let mut row = DetailRow::normal(vec![c0, c1, c2, c3, c4, c5, dop_cell, c7], 0);
    row.metadata = Some(RowMetadata::ParameterRow { param_id: info.param_id });
    proof {
        assert(cells_view(row.cells@) =~= param_row(infos@, idx as int).cells);
    }
    row
}

/// The header of a parameter table.
pub open spec fn param_table_header() -> RowV {
    RowV {
        cells: seq![
            CellV { text: "Short Name"@, cell_type: CellType::Text, jump_target: None },
            CellV { text: "Byte"@, cell_type: CellType::NumericValue, jump_target: None },
            CellV { text: "Bit"@, cell_type: CellType::NumericValue, jump_target: None },
            CellV { text: "Bit\nLen"@, cell_type: CellType::NumericValue, jump_target: None },
            CellV { text: "Byte\nLen"@, cell_type: CellType::NumericValue, jump_target: None },
            CellV { text: "Value"@, cell_type: CellType::Text, jump_target: None },
            CellV { text: "DOP"@, cell_type: CellType::Text, jump_target: None },
            CellV { text: "Semantic"@, cell_type: CellType::Text, jump_target: None },
        ],
        indent: 0,
        row_type: DetailRowType::Header,
        metadata: None,
        diff_status: None,
    }
}

/// A parameter table titled `title`: a row per parameter in the given
/// order, and the byte layout of `fields` (the same parameters) when there
/// are any.
pub open spec fn is_param_section(
    v: SectionV,
    title: Seq<char>,
    infos: Seq<ParamInfo>,
    fields: Seq<ByteField>,
    section_type: DetailSectionType,
) -> bool {
    &&& v.title == title
    &&& !v.render_as_header
    &&& v.section_type == section_type
    &&& fields.len() == 0 ==> v.byte_pattern_rows is None
    &&& fields.len() > 0 ==> (v.byte_pattern_rows matches Some(bp) && exists|perm: Seq<int>, sorted: Seq<ByteField>|
        is_stable_sort_of(sorted, fields, perm) && bp == layout_rows(sorted))
    &&& v.content == ContentV::Table {
        header: param_table_header(),
        rows: Seq::new(infos.len(), |i: int| param_row(infos, i)),
        constraints: seq![
            ColumnConstraint::Percentage(45),
            ColumnConstraint::Fixed(4),
            ColumnConstraint::Fixed(3),
            ColumnConstraint::Fixed(4),
            ColumnConstraint::Fixed(5),
            ColumnConstraint::Percentage(15),
            ColumnConstraint::Percentage(15),
            ColumnConstraint::Percentage(25),
        ],
        use_row_selection: false,
    }
}

/// The parameter table of a request or response.
pub fn build_param_section(
    title: &str,
    infos: Vec<ParamInfo>,
    fields: Vec<ByteField>,
    section_type: DetailSectionType,
) -> (r: DetailSectionData)
    ensures
        is_param_section(r@, title@, infos@, fields@, section_type),
{
    let byte_pattern_rows = if fields.len() == 0 {
        None
    } else {
        Some(build_byte_pattern_rows(fields))
    };
    let header = DetailRow::header(
        vec![
            DetailCell::text("Short Name"),
            DetailCell::new("Byte", CellType::NumericValue),
            DetailCell::new("Bit", CellType::NumericValue),
            DetailCell::new("Bit\nLen", CellType::NumericValue),
            DetailCell::new("Byte\nLen", CellType::NumericValue),
            DetailCell::text("Value"),
            DetailCell::text("DOP"),
            DetailCell::text("Semantic"),
        ],
    );
    proof {
        assert(cells_view(header.cells@) =~= param_table_header().cells);
    }
    let mut rows: Vec<DetailRow> = Vec::new();
    let mut i: usize = 0;
    while i < infos.len()
        invariant
            i <= infos@.len(),
            rows@.len() == i,
            forall|k: int| 0 <= k < i ==> (#[trigger] rows@[k])@ == param_row(infos@, k),
        decreases infos@.len() - i,
    {
        rows.push(build_param_row(&infos, i));
        i = i + 1;
    }
    assert(rows_view(rows@) =~= Seq::new(infos@.len(), |i: int| param_row(infos@, i)));
    let constraints = vec![
        ColumnConstraint::Percentage(45),
        ColumnConstraint::Fixed(4),
        ColumnConstraint::Fixed(3),
        ColumnConstraint::Fixed(4),
        ColumnConstraint::Fixed(5),
        ColumnConstraint::Percentage(15),
        ColumnConstraint::Percentage(15),
        ColumnConstraint::Percentage(25),
    ];
    let r = DetailSectionData {
        title: title.to_owned(),
        render_as_header: false,
        section_type,
        content: DetailContent::Table { header, rows, constraints, use_row_selection: false },
        byte_pattern_rows,
    };
    proof {
        if fields@.len() > 0 {
            let bp = r.byte_pattern_rows->Some_0;
            let (perm, sorted) = choose|perm: Seq<int>, sorted: Seq<ByteField>|
                is_stable_sort_of(sorted, fields@, perm) && rows_view(bp@) == layout_rows(sorted);
            assert(r@.byte_pattern_rows == Some(rows_view(bp@)));
        }
    }
    r
}

/// What a parameter holds of its constant: its kind (none when the database
/// gives an unknown one) and the coded value of a coded constant.
#[derive(Clone, Debug)]
pub struct CodedParam {
    pub param_type: Option<crate::tree::types::ParamType>,
    pub coded_value: Option<String>,
}

/// The number of hex digits a coded value is shown with: the fewest of 2, 4,
/// 6, 8 and 16 that hold it.
pub open spec fn coded_width(n: u64) -> nat {
    if n <= 0xFF {
        2
    } else if n <= 0xFFFF {
        4
    } else if n <= 0xFF_FFFF {
        6
    } else if n <= 0xFFFF_FFFF {
        8
    } else {
        16
    }
}

/// A coded value as shown: a decimal number as `0x` and upper-case hex
/// digits, padded to [`coded_width`]; any other text as it is.
pub open spec fn coded_value_text(v: Seq<char>) -> Seq<char> {
    match crate::tree::rows::parse_u64(v) {
        Some(n) => "0x"@ + crate::text::pad_left(crate::text::hex(n as nat), '0', coded_width(n)),
        None => v,
    }
}

/// The coded value of a coded-constant parameter as hex; empty for any
/// other parameter or when it has no coded value.
pub open spec fn coded_value_of(p: CodedParam) -> Seq<char> {
    if p.param_type == Some(crate::tree::types::ParamType::CodedConst) {
        match p.coded_value {
            Some(v) => coded_value_text(v@),
            None => Seq::empty(),
        }
    } else {
        Seq::empty()
    }
}

/// Extract the hex-formatted coded value from a `CodedConst` parameter.
pub fn extract_coded_value(param: &CodedParam) -> (r: String)
    ensures
        r@ == coded_value_of(*param),
{
    match param.param_type {
        Some(crate::tree::types::ParamType::CodedConst) => {},
        _ => {
            return String::new();
        },
    }
    let v = match &param.coded_value {
        Some(v) => v,
        None => {
            return String::new();
        },
    };
    match crate::tree::rows::parse_u64_exec(v.as_str()) {
        Some(num) => {
            let width: usize = if num <= 0xFF {
                2
            } else if num <= 0xFFFF {
                4
            } else if num <= 0xFF_FFFF {
                6
            } else if num <= 0xFFFF_FFFF {
                8
            } else {
                16
            };
            let mut r = "0x".to_owned();
            r.append(crate::text::hex_padded(num, width).as_str());
            r
        },
        None => v.clone(),
    }
}

} // verus!
