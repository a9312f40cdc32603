//! Overview tables of the variant, functional group, shared data and
//! protocol lists, and the hex form of an expected identification value.
use vstd::prelude::*;
use crate::text::{hex, pad_left};
use crate::tree::elements::service_details::text_header;
use crate::tree::elements::services::{index_jump_cell, index_jump_cell_exec};
use crate::tree::elements::{plain_cell, plain_row};
use crate::tree::rows::{parse_u64, parse_u64_exec};
use crate::tree::types::{
    cells_view, rows_view, sections_view, CellJumpTarget, CellJumpTargetType, CellType, CellV, ColumnConstraint,
    ContentV, DetailCell, DetailContent, DetailRow, DetailRowType, DetailSectionData, DetailSectionType, JumpV,
    RowV, SectionV,
};
use vstd::hash_map::StringHashMap;

verus! {

broadcast use vstd::std_specs::vec::group_vec_axioms;

/// The number of hex digits an expected value is shown with: the fewest of
/// 2, 4, 8 and 16 that hold it.
pub open spec fn expected_width(n: u64) -> nat {
    if n <= 0xFF {
        2
    } else if n <= 0xFFFF {
        4
    } else if n <= 0xFFFF_FFFF {
        8
    } else {
        16
    }
}

/// An expected value as shown: a decimal number as `0x` and upper-case hex
/// digits padded to [`expected_width`]; any other text as it is.
pub open spec fn expected_value_hex(raw: Seq<char>) -> Seq<char> {
    match parse_u64(raw) {
        Some(n) => "0x"@ + pad_left(hex(n as nat), '0', expected_width(n)),
        None => raw,
    }
}

/// The hex form of an expected value stored as a decimal string.
pub fn format_expected_value_as_hex(raw: &str) -> (r: String)
    ensures
        r@ == expected_value_hex(raw@),
{
    match parse_u64_exec(raw) {
        Some(n) => {
            let width: usize = if n <= 0xFF {
                2
            } else if n <= 0xFFFF {
                4
            } else if n <= 0xFFFF_FFFF {
                8
            } else {
                16
            };
            let mut r = "0x".to_owned();
            r.append(crate::text::hex_padded(n, width).as_str());
            r
        },
        None => raw.to_owned(),
    }
}

/// A variant of the database: its layer's short name (when it has one) and
/// whether it is the base variant.
#[derive(Clone, Debug)]
pub struct VariantSummary {
    pub short_name: Option<String>,
    pub is_base: bool,
}

/// The name a variant is listed under (`unnamed` when it has none).
pub open spec fn variant_name(v: VariantSummary) -> Seq<char> {
    match v.short_name {
        Some(n) => n@,
        None => "unnamed"@,
    }
}

/// The overview row of a variant: its name leading to its node, and
/// whether it is the base variant.
pub open spec fn variant_row(v: VariantSummary) -> RowV {
    plain_row(
        seq![
            CellV {
                text: variant_name(v),
                cell_type: CellType::ParameterName,
                jump_target: Some(JumpV::TreeNodeByIndex { index: usize::MAX, short_name: variant_name(v) }),
            },
            plain_cell(
                if v.is_base {
                    "Yes"@
                } else {
                    "No"@
                },
                CellType::Text,
            ),
        ],
        DetailRowType::Normal,
    )
}

/// The overview of the Variants header; no tab without variants.
pub open spec fn variants_overview(vs: Seq<VariantSummary>) -> Seq<SectionV> {
    if vs.len() == 0 {
        Seq::empty()
    } else {
        seq![
            SectionV {
                title: "Variants Overview"@,
                content: ContentV::Table {
                    header: text_header(seq!["Name"@, "Is Base"@]),
                    rows: Seq::new(vs.len(), |k: int| variant_row(vs[k])),
                    constraints: seq![ColumnConstraint::Percentage(70), ColumnConstraint::Percentage(30)],
                    use_row_selection: true,
                },
                render_as_header: false,
                section_type: DetailSectionType::Overview,
                byte_pattern_rows: None,
            },
        ]
    }
}

pub fn build_variants_overview_table(variants: &[VariantSummary]) -> (r: Vec<DetailSectionData>)
    ensures
        sections_view(r@) == variants_overview(variants@),
{
    if variants.len() == 0 {
        let r: Vec<DetailSectionData> = Vec::new();
        assert(sections_view(r@) =~= Seq::<SectionV>::empty());
        return r;
    }
    let header = DetailRow::header(vec![DetailCell::text("Name"), DetailCell::text("Is Base")]);
    proof {
        assert(cells_view(header.cells@) =~= text_header(seq!["Name"@, "Is Base"@]).cells);
    }
    let mut rows: Vec<DetailRow> = Vec::new();
    let mut i: usize = 0;
    while i < variants.len()
        invariant
            i <= variants@.len(),
            rows@.len() == i,
            forall|k: int| 0 <= k < i ==> (#[trigger] rows@[k])@ == variant_row(variants@[k]),
        decreases variants@.len() - i,
    {
        let v = &variants[i];
        let name = match &v.short_name {
            Some(n) => n.clone(),
            None => "unnamed".to_owned(),
        };
        let flag = if v.is_base {
            "Yes"
        } else {
            "No"
        };
        let cells = vec![
            DetailCell::new(name.as_str(), CellType::ParameterName).with_jump(
                CellJumpTarget::new(CellJumpTargetType::TreeNodeByIndex { index: usize::MAX, short_name: name.clone() }),
            ),
            DetailCell::text(flag),
        ];
        proof {
            assert(cells_view(cells@) =~= variant_row(*v).cells);
        }
        rows.push(DetailRow::normal(cells, 0));
        i = i + 1;
    }
    proof {
        assert(rows_view(rows@) =~= Seq::new(variants@.len(), |k: int| variant_row(variants@[k])));
    }
    let constraints = vec![ColumnConstraint::Percentage(70), ColumnConstraint::Percentage(30)];
    assert(constraints@ =~= seq![ColumnConstraint::Percentage(70), ColumnConstraint::Percentage(30)]);
    let s = DetailSectionData {
        title: "Variants Overview".to_owned(),
        render_as_header: false,
        section_type: DetailSectionType::Overview,
        content: DetailContent::Table { header, rows, constraints, use_row_selection: true },
        byte_pattern_rows: None,
    };
    let ghost sv = s@;
    let r = vec![s];
    assert(sections_view(r@) =~= seq![sv]);
    r
}

/// A table of names, each leading to its node; no tab without names.
pub open spec fn names_overview(names: Seq<String>, title: Seq<char>, m: Map<Seq<char>, usize>) -> Seq<SectionV> {
    if names.len() == 0 {
        Seq::empty()
    } else {
        seq![
            SectionV {
                title,
                content: ContentV::Table {
                    header: text_header(seq!["Short Name"@]),
                    rows: Seq::new(
                        names.len(),
                        |k: int| plain_row(seq![index_jump_cell(names[k]@, m)], DetailRowType::Normal),
                    ),
                    constraints: seq![ColumnConstraint::Percentage(100)],
                    use_row_selection: true,
                },
                render_as_header: false,
                section_type: DetailSectionType::Overview,
                byte_pattern_rows: None,
            },
        ]
    }
}

/// The overview of the Functional Groups, ECU Shared Data and Protocols
/// headers.
pub fn build_names_overview_table(names: &[String], title: &str, node_indices: &StringHashMap<usize>) -> (r: Vec<
    DetailSectionData,
>)
    ensures
        sections_view(r@) == names_overview(names@, title@, node_indices@),
{
    if names.len() == 0 {
        let r: Vec<DetailSectionData> = Vec::new();
        assert(sections_view(r@) =~= Seq::<SectionV>::empty());
        return r;
    }
    let header = DetailRow::header(vec![DetailCell::text("Short Name")]);
    proof {
        assert(cells_view(header.cells@) =~= text_header(seq!["Short Name"@]).cells);
    }
    let mut rows: Vec<DetailRow> = Vec::new();
    let mut i: usize = 0;
    while i < names.len()
        invariant
            i <= names@.len(),
            rows@.len() == i,
            forall|k: int|
                0 <= k < i ==> (#[trigger] rows@[k])@ == plain_row(
                    seq![index_jump_cell(names@[k]@, node_indices@)],
                    DetailRowType::Normal,
                ),
        decreases names@.len() - i,
    {
        let cells = vec![index_jump_cell_exec(names[i].as_str(), node_indices)];
        proof {
            assert(cells_view(cells@) =~= seq![index_jump_cell(names@[i as int]@, node_indices@)]);
        }
        rows.push(DetailRow::normal(cells, 0));
        i = i + 1;
    }
    let constraints = vec![ColumnConstraint::Percentage(100)];
    assert(constraints@ =~= seq![ColumnConstraint::Percentage(100)]);
    let s = DetailSectionData {
        title: title.to_owned(),
        render_as_header: false,
        section_type: DetailSectionType::Overview,
        content: DetailContent::Table { header, rows, constraints, use_row_selection: true },
        byte_pattern_rows: None,
    };
    proof {
        assert(rows_view(rows@) =~= names_overview(names@, title@, node_indices@)[0].content->Table_rows);
    }
    let ghost sv = s@;
    let r = vec![s];
    assert(sections_view(r@) =~= seq![sv]);
    r
}

} // verus!
