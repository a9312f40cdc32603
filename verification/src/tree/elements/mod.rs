//! Detail sections and subtrees of the elements of a diagnostic layer, built
//! from plain descriptions of what the database holds.
use vstd::prelude::*;
use crate::tree::types::{
    cells_view, rows_view, CellType, CellV, ColumnConstraint, ContentV, DetailCell, DetailContent,
    DetailRow, DetailRowType, DetailSectionData, DetailSectionType, RowV, SectionV,
};

pub mod com_params;
pub mod diag_comms;
pub mod functional_classes;
pub mod normal_dops;
pub mod param_detail;
pub mod params;
pub mod parent_refs;
pub mod parent_services;
pub mod service_details;
pub mod service_lists;
pub mod services;
pub mod state_charts;
pub mod structures;
pub mod tables;
pub mod variants;

verus! {

broadcast use vstd::std_specs::vec::group_vec_axioms;

/// A cell of text of the given type that leads nowhere.
pub open spec fn plain_cell(text: Seq<char>, cell_type: CellType) -> CellV {
    CellV { text, cell_type, jump_target: None }
}

/// An unindented row of the given cells with no metadata.
pub open spec fn plain_row(cells: Seq<CellV>, row_type: DetailRowType) -> RowV {
    RowV { cells, indent: 0, row_type, metadata: None, diff_status: None }
}

/// A property / value row whose value cell is given.
pub open spec fn property_row(key: Seq<char>, value: CellV) -> RowV {
    plain_row(seq![plain_cell(key, CellType::Text), value], DetailRowType::Normal)
}

/// A property / value row whose value is text of the given type.
pub open spec fn prop(key: Seq<char>, value: Seq<char>, cell_type: CellType) -> RowV {
    property_row(key, plain_cell(value, cell_type))
}

/// One row when `c` holds, none otherwise.
pub open spec fn opt_row(c: bool, r: RowV) -> Seq<RowV> {
    if c {
        seq![r]
    } else {
        Seq::empty()
    }
}

/// The header of a property / value table.
pub open spec fn property_header() -> RowV {
    plain_row(
        seq![plain_cell("Property"@, CellType::Text), plain_cell("Value"@, CellType::Text)],
        DetailRowType::Header,
    )
}

/// A property / value table (40% / 60%).
pub open spec fn property_table_with(
    title: Seq<char>,
    rows: Seq<RowV>,
    section_type: DetailSectionType,
    use_row_selection: bool,
) -> SectionV {
    SectionV {
        title,
        content: ContentV::Table {
            header: property_header(),
            rows,
            constraints: seq![ColumnConstraint::Percentage(40), ColumnConstraint::Percentage(60)],
            use_row_selection,
        },
        render_as_header: false,
        section_type,
        byte_pattern_rows: None,
    }
}

/// A property / value table whose rows can be selected.
pub open spec fn property_table(title: Seq<char>, rows: Seq<RowV>, section_type: DetailSectionType) -> SectionV {
    property_table_with(title, rows, section_type, true)
}

pub fn prop_row(key: &str, value: &str, cell_type: CellType) -> (r: DetailRow)
    ensures
        r@ == prop(key@, value@, cell_type),
{
    property_row_with(key, DetailCell::new(value, cell_type))
}

pub fn property_row_with(key: &str, value: DetailCell) -> (r: DetailRow)
    ensures
        r@ == property_row(key@, value@),
{
    let cells = vec![DetailCell::text(key), value];
    proof {
        assert(cells_view(cells@) =~= seq![plain_cell(key@, CellType::Text), value@]);
    }
    DetailRow::normal(cells, 0)
}

pub fn push_row(rows: &mut Vec<DetailRow>, r: DetailRow)
    ensures
        rows_view(final(rows)@) == rows_view(old(rows)@).push(r@),
{
    rows.push(r);
    proof {
        assert(rows_view(rows@) =~= rows_view(old(rows)@).push(r@));
    }
}

pub fn build_property_table(title: String, rows: Vec<DetailRow>, section_type: DetailSectionType) -> (r:
    DetailSectionData)
    ensures
        r@ == property_table(title@, rows_view(rows@), section_type),
{
    build_property_table_with(title, rows, section_type, true)
}

pub fn build_property_table_with(
    title: String,
    rows: Vec<DetailRow>,
    section_type: DetailSectionType,
    use_row_selection: bool,
) -> (r: DetailSectionData)
    ensures
        r@ == property_table_with(title@, rows_view(rows@), section_type, use_row_selection),
{
    let header = DetailRow::header(vec![DetailCell::text("Property"), DetailCell::text("Value")]);
    proof {
        assert(cells_view(header.cells@) =~= property_header().cells);
    }
    let constraints = vec![ColumnConstraint::Percentage(40), ColumnConstraint::Percentage(60)];
    assert(constraints@ =~= seq![ColumnConstraint::Percentage(40), ColumnConstraint::Percentage(60)]);
    DetailSectionData {
        title,
        render_as_header: false,
        section_type,
        content: DetailContent::Table { header, rows, constraints, use_row_selection },
        byte_pattern_rows: None,
    }
}

} // verus!
