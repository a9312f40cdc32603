//! The parameter tab of a structure data operation.
use vstd::prelude::*;
use crate::text::{decimal, u64_to_decimal};
use crate::tree::elements::plain_cell;
use crate::tree::types::{
    cells_view, rows_view, strings_view, CellJumpTarget, CellJumpTargetType, CellType, CellV,
    ColumnConstraint, ContentV, DetailCell, DetailContent, DetailRow, DetailRowType, DetailSectionData,
    DetailSectionType, JumpV, MetadataV, RowMetadata, RowV, SectionV,
};

verus! {

broadcast use vstd::std_specs::vec::group_vec_axioms;

/// What the parameter tab of a structure shows of one parameter.
#[derive(Clone, Debug)]
pub struct StructureParam {
    pub name: String,
    pub byte_pos: u32,
    pub value: String,
    pub dop_name: String,
    pub semantic: String,
    pub param_id: u32,
}

/// The row of one structure parameter; bit and byte lengths are not shown.
pub open spec fn structure_param_row(p: StructureParam) -> RowV {
    RowV {
        cells: seq![
            CellV {
                text: p.name@,
                cell_type: CellType::ParameterName,
                jump_target: Some(JumpV::Parameter { param_id: p.param_id }),
            },
            plain_cell(decimal(p.byte_pos as nat), CellType::NumericValue),
            plain_cell("-"@, CellType::Text),
            plain_cell("-"@, CellType::Text),
            plain_cell(p.value@, CellType::NumericValue),
            if p.dop_name@.len() > 0 {
                CellV {
                    text: p.dop_name@,
                    cell_type: CellType::DopReference,
                    jump_target: Some(JumpV::Dop { index: usize::MAX, name: p.dop_name@ }),
                }
            } else {
                plain_cell(p.dop_name@, CellType::Text)
            },
            plain_cell(p.semantic@, CellType::Text),
        ],
        indent: 0,
        row_type: DetailRowType::Normal,
        metadata: Some(MetadataV::ParameterRow { param_id: p.param_id }),
        diff_status: None,
    }
}

fn build_structure_param_row(p: &StructureParam) -> (r: DetailRow)
    ensures
        r@ == structure_param_row(*p),
{
    let dop_cell = if !p.dop_name.as_str().is_empty() {
        DetailCell::new(p.dop_name.as_str(), CellType::DopReference).with_jump(
            CellJumpTarget::new(CellJumpTargetType::Dop { index: usize::MAX, name: p.dop_name.clone() }),
        )
    } else {
        DetailCell::text(p.dop_name.as_str())
    };
    let cells = vec![
        DetailCell::new(p.name.as_str(), CellType::ParameterName).with_jump(
            CellJumpTarget::new(CellJumpTargetType::Parameter { param_id: p.param_id }),
        ),
        DetailCell::new(u64_to_decimal(p.byte_pos as u64).as_str(), CellType::NumericValue),
        DetailCell::text("-"),
        DetailCell::text("-"),
        DetailCell::new(p.value.as_str(), CellType::NumericValue),
        dop_cell,
        DetailCell::text(p.semantic.as_str()),
    ];
    proof {
        assert(cells_view(cells@) =~= structure_param_row(*p).cells);
    }
    let mut row = DetailRow::normal(cells, 0);
    row.metadata = Some(RowMetadata::ParameterRow { param_id: p.param_id });
    row
}

pub open spec fn structure_params_header() -> RowV {
    RowV {
        cells: seq![
            plain_cell("Short Name"@, CellType::Text),
            plain_cell("Byte"@, CellType::NumericValue),
            plain_cell("Bit\nLen"@, CellType::NumericValue),
            plain_cell("Byte\nLen"@, CellType::NumericValue),
            plain_cell("Value"@, CellType::NumericValue),
            plain_cell("DOP"@, CellType::Text),
            plain_cell("Semantic"@, CellType::Text),
        ],
        indent: 0,
        row_type: DetailRowType::Header,
        metadata: None,
        diff_status: None,
    }
}

/// The `Params` tab: `No params` when the structure lists none, else a row
/// per parameter.
pub open spec fn structure_params_section(params: Option<Seq<StructureParam>>) -> SectionV {
    SectionV {
        title: "Params"@,
        content: match params {
            None => ContentV::PlainText(seq!["No params"@]),
            Some(ps) => ContentV::Table {
                header: structure_params_header(),
                rows: Seq::new(ps.len(), |i: int| structure_param_row(ps[i])),
                constraints: seq![
                    ColumnConstraint::Percentage(30),
                    ColumnConstraint::Fixed(4),
                    ColumnConstraint::Fixed(4),
                    ColumnConstraint::Fixed(5),
                    ColumnConstraint::Percentage(15),
                    ColumnConstraint::Percentage(20),
                    ColumnConstraint::Percentage(20),
                ],
                use_row_selection: false,
            },
        },
        render_as_header: false,
        section_type: DetailSectionType::Requests,
        byte_pattern_rows: None,
    }
}

pub fn build_params_section(params: &Option<Vec<StructureParam>>) -> (r: DetailSectionData)
    ensures
        r@ == structure_params_section(
            match *params {
                Some(ps) => Some(ps@),
                None => None,
            },
        ),
{
    let ps = match params {
        Some(ps) => ps,
        None => {
            let lines = vec!["No params".to_owned()];
            assert(strings_view(lines@) =~= seq!["No params"@]);
            return DetailSectionData {
                title: "Params".to_owned(),
                render_as_header: false,
                section_type: DetailSectionType::Requests,
                content: DetailContent::PlainText(lines),
                byte_pattern_rows: None,
            };
        },
    };
    let header = DetailRow::header(
        vec![
            DetailCell::text("Short Name"),
            DetailCell::new("Byte", CellType::NumericValue),
            DetailCell::new("Bit\nLen", CellType::NumericValue),
            DetailCell::new("Byte\nLen", CellType::NumericValue),
            DetailCell::new("Value", CellType::NumericValue),
            DetailCell::text("DOP"),
            DetailCell::text("Semantic"),
        ],
    );
    proof {
        assert(cells_view(header.cells@) =~= structure_params_header().cells);
    }
    let mut rows: Vec<DetailRow> = Vec::new();
    let mut i: usize = 0;
    while i < ps.len()
        invariant
            i <= ps@.len(),
            rows@.len() == i,
            forall|k: int| 0 <= k < i ==> (#[trigger] rows@[k])@ == structure_param_row(ps@[k]),
        decreases ps@.len() - i,
    {
        rows.push(build_structure_param_row(&ps[i]));
        i = i + 1;
    }
    assert(rows_view(rows@) =~= Seq::new(ps@.len(), |i: int| structure_param_row(ps@[i])));
    let constraints = vec![
        ColumnConstraint::Percentage(30),
        ColumnConstraint::Fixed(4),
        ColumnConstraint::Fixed(4),
        ColumnConstraint::Fixed(5),
        ColumnConstraint::Percentage(15),
        ColumnConstraint::Percentage(20),
        ColumnConstraint::Percentage(20),
    ];
    DetailSectionData {
        title: "Params".to_owned(),
        render_as_header: false,
        section_type: DetailSectionType::Requests,
        content: DetailContent::Table { header, rows, constraints, use_row_selection: false },
        byte_pattern_rows: None,
    }
}

} // verus!
