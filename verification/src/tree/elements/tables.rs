//! The Tables section of a variant: one node per table data operation
//! referenced by the variant's parents, each with its overview and rows.
use vstd::prelude::*;
use crate::text::{decimal, usize_to_decimal};
use crate::tree::builder::TreeBuilder;
use crate::tree::elements::{plain_cell, plain_row, property_row};
use crate::tree::types::{
    cells_view, rows_view, sections_view, CellType, CellV, ColumnConstraint, ContentV, DetailCell,
    DetailContent, DetailRow, DetailRowType, DetailSectionData, DetailSectionType, NodeType, NodeV,
    PayloadV, RowV, SectionV,
};

verus! {

broadcast use vstd::std_specs::vec::group_vec_axioms;

/// One row of a table data operation.
#[derive(Clone, Debug)]
pub struct TableRowData {
    pub short_name: String,
    pub key: String,
    pub structure: Option<String>,
}

/// What the Tables section shows of one table data operation.
#[derive(Clone, Debug)]
pub struct TableData {
    pub short_name: String,
    pub semantic: String,
    pub key_label: String,
    pub struct_label: String,
    pub key_dop_name: Option<String>,
    pub row_count: usize,
    pub rows: Vec<TableRowData>,
}

/// The overview listing the tables by name.
pub open spec fn tables_overview(tables: Seq<TableData>) -> SectionV {
    SectionV {
        title: "Overview"@,
        content: ContentV::Table {
            header: plain_row(seq![plain_cell("Short Name"@, CellType::Text)], DetailRowType::Header),
            rows: Seq::new(
                tables.len(),
                |i: int| plain_row(seq![plain_cell(tables[i].short_name@, CellType::Text)], DetailRowType::Normal),
            ),
            constraints: seq![ColumnConstraint::Percentage(100)],
            use_row_selection: true,
        },
        render_as_header: false,
        section_type: DetailSectionType::Overview,
        byte_pattern_rows: None,
    }
}

fn text_row(cells: Vec<DetailCell>) -> (r: DetailRow)
    ensures
        r@ == plain_row(cells_view(cells@), DetailRowType::Normal),
{
    DetailRow::normal(cells, 0)
}

pub fn build_tables_overview(tables: &Vec<TableData>) -> (r: DetailSectionData)
    ensures
        r@ == tables_overview(tables@),
{
    let header = DetailRow::header(vec![DetailCell::text("Short Name")]);
    let mut rows: Vec<DetailRow> = Vec::new();
    let mut i: usize = 0;
    while i < tables.len()
        invariant
            i <= tables@.len(),
            rows@.len() == i,
            forall|k: int|
                0 <= k < i ==> (#[trigger] rows@[k])@ == plain_row(
                    seq![plain_cell(tables@[k].short_name@, CellType::Text)],
                    DetailRowType::Normal,
                ),
        decreases tables@.len() - i,
    {
        let cells = vec![DetailCell::text(tables[i].short_name.as_str())];
        proof {
            assert(cells_view(cells@) =~= seq![plain_cell(tables@[i as int].short_name@, CellType::Text)]);
        }
        rows.push(text_row(cells));
        i = i + 1;
    }
    proof {
        assert(cells_view(header.cells@) =~= seq![plain_cell("Short Name"@, CellType::Text)]);
        assert(rows_view(rows@) =~= tables_overview(tables@).content->Table_rows);
    }
    let constraints = vec![ColumnConstraint::Percentage(100)];
    assert(constraints@ =~= seq![ColumnConstraint::Percentage(100)]);
    let r = DetailSectionData {
        title: "Overview".to_owned(),
        render_as_header: false,
        section_type: DetailSectionType::Overview,
        content: DetailContent::Table { header, rows, constraints, use_row_selection: true },
        byte_pattern_rows: None,
    };
    assert(r@.content == tables_overview(tables@).content);
    assert(r@.title == tables_overview(tables@).title);
    r
}

/// A name that leads to a data operation, or `-` as text when there is none.
pub open spec fn optional_dop_cell(name: Option<String>) -> CellV {
    match name {
        Some(n) => plain_cell(n@, CellType::DopReference),
        None => plain_cell("-"@, CellType::Text),
    }
}

/// The property table of one table.
pub open spec fn table_overview(t: TableData) -> SectionV {
    SectionV {
        title: "Overview"@,
        content: ContentV::Table {
            header: plain_row(
                seq![plain_cell("Property"@, CellType::Text), plain_cell("Value"@, CellType::Text)],
                DetailRowType::Header,
            ),
            rows: seq![
                property_row("Short Name"@, plain_cell(t.short_name@, CellType::Text)),
                property_row("Semantic"@, plain_cell(t.semantic@, CellType::Text)),
                property_row("Key Label"@, plain_cell(t.key_label@, CellType::Text)),
                property_row("Struct Label"@, plain_cell(t.struct_label@, CellType::Text)),
                property_row("Key DOP"@, optional_dop_cell(t.key_dop_name)),
                property_row("Row Count"@, plain_cell(decimal(t.row_count as nat), CellType::NumericValue)),
            ],
            constraints: seq![ColumnConstraint::Percentage(40), ColumnConstraint::Percentage(60)],
            use_row_selection: true,
        },
        render_as_header: false,
        section_type: DetailSectionType::Overview,
        byte_pattern_rows: None,
    }
}

/// The row of one table row: its name, key and structure.
pub open spec fn table_row_row(r: TableRowData) -> RowV {
    plain_row(
        seq![
            plain_cell(r.short_name@, CellType::Text),
            plain_cell(r.key@, CellType::Text),
            optional_dop_cell(r.structure),
        ],
        DetailRowType::Normal,
    )
}

/// The rows of one table, `Rows (n)`.
pub open spec fn table_rows_section(t: TableData) -> SectionV {
    SectionV {
        title: "Rows ("@ + decimal(t.rows@.len()) + ")"@,
        content: ContentV::Table {
            header: plain_row(
                seq![
                    plain_cell("Table Row"@, CellType::Text),
                    plain_cell("Key"@, CellType::Text),
                    plain_cell("Struct Ref"@, CellType::DopReference),
                ],
                DetailRowType::Header,
            ),
            rows: Seq::new(t.rows@.len(), |i: int| table_row_row(t.rows@[i])),
            constraints: seq![
                ColumnConstraint::Percentage(40),
                ColumnConstraint::Percentage(30),
                ColumnConstraint::Percentage(30),
            ],
            use_row_selection: false,
        },
        render_as_header: false,
        section_type: DetailSectionType::Custom,
        byte_pattern_rows: None,
    }
}

/// The detail of one table: its overview, then its rows when it has any.
pub open spec fn table_detail(t: TableData) -> Seq<SectionV> {
    if t.rows@.len() == 0 {
        seq![table_overview(t)]
    } else {
        seq![table_overview(t), table_rows_section(t)]
    }
}

fn optional_dop_cell_exec(name: &Option<String>) -> (r: DetailCell)
    ensures
        r@ == optional_dop_cell(*name),
{
    match name {
        Some(n) => DetailCell::new(n.as_str(), CellType::DopReference),
        None => DetailCell::text("-"),
    }
}

fn property_row_exec(key: &str, value: DetailCell) -> (r: DetailRow)
    ensures
        r@ == property_row(key@, value@),
{
    let cells = vec![DetailCell::text(key), value];
    proof {
        assert(cells_view(cells@) =~= seq![plain_cell(key@, CellType::Text), value@]);
    }
    DetailRow::normal(cells, 0)
}

pub fn build_table_detail(table: &TableData) -> (r: Vec<DetailSectionData>)
    ensures
        sections_view(r@) == table_detail(*table),
{
    let header = DetailRow::header(vec![DetailCell::text("Property"), DetailCell::text("Value")]);
    let count_text = usize_to_decimal(table.row_count);
    let overview_rows = vec![
        property_row_exec("Short Name", DetailCell::text(table.short_name.as_str())),
        property_row_exec("Semantic", DetailCell::text(table.semantic.as_str())),
        property_row_exec("Key Label", DetailCell::text(table.key_label.as_str())),
        property_row_exec("Struct Label", DetailCell::text(table.struct_label.as_str())),
        property_row_exec("Key DOP", optional_dop_cell_exec(&table.key_dop_name)),
        property_row_exec("Row Count", DetailCell::new(count_text.as_str(), CellType::NumericValue)),
    ];
    proof {
        assert(cells_view(header.cells@) =~= seq![
            plain_cell("Property"@, CellType::Text),
            plain_cell("Value"@, CellType::Text),
        ]);
        assert(rows_view(overview_rows@) =~= table_overview(*table).content->Table_rows);
    }
    let overview = DetailSectionData::new(
        "Overview".to_owned(),
        DetailContent::Table {
            header,
            rows: overview_rows,
            constraints: vec![ColumnConstraint::Percentage(40), ColumnConstraint::Percentage(60)],
            use_row_selection: true,
        },
        false,
    ).with_type(DetailSectionType::Overview);
    let mut sections: Vec<DetailSectionData> = Vec::new();
    sections.push(overview);
    if table.rows.len() > 0 {
        let rows_header = DetailRow::header(
            vec![
                DetailCell::text("Table Row"),
                DetailCell::text("Key"),
                DetailCell::new("Struct Ref", CellType::DopReference),
            ],
        );
        let mut rows: Vec<DetailRow> = Vec::new();
        let mut i: usize = 0;
        while i < table.rows.len()
            invariant
                i <= table.rows@.len(),
                rows@.len() == i,
                forall|k: int| 0 <= k < i ==> (#[trigger] rows@[k])@ == table_row_row(table.rows@[k]),
            decreases table.rows@.len() - i,
        {
            let r = &table.rows[i];
            let cells = vec![
                DetailCell::text(r.short_name.as_str()),
                DetailCell::text(r.key.as_str()),
                optional_dop_cell_exec(&r.structure),
            ];
            proof {
                assert(cells_view(cells@) =~= table_row_row(*r).cells);
            }
            rows.push(DetailRow::normal(cells, 0));
            i = i + 1;
        }
        let mut title = "Rows (".to_owned();
        title.append(usize_to_decimal(table.rows.len()).as_str());
        title.append(")");
        proof {
            assert(cells_view(rows_header.cells@) =~= table_rows_section(*table).content->Table_header.cells);
            assert(rows_view(rows@) =~= table_rows_section(*table).content->Table_rows);
        }
        sections.push(
            DetailSectionData {
                title,
                render_as_header: false,
                section_type: DetailSectionType::Custom,
                content: DetailContent::Table {
                    header: rows_header,
                    rows,
                    constraints: vec![
                        ColumnConstraint::Percentage(40),
                        ColumnConstraint::Percentage(30),
                        ColumnConstraint::Percentage(30),
                    ],
                    use_row_selection: false,
                },
                byte_pattern_rows: None,
            },
        );
    }
    proof {
        assert(sections_view(sections@) =~= table_detail(*table));
    }
    sections
}

/// The tables in order, each name kept at its first occurrence only.
pub open spec fn first_by_name(s: Seq<TableData>) -> Seq<TableData>
    decreases s.len(),
{
    if s.len() == 0 {
        Seq::empty()
    } else {
        let kept = first_by_name(s.drop_last());
        if exists|j: int| 0 <= j < kept.len() && #[trigger] kept[j].short_name@ == s.last().short_name@ {
            kept
        } else {
            kept.push(s.last())
        }
    }
}

fn dedup_by_name(candidates: Vec<TableData>) -> (r: Vec<TableData>)
    ensures
        r@ == first_by_name(candidates@),
{
    let ghost all = candidates@;
    let mut rest = candidates;
    let mut kept: Vec<TableData> = Vec::new();
    let ghost mut i: int = 0;
    while rest.len() > 0
        invariant
            0 <= i <= all.len(),
            rest@ == all.subrange(i, all.len() as int),
            kept@ == first_by_name(all.subrange(0, i)),
        decreases rest@.len(),
    {
        let t = rest.remove(0);
        let mut seen = false;
        let mut j: usize = 0;
        while j < kept.len()
            invariant
                j <= kept@.len(),
                seen <==> exists|m: int| 0 <= m < j && #[trigger] kept@[m].short_name@ == t.short_name@,
            decreases kept@.len() - j,
        {
            if crate::text::str_eq(kept[j].short_name.as_str(), t.short_name.as_str()) {
                seen = true;
            }
            j = j + 1;
        }
        proof {
            let pre = all.subrange(0, i + 1);
            assert(pre.drop_last() =~= all.subrange(0, i));
            assert(t == all[i]);
            assert(pre.last() == t);
        }
        if !seen {
            kept.push(t);
        }
        proof {
            i = i + 1;
            assert(rest@ =~= all.subrange(i, all.len() as int));
        }
    }
    assert(all.subrange(0, i) =~= all);
    kept
}

/// The Tables subtree: a header `Tables (n)` with the overview, then one
/// node per table one level deeper with its detail.
pub open spec fn tables_nodes(depth: usize, tables: Seq<TableData>) -> Seq<NodeV> {
    seq![
        NodeV {
            depth,
            text: "Tables ("@ + decimal(tables.len()) + ")"@,
            expanded: false,
            has_children: true,
            detail_sections: seq![tables_overview(tables)],
            node_type: NodeType::SectionHeader,
            payload: PayloadV::Empty,
            parent_idx: None,
            diff_status: None,
            old_text: None,
        },
    ] + Seq::new(
        tables.len(),
        |i: int|
            NodeV {
                depth: if depth == usize::MAX {
                    usize::MAX
                } else {
                    (depth + 1) as usize
                },
                text: tables[i].short_name@,
                expanded: false,
                has_children: false,
                detail_sections: table_detail(tables[i]),
                node_type: NodeType::Default,
                payload: PayloadV::Empty,
                parent_idx: None,
                diff_status: None,
                old_text: None,
            },
    )
}

/// Adds the Tables section for the table data operations referenced by the
/// variant's parents, in order, each name once; nothing when the variant has
/// no parent references or none of them is a table.
pub fn add_tables(b: &mut TreeBuilder, depth: usize, candidates: Option<Vec<TableData>>)
    ensures
        ({
            let tables = match candidates {
                Some(c) => first_by_name(c@),
                None => Seq::empty(),
            };
            &&& tables.len() == 0 ==> final(b).nodes@ == old(b).nodes@
            &&& tables.len() > 0 ==> {
                &&& final(b).nodes@.len() == old(b).nodes@.len() + 1 + tables.len()
                &&& final(b).nodes@.subrange(0, old(b).nodes@.len() as int) == old(b).nodes@
                &&& forall|k: int|
                    0 <= k < 1 + tables.len() ==> (#[trigger] final(b).nodes@[old(b).nodes@.len() + k])@
                        == tables_nodes(depth, tables)[k]
            }
        }),
{
    let candidates = match candidates {
        Some(c) => c,
        None => {
            return;
        },
    };
    let tables = dedup_by_name(candidates);
    if tables.len() == 0 {
        return;
    }
    let ghost start = b.nodes@.len();
    let overview = build_tables_overview(&tables);
    let mut text = "Tables (".to_owned();
    text.append(usize_to_decimal(tables.len()).as_str());
    text.append(")");
    b.push_details_structured(depth, text, false, true, vec![overview], NodeType::SectionHeader);
    proof {
        assert(b.nodes@[start as int]@.detail_sections =~= seq![tables_overview(tables@)]);
    }
    let child_depth = depth.saturating_add(1);
    let mut i: usize = 0;
    while i < tables.len()
        invariant
            i <= tables@.len(),
            tables@.len() > 0,
            child_depth == (if depth == usize::MAX { usize::MAX } else { (depth + 1) as usize }),
            b.nodes@.len() == start + 1 + i,
            b.nodes@.subrange(0, start as int) == old(b).nodes@,
            start == old(b).nodes@.len(),
            forall|k: int|
                0 <= k < 1 + i ==> (#[trigger] b.nodes@[start + k])@ == tables_nodes(depth, tables@)[k],
        decreases tables@.len() - i,
    {
        let detail = build_table_detail(&tables[i]);
        b.push_details_structured(child_depth, tables[i].short_name.clone(), false, false, detail, NodeType::Default);
        proof {
            assert(b.nodes@.subrange(0, start as int) =~= old(b).nodes@);
        }
        i = i + 1;
    }
}

} // verus!
