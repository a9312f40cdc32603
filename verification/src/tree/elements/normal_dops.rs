//! The constraint and computation-method tabs of a normal data operation.
use vstd::prelude::*;
use crate::tree::elements::{plain_cell, plain_row};
use crate::tree::types::{
    cells_view, opt_string_view, rows_view, strings_view, CellType, ColumnConstraint, ContentV, DetailCell,
    DetailContent, DetailRow, DetailRowType, DetailSectionData, DetailSectionType, RowV, SectionV,
};

verus! {

broadcast use vstd::std_specs::vec::group_vec_axioms;

/// One end of an interval: its kind (by name) and value, if given.
#[derive(Clone, Debug)]
pub struct Limit {
    pub interval_type: String,
    pub value: Option<String>,
}

/// A scale constraint: its limits and validity (by name).
#[derive(Clone, Debug)]
pub struct ScaleConstraint {
    pub lower: Option<Limit>,
    pub upper: Option<Limit>,
    pub validity: String,
}

/// The internal constraint of a data operation.
#[derive(Clone, Debug)]
pub struct InternalConstraint {
    pub lower: Option<Limit>,
    pub upper: Option<Limit>,
    pub scales: Vec<ScaleConstraint>,
}

/// A computed value: its text form when it has one, else its number as text.
#[derive(Clone, Debug)]
pub struct CompuValue {
    pub vt: Option<String>,
    pub v: Option<String>,
}

/// One scale of a computation direction.
#[derive(Clone, Debug)]
pub struct CompuScale {
    pub lower: Option<Limit>,
    pub upper: Option<Limit>,
    pub inverse: Option<CompuValue>,
    pub consts: Option<CompuValue>,
}

/// One direction of a computation method; its scales when it lists them.
#[derive(Clone, Debug)]
pub struct CompuDirection {
    pub scales: Option<Vec<CompuScale>>,
}

/// A computation method: its category (by name) and its two directions.
#[derive(Clone, Debug)]
pub struct CompuMethod {
    pub category: String,
    pub internal_to_phys: Option<CompuDirection>,
    pub phys_to_internal: Option<CompuDirection>,
}

/// The kind of a limit, or `-`.
pub open spec fn limit_type_text(l: Option<Limit>) -> Seq<char> {
    match l {
        Some(l) => l.interval_type@,
        None => "-"@,
    }
}

/// The value of a limit, or `-`.
pub open spec fn limit_value_text(l: Option<Limit>) -> Seq<char> {
    match l {
        Some(l) => match l.value {
            Some(v) => v@,
            None => "-"@,
        },
        None => "-"@,
    }
}

fn limit_type_exec(l: &Option<Limit>) -> (r: String)
    ensures
        r@ == limit_type_text(*l),
{
    match l {
        Some(l) => l.interval_type.clone(),
        None => "-".to_owned(),
    }
}

fn limit_value_exec(l: &Option<Limit>) -> (r: String)
    ensures
        r@ == limit_value_text(*l),
{
    match l {
        Some(l) => match &l.value {
            Some(v) => v.clone(),
            None => "-".to_owned(),
        },
        None => "-".to_owned(),
    }
}

/// A row of the constraint table: lower kind, lower value, upper value,
/// upper kind, validity.
pub open spec fn constraint_row(lower: Option<Limit>, upper: Option<Limit>, validity: Seq<char>) -> RowV {
    plain_row(
        seq![
            plain_cell(limit_type_text(lower), CellType::Text),
            plain_cell(limit_value_text(lower), CellType::Text),
            plain_cell(limit_value_text(upper), CellType::Text),
            plain_cell(limit_type_text(upper), CellType::Text),
            plain_cell(validity, CellType::Text),
        ],
        DetailRowType::Normal,
    )
}

fn build_constraint_row(lower: &Option<Limit>, upper: &Option<Limit>, validity: &str) -> (r: DetailRow)
    ensures
        r@ == constraint_row(*lower, *upper, validity@),
{
    let cells = vec![
        DetailCell::text(limit_type_exec(lower).as_str()),
        DetailCell::text(limit_value_exec(lower).as_str()),
        DetailCell::text(limit_value_exec(upper).as_str()),
        DetailCell::text(limit_type_exec(upper).as_str()),
        DetailCell::text(validity),
    ];
    proof {
        assert(cells_view(cells@) =~= constraint_row(*lower, *upper, validity@).cells);
    }
    DetailRow::normal(cells, 0)
}

/// The rows of the constraint table: the main range, then each scale
/// constraint; none without a constraint.
pub open spec fn constraint_rows(c: Option<InternalConstraint>) -> Seq<RowV> {
    match c {
        Some(c) => seq![constraint_row(c.lower, c.upper, "-"@)] + Seq::new(
            c.scales@.len(),
            |i: int| constraint_row(c.scales@[i].lower, c.scales@[i].upper, c.scales@[i].validity@),
        ),
        None => Seq::empty(),
    }
}

pub open spec fn constraints_header() -> RowV {
    plain_row(
        seq![
            plain_cell("Lower Type"@, CellType::Text),
            plain_cell("Lower Limit"@, CellType::Text),
            plain_cell("Upper Limit"@, CellType::Text),
            plain_cell("Upper Type"@, CellType::Text),
            plain_cell("Validity"@, CellType::Text),
        ],
        DetailRowType::Header,
    )
}

/// The `Internal-Constr` tab.
pub open spec fn constraints_section(c: Option<InternalConstraint>) -> SectionV {
    SectionV {
        title: "Internal-Constr"@,
        content: ContentV::Table {
            header: constraints_header(),
            rows: constraint_rows(c),
            constraints: seq![
                ColumnConstraint::Percentage(20),
                ColumnConstraint::Percentage(20),
                ColumnConstraint::Percentage(20),
                ColumnConstraint::Percentage(20),
                ColumnConstraint::Percentage(20),
            ],
            use_row_selection: true,
        },
        render_as_header: false,
        section_type: DetailSectionType::Custom,
        byte_pattern_rows: None,
    }
}

pub fn build_constraints_section(c: &Option<InternalConstraint>) -> (r: DetailSectionData)
    ensures
        r@ == constraints_section(*c),
{
    let header = DetailRow::header(
        vec![
            DetailCell::text("Lower Type"),
            DetailCell::text("Lower Limit"),
            DetailCell::text("Upper Limit"),
            DetailCell::text("Upper Type"),
            DetailCell::text("Validity"),
        ],
    );
    proof {
        assert(cells_view(header.cells@) =~= constraints_header().cells);
    }
    let mut rows: Vec<DetailRow> = Vec::new();
    match c {
        Some(c) => {
            rows.push(build_constraint_row(&c.lower, &c.upper, "-"));
            let mut i: usize = 0;
            while i < c.scales.len()
                invariant
                    i <= c.scales@.len(),
                    rows@.len() == i + 1,
                    rows@[0]@ == constraint_row(c.lower, c.upper, "-"@),
                    forall|k: int|
                        0 <= k < i ==> (#[trigger] rows@[k + 1])@ == constraint_row(
                            c.scales@[k].lower,
                            c.scales@[k].upper,
                            c.scales@[k].validity@,
                        ),
                decreases c.scales@.len() - i,
            {
                let sc = &c.scales[i];
                rows.push(build_constraint_row(&sc.lower, &sc.upper, sc.validity.as_str()));
                i = i + 1;
            }
            proof {
                assert forall|k: int| 0 <= k < rows@.len() implies (#[trigger] rows_view(rows@)[k])
                    == constraint_rows(Some(*c))[k] by {
                    if k > 0 {
                        assert(rows@[(k - 1) + 1] == rows@[k]);
                    }
                }
                assert(rows_view(rows@) =~= constraint_rows(Some(*c)));
            }
        },
        None => {
            assert(rows_view(rows@) =~= constraint_rows(None));
        },
    }
    let constraints = vec![
        ColumnConstraint::Percentage(20),
        ColumnConstraint::Percentage(20),
        ColumnConstraint::Percentage(20),
        ColumnConstraint::Percentage(20),
        ColumnConstraint::Percentage(20),
    ];
    DetailSectionData {
        title: "Internal-Constr".to_owned(),
        render_as_header: false,
        section_type: DetailSectionType::Custom,
        content: DetailContent::Table { header, rows, constraints, use_row_selection: true },
        byte_pattern_rows: None,
    }
}

/// A computed value as text: its text form, else its number, else `-`.
pub open spec fn compu_value_text(v: Option<CompuValue>) -> Seq<char> {
    match v {
        Some(v) => match v.vt {
            Some(t) => t@,
            None => match v.v {
                Some(n) => n@,
                None => "-"@,
            },
        },
        None => "-"@,
    }
}

fn compu_value_exec(v: &Option<CompuValue>) -> (r: String)
    ensures
        r@ == compu_value_text(*v),
{
    match v {
        Some(v) => match &v.vt {
            Some(t) => t.clone(),
            None => match &v.v {
                Some(n) => n.clone(),
                None => "-".to_owned(),
            },
        },
        None => "-".to_owned(),
    }
}

/// The row of one computation scale.
pub open spec fn scale_row(s: CompuScale) -> RowV {
    plain_row(
        seq![
            plain_cell(limit_value_text(s.lower), CellType::Text),
            plain_cell(limit_value_text(s.upper), CellType::Text),
            plain_cell(compu_value_text(s.inverse), CellType::Text),
            plain_cell(compu_value_text(s.consts), CellType::Text),
        ],
        DetailRowType::Normal,
    )
}

/// The scales a direction lists, none when it lists none.
pub open spec fn direction_scales(d: Option<CompuDirection>) -> Seq<CompuScale> {
    match d {
        Some(d) => match d.scales {
            Some(s) => s@,
            None => Seq::empty(),
        },
        None => Seq::empty(),
    }
}

pub fn build_scale_rows(d: &Option<CompuDirection>) -> (r: Vec<DetailRow>)
    ensures
        rows_view(r@) == Seq::new(direction_scales(*d).len(), |i: int| scale_row(direction_scales(*d)[i])),
{
    let mut rows: Vec<DetailRow> = Vec::new();
    let ghost scales = direction_scales(*d);
    if let Some(dir) = d {
        if let Some(s) = &dir.scales {
            let mut i: usize = 0;
            while i < s.len()
                invariant
                    scales == s@,
                    i <= s@.len(),
                    rows@.len() == i,
                    forall|k: int| 0 <= k < i ==> (#[trigger] rows@[k])@ == scale_row(s@[k]),
                decreases s@.len() - i,
            {
                let sc = &s[i];
                let cells = vec![
                    DetailCell::text(limit_value_exec(&sc.lower).as_str()),
                    DetailCell::text(limit_value_exec(&sc.upper).as_str()),
                    DetailCell::text(compu_value_exec(&sc.inverse).as_str()),
                    DetailCell::text(compu_value_exec(&sc.consts).as_str()),
                ];
                proof {
                    assert(cells_view(cells@) =~= scale_row(*sc).cells);
                }
                rows.push(DetailRow::normal(cells, 0));
                i = i + 1;
            }
        }
    }
    assert(rows_view(rows@) =~= Seq::new(scales.len(), |i: int| scale_row(scales[i])));
    rows
}

pub open spec fn compu_header() -> RowV {
    plain_row(
        seq![
            plain_cell("Lower Limit"@, CellType::Text),
            plain_cell("Upper Limit"@, CellType::Text),
            plain_cell("Compu Inverse Value"@, CellType::Text),
            plain_cell("Compu Const"@, CellType::Text),
        ],
        DetailRowType::Header,
    )
}

/// One direction of a computation method: the category line when given,
/// then the table of scales, as parts of one tab.
pub open spec fn compu_direction_section(title: Seq<char>, category: Option<Seq<char>>, rows: Seq<RowV>) -> SectionV {
    let table = SectionV {
        title: Seq::empty(),
        content: ContentV::Table {
            header: compu_header(),
            rows,
            constraints: seq![
                ColumnConstraint::Percentage(15),
                ColumnConstraint::Percentage(15),
                ColumnConstraint::Percentage(25),
                ColumnConstraint::Percentage(25),
            ],
            use_row_selection: true,
        },
        render_as_header: false,
        section_type: DetailSectionType::Custom,
        byte_pattern_rows: None,
    };
    SectionV {
        title,
        content: ContentV::Composite(
            match category {
                Some(cat) => seq![
                    SectionV {
                        title: Seq::empty(),
                        content: ContentV::PlainText(seq![cat]),
                        render_as_header: false,
                        section_type: DetailSectionType::Custom,
                        byte_pattern_rows: None,
                    },
                    table,
                ],
                None => seq![table],
            },
        ),
        render_as_header: false,
        section_type: DetailSectionType::Custom,
        byte_pattern_rows: None,
    }
}

pub fn build_compu_direction_section(title: &str, category: Option<String>, rows: Vec<DetailRow>) -> (r:
    DetailSectionData)
    ensures
        r@ == compu_direction_section(title@, opt_string_view(category), rows_view(rows@)),
{
    let header = DetailRow::header(
        vec![
            DetailCell::text("Lower Limit"),
            DetailCell::text("Upper Limit"),
            DetailCell::text("Compu Inverse Value"),
            DetailCell::text("Compu Const"),
        ],
    );
    proof {
        assert(cells_view(header.cells@) =~= compu_header().cells);
    }
    let ghost cat_v = opt_string_view(category);
    let ghost rows_v = rows_view(rows@);
    let mut subsections: Vec<DetailSectionData> = Vec::new();
    if let Some(cat) = category {
        let ghost cat_view = cat@;
        let lines = vec![cat];
        assert(strings_view(lines@) =~= seq![cat_view]);
        subsections.push(
            DetailSectionData {
                title: String::new(),
                render_as_header: false,
                section_type: DetailSectionType::Custom,
                content: DetailContent::PlainText(lines),
                byte_pattern_rows: None,
            },
        );
    }
    let constraints = vec![
        ColumnConstraint::Percentage(15),
        ColumnConstraint::Percentage(15),
        ColumnConstraint::Percentage(25),
        ColumnConstraint::Percentage(25),
    ];
    subsections.push(
        DetailSectionData {
            title: String::new(),
            render_as_header: false,
            section_type: DetailSectionType::Custom,
            content: DetailContent::Table { header, rows, constraints, use_row_selection: true },
            byte_pattern_rows: None,
        },
    );
    let r = DetailSectionData {
        title: title.to_owned(),
        render_as_header: false,
        section_type: DetailSectionType::Custom,
        content: DetailContent::Composite(subsections),
        byte_pattern_rows: None,
    };
    proof {
        crate::tree::types::lemma_composite_view(r.content);
        assert(r@.content->Composite_0 =~= compu_direction_section(title@, cat_v, rows_v).content->Composite_0);
    }
    r
}

/// The category line of a computation method.
pub open spec fn category_line(cm: CompuMethod) -> Seq<char> {
    "Category: "@ + cm.category@
}

fn category_line_exec(cm: &CompuMethod) -> (r: String)
    ensures
        r@ == category_line(*cm),
{
    let mut r = "Category: ".to_owned();
    r.append(cm.category.as_str());
    r
}

/// The `Compu-Internal-To-Phys` tab: the category whenever there is a
/// method, and the scales of that direction.
pub open spec fn internal_to_phys_section(cm: Option<CompuMethod>) -> SectionV {
    compu_direction_section(
        "Compu-Internal-To-Phys"@,
        match cm {
            Some(m) => Some(category_line(m)),
            None => None,
        },
        match cm {
            Some(m) => Seq::new(
                direction_scales(m.internal_to_phys).len(),
                |i: int| scale_row(direction_scales(m.internal_to_phys)[i]),
            ),
            None => Seq::empty(),
        },
    )
}

pub fn build_compu_internal_to_phys_section(cm: &Option<CompuMethod>) -> (r: DetailSectionData)
    ensures
        r@ == internal_to_phys_section(*cm),
{
    match cm {
        Some(m) => {
            let rows = build_scale_rows(&m.internal_to_phys);
            build_compu_direction_section("Compu-Internal-To-Phys", Some(category_line_exec(m)), rows)
        },
        None => {
            let rows: Vec<DetailRow> = Vec::new();
            assert(rows_view(rows@) =~= Seq::<RowV>::empty());
            build_compu_direction_section("Compu-Internal-To-Phys", None, rows)
        },
    }
}

/// The `Compu-Phys-To-Internal` tab: the category only when the method has
/// this direction, and its scales.
pub open spec fn phys_to_internal_section(cm: Option<CompuMethod>) -> SectionV {
    compu_direction_section(
        "Compu-Phys-To-Internal"@,
        match cm {
            Some(m) => if m.phys_to_internal is Some {
                Some(category_line(m))
            } else {
                None
            },
            None => None,
        },
        match cm {
            Some(m) => Seq::new(
                direction_scales(m.phys_to_internal).len(),
                |i: int| scale_row(direction_scales(m.phys_to_internal)[i]),
            ),
            None => Seq::empty(),
        },
    )
}

pub fn build_compu_phys_to_internal_section(cm: &Option<CompuMethod>) -> (r: DetailSectionData)
    ensures
        r@ == phys_to_internal_section(*cm),
{
    match cm {
        Some(m) => {
            let rows = build_scale_rows(&m.phys_to_internal);
            let category = if m.phys_to_internal.is_some() {
                Some(category_line_exec(m))
            } else {
                None
            };
            build_compu_direction_section("Compu-Phys-To-Internal", category, rows)
        },
        None => {
            let rows: Vec<DetailRow> = Vec::new();
            assert(rows_view(rows@) =~= Seq::<RowV>::empty());
            build_compu_direction_section("Compu-Phys-To-Internal", None, rows)
        },
    }
}

} // verus!
