//! The Parent Refs list of a variant: a header with an overview of the
//! layers it inherits from, then a node per reference with what it does not
//! pass on.
use vstd::prelude::*;
use crate::text::{decimal, usize_to_decimal};
use crate::tree::builder::TreeBuilder;
use crate::tree::elements::service_details::text_header;
use crate::tree::elements::service_lists::{lemma_nodes_view_push, sat_depth};
use crate::tree::elements::{plain_cell, plain_row, property_header};
use crate::tree::types::{
    cells_view, nodes_view, rows_view, sections_view, CellJumpTarget, CellJumpTargetType, CellType, CellV,
    ColumnConstraint, ContentV, DetailCell, DetailContent, DetailRow, DetailRowType, DetailSectionData,
    DetailSectionType, JumpV, NodeType, NodeV, PayloadV, RowV, SectionV,
};

verus! {

broadcast use vstd::std_specs::vec::group_vec_axioms;

/// What a parent reference points at.
#[derive(Clone, Copy, Debug, PartialEq, Eq, Structural)]
pub enum ParentRefKind {
    Variant,
    EcuSharedData,
    Protocol,
    FunctionalGroup,
    TableDop,
    Unknown,
}

/// A parent reference: the kind of layer it points at, that layer's short
/// name (when the layer and its name are there) and the names of what it
/// does not pass on.
#[derive(Clone, Debug)]
pub struct ParentRefInfo {
    pub kind: ParentRefKind,
    pub layer_name: Option<String>,
    pub not_inherited_diag_comms: Option<Vec<String>>,
    pub not_inherited_variables: Option<Vec<String>>,
    pub not_inherited_dops: Option<Vec<String>>,
    pub not_inherited_tables: Option<Vec<String>>,
}

/// The label of a reference's kind.
pub open spec fn ref_type_text(k: ParentRefKind) -> Seq<char> {
    match k {
        ParentRefKind::Variant => "Variant"@,
        ParentRefKind::EcuSharedData => "ECU Shared Data"@,
        ParentRefKind::Protocol => "Protocol"@,
        ParentRefKind::FunctionalGroup => "Functional Group"@,
        ParentRefKind::TableDop => "Table DOP"@,
        ParentRefKind::Unknown => "Unknown"@,
    }
}

/// The name of the layer a reference points at; `?` when unknown (always
/// for a table DOP or an unknown kind).
pub open spec fn ref_name(pr: ParentRefInfo) -> Seq<char> {
    match pr.kind {
        ParentRefKind::TableDop | ParentRefKind::Unknown => "?"@,
        _ => match pr.layer_name {
            Some(n) => n@,
            None => "?"@,
        },
    }
}

/// The label of a reference's kind and the name of its layer.
pub fn extract_parent_ref_info(pr: &ParentRefInfo) -> (r: (&'static str, String))
    ensures
        r.0@ == ref_type_text(pr.kind),
        r.1@ == ref_name(*pr),
{
    let label = match pr.kind {
        ParentRefKind::Variant => "Variant",
        ParentRefKind::EcuSharedData => "ECU Shared Data",
        ParentRefKind::Protocol => "Protocol",
        ParentRefKind::FunctionalGroup => "Functional Group",
        ParentRefKind::TableDop => "Table DOP",
        ParentRefKind::Unknown => "Unknown",
    };
    let name = match pr.kind {
        ParentRefKind::TableDop | ParentRefKind::Unknown => "?".to_owned(),
        _ => match &pr.layer_name {
            Some(n) => n.clone(),
            None => "?".to_owned(),
        },
    };
    (label, name)
}

/// The known layer names of the references, in order (`?` left out).
pub open spec fn known_ref_names(refs: Seq<ParentRefInfo>) -> Seq<Seq<char>>
    decreases refs.len(),
{
    if refs.len() == 0 {
        Seq::empty()
    } else {
        known_ref_names(refs.drop_last()) + if ref_name(refs.last()) != "?"@ {
            seq![ref_name(refs.last())]
        } else {
            Seq::empty()
        }
    }
}

/// The short names of the layers the references point at, those known, in
/// order; none without references.
pub fn extract_parent_ref_short_names(parent_refs: Option<Vec<ParentRefInfo>>) -> (r: Vec<String>)
    ensures
        r@.map_values(|s: String| s@) == match parent_refs {
            Some(v) => known_ref_names(v@),
            None => Seq::empty(),
        },
{
    let refs = match parent_refs {
        Some(v) => v,
        None => {
            let r: Vec<String> = Vec::new();
            assert(r@.map_values(|s: String| s@) =~= Seq::<Seq<char>>::empty());
            return r;
        },
    };
    let mut r: Vec<String> = Vec::new();
    let mut i: usize = 0;
    assert(r@.map_values(|s: String| s@) =~= known_ref_names(refs@.subrange(0, 0)));
    while i < refs.len()
        invariant
            i <= refs@.len(),
            r@.map_values(|s: String| s@) == known_ref_names(refs@.subrange(0, i as int)),
        decreases refs@.len() - i,
    {
        let (_, name) = extract_parent_ref_info(&refs[i]);
        proof {
            assert(refs@.subrange(0, i as int + 1).drop_last() =~= refs@.subrange(0, i as int));
            reveal_strlit("?");
        }
        let ghost before = r@;
        if !crate::text::str_eq(name.as_str(), "?") {
            r.push(name);
            assert(r@.map_values(|s: String| s@) =~= before.map_values(|s: String| s@).push(r@.last()@));
        }
        i = i + 1;
        proof {
            assert(r@.map_values(|s: String| s@) =~= known_ref_names(refs@.subrange(0, i as int)));
        }
    }
    assert(refs@.subrange(0, refs@.len() as int) =~= refs@);
    r
}

/// A cell naming a container, looked up later.
pub open spec fn container_cell(name: Seq<char>) -> CellV {
    CellV {
        text: name,
        cell_type: CellType::ParameterName,
        jump_target: Some(JumpV::Container { index: usize::MAX, short_name: name }),
    }
}

fn container_cell_exec(name: &str) -> (r: DetailCell)
    ensures
        r@ == container_cell(name@),
{
    DetailCell::new(name, CellType::ParameterName).with_jump(
        CellJumpTarget::new(CellJumpTargetType::Container { index: usize::MAX, short_name: name.to_owned() }),
    )
}

/// The overview row of a reference: its layer name leading to the layer's
/// container, and its kind.
pub open spec fn ref_row(pr: ParentRefInfo) -> RowV {
    plain_row(
        seq![container_cell(ref_name(pr)), plain_cell(ref_type_text(pr.kind), CellType::Text)],
        DetailRowType::Normal,
    )
}

/// A table of the references (70% / 30%, rows selectable).
pub open spec fn refs_table(title: Seq<char>, refs: Seq<ParentRefInfo>, section_type: DetailSectionType) -> SectionV {
    SectionV {
        title,
        content: ContentV::Table {
            header: text_header(seq!["Short Name"@, "Type"@]),
            rows: Seq::new(refs.len(), |k: int| ref_row(refs[k])),
            constraints: seq![ColumnConstraint::Percentage(70), ColumnConstraint::Percentage(30)],
            use_row_selection: true,
        },
        render_as_header: false,
        section_type,
        byte_pattern_rows: None,
    }
}

fn build_refs_table(title: &str, refs: &Vec<ParentRefInfo>, section_type: DetailSectionType) -> (r: DetailSectionData)
    ensures
        r@ == refs_table(title@, refs@, section_type),
{
    let header = DetailRow::header(vec![DetailCell::text("Short Name"), DetailCell::text("Type")]);
    proof {
        assert(cells_view(header.cells@) =~= text_header(seq!["Short Name"@, "Type"@]).cells);
    }
    let mut rows: Vec<DetailRow> = Vec::new();
    let mut i: usize = 0;
    while i < refs.len()
        invariant
            i <= refs@.len(),
            rows@.len() == i,
            forall|k: int| 0 <= k < i ==> (#[trigger] rows@[k])@ == ref_row(refs@[k]),
        decreases refs@.len() - i,
    {
        let (label, name) = extract_parent_ref_info(&refs[i]);
        let cells = vec![container_cell_exec(name.as_str()), DetailCell::text(label)];
        proof {
            assert(cells_view(cells@) =~= ref_row(refs@[i as int]).cells);
        }
        rows.push(DetailRow::normal(cells, 0));
        i = i + 1;
    }
    proof {
        assert(rows_view(rows@) =~= Seq::new(refs@.len(), |k: int| ref_row(refs@[k])));
    }
    let constraints = vec![ColumnConstraint::Percentage(70), ColumnConstraint::Percentage(30)];
    assert(constraints@ =~= seq![ColumnConstraint::Percentage(70), ColumnConstraint::Percentage(30)]);
    DetailSectionData {
        title: title.to_owned(),
        render_as_header: false,
        section_type,
        content: DetailContent::Table { header, rows, constraints, use_row_selection: true },
        byte_pattern_rows: None,
    }
}

/// The "Parent Refs" tab of a container's detail; none without references.
pub fn build_parent_refs_detail_section(parent_refs: Option<Vec<ParentRefInfo>>) -> (r: Option<DetailSectionData>)
    ensures
        match parent_refs {
            Some(v) if v@.len() > 0 => r matches Some(s) && s@ == refs_table(
                "Parent Refs"@,
                v@,
                DetailSectionType::RelatedRefs,
            ),
            _ => r is None,
        },
{
    let refs = match parent_refs {
        Some(v) => v,
        None => {
            return None;
        },
    };
    if refs.len() == 0 {
        return None;
    }
    Some(build_refs_table("Parent Refs", &refs, DetailSectionType::RelatedRefs))
}

/// The overview of the Parent Refs header.
pub fn build_parent_refs_overview(parent_refs_list: &Vec<ParentRefInfo>) -> (r: DetailSectionData)
    ensures
        r@ == refs_table("Overview"@, parent_refs_list@, DetailSectionType::Overview),
{
    build_refs_table("Overview", parent_refs_list, DetailSectionType::Overview)
}

// The node of one reference
/// A row naming a node by name, looked up later.
pub open spec fn tree_node_row(name: Seq<char>) -> RowV {
    plain_row(
        seq![
            CellV {
                text: name,
                cell_type: CellType::ParameterName,
                jump_target: Some(JumpV::TreeNodeByIndex { index: usize::MAX, short_name: name }),
            },
        ],
        DetailRowType::Normal,
    )
}

/// A row naming a data operation, looked up later.
pub open spec fn dop_row(name: Seq<char>) -> RowV {
    plain_row(
        seq![
            CellV {
                text: name,
                cell_type: CellType::DopReference,
                jump_target: Some(JumpV::Dop { index: usize::MAX, name }),
            },
        ],
        DetailRowType::Normal,
    )
}

pub fn make_service_or_job_row(name: &str) -> (r: DetailRow)
    ensures
        r@ == tree_node_row(name@),
{
    make_tree_node_row(name)
}

pub fn make_tree_node_row(name: &str) -> (r: DetailRow)
    ensures
        r@ == tree_node_row(name@),
{
    let cells = vec![
        DetailCell::new(name, CellType::ParameterName).with_jump(
            CellJumpTarget::new(CellJumpTargetType::TreeNodeByIndex { index: usize::MAX, short_name: name.to_owned() }),
        ),
    ];
    proof {
        assert(cells_view(cells@) =~= tree_node_row(name@).cells);
    }
    DetailRow::normal(cells, 0)
}

pub fn make_dop_row(name: &str) -> (r: DetailRow)
    ensures
        r@ == dop_row(name@),
{
    let cells = vec![
        DetailCell::new(name, CellType::DopReference).with_jump(
            CellJumpTarget::new(CellJumpTargetType::Dop { index: usize::MAX, name: name.to_owned() }),
        ),
    ];
    proof {
        assert(cells_view(cells@) =~= dop_row(name@).cells);
    }
    DetailRow::normal(cells, 0)
}

/// A tab listing what a reference does not pass on.
pub open spec fn not_inherited_section(title: Seq<char>, rows: Seq<RowV>, section_type: DetailSectionType) -> SectionV {
    SectionV {
        title,
        content: ContentV::Table {
            header: text_header(seq!["Short Name"@]),
            rows,
            constraints: seq![ColumnConstraint::Percentage(100)],
            use_row_selection: true,
        },
        render_as_header: false,
        section_type,
        byte_pattern_rows: None,
    }
}

pub fn build_not_inherited_section(title: &str, rows: Vec<DetailRow>, section_type: DetailSectionType) -> (r:
    DetailSectionData)
    ensures
        r@ == not_inherited_section(title@, rows_view(rows@), section_type),
{
    let header = DetailRow::header(vec![DetailCell::text("Short Name")]);
    proof {
        assert(cells_view(header.cells@) =~= text_header(seq!["Short Name"@]).cells);
    }
    let constraints = vec![ColumnConstraint::Percentage(100)];
    assert(constraints@ =~= seq![ColumnConstraint::Percentage(100)]);
    DetailSectionData {
        title: title.to_owned(),
        render_as_header: false,
        section_type,
        content: DetailContent::Table { header, rows, constraints, use_row_selection: true },
        byte_pattern_rows: None,
    }
}

/// The general tab of a reference: its name leading to the layer's
/// container, and its kind.
pub open spec fn ref_general(name: Seq<char>, ref_type: Seq<char>) -> SectionV {
    SectionV {
        title: "General"@,
        content: ContentV::Table {
            header: property_header(),
            rows: seq![
                plain_row(seq![plain_cell("Short Name"@, CellType::Text), container_cell(name)], DetailRowType::Normal),
                plain_row(
                    seq![plain_cell("Type"@, CellType::Text), plain_cell(ref_type, CellType::Text)],
                    DetailRowType::Normal,
                ),
            ],
            constraints: seq![ColumnConstraint::Percentage(40), ColumnConstraint::Percentage(60)],
            use_row_selection: false,
        },
        render_as_header: false,
        section_type: DetailSectionType::Overview,
        byte_pattern_rows: None,
    }
}

/// The tab of one kind of names not passed on: none when the list is
/// missing or empty.
pub open spec fn not_inherited_tab(
    title: Seq<char>,
    names: Option<Vec<String>>,
    section_type: DetailSectionType,
    dops: bool,
) -> Seq<SectionV> {
    match names {
        Some(v) => if v@.len() > 0 {
            seq![
                not_inherited_section(
                    title,
                    Seq::new(v@.len(), |k: int| if dops {
                        dop_row(v@[k]@)
                    } else {
                        tree_node_row(v@[k]@)
                    }),
                    section_type,
                ),
            ]
        } else {
            Seq::empty()
        },
        None => Seq::empty(),
    }
}

/// The tabs of a reference's node: the general tab, then those of the
/// diag-comms, variables, data operations and tables it does not pass on.
pub open spec fn ref_detail(pr: ParentRefInfo, name: Seq<char>, ref_type: Seq<char>) -> Seq<SectionV> {
    seq![ref_general(name, ref_type)] + not_inherited_tab(
        "Not Inherited DiagComms"@,
        pr.not_inherited_diag_comms,
        DetailSectionType::NotInheritedDiagComms,
        false,
    ) + not_inherited_tab(
        "Not Inherited Variables"@,
        pr.not_inherited_variables,
        DetailSectionType::NotInheritedVariables,
        false,
    ) + not_inherited_tab("Not Inherited DOPs"@, pr.not_inherited_dops, DetailSectionType::NotInheritedDops, true)
        + not_inherited_tab(
        "Not Inherited Tables"@,
        pr.not_inherited_tables,
        DetailSectionType::NotInheritedTables,
        false,
    )
}

fn push_not_inherited(
    out: &mut Vec<DetailSectionData>,
    title: &str,
    names: &Option<Vec<String>>,
    section_type: DetailSectionType,
    dops: bool,
)
    ensures
        sections_view(final(out)@) == sections_view(old(out)@) + not_inherited_tab(title@, *names, section_type, dops),
{
    let v = match names {
        Some(v) => v,
        None => {
            assert(sections_view(out@) =~= sections_view(out@) + Seq::<SectionV>::empty());
            return;
        },
    };
    if v.len() == 0 {
        assert(sections_view(out@) =~= sections_view(out@) + Seq::<SectionV>::empty());
        return;
    }
    let mut rows: Vec<DetailRow> = Vec::new();
    let mut i: usize = 0;
    while i < v.len()
        invariant
            i <= v@.len(),
            rows@.len() == i,
            forall|k: int|
                0 <= k < i ==> (#[trigger] rows@[k])@ == if dops {
                    dop_row(v@[k]@)
                } else {
                    tree_node_row(v@[k]@)
                },
        decreases v@.len() - i,
    {
        let row = if dops {
            make_dop_row(v[i].as_str())
        } else {
            make_tree_node_row(v[i].as_str())
        };
        rows.push(row);
        i = i + 1;
    }
    proof {
        assert(rows_view(rows@) =~= Seq::new(v@.len(), |k: int| if dops {
            dop_row(v@[k]@)
        } else {
            tree_node_row(v@[k]@)
        }));
    }
    let ghost before = sections_view(out@);
    let s = build_not_inherited_section(title, rows, section_type);
    out.push(s);
    assert(sections_view(out@) =~= before + not_inherited_tab(title@, *names, section_type, dops));
}

/// The tabs of the node of a reference.
pub fn build_single_parent_ref_detail(parent_ref: &ParentRefInfo, short_name: &str, ref_type: &str) -> (r: Vec<
    DetailSectionData,
>)
    ensures
        sections_view(r@) == ref_detail(*parent_ref, short_name@, ref_type@),
{
    let header = DetailRow::header(vec![DetailCell::text("Property"), DetailCell::text("Value")]);
    proof {
        assert(cells_view(header.cells@) =~= property_header().cells);
    }
    let c1 = vec![DetailCell::text("Short Name"), container_cell_exec(short_name)];
    let c2 = vec![DetailCell::text("Type"), DetailCell::text(ref_type)];
    proof {
        assert(cells_view(c1@) =~= seq![plain_cell("Short Name"@, CellType::Text), container_cell(short_name@)]);
        assert(cells_view(c2@) =~= seq![plain_cell("Type"@, CellType::Text), plain_cell(ref_type@, CellType::Text)]);
    }
    let r1 = DetailRow::normal(c1, 0);
    let r2 = DetailRow::normal(c2, 0);
    let ghost v1 = r1@;
    let ghost v2 = r2@;
    let rows = vec![r1, r2];
    assert(rows_view(rows@) =~= seq![v1, v2]);
    let constraints = vec![ColumnConstraint::Percentage(40), ColumnConstraint::Percentage(60)];
    assert(constraints@ =~= seq![ColumnConstraint::Percentage(40), ColumnConstraint::Percentage(60)]);
    proof {
        assert(rows_view(rows@) =~= ref_general(short_name@, ref_type@).content->Table_rows);
    }
    let general = DetailSectionData {
        title: "General".to_owned(),
        render_as_header: false,
        section_type: DetailSectionType::Overview,
        content: DetailContent::Table { header, rows, constraints, use_row_selection: false },
        byte_pattern_rows: None,
    };
    let ghost gv = general@;
    assert(gv == ref_general(short_name@, ref_type@));
    let mut out = vec![general];
    assert(sections_view(out@) =~= seq![gv]);
    push_not_inherited(
        &mut out,
        "Not Inherited DiagComms",
        &parent_ref.not_inherited_diag_comms,
        DetailSectionType::NotInheritedDiagComms,
        false,
    );
    push_not_inherited(
        &mut out,
        "Not Inherited Variables",
        &parent_ref.not_inherited_variables,
        DetailSectionType::NotInheritedVariables,
        false,
    );
    push_not_inherited(&mut out, "Not Inherited DOPs", &parent_ref.not_inherited_dops, DetailSectionType::NotInheritedDops, true);
    push_not_inherited(
        &mut out,
        "Not Inherited Tables",
        &parent_ref.not_inherited_tables,
        DetailSectionType::NotInheritedTables,
        false,
    );
    out
}

// The whole list
/// The header of the Parent Refs list.
pub open spec fn refs_header(depth: usize, refs: Seq<ParentRefInfo>) -> NodeV {
    NodeV {
        depth,
        text: "Parent Refs ("@ + decimal(refs.len()) + ")"@,
        expanded: false,
        has_children: true,
        detail_sections: seq![refs_table("Overview"@, refs, DetailSectionType::Overview)],
        node_type: NodeType::ParentRefs,
        payload: PayloadV::Empty,
        parent_idx: None,
        diff_status: None,
        old_text: None,
    }
}

/// The node of a reference, named by its layer.
pub open spec fn ref_node(depth: usize, pr: ParentRefInfo) -> NodeV {
    NodeV {
        depth: sat_depth(depth, 1),
        text: ref_name(pr),
        expanded: false,
        has_children: false,
        detail_sections: ref_detail(pr, ref_name(pr), ref_type_text(pr.kind)),
        node_type: NodeType::Default,
        payload: PayloadV::Empty,
        parent_idx: None,
        diff_status: None,
        old_text: None,
    }
}

/// Adds the Parent Refs list: a header with the overview of the references,
/// then a node per reference in their order. Nothing is added without
/// references.
pub fn add_parent_refs_with_details(b: &mut TreeBuilder, depth: usize, parent_refs: Option<Vec<ParentRefInfo>>)
    ensures
        nodes_view(final(b).nodes@) == match parent_refs {
            Some(v) if v@.len() > 0 => nodes_view(old(b).nodes@).push(refs_header(depth, v@)) + Seq::new(
                v@.len(),
                |k: int| ref_node(depth, v@[k]),
            ),
            _ => nodes_view(old(b).nodes@),
        },
{
    let ghost before = nodes_view(b.nodes@);
    let refs = match parent_refs {
        Some(v) => v,
        None => {
            return;
        },
    };
    if refs.len() == 0 {
        return;
    }
    let overview = build_parent_refs_overview(&refs);
    let mut title = "Parent Refs (".to_owned();
    title.append(usize_to_decimal(refs.len()).as_str());
    title.append(")");
    let ghost ov = overview@;
    let sections = vec![overview];
    assert(sections_view(sections@) =~= seq![ov]);
    let ghost n0 = b.nodes@;
    b.push_details_structured(depth, title, false, true, sections, NodeType::ParentRefs);
    proof {
        lemma_nodes_view_push(n0, b.nodes@.last());
        assert(b.nodes@ == n0.push(b.nodes@.last()));
    }
    let ghost head = nodes_view(b.nodes@);
    assert(head == before.push(refs_header(depth, refs@)));
    let mut i: usize = 0;
    assert(head + Seq::new(0, |k: int| ref_node(depth, refs@[k])) =~= head);
    while i < refs.len()
        invariant
            i <= refs@.len(),
            nodes_view(b.nodes@) == head + Seq::new(i as nat, |k: int| ref_node(depth, refs@[k])),
        decreases refs@.len() - i,
    {
        let (label, name) = extract_parent_ref_info(&refs[i]);
        let details = build_single_parent_ref_detail(&refs[i], name.as_str(), label);
        let ghost prev = b.nodes@;
        b.push_details_structured(depth.saturating_add(1), name, false, false, details, NodeType::Default);
        proof {
            lemma_nodes_view_push(prev, b.nodes@.last());
            assert(b.nodes@ == prev.push(b.nodes@.last()));
            assert(b.nodes@.last()@ == ref_node(depth, refs@[i as int]));
            assert(nodes_view(b.nodes@) =~= head + Seq::new((i + 1) as nat, |k: int| ref_node(depth, refs@[k])));
        }
        i = i + 1;
    }
}

} // verus!
