//! The State Charts list of a layer: a header with an overview table of the
//! charts, then a node per chart with its transitions and states.
use vstd::prelude::*;
use crate::text::{decimal, lowercase, to_lower, usize_to_decimal};
use crate::tree::builder::TreeBuilder;
use crate::tree::elements::service_details::text_header;
use crate::tree::elements::service_lists::{lemma_nodes_view_push, sat_depth};
use crate::tree::elements::services::{index_jump_cell, index_jump_cell_exec, TransitionInfo};
use crate::tree::elements::{plain_cell, plain_row};
use crate::tree::types::{
    cells_view, nodes_view, rows_view, sections_view, strings_view, CellType, ColumnConstraint, ContentV,
    DetailCell, DetailContent, DetailRow, DetailRowType, DetailSectionData, DetailSectionType, NodeType, NodeV,
    PayloadV, RowV, SectionV, ServiceListType,
};
use crate::tree_sort::{items_of, reorders_stably, sort_ranked, stable_sort_by, RankKey, RankKeyV, Ranked};
use vstd::hash_map::StringHashMap;

verus! {

broadcast use vstd::std_specs::vec::group_vec_axioms;

/// A state of a state chart.
#[derive(Clone, Debug)]
pub struct StateInfo {
    pub short_name: Option<String>,
}

/// A state chart of a layer: its name, semantic, transitions and states.
#[derive(Clone, Debug)]
pub struct StateChartInfo {
    pub short_name: Option<String>,
    pub semantic: Option<String>,
    pub transitions: Vec<TransitionInfo>,
    pub states: Vec<StateInfo>,
}

/// The text of an optional name, `d` when it has none.
pub open spec fn or_else(o: Option<String>, d: Seq<char>) -> Seq<char> {
    match o {
        Some(s) => s@,
        None => d,
    }
}

fn or_else_exec(o: &Option<String>, d: &str) -> (r: String)
    ensures
        r@ == or_else(*o, d@),
{
    match o {
        Some(s) => s.clone(),
        None => d.to_owned(),
    }
}

// Sorting rows
/// Rows sort by the lower-cased text of their first cell, rows without
/// cells first.
pub open spec fn row_key(r: RowV) -> RankKeyV {
    if r.cells.len() == 0 {
        RankKeyV::Id(None)
    } else {
        RankKeyV::Text(lowercase(r.cells[0].text))
    }
}

pub open spec fn by_first_cell() -> spec_fn(RowV) -> RankKeyV {
    |r: RowV| row_key(r)
}

pub open spec fn by_first_cell_exec() -> spec_fn(DetailRow) -> RankKeyV {
    |r: DetailRow| row_key(r@)
}

proof fn lemma_sorted_rows_view(out: Seq<DetailRow>, input: Seq<DetailRow>)
    requires
        stable_sort_by(out, input, by_first_cell_exec()),
    ensures
        stable_sort_by(rows_view(out), rows_view(input), by_first_cell()),
{
    let perm = choose|perm: Seq<int>| reorders_stably(out, input, by_first_cell_exec(), perm);
    let ov = rows_view(out);
    let iv = rows_view(input);
    assert forall|i: int| 0 <= i < ov.len() implies #[trigger] ov[i] == iv[perm[i]] by {
        assert(out[i] == input[perm[i]]);
    }
    assert(reorders_stably(ov, iv, by_first_cell(), perm));
}

/// The rows stably sorted by the lower-cased text of their first cell.
fn sort_rows(v: Vec<DetailRow>) -> (r: Vec<DetailRow>)
    ensures
        stable_sort_by(rows_view(r@), rows_view(v@), by_first_cell()),
{
    let ghost input = v@;
    let mut rest = v;
    let mut ranked: Vec<Ranked<DetailRow>> = Vec::new();
    let ghost mut n: int = 0;
    while rest.len() > 0
        invariant
            0 <= n <= input.len(),
            rest@ == input.subrange(n, input.len() as int),
            items_of(ranked@) == input.subrange(0, n),
            forall|k: int|
                0 <= k < ranked@.len() ==> (#[trigger] ranked@[k]).key@ == by_first_cell_exec()(ranked@[k].item),
        decreases rest@.len(),
    {
        let ghost before = rest@;
        let row = rest.remove(0);
        assert(row == input[n]) by {
            assert(before[0] == input.subrange(n, input.len() as int)[0]);
        }
        let key = if row.cells.len() == 0 {
            RankKey::Id(None)
        } else {
            RankKey::Text(to_lower(row.cells[0].text.as_str()))
        };
        let ghost prev = ranked@;
        ranked.push(Ranked { key, item: row });
        proof {
            assert(ranked@.last().item == input[n]);
            assert(items_of(ranked@) =~= items_of(prev).push(input[n]));
            assert(input.subrange(0, n + 1) =~= input.subrange(0, n).push(input[n]));
            n = n + 1;
            assert(rest@ =~= input.subrange(n, input.len() as int));
        }
    }
    assert(input.subrange(0, n) =~= input);
    let r = sort_ranked(ranked, Ghost(by_first_cell_exec()));
    proof {
        lemma_sorted_rows_view(r@, input);
    }
    r
}

// Tabs of a chart
/// The transitions tab: a table of name, source and target (or a note when
/// there are none).
pub open spec fn transitions_section(rows: Seq<RowV>) -> SectionV {
    SectionV {
        title: "State Transitions"@,
        content: if rows.len() == 0 {
            ContentV::PlainText(seq!["No state transitions"@])
        } else {
            ContentV::Table {
                header: text_header(seq!["Name"@, "Source"@, "Target"@]),
                rows,
                constraints: seq![
                    ColumnConstraint::Percentage(34),
                    ColumnConstraint::Percentage(33),
                    ColumnConstraint::Percentage(33),
                ],
                use_row_selection: false,
            }
        },
        render_as_header: false,
        section_type: DetailSectionType::States,
        byte_pattern_rows: None,
    }
}

/// The states tab: a table of names (or a note when there are none).
pub open spec fn states_section(rows: Seq<RowV>) -> SectionV {
    SectionV {
        title: "States"@,
        content: if rows.len() == 0 {
            ContentV::PlainText(seq!["No states"@])
        } else {
            ContentV::Table {
                header: text_header(seq!["Name"@]),
                rows,
                constraints: seq![ColumnConstraint::Percentage(100)],
                use_row_selection: false,
            }
        },
        render_as_header: false,
        section_type: DetailSectionType::States,
        byte_pattern_rows: None,
    }
}

/// The transitions tab of the given rows, sorted by their first cell.
pub fn build_transitions_section(transitions: Vec<DetailRow>) -> (r: DetailSectionData)
    ensures
        exists|t: Seq<RowV>| stable_sort_by(t, rows_view(transitions@), by_first_cell()) && r@ == transitions_section(t),
{
    let rows = sort_rows(transitions);
    let content = if rows.len() == 0 {
        let lines = vec!["No state transitions".to_owned()];
        proof {
            assert(strings_view(lines@) =~= seq!["No state transitions"@]);
        }
        DetailContent::PlainText(lines)
    } else {
        let header = DetailRow::header(
            vec![DetailCell::text("Name"), DetailCell::text("Source"), DetailCell::text("Target")],
        );
        proof {
            assert(cells_view(header.cells@) =~= text_header(seq!["Name"@, "Source"@, "Target"@]).cells);
        }
        let constraints = vec![
            ColumnConstraint::Percentage(34),
            ColumnConstraint::Percentage(33),
            ColumnConstraint::Percentage(33),
        ];
        DetailContent::Table { header, rows, constraints, use_row_selection: false }
    };
    let r = DetailSectionData {
        title: "State Transitions".to_owned(),
        render_as_header: false,
        section_type: DetailSectionType::States,
        content,
        byte_pattern_rows: None,
    };
    assert(r@ == transitions_section(rows_view(rows@)));
    r
}

/// The states tab of the given rows, sorted by their first cell.
pub fn build_states_section(states: Vec<DetailRow>) -> (r: DetailSectionData)
    ensures
        exists|t: Seq<RowV>| stable_sort_by(t, rows_view(states@), by_first_cell()) && r@ == states_section(t),
{
    let rows = sort_rows(states);
    let content = if rows.len() == 0 {
        let lines = vec!["No states".to_owned()];
        proof {
            assert(strings_view(lines@) =~= seq!["No states"@]);
        }
        DetailContent::PlainText(lines)
    } else {
        let header = DetailRow::header(vec![DetailCell::text("Name")]);
        proof {
            assert(cells_view(header.cells@) =~= text_header(seq!["Name"@]).cells);
        }
        let constraints = vec![ColumnConstraint::Percentage(100)];
        assert(constraints@ =~= seq![ColumnConstraint::Percentage(100)]);
        DetailContent::Table { header, rows, constraints, use_row_selection: false }
    };
    let r = DetailSectionData {
        title: "States".to_owned(),
        render_as_header: false,
        section_type: DetailSectionType::States,
        content,
        byte_pattern_rows: None,
    };
    assert(r@ == states_section(rows_view(rows@)));
    r
}

// The overview of the header
/// A row of the overview: the chart's name leading to its node, then its
/// numbers of states and of transitions.
pub open spec fn summary_row_of(name: Seq<char>, states: nat, transitions: nat, m: Map<Seq<char>, usize>) -> RowV {
    plain_row(
        seq![
            index_jump_cell(name, m),
            plain_cell(decimal(states), CellType::NumericValue),
            plain_cell(decimal(transitions), CellType::NumericValue),
        ],
        DetailRowType::Normal,
    )
}

pub open spec fn summary_row(s: (String, usize, usize), m: Map<Seq<char>, usize>) -> RowV {
    summary_row_of(s.0@, s.1 as nat, s.2 as nat, m)
}

pub open spec fn summary_rows(sums: Seq<(String, usize, usize)>, m: Map<Seq<char>, usize>) -> Seq<RowV> {
    Seq::new(sums.len(), |k: int| summary_row(sums[k], m))
}

/// The overview table of the State Charts header.
pub open spec fn charts_overview(rows: Seq<RowV>) -> SectionV {
    SectionV {
        title: "State Charts Overview"@,
        content: ContentV::Table {
            header: text_header(seq!["Name"@, "States"@, "Transitions"@]),
            rows,
            constraints: seq![
                ColumnConstraint::Percentage(60),
                ColumnConstraint::Percentage(20),
                ColumnConstraint::Percentage(20),
            ],
            use_row_selection: true,
        },
        render_as_header: false,
        section_type: DetailSectionType::Overview,
        byte_pattern_rows: None,
    }
}

/// The overview of the charts, each row leading to the chart's node.
pub fn build_state_charts_overview_table(
    chart_summaries: &[(String, usize, usize)],
    node_indices: &StringHashMap<usize>,
) -> (r: Vec<DetailSectionData>)
    ensures
        sections_view(r@) == seq![charts_overview(summary_rows(chart_summaries@, node_indices@))],
{
    let header = DetailRow::header(
        vec![DetailCell::text("Name"), DetailCell::text("States"), DetailCell::text("Transitions")],
    );
    proof {
        assert(cells_view(header.cells@) =~= text_header(seq!["Name"@, "States"@, "Transitions"@]).cells);
    }
    let mut rows: Vec<DetailRow> = Vec::new();
    let mut i: usize = 0;
    while i < chart_summaries.len()
        invariant
            i <= chart_summaries@.len(),
            rows@.len() == i,
            forall|k: int| 0 <= k < i ==> (#[trigger] rows@[k])@ == summary_row(chart_summaries@[k], node_indices@),
        decreases chart_summaries@.len() - i,
    {
        let (name, states, transitions) = &chart_summaries[i];
        let cells = vec![
            index_jump_cell_exec(name.as_str(), node_indices),
            DetailCell::new(usize_to_decimal(*states).as_str(), CellType::NumericValue),
            DetailCell::new(usize_to_decimal(*transitions).as_str(), CellType::NumericValue),
        ];
        proof {
            assert(cells_view(cells@) =~= summary_row(chart_summaries@[i as int], node_indices@).cells);
        }
        rows.push(DetailRow::normal(cells, 0));
        i = i + 1;
    }
    proof {
        assert(rows_view(rows@) =~= Seq::new(
            chart_summaries@.len(),
            |k: int| summary_row(chart_summaries@[k], node_indices@),
        ));
    }
    let constraints = vec![
        ColumnConstraint::Percentage(60),
        ColumnConstraint::Percentage(20),
        ColumnConstraint::Percentage(20),
    ];
    assert(constraints@ =~= seq![
        ColumnConstraint::Percentage(60),
        ColumnConstraint::Percentage(20),
        ColumnConstraint::Percentage(20),
    ]);
    let section = DetailSectionData {
        title: "State Charts Overview".to_owned(),
        render_as_header: false,
        section_type: DetailSectionType::Overview,
        content: DetailContent::Table { header, rows, constraints, use_row_selection: true },
        byte_pattern_rows: None,
    };
    let ghost sv = section@;
    let r = vec![section];
    assert(sections_view(r@) =~= seq![sv]);
    r
}

// The node of a chart
/// The row of a transition: its name, source and target (`?` for each
/// missing).
pub open spec fn transition_row(t: TransitionInfo) -> RowV {
    plain_row(
        seq![
            plain_cell(or_else(t.short_name, "?"@), CellType::Text),
            plain_cell(or_else(t.source, "?"@), CellType::Text),
            plain_cell(or_else(t.target, "?"@), CellType::Text),
        ],
        DetailRowType::Normal,
    )
}

pub open spec fn transition_rows(c: StateChartInfo) -> Seq<RowV> {
    Seq::new(c.transitions@.len(), |k: int| transition_row(c.transitions@[k]))
}

/// The row of a state: its name (`?` when missing).
pub open spec fn state_row(st: StateInfo) -> RowV {
    plain_row(seq![plain_cell(or_else(st.short_name, "?"@), CellType::Text)], DetailRowType::Normal)
}

pub open spec fn state_rows(c: StateChartInfo) -> Seq<RowV> {
    Seq::new(c.states@.len(), |k: int| state_row(c.states@[k]))
}

/// The name a chart is shown and found by (`unnamed` when it has none).
pub open spec fn chart_name(c: StateChartInfo) -> Seq<char> {
    or_else(c.short_name, "unnamed"@)
}

/// The header tab of a chart, with its semantic.
pub open spec fn chart_header(c: StateChartInfo) -> SectionV {
    SectionV {
        title: "State Chart - "@ + chart_name(c),
        content: ContentV::PlainText(seq!["Semantic: "@ + or_else(c.semantic, Seq::empty())]),
        render_as_header: true,
        section_type: DetailSectionType::Header,
        byte_pattern_rows: None,
    }
}

/// The tabs of a chart: its header, its transitions and its states, each
/// table sorted by the lower-cased text of its first column.
pub open spec fn chart_sections_hold(v: Seq<SectionV>, c: StateChartInfo) -> bool {
    &&& v.len() == 3
    &&& v[0] == chart_header(c)
    &&& exists|t: Seq<RowV>| stable_sort_by(t, transition_rows(c), by_first_cell()) && v[1] == transitions_section(t)
    &&& exists|t: Seq<RowV>| stable_sort_by(t, state_rows(c), by_first_cell()) && v[2] == states_section(t)
}

fn build_chart_sections(c: &StateChartInfo) -> (r: Vec<DetailSectionData>)
    ensures
        chart_sections_hold(sections_view(r@), *c),
{
    let name = or_else_exec(&c.short_name, "unnamed");
    let semantic = or_else_exec(&c.semantic, "");
    let mut t_rows: Vec<DetailRow> = Vec::new();
    let mut i: usize = 0;
    while i < c.transitions.len()
        invariant
            i <= c.transitions@.len(),
            t_rows@.len() == i,
            forall|k: int| 0 <= k < i ==> (#[trigger] t_rows@[k])@ == transition_row(c.transitions@[k]),
        decreases c.transitions@.len() - i,
    {
        let t = &c.transitions[i];
        let cells = vec![
            DetailCell::text(or_else_exec(&t.short_name, "?").as_str()),
            DetailCell::text(or_else_exec(&t.source, "?").as_str()),
            DetailCell::text(or_else_exec(&t.target, "?").as_str()),
        ];
        proof {
            assert(cells_view(cells@) =~= transition_row(*t).cells);
        }
        t_rows.push(DetailRow::normal(cells, 0));
        i = i + 1;
    }
    assert(rows_view(t_rows@) =~= transition_rows(*c));
    let mut s_rows: Vec<DetailRow> = Vec::new();
    let mut j: usize = 0;
    while j < c.states.len()
        invariant
            j <= c.states@.len(),
            s_rows@.len() == j,
            forall|k: int| 0 <= k < j ==> (#[trigger] s_rows@[k])@ == state_row(c.states@[k]),
        decreases c.states@.len() - j,
    {
        let cells = vec![DetailCell::text(or_else_exec(&c.states[j].short_name, "?").as_str())];
        proof {
            assert(cells_view(cells@) =~= state_row(c.states@[j as int]).cells);
        }
        s_rows.push(DetailRow::normal(cells, 0));
        j = j + 1;
    }
    assert(rows_view(s_rows@) =~= state_rows(*c));
    let mut title = "State Chart - ".to_owned();
    title.append(name.as_str());
    let mut line = "Semantic: ".to_owned();
    line.append(semantic.as_str());
    let lines = vec![line];
    let header = DetailSectionData {
        title,
        render_as_header: true,
        section_type: DetailSectionType::Header,
        content: DetailContent::PlainText(lines),
        byte_pattern_rows: None,
    };
    proof {
        reveal_strlit("");
        assert(strings_view(lines@) =~= seq!["Semantic: "@ + or_else(c.semantic, Seq::empty())]);
    }
    let transitions = build_transitions_section(t_rows);
    let states = build_states_section(s_rows);
    let ghost hv = header@;
    let ghost tv = transitions@;
    let ghost sv = states@;
    let r = vec![header, transitions, states];
    assert(sections_view(r@) =~= seq![hv, tv, sv]);
    r
}

// The whole list
/// Charts sort by their lower-cased names (a chart without a name as empty).
pub open spec fn by_chart_name() -> spec_fn(StateChartInfo) -> RankKeyV {
    |c: StateChartInfo| RankKeyV::Text(lowercase(or_else(c.short_name, Seq::empty())))
}

fn sort_charts(v: Vec<StateChartInfo>) -> (r: Vec<StateChartInfo>)
    ensures
        stable_sort_by(r@, v@, by_chart_name()),
{
    let ghost input = v@;
    let mut rest = v;
    let mut ranked: Vec<Ranked<StateChartInfo>> = Vec::new();
    let ghost mut n: int = 0;
    while rest.len() > 0
        invariant
            0 <= n <= input.len(),
            rest@ == input.subrange(n, input.len() as int),
            items_of(ranked@) == input.subrange(0, n),
            forall|k: int| 0 <= k < ranked@.len() ==> (#[trigger] ranked@[k]).key@ == by_chart_name()(ranked@[k].item),
        decreases rest@.len(),
    {
        let ghost before = rest@;
        let c = rest.remove(0);
        assert(c == input[n]) by {
            assert(before[0] == input.subrange(n, input.len() as int)[0]);
        }
        let nm = or_else_exec(&c.short_name, "");
        proof {
            reveal_strlit("");
            assert(""@ =~= Seq::<char>::empty());
            assert(nm@ == or_else(c.short_name, Seq::empty()));
        }
        let key = to_lower(nm.as_str());
        let ghost prev = ranked@;
        ranked.push(Ranked { key: RankKey::Text(key), item: c });
        proof {
            assert(ranked@.last().item == input[n]);
            assert(items_of(ranked@) =~= items_of(prev).push(input[n]));
            assert(input.subrange(0, n + 1) =~= input.subrange(0, n).push(input[n]));
            n = n + 1;
            assert(rest@ =~= input.subrange(n, input.len() as int));
        }
    }
    assert(input.subrange(0, n) =~= input);
    sort_ranked(ranked, Ghost(by_chart_name()))
}

/// The node of a chart.
pub open spec fn chart_node_holds(n: NodeV, depth: usize, c: StateChartInfo) -> bool {
    &&& n.depth == sat_depth(depth, 1)
    &&& n.text == chart_name(c)
    &&& !n.expanded && !n.has_children
    &&& n.node_type == NodeType::Default
    &&& n.payload == PayloadV::Empty
    &&& n.parent_idx is None && n.diff_status is None && n.old_text is None
    &&& chart_sections_hold(n.detail_sections, c)
}

/// The node positions by chart name after the first `n` charts (a later
/// chart of the same name wins).
pub open spec fn chart_map(cs: Seq<StateChartInfo>, base: int, n: int) -> Map<Seq<char>, usize>
    decreases n,
{
    if n <= 0 {
        Map::empty()
    } else {
        chart_map(cs, base, n - 1).insert(chart_name(cs[n - 1]), (base + n - 1) as usize)
    }
}

/// The overview row of a chart: its name, and its numbers of states and
/// transitions.
pub open spec fn chart_row(c: StateChartInfo, m: Map<Seq<char>, usize>) -> RowV {
    summary_row_of(chart_name(c), c.states@.len(), c.transitions@.len(), m)
}

/// The header of the State Charts list.
pub open spec fn charts_header(depth: usize, cs: Seq<StateChartInfo>, m: Map<Seq<char>, usize>) -> NodeV {
    NodeV {
        depth,
        text: "State Charts ("@ + decimal(cs.len()) + ")"@,
        expanded: false,
        has_children: true,
        detail_sections: seq![charts_overview(Seq::new(cs.len(), |k: int| chart_row(cs[k], m)))],
        node_type: NodeType::SectionHeader,
        payload: PayloadV::ServiceListHeader { service_list_type: ServiceListType::StateCharts },
        parent_idx: None,
        diff_status: None,
        old_text: None,
    }
}

/// The nodes `v` are `before` with the State Charts list added for the
/// charts `cs` in list order: the header, then a node per chart; the
/// header's overview leads to the nodes by chart name.
pub open spec fn charts_added(before: Seq<NodeV>, v: Seq<NodeV>, cs: Seq<StateChartInfo>, depth: usize) -> bool {
    let h = before.len() as int;
    &&& v.len() == h + 1 + cs.len()
    &&& v.subrange(0, h) == before
    &&& v[h] == charts_header(depth, cs, chart_map(cs, h + 1, cs.len() as int))
    &&& forall|k: int| 0 <= k < cs.len() ==> chart_node_holds(v[h + 1 + k], depth, #[trigger] cs[k])
}

proof fn lemma_sort_len<T>(out: Seq<T>, input: Seq<T>, key: spec_fn(T) -> RankKeyV)
    requires
        stable_sort_by(out, input, key),
    ensures
        out.len() == input.len(),
{
    let perm = choose|perm: Seq<int>| reorders_stably(out, input, key, perm);
}

/// Adds the State Charts list of a layer: a header titled with the number of
/// charts, then a node per chart sorted by lower-cased name, with its
/// semantic, its transitions and its states; the header's overview lists
/// each chart's numbers of states and transitions and leads to its node.
/// Nothing is added for a layer without charts.
#[verifier::spinoff_prover]
#[verifier::rlimit(40)]
pub fn add_state_charts(b: &mut TreeBuilder, charts: Vec<StateChartInfo>, depth: usize)
    ensures
        charts@.len() == 0 ==> nodes_view(final(b).nodes@) == nodes_view(old(b).nodes@),
        charts@.len() > 0 ==> exists|cs: Seq<StateChartInfo>|
            #[trigger] stable_sort_by(cs, charts@, by_chart_name()) && charts_added(
                nodes_view(old(b).nodes@),
                nodes_view(final(b).nodes@),
                cs,
                depth,
            ),
{
    let ghost input = charts@;
    let ghost before = nodes_view(b.nodes@);
    if charts.len() == 0 {
        return;
    }
    let count = charts.len();
    let header_idx = b.next_index();
    let ghost h = header_idx as int;
    let mut title = "State Charts (".to_owned();
    title.append(usize_to_decimal(count).as_str());
    title.append(")");
    let ghost nodes0 = b.nodes@;
    b.push_service_list_header(depth, title, false, true, Vec::new(), ServiceListType::StateCharts);
    proof {
        lemma_nodes_view_push(nodes0, b.nodes@.last());
        assert(b.nodes@ == nodes0.push(b.nodes@.last()));
    }
    let ghost head = nodes_view(b.nodes@);
    let cs = sort_charts(charts);
    proof {
        lemma_sort_len(cs@, input, by_chart_name());
        assert(head.subrange(0, h + 1) =~= head);
        assert(head.subrange(0, h) =~= before);
    }
    let mut node_indices: StringHashMap<usize> = StringHashMap::new();
    let mut i: usize = 0;
    while i < cs.len()
        invariant
            i <= cs@.len(),
            h == head.len() - 1,
            nodes_view(b.nodes@).len() == h + 1 + i,
            nodes_view(b.nodes@).subrange(0, h + 1) == head,
            forall|k: int| 0 <= k < i ==> chart_node_holds(nodes_view(b.nodes@)[h + 1 + k], depth, #[trigger] cs@[k]),
            node_indices@ == chart_map(cs@, h + 1, i as int),
        decreases cs@.len() - i,
    {
        let c = &cs[i];
        let sections = build_chart_sections(c);
        let name = or_else_exec(&c.short_name, "unnamed");
        let pos = b.next_index();
        node_indices.insert(name.clone(), pos);
        let ghost prev = b.nodes@;
        b.push_details_structured(depth.saturating_add(1), name, false, false, sections, NodeType::Default);
        proof {
            lemma_nodes_view_push(prev, b.nodes@.last());
            assert(b.nodes@ == prev.push(b.nodes@.last()));
            let v = nodes_view(b.nodes@);
            assert(v.subrange(0, h + 1) =~= nodes_view(prev).subrange(0, h + 1));
            assert(chart_node_holds(v[h + 1 + i], depth, cs@[i as int]));
            assert forall|k: int| 0 <= k < i + 1 implies chart_node_holds(v[h + 1 + k], depth, #[trigger] cs@[k]) by {
                if k < i {
                    assert(v[h + 1 + k] == nodes_view(prev)[h + 1 + k]);
                }
            }
        }
        i = i + 1;
    }
    let mut summaries: Vec<(String, usize, usize)> = Vec::new();
    let mut j: usize = 0;
    while j < cs.len()
        invariant
            j <= cs@.len(),
            summaries@.len() == j,
            forall|k: int|
                0 <= k < j ==> summary_row(#[trigger] summaries@[k], node_indices@) == chart_row(cs@[k], node_indices@),
        decreases cs@.len() - j,
    {
        let c = &cs[j];
        summaries.push((or_else_exec(&c.short_name, "unnamed"), c.states.len(), c.transitions.len()));
        j = j + 1;
    }
    let overview = build_state_charts_overview_table(summaries.as_slice(), &node_indices);
    let ghost before_set = nodes_view(b.nodes@);
    b.set_detail_sections(header_idx, overview);
    proof {
        let v = nodes_view(b.nodes@);
        let m = node_indices@;
        assert(summary_rows(summaries@, m) =~= Seq::new(cs@.len(), |k: int| chart_row(cs@[k], m)));
        assert(before_set.subrange(0, h + 1)[h] == head[h]);
        assert forall|x: int| 0 <= x < h implies #[trigger] v[x] == before[x] by {
            assert(v[x] == before_set[x]);
            assert(before_set[x] == before_set.subrange(0, h + 1)[x]);
            assert(head[x] == head.subrange(0, h)[x]);
        }
        assert(v.subrange(0, h) =~= before);
        let hd = charts_header(depth, cs@, m);
        assert(v[h].detail_sections =~= hd.detail_sections);
        assert(v[h].text == head[h].text);
        assert(v[h] == hd);
        assert forall|k: int| 0 <= k < cs@.len() implies chart_node_holds(v[h + 1 + k], depth, #[trigger] cs@[k]) by {
            assert(v[h + 1 + k] == before_set[h + 1 + k]);
        }
        assert(charts_added(before, v, cs@, depth));
    }
}

} // verus!
