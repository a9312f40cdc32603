//! Service labels, overviews and service tables, from plain descriptions of
//! diagnostic services.
use vstd::prelude::*;
use crate::diff::compare::{join, join_strings};
use crate::text::{decimal, hex, hex_padded, pad_left, u64_to_decimal, usize_to_decimal};
use crate::tree::elements::{
    build_property_table_with, plain_cell, plain_row, prop, prop_row, property_row, property_row_with,
    property_table_with, push_row,
};
use crate::tree::rows::make_index_jump;
use crate::tree::elements::params::{build_param_section, is_param_section, ParamInfo};
use crate::uds::byte_pattern::ByteField;
use crate::tree::types::{
    cells_view, rows_view, strings_view, CellJumpTarget, CellJumpTargetType, CellType, CellV,
    ColumnConstraint, ContentV, DetailCell, DetailContent, DetailRow, DetailRowType, DetailSectionData,
    DetailSectionType, JumpV, MetadataV, RowV, SectionV,
};
use vstd::hash_map::StringHashMap;

verus! {

broadcast use vstd::std_specs::vec::group_vec_axioms;

/// A precondition state reference: the state's name, the value, and the
/// input parameter it reads (by the parameter, else by its path).
#[derive(Clone, Debug)]
pub struct PreconditionRef {
    pub state: Option<String>,
    pub value: Option<String>,
    pub in_param_if: Option<String>,
    pub in_param_path: Option<String>,
}

/// A state transition: its name and the names of its source and target.
#[derive(Clone, Debug)]
pub struct TransitionInfo {
    pub short_name: Option<String>,
    pub source: Option<String>,
    pub target: Option<String>,
}

/// A state transition reference.
#[derive(Clone, Debug)]
pub struct TransitionRef {
    pub transition: Option<TransitionInfo>,
    pub value: Option<String>,
}

/// The audience of a primitive: its flags and the short names of the
/// additional audiences it enables (`None` for one without a name).
#[derive(Clone, Debug)]
pub struct AudienceInfo {
    pub is_manufacturing: bool,
    pub is_development: bool,
    pub is_after_sales: bool,
    pub is_after_market: bool,
    pub enabled: Vec<Option<String>>,
}

/// A special data entry.
#[derive(Clone, Debug)]
pub struct SdInfo {
    pub value: Option<String>,
    pub si: Option<String>,
    pub ti: Option<String>,
}

/// An entry of a special data group: a datum, or a nested group.
#[derive(Clone, Debug)]
pub enum SdEntry {
    Sd(SdInfo),
    Group,
}

/// A special data group: its caption, semantic id and entries.
#[derive(Clone, Debug)]
pub struct SdgInfo {
    pub caption: Option<String>,
    pub si: Option<String>,
    pub entries: Vec<SdEntry>,
}

/// What the views read of the communication primitive of a service.
#[derive(Clone, Debug)]
pub struct DiagCommInfo {
    pub short_name: Option<String>,
    pub semantic: Option<String>,
    /// The short name of its first functional class.
    pub funct_class: Option<String>,
    pub precondition_refs: Vec<PreconditionRef>,
    pub transition_refs: Vec<TransitionRef>,
    pub audience: Option<AudienceInfo>,
    pub sdgs: Vec<SdgInfo>,
}

/// The names of the states the preconditions refer to, those that have one.
pub open spec fn state_names(refs: Seq<PreconditionRef>) -> Seq<Seq<char>>
    decreases refs.len(),
{
    if refs.len() == 0 {
        Seq::empty()
    } else {
        state_names(refs.drop_last()) + match refs.last().state {
            Some(n) => seq![n@],
            None => Seq::empty(),
        }
    }
}

fn collect_state_names(refs: &Vec<PreconditionRef>) -> (r: Vec<String>)
    ensures
        strings_view(r@) == state_names(refs@),
{
    let mut r: Vec<String> = Vec::new();
    let mut i: usize = 0;
    while i < refs.len()
        invariant
            i <= refs@.len(),
            strings_view(r@) == state_names(refs@.subrange(0, i as int)),
        decreases refs@.len() - i,
    {
        proof {
            assert(refs@.subrange(0, i as int + 1).drop_last() =~= refs@.subrange(0, i as int));
        }
        let ghost before = r@;
        if let Some(n) = &refs[i].state {
            r.push(n.clone());
            assert(strings_view(r@) =~= strings_view(before).push(n@));
        }
        proof {
            assert(strings_view(r@) =~= state_names(refs@.subrange(0, i as int + 1)));
        }
        i = i + 1;
    }
    assert(refs@.subrange(0, refs@.len() as int) =~= refs@);
    r
}

/// What the views read of a diagnostic service. `extra_bytes` are the
/// two-digit hex texts of the constant request bytes after the service and
/// sub-function ids; addressing and transmission are given by name.
#[derive(Clone, Debug)]
pub struct ServiceInfo {
    pub diag_comm: Option<DiagCommInfo>,
    pub request_id: Option<u8>,
    pub sub_function: Option<(u32, u32)>,
    pub extra_bytes: Vec<String>,
    pub addressing: String,
    pub transmission: String,
}

/// Upper-case hex of `n`, at least `w` digits.
pub open spec fn hex_w(n: nat, w: nat) -> Seq<char> {
    pad_left(hex(n), '0', w)
}

/// A sub-function id: two hex digits for up to 8 bits, else four.
pub open spec fn sub_fn_hex(sub_fn: u32, bit_len: u32) -> Seq<char> {
    if bit_len <= 8 {
        hex_w(sub_fn as nat, 2)
    } else {
        hex_w(sub_fn as nat, 4)
    }
}

fn sub_fn_hex_exec(sub_fn: u32, bit_len: u32) -> (r: String)
    ensures
        r@ == sub_fn_hex(sub_fn, bit_len),
{
    if bit_len <= 8 {
        hex_padded(sub_fn as u64, 2)
    } else {
        hex_padded(sub_fn as u64, 4)
    }
}

/// The id of a service, `0x` and its request bytes; empty without a
/// service id.
pub open spec fn service_id_text(s: ServiceInfo) -> Seq<char> {
    match s.request_id {
        None => Seq::empty(),
        Some(sid) => "0x"@ + hex_w(sid as nat, 2) + (match s.sub_function {
            Some((f, b)) => sub_fn_hex(f, b),
            None => Seq::empty(),
        }) + join(strings_view(s.extra_bytes@), Seq::empty()),
    }
}

pub fn format_service_id(s: &ServiceInfo) -> (r: String)
    ensures
        r@ == service_id_text(*s),
{
    match s.request_id {
        None => String::new(),
        Some(sid) => {
            let mut r = "0x".to_owned();
            r.append(hex_padded(sid as u64, 2).as_str());
            match s.sub_function {
                Some((f, b)) => r.append(sub_fn_hex_exec(f, b).as_str()),
                None => {},
            }
            let empty = String::new();
            r.append(join_strings(&s.extra_bytes, empty.as_str()).as_str());
            r
        },
    }
}

/// The short name of a service's primitive, `?` when it has none.
pub open spec fn service_name(dc: DiagCommInfo) -> Seq<char> {
    match dc.short_name {
        Some(n) => n@,
        None => "?"@,
    }
}

/// The label of a service node: its id and name, or only the name without
/// a service id; none without a primitive.
pub open spec fn service_display_name(s: ServiceInfo) -> Option<Seq<char>> {
    match s.diag_comm {
        None => None,
        Some(dc) => Some(
            if s.request_id is Some {
                service_id_text(s) + " - "@ + service_name(dc)
            } else {
                service_name(dc)
            },
        ),
    }
}

pub fn format_service_display_name(s: &ServiceInfo) -> (r: Option<String>)
    ensures
        opt_view(r) == service_display_name(*s),
{
    let dc = match &s.diag_comm {
        Some(dc) => dc,
        None => {
            return None;
        },
    };
    let name = match &dc.short_name {
        Some(n) => n.clone(),
        None => "?".to_owned(),
    };
    if s.request_id.is_some() {
        let mut r = format_service_id(s);
        r.append(" - ");
        r.append(name.as_str());
        Some(r)
    } else {
        Some(name)
    }
}

pub open spec fn opt_view(o: Option<String>) -> Option<Seq<char>> {
    match o {
        Some(s) => Some(s@),
        None => None,
    }
}

// Overview
/// The rows every service view starts its overview with.
pub open spec fn service_overview_rows(s: ServiceInfo, parent: Option<Seq<char>>, container: Option<usize>) -> Seq<
    RowV,
> {
    (match s.diag_comm {
        Some(dc) => (match dc.short_name {
            Some(n) => seq![prop("Service"@, n@, CellType::Text)],
            None => Seq::empty(),
        }) + match dc.semantic {
            Some(x) => seq![prop("Semantic"@, x@, CellType::Text)],
            None => Seq::empty(),
        },
        None => Seq::empty(),
    }) + (match s.request_id {
        Some(sid) => seq![prop("SID"@, "0x"@ + hex_w(sid as nat, 2), CellType::Text)],
        None => Seq::empty(),
    }) + (match s.sub_function {
        Some((f, b)) => seq![
            prop("Sub-Function"@, "0x"@ + sub_fn_hex(f, b) + " ("@ + decimal(b as nat) + " bits)"@, CellType::Text),
        ],
        None => Seq::empty(),
    }) + seq![
        prop("Addressing"@, s.addressing@, CellType::Text),
        prop("Transmission"@, s.transmission@, CellType::Text),
    ] + match parent {
        Some(p) => seq![inherited_row(p, container)],
        None => Seq::empty(),
    }
}

/// The row naming the layer a service is inherited from, leading to it.
pub open spec fn inherited_row(layer: Seq<char>, container: Option<usize>) -> RowV {
    RowV {
        cells: seq![
            plain_cell("Inherited From"@, CellType::Text),
            CellV {
                text: layer,
                cell_type: CellType::ParameterName,
                jump_target: Some(
                    JumpV::TreeNodeByIndex {
                        index: match container {
                            Some(i) => i,
                            None => usize::MAX,
                        },
                        short_name: layer,
                    },
                ),
            },
        ],
        indent: 0,
        row_type: DetailRowType::InheritedFrom,
        metadata: Some(MetadataV::InheritedFrom { layer_name: layer }),
        diff_status: None,
    }
}

pub fn build_service_overview_rows(s: &ServiceInfo, parent_layer_name: Option<&str>, container_index: Option<usize>) -> (r:
    Vec<DetailRow>)
    ensures
        rows_view(r@) == service_overview_rows(
            *s,
            match parent_layer_name {
                Some(p) => Some(p@),
                None => None,
            },
            container_index,
        ),
{
    let mut rows: Vec<DetailRow> = Vec::new();
    assert(rows_view(rows@) =~= Seq::<RowV>::empty());
    if let Some(dc) = &s.diag_comm {
        if let Some(n) = &dc.short_name {
            push_row(&mut rows, prop_row("Service", n.as_str(), CellType::Text));
        }
        let ghost mid = rows_view(rows@);
        if let Some(x) = &dc.semantic {
            push_row(&mut rows, prop_row("Semantic", x.as_str(), CellType::Text));
        }
    }
    let ghost a = rows_view(rows@);
    if let Some(sid) = s.request_id {
        let mut t = "0x".to_owned();
        t.append(hex_padded(sid as u64, 2).as_str());
        push_row(&mut rows, prop_row("SID", t.as_str(), CellType::Text));
    }
    let ghost b = rows_view(rows@);
    if let Some((f, bits)) = s.sub_function {
        let mut t = "0x".to_owned();
        t.append(sub_fn_hex_exec(f, bits).as_str());
        t.append(" (");
        t.append(u64_to_decimal(bits as u64).as_str());
        t.append(" bits)");
        push_row(&mut rows, prop_row("Sub-Function", t.as_str(), CellType::Text));
    }
    let ghost c = rows_view(rows@);
    push_row(&mut rows, prop_row("Addressing", s.addressing.as_str(), CellType::Text));
    push_row(&mut rows, prop_row("Transmission", s.transmission.as_str(), CellType::Text));
    let ghost d = rows_view(rows@);
    if let Some(p) = parent_layer_name {
        let row = DetailRow::inherited_from(p.to_owned(), container_index);
        push_row(&mut rows, row);
    }
    assert(rows_view(rows@) =~= service_overview_rows(
        *s,
        match parent_layer_name {
            Some(p) => Some(p@),
            None => None,
        },
        container_index,
    ));
    rows
}

/// A property / value overview table (30% / 70%, rows selectable).
pub open spec fn overview_table(rows: Seq<RowV>) -> SectionV {
    SectionV {
        title: "Overview"@,
        content: ContentV::Table {
            header: plain_row(
                seq![plain_cell("Property"@, CellType::Text), plain_cell("Value"@, CellType::Text)],
                DetailRowType::Header,
            ),
            rows,
            constraints: seq![ColumnConstraint::Percentage(30), ColumnConstraint::Percentage(70)],
            use_row_selection: true,
        },
        render_as_header: false,
        section_type: DetailSectionType::Overview,
        byte_pattern_rows: None,
    }
}

pub(crate) fn build_overview_table(rows: Vec<DetailRow>) -> (r: DetailSectionData)
    ensures
        r@ == overview_table(rows_view(rows@)),
{
    let header = DetailRow::header(vec![DetailCell::text("Property"), DetailCell::text("Value")]);
    proof {
        assert(cells_view(header.cells@) =~= overview_table(Seq::empty()).content->Table_header.cells);
    }
    let constraints = vec![ColumnConstraint::Percentage(30), ColumnConstraint::Percentage(70)];
    DetailSectionData::new(
        "Overview".to_owned(),
        DetailContent::Table { header, rows, constraints, use_row_selection: true },
        false,
    ).with_type(DetailSectionType::Overview)
}

/// The overview tab of a request or response view.
pub fn build_service_overview_section(
    s: &ServiceInfo,
    parent_layer_name: Option<&str>,
    container_index: Option<usize>,
) -> (r: DetailSectionData)
    ensures
        r@ == overview_table(
            service_overview_rows(
                *s,
                match parent_layer_name {
                    Some(p) => Some(p@),
                    None => None,
                },
                container_index,
            ),
        ),
{
    build_overview_table(build_service_overview_rows(s, parent_layer_name, container_index))
}

/// The rows the diag-comm view adds: the precondition states when there
/// are any, and the functional class leading to its node.
pub open spec fn diag_comm_extra_rows(s: ServiceInfo) -> Seq<RowV> {
    match s.diag_comm {
        Some(dc) => (if state_names(dc.precondition_refs@).len() > 0 {
            seq![prop("State"@, join(state_names(dc.precondition_refs@), ", "@), CellType::Text)]
        } else {
            Seq::empty()
        }) + seq![
            property_row(
                "Functional Class"@,
                CellV {
                    text: funct_class_name(dc),
                    cell_type: CellType::ParameterName,
                    jump_target: Some(JumpV::TreeNodeByIndex { index: usize::MAX, short_name: funct_class_name(dc) }),
                },
            ),
        ],
        None => Seq::empty(),
    }
}

/// The functional class of a primitive, `-` when it has none.
pub open spec fn funct_class_name(dc: DiagCommInfo) -> Seq<char> {
    match dc.funct_class {
        Some(n) => n@,
        None => "-"@,
    }
}

fn funct_class_exec(dc: &DiagCommInfo) -> (r: String)
    ensures
        r@ == funct_class_name(*dc),
{
    match &dc.funct_class {
        Some(n) => n.clone(),
        None => "-".to_owned(),
    }
}

/// The overview tab of the diag-comm view of a service.
pub fn build_overview_section(s: &ServiceInfo, parent_layer_name: Option<&str>, container_index: Option<usize>) -> (r:
    DetailSectionData)
    ensures
        r@ == overview_table(
            service_overview_rows(
                *s,
                match parent_layer_name {
                    Some(p) => Some(p@),
                    None => None,
                },
                container_index,
            ) + diag_comm_extra_rows(*s),
        ),
{
    let mut rows = build_service_overview_rows(s, parent_layer_name, container_index);
    let ghost start = rows_view(rows@);
    if let Some(dc) = &s.diag_comm {
        let names = collect_state_names(&dc.precondition_refs);
        if names.len() > 0 {
            let states = join_strings(&names, ", ");
            push_row(&mut rows, prop_row("State", states.as_str(), CellType::Text));
        }
        let ghost mid = rows_view(rows@);
        let fc = funct_class_exec(dc);
        let cell = DetailCell::new(fc.as_str(), CellType::ParameterName).with_jump(
            CellJumpTarget::new(CellJumpTargetType::TreeNodeByIndex { index: usize::MAX, short_name: fc.clone() }),
        );
        push_row(&mut rows, property_row_with("Functional Class", cell));
    }
    assert(rows_view(rows@) =~= start + diag_comm_extra_rows(*s));
    build_overview_table(rows)
}

// Service tables
/// The id column of a service table: the id, or `-`.
pub open spec fn id_or_dash(s: ServiceInfo) -> Seq<char> {
    if service_id_text(s).len() == 0 {
        "-"@
    } else {
        service_id_text(s)
    }
}

pub(crate) fn id_or_dash_exec(s: &ServiceInfo) -> (r: String)
    ensures
        r@ == id_or_dash(*s),
{
    let id = format_service_id(s);
    if id.as_str().is_empty() {
        "-".to_owned()
    } else {
        id
    }
}

/// A cell naming a node and leading to it by its known position.
pub open spec fn index_jump_cell(name: Seq<char>, m: Map<Seq<char>, usize>) -> CellV {
    CellV {
        text: name,
        cell_type: CellType::ParameterName,
        jump_target: Some(
            JumpV::TreeNodeByIndex {
                index: if m.contains_key(name) {
                    m[name]
                } else {
                    usize::MAX
                },
                short_name: name,
            },
        ),
    }
}

pub(crate) fn index_jump_cell_exec(name: &str, node_indices: &StringHashMap<usize>) -> (r: DetailCell)
    ensures
        r@ == index_jump_cell(name@, node_indices@),
{
    DetailCell::new(name, CellType::ParameterName).with_jump(make_index_jump(name, node_indices))
}

/// The text of a flag.
pub open spec fn flag_text(b: bool) -> Seq<char> {
    if b {
        "true"@
    } else {
        "false"@
    }
}

/// The row of a service in a service table: the diag-comm table (`wide`)
/// also shows the functional class and the kind.
pub open spec fn service_table_row(s: ServiceInfo, inherited: bool, m: Map<Seq<char>, usize>, wide: bool) -> RowV {
    let dc = s.diag_comm->Some_0;
    plain_row(
        if wide {
            seq![
                plain_cell(id_or_dash(s), CellType::Text),
                index_jump_cell(service_name(dc), m),
                plain_cell(funct_class_name(dc), CellType::Text),
                plain_cell("Service"@, CellType::Text),
                plain_cell(flag_text(inherited), CellType::Text),
            ]
        } else {
            seq![
                plain_cell(id_or_dash(s), CellType::Text),
                index_jump_cell(service_name(dc), m),
                plain_cell(flag_text(inherited), CellType::Text),
            ]
        },
        DetailRowType::Normal,
    )
}

/// The rows of the services that have a primitive.
pub open spec fn service_rows(services: Seq<ServiceInfo>, inherited: bool, m: Map<Seq<char>, usize>, wide: bool) -> Seq<RowV> {
    let listed = services.filter(|s: ServiceInfo| s.diag_comm is Some);
    Seq::new(listed.len(), |k: int| service_table_row(listed[k], inherited, m, wide))
}

pub open spec fn firsts(v: Seq<(ServiceInfo, String)>) -> Seq<ServiceInfo> {
    v.map_values(|p: (ServiceInfo, String)| p.0)
}

/// The row of a job in the diag-comm table.
pub open spec fn job_row(name: Seq<char>, m: Map<Seq<char>, usize>) -> RowV {
    plain_row(
        seq![
            plain_cell("-"@, CellType::Text),
            index_jump_cell(name, m),
            plain_cell("-"@, CellType::Text),
            plain_cell("Job"@, CellType::Text),
            plain_cell("false"@, CellType::Text),
        ],
        DetailRowType::Normal,
    )
}

/// A count that stops at the largest `usize`.
pub open spec fn sat_sum(a: nat, b: nat) -> nat {
    if a + b > usize::MAX {
        usize::MAX as nat
    } else {
        a + b
    }
}

/// The table of the diag-comm header: own services, inherited services,
/// then jobs; its title counts services (with or without a primitive) and
/// jobs.
pub open spec fn diag_comms_table(
    own: Seq<ServiceInfo>,
    parents: Seq<(ServiceInfo, String)>,
    jobs: Seq<String>,
    m: Map<Seq<char>, usize>,
) -> SectionV {
    SectionV {
        title: "Diag-Comms ("@ + decimal(sat_sum(own.len(), parents.len())) + " services, "@ + decimal(jobs.len())
            + " jobs)"@,
        content: ContentV::Table {
            header: plain_row(
                seq![
                    plain_cell("ID"@, CellType::Text),
                    plain_cell("Short Name"@, CellType::Text),
                    plain_cell("Funct Class"@, CellType::Text),
                    plain_cell("Type"@, CellType::Text),
                    plain_cell("Inherited"@, CellType::Text),
                ],
                DetailRowType::Header,
            ),
            rows: service_rows(own, false, m, true) + service_rows(firsts(parents), true, m, true) + Seq::new(
                jobs.len(),
                |k: int| job_row(jobs[k]@, m),
            ),
            constraints: seq![
                ColumnConstraint::Percentage(12),
                ColumnConstraint::Percentage(35),
                ColumnConstraint::Percentage(20),
                ColumnConstraint::Percentage(13),
                ColumnConstraint::Percentage(20),
            ],
            use_row_selection: true,
        },
        render_as_header: false,
        section_type: DetailSectionType::Services,
        byte_pattern_rows: None,
    }
}

pub(crate) proof fn lemma_listed_push_own(own: Seq<ServiceInfo>, s: ServiceInfo)
    ensures
        own.push(s).filter(|x: ServiceInfo| x.diag_comm is Some) == own.filter(|x: ServiceInfo| x.diag_comm is Some)
            + if s.diag_comm is Some {
            seq![s]
        } else {
            Seq::empty()
        },
{
    let f = |x: ServiceInfo| x.diag_comm is Some;
    assert(own.push(s).drop_last() =~= own);
    own.lemma_filter_push(s, f);
    if !(s.diag_comm is Some) {
        assert(own.filter(f) + Seq::<ServiceInfo>::empty() =~= own.filter(f));
    }
}

/// Appends the rows of the services with a primitive.
fn push_service_rows(
    rows: &mut Vec<DetailRow>,
    services: &Vec<ServiceInfo>,
    inherited: bool,
    node_indices: &StringHashMap<usize>,
    wide: bool,
)
    ensures
        rows_view(final(rows)@) == rows_view(old(rows)@) + service_rows(services@, inherited, node_indices@, wide),
{
    let ghost start = rows_view(rows@);
    let mut i: usize = 0;
    while i < services.len()
        invariant
            i <= services@.len(),
            rows_view(rows@) == start + service_rows(services@.subrange(0, i as int), inherited, node_indices@, wide),
        decreases services@.len() - i,
    {
        let s = &services[i];
        proof {
            assert(services@.subrange(0, i as int + 1) =~= services@.subrange(0, i as int).push(*s));
            lemma_listed_push_own(services@.subrange(0, i as int), *s);
        }
        push_service_row(rows, s, inherited, node_indices, wide);
        proof {
            assert(rows_view(rows@) =~= start + service_rows(
                services@.subrange(0, i as int + 1),
                inherited,
                node_indices@,
                wide,
            ));
        }
        i = i + 1;
    }
    assert(services@.subrange(0, services@.len() as int) =~= services@);
}

pub(crate) fn push_service_row(
    rows: &mut Vec<DetailRow>,
    s: &ServiceInfo,
    inherited: bool,
    node_indices: &StringHashMap<usize>,
    wide: bool,
)
    ensures
        rows_view(final(rows)@) == rows_view(old(rows)@) + if s.diag_comm is Some {
            seq![service_table_row(*s, inherited, node_indices@, wide)]
        } else {
            Seq::<RowV>::empty()
        },
{
    if let Some(dc) = &s.diag_comm {
        let name = match &dc.short_name {
            Some(n) => n.clone(),
            None => "?".to_owned(),
        };
        let flag = if inherited {
            "true"
        } else {
            "false"
        };
        let cells = if wide {
            vec![
                DetailCell::text(id_or_dash_exec(s).as_str()),
                index_jump_cell_exec(name.as_str(), node_indices),
                DetailCell::text(funct_class_exec(dc).as_str()),
                DetailCell::text("Service"),
                DetailCell::text(flag),
            ]
        } else {
            vec![
                DetailCell::text(id_or_dash_exec(s).as_str()),
                index_jump_cell_exec(name.as_str(), node_indices),
                DetailCell::text(flag),
            ]
        };
        proof {
            assert(cells_view(cells@) =~= service_table_row(*s, inherited, node_indices@, wide).cells);
        }
        push_row(rows, DetailRow::normal(cells, 0));
    } else {
        assert(rows_view(rows@) =~= rows_view(old(rows)@) + Seq::<RowV>::empty());
    }
}

/// Appends the rows of the inherited services with a primitive.
fn push_parent_rows(
    rows: &mut Vec<DetailRow>,
    parents: &Vec<(ServiceInfo, String)>,
    node_indices: &StringHashMap<usize>,
    wide: bool,
)
    ensures
        rows_view(final(rows)@) == rows_view(old(rows)@) + service_rows(firsts(parents@), true, node_indices@, wide),
{
    let ghost start = rows_view(rows@);
    let mut i: usize = 0;
    while i < parents.len()
        invariant
            i <= parents@.len(),
            rows_view(rows@) == start + service_rows(firsts(parents@.subrange(0, i as int)), true, node_indices@, wide),
        decreases parents@.len() - i,
    {
        let s = &parents[i].0;
        proof {
            assert(firsts(parents@.subrange(0, i as int + 1)) =~= firsts(parents@.subrange(0, i as int)).push(*s));
            lemma_listed_push_own(firsts(parents@.subrange(0, i as int)), *s);
        }
        push_service_row(rows, s, true, node_indices, wide);
        proof {
            assert(rows_view(rows@) =~= start + service_rows(
                firsts(parents@.subrange(0, i as int + 1)),
                true,
                node_indices@,
                wide,
            ));
        }
        i = i + 1;
    }
    assert(parents@.subrange(0, parents@.len() as int) =~= parents@);
}

pub fn build_diag_comms_table_section(
    own: &Vec<ServiceInfo>,
    parents: &Vec<(ServiceInfo, String)>,
    job_names: &Vec<String>,
    node_indices: &StringHashMap<usize>,
) -> (r: DetailSectionData)
    ensures
        r@ == diag_comms_table(own@, parents@, job_names@, node_indices@),
{
    let mut rows: Vec<DetailRow> = Vec::new();
    assert(rows_view(rows@) =~= Seq::<RowV>::empty());
    push_service_rows(&mut rows, own, false, node_indices, true);
    push_parent_rows(&mut rows, parents, node_indices, true);
    let count = own.len().saturating_add(parents.len());
    diag_table_from_rows(rows, job_names, count, node_indices, Ghost(own@), Ghost(parents@))
}

/// The diag-comm table from the rows of its services.
pub(crate) fn diag_table_from_rows(
    rows: Vec<DetailRow>,
    job_names: &Vec<String>,
    count: usize,
    node_indices: &StringHashMap<usize>,
    Ghost(own): Ghost<Seq<ServiceInfo>>,
    Ghost(parents): Ghost<Seq<(ServiceInfo, String)>>,
) -> (r: DetailSectionData)
    requires
        rows_view(rows@) == service_rows(own, false, node_indices@, true) + service_rows(
            firsts(parents),
            true,
            node_indices@,
            true,
        ),
        count == sat_sum(own.len(), parents.len()),
    ensures
        r@ == diag_comms_table(own, parents, job_names@, node_indices@),
{
    let mut rows = rows;
    let ghost start = rows_view(rows@);
    let mut j: usize = 0;
    while j < job_names.len()
        invariant
            j <= job_names@.len(),
            rows_view(rows@) == start + Seq::new(j as nat, |k: int| job_row(job_names@[k]@, node_indices@)),
        decreases job_names@.len() - j,
    {
        let cells = vec![
            DetailCell::text("-"),
            index_jump_cell_exec(job_names[j].as_str(), node_indices),
            DetailCell::text("-"),
            DetailCell::text("Job"),
            DetailCell::text("false"),
        ];
        proof {
            assert(cells_view(cells@) =~= job_row(job_names@[j as int]@, node_indices@).cells);
        }
        push_row(&mut rows, DetailRow::normal(cells, 0));
        proof {
            assert(rows_view(rows@) =~= start + Seq::new(
                (j + 1) as nat,
                |k: int| job_row(job_names@[k]@, node_indices@),
            ));
        }
        j = j + 1;
    }
    let header = DetailRow::header(
        vec![
            DetailCell::text("ID"),
            DetailCell::text("Short Name"),
            DetailCell::text("Funct Class"),
            DetailCell::text("Type"),
            DetailCell::text("Inherited"),
        ],
    );
    proof {
        assert(cells_view(header.cells@) =~= diag_comms_table(own, parents, job_names@, node_indices@).content->Table_header.cells);
        assert(rows_view(rows@) =~= diag_comms_table(own, parents, job_names@, node_indices@).content->Table_rows);
    }
    let mut title = "Diag-Comms (".to_owned();
    title.append(usize_to_decimal(count).as_str());
    title.append(" services, ");
    title.append(usize_to_decimal(job_names.len()).as_str());
    title.append(" jobs)");
    let constraints = vec![
        ColumnConstraint::Percentage(12),
        ColumnConstraint::Percentage(35),
        ColumnConstraint::Percentage(20),
        ColumnConstraint::Percentage(13),
        ColumnConstraint::Percentage(20),
    ];
    DetailSectionData {
        title,
        render_as_header: false,
        section_type: DetailSectionType::Services,
        content: DetailContent::Table { header, rows, constraints, use_row_selection: true },
        byte_pattern_rows: None,
    }
}

/// The table of a Requests or Responses header: own then inherited
/// services, titled with the label and the count of all of them.
pub open spec fn service_list_table(
    own: Seq<ServiceInfo>,
    parents: Seq<(ServiceInfo, String)>,
    label: Seq<char>,
    section_type: DetailSectionType,
    m: Map<Seq<char>, usize>,
) -> SectionV {
    SectionV {
        title: label + " ("@ + decimal(sat_sum(own.len(), parents.len())) + ")"@,
        content: ContentV::Table {
            header: plain_row(
                seq![
                    plain_cell("ID"@, CellType::Text),
                    plain_cell("Short Name"@, CellType::Text),
                    plain_cell("Inherited"@, CellType::Text),
                ],
                DetailRowType::Header,
            ),
            rows: service_rows(own, false, m, false) + service_rows(firsts(parents), true, m, false),
            constraints: seq![
                ColumnConstraint::Percentage(20),
                ColumnConstraint::Percentage(60),
                ColumnConstraint::Percentage(20),
            ],
            use_row_selection: true,
        },
        render_as_header: false,
        section_type,
        byte_pattern_rows: None,
    }
}

pub fn build_service_list_table_section(
    own: &Vec<ServiceInfo>,
    parents: &Vec<(ServiceInfo, String)>,
    label: &str,
    section_type: DetailSectionType,
    node_indices: &StringHashMap<usize>,
) -> (r: DetailSectionData)
    ensures
        r@ == service_list_table(own@, parents@, label@, section_type, node_indices@),
{
    let mut rows: Vec<DetailRow> = Vec::new();
    assert(rows_view(rows@) =~= Seq::<RowV>::empty());
    push_service_rows(&mut rows, own, false, node_indices, false);
    push_parent_rows(&mut rows, parents, node_indices, false);
    let count = own.len().saturating_add(parents.len());
    list_table_from_rows(rows, label, count, section_type, Ghost(own@), Ghost(parents@), Ghost(node_indices@))
}

/// The service table of a list from its rows.
pub(crate) fn list_table_from_rows(
    rows: Vec<DetailRow>,
    label: &str,
    count: usize,
    section_type: DetailSectionType,
    Ghost(own): Ghost<Seq<ServiceInfo>>,
    Ghost(parents): Ghost<Seq<(ServiceInfo, String)>>,
    Ghost(m): Ghost<Map<Seq<char>, usize>>,
) -> (r: DetailSectionData)
    requires
        rows_view(rows@) == service_rows(own, false, m, false) + service_rows(firsts(parents), true, m, false),
        count == sat_sum(own.len(), parents.len()),
    ensures
        r@ == service_list_table(own, parents, label@, section_type, m),
{
    let header = DetailRow::header(vec![DetailCell::text("ID"), DetailCell::text("Short Name"), DetailCell::text("Inherited")]);
    proof {
        assert(cells_view(header.cells@) =~= service_list_table(own, parents, label@, section_type, m).content->Table_header.cells);
    }
    let mut title = label.to_owned();
    title.append(" (");
    title.append(usize_to_decimal(count).as_str());
    title.append(")");
    let constraints = vec![
        ColumnConstraint::Percentage(20),
        ColumnConstraint::Percentage(60),
        ColumnConstraint::Percentage(20),
    ];
    DetailSectionData {
        title,
        render_as_header: false,
        section_type,
        content: DetailContent::Table { header, rows, constraints, use_row_selection: true },
        byte_pattern_rows: None,
    }
}

// Request view
/// The name a view gives a service: its primitive's name, or `?`.
pub open spec fn view_name(s: ServiceInfo) -> Seq<char> {
    match s.diag_comm {
        Some(dc) => service_name(dc),
        None => "?"@,
    }
}

/// A header tab titled `prefix`, the service id when there is one, and the
/// service name.
pub open spec fn view_header(prefix: Seq<char>, s: ServiceInfo) -> SectionV {
    SectionV {
        title: prefix + if service_id_text(s).len() == 0 {
            view_name(s)
        } else {
            service_id_text(s) + " - "@ + view_name(s)
        },
        content: ContentV::PlainText(Seq::empty()),
        render_as_header: true,
        section_type: DetailSectionType::Header,
        byte_pattern_rows: None,
    }
}

pub fn build_view_header(prefix: &str, s: &ServiceInfo) -> (r: DetailSectionData)
    ensures
        r@ == view_header(prefix@, *s),
{
    let name = match &s.diag_comm {
        Some(dc) => match &dc.short_name {
            Some(n) => n.clone(),
            None => "?".to_owned(),
        },
        None => "?".to_owned(),
    };
    let id = format_service_id(s);
    let mut title = prefix.to_owned();
    if !id.as_str().is_empty() {
        title.append(id.as_str());
        title.append(" - ");
    }
    title.append(name.as_str());
    assert(name@ == view_name(*s));
    assert(title@ =~= view_header(prefix@, *s).title);
    let lines: Vec<String> = Vec::new();
    assert(strings_view(lines@) =~= Seq::<Seq<char>>::empty());
    DetailSectionData {
        title,
        render_as_header: true,
        section_type: DetailSectionType::Header,
        content: DetailContent::PlainText(lines),
        byte_pattern_rows: None,
    }
}

/// The request view of a service: a header, the overview, and the table
/// of the request's parameters.
pub fn build_request_view_sections(
    s: &ServiceInfo,
    params: Vec<ParamInfo>,
    fields: Vec<ByteField>,
    parent_layer_name: Option<&str>,
    container_index: Option<usize>,
) -> (r: Vec<DetailSectionData>)
    ensures
        r@.len() == 3,
        r@[0]@ == view_header("Request - "@, *s),
        r@[1]@ == overview_table(
            service_overview_rows(
                *s,
                match parent_layer_name {
                    Some(p) => Some(p@),
                    None => None,
                },
                container_index,
            ),
        ),
        is_param_section(r@[2]@, "Request"@, params@, fields@, DetailSectionType::Requests),
{
    let mut sections: Vec<DetailSectionData> = Vec::new();
    sections.push(build_view_header("Request - ", s));
    sections.push(build_service_overview_section(s, parent_layer_name, container_index));
    sections.push(build_param_section("Request", params, fields, DetailSectionType::Requests));
    sections
}

} // verus!
