//! The detail tabs of a diagnostic service: its request and responses, its
//! audience, special data, preconditions and state transitions.
use vstd::prelude::*;
use crate::tree::elements::param_detail::ParamDetail;
use crate::tree::elements::params::{build_param_section, is_param_section, ParamInfo};
use crate::tree::elements::services::{
    build_overview_section, build_view_header, diag_comm_extra_rows, overview_table, service_overview_rows,
    view_header, AudienceInfo, DiagCommInfo, PreconditionRef, SdEntry, SdgInfo, ServiceInfo, TransitionRef,
};
use crate::tree::elements::{plain_cell, plain_row};
use crate::tree::types::{
    cells_view, rows_view, sections_view, strings_view, CellType, ColumnConstraint, ContentV, DetailCell,
    DetailContent, DetailRow, DetailRowType, DetailSectionData, DetailSectionType, RowV, SectionV,
};
use crate::text::{decimal, usize_to_decimal};
use crate::uds::byte_pattern::ByteField;

verus! {

broadcast use vstd::std_specs::vec::group_vec_axioms;

/// A parameter of a request or response: its table row, its byte field
/// and its detail.
#[derive(Clone, Debug)]
pub struct ParamEntry {
    pub info: ParamInfo,
    pub field: ByteField,
    pub detail: ParamDetail,
}

/// A response and its parameters, when it lists them.
#[derive(Clone, Debug)]
pub struct ResponseInfo {
    pub params: Option<Vec<ParamEntry>>,
}

/// A request and its parameters, when it lists them.
#[derive(Clone, Debug)]
pub struct RequestInfo {
    pub params: Option<Vec<ParamEntry>>,
}

/// A diagnostic service with its request and responses.
#[derive(Clone, Debug)]
pub struct Service {
    pub info: ServiceInfo,
    pub request: Option<RequestInfo>,
    pub pos_responses: Option<Vec<ResponseInfo>>,
    pub neg_responses: Option<Vec<ResponseInfo>>,
}

// Copies
fn copy_string_opt(o: &Option<String>) -> (r: Option<String>)
    ensures
        r == *o,
{
    match o {
        Some(s) => Some(s.clone()),
        None => None,
    }
}

pub fn copy_param_info(p: &ParamInfo) -> (r: ParamInfo)
    ensures
        r == *p,
{
    ParamInfo {
        name: p.name.clone(),
        byte_pos: p.byte_pos,
        bit_pos: p.bit_pos,
        bit_len: p.bit_len,
        value: p.value.clone(),
        dop_name: p.dop_name.clone(),
        dop_badge: p.dop_badge.clone(),
        semantic: p.semantic.clone(),
        param_id: p.param_id,
    }
}

pub fn copy_byte_field(f: &ByteField) -> (r: ByteField)
    ensures
        r == *f,
{
    ByteField {
        byte_pos: f.byte_pos,
        bit_pos: f.bit_pos,
        bit_length: f.bit_length,
        name: f.name.clone(),
        type_label: f.type_label,
        coded_value: f.coded_value,
        param_id: f.param_id,
    }
}

/// The table rows and byte fields of a parameter list.
pub open spec fn infos_of(ps: Seq<ParamEntry>) -> Seq<ParamInfo> {
    ps.map_values(|p: ParamEntry| p.info)
}

pub open spec fn fields_of(ps: Seq<ParamEntry>) -> Seq<ByteField> {
    ps.map_values(|p: ParamEntry| p.field)
}

/// The parameters of an optional list (none when it is absent).
pub open spec fn entries_of(ps: Option<Vec<ParamEntry>>) -> Seq<ParamEntry> {
    match ps {
        Some(v) => v@,
        None => Seq::empty(),
    }
}

fn split_entries(ps: &Option<Vec<ParamEntry>>) -> (r: (Vec<ParamInfo>, Vec<ByteField>))
    ensures
        r.0@ == infos_of(entries_of(*ps)),
        r.1@ == fields_of(entries_of(*ps)),
{
    let mut infos: Vec<ParamInfo> = Vec::new();
    let mut fields: Vec<ByteField> = Vec::new();
    if let Some(v) = ps {
        let mut i: usize = 0;
        while i < v.len()
            invariant
                i <= v@.len(),
                infos@ == infos_of(v@.subrange(0, i as int)),
                fields@ == fields_of(v@.subrange(0, i as int)),
            decreases v@.len() - i,
        {
            infos.push(copy_param_info(&v[i].info));
            fields.push(copy_byte_field(&v[i].field));
            proof {
                assert(infos@ =~= infos_of(v@.subrange(0, i as int + 1)));
                assert(fields@ =~= fields_of(v@.subrange(0, i as int + 1)));
            }
            i = i + 1;
        }
        assert(v@.subrange(0, v@.len() as int) =~= v@);
    } else {
        assert(infos@ =~= infos_of(entries_of(*ps)));
        assert(fields@ =~= fields_of(entries_of(*ps)));
    }
    (infos, fields)
}

/// The parameter table of a request.
pub fn build_request_section(s: &Service) -> (r: DetailSectionData)
    ensures
        is_param_section(
            r@,
            "Request"@,
            infos_of(request_params(*s)),
            fields_of(request_params(*s)),
            DetailSectionType::Requests,
        ),
{
    let (infos, fields) = match &s.request {
        Some(req) => split_entries(&req.params),
        None => split_entries(&None),
    };
    build_param_section("Request", infos, fields, DetailSectionType::Requests)
}

/// The parameters of a service's request.
pub open spec fn request_params(s: Service) -> Seq<ParamEntry> {
    match s.request {
        Some(req) => entries_of(req.params),
        None => Seq::empty(),
    }
}

// Responses
/// Positive or negative responses.
#[derive(Clone, Copy, Debug, PartialEq, Eq, Structural)]
pub enum ResponseKind {
    Positive,
    Negative,
}

pub open spec fn kind_label(k: ResponseKind) -> Seq<char> {
    match k {
        ResponseKind::Positive => "Pos-Response"@,
        ResponseKind::Negative => "Neg-Response"@,
    }
}

fn kind_label_exec(k: ResponseKind) -> (r: &'static str)
    ensures
        r@ == kind_label(k),
{
    match k {
        ResponseKind::Positive => "Pos-Response",
        ResponseKind::Negative => "Neg-Response",
    }
}

pub open spec fn kind_section_type(k: ResponseKind) -> DetailSectionType {
    match k {
        ResponseKind::Positive => DetailSectionType::PosResponses,
        ResponseKind::Negative => DetailSectionType::NegResponses,
    }
}

fn kind_section_type_exec(k: ResponseKind) -> (r: DetailSectionType)
    ensures
        r == kind_section_type(k),
{
    match k {
        ResponseKind::Positive => DetailSectionType::PosResponses,
        ResponseKind::Negative => DetailSectionType::NegResponses,
    }
}

/// The responses of a kind (none when absent).
pub open spec fn responses_of(s: Service, k: ResponseKind) -> Seq<ResponseInfo> {
    match (match k {
        ResponseKind::Positive => s.pos_responses,
        ResponseKind::Negative => s.neg_responses,
    }) {
        Some(v) => v@,
        None => Seq::empty(),
    }
}

/// The response tabs: one parameter table per response, numbered from 1,
/// or a single empty table under the kind's label when there is none.
pub open spec fn response_sections_hold(r: Seq<SectionV>, s: Service, k: ResponseKind) -> bool {
    let rs = responses_of(s, k);
    if rs.len() == 0 {
        r.len() == 1 && is_param_section(r[0], kind_label(k), Seq::empty(), Seq::empty(), kind_section_type(k))
    } else {
        &&& r.len() == rs.len()
        &&& forall|i: int|
            0 <= i < rs.len() ==> is_param_section(
                #[trigger] r[i],
                kind_label(k) + " "@ + decimal((i + 1) as nat),
                infos_of(entries_of(rs[i].params)),
                fields_of(entries_of(rs[i].params)),
                kind_section_type(k),
            )
    }
}

pub fn build_responses_sections(s: &Service, k: ResponseKind) -> (r: Vec<DetailSectionData>)
    ensures
        response_sections_hold(sections_view(r@), *s, k),
{
    let label = kind_label_exec(k);
    let st = kind_section_type_exec(k);
    let responses = match k {
        ResponseKind::Positive => &s.pos_responses,
        ResponseKind::Negative => &s.neg_responses,
    };
    let mut out: Vec<DetailSectionData> = Vec::new();
    if let Some(rs) = responses {
        let mut i: usize = 0;
        while i < rs.len()
            invariant
                i <= rs@.len(),
                rs@ == responses_of(*s, k),
                label@ == kind_label(k),
                st == kind_section_type(k),
                out@.len() == i,
                forall|j: int|
                    0 <= j < i ==> is_param_section(
                        (#[trigger] out@[j])@,
                        kind_label(k) + " "@ + decimal((j + 1) as nat),
                        infos_of(entries_of(rs@[j].params)),
                        fields_of(entries_of(rs@[j].params)),
                        kind_section_type(k),
                    ),
            decreases rs@.len() - i,
        {
            let (infos, fields) = split_entries(&rs[i].params);
            let mut title = label.to_owned();
            title.append(" ");
            title.append(usize_to_decimal(i + 1).as_str());
            out.push(build_param_section(title.as_str(), infos, fields, st));
            i = i + 1;
        }
    }
    if out.len() == 0 {
        out.push(build_param_section(label, Vec::new(), Vec::new(), st));
        proof {
            assert(infos_of(Seq::<ParamEntry>::empty()) =~= Seq::<ParamInfo>::empty());
        }
    }
    proof {
        assert forall|j: int| 0 <= j < out@.len() implies #[trigger] sections_view(out@)[j] == out@[j]@ by {}
    }
    out
}

// Fixed and simple tabs
pub open spec fn note_row(cells: Seq<Seq<char>>) -> RowV {
    plain_row(Seq::new(cells.len(), |i: int| plain_cell(cells[i], CellType::Text)), DetailRowType::Normal)
}

pub open spec fn text_header(cells: Seq<Seq<char>>) -> RowV {
    plain_row(Seq::new(cells.len(), |i: int| plain_cell(cells[i], CellType::Text)), DetailRowType::Header)
}

/// The communication-parameter tab of a service (none are held at that
/// level).
pub open spec fn comparam_refs_section() -> SectionV {
    SectionV {
        title: "ComParam-Refs"@,
        content: ContentV::Table {
            header: text_header(seq!["ComParam"@, "Value"@, "Complex Value"@, "Protocol"@, "Prot-Stack"@]),
            rows: seq![note_row(seq!["(No ComParam refs at comm level)"@])],
            constraints: seq![
                ColumnConstraint::Percentage(20),
                ColumnConstraint::Percentage(20),
                ColumnConstraint::Percentage(20),
                ColumnConstraint::Percentage(20),
                ColumnConstraint::Percentage(20),
            ],
            use_row_selection: false,
        },
        render_as_header: false,
        section_type: DetailSectionType::ComParams,
        byte_pattern_rows: None,
    }
}

fn text_cells(texts: &Vec<&str>) -> (r: Vec<DetailCell>)
    ensures
        cells_view(r@) == Seq::new(texts@.len(), |i: int| plain_cell(texts@[i]@, CellType::Text)),
{
    let mut r: Vec<DetailCell> = Vec::new();
    let mut i: usize = 0;
    while i < texts.len()
        invariant
            i <= texts@.len(),
            r@.len() == i,
            forall|j: int| 0 <= j < i ==> (#[trigger] r@[j])@ == plain_cell(texts@[j]@, CellType::Text),
        decreases texts@.len() - i,
    {
        r.push(DetailCell::text(texts[i]));
        i = i + 1;
    }
    assert(cells_view(r@) =~= Seq::new(texts@.len(), |i: int| plain_cell(texts@[i]@, CellType::Text)));
    r
}

fn text_row(texts: Vec<&str>) -> (r: DetailRow)
    ensures
        r@ == note_row(Seq::new(texts@.len(), |i: int| texts@[i]@)),
{
    let cells = text_cells(&texts);
    assert(cells_view(cells@) =~= note_row(Seq::new(texts@.len(), |i: int| texts@[i]@)).cells);
    DetailRow::normal(cells, 0)
}

fn text_header_row(texts: Vec<&str>) -> (r: DetailRow)
    ensures
        r@ == text_header(Seq::new(texts@.len(), |i: int| texts@[i]@)),
{
    let cells = text_cells(&texts);
    assert(cells_view(cells@) =~= text_header(Seq::new(texts@.len(), |i: int| texts@[i]@)).cells);
    DetailRow::header(cells)
}

pub fn build_comparam_refs_section() -> (r: DetailSectionData)
    ensures
        r@ == comparam_refs_section(),
{
    let header = text_header_row(vec!["ComParam", "Value", "Complex Value", "Protocol", "Prot-Stack"]);
    let row = text_row(vec!["(No ComParam refs at comm level)"]);
    proof {
        assert(header@ == comparam_refs_section().content->Table_header) by {
            assert(header@.cells =~= comparam_refs_section().content->Table_header.cells);
        }
        assert(row@.cells =~= comparam_refs_section().content->Table_rows[0].cells);
    }
    let rows = vec![row];
    assert(rows_view(rows@) =~= comparam_refs_section().content->Table_rows);
    DetailSectionData {
        title: "ComParam-Refs".to_owned(),
        render_as_header: false,
        section_type: DetailSectionType::ComParams,
        content: DetailContent::Table {
            header,
            rows,
            constraints: vec![
                ColumnConstraint::Percentage(20),
                ColumnConstraint::Percentage(20),
                ColumnConstraint::Percentage(20),
                ColumnConstraint::Percentage(20),
                ColumnConstraint::Percentage(20),
            ],
            use_row_selection: false,
        },
        byte_pattern_rows: None,
    }
}

/// The related-communications tab (not available in the database).
pub open spec fn related_refs_section() -> SectionV {
    SectionV {
        title: "Related-Diag-Comm-Refs"@,
        content: ContentV::Table {
            header: text_header(seq!["Short Name"@]),
            rows: seq![note_row(seq!["(Related comms not available)"@])],
            constraints: seq![ColumnConstraint::Percentage(100)],
            use_row_selection: false,
        },
        render_as_header: false,
        section_type: DetailSectionType::RelatedRefs,
        byte_pattern_rows: None,
    }
}

pub fn build_related_refs_section() -> (r: DetailSectionData)
    ensures
        r@ == related_refs_section(),
{
    let header = text_header_row(vec!["Short Name"]);
    let row = text_row(vec!["(Related comms not available)"]);
    proof {
        assert(header@ == related_refs_section().content->Table_header) by {
            assert(header@.cells =~= related_refs_section().content->Table_header.cells);
        }
        assert(row@.cells =~= related_refs_section().content->Table_rows[0].cells);
    }
    let rows = vec![row];
    assert(rows_view(rows@) =~= related_refs_section().content->Table_rows);
    let constraints = vec![ColumnConstraint::Percentage(100)];
    assert(constraints@ =~= seq![ColumnConstraint::Percentage(100)]);
    DetailSectionData {
        title: "Related-Diag-Comm-Refs".to_owned(),
        render_as_header: false,
        section_type: DetailSectionType::RelatedRefs,
        content: DetailContent::Table { header, rows, constraints, use_row_selection: false },
        byte_pattern_rows: None,
    }
}

// Audience
pub open spec fn flag_line(name: Seq<char>, b: bool) -> Seq<char> {
    name + ": "@ + crate::diff::compare::bool_text(b)
}

/// The names of the enabled additional audiences, those that have one.
pub open spec fn audience_names(v: Seq<Option<String>>) -> Seq<Seq<char>>
    decreases v.len(),
{
    if v.len() == 0 {
        Seq::empty()
    } else {
        audience_names(v.drop_last()) + match v.last() {
            Some(n) => seq![n@],
            None => Seq::empty(),
        }
    }
}

pub open spec fn text_section(title: Seq<char>, lines: Seq<Seq<char>>) -> SectionV {
    SectionV {
        title,
        content: ContentV::PlainText(lines),
        render_as_header: false,
        section_type: DetailSectionType::Custom,
        byte_pattern_rows: None,
    }
}

/// The Audience tab: its flags and additional audiences, or a note when
/// the primitive has no audience.
pub open spec fn audience_section(dc: Option<DiagCommInfo>) -> SectionV {
    match (match dc {
        Some(d) => d.audience,
        None => None,
    }) {
        None => text_section("Audience"@, seq!["(No audience info)"@]),
        Some(a) => SectionV {
            title: "Audience"@,
            content: ContentV::Composite(
                seq![
                    text_section(
                        "Audience Flags"@,
                        seq![
                            flag_line("IS_MANUFACTURER"@, a.is_manufacturing),
                            flag_line("IS_DEVELOPMENT"@, a.is_development),
                            flag_line("IS_AFTERSALES"@, a.is_after_sales),
                            flag_line("IS_AFTERMARKET"@, a.is_after_market),
                        ],
                    ),
                ] + if audience_names(a.enabled@).len() > 0 {
                    seq![text_section("Additional Audiences"@, audience_names(a.enabled@))]
                } else {
                    Seq::empty()
                },
            ),
            render_as_header: false,
            section_type: DetailSectionType::Custom,
            byte_pattern_rows: None,
        },
    }
}

fn flag_line_exec(name: &str, b: bool) -> (r: String)
    ensures
        r@ == flag_line(name@, b),
{
    let mut r = name.to_owned();
    r.append(": ");
    r.append(crate::diff::compare::bool_str(b));
    r
}

fn build_text_section(title: &str, lines: Vec<String>) -> (r: DetailSectionData)
    ensures
        r@ == text_section(title@, strings_view(lines@)),
{
    DetailSectionData {
        title: title.to_owned(),
        render_as_header: false,
        section_type: DetailSectionType::Custom,
        content: DetailContent::PlainText(lines),
        byte_pattern_rows: None,
    }
}

pub fn build_audience_section(dc: &Option<DiagCommInfo>) -> (r: DetailSectionData)
    ensures
        r@ == audience_section(*dc),
{
    let audience = match dc {
        Some(d) => &d.audience,
        None => {
            let lines = vec!["(No audience info)".to_owned()];
            assert(strings_view(lines@) =~= seq!["(No audience info)"@]);
            return build_text_section("Audience", lines);
        },
    };
    let a = match audience {
        Some(a) => a,
        None => {
            let lines = vec!["(No audience info)".to_owned()];
            assert(strings_view(lines@) =~= seq!["(No audience info)"@]);
            return build_text_section("Audience", lines);
        },
    };
    let flags = vec![
        flag_line_exec("IS_MANUFACTURER", a.is_manufacturing),
        flag_line_exec("IS_DEVELOPMENT", a.is_development),
        flag_line_exec("IS_AFTERSALES", a.is_after_sales),
        flag_line_exec("IS_AFTERMARKET", a.is_after_market),
    ];
    assert(strings_view(flags@) =~= seq![
        flag_line("IS_MANUFACTURER"@, a.is_manufacturing),
        flag_line("IS_DEVELOPMENT"@, a.is_development),
        flag_line("IS_AFTERSALES"@, a.is_after_sales),
        flag_line("IS_AFTERMARKET"@, a.is_after_market),
    ]);
    let mut subsections: Vec<DetailSectionData> = Vec::new();
    subsections.push(build_text_section("Audience Flags", flags));
    let mut names: Vec<String> = Vec::new();
    let mut i: usize = 0;
    while i < a.enabled.len()
        invariant
            i <= a.enabled@.len(),
            strings_view(names@) == audience_names(a.enabled@.subrange(0, i as int)),
        decreases a.enabled@.len() - i,
    {
        proof {
            assert(a.enabled@.subrange(0, i as int + 1).drop_last() =~= a.enabled@.subrange(0, i as int));
        }
        let ghost before = names@;
        if let Some(n) = &a.enabled[i] {
            names.push(n.clone());
            assert(strings_view(names@) =~= strings_view(before).push(n@));
        }
        proof {
            assert(strings_view(names@) =~= audience_names(a.enabled@.subrange(0, i as int + 1)));
        }
        i = i + 1;
    }
    assert(a.enabled@.subrange(0, a.enabled@.len() as int) =~= a.enabled@);
    if names.len() > 0 {
        subsections.push(build_text_section("Additional Audiences", names));
    }
    let r = DetailSectionData {
        title: "Audience".to_owned(),
        render_as_header: false,
        section_type: DetailSectionType::Custom,
        content: DetailContent::Composite(subsections),
        byte_pattern_rows: None,
    };
    proof {
        crate::tree::types::lemma_composite_view(r.content);
        assert(r@.content->Composite_0 =~= audience_section(*dc).content->Composite_0);
    }
    r
}

// Special data
/// A value, or `-`.
pub open spec fn or_dash(o: Option<String>) -> Seq<char> {
    match o {
        Some(v) => v@,
        None => "-"@,
    }
}

fn or_dash_exec(o: &Option<String>) -> (r: String)
    ensures
        r@ == or_dash(*o),
{
    match o {
        Some(v) => v.clone(),
        None => "-".to_owned(),
    }
}

/// The rows of the data (not the nested groups) of a group.
pub open spec fn sd_rows(es: Seq<SdEntry>) -> Seq<RowV>
    decreases es.len(),
{
    if es.len() == 0 {
        Seq::empty()
    } else {
        sd_rows(es.drop_last()) + match es.last() {
            SdEntry::Sd(sd) => seq![note_row(seq![or_dash(sd.value), or_dash(sd.si), or_dash(sd.ti)])],
            SdEntry::Group => Seq::empty(),
        }
    }
}

/// The label and table of one group.
pub open spec fn sdg_parts(g: SdgInfo) -> Seq<SectionV> {
    seq![
        text_section(
            Seq::empty(),
            seq![
                "SDG: "@ + (match g.caption {
                    Some(c) => c@,
                    None => Seq::empty(),
                }) + "  (SI: "@ + or_dash(g.si) + ")"@,
            ],
        ),
        SectionV {
            title: Seq::empty(),
            content: ContentV::Table {
                header: text_header(seq!["Value"@, "SI"@, "TI"@]),
                rows: sd_rows(g.entries@),
                constraints: seq![
                    ColumnConstraint::Percentage(50),
                    ColumnConstraint::Percentage(25),
                    ColumnConstraint::Percentage(25),
                ],
                use_row_selection: true,
            },
            render_as_header: false,
            section_type: DetailSectionType::Custom,
            byte_pattern_rows: None,
        },
    ]
}

/// The parts of the first `n` groups.
pub open spec fn sdgs_parts(gs: Seq<SdgInfo>, n: int) -> Seq<SectionV>
    decreases n,
{
    if n <= 0 {
        Seq::empty()
    } else {
        sdgs_parts(gs, n - 1) + sdg_parts(gs[n - 1])
    }
}

/// The SDGs tab: a label and a table per group, or a note when there are
/// none.
pub open spec fn sdgs_section(dc: Option<DiagCommInfo>) -> SectionV {
    let gs = match dc {
        Some(d) => d.sdgs@,
        None => Seq::empty(),
    };
    if gs.len() == 0 {
        text_section("SDGs"@, seq!["(No SDGs available)"@])
    } else {
        SectionV {
            title: "SDGs"@,
            content: ContentV::Composite(sdgs_parts(gs, gs.len() as int)),
            render_as_header: false,
            section_type: DetailSectionType::Custom,
            byte_pattern_rows: None,
        }
    }
}

fn build_sdg_parts(g: &SdgInfo, out: &mut Vec<DetailSectionData>)
    ensures
        sections_view(final(out)@) == sections_view(old(out)@) + sdg_parts(*g),
{
    let mut label = "SDG: ".to_owned();
    if let Some(c) = &g.caption {
        label.append(c.as_str());
    }
    label.append("  (SI: ");
    label.append(or_dash_exec(&g.si).as_str());
    label.append(")");
    let ghost label_v = label@;
    let lines = vec![label];
    assert(strings_view(lines@) =~= seq![label_v]);
    let label_section = DetailSectionData {
        title: String::new(),
        render_as_header: false,
        section_type: DetailSectionType::Custom,
        content: DetailContent::PlainText(lines),
        byte_pattern_rows: None,
    };
    let mut rows: Vec<DetailRow> = Vec::new();
    let mut i: usize = 0;
    while i < g.entries.len()
        invariant
            i <= g.entries@.len(),
            rows_view(rows@) == sd_rows(g.entries@.subrange(0, i as int)),
        decreases g.entries@.len() - i,
    {
        proof {
            assert(g.entries@.subrange(0, i as int + 1).drop_last() =~= g.entries@.subrange(0, i as int));
        }
        let ghost before = rows_view(rows@);
        if let SdEntry::Sd(sd) = &g.entries[i] {
            let v = or_dash_exec(&sd.value);
            let si = or_dash_exec(&sd.si);
            let ti = or_dash_exec(&sd.ti);
            let row = text_row(vec![v.as_str(), si.as_str(), ti.as_str()]);
            assert(row@.cells =~= note_row(seq![or_dash(sd.value), or_dash(sd.si), or_dash(sd.ti)]).cells);
            rows.push(row);
            assert(rows_view(rows@) =~= before.push(note_row(seq![or_dash(sd.value), or_dash(sd.si), or_dash(sd.ti)])));
        }
        proof {
            assert(rows_view(rows@) =~= sd_rows(g.entries@.subrange(0, i as int + 1)));
        }
        i = i + 1;
    }
    assert(g.entries@.subrange(0, g.entries@.len() as int) =~= g.entries@);
    let header = text_header_row(vec!["Value", "SI", "TI"]);
    assert(header@.cells =~= text_header(seq!["Value"@, "SI"@, "TI"@]).cells);
    let table = DetailSectionData {
        title: String::new(),
        render_as_header: false,
        section_type: DetailSectionType::Custom,
        content: DetailContent::Table {
            header,
            rows,
            constraints: vec![
                ColumnConstraint::Percentage(50),
                ColumnConstraint::Percentage(25),
                ColumnConstraint::Percentage(25),
            ],
            use_row_selection: true,
        },
        byte_pattern_rows: None,
    };
    let ghost start = sections_view(out@);
    out.push(label_section);
    out.push(table);
    assert(sections_view(out@) =~= start + sdg_parts(*g));
}

pub fn build_sdgs_section(dc: &Option<DiagCommInfo>) -> (r: DetailSectionData)
    ensures
        r@ == sdgs_section(*dc),
{
    let empty: Vec<SdgInfo> = Vec::new();
    let gs = match dc {
        Some(d) => &d.sdgs,
        None => &empty,
    };
    if gs.len() == 0 {
        let lines = vec!["(No SDGs available)".to_owned()];
        assert(strings_view(lines@) =~= seq!["(No SDGs available)"@]);
        return build_text_section("SDGs", lines);
    }
    let mut parts: Vec<DetailSectionData> = Vec::new();
    let mut i: usize = 0;
    while i < gs.len()
        invariant
            i <= gs@.len(),
            sections_view(parts@) == sdgs_parts(gs@, i as int),
        decreases gs@.len() - i,
    {
        build_sdg_parts(&gs[i], &mut parts);
        i = i + 1;
    }
    let r = DetailSectionData {
        title: "SDGs".to_owned(),
        render_as_header: false,
        section_type: DetailSectionType::Custom,
        content: DetailContent::Composite(parts),
        byte_pattern_rows: None,
    };
    proof {
        crate::tree::types::lemma_composite_view(r.content);
        assert(r@.content->Composite_0 =~= sdgs_parts(gs@, gs@.len() as int));
    }
    r
}

// Preconditions and transitions
/// The row of a precondition state reference.
pub open spec fn precondition_row(p: PreconditionRef) -> RowV {
    note_row(
        seq![
            or_dash(p.state),
            or_dash(p.value),
            match p.in_param_if {
                Some(x) => x@,
                None => or_dash(p.in_param_path),
            },
        ],
    )
}

/// The Precondition-State-Refs tab: a row per reference, or a note row.
pub open spec fn precondition_section(dc: Option<DiagCommInfo>) -> SectionV {
    let refs = match dc {
        Some(d) => d.precondition_refs@,
        None => Seq::empty(),
    };
    SectionV {
        title: "Precondition-State-Refs"@,
        content: ContentV::Table {
            header: text_header(seq!["State"@, "Value"@, "Input Param"@]),
            rows: if refs.len() == 0 {
                seq![note_row(seq!["(No precondition state refs)"@, "-"@, "-"@])]
            } else {
                Seq::new(refs.len(), |i: int| precondition_row(refs[i]))
            },
            constraints: seq![
                ColumnConstraint::Percentage(40),
                ColumnConstraint::Percentage(30),
                ColumnConstraint::Percentage(30),
            ],
            use_row_selection: true,
        },
        render_as_header: false,
        section_type: DetailSectionType::Custom,
        byte_pattern_rows: None,
    }
}

pub fn build_precondition_state_refs_from_diag_comm(dc: &Option<DiagCommInfo>) -> (r: DetailSectionData)
    ensures
        r@ == precondition_section(*dc),
{
    let empty: Vec<PreconditionRef> = Vec::new();
    let refs = match dc {
        Some(d) => &d.precondition_refs,
        None => &empty,
    };
    let mut rows: Vec<DetailRow> = Vec::new();
    let mut i: usize = 0;
    while i < refs.len()
        invariant
            i <= refs@.len(),
            rows@.len() == i,
            forall|j: int| 0 <= j < i ==> (#[trigger] rows@[j])@ == precondition_row(refs@[j]),
        decreases refs@.len() - i,
    {
        let p = &refs[i];
        let state = or_dash_exec(&p.state);
        let value = or_dash_exec(&p.value);
        let input = match &p.in_param_if {
            Some(x) => x.clone(),
            None => or_dash_exec(&p.in_param_path),
        };
        let row = text_row(vec![state.as_str(), value.as_str(), input.as_str()]);
        assert(row@.cells =~= precondition_row(*p).cells);
        rows.push(row);
        i = i + 1;
    }
    if rows.len() == 0 {
        let row = text_row(vec!["(No precondition state refs)", "-", "-"]);
        assert(row@.cells =~= note_row(seq!["(No precondition state refs)"@, "-"@, "-"@]).cells);
        rows.push(row);
    }
    assert(rows_view(rows@) =~= precondition_section(*dc).content->Table_rows);
    let header = text_header_row(vec!["State", "Value", "Input Param"]);
    assert(header@.cells =~= text_header(seq!["State"@, "Value"@, "Input Param"@]).cells);
    DetailSectionData {
        title: "Precondition-State-Refs".to_owned(),
        render_as_header: false,
        section_type: DetailSectionType::Custom,
        content: DetailContent::Table {
            header,
            rows,
            constraints: vec![
                ColumnConstraint::Percentage(40),
                ColumnConstraint::Percentage(30),
                ColumnConstraint::Percentage(30),
            ],
            use_row_selection: true,
        },
        byte_pattern_rows: None,
    }
}

/// The row of a state transition reference.
pub open spec fn transition_row(t: TransitionRef) -> RowV {
    match t.transition {
        Some(x) => note_row(seq![or_dash(x.short_name), or_dash(x.source), or_dash(x.target), or_dash(t.value)]),
        None => note_row(seq!["-"@, "-"@, "-"@, or_dash(t.value)]),
    }
}

/// The State-Transition-Refs tab: a row per reference, or a note row.
pub open spec fn transition_section(dc: Option<DiagCommInfo>) -> SectionV {
    let refs = match dc {
        Some(d) => d.transition_refs@,
        None => Seq::empty(),
    };
    SectionV {
        title: "State-Transition-Refs"@,
        content: ContentV::Table {
            header: text_header(seq!["Short Name"@, "Source"@, "Target"@, "Value"@]),
            rows: if refs.len() == 0 {
                seq![note_row(seq!["(No state transition refs)"@, "-"@, "-"@, "-"@])]
            } else {
                Seq::new(refs.len(), |i: int| transition_row(refs[i]))
            },
            constraints: seq![
                ColumnConstraint::Percentage(30),
                ColumnConstraint::Percentage(25),
                ColumnConstraint::Percentage(25),
                ColumnConstraint::Percentage(20),
            ],
            use_row_selection: true,
        },
        render_as_header: false,
        section_type: DetailSectionType::States,
        byte_pattern_rows: None,
    }
}

pub fn build_state_transition_refs_section(dc: &Option<DiagCommInfo>) -> (r: DetailSectionData)
    ensures
        r@ == transition_section(*dc),
{
    let empty: Vec<TransitionRef> = Vec::new();
    let refs = match dc {
        Some(d) => &d.transition_refs,
        None => &empty,
    };
    let mut rows: Vec<DetailRow> = Vec::new();
    let mut i: usize = 0;
    while i < refs.len()
        invariant
            i <= refs@.len(),
            rows@.len() == i,
            forall|j: int| 0 <= j < i ==> (#[trigger] rows@[j])@ == transition_row(refs@[j]),
        decreases refs@.len() - i,
    {
        let t = &refs[i];
        let value = or_dash_exec(&t.value);
        let row = match &t.transition {
            Some(x) => {
                let a = or_dash_exec(&x.short_name);
                let b = or_dash_exec(&x.source);
                let c = or_dash_exec(&x.target);
                text_row(vec![a.as_str(), b.as_str(), c.as_str(), value.as_str()])
            },
            None => text_row(vec!["-", "-", "-", value.as_str()]),
        };
        assert(row@.cells =~= transition_row(*t).cells);
        rows.push(row);
        i = i + 1;
    }
    if rows.len() == 0 {
        let row = text_row(vec!["(No state transition refs)", "-", "-", "-"]);
        assert(row@.cells =~= note_row(seq!["(No state transition refs)"@, "-"@, "-"@, "-"@]).cells);
        rows.push(row);
    }
    assert(rows_view(rows@) =~= transition_section(*dc).content->Table_rows);
    let header = text_header_row(vec!["Short Name", "Source", "Target", "Value"]);
    assert(header@.cells =~= text_header(seq!["Short Name"@, "Source"@, "Target"@, "Value"@]).cells);
    DetailSectionData {
        title: "State-Transition-Refs".to_owned(),
        render_as_header: false,
        section_type: DetailSectionType::States,
        content: DetailContent::Table {
            header,
            rows,
            constraints: vec![
                ColumnConstraint::Percentage(30),
                ColumnConstraint::Percentage(25),
                ColumnConstraint::Percentage(25),
                ColumnConstraint::Percentage(20),
            ],
            use_row_selection: true,
        },
        byte_pattern_rows: None,
    }
}

// Whole views
/// How many response tabs a kind shows.
pub open spec fn response_tab_count(s: Service, k: ResponseKind) -> int {
    if responses_of(s, k).len() == 0 {
        1
    } else {
        responses_of(s, k).len() as int
    }
}

proof fn lemma_response_count(r: Seq<SectionV>, s: Service, k: ResponseKind)
    requires
        response_sections_hold(r, s, k),
    ensures
        r.len() == response_tab_count(s, k),
{
}

/// The tabs of a service in the Diag-Comms list: a header, the overview,
/// the request, the positive and negative responses, the communication
/// parameters, audience, special data, preconditions, state transitions
/// and related communications.
pub open spec fn diag_comm_details_hold(
    v: Seq<SectionV>,
    s: Service,
    parent: Option<Seq<char>>,
    container: Option<usize>,
) -> bool {
    let p = response_tab_count(s, ResponseKind::Positive);
    let n = response_tab_count(s, ResponseKind::Negative);
    let dc = s.info.diag_comm;
    &&& v.len() == 3 + p + n + 6
    &&& v[0] == view_header("Service - "@, s.info)
    &&& v[1] == overview_table(service_overview_rows(s.info, parent, container) + diag_comm_extra_rows(s.info))
    &&& is_param_section(v[2], "Request"@, infos_of(request_params(s)), fields_of(request_params(s)), DetailSectionType::Requests)
    &&& response_sections_hold(v.subrange(3, 3 + p), s, ResponseKind::Positive)
    &&& response_sections_hold(v.subrange(3 + p, 3 + p + n), s, ResponseKind::Negative)
    &&& v.subrange(3 + p + n, v.len() as int) == seq![
        comparam_refs_section(),
        audience_section(dc),
        sdgs_section(dc),
        precondition_section(dc),
        transition_section(dc),
        related_refs_section(),
    ]
}

fn append_sections(out: &mut Vec<DetailSectionData>, more: Vec<DetailSectionData>)
    ensures
        sections_view(final(out)@) == sections_view(old(out)@) + sections_view(more@),
{
    let ghost start = sections_view(out@);
    let mut rest = more;
    let ghost all = rest@;
    let ghost mut k: int = 0;
    while rest.len() > 0
        invariant
            0 <= k <= all.len(),
            rest@ == all.subrange(k, all.len() as int),
            sections_view(out@) == start + sections_view(all.subrange(0, k)),
        decreases rest@.len(),
    {
        let x = rest.remove(0);
        proof {
            assert(x == all[k]);
        }
        let ghost prev = sections_view(out@);
        out.push(x);
        proof {
            assert(sections_view(out@) =~= prev.push(x@));
            assert(sections_view(all.subrange(0, k + 1)) =~= sections_view(all.subrange(0, k)).push(all[k]@));
            assert(sections_view(out@) =~= start + sections_view(all.subrange(0, k + 1)));
            k = k + 1;
            assert(rest@ =~= all.subrange(k, all.len() as int));
        }
    }
    assert(all.subrange(0, k) =~= all);
}

/// The detail tabs of a service of the Diag-Comms list.
pub fn build_diag_comm_details_with_parent(
    s: &Service,
    parent_layer_name: Option<&str>,
    container_index: Option<usize>,
) -> (r: Vec<DetailSectionData>)
    ensures
        diag_comm_details_hold(
            sections_view(r@),
            *s,
            match parent_layer_name {
                Some(p) => Some(p@),
                None => None,
            },
            container_index,
        ),
{
    let mut out: Vec<DetailSectionData> = Vec::new();
    let h = build_view_header("Service - ", &s.info);
    let o = build_overview_section(&s.info, parent_layer_name, container_index);
    let q = build_request_section(s);
    let ghost hv = h@;
    let ghost ov = o@;
    let ghost qv = q@;
    out.push(h);
    out.push(o);
    out.push(q);
    let ghost first = sections_view(out@);
    assert(first =~= seq![hv, ov, qv]);
    let pos = build_responses_sections(s, ResponseKind::Positive);
    let ghost pos_v = sections_view(pos@);
    proof {
        lemma_response_count(pos_v, *s, ResponseKind::Positive);
    }
    append_sections(&mut out, pos);
    let neg = build_responses_sections(s, ResponseKind::Negative);
    let ghost neg_v = sections_view(neg@);
    proof {
        lemma_response_count(neg_v, *s, ResponseKind::Negative);
    }
    append_sections(&mut out, neg);
    let ghost mid = sections_view(out@);
    let dc = &s.info.diag_comm;
    let mut tail: Vec<DetailSectionData> = Vec::new();
    tail.push(build_comparam_refs_section());
    tail.push(build_audience_section(dc));
    tail.push(build_sdgs_section(dc));
    tail.push(build_precondition_state_refs_from_diag_comm(dc));
    tail.push(build_state_transition_refs_section(dc));
    tail.push(build_related_refs_section());
    let ghost tail_v = sections_view(tail@);
    append_sections(&mut out, tail);
    proof {
        let v = sections_view(out@);
        let p = pos_v.len() as int;
        let n = neg_v.len() as int;
        assert(v =~= first + pos_v + neg_v + tail_v);
        assert(v.subrange(3, 3 + p) =~= pos_v);
        assert(v.subrange(3 + p, 3 + p + n) =~= neg_v);
        assert(v.subrange(3 + p + n, v.len() as int) =~= tail_v);
        assert(v[0] == first[0] && v[1] == first[1] && v[2] == first[2]);
        let pv = match parent_layer_name {
            Some(x) => Some(x@),
            None => None,
        };
        assert(v.len() == 3 + p + n + 6);
        assert(v[0] == view_header("Service - "@, s.info));
        assert(v[1] == overview_table(service_overview_rows(s.info, pv, container_index) + diag_comm_extra_rows(s.info)));
        assert(is_param_section(v[2], "Request"@, infos_of(request_params(*s)), fields_of(request_params(*s)), DetailSectionType::Requests));
        assert(response_sections_hold(v.subrange(3, 3 + p), *s, ResponseKind::Positive));
        assert(response_sections_hold(v.subrange(3 + p, 3 + p + n), *s, ResponseKind::Negative));
        assert(tail_v == seq![
            comparam_refs_section(),
            audience_section(*dc),
            sdgs_section(*dc),
            precondition_section(*dc),
            transition_section(*dc),
            related_refs_section(),
        ]);
    }
    out
}

/// The label of a response view: the kind's label with spaces for dashes.
pub open spec fn view_label(k: ResponseKind) -> Seq<char> {
    match k {
        ResponseKind::Positive => "Pos Response"@,
        ResponseKind::Negative => "Neg Response"@,
    }
}

/// The response view of a service: a header, the overview, and its
/// response tabs of the kind.
pub fn build_response_view_sections(
    s: &Service,
    parent_layer_name: Option<&str>,
    k: ResponseKind,
    container_index: Option<usize>,
) -> (r: Vec<DetailSectionData>)
    ensures
        sections_view(r@).len() >= 3,
        sections_view(r@)[0] == view_header(view_label(k) + " - "@, s.info),
        sections_view(r@)[1] == overview_table(
            service_overview_rows(
                s.info,
                match parent_layer_name {
                    Some(p) => Some(p@),
                    None => None,
                },
                container_index,
            ),
        ),
        response_sections_hold(sections_view(r@).subrange(2, sections_view(r@).len() as int), *s, k),
{
    let prefix = match k {
        ResponseKind::Positive => "Pos Response - ",
        ResponseKind::Negative => "Neg Response - ",
    };
    proof {
        reveal_strlit("Pos Response - ");
        reveal_strlit("Neg Response - ");
        reveal_strlit("Pos Response");
        reveal_strlit("Neg Response");
        reveal_strlit(" - ");
        assert(prefix@ =~= view_label(k) + " - "@);
    }
    let mut out: Vec<DetailSectionData> = Vec::new();
    out.push(build_view_header(prefix, &s.info));
    out.push(crate::tree::elements::services::build_service_overview_section(&s.info, parent_layer_name, container_index));
    let ghost first = sections_view(out@);
    let responses = build_responses_sections(s, k);
    let ghost rv = sections_view(responses@);
    proof {
        lemma_response_count(rv, *s, k);
    }
    append_sections(&mut out, responses);
    proof {
        let v = sections_view(out@);
        assert(v =~= first + rv);
        assert(v.subrange(2, v.len() as int) =~= rv);
        assert(v[0] == first[0] && v[1] == first[1]);
    }
    out
}

} // verus!
