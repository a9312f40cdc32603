//! The detail of a communication-parameter reference: its general
//! properties, its complex value and its sub-parameters.
use vstd::prelude::*;
use crate::text::{decimal, u64_to_decimal, usize_to_decimal};
use crate::tree::elements::{
    build_property_table_with, plain_cell, plain_row, prop, prop_row, property_row, property_row_with,
    property_table_with, push_row,
};
use crate::tree::builder::TreeBuilder;
use crate::tree::rows::{class_badge, format_value_hex_decimal, hex_decimal_text, make_index_jump, param_class_badge};
use crate::tree_sort::{items_of, reorders_stably, sort_ranked, stable_sort_by, RankKey, RankKeyV, Ranked};
use vstd::hash_map::StringHashMap;
use crate::tree::types::{
    cells_view, opt_string_view, rows_view, sections_view, NodeType, NodeV, PayloadV, ServiceListType, CellJumpTarget, CellJumpTargetType, CellType, CellV,
    ColumnConstraint, ContentV, DetailCell, DetailContent, DetailRow, DetailRowType, DetailSectionData,
    DetailSectionType, JumpV, RowV, SectionV,
};

verus! {

broadcast use vstd::std_specs::vec::group_vec_axioms;

/// The kinds of data operation.
#[derive(Clone, Copy, Debug, PartialEq, Eq, Structural)]
pub enum DopKind {
    Normal,
    Dtc,
    Structure,
    StaticField,
    DynamicLengthField,
    EndOfPdu,
    Mux,
    EnvData,
    EnvDataDesc,
}

/// The badge shown before the name of a data operation of a kind; nothing
/// when the kind is not known.
pub open spec fn dop_badge_text(kind: Option<DopKind>) -> Seq<char> {
    match kind {
        Some(DopKind::Normal) => "[DOP] "@,
        Some(DopKind::Dtc) => "[DTC] "@,
        Some(DopKind::Structure) => "[Struct] "@,
        Some(DopKind::StaticField) => "[SField] "@,
        Some(DopKind::DynamicLengthField) => "[DynLen] "@,
        Some(DopKind::EndOfPdu) => "[EoPdu] "@,
        Some(DopKind::Mux) => "[Mux] "@,
        Some(DopKind::EnvData) => "[EnvData] "@,
        Some(DopKind::EnvDataDesc) => "[EnvDesc] "@,
        None => ""@,
    }
}

pub fn dop_type_badge(kind: Option<DopKind>) -> (r: &'static str)
    ensures
        r@ == dop_badge_text(kind),
{
    match kind {
        Some(DopKind::Normal) => "[DOP] ",
        Some(DopKind::Dtc) => "[DTC] ",
        Some(DopKind::Structure) => "[Struct] ",
        Some(DopKind::StaticField) => "[SField] ",
        Some(DopKind::DynamicLengthField) => "[DynLen] ",
        Some(DopKind::EndOfPdu) => "[EoPdu] ",
        Some(DopKind::Mux) => "[Mux] ",
        Some(DopKind::EnvData) => "[EnvData] ",
        Some(DopKind::EnvDataDesc) => "[EnvDesc] ",
        None => "",
    }
}

/// A data operation a parameter refers to: its short name (`?` when it has
/// none), its display name (empty when it has none of its own) and kind.
#[derive(Clone, Debug)]
pub struct ComDop {
    pub name: String,
    pub display_name: String,
    pub kind: Option<DopKind>,
}

/// The regular data of a communication parameter.
#[derive(Clone, Debug)]
pub struct RegularData {
    pub physical_default_value: Option<String>,
    pub dop: Option<ComDop>,
}

/// A sub-parameter of a complex communication parameter. `regular` holds
/// the default value of its regular data when it has such data.
#[derive(Clone, Debug)]
pub struct SubParam {
    pub short_name: Option<String>,
    pub com_param_type: String,
    pub specific_data_type: String,
    pub param_class: Option<String>,
    pub regular: Option<Option<String>>,
    pub has_complex: bool,
}

/// The complex data of a communication parameter.
#[derive(Clone, Debug)]
pub struct ComplexData {
    pub sub_params: Option<Vec<SubParam>>,
}

/// A communication parameter; the enumerations are given by their names.
#[derive(Clone, Debug)]
pub struct ComParam {
    pub short_name: Option<String>,
    pub com_param_type: String,
    pub specific_data_type: String,
    pub param_class: Option<String>,
    pub cp_type: String,
    pub cp_usage: String,
    pub display_level: Option<u32>,
    pub regular: Option<RegularData>,
    pub complex: Option<ComplexData>,
}

/// One entry of a complex value: its type (by name) and its value when it
/// is a simple value that has one.
#[derive(Clone, Debug)]
pub struct ComplexEntry {
    pub tag: String,
    pub simple_value: Option<String>,
}

/// A reference from a layer to a communication parameter.
#[derive(Clone, Debug)]
pub struct ComParamRef {
    pub com_param: Option<ComParam>,
    pub simple_value: Option<String>,
    pub complex_entries: Option<Vec<ComplexEntry>>,
    pub protocol_name: Option<String>,
    pub prot_stack_name: Option<String>,
}

// Text helpers
/// `s` without its leading double quotes.
pub open spec fn trim_quotes_start(s: Seq<char>) -> Seq<char>
    decreases s.len(),
{
    if s.len() > 0 && s[0] == '"' {
        trim_quotes_start(s.drop_first())
    } else {
        s
    }
}

/// `s` without its trailing double quotes.
pub open spec fn trim_quotes_end(s: Seq<char>) -> Seq<char>
    decreases s.len(),
{
    if s.len() > 0 && s.last() == '"' {
        trim_quotes_end(s.drop_last())
    } else {
        s
    }
}

/// `s` without double quotes at either end.
pub open spec fn trim_quotes(s: Seq<char>) -> Seq<char> {
    trim_quotes_end(trim_quotes_start(s))
}

proof fn lemma_trim_start(s: Seq<char>, i: int)
    requires
        0 <= i <= s.len(),
        forall|k: int| 0 <= k < i ==> s[k] == '"',
    ensures
        trim_quotes_start(s) == trim_quotes_start(s.subrange(i, s.len() as int)),
    decreases i,
{
    if i > 0 {
        assert(s.drop_first().subrange(i - 1, s.drop_first().len() as int) =~= s.subrange(i, s.len() as int));
        lemma_trim_start(s.drop_first(), i - 1);
    } else {
        assert(s.subrange(0, s.len() as int) =~= s);
    }
}

proof fn lemma_trim_end(s: Seq<char>, j: int)
    requires
        0 <= j <= s.len(),
        forall|k: int| j <= k < s.len() ==> s[k] == '"',
    ensures
        trim_quotes_end(s) == trim_quotes_end(s.subrange(0, j)),
    decreases s.len() - j,
{
    if j < s.len() {
        assert(s.drop_last().subrange(0, j) =~= s.subrange(0, j));
        lemma_trim_end(s.drop_last(), j);
    } else {
        assert(s.subrange(0, j) =~= s);
    }
}

pub fn trim_quotes_exec(s: &str) -> (r: String)
    ensures
        r@ == trim_quotes(s@),
{
    let chars = crate::text::chars_of(s);
    let mut i: usize = 0;
    while i < chars.len() && chars[i] == '"'
        invariant
            chars@ == s@,
            i <= chars@.len(),
            forall|k: int| 0 <= k < i ==> chars@[k] == '"',
        decreases chars@.len() - i,
    {
        i = i + 1;
    }
    let ghost rest = chars@.subrange(i as int, chars@.len() as int);
    proof {
        lemma_trim_start(s@, i as int);
        assert(!(rest.len() > 0 && rest[0] == '"'));
        assert(trim_quotes_start(s@) == rest);
    }
    let mut j: usize = chars.len();
    while j > i && chars[j - 1] == '"'
        invariant
            chars@ == s@,
            i <= j <= chars@.len(),
            forall|k: int| j <= k < chars@.len() ==> chars@[k] == '"',
        decreases j,
    {
        j = j - 1;
    }
    proof {
        let jr = j - i;
        assert forall|k: int| jr <= k < rest.len() implies rest[k] == '"' by {
            assert(rest[k] == chars@[k + i]);
        }
        lemma_trim_end(rest, jr as int);
        let kept = rest.subrange(0, jr as int);
        assert(kept =~= chars@.subrange(i as int, j as int));
        assert(!(kept.len() > 0 && kept.last() == '"'));
    }
    crate::text::string_of_range(chars.as_slice(), i, j)
}

/// The data kinds disagree: the type says regular or complex and the data
/// is not of that kind, or the data is of neither kind.
pub open spec fn kind_mismatch(com_param_type: Seq<char>, has_regular: bool, has_complex: bool) -> bool {
    (com_param_type == "REGULAR"@ && !has_regular) || (com_param_type == "COMPLEX"@ && !has_complex) || (
    !has_regular && !has_complex)
}

fn kind_mismatch_exec(com_param_type: &str, has_regular: bool, has_complex: bool) -> (r: bool)
    ensures
        r == kind_mismatch(com_param_type@, has_regular, has_complex),
{
    (crate::text::str_eq(com_param_type, "REGULAR") && !has_regular) || (crate::text::str_eq(
        com_param_type,
        "COMPLEX",
    ) && !has_complex) || (!has_regular && !has_complex)
}

/// A name, or `?` when there is none.
pub open spec fn name_or_q(o: Option<String>) -> Seq<char> {
    match o {
        Some(n) => n@,
        None => "?"@,
    }
}

fn name_or_q_exec(o: &Option<String>) -> (r: String)
    ensures
        r@ == name_or_q(*o),
{
    match o {
        Some(n) => n.clone(),
        None => "?".to_owned(),
    }
}

/// A value, or `-` when there is none.
pub open spec fn value_or_dash(o: Option<String>) -> Seq<char> {
    match o {
        Some(n) => n@,
        None => "-"@,
    }
}

fn value_or_dash_exec(o: &Option<String>) -> (r: String)
    ensures
        r@ == value_or_dash(*o),
{
    match o {
        Some(n) => n.clone(),
        None => "-".to_owned(),
    }
}

// General tab
/// A property row of plain text.
pub open spec fn kv(key: Seq<char>, value: Seq<char>) -> RowV {
    prop(key, value, CellType::Text)
}

/// The row naming a data operation, with its badge, leading to it by its
/// display name when it has one.
pub open spec fn com_dop_row(key: Seq<char>, d: ComDop) -> RowV {
    let nav = if d.display_name@.len() == 0 {
        d.name@
    } else {
        d.display_name@
    };
    property_row(
        key,
        CellV {
            text: dop_badge_text(d.kind) + nav,
            cell_type: CellType::DopReference,
            jump_target: Some(JumpV::Dop { index: usize::MAX, name: nav }),
        },
    )
}

pub fn build_com_dop_row(key: &str, d: &ComDop) -> (r: DetailRow)
    ensures
        r@ == com_dop_row(key@, *d),
{
    let nav = if d.display_name.as_str().is_empty() {
        d.name.clone()
    } else {
        d.display_name.clone()
    };
    let mut value = dop_type_badge(d.kind).to_owned();
    value.append(nav.as_str());
    let cell = DetailCell::new(value.as_str(), CellType::DopReference).with_jump(
        CellJumpTarget::new(CellJumpTargetType::Dop { index: usize::MAX, name: nav }),
    );
    property_row_with(key, cell)
}

/// What the specific data type cell of the general tab reads.
pub open spec fn specific_type_text(cp: ComParam) -> Seq<char> {
    let t = trim_quotes(cp.specific_data_type@);
    if kind_mismatch(cp.com_param_type@, cp.regular is Some, cp.complex is Some) {
        t + " (MISMATCH: Type="@ + cp.com_param_type@ + ")"@
    } else {
        t
    }
}

/// The rows of the regular data: its default value and its data operation.
pub open spec fn regular_rows(r: Option<RegularData>) -> Seq<RowV> {
    match r {
        Some(r) => (match r.physical_default_value {
            Some(v) => seq![kv("Physical Default Value"@, hex_decimal_text(v@))],
            None => Seq::empty(),
        }) + match r.dop {
            Some(d) => seq![com_dop_row("DOP"@, d)],
            None => Seq::empty(),
        },
        None => Seq::empty(),
    }
}

/// The rows describing the communication parameter itself.
pub open spec fn com_param_rows(cp: ComParam) -> Seq<RowV> {
    seq![
        kv("Short Name"@, name_or_q(cp.short_name)),
        kv("Type"@, cp.com_param_type@),
        kv("Specific Data Type"@, specific_type_text(cp)),
        kv("Param Class"@, value_or_dash(cp.param_class)),
        kv("Standardisation Level"@, cp.cp_type@),
        kv("Usage"@, cp.cp_usage@),
    ] + (match cp.display_level {
        Some(dl) => seq![kv("Display Level"@, decimal(dl as nat))],
        None => Seq::empty(),
    }) + regular_rows(cp.regular)
}

/// The protocol row, leading to the protocol's node.
pub open spec fn protocol_row(name: Seq<char>) -> RowV {
    property_row(
        "Protocol"@,
        CellV {
            text: name,
            cell_type: CellType::ParameterName,
            jump_target: Some(JumpV::TreeNodeByIndex { index: usize::MAX, short_name: name }),
        },
    )
}

pub open spec fn com_param_part(r: ComParamRef) -> Seq<RowV> {
    match r.com_param {
        Some(cp) => com_param_rows(cp),
        None => Seq::empty(),
    }
}

pub open spec fn simple_value_part(r: ComParamRef) -> Seq<RowV> {
    match r.simple_value {
        Some(v) => seq![kv("Simple Value"@, hex_decimal_text(v@))],
        None => Seq::empty(),
    }
}

pub open spec fn protocol_part(r: ComParamRef) -> Seq<RowV> {
    match r.protocol_name {
        Some(n) => seq![protocol_row(n@)],
        None => Seq::empty(),
    }
}

pub open spec fn prot_stack_part(r: ComParamRef) -> Seq<RowV> {
    match r.prot_stack_name {
        Some(n) => seq![kv("Prot Stack"@, n@)],
        None => Seq::empty(),
    }
}

/// All rows of the general tab: the parameter's own rows, then its simple
/// value, protocol and protocol stack.
pub open spec fn general_rows(r: ComParamRef) -> Seq<RowV> {
    com_param_part(r) + simple_value_part(r) + protocol_part(r) + prot_stack_part(r)
}

/// The `General` tab, when it has any row.
pub open spec fn general_section(r: ComParamRef) -> Option<SectionV> {
    if general_rows(r).len() == 0 {
        None
    } else {
        Some(property_table_with("General"@, general_rows(r), DetailSectionType::Overview, false))
    }
}

fn build_regular_rows(r: &Option<RegularData>, rows: &mut Vec<DetailRow>)
    ensures
        rows_view(final(rows)@) == rows_view(old(rows)@) + regular_rows(*r),
{
    if let Some(reg) = r {
        if let Some(v) = &reg.physical_default_value {
            push_row(rows, prop_row("Physical Default Value", format_value_hex_decimal(v.as_str()).as_str(), CellType::Text));
        }
        let ghost mid = rows_view(rows@);
        if let Some(d) = &reg.dop {
            push_row(rows, build_com_dop_row("DOP", d));
        }
        assert(rows_view(rows@) =~= rows_view(old(rows)@) + regular_rows(*r));
    } else {
        assert(rows_view(rows@) =~= rows_view(old(rows)@) + regular_rows(*r));
    }
}

fn build_com_param_rows(cp: &ComParam, rows: &mut Vec<DetailRow>)
    ensures
        rows_view(final(rows)@) == rows_view(old(rows)@) + com_param_rows(*cp),
{
    let ghost start = rows_view(rows@);
    push_row(rows, prop_row("Short Name", name_or_q_exec(&cp.short_name).as_str(), CellType::Text));
    push_row(rows, prop_row("Type", cp.com_param_type.as_str(), CellType::Text));
    let mut specific = trim_quotes_exec(cp.specific_data_type.as_str());
    if kind_mismatch_exec(cp.com_param_type.as_str(), cp.regular.is_some(), cp.complex.is_some()) {
        specific.append(" (MISMATCH: Type=");
        specific.append(cp.com_param_type.as_str());
        specific.append(")");
    }
    push_row(rows, prop_row("Specific Data Type", specific.as_str(), CellType::Text));
    push_row(rows, prop_row("Param Class", value_or_dash_exec(&cp.param_class).as_str(), CellType::Text));
    push_row(rows, prop_row("Standardisation Level", cp.cp_type.as_str(), CellType::Text));
    push_row(rows, prop_row("Usage", cp.cp_usage.as_str(), CellType::Text));
    let ghost first = start + seq![
        kv("Short Name"@, name_or_q(cp.short_name)),
        kv("Type"@, cp.com_param_type@),
        kv("Specific Data Type"@, specific_type_text(*cp)),
        kv("Param Class"@, value_or_dash(cp.param_class)),
        kv("Standardisation Level"@, cp.cp_type@),
        kv("Usage"@, cp.cp_usage@),
    ];
    assert(rows_view(rows@) =~= first);
    if let Some(dl) = cp.display_level {
        push_row(rows, prop_row("Display Level", u64_to_decimal(dl as u64).as_str(), CellType::Text));
    }
    let ghost second = first + match cp.display_level {
        Some(dl) => seq![kv("Display Level"@, decimal(dl as nat))],
        None => Seq::<RowV>::empty(),
    };
    assert(rows_view(rows@) =~= second);
    build_regular_rows(&cp.regular, rows);
    assert(rows_view(rows@) =~= start + com_param_rows(*cp));
}

pub fn build_general_section(r: &ComParamRef) -> (s: Option<DetailSectionData>)
    ensures
        match s {
            Some(s) => general_section(*r) == Some(s@),
            None => general_section(*r) is None,
        },
{
    let mut rows: Vec<DetailRow> = Vec::new();
    assert(rows_view(rows@) =~= Seq::<RowV>::empty());
    if let Some(cp) = &r.com_param {
        build_com_param_rows(cp, &mut rows);
    }
    let ghost a = com_param_part(*r);
    assert(rows_view(rows@) =~= a);
    if let Some(v) = &r.simple_value {
        push_row(&mut rows, prop_row("Simple Value", format_value_hex_decimal(v.as_str()).as_str(), CellType::Text));
    }
    let ghost b = a + simple_value_part(*r);
    assert(rows_view(rows@) =~= b);
    if let Some(n) = &r.protocol_name {
        let cell = DetailCell::new(n.as_str(), CellType::ParameterName).with_jump(
            CellJumpTarget::new(CellJumpTargetType::TreeNodeByIndex { index: usize::MAX, short_name: n.clone() }),
        );
        push_row(&mut rows, property_row_with("Protocol", cell));
    }
    let ghost c = b + protocol_part(*r);
    assert(rows_view(rows@) =~= c);
    if let Some(n) = &r.prot_stack_name {
        push_row(&mut rows, prop_row("Prot Stack", n.as_str(), CellType::Text));
    }
    assert(rows_view(rows@) =~= general_rows(*r));
    if rows.len() == 0 {
        return None;
    }
    Some(build_property_table_with("General".to_owned(), rows, DetailSectionType::Overview, false))
}

// Complex value tab
/// The row of entry `i` of a complex value: its position, type and value
/// (`Complex[i]` when it is no simple value with one).
pub open spec fn complex_entry_row(i: int, e: ComplexEntry) -> RowV {
    plain_row(
        seq![
            plain_cell(decimal(i as nat), CellType::Text),
            plain_cell(e.tag@, CellType::Text),
            plain_cell(
                match e.simple_value {
                    Some(v) => hex_decimal_text(v@),
                    None => "Complex["@ + decimal(i as nat) + "]"@,
                },
                CellType::Text,
            ),
        ],
        DetailRowType::Normal,
    )
}

pub open spec fn complex_header() -> RowV {
    plain_row(
        seq![
            plain_cell("#"@, CellType::Text),
            plain_cell("Type"@, CellType::Text),
            plain_cell("Value"@, CellType::Text),
        ],
        DetailRowType::Header,
    )
}

/// The `Complex Value` tab, when the reference has entries.
pub open spec fn complex_value_section(r: ComParamRef) -> Option<SectionV> {
    match r.complex_entries {
        Some(es) => if es@.len() == 0 {
            None
        } else {
            Some(
                SectionV {
                    title: "Complex Value"@,
                    content: ContentV::Table {
                        header: complex_header(),
                        rows: Seq::new(es@.len(), |i: int| complex_entry_row(i, es@[i])),
                        constraints: seq![
                            ColumnConstraint::Fixed(5),
                            ColumnConstraint::Percentage(30),
                            ColumnConstraint::Percentage(70),
                        ],
                        use_row_selection: false,
                    },
                    render_as_header: false,
                    section_type: DetailSectionType::Custom,
                    byte_pattern_rows: None,
                },
            )
        },
        None => None,
    }
}

pub fn build_complex_value_section(r: &ComParamRef) -> (s: Option<DetailSectionData>)
    ensures
        match s {
            Some(s) => complex_value_section(*r) == Some(s@),
            None => complex_value_section(*r) is None,
        },
{
    let es = match &r.complex_entries {
        Some(es) => es,
        None => {
            return None;
        },
    };
    if es.len() == 0 {
        return None;
    }
    let mut rows: Vec<DetailRow> = Vec::new();
    let mut i: usize = 0;
    while i < es.len()
        invariant
            i <= es@.len(),
            rows@.len() == i,
            forall|k: int| 0 <= k < i ==> (#[trigger] rows@[k])@ == complex_entry_row(k, es@[k]),
        decreases es@.len() - i,
    {
        let e = &es[i];
        let idx_text = usize_to_decimal(i);
        let value = match &e.simple_value {
            Some(v) => format_value_hex_decimal(v.as_str()),
            None => {
                let mut t = "Complex[".to_owned();
                t.append(idx_text.as_str());
                t.append("]");
                t
            },
        };
        let cells = vec![
            DetailCell::text(idx_text.as_str()),
            DetailCell::text(e.tag.as_str()),
            DetailCell::text(value.as_str()),
        ];
        proof {
            assert(cells_view(cells@) =~= complex_entry_row(i as int, *e).cells);
        }
        rows.push(DetailRow::normal(cells, 0));
        i = i + 1;
    }
    assert(rows_view(rows@) =~= Seq::new(es@.len(), |i: int| complex_entry_row(i, es@[i])));
    let header = DetailRow::header(vec![DetailCell::text("#"), DetailCell::text("Type"), DetailCell::text("Value")]);
    proof {
        assert(cells_view(header.cells@) =~= complex_header().cells);
    }
    let constraints = vec![
        ColumnConstraint::Fixed(5),
        ColumnConstraint::Percentage(30),
        ColumnConstraint::Percentage(70),
    ];
    Some(
        DetailSectionData {
            title: "Complex Value".to_owned(),
            render_as_header: false,
            section_type: DetailSectionType::Custom,
            content: DetailContent::Table { header, rows, constraints, use_row_selection: false },
            byte_pattern_rows: None,
        },
    )
}

// Sub-parameters tab
/// The row of one sub-parameter.
pub open spec fn sub_param_row(sp: SubParam) -> RowV {
    let t = trim_quotes(sp.specific_data_type@);
    plain_row(
        seq![
            plain_cell(name_or_q(sp.short_name), CellType::Text),
            plain_cell(sp.com_param_type@, CellType::Text),
            plain_cell(
                if kind_mismatch(sp.com_param_type@, sp.regular is Some, sp.has_complex) {
                    t + " (MISMATCH)"@
                } else {
                    t
                },
                CellType::Text,
            ),
            plain_cell(value_or_dash(sp.param_class), CellType::Text),
            plain_cell(
                match sp.regular {
                    Some(Some(v)) => hex_decimal_text(v@),
                    _ => Seq::empty(),
                },
                CellType::Text,
            ),
        ],
        DetailRowType::Normal,
    )
}

fn build_sub_param_row(sp: &SubParam) -> (r: DetailRow)
    ensures
        r@ == sub_param_row(*sp),
{
    let mut specific = trim_quotes_exec(sp.specific_data_type.as_str());
    if kind_mismatch_exec(sp.com_param_type.as_str(), sp.regular.is_some(), sp.has_complex) {
        specific.append(" (MISMATCH)");
    }
    let default_value = match &sp.regular {
        Some(Some(v)) => format_value_hex_decimal(v.as_str()),
        _ => String::new(),
    };
    let cells = vec![
        DetailCell::text(name_or_q_exec(&sp.short_name).as_str()),
        DetailCell::text(sp.com_param_type.as_str()),
        DetailCell::text(specific.as_str()),
        DetailCell::text(value_or_dash_exec(&sp.param_class).as_str()),
        DetailCell::text(default_value.as_str()),
    ];
    proof {
        assert(cells_view(cells@) =~= sub_param_row(*sp).cells);
    }
    DetailRow::normal(cells, 0)
}

pub open spec fn sub_params_header() -> RowV {
    plain_row(
        seq![
            plain_cell("Short Name"@, CellType::Text),
            plain_cell("Type"@, CellType::Text),
            plain_cell("Specific Data"@, CellType::Text),
            plain_cell("Param Class"@, CellType::Text),
            plain_cell("Default Value"@, CellType::Text),
        ],
        DetailRowType::Header,
    )
}

/// The sub-parameters of the referenced parameter, when it is complex and
/// lists them.
pub open spec fn sub_params_of(r: ComParamRef) -> Option<Seq<SubParam>> {
    match r.com_param {
        Some(cp) => match cp.complex {
            Some(c) => match c.sub_params {
                Some(sps) => Some(sps@),
                None => None,
            },
            None => None,
        },
        None => None,
    }
}

/// The `Sub-Parameters` tab, when there are any.
pub open spec fn sub_params_section(r: ComParamRef) -> Option<SectionV> {
    match sub_params_of(r) {
        Some(sps) => if sps.len() == 0 {
            None
        } else {
            Some(
                SectionV {
                    title: "Sub-Parameters"@,
                    content: ContentV::Table {
                        header: sub_params_header(),
                        rows: Seq::new(sps.len(), |i: int| sub_param_row(sps[i])),
                        constraints: seq![
                            ColumnConstraint::Percentage(25),
                            ColumnConstraint::Percentage(15),
                            ColumnConstraint::Percentage(20),
                            ColumnConstraint::Percentage(15),
                            ColumnConstraint::Percentage(25),
                        ],
                        use_row_selection: true,
                    },
                    render_as_header: false,
                    section_type: DetailSectionType::ComParams,
                    byte_pattern_rows: None,
                },
            )
        },
        None => None,
    }
}

pub fn build_sub_params_section(r: &ComParamRef) -> (s: Option<DetailSectionData>)
    ensures
        match s {
            Some(s) => sub_params_section(*r) == Some(s@),
            None => sub_params_section(*r) is None,
        },
{
    let sps = match &r.com_param {
        Some(cp) => match &cp.complex {
            Some(c) => match &c.sub_params {
                Some(sps) => sps,
                None => {
                    return None;
                },
            },
            None => {
                return None;
            },
        },
        None => {
            return None;
        },
    };
    if sps.len() == 0 {
        return None;
    }
    let mut rows: Vec<DetailRow> = Vec::new();
    let mut i: usize = 0;
    while i < sps.len()
        invariant
            i <= sps@.len(),
            rows@.len() == i,
            forall|k: int| 0 <= k < i ==> (#[trigger] rows@[k])@ == sub_param_row(sps@[k]),
        decreases sps@.len() - i,
    {
        rows.push(build_sub_param_row(&sps[i]));
        i = i + 1;
    }
    assert(rows_view(rows@) =~= Seq::new(sps@.len(), |i: int| sub_param_row(sps@[i])));
    let header = DetailRow::header(
        vec![
            DetailCell::text("Short Name"),
            DetailCell::text("Type"),
            DetailCell::text("Specific Data"),
            DetailCell::text("Param Class"),
            DetailCell::text("Default Value"),
        ],
    );
    proof {
        assert(cells_view(header.cells@) =~= sub_params_header().cells);
    }
    let constraints = vec![
        ColumnConstraint::Percentage(25),
        ColumnConstraint::Percentage(15),
        ColumnConstraint::Percentage(20),
        ColumnConstraint::Percentage(15),
        ColumnConstraint::Percentage(25),
    ];
    Some(
        DetailSectionData {
            title: "Sub-Parameters".to_owned(),
            render_as_header: false,
            section_type: DetailSectionType::ComParams,
            content: DetailContent::Table { header, rows, constraints, use_row_selection: true },
            byte_pattern_rows: None,
        },
    )
}

/// The tabs that exist, in order.
pub open spec fn present(s: Seq<Option<SectionV>>) -> Seq<SectionV>
    decreases s.len(),
{
    if s.len() == 0 {
        Seq::empty()
    } else {
        present(s.drop_last()) + match s.last() {
            Some(x) => seq![x],
            None => Seq::empty(),
        }
    }
}

/// The detail of a reference: its general, complex-value and
/// sub-parameter tabs, those that exist.
pub open spec fn com_param_ref_detail(r: ComParamRef) -> Seq<SectionV> {
    present(seq![general_section(r), complex_value_section(r), sub_params_section(r)])
}

pub fn build_com_param_ref_detail(r: &ComParamRef) -> (v: Vec<DetailSectionData>)
    ensures
        sections_view(v@) == com_param_ref_detail(*r),
{
    let mut v: Vec<DetailSectionData> = Vec::new();
    let g = build_general_section(r);
    let c = build_complex_value_section(r);
    let s = build_sub_params_section(r);
    let ghost parts = seq![general_section(*r), complex_value_section(*r), sub_params_section(*r)];
    proof {
        reveal_with_fuel(present, 4);
    }
    assert(parts.subrange(0, 3) =~= parts);
    assert(parts.subrange(0, 3).drop_last() =~= parts.subrange(0, 2));
    assert(parts.subrange(0, 2).drop_last() =~= parts.subrange(0, 1));
    assert(parts.subrange(0, 1).drop_last() =~= parts.subrange(0, 0));
    if let Some(x) = g {
        v.push(x);
    }
    assert(sections_view(v@) =~= present(parts.subrange(0, 1)));
    if let Some(x) = c {
        v.push(x);
    }
    assert(sections_view(v@) =~= present(parts.subrange(0, 2)));
    if let Some(x) = s {
        v.push(x);
    }
    assert(sections_view(v@) =~= present(parts.subrange(0, 3)));
    v
}

// The ComParam Refs list
/// The short name a reference is listed under (`?` when its parameter has
/// none).
pub open spec fn ref_name(r: ComParamRef) -> Seq<char> {
    match r.com_param {
        Some(cp) => name_or_q(cp.short_name),
        None => "?"@,
    }
}

/// The parameter class of the referenced parameter.
pub open spec fn ref_class(r: ComParamRef) -> Option<Seq<char>> {
    match r.com_param {
        Some(cp) => opt_string_view(cp.param_class),
        None => None,
    }
}

/// The node label of a reference: its class badge, then its name.
pub open spec fn ref_display(r: ComParamRef) -> Seq<char> {
    class_badge(ref_class(r)) + ref_name(r)
}

/// The positions of the references that name a parameter, in order.
pub open spec fn cp_indices(refs: Seq<ComParamRef>) -> Seq<usize>
    decreases refs.len(),
{
    if refs.len() == 0 {
        Seq::empty()
    } else {
        cp_indices(refs.drop_last()) + if refs.last().com_param is Some {
            seq![(refs.len() - 1) as usize]
        } else {
            Seq::empty()
        }
    }
}

/// The references are listed by name.
pub open spec fn by_ref_name(refs: Seq<ComParamRef>) -> spec_fn(usize) -> RankKeyV {
    |i: usize| RankKeyV::Text(ref_name(refs[i as int]))
}

/// The node positions by label after the first `n` listed references were
/// pushed from position `base` on (a later label wins).
pub open spec fn index_map(refs: Seq<ComParamRef>, order: Seq<usize>, base: int, n: int) -> Map<Seq<char>, usize>
    decreases n,
{
    if n <= 0 {
        Map::empty()
    } else {
        index_map(refs, order, base, n - 1).insert(ref_display(refs[order[n - 1] as int]), (base + n - 1) as usize)
    }
}

/// After the first `n` listed references were pushed, every label among
/// them maps to the position of a node pushed with that label.
pub proof fn lemma_index_map_labels(refs: Seq<ComParamRef>, order: Seq<usize>, base: int, n: int, k: int)
    requires
        0 <= k < n <= order.len(),
        0 <= base,
        base + n <= usize::MAX,
    ensures
        index_map(refs, order, base, n).contains_key(ref_display(refs[order[k] as int])),
        base <= index_map(refs, order, base, n)[ref_display(refs[order[k] as int])] < base + n,
        ref_display(refs[order[index_map(refs, order, base, n)[ref_display(refs[order[k] as int])] - base] as int])
            == ref_display(refs[order[k] as int]),
    decreases n,
{
    let d = ref_display(refs[order[k] as int]);
    let last = ref_display(refs[order[n - 1] as int]);
    if d != last {
        lemma_index_map_labels(refs, order, base, n - 1, k);
    }
}

/// The row of the overview for a listed reference: its name leading to
/// the node of its label, and its type.
pub open spec fn overview_row(r: ComParamRef, m: Map<Seq<char>, usize>) -> RowV {
    let d = ref_display(r);
    plain_row(
        seq![
            CellV {
                text: ref_name(r),
                cell_type: CellType::ParameterName,
                jump_target: Some(
                    JumpV::TreeNodeByIndex {
                        index: if m.contains_key(d) {
                            m[d]
                        } else {
                            usize::MAX
                        },
                        short_name: d,
                    },
                ),
            },
            plain_cell(
                match r.com_param {
                    Some(cp) => cp.com_param_type@,
                    None => Seq::empty(),
                },
                CellType::Text,
            ),
        ],
        DetailRowType::Normal,
    )
}

pub open spec fn overview_header() -> RowV {
    plain_row(
        seq![plain_cell("Short Name"@, CellType::Text), plain_cell("Type"@, CellType::Text)],
        DetailRowType::Header,
    )
}

/// The overview of the list: a row per listed reference in list order.
pub open spec fn com_params_overview(refs: Seq<ComParamRef>, order: Seq<usize>, m: Map<Seq<char>, usize>) -> SectionV {
    SectionV {
        title: "Overview"@,
        content: ContentV::Table {
            header: overview_header(),
            rows: Seq::new(order.len(), |k: int| overview_row(refs[order[k] as int], m)),
            constraints: seq![ColumnConstraint::Percentage(60), ColumnConstraint::Percentage(40)],
            use_row_selection: true,
        },
        render_as_header: false,
        section_type: DetailSectionType::Overview,
        byte_pattern_rows: None,
    }
}

pub fn build_com_params_overview(
    refs: &Vec<ComParamRef>,
    order: &Vec<usize>,
    node_indices: &StringHashMap<usize>,
) -> (r: Vec<DetailSectionData>)
    requires
        forall|k: int| 0 <= k < order@.len() ==> (#[trigger] order@[k]) < refs@.len() && refs@[order@[k] as int].com_param is Some,
    ensures
        sections_view(r@) == seq![com_params_overview(refs@, order@, node_indices@)],
{
    let mut rows: Vec<DetailRow> = Vec::new();
    let mut k: usize = 0;
    while k < order.len()
        invariant
            k <= order@.len(),
            rows@.len() == k,
            forall|j: int| 0 <= j < order@.len() ==> (#[trigger] order@[j]) < refs@.len() && refs@[order@[j] as int].com_param is Some,
            forall|j: int| 0 <= j < k ==> (#[trigger] rows@[j])@ == overview_row(refs@[order@[j] as int], node_indices@),
        decreases order@.len() - k,
    {
        let r = &refs[order[k]];
        let cp = match &r.com_param {
            Some(cp) => cp,
            None => {
                assert(false);
                return Vec::new();
            },
        };
        let name = name_or_q_exec(&cp.short_name);
        let class: Option<&str> = match &cp.param_class {
            Some(c) => Some(c.as_str()),
            None => None,
        };
        let mut display = param_class_badge(class);
        display.append(name.as_str());
        proof {
            assert(display@ == ref_display(*r));
        }
        let jump = make_index_jump(display.as_str(), node_indices);
        let cells = vec![
            DetailCell::new(name.as_str(), CellType::ParameterName).with_jump(jump),
            DetailCell::text(cp.com_param_type.as_str()),
        ];
        proof {
            assert(cells_view(cells@) =~= overview_row(*r, node_indices@).cells);
        }
        rows.push(DetailRow::normal(cells, 0));
        k = k + 1;
    }
    assert(rows_view(rows@) =~= Seq::new(order@.len(), |k: int| overview_row(refs@[order@[k] as int], node_indices@)));
    let header = DetailRow::header(vec![DetailCell::text("Short Name"), DetailCell::text("Type")]);
    proof {
        assert(cells_view(header.cells@) =~= overview_header().cells);
    }
    let constraints = vec![ColumnConstraint::Percentage(60), ColumnConstraint::Percentage(40)];
    let overview = DetailSectionData::new(
        "Overview".to_owned(),
        DetailContent::Table { header, rows, constraints, use_row_selection: true },
        false,
    ).with_type(DetailSectionType::Overview);
    let v = vec![overview];
    assert(sections_view(v@) =~= seq![com_params_overview(refs@, order@, node_indices@)]);
    v
}

fn listed_indices(refs: &Vec<ComParamRef>) -> (r: Vec<usize>)
    ensures
        stable_sort_by(r@, cp_indices(refs@), by_ref_name(refs@)),
        forall|k: int| 0 <= k < r@.len() ==> (#[trigger] r@[k]) < refs@.len() && refs@[r@[k] as int].com_param is Some,
{
    let mut ranked: Vec<Ranked<usize>> = Vec::new();
    let mut i: usize = 0;
    while i < refs.len()
        invariant
            i <= refs@.len(),
            items_of(ranked@) == cp_indices(refs@.subrange(0, i as int)),
            forall|k: int| 0 <= k < ranked@.len() ==> (#[trigger] ranked@[k]).key@ == by_ref_name(refs@)(ranked@[k].item),
            forall|k: int| 0 <= k < ranked@.len() ==> (#[trigger] ranked@[k]).item < i && refs@[ranked@[k].item as int].com_param is Some,
        decreases refs@.len() - i,
    {
        proof {
            let pre = refs@.subrange(0, i as int + 1);
            assert(pre.drop_last() =~= refs@.subrange(0, i as int));
        }
        if let Some(cp) = &refs[i].com_param {
            let name = name_or_q_exec(&cp.short_name);
            ranked.push(Ranked { key: RankKey::Text(name), item: i });
            assert(items_of(ranked@) =~= cp_indices(refs@.subrange(0, i as int + 1)));
        } else {
            assert(items_of(ranked@) =~= cp_indices(refs@.subrange(0, i as int + 1)));
        }
        i = i + 1;
    }
    assert(refs@.subrange(0, refs@.len() as int) =~= refs@);
    let ghost input = ranked@;
    let r = sort_ranked(ranked, Ghost(by_ref_name(refs@)));
    proof {
        let perm = choose|perm: Seq<int>| reorders_stably(r@, items_of(input), by_ref_name(refs@), perm);
        assert forall|k: int| 0 <= k < r@.len() implies (#[trigger] r@[k]) < refs@.len() && refs@[r@[k] as int].com_param is Some by {
            assert(r@[k] == items_of(input)[perm[k]]);
            assert(input[perm[k]].item == items_of(input)[perm[k]]);
        }
    }
    r
}

/// The child nodes of the list: one per listed reference, labelled with its
/// badge and name, holding its detail.
pub open spec fn com_param_node(depth: usize, r: ComParamRef) -> NodeV {
    NodeV {
        depth: if depth == usize::MAX {
            usize::MAX
        } else {
            (depth + 1) as usize
        },
        text: ref_display(r),
        expanded: false,
        has_children: false,
        detail_sections: com_param_ref_detail(r),
        node_type: NodeType::Default,
        payload: PayloadV::Empty,
        parent_idx: None,
        diff_status: None,
        old_text: None,
    }
}

/// The header of the list.
pub open spec fn com_params_header(depth: usize, refs: Seq<ComParamRef>, overview: Seq<SectionV>) -> NodeV {
    NodeV {
        depth,
        text: "ComParam Refs ("@ + decimal(refs.len()) + ")"@,
        expanded: false,
        has_children: true,
        detail_sections: overview,
        node_type: NodeType::SectionHeader,
        payload: PayloadV::ServiceListHeader { service_list_type: ServiceListType::ComParamRefs },
        parent_idx: None,
        diff_status: None,
        old_text: None,
    }
}

/// Adds the ComParam Refs list of a layer: a header counting the
/// references, then a node per reference that names a parameter, sorted
/// stably by name; the header's overview leads to those nodes.
#[verifier::rlimit(40)]
pub fn add_com_params(b: &mut TreeBuilder, refs: Option<Vec<ComParamRef>>, depth: usize)
    ensures
        match refs {
            None => final(b).nodes@ == old(b).nodes@,
            Some(rs) => if rs@.len() == 0 {
                final(b).nodes@ == old(b).nodes@
            } else {
                let h = old(b).nodes@.len() as int;
                exists|order: Seq<usize>| {
                    &&& stable_sort_by(order, cp_indices(rs@), by_ref_name(rs@))
                    &&& final(b).nodes@.len() == h + 1 + order.len()
                    &&& final(b).nodes@.subrange(0, h) == old(b).nodes@
                    &&& final(b).nodes@[h]@ == com_params_header(
                        depth,
                        rs@,
                        seq![com_params_overview(rs@, order, index_map(rs@, order, h + 1, order.len() as int))],
                    )
                    &&& forall|k: int|
                        0 <= k < order.len() ==> (#[trigger] final(b).nodes@[h + 1 + k])@ == com_param_node(
                            depth,
                            rs@[order[k] as int],
                        )
                    &&& forall|k: int|
                        0 <= k < order.len() ==> {
                            let m = index_map(rs@, order, h + 1, order.len() as int);
                            let d = #[trigger] ref_display(rs@[order[k] as int]);
                            &&& m.contains_key(d)
                            &&& h + 1 <= m[d] < final(b).nodes@.len()
                            &&& final(b).nodes@[m[d] as int].text@ == d
                        }
                }
            },
        },
{
    let refs = match refs {
        Some(r) => r,
        None => {
            return;
        },
    };
    if refs.len() == 0 {
        return;
    }
    let header_idx = b.next_index();
    let ghost h = header_idx as int;
    let mut text = "ComParam Refs (".to_owned();
    text.append(usize_to_decimal(refs.len()).as_str());
    text.append(")");
    b.push_service_list_header(depth, text, false, true, Vec::new(), ServiceListType::ComParamRefs);
    let ghost after_header = b.nodes@;
    assert(after_header.subrange(0, h) =~= old(b).nodes@);
    let order = listed_indices(&refs);
    let mut node_indices: StringHashMap<usize> = StringHashMap::new();
    let child_depth = depth.saturating_add(1);
    let mut k: usize = 0;
    while k < order.len()
        invariant
            k <= order@.len(),
            h == old(b).nodes@.len(),
            b.nodes@.len() == h + 1 + k,
            b.nodes@.subrange(0, h + 1) == after_header,
            child_depth == (if depth == usize::MAX { usize::MAX } else { (depth + 1) as usize }),
            node_indices@ == index_map(refs@, order@, h + 1, k as int),
            forall|j: int| 0 <= j < order@.len() ==> (#[trigger] order@[j]) < refs@.len() && refs@[order@[j] as int].com_param is Some,
            forall|j: int| 0 <= j < k ==> (#[trigger] b.nodes@[h + 1 + j])@ == com_param_node(depth, refs@[order@[j] as int]),
        decreases order@.len() - k,
    {
        let r = &refs[order[k]];
        let cp = match &r.com_param {
            Some(cp) => cp,
            None => {
                assert(false);
                return;
            },
        };
        let name = name_or_q_exec(&cp.short_name);
        let class: Option<&str> = match &cp.param_class {
            Some(c) => Some(c.as_str()),
            None => None,
        };
        let mut display = param_class_badge(class);
        display.append(name.as_str());
        proof {
            assert(display@ == ref_display(*r));
        }
        let pos = b.next_index();
        node_indices.insert(display.clone(), pos);
        let sections = build_com_param_ref_detail(r);
        b.push_details_structured(child_depth, display, false, false, sections, NodeType::Default);
        proof {
            assert(b.nodes@.subrange(0, h + 1) =~= after_header);
            assert(b.nodes@[h + 1 + k as int]@ == com_param_node(depth, refs@[order@[k as int] as int]));
        }
        k = k + 1;
    }
    let overview = build_com_params_overview(&refs, &order, &node_indices);
    let ghost before_set = b.nodes@;
    assert(before_set[h] == after_header[h]);
    b.set_detail_sections(header_idx, overview);
    let total = b.nodes.len();
    proof {
        let order_v = order@;
        assert(before_set.subrange(0, h) =~= before_set.subrange(0, h + 1).subrange(0, h));
        assert(b.nodes@.subrange(0, h) =~= before_set.subrange(0, h));
        assert(b.nodes@[h]@ == com_params_header(
            depth,
            refs@,
            seq![com_params_overview(refs@, order_v, index_map(refs@, order_v, h + 1, order_v.len() as int))],
        ));
        let m = index_map(refs@, order_v, h + 1, order_v.len() as int);
        assert forall|k: int| 0 <= k < order_v.len() implies {
            let d = #[trigger] ref_display(refs@[order_v[k] as int]);
            &&& m.contains_key(d)
            &&& h + 1 <= m[d] < b.nodes@.len()
            &&& b.nodes@[m[d] as int].text@ == d
        } by {
            lemma_index_map_labels(refs@, order_v, h + 1, order_v.len() as int, k);
            let d = ref_display(refs@[order_v[k] as int]);
            let j = m[d] - (h + 1);
            assert(b.nodes@[h + 1 + j] == before_set[h + 1 + j]);
            assert(before_set[h + 1 + j]@ == com_param_node(depth, refs@[order_v[j] as int]));
        }
        assert forall|j: int| 0 <= j < order_v.len() implies (#[trigger] b.nodes@[h + 1 + j])@ == com_param_node(
            depth,
            refs@[order_v[j] as int],
        ) by {
            assert(b.nodes@[h + 1 + j] == before_set[h + 1 + j]);
        }
    }
}

} // verus!
