//! The Functional Classes list of a layer: a header listing the classes,
//! then a node per class with the services and jobs that belong to it.
use vstd::prelude::*;
use crate::text::{decimal, lowercase, to_lower, usize_to_decimal};
use crate::diff::keyed_map::{has_key, strictly_sorted, KeyedMap};
use crate::text::seq_lt;
use crate::tree::builder::TreeBuilder;
use crate::tree::elements::service_lists::{lemma_nodes_view_push, sat_depth};
use crate::tree_sort::{items_of, reorders_stably, sort_ranked, stable_sort_by, RankKey, RankKeyV, Ranked};
use crate::tree::elements::service_details::text_header;
use crate::tree::elements::services::{id_or_dash, id_or_dash_exec, index_jump_cell, index_jump_cell_exec, ServiceInfo};
use crate::tree::elements::{plain_cell, plain_row};
use crate::tree::types::{
    cells_view, rows_view, sections_view, strings_view, CellJumpTarget, CellJumpTargetType, CellType, CellV,
    ColumnConstraint, ContentV, DetailCell, DetailContent, DetailRow, DetailRowType, DetailSectionData,
    DetailSectionType, JumpV, NodeType, NodeV, PayloadV, RowV, SectionV, ServiceListType, nodes_view,
};
use vstd::hash_map::StringHashMap;

verus! {

broadcast use vstd::std_specs::vec::group_vec_axioms;

/// A cell naming a node by name, whose position is looked up later.
pub open spec fn named_jump_cell(name: Seq<char>) -> CellV {
    CellV {
        text: name,
        cell_type: CellType::ParameterName,
        jump_target: Some(JumpV::TreeNodeByIndex { index: usize::MAX, short_name: name }),
    }
}

fn named_jump_cell_exec(name: &str) -> (r: DetailCell)
    ensures
        r@ == named_jump_cell(name@),
{
    DetailCell::new(name, CellType::ParameterName).with_jump(
        CellJumpTarget::new(CellJumpTargetType::TreeNodeByIndex { index: usize::MAX, short_name: name.to_owned() }),
    )
}

/// The row of a service of a class: its name, `Service`, its id (or `-`),
/// its semantic (or `-`), its addressing and its layer.
pub open spec fn fc_service_row(s: ServiceInfo, layer: Seq<char>) -> Option<RowV> {
    match s.diag_comm {
        None => None,
        Some(dc) => Some(
            plain_row(
                seq![
                    named_jump_cell(
                        match dc.short_name {
                            Some(n) => n@,
                            None => "?"@,
                        },
                    ),
                    plain_cell("Service"@, CellType::Text),
                    plain_cell(id_or_dash(s), CellType::Text),
                    plain_cell(
                        match dc.semantic {
                            Some(x) => x@,
                            None => "-"@,
                        },
                        CellType::Text,
                    ),
                    plain_cell(s.addressing@, CellType::Text),
                    named_jump_cell(layer),
                ],
                DetailRowType::Normal,
            ),
        ),
    }
}

/// The row of a service of a functional class (none for a service without
/// a primitive).
pub fn build_service_row(service: &ServiceInfo, layer_name: &str) -> (r: Option<DetailRow>)
    ensures
        match r {
            Some(row) => fc_service_row(*service, layer_name@) == Some(row@),
            None => fc_service_row(*service, layer_name@) is None,
        },
{
    let dc = match &service.diag_comm {
        Some(dc) => dc,
        None => {
            return None;
        },
    };
    let short_name = match &dc.short_name {
        Some(n) => n.clone(),
        None => "?".to_owned(),
    };
    let semantic = match &dc.semantic {
        Some(x) => x.clone(),
        None => "-".to_owned(),
    };
    let cells = vec![
        named_jump_cell_exec(short_name.as_str()),
        DetailCell::text("Service"),
        DetailCell::text(id_or_dash_exec(service).as_str()),
        DetailCell::text(semantic.as_str()),
        DetailCell::text(service.addressing.as_str()),
        named_jump_cell_exec(layer_name),
    ];
    let row = DetailRow::normal(cells, 0);
    proof {
        assert(cells_view(row.cells@) =~= fc_service_row(*service, layer_name@)->Some_0.cells);
    }
    Some(row)
}

/// The row of a job of a class: its name, `Job`, dashes and its layer.
pub open spec fn fc_job_row(job: Seq<char>, layer: Seq<char>) -> RowV {
    plain_row(
        seq![
            named_jump_cell(job),
            plain_cell("Job"@, CellType::Text),
            plain_cell("-"@, CellType::Text),
            plain_cell("-"@, CellType::Text),
            plain_cell("-"@, CellType::Text),
            named_jump_cell(layer),
        ],
        DetailRowType::Normal,
    )
}

pub fn build_job_row(job_name: &str, layer_name: &str) -> (r: DetailRow)
    ensures
        r@ == fc_job_row(job_name@, layer_name@),
{
    let cells = vec![
        named_jump_cell_exec(job_name),
        DetailCell::text("Job"),
        DetailCell::text("-"),
        DetailCell::text("-"),
        DetailCell::text("-"),
        named_jump_cell_exec(layer_name),
    ];
    let row = DetailRow::normal(cells, 0);
    proof {
        assert(cells_view(row.cells@) =~= fc_job_row(job_name@, layer_name@).cells);
    }
    row
}

/// The rows of the services with a primitive, in order.
pub open spec fn fc_service_rows(services: Seq<(ServiceInfo, Seq<char>)>) -> Seq<RowV>
    decreases services.len(),
{
    if services.len() == 0 {
        Seq::empty()
    } else {
        fc_service_rows(services.drop_last()) + match fc_service_row(services.last().0, services.last().1) {
            Some(r) => seq![r],
            None => Seq::empty(),
        }
    }
}

/// The rows of the jobs, in order.
pub open spec fn fc_job_rows(jobs: Seq<(Seq<char>, Seq<char>)>) -> Seq<RowV> {
    Seq::new(jobs.len(), |k: int| fc_job_row(jobs[k].0, jobs[k].1))
}

/// The services handed over, as values.
pub open spec fn svc_view(r: Seq<(&ServiceInfo, String)>) -> Seq<(ServiceInfo, Seq<char>)> {
    r.map_values(|p: (&ServiceInfo, String)| (*p.0, p.1@))
}

/// The jobs handed over, as values.
pub open spec fn job_view(r: Seq<(String, String)>) -> Seq<(Seq<char>, Seq<char>)> {
    r.map_values(|p: (String, String)| (p.0@, p.1@))
}

/// The row shown when a class has neither services nor jobs.
pub open spec fn fc_empty_row() -> RowV {
    plain_row(
        seq![
            plain_cell("No services or jobs in this functional class"@, CellType::Text),
            plain_cell("-"@, CellType::Text),
            plain_cell("-"@, CellType::Text),
            plain_cell("-"@, CellType::Text),
            plain_cell("-"@, CellType::Text),
            plain_cell("-"@, CellType::Text),
        ],
        DetailRowType::Normal,
    )
}

/// The tabs of a functional class: a header with its name, then a table of
/// its services and jobs titled with their number.
pub open spec fn fc_detail(name: Seq<char>, services: Seq<(ServiceInfo, Seq<char>)>, jobs: Seq<(Seq<char>, Seq<char>)>) -> Seq<
    SectionV,
> {
    let rows = fc_service_rows(services) + fc_job_rows(jobs);
    seq![
        SectionV {
            title: "Functional Class: "@ + name,
            content: ContentV::PlainText(Seq::empty()),
            render_as_header: true,
            section_type: DetailSectionType::Header,
            byte_pattern_rows: None,
        },
        SectionV {
            title: "Services and Jobs ("@ + decimal(rows.len()) + ")"@,
            content: ContentV::Table {
                header: text_header(seq!["Short Name"@, "Type"@, "SID_RQ"@, "Semantic"@, "Addressing"@, "Layer"@]),
                rows: if rows.len() == 0 {
                    seq![fc_empty_row()]
                } else {
                    rows
                },
                constraints: seq![
                    ColumnConstraint::Percentage(25),
                    ColumnConstraint::Percentage(10),
                    ColumnConstraint::Percentage(15),
                    ColumnConstraint::Percentage(20),
                    ColumnConstraint::Percentage(15),
                    ColumnConstraint::Percentage(15),
                ],
                use_row_selection: false,
            },
            render_as_header: false,
            section_type: DetailSectionType::Services,
            byte_pattern_rows: None,
        },
    ]
}

/// The detail of a functional class: its services (those with a primitive)
/// and its jobs, each with the layer it comes from.
pub fn build_functional_class_detail(
    fc_name: &str,
    services: &[(&ServiceInfo, String)],
    all_job_info: &[(String, String)],
) -> (r: Vec<DetailSectionData>)
    ensures
        sections_view(r@) == fc_detail(fc_name@, svc_view(services@), job_view(all_job_info@)),
{
    let mut title = "Functional Class: ".to_owned();
    title.append(fc_name);
    let first = DetailSectionData {
        title,
        render_as_header: true,
        content: DetailContent::PlainText(Vec::new()),
        section_type: DetailSectionType::Header,
        byte_pattern_rows: None,
    };
    proof {
        assert(strings_view(Seq::<String>::empty()) =~= Seq::empty());
    }
    let header = DetailRow::header(
        vec![
            DetailCell::text("Short Name"),
            DetailCell::text("Type"),
            DetailCell::text("SID_RQ"),
            DetailCell::text("Semantic"),
            DetailCell::text("Addressing"),
            DetailCell::text("Layer"),
        ],
    );
    proof {
        assert(cells_view(header.cells@) =~= text_header(
            seq!["Short Name"@, "Type"@, "SID_RQ"@, "Semantic"@, "Addressing"@, "Layer"@],
        ).cells);
    }
    let mut rows: Vec<DetailRow> = Vec::new();
    let mut i: usize = 0;
    while i < services.len()
        invariant
            i <= services@.len(),
            rows_view(rows@) == fc_service_rows(svc_view(services@.subrange(0, i as int))),
        decreases services@.len() - i,
    {
        proof {
            assert(svc_view(services@.subrange(0, i as int + 1)).drop_last() =~= svc_view(services@.subrange(0, i as int)));
        }
        let ghost before = rows@;
        match build_service_row(services[i].0, services[i].1.as_str()) {
            Some(row) => {
                rows.push(row);
                assert(rows_view(rows@) =~= rows_view(before).push(row@));
            },
            None => {},
        }
        i = i + 1;
        proof {
            assert(rows_view(rows@) =~= fc_service_rows(svc_view(services@.subrange(0, i as int))));
        }
    }
    assert(services@.subrange(0, services@.len() as int) =~= services@);
    let ghost srows = rows_view(rows@);
    let mut j: usize = 0;
    while j < all_job_info.len()
        invariant
            j <= all_job_info@.len(),
            rows_view(rows@) == srows + Seq::new(
                j as nat,
                |k: int| fc_job_row(all_job_info@[k].0@, all_job_info@[k].1@),
            ),
        decreases all_job_info@.len() - j,
    {
        let row = build_job_row(all_job_info[j].0.as_str(), all_job_info[j].1.as_str());
        let ghost before = rows@;
        rows.push(row);
        assert(rows_view(rows@) =~= rows_view(before).push(row@));
        j = j + 1;
        proof {
            assert(rows_view(rows@) =~= srows + Seq::new(
                j as nat,
                |k: int| fc_job_row(all_job_info@[k].0@, all_job_info@[k].1@),
            ));
        }
    }
    let ghost all = rows_view(rows@);
    assert(all =~= fc_service_rows(svc_view(services@)) + fc_job_rows(job_view(all_job_info@)));
    let total = rows.len();
    if total == 0 {
        let cells = vec![
            DetailCell::text("No services or jobs in this functional class"),
            DetailCell::text("-"),
            DetailCell::text("-"),
            DetailCell::text("-"),
            DetailCell::text("-"),
            DetailCell::text("-"),
        ];
        let row = DetailRow::normal(cells, 0);
        proof {
            assert(cells_view(row.cells@) =~= fc_empty_row().cells);
        }
        rows.push(row);
        assert(rows_view(rows@) =~= seq![fc_empty_row()]);
    }
    let mut t2 = "Services and Jobs (".to_owned();
    t2.append(usize_to_decimal(total).as_str());
    t2.append(")");
    let constraints = vec![
        ColumnConstraint::Percentage(25),
        ColumnConstraint::Percentage(10),
        ColumnConstraint::Percentage(15),
        ColumnConstraint::Percentage(20),
        ColumnConstraint::Percentage(15),
        ColumnConstraint::Percentage(15),
    ];
    let second = DetailSectionData {
        title: t2,
        render_as_header: false,
        section_type: DetailSectionType::Services,
        content: DetailContent::Table { header, rows, constraints, use_row_selection: false },
        byte_pattern_rows: None,
    };
    let ghost fv = first@;
    let ghost sv = second@;
    let r = vec![first, second];
    proof {
        assert(sections_view(r@) =~= seq![fv, sv]);
        assert(fv == fc_detail(fc_name@, svc_view(services@), job_view(all_job_info@))[0]);
        assert(sv.content == fc_detail(fc_name@, svc_view(services@), job_view(all_job_info@))[1].content);
        assert(sv == fc_detail(fc_name@, svc_view(services@), job_view(all_job_info@))[1]);
        assert(sections_view(r@) =~= fc_detail(fc_name@, svc_view(services@), job_view(all_job_info@)));
    }
    r
}

/// The table of the Functional Classes header: one row per class name,
/// leading to its node.
pub open spec fn fc_table(items: Seq<String>, m: Map<Seq<char>, usize>) -> SectionV {
    SectionV {
        title: "Functional Classes ("@ + decimal(items.len()) + ")"@,
        content: ContentV::Table {
            header: text_header(seq!["Short Name"@]),
            rows: Seq::new(items.len(), |k: int| plain_row(seq![index_jump_cell(items[k]@, m)], DetailRowType::Normal)),
            constraints: seq![ColumnConstraint::Percentage(100)],
            use_row_selection: true,
        },
        render_as_header: false,
        section_type: DetailSectionType::FunctionalClass,
        byte_pattern_rows: None,
    }
}

pub fn build_functional_classes_table_section(items: &[String], node_indices: &StringHashMap<usize>) -> (r:
    DetailSectionData)
    ensures
        r@ == fc_table(items@, node_indices@),
{
    let header = DetailRow::header(vec![DetailCell::text("Short Name")]);
    proof {
        assert(cells_view(header.cells@) =~= text_header(seq!["Short Name"@]).cells);
    }
    let mut rows: Vec<DetailRow> = Vec::new();
    let mut i: usize = 0;
    while i < items.len()
        invariant
            i <= items@.len(),
            rows@.len() == i,
            forall|k: int|
                0 <= k < i ==> (#[trigger] rows@[k])@ == plain_row(
                    seq![index_jump_cell(items@[k]@, node_indices@)],
                    DetailRowType::Normal,
                ),
        decreases items@.len() - i,
    {
        let cells = vec![index_jump_cell_exec(items[i].as_str(), node_indices)];
        proof {
            assert(cells_view(cells@) =~= seq![index_jump_cell(items@[i as int]@, node_indices@)]);
        }
        rows.push(DetailRow::normal(cells, 0));
        i = i + 1;
    }
    let constraints = vec![ColumnConstraint::Percentage(100)];
    assert(constraints@ =~= seq![ColumnConstraint::Percentage(100)]);
    let mut title = "Functional Classes (".to_owned();
    title.append(usize_to_decimal(items.len()).as_str());
    title.append(")");
    let r = DetailSectionData {
        title,
        render_as_header: false,
        section_type: DetailSectionType::FunctionalClass,
        content: DetailContent::Table { header, rows, constraints, use_row_selection: true },
        byte_pattern_rows: None,
    };
    proof {
        assert(rows_view(rows@) =~= fc_table(items@, node_indices@).content->Table_rows);
    }
    r
}

// Members of a class
/// A service of a layer with the names of the functional classes its
/// primitive belongs to.
#[derive(Clone, Debug)]
pub struct FcService {
    pub info: ServiceInfo,
    pub class_names: Vec<Option<String>>,
}

/// A single-ECU job of a layer: the short name of its primitive (none when
/// it has no primitive or no name) and its functional classes.
#[derive(Clone, Debug)]
pub struct FcJob {
    pub short_name: Option<String>,
    pub class_names: Vec<Option<String>>,
}

/// What a layer holds for the functional classes: its name, the classes it
/// defines, its services and its jobs.
#[derive(Clone, Debug)]
pub struct FcLayer {
    pub short_name: Option<String>,
    pub funct_classes: Vec<Option<String>>,
    pub services: Vec<FcService>,
    pub jobs: Vec<FcJob>,
}

/// The optional name is `name`.
pub open spec fn is_name(o: Option<String>, name: Seq<char>) -> bool {
    o matches Some(c) && c@ == name
}

/// One of the class names is `name`.
pub open spec fn in_class(classes: Seq<Option<String>>, name: Seq<char>) -> bool {
    exists|i: int| 0 <= i < classes.len() && is_name(#[trigger] classes[i], name)
}

fn in_class_exec(classes: &Vec<Option<String>>, name: &str) -> (r: bool)
    ensures
        r == in_class(classes@, name@),
{
    let mut i: usize = 0;
    while i < classes.len()
        invariant
            i <= classes@.len(),
            forall|k: int| 0 <= k < i ==> !is_name(#[trigger] classes@[k], name@),
        decreases classes@.len() - i,
    {
        match &classes[i] {
            Some(c) => {
                if crate::text::str_eq(c.as_str(), name) {
                    return true;
                }
            },
            None => {},
        }
        i = i + 1;
    }
    false
}

/// The name of a layer, `Unknown` when it has none.
pub open spec fn fc_layer_name(l: FcLayer) -> Seq<char> {
    match l.short_name {
        Some(n) => n@,
        None => "Unknown"@,
    }
}

fn fc_layer_name_exec(l: &FcLayer) -> (r: String)
    ensures
        r@ == fc_layer_name(*l),
{
    match &l.short_name {
        Some(n) => n.clone(),
        None => "Unknown".to_owned(),
    }
}

/// The services of a layer (with a primitive) in class `name`, in order.
pub open spec fn layer_services_in(svcs: Seq<FcService>, name: Seq<char>) -> Seq<ServiceInfo>
    decreases svcs.len(),
{
    if svcs.len() == 0 {
        Seq::empty()
    } else {
        let s = svcs.last();
        layer_services_in(svcs.drop_last(), name) + if s.info.diag_comm is Some && in_class(s.class_names@, name) {
            seq![s.info]
        } else {
            Seq::empty()
        }
    }
}

/// The names of the named jobs of a layer in class `name`, in order.
pub open spec fn layer_jobs_in(jobs: Seq<FcJob>, name: Seq<char>) -> Seq<Seq<char>>
    decreases jobs.len(),
{
    if jobs.len() == 0 {
        Seq::empty()
    } else {
        let j = jobs.last();
        layer_jobs_in(jobs.drop_last(), name) + match j.short_name {
            Some(n) => if in_class(j.class_names@, name) {
                seq![n@]
            } else {
                Seq::empty()
            },
            None => Seq::empty(),
        }
    }
}

/// The services and jobs of class `fc_name` in one layer, each with the
/// layer's name.
pub fn collect_services_and_jobs_from_layer<'a>(fc_name: &str, layer: &'a FcLayer) -> (r: (
    Vec<(&'a ServiceInfo, String)>,
    Vec<(String, String)>,
))
    ensures
        r.0@.len() == layer_services_in(layer.services@, fc_name@).len(),
        forall|k: int|
            0 <= k < r.0@.len() ==> *(#[trigger] r.0@[k]).0 == layer_services_in(layer.services@, fc_name@)[k]
                && r.0@[k].1@ == fc_layer_name(*layer),
        r.1@.len() == layer_jobs_in(layer.jobs@, fc_name@).len(),
        forall|k: int|
            0 <= k < r.1@.len() ==> (#[trigger] r.1@[k]).0@ == layer_jobs_in(layer.jobs@, fc_name@)[k]
                && r.1@[k].1@ == fc_layer_name(*layer),
{
    let layer_name = fc_layer_name_exec(layer);
    let mut services: Vec<(&'a ServiceInfo, String)> = Vec::new();
    let mut i: usize = 0;
    while i < layer.services.len()
        invariant
            i <= layer.services@.len(),
            layer_name@ == fc_layer_name(*layer),
            services@.len() == layer_services_in(layer.services@.subrange(0, i as int), fc_name@).len(),
            forall|k: int|
                0 <= k < services@.len() ==> *(#[trigger] services@[k]).0 == layer_services_in(
                    layer.services@.subrange(0, i as int),
                    fc_name@,
                )[k] && services@[k].1@ == layer_name@,
        decreases layer.services@.len() - i,
    {
        let s = &layer.services[i];
        proof {
            assert(layer.services@.subrange(0, i as int + 1).drop_last() =~= layer.services@.subrange(0, i as int));
        }
        if s.info.diag_comm.is_some() && in_class_exec(&s.class_names, fc_name) {
            services.push((&s.info, layer_name.clone()));
        }
        i = i + 1;
    }
    assert(layer.services@.subrange(0, layer.services@.len() as int) =~= layer.services@);
    let mut jobs: Vec<(String, String)> = Vec::new();
    let mut j: usize = 0;
    while j < layer.jobs.len()
        invariant
            j <= layer.jobs@.len(),
            layer_name@ == fc_layer_name(*layer),
            jobs@.len() == layer_jobs_in(layer.jobs@.subrange(0, j as int), fc_name@).len(),
            forall|k: int|
                0 <= k < jobs@.len() ==> (#[trigger] jobs@[k]).0@ == layer_jobs_in(
                    layer.jobs@.subrange(0, j as int),
                    fc_name@,
                )[k] && jobs@[k].1@ == layer_name@,
        decreases layer.jobs@.len() - j,
    {
        let job = &layer.jobs[j];
        proof {
            assert(layer.jobs@.subrange(0, j as int + 1).drop_last() =~= layer.jobs@.subrange(0, j as int));
        }
        match &job.short_name {
            Some(n) => {
                if in_class_exec(&job.class_names, fc_name) {
                    jobs.push((n.clone(), layer_name.clone()));
                }
            },
            None => {},
        }
        j = j + 1;
    }
    assert(layer.jobs@.subrange(0, layer.jobs@.len() as int) =~= layer.jobs@);
    (services, jobs)
}

/// The short name of a service's primitive, when it has both.
pub open spec fn fc_key(s: FcService) -> Option<Seq<char>> {
    match s.info.diag_comm {
        Some(dc) => match dc.short_name {
            Some(n) => Some(n@),
            None => None,
        },
        None => None,
    }
}

/// The services of the first `m` of a layer's services added to `acc`: each
/// named one in class `name` whose name was not seen yet, with the layer's
/// name.
pub open spec fn svc_step(
    svcs: Seq<FcService>,
    lname: Seq<char>,
    name: Seq<char>,
    m: int,
    acc: (Seq<(ServiceInfo, Seq<char>)>, Set<Seq<char>>),
) -> (Seq<(ServiceInfo, Seq<char>)>, Set<Seq<char>>)
    decreases m,
{
    if m <= 0 {
        acc
    } else {
        let a = svc_step(svcs, lname, name, m - 1, acc);
        let s = svcs[m - 1];
        match fc_key(s) {
            Some(k) => if in_class(s.class_names@, name) && !a.1.contains(k) {
                (a.0.push((s.info, lname)), a.1.insert(k))
            } else {
                a
            },
            None => a,
        }
    }
}

/// The jobs of the first `m` of a layer's jobs added to `acc` in the same way.
pub open spec fn job_step(
    jobs: Seq<FcJob>,
    lname: Seq<char>,
    name: Seq<char>,
    m: int,
    acc: (Seq<(Seq<char>, Seq<char>)>, Set<Seq<char>>),
) -> (Seq<(Seq<char>, Seq<char>)>, Set<Seq<char>>)
    decreases m,
{
    if m <= 0 {
        acc
    } else {
        let a = job_step(jobs, lname, name, m - 1, acc);
        let j = jobs[m - 1];
        match j.short_name {
            Some(k) => if in_class(j.class_names@, name) && !a.1.contains(k@) {
                (a.0.push((k@, lname)), a.1.insert(k@))
            } else {
                a
            },
            None => a,
        }
    }
}

/// The services of class `name` over the first `n` layers, each name once
/// (the first found), with the layer it was found in.
pub open spec fn variant_services(vs: Seq<Option<FcLayer>>, name: Seq<char>, n: int) -> (
    Seq<(ServiceInfo, Seq<char>)>,
    Set<Seq<char>>,
)
    decreases n,
{
    if n <= 0 {
        (Seq::empty(), Set::empty())
    } else {
        let a = variant_services(vs, name, n - 1);
        match vs[n - 1] {
            Some(l) => svc_step(l.services@, fc_layer_name(l), name, l.services@.len() as int, a),
            None => a,
        }
    }
}

/// The jobs of class `name` over the first `n` layers in the same way.
pub open spec fn variant_jobs(vs: Seq<Option<FcLayer>>, name: Seq<char>, n: int) -> (
    Seq<(Seq<char>, Seq<char>)>,
    Set<Seq<char>>,
)
    decreases n,
{
    if n <= 0 {
        (Seq::empty(), Set::empty())
    } else {
        let a = variant_jobs(vs, name, n - 1);
        match vs[n - 1] {
            Some(l) => job_step(l.jobs@, fc_layer_name(l), name, l.jobs@.len() as int, a),
            None => a,
        }
    }
}

/// The exec services match the spec list.
pub open spec fn svcs_match(r: Seq<(&ServiceInfo, String)>, l: Seq<(ServiceInfo, Seq<char>)>) -> bool {
    &&& r.len() == l.len()
    &&& forall|k: int| 0 <= k < r.len() ==> *(#[trigger] r[k]).0 == l[k].0 && r[k].1@ == l[k].1
}

pub open spec fn jobs_match(r: Seq<(String, String)>, l: Seq<(Seq<char>, Seq<char>)>) -> bool {
    &&& r.len() == l.len()
    &&& forall|k: int| 0 <= k < r.len() ==> (#[trigger] r[k]).0@ == l[k].0 && r[k].1@ == l[k].1
}

/// The services and jobs of class `fc_name` over all variants: each service
/// and each job name once, the first found in variant order.
pub fn collect_services_and_jobs_for_functional_class<'a>(fc_name: &str, all_variants: &'a [Option<FcLayer>]) -> (r: (
    Vec<(&'a ServiceInfo, String)>,
    Vec<(String, String)>,
))
    ensures
        svcs_match(r.0@, variant_services(all_variants@, fc_name@, all_variants@.len() as int).0),
        jobs_match(r.1@, variant_jobs(all_variants@, fc_name@, all_variants@.len() as int).0),
{
    let mut services: Vec<(&'a ServiceInfo, String)> = Vec::new();
    let mut jobs: Vec<(String, String)> = Vec::new();
    let mut seen_services: StringHashMap<bool> = StringHashMap::new();
    let mut seen_jobs: StringHashMap<bool> = StringHashMap::new();
    let mut i: usize = 0;
    while i < all_variants.len()
        invariant
            i <= all_variants@.len(),
            svcs_match(services@, variant_services(all_variants@, fc_name@, i as int).0),
            seen_services@.dom() == variant_services(all_variants@, fc_name@, i as int).1,
            jobs_match(jobs@, variant_jobs(all_variants@, fc_name@, i as int).0),
            seen_jobs@.dom() == variant_jobs(all_variants@, fc_name@, i as int).1,
        decreases all_variants@.len() - i,
    {
        match &all_variants[i] {
            Some(layer) => {
                let lname = fc_layer_name_exec(layer);
                let ghost acc = variant_services(all_variants@, fc_name@, i as int);
                let mut j: usize = 0;
                while j < layer.services.len()
                    invariant
                        j <= layer.services@.len(),
                        lname@ == fc_layer_name(*layer),
                        svcs_match(services@, svc_step(layer.services@, lname@, fc_name@, j as int, acc).0),
                        seen_services@.dom() == svc_step(layer.services@, lname@, fc_name@, j as int, acc).1,
                    decreases layer.services@.len() - j,
                {
                    let s = &layer.services[j];
                    let ghost before = services@;
                    match &s.info.diag_comm {
                        Some(dc) => match &dc.short_name {
                            Some(sn) => {
                                if in_class_exec(&s.class_names, fc_name) && !seen_services.contains_key(sn.as_str()) {
                                    seen_services.insert(sn.clone(), true);
                                    services.push((&s.info, lname.clone()));
                                    proof {
                                        assert(seen_services@.dom() =~= svc_step(
                                            layer.services@,
                                            lname@,
                                            fc_name@,
                                            j + 1,
                                            acc,
                                        ).1);
                                    }
                                }
                            },
                            None => {},
                        },
                        None => {},
                    }
                    j = j + 1;
                }
                let ghost jacc = variant_jobs(all_variants@, fc_name@, i as int);
                let mut k: usize = 0;
                while k < layer.jobs.len()
                    invariant
                        k <= layer.jobs@.len(),
                        lname@ == fc_layer_name(*layer),
                        jobs_match(jobs@, job_step(layer.jobs@, lname@, fc_name@, k as int, jacc).0),
                        seen_jobs@.dom() == job_step(layer.jobs@, lname@, fc_name@, k as int, jacc).1,
                    decreases layer.jobs@.len() - k,
                {
                    let job = &layer.jobs[k];
                    match &job.short_name {
                        Some(sn) => {
                            if in_class_exec(&job.class_names, fc_name) && !seen_jobs.contains_key(sn.as_str()) {
                                seen_jobs.insert(sn.clone(), true);
                                jobs.push((sn.clone(), lname.clone()));
                                proof {
                                    assert(seen_jobs@.dom() =~= job_step(layer.jobs@, lname@, fc_name@, k + 1, jacc).1);
                                }
                            }
                        },
                        None => {},
                    }
                    k = k + 1;
                }
            },
            None => {},
        }
        i = i + 1;
    }
    (services, jobs)
}

proof fn lemma_svcs_match_view(r: Seq<(&ServiceInfo, String)>, l: Seq<(ServiceInfo, Seq<char>)>)
    requires
        svcs_match(r, l),
    ensures
        svc_view(r) == l,
{
    assert(svc_view(r) =~= l);
}

proof fn lemma_jobs_match_view(r: Seq<(String, String)>, l: Seq<(Seq<char>, Seq<char>)>)
    requires
        jobs_match(r, l),
    ensures
        job_view(r) == l,
{
    assert(job_view(r) =~= l);
}

/// The services of class `name` in one layer, each with the layer's name.
pub open spec fn layer_members(layer: FcLayer, name: Seq<char>) -> Seq<(ServiceInfo, Seq<char>)> {
    layer_services_in(layer.services@, name).map_values(|s: ServiceInfo| (s, fc_layer_name(layer)))
}

/// The jobs of class `name` in one layer, each with the layer's name.
pub open spec fn layer_job_members(layer: FcLayer, name: Seq<char>) -> Seq<(Seq<char>, Seq<char>)> {
    layer_jobs_in(layer.jobs@, name).map_values(|j: Seq<char>| (j, fc_layer_name(layer)))
}

/// The services of a class: over all variants when there are any, else in
/// the layer itself.
pub open spec fn class_services(layer: FcLayer, vs: Seq<Option<FcLayer>>, name: Seq<char>) -> Seq<
    (ServiceInfo, Seq<char>),
> {
    if vs.len() == 0 {
        layer_members(layer, name)
    } else {
        variant_services(vs, name, vs.len() as int).0
    }
}

/// The jobs of a class in the same way.
pub open spec fn class_jobs(layer: FcLayer, vs: Seq<Option<FcLayer>>, name: Seq<char>) -> Seq<(Seq<char>, Seq<char>)> {
    if vs.len() == 0 {
        layer_job_members(layer, name)
    } else {
        variant_jobs(vs, name, vs.len() as int).0
    }
}

/// Services sort by the lower-cased name of their primitive (empty when
/// missing), jobs by their lower-cased name.
pub open spec fn svc_sort_key(p: (ServiceInfo, Seq<char>)) -> RankKeyV {
    RankKeyV::Text(
        lowercase(
            match p.0.diag_comm {
                Some(dc) => match dc.short_name {
                    Some(n) => n@,
                    None => Seq::empty(),
                },
                None => Seq::empty(),
            },
        ),
    )
}

pub open spec fn by_svc_name() -> spec_fn((ServiceInfo, Seq<char>)) -> RankKeyV {
    |p: (ServiceInfo, Seq<char>)| svc_sort_key(p)
}

pub open spec fn by_job_name() -> spec_fn((Seq<char>, Seq<char>)) -> RankKeyV {
    |p: (Seq<char>, Seq<char>)| RankKeyV::Text(lowercase(p.0))
}

proof fn lemma_sort_map<T, U>(
    out: Seq<T>,
    input: Seq<T>,
    f: spec_fn(T) -> U,
    key: spec_fn(U) -> RankKeyV,
    kf: spec_fn(T) -> RankKeyV,
)
    requires
        stable_sort_by(out, input, kf),
        kf == (|t: T| key(f(t))),
    ensures
        stable_sort_by(out.map_values(f), input.map_values(f), key),
{
    let perm = choose|perm: Seq<int>| #[trigger] reorders_stably(out, input, kf, perm);
    let ov = out.map_values(f);
    let iv = input.map_values(f);
    assert forall|i: int| 0 <= i < ov.len() implies #[trigger] ov[i] == iv[perm[i]] by {
        assert(out[i] == input[perm[i]]);
    }
    assert(reorders_stably(ov, iv, key, perm));
}

fn sort_fc_services<'a>(v: Vec<(&'a ServiceInfo, String)>) -> (r: Vec<(&'a ServiceInfo, String)>)
    ensures
        stable_sort_by(svc_view(r@), svc_view(v@), by_svc_name()),
{
    let ghost input = v@;
    let ghost f = |p: (&ServiceInfo, String)| (*p.0, p.1@);
    let ghost k = |p: (&ServiceInfo, String)| by_svc_name()(f(p));
    let mut rest = v;
    let mut ranked: Vec<Ranked<(&'a ServiceInfo, String)>> = Vec::new();
    let ghost mut n: int = 0;
    while rest.len() > 0
        invariant
            0 <= n <= input.len(),
            rest@ == input.subrange(n, input.len() as int),
            items_of(ranked@) == input.subrange(0, n),
            k == (|p: (&ServiceInfo, String)| by_svc_name()(f(p))),
            f == (|p: (&ServiceInfo, String)| (*p.0, p.1@)),
            forall|j: int| 0 <= j < ranked@.len() ==> (#[trigger] ranked@[j]).key@ == k(ranked@[j].item),
        decreases rest@.len(),
    {
        let ghost before = rest@;
        let p = rest.remove(0);
        assert(p == input[n]) by {
            assert(before[0] == input.subrange(n, input.len() as int)[0]);
        }
        let name = match &p.0.diag_comm {
            Some(dc) => match &dc.short_name {
                Some(x) => x.clone(),
                None => String::new(),
            },
            None => String::new(),
        };
        let key = to_lower(name.as_str());
        let ghost prev = ranked@;
        ranked.push(Ranked { key: RankKey::Text(key), item: p });
        proof {
            assert(ranked@.last().item == input[n]);
            assert(items_of(ranked@) =~= items_of(prev).push(input[n]));
            assert(input.subrange(0, n + 1) =~= input.subrange(0, n).push(input[n]));
            n = n + 1;
            assert(rest@ =~= input.subrange(n, input.len() as int));
        }
    }
    assert(input.subrange(0, n) =~= input);
    let r = sort_ranked(ranked, Ghost(k));
    proof {
        lemma_sort_map(r@, input, f, by_svc_name(), k);
        assert(r@.map_values(f) =~= svc_view(r@));
        assert(input.map_values(f) =~= svc_view(input));
    }
    r
}

fn sort_fc_jobs(v: Vec<(String, String)>) -> (r: Vec<(String, String)>)
    ensures
        stable_sort_by(job_view(r@), job_view(v@), by_job_name()),
{
    let ghost input = v@;
    let ghost f = |p: (String, String)| (p.0@, p.1@);
    let ghost k = |p: (String, String)| by_job_name()(f(p));
    let mut rest = v;
    let mut ranked: Vec<Ranked<(String, String)>> = Vec::new();
    let ghost mut n: int = 0;
    while rest.len() > 0
        invariant
            0 <= n <= input.len(),
            rest@ == input.subrange(n, input.len() as int),
            items_of(ranked@) == input.subrange(0, n),
            k == (|p: (String, String)| by_job_name()(f(p))),
            f == (|p: (String, String)| (p.0@, p.1@)),
            forall|j: int| 0 <= j < ranked@.len() ==> (#[trigger] ranked@[j]).key@ == k(ranked@[j].item),
        decreases rest@.len(),
    {
        let ghost before = rest@;
        let p = rest.remove(0);
        assert(p == input[n]) by {
            assert(before[0] == input.subrange(n, input.len() as int)[0]);
        }
        let key = to_lower(p.0.as_str());
        let ghost prev = ranked@;
        ranked.push(Ranked { key: RankKey::Text(key), item: p });
        proof {
            assert(ranked@.last().item == input[n]);
            assert(items_of(ranked@) =~= items_of(prev).push(input[n]));
            assert(input.subrange(0, n + 1) =~= input.subrange(0, n).push(input[n]));
            n = n + 1;
            assert(rest@ =~= input.subrange(n, input.len() as int));
        }
    }
    assert(input.subrange(0, n) =~= input);
    let r = sort_ranked(ranked, Ghost(k));
    proof {
        lemma_sort_map(r@, input, f, by_job_name(), k);
        assert(r@.map_values(f) =~= job_view(r@));
        assert(input.map_values(f) =~= job_view(input));
    }
    r
}

// The whole list
/// The layer defines a functional class named `x`.
pub open spec fn defines_class(layer: FcLayer, x: Seq<char>) -> bool {
    exists|i: int| 0 <= i < layer.funct_classes@.len() && is_name(#[trigger] layer.funct_classes@[i], x)
}

/// The names, each once, in increasing order, are those the layer defines.
pub open spec fn class_names_of(names: Seq<String>, layer: FcLayer) -> bool {
    &&& forall|i: int, j: int| 0 <= i < j < names.len() ==> seq_lt(#[trigger] names[i]@, #[trigger] names[j]@)
    &&& forall|x: Seq<char>| (exists|k: int| 0 <= k < names.len() && #[trigger] names[k]@ == x) <==> defines_class(layer, x)
}

/// The node of a class with its services and jobs, each sorted by
/// lower-cased name.
pub open spec fn fc_node_holds(
    n: NodeV,
    depth: usize,
    name: Seq<char>,
    svs: Seq<(ServiceInfo, Seq<char>)>,
    jbs: Seq<(Seq<char>, Seq<char>)>,
) -> bool {
    &&& n.depth == sat_depth(depth, 1)
    &&& n.text == name
    &&& !n.expanded && !n.has_children
    &&& n.node_type == NodeType::FunctionalClass
    &&& n.payload == PayloadV::FunctionalClass { short_name: name }
    &&& n.parent_idx is None && n.diff_status is None && n.old_text is None
    &&& exists|ss: Seq<(ServiceInfo, Seq<char>)>, js: Seq<(Seq<char>, Seq<char>)>|
        stable_sort_by(ss, svs, by_svc_name()) && stable_sort_by(js, jbs, by_job_name()) && n.detail_sections
            == fc_detail(name, ss, js)
}

/// The node positions by class name after the first `n` classes.
pub open spec fn fc_map(names: Seq<String>, base: int, n: int) -> Map<Seq<char>, usize>
    decreases n,
{
    if n <= 0 {
        Map::empty()
    } else {
        fc_map(names, base, n - 1).insert(names[n - 1]@, (base + n - 1) as usize)
    }
}

/// The header of the Functional Classes list.
pub open spec fn fc_header(depth: usize, names: Seq<String>, m: Map<Seq<char>, usize>) -> NodeV {
    NodeV {
        depth,
        text: "Functional Classes ("@ + decimal(names.len()) + ")"@,
        expanded: false,
        has_children: true,
        detail_sections: seq![fc_table(names, m)],
        node_type: NodeType::SectionHeader,
        payload: PayloadV::ServiceListHeader { service_list_type: ServiceListType::FunctionalClasses },
        parent_idx: None,
        diff_status: None,
        old_text: None,
    }
}

/// The nodes `v` are `before` with the list of the classes `names` added.
pub open spec fn fc_added(
    before: Seq<NodeV>,
    v: Seq<NodeV>,
    layer: FcLayer,
    vs: Seq<Option<FcLayer>>,
    names: Seq<String>,
    depth: usize,
) -> bool {
    let h = before.len() as int;
    &&& v.len() == h + 1 + names.len()
    &&& v.subrange(0, h) == before
    &&& v[h] == fc_header(depth, names, fc_map(names, h + 1, names.len() as int))
    &&& forall|k: int|
        0 <= k < names.len() ==> fc_node_holds(
            v[h + 1 + k],
            depth,
            (#[trigger] names[k])@,
            class_services(layer, vs, names[k]@),
            class_jobs(layer, vs, names[k]@),
        )
}

/// The distinct class names a layer defines, in increasing order.
fn collect_class_names(layer: &FcLayer) -> (r: Vec<String>)
    ensures
        class_names_of(r@, *layer),
{
    let mut km: KeyedMap<bool> = KeyedMap::new();
    let mut i: usize = 0;
    while i < layer.funct_classes.len()
        invariant
            i <= layer.funct_classes@.len(),
            strictly_sorted(km@),
            forall|x: Seq<char>|
                #[trigger] has_key(km@, x) <==> exists|k: int|
                    0 <= k < i && is_name(#[trigger] layer.funct_classes@[k], x),
        decreases layer.funct_classes@.len() - i,
    {
        match &layer.funct_classes[i] {
            Some(n) => {
                km.insert(n.clone(), true);
                proof {
                    assert forall|x: Seq<char>| #[trigger] has_key(km@, x) <==> exists|k: int|
                        0 <= k < i + 1 && is_name(#[trigger] layer.funct_classes@[k], x) by {
                        if x == n@ {
                            assert(is_name(layer.funct_classes@[i as int], x));
                        } else {
                            if exists|k: int| 0 <= k < i + 1 && is_name(#[trigger] layer.funct_classes@[k], x) {
                                let k = choose|k: int| 0 <= k < i + 1 && is_name(#[trigger] layer.funct_classes@[k], x);
                                assert(k < i);
                            }
                        }
                    }
                }
            },
            None => {
                proof {
                    assert forall|x: Seq<char>| #[trigger] has_key(km@, x) <==> exists|k: int|
                        0 <= k < i + 1 && is_name(#[trigger] layer.funct_classes@[k], x) by {
                        if exists|k: int| 0 <= k < i + 1 && is_name(#[trigger] layer.funct_classes@[k], x) {
                            let k = choose|k: int| 0 <= k < i + 1 && is_name(#[trigger] layer.funct_classes@[k], x);
                            assert(k < i);
                        }
                    }
                }
            },
        }
        i = i + 1;
    }
    let n = km.len();
    let mut r: Vec<String> = Vec::new();
    let mut j: usize = 0;
    while j < n
        invariant
            j <= n,
            n == km@.len(),
            r@.len() == j,
            forall|k: int| 0 <= k < j ==> (#[trigger] r@[k])@ == km@[k].0,
        decreases n - j,
    {
        r.push(km.key_at(j).clone());
        j = j + 1;
    }
    proof {
        assert forall|x: Seq<char>| (exists|k: int| 0 <= k < r@.len() && #[trigger] r@[k]@ == x) <==> defines_class(
            *layer,
            x,
        ) by {
            if exists|k: int| 0 <= k < r@.len() && #[trigger] r@[k]@ == x {
                let k = choose|k: int| 0 <= k < r@.len() && #[trigger] r@[k]@ == x;
                assert(km@[k].0 == x);
                assert(has_key(km@, x));
            }
            if defines_class(*layer, x) {
                let k = choose|k: int| 0 <= k < layer.funct_classes@.len() && is_name(
                    #[trigger] layer.funct_classes@[k],
                    x,
                );
                assert(has_key(km@, x));
                let p = choose|p: int| 0 <= p < km@.len() && km@[p].0 == x;
                assert(r@[p]@ == x);
            }
        }
    }
    r
}

/// Adds the node of one class with its sorted services and jobs.
fn push_class(
    b: &mut TreeBuilder,
    layer: &FcLayer,
    variants: &Vec<Option<FcLayer>>,
    name: &String,
    depth: usize,
)
    ensures
        nodes_view(final(b).nodes@) == nodes_view(old(b).nodes@).push(nodes_view(final(b).nodes@).last()),
        fc_node_holds(
            nodes_view(final(b).nodes@).last(),
            depth,
            name@,
            class_services(*layer, variants@, name@),
            class_jobs(*layer, variants@, name@),
        ),
{
    let (svcs, jobs) = if variants.len() == 0 {
        let r = collect_services_and_jobs_from_layer(name.as_str(), layer);
        proof {
            assert(svc_view(r.0@) =~= layer_members(*layer, name@));
            assert(job_view(r.1@) =~= layer_job_members(*layer, name@));
        }
        r
    } else {
        let r = collect_services_and_jobs_for_functional_class(name.as_str(), variants.as_slice());
        proof {
            lemma_svcs_match_view(r.0@, variant_services(variants@, name@, variants@.len() as int).0);
            lemma_jobs_match_view(r.1@, variant_jobs(variants@, name@, variants@.len() as int).0);
        }
        r
    };
    let ghost sv = svc_view(svcs@);
    let ghost jv = job_view(jobs@);
    assert(sv == class_services(*layer, variants@, name@));
    assert(jv == class_jobs(*layer, variants@, name@));
    let svcs = sort_fc_services(svcs);
    let jobs = sort_fc_jobs(jobs);
    let details = build_functional_class_detail(name.as_str(), svcs.as_slice(), jobs.as_slice());
    let ghost prev = b.nodes@;
    b.push_functional_class(depth.saturating_add(1), name.clone(), name.clone(), details);
    proof {
        lemma_nodes_view_push(prev, b.nodes@.last());
        assert(b.nodes@ == prev.push(b.nodes@.last()));
        let n = nodes_view(b.nodes@).last();
        assert(n == b.nodes@.last()@);
        assert(stable_sort_by(svc_view(svcs@), sv, by_svc_name()));
        assert(n.detail_sections == fc_detail(name@, svc_view(svcs@), job_view(jobs@)));
    }
}

/// Adds the Functional Classes list of a layer: a header titled with the
/// number of classes the layer defines, then a node per class in increasing
/// order of name with the services and jobs that belong to it (looked up
/// over all variants when there are any, else in the layer itself), each
/// sorted by lower-cased name; the header's table leads to the class nodes.
/// Nothing is added when the layer defines no class.
#[verifier::spinoff_prover]
#[verifier::rlimit(40)]
pub fn add_functional_classes(
    b: &mut TreeBuilder,
    layer: &FcLayer,
    depth: usize,
    all_variants: Option<Vec<Option<FcLayer>>>,
)
    ensures
        exists|names: Seq<String>|
            #[trigger] class_names_of(names, *layer) && (names.len() == 0 ==> nodes_view(final(b).nodes@)
                == nodes_view(old(b).nodes@)) && (names.len() > 0 ==> fc_added(
                nodes_view(old(b).nodes@),
                nodes_view(final(b).nodes@),
                *layer,
                match all_variants {
                    Some(v) => v@,
                    None => Seq::empty(),
                },
                names,
                depth,
            )),
{
    let ghost before = nodes_view(b.nodes@);
    let names = collect_class_names(layer);
    if names.len() == 0 {
        return;
    }
    let variants: Vec<Option<FcLayer>> = match all_variants {
        Some(v) => v,
        None => Vec::new(),
    };
    let ghost vs = variants@;
    let header_idx = b.next_index();
    let ghost h = header_idx as int;
    let mut title = "Functional Classes (".to_owned();
    title.append(usize_to_decimal(names.len()).as_str());
    title.append(")");
    let ghost nodes0 = b.nodes@;
    b.push_service_list_header(depth, title, false, true, Vec::new(), ServiceListType::FunctionalClasses);
    proof {
        lemma_nodes_view_push(nodes0, b.nodes@.last());
        assert(b.nodes@ == nodes0.push(b.nodes@.last()));
    }
    let ghost head = nodes_view(b.nodes@);
    proof {
        assert(head.subrange(0, h + 1) =~= head);
        assert(head.subrange(0, h) =~= before);
    }
    let mut node_indices: StringHashMap<usize> = StringHashMap::new();
    let mut i: usize = 0;
    while i < names.len()
        invariant
            i <= names@.len(),
            h == head.len() - 1,
            vs == variants@,
            nodes_view(b.nodes@).len() == h + 1 + i,
            nodes_view(b.nodes@).subrange(0, h + 1) == head,
            forall|k: int|
                0 <= k < i ==> fc_node_holds(
                    nodes_view(b.nodes@)[h + 1 + k],
                    depth,
                    (#[trigger] names@[k])@,
                    class_services(*layer, vs, names@[k]@),
                    class_jobs(*layer, vs, names@[k]@),
                ),
            node_indices@ == fc_map(names@, h + 1, i as int),
        decreases names@.len() - i,
    {
        let pos = b.next_index();
        node_indices.insert(names[i].clone(), pos);
        let ghost prev = nodes_view(b.nodes@);
        push_class(b, layer, &variants, &names[i], depth);
        proof {
            let v = nodes_view(b.nodes@);
            assert(v.subrange(0, h + 1) =~= prev.subrange(0, h + 1));
            assert forall|k: int|
                0 <= k < i + 1 implies fc_node_holds(
                v[h + 1 + k],
                depth,
                (#[trigger] names@[k])@,
                class_services(*layer, vs, names@[k]@),
                class_jobs(*layer, vs, names@[k]@),
            ) by {
                if k < i {
                    assert(v[h + 1 + k] == prev[h + 1 + k]);
                }
            }
        }
        i = i + 1;
    }
    let table = build_functional_classes_table_section(names.as_slice(), &node_indices);
    let ghost before_set = nodes_view(b.nodes@);
    b.set_detail_sections(header_idx, vec![table]);
    proof {
        let v = nodes_view(b.nodes@);
        let m = node_indices@;
        assert forall|x: int| 0 <= x < h implies #[trigger] v[x] == before[x] by {
            assert(v[x] == before_set[x]);
            assert(before_set[x] == before_set.subrange(0, h + 1)[x]);
            assert(head[x] == head.subrange(0, h)[x]);
        }
        assert(v.subrange(0, h) =~= before);
        assert(before_set.subrange(0, h + 1)[h] == head[h]);
        let hd = fc_header(depth, names@, m);
        assert(v[h].detail_sections =~= hd.detail_sections);
        assert(v[h].text == head[h].text);
        assert(v[h] == hd);
        assert forall|k: int|
            0 <= k < names@.len() implies fc_node_holds(
            v[h + 1 + k],
            depth,
            (#[trigger] names@[k])@,
            class_services(*layer, vs, names@[k]@),
            class_jobs(*layer, vs, names@[k]@),
        ) by {
            assert(v[h + 1 + k] == before_set[h + 1 + k]);
        }
        assert(fc_added(before, v, *layer, vs, names@, depth));
        assert(class_names_of(names@, *layer));
    }
}

} // verus!
