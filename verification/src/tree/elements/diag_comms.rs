//! The Diag-Comms list of a layer: its own and inherited services sorted by
//! name, then its single-ECU jobs, under a header whose table leads to them.
use vstd::prelude::*;
use crate::text::{lowercase, to_lower, usize_to_decimal};
use crate::tree::builder::TreeBuilder;
use crate::tree::elements::service_details::{
    build_diag_comm_details_with_parent, build_precondition_state_refs_from_diag_comm, diag_comm_details_hold,
    precondition_section, Service,
};
use crate::tree::elements::service_lists::{
    container_of, lemma_container_of_prefix, lemma_found_container, lemma_nodes_view_push, sat_depth, view_name_exec,
};
use crate::tree::elements::services::{
    build_overview_table, diag_comms_table, lemma_listed_push_own, ServiceInfo, diag_table_from_rows, firsts, format_service_display_name, overview_table,
    push_service_row, sat_sum, service_display_name, service_rows, view_name, DiagCommInfo,
};
use crate::tree::elements::{prop, prop_row, push_row};
use crate::tree::types::{
    nodes_view, rows_view, sections_view, strings_view, ColumnConstraint, ContentV, DetailCell, DetailContent,
    DetailRow, DetailSectionData, DetailSectionType, NodeType, NodeV, PayloadV, RowV, SectionV, ServiceListType,
    TreeNode, CellType,
};
use crate::tree_sort::{items_of, reorders_stably, sort_ranked, stable_sort_by, RankKey, RankKeyV, Ranked};
use vstd::hash_map::StringHashMap;

verus! {

broadcast use vstd::std_specs::vec::group_vec_axioms;

/// A single-ECU job of a layer.
#[derive(Clone, Debug)]
pub struct SingleEcuJob {
    pub diag_comm: Option<DiagCommInfo>,
}

// Sort keys
/// The short name a service is sorted by (empty when it has none).
pub open spec fn sort_name(s: Service) -> Seq<char> {
    match s.info.diag_comm {
        Some(dc) => match dc.short_name {
            Some(n) => n@,
            None => Seq::empty(),
        },
        None => Seq::empty(),
    }
}

pub open spec fn by_service_name() -> spec_fn(Service) -> RankKeyV {
    |s: Service| RankKeyV::Text(lowercase(sort_name(s)))
}

pub open spec fn by_parent_name() -> spec_fn((Service, String)) -> RankKeyV {
    |p: (Service, String)| RankKeyV::Text(lowercase(sort_name(p.0)))
}

/// The short name of a job (empty when it has none).
pub open spec fn job_sort_name(j: SingleEcuJob) -> Seq<char> {
    match j.diag_comm {
        Some(dc) => match dc.short_name {
            Some(n) => n@,
            None => Seq::empty(),
        },
        None => Seq::empty(),
    }
}

pub open spec fn by_job_name() -> spec_fn(SingleEcuJob) -> RankKeyV {
    |j: SingleEcuJob| RankKeyV::Text(lowercase(job_sort_name(j)))
}

pub open spec fn by_lower_text() -> spec_fn(String) -> RankKeyV {
    |s: String| RankKeyV::Text(lowercase(s@))
}

fn sort_name_exec(s: &Service) -> (r: String)
    ensures
        r@ == sort_name(*s),
{
    match &s.info.diag_comm {
        Some(dc) => match &dc.short_name {
            Some(n) => n.clone(),
            None => String::new(),
        },
        None => String::new(),
    }
}

fn sort_services(v: Vec<Service>) -> (r: Vec<Service>)
    ensures
        stable_sort_by(r@, v@, by_service_name()),
{
    let ghost input = v@;
    let mut rest = v;
    let mut ranked: Vec<Ranked<Service>> = Vec::new();
    let ghost mut n: int = 0;
    while rest.len() > 0
        invariant
            0 <= n <= input.len(),
            rest@ == input.subrange(n, input.len() as int),
            items_of(ranked@) == input.subrange(0, n),
            forall|k: int| 0 <= k < ranked@.len() ==> (#[trigger] ranked@[k]).key@ == by_service_name()(ranked@[k].item),
        decreases rest@.len(),
    {
        let ghost before = rest@;
        let s = rest.remove(0);
        assert(s == input[n]) by {
            assert(before[0] == input.subrange(n, input.len() as int)[0]);
        }
        let key = to_lower(sort_name_exec(&s).as_str());
        let ghost prev = ranked@;
        ranked.push(Ranked { key: RankKey::Text(key), item: s });
        proof {
            assert(ranked@.last().item == input[n]);
            assert(items_of(ranked@) =~= items_of(prev).push(input[n]));
            assert(input.subrange(0, n + 1) =~= input.subrange(0, n).push(input[n]));
            n = n + 1;
            assert(rest@ =~= input.subrange(n, input.len() as int));
        }
    }
    assert(input.subrange(0, n) =~= input);
    sort_ranked(ranked, Ghost(by_service_name()))
}

fn sort_parents(v: Vec<(Service, String)>) -> (r: Vec<(Service, String)>)
    ensures
        stable_sort_by(r@, v@, by_parent_name()),
{
    let ghost input = v@;
    let mut rest = v;
    let mut ranked: Vec<Ranked<(Service, String)>> = Vec::new();
    let ghost mut n: int = 0;
    while rest.len() > 0
        invariant
            0 <= n <= input.len(),
            rest@ == input.subrange(n, input.len() as int),
            items_of(ranked@) == input.subrange(0, n),
            forall|k: int| 0 <= k < ranked@.len() ==> (#[trigger] ranked@[k]).key@ == by_parent_name()(ranked@[k].item),
        decreases rest@.len(),
    {
        let ghost before = rest@;
        let p = rest.remove(0);
        assert(p == input[n]) by {
            assert(before[0] == input.subrange(n, input.len() as int)[0]);
        }
        let key = to_lower(sort_name_exec(&p.0).as_str());
        let ghost prev = ranked@;
        ranked.push(Ranked { key: RankKey::Text(key), item: p });
        proof {
            assert(ranked@.last().item == input[n]);
            assert(items_of(ranked@) =~= items_of(prev).push(input[n]));
            assert(input.subrange(0, n + 1) =~= input.subrange(0, n).push(input[n]));
            n = n + 1;
            assert(rest@ =~= input.subrange(n, input.len() as int));
        }
    }
    assert(input.subrange(0, n) =~= input);
    sort_ranked(ranked, Ghost(by_parent_name()))
}

fn sort_jobs(v: Vec<SingleEcuJob>) -> (r: Vec<SingleEcuJob>)
    ensures
        stable_sort_by(r@, v@, by_job_name()),
{
    let ghost input = v@;
    let mut rest = v;
    let mut ranked: Vec<Ranked<SingleEcuJob>> = Vec::new();
    let ghost mut n: int = 0;
    while rest.len() > 0
        invariant
            0 <= n <= input.len(),
            rest@ == input.subrange(n, input.len() as int),
            items_of(ranked@) == input.subrange(0, n),
            forall|k: int| 0 <= k < ranked@.len() ==> (#[trigger] ranked@[k]).key@ == by_job_name()(ranked@[k].item),
        decreases rest@.len(),
    {
        let ghost before = rest@;
        let j = rest.remove(0);
        assert(j == input[n]) by {
            assert(before[0] == input.subrange(n, input.len() as int)[0]);
        }
        let name = match &j.diag_comm {
            Some(dc) => match &dc.short_name {
                Some(n) => n.clone(),
                None => String::new(),
            },
            None => String::new(),
        };
        let key = to_lower(name.as_str());
        let ghost prev = ranked@;
        ranked.push(Ranked { key: RankKey::Text(key), item: j });
        proof {
            assert(ranked@.last().item == input[n]);
            assert(items_of(ranked@) =~= items_of(prev).push(input[n]));
            assert(input.subrange(0, n + 1) =~= input.subrange(0, n).push(input[n]));
            n = n + 1;
            assert(rest@ =~= input.subrange(n, input.len() as int));
        }
    }
    assert(input.subrange(0, n) =~= input);
    sort_ranked(ranked, Ghost(by_job_name()))
}

fn sort_names(v: Vec<String>) -> (r: Vec<String>)
    ensures
        stable_sort_by(r@, v@, by_lower_text()),
{
    let ghost input = v@;
    let mut rest = v;
    let mut ranked: Vec<Ranked<String>> = Vec::new();
    let ghost mut n: int = 0;
    while rest.len() > 0
        invariant
            0 <= n <= input.len(),
            rest@ == input.subrange(n, input.len() as int),
            items_of(ranked@) == input.subrange(0, n),
            forall|k: int| 0 <= k < ranked@.len() ==> (#[trigger] ranked@[k]).key@ == by_lower_text()(ranked@[k].item),
        decreases rest@.len(),
    {
        let ghost before = rest@;
        let s = rest.remove(0);
        assert(s == input[n]) by {
            assert(before[0] == input.subrange(n, input.len() as int)[0]);
        }
        let key = to_lower(s.as_str());
        let ghost prev = ranked@;
        ranked.push(Ranked { key: RankKey::Text(key), item: s });
        proof {
            assert(ranked@.last().item == input[n]);
            assert(items_of(ranked@) =~= items_of(prev).push(input[n]));
            assert(input.subrange(0, n + 1) =~= input.subrange(0, n).push(input[n]));
            n = n + 1;
            assert(rest@ =~= input.subrange(n, input.len() as int));
        }
    }
    assert(input.subrange(0, n) =~= input);
    sort_ranked(ranked, Ghost(by_lower_text()))
}

/// The name a job is listed under in the table (`Unnamed` when it has none).
pub open spec fn job_table_name(j: SingleEcuJob) -> Seq<char> {
    match j.diag_comm {
        Some(dc) => match dc.short_name {
            Some(n) => n@,
            None => "Unnamed"@,
        },
        None => "Unnamed"@,
    }
}

fn job_names_of(jobs: &Vec<SingleEcuJob>) -> (r: Vec<String>)
    ensures
        r@.len() == jobs@.len(),
        forall|k: int| 0 <= k < jobs@.len() ==> (#[trigger] r@[k])@ == job_table_name(jobs@[k]),
{
    let mut r: Vec<String> = Vec::new();
    let mut i: usize = 0;
    while i < jobs.len()
        invariant
            i <= jobs@.len(),
            r@.len() == i,
            forall|k: int| 0 <= k < i ==> (#[trigger] r@[k])@ == job_table_name(jobs@[k]),
        decreases jobs@.len() - i,
    {
        let name = match &jobs[i].diag_comm {
            Some(dc) => match &dc.short_name {
                Some(n) => n.clone(),
                None => "Unnamed".to_owned(),
            },
            None => "Unnamed".to_owned(),
        };
        r.push(name);
        i = i + 1;
    }
    r
}

// Nodes of the list
/// A job gets a node when it has a primitive with a short name.
pub open spec fn job_named(j: SingleEcuJob) -> bool {
    j.diag_comm matches Some(dc) && dc.short_name is Some
}

/// The tabs of a job: a header, its overview (name and semantic) and its
/// precondition states.
pub open spec fn job_sections(dc: DiagCommInfo, name: Seq<char>) -> Seq<SectionV> {
    seq![
        SectionV {
            title: "Job - "@ + name,
            content: ContentV::PlainText(Seq::empty()),
            render_as_header: true,
            section_type: DetailSectionType::Header,
            byte_pattern_rows: None,
        },
        overview_table(
            seq![prop("Job"@, name, CellType::Text)] + match dc.semantic {
                Some(x) => seq![prop("Semantic"@, x@, CellType::Text)],
                None => Seq::empty(),
            },
        ),
        precondition_section(Some(dc)),
    ]
}

/// The node of a named job.
#[verifier::opaque]
pub open spec fn job_node(depth: usize, j: SingleEcuJob) -> NodeV {
    let dc = j.diag_comm->Some_0;
    let name = dc.short_name->Some_0@;
    NodeV {
        depth: sat_depth(depth, 1),
        text: name,
        expanded: false,
        has_children: false,
        detail_sections: job_sections(dc, name),
        node_type: NodeType::Job,
        payload: PayloadV::DiagComm { service_short_name: name },
        parent_idx: None,
        diff_status: None,
        old_text: None,
    }
}

/// The node of a service in the Diag-Comms list, with its full detail.
#[verifier::opaque]
pub open spec fn dc_node_holds(n: NodeV, depth: usize, s: Service, layer: Option<Seq<char>>, container: Option<usize>) -> bool {
    &&& n.depth == sat_depth(depth, 1)
    &&& Some(n.text) == service_display_name(s.info)
    &&& !n.expanded && !n.has_children
    &&& n.node_type == (if layer is Some {
        NodeType::ParentRefService
    } else {
        NodeType::Service
    })
    &&& n.payload == PayloadV::DiagComm { service_short_name: view_name(s.info) }
    &&& n.parent_idx is None && n.diff_status is None && n.old_text is None
    &&& diag_comm_details_hold(n.detail_sections, s, layer, container)
}

/// How many of the first `n` services get a node.
pub open spec fn shown(l: Seq<(Service, Option<Seq<char>>, Option<usize>)>, n: int) -> int
    decreases n,
{
    if n <= 0 {
        0
    } else {
        shown(l, n - 1) + if service_display_name(l[n - 1].0.info) is Some {
            1int
        } else {
            0int
        }
    }
}

/// How many of the first `n` jobs get a node.
pub open spec fn named(js: Seq<SingleEcuJob>, n: int) -> int
    decreases n,
{
    if n <= 0 {
        0
    } else {
        named(js, n - 1) + if job_named(js[n - 1]) {
            1int
        } else {
            0int
        }
    }
}

/// The node positions by name after the first `n` services.
pub open spec fn service_map(l: Seq<(Service, Option<Seq<char>>, Option<usize>)>, base: int, n: int) -> Map<Seq<char>, usize>
    decreases n,
{
    if n <= 0 {
        Map::empty()
    } else if service_display_name(l[n - 1].0.info) is Some {
        service_map(l, base, n - 1).insert(view_name(l[n - 1].0.info), (base + shown(l, n - 1)) as usize)
    } else {
        service_map(l, base, n - 1)
    }
}

/// The node positions by name after the first `n` jobs, on top of `m`.
pub open spec fn job_map(m: Map<Seq<char>, usize>, js: Seq<SingleEcuJob>, base: int, n: int) -> Map<Seq<char>, usize>
    decreases n,
{
    if n <= 0 {
        m
    } else if job_named(js[n - 1]) {
        job_map(m, js, base, n - 1).insert(js[n - 1].diag_comm->Some_0.short_name->Some_0@, (base + named(js, n - 1)) as usize)
    } else {
        job_map(m, js, base, n - 1)
    }
}

/// The services of the list in order with their layers and containers.
pub open spec fn dc_entries(
    os: Seq<Service>,
    ps: Seq<(Service, String)>,
    before: Seq<NodeV>,
) -> Seq<(Service, Option<Seq<char>>, Option<usize>)> {
    os.map_values(|s: Service| (s, None::<Seq<char>>, None::<usize>)) + ps.map_values(
        |p: (Service, String)| (p.0, Some(p.1@), container_of(before, p.1@, before.len() as int)),
    )
}

/// The service descriptions of services.
pub open spec fn infos(os: Seq<Service>) -> Seq<ServiceInfo> {
    os.map_values(|s: Service| s.info)
}

/// The service descriptions of inherited services with their layers.
pub open spec fn info_pairs(ps: Seq<(Service, String)>) -> Seq<(ServiceInfo, String)> {
    ps.map_values(|p: (Service, String)| (p.0.info, p.1))
}

/// The header of the Diag-Comms list.
pub open spec fn dc_header(
    depth: usize,
    os: Seq<Service>,
    ps: Seq<(Service, String)>,
    names: Seq<String>,
    m: Map<Seq<char>, usize>,
) -> NodeV {
    let table = diag_comms_table(infos(os), info_pairs(ps), names, m);
    NodeV {
        depth,
        text: table.title,
        expanded: false,
        has_children: true,
        detail_sections: seq![table],
        node_type: NodeType::SectionHeader,
        payload: PayloadV::ServiceListHeader { service_list_type: ServiceListType::DiagComms },
        parent_idx: None,
        diff_status: None,
        old_text: None,
    }
}

proof fn lemma_shown_prefix(l1: Seq<(Service, Option<Seq<char>>, Option<usize>)>, l2: Seq<(Service, Option<Seq<char>>, Option<usize>)>, base: int, n: int)
    requires
        0 <= n <= l1.len(),
        n <= l2.len(),
        forall|i: int| 0 <= i < n ==> #[trigger] l1[i] == l2[i],
    ensures
        shown(l1, n) == shown(l2, n),
        service_map(l1, base, n) == service_map(l2, base, n),
    decreases n,
{
    if n > 0 {
        lemma_shown_prefix(l1, l2, base, n - 1);
        assert(l1[n - 1] == l2[n - 1]);
    }
}

proof fn lemma_named_prefix(j1: Seq<SingleEcuJob>, j2: Seq<SingleEcuJob>, m: Map<Seq<char>, usize>, base: int, n: int)
    requires
        0 <= n <= j1.len(),
        n <= j2.len(),
        forall|i: int| 0 <= i < n ==> #[trigger] j1[i] == j2[i],
    ensures
        named(j1, n) == named(j2, n),
        job_map(m, j1, base, n) == job_map(m, j2, base, n),
    decreases n,
{
    if n > 0 {
        lemma_named_prefix(j1, j2, m, base, n - 1);
        assert(j1[n - 1] == j2[n - 1]);
    }
}

proof fn lemma_shown_grows(l: Seq<(Service, Option<Seq<char>>, Option<usize>)>, k: int, n: int)
    requires
        0 <= k <= n <= l.len(),
    ensures
        0 <= shown(l, k) <= shown(l, n),
        k < n && service_display_name(l[k].0.info) is Some ==> shown(l, k) < shown(l, n),
    decreases n - k,
{
    if k < n {
        lemma_shown_grows(l, k, n - 1);
    } else {
        lemma_shown_nonneg(l, k);
    }
}

proof fn lemma_shown_nonneg(l: Seq<(Service, Option<Seq<char>>, Option<usize>)>, k: int)
    ensures
        0 <= shown(l, k),
    decreases k,
{
    if k > 0 {
        lemma_shown_nonneg(l, k - 1);
    }
}

proof fn lemma_named_grows(js: Seq<SingleEcuJob>, k: int, n: int)
    requires
        0 <= k <= n <= js.len(),
    ensures
        0 <= named(js, k) <= named(js, n),
        k < n && job_named(js[k]) ==> named(js, k) < named(js, n),
    decreases n - k,
{
    if k < n {
        lemma_named_grows(js, k, n - 1);
    } else {
        lemma_named_nonneg(js, k);
    }
}

proof fn lemma_named_nonneg(js: Seq<SingleEcuJob>, k: int)
    ensures
        0 <= named(js, k),
    decreases k,
{
    if k > 0 {
        lemma_named_nonneg(js, k - 1);
    }
}

/// What holds while the services of the list are added: the nodes before
/// the list and its header are kept, a node for each service with a label
/// follows, no container was added, and the map holds their positions.
pub open spec fn svc_inv(
    nodes: Seq<NodeV>,
    m: Map<Seq<char>, usize>,
    done: Seq<(Service, Option<Seq<char>>, Option<usize>)>,
    depth: usize,
    head: Seq<NodeV>,
) -> bool {
    let h = head.len() - 1;
    &&& head.len() >= 1
    &&& nodes.len() == h + 1 + shown(done, done.len() as int)
    &&& nodes.len() >= head.len()
    &&& nodes.subrange(0, head.len() as int) == head
    &&& forall|i: int| h <= i < nodes.len() ==> (#[trigger] nodes[i]).node_type != NodeType::Container
    &&& forall|j: int|
        0 <= j < done.len() && service_display_name((#[trigger] done[j]).0.info) is Some ==> dc_node_holds(
            nodes[h + 1 + shown(done, j)],
            depth,
            done[j].0,
            done[j].1,
            done[j].2,
        )
    &&& m == service_map(done, h + 1, done.len() as int)
}

proof fn lemma_svc_inv_step(
    before: Seq<NodeV>,
    v: Seq<NodeV>,
    m_before: Map<Seq<char>, usize>,
    m_after: Map<Seq<char>, usize>,
    done: Seq<(Service, Option<Seq<char>>, Option<usize>)>,
    entry: (Service, Option<Seq<char>>, Option<usize>),
    depth: usize,
    head: Seq<NodeV>,
)
    requires
        svc_inv(before, m_before, done, depth, head),
        service_display_name(entry.0.info) is None ==> v == before && m_after == m_before,
        service_display_name(entry.0.info) is Some ==> {
            &&& v == before.push(v.last())
            &&& v.len() == before.len() + 1
            &&& dc_node_holds(v.last(), depth, entry.0, entry.1, entry.2)
            &&& v.last().node_type != NodeType::Container
            &&& m_after == m_before.insert(view_name(entry.0.info), before.len() as usize)
        },
    ensures
        svc_inv(v, m_after, done.push(entry), depth, head),
{
    let h = head.len() - 1;
    let done2 = done.push(entry);
    let n = done.len() as int;
    assert forall|i: int| 0 <= i < n implies #[trigger] done[i] == done2[i] by {}
    lemma_shown_prefix(done, done2, h + 1, n);
    lemma_shown_nonneg(done, n);
    assert(done2[n] == entry);
    if service_display_name(entry.0.info) is Some {
        assert(v.subrange(0, head.len() as int) =~= before.subrange(0, head.len() as int));
        assert forall|i: int| h <= i < v.len() implies (#[trigger] v[i]).node_type != NodeType::Container by {
            if i < before.len() {
                assert(v[i] == before[i]);
            } else {
                assert(v[i] == v.last());
            }
        }
    }
    assert forall|j: int|
        0 <= j < done2.len() && service_display_name((#[trigger] done2[j]).0.info) is Some implies dc_node_holds(
        v[h + 1 + shown(done2, j)],
        depth,
        done2[j].0,
        done2[j].1,
        done2[j].2,
    ) by {
        if j < n {
            lemma_shown_prefix(done, done2, h + 1, j);
            lemma_shown_grows(done, j, n);
            assert(done2[j] == done[j]);
            assert(v[h + 1 + shown(done2, j)] == before[h + 1 + shown(done, j)]);
        }
    }
}

/// Adds the node of one service of the list, when it has a label.
#[verifier::spinoff_prover]
fn push_dc_service(
    b: &mut TreeBuilder,
    s: &Service,
    layer: Option<&str>,
    depth: usize,
    node_indices: &mut StringHashMap<usize>,
    Ghost(done): Ghost<Seq<(Service, Option<Seq<char>>, Option<usize>)>>,
    Ghost(head): Ghost<Seq<NodeV>>,
)
    requires
        svc_inv(nodes_view(old(b).nodes@), old(node_indices)@, done, depth, head),
        head[head.len() - 1].node_type != NodeType::Container,
    ensures
        svc_inv(
            nodes_view(final(b).nodes@),
            final(node_indices)@,
            done.push(
                (
                    *s,
                    match layer {
                        Some(l) => Some(l@),
                        None => None,
                    },
                    match layer {
                        Some(l) => container_of(head.subrange(0, head.len() - 1), l@, head.len() - 1),
                        None => None,
                    },
                ),
            ),
            depth,
            head,
        ),
{
    let ghost h = head.len() - 1;
    let ghost before = nodes_view(b.nodes@);
    let ghost m_before = node_indices@;
    let ghost layer_v = match layer {
        Some(l) => Some(l@),
        None => None::<Seq<char>>,
    };
    let container = match layer {
        Some(l) => {
            let r = b.find_container_index(l);
            proof {
                let cur = nodes_view(b.nodes@);
                lemma_found_container(cur, l@, r, cur.len() as int);
                assert forall|i: int| 0 <= i < cur.len() implies #[trigger] cur[i].node_type == b.nodes@[i].node_type
                    && cur[i].payload.short_name() == b.nodes@[i].payload@.short_name() by {}
                let old_nodes = head.subrange(0, h);
                assert(cur.subrange(0, old_nodes.len() as int) =~= old_nodes);
                assert forall|i: int| old_nodes.len() <= i < cur.len() implies (#[trigger] cur[i]).node_type
                    != NodeType::Container by {
                    if i == h {
                        assert(cur[i] == head[h]);
                    }
                }
                lemma_container_of_prefix(old_nodes, cur, l@, old_nodes.len() as int);
            }
            r
        },
        None => None,
    };
    let ghost entry = (*s, layer_v, container);
    match format_service_display_name(&s.info) {
        None => {
            proof {
                lemma_svc_inv_step(before, before, m_before, m_before, done, entry, depth, head);
            }
        },
        Some(display) => {
            let name = view_name_exec(&s.info);
            let pos = b.next_index();
            node_indices.insert(name.clone(), pos);
            let sections = build_diag_comm_details_with_parent(s, layer, container);
            let node_type = match layer {
                Some(_) => NodeType::ParentRefService,
                None => NodeType::Service,
            };
            let ghost nodes0 = b.nodes@;
            b.push_service_node(depth.saturating_add(1), display, false, sections, node_type, name);
            proof {
                lemma_nodes_view_push(nodes0, b.nodes@.last());
                assert(b.nodes@ == nodes0.push(b.nodes@.last()));
                let v = nodes_view(b.nodes@);
                assert(v.last() == b.nodes@.last()@);
                reveal(dc_node_holds);
                lemma_svc_inv_step(before, v, m_before, node_indices@, done, entry, depth, head);
            }
        },
    }
}

/// What holds while the jobs of the list are added: the nodes before them
/// are kept, a node for each named job follows, and the map holds their
/// positions on top of `m0`.
pub open spec fn job_inv(
    nodes: Seq<NodeV>,
    m: Map<Seq<char>, usize>,
    done: Seq<SingleEcuJob>,
    depth: usize,
    prefix: Seq<NodeV>,
    m0: Map<Seq<char>, usize>,
) -> bool {
    let base = prefix.len() as int;
    &&& nodes.len() == base + named(done, done.len() as int)
    &&& nodes.len() >= base
    &&& nodes.subrange(0, base) == prefix
    &&& forall|k: int|
        0 <= k < done.len() && job_named(#[trigger] done[k]) ==> nodes[base + named(done, k)] == job_node(depth, done[k])
    &&& m == job_map(m0, done, base, done.len() as int)
}

proof fn lemma_job_inv_step(
    before: Seq<NodeV>,
    v: Seq<NodeV>,
    m_before: Map<Seq<char>, usize>,
    m_after: Map<Seq<char>, usize>,
    done: Seq<SingleEcuJob>,
    j: SingleEcuJob,
    depth: usize,
    prefix: Seq<NodeV>,
    m0: Map<Seq<char>, usize>,
)
    requires
        job_inv(before, m_before, done, depth, prefix, m0),
        !job_named(j) ==> v == before && m_after == m_before,
        job_named(j) ==> {
            &&& v == before.push(job_node(depth, j))
            &&& m_after == m_before.insert(j.diag_comm->Some_0.short_name->Some_0@, before.len() as usize)
        },
    ensures
        job_inv(v, m_after, done.push(j), depth, prefix, m0),
{
    let base = prefix.len() as int;
    let done2 = done.push(j);
    let n = done.len() as int;
    assert forall|i: int| 0 <= i < n implies #[trigger] done[i] == done2[i] by {}
    lemma_named_prefix(done, done2, m0, base, n);
    lemma_named_nonneg(done, n);
    assert(done2[n] == j);
    if job_named(j) {
        assert(v.subrange(0, base) =~= before.subrange(0, base));
    }
    assert forall|k: int| 0 <= k < done2.len() && job_named(#[trigger] done2[k]) implies v[base + named(done2, k)]
        == job_node(depth, done2[k]) by {
        if k < n {
            lemma_named_prefix(done, done2, m0, base, k);
            lemma_named_grows(done, k, n);
            assert(done2[k] == done[k]);
            assert(v[base + named(done2, k)] == before[base + named(done, k)]);
        }
    }
}

/// Adds the node of a job, when its primitive has a short name: a header,
/// its overview and its precondition states.
#[verifier::spinoff_prover]
#[verifier::rlimit(40)]
fn push_job(
    b: &mut TreeBuilder,
    j: &SingleEcuJob,
    depth: usize,
    node_indices: &mut StringHashMap<usize>,
    Ghost(done): Ghost<Seq<SingleEcuJob>>,
    Ghost(prefix): Ghost<Seq<NodeV>>,
    Ghost(m0): Ghost<Map<Seq<char>, usize>>,
)
    requires
        job_inv(nodes_view(old(b).nodes@), old(node_indices)@, done, depth, prefix, m0),
    ensures
        job_inv(nodes_view(final(b).nodes@), final(node_indices)@, done.push(*j), depth, prefix, m0),
{
    let ghost before = nodes_view(b.nodes@);
    let ghost m_before = node_indices@;
    let dc = match &j.diag_comm {
        Some(dc) => dc,
        None => {
            proof {
                lemma_job_inv_step(before, before, m_before, m_before, done, *j, depth, prefix, m0);
            }
            return;
        },
    };
    let name = match &dc.short_name {
        Some(n) => n,
        None => {
            proof {
                lemma_job_inv_step(before, before, m_before, m_before, done, *j, depth, prefix, m0);
            }
            return;
        },
    };
    let mut title = "Job - ".to_owned();
    title.append(name.as_str());
    let header = DetailSectionData {
        title,
        render_as_header: true,
        content: DetailContent::PlainText(Vec::new()),
        section_type: DetailSectionType::Header,
        byte_pattern_rows: None,
    };
    let mut rows: Vec<DetailRow> = Vec::new();
    push_row(&mut rows, prop_row("Job", name.as_str(), CellType::Text));
    match &dc.semantic {
        Some(x) => push_row(&mut rows, prop_row("Semantic", x.as_str(), CellType::Text)),
        None => {},
    }
    proof {
        reveal_strlit("Job - ");
        assert(strings_view(Seq::<String>::empty()) =~= Seq::empty());
        assert(header@ == job_sections(*dc, name@)[0]);
        assert(rows_view(rows@) =~= seq![prop("Job"@, name@, CellType::Text)] + match dc.semantic {
            Some(x) => seq![prop("Semantic"@, x@, CellType::Text)],
            None => Seq::empty(),
        });
    }
    let overview = build_overview_table(rows);
    let pre = build_precondition_state_refs_from_diag_comm(&j.diag_comm);
    let ghost hv = header@;
    let ghost ov = overview@;
    let ghost pv = pre@;
    let sections = vec![header, overview, pre];
    proof {
        assert(ov == job_sections(*dc, name@)[1]);
        assert(pv == job_sections(*dc, name@)[2]);
        assert(sections_view(sections@) =~= seq![hv, ov, pv]);
        assert(sections_view(sections@) =~= job_sections(*dc, name@));
    }
    let pos = b.next_index();
    node_indices.insert(name.clone(), pos);
    let ghost nodes0 = b.nodes@;
    b.push_service_node(depth.saturating_add(1), name.clone(), false, sections, NodeType::Job, name.clone());
    proof {
        lemma_nodes_view_push(nodes0, b.nodes@.last());
        assert(b.nodes@ == nodes0.push(b.nodes@.last()));
        assert(b.nodes@.last()@ == job_node(depth, *j)) by {
            reveal(job_node);
        }
        lemma_job_inv_step(before, nodes_view(b.nodes@), m_before, node_indices@, done, *j, depth, prefix, m0);
    }
}

/// Adds the nodes of the listed services: own ones, then inherited ones.
fn add_dc_services(
    b: &mut TreeBuilder,
    os: &Vec<Service>,
    ps: &Vec<(Service, String)>,
    depth: usize,
    node_indices: &mut StringHashMap<usize>,
    Ghost(head): Ghost<Seq<NodeV>>,
)
    requires
        svc_inv(nodes_view(old(b).nodes@), old(node_indices)@, Seq::empty(), depth, head),
        head[head.len() - 1].node_type != NodeType::Container,
    ensures
        svc_inv(
            nodes_view(final(b).nodes@),
            final(node_indices)@,
            dc_entries(os@, ps@, head.subrange(0, head.len() - 1)),
            depth,
            head,
        ),
{
    let ghost h = head.len() - 1;
    let ghost before = head.subrange(0, h);
    let ghost l = dc_entries(os@, ps@, before);
    let ghost n_o = os@.len() as int;
    proof {
        assert(l.subrange(0, 0) =~= Seq::<(Service, Option<Seq<char>>, Option<usize>)>::empty());
    }
    let mut i: usize = 0;
    while i < os.len()
        invariant
            i <= os@.len(),
            h == head.len() - 1,
            before == head.subrange(0, h),
            l == dc_entries(os@, ps@, before),
            n_o == os@.len(),
            head[h].node_type != NodeType::Container,
            svc_inv(nodes_view(b.nodes@), node_indices@, l.subrange(0, i as int), depth, head),
        decreases os@.len() - i,
    {
        let ghost done = l.subrange(0, i as int);
        push_dc_service(b, &os[i], None, depth, node_indices, Ghost(done), Ghost(head));
        proof {
            assert(l[i as int] == (os@[i as int], None::<Seq<char>>, None::<usize>));
            assert(l.subrange(0, i as int + 1) =~= done.push(l[i as int]));
        }
        i = i + 1;
    }
    let mut k: usize = 0;
    while k < ps.len()
        invariant
            k <= ps@.len(),
            h == head.len() - 1,
            before == head.subrange(0, h),
            l == dc_entries(os@, ps@, before),
            n_o == os@.len(),
            l.len() == n_o + ps@.len(),
            head[h].node_type != NodeType::Container,
            svc_inv(nodes_view(b.nodes@), node_indices@, l.subrange(0, n_o + k), depth, head),
        decreases ps@.len() - k,
    {
        let ghost done = l.subrange(0, n_o + k);
        push_dc_service(b, &ps[k].0, Some(ps[k].1.as_str()), depth, node_indices, Ghost(done), Ghost(head));
        proof {
            let p = ps@[k as int];
            assert(l[n_o + k] == (p.0, Some(p.1@), container_of(before, p.1@, before.len() as int)));
            assert(l.subrange(0, n_o + k + 1) =~= done.push(l[n_o + k]));
        }
        k = k + 1;
    }
    assert(l.subrange(0, n_o + ps@.len()) =~= l);
}

/// Adds the nodes of the named jobs in order.
#[verifier::spinoff_prover]
#[verifier::rlimit(50)]
fn add_jobs(
    b: &mut TreeBuilder,
    js: &Vec<SingleEcuJob>,
    depth: usize,
    node_indices: &mut StringHashMap<usize>,
    Ghost(prefix): Ghost<Seq<NodeV>>,
    Ghost(m0): Ghost<Map<Seq<char>, usize>>,
)
    requires
        job_inv(nodes_view(old(b).nodes@), old(node_indices)@, Seq::empty(), depth, prefix, m0),
    ensures
        job_inv(nodes_view(final(b).nodes@), final(node_indices)@, js@, depth, prefix, m0),
{
    let mut i: usize = 0;
    while i < js.len()
        invariant
            i <= js@.len(),
            job_inv(nodes_view(b.nodes@), node_indices@, js@.subrange(0, i as int), depth, prefix, m0),
        decreases js@.len() - i,
    {
        let ghost done = js@.subrange(0, i as int);
        push_job(b, &js[i], depth, node_indices, Ghost(done), Ghost(prefix), Ghost(m0));
        proof {
            assert(js@.subrange(0, i as int + 1) =~= done.push(js@[i as int]));
        }
        i = i + 1;
    }
    assert(js@.subrange(0, js@.len() as int) =~= js@);
}

/// The table of the Diag-Comms header.
fn dc_table(
    os: &Vec<Service>,
    ps: &Vec<(Service, String)>,
    names: &Vec<String>,
    node_indices: &StringHashMap<usize>,
) -> (r: DetailSectionData)
    ensures
        r@ == diag_comms_table(infos(os@), info_pairs(ps@), names@, node_indices@),
{
    let ghost oi = infos(os@);
    let ghost pi = info_pairs(ps@);
    let mut rows: Vec<DetailRow> = Vec::new();
    let mut i: usize = 0;
    assert(rows_view(rows@) =~= service_rows(oi.subrange(0, 0), false, node_indices@, true));
    while i < os.len()
        invariant
            i <= os@.len(),
            oi == infos(os@),
            rows_view(rows@) == service_rows(oi.subrange(0, i as int), false, node_indices@, true),
        decreases os@.len() - i,
    {
        let s = &os[i].info;
        proof {
            assert(oi.subrange(0, i as int + 1) =~= oi.subrange(0, i as int).push(*s));
            lemma_listed_push_own(oi.subrange(0, i as int), *s);
        }
        push_service_row(&mut rows, s, false, node_indices, true);
        proof {
            assert(rows_view(rows@) =~= service_rows(oi.subrange(0, i as int + 1), false, node_indices@, true));
        }
        i = i + 1;
    }
    assert(oi.subrange(0, os@.len() as int) =~= oi);
    let ghost own_rows = rows_view(rows@);
    let ghost fp = firsts(pi);
    assert(rows_view(rows@) =~= own_rows + service_rows(fp.subrange(0, 0), true, node_indices@, true));
    let mut k: usize = 0;
    while k < ps.len()
        invariant
            k <= ps@.len(),
            pi == info_pairs(ps@),
            fp == firsts(pi),
            own_rows == service_rows(oi, false, node_indices@, true),
            rows_view(rows@) == own_rows + service_rows(fp.subrange(0, k as int), true, node_indices@, true),
        decreases ps@.len() - k,
    {
        let s = &ps[k].0.info;
        proof {
            assert(fp[k as int] == *s);
            assert(fp.subrange(0, k as int + 1) =~= fp.subrange(0, k as int).push(*s));
            lemma_listed_push_own(fp.subrange(0, k as int), *s);
        }
        push_service_row(&mut rows, s, true, node_indices, true);
        proof {
            assert(rows_view(rows@) =~= own_rows + service_rows(fp.subrange(0, k as int + 1), true, node_indices@, true));
        }
        k = k + 1;
    }
    assert(fp.subrange(0, ps@.len() as int) =~= fp);
    let count = os.len().saturating_add(ps.len());
    diag_table_from_rows(rows, names, count, node_indices, Ghost(oi), Ghost(pi))
}

/// The order of the list: services and inherited services sorted by their
/// lower-cased names, jobs likewise, and the job names of the table (a job
/// without a name as `Unnamed`) sorted by their lower-cased text.
pub open spec fn dc_sorted(
    own: Seq<Service>,
    parents: Seq<(Service, String)>,
    jobs: Seq<SingleEcuJob>,
    os: Seq<Service>,
    ps: Seq<(Service, String)>,
    raw_names: Seq<String>,
    names: Seq<String>,
    js: Seq<SingleEcuJob>,
) -> bool {
    &&& stable_sort_by(os, own, by_service_name())
    &&& stable_sort_by(ps, parents, by_parent_name())
    &&& raw_names.len() == jobs.len()
    &&& forall|k: int| 0 <= k < jobs.len() ==> (#[trigger] raw_names[k])@ == job_table_name(jobs[k])
    &&& stable_sort_by(names, raw_names, by_lower_text())
    &&& stable_sort_by(js, jobs, by_job_name())
}

/// The nodes `v` are `before` with the Diag-Comms list added for the
/// services `os` and `ps`, the table's job names `names` and the jobs `js`:
/// the header, then a node for each service with a label, then a node for
/// each named job; the header's table leads to the nodes by name.
pub open spec fn dc_added(
    before: Seq<NodeV>,
    v: Seq<NodeV>,
    os: Seq<Service>,
    ps: Seq<(Service, String)>,
    names: Seq<String>,
    js: Seq<SingleEcuJob>,
    depth: usize,
) -> bool {
    let h = before.len() as int;
    let l = dc_entries(os, ps, before);
    let n_s = shown(l, l.len() as int);
    let m = job_map(service_map(l, h + 1, l.len() as int), js, h + 1 + n_s, js.len() as int);
    &&& v.len() == h + 1 + n_s + named(js, js.len() as int)
    &&& v.subrange(0, h) == before
    &&& v[h] == dc_header(depth, os, ps, names, m)
    &&& forall|i: int|
        0 <= i < l.len() && service_display_name((#[trigger] l[i]).0.info) is Some ==> dc_node_holds(
            v[h + 1 + shown(l, i)],
            depth,
            l[i].0,
            l[i].1,
            l[i].2,
        )
    &&& forall|k: int|
        0 <= k < js.len() && job_named(#[trigger] js[k]) ==> v[h + 1 + n_s + named(js, k)] == job_node(depth, js[k])
}

proof fn lemma_sort_len<T>(out: Seq<T>, input: Seq<T>, key: spec_fn(T) -> RankKeyV)
    requires
        stable_sort_by(out, input, key),
    ensures
        out.len() == input.len(),
{
    let perm = choose|perm: Seq<int>| reorders_stably(out, input, key, perm);
}

/// Adds the Diag-Comms list of a layer: a header titled with the number of
/// services and jobs, then the layer's own services and the inherited ones
/// (each with the layer it comes from), each list sorted by lower-cased
/// name, then its single-ECU jobs sorted likewise; the header's table
/// leads to their nodes. Nothing is added when there is neither a service
/// nor a job.
#[verifier::spinoff_prover]
#[verifier::rlimit(40)]
pub fn add_diag_comms(
    b: &mut TreeBuilder,
    own: Vec<Service>,
    parents: Vec<(Service, String)>,
    jobs: Vec<SingleEcuJob>,
    depth: usize,
)
    ensures
        own@.len() + parents@.len() + jobs@.len() == 0 ==> nodes_view(final(b).nodes@) == nodes_view(old(b).nodes@),
        own@.len() + parents@.len() + jobs@.len() > 0 ==> exists|
            os: Seq<Service>,
            ps: Seq<(Service, String)>,
            raw_names: Seq<String>,
            names: Seq<String>,
            js: Seq<SingleEcuJob>,
        |
            #[trigger] dc_sorted(own@, parents@, jobs@, os, ps, raw_names, names, js) && dc_added(
                nodes_view(old(b).nodes@),
                nodes_view(final(b).nodes@),
                os,
                ps,
                names,
                js,
                depth,
            ),
{
    let ghost own0 = own@;
    let ghost parents0 = parents@;
    let ghost jobs0 = jobs@;
    let ghost before = nodes_view(b.nodes@);
    let os = sort_services(own);
    let ps = sort_parents(parents);
    proof {
        lemma_sort_len(os@, own0, by_service_name());
        lemma_sort_len(ps@, parents0, by_parent_name());
    }
    let job_count = jobs.len();
    let service_count = os.len().saturating_add(ps.len());
    let total = service_count.saturating_add(job_count);
    if total == 0 {
        return;
    }
    let raw_names = job_names_of(&jobs);
    let ghost raw = raw_names@;
    let names = sort_names(raw_names);
    let js = sort_jobs(jobs);
    proof {
        lemma_sort_len(names@, raw, by_lower_text());
        lemma_sort_len(js@, jobs0, by_job_name());
    }
    let header_idx = b.next_index();
    let ghost h = header_idx as int;
    let mut title = "Diag-Comms (".to_owned();
    title.append(usize_to_decimal(service_count).as_str());
    title.append(" services, ");
    title.append(usize_to_decimal(job_count).as_str());
    title.append(" jobs)");
    let ghost nodes0 = b.nodes@;
    b.push_service_list_header(depth, title, false, true, Vec::new(), ServiceListType::DiagComms);
    proof {
        lemma_nodes_view_push(nodes0, b.nodes@.last());
        assert(b.nodes@ == nodes0.push(b.nodes@.last()));
    }
    let ghost head = nodes_view(b.nodes@);
    let mut node_indices: StringHashMap<usize> = StringHashMap::new();
    proof {
        assert(head.subrange(0, head.len() as int) =~= head);
        assert(head.subrange(0, h) =~= before);
        assert(svc_inv(head, node_indices@, Seq::empty(), depth, head));
    }
    add_dc_services(b, &os, &ps, depth, &mut node_indices, Ghost(head));
    let ghost l = dc_entries(os@, ps@, before);
    let ghost svc_nodes = nodes_view(b.nodes@);
    let ghost m1 = node_indices@;
    proof {
        assert(svc_nodes.subrange(0, svc_nodes.len() as int) =~= svc_nodes);
        assert(job_inv(svc_nodes, m1, Seq::empty(), depth, svc_nodes, m1));
    }
    add_jobs(b, &js, depth, &mut node_indices, Ghost(svc_nodes), Ghost(m1));
    let table = dc_table(&os, &ps, &names, &node_indices);
    let ghost before_set = nodes_view(b.nodes@);
    b.set_detail_sections(header_idx, vec![table]);
    proof {
        let v = nodes_view(b.nodes@);
        let n_s = shown(l, l.len() as int);
        let m = node_indices@;
        assert(m == job_map(service_map(l, h + 1, l.len() as int), js@, h + 1 + n_s, js@.len() as int));
        assert forall|x: int| 0 <= x < v.len() && x != h implies #[trigger] v[x] == before_set[x] by {}
        assert(v.subrange(0, h) =~= before);
        let hd = dc_header(depth, os@, ps@, names@, m);
        assert(svc_nodes.subrange(0, head.len() as int)[h] == head[h]);
        assert(before_set.subrange(0, svc_nodes.len() as int)[h] == svc_nodes[h]);
        assert(before_set[h] == head[h]);
        assert(v[h].text == before_set[h].text);
        assert(v[h].payload == before_set[h].payload);
        assert(v[h].detail_sections =~= hd.detail_sections);
        assert(service_count == sat_sum(os@.len(), ps@.len()));
        assert(v[h].text == hd.text);
        assert(v[h].payload == hd.payload);
        assert(v[h] == hd);
        assert forall|i: int|
            0 <= i < l.len() && service_display_name((#[trigger] l[i]).0.info) is Some implies dc_node_holds(
            v[h + 1 + shown(l, i)],
            depth,
            l[i].0,
            l[i].1,
            l[i].2,
        ) by {
            lemma_shown_grows(l, i, l.len() as int);
            assert(v[h + 1 + shown(l, i)] == svc_nodes[h + 1 + shown(l, i)]);
        }
        assert forall|k: int| 0 <= k < js@.len() && job_named(#[trigger] js@[k]) implies v[h + 1 + n_s + named(js@, k)]
            == job_node(depth, js@[k]) by {
            lemma_named_grows(js@, k, js@.len() as int);
        }
        assert(dc_sorted(own0, parents0, jobs0, os@, ps@, raw, names@, js@));
        assert(dc_added(before, v, os@, ps@, names@, js@, depth));
    }
}

} // verus!
