//! The Requests, Pos-Responses and Neg-Responses lists of a layer: a header
//! with a table of the services, then a node per service with its
//! parameters below it.
use vstd::prelude::*;
use crate::text::{decimal, usize_to_decimal};
use crate::tree::builder::TreeBuilder;
use crate::tree::elements::param_detail::{build_param_detail_sections, param_detail};
use crate::tree::elements::params::is_param_section;
use crate::tree::elements::service_details::{
    build_request_section, build_response_view_sections, fields_of, infos_of, request_params,
    response_sections_hold, responses_of, view_label, ParamEntry, ResponseInfo, ResponseKind, Service,
};
use crate::tree::elements::services::{
    list_table_from_rows, push_service_row, service_rows, service_table_row,
    build_service_overview_section, build_view_header, format_service_display_name, overview_table,
    service_display_name, service_list_table, service_overview_rows, sat_sum, view_header, view_name, ServiceInfo,
};
use crate::tree::types::{
    nodes_view, rows_view, sections_view, DetailRow, DetailSectionData, RowV, DetailSectionType, NodeType, NodeV, PayloadV,
    SectionV, ServiceListType, TreeNode,
};
use vstd::hash_map::StringHashMap;

verus! {

broadcast use vstd::std_specs::vec::group_vec_axioms;

/// The three service lists.
#[derive(Clone, Copy, Debug, PartialEq, Eq, Structural)]
pub enum ServiceListKind {
    Requests,
    PosResponses,
    NegResponses,
}

pub open spec fn response_kind(k: ServiceListKind) -> ResponseKind {
    match k {
        ServiceListKind::NegResponses => ResponseKind::Negative,
        _ => ResponseKind::Positive,
    }
}

/// A service belongs to a list when it has a request, or at least one
/// response of the list's kind.
pub open spec fn has_kind(k: ServiceListKind, s: Service) -> bool {
    match k {
        ServiceListKind::Requests => s.request is Some,
        _ => responses_of(s, response_kind(k)).len() > 0,
    }
}

fn has_kind_exec(k: ServiceListKind, s: &Service) -> (r: bool)
    ensures
        r == has_kind(k, *s),
{
    match k {
        ServiceListKind::Requests => s.request.is_some(),
        ServiceListKind::PosResponses => match &s.pos_responses {
            Some(v) => v.len() > 0,
            None => false,
        },
        ServiceListKind::NegResponses => match &s.neg_responses {
            Some(v) => v.len() > 0,
            None => false,
        },
    }
}

/// Depths below the list header.
pub open spec fn sat_depth(depth: usize, k: nat) -> usize {
    if depth + k > usize::MAX {
        usize::MAX
    } else {
        (depth + k) as usize
    }
}

/// The node of one parameter.
pub open spec fn param_node(depth: usize, p: ParamEntry) -> NodeV {
    NodeV {
        depth,
        text: p.info.name@,
        expanded: false,
        has_children: false,
        detail_sections: param_detail(p.detail),
        node_type: NodeType::Default,
        payload: PayloadV::Parameter { param_id: p.info.param_id, short_name: p.info.name@ },
        parent_idx: None,
        diff_status: None,
        old_text: None,
    }
}

pub open spec fn param_nodes(depth: usize, ps: Seq<ParamEntry>) -> Seq<NodeV> {
    Seq::new(ps.len(), |i: int| param_node(depth, ps[i]))
}

/// The group node of a response when a service has several.
pub open spec fn response_group_node(depth: usize, i: int) -> NodeV {
    NodeV {
        depth,
        text: "Response "@ + decimal((i + 1) as nat),
        expanded: false,
        has_children: true,
        detail_sections: Seq::empty(),
        node_type: NodeType::Default,
        payload: PayloadV::Empty,
        parent_idx: None,
        diff_status: None,
        old_text: None,
    }
}

/// The nodes below a service for its first `n` responses: for each
/// response with parameters, a group node when there are several
/// responses, then its parameters.
pub open spec fn response_children(rs: Seq<ResponseInfo>, depth: usize, n: int) -> Seq<NodeV>
    decreases n,
{
    if n <= 0 {
        Seq::empty()
    } else {
        let ps = match rs[n - 1].params {
            Some(v) => v@,
            None => Seq::empty(),
        };
        response_children(rs, depth, n - 1) + if ps.len() == 0 {
            Seq::empty()
        } else if rs.len() > 1 {
            seq![response_group_node(sat_depth(depth, 2), n - 1)] + param_nodes(sat_depth(depth, 3), ps)
        } else {
            param_nodes(sat_depth(depth, 2), ps)
        }
    }
}

/// The nodes below the node of a service.
pub open spec fn service_children(k: ServiceListKind, depth: usize, s: Service) -> Seq<NodeV> {
    match k {
        ServiceListKind::Requests => param_nodes(sat_depth(depth, 2), request_params(s)),
        _ => {
            let rs = responses_of(s, response_kind(k));
            response_children(rs, depth, rs.len() as int)
        },
    }
}

/// Whether the node of a service has children.
pub open spec fn has_params(k: ServiceListKind, s: Service) -> bool {
    match k {
        ServiceListKind::Requests => request_params(s).len() > 0,
        _ => exists|i: int|
            0 <= i < responses_of(s, response_kind(k)).len() && has_param_list(
                #[trigger] responses_of(s, response_kind(k))[i],
            ),
    }
}

/// A response lists at least one parameter.
pub open spec fn has_param_list(r: ResponseInfo) -> bool {
    match r.params {
        Some(v) => v@.len() > 0,
        None => false,
    }
}

pub open spec fn list_node_type(k: ServiceListKind) -> NodeType {
    match k {
        ServiceListKind::Requests => NodeType::Request,
        ServiceListKind::PosResponses => NodeType::PosResponse,
        ServiceListKind::NegResponses => NodeType::NegResponse,
    }
}

/// The node of a listed service: labelled like the service, its detail
/// the request view (header, overview, parameter table) or the response
/// view of the list's kind.
pub open spec fn service_node_holds(
    n: NodeV,
    k: ServiceListKind,
    depth: usize,
    s: Service,
    layer: Option<Seq<char>>,
    container: Option<usize>,
) -> bool {
    let v = n.detail_sections;
    &&& n.depth == sat_depth(depth, 1)
    &&& Some(n.text) == service_display_name(s.info)
    &&& !n.expanded
    &&& n.has_children == has_params(k, s)
    &&& n.node_type == list_node_type(k)
    &&& n.payload == PayloadV::DiagComm { service_short_name: view_name(s.info) }
    &&& n.parent_idx is None && n.diff_status is None && n.old_text is None
    &&& v.len() >= 2
    &&& v[1] == overview_table(service_overview_rows(s.info, layer, container))
    &&& match k {
        ServiceListKind::Requests => {
            &&& v.len() == 3
            &&& v[0] == view_header("Request - "@, s.info)
            &&& is_param_section(
                v[2],
                "Request"@,
                infos_of(request_params(s)),
                fields_of(request_params(s)),
                DetailSectionType::Requests,
            )
        },
        _ => {
            &&& v[0] == view_header(view_label(response_kind(k)) + " - "@, s.info)
            &&& response_sections_hold(v.subrange(2, v.len() as int), s, response_kind(k))
        },
    }
}

/// How many nodes a listed service adds (none without a label).
pub open spec fn block_len(k: ServiceListKind, depth: usize, s: Service) -> nat {
    if service_display_name(s.info) is Some {
        1 + service_children(k, depth, s).len()
    } else {
        0
    }
}

/// The nodes a service adds from position `start` on.
pub open spec fn block_holds(
    nodes: Seq<NodeV>,
    start: int,
    k: ServiceListKind,
    depth: usize,
    s: Service,
    layer: Option<Seq<char>>,
    container: Option<usize>,
) -> bool {
    service_display_name(s.info) is Some ==> {
        &&& service_node_holds(nodes[start], k, depth, s, layer, container)
        &&& nodes.subrange(start + 1, start + block_len(k, depth, s)) == service_children(k, depth, s)
    }
}

// Building blocks
pub(crate) proof fn lemma_nodes_view_push(v: Seq<TreeNode>, n: TreeNode)
    ensures
        nodes_view(v.push(n)) == nodes_view(v).push(n@),
{
    assert(nodes_view(v.push(n)) =~= nodes_view(v).push(n@));
}

fn push_param_nodes(b: &mut TreeBuilder, depth: usize, ps: &Vec<ParamEntry>)
    ensures
        nodes_view(final(b).nodes@) == nodes_view(old(b).nodes@) + param_nodes(depth, ps@),
{
    let ghost start = nodes_view(b.nodes@);
    let mut i: usize = 0;
    while i < ps.len()
        invariant
            i <= ps@.len(),
            nodes_view(b.nodes@) == start + param_nodes(depth, ps@.subrange(0, i as int)),
        decreases ps@.len() - i,
    {
        let p = &ps[i];
        let sections = build_param_detail_sections(&p.detail);
        let ghost before = b.nodes@;
        b.push_param(depth, p.info.name.clone(), p.info.name.clone(), sections, NodeType::Default, p.info.param_id);
        proof {
            lemma_nodes_view_push(before, b.nodes@.last());
            assert(b.nodes@ == before.push(b.nodes@.last()));
            assert(b.nodes@.last()@ == param_node(depth, *p));
            assert(param_nodes(depth, ps@.subrange(0, i as int + 1)) =~= param_nodes(depth, ps@.subrange(0, i as int)).push(
                param_node(depth, *p),
            ));
        }
        i = i + 1;
    }
    assert(ps@.subrange(0, ps@.len() as int) =~= ps@);
}

fn has_params_exec(k: ServiceListKind, s: &Service) -> (r: bool)
    ensures
        r == has_params(k, *s),
{
    match k {
        ServiceListKind::Requests => match &s.request {
            Some(req) => match &req.params {
                Some(v) => v.len() > 0,
                None => false,
            },
            None => false,
        },
        _ => {
            let rs = match k {
                ServiceListKind::NegResponses => &s.neg_responses,
                _ => &s.pos_responses,
            };
            match rs {
                Some(v) => {
                    let mut i: usize = 0;
                    while i < v.len()
                        invariant
                            i <= v@.len(),
                            k != ServiceListKind::Requests,
                            v@ == responses_of(*s, response_kind(k)),
                            forall|j: int| 0 <= j < i ==> !has_param_list(#[trigger] v@[j]),
                        decreases v@.len() - i,
                    {
                        let found = match &v[i].params {
                            Some(ps) => ps.len() > 0,
                            None => false,
                        };
                        if found {
                            assert(has_param_list(v@[i as int]));
                            assert(has_param_list(responses_of(*s, response_kind(k))[i as int]));
                            return true;
                        }
                        i = i + 1;
                    }
                    false
                },
                None => false,
            }
        },
    }
}

fn push_response_children(b: &mut TreeBuilder, depth: usize, rs: &Vec<ResponseInfo>)
    ensures
        nodes_view(final(b).nodes@) == nodes_view(old(b).nodes@) + response_children(rs@, depth, rs@.len() as int),
{
    let ghost start = nodes_view(b.nodes@);
    let several = rs.len() > 1;
    let mut i: usize = 0;
    while i < rs.len()
        invariant
            i <= rs@.len(),
            several == (rs@.len() > 1),
            nodes_view(b.nodes@) == start + response_children(rs@, depth, i as int),
        decreases rs@.len() - i,
    {
        let ghost before = nodes_view(b.nodes@);
        if let Some(ps) = &rs[i].params {
            if ps.len() > 0 {
                if several {
                    let mut text = "Response ".to_owned();
                    text.append(usize_to_decimal(i + 1).as_str());
                    let ghost nodes_before = b.nodes@;
                    b.push_details_structured(depth.saturating_add(2), text, false, true, Vec::new(), NodeType::Default);
                    proof {
                        lemma_nodes_view_push(nodes_before, b.nodes@.last());
                        assert(b.nodes@ == nodes_before.push(b.nodes@.last()));
                        assert(sections_view(Seq::<DetailSectionData>::empty()) =~= Seq::<SectionV>::empty());
                        assert(b.nodes@.last()@ == response_group_node(sat_depth(depth, 2), i as int));
                    }
                    push_param_nodes(b, depth.saturating_add(3), ps);
                } else {
                    push_param_nodes(b, depth.saturating_add(2), ps);
                }
            }
        }
        proof {
            assert(nodes_view(b.nodes@) =~= start + response_children(rs@, depth, i as int + 1));
        }
        i = i + 1;
    }
}

pub(crate) fn view_name_exec(s: &ServiceInfo) -> (r: String)
    ensures
        r@ == view_name(*s),
{
    match &s.diag_comm {
        Some(dc) => match &dc.short_name {
            Some(n) => n.clone(),
            None => "?".to_owned(),
        },
        None => "?".to_owned(),
    }
}

fn list_node_type_exec(k: ServiceListKind) -> (r: NodeType)
    ensures
        r == list_node_type(k),
{
    match k {
        ServiceListKind::Requests => NodeType::Request,
        ServiceListKind::PosResponses => NodeType::PosResponse,
        ServiceListKind::NegResponses => NodeType::NegResponse,
    }
}

/// The view of a service in a list: the request view, or the response view
/// of the list's kind.
fn build_list_view(
    s: &Service,
    k: ServiceListKind,
    layer: Option<&str>,
    container: Option<usize>,
) -> (r: Vec<DetailSectionData>)
    ensures
        ({
            let v = sections_view(r@);
            let lv = match layer {
                Some(l) => Some(l@),
                None => None,
            };
            &&& v.len() >= 2
            &&& v[1] == overview_table(service_overview_rows(s.info, lv, container))
            &&& match k {
                ServiceListKind::Requests => {
                    &&& v.len() == 3
                    &&& v[0] == view_header("Request - "@, s.info)
                    &&& is_param_section(
                        v[2],
                        "Request"@,
                        infos_of(request_params(*s)),
                        fields_of(request_params(*s)),
                        DetailSectionType::Requests,
                    )
                },
                _ => {
                    &&& v[0] == view_header(view_label(response_kind(k)) + " - "@, s.info)
                    &&& response_sections_hold(v.subrange(2, v.len() as int), *s, response_kind(k))
                },
            }
        }),
{
    match k {
        ServiceListKind::Requests => {
            let mut out: Vec<DetailSectionData> = Vec::new();
            out.push(build_view_header("Request - ", &s.info));
            out.push(build_service_overview_section(&s.info, layer, container));
            out.push(build_request_section(s));
            out
        },
        ServiceListKind::PosResponses => build_response_view_sections(s, layer, ResponseKind::Positive, container),
        ServiceListKind::NegResponses => build_response_view_sections(s, layer, ResponseKind::Negative, container),
    }
}

/// Adds the node of a listed service and the nodes below it (nothing for a
/// service without a label).
fn add_service_block(
    b: &mut TreeBuilder,
    s: &Service,
    k: ServiceListKind,
    depth: usize,
    layer: Option<&str>,
    container: Option<usize>,
)
    ensures
        final(b).nodes@.len() == old(b).nodes@.len() + block_len(k, depth, *s),
        nodes_view(final(b).nodes@).subrange(0, old(b).nodes@.len() as int) == nodes_view(old(b).nodes@),
        block_holds(
            nodes_view(final(b).nodes@),
            old(b).nodes@.len() as int,
            k,
            depth,
            *s,
            match layer {
                Some(l) => Some(l@),
                None => None,
            },
            container,
        ),
{
    let display = match format_service_display_name(&s.info) {
        Some(d) => d,
        None => {
            assert(nodes_view(b.nodes@).subrange(0, b.nodes@.len() as int) =~= nodes_view(b.nodes@));
            return;
        },
    };
    let ghost start = nodes_view(b.nodes@);
    let ghost h = b.nodes@.len() as int;
    let sections = build_list_view(s, k, layer, container);
    let has = has_params_exec(k, s);
    let ghost before = b.nodes@;
    b.push_service_node(depth.saturating_add(1), display, has, sections, list_node_type_exec(k), view_name_exec(&s.info));
    proof {
        lemma_nodes_view_push(before, b.nodes@.last());
        assert(b.nodes@ == before.push(b.nodes@.last()));
    }
    let ghost service_node = nodes_view(b.nodes@)[h];
    match k {
        ServiceListKind::Requests => {
            match &s.request {
                Some(req) => match &req.params {
                    Some(ps) => push_param_nodes(b, depth.saturating_add(2), ps),
                    None => {},
                },
                None => {},
            }
            assert(nodes_view(b.nodes@) =~= start.push(service_node) + service_children(k, depth, *s));
        },
        ServiceListKind::PosResponses => {
            match &s.pos_responses {
                Some(rs) => push_response_children(b, depth, rs),
                None => {},
            }
            assert(nodes_view(b.nodes@) =~= start.push(service_node) + service_children(k, depth, *s));
        },
        ServiceListKind::NegResponses => {
            match &s.neg_responses {
                Some(rs) => push_response_children(b, depth, rs),
                None => {},
            }
            assert(nodes_view(b.nodes@) =~= start.push(service_node) + service_children(k, depth, *s));
        },
    }
    proof {
        let v = nodes_view(b.nodes@);
        assert(v.subrange(0, h) =~= start);
        assert(v[h] == service_node);
        assert(v.subrange(h + 1, h + block_len(k, depth, *s)) =~= service_children(k, depth, *s));
    }
}

// The whole list
/// The services of the list: own ones first, then inherited ones with the
/// layer they come from and the position of that layer's container in the
/// nodes before the list.
pub open spec fn listed_entries(
    k: ServiceListKind,
    own: Seq<Service>,
    parents: Seq<(Service, String)>,
    nodes: Seq<NodeV>,
) -> Seq<(Service, Option<Seq<char>>, Option<usize>)> {
    own.filter(|s: Service| has_kind(k, s)).map_values(|s: Service| (s, None::<Seq<char>>, None::<usize>))
        + parents.filter(|p: (Service, String)| has_kind(k, p.0)).map_values(
        |p: (Service, String)| (p.0, Some(p.1@), container_of(nodes, p.1@, nodes.len() as int)),
    )
}

/// The first of the first `n` nodes that is a container named `name`.
pub open spec fn container_of(nodes: Seq<NodeV>, name: Seq<char>, n: int) -> Option<usize>
    decreases n,
{
    if n <= 0 {
        None
    } else {
        match container_of(nodes, name, n - 1) {
            Some(i) => Some(i),
            None => if nodes[n - 1].node_type == NodeType::Container && nodes[n - 1].payload.short_name() == Some(name) {
                Some((n - 1) as usize)
            } else {
                None
            },
        }
    }
}

/// Where the block of entry `n` starts when the first block starts at `base`.
pub open spec fn block_start(
    l: Seq<(Service, Option<Seq<char>>, Option<usize>)>,
    k: ServiceListKind,
    depth: usize,
    base: int,
    n: int,
) -> int
    decreases n,
{
    if n <= 0 {
        base
    } else {
        block_start(l, k, depth, base, n - 1) + block_len(k, depth, l[n - 1].0)
    }
}

/// The node positions by service name after the first `n` entries were
/// added (a later service of the same name wins).
pub open spec fn list_index_map(
    l: Seq<(Service, Option<Seq<char>>, Option<usize>)>,
    k: ServiceListKind,
    depth: usize,
    base: int,
    n: int,
) -> Map<Seq<char>, usize>
    decreases n,
{
    if n <= 0 {
        Map::empty()
    } else {
        let m = list_index_map(l, k, depth, base, n - 1);
        if service_display_name(l[n - 1].0.info) is Some {
            m.insert(view_name(l[n - 1].0.info), block_start(l, k, depth, base, n - 1) as usize)
        } else {
            m
        }
    }
}

pub open spec fn list_title(k: ServiceListKind) -> Seq<char> {
    match k {
        ServiceListKind::Requests => "Requests"@,
        ServiceListKind::PosResponses => "Pos-Responses"@,
        ServiceListKind::NegResponses => "Neg-Responses"@,
    }
}

pub open spec fn list_section_type(k: ServiceListKind) -> DetailSectionType {
    match k {
        ServiceListKind::Requests => DetailSectionType::Requests,
        ServiceListKind::PosResponses => DetailSectionType::PosResponses,
        ServiceListKind::NegResponses => DetailSectionType::NegResponses,
    }
}

pub open spec fn list_type(k: ServiceListKind) -> ServiceListType {
    match k {
        ServiceListKind::Requests => ServiceListType::Requests,
        ServiceListKind::PosResponses => ServiceListType::PosResponses,
        ServiceListKind::NegResponses => ServiceListType::NegResponses,
    }
}

/// The header of the list: its title with the number of listed services,
/// and the table of those services leading to their nodes.
pub open spec fn list_header(
    k: ServiceListKind,
    depth: usize,
    own: Seq<Service>,
    parents: Seq<(Service, String)>,
    m: Map<Seq<char>, usize>,
) -> NodeV {
    let own_f = own.filter(|s: Service| has_kind(k, s));
    let parents_f = parents.filter(|p: (Service, String)| has_kind(k, p.0));
    NodeV {
        depth,
        text: list_title(k) + " ("@ + decimal(sat_sum(own_f.len(), parents_f.len())) + ")"@,
        expanded: false,
        has_children: true,
        detail_sections: seq![
            service_list_table(
                own_f.map_values(|s: Service| s.info),
                parents_f.map_values(|p: (Service, String)| (p.0.info, p.1)),
                list_title(k),
                list_section_type(k),
                m,
            ),
        ],
        node_type: NodeType::SectionHeader,
        payload: PayloadV::ServiceListHeader { service_list_type: list_type(k) },
        parent_idx: None,
        diff_status: None,
        old_text: None,
    }
}

proof fn lemma_filter_map_step<A, B>(s: Seq<A>, i: int, pred: spec_fn(A) -> bool, f: spec_fn(A) -> B)
    requires
        0 <= i < s.len(),
    ensures
        s.subrange(0, i + 1).filter(pred).map_values(f) == s.subrange(0, i).filter(pred).map_values(f) + if pred(s[i]) {
            seq![f(s[i])]
        } else {
            Seq::empty()
        },
{
    let pre = s.subrange(0, i);
    assert(s.subrange(0, i + 1) =~= pre.push(s[i]));
    pre.lemma_filter_push(s[i], pred);
    if pred(s[i]) {
        assert(pre.push(s[i]).filter(pred) == pre.filter(pred).push(s[i]));
        assert(pre.filter(pred).push(s[i]).map_values(f) =~= pre.filter(pred).map_values(f) + seq![f(s[i])]);
    } else {
        assert(pre.filter(pred).map_values(f) + Seq::<B>::empty() =~= pre.filter(pred).map_values(f));
    }
}

proof fn lemma_service_rows_push(x: Seq<ServiceInfo>, y: ServiceInfo, inherited: bool, m: Map<Seq<char>, usize>)
    ensures
        service_rows(x.push(y), inherited, m, false) == service_rows(x, inherited, m, false) + if y.diag_comm is Some {
            seq![service_table_row(y, inherited, m, false)]
        } else {
            Seq::<RowV>::empty()
        },
{
    crate::tree::elements::services::lemma_listed_push_own(x, y);
    assert(service_rows(x.push(y), inherited, m, false) =~= service_rows(x, inherited, m, false) + if y.diag_comm is Some {
        seq![service_table_row(y, inherited, m, false)]
    } else {
        Seq::<RowV>::empty()
    });
}

fn build_list_table(
    own: &Vec<Service>,
    parents: &Vec<(Service, String)>,
    k: ServiceListKind,
    node_indices: &StringHashMap<usize>,
) -> (r: DetailSectionData)
    ensures
        r@ == list_header(k, 0, own@, parents@, node_indices@).detail_sections[0],
{
    let ghost m = node_indices@;
    let ghost hk = |s: Service| has_kind(k, s);
    let ghost hk_p = |p: (Service, String)| has_kind(k, p.0);
    let ghost info = |s: Service| s.info;
    let ghost info_p = |p: (Service, String)| p.0.info;
    let mut rows: Vec<DetailRow> = Vec::new();
    let mut own_count: usize = 0;
    let mut i: usize = 0;
    assert(rows_view(rows@) =~= service_rows(own@.subrange(0, 0).filter(hk).map_values(info), false, m, false));
    while i < own.len()
        invariant
            i <= own@.len(),
            m == node_indices@,
            hk == (|s: Service| has_kind(k, s)),
            info == (|s: Service| s.info),
            own_count == own@.subrange(0, i as int).filter(hk).len(),
            rows_view(rows@) == service_rows(own@.subrange(0, i as int).filter(hk).map_values(info), false, m, false),
        decreases own@.len() - i,
    {
        proof {
            lemma_filter_map_step(own@, i as int, hk, info);
            lemma_filter_map_step(own@, i as int, hk, |s: Service| s);
            assert(own@.subrange(0, i as int).filter(hk).map_values(|s: Service| s) =~= own@.subrange(0, i as int).filter(hk));
            assert(own@.subrange(0, i as int + 1).filter(hk).map_values(|s: Service| s) =~= own@.subrange(0, i as int + 1).filter(hk));
        }
        let ghost x = own@.subrange(0, i as int).filter(hk).map_values(info);
        let ghost xs = own@.subrange(0, i as int).filter(hk);
        assert(hk(own@[i as int]) == has_kind(k, own@[i as int]));
        assert(info(own@[i as int]) == own@[i as int].info);
        if has_kind_exec(k, &own[i]) {
            proof {
                lemma_service_rows_push(x, own@[i as int].info, false, m);
                assert(own@.subrange(0, i as int + 1).filter(hk).map_values(info) =~= x.push(own@[i as int].info));
                assert(own@.subrange(0, i as int + 1).filter(hk) =~= xs.push(own@[i as int]));
            }
            push_service_row(&mut rows, &own[i].info, false, node_indices, false);
            own_count = own_count + 1;
        } else {
            proof {
                assert(own@.subrange(0, i as int + 1).filter(hk).map_values(info) =~= x);
                assert(own@.subrange(0, i as int + 1).filter(hk) =~= xs);
            }
        }
        i = i + 1;
    }
    assert(own@.subrange(0, own@.len() as int) =~= own@);
    let ghost own_rows = rows_view(rows@);
    let mut parent_count: usize = 0;
    let mut j: usize = 0;
    assert(rows_view(rows@) =~= own_rows + service_rows(parents@.subrange(0, 0).filter(hk_p).map_values(info_p), true, m, false));
    while j < parents.len()
        invariant
            j <= parents@.len(),
            m == node_indices@,
            hk_p == (|p: (Service, String)| has_kind(k, p.0)),
            info_p == (|p: (Service, String)| p.0.info),
            parent_count == parents@.subrange(0, j as int).filter(hk_p).len(),
            rows_view(rows@) == own_rows + service_rows(parents@.subrange(0, j as int).filter(hk_p).map_values(info_p), true, m, false),
        decreases parents@.len() - j,
    {
        proof {
            lemma_filter_map_step(parents@, j as int, hk_p, info_p);
            lemma_filter_map_step(parents@, j as int, hk_p, |p: (Service, String)| p);
            assert(parents@.subrange(0, j as int).filter(hk_p).map_values(|p: (Service, String)| p) =~= parents@.subrange(0, j as int).filter(hk_p));
            assert(parents@.subrange(0, j as int + 1).filter(hk_p).map_values(|p: (Service, String)| p) =~= parents@.subrange(0, j as int + 1).filter(hk_p));
        }
        let ghost x = parents@.subrange(0, j as int).filter(hk_p).map_values(info_p);
        let ghost xs = parents@.subrange(0, j as int).filter(hk_p);
        assert(hk_p(parents@[j as int]) == has_kind(k, parents@[j as int].0));
        assert(info_p(parents@[j as int]) == parents@[j as int].0.info);
        if has_kind_exec(k, &parents[j].0) {
            proof {
                lemma_service_rows_push(x, parents@[j as int].0.info, true, m);
                assert(parents@.subrange(0, j as int + 1).filter(hk_p).map_values(info_p) =~= x.push(parents@[j as int].0.info));
                assert(parents@.subrange(0, j as int + 1).filter(hk_p) =~= xs.push(parents@[j as int]));
            }
            let ghost before = rows_view(rows@);
            push_service_row(&mut rows, &parents[j].0.info, true, node_indices, false);
            proof {
                assert(rows_view(rows@) =~= own_rows + service_rows(parents@.subrange(0, j as int + 1).filter(hk_p).map_values(info_p), true, m, false));
            }
            parent_count = parent_count + 1;
        } else {
            proof {
                assert(parents@.subrange(0, j as int + 1).filter(hk_p).map_values(info_p) =~= x);
                assert(parents@.subrange(0, j as int + 1).filter(hk_p) =~= xs);
            }
        }
        j = j + 1;
    }
    assert(parents@.subrange(0, parents@.len() as int) =~= parents@);
    let ghost own_f = own@.filter(hk);
    let ghost parents_f = parents@.filter(hk_p);
    let ghost pairs = parents_f.map_values(|p: (Service, String)| (p.0.info, p.1));
    assert(crate::tree::elements::services::firsts(pairs) =~= parents_f.map_values(info_p));
    assert(own_f.map_values(info) =~= own_f.map_values(|s: Service| s.info));
    let title = match k {
        ServiceListKind::Requests => "Requests",
        ServiceListKind::PosResponses => "Pos-Responses",
        ServiceListKind::NegResponses => "Neg-Responses",
    };
    let st = match k {
        ServiceListKind::Requests => DetailSectionType::Requests,
        ServiceListKind::PosResponses => DetailSectionType::PosResponses,
        ServiceListKind::NegResponses => DetailSectionType::NegResponses,
    };
    let count = own_count.saturating_add(parent_count);
    list_table_from_rows(rows, title, count, st, Ghost(own_f.map_values(|s: Service| s.info)), Ghost(pairs), Ghost(m))
}

// Facts for the list
proof fn lemma_param_nodes_not_container(depth: usize, ps: Seq<ParamEntry>)
    ensures
        forall|i: int| 0 <= i < param_nodes(depth, ps).len() ==> (#[trigger] param_nodes(depth, ps)[i]).node_type
            != NodeType::Container,
{
}

proof fn lemma_response_children_not_container(rs: Seq<ResponseInfo>, depth: usize, n: int)
    ensures
        forall|i: int|
            0 <= i < response_children(rs, depth, n).len() ==> (#[trigger] response_children(rs, depth, n)[i]).node_type
                != NodeType::Container,
    decreases n,
{
    if n > 0 {
        lemma_response_children_not_container(rs, depth, n - 1);
        let prev = response_children(rs, depth, n - 1);
        let all = response_children(rs, depth, n);
        let ps = match rs[n - 1].params {
            Some(v) => v@,
            None => Seq::empty(),
        };
        lemma_param_nodes_not_container(sat_depth(depth, 2), ps);
        lemma_param_nodes_not_container(sat_depth(depth, 3), ps);
        assert forall|i: int| 0 <= i < all.len() implies (#[trigger] all[i]).node_type != NodeType::Container by {
            if i >= prev.len() {
                if rs.len() > 1 && ps.len() > 0 {
                    let extra = seq![response_group_node(sat_depth(depth, 2), n - 1)] + param_nodes(sat_depth(depth, 3), ps);
                    assert(all[i] == extra[i - prev.len()]);
                    if i - prev.len() > 0 {
                        assert(extra[i - prev.len()] == param_nodes(sat_depth(depth, 3), ps)[i - prev.len() - 1]);
                    }
                } else if ps.len() > 0 {
                    assert(all[i] == param_nodes(sat_depth(depth, 2), ps)[i - prev.len()]);
                }
            }
        }
    }
}

proof fn lemma_children_not_container(k: ServiceListKind, depth: usize, s: Service)
    ensures
        forall|i: int|
            0 <= i < service_children(k, depth, s).len() ==> (#[trigger] service_children(k, depth, s)[i]).node_type
                != NodeType::Container,
{
    match k {
        ServiceListKind::Requests => lemma_param_nodes_not_container(sat_depth(depth, 2), request_params(s)),
        _ => {
            let rs = responses_of(s, response_kind(k));
            lemma_response_children_not_container(rs, depth, rs.len() as int);
        },
    }
}

/// A container lookup is not changed by nodes that are no containers.
pub(crate) proof fn lemma_container_of_prefix(a: Seq<NodeV>, b: Seq<NodeV>, name: Seq<char>, n: int)
    requires
        0 <= n <= a.len() <= b.len(),
        b.subrange(0, a.len() as int) == a,
        forall|i: int| a.len() <= i < b.len() ==> (#[trigger] b[i]).node_type != NodeType::Container,
    ensures
        container_of(b, name, b.len() as int) == container_of(a, name, a.len() as int),
    decreases b.len() - n,
{
    lemma_container_of_same(a, b, name, a.len() as int);
    lemma_container_of_tail(b, name, a.len() as int, b.len() as int);
}

proof fn lemma_container_of_same(a: Seq<NodeV>, b: Seq<NodeV>, name: Seq<char>, n: int)
    requires
        0 <= n <= a.len() <= b.len(),
        b.subrange(0, a.len() as int) == a,
    ensures
        container_of(b, name, n) == container_of(a, name, n),
    decreases n,
{
    if n > 0 {
        lemma_container_of_same(a, b, name, n - 1);
        assert(b[n - 1] == b.subrange(0, a.len() as int)[n - 1]);
    }
}

proof fn lemma_container_of_tail(b: Seq<NodeV>, name: Seq<char>, m: int, n: int)
    requires
        0 <= m <= n <= b.len(),
        forall|i: int| m <= i < b.len() ==> (#[trigger] b[i]).node_type != NodeType::Container,
    ensures
        container_of(b, name, n) == container_of(b, name, m),
    decreases n - m,
{
    if n > m {
        lemma_container_of_tail(b, name, m, n - 1);
        assert(b[n - 1].node_type != NodeType::Container);
    }
}

/// The container the builder finds is the first container of that name.
pub(crate) proof fn lemma_found_container(nodes: Seq<NodeV>, name: Seq<char>, r: Option<usize>, n: int)
    requires
        0 <= n <= nodes.len(),
        match r {
            Some(i) => i < nodes.len() && nodes[i as int].node_type == NodeType::Container
                && nodes[i as int].payload.short_name() == Some(name) && forall|k: int|
                0 <= k < i ==> !(#[trigger] nodes[k].node_type == NodeType::Container
                    && nodes[k].payload.short_name() == Some(name)),
            None => forall|k: int|
                0 <= k < nodes.len() ==> !(#[trigger] nodes[k].node_type == NodeType::Container
                    && nodes[k].payload.short_name() == Some(name)),
        },
    ensures
        container_of(nodes, name, n) == match r {
            Some(i) => if i < n {
                Some(i)
            } else {
                None
            },
            None => None,
        },
    decreases n,
{
    if n > 0 {
        lemma_found_container(nodes, name, r, n - 1);
    }
}

proof fn lemma_starts_prefix(
    l1: Seq<(Service, Option<Seq<char>>, Option<usize>)>,
    l2: Seq<(Service, Option<Seq<char>>, Option<usize>)>,
    k: ServiceListKind,
    depth: usize,
    base: int,
    n: int,
)
    requires
        0 <= n <= l1.len(),
        n <= l2.len(),
        l1.subrange(0, n) == l2.subrange(0, n),
    ensures
        block_start(l1, k, depth, base, n) == block_start(l2, k, depth, base, n),
        list_index_map(l1, k, depth, base, n) == list_index_map(l2, k, depth, base, n),
    decreases n,
{
    if n > 0 {
        assert(l1.subrange(0, n - 1) =~= l1.subrange(0, n).subrange(0, n - 1));
        assert(l2.subrange(0, n - 1) =~= l2.subrange(0, n).subrange(0, n - 1));
        lemma_starts_prefix(l1, l2, k, depth, base, n - 1);
        assert(l1[n - 1] == l1.subrange(0, n)[n - 1]);
        assert(l2[n - 1] == l2.subrange(0, n)[n - 1]);
    }
}

proof fn lemma_block_holds_extend(
    v1: Seq<NodeV>,
    v2: Seq<NodeV>,
    start: int,
    k: ServiceListKind,
    depth: usize,
    s: Service,
    layer: Option<Seq<char>>,
    container: Option<usize>,
)
    requires
        block_holds(v1, start, k, depth, s, layer, container),
        0 <= start,
        start + block_len(k, depth, s) <= v1.len() <= v2.len(),
        v2.subrange(0, v1.len() as int) == v1,
    ensures
        block_holds(v2, start, k, depth, s, layer, container),
{
    if service_display_name(s.info) is Some {
        assert(v2[start] == v1[start]);
        assert(v2.subrange(start + 1, start + block_len(k, depth, s)) =~= v1.subrange(
            start + 1,
            start + block_len(k, depth, s),
        ));
    }
}

proof fn lemma_block_start_grows(
    l: Seq<(Service, Option<Seq<char>>, Option<usize>)>,
    k: ServiceListKind,
    depth: usize,
    base: int,
    j: int,
    n: int,
)
    requires
        0 <= j <= n <= l.len(),
    ensures
        block_start(l, k, depth, base, j) <= block_start(l, k, depth, base, n),
        j < n ==> block_start(l, k, depth, base, j) + block_len(k, depth, l[j].0) <= block_start(l, k, depth, base, n),
        base <= block_start(l, k, depth, base, j),
    decreases n - j,
{
    lemma_start_ge_base(l, k, depth, base, j);
    if j < n {
        lemma_block_start_grows(l, k, depth, base, j, n - 1);
    }
}

proof fn lemma_start_ge_base(
    l: Seq<(Service, Option<Seq<char>>, Option<usize>)>,
    k: ServiceListKind,
    depth: usize,
    base: int,
    j: int,
)
    ensures
        base <= block_start(l, k, depth, base, j),
    decreases j,
{
    if j > 0 {
        lemma_start_ge_base(l, k, depth, base, j - 1);
    }
}

/// What holds while the list is being added: the nodes before the list and
/// its header are kept, the blocks of the entries added so far follow, no
/// container was added, and the map holds the positions of their nodes.
pub open spec fn list_inv(
    nodes: Seq<NodeV>,
    m: Map<Seq<char>, usize>,
    done: Seq<(Service, Option<Seq<char>>, Option<usize>)>,
    k: ServiceListKind,
    depth: usize,
    head: Seq<NodeV>,
) -> bool {
    let h = head.len() - 1;
    &&& head.len() >= 1
    &&& nodes.len() == block_start(done, k, depth, h + 1, done.len() as int)
    &&& nodes.len() >= head.len()
    &&& nodes.subrange(0, head.len() as int) == head
    &&& forall|i: int| h <= i < nodes.len() ==> (#[trigger] nodes[i]).node_type != NodeType::Container
    &&& forall|j: int|
        0 <= j < done.len() ==> block_holds(
            nodes,
            block_start(done, k, depth, h + 1, j),
            k,
            depth,
            (#[trigger] done[j]).0,
            done[j].1,
            done[j].2,
        )
    &&& m == list_index_map(done, k, depth, h + 1, done.len() as int)
}

/// Adds the block of one listed service.
fn add_entry(
    b: &mut TreeBuilder,
    s: &Service,
    layer: Option<&str>,
    k: ServiceListKind,
    depth: usize,
    node_indices: &mut StringHashMap<usize>,
    Ghost(done): Ghost<Seq<(Service, Option<Seq<char>>, Option<usize>)>>,
    Ghost(head): Ghost<Seq<NodeV>>,
)
    requires
        list_inv(nodes_view(old(b).nodes@), old(node_indices)@, done, k, depth, head),
        head[head.len() - 1].node_type != NodeType::Container,
    ensures
        list_inv(
            nodes_view(final(b).nodes@),
            final(node_indices)@,
            done.push(
                (
                    *s,
                    match layer {
                        Some(l) => Some(l@),
                        None => None,
                    },
                    match layer {
                        Some(l) => container_of(head.subrange(0, head.len() - 1), l@, head.len() - 1),
                        None => None,
                    },
                ),
            ),
            k,
            depth,
            head,
        ),
{
    let ghost h = head.len() - 1;
    let ghost before = nodes_view(b.nodes@);
    let ghost layer_v = match layer {
        Some(l) => Some(l@),
        None => None::<Seq<char>>,
    };
    let container = match layer {
        Some(l) => {
            let r = b.find_container_index(l);
            proof {
                let cur = nodes_view(b.nodes@);
                lemma_found_container(cur, l@, r, cur.len() as int);
                assert forall|i: int| 0 <= i < cur.len() implies #[trigger] cur[i].node_type == b.nodes@[i].node_type
                    && cur[i].payload.short_name() == b.nodes@[i].payload@.short_name() by {}
                let old_nodes = head.subrange(0, h);
                assert(cur.subrange(0, old_nodes.len() as int) =~= old_nodes);
                assert forall|i: int| old_nodes.len() <= i < cur.len() implies (#[trigger] cur[i]).node_type
                    != NodeType::Container by {
                    if i == h {
                        assert(cur[i] == head[h]);
                    }
                }
                lemma_container_of_prefix(old_nodes, cur, l@, old_nodes.len() as int);
            }
            r
        },
        None => None,
    };
    let ghost entry = (*s, layer_v, container);
    let ghost m_before = node_indices@;
    let pos = b.next_index();
    if s.info.diag_comm.is_some() {
        let name = view_name_exec(&s.info);
        node_indices.insert(name, pos);
    }
    add_service_block(b, s, k, depth, layer, container);
    proof {
        lemma_list_inv_step(before, nodes_view(b.nodes@), m_before, node_indices@, done, entry, k, depth, head);
    }
}

proof fn lemma_list_inv_step(
    before: Seq<NodeV>,
    v: Seq<NodeV>,
    m_before: Map<Seq<char>, usize>,
    m_after: Map<Seq<char>, usize>,
    done: Seq<(Service, Option<Seq<char>>, Option<usize>)>,
    entry: (Service, Option<Seq<char>>, Option<usize>),
    k: ServiceListKind,
    depth: usize,
    head: Seq<NodeV>,
)
    requires
        list_inv(before, m_before, done, k, depth, head),
        v.len() == before.len() + block_len(k, depth, entry.0),
        v.subrange(0, before.len() as int) == before,
        block_holds(v, before.len() as int, k, depth, entry.0, entry.1, entry.2),
        m_after == if service_display_name(entry.0.info) is Some {
            m_before.insert(view_name(entry.0.info), before.len() as usize)
        } else {
            m_before
        },
        service_display_name(entry.0.info) is Some ==> v[before.len() as int].node_type != NodeType::Container,
    ensures
        list_inv(v, m_after, done.push(entry), k, depth, head),
{
    let h = head.len() - 1;
    let done2 = done.push(entry);
    let start = before.len() as int;
    assert(done2.subrange(0, done.len() as int) =~= done);
    assert(done.subrange(0, done.len() as int) =~= done);
    lemma_starts_prefix(done, done2, k, depth, h + 1, done.len() as int);
    lemma_children_not_container(k, depth, entry.0);
    assert(v.subrange(0, head.len() as int) =~= before.subrange(0, head.len() as int));
    assert forall|i: int| h <= i < v.len() implies (#[trigger] v[i]).node_type != NodeType::Container by {
        if i < start {
            assert(v[i] == before[i]);
        } else if i > start {
            assert(v[i] == v.subrange(start + 1, start + block_len(k, depth, entry.0))[i - start - 1]);
        }
    }
    assert forall|j: int| 0 <= j < done2.len() implies block_holds(
        v,
        block_start(done2, k, depth, h + 1, j),
        k,
        depth,
        (#[trigger] done2[j]).0,
        done2[j].1,
        done2[j].2,
    ) by {
        if j < done.len() {
            assert(done2[j] == done[j]);
            assert(done.subrange(0, j) =~= done2.subrange(0, j));
            lemma_starts_prefix(done, done2, k, depth, h + 1, j);
            lemma_block_start_grows(done, k, depth, h + 1, j, done.len() as int);
            lemma_block_holds_extend(before, v, block_start(done, k, depth, h + 1, j), k, depth, done[j].0, done[j].1, done[j].2);
        }
    }
}

proof fn lemma_block_holds_same_from(
    v1: Seq<NodeV>,
    v2: Seq<NodeV>,
    from: int,
    start: int,
    k: ServiceListKind,
    depth: usize,
    s: Service,
    layer: Option<Seq<char>>,
    container: Option<usize>,
)
    requires
        block_holds(v1, start, k, depth, s, layer, container),
        v1.len() == v2.len(),
        0 <= from <= start,
        start + block_len(k, depth, s) <= v1.len(),
        forall|i: int| from <= i < v1.len() ==> #[trigger] v2[i] == v1[i],
    ensures
        block_holds(v2, start, k, depth, s, layer, container),
{
    if service_display_name(s.info) is Some {
        assert(v2[start] == v1[start]);
        assert(v2.subrange(start + 1, start + block_len(k, depth, s)) =~= v1.subrange(
            start + 1,
            start + block_len(k, depth, s),
        ));
    }
}

fn list_title_exec(k: ServiceListKind) -> (r: &'static str)
    ensures
        r@ == list_title(k),
{
    match k {
        ServiceListKind::Requests => "Requests",
        ServiceListKind::PosResponses => "Pos-Responses",
        ServiceListKind::NegResponses => "Neg-Responses",
    }
}

fn list_type_exec(k: ServiceListKind) -> (r: ServiceListType)
    ensures
        r == list_type(k),
{
    match k {
        ServiceListKind::Requests => ServiceListType::Requests,
        ServiceListKind::PosResponses => ServiceListType::PosResponses,
        ServiceListKind::NegResponses => ServiceListType::NegResponses,
    }
}

/// The nodes `v` are `before` with the list added: unchanged when no
/// service qualifies; else the header, then the block of each listed
/// service in order.
pub open spec fn list_added(
    before: Seq<NodeV>,
    v: Seq<NodeV>,
    own: Seq<Service>,
    parents: Seq<(Service, String)>,
    depth: usize,
    k: ServiceListKind,
) -> bool {
    let h = before.len() as int;
    let l = listed_entries(k, own, parents, before);
    &&& l.len() == 0 ==> v == before
    &&& l.len() > 0 ==> {
        &&& v.len() == block_start(l, k, depth, h + 1, l.len() as int)
        &&& v.subrange(0, h) == before
        &&& v[h] == list_header(k, depth, own, parents, list_index_map(l, k, depth, h + 1, l.len() as int))
        &&& forall|j: int|
            0 <= j < l.len() ==> block_holds(
                v,
                block_start(l, k, depth, h + 1, j),
                k,
                depth,
                (#[trigger] l[j]).0,
                l[j].1,
                l[j].2,
            )
    }
}

/// Adds the Requests list of a layer from its own services and those it
/// inherits (each with the layer it comes from).
pub fn add_requests_section(b: &mut TreeBuilder, own: &Vec<Service>, parents: &Vec<(Service, String)>, depth: usize)
    ensures
        list_added(nodes_view(old(b).nodes@), nodes_view(final(b).nodes@), own@, parents@, depth, ServiceListKind::Requests),
{
    add_service_list(b, own, parents, depth, ServiceListKind::Requests)
}

/// Adds the Pos-Responses list of a layer.
pub fn add_pos_responses_section(b: &mut TreeBuilder, own: &Vec<Service>, parents: &Vec<(Service, String)>, depth: usize)
    ensures
        list_added(nodes_view(old(b).nodes@), nodes_view(final(b).nodes@), own@, parents@, depth, ServiceListKind::PosResponses),
{
    add_service_list(b, own, parents, depth, ServiceListKind::PosResponses)
}

/// Adds the Neg-Responses list of a layer.
pub fn add_neg_responses_section(b: &mut TreeBuilder, own: &Vec<Service>, parents: &Vec<(Service, String)>, depth: usize)
    ensures
        list_added(nodes_view(old(b).nodes@), nodes_view(final(b).nodes@), own@, parents@, depth, ServiceListKind::NegResponses),
{
    add_service_list(b, own, parents, depth, ServiceListKind::NegResponses)
}

/// Adds a service list: a header titled with the number of services that
/// have a request (or a response of the kind), own services first, then
/// inherited ones; each service with its node and the nodes of its
/// parameters; the header's table leads to the service nodes. Nothing is
/// added when no service qualifies.
pub fn add_service_list(
    b: &mut TreeBuilder,
    own: &Vec<Service>,
    parents: &Vec<(Service, String)>,
    depth: usize,
    k: ServiceListKind,
)
    ensures
        list_added(nodes_view(old(b).nodes@), nodes_view(final(b).nodes@), own@, parents@, depth, k),
{
    let ghost old_nodes = nodes_view(b.nodes@);
    let ghost hk = |s: Service| has_kind(k, s);
    let ghost hk_p = |p: (Service, String)| has_kind(k, p.0);
    let ghost to_own = |s: Service| (s, None::<Seq<char>>, None::<usize>);
    let ghost to_par = |p: (Service, String)| (p.0, Some(p.1@), container_of(old_nodes, p.1@, old_nodes.len() as int));
    // Count the listed services.
    let mut own_c: usize = 0;
    let mut i: usize = 0;
    while i < own.len()
        invariant
            i <= own@.len(),
            hk == (|s: Service| has_kind(k, s)),
            own_c == own@.subrange(0, i as int).filter(hk).len(),
        decreases own@.len() - i,
    {
        proof {
            own@.subrange(0, i as int).lemma_filter_push(own@[i as int], hk);
            assert(own@.subrange(0, i as int + 1) =~= own@.subrange(0, i as int).push(own@[i as int]));
        }
        if has_kind_exec(k, &own[i]) {
            own_c = own_c + 1;
        }
        i = i + 1;
    }
    let mut par_c: usize = 0;
    let mut j: usize = 0;
    while j < parents.len()
        invariant
            j <= parents@.len(),
            hk_p == (|p: (Service, String)| has_kind(k, p.0)),
            par_c == parents@.subrange(0, j as int).filter(hk_p).len(),
        decreases parents@.len() - j,
    {
        proof {
            parents@.subrange(0, j as int).lemma_filter_push(parents@[j as int], hk_p);
            assert(parents@.subrange(0, j as int + 1) =~= parents@.subrange(0, j as int).push(parents@[j as int]));
        }
        if has_kind_exec(k, &parents[j].0) {
            par_c = par_c + 1;
        }
        j = j + 1;
    }
    assert(own@.subrange(0, own@.len() as int) =~= own@);
    assert(parents@.subrange(0, parents@.len() as int) =~= parents@);
    let ghost l = listed_entries(k, own@, parents@, old_nodes);
    assert(l.len() == own_c + par_c);
    if own_c == 0 && par_c == 0 {
        return;
    }
    let total = own_c.saturating_add(par_c);
    let header_idx = b.next_index();
    let ghost h = header_idx as int;
    let mut title = list_title_exec(k).to_owned();
    title.append(" (");
    title.append(usize_to_decimal(total).as_str());
    title.append(")");
    let ghost before_header = b.nodes@;
    b.push_service_list_header(depth, title, false, true, Vec::new(), list_type_exec(k));
    proof {
        lemma_nodes_view_push(before_header, b.nodes@.last());
        assert(b.nodes@ == before_header.push(b.nodes@.last()));
    }
    let ghost head = nodes_view(b.nodes@);
    let mut node_indices: StringHashMap<usize> = StringHashMap::new();
    proof {
        assert(head.subrange(0, head.len() as int) =~= head);
        assert(list_inv(head, node_indices@, Seq::empty(), k, depth, head));
        assert(own@.subrange(0, 0).filter(hk).map_values(to_own) =~= Seq::<(Service, Option<Seq<char>>, Option<usize>)>::empty());
    }
    let mut i: usize = 0;
    while i < own.len()
        invariant
            i <= own@.len(),
            hk == (|s: Service| has_kind(k, s)),
            to_own == (|s: Service| (s, None::<Seq<char>>, None::<usize>)),
            head.len() == h + 1,
            head[h].node_type == NodeType::SectionHeader,
            list_inv(nodes_view(b.nodes@), node_indices@, own@.subrange(0, i as int).filter(hk).map_values(to_own), k, depth, head),
        decreases own@.len() - i,
    {
        let ghost done = own@.subrange(0, i as int).filter(hk).map_values(to_own);
        proof {
            lemma_filter_map_step(own@, i as int, hk, to_own);
        }
        if has_kind_exec(k, &own[i]) {
            add_entry(b, &own[i], None, k, depth, &mut node_indices, Ghost(done), Ghost(head));
            proof {
                assert(own@.subrange(0, i as int + 1).filter(hk).map_values(to_own) =~= done.push(to_own(own@[i as int])));
            }
        } else {
            proof {
                assert(own@.subrange(0, i as int + 1).filter(hk).map_values(to_own) =~= done);
            }
        }
        i = i + 1;
    }
    let ghost own_part = own@.filter(hk).map_values(to_own);
    proof {
        assert(own@.subrange(0, own@.len() as int) =~= own@);
        assert(head.subrange(0, h) =~= old_nodes);
        assert(own_part + parents@.subrange(0, 0).filter(hk_p).map_values(to_par) =~= own_part);
    }
    let mut j: usize = 0;
    while j < parents.len()
        invariant
            j <= parents@.len(),
            hk_p == (|p: (Service, String)| has_kind(k, p.0)),
            to_par == (|p: (Service, String)| (p.0, Some(p.1@), container_of(old_nodes, p.1@, old_nodes.len() as int))),
            head.len() == h + 1,
            head.subrange(0, h) == old_nodes,
            head[h].node_type == NodeType::SectionHeader,
            list_inv(
                nodes_view(b.nodes@),
                node_indices@,
                own_part + parents@.subrange(0, j as int).filter(hk_p).map_values(to_par),
                k,
                depth,
                head,
            ),
        decreases parents@.len() - j,
    {
        let ghost done = own_part + parents@.subrange(0, j as int).filter(hk_p).map_values(to_par);
        proof {
            lemma_filter_map_step(parents@, j as int, hk_p, to_par);
        }
        if has_kind_exec(k, &parents[j].0) {
            add_entry(
                b,
                &parents[j].0,
                Some(parents[j].1.as_str()),
                k,
                depth,
                &mut node_indices,
                Ghost(done),
                Ghost(head),
            );
            proof {
                assert(own_part + parents@.subrange(0, j as int + 1).filter(hk_p).map_values(to_par) =~= done.push(
                    to_par(parents@[j as int]),
                ));
            }
        } else {
            proof {
                assert(own_part + parents@.subrange(0, j as int + 1).filter(hk_p).map_values(to_par) =~= done);
            }
        }
        j = j + 1;
    }
    proof {
        assert(parents@.subrange(0, parents@.len() as int) =~= parents@);
        assert(own_part + parents@.filter(hk_p).map_values(to_par) =~= l);
    }
    let table = build_list_table(own, parents, k, &node_indices);
    let ghost before_set = nodes_view(b.nodes@);
    b.set_detail_sections(header_idx, vec![table]);
    proof {
        let v = nodes_view(b.nodes@);
        assert forall|x: int| h + 1 <= x < v.len() implies #[trigger] v[x] == before_set[x] by {}
        assert(v.subrange(0, h) =~= before_set.subrange(0, h));
        assert(before_set.subrange(0, h) =~= head.subrange(0, h));
        assert(v[h].detail_sections =~= list_header(k, depth, own@, parents@, node_indices@).detail_sections);
        assert(v[h] == list_header(k, depth, own@, parents@, node_indices@));
        assert forall|jj: int| 0 <= jj < l.len() implies block_holds(
            v,
            block_start(l, k, depth, h + 1, jj),
            k,
            depth,
            (#[trigger] l[jj]).0,
            l[jj].1,
            l[jj].2,
        ) by {
            lemma_block_start_grows(l, k, depth, h + 1, jj, l.len() as int);
            lemma_block_holds_same_from(before_set, v, h + 1, block_start(l, k, depth, h + 1, jj), k, depth, l[jj].0, l[jj].1, l[jj].2);
        }
    }
}

} // verus!
