//! Plain-text renderings of a loaded tree, as the tool server answers them:
//! node listings, node details, search results and diff listings.
use vstd::prelude::*;
use crate::diff::compare::{join, join_strings};
use crate::text::{
    chars_of, contains, contains_exec, decimal, fill, fill_string, lowercase, repeat, repeat_str,
    to_lower, usize_to_decimal,
};
use crate::tree::types::{
    CellV, ContentV, DetailCell, DetailContent, DetailRow, DetailRowType, DetailSectionData,
    DiffStatus, NodeType, NodeV, RowV, SectionV, TreeNode, cells_view, content_view, nodes_view,
    rows_view, section_view, sections_view, strings_view,
};

verus! {

broadcast use vstd::std_specs::vec::group_vec_axioms;

// Names and tags
/// The short tag of a node type in listings.
pub open spec fn type_tag(nt: NodeType) -> Seq<char> {
    match nt {
        NodeType::Container => "[+]"@,
        NodeType::SectionHeader => "[#]"@,
        NodeType::Service | NodeType::ParentRefService => "[S]"@,
        NodeType::Request => "[Rq]"@,
        NodeType::PosResponse => "[R+]"@,
        NodeType::NegResponse => "[R-]"@,
        NodeType::Dop | NodeType::DopNormal => "[DOP]"@,
        NodeType::DopDtc => "[DTC]"@,
        NodeType::DopStructure => "[STRC]"@,
        NodeType::DopStaticField => "[SF]"@,
        NodeType::DopDynamic => "[DYN]"@,
        NodeType::DopEndOfPdu => "[EOP]"@,
        NodeType::DopMux => "[MUX]"@,
        NodeType::DopEnvData => "[ENV]"@,
        NodeType::DopEnvDataDesc => "[EDD]"@,
        NodeType::Job => "[J]"@,
        NodeType::FunctionalClass => "[FC]"@,
        NodeType::Sdg => "[SDG]"@,
        NodeType::ParentRefs => "[PR]"@,
        NodeType::Default => "[-]"@,
    }
}

/// Short tag for a node type, used in tree listings.
pub fn node_type_tag(nt: NodeType) -> (r: &'static str)
    ensures
        r@ == type_tag(nt),
{
    match nt {
        NodeType::Container => "[+]",
        NodeType::SectionHeader => "[#]",
        NodeType::Service | NodeType::ParentRefService => "[S]",
        NodeType::Request => "[Rq]",
        NodeType::PosResponse => "[R+]",
        NodeType::NegResponse => "[R-]",
        NodeType::Dop | NodeType::DopNormal => "[DOP]",
        NodeType::DopDtc => "[DTC]",
        NodeType::DopStructure => "[STRC]",
        NodeType::DopStaticField => "[SF]",
        NodeType::DopDynamic => "[DYN]",
        NodeType::DopEndOfPdu => "[EOP]",
        NodeType::DopMux => "[MUX]",
        NodeType::DopEnvData => "[ENV]",
        NodeType::DopEnvDataDesc => "[EDD]",
        NodeType::Job => "[J]",
        NodeType::FunctionalClass => "[FC]",
        NodeType::Sdg => "[SDG]",
        NodeType::ParentRefs => "[PR]",
        NodeType::Default => "[-]",
    }
}

/// The name of a node type, as its variant is spelled.
pub open spec fn kind_name(nt: NodeType) -> Seq<char> {
    match nt {
        NodeType::Container => "Container"@,
        NodeType::SectionHeader => "SectionHeader"@,
        NodeType::Service => "Service"@,
        NodeType::ParentRefService => "ParentRefService"@,
        NodeType::ParentRefs => "ParentRefs"@,
        NodeType::Request => "Request"@,
        NodeType::PosResponse => "PosResponse"@,
        NodeType::NegResponse => "NegResponse"@,
        NodeType::FunctionalClass => "FunctionalClass"@,
        NodeType::Job => "Job"@,
        NodeType::Dop => "Dop"@,
        NodeType::Sdg => "Sdg"@,
        NodeType::DopNormal => "DopNormal"@,
        NodeType::DopDtc => "DopDtc"@,
        NodeType::DopStructure => "DopStructure"@,
        NodeType::DopStaticField => "DopStaticField"@,
        NodeType::DopDynamic => "DopDynamic"@,
        NodeType::DopEndOfPdu => "DopEndOfPdu"@,
        NodeType::DopMux => "DopMux"@,
        NodeType::DopEnvData => "DopEnvData"@,
        NodeType::DopEnvDataDesc => "DopEnvDataDesc"@,
        NodeType::Default => "Default"@,
    }
}

/// The name of a node type, as its variant is spelled.
pub fn node_kind_name(nt: NodeType) -> (r: &'static str)
    ensures
        r@ == kind_name(nt),
{
    match nt {
        NodeType::Container => "Container",
        NodeType::SectionHeader => "SectionHeader",
        NodeType::Service => "Service",
        NodeType::ParentRefService => "ParentRefService",
        NodeType::ParentRefs => "ParentRefs",
        NodeType::Request => "Request",
        NodeType::PosResponse => "PosResponse",
        NodeType::NegResponse => "NegResponse",
        NodeType::FunctionalClass => "FunctionalClass",
        NodeType::Job => "Job",
        NodeType::Dop => "Dop",
        NodeType::Sdg => "Sdg",
        NodeType::DopNormal => "DopNormal",
        NodeType::DopDtc => "DopDtc",
        NodeType::DopStructure => "DopStructure",
        NodeType::DopStaticField => "DopStaticField",
        NodeType::DopDynamic => "DopDynamic",
        NodeType::DopEndOfPdu => "DopEndOfPdu",
        NodeType::DopMux => "DopMux",
        NodeType::DopEnvData => "DopEnvData",
        NodeType::DopEnvDataDesc => "DopEnvDataDesc",
        NodeType::Default => "Default",
    }
}

pub open spec fn status_name(s: DiffStatus) -> Seq<char> {
    match s {
        DiffStatus::Added => "Added"@,
        DiffStatus::Removed => "Removed"@,
        DiffStatus::Modified => "Modified"@,
        DiffStatus::Unchanged => "Unchanged"@,
    }
}

/// The name of a diff status, as its variant is spelled.
pub fn diff_status_name(s: DiffStatus) -> (r: &'static str)
    ensures
        r@ == status_name(s),
{
    match s {
        DiffStatus::Added => "Added",
        DiffStatus::Removed => "Removed",
        DiffStatus::Modified => "Modified",
        DiffStatus::Unchanged => "Unchanged",
    }
}

/// The two-character marker of a node in a diff listing.
pub open spec fn status_marker(s: Option<DiffStatus>) -> Seq<char> {
    match s {
        Some(DiffStatus::Added) => "+ "@,
        Some(DiffStatus::Removed) => "- "@,
        Some(DiffStatus::Modified) => "~ "@,
        _ => "  "@,
    }
}

pub fn diff_marker(s: Option<DiffStatus>) -> (r: &'static str)
    ensures
        r@ == status_marker(s),
{
    match s {
        Some(DiffStatus::Added) => "+ ",
        Some(DiffStatus::Removed) => "- ",
        Some(DiffStatus::Modified) => "~ ",
        _ => "  ",
    }
}

// Parent paths
/// Following parent links from `cur` reaches a missing link (no parent, or
/// a position past the end) within `n` steps.
pub open spec fn chain_ends(nodes: Seq<NodeV>, cur: Option<usize>, n: nat) -> bool
    decreases n,
{
    match cur {
        None => true,
        Some(idx) => if idx >= nodes.len() {
            true
        } else if n == 0 {
            false
        } else {
            chain_ends(nodes, nodes[idx as int].parent_idx, (n - 1) as nat)
        },
    }
}

/// The positions visited when following parent links from `cur` (at most
/// `n` of them).
pub open spec fn chain_of(nodes: Seq<NodeV>, cur: Option<usize>, n: nat) -> Seq<int>
    decreases n,
{
    match cur {
        None => Seq::empty(),
        Some(idx) => if idx >= nodes.len() || n == 0 {
            Seq::empty()
        } else {
            seq![idx as int] + chain_of(nodes, nodes[idx as int].parent_idx, (n - 1) as nat)
        },
    }
}

/// The parent of the node at `i`, if `i` is a position.
pub open spec fn parent_of(nodes: Seq<NodeV>, i: int) -> Option<usize> {
    if 0 <= i < nodes.len() {
        nodes[i].parent_idx
    } else {
        None
    }
}

/// The walk up from the node at `i` ends (it does when parents precede
/// their children).
pub open spec fn path_ends(nodes: Seq<NodeV>, i: int) -> bool {
    chain_ends(nodes, parent_of(nodes, i), nodes.len())
}

pub open spec fn crumb(nodes: Seq<NodeV>, idx: int) -> Seq<char> {
    "["@ + decimal(idx as nat) + "] "@ + nodes[idx].text
}

/// The ancestors of the node at `i`, root first, as `[index] text`
/// separated by ` > `.
pub open spec fn parent_path(nodes: Seq<NodeV>, i: int) -> Seq<char> {
    join(
        chain_of(nodes, parent_of(nodes, i), nodes.len()).reverse().map_values(|idx: int| crumb(nodes, idx)),
        " > "@,
    )
}

fn crumb_exec(nodes: &Vec<TreeNode>, idx: usize) -> (r: String)
    requires
        idx < nodes@.len(),
    ensures
        r@ == crumb(nodes_view(nodes@), idx as int),
{
    let mut r = "[".to_owned();
    r.append(usize_to_decimal(idx).as_str());
    r.append("] ");
    r.append(nodes[idx].text.as_str());
    r
}

/// The breadcrumb of a node: its ancestors found by following parent links.
pub fn build_parent_path(nodes: &Vec<TreeNode>, node_index: usize) -> (r: String)
    requires
        path_ends(nodes_view(nodes@), node_index as int),
    ensures
        r@ == parent_path(nodes_view(nodes@), node_index as int),
{
    let ghost nv = nodes_view(nodes@);
    let ghost full = chain_of(nv, parent_of(nv, node_index as int), nv.len());
    let mut current = if node_index < nodes.len() {
        nodes[node_index].parent_idx
    } else {
        None
    };
    let ghost mut fuel: nat = nv.len();
    let ghost mut visited: Seq<int> = Seq::empty();
    let mut ancestors: Vec<String> = Vec::new();
    loop
        invariant
            nv == nodes_view(nodes@),
            chain_ends(nv, current, fuel),
            full == visited + chain_of(nv, current, fuel),
            ancestors@.len() == visited.len(),
            forall|j: int| 0 <= j < visited.len() ==> 0 <= #[trigger] visited[j] < nv.len(),
            forall|j: int| 0 <= j < visited.len() ==> (#[trigger] ancestors@[j])@ == crumb(nv, visited[j]),
        ensures
            full == visited,
            ancestors@.len() == visited.len(),
            forall|j: int| 0 <= j < visited.len() ==> (#[trigger] ancestors@[j])@ == crumb(nv, visited[j]),
        decreases fuel,
    {
        let idx = match current {
            Some(i) => i,
            None => {
                assert(visited + chain_of(nv, current, fuel) =~= visited);
                break;
            },
        };
        if idx >= nodes.len() {
            assert(visited + chain_of(nv, current, fuel) =~= visited);
            break;
        }
        let c = crumb_exec(nodes, idx);
        proof {
            visited = visited.push(idx as int);
            fuel = (fuel - 1) as nat;
            assert(full =~= visited + chain_of(nv, nodes@[idx as int].parent_idx, fuel));
        }
        ancestors.push(c);
        current = nodes[idx].parent_idx;
    }
    let mut reversed: Vec<String> = Vec::new();
    let mut k = ancestors.len();
    while k > 0
        invariant
            k <= ancestors@.len(),
            reversed@.len() == ancestors@.len() - k,
            forall|j: int| 0 <= j < reversed@.len() ==> (#[trigger] reversed@[j])@ == ancestors@[ancestors@.len() - 1 - j]@,
        decreases k,
    {
        k = k - 1;
        reversed.push(ancestors[k].clone());
    }
    assert(strings_view(reversed@) =~= full.reverse().map_values(|idx: int| crumb(nv, idx)));
    join_strings(&reversed, " > ")
}

// Listings
/// `[i] text` lines of the top-level nodes among the first `n`.
pub open spec fn top_level_lines(nodes: Seq<NodeV>, n: int) -> Seq<char>
    decreases n,
{
    if n <= 0 {
        Seq::empty()
    } else {
        top_level_lines(nodes, n - 1) + if nodes[n - 1].depth == 0 {
            "\n  ["@ + decimal((n - 1) as nat) + "] "@ + nodes[n - 1].text
        } else {
            Seq::empty()
        }
    }
}

/// What loading a database answers.
pub open spec fn load_summary_text(path: Seq<char>, ecu_name: Seq<char>, nodes: Seq<NodeV>) -> Seq<char> {
    "Loaded: "@ + path + "\nECU: "@ + ecu_name + "\nTotal nodes: "@ + decimal(nodes.len()) + "\n\nTop-level sections:"@
        + top_level_lines(nodes, nodes.len() as int)
}

/// The summary of a loaded database: path, ECU, node count and the
/// top-level nodes.
pub fn load_summary(path: &str, ecu_name: &str, nodes: &Vec<TreeNode>) -> (r: String)
    ensures
        r@ == load_summary_text(path@, ecu_name@, nodes_view(nodes@)),
{
    let ghost nv = nodes_view(nodes@);
    let mut r = "Loaded: ".to_owned();
    r.append(path);
    r.append("\nECU: ");
    r.append(ecu_name);
    r.append("\nTotal nodes: ");
    r.append(usize_to_decimal(nodes.len()).as_str());
    r.append("\n\nTop-level sections:");
    let ghost head = r@;
    let mut i: usize = 0;
    while i < nodes.len()
        invariant
            0 <= i <= nodes@.len(),
            nv == nodes_view(nodes@),
            r@ == head + top_level_lines(nv, i as int),
        decreases nodes@.len() - i,
    {
        assert(nv[i as int] == nodes@[i as int]@);
        if nodes[i].depth == 0 {
            r.append("\n  [");
            r.append(usize_to_decimal(i).as_str());
            r.append("] ");
            r.append(nodes[i].text.as_str());
        }
        i = i + 1;
    }
    r
}

/// The first position from `j` on whose node is not deeper than `depth`.
pub open spec fn stop_at(nodes: Seq<NodeV>, depth: usize, j: int) -> int
    decreases nodes.len() - j,
{
    if j >= nodes.len() {
        nodes.len() as int
    } else if nodes[j].depth <= depth {
        j
    } else {
        stop_at(nodes, depth, j + 1)
    }
}

pub open spec fn relative_depth(nodes: Seq<NodeV>, i: int, start_depth: usize) -> int {
    if nodes[i].depth >= start_depth {
        nodes[i].depth - start_depth
    } else {
        0
    }
}

/// The listing line of the node at `i`.
pub open spec fn browse_line(nodes: Seq<NodeV>, i: int, start_depth: usize) -> Seq<char> {
    repeat("  "@, relative_depth(nodes, i, start_depth) as nat) + type_tag(nodes[i].node_type) + " ["@
        + decimal(i as nat) + "] "@ + nodes[i].text + (if nodes[i].has_children {
        " ..."@
    } else {
        Seq::empty()
    }) + "\n"@
}

/// The lines of the nodes in `[start, n)` not deeper than `max_depth`
/// below the start.
pub open spec fn browse_lines(nodes: Seq<NodeV>, start: int, start_depth: usize, max_depth: usize, n: int) -> Seq<char>
    decreases n,
{
    if n <= start || n <= 0 {
        Seq::empty()
    } else {
        browse_lines(nodes, start, start_depth, max_depth, n - 1) + if relative_depth(nodes, n - 1, start_depth)
            <= max_depth {
            browse_line(nodes, n - 1, start_depth)
        } else {
            Seq::empty()
        }
    }
}

/// The listing of the subtree at `start_index` (the whole tree by default),
/// down to `max_depth` levels below it.
pub open spec fn browse_text(nodes: Seq<NodeV>, max_depth: Option<usize>, start_index: Option<usize>) -> Seq<char> {
    let s: int = match start_index {
        Some(x) => x as int,
        None => 0,
    };
    let md = match max_depth {
        Some(m) => m,
        None => usize::MAX,
    };
    let body = if s < nodes.len() {
        browse_lines(nodes, s, nodes[s].depth, md, stop_at(nodes, nodes[s].depth, s + 1))
    } else {
        Seq::empty()
    };
    if body.len() == 0 {
        "No nodes found at the specified location."@
    } else {
        body
    }
}

proof fn lemma_stop_at_step(nodes: Seq<NodeV>, depth: usize, j: int)
    requires
        0 <= j < nodes.len(),
        nodes[j].depth > depth,
    ensures
        stop_at(nodes, depth, j) == stop_at(nodes, depth, j + 1),
{
}

/// The tree listing a browsing tool answers.
pub fn browse_tree_text(nodes: &Vec<TreeNode>, max_depth: Option<usize>, start_index: Option<usize>) -> (r: String)
    ensures
        r@ == browse_text(nodes_view(nodes@), max_depth, start_index),
{
    let ghost nv = nodes_view(nodes@);
    let md = match max_depth {
        Some(m) => m,
        None => usize::MAX,
    };
    let start = match start_index {
        Some(x) => x,
        None => 0,
    };
    let mut out = String::new();
    if start < nodes.len() {
        let sd = nodes[start].depth;
        assert(nv[start as int].depth == sd);
        let mut i = start;
        while i < nodes.len()
            invariant
                start <= i <= nodes@.len(),
                start < nodes@.len(),
                nv == nodes_view(nodes@),
                sd == nv[start as int].depth,
                i == start || stop_at(nv, sd, start + 1) == stop_at(nv, sd, i as int),
                out@ == browse_lines(nv, start as int, sd, md, i as int),
            ensures
                out@ == browse_lines(nv, start as int, sd, md, stop_at(nv, sd, start + 1)),
            decreases nodes@.len() - i,
        {
            let d = nodes[i].depth;
            assert(nv[i as int] == nodes@[i as int]@);
            if i > start && d <= sd {
                break;
            }
            if i > start {
                proof {
                    lemma_stop_at_step(nv, sd, i as int);
                }
            }
            let rel = d.saturating_sub(sd);
            assert(rel == relative_depth(nv, i as int, sd));
            let ghost before = out@;
            if rel <= md {
                out.append(repeat_str("  ", rel).as_str());
                out.append(node_type_tag(nodes[i].node_type));
                out.append(" [");
                out.append(usize_to_decimal(i).as_str());
                out.append("] ");
                out.append(nodes[i].text.as_str());
                if nodes[i].has_children {
                    out.append(" ...");
                }
                out.append("\n");
                assert(out@ =~= before + browse_line(nv, i as int, sd));
            }
            assert(browse_lines(nv, start as int, sd, md, i + 1) == before + if relative_depth(nv, i as int, sd) <= md {
                browse_line(nv, i as int, sd)
            } else {
                Seq::empty()
            });
            i = i + 1;
        }
    }
    if out.as_str().is_empty() {
        "No nodes found at the specified location.".to_owned()
    } else {
        out
    }
}

/// Diff listing lines of the first `n` nodes not deeper than `max_depth`.
pub open spec fn diff_lines(nodes: Seq<NodeV>, max_depth: usize, n: int) -> Seq<char>
    decreases n,
{
    if n <= 0 {
        Seq::empty()
    } else {
        diff_lines(nodes, max_depth, n - 1) + if nodes[n - 1].depth <= max_depth {
            status_marker(nodes[n - 1].diff_status) + repeat("  "@, nodes[n - 1].depth as nat) + "["@
                + decimal((n - 1) as nat) + "] "@ + nodes[n - 1].text + "\n"@
        } else {
            Seq::empty()
        }
    }
}

pub open spec fn diff_listing_text(
    old_path: Seq<char>,
    new_path: Seq<char>,
    ecu_name: Seq<char>,
    nodes: Seq<NodeV>,
    max_depth: Option<usize>,
) -> Seq<char> {
    "Diff: "@ + old_path + " (old) vs "@ + new_path + " (new)\nECU: "@ + ecu_name + "\n\n"@ + diff_lines(
        nodes,
        match max_depth {
            Some(m) => m,
            None => usize::MAX,
        },
        nodes.len() as int,
    )
}

/// The listing of a diff tree with change markers.
pub fn diff_listing(
    old_path: &str,
    new_path: &str,
    ecu_name: &str,
    nodes: &Vec<TreeNode>,
    max_depth: Option<usize>,
) -> (r: String)
    ensures
        r@ == diff_listing_text(old_path@, new_path@, ecu_name@, nodes_view(nodes@), max_depth),
{
    let ghost nv = nodes_view(nodes@);
    let md = match max_depth {
        Some(m) => m,
        None => usize::MAX,
    };
    let mut r = "Diff: ".to_owned();
    r.append(old_path);
    r.append(" (old) vs ");
    r.append(new_path);
    r.append(" (new)\nECU: ");
    r.append(ecu_name);
    r.append("\n\n");
    let ghost head = r@;
    let mut i: usize = 0;
    while i < nodes.len()
        invariant
            0 <= i <= nodes@.len(),
            nv == nodes_view(nodes@),
            r@ == head + diff_lines(nv, md, i as int),
        decreases nodes@.len() - i,
    {
        let n = &nodes[i];
        assert(nv[i as int] == nodes@[i as int]@);
        if n.depth <= md {
            r.append(diff_marker(n.diff_status));
            r.append(repeat_str("  ", n.depth).as_str());
            r.append("[");
            r.append(usize_to_decimal(i).as_str());
            r.append("] ");
            r.append(n.text.as_str());
            r.append("\n");
        }
        i = i + 1;
    }
    r
}

// Search
/// The line of a search hit: position, text, type and, when it has
/// ancestors, its path.
pub open spec fn search_line(nodes: Seq<NodeV>, i: int) -> Seq<char> {
    let p = parent_path(nodes, i);
    if p.len() == 0 {
        "["@ + decimal(i as nat) + "] "@ + nodes[i].text + " (type:"@ + kind_name(nodes[i].node_type) + ")"@
    } else {
        "["@ + decimal(i as nat) + "] "@ + nodes[i].text + " (type:"@ + kind_name(nodes[i].node_type)
            + ", path: "@ + p + ")"@
    }
}

/// The hit lines among the first `n` nodes for a lower-cased query.
pub open spec fn search_lines(nodes: Seq<NodeV>, q: Seq<char>, n: int) -> Seq<Seq<char>>
    decreases n,
{
    if n <= 0 {
        Seq::empty()
    } else {
        search_lines(nodes, q, n - 1) + if contains(lowercase(nodes[n - 1].text), q) {
            seq![search_line(nodes, n - 1)]
        } else {
            Seq::empty()
        }
    }
}

/// The walk up from every node whose lower-cased text holds `q` ends.
pub open spec fn matching_paths_end(nodes: Seq<NodeV>, q: Seq<char>) -> bool {
    forall|i: int| 0 <= i < nodes.len() && contains(lowercase(nodes[i].text), q) ==> #[trigger] path_ends(nodes, i)
}

/// What a search answers: the nodes whose lower-cased text holds the
/// lower-cased query.
pub open spec fn search_text(nodes: Seq<NodeV>, query: Seq<char>) -> Seq<char> {
    let hits = search_lines(nodes, lowercase(query), nodes.len() as int);
    if hits.len() == 0 {
        "No nodes matching \""@ + query + "\""@
    } else {
        "Found "@ + decimal(hits.len()) + " matches:\n"@ + join(hits, "\n"@)
    }
}

/// Every walk up the parent links ends.
pub open spec fn all_paths_end(nodes: Seq<NodeV>) -> bool {
    forall|i: int| 0 <= i < nodes.len() ==> #[trigger] path_ends(nodes, i)
}

fn search_line_exec(nodes: &Vec<TreeNode>, i: usize) -> (r: String)
    requires
        i < nodes@.len(),
        path_ends(nodes_view(nodes@), i as int),
    ensures
        r@ == search_line(nodes_view(nodes@), i as int),
{
    let p = build_parent_path(nodes, i);
    let mut r = "[".to_owned();
    r.append(usize_to_decimal(i).as_str());
    r.append("] ");
    r.append(nodes[i].text.as_str());
    r.append(" (type:");
    r.append(node_kind_name(nodes[i].node_type));
    if !p.as_str().is_empty() {
        r.append(", path: ");
        r.append(p.as_str());
    }
    r.append(")");
    r
}

/// Whether the walk up the parent links from node `i` ends.
pub fn path_ends_exec(nodes: &Vec<TreeNode>, i: usize) -> (r: bool)
    ensures
        r == path_ends(nodes_view(nodes@), i as int),
{
    let ghost nv = nodes_view(nodes@);
    let mut cur = if i < nodes.len() {
        nodes[i].parent_idx
    } else {
        None
    };
    assert(cur == parent_of(nv, i as int));
    let mut fuel: usize = nodes.len();
    loop
        invariant
            nv == nodes_view(nodes@),
            fuel <= nv.len(),
            path_ends(nv, i as int) == chain_ends(nv, cur, fuel as nat),
        decreases fuel,
    {
        match cur {
            None => {
                return true;
            },
            Some(idx) => {
                if idx >= nodes.len() {
                    return true;
                }
                if fuel == 0 {
                    return false;
                }
                assert(nv[idx as int].parent_idx == nodes@[idx as int].parent_idx);
                cur = nodes[idx].parent_idx;
                fuel = fuel - 1;
            },
        }
    }
}

/// Search the node texts, ignoring case, when the walk up from every
/// matching node ends; `None` when one runs in a cycle.
pub fn search_nodes_checked(nodes: &Vec<TreeNode>, query: &str) -> (r: Option<String>)
    ensures
        r is Some <==> matching_paths_end(nodes_view(nodes@), lowercase(query@)),
        r matches Some(t) ==> t@ == search_text(nodes_view(nodes@), query@),
{
    let ghost nv = nodes_view(nodes@);
    let q = to_lower(query);
    let qc = chars_of(q.as_str());
    let mut i: usize = 0;
    while i < nodes.len()
        invariant
            0 <= i <= nodes@.len(),
            nv == nodes_view(nodes@),
            qc@ == lowercase(query@),
            forall|j: int| 0 <= j < i && contains(lowercase(nv[j].text), qc@) ==> #[trigger] path_ends(nv, j),
        decreases nodes@.len() - i,
    {
        let t = to_lower(nodes[i].text.as_str());
        let tc = chars_of(t.as_str());
        assert(nv[i as int].text == nodes@[i as int].text@);
        if contains_exec(tc.as_slice(), qc.as_slice()) {
            if !path_ends_exec(nodes, i) {
                assert(!matching_paths_end(nv, qc@));
                return None;
            }
        }
        i = i + 1;
    }
    Some(search_nodes_text(nodes, query))
}

/// Search the node texts, ignoring case.
pub fn search_nodes_text(nodes: &Vec<TreeNode>, query: &str) -> (r: String)
    requires
        matching_paths_end(nodes_view(nodes@), lowercase(query@)),
    ensures
        r@ == search_text(nodes_view(nodes@), query@),
{
    let ghost nv = nodes_view(nodes@);
    let q = to_lower(query);
    let qc = chars_of(q.as_str());
    let mut hits: Vec<String> = Vec::new();
    let mut i: usize = 0;
    while i < nodes.len()
        invariant
            0 <= i <= nodes@.len(),
            nv == nodes_view(nodes@),
            qc@ == lowercase(query@),
            matching_paths_end(nv, qc@),
            strings_view(hits@) == search_lines(nv, qc@, i as int),
        decreases nodes@.len() - i,
    {
        let t = to_lower(nodes[i].text.as_str());
        let tc = chars_of(t.as_str());
        let ghost before = hits@;
        if contains_exec(tc.as_slice(), qc.as_slice()) {
            assert(path_ends(nv, i as int));
            let line = search_line_exec(nodes, i);
            hits.push(line);
            assert(strings_view(hits@) =~= strings_view(before).push(search_line(nv, i as int)));
        }
        assert(nv[i as int].text == nodes@[i as int].text@);
        i = i + 1;
    }
    if hits.len() == 0 {
        let mut r = "No nodes matching \"".to_owned();
        r.append(query);
        r.append("\"");
        r
    } else {
        let mut r = "Found ".to_owned();
        r.append(usize_to_decimal(hits.len()).as_str());
        r.append(" matches:\n");
        r.append(join_strings(&hits, "\n").as_str());
        r
    }
}

// Node details
pub open spec fn cell_texts(cells: Seq<CellV>) -> Seq<Seq<char>> {
    cells.map_values(|c: CellV| c.text)
}

/// The width of a header's rule under a cell: its length in bytes, at least 3.
pub open spec fn rule_width(c: CellV) -> nat {
    let n = vstd::utf8::encode_utf8(c.text).len();
    if n > 3 {
        n
    } else {
        3
    }
}

pub open spec fn header_rule(cells: Seq<CellV>) -> Seq<char> {
    join(cells.map_values(|c: CellV| fill('-', rule_width(c))), "-+-"@)
}

pub open spec fn row_mark(s: Option<DiffStatus>) -> Seq<char> {
    match s {
        Some(DiffStatus::Added) => "+ "@,
        Some(DiffStatus::Removed) => "- "@,
        Some(DiffStatus::Modified) => "~ "@,
        _ => Seq::empty(),
    }
}

pub open spec fn row_line(prefix: Seq<char>, r: RowV) -> Seq<char> {
    prefix + row_mark(r.diff_status) + repeat("  "@, r.indent as nat) + join(cell_texts(r.cells), " | "@) + "\n"@
}

pub open spec fn rows_text(prefix: Seq<char>, rows: Seq<RowV>) -> Seq<char>
    decreases rows.len(),
{
    if rows.len() == 0 {
        Seq::empty()
    } else {
        rows_text(prefix, rows.drop_last()) + row_line(prefix, rows.last())
    }
}

pub open spec fn lines_text(prefix: Seq<char>, lines: Seq<Seq<char>>) -> Seq<char>
    decreases lines.len(),
{
    if lines.len() == 0 {
        Seq::empty()
    } else {
        lines_text(prefix, lines.drop_last()) + prefix + lines.last() + "\n"@
    }
}

pub open spec fn next_indent(indent: usize) -> usize {
    if indent == usize::MAX {
        usize::MAX
    } else {
        (indent + 1) as usize
    }
}

/// Detail content as text: plain lines, a table (header, rule and rows,
/// cells separated by ` | `), or titled subsections one level deeper.
pub open spec fn content_text(c: ContentV, indent: usize) -> Seq<char>
    decreases c, 0int,
{
    let prefix = repeat("  "@, indent as nat);
    match c {
        ContentV::PlainText(lines) => lines_text(prefix, lines),
        ContentV::Table { header, rows, .. } => (if header.cells.len() > 0 {
            prefix + join(cell_texts(header.cells), " | "@) + "\n"@ + prefix + header_rule(header.cells) + "\n"@
        } else {
            Seq::empty()
        }) + rows_text(prefix, rows),
        ContentV::Composite(subs) => composite_text(subs, indent, subs.len() as int),
    }
}

pub open spec fn composite_text(subs: Seq<SectionV>, indent: usize, n: int) -> Seq<char>
    decreases subs, n,
{
    if n <= 0 || n > subs.len() {
        Seq::empty()
    } else {
        composite_text(subs, indent, n - 1) + repeat("  "@, indent as nat) + "["@ + subs[n - 1].title + "]\n"@
            + content_text(subs[n - 1].content, next_indent(indent))
    }
}

fn cells_line(cells: &Vec<DetailCell>) -> (r: String)
    ensures
        r@ == join(cell_texts(cells_view(cells@)), " | "@),
{
    let mut parts: Vec<String> = Vec::new();
    let mut i: usize = 0;
    while i < cells.len()
        invariant
            0 <= i <= cells@.len(),
            parts@.len() == i,
            forall|j: int| 0 <= j < i ==> (#[trigger] parts@[j])@ == cells@[j].text@,
        decreases cells@.len() - i,
    {
        parts.push(cells[i].text.clone());
        i = i + 1;
    }
    assert(strings_view(parts@) =~= cell_texts(cells_view(cells@)));
    join_strings(&parts, " | ")
}

fn rule_line(cells: &Vec<DetailCell>) -> (r: String)
    ensures
        r@ == header_rule(cells_view(cells@)),
{
    let ghost cv = cells_view(cells@);
    let mut parts: Vec<String> = Vec::new();
    let mut i: usize = 0;
    while i < cells.len()
        invariant
            0 <= i <= cells@.len(),
            cv == cells_view(cells@),
            parts@.len() == i,
            forall|j: int| 0 <= j < i ==> (#[trigger] parts@[j])@ == fill('-', rule_width(cv[j])),
        decreases cells@.len() - i,
    {
        let b = cells[i].text.as_str().as_bytes();
        let n = b.len();
        let w = if n > 3 {
            n
        } else {
            3
        };
        proof {
            assert(cv[i as int].text == cells@[i as int].text@);
        }
        parts.push(fill_string('-', w));
        i = i + 1;
    }
    assert(strings_view(parts@) =~= cv.map_values(|c: CellV| fill('-', rule_width(c))));
    join_strings(&parts, "-+-")
}

fn row_mark_exec(s: Option<DiffStatus>) -> (r: &'static str)
    ensures
        r@ == row_mark(s),
{
    match s {
        Some(DiffStatus::Added) => "+ ",
        Some(DiffStatus::Removed) => "- ",
        Some(DiffStatus::Modified) => "~ ",
        _ => {
            proof {
                reveal_strlit("");
            }
            ""
        },
    }
}

/// Append detail content as text.
pub fn format_detail_content(content: &DetailContent, output: &mut String, indent: usize)
    ensures
        final(output)@ == old(output)@ + content_text(content@, indent),
    decreases content,
{
    let prefix = repeat_str("  ", indent);
    match content {
        DetailContent::PlainText(lines) => {
            let ghost start = output@;
            let mut i: usize = 0;
            while i < lines.len()
                invariant
                    0 <= i <= lines@.len(),
                    output@ == start + lines_text(prefix@, strings_view(lines@).subrange(0, i as int)),
                decreases lines@.len() - i,
            {
                output.append(prefix.as_str());
                output.append(lines[i].as_str());
                output.append("\n");
                proof {
                    let sub = strings_view(lines@).subrange(0, i + 1);
                    assert(sub.drop_last() =~= strings_view(lines@).subrange(0, i as int));
                }
                i = i + 1;
            }
            assert(strings_view(lines@).subrange(0, i as int) =~= strings_view(lines@));
        },
        DetailContent::Table { header, rows, .. } => {
            let ghost start = output@;
            if header.cells.len() > 0 {
                output.append(prefix.as_str());
                output.append(cells_line(&header.cells).as_str());
                output.append("\n");
                output.append(prefix.as_str());
                output.append(rule_line(&header.cells).as_str());
                output.append("\n");
            }
            let ghost mid = output@;
            let mut i: usize = 0;
            while i < rows.len()
                invariant
                    0 <= i <= rows@.len(),
                    output@ == mid + rows_text(prefix@, rows_view(rows@).subrange(0, i as int)),
                decreases rows@.len() - i,
            {
                let row = &rows[i];
                output.append(prefix.as_str());
                output.append(row_mark_exec(row.diff_status));
                output.append(repeat_str("  ", row.indent).as_str());
                output.append(cells_line(&row.cells).as_str());
                output.append("\n");
                proof {
                    let sub = rows_view(rows@).subrange(0, i + 1);
                    assert(sub.drop_last() =~= rows_view(rows@).subrange(0, i as int));
                    assert(sub.last() == row@);
                }
                i = i + 1;
            }
            assert(rows_view(rows@).subrange(0, i as int) =~= rows_view(rows@));
        },
        DetailContent::Composite(subs) => {
            proof {
                crate::tree::types::lemma_composite_view(*content);
            }
            let ghost sv = content@->Composite_0;
            let ghost start = output@;
            let next = indent.saturating_add(1);
            let mut i: usize = 0;
            while i < subs.len()
                invariant
                    0 <= i <= subs@.len(),
                    *content is Composite,
                    subs == content->Composite_0,
                    sv == content@->Composite_0,
                    sv.len() == subs@.len(),
                    forall|k: int| 0 <= k < subs@.len() ==> #[trigger] sv[k] == section_view(subs@[k]),
                    next == next_indent(indent),
                    prefix@ == repeat("  "@, indent as nat),
                    output@ == start + composite_text(sv, indent, i as int),
                decreases subs@.len() - i,
            {
                proof {
                    vstd::std_specs::vec::axiom_vec_index_decreases(*subs, i as int);
                    assert(decreases_to!(*content => subs@[i as int].content));
                }
                output.append(prefix.as_str());
                output.append("[");
                output.append(subs[i].title.as_str());
                output.append("]\n");
                format_detail_content(&subs[i].content, output, next);
                assert(sv[i as int].content == subs@[i as int].content@);
                i = i + 1;
            }
        },
    }
}

/// The byte-pattern table of a section, header rows left out.
pub open spec fn pattern_rows_text(rows: Seq<RowV>) -> Seq<char>
    decreases rows.len(),
{
    if rows.len() == 0 {
        Seq::empty()
    } else {
        pattern_rows_text(rows.drop_last()) + if rows.last().row_type == crate::tree::types::DetailRowType::Header {
            Seq::empty()
        } else {
            "  "@ + join(cell_texts(rows.last().cells), " | "@) + "\n"@
        }
    }
}

pub open spec fn byte_pattern_text(rows: Seq<RowV>) -> Seq<char> {
    "\n  [Byte Pattern]\n"@ + "  Offset | Bits | Hex | Binary | Name | Type\n"@
        + "  -------+------+-----+--------+------+-----\n"@ + pattern_rows_text(rows)
}

/// Append the byte pattern rows as a compact table.
pub fn format_byte_pattern(rows: &Vec<DetailRow>, output: &mut String)
    ensures
        final(output)@ == old(output)@ + byte_pattern_text(rows_view(rows@)),
{
    let ghost start = output@;
    output.append("\n  [Byte Pattern]\n");
    output.append("  Offset | Bits | Hex | Binary | Name | Type\n");
    output.append("  -------+------+-----+--------+------+-----\n");
    let ghost head = output@;
    assert(head =~= start + ("\n  [Byte Pattern]\n"@ + "  Offset | Bits | Hex | Binary | Name | Type\n"@
        + "  -------+------+-----+--------+------+-----\n"@));
    let mut i: usize = 0;
    while i < rows.len()
        invariant
            0 <= i <= rows@.len(),
            output@ == head + pattern_rows_text(rows_view(rows@).subrange(0, i as int)),
        decreases rows@.len() - i,
    {
        let row = &rows[i];
        if row.row_type != DetailRowType::Header {
            output.append("  ");
            output.append(cells_line(&row.cells).as_str());
            output.append("\n");
        }
        proof {
            let sub = rows_view(rows@).subrange(0, i + 1);
            assert(sub.drop_last() =~= rows_view(rows@).subrange(0, i as int));
            assert(sub.last() == row@);
        }
        i = i + 1;
    }
    assert(rows_view(rows@).subrange(0, i as int) =~= rows_view(rows@));
}

/// A detail section as text: title line, content and byte pattern.
pub open spec fn section_text(s: SectionV) -> Seq<char> {
    "\n--- "@ + s.title + " ---\n"@ + content_text(s.content, 0) + match s.byte_pattern_rows {
        Some(rows) => byte_pattern_text(rows),
        None => Seq::empty(),
    }
}

pub open spec fn sections_text(secs: Seq<SectionV>) -> Seq<char>
    decreases secs.len(),
{
    if secs.len() == 0 {
        Seq::empty()
    } else {
        sections_text(secs.drop_last()) + section_text(secs.last())
    }
}

/// What asking for the details of the node at `index` answers.
pub open spec fn details_text(nodes: Seq<NodeV>, index: int) -> Seq<char> {
    if index < 0 || index >= nodes.len() {
        "Error: Node index "@ + decimal(index as nat) + " out of range (0.."@ + decimal(nodes.len()) + ")"@
    } else {
        let n = nodes[index];
        let p = parent_path(nodes, index);
        "Node: "@ + n.text + "\nType: "@ + kind_name(n.node_type) + "\nDepth: "@ + decimal(n.depth as nat)
            + "\n"@ + (if p.len() > 0 {
            "Path: "@ + p + "\n"@
        } else {
            Seq::empty()
        }) + (match n.diff_status {
            Some(st) => "Diff: "@ + status_name(st) + "\n"@,
            None => Seq::empty(),
        }) + (if n.detail_sections.len() == 0 {
            "\n(No detail sections for this node)\n"@
        } else {
            sections_text(n.detail_sections)
        })
    }
}

/// The details of a node: text, type, depth, path, diff status and every
/// detail section.
#[verifier::spinoff_prover]
#[verifier::rlimit(40)]
pub fn node_details_text(nodes: &Vec<TreeNode>, index: usize) -> (r: String)
    requires
        path_ends(nodes_view(nodes@), index as int),
    ensures
        r@ == details_text(nodes_view(nodes@), index as int),
{
    let ghost nv = nodes_view(nodes@);
    if index >= nodes.len() {
        let mut r = "Error: Node index ".to_owned();
        r.append(usize_to_decimal(index).as_str());
        r.append(" out of range (0..");
        r.append(usize_to_decimal(nodes.len()).as_str());
        r.append(")");
        return r;
    }
    let node = &nodes[index];
    assert(nv[index as int] == node@);
    let mut out = "Node: ".to_owned();
    out.append(node.text.as_str());
    out.append("\nType: ");
    out.append(node_kind_name(node.node_type));
    out.append("\nDepth: ");
    out.append(usize_to_decimal(node.depth).as_str());
    out.append("\n");
    let path = build_parent_path(nodes, index);
    if !path.as_str().is_empty() {
        out.append("Path: ");
        out.append(path.as_str());
        out.append("\n");
    }
    match node.diff_status {
        Some(st) => {
            out.append("Diff: ");
            out.append(diff_status_name(st));
            out.append("\n");
        },
        None => {},
    }
    if node.detail_sections.len() == 0 {
        out.append("\n(No detail sections for this node)\n");
        return out;
    }
    let ghost head = out@;
    let ghost secs = sections_view(node.detail_sections@);
    let mut i: usize = 0;
    while i < node.detail_sections.len()
        invariant
            0 <= i <= node.detail_sections@.len(),
            secs == sections_view(node.detail_sections@),
            out@ == head + sections_text(secs.subrange(0, i as int)),
        decreases node.detail_sections@.len() - i,
    {
        let section = &node.detail_sections[i];
        let ghost before = out@;
        out.append("\n--- ");
        out.append(section.title.as_str());
        out.append(" ---\n");
        format_detail_content(&section.content, &mut out, 0);
        match &section.byte_pattern_rows {
            Some(rows) => format_byte_pattern(rows, &mut out),
            None => {},
        }
        proof {
            let sub = secs.subrange(0, i + 1);
            assert(sub.drop_last() =~= secs.subrange(0, i as int));
            assert(sub.last() == section_view(*section));
            assert(out@ =~= before + section_text(section_view(*section)));
        }
        i = i + 1;
    }
    assert(secs.subrange(0, i as int) =~= secs);
    out
}

// When parent walks end
/// Whether every node's parent comes before it.
pub fn parents_precede_exec(nodes: &Vec<TreeNode>) -> (r: bool)
    ensures
        r == crate::browse::parents_precede(nodes_view(nodes@)),
{
    let ghost nv = nodes_view(nodes@);
    let mut i: usize = 0;
    while i < nodes.len()
        invariant
            0 <= i <= nodes@.len(),
            nv == nodes_view(nodes@),
            forall|k: int| 0 <= k < i ==> (#[trigger] nv[k].parent_idx matches Some(p) ==> p < k),
        decreases nodes@.len() - i,
    {
        assert(nv[i as int] == nodes@[i as int]@);
        match nodes[i].parent_idx {
            Some(p) => {
                if p >= i {
                    assert(nv[i as int].parent_idx == Some(p));
                    assert(!(nv[i as int].parent_idx matches Some(q) ==> q < i as int));
                    return false;
                }
            },
            None => {},
        }
        i = i + 1;
    }
    true
}

proof fn lemma_chain_ends_below(nodes: Seq<NodeV>, idx: usize, m: nat)
    requires
        crate::browse::parents_precede(nodes),
        idx < m,
    ensures
        chain_ends(nodes, Some(idx), m),
    decreases m,
{
    if idx < nodes.len() {
        assert(m > 0);
        assert(chain_ends(nodes, Some(idx), m) == chain_ends(nodes, nodes[idx as int].parent_idx, (m - 1) as nat));
        match nodes[idx as int].parent_idx {
            Some(p) => {
                assert(p < idx);
                lemma_chain_ends_below(nodes, p, (m - 1) as nat);
            },
            None => {},
        }
    }
}

/// When every parent comes before its child, every walk up the parent
/// links ends.
pub proof fn law_preceding_parents_end_paths(nodes: Seq<NodeV>)
    requires
        crate::browse::parents_precede(nodes),
    ensures
        all_paths_end(nodes),
{
    assert forall|i: int| 0 <= i < nodes.len() implies #[trigger] path_ends(nodes, i) by {
        match nodes[i].parent_idx {
            Some(p) => {
                assert(p < i);
                lemma_chain_ends_below(nodes, p, nodes.len());
            },
            None => {},
        }
    }
}

} // verus!
