//! Accumulation of tree nodes while a database is walked.
use vstd::prelude::*;
use crate::tree::resolve::{resolve_all_indices, resolved_node};
use crate::tree::types::{
    DetailSectionData, NodePayload, NodeType, NodeV, SectionType, ServiceListType, TreeNode,
    nodes_view,
};

verus! {

broadcast use vstd::std_specs::vec::group_vec_axioms;

/// A node as the builder creates it: no parent yet, no diff annotation.
pub open spec fn fresh_node(
    depth: usize,
    text: String,
    expanded: bool,
    has_children: bool,
    sections: Vec<DetailSectionData>,
    node_type: NodeType,
    payload: NodePayload,
) -> TreeNode {
    TreeNode {
        depth,
        text,
        expanded,
        has_children,
        detail_sections: sections,
        node_type,
        payload,
        parent_idx: None,
        diff_status: None,
        old_text: None,
    }
}

/// The fields of a node to be pushed.
struct NodeConfig {
    depth: usize,
    text: String,
    expanded: bool,
    has_children: bool,
    sections: Vec<DetailSectionData>,
    node_type: NodeType,
    payload: NodePayload,
}

/// Accumulates tree nodes while walking the database model.
#[derive(Debug)]
pub struct TreeBuilder {
    pub nodes: Vec<TreeNode>,
}

/// The last of the first `i` nodes that has depth `d`.
pub open spec fn last_at_depth(nodes: Seq<TreeNode>, d: usize, i: int) -> Option<int>
    decreases i,
{
    if i <= 0 {
        None
    } else if nodes[i - 1].depth == d {
        Some(i - 1)
    } else {
        last_at_depth(nodes, d, i - 1)
    }
}

/// The parent the builder gives the node at `i`: the last earlier node one
/// level up (position 0 when there is none); nodes at depth 0 keep theirs.
pub open spec fn computed_parent(nodes: Seq<TreeNode>, i: int) -> Option<usize> {
    if nodes[i].depth == 0 {
        nodes[i].parent_idx
    } else {
        Some(
            match last_at_depth(nodes, (nodes[i].depth - 1) as usize, i) {
                Some(j) => j as usize,
                None => 0,
            },
        )
    }
}

/// `b` is `a` with every parent index computed.
pub open spec fn parents_computed(a: Seq<TreeNode>, b: Seq<TreeNode>) -> bool {
    &&& b.len() == a.len()
    &&& forall|k: int|
        0 <= k < a.len() ==> #[trigger] b[k]@ == (NodeV { parent_idx: computed_parent(a, k), ..a[k]@ })
}

proof fn lemma_last_at_depth_bounds(nodes: Seq<TreeNode>, d: usize, i: int)
    ensures
        last_at_depth(nodes, d, i) matches Some(j) ==> 0 <= j < i,
    decreases i,
{
    if i > 0 {
        lemma_last_at_depth_bounds(nodes, d, i - 1);
    }
}

impl TreeBuilder {
    pub fn new() -> (r: Self)
        ensures
            r.nodes@.len() == 0,
    {
        TreeBuilder { nodes: Vec::new() }
    }

    fn push_node(&mut self, cfg: NodeConfig)
        ensures
            final(self).nodes@ == old(self).nodes@.push(
                fresh_node(cfg.depth, cfg.text, cfg.expanded, cfg.has_children, cfg.sections, cfg.node_type, cfg.payload),
            ),
    {
        self.nodes.push(
            TreeNode {
                depth: cfg.depth,
                text: cfg.text,
                expanded: cfg.expanded,
                has_children: cfg.has_children,
                detail_sections: cfg.sections,
                node_type: cfg.node_type,
                payload: cfg.payload,
                parent_idx: None,
                diff_status: None,
                old_text: None,
            },
        );
    }

    /// Push a node that carries structured detail sections.
    pub fn push_details_structured(
        &mut self,
        depth: usize,
        text: String,
        expanded: bool,
        has_children: bool,
        sections: Vec<DetailSectionData>,
        node_type: NodeType,
    )
        ensures
            final(self).nodes@ == old(self).nodes@.push(
                fresh_node(depth, text, expanded, has_children, sections, node_type, NodePayload::Empty),
            ),
    {
        self.push_node(
            NodeConfig { depth, text, expanded, has_children, sections, node_type, payload: NodePayload::Empty },
        );
    }

    /// Push a functional-class node with its canonical short name.
    pub fn push_functional_class(
        &mut self,
        depth: usize,
        short_name: String,
        text: String,
        sections: Vec<DetailSectionData>,
    )
        ensures
            final(self).nodes@ == old(self).nodes@.push(
                fresh_node(
                    depth,
                    text,
                    false,
                    false,
                    sections,
                    NodeType::FunctionalClass,
                    NodePayload::FunctionalClass { short_name },
                ),
            ),
    {
        self.push_node(
            NodeConfig {
                depth,
                text,
                expanded: false,
                has_children: false,
                sections,
                node_type: NodeType::FunctionalClass,
                payload: NodePayload::FunctionalClass { short_name },
            },
        );
    }

    /// Push a parameter node with its ID and canonical short name.
    pub fn push_param(
        &mut self,
        depth: usize,
        short_name: String,
        text: String,
        sections: Vec<DetailSectionData>,
        node_type: NodeType,
        param_id: u32,
    )
        ensures
            final(self).nodes@ == old(self).nodes@.push(
                fresh_node(depth, text, false, false, sections, node_type, NodePayload::Parameter { param_id, short_name }),
            ),
    {
        self.push_node(
            NodeConfig {
                depth,
                text,
                expanded: false,
                has_children: false,
                sections,
                node_type,
                payload: NodePayload::Parameter { param_id, short_name },
            },
        );
    }

    /// Push a container node with the short names of its parent-ref
    /// containers (their positions are filled in by [`TreeBuilder::finish`]).
    pub fn push_container(
        &mut self,
        depth: usize,
        short_name: String,
        text: String,
        sections: Vec<DetailSectionData>,
        parent_ref_names: Vec<String>,
    )
        ensures
            final(self).nodes@.len() == old(self).nodes@.len() + 1,
            forall|k: int| 0 <= k < old(self).nodes@.len() ==> #[trigger] final(self).nodes@[k] == old(self).nodes@[k],
            ({
                let n = final(self).nodes@.last();
                &&& n.depth == depth && n.text == text && !n.expanded && n.has_children
                &&& n.detail_sections == sections && n.node_type == NodeType::Container
                &&& n.parent_idx is None && n.diff_status is None && n.old_text is None
                &&& n.payload matches NodePayload::Container { short_name: s, parent_ref_names: p, parent_ref_indices: q }
                    && s == short_name && p == parent_ref_names && q@.len() == 0
            }),
    {
        self.push_node(
            NodeConfig {
                depth,
                text,
                expanded: false,
                has_children: true,
                sections,
                node_type: NodeType::Container,
                payload: NodePayload::Container { short_name, parent_ref_names, parent_ref_indices: Vec::new() },
            },
        );
    }

    /// Push a diagcomm node (service, parent-ref service, request, response
    /// or job) with its canonical short name.
    pub fn push_service_node(
        &mut self,
        depth: usize,
        text: String,
        has_children: bool,
        sections: Vec<DetailSectionData>,
        node_type: NodeType,
        service_short_name: String,
    )
        ensures
            final(self).nodes@ == old(self).nodes@.push(
                fresh_node(depth, text, false, has_children, sections, node_type, NodePayload::DiagComm { service_short_name }),
            ),
    {
        self.push_node(
            NodeConfig {
                depth,
                text,
                expanded: false,
                has_children,
                sections,
                node_type,
                payload: NodePayload::DiagComm { service_short_name },
            },
        );
    }

    /// Push the header of a service list.
    pub fn push_service_list_header(
        &mut self,
        depth: usize,
        text: String,
        expanded: bool,
        has_children: bool,
        sections: Vec<DetailSectionData>,
        service_list_type: ServiceListType,
    )
        ensures
            final(self).nodes@ == old(self).nodes@.push(
                fresh_node(
                    depth,
                    text,
                    expanded,
                    has_children,
                    sections,
                    NodeType::SectionHeader,
                    NodePayload::ServiceListHeader { service_list_type },
                ),
            ),
    {
        self.push_node(
            NodeConfig {
                depth,
                text,
                expanded,
                has_children,
                sections,
                node_type: NodeType::SectionHeader,
                payload: NodePayload::ServiceListHeader { service_list_type },
            },
        );
    }

    /// Push a top-level section header.
    pub fn push_section_header(
        &mut self,
        text: String,
        expanded: bool,
        has_children: bool,
        sections: Vec<DetailSectionData>,
        section_type: SectionType,
    )
        ensures
            final(self).nodes@ == old(self).nodes@.push(
                fresh_node(
                    0,
                    text,
                    expanded,
                    has_children,
                    sections,
                    NodeType::SectionHeader,
                    NodePayload::SectionHeader { section_type },
                ),
            ),
    {
        self.push_node(
            NodeConfig {
                depth: 0,
                text,
                expanded,
                has_children,
                sections,
                node_type: NodeType::SectionHeader,
                payload: NodePayload::SectionHeader { section_type },
            },
        );
    }

    /// The position the next pushed node will get.
    pub fn next_index(&self) -> (r: usize)
        ensures
            r == self.nodes@.len(),
    {
        self.nodes.len()
    }

    /// Replace the detail sections of a node pushed before (nothing happens
    /// for a position past the end).
    pub fn set_detail_sections(&mut self, node_idx: usize, sections: Vec<DetailSectionData>)
        ensures
            final(self).nodes@ == if node_idx < old(self).nodes@.len() {
                old(self).nodes@.update(
                    node_idx as int,
                    (TreeNode { detail_sections: sections, ..old(self).nodes@[node_idx as int] }),
                )
            } else {
                old(self).nodes@
            },
    {
        if node_idx < self.nodes.len() {
            self.nodes[node_idx].detail_sections = sections;
        }
    }

    /// The first container node whose short name is `name`.
    pub fn find_container_index(&self, name: &str) -> (r: Option<usize>)
        ensures
            match r {
                Some(i) => i < self.nodes@.len() && self.nodes@[i as int].node_type == NodeType::Container
                    && self.nodes@[i as int].payload@.short_name() == Some(name@) && forall|k: int|
                    0 <= k < i ==> !(#[trigger] self.nodes@[k].node_type == NodeType::Container
                        && self.nodes@[k].payload@.short_name() == Some(name@)),
                None => forall|k: int|
                    0 <= k < self.nodes@.len() ==> !(#[trigger] self.nodes@[k].node_type == NodeType::Container
                        && self.nodes@[k].payload@.short_name() == Some(name@)),
            },
    {
        let mut i: usize = 0;
        while i < self.nodes.len()
            invariant
                0 <= i <= self.nodes@.len(),
                forall|k: int|
                    0 <= k < i ==> !(#[trigger] self.nodes@[k].node_type == NodeType::Container
                        && self.nodes@[k].payload@.short_name() == Some(name@)),
            decreases self.nodes@.len() - i,
        {
            let n = &self.nodes[i];
            if n.node_type == NodeType::Container {
                match n.short_name() {
                    Some(sn) => {
                        if crate::text::str_eq(sn, name) {
                            return Some(i);
                        }
                    },
                    None => {},
                }
            }
            i = i + 1;
        }
        None
    }

    /// The finished node list: parent positions computed and the stored
    /// indices looked up by name.
    pub fn finish(self) -> (r: Vec<TreeNode>)
        ensures
            exists|mid: Seq<TreeNode>|
                #[trigger] parents_computed(self.nodes@, mid) && nodes_view(r@) == Seq::new(
                    mid.len(),
                    |i: int| resolved_node(nodes_view(mid), i),
                ),
    {
        let mut nodes = self.nodes;
        compute_parent_indices(&mut nodes);
        let ghost mid = nodes@;
        resolve_all_indices(&mut nodes);
        nodes
    }
}

/// Set the parent position of every node below the top level: the most
/// recent node one level up.
pub fn compute_parent_indices(nodes: &mut Vec<TreeNode>)
    ensures
        parents_computed(old(nodes)@, final(nodes)@),
{
    let ghost a = nodes@;
    let mut max_depth: usize = 0;
    let mut i: usize = 0;
    while i < nodes.len()
        invariant
            0 <= i <= nodes@.len(),
            forall|k: int| 0 <= k < i ==> #[trigger] nodes@[k].depth <= max_depth,
        decreases nodes@.len() - i,
    {
        if nodes[i].depth > max_depth {
            max_depth = nodes[i].depth;
        }
        i = i + 1;
    }
    let mut slots: Vec<usize> = vec![0usize; max_depth.saturating_add(1)];
    let mut i: usize = 0;
    while i < nodes.len()
        invariant
            0 <= i <= nodes@.len(),
            nodes@.len() == a.len(),
            forall|k: int| 0 <= k < a.len() ==> #[trigger] a[k].depth <= max_depth,
            slots@.len() == if max_depth == usize::MAX {
                usize::MAX as int
            } else {
                max_depth + 1
            },
            forall|d: int|
                0 <= d < slots@.len() ==> #[trigger] slots@[d] == match last_at_depth(a, d as usize, i as int) {
                    Some(j) => j as usize,
                    None => 0,
                },
            forall|k: int| 0 <= k < i ==> #[trigger] nodes@[k]@ == (NodeV { parent_idx: computed_parent(a, k), ..a[k]@ }),
            forall|k: int| i <= k < a.len() ==> #[trigger] nodes@[k] == a[k],
        decreases nodes@.len() - i,
    {
        let depth = nodes[i].depth;
        assert(nodes@[i as int] == a[i as int]);
        let ghost before = slots@;
        if depth < slots.len() {
            slots.set(depth, i);
        }
        assert forall|d: int|
            0 <= d < slots@.len() implies #[trigger] slots@[d] == match last_at_depth(a, d as usize, i + 1) {
                Some(j) => j as usize,
                None => 0,
            } by {
            assert(before[d] == match last_at_depth(a, d as usize, i as int) {
                Some(j) => j as usize,
                None => 0,
            });
        }
        if depth > 0 {
            let parent = slots[depth - 1];
            proof {
                assert(before[depth - 1] == slots@[depth - 1]);
            }
            nodes[i].parent_idx = Some(parent);
        }
        i = i + 1;
    }
}

/// A tree built from fresh nodes (no parents yet) whose first node is at
/// the top level gets parents that come before their children.
pub proof fn law_built_parents_precede(a: Seq<TreeNode>, b: Seq<TreeNode>)
    requires
        parents_computed(a, b),
        forall|k: int| 0 <= k < a.len() ==> (#[trigger] a[k]).parent_idx is None,
        a.len() > 0 ==> a[0].depth == 0,
    ensures
        crate::browse::parents_precede(nodes_view(b)),
{
    let bv = nodes_view(b);
    assert forall|i: int| 0 <= i < bv.len() implies (#[trigger] bv[i].parent_idx matches Some(p) ==> p < i) by {
        assert(b[i]@ == (NodeV { parent_idx: computed_parent(a, i), ..a[i]@ }));
        if a[i].depth > 0 {
            lemma_last_at_depth_bounds(a, (a[i].depth - 1) as usize, i);
        }
    }
}

} // verus!
