//! Merging of two browse-mode trees into one tree annotated with
//! [`DiffStatus`].
//!
//! Each flat tree is turned into a hierarchy, the two hierarchies are merged
//! (siblings matched by [`match_key`]), and the result is flattened again.  The
//! same detail sections as in browse mode are shown, plus a "Changes" section
//! and per-row change marks.
use vstd::prelude::*;

use crate::diff::compare::{
    join, join_strings, prop, props_view, saturated, DiffSummary, PropertyDiff, PropertyDiffV,
};
use crate::diff::snapshot::strings_equal;
use crate::text::{
    decimal, usize_to_decimal, chars_of, contains, ends_with, ends_with_exec, find_first, find_last, first_occurrence,
    last_occurrence, str_eq, string_of_range, strip_suffix,
};
use crate::tree::types::{
    cells_view, duplicate_rows, duplicate_sections, duplicate_strings, lemma_composite_view, nodes_view, rows_view,
    section_view, sections_view, strings_view, CellV,
    CellJumpTargetType, CellType, ColumnConstraint, DetailRowType, ContentV, DeepCopy, DetailCell, DetailContent, DetailRow, DetailSectionData, DetailSectionType,
    DiffStatus, NodeType, NodeV, RowV, SectionV, TreeNode,
};

verus! {

broadcast use vstd::std_specs::vec::group_vec_axioms;

// Hierarchical representation
/// A node of the hierarchical (non-flat) form of a tree.
#[derive(Debug)]
pub struct HierNode {
    pub tree_node: TreeNode,
    pub children: Vec<HierNode>,
}

/// A merged node with its merged children.
#[derive(Debug)]
pub struct MergedNode {
    pub node: TreeNode,
    pub children: Vec<MergedNode>,
    /// Whether this node's own content (text and detail sections) differs
    /// between the two trees.  A parent is marked modified only when a
    /// direct child has `own_changed` or was added or removed.
    pub own_changed: bool,
}

pub ghost struct HierV {
    pub node: NodeV,
    pub children: Seq<HierV>,
}

pub open spec fn hier_view(h: HierNode) -> HierV
    decreases h,
{
    HierV {
        node: h.tree_node@,
        children: Seq::new(
            h.children@.len(),
            |i: int|
                {
                    if 0 <= i < h.children@.len() {
                        proof {
                            vstd::std_specs::vec::axiom_vec_index_decreases(h.children, i);
                        }
                        hier_view(h.children@[i])
                    } else {
                        arbitrary()
                    }
                },
        ),
    }
}

pub open spec fn hiers_view(v: Seq<HierNode>) -> Seq<HierV> {
    v.map_values(|h: HierNode| hier_view(h))
}

impl View for HierNode {
    type V = HierV;

    open spec fn view(&self) -> HierV {
        hier_view(*self)
    }
}

pub proof fn lemma_hier_view(h: HierNode)
    ensures
        hier_view(h).children == hiers_view(h.children@),
{
    assert(hier_view(h).children =~= hiers_view(h.children@));
}

pub ghost struct MergedV {
    pub node: NodeV,
    pub children: Seq<MergedV>,
    pub own_changed: bool,
}

pub open spec fn merged_view(m: MergedNode) -> MergedV
    decreases m,
{
    MergedV {
        node: m.node@,
        children: Seq::new(
            m.children@.len(),
            |i: int|
                {
                    if 0 <= i < m.children@.len() {
                        proof {
                            vstd::std_specs::vec::axiom_vec_index_decreases(m.children, i);
                        }
                        merged_view(m.children@[i])
                    } else {
                        arbitrary()
                    }
                },
        ),
        own_changed: m.own_changed,
    }
}

pub open spec fn mergeds_view(v: Seq<MergedNode>) -> Seq<MergedV> {
    v.map_values(|m: MergedNode| merged_view(m))
}

impl View for MergedNode {
    type V = MergedV;

    open spec fn view(&self) -> MergedV {
        merged_view(*self)
    }
}

pub proof fn lemma_merged_view(m: MergedNode)
    ensures
        merged_view(m).children == mergeds_view(m.children@),
{
    assert(merged_view(m).children =~= mergeds_view(m.children@));
}

proof fn lemma_mergeds_push(v: Seq<MergedNode>, m: MergedNode)
    ensures
        mergeds_view(v.push(m)) == mergeds_view(v).push(merged_view(m)),
{
    assert(mergeds_view(v.push(m)) =~= mergeds_view(v).push(merged_view(m)));
}

proof fn lemma_hiers_push(v: Seq<HierNode>, h: HierNode)
    ensures
        hiers_view(v.push(h)) == hiers_view(v).push(hier_view(h)),
{
    assert(hiers_view(v.push(h)) =~= hiers_view(v).push(hier_view(h)));
}

// Flat to hierarchical
/// The first position from `j` on whose node is not deeper than `depth`
/// (the end of the list when there is none).
pub open spec fn scan_end(s: Seq<NodeV>, depth: usize, j: int) -> int
    decreases s.len() - j,
{
    if j < 0 || j >= s.len() || s[j].depth <= depth {
        j
    } else {
        scan_end(s, depth, j + 1)
    }
}

pub proof fn lemma_scan_end_bounds(s: Seq<NodeV>, depth: usize, j: int)
    requires
        0 <= j <= s.len(),
    ensures
        j <= scan_end(s, depth, j) <= s.len(),
    decreases s.len() - j,
{
    if j < s.len() && s[j].depth > depth {
        lemma_scan_end_bounds(s, depth, j + 1);
    }
}

proof fn lemma_scan_end_is(s: Seq<NodeV>, depth: usize, j: int, m: int)
    requires
        0 <= j <= m <= s.len(),
        forall|k: int| j <= k < m ==> #[trigger] s[k].depth > depth,
        m == s.len() || s[m].depth <= depth,
    ensures
        scan_end(s, depth, j) == m,
    decreases m - j,
{
    if j < m {
        lemma_scan_end_is(s, depth, j + 1, m);
    }
}

/// The hierarchy of a flat depth-based list: each node takes all immediately
/// following deeper nodes as its descendants.
pub open spec fn hier_of(s: Seq<NodeV>) -> Seq<HierV>
    decreases s.len(),
{
    if s.len() == 0 {
        Seq::empty()
    } else {
        let e = scan_end(s, s[0].depth, 1);
        proof {
            lemma_scan_end_bounds(s, s[0].depth, 1);
        }
        seq![HierV { node: s[0], children: hier_of(s.subrange(1, e)) }] + hier_of(
            s.subrange(e, s.len() as int),
        )
    }
}

/// The hierarchy of `nodes[from..to]`.
fn hier_range(nodes: &[TreeNode], from: usize, to: usize) -> (r: Vec<HierNode>)
    requires
        from <= to <= nodes@.len(),
    ensures
        hiers_view(r@) == hier_of(nodes_view(nodes@).subrange(from as int, to as int)),
    decreases to - from,
{
    let ghost s = nodes_view(nodes@);
    let mut result: Vec<HierNode> = Vec::new();
    let mut i = from;
    proof {
        assert(hiers_view(result@) =~= Seq::<HierV>::empty());
    }
    while i < to
        invariant
            from <= i <= to <= nodes@.len(),
            s == nodes_view(nodes@),
            hiers_view(result@) + hier_of(s.subrange(i as int, to as int)) == hier_of(
                s.subrange(from as int, to as int),
            ),
        decreases to - i,
    {
        let depth = nodes[i].depth;
        let tree_node = nodes[i].duplicate();
        let mut j = i + 1;
        while j < to && nodes[j].depth > depth
            invariant
                i < j <= to <= nodes@.len(),
                depth == s[i as int].depth,
                s == nodes_view(nodes@),
                forall|k: int| i < k < j ==> #[trigger] s[k].depth > depth,
            decreases to - j,
        {
            j = j + 1;
        }
        let children = hier_range(nodes, i + 1, j);
        let h = HierNode { tree_node, children };
        proof {
            let t = s.subrange(i as int, to as int);
            lemma_scan_end_is(t, depth, 1, j - i);
            assert(t.subrange(1, j - i) =~= s.subrange(i + 1, j as int));
            assert(t.subrange(j - i, t.len() as int) =~= s.subrange(j as int, to as int));
            lemma_hier_view(h);
            lemma_hiers_push(result@, h);
        }
        result.push(h);
        i = j;
    }
    proof {
        assert(s.subrange(to as int, to as int) =~= Seq::<NodeV>::empty());
        assert(hiers_view(result@) + Seq::<HierV>::empty() =~= hiers_view(result@));
    }
    result
}

/// Convert a flat depth-based tree into its hierarchy: each node at depth
/// *d* takes all immediately following nodes deeper than *d* as its
/// descendants.
pub fn flat_to_hier(nodes: &[TreeNode]) -> (r: Vec<HierNode>)
    ensures
        hiers_view(r@) == hier_of(nodes_view(nodes@)),
{
    let r = hier_range(nodes, 0, nodes.len());
    assert(nodes_view(nodes@).subrange(0, nodes@.len() as int) =~= nodes_view(nodes@));
    r
}

// Hierarchical to flat
/// One level deeper (saturating).
pub open spec fn deeper(depth: usize) -> usize {
    if depth == usize::MAX {
        depth
    } else {
        (depth + 1) as usize
    }
}

/// The node placed at `depth`, with `has_children` as given.
pub open spec fn placed(n: NodeV, depth: usize, has_children: bool) -> NodeV {
    NodeV { depth, has_children, ..n }
}

/// A merged node followed by its flattened descendants.
pub open spec fn flatten_one(m: MergedV, depth: usize) -> Seq<NodeV>
    decreases m,
{
    seq![placed(m.node, depth, m.children.len() > 0)] + flatten_list(m.children, deeper(depth))
}

/// The flat list of merged nodes and their descendants, in order.
pub open spec fn flatten_list(ms: Seq<MergedV>, depth: usize) -> Seq<NodeV>
    decreases ms,
{
    if ms.len() == 0 {
        Seq::empty()
    } else {
        flatten_list(ms.subrange(0, ms.len() - 1), depth) + flatten_one(ms[ms.len() - 1], depth)
    }
}

proof fn lemma_flatten_list_step(ms: Seq<MergedV>, i: int, depth: usize)
    requires
        0 <= i < ms.len(),
    ensures
        flatten_list(ms.subrange(0, i + 1), depth) == flatten_list(ms.subrange(0, i), depth)
            + flatten_one(ms[i], depth),
{
    let s = ms.subrange(0, i + 1);
    assert(s.subrange(0, s.len() - 1) =~= ms.subrange(0, i));
}

/// Append a merged node and its descendants, flattened.
fn flatten_node(m: &MergedNode, depth: usize, out: &mut Vec<TreeNode>)
    ensures
        nodes_view(final(out)@) == nodes_view(old(out)@) + flatten_one(m@, depth),
    decreases m,
{
    proof {
        lemma_merged_view(*m);
    }
    let mut tree_node = m.node.duplicate();
    tree_node.depth = depth;
    tree_node.has_children = m.children.len() != 0;
    // The expanded state of the browse-mode tree is kept.
    let ghost before = out@;
    out.push(tree_node);
    let ghost head = nodes_view(out@);
    assert(head =~= nodes_view(before) + seq![placed(m@.node, depth, m@.children.len() > 0)]);
    let ghost cv = mergeds_view(m.children@);
    let child_depth = depth.saturating_add(1);
    let mut i: usize = 0;
    while i < m.children.len()
        invariant
            0 <= i <= m.children@.len(),
            cv == mergeds_view(m.children@),
            child_depth == deeper(depth),
            nodes_view(out@) == head + flatten_list(cv.subrange(0, i as int), child_depth),
        decreases m.children.len() - i,
    {
        proof {
            vstd::std_specs::vec::axiom_vec_index_decreases(m.children, i as int);
            assert(decreases_to!(*m => m.children@[i as int]));
            lemma_flatten_list_step(cv, i as int, child_depth);
        }
        flatten_node(&m.children[i], child_depth, out);
        i = i + 1;
    }
    assert(cv.subrange(0, m.children@.len() as int) =~= cv);
}

/// Flatten a merged hierarchy into a depth-based flat list: each node gets
/// its depth and whether it has children; its expanded state is kept.
pub fn flatten_merged(nodes: &[MergedNode], depth: usize) -> (r: Vec<TreeNode>)
    ensures
        nodes_view(r@) == flatten_list(mergeds_view(nodes@), depth),
{
    let ghost mv = mergeds_view(nodes@);
    let mut result: Vec<TreeNode> = Vec::new();
    assert(nodes_view(result@) =~= Seq::<NodeV>::empty());
    let mut i: usize = 0;
    while i < nodes.len()
        invariant
            0 <= i <= nodes@.len(),
            mv == mergeds_view(nodes@),
            nodes_view(result@) == flatten_list(mv.subrange(0, i as int), depth),
        decreases nodes.len() - i,
    {
        proof {
            lemma_flatten_list_step(mv, i as int, depth);
        }
        flatten_node(&nodes[i], depth, &mut result);
        i = i + 1;
    }
    assert(mv.subrange(0, nodes@.len() as int) =~= mv);
    result
}

// Marking whole subtrees
/// A hierarchy node and all its descendants marked with `status`.
#[verifier::opaque]
pub open spec fn marked(h: HierV, status: DiffStatus) -> MergedV
    decreases h,
{
    MergedV {
        node: NodeV { diff_status: Some(status), ..h.node },
        children: Seq::new(
            h.children.len(),
            |i: int|
                if 0 <= i < h.children.len() {
                    marked(h.children[i], status)
                } else {
                    arbitrary()
                },
        ),
        own_changed: true,
    }
}

/// Mark a whole subtree with `status` (added and removed nodes differ as a
/// whole).
pub fn mark_subtree(node: &HierNode, status: DiffStatus) -> (r: MergedNode)
    ensures
        r@ == marked(node@, status),
    decreases node,
{
    proof {
        lemma_hier_view(*node);
    }
    let mut tree_node = node.tree_node.duplicate();
    tree_node.diff_status = Some(status);
    let ghost hv = hiers_view(node.children@);
    let mut children: Vec<MergedNode> = Vec::new();
    let mut i: usize = 0;
    while i < node.children.len()
        invariant
            0 <= i <= node.children@.len(),
            hv == hiers_view(node.children@),
            children@.len() == i,
            forall|k: int| 0 <= k < i ==> #[trigger] merged_view(children@[k]) == marked(hv[k], status),
        decreases node.children.len() - i,
    {
        proof {
            vstd::std_specs::vec::axiom_vec_index_decreases(node.children, i as int);
            assert(decreases_to!(*node => node.children@[i as int]));
        }
        let c = mark_subtree(&node.children[i], status);
        children.push(c);
        i = i + 1;
    }
    let r = MergedNode { node: tree_node, children, own_changed: true };
    proof {
        reveal(marked);
        lemma_merged_view(r);
        assert(merged_view(r).children =~= marked(node@, status).children);
    }
    r
}

/// Every node of a merged subtree has `status`.
pub open spec fn all_marked(m: MergedV, status: DiffStatus) -> bool
    decreases m,
{
    &&& m.node.diff_status == Some(status)
    &&& forall|i: int| 0 <= i < m.children.len() ==> all_marked(#[trigger] m.children[i], status)
}

/// Marking a subtree marks every one of its nodes, and keeps its shape.
pub proof fn law_mark_subtree_marks_all(h: HierV, status: DiffStatus)
    ensures
        all_marked(marked(h, status), status),
        marked(h, status).children.len() == h.children.len(),
    decreases h,
{
    reveal(marked);
    assert forall|i: int| 0 <= i < marked(h, status).children.len() implies all_marked(
        #[trigger] marked(h, status).children[i],
        status,
    ) by {
        law_mark_subtree_marks_all(h.children[i], status);
    }
}


// Node matching
/// The match key of a node's text: for diagcomm nodes the part after the
/// first `" - "`; for list headers ending in `)` the part before the last
/// `" ("`; otherwise the text itself.
pub open spec fn text_key(text: Seq<char>, diagcomm: bool) -> Seq<char> {
    if diagcomm {
        if contains(text, " - "@) {
            text.subrange(first_occurrence(text, " - "@) + " - "@.len(), text.len() as int)
        } else {
            text
        }
    } else if ends_with(text, ")"@) && contains(text, " ("@) {
        text.subrange(0, last_occurrence(text, " ("@))
    } else {
        text
    }
}

/// The key by which a node is matched with its counterpart in the other
/// tree: its canonical short name when it has one, else its service short
/// name, else a normalisation of its text without a `" [base]"` suffix.
#[verifier::opaque]
pub open spec fn key_of(n: NodeV) -> Seq<char> {
    match n.payload.short_name() {
        Some(sn) => sn,
        None => match n.payload.service_short_name() {
            Some(sn) => sn,
            None => text_key(strip_suffix(n.text, " [base]"@), n.node_type.spec_is_diagcomm()),
        },
    }
}

/// Extract a stable match key from a tree node.
///
/// Normalizes display text so that nodes for the same element match even
/// when cosmetic parts of the text differ (service IDs, item counts).
pub fn match_key(node: &TreeNode) -> (r: String)
    ensures
        r@ == key_of(node@),
{
    reveal(key_of);
    // Container nodes carry a canonical short name.
    if let Some(sn) = node.short_name() {
        return sn.to_owned();
    }
    // Diagcomm nodes carry a canonical service short name.
    if let Some(sn) = node.service_short_name() {
        return sn.to_owned();
    }
    let chars = chars_of(node.text.as_str());
    let base = chars_of(" [base]");
    let end = if ends_with_exec(chars.as_slice(), base.as_slice()) {
        chars.len() - base.len()
    } else {
        chars.len()
    };
    let text_s = string_of_range(chars.as_slice(), 0, end);
    let text = chars_of(text_s.as_str());
    assert(text@ == strip_suffix(node.text@, " [base]"@));
    // Service nodes: "0x2E01 - WriteDID" -> "WriteDID"
    if node.node_type.is_diagcomm() {
        let sep = chars_of(" - ");
        return match find_first(text.as_slice(), sep.as_slice()) {
            Some(pos) => string_of_range(text.as_slice(), pos + sep.len(), text.len()),
            None => text_s,
        };
    }
    // List headers: "Diag-Comms (5 services, 2 jobs)" -> "Diag-Comms"
    let close = chars_of(")");
    if ends_with_exec(text.as_slice(), close.as_slice()) {
        let open = chars_of(" (");
        if let Some(pos) = find_last(text.as_slice(), open.as_slice()) {
            return string_of_range(text.as_slice(), 0, pos);
        }
    }
    text_s
}

// Content comparison
/// Every old row has a first cell and a new row with the same cells (rows
/// may be reordered), and there are as many rows on both sides.
pub open spec fn table_rows_equal(old: Seq<RowV>, new: Seq<RowV>) -> bool {
    &&& old.len() == new.len()
    &&& forall|i: int|
        0 <= i < old.len() ==> #[trigger] old[i].cells.len() > 0 && exists|j: int|
            0 <= j < new.len() && new[j].cells == old[i].cells
}

/// Equal content: equal lines, tables equal up to row order, or composites
/// with equal sections in order.
pub open spec fn content_equal(old: ContentV, new: ContentV) -> bool
    decreases old,
{
    match old {
        ContentV::PlainText(a) => match new {
            ContentV::PlainText(b) => a == b,
            _ => false,
        },
        ContentV::Table { rows: a, .. } => match new {
            ContentV::Table { rows: b, .. } => table_rows_equal(a, b),
            _ => false,
        },
        ContentV::Composite(a) => match new {
            ContentV::Composite(b) => a.len() == b.len() && forall|i: int|
                #![trigger a[i]]
                0 <= i < a.len() ==> a[i].title == b[i].title && content_equal(a[i].content, b[i].content),
            _ => false,
        },
    }
}

/// Equal titles and equal content.
pub open spec fn section_equal(old: SectionV, new: SectionV) -> bool {
    old.title == new.title && content_equal(old.content, new.content)
}

/// Equal lists of sections.
pub open spec fn sections_equal(old: Seq<SectionV>, new: Seq<SectionV>) -> bool {
    old.len() == new.len() && forall|i: int| 0 <= i < old.len() ==> #[trigger] section_equal(old[i], new[i])
}

/// Equal text and equal detail sections.
pub open spec fn node_content_equal(old: NodeV, new: NodeV) -> bool {
    old.text == new.text && sections_equal(old.detail_sections, new.detail_sections)
}

fn jump_equal(a: &CellJumpTargetType, b: &CellJumpTargetType) -> (r: bool)
    ensures
        r == (a@ == b@),
{
    match (a, b) {
        (CellJumpTargetType::Parameter { param_id: x }, CellJumpTargetType::Parameter { param_id: y }) => *x == *y,
        (CellJumpTargetType::Dop { index: i, name: x }, CellJumpTargetType::Dop { index: j, name: y }) => *i == *j && *x == *y,
        (
            CellJumpTargetType::TreeNodeByIndex { index: i, short_name: x },
            CellJumpTargetType::TreeNodeByIndex { index: j, short_name: y },
        ) => *i == *j && *x == *y,
        (
            CellJumpTargetType::Container { index: i, short_name: x },
            CellJumpTargetType::Container { index: j, short_name: y },
        ) => *i == *j && *x == *y,
        _ => false,
    }
}

/// Two cells with the same view.
pub fn cell_equal(a: &DetailCell, b: &DetailCell) -> (r: bool)
    ensures
        r == (a@ == b@),
{
    let jumps = match (&a.jump_target, &b.jump_target) {
        (Some(x), Some(y)) => jump_equal(&x.target_type, &y.target_type),
        (None, None) => true,
        _ => false,
    };
    a.text == b.text && a.cell_type == b.cell_type && jumps
}

/// Two lists of cells with the same view.
pub fn cells_equal(a: &Vec<DetailCell>, b: &Vec<DetailCell>) -> (r: bool)
    ensures
        r == (cells_view(a@) == cells_view(b@)),
{
    if a.len() != b.len() {
        assert(cells_view(a@).len() != cells_view(b@).len());
        return false;
    }
    let mut i: usize = 0;
    while i < a.len()
        invariant
            a@.len() == b@.len(),
            0 <= i <= a@.len(),
            forall|k: int| 0 <= k < i ==> #[trigger] a@[k]@ == b@[k]@,
        decreases a.len() - i,
    {
        if !cell_equal(&a[i], &b[i]) {
            assert(cells_view(a@)[i as int] != cells_view(b@)[i as int]);
            return false;
        }
        i = i + 1;
    }
    assert(cells_view(a@) =~= cells_view(b@));
    true
}

/// Rows equal up to order, as [`table_rows_equal`] says.
fn table_rows_equal_exec(a: &Vec<DetailRow>, b: &Vec<DetailRow>) -> (r: bool)
    ensures
        r == table_rows_equal(rows_view(a@), rows_view(b@)),
{
    let ghost av = rows_view(a@);
    let ghost bv = rows_view(b@);
    if a.len() != b.len() {
        return false;
    }
    let mut i: usize = 0;
    while i < a.len()
        invariant
            0 <= i <= a@.len(),
            a@.len() == b@.len(),
            av == rows_view(a@),
            bv == rows_view(b@),
            forall|k: int|
                0 <= k < i ==> #[trigger] av[k].cells.len() > 0 && exists|j: int|
                    0 <= j < bv.len() && bv[j].cells == av[k].cells,
        decreases a.len() - i,
    {
        assert(av[i as int].cells == cells_view(a@[i as int].cells@));
        if a[i].cells.len() == 0 {
            return false;
        }
        let mut found = false;
        let mut j: usize = 0;
        while j < b.len()
            invariant
                0 <= j <= b@.len(),
                i < a@.len(),
                av == rows_view(a@),
                bv == rows_view(b@),
                found == exists|m: int| 0 <= m < j && bv[m].cells == av[i as int].cells,
            decreases b.len() - j,
        {
            assert(bv[j as int].cells == cells_view(b@[j as int].cells@));
            assert(av[i as int].cells == cells_view(a@[i as int].cells@));
            if cells_equal(&b[j].cells, &a[i].cells) {
                found = true;
            }
            j = j + 1;
        }
        if !found {
            return false;
        }
        i = i + 1;
    }
    true
}

/// Equal content, as [`content_equal`] says.
pub fn detail_content_equal(a: &DetailContent, b: &DetailContent) -> (r: bool)
    ensures
        r == content_equal(a@, b@),
    decreases a,
{
    match a {
        DetailContent::PlainText(x) => match b {
            DetailContent::PlainText(y) => {
                assert(a@ == ContentV::PlainText(strings_view(x@)));
                assert(b@ == ContentV::PlainText(strings_view(y@)));
                let r = strings_equal(x, y);
                assert(r == content_equal(a@, b@));
                r
            },
            _ => {
                assert(!content_equal(a@, b@));
                false
            },
        },
        DetailContent::Table { rows: x, .. } => match b {
            DetailContent::Table { rows: y, .. } => {
                let r = table_rows_equal_exec(x, y);
                assert(r == content_equal(a@, b@));
                r
            },
            _ => {
                assert(!content_equal(a@, b@));
                false
            },
        },
        DetailContent::Composite(x) => {
            let y = match b {
                DetailContent::Composite(y) => y,
                _ => {
                    return false;
                },
            };
            proof {
                lemma_composite_view(*a);
                lemma_composite_view(*b);
            }
            let ghost xv = a@->Composite_0;
            let ghost yv = b@->Composite_0;
            assert(a@ == ContentV::Composite(xv));
            assert(b@ == ContentV::Composite(yv));
            if x.len() != y.len() {
                return false;
            }
            let mut i: usize = 0;
            while i < x.len()
                invariant
                    0 <= i <= x@.len(),
                    x@.len() == y@.len(),
                    *a is Composite,
                    x == a->Composite_0,
                    a@ == ContentV::Composite(xv),
                    b@ == ContentV::Composite(yv),
                    xv.len() == x@.len(),
                    yv.len() == y@.len(),
                    forall|k: int| 0 <= k < x@.len() ==> #[trigger] xv[k] == section_view(x@[k]),
                    forall|k: int| 0 <= k < y@.len() ==> #[trigger] yv[k] == section_view(y@[k]),
                    forall|k: int| 0 <= k < i ==> #[trigger] section_equal(xv[k], yv[k]),
                decreases x.len() - i,
            {
                proof {
                    vstd::std_specs::vec::axiom_vec_index_decreases(*x, i as int);
                    assert(decreases_to!(*a => x@[i as int].content));
                }
                assert(xv[i as int] == section_view(x@[i as int]));
                assert(yv[i as int] == section_view(y@[i as int]));
                if !(x[i].title == y[i].title && detail_content_equal(&x[i].content, &y[i].content)) {
                    assert(!(xv[i as int].title == yv[i as int].title && content_equal(
                        xv[i as int].content,
                        yv[i as int].content,
                    )));
                    return false;
                }
                i = i + 1;
            }
            assert forall|k: int| 0 <= k < xv.len() implies xv[k].title == yv[k].title && content_equal(
                xv[k].content,
                yv[k].content,
            ) by {
                assert(section_equal(xv[k], yv[k]));
            }
            true
        },
    }
}

/// Equal lists of sections.
fn sections_equal_exec(a: &Vec<DetailSectionData>, b: &Vec<DetailSectionData>) -> (r: bool)
    ensures
        r == sections_equal(sections_view(a@), sections_view(b@)),
{
    let ghost av = sections_view(a@);
    let ghost bv = sections_view(b@);
    if a.len() != b.len() {
        return false;
    }
    let mut i: usize = 0;
    while i < a.len()
        invariant
            0 <= i <= a@.len(),
            a@.len() == b@.len(),
            av == sections_view(a@),
            bv == sections_view(b@),
            forall|k: int| 0 <= k < i ==> #[trigger] section_equal(av[k], bv[k]),
        decreases a.len() - i,
    {
        if !(a[i].title == b[i].title && detail_content_equal(&a[i].content, &b[i].content)) {
            assert(!section_equal(av[i as int], bv[i as int]));
            return false;
        }
        i = i + 1;
    }
    true
}

/// Whether two tree nodes have equal content (text and detail sections).
pub fn node_content_equal_exec(a: &TreeNode, b: &TreeNode) -> (r: bool)
    ensures
        r == node_content_equal(a@, b@),
{
    a.text == b.text && sections_equal_exec(&a.detail_sections, &b.detail_sections)
}


// Per-row diff annotation of detail sections
/// The text of a row's first cell.
pub open spec fn first_text(r: RowV) -> Option<Seq<char>> {
    if r.cells.len() > 0 {
        Some(r.cells[0].text)
    } else {
        None
    }
}

/// The last row whose first cell has text `key`.
pub open spec fn last_row_with_key(rows: Seq<RowV>, key: Seq<char>) -> Option<RowV>
    decreases rows.len(),
{
    if rows.len() == 0 {
        None
    } else if first_text(rows.last()) == Some(key) {
        Some(rows.last())
    } else {
        last_row_with_key(rows.drop_last(), key)
    }
}

/// Some row's first cell has text `key`.
pub open spec fn has_row_key(rows: Seq<RowV>, key: Seq<char>) -> bool {
    exists|j: int| 0 <= j < rows.len() && #[trigger] first_text(rows[j]) == Some(key)
}

pub open spec fn with_status(r: RowV, status: DiffStatus) -> RowV {
    RowV { diff_status: Some(status), ..r }
}

/// A new row annotated against the old rows: Added when no old row has its
/// key, Modified when the (last) old row with its key has other cells,
/// unchanged otherwise and when it has no cells.
pub open spec fn annotated_row(old_rows: Seq<RowV>, r: RowV) -> RowV {
    match first_text(r) {
        None => r,
        Some(k) => match last_row_with_key(old_rows, k) {
            Some(o) => if o.cells != r.cells {
                with_status(r, DiffStatus::Modified)
            } else {
                r
            },
            None => with_status(r, DiffStatus::Added),
        },
    }
}

/// The old rows whose key no new row has, marked Removed.
pub open spec fn removed_rows(old_rows: Seq<RowV>, new_rows: Seq<RowV>) -> Seq<RowV>
    decreases old_rows.len(),
{
    if old_rows.len() == 0 {
        Seq::empty()
    } else {
        removed_rows(old_rows.drop_last(), new_rows) + match first_text(old_rows.last()) {
            Some(k) => if !has_row_key(new_rows, k) {
                seq![with_status(old_rows.last(), DiffStatus::Removed)]
            } else {
                Seq::empty()
            },
            None => Seq::empty(),
        }
    }
}

/// The new rows annotated against the old ones, followed by the removed
/// old rows.
pub open spec fn annotated_table(old_rows: Seq<RowV>, new_rows: Seq<RowV>) -> Seq<RowV> {
    new_rows.map_values(|r: RowV| annotated_row(old_rows, r)) + removed_rows(old_rows, new_rows)
}

/// The last of `rows` whose first cell has text `key`.
fn find_last_row<'a>(rows: &'a [DetailRow], key: &str) -> (r: Option<&'a DetailRow>)
    ensures
        match r {
            Some(row) => last_row_with_key(rows_view(rows@), key@) == Some(row@),
            None => last_row_with_key(rows_view(rows@), key@) is None,
        },
{
    let ghost rv = rows_view(rows@);
    let mut i = rows.len();
    assert(rv.subrange(0, rows@.len() as int) =~= rv);
    while i > 0
        invariant
            0 <= i <= rows@.len(),
            rv == rows_view(rows@),
            last_row_with_key(rv, key@) == last_row_with_key(rv.subrange(0, i as int), key@),
        decreases i,
    {
        let row = &rows[i - 1];
        proof {
            let t = rv.subrange(0, i as int);
            assert(t.drop_last() =~= rv.subrange(0, i - 1));
            assert(t.last() == row@);
            assert(row@.cells == cells_view(row.cells@));
        }
        if row.cells.len() > 0 && str_eq(row.cells[0].text.as_str(), key) {
            return Some(row);
        }
        proof {
            if row.cells@.len() > 0 {
                assert(row@.cells[0].text == row.cells@[0].text@);
            }
        }
        i = i - 1;
    }
    assert(rv.subrange(0, 0) =~= Seq::<RowV>::empty());
    None
}

/// Whether some row's first cell has text `key`.
fn has_row_key_exec(rows: &[DetailRow], key: &str) -> (r: bool)
    ensures
        r == has_row_key(rows_view(rows@), key@),
{
    let ghost rv = rows_view(rows@);
    let mut i: usize = 0;
    while i < rows.len()
        invariant
            0 <= i <= rows@.len(),
            rv == rows_view(rows@),
            forall|j: int| 0 <= j < i ==> #[trigger] first_text(rv[j]) != Some(key@),
        decreases rows.len() - i,
    {
        let row = &rows[i];
        assert(rv[i as int] == row@);
        assert(row@.cells == cells_view(row.cells@));
        if row.cells.len() > 0 && str_eq(row.cells[0].text.as_str(), key) {
            assert(first_text(rv[i as int]) == Some(key@));
            return true;
        }
        i = i + 1;
    }
    false
}

/// A copy of `row` with the given diff status.
fn row_with_status(row: &DetailRow, status: Option<DiffStatus>) -> (r: DetailRow)
    ensures
        r@ == (RowV { diff_status: status, ..row@ }),
{
    let mut r = row.duplicate();
    r.diff_status = status;
    r
}

/// Annotate table rows by matching on the first cell (the key column).
///
/// New rows whose key is missing among the old rows are Added; rows present
/// in both with other cells are Modified; old rows whose key no new row has
/// are appended as Removed so they stay visible.
pub fn annotate_table_rows(old_rows: &[DetailRow], new_rows: &mut Vec<DetailRow>)
    ensures
        rows_view(final(new_rows)@) == annotated_table(rows_view(old_rows@), rows_view(old(new_rows)@)),
{
    let ghost ov = rows_view(old_rows@);
    let ghost nv = rows_view(new_rows@);
    let mut result: Vec<DetailRow> = Vec::new();
    let mut i: usize = 0;
    while i < new_rows.len()
        invariant
            0 <= i <= new_rows@.len(),
            ov == rows_view(old_rows@),
            nv == rows_view(new_rows@),
            result@.len() == i,
            forall|k: int| 0 <= k < i ==> #[trigger] result@[k]@ == annotated_row(ov, nv[k]),
        decreases new_rows.len() - i,
    {
        let row = &new_rows[i];
        assert(nv[i as int] == row@);
        assert(row@.cells == cells_view(row.cells@));
        if row.cells.len() == 0 {
            result.push(row.duplicate());
        } else {
            let key = row.cells[0].text.as_str();
            assert(first_text(row@) == Some(key@));
            match find_last_row(old_rows, key) {
                Some(old_row) => {
                    if !cells_equal(&old_row.cells, &row.cells) {
                        // The row has changes.
                        result.push(row_with_status(row, Some(DiffStatus::Modified)));
                    } else {
                        result.push(row.duplicate());
                    }
                },
                None => {
                    result.push(row_with_status(row, Some(DiffStatus::Added)));
                },
            }
        }
        i = i + 1;
    }
    // Old rows whose key no new row has stay visible as Removed.
    let ghost annotated = rows_view(result@);
    assert(annotated =~= nv.map_values(|r: RowV| annotated_row(ov, r)));
    let mut j: usize = 0;
    while j < old_rows.len()
        invariant
            0 <= j <= old_rows@.len(),
            ov == rows_view(old_rows@),
            nv == rows_view(new_rows@),
            rows_view(result@) == annotated + removed_rows(ov.subrange(0, j as int), nv),
        decreases old_rows.len() - j,
    {
        let row = &old_rows[j];
        proof {
            let t = ov.subrange(0, j + 1);
            assert(t.drop_last() =~= ov.subrange(0, j as int));
            assert(t.last() == row@);
            assert(row@.cells == cells_view(row.cells@));
        }
        let ghost before = result@;
        if row.cells.len() > 0 {
            assert(first_text(row@) == Some(row.cells@[0].text@));
            if !has_row_key_exec(new_rows.as_slice(), row.cells[0].text.as_str()) {
                result.push(row_with_status(row, Some(DiffStatus::Removed)));
                assert(rows_view(result@) =~= rows_view(before).push(with_status(row@, DiffStatus::Removed)));
            }
        }
        j = j + 1;
    }
    assert(ov.subrange(0, old_rows@.len() as int) =~= ov);
    *new_rows = result;
}


/// Every row of a content (through composites) marked with `status`.
pub open spec fn marked_content(c: ContentV, status: DiffStatus) -> ContentV
    decreases c,
{
    match c {
        ContentV::Table { header, rows, constraints, use_row_selection } => ContentV::Table {
            header,
            rows: rows.map_values(|r: RowV| with_status(r, status)),
            constraints,
            use_row_selection,
        },
        ContentV::Composite(subs) => ContentV::Composite(
            Seq::new(
                subs.len(),
                |i: int|
                    if 0 <= i < subs.len() {
                        SectionV { content: marked_content(subs[i].content, status), ..subs[i] }
                    } else {
                        arbitrary()
                    },
            ),
        ),
        ContentV::PlainText(lines) => ContentV::PlainText(lines),
    }
}

/// A copy of a section with another content.
fn section_with_content(s: &DetailSectionData, content: DetailContent) -> (r: DetailSectionData)
    ensures
        r@ == (SectionV { content: content@, ..s@ }),
{
    let byte_pattern_rows = match &s.byte_pattern_rows {
        Some(rows) => Some(duplicate_rows(rows)),
        None => None,
    };
    DetailSectionData {
        title: s.title.clone(),
        content,
        render_as_header: s.render_as_header,
        section_type: s.section_type,
        byte_pattern_rows,
    }
}

/// A copy of a content with every row marked with `status`.
fn content_with_rows_marked(c: &DetailContent, status: DiffStatus) -> (r: DetailContent)
    ensures
        r@ == marked_content(c@, status),
    decreases c,
{
    match c {
        DetailContent::Table { header, rows, constraints, use_row_selection } => {
            let mut out: Vec<DetailRow> = Vec::new();
            let mut i: usize = 0;
            while i < rows.len()
                invariant
                    0 <= i <= rows@.len(),
                    out@.len() == i,
                    forall|k: int| 0 <= k < i ==> #[trigger] out@[k]@ == with_status(rows@[k]@, status),
                decreases rows.len() - i,
            {
                out.push(row_with_status(&rows[i], Some(status)));
                i = i + 1;
            }
            let r = DetailContent::Table {
                header: header.duplicate(),
                rows: out,
                constraints: constraints.clone(),
                use_row_selection: *use_row_selection,
            };
            assert(rows_view(out@) =~= rows_view(rows@).map_values(|r: RowV| with_status(r, status)));
            r
        },
        DetailContent::Composite(subs) => {
            proof {
                lemma_composite_view(*c);
            }
            let ghost sv = c@->Composite_0;
            let mut out: Vec<DetailSectionData> = Vec::new();
            let mut i: usize = 0;
            while i < subs.len()
                invariant
                    0 <= i <= subs@.len(),
                    *c is Composite,
                    subs == c->Composite_0,
                    sv == c@->Composite_0,
                    sv.len() == subs@.len(),
                    forall|k: int| 0 <= k < subs@.len() ==> #[trigger] sv[k] == section_view(subs@[k]),
                    out@.len() == i,
                    forall|k: int|
                        0 <= k < i ==> #[trigger] section_view(out@[k]) == (SectionV {
                            content: marked_content(sv[k].content, status),
                            ..sv[k]
                        }),
                decreases subs.len() - i,
            {
                proof {
                    vstd::std_specs::vec::axiom_vec_index_decreases(*subs, i as int);
                    assert(decreases_to!(*c => subs@[i as int].content));
                }
                assert(sv[i as int] == section_view(subs@[i as int]));
                let content = content_with_rows_marked(&subs[i].content, status);
                out.push(section_with_content(&subs[i], content));
                i = i + 1;
            }
            let r = DetailContent::Composite(out);
            proof {
                lemma_composite_view(r);
                assert(r@->Composite_0 =~= marked_content(c@, status)->Composite_0);
            }
            r
        },
        DetailContent::PlainText(lines) => DetailContent::PlainText(duplicate_strings(lines)),
    }
}

/// Set the diff status of every row of a content.
pub fn mark_all_content_rows(content: &mut DetailContent, status: DiffStatus)
    ensures
        final(content)@ == marked_content(old(content)@, status),
{
    let marked = content_with_rows_marked(content, status);
    *content = marked;
}

/// New content annotated against old content: tables row by row, composites
/// section by section (by position); other content is unchanged.
pub open spec fn annotated_content(old: ContentV, new: ContentV) -> ContentV
    decreases new,
{
    match new {
        ContentV::Table { header, rows, constraints, use_row_selection } => match old {
            ContentV::Table { rows: old_rows, .. } => ContentV::Table {
                header,
                rows: annotated_table(old_rows, rows),
                constraints,
                use_row_selection,
            },
            _ => new,
        },
        ContentV::Composite(subs) => match old {
            ContentV::Composite(old_subs) => ContentV::Composite(
                Seq::new(
                    subs.len(),
                    |i: int|
                        if 0 <= i < subs.len() {
                            if i < old_subs.len() {
                                SectionV {
                                    content: annotated_content(old_subs[i].content, subs[i].content),
                                    ..subs[i]
                                }
                            } else {
                                subs[i]
                            }
                        } else {
                            arbitrary()
                        },
                ),
            ),
            _ => new,
        },
        ContentV::PlainText(_) => new,
    }
}

/// A copy of `new` annotated against `old`.
fn content_annotated(old: &DetailContent, new: &DetailContent) -> (r: DetailContent)
    ensures
        r@ == annotated_content(old@, new@),
    decreases new,
{
    match new {
        DetailContent::Table { header, rows, constraints, use_row_selection } => {
            match old {
                DetailContent::Table { rows: old_rows, .. } => {
                    let mut out = duplicate_rows(rows);
                    annotate_table_rows(old_rows.as_slice(), &mut out);
                    DetailContent::Table {
                        header: header.duplicate(),
                        rows: out,
                        constraints: constraints.clone(),
                        use_row_selection: *use_row_selection,
                    }
                },
                _ => new.duplicate(),
            }
        },
        DetailContent::Composite(subs) => {
            let old_subs = match old {
                DetailContent::Composite(o) => o,
                _ => {
                    return new.duplicate();
                },
            };
            proof {
                lemma_composite_view(*new);
                lemma_composite_view(*old);
            }
            let ghost sv = new@->Composite_0;
            let ghost ov = old@->Composite_0;
            let mut out: Vec<DetailSectionData> = Vec::new();
            let mut i: usize = 0;
            while i < subs.len()
                invariant
                    0 <= i <= subs@.len(),
                    *new is Composite,
                    subs == new->Composite_0,
                    sv == new@->Composite_0,
                    sv.len() == subs@.len(),
                    ov.len() == old_subs@.len(),
                    forall|k: int| 0 <= k < subs@.len() ==> #[trigger] sv[k] == section_view(subs@[k]),
                    forall|k: int| 0 <= k < old_subs@.len() ==> #[trigger] ov[k] == section_view(old_subs@[k]),
                    out@.len() == i,
                    forall|k: int|
                        0 <= k < i ==> #[trigger] section_view(out@[k]) == if k < ov.len() {
                            SectionV { content: annotated_content(ov[k].content, sv[k].content), ..sv[k] }
                        } else {
                            sv[k]
                        },
                decreases subs.len() - i,
            {
                proof {
                    vstd::std_specs::vec::axiom_vec_index_decreases(*subs, i as int);
                    assert(decreases_to!(*new => subs@[i as int].content));
                }
                assert(sv[i as int] == section_view(subs@[i as int]));
                if i < old_subs.len() {
                    assert(ov[i as int] == section_view(old_subs@[i as int]));
                    let content = content_annotated(&old_subs[i].content, &subs[i].content);
                    out.push(section_with_content(&subs[i], content));
                } else {
                    out.push(subs[i].duplicate());
                }
                i = i + 1;
            }
            let r = DetailContent::Composite(out);
            proof {
                lemma_composite_view(r);
                assert(r@->Composite_0 =~= annotated_content(old@, new@)->Composite_0);
            }
            r
        },
        DetailContent::PlainText(_) => new.duplicate(),
    }
}

/// Annotate the rows of `new` against `old`.
pub fn annotate_content_rows(before: &DetailContent, new: &mut DetailContent)
    ensures
        final(new)@ == annotated_content(before@, old(new)@),
{
    let annotated = content_annotated(before, new);
    *new = annotated;
}


// Matching sections between the two trees
/// The first section with this type and title.
pub open spec fn first_with_type_title(ss: Seq<SectionV>, t: DetailSectionType, title: Seq<char>) -> Option<
    SectionV,
>
    decreases ss.len(),
{
    if ss.len() == 0 {
        None
    } else if ss[0].section_type == t && ss[0].title == title {
        Some(ss[0])
    } else {
        first_with_type_title(ss.drop_first(), t, title)
    }
}

/// The first section with this title.
pub open spec fn first_with_title(ss: Seq<SectionV>, title: Seq<char>) -> Option<SectionV>
    decreases ss.len(),
{
    if ss.len() == 0 {
        None
    } else if ss[0].title == title {
        Some(ss[0])
    } else {
        first_with_title(ss.drop_first(), title)
    }
}

/// The first section with this type.
pub open spec fn first_with_type(ss: Seq<SectionV>, t: DetailSectionType) -> Option<SectionV>
    decreases ss.len(),
{
    if ss.len() == 0 {
        None
    } else if ss[0].section_type == t {
        Some(ss[0])
    } else {
        first_with_type(ss.drop_first(), t)
    }
}

/// The number of sections with this type.
pub open spec fn count_type(ss: Seq<SectionV>, t: DetailSectionType) -> nat
    decreases ss.len(),
{
    if ss.len() == 0 {
        0
    } else {
        (if ss[0].section_type == t {
            1nat
        } else {
            0nat
        }) + count_type(ss.drop_first(), t)
    }
}

/// The section of `ss` that matches a section with this type and title: the
/// first with both, else the first with the title, else the only one with
/// the type (titles such as "Diag-Comms (N services, M jobs)" change with
/// their counts).
pub open spec fn matching_section(ss: Seq<SectionV>, t: DetailSectionType, title: Seq<char>) -> Option<
    SectionV,
> {
    match first_with_type_title(ss, t, title) {
        Some(s) => Some(s),
        None => match first_with_title(ss, title) {
            Some(s) => Some(s),
            None => if count_type(ss, t) == 1 {
                first_with_type(ss, t)
            } else {
                None
            },
        },
    }
}

proof fn lemma_drop_first_subrange(ss: Seq<SectionV>, i: int)
    requires
        0 <= i < ss.len(),
    ensures
        ss.subrange(i, ss.len() as int).drop_first() == ss.subrange(i + 1, ss.len() as int),
        ss.subrange(i, ss.len() as int)[0] == ss[i],
{
    assert(ss.subrange(i, ss.len() as int).drop_first() =~= ss.subrange(i + 1, ss.len() as int));
}

/// Position of the section matching type and title, as
/// [`matching_section`] says.
fn find_matching_section(ss: &Vec<DetailSectionData>, t: DetailSectionType, title: &str) -> (r: Option<usize>)
    ensures
        match r {
            Some(i) => i < ss@.len() && matching_section(sections_view(ss@), t, title@) == Some(
                sections_view(ss@)[i as int],
            ),
            None => matching_section(sections_view(ss@), t, title@) is None,
        },
{
    let ghost sv = sections_view(ss@);
    let n = ss.len();
    assert(sv.subrange(0, n as int) =~= sv);
    let mut i: usize = 0;
    while i < n
        invariant
            0 <= i <= n,
            n == ss@.len(),
            sv == sections_view(ss@),
            first_with_type_title(sv, t, title@) == first_with_type_title(sv.subrange(i as int, n as int), t, title@),
        decreases n - i,
    {
        proof {
            lemma_drop_first_subrange(sv, i as int);
        }
        if ss[i].section_type == t && str_eq(ss[i].title.as_str(), title) {
            return Some(i);
        }
        i = i + 1;
    }
    let mut i: usize = 0;
    while i < n
        invariant
            0 <= i <= n,
            n == ss@.len(),
            sv == sections_view(ss@),
            first_with_type_title(sv, t, title@) is None,
            first_with_title(sv, title@) == first_with_title(sv.subrange(i as int, n as int), title@),
        decreases n - i,
    {
        proof {
            lemma_drop_first_subrange(sv, i as int);
        }
        if str_eq(ss[i].title.as_str(), title) {
            return Some(i);
        }
        i = i + 1;
    }
    // Type-only fallback, only when exactly one section has the type.
    let mut first: Option<usize> = None;
    let mut count: usize = 0;
    let mut i: usize = 0;
    while i < n
        invariant
            0 <= i <= n,
            n == ss@.len(),
            sv == sections_view(ss@),
            count <= i,
            count_type(sv, t) == count + count_type(sv.subrange(i as int, n as int), t),
            match first {
                Some(f) => f < i && first_with_type(sv, t) == Some(sv[f as int]),
                None => count == 0 && first_with_type(sv, t) == first_with_type(
                    sv.subrange(i as int, n as int),
                    t,
                ),
            },
        decreases n - i,
    {
        proof {
            lemma_drop_first_subrange(sv, i as int);
        }
        if ss[i].section_type == t {
            if first.is_none() {
                first = Some(i);
            }
            count = count + 1;
        }
        i = i + 1;
    }
    if count == 1 {
        first
    } else {
        None
    }
}

/// A section of the new tree annotated against the old tree's sections;
/// the "Changes" section is left as it is, and a section without a match is
/// entirely Added.
pub open spec fn annotated_section(olds: Seq<SectionV>, s: SectionV) -> SectionV {
    if s.title == "Changes"@ {
        s
    } else {
        match matching_section(olds, s.section_type, s.title) {
            None => SectionV { content: marked_content(s.content, DiffStatus::Added), ..s },
            Some(o) => SectionV { content: annotated_content(o.content, s.content), ..s },
        }
    }
}

/// Set per-row diff statuses in the sections of `new` against those of
/// `before`, so the detail tabs highlight added, removed and modified rows.
pub fn annotate_section_rows(before: &TreeNode, new: &mut TreeNode)
    ensures
        final(new)@ == (NodeV {
            detail_sections: old(new)@.detail_sections.map_values(
                |s: SectionV| annotated_section(before@.detail_sections, s),
            ),
            ..old(new)@
        }),
{
    let ghost ov = sections_view(before.detail_sections@);
    let ghost nv = sections_view(new.detail_sections@);
    let mut out: Vec<DetailSectionData> = Vec::new();
    let mut i: usize = 0;
    while i < new.detail_sections.len()
        invariant
            0 <= i <= new.detail_sections@.len(),
            ov == sections_view(before.detail_sections@),
            nv == sections_view(new.detail_sections@),
            out@.len() == i,
            forall|k: int| 0 <= k < i ==> #[trigger] section_view(out@[k]) == annotated_section(ov, nv[k]),
        decreases new.detail_sections.len() - i,
    {
        let section = &new.detail_sections[i];
        assert(nv[i as int] == section_view(*section));
        // The injected "Changes" section keeps its own styling.
        if str_eq(section.title.as_str(), "Changes") {
            out.push(section.duplicate());
        } else {
            match find_matching_section(&before.detail_sections, section.section_type, section.title.as_str()) {
                Some(j) => {
                    let content = content_annotated(&before.detail_sections[j].content, &section.content);
                    out.push(section_with_content(section, content));
                },
                None => {
                    // The whole section is new.
                    let content = content_with_rows_marked(&section.content, DiffStatus::Added);
                    out.push(section_with_content(section, content));
                },
            }
        }
        i = i + 1;
    }
    assert(sections_view(out@) =~= nv.map_values(|s: SectionV| annotated_section(ov, s)));
    new.detail_sections = out;
}


// The "Changes" section
/// `title: key`, or `key` for an untitled section.
pub open spec fn prop_name(title: Seq<char>, key: Seq<char>) -> Seq<char> {
    if title.len() == 0 {
        key
    } else {
        title + ": "@ + key
    }
}

pub open spec fn cell_texts(cells: Seq<CellV>) -> Seq<Seq<char>> {
    cells.map_values(|c: CellV| c.text)
}

/// The texts of `cells[skip..]` joined with `", "` (empty when `skip` is past
/// the end).
pub open spec fn join_cells(cells: Seq<CellV>, skip: nat) -> Seq<char> {
    if skip <= cells.len() {
        join(cell_texts(cells.subrange(skip as int, cells.len() as int)), ", "@)
    } else {
        Seq::empty()
    }
}

/// `old -> new` for each column from the second up to `k` whose cells differ.
pub open spec fn changed_cols_upto(o: Seq<CellV>, n: Seq<CellV>, k: int) -> Seq<Seq<char>>
    decreases k,
{
    if k <= 1 {
        Seq::empty()
    } else {
        changed_cols_upto(o, n, k - 1) + if o[k - 1] != n[k - 1] {
            seq![o[k - 1].text + " -> "@ + n[k - 1].text]
        } else {
            Seq::empty()
        }
    }
}

/// `old -> new` for each changed column after the key column.
pub open spec fn changed_cols(o: Seq<CellV>, n: Seq<CellV>) -> Seq<Seq<char>> {
    changed_cols_upto(o, n, if o.len() <= n.len() { o.len() as int } else { n.len() as int })
}

/// The first row whose first cell is `key`.
pub open spec fn first_row_with_cell(rows: Seq<RowV>, key: CellV) -> Option<RowV>
    decreases rows.len(),
{
    if rows.len() == 0 {
        None
    } else if rows[0].cells.len() > 0 && rows[0].cells[0] == key {
        Some(rows[0])
    } else {
        first_row_with_cell(rows.drop_first(), key)
    }
}

/// The change of an old row against the new rows, when a new row with the
/// same key cell has other cells.
pub open spec fn modified_row_prop(o: RowV, new_rows: Seq<RowV>, title: Seq<char>) -> Seq<PropertyDiffV> {
    if o.cells.len() == 0 {
        Seq::empty()
    } else {
        match first_row_with_cell(new_rows, o.cells[0]) {
            Some(nr) => if nr.cells != o.cells {
                seq![
                    prop(
                        prop_name(title, o.cells[0].text),
                        join_cells(o.cells, 1),
                        if changed_cols(o.cells, nr.cells).len() == 0 {
                            join_cells(nr.cells, 1)
                        } else {
                            join(changed_cols(o.cells, nr.cells), "; "@)
                        },
                    ),
                ]
            } else {
                Seq::empty()
            },
            None => Seq::empty(),
        }
    }
}

pub open spec fn modified_row_props(old_rows: Seq<RowV>, new_rows: Seq<RowV>, title: Seq<char>) -> Seq<
    PropertyDiffV,
>
    decreases old_rows.len(),
{
    if old_rows.len() == 0 {
        Seq::empty()
    } else {
        modified_row_props(old_rows.drop_last(), new_rows, title) + modified_row_prop(
            old_rows.last(),
            new_rows,
            title,
        )
    }
}

/// The old rows whose key text no new row has.
pub open spec fn removed_row_props(old_rows: Seq<RowV>, new_rows: Seq<RowV>, title: Seq<char>) -> Seq<
    PropertyDiffV,
>
    decreases old_rows.len(),
{
    if old_rows.len() == 0 {
        Seq::empty()
    } else {
        let o = old_rows.last();
        removed_row_props(old_rows.drop_last(), new_rows, title) + if o.cells.len() > 0
            && !has_row_key(new_rows, o.cells[0].text) {
            seq![prop(prop_name(title, o.cells[0].text), join_cells(o.cells, 1), "(removed)"@)]
        } else {
            Seq::empty()
        }
    }
}

/// The new rows whose key text no old row has.
pub open spec fn added_row_props(old_rows: Seq<RowV>, new_rows: Seq<RowV>, title: Seq<char>) -> Seq<
    PropertyDiffV,
>
    decreases new_rows.len(),
{
    if new_rows.len() == 0 {
        Seq::empty()
    } else {
        let n = new_rows.last();
        added_row_props(old_rows, new_rows.drop_last(), title) + if n.cells.len() > 0
            && !has_row_key(old_rows, n.cells[0].text) {
            seq![prop(prop_name(title, n.cells[0].text), "(added)"@, join_cells(n.cells, 1))]
        } else {
            Seq::empty()
        }
    }
}

/// The row-level changes between two matching contents.
pub open spec fn content_changes(old: ContentV, new: ContentV, title: Seq<char>) -> Seq<PropertyDiffV>
    decreases old, 0nat,
{
    match old {
        ContentV::Table { rows: a, .. } => match new {
            ContentV::Table { rows: b, .. } => modified_row_props(a, b, title) + removed_row_props(a, b, title)
                + added_row_props(a, b, title),
            _ => Seq::empty(),
        },
        ContentV::PlainText(a) => match new {
            ContentV::PlainText(b) => if a != b {
                seq![prop(title, join(a, ", "@), join(b, ", "@))]
            } else {
                Seq::empty()
            },
            _ => Seq::empty(),
        },
        ContentV::Composite(a) => match new {
            ContentV::Composite(b) => composite_changes(
                a,
                b,
                if a.len() <= b.len() { a.len() as int } else { b.len() as int },
            ),
            _ => Seq::empty(),
        },
    }
}

/// The changes of the first `k` pairs of subsections.
pub open spec fn composite_changes(a: Seq<SectionV>, b: Seq<SectionV>, k: int) -> Seq<PropertyDiffV>
    decreases a, k,
{
    if k <= 0 || k > a.len() || k > b.len() {
        Seq::empty()
    } else {
        composite_changes(a, b, k - 1) + content_changes(a[k - 1].content, b[k - 1].content, a[k - 1].title)
    }
}

/// Join the texts of `cells[skip..]` with `", "`.
pub fn join_cell_texts(cells: &[DetailCell], skip: usize) -> (r: String)
    ensures
        r@ == join_cells(cells_view(cells@), skip as nat),
{
    if skip > cells.len() {
        return String::new();
    }
    let mut texts: Vec<String> = Vec::new();
    let mut i = skip;
    while i < cells.len()
        invariant
            skip <= i <= cells@.len(),
            texts@.len() == i - skip,
            forall|k: int| 0 <= k < i - skip ==> #[trigger] texts@[k]@ == cells@[skip + k].text@,
        decreases cells.len() - i,
    {
        texts.push(cells[i].text.clone());
        i = i + 1;
    }
    assert(strings_view(texts@) =~= cell_texts(cells_view(cells@).subrange(skip as int, cells@.len() as int)));
    join_strings(&texts, ", ")
}

proof fn lemma_join_push(parts: Seq<Seq<char>>, x: Seq<char>, sep: Seq<char>)
    ensures
        join(parts.push(x), sep) == if parts.len() == 0 {
            x
        } else {
            join(parts, sep) + sep + x
        },
{
    assert(parts.push(x).drop_last() =~= parts);
}

/// The changed columns of two rows after the key column.
fn changed_columns(o: &Vec<DetailCell>, n: &Vec<DetailCell>) -> (r: Vec<String>)
    ensures
        strings_view(r@) == changed_cols(cells_view(o@), cells_view(n@)),
{
    let ghost ov = cells_view(o@);
    let ghost nv = cells_view(n@);
    let m = if o.len() <= n.len() {
        o.len()
    } else {
        n.len()
    };
    let mut out: Vec<String> = Vec::new();
    assert(strings_view(out@) =~= Seq::<Seq<char>>::empty());
    let mut k: usize = 1;
    if m == 0 {
        return out;
    }
    while k < m
        invariant
            1 <= k <= m,
            m <= o@.len(),
            m <= n@.len(),
            ov == cells_view(o@),
            nv == cells_view(n@),
            strings_view(out@) == changed_cols_upto(ov, nv, k as int),
        decreases m - k,
    {
        let ghost before = out@;
        assert(ov[k as int] == o@[k as int]@);
        assert(nv[k as int] == n@[k as int]@);
        if !cell_equal(&o[k], &n[k]) {
            let mut t = o[k].text.clone();
            t.append(" -> ");
            t.append(n[k].text.as_str());
            out.push(t);
            assert(strings_view(out@) =~= strings_view(before).push(t@));
        } else {
            assert(strings_view(out@) =~= strings_view(before));
        }
        k = k + 1;
    }
    out
}

/// Position of the first row whose first cell equals `key`.
fn find_row_with_cell(rows: &Vec<DetailRow>, key: &DetailCell) -> (r: Option<usize>)
    ensures
        match r {
            Some(i) => i < rows@.len() && first_row_with_cell(rows_view(rows@), key@) == Some(rows_view(rows@)[i as int]),
            None => first_row_with_cell(rows_view(rows@), key@) is None,
        },
{
    let ghost rv = rows_view(rows@);
    let n = rows.len();
    assert(rv.subrange(0, n as int) =~= rv);
    let mut i: usize = 0;
    while i < n
        invariant
            0 <= i <= n,
            n == rows@.len(),
            rv == rows_view(rows@),
            first_row_with_cell(rv, key@) == first_row_with_cell(rv.subrange(i as int, n as int), key@),
        decreases n - i,
    {
        proof {
            assert(rv.subrange(i as int, n as int).drop_first() =~= rv.subrange(i + 1, n as int));
            assert(rv.subrange(i as int, n as int)[0] == rv[i as int]);
            assert(rv[i as int].cells == cells_view(rows@[i as int].cells@));
        }
        if rows[i].cells.len() > 0 && cell_equal(&rows[i].cells[0], key) {
            return Some(i);
        }
        i = i + 1;
    }
    None
}


fn prop_name_string(title: &str, key: &str) -> (r: String)
    ensures
        r@ == prop_name(title@, key@),
{
    if title.is_empty() {
        key.to_owned()
    } else {
        let mut t = title.to_owned();
        t.append(": ");
        t.append(key);
        t
    }
}

/// The change of an old row, when a new row with the same key cell has
/// other cells.
fn modified_row_change(row: &DetailRow, new_rows: &Vec<DetailRow>, title: &str) -> (r: Option<PropertyDiff>)
    ensures
        match r {
            Some(p) => seq![p@] == modified_row_prop(row@, rows_view(new_rows@), title@),
            None => modified_row_prop(row@, rows_view(new_rows@), title@) == Seq::<PropertyDiffV>::empty(),
        },
{
    assert(row@.cells == cells_view(row.cells@));
    if row.cells.len() == 0 {
        return None;
    }
    let key = &row.cells[0];
    match find_row_with_cell(new_rows, key) {
        Some(j) => {
            let new_row = &new_rows[j];
            assert(rows_view(new_rows@)[j as int] == new_row@);
            assert(new_row@.cells == cells_view(new_row.cells@));
            if cells_equal(&row.cells, &new_row.cells) {
                return None;
            }
            let changed = changed_columns(&row.cells, &new_row.cells);
            let new_value = if changed.len() == 0 {
                join_cell_texts(new_row.cells.as_slice(), 1)
            } else {
                join_strings(&changed, "; ")
            };
            let p = PropertyDiff {
                name: prop_name_string(title, key.text.as_str()),
                old_value: join_cell_texts(row.cells.as_slice(), 1),
                new_value,
            };
            Some(p)
        },
        None => None,
    }
}

/// The change of an old row whose key text no new row has.
fn removed_row_change(row: &DetailRow, new_rows: &Vec<DetailRow>, title: &str) -> (r: Option<PropertyDiff>)
    ensures
        match r {
            Some(p) => row@.cells.len() > 0 && !has_row_key(rows_view(new_rows@), row@.cells[0].text)
                && p@ == prop(prop_name(title@, row@.cells[0].text), join_cells(row@.cells, 1), "(removed)"@),
            None => !(row@.cells.len() > 0 && !has_row_key(rows_view(new_rows@), row@.cells[0].text)),
        },
{
    assert(row@.cells == cells_view(row.cells@));
    if row.cells.len() == 0 {
        return None;
    }
    let key = row.cells[0].text.as_str();
    if has_row_key_exec(new_rows.as_slice(), key) {
        return None;
    }
    Some(
        PropertyDiff {
            name: prop_name_string(title, key),
            old_value: join_cell_texts(row.cells.as_slice(), 1),
            new_value: "(removed)".to_owned(),
        },
    )
}

/// The change of a new row whose key text no old row has.
fn added_row_change(old_rows: &Vec<DetailRow>, row: &DetailRow, title: &str) -> (r: Option<PropertyDiff>)
    ensures
        match r {
            Some(p) => row@.cells.len() > 0 && !has_row_key(rows_view(old_rows@), row@.cells[0].text)
                && p@ == prop(prop_name(title@, row@.cells[0].text), "(added)"@, join_cells(row@.cells, 1)),
            None => !(row@.cells.len() > 0 && !has_row_key(rows_view(old_rows@), row@.cells[0].text)),
        },
{
    assert(row@.cells == cells_view(row.cells@));
    if row.cells.len() == 0 {
        return None;
    }
    let key = row.cells[0].text.as_str();
    if has_row_key_exec(old_rows.as_slice(), key) {
        return None;
    }
    Some(
        PropertyDiff {
            name: prop_name_string(title, key),
            old_value: "(added)".to_owned(),
            new_value: join_cell_texts(row.cells.as_slice(), 1),
        },
    )
}

proof fn lemma_props_push(v: Seq<PropertyDiff>, p: PropertyDiff)
    ensures
        props_view(v.push(p)) == props_view(v) + seq![p@],
{
    assert(props_view(v.push(p)) =~= props_view(v) + seq![p@]);
}

/// The row-level changes of two tables.
fn table_changes(a: &Vec<DetailRow>, b: &Vec<DetailRow>, title: &str, diffs: &mut Vec<PropertyDiff>)
    ensures
        props_view(final(diffs)@) == props_view(old(diffs)@) + modified_row_props(rows_view(a@), rows_view(b@), title@)
            + removed_row_props(rows_view(a@), rows_view(b@), title@) + added_row_props(
            rows_view(a@),
            rows_view(b@),
            title@,
        ),
{
    let ghost av = rows_view(a@);
    let ghost bv = rows_view(b@);
    let ghost start = props_view(diffs@);
    // Modified rows: present in both with differing cells.
    let mut i: usize = 0;
    while i < a.len()
        invariant
            0 <= i <= a@.len(),
            av == rows_view(a@),
            bv == rows_view(b@),
            props_view(diffs@) == start + modified_row_props(av.subrange(0, i as int), bv, title@),
        decreases a.len() - i,
    {
        proof {
            let t = av.subrange(0, i + 1);
            assert(t.drop_last() =~= av.subrange(0, i as int));
        }
        let ghost before = diffs@;
        if let Some(p) = modified_row_change(&a[i], b, title) {
            diffs.push(p);
            proof {
                lemma_props_push(before, p);
            }
        }
        i = i + 1;
    }
    assert(av.subrange(0, a@.len() as int) =~= av);
    let ghost after_modified = props_view(diffs@);
    // Removed rows: in the old table only.
    let mut i: usize = 0;
    while i < a.len()
        invariant
            0 <= i <= a@.len(),
            av == rows_view(a@),
            bv == rows_view(b@),
            props_view(diffs@) == after_modified + removed_row_props(av.subrange(0, i as int), bv, title@),
        decreases a.len() - i,
    {
        proof {
            let t = av.subrange(0, i + 1);
            assert(t.drop_last() =~= av.subrange(0, i as int));
        }
        let ghost before = diffs@;
        if let Some(p) = removed_row_change(&a[i], b, title) {
            diffs.push(p);
            proof {
                lemma_props_push(before, p);
            }
        }
        i = i + 1;
    }
    let ghost after_removed = props_view(diffs@);
    // Added rows: in the new table only.
    let mut j: usize = 0;
    while j < b.len()
        invariant
            0 <= j <= b@.len(),
            av == rows_view(a@),
            bv == rows_view(b@),
            props_view(diffs@) == after_removed + added_row_props(av, bv.subrange(0, j as int), title@),
        decreases b.len() - j,
    {
        proof {
            let t = bv.subrange(0, j + 1);
            assert(t.drop_last() =~= bv.subrange(0, j as int));
        }
        let ghost before = diffs@;
        if let Some(p) = added_row_change(a, &b[j], title) {
            diffs.push(p);
            proof {
                lemma_props_push(before, p);
            }
        }
        j = j + 1;
    }
    assert(bv.subrange(0, b@.len() as int) =~= bv);
}

/// Extract the row-level changes between two matching detail contents.
pub fn extract_table_diffs(before: &DetailContent, after: &DetailContent, section_title: &str, diffs: &mut Vec<PropertyDiff>)
    ensures
        props_view(final(diffs)@) == props_view(old(diffs)@) + content_changes(before@, after@, section_title@),
    decreases before,
{
    match before {
        DetailContent::Table { rows: a, .. } => match after {
            DetailContent::Table { rows: b, .. } => {
                table_changes(a, b, section_title, diffs);
            },
            _ => {
                assert(props_view(diffs@) + content_changes(before@, after@, section_title@) =~= props_view(diffs@));
            },
        },
        DetailContent::PlainText(a) => match after {
            DetailContent::PlainText(b) => {
                let ghost start = diffs@;
                if !strings_equal(a, b) {
                    diffs.push(
                        PropertyDiff {
                            name: section_title.to_owned(),
                            old_value: join_strings(a, ", "),
                            new_value: join_strings(b, ", "),
                        },
                    );
                    proof {
                        lemma_props_push(start, diffs@.last());
                        assert(diffs@ == start.push(diffs@.last()));
                    }
                } else {
                    assert(props_view(diffs@) + content_changes(before@, after@, section_title@) =~= props_view(diffs@));
                }
            },
            _ => {
                assert(props_view(diffs@) + content_changes(before@, after@, section_title@) =~= props_view(diffs@));
            },
        },
        DetailContent::Composite(a) => {
            let b = match after {
                DetailContent::Composite(b) => b,
                _ => {
                    assert(props_view(diffs@) + content_changes(before@, after@, section_title@) =~= props_view(diffs@));
                    return;
                },
            };
            proof {
                lemma_composite_view(*before);
                lemma_composite_view(*after);
            }
            let ghost av = before@->Composite_0;
            let ghost bv = after@->Composite_0;
            let ghost start = props_view(diffs@);
            assert(before@ == ContentV::Composite(av));
            assert(after@ == ContentV::Composite(bv));
            let m = if a.len() <= b.len() {
                a.len()
            } else {
                b.len()
            };
            let mut k: usize = 0;
            while k < m
                invariant
                    0 <= k <= m,
                    m <= a@.len(),
                    m <= b@.len(),
                    *before is Composite,
                    a == before->Composite_0,
                    av.len() == a@.len(),
                    bv.len() == b@.len(),
                    forall|x: int| 0 <= x < a@.len() ==> #[trigger] av[x] == section_view(a@[x]),
                    forall|x: int| 0 <= x < b@.len() ==> #[trigger] bv[x] == section_view(b@[x]),
                    props_view(diffs@) == start + composite_changes(av, bv, k as int),
                decreases m - k,
            {
                proof {
                    vstd::std_specs::vec::axiom_vec_index_decreases(*a, k as int);
                    assert(decreases_to!(*before => a@[k as int].content));
                }
                assert(av[k as int] == section_view(a@[k as int]));
                assert(bv[k as int] == section_view(b@[k as int]));
                extract_table_diffs(&a[k].content, &b[k].content, a[k].title.as_str(), diffs);
                k = k + 1;
            }
        },
    }
}


/// Some section has this title.
pub open spec fn has_title(ss: Seq<SectionV>, title: Seq<char>) -> bool {
    exists|j: int| 0 <= j < ss.len() && #[trigger] ss[j].title == title
}

/// The old non-header sections whose title no new section has.
pub open spec fn sections_removed_props(olds: Seq<SectionV>, news: Seq<SectionV>) -> Seq<PropertyDiffV>
    decreases olds.len(),
{
    if olds.len() == 0 {
        Seq::empty()
    } else {
        let s = olds.last();
        sections_removed_props(olds.drop_last(), news) + if !s.render_as_header && !has_title(
            news,
            s.title,
        ) {
            seq![prop("Section removed: "@ + s.title, "(present)"@, "(absent)"@)]
        } else {
            Seq::empty()
        }
    }
}

/// The new non-header sections whose title no old section has.
pub open spec fn sections_added_props(olds: Seq<SectionV>, news: Seq<SectionV>) -> Seq<PropertyDiffV>
    decreases news.len(),
{
    if news.len() == 0 {
        Seq::empty()
    } else {
        let s = news.last();
        sections_added_props(olds, news.drop_last()) + if !s.render_as_header && !has_title(
            olds,
            s.title,
        ) {
            seq![prop("Section added: "@ + s.title, "(absent)"@, "(present)"@)]
        } else {
            Seq::empty()
        }
    }
}

/// The row-level changes of each old section against its matching new one.
pub open spec fn sections_content_props(olds: Seq<SectionV>, news: Seq<SectionV>) -> Seq<PropertyDiffV>
    decreases olds.len(),
{
    if olds.len() == 0 {
        Seq::empty()
    } else {
        let s = olds.last();
        sections_content_props(olds.drop_last(), news) + match matching_section(
            news,
            s.section_type,
            s.title,
        ) {
            Some(ns) => content_changes(s.content, ns.content, s.title),
            None => Seq::empty(),
        }
    }
}

/// The displayed changes between two versions of a node: its text, removed
/// and added sections, and row-level changes of matching sections.
pub open spec fn node_changes(o: NodeV, n: NodeV) -> Seq<PropertyDiffV> {
    (if o.text != n.text {
        seq![prop("Display Name"@, o.text, n.text)]
    } else {
        Seq::empty()
    }) + sections_removed_props(o.detail_sections, n.detail_sections) + sections_added_props(
        o.detail_sections,
        n.detail_sections,
    ) + sections_content_props(o.detail_sections, n.detail_sections)
}

pub open spec fn text_cell(t: Seq<char>) -> CellV {
    CellV { text: t, cell_type: CellType::Text, jump_target: None }
}

/// A table section listing property changes (columns Property, Old, New).
pub open spec fn property_diff_section(title: Seq<char>, props: Seq<PropertyDiffV>) -> SectionV {
    SectionV {
        title,
        content: ContentV::Table {
            header: RowV {
                cells: seq![text_cell("Property"@), text_cell("Old"@), text_cell("New"@)],
                indent: 0,
                row_type: DetailRowType::Header,
                metadata: None,
                diff_status: None,
            },
            rows: props.map_values(
                |p: PropertyDiffV|
                    RowV {
                        cells: seq![text_cell(p.name), text_cell(p.old_value), text_cell(p.new_value)],
                        indent: 0,
                        row_type: DetailRowType::Normal,
                        metadata: None,
                        diff_status: None,
                    },
            ),
            constraints: seq![
                ColumnConstraint::Percentage(33),
                ColumnConstraint::Percentage(33),
                ColumnConstraint::Percentage(34),
            ],
            use_row_selection: false,
        },
        render_as_header: false,
        section_type: DetailSectionType::Custom,
        byte_pattern_rows: None,
    }
}

/// The "Changes" section of two versions of a node, when there are changes
/// to show.
pub open spec fn changes_section(o: NodeV, n: NodeV) -> Option<SectionV> {
    if node_changes(o, n).len() == 0 {
        None
    } else {
        Some(property_diff_section("Changes"@, node_changes(o, n)))
    }
}

/// Whether some section has this title.
fn has_title_exec(ss: &Vec<DetailSectionData>, title: &str) -> (r: bool)
    ensures
        r == has_title(sections_view(ss@), title@),
{
    let ghost sv = sections_view(ss@);
    let mut i: usize = 0;
    while i < ss.len()
        invariant
            0 <= i <= ss@.len(),
            sv == sections_view(ss@),
            forall|j: int| 0 <= j < i ==> #[trigger] sv[j].title != title@,
        decreases ss.len() - i,
    {
        assert(sv[i as int] == section_view(ss@[i as int]));
        if str_eq(ss[i].title.as_str(), title) {
            assert(sv[i as int].title == title@);
            return true;
        }
        i = i + 1;
    }
    false
}

fn titled(prefix: &str, title: &str) -> (r: String)
    ensures
        r@ == prefix@ + title@,
{
    let mut t = prefix.to_owned();
    t.append(title);
    t
}

/// Collect the displayed changes between two versions of a node.
fn collect_node_changes(before: &TreeNode, after: &TreeNode) -> (r: Vec<PropertyDiff>)
    ensures
        props_view(r@) == node_changes(before@, after@),
{
    let ghost ov = sections_view(before.detail_sections@);
    let ghost nv = sections_view(after.detail_sections@);
    let mut diffs: Vec<PropertyDiff> = Vec::new();
    if before.text != after.text {
        diffs.push(
            PropertyDiff {
                name: "Display Name".to_owned(),
                old_value: before.text.clone(),
                new_value: after.text.clone(),
            },
        );
    }
    let ghost start = props_view(diffs@);
    assert(start =~= if before@.text != after@.text {
        seq![prop("Display Name"@, before@.text, after@.text)]
    } else {
        Seq::<PropertyDiffV>::empty()
    });
    // Sections removed in the new version.
    let mut i: usize = 0;
    while i < before.detail_sections.len()
        invariant
            0 <= i <= before.detail_sections@.len(),
            ov == sections_view(before.detail_sections@),
            nv == sections_view(after.detail_sections@),
            props_view(diffs@) == start + sections_removed_props(ov.subrange(0, i as int), nv),
        decreases before.detail_sections.len() - i,
    {
        let s = &before.detail_sections[i];
        proof {
            let t = ov.subrange(0, i + 1);
            assert(t.drop_last() =~= ov.subrange(0, i as int));
            assert(t.last() == section_view(*s));
        }
        let ghost prev = diffs@;
        if !s.render_as_header && !has_title_exec(&after.detail_sections, s.title.as_str()) {
            let p = PropertyDiff {
                name: titled("Section removed: ", s.title.as_str()),
                old_value: "(present)".to_owned(),
                new_value: "(absent)".to_owned(),
            };
            diffs.push(p);
            proof {
                lemma_props_push(prev, p);
            }
        }
        i = i + 1;
    }
    assert(ov.subrange(0, before.detail_sections@.len() as int) =~= ov);
    let ghost after_removed = props_view(diffs@);
    // Sections added in the new version.
    let mut i: usize = 0;
    while i < after.detail_sections.len()
        invariant
            0 <= i <= after.detail_sections@.len(),
            ov == sections_view(before.detail_sections@),
            nv == sections_view(after.detail_sections@),
            props_view(diffs@) == after_removed + sections_added_props(ov, nv.subrange(0, i as int)),
        decreases after.detail_sections.len() - i,
    {
        let s = &after.detail_sections[i];
        proof {
            let t = nv.subrange(0, i + 1);
            assert(t.drop_last() =~= nv.subrange(0, i as int));
            assert(t.last() == section_view(*s));
        }
        let ghost prev = diffs@;
        if !s.render_as_header && !has_title_exec(&before.detail_sections, s.title.as_str()) {
            let p = PropertyDiff {
                name: titled("Section added: ", s.title.as_str()),
                old_value: "(absent)".to_owned(),
                new_value: "(present)".to_owned(),
            };
            diffs.push(p);
            proof {
                lemma_props_push(prev, p);
            }
        }
        i = i + 1;
    }
    assert(nv.subrange(0, after.detail_sections@.len() as int) =~= nv);
    let ghost after_added = props_view(diffs@);
    // Row-level changes of matching sections.
    let mut i: usize = 0;
    while i < before.detail_sections.len()
        invariant
            0 <= i <= before.detail_sections@.len(),
            ov == sections_view(before.detail_sections@),
            nv == sections_view(after.detail_sections@),
            props_view(diffs@) == after_added + sections_content_props(ov.subrange(0, i as int), nv),
        decreases before.detail_sections.len() - i,
    {
        let s = &before.detail_sections[i];
        proof {
            let t = ov.subrange(0, i + 1);
            assert(t.drop_last() =~= ov.subrange(0, i as int));
            assert(t.last() == section_view(*s));
        }
        let ghost prev = props_view(diffs@);
        match find_matching_section(&after.detail_sections, s.section_type, s.title.as_str()) {
            Some(j) => {
                extract_table_diffs(&s.content, &after.detail_sections[j].content, s.title.as_str(), &mut diffs);
            },
            None => {
                assert(prev + Seq::<PropertyDiffV>::empty() =~= prev);
            },
        }
        i = i + 1;
    }
    assert(ov.subrange(0, before.detail_sections@.len() as int) =~= ov);
    diffs
}

/// A detail section with a table of property differences.
pub fn build_property_diff_section(title: &str, diffs: &Vec<PropertyDiff>) -> (r: DetailSectionData)
    ensures
        r@ == property_diff_section(title@, props_view(diffs@)),
{
    let header = DetailRow::header(
        vec![DetailCell::text("Property"), DetailCell::text("Old"), DetailCell::text("New")],
    );
    let mut rows: Vec<DetailRow> = Vec::new();
    let mut i: usize = 0;
    while i < diffs.len()
        invariant
            0 <= i <= diffs@.len(),
            rows@.len() == i,
            forall|k: int|
                0 <= k < i ==> #[trigger] rows@[k]@ == (RowV {
                    cells: seq![
                        text_cell(diffs@[k].name@),
                        text_cell(diffs@[k].old_value@),
                        text_cell(diffs@[k].new_value@),
                    ],
                    indent: 0,
                    row_type: DetailRowType::Normal,
                    metadata: None,
                    diff_status: None,
                }),
        decreases diffs.len() - i,
    {
        let p = &diffs[i];
        let cells = vec![
            DetailCell::text(p.name.as_str()),
            DetailCell::text(p.old_value.as_str()),
            DetailCell::text(p.new_value.as_str()),
        ];
        let row = DetailRow::normal(cells, 0);
        assert(cells_view(row.cells@) =~= seq![
            text_cell(p.name@),
            text_cell(p.old_value@),
            text_cell(p.new_value@),
        ]);
        rows.push(row);
        i = i + 1;
    }
    let constraints = vec![
        ColumnConstraint::Percentage(33),
        ColumnConstraint::Percentage(33),
        ColumnConstraint::Percentage(34),
    ];
    let r = DetailSectionData::new(
        title.to_owned(),
        DetailContent::Table { header, rows, constraints, use_row_selection: false },
        false,
    );
    proof {
        assert(cells_view(header.cells@) =~= seq![text_cell("Property"@), text_cell("Old"@), text_cell("New"@)]);
        assert(rows_view(rows@) =~= props_view(diffs@).map_values(
            |p: PropertyDiffV|
                RowV {
                    cells: seq![text_cell(p.name), text_cell(p.old_value), text_cell(p.new_value)],
                    indent: 0,
                    row_type: DetailRowType::Normal,
                    metadata: None,
                    diff_status: None,
                },
        ));
        assert(constraints@ =~= seq![
            ColumnConstraint::Percentage(33),
            ColumnConstraint::Percentage(33),
            ColumnConstraint::Percentage(34),
        ]);
    }
    r
}

/// Build the "Changes" detail section of two versions of a node; `None`
/// when there is no displayable change.
pub fn build_changes_section(before: &TreeNode, after: &TreeNode) -> (r: Option<DetailSectionData>)
    ensures
        match r {
            Some(s) => changes_section(before@, after@) == Some(s@),
            None => changes_section(before@, after@) is None,
        },
{
    let diffs = collect_node_changes(before, after);
    if diffs.len() == 0 {
        return None;
    }
    Some(build_property_diff_section("Changes", &diffs))
}


// Tree merging
/// The last of `olds` whose match key is `key` (siblings should have
/// distinct keys; of several, the last one is compared).
pub open spec fn last_with_key(olds: Seq<HierV>, key: Seq<char>) -> Option<HierV>
    decreases olds.len(),
{
    if olds.len() == 0 {
        None
    } else if key_of(olds.last().node) == key {
        Some(olds.last())
    } else {
        last_with_key(olds.drop_last(), key)
    }
}

/// Some node of `hs` has match key `key`.
pub open spec fn has_hier_key(hs: Seq<HierV>, key: Seq<char>) -> bool {
    exists|j: int| 0 <= j < hs.len() && #[trigger] key_of(hs[j].node) == key
}

/// The old nodes whose key no new node has, each marked Removed with its
/// subtree, in their order.
pub open spec fn removed_hiers(olds: Seq<HierV>, news: Seq<HierV>) -> Seq<MergedV>
    decreases olds.len(),
{
    if olds.len() == 0 {
        Seq::empty()
    } else {
        removed_hiers(olds.drop_last(), news) + if !has_hier_key(news, key_of(olds.last().node)) {
            seq![marked(olds.last(), DiffStatus::Removed)]
        } else {
            Seq::empty()
        }
    }
}

/// A merged child that makes its parent Modified: one whose own content
/// changed or that was added or removed, unless it is reached only through
/// parent-ref inheritance.
pub open spec fn child_counts(c: MergedV) -> bool {
    &&& !(c.node.node_type == NodeType::ParentRefService || c.node.node_type == NodeType::ParentRefs)
    &&& (c.own_changed || c.node.diff_status == Some(DiffStatus::Added) || c.node.diff_status == Some(
        DiffStatus::Removed,
    ))
}

pub open spec fn children_changed(cs: Seq<MergedV>) -> bool {
    exists|i: int| 0 <= i < cs.len() && #[trigger] child_counts(cs[i])
}

/// Position of the first header section.
pub open spec fn first_header(ss: Seq<SectionV>) -> Option<int>
    decreases ss.len(),
{
    if ss.len() == 0 {
        None
    } else if ss[0].render_as_header {
        Some(0)
    } else {
        match first_header(ss.drop_first()) {
            Some(i) => Some(i + 1),
            None => None,
        }
    }
}

/// `ch` inserted right after the first header section, or at the front.
pub open spec fn insert_changes(ss: Seq<SectionV>, ch: SectionV) -> Seq<SectionV> {
    match first_header(ss) {
        Some(h) => ss.subrange(0, h + 1) + seq![ch] + ss.subrange(h + 1, ss.len() as int),
        None => seq![ch] + ss,
    }
}

/// A node present in both trees, merged from its old and new versions and
/// its merged children: Modified when its own content differs or a counted
/// child changed; a differing node gets a "Changes" section and per-row
/// marks; `old_text` holds the old text when the text changed.
pub open spec fn merged_pair(o: HierV, n: HierV, children: Seq<MergedV>) -> MergedV {
    let differs = !node_content_equal(o.node, n.node);
    let status = if differs || children_changed(children) {
        DiffStatus::Modified
    } else {
        DiffStatus::Unchanged
    };
    let with_changes = if differs {
        match changes_section(o.node, n.node) {
            Some(ch) => insert_changes(n.node.detail_sections, ch),
            None => n.node.detail_sections,
        }
    } else {
        n.node.detail_sections
    };
    let sections = if differs {
        with_changes.map_values(|s: SectionV| annotated_section(o.node.detail_sections, s))
    } else {
        with_changes
    };
    MergedV {
        node: NodeV {
            diff_status: Some(status),
            old_text: if o.node.text != n.node.text {
                Some(o.node.text)
            } else {
                n.node.old_text
            },
            detail_sections: sections,
            ..n.node
        },
        children,
        own_changed: differs,
    }
}

/// A new node merged against the old siblings: merged with the old node of
/// the same key, or Added with its whole subtree.
pub open spec fn merge_entry(olds: Seq<HierV>, n: HierV) -> MergedV
    decreases n,
{
    match last_with_key(olds, key_of(n.node)) {
        Some(o) => merged_pair(o, n, merge_list(o.children, n.children)),
        None => marked(n, DiffStatus::Added),
    }
}

/// The merge of two sibling lists: the new nodes in their order (matched or
/// Added), then the Removed old nodes.
pub open spec fn merge_list(olds: Seq<HierV>, news: Seq<HierV>) -> Seq<MergedV>
    decreases news,
{
    Seq::new(
        news.len(),
        |i: int|
            if 0 <= i < news.len() {
                merge_entry(olds, news[i])
            } else {
                arbitrary()
            },
    ) + removed_hiers(olds, news)
}

/// Position of the last node with match key `key`.
fn find_last_with_key(hs: &[HierNode], key: &String) -> (r: Option<usize>)
    ensures
        match r {
            Some(j) => j < hs@.len() && last_with_key(hiers_view(hs@), key@) == Some(hiers_view(hs@)[j as int]),
            None => last_with_key(hiers_view(hs@), key@) is None,
        },
{
    let ghost hv = hiers_view(hs@);
    let mut i = hs.len();
    assert(hv.subrange(0, hs@.len() as int) =~= hv);
    while i > 0
        invariant
            0 <= i <= hs@.len(),
            hv == hiers_view(hs@),
            last_with_key(hv, key@) == last_with_key(hv.subrange(0, i as int), key@),
        decreases i,
    {
        proof {
            let t = hv.subrange(0, i as int);
            assert(t.drop_last() =~= hv.subrange(0, i - 1));
            assert(t.last() == hier_view(hs@[i - 1]));
        }
        let k = match_key(&hs[i - 1].tree_node);
        if k == *key {
            return Some(i - 1);
        }
        i = i - 1;
    }
    None
}

/// Whether some node has match key `key`.
fn has_hier_key_exec(hs: &[HierNode], key: &String) -> (r: bool)
    ensures
        r == has_hier_key(hiers_view(hs@), key@),
{
    let ghost hv = hiers_view(hs@);
    let mut i: usize = 0;
    while i < hs.len()
        invariant
            0 <= i <= hs@.len(),
            hv == hiers_view(hs@),
            forall|j: int| 0 <= j < i ==> #[trigger] key_of(hv[j].node) != key@,
        decreases hs.len() - i,
    {
        assert(hv[i as int] == hier_view(hs@[i as int]));
        let k = match_key(&hs[i].tree_node);
        if k == *key {
            assert(key_of(hv[i as int].node) == key@);
            return true;
        }
        i = i + 1;
    }
    false
}

proof fn lemma_removed_step(ov: Seq<HierV>, nv: Seq<HierV>, i: int)
    requires
        0 <= i < ov.len(),
    ensures
        removed_hiers(ov.subrange(0, i + 1), nv) == removed_hiers(ov.subrange(0, i), nv) + if !has_hier_key(
            nv,
            key_of(ov[i].node),
        ) {
            seq![marked(ov[i], DiffStatus::Removed)]
        } else {
            Seq::<MergedV>::empty()
        },
{
    let t = ov.subrange(0, i + 1);
    assert(t.drop_last() =~= ov.subrange(0, i));
}

/// Append the old nodes whose key no new node has, marked Removed.
fn push_removed(olds: &[HierNode], news: &[HierNode], out: &mut Vec<MergedNode>)
    ensures
        mergeds_view(final(out)@) == mergeds_view(old(out)@) + removed_hiers(hiers_view(olds@), hiers_view(news@)),
{
    let ghost ov = hiers_view(olds@);
    let ghost nv = hiers_view(news@);
    let ghost start = mergeds_view(out@);
    let mut i: usize = 0;
    assert(removed_hiers(ov.subrange(0, 0), nv) =~= Seq::<MergedV>::empty());
    assert(start + Seq::<MergedV>::empty() =~= start);
    while i < olds.len()
        invariant
            0 <= i <= olds@.len(),
            ov == hiers_view(olds@),
            nv == hiers_view(news@),
            mergeds_view(out@) == start + removed_hiers(ov.subrange(0, i as int), nv),
        decreases olds.len() - i,
    {
        proof {
            lemma_removed_step(ov, nv, i as int);
        }
        assert(ov[i as int] == hier_view(olds@[i as int]));
        let key = match_key(&olds[i].tree_node);
        let ghost prev = out@;
        if !has_hier_key_exec(news, &key) {
            let m = mark_subtree(&olds[i], DiffStatus::Removed);
            out.push(m);
            proof {
                lemma_mergeds_push(prev, m);
            }
        } else {
            assert(mergeds_view(out@) + Seq::<MergedV>::empty() =~= mergeds_view(out@));
        }
        i = i + 1;
    }
    assert(ov.subrange(0, olds@.len() as int) =~= ov);
}

/// Whether a counted child changed.
fn children_changed_exec(cs: &Vec<MergedNode>) -> (r: bool)
    ensures
        r == children_changed(mergeds_view(cs@)),
{
    let ghost cv = mergeds_view(cs@);
    let mut i: usize = 0;
    while i < cs.len()
        invariant
            0 <= i <= cs@.len(),
            cv == mergeds_view(cs@),
            forall|j: int| 0 <= j < i ==> !#[trigger] child_counts(cv[j]),
        decreases cs.len() - i,
    {
        let c = &cs[i];
        assert(cv[i as int] == merged_view(*c));
        let inherited = c.node.node_type == NodeType::ParentRefService || c.node.node_type == NodeType::ParentRefs;
        let structural = c.node.diff_status == Some(DiffStatus::Added) || c.node.diff_status == Some(DiffStatus::Removed);
        if !inherited && (c.own_changed || structural) {
            assert(child_counts(cv[i as int]));
            return true;
        }
        i = i + 1;
    }
    false
}

proof fn lemma_sections_push(v: Seq<DetailSectionData>, x: DetailSectionData)
    ensures
        sections_view(v.push(x)) == sections_view(v).push(section_view(x)),
{
    assert(sections_view(v.push(x)) =~= sections_view(v).push(section_view(x)));
}

/// The sections with `changes` inserted right after the first header
/// section (so the header is still recognised), or at the front.
fn insert_after_header(sections: &Vec<DetailSectionData>, changes: DetailSectionData) -> (r: Vec<DetailSectionData>)
    ensures
        sections_view(r@) == insert_changes(sections_view(sections@), changes@),
{
    let ghost sv = sections_view(sections@);
    let ghost ch = changes@;
    let mut out: Vec<DetailSectionData> = Vec::new();
    let mut inserted: Option<usize> = None;
    let mut i: usize = 0;
    assert(sv.subrange(0, sv.len() as int) =~= sv);
    assert(sections_view(out@) =~= sv.subrange(0, 0));
    while i < sections.len()
        invariant
            0 <= i <= sections@.len(),
            sv == sections_view(sections@),
            ch == changes@,
            match inserted {
                Some(h) => h < i && first_header(sv) == Some(h as int) && sections_view(out@) == sv.subrange(0, h + 1)
                    + seq![ch] + sv.subrange(h + 1, i as int),
                None => sections_view(out@) == sv.subrange(0, i as int) && first_header(sv) == match first_header(
                    sv.subrange(i as int, sv.len() as int),
                ) {
                    Some(k) => Some(k + i),
                    None => None,
                },
            },
        decreases sections.len() - i,
    {
        let s = sections[i].duplicate();
        let is_header = s.render_as_header;
        let ghost prev = out@;
        out.push(s);
        proof {
            lemma_sections_push(prev, s);
            assert(sv[i as int] == section_view(sections@[i as int]));
            assert(sv.subrange(i as int, sv.len() as int).drop_first() =~= sv.subrange(i + 1, sv.len() as int));
            assert(sv.subrange(i as int, sv.len() as int)[0] == sv[i as int]);
        }
        match inserted {
            Some(h) => {
                assert(sections_view(out@) =~= sv.subrange(0, h + 1) + seq![ch] + sv.subrange(h + 1, i + 1));
            },
            None => {
                if is_header {
                    let ghost prev2 = out@;
                    let c = changes.duplicate();
                    out.push(c);
                    proof {
                        lemma_sections_push(prev2, c);
                    }
                    inserted = Some(i);
                    assert(sections_view(out@) =~= sv.subrange(0, i + 1) + seq![ch] + sv.subrange(i + 1, i + 1));
                } else {
                    assert(sections_view(out@) =~= sv.subrange(0, i + 1));
                }
            },
        }
        i = i + 1;
    }
    if inserted.is_none() {
        let ghost prev = out@;
        assert(sections_view(prev) == sv);
        out.insert(0, changes);
        assert(out@ == prev.insert(0, changes));
        assert(sections_view(out@) =~= seq![ch] + sv);
        assert(sv.subrange(sv.len() as int, sv.len() as int) =~= Seq::<SectionV>::empty());
    } else {
        assert(sv.subrange(0, sv.len() as int) =~= sv);
    }
    out
}


/// Merge the old and new versions of a node, given its merged children.
fn merge_pair_exec(o: &HierNode, n: &HierNode, children: Vec<MergedNode>) -> (r: MergedNode)
    ensures
        r@ == merged_pair(o@, n@, mergeds_view(children@)),
{
    // Whether this node's own content differs.
    let content_differs = !node_content_equal_exec(&o.tree_node, &n.tree_node);
    // The "Changes" tab when content differs; even when it finds nothing to
    // show (only row order changed), the node counts as modified.
    let changes = if content_differs {
        build_changes_section(&o.tree_node, &n.tree_node)
    } else {
        None
    };
    let own_changed = content_differs;
    // Modified only when a direct child changed its own content or was added
    // or removed; changes reached through parent-ref inheritance do not
    // bubble up.
    let children_changed = children_changed_exec(&children);
    let status = if own_changed || children_changed {
        DiffStatus::Modified
    } else {
        DiffStatus::Unchanged
    };
    let mut node = n.tree_node.duplicate();
    node.diff_status = Some(status);
    if o.tree_node.text != node.text {
        node.old_text = Some(o.tree_node.text.clone());
    }
    let ghost nv = n@.node;
    let ghost ov = o@.node;
    // The "Changes" section goes right after any header section.
    if let Some(section) = changes {
        let sections = insert_after_header(&node.detail_sections, section);
        node.detail_sections = sections;
    }
    let ghost with_changes = sections_view(node.detail_sections@);
    assert(with_changes == if !node_content_equal(ov, nv) {
        match changes_section(ov, nv) {
            Some(ch) => insert_changes(nv.detail_sections, ch),
            None => nv.detail_sections,
        }
    } else {
        nv.detail_sections
    });
    // Per-row statuses so the detail tabs highlight changes.
    if content_differs {
        annotate_section_rows(&o.tree_node, &mut node);
    }
    let r = MergedNode { node, children, own_changed };
    proof {
        lemma_merged_view(r);
    }
    assert(r@.node == merged_pair(o@, n@, mergeds_view(children@)).node);
    r
}

/// Merge a new node against its old siblings.
fn merge_entry_exec(olds: &[HierNode], n: &HierNode) -> (r: MergedNode)
    ensures
        r@ == merge_entry(hiers_view(olds@), n@),
    decreases n,
{
    proof {
        lemma_hier_view(*n);
    }
    let key = match_key(&n.tree_node);
    match find_last_with_key(olds, &key) {
        None => {
            // The node exists only in the new tree.
            mark_subtree(n, DiffStatus::Added)
        },
        Some(j) => {
            let o = &olds[j];
            proof {
                lemma_hier_view(*o);
            }
            assert(hiers_view(olds@)[j as int] == o@);
            // The node exists in both trees: merge the children.
            let ghost ocv = hiers_view(o.children@);
            let ghost ncv = hiers_view(n.children@);
            let mut merged_children: Vec<MergedNode> = Vec::new();
            let mut i: usize = 0;
            while i < n.children.len()
                invariant
                    0 <= i <= n.children@.len(),
                    ocv == hiers_view(o.children@),
                    ncv == hiers_view(n.children@),
                    merged_children@.len() == i,
                    forall|k: int| 0 <= k < i ==> #[trigger] merged_view(merged_children@[k]) == merge_entry(ocv, ncv[k]),
                decreases n.children.len() - i,
            {
                proof {
                    vstd::std_specs::vec::axiom_vec_index_decreases(n.children, i as int);
                    assert(decreases_to!(*n => n.children@[i as int]));
                }
                assert(ncv[i as int] == hier_view(n.children@[i as int]));
                let c = merge_entry_exec(o.children.as_slice(), &n.children[i]);
                merged_children.push(c);
                i = i + 1;
            }
            let ghost news_part = mergeds_view(merged_children@);
            assert(news_part =~= Seq::new(
                ncv.len(),
                |k: int| if 0 <= k < ncv.len() { merge_entry(ocv, ncv[k]) } else { arbitrary() },
            ));
            push_removed(o.children.as_slice(), n.children.as_slice(), &mut merged_children);
            assert(mergeds_view(merged_children@) == merge_list(ocv, ncv));
            merge_pair_exec(o, n, merged_children)
        },
    }
}

/// Merge two lists of sibling nodes into merged nodes with [`DiffStatus`]
/// annotations.
///
/// Siblings are matched by [`match_key`]; the new tree's order is kept, and
/// the removed (old-only) nodes are appended at the end.
pub fn merge_children(old_children: &[HierNode], new_children: &[HierNode]) -> (r: Vec<MergedNode>)
    ensures
        mergeds_view(r@) == merge_list(hiers_view(old_children@), hiers_view(new_children@)),
{
    let ghost ov = hiers_view(old_children@);
    let ghost nv = hiers_view(new_children@);
    let mut result: Vec<MergedNode> = Vec::new();
    let mut i: usize = 0;
    while i < new_children.len()
        invariant
            0 <= i <= new_children@.len(),
            ov == hiers_view(old_children@),
            nv == hiers_view(new_children@),
            result@.len() == i,
            forall|k: int| 0 <= k < i ==> #[trigger] merged_view(result@[k]) == merge_entry(ov, nv[k]),
        decreases new_children.len() - i,
    {
        assert(nv[i as int] == hier_view(new_children@[i as int]));
        let m = merge_entry_exec(old_children, &new_children[i]);
        result.push(m);
        i = i + 1;
    }
    assert(mergeds_view(result@) =~= Seq::new(
        nv.len(),
        |k: int| if 0 <= k < nv.len() { merge_entry(ov, nv[k]) } else { arbitrary() },
    ));
    // Removed nodes (old only).
    push_removed(old_children, new_children, &mut result);
    result
}


// Summary
/// 1 when the node has this status.
pub open spec fn status_count(m: MergedV, status: DiffStatus) -> nat {
    if m.node.diff_status == Some(status) {
        1
    } else {
        0
    }
}

/// Services and jobs with this status in a subtree: a service or job node
/// counts itself and is not descended into.
pub open spec fn service_count_one(m: MergedV, status: DiffStatus) -> nat
    decreases m,
{
    if m.node.node_type == NodeType::Service || m.node.node_type == NodeType::Job {
        status_count(m, status)
    } else {
        service_count(m.children, status)
    }
}

pub open spec fn service_count(ms: Seq<MergedV>, status: DiffStatus) -> nat
    decreases ms,
{
    if ms.len() == 0 {
        0
    } else {
        service_count(ms.subrange(0, ms.len() - 1), status) + service_count_one(ms[ms.len() - 1], status)
    }
}

/// All nodes with this status in a subtree.
pub open spec fn all_count_one(m: MergedV, status: DiffStatus) -> nat
    decreases m,
{
    status_count(m, status) + all_count(m.children, status)
}

pub open spec fn all_count(ms: Seq<MergedV>, status: DiffStatus) -> nat
    decreases ms,
{
    if ms.len() == 0 {
        0
    } else {
        all_count(ms.subrange(0, ms.len() - 1), status) + all_count_one(ms[ms.len() - 1], status)
    }
}

/// The services and jobs with this status below the top-level sections.
pub open spec fn roots_service_count(roots: Seq<MergedV>, status: DiffStatus) -> nat
    decreases roots.len(),
{
    if roots.len() == 0 {
        0
    } else {
        roots_service_count(roots.drop_last(), status) + service_count(roots.last().children, status)
    }
}

/// The direct children of the top-level sections with this status.
pub open spec fn roots_child_count(roots: Seq<MergedV>, status: DiffStatus) -> nat
    decreases roots.len(),
{
    if roots.len() == 0 {
        0
    } else {
        roots_child_count(roots.drop_last(), status) + all_count_direct(roots.last().children, status)
    }
}

/// The nodes of a list (not their descendants) with this status.
pub open spec fn all_count_direct(ms: Seq<MergedV>, status: DiffStatus) -> nat
    decreases ms.len(),
{
    if ms.len() == 0 {
        0
    } else {
        all_count_direct(ms.drop_last(), status) + status_count(ms.last(), status)
    }
}

/// Counts, each capped at `usize::MAX`.
pub open spec fn counted(added: nat, removed: nat, modified: nat, unchanged: nat) -> DiffSummary {
    DiffSummary {
        added: saturated(added),
        removed: saturated(removed),
        modified: saturated(modified),
        unchanged: saturated(unchanged),
    }
}

/// The summary of a merged tree: its services and jobs by status, or, when
/// there are none, the direct children of its top-level sections.
pub open spec fn tree_summary(roots: Seq<MergedV>) -> DiffSummary {
    if roots_service_count(roots, DiffStatus::Added) == 0 && roots_service_count(roots, DiffStatus::Removed)
        == 0 && roots_service_count(roots, DiffStatus::Modified) == 0 && roots_service_count(
        roots,
        DiffStatus::Unchanged,
    ) == 0 {
        counted(
            roots_child_count(roots, DiffStatus::Added),
            roots_child_count(roots, DiffStatus::Removed),
            roots_child_count(roots, DiffStatus::Modified),
            roots_child_count(roots, DiffStatus::Unchanged),
        )
    } else {
        counted(
            roots_service_count(roots, DiffStatus::Added),
            roots_service_count(roots, DiffStatus::Removed),
            roots_service_count(roots, DiffStatus::Modified),
            roots_service_count(roots, DiffStatus::Unchanged),
        )
    }
}

/// `s` with the given counts added (saturating).
pub open spec fn add_counts(s: DiffSummary, added: nat, removed: nat, modified: nat, unchanged: nat) -> DiffSummary {
    DiffSummary {
        added: saturated((s.added + added) as nat),
        removed: saturated((s.removed + removed) as nat),
        modified: saturated((s.modified + modified) as nat),
        unchanged: saturated((s.unchanged + unchanged) as nat),
    }
}

/// Count one node's status into the summary.
fn tally(summary: &mut DiffSummary, status: Option<DiffStatus>)
    ensures
        *final(summary) == add_counts(
            *old(summary),
            if status == Some(DiffStatus::Added) { 1nat } else { 0nat },
            if status == Some(DiffStatus::Removed) { 1nat } else { 0nat },
            if status == Some(DiffStatus::Modified) { 1nat } else { 0nat },
            if status == Some(DiffStatus::Unchanged) { 1nat } else { 0nat },
        ),
{
    match status {
        Some(DiffStatus::Added) => {
            summary.added = summary.added.saturating_add(1);
        },
        Some(DiffStatus::Removed) => {
            summary.removed = summary.removed.saturating_add(1);
        },
        Some(DiffStatus::Modified) => {
            summary.modified = summary.modified.saturating_add(1);
        },
        Some(DiffStatus::Unchanged) => {
            summary.unchanged = summary.unchanged.saturating_add(1);
        },
        None => {},
    }
}

proof fn lemma_add_counts_twice(s: DiffSummary, a1: nat, r1: nat, m1: nat, u1: nat, a2: nat, r2: nat, m2: nat, u2: nat)
    ensures
        add_counts(add_counts(s, a1, r1, m1, u1), a2, r2, m2, u2) == add_counts(s, a1 + a2, r1 + r2, m1 + m2, u1 + u2),
{
}

proof fn lemma_add_counts_zero(s: DiffSummary)
    ensures
        add_counts(s, 0, 0, 0, 0) == s,
{
}

/// Tally services and jobs in a subtree.
fn count_services_in(m: &MergedNode, summary: &mut DiffSummary)
    ensures
        *final(summary) == add_counts(
            *old(summary),
            service_count_one(m@, DiffStatus::Added),
            service_count_one(m@, DiffStatus::Removed),
            service_count_one(m@, DiffStatus::Modified),
            service_count_one(m@, DiffStatus::Unchanged),
        ),
    decreases m,
{
    proof {
        lemma_merged_view(*m);
    }
    if m.node.node_type == NodeType::Service || m.node.node_type == NodeType::Job {
        tally(summary, m.node.diff_status);
        return;
    }
    let ghost start = *summary;
    let ghost cv = mergeds_view(m.children@);
    let mut i: usize = 0;
    proof {
        lemma_add_counts_zero(start);
    }
    while i < m.children.len()
        invariant
            0 <= i <= m.children@.len(),
            cv == mergeds_view(m.children@),
            *summary == add_counts(
                start,
                service_count(cv.subrange(0, i as int), DiffStatus::Added),
                service_count(cv.subrange(0, i as int), DiffStatus::Removed),
                service_count(cv.subrange(0, i as int), DiffStatus::Modified),
                service_count(cv.subrange(0, i as int), DiffStatus::Unchanged),
            ),
        decreases m.children.len() - i,
    {
        proof {
            vstd::std_specs::vec::axiom_vec_index_decreases(m.children, i as int);
            assert(decreases_to!(*m => m.children@[i as int]));
            let t = cv.subrange(0, i + 1);
            assert(t.subrange(0, t.len() - 1) =~= cv.subrange(0, i as int));
            assert(t[t.len() - 1] == cv[i as int]);
        }
        let ghost before = *summary;
        count_services_in(&m.children[i], summary);
        proof {
            let p = cv.subrange(0, i as int);
            let c = cv[i as int];
            lemma_add_counts_twice(
                start,
                service_count(p, DiffStatus::Added),
                service_count(p, DiffStatus::Removed),
                service_count(p, DiffStatus::Modified),
                service_count(p, DiffStatus::Unchanged),
                service_count_one(c, DiffStatus::Added),
                service_count_one(c, DiffStatus::Removed),
                service_count_one(c, DiffStatus::Modified),
                service_count_one(c, DiffStatus::Unchanged),
            );
        }
        i = i + 1;
    }
    assert(cv.subrange(0, m.children@.len() as int) =~= cv);
}

/// Tally the statuses of service and job nodes only (the most meaningful
/// unit of a diagnostic database diff); other nodes are descended into.
pub fn count_service_statuses(nodes: &[MergedNode], summary: &mut DiffSummary)
    ensures
        *final(summary) == add_counts(
            *old(summary),
            service_count(mergeds_view(nodes@), DiffStatus::Added),
            service_count(mergeds_view(nodes@), DiffStatus::Removed),
            service_count(mergeds_view(nodes@), DiffStatus::Modified),
            service_count(mergeds_view(nodes@), DiffStatus::Unchanged),
        ),
{
    let ghost start = *summary;
    let ghost cv = mergeds_view(nodes@);
    let mut i: usize = 0;
    proof {
        lemma_add_counts_zero(start);
    }
    while i < nodes.len()
        invariant
            0 <= i <= nodes@.len(),
            cv == mergeds_view(nodes@),
            *summary == add_counts(
                start,
                service_count(cv.subrange(0, i as int), DiffStatus::Added),
                service_count(cv.subrange(0, i as int), DiffStatus::Removed),
                service_count(cv.subrange(0, i as int), DiffStatus::Modified),
                service_count(cv.subrange(0, i as int), DiffStatus::Unchanged),
            ),
        decreases nodes.len() - i,
    {
        proof {
            let t = cv.subrange(0, i + 1);
            assert(t.subrange(0, t.len() - 1) =~= cv.subrange(0, i as int));
            assert(t[t.len() - 1] == cv[i as int]);
        }
        count_services_in(&nodes[i], summary);
        proof {
            let p = cv.subrange(0, i as int);
            let c = cv[i as int];
            lemma_add_counts_twice(
                start,
                service_count(p, DiffStatus::Added),
                service_count(p, DiffStatus::Removed),
                service_count(p, DiffStatus::Modified),
                service_count(p, DiffStatus::Unchanged),
                service_count_one(c, DiffStatus::Added),
                service_count_one(c, DiffStatus::Removed),
                service_count_one(c, DiffStatus::Modified),
                service_count_one(c, DiffStatus::Unchanged),
            );
        }
        i = i + 1;
    }
    assert(cv.subrange(0, nodes@.len() as int) =~= cv);
}


/// Tally every node of a subtree by status (unchanged nodes are not counted).
fn count_all_in(m: &MergedNode, summary: &mut DiffSummary)
    ensures
        *final(summary) == add_counts(
            *old(summary),
            all_count_one(m@, DiffStatus::Added),
            all_count_one(m@, DiffStatus::Removed),
            all_count_one(m@, DiffStatus::Modified),
            0,
        ),
    decreases m,
{
    proof {
        lemma_merged_view(*m);
    }
    let ghost start = *summary;
    if m.node.diff_status != Some(DiffStatus::Unchanged) {
        tally(summary, m.node.diff_status);
    }
    let ghost after_self = *summary;
    assert(after_self == add_counts(
        start,
        status_count(m@, DiffStatus::Added),
        status_count(m@, DiffStatus::Removed),
        status_count(m@, DiffStatus::Modified),
        0,
    ));
    let ghost cv = mergeds_view(m.children@);
    let mut i: usize = 0;
    proof {
        lemma_add_counts_zero(after_self);
    }
    while i < m.children.len()
        invariant
            0 <= i <= m.children@.len(),
            cv == mergeds_view(m.children@),
            *summary == add_counts(
                after_self,
                all_count(cv.subrange(0, i as int), DiffStatus::Added),
                all_count(cv.subrange(0, i as int), DiffStatus::Removed),
                all_count(cv.subrange(0, i as int), DiffStatus::Modified),
                0,
            ),
        decreases m.children.len() - i,
    {
        proof {
            vstd::std_specs::vec::axiom_vec_index_decreases(m.children, i as int);
            assert(decreases_to!(*m => m.children@[i as int]));
            let t = cv.subrange(0, i + 1);
            assert(t.subrange(0, t.len() - 1) =~= cv.subrange(0, i as int));
            assert(t[t.len() - 1] == cv[i as int]);
        }
        count_all_in(&m.children[i], summary);
        proof {
            let p = cv.subrange(0, i as int);
            let c = cv[i as int];
            lemma_add_counts_twice(
                after_self,
                all_count(p, DiffStatus::Added),
                all_count(p, DiffStatus::Removed),
                all_count(p, DiffStatus::Modified),
                0,
                all_count_one(c, DiffStatus::Added),
                all_count_one(c, DiffStatus::Removed),
                all_count_one(c, DiffStatus::Modified),
                0,
            );
        }
        i = i + 1;
    }
    assert(cv.subrange(0, m.children@.len() as int) =~= cv);
    proof {
        lemma_add_counts_twice(
            start,
            status_count(m@, DiffStatus::Added),
            status_count(m@, DiffStatus::Removed),
            status_count(m@, DiffStatus::Modified),
            0,
            all_count(cv, DiffStatus::Added),
            all_count(cv, DiffStatus::Removed),
            all_count(cv, DiffStatus::Modified),
            0,
        );
    }
}

/// Tally every node (of every type) by status; unchanged nodes are not
/// counted.
pub fn count_all_statuses(nodes: &[MergedNode], summary: &mut DiffSummary)
    ensures
        *final(summary) == add_counts(
            *old(summary),
            all_count(mergeds_view(nodes@), DiffStatus::Added),
            all_count(mergeds_view(nodes@), DiffStatus::Removed),
            all_count(mergeds_view(nodes@), DiffStatus::Modified),
            0,
        ),
{
    let ghost start = *summary;
    let ghost cv = mergeds_view(nodes@);
    let mut i: usize = 0;
    proof {
        lemma_add_counts_zero(start);
    }
    while i < nodes.len()
        invariant
            0 <= i <= nodes@.len(),
            cv == mergeds_view(nodes@),
            *summary == add_counts(
                start,
                all_count(cv.subrange(0, i as int), DiffStatus::Added),
                all_count(cv.subrange(0, i as int), DiffStatus::Removed),
                all_count(cv.subrange(0, i as int), DiffStatus::Modified),
                0,
            ),
        decreases nodes.len() - i,
    {
        proof {
            let t = cv.subrange(0, i + 1);
            assert(t.subrange(0, t.len() - 1) =~= cv.subrange(0, i as int));
            assert(t[t.len() - 1] == cv[i as int]);
        }
        count_all_in(&nodes[i], summary);
        proof {
            let p = cv.subrange(0, i as int);
            let c = cv[i as int];
            lemma_add_counts_twice(
                start,
                all_count(p, DiffStatus::Added),
                all_count(p, DiffStatus::Removed),
                all_count(p, DiffStatus::Modified),
                0,
                all_count_one(c, DiffStatus::Added),
                all_count_one(c, DiffStatus::Removed),
                all_count_one(c, DiffStatus::Modified),
                0,
            );
        }
        i = i + 1;
    }
    assert(cv.subrange(0, nodes@.len() as int) =~= cv);
}

pub open spec fn zero_summary() -> DiffSummary {
    DiffSummary { added: 0, removed: 0, modified: 0, unchanged: 0 }
}

/// Compute the diff summary by counting services and jobs (the most
/// meaningful unit of a diagnostic database); when there are none, count
/// the direct children of the top-level sections instead, so the summary
/// is never empty.
pub fn compute_summary(root_nodes: &[MergedNode]) -> (r: DiffSummary)
    ensures
        r == tree_summary(mergeds_view(root_nodes@)),
{
    let ghost rv = mergeds_view(root_nodes@);
    let mut summary = DiffSummary::default();
    let mut i: usize = 0;
    while i < root_nodes.len()
        invariant
            0 <= i <= root_nodes@.len(),
            rv == mergeds_view(root_nodes@),
            summary == add_counts(
                zero_summary(),
                roots_service_count(rv.subrange(0, i as int), DiffStatus::Added),
                roots_service_count(rv.subrange(0, i as int), DiffStatus::Removed),
                roots_service_count(rv.subrange(0, i as int), DiffStatus::Modified),
                roots_service_count(rv.subrange(0, i as int), DiffStatus::Unchanged),
            ),
        decreases root_nodes.len() - i,
    {
        let root = &root_nodes[i];
        proof {
            lemma_merged_view(*root);
            let t = rv.subrange(0, i + 1);
            assert(t.drop_last() =~= rv.subrange(0, i as int));
            assert(t.last() == merged_view(*root));
            let p = rv.subrange(0, i as int);
            let c = mergeds_view(root.children@);
            lemma_add_counts_twice(
                zero_summary(),
                roots_service_count(p, DiffStatus::Added),
                roots_service_count(p, DiffStatus::Removed),
                roots_service_count(p, DiffStatus::Modified),
                roots_service_count(p, DiffStatus::Unchanged),
                service_count(c, DiffStatus::Added),
                service_count(c, DiffStatus::Removed),
                service_count(c, DiffStatus::Modified),
                service_count(c, DiffStatus::Unchanged),
            );
        }
        count_service_statuses(root.children.as_slice(), &mut summary);
        i = i + 1;
    }
    assert(rv.subrange(0, root_nodes@.len() as int) =~= rv);
    if summary.added == 0 && summary.removed == 0 && summary.modified == 0 && summary.unchanged == 0 {
        let mut fallback = DiffSummary::default();
        let mut i: usize = 0;
        while i < root_nodes.len()
            invariant
                0 <= i <= root_nodes@.len(),
                rv == mergeds_view(root_nodes@),
                fallback == add_counts(
                    zero_summary(),
                    roots_child_count(rv.subrange(0, i as int), DiffStatus::Added),
                    roots_child_count(rv.subrange(0, i as int), DiffStatus::Removed),
                    roots_child_count(rv.subrange(0, i as int), DiffStatus::Modified),
                    roots_child_count(rv.subrange(0, i as int), DiffStatus::Unchanged),
                ),
            decreases root_nodes.len() - i,
        {
            let section = &root_nodes[i];
            proof {
                lemma_merged_view(*section);
                let t = rv.subrange(0, i + 1);
                assert(t.drop_last() =~= rv.subrange(0, i as int));
                assert(t.last() == merged_view(*section));
            }
            let ghost base = fallback;
            let ghost cv = mergeds_view(section.children@);
            let mut j: usize = 0;
            proof {
                lemma_add_counts_zero(base);
                assert(cv.subrange(0, 0) =~= Seq::<MergedV>::empty());
            }
            while j < section.children.len()
                invariant
                    0 <= j <= section.children@.len(),
                    cv == mergeds_view(section.children@),
                    fallback == add_counts(
                        base,
                        all_count_direct(cv.subrange(0, j as int), DiffStatus::Added),
                        all_count_direct(cv.subrange(0, j as int), DiffStatus::Removed),
                        all_count_direct(cv.subrange(0, j as int), DiffStatus::Modified),
                        all_count_direct(cv.subrange(0, j as int), DiffStatus::Unchanged),
                    ),
                decreases section.children.len() - j,
            {
                let child = &section.children[j];
                proof {
                    let t = cv.subrange(0, j + 1);
                    assert(t.drop_last() =~= cv.subrange(0, j as int));
                    assert(t.last() == merged_view(*child));
                    let p = cv.subrange(0, j as int);
                    lemma_add_counts_twice(
                        base,
                        all_count_direct(p, DiffStatus::Added),
                        all_count_direct(p, DiffStatus::Removed),
                        all_count_direct(p, DiffStatus::Modified),
                        all_count_direct(p, DiffStatus::Unchanged),
                        status_count(merged_view(*child), DiffStatus::Added),
                        status_count(merged_view(*child), DiffStatus::Removed),
                        status_count(merged_view(*child), DiffStatus::Modified),
                        status_count(merged_view(*child), DiffStatus::Unchanged),
                    );
                }
                tally(&mut fallback, child.node.diff_status);
                j = j + 1;
            }
            assert(cv.subrange(0, section.children@.len() as int) =~= cv);
            proof {
                let p = rv.subrange(0, i as int);
                lemma_add_counts_twice(
                    zero_summary(),
                    roots_child_count(p, DiffStatus::Added),
                    roots_child_count(p, DiffStatus::Removed),
                    roots_child_count(p, DiffStatus::Modified),
                    roots_child_count(p, DiffStatus::Unchanged),
                    all_count_direct(cv, DiffStatus::Added),
                    all_count_direct(cv, DiffStatus::Removed),
                    all_count_direct(cv, DiffStatus::Modified),
                    all_count_direct(cv, DiffStatus::Unchanged),
                );
            }
            i = i + 1;
        }
        assert(rv.subrange(0, root_nodes@.len() as int) =~= rv);
        return fallback;
    }
    summary
}


/// A two-column "Property | Value" row.
pub open spec fn property_value_row(p: Seq<char>, v: Seq<char>) -> RowV {
    RowV {
        cells: seq![text_cell(p), text_cell(v)],
        indent: 0,
        row_type: DetailRowType::Normal,
        metadata: None,
        diff_status: None,
    }
}

/// The "Diff Overview" section: the two files, the summary and the totals.
pub open spec fn diff_overview(s: DiffSummary, totals: DiffSummary, old_path: Seq<char>, new_path: Seq<char>) -> SectionV {
    SectionV {
        title: "Diff Overview"@,
        content: ContentV::Table {
            header: RowV {
                cells: seq![text_cell("Property"@), text_cell("Value"@)],
                indent: 0,
                row_type: DetailRowType::Header,
                metadata: None,
                diff_status: None,
            },
            rows: seq![
                property_value_row("Old file (removed)"@, old_path),
                property_value_row("New file (added)"@, new_path),
                property_value_row("Added"@, decimal(s.added as nat)),
                property_value_row("Removed"@, decimal(s.removed as nat)),
                property_value_row("Modified"@, decimal(s.modified as nat)),
                property_value_row("Unchanged"@, decimal(s.unchanged as nat)),
                property_value_row("Total added"@, decimal(totals.added as nat)),
                property_value_row("Total changed"@, decimal(totals.modified as nat)),
                property_value_row("Total removed"@, decimal(totals.removed as nat)),
            ],
            constraints: seq![ColumnConstraint::Percentage(30), ColumnConstraint::Percentage(70)],
            use_row_selection: false,
        },
        render_as_header: false,
        section_type: DetailSectionType::Custom,
        byte_pattern_rows: None,
    }
}

/// Position of the first node whose text is "General".
pub open spec fn first_general(ms: Seq<MergedV>) -> Option<int>
    decreases ms.len(),
{
    if ms.len() == 0 {
        None
    } else if ms[0].node.text == "General"@ {
        Some(0)
    } else {
        match first_general(ms.drop_first()) {
            Some(i) => Some(i + 1),
            None => None,
        }
    }
}

/// The merged roots with the "Diff Overview" section put first in the
/// "General" node's sections (unchanged when there is no such node).
pub open spec fn with_summary(ms: Seq<MergedV>, s: DiffSummary, old_path: Seq<char>, new_path: Seq<char>) -> Seq<
    MergedV,
> {
    let totals = add_counts(
        zero_summary(),
        all_count(ms, DiffStatus::Added),
        all_count(ms, DiffStatus::Removed),
        all_count(ms, DiffStatus::Modified),
        0,
    );
    match first_general(ms) {
        None => ms,
        Some(g) => ms.update(
            g,
            MergedV {
                node: NodeV {
                    detail_sections: seq![diff_overview(s, totals, old_path, new_path)]
                        + ms[g].node.detail_sections,
                    ..ms[g].node
                },
                ..ms[g]
            },
        ),
    }
}

fn property_value_row_exec(p: &str, v: &str) -> (r: DetailRow)
    ensures
        r@ == property_value_row(p@, v@),
{
    let r = DetailRow::normal(vec![DetailCell::text(p), DetailCell::text(v)], 0);
    assert(cells_view(r.cells@) =~= seq![text_cell(p@), text_cell(v@)]);
    r
}

fn diff_overview_exec(s: &DiffSummary, totals: &DiffSummary, old_path: &str, new_path: &str) -> (r: DetailSectionData)
    ensures
        r@ == diff_overview(*s, *totals, old_path@, new_path@),
{
    let header = DetailRow::header(vec![DetailCell::text("Property"), DetailCell::text("Value")]);
    let rows = vec![
        property_value_row_exec("Old file (removed)", old_path),
        property_value_row_exec("New file (added)", new_path),
        property_value_row_exec("Added", usize_to_decimal(s.added).as_str()),
        property_value_row_exec("Removed", usize_to_decimal(s.removed).as_str()),
        property_value_row_exec("Modified", usize_to_decimal(s.modified).as_str()),
        property_value_row_exec("Unchanged", usize_to_decimal(s.unchanged).as_str()),
        property_value_row_exec("Total added", usize_to_decimal(totals.added).as_str()),
        property_value_row_exec("Total changed", usize_to_decimal(totals.modified).as_str()),
        property_value_row_exec("Total removed", usize_to_decimal(totals.removed).as_str()),
    ];
    let constraints = vec![ColumnConstraint::Percentage(30), ColumnConstraint::Percentage(70)];
    let r = DetailSectionData::new(
        "Diff Overview".to_owned(),
        DetailContent::Table { header, rows, constraints, use_row_selection: false },
        false,
    );
    proof {
        assert(cells_view(header.cells@) =~= seq![text_cell("Property"@), text_cell("Value"@)]);
        assert(rows_view(rows@) =~= diff_overview(*s, *totals, old_path@, new_path@).content->Table_rows);
        assert(constraints@ =~= seq![ColumnConstraint::Percentage(30), ColumnConstraint::Percentage(70)]);
    }
    r
}

/// Position of the first node whose text is "General".
fn find_general(nodes: &Vec<MergedNode>) -> (r: Option<usize>)
    ensures
        match r {
            Some(g) => g < nodes@.len() && first_general(mergeds_view(nodes@)) == Some(g as int),
            None => first_general(mergeds_view(nodes@)) is None,
        },
{
    let ghost mv = mergeds_view(nodes@);
    let n = nodes.len();
    let mut i: usize = 0;
    assert(mv.subrange(0, n as int) =~= mv);
    while i < n
        invariant
            0 <= i <= n,
            n == nodes@.len(),
            mv == mergeds_view(nodes@),
            first_general(mv) == match first_general(mv.subrange(i as int, n as int)) {
                Some(k) => Some(k + i),
                None => None,
            },
        decreases n - i,
    {
        proof {
            assert(mv.subrange(i as int, n as int).drop_first() =~= mv.subrange(i + 1, n as int));
            assert(mv.subrange(i as int, n as int)[0] == mv[i as int]);
            assert(mv[i as int] == merged_view(nodes@[i as int]));
        }
        if str_eq(nodes[i].node.text.as_str(), "General") {
            return Some(i);
        }
        i = i + 1;
    }
    None
}

/// Add the summary and the two file names under the "General" section.
pub fn add_summary_to_general(nodes: Vec<MergedNode>, summary: &DiffSummary, old_path: &str, new_path: &str) -> (r:
    Vec<MergedNode>)
    ensures
        mergeds_view(r@) == with_summary(mergeds_view(nodes@), *summary, old_path@, new_path@),
{
    let mut nodes = nodes;
    let ghost mv = mergeds_view(nodes@);
    let mut totals = DiffSummary::default();
    count_all_statuses(nodes.as_slice(), &mut totals);
    let g = match find_general(&nodes) {
        Some(g) => g,
        None => {
            return nodes;
        },
    };
    let overview = diff_overview_exec(summary, &totals, old_path, new_path);
    let ghost orig = nodes@;
    let mut general = nodes.remove(g);
    let ghost general0 = general;
    assert(general0 == orig[g as int]);
    proof {
        lemma_merged_view(general0);
        assert(mv[g as int] == merged_view(general0));
    }
    // The overview goes before the General node's own sections.
    let mut sections: Vec<DetailSectionData> = vec![overview];
    let mut rest = duplicate_sections(&general.node.detail_sections);
    sections.append(&mut rest);
    general.node.detail_sections = sections;
    proof {
        lemma_merged_view(general);
        assert(sections_view(general.node.detail_sections@) =~= seq![overview@] + mv[g as int].node.detail_sections);
        assert(merged_view(general) == (MergedV {
            node: NodeV {
                detail_sections: seq![overview@] + mv[g as int].node.detail_sections,
                ..mv[g as int].node
            },
            ..mv[g as int]
        }));
    }
    nodes.insert(g, general);
    assert(nodes@ =~= orig.update(g as int, general));
    assert(mergeds_view(nodes@) =~= with_summary(mv, *summary, old_path@, new_path@));
    nodes
}

/// Merge two flat browse-mode trees into one flat diff-annotated tree, with
/// the summary under "General", and label it `"old_name vs new_name"`.
pub fn merge_trees(
    tree_old: &[TreeNode],
    name_old: &str,
    tree_new: &[TreeNode],
    name_new: &str,
    old_path: &str,
    new_path: &str,
) -> (r: (Vec<TreeNode>, String))
    ensures
        ({
            let merged = merge_list(hier_of(nodes_view(tree_old@)), hier_of(nodes_view(tree_new@)));
            nodes_view(r.0@) == flatten_list(
                with_summary(merged, tree_summary(merged), old_path@, new_path@),
                0,
            )
        }),
        r.1@ == name_old@ + " vs "@ + name_new@,
{
    // Flat depth-based lists to hierarchies.
    let hier_old = flat_to_hier(tree_old);
    let hier_new = flat_to_hier(tree_new);
    // Merge with diff annotations.
    let merged = merge_children(hier_old.as_slice(), hier_new.as_slice());
    // Summary from the merged tree, shown under General.
    let summary = compute_summary(merged.as_slice());
    let merged = add_summary_to_general(merged, &summary, old_path, new_path);
    // Back to a flat depth-based list.
    let nodes = flatten_merged(merged.as_slice(), 0);
    let mut label = name_old.to_owned();
    label.append(" vs ");
    label.append(name_new);
    (nodes, label)
}


// Laws
/// A hierarchy node and its descendants in pre-order.
pub open spec fn preorder_one(h: HierV) -> Seq<NodeV>
    decreases h,
{
    seq![h.node] + preorder(h.children)
}

/// The nodes of a hierarchy in pre-order (each node before its descendants).
pub open spec fn preorder(hs: Seq<HierV>) -> Seq<NodeV>
    decreases hs,
{
    if hs.len() == 0 {
        Seq::empty()
    } else {
        preorder(hs.subrange(0, hs.len() - 1)) + preorder_one(hs[hs.len() - 1])
    }
}

proof fn lemma_preorder_concat(a: Seq<HierV>, b: Seq<HierV>)
    ensures
        preorder(a + b) == preorder(a) + preorder(b),
    decreases b.len(),
{
    if b.len() == 0 {
        assert(a + b =~= a);
        assert(preorder(a) + preorder(b) =~= preorder(a));
    } else {
        let b0 = b.subrange(0, b.len() - 1);
        lemma_preorder_concat(a, b0);
        let ab = a + b;
        assert(ab.subrange(0, ab.len() - 1) =~= a + b0);
        assert(ab[ab.len() - 1] == b[b.len() - 1]);
        assert(preorder(a + b) =~= preorder(a) + preorder(b));
    }
}

/// The hierarchy of a flat list holds exactly the list's nodes, in their
/// order: flattening it again in pre-order gives the list back.
pub proof fn law_flat_to_hier_preorder(s: Seq<NodeV>)
    ensures
        preorder(hier_of(s)) == s,
    decreases s.len(),
{
    if s.len() > 0 {
        let e = scan_end(s, s[0].depth, 1);
        lemma_scan_end_bounds(s, s[0].depth, 1);
        let first = HierV { node: s[0], children: hier_of(s.subrange(1, e)) };
        let rest = hier_of(s.subrange(e, s.len() as int));
        law_flat_to_hier_preorder(s.subrange(1, e));
        law_flat_to_hier_preorder(s.subrange(e, s.len() as int));
        lemma_preorder_concat(seq![first], rest);
        let one = seq![first];
        assert(one.subrange(0, 0) =~= Seq::<HierV>::empty());
        assert(preorder(one.subrange(0, 0)) == Seq::<NodeV>::empty());
        assert(one[0] == first);
        assert(preorder_one(first) == seq![s[0]] + s.subrange(1, e));
        assert(preorder(one) == preorder(one.subrange(0, 0)) + preorder_one(one[0]));
        assert(preorder(one) =~= seq![s[0]] + s.subrange(1, e));
        assert(s =~= seq![s[0]] + s.subrange(1, e) + s.subrange(e, s.len() as int));
    }
}

/// Every table row (through composites) has at least one cell.
pub open spec fn rows_have_cells(c: ContentV) -> bool
    decreases c,
{
    match c {
        ContentV::Table { rows, .. } => forall|i: int| 0 <= i < rows.len() ==> #[trigger] rows[i].cells.len() > 0,
        ContentV::Composite(subs) => forall|i: int|
            #![trigger subs[i]]
            0 <= i < subs.len() ==> rows_have_cells(subs[i].content),
        ContentV::PlainText(_) => true,
    }
}

proof fn lemma_content_equal_refl(c: ContentV)
    requires
        rows_have_cells(c),
    ensures
        content_equal(c, c),
    decreases c,
{
    match c {
        ContentV::Table { rows, .. } => {
            assert forall|i: int| 0 <= i < rows.len() implies #[trigger] rows[i].cells.len() > 0 && exists|j: int|
                0 <= j < rows.len() && rows[j].cells == rows[i].cells by {
                assert(rows[i].cells == rows[i].cells);
            }
            assert(table_rows_equal(rows, rows));
            assert(content_equal(c, c));
        },
        ContentV::Composite(subs) => {
            assert forall|i: int|
                #![trigger subs[i]]
                0 <= i < subs.len() implies subs[i].title == subs[i].title && content_equal(
                subs[i].content,
                subs[i].content,
            ) by {
                lemma_content_equal_refl(subs[i].content);
            }
            assert(content_equal(c, c));
        },
        ContentV::PlainText(_) => {
            assert(content_equal(c, c));
        },
    }
}

/// Siblings have distinct match keys and every table row has a cell, at
/// every level.
pub open spec fn well_keyed(hs: Seq<HierV>) -> bool
    decreases hs,
{
    &&& forall|i: int, j: int|
        0 <= i < j < hs.len() ==> key_of(#[trigger] hs[i].node) != key_of(#[trigger] hs[j].node)
    &&& forall|i: int|
        #![trigger hs[i]]
        0 <= i < hs.len() ==> (forall|k: int|
            #![trigger hs[i].node.detail_sections[k]]
            0 <= k < hs[i].node.detail_sections.len() ==> rows_have_cells(
                hs[i].node.detail_sections[k].content,
            )) && well_keyed(hs[i].children)
}

/// Every merged node is Unchanged with no own change, at every level.
pub open spec fn all_unchanged(ms: Seq<MergedV>) -> bool
    decreases ms,
{
    forall|i: int|
        #![trigger ms[i]]
        0 <= i < ms.len() ==> ms[i].node.diff_status == Some(DiffStatus::Unchanged) && !ms[i].own_changed
            && all_unchanged(ms[i].children)
}

proof fn lemma_last_with_distinct_key(hs: Seq<HierV>, i: int)
    requires
        0 <= i < hs.len(),
        forall|a: int, b: int| 0 <= a < b < hs.len() ==> key_of(#[trigger] hs[a].node) != key_of(#[trigger] hs[b].node),
    ensures
        last_with_key(hs, key_of(hs[i].node)) == Some(hs[i]),
    decreases hs.len(),
{
    if i < hs.len() - 1 {
        assert(key_of(hs[i].node) != key_of(hs[hs.len() - 1].node));
        let d = hs.drop_last();
        assert forall|a: int, b: int| 0 <= a < b < d.len() implies key_of(#[trigger] d[a].node) != key_of(
            #[trigger] d[b].node,
        ) by {
            assert(d[a] == hs[a] && d[b] == hs[b]);
        }
        lemma_last_with_distinct_key(d, i);
    }
}

proof fn lemma_removed_none(olds: Seq<HierV>, news: Seq<HierV>)
    requires
        forall|i: int| 0 <= i < olds.len() ==> has_hier_key(news, key_of(#[trigger] olds[i].node)),
    ensures
        removed_hiers(olds, news) == Seq::<MergedV>::empty(),
    decreases olds.len(),
{
    if olds.len() > 0 {
        assert(has_hier_key(news, key_of(olds[olds.len() - 1].node)));
        lemma_removed_none(olds.drop_last(), news);
    }
}

/// Merging a tree with itself marks every node Unchanged, keeps every
/// node, and removes none, provided siblings have distinct match keys and
/// table rows have cells (a table row without cells never compares equal,
/// not even to itself).
pub proof fn law_merge_identical(hs: Seq<HierV>)
    requires
        well_keyed(hs),
    ensures
        merge_list(hs, hs).len() == hs.len(),
        all_unchanged(merge_list(hs, hs)),
    decreases hs,
{
    assert forall|i: int| 0 <= i < hs.len() implies has_hier_key(hs, key_of(#[trigger] hs[i].node)) by {}
    lemma_removed_none(hs, hs);
    let m = merge_list(hs, hs);
    assert forall|i: int|
        #![trigger m[i]]
        0 <= i < m.len() implies m[i].node.diff_status == Some(DiffStatus::Unchanged) && !m[i].own_changed
        && all_unchanged(m[i].children) by {
        let h = hs[i];
        lemma_last_with_distinct_key(hs, i);
        law_merge_identical(h.children);
        let children = merge_list(h.children, h.children);
        assert(!children_changed(children)) by {
            if children_changed(children) {
                let c = choose|c: int| 0 <= c < children.len() && #[trigger] child_counts(children[c]);
                assert(children[c].node.diff_status == Some(DiffStatus::Unchanged));
            }
        }
        assert(sections_equal(h.node.detail_sections, h.node.detail_sections)) by {
            assert forall|k: int| 0 <= k < h.node.detail_sections.len() implies #[trigger] section_equal(
                h.node.detail_sections[k],
                h.node.detail_sections[k],
            ) by {
                lemma_content_equal_refl(h.node.detail_sections[k].content);
            }
        }
        assert(m[i] == merged_pair(h, h, children));
    }
}

proof fn lemma_last_with_key_none(olds: Seq<HierV>, key: Seq<char>)
    ensures
        last_with_key(olds, key) is None <==> !has_hier_key(olds, key),
    decreases olds.len(),
{
    if olds.len() > 0 {
        let p = olds.drop_last();
        lemma_last_with_key_none(p, key);
        if has_hier_key(p, key) {
            let j = choose|j: int| 0 <= j < p.len() && #[trigger] key_of(p[j].node) == key;
            assert(olds[j] == p[j]);
        }
        if has_hier_key(olds, key) && key_of(olds.last().node) != key {
            let j = choose|j: int| 0 <= j < olds.len() && #[trigger] key_of(olds[j].node) == key;
            assert(j != olds.len() - 1);
            assert(p[j] == olds[j]);
        }
        if key_of(olds.last().node) == key {
            assert(key_of(olds[olds.len() - 1].node) == key);
        }
    }
}

/// An old node is removed when no new node carries its key.
pub open spec fn is_removed_by(news: Seq<HierV>) -> spec_fn(HierV) -> bool {
    |o: HierV| !has_hier_key(news, key_of(o.node))
}

pub open spec fn marked_removed() -> spec_fn(HierV) -> MergedV {
    |o: HierV| marked(o, DiffStatus::Removed)
}

proof fn lemma_removed_hiers_filter(olds: Seq<HierV>, news: Seq<HierV>)
    ensures
        removed_hiers(olds, news) == olds.filter(is_removed_by(news)).map_values(marked_removed()),
    decreases olds.len(),
{
    if olds.len() == 0 {
        assert(olds.filter(is_removed_by(news)) =~= Seq::<HierV>::empty());
        assert(removed_hiers(olds, news) =~= olds.filter(is_removed_by(news)).map_values(marked_removed()));
    } else {
        let p = olds.drop_last();
        lemma_removed_hiers_filter(p, news);
        assert(olds =~= p.push(olds.last()));
        p.lemma_filter_push(olds.last(), is_removed_by(news));
        assert(removed_hiers(olds, news) =~= olds.filter(is_removed_by(news)).map_values(marked_removed()));
    }
}

/// The merge of two sibling lists keeps the new nodes first, in their order
/// and with their texts: each is Added (with its whole subtree) exactly when
/// no old sibling carries its key, else Modified or Unchanged; after them
/// come the old nodes whose key no new sibling carries, in their order, each
/// Removed with its whole subtree. So the merge has as many entries as the
/// new list plus those old-only nodes.
pub proof fn law_merge_list_shape(olds: Seq<HierV>, news: Seq<HierV>)
    ensures
        ({
            let r = merge_list(olds, news);
            let gone = olds.filter(is_removed_by(news));
            &&& r.len() == news.len() + gone.len()
            &&& forall|i: int|
                0 <= i < news.len() ==> {
                    &&& (#[trigger] r[i]).node.text == news[i].node.text
                    &&& (r[i].node.diff_status == Some(DiffStatus::Added) <==> !has_hier_key(olds, key_of(news[i].node)))
                    &&& r[i].node.diff_status == Some(DiffStatus::Added) ==> all_marked(r[i], DiffStatus::Added)
                    &&& r[i].node.diff_status != Some(DiffStatus::Added) ==> (r[i].node.diff_status == Some(
                        DiffStatus::Modified,
                    ) || r[i].node.diff_status == Some(DiffStatus::Unchanged))
                }
            &&& forall|j: int|
                0 <= j < gone.len() ==> {
                    &&& (#[trigger] r[news.len() + j]).node.text == gone[j].node.text
                    &&& all_marked(r[news.len() + j], DiffStatus::Removed)
                }
        }),
{
    let r = merge_list(olds, news);
    let gone = olds.filter(is_removed_by(news));
    lemma_removed_hiers_filter(olds, news);
    reveal(marked);
    assert forall|i: int| 0 <= i < news.len() implies {
        &&& (#[trigger] r[i]).node.text == news[i].node.text
        &&& (r[i].node.diff_status == Some(DiffStatus::Added) <==> !has_hier_key(olds, key_of(news[i].node)))
        &&& r[i].node.diff_status == Some(DiffStatus::Added) ==> all_marked(r[i], DiffStatus::Added)
        &&& r[i].node.diff_status != Some(DiffStatus::Added) ==> (r[i].node.diff_status == Some(DiffStatus::Modified)
            || r[i].node.diff_status == Some(DiffStatus::Unchanged))
    } by {
        let n = news[i];
        assert(r[i] == merge_entry(olds, n));
        lemma_last_with_key_none(olds, key_of(n.node));
        match last_with_key(olds, key_of(n.node)) {
            Some(o) => {
                assert(r[i] == merged_pair(o, n, merge_list(o.children, n.children)));
            },
            None => {
                law_mark_subtree_marks_all(n, DiffStatus::Added);
            },
        }
    }
    assert forall|j: int| 0 <= j < gone.len() implies {
        &&& (#[trigger] r[news.len() + j]).node.text == gone[j].node.text
        &&& all_marked(r[news.len() + j], DiffStatus::Removed)
    } by {
        assert(r[news.len() + j] == removed_hiers(olds, news)[j]);
        assert(removed_hiers(olds, news)[j] == marked(gone[j], DiffStatus::Removed));
        law_mark_subtree_marks_all(gone[j], DiffStatus::Removed);
    }
}

/// An old row that a new row with the same first cell changes.
pub open spec fn row_modified_in(new_rows: Seq<RowV>) -> spec_fn(RowV) -> bool {
    |o: RowV| modified_row_prop(o, new_rows, Seq::empty()).len() == 1
}

/// A row with a key cell whose text no row of `rows` has as key.
pub open spec fn row_key_absent(rows: Seq<RowV>) -> spec_fn(RowV) -> bool {
    |r: RowV| r.cells.len() > 0 && !has_row_key(rows, r.cells[0].text)
}

/// The change listed for a modified old row.
pub open spec fn modified_change(new_rows: Seq<RowV>, title: Seq<char>) -> spec_fn(RowV) -> PropertyDiffV {
    |o: RowV| modified_row_prop(o, new_rows, title)[0]
}

/// The change listed for a removed old row.
pub open spec fn removed_change(title: Seq<char>) -> spec_fn(RowV) -> PropertyDiffV {
    |o: RowV| prop(prop_name(title, o.cells[0].text), join_cells(o.cells, 1), "(removed)"@)
}

/// The change listed for an added new row.
pub open spec fn added_change(title: Seq<char>) -> spec_fn(RowV) -> PropertyDiffV {
    |n: RowV| prop(prop_name(title, n.cells[0].text), "(added)"@, join_cells(n.cells, 1))
}

proof fn lemma_modified_row_prop_len(o: RowV, new_rows: Seq<RowV>, title: Seq<char>)
    ensures
        modified_row_prop(o, new_rows, title).len() == modified_row_prop(o, new_rows, Seq::empty()).len(),
        modified_row_prop(o, new_rows, title).len() <= 1,
{
}

proof fn lemma_modified_props_filter(a: Seq<RowV>, b: Seq<RowV>, t: Seq<char>)
    ensures
        modified_row_props(a, b, t) == a.filter(row_modified_in(b)).map_values(modified_change(b, t)),
    decreases a.len(),
{
    if a.len() == 0 {
        assert(a.filter(row_modified_in(b)) =~= Seq::<RowV>::empty());
        assert(modified_row_props(a, b, t) =~= a.filter(row_modified_in(b)).map_values(modified_change(b, t)));
    } else {
        let p = a.drop_last();
        lemma_modified_props_filter(p, b, t);
        assert(a =~= p.push(a.last()));
        p.lemma_filter_push(a.last(), row_modified_in(b));
        lemma_modified_row_prop_len(a.last(), b, t);
        let m = modified_row_prop(a.last(), b, t);
        if m.len() == 1 {
            assert(m =~= seq![m[0]]);
        } else {
            assert(m =~= Seq::<PropertyDiffV>::empty());
        }
        assert(modified_row_props(a, b, t) =~= a.filter(row_modified_in(b)).map_values(modified_change(b, t)));
    }
}

proof fn lemma_removed_props_filter(a: Seq<RowV>, b: Seq<RowV>, t: Seq<char>)
    ensures
        removed_row_props(a, b, t) == a.filter(row_key_absent(b)).map_values(removed_change(t)),
    decreases a.len(),
{
    if a.len() == 0 {
        assert(a.filter(row_key_absent(b)) =~= Seq::<RowV>::empty());
        assert(removed_row_props(a, b, t) =~= a.filter(row_key_absent(b)).map_values(removed_change(t)));
    } else {
        let p = a.drop_last();
        lemma_removed_props_filter(p, b, t);
        assert(a =~= p.push(a.last()));
        p.lemma_filter_push(a.last(), row_key_absent(b));
        assert(removed_row_props(a, b, t) =~= a.filter(row_key_absent(b)).map_values(removed_change(t)));
    }
}

proof fn lemma_added_props_filter(a: Seq<RowV>, b: Seq<RowV>, t: Seq<char>)
    ensures
        added_row_props(a, b, t) == b.filter(row_key_absent(a)).map_values(added_change(t)),
    decreases b.len(),
{
    if b.len() == 0 {
        assert(b.filter(row_key_absent(a)) =~= Seq::<RowV>::empty());
        assert(added_row_props(a, b, t) =~= b.filter(row_key_absent(a)).map_values(added_change(t)));
    } else {
        let p = b.drop_last();
        lemma_added_props_filter(a, p, t);
        assert(b =~= p.push(b.last()));
        p.lemma_filter_push(b.last(), row_key_absent(a));
        assert(added_row_props(a, b, t) =~= b.filter(row_key_absent(a)).map_values(added_change(t)));
    }
}

/// The changes between two tables: first one for each old row that a new
/// row with the same first cell changes, then one marked `(removed)` for
/// each old row whose key text no new row has, then one marked `(added)`
/// for each new row whose key text no old row has; each group in the order
/// of its table, each change named by the key text (after the section title
/// and `: ` when there is a title).
pub proof fn law_table_changes(old: ContentV, new: ContentV, title: Seq<char>)
    requires
        old is Table,
        new is Table,
    ensures
        ({
            let a = old->Table_rows;
            let b = new->Table_rows;
            content_changes(old, new, title) == a.filter(row_modified_in(b)).map_values(modified_change(b, title))
                + a.filter(row_key_absent(b)).map_values(removed_change(title)) + b.filter(
                row_key_absent(a),
            ).map_values(added_change(title))
        }),
{
    let a = old->Table_rows;
    let b = new->Table_rows;
    lemma_modified_props_filter(a, b, title);
    lemma_removed_props_filter(a, b, title);
    lemma_added_props_filter(a, b, title);
}

/// Every row has a first cell and no two rows share its text.
pub open spec fn keyed_rows(rows: Seq<RowV>) -> bool {
    &&& forall|i: int| 0 <= i < rows.len() ==> (#[trigger] rows[i]).cells.len() > 0
    &&& forall|i: int, j: int|
        0 <= i < j < rows.len() ==> (#[trigger] rows[i]).cells[0].text != (#[trigger] rows[j]).cells[0].text
}

/// Some row of `new_rows` has the same first cell as `o` and other cells.
pub open spec fn changed_in(new_rows: Seq<RowV>) -> spec_fn(RowV) -> bool {
    |o: RowV|
        o.cells.len() > 0 && exists|j: int|
            0 <= j < new_rows.len() && (#[trigger] new_rows[j]).cells.len() > 0 && new_rows[j].cells[0] == o.cells[0]
                && new_rows[j].cells != o.cells
}

proof fn lemma_first_row_with_cell(rows: Seq<RowV>, key: CellV)
    ensures
        first_row_with_cell(rows, key) matches Some(r) ==> exists|j: int|
            0 <= j < rows.len() && #[trigger] rows[j] == r && r.cells.len() > 0 && r.cells[0] == key,
        first_row_with_cell(rows, key) is None ==> forall|j: int|
            0 <= j < rows.len() ==> !((#[trigger] rows[j]).cells.len() > 0 && rows[j].cells[0] == key),
    decreases rows.len(),
{
    if rows.len() > 0 {
        let t = rows.drop_first();
        lemma_first_row_with_cell(t, key);
        if !(rows[0].cells.len() > 0 && rows[0].cells[0] == key) {
            if let Some(r) = first_row_with_cell(t, key) {
                let j = choose|j: int| 0 <= j < t.len() && #[trigger] t[j] == r && r.cells.len() > 0 && r.cells[0] == key;
                assert(rows[j + 1] == r);
            } else {
                assert forall|j: int| 0 <= j < rows.len() implies !((#[trigger] rows[j]).cells.len() > 0 && rows[j].cells[0]
                    == key) by {
                    if j > 0 {
                        assert(rows[j] == t[j - 1]);
                    }
                }
            }
        }
    }
}

/// With keyed new rows, an old row is changed exactly when a new row with
/// the same first cell has other cells.
proof fn lemma_modified_is_changed(new_rows: Seq<RowV>)
    requires
        keyed_rows(new_rows),
    ensures
        row_modified_in(new_rows) =~= changed_in(new_rows),
{
    assert forall|o: RowV| #[trigger] row_modified_in(new_rows)(o) == changed_in(new_rows)(o) by {
        if o.cells.len() > 0 {
            lemma_first_row_with_cell(new_rows, o.cells[0]);
            match first_row_with_cell(new_rows, o.cells[0]) {
                Some(r) => {
                    let j0 = choose|j: int|
                        0 <= j < new_rows.len() && #[trigger] new_rows[j] == r && r.cells.len() > 0 && r.cells[0]
                            == o.cells[0];
                    if changed_in(new_rows)(o) {
                        let j = choose|j: int|
                            0 <= j < new_rows.len() && (#[trigger] new_rows[j]).cells.len() > 0 && new_rows[j].cells[0]
                                == o.cells[0] && new_rows[j].cells != o.cells;
                        if j != j0 {
                            if j < j0 {
                                assert(new_rows[j].cells[0].text != new_rows[j0].cells[0].text);
                            } else {
                                assert(new_rows[j0].cells[0].text != new_rows[j].cells[0].text);
                            }
                        }
                    }
                },
                None => {},
            }
        }
    }
}

/// The changes between two tables whose rows are keyed by distinct first
/// cells: first, in old order, one for each old row that the new row with
/// the same first cell changes (named by its key); then, in old order, one
/// with new value `(removed)` for each old key the new table lacks; then, in
/// new order, one with old value `(added)` for each new key the old table
/// lacks. Each is named by the key text, after the section title and `: `
/// when there is a title.
pub proof fn law_table_changes_keyed(old: ContentV, new: ContentV, title: Seq<char>)
    requires
        old is Table,
        new is Table,
        keyed_rows(old->Table_rows),
        keyed_rows(new->Table_rows),
    ensures
        ({
            let a = old->Table_rows;
            let b = new->Table_rows;
            &&& content_changes(old, new, title) == a.filter(changed_in(b)).map_values(modified_change(b, title))
                + a.filter(row_key_absent(b)).map_values(removed_change(title)) + b.filter(row_key_absent(a)).map_values(
                added_change(title),
            )
            &&& forall|r: RowV| #[trigger] changed_in(b)(r) ==> modified_change(b, title)(r).name == prop_name(
                title,
                r.cells[0].text,
            )
            &&& forall|r: RowV| #[trigger] removed_change(title)(r).new_value == "(removed)"@
            &&& forall|r: RowV| #[trigger] added_change(title)(r).old_value == "(added)"@
        }),
{
    let a = old->Table_rows;
    let b = new->Table_rows;
    law_table_changes(old, new, title);
    lemma_modified_is_changed(b);
    assert(row_modified_in(b) == changed_in(b));
}


/// A service or a job node placed after a list is counted once, under its
/// own status, and its subtree is not looked into; any other node adds the
/// services and jobs of its children.
pub proof fn law_service_and_job_counted(ms: Seq<MergedV>, m: MergedV, status: DiffStatus)
    ensures
        (m.node.node_type == NodeType::Service || m.node.node_type == NodeType::Job)
            ==> service_count(ms.push(m), status) == service_count(ms, status) + (if m.node.diff_status
            == Some(status) {
            1nat
        } else {
            0nat
        }),
        !(m.node.node_type == NodeType::Service || m.node.node_type == NodeType::Job)
            ==> service_count(ms.push(m), status) == service_count(ms, status) + service_count(
            m.children,
            status,
        ),
{
    let t = ms.push(m);
    assert(t.subrange(0, t.len() - 1) =~= ms);
    assert(t[t.len() - 1] == m);
    assert(service_count(t, status) == service_count(ms, status) + service_count_one(m, status));
    if m.node.node_type == NodeType::Service || m.node.node_type == NodeType::Job {
        assert(service_count_one(m, status) == status_count(m, status));
    } else {
        assert(service_count_one(m, status) == service_count(m.children, status));
    }
}

/// A service or a job added under the last top-level section is counted in
/// the tree's service count under its own status: one more than before for
/// that status, no change for the others. When it has that status, the
/// diff summary then counts services and jobs, and shows that count.
pub proof fn law_job_in_section_counted(roots: Seq<MergedV>, j: MergedV, status: DiffStatus)
    requires
        roots.len() > 0,
        j.node.node_type == NodeType::Service || j.node.node_type == NodeType::Job,
    ensures
        ({
            let last = roots.last();
            let grown = roots.drop_last().push(
                MergedV { node: last.node, children: last.children.push(j), own_changed: last.own_changed },
            );
            &&& roots_service_count(grown, status) == roots_service_count(roots, status) + (if j.node.diff_status
                == Some(status) {
                1nat
            } else {
                0nat
            })
            &&& j.node.diff_status == Some(status) && status == DiffStatus::Added ==> tree_summary(grown).added
                == saturated(roots_service_count(roots, DiffStatus::Added) + 1)
            &&& j.node.diff_status == Some(status) && status == DiffStatus::Removed ==> tree_summary(grown).removed
                == saturated(roots_service_count(roots, DiffStatus::Removed) + 1)
            &&& j.node.diff_status == Some(status) && status == DiffStatus::Modified ==> tree_summary(grown).modified
                == saturated(roots_service_count(roots, DiffStatus::Modified) + 1)
            &&& j.node.diff_status == Some(status) && status == DiffStatus::Unchanged ==> tree_summary(grown).unchanged
                == saturated(roots_service_count(roots, DiffStatus::Unchanged) + 1)
        }),
{
    let last = roots.last();
    let grown = roots.drop_last().push(
        MergedV { node: last.node, children: last.children.push(j), own_changed: last.own_changed },
    );
    assert(grown.drop_last() =~= roots.drop_last());
    assert(grown.last().children == last.children.push(j));
    law_service_and_job_counted(last.children, j, status);
    law_service_and_job_counted(last.children, j, DiffStatus::Added);
    law_service_and_job_counted(last.children, j, DiffStatus::Removed);
    law_service_and_job_counted(last.children, j, DiffStatus::Modified);
    law_service_and_job_counted(last.children, j, DiffStatus::Unchanged);
}

} // verus!
