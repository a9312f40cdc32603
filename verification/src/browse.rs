//! The state and logic behind the tree browser: which nodes are visible,
//! search filters, header counts, navigation, sorting and open tabs.
use vstd::prelude::*;

use crate::text::{
    chars_of, decimal, ends_with, ends_with_exec, find_last, last_occurrence, string_of_range,
    u64_to_decimal, usize_to_decimal,
};
use crate::tree::types::{
    cells_view, nodes_view, rows_view, CellJumpTargetType, CellV, ContentV, DeepCopy, DetailCell,
    DetailContent, DetailRow, DetailSectionData, DiffStatus, JumpV, NodePayload, NodeType, NodeV, RowV, sections_view,
    SectionV, ServiceListType, TreeNode,
};
use crate::tree::resolve::{resolve_all_indices, resolved_node};
use crate::tree_sort::{
    GroupOrder, RangeSort, apply_default_sort, default_sorted, groups_sorted_in, sections_sorted, sort_children_of, sort_diagcomm_nodes,
    subtree_end,
};

verus! {

broadcast use vstd::std_specs::vec::group_vec_axioms;

// Data sent to the front end
/// A node of the flat tree as the front end shows it.
#[derive(Debug)]
pub struct VisibleNode {
    pub index: usize,
    pub depth: usize,
    pub text: String,
    pub expanded: bool,
    pub has_children: bool,
    pub node_type: NodeType,
    pub diff_status: Option<DiffStatus>,
    pub is_sortable: bool,
    pub old_text: Option<String>,
}

/// What loading a database (or a diff) into a tab gives.
#[derive(Debug)]
pub struct LoadResult {
    pub tab_id: String,
    pub ecu_name: String,
    pub node_count: usize,
    pub visible: Vec<VisibleNode>,
    pub is_diff: bool,
}

/// What a search gives.
#[derive(Debug)]
pub struct SearchResult {
    pub visible: Vec<VisibleNode>,
    pub match_count: usize,
    pub scope: String,
}

/// What navigating to a jump target gives.
#[derive(Debug)]
pub struct NavigateResult {
    pub visible: Vec<VisibleNode>,
    pub target_index: usize,
    pub detail: Vec<DetailSectionData>,
}

/// What toggling a sort gives.
#[derive(Debug)]
pub struct ToggleSortResult {
    pub nodes: Vec<VisibleNode>,
    pub sort_label: String,
}

/// A navigation request from a jump cell.
#[derive(Debug)]
pub struct JumpTarget {
    pub target_type: JumpTargetType,
}

/// Where a jump cell leads.
#[derive(Debug)]
pub enum JumpTargetType {
    Parameter { param_id: u32 },
    Dop { index: usize, name: String },
    TreeNodeByIndex { index: usize, short_name: String },
    Container { index: usize, short_name: String },
}

// Sort modes
/// Order of the services in a Diag-Comms list.
#[derive(Clone, Copy, Debug, PartialEq, Eq, Structural)]
pub enum DiagcommSortMode {
    IdAsc,
    IdDesc,
    NameAsc,
    NameDesc,
}

impl Default for DiagcommSortMode {
    fn default() -> (r: Self)
        ensures
            r == DiagcommSortMode::IdAsc,
    {
        DiagcommSortMode::IdAsc
    }
}

impl DiagcommSortMode {
    /// The mode after this one in the cycle ID ascending, ID descending,
    /// name ascending, name descending.
    pub open spec fn spec_next(self) -> Self {
        match self {
            DiagcommSortMode::IdAsc => DiagcommSortMode::IdDesc,
            DiagcommSortMode::IdDesc => DiagcommSortMode::NameAsc,
            DiagcommSortMode::NameAsc => DiagcommSortMode::NameDesc,
            DiagcommSortMode::NameDesc => DiagcommSortMode::IdAsc,
        }
    }

    pub fn next(self) -> (r: Self)
        ensures
            r == self.spec_next(),
    {
        match self {
            DiagcommSortMode::IdAsc => DiagcommSortMode::IdDesc,
            DiagcommSortMode::IdDesc => DiagcommSortMode::NameAsc,
            DiagcommSortMode::NameAsc => DiagcommSortMode::NameDesc,
            DiagcommSortMode::NameDesc => DiagcommSortMode::IdAsc,
        }
    }

    pub open spec fn label(self) -> Seq<char> {
        match self {
            DiagcommSortMode::IdAsc => "Sort: ID \u{25b2}"@,
            DiagcommSortMode::IdDesc => "Sort: ID \u{25bc}"@,
            DiagcommSortMode::NameAsc => "Sort: Name \u{25b2}"@,
            DiagcommSortMode::NameDesc => "Sort: Name \u{25bc}"@,
        }
    }

    /// The status-bar label of the mode.
    pub fn status_label(self) -> (r: &'static str)
        ensures
            r@ == self.label(),
    {
        match self {
            DiagcommSortMode::IdAsc => "Sort: ID \u{25b2}",
            DiagcommSortMode::IdDesc => "Sort: ID \u{25bc}",
            DiagcommSortMode::NameAsc => "Sort: Name \u{25b2}",
            DiagcommSortMode::NameDesc => "Sort: Name \u{25bc}",
        }
    }
}

/// Four steps of the sort-mode cycle lead back to the start, and the modes
/// in between are all different.
pub proof fn law_sort_mode_cycle(m: DiagcommSortMode)
    ensures
        m.spec_next().spec_next().spec_next().spec_next() == m,
        m.spec_next() != m,
        m.spec_next().spec_next() != m,
        m.spec_next().spec_next().spec_next() != m,
{
}

// Search
/// How a search entry combines with the ones before it.
#[derive(Clone, Copy, Debug, PartialEq, Eq, Structural)]
pub enum FilterOp {
    And,
    Or,
}

/// Which nodes a search looks at.
#[derive(Clone, Copy, Debug, PartialEq, Eq, Structural)]
pub enum SearchScope {
    All,
    Variants,
    FunctionalGroups,
    EcuSharedData,
    Services,
    DiagComms,
    Requests,
    Responses,
}

impl Default for SearchScope {
    fn default() -> (r: Self)
        ensures
            r == SearchScope::All,
    {
        SearchScope::All
    }
}

impl SearchScope {
    /// The name shown for the scope.
    pub open spec fn label(self) -> Seq<char> {
        match self {
            SearchScope::All => "All"@,
            SearchScope::Variants => "Variants"@,
            SearchScope::FunctionalGroups => "Functional Groups"@,
            SearchScope::EcuSharedData => "ECU Shared Data"@,
            SearchScope::Services => "Services"@,
            SearchScope::DiagComms => "Diag-Comms"@,
            SearchScope::Requests => "Requests"@,
            SearchScope::Responses => "Responses"@,
        }
    }

    /// The name shown for the scope.
    pub fn to_string(&self) -> (r: String)
        ensures
            r@ == self.label(),
    {
        let s = match self {
            SearchScope::All => "All",
            SearchScope::Variants => "Variants",
            SearchScope::FunctionalGroups => "Functional Groups",
            SearchScope::EcuSharedData => "ECU Shared Data",
            SearchScope::Services => "Services",
            SearchScope::DiagComms => "Diag-Comms",
            SearchScope::Requests => "Requests",
            SearchScope::Responses => "Responses",
        };
        s.to_owned()
    }

    /// The scope after this one in the cycle of all scopes.
    pub open spec fn spec_next(self) -> Self {
        match self {
            SearchScope::All => SearchScope::Variants,
            SearchScope::Variants => SearchScope::FunctionalGroups,
            SearchScope::FunctionalGroups => SearchScope::EcuSharedData,
            SearchScope::EcuSharedData => SearchScope::Services,
            SearchScope::Services => SearchScope::DiagComms,
            SearchScope::DiagComms => SearchScope::Requests,
            SearchScope::Requests => SearchScope::Responses,
            SearchScope::Responses => SearchScope::All,
        }
    }

    /// The scope after this one in the cycle of all scopes.
    pub fn next(self) -> (r: Self)
        ensures
            r == self.spec_next(),
    {
        match self {
            SearchScope::All => SearchScope::Variants,
            SearchScope::Variants => SearchScope::FunctionalGroups,
            SearchScope::FunctionalGroups => SearchScope::EcuSharedData,
            SearchScope::EcuSharedData => SearchScope::Services,
            SearchScope::Services => SearchScope::DiagComms,
            SearchScope::DiagComms => SearchScope::Requests,
            SearchScope::Requests => SearchScope::Responses,
            SearchScope::Responses => SearchScope::All,
        }
    }

    /// The scope with the given name; an unknown name is an error
    /// `Unknown scope: <name>`.
    pub fn from_label(name: &str) -> (r: Result<SearchScope, String>)
        ensures
            match r {
                Ok(s) => s.label() == name@,
                Err(e) => (forall|s: SearchScope| s.label() != name@) && e@ == "Unknown scope: "@ + name@,
            },
    {
        let all = [
            SearchScope::All,
            SearchScope::Variants,
            SearchScope::FunctionalGroups,
            SearchScope::EcuSharedData,
            SearchScope::Services,
            SearchScope::DiagComms,
            SearchScope::Requests,
            SearchScope::Responses,
        ];
        let mut i: usize = 0;
        while i < 8
            invariant
                0 <= i <= 8,
                all@ == seq![
                    SearchScope::All,
                    SearchScope::Variants,
                    SearchScope::FunctionalGroups,
                    SearchScope::EcuSharedData,
                    SearchScope::Services,
                    SearchScope::DiagComms,
                    SearchScope::Requests,
                    SearchScope::Responses,
                ],
                forall|j: int| 0 <= j < i ==> #[trigger] all@[j].label() != name@,
            decreases 8 - i,
        {
            let s = all[i];
            let label = s.to_string();
            if crate::text::str_eq(label.as_str(), name) {
                return Ok(s);
            }
            i = i + 1;
        }
        assert forall|s: SearchScope| s.label() != name@ by {
            match s {
                SearchScope::All => assert(all@[0].label() != name@),
                SearchScope::Variants => assert(all@[1].label() != name@),
                SearchScope::FunctionalGroups => assert(all@[2].label() != name@),
                SearchScope::EcuSharedData => assert(all@[3].label() != name@),
                SearchScope::Services => assert(all@[4].label() != name@),
                SearchScope::DiagComms => assert(all@[5].label() != name@),
                SearchScope::Requests => assert(all@[6].label() != name@),
                SearchScope::Responses => assert(all@[7].label() != name@),
            }
        }
        let mut e = "Unknown scope: ".to_owned();
        e.append(name);
        Err(e)
    }
}

/// A search in the stack of active searches.
#[derive(Debug)]
pub struct SearchEntry {
    pub query: String,
    pub scope: SearchScope,
    pub op: FilterOp,
}

/// Whether a node belongs to the scope of a search.
pub open spec fn in_scope(t: NodeType, scope: SearchScope) -> bool {
    match scope {
        SearchScope::All => true,
        SearchScope::Services => t.spec_is_service(),
        SearchScope::DiagComms => t.spec_is_diagcomm(),
        SearchScope::Requests => t == NodeType::Request,
        SearchScope::Responses => t == NodeType::PosResponse || t == NodeType::NegResponse,
        SearchScope::Variants | SearchScope::FunctionalGroups | SearchScope::EcuSharedData => t
            == NodeType::Container || t == NodeType::SectionHeader,
    }
}

/// Whether a node belongs to the scope of a search.
pub fn node_matches_scope(node: &TreeNode, scope: &SearchScope) -> (r: bool)
    ensures
        r == in_scope(node.node_type, *scope),
{
    match scope {
        SearchScope::All => true,
        SearchScope::Services => node.node_type.is_service(),
        SearchScope::DiagComms => node.node_type.is_diagcomm(),
        SearchScope::Requests => node.node_type == NodeType::Request,
        SearchScope::Responses => node.node_type == NodeType::PosResponse || node.node_type
            == NodeType::NegResponse,
        SearchScope::Variants | SearchScope::FunctionalGroups | SearchScope::EcuSharedData => {
            node.node_type == NodeType::Container || node.node_type == NodeType::SectionHeader
        },
    }
}

// Header counts
/// Unicode white space (the characters `char::is_whitespace` accepts).
pub open spec fn is_white_space(c: char) -> bool {
    ('\u{9}' <= c <= '\u{d}') || c == ' ' || c == '\u{85}' || c == '\u{a0}' || c == '\u{1680}' || (
    '\u{2000}' <= c <= '\u{200a}') || c == '\u{2028}' || c == '\u{2029}' || c == '\u{202f}' || c
        == '\u{205f}' || c == '\u{3000}'
}

pub(crate) fn is_white_space_exec(c: char) -> (r: bool)
    ensures
        r == is_white_space(c),
{
    ('\u{9}' <= c && c <= '\u{d}') || c == ' ' || c == '\u{85}' || c == '\u{a0}' || c == '\u{1680}'
        || ('\u{2000}' <= c && c <= '\u{200a}') || c == '\u{2028}' || c == '\u{2029}' || c
        == '\u{202f}' || c == '\u{205f}' || c == '\u{3000}'
}

/// `s` without its trailing white space.
pub open spec fn trim_end(s: Seq<char>) -> Seq<char>
    decreases s.len(),
{
    if s.len() > 0 && is_white_space(s.last()) {
        trim_end(s.drop_last())
    } else {
        s
    }
}

/// The text of a service-list header without its trailing `(...)` count.
pub open spec fn without_count(text: Seq<char>) -> Seq<char> {
    if ends_with(text, ")"@) && exists|i: int| 0 <= i < text.len() && text[i] == '(' {
        trim_end(text.subrange(0, last_occurrence(text, "("@)))
    } else {
        text
    }
}

/// The header text with its trailing `(...)` replaced by `(count)`, or
/// ` (count)` appended when it has none.
pub open spec fn with_count(text: Seq<char>, count: nat) -> Seq<char> {
    if ends_with(text, ")"@) && exists|i: int| 0 <= i < text.len() && text[i] == '(' {
        text.subrange(0, last_occurrence(text, "("@)) + "("@ + decimal(count) + ")"@
    } else {
        text + " ("@ + decimal(count) + ")"@
    }
}

proof fn lemma_paren_occurs(text: Seq<char>)
    ensures
        crate::text::contains(text, "("@) <==> exists|i: int| 0 <= i < text.len() && text[i] == '(',
{
    reveal_strlit("(");
    if crate::text::contains(text, "("@) {
        let i = choose|i: int| crate::text::occurs_at(text, "("@, i);
        assert(text.subrange(i, i + 1)[0] == text[i]);
    }
    if exists|i: int| 0 <= i < text.len() && text[i] == '(' {
        let i = choose|i: int| 0 <= i < text.len() && text[i] == '(';
        assert(text.subrange(i, i + 1) =~= "("@);
        assert(crate::text::occurs_at(text, "("@, i));
    }
}

/// Strip a trailing `(...)` count from a service-list header's text, leaving
/// the base name (without trailing white space).
pub fn strip_count_suffix(text: &str) -> (r: String)
    ensures
        r@ == without_count(text@),
{
    let chars = chars_of(text);
    let open = chars_of("(");
    let close = chars_of(")");
    proof {
        lemma_paren_occurs(text@);
    }
    if let Some(pos) = find_last(chars.as_slice(), open.as_slice()) {
        if ends_with_exec(chars.as_slice(), close.as_slice()) {
            let mut end = pos;
            while end > 0 && is_white_space_exec(chars[end - 1])
                invariant
                    0 <= end <= pos,
                    pos <= chars@.len(),
                    trim_end(chars@.subrange(0, pos as int)) == trim_end(chars@.subrange(0, end as int)),
                decreases end,
            {
                assert(chars@.subrange(0, end as int).drop_last() =~= chars@.subrange(0, end - 1));
                end = end - 1;
            }
            assert(trim_end(chars@.subrange(0, end as int)) == chars@.subrange(0, end as int));
            return string_of_range(chars.as_slice(), 0, end);
        }
    }
    text.to_owned()
}

/// Replace the trailing `(...)` of a service-list header's text with
/// `(new_count)`, or append ` (new_count)` when it has none.
pub fn replace_header_count(text: &str, new_count: usize) -> (r: String)
    ensures
        r@ == with_count(text@, new_count as nat),
{
    let chars = chars_of(text);
    let open = chars_of("(");
    let close = chars_of(")");
    proof {
        lemma_paren_occurs(text@);
    }
    let digits = usize_to_decimal(new_count);
    if let Some(pos) = find_last(chars.as_slice(), open.as_slice()) {
        if ends_with_exec(chars.as_slice(), close.as_slice()) {
            let mut r = string_of_range(chars.as_slice(), 0, pos);
            r.append("(");
            r.append(digits.as_str());
            r.append(")");
            return r;
        }
    }
    let mut r = text.to_owned();
    r.append(" (");
    r.append(digits.as_str());
    r.append(")");
    r
}


// Browser state
/// The state of one open tree.
#[derive(Debug)]
pub struct CoreState {
    pub all_nodes: Vec<TreeNode>,
    pub visible: Vec<usize>,
    pub ecu_name: String,
    pub is_diff_mode: bool,
    pub hide_unchanged: bool,
    pub search_stack: Vec<SearchEntry>,
    pub search_scope: SearchScope,
    pub diagcomm_sort: DiagcommSortMode,
}

impl Default for CoreState {
    fn default() -> (r: Self)
        ensures
            r.all_nodes@.len() == 0,
            r.visible@.len() == 0,
            r.ecu_name@.len() == 0,
            !r.is_diff_mode,
            !r.hide_unchanged,
            r.search_stack@.len() == 0,
            r.search_scope == SearchScope::All,
            r.diagcomm_sort == DiagcommSortMode::IdAsc,
    {
        CoreState {
            all_nodes: Vec::new(),
            visible: Vec::new(),
            ecu_name: String::new(),
            is_diff_mode: false,
            hide_unchanged: false,
            search_stack: Vec::new(),
            search_scope: SearchScope::All,
            diagcomm_sort: DiagcommSortMode::IdAsc,
        }
    }
}

/// A search as a mathematical value: query, scope and combination.
pub open spec fn entry_view(e: SearchEntry) -> (Seq<char>, SearchScope, FilterOp) {
    (e.query@, e.scope, e.op)
}

// Search filtering
/// Pass 1 of a search: from position `i` on, mark the included nodes that
/// are in scope and whose lower-case text contains `q`, with all their
/// included descendants (`skip` is the depth of the last match while inside
/// its subtree).
pub open spec fn mark_matches(
    nodes: Seq<NodeV>,
    inc: Seq<bool>,
    scope: SearchScope,
    q: Seq<char>,
    i: int,
    skip: Option<usize>,
    flags: Seq<bool>,
) -> Seq<bool>
    decreases inc.len() - i,
{
    if i < 0 || i >= inc.len() || i >= nodes.len() {
        flags
    } else {
        let n = nodes[i];
        if skip is Some && n.depth > skip->0 {
            mark_matches(
                nodes,
                inc,
                scope,
                q,
                i + 1,
                skip,
                if inc[i] {
                    flags.update(i, true)
                } else {
                    flags
                },
            )
        } else if !inc[i] {
            mark_matches(nodes, inc, scope, q, i + 1, None, flags)
        } else if in_scope(n.node_type, scope) && crate::text::contains(crate::text::lowercase(n.text), q) {
            mark_matches(nodes, inc, scope, q, i + 1, Some(n.depth), flags.update(i, true))
        } else {
            mark_matches(nodes, inc, scope, q, i + 1, None, flags)
        }
    }
}

/// Mark the ancestors at depths `d`, `d - 1`, ... 0 (as recorded in `pad`)
/// until one is already marked.
pub open spec fn mark_up(flags: Seq<bool>, pad: Seq<usize>, d: int) -> Seq<bool>
    decreases d + 1,
{
    if d < 0 || d >= pad.len() {
        flags
    } else if flags[pad[d] as int] {
        flags
    } else {
        mark_up(flags.update(pad[d] as int, true), pad, d - 1)
    }
}

/// Pass 2 of a search: from position `i` on, mark the ancestors of every
/// marked node (`pad[d]` is the last node seen at depth `d`).
pub open spec fn mark_ancestors(nodes: Seq<NodeV>, flags: Seq<bool>, pad: Seq<usize>, i: int) -> Seq<bool>
    decreases nodes.len() - i,
{
    if i < 0 || i >= nodes.len() {
        flags
    } else {
        let d = nodes[i].depth;
        let pad2 = if d < pad.len() {
            pad.update(d as int, i as usize)
        } else {
            pad
        };
        let f2 = if flags[i] && d > 0 {
            mark_up(flags, pad2, d - 1)
        } else {
            flags
        };
        mark_ancestors(nodes, f2, pad2, i + 1)
    }
}

/// The largest depth of the nodes (0 for none).
pub open spec fn max_depth(nodes: Seq<NodeV>) -> usize
    decreases nodes.len(),
{
    if nodes.len() == 0 {
        0
    } else if nodes.last().depth > max_depth(nodes.drop_last()) {
        nodes.last().depth
    } else {
        max_depth(nodes.drop_last())
    }
}

/// The nodes a search keeps: the included nodes in scope whose text
/// contains the query (case-insensitively), their included descendants, and
/// their ancestors.
pub open spec fn search_filter(nodes: Seq<NodeV>, inc: Seq<bool>, query: Seq<char>, scope: SearchScope) -> Seq<bool> {
    let matched = mark_matches(
        nodes,
        inc,
        scope,
        crate::text::lowercase(query),
        0,
        None,
        Seq::new(nodes.len(), |i: int| false),
    );
    mark_ancestors(nodes, matched, Seq::new(depth_slots(nodes), |i: int| 0usize), 0)
}

/// One slot per depth up to the largest (capped at `usize::MAX`).
pub open spec fn depth_slots(nodes: Seq<NodeV>) -> nat {
    if max_depth(nodes) == usize::MAX {
        usize::MAX as nat
    } else {
        (max_depth(nodes) + 1) as nat
    }
}


/// Pass 1 of a search (see [`mark_matches`]).
fn mark_matching_nodes(nodes: &[TreeNode], inc: &[bool], q: &Vec<char>, scope: &SearchScope) -> (r: Vec<bool>)
    ensures
        r@ == mark_matches(
            nodes_view(nodes@),
            inc@,
            *scope,
            q@,
            0,
            None,
            Seq::new(nodes@.len(), |i: int| false),
        ),
        r@.len() == nodes@.len(),
{
    let ghost nv = nodes_view(nodes@);
    let len = nodes.len();
    let mut flags: Vec<bool> = vec![false; len];
    assert(flags@ =~= Seq::new(nodes@.len(), |i: int| false));
    let mut skip: Option<usize> = None;
    let n = if inc.len() < len {
        inc.len()
    } else {
        len
    };
    let mut i: usize = 0;
    while i < n
        invariant
            0 <= i <= n,
            n <= inc@.len(),
            n <= nodes@.len(),
            n == inc@.len() || n == nodes@.len(),
            len == nodes@.len(),
            nv == nodes_view(nodes@),
            flags@.len() == len,
            mark_matches(nv, inc@, *scope, q@, 0, None, Seq::new(nodes@.len(), |i: int| false))
                == mark_matches(nv, inc@, *scope, q@, i as int, skip, flags@),
        decreases n - i,
    {
        let node = &nodes[i];
        let included = inc[i];
        assert(nv[i as int] == node@);
        let mut handled = false;
        if let Some(depth) = skip {
            if node.depth > depth {
                if included {
                    flags.set(i, true);
                }
                handled = true;
            } else {
                skip = None;
            }
        }
        if !handled && included {
            let lower = crate::text::to_lower(node.text.as_str());
            let text = chars_of(lower.as_str());
            if node_matches_scope(node, scope) && crate::text::contains_exec(text.as_slice(), q.as_slice()) {
                flags.set(i, true);
                skip = Some(node.depth);
            }
        }
        i = i + 1;
    }
    flags
}

/// Pass 2 of a search (see [`mark_ancestors`]).
pub(crate) fn mark_ancestor_nodes(nodes: &[TreeNode], flags: Vec<bool>) -> (r: Vec<bool>)
    requires
        flags@.len() == nodes@.len(),
    ensures
        r@ == mark_ancestors(
            nodes_view(nodes@),
            flags@,
            Seq::new(depth_slots(nodes_view(nodes@)), |i: int| 0usize),
            0,
        ),
{
    let ghost nv = nodes_view(nodes@);
    let len = nodes.len();
    let mut md: usize = 0;
    let mut i: usize = 0;
    while i < len
        invariant
            0 <= i <= len,
            len == nodes@.len(),
            nv == nodes_view(nodes@),
            md == max_depth(nv.subrange(0, i as int)),
        decreases len - i,
    {
        proof {
            let t = nv.subrange(0, i + 1);
            assert(t.drop_last() =~= nv.subrange(0, i as int));
            assert(t.last() == nodes@[i as int]@);
        }
        if nodes[i].depth > md {
            md = nodes[i].depth;
        }
        i = i + 1;
    }
    assert(nv.subrange(0, len as int) =~= nv);
    let mut pad: Vec<usize> = vec![0usize; md.saturating_add(1)];
    let ghost pad0 = pad@;
    assert(pad0 =~= Seq::new(depth_slots(nv), |i: int| 0usize));
    let mut flags = flags;
    let ghost flags0 = flags@;
    let mut i: usize = 0;
    while i < len
        invariant
            0 <= i <= len,
            len == nodes@.len(),
            nv == nodes_view(nodes@),
            flags@.len() == len,
            forall|k: int| 0 <= k < pad@.len() ==> #[trigger] pad@[k] < len || len == 0,
            mark_ancestors(nv, flags0, pad0, 0) == mark_ancestors(nv, flags@, pad@, i as int),
        decreases len - i,
    {
        let node = &nodes[i];
        assert(nv[i as int] == node@);
        let depth = node.depth;
        if depth < pad.len() {
            pad.set(depth, i);
        }
        let ghost start = flags@;
        if flags[i] && depth > 0 {
            // Walk up from depth - 1 until an ancestor is already marked.
            let mut d = depth;
            while d > 0
                invariant
                    0 <= d <= depth,
                    flags@.len() == len,
                    forall|k: int| 0 <= k < pad@.len() ==> #[trigger] pad@[k] < len,
                    mark_up(start, pad@, depth - 1) == mark_up(flags@, pad@, d - 1),
                ensures
                    mark_up(start, pad@, depth - 1) == flags@,
                    flags@.len() == len,
                decreases d,
            {
                if d - 1 >= pad.len() {
                    break;
                }
                let ancestor = pad[d - 1];
                if flags[ancestor] {
                    break;
                }
                flags.set(ancestor, true);
                d = d - 1;
            }
        }
        i = i + 1;
    }
    flags
}

/// Apply a search to the nodes: keep the included nodes in scope whose
/// lower-case text contains the lower-case query, with their included
/// descendants and their ancestors.
pub fn apply_search_filter(nodes: &[TreeNode], inc: &[bool], query: &str, scope: &SearchScope) -> (r: Vec<bool>)
    ensures
        r@ == search_filter(nodes_view(nodes@), inc@, query@, *scope),
{
    let q = crate::text::to_lower(query);
    let qc = chars_of(q.as_str());
    // Pass 1: the matching nodes and their descendants.
    let matched = mark_matching_nodes(nodes, inc, &qc, scope);
    // Pass 2: their ancestors.
    mark_ancestor_nodes(nodes, matched)
}


/// Elementwise combination of two filters (positions past the end of
/// `fresh` keep their value).
pub open spec fn combine(cur: Seq<bool>, fresh: Seq<bool>, op: FilterOp) -> Seq<bool> {
    Seq::new(
        cur.len(),
        |i: int|
            if i < fresh.len() {
                match op {
                    FilterOp::And => cur[i] && fresh[i],
                    FilterOp::Or => cur[i] || fresh[i],
                }
            } else {
                cur[i]
            },
    )
}

pub open spec fn stack_view(stack: Seq<SearchEntry>) -> Seq<(Seq<char>, SearchScope, FilterOp)> {
    stack.map_values(|e: SearchEntry| entry_view(e))
}

/// The nodes kept by a stack of searches, each applied to all nodes and
/// combined with the result so far by its operation; `None` without
/// searches (every node kept).
pub open spec fn include_of(nodes: Seq<NodeV>, stack: Seq<(Seq<char>, SearchScope, FilterOp)>) -> Option<Seq<bool>>
    decreases stack.len(),
{
    if stack.len() == 0 {
        None
    } else {
        let e = stack.last();
        let fresh = search_filter(nodes, Seq::new(nodes.len(), |i: int| true), e.0, e.1);
        match include_of(nodes, stack.drop_last()) {
            None => Some(fresh),
            Some(cur) => Some(combine(cur, fresh, e.2)),
        }
    }
}

/// The search filter of a state: which nodes its search stack keeps, or
/// `None` when there is no search.
pub fn compute_include(state: &CoreState) -> (r: Option<Vec<bool>>)
    ensures
        match r {
            Some(v) => include_of(nodes_view(state.all_nodes@), stack_view(state.search_stack@)) == Some(v@),
            None => include_of(nodes_view(state.all_nodes@), stack_view(state.search_stack@)) is None,
        },
{
    let ghost nv = nodes_view(state.all_nodes@);
    let ghost sv = stack_view(state.search_stack@);
    if state.search_stack.len() == 0 {
        return None;
    }
    let all_true: Vec<bool> = vec![true; state.all_nodes.len()];
    assert(all_true@ =~= Seq::new(nv.len(), |i: int| true));
    let mut inc: Option<Vec<bool>> = None;
    let mut k: usize = 0;
    assert(sv.subrange(0, 0) =~= Seq::<(Seq<char>, SearchScope, FilterOp)>::empty());
    while k < state.search_stack.len()
        invariant
            0 <= k <= state.search_stack@.len(),
            nv == nodes_view(state.all_nodes@),
            sv == stack_view(state.search_stack@),
            all_true@ == Seq::new(nv.len(), |i: int| true),
            match inc {
                Some(v) => include_of(nv, sv.subrange(0, k as int)) == Some(v@),
                None => include_of(nv, sv.subrange(0, k as int)) is None,
            },
        decreases state.search_stack.len() - k,
    {
        let entry = &state.search_stack[k];
        proof {
            let t = sv.subrange(0, k + 1);
            assert(t.drop_last() =~= sv.subrange(0, k as int));
            assert(t.last() == entry_view(*entry));
        }
        let fresh = apply_search_filter(
            state.all_nodes.as_slice(),
            all_true.as_slice(),
            entry.query.as_str(),
            &entry.scope,
        );
        inc = match inc {
            None => Some(fresh),
            Some(cur) => {
                let ghost c0 = cur@;
                let mut cur = cur;
                let mut j: usize = 0;
                while j < cur.len()
                    invariant
                        0 <= j <= cur@.len(),
                        cur@.len() == c0.len(),
                        forall|x: int| j <= x < c0.len() ==> #[trigger] cur@[x] == c0[x],
                        forall|x: int| 0 <= x < j ==> #[trigger] cur@[x] == combine(c0, fresh@, entry.op)[x],
                    decreases cur.len() - j,
                {
                    if j < fresh.len() {
                        let v = match entry.op {
                            FilterOp::And => cur[j] && fresh[j],
                            FilterOp::Or => cur[j] || fresh[j],
                        };
                        cur.set(j, v);
                    }
                    j = j + 1;
                }
                assert(cur@ =~= combine(c0, fresh@, entry.op));
                Some(cur)
            },
        };
        k = k + 1;
    }
    assert(sv.subrange(0, state.search_stack@.len() as int) =~= sv);
    inc
}

// Visible nodes
/// Whether the filter keeps node `i` (`None` keeps every node).
pub open spec fn kept(inc: Option<Seq<bool>>, i: int) -> bool {
    match inc {
        Some(v) => 0 <= i < v.len() && v[i],
        None => true,
    }
}

/// The visible nodes from position `i` on: those the filter keeps, not
/// below a collapsed node (`collapsed` is the depth of the last collapsed
/// visible node while inside its subtree), and not unchanged when unchanged
/// nodes are hidden.
pub open spec fn visible_from(
    nodes: Seq<NodeV>,
    inc: Option<Seq<bool>>,
    hide_unchanged: bool,
    i: int,
    collapsed: Option<usize>,
) -> Seq<usize>
    decreases nodes.len() - i,
{
    if i < 0 || i >= nodes.len() {
        Seq::empty()
    } else {
        let n = nodes[i];
        if !kept(inc, i) {
            visible_from(nodes, inc, hide_unchanged, i + 1, collapsed)
        } else if collapsed is Some && n.depth > collapsed->0 {
            visible_from(nodes, inc, hide_unchanged, i + 1, collapsed)
        } else if hide_unchanged && n.diff_status == Some(DiffStatus::Unchanged) {
            visible_from(nodes, inc, hide_unchanged, i + 1, None)
        } else {
            seq![i as usize] + visible_from(
                nodes,
                inc,
                hide_unchanged,
                i + 1,
                if n.has_children && !n.expanded {
                    Some(n.depth)
                } else {
                    None
                },
            )
        }
    }
}

/// The visible nodes of a state.
pub open spec fn visible_of(nodes: Seq<NodeV>, inc: Option<Seq<bool>>, hide_unchanged: bool) -> Seq<usize> {
    visible_from(nodes, inc, hide_unchanged, 0, None)
}

/// The positions of the nodes shown: those the search keeps, not below a
/// collapsed node, and not unchanged when unchanged nodes are hidden.
pub fn build_visible(state: &CoreState) -> (r: Vec<usize>)
    ensures
        r@ == visible_of(
            nodes_view(state.all_nodes@),
            include_of(nodes_view(state.all_nodes@), stack_view(state.search_stack@)),
            state.hide_unchanged,
        ),
{
    let ghost nv = nodes_view(state.all_nodes@);
    let inc = compute_include(state);
    let ghost incv = include_of(nv, stack_view(state.search_stack@));
    let mut visible: Vec<usize> = Vec::new();
    let mut collapsed_below: Option<usize> = None;
    let mut i: usize = 0;
    while i < state.all_nodes.len()
        invariant
            0 <= i <= state.all_nodes@.len(),
            nv == nodes_view(state.all_nodes@),
            match inc {
                Some(v) => incv == Some(v@),
                None => incv is None,
            },
            visible@ + visible_from(nv, incv, state.hide_unchanged, i as int, collapsed_below) == visible_of(
                nv,
                incv,
                state.hide_unchanged,
            ),
        decreases state.all_nodes.len() - i,
    {
        let node = &state.all_nodes[i];
        assert(nv[i as int] == node@);
        let ghost before = visible@;
        // Nodes the search does not keep are skipped.
        let keep = match &inc {
            Some(v) => i < v.len() && v[i],
            None => true,
        };
        if keep {
            let mut under_collapsed = false;
            if let Some(cd) = collapsed_below {
                if node.depth > cd {
                    under_collapsed = true;
                } else {
                    collapsed_below = None;
                }
            }
            // Unchanged nodes are skipped in diff mode when so filtered.
            if !under_collapsed && !(state.hide_unchanged && node.diff_status == Some(DiffStatus::Unchanged)) {
                visible.push(i);
                if node.has_children && !node.expanded {
                    collapsed_below = Some(node.depth);
                }
                assert(visible@ == before + seq![i as usize]);
            }
        }
        i = i + 1;
    }
    assert(visible@ + Seq::<usize>::empty() =~= visible@);
    visible
}


// Laws
proof fn lemma_visible_from(nodes: Seq<NodeV>, inc: Option<Seq<bool>>, hide: bool, i: int, c: Option<usize>)
    requires
        0 <= i,
        nodes.len() <= usize::MAX,
    ensures
        forall|k: int|
            0 <= k < visible_from(nodes, inc, hide, i, c).len() ==> i <= #[trigger] visible_from(
                nodes,
                inc,
                hide,
                i,
                c,
            )[k] < nodes.len(),
        forall|k: int|
            0 <= k < visible_from(nodes, inc, hide, i, c).len() ==> kept(
                inc,
                #[trigger] visible_from(nodes, inc, hide, i, c)[k] as int,
            ),
        forall|k: int|
            0 <= k < visible_from(nodes, inc, hide, i, c).len() ==> hide ==> nodes[#[trigger] visible_from(
                nodes,
                inc,
                hide,
                i,
                c,
            )[k] as int].diff_status != Some(DiffStatus::Unchanged),
        forall|k: int, l: int|
            0 <= k < l < visible_from(nodes, inc, hide, i, c).len() ==> #[trigger] visible_from(
                nodes,
                inc,
                hide,
                i,
                c,
            )[k] < #[trigger] visible_from(nodes, inc, hide, i, c)[l],
    decreases nodes.len() - i,
{
    if i < nodes.len() {
        let n = nodes[i];
        let next = if n.has_children && !n.expanded {
            Some(n.depth)
        } else {
            None
        };
        lemma_visible_from(nodes, inc, hide, i + 1, c);
        lemma_visible_from(nodes, inc, hide, i + 1, None);
        lemma_visible_from(nodes, inc, hide, i + 1, next);
        if !kept(inc, i) {
            assert(visible_from(nodes, inc, hide, i, c) == visible_from(nodes, inc, hide, i + 1, c));
        } else if c is Some && n.depth > c->0 {
            assert(visible_from(nodes, inc, hide, i, c) == visible_from(nodes, inc, hide, i + 1, c));
        } else if hide && n.diff_status == Some(DiffStatus::Unchanged) {
            assert(visible_from(nodes, inc, hide, i, c) == visible_from(nodes, inc, hide, i + 1, None));
        } else {
            let rest = visible_from(nodes, inc, hide, i + 1, next);
            let v = seq![i as usize] + rest;
            assert(visible_from(nodes, inc, hide, i, c) == v);
            assert forall|k: int| 0 < k < v.len() implies #[trigger] v[k] == rest[k - 1] by {}
            assert(v[0] == i);
            assert forall|k: int, l: int| 0 <= k < l < v.len() implies #[trigger] v[k] < #[trigger] v[l] by {
                if k > 0 {
                    assert(v[k] == rest[k - 1] && v[l] == rest[l - 1]);
                } else {
                    assert(v[l] == rest[l - 1]);
                }
            }
            assert forall|k: int| 0 <= k < v.len() implies i <= #[trigger] v[k] < nodes.len() && kept(
                inc,
                v[k] as int,
            ) && (hide ==> nodes[v[k] as int].diff_status != Some(DiffStatus::Unchanged)) by {
                if k > 0 {
                    assert(v[k] == rest[k - 1]);
                }
            }
        }
    }
}

/// The visible positions are valid and strictly increasing, every one is
/// kept by the search, and none is an unchanged node while unchanged nodes
/// are hidden.
pub proof fn law_visible_nodes(nodes: Seq<NodeV>, inc: Option<Seq<bool>>, hide_unchanged: bool)
    requires
        nodes.len() <= usize::MAX,
    ensures
        ({
            let v = visible_of(nodes, inc, hide_unchanged);
            &&& forall|k: int| 0 <= k < v.len() ==> #[trigger] v[k] < nodes.len()
            &&& forall|k: int| 0 <= k < v.len() ==> kept(inc, #[trigger] v[k] as int)
            &&& forall|k: int|
                0 <= k < v.len() ==> hide_unchanged ==> nodes[#[trigger] v[k] as int].diff_status
                    != Some(DiffStatus::Unchanged)
            &&& forall|k: int, l: int| 0 <= k < l < v.len() ==> #[trigger] v[k] < #[trigger] v[l]
        }),
{
    lemma_visible_from(nodes, inc, hide_unchanged, 0, None);
}

proof fn lemma_mark_up_grows(flags: Seq<bool>, pad: Seq<usize>, d: int)
    requires
        forall|k: int| 0 <= k < pad.len() ==> #[trigger] pad[k] < flags.len(),
    ensures
        mark_up(flags, pad, d).len() == flags.len(),
        forall|k: int| 0 <= k < flags.len() && flags[k] ==> #[trigger] mark_up(flags, pad, d)[k],
    decreases d + 1,
{
    if 0 <= d < pad.len() && !flags[pad[d] as int] {
        lemma_mark_up_grows(flags.update(pad[d] as int, true), pad, d - 1);
    }
}

pub(crate) proof fn lemma_mark_ancestors_grows(nodes: Seq<NodeV>, flags: Seq<bool>, pad: Seq<usize>, i: int)
    requires
        flags.len() == nodes.len(),
        0 <= i,
        forall|k: int| 0 <= k < pad.len() ==> #[trigger] pad[k] < flags.len() || flags.len() == 0,
    ensures
        mark_ancestors(nodes, flags, pad, i).len() == flags.len(),
        forall|k: int| 0 <= k < flags.len() && flags[k] ==> #[trigger] mark_ancestors(nodes, flags, pad, i)[k],
    decreases nodes.len() - i,
{
    if i < nodes.len() {
        let d = nodes[i].depth;
        let pad2 = if d < pad.len() {
            pad.update(d as int, i as usize)
        } else {
            pad
        };
        assert forall|k: int| 0 <= k < pad2.len() implies #[trigger] pad2[k] < flags.len() by {}
        if flags[i] && d > 0 {
            lemma_mark_up_grows(flags, pad2, d - 1);
            lemma_mark_ancestors_grows(nodes, mark_up(flags, pad2, d - 1), pad2, i + 1);
        } else {
            lemma_mark_ancestors_grows(nodes, flags, pad2, i + 1);
        }
    }
}

/// Whether node `i` matches a search by itself: kept by the incoming
/// filter, in scope, and containing the query (case-insensitively).
pub open spec fn matches_search(nodes: Seq<NodeV>, inc: Seq<bool>, query: Seq<char>, scope: SearchScope, i: int) -> bool {
    &&& 0 <= i < nodes.len()
    &&& i < inc.len()
    &&& inc[i]
    &&& in_scope(nodes[i].node_type, scope)
    &&& crate::text::contains(crate::text::lowercase(nodes[i].text), crate::text::lowercase(query))
}

proof fn lemma_mark_matches(
    nodes: Seq<NodeV>,
    inc: Seq<bool>,
    scope: SearchScope,
    q: Seq<char>,
    i: int,
    skip: Option<usize>,
    flags: Seq<bool>,
)
    requires
        flags.len() == nodes.len(),
        0 <= i,
    ensures
        mark_matches(nodes, inc, scope, q, i, skip, flags).len() == flags.len(),
        forall|k: int| 0 <= k < flags.len() && flags[k] ==> #[trigger] mark_matches(nodes, inc, scope, q, i, skip, flags)[k],
        forall|k: int|
            i <= k < nodes.len() && k < inc.len() && inc[k] && in_scope(nodes[k].node_type, scope)
                && crate::text::contains(crate::text::lowercase(nodes[k].text), q) ==> #[trigger] mark_matches(
                nodes,
                inc,
                scope,
                q,
                i,
                skip,
                flags,
            )[k],
    decreases inc.len() - i,
{
    if i < inc.len() && i < nodes.len() {
        let n = nodes[i];
        if skip is Some && n.depth > skip->0 {
            let f2 = if inc[i] {
                flags.update(i, true)
            } else {
                flags
            };
            lemma_mark_matches(nodes, inc, scope, q, i + 1, skip, f2);
        } else if !inc[i] {
            lemma_mark_matches(nodes, inc, scope, q, i + 1, None, flags);
        } else if in_scope(n.node_type, scope) && crate::text::contains(crate::text::lowercase(n.text), q) {
            lemma_mark_matches(nodes, inc, scope, q, i + 1, Some(n.depth), flags.update(i, true));
        } else {
            lemma_mark_matches(nodes, inc, scope, q, i + 1, None, flags);
        }
    }
}

/// A search keeps every node that matches it by itself.
pub proof fn law_search_keeps_matches(nodes: Seq<NodeV>, inc: Seq<bool>, query: Seq<char>, scope: SearchScope, i: int)
    requires
        matches_search(nodes, inc, query, scope, i),
    ensures
        search_filter(nodes, inc, query, scope)[i],
        search_filter(nodes, inc, query, scope).len() == nodes.len(),
{
    let init = Seq::new(nodes.len(), |k: int| false);
    lemma_mark_matches(nodes, inc, scope, crate::text::lowercase(query), 0, None, init);
    let matched = mark_matches(nodes, inc, scope, crate::text::lowercase(query), 0, None, init);
    let pad = Seq::new(depth_slots(nodes), |k: int| 0usize);
    assert forall|k: int| 0 <= k < pad.len() implies #[trigger] pad[k] < matched.len() || matched.len() == 0 by {}
    lemma_mark_ancestors_grows(nodes, matched, pad, 0);
}


/// A search in the responses scope keeps every included positive or
/// negative response node whose text contains the query (ignoring case);
/// likewise a search in the requests scope keeps such request nodes, one in
/// the services scope such services, parent-referenced services, requests
/// and responses, one in the diag-comms scope those and jobs, one in the
/// variants, functional-groups or shared-data scope such containers and
/// section headers, and one in the scope of all such nodes of any type.
pub proof fn law_search_scope_keeps(nodes: Seq<NodeV>, inc: Seq<bool>, query: Seq<char>, scope: SearchScope, i: int)
    requires
        0 <= i < nodes.len(),
        i < inc.len(),
        inc[i],
        crate::text::contains(crate::text::lowercase(nodes[i].text), crate::text::lowercase(query)),
        match scope {
            SearchScope::All => true,
            SearchScope::Responses => nodes[i].node_type == NodeType::PosResponse || nodes[i].node_type
                == NodeType::NegResponse,
            SearchScope::Requests => nodes[i].node_type == NodeType::Request,
            SearchScope::Variants | SearchScope::FunctionalGroups | SearchScope::EcuSharedData => nodes[i].node_type
                == NodeType::Container || nodes[i].node_type == NodeType::SectionHeader,
            SearchScope::Services => nodes[i].node_type == NodeType::Service || nodes[i].node_type
                == NodeType::ParentRefService || nodes[i].node_type == NodeType::Request
                || nodes[i].node_type == NodeType::PosResponse || nodes[i].node_type == NodeType::NegResponse,
            SearchScope::DiagComms => nodes[i].node_type == NodeType::Service || nodes[i].node_type
                == NodeType::ParentRefService || nodes[i].node_type == NodeType::Request
                || nodes[i].node_type == NodeType::PosResponse || nodes[i].node_type == NodeType::NegResponse
                || nodes[i].node_type == NodeType::Job,
        },
    ensures
        search_filter(nodes, inc, query, scope)[i],
        search_filter(nodes, inc, query, scope).len() == nodes.len(),
{
    assert(matches_search(nodes, inc, query, scope, i));
    law_search_keeps_matches(nodes, inc, query, scope, i);
}

// Header counts under active filters
/// Whether node `i` passes the active filters (search and hide-unchanged).
pub open spec fn passes(nodes: Seq<NodeV>, inc: Option<Seq<bool>>, hide_unchanged: bool, i: int) -> bool {
    kept(inc, i) && !(hide_unchanged && nodes[i].diff_status == Some(DiffStatus::Unchanged))
}

/// The direct children (depth `header_depth + 1`) among the nodes from `i`
/// to the end of the header's subtree that pass the filters.
pub open spec fn count_children_from(
    nodes: Seq<NodeV>,
    inc: Option<Seq<bool>>,
    hide_unchanged: bool,
    header_depth: usize,
    i: int,
) -> nat
    decreases nodes.len() - i,
{
    if i < 0 || i >= nodes.len() || nodes[i].depth <= header_depth {
        0
    } else {
        count_children_from(nodes, inc, hide_unchanged, header_depth, i + 1) + if nodes[i].depth
            == header_depth + 1 && passes(nodes, inc, hide_unchanged, i) {
            1nat
        } else {
            0nat
        }
    }
}

proof fn lemma_count_children_bound(nodes: Seq<NodeV>, inc: Option<Seq<bool>>, hide: bool, hd: usize, i: int)
    requires
        0 <= i,
    ensures
        count_children_from(nodes, inc, hide, hd, i) <= if i <= nodes.len() { nodes.len() - i } else { 0 },
    decreases nodes.len() - i,
{
    if i < nodes.len() && nodes[i].depth > hd {
        lemma_count_children_bound(nodes, inc, hide, hd, i + 1);
    }
}

fn passes_exec(node: &TreeNode, inc: Option<&[bool]>, hide_unchanged: bool, i: usize) -> (r: bool)
    ensures
        r == (kept(
            match inc {
                Some(v) => Some(v@),
                None => None,
            },
            i as int,
        ) && !(hide_unchanged && node.diff_status == Some(DiffStatus::Unchanged))),
{
    let passes_search = match inc {
        Some(v) => i < v.len() && v[i],
        None => true,
    };
    let passes_diff = !hide_unchanged || node.diff_status != Some(DiffStatus::Unchanged);
    passes_search && passes_diff
}

pub open spec fn opt_slice_view(inc: Option<&[bool]>) -> Option<Seq<bool>> {
    match inc {
        Some(v) => Some(v@),
        None => None,
    }
}

/// Count the direct children (depth `header_depth + 1`) of the node at
/// `header_idx` that pass the active filters (search and hide-unchanged).
pub fn count_filtered_direct_children(
    all_nodes: &[TreeNode],
    inc: Option<&[bool]>,
    hide_unchanged: bool,
    header_idx: usize,
    header_depth: usize,
) -> (r: usize)
    ensures
        r == count_children_from(
            nodes_view(all_nodes@),
            opt_slice_view(inc),
            hide_unchanged,
            header_depth,
            header_idx + 1,
        ),
{
    let ghost nv = nodes_view(all_nodes@);
    let ghost iv = opt_slice_view(inc);
    let child_depth = header_depth.saturating_add(1);
    let mut count: usize = 0;
    let start = header_idx.saturating_add(1);
    let mut i = start;
    assert(all_nodes@.len() == all_nodes.len());
    if header_idx == usize::MAX {
        return 0;
    }
    while i < all_nodes.len()
        invariant
            start == header_idx + 1,
            start <= i <= all_nodes@.len() || i == start,
            nv == nodes_view(all_nodes@),
            iv == opt_slice_view(inc),
            child_depth == if header_depth == usize::MAX { header_depth as int } else { header_depth + 1 },
            count + count_children_from(nv, iv, hide_unchanged, header_depth, i as int) == count_children_from(
                nv,
                iv,
                hide_unchanged,
                header_depth,
                header_idx + 1,
            ),
            count <= i,
        ensures
            count == count_children_from(nv, iv, hide_unchanged, header_depth, header_idx + 1),
        decreases all_nodes.len() - i,
    {
        let n = &all_nodes[i];
        assert(nv[i as int] == n@);
        if n.depth <= header_depth {
            assert(count_children_from(nv, iv, hide_unchanged, header_depth, i as int) == 0);
            break;
        }
        if n.depth == child_depth && passes_exec(n, inc, hide_unchanged, i) {
            count = count + 1;
        }
        i = i + 1;
    }
    count
}

/// A node as the front end sees it.
pub ghost struct VisibleNodeV {
    pub index: usize,
    pub depth: usize,
    pub text: Seq<char>,
    pub expanded: bool,
    pub has_children: bool,
    pub node_type: NodeType,
    pub diff_status: Option<DiffStatus>,
    pub is_sortable: bool,
    pub old_text: Option<Seq<char>>,
}

impl View for VisibleNode {
    type V = VisibleNodeV;

    open spec fn view(&self) -> VisibleNodeV {
        VisibleNodeV {
            index: self.index,
            depth: self.depth,
            text: self.text@,
            expanded: self.expanded,
            has_children: self.has_children,
            node_type: self.node_type,
            diff_status: self.diff_status,
            is_sortable: self.is_sortable,
            old_text: crate::tree::types::opt_string_view(self.old_text),
        }
    }
}

/// Node `idx` as the front end shows it: a service-list header shows, while
/// a filter is active, the number of its direct children that pass.
pub open spec fn visible_node(
    nodes: Seq<NodeV>,
    idx: usize,
    any_filter: bool,
    inc: Option<Seq<bool>>,
    hide_unchanged: bool,
) -> VisibleNodeV {
    let n = nodes[idx as int];
    VisibleNodeV {
        index: idx,
        depth: n.depth,
        text: if any_filter && n.payload.service_list_type() is Some {
            with_count(n.text, count_children_from(nodes, inc, hide_unchanged, n.depth, idx + 1))
        } else {
            n.text
        },
        expanded: n.expanded,
        has_children: n.has_children,
        node_type: n.node_type,
        diff_status: n.diff_status,
        is_sortable: n.payload.service_list_type() is Some,
        old_text: n.old_text,
    }
}

/// The visible positions that are valid, each as a shown node.
pub open spec fn visible_nodes_of(
    nodes: Seq<NodeV>,
    visible: Seq<usize>,
    any_filter: bool,
    inc: Option<Seq<bool>>,
    hide_unchanged: bool,
) -> Seq<VisibleNodeV>
    decreases visible.len(),
{
    if visible.len() == 0 {
        Seq::empty()
    } else {
        visible_nodes_of(nodes, visible.drop_last(), any_filter, inc, hide_unchanged) + if visible.last()
            < nodes.len() {
            seq![visible_node(nodes, visible.last(), any_filter, inc, hide_unchanged)]
        } else {
            Seq::empty()
        }
    }
}

/// Whether a search or the hide-unchanged filter is active.
pub open spec fn any_filter(state: &CoreState) -> bool {
    state.search_stack@.len() > 0 || state.hide_unchanged
}

/// The filter that the header counts use: the search filter while a filter
/// is active.
pub open spec fn count_filter(state: &CoreState) -> Option<Seq<bool>> {
    if any_filter(state) {
        include_of(nodes_view(state.all_nodes@), stack_view(state.search_stack@))
    } else {
        None
    }
}

pub open spec fn visible_nodes_view(v: Seq<VisibleNode>) -> Seq<VisibleNodeV> {
    v.map_values(|n: VisibleNode| n@)
}

fn visible_node_exec(
    all_nodes: &Vec<TreeNode>,
    idx: usize,
    any: bool,
    inc: Option<&[bool]>,
    hide_unchanged: bool,
) -> (r: VisibleNode)
    requires
        idx < all_nodes@.len(),
    ensures
        r@ == visible_node(nodes_view(all_nodes@), idx, any, opt_slice_view(inc), hide_unchanged),
{
    let node = &all_nodes[idx];
    assert(nodes_view(all_nodes@)[idx as int] == node@);
    let text = if any && node.service_list_type().is_some() {
        let count = count_filtered_direct_children(all_nodes.as_slice(), inc, hide_unchanged, idx, node.depth);
        replace_header_count(node.text.as_str(), count)
    } else {
        node.text.clone()
    };
    let old_text = match &node.old_text {
        Some(t) => Some(t.clone()),
        None => None,
    };
    VisibleNode {
        index: idx,
        depth: node.depth,
        text,
        expanded: node.expanded,
        has_children: node.has_children,
        node_type: node.node_type,
        diff_status: node.diff_status,
        is_sortable: node.service_list_type().is_some(),
        old_text,
    }
}

/// The visible nodes of a state as the front end shows them.
pub fn to_visible_nodes(state: &CoreState) -> (r: Vec<VisibleNode>)
    ensures
        visible_nodes_view(r@) == visible_nodes_of(
            nodes_view(state.all_nodes@),
            state.visible@,
            any_filter(state),
            count_filter(state),
            state.hide_unchanged,
        ),
{
    let ghost nv = nodes_view(state.all_nodes@);
    let any = state.search_stack.len() != 0 || state.hide_unchanged;
    let inc = if any {
        compute_include(state)
    } else {
        None
    };
    let ghost iv = match &inc {
        Some(v) => Some(v@),
        None => None,
    };
    assert(iv == count_filter(state));
    let inc_slice: Option<&[bool]> = match &inc {
        Some(v) => Some(v.as_slice()),
        None => None,
    };
    assert(opt_slice_view(inc_slice) == iv);
    let mut out: Vec<VisibleNode> = Vec::new();
    let mut k: usize = 0;
    while k < state.visible.len()
        invariant
            0 <= k <= state.visible@.len(),
            nv == nodes_view(state.all_nodes@),
            opt_slice_view(inc_slice) == iv,
            any == any_filter(state),
            visible_nodes_view(out@) == visible_nodes_of(
                nv,
                state.visible@.subrange(0, k as int),
                any,
                iv,
                state.hide_unchanged,
            ),
        decreases state.visible.len() - k,
    {
        let idx = state.visible[k];
        let ghost before = out@;
        proof {
            let t = state.visible@.subrange(0, k + 1);
            assert(t.drop_last() =~= state.visible@.subrange(0, k as int));
        }
        if idx < state.all_nodes.len() {
            let v = visible_node_exec(&state.all_nodes, idx, any, inc_slice, state.hide_unchanged);
            out.push(v);
            assert(visible_nodes_view(out@) =~= visible_nodes_view(before) + seq![v@]);
        } else {
            assert(visible_nodes_view(out@) =~= visible_nodes_view(before) + Seq::<VisibleNodeV>::empty());
        }
        k = k + 1;
    }
    assert(state.visible@.subrange(0, state.visible@.len() as int) =~= state.visible@);
    out
}


// Filtering service-list overview tables
/// The short name of the first tree-node jump among a row's cells.
pub open spec fn row_ref_name(cells: Seq<CellV>) -> Option<Seq<char>>
    decreases cells.len(),
{
    if cells.len() == 0 {
        None
    } else {
        match cells[0].jump_target {
            Some(JumpV::TreeNodeByIndex { short_name, .. }) => Some(short_name),
            _ => row_ref_name(cells.drop_first()),
        }
    }
}

/// The name by which a list header's child is matched with table rows.
pub open spec fn child_key(n: NodeV) -> Seq<char> {
    match n.payload.service_short_name() {
        Some(s) => s,
        None => n.text,
    }
}

/// Whether the last direct child named `name` (from `i` to the end of the
/// header's subtree) passes the filters; `None` when there is none.
pub open spec fn child_passes(
    nodes: Seq<NodeV>,
    inc: Option<Seq<bool>>,
    hide_unchanged: bool,
    header_depth: usize,
    i: int,
    name: Seq<char>,
) -> Option<bool>
    decreases nodes.len() - i,
{
    if i < 0 || i >= nodes.len() || nodes[i].depth <= header_depth {
        None
    } else {
        match child_passes(nodes, inc, hide_unchanged, header_depth, i + 1, name) {
            Some(b) => Some(b),
            None => if nodes[i].depth == header_depth + 1 && child_key(nodes[i]) == name {
                Some(passes(nodes, inc, hide_unchanged, i))
            } else {
                None
            },
        }
    }
}

/// Whether a row of a header's overview table stays: rows that refer to no
/// tree node stay, and so do rows whose service passes the filters or is
/// not among the header's children.
pub open spec fn row_stays(
    nodes: Seq<NodeV>,
    inc: Option<Seq<bool>>,
    hide_unchanged: bool,
    header_idx: usize,
    r: RowV,
) -> bool {
    let hd = if header_idx < nodes.len() {
        nodes[header_idx as int].depth
    } else {
        0
    };
    match row_ref_name(r.cells) {
        None => true,
        Some(name) => match child_passes(nodes, inc, hide_unchanged, hd, header_idx + 1, name) {
            Some(b) => b,
            None => true,
        },
    }
}

pub open spec fn rows_staying(
    rows: Seq<RowV>,
    nodes: Seq<NodeV>,
    inc: Option<Seq<bool>>,
    hide_unchanged: bool,
    header_idx: usize,
) -> Seq<RowV>
    decreases rows.len(),
{
    if rows.len() == 0 {
        Seq::empty()
    } else {
        rows_staying(rows.drop_last(), nodes, inc, hide_unchanged, header_idx) + if row_stays(
            nodes,
            inc,
            hide_unchanged,
            header_idx,
            rows.last(),
        ) {
            seq![rows.last()]
        } else {
            Seq::empty()
        }
    }
}

/// A section of a service-list header under the active filters: a table
/// keeps the rows that stay, and its title shows their number; other
/// content is left as it is.
pub open spec fn filtered_section(
    s: SectionV,
    nodes: Seq<NodeV>,
    inc: Option<Seq<bool>>,
    hide_unchanged: bool,
    header_idx: usize,
) -> SectionV {
    match s.content {
        ContentV::Table { header, rows, constraints, use_row_selection } => {
            let staying = rows_staying(rows, nodes, inc, hide_unchanged, header_idx);
            SectionV {
                title: with_count(s.title, staying.len()),
                content: ContentV::Table { header, rows: staying, constraints, use_row_selection },
                ..s
            }
        },
        _ => s,
    }
}

fn row_ref_name_exec(cells: &Vec<DetailCell>) -> (r: Option<&str>)
    ensures
        match r {
            Some(n) => row_ref_name(cells_view(cells@)) == Some(n@),
            None => row_ref_name(cells_view(cells@)) is None,
        },
{
    let ghost cv = cells_view(cells@);
    let n = cells.len();
    let mut i: usize = 0;
    assert(cv.subrange(0, n as int) =~= cv);
    while i < n
        invariant
            0 <= i <= n,
            n == cells@.len(),
            cv == cells_view(cells@),
            row_ref_name(cv) == row_ref_name(cv.subrange(i as int, n as int)),
        decreases n - i,
    {
        proof {
            assert(cv.subrange(i as int, n as int).drop_first() =~= cv.subrange(i + 1, n as int));
            assert(cv.subrange(i as int, n as int)[0] == cells@[i as int]@);
        }
        if let Some(jt) = &cells[i].jump_target {
            if let CellJumpTargetType::TreeNodeByIndex { short_name, .. } = &jt.target_type {
                return Some(short_name.as_str());
            }
        }
        i = i + 1;
    }
    None
}

fn child_key_exec(n: &TreeNode) -> (r: &str)
    ensures
        r@ == child_key(n@),
{
    match n.service_short_name() {
        Some(s) => s,
        None => n.text.as_str(),
    }
}

proof fn lemma_child_passes_later(
    nodes: Seq<NodeV>,
    inc: Option<Seq<bool>>,
    hide: bool,
    hd: usize,
    m: int,
    k: int,
    name: Seq<char>,
)
    requires
        0 <= m <= k < nodes.len(),
        forall|x: int| m <= x <= k ==> #[trigger] nodes[x].depth > hd,
        child_passes(nodes, inc, hide, hd, k, name) is Some,
    ensures
        child_passes(nodes, inc, hide, hd, m, name) == child_passes(nodes, inc, hide, hd, k, name),
    decreases k - m,
{
    if m < k {
        lemma_child_passes_later(nodes, inc, hide, hd, m + 1, k, name);
    }
}

fn child_passes_exec(
    all_nodes: &[TreeNode],
    inc: Option<&[bool]>,
    hide_unchanged: bool,
    header_depth: usize,
    header_idx: usize,
    name: &str,
) -> (r: Option<bool>)
    ensures
        r == child_passes(
            nodes_view(all_nodes@),
            opt_slice_view(inc),
            hide_unchanged,
            header_depth,
            header_idx + 1,
            name@,
        ),
{
    let ghost nv = nodes_view(all_nodes@);
    let ghost iv = opt_slice_view(inc);
    assert(all_nodes@.len() == all_nodes.len());
    if header_idx == usize::MAX {
        return None;
    }
    let child_depth = header_depth.saturating_add(1);
    // The subtree's end.
    let mut end = header_idx + 1;
    while end < all_nodes.len() && all_nodes[end].depth > header_depth
        invariant
            header_idx + 1 <= end <= all_nodes@.len() || end == header_idx + 1,
            nv == nodes_view(all_nodes@),
            forall|k: int| header_idx + 1 <= k < end ==> #[trigger] nv[k].depth > header_depth,
        decreases all_nodes.len() - end,
    {
        assert(nv[end as int] == all_nodes@[end as int]@);
        end = end + 1;
    }
    proof {
        if end < all_nodes@.len() {
            assert(nv[end as int] == all_nodes@[end as int]@);
        }
    }
    // The last matching child decides.
    let mut j = end;
    let ghost tail = child_passes(nv, iv, hide_unchanged, header_depth, end as int, name@);
    assert(tail is None);
    while j > header_idx + 1
        invariant
            header_idx + 1 <= j <= end,
            end <= all_nodes@.len() || end == header_idx + 1,
            nv == nodes_view(all_nodes@),
            iv == opt_slice_view(inc),
            forall|k: int| header_idx + 1 <= k < end ==> #[trigger] nv[k].depth > header_depth,
            child_passes(nv, iv, hide_unchanged, header_depth, j as int, name@) is None,
            child_depth == if header_depth == usize::MAX { header_depth as int } else { header_depth + 1 },
        decreases j,
    {
        let k = j - 1;
        let n = &all_nodes[k];
        assert(nv[k as int] == n@);
        if n.depth == child_depth && crate::text::str_eq(child_key_exec(n), name) {
            let r = passes_exec(n, inc, hide_unchanged, k);
            proof {
                assert(child_passes(nv, iv, hide_unchanged, header_depth, k as int, name@) == Some(r));
                lemma_child_passes_later(nv, iv, hide_unchanged, header_depth, header_idx + 1, k as int, name@);
            }
            return Some(r);
        }
        j = k;
    }
    None
}

fn rows_staying_exec(
    rows: &Vec<DetailRow>,
    all_nodes: &[TreeNode],
    inc: Option<&[bool]>,
    hide_unchanged: bool,
    header_idx: usize,
) -> (r: Vec<DetailRow>)
    ensures
        rows_view(r@) == rows_staying(
            rows_view(rows@),
            nodes_view(all_nodes@),
            opt_slice_view(inc),
            hide_unchanged,
            header_idx,
        ),
{
    let ghost rv = rows_view(rows@);
    let ghost nv = nodes_view(all_nodes@);
    let header_depth = if header_idx < all_nodes.len() {
        all_nodes[header_idx].depth
    } else {
        0
    };
    proof {
        if header_idx < all_nodes@.len() {
            assert(nv[header_idx as int] == all_nodes@[header_idx as int]@);
        }
    }
    let mut out: Vec<DetailRow> = Vec::new();
    let mut i: usize = 0;
    while i < rows.len()
        invariant
            0 <= i <= rows@.len(),
            rv == rows_view(rows@),
            nv == nodes_view(all_nodes@),
            header_depth == if header_idx < nv.len() { nv[header_idx as int].depth } else { 0 },
            rows_view(out@) == rows_staying(rv.subrange(0, i as int), nv, opt_slice_view(inc), hide_unchanged, header_idx),
        decreases rows.len() - i,
    {
        let row = &rows[i];
        proof {
            let t = rv.subrange(0, i + 1);
            assert(t.drop_last() =~= rv.subrange(0, i as int));
            assert(t.last() == row@);
        }
        let stays = match row_ref_name_exec(&row.cells) {
            None => true,
            Some(name) => match child_passes_exec(all_nodes, inc, hide_unchanged, header_depth, header_idx, name) {
                Some(b) => b,
                None => true,
            },
        };
        let ghost before = out@;
        if stays {
            let copy = row.duplicate();
            out.push(copy);
            assert(rows_view(out@) =~= rows_view(before) + seq![row@]);
        } else {
            assert(rows_view(out@) =~= rows_view(before) + Seq::<RowV>::empty());
        }
        i = i + 1;
    }
    assert(rv.subrange(0, rows@.len() as int) =~= rv);
    out
}

/// Filter the rows of a service-list overview table, keeping the rows
/// whose service passes the active search and diff filters.
///
/// Rows are matched by the short name of their tree-node jump against the
/// header's direct children; rows without such a jump always stay.  Only
/// tables are filtered, and their title count is updated.
pub fn filter_service_list_rows(
    section: &DetailSectionData,
    inc: Option<&[bool]>,
    hide_unchanged: bool,
    all_nodes: &[TreeNode],
    header_idx: usize,
) -> (r: DetailSectionData)
    ensures
        r@ == filtered_section(section@, nodes_view(all_nodes@), opt_slice_view(inc), hide_unchanged, header_idx),
{
    match &section.content {
        DetailContent::Table { header, rows, constraints, use_row_selection } => {
            let filtered = rows_staying_exec(rows, all_nodes, inc, hide_unchanged, header_idx);
            let row_count = filtered.len();
            let byte_pattern_rows = match &section.byte_pattern_rows {
                Some(r) => Some(crate::tree::types::duplicate_rows(r)),
                None => None,
            };
            DetailSectionData {
                title: replace_header_count(section.title.as_str(), row_count),
                content: DetailContent::Table {
                    header: header.duplicate(),
                    rows: filtered,
                    constraints: constraints.clone(),
                    use_row_selection: *use_row_selection,
                },
                render_as_header: section.render_as_header,
                section_type: section.section_type,
                byte_pattern_rows,
            }
        },
        _ => section.duplicate(),
    }
}


// Node detail, variant and service ID
/// The detail sections shown for node `index`: a service-list header's
/// overview tables are filtered while a filter is active; an index past the
/// end is an error `Node index <index> out of range`.
pub fn node_detail(core: &CoreState, index: usize) -> (r: Result<Vec<DetailSectionData>, String>)
    ensures
        index >= core.all_nodes@.len() <==> r is Err,
        r matches Err(e) ==> e@ == "Node index "@ + decimal(index as nat) + " out of range"@,
        r matches Ok(v) ==> ({
            let n = core.all_nodes@[index as int]@;
            if !any_filter(core) || n.payload.service_list_type() is None {
                sections_view(v@) == n.detail_sections
            } else {
                sections_view(v@) == n.detail_sections.map_values(
                    |s: SectionV|
                        filtered_section(
                            s,
                            nodes_view(core.all_nodes@),
                            count_filter(core),
                            core.hide_unchanged,
                            index,
                        ),
                )
            }
        }),
{
    if index >= core.all_nodes.len() {
        let mut e = "Node index ".to_owned();
        e.append(usize_to_decimal(index).as_str());
        e.append(" out of range");
        return Err(e);
    }
    let node = &core.all_nodes[index];
    // Only the overview tables of service-list headers are filtered.
    let any = core.search_stack.len() != 0 || core.hide_unchanged;
    if !any || node.service_list_type().is_none() {
        return Ok(crate::tree::types::duplicate_sections(&node.detail_sections));
    }
    let inc = compute_include(core);
    let inc_slice: Option<&[bool]> = match &inc {
        Some(v) => Some(v.as_slice()),
        None => None,
    };
    assert(opt_slice_view(inc_slice) == count_filter(core));
    let ghost sv = sections_view(node.detail_sections@);
    let mut out: Vec<DetailSectionData> = Vec::new();
    let mut i: usize = 0;
    while i < node.detail_sections.len()
        invariant
            0 <= i <= node.detail_sections@.len(),
            sv == sections_view(node.detail_sections@),
            opt_slice_view(inc_slice) == count_filter(core),
            out@.len() == i,
            forall|k: int|
                0 <= k < i ==> #[trigger] out@[k]@ == filtered_section(
                    sv[k],
                    nodes_view(core.all_nodes@),
                    count_filter(core),
                    core.hide_unchanged,
                    index,
                ),
        decreases node.detail_sections.len() - i,
    {
        let f = filter_service_list_rows(
            &node.detail_sections[i],
            inc_slice,
            core.hide_unchanged,
            core.all_nodes.as_slice(),
            index,
        );
        out.push(f);
        i = i + 1;
    }
    assert forall|k: int| 0 <= k < out@.len() implies sections_view(out@)[k] == filtered_section(
        sv[k],
        nodes_view(core.all_nodes@),
        count_filter(core),
        core.hide_unchanged,
        index,
    ) by {
        assert(sections_view(out@)[k] == out@[k]@);
    }
    assert(sections_view(out@) =~= sv.map_values(
        |s: SectionV|
            filtered_section(s, nodes_view(core.all_nodes@), count_filter(core), core.hide_unchanged, index),
    ));
    Ok(out)
}

/// Every node's parent comes before it.
pub open spec fn parents_precede(nodes: Seq<NodeV>) -> bool {
    forall|i: int| 0 <= i < nodes.len() ==> (#[trigger] nodes[i].parent_idx matches Some(p) ==> p < i)
}

/// The short name of the first container met when following parent links
/// from `cur` for at most `n` steps (the start included); none when the walk
/// leaves the nodes or runs out of steps first.
pub open spec fn variant_walk(nodes: Seq<NodeV>, cur: Option<usize>, n: nat) -> Option<Seq<char>>
    decreases n,
{
    match cur {
        None => None,
        Some(idx) => if idx >= nodes.len() || n == 0 {
            None
        } else {
            let node = nodes[idx as int];
            if node.node_type == NodeType::Container && node.payload is Container {
                Some(node.payload->Container_short_name)
            } else {
                variant_walk(nodes, node.parent_idx, (n - 1) as nat)
            }
        },
    }
}

/// The short name of the first container on the parent chain from node
/// `idx` (the node itself included).
pub open spec fn variant_of(nodes: Seq<NodeV>, idx: int) -> Option<Seq<char>> {
    if idx < 0 {
        None
    } else {
        variant_walk(nodes, Some(idx as usize), nodes.len() + 1)
    }
}

/// Resolve the variant of a node by walking its parent chain.
pub fn resolve_node_variant(all_nodes: &[TreeNode], index: usize) -> (r: Option<String>)
    requires
        crate::report::path_ends(nodes_view(all_nodes@), index as int),
    ensures
        match r {
            Some(s) => variant_of(nodes_view(all_nodes@), index as int) == Some(s@),
            None => variant_of(nodes_view(all_nodes@), index as int) is None,
        },
{
    let ghost nv = nodes_view(all_nodes@);
    let ghost mut fuel: nat = nv.len() + 1;
    proof {
        if (index as int) < nv.len() {
            assert(crate::report::chain_ends(nv, Some(index), fuel) == crate::report::chain_ends(
                nv,
                nv[index as int].parent_idx,
                nv.len(),
            ));
        }
    }
    let mut idx = index;
    loop
        invariant
            nv == nodes_view(all_nodes@),
            crate::report::chain_ends(nv, Some(idx), fuel),
            variant_of(nv, index as int) == variant_walk(nv, Some(idx), fuel),
        decreases fuel,
    {
        if idx >= all_nodes.len() {
            return None;
        }
        let node = &all_nodes[idx];
        assert(nv[idx as int] == node@);
        assert(fuel > 0);
        if node.node_type == NodeType::Container {
            if let NodePayload::Container { short_name, .. } = &node.payload {
                return Some(short_name.clone());
            }
        }
        match node.parent_idx {
            Some(p) => {
                idx = p;
                proof {
                    fuel = (fuel - 1) as nat;
                }
            },
            None => {
                assert(variant_walk(nv, Some(idx), fuel) == variant_walk(nv, None, (fuel - 1) as nat));
                return None;
            },
        }
    }
}

/// The value of a hexadecimal digit string (`None` when empty, not all
/// hex digits, or above `u32::MAX`), after an optional leading `+`, as
/// `u32::from_str_radix(_, 16)` reads it.
pub open spec fn hex_value(s: Seq<char>) -> nat
    decreases s.len(),
{
    if s.len() == 0 {
        0
    } else {
        hex_value(s.drop_last()) * 16 + crate::uds::translator::hex_digit_value(s.last())
    }
}

/// Every character is a hexadecimal digit.
pub open spec fn all_hex_digits(d: Seq<char>) -> bool {
    forall|i: int| 0 <= i < d.len() ==> crate::uds::translator::is_hex_digit(#[trigger] d[i])
}

pub open spec fn parse_hex_u32(s: Seq<char>) -> Option<u32> {
    let digits = if s.len() > 1 && s[0] == '+' {
        s.drop_first()
    } else {
        s
    };
    if digits.len() > 0 && all_hex_digits(digits) && hex_value(digits) <= u32::MAX {
        Some(hex_value(digits) as u32)
    } else {
        None
    }
}

/// `s` without leading and trailing white space.
pub open spec fn trim(s: Seq<char>) -> Seq<char>
    decreases s.len(),
{
    if s.len() > 0 && is_white_space(s[0]) {
        trim(s.drop_first())
    } else {
        trim_end(s)
    }
}

/// The service ID of a `"0x<hex> - <name>"` text: the hexadecimal number
/// between `0x` and the first `" - "`.
pub open spec fn service_id_of(text: Seq<char>) -> Option<u32> {
    if crate::text::starts_with(text, "0x"@) {
        let rest = text.subrange("0x"@.len() as int, text.len() as int);
        if crate::text::contains(rest, " - "@) {
            parse_hex_u32(trim(rest.subrange(0, crate::text::first_occurrence(rest, " - "@))))
        } else {
            None
        }
    } else {
        None
    }
}

proof fn lemma_hex_value_step(s: Seq<char>, i: int)
    requires
        0 <= i < s.len(),
    ensures
        hex_value(s.subrange(0, i + 1)) == hex_value(s.subrange(0, i)) * 16
            + crate::uds::translator::hex_digit_value(s[i]),
{
    assert(s.subrange(0, i + 1).drop_last() =~= s.subrange(0, i));
}

#[verifier::spinoff_prover]
#[verifier::rlimit(40)]
fn parse_hex_u32_exec(s: &Vec<char>) -> (r: Option<u32>)
    ensures
        r == parse_hex_u32(s@),
{
    let start: usize = if s.len() > 1 && s[0] == '+' {
        1
    } else {
        0
    };
    let ghost digits = s@.subrange(start as int, s@.len() as int);
    assert(digits =~= if s@.len() > 1 && s@[0] == '+' { s@.drop_first() } else { s@ });
    if start >= s.len() {
        return None;
    }
    let mut value: u64 = 0;
    let mut i = start;
    while i < s.len()
        invariant
            start <= i <= s@.len(),
            start < s@.len(),
            digits == s@.subrange(start as int, s@.len() as int),
            digits == if s@.len() > 1 && s@[0] == '+' {
                s@.drop_first()
            } else {
                s@
            },
            value == hex_value(digits.subrange(0, i - start)),
            value <= u32::MAX,
            forall|k: int| 0 <= k < i - start ==> crate::uds::translator::is_hex_digit(#[trigger] digits[k]),
        decreases s.len() - i,
    {
        let c = s[i];
        if !crate::uds::translator::is_hex_digit_exec(c) {
            assert(!crate::uds::translator::is_hex_digit(digits[i - start]));
            assert(!all_hex_digits(digits));
            return None;
        }
        proof {
            lemma_hex_value_step(digits, i - start);
            assert(digits[i - start] == c);
        }
        let d: u64 = if '0' <= c && c <= '9' {
            (c as u64) - ('0' as u64)
        } else if 'a' <= c && c <= 'f' {
            (c as u64) - ('a' as u64) + 10
        } else {
            (c as u64) - ('A' as u64) + 10
        };
        assert(d == crate::uds::translator::hex_digit_value(c));
        let next = value * 16 + d;
        if next > 0xFFFF_FFFF {
            proof {
                lemma_hex_value_grows(digits, i - start + 1);
            }
            return None;
        }
        value = next;
        i = i + 1;
    }
    assert(digits.subrange(0, digits.len() as int) =~= digits);
    Some(value as u32)
}

proof fn lemma_hex_value_grows(s: Seq<char>, n: int)
    requires
        0 <= n <= s.len(),
    ensures
        hex_value(s) >= hex_value(s.subrange(0, n)),
    decreases s.len() - n,
{
    if n < s.len() {
        lemma_hex_value_grows(s, n + 1);
        lemma_hex_value_step(s, n);
    } else {
        assert(s.subrange(0, n) =~= s);
    }
}

/// The service ID of a `"0x<hex> - <name>"` text.
pub fn extract_service_id(text: &str) -> (r: Option<u32>)
    ensures
        r == service_id_of(text@),
{
    let chars = chars_of(text);
    let prefix = chars_of("0x");
    if !crate::text::starts_with_exec(chars.as_slice(), prefix.as_slice()) {
        return None;
    }
    let rest_s = string_of_range(chars.as_slice(), prefix.len(), chars.len());
    let rest = chars_of(rest_s.as_str());
    let sep = chars_of(" - ");
    let dash = match crate::text::find_first(rest.as_slice(), sep.as_slice()) {
        Some(d) => d,
        None => {
            return None;
        },
    };
    // Trim the hex part on both sides.
    let mut a: usize = 0;
    let mut b: usize = dash;
    while a < b && is_white_space_exec(rest[a])
        invariant
            0 <= a <= b <= dash <= rest@.len(),
            trim(rest@.subrange(0, dash as int)) == trim(rest@.subrange(a as int, b as int)),
        decreases b - a,
    {
        assert(rest@.subrange(a as int, b as int).drop_first() =~= rest@.subrange(a + 1, b as int));
        a = a + 1;
    }
    proof {
        assert(trim(rest@.subrange(a as int, b as int)) == trim_end(rest@.subrange(a as int, b as int)));
    }
    while b > a && is_white_space_exec(rest[b - 1])
        invariant
            0 <= a <= b <= dash <= rest@.len(),
            trim(rest@.subrange(0, dash as int)) == trim_end(rest@.subrange(a as int, b as int)),
        decreases b,
    {
        assert(rest@.subrange(a as int, b as int).drop_last() =~= rest@.subrange(a as int, b - 1));
        b = b - 1;
    }
    let hex_s = string_of_range(rest.as_slice(), a, b);
    let hex = chars_of(hex_s.as_str());
    proof {
        if a < b {
            assert(!is_white_space(rest@.subrange(a as int, b as int).last()));
        }
        assert(trim_end(rest@.subrange(a as int, b as int)) == rest@.subrange(a as int, b as int));
    }
    parse_hex_u32_exec(&hex)
}


// Navigation
impl View for JumpTargetType {
    type V = JumpV;

    open spec fn view(&self) -> JumpV {
        match self {
            JumpTargetType::Parameter { param_id } => JumpV::Parameter { param_id: *param_id },
            JumpTargetType::Dop { index, name } => JumpV::Dop { index: *index, name: name@ },
            JumpTargetType::TreeNodeByIndex { index, short_name } => JumpV::TreeNodeByIndex {
                index: *index,
                short_name: short_name@,
            },
            JumpTargetType::Container { index, short_name } => JumpV::Container {
                index: *index,
                short_name: short_name@,
            },
        }
    }
}

/// The ways a node can match a jump target's name.
#[derive(Clone, Copy, Debug, PartialEq, Eq, Structural)]
pub enum NameMatch {
    /// Short name, service short name or text equals the name.
    Exact,
    /// The same, ignoring case.
    IgnoreCase,
    /// Short name or text equals the name.
    ShortNameOrText,
    /// Short name equals the name.
    ShortName,
    /// Short name equals the name, ignoring case.
    ShortNameIgnoreCase,
}

pub open spec fn lower_eq(a: Option<Seq<char>>, name: Seq<char>) -> bool {
    match a {
        Some(s) => crate::text::lowercase(s) == crate::text::lowercase(name),
        None => false,
    }
}

/// Whether node `n` matches `name` in the given way.
pub open spec fn name_matches(how: NameMatch, n: NodeV, name: Seq<char>) -> bool {
    match how {
        NameMatch::Exact => n.payload.short_name() == Some(name) || n.payload.service_short_name()
            == Some(name) || n.text == name,
        NameMatch::IgnoreCase => lower_eq(n.payload.short_name(), name) || lower_eq(
            n.payload.service_short_name(),
            name,
        ) || lower_eq(Some(n.text), name),
        NameMatch::ShortNameOrText => n.payload.short_name() == Some(name) || n.text == name,
        NameMatch::ShortName => n.payload.short_name() == Some(name),
        NameMatch::ShortNameIgnoreCase => lower_eq(n.payload.short_name(), name),
    }
}

/// The first position from `i` on whose node matches.
pub open spec fn first_match(nodes: Seq<NodeV>, how: NameMatch, name: Seq<char>, i: int) -> Option<int>
    decreases nodes.len() - i,
{
    if i < 0 || i >= nodes.len() {
        None
    } else if name_matches(how, nodes[i], name) {
        Some(i)
    } else {
        first_match(nodes, how, name, i + 1)
    }
}

/// The first position with this parameter ID, from `i` on.
pub open spec fn first_param(nodes: Seq<NodeV>, param_id: u32, i: int) -> Option<int>
    decreases nodes.len() - i,
{
    if i < 0 || i >= nodes.len() {
        None
    } else if nodes[i].payload.param_id() == Some(param_id) {
        Some(i)
    } else {
        first_param(nodes, param_id, i + 1)
    }
}

/// The node at the hinted index when it matches exactly, else the first
/// exact match, else (when `how_else` is given) the first match of that kind.
pub open spec fn hinted(
    nodes: Seq<NodeV>,
    index: usize,
    exact: NameMatch,
    how_else: Option<NameMatch>,
    name: Seq<char>,
) -> Option<int> {
    if index < nodes.len() && name_matches(exact, nodes[index as int], name) {
        Some(index as int)
    } else {
        match first_match(nodes, exact, name, 0) {
            Some(i) => Some(i),
            None => match how_else {
                Some(h) => first_match(nodes, h, name, 0),
                None => None,
            },
        }
    }
}

/// The node a jump target leads to: a tree node or container by its name
/// (preferring the hinted index, then an exact match anywhere, then a match
/// ignoring case), a DOP by short name or text, or a parameter by its ID.
pub open spec fn jump_target_of(nodes: Seq<NodeV>, t: JumpV) -> Option<int> {
    match t {
        JumpV::TreeNodeByIndex { index, short_name } => hinted(
            nodes,
            index,
            NameMatch::Exact,
            Some(NameMatch::IgnoreCase),
            short_name,
        ),
        JumpV::Dop { index, name } => hinted(nodes, index, NameMatch::ShortNameOrText, None, name),
        JumpV::Parameter { param_id } => first_param(nodes, param_id, 0),
        JumpV::Container { index, short_name } => hinted(
            nodes,
            index,
            NameMatch::ShortName,
            Some(NameMatch::ShortNameIgnoreCase),
            short_name,
        ),
    }
}

fn lower_eq_exec(a: Option<&str>, lower_name: &String, Ghost(name): Ghost<Seq<char>>) -> (r: bool)
    requires
        lower_name@ == crate::text::lowercase(name),
    ensures
        r == lower_eq(
            match a {
                Some(s) => Some(s@),
                None => None,
            },
            name,
        ),
{
    match a {
        Some(s) => crate::text::to_lower(s) == *lower_name,
        None => false,
    }
}

fn name_matches_exec(how: NameMatch, n: &TreeNode, name: &str, lower_name: &String) -> (r: bool)
    requires
        lower_name@ == crate::text::lowercase(name@),
    ensures
        r == name_matches(how, n@, name@),
{
    match how {
        NameMatch::Exact => {
            let a = match n.short_name() {
                Some(sn) => crate::text::str_eq(sn, name),
                None => false,
            };
            let b = match n.service_short_name() {
                Some(sn) => crate::text::str_eq(sn, name),
                None => false,
            };
            a || b || crate::text::str_eq(n.text.as_str(), name)
        },
        NameMatch::IgnoreCase => {
            lower_eq_exec(n.short_name(), lower_name, Ghost(name@)) || lower_eq_exec(
                n.service_short_name(),
                lower_name,
                Ghost(name@),
            ) || lower_eq_exec(Some(n.text.as_str()), lower_name, Ghost(name@))
        },
        NameMatch::ShortNameOrText => {
            let a = match n.short_name() {
                Some(sn) => crate::text::str_eq(sn, name),
                None => false,
            };
            a || crate::text::str_eq(n.text.as_str(), name)
        },
        NameMatch::ShortName => match n.short_name() {
            Some(sn) => crate::text::str_eq(sn, name),
            None => false,
        },
        NameMatch::ShortNameIgnoreCase => lower_eq_exec(n.short_name(), lower_name, Ghost(name@)),
    }
}

fn position_matching(nodes: &[TreeNode], how: NameMatch, name: &str, lower_name: &String) -> (r: Option<usize>)
    requires
        lower_name@ == crate::text::lowercase(name@),
    ensures
        match r {
            Some(i) => first_match(nodes_view(nodes@), how, name@, 0) == Some(i as int),
            None => first_match(nodes_view(nodes@), how, name@, 0) is None,
        },
{
    let ghost nv = nodes_view(nodes@);
    let mut i: usize = 0;
    while i < nodes.len()
        invariant
            0 <= i <= nodes@.len(),
            nv == nodes_view(nodes@),
            lower_name@ == crate::text::lowercase(name@),
            first_match(nv, how, name@, 0) == first_match(nv, how, name@, i as int),
        decreases nodes.len() - i,
    {
        assert(nv[i as int] == nodes@[i as int]@);
        if name_matches_exec(how, &nodes[i], name, lower_name) {
            return Some(i);
        }
        i = i + 1;
    }
    None
}

fn hinted_exec(
    nodes: &[TreeNode],
    index: usize,
    exact: NameMatch,
    how_else: Option<NameMatch>,
    name: &str,
) -> (r: Option<usize>)
    ensures
        match r {
            Some(i) => hinted(nodes_view(nodes@), index, exact, how_else, name@) == Some(i as int),
            None => hinted(nodes_view(nodes@), index, exact, how_else, name@) is None,
        },
{
    let lower = crate::text::to_lower(name);
    if index < nodes.len() {
        assert(nodes_view(nodes@)[index as int] == nodes@[index as int]@);
        if name_matches_exec(exact, &nodes[index], name, &lower) {
            return Some(index);
        }
    }
    match position_matching(nodes, exact, name, &lower) {
        Some(i) => Some(i),
        None => match how_else {
            Some(h) => position_matching(nodes, h, name, &lower),
            None => None,
        },
    }
}

/// Resolve a jump target to a node position.
pub fn resolve_jump_target(nodes: &[TreeNode], target: &JumpTargetType) -> (r: Option<usize>)
    ensures
        match r {
            Some(i) => jump_target_of(nodes_view(nodes@), target@) == Some(i as int),
            None => jump_target_of(nodes_view(nodes@), target@) is None,
        },
{
    match target {
        JumpTargetType::TreeNodeByIndex { index, short_name } => hinted_exec(
            nodes,
            *index,
            NameMatch::Exact,
            Some(NameMatch::IgnoreCase),
            short_name.as_str(),
        ),
        JumpTargetType::Dop { index, name } => hinted_exec(
            nodes,
            *index,
            NameMatch::ShortNameOrText,
            None,
            name.as_str(),
        ),
        JumpTargetType::Parameter { param_id } => {
            let ghost nv = nodes_view(nodes@);
            let mut i: usize = 0;
            while i < nodes.len()
                invariant
                    0 <= i <= nodes@.len(),
                    nv == nodes_view(nodes@),
                    target@ == (JumpV::Parameter { param_id: *param_id }),
                    first_param(nv, *param_id, 0) == first_param(nv, *param_id, i as int),
                decreases nodes.len() - i,
            {
                assert(nv[i as int] == nodes@[i as int]@);
                if nodes[i].param_id() == Some(*param_id) {
                    assert(first_param(nv, *param_id, i as int) == Some(i as int));
                    assert(target@ == JumpV::Parameter { param_id: *param_id });
                    return Some(i);
                }
                i = i + 1;
            }
            None
        },
        JumpTargetType::Container { index, short_name } => hinted_exec(
            nodes,
            *index,
            NameMatch::ShortName,
            Some(NameMatch::ShortNameIgnoreCase),
            short_name.as_str(),
        ),
    }
}

/// The ancestors of a node at position `i` with depth `need`, nearest
/// first: walking back, each node shallower than the last one found.
pub open spec fn ancestors_below(nodes: Seq<NodeV>, i: int, need: usize) -> Seq<int>
    decreases i,
{
    if i <= 0 || need == 0 || i > nodes.len() {
        Seq::empty()
    } else if nodes[i - 1].depth < need {
        seq![i - 1] + ancestors_below(nodes, i - 1, nodes[i - 1].depth)
    } else {
        ancestors_below(nodes, i - 1, need)
    }
}

/// The ancestors of node `target` (empty when there is no such node).
pub open spec fn ancestors_of(nodes: Seq<NodeV>, target: int) -> Seq<int> {
    if 0 <= target < nodes.len() {
        ancestors_below(nodes, target, nodes[target].depth)
    } else {
        Seq::empty()
    }
}

proof fn lemma_ancestors_below_bounds(nodes: Seq<NodeV>, i: int, need: usize)
    ensures
        forall|k: int|
            0 <= k < ancestors_below(nodes, i, need).len() ==> 0 <= #[trigger] ancestors_below(
                nodes,
                i,
                need,
            )[k] < i,
    decreases i,
{
    if i > 0 && need != 0 && i <= nodes.len() {
        if nodes[i - 1].depth < need {
            lemma_ancestors_below_bounds(nodes, i - 1, nodes[i - 1].depth);
            let rest = ancestors_below(nodes, i - 1, nodes[i - 1].depth);
            let all = ancestors_below(nodes, i, need);
            assert(all == seq![i - 1] + rest);
            assert forall|k: int| 0 <= k < all.len() implies 0 <= #[trigger] all[k] < i by {
                if k > 0 {
                    assert(all[k] == rest[k - 1]);
                } else {
                    assert(all[0] == i - 1);
                }
            }
        } else {
            lemma_ancestors_below_bounds(nodes, i - 1, need);
            assert(ancestors_below(nodes, i, need) == ancestors_below(nodes, i - 1, need));
        }
    }
}

/// The ancestors of `target`, nearest first.
fn collect_ancestors(nodes: &Vec<TreeNode>, target_idx: usize) -> (r: Vec<usize>)
    ensures
        r@.len() == ancestors_of(nodes_view(nodes@), target_idx as int).len(),
        forall|k: int| 0 <= k < r@.len() ==> #[trigger] r@[k] as int == ancestors_of(nodes_view(nodes@), target_idx as int)[k],
{
    let ghost nv = nodes_view(nodes@);
    let mut out: Vec<usize> = Vec::new();
    if target_idx >= nodes.len() {
        return out;
    }
    assert(nv[target_idx as int] == nodes@[target_idx as int]@);
    let mut need = nodes[target_idx].depth;
    let mut i = target_idx;
    while i > 0 && need > 0
        invariant
            0 <= i <= target_idx < nodes@.len(),
            nv == nodes_view(nodes@),
            out@.len() + ancestors_below(nv, i as int, need).len() == ancestors_of(nv, target_idx as int).len(),
            forall|k: int| 0 <= k < out@.len() ==> #[trigger] out@[k] as int == ancestors_of(nv, target_idx as int)[k],
            forall|k: int|
                0 <= k < ancestors_below(nv, i as int, need).len() ==> #[trigger] ancestors_below(nv, i as int, need)[k]
                    == ancestors_of(nv, target_idx as int)[out@.len() + k],
        decreases i,
    {
        let node = &nodes[i - 1];
        assert(nv[i - 1] == node@);
        if node.depth < need {
            let ghost rest = ancestors_below(nv, i - 1, node.depth);
            assert(ancestors_below(nv, i as int, need) == seq![i - 1] + rest);
            assert((seq![i - 1] + rest)[0] == i - 1);
            assert forall|k: int| 0 <= k < rest.len() implies #[trigger] rest[k] == ancestors_of(
                nv,
                target_idx as int,
            )[out@.len() + 1 + k] by {
                assert((seq![i - 1] + rest)[k + 1] == rest[k]);
            }
            out.push(i - 1);
            need = node.depth;
        }
        i = i - 1;
    }
    out
}

proof fn lemma_prefix_contains(s: Seq<int>, j: int, k: int)
    requires
        0 <= j < s.len(),
    ensures
        s.subrange(0, j + 1).contains(k) <==> (s.subrange(0, j).contains(k) || s[j] == k),
{
    if s.subrange(0, j + 1).contains(k) {
        let w = choose|w: int| 0 <= w < j + 1 && #[trigger] s.subrange(0, j + 1)[w] == k;
        if w < j {
            assert(s.subrange(0, j)[w] == k);
        }
    }
    if s.subrange(0, j).contains(k) {
        let w = choose|w: int| 0 <= w < j && #[trigger] s.subrange(0, j)[w] == k;
        assert(s.subrange(0, j + 1)[w] == k);
    }
    if s[j] == k {
        assert(s.subrange(0, j + 1)[j] == k);
    }
}

/// Expand every ancestor of `target_idx`, so that it becomes visible.
pub fn expand_ancestors(nodes: &mut Vec<TreeNode>, target_idx: usize)
    ensures
        final(nodes)@.len() == old(nodes)@.len(),
        forall|k: int|
            0 <= k < old(nodes)@.len() ==> #[trigger] final(nodes)@[k]@ == if ancestors_of(
                nodes_view(old(nodes)@),
                target_idx as int,
            ).contains(k) {
                NodeV { expanded: true, ..old(nodes)@[k]@ }
            } else {
                old(nodes)@[k]@
            },
{
    let ghost anc = ancestors_of(nodes_view(nodes@), target_idx as int);
    let ancestors = collect_ancestors(nodes, target_idx);
    proof {
        lemma_ancestors_below_bounds(nodes_view(nodes@), target_idx as int, if target_idx < nodes@.len() {
            nodes@[target_idx as int].depth
        } else {
            0
        });
    }
    let ghost start = nodes@;
    let mut j: usize = 0;
    while j < ancestors.len()
        invariant
            0 <= j <= ancestors@.len(),
            nodes@.len() == start.len(),
            anc == ancestors_of(nodes_view(start), target_idx as int),
            ancestors@.len() == anc.len(),
            forall|k: int| 0 <= k < ancestors@.len() ==> #[trigger] ancestors@[k] as int == anc[k],
            forall|k: int| 0 <= k < anc.len() ==> 0 <= #[trigger] anc[k] < start.len(),
            forall|k: int|
                0 <= k < start.len() ==> #[trigger] nodes@[k]@ == if anc.subrange(0, j as int).contains(k) {
                    NodeV { expanded: true, ..start[k]@ }
                } else {
                    start[k]@
                },
        decreases ancestors.len() - j,
    {
        let idx = ancestors[j];
        assert(anc[j as int] == idx);
        let ghost prev = nodes@;
        let mut n = nodes.remove(idx);
        n.expanded = true;
        nodes.insert(idx, n);
        proof {
            assert(nodes@ =~= prev.update(idx as int, n));
            assert forall|k: int| 0 <= k < start.len() implies #[trigger] nodes@[k]@ == if anc.subrange(
                0,
                j + 1,
            ).contains(k) {
                NodeV { expanded: true, ..start[k]@ }
            } else {
                start[k]@
            } by {
                lemma_prefix_contains(anc, j as int, k);
                if k != idx as int {
                    assert(nodes@[k] == prev[k]);
                } else {
                    assert(anc.subrange(0, j + 1).contains(k));
                }
            }
        }
        j = j + 1;
    }
    assert(anc.subrange(0, anc.len() as int) =~= anc);
}


/// A node's text in a path: a service-list header without its count.
pub open spec fn path_text(n: NodeV) -> Seq<char> {
    if n.payload.service_list_type() is Some {
        without_count(n.text)
    } else {
        n.text
    }
}

/// The path of node `index`: the texts of its ancestors and itself, from
/// the root down, joined with `" / "`.
pub open spec fn path_of(nodes: Seq<NodeV>, index: int) -> Seq<char> {
    let chain = seq![index] + ancestors_of(nodes, index);
    crate::diff::compare::join(
        chain.map_values(|a: int| path_text(nodes[a])).reverse(),
        " / "@,
    )
}

fn path_text_exec(n: &TreeNode) -> (r: String)
    ensures
        r@ == path_text(n@),
{
    if n.service_list_type().is_some() {
        strip_count_suffix(n.text.as_str())
    } else {
        n.text.clone()
    }
}

/// The path of a node from the root, `"A / B / C"`; an index past the end
/// is an error `Node index <index> out of range`.
pub fn node_path(nodes: &Vec<TreeNode>, index: usize) -> (r: Result<String, String>)
    ensures
        index >= nodes@.len() <==> r is Err,
        r matches Err(e) ==> e@ == "Node index "@ + decimal(index as nat) + " out of range"@,
        r matches Ok(p) ==> p@ == path_of(nodes_view(nodes@), index as int),
{
    let ghost nv = nodes_view(nodes@);
    if index >= nodes.len() {
        let mut e = "Node index ".to_owned();
        e.append(usize_to_decimal(index).as_str());
        e.append(" out of range");
        return Err(e);
    }
    let ancestors = collect_ancestors(nodes, index);
    proof {
        lemma_ancestors_below_bounds(nv, index as int, nv[index as int].depth);
    }
    let ghost chain = seq![index as int] + ancestors_of(nv, index as int);
    let ghost texts = chain.map_values(|a: int| path_text(nv[a]));
    // The texts from the root down: the farthest ancestor first.
    let mut parts: Vec<String> = Vec::new();
    let mut k = ancestors.len();
    while k > 0
        invariant
            0 <= k <= ancestors@.len(),
            nv == nodes_view(nodes@),
            index < nodes@.len(),
            ancestors@.len() == ancestors_of(nv, index as int).len(),
            forall|x: int| 0 <= x < ancestors@.len() ==> #[trigger] ancestors@[x] as int == ancestors_of(nv, index as int)[x],
            forall|x: int| 0 <= x < ancestors@.len() ==> 0 <= #[trigger] ancestors_of(nv, index as int)[x] < index,
            chain == seq![index as int] + ancestors_of(nv, index as int),
            texts == chain.map_values(|a: int| path_text(nv[a])),
            parts@.len() == ancestors@.len() - k,
            forall|x: int| 0 <= x < parts@.len() ==> #[trigger] parts@[x]@ == texts.reverse()[x],
        decreases k,
    {
        let a = ancestors[k - 1];
        assert(ancestors_of(nv, index as int)[k - 1] == a);
        assert(nv[a as int] == nodes@[a as int]@);
        let t = path_text_exec(&nodes[a]);
        assert(texts.reverse()[parts@.len() as int] == texts[chain.len() - 1 - parts@.len()]);
        assert(chain[k as int] == a);
        parts.push(t);
        k = k - 1;
    }
    assert(nv[index as int] == nodes@[index as int]@);
    let own = path_text_exec(&nodes[index]);
    assert(texts.reverse()[parts@.len() as int] == texts[0]);
    parts.push(own);
    assert(crate::tree::types::strings_view(parts@) =~= texts.reverse());
    Ok(crate::diff::compare::join_strings(&parts, " / "))
}


// Operations on the browser state
/// The nodes a state shows.
pub open spec fn shown(core: &CoreState) -> Seq<VisibleNodeV> {
    visible_nodes_of(
        nodes_view(core.all_nodes@),
        core.visible@,
        any_filter(core),
        count_filter(core),
        core.hide_unchanged,
    )
}

/// The visible positions of a state agree with its nodes and filters.
pub open spec fn refreshed(core: &CoreState) -> bool {
    core.visible@ == visible_of(
        nodes_view(core.all_nodes@),
        include_of(nodes_view(core.all_nodes@), stack_view(core.search_stack@)),
        core.hide_unchanged,
    )
}

/// The state with other visible positions only.
pub open spec fn same_but_visible(a: &CoreState, b: &CoreState) -> bool {
    &&& a.all_nodes == b.all_nodes
    &&& a.ecu_name == b.ecu_name
    &&& a.is_diff_mode == b.is_diff_mode
    &&& a.hide_unchanged == b.hide_unchanged
    &&& a.search_stack == b.search_stack
    &&& a.search_scope == b.search_scope
    &&& a.diagcomm_sort == b.diagcomm_sort
}

/// Recompute the visible positions and return the shown nodes.
pub fn refresh(core: &mut CoreState) -> (r: Vec<VisibleNode>)
    ensures
        same_but_visible(&*final(core), &*old(core)),
        refreshed(&*final(core)),
        visible_nodes_view(r@) == shown(&*final(core)),
{
    let visible = build_visible(core);
    core.visible = visible;
    to_visible_nodes(core)
}

/// Expand or collapse node `index` (when it has children) and show the
/// result.
pub fn toggle_expand(core: &mut CoreState, index: usize) -> (r: Vec<VisibleNode>)
    ensures
        final(core).all_nodes@.len() == old(core).all_nodes@.len(),
        forall|k: int|
            0 <= k < old(core).all_nodes@.len() ==> #[trigger] final(core).all_nodes@[k]@ == if k
                == index && old(core).all_nodes@[k].has_children {
                NodeV { expanded: !old(core).all_nodes@[k].expanded, ..old(core).all_nodes@[k]@ }
            } else {
                old(core).all_nodes@[k]@
            },
        final(core).search_stack == old(core).search_stack,
        final(core).hide_unchanged == old(core).hide_unchanged,
        refreshed(&*final(core)),
        visible_nodes_view(r@) == shown(&*final(core)),
{
    if index < core.all_nodes.len() && core.all_nodes[index].has_children {
        let e = core.all_nodes[index].expanded;
        core.all_nodes[index].expanded = !e;
    }
    refresh(core)
}

/// Set the expanded flag of every node with children by `f` of its depth.
pub open spec fn with_expanded(old_nodes: Seq<TreeNode>, new_nodes: Seq<TreeNode>, which: spec_fn(NodeV) -> Option<bool>) -> bool {
    &&& new_nodes.len() == old_nodes.len()
    &&& forall|k: int|
        0 <= k < old_nodes.len() ==> #[trigger] new_nodes[k]@ == match which(old_nodes[k]@) {
            Some(e) => NodeV { expanded: e, ..old_nodes[k]@ },
            None => old_nodes[k]@,
        }
}

/// Expand every node with children.
pub fn expand_all(core: &mut CoreState) -> (r: Vec<VisibleNode>)
    ensures
        with_expanded(
            old(core).all_nodes@,
            final(core).all_nodes@,
            |n: NodeV| if n.has_children { Some(true) } else { None },
        ),
        final(core).search_stack == old(core).search_stack,
        final(core).hide_unchanged == old(core).hide_unchanged,
        refreshed(&*final(core)),
        visible_nodes_view(r@) == shown(&*final(core)),
{
    let ghost start = core.all_nodes@;
    let mut i: usize = 0;
    while i < core.all_nodes.len()
        invariant
            0 <= i <= core.all_nodes@.len(),
            core.all_nodes@.len() == start.len(),
            core.search_stack == old(core).search_stack,
            core.hide_unchanged == old(core).hide_unchanged,
            start == old(core).all_nodes@,
            forall|k: int|
                0 <= k < start.len() ==> #[trigger] core.all_nodes@[k]@ == if k < i && start[k].has_children {
                    NodeV { expanded: true, ..start[k]@ }
                } else {
                    start[k]@
                },
        decreases core.all_nodes.len() - i,
    {
        if core.all_nodes[i].has_children {
            core.all_nodes[i].expanded = true;
        }
        i = i + 1;
    }
    refresh(core)
}

/// Collapse every node with children except the roots, which are expanded.
pub fn collapse_all(core: &mut CoreState) -> (r: Vec<VisibleNode>)
    ensures
        with_expanded(
            old(core).all_nodes@,
            final(core).all_nodes@,
            |n: NodeV| if n.has_children { Some(n.depth == 0) } else { None },
        ),
        final(core).search_stack == old(core).search_stack,
        final(core).hide_unchanged == old(core).hide_unchanged,
        refreshed(&*final(core)),
        visible_nodes_view(r@) == shown(&*final(core)),
{
    let ghost start = core.all_nodes@;
    let mut i: usize = 0;
    while i < core.all_nodes.len()
        invariant
            0 <= i <= core.all_nodes@.len(),
            core.all_nodes@.len() == start.len(),
            core.search_stack == old(core).search_stack,
            core.hide_unchanged == old(core).hide_unchanged,
            start == old(core).all_nodes@,
            forall|k: int|
                0 <= k < start.len() ==> #[trigger] core.all_nodes@[k]@ == if k < i && start[k].has_children {
                    NodeV { expanded: start[k].depth == 0, ..start[k]@ }
                } else {
                    start[k]@
                },
        decreases core.all_nodes.len() - i,
    {
        if core.all_nodes[i].has_children {
            let root = core.all_nodes[i].depth == 0;
            core.all_nodes[i].expanded = root;
        }
        i = i + 1;
    }
    refresh(core)
}

/// Expand the roots that have children.
pub fn expand_first_level(core: &mut CoreState) -> (r: Vec<VisibleNode>)
    ensures
        with_expanded(
            old(core).all_nodes@,
            final(core).all_nodes@,
            |n: NodeV| if n.has_children && n.depth == 0 { Some(true) } else { None },
        ),
        final(core).search_stack == old(core).search_stack,
        final(core).hide_unchanged == old(core).hide_unchanged,
        refreshed(&*final(core)),
        visible_nodes_view(r@) == shown(&*final(core)),
{
    let ghost start = core.all_nodes@;
    let mut i: usize = 0;
    while i < core.all_nodes.len()
        invariant
            0 <= i <= core.all_nodes@.len(),
            core.all_nodes@.len() == start.len(),
            core.search_stack == old(core).search_stack,
            core.hide_unchanged == old(core).hide_unchanged,
            start == old(core).all_nodes@,
            forall|k: int|
                0 <= k < start.len() ==> #[trigger] core.all_nodes@[k]@ == if k < i && start[k].has_children
                    && start[k].depth == 0 {
                    NodeV { expanded: true, ..start[k]@ }
                } else {
                    start[k]@
                },
        decreases core.all_nodes.len() - i,
    {
        if core.all_nodes[i].has_children && core.all_nodes[i].depth == 0 {
            core.all_nodes[i].expanded = true;
        }
        i = i + 1;
    }
    refresh(core)
}

/// Show or hide the unchanged nodes of a diff.
pub fn toggle_hide_unchanged(core: &mut CoreState) -> (r: Vec<VisibleNode>)
    ensures
        final(core).hide_unchanged == !old(core).hide_unchanged,
        final(core).all_nodes == old(core).all_nodes,
        final(core).search_stack == old(core).search_stack,
        refreshed(&*final(core)),
        visible_nodes_view(r@) == shown(&*final(core)),
{
    core.hide_unchanged = !core.hide_unchanged;
    refresh(core)
}

/// Add a search (when the query is not empty) with the current scope,
/// combined by "or" when `op` is `"or"` and by "and" otherwise, and show
/// the result with the number of searches and the scope's name.
pub fn push_search(core: &mut CoreState, query: String, op: Option<&str>) -> (r: SearchResult)
    ensures
        final(core).all_nodes == old(core).all_nodes,
        final(core).hide_unchanged == old(core).hide_unchanged,
        final(core).search_scope == old(core).search_scope,
        stack_view(final(core).search_stack@) == if query@.len() == 0 {
            stack_view(old(core).search_stack@)
        } else {
            stack_view(old(core).search_stack@).push(
                (
                    query@,
                    old(core).search_scope,
                    if op matches Some(o) && o@ == "or"@ {
                        FilterOp::Or
                    } else {
                        FilterOp::And
                    },
                ),
            )
        },
        refreshed(&*final(core)),
        visible_nodes_view(r.visible@) == shown(&*final(core)),
        r.match_count == final(core).search_stack@.len(),
        r.scope@ == old(core).search_scope.label(),
{
    if !query.as_str().is_empty() {
        let filter_op = match op {
            Some(o) => if crate::text::str_eq(o, "or") {
                FilterOp::Or
            } else {
                FilterOp::And
            },
            None => FilterOp::And,
        };
        let scope = core.search_scope;
        let ghost before = core.search_stack@;
        let entry = SearchEntry { query, scope, op: filter_op };
        core.search_stack.push(entry);
        assert(stack_view(core.search_stack@) =~= stack_view(before).push(entry_view(entry)));
    }
    let visible = refresh(core);
    let match_count = core.search_stack.len();
    let scope = core.search_scope.to_string();
    SearchResult { visible, match_count, scope }
}

/// Remove every search and show the result.
pub fn clear_search(core: &mut CoreState) -> (r: Vec<VisibleNode>)
    ensures
        final(core).all_nodes == old(core).all_nodes,
        final(core).hide_unchanged == old(core).hide_unchanged,
        final(core).search_stack@.len() == 0,
        refreshed(&*final(core)),
        visible_nodes_view(r@) == shown(&*final(core)),
{
    core.search_stack.clear();
    refresh(core)
}

/// Move to the next search scope and give its name.
pub fn cycle_search_scope(core: &mut CoreState) -> (r: String)
    ensures
        final(core).search_scope == old(core).search_scope.spec_next(),
        r@ == final(core).search_scope.label(),
        final(core).all_nodes == old(core).all_nodes,
        final(core).search_stack == old(core).search_stack,
{
    core.search_scope = core.search_scope.next();
    core.search_scope.to_string()
}

/// Select the search scope with the given name and give its name; an
/// unknown name is an error and leaves the scope as it was.
pub fn set_search_scope(core: &mut CoreState, name: &str) -> (r: Result<String, String>)
    ensures
        match r {
            Ok(s) => final(core).search_scope.label() == name@ && s@ == name@,
            Err(e) => final(core).search_scope == old(core).search_scope && (forall|s: SearchScope|
                s.label() != name@) && e@ == "Unknown scope: "@ + name@,
        },
        final(core).all_nodes == old(core).all_nodes,
        final(core).search_stack == old(core).search_stack,
{
    match SearchScope::from_label(name) {
        Ok(s) => {
            core.search_scope = s;
            Ok(s.to_string())
        },
        Err(e) => Err(e),
    }
}


/// Go to a jump target: expand its ancestors and itself (when it has
/// children), and show the result with the target's detail; an unresolved
/// target is an error `Could not resolve navigation target`.
pub fn navigate(core: &mut CoreState, target: &JumpTarget) -> (r: Result<NavigateResult, String>)
    ensures
        jump_target_of(nodes_view(old(core).all_nodes@), target.target_type@) is None <==> r is Err,
        r matches Err(e) ==> e@ == "Could not resolve navigation target"@ && *final(core) == *old(core),
        r matches Ok(res) ==> ({
            let t = res.target_index as int;
            let anc = ancestors_of(nodes_view(old(core).all_nodes@), t);
            &&& jump_target_of(nodes_view(old(core).all_nodes@), target.target_type@) == Some(t)
            &&& final(core).all_nodes@.len() == old(core).all_nodes@.len()
            &&& forall|k: int|
                0 <= k < old(core).all_nodes@.len() ==> #[trigger] final(core).all_nodes@[k]@ == if anc.contains(k)
                    || (k == t && old(core).all_nodes@[k].has_children) {
                    NodeV { expanded: true, ..old(core).all_nodes@[k]@ }
                } else {
                    old(core).all_nodes@[k]@
                }
            &&& final(core).search_stack == old(core).search_stack
            &&& final(core).hide_unchanged == old(core).hide_unchanged
            &&& refreshed(&*final(core))
            &&& visible_nodes_view(res.visible@) == shown(&*final(core))
            &&& sections_view(res.detail@) == final(core).all_nodes@[t]@.detail_sections
        }),
{
    let target_idx = match resolve_jump_target(core.all_nodes.as_slice(), &target.target_type) {
        Some(i) => i,
        None => {
            return Err("Could not resolve navigation target".to_owned());
        },
    };
    proof {
        lemma_first_match_bounds(nodes_view(core.all_nodes@), target.target_type@);
    }
    let ghost start = core.all_nodes@;
    // Expand the ancestors so the target becomes visible.
    expand_ancestors(&mut core.all_nodes, target_idx);
    // Expand the target itself so its children are visible at once.
    if core.all_nodes[target_idx].has_children {
        core.all_nodes[target_idx].expanded = true;
    }
    proof {
        let anc = ancestors_of(nodes_view(start), target_idx as int);
        lemma_ancestors_below_bounds(nodes_view(start), target_idx as int, start[target_idx as int].depth);
        assert(!anc.contains(target_idx as int));
    }
    let visible = refresh(core);
    let detail = crate::tree::types::duplicate_sections(&core.all_nodes[target_idx].detail_sections);
    Ok(NavigateResult { visible, target_index: target_idx, detail })
}

/// A node `y` before position `i` and shallower than `need` has, among the
/// ancestors found walking back from `i`, one at or after `y` and no deeper
/// than `y`.
proof fn lemma_ancestor_between(nodes: Seq<NodeV>, i: int, need: usize, y: int)
    requires
        0 <= y < i <= nodes.len(),
        nodes[y].depth < need,
    ensures
        exists|k: int|
            0 <= k < ancestors_below(nodes, i, need).len() && y <= #[trigger] ancestors_below(nodes, i, need)[k]
                && nodes[ancestors_below(nodes, i, need)[k]].depth <= nodes[y].depth,
    decreases i,
{
    let all = ancestors_below(nodes, i, need);
    if nodes[i - 1].depth < need {
        let rest = ancestors_below(nodes, i - 1, nodes[i - 1].depth);
        assert(all == seq![i - 1] + rest);
        if i - 1 == y || nodes[i - 1].depth <= nodes[y].depth {
            assert(all[0] == i - 1);
        } else {
            lemma_ancestor_between(nodes, i - 1, nodes[i - 1].depth, y);
            let k = choose|k: int|
                0 <= k < rest.len() && y <= #[trigger] rest[k] && nodes[rest[k]].depth <= nodes[y].depth;
            assert(all[k + 1] == rest[k]);
        }
    } else {
        lemma_ancestor_between(nodes, i - 1, need, y);
    }
}

/// While walking towards `t`, a collapse in force at depth `d` comes from a
/// node that is not an ancestor of `t`, and every node the filter kept
/// since then is deeper than `d`.
pub open spec fn collapse_ok(nodes: Seq<NodeV>, inc: Option<Seq<bool>>, t: int, i: int, col: Option<usize>) -> bool {
    match col {
        None => true,
        Some(d) => exists|c: int|
            0 <= c < i && #[trigger] nodes[c].depth == d && !ancestors_of(nodes, t).contains(c) && forall|j: int|
                c < j < i && kept(inc, j) ==> nodes[j].depth > d,
    }
}

/// The conditions under which a node is shown once its ancestors are
/// expanded: the filter keeps it and its ancestors, every ancestor is
/// expanded, and it is not hidden as unchanged.
pub open spec fn reachable(nodes: Seq<NodeV>, inc: Option<Seq<bool>>, hide_unchanged: bool, t: int) -> bool {
    &&& 0 <= t < nodes.len()
    &&& kept(inc, t)
    &&& !(hide_unchanged && nodes[t].diff_status == Some(DiffStatus::Unchanged))
    &&& forall|k: int|
        0 <= k < ancestors_of(nodes, t).len() ==> kept(inc, #[trigger] ancestors_of(nodes, t)[k])
            && nodes[ancestors_of(nodes, t)[k]].expanded
}

proof fn lemma_visible_reaches(
    nodes: Seq<NodeV>,
    inc: Option<Seq<bool>>,
    hide_unchanged: bool,
    t: int,
    i: int,
    col: Option<usize>,
)
    requires
        reachable(nodes, inc, hide_unchanged, t),
        0 <= i <= t,
        collapse_ok(nodes, inc, t, i, col),
    ensures
        visible_from(nodes, inc, hide_unchanged, i, col).contains(t as usize),
    decreases t - i,
{
    let anc = ancestors_of(nodes, t);
    let n = nodes[i];
    if i == t {
        if let Some(d) = col {
            if n.depth > d {
                let c = choose|c: int|
                    0 <= c < i && #[trigger] nodes[c].depth == d && !anc.contains(c) && forall|j: int|
                        c < j < i && kept(inc, j) ==> nodes[j].depth > d;
                lemma_ancestor_between(nodes, t, nodes[t].depth, c);
                let k = choose|k: int|
                    0 <= k < anc.len() && c <= #[trigger] anc[k] && nodes[anc[k]].depth <= nodes[c].depth;
                lemma_ancestors_below_bounds(nodes, t, nodes[t].depth);
                assert(anc[k] != c);
                assert(kept(inc, anc[k]));
            }
        }
        let v = visible_from(nodes, inc, hide_unchanged, i, col);
        assert(v[0] == t as usize);
    } else {
        let next_col = if !kept(inc, i) {
            col
        } else if col is Some && n.depth > col->0 {
            col
        } else if hide_unchanged && n.diff_status == Some(DiffStatus::Unchanged) {
            None
        } else if n.has_children && !n.expanded {
            Some(n.depth)
        } else {
            None
        };
        if kept(inc, i) && !(col is Some && n.depth > col->0) && !(hide_unchanged && n.diff_status == Some(
            DiffStatus::Unchanged,
        )) && n.has_children && !n.expanded {
            assert(!anc.contains(i)) by {
                if anc.contains(i) {
                    let k = choose|k: int| 0 <= k < anc.len() && anc[k] == i;
                    assert(nodes[anc[k]].expanded);
                }
            }
            assert(collapse_ok(nodes, inc, t, i + 1, next_col)) by {
                assert(nodes[i].depth == n.depth);
            }
        } else if next_col is Some {
            let d = col->0;
            let c = choose|c: int|
                0 <= c < i && #[trigger] nodes[c].depth == d && !anc.contains(c) && forall|j: int|
                    c < j < i && kept(inc, j) ==> nodes[j].depth > d;
            assert(forall|j: int| c < j < i + 1 && kept(inc, j) ==> nodes[j].depth > d);
            assert(collapse_ok(nodes, inc, t, i + 1, next_col));
        }
        lemma_visible_reaches(nodes, inc, hide_unchanged, t, i + 1, next_col);
        let rest = visible_from(nodes, inc, hide_unchanged, i + 1, next_col);
        let v = visible_from(nodes, inc, hide_unchanged, i, col);
        let w = choose|w: int| 0 <= w < rest.len() && rest[w] == t as usize;
        if v == rest {
            assert(v[w] == t as usize);
        } else {
            assert(v == seq![i as usize] + rest);
            assert(v[w + 1] == t as usize);
        }
    }
}

/// Ancestors depend on the depths of the nodes alone.
proof fn lemma_ancestors_same_depths(a: Seq<NodeV>, b: Seq<NodeV>, i: int, need: usize)
    requires
        a.len() == b.len(),
        forall|k: int| 0 <= k < a.len() ==> #[trigger] a[k].depth == b[k].depth,
    ensures
        ancestors_below(a, i, need) == ancestors_below(b, i, need),
    decreases i,
{
    if i > 0 && need != 0 && i <= a.len() {
        if a[i - 1].depth < need {
            lemma_ancestors_same_depths(a, b, i - 1, a[i - 1].depth);
        } else {
            lemma_ancestors_same_depths(a, b, i - 1, need);
        }
    }
}

/// Going to a node shows it: once its ancestors are expanded (and the node
/// itself when it has children), a node that the filter keeps together with
/// its ancestors, and that is not hidden as unchanged, is among the visible
/// nodes.
pub proof fn law_navigate_shows_target(
    before: Seq<NodeV>,
    after: Seq<NodeV>,
    inc: Option<Seq<bool>>,
    hide_unchanged: bool,
    t: int,
)
    requires
        0 <= t < before.len(),
        after.len() == before.len(),
        forall|k: int|
            0 <= k < before.len() ==> #[trigger] after[k] == if ancestors_of(before, t).contains(k) || (k == t
                && before[k].has_children) {
                NodeV { expanded: true, ..before[k] }
            } else {
                before[k]
            },
        kept(inc, t),
        forall|k: int| 0 <= k < ancestors_of(before, t).len() ==> kept(inc, #[trigger] ancestors_of(before, t)[k]),
        !(hide_unchanged && before[t].diff_status == Some(DiffStatus::Unchanged)),
    ensures
        visible_of(after, inc, hide_unchanged).contains(t as usize),
{
    assert forall|k: int| 0 <= k < before.len() implies #[trigger] before[k].depth == after[k].depth by {}
    lemma_ancestors_same_depths(before, after, t, before[t].depth);
    assert(after[t].depth == before[t].depth);
    let anc = ancestors_of(after, t);
    lemma_ancestors_below_bounds(before, t, before[t].depth);
    assert forall|k: int| 0 <= k < anc.len() implies kept(inc, #[trigger] anc[k]) && after[anc[k]].expanded by {
        assert(ancestors_of(before, t).contains(anc[k]));
    }
    assert(after[t].diff_status == before[t].diff_status);
    lemma_visible_reaches(after, inc, hide_unchanged, t, 0, None);
}

proof fn lemma_first_match_from_bounds(nodes: Seq<NodeV>, how: NameMatch, name: Seq<char>, i: int)
    ensures
        first_match(nodes, how, name, i) matches Some(k) ==> 0 <= k < nodes.len(),
    decreases nodes.len() - i,
{
    if 0 <= i < nodes.len() && !name_matches(how, nodes[i], name) {
        lemma_first_match_from_bounds(nodes, how, name, i + 1);
    }
}

proof fn lemma_first_param_bounds(nodes: Seq<NodeV>, id: u32, i: int)
    ensures
        first_param(nodes, id, i) matches Some(k) ==> 0 <= k < nodes.len(),
    decreases nodes.len() - i,
{
    if 0 <= i < nodes.len() && nodes[i].payload.param_id() != Some(id) {
        lemma_first_param_bounds(nodes, id, i + 1);
    }
}

/// A resolved jump target is a valid position.
proof fn lemma_first_match_bounds(nodes: Seq<NodeV>, t: JumpV)
    ensures
        jump_target_of(nodes, t) matches Some(k) ==> 0 <= k < nodes.len(),
{
    lemma_first_match_from_bounds(nodes, NameMatch::Exact, t->TreeNodeByIndex_short_name, 0);
    lemma_first_match_from_bounds(nodes, NameMatch::IgnoreCase, t->TreeNodeByIndex_short_name, 0);
    lemma_first_match_from_bounds(nodes, NameMatch::ShortNameOrText, t->Dop_name, 0);
    lemma_first_match_from_bounds(nodes, NameMatch::ShortName, t->Container_short_name, 0);
    lemma_first_match_from_bounds(nodes, NameMatch::ShortNameIgnoreCase, t->Container_short_name, 0);
    lemma_first_param_bounds(nodes, t->param_id, 0);
}

// Tabs
/// An open tab.
#[derive(Debug)]
pub struct TabEntry {
    pub core: CoreState,
    pub file_path: String,
    pub display_name: String,
    pub is_diff: bool,
}

/// What the front end is told about an open tab.
#[derive(Debug)]
pub struct TabInfo {
    pub id: String,
    pub display_name: String,
    pub file_path: String,
    pub is_diff: bool,
    pub is_active: bool,
}

/// The open tabs, in the order they were opened, and the active one.
#[derive(Debug)]
pub struct TabManager {
    pub tabs: Vec<(String, TabEntry)>,
    pub active_tab: Option<String>,
    /// The number behind the last tab id given out.
    pub next_id: u64,
}

/// The position of the first tab with this id.
pub open spec fn find_tab(tabs: Seq<(String, TabEntry)>, id: Seq<char>) -> Option<int>
    decreases tabs.len(),
{
    if tabs.len() == 0 {
        None
    } else {
        match find_tab(tabs.drop_last(), id) {
            Some(i) => Some(i),
            None => if tabs.last().0@ == id {
                Some(tabs.len() - 1)
            } else {
                None
            },
        }
    }
}

proof fn lemma_find_tab_bounds(tabs: Seq<(String, TabEntry)>, id: Seq<char>)
    ensures
        find_tab(tabs, id) matches Some(i) ==> 0 <= i < tabs.len() && tabs[i].0@ == id,
    decreases tabs.len(),
{
    if tabs.len() > 0 {
        lemma_find_tab_bounds(tabs.drop_last(), id);
    }
}

impl Default for TabManager {
    fn default() -> (r: Self)
        ensures
            r.tabs@.len() == 0,
            r.active_tab is None,
            r.next_id == 0,
            r.ids_unique(),
    {
        TabManager { tabs: Vec::new(), active_tab: None, next_id: 0 }
    }
}

impl TabManager {
    /// No two open tabs share an id: every method that changes the tabs
    /// keeps this, and a new manager has it.
    pub open spec fn ids_unique(&self) -> bool {
        ids_distinct(self.tabs@)
    }

    /// A new tab id `tab_<n>`, with `n` one more than the last (saturating).
    pub fn next_tab_id(&mut self) -> (r: String)
        ensures
            final(self).next_id == if old(self).next_id == u64::MAX {
                u64::MAX
            } else {
                (old(self).next_id + 1) as u64
            },
            r@ == "tab_"@ + decimal(final(self).next_id as nat),
            final(self).tabs == old(self).tabs,
            final(self).active_tab == old(self).active_tab,
            old(self).ids_unique() ==> final(self).ids_unique(),
    {
        self.next_id = self.next_id.saturating_add(1);
        let mut id = "tab_".to_owned();
        id.append(u64_to_decimal(self.next_id).as_str());
        id
    }

    /// The position of the tab with this id.
    pub fn tab_index(&self, id: &str) -> (r: Option<usize>)
        ensures
            match r {
                Some(i) => find_tab(self.tabs@, id@) == Some(i as int),
                None => find_tab(self.tabs@, id@) is None,
            },
    {
        let mut i: usize = 0;
        while i < self.tabs.len()
            invariant
                0 <= i <= self.tabs@.len(),
                find_tab(self.tabs@.subrange(0, i as int), id@) is None,
            decreases self.tabs.len() - i,
        {
            proof {
                let t = self.tabs@.subrange(0, i + 1);
                assert(t.drop_last() =~= self.tabs@.subrange(0, i as int));
            }
            if crate::text::str_eq(self.tabs[i].0.as_str(), id) {
                proof {
                    lemma_find_tab_prefix(self.tabs@, id@, i + 1, i as int);
                }
                return Some(i);
            }
            i = i + 1;
        }
        assert(self.tabs@.subrange(0, self.tabs@.len() as int) =~= self.tabs@);
        None
    }

    /// The id of the active tab; an error `No active tab` when there is none.
    pub fn active_tab_id(&self) -> (r: Result<String, String>)
        ensures
            match self.active_tab {
                Some(id) => r matches Ok(s) && s@ == id@,
                None => r matches Err(e) && e@ == "No active tab"@,
            },
    {
        match &self.active_tab {
            Some(id) => Ok(id.clone()),
            None => Err("No active tab".to_owned()),
        }
    }

    /// The state of the active tab: an error `No active tab` when there is
    /// none, `Active tab not found` when no tab has its id.
    pub fn active_core(&self) -> (r: Result<&CoreState, String>)
        ensures
            match self.active_tab {
                None => r matches Err(e) && e@ == "No active tab"@,
                Some(id) => match find_tab(self.tabs@, id@) {
                    Some(i) => r matches Ok(c) && *c == self.tabs@[i].1.core,
                    None => r matches Err(e) && e@ == "Active tab not found"@,
                },
            },
    {
        let id = match &self.active_tab {
            Some(id) => id,
            None => {
                return Err("No active tab".to_owned());
            },
        };
        match self.tab_index(id.as_str()) {
            Some(i) => {
                proof {
                    lemma_find_tab_bounds(self.tabs@, id@);
                }
                Ok(&self.tabs[i].1.core)
            },
            None => Err("Active tab not found".to_owned()),
        }
    }

    /// The state of the active tab, for changing it; the same errors as
    /// [`TabManager::active_core`].
    pub fn active_core_mut(&mut self) -> (r: Result<&mut CoreState, String>)
        ensures
            match old(self).active_tab {
                None => r matches Err(e) && e@ == "No active tab"@ && *final(self) == *old(self),
                Some(id) => match find_tab(old(self).tabs@, id@) {
                    Some(i) => r matches Ok(c) && *c == old(self).tabs@[i].1.core
                        && final(self).tabs@ == old(self).tabs@.update(
                        i,
                        (old(self).tabs@[i].0, TabEntry { core: *final(c), ..old(self).tabs@[i].1 }),
                    ) && final(self).active_tab == old(self).active_tab && final(self).next_id
                        == old(self).next_id,
                    None => r matches Err(e) && e@ == "Active tab not found"@ && *final(self) == *old(self),
                },
            },
            (r matches Ok(c) && *final(c) == *c) ==> final(self).tabs@ == old(self).tabs@
                && final(self).active_tab == old(self).active_tab && final(self).next_id == old(self).next_id,
            old(self).ids_unique() ==> final(self).ids_unique(),
    {
        let id = match &self.active_tab {
            Some(id) => id.clone(),
            None => {
                return Err("No active tab".to_owned());
            },
        };
        match self.tab_index(id.as_str()) {
            Some(i) => {
                proof {
                    lemma_find_tab_bounds(self.tabs@, id@);
                }
                Ok(&mut self.tabs[i].1.core)
            },
            None => Err("Active tab not found".to_owned()),
        }
    }
}

proof fn lemma_find_tab_prefix(tabs: Seq<(String, TabEntry)>, id: Seq<char>, n: int, k: int)
    requires
        0 < n <= tabs.len(),
        find_tab(tabs.subrange(0, n), id) == Some(k),
    ensures
        find_tab(tabs, id) == Some(k),
    decreases tabs.len() - n,
{
    if n < tabs.len() {
        let t = tabs.subrange(0, n + 1);
        assert(t.drop_last() =~= tabs.subrange(0, n));
        lemma_find_tab_prefix(tabs, id, n + 1, k);
    } else {
        assert(tabs.subrange(0, n) =~= tabs);
    }
}

// Sorting the tree
/// The nodes after one sort request, before indices are looked up again:
/// the Diag-Comms lists under `mode` for no node, the direct children of a
/// Diag-Comms header under `mode`, or the direct children of another node by
/// lower-cased text.
pub open spec fn sort_step(before: Seq<TreeNode>, after: Seq<TreeNode>, node_index: Option<usize>, mode: DiagcommSortMode) -> bool {
    match node_index {
        None => sections_sorted(before, after, ServiceListType::DiagComms, RangeSort::Nodes(mode)),
        Some(idx) => groups_sorted_in(
            before,
            after,
            idx + 1,
            subtree_end(before, idx as int),
            if before[idx as int].depth == usize::MAX {
                usize::MAX
            } else {
                (before[idx as int].depth + 1) as usize
            },
            if before[idx as int].payload@.service_list_type() == Some(ServiceListType::DiagComms) {
                GroupOrder::Mode(mode)
            } else {
                GroupOrder::LowerText
            },
        ),
    }
}

/// A request cycles the sort mode when it names no node or a Diag-Comms header.
pub open spec fn cycles_mode(nodes: Seq<TreeNode>, node_index: Option<usize>) -> bool {
    match node_index {
        None => true,
        Some(idx) => nodes[idx as int].payload@.service_list_type() == Some(ServiceListType::DiagComms),
    }
}

/// No node is named, or one that exists.
pub open spec fn index_ok(nodes: Seq<TreeNode>, node_index: Option<usize>) -> bool {
    match node_index {
        Some(idx) => idx < nodes.len(),
        None => true,
    }
}

/// The message for a node index past the end.
pub open spec fn out_of_range_message(idx: usize) -> Seq<char> {
    "Node index "@ + decimal(idx as nat) + " out of range"@
}

/// Sort the children of a node (or, with no node, every Diag-Comms list),
/// cycling the Diag-Comms sort mode where one is sorted, look the stored
/// indices up again and show the result.
pub fn toggle_sort(core: &mut CoreState, node_index: Option<usize>) -> (r: Result<ToggleSortResult, String>)
    ensures
        match node_index {
            Some(idx) => idx >= old(core).all_nodes@.len() ==> (r matches Err(e) && e@ == out_of_range_message(idx)
                && *final(core) == *old(core)),
            None => true,
        },
        index_ok(old(core).all_nodes@, node_index) ==> (r matches Ok(res) && {
            &&& final(core).diagcomm_sort == if cycles_mode(old(core).all_nodes@, node_index) {
                old(core).diagcomm_sort.spec_next()
            } else {
                old(core).diagcomm_sort
            }
            &&& exists|mid: Seq<TreeNode>|
                #[trigger] sort_step(old(core).all_nodes@, mid, node_index, final(core).diagcomm_sort)
                    && nodes_view(final(core).all_nodes@) == Seq::new(
                    mid.len(),
                    |i: int| resolved_node(nodes_view(mid), i),
                )
            &&& final(core).ecu_name == old(core).ecu_name
            &&& final(core).is_diff_mode == old(core).is_diff_mode
            &&& final(core).hide_unchanged == old(core).hide_unchanged
            &&& final(core).search_stack == old(core).search_stack
            &&& final(core).search_scope == old(core).search_scope
            &&& refreshed(&*final(core))
            &&& visible_nodes_view(res.nodes@) == shown(&*final(core))
            &&& res.sort_label@ == final(core).diagcomm_sort.label()
        }),
{
    match node_index {
        Some(idx) => {
            if idx >= core.all_nodes.len() {
                let mut msg = "Node index ".to_owned();
                msg.append(usize_to_decimal(idx).as_str());
                msg.append(" out of range");
                return Err(msg);
            }
            if core.all_nodes[idx].service_list_type() == Some(ServiceListType::DiagComms) {
                core.diagcomm_sort = core.diagcomm_sort.next();
                let mode = core.diagcomm_sort;
                sort_children_of(idx, &mut core.all_nodes, GroupOrder::Mode(mode));
            } else {
                sort_children_of(idx, &mut core.all_nodes, GroupOrder::LowerText);
            }
        },
        None => {
            core.diagcomm_sort = core.diagcomm_sort.next();
            let mode = core.diagcomm_sort;
            sort_diagcomm_nodes(&mut core.all_nodes, mode);
        },
    }
    let ghost mid = core.all_nodes@;
    resolve_all_indices(&mut core.all_nodes);
    let nodes = refresh(core);
    let sort_label = core.diagcomm_sort.status_label().to_owned();
    assert(sort_step(old(core).all_nodes@, mid, node_index, core.diagcomm_sort));
    Ok(ToggleSortResult { nodes, sort_label })
}

// Opening, switching and closing tabs
/// `r` is what a tab with id `id` and state `core` shows when it becomes
/// active.
pub open spec fn load_result_of(r: &LoadResult, id: Seq<char>, core: &CoreState) -> bool {
    &&& r.tab_id@ == id
    &&& r.ecu_name@ == core.ecu_name@
    &&& r.node_count == core.all_nodes@.len()
    &&& visible_nodes_view(r.visible@) == shown(core)
    &&& r.is_diff == core.is_diff_mode
}

fn load_result(id: &String, core: &CoreState) -> (r: LoadResult)
    ensures
        load_result_of(&r, id@, core),
{
    LoadResult {
        tab_id: id.clone(),
        ecu_name: core.ecu_name.clone(),
        node_count: core.all_nodes.len(),
        visible: to_visible_nodes(core),
        is_diff: core.is_diff_mode,
    }
}

/// No two tabs have the same id.
pub open spec fn ids_distinct(tabs: Seq<(String, TabEntry)>) -> bool {
    forall|i: int, j: int| 0 <= i < j < tabs.len() ==> tabs[i].0@ != tabs[j].0@
}

/// The first tab that shows the file at `path` in browse mode.
pub open spec fn file_tab(tabs: Seq<(String, TabEntry)>, path: Seq<char>) -> Option<int>
    decreases tabs.len(),
{
    if tabs.len() == 0 {
        None
    } else {
        match file_tab(tabs.drop_last(), path) {
            Some(i) => Some(i),
            None => if tabs.last().1.file_path@ == path && !tabs.last().1.is_diff {
                Some(tabs.len() - 1)
            } else {
                None
            },
        }
    }
}

proof fn lemma_file_tab_bounds(tabs: Seq<(String, TabEntry)>, path: Seq<char>)
    ensures
        file_tab(tabs, path) matches Some(i) ==> 0 <= i < tabs.len() && tabs[i].1.file_path@ == path
            && !tabs[i].1.is_diff,
    decreases tabs.len(),
{
    if tabs.len() > 0 {
        lemma_file_tab_bounds(tabs.drop_last(), path);
    }
}

proof fn lemma_file_tab_prefix(tabs: Seq<(String, TabEntry)>, path: Seq<char>, n: int, k: int)
    requires
        0 < n <= tabs.len(),
        file_tab(tabs.subrange(0, n), path) == Some(k),
    ensures
        file_tab(tabs, path) == Some(k),
    decreases tabs.len() - n,
{
    if n < tabs.len() {
        let t = tabs.subrange(0, n + 1);
        assert(t.drop_last() =~= tabs.subrange(0, n));
        lemma_file_tab_prefix(tabs, path, n + 1, k);
    } else {
        assert(tabs.subrange(0, n) =~= tabs);
    }
}

proof fn lemma_find_tab_some(tabs: Seq<(String, TabEntry)>, i: int)
    requires
        0 <= i < tabs.len(),
    ensures
        find_tab(tabs, tabs[i].0@) is Some,
    decreases tabs.len(),
{
    if i < tabs.len() - 1 {
        lemma_find_tab_some(tabs.drop_last(), i);
    }
}

proof fn lemma_find_tab_distinct(tabs: Seq<(String, TabEntry)>, i: int)
    requires
        0 <= i < tabs.len(),
        ids_distinct(tabs),
    ensures
        find_tab(tabs, tabs[i].0@) == Some(i),
{
    lemma_find_tab_some(tabs, i);
    lemma_find_tab_bounds(tabs, tabs[i].0@);
}

/// The display name of a diff tab.
pub fn diff_display_name(old_name: &str, new_name: &str) -> (r: String)
    ensures
        r@ == old_name@ + " \u{2194} "@ + new_name@,
{
    let mut r = old_name.to_owned();
    r.append(" \u{2194} ");
    r.append(new_name);
    r
}

impl TabManager {
    /// The first tab showing the file at `path` in browse mode.
    pub fn file_tab_index(&self, path: &str) -> (r: Option<usize>)
        ensures
            match r {
                Some(i) => file_tab(self.tabs@, path@) == Some(i as int),
                None => file_tab(self.tabs@, path@) is None,
            },
    {
        let mut i: usize = 0;
        while i < self.tabs.len()
            invariant
                0 <= i <= self.tabs@.len(),
                file_tab(self.tabs@.subrange(0, i as int), path@) is None,
            decreases self.tabs.len() - i,
        {
            proof {
                let t = self.tabs@.subrange(0, i + 1);
                assert(t.drop_last() =~= self.tabs@.subrange(0, i as int));
            }
            if crate::text::str_eq(self.tabs[i].1.file_path.as_str(), path) && !self.tabs[i].1.is_diff {
                proof {
                    lemma_file_tab_prefix(self.tabs@, path@, i + 1, i as int);
                }
                return Some(i);
            }
            i = i + 1;
        }
        assert(self.tabs@.subrange(0, self.tabs@.len() as int) =~= self.tabs@);
        None
    }

    /// When the file at `path` is already open in a browse tab, make that tab
    /// active and return what it shows.
    pub fn reuse_file_tab(&mut self, path: &str) -> (r: Option<LoadResult>)
        ensures
            match file_tab(old(self).tabs@, path@) {
                None => r is None && *final(self) == *old(self),
                Some(i) => {
                    &&& final(self).tabs == old(self).tabs
                    &&& final(self).next_id == old(self).next_id
                    &&& final(self).active_tab matches Some(a) && a@ == old(self).tabs@[i].0@
                    &&& find_tab(old(self).tabs@, old(self).tabs@[i].0@) matches Some(k) && r matches Some(res)
                        && load_result_of(&res, old(self).tabs@[i].0@, &old(self).tabs@[k].1.core)
                },
            },
            old(self).ids_unique() ==> final(self).ids_unique(),
    {
        match self.file_tab_index(path) {
            None => None,
            Some(i) => {
                proof {
                    lemma_file_tab_bounds(self.tabs@, path@);
                    lemma_find_tab_some(self.tabs@, i as int);
                }
                let id = self.tabs[i].0.clone();
                self.active_tab = Some(id);
                match self.active_core() {
                    Ok(core) => Some(load_result(&self.tabs[i].0, core)),
                    Err(_) => None,
                }
            },
        }
    }

    /// Add a tab (replacing the one with the same id, if any).
    pub fn insert_tab(&mut self, id: String, entry: TabEntry)
        ensures
            final(self).next_id == old(self).next_id,
            final(self).active_tab == old(self).active_tab,
            match find_tab(old(self).tabs@, id@) {
                Some(i) => final(self).tabs@ == old(self).tabs@.update(i, (old(self).tabs@[i].0, entry)),
                None => final(self).tabs@ == old(self).tabs@.push((id, entry)),
            },
            old(self).ids_unique() ==> final(self).ids_unique(),
    {
        proof {
            lemma_find_tab_bounds(self.tabs@, id@);
        }
        match self.tab_index(id.as_str()) {
            Some(i) => {
                let ghost before = self.tabs@;
                let mut taken: Vec<(String, TabEntry)> = Vec::new();
                std::mem::swap(&mut taken, &mut self.tabs);
                let tail = taken.split_off(i);
                let mut tail = tail;
                let (key, _) = tail.remove(0);
                taken.push((key, entry));
                taken.append(&mut tail);
                self.tabs = taken;
                assert(self.tabs@ =~= before.update(i as int, (before[i as int].0, entry)));
            },
            None => {
                proof {
                    assert forall|j: int| 0 <= j < self.tabs@.len() implies self.tabs@[j].0@ != id@ by {
                        lemma_find_tab_some(self.tabs@, j);
                    }
                }
                self.tabs.push((id, entry));
            },
        }
    }

    /// Open a tab on a freshly built tree: give it a new id, apply the
    /// load-time sorts, look the stored indices up again, make it active and
    /// return what it shows.
    pub fn open_tab(
        &mut self,
        nodes: Vec<TreeNode>,
        ecu_name: String,
        file_path: String,
        display_name: String,
        is_diff: bool,
    ) -> (r: LoadResult)
        ensures
            final(self).next_id == if old(self).next_id == u64::MAX {
                u64::MAX
            } else {
                (old(self).next_id + 1) as u64
            },
            final(self).active_tab matches Some(a) && a@ == "tab_"@ + decimal(final(self).next_id as nat),
            ({
                let id = "tab_"@ + decimal(final(self).next_id as nat);
                let p = match find_tab(old(self).tabs@, id) {
                    Some(i) => i,
                    None => old(self).tabs@.len() as int,
                };
                let t = final(self).tabs@[p].1;
                &&& match find_tab(old(self).tabs@, id) {
                    Some(i) => final(self).tabs@ == old(self).tabs@.update(i, final(self).tabs@[i]),
                    None => final(self).tabs@ == old(self).tabs@.push(final(self).tabs@[p]),
                }
                &&& final(self).tabs@[p].0@ == id
                &&& t.file_path == file_path && t.display_name == display_name && t.is_diff == is_diff
                &&& exists|mid: Seq<TreeNode>|
                    #[trigger] default_sorted(nodes@, mid) && nodes_view(t.core.all_nodes@) == Seq::new(
                        mid.len(),
                        |i: int| resolved_node(nodes_view(mid), i),
                    )
                &&& t.core.ecu_name == ecu_name
                &&& t.core.is_diff_mode == is_diff
                &&& !t.core.hide_unchanged
                &&& t.core.search_stack@.len() == 0
                &&& t.core.search_scope == SearchScope::All
                &&& t.core.diagcomm_sort == DiagcommSortMode::IdAsc
                &&& refreshed(&t.core)
                &&& load_result_of(&r, id, &t.core)
            }),
            old(self).ids_unique() ==> final(self).ids_unique(),
    {
        let tab_id = self.next_tab_id();
        let mut core = CoreState::default();
        core.all_nodes = nodes;
        core.ecu_name = ecu_name;
        core.is_diff_mode = is_diff;
        apply_default_sort(&mut core.all_nodes);
        let ghost mid = core.all_nodes@;
        resolve_all_indices(&mut core.all_nodes);
        let _ = refresh(&mut core);
        assert(default_sorted(nodes@, mid));
        let r = load_result(&tab_id, &core);
        let ghost c = core;
        let entry = TabEntry { core, file_path, display_name, is_diff };
        let ghost before = self.tabs@;
        let ghost id = tab_id@;
        let key = tab_id.clone();
        self.insert_tab(key, entry);
        self.active_tab = Some(tab_id);
        proof {
            lemma_find_tab_bounds(before, id);
        }
        r
    }

    /// Make the tab with this id active and return what it shows; an error
    /// `Tab <id> not found` when there is none.
    pub fn switch_tab(&mut self, tab_id: &str) -> (r: Result<LoadResult, String>)
        ensures
            match find_tab(old(self).tabs@, tab_id@) {
                None => r matches Err(e) && e@ == "Tab "@ + tab_id@ + " not found"@ && *final(self) == *old(self),
                Some(i) => {
                    &&& final(self).tabs == old(self).tabs
                    &&& final(self).next_id == old(self).next_id
                    &&& final(self).active_tab matches Some(a) && a@ == tab_id@
                    &&& r matches Ok(res) && load_result_of(&res, tab_id@, &old(self).tabs@[i].1.core)
                },
            },
            old(self).ids_unique() ==> final(self).ids_unique(),
    {
        match self.tab_index(tab_id) {
            None => {
                let mut msg = "Tab ".to_owned();
                msg.append(tab_id);
                msg.append(" not found");
                Err(msg)
            },
            Some(i) => {
                proof {
                    lemma_find_tab_bounds(self.tabs@, tab_id@);
                }
                self.active_tab = Some(tab_id.to_owned());
                let id = tab_id.to_owned();
                Ok(load_result(&id, &self.tabs[i].1.core))
            },
        }
    }

    /// Close the tab with this id (if open). When it was active, the first
    /// remaining tab becomes active. Returns what the active tab shows, if
    /// any; an error `Active tab not found` when the active id names no tab.
    pub fn close_tab(&mut self, tab_id: &str) -> (r: Result<Option<LoadResult>, String>)
        ensures
            final(self).tabs@ == match find_tab(old(self).tabs@, tab_id@) {
                Some(i) => old(self).tabs@.remove(i),
                None => old(self).tabs@,
            },
            final(self).next_id == old(self).next_id,
            match old(self).active_tab {
                Some(a) => if a@ == tab_id@ {
                    if final(self).tabs@.len() > 0 {
                        final(self).active_tab matches Some(b) && b@ == final(self).tabs@[0].0@
                    } else {
                        final(self).active_tab is None
                    }
                } else {
                    final(self).active_tab == old(self).active_tab
                },
                None => final(self).active_tab is None,
            },
            match final(self).active_tab {
                None => r matches Ok(None),
                Some(a) => match find_tab(final(self).tabs@, a@) {
                    Some(j) => r matches Ok(Some(res)) && load_result_of(&res, a@, &final(self).tabs@[j].1.core),
                    None => r matches Err(e) && e@ == "Active tab not found"@,
                },
            },
            old(self).ids_unique() ==> final(self).ids_unique(),
    {
        match self.tab_index(tab_id) {
            Some(i) => {
                proof {
                    lemma_find_tab_bounds(self.tabs@, tab_id@);
                }
                let _ = self.tabs.remove(i);
            },
            None => {},
        }
        let was_active = match &self.active_tab {
            Some(a) => crate::text::str_eq(a.as_str(), tab_id),
            None => false,
        };
        if was_active {
            if self.tabs.len() > 0 {
                self.active_tab = Some(self.tabs[0].0.clone());
            } else {
                self.active_tab = None;
            }
        }
        match &self.active_tab {
            None => Ok(None),
            Some(a) => match self.tab_index(a.as_str()) {
                Some(j) => {
                    proof {
                        lemma_find_tab_bounds(self.tabs@, a@);
                    }
                    Ok(Some(load_result(a, &self.tabs[j].1.core)))
                },
                None => Err("Active tab not found".to_owned()),
            },
        }
    }

    /// The open tabs, in the order they were opened.
    pub fn open_tabs(&self) -> (r: Vec<TabInfo>)
        ensures
            r@.len() == self.tabs@.len(),
            forall|i: int|
                0 <= i < r@.len() ==> {
                    &&& (#[trigger] r@[i]).id@ == self.tabs@[i].0@
                    &&& r@[i].display_name@ == self.tabs@[i].1.display_name@
                    &&& r@[i].file_path@ == self.tabs@[i].1.file_path@
                    &&& r@[i].is_diff == self.tabs@[i].1.is_diff
                    &&& r@[i].is_active == (self.active_tab matches Some(a) && a@ == self.tabs@[i].0@)
                },
    {
        let mut r: Vec<TabInfo> = Vec::new();
        let mut i: usize = 0;
        while i < self.tabs.len()
            invariant
                0 <= i <= self.tabs@.len(),
                r@.len() == i,
                forall|k: int|
                    0 <= k < i ==> {
                        &&& (#[trigger] r@[k]).id@ == self.tabs@[k].0@
                        &&& r@[k].display_name@ == self.tabs@[k].1.display_name@
                        &&& r@[k].file_path@ == self.tabs@[k].1.file_path@
                        &&& r@[k].is_diff == self.tabs@[k].1.is_diff
                        &&& r@[k].is_active == (self.active_tab matches Some(a) && a@ == self.tabs@[k].0@)
                    },
            decreases self.tabs@.len() - i,
        {
            let (id, entry) = &self.tabs[i];
            let is_active = match &self.active_tab {
                Some(a) => crate::text::str_eq(a.as_str(), id.as_str()),
                None => false,
            };
            r.push(
                TabInfo {
                    id: id.clone(),
                    display_name: entry.display_name.clone(),
                    file_path: entry.file_path.clone(),
                    is_diff: entry.is_diff,
                    is_active,
                },
            );
            i = i + 1;
        }
        r
    }
}

pub open spec fn stays_in(
    nodes: Seq<NodeV>,
    inc: Option<Seq<bool>>,
    hide_unchanged: bool,
    header_idx: usize,
) -> spec_fn(RowV) -> bool {
    |r: RowV| row_stays(nodes, inc, hide_unchanged, header_idx, r)
}

proof fn lemma_rows_staying_filter(
    rows: Seq<RowV>,
    nodes: Seq<NodeV>,
    inc: Option<Seq<bool>>,
    hide_unchanged: bool,
    header_idx: usize,
)
    ensures
        rows_staying(rows, nodes, inc, hide_unchanged, header_idx) == rows.filter(
            stays_in(nodes, inc, hide_unchanged, header_idx),
        ),
    decreases rows.len(),
{
    let f = stays_in(nodes, inc, hide_unchanged, header_idx);
    if rows.len() == 0 {
        assert(rows.filter(f) =~= Seq::<RowV>::empty());
    } else {
        let p = rows.drop_last();
        lemma_rows_staying_filter(p, nodes, inc, hide_unchanged, header_idx);
        assert(rows =~= p.push(rows.last()));
        p.lemma_filter_push(rows.last(), f);
        assert(rows_staying(rows, nodes, inc, hide_unchanged, header_idx) =~= rows.filter(f));
    }
}

/// Filtering a service-list table keeps, in their order, exactly the rows
/// that stay: every row without a tree-node jump, and a row with one unless
/// the header's direct child of that name fails the filters; its title
/// counts the rows kept. Sections that are not tables are returned as they
/// are.
pub proof fn law_filter_keeps_unreferenced_rows(
    s: SectionV,
    nodes: Seq<NodeV>,
    inc: Option<Seq<bool>>,
    hide_unchanged: bool,
    header_idx: usize,
)
    ensures
        !(s.content is Table) ==> filtered_section(s, nodes, inc, hide_unchanged, header_idx) == s,
        s.content is Table ==> {
            let rows = s.content->Table_rows;
            let kept = rows.filter(stays_in(nodes, inc, hide_unchanged, header_idx));
            let r = filtered_section(s, nodes, inc, hide_unchanged, header_idx);
            &&& r.content->Table_rows == kept
            &&& r.content->Table_header == s.content->Table_header
            &&& r.content->Table_constraints == s.content->Table_constraints
            &&& r.content->Table_use_row_selection == s.content->Table_use_row_selection
            &&& r.render_as_header == s.render_as_header && r.section_type == s.section_type
            &&& r.byte_pattern_rows == s.byte_pattern_rows
            &&& r.title == with_count(s.title, kept.len())
            &&& forall|k: int| 0 <= k < rows.len() && row_ref_name((#[trigger] rows[k]).cells) is None ==> kept.contains(
                rows[k],
            )
        },
{
    if s.content is Table {
        let rows = s.content->Table_rows;
        let f = stays_in(nodes, inc, hide_unchanged, header_idx);
        lemma_rows_staying_filter(rows, nodes, inc, hide_unchanged, header_idx);
        assert forall|k: int| 0 <= k < rows.len() && row_ref_name((#[trigger] rows[k]).cells) is None implies rows.filter(
            f,
        ).contains(rows[k]) by {
            rows.lemma_filter_contains(f, k);
        }
    }
}

/// With unique ids, looking a tab up by its id finds that very tab.
pub proof fn law_unique_ids_find_the_tab(m: &TabManager, i: int)
    requires
        m.ids_unique(),
        0 <= i < m.tabs@.len(),
    ensures
        find_tab(m.tabs@, m.tabs@[i].0@) == Some(i),
{
    lemma_find_tab_distinct(m.tabs@, i);
}

/// Where the subtree below depth `hd` that continues at `i` ends: the
/// first position from `i` on that is past the nodes or not deeper than `hd`.
pub open spec fn list_end(nodes: Seq<NodeV>, hd: usize, i: int) -> int
    decreases nodes.len() - i,
{
    if i < 0 || i >= nodes.len() || nodes[i].depth <= hd {
        i
    } else {
        list_end(nodes, hd, i + 1)
    }
}

/// Node `c` is a direct child (depth `hd + 1`) matched by `name`.
pub open spec fn keyed_child(nodes: Seq<NodeV>, hd: usize, c: int, name: Seq<char>) -> bool {
    nodes[c].depth == hd + 1 && child_key(nodes[c]) == name
}

/// `c` is the last direct child matched by `name` in `[i, end)`.
pub open spec fn last_keyed_child(nodes: Seq<NodeV>, hd: usize, i: int, name: Seq<char>, c: int) -> bool {
    &&& i <= c < list_end(nodes, hd, i)
    &&& keyed_child(nodes, hd, c, name)
    &&& forall|d: int| c < d < list_end(nodes, hd, i) ==> !keyed_child(nodes, hd, d, name)
}

proof fn lemma_list_end_bounds(nodes: Seq<NodeV>, hd: usize, i: int)
    requires
        0 <= i,
    ensures
        i <= list_end(nodes, hd, i),
        list_end(nodes, hd, i) <= nodes.len() || list_end(nodes, hd, i) == i,
        forall|d: int| i <= d < list_end(nodes, hd, i) ==> 0 <= d < nodes.len() && (#[trigger] nodes[d]).depth > hd,
    decreases nodes.len() - i,
{
    if !(i >= nodes.len() || nodes[i].depth <= hd) {
        lemma_list_end_bounds(nodes, hd, i + 1);
    }
}

proof fn lemma_child_passes(
    nodes: Seq<NodeV>,
    inc: Option<Seq<bool>>,
    hide_unchanged: bool,
    hd: usize,
    i: int,
    name: Seq<char>,
)
    requires
        0 <= i,
    ensures
        match child_passes(nodes, inc, hide_unchanged, hd, i, name) {
            Some(b) => exists|c: int| #[trigger] last_keyed_child(nodes, hd, i, name, c) && b == passes(
                nodes,
                inc,
                hide_unchanged,
                c,
            ),
            None => forall|c: int| i <= c < list_end(nodes, hd, i) ==> !#[trigger] keyed_child(nodes, hd, c, name),
        },
    decreases nodes.len() - i,
{
    if !(i >= nodes.len() || nodes[i].depth <= hd) {
        lemma_child_passes(nodes, inc, hide_unchanged, hd, i + 1, name);
        assert(list_end(nodes, hd, i) == list_end(nodes, hd, i + 1));
        match child_passes(nodes, inc, hide_unchanged, hd, i + 1, name) {
            Some(b) => {
                let c = choose|c: int| #[trigger] last_keyed_child(nodes, hd, i + 1, name, c) && b == passes(
                    nodes,
                    inc,
                    hide_unchanged,
                    c,
                );
                assert(last_keyed_child(nodes, hd, i, name, c));
            },
            None => {
                lemma_list_end_bounds(nodes, hd, i + 1);
                if keyed_child(nodes, hd, i, name) {
                    assert(last_keyed_child(nodes, hd, i, name, i));
                }
            },
        }
    }
}

/// A row of a service-list table stays exactly when it has no tree-node
/// jump, or no direct child of the header is matched by the jump's name, or
/// the last such child passes the filters (it is included, and not hidden
/// as unchanged).
pub proof fn law_row_stays_exact(
    nodes: Seq<NodeV>,
    inc: Option<Seq<bool>>,
    hide_unchanged: bool,
    header_idx: usize,
    r: RowV,
)
    requires
        header_idx < nodes.len(),
    ensures
        ({
            let hd = nodes[header_idx as int].depth;
            let i = header_idx + 1;
            row_stays(nodes, inc, hide_unchanged, header_idx, r) <==> match row_ref_name(r.cells) {
                None => true,
                Some(n) => (forall|c: int| i <= c < list_end(nodes, hd, i) ==> !#[trigger] keyed_child(nodes, hd, c, n))
                    || exists|c: int| #[trigger] last_keyed_child(nodes, hd, i, n, c) && passes(nodes, inc, hide_unchanged, c),
            }
        }),
{
    let hd = nodes[header_idx as int].depth;
    let i = header_idx + 1;
    match row_ref_name(r.cells) {
        None => {},
        Some(n) => {
            lemma_child_passes(nodes, inc, hide_unchanged, hd, i, n);
            match child_passes(nodes, inc, hide_unchanged, hd, i, n) {
                Some(b) => {
                    let c = choose|c: int| #[trigger] last_keyed_child(nodes, hd, i, n, c) && b == passes(
                        nodes,
                        inc,
                        hide_unchanged,
                        c,
                    );
                    if exists|c2: int| #[trigger] last_keyed_child(nodes, hd, i, n, c2) && passes(nodes, inc, hide_unchanged, c2) {
                        let c2 = choose|c2: int| #[trigger] last_keyed_child(nodes, hd, i, n, c2) && passes(
                            nodes,
                            inc,
                            hide_unchanged,
                            c2,
                        );
                        assert(c2 == c) by {
                            if c2 < c {
                                assert(!keyed_child(nodes, hd, c, n));
                            } else if c < c2 {
                                assert(!keyed_child(nodes, hd, c2, n));
                            }
                        }
                    }
                    assert(keyed_child(nodes, hd, c, n));
                },
                None => {},
            }
        },
    }
}

} // verus!
