//! The description of an open database handed to a chat assistant: rules
//! for answering, the tree (or, for a diff, its changed nodes with their
//! ancestors) and the byte patterns, within a character budget.
use vstd::prelude::*;
use crate::browse::{
    CoreState, depth_slots, lemma_mark_ancestors_grows, mark_ancestor_nodes, mark_ancestors, mark_up, max_depth,
};
use crate::diff::compare::{join, join_strings};
use crate::report::{cell_texts, kind_name, node_kind_name, status_marker, diff_marker};
use crate::text::{chars_of, decimal, repeat, repeat_str, string_of_range, usize_to_decimal};
use crate::tree::types::{
    DetailRow, DetailRowType, DetailSectionData, DiffStatus, NodeV, RowV, SectionV, TreeNode,
    nodes_view, rows_view, sections_view, strings_view,
};

verus! {

broadcast use vstd::std_specs::vec::group_vec_axioms;

/// The most characters of context sent.
pub const MAX_CONTEXT_CHARS: usize = 40000;

pub const ROLE_LINE: &'static str = "You are an expert automotive diagnostics engineer assistant.";

pub const VIEW_LINE: &'static str = "The user is viewing an MDD (Master Diagnostic Data) database in the MDD UI tool.";

pub const GROUNDING_RULE: &'static str = "IMPORTANT: Only answer questions using the MDD data provided below. Do not invent, \
     assume, or hallucinate any services, parameters, or properties that are not explicitly \
     listed here. If the data does not contain enough information to answer the question, say \
     so clearly. Markdown is fully supported in your responses -- use headings, bold, lists, \
     and code blocks where appropriate.";

pub const LINK_RULE: &'static str = "When referencing any node, service, parameter, or diagnostic object by name, always wrap \
     it in double square brackets, e.g. [[ServiceName]] or [[ParameterName]]. Copy the name \
     character-for-character exactly as it appears in the MDD structure below -- do not \
     rephrase, shorten, or change capitalisation. This allows the user to click on them for \
     direct navigation in the UI.";

pub const DIFF_HEADING: &'static str = "MDD diff (only changed nodes shown with ancestors for context; + added, - removed, ~ \
     modified):";

pub const TREE_HEADING: &'static str = "MDD structure (containers, services, and sub-services):";

pub const PATTERN_HEADING: &'static str = "Byte patterns (Offset | Bits | Hex | Binary | Name | Type):";

pub const TRUNCATION_NOTE: &'static str = "\n\n[Context truncated -- database too large to fit in one request. Ask specific \
     questions about services or nodes by name.]";

/// The node differs between the compared databases.
pub open spec fn changed(n: NodeV) -> bool {
    n.diff_status matches Some(s) && s != DiffStatus::Unchanged
}

/// The nodes a diff context shows: the changed ones and, walking up from
/// each, its ancestors.
pub open spec fn context_shown(nodes: Seq<NodeV>) -> Seq<bool> {
    mark_ancestors(
        nodes,
        Seq::new(nodes.len(), |i: int| changed(nodes[i])),
        Seq::new(depth_slots(nodes), |i: int| 0usize),
        0,
    )
}

pub open spec fn diff_context_lines(nodes: Seq<NodeV>, shown: Seq<bool>, n: int) -> Seq<Seq<char>>
    decreases n,
{
    if n <= 0 {
        Seq::empty()
    } else {
        diff_context_lines(nodes, shown, n - 1) + if shown[n - 1] {
            seq![
                status_marker(nodes[n - 1].diff_status) + repeat("  "@, nodes[n - 1].depth as nat) + "["@
                    + kind_name(nodes[n - 1].node_type) + "] "@ + nodes[n - 1].text,
            ]
        } else {
            Seq::empty()
        }
    }
}

pub open spec fn tree_context_lines(nodes: Seq<NodeV>, n: int) -> Seq<Seq<char>>
    decreases n,
{
    if n <= 0 {
        Seq::empty()
    } else {
        tree_context_lines(nodes, n - 1) + if nodes[n - 1].depth <= 3 {
            seq![
                repeat("  "@, nodes[n - 1].depth as nat) + "- ["@ + kind_name(nodes[n - 1].node_type) + "] "@
                    + nodes[n - 1].text,
            ]
        } else {
            Seq::empty()
        }
    }
}

/// The byte-pattern rows of a row list as text, header rows left out.
pub open spec fn pattern_row_texts(rows: Seq<RowV>) -> Seq<Seq<char>>
    decreases rows.len(),
{
    if rows.len() == 0 {
        Seq::empty()
    } else {
        pattern_row_texts(rows.drop_last()) + if rows.last().row_type == DetailRowType::Header {
            Seq::empty()
        } else {
            seq![join(cell_texts(rows.last().cells), " | "@)]
        }
    }
}

/// All byte-pattern rows of a node's sections, in order.
pub open spec fn node_patterns(secs: Seq<SectionV>) -> Seq<Seq<char>>
    decreases secs.len(),
{
    if secs.len() == 0 {
        Seq::empty()
    } else {
        node_patterns(secs.drop_last()) + match secs.last().byte_pattern_rows {
            Some(rows) => pattern_row_texts(rows),
            None => Seq::empty(),
        }
    }
}

/// The byte-pattern lines of the first `n` nodes: a heading before the
/// first, then for each node with patterns its name and its rows.
pub open spec fn pattern_lines(nodes: Seq<NodeV>, n: int) -> Seq<Seq<char>>
    decreases n,
{
    if n <= 0 {
        Seq::empty()
    } else {
        let prev = pattern_lines(nodes, n - 1);
        let pats = node_patterns(nodes[n - 1].detail_sections);
        if pats.len() == 0 {
            prev
        } else {
            prev + (if prev.len() == 0 {
                seq![Seq::empty(), PATTERN_HEADING@]
            } else {
                Seq::empty()
            }) + seq!["\n  [["@ + nodes[n - 1].text + "]]:"@] + pats.map_values(|p: Seq<char>| "    "@ + p)
        }
    }
}

/// The lines of the context, before the budget is applied.
pub open spec fn context_lines(core: &CoreState) -> Seq<Seq<char>> {
    let nodes = nodes_view(core.all_nodes@);
    seq![
        ROLE_LINE@,
        VIEW_LINE@,
        Seq::empty(),
        GROUNDING_RULE@,
        Seq::empty(),
        LINK_RULE@,
        Seq::empty(),
        "ECU: "@ + core.ecu_name@,
        "Total nodes: "@ + decimal(nodes.len()),
        Seq::empty(),
    ] + (if core.is_diff_mode {
        seq![DIFF_HEADING@] + diff_context_lines(nodes, context_shown(nodes), nodes.len() as int)
    } else {
        seq![TREE_HEADING@] + tree_context_lines(nodes, nodes.len() as int)
    }) + pattern_lines(nodes, nodes.len() as int)
}

/// The budget: a text longer than [`MAX_CONTEXT_CHARS`] bytes is cut to its
/// first [`MAX_CONTEXT_CHARS`] characters (all of them when it has no more)
/// and a note is added.
pub open spec fn within_budget(text: Seq<char>) -> Seq<char> {
    if vstd::utf8::encode_utf8(text).len() > MAX_CONTEXT_CHARS {
        text.subrange(
            0,
            if text.len() > MAX_CONTEXT_CHARS {
                MAX_CONTEXT_CHARS as int
            } else {
                text.len() as int
            },
        ) + TRUNCATION_NOTE@
    } else {
        text
    }
}

/// The context handed to the assistant for a state.
pub open spec fn mdd_context(core: &CoreState) -> Seq<char> {
    within_budget(join(context_lines(core), "\n"@))
}

fn pattern_rows_exec(rows: &Vec<DetailRow>, out: &mut Vec<String>)
    ensures
        strings_view(final(out)@) == strings_view(old(out)@) + pattern_row_texts(rows_view(rows@)),
{
    let ghost start = strings_view(out@);
    let mut i: usize = 0;
    while i < rows.len()
        invariant
            0 <= i <= rows@.len(),
            strings_view(out@) == start + pattern_row_texts(rows_view(rows@).subrange(0, i as int)),
        decreases rows@.len() - i,
    {
        let row = &rows[i];
        let ghost before = strings_view(out@);
        if row.row_type != DetailRowType::Header {
            let mut parts: Vec<String> = Vec::new();
            let mut k: usize = 0;
            while k < row.cells.len()
                invariant
                    0 <= k <= row.cells@.len(),
                    parts@.len() == k,
                    forall|j: int| 0 <= j < k ==> (#[trigger] parts@[j])@ == row.cells@[j].text@,
                decreases row.cells@.len() - k,
            {
                parts.push(row.cells[k].text.clone());
                k = k + 1;
            }
            assert(strings_view(parts@) =~= cell_texts(row@.cells));
            out.push(join_strings(&parts, " | "));
        }
        proof {
            let sub = rows_view(rows@).subrange(0, i + 1);
            assert(sub.drop_last() =~= rows_view(rows@).subrange(0, i as int));
            assert(sub.last() == row@);
            assert(strings_view(out@) =~= before + if row@.row_type == DetailRowType::Header {
                Seq::<Seq<char>>::empty()
            } else {
                seq![join(cell_texts(row@.cells), " | "@)]
            });
        }
        i = i + 1;
    }
    assert(rows_view(rows@).subrange(0, i as int) =~= rows_view(rows@));
}

fn node_patterns_exec(secs: &Vec<DetailSectionData>) -> (r: Vec<String>)
    ensures
        strings_view(r@) == node_patterns(sections_view(secs@)),
{
    let ghost sv = sections_view(secs@);
    let mut out: Vec<String> = Vec::new();
    let mut i: usize = 0;
    while i < secs.len()
        invariant
            0 <= i <= secs@.len(),
            sv == sections_view(secs@),
            strings_view(out@) == node_patterns(sv.subrange(0, i as int)),
        decreases secs@.len() - i,
    {
        let ghost before = strings_view(out@);
        match &secs[i].byte_pattern_rows {
            Some(rows) => pattern_rows_exec(rows, &mut out),
            None => {},
        }
        proof {
            let sub = sv.subrange(0, i + 1);
            assert(sub.drop_last() =~= sv.subrange(0, i as int));
            assert(sub.last() == crate::tree::types::section_view(secs@[i as int]));
        }
        i = i + 1;
    }
    assert(sv.subrange(0, i as int) =~= sv);
    out
}

/// Append the byte patterns of the nodes (after a heading, when any node
/// has some).
pub fn append_byte_patterns(all_nodes: &Vec<TreeNode>, lines: &mut Vec<String>)
    ensures
        strings_view(final(lines)@) == strings_view(old(lines)@) + pattern_lines(
            nodes_view(all_nodes@),
            all_nodes@.len() as int,
        ),
{
    let ghost nv = nodes_view(all_nodes@);
    let ghost start = strings_view(lines@);
    let mut header_added = false;
    let mut i: usize = 0;
    while i < all_nodes.len()
        invariant
            0 <= i <= all_nodes@.len(),
            nv == nodes_view(all_nodes@),
            strings_view(lines@) == start + pattern_lines(nv, i as int),
            header_added == (pattern_lines(nv, i as int).len() > 0),
        decreases all_nodes@.len() - i,
    {
        let node = &all_nodes[i];
        assert(nv[i as int] == node@);
        let patterns = node_patterns_exec(&node.detail_sections);
        let ghost before = strings_view(lines@);
        let ghost pats = strings_view(patterns@);
        if patterns.len() > 0 {
            if !header_added {
                lines.push(String::new());
                lines.push(PATTERN_HEADING.to_owned());
                header_added = true;
            }
            let mut title = "\n  [[".to_owned();
            title.append(node.text.as_str());
            title.append("]]:");
            lines.push(title);
            let ghost mid = strings_view(lines@);
            let mut k: usize = 0;
            while k < patterns.len()
                invariant
                    0 <= k <= patterns@.len(),
                    pats == strings_view(patterns@),
                    lines@.len() == mid.len() + k,
                    forall|j: int| 0 <= j < mid.len() ==> #[trigger] lines@[j]@ == mid[j],
                    forall|j: int| mid.len() <= j < lines@.len() ==> #[trigger] lines@[j]@ == "    "@ + pats[j - mid.len()],
                decreases patterns@.len() - k,
            {
                let mut p = "    ".to_owned();
                p.append(patterns[k].as_str());
                lines.push(p);
                k = k + 1;
            }
            assert(strings_view(lines@) =~= mid + pats.map_values(|p: Seq<char>| "    "@ + p));
            assert(strings_view(lines@) =~= before + (if pattern_lines(nv, i as int).len() == 0 {
                seq![Seq::<char>::empty(), PATTERN_HEADING@]
            } else {
                Seq::empty()
            }) + seq!["\n  [["@ + nv[i as int].text + "]]:"@] + pats.map_values(|p: Seq<char>| "    "@ + p));
        }
        i = i + 1;
    }
}

/// The context for a state, as handed to the chat assistant.
pub fn build_mdd_context(core: &CoreState) -> (r: String)
    ensures
        r@ == mdd_context(core),
{
    let ghost nv = nodes_view(core.all_nodes@);
    let mut lines: Vec<String> = Vec::new();
    lines.push(ROLE_LINE.to_owned());
    lines.push(VIEW_LINE.to_owned());
    lines.push(String::new());
    lines.push(GROUNDING_RULE.to_owned());
    lines.push(String::new());
    lines.push(LINK_RULE.to_owned());
    lines.push(String::new());
    let mut ecu = "ECU: ".to_owned();
    ecu.append(core.ecu_name.as_str());
    lines.push(ecu);
    let mut total = "Total nodes: ".to_owned();
    total.append(usize_to_decimal(core.all_nodes.len()).as_str());
    lines.push(total);
    lines.push(String::new());
    let ghost head = strings_view(lines@);
    if core.is_diff_mode {
        lines.push(DIFF_HEADING.to_owned());
        let len = core.all_nodes.len();
        let mut flags: Vec<bool> = Vec::new();
        let mut i: usize = 0;
        while i < len
            invariant
                len == core.all_nodes@.len(),
                nv == nodes_view(core.all_nodes@),
                0 <= i <= len,
                flags@.len() == i,
                forall|j: int| 0 <= j < i ==> #[trigger] flags@[j] == changed(nv[j]),
            decreases len - i,
        {
            let c = match core.all_nodes[i].diff_status {
                Some(DiffStatus::Unchanged) | None => false,
                _ => true,
            };
            assert(nv[i as int] == core.all_nodes@[i as int]@);
            flags.push(c);
            i = i + 1;
        }
        assert(flags@ =~= Seq::new(nv.len(), |i: int| changed(nv[i])));
        let shown = mark_ancestor_nodes(core.all_nodes.as_slice(), flags);
        proof {
            lemma_mark_ancestors_grows(
                nv,
                Seq::new(nv.len(), |i: int| changed(nv[i])),
                Seq::new(depth_slots(nv), |i: int| 0usize),
                0,
            );
        }
        let ghost mid = strings_view(lines@);
        let mut i: usize = 0;
        while i < len
            invariant
                len == core.all_nodes@.len(),
                nv == nodes_view(core.all_nodes@),
                shown@ == context_shown(nv),
                shown@.len() == len,
                0 <= i <= len,
                strings_view(lines@) == mid + diff_context_lines(nv, shown@, i as int),
            decreases len - i,
        {
            let node = &core.all_nodes[i];
            assert(nv[i as int] == node@);
            if shown[i] {
                let mut line = diff_marker(node.diff_status).to_owned();
                line.append(repeat_str("  ", node.depth).as_str());
                line.append("[");
                line.append(node_kind_name(node.node_type));
                line.append("] ");
                line.append(node.text.as_str());
                let ghost before = strings_view(lines@);
                lines.push(line);
                assert(strings_view(lines@) =~= before.push(line@));
            }
            i = i + 1;
        }
    } else {
        lines.push(TREE_HEADING.to_owned());
        let ghost mid = strings_view(lines@);
        let mut i: usize = 0;
        while i < core.all_nodes.len()
            invariant
                0 <= i <= core.all_nodes@.len(),
                nv == nodes_view(core.all_nodes@),
                strings_view(lines@) == mid + tree_context_lines(nv, i as int),
            decreases core.all_nodes@.len() - i,
        {
            let node = &core.all_nodes[i];
            assert(nv[i as int] == node@);
            if node.depth <= 3 {
                let mut line = repeat_str("  ", node.depth);
                line.append("- [");
                line.append(node_kind_name(node.node_type));
                line.append("] ");
                line.append(node.text.as_str());
                let ghost before = strings_view(lines@);
                lines.push(line);
                assert(strings_view(lines@) =~= before.push(line@));
            }
            i = i + 1;
        }
    }
    append_byte_patterns(&core.all_nodes, &mut lines);
    assert(strings_view(lines@) =~= context_lines(core));
    let result = join_strings(&lines, "\n");
    let n = result.as_str().as_bytes().len();
    if n > MAX_CONTEXT_CHARS {
        let chars = chars_of(result.as_str());
        let cut = if chars.len() > MAX_CONTEXT_CHARS {
            MAX_CONTEXT_CHARS
        } else {
            chars.len()
        };
        let mut truncated = string_of_range(chars.as_slice(), 0, cut);
        truncated.append(TRUNCATION_NOTE);
        truncated
    } else {
        result
    }
}

/// Every changed node is shown in a diff context.
pub proof fn law_context_shows_changes(nodes: Seq<NodeV>, i: int)
    requires
        0 <= i < nodes.len(),
        changed(nodes[i]),
    ensures
        context_shown(nodes).len() == nodes.len(),
        context_shown(nodes)[i],
{
    let flags = Seq::new(nodes.len(), |k: int| changed(nodes[k]));
    lemma_mark_ancestors_grows(nodes, flags, Seq::new(depth_slots(nodes), |k: int| 0usize), 0);
    assert(flags[i]);
}

/// A text that fits the budget is sent as it is; a longer one is sent as
/// its first [`MAX_CONTEXT_CHARS`] characters (at most) and the note.
pub proof fn law_budget(text: Seq<char>)
    ensures
        vstd::utf8::encode_utf8(text).len() <= MAX_CONTEXT_CHARS ==> within_budget(text) == text,
        vstd::utf8::encode_utf8(text).len() > MAX_CONTEXT_CHARS ==> {
            let n = within_budget(text).len() - TRUNCATION_NOTE@.len();
            &&& 0 <= n <= MAX_CONTEXT_CHARS
            &&& within_budget(text).subrange(0, n) == text.subrange(0, n)
            &&& within_budget(text).subrange(n, within_budget(text).len() as int) == TRUNCATION_NOTE@
        },
{
    if vstd::utf8::encode_utf8(text).len() > MAX_CONTEXT_CHARS {
        let cut: int = if text.len() > MAX_CONTEXT_CHARS {
            MAX_CONTEXT_CHARS as int
        } else {
            text.len() as int
        };
        let w = within_budget(text);
        assert(w == text.subrange(0, cut) + TRUNCATION_NOTE@);
        assert(w.subrange(0, cut) =~= text.subrange(0, cut));
        assert(w.subrange(cut, w.len() as int) =~= TRUNCATION_NOTE@);
    }
}

// Which nodes a diff context shows
/// The depths of a flat tree are well formed: the first node is a root and
/// each node is at most one level below the one before it.
pub open spec fn depths_ok(nodes: Seq<NodeV>) -> bool {
    &&& nodes.len() > 0 ==> nodes[0].depth == 0
    &&& forall|i: int| 0 < i < nodes.len() ==> #[trigger] nodes[i].depth <= nodes[i - 1].depth + 1
}

/// The last of the first `i` nodes at depth `d`.
pub open spec fn last_at(nodes: Seq<NodeV>, d: int, i: int) -> Option<int>
    decreases i,
{
    if i <= 0 {
        None
    } else if nodes[i - 1].depth == d {
        Some(i - 1)
    } else {
        last_at(nodes, d, i - 1)
    }
}

/// Node `j` is an ancestor of node `k`: for some depth above `k`'s, the last
/// node at that depth before `k`.
pub open spec fn ancestor_of(nodes: Seq<NodeV>, j: int, k: int) -> bool {
    0 <= k < nodes.len() && exists|d: int| 0 <= d < nodes[k].depth && #[trigger] last_at(nodes, d, k) == Some(j)
}

/// Node `j` is flagged in `base`, or is an ancestor of a node before `n`
/// flagged in `base`.
pub open spec fn flagged_or_ancestor(nodes: Seq<NodeV>, base: Seq<bool>, j: int, n: int) -> bool {
    base[j] || exists|k: int| 0 <= k < n && base[k] && #[trigger] ancestor_of(nodes, j, k)
}

proof fn lemma_last_at_bounds(nodes: Seq<NodeV>, d: int, i: int)
    ensures
        last_at(nodes, d, i) matches Some(j) ==> 0 <= j < i && nodes[j].depth == d,
        last_at(nodes, d, i) matches Some(j) ==> forall|m: int| j < m < i ==> (#[trigger] nodes[m]).depth != d,
        last_at(nodes, d, i) is None ==> forall|m: int| 0 <= m < i ==> (#[trigger] nodes[m]).depth != d,
    decreases i,
{
    if i > 0 {
        lemma_last_at_bounds(nodes, d, i - 1);
    }
}

/// Between a node at depth at most `d` and a later one below `d` lies a node
/// at depth `d`.
proof fn lemma_passes_depth(nodes: Seq<NodeV>, m: int, k: int, d: int)
    requires
        depths_ok(nodes),
        0 <= m < k < nodes.len(),
        nodes[m].depth <= d < nodes[k].depth,
    ensures
        exists|p: int| m <= p < k && #[trigger] nodes[p].depth == d,
    decreases k - m,
{
    assert(nodes[k].depth <= nodes[k - 1].depth + 1);
    if nodes[k - 1].depth == d {
        assert(nodes[k - 1].depth == d);
    } else {
        lemma_passes_depth(nodes, m, k - 1, d);
        let p = choose|p: int| m <= p < k - 1 && #[trigger] nodes[p].depth == d;
        assert(nodes[p].depth == d);
    }
}

/// Every depth above a node's has a last node before it.
proof fn lemma_ancestors_exist(nodes: Seq<NodeV>, k: int, d: int)
    requires
        depths_ok(nodes),
        0 <= k < nodes.len(),
        0 <= d < nodes[k].depth,
    ensures
        last_at(nodes, d, k) is Some,
{
    lemma_last_at_bounds(nodes, d, k);
    if last_at(nodes, d, k) is None {
        assert(k > 0);
        assert(nodes[0].depth == 0);
        lemma_passes_depth(nodes, 0, k, d);
        let p = choose|p: int| 0 <= p < k && #[trigger] nodes[p].depth == d;
        assert(nodes[p].depth != d);
    }
}

/// The ancestors of an ancestor `j` of `k` (the last node at depth `d`
/// before `k`) at depths above `d` are those of `k`.
proof fn lemma_ancestor_chain(nodes: Seq<NodeV>, k: int, d: int, e: int)
    requires
        depths_ok(nodes),
        0 <= k < nodes.len(),
        0 <= e < d < nodes[k].depth,
        last_at(nodes, d, k) is Some,
    ensures
        last_at(nodes, e, last_at(nodes, d, k)->0) == last_at(nodes, e, k),
{
    let j = last_at(nodes, d, k)->0;
    lemma_last_at_bounds(nodes, d, k);
    lemma_no_shallow_between(nodes, j, k, d);
    lemma_last_at_skip(nodes, e, j, k);
}

/// After the last node at depth `d` before `k` (below `d`) no node before `k`
/// is above depth `d`.
proof fn lemma_no_shallow_between(nodes: Seq<NodeV>, j: int, k: int, d: int)
    requires
        depths_ok(nodes),
        0 <= j < k < nodes.len(),
        d < nodes[k].depth,
        forall|m: int| j < m < k ==> (#[trigger] nodes[m]).depth != d,
    ensures
        forall|m: int| j < m < k ==> (#[trigger] nodes[m]).depth > d,
{
    assert forall|m: int| j < m < k implies (#[trigger] nodes[m]).depth > d by {
        if nodes[m].depth < d {
            lemma_passes_depth(nodes, m, k, d);
            let p = choose|p: int| m <= p < k && #[trigger] nodes[p].depth == d;
            assert(nodes[p].depth != d);
        }
    }
}

/// Nodes after `j` and before `k`, all deeper than `e`, and `j` itself
/// (deeper too) do not change the last node at depth `e`.
proof fn lemma_last_at_skip(nodes: Seq<NodeV>, e: int, j: int, k: int)
    requires
        0 <= j < k <= nodes.len(),
        forall|m: int| j <= m < k ==> (#[trigger] nodes[m]).depth > e,
    ensures
        last_at(nodes, e, j) == last_at(nodes, e, k),
    decreases k - j,
{
    if k > j {
        assert(nodes[k - 1].depth > e);
        if k - 1 > j {
            lemma_last_at_skip(nodes, e, j, k - 1);
        }
    }
}

/// The ancestors of node `i` at depths `0..=d`.
pub open spec fn up_to(nodes: Seq<NodeV>, i: int, d: int, j: int) -> bool {
    exists|e: int| 0 <= e <= d && #[trigger] last_at(nodes, e, i) == Some(j)
}

proof fn lemma_mark_up(nodes: Seq<NodeV>, flags: Seq<bool>, pad: Seq<usize>, i: int, d: int)
    requires
        depths_ok(nodes),
        0 <= i < nodes.len(),
        -1 <= d < nodes[i].depth,
        d < pad.len(),
        flags.len() == nodes.len(),
        forall|e: int| 0 <= e <= d ==> (#[trigger] last_at(nodes, e, i)) is Some && pad[e] == last_at(nodes, e, i)->0,
        forall|e: int, f: int|
            0 <= f < e <= d && flags[last_at(nodes, e, i)->0] ==> #[trigger] flags[last_at(nodes, f, i)->0]
                && #[trigger] last_at(nodes, e, i) is Some,
    ensures
        mark_up(flags, pad, d) == Seq::new(flags.len(), |j: int| flags[j] || up_to(nodes, i, d, j)),
    decreases d + 1,
{
    let target = Seq::new(flags.len(), |j: int| flags[j] || up_to(nodes, i, d, j));
    if d < 0 {
        assert(mark_up(flags, pad, d) =~= target);
    } else {
        let a = last_at(nodes, d, i)->0;
        lemma_last_at_bounds(nodes, d, i);
        if flags[pad[d] as int] {
            assert forall|j: int| 0 <= j < flags.len() && up_to(nodes, i, d, j) implies flags[j] by {
                let e = choose|e: int| 0 <= e <= d && #[trigger] last_at(nodes, e, i) == Some(j);
                if e < d {
                    assert(flags[last_at(nodes, e, i)->0]);
                }
            }
            assert(mark_up(flags, pad, d) =~= target);
        } else {
            let f2 = flags.update(a, true);
            assert forall|e: int, f: int|
                0 <= f < e <= d - 1 && f2[last_at(nodes, e, i)->0] implies #[trigger] f2[last_at(nodes, f, i)->0]
                && #[trigger] last_at(nodes, e, i) is Some by {
                lemma_last_at_bounds(nodes, e, i);
                lemma_last_at_bounds(nodes, f, i);
                assert(last_at(nodes, e, i)->0 != a);
                assert(flags[last_at(nodes, e, i)->0]);
            }
            lemma_mark_up(nodes, f2, pad, i, d - 1);
            assert forall|j: int| 0 <= j < flags.len() implies #[trigger] mark_up(flags, pad, d)[j] == target[j] by {
                if up_to(nodes, i, d, j) && !up_to(nodes, i, d - 1, j) {
                    let e = choose|e: int| 0 <= e <= d && #[trigger] last_at(nodes, e, i) == Some(j);
                    assert(e == d);
                }
                if j == a {
                    assert(last_at(nodes, d, i) == Some(j));
                }
                if up_to(nodes, i, d - 1, j) {
                    let e = choose|e: int| 0 <= e <= d - 1 && #[trigger] last_at(nodes, e, i) == Some(j);
                    assert(up_to(nodes, i, d, j));
                }
            }
            assert(mark_up(flags, pad, d) =~= target);
        }
    }
}

proof fn lemma_depth_bounds(nodes: Seq<NodeV>, i: int)
    requires
        depths_ok(nodes),
        0 <= i < nodes.len(),
    ensures
        nodes[i].depth <= i,
        nodes[i].depth <= max_depth(nodes),
    decreases nodes.len(),
{
    lemma_depth_le_index(nodes, i);
    lemma_depth_le_max(nodes, i);
}

proof fn lemma_depth_le_index(nodes: Seq<NodeV>, i: int)
    requires
        depths_ok(nodes),
        0 <= i < nodes.len(),
    ensures
        nodes[i].depth <= i,
    decreases i,
{
    if i > 0 {
        lemma_depth_le_index(nodes, i - 1);
    }
}

proof fn lemma_depth_le_max(nodes: Seq<NodeV>, i: int)
    requires
        0 <= i < nodes.len(),
    ensures
        nodes[i].depth <= max_depth(nodes),
    decreases nodes.len(),
{
    if i < nodes.len() - 1 {
        lemma_depth_le_max(nodes.drop_last(), i);
        assert(nodes.drop_last()[i] == nodes[i]);
    }
}

proof fn lemma_pad_step(nodes: Seq<NodeV>, pad: Seq<usize>, i: int)
    requires
        0 <= i < nodes.len(),
        nodes.len() <= usize::MAX,
        nodes[i].depth < pad.len(),
        forall|d: int| 0 <= d < pad.len() && (#[trigger] last_at(nodes, d, i)) is Some ==> pad[d] == last_at(nodes, d, i)->0,
    ensures
        forall|d: int|
            0 <= d < pad.len() && (#[trigger] last_at(nodes, d, i + 1)) is Some ==> pad.update(
                nodes[i].depth as int,
                i as usize,
            )[d] == last_at(nodes, d, i + 1)->0,
{
    let pad2 = pad.update(nodes[i].depth as int, i as usize);
    assert forall|d: int| 0 <= d < pad.len() && (#[trigger] last_at(nodes, d, i + 1)) is Some implies pad2[d]
        == last_at(nodes, d, i + 1)->0 by {
        if d == nodes[i].depth {
            assert(last_at(nodes, d, i + 1) == Some(i));
        } else {
            assert(last_at(nodes, d, i + 1) == last_at(nodes, d, i));
        }
    }
}

proof fn lemma_first_unflagged_below(nodes: Seq<NodeV>, base: Seq<bool>, i: int)
    requires
        0 <= i < nodes.len(),
        base.len() == nodes.len(),
    ensures
        flagged_or_ancestor(nodes, base, i, i) == base[i],
{
    if exists|k: int| 0 <= k < i && base[k] && #[trigger] ancestor_of(nodes, i, k) {
        let k = choose|k: int| 0 <= k < i && base[k] && #[trigger] ancestor_of(nodes, i, k);
        let d = choose|d: int| 0 <= d < nodes[k].depth && #[trigger] last_at(nodes, d, k) == Some(i);
        lemma_last_at_bounds(nodes, d, k);
    }
}

proof fn lemma_flags_chain(nodes: Seq<NodeV>, base: Seq<bool>, flags: Seq<bool>, i: int)
    requires
        depths_ok(nodes),
        0 <= i < nodes.len(),
        base.len() == nodes.len(),
        flags == Seq::new(nodes.len(), |j: int| flagged_or_ancestor(nodes, base, j, i)),
    ensures
        forall|e: int, f: int|
            0 <= f < e <= nodes[i].depth - 1 && flags[last_at(nodes, e, i)->0] ==> #[trigger] flags[last_at(
                nodes,
                f,
                i,
            )->0] && #[trigger] last_at(nodes, e, i) is Some,
{
    assert forall|e: int, f: int|
        0 <= f < e <= nodes[i].depth - 1 && flags[last_at(nodes, e, i)->0] implies #[trigger] flags[last_at(
        nodes,
        f,
        i,
    )->0] && #[trigger] last_at(nodes, e, i) is Some by {
        lemma_ancestors_exist(nodes, i, e);
        lemma_ancestors_exist(nodes, i, f);
        let a = last_at(nodes, e, i)->0;
        let b = last_at(nodes, f, i)->0;
        lemma_last_at_bounds(nodes, e, i);
        lemma_last_at_bounds(nodes, f, i);
        lemma_ancestor_chain(nodes, i, e, f);
        assert(last_at(nodes, f, a) == Some(b));
        assert(flagged_or_ancestor(nodes, base, a, i));
        if base[a] {
            assert(ancestor_of(nodes, b, a));
        } else {
            let k = choose|k: int| 0 <= k < i && base[k] && #[trigger] ancestor_of(nodes, a, k);
            let d = choose|d: int| 0 <= d < nodes[k].depth && #[trigger] last_at(nodes, d, k) == Some(a);
            lemma_last_at_bounds(nodes, d, k);
            lemma_ancestor_chain(nodes, k, d, f);
            assert(last_at(nodes, f, k) == Some(b));
            assert(ancestor_of(nodes, b, k));
        }
        assert(flagged_or_ancestor(nodes, base, b, i));
    }
}

proof fn lemma_mark_step(nodes: Seq<NodeV>, base: Seq<bool>, flags: Seq<bool>, pad2: Seq<usize>, i: int)
    requires
        depths_ok(nodes),
        0 <= i < nodes.len(),
        base.len() == nodes.len(),
        base[i],
        nodes[i].depth > 0,
        nodes[i].depth <= pad2.len(),
        flags == Seq::new(nodes.len(), |j: int| flagged_or_ancestor(nodes, base, j, i)),
        forall|d: int|
            0 <= d < pad2.len() && (#[trigger] last_at(nodes, d, i + 1)) is Some ==> pad2[d] == last_at(nodes, d, i + 1)->0,
    ensures
        mark_up(flags, pad2, nodes[i].depth - 1) == Seq::new(
            nodes.len(),
            |j: int| flagged_or_ancestor(nodes, base, j, i + 1),
        ),
{
    let dd = nodes[i].depth;
    assert forall|e: int| 0 <= e <= dd - 1 implies (#[trigger] last_at(nodes, e, i)) is Some && pad2[e] == last_at(
        nodes,
        e,
        i,
    )->0 by {
        lemma_ancestors_exist(nodes, i, e);
        assert(last_at(nodes, e, i + 1) == last_at(nodes, e, i));
    }
    lemma_flags_chain(nodes, base, flags, i);
    lemma_mark_up(nodes, flags, pad2, i, dd - 1);
    let f2 = mark_up(flags, pad2, dd - 1);
    let next = Seq::new(nodes.len(), |j: int| flagged_or_ancestor(nodes, base, j, i + 1));
    assert forall|j: int| 0 <= j < nodes.len() implies #[trigger] f2[j] == next[j] by {
        if up_to(nodes, i, dd - 1, j) {
            let e = choose|e: int| 0 <= e <= dd - 1 && #[trigger] last_at(nodes, e, i) == Some(j);
            assert(ancestor_of(nodes, j, i));
        }
        if ancestor_of(nodes, j, i) {
            let e = choose|e: int| 0 <= e < nodes[i].depth && #[trigger] last_at(nodes, e, i) == Some(j);
            assert(up_to(nodes, i, dd - 1, j));
        }
        if flagged_or_ancestor(nodes, base, j, i + 1) && !flagged_or_ancestor(nodes, base, j, i) {
            let k = choose|k: int| 0 <= k < i + 1 && base[k] && #[trigger] ancestor_of(nodes, j, k);
            assert(k == i);
        }
    }
    assert(f2 =~= next);
}

proof fn lemma_no_mark_step(nodes: Seq<NodeV>, base: Seq<bool>, flags: Seq<bool>, i: int)
    requires
        0 <= i < nodes.len(),
        base.len() == nodes.len(),
        !base[i] || nodes[i].depth == 0,
        flags == Seq::new(nodes.len(), |j: int| flagged_or_ancestor(nodes, base, j, i)),
    ensures
        flags == Seq::new(nodes.len(), |j: int| flagged_or_ancestor(nodes, base, j, i + 1)),
{
    let next = Seq::new(nodes.len(), |j: int| flagged_or_ancestor(nodes, base, j, i + 1));
    assert forall|j: int| 0 <= j < nodes.len() implies #[trigger] flags[j] == next[j] by {
        if flagged_or_ancestor(nodes, base, j, i + 1) && !flagged_or_ancestor(nodes, base, j, i) {
            let k = choose|k: int| 0 <= k < i + 1 && base[k] && #[trigger] ancestor_of(nodes, j, k);
            assert(k == i);
            let d = choose|d: int| 0 <= d < nodes[k].depth && #[trigger] last_at(nodes, d, k) == Some(j);
        }
    }
    assert(flags =~= next);
}

proof fn lemma_mark_ancestors_exact(nodes: Seq<NodeV>, base: Seq<bool>, flags: Seq<bool>, pad: Seq<usize>, i: int)
    requires
        depths_ok(nodes),
        nodes.len() <= usize::MAX,
        0 <= i <= nodes.len(),
        base.len() == nodes.len(),
        flags == Seq::new(nodes.len(), |j: int| flagged_or_ancestor(nodes, base, j, i)),
        pad.len() == depth_slots(nodes),
        forall|d: int| 0 <= d < pad.len() && (#[trigger] last_at(nodes, d, i)) is Some ==> pad[d] == last_at(nodes, d, i)->0,
    ensures
        mark_ancestors(nodes, flags, pad, i) == Seq::new(
            nodes.len(),
            |j: int| flagged_or_ancestor(nodes, base, j, nodes.len() as int),
        ),
    decreases nodes.len() - i,
{
    if i < nodes.len() {
        let dd = nodes[i].depth;
        lemma_depth_bounds(nodes, i);
        assert(dd < pad.len());
        let pad2 = pad.update(dd as int, i as usize);
        lemma_pad_step(nodes, pad, i);
        lemma_first_unflagged_below(nodes, base, i);
        assert(flags[i] == base[i]);
        if base[i] && dd > 0 {
            lemma_mark_step(nodes, base, flags, pad2, i);
            lemma_mark_ancestors_exact(nodes, base, mark_up(flags, pad2, dd - 1), pad2, i + 1);
        } else {
            lemma_no_mark_step(nodes, base, flags, i);
            lemma_mark_ancestors_exact(nodes, base, flags, pad2, i + 1);
        }
    } else {
        assert(flags =~= Seq::new(
            nodes.len(),
            |j: int| flagged_or_ancestor(nodes, base, j, nodes.len() as int),
        ));
    }
}

/// In a tree with well-formed depths, a diff context shows exactly the
/// changed nodes and their ancestors (for each depth above a changed node,
/// the last node at that depth before it); the shown nodes are listed in
/// tree order by [`diff_context_lines`].
pub proof fn law_context_shows_changes_and_ancestors(nodes: Seq<NodeV>)
    requires
        depths_ok(nodes),
        nodes.len() <= usize::MAX,
    ensures
        context_shown(nodes).len() == nodes.len(),
        forall|j: int|
            0 <= j < nodes.len() ==> (#[trigger] context_shown(nodes)[j] <==> (changed(nodes[j]) || exists|k: int|
                0 <= k < nodes.len() && changed(nodes[k]) && #[trigger] ancestor_of(nodes, j, k))),
{
    let base = Seq::new(nodes.len(), |i: int| changed(nodes[i]));
    let pad = Seq::new(depth_slots(nodes), |k: int| 0usize);
    assert(base =~= Seq::new(nodes.len(), |j: int| flagged_or_ancestor(nodes, base, j, 0)));
    lemma_mark_ancestors_exact(nodes, base, base, pad, 0);
    let r = context_shown(nodes);
    assert forall|j: int| 0 <= j < nodes.len() implies (#[trigger] context_shown(nodes)[j] <==> (changed(nodes[j])
        || exists|k: int| 0 <= k < nodes.len() && changed(nodes[k]) && #[trigger] ancestor_of(nodes, j, k))) by {
        assert(r[j] == flagged_or_ancestor(nodes, base, j, nodes.len() as int));
        if exists|k: int| 0 <= k < nodes.len() && changed(nodes[k]) && #[trigger] ancestor_of(nodes, j, k) {
            let k = choose|k: int| 0 <= k < nodes.len() && changed(nodes[k]) && #[trigger] ancestor_of(nodes, j, k);
            assert(base[k]);
        }
        if exists|k: int| 0 <= k < nodes.len() && base[k] && #[trigger] ancestor_of(nodes, j, k) {
            let k = choose|k: int| 0 <= k < nodes.len() && base[k] && #[trigger] ancestor_of(nodes, j, k);
            assert(changed(nodes[k]));
        }
    }
}

/// The line of node `i` in a diff context: its status marker, two spaces
/// per depth level, its kind in brackets and its text.
pub open spec fn diff_line(nodes: Seq<NodeV>, i: int) -> Seq<char> {
    status_marker(nodes[i].diff_status) + repeat("  "@, nodes[i].depth as nat) + "["@ + kind_name(nodes[i].node_type)
        + "] "@ + nodes[i].text
}

/// Node `j` is changed or an ancestor of a changed node.
pub open spec fn in_diff_context(nodes: Seq<NodeV>, j: int) -> bool {
    changed(nodes[j]) || exists|k: int| 0 <= k < nodes.len() && changed(nodes[k]) && #[trigger] ancestor_of(nodes, j, k)
}

/// The positions `0..n` of the nodes shown.
pub open spec fn shown_positions(shown: Seq<bool>, n: int) -> Seq<int> {
    Seq::new(n as nat, |i: int| i).filter(|i: int| shown[i])
}

proof fn lemma_diff_lines_filter(nodes: Seq<NodeV>, shown: Seq<bool>, n: int)
    requires
        0 <= n <= nodes.len(),
    ensures
        diff_context_lines(nodes, shown, n) == shown_positions(shown, n).map_values(|i: int| diff_line(nodes, i)),
    decreases n,
{
    let f = |i: int| shown[i];
    if n == 0 {
        assert(shown_positions(shown, n) =~= Seq::<int>::empty());
        assert(diff_context_lines(nodes, shown, n) =~= Seq::<Seq<char>>::empty());
    } else {
        lemma_diff_lines_filter(nodes, shown, n - 1);
        let r = Seq::new((n - 1) as nat, |i: int| i);
        assert(Seq::new(n as nat, |i: int| i) =~= r.push(n - 1));
        r.lemma_filter_push(n - 1, f);
        assert(diff_context_lines(nodes, shown, n) =~= shown_positions(shown, n).map_values(
            |i: int| diff_line(nodes, i),
        ));
    }
}

proof fn lemma_filter_agree(s: Seq<int>, f: spec_fn(int) -> bool, g: spec_fn(int) -> bool)
    requires
        forall|k: int| 0 <= k < s.len() ==> f(#[trigger] s[k]) == g(s[k]),
    ensures
        s.filter(f) == s.filter(g),
    decreases s.len(),
{
    if s.len() == 0 {
        assert(s.filter(f) =~= Seq::<int>::empty());
        assert(s.filter(g) =~= Seq::<int>::empty());
    } else {
        let p = s.drop_last();
        assert forall|k: int| 0 <= k < p.len() implies f(#[trigger] p[k]) == g(p[k]) by {
            assert(p[k] == s[k]);
        }
        lemma_filter_agree(p, f, g);
        assert(s =~= p.push(s.last()));
        p.lemma_filter_push(s.last(), f);
        p.lemma_filter_push(s.last(), g);
        assert(f(s[s.len() - 1]) == g(s[s.len() - 1]));
    }
}

/// In diff mode, with well-formed depths, the context lists after the
/// diff heading the lines of exactly the changed nodes and their ancestors,
/// in tree order (then the byte patterns); when the whole text fits the
/// budget it is sent as it is.
pub proof fn law_diff_context_lines(core: &CoreState)
    requires
        core.is_diff_mode,
        depths_ok(nodes_view(core.all_nodes@)),
        nodes_view(core.all_nodes@).len() <= usize::MAX,
    ensures
        ({
            let nodes = nodes_view(core.all_nodes@);
            let lines = Seq::new(nodes.len(), |i: int| i).filter(|i: int| in_diff_context(nodes, i)).map_values(
                |i: int| diff_line(nodes, i),
            );
            &&& context_lines(core) == context_lines(core).subrange(0, 10) + seq![DIFF_HEADING@] + lines
                + pattern_lines(nodes, nodes.len() as int)
            &&& context_lines(core)[7] == "ECU: "@ + core.ecu_name@
            &&& vstd::utf8::encode_utf8(join(context_lines(core), "\n"@)).len() <= MAX_CONTEXT_CHARS ==> mdd_context(
                core,
            ) == join(context_lines(core), "\n"@)
        }),
{
    let nodes = nodes_view(core.all_nodes@);
    let shown = context_shown(nodes);
    law_context_shows_changes_and_ancestors(nodes);
    lemma_diff_lines_filter(nodes, shown, nodes.len() as int);
    let f = |i: int| shown[i];
    let g = |i: int| in_diff_context(nodes, i);
    let idx = Seq::new(nodes.len(), |i: int| i);
    assert forall|k: int| 0 <= k < idx.len() implies f(#[trigger] idx[k]) == g(idx[k]) by {
        assert(shown[k] == in_diff_context(nodes, k));
    }
    lemma_filter_agree(idx, f, g);
    law_budget(join(context_lines(core), "\n"@));
    let cl = context_lines(core);
    assert(cl =~= cl.subrange(0, 10) + seq![DIFF_HEADING@] + diff_context_lines(nodes, shown, nodes.len() as int)
        + pattern_lines(nodes, nodes.len() as int));
}

} // verus!
