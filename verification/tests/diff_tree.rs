use mdd_core::diff::diff_tree::{
    build_changes_section, compute_summary, flat_to_hier, flatten_merged, mark_subtree, match_key,
    merge_children, HierNode, MergedNode,
};
use mdd_core::tree::{DetailContent, DetailSectionData, DiffStatus, NodePayload, NodeType, TreeNode};

fn make_node(text: &str, depth: usize, has_children: bool) -> TreeNode {
    TreeNode {
        depth,
        text: text.to_owned(),
        expanded: false,
        has_children,
        detail_sections: Vec::new(),
        node_type: NodeType::Default,
        payload: NodePayload::default(),
        parent_idx: None,
        diff_status: None,
        old_text: None,
    }
}

fn make_node_with_sections(text: &str, depth: usize, sections: Vec<DetailSectionData>) -> TreeNode {
    TreeNode {
        depth,
        text: text.to_owned(),
        expanded: false,
        has_children: false,
        detail_sections: sections,
        node_type: NodeType::Default,
        payload: NodePayload::default(),
        parent_idx: None,
        diff_status: None,
        old_text: None,
    }
}

fn plain_section(title: &str, line: &str) -> DetailSectionData {
    DetailSectionData::new(title.to_owned(), DetailContent::PlainText(vec![line.to_owned()]), false)
}

#[test]
fn flat_to_hier_preserves_structure() {
    let nodes = vec![
        make_node("A", 0, true),
        make_node("A1", 1, false),
        make_node("A2", 1, false),
        make_node("B", 0, false),
    ];

    let hier = flat_to_hier(&nodes);
    assert_eq!(hier.len(), 2);
    let a = hier.first().expect("first element");
    let b = hier.get(1).expect("second element");
    assert_eq!(a.tree_node.text, "A");
    assert_eq!(a.children.len(), 2);
    assert_eq!(a.children.first().expect("first child").tree_node.text, "A1");
    assert_eq!(a.children.get(1).expect("second child").tree_node.text, "A2");
    assert_eq!(b.tree_node.text, "B");
    assert!(b.children.is_empty());
}

#[test]
fn flat_to_hier_handles_deep_nesting() {
    let nodes = vec![
        make_node("Root", 0, true),
        make_node("L1", 1, true),
        make_node("L2", 2, true),
        make_node("L3", 3, false),
    ];

    let hier = flat_to_hier(&nodes);
    assert_eq!(hier.len(), 1);
    let root = hier.first().expect("root");
    let l1 = root.children.first().expect("l1");
    let l2 = l1.children.first().expect("l2");
    let l3 = l2.children.first().expect("l3");
    assert_eq!(root.children.len(), 1);
    assert_eq!(l1.children.len(), 1);
    assert_eq!(l2.children.len(), 1);
    assert_eq!(l3.tree_node.text, "L3");
}

#[test]
fn identical_trees_produce_unchanged() {
    let tree = vec![
        make_node("Section", 0, true),
        make_node("Child1", 1, false),
        make_node("Child2", 1, false),
    ];

    let hier_old = flat_to_hier(&tree);
    let hier_new = flat_to_hier(&tree);
    let merged = merge_children(&hier_old, &hier_new);

    assert_eq!(merged.len(), 1);
    let first = merged.first().expect("first merged");
    assert_eq!(first.node.diff_status, Some(DiffStatus::Unchanged));
    assert!(first.children.iter().all(|c| c.node.diff_status == Some(DiffStatus::Unchanged)));
}

#[test]
fn added_node_detected() {
    let old_tree = vec![make_node("Section", 0, true), make_node("Child1", 1, false)];
    let new_tree = vec![
        make_node("Section", 0, true),
        make_node("Child1", 1, false),
        make_node("Child2", 1, false),
    ];

    let merged = merge_children(&flat_to_hier(&old_tree), &flat_to_hier(&new_tree));

    let section = merged.first().expect("first merged");
    assert_eq!(section.node.diff_status, Some(DiffStatus::Modified));
    assert_eq!(section.children.len(), 2);
    assert_eq!(
        section.children.first().expect("first child").node.diff_status,
        Some(DiffStatus::Unchanged)
    );
    assert_eq!(
        section.children.get(1).expect("second child").node.diff_status,
        Some(DiffStatus::Added)
    );
}

#[test]
fn removed_node_detected() {
    let old_tree = vec![
        make_node("Section", 0, true),
        make_node("Child1", 1, false),
        make_node("Child2", 1, false),
    ];
    let new_tree = vec![make_node("Section", 0, true), make_node("Child1", 1, false)];

    let merged = merge_children(&flat_to_hier(&old_tree), &flat_to_hier(&new_tree));

    let section = merged.first().expect("first merged");
    assert_eq!(section.node.diff_status, Some(DiffStatus::Modified));
    assert_eq!(section.children.len(), 2);
    assert_eq!(
        section.children.first().expect("first child").node.diff_status,
        Some(DiffStatus::Unchanged)
    );
    assert_eq!(
        section.children.get(1).expect("second child").node.diff_status,
        Some(DiffStatus::Removed)
    );
}

#[test]
fn modified_content_detected() {
    let old_tree = vec![make_node_with_sections("Item", 0, vec![plain_section("Overview", "old value")])];
    let new_tree = vec![make_node_with_sections("Item", 0, vec![plain_section("Overview", "new value")])];

    let merged = merge_children(&flat_to_hier(&old_tree), &flat_to_hier(&new_tree));

    assert_eq!(merged.first().expect("first merged").node.diff_status, Some(DiffStatus::Modified));
}

#[test]
fn parent_modified_when_child_changes() {
    let old_tree = vec![make_node("Parent", 0, true), make_node("Child", 1, false)];
    let new_tree = vec![
        make_node("Parent", 0, true),
        make_node_with_sections("Child", 1, vec![plain_section("New", "data")]),
    ];

    let merged = merge_children(&flat_to_hier(&old_tree), &flat_to_hier(&new_tree));

    let parent = merged.first().expect("first merged");
    assert_eq!(parent.node.diff_status, Some(DiffStatus::Modified));
    assert_eq!(
        parent.children.first().expect("first child").node.diff_status,
        Some(DiffStatus::Modified)
    );
}

#[test]
fn match_key_strips_service_prefix() {
    let node = make_node("[Service] 0x2E01 - WriteDID", 0, false);
    assert_eq!(match_key(&node), "[Service] 0x2E01 - WriteDID");
}

#[test]
fn match_key_strips_job_prefix() {
    let node = make_node("[Job] MyJob", 0, false);
    assert_eq!(match_key(&node), "[Job] MyJob");
}

#[test]
fn match_key_strips_count_suffix() {
    let node = make_node("Diag-Comms (5 services, 2 jobs)", 0, false);
    assert_eq!(match_key(&node), "Diag-Comms");
}

#[test]
fn match_key_preserves_plain_text() {
    let node = make_node("Variants", 0, false);
    assert_eq!(match_key(&node), "Variants");
}

#[test]
fn match_key_strips_base_suffix() {
    let node = make_node("MyVariant [base]", 0, false);
    assert_eq!(match_key(&node), "MyVariant");
}

#[test]
fn match_key_handles_service_without_id() {
    let node = make_node("[Service] ReadDID", 0, false);
    assert_eq!(match_key(&node), "[Service] ReadDID");
}

fn leaf(text: &str, depth: usize, status: DiffStatus, own_changed: bool) -> MergedNode {
    let mut n = make_node(text, depth, false);
    n.diff_status = Some(status);
    MergedNode { node: n, children: Vec::new(), own_changed }
}

#[test]
fn summary_counts_section_children() {
    let merged = vec![MergedNode {
        node: {
            let mut n = make_node("Section", 0, true);
            n.node_type = NodeType::SectionHeader;
            n.diff_status = Some(DiffStatus::Modified);
            n
        },
        children: vec![
            leaf("Added", 1, DiffStatus::Added, true),
            leaf("Removed", 1, DiffStatus::Removed, true),
            leaf("Unchanged", 1, DiffStatus::Unchanged, false),
        ],
        own_changed: false,
    }];

    let summary = compute_summary(&merged);
    assert_eq!(summary.added, 1);
    assert_eq!(summary.removed, 1);
    assert_eq!(summary.modified, 0);
    assert_eq!(summary.unchanged, 1);
}

#[test]
fn flatten_sets_correct_depths() {
    let merged = vec![MergedNode {
        node: make_node("Root", 99, true),
        children: vec![MergedNode {
            node: make_node("Child", 99, true),
            children: vec![MergedNode {
                node: make_node("Grandchild", 99, false),
                children: Vec::new(),
                own_changed: false,
            }],
            own_changed: false,
        }],
        own_changed: false,
    }];

    let flat = flatten_merged(&merged, 0);
    assert_eq!(flat.len(), 3);
    let f0 = flat.first().expect("first flat");
    let f1 = flat.get(1).expect("second flat");
    let f2 = flat.get(2).expect("third flat");
    assert_eq!(f0.depth, 0);
    assert_eq!(f0.text, "Root");
    assert_eq!(f1.depth, 1);
    assert_eq!(f1.text, "Child");
    assert_eq!(f2.depth, 2);
    assert_eq!(f2.text, "Grandchild");
}

#[test]
fn changes_section_built_for_modified_text() {
    let old_node = make_node("Version 1", 0, false);
    let new_node = make_node("Version 2", 0, false);

    let changes = build_changes_section(&old_node, &new_node);
    assert!(changes.is_some());
    let section = changes.expect("checked above");
    assert_eq!(section.title, "Changes");
}

#[test]
fn no_changes_for_identical_nodes() {
    let node = make_node("Same", 0, false);
    let changes = build_changes_section(&node, &node);
    assert!(changes.is_none());
}

#[test]
fn mark_subtree_sets_all_descendants() {
    let hier = HierNode {
        tree_node: make_node("Root", 0, true),
        children: vec![
            HierNode {
                tree_node: make_node("A", 1, true),
                children: vec![HierNode { tree_node: make_node("A1", 2, false), children: Vec::new() }],
            },
            HierNode { tree_node: make_node("B", 1, false), children: Vec::new() },
        ],
    };

    let merged = mark_subtree(&hier, DiffStatus::Added);
    let c0 = merged.children.first().expect("first child");
    let c1 = merged.children.get(1).expect("second child");
    assert_eq!(merged.node.diff_status, Some(DiffStatus::Added));
    assert_eq!(c0.node.diff_status, Some(DiffStatus::Added));
    assert_eq!(
        c0.children.first().expect("first grandchild").node.diff_status,
        Some(DiffStatus::Added)
    );
    assert_eq!(c1.node.diff_status, Some(DiffStatus::Added));
}

#[test]
fn deep_change_does_not_propagate_to_grandparent() {
    let old_tree = vec![
        make_node("Root", 0, true),
        make_node("Mid", 1, true),
        make_node("Leaf", 2, false),
    ];
    let new_tree = vec![
        make_node("Root", 0, true),
        make_node("Mid", 1, true),
        make_node_with_sections("Leaf", 2, vec![plain_section("New", "data")]),
    ];

    let merged = merge_children(&flat_to_hier(&old_tree), &flat_to_hier(&new_tree));

    let root = merged.first().expect("root");
    let mid = root.children.first().expect("mid");
    let leaf_node = mid.children.first().expect("leaf");
    assert_eq!(leaf_node.node.diff_status, Some(DiffStatus::Modified));
    assert_eq!(mid.node.diff_status, Some(DiffStatus::Modified));
    assert_eq!(root.node.diff_status, Some(DiffStatus::Unchanged));
}

#[test]
fn services_matched_by_short_name_not_id() {
    let old_tree = vec![
        make_node("Diag-Comms (2 services, 0 jobs)", 0, true),
        make_node("[Service] 0x22   - ReadDID", 1, false),
        make_node("[Service] 0x2E01 - WriteDID", 1, false),
    ];
    let new_tree = vec![
        make_node("Diag-Comms (2 services, 0 jobs)", 0, true),
        make_node("[Service] 0x22   - ReadDID", 1, false),
        make_node("[Service] 0x2E02 - WriteDID", 1, false),
    ];

    let merged = merge_children(&flat_to_hier(&old_tree), &flat_to_hier(&new_tree));

    assert_eq!(merged.len(), 1);
    let diag_comms = merged.first().expect("first merged");
    assert_eq!(diag_comms.children.len(), 3);
    assert_eq!(
        diag_comms.children.first().expect("first child").node.diff_status,
        Some(DiffStatus::Unchanged)
    );
    assert_eq!(
        diag_comms.children.get(1).expect("second child").node.diff_status,
        Some(DiffStatus::Added)
    );
    assert_eq!(
        diag_comms.children.get(2).expect("third child").node.diff_status,
        Some(DiffStatus::Removed)
    );
}

#[test]
fn flatten_of_hier_round_trips_texts() {
    let nodes = vec![
        make_node("A", 0, true),
        make_node("A1", 1, true),
        make_node("A11", 2, false),
        make_node("B", 0, false),
    ];
    let merged = merge_children(&flat_to_hier(&nodes), &flat_to_hier(&nodes));
    let flat = flatten_merged(&merged, 0);
    let texts: Vec<&str> = flat.iter().map(|n| n.text.as_str()).collect();
    assert_eq!(texts, vec!["A", "A1", "A11", "B"]);
    let depths: Vec<usize> = flat.iter().map(|n| n.depth).collect();
    assert_eq!(depths, vec![0, 1, 2, 0]);
    assert!(flat.iter().all(|n| n.diff_status == Some(DiffStatus::Unchanged)));
}
