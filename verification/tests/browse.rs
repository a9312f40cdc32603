use mdd_core::browse::{
    build_visible, clear_search, cycle_search_scope, diff_display_name, expand_all,
    extract_service_id, navigate, node_path, push_search, replace_header_count, set_search_scope,
    strip_count_suffix, toggle_expand, toggle_hide_unchanged, toggle_sort, CoreState,
    DiagcommSortMode, JumpTarget, JumpTargetType, SearchScope, TabManager,
};
use mdd_core::tree::{DiffStatus, NodePayload, NodeType, ServiceListType, TreeNode};

fn node(text: &str, depth: usize, has_children: bool) -> TreeNode {
    TreeNode {
        depth,
        text: text.to_owned(),
        expanded: false,
        has_children,
        detail_sections: Vec::new(),
        node_type: NodeType::Default,
        payload: NodePayload::default(),
        parent_idx: None,
        diff_status: None,
        old_text: None,
    }
}

fn service(text: &str, name: &str, depth: usize) -> TreeNode {
    let mut n = node(text, depth, false);
    n.node_type = NodeType::Service;
    n.payload = NodePayload::DiagComm { service_short_name: name.to_owned() };
    n
}

fn list_header(text: &str, depth: usize, slt: ServiceListType) -> TreeNode {
    let mut n = node(text, depth, true);
    n.node_type = NodeType::SectionHeader;
    n.payload = NodePayload::ServiceListHeader { service_list_type: slt };
    n
}

fn core_with(nodes: Vec<TreeNode>) -> CoreState {
    let mut core = CoreState::default();
    core.all_nodes = nodes;
    core.visible = build_visible(&core);
    core
}

fn texts(core: &CoreState) -> Vec<String> {
    core.visible.iter().map(|&i| core.all_nodes[i].text.clone()).collect()
}

#[test]
fn collapsed_nodes_hide_their_subtree() {
    let mut root = node("Root", 0, true);
    root.expanded = false;
    let core = core_with(vec![root, node("Child", 1, false), node("Other", 0, false)]);
    assert_eq!(core.visible, vec![0, 2]);
}

#[test]
fn toggle_expand_shows_children() {
    let mut core = core_with(vec![node("Root", 0, true), node("Child", 1, false)]);
    let shown = toggle_expand(&mut core, 0);
    assert_eq!(shown.len(), 2);
    assert_eq!(shown[1].text, "Child");
    assert!(core.all_nodes[0].expanded);
    let shown = toggle_expand(&mut core, 0);
    assert_eq!(shown.len(), 1);
}

#[test]
fn expand_all_shows_every_node() {
    let mut core = core_with(vec![
        node("Root", 0, true),
        node("Mid", 1, true),
        node("Leaf", 2, false),
    ]);
    let shown = expand_all(&mut core);
    assert_eq!(shown.len(), 3);
}

#[test]
fn hide_unchanged_filters_diff_nodes() {
    let mut a = node("A", 0, false);
    a.diff_status = Some(DiffStatus::Unchanged);
    let mut b = node("B", 0, false);
    b.diff_status = Some(DiffStatus::Added);
    let mut core = core_with(vec![a, b]);
    let shown = toggle_hide_unchanged(&mut core);
    assert_eq!(shown.len(), 1);
    assert_eq!(shown[0].text, "B");
}

#[test]
fn search_keeps_matches_and_ancestors() {
    let mut root = node("Root", 0, true);
    root.expanded = true;
    let mut core = core_with(vec![root, node("ReadDID", 1, false), node("WriteDID", 1, false)]);
    let res = push_search(&mut core, "read".to_owned(), None);
    assert_eq!(res.match_count, 1);
    assert_eq!(res.scope, "All");
    assert_eq!(texts(&core), vec!["Root", "ReadDID"]);
    let res = push_search(&mut core, "write".to_owned(), Some("or"));
    assert_eq!(res.match_count, 2);
    assert_eq!(texts(&core), vec!["Root", "ReadDID", "WriteDID"]);
    let shown = clear_search(&mut core);
    assert_eq!(shown.len(), 3);
}

#[test]
fn search_scope_cycles_and_parses() {
    let mut core = core_with(vec![]);
    assert_eq!(cycle_search_scope(&mut core), "Variants");
    assert_eq!(set_search_scope(&mut core, "Diag-Comms"), Ok("Diag-Comms".to_owned()));
    assert_eq!(set_search_scope(&mut core, "Nope"), Err("Unknown scope: Nope".to_owned()));
    assert_eq!(SearchScope::Responses.next().to_string(), "All");
}

#[test]
fn header_count_helpers() {
    assert_eq!(strip_count_suffix("Diag-Comms (5)"), "Diag-Comms");
    assert_eq!(strip_count_suffix("Plain"), "Plain");
    assert_eq!(replace_header_count("Requests (3)", 7), "Requests (7)");
    assert_eq!(replace_header_count("Requests", 7), "Requests (7)");
}

#[test]
fn service_ids_are_read_from_text() {
    assert_eq!(extract_service_id("0x22 - ReadDID"), Some(0x22));
    assert_eq!(extract_service_id("0x2E01   - WriteDID"), Some(0x2E01));
    assert_eq!(extract_service_id("ReadDID"), None);
    assert_eq!(extract_service_id("0xZZ - Bad"), None);
}

#[test]
fn sort_mode_cycle_and_labels() {
    let m = DiagcommSortMode::IdAsc;
    assert_eq!(m.next(), DiagcommSortMode::IdDesc);
    assert_eq!(m.next().next().next().next(), m);
    assert_eq!(DiagcommSortMode::NameAsc.status_label(), "Sort: Name \u{25b2}");
}

#[test]
fn node_path_joins_ancestors() {
    let nodes = vec![
        node("Variants", 0, true),
        node("V1", 1, true),
        list_header("Diag-Comms (2)", 2, ServiceListType::DiagComms),
        service("0x22 - ReadDID", "ReadDID", 3),
    ];
    assert_eq!(node_path(&nodes, 3), Ok("Variants / V1 / Diag-Comms / 0x22 - ReadDID".to_owned()));
    assert_eq!(node_path(&nodes, 9), Err("Node index 9 out of range".to_owned()));
}

#[test]
fn navigate_expands_ancestors() {
    let nodes = vec![
        node("Variants", 0, true),
        node("V1", 1, true),
        service("0x22 - ReadDID", "ReadDID", 2),
    ];
    let mut core = core_with(nodes);
    assert_eq!(core.visible, vec![0]);
    let target = JumpTarget {
        target_type: JumpTargetType::TreeNodeByIndex { index: 2, short_name: "ReadDID".to_owned() },
    };
    let res = navigate(&mut core, &target).unwrap();
    assert_eq!(res.target_index, 2);
    assert_eq!(res.visible.len(), 3);
    let missing = JumpTarget {
        target_type: JumpTargetType::Container { index: 0, short_name: "Nope".to_owned() },
    };
    assert_eq!(navigate(&mut core, &missing).err(), Some("Could not resolve navigation target".to_owned()));
}

#[test]
fn toggle_sort_out_of_range_is_an_error() {
    let mut core = core_with(vec![node("Root", 0, false)]);
    let r = toggle_sort(&mut core, Some(5));
    assert_eq!(r.err(), Some("Node index 5 out of range".to_owned()));
    assert_eq!(core.diagcomm_sort, DiagcommSortMode::IdAsc);
}

#[test]
fn toggle_sort_cycles_diagcomm_order() {
    let mut header = list_header("Diag-Comms (3)", 0, ServiceListType::DiagComms);
    header.expanded = true;
    let mut core = core_with(vec![
        header,
        service("0x10 - Session", "Session", 1),
        service("0x2E - Write", "Write", 1),
        service("0x22 - Read", "Read", 1),
    ]);
    let res = toggle_sort(&mut core, None).unwrap();
    assert_eq!(core.diagcomm_sort, DiagcommSortMode::IdDesc);
    assert_eq!(res.sort_label, "Sort: ID \u{25bc}");
    let order: Vec<&str> = core.all_nodes.iter().map(|n| n.text.as_str()).collect();
    assert_eq!(order, vec!["Diag-Comms (3)", "0x2E - Write", "0x22 - Read", "0x10 - Session"]);
    let res = toggle_sort(&mut core, Some(0)).unwrap();
    assert_eq!(res.sort_label, "Sort: Name \u{25b2}");
    let order: Vec<&str> = core.all_nodes.iter().map(|n| n.text.as_str()).collect();
    assert_eq!(order, vec!["Diag-Comms (3)", "0x22 - Read", "0x10 - Session", "0x2E - Write"]);
}

#[test]
fn toggle_sort_orders_other_children_by_lower_text() {
    let mut root = node("Root", 0, true);
    root.expanded = true;
    let mut core = core_with(vec![
        root,
        node("beta", 1, true),
        node("beta-child", 2, false),
        node("Alpha", 1, false),
    ]);
    let res = toggle_sort(&mut core, Some(0)).unwrap();
    assert_eq!(core.diagcomm_sort, DiagcommSortMode::IdAsc);
    assert_eq!(res.sort_label, "Sort: ID \u{25b2}");
    let order: Vec<&str> = core.all_nodes.iter().map(|n| n.text.as_str()).collect();
    assert_eq!(order, vec!["Root", "Alpha", "beta", "beta-child"]);
}

#[test]
fn tabs_open_switch_and_close() {
    let mut tabs = TabManager::default();
    let first = tabs.open_tab(vec![node("A", 0, false)], "ECU1".to_owned(), "/x/a.mdd".to_owned(), "a.mdd".to_owned(), false);
    assert_eq!(first.tab_id, "tab_1");
    assert_eq!(first.ecu_name, "ECU1");
    assert_eq!(first.node_count, 1);
    let second = tabs.open_tab(vec![node("B", 0, false), node("C", 0, false)], "ECU2".to_owned(), String::new(), diff_display_name("a.mdd", "b.mdd"), true);
    assert_eq!(second.tab_id, "tab_2");
    assert!(second.is_diff);
    assert_eq!(tabs.active_tab.as_deref(), Some("tab_2"));

    let infos = tabs.open_tabs();
    assert_eq!(infos.len(), 2);
    assert_eq!(infos[1].display_name, "a.mdd \u{2194} b.mdd");
    assert!(infos[1].is_active && !infos[0].is_active);

    let reused = tabs.reuse_file_tab("/x/a.mdd").expect("already open");
    assert_eq!(reused.tab_id, "tab_1");
    assert_eq!(tabs.active_tab.as_deref(), Some("tab_1"));
    assert!(tabs.reuse_file_tab("/x/other.mdd").is_none());

    assert_eq!(tabs.switch_tab("tab_9").err(), Some("Tab tab_9 not found".to_owned()));
    assert_eq!(tabs.switch_tab("tab_2").unwrap().node_count, 2);

    let after = tabs.close_tab("tab_2").unwrap().expect("one tab left");
    assert_eq!(after.tab_id, "tab_1");
    assert_eq!(tabs.tabs.len(), 1);
    assert_eq!(tabs.close_tab("tab_1").unwrap().map(|r| r.tab_id), None);
    assert!(tabs.active_tab.is_none());
    assert_eq!(tabs.active_tab_id().err(), Some("No active tab".to_owned()));
}

#[test]
fn navigate_shows_target_but_not_collapsed_siblings() {
    let nodes = vec![
        node("Root", 0, true),
        node("A", 1, true),
        service("0x10 - A1", "A1", 2),
        node("B", 1, true),
        service("0x22 - B1", "B1", 2),
    ];
    let mut core = core_with(nodes);
    let target = JumpTarget {
        target_type: JumpTargetType::TreeNodeByIndex { index: 4, short_name: "B1".to_owned() },
    };
    let res = navigate(&mut core, &target).unwrap();
    assert_eq!(res.target_index, 4);
    assert_eq!(texts(&core), vec!["Root", "A", "B", "0x22 - B1"]);
}

#[test]
fn node_variant_from_parent_chain() {
    let mut variant = node("Variant A", 0, true);
    variant.node_type = NodeType::Container;
    variant.payload = NodePayload::Container {
        short_name: "VarA".to_owned(),
        parent_ref_names: Vec::new(),
        parent_ref_indices: Vec::new(),
    };
    let mut list = list_header("Requests (1)", 1, ServiceListType::Requests);
    list.parent_idx = Some(0);
    let mut svc = service("0x22 - Read", "Read", 2);
    svc.parent_idx = Some(1);
    let loose = node("Loose", 0, false);
    let nodes = vec![variant, list, svc, loose];
    assert_eq!(mdd_core::browse::resolve_node_variant(&nodes, 2), Some("VarA".to_owned()));
    assert_eq!(mdd_core::browse::resolve_node_variant(&nodes, 0), Some("VarA".to_owned()));
    assert_eq!(mdd_core::browse::resolve_node_variant(&nodes, 3), None);
    assert_eq!(mdd_core::browse::resolve_node_variant(&nodes, 9), None);
}
