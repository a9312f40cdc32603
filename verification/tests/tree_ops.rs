use mdd_core::prefs::{
    add_recent, default_max_recent_files, default_row_density, default_split_pct, default_theme,
    remove_recent, RecentFile, UiPrefs, MAX_RECENT,
};
use mdd_core::tree::resolve::resolve_all_indices;
use mdd_core::tree::{
    CellJumpTarget, CellJumpTargetType, CellType, ChildElementType, ColumnConstraint, DetailCell,
    DetailContent, DetailRow, DetailSectionData, NodePayload, NodeType, RowMetadata,
    ServiceListType, TreeNode,
};
use mdd_core::tree_sort::{
    apply_default_sort, sort_children_of, sort_diagcomm_nodes, sort_groups_by_mode,
    sort_service_section_by_id, GroupOrder,
};
use mdd_core::browse::DiagcommSortMode;

fn node(text: &str, depth: usize) -> TreeNode {
    TreeNode {
        depth,
        text: text.to_owned(),
        expanded: false,
        has_children: false,
        detail_sections: Vec::new(),
        node_type: NodeType::Default,
        payload: NodePayload::default(),
        parent_idx: None,
        diff_status: None,
        old_text: None,
    }
}

fn service(text: &str, name: &str, depth: usize) -> TreeNode {
    let mut n = node(text, depth);
    n.payload = NodePayload::DiagComm { service_short_name: name.to_owned() };
    n
}

fn header(text: &str, depth: usize, slt: ServiceListType) -> TreeNode {
    let mut n = node(text, depth);
    n.payload = NodePayload::ServiceListHeader { service_list_type: slt };
    n
}

fn order(nodes: &[TreeNode]) -> Vec<&str> {
    nodes.iter().map(|n| n.text.as_str()).collect()
}

#[test]
fn diagcomm_nodes_sort_by_id_and_name() {
    let mut nodes = vec![
        header("Diag-Comms", 0, ServiceListType::DiagComms),
        service("0x2E - Write", "Write", 1),
        service("Job", "AJob", 1),
        service("0x10 - Session", "Session", 1),
        node("Other", 0),
    ];
    sort_diagcomm_nodes(&mut nodes, DiagcommSortMode::IdAsc);
    assert_eq!(order(&nodes), vec!["Diag-Comms", "Job", "0x10 - Session", "0x2E - Write", "Other"]);
    sort_diagcomm_nodes(&mut nodes, DiagcommSortMode::IdDesc);
    assert_eq!(order(&nodes), vec!["Diag-Comms", "0x2E - Write", "0x10 - Session", "Job", "Other"]);
    sort_diagcomm_nodes(&mut nodes, DiagcommSortMode::NameDesc);
    assert_eq!(order(&nodes), vec!["Diag-Comms", "0x2E - Write", "0x10 - Session", "Job", "Other"]);
    sort_diagcomm_nodes(&mut nodes, DiagcommSortMode::NameAsc);
    assert_eq!(order(&nodes), vec!["Diag-Comms", "Job", "0x10 - Session", "0x2E - Write", "Other"]);
}

#[test]
fn equal_keys_keep_their_order() {
    let mut nodes = vec![
        header("Diag-Comms", 0, ServiceListType::DiagComms),
        service("first", "Same", 1),
        service("second", "Same", 1),
        service("0x01 - third", "Same", 1),
    ];
    sort_diagcomm_nodes(&mut nodes, DiagcommSortMode::NameAsc);
    assert_eq!(order(&nodes), vec!["Diag-Comms", "first", "second", "0x01 - third"]);
}

#[test]
fn section_entries_move_with_their_subtrees() {
    let mut nodes = vec![
        header("Requests", 0, ServiceListType::Requests),
        node("0x31 - Routine", 1),
        node("param a", 2),
        node("0x22 - Read", 1),
        node("param b", 2),
        header("Pos-Responses", 0, ServiceListType::PosResponses),
        node("0x62 - Read", 1),
        node("0x51 - Reset", 1),
    ];
    sort_service_section_by_id(&mut nodes, ServiceListType::Requests);
    assert_eq!(
        order(&nodes),
        vec!["Requests", "0x22 - Read", "param b", "0x31 - Routine", "param a", "Pos-Responses", "0x62 - Read", "0x51 - Reset"]
    );
    apply_default_sort(&mut nodes);
    assert_eq!(order(&nodes)[5..], ["Pos-Responses", "0x51 - Reset", "0x62 - Read"]);
}

#[test]
fn children_sort_by_lower_text_and_out_of_range_is_ignored() {
    let mut nodes = vec![
        node("Root", 0),
        node("b", 1),
        node("b1", 2),
        node("A", 1),
        node("Next", 0),
    ];
    sort_children_of(0, &mut nodes, GroupOrder::LowerText);
    assert_eq!(order(&nodes), vec!["Root", "A", "b", "b1", "Next"]);
    sort_children_of(99, &mut nodes, GroupOrder::LowerText);
    assert_eq!(order(&nodes), vec!["Root", "A", "b", "b1", "Next"]);
}

#[test]
fn groups_sort_by_first_node() {
    let mut groups = vec![
        vec![service("0x2E - W", "W", 1), node("w-child", 2)],
        vec![service("0x22 - R", "R", 1)],
        vec![],
    ];
    sort_groups_by_mode(&mut groups, DiagcommSortMode::IdAsc);
    assert_eq!(groups[0].len(), 0);
    assert_eq!(groups[1][0].text, "0x22 - R");
    assert_eq!(groups[2][1].text, "w-child");
}

fn jump_cell(target: CellJumpTargetType) -> DetailCell {
    DetailCell::text("x").with_jump(CellJumpTarget::new(target))
}

fn table(rows: Vec<DetailRow>) -> DetailSectionData {
    DetailSectionData::new(
        "Overview".to_owned(),
        DetailContent::Table {
            header: DetailRow::normal(vec![DetailCell::new("h", CellType::Text)], 0),
            rows,
            constraints: vec![ColumnConstraint::Percentage(100)],
            use_row_selection: false,
        },
        false,
    )
}

#[test]
fn resolve_retargets_jumps_by_name() {
    let mut container = node("Base", 0);
    container.payload = NodePayload::Container {
        short_name: "Base".to_owned(),
        parent_ref_names: vec!["Base".to_owned(), "Missing".to_owned()],
        parent_ref_indices: vec![7],
    };
    let mut overview = node("Overview", 0);
    let mut child_row = DetailRow::normal(vec![DetailCell::text("Diag-Comms")], 0);
    child_row.metadata = Some(RowMetadata::ChildElement { element_type: ChildElementType::DiagComms });
    overview.detail_sections = vec![table(vec![
        DetailRow::normal(vec![jump_cell(CellJumpTargetType::TreeNodeByIndex { index: 0, short_name: "Read".to_owned() })], 0),
        DetailRow::normal(vec![jump_cell(CellJumpTargetType::Container { index: 5, short_name: "Base".to_owned() })], 0),
        DetailRow::normal(vec![jump_cell(CellJumpTargetType::Dop { index: 3, name: "Unknown".to_owned() })], 0),
        child_row,
    ])];
    let mut list = header("Diag-Comms (1)", 1, ServiceListType::DiagComms);
    list.parent_idx = Some(1);
    let mut nodes = vec![container, overview, list, service("0x22 - Read", "Read", 2)];
    resolve_all_indices(&mut nodes);

    match &nodes[0].payload {
        NodePayload::Container { parent_ref_indices, .. } => assert_eq!(parent_ref_indices, &vec![0]),
        _ => panic!("container payload expected"),
    }
    let rows = match &nodes[1].detail_sections[0].content {
        DetailContent::Table { rows, .. } => rows,
        _ => panic!("table expected"),
    };
    let target = |r: usize| rows[r].cells[0].jump_target.as_ref().map(|j| match &j.target_type {
        CellJumpTargetType::TreeNodeByIndex { index, .. } => *index,
        CellJumpTargetType::Container { index, .. } => *index,
        CellJumpTargetType::Dop { index, .. } => *index,
        CellJumpTargetType::Parameter { param_id } => *param_id as usize,
    });
    assert_eq!(target(0), Some(3));
    assert_eq!(target(1), Some(0));
    assert_eq!(target(2), Some(3));
    assert_eq!(target(3), Some(2));

    let once = format!("{:?}", nodes);
    resolve_all_indices(&mut nodes);
    assert_eq!(format!("{:?}", nodes), once);
}

#[test]
fn recent_files_move_to_front_and_are_capped() {
    let mut files: Vec<RecentFile> = Vec::new();
    for i in 0..25 {
        add_recent(&mut files, format!("/f{i}.mdd"), i);
    }
    assert_eq!(files.len(), MAX_RECENT);
    assert_eq!(files[0].path, "/f24.mdd");
    add_recent(&mut files, "/f10.mdd".to_owned(), 100);
    assert_eq!(files.len(), MAX_RECENT);
    assert_eq!(files[0].path, "/f10.mdd");
    assert_eq!(files[0].timestamp, 100);
    assert_eq!(files.iter().filter(|f| f.path == "/f10.mdd").count(), 1);
    remove_recent(&mut files, "/f10.mdd");
    assert_eq!(files.len(), MAX_RECENT - 1);
    assert!(files.iter().all(|f| f.path != "/f10.mdd"));
}

#[test]
fn ui_prefs_defaults() {
    let p = UiPrefs::default();
    assert_eq!(p.font_size, 13);
    assert_eq!(p.theme, default_theme());
    assert_eq!(p.theme, "dark");
    assert_eq!(p.split_pct, default_split_pct());
    assert_eq!(p.row_density, default_row_density());
    assert_eq!(p.max_recent_files, default_max_recent_files());
    assert_eq!(p.max_recent_files, 10);
    assert!(p.last_tab_title.is_none());
}
