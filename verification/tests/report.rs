use mdd_core::assistant::{
    apply_settings_update, build_auth_header, cached_copilot_key, chat_context, chat_messages,
    clear_tokens, is_html_reply, poll_status, record_copilot_key, settings_view, ChatMessage,
    Settings, SettingsUpdate,
};
use mdd_core::browse::{CoreState, TabManager};
use mdd_core::context::{build_mdd_context, MAX_CONTEXT_CHARS, PATTERN_HEADING};
use mdd_core::report::{
    browse_tree_text, build_parent_path, diff_listing, format_byte_pattern, format_detail_content,
    load_summary, node_details_text, node_type_tag, parents_precede_exec, search_nodes_text,
};
use mdd_core::tree::builder::{compute_parent_indices, TreeBuilder};
use mdd_core::tree::{
    CellType, ColumnConstraint, DetailCell, DetailContent, DetailRow, DetailRowType,
    DetailSectionData, DiffStatus, NodePayload, NodeType, SectionType, ServiceListType, TreeNode,
};

fn node(text: &str, depth: usize, parent: Option<usize>) -> TreeNode {
    TreeNode {
        depth,
        text: text.to_owned(),
        expanded: false,
        has_children: false,
        detail_sections: Vec::new(),
        node_type: NodeType::Default,
        payload: NodePayload::default(),
        parent_idx: parent,
        diff_status: None,
        old_text: None,
    }
}

fn sample() -> Vec<TreeNode> {
    let mut root = node("Variants", 0, None);
    root.node_type = NodeType::SectionHeader;
    root.has_children = true;
    let mut v1 = node("V1", 1, Some(0));
    v1.node_type = NodeType::Container;
    v1.has_children = true;
    let mut svc = node("ReadDID", 2, Some(1));
    svc.node_type = NodeType::Service;
    vec![root, v1, svc, node("General", 0, None)]
}

#[test]
fn tags_and_parent_path() {
    assert_eq!(node_type_tag(NodeType::DopMux), "[MUX]");
    assert_eq!(node_type_tag(NodeType::ParentRefService), "[S]");
    let nodes = sample();
    assert_eq!(build_parent_path(&nodes, 2), "[0] Variants > [1] V1");
    assert_eq!(build_parent_path(&nodes, 0), "");
    assert_eq!(build_parent_path(&nodes, 10), "");
    assert!(parents_precede_exec(&nodes));
    let mut bad = sample();
    bad[0].parent_idx = Some(3);
    assert!(!parents_precede_exec(&bad));
}

#[test]
fn load_summary_lists_top_level() {
    let s = load_summary("/x.mdd", "ECU", &sample());
    assert_eq!(s, "Loaded: /x.mdd\nECU: ECU\nTotal nodes: 4\n\nTop-level sections:\n  [0] Variants\n  [3] General");
}

#[test]
fn browse_listing_respects_start_and_depth() {
    let nodes = sample();
    assert_eq!(
        browse_tree_text(&nodes, None, None),
        "[#] [0] Variants ...\n  [+] [1] V1 ...\n    [S] [2] ReadDID\n"
    );
    assert_eq!(browse_tree_text(&nodes, Some(0), Some(1)), "[+] [1] V1 ...\n");
    assert_eq!(browse_tree_text(&nodes, None, Some(9)), "No nodes found at the specified location.");
}

#[test]
fn diff_listing_marks_changes() {
    let mut nodes = sample();
    nodes[2].diff_status = Some(DiffStatus::Added);
    let s = diff_listing("a", "b", "E", &nodes, Some(1));
    assert_eq!(s, "Diff: a (old) vs b (new)\nECU: E\n\n  [0] Variants\n    [1] V1\n  [3] General\n");
    let s = diff_listing("a", "b", "E", &nodes, None);
    assert!(s.contains("+     [2] ReadDID\n"));
}

#[test]
fn search_finds_case_insensitively() {
    let nodes = sample();
    assert_eq!(
        search_nodes_text(&nodes, "readdid"),
        "Found 1 matches:\n[2] ReadDID (type:Service, path: [0] Variants > [1] V1)"
    );
    assert_eq!(search_nodes_text(&nodes, "general"), "Found 1 matches:\n[3] General (type:Default)");
    assert_eq!(search_nodes_text(&nodes, "zzz"), "No nodes matching \"zzz\"");
}

fn table_section() -> DetailSectionData {
    let mut added = DetailRow::normal(vec![DetailCell::text("x"), DetailCell::text("1")], 1);
    added.diff_status = Some(DiffStatus::Added);
    let mut s = DetailSectionData::new(
        "Overview".to_owned(),
        DetailContent::Table {
            header: DetailRow::normal(vec![DetailCell::new("Name", CellType::Text), DetailCell::text("Value")], 0),
            rows: vec![added],
            constraints: vec![ColumnConstraint::Percentage(50), ColumnConstraint::Percentage(50)],
            use_row_selection: false,
        },
        false,
    );
    let mut header_row = DetailRow::normal(vec![DetailCell::text("Offset")], 0);
    header_row.row_type = DetailRowType::Header;
    s.byte_pattern_rows = Some(vec![header_row, DetailRow::normal(vec![DetailCell::text("0"), DetailCell::text("SID")], 0)]);
    s
}

#[test]
fn detail_content_renders_tables_and_nesting() {
    let mut out = String::new();
    format_detail_content(&table_section().content, &mut out, 0);
    assert_eq!(out, "Name | Value\n-----+------\n+   x | 1\n");
    let composite = DetailContent::Composite(vec![DetailSectionData::new(
        "Sub".to_owned(),
        DetailContent::PlainText(vec!["line".to_owned()]),
        false,
    )]);
    let mut out = String::new();
    format_detail_content(&composite, &mut out, 0);
    assert_eq!(out, "[Sub]\n  line\n");
    let mut out = String::new();
    format_byte_pattern(table_section().byte_pattern_rows.as_ref().unwrap(), &mut out);
    assert!(out.ends_with("-----\n  0 | SID\n"));
    assert!(!out.contains("Offset\n"));
}

#[test]
fn node_details_text_covers_node() {
    let mut nodes = sample();
    nodes[2].detail_sections = vec![table_section()];
    nodes[2].diff_status = Some(DiffStatus::Modified);
    let d = node_details_text(&nodes, 2);
    assert!(d.starts_with("Node: ReadDID\nType: Service\nDepth: 2\nPath: [0] Variants > [1] V1\nDiff: Modified\n\n--- Overview ---\n"));
    assert!(d.contains("[Byte Pattern]"));
    assert_eq!(node_details_text(&nodes, 0), "Node: Variants\nType: SectionHeader\nDepth: 0\n\n(No detail sections for this node)\n");
    assert_eq!(node_details_text(&nodes, 7), "Error: Node index 7 out of range (0..4)");
}

#[test]
fn builder_computes_parents() {
    let mut b = TreeBuilder::new();
    b.push_section_header("Variants".to_owned(), false, true, Vec::new(), SectionType::Variants);
    b.push_container(1, "V1".to_owned(), "V1".to_owned(), Vec::new(), vec!["Base".to_owned()]);
    b.push_service_list_header(2, "Diag-Comms".to_owned(), false, true, Vec::new(), ServiceListType::DiagComms);
    b.push_service_node(3, "0x22 - Read".to_owned(), false, Vec::new(), NodeType::Service, "Read".to_owned());
    b.push_container(1, "Base".to_owned(), "Base".to_owned(), Vec::new(), Vec::new());
    assert_eq!(b.next_index(), 5);
    assert_eq!(b.find_container_index("Base"), Some(4));
    assert_eq!(b.find_container_index("Nope"), None);
    let nodes = b.finish();
    let parents: Vec<Option<usize>> = nodes.iter().map(|n| n.parent_idx).collect();
    assert_eq!(parents, vec![None, Some(0), Some(1), Some(2), Some(0)]);
    match &nodes[1].payload {
        NodePayload::Container { parent_ref_indices, .. } => assert_eq!(parent_ref_indices, &vec![4]),
        _ => panic!("container expected"),
    }
}

#[test]
fn parents_default_to_first_node() {
    let mut nodes = vec![node("a", 1, None), node("b", 2, None), node("c", 0, None)];
    compute_parent_indices(&mut nodes);
    let parents: Vec<Option<usize>> = nodes.iter().map(|n| n.parent_idx).collect();
    assert_eq!(parents, vec![Some(0), Some(0), None]);
}

#[test]
fn context_lists_structure_and_patterns() {
    let mut core = CoreState::default();
    core.ecu_name = "ECU1".to_owned();
    let mut nodes = sample();
    nodes[2].detail_sections = vec![table_section()];
    core.all_nodes = nodes;
    let ctx = build_mdd_context(&core);
    assert!(ctx.starts_with("You are an expert automotive diagnostics engineer assistant.\n"));
    assert!(ctx.contains("ECU: ECU1\nTotal nodes: 4\n\nMDD structure (containers, services, and sub-services):\n- [SectionHeader] Variants\n  - [Container] V1\n    - [Service] ReadDID\n- [Default] General"));
    assert!(ctx.contains(PATTERN_HEADING));
    assert!(ctx.ends_with("\n\n  [[ReadDID]]:\n    0 | SID"));
}

#[test]
fn diff_context_shows_changes_with_ancestors() {
    let mut core = CoreState::default();
    core.ecu_name = "E".to_owned();
    core.is_diff_mode = true;
    let mut nodes = sample();
    nodes[2].diff_status = Some(DiffStatus::Removed);
    nodes[3].diff_status = Some(DiffStatus::Unchanged);
    core.all_nodes = nodes;
    let ctx = build_mdd_context(&core);
    assert!(ctx.ends_with("modified):\n  [SectionHeader] Variants\n    [Container] V1\n-     [Service] ReadDID"));
}

#[test]
fn long_context_is_truncated() {
    let mut core = CoreState::default();
    core.ecu_name = "E".to_owned();
    core.all_nodes = (0..3000).map(|i| node(&format!("node number {i} with a long text"), 0, None)).collect();
    let ctx = build_mdd_context(&core);
    assert!(ctx.ends_with("questions about services or nodes by name.]"));
    assert!(ctx.chars().count() < MAX_CONTEXT_CHARS + 200);
}

fn settings(method: &str, token: Option<&str>) -> Settings {
    let mut s = Settings::default();
    s.auth_method = method.to_owned();
    s.token = token.map(str::to_owned);
    s
}

#[test]
fn auth_headers_by_provider() {
    assert_eq!(build_auth_header(&settings("azure", Some("k"))), Ok(("api-key".to_owned(), "k".to_owned())));
    assert_eq!(build_auth_header(&settings("openai", Some("k"))), Ok(("Authorization".to_owned(), "Bearer k".to_owned())));
    assert_eq!(build_auth_header(&settings("foo", Some("k"))), Err("Unknown auth method: foo".to_owned()));
    assert_eq!(
        build_auth_header(&settings("azure", None)),
        Err("Not authenticated. Please configure authentication in settings.".to_owned())
    );
}

#[test]
fn settings_updates_and_tokens() {
    let mut s = Settings::default();
    assert_eq!(s.llm_model, "gpt-4o");
    let update = SettingsUpdate {
        ghe_host: "h".to_owned(),
        llm_endpoint: "e".to_owned(),
        llm_model: "m".to_owned(),
        auth_method: "openai".to_owned(),
        api_token: Some("secret".to_owned()),
        api_version: None,
    };
    apply_settings_update(&mut s, update);
    assert_eq!(s.token.as_deref(), Some("secret"));
    let update = SettingsUpdate {
        ghe_host: "h".to_owned(),
        llm_endpoint: "e".to_owned(),
        llm_model: "m".to_owned(),
        auth_method: "copilot".to_owned(),
        api_token: Some("other".to_owned()),
        api_version: None,
    };
    apply_settings_update(&mut s, update);
    assert_eq!(s.token.as_deref(), Some("secret"));
    let v = settings_view(Settings { ghe_host: "h".to_owned(), ..settings("copilot", Some("t")) });
    assert!(v.has_token);
    clear_tokens(&mut s);
    assert!(s.token.is_none());
}

#[test]
fn copilot_key_cache_and_record() {
    let mut s = settings("copilot", Some("oauth"));
    s.ghe_host = "ghe.example".to_owned();
    assert_eq!(cached_copilot_key(&settings("copilot", None), 0).err(), Some("Not authenticated. Please log in first.".to_owned()));
    assert_eq!(cached_copilot_key(&s, 0), Ok(None));
    let (key, base) = record_copilot_key(&mut s, "ck".to_owned(), 1000, None);
    assert_eq!((key.as_str(), base.as_str()), ("ck", "https://copilot-api.ghe.example"));
    assert_eq!(cached_copilot_key(&s, 100), Ok(Some(("ck".to_owned(), "https://copilot-api.ghe.example".to_owned()))));
    assert_eq!(cached_copilot_key(&s, 800), Ok(None));
    assert_eq!(cached_copilot_key(&s, i64::MAX), Ok(None));
}

#[test]
fn poll_and_chat_helpers() {
    let mut s = Settings::default();
    assert_eq!(poll_status(None, Some("slow_down"), &mut s).status, "slow_down");
    assert_eq!(poll_status(None, None, &mut s).status, "error");
    assert_eq!(poll_status(Some("tok".to_owned()), None, &mut s).status, "authorized");
    assert_eq!(s.token.as_deref(), Some("tok"));
    let msgs = chat_messages("ctx".to_owned(), vec![ChatMessage { role: "user".to_owned(), content: "hi".to_owned() }]);
    assert_eq!(msgs.len(), 2);
    assert_eq!(msgs[0].role, "system");
    assert_eq!(chat_messages(String::new(), vec![]).len(), 0);
    assert!(is_html_reply("  \n<html>"));
    assert!(!is_html_reply("{\"a\":1}"));
    assert_eq!(chat_context(&TabManager::default()), "");
}

#[test]
fn search_ignores_cycles_at_other_nodes() {
    let mut nodes = sample();
    nodes.push(node("Loop A", 1, Some(5)));
    nodes.push(node("Loop B", 1, Some(4)));
    assert_eq!(search_nodes_text(&nodes, "general"), "Found 1 matches:\n[3] General (type:Default)");
}

#[test]
fn checked_search_reports_cycles_at_matches() {
    let mut nodes = sample();
    nodes.push(node("Loop A", 1, Some(5)));
    nodes.push(node("Loop B", 1, Some(4)));
    assert_eq!(
        mdd_core::report::search_nodes_checked(&nodes, "general"),
        Some("Found 1 matches:\n[3] General (type:Default)".to_owned())
    );
    assert_eq!(mdd_core::report::search_nodes_checked(&nodes, "loop"), None);
    assert!(mdd_core::report::path_ends_exec(&nodes, 2));
    assert!(!mdd_core::report::path_ends_exec(&nodes, 4));
}
