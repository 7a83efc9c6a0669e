use mcpmux::catalog::{
    feature_set_listing, missing_schema_names, missing_schemas_message, names_from_json_array, order_by_key,
    parse_tool_schema_names, schema_positions, tool_roster, FeatureSetRow, RosterEntry, ToolFeature, ToolsArg,
    ToolsArgError, ToolsItem,
};

fn s(items: &[&str]) -> Vec<String> {
    items.iter().map(|x| x.to_string()).collect()
}

fn tool(server: &str, name: &str, available: bool) -> ToolFeature {
    ToolFeature { server_id: server.into(), feature_name: name.into(), is_tool: true, is_available: available }
}

#[test]
fn order_by_key_is_stable() {
    assert_eq!(order_by_key(&s(&["b", "a", "b", "a", "c"])), vec![1, 3, 0, 2, 4]);
    assert!(order_by_key(&s(&[])).is_empty());
}

#[test]
fn roster_flags_invokable_tools() {
    let features = vec![
        tool("gh", "list", true),
        tool("gh", "get", false),
        ToolFeature { is_tool: false, ..tool("gh", "prompt", true) },
        tool("jira", "list", true),
    ];
    let invokable = vec![tool("gh", "list", true), tool("gh", "get", false)];
    let (roster, total) = tool_roster(&features, &invokable, None);
    assert_eq!(
        roster,
        vec![
            RosterEntry { index: 0, invokable: true },
            RosterEntry { index: 1, invokable: false },
            RosterEntry { index: 3, invokable: false },
        ]
    );
    assert_eq!(total, 1);
    let (roster, total) = tool_roster(&features, &invokable, Some("jira"));
    assert_eq!(roster, vec![RosterEntry { index: 3, invokable: false }]);
    assert_eq!(total, 0);
}

#[test]
fn listing_skips_deleted_and_marks_bound() {
    let sets = vec![
        FeatureSetRow { id: "a".into(), is_deleted: false },
        FeatureSetRow { id: "b".into(), is_deleted: true },
        FeatureSetRow { id: "c".into(), is_deleted: false },
    ];
    assert_eq!(feature_set_listing(&sets, &s(&["c"])), vec![(0, false), (2, true)]);
}

#[test]
fn tools_argument_forms() {
    let one = parse_tool_schema_names(&ToolsArg::Text { text: "gh_list".into(), encoded: None }).unwrap();
    assert_eq!(one.valid_names, s(&["gh_list"]));
    let items = vec![ToolsItem::Text(" gh_list ".into()), ToolsItem::Text("  ".into()), ToolsItem::Other("3".into())];
    let arr = parse_tool_schema_names(&ToolsArg::Array(items.clone())).unwrap();
    assert_eq!(arr.valid_names, s(&["gh_list"]));
    assert_eq!(arr.invalid_entries, s(&["  ", "3"]));
    let enc = parse_tool_schema_names(&ToolsArg::Text { text: "[...]".into(), encoded: Some(items) }).unwrap();
    assert_eq!(enc.valid_names, s(&["gh_list"]));
    assert_eq!(parse_tool_schema_names(&ToolsArg::Missing).unwrap_err(), ToolsArgError::Invalid);
    assert_eq!(parse_tool_schema_names(&ToolsArg::Other).unwrap_err(), ToolsArgError::Invalid);
    assert_eq!(names_from_json_array(&[]).unwrap_err(), ToolsArgError::Empty);
}

#[test]
fn schema_lookup_and_missing() {
    let index = s(&["gh_a", "gh_b", "gh_a"]);
    assert_eq!(schema_positions(&index, &s(&["gh_b", "zz", "gh_a"])), vec![1, 0]);
    assert_eq!(missing_schema_names(&s(&["gh_b", "zz", "gh_a"]), &s(&["gh_a", "gh_b"]), &s(&["  "])), s(&["zz", "  "]));
    assert_eq!(
        missing_schemas_message(2),
        "2 tool(s) not invokable or unknown with current grants → use mcpmux_search_tools to discover allowed names"
    );
}

#[test]
fn tools_argument_errors_carry_their_messages() {
    assert_eq!(ToolsArgError::Invalid.message(), "missing or invalid `tools` \u{2014} expected string or string array");
    assert_eq!(ToolsArgError::Empty.message(), "`tools` must contain at least one qualified name");
}
