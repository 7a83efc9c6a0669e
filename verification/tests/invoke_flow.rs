use mcpmux::invoke::{
    find_invoked_tool, invokable_names_on_server, invoke_decision, resolve_invoked_tool, InvokableTool, InvokeOutcome,
};

fn tool(server_id: &str, name: &str, is_tool: bool, available: bool) -> InvokableTool {
    InvokableTool {
        server_id: server_id.to_string(),
        feature_name: name.to_string(),
        qualified_name: format!("{server_id}_{name}"),
        is_tool,
        is_available: available,
    }
}

#[test]
fn decision_order_binding_readiness_grant_preflight() {
    assert_eq!(invoke_decision(false, true, Some(true), false), InvokeOutcome::NotInBinding);
    assert_eq!(invoke_decision(true, true, Some(true), false), InvokeOutcome::NotReady);
    assert_eq!(invoke_decision(true, false, None, true), InvokeOutcome::PreflightDenied);
    assert_eq!(invoke_decision(true, false, Some(false), false), InvokeOutcome::NotInvokable);
    assert_eq!(invoke_decision(true, false, Some(true), true), InvokeOutcome::PreflightOk);
    assert_eq!(invoke_decision(true, false, Some(true), false), InvokeOutcome::Call);
}

#[test]
fn the_named_tool_is_the_first_matching_row() {
    let tools = vec![
        tool("gh", "list_issues", false, true),
        tool("jira", "list_issues", true, true),
        tool("gh", "list_issues", true, false),
        tool("gh", "list_issues", true, true),
    ];
    assert_eq!(find_invoked_tool(&tools, "gh", "list_issues", "list_issues"), Some(2));
    assert_eq!(find_invoked_tool(&tools, "gh", "gh_list_issues", "list_issues"), Some(2));
    assert_eq!(find_invoked_tool(&tools, "gh", "create", "create"), None);
    assert_eq!(resolve_invoked_tool(&tools, "gh", "list_issues", "list_issues"), ("gh_list_issues".to_string(), Some(false)));
    assert_eq!(resolve_invoked_tool(&tools, "gh", "gh_create", "create"), ("gh_create".to_string(), None));
    assert_eq!(resolve_invoked_tool(&tools, "gh", "create", "create"), ("gh_create".to_string(), None));
}

#[test]
fn suggestion_names_come_from_the_named_server() {
    let tools = vec![tool("gh", "a", true, true), tool("jira", "b", true, true), tool("gh", "c", false, true)];
    assert_eq!(invokable_names_on_server(&tools, "gh"), vec!["a".to_string(), "c".to_string()]);
}
