use mcpmux::meta::{
    is_meta_tool, BindCurrentWorkspaceTool, FetchPromptTool, GetToolSchemaTool, InvokeToolTool, ListAllToolsTool,
    ListFeatureSetsTool, ReadResourceTool, SearchPromptsTool, SearchResourcesTool, MCPMUX_PREFIX,
};

#[test]
fn every_tool_name_is_a_meta_tool() {
    let names = [
        ListAllToolsTool.name(),
        ListFeatureSetsTool.name(),
        GetToolSchemaTool.name(),
        InvokeToolTool.name(),
        SearchResourcesTool.name(),
        ReadResourceTool.name(),
        SearchPromptsTool.name(),
        FetchPromptTool.name(),
        BindCurrentWorkspaceTool.name(),
    ];
    for name in names {
        assert!(is_meta_tool(name), "{name}");
        assert!(name.starts_with(MCPMUX_PREFIX));
    }
    assert_eq!(InvokeToolTool.name(), "mcpmux_invoke_tool");
    assert_eq!(BindCurrentWorkspaceTool.name(), "mcpmux_bind_current_workspace");
}

#[test]
fn only_bind_writes() {
    assert!(BindCurrentWorkspaceTool.is_write());
    assert!(!InvokeToolTool.is_write());
    assert!(!SearchResourcesTool.is_write());
}

#[test]
fn backend_names_are_not_meta_tools() {
    assert!(!is_meta_tool("github_list_issues"));
    assert!(!is_meta_tool("mcpmux"));
    assert!(is_meta_tool("mcpmux_anything"));
}
