use mcpmux::invoke::{
    feature_matches_tool_name, invoke_preflight, normalize_invoke_tool_name, qualify_tool_name,
    resolve_invoke_server_id, resolve_invoke_tool, resolve_invoke_tool_args, ArgField,
};
use serde_json::Value;

fn text(s: &str) -> Value {
    Value::String(s.to_string())
}

fn object(pairs: &[(&str, Value)]) -> Value {
    let mut m = serde_json::Map::new();
    for (k, v) in pairs {
        m.insert(k.to_string(), v.clone());
    }
    Value::Object(m)
}

/// The call's arguments as the library reads them.
fn fields(pairs: &[(&str, Value)]) -> Vec<ArgField<Value>> {
    pairs
        .iter()
        .map(|(k, v)| ArgField {
            key: k.to_string(),
            text: v.as_str().map(str::to_string),
            flag: v.as_bool(),
            value: v.clone(),
        })
        .collect()
}

fn tool_args(pairs: &[(&str, Value)]) -> Value {
    resolve_invoke_tool_args(&fields(pairs)).cloned().unwrap_or_else(|| object(&[]))
}

#[test]
fn resolve_invoke_tool_args_prefers_args_over_params() {
    let call_args = [("args", object(&[("owner", text("a"))])), ("params", object(&[("owner", text("b"))]))];
    assert_eq!(tool_args(&call_args), object(&[("owner", text("a"))]));
}

#[test]
fn resolve_invoke_tool_args_falls_back_to_params() {
    let call_args = [("params", object(&[("repo", text("mcp-mux"))]))];
    assert_eq!(tool_args(&call_args), object(&[("repo", text("mcp-mux"))]));
}

#[test]
fn resolve_invoke_tool_args_defaults_to_empty_object() {
    assert_eq!(tool_args(&[]), object(&[]));
}

#[test]
fn resolve_invoke_tool_args_falls_back_to_arguments() {
    let call_args = [("arguments", object(&[("id", text("page-1"))]))];
    assert_eq!(tool_args(&call_args), object(&[("id", text("page-1"))]));
}

#[test]
fn resolve_invoke_tool_args_prefers_args_over_arguments() {
    let call_args = [("args", object(&[("id", text("a"))])), ("arguments", object(&[("id", text("b"))]))];
    assert_eq!(tool_args(&call_args), object(&[("id", text("a"))]));
}

#[test]
fn resolve_invoke_server_id_accepts_aliases() {
    assert_eq!(resolve_invoke_server_id(&fields(&[("server_id", text("github"))])), Some("github".to_string()));
    assert_eq!(resolve_invoke_server_id(&fields(&[("server", text("notion"))])), Some("notion".to_string()));
    assert_eq!(resolve_invoke_server_id(&fields(&[("serverId", text("jira"))])), Some("jira".to_string()));
}

#[test]
fn resolve_invoke_server_id_prefers_server_id_over_aliases() {
    let call_args = [("server_id", text("canonical")), ("server", text("alias")), ("serverId", text("other"))];
    assert_eq!(resolve_invoke_server_id(&fields(&call_args)), Some("canonical".to_string()));
}

#[test]
fn resolve_invoke_server_id_skips_empty_and_non_string_values() {
    let call_args = [("server_id", text("")), ("serverId", Value::Bool(true)), ("server", text("fallback"))];
    assert_eq!(resolve_invoke_server_id(&fields(&call_args)), Some("fallback".to_string()));
    assert_eq!(resolve_invoke_server_id(&fields(&[("server_id", text(""))])), None);
}

#[test]
fn resolve_invoke_tool_accepts_tool_name_alias() {
    assert_eq!(resolve_invoke_tool(&fields(&[("tool_name", text("notion-fetch"))])), Some("notion-fetch".to_string()));
}

#[test]
fn resolve_invoke_tool_prefers_tool_over_tool_name() {
    let call_args = [("tool", text("bare")), ("tool_name", text("alias"))];
    assert_eq!(resolve_invoke_tool(&fields(&call_args)), Some("bare".to_string()));
}

#[test]
fn preflight_needs_a_true_boolean() {
    assert!(invoke_preflight(&fields(&[("preflight", Value::Bool(true))])));
    assert!(!invoke_preflight(&fields(&[("preflight", Value::Bool(false))])));
    assert!(!invoke_preflight(&fields(&[("preflight", text("true"))])));
    assert!(!invoke_preflight(&fields(&[])));
}

#[test]
fn normalize_invoke_tool_name_strips_server_prefix() {
    assert_eq!(normalize_invoke_tool_name("github", "github_list_issues"), "list_issues");
}

#[test]
fn normalize_invoke_tool_name_passes_bare_through() {
    assert_eq!(normalize_invoke_tool_name("github", "list_issues"), "list_issues");
}

#[test]
fn normalize_invoke_tool_name_strips_repeated_prefix() {
    assert_eq!(normalize_invoke_tool_name("github", "github_github_list_issues"), "list_issues");
}

#[test]
fn feature_matches_tool_name_accepts_qualified_or_bare() {
    assert!(feature_matches_tool_name("list_issues", "github_list_issues", "github_list_issues", "list_issues"));
    assert!(feature_matches_tool_name("list_issues", "github_list_issues", "list_issues", "list_issues"));
    assert!(!feature_matches_tool_name("other_tool", "github_other_tool", "list_issues", "list_issues"));
}

#[test]
fn unmatched_tool_is_qualified_once() {
    assert_eq!(qualify_tool_name("github", "github_list", "list"), "github_list");
    assert_eq!(qualify_tool_name("github", "list", "list"), "github_list");
}

use mcpmux::invoke::{merge_default_params, ToolArgs};

#[test]
fn defaults_fill_only_unset_keys() {
    let caller = vec![("owner".to_string(), text("me")), ("repo".to_string(), text("x"))];
    let defaults = vec![("owner".to_string(), text("org")), ("per_page".to_string(), Value::from(50))];
    match merge_default_params(ToolArgs::Object(caller), defaults) {
        ToolArgs::Object(m) => assert_eq!(
            m,
            vec![
                ("owner".to_string(), text("me")),
                ("repo".to_string(), text("x")),
                ("per_page".to_string(), Value::from(50)),
            ]
        ),
        ToolArgs::Other(_) => panic!("object expected"),
    }
}

#[test]
fn non_objects_and_empty_defaults_pass_through() {
    match merge_default_params(ToolArgs::Other(Value::from(3)), vec![("a".to_string(), Value::from(1))]) {
        ToolArgs::Other(v) => assert_eq!(v, Value::from(3)),
        ToolArgs::Object(_) => panic!("unchanged value expected"),
    }
    match merge_default_params(ToolArgs::Object(vec![("a".to_string(), Value::from(1))]), vec![]) {
        ToolArgs::Object(m) => assert_eq!(m, vec![("a".to_string(), Value::from(1))]),
        ToolArgs::Other(_) => panic!("object expected"),
    }
}
