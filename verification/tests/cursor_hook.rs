use mcpmux::hooks::{
    hook_command, hook_status, install_action, is_managed_entry, manual_entry_text, merge_pre_tool_use,
    remove_managed_entry, CursorHookResult, HooksFileError, HooksShapeError,
};
use serde_json::Value;

const SCRIPT: &str = "/home/u/.cursor/hooks/mcpmux-workspace-context.js";

fn parse(text: &str) -> Value {
    serde_json::from_str(text).unwrap()
}

fn managed() -> Value {
    let mut m = serde_json::Map::new();
    m.insert("command".into(), Value::String(hook_command(SCRIPT)));
    m.insert("matcher".into(), Value::String("MCP:mcpmux_.*".into()));
    m.insert("timeout".into(), Value::from(5u64));
    Value::Object(m)
}

#[test]
fn managed_entry_is_recognized_by_script_name_or_command() {
    assert_eq!(hook_command(SCRIPT), "node /home/u/.cursor/hooks/mcpmux-workspace-context.js");
    assert!(is_managed_entry(Some("node /old/place/mcpmux-workspace-context.js"), SCRIPT));
    assert!(is_managed_entry(Some(hook_command(SCRIPT).as_str()), SCRIPT));
    assert!(!is_managed_entry(Some("node other.js"), SCRIPT));
    assert!(!is_managed_entry(None, SCRIPT));
}

#[test]
fn merge_into_no_file_creates_version_one_with_the_entry() {
    let out = parse(&merge_pre_tool_use(None, SCRIPT).unwrap());
    assert_eq!(out["version"], Value::from(1u64));
    assert_eq!(out["hooks"]["preToolUse"], Value::Array(vec![managed()]));
    let blank = parse(&merge_pre_tool_use(Some("  \n"), SCRIPT).unwrap());
    assert_eq!(blank, out);
}

#[test]
fn merge_keeps_user_hooks_and_other_keys_and_replaces_old_entry() {
    let existing = r#"{
        "version": 2,
        "theme": {"x": [1, -2.5]},
        "hooks": {
            "afterEdit": [{"command": "lint"}],
            "preToolUse": [
                {"command": "node a.js"},
                {"command": "node /old/mcpmux-workspace-context.js", "timeout": 9},
                "not an object",
                {"command": "node b.js"}
            ]
        }
    }"#;
    let out = parse(&merge_pre_tool_use(Some(existing), SCRIPT).unwrap());
    assert_eq!(out["version"], Value::from(2u64));
    assert_eq!(out["theme"], parse(r#"{"x": [1, -2.5]}"#));
    assert_eq!(out["hooks"]["afterEdit"], parse(r#"[{"command": "lint"}]"#));
    let pre = out["hooks"]["preToolUse"].as_array().unwrap();
    assert_eq!(pre.len(), 4);
    assert_eq!(pre[0]["command"], "node a.js");
    assert_eq!(pre[1], Value::String("not an object".into()));
    assert_eq!(pre[2]["command"], "node b.js");
    assert_eq!(pre[3], managed());
}

#[test]
fn merging_twice_changes_nothing() {
    let once = merge_pre_tool_use(Some(r#"{"hooks": {"preToolUse": [{"command": "x"}]}}"#), SCRIPT).unwrap();
    let twice = merge_pre_tool_use(Some(&once), SCRIPT).unwrap();
    assert_eq!(once, twice);
}

#[test]
fn merge_refuses_jsonc_and_wrong_shapes() {
    let e = merge_pre_tool_use(Some("{ // comment\n }"), SCRIPT).unwrap_err();
    assert!(matches!(e, HooksFileError::NotPlainJson) && e.is_refusal());
    assert!(e.message().contains("not plain JSON"));
    let e = merge_pre_tool_use(Some("[1]"), SCRIPT).unwrap_err();
    assert!(matches!(e, HooksFileError::Shape(HooksShapeError::RootNotObject)));
    assert_eq!(e.message(), "hooks.json root must be a JSON object");
    let e = merge_pre_tool_use(Some(r#"{"hooks": []}"#), SCRIPT).unwrap_err();
    assert_eq!(e.message(), "hooks.json `hooks` key must be an object");
    let e = merge_pre_tool_use(Some(r#"{"hooks": {"preToolUse": {}}}"#), SCRIPT).unwrap_err();
    assert_eq!(e.message(), "hooks.json `hooks.preToolUse` must be an array");
    assert!(e.is_refusal());
    let s = HooksFileError::Serialize { detail: "boom".into() };
    assert_eq!(s.message(), "failed to serialize hooks.json: boom");
    assert!(!s.is_refusal());
}

#[test]
fn remove_drops_only_the_managed_entry() {
    let merged = merge_pre_tool_use(Some(r#"{"hooks": {"preToolUse": [{"command": "keep"}]}}"#), SCRIPT).unwrap();
    let out = parse(&remove_managed_entry(&merged, SCRIPT).unwrap());
    assert_eq!(out["hooks"]["preToolUse"], parse(r#"[{"command": "keep"}]"#));
    let untouched = parse(&remove_managed_entry(r#"{"other": true}"#, SCRIPT).unwrap());
    assert_eq!(untouched, parse(r#"{"other": true}"#));
    assert!(matches!(remove_managed_entry("nope", SCRIPT), Err(HooksFileError::NotPlainJson)));
}

#[test]
fn status_reads_the_file_and_the_script() {
    let with = merge_pre_tool_use(None, SCRIPT).unwrap();
    let r = hook_status(Some(&with), SCRIPT, true, "h".into(), "s".into(), "m".into());
    assert!(r.installed && r.error.is_none() && !r.jsonc_refused);
    assert_eq!(r.action, "status");
    assert!(!hook_status(Some(&with), SCRIPT, false, "h".into(), "s".into(), "m".into()).installed);
    let without = r#"{"hooks": {"preToolUse": [{"command": "x"}]}}"#;
    assert!(!hook_status(Some(without), SCRIPT, true, "h".into(), "s".into(), "m".into()).installed);
    let none = hook_status(None, SCRIPT, true, "h".into(), "s".into(), "m".into());
    assert!(!none.installed && none.error.is_none());
    let bad = hook_status(Some("{,"), SCRIPT, true, "h".into(), "s".into(), "m".into());
    assert!(!bad.installed && bad.jsonc_refused && bad.error.unwrap().contains("not plain JSON"));
}

#[test]
fn manual_entry_and_install_action() {
    let manual = parse(&manual_entry_text(SCRIPT));
    assert_eq!(manual["version"], Value::from(1u64));
    assert_eq!(manual["hooks"]["preToolUse"], Value::Array(vec![managed()]));
    assert_eq!(install_action(true), "updated");
    assert_eq!(install_action(false), "created");
}

#[test]
fn empty_result_reports_not_installed() {
    let r = CursorHookResult::empty("status", Some("e".into()), true, "h".into(), "s".into(), "{}".into());
    assert_eq!(r.action, "status");
    assert!(!r.installed && r.jsonc_refused && r.backed_up.is_none());
    assert_eq!(r.error.as_deref(), Some("e"));
}
