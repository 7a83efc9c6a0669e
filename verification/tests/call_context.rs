use mcpmux::call_context::{take_mcpmux_context, CallContextError, RawCallContext};
use mcpmux::session_roots::SessionRootsRegistry;

fn raw(root: Option<&str>, tool_use_id: Option<&str>) -> RawCallContext {
    RawCallContext {
        is_object: true,
        workspace_root: root.map(str::to_string),
        tool_use_id: tool_use_id.map(str::to_string),
    }
}

#[test]
fn absent_context_uses_the_session_ladder() {
    let reg = SessionRootsRegistry::new();
    assert!(take_mcpmux_context(None, Some("s"), &reg).unwrap().is_none());
}

#[test]
fn valid_context_is_normalized_and_trimmed() {
    let reg = SessionRootsRegistry::new();
    let c = take_mcpmux_context(Some(&raw(Some("  file:///w/repo/ "), Some(" t1 "))), Some("s"), &reg)
        .unwrap()
        .unwrap();
    assert_eq!(c.workspace_root, "/w/repo");
    assert_eq!(c.tool_use_id.as_deref(), Some("t1"));
    let c = take_mcpmux_context(Some(&raw(Some("/w"), Some("  "))), None, &reg).unwrap().unwrap();
    assert!(c.tool_use_id.is_none());
}

#[test]
fn malformed_contexts_are_refused() {
    let mut reg = SessionRootsRegistry::new();
    let not_object = RawCallContext { is_object: false, workspace_root: None, tool_use_id: None };
    assert_eq!(take_mcpmux_context(Some(&not_object), None, &reg).unwrap_err(), CallContextError::NotAnObject);
    assert_eq!(take_mcpmux_context(Some(&raw(None, None)), None, &reg).unwrap_err(), CallContextError::MissingRoot);
    assert_eq!(take_mcpmux_context(Some(&raw(Some("   "), None)), None, &reg).unwrap_err(), CallContextError::MissingRoot);
    reg.set_candidates("s", "/a,/b");
    assert_eq!(
        take_mcpmux_context(Some(&raw(Some("/c"), None)), Some("s"), &reg).unwrap_err(),
        CallContextError::NotACandidate
    );
    assert!(take_mcpmux_context(Some(&raw(Some("/b"), None)), Some("s"), &reg).is_ok());
}

#[test]
fn context_errors_carry_their_messages() {
    assert_eq!(CallContextError::NotAnObject.message(), "invalid _mcpmux_context: expected an object");
    assert_eq!(
        CallContextError::MissingRoot.message(),
        "invalid _mcpmux_context: workspace_root must be a non-empty string"
    );
    assert_eq!(
        CallContextError::EmptyAfterNormalize.message(),
        "invalid _mcpmux_context: workspace_root is empty after normalize"
    );
    assert_eq!(
        CallContextError::NotACandidate.message(),
        "invalid _mcpmux_context: workspace_root is not in this session's candidate set"
    );
}
