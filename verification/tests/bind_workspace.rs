use mcpmux::bind::{
    binding_has_feature_set, bind_approval_summary, bind_inactive_note, layer_feature_set, select_bind_root,
    unknown_feature_set_message, BindRootError,
};

fn v(items: &[&str]) -> Vec<String> {
    items.iter().map(|s| s.to_string()).collect()
}

#[test]
fn explicit_root_wins_then_single_root() {
    assert_eq!(select_bind_root(Some("/x"), &v(&["/a", "/b"]), &v(&[])).unwrap(), "/x");
    assert_eq!(select_bind_root(None, &v(&["/a"]), &v(&[])).unwrap(), "/a");
}

#[test]
fn bind_current_workspace_fails_when_no_roots_reported() {
    let err = select_bind_root(None, &v(&[]), &v(&[])).unwrap_err();
    assert!(matches!(err, BindRootError::NoRoots { .. }));
    assert_eq!(
        err.message(),
        "caller did not report any MCP roots; cannot bind. Call mcpmux_set_workspace_root to declare the workspace this agent is actually working in, then retry mcpmux_bind_current_workspace."
    );
    let err = select_bind_root(None, &v(&[]), &v(&["/r1", "/r2"])).unwrap_err();
    assert_eq!(
        err.message(),
        "caller did not report any MCP roots; cannot bind. This window has these folders open:\n  - /r1\n  - /r2\n Call mcpmux_set_workspace_root to declare the workspace this agent is actually working in, then retry mcpmux_bind_current_workspace."
    );
}

#[test]
fn several_unpinned_roots_are_ambiguous() {
    let err = select_bind_root(None, &v(&["/a", "/b"]), &v(&[])).unwrap_err();
    let msg = err.message();
    assert!(msg.starts_with("cannot bind: 2 workspace roots reported and none is pinned"));
    assert!(msg.contains("Reported roots:\n  - /a\n  - /b\nCall mcpmux_set_workspace_root"));
}

#[test]
fn layering_appends_once() {
    let mut ids = v(&["fs1"]);
    assert!(!layer_feature_set(&mut ids, "fs2"));
    assert_eq!(ids, v(&["fs1", "fs2"]));
    assert!(layer_feature_set(&mut ids, "fs2"));
    assert_eq!(ids, v(&["fs1", "fs2"]));
    assert!(binding_has_feature_set(&ids, "fs1"));
    assert!(!binding_has_feature_set(&ids, "fs3"));
}

#[test]
fn approval_and_refusal_texts() {
    assert_eq!(
        bind_approval_summary("GitHub", "/w", Some("m1"), "c1"),
        "Append FeatureSet 'GitHub' to workspace '/w' binding for machine 'm1' (existing bundles preserved)."
    );
    assert_eq!(
        bind_approval_summary("GitHub", "/w", None, "c1"),
        "Append FeatureSet 'GitHub' to workspace '/w' binding for client 'c1' (existing bundles preserved)."
    );
    assert_eq!(
        unknown_feature_set_message("abc"),
        "feature_set_id 'abc' does not exist — call mcpmux_list_feature_sets to obtain a valid id"
    );
    assert!(bind_inactive_note(true).is_none());
    assert!(bind_inactive_note(false).unwrap().starts_with("binding persisted but FeatureSet is not active"));
}

use mcpmux::bind::{bind_skips_approval, plan_bind, BindStore};

#[test]
fn plan_creates_updates_or_keeps() {
    let p = plan_bind(None, "fs1", true);
    assert_eq!(p.store, BindStore::CreateForMachine);
    assert_eq!(p.feature_set_ids, v(&["fs1"]));
    assert!(!p.already_bound && p.announce);

    let p = plan_bind(None, "fs1", false);
    assert_eq!(p.store, BindStore::CreateForClient);

    let p = plan_bind(Some(v(&["fs0"])), "fs1", true);
    assert_eq!(p.store, BindStore::Update);
    assert_eq!(p.feature_set_ids, v(&["fs0", "fs1"]));
    assert!(p.announce);

    let p = plan_bind(Some(v(&["fs0", "fs1"])), "fs1", false);
    assert_eq!(p.store, BindStore::Keep);
    assert_eq!(p.feature_set_ids, v(&["fs0", "fs1"]));
    assert!(p.already_bound && !p.announce);
}

#[test]
fn repeat_bind_skips_approval_and_changes_nothing() {
    let first = plan_bind(None, "fs", false);
    assert!(bind_skips_approval(Some(&first.feature_set_ids), "fs"));
    let second = plan_bind(Some(first.feature_set_ids.clone()), "fs", false);
    assert_eq!(second.store, BindStore::Keep);
    assert_eq!(second.feature_set_ids, first.feature_set_ids);
    assert!(!second.announce);
    assert!(!bind_skips_approval(None, "fs"));
    assert!(!bind_skips_approval(Some(&v(&["other"])), "fs"));
}

use mcpmux::bind::{BindEvent, BindFlow, BindOutcome, BindStep};

fn fs_id() -> String {
    uuid::Uuid::new_v4().to_string()
}

#[test]
fn bind_flow_checks_then_asks_then_writes() {
    let fs = fs_id();
    let mut f = BindFlow::start(None, &v(&["file:///w/"]), &v(&[]), &fs.to_uppercase(), false);
    assert_eq!(f.fs_id, fs);
    assert_eq!(f.root, "/w");
    assert!(matches!(f.step, BindStep::LoadFeatureSet));
    f.advance(BindEvent::FeatureSetLoaded(Some("Dev".into())));
    assert!(matches!(f.step, BindStep::FindExisting));
    f.advance(BindEvent::ExistingLoaded(Some(v(&["other"]))));
    assert!(matches!(f.step, BindStep::AskApproval));
    assert_eq!(
        f.approval_summary(None, "c1"),
        "Append FeatureSet 'Dev' to workspace '/w' binding for client 'c1' (existing bundles preserved)."
    );
    f.advance(BindEvent::Approval(true));
    f.advance(BindEvent::ExistingLoaded(Some(v(&["other"]))));
    match &f.step {
        BindStep::Apply(p) => {
            assert_eq!(p.store, BindStore::Update);
            assert_eq!(p.feature_set_ids, vec!["other".to_string(), fs.clone()]);
            assert!(p.announce);
        }
        _ => panic!("expected a write"),
    }
    f.advance(BindEvent::Written);
    assert!(matches!(f.step, BindStep::Done(BindOutcome::Bound(_))));
}

#[test]
fn bind_flow_refuses_dedupes_and_respects_denial() {
    let f = BindFlow::start(None, &v(&["/w"]), &v(&[]), "not-a-uuid", true);
    assert!(matches!(f.step, BindStep::Done(BindOutcome::InvalidFeatureSetId)));

    let f = BindFlow::start(None, &v(&[]), &v(&["/open"]), &fs_id(), true);
    assert!(matches!(&f.step, BindStep::Done(BindOutcome::NoRoot(BindRootError::NoRoots { candidates })) if *candidates == v(&["/open"])));

    let f = BindFlow::start(None, &v(&["/a", "/b"]), &v(&[]), &fs_id(), true);
    assert!(matches!(f.step, BindStep::Done(BindOutcome::NoRoot(BindRootError::Ambiguous { .. }))));

    let mut f = BindFlow::start(Some("/w"), &v(&[]), &v(&[]), &fs_id(), true);
    f.advance(BindEvent::FeatureSetLoaded(None));
    assert!(matches!(f.step, BindStep::Done(BindOutcome::UnknownFeatureSet)));

    let fs = fs_id();
    let mut f = BindFlow::start(Some("/w"), &v(&[]), &v(&[]), &fs, true);
    f.advance(BindEvent::FeatureSetLoaded(Some("n".into())));
    f.advance(BindEvent::ExistingLoaded(Some(vec![fs.clone()])));
    assert!(matches!(&f.step, BindStep::Done(BindOutcome::AlreadyBound { feature_set_ids }) if *feature_set_ids == vec![fs.clone()]));

    let mut f = BindFlow::start(Some("/w"), &v(&[]), &v(&[]), &fs_id(), true);
    f.advance(BindEvent::FeatureSetLoaded(Some("n".into())));
    f.advance(BindEvent::ExistingLoaded(None));
    f.advance(BindEvent::Approval(false));
    assert!(matches!(f.step, BindStep::Done(BindOutcome::Denied)));
}
