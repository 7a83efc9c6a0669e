use mcpmux::resolver::{ClientPins, FeatureSetResolution, ResolutionSource, ResolveEvent, ResolveStep};
use mcpmux::session_roots::SessionRootsRegistry;
use uuid::Uuid;

fn run(reg: &SessionRootsRegistry, sid: Option<&str>, client: Option<ClientPins>, default_space: Option<Uuid>,
       binding: Option<Uuid>, active: Option<Uuid>) -> (Option<Uuid>, ResolutionSource, Vec<String>) {
    let bindings: Vec<(String, Uuid)> = binding.map(|fs| vec![("/w".to_string(), fs)]).unwrap_or_default();
    run_with(reg, sid, client, default_space, bindings, active)
}

fn run_with(reg: &SessionRootsRegistry, sid: Option<&str>, client: Option<ClientPins>, default_space: Option<Uuid>,
       bindings: Vec<(String, Uuid)>, active: Option<Uuid>) -> (Option<Uuid>, ResolutionSource, Vec<String>) {
    let mut r = FeatureSetResolution::start(reg, sid);
    let mut looked_up_roots = Vec::new();
    loop {
        let event = match &r.step {
            ResolveStep::LoadClient => ResolveEvent::ClientLoaded(client),
            ResolveStep::LoadDefaultSpace => ResolveEvent::DefaultSpaceLoaded(default_space),
            ResolveStep::FindBinding { roots, .. } => {
                looked_up_roots = roots.clone();
                ResolveEvent::BindingsLoaded(bindings.clone())
            }
            ResolveStep::LoadSpace { .. } => ResolveEvent::SpaceLoaded(active),
            ResolveStep::Done(_) => break,
        };
        r.advance(event);
    }
    let out = r.outcome().expect("done");
    (out.feature_set_id, out.source, looked_up_roots)
}

#[test]
fn pin_wins_over_everything() {
    let mut reg = SessionRootsRegistry::new();
    reg.set("s", &["/w"]);
    let pin = Uuid::new_v4();
    let client = ClientPins { pinned_feature_set_id: Some(pin), pinned_space_id: Some(Uuid::new_v4()) };
    let (fs, src, _) = run(&reg, Some("s"), Some(client), None, Some(Uuid::new_v4()), Some(Uuid::new_v4()));
    assert_eq!((fs, src), (Some(pin), ResolutionSource::Pin));
}

#[test]
fn binding_beats_space_active_and_uses_session_roots() {
    let mut reg = SessionRootsRegistry::new();
    reg.set("s", &["file:///w/"]);
    let bound = Uuid::new_v4();
    let client = ClientPins { pinned_feature_set_id: None, pinned_space_id: Some(Uuid::new_v4()) };
    let (fs, src, roots) = run(&reg, Some("s"), Some(client), None, Some(bound), Some(Uuid::new_v4()));
    assert_eq!((fs, src), (Some(bound), ResolutionSource::WorkspaceBinding));
    assert_eq!(roots, vec!["/w".to_string()]);
}

#[test]
fn rootless_session_falls_through_to_space_active() {
    let reg = SessionRootsRegistry::new();
    let active = Uuid::new_v4();
    let client = ClientPins { pinned_feature_set_id: None, pinned_space_id: None };
    let (fs, src, roots) = run(&reg, Some("s"), Some(client), Some(Uuid::new_v4()), Some(Uuid::new_v4()), Some(active));
    assert_eq!((fs, src), (Some(active), ResolutionSource::SpaceActive));
    assert!(roots.is_empty());
}

#[test]
fn unmatched_roots_fall_through_to_space_active() {
    let mut reg = SessionRootsRegistry::new();
    reg.set("s", &["/w"]);
    let active = Uuid::new_v4();
    let client = ClientPins { pinned_feature_set_id: None, pinned_space_id: Some(Uuid::new_v4()) };
    let (fs, src, _) = run(&reg, Some("s"), Some(client), None, None, Some(active));
    assert_eq!((fs, src), (Some(active), ResolutionSource::SpaceActive));
    let elsewhere = vec![("/w-other".to_string(), Uuid::new_v4()), ("/x".to_string(), Uuid::new_v4())];
    let (fs, src, _) = run_with(&reg, Some("s"), Some(client), None, elsewhere, Some(active));
    assert_eq!((fs, src), (Some(active), ResolutionSource::SpaceActive));
}

#[test]
fn longest_binding_prefix_wins_across_roots() {
    let mut reg = SessionRootsRegistry::new();
    reg.set("s", &["/a/b/c", "/x/y"]);
    let (short, long, other) = (Uuid::new_v4(), Uuid::new_v4(), Uuid::new_v4());
    let bindings = vec![
        ("/a".to_string(), short),
        ("/x/y".to_string(), other),
        ("/a/b".to_string(), long),
    ];
    let client = ClientPins { pinned_feature_set_id: None, pinned_space_id: Some(Uuid::new_v4()) };
    let (fs, src, _) = run_with(&reg, Some("s"), Some(client), None, bindings, None);
    assert_eq!((fs, src), (Some(long), ResolutionSource::WorkspaceBinding));
}

#[test]
fn deny_without_client_space_or_active_feature_set() {
    let reg = SessionRootsRegistry::new();
    assert_eq!(run(&reg, None, None, None, None, None).1, ResolutionSource::Deny);
    let client = ClientPins { pinned_feature_set_id: None, pinned_space_id: None };
    let (fs, src, _) = run(&reg, None, Some(client), None, None, None);
    assert_eq!((fs, src), (None, ResolutionSource::Deny));
    let (fs, src, _) = run(&reg, None, Some(client), Some(Uuid::new_v4()), None, None);
    assert_eq!((fs, src), (None, ResolutionSource::Deny));
}
