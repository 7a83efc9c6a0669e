use mcpmux::session_roots::{parse_candidate_set, SessionRootsRegistry};

const CANDIDATES: [&str; 3] = ["/repos/alpha", "/repos/beta", "/repos/gamma"];

#[test]
fn test_set_normalizes_and_filters_empty() {
    let mut reg = SessionRootsRegistry::default();
    reg.set("sess-1", &["file:///home/user/proj/", ""]);
    let roots = reg.get("sess-1").unwrap();
    assert_eq!(roots.len(), 1);
    assert_eq!(roots[0], "/home/user/proj");
}

#[test]
fn test_remove() {
    let mut reg = SessionRootsRegistry::default();
    reg.set("sess-1", &["/a"]);
    assert_eq!(reg.len(), 1);
    reg.remove("sess-1");
    assert_eq!(reg.len(), 0);
}

#[test]
fn test_pinned_root_shadows_reported_roots() {
    let mut reg = SessionRootsRegistry::default();
    let (reported, pin_in, pin_norm) = ("file:///home/u/reported/", "/home/u/Pinned", "/home/u/Pinned");
    reg.set("sess-1", &[reported]);
    reg.set_pinned("sess-1", pin_in);
    assert_eq!(reg.get("sess-1"), Some(vec![pin_norm.to_string()]));
    assert_eq!(reg.get_pinned("sess-1"), Some(pin_norm.to_string()));
}

#[test]
fn pending_header_pins_when_session_id_arrives() {
    let mut reg = SessionRootsRegistry::default();
    let (pin_in, pin_norm) = (
        "/Users/joe/Desktop/Repos/Personal/mcp-mux",
        "/Users/joe/Desktop/Repos/Personal/mcp-mux",
    );
    reg.remember_pending_workspace("client-1", pin_in);
    assert!(reg.get_pinned("sess-new").is_none());
    assert!(reg.apply_pending_workspace("client-1", "sess-new"));
    assert_eq!(reg.get("sess-new"), Some(vec![pin_norm.to_string()]));

    reg.set("sess-new", &["/a", "/b", "/c", "/d", "/e", "/f"]);
    assert_eq!(
        reg.get("sess-new"),
        Some(vec![pin_norm.to_string()]),
        "six-way roots/list must stay shadowed by the pending pin"
    );
}

#[test]
fn empty_pending_header_does_not_pin() {
    let mut reg = SessionRootsRegistry::default();
    reg.remember_pending_workspace("client-1", "   ");
    assert!(!reg.apply_pending_workspace("client-1", "sess-1"));
    assert!(reg.get_pinned("sess-1").is_none());
}

#[test]
fn set_pinned_clears_last_resolution() {
    let mut reg = SessionRootsRegistry::default();
    assert!(reg.record_resolution("sess-1", Some("fs-pending")));
    assert!(!reg.record_resolution("sess-1", Some("fs-pending")));
    reg.set_pinned("sess-1", "/p");
    assert!(
        reg.record_resolution("sess-1", Some("fs-bound")),
        "pin must drop the cached PendingRoots resolution"
    );
}

#[test]
fn test_set_pinned_ignores_empty_and_normalizes() {
    let mut reg = SessionRootsRegistry::default();
    reg.set_pinned("sess-1", "   ");
    assert!(reg.get_pinned("sess-1").is_none());
    let (pin_in, pin_norm) = ("file:///home/u/Foo/", "/home/u/Foo");
    reg.set_pinned("sess-1", pin_in);
    assert_eq!(reg.get_pinned("sess-1"), Some(pin_norm.to_string()));
}

#[test]
fn test_remove_clears_pinned() {
    let mut reg = SessionRootsRegistry::default();
    reg.set_pinned("sess-1", "/p");
    assert!(reg.get_pinned("sess-1").is_some());
    reg.remove("sess-1");
    assert!(reg.get_pinned("sess-1").is_none());
    assert!(reg.get("sess-1").is_none());
}

#[test]
fn test_record_resolution_flips_on_change() {
    let mut reg = SessionRootsRegistry::default();
    assert!(reg.record_resolution("sess-1", Some("fs-fallback")));
    assert!(!reg.record_resolution("sess-1", Some("fs-fallback")));
    assert!(reg.record_resolution("sess-1", Some("fs-bound")));
    assert!(reg.record_resolution("sess-1", None));
    assert!(!reg.record_resolution("sess-1", None));
}

#[test]
fn test_forget_unmapped_roots_clears_unmapped_sessions() {
    let mut reg = SessionRootsRegistry::default();
    let (mapped_in, unmapped_in) = ("file:///home/u/mapped/", "file:///home/u/unmapped/");
    reg.set("sess-mapped", &[mapped_in]);
    reg.set("sess-unmapped", &[unmapped_in]);
    reg.record_resolution("sess-unmapped", Some("fs-x"));

    let mapped_norm = reg.get("sess-mapped").unwrap()[0].clone();
    let dropped = reg.forget_unmapped_roots(|root: &str| root == mapped_norm);

    assert_eq!(dropped.len(), 1);
    assert_ne!(dropped[0], mapped_norm);
    assert_eq!(reg.get("sess-mapped"), Some(vec![mapped_norm]));
    assert!(reg.get("sess-unmapped").is_none());
    assert!(reg.record_resolution("sess-unmapped", Some("fs-x")));
}

#[test]
fn test_forget_unmapped_roots_keeps_mixed_session() {
    let mut reg = SessionRootsRegistry::default();
    let (mapped_in, unmapped_in) = ("file:///home/u/keep/", "file:///home/u/drop/");
    reg.set("sess-mixed", &[mapped_in, unmapped_in]);
    let roots = reg.get("sess-mixed").unwrap();
    let keep = roots[0].clone();

    let dropped = reg.forget_unmapped_roots(|root: &str| root == keep);

    assert_eq!(dropped.len(), 1);
    assert_eq!(reg.get("sess-mixed"), Some(vec![keep]));
}

#[test]
fn single_candidate_pins_but_multiple_only_constrain() {
    let mut reg = SessionRootsRegistry::default();
    reg.set_candidates("sess-one", CANDIDATES[0]);
    assert_eq!(reg.get_pinned("sess-one"), Some(CANDIDATES[0].to_string()));

    let many = CANDIDATES.join(",");
    reg.set_candidates("sess-many", &many);
    assert!(
        reg.get_pinned("sess-many").is_none(),
        "a multi-folder set must not pin any of its members"
    );
    assert_eq!(reg.get_candidates("sess-many").unwrap().len(), 3);
}

#[test]
fn candidate_set_constrains_declarable_roots() {
    let mut reg = SessionRootsRegistry::default();
    reg.set_candidates("sess-1", &CANDIDATES.join(","));
    assert!(reg.is_candidate("sess-1", CANDIDATES[1]));
    assert!(
        !reg.is_candidate("sess-1", "/repos/not-open"),
        "a folder the window doesn't have open must be refusable"
    );
    assert!(reg.is_candidate("sess-unknown", "/repos/anything"));
}

#[test]
fn parse_candidate_set_dedupes_and_drops_blanks() {
    let raw = format!("{a},,{a},  ,{b}", a = CANDIDATES[0], b = CANDIDATES[1]);
    assert_eq!(
        parse_candidate_set(&raw),
        vec![CANDIDATES[0].to_string(), CANDIDATES[1].to_string()]
    );
    assert!(parse_candidate_set("  ,  ").is_empty());
}

#[test]
fn unexpanded_template_never_becomes_a_candidate() {
    assert!(parse_candidate_set("${WORKSPACE_FOLDER_PATHS}").is_empty());

    let mut reg = SessionRootsRegistry::default();
    reg.set_candidates("sess-1", "${WORKSPACE_FOLDER_PATHS}");
    assert!(reg.get_candidates("sess-1").is_none());
    assert!(
        reg.is_candidate("sess-1", CANDIDATES[0]),
        "an unexpanded set must leave the session unconstrained, not deny it"
    );

    let mixed = format!("{},${{WORKSPACE_FOLDER_PATHS}}", CANDIDATES[0]);
    assert_eq!(parse_candidate_set(&mixed), vec![CANDIDATES[0].to_string()]);
}

#[test]
fn pending_candidates_apply_when_session_id_arrives() {
    let mut reg = SessionRootsRegistry::default();
    reg.remember_pending_candidates("client-1", CANDIDATES[0]);
    assert!(reg.get_candidates("sess-new").is_none());
    assert!(reg.apply_pending_candidates("client-1", "sess-new"));
    assert_eq!(reg.get_pinned("sess-new"), Some(CANDIDATES[0].to_string()));
}

#[test]
fn test_remove_clears_resolution_too() {
    let mut reg = SessionRootsRegistry::default();
    reg.record_resolution("sess-1", Some("fs-a"));
    reg.remove("sess-1");
    assert!(reg.record_resolution("sess-1", Some("fs-a")));
}

#[test]
fn list_all_roots_is_sorted_and_deduplicated() {
    let mut reg = SessionRootsRegistry::new();
    reg.set("s1", &["/b", "/a"]);
    reg.set("s2", &["/a", "/c/"]);
    assert_eq!(reg.list_all_roots(), vec!["/a".to_string(), "/b".to_string(), "/c".to_string()]);
}

#[test]
fn forget_root_drops_it_everywhere_and_reports_it() {
    let mut reg = SessionRootsRegistry::new();
    reg.set("s1", &["/a", "/b"]);
    reg.set("s2", &["/a"]);
    assert!(reg.forget_root("/a/"));
    assert_eq!(reg.get("s1"), Some(vec!["/b".to_string()]));
    assert!(reg.get("s2").is_none());
    assert!(!reg.forget_root("/zzz"));
}

#[test]
fn probe_throttle_follows_the_clock() {
    let mut reg = SessionRootsRegistry::new();
    assert!(!reg.should_throttle_probe("s", 100, 1_000));
    reg.mark_probe_completed("s", 1_000);
    assert!(reg.should_throttle_probe("s", 100, 1_050));
    assert!(!reg.should_throttle_probe("s", 100, 1_100));
    assert!(reg.should_throttle_probe("s", 100, 900));
}

#[test]
fn first_seen_is_stamped_once() {
    let mut reg = SessionRootsRegistry::new();
    assert_eq!(reg.elapsed_since_first_seen("s", 500), 0);
    assert_eq!(reg.elapsed_since_first_seen("s", 800), 300);
    reg.remove("s");
    assert_eq!(reg.elapsed_since_first_seen("s", 900), 0);
}

#[test]
fn roots_capability_is_recorded() {
    let mut reg = SessionRootsRegistry::new();
    assert_eq!(reg.is_roots_capable("s"), None);
    reg.set_roots_capable("s", true);
    assert_eq!(reg.is_roots_capable("s"), Some(true));
}

#[test]
fn search_cache_is_evicted_for_sessions_reporting_the_root() {
    let mut reg = SessionRootsRegistry::new();
    reg.set("s1", &["/w"]);
    reg.set("s2", &["/other"]);
    reg.remember_search_index("s1", 7);
    reg.remember_search_index("s2", 9);
    reg.evict_search_cache_for_workspace_root("file:///w/");
    assert_eq!(reg.cached_search_index("s1"), None);
    assert_eq!(reg.cached_search_index("s2"), Some(9));
    reg.remember_search_index("s2", 9);
    reg.set_pinned("s2", "/pin");
    assert_eq!(reg.cached_search_index("s2"), None);
}

#[test]
fn empty_registry_reports_empty() {
    let mut reg = SessionRootsRegistry::new();
    assert!(reg.is_empty());
    reg.set("s", &[]);
    assert!(!reg.is_empty());
    assert_eq!(reg.get("s"), Some(vec![]));
}

#[test]
fn only_template_free_pieces_become_candidates() {
    assert!(parse_candidate_set("${A},/work/${B},  ${C}  ").is_empty());
    assert_eq!(
        parse_candidate_set("/work/${B},/srv/app/,${A}"),
        vec!["/srv/app".to_string()]
    );
}
