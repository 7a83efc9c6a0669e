use mcpmux::discovery::{
    all_tokens_present, discovery_filter, levenshtein_suggestions, matches_token_overlap, page_window,
    search_haystack, tokenize, DetailLevel, DiscoveryEntry,
};

fn entry(haystack: &str) -> DiscoveryEntry {
    DiscoveryEntry { server_id: "test".to_string(), haystack: haystack.to_string() }
}

#[test]
fn levenshtein_suggests_near_match() {
    let candidates = vec!["github_list_issues".to_string(), "github_get_me".to_string()];
    let suggestions = levenshtein_suggestions("list_isses", &candidates, 2);
    assert_eq!(suggestions.first().map(String::as_str), Some("github_list_issues"));
}

#[test]
fn levenshtein_orders_by_distance_then_name_and_limits() {
    let candidates = vec!["abd".to_string(), "abc".to_string(), "xyz".to_string(), "ABC".to_string()];
    assert_eq!(levenshtein_suggestions("abc", &candidates, 3), vec!["ABC", "abc", "abd"]);
    assert!(levenshtein_suggestions("", &candidates, 3).is_empty());
    assert!(levenshtein_suggestions("abc", &candidates, 0).is_empty());
}

#[test]
fn token_overlap_matches_hyphenated_tool_name() {
    let entries = vec![entry("canva_list-folder-items list-folder-items List folder items")];
    let matched = discovery_filter(&entries, Some("list folder"), None);
    assert_eq!(matched, vec![0]);
}

#[test]
fn token_overlap_returns_zero_for_nonsense_query() {
    let entries = vec![entry("canva_list-folder-items list-folder-items List folder items")];
    assert!(discovery_filter(&entries, Some("xyznotreal"), None).is_empty());
}

#[test]
fn filter_respects_server_and_keeps_index_order() {
    let entries = vec![
        DiscoveryEntry { server_id: "a".to_string(), haystack: "list issues".to_string() },
        DiscoveryEntry { server_id: "b".to_string(), haystack: "list things".to_string() },
        DiscoveryEntry { server_id: "a".to_string(), haystack: "get me".to_string() },
        DiscoveryEntry { server_id: "a".to_string(), haystack: "LIST all".to_string() },
    ];
    assert_eq!(discovery_filter(&entries, Some("list"), Some("a")), vec![0, 3]);
    assert_eq!(discovery_filter(&entries, None, Some("b")), vec![1]);
    assert_eq!(discovery_filter(&entries, Some("  "), None), vec![0, 1, 2, 3]);
}

#[test]
fn tokenize_lowercases_and_splits_on_non_alphanumerics() {
    assert_eq!(tokenize("GitHub_list-Issues  v2"), vec!["github", "list", "issues", "v2"]);
    assert!(tokenize("--").is_empty());
}

#[test]
fn overlap_and_all_present() {
    let q = tokenize("list folder");
    assert!(matches_token_overlap(&q, "list something"));
    assert!(!all_tokens_present(&q, "list something"));
    assert!(all_tokens_present(&q, "Folder LIST"));
    assert!(matches_token_overlap(&[], "anything"));
    assert!(!all_tokens_present(&[], "anything"));
}

#[test]
fn haystack_joins_name_qualified_and_description() {
    assert_eq!(search_haystack("list", "gh_list", Some("Lists")), "list gh_list Lists");
    assert_eq!(search_haystack("list", "gh_list", None), "list gh_list ");
}

#[test]
fn detail_level_parses_wire_names() {
    assert_eq!(DetailLevel::parse("name"), Some(DetailLevel::Name));
    assert_eq!(DetailLevel::parse("description"), Some(DetailLevel::Description));
    assert_eq!(DetailLevel::parse("schema"), Some(DetailLevel::Schema));
    assert_eq!(DetailLevel::parse("Schema"), None);
}

#[test]
fn page_window_clamps_and_continues() {
    let w = page_window(250, 0, None);
    assert_eq!((w.offset, w.len, w.next_cursor.as_deref()), (0, 1, Some("1")));
    let w = page_window(250, 500, Some("100"));
    assert_eq!((w.offset, w.len, w.next_cursor.as_deref()), (100, 100, Some("200")));
    let w = page_window(250, 100, Some("200"));
    assert_eq!((w.offset, w.len, w.next_cursor), (200, 50, None));
    let w = page_window(10, 5, Some("junk"));
    assert_eq!((w.offset, w.len, w.next_cursor.as_deref()), (0, 5, Some("5")));
    let w = page_window(10, 5, Some("99"));
    assert_eq!((w.offset, w.len, w.next_cursor), (99, 0, None));
}
