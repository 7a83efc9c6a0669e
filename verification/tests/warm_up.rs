use mcpmux::warmer::{hashes_missing, warm_candidates, WarmFeature};

fn feature(server_id: &str, is_tool: bool, hash: &str, text: &str) -> WarmFeature {
    WarmFeature {
        server_id: server_id.to_string(),
        is_tool,
        content_hash: hash.to_string(),
        haystack: text.to_string(),
    }
}

fn strings(items: &[&str]) -> Vec<String> {
    items.iter().map(|s| s.to_string()).collect()
}

#[test]
fn one_text_per_content_hash_on_the_server() {
    let features = vec![
        feature("gh", true, "h1", "list issues"),
        feature("gh", false, "h2", "a prompt"),
        feature("jira", true, "h3", "search"),
        feature("gh", true, "h1", "list issues again"),
        feature("gh", true, "h4", "create issue"),
    ];
    let got = warm_candidates(&features, "gh");
    assert_eq!(
        got,
        vec![
            ("h1".to_string(), "list issues".to_string()),
            ("h4".to_string(), "create issue".to_string())
        ]
    );
    assert!(warm_candidates(&features, "slack").is_empty());
}

#[test]
fn missing_hashes_skip_what_is_present() {
    let hashes = strings(&["h1", "h2", "h3"]);
    let in_memory = strings(&["h2"]);
    let after_memory = hashes_missing(&hashes, &in_memory);
    assert_eq!(after_memory, strings(&["h1", "h3"]));
    let stored = strings(&["h3", "h9"]);
    assert_eq!(hashes_missing(&after_memory, &stored), strings(&["h1"]));
    assert!(hashes_missing(&strings(&["h1"]), &strings(&["h1"])).is_empty());
}
