use mcpmux::disclosure::{
    check_server_filter, count_on_server, feature_names_on_server, find_fetchable_prompt, is_server_active,
    join_strings, prompt_refusal, prompt_search_hint, resource_refusal, resource_search_hint,
    unfetchable_prompt_message, unreadable_resource_message, GrantedFeature, ServerFilterVerdict,
};

fn strings(items: &[&str]) -> Vec<String> {
    items.iter().map(|s| s.to_string()).collect()
}

fn row(server_id: &str, name: &str, available: bool) -> GrantedFeature {
    GrantedFeature {
        server_id: server_id.to_string(),
        feature_name: name.to_string(),
        qualified_name: format!("{server_id}_{name}"),
        is_available: available,
    }
}

#[test]
fn server_filter_verdicts() {
    let binding = strings(&["github", "jira"]);
    let granted = strings(&["github", "github", "slack"]);
    assert_eq!(check_server_filter(None, &binding, &granted), ServerFilterVerdict::Allowed);
    assert_eq!(check_server_filter(Some("github"), &binding, &granted), ServerFilterVerdict::Allowed);
    assert_eq!(check_server_filter(Some("slack"), &binding, &granted), ServerFilterVerdict::Inactive);
    assert_eq!(check_server_filter(Some("jira"), &binding, &granted), ServerFilterVerdict::NotInBinding);
}

#[test]
fn counting_and_activity() {
    let granted = strings(&["github", "github", "slack"]);
    assert_eq!(count_on_server(&granted, None), 3);
    assert_eq!(count_on_server(&granted, Some("github")), 2);
    assert_eq!(count_on_server(&granted, Some("jira")), 0);
    assert!(is_server_active("jira", &strings(&["github", "jira"])));
    assert!(!is_server_active("jir", &strings(&["github", "jira"])));
}

#[test]
fn join_matches_std_join() {
    assert_eq!(join_strings(&strings(&["a", "bb", "c"]), ", ").iter().collect::<String>(), "a, bb, c");
    assert_eq!(join_strings(&strings(&["only"]), ", ").iter().collect::<String>(), "only");
    assert!(join_strings(&[], ", ").is_empty());
}

#[test]
fn fetchable_prompt_lookup() {
    let rows = vec![row("gh", "review", false), row("gh", "summarize", true), row("jira", "review", true)];
    assert_eq!(find_fetchable_prompt(&rows, "gh", "summarize"), ("gh_summarize".to_string(), true));
    assert_eq!(find_fetchable_prompt(&rows, "gh", "review"), ("gh_review".to_string(), false));
    assert_eq!(find_fetchable_prompt(&rows, "gh", "missing"), ("gh_missing".to_string(), false));

    let mut renamed = row("gh", "draft", true);
    renamed.qualified_name = "github_draft".to_string();
    assert_eq!(find_fetchable_prompt(&[renamed], "gh", "draft"), ("github_draft".to_string(), true));
}

#[test]
fn prompt_names_on_one_server() {
    let rows = vec![row("gh", "review", true), row("jira", "triage", true), row("gh", "summarize", true)];
    assert_eq!(feature_names_on_server(&rows, "gh"), strings(&["review", "summarize"]));
    assert!(feature_names_on_server(&rows, "slack").is_empty());
}

#[test]
fn refusal_messages() {
    assert_eq!(
        unreadable_resource_message("file:///x", &[]),
        "resource 'file:///x' is not readable with current grants"
    );
    assert_eq!(
        unreadable_resource_message("file:///x", &strings(&["file:///y", "file:///z"])),
        "resource 'file:///x' is not readable \u{2014} did you mean file:///y, file:///z?"
    );
    assert_eq!(
        unfetchable_prompt_message("gh_rev", "gh", "rev", &[]),
        "prompt 'gh_rev' is not fetchable with current grants (server_id='gh', prompt='rev')"
    );
    assert_eq!(
        unfetchable_prompt_message("gh_rev", "gh", "rev", &strings(&["review"])),
        "prompt 'gh_rev' is not fetchable \u{2014} did you mean review?"
    );
}

#[test]
fn refusals_suggest_nearby_names() {
    let uris = strings(&["mem://notes", "mem://notez", "mem://other-thing"]);
    assert_eq!(
        resource_refusal("mem://note", &uris),
        "resource 'mem://note' is not readable \u{2014} did you mean mem://notes, mem://notez, mem://other-thing?"
    );
    assert_eq!(
        resource_refusal("mem://note", &[]),
        "resource 'mem://note' is not readable with current grants"
    );
    let index = vec![row("gh", "review", true), row("jira", "reviews", true)];
    assert_eq!(
        prompt_refusal("gh_reveiw", "gh", "reveiw", &index),
        "prompt 'gh_reveiw' is not fetchable \u{2014} did you mean review?"
    );
    assert_eq!(
        prompt_refusal("slack_x", "slack", "x", &index),
        "prompt 'slack_x' is not fetchable with current grants (server_id='slack', prompt='x')"
    );
}

#[test]
fn empty_search_hints() {
    assert!(resource_search_hint(0).unwrap().starts_with("No readable resources matched."));
    assert!(resource_search_hint(2).is_none());
    assert!(prompt_search_hint(0).unwrap().starts_with("No fetchable prompts matched."));
    assert!(prompt_search_hint(1).is_none());
}
