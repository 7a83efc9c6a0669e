use mcpmux::client::{Client, ConnectionMode};
use uuid::Uuid;

#[test]
fn test_client_creation() {
    let client = Client::cursor();
    assert_eq!(client.name, "Cursor");
    assert_eq!(client.client_type, "cursor");
    assert!(matches!(client.connection_mode, ConnectionMode::FollowActive));
}

#[test]
fn test_grants() {
    let space_id = Uuid::new_v4().as_u128();
    let fs_id = Uuid::new_v4().as_u128();
    let client = Client::cursor().grant(space_id, vec![fs_id]);
    assert!(client.has_access_to(space_id));
    assert!(!client.has_access_to(Uuid::new_v4().as_u128()));
}

#[test]
fn regranting_a_space_replaces_its_grant() {
    let client = Client::vscode().grant(1, vec![10]).grant(2, vec![20]).grant(1, vec![]);
    assert!(!client.has_access_to(1));
    assert!(client.has_access_to(2));
    assert_eq!(client.grants.len(), 2);
}

#[test]
fn access_keys_are_prefixed_and_fresh() {
    let mut a = Client::vscode();
    a.generate_access_key();
    let key = a.access_key.clone().unwrap();
    assert!(key.starts_with("mcp_"));
    assert_eq!(key.len(), 36);
    a.generate_access_key();
    assert_ne!(a.access_key.unwrap(), key);
    assert_ne!(Client::cursor().id, Client::cursor().id);
}

use mcpmux::client::{connection_mode_label, grants_from_entries, parse_connection_mode, parse_grants};

#[test]
fn stored_connection_modes_round_trip() {
    let id = Uuid::new_v4();
    let locked = parse_connection_mode("locked", Some(&id.to_string()));
    assert!(matches!(locked, ConnectionMode::Locked { space_id } if space_id == id.as_u128()));
    assert_eq!(connection_mode_label(&locked), "locked");
    assert!(matches!(parse_connection_mode("locked", Some("nope")), ConnectionMode::FollowActive));
    assert!(matches!(parse_connection_mode("locked", None), ConnectionMode::FollowActive));
    let ask = parse_connection_mode("ask_on_change", None);
    assert!(matches!(&ask, ConnectionMode::AskOnChange { triggers } if triggers.is_empty()));
    assert_eq!(connection_mode_label(&ask), "ask_on_change");
    assert_eq!(connection_mode_label(&parse_connection_mode("weird", None)), "follow_active");
}

#[test]
fn stored_grants_keep_parseable_ids() {
    let space = Uuid::new_v4();
    let fs = Uuid::new_v4();
    let json = format!("{{\"{space}\": [\"{fs}\", \"junk\"], \"bad-key\": [\"{fs}\"]}}");
    let grants = parse_grants(Some(&json));
    assert_eq!(grants, vec![(space.as_u128(), vec![fs.as_u128()])]);
    assert!(parse_grants(Some("not json")).is_empty());
    assert!(parse_grants(None).is_empty());
}

#[test]
fn later_entries_for_the_same_space_win() {
    let space = Uuid::new_v4();
    let a = Uuid::new_v4();
    let b = Uuid::new_v4();
    let entries = vec![
        (space.to_string(), vec![a.to_string()]),
        ("not-a-uuid".to_string(), vec![b.to_string()]),
        (space.to_string().to_uppercase(), vec![b.to_string(), "junk".to_string()]),
    ];
    let grants = grants_from_entries(&entries);
    assert_eq!(grants, vec![(space.as_u128(), vec![b.as_u128()])]);
    assert!(grants_from_entries(&Vec::new()).is_empty());
}

use mcpmux::client::connection_mode_to_strings;

#[test]
fn access_keys_are_simple_uuids_after_the_prefix() {
    let mut c = Client::cursor();
    let before_id = c.id;
    c.generate_access_key();
    let key = c.access_key.clone().unwrap();
    let tail = &key[4..];
    assert_eq!(tail.len(), 32);
    assert!(tail.chars().all(|ch| ch.is_ascii_digit() || ('a'..='f').contains(&ch)));
    assert_eq!(c.id, before_id);
}

#[test]
fn stored_grants_follow_the_json_object() {
    let s1 = Uuid::new_v4();
    let s2 = Uuid::new_v4();
    let f1 = Uuid::new_v4();
    let f2 = Uuid::new_v4();
    let json = format!("{{\"{s1}\": [\"{f1}\", \"{f2}\"], \"{s2}\": [], \"nope\": [\"{f1}\"]}}");
    let mut grants = parse_grants(Some(&json));
    grants.sort_by_key(|g| g.0);
    let mut expected = vec![(s1.as_u128(), vec![f1.as_u128(), f2.as_u128()]), (s2.as_u128(), vec![])];
    expected.sort_by_key(|g| g.0);
    assert_eq!(grants, expected);
    assert!(parse_grants(Some("[1, 2]")).is_empty());
}

#[test]
fn connection_modes_round_trip_through_storage() {
    let id = Uuid::new_v4();
    let locked = ConnectionMode::Locked { space_id: id.as_u128() };
    let (label, stored_id) = connection_mode_to_strings(&locked);
    assert_eq!(label, "locked");
    assert_eq!(stored_id.as_deref(), Some(id.to_string().as_str()));
    let back = parse_connection_mode(label, stored_id.as_deref());
    assert!(matches!(back, ConnectionMode::Locked { space_id } if space_id == id.as_u128()));

    let (label, stored_id) = connection_mode_to_strings(&ConnectionMode::FollowActive);
    assert_eq!((label, stored_id.clone()), ("follow_active", None));
    assert!(matches!(parse_connection_mode(label, stored_id.as_deref()), ConnectionMode::FollowActive));

    let ask = ConnectionMode::AskOnChange { triggers: vec![] };
    let (label, stored_id) = connection_mode_to_strings(&ask);
    assert_eq!((label, stored_id.clone()), ("ask_on_change", None));
    assert!(matches!(parse_connection_mode(label, stored_id.as_deref()), ConnectionMode::AskOnChange { triggers } if triggers.is_empty()));
}
