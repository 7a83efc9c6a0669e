use mcpmux::diagnose::{
    build_config_view, classify_health, has_missing_required_inputs, parse_missing_required_inputs,
    ConnectionStatus, ServerHealth,
};
use mcpmux::strmap::StrMap;
use mcpmux::transport::{InputDefinition, InstalledServer, ServerDefinition, TransportConfig, TransportMetadata};

fn map(pairs: &[(&str, &str)]) -> StrMap {
    StrMap::from_pairs(pairs.iter().map(|(k, v)| (k.to_string(), v.to_string())).collect())
}

fn stdio_definition(inputs: Vec<InputDefinition>) -> ServerDefinition {
    ServerDefinition {
        id: "test.server".to_string(),
        name: "Test".to_string(),
        transport: TransportConfig::Stdio {
            command: "npx".to_string(),
            args: vec!["-y".to_string(), "pkg".to_string()],
            env: map(&[("GITHUB_TOKEN", "${input:token}")]),
            metadata: TransportMetadata { inputs },
        },
    }
}

fn installed_with_definition(definition: &ServerDefinition, input_values: &[(&str, &str)]) -> InstalledServer {
    let mut server = InstalledServer::new("space", "test.server").with_definition(definition.clone());
    for (key, value) in input_values {
        server = server.with_input(key, value);
    }
    server
}

fn required_input(id: &str) -> InputDefinition {
    InputDefinition { id: id.to_string(), required: true, default: None }
}

fn optional_input(id: &str) -> InputDefinition {
    InputDefinition { required: false, ..required_input(id) }
}

#[test]
fn parse_missing_returns_required_ids_without_values() {
    let def = stdio_definition(vec![
        required_input("github_token"),
        optional_input("optional_flag"),
        required_input("api_key"),
    ]);
    let installed = installed_with_definition(&def, &[]);
    assert_eq!(
        parse_missing_required_inputs(&installed),
        vec!["api_key".to_string(), "github_token".to_string()]
    );
}

#[test]
fn parse_missing_treats_empty_string_as_missing() {
    let def = stdio_definition(vec![required_input("token")]);
    let installed = installed_with_definition(&def, &[("token", "")]);
    assert_eq!(parse_missing_required_inputs(&installed), vec!["token".to_string()]);
}

#[test]
fn parse_missing_empty_when_all_required_filled() {
    let def = stdio_definition(vec![required_input("token")]);
    let installed = installed_with_definition(&def, &[("token", "secret")]);
    assert!(parse_missing_required_inputs(&installed).is_empty());
}

#[test]
fn parse_missing_empty_without_cached_definition() {
    let installed = InstalledServer::new("space", "bare");
    assert!(parse_missing_required_inputs(&installed).is_empty());
}

#[test]
fn parse_missing_empty_on_invalid_cached_json() {
    // A cached definition that does not parse reaches the library as none.
    let mut installed = InstalledServer::new("space", "bad");
    installed.cached_definition = None;
    assert!(parse_missing_required_inputs(&installed).is_empty());
}

#[test]
fn has_missing_follows_parse() {
    let def = stdio_definition(vec![required_input("token")]);
    assert!(has_missing_required_inputs(&installed_with_definition(&def, &[])));
    assert!(!has_missing_required_inputs(&installed_with_definition(&def, &[("token", "x")])));
}

#[test]
fn classify_health_missing_inputs_beats_error_status() {
    assert_eq!(classify_health(ConnectionStatus::Error, true), ServerHealth::NeedsSetup);
}

#[test]
fn classify_health_error_and_auth_and_disconnected() {
    assert_eq!(classify_health(ConnectionStatus::Error, false), ServerHealth::Error);
    assert_eq!(classify_health(ConnectionStatus::AuthRequired, false), ServerHealth::AuthRequired);
    assert_eq!(classify_health(ConnectionStatus::Disconnected, false), ServerHealth::Disconnected);
}

#[test]
fn classify_health_connected_and_in_progress_are_healthy() {
    for status in [
        ConnectionStatus::Connected,
        ConnectionStatus::Connecting,
        ConnectionStatus::Refreshing,
        ConnectionStatus::Authenticating,
    ] {
        assert_eq!(classify_health(status, false), ServerHealth::Healthy, "expected healthy for {status:?}");
    }
}

#[test]
fn only_healthy_is_not_unhealthy() {
    assert!(!ServerHealth::Healthy.is_unhealthy());
    assert!(ServerHealth::Error.is_unhealthy());
    assert!(ServerHealth::NeedsSetup.is_unhealthy());
}

#[test]
fn build_config_view_stdio_redacts_values() {
    let def = stdio_definition(vec![required_input("github_token"), optional_input("extra")]);
    let installed = installed_with_definition(&def, &[("github_token", "ghp_secret")]);
    let view = build_config_view(&installed);
    assert_eq!(view.transport_type.as_deref(), Some("stdio"));
    assert_eq!(view.command.as_deref(), Some("npx"));
    assert_eq!(view.args, vec!["-y", "pkg"]);
    assert_eq!(view.env_keys, vec!["GITHUB_TOKEN"]);
    assert_eq!(view.input_keys, vec!["extra", "github_token"]);
    let text = format!("{view:?}");
    assert!(!text.contains("ghp_secret"));
    assert!(!text.contains("${input:token}"));
}

#[test]
fn build_config_view_http_includes_url_and_header_keys() {
    let definition = ServerDefinition {
        id: "remote".to_string(),
        name: "Remote".to_string(),
        transport: TransportConfig::Http {
            url: "https://mcp.example.com".to_string(),
            headers: map(&[("Authorization", "Bearer x")]),
            metadata: TransportMetadata { inputs: vec![required_input("api_key")] },
        },
    };
    let installed = installed_with_definition(&definition, &[("api_key", "sk_live_secret")]);
    let view = build_config_view(&installed);
    assert_eq!(view.transport_type.as_deref(), Some("http"));
    assert_eq!(view.url.as_deref(), Some("https://mcp.example.com"));
    assert!(view.command.is_none());
    assert_eq!(view.header_keys, vec!["Authorization"]);
    assert_eq!(view.input_keys, vec!["api_key"]);
    let text = format!("{view:?}");
    assert!(!text.contains("Bearer x"));
    assert!(!text.contains("sk_live_secret"));
}

#[test]
fn config_view_is_empty_without_definition() {
    let view = build_config_view(&InstalledServer::new("space", "bare"));
    assert!(view.transport_type.is_none() && view.args.is_empty() && view.input_keys.is_empty());
}
