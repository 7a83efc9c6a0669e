use mcpmux::strmap::StrMap;
use mcpmux::transport::{
    build_transport_config, merge_input_defaults, InputDefinition, InstalledServer, ResolvedTransport,
    TransportConfig, TransportMetadata, TransportResolutionOptions, UpdatePolicy,
};
use mcpmux::package::{is_semver_like, npm_version_tag_is_floating};

fn map(pairs: &[(&str, &str)]) -> StrMap {
    StrMap::from_pairs(pairs.iter().map(|(k, v)| (k.to_string(), v.to_string())).collect())
}

fn make_installed(input_values: StrMap) -> InstalledServer {
    InstalledServer::new("test-space", "test-server").with_inputs(input_values)
}

fn make_input(id: &str, default: Option<&str>) -> InputDefinition {
    InputDefinition { id: id.to_string(), required: default.is_none(), default: default.map(|s| s.to_string()) }
}

fn stdio(command: &str, args: &[&str], env: StrMap, inputs: Vec<InputDefinition>) -> TransportConfig {
    TransportConfig::Stdio {
        command: command.to_string(),
        args: args.iter().map(|a| a.to_string()).collect(),
        env,
        metadata: TransportMetadata { inputs },
    }
}

fn stdio_env(resolved: ResolvedTransport) -> StrMap {
    match resolved {
        ResolvedTransport::Stdio { env, .. } => env,
        _ => panic!("Expected Stdio transport"),
    }
}

fn stdio_args(resolved: ResolvedTransport) -> Vec<String> {
    match resolved {
        ResolvedTransport::Stdio { args, .. } => args,
        _ => panic!("Expected Stdio transport"),
    }
}

#[test]
fn test_default_used_when_user_provides_no_value() {
    let transport = stdio("node", &["server.js"], map(&[("LOG_LEVEL", "${input:LOG_LEVEL}")]),
        vec![make_input("LOG_LEVEL", Some("info"))]);
    let installed = make_installed(StrMap::new());
    let env = stdio_env(build_transport_config(&transport, &installed, None, TransportResolutionOptions::default()));
    assert_eq!(env.get("LOG_LEVEL"), Some(&"info".to_string()));
}

#[test]
fn test_user_value_overrides_default() {
    let transport = stdio("node", &[], map(&[("LOG_LEVEL", "${input:LOG_LEVEL}")]),
        vec![make_input("LOG_LEVEL", Some("info"))]);
    let installed = make_installed(map(&[("LOG_LEVEL", "debug")]));
    let env = stdio_env(build_transport_config(&transport, &installed, None, TransportResolutionOptions::default()));
    assert_eq!(env.get("LOG_LEVEL"), Some(&"debug".to_string()));
}

#[test]
fn test_default_resolves_in_args() {
    let transport = stdio("node", &["--port", "${input:PORT}"], StrMap::new(), vec![make_input("PORT", Some("8080"))]);
    let installed = make_installed(StrMap::new());
    let args = stdio_args(build_transport_config(&transport, &installed, None, TransportResolutionOptions::default()));
    assert_eq!(args[0], "--port");
    assert_eq!(args[1], "8080");
}

#[test]
fn test_default_resolves_in_command() {
    let transport = stdio("${input:BINARY_PATH}", &[], StrMap::new(), vec![make_input("BINARY_PATH", Some("/usr/local/bin/mcp"))]);
    let installed = make_installed(StrMap::new());
    match build_transport_config(&transport, &installed, None, TransportResolutionOptions::default()) {
        ResolvedTransport::Stdio { command, .. } => assert_eq!(command, "/usr/local/bin/mcp"),
        _ => panic!("Expected Stdio transport"),
    }
}

#[test]
fn test_default_resolves_in_http_url() {
    let transport = TransportConfig::Http {
        url: "https://api.example.com/${input:API_VERSION}/mcp".to_string(),
        headers: StrMap::new(),
        metadata: TransportMetadata { inputs: vec![make_input("API_VERSION", Some("v2"))] },
    };
    let installed = make_installed(StrMap::new());
    match build_transport_config(&transport, &installed, None, TransportResolutionOptions::default()) {
        ResolvedTransport::Http { url, .. } => assert_eq!(url, "https://api.example.com/v2/mcp"),
        _ => panic!("Expected Http transport"),
    }
}

#[test]
fn test_default_resolves_in_http_headers() {
    let transport = TransportConfig::Http {
        url: "https://api.example.com/mcp".to_string(),
        headers: map(&[("X-Api-Key", "${input:API_KEY}")]),
        metadata: TransportMetadata { inputs: vec![make_input("API_KEY", Some("default-key"))] },
    };
    let installed = make_installed(StrMap::new());
    match build_transport_config(&transport, &installed, None, TransportResolutionOptions::default()) {
        ResolvedTransport::Http { headers, .. } => assert_eq!(headers.get("X-Api-Key"), Some(&"default-key".to_string())),
        _ => panic!("Expected Http transport"),
    }
}

#[test]
fn test_multiple_defaults_some_overridden() {
    let transport = stdio("node", &[], map(&[
        ("LOG_LEVEL", "${input:LOG_LEVEL}"),
        ("PORT", "${input:PORT}"),
        ("API_KEY", "${input:API_KEY}"),
    ]), vec![
        make_input("LOG_LEVEL", Some("info")),
        make_input("PORT", Some("3000")),
        make_input("API_KEY", None),
    ]);
    let installed = make_installed(map(&[("PORT", "9090"), ("API_KEY", "secret123")]));
    let env = stdio_env(build_transport_config(&transport, &installed, None, TransportResolutionOptions::default()));
    assert_eq!(env.get("LOG_LEVEL"), Some(&"info".to_string()));
    assert_eq!(env.get("PORT"), Some(&"9090".to_string()));
    assert_eq!(env.get("API_KEY"), Some(&"secret123".to_string()));
}

#[test]
fn test_no_default_leaves_placeholder_unresolved() {
    let transport = stdio("node", &[], map(&[("API_KEY", "${input:API_KEY}")]), vec![make_input("API_KEY", None)]);
    let installed = make_installed(StrMap::new());
    let env = stdio_env(build_transport_config(&transport, &installed, None, TransportResolutionOptions::default()));
    assert_eq!(env.get("API_KEY"), Some(&"${input:API_KEY}".to_string()));
}

#[test]
fn test_merge_input_defaults_only_fills_missing() {
    let transport = stdio("node", &[], StrMap::new(), vec![
        make_input("A", Some("default_a")),
        make_input("B", Some("default_b")),
    ]);
    let merged = merge_input_defaults(&transport, &map(&[("A", "user_a")]));
    assert_eq!(merged.get("A"), Some(&"user_a".to_string()));
    assert_eq!(merged.get("B"), Some(&"default_b".to_string()));
}

#[test]
fn test_pinned_policy_injects_npx_version() {
    let transport = stdio("npx", &["-y", "firebase-tools"], StrMap::new(), vec![]);
    let installed = InstalledServer::new("space", "firebase")
        .with_update_policy(UpdatePolicy::Pinned)
        .with_pinned_version(Some("13.0.0"));
    let args = stdio_args(build_transport_config(&transport, &installed, None, TransportResolutionOptions::default()));
    assert_eq!(args[1], "firebase-tools@13.0.0");
}

#[test]
fn test_explicit_update_applies_latest_for_notify_policy() {
    let transport = stdio("npx", &["-y", "inngest-cloud-mcp"], StrMap::new(), vec![]);
    let installed = InstalledServer::new("space", "inngest").with_update_policy(UpdatePolicy::Notify);
    let args = stdio_args(build_transport_config(&transport, &installed, None,
        TransportResolutionOptions { apply_package_update: true }));
    assert_eq!(args[1], "inngest-cloud-mcp@latest");
}

#[test]
fn test_explicit_update_injects_probed_semver_for_notify_policy() {
    let transport = stdio("npx", &["-y", "@upstash/context7-mcp@latest"], StrMap::new(), vec![]);
    let mut installed = InstalledServer::new("space", "context7").with_update_policy(UpdatePolicy::Notify);
    installed.latest_available_version = Some("3.2.1".to_string());
    let args = stdio_args(build_transport_config(&transport, &installed, None,
        TransportResolutionOptions { apply_package_update: true }));
    assert_eq!(args[1], "@upstash/context7-mcp@3.2.1");
}

#[test]
fn test_explicit_update_respects_pinned_policy() {
    let transport = stdio("npx", &["-y", "firebase-tools"], StrMap::new(), vec![]);
    let installed = InstalledServer::new("space", "firebase")
        .with_update_policy(UpdatePolicy::Pinned)
        .with_pinned_version(Some("13.0.0"));
    let args = stdio_args(build_transport_config(&transport, &installed, None,
        TransportResolutionOptions { apply_package_update: true }));
    assert_eq!(args[1], "firebase-tools@13.0.0");
}

#[test]
fn npm_version_tag_is_floating_recognizes_latest() {
    assert!(npm_version_tag_is_floating("latest"));
    assert!(!is_semver_like("latest"));
    assert!(is_semver_like("3.2.1"));
}

#[test]
fn explicit_update_injects_probed_semver_for_notify_policy() {
    let transport = stdio("npx", &["-y", "inngest-cloud-mcp"], StrMap::new(), vec![]);
    let mut installed = InstalledServer::new("space", "inngest").with_update_policy(UpdatePolicy::Notify);
    installed.latest_available_version = Some("3.2.1".to_string());
    let args = stdio_args(build_transport_config(&transport, &installed, None,
        TransportResolutionOptions { apply_package_update: true }));
    assert_eq!(args[1], "inngest-cloud-mcp@3.2.1");
}

#[test]
fn explicit_update_falls_back_to_latest_without_probed_semver() {
    let transport = stdio("npx", &["-y", "inngest-cloud-mcp"], StrMap::new(), vec![]);
    let installed = InstalledServer::new("space", "inngest").with_update_policy(UpdatePolicy::Notify);
    let args = stdio_args(build_transport_config(&transport, &installed, None,
        TransportResolutionOptions { apply_package_update: true }));
    assert_eq!(args[1], "inngest-cloud-mcp@latest");
}

#[test]
fn explicit_update_respects_pinned_policy() {
    let transport = stdio("npx", &["-y", "firebase-tools"], StrMap::new(), vec![]);
    let mut installed = InstalledServer::new("space", "firebase")
        .with_update_policy(UpdatePolicy::Pinned)
        .with_pinned_version(Some("13.0.0"));
    installed.latest_available_version = Some("14.0.0".to_string());
    let args = stdio_args(build_transport_config(&transport, &installed, None,
        TransportResolutionOptions { apply_package_update: true }));
    assert_eq!(args[1], "firebase-tools@13.0.0");
}
