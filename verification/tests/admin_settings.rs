use mcpmux::admin::{
    check_gateway_port, format_bridge_error_message, gateway_not_running, AdminConfig, CfAccessError, DEFAULT_ADMIN_PORT,
};

#[test]
fn default_config_binds_loopback_default_port() {
    let c = AdminConfig::default();
    assert_eq!(c.bind_addr(), "127.0.0.1:45819");
    assert_eq!(c.port, DEFAULT_ADMIN_PORT);
    assert!(!c.trust_cf_access);
}

#[test]
fn bind_addr_joins_host_and_port() {
    let c = AdminConfig { host: "0.0.0.0".to_string(), port: 8, trust_cf_access: true, cf_team_domain: None };
    assert_eq!(c.bind_addr(), "0.0.0.0:8");
}

#[test]
fn privileged_ports_are_refused() {
    assert_eq!(check_gateway_port(1024), Ok(1024));
    assert_eq!(
        check_gateway_port(80),
        Err("Port 80 is in the privileged range (≤ 1023). Choose a port between 1024 and 65535.".to_string())
    );
}

#[test]
fn error_messages() {
    assert_eq!(CfAccessError::InvalidJwt("bad".into()).message(), "invalid JWT: bad");
    assert_eq!(CfAccessError::UnknownKeyId("k1".into()).message(), "unknown key id: k1");
    assert_eq!(CfAccessError::Config("no certs".into()).message(), "no certs");
    assert_eq!(format_bridge_error_message("PORT_IN_USE:45818:gateway"), "PORT_IN_USE:45818:gateway");
    assert_eq!(gateway_not_running(), "Gateway not running");
}
