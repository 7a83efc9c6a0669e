use mcpmux::config_events::{plan_config_update, refresh_action, ConfigUpdatePlan, RefreshAction};
use mcpmux::transport::InstalledServer;

#[test]
fn only_enabled_installed_servers_are_refreshed() {
    assert_eq!(plan_config_update(None), ConfigUpdatePlan::Skip);
    let server = InstalledServer::new("space", "srv");
    assert_eq!(plan_config_update(Some(&server)), ConfigUpdatePlan::Refresh);
    let disabled = InstalledServer::new("space", "srv").with_enabled(false);
    assert_eq!(plan_config_update(Some(&disabled)), ConfigUpdatePlan::Skip);
}

#[test]
fn failed_resolution_evicts() {
    assert_eq!(refresh_action(true), RefreshAction::ReconnectFresh);
    assert_eq!(refresh_action(false), RefreshAction::EvictOnly);
}
