//! Reaction to a `ServerConfigUpdated` event: which pooled instance is
//! rebuilt from the stored configuration and how.

use vstd::prelude::*;
use crate::transport::InstalledServer;

verus! {

/// What to do about a server whose configuration changed.
#[derive(Debug, Clone, Copy, PartialEq, Eq, Structural)]
pub enum ConfigUpdatePlan {
    /// Not installed or disabled: leave the pool alone.
    Skip,
    /// Mark its features unavailable, re-resolve its transport, reconnect.
    Refresh,
}

/// How the refresh ends once the transport was re-resolved (or not).
#[derive(Debug, Clone, Copy, PartialEq, Eq, Structural)]
pub enum RefreshAction {
    /// Reconnect a fresh instance with the new transport.
    ReconnectFresh,
    /// Resolution failed: evict the stale instance only.
    EvictOnly,
}

/// Plan the reaction: only an installed, enabled server is refreshed.
pub fn plan_config_update(installed: Option<&InstalledServer>) -> (p: ConfigUpdatePlan)
    ensures
        p == (if installed matches Some(s) && s.enabled { ConfigUpdatePlan::Refresh } else { ConfigUpdatePlan::Skip }),
{
    match installed {
        Some(s) => if s.enabled {
            ConfigUpdatePlan::Refresh
        } else {
            ConfigUpdatePlan::Skip
        },
        None => ConfigUpdatePlan::Skip,
    }
}

/// A stale instance never keeps serving: a failed re-resolve evicts it.
pub fn refresh_action(resolved: bool) -> (a: RefreshAction)
    ensures
        a == (if resolved { RefreshAction::ReconnectFresh } else { RefreshAction::EvictOnly }),
{
    if resolved {
        RefreshAction::ReconnectFresh
    } else {
        RefreshAction::EvictOnly
    }
}

} // verus!
