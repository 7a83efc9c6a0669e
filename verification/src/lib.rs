//! Verified core of the mcpmux gateway: workspace-root normalization and
//! binding selection, transport resolution, session root bookkeeping,
//! FeatureSet resolution and the meta-tool helpers.

pub mod admin;
pub mod bind;
pub mod call_context;
pub mod catalog;
pub mod client;
pub mod config_events;
pub mod diagnose;
pub mod disclosure;
pub mod discovery;
pub mod hooks;
pub mod invoke;
pub mod meta;
pub mod ordering;
pub mod package;
pub mod resolver;
pub mod session_roots;
pub mod session_store;
pub mod strmap;
pub mod text;
pub mod transport;
pub mod warmer;
pub mod window;
pub mod workspace;
pub mod json;
