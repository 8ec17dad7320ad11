//! Supervisor core for a fleet of terminal-multiplexer-hosted coding agents.
//!
//! The library holds the verified logic of the supervisor: session-name
//! handling, the liveness engine, the hierarchy and grouping model, the
//! persisted state (parents, worker tasks, projects, memory snapshot), the
//! sandbox command-wrapping policy, and the decision functions behind the
//! HTTP surface and the dashboard loop. The unverifiable edges (the
//! multiplexer CLI, files, sockets, the terminal) live outside the library
//! and hand it plain values.

pub mod api;
pub mod config;
pub mod dispatch;
pub mod health;
pub mod hierarchy;
pub mod names;
pub mod persist;
pub mod projects;
pub mod protocol;
pub mod sandbox;
pub mod session;
pub mod state;
pub mod text;

use vstd::prelude::*;

verus! {

/// Reserved session name of the root agent (the Executive Assistant).
pub fn manager_session_name() -> (r: &'static str)
    ensures
        r@ == spec_manager_session(),
{
    "oma-manager"
}

/// Reserved session name that hosts the dashboard itself; never an agent.
pub fn dashboard_session_name() -> (r: &'static str)
    ensures
        r@ == spec_dashboard_session(),
{
    "omar-dashboard"
}

/// The root agent's session name, as specification text.
pub open spec fn spec_manager_session() -> Seq<char> {
    "oma-manager"@
}

/// The dashboard's own session name, as specification text.
pub open spec fn spec_dashboard_session() -> Seq<char> {
    "omar-dashboard"@
}

} // verus!
