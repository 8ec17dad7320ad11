//! The supervisor's configuration: dashboard, health, agent, API and
//! sandbox sections, with their documented defaults. Reading the file and
//! decoding its format happen outside the library; the values arrive
//! here as plain fields.

use vstd::prelude::*;

use crate::sandbox::SandboxConfig;
use crate::text::str_starts_with;

verus! {

/// Dashboard settings: the tick interval and the session prefix that
/// marks owned sessions.
pub struct DashboardConfig {
    /// Seconds between refresh ticks.
    pub refresh_interval: u64,
    /// Required prefix of owned sessions; may be empty.
    pub session_prefix: String,
}

impl Default for DashboardConfig {
    fn default() -> (r: Self)
        ensures
            r.refresh_interval == 1,
            r.session_prefix@ == "omar-agent-"@,
    {
        DashboardConfig { refresh_interval: 1, session_prefix: "omar-agent-".to_owned() }
    }
}

/// Health settings for the timestamp-based fallback classifier.
pub struct HealthConfig {
    /// Seconds of inactivity before a session counts as idle.
    pub idle_threshold_seconds: u64,
}

impl Default for HealthConfig {
    fn default() -> (r: Self)
        ensures
            r.idle_threshold_seconds == 15,
    {
        HealthConfig { idle_threshold_seconds: 15 }
    }
}

/// Agent spawning settings.
pub struct AgentConfig {
    /// The command run for a new agent when none is given.
    pub default_command: String,
    /// The working directory for new agents; `.` means the current one.
    pub default_workdir: String,
}

impl Default for AgentConfig {
    fn default() -> (r: Self)
        ensures
            r.default_command@ == "opencode"@,
            r.default_workdir@ == "."@,
    {
        AgentConfig {
            default_command: "opencode".to_owned(),
            default_workdir: ".".to_owned(),
        }
    }
}

/// HTTP surface settings.
pub struct ApiConfig {
    /// Whether the HTTP surface is served at all.
    pub enabled: bool,
    /// The address to bind.
    pub host: String,
    /// The port to listen on.
    pub port: u16,
}

impl Default for ApiConfig {
    fn default() -> (r: Self)
        ensures
            r.enabled,
            r.host@ == "127.0.0.1"@,
            r.port == 9876,
    {
        ApiConfig { enabled: true, host: "127.0.0.1".to_owned(), port: 9876 }
    }
}

/// The whole configuration.
pub struct Config {
    pub dashboard: DashboardConfig,
    pub health: HealthConfig,
    pub agent: AgentConfig,
    pub api: ApiConfig,
    pub sandbox: SandboxConfig,
}

impl Default for Config {
    fn default() -> (r: Self)
        ensures
            r.dashboard.refresh_interval == 1,
            r.dashboard.session_prefix@ == "omar-agent-"@,
            r.health.idle_threshold_seconds == 15,
            r.agent.default_command@ == "opencode"@,
            r.agent.default_workdir@ == "."@,
            r.api.enabled,
            r.api.host@ == "127.0.0.1"@,
            r.api.port == 9876,
            !r.sandbox.enabled,
    {
        Config {
            dashboard: DashboardConfig::default(),
            health: HealthConfig::default(),
            agent: AgentConfig::default(),
            api: ApiConfig::default(),
            sandbox: SandboxConfig::default(),
        }
    }
}

/// A path with a leading `~/` replaced by the home directory, when one is
/// known; any other path unchanged.
pub open spec fn expand_tilde_spec(path: Seq<char>, home: Option<Seq<char>>) -> Seq<char> {
    if "~/"@.is_prefix_of(path) {
        match home {
            Some(h) => h + path.skip(1),
            None => path,
        }
    } else {
        path
    }
}

/// Expands a leading `~/` in a configured path against the given home
/// directory.
pub fn expand_tilde(path: &str, home: Option<&String>) -> (r: String)
    ensures
        r@ == expand_tilde_spec(
            path@,
            match home {
                Some(h) => Some(h@),
                None => None,
            },
        ),
{
    if str_starts_with(path, "~/") {
        match home {
            Some(h) => {
                let rest = crate::text::strip_prefix_str(path, "~");
                let mut r = h.clone();
                r.append(rest);
                proof {
                    reveal_strlit("~");
                    reveal_strlit("~/");
                    assert("~"@ =~= "~/"@.take(1));
                    assert("~"@.is_prefix_of(path@)) by {
                        assert("~"@ =~= path@.subrange(0, 1));
                    }
                    assert(r@ =~= h@ + path@.skip(1));
                }
                r
            },
            None => path.to_owned(),
        }
    } else {
        path.to_owned()
    }
}

} // verus!
