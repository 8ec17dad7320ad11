//! The HTTP surface's shapes and decisions: the request and response
//! bodies, the resolution of user-facing ids, the guards on killing, and
//! the parent inference at spawn time. The socket and the JSON transport
//! stand outside the library and hand these functions plain values.

use vstd::prelude::*;

use crate::health::health_label;
use crate::hierarchy;
use crate::names::{display_name, is_pm_name, resolve_session_name, resolve_spec, short_spec};
use crate::session::Session;
use crate::spec_manager_session;
use crate::text::str_eq;

verus! {

/// A request to spawn a new agent.
pub struct SpawnAgentRequest {
    /// Agent name; generated when absent.
    pub name: Option<String>,
    /// Task text injected after the session settles.
    pub task: Option<String>,
    /// Working directory for the session.
    pub workdir: Option<String>,
    /// Command to run; the configured default when absent.
    pub command: Option<String>,
    /// Declared role; `project-manager` marks a manager.
    pub role: Option<String>,
    /// The parent to record, as a user-facing id.
    pub parent: Option<String>,
}

/// The response after spawning an agent.
pub struct SpawnAgentResponse {
    pub id: String,
    pub status: String,
    pub session: String,
}

/// One agent in a list response.
pub struct AgentInfo {
    pub id: String,
    pub status: String,
    pub health: String,
    pub last_output: String,
}

/// The response listing every agent and the root.
pub struct ListAgentsResponse {
    pub agents: Vec<AgentInfo>,
    pub manager: Option<AgentInfo>,
}

/// One agent with its recent pane tail.
pub struct AgentDetailResponse {
    pub id: String,
    pub status: String,
    pub health: String,
    pub last_output: String,
    pub output_tail: String,
}

/// A request to send input to an agent.
pub struct SendInputRequest {
    pub text: String,
    pub enter: bool,
}

/// A generic status response.
pub struct StatusResponse {
    pub status: String,
    pub message: Option<String>,
}

/// The health-check response.
pub struct HealthResponse {
    pub status: String,
    pub version: String,
}

/// An error response.
pub struct ErrorResponse {
    pub error: String,
}

/// A request to add a project.
pub struct AddProjectRequest {
    pub name: String,
}

/// One project in a response.
pub struct ProjectResponse {
    pub id: usize,
    pub name: String,
}

/// The response listing every project.
pub struct ListProjectsResponse {
    pub projects: Vec<ProjectResponse>,
}

/// Builds the health-check body: status `ok` and the given version.
pub fn health_response(version: &str) -> (r: HealthResponse)
    ensures
        r.status@ == "ok"@,
        r.version@ == version@,
{
    HealthResponse { status: "ok".to_owned(), version: version.to_owned() }
}

/// What a listed agent's body holds, at the specification level.
pub open spec fn agent_info_spec(prefix: Seq<char>, a: hierarchy::AgentInfo, r: AgentInfo) -> bool {
    &&& r.id@ == short_spec(prefix, a.session.name@)
    &&& r.status@ == "running"@
    &&& r.health@ == health_label(a.health)
    &&& r.last_output@ == a.health_info.last_output@
}

/// Builds the list body for one agent: its short id, the fixed running
/// status, its health label, and its last output line.
pub fn agent_info_response(prefix: &str, a: &hierarchy::AgentInfo) -> (r: AgentInfo)
    ensures
        agent_info_spec(prefix@, *a, r),
{
    let id = display_name(prefix, a.session.name.as_str());
    AgentInfo {
        id: id.to_owned(),
        status: "running".to_owned(),
        health: a.health.as_str().to_owned(),
        last_output: a.health_info.last_output.clone(),
    }
}

/// Builds the whole agents listing: every agent under its short id, and
/// the root — when live — under its full session name.
pub fn list_agents_response(
    prefix: &str,
    agents: &Vec<hierarchy::AgentInfo>,
    manager: &Option<hierarchy::AgentInfo>,
) -> (r: ListAgentsResponse)
    ensures
        r.agents@.len() == agents@.len(),
        forall|i: int|
            0 <= i < agents@.len() ==> agent_info_spec(prefix@, agents@[i], #[trigger] r.agents@[i]),
        match manager {
            Some(m) => r.manager matches Some(mi) && mi.id@ == m.session.name@ && mi.status@
                == "running"@ && mi.health@ == health_label(m.health) && mi.last_output@
                == m.health_info.last_output@,
            None => r.manager is None,
        },
{
    let mut out: Vec<AgentInfo> = Vec::new();
    let mut i: usize = 0;
    while i < agents.len()
        invariant
            i <= agents@.len(),
            out@.len() == i,
            forall|j: int|
                0 <= j < i ==> agent_info_spec(prefix@, agents@[j], #[trigger] out@[j]),
        decreases agents@.len() - i,
    {
        let info = agent_info_response(prefix, &agents[i]);
        out.push(info);
        i = i + 1;
    }
    let manager_info = match manager {
        Some(m) => Some(
            AgentInfo {
                id: m.session.name.clone(),
                status: "running".to_owned(),
                health: m.health.as_str().to_owned(),
                last_output: m.health_info.last_output.clone(),
            },
        ),
        None => None,
    };
    ListAgentsResponse { agents: out, manager: manager_info }
}

/// Builds the detail body for one agent, with the captured pane tail.
pub fn agent_detail_response(prefix: &str, a: &hierarchy::AgentInfo, output_tail: String) -> (r:
    AgentDetailResponse)
    ensures
        r.id@ == short_spec(prefix@, a.session.name@),
        r.status@ == "running"@,
        r.health@ == health_label(a.health),
        r.last_output@ == a.health_info.last_output@,
        r.output_tail@ == output_tail@,
{
    let id = display_name(prefix, a.session.name.as_str());
    AgentDetailResponse {
        id: id.to_owned(),
        status: "running".to_owned(),
        health: a.health.as_str().to_owned(),
        last_output: a.health_info.last_output.clone(),
        output_tail,
    }
}

/// Finds the agent a user-facing id names: the first agent whose session
/// is the resolved full name, or the root when the raw id is its session
/// name.
pub fn find_agent(
    agents: &Vec<hierarchy::AgentInfo>,
    manager: &Option<hierarchy::AgentInfo>,
    prefix: &str,
    id: &str,
) -> (r: Option<hierarchy::AgentInfo>)
    ensures
        ({
            let full = resolve_spec(prefix@, id@);
            match r {
                Some(a) => (exists|i: int|
                    0 <= i < agents@.len() && (#[trigger] agents@[i]) == a
                        && agents@[i].session.name@ == full) || (agents_lack_name(agents@, full)
                    && (manager matches Some(m) && a == m && m.session.name@ == id@)),
                None => agents_lack_name(agents@, full) && (match manager {
                    Some(m) => m.session.name@ != id@,
                    None => true,
                }),
            }
        }),
{
    let full = resolve_session_name(prefix, id);
    let mut i: usize = 0;
    while i < agents.len()
        invariant
            i <= agents@.len(),
            full@ == resolve_spec(prefix@, id@),
            forall|j: int|
                0 <= j < i ==> (#[trigger] agents@[j]).session.name@ != full@,
        decreases agents@.len() - i,
    {
        if str_eq(agents[i].session.name.as_str(), full.as_str()) {
            return Some(agents[i].clone());
        }
        i = i + 1;
    }
    match manager {
        Some(m) => {
            if str_eq(m.session.name.as_str(), id) {
                Some(m.clone())
            } else {
                None
            }
        },
        None => None,
    }
}

/// No agent carries this full session name.
pub open spec fn agents_lack_name(agents: Seq<hierarchy::AgentInfo>, full: Seq<char>) -> bool {
    forall|j: int| 0 <= j < agents.len() ==> (#[trigger] agents[j]).session.name@ != full
}

/// What a kill request over the HTTP surface comes to.
#[derive(Debug, Clone, Copy, PartialEq, Eq, Structural)]
pub enum ApiKillOutcome {
    /// The id names the reserved root session; the request is forbidden.
    Forbidden,
    /// The request may proceed against the resolved session.
    Proceed,
}

/// Decides a kill request: forbidden exactly when the id, raw or
/// resolved, names the reserved root session.
pub fn kill_request_decision(prefix: &str, id: &str) -> (r: (ApiKillOutcome, String))
    ensures
        r.1@ == resolve_spec(prefix@, id@),
        (r.0 == ApiKillOutcome::Forbidden) <==> (resolve_spec(prefix@, id@)
            == spec_manager_session() || id@ == spec_manager_session()),
{
    let full = resolve_session_name(prefix, id);
    if str_eq(full.as_str(), crate::manager_session_name()) || str_eq(
        id,
        crate::manager_session_name(),
    ) {
        (ApiKillOutcome::Forbidden, full)
    } else {
        (ApiKillOutcome::Proceed, full)
    }
}

/// Infers a spawned worker's parent from the live sessions: the single
/// live project-manager session when exactly one exists, nothing
/// otherwise.
pub fn infer_parent(sessions: &Vec<Session>, prefix: &str) -> (r: Option<String>)
    ensures
        ({
            let pms = sessions@.filter(
                |s: Session| is_pm_name(prefix@, s.name@),
            );
            match r {
                Some(p) => pms.len() == 1 && p@ == pms[0].name@,
                None => pms.len() != 1,
            }
        }),
{
    broadcast use vstd::seq_lib::group_filter_ensures;

    let ghost p = |s: Session| is_pm_name(prefix@, s.name@);
    let mut found: Option<String> = None;
    let mut count: usize = 0;
    let mut i: usize = 0;
    proof {
        assert(sessions@.take(0).filter(p) =~= Seq::<Session>::empty());
    }
    while i < sessions.len()
        invariant
            i <= sessions@.len(),
            p == (|s: Session| is_pm_name(prefix@, s.name@)),
            count == sessions@.take(i as int).filter(p).len(),
            count > 0 ==> (found matches Some(f) && f@ == sessions@.take(i as int).filter(p)[0].name@),
            count == 0 ==> found is None,
        decreases sessions@.len() - i,
    {
        proof {
            sessions@.take(i as int).lemma_filter_push(sessions@[i as int], p);
            assert(sessions@.take(i as int).push(sessions@[i as int]) =~= sessions@.take(i + 1));
        }
        if crate::names::is_pm_session(prefix, sessions[i].name.as_str()) {
            if count == 0 {
                found = Some(sessions[i].name.clone());
            }
            count = count + 1;
        }
        i = i + 1;
    }
    proof {
        assert(sessions@.take(sessions@.len() as int) =~= sessions@);
    }
    if count == 1 {
        found
    } else {
        None
    }
}

/// The prompt injected into a new session: the task itself for a worker;
/// for a project manager, the manager prompt followed by the agent's own
/// short name and the task.
pub open spec fn spawn_prompt_spec(
    is_manager_role: bool,
    pm_prompt: Seq<char>,
    short: Seq<char>,
    task: Seq<char>,
) -> Seq<char> {
    if is_manager_role {
        pm_prompt + "\n\nYOUR NAME: "@ + short + "\nYOUR TASK: "@ + task
    } else {
        task
    }
}

/// Whether the declared role marks a project manager.
pub fn is_manager_role(role: Option<&String>) -> (r: bool)
    ensures
        r == (match role {
            Some(x) => x@ == "project-manager"@,
            None => false,
        }),
{
    match role {
        Some(x) => str_eq(x.as_str(), "project-manager"),
        None => false,
    }
}

/// Builds the prompt injected into a freshly spawned session.
pub fn build_spawn_prompt(
    manager_role: bool,
    pm_prompt: &str,
    prefix: &str,
    full_name: &str,
    task: &str,
) -> (r: String)
    ensures
        r@ == spawn_prompt_spec(
            manager_role,
            pm_prompt@,
            short_spec(prefix@, full_name@),
            task@,
        ),
{
    if manager_role {
        let short = display_name(prefix, full_name);
        let mut r = pm_prompt.to_owned();
        r.append("\n\nYOUR NAME: ");
        r.append(short);
        r.append("\nYOUR TASK: ");
        r.append(task);
        r
    } else {
        task.to_owned()
    }
}

/// Builds the listing body for the project list.
pub fn projects_response(projects: &Vec<crate::projects::Project>) -> (r: ListProjectsResponse)
    ensures
        r.projects@.len() == projects@.len(),
        forall|i: int|
            0 <= i < projects@.len() ==> (#[trigger] r.projects@[i]).id == projects@[i].id
                && r.projects@[i].name@ == projects@[i].name@,
{
    let mut out: Vec<ProjectResponse> = Vec::new();
    let mut i: usize = 0;
    while i < projects.len()
        invariant
            i <= projects@.len(),
            out@.len() == i,
            forall|j: int|
                0 <= j < i ==> (#[trigger] out@[j]).id == projects@[j].id && out@[j].name@
                    == projects@[j].name@,
        decreases projects@.len() - i,
    {
        out.push(ProjectResponse { id: projects[i].id, name: projects[i].name.clone() });
        i = i + 1;
    }
    ListProjectsResponse { projects: out }
}

} // verus!
