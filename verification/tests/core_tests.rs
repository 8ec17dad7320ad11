use omar::api::{
    build_spawn_prompt, find_agent, health_response, infer_parent, is_manager_role,
    kill_request_decision, list_agents_response, ApiKillOutcome,
};
use omar::config::{expand_tilde, Config};
use omar::dispatch::{dispatch_key, parse_orch_command, DashAction, KeyInput, OrchCommand, UiFlags};
use omar::health::{HealthInfo, HealthState};
use omar::hierarchy::AgentInfo;
use omar::names::{display_name, generate_agent_name, resolve_session_name};
use omar::persist::{
    build_memory_injection, decode_string_map, encode_string_map, recent_context, remove_agent_parent,
    render_memory, retain_live_entries, save_agent_parent, save_worker_task,
};
use omar::projects::Project;
use omar::protocol::{build_worker_context, json_candidates};
use omar::session::Session;
use omar::state::{health_counts, kill_decision, partition_sessions, KillDecision, Selection};

fn make_agent(name: &str, health: HealthState) -> AgentInfo {
    AgentInfo {
        session: Session {
            name: name.to_string(),
            activity: 0,
            attached: false,
            pane_pid: 0,
        },
        health,
        health_info: HealthInfo {
            state: health,
            idle_seconds: 0,
            last_output: "ready".to_string(),
        },
    }
}

fn make_session(name: &str, attached: bool) -> Session {
    Session {
        name: name.to_string(),
        activity: 0,
        attached,
        pane_pid: 0,
    }
}

#[test]
fn resolution_round_trips_short_names() {
    assert_eq!(resolve_session_name("omar-agent-", "auth"), "omar-agent-auth");
    assert_eq!(
        resolve_session_name("omar-agent-", "omar-agent-auth"),
        "omar-agent-auth"
    );
    assert_eq!(resolve_session_name("", "auth"), "auth");
    assert_eq!(display_name("omar-agent-", "omar-agent-auth"), "auth");
    assert_eq!(display_name("omar-agent-", "elsewhere"), "elsewhere");
    assert_eq!(
        display_name("omar-agent-", &resolve_session_name("omar-agent-", "auth")),
        "auth"
    );
}

#[test]
fn generated_name_is_lowest_free_number() {
    let existing = vec![
        "omar-agent-1".to_string(),
        "omar-agent-2".to_string(),
        "omar-agent-4".to_string(),
    ];
    assert_eq!(
        generate_agent_name(&existing, "omar-agent-", 1700000000),
        "omar-agent-3"
    );
    let none_taken: Vec<String> = Vec::new();
    assert_eq!(
        generate_agent_name(&none_taken, "omar-agent-", 1700000000),
        "omar-agent-1"
    );
}

#[test]
fn generated_name_falls_back_to_epoch_seconds() {
    let mut existing: Vec<String> = Vec::new();
    for i in 1..1000 {
        existing.push(format!("omar-agent-{}", i));
    }
    assert_eq!(
        generate_agent_name(&existing, "omar-agent-", 1700000000),
        "omar-agent-1700000000"
    );
}

#[test]
fn parent_map_upsert_remove_and_retain() {
    let mut parents: Vec<(String, String)> = Vec::new();
    save_agent_parent(&mut parents, "omar-agent-auth", "omar-agent-pm-api");
    save_agent_parent(&mut parents, "omar-agent-db", "omar-agent-pm-api");
    save_agent_parent(&mut parents, "omar-agent-auth", "omar-agent-pm-web");
    assert_eq!(parents.len(), 2);
    assert!(parents
        .iter()
        .any(|p| p.0 == "omar-agent-auth" && p.1 == "omar-agent-pm-web"));

    remove_agent_parent(&mut parents, "omar-agent-db");
    assert_eq!(parents.len(), 1);

    save_agent_parent(&mut parents, "omar-agent-gone", "omar-agent-pm-api");
    retain_live_entries(&mut parents, &vec!["omar-agent-auth".to_string()]);
    assert_eq!(parents.len(), 1);
    assert_eq!(parents[0].0, "omar-agent-auth");
}

#[test]
fn worker_tasks_persist_round_trip_through_json() {
    let mut tasks: Vec<(String, String)> = Vec::new();
    save_worker_task(&mut tasks, "omar-agent-auth", "impl JWT");
    save_worker_task(&mut tasks, "omar-agent-db", "schema");

    let encoded = encode_string_map(&tasks);
    let decoded = decode_string_map(&encoded).expect("the encoding should decode");
    let mut decoded_sorted = decoded.clone();
    decoded_sorted.sort();
    let mut original = tasks.clone();
    original.sort();
    assert_eq!(decoded_sorted, original);

    assert_eq!(decode_string_map("not json at all"), None);
}

#[test]
fn memory_snapshot_renders_every_section() {
    let projects = vec![Project {
        id: 1,
        name: "Build API".to_string(),
    }];
    let agents = vec![make_agent("omar-agent-auth", HealthState::Running)];
    let mut tasks: Vec<(String, String)> = Vec::new();
    save_worker_task(&mut tasks, "omar-agent-auth", "impl JWT");
    let context = vec!["> last words".to_string()];

    let memory = render_memory(&projects, &agents, &tasks, true, &context);
    assert_eq!(
        memory,
        "# OMAR State\n\n## Active Projects\n1. Build API\n\n## Active Workers\n- omar-agent-auth (running): impl JWT\n\n## Manager\n- Status: Running\n\n## Manager's Recent Context\n> > last words\n\n"
    );

    let empty_projects: Vec<Project> = Vec::new();
    let empty_agents: Vec<AgentInfo> = Vec::new();
    let no_tasks: Vec<(String, String)> = Vec::new();
    let no_context: Vec<String> = Vec::new();
    let bare = render_memory(&empty_projects, &empty_agents, &no_tasks, false, &no_context);
    assert_eq!(bare, "# OMAR State\n\n## Manager\n- Status: Not running\n\n");
}

#[test]
fn workers_without_task_get_the_placeholder() {
    let agents = vec![make_agent("omar-agent-x", HealthState::Idle)];
    let no_tasks: Vec<(String, String)> = Vec::new();
    let empty_projects: Vec<Project> = Vec::new();
    let no_context: Vec<String> = Vec::new();
    let memory = render_memory(&empty_projects, &agents, &no_tasks, false, &no_context);
    assert!(memory.contains("- omar-agent-x (idle): (no task assigned)"));
}

#[test]
fn recent_context_keeps_nonblank_lines_trimmed_at_the_end() {
    let capture = "first  \n\n  second\n   \n";
    let lines = recent_context(capture);
    assert_eq!(lines, vec!["first".to_string(), "  second".to_string()]);
    assert_eq!(
        build_memory_injection("# OMAR State\n"),
        "Here is the current OMAR state from your last session:\n\n# OMAR State\n"
    );
}

#[test]
fn selection_ring_wraps_both_ways() {
    let mut sel = Selection::new();
    assert!(sel.manager_selected);

    sel.next(2);
    assert!(!sel.manager_selected);
    assert_eq!(sel.selected, 0);
    sel.next(2);
    assert_eq!(sel.selected, 1);
    sel.next(2);
    assert!(sel.manager_selected);

    sel.previous(2);
    assert!(!sel.manager_selected);
    assert_eq!(sel.selected, 1);
    sel.previous(2);
    assert_eq!(sel.selected, 0);
    sel.previous(2);
    assert!(sel.manager_selected);

    let mut lone = Selection::new();
    lone.next(0);
    assert!(lone.manager_selected);
}

#[test]
fn health_counts_include_the_root_agent() {
    let agents = vec![
        make_agent("omar-agent-a", HealthState::Running),
        make_agent("omar-agent-b", HealthState::Idle),
        make_agent("omar-agent-c", HealthState::Idle),
    ];
    let manager = Some(make_agent("oma-manager", HealthState::Running));
    let (running, idle) = health_counts(&agents, &manager);
    assert_eq!(running, 2);
    assert_eq!(idle, 2);
}

#[test]
fn kill_guard_refuses_root_and_attached() {
    let root = make_agent("oma-manager", HealthState::Running);
    assert_eq!(kill_decision(Some(&root)), KillDecision::RefuseManager);

    let mut attached = make_agent("omar-agent-x", HealthState::Running);
    attached.session.attached = true;
    assert_eq!(kill_decision(Some(&attached)), KillDecision::RefuseAttached);

    let plain = make_agent("omar-agent-x", HealthState::Running);
    assert_eq!(kill_decision(Some(&plain)), KillDecision::Kill);
    assert_eq!(kill_decision(None), KillDecision::NoSelection);
}

#[test]
fn partition_separates_root_dashboard_and_foreign_sessions() {
    let sessions = vec![
        make_session("oma-manager", false),
        make_session("omar-dashboard", false),
        make_session("omar-agent-a", false),
        make_session("omar-agent-b", true),
        make_session("unrelated", false),
    ];
    let (manager, owned) = partition_sessions(sessions, "omar-agent-");
    assert_eq!(manager.unwrap().name, "oma-manager");
    assert_eq!(owned.len(), 1);
    assert_eq!(owned[0].name, "omar-agent-a");
}

#[test]
fn api_kill_request_forbids_the_root_session() {
    let (outcome, full) = kill_request_decision("omar-agent-", "oma-manager");
    assert_eq!(outcome, ApiKillOutcome::Forbidden);
    assert_eq!(full, "omar-agent-oma-manager");

    let (outcome2, full2) = kill_request_decision("omar-agent-", "auth");
    assert_eq!(outcome2, ApiKillOutcome::Proceed);
    assert_eq!(full2, "omar-agent-auth");
}

#[test]
fn parent_is_inferred_only_from_a_single_live_manager() {
    let one_pm = vec![
        make_session("omar-agent-pm-api", false),
        make_session("omar-agent-auth", false),
    ];
    assert_eq!(
        infer_parent(&one_pm, "omar-agent-"),
        Some("omar-agent-pm-api".to_string())
    );

    let two_pms = vec![
        make_session("omar-agent-pm-api", false),
        make_session("omar-agent-pm-web", false),
    ];
    assert_eq!(infer_parent(&two_pms, "omar-agent-"), None);

    let no_pm = vec![make_session("omar-agent-auth", false)];
    assert_eq!(infer_parent(&no_pm, "omar-agent-"), None);
}

#[test]
fn agent_listing_uses_short_ids_and_health_labels() {
    let agents = vec![make_agent("omar-agent-auth", HealthState::Running)];
    let manager = Some(make_agent("oma-manager", HealthState::Idle));
    let body = list_agents_response("omar-agent-", &agents, &manager);
    assert_eq!(body.agents.len(), 1);
    assert_eq!(body.agents[0].id, "auth");
    assert_eq!(body.agents[0].status, "running");
    assert_eq!(body.agents[0].health, "running");
    assert_eq!(body.agents[0].last_output, "ready");
    let m = body.manager.unwrap();
    assert_eq!(m.id, "oma-manager");
    assert_eq!(m.health, "idle");

    let health = health_response("0.1.0");
    assert_eq!(health.status, "ok");
    assert_eq!(health.version, "0.1.0");
}

#[test]
fn lookup_accepts_short_and_raw_root_ids() {
    let agents = vec![make_agent("omar-agent-auth", HealthState::Running)];
    let manager = Some(make_agent("oma-manager", HealthState::Running));

    let found = find_agent(&agents, &manager, "omar-agent-", "auth").unwrap();
    assert_eq!(found.session.name, "omar-agent-auth");

    let root = find_agent(&agents, &manager, "omar-agent-", "oma-manager").unwrap();
    assert_eq!(root.session.name, "oma-manager");

    assert!(find_agent(&agents, &manager, "omar-agent-", "nobody").is_none());
}

#[test]
fn spawn_prompt_briefs_managers_but_not_workers() {
    assert!(is_manager_role(Some(&"project-manager".to_string())));
    assert!(!is_manager_role(Some(&"worker".to_string())));
    assert!(!is_manager_role(None));

    let plain = build_spawn_prompt(false, "PROMPT", "omar-agent-", "omar-agent-auth", "do it");
    assert_eq!(plain, "do it");

    let pm = build_spawn_prompt(true, "PROMPT", "omar-agent-", "omar-agent-pm-api", "plan it");
    assert_eq!(pm, "PROMPT\n\nYOUR NAME: pm-api\nYOUR TASK: plan it");
}

#[test]
fn worker_briefing_carries_role_and_task() {
    let ctx = build_worker_context("API Developer", "Create endpoints");
    assert!(ctx.starts_with("You are a Worker Agent in the OMA system."));
    assert!(ctx.contains("YOUR ROLE: API Developer"));
    assert!(ctx.contains("YOUR TASK: Create endpoints"));
    assert!(ctx.ends_with("Begin working on your task now.\n"));
}

#[test]
fn json_is_dug_out_of_fences_before_raw_braces() {
    let fenced = "plan below\n```json\n{\"type\": \"plan\"}\n```\ntail";
    let candidates = json_candidates(fenced);
    assert_eq!(candidates.len(), 2);
    assert_eq!(candidates[0], "{\"type\": \"plan\"}");
    assert_eq!(candidates[1], "{\"type\": \"plan\"}");

    let raw = "noise {\"type\": \"send\"} noise";
    let candidates2 = json_candidates(raw);
    assert_eq!(candidates2, vec!["{\"type\": \"send\"}".to_string()]);

    assert!(json_candidates("no braces here").is_empty());
}

#[test]
fn keystrokes_drive_the_expected_actions() {
    let base = UiFlags::new();

    let (f1, a1) = dispatch_key(base, KeyInput::Char('q'));
    assert!(f1.should_quit);
    assert_eq!(a1, DashAction::Stay);

    let (_, a2) = dispatch_key(base, KeyInput::Char('j'));
    assert_eq!(a2, DashAction::NavNext);

    let (f3, _) = dispatch_key(base, KeyInput::Char('d'));
    assert!(f3.show_confirm_kill);
    let (f4, a4) = dispatch_key(f3, KeyInput::Char('y'));
    assert!(!f4.show_confirm_kill);
    assert_eq!(a4, DashAction::KillSelected);
    let (f5, a5) = dispatch_key(f3, KeyInput::Char('x'));
    assert!(!f5.show_confirm_kill);
    assert_eq!(a5, DashAction::Stay);

    let (f6, _) = dispatch_key(base, KeyInput::Char('i'));
    assert!(f6.interactive_mode);
    let (_, a7) = dispatch_key(f6, KeyInput::Char('l'));
    assert_eq!(a7, DashAction::SendText('l'));
    let (f8, _) = dispatch_key(f6, KeyInput::Esc);
    assert!(!f8.interactive_mode);

    let (f9, _) = dispatch_key(base, KeyInput::Char('p'));
    assert!(f9.project_input_mode);
    let (_, a10) = dispatch_key(f9, KeyInput::Char('A'));
    assert_eq!(a10, DashAction::ProjectInputChar('A'));
    let (f11, a11) = dispatch_key(f9, KeyInput::Enter);
    assert!(!f11.project_input_mode);
    assert_eq!(a11, DashAction::SubmitProject);
}

#[test]
fn operator_commands_parse_with_aliases() {
    assert!(matches!(parse_orch_command("help"), OrchCommand::Help));
    assert!(matches!(parse_orch_command("  s  "), OrchCommand::Status));
    assert!(matches!(parse_orch_command("y"), OrchCommand::Approve));
    assert!(matches!(parse_orch_command("quit"), OrchCommand::Quit));
    assert!(matches!(parse_orch_command(""), OrchCommand::Nothing));
    assert!(matches!(parse_orch_command("send api"), OrchCommand::SendUsage));

    match parse_orch_command("send api add the users endpoint") {
        OrchCommand::Send { target, message } => {
            assert_eq!(target, "api");
            assert_eq!(message, "add the users endpoint");
        }
        _ => panic!("expected a send command"),
    }

    match parse_orch_command("build me a service") {
        OrchCommand::Forward { text } => assert_eq!(text, "build me a service"),
        _ => panic!("expected forwarding"),
    }
}

#[test]
fn test_default_config() {
    let config = Config::default();
    assert_eq!(config.dashboard.refresh_interval, 1);
    assert_eq!(config.dashboard.session_prefix, "omar-agent-");
    assert_eq!(config.health.idle_threshold_seconds, 15);
    assert!(config.api.enabled);
    assert_eq!(config.api.host, "127.0.0.1");
    assert_eq!(config.api.port, 9876);
}

#[test]
fn tilde_paths_expand_against_home() {
    let home = "/home/user".to_string();
    assert_eq!(
        expand_tilde("~/.config/omar/config.toml", Some(&home)),
        "/home/user/.config/omar/config.toml"
    );
    assert_eq!(expand_tilde("/etc/omar.toml", Some(&home)), "/etc/omar.toml");
    assert_eq!(expand_tilde("~/x", None), "~/x");
}
