use omar::health::{HealthInfo, HealthState};
use omar::hierarchy::{build_agent_groups, build_tree, AgentInfo};
use omar::session::Session;

fn make_agent(name: &str, health: HealthState) -> AgentInfo {
    AgentInfo {
        session: Session {
            name: name.to_string(),
            activity: 0,
            attached: false,
            pane_pid: 0,
        },
        health,
        health_info: HealthInfo {
            state: health,
            idle_seconds: 0,
            last_output: String::new(),
        },
    }
}

fn pair(child: &str, parent: &str) -> (String, String) {
    (child.to_string(), parent.to_string())
}

#[test]
fn test_groups_pm_with_workers() {
    let agents = vec![
        make_agent("omar-agent-pm-rest-api", HealthState::Running),
        make_agent("omar-agent-api", HealthState::Running),
        make_agent("omar-agent-auth", HealthState::Idle),
    ];
    let parents = vec![
        pair("omar-agent-api", "omar-agent-pm-rest-api"),
        pair("omar-agent-auth", "omar-agent-pm-rest-api"),
    ];

    let groups = build_agent_groups(&agents, &parents, "omar-agent-");

    assert_eq!(groups.len(), 1);
    assert_eq!(
        groups[0].pm.as_ref().unwrap().session.name,
        "omar-agent-pm-rest-api"
    );
    assert_eq!(groups[0].workers.len(), 2);
    assert_eq!(groups[0].workers[0].session.name, "omar-agent-api");
    assert_eq!(groups[0].workers[1].session.name, "omar-agent-auth");
}

#[test]
fn test_groups_all_orphans_no_pm() {
    let agents = vec![
        make_agent("omar-agent-api", HealthState::Running),
        make_agent("omar-agent-auth", HealthState::Idle),
    ];
    let parents: Vec<(String, String)> = Vec::new();

    let groups = build_agent_groups(&agents, &parents, "omar-agent-");

    assert_eq!(groups.len(), 1);
    assert!(groups[0].pm.is_none());
    assert_eq!(groups[0].workers.len(), 2);
}

#[test]
fn test_groups_pm_without_workers() {
    let agents = vec![make_agent("omar-agent-pm-rest-api", HealthState::Running)];
    let parents: Vec<(String, String)> = Vec::new();

    let groups = build_agent_groups(&agents, &parents, "omar-agent-");

    assert_eq!(groups.len(), 1);
    assert!(groups[0].pm.is_some());
    assert!(groups[0].workers.is_empty());
}

#[test]
fn test_groups_mixed_pm_and_orphans() {
    let agents = vec![
        make_agent("omar-agent-pm-api", HealthState::Running),
        make_agent("omar-agent-worker1", HealthState::Running),
        make_agent("omar-agent-orphan1", HealthState::Idle),
    ];
    let parents = vec![pair("omar-agent-worker1", "omar-agent-pm-api")];

    let groups = build_agent_groups(&agents, &parents, "omar-agent-");

    assert_eq!(groups.len(), 2);

    assert_eq!(
        groups[0].pm.as_ref().unwrap().session.name,
        "omar-agent-pm-api"
    );
    assert_eq!(groups[0].workers.len(), 1);
    assert_eq!(groups[0].workers[0].session.name, "omar-agent-worker1");

    assert!(groups[1].pm.is_none());
    assert_eq!(groups[1].workers.len(), 1);
    assert_eq!(groups[1].workers[0].session.name, "omar-agent-orphan1");
}

#[test]
fn test_groups_stale_parent_becomes_orphan() {
    let agents = vec![make_agent("omar-agent-worker1", HealthState::Running)];
    let parents = vec![pair("omar-agent-worker1", "omar-agent-pm-gone")];

    let groups = build_agent_groups(&agents, &parents, "omar-agent-");

    assert_eq!(groups.len(), 1);
    assert!(groups[0].pm.is_none());
    assert_eq!(groups[0].workers.len(), 1);
    assert_eq!(groups[0].workers[0].session.name, "omar-agent-worker1");
}

#[test]
fn test_groups_two_pms_each_with_workers() {
    let agents = vec![
        make_agent("omar-agent-pm-api", HealthState::Running),
        make_agent("omar-agent-pm-frontend", HealthState::Running),
        make_agent("omar-agent-api", HealthState::Running),
        make_agent("omar-agent-auth", HealthState::Running),
        make_agent("omar-agent-ui", HealthState::Idle),
    ];
    let parents = vec![
        pair("omar-agent-api", "omar-agent-pm-api"),
        pair("omar-agent-auth", "omar-agent-pm-api"),
        pair("omar-agent-ui", "omar-agent-pm-frontend"),
    ];

    let groups = build_agent_groups(&agents, &parents, "omar-agent-");

    assert_eq!(groups.len(), 2);

    assert_eq!(
        groups[0].pm.as_ref().unwrap().session.name,
        "omar-agent-pm-api"
    );
    assert_eq!(groups[0].workers.len(), 2);

    assert_eq!(
        groups[1].pm.as_ref().unwrap().session.name,
        "omar-agent-pm-frontend"
    );
    assert_eq!(groups[1].workers.len(), 1);
    assert_eq!(groups[1].workers[0].session.name, "omar-agent-ui");
}

#[test]
fn test_groups_empty_agents() {
    let agents: Vec<AgentInfo> = Vec::new();
    let parents: Vec<(String, String)> = Vec::new();

    let groups = build_agent_groups(&agents, &parents, "omar-agent-");

    assert!(groups.is_empty());
}

#[test]
fn test_groups_empty_parents_with_pm() {
    let agents = vec![
        make_agent("omar-agent-pm-api", HealthState::Running),
        make_agent("omar-agent-worker1", HealthState::Running),
    ];
    let parents: Vec<(String, String)> = Vec::new();

    let groups = build_agent_groups(&agents, &parents, "omar-agent-");

    assert_eq!(groups.len(), 2);
    assert!(groups[0].pm.is_some());
    assert!(groups[0].workers.is_empty());
    assert!(groups[1].pm.is_none());
    assert_eq!(groups[1].workers.len(), 1);
}

#[test]
fn test_build_tree_ea_only() {
    let agents: Vec<AgentInfo> = Vec::new();
    let ea = make_agent("omar-ea", HealthState::Running);
    let parents: Vec<(String, String)> = Vec::new();
    let tree = build_tree(&agents, Some(&ea), &parents, "omar-agent-");

    assert_eq!(tree.len(), 1);
    assert_eq!(tree[0].name, "Executive Assistant");
    assert_eq!(tree[0].depth, 0);
}

#[test]
fn test_build_tree_with_pm_and_workers() {
    let agents = vec![
        make_agent("omar-agent-pm-rest-api", HealthState::Running),
        make_agent("omar-agent-api", HealthState::Running),
        make_agent("omar-agent-auth", HealthState::Idle),
    ];
    let ea = make_agent("omar-ea", HealthState::Running);
    let parents = vec![
        pair("omar-agent-api", "omar-agent-pm-rest-api"),
        pair("omar-agent-auth", "omar-agent-pm-rest-api"),
    ];

    let tree = build_tree(&agents, Some(&ea), &parents, "omar-agent-");

    assert_eq!(tree.len(), 4);
    assert_eq!(tree[0].name, "Executive Assistant");
    assert_eq!(tree[0].depth, 0);
    assert_eq!(tree[1].name, "Project Manager: rest-api");
    assert_eq!(tree[1].depth, 1);
    assert!(tree[1].is_last_sibling);
    assert_eq!(tree[2].name, "api");
    assert_eq!(tree[2].depth, 2);
    assert!(!tree[2].is_last_sibling);
    assert_eq!(tree[3].name, "auth");
    assert_eq!(tree[3].depth, 2);
    assert!(tree[3].is_last_sibling);
}

#[test]
fn test_build_tree_orphan_workers() {
    let agents = vec![
        make_agent("omar-agent-debug", HealthState::Running),
        make_agent("omar-agent-test", HealthState::Idle),
    ];
    let ea = make_agent("omar-ea", HealthState::Running);
    let parents: Vec<(String, String)> = Vec::new();

    let tree = build_tree(&agents, Some(&ea), &parents, "omar-agent-");

    assert_eq!(tree.len(), 4);
    assert_eq!(tree[1].name, "Unassigned");
    assert_eq!(tree[1].depth, 1);
    assert!(tree[1].is_last_sibling);
    assert_eq!(tree[2].name, "debug");
    assert_eq!(tree[2].depth, 2);
    assert!(!tree[2].is_last_sibling);
    assert_eq!(tree[3].name, "test");
    assert_eq!(tree[3].depth, 2);
    assert!(tree[3].is_last_sibling);
}

#[test]
fn test_build_tree_mixed_pm_and_orphans() {
    let agents = vec![
        make_agent("omar-agent-pm-api", HealthState::Running),
        make_agent("omar-agent-worker1", HealthState::Running),
        make_agent("omar-agent-orphan1", HealthState::Idle),
    ];
    let ea = make_agent("omar-ea", HealthState::Running);
    let parents = vec![pair("omar-agent-worker1", "omar-agent-pm-api")];

    let tree = build_tree(&agents, Some(&ea), &parents, "omar-agent-");

    assert_eq!(tree.len(), 5);
    assert_eq!(tree[0].depth, 0);
    assert_eq!(tree[1].name, "Project Manager: api");
    assert_eq!(tree[1].depth, 1);
    assert!(!tree[1].is_last_sibling);
    assert_eq!(tree[2].name, "worker1");
    assert_eq!(tree[2].depth, 2);
    assert_eq!(tree[3].name, "Unassigned");
    assert_eq!(tree[3].depth, 1);
    assert!(tree[3].is_last_sibling);
    assert_eq!(tree[4].name, "orphan1");
    assert_eq!(tree[4].depth, 2);
    assert!(tree[4].is_last_sibling);
}

#[test]
fn test_build_tree_stale_parent_treated_as_orphan() {
    let agents = vec![make_agent("omar-agent-worker1", HealthState::Running)];
    let ea = make_agent("omar-ea", HealthState::Running);
    let parents = vec![pair("omar-agent-worker1", "omar-agent-pm-gone")];

    let tree = build_tree(&agents, Some(&ea), &parents, "omar-agent-");

    assert_eq!(tree.len(), 3);
    assert_eq!(tree[1].name, "Unassigned");
    assert_eq!(tree[1].depth, 1);
    assert_eq!(tree[2].name, "worker1");
    assert_eq!(tree[2].depth, 2);
}

#[test]
fn tree_ancestor_lists_match_depths() {
    let agents = vec![
        make_agent("omar-agent-pm-api", HealthState::Running),
        make_agent("omar-agent-worker1", HealthState::Running),
        make_agent("omar-agent-orphan1", HealthState::Idle),
    ];
    let ea = make_agent("omar-ea", HealthState::Idle);
    let parents = vec![pair("omar-agent-worker1", "omar-agent-pm-api")];

    let tree = build_tree(&agents, Some(&ea), &parents, "omar-agent-");

    let mut depth0 = 0;
    for node in &tree {
        assert_eq!(node.ancestor_is_last.len(), node.depth);
        if node.depth == 0 {
            depth0 += 1;
        }
    }
    assert_eq!(depth0, 1);
    assert_eq!(tree[2].ancestor_is_last, vec![true, false]);
    assert_eq!(tree[4].ancestor_is_last, vec![true, true]);
}

#[test]
fn tree_without_root_agent_marks_root_idle() {
    let agents: Vec<AgentInfo> = Vec::new();
    let parents: Vec<(String, String)> = Vec::new();
    let tree = build_tree(&agents, None, &parents, "omar-agent-");

    assert_eq!(tree.len(), 1);
    assert_eq!(tree[0].health, HealthState::Idle);
    assert_eq!(tree[0].session_name, "oma-manager");
}

#[test]
fn groups_cover_every_worker_exactly_once() {
    let agents = vec![
        make_agent("omar-agent-pm-a", HealthState::Running),
        make_agent("omar-agent-pm-b", HealthState::Running),
        make_agent("omar-agent-w1", HealthState::Running),
        make_agent("omar-agent-w2", HealthState::Idle),
        make_agent("omar-agent-w3", HealthState::Idle),
    ];
    let parents = vec![
        pair("omar-agent-w1", "omar-agent-pm-a"),
        pair("omar-agent-w2", "omar-agent-pm-b"),
        pair("omar-agent-w3", "omar-agent-nowhere"),
    ];

    let groups = build_agent_groups(&agents, &parents, "omar-agent-");

    let mut seen: Vec<String> = Vec::new();
    for g in &groups {
        for w in &g.workers {
            assert!(!seen.contains(&w.session.name));
            seen.push(w.session.name.clone());
        }
    }
    seen.sort();
    assert_eq!(
        seen,
        vec![
            "omar-agent-w1".to_string(),
            "omar-agent-w2".to_string(),
            "omar-agent-w3".to_string()
        ]
    );
}
