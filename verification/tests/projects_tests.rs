use omar::projects::{add_project, parse_projects, remove_project, render_projects, Project};

#[test]
fn test_parse_projects() {
    let content = "1. Build REST API\n2. Set up CI/CD\n3. Refactor DB\n";
    let projects = parse_projects(content);
    assert_eq!(projects.len(), 3);
    assert_eq!(projects[0].name, "Build REST API");
    assert_eq!(projects[1].name, "Set up CI/CD");
    assert_eq!(projects[2].name, "Refactor DB");
    assert_eq!(projects[0].id, 1);
    assert_eq!(projects[2].id, 3);
}

#[test]
fn test_parse_empty() {
    assert!(parse_projects("").is_empty());
    assert!(parse_projects("   \n\n").is_empty());
}

#[test]
fn test_parse_ignores_bad_lines() {
    let content = "1. Good line\nrandom text\n- bullet\n2. Another good line\n";
    let projects = parse_projects(content);
    assert_eq!(projects.len(), 2);
    assert_eq!(projects[0].name, "Good line");
    assert_eq!(projects[1].name, "Another good line");
}

#[test]
fn projects_save_then_load_keeps_names_and_renumbers() {
    let projects = vec![
        Project {
            id: 7,
            name: "Alpha".to_string(),
        },
        Project {
            id: 9,
            name: "Beta".to_string(),
        },
    ];
    let content = render_projects(&projects);
    assert_eq!(content, "1. Alpha\n2. Beta\n");

    let parsed = parse_projects(&content);
    assert_eq!(parsed.len(), 2);
    assert_eq!(parsed[0].name, "Alpha");
    assert_eq!(parsed[1].name, "Beta");
    assert_eq!(parsed[0].id, 1);
    assert_eq!(parsed[1].id, 2);
}

#[test]
fn render_empty_list_is_empty_file() {
    let projects: Vec<Project> = Vec::new();
    assert_eq!(render_projects(&projects), "");
}

#[test]
fn add_then_remove_then_add_renumbers() {
    let mut projects: Vec<Project> = Vec::new();
    let id = add_project(&mut projects, "Build API");
    assert_eq!(id, 1);
    assert_eq!(render_projects(&projects), "1. Build API\n");

    assert!(remove_project(&mut projects, 1));
    let id2 = add_project(&mut projects, "Other");
    assert_eq!(id2, 1);
    let reloaded = parse_projects(&render_projects(&projects));
    assert_eq!(reloaded.len(), 1);
    assert_eq!(reloaded[0].id, 1);
    assert_eq!(reloaded[0].name, "Other");
}

#[test]
fn remove_out_of_range_reports_not_found() {
    let mut projects = vec![Project {
        id: 1,
        name: "Only".to_string(),
    }];
    assert!(!remove_project(&mut projects, 0));
    assert!(!remove_project(&mut projects, 2));
    assert_eq!(projects.len(), 1);
    assert!(remove_project(&mut projects, 1));
    assert!(projects.is_empty());
}

#[test]
fn parse_accepts_multidigit_numbers_and_trims_names() {
    let content = "12.  padded name  \n003. zeros\n4.\n5.    \n";
    let projects = parse_projects(content);
    assert_eq!(projects.len(), 2);
    assert_eq!(projects[0].name, "padded name");
    assert_eq!(projects[1].name, "zeros");
}
