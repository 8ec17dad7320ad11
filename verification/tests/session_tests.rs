use omar::session::{
    is_benign_list_error, parse_sessions_output, parse_u64, str_contains, Session, TmuxClient,
};

#[test]
fn test_client_creation() {
    let client = TmuxClient::new("oma-agent-");
    assert_eq!(client.prefix(), "oma-agent-");
}

#[test]
fn test_client_with_different_prefix() {
    let client = TmuxClient::new("test-");
    assert_eq!(client.prefix(), "test-");
}

#[test]
fn session_new_packs_fields() {
    let s = Session::new("omar-agent-x".to_string(), 17, true, 42);
    assert_eq!(s.name, "omar-agent-x");
    assert_eq!(s.activity, 17);
    assert!(s.attached);
    assert_eq!(s.pane_pid, 42);
}

#[test]
fn list_output_parses_well_formed_lines() {
    let output = "omar-agent-a|1700000000|0|101\nomar-agent-b|1700000001|1|102\n";
    let sessions = parse_sessions_output(output, "");
    assert_eq!(sessions.len(), 2);
    assert_eq!(sessions[0].name, "omar-agent-a");
    assert_eq!(sessions[0].activity, 1700000000);
    assert!(!sessions[0].attached);
    assert_eq!(sessions[0].pane_pid, 101);
    assert!(sessions[1].attached);
}

#[test]
fn list_output_skips_malformed_lines() {
    let output = "broken line\nomar-agent-a|12|0\nomar-agent-b|x|0|1\nomar-agent-c|3|0|9\n";
    let sessions = parse_sessions_output(output, "");
    assert_eq!(sessions.len(), 1);
    assert_eq!(sessions[0].name, "omar-agent-c");
}

#[test]
fn list_output_filters_by_prefix() {
    let output = "omar-agent-a|1|0|1\nother-session|2|0|2\n";
    let sessions = parse_sessions_output(output, "omar-agent-");
    assert_eq!(sessions.len(), 1);
    assert_eq!(sessions[0].name, "omar-agent-a");
}

#[test]
fn empty_list_output_parses_to_nothing() {
    assert!(parse_sessions_output("", "").is_empty());
}

#[test]
fn numeric_fields_reject_overflow_and_junk() {
    assert_eq!(parse_u64("0"), Some(0));
    assert_eq!(parse_u64("1700000000"), Some(1700000000));
    assert_eq!(parse_u64(""), None);
    assert_eq!(parse_u64("12a"), None);
    assert_eq!(parse_u64("-3"), None);
    assert_eq!(parse_u64("99999999999999999999999"), None);
}

#[test]
fn benign_list_errors_mean_no_sessions() {
    assert!(is_benign_list_error("no server running on /tmp/tmux-0/default"));
    assert!(is_benign_list_error("error: no sessions"));
    assert!(!is_benign_list_error("protocol mismatch"));
    assert!(!is_benign_list_error(""));
}

#[test]
fn substring_search_matches_exactly() {
    assert!(str_contains("hello world", "lo wo"));
    assert!(str_contains("abc", ""));
    assert!(!str_contains("abc", "abcd"));
    assert!(!str_contains("", "a"));
}
