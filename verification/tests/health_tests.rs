use omar::health::{
    classify_by_activity, last_output_line, strip_ansi, FrameTracker, HealthInfo, HealthState,
};

#[test]
fn test_health_state_display() {
    assert_eq!(HealthState::Running.as_str(), "running");
    assert_eq!(HealthState::Idle.as_str(), "idle");
}

#[test]
fn test_health_state_icons() {
    assert_eq!(HealthState::Running.icon(), "●");
    assert_eq!(HealthState::Idle.icon(), "○");
    assert_eq!(HealthState::Running.icon_colored(), "🟢");
    assert_eq!(HealthState::Idle.icon_colored(), "🟡");
}

#[test]
fn test_idle_display() {
    let info = HealthInfo {
        state: HealthState::Running,
        idle_seconds: 30,
        last_output: String::new(),
    };
    assert_eq!(info.idle_display(), "30s");

    let info = HealthInfo {
        state: HealthState::Running,
        idle_seconds: 120,
        last_output: String::new(),
    };
    assert_eq!(info.idle_display(), "2m");

    let info = HealthInfo {
        state: HealthState::Running,
        idle_seconds: 7200,
        last_output: String::new(),
    };
    assert_eq!(info.idle_display(), "2h");
}

#[test]
fn idle_display_handles_negative_clock_skew() {
    let info = HealthInfo {
        state: HealthState::Idle,
        idle_seconds: -5,
        last_output: String::new(),
    };
    assert_eq!(info.idle_display(), "-5s");
}

#[test]
fn first_observation_is_running() {
    let mut tracker = FrameTracker::new();
    assert_eq!(tracker.observe("omar-agent-x", "$ "), HealthState::Running);
}

#[test]
fn unchanged_frame_reports_idle() {
    let mut tracker = FrameTracker::new();
    tracker.observe("omar-agent-x", "$ prompt");
    assert_eq!(tracker.observe("omar-agent-x", "$ prompt"), HealthState::Idle);
    assert_eq!(tracker.observe("omar-agent-x", "$ prompt"), HealthState::Idle);
}

#[test]
fn changed_frame_reports_running() {
    let mut tracker = FrameTracker::new();
    tracker.observe("omar-agent-x", "one");
    assert_eq!(tracker.observe("omar-agent-x", "two"), HealthState::Running);
    assert_eq!(tracker.observe("omar-agent-x", "two"), HealthState::Idle);
}

#[test]
fn two_quiet_sessions_are_idle_after_second_tick() {
    let mut tracker = FrameTracker::new();
    let first_x = tracker.observe("omar-agent-x", "pane x");
    let first_y = tracker.observe("omar-agent-y", "pane y");
    assert_eq!(first_x, HealthState::Running);
    assert_eq!(first_y, HealthState::Running);

    assert_eq!(tracker.observe("omar-agent-x", "pane x"), HealthState::Idle);
    assert_eq!(tracker.observe("omar-agent-y", "pane y"), HealthState::Idle);
}

#[test]
fn purged_session_counts_as_new_again() {
    let mut tracker = FrameTracker::new();
    tracker.observe("omar-agent-x", "pane");
    tracker.observe("omar-agent-y", "pane");
    tracker.retain_sessions(&vec!["omar-agent-y".to_string()]);

    assert_eq!(tracker.observe("omar-agent-x", "pane"), HealthState::Running);
    assert_eq!(tracker.observe("omar-agent-y", "pane"), HealthState::Idle);
}

#[test]
fn empty_capture_matches_empty_capture() {
    let mut tracker = FrameTracker::new();
    tracker.observe("omar-agent-x", "");
    assert_eq!(tracker.observe("omar-agent-x", ""), HealthState::Idle);
}

#[test]
fn empty_capture_counts_as_unchanged_for_a_known_session() {
    let mut tracker = FrameTracker::new();
    tracker.observe_capture("omar-agent-x", "busy pane");
    assert_eq!(
        tracker.observe_capture("omar-agent-x", ""),
        HealthState::Idle
    );
    assert_eq!(
        tracker.observe_capture("omar-agent-x", "busy pane"),
        HealthState::Idle
    );
    assert_eq!(
        tracker.observe_capture("omar-agent-x", "new output"),
        HealthState::Running
    );
}

#[test]
fn activity_fallback_compares_against_threshold() {
    assert_eq!(classify_by_activity(100, 95, 15), HealthState::Running);
    assert_eq!(classify_by_activity(100, 85, 15), HealthState::Idle);
    assert_eq!(classify_by_activity(100, 85, 16), HealthState::Running);
}

#[test]
fn strip_ansi_removes_colour_codes() {
    let coloured = "\u{1b}[32mgreen\u{1b}[0m text";
    assert_eq!(strip_ansi(coloured), "green text");
    assert_eq!(strip_ansi("plain"), "plain");
}

#[test]
fn last_output_takes_rightmost_nonempty_line() {
    let capture = "first line\n\u{1b}[1msecond line\u{1b}[0m\n   \n\n";
    assert_eq!(last_output_line(capture), "second line");
    assert_eq!(last_output_line("\n  \n"), "");
}

#[test]
fn last_output_clips_to_eighty_characters() {
    let long = "x".repeat(200);
    let out = last_output_line(&long);
    assert_eq!(out.chars().count(), 80);
}
