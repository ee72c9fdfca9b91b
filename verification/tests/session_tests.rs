use braid::session::{find_session, log_path, next_session_id, state_path, stdin_path, SessionStatus};

fn names(list: &[&str]) -> Vec<String> {
    list.iter().map(|s| s.to_string()).collect()
}

#[test]
fn test_next_session_id_empty() {
    assert_eq!(next_session_id(&vec![]), "agent-1");
}

#[test]
fn test_next_session_id_sequential() {
    let found = names(&["agent-1.json", "agent-2.json", "agent-5.json"]);
    assert_eq!(next_session_id(&found), "agent-6");
}

#[test]
fn next_session_id_ignores_other_files() {
    let found = names(&["agent-3.log", "agent-x.json", "notes.json", "agent-2.json"]);
    assert_eq!(next_session_id(&found), "agent-3");
}

#[test]
fn test_session_status_display() {
    assert_eq!(SessionStatus::Running.to_text(), "running");
    assert_eq!(SessionStatus::Waiting.to_text(), "waiting");
    assert_eq!(SessionStatus::Completed.to_text(), "completed");
}

#[test]
fn refresh_marks_dead_running_sessions_as_zombies() {
    assert_eq!(SessionStatus::Running.refreshed(false), SessionStatus::Zombie);
    assert_eq!(SessionStatus::Waiting.refreshed(false), SessionStatus::Zombie);
    assert_eq!(SessionStatus::Running.refreshed(true), SessionStatus::Running);
    assert_eq!(SessionStatus::Completed.refreshed(false), SessionStatus::Completed);
}

#[test]
fn test_session_paths() {
    assert_eq!(state_path("/tmp/sessions", "agent-1"), "/tmp/sessions/agent-1.json");
    assert_eq!(log_path("/tmp/sessions", "agent-1"), "/tmp/sessions/agent-1.log");
    assert_eq!(stdin_path("/tmp/sessions", "agent-1"), "/tmp/sessions/agent-1.stdin");
}

#[test]
fn find_session_by_full_and_partial_id() {
    let ids = names(&["agent-1", "agent-12", "agent-2"]);
    assert_eq!(find_session(&ids, "agent-2").unwrap(), 2);
    assert!(find_session(&ids, "agent-9").is_err());
}
