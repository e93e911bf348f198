use session_switcher::dispatcher::Dispatcher;
use session_switcher::message::{Command, Notification, Origin, SessionEntry};

fn roster(names: &[&str], current: &str) -> Notification {
    Notification::SessionUpdate(
        names
            .iter()
            .map(|n| SessionEntry { name: n.to_string(), is_current: *n == current })
            .collect(),
    )
}

fn cmd(payload: &str) -> Command {
    Command {
        origin: Origin::Keybind,
        name: "switch_session".to_string(),
        payload: Some(payload.to_string()),
    }
}

fn grant() -> Notification {
    Notification::PermissionResult(true)
}

fn ready(names: &[&str], current: &str) -> Dispatcher {
    let mut d = Dispatcher::new();
    assert!(d.update(grant()).is_empty());
    assert!(d.update(roster(names, current)).is_empty());
    d
}

#[test]
fn starts_pending_and_empty() {
    let d = Dispatcher::default();
    assert!(!d.is_granted());
    assert!(d.sessions().is_empty());
    assert_eq!(d.cached_command_count(), 0);
    assert_eq!(d.pending_event_count(), 0);
}

#[test]
fn ready_dispatches_immediately() {
    let mut d = ready(&["a", "b", "c"], "c");
    assert_eq!(d.pipe(cmd("next")), vec!["a".to_string()]);
    assert_eq!(d.pipe(cmd("prev")), vec!["b".to_string()]);
}

#[test]
fn single_session_switches_nothing() {
    let mut d = ready(&["a"], "a");
    assert!(d.pipe(cmd("next")).is_empty());
    assert!(d.pipe(cmd("prev")).is_empty());
    assert_eq!(d.cached_command_count(), 0);
}

#[test]
fn unrecognized_payload_changes_nothing() {
    let mut d = ready(&["a", "b"], "a");
    assert!(d.pipe(cmd("left")).is_empty());
    assert_eq!(d.cached_command_count(), 0);
    assert_eq!(d.pending_event_count(), 0);
    assert_eq!(d.current_session(), &"a".to_string());
}

#[test]
fn peer_and_unknown_commands_are_ignored() {
    let mut d = ready(&["a", "b"], "a");
    let peer = Command { origin: Origin::Plugin(7), name: "switch_session".to_string(), payload: Some("next".to_string()) };
    assert!(d.pipe(peer).is_empty());
    let unknown = Command { origin: Origin::Keybind, name: "other".to_string(), payload: Some("next".to_string()) };
    assert!(d.pipe(unknown).is_empty());
    let cli = Command { origin: Origin::Cli("id".to_string()), name: "switch_session".to_string(), payload: Some("next".to_string()) };
    assert_eq!(d.pipe(cli), vec!["b".to_string()]);
}

#[test]
fn commands_wait_for_grant() {
    let mut d = Dispatcher::new();
    assert!(d.pipe(cmd("next")).is_empty());
    assert!(d.pipe(cmd("prev")).is_empty());
    assert!(d.update(roster(&["a", "b", "c"], "b")).is_empty());
    assert_eq!(d.cached_command_count(), 2);
    assert_eq!(d.pending_event_count(), 1);
    assert!(d.sessions().is_empty());
    // most recent first: "prev" then "next", both from "b"
    assert_eq!(d.update(grant()), vec!["a".to_string(), "c".to_string()]);
    assert_eq!(d.cached_command_count(), 0);
    assert_eq!(d.pending_event_count(), 0);
    assert_eq!(d.current_session(), &"b".to_string());
}

#[test]
fn grant_without_roster_keeps_commands() {
    let mut d = Dispatcher::new();
    assert!(d.pipe(cmd("next")).is_empty());
    assert!(d.update(grant()).is_empty());
    assert_eq!(d.cached_command_count(), 1);
    assert!(d.pipe(cmd("prev")).is_empty());
    assert_eq!(d.cached_command_count(), 2);
    assert_eq!(d.update(roster(&["a", "b", "c"], "a")), vec!["c".to_string(), "b".to_string()]);
    assert_eq!(d.cached_command_count(), 0);
}

#[test]
fn commands_wait_for_first_roster() {
    let mut d = Dispatcher::new();
    assert!(d.update(grant()).is_empty());
    assert!(d.pipe(cmd("next")).is_empty());
    assert!(d.update(roster(&[], "")).is_empty());
    assert_eq!(d.cached_command_count(), 1);
    assert_eq!(d.update(roster(&["a", "b"], "a")), vec!["b".to_string()]);
    assert_eq!(d.cached_command_count(), 0);
}

#[test]
fn repeated_grant_does_nothing() {
    let mut d = Dispatcher::new();
    assert!(d.pipe(cmd("next")).is_empty());
    assert!(d.update(roster(&["a", "b"], "a")).is_empty());
    assert_eq!(d.update(grant()), vec!["b".to_string()]);
    assert!(d.update(grant()).is_empty());
    assert_eq!(d.cached_command_count(), 0);
    assert_eq!(d.pending_event_count(), 0);
    assert_eq!(d.current_session(), &"a".to_string());
}

#[test]
fn held_notifications_replay_most_recent_first() {
    let mut d = Dispatcher::new();
    assert!(d.update(roster(&["a", "b"], "a")).is_empty());
    assert!(d.update(roster(&["x", "y", "z"], "z")).is_empty());
    assert!(d.pipe(cmd("next")).is_empty());
    // the later roster is applied first and serves the held command
    assert_eq!(d.update(grant()), vec!["x".to_string()]);
    // the earlier roster is applied last and stays
    assert_eq!(d.sessions(), &vec!["a".to_string(), "b".to_string()]);
    assert_eq!(d.current_session(), &"a".to_string());
}

#[test]
fn denial_leaves_dispatcher_pending() {
    let mut d = Dispatcher::new();
    assert!(d.update(Notification::PermissionResult(false)).is_empty());
    assert!(!d.is_granted());
    assert_eq!(d.pending_event_count(), 1);
    assert!(d.pipe(cmd("next")).is_empty());
    assert_eq!(d.cached_command_count(), 1);
}

#[test]
fn roster_without_current_is_skipped() {
    let mut d = ready(&["a", "b"], "a");
    let bad = Notification::SessionUpdate(vec![
        SessionEntry { name: "x".to_string(), is_current: false },
        SessionEntry { name: "y".to_string(), is_current: false },
    ]);
    assert!(d.update(bad).is_empty());
    assert_eq!(d.sessions(), &vec!["a".to_string(), "b".to_string()]);
    assert_eq!(d.pipe(cmd("next")), vec!["b".to_string()]);
}

#[test]
fn current_follows_new_roster() {
    let mut d = ready(&["a", "b"], "a");
    let update = Notification::SessionUpdate(vec![
        SessionEntry { name: "a".to_string(), is_current: false },
        SessionEntry { name: "b".to_string(), is_current: false },
        SessionEntry { name: "c".to_string(), is_current: true },
    ]);
    assert!(d.update(update).is_empty());
    assert_eq!(d.pipe(cmd("prev")), vec!["b".to_string()]);
}

#[test]
fn other_notifications_are_ignored() {
    let mut d = ready(&["a", "b"], "b");
    assert!(d.update(Notification::Other).is_empty());
    assert_eq!(d.pipe(cmd("next")), vec!["a".to_string()]);
}

#[test]
fn mixed_calls_before_grant_dispatch_nothing() {
    let mut d = Dispatcher::default();
    assert!(d.pipe(cmd("next")).is_empty());
    assert!(d.update(Notification::PermissionResult(false)).is_empty());
    assert!(d.update(roster(&["a", "b", "c"], "a")).is_empty());
    assert!(d.pipe(cmd("left")).is_empty());
    assert!(d.update(Notification::Other).is_empty());
    assert!(d.pipe(cmd("prev")).is_empty());
    assert_eq!(d.cached_command_count(), 3);
    assert_eq!(d.pending_event_count(), 3);
    assert!(d.sessions().is_empty());
    assert!(!d.is_granted());
    // popped most recent first: "prev", "left" (nothing), "next"
    assert_eq!(d.update(grant()), vec!["c".to_string(), "b".to_string()]);
    assert_eq!(d.cached_command_count(), 0);
}
