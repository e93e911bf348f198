use session_switcher::directory::{SessionDirectory, UpdateError};
use session_switcher::message::{command_dir, parse_payload, Command, Origin, SessionEntry};
use session_switcher::navigator::{compute, Direction, NavError};

fn names(v: &[&str]) -> Vec<String> {
    v.iter().map(|s| s.to_string()).collect()
}

fn entry(name: &str, is_current: bool) -> SessionEntry {
    SessionEntry { name: name.to_string(), is_current }
}

#[test]
fn wraparound_forward_from_last() {
    let r = compute(&names(&["a", "b", "c"]), &"c".to_string(), Direction::Forward);
    assert_eq!(r, Ok("a".to_string()));
}

#[test]
fn wraparound_backward_from_first() {
    let r = compute(&names(&["a", "b", "c"]), &"a".to_string(), Direction::Backward);
    assert_eq!(r, Ok("c".to_string()));
}

#[test]
fn middle_steps_both_ways() {
    let list = names(&["a", "b", "c"]);
    assert_eq!(compute(&list, &"b".to_string(), Direction::Forward), Ok("c".to_string()));
    assert_eq!(compute(&list, &"b".to_string(), Direction::Backward), Ok("a".to_string()));
}

#[test]
fn two_sessions_toggle() {
    let list = names(&["a", "b"]);
    assert_eq!(compute(&list, &"a".to_string(), Direction::Forward), Ok("b".to_string()));
    assert_eq!(compute(&list, &"a".to_string(), Direction::Backward), Ok("b".to_string()));
}

#[test]
fn round_trip_returns_to_current() {
    let list = names(&["w", "x", "y", "z"]);
    for cur in ["w", "x", "y", "z"] {
        let cur = cur.to_string();
        let f = compute(&list, &cur, Direction::Forward).unwrap();
        assert_eq!(compute(&list, &f, Direction::Backward), Ok(cur.clone()));
        let b = compute(&list, &cur, Direction::Backward).unwrap();
        assert_eq!(compute(&list, &b, Direction::Forward), Ok(cur.clone()));
    }
}

#[test]
fn single_session_is_insufficient() {
    let list = names(&["a"]);
    assert_eq!(compute(&list, &"a".to_string(), Direction::Forward), Err(NavError::InsufficientSessions));
    assert_eq!(compute(&list, &"a".to_string(), Direction::Backward), Err(NavError::InsufficientSessions));
}

#[test]
fn empty_list_is_insufficient() {
    let list: Vec<String> = Vec::new();
    assert_eq!(compute(&list, &"a".to_string(), Direction::Forward), Err(NavError::InsufficientSessions));
    assert_eq!(compute(&list, &String::new(), Direction::Backward), Err(NavError::InsufficientSessions));
}

#[test]
fn missing_current_is_not_found() {
    let list = names(&["a", "b"]);
    assert_eq!(compute(&list, &"x".to_string(), Direction::Forward), Err(NavError::CurrentSessionNotFound));
    assert_eq!(compute(&list, &"x".to_string(), Direction::Backward), Err(NavError::CurrentSessionNotFound));
}

#[test]
fn duplicate_names_use_first_position() {
    let list = names(&["a", "b", "a", "c"]);
    assert_eq!(compute(&list, &"a".to_string(), Direction::Forward), Ok("b".to_string()));
    assert_eq!(compute(&list, &"a".to_string(), Direction::Backward), Ok("c".to_string()));
}

#[test]
fn payload_vocabulary() {
    assert_eq!(parse_payload(&"next".to_string()), Some(Direction::Forward));
    assert_eq!(parse_payload(&"prev".to_string()), Some(Direction::Backward));
    assert_eq!(parse_payload(&"left".to_string()), None);
    assert_eq!(parse_payload(&"Next".to_string()), None);
    assert_eq!(parse_payload(&String::new()), None);
}

#[test]
fn command_origins_and_names() {
    let mk = |origin: Origin, name: &str, payload: Option<&str>| Command {
        origin,
        name: name.to_string(),
        payload: payload.map(|p| p.to_string()),
    };
    assert_eq!(command_dir(&mk(Origin::Keybind, "switch_session", Some("next"))), Some(Direction::Forward));
    assert_eq!(
        command_dir(&mk(Origin::Cli("p1".to_string()), "switch_session", Some("prev"))),
        Some(Direction::Backward)
    );
    assert_eq!(command_dir(&mk(Origin::Plugin(3), "switch_session", Some("next"))), None);
    assert_eq!(command_dir(&mk(Origin::Keybind, "other", Some("next"))), None);
    assert_eq!(command_dir(&mk(Origin::Keybind, "switch_session", None)), None);
}

#[test]
fn roster_builds_directory() {
    let roster = vec![entry("a", false), entry("b", true), entry("c", true)];
    let d = SessionDirectory::from_roster(&roster).ok().unwrap();
    assert_eq!(d.sessions, names(&["a", "b", "c"]));
    assert_eq!(d.current, "b".to_string());
}

#[test]
fn roster_without_current_is_refused() {
    let roster = vec![entry("a", false), entry("b", false)];
    assert!(matches!(
        SessionDirectory::from_roster(&roster),
        Err(UpdateError::CurrentSessionMissingFromUpdate)
    ));
    let empty: Vec<SessionEntry> = Vec::new();
    assert!(matches!(
        SessionDirectory::from_roster(&empty),
        Err(UpdateError::CurrentSessionMissingFromUpdate)
    ));
}
