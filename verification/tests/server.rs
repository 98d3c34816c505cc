use envhist::config::{Config, CoreConfig, DisplayConfig, FiltersConfig};
use envhist::server::Pending;
use envhist::session::{Session, SessionMetadata, Timestamp};
use envhist::storage::Action;
use envhist::{Env, EnvEvent, EnvHistDaemon, EnvResponse, TimelineEntry};

fn at(secs: i64) -> Timestamp {
    Timestamp::new(secs, 0)
}

fn set(pid: u32, key: &str, value: &str) -> EnvEvent {
    EnvEvent::SetVar { pid, key: key.to_string(), value: value.to_string() }
}

fn unset(pid: u32, key: &str) -> EnvEvent {
    EnvEvent::Unset { pid, key: key.to_string() }
}

fn rejecting(pattern: &str) -> EnvHistDaemon {
    EnvHistDaemon::with_config(Config {
        core: CoreConfig::default(),
        filters: FiltersConfig {
            ignore_patterns: vec![pattern.to_string()],
            force_track: vec![],
            ignore_system: vec![],
        },
        display: DisplayConfig::default(),
    })
}

fn session_of(daemon: &EnvHistDaemon, pid: u32) -> Session {
    daemon.sessions().get(pid).unwrap()
}

#[test]
fn set_twice_then_get_session() {
    let mut daemon = EnvHistDaemon::new();
    assert_eq!(daemon.handle_event(set(100, "FOO", "bar"), "zsh"), EnvResponse::Done);
    assert_eq!(daemon.handle_event(set(100, "FOO", "baz"), "zsh"), EnvResponse::Done);
    let session = match daemon.handle_event(EnvEvent::GetSession { pid: 100 }, "zsh") {
        EnvResponse::Session { session } => session,
        other => panic!("no session in {:?}", other),
    };
    assert_eq!(session.pid, 100);
    let timeline = daemon.storage().read_timeline(&session);
    assert_eq!(timeline.len(), 2);
    assert_eq!(timeline[0].action, Action::SetVar);
    assert_eq!(timeline[0].key, "FOO");
    assert_eq!(timeline[0].value, Some("bar".to_string()));
    assert_eq!(timeline[0].prev, None);
    assert_eq!(timeline[1].action, Action::SetVar);
    assert_eq!(timeline[1].key, "FOO");
    assert_eq!(timeline[1].value, Some("baz".to_string()));
    assert_eq!(timeline[1].prev, Some("bar".to_string()));
    assert_eq!(daemon.sessions().len(), 1);
}

#[test]
fn a_rejected_key_is_answered_as_done_and_leaves_no_trace() {
    let mut daemon = rejecting("AWS_.*");
    assert_eq!(daemon.handle_event(set(1, "AWS_TOKEN", "x"), "zsh"), EnvResponse::Done);
    assert_eq!(daemon.sessions().len(), 0);
    assert_eq!(daemon.sessions().get(1), None);
    assert_eq!(daemon.handle_event(unset(1, "AWS_TOKEN"), "zsh"), EnvResponse::Done);
    assert_eq!(daemon.sessions().len(), 0);
    // an accepted event makes the session; a rejected one after it adds nothing and does not touch
    assert_eq!(daemon.handle_event_with(set(1, "OK", "1"), "zsh", 9, at(10), at(11), at(12)), EnvResponse::Done);
    let before = session_of(&daemon, 1);
    assert_eq!(
        daemon.handle_event_with(set(1, "AWS_TOKEN", "x"), "zsh", 9, at(20), at(21), at(22)),
        EnvResponse::Done
    );
    assert_eq!(session_of(&daemon, 1), before);
    assert_eq!(daemon.storage().read_timeline(&before).len(), 1);
}

#[test]
fn get_session_always_resolves_whatever_the_filters_say() {
    let mut daemon = rejecting(".*");
    let response = daemon.handle_event_with(EnvEvent::GetSession { pid: 5 }, "zsh", 77, at(10), at(11), at(12));
    assert_eq!(
        response,
        EnvResponse::Session { session: Session::starting(77, 5, "zsh".to_string(), at(10)) }
    );
    assert_eq!(daemon.sessions().len(), 1);
}

#[test]
fn get_session_makes_a_session_and_a_set_advances_it() {
    let mut daemon = EnvHistDaemon::new();
    let made = match daemon.handle_event_with(EnvEvent::GetSession { pid: 7 }, "fish", 42, at(100), at(101), at(102)) {
        EnvResponse::Session { session } => session,
        other => panic!("no session in {:?}", other),
    };
    assert_eq!(made.started_at, made.last_updated);
    assert_eq!(made, Session::starting(42, 7, "fish".to_string(), at(100)));
    // asking again changes nothing, and does not touch
    assert_eq!(
        daemon.handle_event_with(EnvEvent::GetSession { pid: 7 }, "bash", 43, at(200), at(201), at(202)),
        EnvResponse::Session { session: made.clone() }
    );
    assert_eq!(
        daemon.handle_event_with(set(7, "A", "1"), "bash", 44, at(300), at(301), at(302)),
        EnvResponse::Done
    );
    let after = session_of(&daemon, 7);
    assert_eq!(after.id, made.id);
    assert_eq!(after.started_at, made.started_at);
    assert_eq!(after.shell, "fish");
    assert_eq!(after.last_updated, at(302));
    // a clock that went back does not take the session back
    daemon.handle_event_with(set(7, "A", "2"), "bash", 45, at(1), at(2), at(3));
    assert_eq!(session_of(&daemon, 7).last_updated, at(302));
}

#[test]
fn entries_carry_the_moment_of_the_event_and_the_value_before() {
    let mut daemon = EnvHistDaemon::new();
    daemon.handle_event_with(set(1, "A", "1"), "zsh", 9, at(10), at(11), at(12));
    daemon.handle_event_with(unset(1, "A"), "zsh", 9, at(20), at(21), at(22));
    daemon.handle_event_with(set(1, "A", "2"), "zsh", 9, at(30), at(31), at(32));
    daemon.handle_event_with(unset(1, "B"), "zsh", 9, at(40), at(41), at(42));
    let session = session_of(&daemon, 1);
    assert_eq!(
        daemon.storage().read_timeline(&session),
        vec![
            TimelineEntry {
                timestamp: at(11),
                action: Action::SetVar,
                key: "A".to_string(),
                value: Some("1".to_string()),
                prev: None
            },
            TimelineEntry {
                timestamp: at(21),
                action: Action::Unset,
                key: "A".to_string(),
                value: None,
                prev: Some("1".to_string())
            },
            TimelineEntry {
                timestamp: at(31),
                action: Action::SetVar,
                key: "A".to_string(),
                value: Some("2".to_string()),
                prev: Some("1".to_string())
            },
            TimelineEntry { timestamp: at(41), action: Action::Unset, key: "B".to_string(), value: None, prev: None },
        ]
    );
}

#[test]
fn an_unset_does_not_touch_the_session() {
    let mut daemon = EnvHistDaemon::new();
    daemon.handle_event_with(set(1, "A", "1"), "zsh", 9, at(10), at(11), at(12));
    daemon.handle_event_with(unset(1, "A"), "zsh", 9, at(20), at(21), at(22));
    assert_eq!(session_of(&daemon, 1).last_updated, at(12));
}

#[test]
fn a_capture_is_kept_and_answers_later_for_the_value_before() {
    let mut daemon = EnvHistDaemon::new();
    let mut env = Env::new();
    env.insert("EDITOR".to_string(), "vi".to_string());
    assert_eq!(
        daemon.handle_event_with(EnvEvent::Capture { pid: 3, env: env.clone() }, "zsh", 5, at(10), at(11), at(12)),
        EnvResponse::Done
    );
    let session = session_of(&daemon, 3);
    assert_eq!(session, Session::starting(5, 3, "zsh".to_string(), at(10)));
    assert_eq!(
        daemon.storage().load_metadata(&session),
        Some(SessionMetadata { session: session.clone(), current_env: env })
    );
    daemon.handle_event_with(set(3, "EDITOR", "emacs"), "zsh", 6, at(20), at(21), at(22));
    let timeline = daemon.storage().read_timeline(&session);
    assert_eq!(timeline.len(), 1);
    assert_eq!(timeline[0].prev, Some("vi".to_string()));
    assert_eq!(daemon.get_previous_value(&session, "EDITOR"), Some("vi".to_string()));
    assert_eq!(daemon.get_previous_value(&session, "VISUAL"), None);
}

#[test]
fn sessions_of_different_processes_have_timelines_of_their_own() {
    let mut daemon = EnvHistDaemon::new();
    daemon.handle_event(set(1, "X", "one"), "zsh");
    daemon.handle_event(set(2, "X", "two"), "zsh");
    daemon.handle_event(set(1, "X", "uno"), "zsh");
    let a = session_of(&daemon, 1);
    let b = session_of(&daemon, 2);
    assert_ne!(a.id, b.id);
    let ta = daemon.storage().read_timeline(&a);
    let tb = daemon.storage().read_timeline(&b);
    assert_eq!(ta.len(), 2);
    assert_eq!(tb.len(), 1);
    assert_eq!(ta[1].prev, Some("one".to_string()));
    assert_eq!(tb[0].prev, None);
}

#[test]
fn prepare_stores_nothing_until_it_is_settled() {
    let mut daemon = EnvHistDaemon::new();
    let pending = daemon.prepare_with(set(1, "A", "1"), "zsh", 9, at(10), at(11));
    let session = session_of(&daemon, 1);
    assert_eq!(
        pending,
        Pending::Append {
            session: session.clone(),
            entry: TimelineEntry {
                timestamp: at(11),
                action: Action::SetVar,
                key: "A".to_string(),
                value: Some("1".to_string()),
                prev: None
            }
        }
    );
    assert_eq!(daemon.storage().read_timeline(&session), vec![]);
    assert_eq!(daemon.settle_at(pending, Ok(()), at(12)), EnvResponse::Done);
    assert_eq!(daemon.storage().read_timeline(&session).len(), 1);
    assert_eq!(session_of(&daemon, 1).last_updated, at(12));
}

#[test]
fn a_failed_append_is_answered_with_the_cause_and_changes_nothing() {
    let mut daemon = EnvHistDaemon::new();
    let pending = daemon.prepare_with(set(1, "A", "1"), "zsh", 9, at(10), at(11));
    let response = daemon.settle_at(pending, Err("disk full".to_string()), at(12));
    assert_eq!(response, EnvResponse::Error { message: "Failed to append timeline: disk full".to_string() });
    let session = session_of(&daemon, 1);
    assert_eq!(daemon.storage().read_timeline(&session), vec![]);
    assert_eq!(session.last_updated, at(10));
}

#[test]
fn a_failed_capture_is_answered_with_the_cause_and_changes_nothing() {
    let mut daemon = EnvHistDaemon::new();
    let pending = daemon.prepare_with(EnvEvent::Capture { pid: 1, env: Env::new() }, "zsh", 9, at(10), at(11));
    let response = daemon.settle_at(pending, Err("read-only".to_string()), at(12));
    assert_eq!(response, EnvResponse::Error { message: "Failed to save metadata: read-only".to_string() });
    assert_eq!(daemon.storage().load_metadata(&session_of(&daemon, 1)), None);
}

#[test]
fn a_ready_reply_is_handed_through() {
    let mut daemon = EnvHistDaemon::new();
    let pending = daemon.prepare(EnvEvent::GetSession { pid: 1 }, "zsh");
    let session = session_of(&daemon, 1);
    assert_eq!(pending, Pending::Reply { response: EnvResponse::Session { session: session.clone() } });
    assert_eq!(
        daemon.settle(pending, Err("ignored".to_string())),
        EnvResponse::Session { session: session.clone() }
    );
    assert_eq!(daemon.get_or_create_session(1, "bash"), session);
    let other = daemon.get_or_create_session(2, "bash");
    assert_eq!(other.pid, 2);
    assert_eq!(other.shell, "bash");
    assert_eq!(daemon.sessions().len(), 2);
}

#[test]
fn default_filters_hold_back_system_names_and_secrets() {
    let mut daemon = EnvHistDaemon::new();
    for key in ["PATH", "PWD", "MY_PASSWORD", "API_SECRET", "GITHUB_TOKEN", "AWS_REGION", "SSH_AGENT_PID"] {
        assert_eq!(daemon.handle_event(set(1, key, "x"), "zsh"), EnvResponse::Done);
    }
    assert_eq!(daemon.sessions().len(), 0);
    assert_eq!(daemon.handle_event(set(1, "EDITOR", "vi"), "zsh"), EnvResponse::Done);
    assert_eq!(daemon.sessions().len(), 1);
    assert_eq!(daemon.storage().read_timeline(&session_of(&daemon, 1)).len(), 1);
}
