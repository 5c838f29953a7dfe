use agent_orchestrator::config::GitConfig;
use agent_orchestrator::dispatcher::{
    append_completed, append_failed, append_failed_at, key_text, read_json_array, DispatchAction,
    DispatchEvent, DispatchMessage, Dispatcher,
};
use agent_orchestrator::keys::KeySet;
use agent_orchestrator::paths::temp_path;
use agent_orchestrator::template::Vars;
use agent_orchestrator::trigger::EventKey;
use std::sync::Arc;

fn dispatcher(limit: usize, completed: &[&str]) -> Dispatcher {
    Dispatcher::new(
        "/tmp/test".to_string(),
        "token".to_string(),
        "/usr/local/bin/gost".to_string(),
        false,
        limit,
        KeySet::from_list(completed.iter().map(|k| k.to_string()).collect()),
    )
}

fn message(workspace_id: &str) -> DispatchMessage {
    DispatchMessage {
        event_key: EventKey {
            owner: "owner".to_string(),
            repo: "repo".to_string(),
            number: 42,
            workspace_id: workspace_id.to_string(),
            label: format!("owner/repo#{}", workspace_id),
            variables: Vars::new(),
        },
        steps: Arc::new(vec![]),
        git_config: GitConfig::default(),
    }
}

#[test]
fn test_is_idle_when_nothing_in_flight() {
    let dispatcher = dispatcher(0, &[]);
    assert!(dispatcher.is_idle());
}

#[test]
fn test_not_idle_when_in_flight_workflows() {
    let mut dispatcher = dispatcher(0, &[]);
    dispatcher.in_flight.insert("owner/repo/42".to_string());
    assert!(!dispatcher.is_idle());
}

#[test]
fn test_append_completed_adds_entry() {
    let text = append_completed(None, "owner/repo/42");
    let entries = read_json_array(Some(&text));
    assert!(entries.contains(&"owner/repo/42".to_string()));
}

#[test]
fn test_append_completed_idempotent() {
    let once = append_completed(None, "owner/repo/42");
    let twice = append_completed(Some(&once), "owner/repo/42");
    let entries = read_json_array(Some(&twice));
    assert_eq!(entries.iter().filter(|e| **e == "owner/repo/42").count(), 1);
}

#[test]
fn test_append_failed_adds_entry() {
    let entries = append_failed(vec![], "owner/repo/42", "something went wrong");
    assert_eq!(entries.len(), 1);
    assert_eq!(entries[0].key, "owner/repo/42");
    assert_eq!(entries[0].error, "something went wrong");
    assert!(entries[0].timestamp.ends_with("+00:00"));
}

#[test]
fn test_dispatcher_new_semaphore_limits() {
    let d0 = dispatcher(0, &[]);
    let d4 = dispatcher(4, &[]);
    assert!(d4.in_flight.is_empty());
    assert!(d0.in_flight.is_empty());
    assert_eq!(d0.permits, usize::MAX >> 3);
    assert_eq!(d4.permits, 4);
}

#[test]
fn completed_keys_are_written_as_an_array() {
    let text = append_completed(Some("[\"a/b/1\"]"), "a/b/\"2\"");
    assert_eq!(text, "[\n  \"a/b/1\",\n  \"a/b/\\\"2\\\"\"\n]");
    assert_eq!(read_json_array(Some(&text)), vec!["a/b/1", "a/b/\"2\""]);
    assert_eq!(append_completed(Some("no json"), "k"), "[\n  \"k\"\n]");
    assert!(read_json_array(Some("[1]")).is_empty());
    assert!(read_json_array(Some("{}")).is_empty());
    assert!(read_json_array(None).is_empty());
}

#[test]
fn test_write_json_atomic() {
    let data = append_completed(Some("[\"test1\"]"), "test2");
    assert!(data.contains("\"test1\""));
    assert!(data.contains("\"test2\""));
    // The file that is written first is another one.
    assert_eq!(temp_path("/data/test.json"), "/data/test.tmp");
    assert_eq!(temp_path("/data.d/.hidden"), "/data.d/.hidden.tmp");
    assert_eq!(temp_path("plain"), "plain.tmp");
}

#[test]
fn failures_are_dated() {
    let first = append_failed_at(vec![], "k1", "e1", 1746475200, 5000000);
    let both = append_failed_at(first, "k2", "e2", 0, 0);
    assert_eq!(both.len(), 2);
    assert_eq!(both[0].timestamp, "2025-05-05T20:00:00.005+00:00");
    assert_eq!(both[1].timestamp, "1970-01-01T00:00:00+00:00");
    assert_eq!(both[1].key, "k2");
}

fn starts(dispatcher: &mut Dispatcher, workspace_id: &str) -> bool {
    match dispatcher.run(DispatchEvent::Message(message(workspace_id))) {
        DispatchAction::Start { key, message } => {
            assert_eq!(key, format!("owner/repo/{}", workspace_id));
            assert_eq!(message.event_key.workspace_id, workspace_id);
            true
        }
        DispatchAction::Skip => false,
        _ => panic!("unexpected action"),
    }
}

#[test]
fn an_event_is_started_once() {
    let mut dispatcher = dispatcher(0, &["owner/repo/7"]);
    assert_eq!(key_text(&message("42").event_key), "owner/repo/42");
    assert!(!starts(&mut dispatcher, "7"));
    assert!(starts(&mut dispatcher, "42"));
    assert!(!starts(&mut dispatcher, "42"));
    assert!(starts(&mut dispatcher, "43"));
    let done = DispatchEvent::Done {
        key: "owner/repo/42".to_string(),
        result: Ok(()),
    };
    match dispatcher.run(done) {
        DispatchAction::RecordCompleted { key } => assert_eq!(key, "owner/repo/42"),
        _ => panic!("expected a completion"),
    }
    let failed = DispatchEvent::Done {
        key: "owner/repo/43".to_string(),
        result: Err("boom".to_string()),
    };
    match dispatcher.run(failed) {
        DispatchAction::RecordFailed { key, error } => {
            assert_eq!(key, "owner/repo/43");
            assert_eq!(error, "boom");
        }
        _ => panic!("expected a failure"),
    }
    assert!(dispatcher.is_idle());
    assert!(dispatcher.completed.contains("owner/repo/42"));
    assert!(dispatcher.permanently_failed.contains("owner/repo/43"));
    assert!(!starts(&mut dispatcher, "42"));
    assert!(!starts(&mut dispatcher, "43"));
    match dispatcher.run(DispatchEvent::Closed) {
        DispatchAction::Drain => {}
        _ => panic!("expected to drain"),
    }
}

fn done(dispatcher: &mut Dispatcher, workspace_id: &str) {
    let event = DispatchEvent::Done {
        key: format!("owner/repo/{}", workspace_id),
        result: Ok(()),
    };
    match dispatcher.run(event) {
        DispatchAction::RecordCompleted { .. } => {}
        _ => panic!("expected a completion"),
    }
}

fn next(dispatcher: &mut Dispatcher) -> Option<String> {
    match dispatcher.run(DispatchEvent::Next) {
        DispatchAction::Start { key, message } => {
            assert_eq!(key, key_text(&message.event_key));
            Some(key)
        }
        DispatchAction::Skip => None,
        _ => panic!("unexpected action"),
    }
}

#[test]
fn no_more_runs_than_the_limit_at_a_time() {
    let mut dispatcher = dispatcher(2, &[]);
    assert!(starts(&mut dispatcher, "1"));
    assert!(starts(&mut dispatcher, "2"));
    for id in ["3", "4"] {
        match dispatcher.run(DispatchEvent::Message(message(id))) {
            DispatchAction::Wait => {}
            _ => panic!("expected to wait"),
        }
    }
    assert!(!starts(&mut dispatcher, "3"));
    assert_eq!(next(&mut dispatcher), None);
    assert_eq!(dispatcher.running, vec!["owner/repo/1", "owner/repo/2"]);
    done(&mut dispatcher, "1");
    assert_eq!(next(&mut dispatcher), Some("owner/repo/3".to_string()));
    assert_eq!(next(&mut dispatcher), None);
    assert_eq!(dispatcher.running, vec!["owner/repo/2", "owner/repo/3"]);
    done(&mut dispatcher, "3");
    assert_eq!(next(&mut dispatcher), Some("owner/repo/4".to_string()));
    done(&mut dispatcher, "2");
    assert_eq!(next(&mut dispatcher), None);
    assert!(!dispatcher.is_idle());
    done(&mut dispatcher, "4");
    assert!(dispatcher.is_idle());
}

#[test]
fn without_a_limit_nothing_waits() {
    let mut dispatcher = dispatcher(0, &[]);
    for i in 0..100 {
        assert!(starts(&mut dispatcher, &i.to_string()));
    }
    assert_eq!(dispatcher.running.len(), 100);
    assert_eq!(next(&mut dispatcher), None);
}

#[test]
fn keys_tell_events_apart() {
    let mut first = message("1").event_key;
    first.owner = "a".to_string();
    first.repo = "b".to_string();
    let mut second = message("1").event_key;
    second.owner = "a".to_string();
    second.repo = "c".to_string();
    assert_eq!(key_text(&first), "a/b/1");
    assert_ne!(key_text(&first), key_text(&second));
}

#[test]
fn a_completed_event_is_not_started_after_a_restart() {
    let text = append_completed(Some("[\"owner/repo/1\"]"), "owner/repo/42");
    let keys = agent_orchestrator::poller::load_completed(Some(&text));
    let mut dispatcher = Dispatcher::new(
        "/d".to_string(),
        "t".to_string(),
        "/bin/x".to_string(),
        true,
        1,
        keys,
    );
    assert!(!starts(&mut dispatcher, "42"));
    assert!(!starts(&mut dispatcher, "1"));
    assert!(starts(&mut dispatcher, "2"));
}
