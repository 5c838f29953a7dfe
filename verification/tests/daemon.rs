use agent_orchestrator::daemon::{
    concurrency_text, data_dir, require_token, Shutdown, SignalAction,
};

#[test]
fn a_token_is_required() {
    assert_eq!(require_token(Some("t".to_string())), Ok("t".to_string()));
    let message = "GITHUB_TOKEN environment variable is not set or empty".to_string();
    assert_eq!(require_token(Some("".to_string())), Err(message.clone()));
    assert_eq!(require_token(None), Err(message));
}

#[test]
fn the_data_directory_defaults_to_the_home() {
    let home = Some("/home/user".to_string());
    assert_eq!(data_dir(Some("/tmp/x".to_string()), home.clone()), "/tmp/x");
    assert_eq!(data_dir(None, home), "/home/user/.agent-orchestrator");
    assert_eq!(data_dir(None, None), "./.agent-orchestrator");
}

#[test]
fn no_limit_is_unlimited() {
    assert_eq!(concurrency_text(0), "unlimited");
    assert_eq!(concurrency_text(4), "4");
}

#[test]
fn the_second_signal_exits_at_once() {
    let mut shutdown = Shutdown::new();
    assert_eq!(shutdown.signal(), SignalAction::Graceful);
    assert!(shutdown.requested);
    assert_eq!(shutdown.signal(), SignalAction::Exit);
    assert_eq!(shutdown.signal(), SignalAction::Exit);
}
