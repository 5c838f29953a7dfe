use agent_orchestrator::config::{Config, DirListing, GitConfig, RepoConfig};
use agent_orchestrator::harness::HarnessConfig;
use agent_orchestrator::keys::KeySet;
use agent_orchestrator::poller::{
    load_completed, load_workflow_entries, load_workflow_entries_if_changed, needs_reload,
    run_poll_loop, scan, DirEntry, DirScan, FileState, PollLoop, PollStage, ReloadDecision, WorkflowEntry,
};
use agent_orchestrator::template::Vars;
use agent_orchestrator::trigger::{Trigger, TriggerConfig, TriggerEvent};
use agent_orchestrator::workflow::Step;

fn config(triggers: usize, name: &str) -> Config {
    Config {
        triggers: (0..triggers)
            .map(|_| TriggerConfig::LocalFile {
                path: "/watch".to_string(),
                pattern: "*".to_string(),
            })
            .collect(),
        repos: vec![RepoConfig {
            owner: "testowner".to_string(),
            repo: "testrepo".to_string(),
        }],
        git: GitConfig::default(),
        steps: vec![Step {
            name: name.to_string(),
            prompt_template: "do something".to_string(),
            pre_hooks: vec![],
            post_hooks: vec![],
            harness: HarnessConfig::Hermes {
                profile: "cto".to_string(),
                provider: None,
                model: None,
                max_turns: None,
            },
        }],
    }
}

fn entry(name: &str, modified: Option<i128>) -> DirEntry {
    DirEntry {
        name: name.to_string(),
        modified,
    }
}

fn entries(list: Vec<DirEntry>) -> DirScan {
    DirScan::Entries(list.into_iter().map(Ok).collect())
}

fn load(configs: Vec<Config>, listing: Vec<DirEntry>) -> (Vec<WorkflowEntry>, FileState) {
    load_workflow_entries(Ok(configs), "token", "/w", &entries(listing)).ok().unwrap()
}

/// What is decided after a state was taken from one listing and another one is
/// found.
fn reload(before: Vec<DirEntry>, now: Vec<DirEntry>, configs: usize) -> ReloadDecision {
    let (_, state) = load(vec![config(1, "a")], before);
    let listing = entries(now);
    let changed = needs_reload("/w", &listing, &state);
    let loaded = load_workflow_entries(
        Ok((0..configs).map(|_| config(1, "b")).collect()),
        "token",
        "/w",
        &listing,
    );
    load_workflow_entries_if_changed(changed, loaded)
}

#[test]
fn load_workflow_entries_succeeds_with_valid_dir() {
    let (entries, file_state) = load(vec![config(1, "test-step")], vec![entry("workflow.toml", Some(1))]);
    assert_eq!(entries.len(), 1, "expected 1 workflow entry");
    assert_eq!(file_state.get("/w/workflow.toml"), Some(1));
    // The entry should have 1 trigger, 1 repo, and 1 step
    assert_eq!(entries[0].triggers.len(), 1);
    assert_eq!(entries[0].repos.len(), 1);
    assert_eq!(entries[0].steps.len(), 1);
}

#[test]
fn load_workflow_entries_fails_with_empty_dir() {
    let configs = match Config::find_all("/w", DirListing::Names(vec![])) {
        Ok(_) => panic!("expected error for empty dir"),
        Err(e) => Err(e),
    };
    let result = load_workflow_entries(configs, "token", "/w", &entries(vec![]));
    assert!(result.is_err(), "expected error for empty dir");
}

#[test]
fn load_workflow_entries_discovers_multiple_toml_files() {
    let listing = vec![
        entry("alpha.toml", Some(1)),
        entry("beta.toml", Some(2)),
        entry("readme.md", Some(3)),
    ];
    let (entries, file_state) = load(vec![config(1, "a"), config(1, "b")], listing);
    assert_eq!(entries.len(), 2, "expected 2 workflow entries");
    assert_eq!(file_state.get("/w/alpha.toml"), Some(1));
    assert_eq!(file_state.get("/w/beta.toml"), Some(2));
    assert_eq!(file_state.get("/w/readme.md"), None);
}

#[test]
fn reload_decision_unchanged_when_no_changes() {
    let files = || vec![entry("workflow.toml", Some(1))];
    match reload(files(), files(), 1) {
        ReloadDecision::Unchanged => {}
        ReloadDecision::Reload(..) => panic!("expected Unchanged, got Reload"),
        ReloadDecision::Error(e) => panic!("expected Unchanged, got Error: {e}"),
    }
}

#[test]
fn reload_decision_detects_new_file() {
    let before = vec![entry("alpha.toml", Some(1))];
    let now = vec![entry("alpha.toml", Some(1)), entry("beta.toml", Some(1))];
    match reload(before, now, 2) {
        ReloadDecision::Reload(entries, new_state) => {
            assert_eq!(entries.len(), 2, "expected 2 entries after adding a file");
            assert_eq!(new_state.get("/w/alpha.toml"), Some(1));
            assert_eq!(new_state.get("/w/beta.toml"), Some(1));
        }
        ReloadDecision::Unchanged => panic!("expected Reload, got Unchanged"),
        ReloadDecision::Error(e) => panic!("expected Reload, got Error: {e}"),
    }
}

#[test]
fn reload_decision_detects_removed_file() {
    let before = vec![entry("alpha.toml", Some(1)), entry("beta.toml", Some(1))];
    let now = vec![entry("alpha.toml", Some(1))];
    match reload(before, now, 1) {
        ReloadDecision::Reload(entries, new_state) => {
            assert_eq!(entries.len(), 1, "expected 1 entry after removing a file");
            assert_eq!(new_state.get("/w/alpha.toml"), Some(1));
            assert_eq!(new_state.get("/w/beta.toml"), None);
        }
        ReloadDecision::Unchanged => panic!("expected Reload, got Unchanged"),
        ReloadDecision::Error(e) => panic!("expected Reload, got Error: {e}"),
    }
}

#[test]
fn reload_decision_detects_modified_file() {
    let before = vec![entry("workflow.toml", Some(1))];
    let now = vec![entry("workflow.toml", Some(2))];
    match reload(before, now, 1) {
        ReloadDecision::Reload(entries, _new_state) => {
            assert_eq!(entries.len(), 1, "expected 1 entry after modifying a file");
            assert_eq!(entries[0].steps[0].name, "b");
        }
        ReloadDecision::Unchanged => panic!("expected Reload, got Unchanged"),
        ReloadDecision::Error(e) => panic!("expected Reload, got Error: {e}"),
    }
}

#[test]
fn reload_decision_error_on_invalid_dir() {
    // Both have no workflow files, so there is no change.
    assert_eq!(needs_reload("/w", &entries(vec![]), &FileState::new()), Ok(false));
    let unreadable = DirScan::Unreadable("gone".to_string());
    let changed = needs_reload("/w", &unreadable, &FileState::new());
    let loaded = load_workflow_entries(Ok(vec![]), "token", "/w", &unreadable);
    match load_workflow_entries_if_changed(changed, loaded) {
        ReloadDecision::Error(e) => assert_eq!(e, "reading workflows dir: gone"),
        _ => panic!("expected an error"),
    }
}

#[test]
fn unreadable_entries_fail_loading_only() {
    let listing = DirScan::Entries(vec![
        Ok(entry("a.toml", Some(1))),
        Err("broken".to_string()),
        Err("worse".to_string()),
    ]);
    let loaded = load_workflow_entries(Ok(vec![config(1, "a")]), "t", "/w", &listing);
    assert_eq!(loaded.err(), Some("broken".to_string()));
    assert_eq!(needs_reload("/w", &listing, &FileState::new()), Ok(true));
    let loaded = load_workflow_entries(Err("bad".to_string()), "t", "/w", &listing);
    assert_eq!(loaded.err(), Some("bad".to_string()));
    let unreadable = DirScan::Unreadable("gone".to_string());
    let loaded = load_workflow_entries(Ok(vec![]), "t", "/w", &unreadable);
    assert_eq!(loaded.err(), Some("gone".to_string()));
}

#[test]
fn workflows_are_loaded_with_their_files() {
    let listing = vec![
        entry("alpha.toml", Some(1)),
        entry("beta.toml", Some(2)),
        entry("readme.md", Some(3)),
        entry("gamma.toml", None),
    ];
    let (entries, state) = load(vec![config(1, "a"), config(2, "b")], listing);
    assert_eq!(entries.len(), 2);
    assert_eq!(entries[1].triggers.len(), 2);
    assert_eq!(entries[0].triggers[0].name(), "local_file");
    assert_eq!(entries[0].steps.len(), 1);
    assert_eq!(entries[1].steps[0].name, "b");
    assert_eq!(entries[0].repos[0].owner, "testowner");
    assert_eq!(state.get("/w/alpha.toml"), Some(1));
    assert_eq!(state.get("/w/beta.toml"), Some(2));
    assert_eq!(state.get("/w/readme.md"), None);
    assert_eq!(state.get("/w/gamma.toml"), None);
}

fn changed(now: Vec<DirEntry>, before: Vec<DirEntry>) -> bool {
    let before: Vec<Result<DirEntry, String>> = before.into_iter().map(Ok).collect();
    needs_reload("/w", &entries(now), &scan("/w", &before)).unwrap()
}

#[test]
fn changes_of_files_are_noticed() {
    let one = || vec![entry("a.toml", Some(1))];
    let two = || vec![entry("a.toml", Some(1)), entry("b.toml", Some(1))];
    assert!(!changed(one(), one()));
    assert!(!changed(two(), vec![entry("b.toml", Some(1)), entry("a.toml", Some(1))]));
    assert!(changed(two(), one()));
    assert!(changed(one(), two()));
    assert!(changed(one(), vec![entry("a.toml", Some(2))]));
    assert!(changed(one(), vec![entry("b.toml", Some(1))]));
    assert!(!changed(vec![entry("x.md", Some(9))], vec![]));
    let mut state = FileState::new();
    state.insert("p".to_string(), 1);
    state.insert("p".to_string(), 2);
    assert_eq!(state.get("p"), Some(2));
    assert!(state.differs(&FileState::new()));
}

#[test]
fn loading_again_is_decided_by_changes() {
    let loaded = || Ok(load(vec![config(1, "a")], vec![entry("a.toml", Some(1))]));
    match load_workflow_entries_if_changed(Ok(false), loaded()) {
        ReloadDecision::Unchanged => {}
        _ => panic!("expected no change"),
    }
    match load_workflow_entries_if_changed(Ok(true), loaded()) {
        ReloadDecision::Reload(entries, state) => {
            assert_eq!(entries.len(), 1);
            assert_eq!(state.get("/w/a.toml"), Some(1));
        }
        _ => panic!("expected new workflows"),
    }
    match load_workflow_entries_if_changed(Ok(true), Err("bad".to_string())) {
        ReloadDecision::Error(e) => assert_eq!(e, "bad"),
        _ => panic!("expected an error"),
    }
    match load_workflow_entries_if_changed(Err("gone".to_string()), loaded()) {
        ReloadDecision::Error(e) => assert_eq!(e, "gone"),
        _ => panic!("expected an error"),
    }
}

fn event(key: &str) -> TriggerEvent {
    TriggerEvent {
        owner: "local".to_string(),
        repo: "local".to_string(),
        key: format!("{}.md", key),
        label: format!("local:{}.md", key),
        workspace_id: key.to_string(),
        number: 0,
        variables: Vars::new(),
    }
}

fn poll_loop() -> PollLoop {
    let listing = vec![entry("a.toml", Some(1))];
    let configs = vec![config(2, "a"), config(0, "b"), config(1, "c")];
    run_poll_loop(Ok(load(configs, listing))).ok().unwrap()
}

#[test]
fn a_round_polls_every_trigger() {
    let mut poll = poll_loop();
    assert_eq!(poll.stage, PollStage::Waiting);
    poll.woke(false, false);
    assert_eq!(poll.stage, PollStage::Reloading);
    poll.reloaded(ReloadDecision::Unchanged);
    let mut polled = vec![];
    while poll.stage != PollStage::Waiting {
        match poll.stage {
            PollStage::Polling { entry, trigger } => {
                polled.push((entry, trigger));
                poll.polled(Ok(vec![]));
            }
            _ => panic!("unexpected stage"),
        }
    }
    assert_eq!(polled, vec![(0, 0), (0, 1), (2, 0)]);
}

#[test]
fn events_are_handed_to_the_dispatcher() {
    let mut poll = poll_loop();
    poll.woke(false, false);
    poll.reloaded(ReloadDecision::Error("bad file".to_string()));
    poll.polled(Err("offline".to_string()));
    assert_eq!(poll.stage, PollStage::Polling { entry: 0, trigger: 1 });
    poll.polled(Ok(vec![event("one"), event("two")]));
    let completed = KeySet::from_list(vec!["local/local/one.md".to_string()]);
    assert!(poll.message(&completed).is_none());
    poll.dispatched(false);
    let message = poll.message(&completed).unwrap();
    assert_eq!(message.event_key.workspace_id, "two");
    assert_eq!(message.event_key.number, 0);
    assert_eq!(message.event_key.label, "local:two.md");
    assert_eq!(message.steps[0].name, "a");
    assert_eq!(message.git_config.default_branch, "main");
    poll.dispatched(false);
    assert_eq!(poll.stage, PollStage::Polling { entry: 2, trigger: 0 });
    poll.polled(Ok(vec![event("three")]));
    poll.dispatched(true);
    assert_eq!(poll.stage, PollStage::Stopped);
}

#[test]
fn a_shutdown_stops_the_loop() {
    let mut poll = poll_loop();
    poll.woke(true, false);
    assert_eq!(poll.stage, PollStage::Stopped);
    let mut poll = poll_loop();
    poll.woke(false, true);
    assert_eq!(poll.stage, PollStage::Stopped);
    assert!(run_poll_loop(Err("none".to_string())).is_err());
}

#[test]
fn new_workflows_replace_the_old_ones() {
    let mut poll = poll_loop();
    poll.woke(false, false);
    let (entries, state) = load(vec![config(1, "new")], vec![entry("n.toml", Some(5))]);
    poll.reloaded(ReloadDecision::Reload(entries, state));
    assert_eq!(poll.entries.len(), 1);
    assert_eq!(poll.entries[0].steps[0].name, "new");
    assert_eq!(poll.file_state.get("/w/n.toml"), Some(5));
    assert_eq!(poll.stage, PollStage::Polling { entry: 0, trigger: 0 });
}

/// The step of the workflow that the first event of a round is run with.
fn step_in_use(poll: &mut PollLoop, decision: ReloadDecision) -> String {
    poll.woke(false, false);
    poll.reloaded(decision);
    poll.polled(Ok(vec![event("one")]));
    let message = poll.message(&KeySet::new()).unwrap();
    poll.dispatched(false);
    while poll.stage != PollStage::Waiting {
        poll.polled(Ok(vec![]));
    }
    message.steps[0].name.clone()
}

#[test]
fn the_last_valid_workflows_stay_in_use() {
    let mut poll = poll_loop();
    let bad = || ReloadDecision::Error("malformed".to_string());
    assert_eq!(step_in_use(&mut poll, ReloadDecision::Unchanged), "a");
    assert_eq!(step_in_use(&mut poll, bad()), "a");
    assert_eq!(step_in_use(&mut poll, bad()), "a");
    assert_eq!(poll.file_state.get("/w/a.toml"), Some(1));
    // The files still differ from those that were loaded.
    let listing = entries(vec![entry("n.toml", Some(5))]);
    assert_eq!(needs_reload("/w", &listing, &poll.file_state), Ok(true));
    let (workflows, state) = load(vec![config(1, "new")], vec![entry("n.toml", Some(5))]);
    assert_eq!(step_in_use(&mut poll, ReloadDecision::Reload(workflows, state)), "new");
    assert_eq!(needs_reload("/w", &listing, &poll.file_state), Ok(false));
    assert_eq!(step_in_use(&mut poll, bad()), "new");
}

#[test]
fn completed_events_are_loaded() {
    let completed = load_completed(Some("[\"a/b/1\", \"a/b/2\"]"));
    assert!(completed.contains("a/b/1"));
    assert!(!completed.contains("a/b/3"));
    assert!(load_completed(None).is_empty());
    assert!(load_completed(Some("oops")).is_empty());
}
