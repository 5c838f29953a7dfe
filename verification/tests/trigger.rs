use agent_orchestrator::config::RepoConfig;
use agent_orchestrator::github::{Issue, PrReview};
use agent_orchestrator::template::Vars;
use agent_orchestrator::trigger::{
    default_glob, GithubIssueAssignedTrigger, GithubPrReviewTrigger, LocalEntry, LocalFileTrigger,
    LocalListing, Query, Reply, Trigger, TriggerConfig, TriggerEvent,
};

fn vars(pairs: &[(&str, &str)]) -> Vars {
    let mut vars = Vars::new();
    for (key, value) in pairs {
        vars.insert(key, value.to_string());
    }
    vars
}

#[test]
fn build_github_issue_assigned() {
    let config = TriggerConfig::GithubIssueAssigned {
        assigned_to: "test".to_string(),
        allowed_users: vec!["test".to_string()],
    };
    let trigger = config.build("fake-token");
    assert_eq!(trigger.name(), "github_issue_assigned");
}

#[test]
fn build_github_pr_review() {
    let config = TriggerConfig::GithubPrReview {
        allowed_users: vec!["test".to_string()],
    };
    let trigger = config.build("fake-token");
    assert_eq!(trigger.name(), "github_pr_review");
}

#[test]
fn build_local_file() {
    let config = TriggerConfig::LocalFile {
        path: "/tmp/test".to_string(),
        pattern: "*.txt".to_string(),
    };
    let trigger = config.build(""); // No token needed for local trigger
    assert_eq!(trigger.name(), "local_file");
}

#[test]
fn trigger_event_issue_carries_issue_number_variable() {
    let event = TriggerEvent {
        owner: "acme".to_string(),
        repo: "project".to_string(),
        key: "42".to_string(),
        label: "acme/project#42".to_string(),
        workspace_id: "42".to_string(),
        number: 42,
        variables: vars(&[("issue_number", "42")]),
    };
    assert_eq!(event.variables.get("issue_number"), Some(&"42".to_string()));
    assert_eq!(event.variables.get("pr_number"), None);
    assert_eq!(event.workspace_id, "42");
    assert_eq!(event.number, 42);
}

#[test]
fn trigger_event_pr_carries_pr_number_variable() {
    let event = TriggerEvent {
        owner: "acme".to_string(),
        repo: "project".to_string(),
        key: "99/1234567".to_string(),
        label: "acme/project#99_review-1234567".to_string(),
        workspace_id: "99_review-1234567".to_string(),
        number: 99,
        variables: vars(&[("pr_number", "99"), ("review_id", "1234567")]),
    };
    assert_eq!(event.variables.get("pr_number"), Some(&"99".to_string()));
    assert_eq!(
        event.variables.get("review_id"),
        Some(&"1234567".to_string())
    );
    assert_eq!(event.variables.get("issue_number"), None);
    assert_eq!(event.key, "99/1234567");
    assert_eq!(event.label, "acme/project#99_review-1234567");
    assert_eq!(event.workspace_id, "99_review-1234567");
    assert_eq!(event.number, 99);
}

#[test]
fn trigger_event_cron_style_has_no_numeric_id() {
    // Simulate a cron-style event: no numeric ID, custom workspace_id.
    let event = TriggerEvent {
        owner: "local".to_string(),
        repo: "local".to_string(),
        key: "nightly-build".to_string(),
        label: "cron:nightly-build".to_string(),
        workspace_id: "nightly-build".to_string(),
        number: 0,
        variables: vars(&[("schedule", "0 0 * * *")]),
    };
    assert_eq!(event.number, 0);
    assert_eq!(event.workspace_id, "nightly-build");
}

#[test]
fn trigger_event_file_style_has_filename() {
    // Simulate a local-file event.
    let event = TriggerEvent {
        owner: "local".to_string(),
        repo: "local".to_string(),
        key: "todo.md".to_string(),
        label: "local:todo.md".to_string(),
        workspace_id: "todo".to_string(),
        number: 0,
        variables: vars(&[("file_name", "todo.md"), ("file_path", "/tmp/watch/todo.md")]),
    };
    assert_eq!(event.number, 0);
    assert_eq!(
        event.variables.get("file_name"),
        Some(&"todo.md".to_string())
    );
}

#[test]
fn trigger_event_to_event_key_maps_fields() {
    let event = TriggerEvent {
        owner: "acme".to_string(),
        repo: "project".to_string(),
        key: "42".to_string(),
        label: "acme/project#42".to_string(),
        workspace_id: "42".to_string(),
        number: 42,
        variables: vars(&[("issue_number", "42")]),
    };
    let ek = event.to_event_key();
    assert_eq!(ek.owner, "acme");
    assert_eq!(ek.repo, "project");
    assert_eq!(ek.number, 42);
    assert_eq!(ek.workspace_id, "42");
    assert_eq!(ek.label, "acme/project#42");
    assert_eq!(ek.variables.get("issue_number"), Some(&"42".to_string()));
    assert_eq!(ek.to_string(), "acme/project#42");
}

#[test]
fn trigger_event_to_event_key_for_pr_review() {
    let event = TriggerEvent {
        owner: "acme".to_string(),
        repo: "project".to_string(),
        key: "99/1234567".to_string(),
        label: "acme/project#99_review-1234567".to_string(),
        workspace_id: "99_review-1234567".to_string(),
        number: 99,
        variables: vars(&[("pr_number", "99"), ("review_id", "1234567")]),
    };
    let ek = event.to_event_key();
    assert_eq!(ek.number, 99);
    assert_eq!(ek.workspace_id, "99_review-1234567");
    assert_eq!(ek.variables.get("review_id"), Some(&"1234567".to_string()));
}

fn repo(owner: &str, name: &str) -> RepoConfig {
    RepoConfig {
        owner: owner.to_string(),
        repo: name.to_string(),
    }
}

fn issues(numbers: &[u64]) -> Reply {
    Reply::Issues(Ok(numbers.iter().map(|n| Issue { number: *n }).collect()))
}

fn strings(list: &[&str]) -> Vec<String> {
    list.iter().map(|s| s.to_string()).collect()
}

#[test]
fn issues_are_asked_for_by_repository_and_user() {
    let trigger = GithubIssueAssignedTrigger {
        assigned_to: "bot".to_string(),
        allowed_users: strings(&["alice", "bob"]),
        token: "t".to_string(),
    };
    let repos = vec![repo("acme", "one"), repo("acme", "two")];
    let asked: Vec<String> = trigger
        .poll(&repos)
        .into_iter()
        .map(|q| match q {
            Query::AssignedIssues { owner, repo, assigned_to, creator } => {
                format!("{}/{} {} {}", owner, repo, assigned_to, creator)
            }
            _ => panic!("unexpected question"),
        })
        .collect();
    assert_eq!(
        asked,
        vec![
            "acme/one bot alice",
            "acme/one bot bob",
            "acme/two bot alice",
            "acme/two bot bob",
        ]
    );
}

#[test]
fn each_issue_is_found_once() {
    let trigger = GithubIssueAssignedTrigger {
        assigned_to: "bot".to_string(),
        allowed_users: strings(&["alice", "bob"]),
        token: "t".to_string(),
    };
    let repos = vec![repo("acme", "one"), repo("acme", "two")];
    let replies = vec![
        issues(&[3, 1, 3]),
        issues(&[1, 2]),
        Reply::Issues(Err("offline".to_string())),
        issues(&[3]),
    ];
    let events = trigger.events(&repos, &replies).ok().unwrap();
    let labels: Vec<&str> = events.iter().map(|e| e.label.as_str()).collect();
    assert_eq!(labels, vec!["acme/one#3", "acme/one#1", "acme/one#2", "acme/two#3"]);
    assert_eq!(events[0].key, "3");
    assert_eq!(events[0].workspace_id, "3");
    assert_eq!(events[0].number, 3);
    assert_eq!(events[0].variables.get("issue_number"), Some(&"3".to_string()));
    assert_eq!(events[0].clone().label, "acme/one#3");
}

fn review(id: u64, pr_number: u64, user: &str) -> PrReview {
    PrReview {
        id,
        pr_number,
        user: user.to_string(),
    }
}

#[test]
fn reviews_by_allowed_users_are_found_once() {
    let config = TriggerConfig::GithubPrReview {
        allowed_users: strings(&["alice"]),
    };
    let trigger = config.build("t");
    let repos = vec![repo("acme", "one"), repo("acme", "two")];
    assert_eq!(trigger.poll(&repos).len(), 2);
    let replies = vec![
        Reply::Reviews(Ok(vec![
            review(10, 99, "alice"),
            review(11, 99, "mallory"),
            review(10, 99, "alice"),
            review(12, 98, "alice"),
        ])),
        Reply::Reviews(Err("offline".to_string())),
    ];
    let events = trigger.events(&repos, &replies).ok().unwrap();
    assert_eq!(events.len(), 2);
    assert_eq!(events[0].key, "99/10");
    assert_eq!(events[0].label, "acme/one#99_review-10");
    assert_eq!(events[0].workspace_id, "99_review-10");
    assert_eq!(events[0].number, 99);
    assert_eq!(events[0].variables.get("pr_number"), Some(&"99".to_string()));
    assert_eq!(events[0].variables.get("review_id"), Some(&"10".to_string()));
    assert_eq!(events[1].key, "98/12");
    let direct = GithubPrReviewTrigger {
        allowed_users: vec![],
        token: "t".to_string(),
    };
    assert_eq!(direct.events(&repos, &replies).ok().unwrap().len(), 0);
}

fn file(name: &str) -> Result<LocalEntry, String> {
    Ok(LocalEntry {
        path: format!("/watch/{}", name),
        file_name: Some(name.to_string()),
        is_file: true,
    })
}

fn local(pattern: &str) -> LocalFileTrigger {
    LocalFileTrigger {
        directory: "/watch".to_string(),
        pattern: pattern.to_string(),
    }
}

#[test]
fn workspaces_of_events_differ() {
    let repos = vec![repo("acme", "one")];
    let trigger = TriggerConfig::GithubPrReview {
        allowed_users: strings(&["alice"]),
    }
    .build("t");
    let reviews = vec![review(1, 11, "alice"), review(11, 1, "alice"), review(111, 1, "alice")];
    let mut ids: Vec<String> = trigger
        .events(&repos, &vec![Reply::Reviews(Ok(reviews))])
        .ok()
        .unwrap()
        .into_iter()
        .map(|e| e.workspace_id)
        .collect();
    let trigger = TriggerConfig::GithubIssueAssigned {
        assigned_to: "bot".to_string(),
        allowed_users: strings(&["alice"]),
    }
    .build("t");
    for event in trigger.events(&repos, &vec![issues(&[1, 11, 111])]).ok().unwrap() {
        ids.push(event.workspace_id);
    }
    assert_eq!(ids, vec!["11_review-1", "1_review-11", "1_review-111", "1", "11", "111"]);
}

#[test]
fn local_file_trigger_poll_discovers_files() {
    let trigger = LocalFileTrigger {
        directory: "/watch".to_string(),
        pattern: "*.md".to_string(),
    };
    match &trigger.poll(&vec![])[0] {
        Query::Directory { path } => assert_eq!(path, "/watch"),
        _ => panic!("expected a directory"),
    }
    let listing = LocalListing::Entries(vec![file("task1.md"), file("task2.txt"), file("ignore.py")]);
    let events = trigger
        .events(&vec![], &vec![Reply::Directory(listing)])
        .ok()
        .unwrap();
    assert_eq!(events.len(), 1);
    assert_eq!(events[0].key, "task1.md");
    assert_eq!(events[0].workspace_id, "task1");
    assert_eq!(events[0].number, 0);
    assert_eq!(events[0].owner, "local");
    assert_eq!(
        events[0].variables.get("file_name"),
        Some(&"task1.md".to_string())
    );
}

#[test]
fn local_file_trigger_poll_handles_missing_dir() {
    let trigger = LocalFileTrigger {
        directory: "/nonexistent/path".to_string(),
        pattern: "*".to_string(),
    };
    let events = trigger
        .events(&vec![], &vec![Reply::Directory(LocalListing::Missing)])
        .ok()
        .unwrap();
    assert!(events.is_empty());
}

#[test]
fn local_files_are_matched_by_pattern() {
    let listing = LocalListing::Entries(vec![
        file("task1.md"),
        file("task2.txt"),
        Ok(LocalEntry {
            path: "/watch/dir.md".to_string(),
            file_name: Some("dir.md".to_string()),
            is_file: false,
        }),
        Ok(LocalEntry {
            path: "/watch/odd".to_string(),
            file_name: None,
            is_file: true,
        }),
        file(".hidden.md"),
    ]);
    let events = local("*.md").directory_events(&listing).ok().unwrap();
    assert_eq!(events.len(), 2);
    assert_eq!(events[0].key, "task1.md");
    assert_eq!(events[0].workspace_id, "task1");
    assert_eq!(events[0].number, 0);
    assert_eq!(events[0].owner, "local");
    assert_eq!(events[0].repo, "local");
    assert_eq!(events[0].label, "local:task1.md");
    assert_eq!(
        events[0].variables.get("file_name"),
        Some(&"task1.md".to_string())
    );
    assert_eq!(
        events[0].variables.get("file_path"),
        Some(&"/watch/task1.md".to_string())
    );
    assert_eq!(events[1].workspace_id, ".hidden");
    let all = local(&default_glob()).directory_events(&listing).ok().unwrap();
    assert_eq!(all.len(), 3);
}

#[test]
fn events_follow_what_the_pattern_accepts() {
    let listing = LocalListing::Entries(vec![
        file("a"),
        file("b"),
        Ok(LocalEntry {
            path: "/watch/d".to_string(),
            file_name: Some("d".to_string()),
            is_file: false,
        }),
        file("c"),
    ]);
    let trigger = local("*");
    let events = trigger
        .events_of(&listing, None, &vec![true, false, true, true])
        .ok()
        .unwrap();
    let keys: Vec<&str> = events.iter().map(|e| e.key.as_str()).collect();
    assert_eq!(keys, vec!["a", "c"]);
    assert_eq!(
        trigger.events_of(&listing, Some("bad".to_string()), &vec![]).err(),
        Some("invalid glob pattern '*': bad".to_string())
    );
    assert!(trigger
        .events_of(&LocalListing::Missing, Some("bad".to_string()), &vec![])
        .ok()
        .unwrap()
        .is_empty());
}

#[test]
fn a_missing_directory_has_no_events() {
    let events = local("[").directory_events(&LocalListing::Missing).ok().unwrap();
    assert!(events.is_empty());
}

#[test]
fn local_failures_are_reported() {
    let unreadable = LocalListing::Unreadable("denied".to_string());
    assert_eq!(
        local("*").directory_events(&unreadable).err(),
        Some("denied".to_string())
    );
    let listing = LocalListing::Entries(vec![file("a"), Err("broken".to_string()), file("b")]);
    assert_eq!(
        local("*").directory_events(&listing).err(),
        Some("broken".to_string())
    );
    let complaint = local("a[").directory_events(&listing).err().unwrap();
    assert!(complaint.starts_with("invalid glob pattern 'a[': Pattern syntax error near position 1"));
    let replies = vec![Reply::Directory(LocalListing::Entries(vec![file("a.txt")]))];
    let trigger = local("*.txt");
    assert_eq!(trigger.poll(&vec![]).len(), 1);
    assert_eq!(trigger.events(&vec![], &replies).ok().unwrap().len(), 1);
}
