use agent_orchestrator::git::{
    branch_ref, clone_failure, clone_url, create_worktree, credential_user, ensure_repo,
    has_uncommitted_changes, is_repo_empty, push_refspec, remote_ref, remove_worktree, repo_path,
    scrub_credentials, worktree_name, CreateStage, HeadState, PullStage, RemoveStage, RepoAction,
    SeedStage, WorkStatus,
};

#[test]
fn public_url_format() {
    let url = clone_url("zerokrab", "bento-hancho");
    assert_eq!(url, "https://github.com/zerokrab/bento-hancho.git");
}

#[test]
fn repo_path_is_under_owner_repo() {
    let data_root = "/tmp/test-data";
    let path = repo_path(data_root, "zerokrab", "bento-hancho");
    assert!(std::path::Path::new(&path).starts_with(data_root));
    assert!(path.contains("repo"));
    assert_eq!(path, "/tmp/test-data/zerokrab/bento-hancho/repo");
}

#[test]
fn scrub_credentials_masks_github_tokens() {
    let input = "Authentication failed for ghp_ABC123xyz token";
    let output = scrub_credentials(input);
    assert_eq!(output, "Authentication failed for ghp_*** token");
}

#[test]
fn scrub_credentials_masks_github_pat() {
    let input = "Auth failed for github_pat_ABC123xyz";
    let output = scrub_credentials(input);
    assert_eq!(output, "Auth failed for github_pat_***");
}

#[test]
fn scrub_credentials_preserves_non_token_text() {
    let input = "fatal: repository not found";
    assert_eq!(scrub_credentials(input), input);
}

#[test]
fn parse_owner_repo_from_url() {
    let url = clone_url("zerokrab", "bento-hancho");
    assert_eq!(url, "https://github.com/zerokrab/bento-hancho.git");
    let path = url
        .rsplit_once("github.com/")
        .map(|(_, p)| p.trim_end_matches(".git"))
        .unwrap_or(&url);
    let parts: Vec<&str> = path.splitn(2, '/').collect();
    assert_eq!(parts[0], "zerokrab");
    assert_eq!(parts[1], "bento-hancho");
}

#[test]
fn scrubbing_edge_cases() {
    assert_eq!(scrub_credentials("ghp_"), "ghp_");
    assert_eq!(scrub_credentials("ghp_ ghp_a"), "ghp_ ghp_***");
    assert_eq!(scrub_credentials("gho_1-2_3.ghs_x"), "gho_***.ghs_***");
    assert_eq!(scrub_credentials("xghp_aghp_b"), "xghp_***");
    assert_eq!(scrub_credentials("ghp_\u{e4}"), "ghp_\u{e4}");
    assert_eq!(scrub_credentials("GHP_abc"), "GHP_abc");
    assert_eq!(scrub_credentials("gghp_a"), "gghp_***");
    assert_eq!(scrub_credentials("github_pat_"), "github_pat_");
    let twice = scrub_credentials(&scrub_credentials("a ghp_b c gho_d"));
    assert_eq!(twice, "a ghp_*** c gho_***");
}

#[test]
fn references_and_credentials() {
    assert_eq!(branch_ref("main"), "refs/heads/main");
    assert_eq!(remote_ref("main"), "refs/remotes/origin/main");
    assert_eq!(push_refspec("dev"), "refs/heads/dev:refs/heads/dev");
    assert_eq!(worktree_name("ao/acme/x-1"), "ao-acme-x-1");
    assert_eq!(credential_user(Some("me")), "me");
    assert_eq!(credential_user(None), "x-access-token");
    assert_eq!(
        clone_failure("acme", "project", "bad token ghp_secret"),
        "git clone failed for acme/project: bad token ghp_***"
    );
}

#[test]
fn an_existing_clone_is_pulled_and_a_missing_one_cloned() {
    let plan = ensure_repo("/data", "acme", "project", "main", true);
    assert_eq!(plan.path, "/data/acme/project/repo");
    match plan.action {
        RepoAction::Pull { branch } => assert_eq!(branch, "main"),
        RepoAction::Clone { .. } => panic!("expected a pull"),
    }
    let plan = ensure_repo("/data", "acme", "project", "main", false);
    match plan.action {
        RepoAction::Clone { url } => assert_eq!(url, "https://github.com/acme/project.git"),
        RepoAction::Pull { .. } => panic!("expected a clone"),
    }
}

#[test]
fn a_pull_goes_through_its_stages() {
    let mut stage = PullStage::start();
    let mut seen = vec![stage];
    while stage != PullStage::Complete && stage != PullStage::GaveUp {
        stage = stage.next(true);
        seen.push(stage);
    }
    assert_eq!(
        seen,
        vec![
            PullStage::OpenRepo,
            PullStage::FindOrigin,
            PullStage::Fetch,
            PullStage::FindFetchHead,
            PullStage::FetchHeadTarget,
            PullStage::FindCommit,
            PullStage::FindLocalBranch,
            PullStage::FastForward,
            PullStage::SetHead,
            PullStage::CheckoutHead,
            PullStage::Complete,
        ]
    );
    assert_eq!(PullStage::FindLocalBranch.next(false), PullStage::CreateBranch);
    assert_eq!(PullStage::CreateBranch.next(true), PullStage::Complete);
    assert_eq!(PullStage::Fetch.next(false), PullStage::GaveUp);
    assert_eq!(PullStage::GaveUp.next(true), PullStage::GaveUp);
    assert_eq!(PullStage::Fetch.logged_cause("ghp_x"), "ghp_***");
    assert_eq!(PullStage::OpenRepo.logged_cause("ghp_x"), "ghp_x");
}

#[test]
fn a_repository_is_empty_without_a_commit() {
    assert!(is_repo_empty(None));
    assert!(is_repo_empty(Some(None)));
    let no_target = HeadState { has_target: false, leads_to_commit: true };
    let no_commit = HeadState { has_target: true, leads_to_commit: false };
    let both = HeadState { has_target: true, leads_to_commit: true };
    assert!(is_repo_empty(Some(Some(no_target))));
    assert!(is_repo_empty(Some(Some(no_commit))));
    assert!(!is_repo_empty(Some(Some(both))));
}

#[test]
fn is_repo_empty_detects_empty_repo() {
    // A fresh repository has a head that leads nowhere.
    assert!(is_repo_empty(Some(None)));
}

#[test]
fn is_repo_empty_returns_false_for_nonempty_repo() {
    let head = HeadState { has_target: true, leads_to_commit: true };
    assert!(!is_repo_empty(Some(Some(head))));
}

/// Creates a worktree, where a repository without commits is given one. Says
/// which operations were carried out.
fn create(has_commits: bool) -> Result<Vec<CreateStage>, String> {
    let branch = "ao/test-worktree-1";
    let mut stage = create_worktree();
    let mut seen = vec![];
    while stage != CreateStage::Created {
        seen.push(stage);
        let outcome = if stage == CreateStage::CheckCommits && !has_commits {
            Err("no commits".to_string())
        } else {
            Ok(())
        };
        stage = stage.next("main", branch, outcome)?;
    }
    Ok(seen)
}

#[test]
fn create_worktree_succeeds_on_empty_repo() {
    let result = create(false);
    assert!(
        result.is_ok(),
        "create_worktree failed on empty repo: {:?}",
        result.err()
    );
    assert!(result.unwrap().contains(&CreateStage::Seed));
}

#[test]
fn create_worktree_succeeds_on_nonempty_repo() {
    let result = create(true);
    assert!(
        result.is_ok(),
        "create_worktree failed on non-empty repo: {:?}",
        result.err()
    );
    assert!(!result.unwrap().contains(&CreateStage::Seed));
}

#[test]
fn has_uncommitted_changes_detects_new_file() {
    // One untracked file.
    assert!(has_uncommitted_changes(WorkStatus::Entries(1)).unwrap());
}

#[test]
fn has_uncommitted_changes_returns_false_when_clean() {
    assert!(!has_uncommitted_changes(WorkStatus::Entries(0)).unwrap());
}

#[test]
fn has_uncommitted_changes_detects_modified_file() {
    // One tracked file that differs from the last commit.
    assert!(has_uncommitted_changes(WorkStatus::Entries(1)).unwrap());
}

#[test]
fn seeding_creates_a_missing_branch() {
    assert_eq!(SeedStage::FindBranch.next(Ok(())), Ok(SeedStage::Push));
    assert_eq!(
        SeedStage::FindBranch.next(Err("none".to_string())),
        Ok(SeedStage::CreateBranch)
    );
    assert_eq!(SeedStage::CreateBranch.next(Ok(())), Ok(SeedStage::SetHead));
    assert_eq!(SeedStage::Push.next(Err("offline".to_string())), Ok(SeedStage::Seeded));
    assert_eq!(
        SeedStage::OpenRepo.next(Err("x".to_string())),
        Err("failed to open repository for initial commit".to_string())
    );
    assert_eq!(
        SeedStage::MakeSignature.next(Err("x".to_string())),
        Err("failed to create git signature for initial commit".to_string())
    );
    assert_eq!(SeedStage::Commit.next(Err("x".to_string())), Err("x".to_string()));
}

fn failed() -> Result<(), String> {
    Err("cause".to_string())
}

#[test]
fn a_worktree_is_created_in_stages() {
    let (base, branch) = ("main", "ao/x-1");
    let mut stage = create_worktree();
    let mut count = 0;
    while stage != CreateStage::Created {
        stage = stage.next(base, branch, Ok(())).unwrap();
        count += 1;
    }
    assert_eq!(count, 8);
    assert_eq!(
        CreateStage::CheckCommits.next(base, branch, failed()),
        Ok(CreateStage::Seed)
    );
    assert_eq!(
        CreateStage::FindLocalBase.next(base, branch, failed()),
        Ok(CreateStage::FindRemoteBase)
    );
    let message = |stage: CreateStage| stage.next(base, branch, failed()).unwrap_err();
    assert_eq!(
        message(CreateStage::OpenRepo),
        "failed to open repository for worktree creation"
    );
    assert_eq!(
        message(CreateStage::FindRemoteBase),
        "failed to find base reference 'main'"
    );
    assert_eq!(
        message(CreateStage::PeelBase),
        "failed to peel base reference 'main' to commit"
    );
    assert_eq!(
        message(CreateStage::CreateBranch),
        "failed to create branch 'ao/x-1' (may already exist)"
    );
    assert_eq!(
        message(CreateStage::FindBranch),
        "failed to find newly created branch reference 'ao/x-1'"
    );
    assert_eq!(message(CreateStage::AddWorktree), "failed to create worktree");
    assert_eq!(message(CreateStage::Seed), "cause");
}

#[test]
fn a_worktree_is_removed_in_stages() {
    let mut stage = remove_worktree();
    let mut seen = vec![stage];
    while stage != RemoveStage::Removed {
        stage = stage.next("ao/x-1", true).unwrap();
        seen.push(stage);
    }
    assert_eq!(seen.len(), 8);
    assert_eq!(RemoveStage::FindBranch.next("b", false), Ok(RemoveStage::CheckPath));
    assert_eq!(RemoveStage::CheckPath.next("b", false), Ok(RemoveStage::Removed));
    assert_eq!(
        RemoveStage::OpenRepo.next("b", false),
        Err("failed to open repository for worktree removal".to_string())
    );
    assert_eq!(
        RemoveStage::FindWorktree.next("b", false),
        Err("failed to find worktree for branch 'b'".to_string())
    );
    assert_eq!(
        RemoveStage::Prune.next("b", false),
        Err("git worktree prune failed".to_string())
    );
}

#[test]
fn changes_are_found_by_their_number() {
    assert_eq!(has_uncommitted_changes(WorkStatus::Entries(0)), Ok(false));
    assert_eq!(has_uncommitted_changes(WorkStatus::Entries(2)), Ok(true));
    assert_eq!(
        has_uncommitted_changes(WorkStatus::NotOpened),
        Err("failed to open repository to check for uncommitted changes".to_string())
    );
    assert_eq!(
        has_uncommitted_changes(WorkStatus::Unknown),
        Err("failed to get repository status".to_string())
    );
}
