use agent_orchestrator::config::GitConfig;
use agent_orchestrator::harness::{HarnessConfig, Invocation};
use agent_orchestrator::hooks::{
    check_commits, check_file, check_push, check_script, run_hook, Hook, HookAction, ScriptOutcome,
};
use agent_orchestrator::process::Exit;
use agent_orchestrator::runner::{
    branch_name, run_step, run_workflow, run_workflow_at, sanitize_label, step_context, step_file,
    workspace_dir, worktree_dir_name, RunStage, WorkflowRun,
};
use agent_orchestrator::template::{render, Vars};
use agent_orchestrator::trigger::EventKey;
use agent_orchestrator::workflow::Step;

fn key(number: u64, workspace_id: &str, label: &str) -> EventKey {
    EventKey {
        owner: "acme".to_string(),
        repo: "project".to_string(),
        number,
        workspace_id: workspace_id.to_string(),
        label: label.to_string(),
        variables: Vars::new(),
    }
}

fn git(clone: bool, worktree: bool) -> GitConfig {
    GitConfig {
        default_branch: "main".to_string(),
        clone,
        worktree,
    }
}

#[test]
fn branch_name_sanitizes_slashes_and_hashes() {
    // Event labels like "acme/project#42" must become valid git branch names.
    let label = "acme/project#42";
    let sanitized = sanitize_label(label);
    assert!(!sanitized.contains('/'));
    assert!(!sanitized.contains('#'));
    assert_eq!(sanitized, "acme-project-42");
}

#[test]
fn branch_name_format_is_valid() {
    // Verify the branch name format "ao/<label>-<ts>" produces valid git branch names.
    let label = "owner-repo-42";
    let ts: i64 = 1746475200; // deterministic timestamp for test
    let branch = branch_name(label, ts);
    assert!(branch.starts_with("ao/"));
    assert_eq!(branch, "ao/owner-repo-42-1746475200");
    // Git branch names cannot contain spaces, control chars, or certain special chars.
    // The ao/ prefix and sanitized label + timestamp should be safe.
    assert!(!branch.contains(' '));
}

#[test]
fn step_filenames_replace_spaces_with_hyphens() {
    let workspace_dir = "/tmp/workspace";
    let step_name = "Address Review";
    let idx = 0;

    let log_path = step_file(workspace_dir, idx, step_name, ".log");
    let error_path = step_file(workspace_dir, idx, step_name, ".error");
    let prompt_path = step_file(workspace_dir, idx, step_name, ".prompt");

    assert_eq!(log_path, "/tmp/workspace/step_00_Address-Review.log");
    assert_eq!(error_path, "/tmp/workspace/step_00_Address-Review.error");
    assert_eq!(prompt_path, "/tmp/workspace/step_00_Address-Review.prompt");
}

#[test]
fn step_filenames_without_spaces_unchanged() {
    let log_path = step_file("/tmp/workspace", 0, "triage", ".log");
    assert_eq!(log_path, "/tmp/workspace/step_00_triage.log");
}

#[test]
fn step_filenames_multiple_spaces_replaced() {
    let log_path = step_file("/tmp/workspace", 1, "Fix Bug And Test", ".log");
    assert_eq!(log_path, "/tmp/workspace/step_01_Fix-Bug-And-Test.log");
}

#[test]
fn prompt_path_follows_step_naming_convention() {
    // Verify that prompt_path uses the same naming pattern as error_path and log_path.
    let prompt_path = step_file("/tmp/workspace", 0, "triage", ".prompt");
    assert_eq!(prompt_path, "/tmp/workspace/step_00_triage.prompt");
}

#[test]
fn render_with_template_vars_matches_prompt_file() {
    let mut vars = Vars::new();
    vars.insert("owner", "acme".to_string());
    vars.insert("repo", "project".to_string());
    vars.insert("issue_number", "42".to_string());

    let template = "Triage {{owner}}/{{repo}}#{{issue_number}}";
    assert_eq!(render(template, &vars), "Triage acme/project#42");
}

#[test]
fn workspace_dir_uses_workspace_id_for_issues() {
    // For issues, workspace_id is just the number string.
    let key = key(42, "42", "acme/project#42");
    assert_eq!(workspace_dir("/tmp/data", &key), "/tmp/data/acme/project/42");
}

#[test]
fn workspace_dir_uses_workspace_id_for_pr_reviews() {
    // For PR reviews, workspace_id includes the review ID for uniqueness.
    let mut first = key(99, "99_review-1234567", "acme/project#99_review-1234567");
    first.variables.insert("pr_number", "99".to_string());
    let dir = workspace_dir("/tmp/data", &first);
    // Each PR review gets its own discrete directory.
    assert_eq!(dir, "/tmp/data/acme/project/99_review-1234567");
    // Verify that two reviews on the same PR don't share a directory.
    let mut second = key(99, "99_review-7654321", "acme/project#99_review-7654321");
    second.variables.insert("pr_number", "99".to_string());
    let dir2 = workspace_dir("/tmp/data", &second);
    assert_ne!(dir, dir2);
}

#[test]
fn files_of_different_steps_differ() {
    let mut paths = vec![];
    for index in [0, 1, 10, 99, 100, 110] {
        for name in ["", "1_a", "a", "0_a"] {
            paths.push(step_file("/w", index, name, ".log"));
        }
    }
    for i in 0..paths.len() {
        for j in 0..i {
            assert_ne!(paths[i], paths[j]);
        }
    }
    assert_eq!(step_file("/w/", 100, "a b", ".error"), "/w/step_100_a-b.error");
}

#[test]
fn a_run_with_a_worktree_takes_place_in_it() {
    let mut event = key(42, "42", "acme/project#42");
    event.variables.insert("issue_number", "42".to_string());
    let plan = run_workflow_at(&event, "/data", true, &git(true, true), 1746475200);
    assert_eq!(plan.context.workspace_dir, "/data/acme/project/42");
    assert_eq!(plan.context.harness_work_dir, "/data/acme/project/42/worktree-42");
    assert_eq!(plan.repo_dir, Some("/data/acme/project/repo".to_string()));
    let worktree = plan.worktree.unwrap();
    assert_eq!(worktree.path, "/data/acme/project/42/worktree-42");
    assert_eq!(worktree.branch, "ao/acme-project-42-1746475200");
    assert_eq!(plan.context.key, "acme/project#42");
    assert!(plan.context.show_logs);
    let vars = &plan.context.vars;
    assert_eq!(vars.len(), 6);
    let get = |name: &str| vars.get(name).unwrap().as_str();
    assert_eq!(get("owner"), "acme");
    assert_eq!(get("repo"), "project");
    assert_eq!(get("default_branch"), "main");
    assert_eq!(get("output_path"), "/data/acme/project/42");
    assert_eq!(get("repo_path"), "/data/acme/project/repo");
    assert_eq!(get("issue_number"), "42");
    assert_eq!(worktree_dir_name(42), "worktree-42");
}

#[test]
fn a_run_without_a_worktree_takes_place_elsewhere() {
    let event = key(42, "42", "acme/project#42");
    let plan = run_workflow(&event, "/data", false, &git(true, false));
    assert_eq!(plan.context.harness_work_dir, "/data/acme/project/repo");
    assert!(plan.worktree.is_none());
    let plan = run_workflow(&event, "/data", false, &git(false, false));
    assert_eq!(plan.context.harness_work_dir, "/data/acme/project/42");
    assert_eq!(plan.repo_dir, None);
    assert_eq!(plan.context.vars.get("repo_path"), Some(&"".to_string()));
    let plan = run_workflow(&event, "/data", false, &git(true, true));
    assert!(plan.worktree.unwrap().branch.starts_with("ao/acme-project-42-"));
}

#[test]
fn trigger_variables_take_precedence() {
    let mut event = key(1, "1", "l");
    event.variables.insert("repo", "other".to_string());
    let plan = run_workflow(&event, "/data", false, &git(false, false));
    assert_eq!(plan.context.vars.get("repo"), Some(&"other".to_string()));
}

fn step(name: &str, pre: usize, post: usize) -> Step {
    Step {
        name: name.to_string(),
        prompt_template: "Work on {{owner}}/{{repo}} {{missing}}".to_string(),
        pre_hooks: (0..pre).map(|_| Hook::PushCode).collect(),
        post_hooks: (0..post).map(|_| Hook::PushCode).collect(),
        harness: HarnessConfig::Hermes {
            profile: "cto".to_string(),
            provider: None,
            model: None,
            max_turns: None,
        },
    }
}

#[test]
fn a_step_hands_its_prompt_to_its_harness() {
    let event = key(42, "42", "acme/project#42");
    let plan = run_workflow(&event, "/data", true, &git(false, false));
    let work = step("Fix It", 0, 0);
    let context = step_context(3, &work, &plan.context);
    assert_eq!(context.error_path, "/data/acme/project/42/step_03_Fix-It.error");
    assert_eq!(context.log_path, "/data/acme/project/42/step_03_Fix-It.log");
    assert_eq!(context.prompt_path, "/data/acme/project/42/step_03_Fix-It.prompt");
    assert_eq!(context.work_dir, "/data/acme/project/42");
    assert_eq!(context.key, "acme/project#42");
    let handed = run_step(&work, &context, &plan.context.vars);
    assert_eq!(handed.prompt, "Work on acme/project {{missing}}");
    assert_eq!(handed.harness, "hermes");
    match handed.invocation {
        Ok(Invocation::Hermes(args)) => {
            assert_eq!(args.prompt, handed.prompt);
            assert_eq!(args.log_file, context.log_path);
            assert_eq!(args.error_file, context.error_path);
            assert_eq!(args.work_dir, Some("/data/acme/project/42".to_string()));
            assert!(args.show_logs);
        }
        _ => panic!("expected the command line agent"),
    }
}

fn course(steps: &Vec<Step>, config: &GitConfig, outcome: fn(RunStage) -> Result<bool, String>) -> (Vec<RunStage>, Result<(), String>) {
    let event = key(42, "42", "acme/project#42");
    let plan = run_workflow_at(&event, "/data", false, config, 0);
    let mut run = WorkflowRun::start();
    let mut seen = vec![];
    while run.stage != RunStage::Done {
        seen.push(run.stage);
        let result = outcome(run.stage);
        run.next(steps, config, &plan, result);
    }
    (seen, run.result())
}

#[test]
fn the_operations_of_a_run_are_in_order() {
    let steps = vec![step("a", 2, 1), step("b", 0, 0)];
    let (seen, result) = course(&steps, &git(true, true), |stage| match stage {
        RunStage::CheckCommits => Ok(true),
        _ => Ok(false),
    });
    assert_eq!(
        seen,
        vec![
            RunStage::CreateWorkspace,
            RunStage::EnsureRepo,
            RunStage::CreateWorktree,
            RunStage::PreHook { step: 0, hook: 0 },
            RunStage::PreHook { step: 0, hook: 1 },
            RunStage::WritePrompt { step: 0 },
            RunStage::RunHarness { step: 0 },
            RunStage::PostHook { step: 0, hook: 0 },
            RunStage::WritePrompt { step: 1 },
            RunStage::RunHarness { step: 1 },
            RunStage::CheckChanges,
            RunStage::CheckCommits,
            RunStage::PushCommits,
            RunStage::RemoveWorktree,
        ]
    );
    assert_eq!(result, Ok(()));
}

#[test]
fn a_failed_harness_ends_the_steps_but_not_the_cleanup() {
    let steps = vec![step("a", 0, 1), step("b", 0, 0)];
    let (seen, result) = course(&steps, &git(true, true), |stage| match stage {
        RunStage::RunHarness { .. } => Err("hermes exited with code 1".to_string()),
        RunStage::RemoveWorktree => Err("cannot remove".to_string()),
        _ => Ok(false),
    });
    assert_eq!(
        seen[3..],
        [
            RunStage::WritePrompt { step: 0 },
            RunStage::RunHarness { step: 0 },
            RunStage::CheckChanges,
            RunStage::CheckCommits,
            RunStage::RemoveWorktree,
        ]
    );
    assert_eq!(result, Err("hermes exited with code 1".to_string()));
}

#[test]
fn a_failed_cleanup_fails_a_run_that_went_well() {
    let steps = vec![step("a", 0, 0)];
    let (_, result) = course(&steps, &git(true, true), |stage| match stage {
        RunStage::RemoveWorktree => Err("cannot remove".to_string()),
        _ => Ok(false),
    });
    assert_eq!(result, Err("cannot remove".to_string()));
}

#[test]
fn uncommitted_changes_leave_the_worktree() {
    let steps = vec![step("a", 0, 0)];
    let (seen, result) = course(&steps, &git(true, true), |stage| match stage {
        RunStage::CheckChanges => Ok(true),
        _ => Ok(false),
    });
    assert_eq!(seen.last(), Some(&RunStage::CheckChanges));
    assert_eq!(
        result,
        Err(
            "worktree has uncommitted changes — leaving worktree at /data/acme/project/42/worktree-42 for manual inspection"
                .to_string()
        )
    );
}

#[test]
fn a_failed_push_leaves_the_worktree() {
    let steps = vec![step("a", 0, 0)];
    let (seen, result) = course(&steps, &git(true, true), |stage| match stage {
        RunStage::CheckCommits => Ok(true),
        RunStage::PushCommits => Err("rejected".to_string()),
        _ => Ok(false),
    });
    assert_eq!(seen.last(), Some(&RunStage::PushCommits));
    assert_eq!(result, Err("rejected".to_string()));
}

#[test]
fn a_run_without_git_has_steps_only() {
    let steps = vec![step("a", 1, 0)];
    let (seen, result) = course(&steps, &git(false, false), |stage| match stage {
        RunStage::WritePrompt { .. } => Err("disk full".to_string()),
        _ => Ok(false),
    });
    assert_eq!(
        seen,
        vec![
            RunStage::CreateWorkspace,
            RunStage::PreHook { step: 0, hook: 0 },
            RunStage::WritePrompt { step: 0 },
        ]
    );
    assert_eq!(result, Err("failed to write prompt log: disk full".to_string()));
    let (seen, result) = course(&vec![], &git(true, false), |_| Ok(false));
    assert_eq!(seen, vec![RunStage::CreateWorkspace, RunStage::EnsureRepo]);
    assert_eq!(result, Ok(()));
}

#[test]
fn a_worktree_needs_a_clone() {
    let steps = vec![step("a", 0, 0)];
    let (seen, result) = course(&steps, &git(false, true), |_| Ok(false));
    assert_eq!(seen, vec![RunStage::CreateWorkspace]);
    assert_eq!(
        result,
        Err("git.worktree requires a repo (git.clone must be true)".to_string())
    );
    let (seen, result) = course(&steps, &git(true, true), |stage| match stage {
        RunStage::CreateWorktree => Err("failed to create worktree".to_string()),
        _ => Ok(false),
    });
    assert_eq!(seen.len(), 3);
    assert_eq!(result, Err("failed to create worktree".to_string()));
}

#[test]
fn hooks_resolve_their_placeholders() {
    let mut vars = Vars::new();
    vars.insert("output_path", "/tmp".to_string());
    let hook = Hook::FileNotEmpty {
        path: "{{output_path}}/x.md".to_string(),
    };
    match run_hook(&hook, &vars) {
        HookAction::MeasureFile { path } => assert_eq!(path, "/tmp/x.md"),
        _ => panic!("expected a file check"),
    }
    let hook = Hook::Script {
        command: "cargo".to_string(),
        args: vec!["clippy".to_string(), "{{output_path}}".to_string()],
    };
    match run_hook(&hook, &vars) {
        HookAction::RunProcess { command, args } => {
            assert_eq!(command, "cargo");
            assert_eq!(args, vec!["clippy", "/tmp"]);
        }
        _ => panic!("expected a process"),
    }
    match run_hook(&Hook::PushCode, &vars) {
        HookAction::FindCommits => {}
        _ => panic!("expected a search for commits"),
    }
}

/// Runs a file hook on a file of the given size.
fn file_verdict(hook: &Hook, vars: &Vars, size: Result<u64, String>) -> Result<(), String> {
    match run_hook(hook, vars) {
        HookAction::MeasureFile { path } => check_file(&path, size),
        _ => panic!("expected a file check"),
    }
}

#[test]
fn file_not_empty_succeeds_for_nonempty_file() {
    let hook = Hook::FileNotEmpty {
        path: "/tmp/file".to_string(),
    };
    let mut vars = Vars::new();
    vars.insert("output_path", "/tmp".to_string());
    assert!(file_verdict(&hook, &vars, Ok("content".len() as u64)).is_ok());
}

#[test]
fn file_not_empty_fails_for_missing_file() {
    let hook = Hook::FileNotEmpty {
        path: "/nonexistent/file.xyz".to_string(),
    };
    let missing = Err("No such file or directory (os error 2)".to_string());
    assert!(file_verdict(&hook, &Vars::new(), missing).is_err());
}

#[test]
fn file_not_empty_fails_for_empty_file() {
    let hook = Hook::FileNotEmpty {
        path: "/tmp/file".to_string(),
    };
    assert!(file_verdict(&hook, &Vars::new(), Ok(0)).is_err());
}

#[test]
fn file_hooks_want_content() {
    assert_eq!(check_file("/tmp/x", Ok(1)), Ok(()));
    assert_eq!(
        check_file("/tmp/x", Ok(0)),
        Err("hook FileNotEmpty: file is empty: /tmp/x".to_string())
    );
    assert_eq!(
        check_file("/nonexistent/file.xyz", Err("No such file".to_string())),
        Err("hook FileNotEmpty: file missing (/nonexistent/file.xyz): No such file".to_string())
    );
}

#[test]
fn script_hooks_want_success() {
    let ended = |success: bool, code: Option<i32>| ScriptOutcome::Ended(Exit { success, code });
    assert_eq!(check_script("cargo", ended(true, Some(0))), Ok(()));
    assert_eq!(
        check_script("cargo", ended(false, Some(101))),
        Err("hook Script: `cargo` exited with code 101".to_string())
    );
    assert_eq!(
        check_script("cargo", ended(false, None)),
        Err("hook Script: `cargo` exited with code -1".to_string())
    );
    assert_eq!(
        check_script("cargo", ScriptOutcome::NotStarted("not found".to_string())),
        Err("hook Script: failed to spawn `cargo`: not found".to_string())
    );
    assert_eq!(
        check_script("cargo", ScriptOutcome::Lost("lost".to_string())),
        Err("lost".to_string())
    );
}

#[test]
fn push_hooks_want_new_commits() {
    assert_eq!(check_commits(Ok(true)), Ok(()));
    assert_eq!(
        check_commits(Ok(false)),
        Err("hook PushCode: no new commits to push".to_string())
    );
    assert_eq!(
        check_commits(Err("broken".to_string())),
        Err("hook PushCode: broken".to_string())
    );
    assert_eq!(check_push(Ok(())), Ok(()));
    assert_eq!(
        check_push(Err("rejected".to_string())),
        Err("hook PushCode: push failed: rejected".to_string())
    );
}
