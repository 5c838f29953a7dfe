use agent_orchestrator::config::{
    check_value, default_branch, default_true, Cli, Config, ConfigSource, DirListing, GitConfig,
    RepoConfig, ValueKind,
};
use agent_orchestrator::harness::HarnessConfig;
use agent_orchestrator::trigger::TriggerConfig;
use agent_orchestrator::workflow::Step;

fn parse(words: &[&str]) -> Cli {
    let words: Vec<String> = words.iter().map(|w| w.to_string()).collect();
    match Cli::try_parse_from(&words) {
        Ok(cli) => cli,
        Err(e) => panic!("{}", e.text),
    }
}

#[test]
fn default_data_dir_is_none_when_not_provided() {
    let cli = parse(&["agent-orchestrator", "--workflows", "."]);
    assert!(
        cli.data_dir.is_none(),
        "expected None when --data-dir not provided, got: {:?}",
        cli.data_dir
    );
}

#[test]
fn custom_data_dir_is_respected() {
    let cli = parse(&[
        "agent-orchestrator",
        "--workflows",
        ".",
        "--data-dir",
        "/tmp/my-data",
    ]);
    assert_eq!(cli.data_dir.unwrap(), "/tmp/my-data");
}

#[test]
fn limit_defaults_to_zero() {
    let cli = parse(&["agent-orchestrator", "--workflows", "."]);
    assert_eq!(cli.limit, 0, "default limit should be 0 (unlimited)");
}

#[test]
fn explicit_limit_is_respected() {
    let cli = parse(&["agent-orchestrator", "--workflows", ".", "--limit", "4"]);
    assert_eq!(cli.limit, 4);
}

#[test]
fn interval_defaults_to_60() {
    let cli = parse(&["agent-orchestrator", "--workflows", "."]);
    assert_eq!(cli.interval, 60, "default interval should be 60 seconds");
}

#[test]
fn explicit_interval_is_respected() {
    let cli = parse(&["agent-orchestrator", "--workflows", ".", "--interval", "30"]);
    assert_eq!(cli.interval, 30);
}

#[test]
fn all_options_have_defaults() {
    let cli = parse(&["agent-orchestrator"]);
    assert_eq!(cli.workflows, ".");
    assert_eq!(cli.limit, 0);
    assert_eq!(cli.interval, 60);
    assert_eq!(cli.data_dir, None);
    assert!(!cli.show_logs);
}

#[test]
fn options_are_taken_in_any_order() {
    let cli = parse(&["ao", "--show-logs", "--interval=5", "--workflows", "/w", "--limit=+7"]);
    assert_eq!(cli.workflows, "/w");
    assert_eq!(cli.limit, 7);
    assert_eq!(cli.interval, 5);
    assert!(cli.show_logs);
}

#[test]
fn bad_command_lines_are_refused() {
    for words in [
        vec!["ao", "--limit", "many"],
        vec!["ao", "--limit", "-1"],
        vec!["ao", "--interval"],
        vec!["ao", "--workflows="],
        vec!["ao", "--unknown"],
        vec!["ao", "--show-logs=yes"],
        vec!["ao", "stray"],
        vec!["ao", "--limit", "1", "--limit", "2"],
    ] {
        let words: Vec<String> = words.iter().map(|w| w.to_string()).collect();
        match Cli::try_parse_from(&words) {
            Ok(_) => panic!("{:?} should be refused", words),
            Err(e) => {
                assert_eq!(e.exit_code, 2);
                assert!(e.to_stderr);
                assert!(e.text.starts_with("error: "), "{}", e.text);
            }
        }
    }
}

#[test]
fn an_empty_path_is_a_missing_value() {
    for (flag, option) in [("--workflows", "--workflows <WORKFLOWS>"), ("--data-dir", "--data-dir <DIR>")] {
        let words = vec!["ao".to_string(), flag.to_string(), "".to_string()];
        let command = clap::Command::new("agent-orchestrator").arg(
            clap::Arg::new("path")
                .long(&flag[2..])
                .value_name(&option[flag.len() + 2..option.len() - 1])
                .value_parser(clap::builder::PathBufValueParser::new()),
        );
        let expected = command.try_get_matches_from(&words).unwrap_err().to_string();
        match Cli::try_parse_from(&words) {
            Ok(_) => panic!("an empty path should be refused"),
            Err(e) => {
                assert_eq!(e.text, expected);
                assert!(e.text.starts_with(&format!("error: a value is required for '{}'", option)));
            }
        }
    }
}

#[test]
fn help_is_no_error() {
    let words = vec!["ao".to_string(), "--help".to_string()];
    match Cli::try_parse_from(&words) {
        Ok(_) => panic!("expected the help"),
        Err(e) => {
            assert_eq!(e.exit_code, 0);
            assert!(!e.to_stderr);
            assert!(e.text.contains("Poll GitHub and run agent workflows"));
            assert!(e.text.contains("--data-dir <DIR>"));
            assert!(e.text.contains("[default: 60]"));
        }
    }
}

#[test]
fn values_are_checked_by_kind() {
    assert_eq!(check_value(ValueKind::Text, ""), Ok("".to_string()));
    assert_eq!(check_value(ValueKind::Path, "x"), Ok("x".to_string()));
    assert_eq!(check_value(ValueKind::Limit, "12"), Ok("12".to_string()));
    assert_eq!(
        check_value(ValueKind::Seconds, "18446744073709551615"),
        Ok("18446744073709551615".to_string())
    );
    for text in ["", "x", "+", "-", "-1", "1x", "18446744073709551616", "99999999999999999999x", "1 "] {
        let expected = match text.parse::<u64>() {
            Ok(_) => panic!("{} is a number", text),
            Err(e) => e.to_string(),
        };
        assert_eq!(check_value(ValueKind::Seconds, text), Err(expected.clone()));
        assert_eq!(check_value(ValueKind::Limit, text), Err(expected));
    }
}

fn trigger() -> TriggerConfig {
    TriggerConfig::GithubIssueAssigned {
        assigned_to: "carol".to_string(),
        allowed_users: vec!["dave".to_string()],
    }
}

fn step() -> Step {
    Step {
        name: "test".to_string(),
        prompt_template: "do thing".to_string(),
        pre_hooks: vec![],
        post_hooks: vec![],
        harness: HarnessConfig::Hermes {
            profile: "cto".to_string(),
            provider: None,
            model: None,
            max_turns: None,
        },
    }
}

fn config() -> Config {
    Config {
        triggers: vec![trigger()],
        repos: vec![RepoConfig {
            owner: "o".to_string(),
            repo: "r".to_string(),
        }],
        git: GitConfig::default(),
        steps: vec![step()],
    }
}

fn refusal(path: &str, source: ConfigSource) -> String {
    match Config::load(path, source) {
        Ok(_) => panic!("expected an error"),
        Err(e) => e,
    }
}

#[test]
fn git_config_defaults() {
    let git = GitConfig::default();
    assert_eq!(git.default_branch, "main");
    assert!(git.clone);
    assert!(!git.worktree);
    assert_eq!(default_branch(), "main");
    assert!(default_true());
    let copy = git.clone();
    assert_eq!(copy.default_branch, "main");
}

#[test]
fn a_valid_configuration_is_loaded() {
    let loaded = match Config::load("/w/a.toml", ConfigSource::Parsed(config())) {
        Ok(config) => config,
        Err(e) => panic!("{}", e),
    };
    assert_eq!(loaded.triggers.len(), 1);
    assert_eq!(loaded.steps[0].name, "test");
    assert_eq!(loaded.repos[0].owner, "o");
}

#[test]
fn invalid_configurations_are_refused() {
    let mut nothing = config();
    nothing.triggers = vec![];
    nothing.steps = vec![];
    nothing.git.clone = false;
    nothing.git.worktree = true;
    assert_eq!(
        refusal("/w/a.toml", ConfigSource::Parsed(nothing)),
        "config \"/w/a.toml\" must define at least one [[triggers]] entry"
    );
    let mut no_steps = config();
    no_steps.steps = vec![];
    no_steps.git.clone = false;
    no_steps.git.worktree = true;
    assert_eq!(
        refusal("/w/a.toml", ConfigSource::Parsed(no_steps)),
        "config \"/w/a.toml\" contains no [[steps]]"
    );
    assert_eq!(
        refusal("/w/a.toml", ConfigSource::Unreadable("denied".to_string())),
        "reading config from \"/w/a.toml\": denied"
    );
    assert_eq!(
        refusal("a b\".toml", ConfigSource::Malformed("bad".to_string())),
        "parsing config from \"a b\\\".toml\": bad"
    );
}

#[test]
fn no_triggers_errors() {
    let mut no_triggers = config();
    no_triggers.triggers = vec![];
    let msg = refusal("/tmp/config.toml", ConfigSource::Parsed(no_triggers));
    assert!(
        msg.contains("trigger"),
        "expected 'trigger' in error: {msg}"
    );
}

#[test]
fn empty_steps_errors() {
    let mut no_steps = config();
    no_steps.steps = vec![];
    let msg = refusal("/tmp/config.toml", ConfigSource::Parsed(no_steps));
    assert!(msg.contains("steps"), "expected 'steps' in error: {msg}");
}

#[test]
fn git_worktree_requires_clone() {
    let mut no_clone = config();
    no_clone.git.clone = false;
    no_clone.git.worktree = true;
    let msg = refusal("/tmp/config.toml", ConfigSource::Parsed(no_clone));
    assert!(
        msg.contains("worktree requires git.clone"),
        "expected worktree/requires/clone error, got: {msg}"
    );
}

#[test]
fn toml_parse_error_includes_detail() {
    let detail = "unknown variant `file_is_whale`, expected one of `file_not_empty`, `script`";
    let msg = refusal("/tmp/config.toml", ConfigSource::Malformed(detail.to_string()));
    assert!(
        msg.contains("file_not_empty") || msg.contains("unknown variant"),
        "expected TOML error detail in error message, got: {msg}"
    );
}

#[test]
fn malformed_toml_errors() {
    let cause = "not valid toml ][[\n".parse::<toml::Value>().unwrap_err().to_string();
    assert!(Config::load("/tmp/config.toml", ConfigSource::Malformed(cause)).is_err());
}

#[test]
fn missing_file_errors() {
    let source = ConfigSource::Unreadable("No such file or directory (os error 2)".to_string());
    assert!(Config::load("/nonexistent/config.toml", source).is_err());
}

fn names(list: &[&str]) -> DirListing {
    DirListing::Names(list.iter().map(|n| n.to_string()).collect())
}

#[test]
fn workflow_files_are_found_in_order() {
    let expected = vec!["/w/B.toml", "/w/a.toml", "/w/a.toml.toml", "/w/\u{e4}.toml"];
    let found = Config::find_all(
        "/w",
        names(&["a.toml.toml", "\u{e4}.toml", "readme.md", ".toml", "a.toml", "toml", "B.toml"]),
    );
    assert_eq!(found.unwrap(), expected);
    let found = Config::find_all(
        "/w",
        names(&["B.toml", "a.toml", "x.toml.bak", "a.toml.toml", "\u{e4}.toml"]),
    );
    assert_eq!(found.unwrap(), expected);
}

#[test]
fn load_all_discovers_toml_files() {
    // A non-toml file is ignored.
    let found = Config::find_all("/w", names(&["alpha.toml", "beta.toml", "readme.md"])).unwrap();
    let files = found
        .into_iter()
        .map(|path| (path, ConfigSource::Parsed(config())))
        .collect();
    let configs = match Config::load_all(files) {
        Ok(configs) => configs,
        Err(e) => panic!("{}", e),
    };
    assert_eq!(
        configs.len(),
        2,
        "expected 2 configs, got {}",
        configs.len()
    );
}

#[test]
fn load_all_rejects_empty_directory() {
    let msg = Config::find_all("/w", names(&[])).unwrap_err();
    assert!(
        msg.contains("no .toml files"),
        "expected 'no .toml files' in error, got: {msg}"
    );
}

#[test]
fn load_all_rejects_non_directory() {
    let msg = Config::find_all("/w/file", DirListing::NotADirectory).unwrap_err();
    assert!(
        msg.contains("not a directory"),
        "expected 'not a directory' in error, got: {msg}"
    );
}

#[test]
fn a_directory_without_workflows_is_refused() {
    assert_eq!(
        Config::find_all("/w", names(&["readme.md"])),
        Err("no .toml files found in --workflows directory \"/w\"".to_string())
    );
    assert_eq!(
        Config::find_all("/w", DirListing::NotADirectory),
        Err("--workflows path \"/w\" is not a directory".to_string())
    );
    assert_eq!(
        Config::find_all("/w", DirListing::Unreadable("denied".to_string())),
        Err("denied".to_string())
    );
}

#[test]
fn the_first_bad_file_decides() {
    let files = vec![
        ("/w/a.toml".to_string(), ConfigSource::Parsed(config())),
        ("/w/b.toml".to_string(), ConfigSource::Parsed(config())),
    ];
    match Config::load_all(files) {
        Ok(configs) => assert_eq!(configs.len(), 2),
        Err(e) => panic!("{}", e),
    }
    let files = vec![
        ("/w/a.toml".to_string(), ConfigSource::Parsed(config())),
        ("/w/b.toml".to_string(), ConfigSource::Malformed("one".to_string())),
        ("/w/c.toml".to_string(), ConfigSource::Malformed("two".to_string())),
    ];
    match Config::load_all(files) {
        Ok(_) => panic!("expected an error"),
        Err(e) => assert_eq!(e, "parsing config from \"/w/b.toml\": one"),
    }
}
