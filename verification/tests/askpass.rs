use agent_orchestrator::askpass::{run, ASKPASS_MODE_ENV, GIT_TOKEN_ENV};

fn args(prompt: &str) -> Vec<String> {
    vec!["agent-orchestrator".to_string(), prompt.to_string()]
}

#[test]
fn askpass_returns_username_for_username_prompt() {
    let answer = run(
        &args("Username for 'https://github.com': "),
        Some("ghp_test123".to_string()),
    );
    assert_eq!(answer.exit_code, 0);
    assert_eq!(answer.output, Some("x-access-token".to_string()));
}

#[test]
fn askpass_returns_token_for_password_prompt() {
    let answer = run(
        &args("Password for 'https://github.com': "),
        Some("ghp_test123".to_string()),
    );
    assert_eq!(answer.exit_code, 0);
    assert_eq!(answer.output, Some("ghp_test123".to_string()));
}

#[test]
fn askpass_returns_token_for_generic_prompt() {
    let answer = run(
        &args("Password for 'https://x-access-token@github.com': "),
        Some("ghp_test123".to_string()),
    );
    assert_eq!(answer.exit_code, 0);
    assert_eq!(answer.output, Some("ghp_test123".to_string()));
}

#[test]
fn askpass_fails_without_token() {
    let answer = run(&args("Username for 'https://github.com': "), None);
    assert_eq!(answer.exit_code, 1);
    assert_eq!(answer.output, None);
}

#[test]
fn askpass_fails_with_empty_token() {
    let answer = run(
        &args("Username for 'https://github.com': "),
        Some("".to_string()),
    );
    assert_eq!(answer.exit_code, 1);
    assert_eq!(answer.output, None);
}

#[test]
fn askpass_without_a_prompt_gives_the_token() {
    let answer = run(&vec!["agent-orchestrator".to_string()], Some("t".to_string()));
    assert_eq!(answer.output, Some("t".to_string()));
    let shouted = run(&args("USERNAME?"), Some("t".to_string()));
    assert_eq!(shouted.output, Some("x-access-token".to_string()));
    assert_eq!(ASKPASS_MODE_ENV, "AO_ASKPASS_MODE");
    assert_eq!(GIT_TOKEN_ENV, "AO_GIT_TOKEN");
}
