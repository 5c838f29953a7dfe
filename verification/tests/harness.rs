use agent_orchestrator::harness::{Harness, HarnessConfig, Invocation, LogConfig};
use agent_orchestrator::hermes::{
    assistant_entry, call_failure, check_exit, invoke, invoke_api, read_response, response_entry,
    spawn_failure, CallPart, HermesHarness, InvokeApiArgs, InvokeArgs,
};
use agent_orchestrator::hermes_api::{
    endpoint_url, find_error_detail, finish_api_step, run_api_step, system_content, ApiCall,
    ApiError, ApiErrorDetail, ChatResponse, Choice, HermesApiHarness, ResponseMessage,
};
use agent_orchestrator::process::Exit;
use agent_orchestrator::utf8::cut_text;
use agent_orchestrator::workflow::Step;

fn hermes_config() -> HarnessConfig {
    HarnessConfig::Hermes {
        profile: "cto".to_string(),
        provider: None,
        model: None,
        max_turns: None,
    }
}

fn step() -> Step {
    Step {
        name: "triage".to_string(),
        prompt_template: "Do triage.".to_string(),
        pre_hooks: vec![],
        post_hooks: vec![],
        harness: hermes_config(),
    }
}

fn log_config() -> LogConfig {
    LogConfig {
        log_path: "/w/step_00_triage.log".to_string(),
        show_logs: true,
    }
}

#[test]
fn build_hermes() {
    let config = HarnessConfig::Hermes {
        profile: "cto".to_string(),
        provider: None,
        model: None,
        max_turns: None,
    };
    let harness = config.build();
    assert_eq!(harness.name(), "hermes");
}

#[test]
fn build_hermes_api() {
    let config = HarnessConfig::HermesApi {
        url: "http://localhost:8000/v1/chat/completions".to_string(),
        provider: None,
        model: None,
        max_turns: None,
    };
    let harness = config.build();
    assert_eq!(harness.name(), "hermes_api");
}

#[test]
fn endpoint_url_appends_path() {
    assert_eq!(
        endpoint_url("http://localhost:8000").unwrap(),
        "http://localhost:8000/v1/chat/completions"
    );
}

#[test]
fn endpoint_url_strips_trailing_slash() {
    assert_eq!(
        endpoint_url("http://localhost:8000/").unwrap(),
        "http://localhost:8000/v1/chat/completions"
    );
}

#[test]
fn endpoint_url_rejects_path_prefix() {
    let result = endpoint_url("http://localhost:8000/v1");
    assert!(result.is_err(), "should reject base_url with /v1 path");
    let err = result.unwrap_err().to_string();
    assert!(
        err.contains("should be just the host URL"),
        "error should explain the config requirement, got: {err}"
    );
    assert_eq!(
        err,
        "hermes_api base_url should be just the host URL, e.g. \"http://localhost:8000\" — got: \"http://localhost:8000/v1\""
    );
}

#[test]
fn endpoint_url_rejects_full_endpoint() {
    let result = endpoint_url("http://localhost:8000/v1/chat/completions");
    assert!(result.is_err(), "should reject base_url with full path");
}

#[test]
fn hermes_api_harness_name() {
    let harness = HermesApiHarness {
        base_url: "http://localhost:8000".to_string(),
        provider: None,
        model: None,
    };
    assert_eq!(harness.name(), "hermes_api");
}

#[test]
fn system_content_includes_workspace_path() {
    let content = system_content("/tmp/data/owner/repo/42", &None);
    assert!(content.contains("/tmp/data/owner/repo/42"));
    assert_eq!(content, "Your working directory is: /tmp/data/owner/repo/42");
    assert_eq!(
        system_content("/w", &Some("openai".to_string())),
        "Your working directory is: /w\nProvider: openai"
    );
}

fn invoke_args() -> InvokeArgs {
    InvokeArgs {
        prompt: "do it".to_string(),
        profile: "cto".to_string(),
        provider: None,
        model: None,
        max_turns: None,
        error_file: "e".to_string(),
        log_file: "l".to_string(),
        show_logs: false,
        work_dir: Some("/w".to_string()),
        issue: "acme/project#42".to_string(),
        step: "triage".to_string(),
    }
}

#[test]
fn hermes_is_invoked_with_its_flags() {
    let command = invoke(&invoke_args());
    assert_eq!(command.program, "hermes");
    assert_eq!(command.current_dir, Some("/w".to_string()));
    assert_eq!(
        command.args,
        vec!["chat", "-p", "do it", "--yolo", "--quiet", "--profile", "cto"]
    );
    let mut args = invoke_args();
    args.provider = Some("openai".to_string());
    args.model = Some("o3".to_string());
    args.max_turns = Some(10);
    args.work_dir = None;
    let command = invoke(&args);
    assert_eq!(command.current_dir, None);
    assert_eq!(
        command.args[7..],
        ["--provider", "openai", "--model", "o3", "--max-turns", "10"]
    );
}

#[test]
fn a_failed_hermes_leaves_its_stderr() {
    let fine = Exit { success: true, code: Some(0) };
    assert!(check_exit(&fine, "noise".to_string()).is_ok());
    let failed = Exit { success: false, code: Some(3) };
    let failure = check_exit(&failed, "oops".to_string()).unwrap_err();
    assert_eq!(failure.message, "hermes exited with code 3");
    assert_eq!(failure.error_file, Some("oops".to_string()));
    let killed = Exit { success: false, code: None };
    let failure = check_exit(&killed, "".to_string()).unwrap_err();
    assert_eq!(failure.message, "hermes exited with code -1");
    assert_eq!(spawn_failure("not found"), "failed to spawn hermes: not found");
}

#[test]
fn the_hermes_harness_plans_an_invocation() {
    let harness = HermesHarness {
        profile: "cto".to_string(),
        provider: Some("openai".to_string()),
        model: None,
        max_turns: Some(5),
    };
    let plan = harness.run_step(&step(), "/w", "prompt", "/w/e", "acme/project#42", &log_config());
    match plan {
        Ok(Invocation::Hermes(args)) => {
            assert_eq!(args.prompt, "prompt");
            assert_eq!(args.profile, "cto");
            assert_eq!(args.provider, Some("openai".to_string()));
            assert_eq!(args.model, None);
            assert_eq!(args.max_turns, Some(5));
            assert_eq!(args.error_file, "/w/e");
            assert_eq!(args.log_file, "/w/step_00_triage.log");
            assert!(args.show_logs);
            assert_eq!(args.work_dir, Some("/w".to_string()));
            assert_eq!(args.issue, "acme/project#42");
            assert_eq!(args.step, "triage");
        }
        _ => panic!("expected the command line agent"),
    }
}

#[test]
fn the_api_harness_plans_a_call_or_refuses_its_url() {
    let mut harness = HermesApiHarness {
        base_url: "http://localhost:8000/".to_string(),
        provider: None,
        model: Some("o3".to_string()),
    };
    let plan = harness.run_step(&step(), "/w", "prompt", "/w/e", "issue", &log_config());
    match plan {
        Ok(Invocation::HermesApi(call)) => {
            assert_eq!(call.url, "http://localhost:8000/v1/chat/completions");
            assert_eq!(call.model, Some("o3".to_string()));
            assert_eq!(call.workspace_dir, "/w");
            assert_eq!(call.prompt, "prompt");
            assert_eq!(call.step_name, "triage");
            assert_eq!(call.error_path, "/w/e");
        }
        _ => panic!("expected an API call"),
    }
    harness.base_url = "http://localhost:8000/chat".to_string();
    assert!(harness
        .run_step(&step(), "/w", "prompt", "/w/e", "issue", &log_config())
        .is_err());
}

#[test]
fn the_server_harness_plans_a_call() {
    let harness = agent_orchestrator::hermes::HermesApiHarness {
        base_url: "http://localhost:8000/v1//".to_string(),
        api_key: "key".to_string(),
        model: "hermes".to_string(),
    };
    assert_eq!(harness.name(), "hermes-api");
    let plan = harness.run_step(&step(), "/w", "prompt", "/w/e", "issue", &log_config());
    let args: InvokeApiArgs = match plan {
        Ok(Invocation::HermesServer(args)) => args,
        _ => panic!("expected a call of the server"),
    };
    let request = invoke_api(&args);
    assert_eq!(request.url, "http://localhost:8000/v1/chat/completions");
    assert_eq!(request.authorization, "Bearer key");
    assert_eq!(request.content_type, "application/json");
    assert_eq!(request.model, "hermes");
    assert_eq!(request.role, "user");
    assert_eq!(request.content, "prompt");
    assert!(!request.stream);
}

#[test]
fn the_message_of_the_first_choice_is_found() {
    let text = r#"{"choices": [{"message": {"role": "assistant", "content": "Hello!"}}, {}]}"#;
    assert_eq!(read_response(200, text).ok(), Some("Hello!".to_string()));
    for text in [
        "{}",
        "[]",
        r#"{"choices": []}"#,
        r#"{"choices": [{"message": null}]}"#,
        r#"{"choices": [{"message": {"content": null}}]}"#,
        r#"{"choices": {"message": {"content": "x"}}}"#,
    ] {
        assert_eq!(
            read_response(200, text).ok(),
            Some("<no content in response>".to_string()),
            "{}",
            text
        );
    }
}

#[test]
fn a_refused_or_malformed_answer_fails_the_step() {
    let failure = read_response(500, "down").unwrap_err();
    assert_eq!(
        failure.message,
        "API request failed with status 500 Internal Server Error"
    );
    assert_eq!(
        failure.error_file,
        Some("HTTP Error: 500 Internal Server Error\n\nResponse:\ndown".to_string())
    );
    let failure = read_response(200, "nonsense").unwrap_err();
    assert!(failure.message.starts_with("failed to parse response JSON: expected ident"));
    assert_eq!(failure.error_file, Some(failure.message.clone()));
    assert_eq!(
        response_entry(200, "body"),
        "API Response (status: 200 OK):\nbody"
    );
    assert_eq!(assistant_entry("hi"), "Assistant: hi");
}

fn api_call() -> ApiCall {
    ApiCall {
        url: "http://localhost:8000/v1/chat/completions".to_string(),
        provider: Some("openai".to_string()),
        model: None,
        workspace_dir: "/w".to_string(),
        prompt: "prompt".to_string(),
        step_name: "triage".to_string(),
        issue: "issue".to_string(),
        log_path: "/w/l".to_string(),
        error_path: "/w/e".to_string(),
        show_logs: false,
    }
}

#[test]
fn an_api_step_needs_a_key() {
    let request = match run_api_step(&api_call(), Some("key".to_string())) {
        Ok(request) => request,
        Err(e) => panic!("{}", e),
    };
    assert_eq!(request.authorization, "Bearer key");
    assert_eq!(request.body.model, None);
    assert_eq!(request.body.messages.len(), 2);
    assert_eq!(request.body.messages[0].role, "system");
    assert_eq!(
        request.body.messages[0].content,
        "Your working directory is: /w\nProvider: openai"
    );
    assert_eq!(request.body.messages[1].role, "user");
    assert_eq!(request.body.messages[1].content, "prompt");
    match run_api_step(&api_call(), None) {
        Ok(_) => panic!("expected an error"),
        Err(e) => assert_eq!(
            e,
            "HERMES_API_KEY environment variable is not set or empty (required for hermes_api harness)"
        ),
    }
}

fn response(content: Option<&str>) -> ChatResponse {
    ChatResponse {
        choices: vec![Choice {
            message: Some(ResponseMessage {
                content: content.map(|c| c.to_string()),
            }),
        }],
    }
}

/// The response that a JSON text holds.
fn read_chat_response(json: &str) -> ChatResponse {
    let value: serde_json::Value = serde_json::from_str(json).unwrap();
    let choices = value["choices"].as_array().unwrap();
    ChatResponse {
        choices: choices
            .iter()
            .map(|choice| Choice {
                message: choice.get("message").map(|message| ResponseMessage {
                    content: message["content"].as_str().map(|c| c.to_string()),
                }),
            })
            .collect(),
    }
}

#[test]
fn chat_response_deserializes() {
    let json = r#"{
            "choices": [
                {
                    "message": {
                        "role": "assistant",
                        "content": "Hello! How can I help?"
                    }
                }
            ]
        }"#;
    let response = read_chat_response(json);
    assert_eq!(response.choices.len(), 1);
    let log = finish_api_step(200, json, Ok(response), &read_api_error(json)).ok().unwrap();
    assert!(log.ends_with("=== Assistant Content ===\nHello! How can I help?\n"));
}

#[test]
fn chat_response_handles_empty_content() {
    let json = r#"{
            "choices": [
                {
                    "message": {
                        "role": "assistant",
                        "content": null
                    }
                }
            ]
        }"#;
    let response = read_chat_response(json);
    let log = finish_api_step(200, json, Ok(response), &read_api_error(json)).ok().unwrap();
    assert!(log.ends_with("=== Assistant Content ===\n\n"));
}

/// The body of an error, if the text is one.
fn read_api_error(text: &str) -> Option<ApiError> {
    let document: serde_json::Value = serde_json::from_str(text).ok()?;
    let error = match document.as_object()?.get("error") {
        None | Some(serde_json::Value::Null) => None,
        Some(detail) => Some(ApiErrorDetail {
            message: match detail.as_object()?.get("message") {
                None | Some(serde_json::Value::Null) => None,
                Some(message) => Some(message.as_str()?.to_string()),
            },
        }),
    };
    Some(ApiError { error })
}

#[test]
fn api_error_deserializes() {
    let json = r#"{
            "error": {
                "message": "Invalid API key",
                "type": "invalid_request_error"
            }
        }"#;
    let err = read_api_error(json).unwrap();
    assert_eq!(err.error.unwrap().message.unwrap(), "Invalid API key");
    let failure = finish_api_step(401, json, Err("".to_string()), &read_api_error(json)).unwrap_err();
    assert_eq!(
        failure.message,
        "hermes_api returned HTTP 401 Unauthorized: Invalid API key"
    );
}

#[test]
fn missing_api_key_returns_error() {
    assert!(run_api_step(&api_call(), None).is_err());
}

#[test]
fn an_answered_api_step_is_logged() {
    let log = finish_api_step(200, "{}", Ok(response(Some("Hello!"))), &read_api_error("{}")).ok();
    assert_eq!(
        log,
        Some(
            "=== API Response (HTTP 200 OK) ===\n{}\n\n=== Assistant Content ===\nHello!\n"
                .to_string()
        )
    );
    let log = finish_api_step(201, "{}", Ok(response(None)), &read_api_error("{}")).ok().unwrap();
    assert!(log.ends_with("=== Assistant Content ===\n\n"));
    let empty = ChatResponse { choices: vec![] };
    let log = finish_api_step(200, "{}", Ok(empty), &read_api_error("{}")).ok().unwrap();
    assert!(log.ends_with("=== Assistant Content ===\n\n"));
}

#[test]
fn a_failed_api_step_reports_the_error() {
    let body = r#"{"error": {"message": "Invalid API key", "type": "invalid_request_error"}}"#;
    let failure = finish_api_step(401, body, Err("".to_string()), &read_api_error(body)).unwrap_err();
    assert_eq!(
        failure.message,
        "hermes_api returned HTTP 401 Unauthorized: Invalid API key"
    );
    assert_eq!(
        failure.error_file,
        Some("hermes_api HTTP 401 Unauthorized: Invalid API key".to_string())
    );
    let failure = finish_api_step(502, "bad gateway", Err("".to_string()), &read_api_error("bad gateway")).unwrap_err();
    assert_eq!(
        failure.message,
        "hermes_api returned HTTP 502 Bad Gateway: bad gateway"
    );
}

#[test]
fn long_bodies_are_cut() {
    let body = "x".repeat(2001);
    let failure = finish_api_step(500, &body, Err("".to_string()), &read_api_error(&body)).unwrap_err();
    assert!(failure.message.ends_with("x...(truncated)"));
    assert_eq!(
        failure.message.len(),
        "hermes_api returned HTTP 500 Internal Server Error: ".len() + 2000 + 14
    );
    let exact = "x".repeat(2000);
    let failure = finish_api_step(500, &exact, Err("".to_string()), &read_api_error(&exact)).unwrap_err();
    assert!(failure.message.ends_with(&exact));
    let failure = finish_api_step(200, &body, Err("missing field".to_string()), &read_api_error(&body)).unwrap_err();
    assert_eq!(failure.error_file, None);
    assert_eq!(
        failure.message,
        format!(
            "failed to parse hermes_api response as ChatResponse: missing field. Raw body (first 500 chars): {}",
            "x".repeat(500)
        )
    );
}

#[test]
fn a_cut_within_a_character_leaves_it_out() {
    let body = format!("x{}", "\u{e4}".repeat(1000));
    assert_eq!(body.len(), 2001);
    let failure = finish_api_step(500, &body, Err("".to_string()), &read_api_error(&body)).unwrap_err();
    assert_eq!(
        failure.message,
        format!(
            "hermes_api returned HTTP 500 Internal Server Error: x{}...(truncated)",
            "\u{e4}".repeat(999)
        )
    );
    assert_eq!(
        failure.error_file,
        Some(format!(
            "hermes_api HTTP 500 Internal Server Error: x{}...(truncated)",
            "\u{e4}".repeat(999)
        ))
    );
    let failure = finish_api_step(200, &body, Err("e".to_string()), &read_api_error(&body)).unwrap_err();
    assert_eq!(
        failure.message,
        format!(
            "failed to parse hermes_api response as ChatResponse: e. Raw body (first 500 chars): x{}",
            "\u{e4}".repeat(249)
        )
    );
    let even = "\u{e4}".repeat(1001);
    let failure = finish_api_step(500, &even, Err("".to_string()), &read_api_error(&even)).unwrap_err();
    assert!(failure.message.ends_with(&format!(": {}...(truncated)", "\u{e4}".repeat(1000))));
}

#[test]
fn a_text_is_cut_after_its_last_whole_character() {
    let text = "a\u{e4}\u{20ac}\u{1f600}b";
    let expected = ["", "a", "a", "a\u{e4}", "a\u{e4}", "a\u{e4}", "a\u{e4}\u{20ac}"];
    for (n, front) in expected.iter().enumerate() {
        assert_eq!(cut_text(text, n), *front);
    }
    assert_eq!(cut_text(text, 9), "a\u{e4}\u{20ac}");
    assert_eq!(cut_text(text, 10), "a\u{e4}\u{20ac}\u{1f600}");
    assert_eq!(cut_text(text, 11), text);
    assert_eq!(cut_text("", 0), "");
}

#[test]
fn the_detail_of_an_error_is_what_the_api_reports() {
    let error = |message: Option<&str>| {
        Some(ApiError {
            error: Some(ApiErrorDetail {
                message: message.map(|m| m.to_string()),
            }),
        })
    };
    assert_eq!(find_error_detail(&error(Some("boom")), "body"), "boom");
    assert_eq!(find_error_detail(&error(None), "body"), "body");
    assert_eq!(find_error_detail(&Some(ApiError { error: None }), "body"), "body");
    assert_eq!(
        find_error_detail(&None, &"x".repeat(3000)),
        format!("{}...(truncated)", "x".repeat(2000))
    );
}

#[test]
fn a_url_with_a_path_is_refused() {
    assert_eq!(
        endpoint_url("http://localhost:8000/api").unwrap_err(),
        "hermes_api base_url should be just the host URL, e.g. \"http://localhost:8000\" \u{2014} got: \"http://localhost:8000/api\""
    );
    assert!(endpoint_url("localhost:8000/api/").is_err());
    assert_eq!(
        endpoint_url("http://v1.example.com").unwrap(),
        "http://v1.example.com/v1/chat/completions"
    );
    assert_eq!(
        endpoint_url("https://chat.example.com//").unwrap(),
        "https://chat.example.com/v1/chat/completions"
    );
    assert_eq!(
        endpoint_url("localhost:8000").unwrap(),
        "localhost:8000/v1/chat/completions"
    );
    assert_eq!(
        endpoint_url("http://h?x=a/b").unwrap(),
        "http://h?x=a/b/v1/chat/completions"
    );
    assert!(endpoint_url("http://h/?x=a").is_ok());
    assert!(endpoint_url("http://h#a/b").is_ok());
    assert!(endpoint_url("h?u=http://x/y").is_ok());
    assert!(endpoint_url("http://h/p?x=a").is_err());
}

#[test]
fn a_failed_call_leaves_its_error() {
    let args = InvokeApiArgs {
        base_url: "http://localhost".to_string(),
        api_key: "key".to_string(),
        model: "m".to_string(),
        prompt: "p".to_string(),
        error_file: "/w/e".to_string(),
        log_file: "/w/l".to_string(),
        show_logs: false,
        issue: "i".to_string(),
    };
    for (part, expected) in [
        (CallPart::Client, "failed to create HTTP client: gone"),
        (CallPart::Send, "HTTP request failed: gone"),
        (CallPart::Read, "failed to read response: gone"),
        (CallPart::CreateLog, "failed to create log file \"/w/l\": gone"),
        (CallPart::LogAnswer, "failed to write to log file: gone"),
        (CallPart::LogMessage, "failed to write message to log: gone"),
        (CallPart::FlushLog, "failed to flush log file: gone"),
    ] {
        let failure = call_failure(&args, part, "gone");
        assert_eq!(failure.message, expected);
        assert_eq!(failure.error_file, Some(expected.to_string()));
    }
}

#[test]
fn an_empty_api_key_is_taken_as_it_is() {
    let request = run_api_step(&api_call(), Some("".to_string())).ok().unwrap();
    assert_eq!(request.authorization, "Bearer ");
}
