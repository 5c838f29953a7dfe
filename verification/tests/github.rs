use agent_orchestrator::github::{
    body_mentions_user, calculate_sleep_at, calculate_sleep_until_reset, contains_word,
    format_github_error, list_assigned_issues, list_mentioned_issues, list_pr_reviews, ApiReply,
    Attempt, Directive, GitHubClient, GithubErrorResponse, Issue, IssueComment, MentionedIssue,
    Review, MAX_BACKOFF_SECS, MIN_BACKOFF_SECS,
};

/// The body of an error, if the text is one.
fn read_error(body: &str) -> Option<GithubErrorResponse> {
    let document: serde_json::Value = serde_json::from_str(body).ok()?;
    let message = match document.as_object()?.get("message") {
        None | Some(serde_json::Value::Null) => None,
        Some(value) => Some(value.as_str()?.to_string()),
    };
    Some(GithubErrorResponse { message })
}

#[test]
fn test_format_github_error_json() {
    let body = r#"{"message": "No server available"}"#;
    assert_eq!(
        format_github_error(503, &read_error(body)),
        "GitHub API returned 503 Service Unavailable: No server available"
    );
}

#[test]
fn test_format_github_error_html() {
    let body = "<html><body>504 Gateway Timeout</body></html>";
    assert_eq!(
        format_github_error(504, &read_error(body)),
        "GitHub API returned 504 Gateway Timeout (body too large or not JSON)"
    );
}

#[test]
fn test_format_github_error_json_without_message() {
    let body = r#"{"documentation_url": "https://docs.github.com"}"#;
    assert_eq!(
        format_github_error(403, &read_error(body)),
        "GitHub API returned 403 Forbidden (body too large or not JSON)"
    );
}

#[test]
fn test_github_client_new_stores_token() {
    let client = GitHubClient::new("ghp_test123".to_string());
    assert_eq!(client.token, "ghp_test123");
    assert_eq!(client.remaining, u32::MAX);
}

#[test]
fn test_github_client_clone_preserves_state() {
    let mut client = GitHubClient::new("ghp_test123".to_string());
    client.remaining = 42;
    let cloned = client.clone();
    assert_eq!(cloned.remaining, 42);
    assert_eq!(cloned.token, "ghp_test123");
}

fn now_epoch() -> u64 {
    std::time::SystemTime::now()
        .duration_since(std::time::UNIX_EPOCH)
        .unwrap()
        .as_secs()
}

#[test]
fn test_calculate_sleep_until_reset_future_timestamp() {
    let now_epoch = now_epoch();
    // Reset 10 seconds in the future.
    let reset_epoch = now_epoch + 10;
    let sleep_secs = calculate_sleep_until_reset(Some(reset_epoch)).unwrap();
    assert!(
        sleep_secs >= MIN_BACKOFF_SECS,
        "sleep duration should be at least MIN_BACKOFF"
    );
    assert!(
        sleep_secs <= 10,
        "sleep duration should not exceed the reset window"
    );
}

#[test]
fn test_calculate_sleep_until_reset_past_timestamp() {
    // Reset 100 seconds in the past — already expired.
    let now_epoch = now_epoch();
    let reset_epoch = now_epoch - 100;
    let sleep_secs = calculate_sleep_until_reset(Some(reset_epoch)).unwrap();
    assert_eq!(sleep_secs, MIN_BACKOFF_SECS);
}

#[test]
fn test_calculate_sleep_until_reset_none() {
    assert!(calculate_sleep_until_reset(None).is_none());
}

#[test]
fn test_calculate_sleep_until_reset_clamps_max() {
    let now_epoch = now_epoch();
    // Reset 1 hour in the future — should be clamped to MAX.
    let reset_epoch = now_epoch + 3600;
    let sleep_secs = calculate_sleep_until_reset(Some(reset_epoch)).unwrap();
    assert_eq!(sleep_secs, MAX_BACKOFF_SECS);
}

#[test]
fn test_mentioned_issue_has_comment_id() {
    let issue = MentionedIssue {
        number: 42,
        comment_id: 12345,
    };
    assert_eq!(issue.number, 42);
    assert_eq!(issue.comment_id, 12345);
}

#[test]
fn test_mentioned_issue_comment_id_zero_for_body_mention() {
    let issue = MentionedIssue {
        number: 7,
        comment_id: 0,
    };
    assert_eq!(issue.number, 7);
    assert_eq!(issue.comment_id, 0);
}

#[test]
fn test_body_mentions_user_simple() {
    assert!(body_mentions_user("Hey @alice check this out", "alice"));
}

#[test]
fn test_body_mentions_user_case_insensitive() {
    assert!(body_mentions_user("Hey @Alice check this out", "alice"));
    assert!(body_mentions_user("Hey @alice check this out", "Alice"));
}

#[test]
fn test_body_mentions_user_at_start() {
    assert!(body_mentions_user("@bob look at this", "bob"));
}

#[test]
fn test_body_mentions_user_at_end() {
    assert!(body_mentions_user("look at this @carol", "carol"));
}

#[test]
fn test_body_mentions_user_no_partial_match() {
    // Should NOT match @bobby when looking for @bob
    assert!(!body_mentions_user("Hey @bobby check this out", "bob"));
}

#[test]
fn test_body_mentions_user_no_partial_match_underscore() {
    // Should NOT match @bob_smith when looking for @bob
    assert!(!body_mentions_user("Hey @bob_smith check this out", "bob"));
}

#[test]
fn test_body_mentions_user_no_match() {
    assert!(!body_mentions_user("Hey alice check this out", "alice"));
}

#[test]
fn test_body_mentions_user_multiple_mentions() {
    assert!(body_mentions_user("@alice @bob @charlie", "bob"));
}

#[test]
fn test_body_mentions_user_punctuation_boundary() {
    assert!(body_mentions_user("cc @dave, please review", "dave"));
    assert!(body_mentions_user("(@dave)", "dave"));
}

#[test]
fn test_body_mentions_user_no_match_when_prefix_is_alnum() {
    // "x@alice" should not match "alice" because the preceding char is alphanumeric
    assert!(!body_mentions_user("x@alice", "alice"));
}

#[test]
fn a_later_mention_counts() {
    assert!(body_mentions_user("@bobby and @bob", "bob"));
    assert!(body_mentions_user("\u{e4}@BOB\u{e4}", "bob"));
    assert!(body_mentions_user("\u{c4}rger @J\u{dc}RGEN!", "j\u{fc}rgen"));
    assert!(!body_mentions_user("", "bob"));
    assert!(body_mentions_user("@", ""));
    assert!(contains_word("a bc d", "bc"));
    assert!(!contains_word("abc", "bc"));
}

#[test]
fn waits_are_bounded() {
    assert_eq!(calculate_sleep_at(None, 100), None);
    assert_eq!(calculate_sleep_at(Some(100), 100), Some(1));
    assert_eq!(calculate_sleep_at(Some(0), 100), Some(1));
    assert_eq!(calculate_sleep_at(Some(101), 100), Some(1));
    assert_eq!(calculate_sleep_at(Some(142), 100), Some(42));
    assert_eq!(calculate_sleep_at(Some(400), 100), Some(300));
    assert_eq!(calculate_sleep_at(Some(401), 100), Some(300));
    assert_eq!(calculate_sleep_at(Some(u64::MAX), 0), Some(300));
}

#[test]
fn errors_are_reported_with_their_message() {
    let error = |message: Option<&str>| {
        Some(GithubErrorResponse {
            message: message.map(|m| m.to_string()),
        })
    };
    assert_eq!(
        format_github_error(404, &error(Some("Not Found"))),
        "GitHub API returned 404 Not Found: Not Found"
    );
    assert_eq!(
        format_github_error(500, &error(None)),
        "GitHub API returned 500 Internal Server Error (body too large or not JSON)"
    );
    assert_eq!(
        format_github_error(299, &None),
        "GitHub API returned 299 <unknown status code> (body too large or not JSON)"
    );
}

fn reply(status: u16, remaining: Option<&str>, reset: Option<&str>, body: &str) -> Option<ApiReply> {
    Some(ApiReply {
        status,
        remaining: remaining.map(|r| r.to_string()),
        reset: reset.map(|r| r.to_string()),
        body: body.to_string(),
        error: read_error(body),
    })
}

fn text(directive: Directive) -> String {
    match directive {
        Directive::Deliver => "deliver".to_string(),
        Directive::SleepThenDeliver(secs) => format!("sleep {} deliver", secs),
        Directive::SleepThenRetry(secs) => format!("sleep {} retry", secs),
        Directive::Fail(e) => format!("fail: {}", e),
    }
}

#[test]
fn answers_are_handed_out() {
    let mut client = GitHubClient::new("t".to_string());
    assert_eq!(client.authorization(), "Bearer t");
    let fine = reply(200, Some("4999"), Some("150"), "");
    assert_eq!(text(client.send_request_at(Attempt::First, &fine, 100)), "deliver");
    assert_eq!(client.remaining, 4999);
    let odd = reply(500, Some("3"), Some("150"), "");
    assert_eq!(text(client.send_request_at(Attempt::First, &odd, 100)), "deliver");
    assert_eq!(client.remaining, 3);
    let silent = reply(200, None, None, "");
    assert_eq!(text(client.send_request(Attempt::First, &silent)), "deliver");
    assert_eq!(client.remaining, 3);
    let garbled = reply(200, Some("few"), Some("soon"), "");
    assert_eq!(text(client.send_request_at(Attempt::First, &garbled, 100)), "deliver");
    assert_eq!(client.remaining, 3);
}

#[test]
fn a_low_budget_is_waited_for() {
    let mut client = GitHubClient::new("t".to_string());
    let low = reply(200, Some("4"), Some("150"), "");
    assert_eq!(
        text(client.send_request_at(Attempt::First, &low, 100)),
        "sleep 50 deliver"
    );
    let enough = reply(200, Some("5"), Some("150"), "");
    assert_eq!(text(client.send_request_at(Attempt::First, &enough, 100)), "deliver");
    let unknown_reset = reply(200, Some("0"), None, "");
    assert_eq!(
        text(client.send_request_at(Attempt::First, &unknown_reset, 100)),
        "deliver"
    );
}

#[test]
fn a_rate_limit_is_retried_once() {
    let mut client = GitHubClient::new("t".to_string());
    let limited = reply(403, Some("12"), Some("150"), "API rate limit exceeded");
    assert_eq!(
        text(client.send_request_at(Attempt::First, &limited, 100)),
        "sleep 50 retry"
    );
    assert_eq!(client.remaining, 12);
    let abuse = reply(403, None, Some("90"), "abuse detection");
    assert_eq!(
        text(client.send_request_at(Attempt::First, &abuse, 100)),
        "sleep 1 retry"
    );
    let spent = reply(403, Some("0"), Some("1000"), "");
    assert_eq!(
        text(client.send_request_at(Attempt::First, &spent, 100)),
        "sleep 300 retry"
    );
    assert_eq!(text(client.send_request_at(Attempt::Retry, &limited, 100)), "deliver");
    assert_eq!(text(client.send_request(Attempt::Retry, &spent)), "deliver");
    assert_eq!(client.remaining, 0);
}

#[test]
fn other_refusals_fail() {
    let mut client = GitHubClient::new("t".to_string());
    let forbidden = reply(403, Some("10"), Some("150"), r#"{"message": "No access"}"#);
    assert_eq!(
        text(client.send_request_at(Attempt::First, &forbidden, 100)),
        "fail: GitHub API returned 403 Forbidden: No access"
    );
    let no_reset = reply(403, Some("0"), None, "rate limit");
    assert_eq!(
        text(client.send_request_at(Attempt::First, &no_reset, 100)),
        "fail: GitHub API returned 403 Forbidden (body too large or not JSON)"
    );
    assert_eq!(
        text(client.send_request_at(Attempt::First, &None, 100)),
        "fail: sending GitHub API request"
    );
    assert_eq!(
        text(client.send_request_at(Attempt::Retry, &None, 100)),
        "fail: retrying GitHub API request after rate limit backoff"
    );
}

#[test]
fn issues_are_listed_page_by_page() {
    let mut listing = list_assigned_issues("acme", "project", "bot", "alice");
    assert_eq!(
        listing.url(),
        "https://api.github.com/repos/acme/project/issues?state=open&assignee=bot&creator=alice&per_page=100&page=1"
    );
    let page = vec![Issue { number: 4 }, Issue { number: 2 }];
    assert_eq!(listing.next(200, &read_error(""), Some(page)), Ok(false));
    assert!(listing.url().ends_with("&page=2"));
    assert_eq!(listing.next(200, &read_error(""), Some(vec![Issue { number: 9 }])), Ok(false));
    assert_eq!(listing.next(200, &read_error(""), Some(vec![])), Ok(true));
    let numbers: Vec<u64> = listing.issues.iter().map(|i| i.number).collect();
    assert_eq!(numbers, vec![4, 2, 9]);
    assert_eq!(
        listing.next(200, &read_error(""), None),
        Err("deserializing GitHub issue list".to_string())
    );
    assert_eq!(
        listing.next(404, &read_error(r#"{"message": "Gone"}"#), None),
        Err("GitHub API returned 404 Not Found: Gone".to_string())
    );
}

fn review(id: u64, login: &str) -> Review {
    Review {
        id,
        login: login.to_string(),
    }
}

#[test]
fn reviews_are_listed_for_each_pull_request() {
    let mut listing = list_pr_reviews("acme", "project");
    assert!(!listing.wants_reviews());
    assert_eq!(
        listing.url(),
        "https://api.github.com/repos/acme/project/pulls?state=open&per_page=100&page=1"
    );
    assert_eq!(listing.failure("offline".to_string()), "offline");
    assert_eq!(listing.next_pulls(200, &read_error(""), Some(vec![7, 8])), Ok(false));
    assert!(listing.wants_reviews());
    assert_eq!(
        listing.url(),
        "https://api.github.com/repos/acme/project/pulls/7/reviews"
    );
    assert_eq!(
        listing.failure("offline".to_string()),
        "sending GitHub PR reviews request"
    );
    let reviews = vec![review(1, "alice"), review(2, "bob")];
    assert_eq!(listing.next_reviews(200, &read_error(""), Some(reviews)), Ok(()));
    assert!(listing.url().ends_with("/pulls/8/reviews"));
    assert_eq!(
        listing.next_reviews(200, &read_error(""), None),
        Err("deserializing GitHub PR reviews".to_string())
    );
    assert_eq!(
        listing.next_reviews(502, &read_error("x"), None),
        Err("GitHub API returned 502 Bad Gateway (body too large or not JSON)".to_string())
    );
    assert_eq!(listing.next_reviews(200, &read_error(""), Some(vec![review(3, "alice")])), Ok(()));
    assert!(listing.url().ends_with("&page=2"));
    assert_eq!(
        listing.next_pulls(200, &read_error(""), None),
        Err("deserializing GitHub pulls list".to_string())
    );
    assert_eq!(listing.next_pulls(200, &read_error(""), Some(vec![])), Ok(true));
    let found: Vec<(u64, u64, &str)> = listing
        .reviews
        .iter()
        .map(|r| (r.pr_number, r.id, r.user.as_str()))
        .collect();
    assert_eq!(found, vec![(7, 1, "alice"), (7, 2, "bob"), (8, 3, "alice")]);
}

fn comment(id: u64, body: &str) -> IssueComment {
    IssueComment {
        id,
        body: body.to_string(),
    }
}

#[test]
fn mentions_are_found_in_comments() {
    let mut listing = list_mentioned_issues("acme", "project", "bot");
    assert_eq!(
        listing.url(),
        "https://api.github.com/search/issues?q=mentions%3Abot+is%3Aissue+is%3Aopen+repo%3Aacme%2Fproject&per_page=100&page=1"
    );
    assert_eq!(listing.next_search(200, &read_error(""), Some(vec![5, 6, 7])), Ok(()));
    assert!(listing.url().ends_with("&page=2"));
    assert_eq!(listing.next_search(200, &read_error(""), Some(vec![])), Ok(()));
    assert!(!listing.is_complete());
    assert_eq!(
        listing.url(),
        "https://api.github.com/repos/acme/project/issues/5/comments?per_page=100&page=1"
    );
    let comments = vec![comment(50, "hi @bot"), comment(51, "no"), comment(52, "@Bot!")];
    assert_eq!(listing.next_comments(200, Some(comments)), Ok(()));
    assert_eq!(listing.next_comments(500, None), Ok(()));
    let full: Vec<IssueComment> = (0..100).map(|i| comment(100 + i, "nothing")).collect();
    assert_eq!(listing.next_comments(200, Some(full)), Ok(()));
    assert!(listing.url().ends_with("/issues/7/comments?per_page=100&page=2"));
    assert_eq!(
        listing.next_comments(200, None),
        Err("deserializing GitHub issue comments".to_string())
    );
    assert_eq!(listing.next_comments(200, Some(vec![comment(200, "@bot")])), Ok(()));
    assert!(listing.is_complete());
    let found: Vec<(u64, u64)> = listing
        .result
        .iter()
        .map(|m| (m.number, m.comment_id))
        .collect();
    assert_eq!(found, vec![(5, 50), (5, 52), (6, 0), (7, 200)]);
}

#[test]
fn reviews_come_page_by_page() {
    let mut listing = list_pr_reviews("acme", "project");
    let none = None;
    let mut id = 0;
    for page in [vec![7, 8], vec![5]] {
        let count = page.len();
        assert_eq!(listing.next_pulls(200, &none, Some(page)), Ok(false));
        for _ in 0..count {
            id += 2;
            let reviews = vec![review(id, "alice"), review(id + 1, "bob")];
            assert_eq!(listing.next_reviews(200, &none, Some(reviews)), Ok(()));
        }
    }
    assert_eq!(listing.page, 3);
    assert_eq!(listing.next_pulls(200, &none, Some(vec![])), Ok(true));
    let found: Vec<(u64, u64)> = listing.reviews.iter().map(|r| (r.pr_number, r.id)).collect();
    assert_eq!(found, vec![(7, 2), (7, 3), (8, 4), (8, 5), (5, 6), (5, 7)]);
}

#[test]
fn a_failed_search_is_an_error() {
    let mut listing = list_mentioned_issues("acme", "project", "bot");
    assert_eq!(
        listing.next_search(200, &read_error(""), None),
        Err("deserializing GitHub search issues response".to_string())
    );
    assert_eq!(
        listing.next_search(422, &read_error(r#"{"message": "Invalid"}"#), None),
        Err("GitHub API returned 422 Unprocessable Entity: Invalid".to_string())
    );
    assert_eq!(listing.next_search(200, &read_error(""), Some(vec![])), Ok(()));
    assert!(listing.is_complete());
}
