//! The hermes agent behind its REST API, an OpenAI-compatible chat
//! completions endpoint. The agent does not run on the local file system, so
//! the first message tells it where the workspace is.
use vstd::prelude::*;

use crate::harness::{Harness, Invocation, LogConfig};
use crate::hermes::StepFailure;
use crate::http::{is_success, status_line, status_text, valid_status};
use crate::text::{
    chars_of, contains, copy_option, end_trimmed, lemma_end_trimmed, matches_at, occurs_at,
    opt_view, quote, quoted, string_of, trim_end,
};
use crate::utf8::{byte_len, cut, cut_text, law_cut_is_longest};
use crate::workflow::Step;

verus! {

/// The path of the endpoint below the URL of the server.
pub const API_PATH: &'static str = "/v1/chat/completions";

/// The environment variable that holds the key of the API.
pub const API_KEY_ENV: &'static str = "HERMES_API_KEY";

/// The number of bytes of an error body that are reported.
pub const ERROR_BODY_LIMIT: usize = 2000;

/// The number of bytes of a malformed body that are reported.
pub const RAW_BODY_LIMIT: usize = 500;

/// What stands behind the first `pat` of a text that holds it.
pub open spec fn behind(s: Seq<char>, pat: Seq<char>) -> Seq<char>
    decreases s.len(),
{
    if s.len() == 0 || occurs_at(s, pat, 0) {
        s.skip(pat.len() as int)
    } else {
        behind(s.skip(1), pat)
    }
}

/// Where the query or the fragment of a URL begins, or its end.
pub open spec fn query_start(url: Seq<char>) -> int
    decreases url.len(),
{
    if url.len() == 0 || url[0] == '?' || url[0] == '#' {
        0
    } else {
        1 + query_start(url.skip(1))
    }
}

/// What stands behind `://`, or all of it, up to the query or the fragment: the
/// host, and the path if there is one. Slashes at the end are not part of it.
pub open spec fn authority(url: Seq<char>) -> Seq<char> {
    let front = url.take(query_start(url));
    end_trimmed(
        if contains(front, "://"@) {
            behind(front, "://"@)
        } else {
            front
        },
        '/',
    )
}

/// A URL that is more than that of a server: it has a path beyond the root.
pub open spec fn has_path(base_url: Seq<char>) -> bool {
    authority(end_trimmed(base_url, '/')).contains('/')
}

/// Why a URL is refused.
pub open spec fn endpoint_complaint(base_url: Seq<char>) -> Seq<char> {
    "hermes_api base_url should be just the host URL, e.g. \"http://localhost:8000\" — got: "@
        + quoted(base_url)
}

proof fn lemma_behind(s: Seq<char>, pat: Seq<char>, i: int)
    requires
        occurs_at(s, pat, i),
        forall|j: int| 0 <= j < i ==> !occurs_at(s, pat, j),
    ensures
        behind(s, pat) == s.skip(i + pat.len()),
    decreases i,
{
    if i > 0 {
        let rest = s.skip(1);
        assert forall|j: int| 0 <= j < i implies occurs_at(rest, pat, j) == #[trigger] occurs_at(
            s,
            pat,
            j + 1,
        ) by {
            if j + 1 + pat.len() <= s.len() {
                assert(rest.subrange(j, j + pat.len()) =~= s.subrange(j + 1, j + 1 + pat.len()));
            }
        }
        assert(occurs_at(s, pat, (i - 1) + 1));
        assert forall|j: int| 0 <= j < i - 1 implies !occurs_at(rest, pat, j) by {
            assert(!occurs_at(s, pat, j + 1));
        }
        lemma_behind(rest, pat, i - 1);
        assert(rest.skip(i - 1 + pat.len()) =~= s.skip(i + pat.len()));
    }
}

proof fn lemma_query_start(url: Seq<char>, i: int)
    requires
        0 <= i <= url.len(),
        forall|j: int| 0 <= j < i ==> #[trigger] url[j] != '?' && url[j] != '#',
        i < url.len() ==> url[i] == '?' || url[i] == '#',
    ensures
        query_start(url) == i,
    decreases i,
{
    if i > 0 {
        let rest = url.skip(1);
        assert(url[0] != '?' && url[0] != '#');
        assert forall|j: int| 0 <= j < i - 1 implies #[trigger] rest[j] != '?' && rest[j]
            != '#' by {
            assert(rest[j] == url[j + 1]);
        }
        lemma_query_start(rest, i - 1);
    }
}

/// The part of a URL before its query and its fragment.
fn without_query(url: &str) -> (front: String)
    ensures
        front@ == url@.take(query_start(url@)),
{
    let chars = chars_of(url);
    let mut front = String::new();
    let mut i: usize = 0;
    assert(front@ =~= url@.take(0));
    while i < chars.len() && chars[i] != '?' && chars[i] != '#'
        invariant
            i <= chars.len(),
            chars@ == url@,
            front@ == url@.take(i as int),
            forall|j: int| 0 <= j < i ==> #[trigger] url@[j] != '?' && url@[j] != '#',
        decreases chars.len() - i,
    {
        front.push(chars[i]);
        assert(url@.take(i + 1) =~= url@.take(i as int).push(url@[i as int]));
        i += 1;
    }
    proof {
        lemma_query_start(url@, i as int);
    }
    front
}

/// What stands behind `://`, or all of it.
fn behind_scheme(url: &str) -> (host: String)
    ensures
        host@ == if contains(url@, "://"@) {
            behind(url@, "://"@)
        } else {
            url@
        },
{
    let chars = chars_of(url);
    let separator = chars_of("://");
    let mut i: usize = 0;
    while i < chars.len()
        invariant
            i <= chars.len(),
            chars@ == url@,
            separator@ == "://"@,
            forall|j: int| 0 <= j < i ==> !occurs_at(url@, "://"@, j),
        decreases chars.len() - i,
    {
        if matches_at(&chars, &separator, i) {
            proof {
                lemma_behind(url@, "://"@, i as int);
            }
            let mut rest = chars;
            let host = rest.split_off(i + separator.len());
            assert(host@ =~= url@.skip(i + separator@.len()));
            return string_of(&host);
        }
        i += 1;
    }
    proof {
        reveal_strlit("://");
        assert(!contains(url@, "://"@));
    }
    url.to_owned()
}

/// The URL of the endpoint on a server. A URL that has a path beyond the root
/// is refused.
pub fn endpoint_url(base_url: &str) -> (url: Result<String, String>)
    ensures
        match url {
            Ok(u) => !authority(end_trimmed(base_url@, '/')).contains('/') && u@ == end_trimmed(
                base_url@,
                '/',
            ) + API_PATH@,
            Err(e) => authority(end_trimmed(base_url@, '/')).contains('/') && e@
                == endpoint_complaint(base_url@),
        },
{
    let trimmed = trim_end(base_url, '/');
    let front = without_query(trimmed.as_str());
    let host = trim_end(behind_scheme(front.as_str()).as_str(), '/');
    assert(host@ == authority(trimmed@));
    let chars = chars_of(host.as_str());
    let mut i: usize = 0;
    while i < chars.len()
        invariant
            i <= chars.len(),
            chars@ == host@,
            trimmed@ == end_trimmed(base_url@, '/'),
            host@ == authority(trimmed@),
            forall|j: int| 0 <= j < i ==> host@[j] != '/',
        decreases chars.len() - i,
    {
        if chars[i] == '/' {
            assert(host@[i as int] == '/');
            return Err(
                "hermes_api base_url should be just the host URL, e.g. \"http://localhost:8000\" — got: ".to_string().concat(
                quote(base_url).as_str()),
            );
        }
        i += 1;
    }
    Ok(trimmed.concat(API_PATH))
}

/// The body of a request.
pub struct ChatRequest {
    pub model: Option<String>,
    pub messages: Vec<ChatMessage>,
}

/// One message of a conversation.
pub struct ChatMessage {
    pub role: String,
    pub content: String,
}

/// The body of an answer.
pub struct ChatResponse {
    pub choices: Vec<Choice>,
}

pub struct Choice {
    pub message: Option<ResponseMessage>,
}

pub struct ResponseMessage {
    pub content: Option<String>,
}

/// A step to be carried out through the API.
pub struct ApiCall {
    pub url: String,
    pub provider: Option<String>,
    pub model: Option<String>,
    pub workspace_dir: String,
    pub prompt: String,
    pub step_name: String,
    pub issue: String,
    pub log_path: String,
    pub error_path: String,
    pub show_logs: bool,
}

/// A request to the endpoint.
pub struct ApiHttpRequest {
    pub url: String,
    pub authorization: String,
    pub content_type: String,
    pub body: ChatRequest,
}

/// What the agent is told of its surroundings: where its workspace is, and
/// which provider is wanted, if any.
pub open spec fn system_message(workspace_dir: Seq<char>, provider: Option<Seq<char>>) -> Seq<
    char,
> {
    let place = "Your working directory is: "@ + workspace_dir;
    match provider {
        Some(p) => place + "\nProvider: "@ + p,
        None => place,
    }
}

/// What the agent is told of its surroundings.
pub fn system_content(workspace_dir: &str, provider: &Option<String>) -> (content: String)
    ensures
        content@ == system_message(workspace_dir@, opt_view(*provider)),
{
    let place = "Your working directory is: ".to_string().concat(workspace_dir);
    match provider {
        Some(p) => place.concat("\nProvider: ").concat(p.as_str()),
        None => place,
    }
}

/// The request that carries out a step, given the key of the API from the
/// environment. Without a key there is none.
pub fn run_api_step(call: &ApiCall, api_key: Option<String>) -> (request: Result<
    ApiHttpRequest,
    String,
>)
    ensures
        match request {
            Ok(r) => {
                &&& api_key is Some
                &&& r.url@ == call.url@
                &&& r.authorization@ == "Bearer "@ + api_key->0@
                &&& r.content_type@ == "application/json"@
                &&& opt_view(r.body.model) == opt_view(call.model)
                &&& r.body.messages@.len() == 2
                &&& r.body.messages@[0].role@ == "system"@
                &&& r.body.messages@[0].content@ == system_message(
                    call.workspace_dir@,
                    opt_view(call.provider),
                )
                &&& r.body.messages@[1].role@ == "user"@
                &&& r.body.messages@[1].content@ == call.prompt@
            },
            Err(e) => api_key is None && e@
                == "HERMES_API_KEY environment variable is not set or empty (required for hermes_api harness)"@,
        },
{
    let key = match api_key {
        Some(key) => key,
        None => {
            return Err(
                "HERMES_API_KEY environment variable is not set or empty (required for hermes_api harness)".to_string(),
            );
        },
    };
    let mut messages: Vec<ChatMessage> = Vec::new();
    messages.push(
        ChatMessage {
            role: "system".to_string(),
            content: system_content(call.workspace_dir.as_str(), &call.provider),
        },
    );
    messages.push(ChatMessage { role: "user".to_string(), content: call.prompt.clone() });
    Ok(
        ApiHttpRequest {
            url: call.url.clone(),
            authorization: "Bearer ".to_string().concat(key.as_str()),
            content_type: "application/json".to_string(),
            body: ChatRequest { model: copy_option(&call.model), messages },
        },
    )
}

/// The body of an error.
pub struct ApiError {
    pub error: Option<ApiErrorDetail>,
}

/// What the body of an error says of it.
pub struct ApiErrorDetail {
    pub message: Option<String>,
}

/// The message of an error, if its body could be read and holds one.
pub open spec fn reported_error(error: Option<ApiError>) -> Option<Seq<char>> {
    match error {
        Some(body) => match body.error {
            Some(detail) => opt_view(detail.message),
            None => None,
        },
        None => None,
    }
}

/// The detail of an error, given its body as a text and, if it could be read,
/// as a record: the message, or else the text, cut short if it is long.
pub open spec fn error_detail(error: Option<ApiError>, text: Seq<char>) -> Seq<char> {
    match reported_error(error) {
        Some(message) => message,
        None => if byte_len(text) > ERROR_BODY_LIMIT {
            cut(text, ERROR_BODY_LIMIT as int) + "...(truncated)"@
        } else {
            text
        },
    }
}

/// The detail of an error, given its body as a text and, if it could be read,
/// as a record.
pub fn find_error_detail(error: &Option<ApiError>, text: &str) -> (detail: String)
    ensures
        detail@ == error_detail(*error, text@),
{
    if let Some(body) = error {
        if let Some(detail) = &body.error {
            if let Some(message) = &detail.message {
                return message.clone();
            }
        }
    }
    if text.as_bytes().len() > ERROR_BODY_LIMIT {
        cut_text(text, ERROR_BODY_LIMIT).concat("...(truncated)")
    } else {
        text.to_owned()
    }
}

/// What the assistant said: the content of the first choice, or nothing.
pub open spec fn assistant_content(response: ChatResponse) -> Seq<char> {
    if response.choices@.len() == 0 {
        Seq::empty()
    } else {
        match response.choices@[0].message {
            Some(m) => match m.content {
                Some(c) => c@,
                None => Seq::empty(),
            },
            None => Seq::empty(),
        }
    }
}

fn find_assistant_content(response: &ChatResponse) -> (content: String)
    ensures
        content@ == assistant_content(*response),
{
    if response.choices.len() > 0 {
        if let Some(m) = &response.choices[0].message {
            if let Some(c) = &m.content {
                return c.clone();
            }
        }
    }
    let content = String::new();
    assert(content@ =~= Seq::<char>::empty());
    content
}

/// What the log file of a step holds, before the lines are stamped.
pub open spec fn log_text(status: u16, text: Seq<char>, content: Seq<char>) -> Seq<char> {
    "=== API Response (HTTP "@ + status_line(status) + ") ===\n"@ + text
        + "\n\n=== Assistant Content ===\n"@ + content + "\n"@
}

/// What becomes of a step, given the status and the body of the answer, the
/// body as a response or why it is none, and the body as an error if it is one:
/// the log, or the failure.
pub open spec fn finished(
    status: u16,
    text: Seq<char>,
    parsed: Result<ChatResponse, String>,
    error: Option<ApiError>,
    log: Result<String, StepFailure>,
) -> bool {
    match log {
        Ok(l) => 200 <= status < 300 && parsed is Ok && l@ == log_text(
            status,
            text,
            assistant_content(parsed->Ok_0),
        ),
        Err(failure) => if 200 <= status < 300 {
            &&& parsed is Err
            &&& failure.error_file is None
            &&& failure.message@ == "failed to parse hermes_api response as ChatResponse: "@
                + parsed->Err_0@ + ". Raw body (first 500 chars): "@ + cut(
                text,
                RAW_BODY_LIMIT as int,
            )
        } else {
            &&& opt_view(failure.error_file) == Some(
                "hermes_api HTTP "@ + status_line(status) + ": "@ + error_detail(error, text),
            )
            &&& failure.message@ == "hermes_api returned HTTP "@ + status_line(status) + ": "@
                + error_detail(error, text)
        },
    }
}

/// What becomes of a step: the log, or the failure.
pub fn finish_api_step(
    status: u16,
    text: &str,
    parsed: Result<ChatResponse, String>,
    error: &Option<ApiError>,
) -> (log: Result<String, StepFailure>)
    requires
        valid_status(status),
    ensures
        finished(status, text@, parsed, *error, log),
{
    let line = status_text(status);
    if !is_success(status) {
        let detail = find_error_detail(error, text);
        return Err(
            StepFailure {
                error_file: Some(
                    "hermes_api HTTP ".to_string().concat(line.as_str()).concat(": ").concat(
                        detail.as_str(),
                    ),
                ),
                message: "hermes_api returned HTTP ".to_string().concat(line.as_str()).concat(
                    ": ",
                ).concat(detail.as_str()),
            },
        );
    }
    match parsed {
        Ok(response) => {
            let content = find_assistant_content(&response);
            Ok(
                "=== API Response (HTTP ".to_string().concat(line.as_str()).concat(
                    ") ===\n",
                ).concat(text).concat("\n\n=== Assistant Content ===\n").concat(
                    content.as_str(),
                ).concat("\n"),
            )
        },
        Err(e) => Err(
            StepFailure {
                error_file: None,
                message: "failed to parse hermes_api response as ChatResponse: ".to_string().concat(
                    e.as_str(),
                ).concat(". Raw body (first 500 chars): ").concat(
                    cut_text(text, RAW_BODY_LIMIT).as_str(),
                ),
            },
        ),
    }
}

/// The harness that invokes the hermes agent via its REST API.
pub struct HermesApiHarness {
    /// The URL of the server, such as `http://localhost:8000`.
    pub base_url: String,
    pub provider: Option<String>,
    pub model: Option<String>,
}

impl Harness for HermesApiHarness {
    open spec fn harness_name(&self) -> Seq<char> {
        "hermes_api"@
    }

    open spec fn planned(
        &self,
        step: Step,
        workspace_dir: Seq<char>,
        rendered_prompt: Seq<char>,
        error_path: Seq<char>,
        issue: Seq<char>,
        log_config: LogConfig,
        plan: Result<Invocation, String>,
    ) -> bool {
        match plan {
            Ok(Invocation::HermesApi(call)) => {
                &&& !has_path(self.base_url@)
                &&& call.url@ == end_trimmed(self.base_url@, '/') + API_PATH@
                &&& opt_view(call.provider) == opt_view(self.provider)
                &&& opt_view(call.model) == opt_view(self.model)
                &&& call.workspace_dir@ == workspace_dir
                &&& call.prompt@ == rendered_prompt
                &&& call.step_name@ == step.name@
                &&& call.issue@ == issue
                &&& call.log_path@ == log_config.log_path@
                &&& call.error_path@ == error_path
                &&& call.show_logs == log_config.show_logs
            },
            Ok(_) => false,
            Err(e) => has_path(self.base_url@) && e@ == endpoint_complaint(self.base_url@),
        }
    }

    fn name(&self) -> (name: &str) {
        "hermes_api"
    }

    fn run_step(
        &self,
        step: &Step,
        workspace_dir: &str,
        rendered_prompt: &str,
        error_path: &str,
        issue: &str,
        log_config: &LogConfig,
    ) -> (plan: Result<Invocation, String>) {
        match endpoint_url(self.base_url.as_str()) {
            Err(e) => Err(e),
            Ok(url) => Ok(
                Invocation::HermesApi(
                    ApiCall {
                        url,
                        provider: copy_option(&self.provider),
                        model: copy_option(&self.model),
                        workspace_dir: workspace_dir.to_owned(),
                        prompt: rendered_prompt.to_owned(),
                        step_name: step.name.clone(),
                        issue: issue.to_owned(),
                        log_path: log_config.log_path.clone(),
                        error_path: error_path.to_owned(),
                        show_logs: log_config.show_logs,
                    },
                ),
            ),
        }
    }
}

// ---------------------------------------------------------------------------
// Laws
// ---------------------------------------------------------------------------

/// A text in which none of the characters stands that structure a URL.
pub open spec fn plain_part(s: Seq<char>) -> bool {
    forall|i: int|
        0 <= i < s.len() ==> #[trigger] s[i] != '/' && s[i] != '?' && s[i] != '#'
}

proof fn lemma_trimmed_before(s: Seq<char>, c: char, n: int)
    requires
        0 <= n <= s.len(),
        n > 0 ==> s[n - 1] != c,
        forall|i: int| n <= i < s.len() ==> #[trigger] s[i] == c,
    ensures
        end_trimmed(s, c) == s.take(n),
{
    lemma_end_trimmed(s, c);
    let m = end_trimmed(s, c).len() as int;
    if m < n {
        assert(s[n - 1] == c);
    }
    if m > n {
        assert(s[m - 1] == c);
    }
}

/// What stands behind the scheme of a URL that has one.
proof fn lemma_behind_scheme(scheme: Seq<char>, rest: Seq<char>)
    requires
        forall|i: int| 0 <= i < scheme.len() ==> #[trigger] scheme[i] != ':',
    ensures
        contains(scheme + "://"@ + rest, "://"@),
        behind(scheme + "://"@ + rest, "://"@) == rest,
{
    reveal_strlit("://");
    let url = scheme + "://"@ + rest;
    let n = scheme.len() as int;
    assert(url.subrange(n, n + 3) =~= "://"@);
    assert(occurs_at(url, "://"@, n));
    assert forall|j: int| 0 <= j < n implies !occurs_at(url, "://"@, j) by {
        if occurs_at(url, "://"@, j) {
            assert(url.subrange(j, j + 3)[0] == url[j]);
            assert(url[j] == scheme[j]);
        }
    }
    lemma_behind(url, "://"@, n);
    assert(url.skip(n + 3) =~= rest);
}

/// The URL of a server is accepted, with any number of slashes at its end: the
/// endpoint is below it.
pub proof fn law_server_is_accepted(
    scheme: Seq<char>,
    host: Seq<char>,
    slashes: Seq<char>,
    base_url: &str,
    url: Result<String, String>,
)
    requires
        call_ensures(endpoint_url, (base_url,), url),
        base_url@ == scheme + "://"@ + host + slashes,
        plain_part(scheme),
        forall|i: int| 0 <= i < scheme.len() ==> #[trigger] scheme[i] != ':',
        host.len() > 0,
        plain_part(host),
        forall|i: int| 0 <= i < slashes.len() ==> #[trigger] slashes[i] == '/',
    ensures
        url is Ok,
        url->Ok_0@ == scheme + "://"@ + host + "/v1/chat/completions"@,
{
    reveal_strlit("://");
    let server = scheme + "://"@ + host;
    let base = base_url@;
    let n = server.len() as int;
    assert(base.take(n) =~= server);
    assert(base[n - 1] == host[host.len() - 1]);
    assert forall|i: int| n <= i < base.len() implies #[trigger] base[i] == '/' by {
        assert(base[i] == slashes[i - n]);
    }
    lemma_trimmed_before(base, '/', n);
    assert forall|j: int| 0 <= j < n implies #[trigger] server[j] != '?' && server[j] != '#' by {
        if j < scheme.len() {
            assert(server[j] == scheme[j]);
        } else if j < scheme.len() + 3 {
            assert(server[j] == "://"@[j - scheme.len()]);
        } else {
            assert(server[j] == host[j - scheme.len() - 3]);
        }
    }
    lemma_query_start(server, n);
    assert(server.take(n) =~= server);
    lemma_behind_scheme(scheme, host);
    assert(host[host.len() - 1] != '/');
    lemma_trimmed_before(host, '/', host.len() as int);
    assert(host.take(host.len() as int) =~= host);
    assert(!host.contains('/'));
}

/// A host without a scheme is accepted too.
pub proof fn law_bare_host_is_accepted(base_url: &str, url: Result<String, String>)
    requires
        call_ensures(endpoint_url, (base_url,), url),
        plain_part(base_url@),
    ensures
        url is Ok,
        url->Ok_0@ == base_url@ + "/v1/chat/completions"@,
{
    reveal_strlit("://");
    let base = base_url@;
    let n = base.len() as int;
    assert(base.take(n) =~= base);
    if n > 0 {
        assert(base[n - 1] != '/');
    }
    lemma_trimmed_before(base, '/', n);
    lemma_query_start(base, n);
    if contains(base, "://"@) {
        let i = choose|i: int| occurs_at(base, "://"@, i);
        assert(base.subrange(i, i + 3)[1] == base[i + 1]);
        assert(base[i + 1] != '/');
    }
    assert(!base.contains('/'));
}

/// A URL with a path below the host is refused, and the error holds the URL.
pub proof fn law_path_is_refused(
    scheme: Seq<char>,
    host: Seq<char>,
    path: Seq<char>,
    base_url: &str,
    url: Result<String, String>,
)
    requires
        call_ensures(endpoint_url, (base_url,), url),
        base_url@ == scheme + "://"@ + host + "/"@ + path,
        plain_part(scheme),
        forall|i: int| 0 <= i < scheme.len() ==> #[trigger] scheme[i] != ':',
        plain_part(host),
        path.len() > 0,
        path.last() != '/',
        forall|i: int| 0 <= i < path.len() ==> #[trigger] path[i] != '?' && path[i] != '#',
    ensures
        url is Err,
        url->Err_0@
            == "hermes_api base_url should be just the host URL, e.g. \"http://localhost:8000\" — got: "@
            + quoted(base_url@),
{
    reveal_strlit("://");
    reveal_strlit("/");
    let base = base_url@;
    let n = base.len() as int;
    assert(base.take(n) =~= base);
    assert(base[n - 1] == path.last());
    lemma_trimmed_before(base, '/', n);
    let rest = host + "/"@ + path;
    assert(base =~= scheme + "://"@ + rest);
    assert forall|j: int| 0 <= j < n implies #[trigger] base[j] != '?' && base[j] != '#' by {
        if j < scheme.len() {
            assert(base[j] == scheme[j]);
        } else if j < scheme.len() + 3 {
            assert(base[j] == "://"@[j - scheme.len()]);
        } else if j < scheme.len() + 3 + host.len() {
            assert(base[j] == host[j - scheme.len() - 3]);
        } else if j == scheme.len() + 3 + host.len() {
            assert(base[j] == '/');
        } else {
            assert(base[j] == path[j - scheme.len() - 4 - host.len()]);
        }
    }
    lemma_query_start(base, n);
    lemma_behind_scheme(scheme, rest);
    lemma_trimmed_before(rest, '/', rest.len() as int);
    assert(rest.take(rest.len() as int) =~= rest);
    assert(rest[host.len() as int] == '/');
    assert(rest.contains('/'));
}

/// Without a key there is no request, and with one there is.
pub proof fn law_request_needs_a_key(
    call: ApiCall,
    api_key: Option<String>,
    request: Result<ApiHttpRequest, String>,
)
    requires
        call_ensures(run_api_step, (&call, api_key), request),
    ensures
        request is Ok <==> api_key is Some,
        request matches Ok(r) ==> r.url@ == call.url@ && r.authorization@ == "Bearer "@
            + api_key->0@ && r.content_type@ == "application/json"@,
{
}

/// What is said of an error: the message of its body, if the body could be read
/// and holds one; else the body itself if it is short, and the front of it, as
/// far as whole characters fit into two thousand bytes, if it is long.
pub proof fn law_error_detail(error: Option<ApiError>, text: &str, detail: String)
    requires
        call_ensures(find_error_detail, (&error, text), detail),
    ensures
        error matches Some(ApiError { error: Some(ApiErrorDetail { message: Some(message) }) })
            ==> detail@ == message@,
        error is None || error->0.error is None || error->0.error->0.message is None ==> {
            &&& byte_len(text@) <= 2000 ==> detail@ == text@
            &&& byte_len(text@) > 2000 ==> exists|n: int|
                {
                    &&& 0 <= n < text@.len()
                    &&& detail@ == #[trigger] text@.take(n) + "...(truncated)"@
                    &&& byte_len(text@.take(n)) <= 2000
                    &&& byte_len(text@.take(n + 1)) > 2000
                }
        },
{
    law_cut_is_longest(text@, 2000);
    let n = cut(text@, 2000).len() as int;
    if byte_len(text@) > 2000 {
        if n == text@.len() {
            assert(text@.take(n) =~= text@);
        }
        assert(cut(text@, 2000) == text@.take(n));
    }
}

/// What becomes of a step, by the answer: a success whose body is a response is
/// logged, with its status, its body, and the content of its first choice, or
/// nothing if it has none; a success whose body is none fails without an error
/// file; any other answer fails, and the error file says why.
pub proof fn law_answer_decides(
    status: u16,
    text: &str,
    parsed: Result<ChatResponse, String>,
    error: Option<ApiError>,
    detail: String,
    log: Result<String, StepFailure>,
)
    requires
        100 <= status < 1000,
        call_ensures(finish_api_step, (status, text, parsed, &error), log),
        call_ensures(find_error_detail, (&error, text), detail),
    ensures
        log is Ok <==> 200 <= status < 300 && parsed is Ok,
        log is Ok ==> {
            let start = "=== API Response (HTTP "@ + status_line(status) + ") ===\n"@ + text@
                + "\n\n=== Assistant Content ===\n"@;
            let choices = parsed->Ok_0.choices@;
            &&& choices.len() > 0 ==> (choices[0].message matches Some(ResponseMessage {
                content: Some(content),
            }) ==> log->Ok_0@ == start + content@ + "\n"@)
            &&& choices.len() == 0 || choices[0].message is None
                || choices[0].message->0.content is None ==> log->Ok_0@ == start + "\n"@
        },
        200 <= status < 300 && parsed is Err ==> {
            &&& log->Err_0.error_file is None
            &&& exists|n: int|
                {
                    &&& 0 <= n <= text@.len()
                    &&& log->Err_0.message@
                        == "failed to parse hermes_api response as ChatResponse: "@
                        + parsed->Err_0@ + ". Raw body (first 500 chars): "@
                        + #[trigger] text@.take(n)
                    &&& byte_len(text@.take(n)) <= 500
                    &&& n < text@.len() ==> byte_len(text@.take(n + 1)) > 500
                }
        },
        !(200 <= status < 300) ==> {
            &&& log->Err_0.error_file is Some
            &&& log->Err_0.error_file->0@ == "hermes_api HTTP "@ + status_line(status) + ": "@
                + detail@
            &&& log->Err_0.message@ == "hermes_api returned HTTP "@ + status_line(status) + ": "@
                + detail@
        },
{
    law_cut_is_longest(text@, 500);
    let n = cut(text@, 500).len() as int;
    assert(cut(text@, 500) == text@.take(n));
    let start = "=== API Response (HTTP "@ + status_line(status) + ") ===\n"@ + text@
        + "\n\n=== Assistant Content ===\n"@;
    assert(start + Seq::<char>::empty() + "\n"@ =~= start + "\n"@);
}

} // verus!
