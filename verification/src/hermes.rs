//! The hermes command line agent, and a hermes API server.
use vstd::prelude::*;

use crate::harness::{Harness, Invocation, LogConfig};
use crate::http::{is_success, status_line, status_text, valid_status};
use crate::json::{
    has_field, json_complaint, json_document, lemma_has_field, parse, Json, JsonModel,
};
use crate::process::Exit;
use crate::text::{
    copy_option, decimal, decimal_u64, end_trimmed, lemma_end_trimmed, opt_view, quote_path,
    quoted_path, signed_decimal, trim_end, views,
};
use crate::workflow::Step;

verus! {

// ---------------------------------------------------------------------------
// The command line agent
// ---------------------------------------------------------------------------

/// What the hermes command line agent is invoked with.
pub struct InvokeArgs {
    pub prompt: String,
    pub profile: String,
    pub provider: Option<String>,
    pub model: Option<String>,
    pub max_turns: Option<u32>,
    pub error_file: String,
    pub log_file: String,
    pub show_logs: bool,
    pub work_dir: Option<String>,
    pub issue: String,
    pub step: String,
}

/// A command to run: program, arguments and working directory.
pub struct HermesCommand {
    pub program: String,
    pub args: Vec<String>,
    pub current_dir: Option<String>,
}

/// A flag with its value, if there is one.
pub open spec fn flagged(flag: Seq<char>, value: Option<Seq<char>>) -> Seq<Seq<char>> {
    match value {
        Some(v) => seq![flag, v],
        None => Seq::empty(),
    }
}

/// The bound on turns as an argument.
pub open spec fn turns_text(max_turns: Option<u32>) -> Option<Seq<char>> {
    match max_turns {
        Some(n) => Some(decimal(n as nat)),
        None => None,
    }
}

/// The command line of hermes: `chat -p <prompt> --yolo --quiet --profile
/// <profile>`, then the provider, the model and the bound on turns as far as
/// they are given.
pub open spec fn hermes_arguments(args: InvokeArgs) -> Seq<Seq<char>> {
    seq!["chat"@, "-p"@, args.prompt@, "--yolo"@, "--quiet"@, "--profile"@, args.profile@]
        + flagged("--provider"@, opt_view(args.provider)) + flagged(
        "--model"@,
        opt_view(args.model),
    ) + flagged("--max-turns"@, turns_text(args.max_turns))
}

fn push_flag(list: &mut Vec<String>, flag: &str, value: Option<String>)
    ensures
        views(final(list)@) == views(old(list)@) + flagged(flag@, opt_view(value)),
{
    let ghost before = views(list@);
    if let Some(v) = value {
        list.push(flag.to_owned());
        list.push(v);
        assert(views(list@) =~= before + seq![flag@, v@]);
    } else {
        assert(before + Seq::<Seq<char>>::empty() =~= before);
    }
}

/// The command that invokes hermes with the given arguments.
pub fn invoke(args: &InvokeArgs) -> (command: HermesCommand)
    ensures
        command.program@ == "hermes"@,
        views(command.args@) == hermes_arguments(*args),
        opt_view(command.current_dir) == opt_view(args.work_dir),
{
    let mut list: Vec<String> = Vec::new();
    list.push("chat".to_string());
    list.push("-p".to_string());
    list.push(args.prompt.clone());
    list.push("--yolo".to_string());
    list.push("--quiet".to_string());
    list.push("--profile".to_string());
    list.push(args.profile.clone());
    assert(views(list@) =~= seq![
        "chat"@,
        "-p"@,
        args.prompt@,
        "--yolo"@,
        "--quiet"@,
        "--profile"@,
        args.profile@,
    ]);
    push_flag(&mut list, "--provider", copy_option(&args.provider));
    push_flag(&mut list, "--model", copy_option(&args.model));
    let turns = match args.max_turns {
        Some(n) => Some(decimal_u64(n as u64)),
        None => None,
    };
    push_flag(&mut list, "--max-turns", turns);
    HermesCommand {
        program: "hermes".to_string(),
        args: list,
        current_dir: copy_option(&args.work_dir),
    }
}

/// Why hermes could not be started.
pub fn spawn_failure(cause: &str) -> (message: String)
    ensures
        message@ == "failed to spawn hermes: "@ + cause@,
{
    "failed to spawn hermes: ".to_string().concat(cause)
}

/// A failed invocation: what the error file of the step holds, if anything,
/// and the error.
pub struct StepFailure {
    pub error_file: Option<String>,
    pub message: String,
}

/// The verdict on hermes, given how it ended and what it wrote to standard
/// error.
pub fn check_exit(exit: &Exit, stderr_text: String) -> (verdict: Result<(), StepFailure>)
    ensures
        match verdict {
            Ok(_) => exit.success,
            Err(failure) => !exit.success && opt_view(failure.error_file) == Some(stderr_text@)
                && failure.message@ == "hermes exited with code "@ + signed_decimal(
                exit.reported_code(),
            ),
        },
{
    if exit.success {
        Ok(())
    } else {
        Err(
            StepFailure {
                error_file: Some(stderr_text),
                message: "hermes exited with code ".to_string().concat(exit.code_text().as_str()),
            },
        )
    }
}

/// The harness of the hermes command line agent.
pub struct HermesHarness {
    pub profile: String,
    pub provider: Option<String>,
    pub model: Option<String>,
    pub max_turns: Option<u32>,
}

impl Harness for HermesHarness {
    open spec fn harness_name(&self) -> Seq<char> {
        "hermes"@
    }

    open spec fn planned(
        &self,
        step: Step,
        workspace_dir: Seq<char>,
        rendered_prompt: Seq<char>,
        error_path: Seq<char>,
        issue: Seq<char>,
        log_config: LogConfig,
        plan: Result<Invocation, String>,
    ) -> bool {
        match plan {
            Ok(Invocation::Hermes(args)) => {
                &&& args.prompt@ == rendered_prompt
                &&& args.profile@ == self.profile@
                &&& opt_view(args.provider) == opt_view(self.provider)
                &&& opt_view(args.model) == opt_view(self.model)
                &&& args.max_turns == self.max_turns
                &&& args.error_file@ == error_path
                &&& args.log_file@ == log_config.log_path@
                &&& args.show_logs == log_config.show_logs
                &&& opt_view(args.work_dir) == Some(workspace_dir)
                &&& args.issue@ == issue
                &&& args.step@ == step.name@
            },
            _ => false,
        }
    }

    fn name(&self) -> (name: &str) {
        "hermes"
    }

    fn run_step(
        &self,
        step: &Step,
        workspace_dir: &str,
        rendered_prompt: &str,
        error_path: &str,
        issue: &str,
        log_config: &LogConfig,
    ) -> (plan: Result<Invocation, String>) {
        Ok(
            Invocation::Hermes(
                InvokeArgs {
                    prompt: rendered_prompt.to_owned(),
                    profile: self.profile.clone(),
                    provider: copy_option(&self.provider),
                    model: copy_option(&self.model),
                    max_turns: self.max_turns,
                    error_file: error_path.to_owned(),
                    log_file: log_config.log_path.clone(),
                    show_logs: log_config.show_logs,
                    work_dir: Some(workspace_dir.to_owned()),
                    issue: issue.to_owned(),
                    step: step.name.clone(),
                },
            ),
        )
    }
}

// ---------------------------------------------------------------------------
// The API server
// ---------------------------------------------------------------------------

/// How long a call to the API server may take, in seconds.
pub const API_TIMEOUT_SECS: u64 = 600;

/// What the API server is called with.
pub struct InvokeApiArgs {
    pub base_url: String,
    pub api_key: String,
    pub model: String,
    pub prompt: String,
    pub error_file: String,
    pub log_file: String,
    pub show_logs: bool,
    pub issue: String,
}

/// A request to the API server. Its body holds the model, one message, and
/// whether the answer is to be streamed.
pub struct ApiRequest {
    pub url: String,
    pub authorization: String,
    pub content_type: String,
    pub model: String,
    pub role: String,
    pub content: String,
    pub stream: bool,
}

/// The request that hands the prompt to the API server.
pub fn invoke_api(args: &InvokeApiArgs) -> (request: ApiRequest)
    ensures
        request.url@ == end_trimmed(args.base_url@, '/') + "/chat/completions"@,
        request.authorization@ == "Bearer "@ + args.api_key@,
        request.content_type@ == "application/json"@,
        request.model@ == args.model@,
        request.role@ == "user"@,
        request.content@ == args.prompt@,
        !request.stream,
{
    ApiRequest {
        url: trim_end(args.base_url.as_str(), '/').concat("/chat/completions"),
        authorization: "Bearer ".to_string().concat(args.api_key.as_str()),
        content_type: "application/json".to_string(),
        model: args.model.clone(),
        role: "user".to_string(),
        content: args.prompt.clone(),
        stream: false,
    }
}

/// What is logged of an answer, whatever its status.
pub fn response_entry(status: u16, text: &str) -> (entry: String)
    requires
        valid_status(status),
    ensures
        entry@ == "API Response (status: "@ + status_line(status) + "):\n"@ + text@,
{
    "API Response (status: ".to_string().concat(status_text(status).as_str()).concat(
        "):\n",
    ).concat(text)
}

/// What is logged of the message of the assistant.
pub fn assistant_entry(message: &str) -> (entry: String)
    ensures
        entry@ == "Assistant: "@ + message@,
{
    "Assistant: ".to_string().concat(message)
}

/// A part of a document that may be absent, and of it a field.
pub open spec fn then_field(part: Option<JsonModel>, name: Seq<char>) -> Option<JsonModel> {
    match part {
        Some(p) => p.field(name),
        None => None,
    }
}

/// The content of the message of the first choice, if the document has it.
pub open spec fn first_choice_content(document: JsonModel) -> Option<Seq<char>> {
    let choice = match document.field("choices"@) {
        Some(choices) => choices.first(),
        None => None,
    };
    match then_field(then_field(choice, "message"@), "content"@) {
        Some(content) => content.text(),
        None => None,
    }
}

/// What the assistant said according to an answer.
pub open spec fn assistant_message(document: JsonModel) -> Seq<char> {
    match first_choice_content(document) {
        Some(content) => content,
        None => "<no content in response>"@,
    }
}

/// What the assistant said according to an answer.
pub fn find_assistant_message(document: &Json) -> (message: String)
    ensures
        message@ == assistant_message(document@),
{
    if let Some(choices) = document.get("choices") {
        if let Some(choice) = choices.first() {
            if let Some(message) = choice.get("message") {
                if let Some(content) = message.get("content") {
                    if let Some(text) = content.as_text() {
                        return text.clone();
                    }
                }
            }
        }
    }
    "<no content in response>".to_string()
}

/// A part of a call to the API server that can fail.
pub enum CallPart {
    /// Setting up the client.
    Client,
    /// Sending the request.
    Send,
    /// Reading the body of the answer.
    Read,
    /// Creating the log file.
    CreateLog,
    /// Writing the answer to the log file.
    LogAnswer,
    /// Writing the message of the assistant to the log file.
    LogMessage,
    /// Flushing the log file.
    FlushLog,
}

/// What is said of a part of a call that failed, before the cause.
pub open spec fn call_complaint(part: CallPart, log_file: Seq<char>) -> Seq<char> {
    match part {
        CallPart::Client => "failed to create HTTP client: "@,
        CallPart::Send => "HTTP request failed: "@,
        CallPart::Read => "failed to read response: "@,
        CallPart::CreateLog => "failed to create log file "@ + quoted_path(log_file) + ": "@,
        CallPart::LogAnswer => "failed to write to log file: "@,
        CallPart::LogMessage => "failed to write message to log: "@,
        CallPart::FlushLog => "failed to flush log file: "@,
    }
}

/// A failure whose message is also what the error file holds.
fn reported(message: String) -> (failure: StepFailure)
    ensures
        failure.message@ == message@,
        opt_view(failure.error_file) == Some(message@),
{
    StepFailure { error_file: Some(message.clone()), message }
}

/// The failure of a step whose call to the API server failed at some part, for
/// a cause. The error file holds the message.
pub fn call_failure(args: &InvokeApiArgs, part: CallPart, cause: &str) -> (failure: StepFailure)
    ensures
        failure.message@ == call_complaint(part, args.log_file@) + cause@,
        opt_view(failure.error_file) == Some(failure.message@),
{
    let start = match part {
        CallPart::Client => "failed to create HTTP client: ".to_string(),
        CallPart::Send => "HTTP request failed: ".to_string(),
        CallPart::Read => "failed to read response: ".to_string(),
        CallPart::CreateLog => "failed to create log file ".to_string().concat(
            quote_path(args.log_file.as_str()).as_str(),
        ).concat(": "),
        CallPart::LogAnswer => "failed to write to log file: ".to_string(),
        CallPart::LogMessage => "failed to write message to log: ".to_string(),
        CallPart::FlushLog => "failed to flush log file: ".to_string(),
    };
    reported(start.concat(cause))
}

/// The message of the assistant in an answer of the API server, or the
/// failure of the step. Whatever fails, the error file holds what it is.
pub fn read_response(status: u16, text: &str) -> (message: Result<String, StepFailure>)
    requires
        valid_status(status),
    ensures
        match message {
            Ok(m) => 200 <= status < 300 && json_document(text@) is Some && m@
                == assistant_message(json_document(text@)->0),
            Err(failure) => if 200 <= status < 300 {
                &&& json_document(text@) is None
                &&& opt_view(failure.error_file) == Some(failure.message@)
                &&& failure.message@ == "failed to parse response JSON: "@ + json_complaint(text@)
            } else {
                &&& opt_view(failure.error_file) == Some(
                    "HTTP Error: "@ + status_line(status) + "\n\nResponse:\n"@ + text@,
                )
                &&& failure.message@ == "API request failed with status "@ + status_line(status)
            },
        },
{
    if !is_success(status) {
        let line = status_text(status);
        return Err(
            StepFailure {
                error_file: Some(
                    "HTTP Error: ".to_string().concat(line.as_str()).concat(
                        "\n\nResponse:\n",
                    ).concat(text),
                ),
                message: "API request failed with status ".to_string().concat(line.as_str()),
            },
        );
    }
    match parse(text) {
        Ok(document) => Ok(find_assistant_message(&document)),
        Err(e) => Err(
            reported("failed to parse response JSON: ".to_string().concat(e.as_str())),
        ),
    }
}

/// The harness of a hermes API server.
pub struct HermesApiHarness {
    pub base_url: String,
    pub api_key: String,
    pub model: String,
}

impl Harness for HermesApiHarness {
    open spec fn harness_name(&self) -> Seq<char> {
        "hermes-api"@
    }

    open spec fn planned(
        &self,
        step: Step,
        workspace_dir: Seq<char>,
        rendered_prompt: Seq<char>,
        error_path: Seq<char>,
        issue: Seq<char>,
        log_config: LogConfig,
        plan: Result<Invocation, String>,
    ) -> bool {
        match plan {
            Ok(Invocation::HermesServer(args)) => {
                &&& args.base_url@ == self.base_url@
                &&& args.api_key@ == self.api_key@
                &&& args.model@ == self.model@
                &&& args.prompt@ == rendered_prompt
                &&& args.error_file@ == error_path
                &&& args.log_file@ == log_config.log_path@
                &&& args.show_logs == log_config.show_logs
                &&& args.issue@ == issue
            },
            _ => false,
        }
    }

    fn name(&self) -> (name: &str) {
        "hermes-api"
    }

    fn run_step(
        &self,
        _step: &Step,
        _workspace_dir: &str,
        rendered_prompt: &str,
        error_path: &str,
        issue: &str,
        log_config: &LogConfig,
    ) -> (plan: Result<Invocation, String>) {
        Ok(
            Invocation::HermesServer(
                InvokeApiArgs {
                    base_url: self.base_url.clone(),
                    api_key: self.api_key.clone(),
                    model: self.model.clone(),
                    prompt: rendered_prompt.to_owned(),
                    error_file: error_path.to_owned(),
                    log_file: log_config.log_path.clone(),
                    show_logs: log_config.show_logs,
                    issue: issue.to_owned(),
                },
            ),
        )
    }
}

// ---------------------------------------------------------------------------
// Laws
// ---------------------------------------------------------------------------

/// A hermes process that does not succeed fails its step, and no other one
/// does. The error names the exit code, or -1 if there is none; the error file
/// holds what hermes wrote to standard error.
pub proof fn law_exit_decides(exit: Exit, stderr_text: String, verdict: Result<(), StepFailure>)
    requires
        call_ensures(check_exit, (&exit, stderr_text), verdict),
    ensures
        verdict is Ok <==> exit.success,
        verdict matches Err(failure) ==> {
            &&& failure.error_file is Some
            &&& failure.error_file->0@ == stderr_text@
            &&& exit.code matches Some(code) ==> failure.message@ == "hermes exited with code "@
                + signed_decimal(code as int)
            &&& exit.code is None ==> failure.message@ == "hermes exited with code "@
                + signed_decimal(-1)
        },
{
}

/// From the harness of an API server to the request that is sent: the prompt is
/// its one message, and its own key and model are used. The address is that of
/// the server, without slashes at its end, with `/chat/completions` behind it.
pub proof fn law_server_gets_the_prompt(
    harness: HermesApiHarness,
    step: Step,
    dir: &str,
    prompt: &str,
    error_path: &str,
    issue: &str,
    log_config: LogConfig,
    plan: Result<Invocation, String>,
    request: ApiRequest,
)
    requires
        call_ensures(
            <HermesApiHarness as Harness>::run_step,
            (&harness, &step, dir, prompt, error_path, issue, &log_config),
            plan,
        ),
        call_ensures(invoke_api, (&plan->Ok_0->HermesServer_0,), request),
    ensures
        plan is Ok,
        plan->Ok_0 is HermesServer,
        plan->Ok_0->HermesServer_0.error_file@ == error_path@,
        plan->Ok_0->HermesServer_0.log_file@ == log_config.log_path@,
        plan->Ok_0->HermesServer_0.show_logs == log_config.show_logs,
        plan->Ok_0->HermesServer_0.issue@ == issue@,
        request.authorization@ == "Bearer "@ + harness.api_key@,
        request.model@ == harness.model@,
        request.role@ == "user"@,
        request.content@ == prompt@,
        !request.stream,
        exists|n: int|
            {
                &&& 0 <= n <= harness.base_url@.len()
                &&& request.url@ == #[trigger] harness.base_url@.take(n) + "/chat/completions"@
                &&& n > 0 ==> harness.base_url@[n - 1] != '/'
                &&& forall|i: int|
                    n <= i < harness.base_url@.len() ==> #[trigger] harness.base_url@[i] == '/'
            },
{
    lemma_end_trimmed(harness.base_url@, '/');
    let n = end_trimmed(harness.base_url@, '/').len() as int;
    assert(request.url@ == harness.base_url@.take(n) + "/chat/completions"@);
}

/// What is read from a successful answer whose first choice has a message with
/// a text as its content: that text.
pub proof fn law_content_is_read(
    status: u16,
    text: &str,
    message: Result<String, StepFailure>,
    document: JsonModel,
    choices: Seq<JsonModel>,
    first_message: JsonModel,
    content: Seq<char>,
)
    requires
        200 <= status < 300,
        call_ensures(read_response, (status, text), message),
        json_document(text@) == Some(document),
        has_field(document, "choices"@, JsonModel::Array(choices)),
        choices.len() > 0,
        has_field(choices[0], "message"@, first_message),
        has_field(first_message, "content"@, JsonModel::Text(content)),
    ensures
        message is Ok,
        message->Ok_0@ == content,
{
    lemma_has_field(document, "choices"@, JsonModel::Array(choices));
    lemma_has_field(choices[0], "message"@, first_message);
    lemma_has_field(first_message, "content"@, JsonModel::Text(content));
}

/// An answer without a choice has no content, and says so; it does not fail.
pub proof fn law_missing_content_is_no_failure(
    status: u16,
    text: &str,
    message: Result<String, StepFailure>,
    document: JsonModel,
)
    requires
        200 <= status < 300,
        call_ensures(read_response, (status, text), message),
        json_document(text@) == Some(document),
        forall|choices: Seq<JsonModel>| #[trigger]
            has_field(document, "choices"@, JsonModel::Array(choices)) ==> choices.len() == 0,
    ensures
        message is Ok,
        message->Ok_0@ == "<no content in response>"@,
{
    if let Some(value) = document.field("choices"@) {
        lemma_has_field(document, "choices"@, value);
        if let JsonModel::Array(choices) = value {
            assert(choices.len() == 0);
        }
    }
}

/// Which answers fail the step: those whose status is no success, and those
/// that are not JSON. The error of a refused one names the status, and the
/// error file holds its whole body.
pub proof fn law_refused_answer_fails(
    status: u16,
    text: &str,
    message: Result<String, StepFailure>,
)
    requires
        100 <= status < 1000,
        call_ensures(read_response, (status, text), message),
    ensures
        message is Ok <==> 200 <= status < 300 && json_document(text@) is Some,
        !(200 <= status < 300) ==> {
            &&& message->Err_0.message@ == "API request failed with status "@ + status_line(status)
            &&& message->Err_0.error_file is Some
            &&& message->Err_0.error_file->0@ == "HTTP Error: "@ + status_line(status)
                + "\n\nResponse:\n"@ + text@
        },
        200 <= status < 300 && json_document(text@) is None ==> {
            &&& message->Err_0.message@ == "failed to parse response JSON: "@ + json_complaint(text@)
            &&& message->Err_0.error_file is Some
            &&& message->Err_0.error_file->0@ == message->Err_0.message@
        },
{
}

/// Whatever part of a call to the API server fails, the error says which part
/// and for what cause, and is what the error file holds.
pub proof fn law_call_failure_tells_the_cause(
    args: InvokeApiArgs,
    part: CallPart,
    cause: &str,
    failure: StepFailure,
)
    requires
        call_ensures(call_failure, (&args, part, cause), failure),
    ensures
        failure.error_file is Some,
        failure.error_file->0@ == failure.message@,
        part is Client ==> failure.message@ == "failed to create HTTP client: "@ + cause@,
        part is Send ==> failure.message@ == "HTTP request failed: "@ + cause@,
        part is Read ==> failure.message@ == "failed to read response: "@ + cause@,
        part is CreateLog ==> failure.message@ == "failed to create log file "@ + quoted_path(
            args.log_file@,
        ) + ": "@ + cause@,
        part is LogAnswer ==> failure.message@ == "failed to write to log file: "@ + cause@,
        part is LogMessage ==> failure.message@ == "failed to write message to log: "@ + cause@,
        part is FlushLog ==> failure.message@ == "failed to flush log file: "@ + cause@,
{
}

/// What the log of a call to the API server says: of the answer its status and
/// its body, and then what the assistant said.
pub proof fn law_log_of_a_call(
    status: u16,
    text: &str,
    message: &str,
    answer_entry: String,
    message_entry: String,
)
    requires
        100 <= status < 1000,
        call_ensures(response_entry, (status, text), answer_entry),
        call_ensures(assistant_entry, (message,), message_entry),
    ensures
        answer_entry@ == "API Response (status: "@ + status_line(status) + "):\n"@ + text@,
        message_entry@ == "Assistant: "@ + message@,
{
}

/// Why hermes could not be started is told with its cause.
pub proof fn law_spawn_failure_tells_the_cause(cause: &str, message: String)
    requires
        call_ensures(spawn_failure, (cause,), message),
    ensures
        message@ == "failed to spawn hermes: "@ + cause@,
{
}

} // verus!
