//! Agent harnesses: the backends that carry out a workflow step.
use vstd::prelude::*;

use crate::hermes::{invoke, HermesCommand, HermesHarness, InvokeApiArgs, InvokeArgs};
use crate::hermes_api::{run_api_step, ApiCall, ApiHttpRequest, HermesApiHarness};
use crate::text::{copy_option, decimal, end_trimmed, lemma_end_trimmed, opt_view, views};
use crate::workflow::Step;

verus! {

/// Where the output of a harness goes.
pub struct LogConfig {
    /// The file to which standard output and standard error are written.
    pub log_path: String,
    /// Whether the output is also shown on the terminal.
    pub show_logs: bool,
}

/// A harness as the configuration describes it.
pub enum HarnessConfig {
    /// The hermes command line agent.
    Hermes {
        /// The profile, passed as `--profile`.
        profile: String,
        /// The provider, passed as `--provider`.
        provider: Option<String>,
        /// The model, passed as `--model`.
        model: Option<String>,
        /// The bound on turns, passed as `--max-turns`.
        max_turns: Option<u32>,
    },
    /// The hermes agent behind its REST API.
    HermesApi {
        /// The URL of the API server.
        url: String,
        provider: Option<String>,
        model: Option<String>,
        max_turns: Option<u32>,
    },
}

/// What a harness wants done to carry out a step.
pub enum Invocation {
    /// Run the hermes command line agent.
    Hermes(InvokeArgs),
    /// Call the chat completions endpoint of a hermes agent.
    HermesApi(ApiCall),
    /// Call a hermes API server.
    HermesServer(InvokeApiArgs),
}

/// An agent backend.
pub trait Harness {
    /// The name of the harness.
    spec fn harness_name(&self) -> Seq<char>;

    /// Whether this is what the harness wants done for a step.
    spec fn planned(
        &self,
        step: Step,
        workspace_dir: Seq<char>,
        rendered_prompt: Seq<char>,
        error_path: Seq<char>,
        issue: Seq<char>,
        log_config: LogConfig,
        plan: Result<Invocation, String>,
    ) -> bool;

    /// The name of the harness, for logging.
    fn name(&self) -> (name: &str)
        ensures
            name@ == self.harness_name(),
    ;

    /// What is to be done to carry out a step, or why it cannot be. `issue`
    /// names the event for logging.
    fn run_step(
        &self,
        step: &Step,
        workspace_dir: &str,
        rendered_prompt: &str,
        error_path: &str,
        issue: &str,
        log_config: &LogConfig,
    ) -> (plan: Result<Invocation, String>)
        ensures
            self.planned(
                *step,
                workspace_dir@,
                rendered_prompt@,
                error_path@,
                issue@,
                *log_config,
                plan,
            ),
    ;
}

/// The harness that a configuration describes, ready to run steps.
pub enum BuiltHarness {
    Hermes(HermesHarness),
    HermesApi(HermesApiHarness),
}

impl Harness for BuiltHarness {
    open spec fn harness_name(&self) -> Seq<char> {
        match *self {
            BuiltHarness::Hermes(h) => h.harness_name(),
            BuiltHarness::HermesApi(h) => h.harness_name(),
        }
    }

    open spec fn planned(
        &self,
        step: Step,
        workspace_dir: Seq<char>,
        rendered_prompt: Seq<char>,
        error_path: Seq<char>,
        issue: Seq<char>,
        log_config: LogConfig,
        plan: Result<Invocation, String>,
    ) -> bool {
        match *self {
            BuiltHarness::Hermes(h) => h.planned(
                step,
                workspace_dir,
                rendered_prompt,
                error_path,
                issue,
                log_config,
                plan,
            ),
            BuiltHarness::HermesApi(h) => h.planned(
                step,
                workspace_dir,
                rendered_prompt,
                error_path,
                issue,
                log_config,
                plan,
            ),
        }
    }

    fn name(&self) -> (name: &str) {
        match self {
            BuiltHarness::Hermes(h) => h.name(),
            BuiltHarness::HermesApi(h) => h.name(),
        }
    }

    fn run_step(
        &self,
        step: &Step,
        workspace_dir: &str,
        rendered_prompt: &str,
        error_path: &str,
        issue: &str,
        log_config: &LogConfig,
    ) -> (plan: Result<Invocation, String>) {
        match self {
            BuiltHarness::Hermes(h) => h.run_step(
                step,
                workspace_dir,
                rendered_prompt,
                error_path,
                issue,
                log_config,
            ),
            BuiltHarness::HermesApi(h) => h.run_step(
                step,
                workspace_dir,
                rendered_prompt,
                error_path,
                issue,
                log_config,
            ),
        }
    }
}

/// `harness` is the one that a configuration describes.
pub open spec fn built_from(config: HarnessConfig, harness: BuiltHarness) -> bool {
    match config {
        HarnessConfig::Hermes { profile, provider, model, max_turns } => harness matches
            BuiltHarness::Hermes(h) && h.profile@ == profile@ && opt_view(h.provider) == opt_view(
            provider,
        ) && opt_view(h.model) == opt_view(model) && h.max_turns == max_turns,
        HarnessConfig::HermesApi { url, provider, model, max_turns } => harness matches
            BuiltHarness::HermesApi(h) && h.base_url@ == url@ && opt_view(h.provider) == opt_view(
            provider,
        ) && opt_view(h.model) == opt_view(model),
    }
}

impl HarnessConfig {
    /// The harness that this configuration describes.
    pub fn build(&self) -> (harness: BuiltHarness)
        ensures
            built_from(*self, harness),
    {
        match self {
            HarnessConfig::Hermes { profile, provider, model, max_turns } => BuiltHarness::Hermes(
                HermesHarness {
                    profile: profile.clone(),
                    provider: copy_option(provider),
                    model: copy_option(model),
                    max_turns: *max_turns,
                },
            ),
            HarnessConfig::HermesApi { url, provider, model, max_turns: _ } => {
                BuiltHarness::HermesApi(
                    HermesApiHarness {
                        base_url: url.clone(),
                        provider: copy_option(provider),
                        model: copy_option(model),
                    },
                )
            },
        }
    }
}

// ---------------------------------------------------------------------------
// Laws
// ---------------------------------------------------------------------------

/// From the configuration of a hermes step to the command that is run. The
/// command says `--provider` and the provider exactly if the configuration
/// gives one, `--model` and the model exactly if it gives one, and
/// `--max-turns` and the number exactly if it gives one, in this order and with
/// nothing else behind the profile. The prompt follows `-p`, the profile
/// follows `--profile`, and hermes runs in the directory of the step.
pub proof fn law_command_says_what_is_configured(
    profile: String,
    provider: Option<String>,
    model: Option<String>,
    max_turns: Option<u32>,
    harness: BuiltHarness,
    step: Step,
    dir: &str,
    prompt: &str,
    error_path: &str,
    issue: &str,
    log_config: LogConfig,
    plan: Result<Invocation, String>,
    command: HermesCommand,
)
    requires
        call_ensures(
            HarnessConfig::build,
            (&HarnessConfig::Hermes { profile, provider, model, max_turns },),
            harness,
        ),
        call_ensures(
            <BuiltHarness as Harness>::run_step,
            (&harness, &step, dir, prompt, error_path, issue, &log_config),
            plan,
        ),
        call_ensures(invoke, (&plan->Ok_0->Hermes_0,), command),
    ensures
        plan is Ok,
        plan->Ok_0 is Hermes,
        command.program@ == "hermes"@,
        command.current_dir is Some,
        command.current_dir->0@ == dir@,
        ({
            let args = command.args@;
            let at_provider: int = 7;
            let at_model: int = at_provider + if provider is Some {
                2int
            } else {
                0
            };
            let at_turns: int = at_model + if model is Some {
                2int
            } else {
                0
            };
            let end: int = at_turns + if max_turns is Some {
                2int
            } else {
                0
            };
            &&& args.len() == end
            &&& args[0]@ == "chat"@
            &&& args[1]@ == "-p"@
            &&& args[2]@ == prompt@
            &&& args[3]@ == "--yolo"@
            &&& args[4]@ == "--quiet"@
            &&& args[5]@ == "--profile"@
            &&& args[6]@ == profile@
            &&& provider matches Some(p) ==> args[at_provider]@ == "--provider"@
                && args[at_provider + 1]@ == p@
            &&& model matches Some(m) ==> args[at_model]@ == "--model"@ && args[at_model + 1]@ == m@
            &&& max_turns matches Some(n) ==> args[at_turns]@ == "--max-turns"@ && args[at_turns
                + 1]@ == decimal(n as nat)
        }),
{
    let all = views(command.args@);
    assert(all.len() == command.args@.len());
    assert forall|i: int| 0 <= i < all.len() implies #[trigger] command.args@[i]@ == all[i] by {}
}

/// The output of hermes goes to the files of its step, and is shown if the
/// output of harnesses is; its log lines name the event and the step.
pub proof fn law_hermes_writes_to_its_step(
    config: HarnessConfig,
    harness: BuiltHarness,
    step: Step,
    dir: &str,
    prompt: &str,
    error_path: &str,
    issue: &str,
    log_config: LogConfig,
    plan: Result<Invocation, String>,
)
    requires
        config is Hermes,
        call_ensures(HarnessConfig::build, (&config,), harness),
        call_ensures(
            <BuiltHarness as Harness>::run_step,
            (&harness, &step, dir, prompt, error_path, issue, &log_config),
            plan,
        ),
    ensures
        plan is Ok,
        plan->Ok_0 is Hermes,
        plan->Ok_0->Hermes_0.error_file@ == error_path@,
        plan->Ok_0->Hermes_0.log_file@ == log_config.log_path@,
        plan->Ok_0->Hermes_0.show_logs == log_config.show_logs,
        plan->Ok_0->Hermes_0.issue@ == issue@,
        plan->Ok_0->Hermes_0.step@ == step.name@,
{
}

/// From the configuration of a hermes API step to the request that is sent. It
/// goes to the configured server; its body holds the configured model, or none;
/// the first message names the directory of the step, and the configured
/// provider exactly if there is one; the second one is the prompt.
pub proof fn law_request_says_what_is_configured(
    url: String,
    provider: Option<String>,
    model: Option<String>,
    max_turns: Option<u32>,
    harness: BuiltHarness,
    step: Step,
    dir: &str,
    prompt: &str,
    error_path: &str,
    issue: &str,
    log_config: LogConfig,
    plan: Result<Invocation, String>,
    key: String,
    request: Result<ApiHttpRequest, String>,
)
    requires
        call_ensures(
            HarnessConfig::build,
            (&HarnessConfig::HermesApi { url, provider, model, max_turns },),
            harness,
        ),
        call_ensures(
            <BuiltHarness as Harness>::run_step,
            (&harness, &step, dir, prompt, error_path, issue, &log_config),
            plan,
        ),
        plan is Ok,
        call_ensures(run_api_step, (&plan->Ok_0->HermesApi_0, Some(key)), request),
    ensures
        plan->Ok_0 is HermesApi,
        request is Ok,
        exists|n: int|
            {
                &&& 0 <= n <= url@.len()
                &&& request->Ok_0.url@ == #[trigger] url@.take(n) + "/v1/chat/completions"@
                &&& n > 0 ==> url@[n - 1] != '/'
                &&& forall|i: int| n <= i < url@.len() ==> #[trigger] url@[i] == '/'
            },
        request->Ok_0.authorization@ == "Bearer "@ + key@,
        request->Ok_0.body.model is Some <==> model is Some,
        model matches Some(m) ==> request->Ok_0.body.model->0@ == m@,
        request->Ok_0.body.messages@.len() == 2,
        request->Ok_0.body.messages@[0].role@ == "system"@,
        provider is None ==> request->Ok_0.body.messages@[0].content@
            == "Your working directory is: "@ + dir@,
        provider matches Some(p) ==> request->Ok_0.body.messages@[0].content@
            == "Your working directory is: "@ + dir@ + "\nProvider: "@ + p@,
        request->Ok_0.body.messages@[1].role@ == "user"@,
        request->Ok_0.body.messages@[1].content@ == prompt@,
{
    lemma_end_trimmed(url@, '/');
    let n = end_trimmed(url@, '/').len() as int;
    assert(request->Ok_0.url@ == url@.take(n) + "/v1/chat/completions"@);
}

/// The answer of the API goes to the files of its step, and is shown if the
/// output of harnesses is; its log lines name the event and the step.
pub proof fn law_api_call_writes_to_its_step(
    config: HarnessConfig,
    harness: BuiltHarness,
    step: Step,
    dir: &str,
    prompt: &str,
    error_path: &str,
    issue: &str,
    log_config: LogConfig,
    plan: Result<Invocation, String>,
)
    requires
        config is HermesApi,
        call_ensures(HarnessConfig::build, (&config,), harness),
        call_ensures(
            <BuiltHarness as Harness>::run_step,
            (&harness, &step, dir, prompt, error_path, issue, &log_config),
            plan,
        ),
        plan is Ok,
    ensures
        plan->Ok_0 is HermesApi,
        plan->Ok_0->HermesApi_0.error_path@ == error_path@,
        plan->Ok_0->HermesApi_0.log_path@ == log_config.log_path@,
        plan->Ok_0->HermesApi_0.show_logs == log_config.show_logs,
        plan->Ok_0->HermesApi_0.issue@ == issue@,
        plan->Ok_0->HermesApi_0.step_name@ == step.name@,
{
}

/// Each kind of harness has its name.
pub proof fn law_harness_names(config: HarnessConfig, harness: BuiltHarness, name: &str)
    requires
        call_ensures(HarnessConfig::build, (&config,), harness),
        call_ensures(<BuiltHarness as Harness>::name, (&harness,), name),
    ensures
        config is Hermes ==> name@ == "hermes"@,
        config is HermesApi ==> name@ == "hermes_api"@,
{
}

} // verus!
