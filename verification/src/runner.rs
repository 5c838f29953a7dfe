//! The run of a workflow for one event. The operations are carried out by the
//! caller; where they take place, and what comes next after each of them, is
//! decided here.
use vstd::prelude::*;

use crate::clock::utc_now;
use crate::config::GitConfig;
use crate::git::{repo_location, repo_path};
use crate::harness::{built_from, BuiltHarness, Harness, Invocation, LogConfig};
use crate::paths::{join, joined_path};
use crate::template::{
    distinct_keys, lemma_lookup_among, lemma_lookup_at, lemma_new_entry, lookup, render, rendered,
    with_entries, Vars,
};
use crate::text::{
    char_replaced, decimal, decimal_i64, decimal_u64, lemma_decimal_is_digits,
    lemma_first_separator, lemma_two_digits_injective, opt_view, padded_two, replace_char,
    signed_decimal, two_digits,
};
use crate::trigger::EventKey;
use crate::workflow::Step;

verus! {

// ---------------------------------------------------------------------------
// Where a run takes place
// ---------------------------------------------------------------------------

/// The directory of a run: `<data_root>/<owner>/<repo>/<workspace_id>`.
pub open spec fn workspace_location(data_root: Seq<char>, key: EventKey) -> Seq<char> {
    joined_path(joined_path(joined_path(data_root, key.owner@), key.repo@), key.workspace_id@)
}

/// A label in which slashes and hash signs are hyphens.
pub open spec fn sanitized_label(label: Seq<char>) -> Seq<char> {
    char_replaced(char_replaced(label, '/', '-'), '#', '-')
}

/// The branch of a run: `ao/<label>-<seconds since 1970>`.
pub open spec fn branch_text(label: Seq<char>, secs: int) -> Seq<char> {
    "ao/"@ + sanitized_label(label) + "-"@ + signed_decimal(secs)
}

/// The name of the worktree of a run.
pub open spec fn worktree_text(number: u64) -> Seq<char> {
    "worktree-"@ + decimal(number as nat)
}

/// The name of a file of a step: `step_<index>_<name><ending>`, with hyphens
/// for the spaces of the name.
pub open spec fn step_file_text(index: nat, name: Seq<char>, ending: Seq<char>) -> Seq<char> {
    "step_"@ + two_digits(index) + "_"@ + char_replaced(name, ' ', '-') + ending
}

/// The directory of a run.
pub fn workspace_dir(data_root: &str, key: &EventKey) -> (dir: String)
    ensures
        dir@ == workspace_location(data_root@, *key),
{
    let below_owner = join(data_root, key.owner.as_str());
    let below_repo = join(below_owner.as_str(), key.repo.as_str());
    join(below_repo.as_str(), key.workspace_id.as_str())
}

/// A label in which slashes and hash signs are hyphens.
pub fn sanitize_label(label: &str) -> (out: String)
    ensures
        out@ == sanitized_label(label@),
{
    replace_char(replace_char(label, '/', '-').as_str(), '#', '-')
}

/// The branch of a run that begins at the given second.
pub fn branch_name(label: &str, secs: i64) -> (branch: String)
    ensures
        branch@ == branch_text(label@, secs as int),
{
    "ao/".to_string().concat(sanitize_label(label).as_str()).concat("-").concat(
        decimal_i64(secs).as_str(),
    )
}

/// The name of the worktree of a run.
pub fn worktree_dir_name(number: u64) -> (name: String)
    ensures
        name@ == worktree_text(number),
{
    "worktree-".to_string().concat(decimal_u64(number).as_str())
}

/// The path of a file of a step in the directory of the run.
pub fn step_file(workspace_dir: &str, index: usize, name: &str, ending: &str) -> (path: String)
    ensures
        path@ == joined_path(workspace_dir@, step_file_text(index as nat, name@, ending@)),
{
    let file = "step_".to_string().concat(padded_two(index as u64).as_str()).concat("_").concat(
        replace_char(name, ' ', '-').as_str(),
    ).concat(ending);
    join(workspace_dir, file.as_str())
}

/// A sanitized label holds no slash and no hash sign, so that it can stand in
/// the name of a branch.
pub proof fn law_label_is_sanitized(label: Seq<char>, i: int)
    requires
        0 <= i < sanitized_label(label).len(),
    ensures
        sanitized_label(label).len() == label.len(),
        sanitized_label(label)[i] != '/',
        sanitized_label(label)[i] != '#',
        label[i] != '/' && label[i] != '#' ==> sanitized_label(label)[i] == label[i],
{
    assert(char_replaced(label, '/', '-')[i] == (if label[i] == '/' {
        '-'
    } else {
        label[i]
    }));
}

/// Events of one repository with different workspaces have different
/// directories.
pub proof fn law_workspaces_differ(data_root: Seq<char>, a: EventKey, b: EventKey)
    requires
        a.owner@ == b.owner@,
        a.repo@ == b.repo@,
        crate::paths::plain_name(a.workspace_id@),
        crate::paths::plain_name(b.workspace_id@),
        a.workspace_id@ != b.workspace_id@,
    ensures
        workspace_location(data_root, a) != workspace_location(data_root, b),
{
    crate::paths::law_siblings_differ(
        joined_path(joined_path(data_root, a.owner@), a.repo@),
        a.workspace_id@,
        b.workspace_id@,
    );
}

/// The files of different steps of a run never share a path, whatever the
/// steps are called.
pub proof fn law_step_files_differ(
    workspace_dir: Seq<char>,
    index: nat,
    name: Seq<char>,
    ending: Seq<char>,
    other_index: nat,
    other_name: Seq<char>,
    other_ending: Seq<char>,
)
    requires
        index != other_index,
    ensures
        joined_path(workspace_dir, step_file_text(index, name, ending)) != joined_path(
            workspace_dir,
            step_file_text(other_index, other_name, other_ending),
        ),
{
    reveal_strlit("step_");
    reveal_strlit("_");
    let file = step_file_text(index, name, ending);
    let other = step_file_text(other_index, other_name, other_ending);
    assert(file[0] == 's' && other[0] == 's');
    let head = if workspace_dir.len() == 0 || workspace_dir.last() == '/' {
        workspace_dir
    } else {
        workspace_dir + "/"@
    };
    assert(joined_path(workspace_dir, file) == head + file);
    assert(joined_path(workspace_dir, other) == head + other);
    if head + file == head + other {
        assert((head + file).skip(head.len() as int) =~= file);
        assert((head + other).skip(head.len() as int) =~= other);
        let rest = char_replaced(name, ' ', '-') + ending;
        let other_rest = char_replaced(other_name, ' ', '-') + other_ending;
        assert(file.skip(5) =~= two_digits(index) + seq!['_'] + rest);
        assert(other.skip(5) =~= two_digits(other_index) + seq!['_'] + other_rest);
        lemma_decimal_is_digits(index, '_');
        lemma_decimal_is_digits(other_index, '_');
        lemma_first_separator(two_digits(index), rest, two_digits(other_index), other_rest, '_');
        lemma_two_digits_injective(index, other_index);
    }
}

// ---------------------------------------------------------------------------
// The plan of a run
// ---------------------------------------------------------------------------

/// What all steps of a run share.
pub struct RunContext {
    /// The directory of the run, for logs, errors and output files.
    pub workspace_dir: String,
    /// The directory in which harnesses run.
    pub harness_work_dir: String,
    /// The template variables.
    pub vars: Vars,
    /// The label of the event.
    pub key: String,
    /// Whether the output of harnesses is also shown on the terminal.
    pub show_logs: bool,
}

/// The worktree of a run.
pub struct Worktree {
    pub path: String,
    pub branch: String,
}

/// Where a run takes place and what its steps share.
pub struct WorkflowPlan {
    pub context: RunContext,
    /// The clone of the repository, if there is one.
    pub repo_dir: Option<String>,
    /// The worktree, if there is one.
    pub worktree: Option<Worktree>,
}

/// The clone that a run uses, if it uses one.
pub open spec fn planned_repo(data_root: Seq<char>, key: EventKey, git: GitConfig) -> Option<
    Seq<char>,
> {
    if git.clone {
        Some(repo_location(data_root, key.owner@, key.repo@))
    } else {
        None
    }
}

/// The worktree path that a run uses, if it uses one.
pub open spec fn planned_worktree(data_root: Seq<char>, key: EventKey, git: GitConfig) -> Option<
    Seq<char>,
> {
    if git.worktree {
        Some(joined_path(workspace_location(data_root, key), worktree_text(key.number)))
    } else {
        None
    }
}

/// The directory in which harnesses run: the worktree, or else the clone, or
/// else the directory of the run.
pub open spec fn planned_work_dir(data_root: Seq<char>, key: EventKey, git: GitConfig) -> Seq<char> {
    match planned_worktree(data_root, key, git) {
        Some(w) => w,
        None => match planned_repo(data_root, key, git) {
            Some(r) => r,
            None => workspace_location(data_root, key),
        },
    }
}

/// A text that may be absent; the empty text if it is.
pub open spec fn text_or_empty(text: Option<Seq<char>>) -> Seq<char> {
    match text {
        Some(t) => t,
        None => Seq::empty(),
    }
}

/// The template variables that every run has.
pub open spec fn global_vars(data_root: Seq<char>, key: EventKey, git: GitConfig) -> Seq<
    (Seq<char>, Seq<char>),
> {
    seq![
        ("owner"@, key.owner@),
        ("repo"@, key.repo@),
        ("default_branch"@, git.default_branch@),
        ("output_path"@, workspace_location(data_root, key)),
        ("repo_path"@, text_or_empty(planned_repo(data_root, key, git))),
    ]
}

fn make_global_vars(key: &EventKey, branch: &str, workspace: &str, repo: &Option<String>) -> (vars:
    Vars)
    ensures
        vars@ == seq![
            ("owner"@, key.owner@),
            ("repo"@, key.repo@),
            ("default_branch"@, branch@),
            ("output_path"@, workspace@),
            ("repo_path"@, text_or_empty(opt_view(*repo))),
        ],
{
    let repo_text = match repo {
        Some(r) => r.clone(),
        None => String::new(),
    };
    let mut vars = Vars::new();
    proof {
        reveal_strlit("owner");
        reveal_strlit("repo");
        reveal_strlit("default_branch");
        reveal_strlit("output_path");
        reveal_strlit("repo_path");
        assert("owner"@.len() == 5);
        assert("repo"@.len() == 4);
        assert("default_branch"@.len() == 14);
        assert("output_path"@.len() == 11);
        assert("repo_path"@.len() == 9);
    }
    proof {
        lemma_new_entry(vars@, "owner"@, key.owner@);
    }
    vars.insert("owner", key.owner.clone());
    proof {
        lemma_new_entry(vars@, "repo"@, key.repo@);
    }
    vars.insert("repo", key.repo.clone());
    proof {
        lemma_new_entry(vars@, "default_branch"@, branch@);
    }
    vars.insert("default_branch", branch.to_owned());
    proof {
        lemma_new_entry(vars@, "output_path"@, workspace@);
    }
    vars.insert("output_path", workspace.to_owned());
    proof {
        lemma_new_entry(vars@, "repo_path"@, repo_text@);
    }
    vars.insert("repo_path", repo_text);
    proof {
        let repo_view = text_or_empty(opt_view(*repo));
        assert(repo_text@ =~= repo_view);
        assert(vars@ =~= seq![
            ("owner"@, key.owner@),
            ("repo"@, key.repo@),
            ("default_branch"@, branch@),
            ("output_path"@, workspace@),
            ("repo_path"@, repo_view),
        ]);
    }
    vars
}

/// The plan of a run for an event. The template variables of the trigger are
/// added to those that every run has.
pub open spec fn planned_run(
    plan: WorkflowPlan,
    key: EventKey,
    data_root: Seq<char>,
    show_logs: bool,
    git: GitConfig,
    secs: int,
) -> bool {
    &&& plan.context.workspace_dir@ == workspace_location(data_root, key)
    &&& plan.context.harness_work_dir@ == planned_work_dir(data_root, key, git)
    &&& plan.context.vars@ == with_entries(global_vars(data_root, key, git), key.variables@)
    &&& plan.context.key@ == key.label@
    &&& plan.context.show_logs == show_logs
    &&& opt_view(plan.repo_dir) == planned_repo(data_root, key, git)
    &&& match plan.worktree {
        Some(w) => planned_worktree(data_root, key, git) == Some(w.path@) && w.branch@
            == branch_text(key.label@, secs),
        None => planned_worktree(data_root, key, git) is None,
    }
}

/// The plan of a run that begins at the given second.
pub fn run_workflow_at(
    key: &EventKey,
    data_root: &str,
    show_logs: bool,
    git_config: &GitConfig,
    secs: i64,
) -> (plan: WorkflowPlan)
    ensures
        planned_run(plan, *key, data_root@, show_logs, *git_config, secs as int),
{
    let workspace = workspace_dir(data_root, key);
    let repo_dir = if git_config.clone {
        Some(repo_path(data_root, key.owner.as_str(), key.repo.as_str()))
    } else {
        None
    };
    let worktree = if git_config.worktree {
        Some(
            Worktree {
                path: join(workspace.as_str(), worktree_dir_name(key.number).as_str()),
                branch: branch_name(key.label.as_str(), secs),
            },
        )
    } else {
        None
    };
    let harness_work_dir = match &worktree {
        Some(w) => w.path.clone(),
        None => match &repo_dir {
            Some(r) => r.clone(),
            None => workspace.clone(),
        },
    };
    let mut vars = make_global_vars(
        key,
        git_config.default_branch.as_str(),
        workspace.as_str(),
        &repo_dir,
    );
    assert(vars@ =~= global_vars(data_root@, *key, *git_config));
    vars.extend(&key.variables);
    WorkflowPlan {
        context: RunContext {
            workspace_dir: workspace,
            harness_work_dir,
            vars,
            key: key.to_string(),
            show_logs,
        },
        repo_dir,
        worktree,
    }
}

/// The plan of a run that begins now.
pub fn run_workflow(key: &EventKey, data_root: &str, show_logs: bool, git_config: &GitConfig) -> (plan:
    WorkflowPlan)
    ensures
        exists|secs: i64|
            #[trigger] planned_run(plan, *key, data_root@, show_logs, *git_config, secs as int),
{
    let (secs, _nanos) = utc_now();
    run_workflow_at(key, data_root, show_logs, git_config, secs)
}

// ---------------------------------------------------------------------------
// Steps
// ---------------------------------------------------------------------------

/// Where a step takes place.
pub struct StepContext {
    pub error_path: String,
    pub show_logs: bool,
    pub log_path: String,
    /// Where the rendered prompt is kept.
    pub prompt_path: String,
    /// The directory in which the harness runs.
    pub work_dir: String,
    /// The label of the event.
    pub key: String,
}

/// Where the step at the given position of a workflow takes place.
pub fn step_context(index: usize, step: &Step, context: &RunContext) -> (out: StepContext)
    ensures
        out.error_path@ == joined_path(
            context.workspace_dir@,
            step_file_text(index as nat, step.name@, ".error"@),
        ),
        out.log_path@ == joined_path(
            context.workspace_dir@,
            step_file_text(index as nat, step.name@, ".log"@),
        ),
        out.prompt_path@ == joined_path(
            context.workspace_dir@,
            step_file_text(index as nat, step.name@, ".prompt"@),
        ),
        out.show_logs == context.show_logs,
        out.work_dir@ == context.harness_work_dir@,
        out.key@ == context.key@,
{
    let dir = context.workspace_dir.as_str();
    let name = step.name.as_str();
    StepContext {
        error_path: step_file(dir, index, name, ".error"),
        show_logs: context.show_logs,
        log_path: step_file(dir, index, name, ".log"),
        prompt_path: step_file(dir, index, name, ".prompt"),
        work_dir: context.harness_work_dir.clone(),
        key: context.key.clone(),
    }
}

/// What a step hands to its harness.
pub struct StepPlan {
    /// The rendered prompt.
    pub prompt: String,
    /// The name of the harness.
    pub harness: String,
    /// What the harness wants done, or why the step cannot be carried out.
    pub invocation: Result<Invocation, String>,
}

/// `plan` is what a step hands to its harness `harness`.
pub open spec fn step_planned(
    plan: StepPlan,
    step: Step,
    context: StepContext,
    vars: Seq<(Seq<char>, Seq<char>)>,
    harness: BuiltHarness,
    log_config: LogConfig,
) -> bool {
    &&& built_from(step.harness, harness)
    &&& log_config.log_path@ == context.log_path@
    &&& log_config.show_logs == context.show_logs
    &&& plan.prompt@ == rendered(step.prompt_template@, vars)
    &&& plan.harness@ == harness.harness_name()
    &&& harness.planned(
        step,
        context.work_dir@,
        rendered(step.prompt_template@, vars),
        context.error_path@,
        context.key@,
        log_config,
        plan.invocation,
    )
}

/// What a step hands to its harness: the prompt, with the template variables
/// filled in.
pub fn run_step(step: &Step, context: &StepContext, vars: &Vars) -> (plan: StepPlan)
    ensures
        exists|harness: BuiltHarness, log_config: LogConfig|
            #[trigger] step_planned(plan, *step, *context, vars@, harness, log_config),
{
    let harness = step.harness.build();
    let prompt = render(step.prompt_template.as_str(), vars);
    let log_config = LogConfig {
        log_path: context.log_path.clone(),
        show_logs: context.show_logs,
    };
    let invocation = harness.run_step(
        step,
        context.work_dir.as_str(),
        prompt.as_str(),
        context.error_path.as_str(),
        context.key.as_str(),
        &log_config,
    );
    let name = harness.name().to_owned();
    let plan = StepPlan { prompt, harness: name, invocation };
    assert(step_planned(plan, *step, *context, vars@, harness, log_config));
    plan
}

// ---------------------------------------------------------------------------
// The course of a run
// ---------------------------------------------------------------------------

/// The operations of a run. Each one is carried out by the caller, who
/// reports its outcome.
#[derive(Clone, Copy, Debug, PartialEq, Eq, Structural)]
pub enum RunStage {
    /// Create the directory of the run.
    CreateWorkspace,
    /// Clone or pull the repository.
    EnsureRepo,
    CreateWorktree,
    /// Run a hook of a step before its harness.
    PreHook { step: usize, hook: usize },
    /// Keep the rendered prompt of a step.
    WritePrompt { step: usize },
    RunHarness { step: usize },
    /// Run a hook of a step after its harness.
    PostHook { step: usize, hook: usize },
    /// Find out whether the worktree has uncommitted changes.
    CheckChanges,
    /// Find out whether the worktree has commits that were not pushed.
    CheckCommits,
    PushCommits,
    RemoveWorktree,
    /// The run is over.
    Done,
}

impl RunStage {
    /// The operation belongs to a step.
    pub open spec fn of_step(self) -> bool {
        self is PreHook || self is WritePrompt || self is RunHarness || self is PostHook
    }

    /// The operation belongs to the removal of the worktree.
    pub open spec fn of_cleanup(self) -> bool {
        self is CheckChanges || self is CheckCommits || self is PushCommits || self
            is RemoveWorktree
    }
}

/// What the course of a run depends on: the number of hooks before and after
/// the harness of each step, and whether there are a clone and a worktree.
pub struct Course {
    pub hooks: Seq<(nat, nat)>,
    pub clone: bool,
    pub worktree: bool,
    pub worktree_path: Seq<char>,
}

/// The course of a run of the given steps.
pub open spec fn course_of(steps: Seq<Step>, git: GitConfig, plan: WorkflowPlan) -> Course {
    Course {
        hooks: steps.map_values(|s: Step| (s.pre_hooks@.len(), s.post_hooks@.len())),
        clone: git.clone,
        worktree: git.worktree,
        worktree_path: match plan.worktree {
            Some(w) => w.path@,
            None => Seq::empty(),
        },
    }
}

/// How far a run has come, and its first error.
pub struct RunState {
    pub stage: RunStage,
    pub error: Option<Seq<char>>,
}

/// What follows the last step.
pub open spec fn steps_over(course: Course) -> RunStage {
    if course.worktree {
        RunStage::CheckChanges
    } else {
        RunStage::Done
    }
}

/// The first operation of a step, or what follows the last one.
pub open spec fn step_begins(course: Course, step: nat) -> RunStage {
    if step >= course.hooks.len() {
        steps_over(course)
    } else if course.hooks[step as int].0 > 0 {
        RunStage::PreHook { step: step as usize, hook: 0 }
    } else {
        RunStage::WritePrompt { step: step as usize }
    }
}

/// The operation that follows one that went through.
pub open spec fn successor(course: Course, stage: RunStage, yes: bool) -> RunStage {
    match stage {
        RunStage::CreateWorkspace => if course.clone {
            RunStage::EnsureRepo
        } else if course.worktree {
            RunStage::Done
        } else {
            step_begins(course, 0)
        },
        RunStage::EnsureRepo => if course.worktree {
            RunStage::CreateWorktree
        } else {
            step_begins(course, 0)
        },
        RunStage::CreateWorktree => step_begins(course, 0),
        RunStage::PreHook { step, hook } => if hook + 1 < course.hooks[step as int].0 {
            RunStage::PreHook { step, hook: (hook + 1) as usize }
        } else {
            RunStage::WritePrompt { step }
        },
        RunStage::WritePrompt { step } => RunStage::RunHarness { step },
        RunStage::RunHarness { step } => if course.hooks[step as int].1 > 0 {
            RunStage::PostHook { step, hook: 0 }
        } else {
            step_begins(course, (step + 1) as nat)
        },
        RunStage::PostHook { step, hook } => if hook + 1 < course.hooks[step as int].1 {
            RunStage::PostHook { step, hook: (hook + 1) as usize }
        } else {
            step_begins(course, (step + 1) as nat)
        },
        RunStage::CheckChanges => if yes {
            RunStage::Done
        } else {
            RunStage::CheckCommits
        },
        RunStage::CheckCommits => if yes {
            RunStage::PushCommits
        } else {
            RunStage::RemoveWorktree
        },
        RunStage::PushCommits => RunStage::RemoveWorktree,
        RunStage::RemoveWorktree => RunStage::Done,
        RunStage::Done => RunStage::Done,
    }
}

/// The error of an operation with the given outcome, if it is one. Besides
/// operations that fail, a worktree without a clone and a worktree with
/// uncommitted changes are errors.
pub open spec fn stage_error(course: Course, stage: RunStage, outcome: Result<bool, Seq<char>>) -> Option<
    Seq<char>,
> {
    match outcome {
        Err(e) => match stage {
            RunStage::WritePrompt { .. } => Some("failed to write prompt log: "@ + e),
            RunStage::Done => None,
            _ => Some(e),
        },
        Ok(yes) => if stage is CreateWorkspace && course.worktree && !course.clone {
            Some("git.worktree requires a repo (git.clone must be true)"@)
        } else if stage is CheckChanges && yes {
            Some(
                "worktree has uncommitted changes — leaving worktree at "@ + course.worktree_path
                    + " for manual inspection"@,
            )
        } else {
            None
        },
    }
}

/// The operation that follows one that failed.
pub open spec fn after_failure(course: Course, stage: RunStage) -> RunStage {
    if stage.of_step() {
        steps_over(course)
    } else {
        RunStage::Done
    }
}

/// How far a run has come after one more operation. The first error is kept:
/// a failed removal of the worktree does not hide the error of a step.
pub open spec fn advanced(course: Course, state: RunState, outcome: Result<bool, Seq<char>>) -> RunState {
    let error = stage_error(course, state.stage, outcome);
    RunState {
        stage: match outcome {
            Ok(yes) => successor(course, state.stage, yes),
            Err(_) => after_failure(course, state.stage),
        },
        error: if state.error is Some {
            state.error
        } else {
            error
        },
    }
}

/// The operation belongs to the course.
pub open spec fn in_course(course: Course, stage: RunStage) -> bool {
    match stage {
        RunStage::PreHook { step, hook } => step < course.hooks.len() && hook
            < course.hooks[step as int].0,
        RunStage::WritePrompt { step } => step < course.hooks.len(),
        RunStage::RunHarness { step } => step < course.hooks.len(),
        RunStage::PostHook { step, hook } => step < course.hooks.len() && hook
            < course.hooks[step as int].1,
        _ => true,
    }
}

/// The outcome of an operation, as a mathematical value.
pub open spec fn outcome_view(outcome: Result<bool, String>) -> Result<bool, Seq<char>> {
    match outcome {
        Ok(yes) => Ok(yes),
        Err(e) => Err(e@),
    }
}

/// A run of a workflow: how far it has come, and its first error.
pub struct WorkflowRun {
    pub stage: RunStage,
    pub error: Option<String>,
}

impl View for WorkflowRun {
    type V = RunState;

    open spec fn view(&self) -> RunState {
        RunState { stage: self.stage, error: opt_view(self.error) }
    }
}

fn begin_step(steps: &Vec<Step>, step: usize, worktree: bool, Ghost(course): Ghost<Course>) -> (stage:
    RunStage)
    requires
        course.hooks == steps@.map_values(
            |s: Step| (s.pre_hooks@.len(), s.post_hooks@.len()),
        ),
        course.worktree == worktree,
    ensures
        stage == step_begins(course, step as nat),
{
    if step >= steps.len() {
        if worktree {
            RunStage::CheckChanges
        } else {
            RunStage::Done
        }
    } else if steps[step].pre_hooks.len() > 0 {
        RunStage::PreHook { step, hook: 0 }
    } else {
        RunStage::WritePrompt { step }
    }
}

impl WorkflowRun {
    /// A run that has not begun yet.
    pub fn start() -> (run: WorkflowRun)
        ensures
            run@ == (RunState { stage: RunStage::CreateWorkspace, error: None }),
    {
        WorkflowRun { stage: RunStage::CreateWorkspace, error: None }
    }

    fn next_stage(&self, steps: &Vec<Step>, git: &GitConfig, yes: bool, Ghost(plan): Ghost<
        WorkflowPlan,
    >) -> (stage: RunStage)
        requires
            in_course(course_of(steps@, *git, plan), self.stage),
        ensures
            stage == successor(course_of(steps@, *git, plan), self.stage, yes),
    {
        let ghost course = course_of(steps@, *git, plan);
        let worktree = git.worktree;
        assert(course.hooks.len() == steps.len());
        match self.stage {
            RunStage::CreateWorkspace => if git.clone {
                RunStage::EnsureRepo
            } else if worktree {
                RunStage::Done
            } else {
                begin_step(steps, 0, worktree, Ghost(course))
            },
            RunStage::EnsureRepo => if worktree {
                RunStage::CreateWorktree
            } else {
                begin_step(steps, 0, worktree, Ghost(course))
            },
            RunStage::CreateWorktree => begin_step(steps, 0, worktree, Ghost(course)),
            RunStage::PreHook { step, hook } => {
                assert(course.hooks[step as int].0 == steps@[step as int].pre_hooks@.len());
                let count: usize = steps[step].pre_hooks.len();
                if hook + 1 < count {
                    RunStage::PreHook { step, hook: hook + 1 }
                } else {
                    RunStage::WritePrompt { step }
                }
            },
            RunStage::WritePrompt { step } => RunStage::RunHarness { step },
            RunStage::RunHarness { step } => {
                assert(course.hooks[step as int].1 == steps@[step as int].post_hooks@.len());
                if steps[step].post_hooks.len() > 0 {
                    RunStage::PostHook { step, hook: 0 }
                } else {
                    begin_step(steps, step + 1, worktree, Ghost(course))
                }
            },
            RunStage::PostHook { step, hook } => {
                assert(course.hooks[step as int].1 == steps@[step as int].post_hooks@.len());
                let count: usize = steps[step].post_hooks.len();
                if hook + 1 < count {
                    RunStage::PostHook { step, hook: hook + 1 }
                } else {
                    begin_step(steps, step + 1, worktree, Ghost(course))
                }
            },
            RunStage::CheckChanges => if yes {
                RunStage::Done
            } else {
                RunStage::CheckCommits
            },
            RunStage::CheckCommits => if yes {
                RunStage::PushCommits
            } else {
                RunStage::RemoveWorktree
            },
            RunStage::PushCommits => RunStage::RemoveWorktree,
            RunStage::RemoveWorktree => RunStage::Done,
            RunStage::Done => RunStage::Done,
        }
    }

    /// Takes the outcome of the operation of the current stage, and goes on to
    /// the next one. Of the two operations that find something out, `true`
    /// means that there is something.
    pub fn next(
        &mut self,
        steps: &Vec<Step>,
        git: &GitConfig,
        plan: &WorkflowPlan,
        outcome: Result<bool, String>,
    )
        requires
            in_course(course_of(steps@, *git, *plan), old(self)@.stage),
        ensures
            final(self)@ == advanced(
                course_of(steps@, *git, *plan),
                old(self)@,
                outcome_view(outcome),
            ),
            in_course(course_of(steps@, *git, *plan), final(self)@.stage),
    {
        let ghost course = course_of(steps@, *git, *plan);
        proof {
            assert(course.hooks.len() == steps.len());
            assert forall|i: int| 0 <= i < course.hooks.len() implies (
            #[trigger] course.hooks[i]).0 <= usize::MAX && course.hooks[i].1 <= usize::MAX by {
                assert(course.hooks[i].0 == steps@[i].pre_hooks.len());
                assert(course.hooks[i].1 == steps@[i].post_hooks.len());
            }
            lemma_stays_in_course(course, self@, outcome_view(outcome));
        }
        let mut error: Option<String> = None;
        let stage = match outcome {
            Ok(yes) => {
                match self.stage {
                    RunStage::CreateWorkspace => {
                        if git.worktree && !git.clone {
                            error = Some(
                                "git.worktree requires a repo (git.clone must be true)".to_string(),
                            );
                        }
                    },
                    RunStage::CheckChanges => {
                        if yes {
                            let path = match &plan.worktree {
                                Some(w) => w.path.clone(),
                                None => String::new(),
                            };
                            assert(path@ =~= course.worktree_path);
                            error = Some(
                                "worktree has uncommitted changes — leaving worktree at ".to_string().concat(
                                path.as_str()).concat(" for manual inspection"),
                            );
                        }
                    },
                    _ => {},
                }
                self.next_stage(steps, git, yes, Ghost(*plan))
            },
            Err(e) => {
                match self.stage {
                    RunStage::WritePrompt { .. } => {
                        error = Some(
                            "failed to write prompt log: ".to_string().concat(e.as_str()),
                        );
                    },
                    RunStage::Done => {},
                    _ => {
                        error = Some(e);
                    },
                }
                match self.stage {
                    RunStage::PreHook { .. }
                    | RunStage::WritePrompt { .. }
                    | RunStage::RunHarness { .. }
                    | RunStage::PostHook { .. } => if git.worktree {
                        RunStage::CheckChanges
                    } else {
                        RunStage::Done
                    },
                    _ => RunStage::Done,
                }
            },
        };
        self.stage = stage;
        if self.error.is_none() {
            self.error = error;
        }
    }

    /// The result of a run that is over.
    pub fn result(&self) -> (result: Result<(), String>)
        ensures
            match result {
                Ok(_) => self@.error is None,
                Err(e) => self@.error == Some(e@),
            },
    {
        match &self.error {
            Some(e) => Err(e.clone()),
            None => Ok(()),
        }
    }
}

// ---------------------------------------------------------------------------
// Laws
// ---------------------------------------------------------------------------

/// The numbers of steps and hooks fit into the machine word.
pub open spec fn fits(course: Course) -> bool {
    &&& course.hooks.len() <= usize::MAX
    &&& forall|i: int|
        0 <= i < course.hooks.len() ==> (#[trigger] course.hooks[i]).0 <= usize::MAX
            && course.hooks[i].1 <= usize::MAX
}

proof fn lemma_stays_in_course(course: Course, state: RunState, outcome: Result<bool, Seq<char>>)
    requires
        in_course(course, state.stage),
        fits(course),
    ensures
        in_course(course, advanced(course, state, outcome).stage),
{
}

/// How far a run has come after operations with the given outcomes.
pub open spec fn run_after(course: Course, outcomes: Seq<Result<bool, Seq<char>>>) -> RunState
    decreases outcomes.len(),
{
    if outcomes.len() == 0 {
        RunState { stage: RunStage::CreateWorkspace, error: None }
    } else {
        advanced(course, run_after(course, outcomes.drop_last()), outcomes.last())
    }
}

/// The operations of a step, in order: the hooks before the harness, the
/// prompt, the harness, the hooks after it.
pub open spec fn step_operations(course: Course, step: nat) -> Seq<RunStage> {
    let (pre, post) = course.hooks[step as int];
    Seq::new(
        pre + 2 + post,
        |k: int|
            if k < pre {
                RunStage::PreHook { step: step as usize, hook: k as usize }
            } else if k == pre {
                RunStage::WritePrompt { step: step as usize }
            } else if k == pre + 1 {
                RunStage::RunHarness { step: step as usize }
            } else {
                RunStage::PostHook { step: step as usize, hook: (k - pre - 2) as usize }
            },
    )
}

/// The operations of the steps from the given one on, in order.
pub open spec fn operations_from(course: Course, step: nat) -> Seq<RunStage>
    decreases course.hooks.len() - step,
{
    if step >= course.hooks.len() {
        Seq::empty()
    } else {
        step_operations(course, step) + operations_from(course, step + 1)
    }
}

/// The steps run one after the other, and each of them in order: hooks before
/// the harness, prompt, harness, hooks after it. An operation that goes
/// through is followed by the next one, the last one by the removal of the
/// worktree or the end of the run.
pub proof fn law_steps_run_in_order(course: Course, step: nat, n: int, yes: bool)
    requires
        fits(course),
        0 <= n < operations_from(course, step).len(),
    ensures
        operations_from(course, step)[0] == step_begins(course, step),
        successor(course, operations_from(course, step)[n], yes) == (if n + 1 < operations_from(
            course,
            step,
        ).len() {
            operations_from(course, step)[n + 1]
        } else {
            steps_over(course)
        }),
    decreases course.hooks.len() - step,
{
    let own = step_operations(course, step);
    let rest = operations_from(course, step + 1);
    let (pre, post) = course.hooks[step as int];
    assert(own.len() == pre + 2 + post);
    assert(operations_from(course, step) == own + rest);
    if rest.len() > 0 {
        law_steps_run_in_order(course, step + 1, 0, yes);
    } else {
        assert(step + 1 >= course.hooks.len()) by {
            if step + 1 < course.hooks.len() {
                assert(rest == step_operations(course, step + 1) + operations_from(
                    course,
                    step + 2,
                ));
            }
        }
    }
    if n >= own.len() {
        law_steps_run_in_order(course, step + 1, n - own.len(), yes);
    }
}

/// After an error, no operation of a step is carried out any more: what is
/// left is at most the removal of the worktree.
pub proof fn law_error_ends_steps(course: Course, outcomes: Seq<Result<bool, Seq<char>>>)
    ensures
        run_after(course, outcomes).error is Some ==> run_after(
            course,
            outcomes,
        ).stage.of_cleanup() || run_after(course, outcomes).stage is Done,
    decreases outcomes.len(),
{
    if outcomes.len() > 0 {
        law_error_ends_steps(course, outcomes.drop_last());
    }
}

/// A run ends well exactly if no operation on the way was an error; otherwise
/// its error is the first one.
pub proof fn law_first_error_is_the_result(
    course: Course,
    outcomes: Seq<Result<bool, Seq<char>>>,
)
    ensures
        run_after(course, outcomes).error is None <==> forall|i: int|
            0 <= i < outcomes.len() ==> #[trigger] stage_error(
                course,
                run_after(course, outcomes.take(i)).stage,
                outcomes[i],
            ) is None,
        forall|i: int|
            0 <= i < outcomes.len() && run_after(course, outcomes.take(i)).error is None
                && #[trigger] stage_error(
                course,
                run_after(course, outcomes.take(i)).stage,
                outcomes[i],
            ) is Some ==> run_after(course, outcomes).error == stage_error(
                course,
                run_after(course, outcomes.take(i)).stage,
                outcomes[i],
            ),
    decreases outcomes.len(),
{
    if outcomes.len() > 0 {
        let front = outcomes.drop_last();
        law_first_error_is_the_result(course, front);
        let last = outcomes.len() - 1;
        assert(outcomes.take(last) =~= front);
        assert forall|i: int| 0 <= i < front.len() implies front.take(i) == outcomes.take(i)
            && front[i] == outcomes[i] by {
            assert(front.take(i) =~= outcomes.take(i));
        }
        let all_fine = forall|i: int|
            0 <= i < outcomes.len() ==> #[trigger] stage_error(
                course,
                run_after(course, outcomes.take(i)).stage,
                outcomes[i],
            ) is None;
        if all_fine {
            assert forall|i: int| 0 <= i < front.len() implies #[trigger] stage_error(
                course,
                run_after(course, front.take(i)).stage,
                front[i],
            ) is None by {
                assert(stage_error(
                    course,
                    run_after(course, outcomes.take(i)).stage,
                    outcomes[i],
                ) is None);
            }
            assert(stage_error(
                course,
                run_after(course, outcomes.take(last)).stage,
                outcomes[last],
            ) is None);
        }
        if run_after(course, outcomes).error is None {
            assert forall|i: int| 0 <= i < outcomes.len() implies #[trigger] stage_error(
                course,
                run_after(course, outcomes.take(i)).stage,
                outcomes[i],
            ) is None by {
                if i < front.len() {
                    assert(stage_error(
                        course,
                        run_after(course, front.take(i)).stage,
                        front[i],
                    ) is None);
                }
            }
        }
        assert forall|i: int|
            0 <= i < outcomes.len() && run_after(course, outcomes.take(i)).error is None
                && #[trigger] stage_error(
                course,
                run_after(course, outcomes.take(i)).stage,
                outcomes[i],
            ) is Some implies run_after(course, outcomes).error == stage_error(
            course,
            run_after(course, outcomes.take(i)).stage,
            outcomes[i],
        ) by {
            if i < front.len() {
                assert(stage_error(
                    course,
                    run_after(course, front.take(i)).stage,
                    front[i],
                ) is Some);
            }
        }
    }
}

/// A run with a worktree that got as far as a step does not end without going
/// on to the removal of the worktree, whatever becomes of the steps.
pub proof fn law_worktree_is_not_forgotten(
    course: Course,
    outcomes: Seq<Result<bool, Seq<char>>>,
    i: int,
)
    requires
        course.worktree,
        0 <= i <= outcomes.len(),
        run_after(course, outcomes.take(i)).stage.of_step(),
        run_after(course, outcomes).stage is Done,
    ensures
        exists|j: int|
            i < j < outcomes.len() && (#[trigger] run_after(
                course,
                outcomes.take(j),
            )).stage is CheckChanges,
    decreases outcomes.len(),
{
    if i == outcomes.len() {
        assert(outcomes.take(i) =~= outcomes);
    } else {
        let front = outcomes.drop_last();
        let last = outcomes.len() - 1;
        assert(front.take(i) =~= outcomes.take(i));
        assert(outcomes.take(last) =~= front);
        let before = run_after(course, front).stage;
        if before is Done {
            law_worktree_is_not_forgotten(course, front, i);
            let j = choose|j: int|
                i < j < front.len() && (#[trigger] run_after(
                    course,
                    front.take(j),
                )).stage is CheckChanges;
            assert(front.take(j) =~= outcomes.take(j));
        } else {
            lemma_cleanup_comes_after_steps(course, front, i);
            if before is CheckChanges {
                assert(i < last);
                assert(run_after(course, outcomes.take(last)).stage is CheckChanges);
            } else {
                let j = choose|j: int|
                    i < j < front.len() && (#[trigger] run_after(
                        course,
                        front.take(j),
                    )).stage is CheckChanges;
                assert(front.take(j) =~= outcomes.take(j));
            }
        }
    }
}

/// From a step on, a run with a worktree is in a step, at the start of the
/// removal of the worktree, or has come past that.
proof fn lemma_cleanup_comes_after_steps(
    course: Course,
    outcomes: Seq<Result<bool, Seq<char>>>,
    i: int,
)
    requires
        course.worktree,
        0 <= i <= outcomes.len(),
        run_after(course, outcomes.take(i)).stage.of_step(),
    ensures
        ({
            let stage = run_after(course, outcomes).stage;
            ||| stage.of_step()
            ||| stage is CheckChanges && i < outcomes.len()
            ||| exists|j: int|
                i < j < outcomes.len() && (#[trigger] run_after(
                    course,
                    outcomes.take(j),
                )).stage is CheckChanges
        }),
    decreases outcomes.len(),
{
    if i == outcomes.len() {
        assert(outcomes.take(i) =~= outcomes);
    } else {
        let front = outcomes.drop_last();
        let last = outcomes.len() - 1;
        assert(front.take(i) =~= outcomes.take(i));
        assert(outcomes.take(last) =~= front);
        lemma_cleanup_comes_after_steps(course, front, i);
        let before = run_after(course, front).stage;
        if before.of_step() {
        } else if before is CheckChanges && i < front.len() {
            assert(run_after(course, outcomes.take(last)).stage is CheckChanges);
        } else {
            let j = choose|j: int|
                i < j < front.len() && (#[trigger] run_after(
                    course,
                    front.take(j),
                )).stage is CheckChanges;
            assert(front.take(j) =~= outcomes.take(j));
        }
    }
}

/// A worktree is removed only if it was found to have no uncommitted changes,
/// and either no commits that were not pushed, or these were pushed.
pub proof fn law_worktree_is_removed_only_if_safe(
    course: Course,
    outcomes: Seq<Result<bool, Seq<char>>>,
)
    requires
        run_after(course, outcomes).stage is RemoveWorktree,
    ensures
        ({
            let n = outcomes.len() as int;
            let changes_at = if n >= 3 && run_after(course, outcomes.take(n - 1)).stage
                is PushCommits {
                n - 3
            } else {
                n - 2
            };
            &&& changes_at >= 0
            &&& run_after(course, outcomes.take(changes_at)).stage is CheckChanges
            &&& outcomes[changes_at] == Ok::<bool, Seq<char>>(false)
            &&& run_after(course, outcomes.take(changes_at + 1)).stage is CheckCommits
            &&& outcomes[changes_at + 1] == Ok::<bool, Seq<char>>(false) || (
            outcomes[changes_at + 1] == Ok::<bool, Seq<char>>(true) && changes_at + 3 == n
                && outcomes[n - 1] is Ok)
        }),
{
    let n = outcomes.len() as int;
    assert(outcomes.take(n) =~= outcomes);
    lemma_last_advance(course, outcomes, n);
    let before = run_after(course, outcomes.take(n - 1)).stage;
    lemma_last_advance(course, outcomes, n - 1);
    if before is PushCommits {
        lemma_last_advance(course, outcomes, n - 2);
    }
}

/// How the first `k` operations of a run end.
proof fn lemma_last_advance(course: Course, outcomes: Seq<Result<bool, Seq<char>>>, k: int)
    requires
        0 <= k <= outcomes.len(),
    ensures
        k > 0 ==> run_after(course, outcomes.take(k)) == advanced(
            course,
            run_after(course, outcomes.take(k - 1)),
            outcomes[k - 1],
        ),
        k == 0 ==> run_after(course, outcomes.take(k)).stage is CreateWorkspace,
{
    if k > 0 {
        assert(outcomes.take(k).drop_last() =~= outcomes.take(k - 1));
        assert(outcomes.take(k).last() == outcomes[k - 1]);
    }
}

/// A worktree with uncommitted changes is left alone: the run ends with an
/// error.
pub proof fn law_uncommitted_changes_are_kept(course: Course, state: RunState)
    requires
        state.stage is CheckChanges,
    ensures
        advanced(course, state, Ok(true)).stage is Done,
        advanced(course, state, Ok(true)).error is Some,
{
}

/// The number of operations of the steps from the given one on.
pub open spec fn operations_left(course: Course, step: nat) -> nat
    decreases course.hooks.len() - step,
{
    if step >= course.hooks.len() {
        0
    } else {
        course.hooks[step as int].0 + 2 + course.hooks[step as int].1 + operations_left(
            course,
            step + 1,
        )
    }
}

/// A bound on the number of operations until the end of a run.
spec fn bound(course: Course, stage: RunStage) -> int {
    match stage {
        RunStage::CreateWorkspace => 7 + operations_left(course, 0) as int,
        RunStage::EnsureRepo => 6 + operations_left(course, 0) as int,
        RunStage::CreateWorktree => 5 + operations_left(course, 0) as int,
        RunStage::PreHook { step, hook } => 4 + operations_left(course, (step + 1) as nat) as int
            + course.hooks[step as int].1 + 2 + course.hooks[step as int].0 - hook,
        RunStage::WritePrompt { step } => 4 + operations_left(course, (step + 1) as nat) as int
            + course.hooks[step as int].1 + 2,
        RunStage::RunHarness { step } => 4 + operations_left(course, (step + 1) as nat) as int
            + course.hooks[step as int].1 + 1,
        RunStage::PostHook { step, hook } => 4 + operations_left(course, (step + 1) as nat) as int
            + course.hooks[step as int].1 - hook,
        RunStage::CheckChanges => 4,
        RunStage::CheckCommits => 3,
        RunStage::PushCommits => 2,
        RunStage::RemoveWorktree => 1,
        RunStage::Done => 0,
    }
}

proof fn lemma_bound_falls(course: Course, state: RunState, outcome: Result<bool, Seq<char>>)
    requires
        fits(course),
        in_course(course, state.stage),
    ensures
        bound(course, state.stage) >= 0,
        !(state.stage is Done) ==> bound(course, advanced(course, state, outcome).stage) < bound(
            course,
            state.stage,
        ),
        state.stage is Done ==> advanced(course, state, outcome).stage is Done,
        bound(course, state.stage) == 0 ==> state.stage is Done,
{
    lemma_step_bound(course, 0);
    match state.stage {
        RunStage::RunHarness { step } => {
            lemma_step_bound(course, (step + 1) as nat);
        },
        RunStage::PostHook { step, hook } => {
            lemma_step_bound(course, (step + 1) as nat);
        },
        _ => {},
    }
}

proof fn lemma_step_bound(course: Course, step: nat)
    requires
        fits(course),
    ensures
        bound(course, step_begins(course, step)) <= 4 + operations_left(course, step),
        bound(course, steps_over(course)) <= 4,
{
}

proof fn lemma_run_bound(course: Course, outcomes: Seq<Result<bool, Seq<char>>>)
    requires
        fits(course),
    ensures
        in_course(course, run_after(course, outcomes).stage),
        run_after(course, outcomes).stage is Done || bound(
            course,
            run_after(course, outcomes).stage,
        ) + outcomes.len() <= 7 + operations_left(course, 0),
    decreases outcomes.len(),
{
    if outcomes.len() > 0 {
        let front = outcomes.drop_last();
        lemma_run_bound(course, front);
        lemma_stays_in_course(course, run_after(course, front), outcomes.last());
        lemma_bound_falls(course, run_after(course, front), outcomes.last());
    }
}

/// A run is over after seven operations besides those of the steps, whatever
/// their outcomes.
pub proof fn law_run_ends(course: Course, outcomes: Seq<Result<bool, Seq<char>>>)
    requires
        fits(course),
        outcomes.len() >= 7 + operations_left(course, 0),
    ensures
        run_after(course, outcomes).stage is Done,
{
    lemma_run_bound(course, outcomes);
    if !(run_after(course, outcomes).stage is Done) {
        lemma_bound_falls(course, run_after(course, outcomes), Ok(false));
    }
}

/// Where an operation stands in a run: before the steps, in a step (which one,
/// in which part of it, at which hook), or after the steps.
pub open spec fn place(operation: RunStage) -> (int, int, int, int) {
    match operation {
        RunStage::CreateWorkspace => (0, 0, 0, 0),
        RunStage::EnsureRepo => (1, 0, 0, 0),
        RunStage::CreateWorktree => (2, 0, 0, 0),
        RunStage::PreHook { step, hook } => (3, step as int, 0, hook as int),
        RunStage::WritePrompt { step } => (3, step as int, 1, 0),
        RunStage::RunHarness { step } => (3, step as int, 2, 0),
        RunStage::PostHook { step, hook } => (3, step as int, 3, hook as int),
        RunStage::CheckChanges => (4, 0, 0, 0),
        RunStage::CheckCommits => (5, 0, 0, 0),
        RunStage::PushCommits => (6, 0, 0, 0),
        RunStage::RemoveWorktree => (7, 0, 0, 0),
        RunStage::Done => (8, 0, 0, 0),
    }
}

/// One operation stands before another.
pub open spec fn earlier(a: RunStage, b: RunStage) -> bool {
    let (x, y) = (place(a), place(b));
    ||| x.0 < y.0
    ||| x.0 == y.0 && x.1 < y.1
    ||| x.0 == y.0 && x.1 == y.1 && x.2 < y.2
    ||| x.0 == y.0 && x.1 == y.1 && x.2 == y.2 && x.3 < y.3
}

/// A run of the steps that ends well has to carry out the operation: whatever
/// the steps say, and what the configuration of git asks for.
pub open spec fn owed(steps: Seq<Step>, git: GitConfig, operation: RunStage) -> bool {
    match operation {
        RunStage::CreateWorkspace => true,
        RunStage::EnsureRepo => git.clone,
        RunStage::PreHook { step, hook } => step < steps.len() && hook
            < steps[step as int].pre_hooks@.len(),
        RunStage::WritePrompt { step } => step < steps.len(),
        RunStage::RunHarness { step } => step < steps.len(),
        RunStage::PostHook { step, hook } => step < steps.len() && hook
            < steps[step as int].post_hooks@.len(),
        RunStage::CreateWorktree => git.worktree,
        RunStage::CheckChanges => git.worktree,
        RunStage::CheckCommits => git.worktree,
        RunStage::RemoveWorktree => git.worktree,
        RunStage::PushCommits => false,
        RunStage::Done => false,
    }
}

/// The operation was carried out and went through.
pub open spec fn went_through(
    course: Course,
    outcomes: Seq<Result<bool, Seq<char>>>,
    operation: RunStage,
) -> bool {
    exists|k: int|
        0 <= k < outcomes.len() && (#[trigger] run_after(course, outcomes.take(k))).stage
            == operation && outcomes[k] is Ok
}

/// Any operation that fails makes the run fail, whichever it is: a hook before
/// or after a harness, the harness, the prompt, or what is done before and
/// after the steps. If nothing had failed before, its error is the one that
/// the run ends with.
pub proof fn law_failure_fails_the_run(
    steps: Seq<Step>,
    git: GitConfig,
    plan: WorkflowPlan,
    outcomes: Seq<Result<bool, Seq<char>>>,
    i: int,
)
    requires
        0 <= i < outcomes.len(),
        !(run_after(course_of(steps, git, plan), outcomes.take(i)).stage is Done),
        outcomes[i] is Err,
    ensures
        ({
            let before = run_after(course_of(steps, git, plan), outcomes.take(i));
            let after = run_after(course_of(steps, git, plan), outcomes);
            &&& after.error is Some
            &&& before.error is Some ==> after.error == before.error
            &&& before.error is None && before.stage is WritePrompt ==> after.error == Some(
                "failed to write prompt log: "@ + outcomes[i]->Err_0,
            )
            &&& before.error is None && !(before.stage is WritePrompt) ==> after.error == Some(
                outcomes[i]->Err_0,
            )
        }),
    decreases outcomes.len(),
{
    let course = course_of(steps, git, plan);
    let last = outcomes.len() - 1;
    assert(outcomes.take(last) =~= outcomes.drop_last());
    if i < last {
        let front = outcomes.drop_last();
        assert(front.take(i) =~= outcomes.take(i));
        law_failure_fails_the_run(steps, git, plan, front, i);
    }
}

/// As long as nothing has failed, everything that stands before the current
/// operation has been carried out and went through.
pub proof fn law_operations_keep_their_order(
    steps: Seq<Step>,
    git: GitConfig,
    plan: WorkflowPlan,
    outcomes: Seq<Result<bool, Seq<char>>>,
    operation: RunStage,
)
    requires
        steps.len() <= usize::MAX,
        run_after(course_of(steps, git, plan), outcomes).error is None,
        owed(steps, git, operation),
        earlier(operation, run_after(course_of(steps, git, plan), outcomes).stage),
    ensures
        went_through(course_of(steps, git, plan), outcomes, operation),
    decreases outcomes.len(),
{
    let course = course_of(steps, git, plan);
    lemma_course_fits(steps, git, plan);
    if outcomes.len() > 0 {
        let front = outcomes.drop_last();
        let last = outcomes.len() - 1;
        assert(outcomes.take(last) =~= front);
        lemma_run_bound(course, front);
        law_only_owed_operations(steps, git, plan, front);
        let before = run_after(course, front);
        lemma_nothing_is_skipped(steps, git, plan, before, outcomes.last(), operation);
        if earlier(operation, before.stage) {
            law_operations_keep_their_order(steps, git, plan, front, operation);
            let k = choose|k: int|
                0 <= k < front.len() && (#[trigger] run_after(course, front.take(k))).stage
                    == operation && front[k] is Ok;
            assert(front.take(k) =~= outcomes.take(k));
            assert(run_after(course, outcomes.take(k)).stage == operation);
        } else {
            assert(before.stage == operation);
            assert(run_after(course, outcomes.take(last)).stage == operation);
        }
    }
}

proof fn lemma_course_fits(steps: Seq<Step>, git: GitConfig, plan: WorkflowPlan)
    requires
        steps.len() <= usize::MAX,
    ensures
        fits(course_of(steps, git, plan)),
        course_of(steps, git, plan).hooks.len() == steps.len(),
        forall|i: int|
            0 <= i < steps.len() ==> (#[trigger] steps[i]).pre_hooks@.len() <= usize::MAX
                && steps[i].post_hooks@.len() <= usize::MAX && course_of(
                steps,
                git,
                plan,
            ).hooks[i] == (steps[i].pre_hooks@.len(), steps[i].post_hooks@.len()),
{
    let course = course_of(steps, git, plan);
    assert forall|i: int| 0 <= i < steps.len() implies (
    #[trigger] steps[i]).pre_hooks@.len() <= usize::MAX && steps[i].post_hooks@.len() <= usize::MAX
        && course.hooks[i] == (steps[i].pre_hooks@.len(), steps[i].post_hooks@.len()) by {
        assert(steps[i].pre_hooks@.len() == steps[i].pre_hooks.len());
        assert(steps[i].post_hooks@.len() == steps[i].post_hooks.len());
    }
    assert forall|i: int| 0 <= i < course.hooks.len() implies (#[trigger] course.hooks[i]).0
        <= usize::MAX && course.hooks[i].1 <= usize::MAX by {
        assert(steps[i].pre_hooks@.len() <= usize::MAX);
    }
}

/// Between an operation that went through and the next one stands nothing that
/// is owed.
proof fn lemma_nothing_is_skipped(
    steps: Seq<Step>,
    git: GitConfig,
    plan: WorkflowPlan,
    before: RunState,
    outcome: Result<bool, Seq<char>>,
    operation: RunStage,
)
    requires
        steps.len() <= usize::MAX,
        in_course(course_of(steps, git, plan), before.stage),
        owed(steps, git, before.stage) || before.stage is Done || git.worktree
            && before.stage is PushCommits,
        owed(steps, git, operation),
        advanced(course_of(steps, git, plan), before, outcome).error is None,
        earlier(operation, advanced(course_of(steps, git, plan), before, outcome).stage),
    ensures
        before.error is None,
        earlier(operation, before.stage) || operation == before.stage && outcome is Ok,
{
    lemma_course_fits(steps, git, plan);
    let course = course_of(steps, git, plan);
    let after = advanced(course, before, outcome).stage;
    assert(outcome is Ok || before.stage is Done);
    match before.stage {
        RunStage::PreHook { step, hook } => {
            assert(course.hooks[step as int].0 == steps[step as int].pre_hooks@.len());
        },
        RunStage::WritePrompt { step } => {
            assert(after == RunStage::RunHarness { step });
        },
        RunStage::RunHarness { step } => {
            assert(course.hooks[step as int].1 == steps[step as int].post_hooks@.len());
            lemma_step_begins(steps, git, plan, (step + 1) as nat, operation);
        },
        RunStage::PostHook { step, hook } => {
            assert(course.hooks[step as int].1 == steps[step as int].post_hooks@.len());
            lemma_step_begins(steps, git, plan, (step + 1) as nat, operation);
        },
        RunStage::CreateWorkspace | RunStage::EnsureRepo | RunStage::CreateWorktree => {
            lemma_step_begins(steps, git, plan, 0, operation);
        },
        _ => {},
    }
}

/// What stands before the beginning of a step belongs to an earlier step, or
/// stands before the steps.
proof fn lemma_step_begins(
    steps: Seq<Step>,
    git: GitConfig,
    plan: WorkflowPlan,
    step: nat,
    operation: RunStage,
)
    requires
        steps.len() <= usize::MAX,
        step <= steps.len(),
        owed(steps, git, operation),
        earlier(operation, step_begins(course_of(steps, git, plan), step)),
    ensures
        place(operation).0 < 3 || place(operation).0 == 3 && place(operation).1 < step,
{
    lemma_course_fits(steps, git, plan);
    let course = course_of(steps, git, plan);
    if step < steps.len() {
        assert(course.hooks[step as int].0 == steps[step as int].pre_hooks@.len());
        assert(place(step_begins(course, step)).1 == step);
    }
}

/// A run carries out only what its steps and the configuration of git ask
/// for: no hook that is not there, no clone and no worktree unless asked for,
/// and a push only where there is a worktree.
pub proof fn law_only_owed_operations(
    steps: Seq<Step>,
    git: GitConfig,
    plan: WorkflowPlan,
    outcomes: Seq<Result<bool, Seq<char>>>,
)
    requires
        steps.len() <= usize::MAX,
    ensures
        ({
            let stage = run_after(course_of(steps, git, plan), outcomes).stage;
            owed(steps, git, stage) || stage is Done || git.worktree && stage is PushCommits
        }),
    decreases outcomes.len(),
{
    lemma_course_fits(steps, git, plan);
    if outcomes.len() > 0 {
        law_only_owed_operations(steps, git, plan, outcomes.drop_last());
        lemma_run_bound(course_of(steps, git, plan), outcomes.drop_last());
    }
}

/// A run that is over without an error has carried out everything that its
/// steps and the configuration of git ask for, every hook, prompt and harness
/// of every step among it, and all of it went through.
pub proof fn law_run_without_error_is_complete(
    steps: Seq<Step>,
    git: GitConfig,
    plan: WorkflowPlan,
    outcomes: Seq<Result<bool, Seq<char>>>,
    operation: RunStage,
)
    requires
        steps.len() <= usize::MAX,
        run_after(course_of(steps, git, plan), outcomes).stage is Done,
        run_after(course_of(steps, git, plan), outcomes).error is None,
        owed(steps, git, operation),
    ensures
        went_through(course_of(steps, git, plan), outcomes, operation),
{
    law_operations_keep_their_order(steps, git, plan, outcomes, operation);
}

/// What follows a failure. Before the steps it ends the run. In a step it ends
/// the steps: what is left is to see to the worktree, if there is one. In the
/// removal of the worktree it ends the run, and leaves the worktree there.
pub proof fn law_failure_cuts_the_run_short(
    steps: Seq<Step>,
    git: GitConfig,
    plan: WorkflowPlan,
    outcomes: Seq<Result<bool, Seq<char>>>,
    cause: Seq<char>,
)
    ensures
        ({
            let before = run_after(course_of(steps, git, plan), outcomes).stage;
            let after = run_after(course_of(steps, git, plan), outcomes.push(Err(cause))).stage;
            if git.worktree && place(before).0 == 3 {
                after is CheckChanges
            } else {
                after is Done
            }
        }),
{
    assert(outcomes.push(Err(cause)).drop_last() =~= outcomes);
}

/// What comes of the worktree once the steps are over: with uncommitted
/// changes it is left where it is, and the run ends with an error that names
/// the place, unless there is an earlier error; commits that were not pushed
/// are pushed before it is removed; otherwise it is removed right away.
pub proof fn law_worktree_is_seen_to(
    steps: Seq<Step>,
    git: GitConfig,
    plan: WorkflowPlan,
    worktree: Worktree,
    outcomes: Seq<Result<bool, Seq<char>>>,
    yes: bool,
)
    requires
        plan.worktree == Some(worktree),
    ensures
        ({
            let before = run_after(course_of(steps, git, plan), outcomes);
            let after = run_after(course_of(steps, git, plan), outcomes.push(Ok(yes)));
            &&& before.error is Some ==> after.error == before.error
            &&& before.stage is CheckChanges && yes ==> after.stage is Done && (before.error is None
                ==> after.error == Some(
                "worktree has uncommitted changes — leaving worktree at "@ + worktree.path@
                    + " for manual inspection"@,
            ))
            &&& before.stage is CheckChanges && !yes ==> after.stage is CheckCommits && after.error
                == before.error
            &&& before.stage is CheckCommits ==> after.error == before.error && (if yes {
                after.stage is PushCommits
            } else {
                after.stage is RemoveWorktree
            })
            &&& before.stage is PushCommits ==> after.stage is RemoveWorktree && after.error
                == before.error
            &&& before.stage is RemoveWorktree ==> after.stage is Done && after.error
                == before.error
        }),
{
    assert(outcomes.push(Ok(yes)).drop_last() =~= outcomes);
}

/// A worktree without a clone cannot be had: such a run does not get to its
/// steps, and fails.
pub proof fn law_worktree_needs_a_clone(
    steps: Seq<Step>,
    git: GitConfig,
    plan: WorkflowPlan,
    outcomes: Seq<Result<bool, Seq<char>>>,
)
    requires
        git.worktree,
        !git.clone,
        outcomes.len() > 0,
    ensures
        run_after(course_of(steps, git, plan), outcomes).stage is Done,
        run_after(course_of(steps, git, plan), outcomes).error == Some(
            match outcomes[0] {
                Ok(_) => "git.worktree requires a repo (git.clone must be true)"@,
                Err(e) => e,
            },
        ),
    decreases outcomes.len(),
{
    let course = course_of(steps, git, plan);
    let front = outcomes.drop_last();
    if front.len() > 0 {
        law_worktree_needs_a_clone(steps, git, plan, front);
        assert(front[0] == outcomes[0]);
    } else {
        assert(run_after(course, front).stage is CreateWorkspace);
    }
}

/// An operation of a run that has not failed and goes through is no error,
/// but for uncommitted changes and for a worktree without a clone.
pub proof fn law_success_is_no_error(
    steps: Seq<Step>,
    git: GitConfig,
    plan: WorkflowPlan,
    outcomes: Seq<Result<bool, Seq<char>>>,
    yes: bool,
)
    requires
        git.worktree ==> git.clone,
        run_after(course_of(steps, git, plan), outcomes).stage is CheckChanges ==> !yes,
    ensures
        run_after(course_of(steps, git, plan), outcomes.push(Ok(yes))).error == run_after(
            course_of(steps, git, plan),
            outcomes,
        ).error,
{
    assert(outcomes.push(Ok(yes)).drop_last() =~= outcomes);
}

// ---------------------------------------------------------------------------
// Laws of the plan
// ---------------------------------------------------------------------------

/// Where a run takes place. Its directory is that of its workspace, below the
/// owner and the repository of its event. The clone, if the configuration asks
/// for one, is `repo` below the repository; the worktree, if it asks for one,
/// is below the directory of the run and named after the number. The harnesses
/// run in the worktree if there is one, else in the clone if there is one, else
/// in the directory of the run.
pub proof fn law_run_takes_place_where_it_should(
    key: EventKey,
    data_root: &str,
    show_logs: bool,
    git: GitConfig,
    secs: i64,
    plan: WorkflowPlan,
)
    requires
        call_ensures(run_workflow_at, (&key, data_root, show_logs, &git, secs), plan),
        data_root@.len() > 0,
        data_root@.last() != '/',
        crate::paths::plain_name(key.owner@),
        crate::paths::plain_name(key.repo@),
        crate::paths::plain_name(key.workspace_id@),
    ensures
        ({
            let below_repo = data_root@ + "/"@ + key.owner@ + "/"@ + key.repo@ + "/"@;
            let workspace = below_repo + key.workspace_id@;
            let clone = below_repo + "repo"@;
            let worktree = workspace + "/worktree-"@ + decimal(key.number as nat);
            &&& plan.context.workspace_dir@ == workspace
            &&& plan.repo_dir is Some <==> git.clone
            &&& plan.repo_dir matches Some(dir) ==> dir@ == clone
            &&& plan.worktree is Some <==> git.worktree
            &&& plan.worktree matches Some(w) ==> w.path@ == worktree
            &&& git.worktree ==> plan.context.harness_work_dir@ == worktree
            &&& !git.worktree && git.clone ==> plan.context.harness_work_dir@ == clone
            &&& !git.worktree && !git.clone ==> plan.context.harness_work_dir@ == workspace
        }),
{
    reveal_strlit("/");
    reveal_strlit("repo");
    reveal_strlit("worktree-");
    reveal_strlit("/worktree-");
    let owner = joined_path(data_root@, key.owner@);
    let repo = joined_path(owner, key.repo@);
    let workspace = joined_path(repo, key.workspace_id@);
    assert(key.owner@[0] != '/' && key.repo@[0] != '/' && key.workspace_id@[0] != '/');
    assert(owner == data_root@ + "/"@ + key.owner@);
    assert(owner.last() == key.owner@.last());
    assert(key.owner@[key.owner@.len() - 1] != '/');
    assert(repo == owner + "/"@ + key.repo@);
    assert(repo.last() == key.repo@.last());
    assert(key.repo@[key.repo@.len() - 1] != '/');
    assert(workspace == repo + "/"@ + key.workspace_id@);
    assert(workspace.last() == key.workspace_id@.last());
    assert(key.workspace_id@[key.workspace_id@.len() - 1] != '/');
    assert(workspace =~= data_root@ + "/"@ + key.owner@ + "/"@ + key.repo@ + "/"@
        + key.workspace_id@);
    assert(joined_path(repo, "repo"@) =~= data_root@ + "/"@ + key.owner@ + "/"@ + key.repo@ + "/"@
        + "repo"@);
    assert(worktree_text(key.number)[0] == 'w');
    assert(joined_path(workspace, worktree_text(key.number)) =~= workspace + "/worktree-"@
        + decimal(key.number as nat));
}

/// The branch of a worktree is that of its event and of the second at which the
/// run begins: `ao/`, the label of the event, in which slashes and hash signs
/// are hyphens, a hyphen and the second. The steps log under the label of the
/// event, and show their output if that is asked for.
pub proof fn law_run_bears_the_label_of_its_event(
    key: EventKey,
    data_root: &str,
    show_logs: bool,
    git: GitConfig,
    secs: i64,
    plan: WorkflowPlan,
)
    requires
        call_ensures(run_workflow_at, (&key, data_root, show_logs, &git, secs), plan),
    ensures
        plan.context.key@ == key.label@,
        plan.context.show_logs == show_logs,
        plan.worktree matches Some(w) ==> {
            let label = key.label@;
            let branch = w.branch@;
            let n = label.len() as int;
            &&& branch.len() > 4 + n
            &&& branch.take(3) == "ao/"@
            &&& forall|i: int|
                0 <= i < n ==> #[trigger] branch[3 + i] == (if label[i] == '/' || label[i] == '#' {
                    '-'
                } else {
                    label[i]
                })
            &&& branch[3 + n] == '-'
            &&& branch.skip(4 + n) == signed_decimal(secs as int)
        },
{
    reveal_strlit("ao/");
    reveal_strlit("-");
    if let Some(w) = plan.worktree {
        let label = key.label@;
        let n = label.len() as int;
        let branch = w.branch@;
        crate::text::lemma_decimal_value(
            if secs < 0 {
                (-secs) as nat
            } else {
                secs as nat
            },
        );
        let clean = sanitized_label(label);
        assert(clean.len() == n);
        assert(branch.take(3) =~= "ao/"@);
        assert forall|i: int| 0 <= i < n implies #[trigger] branch[3 + i] == (if label[i] == '/'
            || label[i] == '#' {
            '-'
        } else {
            label[i]
        }) by {
            assert(branch[3 + i] == clean[i]);
            assert(char_replaced(label, '/', '-')[i] == (if label[i] == '/' {
                '-'
            } else {
                label[i]
            }));
        }
        assert(branch.skip(4 + n) =~= signed_decimal(secs as int));
    }
}

/// Two runs of one event that begin at different seconds have different
/// branches.
pub proof fn law_later_run_has_another_branch(
    label: &str,
    secs: i64,
    other_secs: i64,
    branch: String,
    other_branch: String,
)
    requires
        0 <= secs < other_secs,
        call_ensures(branch_name, (label, secs), branch),
        call_ensures(branch_name, (label, other_secs), other_branch),
    ensures
        branch@ != other_branch@,
{
    let head = "ao/"@ + sanitized_label(label@) + "-"@;
    if branch@ == other_branch@ {
        assert(branch@.skip(head.len() as int) =~= decimal(secs as nat));
        assert(other_branch@.skip(head.len() as int) =~= decimal(other_secs as nat));
        crate::text::law_decimal_injective(secs as nat, other_secs as nat);
    }
}

/// What the template variables of a run are: those of the trigger, and, unless
/// the trigger sets them itself, the owner and the repository of the event, the
/// default branch, the directory of the run, and the clone.
pub proof fn law_run_variables(
    key: EventKey,
    data_root: &str,
    show_logs: bool,
    git: GitConfig,
    secs: i64,
    plan: WorkflowPlan,
    name: Seq<char>,
)
    requires
        call_ensures(run_workflow_at, (&key, data_root, show_logs, &git, secs), plan),
        distinct_keys(key.variables@),
    ensures
        lookup(key.variables@, name) is Some ==> lookup(plan.context.vars@, name) == lookup(
            key.variables@,
            name,
        ),
        lookup(key.variables@, name) is None ==> {
            let value = lookup(plan.context.vars@, name);
            &&& name == "owner"@ ==> value == Some(key.owner@)
            &&& name == "repo"@ ==> value == Some(key.repo@)
            &&& name == "default_branch"@ ==> value == Some(git.default_branch@)
            &&& name == "output_path"@ ==> value == Some(plan.context.workspace_dir@)
            &&& name == "repo_path"@ ==> value == Some(
                match plan.repo_dir {
                    Some(dir) => dir@,
                    None => Seq::empty(),
                },
            )
            &&& value is Some ==> name == "owner"@ || name == "repo"@ || name == "default_branch"@
                || name == "output_path"@ || name == "repo_path"@
        },
{
    let global = global_vars(data_root@, key, git);
    lemma_lookup_among(global, key.variables@, name);
    reveal_strlit("owner");
    reveal_strlit("repo");
    reveal_strlit("default_branch");
    reveal_strlit("output_path");
    reveal_strlit("repo_path");
    assert("owner"@.len() == 5);
    assert("repo"@.len() == 4);
    assert("default_branch"@.len() == 14);
    assert("output_path"@.len() == 11);
    assert("repo_path"@.len() == 9);
    lemma_lookup_at(global, name);
    if lookup(key.variables@, name) is None {
        if name == "owner"@ {
            assert(global[0].0 == name);
        }
        if name == "repo"@ {
            assert(global[1].0 == name);
        }
        if name == "default_branch"@ {
            assert(global[2].0 == name);
        }
        if name == "output_path"@ {
            assert(global[3].0 == name);
        }
        if name == "repo_path"@ {
            assert(global[4].0 == name);
        }
    }
}

/// The files of a step stand in the directory of the run, under one name with
/// three endings, and so are three different files. The step runs where the
/// harnesses of the run do, and logs under the label of the event.
pub proof fn law_step_has_its_files(
    index: usize,
    step: Step,
    context: RunContext,
    out: StepContext,
)
    requires
        call_ensures(step_context, (index, &step, &context), out),
        context.workspace_dir@.len() > 0,
        context.workspace_dir@.last() != '/',
    ensures
        ({
            let file = context.workspace_dir@ + "/step_"@ + two_digits(index as nat) + "_"@
                + char_replaced(step.name@, ' ', '-');
            &&& out.error_path@ == file + ".error"@
            &&& out.log_path@ == file + ".log"@
            &&& out.prompt_path@ == file + ".prompt"@
        }),
        out.error_path@ != out.log_path@,
        out.error_path@ != out.prompt_path@,
        out.log_path@ != out.prompt_path@,
        out.work_dir@ == context.harness_work_dir@,
        out.key@ == context.key@,
        out.show_logs == context.show_logs,
{
    reveal_strlit("/");
    reveal_strlit("step_");
    reveal_strlit("/step_");
    reveal_strlit(".error");
    reveal_strlit(".log");
    reveal_strlit(".prompt");
    let dir = context.workspace_dir@;
    let file = dir + "/step_"@ + two_digits(index as nat) + "_"@ + char_replaced(
        step.name@,
        ' ',
        '-',
    );
    assert(step_file_text(index as nat, step.name@, ".error"@)[0] == 's');
    assert(step_file_text(index as nat, step.name@, ".log"@)[0] == 's');
    assert(step_file_text(index as nat, step.name@, ".prompt"@)[0] == 's');
    assert(out.error_path@ =~= file + ".error"@);
    assert(out.log_path@ =~= file + ".log"@);
    assert(out.prompt_path@ =~= file + ".prompt"@);
    assert(out.error_path@.len() == file.len() + 6);
    assert(out.log_path@.len() == file.len() + 4);
    assert(out.prompt_path@.len() == file.len() + 7);
}

/// What a step with the hermes harness hands to it: the prompt with the
/// variables filled in, the options of its own harness, and the directory, the
/// files and the label of the step.
pub proof fn law_step_hands_itself_to_hermes(
    step: Step,
    context: StepContext,
    vars: Vars,
    plan: StepPlan,
)
    requires
        call_ensures(run_step, (&step, &context, &vars), plan),
        step.harness is Hermes,
    ensures
        plan.harness@ == "hermes"@,
        plan.prompt@ == rendered(step.prompt_template@, vars@),
        plan.invocation is Ok,
        plan.invocation->Ok_0 is Hermes,
        ({
            let args = plan.invocation->Ok_0->Hermes_0;
            &&& args.prompt@ == plan.prompt@
            &&& args.profile@ == step.harness->profile@
            &&& opt_view(args.provider) == opt_view(step.harness->Hermes_provider)
            &&& opt_view(args.model) == opt_view(step.harness->Hermes_model)
            &&& args.max_turns == step.harness->Hermes_max_turns
            &&& args.work_dir is Some
            &&& args.work_dir->0@ == context.work_dir@
            &&& args.error_file@ == context.error_path@
            &&& args.log_file@ == context.log_path@
            &&& args.show_logs == context.show_logs
            &&& args.issue@ == context.key@
            &&& args.step@ == step.name@
        }),
{
}

/// What a step with the hermes API harness hands to it: the prompt with the
/// variables filled in, the options of its own harness, and the directory, the
/// files and the label of the step.
pub proof fn law_step_hands_itself_to_the_api(
    step: Step,
    context: StepContext,
    vars: Vars,
    plan: StepPlan,
)
    requires
        call_ensures(run_step, (&step, &context, &vars), plan),
        step.harness is HermesApi,
    ensures
        plan.harness@ == "hermes_api"@,
        plan.prompt@ == rendered(step.prompt_template@, vars@),
        plan.invocation matches Ok(invocation) ==> {
            let call = invocation->HermesApi_0;
            &&& invocation is HermesApi
            &&& call.prompt@ == plan.prompt@
            &&& opt_view(call.provider) == opt_view(step.harness->HermesApi_provider)
            &&& opt_view(call.model) == opt_view(step.harness->HermesApi_model)
            &&& call.workspace_dir@ == context.work_dir@
            &&& call.error_path@ == context.error_path@
            &&& call.log_path@ == context.log_path@
            &&& call.show_logs == context.show_logs
            &&& call.issue@ == context.key@
            &&& call.step_name@ == step.name@
        },
{
}

/// A run is over with an error exactly if it has one.
pub proof fn law_result_is_the_error(run: WorkflowRun, result: Result<(), String>)
    requires
        call_ensures(WorkflowRun::result, (&run,), result),
    ensures
        result is Err <==> run.error is Some,
        result matches Err(e) ==> e@ == run.error->0@,
{
}

/// What a run makes of the failure of its current operation: it has an error
/// from then on, which is that of the operation unless there was one before.
pub proof fn law_failed_operation_is_an_error(
    run: &mut WorkflowRun,
    steps: Vec<Step>,
    git: GitConfig,
    plan: WorkflowPlan,
    cause: String,
)
    requires
        call_ensures(WorkflowRun::next, (run, &steps, &git, &plan, Err(cause)), ()),
        !(old(run).stage is Done),
    ensures
        final(run).error is Some,
        old(run).error is Some ==> final(run).error->0@ == old(run).error->0@,
        old(run).error is None && !(old(run).stage is WritePrompt) ==> final(run).error->0@
            == cause@,
        old(run).error is None && old(run).stage is WritePrompt ==> final(run).error->0@
            == "failed to write prompt log: "@ + cause@,
        !git.worktree ==> final(run).stage is Done,
        git.worktree && place(old(run).stage).0 == 3 ==> final(run).stage is CheckChanges,
        git.worktree && place(old(run).stage).0 != 3 ==> final(run).stage is Done,
{
    assert(final(run)@.stage == final(run).stage);
    assert(final(run)@.error == opt_view(final(run).error));
    assert(old(run)@.error == opt_view(old(run).error));
}

/// What a run does after an operation that went through: the next one that its
/// steps and the configuration of git ask for, and without skipping one.
pub proof fn law_operation_is_followed_by_the_next(
    run: &mut WorkflowRun,
    steps: Vec<Step>,
    git: GitConfig,
    plan: WorkflowPlan,
    yes: bool,
    operation: RunStage,
)
    requires
        call_ensures(WorkflowRun::next, (run, &steps, &git, &plan, Ok(yes)), ()),
        owed(steps@, git, old(run).stage),
        old(run).error is None,
        final(run).error is None,
        owed(steps@, git, operation),
        earlier(operation, final(run).stage),
    ensures
        earlier(operation, old(run).stage) || operation == old(run).stage,
{
    assert(steps@.len() == steps.len());
    let course = course_of(steps@, git, plan);
    lemma_course_fits(steps@, git, plan);
    assert(old(run)@.stage == old(run).stage);
    assert(final(run)@.stage == final(run).stage);
    assert(old(run)@.error == opt_view(old(run).error));
    assert(final(run)@.error == opt_view(final(run).error));
    assert(in_course(course, old(run)@.stage));
    lemma_nothing_is_skipped(steps@, git, plan, old(run)@, Ok(yes), operation);
}

/// A run begins with the creation of its directory, and without an error.
pub proof fn law_run_begins(run: WorkflowRun)
    requires
        call_ensures(WorkflowRun::start, (), run),
    ensures
        run.stage is CreateWorkspace,
        run.error is None,
{
    assert(run@.stage == run.stage);
    assert(run@.error == opt_view(run.error));
}

} // verus!
