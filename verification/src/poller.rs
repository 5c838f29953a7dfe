//! The poll loop: when workflow files are loaded again, which triggers are
//! polled, and which events are handed to the dispatcher.
use std::sync::Arc;
use vstd::prelude::*;

use crate::config::{
    has_toml_extension, is_toml_name, lemma_workflow_file, workflow_file, Config, GitConfig,
    RepoConfig,
};
use crate::dispatcher::{file_text, read_json_array, stored_keys, DispatchMessage};
use crate::keys::KeySet;
use crate::paths::{join, joined_path};
use crate::text::{opt_view, str_eq, views};
use crate::trigger::{trigger_built, BuiltTrigger, TriggerEvent};
use crate::workflow::Step;

verus! {

/// The events that the file of completed events holds.
pub fn load_completed(text: Option<&str>) -> (completed: KeySet)
    ensures
        completed@ == stored_keys(file_text(text)).to_set(),
{
    KeySet::from_list(read_json_array(text))
}

// ---------------------------------------------------------------------------
// Workflow files
// ---------------------------------------------------------------------------

/// The files with the times of their last changes, where a later entry takes
/// the place of an earlier one of the same file.
pub open spec fn stamps(files: Seq<(Seq<char>, i128)>) -> Map<Seq<char>, i128>
    decreases files.len(),
{
    if files.len() == 0 {
        Map::empty()
    } else {
        stamps(files.drop_last()).insert(files.last().0, files.last().1)
    }
}

/// Workflow files and the times of their last changes, in nanoseconds.
pub struct FileState {
    files: Vec<(String, i128)>,
}

impl FileState {
    closed spec fn list(&self) -> Seq<(Seq<char>, i128)> {
        self.files@.map_values(|f: (String, i128)| (f.0@, f.1))
    }
}

impl View for FileState {
    type V = Map<Seq<char>, i128>;

    closed spec fn view(&self) -> Map<Seq<char>, i128> {
        stamps(self.list())
    }
}

impl FileState {
    /// No files.
    pub fn new() -> (state: FileState)
        ensures
            state@ == Map::<Seq<char>, i128>::empty(),
    {
        let state = FileState { files: Vec::new() };
        assert(state.list() =~= Seq::<(Seq<char>, i128)>::empty());
        state
    }

    /// Adds a file, or replaces the time of one.
    pub fn insert(&mut self, path: String, modified: i128)
        ensures
            final(self)@ == old(self)@.insert(path@, modified),
    {
        let ghost before = self.list();
        self.files.push((path, modified));
        assert(self.list() =~= before.push((path@, modified)));
        assert(self.list().drop_last() =~= before);
    }

    /// The time of the last change of a file.
    pub fn get(&self, path: &str) -> (modified: Option<i128>)
        ensures
            match modified {
                Some(m) => self@.dom().contains(path@) && self@[path@] == m,
                None => !self@.dom().contains(path@),
            },
    {
        let mut n: usize = self.files.len();
        assert(self.list().take(n as int) =~= self.list());
        while n > 0
            invariant
                n <= self.files.len(),
                self.list().len() == self.files.len(),
                self@.dom().contains(path@) == stamps(self.list().take(n as int)).dom().contains(
                    path@,
                ),
                self@.dom().contains(path@) ==> self@[path@] == stamps(
                    self.list().take(n as int),
                )[path@],
            decreases n,
        {
            assert(self.list().take(n as int).drop_last() =~= self.list().take(n - 1));
            assert(self.list().take(n as int).last() == self.list()[n - 1]);
            if str_eq(self.files[n - 1].0.as_str(), path) {
                return Some(self.files[n - 1].1);
            }
            n -= 1;
        }
        None
    }

    /// Whether every file is in the other state too, with the same time.
    fn within(&self, other: &FileState) -> (yes: bool)
        ensures
            yes == (forall|p: Seq<char>| #[trigger]
                self@.dom().contains(p) ==> other@.dom().contains(p) && other@[p] == self@[p]),
    {
        let mut i: usize = 0;
        while i < self.files.len()
            invariant
                i <= self.files.len(),
                self.list().len() == self.files.len(),
                forall|j: int|
                    0 <= j < i ==> other@.dom().contains((#[trigger] self.list()[j]).0)
                        && other@[self.list()[j].0] == self@[self.list()[j].0],
            decreases self.files.len() - i,
        {
            let path = self.files[i].0.as_str();
            let own = self.get(path);
            let theirs = other.get(path);
            proof {
                assert(self.list()[i as int].0 == path@);
                lemma_stamps(self.list());
                assert(self@.dom().contains(self.list()[i as int].0));
            }
            if theirs.is_none() || theirs != own {
                return false;
            }
            i += 1;
        }
        proof {
            lemma_stamps(self.list());
            assert forall|p: Seq<char>| #[trigger] self@.dom().contains(p) implies other@.dom().contains(
            p) && other@[p] == self@[p] by {
                let j = choose|j: int| 0 <= j < self.list().len() && self.list()[j].0 == p;
                assert(self.list()[j].0 == p);
            }
        }
        true
    }

    /// Whether a file was added, removed or changed between two states.
    pub fn differs(&self, other: &FileState) -> (yes: bool)
        ensures
            yes == (self@ != other@),
    {
        let same = self.within(other) && other.within(self);
        proof {
            if same {
                assert(self@.dom() =~= other@.dom());
                assert(self@ =~= other@);
            }
        }
        !same
    }
}

proof fn lemma_stamps(files: Seq<(Seq<char>, i128)>)
    ensures
        forall|p: Seq<char>| #[trigger]
            stamps(files).dom().contains(p) <==> exists|j: int|
                0 <= j < files.len() && (#[trigger] files[j]).0 == p,
    decreases files.len(),
{
    if files.len() > 0 {
        let front = files.drop_last();
        lemma_stamps(front);
        assert forall|p: Seq<char>| #[trigger] stamps(files).dom().contains(p) <==> exists|j: int|
            0 <= j < files.len() && (#[trigger] files[j]).0 == p by {
            if stamps(front).dom().contains(p) {
                let j = choose|j: int| 0 <= j < front.len() && (#[trigger] front[j]).0 == p;
                assert(files[j].0 == p);
            }
            assert(files[files.len() - 1] == files.last());
            if exists|j: int| 0 <= j < files.len() && (#[trigger] files[j]).0 == p {
                let j = choose|j: int| 0 <= j < files.len() && (#[trigger] files[j]).0 == p;
                if j < front.len() {
                    assert(front[j].0 == p);
                }
            }
        }
    }
}

/// An entry of the workflows directory: its name, and when it was last
/// changed if that is known.
pub struct DirEntry {
    pub name: String,
    pub modified: Option<i128>,
}

/// What was found in the workflows directory. An entry may turn out to be
/// unreadable.
pub enum DirScan {
    Unreadable(String),
    Entries(Vec<Result<DirEntry, String>>),
}

/// The files after one more entry: a workflow file whose time is known is
/// added, anything else is passed over.
pub open spec fn with_dir_entry(
    files: Map<Seq<char>, i128>,
    dir: Seq<char>,
    entry: Result<DirEntry, String>,
) -> Map<Seq<char>, i128> {
    match entry {
        Ok(e) => match e.modified {
            Some(modified) => if is_toml_name(e.name@) {
                files.insert(joined_path(dir, e.name@), modified)
            } else {
                files
            },
            None => files,
        },
        Err(_) => files,
    }
}

/// The workflow files among the entries of a directory.
pub open spec fn scanned(dir: Seq<char>, entries: Seq<Result<DirEntry, String>>) -> Map<
    Seq<char>,
    i128,
>
    decreases entries.len(),
{
    if entries.len() == 0 {
        Map::empty()
    } else {
        with_dir_entry(scanned(dir, entries.drop_last()), dir, entries.last())
    }
}

/// The first entry that is unreadable: what is wrong with it.
pub open spec fn first_unreadable(entries: Seq<Result<DirEntry, String>>) -> Option<Seq<char>>
    decreases entries.len(),
{
    if entries.len() == 0 {
        None
    } else {
        match first_unreadable(entries.drop_last()) {
            Some(e) => Some(e),
            None => match entries.last() {
                Ok(_) => None,
                Err(e) => Some(e@),
            },
        }
    }
}

/// The first entry that is unreadable.
fn find_unreadable(entries: &Vec<Result<DirEntry, String>>) -> (failure: Option<String>)
    ensures
        opt_view(failure) == first_unreadable(entries@),
{
    let mut failure: Option<String> = None;
    let mut i: usize = 0;
    while i < entries.len()
        invariant
            i <= entries.len(),
            opt_view(failure) == first_unreadable(entries@.take(i as int)),
        decreases entries.len() - i,
    {
        assert(entries@.take(i + 1).drop_last() =~= entries@.take(i as int));
        assert(entries@.take(i + 1).last() == entries@[i as int]);
        if failure.is_none() {
            if let Err(e) = &entries[i] {
                failure = Some(e.clone());
            }
        }
        i += 1;
    }
    assert(entries@.take(i as int) =~= entries@);
    failure
}

/// The workflow files among the entries of a directory.
pub fn scan(dir: &str, entries: &Vec<Result<DirEntry, String>>) -> (state: FileState)
    ensures
        state@ == scanned(dir@, entries@),
{
    let mut state = FileState::new();
    let mut i: usize = 0;
    while i < entries.len()
        invariant
            i <= entries.len(),
            state@ == scanned(dir@, entries@.take(i as int)),
        decreases entries.len() - i,
    {
        assert(entries@.take(i + 1).drop_last() =~= entries@.take(i as int));
        assert(entries@.take(i + 1).last() == entries@[i as int]);
        if let Ok(entry) = &entries[i] {
            if let Some(modified) = entry.modified {
                if has_toml_extension(entry.name.as_str()) {
                    state.insert(join(dir, entry.name.as_str()), modified);
                }
            }
        }
        i += 1;
    }
    assert(entries@.take(i as int) =~= entries@);
    state
}

// ---------------------------------------------------------------------------
// Workflows
// ---------------------------------------------------------------------------

/// A workflow, ready for polling.
pub struct WorkflowEntry {
    pub triggers: Vec<BuiltTrigger>,
    pub steps: Arc<Vec<Step>>,
    pub repos: Vec<RepoConfig>,
    pub git_config: GitConfig,
}

/// `entry` is the workflow of a configuration.
pub open spec fn entry_of(config: Config, token: Seq<char>, entry: WorkflowEntry) -> bool {
    &&& entry.triggers@.len() == config.triggers@.len()
    &&& forall|i: int|
        0 <= i < config.triggers@.len() ==> trigger_built(
            config.triggers@[i],
            token,
            #[trigger] entry.triggers@[i],
        )
    &&& *entry.steps == config.steps
    &&& entry.repos == config.repos
    &&& entry.git_config == config.git
}

/// `entries` are the workflows of the configurations, in order.
pub open spec fn entries_of(
    configs: Seq<Config>,
    token: Seq<char>,
    entries: Seq<WorkflowEntry>,
) -> bool {
    &&& entries.len() == configs.len()
    &&& forall|i: int|
        0 <= i < configs.len() ==> entry_of(configs[i], token, #[trigger] entries[i])
}

fn make_entry(config: Config, token: &str) -> (entry: WorkflowEntry)
    ensures
        entry_of(config, token@, entry),
{
    let mut triggers: Vec<BuiltTrigger> = Vec::new();
    let mut i: usize = 0;
    while i < config.triggers.len()
        invariant
            i <= config.triggers.len(),
            triggers@.len() == i,
            forall|j: int|
                0 <= j < i ==> trigger_built(
                    config.triggers@[j],
                    token@,
                    #[trigger] triggers@[j],
                ),
        decreases config.triggers.len() - i,
    {
        triggers.push(config.triggers[i].build(token));
        i += 1;
    }
    WorkflowEntry {
        triggers,
        steps: Arc::new(config.steps),
        repos: config.repos,
        git_config: config.git,
    }
}

/// Why the workflows cannot be loaded; nothing if they can. The directory and
/// all of its entries have to be readable.
pub open spec fn load_failure(configs: Result<Vec<Config>, String>, listing: DirScan) -> Option<
    Seq<char>,
> {
    match configs {
        Err(e) => Some(e@),
        Ok(_) => match listing {
            DirScan::Unreadable(e) => Some(e@),
            DirScan::Entries(entries) => first_unreadable(entries@),
        },
    }
}

/// The workflows of the loaded configurations, with the state of the files;
/// or why loading failed.
pub fn load_workflow_entries(
    configs: Result<Vec<Config>, String>,
    token: &str,
    dir: &str,
    listing: &DirScan,
) -> (loaded: Result<(Vec<WorkflowEntry>, FileState), String>)
    ensures
        match loaded {
            Ok((entries, state)) => {
                &&& load_failure(configs, *listing) is None
                &&& entries_of(configs->Ok_0@, token@, entries@)
                &&& state@ == scanned(dir@, listing->Entries_0@)
            },
            Err(e) => load_failure(configs, *listing) == Some(e@),
        },
{
    match configs {
        Err(e) => Err(e),
        Ok(list) => {
            let files = match listing {
                DirScan::Unreadable(e) => {
                    return Err(e.clone());
                },
                DirScan::Entries(files) => files,
            };
            if let Some(e) = find_unreadable(files) {
                return Err(e);
            }
            let ghost all = list@;
            let mut rest = list;
            let mut entries: Vec<WorkflowEntry> = Vec::new();
            while rest.len() > 0
                invariant
                    entries@.len() + rest@.len() == all.len(),
                    rest@ == all.skip(entries@.len() as int),
                    forall|i: int|
                        0 <= i < entries@.len() ==> entry_of(
                            all[i],
                            token@,
                            #[trigger] entries@[i],
                        ),
                decreases rest.len(),
            {
                let config = rest.remove(0);
                assert(config == all[entries@.len() as int]);
                entries.push(make_entry(config, token));
                assert(rest@ =~= all.skip(entries@.len() as int));
            }
            Ok((entries, scan(dir, files)))
        },
    }
}

/// Whether a workflow file was added, removed or changed since the last state.
/// Unreadable entries are passed over; a directory that cannot be read is an
/// error.
pub fn needs_reload(dir: &str, listing: &DirScan, last: &FileState) -> (changed: Result<
    bool,
    String,
>)
    ensures
        match *listing {
            DirScan::Entries(entries) => changed is Ok && changed->Ok_0 == (scanned(dir@, entries@)
                != last@),
            DirScan::Unreadable(e) => changed is Err && changed->Err_0@
                == "reading workflows dir: "@ + e@,
        },
{
    match listing {
        DirScan::Entries(entries) => {
            let current = scan(dir, entries);
            Ok(current.differs(last))
        },
        DirScan::Unreadable(e) => Err("reading workflows dir: ".to_string().concat(e.as_str())),
    }
}

/// The result of checking whether the workflows are to be loaded again.
pub enum ReloadDecision {
    /// Files have changed: the new workflows and the state of their files.
    Reload(Vec<WorkflowEntry>, FileState),
    /// Nothing has changed.
    Unchanged,
    /// Loading failed: the previous workflows are kept.
    Error(String),
}

/// The decision once it is known whether files have changed, and what loading
/// them gave.
pub fn load_workflow_entries_if_changed(
    changed: Result<bool, String>,
    loaded: Result<(Vec<WorkflowEntry>, FileState), String>,
) -> (decision: ReloadDecision)
    ensures
        match changed {
            Err(e) => decision matches ReloadDecision::Error(d) && d@ == e@,
            Ok(yes) => if !yes {
                decision is Unchanged
            } else {
                match loaded {
                    Ok((entries, state)) => decision matches ReloadDecision::Reload(es, s) && es@
                        == entries@ && s@ == state@,
                    Err(e) => decision matches ReloadDecision::Error(d) && d@ == e@,
                }
            },
        },
{
    match changed {
        Err(e) => ReloadDecision::Error(e),
        Ok(yes) => {
            if !yes {
                return ReloadDecision::Unchanged;
            }
            match loaded {
                Ok((entries, state)) => ReloadDecision::Reload(entries, state),
                Err(e) => ReloadDecision::Error(e),
            }
        },
    }
}

// ---------------------------------------------------------------------------
// The loop
// ---------------------------------------------------------------------------

/// What the poll loop is about to do.
#[derive(Clone, Copy, Debug, PartialEq, Eq, Structural)]
pub enum PollStage {
    /// Wait for the next tick or for the shutdown.
    Waiting,
    /// Check whether the workflow files have changed.
    Reloading,
    /// Poll a trigger of a workflow.
    Polling { entry: usize, trigger: usize },
    /// Hand an event of a trigger to the dispatcher.
    Dispatching { entry: usize, trigger: usize, event: usize },
    Stopped,
}

/// The first trigger at or behind a position that is to be polled; if there is
/// none, the round is over.
pub open spec fn poll_from(counts: Seq<nat>, entry: nat, trigger: nat) -> PollStage
    decreases counts.len() - entry,
{
    if entry >= counts.len() {
        PollStage::Waiting
    } else if trigger < counts[entry as int] {
        PollStage::Polling { entry: entry as usize, trigger: trigger as usize }
    } else {
        poll_from(counts, entry + 1, 0)
    }
}

/// How many triggers the workflows have.
pub open spec fn trigger_counts(entries: Seq<WorkflowEntry>) -> Seq<nat> {
    entries.map_values(|e: WorkflowEntry| e.triggers@.len())
}

/// The key by which the poll loop knows an event: `owner/repo/key`.
pub open spec fn poll_key(event: TriggerEvent) -> Seq<char> {
    event.owner@ + "/"@ + event.repo@ + "/"@ + event.key@
}

/// The poll loop.
pub struct PollLoop {
    pub entries: Vec<WorkflowEntry>,
    /// The state of the workflow files when they were last loaded.
    pub file_state: FileState,
    pub stage: PollStage,
    /// The events of the trigger that was polled last.
    pub events: Vec<TriggerEvent>,
}

/// The state of the poll loop: the workflows in use, their files when they
/// were loaded, what is done next, and the events of the last poll.
#[verifier::ext_equal]
pub struct PollState {
    pub entries: Seq<WorkflowEntry>,
    pub files: Map<Seq<char>, i128>,
    pub stage: PollStage,
    pub events: Seq<TriggerEvent>,
}

impl PollState {
    /// The state of a loop that begins with the given workflows.
    pub open spec fn fresh(entries: Seq<WorkflowEntry>, files: Map<Seq<char>, i128>) -> PollState {
        PollState { entries, files, stage: PollStage::Waiting, events: Seq::empty() }
    }

    /// The stage refers to a trigger, and to an event, that there is.
    pub open spec fn wf(self) -> bool {
        match self.stage {
            PollStage::Polling { entry, trigger } => entry < self.entries.len() && trigger
                < self.entries[entry as int].triggers@.len(),
            PollStage::Dispatching { entry, trigger, event } => entry < self.entries.len()
                && trigger < self.entries[entry as int].triggers@.len() && event
                < self.events.len(),
            _ => true,
        }
    }

    /// The stage with the first trigger at or behind a position.
    pub open spec fn polling_from(self, entry: nat, trigger: nat) -> PollStage {
        poll_from(trigger_counts(self.entries), entry, trigger)
    }

    /// The state after a wait.
    pub open spec fn woken(self, shutdown_changed: bool, shutdown_requested: bool) -> PollState {
        PollState {
            stage: if shutdown_changed || shutdown_requested {
                PollStage::Stopped
            } else {
                PollStage::Reloading
            },
            ..self
        }
    }

    /// The state after a decision on the workflow files: unless there are new
    /// workflows, the previous ones are kept. A round of polls begins.
    pub open spec fn decided(self, decision: ReloadDecision) -> PollState {
        let next = match decision {
            ReloadDecision::Reload(entries, state) => PollState {
                entries: entries@,
                files: state@,
                ..self
            },
            _ => self,
        };
        PollState { stage: next.polling_from(0, 0), ..next }
    }

    /// The state after a poll. One that failed, or found nothing, is passed
    /// over.
    pub open spec fn found(self, result: Result<Vec<TriggerEvent>, String>) -> PollState {
        let entry = self.stage->Polling_entry;
        let trigger = self.stage->Polling_trigger;
        if result is Ok && result->Ok_0@.len() > 0 {
            PollState {
                stage: PollStage::Dispatching { entry, trigger, event: 0 },
                events: result->Ok_0@,
                ..self
            }
        } else {
            PollState { stage: self.polling_from(entry as nat, (trigger + 1) as nat), ..self }
        }
    }

    /// The state behind an event. If the dispatcher is gone, the loop stops.
    pub open spec fn moved_on(self, dispatcher_gone: bool) -> PollState {
        let entry = self.stage->Dispatching_entry;
        let trigger = self.stage->Dispatching_trigger;
        let event = self.stage->event;
        PollState {
            stage: if dispatcher_gone {
                PollStage::Stopped
            } else if event + 1 < self.events.len() {
                PollStage::Dispatching { entry, trigger, event: (event + 1) as usize }
            } else {
                self.polling_from(entry as nat, (trigger + 1) as nat)
            },
            ..self
        }
    }
}

/// What is handed to the dispatcher for the current event: the event, with the
/// steps and the settings of its workflow; nothing if the event is completed.
pub open spec fn hands_on(
    state: PollState,
    completed: Set<Seq<char>>,
    message: Option<DispatchMessage>,
) -> bool {
    let event = state.events[state.stage->event as int];
    let entry = state.entries[state.stage->Dispatching_entry as int];
    match message {
        None => completed.contains(poll_key(event)),
        Some(m) => {
            &&& !completed.contains(poll_key(event))
            &&& m.event_key.owner@ == event.owner@
            &&& m.event_key.repo@ == event.repo@
            &&& m.event_key.number == event.number
            &&& m.event_key.workspace_id@ == event.workspace_id@
            &&& m.event_key.label@ == event.label@
            &&& m.event_key.variables@ == event.variables@
            &&& m.steps == entry.steps
            &&& m.git_config == entry.git_config
        },
    }
}

impl View for PollLoop {
    type V = PollState;

    open spec fn view(&self) -> PollState {
        PollState {
            entries: self.entries@,
            files: self.file_state@,
            stage: self.stage,
            events: self.events@,
        }
    }
}

/// `Arc::clone`: the copy refers to the same steps.
#[verifier::external_body]
fn share_steps(steps: &Arc<Vec<Step>>) -> (copy: Arc<Vec<Step>>)
    ensures
        copy == *steps,
{
    Arc::clone(steps)
}

/// Starts the poll loop with the workflows that were loaded. Without any there
/// is no loop.
pub fn run_poll_loop(loaded: Result<(Vec<WorkflowEntry>, FileState), String>) -> (started: Result<
    PollLoop,
    String,
>)
    ensures
        match loaded {
            Ok((entries, state)) => {
                &&& started is Ok
                &&& started->Ok_0@ == PollState::fresh(entries@, state@)
            },
            Err(e) => started is Err && started->Err_0@ == e@,
        },
{
    match loaded {
        Ok((entries, file_state)) => {
            let poll = PollLoop {
                entries,
                file_state,
                stage: PollStage::Waiting,
                events: Vec::new(),
            };
            assert(poll@ =~= PollState::fresh(entries@, file_state@));
            Ok(poll)
        },
        Err(e) => Err(e),
    }
}

impl PollLoop {
    /// The first trigger at or behind a position.
    fn find_trigger(&self, entry: usize, trigger: usize) -> (stage: PollStage)
        ensures
            stage == poll_from(trigger_counts(self.entries@), entry as nat, trigger as nat),
            match stage {
                PollStage::Polling { entry: e, trigger: t } => e < self.entries@.len() && t
                    < self.entries@[e as int].triggers@.len(),
                _ => stage is Waiting,
            },
    {
        let ghost counts = trigger_counts(self.entries@);
        let mut e: usize = entry;
        let mut t: usize = trigger;
        while e < self.entries.len()
            invariant
                counts == trigger_counts(self.entries@),
                poll_from(counts, entry as nat, trigger as nat) == poll_from(
                    counts,
                    e as nat,
                    t as nat,
                ),
            decreases self.entries.len() - e,
        {
            assert(counts[e as int] == self.entries@[e as int].triggers@.len());
            if t < self.entries[e].triggers.len() {
                return PollStage::Polling { entry: e, trigger: t };
            }
            e += 1;
            t = 0;
        }
        PollStage::Waiting
    }

    /// Takes the end of a wait: a tick, or a change of the shutdown signal.
    /// Once a shutdown was requested, the loop stops.
    pub fn woke(&mut self, shutdown_changed: bool, shutdown_requested: bool)
        requires
            old(self).stage == PollStage::Waiting,
        ensures
            final(self)@ == old(self)@.woken(shutdown_changed, shutdown_requested),
    {
        self.stage = if shutdown_changed || shutdown_requested {
            PollStage::Stopped
        } else {
            PollStage::Reloading
        };
    }

    /// Takes the decision on the workflow files, and starts a round of polls.
    /// Unless there are new workflows, the previous ones are kept.
    pub fn reloaded(&mut self, decision: ReloadDecision)
        requires
            old(self).stage == PollStage::Reloading,
        ensures
            final(self)@ == old(self)@.decided(decision),
            final(self)@.wf(),
    {
        if let ReloadDecision::Reload(entries, state) = decision {
            self.entries = entries;
            self.file_state = state;
        }
        self.stage = self.find_trigger(0, 0);
    }

    /// Takes the events of the trigger that was polled. A poll that failed is
    /// passed over.
    pub fn polled(&mut self, result: Result<Vec<TriggerEvent>, String>)
        requires
            old(self)@.wf(),
            old(self).stage is Polling,
        ensures
            final(self)@ == old(self)@.found(result),
            final(self)@.wf(),
    {
        if let PollStage::Polling { entry, trigger } = self.stage {
            if let Ok(events) = result {
                if events.len() > 0 {
                    self.events = events;
                    self.stage = PollStage::Dispatching { entry, trigger, event: 0 };
                    return;
                }
            }
            assert(trigger < self.entries@[entry as int].triggers.len());
            self.stage = self.find_trigger(entry, trigger + 1);
        }
    }

    /// What is handed to the dispatcher for the current event; nothing if the
    /// event is completed.
    pub fn message(&self, completed: &KeySet) -> (message: Option<DispatchMessage>)
        requires
            self@.wf(),
            self.stage is Dispatching,
        ensures
            hands_on(self@, completed@, message),
    {
        match self.stage {
            PollStage::Dispatching { entry, trigger: _, event } => {
                let found = &self.events[event];
                let key = found.owner.clone().concat("/").concat(found.repo.as_str()).concat(
                    "/",
                ).concat(found.key.as_str());
                if completed.contains(key.as_str()) {
                    return None;
                }
                let workflow = &self.entries[entry];
                Some(
                    DispatchMessage {
                        event_key: found.to_event_key(),
                        steps: share_steps(&workflow.steps),
                        git_config: workflow.git_config.clone(),
                    },
                )
            },
            _ => None,
        }
    }

    /// Goes on behind the current event. If the dispatcher is gone, the loop
    /// stops.
    pub fn dispatched(&mut self, dispatcher_gone: bool)
        requires
            old(self)@.wf(),
            old(self).stage is Dispatching,
        ensures
            final(self)@ == old(self)@.moved_on(dispatcher_gone),
            final(self)@.wf(),
    {
        if let PollStage::Dispatching { entry, trigger, event } = self.stage {
            if dispatcher_gone {
                self.stage = PollStage::Stopped;
                return;
            }
            assert(event < self.events.len());
            if event + 1 < self.events.len() {
                self.stage = PollStage::Dispatching { entry, trigger, event: event + 1 };
                return;
            }
            assert(trigger < self.entries@[entry as int].triggers.len());
            self.stage = self.find_trigger(entry, trigger + 1);
        }
    }
}

// ---------------------------------------------------------------------------
// Laws
// ---------------------------------------------------------------------------

/// A directory entry more: the workflows are loaded again exactly if it is a
/// workflow file whose time is known and that was not there before, or was
/// there with another time. Other entries never lead to it.
pub proof fn law_reload_follows_files(
    dir: Seq<char>,
    entries: Seq<Result<DirEntry, String>>,
    entry: Result<DirEntry, String>,
)
    ensures
        ({
            let before = scanned(dir, entries);
            let after = scanned(dir, entries.push(entry));
            match entry {
                Ok(e) => {
                    let path = joined_path(dir, e.name@);
                    after != before <==> is_toml_name(e.name@) && e.modified is Some && !(
                    before.dom().contains(path) && before[path] == e.modified->0)
                },
                Err(_) => after == before,
            }
        }),
{
    let before = scanned(dir, entries);
    assert(entries.push(entry).drop_last() =~= entries);
    assert(entries.push(entry).last() == entry);
    if let Ok(e) = entry {
        if is_toml_name(e.name@) && e.modified is Some {
            let path = joined_path(dir, e.name@);
            let after = before.insert(path, e.modified->0);
            assert(after.dom().contains(path) && after[path] == e.modified->0);
            if before.dom().contains(path) && before[path] == e.modified->0 {
                assert(after =~= before);
            }
        }
    }
}

/// Something that the poll loop hears of.
pub enum PollEvent {
    /// A wait is over: whether the shutdown signal changed, and whether a
    /// shutdown is requested.
    Woke(bool, bool),
    /// The decision on the workflow files.
    Decided(ReloadDecision),
    /// What a poll gave.
    Found(Result<Vec<TriggerEvent>, String>),
    /// The current event is dealt with; whether the dispatcher is gone.
    MovedOn(bool),
}

/// The loop is in the stage in which it hears of this.
pub open spec fn is_due(state: PollState, event: PollEvent) -> bool {
    match event {
        PollEvent::Woke(_, _) => state.stage is Waiting,
        PollEvent::Decided(_) => state.stage is Reloading,
        PollEvent::Found(_) => state.stage is Polling,
        PollEvent::MovedOn(_) => state.stage is Dispatching,
    }
}

/// The state after one more thing was heard of.
pub open spec fn poll_after(state: PollState, event: PollEvent) -> PollState {
    match event {
        PollEvent::Woke(changed, requested) => state.woken(changed, requested),
        PollEvent::Decided(decision) => state.decided(decision),
        PollEvent::Found(result) => state.found(result),
        PollEvent::MovedOn(gone) => state.moved_on(gone),
    }
}

/// The state after a history.
pub open spec fn poll_state_after(initial: PollState, history: Seq<PollEvent>) -> PollState
    decreases history.len(),
{
    if history.len() == 0 {
        initial
    } else {
        poll_after(poll_state_after(initial, history.drop_last()), history.last())
    }
}

/// Each thing was heard of in its stage.
pub open spec fn in_turn(initial: PollState, history: Seq<PollEvent>) -> bool
    decreases history.len(),
{
    history.len() > 0 ==> in_turn(initial, history.drop_last()) && is_due(
        poll_state_after(initial, history.drop_last()),
        history.last(),
    )
}

/// The workflows, and the state of their files, of the last successful load: of
/// the last reload in the history, or, as long as there is none, of the first
/// load.
pub open spec fn last_loaded(
    first: (Seq<WorkflowEntry>, Map<Seq<char>, i128>),
    history: Seq<PollEvent>,
) -> (Seq<WorkflowEntry>, Map<Seq<char>, i128>)
    decreases history.len(),
{
    if history.len() == 0 {
        first
    } else {
        match history.last() {
            PollEvent::Decided(ReloadDecision::Reload(entries, state)) => (entries@, state@),
            _ => last_loaded(first, history.drop_last()),
        }
    }
}

/// At every moment the workflows in use, from which triggers are polled and
/// events are handed on, are those of the last successful load. A reload that
/// fails changes neither them nor the state of the files that the next check
/// goes by; one that succeeds puts the new ones into use at once.
pub proof fn law_last_valid_workflows_stay_in_use(
    entries: Vec<WorkflowEntry>,
    files: Map<Seq<char>, i128>,
    history: Seq<PollEvent>,
)
    requires
        in_turn(PollState::fresh(entries@, files), history),
    ensures
        ({
            let state = poll_state_after(PollState::fresh(entries@, files), history);
            &&& (state.entries, state.files) == last_loaded((entries@, files), history)
            &&& state.wf()
        }),
    decreases history.len(),
{
    let initial = PollState::fresh(entries@, files);
    if history.len() > 0 {
        let front = history.drop_last();
        law_last_valid_workflows_stay_in_use(entries, files, front);
        lemma_loaded_fits(entries, files, history);
        lemma_stays_wf(poll_state_after(initial, front), history.last());
    }
}

/// What is handed to the dispatcher has the steps and the settings of a
/// workflow of the last successful load, and the trigger that is polled is one
/// of such a workflow.
pub proof fn law_events_get_the_last_valid_workflow(
    entries: Vec<WorkflowEntry>,
    files: Map<Seq<char>, i128>,
    history: Seq<PollEvent>,
    completed: Set<Seq<char>>,
    message: DispatchMessage,
)
    requires
        in_turn(PollState::fresh(entries@, files), history),
    ensures
        ({
            let state = poll_state_after(PollState::fresh(entries@, files), history);
            let loaded = last_loaded((entries@, files), history).0;
            match state.stage {
                PollStage::Dispatching { entry, .. } => entry < loaded.len() && (hands_on(
                    state,
                    completed,
                    Some(message),
                ) ==> message.steps == loaded[entry as int].steps && message.git_config
                    == loaded[entry as int].git_config),
                PollStage::Polling { entry, trigger } => entry < loaded.len() && trigger
                    < loaded[entry as int].triggers@.len(),
                _ => true,
            }
        }),
{
    law_last_valid_workflows_stay_in_use(entries, files, history);
}

proof fn lemma_loaded_fits(
    entries: Vec<WorkflowEntry>,
    files: Map<Seq<char>, i128>,
    history: Seq<PollEvent>,
)
    ensures
        last_loaded((entries@, files), history).0.len() <= usize::MAX,
    decreases history.len(),
{
    assert(entries.len() == entries@.len());
    if history.len() > 0 {
        lemma_loaded_fits(entries, files, history.drop_last());
        if let PollEvent::Decided(ReloadDecision::Reload(loaded, _)) = history.last() {
            assert(loaded.len() == loaded@.len());
        }
    }
}

proof fn lemma_stays_wf(state: PollState, event: PollEvent)
    requires
        state.wf(),
        is_due(state, event),
        poll_after(state, event).entries.len() <= usize::MAX,
    ensures
        poll_after(state, event).wf(),
        poll_after(state, event).stage is Stopped <==> stops(event),
{
    let next = poll_after(state, event);
    match event {
        PollEvent::Decided(_) => {
            lemma_poll_from_is_there(next.entries, 0, 0);
        },
        PollEvent::Found(_) => {
            lemma_poll_from_is_there(
                next.entries,
                state.stage->Polling_entry as nat,
                (state.stage->Polling_trigger + 1) as nat,
            );
        },
        PollEvent::MovedOn(_) => {
            lemma_poll_from_is_there(
                next.entries,
                state.stage->Dispatching_entry as nat,
                (state.stage->Dispatching_trigger + 1) as nat,
            );
        },
        _ => {},
    }
}

proof fn lemma_poll_from_is_there(entries: Seq<WorkflowEntry>, entry: nat, trigger: nat)
    requires
        entries.len() <= usize::MAX,
    ensures
        match poll_from(trigger_counts(entries), entry, trigger) {
            PollStage::Polling { entry: e, trigger: t } => e < entries.len() && t
                < entries[e as int].triggers@.len(),
            stage => stage is Waiting,
        },
    decreases entries.len() - entry,
{
    let counts = trigger_counts(entries);
    if entry < counts.len() {
        let triggers = entries[entry as int].triggers;
        assert(triggers.len() == triggers@.len());
        assert(counts[entry as int] == triggers@.len());
        if trigger >= counts[entry as int] {
            lemma_poll_from_is_there(entries, entry + 1, 0);
        }
    }
}

/// What makes the loop stop.
pub open spec fn stops(event: PollEvent) -> bool {
    match event {
        PollEvent::Woke(changed, requested) => changed || requested,
        PollEvent::MovedOn(gone) => gone,
        _ => false,
    }
}

/// The loop goes on until a shutdown is requested or the dispatcher is gone:
/// neither a reload nor a poll that fails ends it.
pub proof fn law_only_a_shutdown_ends_the_loop(
    entries: Vec<WorkflowEntry>,
    files: Map<Seq<char>, i128>,
    history: Seq<PollEvent>,
)
    requires
        in_turn(PollState::fresh(entries@, files), history),
    ensures
        poll_state_after(PollState::fresh(entries@, files), history).stage is Stopped <==> (
        history.len() > 0 && stops(history.last())),
{
    if history.len() > 0 {
        let front = history.drop_last();
        law_last_valid_workflows_stay_in_use(entries, files, front);
        law_last_valid_workflows_stay_in_use(entries, files, history);
        lemma_loaded_fits(entries, files, history);
        lemma_stays_wf(
            poll_state_after(PollState::fresh(entries@, files), front),
            history.last(),
        );
    }
}

/// The numbers of workflows and triggers fit into the machine word.
pub open spec fn counts_fit(counts: Seq<nat>) -> bool {
    &&& counts.len() <= usize::MAX
    &&& forall|i: int| 0 <= i < counts.len() ==> #[trigger] counts[i] <= usize::MAX
}

/// The triggers from the given workflow on, in order.
pub open spec fn round_from(counts: Seq<nat>, entry: nat) -> Seq<(nat, nat)>
    decreases counts.len() - entry,
{
    if entry >= counts.len() {
        Seq::empty()
    } else {
        Seq::new(counts[entry as int], |t: int| (entry, t as nat)) + round_from(counts, entry + 1)
    }
}

/// The stage in which a trigger is polled.
pub open spec fn polling(position: (nat, nat)) -> PollStage {
    PollStage::Polling { entry: position.0 as usize, trigger: position.1 as usize }
}

/// A round polls every trigger of every workflow, one after the other: it
/// begins with the first, the last one ends it, and any other is followed by
/// the next.
pub proof fn law_round_polls_every_trigger(counts: Seq<nat>, entry: nat, n: int)
    requires
        counts_fit(counts),
        0 <= n < round_from(counts, entry).len(),
    ensures
        poll_from(counts, entry, 0) == polling(round_from(counts, entry)[0]),
        poll_from(
            counts,
            round_from(counts, entry)[n].0,
            round_from(counts, entry)[n].1 + 1,
        ) == (if n + 1 < round_from(counts, entry).len() {
            polling(round_from(counts, entry)[n + 1])
        } else {
            PollStage::Waiting
        }),
        entry <= round_from(counts, entry)[n].0 < counts.len(),
        round_from(counts, entry)[n].1 < counts[round_from(counts, entry)[n].0 as int],
    decreases counts.len() - entry,
{
    let own = Seq::new(counts[entry as int], |t: int| (entry, t as nat));
    let rest = round_from(counts, entry + 1);
    assert(round_from(counts, entry) == own + rest);
    if rest.len() > 0 {
        law_round_polls_every_trigger(counts, entry + 1, 0);
    } else {
        lemma_empty_round(counts, entry + 1);
    }
    if n >= own.len() {
        law_round_polls_every_trigger(counts, entry + 1, n - own.len());
    }
}

proof fn lemma_empty_round(counts: Seq<nat>, entry: nat)
    requires
        round_from(counts, entry).len() == 0,
    ensures
        poll_from(counts, entry, 0) is Waiting,
    decreases counts.len() - entry,
{
    if entry < counts.len() {
        let own = Seq::new(counts[entry as int], |t: int| (entry, t as nat));
        assert(round_from(counts, entry) == own + round_from(counts, entry + 1));
        assert(own.len() == 0);
        lemma_empty_round(counts, entry + 1);
    }
}

/// Every trigger is part of the round.
pub proof fn law_no_trigger_is_left_out(counts: Seq<nat>, from: nat, entry: nat, trigger: nat)
    requires
        from <= entry < counts.len(),
        trigger < counts[entry as int],
    ensures
        round_from(counts, from).contains((entry, trigger)),
    decreases counts.len() - from,
{
    let own = Seq::new(counts[from as int], |t: int| (from, t as nat));
    let rest = round_from(counts, from + 1);
    assert(round_from(counts, from) == own + rest);
    if from == entry {
        assert((own + rest)[trigger as int] == (entry, trigger));
    } else {
        law_no_trigger_is_left_out(counts, from + 1, entry, trigger);
        let k = choose|k: int| 0 <= k < rest.len() && rest[k] == (entry, trigger);
        assert((own + rest)[own.len() + k] == (entry, trigger));
    }
}

// ---------------------------------------------------------------------------
// Laws of single steps
// ---------------------------------------------------------------------------

/// What is handed to the dispatcher for an event: nothing if the event is
/// completed; otherwise its own repository, number, workspace, label and
/// variables, with the steps and the settings of the workflow whose trigger
/// found it.
pub proof fn law_event_goes_with_its_workflow(
    poll: PollLoop,
    completed: KeySet,
    message: Option<DispatchMessage>,
    entry: usize,
    trigger: usize,
    event: usize,
)
    requires
        poll@.wf(),
        poll.stage == (PollStage::Dispatching { entry, trigger, event }),
        call_ensures(PollLoop::message, (&poll, &completed), message),
    ensures
        ({
            let found = poll.events@[event as int];
            let workflow = poll.entries@[entry as int];
            let key = found.owner@ + "/"@ + found.repo@ + "/"@ + found.key@;
            &&& message is None <==> completed@.contains(key)
            &&& message matches Some(m) ==> {
                &&& m.event_key.owner@ == found.owner@
                &&& m.event_key.repo@ == found.repo@
                &&& m.event_key.number == found.number
                &&& m.event_key.workspace_id@ == found.workspace_id@
                &&& m.event_key.label@ == found.label@
                &&& m.event_key.variables@ == found.variables@
                &&& m.steps == workflow.steps
                &&& m.git_config.default_branch@ == workflow.git_config.default_branch@
                &&& m.git_config.clone == workflow.git_config.clone
                &&& m.git_config.worktree == workflow.git_config.worktree
            }
        }),
{
}

/// The workflows that are polled are those of the configurations, in order:
/// each has the steps, the repositories and the settings of its own
/// configuration, and a trigger for each of its triggers, with the token.
pub proof fn law_workflows_are_those_of_the_files(
    configs: Vec<Config>,
    token: &str,
    dir: &str,
    listing: DirScan,
    loaded: Result<(Vec<WorkflowEntry>, FileState), String>,
    i: int,
)
    requires
        call_ensures(load_workflow_entries, (Ok(configs), token, dir, &listing), loaded),
        loaded is Ok,
        0 <= i < configs@.len(),
    ensures
        loaded->Ok_0.0@.len() == configs@.len(),
        ({
            let entry = loaded->Ok_0.0@[i];
            &&& *entry.steps == configs@[i].steps
            &&& entry.repos@ == configs@[i].repos@
            &&& entry.git_config == configs@[i].git
            &&& entry.triggers@.len() == configs@[i].triggers@.len()
            &&& forall|t: int|
                0 <= t < entry.triggers@.len() ==> trigger_built(
                    configs@[i].triggers@[t],
                    token@,
                    #[trigger] entry.triggers@[t],
                )
        }),
{
    assert(entry_of(configs@[i], token@, loaded->Ok_0.0@[i]));
}

/// When loading fails: if the configurations do not load, the directory cannot
/// be read, or one of its entries cannot.
pub proof fn law_when_workflows_load(
    configs: Result<Vec<Config>, String>,
    token: &str,
    dir: &str,
    listing: DirScan,
    loaded: Result<(Vec<WorkflowEntry>, FileState), String>,
)
    requires
        call_ensures(load_workflow_entries, (configs, token, dir, &listing), loaded),
    ensures
        configs matches Err(e) ==> loaded is Err && loaded->Err_0@ == e@,
        configs is Ok ==> (listing matches DirScan::Unreadable(e) ==> loaded is Err
            && loaded->Err_0@ == e@),
        configs is Ok ==> (listing matches DirScan::Entries(entries) ==> (loaded is Ok
            <==> forall|i: int| 0 <= i < entries@.len() ==> #[trigger] entries@[i] is Ok)),
{
    if let DirScan::Entries(entries) = listing {
        lemma_first_unreadable(entries@);
    }
}

proof fn lemma_first_unreadable(entries: Seq<Result<DirEntry, String>>)
    ensures
        first_unreadable(entries) is None <==> forall|i: int|
            0 <= i < entries.len() ==> #[trigger] entries[i] is Ok,
    decreases entries.len(),
{
    if entries.len() > 0 {
        let front = entries.drop_last();
        lemma_first_unreadable(front);
        if first_unreadable(entries) is None {
            assert forall|i: int| 0 <= i < entries.len() implies #[trigger] entries[i] is Ok by {
                if i < front.len() {
                    assert(front[i] is Ok);
                }
            }
        }
        if forall|i: int| 0 <= i < entries.len() ==> #[trigger] entries[i] is Ok {
            assert forall|i: int| 0 <= i < front.len() implies #[trigger] front[i] is Ok by {
                assert(entries[i] is Ok);
            }
            assert(entries[entries.len() - 1] is Ok);
        }
    }
}

/// The entry is a workflow file whose time is known, at the path.
pub open spec fn is_workflow_at(
    entry: Result<DirEntry, String>,
    dir: Seq<char>,
    path: Seq<char>,
) -> bool {
    entry matches Ok(e) && e.modified is Some && workflow_file(e.name@) && path == joined_path(
        dir,
        e.name@,
    )
}

proof fn lemma_scanned(dir: Seq<char>, entries: Seq<Result<DirEntry, String>>, path: Seq<char>)
    ensures
        scanned(dir, entries).dom().contains(path) <==> exists|i: int|
            0 <= i < entries.len() && is_workflow_at(#[trigger] entries[i], dir, path),
    decreases entries.len(),
{
    if entries.len() > 0 {
        let front = entries.drop_last();
        let last = entries.last();
        lemma_scanned(dir, front, path);
        if let Ok(e) = last {
            lemma_workflow_file(e.name@);
        }
        if scanned(dir, front).dom().contains(path) {
            let i = choose|i: int|
                0 <= i < front.len() && is_workflow_at(#[trigger] front[i], dir, path);
            assert(entries[i] == front[i]);
        }
        assert(entries[entries.len() - 1] == last);
        if exists|i: int|
            0 <= i < entries.len() && is_workflow_at(#[trigger] entries[i], dir, path) {
            let i = choose|i: int|
                0 <= i < entries.len() && is_workflow_at(#[trigger] entries[i], dir, path);
            if i < front.len() {
                assert(front[i] == entries[i]);
            }
        }
    }
}

/// The files that are watched are the workflow files of the directory whose
/// times are known, and no others.
pub proof fn law_workflow_files_are_watched(
    dir: &str,
    entries: Vec<Result<DirEntry, String>>,
    state: FileState,
    path: &str,
    modified: Option<i128>,
)
    requires
        call_ensures(scan, (dir, &entries), state),
        call_ensures(FileState::get, (&state, path), modified),
    ensures
        modified is Some <==> exists|i: int|
            0 <= i < entries@.len() && is_workflow_at(#[trigger] entries@[i], dir@, path@),
{
    lemma_scanned(dir@, entries@, path@);
}

proof fn lemma_scanned_time(dir: Seq<char>, entries: Seq<Result<DirEntry, String>>, i: int)
    requires
        0 <= i < entries.len(),
        is_workflow_at(entries[i], dir, joined_path(dir, entries[i]->Ok_0.name@)),
        forall|j: int|
            i < j < entries.len() ==> !is_workflow_at(
                #[trigger] entries[j],
                dir,
                joined_path(dir, entries[i]->Ok_0.name@),
            ),
    ensures
        ({
            let path = joined_path(dir, entries[i]->Ok_0.name@);
            scanned(dir, entries).dom().contains(path) && scanned(dir, entries)[path]
                == entries[i]->Ok_0.modified->0
        }),
    decreases entries.len(),
{
    let front = entries.drop_last();
    let last = entries.last();
    let path = joined_path(dir, entries[i]->Ok_0.name@);
    if let Ok(e) = last {
        lemma_workflow_file(e.name@);
    }
    if i < front.len() {
        assert(front[i] == entries[i]);
        assert forall|j: int| i < j < front.len() implies !is_workflow_at(
            #[trigger] front[j],
            dir,
            path,
        ) by {
            assert(entries[j] == front[j]);
        }
        lemma_scanned_time(dir, front, i);
        assert(entries[entries.len() - 1] == last);
        assert(!is_workflow_at(last, dir, path));
    }
}

/// The workflows are loaded again if the time of a workflow file is another one
/// than before, or if there is a workflow file that was not there, or is not
/// there any more; and they are not if the directory is as it was.
pub proof fn law_change_of_a_file_is_seen(
    dir: &str,
    before: Vec<Result<DirEntry, String>>,
    now: Vec<Result<DirEntry, String>>,
    state: FileState,
    changed: Result<bool, String>,
    path: Seq<char>,
)
    requires
        call_ensures(scan, (dir, &before), state),
        call_ensures(needs_reload, (dir, &DirScan::Entries(now), &state), changed),
    ensures
        changed is Ok,
        now@ == before@ ==> changed == Ok::<bool, String>(false),
        (exists|i: int| 0 <= i < now@.len() && is_workflow_at(#[trigger] now@[i], dir@, path)) != (
        exists|i: int| 0 <= i < before@.len() && is_workflow_at(#[trigger] before@[i], dir@, path))
            ==> changed == Ok::<bool, String>(true),
{
    lemma_scanned(dir@, before@, path);
    lemma_scanned(dir@, now@, path);
}

/// A workflow file with another time than before is a change, if no two entries
/// are of one file.
pub proof fn law_newer_file_is_a_change(
    dir: &str,
    before: Vec<Result<DirEntry, String>>,
    now: Vec<Result<DirEntry, String>>,
    state: FileState,
    changed: Result<bool, String>,
    i: int,
    k: int,
)
    requires
        call_ensures(scan, (dir, &before), state),
        call_ensures(needs_reload, (dir, &DirScan::Entries(now), &state), changed),
        0 <= i < before@.len(),
        0 <= k < now@.len(),
        ({
            let path = joined_path(dir@, before@[i]->Ok_0.name@);
            &&& is_workflow_at(before@[i], dir@, path)
            &&& is_workflow_at(now@[k], dir@, path)
            &&& forall|j: int|
                0 <= j < before@.len() && j != i ==> !is_workflow_at(
                    #[trigger] before@[j],
                    dir@,
                    path,
                )
            &&& forall|j: int|
                0 <= j < now@.len() && j != k ==> !is_workflow_at(#[trigger] now@[j], dir@, path)
        }),
        before@[i]->Ok_0.modified->0 != now@[k]->Ok_0.modified->0,
    ensures
        changed == Ok::<bool, String>(true),
{
    let path = joined_path(dir@, before@[i]->Ok_0.name@);
    assert(joined_path(dir@, now@[k]->Ok_0.name@) == path);
    lemma_scanned_time(dir@, before@, i);
    lemma_scanned_time(dir@, now@, k);
}

/// The workflows that are in use stay in use unless files have changed and the
/// new ones load; and then the new ones take their place.
pub proof fn law_only_good_workflows_take_over(
    state: PollState,
    changed: Result<bool, String>,
    loaded: Result<(Vec<WorkflowEntry>, FileState), String>,
    decision: ReloadDecision,
)
    requires
        call_ensures(load_workflow_entries_if_changed, (changed, loaded), decision),
    ensures
        changed == Ok::<bool, String>(true) && loaded is Ok ==> state.decided(decision).entries
            == loaded->Ok_0.0@ && state.decided(decision).files == loaded->Ok_0.1@,
        !(changed == Ok::<bool, String>(true) && loaded is Ok) ==> state.decided(decision).entries
            == state.entries && state.decided(decision).files == state.files,
        decision is Unchanged <==> changed == Ok::<bool, String>(false),
        changed matches Err(e) ==> decision is Error && decision->Error_0@ == e@,
        changed == Ok::<bool, String>(true) && loaded is Err ==> decision is Error
            && decision->Error_0@ == loaded->Err_0@,
{
}

/// A round begins at the first trigger behind the given workflow, or, if there
/// is none, is over.
pub open spec fn first_behind(entries: Seq<WorkflowEntry>, entry: int, stage: PollStage) -> bool {
    match stage {
        PollStage::Polling { entry: e, trigger } => {
            &&& trigger == 0
            &&& entry < e < entries.len()
            &&& entries[e as int].triggers@.len() > 0
            &&& forall|k: int| entry < k < e ==> (#[trigger] entries[k]).triggers@.len() == 0
        },
        PollStage::Waiting => forall|k: int|
            entry < k < entries.len() ==> (#[trigger] entries[k]).triggers@.len() == 0,
        _ => false,
    }
}

proof fn lemma_first_behind(entries: Seq<WorkflowEntry>, entry: nat)
    requires
        entries.len() <= usize::MAX,
    ensures
        first_behind(entries, entry - 1, poll_from(trigger_counts(entries), entry, 0)),
    decreases entries.len() - entry,
{
    let counts = trigger_counts(entries);
    if entry < entries.len() {
        assert(counts[entry as int] == entries[entry as int].triggers@.len());
        if counts[entry as int] == 0 {
            lemma_first_behind(entries, entry + 1);
        }
    }
}

/// A round of polls begins with the first trigger of the first workflow that
/// has one.
pub proof fn law_round_begins(state: PollState, decision: ReloadDecision)
    requires
        state.decided(decision).entries.len() <= usize::MAX,
    ensures
        first_behind(state.decided(decision).entries, -1, state.decided(decision).stage),
{
    lemma_first_behind(state.decided(decision).entries, 0);
}

proof fn lemma_next_trigger(entries: Seq<WorkflowEntry>, entry: nat, trigger: nat)
    requires
        entries.len() <= usize::MAX,
        entry < entries.len(),
        trigger < entries[entry as int].triggers@.len(),
    ensures
        ({
            let stage = poll_from(trigger_counts(entries), entry, trigger + 1);
            if trigger + 1 < entries[entry as int].triggers@.len() {
                stage == (PollStage::Polling {
                    entry: entry as usize,
                    trigger: (trigger + 1) as usize,
                })
            } else {
                first_behind(entries, entry as int, stage)
            }
        }),
{
    let counts = trigger_counts(entries);
    assert(counts[entry as int] == entries[entry as int].triggers@.len());
    lemma_first_behind(entries, entry + 1);
}

/// A poll that fails or finds nothing is followed by the poll of the next
/// trigger of the same workflow, or else of the first trigger of a later one,
/// or else by the end of the round. The workflows stay as they are.
pub proof fn law_round_goes_on(
    state: PollState,
    entry: usize,
    trigger: usize,
    result: Result<Vec<TriggerEvent>, String>,
)
    requires
        state.wf(),
        state.entries.len() <= usize::MAX,
        state.stage == (PollStage::Polling { entry, trigger }),
        result is Err || result->Ok_0@.len() == 0,
    ensures
        state.found(result).entries == state.entries,
        if trigger + 1 < state.entries[entry as int].triggers@.len() {
            state.found(result).stage == (PollStage::Polling {
                entry,
                trigger: (trigger + 1) as usize,
            })
        } else {
            first_behind(state.entries, entry as int, state.found(result).stage)
        },
{
    lemma_next_trigger(state.entries, entry as nat, trigger as nat);
}

/// The events that a poll finds are handed on one after the other, from the
/// first to the last, as events of the workflow and the trigger that were
/// polled; then the round goes on behind that trigger.
pub proof fn law_events_are_handed_on_in_order(
    state: PollState,
    entry: usize,
    trigger: usize,
    list: Vec<TriggerEvent>,
    n: nat,
)
    requires
        state.wf(),
        state.entries.len() <= usize::MAX,
        state.stage == (PollStage::Polling { entry, trigger }),
        0 < n <= list@.len(),
    ensures
        ({
            let history = seq![PollEvent::Found(Ok(list))] + Seq::new(
                (n - 1) as nat,
                |k: int| PollEvent::MovedOn(false),
            );
            let now = poll_state_after(state, history);
            &&& now.stage == (PollStage::Dispatching { entry, trigger, event: (n - 1) as usize })
            &&& now.events == list@
            &&& now.entries == state.entries
            &&& n == list@.len() ==> (if trigger + 1
                < state.entries[entry as int].triggers@.len() {
                now.moved_on(false).stage == (PollStage::Polling {
                    entry,
                    trigger: (trigger + 1) as usize,
                })
            } else {
                first_behind(state.entries, entry as int, now.moved_on(false).stage)
            })
        }),
    decreases n,
{
    let history = seq![PollEvent::Found(Ok(list))] + Seq::new(
        (n - 1) as nat,
        |k: int| PollEvent::MovedOn(false),
    );
    let front = history.drop_last();
    assert(list@.len() == list.len());
    if n == 1 {
        assert(front =~= Seq::<PollEvent>::empty());
        assert(history.last() == PollEvent::Found(Ok(list)));
    } else {
        law_events_are_handed_on_in_order(state, entry, trigger, list, (n - 1) as nat);
        assert(front =~= seq![PollEvent::Found(Ok(list))] + Seq::new(
            (n - 2) as nat,
            |k: int| PollEvent::MovedOn(false),
        ));
        assert(history.last() == PollEvent::MovedOn(false));
    }
    let now = poll_state_after(state, history);
    assert(now == poll_after(poll_state_after(state, front), history.last()));
    assert(now.stage == (PollStage::Dispatching { entry, trigger, event: (n - 1) as usize }));
    assert(now.entries == state.entries && now.events == list@);
    let triggers = state.entries[entry as int].triggers;
    assert(triggers@.len() == triggers.len());
    lemma_next_trigger(state.entries, entry as nat, trigger as nat);
    if n == list@.len() {
        assert(now.moved_on(false).stage == poll_from(
            trigger_counts(state.entries),
            entry as nat,
            (trigger + 1) as nat,
        ));
    }
}

/// A loop begins with waiting, with the workflows that were loaded; without any
/// there is no loop. After each wait the files are looked at, unless the program
/// is to shut down.
pub proof fn law_loop_begins_with_waiting(
    loaded: Result<(Vec<WorkflowEntry>, FileState), String>,
    started: Result<PollLoop, String>,
)
    requires
        call_ensures(run_poll_loop, (loaded,), started),
    ensures
        started is Ok <==> loaded is Ok,
        started matches Ok(poll) ==> poll.stage is Waiting && poll.entries@ == loaded->Ok_0.0@
            && poll@.woken(false, false).stage is Reloading && poll@.woken(true, false).stage
            is Stopped && poll@.woken(false, true).stage is Stopped,
        started matches Err(e) ==> e@ == loaded->Err_0@,
{
    if let Ok(poll) = started {
        assert(poll@.entries == poll.entries@);
        assert(poll@.stage == poll.stage);
    }
}

/// The events that count as completed at the start are those that the file of
/// completed events holds.
pub proof fn law_completed_events_are_loaded(
    text: Option<&str>,
    keys: Vec<String>,
    completed: KeySet,
    key: Seq<char>,
)
    requires
        call_ensures(read_json_array, (text,), keys),
        call_ensures(load_completed, (text,), completed),
    ensures
        completed@.contains(key) <==> exists|i: int|
            0 <= i < keys@.len() && (#[trigger] keys@[i])@ == key,
{
    let all = views(keys@);
    if completed@.contains(key) {
        let i = choose|i: int| 0 <= i < all.len() && all[i] == key;
        assert(keys@[i]@ == key);
    }
    if exists|i: int| 0 <= i < keys@.len() && (#[trigger] keys@[i])@ == key {
        let i = choose|i: int| 0 <= i < keys@.len() && (#[trigger] keys@[i])@ == key;
        assert(all[i] == key);
    }
}

/// After a wait the loop looks at the workflow files, unless the shutdown signal
/// changed or a shutdown is requested: then it stops.
pub proof fn law_wait_ends(poll: &mut PollLoop, changed: bool, requested: bool)
    requires
        call_ensures(PollLoop::woke, (poll, changed, requested), ()),
    ensures
        final(poll).stage is Stopped <==> changed || requested,
        final(poll).stage is Reloading <==> !changed && !requested,
        final(poll).entries@ == old(poll).entries@,
        final(poll).file_state@ == old(poll).file_state@,
{
    let now = final(poll)@;
    assert(now.stage == final(poll).stage);
    assert(now.entries == final(poll).entries@ && now.files == final(poll).file_state@);
}

/// New workflows take the place of those in use, with the state of their files;
/// without new ones those in use stay. Then a round of polls begins.
pub proof fn law_decision_is_followed(poll: &mut PollLoop, decision: ReloadDecision)
    requires
        call_ensures(PollLoop::reloaded, (poll, decision), ()),
    ensures
        decision matches ReloadDecision::Reload(entries, state) ==> final(poll).entries@ == entries@
            && final(poll).file_state@ == state@,
        !(decision is Reload) ==> final(poll).entries@ == old(poll).entries@
            && final(poll).file_state@ == old(poll).file_state@,
        first_behind(final(poll).entries@, -1, final(poll).stage),
{
    let now = final(poll)@;
    assert(now.stage == final(poll).stage);
    assert(now.entries == final(poll).entries@ && now.files == final(poll).file_state@);
    assert(final(poll).entries@.len() == final(poll).entries.len());
    lemma_first_behind(final(poll).entries@, 0);
}

/// The events that a poll found are dealt with from the first one on, as those
/// of the trigger that was polled; without any the next trigger follows.
pub proof fn law_poll_is_followed_by_its_events(
    poll: &mut PollLoop,
    result: Result<Vec<TriggerEvent>, String>,
    entry: usize,
    trigger: usize,
)
    requires
        call_ensures(PollLoop::polled, (poll, result), ()),
        old(poll)@.wf(),
        old(poll).stage == (PollStage::Polling { entry, trigger }),
    ensures
        final(poll).entries@ == old(poll).entries@,
        if result is Ok && result->Ok_0@.len() > 0 {
            final(poll).stage == (PollStage::Dispatching { entry, trigger, event: 0 })
                && final(poll).events@ == result->Ok_0@
        } else if trigger + 1 < old(poll).entries@[entry as int].triggers@.len() {
            final(poll).stage == (PollStage::Polling { entry, trigger: (trigger + 1) as usize })
        } else {
            first_behind(old(poll).entries@, entry as int, final(poll).stage)
        },
{
    let now = final(poll)@;
    assert(now.stage == final(poll).stage);
    assert(now.entries == final(poll).entries@ && now.events == final(poll).events@);
    assert(old(poll).entries@.len() == old(poll).entries.len());
    lemma_next_trigger(old(poll).entries@, entry as nat, trigger as nat);
}

/// Behind an event comes the next one of the same poll, and behind the last one
/// the next trigger; if the dispatcher is gone, the loop stops.
pub proof fn law_event_is_followed_by_the_next(
    poll: &mut PollLoop,
    gone: bool,
    entry: usize,
    trigger: usize,
    event: usize,
)
    requires
        call_ensures(PollLoop::dispatched, (poll, gone), ()),
        old(poll)@.wf(),
        old(poll).stage == (PollStage::Dispatching { entry, trigger, event }),
    ensures
        final(poll).entries@ == old(poll).entries@,
        final(poll).events@ == old(poll).events@,
        if gone {
            final(poll).stage is Stopped
        } else if event + 1 < old(poll).events@.len() {
            final(poll).stage == (PollStage::Dispatching {
                entry,
                trigger,
                event: (event + 1) as usize,
            })
        } else if trigger + 1 < old(poll).entries@[entry as int].triggers@.len() {
            final(poll).stage == (PollStage::Polling { entry, trigger: (trigger + 1) as usize })
        } else {
            first_behind(old(poll).entries@, entry as int, final(poll).stage)
        },
{
    let now = final(poll)@;
    assert(now.stage == final(poll).stage);
    assert(now.entries == final(poll).entries@ && now.events == final(poll).events@);
    assert(old(poll).entries@.len() == old(poll).entries.len());
    lemma_next_trigger(old(poll).entries@, entry as nat, trigger as nat);
}

/// A file that is added to a state has its time then, and the others keep
/// theirs.
pub proof fn law_file_has_its_time(
    state: &mut FileState,
    path: String,
    modified: i128,
    other: &str,
    before: Option<i128>,
    after: Option<i128>,
)
    requires
        call_ensures(FileState::get, (&*old(state), other), before),
        call_ensures(FileState::insert, (state, path, modified), ()),
        call_ensures(FileState::get, (&*final(state), other), after),
    ensures
        other@ == path@ ==> after == Some(modified),
        other@ != path@ ==> after == before,
{
}

/// Two states differ if a file has not the same time in both, and do not if they
/// are the same.
pub proof fn law_states_differ(
    state: FileState,
    other: FileState,
    yes: bool,
    path: &str,
    here: Option<i128>,
    there: Option<i128>,
)
    requires
        call_ensures(FileState::differs, (&state, &other), yes),
        call_ensures(FileState::get, (&state, path), here),
        call_ensures(FileState::get, (&other, path), there),
    ensures
        here != there ==> yes,
        state@ == other@ ==> !yes,
{
}

} // verus!
