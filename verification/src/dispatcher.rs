//! Which events start a workflow run and when, and what becomes of those that
//! did. Every event is run at most once, and only so many at a time.
use std::sync::Arc;
use vstd::prelude::*;

use crate::clock::{datable, format_rfc3339, rfc3339_text, utc_now};
use crate::config::GitConfig;
use crate::json::{json_pretty, json_strings, parse_strings, write_strings};
use crate::keys::KeySet;
use crate::text::{lemma_first_separator, list_contains, str_eq, views};
use crate::trigger::EventKey;
use crate::workflow::Step;

verus! {

// ---------------------------------------------------------------------------
// Model
// ---------------------------------------------------------------------------

/// The keys of the events that were taken up, that failed, and that are
/// completed; of those that were taken up, the keys of the ones that are being
/// run, and the ones that wait, the oldest first; and how many may be run at a
/// time.
#[verifier::ext_equal]
pub struct DispatchState {
    pub in_flight: Set<Seq<char>>,
    pub permanently_failed: Set<Seq<char>>,
    pub completed: Set<Seq<char>>,
    pub running: Seq<Seq<char>>,
    pub waiting: Seq<DispatchMessage>,
    pub permits: nat,
}

impl DispatchState {
    /// The event was taken up, or had been completed before.
    pub open spec fn known(self, key: Seq<char>) -> bool {
        self.in_flight.contains(key) || self.permanently_failed.contains(key)
            || self.completed.contains(key)
    }

    /// The keys of the events that wait.
    pub open spec fn waiting_keys(self) -> Seq<Seq<char>> {
        self.waiting.map_values(|m: DispatchMessage| dispatch_key(m.event_key))
    }

    /// There may be one more run.
    pub open spec fn has_room(self) -> bool {
        self.running.len() < self.permits
    }

    /// The state after an event was taken up and started.
    pub open spec fn started(self, key: Seq<char>) -> DispatchState {
        DispatchState {
            in_flight: self.in_flight.insert(key),
            running: self.running.push(key),
            ..self
        }
    }

    /// The state after an event was taken up and has to wait.
    pub open spec fn queued(self, message: DispatchMessage) -> DispatchState {
        DispatchState {
            in_flight: self.in_flight.insert(dispatch_key(message.event_key)),
            waiting: self.waiting.push(message),
            ..self
        }
    }

    /// The state after the event that waited longest was started.
    pub open spec fn advanced(self) -> DispatchState {
        DispatchState {
            running: self.running.push(dispatch_key(self.waiting[0].event_key)),
            waiting: self.waiting.drop_first(),
            ..self
        }
    }

    /// The state after the run of an event is over.
    pub open spec fn finished(self, key: Seq<char>, ok: bool) -> DispatchState {
        DispatchState {
            in_flight: self.in_flight.remove(key),
            permanently_failed: if ok {
                self.permanently_failed
            } else {
                self.permanently_failed.insert(key)
            },
            completed: if ok {
                self.completed.insert(key)
            } else {
                self.completed
            },
            running: self.running.remove_value(key),
            ..self
        }
    }

    /// No event is in two of the sets.
    pub open spec fn apart(self) -> bool {
        &&& self.in_flight.disjoint(self.permanently_failed)
        &&& self.in_flight.disjoint(self.completed)
        &&& self.permanently_failed.disjoint(self.completed)
    }

    /// The events that are being run and those that wait are known, each is
    /// there once, and none is in both.
    pub open spec fn orderly(self) -> bool {
        &&& self.running.no_duplicates()
        &&& self.waiting_keys().no_duplicates()
        &&& forall|key: Seq<char>| #[trigger]
            self.running.contains(key) ==> self.known(key) && !self.waiting_keys().contains(key)
        &&& forall|key: Seq<char>| #[trigger]
            self.waiting_keys().contains(key) ==> self.known(key)
    }

    /// Nothing waits as long as there may be one more run.
    pub open spec fn settled(self) -> bool {
        self.has_room() ==> self.waiting.len() == 0
    }
}

/// The key under which an event is known: `owner/repo/workspace_id`.
pub open spec fn dispatch_key(event: EventKey) -> Seq<char> {
    event.owner@ + "/"@ + event.repo@ + "/"@ + event.workspace_id@
}

// ---------------------------------------------------------------------------
// The dispatcher
// ---------------------------------------------------------------------------

/// An event to be run, with what is to be done for it.
pub struct DispatchMessage {
    pub event_key: EventKey,
    pub steps: Arc<Vec<Step>>,
    pub git_config: GitConfig,
}

/// What the dispatcher hears of.
pub enum DispatchEvent {
    /// The poller found an event.
    Message(DispatchMessage),
    /// The run of an event is over.
    Done { key: String, result: Result<(), String> },
    /// It is time to start an event that waits.
    Next,
    /// The poller has shut down.
    Closed,
}

/// What the dispatcher wants done.
pub enum DispatchAction {
    /// Nothing.
    Skip,
    /// Run the workflow of the event.
    Start { key: String, message: DispatchMessage },
    /// Nothing yet: the event waits until another run is over.
    Wait,
    /// Take down that the event is completed.
    RecordCompleted { key: String },
    /// Take down that the event failed, and why.
    RecordFailed { key: String, error: String },
    /// Wait for the runs that are going on, then end.
    Drain,
}

/// Decides which events are run, and when.
pub struct Dispatcher {
    pub in_flight: KeySet,
    pub permanently_failed: KeySet,
    pub completed: KeySet,
    /// The keys of the events that are being run.
    pub running: Vec<String>,
    /// The events that wait, the oldest first.
    pub waiting: Vec<DispatchMessage>,
    /// How many runs there may be at a time.
    pub permits: usize,
    pub data_root: String,
    pub token: String,
    pub current_exe: String,
    pub show_logs: bool,
}

/// `tokio::sync::Semaphore::MAX_PERMITS`: an eighth of the largest number of
/// the machine word, rounded down.
#[verifier::external_body]
fn max_permits() -> (permits: usize)
    ensures
        permits == usize::MAX / 8,
{
    tokio::sync::Semaphore::MAX_PERMITS
}

impl Dispatcher {
    /// What the dispatcher knows of the events.
    pub open spec fn state(&self) -> DispatchState {
        DispatchState {
            in_flight: self.in_flight@,
            permanently_failed: self.permanently_failed@,
            completed: self.completed@,
            running: views(self.running@),
            waiting: self.waiting@,
            permits: self.permits as nat,
        }
    }

    /// A dispatcher that has started nothing yet. Without a limit on the
    /// number of runs, there are as many permits as there can be.
    pub fn new(
        data_root: String,
        token: String,
        current_exe: String,
        show_logs: bool,
        concurrency_limit: usize,
        completed: KeySet,
    ) -> (dispatcher: Dispatcher)
        requires
            concurrency_limit <= usize::MAX / 8,
        ensures
            dispatcher.state() == initial_state(concurrency_limit, completed@),
            dispatcher.data_root == data_root,
            dispatcher.token == token,
            dispatcher.current_exe == current_exe,
            dispatcher.show_logs == show_logs,
    {
        let dispatcher = Dispatcher {
            in_flight: KeySet::new(),
            permanently_failed: KeySet::new(),
            completed,
            running: Vec::new(),
            waiting: Vec::new(),
            permits: if concurrency_limit == 0 {
                max_permits()
            } else {
                concurrency_limit
            },
            data_root,
            token,
            current_exe,
            show_logs,
        };
        assert(views(dispatcher.running@) =~= Seq::<Seq<char>>::empty());
        assert(dispatcher.waiting@ =~= Seq::<DispatchMessage>::empty());
        dispatcher
    }

    /// Takes note of what happened, and says what is to be done. An event is
    /// taken up unless it is completed, failed, or was taken up before. It is
    /// started if there may be one more run, and waits otherwise.
    pub fn run(&mut self, event: DispatchEvent) -> (action: DispatchAction)
        ensures
            final(self).data_root == old(self).data_root,
            final(self).token == old(self).token,
            final(self).current_exe == old(self).current_exe,
            final(self).show_logs == old(self).show_logs,
            final(self).state() == match heard_of(event) {
                Some(heard) => after(old(self).state(), heard),
                None => old(self).state(),
            },
            match event {
                DispatchEvent::Message(message) => {
                    let key = dispatch_key(message.event_key);
                    let state = old(self).state();
                    if state.known(key) {
                        action is Skip && final(self).state() == state
                    } else if state.has_room() && state.waiting.len() == 0 {
                        &&& action matches DispatchAction::Start { key: k, message: m } && k@ == key
                            && m == message
                        &&& final(self).state() == state.started(key)
                    } else {
                        action is Wait && final(self).state() == state.queued(message)
                    }
                },
                DispatchEvent::Done { key, result } => {
                    &&& final(self).state() == old(self).state().finished(key@, result is Ok)
                    &&& match result {
                        Ok(_) => action matches DispatchAction::RecordCompleted { key: k } && k@
                            == key@,
                        Err(e) => action matches DispatchAction::RecordFailed { key: k, error }
                            && k@ == key@ && error@ == e@,
                    }
                },
                DispatchEvent::Next => {
                    let state = old(self).state();
                    if state.has_room() && state.waiting.len() > 0 {
                        &&& action matches DispatchAction::Start { key: k, message: m } && m
                            == state.waiting[0] && k@ == dispatch_key(m.event_key)
                        &&& final(self).state() == state.advanced()
                    } else {
                        action is Skip && final(self).state() == state
                    }
                },
                DispatchEvent::Closed => action is Drain && final(self).state()
                    == old(self).state(),
            },
            action is Start <==> heard_of(event) is Some && start_on(
                old(self).state(),
                heard_of(event)->0,
            ) is Some,
            action matches DispatchAction::Start { key, message } ==> start_on(
                old(self).state(),
                heard_of(event)->0,
            ) == Some(message) && key@ == dispatch_key(message.event_key),
    {
        let ghost state = self.state();
        match event {
            DispatchEvent::Message(message) => {
                let key = key_text(&message.event_key);
                if self.completed.contains(key.as_str()) || self.permanently_failed.contains(
                    key.as_str(),
                ) || self.in_flight.contains(key.as_str()) {
                    return DispatchAction::Skip;
                }
                let _ = self.in_flight.insert(key.clone());
                if self.running.len() < self.permits && self.waiting.len() == 0 {
                    self.running.push(key.clone());
                    assert(views(self.running@) =~= state.running.push(key@));
                    DispatchAction::Start { key, message }
                } else {
                    self.waiting.push(message);
                    DispatchAction::Wait
                }
            },
            DispatchEvent::Done { key, result } => {
                self.in_flight.remove(key.as_str());
                remove_key(&mut self.running, key.as_str());
                match result {
                    Ok(_) => {
                        let _ = self.completed.insert(key.clone());
                        DispatchAction::RecordCompleted { key }
                    },
                    Err(error) => {
                        let _ = self.permanently_failed.insert(key.clone());
                        DispatchAction::RecordFailed { key, error }
                    },
                }
            },
            DispatchEvent::Next => {
                if self.running.len() < self.permits && self.waiting.len() > 0 {
                    let message = self.waiting.remove(0);
                    let key = key_text(&message.event_key);
                    self.running.push(key.clone());
                    assert(self.waiting@ =~= state.waiting.drop_first());
                    assert(views(self.running@) =~= state.running.push(key@));
                    DispatchAction::Start { key, message }
                } else {
                    DispatchAction::Skip
                }
            },
            DispatchEvent::Closed => DispatchAction::Drain,
        }
    }

    /// Whether no event is being run, and none waits.
    pub fn is_idle(&self) -> (idle: bool)
        ensures
            idle == (self.state().in_flight == Set::<Seq<char>>::empty()),
    {
        self.in_flight.is_empty()
    }
}

/// What a dispatcher knows at first: what is completed, and how many runs
/// there may be at a time. Without a limit, the number is the largest one that
/// there can be.
pub open spec fn initial_state(limit: usize, completed: Set<Seq<char>>) -> DispatchState {
    DispatchState {
        in_flight: Set::empty(),
        permanently_failed: Set::empty(),
        completed,
        running: Seq::empty(),
        waiting: Seq::empty(),
        permits: if limit == 0 {
            (usize::MAX / 8) as nat
        } else {
            limit as nat
        },
    }
}

/// Takes the first occurrence of a key out of a list.
fn remove_key(list: &mut Vec<String>, key: &str)
    ensures
        views(final(list)@) == views(old(list)@).remove_value(key@),
{
    let ghost all = views(list@);
    proof {
        all.index_of_first_ensures(key@);
    }
    let mut i: usize = 0;
    while i < list.len()
        invariant
            i <= list.len(),
            *list == *old(list),
            all == views(list@),
            forall|j: int| 0 <= j < i ==> #[trigger] all[j] != key@,
        decreases list.len() - i,
    {
        assert(all[i as int] == list@[i as int]@);
        if str_eq(list[i].as_str(), key) {
            let _ = list.remove(i);
            proof {
                all.index_of_first_ensures(key@);
                assert(all.contains(key@));
                assert(views(list@) =~= all.remove(i as int));
            }
            return;
        }
        i += 1;
    }
    assert(!all.contains(key@));
}

/// The key under which an event is known.
pub fn key_text(event: &EventKey) -> (key: String)
    ensures
        key@ == dispatch_key(*event),
{
    event.owner.clone().concat("/").concat(event.repo.as_str()).concat("/").concat(
        event.workspace_id.as_str(),
    )
}

// ---------------------------------------------------------------------------
// Laws
// ---------------------------------------------------------------------------

/// Taking up an event that is not known, and ending the run of one that was
/// taken up, keep the sets apart.
pub proof fn law_sets_stay_apart(
    state: DispatchState,
    message: DispatchMessage,
    key: Seq<char>,
    ok: bool,
)
    requires
        state.apart(),
    ensures
        !state.known(key) ==> state.started(key).apart(),
        !state.known(dispatch_key(message.event_key)) ==> state.queued(message).apart(),
        state.advanced().apart(),
        state.in_flight.contains(key) ==> state.finished(key, ok).apart(),
{
}

/// Events are told apart by their keys: two events with the same key have the
/// same owner, repository and workspace. The names of owners and repositories
/// hold no slash.
pub proof fn law_keys_tell_events_apart(a: EventKey, b: EventKey)
    requires
        !a.owner@.contains('/'),
        !a.repo@.contains('/'),
        !b.owner@.contains('/'),
        !b.repo@.contains('/'),
        dispatch_key(a) == dispatch_key(b),
    ensures
        a.owner@ == b.owner@,
        a.repo@ == b.repo@,
        a.workspace_id@ == b.workspace_id@,
{
    reveal_strlit("/");
    let below_a = a.repo@ + seq!['/'] + a.workspace_id@;
    let below_b = b.repo@ + seq!['/'] + b.workspace_id@;
    assert(dispatch_key(a) =~= a.owner@ + seq!['/'] + below_a);
    assert(dispatch_key(b) =~= b.owner@ + seq!['/'] + below_b);
    lemma_first_separator(a.owner@, below_a, b.owner@, below_b, '/');
    lemma_first_separator(a.repo@, a.workspace_id@, b.repo@, b.workspace_id@, '/');
}

/// Something that the dispatcher heard of: an event, the end of a run, or that
/// it is time to start an event that waits.
pub enum Heard {
    Message(DispatchMessage),
    Done(Seq<char>, bool),
    Next,
}

/// What an event of the dispatcher is in a history. That the poller has shut
/// down changes nothing.
pub open spec fn heard_of(event: DispatchEvent) -> Option<Heard> {
    match event {
        DispatchEvent::Message(message) => Some(Heard::Message(message)),
        DispatchEvent::Done { key, result } => Some(Heard::Done(key@, result is Ok)),
        DispatchEvent::Next => Some(Heard::Next),
        DispatchEvent::Closed => None,
    }
}

/// The state after one more thing was heard of.
pub open spec fn after(state: DispatchState, heard: Heard) -> DispatchState {
    match heard {
        Heard::Message(message) => {
            let key = dispatch_key(message.event_key);
            if state.known(key) {
                state
            } else if state.has_room() && state.waiting.len() == 0 {
                state.started(key)
            } else {
                state.queued(message)
            }
        },
        Heard::Done(key, ok) => state.finished(key, ok),
        Heard::Next => if state.has_room() && state.waiting.len() > 0 {
            state.advanced()
        } else {
            state
        },
    }
}

/// The event that is started when one more thing is heard of, if any, with what
/// is to be done for it.
pub open spec fn start_on(state: DispatchState, heard: Heard) -> Option<DispatchMessage> {
    match heard {
        Heard::Message(message) => if !state.known(dispatch_key(message.event_key))
            && state.has_room() && state.waiting.len() == 0 {
            Some(message)
        } else {
            None
        },
        Heard::Done(_, _) => None,
        Heard::Next => if state.has_room() && state.waiting.len() > 0 {
            Some(state.waiting[0])
        } else {
            None
        },
    }
}

/// The event `key` is started when one more thing is heard of.
pub open spec fn starts(state: DispatchState, heard: Heard, key: Seq<char>) -> bool {
    start_on(state, heard) matches Some(m) && dispatch_key(m.event_key) == key
}

/// The state after a history.
pub open spec fn state_after(initial: DispatchState, history: Seq<Heard>) -> DispatchState
    decreases history.len(),
{
    if history.len() == 0 {
        initial
    } else {
        after(state_after(initial, history.drop_last()), history.last())
    }
}

/// The event `key` is started at step `i` of a history.
pub open spec fn starts_at(initial: DispatchState, history: Seq<Heard>, key: Seq<char>, i: int) -> bool {
    &&& 0 <= i < history.len()
    &&& starts(state_after(initial, history.take(i)), history[i], key)
}

proof fn lemma_step(initial: DispatchState, history: Seq<Heard>, i: int)
    requires
        0 <= i < history.len(),
    ensures
        state_after(initial, history.take(i + 1)) == after(
            state_after(initial, history.take(i)),
            history[i],
        ),
{
    assert(history.take(i + 1).drop_last() =~= history.take(i));
}

proof fn lemma_waiting_keys(state: DispatchState, message: DispatchMessage)
    ensures
        state.queued(message).waiting_keys() == state.waiting_keys().push(
            dispatch_key(message.event_key),
        ),
        state.waiting.len() > 0 ==> state.advanced().waiting_keys()
            == state.waiting_keys().drop_first() && state.waiting_keys()[0] == dispatch_key(
            state.waiting[0].event_key,
        ),
{
    assert(state.queued(message).waiting_keys() =~= state.waiting_keys().push(
        dispatch_key(message.event_key),
    ));
    if state.waiting.len() > 0 {
        assert(state.advanced().waiting_keys() =~= state.waiting_keys().drop_first());
    }
}

proof fn lemma_pushed(list: Seq<Seq<char>>, new: Seq<char>)
    ensures
        forall|k: Seq<char>| #[trigger]
            list.push(new).contains(k) <==> list.contains(k) || k == new,
        list.no_duplicates() && !list.contains(new) ==> list.push(new).no_duplicates(),
{
    let more = list.push(new);
    assert forall|k: Seq<char>| #[trigger] more.contains(k) <==> list.contains(k) || k == new by {
        if list.contains(k) {
            let i = choose|i: int| 0 <= i < list.len() && list[i] == k;
            assert(more[i] == k);
        }
        assert(more[list.len() as int] == new);
    }
    if list.no_duplicates() && !list.contains(new) {
        assert forall|i: int, j: int|
            0 <= i < more.len() && 0 <= j < more.len() && i != j implies more[i] != more[j] by {
            if i < list.len() {
                assert(list.contains(list[i]));
            }
            if j < list.len() {
                assert(list.contains(list[j]));
            }
        }
    }
}

proof fn lemma_first_dropped(list: Seq<Seq<char>>)
    requires
        list.len() > 0,
        list.no_duplicates(),
    ensures
        list.contains(list[0]),
        list.drop_first().no_duplicates(),
        forall|k: Seq<char>| #[trigger]
            list.drop_first().contains(k) <==> list.contains(k) && k != list[0],
{
    let rest = list.drop_first();
    assert forall|k: Seq<char>| #[trigger] rest.contains(k) <==> list.contains(k) && k
        != list[0] by {
        if rest.contains(k) {
            let i = choose|i: int| 0 <= i < rest.len() && rest[i] == k;
            assert(list[i + 1] == k);
        }
        if list.contains(k) && k != list[0] {
            let i = choose|i: int| 0 <= i < list.len() && list[i] == k;
            assert(rest[i - 1] == k);
        }
    }
}

proof fn lemma_stays_orderly(state: DispatchState, heard: Heard)
    requires
        state.orderly(),
    ensures
        after(state, heard).orderly(),
        after(state, heard).permits == state.permits,
        forall|key: Seq<char>| state.known(key) ==> after(state, heard).known(key),
        forall|key: Seq<char>|
            state.known(key) && !state.waiting_keys().contains(key) ==> !(#[trigger] after(
                state,
                heard,
            ).waiting_keys().contains(key)),
        forall|key: Seq<char>| #[trigger]
            starts(state, heard, key) ==> after(state, heard).known(key) && !after(
                state,
                heard,
            ).waiting_keys().contains(key),
{
    match heard {
        Heard::Message(message) => {
            let key = dispatch_key(message.event_key);
            lemma_waiting_keys(state, message);
            lemma_pushed(state.running, key);
            lemma_pushed(state.waiting_keys(), key);
            assert(state.waiting.len() == 0 ==> state.started(key).waiting_keys()
                =~= Seq::<Seq<char>>::empty());
        },
        Heard::Done(key, _) => {
            lemma_removed(state.running, key);
            assert(after(state, heard).waiting_keys() =~= state.waiting_keys());
        },
        Heard::Next => {
            if state.has_room() && state.waiting.len() > 0 {
                lemma_waiting_keys(state, state.waiting[0]);
                lemma_pushed(state.running, state.waiting_keys()[0]);
                lemma_first_dropped(state.waiting_keys());
            }
        },
    }
}

proof fn lemma_removed(list: Seq<Seq<char>>, key: Seq<char>)
    requires
        list.no_duplicates(),
    ensures
        list.remove_value(key).no_duplicates(),
        list.remove_value(key).len() == list.len() - if list.contains(key) {
            1int
        } else {
            0int
        },
        forall|k: Seq<char>| #[trigger]
            list.remove_value(key).contains(k) <==> list.contains(k) && k != key,
{
    list.index_of_first_ensures(key);
    let rest = list.remove_value(key);
    if list.contains(key) {
        let at = list.index_of_first(key)->0;
        assert forall|k: Seq<char>| #[trigger] rest.contains(k) <==> list.contains(k) && k
            != key by {
            if rest.contains(k) {
                let i = choose|i: int| 0 <= i < rest.len() && rest[i] == k;
                assert(list[if i < at {
                    i
                } else {
                    i + 1
                }] == k);
            }
            if list.contains(k) && k != key {
                let i = choose|i: int| 0 <= i < list.len() && list[i] == k;
                assert(rest[if i < at {
                    i
                } else {
                    i - 1
                }] == k);
            }
        }
    }
}

/// In every history, the events that are being run and those that wait are
/// known, each is there once, and none is in both.
pub proof fn law_stays_orderly(initial: DispatchState, history: Seq<Heard>)
    requires
        initial.orderly(),
    ensures
        state_after(initial, history).orderly(),
        state_after(initial, history).permits == initial.permits,
    decreases history.len(),
{
    if history.len() > 0 {
        law_stays_orderly(initial, history.drop_last());
        lemma_stays_orderly(state_after(initial, history.drop_last()), history.last());
    }
}

/// A dispatcher is orderly at first.
pub proof fn law_initial_state_is_orderly(limit: usize, completed: Set<Seq<char>>)
    ensures
        initial_state(limit, completed).orderly(),
        initial_state(limit, completed).apart(),
        initial_state(limit, completed).settled(),
        initial_state(limit, completed).permits > 0,
{
    assert(usize::MAX / 8 > 0);
}

proof fn lemma_done_with_stays(initial: DispatchState, history: Seq<Heard>, key: Seq<char>, i: int)
    requires
        initial.orderly(),
        0 <= i <= history.len(),
        state_after(initial, history.take(i)).known(key),
        !state_after(initial, history.take(i)).waiting_keys().contains(key),
    ensures
        state_after(initial, history).known(key),
        !state_after(initial, history).waiting_keys().contains(key),
    decreases history.len(),
{
    if i < history.len() {
        let front = history.drop_last();
        assert(front.take(i) =~= history.take(i));
        lemma_done_with_stays(initial, front, key, i);
        law_stays_orderly(initial, front);
        lemma_stays_orderly(state_after(initial, front), history.last());
    } else {
        assert(history.take(i) =~= history);
    }
}

/// Every event is started at most once, whatever the dispatcher hears of and
/// in whichever order.
pub proof fn law_started_at_most_once(
    initial: DispatchState,
    history: Seq<Heard>,
    key: Seq<char>,
    i: int,
    j: int,
)
    requires
        initial.orderly(),
        starts_at(initial, history, key, i),
        starts_at(initial, history, key, j),
    ensures
        i == j,
{
    if i < j {
        lemma_not_started_again(initial, history, key, i, j);
    } else if j < i {
        lemma_not_started_again(initial, history, key, j, i);
    }
}

proof fn lemma_not_started_again(
    initial: DispatchState,
    history: Seq<Heard>,
    key: Seq<char>,
    i: int,
    j: int,
)
    requires
        initial.orderly(),
        starts_at(initial, history, key, i),
        i < j < history.len(),
    ensures
        !starts_at(initial, history, key, j),
{
    law_stays_orderly(initial, history.take(i));
    lemma_stays_orderly(state_after(initial, history.take(i)), history[i]);
    lemma_step(initial, history, i);
    let upto = history.take(j);
    assert(upto.take(i + 1) =~= history.take(i + 1));
    lemma_done_with_stays(initial, upto, key, i + 1);
    lemma_not_started(state_after(initial, upto), history[j], key);
}

proof fn lemma_not_started(state: DispatchState, heard: Heard, key: Seq<char>)
    requires
        state.known(key),
        !state.waiting_keys().contains(key),
    ensures
        !starts(state, heard, key),
{
    if state.waiting.len() > 0 {
        assert(state.waiting_keys().contains(state.waiting_keys()[0]));
    }
}

/// An event that had been completed before is never started.
pub proof fn law_completed_is_not_started(
    initial: DispatchState,
    history: Seq<Heard>,
    key: Seq<char>,
    i: int,
)
    requires
        initial.orderly(),
        initial.completed.contains(key),
        !initial.waiting_keys().contains(key),
    ensures
        !starts_at(initial, history, key, i),
{
    if 0 <= i < history.len() {
        let upto = history.take(i);
        assert(upto.take(0) =~= Seq::<Heard>::empty());
        lemma_done_with_stays(initial, upto, key, 0);
        lemma_not_started(state_after(initial, upto), history[i], key);
    }
}

/// There are never more runs at a time than there are permits.
pub proof fn law_runs_stay_within_the_limit(initial: DispatchState, history: Seq<Heard>)
    requires
        initial.running.len() <= initial.permits,
    ensures
        state_after(initial, history).running.len() <= initial.permits,
        state_after(initial, history).permits == initial.permits,
    decreases history.len(),
{
    if history.len() > 0 {
        let front = history.drop_last();
        law_runs_stay_within_the_limit(initial, front);
        if let Heard::Done(key, _) = history.last() {
            state_after(initial, front).running.index_of_first_ensures(key);
        }
    }
}

/// With a limit, there are never more runs at a time than the limit allows.
pub proof fn law_at_most_limit_runs(
    limit: usize,
    completed: Set<Seq<char>>,
    history: Seq<Heard>,
)
    requires
        limit > 0,
    ensures
        state_after(initial_state(limit, completed), history).running.len() <= limit,
{
    law_runs_stay_within_the_limit(initial_state(limit, completed), history);
}

/// The events that are being run are exactly those that were started and whose
/// end was not heard of since.
pub proof fn law_running_is_what_was_started(
    initial: DispatchState,
    history: Seq<Heard>,
    key: Seq<char>,
)
    requires
        initial.orderly(),
        initial.running.len() == 0,
    ensures
        state_after(initial, history).running.contains(key) <==> exists|i: int|
            #[trigger] starts_at(initial, history, key, i) && forall|j: int|
                i < j < history.len() ==> !ends(#[trigger] history[j], key),
    decreases history.len(),
{
    if history.len() == 0 {
        assert forall|i: int| !starts_at(initial, history, key, i) by {}
    } else {
        let front = history.drop_last();
        let last = history.last();
        let n = front.len() as int;
        let state = state_after(initial, front);
        law_running_is_what_was_started(initial, front, key);
        law_stays_orderly(initial, front);
        assert(history.take(n) =~= front);
        assert forall|i: int| 0 <= i < n implies starts_at(initial, front, key, i) == #[trigger]
            starts_at(initial, history, key, i) by {
            assert(front.take(i) =~= history.take(i));
        }
        let now = state_after(initial, history).running;
        if let Heard::Done(other, _) = last {
            lemma_removed(state.running, other);
        }
        if starts(state, last, key) {
            assert(now[state.running.len() as int] == key);
            assert(starts_at(initial, history, key, n));
        } else if now.contains(key) {
            assert(state.running.contains(key)) by {
                let i = choose|i: int| 0 <= i < now.len() && now[i] == key;
                if i < state.running.len() {
                    assert(start_on(state, last) is Some ==> state.running[i] == key);
                }
            }
            let i = choose|i: int|
                #[trigger] starts_at(initial, front, key, i) && forall|j: int|
                    i < j < front.len() ==> !ends(#[trigger] front[j], key);
            assert(starts_at(initial, history, key, i));
            assert forall|j: int| i < j < history.len() implies !ends(
                #[trigger] history[j],
                key,
            ) by {
                if j < n {
                    assert(front[j] == history[j]);
                }
            }
        } else {
            assert forall|i: int| #[trigger] starts_at(initial, history, key, i) implies !(forall|
                j: int,
            |
                i < j < history.len() ==> !ends(#[trigger] history[j], key)) by {
                assert(i < n);
                assert(starts_at(initial, front, key, i));
                if state.running.contains(key) {
                    let at = choose|at: int|
                        0 <= at < state.running.len() && state.running[at] == key;
                    assert(start_on(state, last) is Some ==> now[at] == key);
                    assert(ends(history[n], key));
                } else {
                    let j = choose|j: int| i < j < front.len() && ends(#[trigger] front[j], key);
                    assert(ends(history[j], key));
                }
            }
        }
    }
}

/// The end of the run of an event.
pub open spec fn ends(heard: Heard, key: Seq<char>) -> bool {
    heard matches Heard::Done(k, _) && k == key
}

/// At each step of a history, fewer runs were going on than there are permits
/// without a limit.
pub open spec fn within_reach(completed: Set<Seq<char>>, history: Seq<Heard>) -> bool {
    forall|i: int|
        0 <= i < history.len() ==> (#[trigger] state_after(
            initial_state(0, completed),
            history.take(i),
        )).running.len() < usize::MAX / 8
}

/// Without a limit, no event waits: each is started when it is heard of. The
/// one exception is a machine on which as many runs are going on as there can
/// be permits.
pub proof fn law_without_a_limit_nothing_waits(completed: Set<Seq<char>>, history: Seq<Heard>)
    requires
        within_reach(completed, history),
    ensures
        ({
            let state = state_after(initial_state(0, completed), history);
            &&& state.waiting.len() == 0
            &&& forall|message: DispatchMessage|
                state.running.len() < usize::MAX / 8 && !state.known(
                    dispatch_key(message.event_key),
                ) ==> #[trigger] start_on(state, Heard::Message(message)) == Some(message)
        }),
    decreases history.len(),
{
    let initial = initial_state(0, completed);
    law_runs_stay_within_the_limit(initial, history);
    if history.len() > 0 {
        let front = history.drop_last();
        assert forall|i: int| 0 <= i < front.len() implies (#[trigger] state_after(
            initial,
            front.take(i),
        )).running.len() < usize::MAX / 8 by {
            assert(front.take(i) =~= history.take(i));
        }
        law_without_a_limit_nothing_waits(completed, front);
        law_runs_stay_within_the_limit(initial, front);
        assert(history.take(front.len() as int) =~= front);
    }
}

/// A short history is within reach: there are never more runs than things that
/// were heard of.
pub proof fn law_short_histories_are_within_reach(completed: Set<Seq<char>>, history: Seq<Heard>)
    requires
        history.len() <= usize::MAX / 8,
    ensures
        within_reach(completed, history),
{
    assert forall|i: int| 0 <= i < history.len() implies (#[trigger] state_after(
        initial_state(0, completed),
        history.take(i),
    )).running.len() < usize::MAX / 8 by {
        lemma_no_more_runs_than_heard(initial_state(0, completed), history.take(i));
    }
}

proof fn lemma_no_more_runs_than_heard(initial: DispatchState, history: Seq<Heard>)
    ensures
        state_after(initial, history).running.len() <= initial.running.len() + history.len(),
    decreases history.len(),
{
    if history.len() > 0 {
        let front = history.drop_last();
        lemma_no_more_runs_than_heard(initial, front);
        if let Heard::Done(key, _) = history.last() {
            state_after(initial, front).running.index_of_first_ensures(key);
        }
    }
}

/// No event waits while there may be one more run: an event that is heard of
/// is started if there is room, and when a run is over, the next event that
/// waits takes its place.
pub proof fn law_room_is_used(
    state: DispatchState,
    message: DispatchMessage,
    key: Seq<char>,
    ok: bool,
)
    requires
        state.settled(),
    ensures
        after(state, Heard::Message(message)).settled(),
        after(state, Heard::Next).settled(),
        after(after(state, Heard::Done(key, ok)), Heard::Next).settled(),
        state.permits > 0 && state.running.len() == 0 ==> state.waiting.len() == 0,
{
    state.running.index_of_first_ensures(key);
}

/// Every end that a history holds is that of an event that is being run.
pub open spec fn ends_what_runs(initial: DispatchState, history: Seq<Heard>) -> bool {
    forall|i: int, key: Seq<char>|
        0 <= i < history.len() && #[trigger] ends(history[i], key) ==> state_after(
            initial,
            history.take(i),
        ).running.contains(key)
}

/// The events in flight are those that are being run and those that wait.
pub proof fn law_in_flight_runs_or_waits(
    initial: DispatchState,
    history: Seq<Heard>,
    key: Seq<char>,
)
    requires
        initial.orderly(),
        initial.running.len() == 0,
        initial.waiting.len() == 0,
        initial.in_flight == Set::<Seq<char>>::empty(),
        ends_what_runs(initial, history),
    ensures
        ({
            let state = state_after(initial, history);
            state.in_flight.contains(key) <==> state.running.contains(key)
                || state.waiting_keys().contains(key)
        }),
    decreases history.len(),
{
    if history.len() > 0 {
        let front = history.drop_last();
        let last = history.last();
        assert forall|i: int, k: Seq<char>|
            0 <= i < front.len() && #[trigger] ends(front[i], k) implies state_after(
            initial,
            front.take(i),
        ).running.contains(k) by {
            assert(front.take(i) =~= history.take(i));
            assert(ends(history[i], k));
        }
        law_in_flight_runs_or_waits(initial, front, key);
        law_stays_orderly(initial, front);
        let state = state_after(initial, front);
        let next = state_after(initial, history);
        assert(history.take(front.len() as int) =~= front);
        match last {
            Heard::Message(message) => {
                let k = dispatch_key(message.event_key);
                lemma_waiting_keys(state, message);
                lemma_pushed(state.running, k);
                lemma_pushed(state.waiting_keys(), k);
                assert(state.started(k).waiting_keys() =~= state.waiting_keys());
            },
            Heard::Done(k, ok) => {
                assert(ends(history[front.len() as int], k));
                lemma_removed(state.running, k);
                assert(next.waiting_keys() =~= state.waiting_keys());
            },
            Heard::Next => {
                if state.has_room() && state.waiting.len() > 0 {
                    lemma_waiting_keys(state, state.waiting[0]);
                    lemma_pushed(state.running, state.waiting_keys()[0]);
                    lemma_first_dropped(state.waiting_keys());
                }
            },
        }
    } else {
        assert(initial.waiting_keys() =~= Seq::<Seq<char>>::empty());
    }
}

/// What an event waits with is what was heard of with it.
pub open spec fn waits_as_heard(initial: DispatchState, history: Seq<Heard>) -> bool {
    forall|k: int|
        0 <= k < state_after(initial, history).waiting.len() ==> history.contains(
            Heard::Message(#[trigger] state_after(initial, history).waiting[k]),
        )
}

proof fn lemma_waits_as_heard(initial: DispatchState, history: Seq<Heard>)
    requires
        initial.waiting.len() == 0,
    ensures
        waits_as_heard(initial, history),
    decreases history.len(),
{
    if history.len() > 0 {
        let front = history.drop_last();
        let last = history.last();
        lemma_waits_as_heard(initial, front);
        let state = state_after(initial, front);
        let next = state_after(initial, history);
        assert forall|k: int| 0 <= k < next.waiting.len() implies history.contains(
            Heard::Message(#[trigger] next.waiting[k]),
        ) by {
            let message = next.waiting[k];
            if last == Heard::Message(message) {
                assert(history[front.len() as int] == last);
            } else {
                let at = if last is Next && state.has_room() && state.waiting.len() > 0 {
                    k + 1
                } else {
                    k
                };
                assert(state.waiting[at] == message);
                let j = choose|j: int|
                    0 <= j < front.len() && front[j] == Heard::Message(message);
                assert(history[j] == Heard::Message(message));
            }
        }
    }
}

/// A run is started with exactly what was heard of with its event, however long
/// the event had to wait: with the steps and the settings of then.
pub proof fn law_a_run_is_what_was_heard_of(
    initial: DispatchState,
    history: Seq<Heard>,
    i: int,
    message: DispatchMessage,
)
    requires
        initial.waiting.len() == 0,
        0 <= i < history.len(),
        start_on(state_after(initial, history.take(i)), history[i]) == Some(message),
    ensures
        exists|j: int| 0 <= j <= i && #[trigger] history[j] == Heard::Message(message),
{
    let state = state_after(initial, history.take(i));
    if history[i] is Next {
        lemma_waits_as_heard(initial, history.take(i));
        assert(history.take(i).contains(Heard::Message(state.waiting[0])));
        let j = choose|j: int| 0 <= j < i && history.take(i)[j] == Heard::Message(message);
        assert(history[j] == Heard::Message(message));
    }
}

// ---------------------------------------------------------------------------
// The files of completed and failed events
// ---------------------------------------------------------------------------

/// The file of completed events, in the data directory.
pub const COMPLETED_FILE: &'static str = "completed.json";

/// The file of failed events, in the data directory.
pub const FAILED_FILE: &'static str = "failed.json";

/// The keys that the file of completed events holds: none if it cannot be
/// read, or is no array of strings.
pub open spec fn stored_keys(text: Option<Seq<char>>) -> Seq<Seq<char>> {
    match text {
        Some(t) => match json_strings(t) {
            Some(keys) => keys,
            None => Seq::empty(),
        },
        None => Seq::empty(),
    }
}

/// The keys with one more at the end, unless it is there already.
pub open spec fn with_key(keys: Seq<Seq<char>>, key: Seq<char>) -> Seq<Seq<char>> {
    if keys.contains(key) {
        keys
    } else {
        keys.push(key)
    }
}

/// What a file holds, if it could be read.
pub open spec fn file_text(text: Option<&str>) -> Option<Seq<char>> {
    match text {
        Some(t) => Some(t@),
        None => None,
    }
}

/// The keys that the file of completed events holds.
pub fn read_json_array(text: Option<&str>) -> (keys: Vec<String>)
    ensures
        views(keys@) == stored_keys(file_text(text)),
{
    if let Some(t) = text {
        if let Some(keys) = parse_strings(t) {
            return keys;
        }
    }
    let keys: Vec<String> = Vec::new();
    assert(views(keys@) =~= Seq::<Seq<char>>::empty());
    keys
}

/// What the file of completed events is to hold after one more event is
/// completed. Reading it gives back the keys of before and the new one.
pub fn append_completed(text: Option<&str>, key: &str) -> (out: String)
    ensures
        out@ == json_pretty(with_key(stored_keys(file_text(text)), key@)),
        stored_keys(Some(out@)) == with_key(stored_keys(file_text(text)), key@),
{
    let mut keys = read_json_array(text);
    if !list_contains(&keys, key) {
        let ghost before = views(keys@);
        keys.push(key.to_owned());
        assert(views(keys@) =~= before.push(key@));
    }
    write_strings(&keys)
}

/// Adding a key keeps all others, adds none but this one, and changes nothing
/// the second time.
pub proof fn law_completed_keys_accumulate(keys: Seq<Seq<char>>, key: Seq<char>)
    ensures
        with_key(keys, key).to_set() == keys.to_set().insert(key),
        with_key(with_key(keys, key), key) == with_key(keys, key),
        keys.no_duplicates() ==> with_key(keys, key).no_duplicates(),
{
    let more = with_key(keys, key);
    if keys.contains(key) {
        assert(more.to_set() =~= keys.to_set().insert(key));
    } else {
        assert(more[keys.len() as int] == key);
        assert forall|k: Seq<char>| more.contains(k) <==> keys.contains(k) || k == key by {
            if keys.contains(k) {
                let i = choose|i: int| 0 <= i < keys.len() && keys[i] == k;
                assert(more[i] == k);
            }
        }
        assert(more.to_set() =~= keys.to_set().insert(key));
    }
}

/// An event whose completion was taken down is not started by a dispatcher
/// that begins with what the file holds.
pub proof fn law_completed_survives_restart(
    keys: Seq<Seq<char>>,
    key: Seq<char>,
    initial: DispatchState,
    history: Seq<Heard>,
    i: int,
)
    requires
        initial.orderly(),
        initial.waiting.len() == 0,
        initial.completed == with_key(keys, key).to_set(),
    ensures
        !starts_at(initial, history, key, i),
{
    law_completed_keys_accumulate(keys, key);
    law_completed_is_not_started(initial, history, key, i);
}

/// An event that failed: its key, when it failed, and why.
pub struct FailedEntry {
    pub key: String,
    pub timestamp: String,
    pub error: String,
}

/// The list of failed events after one more failed at the given time.
pub fn append_failed_at(
    entries: Vec<FailedEntry>,
    key: &str,
    error: &str,
    secs: i64,
    nanos: u32,
) -> (out: Vec<FailedEntry>)
    requires
        datable(secs as int, nanos as int),
    ensures
        out@.len() == entries@.len() + 1,
        out@.drop_last() == entries@,
        out@.last().key@ == key@,
        out@.last().timestamp@ == rfc3339_text(secs, nanos),
        out@.last().error@ == error@,
{
    let mut out = entries;
    out.push(
        FailedEntry {
            key: key.to_owned(),
            timestamp: format_rfc3339(secs, nanos),
            error: error.to_owned(),
        },
    );
    assert(out@.drop_last() =~= entries@);
    out
}

/// The list of failed events after one more failed now.
pub fn append_failed(entries: Vec<FailedEntry>, key: &str, error: &str) -> (out: Vec<FailedEntry>)
    ensures
        out@.len() == entries@.len() + 1,
        out@.drop_last() == entries@,
        out@.last().key@ == key@,
        exists|secs: i64, nanos: u32|
            datable(secs as int, nanos as int) && out@.last().timestamp@ == #[trigger] rfc3339_text(
                secs,
                nanos,
            ),
        out@.last().error@ == error@,
{
    let (secs, nanos) = utc_now();
    append_failed_at(entries, key, error, secs, nanos)
}

// ---------------------------------------------------------------------------
// Laws of single steps
// ---------------------------------------------------------------------------

/// An event is known by its owner, its repository and its workspace, in this
/// order.
pub proof fn law_key_of_an_event(event: EventKey, key: String)
    requires
        call_ensures(key_text, (&event,), key),
    ensures
        key@ == event.owner@ + "/"@ + event.repo@ + "/"@ + event.workspace_id@,
{
}

/// What becomes of an event that is heard of. One that is completed, has failed
/// or is in flight is passed over. Any other is in flight from then on: it is
/// started if there is room and nothing waits, and waits behind the others
/// otherwise. Nothing else changes.
pub proof fn law_event_is_taken_up(state: DispatchState, message: DispatchMessage)
    ensures
        ({
            let event = message.event_key;
            let key = event.owner@ + "/"@ + event.repo@ + "/"@ + event.workspace_id@;
            let next = after(state, Heard::Message(message));
            let started = start_on(state, Heard::Message(message));
            if state.completed.contains(key) || state.permanently_failed.contains(key)
                || state.in_flight.contains(key) {
                next == state && started is None
            } else {
                &&& next.in_flight == state.in_flight.insert(key)
                &&& next.completed == state.completed
                &&& next.permanently_failed == state.permanently_failed
                &&& next.permits == state.permits
                &&& if state.running.len() < state.permits && state.waiting.len() == 0 {
                    next.running == state.running.push(key) && next.waiting == state.waiting
                        && started == Some(message)
                } else {
                    next.running == state.running && next.waiting == state.waiting.push(message)
                        && started is None
                }
            }
        }),
{
}

/// What becomes of an event whose run is over: it is not in flight any more, and
/// is completed if the run went well, and has failed otherwise. The other runs
/// go on, and what waits still waits.
pub proof fn law_end_of_a_run(state: DispatchState, key: Seq<char>, ok: bool, other: Seq<char>)
    requires
        state.running.no_duplicates(),
    ensures
        ({
            let next = after(state, Heard::Done(key, ok));
            &&& start_on(state, Heard::Done(key, ok)) is None
            &&& next.in_flight == state.in_flight.remove(key)
            &&& next.completed == (if ok {
                state.completed.insert(key)
            } else {
                state.completed
            })
            &&& next.permanently_failed == (if ok {
                state.permanently_failed
            } else {
                state.permanently_failed.insert(key)
            })
            &&& next.waiting == state.waiting
            &&& next.permits == state.permits
            &&& next.running.contains(other) <==> state.running.contains(other) && other != key
            &&& state.running.contains(key) ==> next.running.len() == state.running.len() - 1
        }),
{
    lemma_removed(state.running, key);
}

/// When there is room, the event that has waited longest is started, with its
/// own steps and settings, and the others move up; when there is none, nothing
/// changes.
pub proof fn law_first_in_line_is_next(state: DispatchState)
    ensures
        ({
            let next = after(state, Heard::Next);
            let started = start_on(state, Heard::Next);
            if state.running.len() < state.permits && state.waiting.len() > 0 {
                let event = state.waiting[0].event_key;
                &&& started == Some(state.waiting[0])
                &&& next.waiting == state.waiting.skip(1)
                &&& next.running == state.running.push(
                    event.owner@ + "/"@ + event.repo@ + "/"@ + event.workspace_id@,
                )
                &&& next.in_flight == state.in_flight
                &&& next.completed == state.completed
                &&& next.permanently_failed == state.permanently_failed
                &&& next.permits == state.permits
            } else {
                next == state && started is None
            }
        }),
{
    if state.waiting.len() > 0 {
        assert(state.waiting.drop_first() =~= state.waiting.skip(1));
    }
}

/// A dispatcher begins with what it is given: the directory, the token, the
/// program and the events that are completed. It runs as many events at a time
/// as the limit says, or as there can be permits if it says none.
pub proof fn law_dispatcher_begins_as_told(
    data_root: String,
    token: String,
    current_exe: String,
    show_logs: bool,
    limit: usize,
    completed: KeySet,
    dispatcher: Dispatcher,
)
    requires
        limit <= usize::MAX / 8,
        call_ensures(
            Dispatcher::new,
            (data_root, token, current_exe, show_logs, limit, completed),
            dispatcher,
        ),
    ensures
        dispatcher.data_root@ == data_root@,
        dispatcher.token@ == token@,
        dispatcher.current_exe@ == current_exe@,
        dispatcher.show_logs == show_logs,
        dispatcher.completed@ == completed@,
        dispatcher.in_flight@ == Set::<Seq<char>>::empty(),
        dispatcher.permanently_failed@ == Set::<Seq<char>>::empty(),
        dispatcher.running@.len() == 0,
        dispatcher.waiting@.len() == 0,
        limit > 0 ==> dispatcher.permits == limit,
        limit == 0 ==> dispatcher.permits == usize::MAX / 8,
{
    let state = dispatcher.state();
    assert(state.running.len() == dispatcher.running@.len());
    assert(state.completed == dispatcher.completed@);
    assert(state.in_flight == dispatcher.in_flight@);
    assert(state.permanently_failed == dispatcher.permanently_failed@);
    assert(state.waiting == dispatcher.waiting@);
    assert(state.permits == dispatcher.permits);
}

/// A dispatcher is idle when no event is in flight.
pub proof fn law_idle_means_nothing_in_flight(dispatcher: Dispatcher, idle: bool)
    requires
        call_ensures(Dispatcher::is_idle, (&dispatcher,), idle),
    ensures
        idle ==> forall|key: Seq<char>| !#[trigger] dispatcher.in_flight@.contains(key),
        !idle ==> exists|key: Seq<char>| #[trigger] dispatcher.in_flight@.contains(key),
{
    if !idle && !(exists|key: Seq<char>| #[trigger] dispatcher.in_flight@.contains(key)) {
        assert(dispatcher.in_flight@ =~= Set::<Seq<char>>::empty());
        assert(dispatcher.state().in_flight == dispatcher.in_flight@);
    }
}

/// What is read back from the file of completed events after one more was taken
/// down: what was read before, and the new event.
pub proof fn law_completed_is_read_back(
    text: Option<&str>,
    key: &str,
    before: Vec<String>,
    out: String,
    written: &str,
    read: Vec<String>,
    any: Seq<char>,
)
    requires
        call_ensures(read_json_array, (text,), before),
        call_ensures(append_completed, (text, key), out),
        written@ == out@,
        call_ensures(read_json_array, (Some(written),), read),
    ensures
        views(read@).contains(any) <==> views(before@).contains(any) || any == key@,
        views(before@).contains(key@) ==> views(read@) == views(before@),
        !views(before@).contains(key@) ==> read@.len() == before@.len() + 1,
{
    let (a, b) = (views(before@), views(read@));
    assert(b == with_key(a, key@));
    assert(a.len() == before@.len() && b.len() == read@.len());
    lemma_pushed(a, key@);
}

/// A file of completed events that is missing, or is no array of strings, holds
/// none.
pub proof fn law_unreadable_file_holds_nothing(text: Option<&str>, keys: Vec<String>)
    requires
        call_ensures(read_json_array, (text,), keys),
        text matches Some(t) ==> json_strings(t@) is None,
    ensures
        keys@.len() == 0,
{
    assert(views(keys@).len() == keys@.len());
}

/// One more failed event comes behind the others, with its key, its error, and
/// the time at which it failed.
pub proof fn law_failure_is_taken_down(
    entries: Vec<FailedEntry>,
    key: &str,
    error: &str,
    secs: i64,
    nanos: u32,
    out: Vec<FailedEntry>,
)
    requires
        datable(secs as int, nanos as int),
        call_ensures(append_failed_at, (entries, key, error, secs, nanos), out),
    ensures
        out@.len() == entries@.len() + 1,
        forall|i: int| 0 <= i < entries@.len() ==> #[trigger] out@[i] == entries@[i],
        out@[entries@.len() as int].key@ == key@,
        out@[entries@.len() as int].error@ == error@,
        out@[entries@.len() as int].timestamp@ == rfc3339_text(secs, nanos),
{
    assert forall|i: int| 0 <= i < entries@.len() implies #[trigger] out@[i] == entries@[i] by {
        assert(out@.drop_last()[i] == entries@[i]);
    }
}

/// What a dispatcher does with an event that it is told of.
pub proof fn law_dispatcher_takes_up_an_event(
    dispatcher: &mut Dispatcher,
    message: DispatchMessage,
    action: DispatchAction,
)
    requires
        call_ensures(Dispatcher::run, (dispatcher, DispatchEvent::Message(message)), action),
    ensures
        ({
            let (before, after) = (*old(dispatcher), *final(dispatcher));
            let event = message.event_key;
            let key = event.owner@ + "/"@ + event.repo@ + "/"@ + event.workspace_id@;
            &&& after.completed@ == before.completed@
            &&& after.permanently_failed@ == before.permanently_failed@
            &&& after.permits == before.permits
            &&& if before.completed@.contains(key) || before.permanently_failed@.contains(key)
                || before.in_flight@.contains(key) {
                &&& action is Skip
                &&& after.in_flight@ == before.in_flight@
                &&& views(after.running@) == views(before.running@)
                &&& after.waiting@ == before.waiting@
            } else {
                &&& after.in_flight@ == before.in_flight@.insert(key)
                &&& if before.running@.len() < before.permits && before.waiting@.len() == 0 {
                    &&& action is Start
                    &&& action->Start_key@ == key
                    &&& action->Start_message == message
                    &&& views(after.running@) == views(before.running@).push(key)
                    &&& after.waiting@ == before.waiting@
                } else {
                    &&& action is Wait
                    &&& views(after.running@) == views(before.running@)
                    &&& after.waiting@ == before.waiting@.push(message)
                }
            }
        }),
{
    let (before, after) = (old(dispatcher).state(), final(dispatcher).state());
    assert(before.running.len() == old(dispatcher).running@.len());
    assert(after.completed == final(dispatcher).completed@);
    assert(after.permanently_failed == final(dispatcher).permanently_failed@);
    assert(after.in_flight == final(dispatcher).in_flight@);
    assert(after.running == views(final(dispatcher).running@));
    assert(after.waiting == final(dispatcher).waiting@);
    assert(after.permits == final(dispatcher).permits);
}

/// What a dispatcher does when a run is over: a run that went well is taken down
/// as completed, any other as failed, with its error.
pub proof fn law_dispatcher_takes_down_the_end(
    dispatcher: &mut Dispatcher,
    key: String,
    result: Result<(), String>,
    action: DispatchAction,
)
    requires
        call_ensures(Dispatcher::run, (dispatcher, DispatchEvent::Done { key, result }), action),
    ensures
        ({
            let (before, after) = (*old(dispatcher), *final(dispatcher));
            &&& after.in_flight@ == before.in_flight@.remove(key@)
            &&& after.waiting@ == before.waiting@
            &&& after.permits == before.permits
            &&& result is Ok ==> {
                &&& action is RecordCompleted
                &&& action->RecordCompleted_key@ == key@
                &&& after.completed@ == before.completed@.insert(key@)
                &&& after.permanently_failed@ == before.permanently_failed@
            }
            &&& result matches Err(e) ==> {
                &&& action is RecordFailed
                &&& action->RecordFailed_key@ == key@
                &&& action->error@ == e@
                &&& after.completed@ == before.completed@
                &&& after.permanently_failed@ == before.permanently_failed@.insert(key@)
            }
        }),
{
    let after = final(dispatcher).state();
    assert(after.completed == final(dispatcher).completed@);
    assert(after.permanently_failed == final(dispatcher).permanently_failed@);
    assert(after.in_flight == final(dispatcher).in_flight@);
    assert(after.waiting == final(dispatcher).waiting@);
    assert(after.permits == final(dispatcher).permits);
}

/// What a dispatcher does when it is time for an event that waits, and when the
/// poller has shut down.
pub proof fn law_dispatcher_goes_on(
    dispatcher: &mut Dispatcher,
    other: &mut Dispatcher,
    action: DispatchAction,
    other_action: DispatchAction,
)
    requires
        call_ensures(Dispatcher::run, (dispatcher, DispatchEvent::Next), action),
        call_ensures(Dispatcher::run, (other, DispatchEvent::Closed), other_action),
    ensures
        ({
            let (before, after) = (*old(dispatcher), *final(dispatcher));
            if before.running@.len() < before.permits && before.waiting@.len() > 0 {
                &&& action is Start
                &&& action->Start_message == before.waiting@[0]
                &&& after.waiting@ == before.waiting@.skip(1)
                &&& views(after.running@) == views(before.running@).push(action->Start_key@)
            } else {
                &&& action is Skip
                &&& after.waiting@ == before.waiting@
                &&& views(after.running@) == views(before.running@)
            }
        }),
        final(dispatcher).in_flight@ == old(dispatcher).in_flight@,
        final(dispatcher).completed@ == old(dispatcher).completed@,
        final(dispatcher).permanently_failed@ == old(dispatcher).permanently_failed@,
        other_action is Drain,
        final(other).state() == old(other).state(),
{
    let (before, after) = (old(dispatcher).state(), final(dispatcher).state());
    assert(before.running.len() == old(dispatcher).running@.len());
    assert(after.completed == final(dispatcher).completed@);
    assert(after.permanently_failed == final(dispatcher).permanently_failed@);
    assert(after.in_flight == final(dispatcher).in_flight@);
    assert(after.running == views(final(dispatcher).running@));
    assert(after.waiting == final(dispatcher).waiting@);
    if before.waiting.len() > 0 {
        assert(before.waiting.drop_first() =~= before.waiting.skip(1));
    }
}

/// One more event that failed now comes behind the others, with its key and its
/// error.
pub proof fn law_failure_is_taken_down_now(
    entries: Vec<FailedEntry>,
    key: &str,
    error: &str,
    out: Vec<FailedEntry>,
)
    requires
        call_ensures(append_failed, (entries, key, error), out),
    ensures
        out@.len() == entries@.len() + 1,
        forall|i: int| 0 <= i < entries@.len() ==> #[trigger] out@[i] == entries@[i],
        out@[entries@.len() as int].key@ == key@,
        out@[entries@.len() as int].error@ == error@,
{
    assert forall|i: int| 0 <= i < entries@.len() implies #[trigger] out@[i] == entries@[i] by {
        assert(out@.drop_last()[i] == entries@[i]);
    }
}

/// The keys that are read from a file are the strings that it holds.
pub proof fn law_file_is_read_as_it_is(text: &str, strings: Seq<Seq<char>>, keys: Vec<String>)
    requires
        json_strings(text@) == Some(strings),
        call_ensures(read_json_array, (Some(text),), keys),
    ensures
        keys@.len() == strings.len(),
        forall|i: int| 0 <= i < keys@.len() ==> (#[trigger] keys@[i])@ == strings[i],
{
    let all = views(keys@);
    assert(all.len() == keys@.len());
    assert forall|i: int| 0 <= i < keys@.len() implies (#[trigger] keys@[i])@ == strings[i] by {
        assert(all[i] == keys@[i]@);
    }
}

} // verus!
