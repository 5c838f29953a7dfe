//! Triggers: what starts a workflow run. A trigger asks its event source and
//! turns the answers into events.
use std::collections::HashSet;
use vstd::prelude::*;

use crate::config::RepoConfig;
use crate::github::{Issue, PrReview};
use crate::paths::{file_stem, plain_name, stem_of};
use crate::template::{lemma_new_entry, Vars};
use crate::text::{
    copy_strings, decimal, decimal_u64, is_digit, law_decimal_injective, lemma_decimal_is_digits,
    lemma_decimal_value, lemma_first_separator, list_contains, opt_view, views,
};

verus! {

// ---------------------------------------------------------------------------
// Events
// ---------------------------------------------------------------------------

/// Identifies an event for the run of a workflow: it gives the directory of
/// the run, template variables, and the label for logging.
pub struct EventKey {
    pub owner: String,
    pub repo: String,
    /// The number of the issue or pull request; 0 if there is none.
    pub number: u64,
    /// The name of the directory of the run.
    pub workspace_id: String,
    /// The label for logging, such as `acme/project#42`.
    pub label: String,
    /// The template variables of the trigger.
    pub variables: Vars,
}

impl EventKey {
    /// The label of the event.
    pub fn to_string(&self) -> (text: String)
        ensures
            text@ == self.label@,
    {
        self.label.clone()
    }
}

/// An event that a trigger found.
pub struct TriggerEvent {
    pub owner: String,
    pub repo: String,
    /// Tells the event from others of the same repository, such as `42` for
    /// an issue, or `99/1234567` for a review of pull request 99.
    pub key: String,
    /// The label for logging.
    pub label: String,
    /// The name of the directory of the run.
    pub workspace_id: String,
    /// The number of the issue or pull request; 0 if there is none.
    pub number: u64,
    /// The template variables of the trigger.
    pub variables: Vars,
}

/// An event as a mathematical value.
#[verifier::ext_equal]
pub struct EventModel {
    pub owner: Seq<char>,
    pub repo: Seq<char>,
    pub key: Seq<char>,
    pub label: Seq<char>,
    pub workspace_id: Seq<char>,
    pub number: u64,
    pub variables: Seq<(Seq<char>, Seq<char>)>,
}

impl View for TriggerEvent {
    type V = EventModel;

    open spec fn view(&self) -> EventModel {
        EventModel {
            owner: self.owner@,
            repo: self.repo@,
            key: self.key@,
            label: self.label@,
            workspace_id: self.workspace_id@,
            number: self.number,
            variables: self.variables@,
        }
    }
}

/// Events as mathematical values.
pub open spec fn event_views(events: Seq<TriggerEvent>) -> Seq<EventModel> {
    events.map_values(|e: TriggerEvent| e@)
}

impl Clone for TriggerEvent {
    fn clone(&self) -> (copy: TriggerEvent)
        ensures
            copy@ == self@,
    {
        TriggerEvent {
            owner: self.owner.clone(),
            repo: self.repo.clone(),
            key: self.key.clone(),
            label: self.label.clone(),
            workspace_id: self.workspace_id.clone(),
            number: self.number,
            variables: self.variables.clone(),
        }
    }
}

impl TriggerEvent {
    /// The event as the run of a workflow knows it.
    pub fn to_event_key(&self) -> (key: EventKey)
        ensures
            key.owner@ == self.owner@,
            key.repo@ == self.repo@,
            key.number == self.number,
            key.workspace_id@ == self.workspace_id@,
            key.label@ == self.label@,
            key.variables@ == self.variables@,
    {
        EventKey {
            owner: self.owner.clone(),
            repo: self.repo.clone(),
            number: self.number,
            workspace_id: self.workspace_id.clone(),
            label: self.label.clone(),
            variables: self.variables.clone(),
        }
    }
}

// ---------------------------------------------------------------------------
// Triggers
// ---------------------------------------------------------------------------

/// A trigger as the configuration describes it.
pub enum TriggerConfig {
    /// Issues that are assigned to a user, created by one of the allowed
    /// users.
    GithubIssueAssigned { assigned_to: String, allowed_users: Vec<String> },
    /// Reviews of open pull requests by one of the allowed users.
    GithubPrReview { allowed_users: Vec<String> },
    /// Files of a directory whose names match a glob pattern.
    LocalFile { path: String, pattern: String },
}

/// The glob pattern that is used unless the configuration gives one: it
/// matches all files.
pub fn default_glob() -> (pattern: String)
    ensures
        pattern@ == "*"@,
{
    "*".to_string()
}

/// A question to an event source.
pub enum Query {
    AssignedIssues { owner: String, repo: String, assigned_to: String, creator: String },
    PrReviews { owner: String, repo: String },
    Directory { path: String },
}

/// A question as a mathematical value.
pub enum QueryModel {
    AssignedIssues { owner: Seq<char>, repo: Seq<char>, assigned_to: Seq<char>, creator: Seq<char> },
    PrReviews { owner: Seq<char>, repo: Seq<char> },
    Directory { path: Seq<char> },
}

impl View for Query {
    type V = QueryModel;

    open spec fn view(&self) -> QueryModel {
        match *self {
            Query::AssignedIssues { owner, repo, assigned_to, creator } => {
                QueryModel::AssignedIssues {
                    owner: owner@,
                    repo: repo@,
                    assigned_to: assigned_to@,
                    creator: creator@,
                }
            },
            Query::PrReviews { owner, repo } => QueryModel::PrReviews {
                owner: owner@,
                repo: repo@,
            },
            Query::Directory { path } => QueryModel::Directory { path: path@ },
        }
    }
}

/// Questions as mathematical values.
pub open spec fn query_views(queries: Seq<Query>) -> Seq<QueryModel> {
    queries.map_values(|q: Query| q@)
}

/// An entry of a directory.
pub struct LocalEntry {
    /// The path of the entry.
    pub path: String,
    /// The name of the entry, if it is text.
    pub file_name: Option<String>,
    pub is_file: bool,
}

/// What was found at the path of a directory. An entry may turn out to be
/// unreadable.
pub enum LocalListing {
    Missing,
    Unreadable(String),
    Entries(Vec<Result<LocalEntry, String>>),
}

/// The answer to a question.
pub enum Reply {
    Issues(Result<Vec<Issue>, String>),
    Reviews(Result<Vec<PrReview>, String>),
    Directory(LocalListing),
}

/// What starts workflow runs.
pub trait Trigger {
    /// The name of the trigger.
    spec fn trigger_name(&self) -> Seq<char>;

    /// The questions that a poll asks.
    spec fn asked(&self, repos: Seq<RepoConfig>) -> Seq<QueryModel>;

    /// The replies answer the questions of a poll.
    spec fn answered(&self, repos: Seq<RepoConfig>, replies: Seq<Reply>) -> bool;

    /// Whether these are the events of a poll with the given replies.
    spec fn found(
        &self,
        repos: Seq<RepoConfig>,
        replies: Seq<Reply>,
        events: Result<Vec<TriggerEvent>, String>,
    ) -> bool;

    /// The name of the trigger, for logging.
    fn name(&self) -> (name: &str)
        ensures
            name@ == self.trigger_name(),
    ;

    /// The questions that are to be asked, in this order.
    fn poll(&self, repos: &Vec<RepoConfig>) -> (queries: Vec<Query>)
        ensures
            query_views(queries@) == self.asked(repos@),
    ;

    /// The events that start a workflow run, given the replies to the
    /// questions, or why there are none.
    fn events(&self, repos: &Vec<RepoConfig>, replies: &Vec<Reply>) -> (events: Result<
        Vec<TriggerEvent>,
        String,
    >)
        requires
            self.answered(repos@, replies@),
        ensures
            self.found(repos@, replies@, events),
    ;
}

// ---------------------------------------------------------------------------
// Numbers that occur for the first time
// ---------------------------------------------------------------------------

/// The numbers of a list, each where it first occurs.
pub open spec fn firsts(numbers: Seq<u64>) -> Seq<u64>
    decreases numbers.len(),
{
    if numbers.len() == 0 {
        numbers
    } else {
        let front = firsts(numbers.drop_last());
        if front.contains(numbers.last()) {
            front
        } else {
            front.push(numbers.last())
        }
    }
}

proof fn lemma_firsts(numbers: Seq<u64>)
    ensures
        firsts(numbers).no_duplicates(),
        forall|n: u64| #[trigger] firsts(numbers).contains(n) <==> numbers.contains(n),
    decreases numbers.len(),
{
    if numbers.len() > 0 {
        let front = numbers.drop_last();
        let last = numbers.last();
        lemma_firsts(front);
        let all = firsts(numbers);
        assert forall|n: u64| #[trigger] all.contains(n) <==> numbers.contains(n) by {
            if numbers.contains(n) {
                let i = choose|i: int| 0 <= i < numbers.len() && numbers[i] == n;
                if i < front.len() {
                    assert(front[i] == n);
                    assert(firsts(front).contains(n));
                }
            }
            if front.contains(n) {
                let i = choose|i: int| 0 <= i < front.len() && front[i] == n;
                assert(numbers[i] == n);
            }
            if firsts(front).contains(n) {
                let i = choose|i: int| 0 <= i < firsts(front).len() && firsts(front)[i] == n;
                assert(all[i] == n);
            }
            if !firsts(front).contains(last) {
                assert(all[all.len() - 1] == last);
            }
            if all.contains(n) {
                let i = choose|i: int| 0 <= i < all.len() && all[i] == n;
                if i < firsts(front).len() {
                    assert(firsts(front)[i] == n);
                } else {
                    assert(numbers[numbers.len() - 1] == n);
                }
            }
        }
        assert forall|i: int, j: int| 0 <= i < all.len() && 0 <= j < all.len() && i != j implies all[i]
            != all[j] by {
            if i < firsts(front).len() {
                assert(firsts(front)[i] == all[i]);
            }
            if j < firsts(front).len() {
                assert(firsts(front)[j] == all[j]);
            }
        }
    }
}

/// Whether a number occurs for the first time.
fn is_first(seen: &mut HashSet<u64>, n: u64) -> (new: bool)
    ensures
        new == !old(seen)@.contains(n),
        final(seen)@ == old(seen)@.insert(n),
{
    broadcast use vstd::std_specs::hash::group_hash_axioms;

    seen.insert(n)
}

// ---------------------------------------------------------------------------
// Assigned issues
// ---------------------------------------------------------------------------

/// Starts a run for each open issue that is assigned to a user and was
/// created by one of the allowed users.
pub struct GithubIssueAssignedTrigger {
    pub assigned_to: String,
    pub allowed_users: Vec<String>,
    pub token: String,
}

/// The label of an issue: `owner/repo#N`.
pub open spec fn issue_label(repo: RepoConfig, number: u64) -> Seq<char> {
    repo.owner@ + "/"@ + repo.repo@ + "#"@ + decimal(number as nat)
}

/// The event of an issue.
pub open spec fn issue_event(repo: RepoConfig, number: u64) -> EventModel {
    EventModel {
        owner: repo.owner@,
        repo: repo.repo@,
        key: decimal(number as nat),
        label: issue_label(repo, number),
        workspace_id: decimal(number as nat),
        number,
        variables: seq![("issue_number"@, decimal(number as nat))],
    }
}

/// The numbers of the issues of a listing; none if it failed.
pub open spec fn listed_numbers(reply: Reply) -> Seq<u64> {
    match reply {
        Reply::Issues(Ok(issues)) => issues@.map_values(|i: Issue| i.number),
        _ => Seq::empty(),
    }
}

/// The numbers of all listings, one after the other.
pub open spec fn all_numbers(replies: Seq<Reply>) -> Seq<u64>
    decreases replies.len(),
{
    if replies.len() == 0 {
        Seq::empty()
    } else {
        all_numbers(replies.drop_last()) + listed_numbers(replies.last())
    }
}

/// The events of one repository: one for each issue that was listed, however
/// often it was.
pub open spec fn repo_issue_events(repo: RepoConfig, replies: Seq<Reply>) -> Seq<EventModel> {
    firsts(all_numbers(replies)).map_values(|n: u64| issue_event(repo, n))
}

/// The questions for assigned issues: for each repository, one for each
/// allowed user.
pub open spec fn issue_queries(
    repos: Seq<RepoConfig>,
    assigned_to: Seq<char>,
    users: Seq<Seq<char>>,
) -> Seq<QueryModel>
    decreases repos.len(),
{
    if repos.len() == 0 {
        Seq::empty()
    } else {
        issue_queries(repos.drop_last(), assigned_to, users) + users.map_values(
            |u: Seq<char>|
                QueryModel::AssignedIssues {
                    owner: repos.last().owner@,
                    repo: repos.last().repo@,
                    assigned_to,
                    creator: u,
                },
        )
    }
}

/// The events of all repositories, given `users` replies for each.
pub open spec fn issue_events(repos: Seq<RepoConfig>, users: int, replies: Seq<Reply>) -> Seq<
    EventModel,
>
    decreases repos.len(),
{
    if repos.len() == 0 {
        Seq::empty()
    } else {
        issue_events(repos.drop_last(), users, replies.take(replies.len() - users))
            + repo_issue_events(repos.last(), replies.skip(replies.len() - users))
    }
}

fn make_issue_event(repo: &RepoConfig, number: u64) -> (event: TriggerEvent)
    ensures
        event@ == issue_event(*repo, number),
{
    let numeral = decimal_u64(number);
    let mut variables = Vars::new();
    variables.insert("issue_number", numeral.clone());
    assert(variables@ =~= seq![("issue_number"@, decimal(number as nat))]);
    TriggerEvent {
        owner: repo.owner.clone(),
        repo: repo.repo.clone(),
        key: numeral.clone(),
        label: repo.owner.clone().concat("/").concat(repo.repo.as_str()).concat("#").concat(
            numeral.as_str(),
        ),
        workspace_id: numeral,
        number,
        variables,
    }
}

/// Adds the events of the issues that are new, and takes note of them.
fn add_issue_events(
    repo: &RepoConfig,
    issues: &Vec<Issue>,
    seen: &mut HashSet<u64>,
    events: &mut Vec<TriggerEvent>,
    Ghost(before): Ghost<Seq<EventModel>>,
    Ghost(numbers): Ghost<Seq<u64>>,
)
    requires
        old(seen)@ == firsts(numbers).to_set(),
        event_views(old(events)@) == before + firsts(numbers).map_values(
            |n: u64| issue_event(*repo, n),
        ),
    ensures
        final(seen)@ == firsts(numbers + issues@.map_values(|i: Issue| i.number)).to_set(),
        event_views(final(events)@) == before + firsts(
            numbers + issues@.map_values(|i: Issue| i.number),
        ).map_values(|n: u64| issue_event(*repo, n)),
{
    let ghost listed = issues@.map_values(|i: Issue| i.number);
    let ghost make = |n: u64| issue_event(*repo, n);
    let mut i: usize = 0;
    assert(numbers + listed.take(0) =~= numbers);
    while i < issues.len()
        invariant
            i <= issues.len(),
            listed == issues@.map_values(|i: Issue| i.number),
            make == (|n: u64| issue_event(*repo, n)),
            seen@ == firsts(numbers + listed.take(i as int)).to_set(),
            event_views(events@) == before + firsts(numbers + listed.take(i as int)).map_values(
                make,
            ),
        decreases issues.len() - i,
    {
        let ghost known = firsts(numbers + listed.take(i as int));
        let ghost had = event_views(events@);
        let n: u64 = issues[i].number;
        let new = is_first(seen, n);
        assert((numbers + listed.take(i + 1)).drop_last() =~= numbers + listed.take(i as int));
        assert((numbers + listed.take(i + 1)).last() == n);
        if new {
            let event = make_issue_event(repo, n);
            events.push(event);
            assert(event_views(events@) =~= had.push(event@));
            assert(known.push(n).map_values(make) =~= known.map_values(make).push(make(n)));
            assert(known.push(n).to_set() =~= known.to_set().insert(n)) by {
                assert forall|m: u64| known.push(n).contains(m) <==> known.contains(m) || m == n by {
                    if known.contains(m) {
                        let k = choose|k: int| 0 <= k < known.len() && known[k] == m;
                        assert(known.push(n)[k] == m);
                    }
                    assert(known.push(n)[known.len() as int] == n);
                }
            }
        } else {
            assert(known.to_set().insert(n) =~= known.to_set());
        }
        i += 1;
    }
    assert(listed.take(i as int) =~= listed);
}

impl Trigger for GithubIssueAssignedTrigger {
    open spec fn trigger_name(&self) -> Seq<char> {
        "github_issue_assigned"@
    }

    open spec fn asked(&self, repos: Seq<RepoConfig>) -> Seq<QueryModel> {
        issue_queries(repos, self.assigned_to@, views(self.allowed_users@))
    }

    open spec fn answered(&self, repos: Seq<RepoConfig>, replies: Seq<Reply>) -> bool {
        &&& replies.len() == self.asked(repos).len()
        &&& forall|i: int| 0 <= i < replies.len() ==> #[trigger] replies[i] is Issues
    }

    open spec fn found(
        &self,
        repos: Seq<RepoConfig>,
        replies: Seq<Reply>,
        events: Result<Vec<TriggerEvent>, String>,
    ) -> bool {
        events matches Ok(list) && event_views(list@) == issue_events(
            repos,
            self.allowed_users@.len() as int,
            replies,
        )
    }

    fn name(&self) -> (name: &str) {
        "github_issue_assigned"
    }

    fn poll(&self, repos: &Vec<RepoConfig>) -> (queries: Vec<Query>) {
        let ghost users = views(self.allowed_users@);
        let mut queries: Vec<Query> = Vec::new();
        let mut r: usize = 0;
        assert(query_views(queries@) =~= Seq::<QueryModel>::empty());
        assert(repos@.take(0) =~= Seq::<RepoConfig>::empty());
        while r < repos.len()
            invariant
                r <= repos.len(),
                users == views(self.allowed_users@),
                query_views(queries@) == issue_queries(
                    repos@.take(r as int),
                    self.assigned_to@,
                    users,
                ),
            decreases repos.len() - r,
        {
            let ghost earlier = query_views(queries@);
            let ghost own = users.map_values(
                |u: Seq<char>|
                    QueryModel::AssignedIssues {
                        owner: repos@[r as int].owner@,
                        repo: repos@[r as int].repo@,
                        assigned_to: self.assigned_to@,
                        creator: u,
                    },
            );
            let mut u: usize = 0;
            assert(earlier + own.take(0) =~= earlier);
            while u < self.allowed_users.len()
                invariant
                    r < repos.len(),
                    u <= self.allowed_users.len(),
                    users == views(self.allowed_users@),
                    own == users.map_values(
                        |u: Seq<char>|
                            QueryModel::AssignedIssues {
                                owner: repos@[r as int].owner@,
                                repo: repos@[r as int].repo@,
                                assigned_to: self.assigned_to@,
                                creator: u,
                            },
                    ),
                    query_views(queries@) == earlier + own.take(u as int),
                decreases self.allowed_users.len() - u,
            {
                let ghost had = query_views(queries@);
                let query = Query::AssignedIssues {
                    owner: repos[r].owner.clone(),
                    repo: repos[r].repo.clone(),
                    assigned_to: self.assigned_to.clone(),
                    creator: self.allowed_users[u].clone(),
                };
                queries.push(query);
                assert(query_views(queries@) =~= had.push(query@));
                assert(own[u as int] == query@);
                u += 1;
                assert(had.push(query@) =~= earlier + own.take(u as int));
            }
            assert(own.take(u as int) =~= own);
            r += 1;
            assert(repos@.take(r as int).drop_last() =~= repos@.take(r - 1));
            assert(repos@.take(r as int).last() == repos@[r - 1]);
        }
        assert(repos@.take(r as int) =~= repos@);
        queries
    }

    fn events(&self, repos: &Vec<RepoConfig>, replies: &Vec<Reply>) -> (events: Result<
        Vec<TriggerEvent>,
        String,
    >) {
        let users: usize = self.allowed_users.len();
        let ghost asked = self.asked(repos@);
        let mut events: Vec<TriggerEvent> = Vec::new();
        let mut at: usize = 0;
        let mut r: usize = 0;
        proof {
            assert(event_views(events@) =~= Seq::<EventModel>::empty());
            assert(repos@.take(0) =~= Seq::<RepoConfig>::empty());
        }
        while r < repos.len()
            invariant
                r <= repos.len(),
                users == self.allowed_users@.len(),
                replies@.len() == issue_queries(
                    repos@,
                    self.assigned_to@,
                    views(self.allowed_users@),
                ).len(),
                at == issue_queries(
                    repos@.take(r as int),
                    self.assigned_to@,
                    views(self.allowed_users@),
                ).len(),
                at <= replies.len(),
                forall|i: int| 0 <= i < replies@.len() ==> #[trigger] replies@[i] is Issues,
                event_views(events@) == issue_events(
                    repos@.take(r as int),
                    users as int,
                    replies@.take(at as int),
                ),
            decreases repos.len() - r,
        {
            proof {
                lemma_issue_queries_grow(
                    repos@,
                    self.assigned_to@,
                    views(self.allowed_users@),
                    r as int,
                );
            }
            let ghost before = event_views(events@);
            let ghost own = replies@.subrange(at as int, at + users);
            let ghost mut numbers: Seq<u64> = Seq::empty();
            let mut seen: HashSet<u64> = HashSet::new();
            let mut u: usize = 0;
            proof {
                assert(firsts(numbers).to_set() =~= Set::<u64>::empty());
                assert(seen@ =~= Set::<u64>::empty());
                assert(before + firsts(numbers).map_values(
                    |n: u64| issue_event(repos@[r as int], n),
                ) =~= before);
                assert(own.take(0) =~= Seq::<Reply>::empty());
            }
            while u < users
                invariant
                    r < repos.len(),
                    at + users <= replies.len(),
                    u <= users,
                    own == replies@.subrange(at as int, at + users),
                    forall|i: int| 0 <= i < replies@.len() ==> #[trigger] replies@[i] is Issues,
                    numbers == all_numbers(own.take(u as int)),
                    seen@ == firsts(numbers).to_set(),
                    event_views(events@) == before + firsts(numbers).map_values(
                        |n: u64| issue_event(repos@[r as int], n),
                    ),
                decreases users - u,
            {
                assert(own[u as int] == replies@[at + u]);
                assert(own.take(u + 1).drop_last() =~= own.take(u as int));
                assert(own.take(u + 1).last() == own[u as int]);
                match &replies[at + u] {
                    Reply::Issues(Ok(issues)) => {
                        add_issue_events(
                            &repos[r],
                            issues,
                            &mut seen,
                            &mut events,
                            Ghost(before),
                            Ghost(numbers),
                        );
                        proof {
                            numbers = numbers + listed_numbers(own[u as int]);
                        }
                    },
                    _ => {
                        assert(numbers + Seq::<u64>::empty() =~= numbers);
                    },
                }
                u += 1;
            }
            assert(own.take(u as int) =~= own);
            proof {
                let whole = replies@.take(at + users);
                assert(whole.take(whole.len() - users) =~= replies@.take(at as int));
                assert(whole.skip(whole.len() - users) =~= own);
                assert(repos@.take(r + 1).drop_last() =~= repos@.take(r as int));
                assert(repos@.take(r + 1).last() == repos@[r as int]);
            }
            at += users;
            r += 1;
        }
        assert(repos@.take(r as int) =~= repos@);
        assert(replies@.take(at as int) =~= replies@);
        Ok(events)
    }
}

proof fn lemma_issue_queries_grow(
    repos: Seq<RepoConfig>,
    assigned_to: Seq<char>,
    users: Seq<Seq<char>>,
    r: int,
)
    requires
        0 <= r < repos.len(),
    ensures
        issue_queries(repos.take(r + 1), assigned_to, users).len() == issue_queries(
            repos.take(r),
            assigned_to,
            users,
        ).len() + users.len(),
        issue_queries(repos.take(r + 1), assigned_to, users).len() <= issue_queries(
            repos,
            assigned_to,
            users,
        ).len(),
    decreases repos.len() - r,
{
    assert(repos.take(r + 1).drop_last() =~= repos.take(r));
    if r + 1 < repos.len() {
        lemma_issue_queries_grow(repos, assigned_to, users, r + 1);
    } else {
        assert(repos.take(r + 1) =~= repos);
    }
}

/// A poll for assigned issues finds each listed issue of a repository exactly
/// once, whichever and however many allowed users it was listed for.
pub proof fn law_each_issue_once(repo: RepoConfig, replies: Seq<Reply>, number: u64)
    ensures
        repo_issue_events(repo, replies).contains(issue_event(repo, number)) <==> all_numbers(
            replies,
        ).contains(number),
        repo_issue_events(repo, replies).no_duplicates(),
{
    let numbers = firsts(all_numbers(replies));
    let events = repo_issue_events(repo, replies);
    lemma_firsts(all_numbers(replies));
    if numbers.contains(number) {
        let i = choose|i: int| 0 <= i < numbers.len() && numbers[i] == number;
        assert(events[i] == issue_event(repo, number));
    }
    if events.contains(issue_event(repo, number)) {
        let i = choose|i: int| 0 <= i < events.len() && events[i] == issue_event(repo, number);
        assert(events[i].number == numbers[i]);
    }
    assert forall|i: int, j: int| 0 <= i < events.len() && 0 <= j < events.len() && i
        != j implies events[i] != events[j] by {
        assert(events[i].number == numbers[i] && events[j].number == numbers[j]);
    }
}

// ---------------------------------------------------------------------------
// Laws of polls for assigned issues
// ---------------------------------------------------------------------------

/// The position of the question about a repository and a user, where each
/// repository has one question for each of `users` users.
pub open spec fn position(users: int, repo: int, user: int) -> int {
    repo * users + user
}

/// The reply lists an issue with the number.
pub open spec fn lists_issue(reply: Reply, number: u64) -> bool {
    match reply {
        Reply::Issues(Ok(issues)) => exists|n: int|
            0 <= n < issues@.len() && (#[trigger] issues@[n]).number == number,
        _ => false,
    }
}

proof fn lemma_position(users: int, repos: int, repo: int, user: int)
    requires
        0 <= repo < repos,
        0 <= user < users,
    ensures
        0 <= position(users, repo, user) < repos * users,
        repo < repos - 1 ==> position(users, repo, user) < (repos - 1) * users,
        (repos - 1) * users == repos * users - users,
        (repos - 1) * users >= 0,
        repo == repos - 1 ==> position(users, repo, user) == repos * users - users + user,
{
    assert((repos - 1) * users == repos * users - users) by (nonlinear_arith);
    assert((repos - 1) * users >= 0) by (nonlinear_arith)
        requires
            repos >= 1,
            users >= 0,
    ;
    assert(0 <= repo * users) by (nonlinear_arith)
        requires
            repo >= 0,
            users >= 0,
    ;
    assert(repo * users <= (repos - 1) * users) by (nonlinear_arith)
        requires
            repo <= repos - 1,
            users >= 0,
    ;
    if repo < repos - 1 {
        assert(repo * users + users <= (repos - 1) * users) by (nonlinear_arith)
            requires
                repo + 1 <= repos - 1,
                users >= 0,
        ;
    }
}

proof fn lemma_issue_query_count(
    repos: Seq<RepoConfig>,
    assigned_to: Seq<char>,
    users: Seq<Seq<char>>,
)
    ensures
        issue_queries(repos, assigned_to, users).len() == repos.len() * users.len(),
    decreases repos.len(),
{
    if repos.len() > 0 {
        lemma_issue_query_count(repos.drop_last(), assigned_to, users);
        assert((repos.len() - 1) * users.len() == repos.len() * users.len() - users.len())
            by (nonlinear_arith);
    }
}

proof fn lemma_issue_query_at(
    repos: Seq<RepoConfig>,
    assigned_to: Seq<char>,
    users: Seq<Seq<char>>,
    i: int,
    u: int,
)
    requires
        0 <= i < repos.len(),
        0 <= u < users.len(),
    ensures
        0 <= position(users.len() as int, i, u) < issue_queries(repos, assigned_to, users).len(),
        issue_queries(repos, assigned_to, users)[position(users.len() as int, i, u)] == (
        QueryModel::AssignedIssues {
            owner: repos[i].owner@,
            repo: repos[i].repo@,
            assigned_to,
            creator: users[u],
        }),
    decreases repos.len(),
{
    let front = repos.drop_last();
    lemma_issue_query_count(repos, assigned_to, users);
    lemma_issue_query_count(front, assigned_to, users);
    lemma_position(users.len() as int, repos.len() as int, i, u);
    if i < repos.len() - 1 {
        lemma_issue_query_at(front, assigned_to, users, i, u);
    }
}

/// A poll for assigned issues asks one question for each repository and each
/// allowed user: for the issues of that repository, created by that user, that
/// are assigned to the user whom the configuration names.
pub proof fn law_issue_questions(
    assigned_to: String,
    allowed_users: Vec<String>,
    token: &str,
    trigger: BuiltTrigger,
    repos: Vec<RepoConfig>,
    queries: Vec<Query>,
    i: int,
    u: int,
)
    requires
        call_ensures(
            TriggerConfig::build,
            (&TriggerConfig::GithubIssueAssigned { assigned_to, allowed_users }, token),
            trigger,
        ),
        call_ensures(<BuiltTrigger as Trigger>::poll, (&trigger, &repos), queries),
        0 <= i < repos@.len(),
        0 <= u < allowed_users@.len(),
    ensures
        queries@.len() == repos@.len() * allowed_users@.len(),
        0 <= position(allowed_users@.len() as int, i, u) < queries@.len(),
        ({
            let query = queries@[position(allowed_users@.len() as int, i, u)];
            &&& query is AssignedIssues
            &&& query->AssignedIssues_owner@ == repos@[i].owner@
            &&& query->AssignedIssues_repo@ == repos@[i].repo@
            &&& query->assigned_to@ == assigned_to@
            &&& query->creator@ == allowed_users@[u]@
        }),
{
    let users = views(allowed_users@);
    lemma_issue_query_count(repos@, assigned_to@, users);
    lemma_issue_query_at(repos@, assigned_to@, users, i, u);
    let at = position(allowed_users@.len() as int, i, u);
    assert(query_views(queries@).len() == queries@.len());
    assert(query_views(queries@)[at] == queries@[at]@);
}

proof fn lemma_listed_numbers(reply: Reply, number: u64)
    ensures
        listed_numbers(reply).contains(number) <==> lists_issue(reply, number),
{
    match reply {
        Reply::Issues(Ok(issues)) => {
            let numbers = listed_numbers(reply);
            if numbers.contains(number) {
                let n = choose|n: int| 0 <= n < numbers.len() && numbers[n] == number;
                assert(issues@[n].number == number);
            }
            if lists_issue(reply, number) {
                let n = choose|n: int|
                    0 <= n < issues@.len() && (#[trigger] issues@[n]).number == number;
                assert(numbers[n] == number);
            }
        },
        _ => {},
    }
}

proof fn lemma_all_numbers(replies: Seq<Reply>, number: u64)
    ensures
        all_numbers(replies).contains(number) <==> exists|u: int|
            0 <= u < replies.len() && lists_issue(#[trigger] replies[u], number),
    decreases replies.len(),
{
    if replies.len() > 0 {
        let front = replies.drop_last();
        let last = replies.last();
        lemma_all_numbers(front, number);
        lemma_listed_numbers(last, number);
        let a = all_numbers(front);
        let b = listed_numbers(last);
        assert((a + b).contains(number) <==> a.contains(number) || b.contains(number)) by {
            if a.contains(number) {
                let k = choose|k: int| 0 <= k < a.len() && a[k] == number;
                assert((a + b)[k] == number);
            }
            if b.contains(number) {
                let k = choose|k: int| 0 <= k < b.len() && b[k] == number;
                assert((a + b)[a.len() + k] == number);
            }
            if (a + b).contains(number) {
                let k = choose|k: int| 0 <= k < (a + b).len() && (a + b)[k] == number;
                if k < a.len() {
                    assert(a[k] == number);
                } else {
                    assert(b[k - a.len()] == number);
                }
            }
        }
        if a.contains(number) {
            let u = choose|u: int| 0 <= u < front.len() && lists_issue(#[trigger] front[u], number);
            assert(lists_issue(replies[u], number));
        }
        if b.contains(number) {
            assert(lists_issue(replies[replies.len() - 1], number));
        }
        if exists|u: int| 0 <= u < replies.len() && lists_issue(#[trigger] replies[u], number) {
            let u = choose|u: int|
                0 <= u < replies.len() && lists_issue(#[trigger] replies[u], number);
            if u < front.len() {
                assert(lists_issue(front[u], number));
            }
        }
    }
}

/// An event of a poll for assigned issues stems from a listing of its
/// repository.
proof fn lemma_issue_event_origin(
    repos: Seq<RepoConfig>,
    users: int,
    replies: Seq<Reply>,
    j: int,
) -> (at: (int, int))
    requires
        users >= 0,
        replies.len() == repos.len() * users,
        0 <= j < issue_events(repos, users, replies).len(),
    ensures
        0 <= at.0 < repos.len(),
        0 <= at.1 < users,
        lists_issue(
            replies[position(users, at.0, at.1)],
            issue_events(repos, users, replies)[j].number,
        ),
        issue_events(repos, users, replies)[j] == issue_event(
            repos[at.0],
            issue_events(repos, users, replies)[j].number,
        ),
    decreases repos.len(),
{
    let count = repos.len() as int;
    let front = repos.drop_last();
    assert((count - 1) * users == count * users - users) by (nonlinear_arith);
    assert((count - 1) * users >= 0) by (nonlinear_arith)
        requires
            count >= 1,
            users >= 0,
    ;
    let earlier = replies.take(replies.len() - users);
    let own = replies.skip(replies.len() - users);
    let before = issue_events(front, users, earlier);
    let event = issue_events(repos, users, replies)[j];
    if j < before.len() {
        assert(event == before[j]);
        let at = lemma_issue_event_origin(front, users, earlier, j);
        lemma_position(users, count, at.0, at.1);
        lemma_position(users, count - 1, at.0, at.1);
        assert(earlier[position(users, at.0, at.1)] == replies[position(users, at.0, at.1)]);
        at
    } else {
        let numbers = firsts(all_numbers(own));
        let k = j - before.len();
        assert(event == issue_event(repos.last(), numbers[k]));
        lemma_firsts(all_numbers(own));
        assert(numbers.contains(numbers[k]));
        lemma_all_numbers(own, numbers[k]);
        let u = choose|u: int| 0 <= u < own.len() && lists_issue(#[trigger] own[u], numbers[k]);
        lemma_position(users, count, count - 1, u);
        assert(own[u] == replies[replies.len() - users + u]);
        (count - 1, u)
    }
}

/// Every issue that a listing of a repository holds has an event.
proof fn lemma_issue_has_event(
    repos: Seq<RepoConfig>,
    users: int,
    replies: Seq<Reply>,
    i: int,
    u: int,
    number: u64,
) -> (j: int)
    requires
        replies.len() == repos.len() * users,
        0 <= i < repos.len(),
        0 <= u < users,
        lists_issue(replies[position(users, i, u)], number),
    ensures
        0 <= j < issue_events(repos, users, replies).len(),
        issue_events(repos, users, replies)[j] == issue_event(repos[i], number),
    decreases repos.len(),
{
    let count = repos.len() as int;
    let front = repos.drop_last();
    lemma_position(users, count, i, u);
    let earlier = replies.take(replies.len() - users);
    let own = replies.skip(replies.len() - users);
    let before = issue_events(front, users, earlier);
    if i < count - 1 {
        assert(earlier[position(users, i, u)] == replies[position(users, i, u)]);
        let j = lemma_issue_has_event(front, users, earlier, i, u, number);
        assert(issue_events(repos, users, replies)[j] == before[j]);
        j
    } else {
        let numbers = firsts(all_numbers(own));
        assert(own[u] == replies[position(users, i, u)]);
        lemma_all_numbers(own, number);
        lemma_firsts(all_numbers(own));
        assert(all_numbers(own).contains(number));
        assert(numbers.contains(number));
        let k = choose|k: int| 0 <= k < numbers.len() && numbers[k] == number;
        assert(repo_issue_events(repos.last(), own)[k] == issue_event(repos.last(), number));
        before.len() + k
    }
}

/// Each event of a poll for assigned issues carries the owner and the name of
/// a repository, and the number of an issue that is listed for that very
/// repository and one of the allowed users.
pub proof fn law_issue_event_tells_its_repository(
    trigger: GithubIssueAssignedTrigger,
    repos: Vec<RepoConfig>,
    replies: Vec<Reply>,
    events: Result<Vec<TriggerEvent>, String>,
    j: int,
)
    requires
        trigger.answered(repos@, replies@),
        call_ensures(
            <GithubIssueAssignedTrigger as Trigger>::events,
            (&trigger, &repos, &replies),
            events,
        ),
        0 <= j < events->Ok_0@.len(),
    ensures
        events is Ok,
        exists|i: int, u: int|
            0 <= i < repos@.len() && 0 <= u < trigger.allowed_users@.len() && lists_issue(
                replies@[#[trigger] position(trigger.allowed_users@.len() as int, i, u)],
                events->Ok_0@[j].number,
            ) && events->Ok_0@[j].owner@ == repos@[i].owner@ && events->Ok_0@[j].repo@
                == repos@[i].repo@,
{
    let users = trigger.allowed_users@.len() as int;
    lemma_issue_query_count(repos@, trigger.assigned_to@, views(trigger.allowed_users@));
    let found = event_views(events->Ok_0@);
    assert(found[j] == events->Ok_0@[j]@);
    let at = lemma_issue_event_origin(repos@, users, replies@, j);
    assert(lists_issue(replies@[position(users, at.0, at.1)], events->Ok_0@[j].number));
}

/// What an event of a poll for assigned issues says fits together: key,
/// workspace and template variable are the number of the issue, and the label
/// is the repository with that number.
pub proof fn law_issue_event_fits_together(
    trigger: GithubIssueAssignedTrigger,
    repos: Vec<RepoConfig>,
    replies: Vec<Reply>,
    events: Result<Vec<TriggerEvent>, String>,
    j: int,
)
    requires
        trigger.answered(repos@, replies@),
        call_ensures(
            <GithubIssueAssignedTrigger as Trigger>::events,
            (&trigger, &repos, &replies),
            events,
        ),
        0 <= j < events->Ok_0@.len(),
    ensures
        ({
            let event = events->Ok_0@[j];
            let numeral = decimal(event.number as nat);
            &&& event.key@ == numeral
            &&& event.workspace_id@ == numeral
            &&& event.label@ == event.owner@ + "/"@ + event.repo@ + "#"@ + numeral
            &&& event.variables@ == seq![("issue_number"@, numeral)]
        }),
{
    let users = trigger.allowed_users@.len() as int;
    lemma_issue_query_count(repos@, trigger.assigned_to@, views(trigger.allowed_users@));
    let found = event_views(events->Ok_0@);
    assert(found[j] == events->Ok_0@[j]@);
    let at = lemma_issue_event_origin(repos@, users, replies@, j);
}

/// Every issue that is listed for a repository and one of the allowed users
/// gets an event with the owner and the name of that repository and the number
/// of the issue.
pub proof fn law_listed_issue_gets_its_event(
    trigger: GithubIssueAssignedTrigger,
    repos: Vec<RepoConfig>,
    replies: Vec<Reply>,
    events: Result<Vec<TriggerEvent>, String>,
    i: int,
    u: int,
    number: u64,
)
    requires
        trigger.answered(repos@, replies@),
        call_ensures(
            <GithubIssueAssignedTrigger as Trigger>::events,
            (&trigger, &repos, &replies),
            events,
        ),
        0 <= i < repos@.len(),
        0 <= u < trigger.allowed_users@.len(),
        lists_issue(replies@[position(trigger.allowed_users@.len() as int, i, u)], number),
    ensures
        events is Ok,
        exists|j: int|
            0 <= j < events->Ok_0@.len() && (#[trigger] events->Ok_0@[j]).number == number
                && events->Ok_0@[j].owner@ == repos@[i].owner@ && events->Ok_0@[j].repo@
                == repos@[i].repo@,
{
    let users = trigger.allowed_users@.len() as int;
    lemma_issue_query_count(repos@, trigger.assigned_to@, views(trigger.allowed_users@));
    let found = event_views(events->Ok_0@);
    let j = lemma_issue_has_event(repos@, users, replies@, i, u, number);
    assert(found[j] == events->Ok_0@[j]@);
}

/// If no repository is configured twice, no two events of a poll for assigned
/// issues tell of the same issue.
pub proof fn law_issue_events_differ(
    trigger: GithubIssueAssignedTrigger,
    repos: Vec<RepoConfig>,
    replies: Vec<Reply>,
    events: Result<Vec<TriggerEvent>, String>,
    j: int,
    k: int,
)
    requires
        trigger.answered(repos@, replies@),
        call_ensures(
            <GithubIssueAssignedTrigger as Trigger>::events,
            (&trigger, &repos, &replies),
            events,
        ),
        forall|a: int, b: int|
            0 <= a < b < repos@.len() ==> (#[trigger] repos@[a]).owner@ != (
            #[trigger] repos@[b]).owner@ || repos@[a].repo@ != repos@[b].repo@,
        0 <= j < k < events->Ok_0@.len(),
    ensures
        ({
            let (a, b) = (events->Ok_0@[j], events->Ok_0@[k]);
            a.owner@ != b.owner@ || a.repo@ != b.repo@ || a.number != b.number
        }),
{
    let users = trigger.allowed_users@.len() as int;
    lemma_issue_query_count(repos@, trigger.assigned_to@, views(trigger.allowed_users@));
    let found = event_views(events->Ok_0@);
    assert(found[j] == events->Ok_0@[j]@);
    assert(found[k] == events->Ok_0@[k]@);
    lemma_issue_events_differ(repos@, users, replies@, j, k);
}

proof fn lemma_issue_events_differ(
    repos: Seq<RepoConfig>,
    users: int,
    replies: Seq<Reply>,
    j: int,
    k: int,
)
    requires
        users >= 0,
        replies.len() == repos.len() * users,
        forall|a: int, b: int|
            0 <= a < b < repos.len() ==> (#[trigger] repos[a]).owner@ != (
            #[trigger] repos[b]).owner@ || repos[a].repo@ != repos[b].repo@,
        0 <= j < k < issue_events(repos, users, replies).len(),
    ensures
        ({
            let a = issue_events(repos, users, replies)[j];
            let b = issue_events(repos, users, replies)[k];
            a.owner != b.owner || a.repo != b.repo || a.number != b.number
        }),
    decreases repos.len(),
{
    let count = repos.len() as int;
    let front = repos.drop_last();
    assert((count - 1) * users == count * users - users) by (nonlinear_arith);
    assert((count - 1) * users >= 0) by (nonlinear_arith)
        requires
            count >= 1,
            users >= 0,
    ;
    let earlier = replies.take(replies.len() - users);
    let own = replies.skip(replies.len() - users);
    let before = issue_events(front, users, earlier);
    let all = issue_events(repos, users, replies);
    let numbers = firsts(all_numbers(own));
    lemma_firsts(all_numbers(own));
    if k < before.len() {
        assert(all[j] == before[j] && all[k] == before[k]);
        lemma_issue_events_differ(front, users, earlier, j, k);
    } else {
        assert(all[k] == issue_event(repos.last(), numbers[k - before.len()]));
        if j < before.len() {
            assert(all[j] == before[j]);
            let at = lemma_issue_event_origin(front, users, earlier, j);
            assert(front[at.0] == repos[at.0]);
            assert(repos[count - 1] == repos.last());
        } else {
            assert(all[j] == issue_event(repos.last(), numbers[j - before.len()]));
        }
    }
}

/// The events of a poll for assigned issues come repository by repository: one
/// more repository, with its own replies, adds the events that a poll of it
/// alone finds, and changes nothing of the others.
pub proof fn law_issue_events_add_up(
    trigger: GithubIssueAssignedTrigger,
    repos: (Vec<RepoConfig>, Vec<RepoConfig>, Vec<RepoConfig>),
    replies: (Vec<Reply>, Vec<Reply>, Vec<Reply>),
    events: (
        Result<Vec<TriggerEvent>, String>,
        Result<Vec<TriggerEvent>, String>,
        Result<Vec<TriggerEvent>, String>,
    ),
)
    requires
        trigger.answered(repos.0@, replies.0@),
        trigger.answered(repos.1@, replies.1@),
        trigger.answered(repos.2@, replies.2@),
        repos.1@.len() == 1,
        repos.2@ == repos.0@ + repos.1@,
        replies.2@ == replies.0@ + replies.1@,
        call_ensures(
            <GithubIssueAssignedTrigger as Trigger>::events,
            (&trigger, &repos.0, &replies.0),
            events.0,
        ),
        call_ensures(
            <GithubIssueAssignedTrigger as Trigger>::events,
            (&trigger, &repos.1, &replies.1),
            events.1,
        ),
        call_ensures(
            <GithubIssueAssignedTrigger as Trigger>::events,
            (&trigger, &repos.2, &replies.2),
            events.2,
        ),
    ensures
        event_views(events.2->Ok_0@) == event_views(events.0->Ok_0@) + event_views(
            events.1->Ok_0@,
        ),
{
    let users = trigger.allowed_users@.len() as int;
    lemma_issue_query_count(repos.1@, trigger.assigned_to@, views(trigger.allowed_users@));
    let ones = repos.1@.len() as int;
    assert(ones * users == users) by (nonlinear_arith)
        requires
            ones == 1,
    ;
    assert(replies.1@.len() == users);
    assert(repos.2@.drop_last() =~= repos.0@);
    assert(repos.2@.last() == repos.1@[0]);
    assert(replies.2@.take(replies.2@.len() - users) =~= replies.0@);
    assert(replies.2@.skip(replies.2@.len() - users) =~= replies.1@);
    assert(repos.1@.drop_last() =~= Seq::<RepoConfig>::empty());
    assert(replies.1@.skip(0) =~= replies.1@);
    assert(issue_events(repos.1@.drop_last(), users, replies.1@.take(0)) =~= Seq::<
        EventModel,
    >::empty());
    assert(issue_events(repos.1@, users, replies.1@) =~= repo_issue_events(
        repos.1@[0],
        replies.1@,
    ));
}

// ---------------------------------------------------------------------------
// Reviews of pull requests
// ---------------------------------------------------------------------------

/// Starts a run for each review of an open pull request by one of the allowed
/// users.
pub struct GithubPrReviewTrigger {
    pub allowed_users: Vec<String>,
    pub token: String,
}

/// The event of a review.
pub open spec fn review_event(repo: RepoConfig, pr_number: u64, id: u64) -> EventModel {
    EventModel {
        owner: repo.owner@,
        repo: repo.repo@,
        key: decimal(pr_number as nat) + "/"@ + decimal(id as nat),
        label: repo.owner@ + "/"@ + repo.repo@ + "#"@ + decimal(pr_number as nat) + "_review-"@
            + decimal(id as nat),
        workspace_id: decimal(pr_number as nat) + "_review-"@ + decimal(id as nat),
        number: pr_number,
        variables: seq![
            ("pr_number"@, decimal(pr_number as nat)),
            ("review_id"@, decimal(id as nat)),
        ],
    }
}

/// The reviews that start a run: those by allowed users, each where its id
/// first occurs. The pairs are pull request and id.
pub open spec fn wanted_reviews(reviews: Seq<PrReview>, users: Seq<Seq<char>>) -> Seq<(u64, u64)>
    decreases reviews.len(),
{
    if reviews.len() == 0 {
        Seq::empty()
    } else {
        let front = wanted_reviews(reviews.drop_last(), users);
        let last = reviews.last();
        if users.contains(last.user@) && !ids(front).contains(last.id) {
            front.push((last.pr_number, last.id))
        } else {
            front
        }
    }
}

/// The ids of reviews.
pub open spec fn ids(reviews: Seq<(u64, u64)>) -> Seq<u64> {
    reviews.map_values(|r: (u64, u64)| r.1)
}

/// The events of one repository; none if the listing failed.
pub open spec fn repo_review_events(
    repo: RepoConfig,
    users: Seq<Seq<char>>,
    reply: Reply,
) -> Seq<EventModel> {
    match reply {
        Reply::Reviews(Ok(reviews)) => wanted_reviews(reviews@, users).map_values(
            |r: (u64, u64)| review_event(repo, r.0, r.1),
        ),
        _ => Seq::empty(),
    }
}

/// The events of all repositories, one reply for each.
pub open spec fn review_events(
    repos: Seq<RepoConfig>,
    users: Seq<Seq<char>>,
    replies: Seq<Reply>,
) -> Seq<EventModel>
    decreases repos.len(),
{
    if repos.len() == 0 || replies.len() == 0 {
        Seq::empty()
    } else {
        review_events(repos.drop_last(), users, replies.drop_last()) + repo_review_events(
            repos.last(),
            users,
            replies.last(),
        )
    }
}

fn make_review_event(repo: &RepoConfig, pr_number: u64, id: u64) -> (event: TriggerEvent)
    ensures
        event@ == review_event(*repo, pr_number, id),
{
    let pr = decimal_u64(pr_number);
    let review = decimal_u64(id);
    let mut variables = Vars::new();
    variables.insert("pr_number", pr.clone());
    let ghost one = variables@;
    assert(one =~= seq![("pr_number"@, decimal(pr_number as nat))]);
    variables.insert("review_id", review.clone());
    proof {
        reveal_strlit("pr_number");
        reveal_strlit("review_id");
        assert("pr_number"@[0] != "review_id"@[0]);
        lemma_new_entry(one, "review_id"@, decimal(id as nat));
        assert(variables@ =~= seq![
            ("pr_number"@, decimal(pr_number as nat)),
            ("review_id"@, decimal(id as nat)),
        ]);
    }
    let workspace_id = pr.clone().concat("_review-").concat(review.as_str());
    let label = repo.owner.clone().concat("/").concat(repo.repo.as_str()).concat("#").concat(
        pr.as_str(),
    ).concat("_review-").concat(review.as_str());
    TriggerEvent {
        owner: repo.owner.clone(),
        repo: repo.repo.clone(),
        key: pr.clone().concat("/").concat(review.as_str()),
        label,
        workspace_id,
        number: pr_number,
        variables,
    }
}

/// Adds the events of the reviews of a repository.
fn add_review_events(
    repo: &RepoConfig,
    users: &Vec<String>,
    reviews: &Vec<PrReview>,
    events: &mut Vec<TriggerEvent>,
)
    ensures
        event_views(final(events)@) == event_views(old(events)@) + wanted_reviews(
            reviews@,
            views(users@),
        ).map_values(|r: (u64, u64)| review_event(*repo, r.0, r.1)),
{
    let ghost before = event_views(events@);
    let ghost make = |r: (u64, u64)| review_event(*repo, r.0, r.1);
    let ghost mut wanted: Seq<(u64, u64)> = Seq::empty();
    let mut seen: HashSet<u64> = HashSet::new();
    let mut i: usize = 0;
    proof {
        assert(reviews@.take(0) =~= Seq::<PrReview>::empty());
        assert(ids(wanted).to_set() =~= Set::<u64>::empty());
        assert(seen@ =~= Set::<u64>::empty());
        assert(before + wanted.map_values(make) =~= before);
    }
    while i < reviews.len()
        invariant
            i <= reviews.len(),
            make == (|r: (u64, u64)| review_event(*repo, r.0, r.1)),
            wanted == wanted_reviews(reviews@.take(i as int), views(users@)),
            seen@ == ids(wanted).to_set(),
            event_views(events@) == before + wanted.map_values(make),
        decreases reviews.len() - i,
    {
        let ghost had = event_views(events@);
        let pr: u64 = reviews[i].pr_number;
        let id: u64 = reviews[i].id;
        assert(reviews@.take(i + 1).drop_last() =~= reviews@.take(i as int));
        assert(reviews@.take(i + 1).last() == reviews@[i as int]);
        if list_contains(users, reviews[i].user.as_str()) {
            if is_first(&mut seen, id) {
                let event = make_review_event(repo, pr, id);
                events.push(event);
                proof {
                    assert(event_views(events@) =~= had.push(event@));
                    let grown = wanted.push((pr, id));
                    assert(grown.map_values(make) =~= wanted.map_values(make).push(make((pr, id))));
                    assert(ids(grown) =~= ids(wanted).push(id));
                    assert(ids(grown).to_set() =~= ids(wanted).to_set().insert(id)) by {
                        assert forall|m: u64|
                            ids(wanted).push(id).contains(m) <==> ids(wanted).contains(m) || m
                                == id by {
                            if ids(wanted).contains(m) {
                                let k = choose|k: int|
                                    0 <= k < ids(wanted).len() && ids(wanted)[k] == m;
                                assert(ids(wanted).push(id)[k] == m);
                            }
                            assert(ids(wanted).push(id)[ids(wanted).len() as int] == id);
                        }
                    }
                    wanted = grown;
                }
            } else {
                assert(ids(wanted).to_set().insert(id) =~= ids(wanted).to_set());
            }
        }
        i += 1;
    }
    assert(reviews@.take(i as int) =~= reviews@);
}

impl Trigger for GithubPrReviewTrigger {
    open spec fn trigger_name(&self) -> Seq<char> {
        "github_pr_review"@
    }

    open spec fn asked(&self, repos: Seq<RepoConfig>) -> Seq<QueryModel> {
        repos.map_values(
            |r: RepoConfig| QueryModel::PrReviews { owner: r.owner@, repo: r.repo@ },
        )
    }

    open spec fn answered(&self, repos: Seq<RepoConfig>, replies: Seq<Reply>) -> bool {
        &&& replies.len() == repos.len()
        &&& forall|i: int| 0 <= i < replies.len() ==> #[trigger] replies[i] is Reviews
    }

    open spec fn found(
        &self,
        repos: Seq<RepoConfig>,
        replies: Seq<Reply>,
        events: Result<Vec<TriggerEvent>, String>,
    ) -> bool {
        events matches Ok(list) && event_views(list@) == review_events(
            repos,
            views(self.allowed_users@),
            replies,
        )
    }

    fn name(&self) -> (name: &str) {
        "github_pr_review"
    }

    fn poll(&self, repos: &Vec<RepoConfig>) -> (queries: Vec<Query>) {
        let mut queries: Vec<Query> = Vec::new();
        let mut r: usize = 0;
        assert(query_views(queries@) =~= self.asked(repos@).take(0));
        while r < repos.len()
            invariant
                r <= repos.len(),
                query_views(queries@) == self.asked(repos@).take(r as int),
            decreases repos.len() - r,
        {
            let ghost had = query_views(queries@);
            let query = Query::PrReviews {
                owner: repos[r].owner.clone(),
                repo: repos[r].repo.clone(),
            };
            queries.push(query);
            assert(query_views(queries@) =~= had.push(query@));
            r += 1;
            assert(had.push(query@) =~= self.asked(repos@).take(r as int));
        }
        assert(self.asked(repos@).take(r as int) =~= self.asked(repos@));
        queries
    }

    fn events(&self, repos: &Vec<RepoConfig>, replies: &Vec<Reply>) -> (events: Result<
        Vec<TriggerEvent>,
        String,
    >) {
        let mut events: Vec<TriggerEvent> = Vec::new();
        let mut r: usize = 0;
        assert(event_views(events@) =~= Seq::<EventModel>::empty());
        while r < repos.len()
            invariant
                r <= repos.len(),
                replies@.len() == repos@.len(),
                forall|i: int| 0 <= i < replies@.len() ==> #[trigger] replies@[i] is Reviews,
                event_views(events@) == review_events(
                    repos@.take(r as int),
                    views(self.allowed_users@),
                    replies@.take(r as int),
                ),
            decreases repos.len() - r,
        {
            assert(repos@.take(r + 1).drop_last() =~= repos@.take(r as int));
            assert(replies@.take(r + 1).drop_last() =~= replies@.take(r as int));
            assert(replies@[r as int] is Reviews);
            match &replies[r] {
                Reply::Reviews(Ok(reviews)) => {
                    add_review_events(&repos[r], &self.allowed_users, reviews, &mut events);
                },
                _ => {
                    assert(event_views(events@) + Seq::<EventModel>::empty() =~= event_views(
                        events@,
                    ));
                },
            }
            r += 1;
        }
        assert(repos@.take(r as int) =~= repos@);
        assert(replies@.take(r as int) =~= replies@);
        Ok(events)
    }
}

/// A poll for reviews starts runs only for reviews by allowed users, and for
/// no review twice.
pub proof fn law_reviews_are_wanted_once(reviews: Seq<PrReview>, users: Seq<Seq<char>>)
    ensures
        ids(wanted_reviews(reviews, users)).no_duplicates(),
        forall|r: (u64, u64)| #[trigger]
            wanted_reviews(reviews, users).contains(r) ==> exists|i: int|
                0 <= i < reviews.len() && users.contains((#[trigger] reviews[i]).user@) && r == (
                    reviews[i].pr_number,
                    reviews[i].id,
                ),
        forall|i: int|
            0 <= i < reviews.len() && users.contains((#[trigger] reviews[i]).user@) ==> ids(
                wanted_reviews(reviews, users),
            ).contains(reviews[i].id),
    decreases reviews.len(),
{
    if reviews.len() > 0 {
        let front = reviews.drop_last();
        let last = reviews.last();
        law_reviews_are_wanted_once(front, users);
        let some = wanted_reviews(front, users);
        let all = wanted_reviews(reviews, users);
        assert forall|r: (u64, u64)| #[trigger] all.contains(r) implies exists|i: int|
            0 <= i < reviews.len() && users.contains((#[trigger] reviews[i]).user@) && r == (
                reviews[i].pr_number,
                reviews[i].id,
            ) by {
            let k = choose|k: int| 0 <= k < all.len() && all[k] == r;
            if k < some.len() {
                assert(some[k] == r);
                assert(some.contains(r));
                let i = choose|i: int|
                    0 <= i < front.len() && users.contains((#[trigger] front[i]).user@) && r == (
                        front[i].pr_number,
                        front[i].id,
                    );
                assert(reviews[i] == front[i]);
            } else {
                assert(reviews[reviews.len() - 1] == last);
            }
        }
        assert forall|i: int|
            0 <= i < reviews.len() && users.contains((#[trigger] reviews[i]).user@) implies ids(
            all,
        ).contains(reviews[i].id) by {
            if i < front.len() {
                assert(front[i] == reviews[i]);
                assert(ids(some).contains(front[i].id));
                let k = choose|k: int| 0 <= k < ids(some).len() && ids(some)[k] == front[i].id;
                assert(ids(all)[k] == ids(some)[k]);
            } else if ids(some).contains(last.id) {
                let k = choose|k: int| 0 <= k < ids(some).len() && ids(some)[k] == last.id;
                assert(ids(all)[k] == ids(some)[k]);
            } else {
                assert(ids(all)[all.len() - 1] == last.id);
            }
        }
        assert forall|i: int, j: int|
            0 <= i < ids(all).len() && 0 <= j < ids(all).len() && i != j implies ids(all)[i] != ids(
            all,
        )[j] by {
            if i < some.len() {
                assert(ids(all)[i] == ids(some)[i]);
            }
            if j < some.len() {
                assert(ids(all)[j] == ids(some)[j]);
            }
        }
    }
}

/// A poll for reviews asks one question for each repository, about that
/// repository.
pub proof fn law_review_questions(
    allowed_users: Vec<String>,
    token: &str,
    trigger: BuiltTrigger,
    repos: Vec<RepoConfig>,
    queries: Vec<Query>,
    i: int,
)
    requires
        call_ensures(
            TriggerConfig::build,
            (&TriggerConfig::GithubPrReview { allowed_users }, token),
            trigger,
        ),
        call_ensures(<BuiltTrigger as Trigger>::poll, (&trigger, &repos), queries),
        0 <= i < repos@.len(),
    ensures
        queries@.len() == repos@.len(),
        queries@[i] is PrReviews,
        queries@[i]->PrReviews_owner@ == repos@[i].owner@,
        queries@[i]->PrReviews_repo@ == repos@[i].repo@,
{
    assert(query_views(queries@).len() == queries@.len());
    assert(query_views(queries@)[i] == queries@[i]@);
}

/// Which reply, and which review of it, an event stems from.
proof fn lemma_review_event_origin(
    repos: Seq<RepoConfig>,
    users: Seq<Seq<char>>,
    replies: Seq<Reply>,
    j: int,
) -> (at: (int, int))
    requires
        replies.len() == repos.len(),
        0 <= j < review_events(repos, users, replies).len(),
    ensures
        0 <= at.0 < repos.len(),
        replies[at.0] is Reviews,
        replies[at.0]->Reviews_0 is Ok,
        0 <= at.1 < replies[at.0]->Reviews_0->Ok_0@.len(),
        users.contains(replies[at.0]->Reviews_0->Ok_0@[at.1].user@),
        review_events(repos, users, replies)[j] == review_event(
            repos[at.0],
            replies[at.0]->Reviews_0->Ok_0@[at.1].pr_number,
            replies[at.0]->Reviews_0->Ok_0@[at.1].id,
        ),
    decreases repos.len(),
{
    let front = repos.drop_last();
    let earlier = replies.drop_last();
    let before = review_events(front, users, earlier);
    let all = review_events(repos, users, replies);
    if j < before.len() {
        assert(all[j] == before[j]);
        let at = lemma_review_event_origin(front, users, earlier, j);
        assert(earlier[at.0] == replies[at.0]);
        assert(front[at.0] == repos[at.0]);
        at
    } else {
        let k = j - before.len();
        let reviews = replies.last()->Reviews_0->Ok_0@;
        let wanted = wanted_reviews(reviews, users);
        law_reviews_are_wanted_once(reviews, users);
        assert(all[j] == review_event(repos.last(), wanted[k].0, wanted[k].1));
        assert(wanted.contains(wanted[k]));
        let n = choose|n: int|
            0 <= n < reviews.len() && users.contains((#[trigger] reviews[n]).user@) && wanted[k]
                == (reviews[n].pr_number, reviews[n].id);
        (repos.len() - 1, n)
    }
}

/// The event of a review that is wanted.
proof fn lemma_review_has_event(
    repos: Seq<RepoConfig>,
    users: Seq<Seq<char>>,
    replies: Seq<Reply>,
    i: int,
    n: int,
) -> (at: (int, int))
    requires
        replies.len() == repos.len(),
        0 <= i < repos.len(),
        replies[i] is Reviews,
        replies[i]->Reviews_0 is Ok,
        0 <= n < replies[i]->Reviews_0->Ok_0@.len(),
        users.contains(replies[i]->Reviews_0->Ok_0@[n].user@),
    ensures
        0 <= at.0 < review_events(repos, users, replies).len(),
        0 <= at.1 < replies[i]->Reviews_0->Ok_0@.len(),
        replies[i]->Reviews_0->Ok_0@[at.1].id == replies[i]->Reviews_0->Ok_0@[n].id,
        review_events(repos, users, replies)[at.0] == review_event(
            repos[i],
            replies[i]->Reviews_0->Ok_0@[at.1].pr_number,
            replies[i]->Reviews_0->Ok_0@[at.1].id,
        ),
    decreases repos.len(),
{
    let front = repos.drop_last();
    let earlier = replies.drop_last();
    let before = review_events(front, users, earlier);
    let all = review_events(repos, users, replies);
    if i < front.len() {
        assert(earlier[i] == replies[i]);
        assert(front[i] == repos[i]);
        let at = lemma_review_has_event(front, users, earlier, i, n);
        assert(all[at.0] == before[at.0]);
        at
    } else {
        let reviews = replies[i]->Reviews_0->Ok_0@;
        let wanted = wanted_reviews(reviews, users);
        law_reviews_are_wanted_once(reviews, users);
        assert(ids(wanted).contains(reviews[n].id));
        let k = choose|k: int| 0 <= k < ids(wanted).len() && ids(wanted)[k] == reviews[n].id;
        assert(wanted[k].1 == reviews[n].id);
        assert(wanted.contains(wanted[k]));
        let m = choose|m: int|
            0 <= m < reviews.len() && users.contains((#[trigger] reviews[m]).user@) && wanted[k]
                == (reviews[m].pr_number, reviews[m].id);
        assert(all[before.len() + k] == review_event(repos[i], wanted[k].0, wanted[k].1));
        (before.len() + k, m)
    }
}

/// Each event of a poll for reviews stems from the listing of one repository,
/// whose owner and name it carries, and from a review by an allowed user in
/// that listing. Number, key, label, workspace and template variables are made
/// of the pull request and the id of that review.
pub proof fn law_review_event_tells_its_repository(
    trigger: GithubPrReviewTrigger,
    repos: Vec<RepoConfig>,
    replies: Vec<Reply>,
    events: Result<Vec<TriggerEvent>, String>,
    j: int,
)
    requires
        trigger.answered(repos@, replies@),
        call_ensures(
            <GithubPrReviewTrigger as Trigger>::events,
            (&trigger, &repos, &replies),
            events,
        ),
        0 <= j < events->Ok_0@.len(),
    ensures
        events is Ok,
        exists|i: int, n: int|
            {
                let reviews = replies@[i]->Reviews_0;
                let review = #[trigger] replies@[i]->Reviews_0->Ok_0@[n];
                let event = events->Ok_0@[j];
                let pr = decimal(review.pr_number as nat);
                let id = decimal(review.id as nat);
                &&& 0 <= i < repos@.len()
                &&& reviews is Ok
                &&& 0 <= n < reviews->Ok_0@.len()
                &&& exists|u: int|
                    0 <= u < trigger.allowed_users@.len() && (#[trigger] trigger.allowed_users@[u])@
                        == review.user@
                &&& event.owner@ == repos@[i].owner@
                &&& event.repo@ == repos@[i].repo@
                &&& event.number == review.pr_number
                &&& event.key@ == pr + "/"@ + id
                &&& event.workspace_id@ == pr + "_review-"@ + id
                &&& event.label@ == repos@[i].owner@ + "/"@ + repos@[i].repo@ + "#"@ + pr
                    + "_review-"@ + id
                &&& event.variables@ == seq![("pr_number"@, pr), ("review_id"@, id)]
            },
{
    let users = views(trigger.allowed_users@);
    let found = event_views(events->Ok_0@);
    assert(found[j] == events->Ok_0@[j]@);
    let at = lemma_review_event_origin(repos@, users, replies@, j);
    let review = replies@[at.0]->Reviews_0->Ok_0@[at.1];
    let u = choose|u: int| 0 <= u < users.len() && users[u] == review.user@;
    assert(trigger.allowed_users@[u]@ == review.user@);
}

/// A review by an allowed user, in the listing of a repository, gets an event
/// with the owner and the name of that repository and the id of the review.
pub proof fn law_wanted_review_gets_its_event(
    trigger: GithubPrReviewTrigger,
    repos: Vec<RepoConfig>,
    replies: Vec<Reply>,
    events: Result<Vec<TriggerEvent>, String>,
    i: int,
    reviews: Vec<PrReview>,
    n: int,
    u: int,
)
    requires
        trigger.answered(repos@, replies@),
        call_ensures(
            <GithubPrReviewTrigger as Trigger>::events,
            (&trigger, &repos, &replies),
            events,
        ),
        0 <= i < repos@.len(),
        replies@[i] == Reply::Reviews(Ok(reviews)),
        0 <= n < reviews@.len(),
        0 <= u < trigger.allowed_users@.len(),
        trigger.allowed_users@[u]@ == reviews@[n].user@,
    ensures
        events is Ok,
        exists|j: int|
            0 <= j < events->Ok_0@.len() && (#[trigger] events->Ok_0@[j]).owner@ == repos@[i].owner@
                && events->Ok_0@[j].repo@ == repos@[i].repo@ && events->Ok_0@[j].variables@[1] == (
                "review_id"@,
                decimal(reviews@[n].id as nat),
            ),
{
    let users = views(trigger.allowed_users@);
    assert(users[u] == reviews@[n].user@);
    let found = event_views(events->Ok_0@);
    let at = lemma_review_has_event(repos@, users, replies@, i, n);
    assert(found[at.0] == events->Ok_0@[at.0]@);
}

/// If no repository is configured twice, no two events of a poll for reviews
/// tell of the same review.
pub proof fn law_review_events_differ(
    trigger: GithubPrReviewTrigger,
    repos: Vec<RepoConfig>,
    replies: Vec<Reply>,
    events: Result<Vec<TriggerEvent>, String>,
    j: int,
    k: int,
)
    requires
        trigger.answered(repos@, replies@),
        call_ensures(
            <GithubPrReviewTrigger as Trigger>::events,
            (&trigger, &repos, &replies),
            events,
        ),
        forall|a: int, b: int|
            0 <= a < b < repos@.len() ==> (#[trigger] repos@[a]).owner@ != (
            #[trigger] repos@[b]).owner@ || repos@[a].repo@ != repos@[b].repo@,
        0 <= j < k < events->Ok_0@.len(),
    ensures
        ({
            let (a, b) = (events->Ok_0@[j], events->Ok_0@[k]);
            a.owner@ != b.owner@ || a.repo@ != b.repo@ || a.variables@[1] != b.variables@[1]
        }),
{
    let found = event_views(events->Ok_0@);
    assert(found[j] == events->Ok_0@[j]@);
    assert(found[k] == events->Ok_0@[k]@);
    lemma_review_events_differ(repos@, views(trigger.allowed_users@), replies@, j, k);
}

proof fn lemma_review_events_differ(
    repos: Seq<RepoConfig>,
    users: Seq<Seq<char>>,
    replies: Seq<Reply>,
    j: int,
    k: int,
)
    requires
        replies.len() == repos.len(),
        forall|a: int, b: int|
            0 <= a < b < repos.len() ==> (#[trigger] repos[a]).owner@ != (
            #[trigger] repos[b]).owner@ || repos[a].repo@ != repos[b].repo@,
        0 <= j < k < review_events(repos, users, replies).len(),
    ensures
        ({
            let a = review_events(repos, users, replies)[j];
            let b = review_events(repos, users, replies)[k];
            a.owner != b.owner || a.repo != b.repo || a.variables[1] != b.variables[1]
        }),
    decreases repos.len(),
{
    let front = repos.drop_last();
    let earlier = replies.drop_last();
    let before = review_events(front, users, earlier);
    let all = review_events(repos, users, replies);
    if k < before.len() {
        assert(all[j] == before[j] && all[k] == before[k]);
        lemma_review_events_differ(front, users, earlier, j, k);
    } else {
        let reviews = replies.last()->Reviews_0->Ok_0@;
        let wanted = wanted_reviews(reviews, users);
        law_reviews_are_wanted_once(reviews, users);
        let y = wanted[k - before.len()];
        assert(all[k] == review_event(repos.last(), y.0, y.1));
        if j < before.len() {
            assert(all[j] == before[j]);
            let at = lemma_review_event_origin(front, users, earlier, j);
            assert(front[at.0] == repos[at.0]);
            assert(repos[repos.len() - 1] == repos.last());
        } else {
            let x = wanted[j - before.len()];
            assert(all[j] == review_event(repos.last(), x.0, x.1));
            assert(ids(wanted)[j - before.len()] != ids(wanted)[k - before.len()]);
            if all[j].variables[1] == all[k].variables[1] {
                law_decimal_injective(x.1 as nat, y.1 as nat);
            }
        }
    }
}

/// The events of a poll for reviews come repository by repository: one more
/// repository, with its own reply, adds the events that a poll of it alone
/// finds, and changes nothing of the others.
pub proof fn law_review_events_add_up(
    trigger: GithubPrReviewTrigger,
    repos: (Vec<RepoConfig>, Vec<RepoConfig>, Vec<RepoConfig>),
    replies: (Vec<Reply>, Vec<Reply>, Vec<Reply>),
    events: (
        Result<Vec<TriggerEvent>, String>,
        Result<Vec<TriggerEvent>, String>,
        Result<Vec<TriggerEvent>, String>,
    ),
)
    requires
        trigger.answered(repos.0@, replies.0@),
        trigger.answered(repos.1@, replies.1@),
        trigger.answered(repos.2@, replies.2@),
        repos.1@.len() == 1,
        repos.2@ == repos.0@ + repos.1@,
        replies.2@ == replies.0@ + replies.1@,
        call_ensures(
            <GithubPrReviewTrigger as Trigger>::events,
            (&trigger, &repos.0, &replies.0),
            events.0,
        ),
        call_ensures(
            <GithubPrReviewTrigger as Trigger>::events,
            (&trigger, &repos.1, &replies.1),
            events.1,
        ),
        call_ensures(
            <GithubPrReviewTrigger as Trigger>::events,
            (&trigger, &repos.2, &replies.2),
            events.2,
        ),
    ensures
        event_views(events.2->Ok_0@) == event_views(events.0->Ok_0@) + event_views(
            events.1->Ok_0@,
        ),
{
    let users = views(trigger.allowed_users@);
    assert(repos.2@.drop_last() =~= repos.0@);
    assert(replies.2@.drop_last() =~= replies.0@);
    assert(repos.2@.last() == repos.1@[0]);
    assert(replies.2@.last() == replies.1@[0]);
    assert(review_events(repos.1@.drop_last(), users, replies.1@.drop_last()) =~= Seq::<
        EventModel,
    >::empty());
    assert(review_events(repos.1@, users, replies.1@) =~= repo_review_events(
        repos.1@[0],
        users,
        replies.1@[0],
    ));
}

/// Every issue and every review of a repository has a workspace of its own:
/// different issues, different reviews, and an issue and a review never share
/// one. The workspaces are plain names of directories.
pub proof fn law_events_have_their_own_workspace(
    repo: RepoConfig,
    number: u64,
    other_number: u64,
    review: (u64, u64),
    other_review: (u64, u64),
)
    ensures
        plain_name(issue_event(repo, number).workspace_id),
        plain_name(review_event(repo, review.0, review.1).workspace_id),
        number != other_number ==> issue_event(repo, number).workspace_id != issue_event(
            repo,
            other_number,
        ).workspace_id,
        review != other_review ==> review_event(repo, review.0, review.1).workspace_id
            != review_event(repo, other_review.0, other_review.1).workspace_id,
        issue_event(repo, number).workspace_id != review_event(repo, review.0, review.1).workspace_id,
{
    let issue = decimal(number as nat);
    let name = review_event(repo, review.0, review.1).workspace_id;
    let other = review_event(repo, other_review.0, other_review.1).workspace_id;
    let pr = decimal(review.0 as nat);
    let id = decimal(review.1 as nat);
    let other_pr = decimal(other_review.0 as nat);
    let other_id = decimal(other_review.1 as nat);
    reveal_strlit("_review-");
    lemma_decimal_value(number as nat);
    lemma_decimal_value(review.0 as nat);
    lemma_decimal_value(review.1 as nat);
    assert(forall|i: int| 0 <= i < issue.len() ==> is_digit(#[trigger] issue[i]));
    assert forall|i: int| 0 <= i < name.len() implies #[trigger] name[i] != '/' by {
        if i < pr.len() {
            assert(name[i] == pr[i]);
        } else if i < pr.len() + 8 {
            assert(name[i] == "_review-"@[i - pr.len()]);
        } else {
            assert(name[i] == id[i - pr.len() - 8]);
        }
    }
    if number != other_number && issue == decimal(other_number as nat) {
        law_decimal_injective(number as nat, other_number as nat);
    }
    lemma_decimal_is_digits(number as nat, '_');
    lemma_decimal_is_digits(review.0 as nat, '_');
    lemma_decimal_is_digits(other_review.0 as nat, '_');
    assert(name[pr.len() as int] == '_');
    if issue == name {
        assert(issue.contains('_'));
    }
    if review != other_review && name == other {
        let rest = "review-"@ + id;
        let other_rest = "review-"@ + other_id;
        reveal_strlit("review-");
        assert(name =~= pr + seq!['_'] + rest);
        assert(other =~= other_pr + seq!['_'] + other_rest);
        lemma_first_separator(pr, rest, other_pr, other_rest, '_');
        assert(rest.skip(7) =~= id);
        assert(other_rest.skip(7) =~= other_id);
        law_decimal_injective(review.0 as nat, other_review.0 as nat);
        law_decimal_injective(review.1 as nat, other_review.1 as nat);
    }
}

// ---------------------------------------------------------------------------
// Local files
// ---------------------------------------------------------------------------

/// Starts a run for each file of a directory whose name matches a glob
/// pattern.
pub struct LocalFileTrigger {
    pub directory: String,
    pub pattern: String,
}

/// What the glob crate says of a pattern that is not one; nothing if it is.
pub uninterp spec fn glob_complaint(pattern: Seq<char>) -> Option<Seq<char>>;

/// Whether a glob pattern matches a name.
pub uninterp spec fn glob_accepts(pattern: Seq<char>, name: Seq<char>) -> bool;

/// `glob::Pattern::new`: whether a text is a pattern, and what is wrong with
/// it otherwise, depends on the text alone. A single star is a pattern.
#[verifier::external_body]
fn glob_check(pattern: &str) -> (complaint: Option<String>)
    ensures
        match complaint {
            Some(c) => glob_complaint(pattern@) == Some(c@),
            None => glob_complaint(pattern@) is None,
        },
        pattern@ == "*"@ ==> complaint is None,
{
    glob::Pattern::new(pattern).err().map(|error| error.to_string())
}

/// `glob::Pattern::matches`: whether a name matches depends on the pattern
/// and the name alone. A single star matches every name.
#[verifier::external_body]
fn glob_match(pattern: &str, name: &str) -> (accepted: bool)
    requires
        glob_complaint(pattern@) is None,
    ensures
        accepted == glob_accepts(pattern@, name@),
        pattern@ == "*"@ ==> accepted,
{
    glob::Pattern::new(pattern).unwrap().matches(name)
}

/// The event of a file.
pub open spec fn file_event(name: Seq<char>, path: Seq<char>) -> EventModel {
    EventModel {
        owner: "local"@,
        repo: "local"@,
        key: name,
        label: "local:"@ + name,
        workspace_id: file_stem(name),
        number: 0,
        variables: seq![("file_name"@, name), ("file_path"@, path)],
    }
}

/// The first entry that is unreadable: what is wrong with it.
pub open spec fn first_failure(entries: Seq<Result<LocalEntry, String>>) -> Option<Seq<char>>
    decreases entries.len(),
{
    if entries.len() == 0 {
        None
    } else {
        match entries[0] {
            Ok(_) => first_failure(entries.skip(1)),
            Err(e) => Some(e@),
        }
    }
}

/// What is wrong with a pattern; nothing if it is one. A single star is one.
pub open spec fn pattern_complaint(pattern: Seq<char>) -> Option<Seq<char>> {
    if pattern == "*"@ {
        None
    } else {
        glob_complaint(pattern)
    }
}

/// A pattern accepts a name. A single star accepts every name.
pub open spec fn pattern_accepts(pattern: Seq<char>, name: Seq<char>) -> bool {
    pattern == "*"@ || glob_accepts(pattern, name)
}

/// The name of an entry is text, and a pattern accepts it.
pub open spec fn accepts_entry(pattern: Seq<char>, entry: Result<LocalEntry, String>) -> bool {
    match entry {
        Ok(e) => e.file_name is Some && pattern_accepts(pattern, e.file_name->0@),
        Err(_) => false,
    }
}

/// Which of the entries of a directory a pattern accepts.
pub open spec fn accepted_entries(
    entries: Seq<Result<LocalEntry, String>>,
    pattern: Seq<char>,
) -> Seq<bool> {
    entries.map_values(|entry: Result<LocalEntry, String>| accepts_entry(pattern, entry))
}

/// The events of the entries of a directory, given which of them the pattern
/// accepts: one for each file that it accepts and whose name is text.
pub open spec fn file_events(
    entries: Seq<Result<LocalEntry, String>>,
    accepted: Seq<bool>,
) -> Seq<EventModel>
    decreases entries.len(),
{
    if entries.len() == 0 {
        Seq::empty()
    } else {
        let front = file_events(entries.drop_last(), accepted);
        match entries.last() {
            Ok(entry) => if entry.is_file && entry.file_name is Some && accepted[entries.len()
                - 1] {
                front.push(file_event(entry.file_name->0@, entry.path@))
            } else {
                front
            },
            Err(_) => front,
        }
    }
}

/// The events of a directory, or why there are none, given what is wrong with
/// the pattern and which entries it accepts. A directory that is missing has
/// no events.
pub open spec fn listing_events(
    listing: LocalListing,
    pattern: Seq<char>,
    complaint: Option<Seq<char>>,
    accepted: Seq<bool>,
) -> Result<Seq<EventModel>, Seq<char>> {
    match listing {
        LocalListing::Missing => Ok(Seq::empty()),
        _ => match complaint {
            Some(c) => Err("invalid glob pattern '"@ + pattern + "': "@ + c),
            None => match listing {
                LocalListing::Entries(entries) => match first_failure(entries@) {
                    Some(e) => Err(e),
                    None => Ok(file_events(entries@, accepted)),
                },
                LocalListing::Unreadable(e) => Err(e@),
                LocalListing::Missing => Ok(Seq::empty()),
            },
        },
    }
}

/// Which entries of a directory a pattern accepts; nothing where there are no
/// entries.
pub open spec fn accepted_in(listing: LocalListing, pattern: Seq<char>) -> Seq<bool> {
    match listing {
        LocalListing::Entries(entries) => accepted_entries(entries@, pattern),
        _ => Seq::empty(),
    }
}

/// Events, or an error, as mathematical values.
pub open spec fn events_model(events: Result<Vec<TriggerEvent>, String>) -> Result<
    Seq<EventModel>,
    Seq<char>,
> {
    match events {
        Ok(list) => Ok(event_views(list@)),
        Err(e) => Err(e@),
    }
}

fn make_file_event(name: &str, path: &str) -> (event: TriggerEvent)
    ensures
        event@ == file_event(name@, path@),
{
    let mut variables = Vars::new();
    variables.insert("file_name", name.to_owned());
    let ghost one = variables@;
    assert(one =~= seq![("file_name"@, name@)]);
    variables.insert("file_path", path.to_owned());
    proof {
        reveal_strlit("file_name");
        reveal_strlit("file_path");
        assert("file_name"@[5] != "file_path"@[5]);
        lemma_new_entry(one, "file_path"@, path@);
        assert(variables@ =~= seq![("file_name"@, name@), ("file_path"@, path@)]);
    }
    TriggerEvent {
        owner: "local".to_string(),
        repo: "local".to_string(),
        key: name.to_owned(),
        label: "local:".to_string().concat(name),
        workspace_id: stem_of(name),
        number: 0,
        variables,
    }
}

proof fn lemma_first_failure(entries: Seq<Result<LocalEntry, String>>, k: int)
    requires
        0 <= k <= entries.len(),
        forall|i: int| 0 <= i < k ==> #[trigger] entries[i] is Ok,
    ensures
        k == entries.len() ==> first_failure(entries) is None,
        k < entries.len() && entries[k] is Err ==> first_failure(entries) == Some(
            entries[k]->Err_0@,
        ),
    decreases entries.len(),
{
    if k > 0 {
        assert(entries[0] is Ok);
        let rest = entries.skip(1);
        assert forall|i: int| 0 <= i < k - 1 implies #[trigger] rest[i] is Ok by {
            assert(rest[i] == entries[i + 1]);
        }
        lemma_first_failure(rest, k - 1);
        if k < entries.len() {
            assert(rest[k - 1] == entries[k]);
        }
    }
}

impl LocalFileTrigger {
    /// Which of the entries of a directory the pattern accepts.
    fn accepted(&self, entries: &Vec<Result<LocalEntry, String>>) -> (accepted: Vec<bool>)
        requires
            glob_complaint(self.pattern@) is None,
        ensures
            accepted@ == accepted_entries(entries@, self.pattern@),
    {
        let mut accepted: Vec<bool> = Vec::new();
        let mut i: usize = 0;
        while i < entries.len()
            invariant
                i <= entries.len(),
                glob_complaint(self.pattern@) is None,
                accepted@.len() == i,
                forall|j: int|
                    0 <= j < i ==> #[trigger] accepted@[j] == accepts_entry(
                        self.pattern@,
                        entries@[j],
                    ),
            decreases entries.len() - i,
        {
            let mut yes = false;
            if let Ok(entry) = &entries[i] {
                if let Some(name) = &entry.file_name {
                    yes = glob_match(self.pattern.as_str(), name.as_str());
                }
            }
            accepted.push(yes);
            i += 1;
        }
        assert(accepted@ =~= accepted_entries(entries@, self.pattern@));
        accepted
    }

    /// The events of a directory. A directory that is missing has none.
    pub fn directory_events(&self, listing: &LocalListing) -> (events: Result<
        Vec<TriggerEvent>,
        String,
    >)
        ensures
            events_model(events) == listing_events(
                *listing,
                self.pattern@,
                pattern_complaint(self.pattern@),
                accepted_in(*listing, self.pattern@),
            ),
    {
        let complaint = glob_check(self.pattern.as_str());
        let accepted = match listing {
            LocalListing::Entries(entries) => if complaint.is_none() {
                self.accepted(entries)
            } else {
                Vec::new()
            },
            _ => Vec::new(),
        };
        self.events_of(listing, complaint, &accepted)
    }

    /// The events of a directory, given what is wrong with the pattern and
    /// which of the entries it accepts.
    pub fn events_of(
        &self,
        listing: &LocalListing,
        complaint: Option<String>,
        accepted: &Vec<bool>,
    ) -> (events: Result<Vec<TriggerEvent>, String>)
        requires
            complaint is None && *listing is Entries ==> accepted@.len()
                == listing->Entries_0@.len(),
        ensures
            events_model(events) == listing_events(
                *listing,
                self.pattern@,
                opt_view(complaint),
                accepted@,
            ),
    {
        let mut events: Vec<TriggerEvent> = Vec::new();
        assert(event_views(events@) =~= Seq::<EventModel>::empty());
        if let LocalListing::Missing = listing {
            return Ok(events);
        }
        if let Some(c) = complaint {
            return Err(
                "invalid glob pattern '".to_string().concat(self.pattern.as_str()).concat(
                    "': ",
                ).concat(c.as_str()),
            );
        }
        match listing {
            LocalListing::Missing => Ok(events),
            LocalListing::Unreadable(e) => Err(e.clone()),
            LocalListing::Entries(entries) => {
                let mut i: usize = 0;
                while i < entries.len()
                    invariant
                        i <= entries.len(),
                        accepted@.len() == entries@.len(),
                        complaint is None,
                        *listing == LocalListing::Entries(*entries),
                        forall|j: int| 0 <= j < i ==> #[trigger] entries@[j] is Ok,
                        event_views(events@) == file_events(entries@.take(i as int), accepted@),
                    decreases entries.len() - i,
                {
                    let ghost had = event_views(events@);
                    assert(entries@.take(i + 1).drop_last() =~= entries@.take(i as int));
                    assert(entries@.take(i + 1).last() == entries@[i as int]);
                    match &entries[i] {
                        Err(e) => {
                            proof {
                                lemma_first_failure(entries@, i as int);
                            }
                            return Err(e.clone());
                        },
                        Ok(entry) => {
                            if entry.is_file && accepted[i] {
                                if let Some(name) = &entry.file_name {
                                    let event = make_file_event(name.as_str(), entry.path.as_str());
                                    events.push(event);
                                    assert(event_views(events@) =~= had.push(event@));
                                }
                            }
                        },
                    }
                    i += 1;
                }
                proof {
                    lemma_first_failure(entries@, i as int);
                    assert(entries@.take(i as int) =~= entries@);
                }
                Ok(events)
            },
        }
    }
}

impl Trigger for LocalFileTrigger {
    open spec fn trigger_name(&self) -> Seq<char> {
        "local_file"@
    }

    open spec fn asked(&self, repos: Seq<RepoConfig>) -> Seq<QueryModel> {
        seq![QueryModel::Directory { path: self.directory@ }]
    }

    open spec fn answered(&self, repos: Seq<RepoConfig>, replies: Seq<Reply>) -> bool {
        replies.len() == 1 && replies[0] is Directory
    }

    open spec fn found(
        &self,
        repos: Seq<RepoConfig>,
        replies: Seq<Reply>,
        events: Result<Vec<TriggerEvent>, String>,
    ) -> bool {
        match replies[0] {
            Reply::Directory(listing) => events_model(events) == listing_events(
                listing,
                self.pattern@,
                pattern_complaint(self.pattern@),
                accepted_in(listing, self.pattern@),
            ),
            _ => events is Ok && events->Ok_0@.len() == 0,
        }
    }

    fn name(&self) -> (name: &str) {
        "local_file"
    }

    fn poll(&self, _repos: &Vec<RepoConfig>) -> (queries: Vec<Query>) {
        let mut queries: Vec<Query> = Vec::new();
        queries.push(Query::Directory { path: self.directory.clone() });
        assert(query_views(queries@) =~= seq![QueryModel::Directory { path: self.directory@ }]);
        queries
    }

    fn events(&self, _repos: &Vec<RepoConfig>, replies: &Vec<Reply>) -> (events: Result<
        Vec<TriggerEvent>,
        String,
    >) {
        match &replies[0] {
            Reply::Directory(listing) => self.directory_events(listing),
            _ => Ok(Vec::new()),
        }
    }
}

// ---------------------------------------------------------------------------
// Laws of polls for local files
// ---------------------------------------------------------------------------

/// A file of a directory that is to start a run: a regular file whose name is
/// text and matches the pattern.
pub open spec fn matching_file(entry: Result<LocalEntry, String>, pattern: Seq<char>) -> bool {
    match entry {
        Ok(e) => e.is_file && e.file_name is Some && (pattern == "*"@ || glob_accepts(
            pattern,
            e.file_name->0@,
        )),
        Err(_) => false,
    }
}

/// The entry that an event stems from.
proof fn lemma_file_event_origin(
    entries: Seq<Result<LocalEntry, String>>,
    accepted: Seq<bool>,
    j: int,
) -> (i: int)
    requires
        accepted.len() >= entries.len(),
        0 <= j < file_events(entries, accepted).len(),
    ensures
        0 <= i < entries.len(),
        entries[i] is Ok,
        entries[i]->Ok_0.is_file,
        entries[i]->Ok_0.file_name is Some,
        accepted[i],
        file_events(entries, accepted)[j] == file_event(
            entries[i]->Ok_0.file_name->0@,
            entries[i]->Ok_0.path@,
        ),
    decreases entries.len(),
{
    let front = entries.drop_last();
    let before = file_events(front, accepted);
    if j < before.len() {
        assert(file_events(entries, accepted)[j] == before[j]);
        let i = lemma_file_event_origin(front, accepted, j);
        assert(front[i] == entries[i]);
        i
    } else {
        entries.len() - 1
    }
}

/// The event of a file that is accepted.
proof fn lemma_file_has_event(
    entries: Seq<Result<LocalEntry, String>>,
    accepted: Seq<bool>,
    i: int,
) -> (j: int)
    requires
        accepted.len() >= entries.len(),
        0 <= i < entries.len(),
        entries[i] is Ok,
        entries[i]->Ok_0.is_file,
        entries[i]->Ok_0.file_name is Some,
        accepted[i],
    ensures
        0 <= j < file_events(entries, accepted).len(),
        file_events(entries, accepted)[j] == file_event(
            entries[i]->Ok_0.file_name->0@,
            entries[i]->Ok_0.path@,
        ),
    decreases entries.len(),
{
    let front = entries.drop_last();
    let before = file_events(front, accepted);
    if i < front.len() {
        assert(front[i] == entries[i]);
        let j = lemma_file_has_event(front, accepted, i);
        assert(file_events(entries, accepted)[j] == before[j]);
        j
    } else {
        before.len() as int
    }
}

/// A poll for local files asks for the directory that the configuration names.
pub proof fn law_directory_question(
    path: String,
    pattern: String,
    token: &str,
    trigger: BuiltTrigger,
    repos: Vec<RepoConfig>,
    queries: Vec<Query>,
)
    requires
        call_ensures(
            TriggerConfig::build,
            (&TriggerConfig::LocalFile { path, pattern }, token),
            trigger,
        ),
        call_ensures(<BuiltTrigger as Trigger>::poll, (&trigger, &repos), queries),
    ensures
        queries@.len() == 1,
        queries@[0] is Directory,
        queries@[0]->path@ == path@,
{
    assert(query_views(queries@).len() == queries@.len());
    assert(query_views(queries@)[0] == queries@[0]@);
}

/// Each event of a poll for local files stems from a regular file of the
/// directory whose name is text and matches the pattern that is configured. The
/// name alone is held against the pattern, and the key and the label are made
/// of it; the path goes into a template variable only.
pub proof fn law_file_event_tells_its_file(
    path: String,
    pattern: String,
    token: &str,
    trigger: BuiltTrigger,
    repos: Vec<RepoConfig>,
    replies: Vec<Reply>,
    entries: Vec<Result<LocalEntry, String>>,
    events: Result<Vec<TriggerEvent>, String>,
    j: int,
)
    requires
        call_ensures(
            TriggerConfig::build,
            (&TriggerConfig::LocalFile { path, pattern }, token),
            trigger,
        ),
        replies@ == seq![Reply::Directory(LocalListing::Entries(entries))],
        call_ensures(<BuiltTrigger as Trigger>::events, (&trigger, &repos, &replies), events),
        events is Ok,
        0 <= j < events->Ok_0@.len(),
    ensures
        exists|i: int|
            {
                let entry = #[trigger] entries@[i];
                let name = entry->Ok_0.file_name->0@;
                let event = events->Ok_0@[j];
                &&& 0 <= i < entries@.len()
                &&& matching_file(entry, pattern@)
                &&& event.owner@ == "local"@
                &&& event.repo@ == "local"@
                &&& event.key@ == name
                &&& event.label@ == "local:"@ + name
                &&& event.workspace_id@ == file_stem(name)
                &&& event.number == 0
                &&& event.variables@ == seq![
                    ("file_name"@, name),
                    ("file_path"@, entry->Ok_0.path@),
                ]
            },
{
    let found = event_views(events->Ok_0@);
    assert(found[j] == events->Ok_0@[j]@);
    let accepted = accepted_entries(entries@, pattern@);
    let i = lemma_file_event_origin(entries@, accepted, j);
    assert(accepted[i] == accepts_entry(pattern@, entries@[i]));
    assert(matching_file(entries@[i], pattern@));
}

/// Every regular file of a directory whose name is text and matches the pattern
/// that is configured gets an event of its name, if all entries can be read.
pub proof fn law_matching_file_gets_its_event(
    path: String,
    pattern: String,
    token: &str,
    trigger: BuiltTrigger,
    repos: Vec<RepoConfig>,
    replies: Vec<Reply>,
    entries: Vec<Result<LocalEntry, String>>,
    events: Result<Vec<TriggerEvent>, String>,
    i: int,
)
    requires
        call_ensures(
            TriggerConfig::build,
            (&TriggerConfig::LocalFile { path, pattern }, token),
            trigger,
        ),
        replies@ == seq![Reply::Directory(LocalListing::Entries(entries))],
        call_ensures(<BuiltTrigger as Trigger>::events, (&trigger, &repos, &replies), events),
        events is Ok,
        0 <= i < entries@.len(),
        matching_file(entries@[i], pattern@),
    ensures
        exists|j: int|
            0 <= j < events->Ok_0@.len() && (#[trigger] events->Ok_0@[j]).key@
                == entries@[i]->Ok_0.file_name->0@ && events->Ok_0@[j].variables@[1] == (
                "file_path"@,
                entries@[i]->Ok_0.path@,
            ),
{
    let found = event_views(events->Ok_0@);
    let accepted = accepted_entries(entries@, pattern@);
    assert(accepted[i] == accepts_entry(pattern@, entries@[i]));
    let j = lemma_file_has_event(entries@, accepted, i);
    assert(found[j] == events->Ok_0@[j]@);
}

/// When a poll for local files goes through: if the directory is missing, or if
/// the pattern is one and the directory and all its entries can be read.
/// Otherwise its error says which of these fails.
pub proof fn law_when_a_directory_can_be_polled(
    trigger: LocalFileTrigger,
    listing: LocalListing,
    events: Result<Vec<TriggerEvent>, String>,
)
    requires
        call_ensures(LocalFileTrigger::directory_events, (&trigger, &listing), events),
    ensures
        listing is Missing ==> events is Ok && events->Ok_0@.len() == 0,
        !(listing is Missing) && trigger.pattern@ != "*"@ && glob_complaint(trigger.pattern@)
            is Some ==> events is Err && events->Err_0@ == "invalid glob pattern '"@
            + trigger.pattern@ + "': "@ + glob_complaint(trigger.pattern@)->0,
        trigger.pattern@ == "*"@ || glob_complaint(trigger.pattern@) is None ==> (match listing {
            LocalListing::Missing => true,
            LocalListing::Unreadable(e) => events is Err && events->Err_0@ == e@,
            LocalListing::Entries(entries) => {
                &&& events is Ok <==> forall|i: int|
                    0 <= i < entries@.len() ==> #[trigger] entries@[i] is Ok
                &&& events is Err ==> exists|i: int|
                    {
                        &&& 0 <= i < entries@.len()
                        &&& #[trigger] entries@[i] is Err
                        &&& entries@[i]->Err_0@ == events->Err_0@
                        &&& forall|k: int| 0 <= k < i ==> #[trigger] entries@[k] is Ok
                    }
            },
        }),
{
    if let LocalListing::Missing = listing {
        assert(event_views(events->Ok_0@).len() == 0);
    }
    if let LocalListing::Entries(entries) = listing {
        lemma_where_it_fails(entries@);
    }
}

/// Whether, and where, an entry is unreadable for the first time.
proof fn lemma_where_it_fails(entries: Seq<Result<LocalEntry, String>>)
    ensures
        first_failure(entries) is None <==> forall|i: int|
            0 <= i < entries.len() ==> #[trigger] entries[i] is Ok,
        first_failure(entries) is Some ==> exists|i: int|
            {
                &&& 0 <= i < entries.len()
                &&& #[trigger] entries[i] is Err
                &&& entries[i]->Err_0@ == first_failure(entries)->0
                &&& forall|k: int| 0 <= k < i ==> #[trigger] entries[k] is Ok
            },
    decreases entries.len(),
{
    if entries.len() > 0 && entries[0] is Ok {
        let rest = entries.skip(1);
        lemma_where_it_fails(rest);
        if first_failure(entries) is None {
            assert forall|i: int| 0 <= i < entries.len() implies #[trigger] entries[i] is Ok by {
                if i > 0 {
                    assert(rest[i - 1] is Ok);
                }
            }
        } else {
            let i = choose|i: int|
                {
                    &&& 0 <= i < rest.len()
                    &&& #[trigger] rest[i] is Err
                    &&& rest[i]->Err_0@ == first_failure(rest)->0
                    &&& forall|k: int| 0 <= k < i ==> #[trigger] rest[k] is Ok
                };
            assert(entries[i + 1] is Err);
            assert forall|k: int| 0 <= k < i + 1 implies #[trigger] entries[k] is Ok by {
                if k > 0 {
                    assert(rest[k - 1] is Ok);
                }
            }
        }
    } else if entries.len() > 0 {
        assert(entries[0] is Err);
    }
}

/// The entries are the same but for where they are.
pub open spec fn same_but_for_path(
    a: Seq<Result<LocalEntry, String>>,
    b: Seq<Result<LocalEntry, String>>,
) -> bool {
    a.len() == b.len() && forall|i: int|
        0 <= i < a.len() ==> #[trigger] a[i] is Ok && b[i] is Ok && a[i]->Ok_0.is_file
            == b[i]->Ok_0.is_file && opt_view(a[i]->Ok_0.file_name) == opt_view(
            b[i]->Ok_0.file_name,
        )
}

proof fn lemma_moved_files(
    a: Seq<Result<LocalEntry, String>>,
    b: Seq<Result<LocalEntry, String>>,
    accepted: Seq<bool>,
)
    requires
        same_but_for_path(a, b),
    ensures
        file_events(a, accepted).len() == file_events(b, accepted).len(),
        forall|j: int|
            0 <= j < file_events(a, accepted).len() ==> (#[trigger] file_events(a, accepted)[j]).key
                == file_events(b, accepted)[j].key && file_events(a, accepted)[j].workspace_id
                == file_events(b, accepted)[j].workspace_id,
    decreases a.len(),
{
    if a.len() > 0 {
        let (x, y) = (a.drop_last(), b.drop_last());
        assert forall|i: int| 0 <= i < x.len() implies #[trigger] x[i] is Ok && y[i] is Ok
            && x[i]->Ok_0.is_file == y[i]->Ok_0.is_file && opt_view(x[i]->Ok_0.file_name)
            == opt_view(y[i]->Ok_0.file_name) by {
            assert(a[i] is Ok);
        }
        lemma_moved_files(x, y, accepted);
        assert(a[a.len() - 1] is Ok);
        let (p, q) = (file_events(a, accepted), file_events(b, accepted));
        assert forall|j: int| 0 <= j < p.len() implies (#[trigger] p[j]).key == q[j].key
            && p[j].workspace_id == q[j].workspace_id by {
            if j < file_events(x, accepted).len() {
                assert(file_events(x, accepted)[j].key == file_events(y, accepted)[j].key);
            }
        }
    }
}

/// Where a directory is does not matter: the same files in another directory
/// give events with the same keys and workspaces, in the same order.
pub proof fn law_directory_does_not_matter(
    trigger: LocalFileTrigger,
    entries: Vec<Result<LocalEntry, String>>,
    other_entries: Vec<Result<LocalEntry, String>>,
    events: Result<Vec<TriggerEvent>, String>,
    other_events: Result<Vec<TriggerEvent>, String>,
)
    requires
        same_but_for_path(entries@, other_entries@),
        call_ensures(
            LocalFileTrigger::directory_events,
            (&trigger, &LocalListing::Entries(entries)),
            events,
        ),
        call_ensures(
            LocalFileTrigger::directory_events,
            (&trigger, &LocalListing::Entries(other_entries)),
            other_events,
        ),
    ensures
        events is Ok <==> other_events is Ok,
        events is Ok ==> events->Ok_0@.len() == other_events->Ok_0@.len() && forall|j: int|
            0 <= j < events->Ok_0@.len() ==> (#[trigger] events->Ok_0@[j]).key@
                == other_events->Ok_0@[j].key@ && events->Ok_0@[j].workspace_id@
                == other_events->Ok_0@[j].workspace_id@,
{
    let pattern = trigger.pattern@;
    let a = accepted_entries(entries@, pattern);
    let b = accepted_entries(other_entries@, pattern);
    assert forall|i: int| 0 <= i < a.len() implies #[trigger] a[i] == b[i] by {
        assert(entries@[i] is Ok);
    }
    assert(a =~= b);
    lemma_where_it_fails(entries@);
    lemma_where_it_fails(other_entries@);
    assert forall|i: int|
        0 <= i < other_entries@.len() implies #[trigger] other_entries@[i] is Ok by {
        assert(entries@[i] is Ok);
    }
    lemma_moved_files(entries@, other_entries@, a);
    if events is Ok {
        let (p, q) = (event_views(events->Ok_0@), event_views(other_events->Ok_0@));
        assert(p.len() == q.len());
        assert forall|j: int| 0 <= j < events->Ok_0@.len() implies (
        #[trigger] events->Ok_0@[j]).key@ == other_events->Ok_0@[j].key@
            && events->Ok_0@[j].workspace_id@ == other_events->Ok_0@[j].workspace_id@ by {
            assert(p[j] == events->Ok_0@[j]@ && q[j] == other_events->Ok_0@[j]@);
            assert(file_events(entries@, a)[j].key == file_events(other_entries@, a)[j].key);
        }
    }
}

// ---------------------------------------------------------------------------
// Building
// ---------------------------------------------------------------------------

/// The trigger that a configuration describes, ready to poll.
pub enum BuiltTrigger {
    IssueAssigned(GithubIssueAssignedTrigger),
    PrReview(GithubPrReviewTrigger),
    LocalFile(LocalFileTrigger),
}

impl Trigger for BuiltTrigger {
    open spec fn trigger_name(&self) -> Seq<char> {
        match *self {
            BuiltTrigger::IssueAssigned(t) => t.trigger_name(),
            BuiltTrigger::PrReview(t) => t.trigger_name(),
            BuiltTrigger::LocalFile(t) => t.trigger_name(),
        }
    }

    open spec fn asked(&self, repos: Seq<RepoConfig>) -> Seq<QueryModel> {
        match *self {
            BuiltTrigger::IssueAssigned(t) => t.asked(repos),
            BuiltTrigger::PrReview(t) => t.asked(repos),
            BuiltTrigger::LocalFile(t) => t.asked(repos),
        }
    }

    open spec fn answered(&self, repos: Seq<RepoConfig>, replies: Seq<Reply>) -> bool {
        match *self {
            BuiltTrigger::IssueAssigned(t) => t.answered(repos, replies),
            BuiltTrigger::PrReview(t) => t.answered(repos, replies),
            BuiltTrigger::LocalFile(t) => t.answered(repos, replies),
        }
    }

    open spec fn found(
        &self,
        repos: Seq<RepoConfig>,
        replies: Seq<Reply>,
        events: Result<Vec<TriggerEvent>, String>,
    ) -> bool {
        match *self {
            BuiltTrigger::IssueAssigned(t) => t.found(repos, replies, events),
            BuiltTrigger::PrReview(t) => t.found(repos, replies, events),
            BuiltTrigger::LocalFile(t) => t.found(repos, replies, events),
        }
    }

    fn name(&self) -> (name: &str) {
        match self {
            BuiltTrigger::IssueAssigned(t) => t.name(),
            BuiltTrigger::PrReview(t) => t.name(),
            BuiltTrigger::LocalFile(t) => t.name(),
        }
    }

    fn poll(&self, repos: &Vec<RepoConfig>) -> (queries: Vec<Query>) {
        match self {
            BuiltTrigger::IssueAssigned(t) => t.poll(repos),
            BuiltTrigger::PrReview(t) => t.poll(repos),
            BuiltTrigger::LocalFile(t) => t.poll(repos),
        }
    }

    fn events(&self, repos: &Vec<RepoConfig>, replies: &Vec<Reply>) -> (events: Result<
        Vec<TriggerEvent>,
        String,
    >) {
        match self {
            BuiltTrigger::IssueAssigned(t) => t.events(repos, replies),
            BuiltTrigger::PrReview(t) => t.events(repos, replies),
            BuiltTrigger::LocalFile(t) => t.events(repos, replies),
        }
    }
}

/// `trigger` is the one that a configuration describes.
pub open spec fn trigger_built(config: TriggerConfig, token: Seq<char>, trigger: BuiltTrigger) -> bool {
    match config {
        TriggerConfig::GithubIssueAssigned { assigned_to, allowed_users } => trigger matches
            BuiltTrigger::IssueAssigned(t) && t.assigned_to@ == assigned_to@ && t.allowed_users@
            == allowed_users@ && t.token@ == token,
        TriggerConfig::GithubPrReview { allowed_users } => trigger matches BuiltTrigger::PrReview(t)
            && t.allowed_users@ == allowed_users@ && t.token@ == token,
        TriggerConfig::LocalFile { path, pattern } => trigger matches BuiltTrigger::LocalFile(t)
            && t.directory@ == path@ && t.pattern@ == pattern@,
    }
}

impl TriggerConfig {
    /// The trigger that this configuration describes. GitHub triggers
    /// authenticate with the token; others have no use for it.
    pub fn build(&self, token: &str) -> (trigger: BuiltTrigger)
        ensures
            trigger_built(*self, token@, trigger),
    {
        match self {
            TriggerConfig::GithubIssueAssigned { assigned_to, allowed_users } => {
                BuiltTrigger::IssueAssigned(
                    GithubIssueAssignedTrigger {
                        assigned_to: assigned_to.clone(),
                        allowed_users: copy_strings(allowed_users),
                        token: token.to_owned(),
                    },
                )
            },
            TriggerConfig::GithubPrReview { allowed_users } => BuiltTrigger::PrReview(
                GithubPrReviewTrigger {
                    allowed_users: copy_strings(allowed_users),
                    token: token.to_owned(),
                },
            ),
            TriggerConfig::LocalFile { path, pattern } => BuiltTrigger::LocalFile(
                LocalFileTrigger { directory: path.clone(), pattern: pattern.clone() },
            ),
        }
    }
}

/// A trigger is built of what its configuration says: whom issues are assigned
/// to, whose issues and reviews count, and which files of which directory. The
/// GitHub triggers hold the token. Each kind of trigger has its name.
pub proof fn law_trigger_keeps_its_configuration(
    config: TriggerConfig,
    token: &str,
    trigger: BuiltTrigger,
    name: &str,
)
    requires
        call_ensures(TriggerConfig::build, (&config, token), trigger),
        call_ensures(<BuiltTrigger as Trigger>::name, (&trigger,), name),
    ensures
        config matches TriggerConfig::GithubIssueAssigned { assigned_to, allowed_users } ==> {
            &&& name@ == "github_issue_assigned"@
            &&& trigger matches BuiltTrigger::IssueAssigned(t) && t.assigned_to@ == assigned_to@
                && views(t.allowed_users@) == views(allowed_users@) && t.token@ == token@
        },
        config matches TriggerConfig::GithubPrReview { allowed_users } ==> {
            &&& name@ == "github_pr_review"@
            &&& trigger matches BuiltTrigger::PrReview(t) && views(t.allowed_users@) == views(
                allowed_users@,
            ) && t.token@ == token@
        },
        config matches TriggerConfig::LocalFile { path, pattern } ==> {
            &&& name@ == "local_file"@
            &&& trigger matches BuiltTrigger::LocalFile(t) && t.directory@ == path@ && t.pattern@
                == pattern@
        },
{
}

/// The run of a workflow knows the event by what the trigger found: its
/// repository, number, workspace, label and template variables.
pub proof fn law_event_key_keeps_the_event(event: TriggerEvent, key: EventKey, label: String)
    requires
        call_ensures(TriggerEvent::to_event_key, (&event,), key),
        call_ensures(EventKey::to_string, (&key,), label),
    ensures
        key.owner@ == event.owner@,
        key.repo@ == event.repo@,
        key.number == event.number,
        key.workspace_id@ == event.workspace_id@,
        key.variables@ == event.variables@,
        label@ == event.label@,
{
}

/// A built trigger asks and finds what the trigger that it holds asks and finds.
pub proof fn law_built_trigger_does_what_it_holds(
    issues: GithubIssueAssignedTrigger,
    reviews: GithubPrReviewTrigger,
    files: LocalFileTrigger,
    repos: Vec<RepoConfig>,
    replies: Vec<Reply>,
    built_events: Result<Vec<TriggerEvent>, String>,
    events: Result<Vec<TriggerEvent>, String>,
    built_queries: Vec<Query>,
    queries: Vec<Query>,
)
    ensures
        call_ensures(
            <BuiltTrigger as Trigger>::events,
            (&BuiltTrigger::IssueAssigned(issues), &repos, &replies),
            built_events,
        ) && call_ensures(
            <GithubIssueAssignedTrigger as Trigger>::events,
            (&issues, &repos, &replies),
            events,
        ) ==> events_model(built_events) == events_model(events),
        call_ensures(
            <BuiltTrigger as Trigger>::events,
            (&BuiltTrigger::PrReview(reviews), &repos, &replies),
            built_events,
        ) && call_ensures(
            <GithubPrReviewTrigger as Trigger>::events,
            (&reviews, &repos, &replies),
            events,
        ) ==> events_model(built_events) == events_model(events),
        replies@.len() == 1 && replies@[0] is Directory && call_ensures(
            <BuiltTrigger as Trigger>::events,
            (&BuiltTrigger::LocalFile(files), &repos, &replies),
            built_events,
        ) && call_ensures(
            LocalFileTrigger::directory_events,
            (&files, &replies@[0]->Directory_0),
            events,
        ) ==> events_model(built_events) == events_model(events),
        call_ensures(
            <BuiltTrigger as Trigger>::poll,
            (&BuiltTrigger::IssueAssigned(issues), &repos),
            built_queries,
        ) && call_ensures(<GithubIssueAssignedTrigger as Trigger>::poll, (&issues, &repos), queries)
            ==> query_views(built_queries@) == query_views(queries@),
        call_ensures(
            <BuiltTrigger as Trigger>::poll,
            (&BuiltTrigger::PrReview(reviews), &repos),
            built_queries,
        ) && call_ensures(<GithubPrReviewTrigger as Trigger>::poll, (&reviews, &repos), queries)
            ==> query_views(built_queries@) == query_views(queries@),
{
}

/// The pattern that is used unless the configuration gives one accepts every
/// file whose name is text.
pub proof fn law_default_pattern_accepts_every_file(pattern: String, entry: LocalEntry)
    requires
        call_ensures(default_glob, (), pattern),
        entry.is_file,
        entry.file_name is Some,
    ensures
        matching_file(Ok(entry), pattern@),
{
}

proof fn lemma_accepted_front(
    entries: Seq<Result<LocalEntry, String>>,
    accepted: Seq<bool>,
    other: Seq<bool>,
)
    requires
        forall|i: int| 0 <= i < entries.len() ==> accepted[i] == #[trigger] other[i],
    ensures
        file_events(entries, accepted) == file_events(entries, other),
    decreases entries.len(),
{
    if entries.len() > 0 {
        lemma_accepted_front(entries.drop_last(), accepted, other);
        assert(accepted[entries.len() - 1] == other[entries.len() - 1]);
    }
}

/// One more file in a directory adds one event behind the others if it matches
/// the pattern, and none otherwise; the other events stay as they are.
pub proof fn law_one_more_file(
    trigger: LocalFileTrigger,
    entries: Vec<Result<LocalEntry, String>>,
    entry: Result<LocalEntry, String>,
    more_entries: Vec<Result<LocalEntry, String>>,
    events: Result<Vec<TriggerEvent>, String>,
    more_events: Result<Vec<TriggerEvent>, String>,
)
    requires
        more_entries@ == entries@.push(entry),
        call_ensures(
            LocalFileTrigger::directory_events,
            (&trigger, &LocalListing::Entries(entries)),
            events,
        ),
        call_ensures(
            LocalFileTrigger::directory_events,
            (&trigger, &LocalListing::Entries(more_entries)),
            more_events,
        ),
        events is Ok,
        more_events is Ok,
    ensures
        !matching_file(entry, trigger.pattern@) ==> event_views(more_events->Ok_0@) == event_views(
            events->Ok_0@,
        ),
        matching_file(entry, trigger.pattern@) ==> more_events->Ok_0@.len()
            == events->Ok_0@.len() + 1 && event_views(more_events->Ok_0@).drop_last()
            == event_views(events->Ok_0@) && more_events->Ok_0@.last().key@
            == entry->Ok_0.file_name->0@,
{
    let (a, b) = (entries@, more_entries@);
    let x = accepted_entries(a, trigger.pattern@);
    let y = accepted_entries(b, trigger.pattern@);
    assert(b.drop_last() =~= a);
    assert(b.last() == entry);
    assert forall|i: int| 0 <= i < a.len() implies x[i] == #[trigger] y[i] by {
        assert(b[i] == a[i]);
    }
    lemma_accepted_front(a, x, y);
    assert(y[b.len() - 1] == accepts_entry(trigger.pattern@, entry));
    let (p, q) = (event_views(events->Ok_0@), event_views(more_events->Ok_0@));
    assert(p.len() == events->Ok_0@.len() && q.len() == more_events->Ok_0@.len());
    if matching_file(entry, trigger.pattern@) {
        assert(q.drop_last() =~= p);
        assert(q.last() == more_events->Ok_0@.last()@);
    }
}

proof fn lemma_single_listing(repo: RepoConfig, issues: Vec<Issue>)
    ensures
        issue_events(seq![repo], 1, seq![Reply::Issues(Ok(issues))]) == firsts(
            issues@.map_values(|i: Issue| i.number),
        ).map_values(|n: u64| issue_event(repo, n)),
{
    let repos = seq![repo];
    let replies = seq![Reply::Issues(Ok(issues))];
    assert(repos.drop_last() =~= Seq::<RepoConfig>::empty());
    assert(replies.skip(0) =~= replies);
    assert(replies.drop_last() =~= Seq::<Reply>::empty());
    assert(all_numbers(replies.drop_last()) =~= Seq::<u64>::empty());
    let numbers = issues@.map_values(|i: Issue| i.number);
    assert(all_numbers(replies) =~= numbers);
    assert(issue_events(repos.drop_last(), 1, replies.take(0)) =~= Seq::<EventModel>::empty());
    assert(issue_events(repos, 1, replies) =~= repo_issue_events(repo, replies));
}

/// One more issue at the end of the listing of a repository adds one event
/// behind the others, unless the issue was listed before; the other events stay
/// as they are.
pub proof fn law_one_more_issue(
    trigger: GithubIssueAssignedTrigger,
    repos: Vec<RepoConfig>,
    issues: Vec<Issue>,
    issue: Issue,
    more_issues: Vec<Issue>,
    replies: Vec<Reply>,
    more_replies: Vec<Reply>,
    events: Result<Vec<TriggerEvent>, String>,
    more_events: Result<Vec<TriggerEvent>, String>,
)
    requires
        repos@.len() == 1,
        trigger.allowed_users@.len() == 1,
        more_issues@ == issues@.push(issue),
        replies@ == seq![Reply::Issues(Ok(issues))],
        more_replies@ == seq![Reply::Issues(Ok(more_issues))],
        call_ensures(
            <GithubIssueAssignedTrigger as Trigger>::events,
            (&trigger, &repos, &replies),
            events,
        ),
        call_ensures(
            <GithubIssueAssignedTrigger as Trigger>::events,
            (&trigger, &repos, &more_replies),
            more_events,
        ),
    ensures
        (exists|i: int| 0 <= i < issues@.len() && (#[trigger] issues@[i]).number == issue.number)
            ==> event_views(more_events->Ok_0@) == event_views(events->Ok_0@),
        (forall|i: int| 0 <= i < issues@.len() ==> (#[trigger] issues@[i]).number != issue.number)
            ==> more_events->Ok_0@.len() == events->Ok_0@.len() + 1 && event_views(
            more_events->Ok_0@,
        ).drop_last() == event_views(events->Ok_0@) && more_events->Ok_0@.last().number
            == issue.number,
{
    let repo = repos@[0];
    assert(repos@ =~= seq![repo]);
    lemma_single_listing(repo, issues);
    lemma_single_listing(repo, more_issues);
    let a = issues@.map_values(|i: Issue| i.number);
    let b = more_issues@.map_values(|i: Issue| i.number);
    assert(b.drop_last() =~= a);
    assert(b.last() == issue.number);
    lemma_firsts(a);
    let make = |n: u64| issue_event(repo, n);
    let (p, q) = (event_views(events->Ok_0@), event_views(more_events->Ok_0@));
    assert(p.len() == events->Ok_0@.len() && q.len() == more_events->Ok_0@.len());
    if exists|i: int| 0 <= i < issues@.len() && (#[trigger] issues@[i]).number == issue.number {
        let i = choose|i: int|
            0 <= i < issues@.len() && (#[trigger] issues@[i]).number == issue.number;
        assert(a[i] == issue.number);
        assert(firsts(a).contains(issue.number));
    } else {
        if firsts(a).contains(issue.number) {
            let i = choose|i: int| 0 <= i < a.len() && a[i] == issue.number;
            assert(issues@[i].number == issue.number);
        }
        assert(firsts(b) == firsts(a).push(issue.number));
        assert(q =~= p.push(make(issue.number)));
        assert(q.drop_last() =~= p);
        assert(q.last() == more_events->Ok_0@.last()@);
    }
}

/// One more review at the end of the listing of a repository adds one event
/// behind the others if its author is allowed and no wanted review before it has
/// its id, and none otherwise; the other events stay as they are.
pub proof fn law_one_more_review(
    trigger: GithubPrReviewTrigger,
    repos: Vec<RepoConfig>,
    reviews: Vec<PrReview>,
    review: PrReview,
    more_reviews: Vec<PrReview>,
    replies: Vec<Reply>,
    more_replies: Vec<Reply>,
    events: Result<Vec<TriggerEvent>, String>,
    more_events: Result<Vec<TriggerEvent>, String>,
)
    requires
        repos@.len() == 1,
        more_reviews@ == reviews@.push(review),
        replies@ == seq![Reply::Reviews(Ok(reviews))],
        more_replies@ == seq![Reply::Reviews(Ok(more_reviews))],
        call_ensures(
            <GithubPrReviewTrigger as Trigger>::events,
            (&trigger, &repos, &replies),
            events,
        ),
        call_ensures(
            <GithubPrReviewTrigger as Trigger>::events,
            (&trigger, &repos, &more_replies),
            more_events,
        ),
    ensures
        ({
            let allowed = views(trigger.allowed_users@);
            let new = allowed.contains(review.user@) && forall|i: int|
                0 <= i < reviews@.len() && allowed.contains((#[trigger] reviews@[i]).user@)
                    ==> reviews@[i].id != review.id;
            &&& !new ==> event_views(more_events->Ok_0@) == event_views(events->Ok_0@)
            &&& new ==> more_events->Ok_0@.len() == events->Ok_0@.len() + 1 && event_views(
                more_events->Ok_0@,
            ).drop_last() == event_views(events->Ok_0@) && more_events->Ok_0@.last().number
                == review.pr_number
        }),
{
    let allowed = views(trigger.allowed_users@);
    let repo = repos@[0];
    let make = |r: (u64, u64)| review_event(repo, r.0, r.1);
    let (a, b) = (wanted_reviews(reviews@, allowed), wanted_reviews(more_reviews@, allowed));
    assert(more_reviews@.drop_last() =~= reviews@);
    assert(more_reviews@.last() == review);
    law_reviews_are_wanted_once(reviews@, allowed);
    assert(repos@.drop_last() =~= Seq::<RepoConfig>::empty());
    assert(review_events(repos@.drop_last(), allowed, replies@.drop_last()) =~= Seq::<
        EventModel,
    >::empty());
    assert(review_events(repos@.drop_last(), allowed, more_replies@.drop_last()) =~= Seq::<
        EventModel,
    >::empty());
    let (p, q) = (event_views(events->Ok_0@), event_views(more_events->Ok_0@));
    assert(p =~= a.map_values(make));
    assert(q =~= b.map_values(make));
    assert(p.len() == events->Ok_0@.len() && q.len() == more_events->Ok_0@.len());
    let new = allowed.contains(review.user@) && forall|i: int|
        0 <= i < reviews@.len() && allowed.contains((#[trigger] reviews@[i]).user@)
            ==> reviews@[i].id != review.id;
    if new {
        if ids(a).contains(review.id) {
            let k = choose|k: int| 0 <= k < ids(a).len() && ids(a)[k] == review.id;
            assert(a.contains(a[k]));
            let i = choose|i: int|
                0 <= i < reviews@.len() && allowed.contains((#[trigger] reviews@[i]).user@) && a[k]
                    == (reviews@[i].pr_number, reviews@[i].id);
            assert(reviews@[i].id != review.id);
        }
        assert(b == a.push((review.pr_number, review.id)));
        assert(q =~= p.push(make((review.pr_number, review.id))));
        assert(q.drop_last() =~= p);
        assert(q.last() == more_events->Ok_0@.last()@);
    } else if allowed.contains(review.user@) {
        let i = choose|i: int|
            0 <= i < reviews@.len() && allowed.contains((#[trigger] reviews@[i]).user@)
                && reviews@[i].id == review.id;
        assert(ids(a).contains(reviews@[i].id));
    }
}

} // verus!
