//! The GitHub API: rate limits, errors, and listings that come in pages. The
//! requests are sent by the caller; what is asked next, and what becomes of
//! the answers, is decided here.
use vstd::prelude::*;

use crate::clock::unix_now;
use crate::http::{is_success, status_line, status_text, valid_status};
use crate::text::{
    ascii_lowered, chars_of, contains, contains_str, decimal, decimal_u64, law_decimal_parses_back,
    matches_at, occurs_at, opt_view, parse_number, parsed_number,
};

verus! {

// ---------------------------------------------------------------------------
// Rate limits
// ---------------------------------------------------------------------------

/// Below this number of remaining requests, the next one waits for the reset.
pub const RATE_LIMIT_LOW_THRESHOLD: u32 = 5;

/// The shortest wait, in seconds.
pub const MIN_BACKOFF_SECS: u64 = 1;

/// The longest wait, in seconds.
pub const MAX_BACKOFF_SECS: u64 = 300;

/// How long to wait at `now` for a reset, within the bounds on waits; nothing
/// if the time of the reset is not known.
pub open spec fn backoff(reset: Option<u64>, now: u64) -> Option<u64> {
    match reset {
        None => None,
        Some(r) => Some(
            if r <= now {
                MIN_BACKOFF_SECS
            } else if r - now > MAX_BACKOFF_SECS {
                MAX_BACKOFF_SECS
            } else {
                (r - now) as u64
            },
        ),
    }
}

/// How long to wait at `now` for a reset at `reset_epoch`, both in seconds
/// since the start of 1970.
pub fn calculate_sleep_at(reset_epoch: Option<u64>, now: u64) -> (wait: Option<u64>)
    ensures
        wait == backoff(reset_epoch, now),
{
    match reset_epoch {
        None => None,
        Some(reset) => {
            if reset <= now {
                return Some(MIN_BACKOFF_SECS);
            }
            let secs: u64 = reset - now;
            if secs > MAX_BACKOFF_SECS {
                Some(MAX_BACKOFF_SECS)
            } else {
                Some(secs)
            }
        },
    }
}

/// How long to wait from now on for a reset.
pub fn calculate_sleep_until_reset(reset_epoch: Option<u64>) -> (wait: Option<u64>)
    ensures
        exists|now: u64| wait == #[trigger] backoff(reset_epoch, now),
        wait is Some == reset_epoch is Some,
        wait matches Some(secs) ==> MIN_BACKOFF_SECS <= secs <= MAX_BACKOFF_SECS,
{
    let now: u64 = unix_now();
    calculate_sleep_at(reset_epoch, now)
}

/// Every wait lies within the bounds, and never goes beyond the reset by more
/// than the shortest wait.
pub proof fn law_waits_are_bounded(reset: u64, now: u64)
    ensures
        backoff(Some(reset), now) is Some,
        MIN_BACKOFF_SECS <= backoff(Some(reset), now)->0 <= MAX_BACKOFF_SECS,
        now < reset ==> now + backoff(Some(reset), now)->0 <= reset,
{
}

/// What is known of an answer before its body is used. The body is read only
/// if the request was forbidden.
pub struct ApiReply {
    pub status: u16,
    /// The `x-ratelimit-remaining` header.
    pub remaining: Option<String>,
    /// The `x-ratelimit-reset` header.
    pub reset: Option<String>,
    pub body: String,
    /// What the body is read as, if it is the body of an error.
    pub error: Option<GithubErrorResponse>,
}

/// An answer as a mathematical value.
pub struct ReplyModel {
    pub status: u16,
    pub remaining: Option<Seq<char>>,
    pub reset: Option<Seq<char>>,
    pub body: Seq<char>,
    /// The message of the error, if there is one.
    pub message: Option<Seq<char>>,
}

impl View for ApiReply {
    type V = ReplyModel;

    open spec fn view(&self) -> ReplyModel {
        ReplyModel {
            status: self.status,
            remaining: opt_view(self.remaining),
            reset: opt_view(self.reset),
            body: self.body@,
            message: error_message(self.error),
        }
    }
}

/// An answer that may be absent, as a mathematical value.
pub open spec fn reply_view(reply: Option<ApiReply>) -> Option<ReplyModel> {
    match reply {
        Some(r) => Some(r@),
        None => None,
    }
}

/// The number that a header holds, if it is there and holds one.
pub open spec fn header_number(header: Option<Seq<char>>, max: nat) -> Option<nat> {
    match header {
        Some(text) => parsed_number(text, max),
        None => None,
    }
}

fn read_header(header: &Option<String>, max: u64) -> (number: Option<u64>)
    ensures
        match number {
            Some(n) => header_number(opt_view(*header), max as nat) == Some(n as nat),
            None => header_number(opt_view(*header), max as nat) is None,
        },
        number matches Some(n) ==> n <= max,
{
    match header {
        Some(text) => parse_number(text.as_str(), max),
        None => None,
    }
}

/// How many requests are left according to an answer.
pub open spec fn reply_remaining(reply: ReplyModel) -> Option<nat> {
    header_number(reply.remaining, u32::MAX as nat)
}

/// When the rate limit is reset according to an answer.
pub open spec fn reply_reset(reply: ReplyModel) -> Option<u64> {
    match header_number(reply.reset, u64::MAX as nat) {
        Some(n) => Some(n as u64),
        None => None,
    }
}

/// A forbidden request hit the rate limit: the body says so, or no requests
/// are left.
pub open spec fn rate_limited(reply: ReplyModel) -> bool {
    contains(reply.body, "rate limit"@) || contains(reply.body, "abuse"@) || reply_remaining(reply)
        == Some(0nat)
}

/// Which try of a request it is.
#[derive(Clone, Copy, Debug, PartialEq, Eq, Structural)]
pub enum Attempt {
    First,
    Retry,
}

/// What is to be done after a try.
pub enum Directive {
    /// Hand the answer out.
    Deliver,
    /// Wait for the given seconds, then hand the answer out.
    SleepThenDeliver(u64),
    /// Wait for the given seconds, then send the request once more.
    SleepThenRetry(u64),
    Fail(String),
}

/// What is to be done, as a mathematical value.
pub enum DirectiveModel {
    Deliver,
    SleepThenDeliver(u64),
    SleepThenRetry(u64),
    Fail(Seq<char>),
}

impl View for Directive {
    type V = DirectiveModel;

    open spec fn view(&self) -> DirectiveModel {
        match *self {
            Directive::Deliver => DirectiveModel::Deliver,
            Directive::SleepThenDeliver(secs) => DirectiveModel::SleepThenDeliver(secs),
            Directive::SleepThenRetry(secs) => DirectiveModel::SleepThenRetry(secs),
            Directive::Fail(e) => DirectiveModel::Fail(e@),
        }
    }
}

/// What is to be done after a try that was answered at `now`, or not at all.
/// A first try that hit the rate limit is repeated after a wait. A success
/// with few requests left is handed out after a wait.
pub open spec fn directive(attempt: Attempt, reply: Option<ReplyModel>, now: u64) -> DirectiveModel {
    match (attempt, reply) {
        (Attempt::First, None) => DirectiveModel::Fail("sending GitHub API request"@),
        (Attempt::Retry, None) => DirectiveModel::Fail(
            "retrying GitHub API request after rate limit backoff"@,
        ),
        (Attempt::Retry, Some(_)) => DirectiveModel::Deliver,
        (Attempt::First, Some(r)) => if r.status == 403 {
            match backoff(reply_reset(r), now) {
                Some(secs) => if rate_limited(r) {
                    DirectiveModel::SleepThenRetry(secs)
                } else {
                    DirectiveModel::Fail(github_error(r.status, r.message))
                },
                None => DirectiveModel::Fail(github_error(r.status, r.message)),
            }
        } else {
            match (reply_remaining(r), backoff(reply_reset(r), now)) {
                (Some(left), Some(secs)) => if 200 <= r.status < 300 && left
                    < RATE_LIMIT_LOW_THRESHOLD {
                    DirectiveModel::SleepThenDeliver(secs)
                } else {
                    DirectiveModel::Deliver
                },
                _ => DirectiveModel::Deliver,
            }
        },
    }
}

/// The number of requests that are left, after an answer or its absence.
pub open spec fn remaining_after(remaining: u32, reply: Option<ReplyModel>) -> u32 {
    match reply {
        Some(r) => match reply_remaining(r) {
            Some(n) => n as u32,
            None => remaining,
        },
        None => remaining,
    }
}

/// A client of the GitHub API.
pub struct GitHubClient {
    pub token: String,
    /// The number of requests that were left when last heard of.
    pub remaining: u32,
}

impl Clone for GitHubClient {
    fn clone(&self) -> (copy: GitHubClient)
        ensures
            copy == *self,
    {
        GitHubClient { token: self.token.clone(), remaining: self.remaining }
    }
}

impl GitHubClient {
    /// A client that authenticates with the given token.
    pub fn new(token: String) -> (client: GitHubClient)
        ensures
            client.token == token,
            client.remaining == u32::MAX,
    {
        GitHubClient { token, remaining: u32::MAX }
    }

    /// The `Authorization` header of a request. The other headers are
    /// `ACCEPT`, `API_VERSION` and `USER_AGENT`.
    pub fn authorization(&self) -> (value: String)
        ensures
            value@ == "Bearer "@ + self.token@,
    {
        "Bearer ".to_string().concat(self.token.as_str())
    }

    /// What is to be done after a try that was answered at `now`, or not at
    /// all. The number of requests that are left is taken note of.
    pub fn send_request_at(
        &mut self,
        attempt: Attempt,
        reply: &Option<ApiReply>,
        now: u64,
    ) -> (next: Directive)
        requires
            reply matches Some(r) ==> valid_status(r.status),
        ensures
            next@ == directive(
                attempt,
                reply_view(*reply),
                now,
            ),
            final(self).token == old(self).token,
            final(self).remaining == remaining_after(
                old(self).remaining,
                reply_view(*reply),
            ),
    {
        let r = match reply {
            None => {
                return match attempt {
                    Attempt::First => Directive::Fail("sending GitHub API request".to_string()),
                    Attempt::Retry => Directive::Fail(
                        "retrying GitHub API request after rate limit backoff".to_string(),
                    ),
                };
            },
            Some(r) => r,
        };
        let left = read_header(&r.remaining, u32::MAX as u64);
        let reset = read_header(&r.reset, u64::MAX);
        assert(reset == reply_reset(r@));
        if let Some(n) = left {
            self.remaining = n as u32;
        }
        if let Attempt::Retry = attempt {
            return Directive::Deliver;
        }
        let wait = calculate_sleep_at(reset, now);
        if r.status == 403 {
            let limited = contains_str(r.body.as_str(), "rate limit") || contains_str(
                r.body.as_str(),
                "abuse",
            ) || left == Some(0u64);
            assert(limited == rate_limited(r@));
            if let Some(secs) = wait {
                if limited {
                    return Directive::SleepThenRetry(secs);
                }
            }
            return Directive::Fail(format_github_error(r.status, &r.error));
        }
        if is_success(r.status) {
            if let Some(n) = left {
                if n < RATE_LIMIT_LOW_THRESHOLD as u64 {
                    if let Some(secs) = wait {
                        return Directive::SleepThenDeliver(secs);
                    }
                }
            }
        }
        Directive::Deliver
    }

    /// What is to be done after a try, as of now.
    pub fn send_request(&mut self, attempt: Attempt, reply: &Option<ApiReply>) -> (next: Directive)
        requires
            reply matches Some(r) ==> valid_status(r.status),
        ensures
            exists|now: u64|
                next@ == #[trigger] directive(
                    attempt,
                    reply_view(*reply),
                    now,
                ),
            final(self).token == old(self).token,
            final(self).remaining == remaining_after(
                old(self).remaining,
                reply_view(*reply),
            ),
    {
        let now: u64 = unix_now();
        self.send_request_at(attempt, reply, now)
    }
}

/// What the client accepts, as a header.
pub const ACCEPT: &'static str = "application/vnd.github+json";

/// The version of the API, as a header.
pub const API_VERSION: &'static str = "2022-11-28";

/// The name of the client, as a header.
pub const USER_AGENT: &'static str = "agent-orchestrator/0.1";

/// A request is sent at most twice: a retry is never followed by another one,
/// nor by a wait.
pub proof fn law_one_retry(reply: Option<ReplyModel>, now: u64)
    ensures
        directive(Attempt::Retry, reply, now) is Deliver || directive(
            Attempt::Retry,
            reply,
            now,
        ) is Fail,
        reply is Some ==> directive(Attempt::Retry, reply, now) is Deliver,
{
}

/// A forbidden request is never handed out as an answer: it is repeated if it
/// hit the rate limit and the reset is known, and fails otherwise.
pub proof fn law_forbidden_is_not_delivered(reply: ReplyModel, now: u64)
    requires
        reply.status == 403,
    ensures
        directive(Attempt::First, Some(reply), now) is SleepThenRetry <==> rate_limited(reply)
            && reply_reset(reply) is Some,
        directive(Attempt::First, Some(reply), now) is Fail <==> !(rate_limited(reply)
            && reply_reset(reply) is Some),
{
}

// ---------------------------------------------------------------------------
// Errors
// ---------------------------------------------------------------------------

/// The body of an error.
pub struct GithubErrorResponse {
    pub message: Option<String>,
}

/// The message of an error, if its body could be read and holds one.
pub open spec fn error_message(error: Option<GithubErrorResponse>) -> Option<Seq<char>> {
    match error {
        Some(e) => opt_view(e.message),
        None => None,
    }
}

/// How an error of the API is reported, given its message.
pub open spec fn github_error(status: u16, message: Option<Seq<char>>) -> Seq<char> {
    match message {
        Some(m) => "GitHub API returned "@ + status_line(status) + ": "@ + m,
        None => "GitHub API returned "@ + status_line(status) + " (body too large or not JSON)"@,
    }
}

/// How an error of the API is reported, given its body, if that could be read.
pub fn format_github_error(status: u16, error: &Option<GithubErrorResponse>) -> (text: String)
    requires
        valid_status(status),
    ensures
        text@ == github_error(status, error_message(*error)),
{
    let start = "GitHub API returned ".to_string().concat(status_text(status).as_str());
    if let Some(e) = error {
        if let Some(m) = &e.message {
            return start.concat(": ").concat(m.as_str());
        }
    }
    start.concat(" (body too large or not JSON)")
}

// ---------------------------------------------------------------------------
// Assigned issues
// ---------------------------------------------------------------------------

/// An issue.
#[derive(Clone, Copy, Debug, PartialEq, Eq, Structural)]
pub struct Issue {
    pub number: u64,
}

/// A listing of assigned issues, as far as it has come.
pub struct IssueListing {
    pub owner: String,
    pub repo: String,
    pub assigned_to: String,
    pub creator: String,
    /// The page that is asked for next.
    pub page: u32,
    /// The issues of the pages so far.
    pub issues: Vec<Issue>,
}

/// Starts to list the open issues of a repository that are assigned to one
/// user and were created by another.
pub fn list_assigned_issues(owner: &str, repo: &str, assigned_to: &str, creator: &str) -> (listing:
    IssueListing)
    ensures
        listing.owner@ == owner@,
        listing.repo@ == repo@,
        listing.assigned_to@ == assigned_to@,
        listing.creator@ == creator@,
        listing.page == 1,
        listing.issues@ == Seq::<Issue>::empty(),
{
    IssueListing {
        owner: owner.to_owned(),
        repo: repo.to_owned(),
        assigned_to: assigned_to.to_owned(),
        creator: creator.to_owned(),
        page: 1,
        issues: Vec::new(),
    }
}

/// The issues so far and the next page, after one more page. An empty page
/// ends the listing.
pub open spec fn page_taken(state: (Seq<Issue>, nat), items: Seq<Issue>) -> (Seq<Issue>, nat) {
    if items.len() == 0 {
        state
    } else {
        (state.0 + items, state.1 + 1)
    }
}

/// The issues and the next page after pages with the given issues.
pub open spec fn issues_after(pages: Seq<Seq<Issue>>) -> (Seq<Issue>, nat)
    decreases pages.len(),
{
    if pages.len() == 0 {
        (Seq::empty(), 1)
    } else {
        page_taken(issues_after(pages.drop_last()), pages.last())
    }
}

impl IssueListing {
    /// The URL of the page that is asked for next.
    pub fn url(&self) -> (url: String)
        ensures
            url@ == "https://api.github.com/repos/"@ + self.owner@ + "/"@ + self.repo@
                + "/issues?state=open&assignee="@ + self.assigned_to@ + "&creator="@ + self.creator@
                + "&per_page=100&page="@ + decimal(self.page as nat),
    {
        "https://api.github.com/repos/".to_string().concat(self.owner.as_str()).concat("/").concat(
            self.repo.as_str(),
        ).concat("/issues?state=open&assignee=").concat(self.assigned_to.as_str()).concat(
            "&creator=",
        ).concat(self.creator.as_str()).concat("&per_page=100&page=").concat(
            decimal_u64(self.page as u64).as_str(),
        )
    }

    /// Takes an answer: its status, its body if it is that of an error, and its
    /// issues if it is a success and they could be read. Says whether the
    /// listing is complete: that is so after an empty page.
    pub fn next(
        &mut self,
        status: u16,
        error: &Option<GithubErrorResponse>,
        parsed: Option<Vec<Issue>>,
    ) -> (complete: Result<bool, String>)
        requires
            valid_status(status),
            old(self).page < u32::MAX,
        ensures
            final(self).owner == old(self).owner,
            final(self).repo == old(self).repo,
            final(self).assigned_to == old(self).assigned_to,
            final(self).creator == old(self).creator,
            match complete {
                Err(e) => {
                    &&& e@ == (if 200 <= status < 300 {
                        "deserializing GitHub issue list"@
                    } else {
                        github_error(status, error_message(*error))
                    })
                    &&& 200 <= status < 300 ==> parsed is None
                    &&& final(self).issues@ == old(self).issues@
                    &&& final(self).page == old(self).page
                },
                Ok(done) => {
                    &&& 200 <= status < 300
                    &&& parsed is Some
                    &&& done == (parsed->0@.len() == 0)
                    &&& (final(self).issues@, final(self).page as nat) == page_taken(
                        (old(self).issues@, old(self).page as nat),
                        parsed->0@,
                    )
                },
            },
    {
        if !is_success(status) {
            return Err(format_github_error(status, error));
        }
        match parsed {
            None => Err("deserializing GitHub issue list".to_string()),
            Some(mut issues) => {
                if issues.len() == 0 {
                    return Ok(true);
                }
                self.issues.append(&mut issues);
                self.page = self.page + 1;
                Ok(false)
            },
        }
    }
}

/// A listing takes in the issues of all pages, in order, and asks for the
/// pages one after the other, starting with the first, until one is empty.
pub proof fn law_listing_takes_every_page(pages: Seq<Seq<Issue>>)
    requires
        forall|i: int| 0 <= i < pages.len() ==> (#[trigger] pages[i]).len() > 0,
    ensures
        issues_after(pages).0 == pages.flatten(),
        issues_after(pages).1 == pages.len() + 1,
    decreases pages.len(),
{
    if pages.len() == 0 {
        assert(pages.flatten() =~= Seq::<Issue>::empty());
    } else {
        let front = pages.drop_last();
        assert forall|i: int| 0 <= i < front.len() implies (#[trigger] front[i]).len() > 0 by {
            assert(front[i] == pages[i]);
        }
        law_listing_takes_every_page(front);
        assert(pages[pages.len() - 1].len() > 0);
        assert(pages =~= front.push(pages.last()));
        front.lemma_flatten_push(pages.last());
    }
}

// ---------------------------------------------------------------------------
// Reviews of pull requests
// ---------------------------------------------------------------------------

/// A review of a pull request.
pub struct PrReview {
    pub id: u64,
    pub pr_number: u64,
    pub user: String,
}

/// A review as the API gives it.
pub struct Review {
    pub id: u64,
    pub login: String,
}

/// A listing of reviews, as far as it has come.
pub struct ReviewListing {
    pub owner: String,
    pub repo: String,
    /// The page of pull requests that is asked for next.
    pub page: u32,
    /// The pull requests of the current page.
    pub prs: Vec<u64>,
    /// How many of them have been asked for their reviews.
    pub asked: usize,
    /// The reviews so far.
    pub reviews: Vec<PrReview>,
}

/// A review as plain values: pull request, id and user.
pub open spec fn review_views(reviews: Seq<PrReview>) -> Seq<(u64, u64, Seq<char>)> {
    reviews.map_values(|r: PrReview| (r.pr_number, r.id, r.user@))
}

/// The reviews of a pull request as plain values.
pub open spec fn reviews_of(pr: u64, reviews: Seq<Review>) -> Seq<(u64, u64, Seq<char>)> {
    reviews.map_values(|r: Review| (pr, r.id, r.login@))
}

/// How far a listing of reviews has come: the pull requests of the current
/// page, how many of them have been asked for their reviews, the page that is
/// asked for next, and the reviews so far.
#[verifier::ext_equal]
pub struct ReviewState {
    pub prs: Seq<u64>,
    pub asked: nat,
    pub page: nat,
    pub reviews: Seq<(u64, u64, Seq<char>)>,
}

impl ReviewState {
    /// Nothing has been asked for.
    pub open spec fn fresh() -> ReviewState {
        ReviewState { prs: Seq::empty(), asked: 0, page: 1, reviews: Seq::empty() }
    }

    /// The state after a page of pull requests. An empty one changes nothing.
    pub open spec fn with_pulls(self, prs: Seq<u64>) -> ReviewState {
        if prs.len() == 0 {
            self
        } else {
            ReviewState { prs, asked: 0, page: self.page + 1, ..self }
        }
    }

    /// The state after the reviews of a pull request.
    pub open spec fn with_reviews(self, reviews: Seq<Review>) -> ReviewState {
        ReviewState {
            asked: self.asked + 1,
            reviews: self.reviews + reviews_of(self.prs[self.asked as int], reviews),
            ..self
        }
    }
}

/// Starts to list the reviews of the open pull requests of a repository.
pub fn list_pr_reviews(owner: &str, repo: &str) -> (listing: ReviewListing)
    ensures
        listing.owner@ == owner@,
        listing.repo@ == repo@,
        listing.progress() == ReviewState::fresh(),
{
    let listing = ReviewListing {
        owner: owner.to_owned(),
        repo: repo.to_owned(),
        page: 1,
        prs: Vec::new(),
        asked: 0,
        reviews: Vec::new(),
    };
    assert(listing.progress() =~= ReviewState::fresh());
    listing
}

impl ReviewListing {
    /// Not more pull requests have been asked for than there are.
    pub open spec fn wf(&self) -> bool {
        self.asked <= self.prs@.len()
    }

    /// How far the listing has come.
    pub open spec fn progress(&self) -> ReviewState {
        ReviewState {
            prs: self.prs@,
            asked: self.asked as nat,
            page: self.page as nat,
            reviews: review_views(self.reviews@),
        }
    }

    /// Whether the next question is for the reviews of a pull request.
    pub fn wants_reviews(&self) -> (yes: bool)
        ensures
            yes == (self.asked < self.prs@.len()),
    {
        self.asked < self.prs.len()
    }

    /// The URL that is asked for next: the reviews of a pull request of the
    /// current page, or the next page.
    pub fn url(&self) -> (url: String)
        ensures
            url@ == "https://api.github.com/repos/"@ + self.owner@ + "/"@ + self.repo@ + (
            if self.asked < self.prs@.len() {
                "/pulls/"@ + decimal(self.prs@[self.asked as int] as nat) + "/reviews"@
            } else {
                "/pulls?state=open&per_page=100&page="@ + decimal(self.page as nat)
            }),
    {
        let start = "https://api.github.com/repos/".to_string().concat(self.owner.as_str()).concat(
            "/",
        ).concat(self.repo.as_str());
        let end = if self.asked < self.prs.len() {
            "/pulls/".to_string().concat(decimal_u64(self.prs[self.asked]).as_str()).concat(
                "/reviews",
            )
        } else {
            "/pulls?state=open&per_page=100&page=".to_string().concat(
                decimal_u64(self.page as u64).as_str(),
            )
        };
        start.concat(end.as_str())
    }

    /// The error of the listing if the next question fails for the given
    /// cause.
    pub fn failure(&self, cause: String) -> (message: String)
        ensures
            message@ == (if self.asked < self.prs@.len() {
                "sending GitHub PR reviews request"@
            } else {
                cause@
            }),
    {
        if self.asked < self.prs.len() {
            "sending GitHub PR reviews request".to_string()
        } else {
            cause
        }
    }

    /// Takes an answer to the question for a page of pull requests. Says
    /// whether the listing is complete: that is so after an empty page.
    pub fn next_pulls(
        &mut self,
        status: u16,
        error: &Option<GithubErrorResponse>,
        parsed: Option<Vec<u64>>,
    ) -> (complete: Result<bool, String>)
        requires
            valid_status(status),
            old(self).asked == old(self).prs@.len(),
            old(self).page < u32::MAX,
        ensures
            final(self).wf(),
            final(self).owner == old(self).owner,
            final(self).repo == old(self).repo,
            final(self).reviews@ == old(self).reviews@,
            match complete {
                Err(e) => {
                    &&& e@ == (if 200 <= status < 300 {
                        "deserializing GitHub pulls list"@
                    } else {
                        github_error(status, error_message(*error))
                    })
                    &&& 200 <= status < 300 ==> parsed is None
                    &&& *final(self) == *old(self)
                },
                Ok(done) => {
                    &&& 200 <= status < 300
                    &&& parsed is Some
                    &&& done == (parsed->0@.len() == 0)
                    &&& final(self).progress() == old(self).progress().with_pulls(parsed->0@)
                },
            },
    {
        if !is_success(status) {
            return Err(format_github_error(status, error));
        }
        match parsed {
            None => Err("deserializing GitHub pulls list".to_string()),
            Some(prs) => {
                if prs.len() == 0 {
                    return Ok(true);
                }
                self.prs = prs;
                self.asked = 0;
                self.page = self.page + 1;
                Ok(false)
            },
        }
    }

    /// Takes an answer to the question for the reviews of a pull request.
    pub fn next_reviews(
        &mut self,
        status: u16,
        error: &Option<GithubErrorResponse>,
        parsed: Option<Vec<Review>>,
    ) -> (taken: Result<(), String>)
        requires
            valid_status(status),
            old(self).asked < old(self).prs@.len(),
        ensures
            final(self).wf(),
            final(self).owner == old(self).owner,
            final(self).repo == old(self).repo,
            final(self).page == old(self).page,
            final(self).prs@ == old(self).prs@,
            match taken {
                Err(e) => {
                    &&& e@ == (if 200 <= status < 300 {
                        "deserializing GitHub PR reviews"@
                    } else {
                        github_error(status, error_message(*error))
                    })
                    &&& 200 <= status < 300 ==> parsed is None
                    &&& *final(self) == *old(self)
                },
                Ok(_) => {
                    &&& 200 <= status < 300
                    &&& parsed is Some
                    &&& final(self).progress() == old(self).progress().with_reviews(parsed->0@)
                },
            },
    {
        if !is_success(status) {
            return Err(format_github_error(status, error));
        }
        match parsed {
            None => Err("deserializing GitHub PR reviews".to_string()),
            Some(list) => {
                let pr: u64 = self.prs[self.asked];
                let ghost before = review_views(self.reviews@);
                let ghost own = reviews_of(pr, list@);
                let mut i: usize = 0;
                assert(before + own.take(0) =~= before);
                while i < list.len()
                    invariant
                        i <= list.len(),
                        own == reviews_of(pr, list@),
                        review_views(self.reviews@) == before + own.take(i as int),
                        self.owner == old(self).owner,
                        self.repo == old(self).repo,
                        self.page == old(self).page,
                        self.prs == old(self).prs,
                        self.asked == old(self).asked,
                    decreases list.len() - i,
                {
                    let ghost had = review_views(self.reviews@);
                    let review = PrReview {
                        id: list[i].id,
                        pr_number: pr,
                        user: list[i].login.clone(),
                    };
                    self.reviews.push(review);
                    assert(review_views(self.reviews@) =~= had.push((pr, review.id, review.user@)));
                    i += 1;
                    assert(had.push(own[i - 1]) =~= before + own.take(i as int));
                }
                assert(own.take(i as int) =~= own);
                assert(self.asked < self.prs.len());
                self.asked = self.asked + 1;
                Ok(())
            },
        }
    }
}

/// An answer that a listing of reviews takes in: a page of pull requests, or
/// the reviews of one of them.
pub enum ReviewReply {
    Pulls(Seq<u64>),
    Reviews(Seq<Review>),
}

/// The state after a series of answers.
pub open spec fn reviews_after(replies: Seq<ReviewReply>) -> ReviewState
    decreases replies.len(),
{
    if replies.len() == 0 {
        ReviewState::fresh()
    } else {
        let state = reviews_after(replies.drop_last());
        match replies.last() {
            ReviewReply::Pulls(prs) => state.with_pulls(prs),
            ReviewReply::Reviews(reviews) => state.with_reviews(reviews),
        }
    }
}

/// Each answer is one to the question that was asked: for the reviews of a pull
/// request as long as there is one in the current page that was not asked for,
/// and for the next page otherwise.
pub open spec fn answers_in_turn(replies: Seq<ReviewReply>) -> bool
    decreases replies.len(),
{
    replies.len() > 0 ==> {
        let state = reviews_after(replies.drop_last());
        &&& answers_in_turn(replies.drop_last())
        &&& replies.last() is Reviews <==> state.asked < state.prs.len()
    }
}

/// The pull requests of all pages, in order.
pub open spec fn all_pulls(replies: Seq<ReviewReply>) -> Seq<u64>
    decreases replies.len(),
{
    if replies.len() == 0 {
        Seq::empty()
    } else {
        match replies.last() {
            ReviewReply::Pulls(prs) => all_pulls(replies.drop_last()) + prs,
            ReviewReply::Reviews(_) => all_pulls(replies.drop_last()),
        }
    }
}

/// How many pages held pull requests.
pub open spec fn full_pages(replies: Seq<ReviewReply>) -> nat
    decreases replies.len(),
{
    if replies.len() == 0 {
        0
    } else {
        full_pages(replies.drop_last()) + if replies.last() is Pulls
            && replies.last()->Pulls_0.len() > 0 {
            1nat
        } else {
            0nat
        }
    }
}

/// The lists of reviews, in order.
pub open spec fn all_lists(replies: Seq<ReviewReply>) -> Seq<Seq<Review>>
    decreases replies.len(),
{
    if replies.len() == 0 {
        Seq::empty()
    } else {
        match replies.last() {
            ReviewReply::Pulls(_) => all_lists(replies.drop_last()),
            ReviewReply::Reviews(reviews) => all_lists(replies.drop_last()).push(reviews),
        }
    }
}

/// The reviews of pull requests, one pull request behind the other, given the
/// list of reviews of each.
pub open spec fn each_review(prs: Seq<u64>, lists: Seq<Seq<Review>>) -> Seq<(u64, u64, Seq<char>)>
    decreases lists.len(),
{
    if lists.len() == 0 {
        Seq::empty()
    } else {
        each_review(prs, lists.drop_last()) + reviews_of(prs[lists.len() - 1], lists.last())
    }
}

proof fn lemma_each_review_of_front(prs: Seq<u64>, more: Seq<u64>, lists: Seq<Seq<Review>>)
    requires
        lists.len() <= prs.len(),
    ensures
        each_review(prs + more, lists) == each_review(prs, lists),
    decreases lists.len(),
{
    if lists.len() > 0 {
        lemma_each_review_of_front(prs, more, lists.drop_last());
    }
}

/// The reviews are those of the pull requests that were asked for, page by page
/// and in the order of each page: the lists that came in belong to the pull
/// requests one after the other. When no pull request of the current page is
/// left, these are the reviews of all pull requests of all pages. The pages are
/// asked for one after the other.
pub proof fn law_reviews_are_those_of_each_pull(replies: Seq<ReviewReply>)
    requires
        answers_in_turn(replies),
    ensures
        ({
            let state = reviews_after(replies);
            let prs = all_pulls(replies);
            let lists = all_lists(replies);
            &&& state.reviews == each_review(prs, lists)
            &&& state.page == 1 + full_pages(replies)
            &&& state.asked <= state.prs.len()
            &&& prs.len() == lists.len() + (state.prs.len() - state.asked)
            &&& state.asked == state.prs.len() <==> lists.len() == prs.len()
            &&& forall|k: int|
                state.asked <= k < state.prs.len() ==> #[trigger] state.prs[k] == prs[lists.len()
                    + k - state.asked]
        }),
    decreases replies.len(),
{
    if replies.len() > 0 {
        let front = replies.drop_last();
        law_reviews_are_those_of_each_pull(front);
        let before = reviews_after(front);
        let prs = all_pulls(front);
        let lists = all_lists(front);
        match replies.last() {
            ReviewReply::Pulls(more) => {
                lemma_each_review_of_front(prs, more, lists);
                assert(prs + Seq::<u64>::empty() =~= prs);
                if more.len() == 0 {
                    assert(prs + more =~= prs);
                }
            },
            ReviewReply::Reviews(reviews) => {
                assert(before.prs[before.asked as int] == prs[lists.len() as int]);
                assert(lists.push(reviews).drop_last() =~= lists);
            },
        }
    }
}

// ---------------------------------------------------------------------------
// Mentions
// ---------------------------------------------------------------------------

/// An issue in which a user is mentioned.
#[derive(Clone, Copy, Debug, PartialEq, Eq, Structural)]
pub struct MentionedIssue {
    pub number: u64,
    /// The comment that holds the mention, or 0 if it is none in particular.
    pub comment_id: u64,
}

/// A comment on an issue.
pub struct IssueComment {
    pub id: u64,
    pub body: String,
}

/// A character of a user name: an ASCII letter or digit, or an underscore.
pub open spec fn word_char(c: char) -> bool {
    ('a' <= c && c <= 'z') || ('A' <= c && c <= 'Z') || ('0' <= c && c <= '9') || c == '_'
}

/// `word` stands in `text` at `i`, and neither begins nor ends within a longer
/// word.
pub open spec fn stands_alone(text: Seq<char>, word: Seq<char>, i: int) -> bool {
    &&& occurs_at(text, word, i)
    &&& i == 0 || !word_char(text[i - 1])
    &&& i + word.len() == text.len() || !word_char(text[i + word.len()])
}

/// `word` stands somewhere in `text` as a whole word.
pub open spec fn has_word(text: Seq<char>, word: Seq<char>) -> bool {
    exists|i: int| stands_alone(text, word, i)
}

/// A text in lower case.
pub uninterp spec fn lowercased(s: Seq<char>) -> Seq<char>;

/// `str::to_lowercase`: the text depends on the given one alone. ASCII
/// letters become small letters, other ASCII characters stay.
#[verifier::external_body]
fn to_lower(s: &str) -> (lower: String)
    ensures
        lower@ == lowercased(s@),
        (forall|i: int| 0 <= i < s@.len() ==> (#[trigger] s@[i] as u32) < 128) ==> lower@
            == ascii_lowered(s@),
{
    s.to_lowercase()
}

/// A text of ASCII characters alone.
pub open spec fn is_ascii_text(s: Seq<char>) -> bool {
    forall|i: int| 0 <= i < s.len() ==> (#[trigger] s[i] as u32) < 128
}

/// A text in lower case: of an ASCII text the letters `A` to `Z` become `a` to
/// `z`.
pub open spec fn lower_case(s: Seq<char>) -> Seq<char> {
    if is_ascii_text(s) {
        ascii_lowered(s)
    } else {
        lowercased(s)
    }
}

/// A text mentions a user: an at sign and the name stand in it, in whatever
/// case, as a whole word.
pub open spec fn mentions(body: Seq<char>, user: Seq<char>) -> bool {
    has_word(lower_case(body), "@"@ + lower_case(user))
}

fn is_word_char(c: char) -> (yes: bool)
    ensures
        yes == word_char(c),
{
    ('a' <= c && c <= 'z') || ('A' <= c && c <= 'Z') || ('0' <= c && c <= '9') || c == '_'
}

fn stands_alone_at(text: &Vec<char>, word: &Vec<char>, i: usize) -> (yes: bool)
    requires
        i <= text.len(),
    ensures
        yes == stands_alone(text@, word@, i as int),
{
    if !matches_at(text, word, i) {
        return false;
    }
    let end: usize = i + word.len();
    (i == 0 || !is_word_char(text[i - 1])) && (end == text.len() || !is_word_char(text[end]))
}

/// Whether `word` stands somewhere in `text` as a whole word.
pub fn contains_word(text: &str, word: &str) -> (found: bool)
    ensures
        found == has_word(text@, word@),
{
    let chars = chars_of(text);
    let pattern = chars_of(word);
    let mut i: usize = 0;
    while i < chars.len()
        invariant
            chars@ == text@,
            pattern@ == word@,
            i <= chars.len(),
            forall|j: int| 0 <= j < i ==> !stands_alone(text@, word@, j),
        decreases chars.len() - i,
    {
        if stands_alone_at(&chars, &pattern, i) {
            return true;
        }
        i += 1;
    }
    stands_alone_at(&chars, &pattern, i)
}

/// Whether a text mentions a user: an at sign and the name, in whatever case,
/// as a whole word.
pub fn body_mentions_user(comment_body: &str, username: &str) -> (found: bool)
    ensures
        found == mentions(comment_body@, username@),
{
    let lower = to_lower(comment_body);
    let pattern = "@".to_string().concat(to_lower(username).as_str());
    contains_word(lower.as_str(), pattern.as_str())
}

/// A listing of the issues in which a user is mentioned, as far as it has
/// come: first the issues are searched, then the comments of each are gone
/// through for mentions.
pub struct MentionListing {
    pub owner: String,
    pub repo: String,
    pub mentioned_user: String,
    /// Whether there may be more issues.
    pub searching: bool,
    /// The page of the search that is asked for next.
    pub page: u32,
    /// The issues that were found.
    pub issues: Vec<u64>,
    /// How many of them have been gone through.
    pub done: usize,
    /// The page of comments that is asked for next.
    pub comment_page: u32,
    /// The comments of the current issue that mention the user, so far.
    pub matching: Vec<u64>,
    /// The entries of the issues that have been gone through.
    pub result: Vec<MentionedIssue>,
}

/// The entries of an issue: one for each comment that mentions the user, or
/// one without a comment if none does.
pub open spec fn issue_entries(number: u64, matching: Seq<u64>) -> Seq<MentionedIssue> {
    if matching.len() == 0 {
        seq![MentionedIssue { number, comment_id: 0 }]
    } else {
        matching.map_values(|c: u64| MentionedIssue { number, comment_id: c })
    }
}

/// The comments of a page that mention a user.
pub open spec fn mentioning(comments: Seq<IssueComment>, user: Seq<char>) -> Seq<u64>
    decreases comments.len(),
{
    if comments.len() == 0 {
        Seq::empty()
    } else {
        let front = mentioning(comments.drop_last(), user);
        if mentions(comments.last().body@, user) {
            front.push(comments.last().id)
        } else {
            front
        }
    }
}

/// An answer to a request for a page of comments: its status, and the comments
/// if it is a success.
pub struct CommentsReply {
    pub status: u16,
    pub comments: Seq<IssueComment>,
}

/// An answer, given the comments that could be read.
pub open spec fn comments_reply(status: u16, parsed: Option<Vec<IssueComment>>) -> CommentsReply {
    CommentsReply {
        status,
        comments: match parsed {
            Some(comments) => comments@,
            None => Seq::empty(),
        },
    }
}

/// The comments of an answer that mention a user. An answer that is refused
/// has none.
pub open spec fn reply_mentions(reply: CommentsReply, user: Seq<char>) -> Seq<u64> {
    if 200 <= reply.status < 300 {
        mentioning(reply.comments, user)
    } else {
        Seq::empty()
    }
}

/// There is no further page of comments behind an answer: it is refused, or its
/// page is not full.
pub open spec fn ends_comments(reply: CommentsReply) -> bool {
    !(200 <= reply.status < 300) || reply.comments.len() < 100
}

/// How far the comments have been gone through: the number of issues that are
/// done, the page of comments that is asked for next, the comments of the
/// current issue that mention the user, and the entries.
#[verifier::ext_equal]
pub struct MentionState {
    pub done: nat,
    pub page: nat,
    pub matching: Seq<u64>,
    pub result: Seq<MentionedIssue>,
}

impl MentionState {
    /// Nothing has been gone through.
    pub open spec fn fresh() -> MentionState {
        MentionState { done: 0, page: 1, matching: Seq::empty(), result: Seq::empty() }
    }

    /// The state after one more answer.
    pub open spec fn with_reply(
        self,
        issues: Seq<u64>,
        user: Seq<char>,
        reply: CommentsReply,
    ) -> MentionState {
        let all = self.matching + reply_mentions(reply, user);
        if ends_comments(reply) {
            MentionState {
                done: self.done + 1,
                page: 1,
                matching: Seq::empty(),
                result: self.result + issue_entries(issues[self.done as int], all),
            }
        } else {
            MentionState { page: self.page + 1, matching: all, ..self }
        }
    }

    /// The state after a series of answers.
    pub open spec fn with_replies(
        self,
        issues: Seq<u64>,
        user: Seq<char>,
        replies: Seq<CommentsReply>,
    ) -> MentionState
        decreases replies.len(),
    {
        if replies.len() == 0 {
            self
        } else {
            self.with_replies(issues, user, replies.drop_last()).with_reply(
                issues,
                user,
                replies.last(),
            )
        }
    }
}

/// Every one of the issues has an entry, and every entry is of one of them.
pub open spec fn entries_cover(entries: Seq<MentionedIssue>, issues: Seq<u64>) -> bool {
    &&& forall|k: int|
        0 <= k < issues.len() ==> exists|j: int|
            0 <= j < entries.len() && (#[trigger] entries[j]).number == #[trigger] issues[k]
    &&& forall|j: int|
        0 <= j < entries.len() ==> issues.contains((#[trigger] entries[j]).number)
}

proof fn lemma_entries_cover(
    entries: Seq<MentionedIssue>,
    issues: Seq<u64>,
    number: u64,
    matching: Seq<u64>,
)
    requires
        entries_cover(entries, issues),
    ensures
        entries_cover(entries + issue_entries(number, matching), issues.push(number)),
{
    let own = issue_entries(number, matching);
    let all = entries + own;
    let more = issues.push(number);
    assert(own.len() > 0 && own[0].number == number);
    assert forall|k: int| 0 <= k < more.len() implies exists|j: int|
        0 <= j < all.len() && (#[trigger] all[j]).number == #[trigger] more[k] by {
        if k < issues.len() {
            assert(issues[k] == more[k]);
            let j = choose|j: int|
                0 <= j < entries.len() && (#[trigger] entries[j]).number == issues[k];
            assert(all[j] == entries[j]);
        } else {
            assert(all[entries.len() as int] == own[0]);
        }
    }
    assert forall|j: int| 0 <= j < all.len() implies more.contains((#[trigger] all[j]).number) by {
        if j < entries.len() {
            assert(all[j] == entries[j]);
            let k = choose|k: int| 0 <= k < issues.len() && issues[k] == entries[j].number;
            assert(more[k] == entries[j].number);
        } else {
            assert(all[j] == own[j - entries.len()]);
            assert(more[issues.len() as int] == number);
        }
    }
}

/// Starts to list the open issues of a repository in which a user is
/// mentioned.
pub fn list_mentioned_issues(owner: &str, repo: &str, mentioned_user: &str) -> (listing:
    MentionListing)
    ensures
        listing.owner@ == owner@,
        listing.repo@ == repo@,
        listing.mentioned_user@ == mentioned_user@,
        listing.searching,
        listing.page == 1,
        listing.issues@.len() == 0,
        listing.progress() == MentionState::fresh(),
        listing.wf(),
{
    let listing = MentionListing {
        owner: owner.to_owned(),
        repo: repo.to_owned(),
        mentioned_user: mentioned_user.to_owned(),
        searching: true,
        page: 1,
        issues: Vec::new(),
        done: 0,
        comment_page: 1,
        matching: Vec::new(),
        result: Vec::new(),
    };
    assert(listing.progress() =~= MentionState::fresh());
    listing
}

impl MentionListing {
    /// The entries so far are those of the issues that have been gone
    /// through: each of these issues has one.
    pub open spec fn wf(&self) -> bool {
        &&& self.done <= self.issues@.len()
        &&& self.searching ==> self.done == 0 && self.matching@.len() == 0
        &&& entries_cover(self.result@, self.issues@.take(self.done as int))
    }

    /// How far the comments have been gone through.
    pub open spec fn progress(&self) -> MentionState {
        MentionState {
            done: self.done as nat,
            page: self.comment_page as nat,
            matching: self.matching@,
            result: self.result@,
        }
    }

    /// The listing is complete.
    pub open spec fn complete(&self) -> bool {
        !self.searching && self.done == self.issues@.len()
    }

    /// The same search.
    pub open spec fn same_search(&self, other: MentionListing) -> bool {
        &&& self.owner == other.owner
        &&& self.repo == other.repo
        &&& self.mentioned_user == other.mentioned_user
    }

    /// Whether the listing is complete.
    pub fn is_complete(&self) -> (yes: bool)
        ensures
            yes == self.complete(),
    {
        !self.searching && self.done == self.issues.len()
    }

    /// The URL that is asked for next: a page of the search, or a page of the
    /// comments of an issue.
    pub fn url(&self) -> (url: String)
        requires
            self.wf(),
            !self.complete(),
        ensures
            self.searching ==> url@ == "https://api.github.com/search/issues?q=mentions%3A"@
                + self.mentioned_user@ + "+is%3Aissue+is%3Aopen+repo%3A"@ + self.owner@ + "%2F"@
                + self.repo@ + "&per_page=100&page="@ + decimal(self.page as nat),
            !self.searching ==> url@ == "https://api.github.com/repos/"@ + self.owner@ + "/"@
                + self.repo@ + "/issues/"@ + decimal(self.issues@[self.done as int] as nat)
                + "/comments?per_page=100&page="@ + decimal(self.comment_page as nat),
    {
        if self.searching {
            "https://api.github.com/search/issues?q=mentions%3A".to_string().concat(
                self.mentioned_user.as_str(),
            ).concat("+is%3Aissue+is%3Aopen+repo%3A").concat(self.owner.as_str()).concat(
                "%2F",
            ).concat(self.repo.as_str()).concat("&per_page=100&page=").concat(
                decimal_u64(self.page as u64).as_str(),
            )
        } else {
            "https://api.github.com/repos/".to_string().concat(self.owner.as_str()).concat(
                "/",
            ).concat(self.repo.as_str()).concat("/issues/").concat(
                decimal_u64(self.issues[self.done]).as_str(),
            ).concat("/comments?per_page=100&page=").concat(
                decimal_u64(self.comment_page as u64).as_str(),
            )
        }
    }

    /// Takes an answer of the search: its status, its body if it is an error,
    /// and the numbers of the issues if it is a success and they could be
    /// read. An empty page ends the search.
    pub fn next_search(
        &mut self,
        status: u16,
        error: &Option<GithubErrorResponse>,
        parsed: Option<Vec<u64>>,
    ) -> (taken: Result<(), String>)
        requires
            valid_status(status),
            old(self).wf(),
            old(self).searching,
            old(self).page < u32::MAX,
        ensures
            final(self).wf(),
            final(self).same_search(*old(self)),
            final(self).progress() == old(self).progress(),
            match taken {
                Err(e) => {
                    &&& e@ == (if 200 <= status < 300 {
                        "deserializing GitHub search issues response"@
                    } else {
                        github_error(status, error_message(*error))
                    })
                    &&& 200 <= status < 300 ==> parsed is None
                    &&& *final(self) == *old(self)
                },
                Ok(_) => {
                    &&& 200 <= status < 300
                    &&& parsed is Some
                    &&& final(self).searching == (parsed->0@.len() > 0)
                    &&& final(self).issues@ == old(self).issues@ + parsed->0@
                    &&& final(self).page == old(self).page + (if parsed->0@.len() > 0 {
                        1int
                    } else {
                        0
                    })
                },
            },
    {
        if !is_success(status) {
            return Err(format_github_error(status, error));
        }
        match parsed {
            None => Err("deserializing GitHub search issues response".to_string()),
            Some(mut numbers) => {
                assert(self.issues@.take(0) =~= Seq::<u64>::empty());
                if numbers.len() == 0 {
                    self.searching = false;
                    assert(self.issues@ + numbers@ =~= self.issues@);
                    return Ok(());
                }
                self.issues.append(&mut numbers);
                self.page = self.page + 1;
                assert(self.issues@.take(0) =~= Seq::<u64>::empty());
                Ok(())
            },
        }
    }

    /// Adds the entries of the current issue and goes on to the next one.
    fn finish_issue(&mut self)
        requires
            old(self).wf(),
            !old(self).searching,
            old(self).done < old(self).issues@.len(),
        ensures
            final(self).wf(),
            final(self).same_search(*old(self)),
            !final(self).searching,
            final(self).page == old(self).page,
            final(self).issues@ == old(self).issues@,
            final(self).done == old(self).done + 1,
            final(self).comment_page == 1,
            final(self).matching@.len() == 0,
            final(self).result@ == old(self).result@ + issue_entries(
                old(self).issues@[old(self).done as int],
                old(self).matching@,
            ),
    {
        let number: u64 = self.issues[self.done];
        let ghost before = self.result@;
        let ghost own = issue_entries(number, self.matching@);
        if self.matching.len() == 0 {
            self.result.push(MentionedIssue { number, comment_id: 0 });
            assert(self.result@ =~= before + own);
        } else {
            let mut i: usize = 0;
            assert(before + own.take(0) =~= before);
            while i < self.matching.len()
                invariant
                    i <= self.matching.len(),
                    own == self.matching@.map_values(
                        |c: u64| MentionedIssue { number, comment_id: c },
                    ),
                    self.result@ == before + own.take(i as int),
                    self.same_search(*old(self)),
                    self.searching == old(self).searching,
                    self.page == old(self).page,
                    self.issues == old(self).issues,
                    self.done == old(self).done,
                    self.matching == old(self).matching,
                decreases self.matching.len() - i,
            {
                let ghost had = self.result@;
                let comment_id: u64 = self.matching[i];
                self.result.push(MentionedIssue { number, comment_id });
                i += 1;
                assert(had.push(own[i - 1]) =~= before + own.take(i as int));
            }
            assert(own.take(i as int) =~= own);
        }
        proof {
            let gone = self.issues@.take(self.done as int);
            lemma_entries_cover(before, gone, number, old(self).matching@);
            assert(gone.push(number) =~= self.issues@.take(self.done + 1));
        }
        assert(self.done < self.issues.len());
        self.done = self.done + 1;
        self.comment_page = 1;
        self.matching = Vec::new();
    }

    /// Takes a page of the comments of the current issue: its status, and the
    /// comments if it is a success and they could be read. A page that is
    /// refused ends the comments of the issue, and so does one that is not
    /// full.
    pub fn next_comments(&mut self, status: u16, parsed: Option<Vec<IssueComment>>) -> (taken:
        Result<(), String>)
        requires
            old(self).wf(),
            !old(self).searching,
            old(self).done < old(self).issues@.len(),
            old(self).comment_page < u32::MAX,
        ensures
            final(self).wf(),
            final(self).same_search(*old(self)),
            final(self).page == old(self).page,
            final(self).issues@ == old(self).issues@,
            !final(self).searching,
            match taken {
                Err(e) => {
                    &&& 200 <= status < 300
                    &&& parsed is None
                    &&& e@ == "deserializing GitHub issue comments"@
                    &&& *final(self) == *old(self)
                },
                Ok(_) => {
                    &&& 200 <= status < 300 ==> parsed is Some
                    &&& final(self).progress() == old(self).progress().with_reply(
                        old(self).issues@,
                        old(self).mentioned_user@,
                        comments_reply(status, parsed),
                    )
                },
            },
    {
        if !is_success(status) {
            self.finish_issue();
            return Ok(());
        }
        match parsed {
            None => Err("deserializing GitHub issue comments".to_string()),
            Some(comments) => {
                let ghost before = self.matching@;
                let ghost user = self.mentioned_user@;
                let mut i: usize = 0;
                proof {
                    assert(comments@.take(0) =~= Seq::<IssueComment>::empty());
                    assert(before + mentioning(comments@.take(0), user) =~= before);
                }
                while i < comments.len()
                    invariant
                        i <= comments.len(),
                        user == self.mentioned_user@,
                        self.matching@ == before + mentioning(comments@.take(i as int), user),
                        self.same_search(*old(self)),
                        self.searching == old(self).searching,
                        self.page == old(self).page,
                        self.issues == old(self).issues,
                        self.done == old(self).done,
                        self.comment_page == old(self).comment_page,
                        self.result == old(self).result,
                    decreases comments.len() - i,
                {
                    proof {
                        assert(comments@.take(i + 1).drop_last() =~= comments@.take(i as int));
                        assert(comments@.take(i + 1).last() == comments@[i as int]);
                    }
                    let found = body_mentions_user(
                        comments[i].body.as_str(),
                        self.mentioned_user.as_str(),
                    );
                    if found {
                        let ghost some = mentioning(comments@.take(i as int), user);
                        let id: u64 = comments[i].id;
                        self.matching.push(id);
                        assert((before + some).push(id) =~= before + some.push(id));
                    }
                    i += 1;
                }
                assert(comments@.take(i as int) =~= comments@);
                if comments.len() < 100 {
                    self.finish_issue();
                } else {
                    self.comment_page = self.comment_page + 1;
                }
                Ok(())
            },
        }
    }
}

/// When a listing of mentions is complete, every issue that the search found
/// has an entry, and there are entries of no other issue.
pub proof fn law_every_found_issue_is_listed(listing: MentionListing)
    requires
        listing.wf(),
        listing.complete(),
    ensures
        entries_cover(listing.result@, listing.issues@),
{
    assert(listing.issues@.take(listing.done as int) =~= listing.issues@);
}

/// The answers grouped by the issue that they are about: those of the issues
/// that are done, and those of the current one.
pub open spec fn by_issue(replies: Seq<CommentsReply>) -> (
    Seq<Seq<CommentsReply>>,
    Seq<CommentsReply>,
)
    decreases replies.len(),
{
    if replies.len() == 0 {
        (Seq::empty(), Seq::empty())
    } else {
        let (groups, current) = by_issue(replies.drop_last());
        if ends_comments(replies.last()) {
            (groups.push(current.push(replies.last())), Seq::empty())
        } else {
            (groups, current.push(replies.last()))
        }
    }
}

/// The comments, over the answers about an issue, that mention a user.
pub open spec fn group_mentions(replies: Seq<CommentsReply>, user: Seq<char>) -> Seq<u64>
    decreases replies.len(),
{
    if replies.len() == 0 {
        Seq::empty()
    } else {
        group_mentions(replies.drop_last(), user) + reply_mentions(replies.last(), user)
    }
}

/// The entries of issues, one issue behind the other, given the answers about
/// each of them.
pub open spec fn all_entries(
    issues: Seq<u64>,
    groups: Seq<Seq<CommentsReply>>,
    user: Seq<char>,
) -> Seq<MentionedIssue>
    decreases issues.len(),
{
    if issues.len() == 0 {
        Seq::empty()
    } else {
        all_entries(issues.drop_last(), groups.drop_last(), user) + issue_entries(
            issues.last(),
            group_mentions(groups.last(), user),
        )
    }
}

/// The entries are those of the issues that are done, one issue behind the
/// other: of each issue, one entry for every comment that mentions the user,
/// or one without a comment if there is none. When all issues are done, they
/// are the entries of all issues that were found.
pub proof fn law_entries_are_those_of_each_issue(
    issues: Seq<u64>,
    user: Seq<char>,
    replies: Seq<CommentsReply>,
)
    requires
        by_issue(replies).0.len() <= issues.len(),
    ensures
        ({
            let (groups, current) = by_issue(replies);
            let state = MentionState::fresh().with_replies(issues, user, replies);
            &&& state.done == groups.len()
            &&& state.matching == group_mentions(current, user)
            &&& state.result == all_entries(issues.take(groups.len() as int), groups, user)
            &&& state.done == issues.len() ==> state.result == all_entries(issues, groups, user)
        }),
    decreases replies.len(),
{
    let (groups, current) = by_issue(replies);
    if replies.len() == 0 {
        assert(issues.take(0) =~= Seq::<u64>::empty());
        assert(MentionState::fresh().result =~= all_entries(issues.take(0), groups, user));
    } else {
        let front = replies.drop_last();
        let last = replies.last();
        let (before, open) = by_issue(front);
        law_entries_are_those_of_each_issue(issues, user, front);
        assert(open.push(last).drop_last() =~= open);
        if ends_comments(last) {
            let n = before.len() as int;
            assert(groups.drop_last() =~= before);
            assert(issues.take(n + 1).drop_last() =~= issues.take(n));
            assert(issues.take(n + 1).last() == issues[n]);
        }
    }
    if groups.len() == issues.len() {
        assert(issues.take(groups.len() as int) =~= issues);
    }
}

// ---------------------------------------------------------------------------
// Laws of requests
// ---------------------------------------------------------------------------

/// How long a wait for a reset is: until the reset, but at least a second and
/// at most five minutes; and none if the reset is not known.
pub proof fn law_wait_is_until_the_reset(reset: Option<u64>, now: u64, wait: Option<u64>)
    requires
        call_ensures(calculate_sleep_at, (reset, now), wait),
    ensures
        wait is Some <==> reset is Some,
        reset matches Some(r) ==> {
            &&& r <= now ==> wait == Some(1u64)
            &&& now < r <= now + 300 ==> now + wait->0 == r
            &&& r > now + 300 ==> wait == Some(300u64)
        },
{
}

/// The header of a rate limit that holds a number is read as that number.
proof fn lemma_header_holds(header: Option<Seq<char>>, n: nat, max: nat)
    requires
        header == Some(decimal(n)),
        n <= max,
    ensures
        header_number(header, max) == Some(n),
{
    law_decimal_parses_back(n, max);
}

/// A success with few requests left, fewer than five, is handed out after a
/// wait for the reset; with more left, or without knowing of the reset, it is
/// handed out at once.
pub proof fn law_few_requests_left_make_it_wait(
    reply: ReplyModel,
    left: u32,
    reset: u64,
    now: u64,
)
    requires
        200 <= reply.status < 300,
        reply.remaining == Some(decimal(left as nat)),
    ensures
        left >= 5 ==> directive(Attempt::First, Some(reply), now) is Deliver,
        reply.reset is None ==> directive(Attempt::First, Some(reply), now) is Deliver,
        left < 5 && reply.reset == Some(decimal(reset as nat)) ==> {
            let next = directive(Attempt::First, Some(reply), now);
            &&& next is SleepThenDeliver
            &&& reset <= now ==> next->SleepThenDeliver_0 == 1
            &&& now < reset <= now + 300 ==> now + next->SleepThenDeliver_0 == reset
            &&& reset > now + 300 ==> next->SleepThenDeliver_0 == 300
        },
{
    lemma_header_holds(reply.remaining, left as nat, u32::MAX as nat);
    if reply.reset == Some(decimal(reset as nat)) {
        lemma_header_holds(reply.reset, reset as nat, u64::MAX as nat);
    }
}

/// An answer that is neither a success nor forbidden is handed out at once, and
/// so is a success that does not say how many requests are left.
pub proof fn law_other_answers_are_handed_out(reply: ReplyModel, now: u64)
    requires
        reply.status != 403,
        !(200 <= reply.status < 300) || reply.remaining is None,
    ensures
        directive(Attempt::First, Some(reply), now) is Deliver,
{
}

/// A forbidden request is sent once more after a wait for the reset if its body
/// speaks of a rate limit or of abuse, or no requests are left; otherwise, and
/// if the reset is not known, it fails, with the error that the body reports.
pub proof fn law_forbidden_request(reply: ReplyModel, reset: u64, now: u64, at: int)
    requires
        reply.status == 403,
    ensures
        ({
            let next = directive(Attempt::First, Some(reply), now);
            let spoken_of = occurs_at(reply.body, "rate limit"@, at) || occurs_at(
                reply.body,
                "abuse"@,
                at,
            ) || reply.remaining == Some("0"@);
            &&& spoken_of && reply.reset == Some(decimal(reset as nat)) ==> next is SleepThenRetry
                && (now < reset <= now + 300 ==> now + next->SleepThenRetry_0 == reset) && 1
                <= next->SleepThenRetry_0 <= 300
            &&& reply.reset is None ==> next is Fail
            &&& reply.remaining is None && (forall|i: int|
                !#[trigger] occurs_at(reply.body, "rate limit"@, i) && !occurs_at(
                    reply.body,
                    "abuse"@,
                    i,
                )) ==> next is Fail
            &&& next is Fail && reply.message is Some ==> next->Fail_0 == "GitHub API returned "@
                + status_line(403) + ": "@ + reply.message->0
            &&& next is Fail && reply.message is None ==> next->Fail_0 == "GitHub API returned "@
                + status_line(403) + " (body too large or not JSON)"@
        }),
{
    reveal_strlit("0");
    if reply.reset == Some(decimal(reset as nat)) {
        lemma_header_holds(reply.reset, reset as nat, u64::MAX as nat);
    }
    assert("0"@ =~= decimal(0));
    if reply.remaining == Some("0"@) {
        lemma_header_holds(reply.remaining, 0, u32::MAX as nat);
    }
    if occurs_at(reply.body, "rate limit"@, at) {
        assert(contains(reply.body, "rate limit"@));
    }
    if occurs_at(reply.body, "abuse"@, at) {
        assert(contains(reply.body, "abuse"@));
    }
    if forall|i: int|
        !#[trigger] occurs_at(reply.body, "rate limit"@, i) && !occurs_at(
            reply.body,
            "abuse"@,
            i,
        ) {
        if contains(reply.body, "abuse"@) {
            let i = choose|i: int| occurs_at(reply.body, "abuse"@, i);
            assert(!occurs_at(reply.body, "rate limit"@, i));
        }
    }
}

/// A request that is not answered fails, and so does its repetition; the
/// repetition is handed out if it is answered, whatever the answer is.
pub proof fn law_unanswered_request_fails(reply: ReplyModel, now: u64)
    ensures
        directive(Attempt::First, None, now) == DirectiveModel::Fail(
            "sending GitHub API request"@,
        ),
        directive(Attempt::Retry, None, now) == DirectiveModel::Fail(
            "retrying GitHub API request after rate limit backoff"@,
        ),
        directive(Attempt::Retry, Some(reply), now) is Deliver,
{
}

/// The number of requests that are left is what the last answer said of it, and
/// stays as it was if the answer does not say.
pub proof fn law_requests_left_are_taken_note_of(remaining: u32, reply: ReplyModel, left: u32)
    ensures
        reply.remaining == Some(decimal(left as nat)) ==> remaining_after(remaining, Some(reply))
            == left,
        reply.remaining is None ==> remaining_after(remaining, Some(reply)) == remaining,
        remaining_after(remaining, None) == remaining,
{
    if reply.remaining == Some(decimal(left as nat)) {
        lemma_header_holds(reply.remaining, left as nat, u32::MAX as nat);
    }
}

/// A client authenticates with the token that it was made with.
pub proof fn law_client_uses_its_token(token: String, client: GitHubClient, header: String)
    requires
        call_ensures(GitHubClient::new, (token,), client),
        call_ensures(GitHubClient::authorization, (&client,), header),
    ensures
        header@ == "Bearer "@ + token@,
{
}

/// An error of the API is reported with its status, and with the message of its
/// body if there is one.
pub proof fn law_error_is_reported(
    status: u16,
    error: Option<GithubErrorResponse>,
    text: String,
)
    requires
        100 <= status < 1000,
        call_ensures(format_github_error, (status, &error), text),
    ensures
        error matches Some(GithubErrorResponse { message: Some(m) }) ==> text@
            == "GitHub API returned "@ + status_line(status) + ": "@ + m@,
        error is None || error->0.message is None ==> text@ == "GitHub API returned "@
            + status_line(status) + " (body too large or not JSON)"@,
{
}

// ---------------------------------------------------------------------------
// Laws of listings
// ---------------------------------------------------------------------------

/// A listing of assigned issues begins with the first page of the open issues
/// of its repository that are assigned to the one user and were created by the
/// other.
pub proof fn law_issues_are_asked_for(
    owner: &str,
    repo: &str,
    assigned_to: &str,
    creator: &str,
    listing: IssueListing,
    url: String,
)
    requires
        call_ensures(list_assigned_issues, (owner, repo, assigned_to, creator), listing),
        call_ensures(IssueListing::url, (&listing,), url),
    ensures
        listing.issues@.len() == 0,
        url@ == "https://api.github.com/repos/"@ + owner@ + "/"@ + repo@
            + "/issues?state=open&assignee="@ + assigned_to@ + "&creator="@ + creator@
            + "&per_page=100&page=1"@,
{
    reveal_strlit("&per_page=100&page=");
    reveal_strlit("&per_page=100&page=1");
    assert(decimal(1) =~= seq!['1']);
    let start = "https://api.github.com/repos/"@ + owner@ + "/"@ + repo@
        + "/issues?state=open&assignee="@ + assigned_to@ + "&creator="@ + creator@;
    assert(url@ =~= start + "&per_page=100&page=1"@);
}

/// The further pages of a listing of assigned issues are asked for by their
/// number, and are otherwise the same question.
pub proof fn law_issue_pages_are_asked_for(listing: IssueListing, url: String)
    requires
        call_ensures(IssueListing::url, (&listing,), url),
    ensures
        url@ == "https://api.github.com/repos/"@ + listing.owner@ + "/"@ + listing.repo@
            + "/issues?state=open&assignee="@ + listing.assigned_to@ + "&creator="@
            + listing.creator@ + "&per_page=100&page="@ + decimal(listing.page as nat),
{
}

/// An empty page adds nothing to a listing, and is not counted.
pub proof fn law_empty_page_adds_nothing(pages: Seq<Seq<Issue>>)
    ensures
        issues_after(pages.push(Seq::empty())) == issues_after(pages),
{
    assert(pages.push(Seq::<Issue>::empty()).drop_last() =~= pages);
}

/// A listing of reviews begins with the first page of the open pull requests of
/// its repository, with nothing found yet.
pub proof fn law_pulls_are_asked_for(
    owner: &str,
    repo: &str,
    listing: ReviewListing,
    url: String,
)
    requires
        call_ensures(list_pr_reviews, (owner, repo), listing),
        call_ensures(ReviewListing::url, (&listing,), url),
    ensures
        listing.reviews@.len() == 0,
        url@ == "https://api.github.com/repos/"@ + owner@ + "/"@ + repo@
            + "/pulls?state=open&per_page=100&page=1"@,
{
    reveal_strlit("/pulls?state=open&per_page=100&page=");
    reveal_strlit("/pulls?state=open&per_page=100&page=1");
    assert(decimal(1) =~= seq!['1']);
    assert(review_views(listing.reviews@).len() == listing.reviews@.len());
    let start = "https://api.github.com/repos/"@ + owner@ + "/"@ + repo@;
    assert("/pulls?state=open&per_page=100&page="@ + decimal(1)
        =~= "/pulls?state=open&per_page=100&page=1"@);
    assert(listing.progress().asked == 0 && listing.progress().page == 1);
    assert(listing.progress().prs.len() == 0);
}

/// A listing of reviews asks for the reviews of the pull requests of a page one
/// after the other, each by its number, and for the next page when none is
/// left.
pub proof fn law_reviews_are_asked_for(listing: ReviewListing, url: String, wants: bool)
    requires
        call_ensures(ReviewListing::url, (&listing,), url),
        call_ensures(ReviewListing::wants_reviews, (&listing,), wants),
    ensures
        wants <==> listing.asked < listing.prs@.len(),
        wants ==> url@ == "https://api.github.com/repos/"@ + listing.owner@ + "/"@ + listing.repo@
            + ("/pulls/"@ + decimal(listing.prs@[listing.asked as int] as nat) + "/reviews"@),
        !wants ==> url@ == "https://api.github.com/repos/"@ + listing.owner@ + "/"@ + listing.repo@
            + ("/pulls?state=open&per_page=100&page="@ + decimal(listing.page as nat)),
{
}

proof fn lemma_review_entry(prs: Seq<u64>, lists: Seq<Seq<Review>>, k: int, m: int) -> (p: int)
    requires
        lists.len() <= prs.len(),
        0 <= k < lists.len(),
        0 <= m < lists[k].len(),
    ensures
        0 <= p < each_review(prs, lists).len(),
        each_review(prs, lists)[p] == (prs[k], lists[k][m].id, lists[k][m].login@),
    decreases lists.len(),
{
    let front = lists.drop_last();
    let before = each_review(prs, front);
    let own = reviews_of(prs[lists.len() - 1], lists.last());
    if k < front.len() {
        let p = lemma_review_entry(prs, front, k, m);
        assert(each_review(prs, lists)[p] == before[p]);
        p
    } else {
        assert(each_review(prs, lists)[before.len() + m] == own[m]);
        before.len() + m
    }
}

proof fn lemma_review_entry_origin(prs: Seq<u64>, lists: Seq<Seq<Review>>, p: int) -> (at: (
    int,
    int,
))
    requires
        lists.len() <= prs.len(),
        0 <= p < each_review(prs, lists).len(),
    ensures
        0 <= at.0 < lists.len(),
        0 <= at.1 < lists[at.0].len(),
        each_review(prs, lists)[p] == (
            prs[at.0],
            lists[at.0][at.1].id,
            lists[at.0][at.1].login@,
        ),
    decreases lists.len(),
{
    let front = lists.drop_last();
    let before = each_review(prs, front);
    if p < before.len() {
        assert(each_review(prs, lists)[p] == before[p]);
        lemma_review_entry_origin(prs, front, p)
    } else {
        let m = p - before.len();
        assert(each_review(prs, lists)[p] == reviews_of(
            prs[lists.len() - 1],
            lists.last(),
        )[m]);
        (lists.len() - 1, m)
    }
}

/// Every review that came in for a pull request is in the listing, with its id,
/// its author, and the number of that pull request: the lists of reviews belong
/// to the pull requests in order.
pub proof fn law_review_is_that_of_its_pull(
    listing: ReviewListing,
    replies: Seq<ReviewReply>,
    k: int,
    m: int,
)
    requires
        answers_in_turn(replies),
        listing.progress() == reviews_after(replies),
        0 <= k < all_lists(replies).len(),
        0 <= m < all_lists(replies)[k].len(),
    ensures
        k < all_pulls(replies).len(),
        exists|p: int|
            0 <= p < listing.reviews@.len() && (#[trigger] listing.reviews@[p]).id == all_lists(
                replies,
            )[k][m].id && listing.reviews@[p].user@ == all_lists(replies)[k][m].login@
                && listing.reviews@[p].pr_number == all_pulls(replies)[k],
{
    law_reviews_are_those_of_each_pull(replies);
    let p = lemma_review_entry(all_pulls(replies), all_lists(replies), k, m);
    let found = review_views(listing.reviews@);
    assert(listing.progress().reviews == found);
    let review = listing.reviews@[p];
    assert(found[p] == (review.pr_number, review.id, review.user@));
}

/// Every review of the listing is one that came in for the pull request whose
/// number it has.
pub proof fn law_listed_review_came_in(
    listing: ReviewListing,
    replies: Seq<ReviewReply>,
    p: int,
)
    requires
        answers_in_turn(replies),
        listing.progress() == reviews_after(replies),
        0 <= p < listing.reviews@.len(),
    ensures
        exists|k: int, m: int|
            {
                let review = #[trigger] all_lists(replies)[k][m];
                &&& 0 <= k < all_lists(replies).len()
                &&& 0 <= m < all_lists(replies)[k].len()
                &&& listing.reviews@[p].id == review.id
                &&& listing.reviews@[p].user@ == review.login@
                &&& listing.reviews@[p].pr_number == all_pulls(replies)[k]
            },
{
    law_reviews_are_those_of_each_pull(replies);
    let found = review_views(listing.reviews@);
    assert(listing.progress().reviews == found);
    let review = listing.reviews@[p];
    assert(found[p] == (review.pr_number, review.id, review.user@));
    let at = lemma_review_entry_origin(all_pulls(replies), all_lists(replies), p);
    assert(review.id == all_lists(replies)[at.0][at.1].id);
}

// ---------------------------------------------------------------------------
// Laws of mentions
// ---------------------------------------------------------------------------

/// A listing of mentions begins with the first page of a search for the open
/// issues of its repository that mention the user.
pub proof fn law_mentions_are_searched_for(
    owner: &str,
    repo: &str,
    user: &str,
    listing: MentionListing,
    url: String,
)
    requires
        call_ensures(list_mentioned_issues, (owner, repo, user), listing),
        call_ensures(MentionListing::url, (&listing,), url),
    ensures
        listing.issues@.len() == 0,
        listing.result@.len() == 0,
        url@ == "https://api.github.com/search/issues?q=mentions%3A"@ + user@
            + "+is%3Aissue+is%3Aopen+repo%3A"@ + owner@ + "%2F"@ + repo@ + "&per_page=100&page="@
            + seq!['1'],
{
    assert(decimal(1) =~= seq!['1']);
    assert(listing.progress().result == listing.result@);
}

/// Once the search is over, a listing of mentions asks for the comments of the
/// issues one after the other, each by its number and page by page.
pub proof fn law_comments_are_asked_for(listing: MentionListing, url: String)
    requires
        call_ensures(MentionListing::url, (&listing,), url),
        !listing.searching,
    ensures
        url@ == "https://api.github.com/repos/"@ + listing.owner@ + "/"@ + listing.repo@
            + "/issues/"@ + decimal(listing.issues@[listing.done as int] as nat)
            + "/comments?per_page=100&page="@ + decimal(listing.comment_page as nat),
{
}

/// A letter, a digit or an underscore.
pub open spec fn continues_a_word(c: char) -> bool {
    'a' <= c <= 'z' || 'A' <= c <= 'Z' || '0' <= c <= '9' || c == '_'
}

/// A text mentions a user if the at sign and the name, in whatever case, stand
/// in it, unless a letter, a digit or an underscore comes right before or right
/// after.
pub proof fn law_mention_is_found(
    before: Seq<char>,
    name: Seq<char>,
    after: Seq<char>,
    body: &str,
    user: &str,
    found: bool,
)
    requires
        call_ensures(body_mentions_user, (body, user), found),
        is_ascii_text(body@),
        is_ascii_text(user@),
        ascii_lowered(name) == ascii_lowered(user@),
        body@ == before + "@"@ + name + after,
        before.len() > 0 ==> !continues_a_word(before.last()),
        after.len() > 0 ==> !continues_a_word(after[0]),
    ensures
        found,
{
    reveal_strlit("@");
    let text = lower_case(body@);
    let word = "@"@ + lower_case(user@);
    let n = before.len() as int;
    assert(word.len() == 1 + name.len()) by {
        assert(ascii_lowered(name).len() == name.len());
    }
    assert(text.len() == body@.len());
    assert(text.subrange(n, n + word.len()) =~= word) by {
        assert forall|k: int| 0 <= k < word.len() implies text[n + k] == word[k] by {
            if k == 0 {
                assert(body@[n] == '@');
            } else {
                assert(body@[n + k] == name[k - 1]);
                assert(ascii_lowered(name)[k - 1] == ascii_lowered(user@)[k - 1]);
            }
        }
    }
    if n > 0 {
        assert(body@[n - 1] == before.last());
    }
    if n + word.len() < text.len() {
        assert(body@[n + word.len()] == after[0]);
    }
    assert(stands_alone(text, word, n));
}

/// A text without an at sign mentions nobody.
pub proof fn law_no_mention_without_an_at_sign(body: &str, user: &str, found: bool)
    requires
        call_ensures(body_mentions_user, (body, user), found),
        is_ascii_text(body@),
        forall|i: int| 0 <= i < body@.len() ==> #[trigger] body@[i] != '@',
    ensures
        !found,
{
    reveal_strlit("@");
    let text = lower_case(body@);
    let word = "@"@ + lower_case(user@);
    if found {
        let i = choose|i: int| stands_alone(text, word, i);
        assert(text.subrange(i, i + word.len())[0] == text[i]);
        assert(word[0] == '@');
        assert(body@[i] == '@');
    }
}

/// A longer name is that of somebody else: `@alice2` does not mention `alice`.
pub proof fn law_longer_name_is_another(
    rest: Seq<char>,
    body: &str,
    user: &str,
    found: bool,
)
    requires
        call_ensures(body_mentions_user, (body, user), found),
        is_ascii_text(body@),
        is_ascii_text(user@),
        body@ == "@"@ + user@ + rest,
        rest.len() > 0,
        continues_a_word(rest[0]),
        forall|i: int| 0 < i < body@.len() ==> #[trigger] body@[i] != '@',
    ensures
        !found,
{
    reveal_strlit("@");
    let text = lower_case(body@);
    let word = "@"@ + lower_case(user@);
    if found {
        let i = choose|i: int| stands_alone(text, word, i);
        assert(text.subrange(i, i + word.len())[0] == text[i]);
        assert(word[0] == '@');
        assert(body@[i] == '@');
        assert(i == 0);
        assert(body@[1 + user@.len() as int] == rest[0]);
        assert(text[word.len() as int] == ascii_lowered(body@)[word.len() as int]);
    }
}

/// A page of comments is followed by the next one of the same issue if it is
/// full, with a hundred comments; otherwise, and if it is refused, the next
/// issue follows, with its first page.
pub proof fn law_comment_pages(
    state: MentionState,
    issues: Seq<u64>,
    user: Seq<char>,
    reply: CommentsReply,
)
    ensures
        ({
            let next = state.with_reply(issues, user, reply);
            if 200 <= reply.status < 300 && reply.comments.len() >= 100 {
                next.done == state.done && next.page == state.page + 1 && next.result
                    == state.result
            } else {
                next.done == state.done + 1 && next.page == 1 && next.matching.len() == 0
            }
        }),
{
}

proof fn lemma_mentioning(comments: Seq<IssueComment>, user: Seq<char>, id: u64)
    ensures
        mentioning(comments, user).contains(id) <==> exists|c: int|
            0 <= c < comments.len() && (#[trigger] comments[c]).id == id && mentions(
                comments[c].body@,
                user,
            ),
    decreases comments.len(),
{
    if comments.len() > 0 {
        let front = comments.drop_last();
        let last = comments.last();
        lemma_mentioning(front, user, id);
        let some = mentioning(front, user);
        let all = mentioning(comments, user);
        if some.contains(id) {
            let p = choose|p: int| 0 <= p < some.len() && some[p] == id;
            assert(all[p] == id);
            let c = choose|c: int|
                0 <= c < front.len() && (#[trigger] front[c]).id == id && mentions(
                    front[c].body@,
                    user,
                );
            assert(comments[c].id == id);
        }
        if mentions(last.body@, user) {
            assert(all[all.len() - 1] == last.id);
            assert(comments[comments.len() - 1] == last);
        }
        if all.contains(id) && !some.contains(id) {
            let p = choose|p: int| 0 <= p < all.len() && all[p] == id;
            if p < some.len() {
                assert(some[p] == id);
            }
            assert(comments[comments.len() - 1].id == id);
        }
        if exists|c: int|
            0 <= c < comments.len() && (#[trigger] comments[c]).id == id && mentions(
                comments[c].body@,
                user,
            ) {
            let c = choose|c: int|
                0 <= c < comments.len() && (#[trigger] comments[c]).id == id && mentions(
                    comments[c].body@,
                    user,
                );
            if c < front.len() {
                assert(front[c].id == id);
            }
        }
    }
}

/// The answer is a success, and one of its comments has the id and mentions the
/// user.
pub open spec fn reply_holds_mention(reply: CommentsReply, user: Seq<char>, id: u64) -> bool {
    200 <= reply.status < 300 && exists|c: int|
        0 <= c < reply.comments.len() && (#[trigger] reply.comments[c]).id == id && mentions(
            reply.comments[c].body@,
            user,
        )
}

proof fn lemma_group_mentions(replies: Seq<CommentsReply>, user: Seq<char>, id: u64)
    ensures
        group_mentions(replies, user).contains(id) <==> exists|r: int|
            0 <= r < replies.len() && reply_holds_mention(#[trigger] replies[r], user, id),
    decreases replies.len(),
{
    if replies.len() > 0 {
        let front = replies.drop_last();
        let last = replies.last();
        lemma_group_mentions(front, user, id);
        lemma_mentioning(last.comments, user, id);
        let a = group_mentions(front, user);
        let b = reply_mentions(last, user);
        assert(b.contains(id) <==> reply_holds_mention(last, user, id));
        if a.contains(id) {
            let p = choose|p: int| 0 <= p < a.len() && a[p] == id;
            assert((a + b)[p] == id);
            let r = choose|r: int|
                0 <= r < front.len() && reply_holds_mention(#[trigger] front[r], user, id);
            assert(replies[r] == front[r]);
        }
        if b.contains(id) {
            let p = choose|p: int| 0 <= p < b.len() && b[p] == id;
            assert((a + b)[a.len() + p] == id);
            assert(replies[replies.len() - 1] == last);
        }
        if (a + b).contains(id) {
            let p = choose|p: int| 0 <= p < (a + b).len() && (a + b)[p] == id;
            if p < a.len() {
                assert(a[p] == id);
            } else {
                assert(b[p - a.len()] == id);
            }
        }
        if exists|r: int|
            0 <= r < replies.len() && reply_holds_mention(#[trigger] replies[r], user, id) {
            let r = choose|r: int|
                0 <= r < replies.len() && reply_holds_mention(#[trigger] replies[r], user, id);
            if r < front.len() {
                assert(front[r] == replies[r]);
            }
        }
    }
}

/// Which entries stand in a listing of the mentions of all issues: of an issue
/// and a comment exactly if one of the answers about that issue holds the
/// comment, and it mentions the user; of an issue alone exactly if no answer
/// about it holds such a comment.
proof fn lemma_entry_of_issue(
    issues: Seq<u64>,
    groups: Seq<Seq<CommentsReply>>,
    user: Seq<char>,
    g: int,
    id: u64,
)
    requires
        issues.len() == groups.len(),
        0 <= g < issues.len(),
    ensures
        (exists|r: int|
            0 <= r < groups[g].len() && reply_holds_mention(#[trigger] groups[g][r], user, id))
            ==> all_entries(issues, groups, user).contains(
            MentionedIssue { number: issues[g], comment_id: id },
        ),
        (forall|r: int, c: u64|
            0 <= r < groups[g].len() ==> !#[trigger] reply_holds_mention(groups[g][r], user, c))
            ==> all_entries(issues, groups, user).contains(
            MentionedIssue { number: issues[g], comment_id: 0 },
        ),
    decreases issues.len(),
{
    let (x, y) = (issues.drop_last(), groups.drop_last());
    let before = all_entries(x, y, user);
    let matching = group_mentions(groups.last(), user);
    let own = issue_entries(issues.last(), matching);
    let all = all_entries(issues, groups, user);
    assert(all == before + own);
    if g < x.len() {
        lemma_entry_of_issue(x, y, user, g, id);
        assert(x[g] == issues[g] && y[g] == groups[g]);
        assert forall|e: MentionedIssue| before.contains(e) implies all.contains(e) by {
            let p = choose|p: int| 0 <= p < before.len() && before[p] == e;
            assert(all[p] == e);
        }
    } else {
        lemma_group_mentions(groups[g], user, id);
        if matching.contains(id) {
            let p = choose|p: int| 0 <= p < matching.len() && matching[p] == id;
            assert(own[p] == MentionedIssue { number: issues[g], comment_id: id });
            assert(all[before.len() + p] == own[p]);
        }
        if matching.len() == 0 {
            assert(own[0] == MentionedIssue { number: issues[g], comment_id: 0 });
            assert(all[before.len() as int] == own[0]);
        } else {
            lemma_group_mentions(groups[g], user, matching[0]);
            assert(matching.contains(matching[0]));
        }
    }
}

/// A comment that mentions the user, in an answer about an issue that has been
/// gone through, has its entry: the number of that issue and the id of the
/// comment. An issue without such a comment has an entry without a comment.
pub proof fn law_mention_gets_its_entry(
    listing: MentionListing,
    replies: Seq<CommentsReply>,
    g: int,
    id: u64,
)
    requires
        by_issue(replies).0.len() <= listing.issues@.len(),
        listing.progress() == MentionState::fresh().with_replies(
            listing.issues@,
            listing.mentioned_user@,
            replies,
        ),
        0 <= g < by_issue(replies).0.len(),
    ensures
        (exists|r: int|
            0 <= r < by_issue(replies).0[g].len() && reply_holds_mention(
                #[trigger] by_issue(replies).0[g][r],
                listing.mentioned_user@,
                id,
            )) ==> listing.result@.contains(
            MentionedIssue { number: listing.issues@[g], comment_id: id },
        ),
        (forall|r: int, c: u64|
            0 <= r < by_issue(replies).0[g].len() ==> !#[trigger] reply_holds_mention(
                by_issue(replies).0[g][r],
                listing.mentioned_user@,
                c,
            )) ==> listing.result@.contains(
            MentionedIssue { number: listing.issues@[g], comment_id: 0 },
        ),
{
    let groups = by_issue(replies).0;
    law_entries_are_those_of_each_issue(listing.issues@, listing.mentioned_user@, replies);
    assert(listing.progress().result == listing.result@);
    let gone = listing.issues@.take(groups.len() as int);
    assert(gone[g] == listing.issues@[g]);
    lemma_entry_of_issue(gone, groups, listing.mentioned_user@, g, id);
}

/// Every entry of a listing of mentions is of an issue that has been gone
/// through, and of a comment in an answer about that issue that mentions the
/// user; or it is without a comment, and then no answer about that issue holds
/// such a comment.
pub proof fn law_entry_is_a_mention(
    listing: MentionListing,
    replies: Seq<CommentsReply>,
    p: int,
)
    requires
        by_issue(replies).0.len() <= listing.issues@.len(),
        listing.progress() == MentionState::fresh().with_replies(
            listing.issues@,
            listing.mentioned_user@,
            replies,
        ),
        0 <= p < listing.result@.len(),
    ensures
        exists|g: int|
            {
                let answers = #[trigger] by_issue(replies).0[g];
                let user = listing.mentioned_user@;
                let entry = listing.result@[p];
                &&& 0 <= g < by_issue(replies).0.len()
                &&& entry.number == listing.issues@[g]
                &&& (exists|r: int|
                    0 <= r < answers.len() && reply_holds_mention(
                        #[trigger] answers[r],
                        user,
                        entry.comment_id,
                    )) || entry.comment_id == 0 && forall|r: int, c: u64|
                    0 <= r < answers.len() ==> !#[trigger] reply_holds_mention(answers[r], user, c)
            },
{
    let groups = by_issue(replies).0;
    let user = listing.mentioned_user@;
    law_entries_are_those_of_each_issue(listing.issues@, user, replies);
    assert(listing.progress().result == listing.result@);
    let gone = listing.issues@.take(groups.len() as int);
    let g = lemma_entry_origin(gone, groups, user, p);
    assert(gone[g] == listing.issues@[g]);
    let matching = group_mentions(groups[g], user);
    let entry = listing.result@[p];
    if matching.len() > 0 {
        lemma_group_mentions(groups[g], user, entry.comment_id);
    } else {
        assert forall|r: int, c: u64| 0 <= r < groups[g].len() implies !#[trigger]
            reply_holds_mention(groups[g][r], user, c) by {
            lemma_group_mentions(groups[g], user, c);
        }
    }
}

/// Which issue an entry stems from.
proof fn lemma_entry_origin(
    issues: Seq<u64>,
    groups: Seq<Seq<CommentsReply>>,
    user: Seq<char>,
    p: int,
) -> (g: int)
    requires
        issues.len() == groups.len(),
        0 <= p < all_entries(issues, groups, user).len(),
    ensures
        0 <= g < issues.len(),
        all_entries(issues, groups, user)[p].number == issues[g],
        ({
            let matching = group_mentions(groups[g], user);
            if matching.len() == 0 {
                all_entries(issues, groups, user)[p].comment_id == 0
            } else {
                matching.contains(all_entries(issues, groups, user)[p].comment_id)
            }
        }),
    decreases issues.len(),
{
    let (x, y) = (issues.drop_last(), groups.drop_last());
    let before = all_entries(x, y, user);
    let matching = group_mentions(groups.last(), user);
    let own = issue_entries(issues.last(), matching);
    assert(all_entries(issues, groups, user) == before + own);
    if p < before.len() {
        let g = lemma_entry_origin(x, y, user, p);
        assert(x[g] == issues[g] && y[g] == groups[g]);
        g
    } else {
        let k = p - before.len();
        assert(all_entries(issues, groups, user)[p] == own[k]);
        if matching.len() > 0 {
            assert(own[k].comment_id == matching[k]);
        }
        issues.len() - 1
    }
}

// ---------------------------------------------------------------------------
// Laws of answers
// ---------------------------------------------------------------------------

/// What a listing of assigned issues makes of an answer: an answer that is no
/// success, or cannot be read, is an error and changes nothing; an empty page
/// completes the listing; any other page is added behind the issues so far, and
/// the next one is asked for.
pub proof fn law_page_of_issues_is_taken(
    listing: &mut IssueListing,
    status: u16,
    error: Option<GithubErrorResponse>,
    parsed: Option<Vec<Issue>>,
    complete: Result<bool, String>,
)
    requires
        call_ensures(IssueListing::next, (listing, status, &error, parsed), complete),
    ensures
        complete is Ok <==> 200 <= status < 300 && parsed is Some,
        complete is Err ==> final(listing).issues@ == old(listing).issues@ && final(listing).page
            == old(listing).page,
        complete is Ok ==> complete->Ok_0 == (parsed->0@.len() == 0),
        complete is Ok ==> final(listing).issues@ == old(listing).issues@ + parsed->0@,
        complete is Ok ==> final(listing).page == old(listing).page + (if parsed->0@.len() > 0 {
            1int
        } else {
            0
        }),
        complete is Err && 200 <= status < 300 ==> complete->Err_0@
            == "deserializing GitHub issue list"@,
{
    if complete is Ok && parsed->0@.len() == 0 {
        assert(old(listing).issues@ + parsed->0@ =~= old(listing).issues@);
    }
}

/// What a listing of reviews makes of a page of pull requests: they are the next
/// ones to be asked for their reviews, from the first on; an empty page completes
/// the listing.
pub proof fn law_page_of_pulls_is_taken(
    listing: &mut ReviewListing,
    status: u16,
    error: Option<GithubErrorResponse>,
    parsed: Option<Vec<u64>>,
    complete: Result<bool, String>,
)
    requires
        call_ensures(ReviewListing::next_pulls, (listing, status, &error, parsed), complete),
    ensures
        complete is Ok <==> 200 <= status < 300 && parsed is Some,
        complete is Ok ==> complete->Ok_0 == (parsed->0@.len() == 0),
        final(listing).reviews@ == old(listing).reviews@,
        complete is Ok && parsed->0@.len() > 0 ==> final(listing).prs@ == parsed->0@
            && final(listing).asked == 0 && final(listing).page == old(listing).page + 1,
        complete is Err || parsed->0@.len() == 0 ==> final(listing).prs@ == old(listing).prs@
            && final(listing).asked == old(listing).asked && final(listing).page
            == old(listing).page,
        complete is Err && 200 <= status < 300 ==> complete->Err_0@
            == "deserializing GitHub pulls list"@,
{
    let (before, after) = (old(listing).progress(), final(listing).progress());
    assert(after.prs == final(listing).prs@ && before.prs == old(listing).prs@);
    assert(after.asked == final(listing).asked && before.asked == old(listing).asked);
    assert(after.page == final(listing).page && before.page == old(listing).page);
}

/// What a listing of reviews makes of the reviews of a pull request: each is
/// added behind those so far, with its id and its author, and with the number of
/// the pull request that was asked for.
pub proof fn law_reviews_of_a_pull_are_taken(
    listing: &mut ReviewListing,
    status: u16,
    error: Option<GithubErrorResponse>,
    parsed: Option<Vec<Review>>,
    taken: Result<(), String>,
)
    requires
        call_ensures(ReviewListing::next_reviews, (listing, status, &error, parsed), taken),
    ensures
        taken is Ok <==> 200 <= status < 300 && parsed is Some,
        taken is Err ==> *final(listing) == *old(listing),
        taken is Ok ==> final(listing).asked == old(listing).asked + 1,
        taken is Ok ==> final(listing).reviews@.len() == old(listing).reviews@.len()
            + parsed->0@.len(),
        taken is Ok ==> forall|i: int|
            0 <= i < parsed->0@.len() ==> {
                let review = #[trigger] final(listing).reviews@[old(listing).reviews@.len() + i];
                &&& review.id == parsed->0@[i].id
                &&& review.user@ == parsed->0@[i].login@
                &&& review.pr_number == old(listing).prs@[old(listing).asked as int]
            },
        taken is Err && 200 <= status < 300 ==> taken->Err_0@ == "deserializing GitHub PR reviews"@,
{
    let (before, after) = (old(listing).progress(), final(listing).progress());
    assert(before.reviews.len() == old(listing).reviews@.len());
    assert(after.reviews.len() == final(listing).reviews@.len());
    if taken is Ok {
        let n = old(listing).reviews@.len();
        assert(after.asked == final(listing).asked && before.asked == old(listing).asked);
        let own = reviews_of(old(listing).prs@[old(listing).asked as int], parsed->0@);
        assert(after.reviews == before.reviews + own);
        assert forall|i: int| 0 <= i < parsed->0@.len() implies {
            let review = #[trigger] final(listing).reviews@[n + i];
            &&& review.id == parsed->0@[i].id
            &&& review.user@ == parsed->0@[i].login@
            &&& review.pr_number == old(listing).prs@[old(listing).asked as int]
        } by {
            let review = final(listing).reviews@[n + i];
            assert(after.reviews[n + i] == (review.pr_number, review.id, review.user@));
            assert(after.reviews[n + i] == own[i]);
        }
    }
}

/// What a listing of mentions makes of a page of its search: the issues are
/// added behind those so far; an empty page ends the search.
pub proof fn law_page_of_the_search_is_taken(
    listing: &mut MentionListing,
    status: u16,
    error: Option<GithubErrorResponse>,
    parsed: Option<Vec<u64>>,
    taken: Result<(), String>,
)
    requires
        call_ensures(MentionListing::next_search, (listing, status, &error, parsed), taken),
    ensures
        taken is Ok <==> 200 <= status < 300 && parsed is Some,
        taken is Err ==> *final(listing) == *old(listing),
        taken is Ok ==> final(listing).issues@ == old(listing).issues@ + parsed->0@,
        taken is Ok ==> (final(listing).searching <==> parsed->0@.len() > 0),
        taken is Ok && parsed->0@.len() > 0 ==> final(listing).page == old(listing).page + 1,
        final(listing).result@ == old(listing).result@,
        taken is Err && 200 <= status < 300 ==> taken->Err_0@
            == "deserializing GitHub search issues response"@,
{
    assert(final(listing).progress().result == final(listing).result@);
}

/// What a listing of mentions makes of a page of comments. A full page is
/// followed by the next one of the same issue. Any other one ends the issue,
/// which gets an entry for each comment of its pages that mentions the user, or
/// one without a comment.
pub proof fn law_page_of_comments_is_taken(
    listing: &mut MentionListing,
    status: u16,
    parsed: Option<Vec<IssueComment>>,
    taken: Result<(), String>,
)
    requires
        call_ensures(MentionListing::next_comments, (listing, status, parsed), taken),
    ensures
        taken is Err <==> 200 <= status < 300 && parsed is None,
        taken is Err ==> *final(listing) == *old(listing),
        final(listing).issues@ == old(listing).issues@,
        taken is Ok && 200 <= status < 300 && parsed->0@.len() >= 100 ==> final(listing).done
            == old(listing).done && final(listing).comment_page == old(listing).comment_page + 1
            && final(listing).result@ == old(listing).result@,
        taken is Ok && (!(200 <= status < 300) || parsed->0@.len() < 100) ==> final(listing).done
            == old(listing).done + 1 && final(listing).comment_page == 1
            && final(listing).result@.len() > old(listing).result@.len(),
{
    let (before, after) = (old(listing).progress(), final(listing).progress());
    assert(before.done == old(listing).done && after.done == final(listing).done);
    assert(before.page == old(listing).comment_page && after.page == final(listing).comment_page);
    assert(before.result == old(listing).result@ && after.result == final(listing).result@);
}

/// What a client does with an answer keeps its token, and takes note of the
/// number of requests that are left if the answer says it.
pub proof fn law_client_takes_note(
    client: &mut GitHubClient,
    attempt: Attempt,
    reply: ApiReply,
    now: u64,
    next: Directive,
    left: u32,
)
    requires
        call_ensures(GitHubClient::send_request_at, (client, attempt, &Some(reply), now), next),
    ensures
        final(client).token@ == old(client).token@,
        reply.remaining is Some && reply.remaining->0@ == decimal(left as nat)
            ==> final(client).remaining == left,
        reply.remaining is None ==> final(client).remaining == old(client).remaining,
        attempt is Retry ==> next is Deliver,
        attempt is First && reply.status != 403 && !(200 <= reply.status < 300) ==> next is Deliver,
        attempt is First && reply.status == 403 ==> next is SleepThenRetry || next is Fail,
{
    law_requests_left_are_taken_note_of(old(client).remaining, reply@, left);
}

/// What a client does with the answer to a first try. A success with fewer than
/// five requests left is handed out after a wait for the reset that the answer
/// names, and one with more left at once. A forbidden request is sent once more
/// after such a wait if no requests are left, or its body speaks of a rate limit
/// or of abuse.
pub proof fn law_client_waits_for_the_reset(
    client: &mut GitHubClient,
    reply: ApiReply,
    now: u64,
    next: Directive,
    left: u32,
    reset: u64,
    at: int,
)
    requires
        call_ensures(
            GitHubClient::send_request_at,
            (client, Attempt::First, &Some(reply), now),
            next,
        ),
        reply.reset is Some,
        reply.reset->0@ == decimal(reset as nat),
        now < reset <= now + 300,
    ensures
        200 <= reply.status < 300 && reply.remaining is Some && reply.remaining->0@ == decimal(
            left as nat,
        ) ==> (if left < 5 {
            next is SleepThenDeliver && now + next->SleepThenDeliver_0 == reset
        } else {
            next is Deliver
        }),
        200 <= reply.status < 300 && reply.remaining is None ==> next is Deliver,
        reply.status == 403 && (occurs_at(reply.body@, "rate limit"@, at) || occurs_at(
            reply.body@,
            "abuse"@,
            at,
        ) || reply.remaining is Some && reply.remaining->0@ == "0"@) ==> next is SleepThenRetry
            && now + next->SleepThenRetry_0 == reset,
{
    let model = reply@;
    assert(model.reset == Some(decimal(reset as nat)));
    lemma_forbidden_request(model, reset, now, at);
    if 200 <= reply.status < 300 && reply.remaining is Some && reply.remaining->0@ == decimal(
        left as nat,
    ) {
        law_few_requests_left_make_it_wait(model, left, reset, now);
    }
}

proof fn lemma_forbidden_request(reply: ReplyModel, reset: u64, now: u64, at: int)
    ensures
        reply.status == 403 ==> {
            let next = directive(Attempt::First, Some(reply), now);
            (occurs_at(reply.body, "rate limit"@, at) || occurs_at(reply.body, "abuse"@, at)
                || reply.remaining == Some("0"@)) && reply.reset == Some(decimal(reset as nat))
                && now < reset <= now + 300 ==> next is SleepThenRetry && now
                + next->SleepThenRetry_0 == reset
        },
{
    if reply.status == 403 {
        law_forbidden_request(reply, reset, now, at);
    }
}

/// A forbidden request that fails is reported with its status and the message of
/// its body.
pub proof fn law_client_reports_the_error(
    client: &mut GitHubClient,
    reply: ApiReply,
    now: u64,
    next: Directive,
    text: String,
)
    requires
        call_ensures(
            GitHubClient::send_request_at,
            (client, Attempt::First, &Some(reply), now),
            next,
        ),
        call_ensures(format_github_error, (reply.status, &reply.error), text),
        reply.status == 403,
        reply.reset is None,
    ensures
        next is Fail,
        next->Fail_0@ == text@,
{
}

/// A question for the reviews of a pull request that fails is an error that says
/// so; any other question fails with its cause.
pub proof fn law_failed_question(listing: ReviewListing, cause: String, message: String)
    requires
        call_ensures(ReviewListing::failure, (&listing, cause), message),
    ensures
        listing.asked < listing.prs@.len() ==> message@ == "sending GitHub PR reviews request"@,
        listing.asked >= listing.prs@.len() ==> message@ == cause@,
{
}

/// When the comments of an issue are over, the issue gets exactly one entry for
/// each comment that was found to mention the user, in order, or exactly one
/// without a comment if none was.
pub proof fn law_entries_of_an_issue(
    listing: &mut MentionListing,
    status: u16,
    parsed: Option<Vec<IssueComment>>,
    taken: Result<(), String>,
)
    requires
        call_ensures(MentionListing::next_comments, (listing, status, parsed), taken),
        !(200 <= status < 300),
    ensures
        ({
            let number = old(listing).issues@[old(listing).done as int];
            let (before, after) = (old(listing).result@, final(listing).result@);
            let matching = old(listing).matching@;
            &&& matching.len() == 0 ==> after == before.push(
                MentionedIssue { number, comment_id: 0 },
            )
            &&& matching.len() > 0 ==> after.len() == before.len() + matching.len() && after.take(
                before.len() as int,
            ) == before && forall|i: int|
                0 <= i < matching.len() ==> #[trigger] after[before.len() + i] == (MentionedIssue {
                    number,
                    comment_id: matching[i],
                })
        }),
{
    let number = old(listing).issues@[old(listing).done as int];
    let (before, after) = (old(listing).progress(), final(listing).progress());
    let matching = old(listing).matching@;
    assert(before.result == old(listing).result@ && after.result == final(listing).result@);
    assert(before.matching == matching);
    assert(matching + Seq::<u64>::empty() =~= matching);
    assert(after.result == before.result + issue_entries(number, matching));
    if matching.len() == 0 {
        assert(after.result =~= before.result.push(MentionedIssue { number, comment_id: 0 }));
    } else {
        assert(after.result.take(before.result.len() as int) =~= before.result);
    }
}

/// Of a page that is followed by another one of the same issue, the comments
/// that mention the user are taken note of behind those before, and no others
/// are.
pub proof fn law_mentions_of_a_page(
    listing: &mut MentionListing,
    status: u16,
    comments: Vec<IssueComment>,
    taken: Result<(), String>,
    id: u64,
)
    requires
        call_ensures(MentionListing::next_comments, (listing, status, Some(comments)), taken),
        200 <= status < 300,
        comments@.len() >= 100,
    ensures
        ({
            let (before, after) = (old(listing).matching@, final(listing).matching@);
            &&& before.len() <= after.len() <= before.len() + comments@.len()
            &&& after.take(before.len() as int) == before
            &&& after.skip(before.len() as int).contains(id) <==> exists|c: int|
                0 <= c < comments@.len() && (#[trigger] comments@[c]).id == id && mentions(
                    comments@[c].body@,
                    old(listing).mentioned_user@,
                )
        }),
{
    let user = old(listing).mentioned_user@;
    let (before, after) = (old(listing).matching@, final(listing).matching@);
    assert(old(listing).progress().matching == before);
    assert(final(listing).progress().matching == after);
    let found = mentioning(comments@, user);
    lemma_mentioning(comments@, user, id);
    lemma_mentioning_count(comments@, user);
    assert(after == before + found);
    assert(after.take(before.len() as int) =~= before);
    assert(after.skip(before.len() as int) =~= found);
}

proof fn lemma_mentioning_count(comments: Seq<IssueComment>, user: Seq<char>)
    ensures
        mentioning(comments, user).len() <= comments.len(),
    decreases comments.len(),
{
    if comments.len() > 0 {
        lemma_mentioning_count(comments.drop_last(), user);
    }
}

} // verus!
