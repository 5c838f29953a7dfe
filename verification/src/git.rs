//! Decisions around the repository clone and the per-event worktrees. The
//! operations on the repository are carried out by the caller; what comes
//! next after each of them is decided here.
use vstd::prelude::*;

use crate::paths::{join, joined_path};
use crate::text::{char_replaced, occurs_at, replace_char};

verus! {

// ---------------------------------------------------------------------------
// Credentials
// ---------------------------------------------------------------------------

/// What a GitHub token looks like: one of four prefixes, then letters,
/// digits, underscores and hyphens.
pub const TOKEN_PATTERN: &'static str = "(ghp_|gho_|ghs_|github_pat_)[A-Za-z0-9_-]+";

/// What a token is replaced by: its prefix, masked.
pub const TOKEN_REPLACEMENT: &'static str = "${1}***";

/// The user name for token authentication.
pub const TOKEN_USER: &'static str = "x-access-token";

/// A character of the secret part of a token.
pub open spec fn token_char(c: char) -> bool {
    ('A' <= c && c <= 'Z') || ('a' <= c && c <= 'z') || ('0' <= c && c <= '9') || c == '_' || c
        == '-'
}

/// The length of the token prefix at the start of `s`, or 0 if there is none.
pub open spec fn token_prefix(s: Seq<char>) -> int {
    if occurs_at(s, "ghp_"@, 0) || occurs_at(s, "gho_"@, 0) || occurs_at(s, "ghs_"@, 0) {
        4
    } else if occurs_at(s, "github_pat_"@, 0) {
        11
    } else {
        0
    }
}

/// How many token characters `s` starts with.
pub open spec fn token_run(s: Seq<char>) -> int
    decreases s.len(),
{
    if s.len() > 0 && token_char(s[0]) {
        1 + token_run(s.skip(1))
    } else {
        0
    }
}

/// A token starts `s`: a prefix and at least one token character.
pub open spec fn starts_with_token(s: Seq<char>) -> bool {
    let p = token_prefix(s);
    p > 0 && p < s.len() && token_char(s[p])
}

/// `s` with the secret part of every token, from left to right, masked.
pub open spec fn scrubbed(s: Seq<char>) -> Seq<char>
    decreases s.len(),
{
    if s.len() == 0 {
        s
    } else if starts_with_token(s) {
        let p = token_prefix(s);
        proof {
            lemma_token_run(s.skip(p));
        }
        s.take(p) + "***"@ + scrubbed(s.skip(p + token_run(s.skip(p))))
    } else {
        seq![s[0]] + scrubbed(s.skip(1))
    }
}

/// `regex::Regex::replace_all`, for the pattern of tokens: every match is
/// replaced, in order and without overlap. A match starts at the leftmost
/// position at which one of the four prefixes is followed by a token
/// character, and takes in as many token characters as follow. The
/// replacement keeps the prefix.
#[verifier::external_body]
fn regex_replace_all(pattern: &str, text: &str, replacement: &str) -> (out: String)
    requires
        pattern@ == TOKEN_PATTERN@,
        replacement@ == TOKEN_REPLACEMENT@,
    ensures
        out@ == scrubbed(text@),
{
    let regex = regex::Regex::new(pattern).unwrap();
    regex.replace_all(text, replacement).into_owned()
}

/// Masks GitHub tokens in a text before it is logged.
pub fn scrub_credentials(s: &str) -> (out: String)
    ensures
        out@ == scrubbed(s@),
{
    regex_replace_all(TOKEN_PATTERN, s, TOKEN_REPLACEMENT)
}

/// The user name with which to authenticate: the one in the URL, if any.
pub fn credential_user(username_from_url: Option<&str>) -> (user: String)
    ensures
        user@ == (match username_from_url {
            Some(u) => u@,
            None => TOKEN_USER@,
        }),
{
    match username_from_url {
        Some(u) => u.to_owned(),
        None => TOKEN_USER.to_owned(),
    }
}

// ---------------------------------------------------------------------------
// Laws of scrubbing
// ---------------------------------------------------------------------------

proof fn lemma_prefix_shape(s: Seq<char>)
    ensures
        token_prefix(s) == 0 || token_prefix(s) == 4 || token_prefix(s) == 11,
        token_prefix(s) <= s.len(),
        token_prefix(s) == 4 <==> s.len() >= 4 && s[0] == 'g' && s[1] == 'h' && (s[2] == 'p'
            || s[2] == 'o' || s[2] == 's') && s[3] == '_',
        token_prefix(s) == 11 <==> s.len() >= 11 && s[0] == 'g' && s[1] == 'i' && s[2] == 't'
            && s[3] == 'h' && s[4] == 'u' && s[5] == 'b' && s[6] == '_' && s[7] == 'p' && s[8]
            == 'a' && s[9] == 't' && s[10] == '_',
{
    reveal_strlit("ghp_");
    reveal_strlit("gho_");
    reveal_strlit("ghs_");
    reveal_strlit("github_pat_");
    lemma_occurs_4(s, "ghp_"@);
    lemma_occurs_4(s, "gho_"@);
    lemma_occurs_4(s, "ghs_"@);
    let p = "github_pat_"@;
    if s.len() >= 11 {
        let cut = s.subrange(0, 11);
        assert(forall|i: int| 0 <= i < 11 ==> #[trigger] cut[i] == s[i]);
        if s[0] == p[0] && s[1] == p[1] && s[2] == p[2] && s[3] == p[3] && s[4] == p[4] && s[5]
            == p[5] && s[6] == p[6] && s[7] == p[7] && s[8] == p[8] && s[9] == p[9] && s[10]
            == p[10] {
            assert(cut =~= p);
        }
    }
}

proof fn lemma_occurs_4(s: Seq<char>, p: Seq<char>)
    requires
        p.len() == 4,
    ensures
        occurs_at(s, p, 0) <==> s.len() >= 4 && s[0] == p[0] && s[1] == p[1] && s[2] == p[2] && s[3]
            == p[3],
{
    if s.len() >= 4 {
        let cut = s.subrange(0, 4);
        assert(forall|i: int| 0 <= i < 4 ==> #[trigger] cut[i] == s[i]);
        if s[0] == p[0] && s[1] == p[1] && s[2] == p[2] && s[3] == p[3] {
            assert(cut =~= p);
        }
    }
}

/// A run of token characters lies within the text, and is not empty where a
/// token character starts it.
pub proof fn lemma_token_run(s: Seq<char>)
    ensures
        0 <= token_run(s) <= s.len(),
        s.len() > 0 && token_char(s[0]) ==> token_run(s) > 0,
    decreases s.len(),
{
    if s.len() > 0 && token_char(s[0]) {
        lemma_token_run(s.skip(1));
    }
}

proof fn lemma_scrubbed_head(s: Seq<char>)
    ensures
        s.len() > 0 ==> scrubbed(s).len() > 0 && scrubbed(s)[0] == s[0],
        s.len() > 0 && starts_with_token(s) ==> s[0] == 'g',
{
    lemma_prefix_shape(s);
    reveal_strlit("***");
}

/// If the scrubbed text starts with `q` and a token character, then so does
/// the text itself.
proof fn lemma_scrubbed_start(s: Seq<char>, q: Seq<char>)
    requires
        scrubbed(s).len() > q.len(),
        forall|i: int| 0 <= i < q.len() ==> #[trigger] q[i] != 'g' && scrubbed(s)[i] == q[i],
        token_char(scrubbed(s)[q.len() as int]),
    ensures
        s.len() > q.len(),
        forall|i: int| 0 <= i < q.len() ==> s[i] == #[trigger] q[i],
        token_char(s[q.len() as int]),
    decreases q.len(),
{
    lemma_scrubbed_head(s);
    if q.len() > 0 {
        assert(q[0] != 'g' && scrubbed(s)[0] == q[0]);
        let rest = s.skip(1);
        let q2 = q.skip(1);
        assert(scrubbed(s) == seq![s[0]] + scrubbed(rest));
        assert forall|i: int| 0 <= i < q2.len() implies #[trigger] q2[i] != 'g' && scrubbed(rest)[i]
            == q2[i] by {
            assert(q2[i] == q[i + 1]);
            assert(scrubbed(s)[i + 1] == scrubbed(rest)[i]);
        }
        assert(scrubbed(s)[q.len() as int] == scrubbed(rest)[q.len() - 1]);
        lemma_scrubbed_start(rest, q2);
        assert forall|i: int| 0 <= i < q.len() implies s[i] == #[trigger] q[i] by {
            if i > 0 {
                assert(q2[i - 1] == q[i]);
                assert(rest[i - 1] == s[i]);
            }
        }
        assert(rest[q.len() - 1] == s[q.len() as int]);
    }
}

/// After scrubbing, no token is left anywhere in the text.
pub proof fn law_scrubbed_has_no_token(s: Seq<char>, i: int)
    requires
        0 <= i <= scrubbed(s).len(),
    ensures
        !starts_with_token(scrubbed(s).skip(i)),
    decreases s.len(),
{
    let out = scrubbed(s);
    lemma_prefix_shape(out.skip(i));
    if s.len() > 0 {
        lemma_prefix_shape(s);
        if starts_with_token(s) {
            let p = token_prefix(s);
            let run = token_run(s.skip(p));
            lemma_token_run(s.skip(p));
            let rest = s.skip(p + run);
            reveal_strlit("***");
            assert(out == s.take(p) + "***"@ + scrubbed(rest));
            assert(out.len() == p + 3 + scrubbed(rest).len());
            assert(forall|j: int| 0 <= j < p ==> #[trigger] out[j] == s[j]);
            assert(out[p] == '*' && out[p + 1] == '*' && out[p + 2] == '*');
            if i >= p + 3 {
                law_scrubbed_has_no_token(rest, i - (p + 3));
                assert(out.skip(i) =~= scrubbed(rest).skip(i - (p + 3)));
            } else {
                assert(out.skip(i)[0] == out[i]);
                if i == 0 {
                    let cut = out.skip(0);
                    assert(forall|j: int| 0 <= j < out.len() ==> #[trigger] cut[j] == out[j]);
                    assert(cut[p] == '*');
                    assert(cut[2] == s[2] && cut[1] == s[1]);
                }
            }
        } else {
            let rest = s.skip(1);
            assert(out == seq![s[0]] + scrubbed(rest));
            if i > 0 {
                law_scrubbed_has_no_token(rest, i - 1);
                assert(out.skip(i) =~= scrubbed(rest).skip(i - 1));
            } else if starts_with_token(out.skip(0)) {
                assert(out.skip(0) =~= out);
                let p = token_prefix(out);
                let q = out.subrange(1, p);
                assert(forall|j: int| 0 <= j < q.len() ==> #[trigger] q[j] == out[j + 1]);
                assert(forall|j: int|
                    0 <= j < scrubbed(rest).len() ==> out[j + 1] == #[trigger] scrubbed(rest)[j]);
                assert forall|j: int| 0 <= j < q.len() implies #[trigger] q[j] != 'g' && scrubbed(
                    rest,
                )[j] == q[j] by {
                    assert(q[j] == out[j + 1]);
                }
                assert(scrubbed(rest)[q.len() as int] == out[p]);
                lemma_scrubbed_start(rest, q);
                assert forall|j: int| 1 <= j < p implies s[j] == #[trigger] out[j] by {
                    assert(rest[j - 1] == s[j]);
                    assert(q[j - 1] == out[j]);
                }
                assert(rest[p - 1] == s[p]);
                assert(s[0] == out[0]);
                assert(starts_with_token(s));
            }
        }
    }
}

/// A text without tokens is left as it is.
pub proof fn law_scrubbing_keeps_other_text(s: Seq<char>)
    requires
        forall|i: int| 0 <= i <= s.len() ==> !starts_with_token(#[trigger] s.skip(i)),
    ensures
        scrubbed(s) == s,
    decreases s.len(),
{
    if s.len() > 0 {
        assert(s.skip(0) =~= s);
        let rest = s.skip(1);
        assert forall|i: int| 0 <= i <= rest.len() implies !starts_with_token(
            #[trigger] rest.skip(i),
        ) by {
            assert(rest.skip(i) =~= s.skip(i + 1));
        }
        law_scrubbing_keeps_other_text(rest);
        assert(seq![s[0]] + rest =~= s);
    }
}

// ---------------------------------------------------------------------------
// The clone
// ---------------------------------------------------------------------------

/// Where the clone of a repository stands:
/// `<data_root>/<owner>/<repo>/repo`.
pub open spec fn repo_location(data_root: Seq<char>, owner: Seq<char>, repo: Seq<char>) -> Seq<
    char,
> {
    joined_path(joined_path(joined_path(data_root, owner), repo), "repo"@)
}

/// The public URL of a repository. It never holds a token.
pub open spec fn repo_url(owner: Seq<char>, repo: Seq<char>) -> Seq<char> {
    "https://github.com/"@ + owner + "/"@ + repo + ".git"@
}

/// The full name of a local branch.
pub open spec fn head_ref(branch: Seq<char>) -> Seq<char> {
    "refs/heads/"@ + branch
}

/// The full name of a branch of the remote.
pub open spec fn origin_ref(branch: Seq<char>) -> Seq<char> {
    "refs/remotes/origin/"@ + branch
}

/// What is to be done to have an up-to-date clone.
pub enum RepoAction {
    /// The clone is there: pull the branch.
    Pull { branch: String },
    /// The clone is missing: clone from the URL.
    Clone { url: String },
}

/// Where a clone stands, and what is to be done to have it up to date.
pub struct RepoPlan {
    pub path: String,
    pub action: RepoAction,
}

/// The public URL of a repository.
pub fn clone_url(owner: &str, repo: &str) -> (url: String)
    ensures
        url@ == repo_url(owner@, repo@),
{
    let mut url = "https://github.com/".to_string();
    url.append(owner);
    url.append("/");
    url.append(repo);
    url.append(".git");
    url
}

/// The full name of a local branch.
pub fn branch_ref(branch: &str) -> (name: String)
    ensures
        name@ == head_ref(branch@),
{
    let mut name = "refs/heads/".to_string();
    name.append(branch);
    name
}

/// The full name of a branch of the remote.
pub fn remote_ref(branch: &str) -> (name: String)
    ensures
        name@ == origin_ref(branch@),
{
    let mut name = "refs/remotes/origin/".to_string();
    name.append(branch);
    name
}

/// The refspec that pushes a branch to the branch of the same name.
pub fn push_refspec(branch: &str) -> (spec: String)
    ensures
        spec@ == head_ref(branch@) + ":"@ + head_ref(branch@),
{
    let full = branch_ref(branch);
    let mut spec = full.clone();
    spec.append(":");
    spec.append(full.as_str());
    spec
}

/// Where the clone of a repository stands.
pub fn repo_path(data_root: &str, owner: &str, repo: &str) -> (path: String)
    ensures
        path@ == repo_location(data_root@, owner@, repo@),
{
    let below_owner = join(data_root, owner);
    let below_repo = join(below_owner.as_str(), repo);
    join(below_repo.as_str(), "repo")
}

/// Decides how to have a clone at `<data_root>/<owner>/<repo>/repo`: if it
/// `exists` there, the latest changes of the default branch are pulled,
/// otherwise the repository is cloned.
pub fn ensure_repo(
    data_root: &str,
    owner: &str,
    repo: &str,
    default_branch: &str,
    exists: bool,
) -> (plan: RepoPlan)
    ensures
        plan.path@ == repo_location(data_root@, owner@, repo@),
        exists ==> (plan.action matches RepoAction::Pull { branch } && branch@ == default_branch@),
        !exists ==> (plan.action matches RepoAction::Clone { url } && url@ == repo_url(
            owner@,
            repo@,
        )),
{
    let path = repo_path(data_root, owner, repo);
    let action = if exists {
        RepoAction::Pull { branch: default_branch.to_owned() }
    } else {
        RepoAction::Clone { url: clone_url(owner, repo) }
    };
    RepoPlan { path, action }
}

/// The error of a clone that failed. Tokens in the cause are masked.
pub fn clone_failure(owner: &str, repo: &str, cause: &str) -> (message: String)
    ensures
        message@ == "git clone failed for "@ + owner@ + "/"@ + repo@ + ": "@ + scrubbed(cause@),
{
    let mut message = "git clone failed for ".to_string();
    message.append(owner);
    message.append("/");
    message.append(repo);
    message.append(": ");
    message.append(scrub_credentials(cause).as_str());
    message
}

// ---------------------------------------------------------------------------
// Pulling
// ---------------------------------------------------------------------------

/// The operations of a pull. Each one is carried out by the caller, who
/// reports whether it succeeded.
#[derive(Clone, Copy, Debug, PartialEq, Eq, Structural)]
pub enum PullStage {
    OpenRepo,
    FindOrigin,
    Fetch,
    FindFetchHead,
    FetchHeadTarget,
    FindCommit,
    FindLocalBranch,
    FastForward,
    SetHead,
    CheckoutHead,
    CreateBranch,
    /// The pull is over and went through.
    Complete,
    /// The pull is over; the existing checkout is used as it is.
    GaveUp,
}

/// What follows an operation of a pull.
pub open spec fn pull_successor(stage: PullStage, ok: bool) -> PullStage {
    match stage {
        PullStage::FindLocalBranch => if ok {
            PullStage::FastForward
        } else {
            PullStage::CreateBranch
        },
        PullStage::Complete => PullStage::Complete,
        PullStage::GaveUp => PullStage::GaveUp,
        _ => if !ok {
            PullStage::GaveUp
        } else {
            match stage {
                PullStage::OpenRepo => PullStage::FindOrigin,
                PullStage::FindOrigin => PullStage::Fetch,
                PullStage::Fetch => PullStage::FindFetchHead,
                PullStage::FindFetchHead => PullStage::FetchHeadTarget,
                PullStage::FetchHeadTarget => PullStage::FindCommit,
                PullStage::FindCommit => PullStage::FindLocalBranch,
                PullStage::FastForward => PullStage::SetHead,
                PullStage::SetHead => PullStage::CheckoutHead,
                _ => PullStage::Complete,
            }
        },
    }
}

/// The stage that a pull is in after operations with the given outcomes.
pub open spec fn pull_after(outcomes: Seq<bool>) -> PullStage
    decreases outcomes.len(),
{
    if outcomes.len() == 0 {
        PullStage::OpenRepo
    } else {
        pull_successor(pull_after(outcomes.drop_last()), outcomes.last())
    }
}

pub open spec fn pull_over(stage: PullStage) -> bool {
    stage == PullStage::Complete || stage == PullStage::GaveUp
}

impl PullStage {
    /// The first operation of a pull.
    pub fn start() -> (stage: PullStage)
        ensures
            stage == pull_after(Seq::<bool>::empty()),
    {
        PullStage::OpenRepo
    }

    /// What follows this operation. A failure is never fatal: it ends the
    /// pull, except that a missing local branch is created.
    pub fn next(self, ok: bool) -> (stage: PullStage)
        ensures
            stage == pull_successor(self, ok),
    {
        match self {
            PullStage::FindLocalBranch => if ok {
                PullStage::FastForward
            } else {
                PullStage::CreateBranch
            },
            PullStage::Complete => PullStage::Complete,
            PullStage::GaveUp => PullStage::GaveUp,
            _ => {
                if !ok {
                    return PullStage::GaveUp;
                }
                match self {
                    PullStage::OpenRepo => PullStage::FindOrigin,
                    PullStage::FindOrigin => PullStage::Fetch,
                    PullStage::Fetch => PullStage::FindFetchHead,
                    PullStage::FindFetchHead => PullStage::FetchHeadTarget,
                    PullStage::FetchHeadTarget => PullStage::FindCommit,
                    PullStage::FindCommit => PullStage::FindLocalBranch,
                    PullStage::FastForward => PullStage::SetHead,
                    PullStage::SetHead => PullStage::CheckoutHead,
                    _ => PullStage::Complete,
                }
            },
        }
    }

    /// How the cause of a failed operation is logged: where the remote may
    /// have had a part in it, tokens are masked.
    pub fn logged_cause(self, cause: &str) -> (text: String)
        ensures
            text@ == (if self == PullStage::Fetch || self == PullStage::FastForward || self
                == PullStage::CreateBranch {
                scrubbed(cause@)
            } else {
                cause@
            }),
    {
        match self {
            PullStage::Fetch | PullStage::FastForward | PullStage::CreateBranch => {
                scrub_credentials(cause)
            },
            _ => cause.to_owned(),
        }
    }
}

pub open spec fn pull_rank(stage: PullStage) -> nat {
    match stage {
        PullStage::OpenRepo => 10,
        PullStage::FindOrigin => 9,
        PullStage::Fetch => 8,
        PullStage::FindFetchHead => 7,
        PullStage::FetchHeadTarget => 6,
        PullStage::FindCommit => 5,
        PullStage::FindLocalBranch => 4,
        PullStage::FastForward => 3,
        PullStage::SetHead => 2,
        PullStage::CheckoutHead => 1,
        PullStage::CreateBranch => 1,
        PullStage::Complete => 0,
        PullStage::GaveUp => 0,
    }
}

/// A pull is over after at most ten operations, whatever their outcomes.
pub proof fn law_pull_ends(outcomes: Seq<bool>)
    requires
        outcomes.len() >= 10,
    ensures
        pull_over(pull_after(outcomes)),
{
    lemma_pull_rank(outcomes);
}

proof fn lemma_pull_rank(outcomes: Seq<bool>)
    ensures
        pull_rank(pull_after(outcomes)) + outcomes.len() <= 10 || pull_over(pull_after(outcomes)),
    decreases outcomes.len(),
{
    if outcomes.len() > 0 {
        lemma_pull_rank(outcomes.drop_last());
    }
}

/// Nothing is changed in the clone unless the fetch, and everything up to the
/// fetched commit, succeeded.
pub proof fn law_pull_changes_only_after_fetch(outcomes: Seq<bool>)
    requires
        pull_after(outcomes) == PullStage::FastForward || pull_after(outcomes)
            == PullStage::CreateBranch,
    ensures
        outcomes.len() == 7,
        forall|i: int| 0 <= i < 6 ==> #[trigger] outcomes[i],
        outcomes[6] == (pull_after(outcomes) == PullStage::FastForward),
{
    lemma_pull_straight(outcomes);
}

proof fn lemma_pull_straight(outcomes: Seq<bool>)
    ensures
        ({
            let stage = pull_after(outcomes);
            let n = outcomes.len();
            &&& stage == PullStage::OpenRepo <==> n == 0
            &&& (pull_rank(stage) >= 4 ==> n + pull_rank(stage) == 10 && forall|i: int|
                0 <= i < n ==> #[trigger] outcomes[i])
            &&& (stage == PullStage::FastForward || stage == PullStage::CreateBranch ==> n == 7 && (
            forall|i: int| 0 <= i < 6 ==> #[trigger] outcomes[i]) && outcomes[6] == (stage
                == PullStage::FastForward))
        }),
    decreases outcomes.len(),
{
    if outcomes.len() > 0 {
        let front = outcomes.drop_last();
        lemma_pull_straight(front);
        assert(forall|i: int| 0 <= i < front.len() ==> #[trigger] outcomes[i] == front[i]);
    }
}

// ---------------------------------------------------------------------------
// Empty repositories
// ---------------------------------------------------------------------------

/// What is known of the head of a repository that was opened.
#[derive(Clone, Copy, Debug, PartialEq, Eq, Structural)]
pub struct HeadState {
    /// The head points directly at an object.
    pub has_target: bool,
    /// The head leads to a commit.
    pub leads_to_commit: bool,
}

/// Whether a repository has no commits. One that cannot be opened (`None`),
/// or has no head (`Some(None)`), counts as empty.
pub fn is_repo_empty(head: Option<Option<HeadState>>) -> (empty: bool)
    ensures
        empty == !(head matches Some(Some(h)) && h.has_target && h.leads_to_commit),
{
    match head {
        Some(Some(h)) => !h.has_target || !h.leads_to_commit,
        _ => true,
    }
}

/// The operations that give an empty repository its first commit.
#[derive(Clone, Copy, Debug, PartialEq, Eq, Structural)]
pub enum SeedStage {
    OpenRepo,
    MakeSignature,
    WriteTree,
    Commit,
    FindBranch,
    CreateBranch,
    SetHead,
    Push,
    Seeded,
}

/// What follows an operation of seeding, or nothing if its failure is fatal.
/// A branch that is not there is created; a push that fails is let be.
pub open spec fn seed_successor(stage: SeedStage, ok: bool) -> Option<SeedStage> {
    match stage {
        SeedStage::FindBranch => Some(
            if ok {
                SeedStage::Push
            } else {
                SeedStage::CreateBranch
            },
        ),
        SeedStage::Push => Some(SeedStage::Seeded),
        SeedStage::Seeded => Some(SeedStage::Seeded),
        _ => if !ok {
            None
        } else {
            Some(
                match stage {
                    SeedStage::OpenRepo => SeedStage::MakeSignature,
                    SeedStage::MakeSignature => SeedStage::WriteTree,
                    SeedStage::WriteTree => SeedStage::Commit,
                    SeedStage::Commit => SeedStage::FindBranch,
                    SeedStage::CreateBranch => SeedStage::SetHead,
                    _ => SeedStage::Push,
                },
            )
        },
    }
}

/// What is reported if an operation of seeding fails for the given cause.
pub open spec fn seed_failure(stage: SeedStage, cause: Seq<char>) -> Seq<char> {
    match stage {
        SeedStage::OpenRepo => "failed to open repository for initial commit"@,
        SeedStage::MakeSignature => "failed to create git signature for initial commit"@,
        _ => cause,
    }
}

impl SeedStage {
    /// What follows this operation, or the error if its failure is fatal.
    pub fn next(self, outcome: Result<(), String>) -> (next: Result<SeedStage, String>)
        ensures
            match next {
                Ok(stage) => seed_successor(self, outcome is Ok) == Some(stage),
                Err(e) => seed_successor(self, outcome is Ok) is None && outcome is Err && e@
                    == seed_failure(self, outcome->Err_0@),
            },
    {
        match self {
            SeedStage::FindBranch => match outcome {
                Ok(_) => Ok(SeedStage::Push),
                Err(_) => Ok(SeedStage::CreateBranch),
            },
            SeedStage::Push => Ok(SeedStage::Seeded),
            SeedStage::Seeded => Ok(SeedStage::Seeded),
            _ => match outcome {
                Err(cause) => match self {
                    SeedStage::OpenRepo => Err(
                        "failed to open repository for initial commit".to_string(),
                    ),
                    SeedStage::MakeSignature => Err(
                        "failed to create git signature for initial commit".to_string(),
                    ),
                    _ => Err(cause),
                },
                Ok(_) => match self {
                    SeedStage::OpenRepo => Ok(SeedStage::MakeSignature),
                    SeedStage::MakeSignature => Ok(SeedStage::WriteTree),
                    SeedStage::WriteTree => Ok(SeedStage::Commit),
                    SeedStage::Commit => Ok(SeedStage::FindBranch),
                    SeedStage::CreateBranch => Ok(SeedStage::SetHead),
                    _ => Ok(SeedStage::Push),
                },
            },
        }
    }
}

// ---------------------------------------------------------------------------
// Worktrees
// ---------------------------------------------------------------------------

/// The name under which the worktree of a branch is kept: slashes become
/// hyphens.
pub fn worktree_name(branch: &str) -> (name: String)
    ensures
        name@ == char_replaced(branch@, '/', '-'),
{
    replace_char(branch, '/', '-')
}

/// The operations that create a worktree.
#[derive(Clone, Copy, Debug, PartialEq, Eq, Structural)]
pub enum CreateStage {
    CreateParent,
    /// Find out whether the repository has any commits: success means that it
    /// has some.
    CheckCommits,
    Seed,
    OpenRepo,
    FindLocalBase,
    FindRemoteBase,
    PeelBase,
    CreateBranch,
    FindBranch,
    AddWorktree,
    Created,
}

/// What follows an operation of creating a worktree, or nothing if its
/// failure is fatal.
pub open spec fn create_successor(stage: CreateStage, ok: bool) -> Option<CreateStage> {
    match stage {
        CreateStage::CheckCommits => Some(
            if ok {
                CreateStage::OpenRepo
            } else {
                CreateStage::Seed
            },
        ),
        CreateStage::FindLocalBase => Some(
            if ok {
                CreateStage::PeelBase
            } else {
                CreateStage::FindRemoteBase
            },
        ),
        CreateStage::Created => Some(CreateStage::Created),
        _ => if !ok {
            None
        } else {
            Some(
                match stage {
                    CreateStage::CreateParent => CreateStage::CheckCommits,
                    CreateStage::Seed => CreateStage::OpenRepo,
                    CreateStage::OpenRepo => CreateStage::FindLocalBase,
                    CreateStage::FindRemoteBase => CreateStage::PeelBase,
                    CreateStage::PeelBase => CreateStage::CreateBranch,
                    CreateStage::CreateBranch => CreateStage::FindBranch,
                    CreateStage::FindBranch => CreateStage::AddWorktree,
                    _ => CreateStage::Created,
                },
            )
        },
    }
}

/// What is reported if an operation of creating a worktree fails.
pub open spec fn create_failure(
    stage: CreateStage,
    base: Seq<char>,
    branch: Seq<char>,
    cause: Seq<char>,
) -> Seq<char> {
    match stage {
        CreateStage::OpenRepo => "failed to open repository for worktree creation"@,
        CreateStage::FindRemoteBase => "failed to find base reference '"@ + base + "'"@,
        CreateStage::PeelBase => "failed to peel base reference '"@ + base + "' to commit"@,
        CreateStage::CreateBranch => "failed to create branch '"@ + branch
            + "' (may already exist)"@,
        CreateStage::FindBranch => "failed to find newly created branch reference '"@ + branch
            + "'"@,
        CreateStage::AddWorktree => "failed to create worktree"@,
        _ => cause,
    }
}

impl CreateStage {
    fn failure(self, base: &str, branch: &str, cause: String) -> (message: String)
        ensures
            message@ == create_failure(self, base@, branch@, cause@),
    {
        match self {
            CreateStage::OpenRepo => "failed to open repository for worktree creation".to_string(),
            CreateStage::FindRemoteBase => "failed to find base reference '".to_string().concat(
                base,
            ).concat("'"),
            CreateStage::PeelBase => "failed to peel base reference '".to_string().concat(
                base,
            ).concat("' to commit"),
            CreateStage::CreateBranch => "failed to create branch '".to_string().concat(
                branch,
            ).concat("' (may already exist)"),
            CreateStage::FindBranch => "failed to find newly created branch reference '".to_string().concat(
            branch).concat("'"),
            CreateStage::AddWorktree => "failed to create worktree".to_string(),
            _ => cause,
        }
    }

    /// What follows this operation in the creation of a worktree for `branch`
    /// that starts from `base`, or the error if its failure is fatal.
    pub fn next(self, base: &str, branch: &str, outcome: Result<(), String>) -> (next: Result<
        CreateStage,
        String,
    >)
        ensures
            match next {
                Ok(stage) => create_successor(self, outcome is Ok) == Some(stage),
                Err(e) => create_successor(self, outcome is Ok) is None && outcome is Err && e@
                    == create_failure(self, base@, branch@, outcome->Err_0@),
            },
    {
        match self {
            CreateStage::CheckCommits => match outcome {
                Ok(_) => Ok(CreateStage::OpenRepo),
                Err(_) => Ok(CreateStage::Seed),
            },
            CreateStage::FindLocalBase => match outcome {
                Ok(_) => Ok(CreateStage::PeelBase),
                Err(_) => Ok(CreateStage::FindRemoteBase),
            },
            CreateStage::Created => Ok(CreateStage::Created),
            _ => match outcome {
                Err(cause) => Err(self.failure(base, branch, cause)),
                Ok(_) => match self {
                    CreateStage::CreateParent => Ok(CreateStage::CheckCommits),
                    CreateStage::Seed => Ok(CreateStage::OpenRepo),
                    CreateStage::OpenRepo => Ok(CreateStage::FindLocalBase),
                    CreateStage::FindRemoteBase => Ok(CreateStage::PeelBase),
                    CreateStage::PeelBase => Ok(CreateStage::CreateBranch),
                    CreateStage::CreateBranch => Ok(CreateStage::FindBranch),
                    CreateStage::FindBranch => Ok(CreateStage::AddWorktree),
                    _ => Ok(CreateStage::Created),
                },
            },
        }
    }
}

/// The first operation of creating a worktree.
pub fn create_worktree() -> (stage: CreateStage)
    ensures
        create_after(Seq::<bool>::empty()) == Some(stage),
{
    CreateStage::CreateParent
}

/// The stage that the creation of a worktree is in after operations with the
/// given outcomes, or nothing once it has failed.
pub open spec fn create_after(outcomes: Seq<bool>) -> Option<CreateStage>
    decreases outcomes.len(),
{
    if outcomes.len() == 0 {
        Some(CreateStage::CreateParent)
    } else {
        match create_after(outcomes.drop_last()) {
            Some(stage) => create_successor(stage, outcomes.last()),
            None => None,
        }
    }
}

/// A branch is created only in a repository that has commits: either some
/// were found, or an initial one was made.
pub proof fn law_branch_only_with_commits(outcomes: Seq<bool>)
    requires
        create_after(outcomes) == Some(CreateStage::CreateBranch),
    ensures
        outcomes.len() > 2,
        outcomes[1] || outcomes[2],
{
    lemma_commits_first(outcomes);
}

proof fn lemma_commits_first(outcomes: Seq<bool>)
    ensures
        match create_after(outcomes) {
            Some(CreateStage::CreateParent) => outcomes.len() == 0,
            Some(CreateStage::CheckCommits) => outcomes.len() == 1,
            Some(CreateStage::Seed) => outcomes.len() == 2 && !outcomes[1],
            Some(CreateStage::OpenRepo) => outcomes.len() >= 2 && (outcomes[1] || (outcomes.len()
                >= 3 && outcomes[2])),
            Some(_) => outcomes.len() >= 3 && (outcomes[1] || outcomes[2]),
            None => true,
        },
    decreases outcomes.len(),
{
    if outcomes.len() > 0 {
        let front = outcomes.drop_last();
        lemma_commits_first(front);
        assert(forall|i: int| 0 <= i < front.len() ==> #[trigger] outcomes[i] == front[i]);
    }
}

/// The operations that remove a worktree and its branch.
#[derive(Clone, Copy, Debug, PartialEq, Eq, Structural)]
pub enum RemoveStage {
    OpenRepo,
    FindWorktree,
    Prune,
    FindBranch,
    DeleteBranch,
    /// Find out whether the directory is still there: success means that it
    /// is.
    CheckPath,
    RemovePath,
    Removed,
}

/// What follows an operation of removing a worktree, or nothing if its
/// failure is fatal. Once the worktree is pruned, no failure is.
pub open spec fn remove_successor(stage: RemoveStage, ok: bool) -> Option<RemoveStage> {
    match stage {
        RemoveStage::OpenRepo => if ok {
            Some(RemoveStage::FindWorktree)
        } else {
            None
        },
        RemoveStage::FindWorktree => if ok {
            Some(RemoveStage::Prune)
        } else {
            None
        },
        RemoveStage::Prune => if ok {
            Some(RemoveStage::FindBranch)
        } else {
            None
        },
        RemoveStage::FindBranch => Some(
            if ok {
                RemoveStage::DeleteBranch
            } else {
                RemoveStage::CheckPath
            },
        ),
        RemoveStage::DeleteBranch => Some(RemoveStage::CheckPath),
        RemoveStage::CheckPath => Some(
            if ok {
                RemoveStage::RemovePath
            } else {
                RemoveStage::Removed
            },
        ),
        RemoveStage::RemovePath => Some(RemoveStage::Removed),
        RemoveStage::Removed => Some(RemoveStage::Removed),
    }
}

/// What is reported if an operation of removing a worktree fails.
pub open spec fn remove_failure(stage: RemoveStage, branch: Seq<char>) -> Seq<char> {
    match stage {
        RemoveStage::OpenRepo => "failed to open repository for worktree removal"@,
        RemoveStage::FindWorktree => "failed to find worktree for branch '"@ + branch + "'"@,
        _ => "git worktree prune failed"@,
    }
}

impl RemoveStage {
    /// What follows this operation in the removal of the worktree of
    /// `branch`, or the error if its failure is fatal.
    pub fn next(self, branch: &str, ok: bool) -> (next: Result<RemoveStage, String>)
        ensures
            match next {
                Ok(stage) => remove_successor(self, ok) == Some(stage),
                Err(e) => remove_successor(self, ok) is None && e@ == remove_failure(
                    self,
                    branch@,
                ),
            },
    {
        match self {
            RemoveStage::OpenRepo => if ok {
                Ok(RemoveStage::FindWorktree)
            } else {
                Err("failed to open repository for worktree removal".to_string())
            },
            RemoveStage::FindWorktree => if ok {
                Ok(RemoveStage::Prune)
            } else {
                Err(
                    "failed to find worktree for branch '".to_string().concat(branch).concat("'"),
                )
            },
            RemoveStage::Prune => if ok {
                Ok(RemoveStage::FindBranch)
            } else {
                Err("git worktree prune failed".to_string())
            },
            RemoveStage::FindBranch => if ok {
                Ok(RemoveStage::DeleteBranch)
            } else {
                Ok(RemoveStage::CheckPath)
            },
            RemoveStage::DeleteBranch => Ok(RemoveStage::CheckPath),
            RemoveStage::CheckPath => if ok {
                Ok(RemoveStage::RemovePath)
            } else {
                Ok(RemoveStage::Removed)
            },
            RemoveStage::RemovePath => Ok(RemoveStage::Removed),
            RemoveStage::Removed => Ok(RemoveStage::Removed),
        }
    }
}

/// The first operation of removing a worktree.
pub fn remove_worktree() -> (stage: RemoveStage)
    ensures
        remove_after(Seq::<bool>::empty()) == Some(stage),
{
    RemoveStage::OpenRepo
}

/// The stage that the removal of a worktree is in after operations with the
/// given outcomes, or nothing once it has failed.
pub open spec fn remove_after(outcomes: Seq<bool>) -> Option<RemoveStage>
    decreases outcomes.len(),
{
    if outcomes.len() == 0 {
        Some(RemoveStage::OpenRepo)
    } else {
        match remove_after(outcomes.drop_last()) {
            Some(stage) => remove_successor(stage, outcomes.last()),
            None => None,
        }
    }
}

/// The branch of a worktree is deleted only after the worktree was found and
/// pruned.
pub proof fn law_branch_outlives_worktree(outcomes: Seq<bool>)
    requires
        remove_after(outcomes) == Some(RemoveStage::DeleteBranch),
    ensures
        outcomes == seq![true, true, true, true],
{
    lemma_remove_straight(outcomes);
    assert(outcomes =~= seq![true, true, true, true]);
}

proof fn lemma_remove_straight(outcomes: Seq<bool>)
    ensures
        match remove_after(outcomes) {
            Some(RemoveStage::OpenRepo) => outcomes.len() == 0,
            Some(RemoveStage::FindWorktree) => outcomes.len() == 1 && outcomes[0],
            Some(RemoveStage::Prune) => outcomes.len() == 2 && outcomes[0] && outcomes[1],
            Some(RemoveStage::FindBranch) => outcomes.len() == 3 && outcomes[0] && outcomes[1]
                && outcomes[2],
            Some(RemoveStage::DeleteBranch) => outcomes.len() == 4 && outcomes[0] && outcomes[1]
                && outcomes[2] && outcomes[3],
            _ => true,
        },
    decreases outcomes.len(),
{
    if outcomes.len() > 0 {
        let front = outcomes.drop_last();
        lemma_remove_straight(front);
        assert(forall|i: int| 0 <= i < front.len() ==> #[trigger] outcomes[i] == front[i]);
    }
}

/// What is known of the changes in a working directory.
#[derive(Clone, Copy, Debug, PartialEq, Eq, Structural)]
pub enum WorkStatus {
    /// The repository could not be opened.
    NotOpened,
    /// The status could not be had.
    Unknown,
    /// The number of files that are new, changed or deleted.
    Entries(usize),
}

/// Whether there are uncommitted changes.
pub fn has_uncommitted_changes(status: WorkStatus) -> (changed: Result<bool, String>)
    ensures
        match status {
            WorkStatus::NotOpened => changed is Err && changed->Err_0@
                == "failed to open repository to check for uncommitted changes"@,
            WorkStatus::Unknown => changed is Err && changed->Err_0@
                == "failed to get repository status"@,
            WorkStatus::Entries(n) => changed == Ok::<bool, String>(n > 0),
        },
{
    match status {
        WorkStatus::NotOpened => Err(
            "failed to open repository to check for uncommitted changes".to_string(),
        ),
        WorkStatus::Unknown => Err("failed to get repository status".to_string()),
        WorkStatus::Entries(n) => Ok(n > 0),
    }
}

// ---------------------------------------------------------------------------
// Laws of names
// ---------------------------------------------------------------------------

/// Where a clone stands and where it comes from: `repo` below the owner and the
/// repository, and the repository of that owner on GitHub. A clone that is there
/// is pulled, on the default branch; one that is not is cloned.
pub proof fn law_clone_is_that_of_its_repository(
    data_root: &str,
    owner: &str,
    repo: &str,
    default_branch: &str,
    exists: bool,
    plan: RepoPlan,
)
    requires
        call_ensures(ensure_repo, (data_root, owner, repo, default_branch, exists), plan),
    ensures
        plan.action is Pull <==> exists,
        plan.action matches RepoAction::Pull { branch } ==> branch@ == default_branch@,
        plan.action matches RepoAction::Clone { url } ==> url@ == "https://github.com/"@ + owner@
            + "/"@ + repo@ + ".git"@,
        data_root@.len() > 0 && data_root@.last() != '/' && crate::paths::plain_name(owner@)
            && crate::paths::plain_name(repo@) ==> plan.path@ == data_root@ + "/"@ + owner@ + "/"@
            + repo@ + "/repo"@,
{
    reveal_strlit("/");
    reveal_strlit("repo");
    reveal_strlit("/repo");
    if data_root@.len() > 0 && data_root@.last() != '/' && crate::paths::plain_name(owner@)
        && crate::paths::plain_name(repo@) {
        assert(owner@[0] != '/' && repo@[0] != '/');
        assert(owner@[owner@.len() - 1] != '/' && repo@[repo@.len() - 1] != '/');
        let below_owner = joined_path(data_root@, owner@);
        assert(below_owner == data_root@ + "/"@ + owner@);
        assert(below_owner.last() == owner@.last());
        let below_repo = joined_path(below_owner, repo@);
        assert(below_repo == below_owner + "/"@ + repo@);
        assert(below_repo.last() == repo@.last());
        assert(plan.path@ =~= data_root@ + "/"@ + owner@ + "/"@ + repo@ + "/repo"@);
    }
}

/// The full names of branches, and that a branch is pushed to the branch of the
/// same name.
pub proof fn law_branch_names(
    branch: &str,
    local: String,
    remote: String,
    refspec: String,
    worktree: String,
)
    requires
        call_ensures(branch_ref, (branch,), local),
        call_ensures(remote_ref, (branch,), remote),
        call_ensures(push_refspec, (branch,), refspec),
        call_ensures(worktree_name, (branch,), worktree),
    ensures
        local@ == "refs/heads/"@ + branch@,
        remote@ == "refs/remotes/origin/"@ + branch@,
        refspec@ == local@ + ":"@ + local@,
        worktree@.len() == branch@.len(),
        forall|i: int|
            0 <= i < branch@.len() ==> #[trigger] worktree@[i] == (if branch@[i] == '/' {
                '-'
            } else {
                branch@[i]
            }),
{
}

/// The user name of a URL is used, and the one for tokens if it has none.
pub proof fn law_credential_user(username: Option<&str>, user: String)
    requires
        call_ensures(credential_user, (username,), user),
    ensures
        username matches Some(u) ==> user@ == u@,
        username is None ==> user@ == "x-access-token"@,
{
}

/// The error of a clone that failed names the repository, and masks the tokens
/// in the cause.
pub proof fn law_clone_failure_masks_tokens(
    owner: &str,
    repo: &str,
    cause: &str,
    masked: String,
    message: String,
)
    requires
        call_ensures(scrub_credentials, (cause,), masked),
        call_ensures(clone_failure, (owner, repo, cause), message),
    ensures
        message@ == "git clone failed for "@ + owner@ + "/"@ + repo@ + ": "@ + masked@,
        forall|i: int| 0 <= i <= masked@.len() ==> !starts_with_token(#[trigger] masked@.skip(i)),
{
    assert forall|i: int| 0 <= i <= masked@.len() implies !starts_with_token(
        #[trigger] masked@.skip(i),
    ) by {
        law_scrubbed_has_no_token(cause@, i);
    }
}

/// Where the remote may have had a part in the failure of a pull, in fetching
/// and in moving or creating a branch, tokens are masked in what is logged;
/// elsewhere the cause is logged as it is.
pub proof fn law_pull_failures_mask_tokens(
    stage: PullStage,
    cause: &str,
    masked: String,
    text: String,
)
    requires
        call_ensures(scrub_credentials, (cause,), masked),
        call_ensures(PullStage::logged_cause, (stage, cause), text),
    ensures
        stage is Fetch || stage is FastForward || stage is CreateBranch ==> text@ == masked@,
        !(stage is Fetch || stage is FastForward || stage is CreateBranch) ==> text@ == cause@,
{
}

// ---------------------------------------------------------------------------
// Laws of the order of operations
// ---------------------------------------------------------------------------

proof fn lemma_pull_step(outcomes: Seq<bool>, k: int)
    requires
        0 <= k < outcomes.len(),
    ensures
        pull_after(outcomes.take(k + 1)) == pull_successor(
            pull_after(outcomes.take(k)),
            outcomes[k],
        ),
{
    assert(outcomes.take(k + 1).drop_last() =~= outcomes.take(k));
    assert(outcomes.take(k + 1).last() == outcomes[k]);
}

/// The operations of a pull that goes through, in order: the repository is
/// opened, its remote is found and fetched from, the fetched commit is found;
/// then the local branch is moved to it, made the current one and checked out,
/// or, if there is none, created.
pub proof fn law_pull_in_order(outcomes: Seq<bool>, has_branch: bool)
    requires
        outcomes == (if has_branch {
            Seq::new(10, |k: int| true)
        } else {
            Seq::new(8, |k: int| k != 6)
        }),
    ensures
        pull_after(outcomes.take(0)) is OpenRepo,
        pull_after(outcomes.take(1)) is FindOrigin,
        pull_after(outcomes.take(2)) is Fetch,
        pull_after(outcomes.take(3)) is FindFetchHead,
        pull_after(outcomes.take(4)) is FetchHeadTarget,
        pull_after(outcomes.take(5)) is FindCommit,
        pull_after(outcomes.take(6)) is FindLocalBranch,
        has_branch ==> pull_after(outcomes.take(7)) is FastForward && pull_after(outcomes.take(8))
            is SetHead && pull_after(outcomes.take(9)) is CheckoutHead,
        !has_branch ==> pull_after(outcomes.take(7)) is CreateBranch,
        pull_after(outcomes) is Complete,
{
    lemma_pull_step(outcomes, 0);
    lemma_pull_step(outcomes, 1);
    lemma_pull_step(outcomes, 2);
    lemma_pull_step(outcomes, 3);
    lemma_pull_step(outcomes, 4);
    lemma_pull_step(outcomes, 5);
    lemma_pull_step(outcomes, 6);
    lemma_pull_step(outcomes, 7);
    if has_branch {
        lemma_pull_step(outcomes, 8);
        lemma_pull_step(outcomes, 9);
    }
    assert(outcomes.take(outcomes.len() as int) =~= outcomes);
}

/// A pull is given up at the first operation that fails, but for the search for
/// the local branch; and it stays given up.
pub proof fn law_pull_gives_up(outcomes: Seq<bool>, more: Seq<bool>)
    requires
        !(pull_after(outcomes) is FindLocalBranch),
        !(pull_after(outcomes) is Complete),
    ensures
        pull_after(outcomes.push(false) + more) is GaveUp,
    decreases more.len(),
{
    let all = outcomes.push(false) + more;
    if more.len() == 0 {
        assert(all.drop_last() =~= outcomes);
        assert(all.last() == false);
    } else {
        law_pull_gives_up(outcomes, more.drop_last());
        assert(all.drop_last() =~= outcomes.push(false) + more.drop_last());
    }
}

/// A repository is taken to be empty unless it could be opened and its head
/// leads to a commit.
pub proof fn law_empty_repository(head: Option<Option<HeadState>>, empty: bool)
    requires
        call_ensures(is_repo_empty, (head,), empty),
    ensures
        head is None ==> empty,
        head == Some(None::<HeadState>) ==> empty,
        head matches Some(Some(h)) ==> (empty <==> !h.has_target || !h.leads_to_commit),
{
}

/// The operations that give an empty repository its first commit, in order: the
/// commit is made of a signature and a tree; if the default branch is not there
/// then, it is created and made the current one; then it is pushed.
pub proof fn law_seeding_in_order(stage: SeedStage, next: Result<SeedStage, String>)
    requires
        call_ensures(SeedStage::next, (stage, Ok(())), next),
    ensures
        next is Ok,
        stage is OpenRepo ==> next->Ok_0 is MakeSignature,
        stage is MakeSignature ==> next->Ok_0 is WriteTree,
        stage is WriteTree ==> next->Ok_0 is Commit,
        stage is Commit ==> next->Ok_0 is FindBranch,
        stage is FindBranch ==> next->Ok_0 is Push,
        stage is CreateBranch ==> next->Ok_0 is SetHead,
        stage is SetHead ==> next->Ok_0 is Push,
        stage is Push ==> next->Ok_0 is Seeded,
        stage is Seeded ==> next->Ok_0 is Seeded,
{
}

/// A failure ends the seeding of a repository with an error, but for a missing
/// branch, which is created, and for a push, which is let be. The error is the
/// cause, unless the repository cannot be opened or no signature can be made.
pub proof fn law_seeding_fails(stage: SeedStage, cause: String, next: Result<SeedStage, String>)
    requires
        call_ensures(SeedStage::next, (stage, Err(cause)), next),
    ensures
        stage is FindBranch ==> next is Ok && next->Ok_0 is CreateBranch,
        stage is Push || stage is Seeded ==> next is Ok && next->Ok_0 is Seeded,
        !(stage is FindBranch || stage is Push || stage is Seeded) ==> next is Err,
        stage is OpenRepo ==> next->Err_0@ == "failed to open repository for initial commit"@,
        stage is MakeSignature ==> next->Err_0@
            == "failed to create git signature for initial commit"@,
        stage is WriteTree || stage is Commit || stage is CreateBranch || stage is SetHead
            ==> next->Err_0@ == cause@,
{
}

proof fn lemma_create_step(outcomes: Seq<bool>, k: int)
    requires
        0 <= k < outcomes.len(),
        create_after(outcomes.take(k)) is Some,
    ensures
        create_after(outcomes.take(k + 1)) == create_successor(
            create_after(outcomes.take(k))->0,
            outcomes[k],
        ),
{
    assert(outcomes.take(k + 1).drop_last() =~= outcomes.take(k));
    assert(outcomes.take(k + 1).last() == outcomes[k]);
}

/// The operations that create a worktree, in order. First a repository without
/// commits is given one. Then the base is looked for among the local branches,
/// and among those of the remote if it is not there; the new branch is made of
/// the commit that it leads to, and the worktree of the branch.
pub proof fn law_worktree_is_created_in_order(
    outcomes: Seq<bool>,
    has_commits: bool,
    has_local: bool,
)
    requires
        ({
            let seed: int = if has_commits {
                0
            } else {
                1
            };
            let remote: int = if has_local {
                0
            } else {
                1
            };
            &&& outcomes.len() == 8 + seed + remote
            &&& forall|k: int|
                0 <= k < outcomes.len() ==> #[trigger] outcomes[k] == (if k == 1 {
                    has_commits
                } else if k == 3 + seed {
                    has_local
                } else {
                    true
                })
        }),
    ensures
        ({
            let seed: int = if has_commits {
                0
            } else {
                1
            };
            let remote: int = if has_local {
                0
            } else {
                1
            };
            &&& create_after(outcomes.take(0)) == Some(CreateStage::CreateParent)
            &&& create_after(outcomes.take(1)) == Some(CreateStage::CheckCommits)
            &&& !has_commits ==> create_after(outcomes.take(2)) == Some(CreateStage::Seed)
            &&& create_after(outcomes.take(2 + seed)) == Some(CreateStage::OpenRepo)
            &&& create_after(outcomes.take(3 + seed)) == Some(CreateStage::FindLocalBase)
            &&& !has_local ==> create_after(outcomes.take(4 + seed)) == Some(
                CreateStage::FindRemoteBase,
            )
            &&& create_after(outcomes.take(4 + seed + remote)) == Some(CreateStage::PeelBase)
            &&& create_after(outcomes.take(5 + seed + remote)) == Some(CreateStage::CreateBranch)
            &&& create_after(outcomes.take(6 + seed + remote)) == Some(CreateStage::FindBranch)
            &&& create_after(outcomes.take(7 + seed + remote)) == Some(CreateStage::AddWorktree)
            &&& create_after(outcomes) == Some(CreateStage::Created)
        }),
{
    lemma_create_step(outcomes, 0);
    lemma_create_step(outcomes, 1);
    lemma_create_step(outcomes, 2);
    lemma_create_step(outcomes, 3);
    lemma_create_step(outcomes, 4);
    lemma_create_step(outcomes, 5);
    lemma_create_step(outcomes, 6);
    lemma_create_step(outcomes, 7);
    if outcomes.len() > 8 {
        lemma_create_step(outcomes, 8);
    }
    if outcomes.len() > 9 {
        lemma_create_step(outcomes, 9);
    }
    assert(outcomes.take(outcomes.len() as int) =~= outcomes);
}

/// A failure ends the creation of a worktree with an error, but for the two
/// operations that find something out. The error says what failed, and names
/// the base or the branch where it is about one.
pub proof fn law_worktree_creation_fails(
    stage: CreateStage,
    base: &str,
    branch: &str,
    cause: String,
    next: Result<CreateStage, String>,
)
    requires
        call_ensures(CreateStage::next, (stage, base, branch, Err(cause)), next),
    ensures
        next is Ok <==> stage is CheckCommits || stage is FindLocalBase || stage is Created,
        stage is CheckCommits ==> next->Ok_0 is Seed,
        stage is FindLocalBase ==> next->Ok_0 is FindRemoteBase,
        stage is CreateParent || stage is Seed ==> next->Err_0@ == cause@,
        stage is OpenRepo ==> next->Err_0@ == "failed to open repository for worktree creation"@,
        stage is FindRemoteBase ==> next->Err_0@ == "failed to find base reference '"@ + base@
            + "'"@,
        stage is PeelBase ==> next->Err_0@ == "failed to peel base reference '"@ + base@
            + "' to commit"@,
        stage is CreateBranch ==> next->Err_0@ == "failed to create branch '"@ + branch@
            + "' (may already exist)"@,
        stage is FindBranch ==> next->Err_0@ == "failed to find newly created branch reference '"@
            + branch@ + "'"@,
        stage is AddWorktree ==> next->Err_0@ == "failed to create worktree"@,
{
}

proof fn lemma_remove_step(outcomes: Seq<bool>, k: int)
    requires
        0 <= k < outcomes.len(),
        remove_after(outcomes.take(k)) is Some,
    ensures
        remove_after(outcomes.take(k + 1)) == remove_successor(
            remove_after(outcomes.take(k))->0,
            outcomes[k],
        ),
{
    assert(outcomes.take(k + 1).drop_last() =~= outcomes.take(k));
    assert(outcomes.take(k + 1).last() == outcomes[k]);
}

/// The operations that remove a worktree, in order: the worktree is found and
/// pruned, then its branch is deleted if it is there, then its directory is
/// removed if it is still there. Once the worktree is pruned, whether the branch
/// can be deleted and the directory can be removed changes nothing.
pub proof fn law_worktree_is_removed_in_order(
    outcomes: Seq<bool>,
    has_branch: bool,
    has_path: bool,
)
    requires
        ({
            let delete: int = if has_branch {
                1
            } else {
                0
            };
            let clear: int = if has_path {
                1
            } else {
                0
            };
            &&& outcomes.len() == 5 + delete + clear
            &&& outcomes[0]
            &&& outcomes[1]
            &&& outcomes[2]
            &&& outcomes[3] == has_branch
            &&& outcomes[4 + delete] == has_path
        }),
    ensures
        ({
            let delete: int = if has_branch {
                1
            } else {
                0
            };
            &&& remove_after(outcomes.take(0)) == Some(RemoveStage::OpenRepo)
            &&& remove_after(outcomes.take(1)) == Some(RemoveStage::FindWorktree)
            &&& remove_after(outcomes.take(2)) == Some(RemoveStage::Prune)
            &&& remove_after(outcomes.take(3)) == Some(RemoveStage::FindBranch)
            &&& has_branch ==> remove_after(outcomes.take(4)) == Some(RemoveStage::DeleteBranch)
            &&& remove_after(outcomes.take(4 + delete)) == Some(RemoveStage::CheckPath)
            &&& has_path ==> remove_after(outcomes.take(5 + delete)) == Some(
                RemoveStage::RemovePath,
            )
            &&& remove_after(outcomes) == Some(RemoveStage::Removed)
        }),
{
    lemma_remove_step(outcomes, 0);
    lemma_remove_step(outcomes, 1);
    lemma_remove_step(outcomes, 2);
    lemma_remove_step(outcomes, 3);
    lemma_remove_step(outcomes, 4);
    if outcomes.len() > 5 {
        lemma_remove_step(outcomes, 5);
    }
    if outcomes.len() > 6 {
        lemma_remove_step(outcomes, 6);
    }
    assert(outcomes.take(outcomes.len() as int) =~= outcomes);
}

/// A failure ends the removal of a worktree with an error as long as the
/// worktree is not pruned, and not afterwards.
pub proof fn law_worktree_removal_fails(
    stage: RemoveStage,
    branch: &str,
    next: Result<RemoveStage, String>,
)
    requires
        call_ensures(RemoveStage::next, (stage, branch, false), next),
    ensures
        next is Err <==> stage is OpenRepo || stage is FindWorktree || stage is Prune,
        stage is OpenRepo ==> next->Err_0@ == "failed to open repository for worktree removal"@,
        stage is FindWorktree ==> next->Err_0@ == "failed to find worktree for branch '"@ + branch@
            + "'"@,
        stage is Prune ==> next->Err_0@ == "git worktree prune failed"@,
{
}

/// There are uncommitted changes exactly if the status of the working directory
/// has entries; if it cannot be had, nothing is said of them.
pub proof fn law_changes_are_entries(status: WorkStatus, changed: Result<bool, String>)
    requires
        call_ensures(has_uncommitted_changes, (status,), changed),
    ensures
        status matches WorkStatus::Entries(n) ==> changed is Ok && (changed->Ok_0 <==> n != 0),
        !(status is Entries) ==> changed is Err,
        status is NotOpened ==> changed->Err_0@
            == "failed to open repository to check for uncommitted changes"@,
        status is Unknown ==> changed->Err_0@ == "failed to get repository status"@,
{
}

} // verus!
