//! Decisions at the start and at the end of the program.
use vstd::prelude::*;

use crate::paths::{join, joined_path};
use crate::text::{decimal, decimal_u64, opt_view};

verus! {

/// The environment variable that holds the GitHub token.
pub const TOKEN_ENV: &'static str = "GITHUB_TOKEN";

/// The GitHub token from the environment. There has to be one.
pub fn require_token(value: Option<String>) -> (token: Result<String, String>)
    ensures
        match token {
            Ok(t) => value is Some && t@ == value->0@ && t@.len() > 0,
            Err(e) => (value is None || value->0@.len() == 0) && e@
                == "GITHUB_TOKEN environment variable is not set or empty"@,
        },
{
    match value {
        Some(t) => if t.as_str().is_empty() {
            Err("GITHUB_TOKEN environment variable is not set or empty".to_string())
        } else {
            Ok(t)
        },
        None => Err("GITHUB_TOKEN environment variable is not set or empty".to_string()),
    }
}

/// The data directory: the one that was asked for, or else
/// `.agent-orchestrator` in the home directory, or in the current one if there
/// is no home.
pub open spec fn data_location(asked: Option<Seq<char>>, home: Option<Seq<char>>) -> Seq<char> {
    match asked {
        Some(dir) => dir,
        None => joined_path(
            match home {
                Some(h) => h,
                None => "."@,
            },
            ".agent-orchestrator"@,
        ),
    }
}

/// The data directory.
pub fn data_dir(asked: Option<String>, home: Option<String>) -> (dir: String)
    ensures
        dir@ == data_location(opt_view(asked), opt_view(home)),
{
    match asked {
        Some(dir) => dir,
        None => {
            let base = match home {
                Some(h) => h,
                None => ".".to_string(),
            };
            join(base.as_str(), ".agent-orchestrator")
        },
    }
}

/// The limit on the number of runs, in words.
pub fn concurrency_text(limit: usize) -> (text: String)
    ensures
        text@ == (if limit == 0 {
            "unlimited"@
        } else {
            decimal(limit as nat)
        }),
{
    if limit == 0 {
        "unlimited".to_string()
    } else {
        decimal_u64(limit as u64)
    }
}

/// What a signal to shut down leads to.
#[derive(Clone, Copy, Debug, PartialEq, Eq, Structural)]
pub enum SignalAction {
    /// Start no more runs, and wait for those that are going on.
    Graceful,
    /// Exit at once.
    Exit,
}

/// Whether the program has been asked to shut down.
pub struct Shutdown {
    pub requested: bool,
}

impl Shutdown {
    /// Nobody has asked yet.
    pub fn new() -> (shutdown: Shutdown)
        ensures
            !shutdown.requested,
    {
        Shutdown { requested: false }
    }

    /// Takes a signal: the first one asks to shut down, any other to exit at
    /// once.
    pub fn signal(&mut self) -> (action: SignalAction)
        ensures
            final(self).requested,
            action == (if old(self).requested {
                SignalAction::Exit
            } else {
                SignalAction::Graceful
            }),
    {
        if self.requested {
            SignalAction::Exit
        } else {
            self.requested = true;
            SignalAction::Graceful
        }
    }
}

// ---------------------------------------------------------------------------
// Laws
// ---------------------------------------------------------------------------

/// The program needs a token that is not empty, and uses it as it is.
pub proof fn law_token_is_needed(value: Option<String>, token: Result<String, String>)
    requires
        call_ensures(require_token, (value,), token),
    ensures
        token is Ok <==> value is Some && value->0@.len() > 0,
        token matches Ok(t) ==> t@ == value->0@,
{
}

/// The data directory that was asked for is used, whatever the home directory
/// is. Otherwise it is `.agent-orchestrator` in the home directory, or in the
/// current one if there is no home.
pub proof fn law_data_directory(asked: Option<String>, home: Option<String>, dir: String)
    requires
        call_ensures(data_dir, (asked, home), dir),
    ensures
        asked matches Some(a) ==> dir@ == a@,
        asked is None && home is None ==> dir@ == "./.agent-orchestrator"@,
        asked is None && home is Some && home->0@.len() > 0 && home->0@.last() != '/' ==> dir@
            == home->0@ + "/.agent-orchestrator"@,
        asked is None && home is Some && home->0@.len() > 0 && home->0@.last() == '/' ==> dir@
            == home->0@ + ".agent-orchestrator"@,
{
    reveal_strlit(".");
    reveal_strlit("/");
    reveal_strlit(".agent-orchestrator");
    reveal_strlit("/.agent-orchestrator");
    reveal_strlit("./.agent-orchestrator");
    if asked is None {
        if let Some(h) = home {
            assert(h@ + "/"@ + ".agent-orchestrator"@ =~= h@ + "/.agent-orchestrator"@);
        } else {
            assert("."@ + "/"@ + ".agent-orchestrator"@ =~= "./.agent-orchestrator"@);
        }
    }
}

/// No limit on the number of runs reads `unlimited`, any other reads as its
/// number.
pub proof fn law_limit_in_words(limit: usize, text: String)
    requires
        call_ensures(concurrency_text, (limit,), text),
    ensures
        limit == 0 ==> text@ == "unlimited"@,
        limit > 0 ==> text@ == decimal(limit as nat),
{
}

/// The first signal asks to shut down, and any further one to exit at once.
pub proof fn law_second_signal_exits(shutdown: &mut Shutdown, action: SignalAction)
    requires
        call_ensures(Shutdown::signal, (shutdown,), action),
    ensures
        final(shutdown).requested,
        action is Graceful <==> !old(shutdown).requested,
        action is Exit <==> old(shutdown).requested,
{
}

} // verus!
