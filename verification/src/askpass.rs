//! Answers to the credential prompts of git. Git invokes the program with a
//! prompt as its first argument, such as `Username for 'https://github.com': `.
use vstd::prelude::*;

use crate::git::TOKEN_USER;
use crate::text::{ascii_lower, ascii_lowered, contains, contains_str, occurs_at, views};

verus! {

/// The environment variable that makes the program answer a prompt instead of
/// its normal work.
pub const ASKPASS_MODE_ENV: &'static str = "AO_ASKPASS_MODE";

/// The environment variable that holds the token.
pub const GIT_TOKEN_ENV: &'static str = "AO_GIT_TOKEN";

/// What is printed, and the exit code.
pub struct Answer {
    pub exit_code: i32,
    pub output: Option<String>,
}

/// The prompt among the arguments; nothing is an empty prompt.
pub open spec fn prompt_of(args: Seq<Seq<char>>) -> Seq<char> {
    if args.len() > 1 {
        args[1]
    } else {
        Seq::empty()
    }
}

/// The prompt asks for a user name.
pub open spec fn asks_username(prompt: Seq<char>) -> bool {
    contains(ascii_lowered(prompt), "username"@)
}

/// Answers a prompt: with the user name for tokens if it asks for one,
/// otherwise with the token. Without a token the answer is a failure.
pub fn run(args: &Vec<String>, token: Option<String>) -> (answer: Answer)
    ensures
        match token {
            Some(t) => if t@.len() > 0 {
                &&& answer.exit_code == 0
                &&& answer.output is Some
                &&& answer.output->0@ == (if asks_username(prompt_of(views(args@))) {
                    TOKEN_USER@
                } else {
                    t@
                })
            } else {
                answer.exit_code == 1 && answer.output is None
            },
            None => answer.exit_code == 1 && answer.output is None,
        },
{
    let secret = match token {
        Some(t) => t,
        None => {
            return Answer { exit_code: 1, output: None };
        },
    };
    if secret.as_str().is_empty() {
        return Answer { exit_code: 1, output: None };
    }
    let prompt = if args.len() > 1 {
        args[1].clone()
    } else {
        String::new()
    };
    assert(prompt@ =~= prompt_of(views(args@)));
    let output = if contains_str(ascii_lower(prompt.as_str()).as_str(), "username") {
        TOKEN_USER.to_owned()
    } else {
        secret
    };
    Answer { exit_code: 0, output: Some(output) }
}

/// A word of small letters stands in a text at `at`, in whatever case.
pub open spec fn spelt_at(text: Seq<char>, word: Seq<char>, at: int) -> bool {
    &&& 0 <= at
    &&& at + word.len() <= text.len()
    &&& forall|k: int|
        0 <= k < word.len() ==> text[at + k] == #[trigger] word[k] || text[at + k] as u32 + 32
            == word[k] as u32
}

proof fn lemma_spelt_at(text: Seq<char>, at: int)
    ensures
        spelt_at(text, "username"@, at) <==> occurs_at(ascii_lowered(text), "username"@, at),
{
    reveal_strlit("username");
    let word = "username"@;
    let lowered = ascii_lowered(text);
    if spelt_at(text, word, at) {
        assert forall|k: int| 0 <= k < 8 implies #[trigger] lowered.subrange(at, at + 8)[k]
            == word[k] by {
            assert(text[at + k] == word[k] || text[at + k] as u32 + 32 == word[k] as u32);
            assert(lowered[at + k] == word[k]);
        }
        assert(lowered.subrange(at, at + 8) =~= word);
    }
    if occurs_at(lowered, word, at) {
        assert forall|k: int| 0 <= k < word.len() implies text[at + k] == #[trigger] word[k]
            || text[at + k] as u32 + 32 == word[k] as u32 by {
            assert(lowered.subrange(at, at + 8)[k] == lowered[at + k]);
        }
    }
}

/// A prompt in which the word `username` stands, in whatever case, is answered
/// with the user name for tokens.
pub proof fn law_user_name_is_answered(
    args: Vec<String>,
    token: Option<String>,
    answer: Answer,
    at: int,
)
    requires
        call_ensures(run, (&args, token), answer),
        token is Some,
        token->0@.len() > 0,
        args@.len() > 1,
        spelt_at(args@[1]@, "username"@, at),
    ensures
        answer.exit_code == 0,
        answer.output is Some,
        answer.output->0@ == "x-access-token"@,
{
    assert(prompt_of(views(args@)) == args@[1]@);
    lemma_spelt_at(args@[1]@, at);
}

/// A prompt in which the word `username` does not stand is answered with the
/// token; so is the absence of a prompt.
pub proof fn law_token_is_answered(args: Vec<String>, token: Option<String>, answer: Answer)
    requires
        call_ensures(run, (&args, token), answer),
        token is Some,
        token->0@.len() > 0,
        args@.len() > 1 ==> forall|at: int| !#[trigger] spelt_at(args@[1]@, "username"@, at),
    ensures
        answer.exit_code == 0,
        answer.output is Some,
        answer.output->0@ == token->0@,
{
    reveal_strlit("username");
    let prompt = prompt_of(views(args@));
    let lowered = ascii_lowered(prompt);
    if contains(lowered, "username"@) {
        let at = choose|at: int| occurs_at(lowered, "username"@, at);
        assert(args@.len() > 1);
        assert(prompt == args@[1]@);
        lemma_spelt_at(prompt, at);
    }
}

/// Without a token, or with an empty one, nothing is answered, and the program
/// fails.
pub proof fn law_nothing_is_answered_without_a_token(
    args: Vec<String>,
    token: Option<String>,
    answer: Answer,
)
    requires
        call_ensures(run, (&args, token), answer),
    ensures
        answer.exit_code == 0 <==> token is Some && token->0@.len() > 0,
        answer.exit_code != 0 ==> answer.exit_code == 1 && answer.output is None,
{
}

} // verus!
