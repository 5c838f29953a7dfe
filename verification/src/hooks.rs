//! Checks and actions before and after a workflow step.
use vstd::prelude::*;

use crate::process::Exit;
use crate::template::{render, rendered, Vars};
use crate::text::{signed_decimal, views};

verus! {

/// A hook that runs before or after a step.
pub enum Hook {
    /// The file exists and holds at least one byte. The path may hold
    /// placeholders.
    FileNotEmpty { path: String },
    /// Run an external process. Each argument may hold placeholders.
    Script { command: String, args: Vec<String> },
    /// Push commits that the remote does not have. There have to be some.
    PushCode,
}

/// What a hook asks for, with its placeholders filled in.
pub enum HookAction {
    /// Find the size of the file.
    MeasureFile { path: String },
    /// Run a process and wait for it.
    RunProcess { command: String, args: Vec<String> },
    /// Find out whether there are commits that were not pushed.
    FindCommits,
}

/// What became of the process of a script hook.
pub enum ScriptOutcome {
    /// It could not be started.
    NotStarted(String),
    /// Waiting for it failed.
    Lost(String),
    Ended(Exit),
}

/// The texts with their placeholders filled in, one by one.
pub open spec fn all_rendered(
    texts: Seq<Seq<char>>,
    pairs: Seq<(Seq<char>, Seq<char>)>,
) -> Seq<Seq<char>> {
    texts.map_values(|t: Seq<char>| rendered(t, pairs))
}

fn render_all(texts: &Vec<String>, vars: &Vars) -> (out: Vec<String>)
    ensures
        views(out@) == all_rendered(views(texts@), vars@),
{
    let mut out: Vec<String> = Vec::new();
    let mut i: usize = 0;
    while i < texts.len()
        invariant
            i <= texts.len(),
            views(out@) == all_rendered(views(texts@), vars@).take(i as int),
        decreases texts.len() - i,
    {
        let ghost before = views(out@);
        let text = render(texts[i].as_str(), vars);
        out.push(text);
        assert(views(out@) =~= before.push(text@));
        i += 1;
        assert(views(out@) =~= all_rendered(views(texts@), vars@).take(i as int));
    }
    assert(all_rendered(views(texts@), vars@).take(i as int) =~= all_rendered(
        views(texts@),
        vars@,
    ));
    out
}

/// Starts a hook: resolves the placeholders and says what is to be done.
pub fn run_hook(hook: &Hook, vars: &Vars) -> (action: HookAction)
    ensures
        match *hook {
            Hook::FileNotEmpty { path } => action matches HookAction::MeasureFile { path: p } && p@
                == rendered(path@, vars@),
            Hook::Script { command, args } => action matches HookAction::RunProcess {
                command: c,
                args: a,
            } && c@ == command@ && views(a@) == all_rendered(views(args@), vars@),
            Hook::PushCode => action is FindCommits,
        },
{
    match hook {
        Hook::FileNotEmpty { path } => HookAction::MeasureFile {
            path: render(path.as_str(), vars),
        },
        Hook::Script { command, args } => HookAction::RunProcess {
            command: command.clone(),
            args: render_all(args, vars),
        },
        Hook::PushCode => HookAction::FindCommits,
    }
}

/// The verdict on a file, given its size or why it cannot be had. The message
/// of a failure is also what the error file of the step holds.
pub fn check_file(path: &str, size: Result<u64, String>) -> (verdict: Result<(), String>)
    ensures
        match size {
            Ok(n) => if n > 0 {
                verdict is Ok
            } else {
                verdict is Err && verdict->Err_0@ == "hook FileNotEmpty: file is empty: "@ + path@
            },
            Err(e) => verdict is Err && verdict->Err_0@ == "hook FileNotEmpty: file missing ("@
                + path@ + "): "@ + e@,
        },
{
    match size {
        Ok(n) => if n > 0 {
            Ok(())
        } else {
            Err("hook FileNotEmpty: file is empty: ".to_string().concat(path))
        },
        Err(e) => Err(
            "hook FileNotEmpty: file missing (".to_string().concat(path).concat("): ").concat(
                e.as_str(),
            ),
        ),
    }
}

/// The verdict on a script, given what became of its process. The message of
/// a failure is also what the error file of the step holds.
pub fn check_script(command: &str, outcome: ScriptOutcome) -> (verdict: Result<(), String>)
    ensures
        match outcome {
            ScriptOutcome::NotStarted(e) => verdict is Err && verdict->Err_0@
                == "hook Script: failed to spawn `"@ + command@ + "`: "@ + e@,
            ScriptOutcome::Lost(e) => verdict is Err && verdict->Err_0@ == e@,
            ScriptOutcome::Ended(exit) => if exit.success {
                verdict is Ok
            } else {
                verdict is Err && verdict->Err_0@ == "hook Script: `"@ + command@
                    + "` exited with code "@ + signed_decimal(exit.reported_code())
            },
        },
{
    match outcome {
        ScriptOutcome::NotStarted(e) => Err(
            "hook Script: failed to spawn `".to_string().concat(command).concat("`: ").concat(
                e.as_str(),
            ),
        ),
        ScriptOutcome::Lost(e) => Err(e),
        ScriptOutcome::Ended(exit) => if exit.success {
            Ok(())
        } else {
            Err(
                "hook Script: `".to_string().concat(command).concat("` exited with code ").concat(
                    exit.code_text().as_str(),
                ),
            )
        },
    }
}

/// What follows the search for commits that were not pushed: success means
/// that they are to be pushed. Having none is a failure.
pub fn check_commits(found: Result<bool, String>) -> (verdict: Result<(), String>)
    ensures
        match found {
            Ok(some) => if some {
                verdict is Ok
            } else {
                verdict is Err && verdict->Err_0@ == "hook PushCode: no new commits to push"@
            },
            Err(e) => verdict is Err && verdict->Err_0@ == "hook PushCode: "@ + e@,
        },
{
    match found {
        Ok(some) => if some {
            Ok(())
        } else {
            Err("hook PushCode: no new commits to push".to_string())
        },
        Err(e) => Err("hook PushCode: ".to_string().concat(e.as_str())),
    }
}

/// The verdict on a push.
pub fn check_push(pushed: Result<(), String>) -> (verdict: Result<(), String>)
    ensures
        match pushed {
            Ok(_) => verdict is Ok,
            Err(e) => verdict is Err && verdict->Err_0@ == "hook PushCode: push failed: "@ + e@,
        },
{
    match pushed {
        Ok(_) => Ok(()),
        Err(e) => Err("hook PushCode: push failed: ".to_string().concat(e.as_str())),
    }
}

// ---------------------------------------------------------------------------
// Laws
// ---------------------------------------------------------------------------

/// What a hook asks for: of a file hook its path, with the variables filled in;
/// of a script its command as it is, and its arguments in order, in each of
/// which the variables are filled in.
pub proof fn law_hook_asks_for_what_it_says(hook: Hook, vars: Vars, action: HookAction)
    requires
        call_ensures(run_hook, (&hook, &vars), action),
    ensures
        hook matches Hook::FileNotEmpty { path } ==> action is MeasureFile
            && action->MeasureFile_path@ == rendered(path@, vars@),
        hook matches Hook::Script { command, args } ==> {
            &&& action is RunProcess
            &&& action->RunProcess_command@ == command@
            &&& action->RunProcess_args@.len() == args@.len()
            &&& forall|i: int|
                0 <= i < args@.len() ==> (#[trigger] action->RunProcess_args@[i])@ == rendered(
                    args@[i]@,
                    vars@,
                )
        },
        hook is PushCode ==> action is FindCommits,
{
    if let Hook::Script { command, args } = hook {
        let given = views(args@);
        let made = views(action->RunProcess_args@);
        assert(made.len() == action->RunProcess_args@.len());
        assert(given.len() == args@.len());
        assert forall|i: int| 0 <= i < args@.len() implies (
        #[trigger] action->RunProcess_args@[i])@ == rendered(args@[i]@, vars@) by {
            assert(made[i] == action->RunProcess_args@[i]@);
            assert(given[i] == args@[i]@);
        }
    }
}

/// A file hook is met by a file that holds something, and by no other; its
/// error names the file.
pub proof fn law_file_hook(path: &str, size: Result<u64, String>, verdict: Result<(), String>)
    requires
        call_ensures(check_file, (path, size), verdict),
    ensures
        verdict is Ok <==> size is Ok && size->Ok_0 != 0,
        size is Ok && verdict is Err ==> verdict->Err_0@ == "hook FileNotEmpty: file is empty: "@
            + path@,
        size is Err ==> verdict->Err_0@ == "hook FileNotEmpty: file missing ("@ + path@ + "): "@
            + size->Err_0@,
{
}

/// A script hook is met by a process that ends with success, and by no other;
/// its error names the command and the exit code, or -1 if there is none.
pub proof fn law_script_hook(
    command: &str,
    outcome: ScriptOutcome,
    verdict: Result<(), String>,
)
    requires
        call_ensures(check_script, (command, outcome), verdict),
    ensures
        verdict is Ok <==> (outcome matches ScriptOutcome::Ended(exit) && exit.success),
        outcome matches ScriptOutcome::Ended(exit) ==> !exit.success ==> verdict->Err_0@
            == "hook Script: `"@ + command@ + "` exited with code "@ + signed_decimal(
            match exit.code {
                Some(code) => code as int,
                None => -1,
            },
        ),
        outcome matches ScriptOutcome::NotStarted(e) ==> verdict->Err_0@
            == "hook Script: failed to spawn `"@ + command@ + "`: "@ + e@,
        outcome matches ScriptOutcome::Lost(e) ==> verdict->Err_0@ == e@,
{
}

/// A push hook is met if there are commits to push and the push goes through,
/// and not otherwise.
pub proof fn law_push_hook(
    found: Result<bool, String>,
    pushed: Result<(), String>,
    to_push: Result<(), String>,
    verdict: Result<(), String>,
)
    requires
        call_ensures(check_commits, (found,), to_push),
        call_ensures(check_push, (pushed,), verdict),
    ensures
        to_push is Ok <==> found == Ok::<bool, String>(true),
        found == Ok::<bool, String>(false) ==> to_push->Err_0@
            == "hook PushCode: no new commits to push"@,
        found is Err ==> to_push->Err_0@ == "hook PushCode: "@ + found->Err_0@,
        verdict is Ok <==> pushed is Ok,
        pushed is Err ==> verdict->Err_0@ == "hook PushCode: push failed: "@ + pushed->Err_0@,
{
}

} // verus!
