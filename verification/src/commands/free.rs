//! `wux free <port>`: what happens to the process listening on a port.
//!
//! The listener is looked up outside; [`plan`] decides whether to preview,
//! ask or kill, and [`after_answer`] decides after a question.
use crate::text::{append_str, decimal, from_chars, push_decimal};
use vstd::prelude::*;

verus! {

broadcast use vstd::string::group_string_axioms;

/// What happens once the listener (if any) has been looked up.
#[derive(Debug, Clone, Copy, PartialEq, Eq, Structural)]
pub enum FreeAction {
    /// No process listens on the port.
    NothingRunning,
    /// Dry run: tell which process would be killed.
    Preview,
    /// Ask the user first.
    Ask,
    /// Kill the process.
    Kill,
}

/// A found listener is previewed in a dry run, killed when the prompt is
/// skipped (the command is safe, or `--yes`), and asked about otherwise.
pub open spec fn free_decision(listener: Option<u32>, dry_run: bool, skip_prompt: bool) -> FreeAction {
    match listener {
        None => FreeAction::NothingRunning,
        Some(_) => if dry_run {
            FreeAction::Preview
        } else if skip_prompt {
            FreeAction::Kill
        } else {
            FreeAction::Ask
        },
    }
}

/// Nothing is done when no process listens; a found listener is only shown in
/// a dry run, killed outright exactly when the prompt is skipped outside a dry
/// run, and asked about exactly when it is not.
pub proof fn listeners_are_killed_only_as_asked(listener: Option<u32>, dry_run: bool, skip_prompt: bool)
    ensures
        free_decision(listener, dry_run, skip_prompt) == FreeAction::NothingRunning <==> listener is None,
        free_decision(listener, dry_run, skip_prompt) == FreeAction::Preview <==> listener is Some
            && dry_run,
        free_decision(listener, dry_run, skip_prompt) == FreeAction::Kill <==> listener is Some
            && !dry_run && skip_prompt,
        free_decision(listener, dry_run, skip_prompt) == FreeAction::Ask <==> listener is Some
            && !dry_run && !skip_prompt,
{
}

/// What to do, given the id of the process found listening (if any).
pub fn plan(listener: Option<u32>, dry_run: bool, skip_prompt: bool) -> (r: FreeAction)
    ensures
        r == free_decision(listener, dry_run, skip_prompt),
        // a dry run kills nothing
        dry_run ==> r != FreeAction::Kill,
        // nothing is killed without a question unless the prompt is skipped
        r == FreeAction::Kill ==> skip_prompt && !dry_run && listener is Some,
        // nothing is asked when the prompt is skipped
        skip_prompt ==> r != FreeAction::Ask,
        r == FreeAction::NothingRunning <==> listener is None,
        r == FreeAction::Kill <==> listener is Some && !dry_run && skip_prompt,
        r == FreeAction::Ask <==> listener is Some && !dry_run && !skip_prompt,
        r == FreeAction::Preview <==> listener is Some && dry_run,
{
    proof {
        listeners_are_killed_only_as_asked(listener, dry_run, skip_prompt);
    }
    match listener {
        None => FreeAction::NothingRunning,
        Some(_) => if dry_run {
            FreeAction::Preview
        } else if skip_prompt {
            FreeAction::Kill
        } else {
            FreeAction::Ask
        },
    }
}

/// What follows the question: kill on a yes, else abort.
#[derive(Debug, Clone, Copy, PartialEq, Eq, Structural)]
pub enum AnswerAction {
    Kill,
    Abort,
}

/// The step after the user answered the question.
pub fn after_answer(confirmed: bool) -> (r: AnswerAction)
    ensures
        r == (if confirmed {
            AnswerAction::Kill
        } else {
            AnswerAction::Abort
        }),
{
    if confirmed {
        AnswerAction::Kill
    } else {
        AnswerAction::Abort
    }
}

/// The question asked before killing process `pid` (named `name`) on `port`.
pub open spec fn question_text(name: Seq<char>, pid: u32, port: u16) -> Seq<char> {
    "Kill "@ + name + " (PID "@ + decimal(pid as nat) + ") on port "@ + decimal(port as nat)
        + "? [y/N]"@
}

/// The question asked before killing the listener.
pub fn question(name: &str, pid: u32, port: u16) -> (r: String)
    ensures
        r@ == question_text(name@, pid, port),
{
    let mut v: Vec<char> = Vec::new();
    append_str(&mut v, "Kill ");
    append_str(&mut v, name);
    append_str(&mut v, " (PID ");
    push_decimal(&mut v, pid as u64);
    append_str(&mut v, ") on port ");
    push_decimal(&mut v, port as u64);
    append_str(&mut v, "? [y/N]");
    from_chars(v.as_slice())
}

} // verus!
