//! Running a user's command: whether to preview, ask or run, the question
//! asked, and the program that runs each command line.
use crate::config::CommandMeta;
use crate::text::{
    append_str, contains, contains_chars, from_chars, split_whitespace, starts_with,
    starts_with_chars, to_chars, views, words,
};
use vstd::prelude::*;

verus! {

broadcast use vstd::string::group_string_axioms;

/// What happens when a user's command is invoked.
#[derive(Debug, Clone, Copy, PartialEq, Eq, Structural)]
pub enum CustomAction {
    /// Dry run: list the command lines without running them.
    Preview,
    /// Ask the user first.
    Ask,
    /// Run the command lines.
    Run,
}

/// A dry run only lists; a command that is not safe is asked about unless the
/// prompt is skipped; otherwise it runs.
pub open spec fn custom_decision(safe: bool, dry_run: bool, skip_prompt: bool) -> CustomAction {
    if dry_run {
        CustomAction::Preview
    } else if !skip_prompt && !safe {
        CustomAction::Ask
    } else {
        CustomAction::Run
    }
}

/// A user's command only lists its lines in a dry run; outside one it runs
/// whenever the prompt is skipped or the command is safe, and asks exactly when
/// neither holds.
pub proof fn safe_or_skipped_commands_run(safe: bool, dry_run: bool, skip_prompt: bool)
    ensures
        custom_decision(safe, dry_run, skip_prompt) == CustomAction::Preview <==> dry_run,
        custom_decision(safe, dry_run, skip_prompt) == CustomAction::Ask <==> !dry_run && !skip_prompt
            && !safe,
        custom_decision(safe, dry_run, skip_prompt) == CustomAction::Run <==> !dry_run && (
        skip_prompt || safe),
{
}

/// What to do when the user's command `meta` is invoked.
pub fn plan(meta: &CommandMeta, dry_run: bool, skip_prompt: bool) -> (r: CustomAction)
    ensures
        r == custom_decision(meta.safe, dry_run, skip_prompt),
        // a dry run only lists the command lines
        dry_run ==> r == CustomAction::Preview,
        // nothing is asked when the prompt is skipped or the command is safe
        skip_prompt || meta.safe ==> r != CustomAction::Ask,
        // nothing runs without a question unless the prompt is skipped or the command is safe
        r == CustomAction::Run ==> !dry_run && (skip_prompt || meta.safe),
        // outside a dry run a safe or unprompted command runs; only a dry run previews
        !dry_run && (skip_prompt || meta.safe) ==> r == CustomAction::Run,
        r == CustomAction::Preview ==> dry_run,
        r == CustomAction::Ask <==> !dry_run && !skip_prompt && !meta.safe,
{
    proof {
        safe_or_skipped_commands_run(meta.safe, dry_run, skip_prompt);
    }
    if dry_run {
        CustomAction::Preview
    } else if !skip_prompt && !meta.safe {
        CustomAction::Ask
    } else {
        CustomAction::Run
    }
}

/// The question asked before running the command `name`: its description,
/// or `Run custom command '<name>'` when it has none.
pub open spec fn question_text(name: Seq<char>, description: Seq<char>) -> Seq<char> {
    if description.len() == 0 {
        "Run custom command '"@ + name + "'"@
    } else {
        description
    }
}

/// The question asked before running the user's command `name`.
pub fn question(name: &str, meta: &CommandMeta) -> (r: String)
    ensures
        r@ == question_text(name@, meta.description@),
{
    let d = to_chars(meta.description.as_str());
    if d.len() == 0 {
        let mut v: Vec<char> = Vec::new();
        append_str(&mut v, "Run custom command '");
        append_str(&mut v, name);
        append_str(&mut v, "'");
        from_chars(v.as_slice())
    } else {
        meta.description.clone()
    }
}

/// The program and arguments that run the command line `cmd`: through
/// `sh -c` off Windows; on Windows through `cmd /C` when the line has a space
/// and does not start with `cmd` or `powershell`, else as its first word with
/// the other words as arguments (the whole line when it has no word).
pub open spec fn invocation(cmd: Seq<char>, windows: bool) -> (Seq<char>, Seq<Seq<char>>) {
    if !windows {
        ("sh"@, seq!["-c"@, cmd])
    } else if contains(cmd, seq![' ']) && !starts_with(cmd, "cmd"@) && !starts_with(
        cmd,
        "powershell"@,
    ) {
        ("cmd"@, seq!["/C"@, cmd])
    } else if words(cmd).len() == 0 {
        (cmd, seq![])
    } else {
        (words(cmd)[0], words(cmd).drop_first())
    }
}

/// Off Windows the whole line goes, unchanged, to `sh -c`. On Windows a line
/// is never cut up when it goes to `cmd /C`; otherwise the program and its
/// arguments are the line's words in order, so nothing of the line is lost.
pub proof fn lines_reach_the_shell_whole(cmd: Seq<char>, windows: bool)
    ensures
        !windows ==> invocation(cmd, windows) == ("sh"@, seq!["-c"@, cmd]),
        windows && contains(cmd, seq![' ']) && !starts_with(cmd, "cmd"@) && !starts_with(
            cmd,
            "powershell"@,
        ) ==> invocation(cmd, windows) == ("cmd"@, seq!["/C"@, cmd]),
        windows && words(cmd).len() > 0 && !(contains(cmd, seq![' ']) && !starts_with(cmd, "cmd"@)
            && !starts_with(cmd, "powershell"@)) ==> seq![invocation(cmd, windows).0]
            + invocation(cmd, windows).1 == words(cmd),
{
    if windows && words(cmd).len() > 0 {
        assert(seq![words(cmd)[0]] + words(cmd).drop_first() =~= words(cmd));
    }
}

/// The program and arguments that run the command line `cmd`.
pub fn shell_command(cmd: &str, windows: bool) -> (r: (String, Vec<String>))
    ensures
        (r.0@, r.1@.map_values(|s: String| s@)) == invocation(cmd@, windows),
        // off Windows the whole line goes to `sh -c`
        !windows ==> r.0@ == "sh"@ && r.1@.len() == 2 && r.1@[0]@ == "-c"@ && r.1@[1]@ == cmd@,
{
    proof {
        lines_reach_the_shell_whole(cmd@, windows);
    }
    if !windows {
        let mut args: Vec<String> = Vec::new();
        args.push(String::from_str("-c"));
        args.push(String::from_str(cmd));
        assert(args@.map_values(|s: String| s@) =~= seq!["-c"@, cmd@]);
        return (String::from_str("sh"), args);
    }
    let cs = to_chars(cmd);
    let space: Vec<char> = vec![' '];
    assert(space@ =~= seq![' ']);
    let c1 = to_chars("cmd");
    let c2 = to_chars("powershell");
    if contains_chars(cs.as_slice(), space.as_slice()) && !starts_with_chars(
        cs.as_slice(),
        c1.as_slice(),
    ) && !starts_with_chars(cs.as_slice(), c2.as_slice()) {
        let mut args: Vec<String> = Vec::new();
        args.push(String::from_str("/C"));
        args.push(String::from_str(cmd));
        assert(args@.map_values(|s: String| s@) =~= seq!["/C"@, cmd@]);
        return (String::from_str("cmd"), args);
    }
    let ws = split_whitespace(cs.as_slice());
    let ghost wv = views(ws@);
    if ws.len() == 0 {
        let args: Vec<String> = Vec::new();
        assert(args@.map_values(|s: String| s@) =~= seq![]);
        return (String::from_str(cmd), args);
    }
    assert(wv[0] == ws@[0]@);
    let program = from_chars(ws[0].as_slice());
    let mut args: Vec<String> = Vec::new();
    for i in 1..ws.len()
        invariant
            wv == views(ws@),
            1 <= i <= ws@.len(),
            args@.len() == i - 1,
            forall|k: int| 0 <= k < i - 1 ==> #[trigger] args@[k]@ == wv[k + 1],
    {
        args.push(from_chars(ws[i].as_slice()));
    }
    assert(args@.map_values(|s: String| s@) =~= wv.drop_first());
    (program, args)
}

} // verus!
