//! `wux nuke <path>`: what happens to a path that is asked to be deleted.
//!
//! The path is resolved and inspected outside; [`plan`] decides, from what was
//! found, whether to refuse, preview, ask or delete, and [`after_answer`]
//! decides after a question.
use crate::text::{append_str, eq_ignore_ascii_case, from_chars, push_decimal, decimal, str_eq, to_chars, chars_eq_ignore_ascii_case};
use vstd::prelude::*;

verus! {

broadcast use vstd::string::group_string_axioms;

/// Why a path is not deleted.
#[derive(Debug, Clone, Copy, PartialEq, Eq, Structural)]
pub enum NukeError {
    /// The path is the current working directory.
    CurrentDirectory,
    /// The path is the root of a filesystem.
    FilesystemRoot,
}

impl NukeError {
    pub open spec fn text(self) -> Seq<char> {
        match self {
            NukeError::CurrentDirectory => "Refusing to nuke your current working directory."@,
            NukeError::FilesystemRoot => "Refusing to nuke a filesystem root. That would be bad."@,
        }
    }

    /// The message the user sees.
    pub fn message(&self) -> (r: String)
        ensures
            r@ == self.text(),
    {
        match self {
            NukeError::CurrentDirectory => String::from_str(
                "Refusing to nuke your current working directory.",
            ),
            NukeError::FilesystemRoot => String::from_str(
                "Refusing to nuke a filesystem root. That would be bad.",
            ),
        }
    }
}

/// What is done with the path.
#[derive(Debug, Clone, Copy, PartialEq, Eq, Structural)]
pub enum NukeAction {
    /// Nothing is there: report it and stop.
    NothingThere,
    /// The path is not deleted, with this reason.
    Refuse(NukeError),
    /// Dry run: tell what would be deleted.
    Preview,
    /// Ask the user first.
    Ask,
    /// Delete it.
    Delete,
}

/// `C:\` or `C:/` in any letter case (the lower-cased text is `c:\` or `c:/`).
pub open spec fn is_c_drive_root(path: Seq<char>) -> bool {
    eq_ignore_ascii_case(path, "c:\\"@) || eq_ignore_ascii_case(path, "c:/"@)
}

/// The decision for the resolved path `abs_path`: nothing there; refused when
/// it is the current directory `cwd` or a filesystem root (it has no parent,
/// or it is `C:\`); else previewed in a dry run, deleted when the prompt is
/// skipped, and asked about otherwise.
pub open spec fn nuke_decision(
    exists: bool,
    abs_path: Seq<char>,
    cwd: Seq<char>,
    has_parent: bool,
    dry_run: bool,
    skip_prompt: bool,
) -> NukeAction {
    if !exists {
        NukeAction::NothingThere
    } else if abs_path == cwd {
        NukeAction::Refuse(NukeError::CurrentDirectory)
    } else if !has_parent || is_c_drive_root(abs_path) {
        NukeAction::Refuse(NukeError::FilesystemRoot)
    } else if dry_run {
        NukeAction::Preview
    } else if skip_prompt {
        NukeAction::Delete
    } else {
        NukeAction::Ask
    }
}

/// The current directory is refused exactly when the path is the current
/// directory itself; any other existing path with a parent that is not `C:\`
/// (a path inside the current directory, say) is previewed in a dry run,
/// deleted when the prompt is skipped, and asked about otherwise.
pub proof fn only_the_current_directory_is_refused_as_such(
    exists: bool,
    abs_path: Seq<char>,
    cwd: Seq<char>,
    has_parent: bool,
    dry_run: bool,
    skip_prompt: bool,
)
    ensures
        nuke_decision(exists, abs_path, cwd, has_parent, dry_run, skip_prompt) == NukeAction::Refuse(
            NukeError::CurrentDirectory,
        ) <==> exists && abs_path == cwd,
        !exists <==> nuke_decision(exists, abs_path, cwd, has_parent, dry_run, skip_prompt)
            == NukeAction::NothingThere,
        exists && abs_path != cwd && has_parent && !eq_ignore_ascii_case(abs_path, "c:\\"@)
            && !eq_ignore_ascii_case(abs_path, "c:/"@) ==> nuke_decision(
            exists,
            abs_path,
            cwd,
            has_parent,
            dry_run,
            skip_prompt,
        ) == (if dry_run {
            NukeAction::Preview
        } else if skip_prompt {
            NukeAction::Delete
        } else {
            NukeAction::Ask
        }),
        exists && abs_path != cwd && !has_parent ==> nuke_decision(
            exists,
            abs_path,
            cwd,
            has_parent,
            dry_run,
            skip_prompt,
        ) == NukeAction::Refuse(NukeError::FilesystemRoot),
{
}

/// Decides what to do with the resolved path `abs_path`, given whether
/// something is there, the canonical current directory and whether the path
/// has a parent.
pub fn plan(
    exists: bool,
    abs_path: &str,
    cwd: &str,
    has_parent: bool,
    dry_run: bool,
    skip_prompt: bool,
) -> (r: NukeAction)
    ensures
        r == nuke_decision(exists, abs_path@, cwd@, has_parent, dry_run, skip_prompt),
        // the current directory and filesystem roots are never deleted
        r == NukeAction::Delete || r == NukeAction::Ask ==> exists && abs_path@ != cwd@ && has_parent,
        // a dry run deletes nothing
        dry_run ==> r != NukeAction::Delete,
        // nothing is deleted without a question unless the prompt is skipped
        r == NukeAction::Delete ==> skip_prompt && !dry_run,
        // nothing is asked when the prompt is skipped
        skip_prompt ==> r != NukeAction::Ask,
        // only the current directory itself is refused as the current directory
        r == NukeAction::Refuse(NukeError::CurrentDirectory) <==> exists && abs_path@ == cwd@,
        exists && abs_path@ != cwd@ && has_parent && !eq_ignore_ascii_case(abs_path@, "c:\\"@)
            && !eq_ignore_ascii_case(abs_path@, "c:/"@) ==> r == (if dry_run {
            NukeAction::Preview
        } else if skip_prompt {
            NukeAction::Delete
        } else {
            NukeAction::Ask
        }),
{
    proof {
        only_the_current_directory_is_refused_as_such(
            exists,
            abs_path@,
            cwd@,
            has_parent,
            dry_run,
            skip_prompt,
        );
    }
    if !exists {
        return NukeAction::NothingThere;
    }
    if str_eq(abs_path, cwd) {
        return NukeAction::Refuse(NukeError::CurrentDirectory);
    }
    let p = to_chars(abs_path);
    let c1 = to_chars("c:\\");
    let c2 = to_chars("c:/");
    if !has_parent || chars_eq_ignore_ascii_case(p.as_slice(), c1.as_slice())
        || chars_eq_ignore_ascii_case(p.as_slice(), c2.as_slice()) {
        return NukeAction::Refuse(NukeError::FilesystemRoot);
    }
    if dry_run {
        NukeAction::Preview
    } else if skip_prompt {
        NukeAction::Delete
    } else {
        NukeAction::Ask
    }
}

/// What follows the question: delete on a yes, else abort.
#[derive(Debug, Clone, Copy, PartialEq, Eq, Structural)]
pub enum AnswerAction {
    Delete,
    Abort,
}

/// The step after the user answered the question.
pub fn after_answer(confirmed: bool) -> (r: AnswerAction)
    ensures
        r == (if confirmed {
            AnswerAction::Delete
        } else {
            AnswerAction::Abort
        }),
{
    if confirmed {
        AnswerAction::Delete
    } else {
        AnswerAction::Abort
    }
}

/// The question asked before deleting `path` (as the user wrote it).
pub open spec fn question_text(path: Seq<char>, is_dir: bool) -> Seq<char> {
    if is_dir {
        "Do you really want to remove '"@ + path + "' and all its contents? [y/N]"@
    } else {
        "Do you really want to delete the file '"@ + path + "'? [y/N]"@
    }
}

/// The question asked before deleting `path`.
pub fn question(path: &str, is_dir: bool) -> (r: String)
    ensures
        r@ == question_text(path@, is_dir),
{
    let mut v: Vec<char> = Vec::new();
    if is_dir {
        append_str(&mut v, "Do you really want to remove '");
        append_str(&mut v, path);
        append_str(&mut v, "' and all its contents? [y/N]");
    } else {
        append_str(&mut v, "Do you really want to delete the file '");
        append_str(&mut v, path);
        append_str(&mut v, "'? [y/N]");
    }
    from_chars(v.as_slice())
}

/// What a dry run reports for the resolved path `abs_path`.
pub open spec fn preview_text(abs_path: Seq<char>, is_dir: bool, files: nat, dirs: nat) -> Seq<char> {
    if is_dir {
        "Would delete directory: "@ + abs_path + " ("@ + decimal(files) + " files, "@ + decimal(dirs)
            + " subdirectories)"@
    } else {
        "Would delete file: "@ + abs_path
    }
}

/// The dry-run report; `files` and `dirs` count what a directory holds.
pub fn preview(abs_path: &str, is_dir: bool, files: u64, dirs: u64) -> (r: String)
    ensures
        r@ == preview_text(abs_path@, is_dir, files as nat, dirs as nat),
{
    let mut v: Vec<char> = Vec::new();
    if is_dir {
        append_str(&mut v, "Would delete directory: ");
        append_str(&mut v, abs_path);
        append_str(&mut v, " (");
        push_decimal(&mut v, files);
        append_str(&mut v, " files, ");
        push_decimal(&mut v, dirs);
        append_str(&mut v, " subdirectories)");
    } else {
        append_str(&mut v, "Would delete file: ");
        append_str(&mut v, abs_path);
    }
    from_chars(v.as_slice())
}

} // verus!
