use wux::commands::nuke::{after_answer, plan, preview, question, AnswerAction, NukeAction, NukeError};

#[test]
fn plan_reports_missing_path() {
    assert_eq!(plan(false, "/tmp/missing-path-12345", "/home", true, false, true), NukeAction::NothingThere);
}

#[test]
fn plan_refuses_current_directory() {
    let r = plan(true, "/home/me/project", "/home/me/project", true, false, true);
    assert_eq!(r, NukeAction::Refuse(NukeError::CurrentDirectory));
    assert!(NukeError::CurrentDirectory.message().contains("current working directory"));
}

#[test]
fn plan_refuses_roots() {
    assert_eq!(plan(true, "/", "/home", false, false, true), NukeAction::Refuse(NukeError::FilesystemRoot));
    assert_eq!(plan(true, "C:\\", "/home", true, false, true), NukeAction::Refuse(NukeError::FilesystemRoot));
    assert_eq!(plan(true, "c:/", "/home", true, true, false), NukeAction::Refuse(NukeError::FilesystemRoot));
    assert_eq!(
        NukeError::FilesystemRoot.message(),
        "Refusing to nuke a filesystem root. That would be bad."
    );
}

#[test]
fn plan_dry_run_previews() {
    assert_eq!(plan(true, "/tmp/x/test.txt", "/home", true, true, false), NukeAction::Preview);
    assert_eq!(plan(true, "/tmp/x/test.txt", "/home", true, true, true), NukeAction::Preview);
}

#[test]
fn plan_asks_unless_prompt_skipped() {
    assert_eq!(plan(true, "/tmp/x/test.txt", "/home", true, false, false), NukeAction::Ask);
    assert_eq!(plan(true, "/tmp/x/test.txt", "/home", true, false, true), NukeAction::Delete);
    assert_eq!(after_answer(true), AnswerAction::Delete);
    assert_eq!(after_answer(false), AnswerAction::Abort);
}

#[test]
fn nuke_texts() {
    assert_eq!(
        question("./node_modules", true),
        "Do you really want to remove './node_modules' and all its contents? [y/N]"
    );
    assert_eq!(question("a.txt", false), "Do you really want to delete the file 'a.txt'? [y/N]");
    assert_eq!(
        preview("/tmp/d", true, 3, 1),
        "Would delete directory: /tmp/d (3 files, 1 subdirectories)"
    );
    assert_eq!(preview("/tmp/f", false, 0, 0), "Would delete file: /tmp/f");
}

#[test]
fn nuke_deletes_file() {
    let r = plan(true, "/tmp/t1/test.txt", "/home/me", true, false, true);
    assert_eq!(r, NukeAction::Delete);
}

#[test]
fn nuke_deletes_directory() {
    let r = plan(true, "/tmp/t2/test_dir", "/home/me", true, false, true);
    assert_eq!(r, NukeAction::Delete);
    assert_eq!(
        preview("/tmp/t2/test_dir", true, 3, 1),
        "Would delete directory: /tmp/t2/test_dir (3 files, 1 subdirectories)"
    );
}

#[test]
fn nuke_dry_run_does_not_delete() {
    let r = plan(true, "/tmp/t3/test.txt", "/home/me", true, true, false);
    assert_eq!(r, NukeAction::Preview);
}

#[test]
fn nuke_aborts_on_nonexistent_path() {
    let r = plan(false, "/tmp/t4/missing-path-12345", "/home/me", true, false, true);
    assert_eq!(r, NukeAction::NothingThere);
}

#[test]
fn nuke_refuses_cwd() {
    let r = plan(true, "/home/me", "/home/me", true, false, true);
    assert_eq!(r, NukeAction::Refuse(NukeError::CurrentDirectory));
    let err = NukeError::CurrentDirectory.message();
    assert!(err.contains("current working directory"));
}

#[test]
fn nuke_refuses_root() {
    assert_eq!(plan(true, "/", "/home/me", false, false, true), NukeAction::Refuse(NukeError::FilesystemRoot));
    assert_eq!(plan(true, "C:\\", "C:\\Users\\me", false, false, true), NukeAction::Refuse(NukeError::FilesystemRoot));
}
