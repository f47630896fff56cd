use wux::commands::free::{after_answer, plan, question, AnswerAction, FreeAction};
use wux::platform::find_listening_pid;

#[test]
fn free_dry_run_no_kill() {
    let netstat = "  TCP    0.0.0.0:65432    0.0.0.0:0    LISTENING    4242\n";
    let listener = find_listening_pid(netstat, 65432);
    assert_eq!(listener, Some(4242));
    assert_eq!(plan(listener, true, true), FreeAction::Preview);
}

#[test]
fn free_nothing_on_port() {
    let netstat = "  TCP    0.0.0.0:80    0.0.0.0:0    LISTENING    4\n";
    let listener = find_listening_pid(netstat, 65433);
    assert_eq!(listener, None);
    assert_eq!(plan(listener, false, true), FreeAction::NothingRunning);
}

#[test]
fn free_plan() {
    assert_eq!(plan(None, false, false), FreeAction::NothingRunning);
    assert_eq!(plan(Some(7), true, false), FreeAction::Preview);
    assert_eq!(plan(Some(7), false, true), FreeAction::Kill);
    assert_eq!(plan(Some(7), false, false), FreeAction::Ask);
}

#[test]
fn free_asks_before_killing() {
    assert_eq!(question("node.exe", 4242, 3000), "Kill node.exe (PID 4242) on port 3000? [y/N]");
    assert_eq!(after_answer(true), AnswerAction::Kill);
    assert_eq!(after_answer(false), AnswerAction::Abort);
}
