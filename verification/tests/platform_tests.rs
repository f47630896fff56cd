use wux::platform::{find_listening_pid, kill_failure_message, process_name};

const NETSTAT: &str = "\r\nActive Connections\r\n\r\n  Proto  Local Address          Foreign Address        State           PID\r\n  TCP    0.0.0.0:135            0.0.0.0:0              LISTENING       1044\r\n  TCP    0.0.0.0:3000           0.0.0.0:0              LISTENING       7312\r\n  TCP    127.0.0.1:30000        0.0.0.0:0              LISTENING       99\r\n  TCP    127.0.0.1:52000        127.0.0.1:3000         ESTABLISHED     5555\r\n  TCP    [::]:3000              [::]:0                 LISTENING       7312\r\n";

#[test]
fn finds_listener_on_port() {
    assert_eq!(find_listening_pid(NETSTAT, 3000), Some(7312));
    assert_eq!(find_listening_pid(NETSTAT, 135), Some(1044));
    assert_eq!(find_listening_pid(NETSTAT, 30000), Some(99));
}

#[test]
fn ignores_established_and_foreign_matches() {
    assert_eq!(find_listening_pid(NETSTAT, 52000), None);
    assert_eq!(find_listening_pid(NETSTAT, 300), None);
    assert_eq!(find_listening_pid("", 80), None);
}

#[test]
fn skips_lines_with_bad_pid_or_few_fields() {
    let out = "TCP 0.0.0.0:80 LISTENING x\nTCP 0.0.0.0:80 0.0.0.0:0 LISTENING abc\nTCP 0.0.0.0:80 0.0.0.0:0 LISTENING 42\n";
    assert_eq!(find_listening_pid(out, 80), Some(42));
}

#[test]
fn tasklist_name_is_first_field_unquoted() {
    let out = "\"node.exe\",\"7312\",\"Console\",\"1\",\"45,000 K\"\r\n";
    assert_eq!(process_name(Some(out)), "node.exe");
    assert_eq!(process_name(Some("")), "unknown");
    assert_eq!(process_name(None), "unknown");
    assert_eq!(process_name(Some("INFO: No tasks are running")), "INFO: No tasks are running");
}

#[test]
fn kill_failure_messages() {
    assert_eq!(
        kill_failure_message(12, "ERROR: Access is denied."),
        "Permission denied. Try running wux as administrator."
    );
    assert_eq!(
        kill_failure_message(12, "ERROR: The process \"12\" not found."),
        "Process 12 not found - it may have already exited."
    );
    assert_eq!(
        kill_failure_message(7, "  something odd \r\n"),
        "Failed to kill process 7: something odd"
    );
}
