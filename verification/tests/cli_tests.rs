use wux::cli::{parse_args, Command};
use wux::prompt::is_confirmation;

fn args(words: &[&str]) -> Vec<String> {
    words.iter().map(|w| w.to_string()).collect()
}

#[test]
fn flags_anywhere() {
    let inv = parse_args(&args(&["wux", "--dry-run", "nuke", "-y", "./x"]));
    assert!(inv.dry_run);
    assert!(inv.yes);
    assert_eq!(inv.command, Command::Nuke("./x".to_string()));
    let inv = parse_args(&args(&["wux", "free", "--yes"]));
    assert!(!inv.dry_run);
    assert!(inv.yes);
    assert_eq!(inv.command, Command::Free(80));
}

#[test]
fn free_port() {
    assert_eq!(parse_args(&args(&["wux", "free", "3000"])).command, Command::Free(3000));
    assert_eq!(parse_args(&args(&["wux", "free", "70000"])).command, Command::Free(80));
    assert_eq!(parse_args(&args(&["wux", "free", "abc"])).command, Command::Free(80));
}

#[test]
fn commands_and_help() {
    assert_eq!(parse_args(&args(&["wux"])).command, Command::Help);
    assert_eq!(parse_args(&args(&["wux", "help"])).command, Command::Help);
    assert_eq!(parse_args(&args(&["wux", "list"])).command, Command::List);
    assert_eq!(parse_args(&args(&["wux", "info"])).command, Command::Info);
    assert_eq!(parse_args(&args(&["wux", "dockersafe"])).command, Command::DockerSafe);
    assert_eq!(parse_args(&args(&["wux", "whereis"])).command, Command::Whereis(String::new()));
    assert_eq!(parse_args(&args(&["wux", "serve"])).command, Command::Other("serve".to_string()));
}

#[test]
fn confirmation_answers() {
    assert!(is_confirmation("y\n"));
    assert!(is_confirmation("  Y \r\n"));
    assert!(!is_confirmation("yes\n"));
    assert!(!is_confirmation("\n"));
    assert!(!is_confirmation("n"));
}
