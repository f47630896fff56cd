use wux::commands::custom::{plan, question, shell_command, CustomAction};
use wux::config::{CommandMeta, CommandRun};

fn meta(description: &str, safe: bool) -> CommandMeta {
    CommandMeta {
        run: CommandRun::Multiple(vec!["cd C:/dev".to_string(), "npm run dev".to_string()]),
        description: description.to_string(),
        safe,
    }
}

#[test]
fn custom_plan() {
    assert_eq!(plan(&meta("", false), true, false), CustomAction::Preview);
    assert_eq!(plan(&meta("", false), false, false), CustomAction::Ask);
    assert_eq!(plan(&meta("", false), false, true), CustomAction::Run);
    assert_eq!(plan(&meta("", true), false, false), CustomAction::Run);
}

#[test]
fn custom_question() {
    assert_eq!(question("bye", &meta("", false)), "Run custom command 'bye'");
    assert_eq!(question("bye", &meta("Shut down PC", false)), "Shut down PC");
}

#[test]
fn shell_commands() {
    assert_eq!(
        shell_command("npm run dev", false),
        ("sh".to_string(), vec!["-c".to_string(), "npm run dev".to_string()])
    );
    assert_eq!(
        shell_command("npm run dev", true),
        ("cmd".to_string(), vec!["/C".to_string(), "npm run dev".to_string()])
    );
    assert_eq!(
        shell_command("powershell -File x.ps1", true),
        ("powershell".to_string(), vec!["-File".to_string(), "x.ps1".to_string()])
    );
    assert_eq!(shell_command("notepad", true), ("notepad".to_string(), vec![]));
    assert_eq!(shell_command("", true), ("".to_string(), vec![]));
}
