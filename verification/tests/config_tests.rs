use wux::config::{
    explicit_free_safe, finish_load, is_reserved_name, BuiltinMeta, CommandMeta, CommandRun,
    CommandsConfig, Config, Settings,
};

fn meta(line: &str) -> CommandMeta {
    CommandMeta { run: CommandRun::Single(line.to_string()), description: String::new(), safe: true }
}

fn parsed(free_safe: bool, names: &[&str]) -> Config {
    let mut commands = CommandsConfig::new(BuiltinMeta { safe: free_safe }, BuiltinMeta { safe: false });
    for n in names {
        commands.insert_custom(n.to_string(), meta(n));
    }
    Config { settings: Settings { color: false }, commands }
}

#[test]
fn nuke_safe_default_is_false() {
    let (cfg, _) = finish_load(None, None);
    assert!(!cfg.commands.nuke.safe, "nuke should default to safe=false");
}

#[test]
fn free_safe_default_is_true() {
    let (cfg, _) = finish_load(None, None);
    assert!(cfg.commands.free.safe, "free should default to safe=true");
}

#[test]
fn config_load_has_correct_defaults() {
    let (cfg, _) = finish_load(None, None);
    assert!(cfg.settings.color);
    assert!(cfg.commands.free.safe);
    assert!(!cfg.commands.nuke.safe);
}

#[test]
fn explicit_free_safe_is_detected() {
    assert!(explicit_free_safe("[commands.free]\nsafe = false\n"));
    assert!(explicit_free_safe("commands = { free = { safe = true } }"));
    assert!(!explicit_free_safe("[commands.nuke]\nsafe = false\n"));
    assert!(!explicit_free_safe("[commands.free]\n"));
    assert!(!explicit_free_safe("this is = = not toml"));
    assert!(!explicit_free_safe(""));
}

#[test]
fn free_override_applies_unless_explicit() {
    let text = "[commands.free]\nsafe = false\n[commands.nuke]\nsafe = false\n";
    let (cfg, _) = finish_load(Some(parsed(false, &[])), Some(text));
    assert!(!cfg.commands.free.safe);
    let (cfg, _) = finish_load(Some(parsed(false, &[])), Some("[settings]\ncolor = false\n"));
    assert!(cfg.commands.free.safe);
    assert!(!cfg.settings.color);
    let (cfg, _) = finish_load(None, Some(text));
    assert!(!cfg.commands.free.safe);
}

#[test]
fn reserved_custom_commands_are_dropped() {
    let (cfg, skipped) = finish_load(Some(parsed(true, &["serve", "list", "bye", "free"])), None);
    let names: Vec<&str> = cfg.commands.custom().iter().map(|(n, _)| n.as_str()).collect();
    assert_eq!(names, vec!["serve", "bye"]);
    assert_eq!(skipped, vec!["list", "free"]);
    assert!(cfg.commands.find_custom("serve").is_some());
    assert!(cfg.commands.find_custom("list").is_none());
}

#[test]
fn reserved_names() {
    for n in ["free", "nuke", "config", "help", "list", "update"] {
        assert!(is_reserved_name(n));
    }
    assert!(!is_reserved_name("info"));
    assert!(!is_reserved_name("Free"));
}

#[test]
fn insert_custom_replaces_same_name() {
    let mut c = CommandsConfig::new(BuiltinMeta { safe: true }, BuiltinMeta { safe: false });
    c.insert_custom("a".to_string(), meta("one"));
    c.insert_custom("b".to_string(), meta("two"));
    c.insert_custom("a".to_string(), meta("three"));
    assert_eq!(c.custom().len(), 2);
    assert_eq!(c.find_custom("a").unwrap().run.iter(), vec!["three"]);
    let taken = c.take_custom();
    assert_eq!(taken.len(), 2);
    assert!(c.custom().is_empty());
}

#[test]
fn command_run_lines() {
    let single = CommandRun::Single("shutdown /s /t 0".to_string());
    assert_eq!(single.iter(), vec!["shutdown /s /t 0"]);
    assert_eq!(single.display(), "shutdown /s /t 0");
    let multi = CommandRun::Multiple(vec!["cd C:/dev/work/bigproject".to_string(), "npm run dev".to_string()]);
    assert_eq!(multi.iter(), vec!["cd C:/dev/work/bigproject", "npm run dev"]);
    assert_eq!(multi.display(), "cd C:/dev/work/bigproject && npm run dev");
    assert_eq!(CommandRun::Multiple(vec![]).display(), "");
}

#[test]
fn defaults() {
    assert!(Settings::default().color);
    assert!(!BuiltinMeta::default().safe);
    let c = Config::default();
    assert!(!c.commands.free.safe);
    assert!(c.commands.custom().is_empty());
    assert!(wux::config::default_true());
    assert!(wux::config::default_safe_true());
}

#[test]
fn parse_full_config() {
    let toml_str = r#"
[settings]
color = true

[commands.free]
safe = true

[commands.nuke]
safe = false
"#;
    assert!(explicit_free_safe(toml_str));
    let file = Config {
        settings: Settings { color: true },
        commands: CommandsConfig::new(BuiltinMeta { safe: true }, BuiltinMeta { safe: false }),
    };
    let (config, skipped) = finish_load(Some(file), Some(toml_str));
    assert!(skipped.is_empty());
    assert!(config.settings.color);
    assert!(config.commands.free.safe);
    assert!(!config.commands.nuke.safe);
}
