use vibe_automation::config::{
    default_true, AutomationAction, AutomationConfig, AutomationRule, AutomationTrigger,
    LoadCommand, LoadEvent,
};

fn one_rule() -> AutomationConfig {
    AutomationConfig {
        rules: vec![AutomationRule {
            name: "auto".to_string(),
            enabled: default_true(),
            trigger: AutomationTrigger::IssueStatusChanged { to: "Ready".to_string() },
            conditions: vec![],
            action: AutomationAction::CreateWorkspace {
                executor: "CODEX".to_string(),
                agent_id: Some("ziwei".to_string()),
                project_id: 7,
                repos: vec![],
            },
        }],
    }
}

/// Carries out the commands of loading against a file that is like this.
fn load_from(
    config_dir: bool,
    exists: bool,
    contents: Option<&str>,
    parsed: Option<AutomationConfig>,
) -> (Option<AutomationConfig>, Vec<LoadCommand>) {
    let mut carried_out = Vec::new();
    let mut command = AutomationConfig::load(LoadEvent::ConfigDir(config_dir));
    loop {
        let event = match command.clone() {
            LoadCommand::CheckFile => LoadEvent::FileExists(exists),
            LoadCommand::ReadFile => LoadEvent::Contents(contents.map(|text| text.to_string())),
            LoadCommand::ParseToml { contents } => {
                assert_eq!(contents, "rules = []");
                LoadEvent::Parsed(parsed.clone())
            }
            LoadCommand::Finish(config) => return (config, carried_out),
        };
        carried_out.push(command);
        command = AutomationConfig::load(event);
    }
}

#[test]
fn rules_are_enabled_by_default() {
    assert!(default_true());
}

#[test]
fn rule_knows_its_project_and_target() {
    let config = one_rule();
    assert_eq!(config.rules[0].project_id(), 7);
    assert_eq!(config.rules[0].target_status(), "Ready");
}

#[test]
fn config_path_is_inside_the_config_directory() {
    let path = AutomationConfig::config_path(Some("/home/me/.config")).unwrap();
    assert_eq!(path.base, "/home/me/.config");
    assert_eq!(path.directory, "vibe-kanban");
    assert_eq!(path.file, "automation-rules.toml");
}

#[test]
fn no_config_path_without_a_config_directory() {
    assert_eq!(AutomationConfig::config_path::<String>(None), None);
}

#[test]
fn readable_file_gives_its_rules() {
    let (config, commands) = load_from(true, true, Some("rules = []"), Some(one_rule()));
    assert_eq!(config, Some(one_rule()));
    assert_eq!(
        commands,
        vec![
            LoadCommand::CheckFile,
            LoadCommand::ReadFile,
            LoadCommand::ParseToml { contents: "rules = []".to_string() },
        ]
    );
}

#[test]
fn no_config_directory_gives_no_rules() {
    let (config, commands) = load_from(false, true, Some("rules = []"), Some(one_rule()));
    assert_eq!(config, None);
    assert!(commands.is_empty());
}

#[test]
fn missing_file_gives_no_rules() {
    let (config, commands) = load_from(true, false, Some("rules = []"), Some(one_rule()));
    assert_eq!(config, None);
    assert_eq!(commands, vec![LoadCommand::CheckFile]);
}

#[test]
fn unreadable_file_gives_no_rules() {
    let (config, commands) = load_from(true, true, None, Some(one_rule()));
    assert_eq!(config, None);
    assert_eq!(commands, vec![LoadCommand::CheckFile, LoadCommand::ReadFile]);
}

#[test]
fn malformed_file_gives_no_rules() {
    let (config, commands) = load_from(true, true, Some("rules = []"), None);
    assert_eq!(config, None);
    assert_eq!(commands.len(), 3);
}
