//! The automation rules and how their file is loaded.

use crate::ids::Uuid;
use vstd::prelude::*;

verus! {

/// Repository input for workspace creation.
#[derive(Debug, Clone, PartialEq, Eq)]
pub struct RepoConfig {
    pub repo_id: Uuid,
    pub branch: String,
}

/// What event triggers a rule.
#[derive(Debug, Clone, PartialEq, Eq)]
pub enum AutomationTrigger {
    /// Fires whenever an issue is moved to the specified status.
    IssueStatusChanged { to: String },
}

/// Guard conditions that must all pass before the action executes.
#[derive(Debug, Clone, PartialEq, Eq)]
pub enum AutomationCondition {
    /// Passes when no non-archived local workspace carries the issue's `simple_id` as its name.
    NoExistingWorkspace,
    /// Passes when the total number of remote issues in the given statuses is below `max`.
    WipLimit { max: usize, statuses: Vec<String> },
}

/// What a rule does when all its conditions pass.
#[derive(Debug, Clone, PartialEq, Eq)]
pub enum AutomationAction {
    /// Create a workspace and start the specified agent.
    CreateWorkspace {
        /// Executor name, e.g. "CLAUDE_CODE".
        executor: String,
        /// Optional agent mode, e.g. "ziwei".
        agent_id: Option<String>,
        /// Remote project.
        project_id: Uuid,
        /// Repositories to put in the workspace.
        repos: Vec<RepoConfig>,
    },
}

/// A single automation rule.
#[derive(Debug, Clone, PartialEq, Eq)]
pub struct AutomationRule {
    pub name: String,
    pub enabled: bool,
    pub trigger: AutomationTrigger,
    pub conditions: Vec<AutomationCondition>,
    pub action: AutomationAction,
}

impl AutomationRule {
    /// The remote project that the rule works on.
    pub open spec fn project(self) -> Uuid {
        self.action->project_id
    }

    /// The name of the status that the rule looks for.
    pub open spec fn target(self) -> Seq<char> {
        self.trigger->to@
    }

    /// Reads the remote project that the rule works on.
    pub fn project_id(&self) -> (id: Uuid)
        ensures
            id == self.project(),
            self.action matches AutomationAction::CreateWorkspace { project_id, .. } && id
                == project_id,
    {
        match &self.action {
            AutomationAction::CreateWorkspace { project_id, .. } => *project_id,
        }
    }

    /// Reads the name of the status that the rule looks for.
    pub fn target_status(&self) -> (name: &String)
        ensures
            name@ == self.target(),
            self.trigger matches AutomationTrigger::IssueStatusChanged { to } && *name == to,
    {
        match &self.trigger {
            AutomationTrigger::IssueStatusChanged { to } => to,
        }
    }
}

/// The full set of automation rules.
#[derive(Debug, Clone, PartialEq, Eq)]
pub struct AutomationConfig {
    pub rules: Vec<AutomationRule>,
}

/// Whether a rule is enabled when its file does not say.
pub fn default_true() -> (enabled: bool)
    ensures
        enabled,
{
    true
}

/// The place of the rules file: `directory` inside `base`, and `file` inside that.
#[derive(Debug, Clone, PartialEq, Eq)]
pub struct ConfigPath<D> {
    pub base: D,
    pub directory: &'static str,
    pub file: &'static str,
}

/// What to do next to load the rules.
#[derive(Debug, Clone, PartialEq, Eq)]
pub enum LoadCommand {
    /// Look whether the rules file exists.
    CheckFile,
    /// Read the rules file.
    ReadFile,
    /// Read the text as rules in TOML.
    ParseToml { contents: String },
    /// Loading is over; these are the rules, if there are any.
    Finish(Option<AutomationConfig>),
}

/// What came back while the rules are being loaded.
#[derive(Debug, Clone, PartialEq, Eq)]
pub enum LoadEvent {
    /// Whether there is a configuration directory.
    ConfigDir(bool),
    /// Whether the rules file exists.
    FileExists(bool),
    /// The text of the rules file; `None` when it could not be read.
    Contents(Option<String>),
    /// The rules in the text; `None` when it cannot be parsed.
    Parsed(Option<AutomationConfig>),
}

/// The command that follows an event: the next step of loading, or the end of
/// it with no rules as soon as a step has failed.
pub open spec fn load_step(event: LoadEvent) -> LoadCommand {
    match event {
        LoadEvent::ConfigDir(true) => LoadCommand::CheckFile,
        LoadEvent::FileExists(true) => LoadCommand::ReadFile,
        LoadEvent::Contents(Some(contents)) => LoadCommand::ParseToml { contents },
        LoadEvent::Parsed(config) => LoadCommand::Finish(config),
        _ => LoadCommand::Finish(None),
    }
}

impl AutomationConfig {
    /// Where the rules file is: `vibe-kanban/automation-rules.toml` in the
    /// user's configuration directory, if there is such a directory.
    pub fn config_path<D>(config_dir: Option<D>) -> (path: Option<ConfigPath<D>>)
        ensures
            path is Some <==> config_dir is Some,
            path matches Some(p) ==> p.base == config_dir->0 && p.directory@ == "vibe-kanban"@
                && p.file@ == "automation-rules.toml"@,
    {
        match config_dir {
            Some(base) => Some(
                ConfigPath { base, directory: "vibe-kanban", file: "automation-rules.toml" },
            ),
            None => None,
        }
    }

    /// Decides the next step of loading the rules.
    ///
    /// Loading starts with [`LoadEvent::ConfigDir`] and ends without rules if
    /// there is no such directory, or if the file does not exist, cannot be
    /// read or cannot be parsed.
    pub fn load(event: LoadEvent) -> (command: LoadCommand)
        ensures
            command == load_step(event),
            event == LoadEvent::ConfigDir(true) ==> command == LoadCommand::CheckFile,
            event == LoadEvent::FileExists(true) ==> command == LoadCommand::ReadFile,
            event is Contents && event->Contents_0 is Some ==> command is ParseToml
                && command->contents == event->Contents_0->0,
            event is Parsed ==> command == LoadCommand::Finish(event->Parsed_0),
            event == LoadEvent::ConfigDir(false) ==> command == LoadCommand::Finish(None),
            event == LoadEvent::FileExists(false) ==> command == LoadCommand::Finish(None),
            event == LoadEvent::Contents(None) ==> command == LoadCommand::Finish(None),
    {
        match event {
            LoadEvent::ConfigDir(found) => if found {
                LoadCommand::CheckFile
            } else {
                LoadCommand::Finish(None)
            },
            LoadEvent::FileExists(exists) => if exists {
                LoadCommand::ReadFile
            } else {
                LoadCommand::Finish(None)
            },
            LoadEvent::Contents(read) => match read {
                Some(contents) => LoadCommand::ParseToml { contents },
                None => LoadCommand::Finish(None),
            },
            LoadEvent::Parsed(config) => LoadCommand::Finish(config),
        }
    }
}

/// What is found where the rules file should be.
pub struct RulesFile {
    pub config_dir: bool,
    pub exists: bool,
    pub contents: Option<String>,
    /// The rules that a text holds.
    pub parsed: spec_fn(String) -> Option<AutomationConfig>,
}

impl RulesFile {
    /// The event that carrying out a command gives.
    pub open spec fn answer(self, command: LoadCommand) -> LoadEvent {
        match command {
            LoadCommand::CheckFile => LoadEvent::FileExists(self.exists),
            LoadCommand::ReadFile => LoadEvent::Contents(self.contents),
            LoadCommand::ParseToml { contents } => LoadEvent::Parsed((self.parsed)(contents)),
            LoadCommand::Finish(config) => LoadEvent::Parsed(config),
        }
    }

    /// The command that stands after `n` commands have been carried out.
    pub open spec fn command_after(self, n: nat) -> LoadCommand
        decreases n,
    {
        if n == 0 {
            load_step(LoadEvent::ConfigDir(self.config_dir))
        } else {
            load_step(self.answer(self.command_after((n - 1) as nat)))
        }
    }

    /// The rules that the file gives: those in its text, where there is a
    /// directory, a file in it, and a text that can be read.
    pub open spec fn rules(self) -> Option<AutomationConfig> {
        if self.config_dir && self.exists && self.contents is Some {
            (self.parsed)(self.contents->0)
        } else {
            None
        }
    }

    /// Loading ends after at most three commands, with the rules that the file
    /// gives: none if it does not exist or cannot be read or parsed.
    pub proof fn load_gives_the_rules(self)
        ensures
            self.command_after(3) == LoadCommand::Finish(self.rules()),
    {
        reveal_with_fuel(RulesFile::command_after, 4);
    }
}

/// A rule works on the project that its action names and looks for the status
/// that its trigger names.
pub proof fn rule_says_where_to_look(rule: AutomationRule, id: Uuid, name: &String)
    requires
        call_ensures(AutomationRule::project_id, (&rule,), id),
        call_ensures(AutomationRule::target_status, (&rule,), name),
    ensures
        id == rule.action->project_id,
        name@ == rule.trigger->to@,
        rule.project() == rule.action->project_id,
        rule.target() == rule.trigger->to@,
{
}

/// Loading goes from the directory to the file, its text and the rules in it,
/// each handed on as it came, and ends at the first that is missing.
pub proof fn loading_goes_step_by_step(event: LoadEvent, command: LoadCommand)
    requires
        call_ensures(AutomationConfig::load, (event,), command),
    ensures
        match event {
            LoadEvent::ConfigDir(found) => if found {
                command is CheckFile
            } else {
                command == LoadCommand::Finish(None)
            },
            LoadEvent::FileExists(found) => if found {
                command is ReadFile
            } else {
                command == LoadCommand::Finish(None)
            },
            LoadEvent::Contents(Some(text)) => command == (LoadCommand::ParseToml {
                contents: text,
            }),
            LoadEvent::Contents(None) => command == LoadCommand::Finish(None),
            LoadEvent::Parsed(config) => command == LoadCommand::Finish(config),
        },
{
}

/// The rules file is in the directory `vibe-kanban` of the configuration
/// directory, and nowhere if there is none.
pub proof fn rules_file_has_its_place<D>(base: Option<D>, path: Option<ConfigPath<D>>)
    requires
        call_ensures(AutomationConfig::config_path::<D>, (base,), path),
    ensures
        path is Some <==> base is Some,
        path is Some ==> path->0.base == base->0,
        path is Some ==> path->0.directory@ == "vibe-kanban"@,
        path is Some ==> path->0.file@ == "automation-rules.toml"@,
{
}

/// A rule is enabled unless its file says otherwise.
pub proof fn rules_are_enabled_by_default(enabled: bool)
    requires
        call_ensures(default_true, (), enabled),
    ensures
        enabled,
{
}

} // verus!
