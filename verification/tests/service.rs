use std::collections::HashMap;
use vibe_automation::api::ApiResponse;
use vibe_automation::board::{Issue, ProjectStatus, Workspace};
use vibe_automation::config::{
    AutomationAction, AutomationCondition, AutomationConfig, AutomationRule, AutomationTrigger,
};
use vibe_automation::machine::{Command, Event};
use vibe_automation::service::AutomationService;
use vibe_automation::statuses::StatusLookup;

const PROJECT: u128 = 7;

/// An outside world whose replies are set up front.
struct Outside {
    statuses: Option<Vec<(u128, &'static str)>>,
    /// The issues in each status; a status that is not here makes its search fail.
    issues: HashMap<u128, Vec<(u128, &'static str)>>,
    workspaces: Option<Vec<(&'static str, bool)>>,
    executor: Option<&'static str>,
    port: Option<u16>,
    start: Option<u16>,
    response: Option<Option<u128>>,
    link: Option<u16>,
}

impl Outside {
    fn new() -> Self {
        let mut issues = HashMap::new();
        issues.insert(1, vec![]);
        issues.insert(2, vec![(101, "VK-1")]);
        issues.insert(3, vec![]);
        Outside {
            statuses: Some(vec![(1, "Todo"), (2, "Ready"), (3, "In Progress")]),
            issues,
            workspaces: Some(vec![]),
            executor: Some("CODEX"),
            port: Some(8888),
            start: Some(200),
            response: Some(Some(900)),
            link: Some(200),
        }
    }

    fn answer(&self, command: &Command) -> Event {
        match command {
            Command::Sleep { .. } => Event::Slept,
            Command::AwaitTick { .. } => Event::Tick,
            Command::FetchStatuses { .. } => Event::Statuses(self.statuses.as_ref().map(|list| {
                list.iter()
                    .map(|(id, name)| ProjectStatus { id: *id, name: name.to_string() })
                    .collect()
            })),
            Command::SearchIssues { request } => {
                Event::Issues(self.issues.get(&request.status_id.unwrap()).map(|list| {
                    list.iter()
                        .map(|(id, name)| Issue { id: *id, simple_id: name.to_string() })
                        .collect()
                }))
            }
            Command::FetchWorkspaces => Event::Workspaces(self.workspaces.as_ref().map(|list| {
                list.iter()
                    .map(|(name, archived)| Workspace {
                        archived: *archived,
                        name: Some(name.to_string()),
                    })
                    .collect()
            })),
            Command::ParseExecutor { .. } => {
                Event::Executor(self.executor.map(|name| name.to_string()))
            }
            Command::ReadPortFile { .. } => Event::Port(self.port),
            Command::StartWorkspace { .. } => Event::StartSent(self.start),
            Command::ReadStartResponse => {
                Event::StartResponse(self.response.map(|data| ApiResponse { data }))
            }
            Command::LinkWorkspace { .. } => Event::LinkSent(self.link),
        }
    }
}

fn wip(max: usize, statuses: &[&str]) -> AutomationCondition {
    AutomationCondition::WipLimit {
        max,
        statuses: statuses.iter().map(|name| name.to_string()).collect(),
    }
}

fn rule(to: &str, conditions: Vec<AutomationCondition>) -> AutomationRule {
    AutomationRule {
        name: "auto".to_string(),
        enabled: true,
        trigger: AutomationTrigger::IssueStatusChanged { to: to.to_string() },
        conditions,
        action: AutomationAction::CreateWorkspace {
            executor: "codex".to_string(),
            agent_id: None,
            project_id: PROJECT,
            repos: vec![],
        },
    }
}

/// The service with these rules, waiting for its first round.
fn service(rules: Vec<AutomationRule>) -> AutomationService {
    let mut service = AutomationService::spawn(true, AutomationConfig { rules }).unwrap();
    assert_eq!(service.command(), Command::Sleep { secs: 10 });
    service.step(Event::Slept);
    service
}

/// Runs one round and gives the commands that it asked for, by a short name each.
fn round(service: &mut AutomationService, outside: &Outside) -> Vec<String> {
    assert_eq!(service.command(), Command::AwaitTick { secs: 60 });
    service.step(Event::Tick);
    let mut asked = Vec::new();
    loop {
        let command = service.command();
        asked.push(match &command {
            Command::AwaitTick { .. } => return asked,
            Command::Sleep { .. } => "sleep".to_string(),
            Command::FetchStatuses { project_id } => format!("statuses {project_id}"),
            Command::SearchIssues { request } => {
                assert_eq!(request.project_id, PROJECT);
                format!("search {}", request.status_id.unwrap())
            }
            Command::FetchWorkspaces => "workspaces".to_string(),
            Command::ParseExecutor { executor } => format!("executor {executor}"),
            Command::ReadPortFile { app } => format!("port {app}"),
            Command::StartWorkspace { url, request } => {
                assert_eq!(url, "http://127.0.0.1:8888/api/workspaces/start");
                format!("start {}", request.name.as_ref().unwrap())
            }
            Command::ReadStartResponse => "response".to_string(),
            Command::LinkWorkspace { url, link } => {
                assert_eq!(
                    url,
                    "http://127.0.0.1:8888/api/workspaces/00000000-0000-0000-0000-000000000384/links"
                );
                assert_eq!(link.project_id, PROJECT);
                format!("link {}", link.issue_id)
            }
        });
        service.step(outside.answer(&command));
    }
}

const FULL_ACTION: [&str; 5] =
    ["executor codex", "port vibe-kanban", "start VK-1", "response", "link 101"];

#[test]
fn no_service_without_a_remote_client() {
    assert!(AutomationService::spawn(false, AutomationConfig { rules: vec![] }).is_none());
    assert!(AutomationService::launch(false, Some(AutomationConfig { rules: vec![] })).is_none());
}

#[test]
fn no_service_without_rules() {
    assert!(AutomationService::launch(true, None).is_none());
    assert!(AutomationService::launch(true, Some(AutomationConfig { rules: vec![] })).is_some());
}

#[test]
fn first_round_comes_after_the_delay() {
    let mut service = service(vec![]);
    assert!(round(&mut service, &Outside::new()).is_empty());
    assert!(round(&mut service, &Outside::new()).is_empty());
}

#[test]
fn issue_in_the_target_status_gets_a_workspace() {
    let mut service = service(vec![rule("Ready", vec![])]);
    let asked = round(&mut service, &Outside::new());
    assert_eq!(asked[..2], ["statuses 7", "search 2"]);
    assert_eq!(asked[2..], FULL_ACTION);
}

#[test]
fn processed_issue_is_left_alone() {
    let mut service = service(vec![rule("Ready", vec![])]);
    round(&mut service, &Outside::new());
    assert_eq!(round(&mut service, &Outside::new()), ["search 2"]);
}

#[test]
fn second_rule_leaves_the_issue_of_the_first_alone() {
    let mut service = service(vec![rule("Ready", vec![]), rule("Ready", vec![])]);
    let asked = round(&mut service, &Outside::new());
    assert_eq!(asked[2..7], FULL_ACTION);
    assert_eq!(asked[7..], ["search 2"]);
}

#[test]
fn link_may_fail_and_the_issue_is_still_processed() {
    for link in [None, Some(500)] {
        let mut service = service(vec![rule("Ready", vec![])]);
        let outside = Outside { link, ..Outside::new() };
        assert_eq!(round(&mut service, &outside)[2..], FULL_ACTION);
        assert_eq!(round(&mut service, &outside), ["search 2"]);
    }
}

#[test]
fn failed_action_is_tried_again() {
    let cases = [
        (Outside { executor: None, ..Outside::new() }, 1),
        (Outside { port: None, ..Outside::new() }, 2),
        (Outside { start: None, ..Outside::new() }, 3),
        (Outside { start: Some(500), ..Outside::new() }, 3),
        (Outside { start: Some(302), ..Outside::new() }, 3),
        (Outside { response: None, ..Outside::new() }, 4),
        (Outside { response: Some(None), ..Outside::new() }, 4),
    ];
    for (outside, steps) in cases {
        let mut service = service(vec![rule("Ready", vec![])]);
        assert_eq!(round(&mut service, &outside)[2..], FULL_ACTION[..steps]);
        assert_eq!(round(&mut service, &Outside::new())[1..], FULL_ACTION);
    }
}

#[test]
fn agent_is_started_under_its_own_name() {
    let mut service = service(vec![rule("Ready", vec![])]);
    service.step(Event::Tick);
    loop {
        let command = service.command();
        if let Command::StartWorkspace { request, .. } = &command {
            assert_eq!(request.executor_config.executor, "CODEX");
            assert_eq!(
                request.prompt,
                "處理 Issue VK-1（00000000-0000-0000-0000-000000000065）"
            );
            return;
        }
        service.step(Outside::new().answer(&command));
    }
}

#[test]
fn disabled_rule_does_nothing() {
    let disabled = AutomationRule { enabled: false, ..rule("Ready", vec![]) };
    let mut with_it = service(vec![disabled.clone(), rule("Todo", vec![]), disabled]);
    let mut without_it = service(vec![rule("Todo", vec![])]);
    let outside = Outside::new();
    assert_eq!(round(&mut with_it, &outside), round(&mut without_it, &outside));
}

#[test]
fn statuses_are_fetched_once() {
    let mut service = service(vec![rule("Todo", vec![]), rule("In Progress", vec![])]);
    assert_eq!(round(&mut service, &Outside::new()), ["statuses 7", "search 1", "search 3"]);
    assert_eq!(round(&mut service, &Outside::new()), ["search 1", "search 3"]);
}

#[test]
fn failed_fetch_of_statuses_is_tried_again() {
    let mut service = service(vec![rule("Todo", vec![]), rule("Todo", vec![])]);
    let outside = Outside { statuses: None, ..Outside::new() };
    assert_eq!(round(&mut service, &outside), ["statuses 7", "statuses 7"]);
    assert_eq!(round(&mut service, &Outside::new()), ["statuses 7", "search 1", "search 1"]);
}

#[test]
fn rule_with_an_unknown_status_is_passed_over() {
    let mut service = service(vec![rule("Nowhere", vec![]), rule("Todo", vec![])]);
    assert_eq!(round(&mut service, &Outside::new()), ["statuses 7", "search 1"]);
    assert_eq!(round(&mut service, &Outside::new()), ["search 1"]);
}

#[test]
fn failed_search_ends_the_rule() {
    let mut service = service(vec![rule("Ready", vec![]), rule("Todo", vec![])]);
    let mut outside = Outside::new();
    outside.issues.remove(&2);
    assert_eq!(round(&mut service, &outside), ["statuses 7", "search 2", "search 1"]);
}

#[test]
fn existing_workspace_stops_the_action() {
    let conditions = vec![AutomationCondition::NoExistingWorkspace];
    let mut service = service(vec![rule("Ready", conditions)]);
    let outside = Outside { workspaces: Some(vec![("VK-1", false)]), ..Outside::new() };
    assert_eq!(round(&mut service, &outside)[2..], ["workspaces"]);
    let outside = Outside { workspaces: None, ..Outside::new() };
    assert_eq!(round(&mut service, &outside)[1..], ["workspaces"]);
    let outside = Outside { workspaces: Some(vec![("VK-1", true)]), ..Outside::new() };
    let asked = round(&mut service, &outside);
    assert_eq!(asked[1], "workspaces");
    assert_eq!(asked[2..], FULL_ACTION);
}

#[test]
fn wip_limit_stops_the_action_when_it_is_reached() {
    let mut outside = Outside::new();
    outside.issues.insert(3, vec![(301, "VK-7"), (302, "VK-8")]);
    outside.issues.insert(1, vec![(303, "VK-9")]);
    let statuses = ["In Progress", "Todo"];
    for (max, acts) in [(0, false), (2, false), (3, false), (4, true)] {
        let mut service = service(vec![rule("Ready", vec![wip(max, &statuses)])]);
        let asked = round(&mut service, &outside);
        assert_eq!(asked[..4], ["statuses 7", "search 2", "search 3", "search 1"]);
        assert_eq!(asked.len() > 4, acts);
    }
}

#[test]
fn wip_limit_counts_a_repeated_status_once() {
    let mut outside = Outside::new();
    outside.issues.insert(3, vec![(301, "VK-7")]);
    let twice = ["In Progress", "In Progress"];
    let mut below = service(vec![rule("Ready", vec![wip(2, &twice)])]);
    let asked = round(&mut below, &outside);
    assert_eq!(asked[2], "search 3");
    assert_eq!(asked[3..], FULL_ACTION);
    let mut reached = service(vec![rule("Ready", vec![wip(1, &twice)])]);
    assert_eq!(round(&mut reached, &outside)[2..], ["search 3"]);
    outside.issues.insert(1, vec![(302, "VK-8")]);
    let apart = ["In Progress", "Todo", "In Progress", "Todo"];
    let mut below = service(vec![rule("Ready", vec![wip(3, &apart)])]);
    let asked = round(&mut below, &outside);
    assert_eq!(asked[2..4], ["search 3", "search 1"]);
    assert_eq!(asked[4..], FULL_ACTION);
    let mut reached = service(vec![rule("Ready", vec![wip(2, &apart)])]);
    assert_eq!(round(&mut reached, &outside)[2..], ["search 3", "search 1"]);
}

#[test]
fn wip_limit_passes_over_what_it_cannot_count() {
    let mut outside = Outside::new();
    outside.issues.remove(&3);
    let statuses = ["Nowhere", "In Progress"];
    let mut below = service(vec![rule("Ready", vec![wip(1, &statuses)])]);
    let asked = round(&mut below, &outside);
    assert_eq!(asked[2], "search 3");
    assert_eq!(asked[3..], FULL_ACTION);
    let mut reached = service(vec![rule("Ready", vec![wip(0, &statuses)])]);
    assert_eq!(round(&mut reached, &outside).len(), 3);
}

#[test]
fn all_conditions_must_hold_in_order() {
    let conditions = vec![
        wip(1, &["In Progress"]),
        AutomationCondition::NoExistingWorkspace,
        wip(1, &["Todo"]),
    ];
    let mut outside = Outside::new();
    let mut holds = service(vec![rule("Ready", conditions.clone())]);
    let asked = round(&mut holds, &outside);
    assert_eq!(asked[2..5], ["search 3", "workspaces", "search 1"]);
    assert_eq!(asked[5..], FULL_ACTION);
    outside.issues.insert(1, vec![(303, "VK-9")]);
    let mut last_fails = service(vec![rule("Ready", conditions.clone())]);
    assert_eq!(round(&mut last_fails, &outside)[2..], ["search 3", "workspaces", "search 1"]);
    outside.issues.insert(3, vec![(301, "VK-7")]);
    let mut first_fails = service(vec![rule("Ready", conditions)]);
    assert_eq!(round(&mut first_fails, &outside)[2..], ["search 3"]);
}

#[test]
fn every_issue_is_worked_on() {
    let mut outside = Outside::new();
    outside.issues.insert(2, vec![(101, "VK-1"), (102, "VK-2"), (101, "VK-1")]);
    let mut service = service(vec![rule("Ready", vec![])]);
    let asked = round(&mut service, &outside);
    let starts: Vec<&String> = asked.iter().filter(|name| name.starts_with("start ")).collect();
    assert_eq!(starts, ["start VK-1", "start VK-2"]);
}

#[test]
fn limit_uses_the_statuses_that_are_known() {
    let mut service = service(vec![rule("Ready", vec![wip(1, &["In Progress"])])]);
    service.step(Event::Tick);
    assert_eq!(service.command(), Command::FetchStatuses { project_id: PROJECT });
    service.step(Outside::new().answer(&service.command()));
    service.step(Outside::new().answer(&service.command()));
    assert!(matches!(service.command(), Command::SearchIssues { .. }));
    service.step(Event::Issues(None));
    assert!(matches!(service.command(), Command::ParseExecutor { .. }));
}

#[test]
fn event_that_is_no_reply_is_ignored() {
    let mut service = service(vec![rule("Ready", vec![])]);
    service.step(Event::Tick);
    let command = service.command();
    for event in [Event::Tick, Event::Slept, Event::Issues(None), Event::LinkSent(Some(200))] {
        service.step(event);
        assert_eq!(service.command(), command);
    }
}

#[test]
fn service_tells_what_it_works_on() {
    let mut service = service(vec![rule("Ready", vec![])]);
    assert_eq!(service.current_rule(), None);
    assert_eq!(service.current_issue(), None);
    service.step(Event::Tick);
    assert_eq!(service.current_rule().unwrap().name, "auto");
    assert_eq!(service.current_issue(), None);
    service.step(Outside::new().answer(&service.command()));
    assert_eq!(service.current_rule().unwrap().name, "auto");
    service.step(Outside::new().answer(&service.command()));
    assert_eq!(service.current_issue().unwrap().simple_id, "VK-1");
}

/// Takes the service to the first search of the limit of its only rule.
fn at_the_limit(condition: AutomationCondition) -> AutomationService {
    let mut service = service(vec![rule("Ready", vec![condition])]);
    service.step(Event::Tick);
    service.step(Outside::new().answer(&service.command()));
    service.step(Outside::new().answer(&service.command()));
    service
}

fn searched(service: &AutomationService) -> Option<u128> {
    match service.command() {
        Command::SearchIssues { request } => request.status_id,
        _ => None,
    }
}

fn one_issue() -> Event {
    Event::Issues(Some(vec![Issue { id: 301, simple_id: "VK-7".to_string() }]))
}

#[test]
fn failed_search_is_made_again_where_the_status_is_named_again() {
    let mut service = at_the_limit(wip(1, &["In Progress", "In Progress"]));
    assert_eq!(searched(&service), Some(3));
    service.step(Event::Issues(None));
    assert_eq!(searched(&service), Some(3));
    service.step(one_issue());
    assert_eq!(service.command(), Command::AwaitTick { secs: 60 });
}

#[test]
fn status_counts_once_after_a_failed_search() {
    let names = ["In Progress", "In Progress", "Todo", "In Progress"];
    let mut service = at_the_limit(wip(2, &names));
    service.step(Event::Issues(None));
    assert_eq!(searched(&service), Some(3));
    service.step(one_issue());
    assert_eq!(searched(&service), Some(1));
    service.step(Event::Issues(None));
    assert!(matches!(service.command(), Command::ParseExecutor { .. }));
}

#[test]
fn status_with_two_names_counts_once() {
    let mut outside = Outside::new();
    outside.statuses = Some(vec![(2, "Ready"), (3, "In Progress"), (3, "Doing")]);
    outside.issues.insert(3, vec![(301, "VK-7")]);
    let mut service = service(vec![rule("Ready", vec![wip(2, &["Doing", "In Progress"])])]);
    let asked = round(&mut service, &outside);
    assert_eq!(asked[2], "search 3");
    assert_eq!(asked[3..], FULL_ACTION);
}

#[test]
fn every_limit_counts_afresh() {
    let mut outside = Outside::new();
    outside.issues.insert(3, vec![(301, "VK-7")]);
    let conditions = vec![wip(2, &["In Progress"]), wip(1, &["In Progress"])];
    let mut service = service(vec![rule("Ready", conditions)]);
    assert_eq!(round(&mut service, &outside)[2..], ["search 3", "search 3"]);
}

#[test]
fn service_tells_what_it_knows() {
    let mut service = service(vec![rule("Ready", vec![])]);
    let ready = "Ready".to_string();
    assert_eq!(service.resolve_status_id(PROJECT, &ready), StatusLookup::Unfetched);
    assert!(!service.is_processed(101));
    round(&mut service, &Outside::new());
    assert_eq!(service.resolve_status_id(PROJECT, &ready), StatusLookup::Known(Some(2)));
    assert!(service.is_processed(101));
    assert!(!service.is_processed(102));
}
