use vibe_automation::action::{link_url_text, prompt_text, start_url_text, workspace_request};
use vibe_automation::api::is_success;
use vibe_automation::board::{Issue, ProjectStatus, SearchIssuesRequest, Workspace};
use vibe_automation::conditions::{find_active_workspace, WipCount};
use vibe_automation::config::{
    AutomationAction, AutomationRule, AutomationTrigger, RepoConfig,
};
use vibe_automation::statuses::{StatusCache, StatusLookup, StatusTable};
use vibe_automation::text::decimal_text;

const ISSUE_ID: u128 = 0x67e55044_10b1_426f_9247_bb680e5fe0c8;

fn issue(id: u128, simple_id: &str) -> Issue {
    Issue { id, simple_id: simple_id.to_string() }
}

fn status(id: u128, name: &str) -> ProjectStatus {
    ProjectStatus { id, name: name.to_string() }
}

fn workspace(name: Option<&str>, archived: bool) -> Workspace {
    Workspace { archived, name: name.map(|name| name.to_string()) }
}

#[test]
fn prompt_has_the_short_name_and_the_identifier() {
    assert_eq!(
        prompt_text(&issue(ISSUE_ID, "VK-12")),
        "處理 Issue VK-12（67e55044-10b1-426f-9247-bb680e5fe0c8）"
    );
}

#[test]
fn identifiers_are_written_as_uuid_writes_them() {
    for id in [0, 1, 0xf, ISSUE_ID, u128::MAX, u128::MAX - 1, 1 << 64, 0xabcdef << 100] {
        let text = uuid::Uuid::from_u128(id).to_string();
        assert_eq!(prompt_text(&issue(id, "")), format!("處理 Issue （{text}）"));
    }
}

#[test]
fn small_identifiers_keep_their_zeros() {
    assert_eq!(
        link_url_text(1, 0x1a),
        "http://127.0.0.1:1/api/workspaces/00000000-0000-0000-0000-00000000001a/links"
    );
}

#[test]
fn different_issues_have_different_prompts() {
    assert_ne!(prompt_text(&issue(1, "VK-1")), prompt_text(&issue(2, "VK-1")));
    assert_ne!(prompt_text(&issue(1, "VK-1")), prompt_text(&issue(1, "VK-2")));
}

#[test]
fn numbers_are_written_in_decimal() {
    for (n, text) in [(0, "0"), (9, "9"), (10, "10"), (8888, "8888"), (65535, "65535")] {
        assert_eq!(decimal_text(n), text);
    }
}

#[test]
fn start_url_names_the_port() {
    assert_eq!(start_url_text(8888), "http://127.0.0.1:8888/api/workspaces/start");
}

#[test]
fn link_url_names_the_port_and_the_workspace() {
    assert_eq!(
        link_url_text(65535, ISSUE_ID),
        "http://127.0.0.1:65535/api/workspaces/67e55044-10b1-426f-9247-bb680e5fe0c8/links"
    );
}

#[test]
fn success_codes_are_those_in_the_two_hundreds() {
    for (code, success) in [(0, false), (199, false), (200, true), (201, true), (299, true)] {
        assert_eq!(is_success(code), success);
    }
    for (code, success) in [(300, false), (404, false), (500, false), (65535, false)] {
        assert_eq!(is_success(code), success);
    }
}

#[test]
fn success_codes_are_those_of_the_http_client() {
    for code in 100..1000 {
        let expected = reqwest::StatusCode::from_u16(code).unwrap().is_success();
        assert_eq!(is_success(code), expected);
    }
}

#[test]
fn request_is_made_of_the_rule_and_the_issue() {
    let rule = AutomationRule {
        name: "auto".to_string(),
        enabled: true,
        trigger: AutomationTrigger::IssueStatusChanged { to: "Ready".to_string() },
        conditions: vec![],
        action: AutomationAction::CreateWorkspace {
            executor: "codex".to_string(),
            agent_id: Some("ziwei".to_string()),
            project_id: 7,
            repos: vec![
                RepoConfig { repo_id: 21, branch: "main".to_string() },
                RepoConfig { repo_id: 22, branch: "dev".to_string() },
            ],
        },
    };
    let request = workspace_request(&rule, &issue(5, "VK-5"), &"CODEX".to_string());
    assert_eq!(request.name.as_deref(), Some("VK-5"));
    assert_eq!(request.repos.len(), 2);
    assert_eq!(request.repos[0].repo_id, 21);
    assert_eq!(request.repos[0].target_branch, "main");
    assert_eq!(request.repos[1].repo_id, 22);
    assert_eq!(request.repos[1].target_branch, "dev");
    let linked = request.linked_issue.unwrap();
    assert_eq!((linked.remote_project_id, linked.issue_id), (7, 5));
    assert_eq!(request.executor_config.executor, "CODEX");
    assert_eq!(request.executor_config.agent_id.as_deref(), Some("ziwei"));
    assert_eq!(request.executor_config.variant, None);
    assert_eq!(request.executor_config.model_id, None);
    assert_eq!(request.executor_config.reasoning_id, None);
    assert_eq!(request.executor_config.permission_policy, None);
    assert_eq!(request.prompt, "處理 Issue VK-5（00000000-0000-0000-0000-000000000005）");
    assert_eq!(request.attachment_ids, None);
}

#[test]
fn search_has_no_filter_but_the_status() {
    let request = SearchIssuesRequest::in_status(7, 3);
    assert_eq!((request.project_id, request.status_id), (7, Some(3)));
    assert_eq!((request.limit, request.offset), (None, None));
    assert!(request.status_ids.is_none() && request.tag_ids.is_none() && request.tag_id.is_none());
    assert!(request.priority.is_none() && request.search.is_none() && request.simple_id.is_none());
    assert!(request.parent_issue_id.is_none() && request.assignee_user_id.is_none());
    assert!(request.sort_field.is_none() && request.sort_direction.is_none());
}

#[test]
fn status_table_finds_names() {
    let table = StatusTable::new(vec![status(1, "Todo"), status(2, "Ready")]);
    assert_eq!(table.get(&"Todo".to_string()), Some(1));
    assert_eq!(table.get(&"Ready".to_string()), Some(2));
    assert_eq!(table.get(&"ready".to_string()), None);
}

#[test]
fn later_status_of_one_name_counts() {
    let table = StatusTable::new(vec![status(1, "Todo"), status(2, "Ready"), status(3, "Todo")]);
    assert_eq!(table.get(&"Todo".to_string()), Some(3));
}

#[test]
fn status_cache_knows_only_what_is_stored() {
    let ready = "Ready".to_string();
    let mut cache = StatusCache::new();
    assert_eq!(cache.lookup(7, &ready), StatusLookup::Unfetched);
    cache.store(7, vec![status(2, "Ready")]);
    assert_eq!(cache.lookup(7, &ready), StatusLookup::Known(Some(2)));
    assert_eq!(cache.lookup(7, &"Done".to_string()), StatusLookup::Known(None));
    assert_eq!(cache.lookup(8, &ready), StatusLookup::Unfetched);
}

#[test]
fn active_workspace_is_found_by_name() {
    let name = "VK-1".to_string();
    assert!(find_active_workspace(&vec![workspace(Some("VK-1"), false)], &name));
    assert!(find_active_workspace(
        &vec![workspace(None, false), workspace(Some("VK-1"), true), workspace(Some("VK-1"), false)],
        &name
    ));
}

#[test]
fn archived_unnamed_and_other_workspaces_do_not_count() {
    let name = "VK-1".to_string();
    assert!(!find_active_workspace(&vec![], &name));
    assert!(!find_active_workspace(&vec![workspace(Some("VK-1"), true)], &name));
    assert!(!find_active_workspace(&vec![workspace(None, false)], &name));
    assert!(!find_active_workspace(&vec![workspace(Some("VK-10"), false)], &name));
}

#[test]
fn count_adds_up_and_remembers_its_statuses() {
    let count = WipCount::new();
    assert_eq!(count.issues, 0);
    assert!(!count.statuses.contains(1));
    let count = count.add_status(1, 2).add_status(5, 0).add_status(3, 4);
    assert_eq!(count.issues, 6);
    for (status_id, counted) in [(1, true), (5, true), (3, true), (2, false), (0, false)] {
        assert_eq!(count.statuses.contains(status_id), counted);
    }
}

#[test]
fn count_stops_at_the_largest_number() {
    let count = WipCount::new().add_status(1, usize::MAX).add_status(2, 5);
    assert_eq!(count.issues, usize::MAX);
}
