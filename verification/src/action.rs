//! What a rule sends to the local server when it acts on an issue.

use crate::board::Issue;
use crate::config::{AutomationAction, AutomationRule, RepoConfig};
use crate::ids::{hyphenated, uuid_text, Uuid};
use crate::text::{decimal, decimal_text};
use vstd::prelude::*;
use vstd::string::StringExecFns;

verus! {

/// A repository of the workspace to create.
#[derive(Debug, Clone, PartialEq, Eq)]
pub struct WorkspaceRepoInput {
    pub repo_id: Uuid,
    pub target_branch: String,
}

/// The remote issue that a workspace is created for.
#[derive(Debug, Clone, Copy, PartialEq, Eq)]
pub struct LinkedIssueInfo {
    pub remote_project_id: Uuid,
    pub issue_id: Uuid,
}

/// The agent that works in the workspace.
#[derive(Debug, Clone, PartialEq, Eq)]
pub struct ExecutorConfig {
    pub executor: String,
    pub variant: Option<String>,
    pub model_id: Option<String>,
    pub agent_id: Option<String>,
    pub reasoning_id: Option<String>,
    pub permission_policy: Option<String>,
}

/// The request to create a workspace and start its agent.
#[derive(Debug, Clone, PartialEq, Eq)]
pub struct CreateAndStartWorkspaceRequest {
    pub name: Option<String>,
    pub repos: Vec<WorkspaceRepoInput>,
    pub linked_issue: Option<LinkedIssueInfo>,
    pub executor_config: ExecutorConfig,
    pub prompt: String,
    pub attachment_ids: Option<Vec<Uuid>>,
}

/// The contents of a [`CreateAndStartWorkspaceRequest`].
pub struct StartRequest {
    pub name: Option<String>,
    pub repos: Seq<WorkspaceRepoInput>,
    pub linked_issue: Option<LinkedIssueInfo>,
    pub executor_config: ExecutorConfig,
    pub prompt: Seq<char>,
    pub attachment_ids: Option<Vec<Uuid>>,
}

impl View for CreateAndStartWorkspaceRequest {
    type V = StartRequest;

    open spec fn view(&self) -> StartRequest {
        StartRequest {
            name: self.name,
            repos: self.repos@,
            linked_issue: self.linked_issue,
            executor_config: self.executor_config,
            prompt: self.prompt@,
            attachment_ids: self.attachment_ids,
        }
    }
}

/// The request to link a workspace to a remote issue.
#[derive(Debug, Clone, Copy, PartialEq, Eq)]
pub struct LinkRequest {
    pub project_id: Uuid,
    pub issue_id: Uuid,
}

/// What the agent is told to do.
pub open spec fn prompt(issue: Issue) -> Seq<char> {
    "處理 Issue "@ + issue.simple_id@ + "（"@ + hyphenated(issue.id) + "）"@
}

/// The repositories of a rule, as the request names them.
pub open spec fn workspace_repos(repos: Seq<RepoConfig>) -> Seq<WorkspaceRepoInput> {
    repos.map_values(
        |repo: RepoConfig|
            WorkspaceRepoInput { repo_id: repo.repo_id, target_branch: repo.branch },
    )
}

/// The request that a rule makes for an issue: a workspace named after the
/// issue and linked to it, with the rule's repositories, its agent mode and the
/// agent `executor`; everything else is left to the server's defaults.
pub open spec fn start_request(
    rule: AutomationRule,
    issue: Issue,
    executor: String,
) -> StartRequest {
    StartRequest {
        name: Some(issue.simple_id),
        repos: workspace_repos(rule.action->repos@),
        linked_issue: Some(
            LinkedIssueInfo { remote_project_id: rule.project(), issue_id: issue.id },
        ),
        executor_config: ExecutorConfig {
            executor,
            variant: None,
            model_id: None,
            agent_id: rule.action->agent_id,
            reasoning_id: None,
            permission_policy: None,
        },
        prompt: prompt(issue),
        attachment_ids: None,
    }
}

/// The address of the local server at a port.
pub open spec fn server_url(port: u16) -> Seq<char> {
    "http://127.0.0.1:"@ + decimal(port as nat)
}

/// Where the request to create a workspace goes.
pub open spec fn start_url(port: u16) -> Seq<char> {
    server_url(port) + "/api/workspaces/start"@
}

/// Where the request to link a workspace goes.
pub open spec fn link_url(port: u16, workspace_id: Uuid) -> Seq<char> {
    server_url(port) + "/api/workspaces/"@ + hyphenated(workspace_id) + "/links"@
}

/// Writes what the agent is told to do.
pub fn prompt_text(issue: &Issue) -> (text: String)
    ensures
        text@ == prompt(*issue),
        text@ == "處理 Issue "@ + issue.simple_id@ + "（"@ + hyphenated(issue.id) + "）"@,
{
    let mut text = String::from_str("處理 Issue ");
    text.append(issue.simple_id.as_str());
    text.append("（");
    text.append(uuid_text(issue.id).as_str());
    text.append("）");
    text
}

fn server_url_text(port: u16) -> (text: String)
    ensures
        text@ == server_url(port),
{
    let mut text = String::from_str("http://127.0.0.1:");
    text.append(decimal_text(port).as_str());
    text
}

/// Writes where the request to create a workspace goes.
pub fn start_url_text(port: u16) -> (text: String)
    ensures
        text@ == start_url(port),
        text@ == "http://127.0.0.1:"@ + decimal(port as nat) + "/api/workspaces/start"@,
{
    let mut text = server_url_text(port);
    text.append("/api/workspaces/start");
    text
}

/// Writes where the request to link a workspace goes.
pub fn link_url_text(port: u16, workspace_id: Uuid) -> (text: String)
    ensures
        text@ == link_url(port, workspace_id),
        text@ == "http://127.0.0.1:"@ + decimal(port as nat) + "/api/workspaces/"@ + hyphenated(
            workspace_id,
        ) + "/links"@,
{
    let mut text = server_url_text(port);
    text.append("/api/workspaces/");
    text.append(uuid_text(workspace_id).as_str());
    text.append("/links");
    text
}

fn repo_inputs(repos: &Vec<RepoConfig>) -> (inputs: Vec<WorkspaceRepoInput>)
    ensures
        inputs@ == workspace_repos(repos@),
        inputs@.len() == repos@.len(),
        forall|i: int|
            0 <= i < repos@.len() ==> (#[trigger] inputs@[i]).repo_id == repos@[i].repo_id
                && inputs@[i].target_branch == repos@[i].branch,
{
    let mut inputs: Vec<WorkspaceRepoInput> = Vec::new();
    for i in 0..repos.len()
        invariant
            inputs@ == workspace_repos(repos@.take(i as int)),
    {
        inputs.push(
            WorkspaceRepoInput {
                repo_id: repos[i].repo_id,
                target_branch: repos[i].branch.clone(),
            },
        );
        assert(inputs@ =~= workspace_repos(repos@.take(i + 1)));
    }
    assert(repos@.take(repos@.len() as int) =~= repos@);
    inputs
}

/// Builds the request that a rule makes for an issue.
pub fn workspace_request(
    rule: &AutomationRule,
    issue: &Issue,
    executor: &String,
) -> (request: CreateAndStartWorkspaceRequest)
    ensures
        request@ == start_request(*rule, *issue, *executor),
        request.name is Some,
        request.name->0@ == issue.simple_id@,
        request.repos@.len() == rule.action->repos@.len(),
        forall|i: int|
            0 <= i < request.repos@.len() ==> (#[trigger] request.repos@[i]).repo_id
                == rule.action->repos@[i].repo_id && request.repos@[i].target_branch
                == rule.action->repos@[i].branch,
        request.linked_issue is Some,
        request.linked_issue->0.remote_project_id == rule.action->project_id,
        request.linked_issue->0.issue_id == issue.id,
        request.executor_config.executor@ == executor@,
        request.executor_config.agent_id == rule.action->agent_id,
        request.executor_config.variant is None,
        request.executor_config.model_id is None,
        request.executor_config.reasoning_id is None,
        request.executor_config.permission_policy is None,
        request.prompt@ == "處理 Issue "@ + issue.simple_id@ + "（"@ + hyphenated(issue.id) + "）"@,
        request.attachment_ids is None,
{
    match &rule.action {
        AutomationAction::CreateWorkspace { agent_id, project_id, repos, .. } => {
            let agent_id = match agent_id {
                Some(agent_id) => Some(agent_id.clone()),
                None => None,
            };
            CreateAndStartWorkspaceRequest {
                name: Some(issue.simple_id.clone()),
                repos: repo_inputs(repos),
                linked_issue: Some(
                    LinkedIssueInfo { remote_project_id: *project_id, issue_id: issue.id },
                ),
                executor_config: ExecutorConfig {
                    executor: executor.clone(),
                    variant: None,
                    model_id: None,
                    agent_id,
                    reasoning_id: None,
                    permission_policy: None,
                },
                prompt: prompt_text(issue),
                attachment_ids: None,
            }
        },
    }
}

/// The request for a workspace that is built for a rule and an issue names each
/// repository of the rule, in order and with its branch, and no other; it is
/// linked to the issue in the rule's project and carries the rule's agent mode.
pub proof fn request_built_is_for_the_issue(
    rule: AutomationRule,
    issue: Issue,
    executor: String,
    request: CreateAndStartWorkspaceRequest,
)
    requires
        call_ensures(workspace_request, (&rule, &issue, &executor), request),
    ensures
        request.repos@.len() == rule.action->repos@.len(),
        forall|i: int|
            0 <= i < rule.action->repos@.len() ==> request.repos@[i].repo_id == (
            #[trigger] rule.action->repos@[i]).repo_id && request.repos@[i].target_branch@
                == rule.action->repos@[i].branch@,
        request.name is Some,
        request.name->0@ == issue.simple_id@,
        request.linked_issue is Some,
        request.linked_issue->0.remote_project_id == rule.action->project_id,
        request.linked_issue->0.issue_id == issue.id,
        request.executor_config.executor@ == executor@,
        request.executor_config.agent_id == rule.action->agent_id,
{
}

/// Naming repositories commutes with putting lists of them together.
pub proof fn repositories_are_named_one_by_one(
    a: Seq<RepoConfig>,
    b: Seq<RepoConfig>,
    one: RepoConfig,
)
    ensures
        workspace_repos(a + b) == workspace_repos(a) + workspace_repos(b),
        workspace_repos(seq![one]).len() == 1,
        workspace_repos(seq![one])[0].repo_id == one.repo_id,
        workspace_repos(seq![one])[0].target_branch == one.branch,
{
    assert(workspace_repos(a + b) =~= workspace_repos(a) + workspace_repos(b));
}

/// What a rule asks the server for: a workspace that is named after the issue
/// and linked to it in the rule's project, with the rule's repositories, agent
/// mode and agent, and a prompt that names the issue; all else is left open.
pub proof fn request_is_for_the_issue(
    rule: AutomationRule,
    issue: Issue,
    executor: String,
    request: StartRequest,
)
    requires
        request == start_request(rule, issue, executor),
    ensures
        request.name is Some,
        request.name->0@ == issue.simple_id@,
        request.repos.len() == rule.action->repos@.len(),
        forall|i: int|
            0 <= i < request.repos.len() ==> (#[trigger] request.repos[i]).repo_id
                == rule.action->repos@[i].repo_id && request.repos[i].target_branch
                == rule.action->repos@[i].branch,
        request.linked_issue is Some,
        request.linked_issue->0.remote_project_id == rule.action->project_id,
        request.linked_issue->0.issue_id == issue.id,
        request.executor_config.executor@ == executor@,
        request.executor_config.agent_id == rule.action->agent_id,
        request.executor_config.variant is None,
        request.executor_config.model_id is None,
        request.executor_config.reasoning_id is None,
        request.executor_config.permission_policy is None,
        request.prompt == "處理 Issue "@ + issue.simple_id@ + "（"@ + hyphenated(issue.id) + "）"@,
        request.attachment_ids is None,
{
}

/// The contents of a request for a workspace are the request's own.
pub proof fn request_contents(request: CreateAndStartWorkspaceRequest)
    ensures
        request@.name == request.name,
        request@.repos == request.repos@,
        request@.linked_issue == request.linked_issue,
        request@.executor_config == request.executor_config,
        request@.prompt == request.prompt@,
        request@.attachment_ids == request.attachment_ids,
{
}

/// Where requests go: to the local server at its port, to create a workspace or
/// to link the one that is named.
pub proof fn requests_go_to_the_port(port: u16, workspace_id: Uuid)
    ensures
        start_url(port) == "http://127.0.0.1:"@ + decimal(port as nat) + "/api/workspaces/start"@,
        link_url(port, workspace_id) == "http://127.0.0.1:"@ + decimal(port as nat)
            + "/api/workspaces/"@ + hyphenated(workspace_id) + "/links"@,
{
}

/// What is written of a rule's requests: the two addresses and the prompt.
pub proof fn requests_are_written_out(
    issue: Issue,
    port: u16,
    workspace_id: Uuid,
    prompt_written: String,
    start_written: String,
    link_written: String,
)
    requires
        call_ensures(prompt_text, (&issue,), prompt_written),
        call_ensures(start_url_text, (port,), start_written),
        call_ensures(link_url_text, (port, workspace_id), link_written),
    ensures
        prompt_written@ == "處理 Issue "@ + issue.simple_id@ + "（"@ + hyphenated(issue.id) + "）"@,
        start_written@ == "http://127.0.0.1:"@ + decimal(port as nat) + "/api/workspaces/start"@,
        link_written@ == "http://127.0.0.1:"@ + decimal(port as nat) + "/api/workspaces/"@
            + hyphenated(workspace_id) + "/links"@,
{
}

} // verus!
