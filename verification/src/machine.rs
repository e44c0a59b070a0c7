//! The automation service as a state machine.
//!
//! A state says which reply the service is waiting for. [`ask`] gives the
//! command that is to be carried out in a state, and [`step`] the state that
//! follows when its reply comes in.

use crate::action::{
    link_url, start_request, start_url, CreateAndStartWorkspaceRequest, LinkRequest, StartRequest,
};
use crate::api::{success_code, ApiResponse};
use crate::board::{search_in_status, Issue, ProjectStatus, SearchIssuesRequest, Workspace};
use crate::conditions::{has_active_workspace, WipCount};
use crate::config::{AutomationCondition, AutomationRule};
use crate::ids::Uuid;
use crate::statuses::{lookup, status_map, StatusLookup};
use vstd::prelude::*;

verus! {

/// How long the service waits before its first round, so that the local server
/// has time to bind and to write its port file.
pub const STARTUP_DELAY_SECS: u64 = 10;

/// The time from one round to the next.
pub const POLL_INTERVAL_SECS: u64 = 60;

/// What the service wants done.
#[derive(Debug, Clone, PartialEq, Eq)]
pub enum Command {
    /// Sleep once.
    Sleep { secs: u64 },
    /// Wait for the next tick of a clock with this period, whose first tick is at once.
    AwaitTick { secs: u64 },
    /// Fetch the statuses of a remote project.
    FetchStatuses { project_id: Uuid },
    /// Search for remote issues.
    SearchIssues { request: SearchIssuesRequest },
    /// List all local workspaces.
    FetchWorkspaces,
    /// Find the coding agent of this name.
    ParseExecutor { executor: String },
    /// Read the port of the running server of this application.
    ReadPortFile { app: String },
    /// Post the request to create and start a workspace.
    StartWorkspace { url: String, request: CreateAndStartWorkspaceRequest },
    /// Read the body of the reply to that request.
    ReadStartResponse,
    /// Post the request to link the workspace to its issue.
    LinkWorkspace { url: String, link: LinkRequest },
}

/// The contents of a [`Command`].
pub enum Ask {
    Sleep(u64),
    AwaitTick(u64),
    Statuses(Uuid),
    Search(SearchIssuesRequest),
    Workspaces,
    Executor(Seq<char>),
    Port(Seq<char>),
    Start { url: Seq<char>, request: StartRequest },
    StartResponse,
    Link { url: Seq<char>, link: LinkRequest },
}

impl View for Command {
    type V = Ask;

    open spec fn view(&self) -> Ask {
        match *self {
            Command::Sleep { secs } => Ask::Sleep(secs),
            Command::AwaitTick { secs } => Ask::AwaitTick(secs),
            Command::FetchStatuses { project_id } => Ask::Statuses(project_id),
            Command::SearchIssues { request } => Ask::Search(request),
            Command::FetchWorkspaces => Ask::Workspaces,
            Command::ParseExecutor { executor } => Ask::Executor(executor@),
            Command::ReadPortFile { app } => Ask::Port(app@),
            Command::StartWorkspace { url, request } => Ask::Start { url: url@, request: request@ },
            Command::ReadStartResponse => Ask::StartResponse,
            Command::LinkWorkspace { url, link } => Ask::Link { url: url@, link },
        }
    }
}

/// What came back from a command. `None` stands for a failure.
#[derive(Debug, Clone, PartialEq, Eq)]
pub enum Event {
    Slept,
    Tick,
    Statuses(Option<Vec<ProjectStatus>>),
    Issues(Option<Vec<Issue>>),
    Workspaces(Option<Vec<Workspace>>),
    /// The name under which the agent is known; `None` when no agent has the name asked for.
    Executor(Option<String>),
    Port(Option<u16>),
    /// The HTTP status code; `None` when no reply came.
    StartSent(Option<u16>),
    /// The identifier of the new workspace in its envelope; `None` when the body is not one.
    StartResponse(Option<ApiResponse<Uuid>>),
    /// The HTTP status code; `None` when no reply came.
    LinkSent(Option<u16>),
}

/// What the service is waiting for while it works on one issue.
#[derive(Debug, PartialEq, Eq)]
pub enum Task {
    /// The local workspaces, for the condition `cond`.
    Workspaces { cond: usize },
    /// The statuses of the project, for the status `index` of the limit `cond`;
    /// `count` is what has been counted before it.
    WipStatuses { cond: usize, index: usize, count: WipCount },
    /// The issues in the status `index` of the limit `cond`.
    WipIssues { cond: usize, index: usize, count: WipCount, status_id: Uuid },
    /// The agent of the rule.
    Executor,
    /// The port of the local server.
    Port { executor: String },
    /// The reply to the request for a workspace.
    Start { executor: String, port: u16 },
    /// The body of that reply.
    StartResponse { port: u16 },
    /// The reply to the request for a link.
    Link { port: u16, workspace_id: Uuid },
}

/// What the service is waiting for.
#[derive(Debug, PartialEq, Eq)]
pub enum Phase {
    /// The end of the delay at the start.
    Starting,
    /// The next round.
    Waiting,
    /// The statuses of the project of a rule, to resolve the rule's target.
    TargetStatuses { rule: usize },
    /// The issues in the target status of a rule.
    TargetIssues { rule: usize, status_id: Uuid },
    /// A reply on the issue at `pos` of those that the rule found.
    Working { rule: usize, issues: Vec<Issue>, pos: usize, task: Task },
}

/// The status names known, by project.
pub type Cache = Map<Uuid, Map<Seq<char>, Uuid>>;

/// The state of the service.
pub struct State {
    pub phase: Phase,
    /// The statuses of the projects fetched so far.
    pub cache: Cache,
    /// The issues for which a workspace has been created in this session.
    pub processed: Set<Uuid>,
}

impl State {
    /// The same knowledge in another phase.
    pub open spec fn at(self, phase: Phase) -> State {
        State { phase, ..self }
    }
}

/// The state that the service starts in.
pub open spec fn initial_state() -> State {
    State { phase: Phase::Starting, cache: Map::empty(), processed: Set::empty() }
}

/// Where the count of issues for a limit on work in progress has come to.
pub enum Tally {
    /// All statuses have been gone through, and so many issues counted.
    Counted(usize),
    /// A reply is needed.
    Need(Task),
}

/// Where the check of an issue's conditions has come to.
pub enum Check {
    /// All conditions have passed.
    Pass,
    /// A condition has failed.
    Fail,
    /// A reply is needed.
    Need(Task),
}

/// Counts on from the status `index`: a status that the project does not have,
/// or that has been counted already, is passed over; any other needs a search.
/// So a status counts once, however often it is named, and one whose search
/// failed is searched for again where it is named again.
pub open spec fn tally(
    project_id: Uuid,
    cache: Cache,
    statuses: Seq<String>,
    cond: int,
    index: int,
    count: WipCount,
) -> Tally
    decreases statuses.len() - index,
{
    if index >= statuses.len() {
        Tally::Counted(count.issues)
    } else {
        match lookup(cache, project_id, statuses[index]@) {
            StatusLookup::Unfetched => Tally::Need(
                Task::WipStatuses { cond: cond as usize, index: index as usize, count },
            ),
            StatusLookup::Known(None) => tally(
                project_id,
                cache,
                statuses,
                cond,
                index + 1,
                count,
            ),
            StatusLookup::Known(Some(status_id)) => if count.statuses.ids().contains(status_id) {
                tally(project_id, cache, statuses, cond, index + 1, count)
            } else {
                Tally::Need(
                    Task::WipIssues {
                        cond: cond as usize,
                        index: index as usize,
                        count,
                        status_id,
                    },
                )
            },
        }
    }
}

/// Checks on from the condition `cond`, in order.
pub open spec fn check(rule: AutomationRule, cache: Cache, cond: int) -> Check
    decreases rule.conditions@.len() - cond, 1int,
{
    if cond >= rule.conditions@.len() {
        Check::Pass
    } else {
        match rule.conditions@[cond] {
            AutomationCondition::NoExistingWorkspace => Check::Need(
                Task::Workspaces { cond: cond as usize },
            ),
            AutomationCondition::WipLimit { statuses, .. } => after_tally(
                rule,
                cache,
                cond,
                tally(rule.project(), cache, statuses@, cond, 0, WipCount::none()),
            ),
        }
    }
}

/// Goes on from the count for the limit `cond`: the limit is reached unless
/// the count is below it.
pub open spec fn after_tally(
    rule: AutomationRule,
    cache: Cache,
    cond: int,
    tally: Tally,
) -> Check
    decreases rule.conditions@.len() - cond, 0int,
{
    match tally {
        Tally::Counted(count) => if cond >= rule.conditions@.len() {
            Check::Pass
        } else if count >= rule.conditions@[cond]->max {
            Check::Fail
        } else {
            check(rule, cache, cond + 1)
        },
        Tally::Need(task) => Check::Need(task),
    }
}

/// The phase in which the rules from `r` on are worked on: disabled rules and
/// those whose target the project does not have are passed over.
pub open spec fn rule_phase(rules: Seq<AutomationRule>, cache: Cache, r: int) -> Phase
    decreases rules.len() - r,
{
    if r >= rules.len() {
        Phase::Waiting
    } else if !rules[r].enabled {
        rule_phase(rules, cache, r + 1)
    } else {
        match lookup(cache, rules[r].project(), rules[r].target()) {
            StatusLookup::Unfetched => Phase::TargetStatuses { rule: r as usize },
            StatusLookup::Known(None) => rule_phase(rules, cache, r + 1),
            StatusLookup::Known(Some(status_id)) => Phase::TargetIssues {
                rule: r as usize,
                status_id,
            },
        }
    }
}

/// The phase in which the issues from `pos` on are worked on: processed issues
/// and those that fail a condition are passed over.
pub open spec fn issue_phase(
    rules: Seq<AutomationRule>,
    cache: Cache,
    processed: Set<Uuid>,
    r: int,
    issues: Vec<Issue>,
    pos: int,
) -> Phase
    decreases issues@.len() - pos, 1int,
{
    if pos >= issues@.len() {
        rule_phase(rules, cache, r + 1)
    } else if processed.contains(issues@[pos].id) {
        issue_phase(rules, cache, processed, r, issues, pos + 1)
    } else {
        after_check(rules, cache, processed, r, issues, pos, check(rules[r], cache, 0))
    }
}

/// The phase that follows a check of the issue at `pos`.
pub open spec fn after_check(
    rules: Seq<AutomationRule>,
    cache: Cache,
    processed: Set<Uuid>,
    r: int,
    issues: Vec<Issue>,
    pos: int,
    check: Check,
) -> Phase
    decreases issues@.len() - pos, 0int,
{
    match check {
        Check::Pass => Phase::Working {
            rule: r as usize,
            issues,
            pos: pos as usize,
            task: Task::Executor,
        },
        Check::Fail => if pos >= issues@.len() {
            rule_phase(rules, cache, r + 1)
        } else {
            issue_phase(rules, cache, processed, r, issues, pos + 1)
        },
        Check::Need(task) => Phase::Working { rule: r as usize, issues, pos: pos as usize, task },
    }
}

/// The command to be carried out in a phase.
pub open spec fn ask(rules: Seq<AutomationRule>, phase: Phase) -> Ask {
    match phase {
        Phase::Starting => Ask::Sleep(STARTUP_DELAY_SECS),
        Phase::Waiting => Ask::AwaitTick(POLL_INTERVAL_SECS),
        Phase::TargetStatuses { rule } => Ask::Statuses(rules[rule as int].project()),
        Phase::TargetIssues { rule, status_id } => Ask::Search(
            search_in_status(rules[rule as int].project(), status_id),
        ),
        Phase::Working { rule, issues, pos, task } => task_ask(
            rules[rule as int],
            issues@[pos as int],
            task,
        ),
    }
}

/// The command to be carried out for an issue.
pub open spec fn task_ask(rule: AutomationRule, issue: Issue, task: Task) -> Ask {
    match task {
        Task::Workspaces { .. } => Ask::Workspaces,
        Task::WipStatuses { .. } => Ask::Statuses(rule.project()),
        Task::WipIssues { status_id, .. } => Ask::Search(
            search_in_status(rule.project(), status_id),
        ),
        Task::Executor => Ask::Executor(rule.action->executor@),
        Task::Port { .. } => Ask::Port("vibe-kanban"@),
        Task::Start { executor, port } => Ask::Start {
            url: start_url(port),
            request: start_request(rule, issue, executor),
        },
        Task::StartResponse { .. } => Ask::StartResponse,
        Task::Link { port, workspace_id } => Ask::Link {
            url: link_url(port, workspace_id),
            link: LinkRequest { project_id: rule.project(), issue_id: issue.id },
        },
    }
}

/// Whether an event is a reply to a command.
pub open spec fn answers(ask: Ask, event: Event) -> bool {
    match ask {
        Ask::Sleep(_) => event is Slept,
        Ask::AwaitTick(_) => event is Tick,
        Ask::Statuses(_) => event is Statuses,
        Ask::Search(_) => event is Issues,
        Ask::Workspaces => event is Workspaces,
        Ask::Executor(_) => event is Executor,
        Ask::Port(_) => event is Port,
        Ask::Start { .. } => event is StartSent,
        Ask::StartResponse => event is StartResponse,
        Ask::Link { .. } => event is LinkSent,
    }
}

/// The state that follows when an event comes in. An event that is not the
/// reply that the state waits for changes nothing.
pub open spec fn step(rules: Seq<AutomationRule>, s: State, event: Event) -> State {
    match (s.phase, event) {
        (Phase::Starting, Event::Slept) => s.at(Phase::Waiting),
        (Phase::Waiting, Event::Tick) => s.at(rule_phase(rules, s.cache, 0)),
        (Phase::TargetStatuses { rule }, Event::Statuses(reply)) => match reply {
            Some(list) => {
                let cache = s.cache.insert(rules[rule as int].project(), status_map(list@));
                State { phase: rule_phase(rules, cache, rule as int), cache, ..s }
            },
            None => s.at(rule_phase(rules, s.cache, rule + 1)),
        },
        (Phase::TargetIssues { rule, .. }, Event::Issues(reply)) => match reply {
            Some(issues) => s.at(
                issue_phase(rules, s.cache, s.processed, rule as int, issues, 0),
            ),
            None => s.at(rule_phase(rules, s.cache, rule + 1)),
        },
        (Phase::Working { rule, issues, pos, task }, event) => task_step(
            rules,
            s,
            rule as int,
            issues,
            pos as int,
            task,
            event,
        ),
        _ => s,
    }
}

/// The state that follows when an event comes in on the issue at `pos`.
pub open spec fn task_step(
    rules: Seq<AutomationRule>,
    s: State,
    r: int,
    issues: Vec<Issue>,
    pos: int,
    task: Task,
    event: Event,
) -> State {
    let rule = rules[r];
    let issue = issues@[pos];
    let next_issue = s.at(issue_phase(rules, s.cache, s.processed, r, issues, pos + 1));
    let with_task = |task: Task|
        s.at(Phase::Working { rule: r as usize, issues, pos: pos as usize, task });
    match (task, event) {
        (Task::Workspaces { cond }, Event::Workspaces(reply)) => match reply {
            Some(workspaces) => if has_active_workspace(workspaces@, issue.simple_id@) {
                next_issue
            } else {
                s.at(
                    after_check(
                        rules,
                        s.cache,
                        s.processed,
                        r,
                        issues,
                        pos,
                        check(rule, s.cache, cond + 1),
                    ),
                )
            },
            None => next_issue,
        },
        (Task::WipStatuses { cond, index, count }, Event::Statuses(reply)) => match reply {
            Some(list) => {
                let cache = s.cache.insert(rule.project(), status_map(list@));
                tally_step(
                    rules,
                    State { cache, ..s },
                    r,
                    issues,
                    pos,
                    cond as int,
                    index as int,
                    count,
                )
            },
            None => tally_step(rules, s, r, issues, pos, cond as int, index + 1, count),
        },
        (Task::WipIssues { cond, index, count, status_id }, Event::Issues(reply)) => match reply {
            Some(found) => tally_step(
                rules,
                s,
                r,
                issues,
                pos,
                cond as int,
                index + 1,
                count.plus(status_id, found@.len()),
            ),
            None => tally_step(rules, s, r, issues, pos, cond as int, index + 1, count),
        },
        (Task::Executor, Event::Executor(reply)) => match reply {
            Some(executor) => with_task(Task::Port { executor }),
            None => next_issue,
        },
        (Task::Port { executor }, Event::Port(reply)) => match reply {
            Some(port) => with_task(Task::Start { executor, port }),
            None => next_issue,
        },
        (Task::Start { port, .. }, Event::StartSent(reply)) => match reply {
            Some(code) => if success_code(code) {
                with_task(Task::StartResponse { port })
            } else {
                next_issue
            },
            None => next_issue,
        },
        (Task::StartResponse { port }, Event::StartResponse(reply)) => match reply {
            Some(ApiResponse { data: Some(workspace_id) }) => with_task(
                Task::Link { port, workspace_id },
            ),
            _ => next_issue,
        },
        (Task::Link { .. }, Event::LinkSent(_)) => {
            let processed = s.processed.insert(issue.id);
            State {
                phase: issue_phase(rules, s.cache, processed, r, issues, pos + 1),
                processed,
                ..s
            }
        },
        _ => s,
    }
}

/// The state that follows when the limit `cond` is counted on from the status `index`.
pub open spec fn tally_step(
    rules: Seq<AutomationRule>,
    s: State,
    r: int,
    issues: Vec<Issue>,
    pos: int,
    cond: int,
    index: int,
    count: WipCount,
) -> State {
    let rule = rules[r];
    let tally = tally(
        rule.project(),
        s.cache,
        rule.conditions@[cond]->statuses@,
        cond,
        index,
        count,
    );
    s.at(
        after_check(
            rules,
            s.cache,
            s.processed,
            r,
            issues,
            pos,
            after_tally(rule, s.cache, cond, tally),
        ),
    )
}

/// Whether the reply that a task waits for is one that the rule asks for.
pub open spec fn task_fits(rule: AutomationRule, cache: Cache, task: Task) -> bool {
    match task {
        Task::Workspaces { cond } => {
            &&& cond < rule.conditions@.len()
            &&& rule.conditions@[cond as int] is NoExistingWorkspace
        },
        Task::WipStatuses { cond, index, .. } => {
            &&& cond < rule.conditions@.len()
            &&& rule.conditions@[cond as int] is WipLimit
            &&& index < rule.conditions@[cond as int]->statuses@.len()
            &&& !cache.contains_key(rule.project())
        },
        Task::WipIssues { cond, index, .. } => {
            &&& cond < rule.conditions@.len()
            &&& rule.conditions@[cond as int] is WipLimit
            &&& index < rule.conditions@[cond as int]->statuses@.len()
        },
        _ => true,
    }
}

/// Whether a phase is about a rule that is enabled and, if it is about an
/// issue, about one that has not been processed. Statuses are asked for only
/// while they are unknown.
pub open spec fn phase_fits(
    rules: Seq<AutomationRule>,
    cache: Cache,
    processed: Set<Uuid>,
    phase: Phase,
) -> bool {
    match phase {
        Phase::Starting => true,
        Phase::Waiting => true,
        Phase::TargetStatuses { rule } => {
            &&& rule < rules.len()
            &&& rules[rule as int].enabled
            &&& !cache.contains_key(rules[rule as int].project())
        },
        Phase::TargetIssues { rule, .. } => rule < rules.len() && rules[rule as int].enabled,
        Phase::Working { rule, issues, pos, task } => {
            &&& rule < rules.len()
            &&& rules[rule as int].enabled
            &&& pos < issues@.len()
            &&& !processed.contains(issues@[pos as int].id)
            &&& task_fits(rules[rule as int], cache, task)
        },
    }
}

impl State {
    /// Whether the state is one that the service can be in under these rules.
    pub open spec fn wf(self, rules: Seq<AutomationRule>) -> bool {
        &&& rules.len() <= usize::MAX
        &&& phase_fits(rules, self.cache, self.processed, self.phase)
    }
}

proof fn lemma_tally_fits(
    rule: AutomationRule,
    cache: Cache,
    cond: int,
    index: int,
    count: WipCount,
)
    requires
        0 <= cond < rule.conditions@.len(),
        rule.conditions@[cond] is WipLimit,
        0 <= index,
    ensures
        tally(
            rule.project(),
            cache,
            rule.conditions@[cond]->statuses@,
            cond,
            index,
            count,
        ) matches Tally::Need(task) ==> task_fits(rule, cache, task),
    decreases rule.conditions@[cond]->statuses@.len() - index,
{
    let statuses = rule.conditions@[cond]->statuses;
    assert(rule.conditions.len() == rule.conditions@.len());
    assert(statuses.len() == statuses@.len());
    if index < statuses@.len() {
        lemma_tally_fits(rule, cache, cond, index + 1, count);
    }
}

proof fn lemma_after_tally_fits(rule: AutomationRule, cache: Cache, cond: int, t: Tally)
    requires
        0 <= cond,
        t matches Tally::Need(task) ==> task_fits(rule, cache, task),
    ensures
        after_tally(rule, cache, cond, t) matches Check::Need(task) ==> task_fits(
            rule,
            cache,
            task,
        ),
    decreases rule.conditions@.len() - cond, 0int,
{
    if cond < rule.conditions@.len() {
        lemma_check_fits(rule, cache, cond + 1);
    }
}

proof fn lemma_check_fits(rule: AutomationRule, cache: Cache, cond: int)
    requires
        0 <= cond,
    ensures
        check(rule, cache, cond) matches Check::Need(task) ==> task_fits(rule, cache, task),
    decreases rule.conditions@.len() - cond, 1int,
{
    assert(rule.conditions.len() == rule.conditions@.len());
    if cond < rule.conditions@.len() {
        if let AutomationCondition::WipLimit { statuses, .. } = rule.conditions@[cond] {
            lemma_tally_fits(rule, cache, cond, 0, WipCount::none());
            lemma_after_tally_fits(
                rule,
                cache,
                cond,
                tally(rule.project(), cache, statuses@, cond, 0, WipCount::none()),
            );
        }
    }
}

proof fn lemma_rule_phase_fits(
    rules: Seq<AutomationRule>,
    cache: Cache,
    processed: Set<Uuid>,
    r: int,
)
    requires
        0 <= r,
        rules.len() <= usize::MAX,
    ensures
        phase_fits(rules, cache, processed, rule_phase(rules, cache, r)),
    decreases rules.len() - r,
{
    if r < rules.len() {
        lemma_rule_phase_fits(rules, cache, processed, r + 1);
    }
}

proof fn lemma_issue_phase_fits(
    rules: Seq<AutomationRule>,
    cache: Cache,
    processed: Set<Uuid>,
    r: int,
    issues: Vec<Issue>,
    pos: int,
)
    requires
        0 <= r < rules.len() <= usize::MAX,
        rules[r].enabled,
        0 <= pos,
    ensures
        phase_fits(
            rules,
            cache,
            processed,
            issue_phase(rules, cache, processed, r, issues, pos),
        ),
    decreases issues@.len() - pos, 1int,
{
    if pos >= issues@.len() {
        lemma_rule_phase_fits(rules, cache, processed, r + 1);
    } else if processed.contains(issues@[pos].id) {
        lemma_issue_phase_fits(rules, cache, processed, r, issues, pos + 1);
    } else {
        lemma_check_fits(rules[r], cache, 0);
        lemma_after_check_fits(
            rules,
            cache,
            processed,
            r,
            issues,
            pos,
            check(rules[r], cache, 0),
        );
    }
}

proof fn lemma_after_check_fits(
    rules: Seq<AutomationRule>,
    cache: Cache,
    processed: Set<Uuid>,
    r: int,
    issues: Vec<Issue>,
    pos: int,
    c: Check,
)
    requires
        0 <= r < rules.len() <= usize::MAX,
        rules[r].enabled,
        0 <= pos < issues@.len(),
        !processed.contains(issues@[pos].id),
        c matches Check::Need(task) ==> task_fits(rules[r], cache, task),
    ensures
        phase_fits(
            rules,
            cache,
            processed,
            after_check(rules, cache, processed, r, issues, pos, c),
        ),
    decreases issues@.len() - pos, 0int,
{
    assert(issues.len() == issues@.len());
    if c is Fail {
        lemma_issue_phase_fits(rules, cache, processed, r, issues, pos + 1);
    }
}

proof fn lemma_tally_step_fits(
    rules: Seq<AutomationRule>,
    s: State,
    r: int,
    issues: Vec<Issue>,
    pos: int,
    cond: int,
    index: int,
    count: WipCount,
)
    requires
        0 <= r < rules.len() <= usize::MAX,
        rules[r].enabled,
        0 <= pos < issues@.len(),
        !s.processed.contains(issues@[pos].id),
        0 <= cond < rules[r].conditions@.len(),
        rules[r].conditions@[cond] is WipLimit,
        0 <= index,
    ensures
        tally_step(rules, s, r, issues, pos, cond, index, count).wf(rules),
{
    let rule = rules[r];
    let t = tally(
        rule.project(),
        s.cache,
        rule.conditions@[cond]->statuses@,
        cond,
        index,
        count,
    );
    lemma_tally_fits(rule, s.cache, cond, index, count);
    lemma_after_tally_fits(rule, s.cache, cond, t);
    lemma_after_check_fits(
        rules,
        s.cache,
        s.processed,
        r,
        issues,
        pos,
        after_tally(rule, s.cache, cond, t),
    );
}

proof fn lemma_task_step_fits(
    rules: Seq<AutomationRule>,
    s: State,
    r: int,
    issues: Vec<Issue>,
    pos: int,
    task: Task,
    event: Event,
)
    requires
        s.wf(rules),
        0 <= r < rules.len(),
        0 <= pos < issues@.len(),
        s.phase == (Phase::Working { rule: r as usize, issues, pos: pos as usize, task }),
    ensures
        task_step(rules, s, r, issues, pos, task, event).wf(rules),
{
    let rule = rules[r];
    assert(issues.len() == issues@.len());
    lemma_issue_phase_fits(rules, s.cache, s.processed, r, issues, pos + 1);
    match (task, event) {
        (Task::Workspaces { cond }, Event::Workspaces(_)) => {
            lemma_check_fits(rule, s.cache, cond + 1);
            lemma_after_check_fits(
                rules,
                s.cache,
                s.processed,
                r,
                issues,
                pos,
                check(rule, s.cache, cond + 1),
            );
        },
        (Task::WipStatuses { cond, index, count }, Event::Statuses(reply)) => match reply {
            Some(list) => {
                let cache = s.cache.insert(rule.project(), status_map(list@));
                lemma_tally_step_fits(
                    rules,
                    State { cache, ..s },
                    r,
                    issues,
                    pos,
                    cond as int,
                    index as int,
                    count,
                );
            },
            None => {
                lemma_tally_step_fits(rules, s, r, issues, pos, cond as int, index + 1, count);
            },
        },
        (Task::WipIssues { cond, index, count, status_id }, Event::Issues(reply)) => {
            let count = match reply {
                Some(found) => count.plus(status_id, found@.len()),
                None => count,
            };
            lemma_tally_step_fits(rules, s, r, issues, pos, cond as int, index + 1, count);
        },
        (Task::Link { .. }, Event::LinkSent(_)) => {
            let processed = s.processed.insert(issues@[pos].id);
            lemma_issue_phase_fits(rules, s.cache, processed, r, issues, pos + 1);
        },
        _ => {},
    }
}

/// Whatever comes in, the service only ever works for enabled rules, on issues
/// that have not been processed, and fetches only statuses that it does not know.
pub proof fn step_keeps_wf(rules: Seq<AutomationRule>, s: State, event: Event)
    requires
        s.wf(rules),
    ensures
        step(rules, s, event).wf(rules),
{
    match (s.phase, event) {
        (Phase::Waiting, Event::Tick) => {
            lemma_rule_phase_fits(rules, s.cache, s.processed, 0);
        },
        (Phase::TargetStatuses { rule }, Event::Statuses(reply)) => {
            if let Some(list) = reply {
                let cache = s.cache.insert(rules[rule as int].project(), status_map(list@));
                lemma_rule_phase_fits(rules, cache, s.processed, rule as int);
            }
            lemma_rule_phase_fits(rules, s.cache, s.processed, rule + 1);
        },
        (Phase::TargetIssues { rule, .. }, Event::Issues(reply)) => {
            if let Some(issues) = reply {
                lemma_issue_phase_fits(rules, s.cache, s.processed, rule as int, issues, 0);
            }
            lemma_rule_phase_fits(rules, s.cache, s.processed, rule + 1);
        },
        (Phase::Working { rule, issues, pos, task }, event) => {
            lemma_task_step_fits(rules, s, rule as int, issues, pos as int, task, event);
        },
        _ => {},
    }
}

} // verus!
