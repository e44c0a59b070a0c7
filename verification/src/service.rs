//! The automation service.

use crate::action::{link_url_text, start_url_text, workspace_request, LinkRequest};
use crate::api::is_success;
use crate::board::{Issue, SearchIssuesRequest};
use crate::conditions::{find_active_workspace, WipCount};
use crate::config::{AutomationAction, AutomationCondition, AutomationConfig, AutomationRule};
use crate::ids::Uuid;
use crate::machine::{
    after_check, after_tally, ask, check, initial_state, issue_phase, rule_phase, step,
    step_keeps_wf, tally, tally_step, task_ask, task_step, Check, Command, Event, Phase, State,
    Tally, Task, POLL_INTERVAL_SECS, STARTUP_DELAY_SECS,
};
use crate::statuses::{lookup, StatusCache, StatusLookup};
use std::collections::HashSet;
use vstd::prelude::*;
use vstd::string::StringExecFns;

verus! {

broadcast use vstd::std_specs::hash::group_hash_axioms;

/// Background service that polls the remote board and fires automation rules.
///
/// Disabled when no remote client is configured or no rules file is present.
#[derive(Debug)]
pub struct AutomationService {
    config: AutomationConfig,
    phase: Phase,
    /// In-session idempotency: the issues for which a workspace has been created.
    processed_issues: HashSet<Uuid>,
    /// Project, then status name, to status identifier. Filled on first use.
    status_cache: StatusCache,
}

impl View for AutomationService {
    type V = State;

    closed spec fn view(&self) -> State {
        State {
            phase: self.phase,
            cache: self.status_cache@,
            processed: self.processed_issues@,
        }
    }
}

impl AutomationService {
    /// The rules that the service fires.
    pub closed spec fn rules(&self) -> Seq<AutomationRule> {
        self.config.rules@
    }

    /// Whether the service is in a state that it can be in under its rules.
    pub open spec fn wf(&self) -> bool {
        self@.wf(self.rules())
    }

    /// Sets up the service, unless there is no remote client.
    pub fn spawn(has_remote_client: bool, config: AutomationConfig) -> (service: Option<Self>)
        ensures
            service is Some <==> has_remote_client,
            service matches Some(service) ==> {
                &&& service.wf()
                &&& service.rules() == config.rules@
                &&& service@ == initial_state()
            },
    {
        if !has_remote_client {
            return None;
        }
        assert(config.rules.len() == config.rules@.len());
        let service = AutomationService {
            config,
            phase: Phase::Starting,
            processed_issues: HashSet::new(),
            status_cache: StatusCache::new(),
        };
        assert(service@.processed =~= Set::empty());
        Some(service)
    }

    /// Sets up the service with the rules that were loaded, unless there are
    /// none or there is no remote client.
    pub fn launch(
        has_remote_client: bool,
        config: Option<AutomationConfig>,
    ) -> (service: Option<Self>)
        ensures
            service is Some <==> has_remote_client && config is Some,
            service matches Some(service) ==> {
                &&& service.wf()
                &&& service.rules() == config->0.rules@
                &&& service@ == initial_state()
            },
    {
        match config {
            Some(config) => Self::spawn(has_remote_client, config),
            None => None,
        }
    }

    /// Looks up what a status name of a project stands for, as far as it is known.
    pub fn resolve_status_id(&self, project_id: Uuid, status_name: &String) -> (found: StatusLookup)
        ensures
            found == lookup(self@.cache, project_id, status_name@),
    {
        self.status_cache.lookup(project_id, status_name)
    }

    /// Finds the next rule to work on, from the rule `from` on.
    fn check_all_rules(&self, from: usize) -> (phase: Phase)
        ensures
            phase == rule_phase(self.rules(), self@.cache, from as int),
    {
        let mut r: usize = from;
        while r < self.config.rules.len()
            invariant
                rule_phase(self.rules(), self@.cache, from as int) == rule_phase(
                    self.rules(),
                    self@.cache,
                    r as int,
                ),
            decreases self.config.rules@.len() - r,
        {
            let rule = &self.config.rules[r];
            if rule.enabled {
                match self.resolve_status_id(rule.project_id(), rule.target_status()) {
                    StatusLookup::Unfetched => {
                        return Phase::TargetStatuses { rule: r };
                    },
                    StatusLookup::Known(found) => {
                        if let Some(status_id) = found {
                            return Phase::TargetIssues { rule: r, status_id };
                        }
                    },
                }
            }
            r += 1;
        }
        Phase::Waiting
    }

    /// Counts the issues for the limit `cond` on from the status `index`.
    fn count_wip(
        &self,
        project_id: Uuid,
        statuses: &Vec<String>,
        cond: usize,
        index: usize,
        count: WipCount,
    ) -> (result: Tally)
        ensures
            result == tally(
                project_id,
                self@.cache,
                statuses@,
                cond as int,
                index as int,
                count,
            ),
    {
        let mut i: usize = index;
        while i < statuses.len()
            invariant
                tally(project_id, self@.cache, statuses@, cond as int, index as int, count)
                    == tally(project_id, self@.cache, statuses@, cond as int, i as int, count),
            decreases statuses@.len() - i,
        {
            match self.resolve_status_id(project_id, &statuses[i]) {
                StatusLookup::Unfetched => {
                    return Tally::Need(Task::WipStatuses { cond, index: i, count });
                },
                StatusLookup::Known(found) => {
                    if let Some(status_id) = found {
                        if !count.statuses.contains(status_id) {
                            return Tally::Need(
                                Task::WipIssues { cond, index: i, count, status_id },
                            );
                        }
                    }
                },
            }
            i += 1;
        }
        Tally::Counted(count.issues)
    }

    /// Checks the conditions of a rule on from the condition `cond`.
    fn passes_conditions(&self, rule: &AutomationRule, cond: usize) -> (result: Check)
        ensures
            result == check(*rule, self@.cache, cond as int),
    {
        let mut c: usize = cond;
        while c < rule.conditions.len()
            invariant
                check(*rule, self@.cache, cond as int) == check(*rule, self@.cache, c as int),
            decreases rule.conditions@.len() - c,
        {
            match &rule.conditions[c] {
                AutomationCondition::NoExistingWorkspace => {
                    return Check::Need(Task::Workspaces { cond: c });
                },
                AutomationCondition::WipLimit { max, statuses } => {
                    match self.count_wip(rule.project_id(), statuses, c, 0, WipCount::new()) {
                        Tally::Need(task) => {
                            return Check::Need(task);
                        },
                        Tally::Counted(count) => {
                            if count >= *max {
                                return Check::Fail;
                            }
                        },
                    }
                },
            }
            c += 1;
        }
        Check::Pass
    }

    /// Finds the next issue to work on, from the issue `pos` on of those that
    /// the rule `r` found.
    fn handle_issue_status_trigger(
        &self,
        r: usize,
        issues: Vec<Issue>,
        pos: usize,
    ) -> (phase: Phase)
        requires
            r < self.rules().len(),
        ensures
            phase == issue_phase(
                self.rules(),
                self@.cache,
                self@.processed,
                r as int,
                issues,
                pos as int,
            ),
    {
        let mut i: usize = pos;
        while i < issues.len()
            invariant
                r < self.rules().len(),
                issue_phase(
                    self.rules(),
                    self@.cache,
                    self@.processed,
                    r as int,
                    issues,
                    pos as int,
                ) == issue_phase(
                    self.rules(),
                    self@.cache,
                    self@.processed,
                    r as int,
                    issues,
                    i as int,
                ),
            decreases issues@.len() - i,
        {
            if !self.processed_issues.contains(&issues[i].id) {
                let result = self.passes_conditions(&self.config.rules[r], 0);
                let ghost followed = after_check(
                    self.rules(),
                    self@.cache,
                    self@.processed,
                    r as int,
                    issues,
                    i as int,
                    result,
                );
                assert(followed == issue_phase(
                    self.rules(),
                    self@.cache,
                    self@.processed,
                    r as int,
                    issues,
                    i as int,
                ));
                match result {
                    Check::Pass => {
                        return Phase::Working { rule: r, issues, pos: i, task: Task::Executor };
                    },
                    Check::Need(task) => {
                        return Phase::Working { rule: r, issues, pos: i, task };
                    },
                    Check::Fail => {},
                }
            }
            i += 1;
        }
        assert(self.config.rules.len() == self.config.rules@.len());
        self.check_all_rules(r + 1)
    }

    /// Goes on from a check of the issue at `pos`.
    fn settle(&self, r: usize, issues: Vec<Issue>, pos: usize, result: Check) -> (phase: Phase)
        requires
            r < self.rules().len(),
            pos < issues@.len(),
        ensures
            phase == after_check(
                self.rules(),
                self@.cache,
                self@.processed,
                r as int,
                issues,
                pos as int,
                result,
            ),
    {
        assert(issues.len() == issues@.len());
        match result {
            Check::Pass => Phase::Working { rule: r, issues, pos, task: Task::Executor },
            Check::Fail => self.handle_issue_status_trigger(r, issues, pos + 1),
            Check::Need(task) => Phase::Working { rule: r, issues, pos, task },
        }
    }

    /// Goes on with the count for the limit `cond` from the status `index`.
    fn resume_count(
        &self,
        r: usize,
        issues: Vec<Issue>,
        pos: usize,
        cond: usize,
        index: usize,
        count: WipCount,
    ) -> (phase: Phase)
        requires
            r < self.rules().len(),
            pos < issues@.len(),
            cond < self.rules()[r as int].conditions@.len(),
            self.rules()[r as int].conditions@[cond as int] is WipLimit,
        ensures
            self@.at(phase) == tally_step(
                self.rules(),
                self@,
                r as int,
                issues,
                pos as int,
                cond as int,
                index as int,
                count,
            ),
    {
        let rule = &self.config.rules[r];
        assert(rule.conditions.len() == rule.conditions@.len());
        if let AutomationCondition::WipLimit { max, statuses } = &rule.conditions[cond] {
            let result = self.count_wip(rule.project_id(), statuses, cond, index, count);
            let ghost counted = after_tally(*rule, self@.cache, cond as int, result);
            let result = match result {
                Tally::Need(task) => Check::Need(task),
                Tally::Counted(count) => if count >= *max {
                    Check::Fail
                } else {
                    self.passes_conditions(rule, cond + 1)
                },
            };
            assert(result == counted);
            self.settle(r, issues, pos, result)
        } else {
            // Not reached: the condition is a limit.
            Phase::Waiting
        }
    }

    /// Takes in a reply that a condition waits for.
    fn check_issue(
        &mut self,
        r: usize,
        issues: Vec<Issue>,
        pos: usize,
        task: Task,
        event: Event,
    ) -> (phase: Phase)
        requires
            task is Workspaces || task is WipStatuses || task is WipIssues,
            old(self)@.at(Phase::Working { rule: r, issues, pos, task }).wf(old(self).rules()),
        ensures
            final(self).rules() == old(self).rules(),
            final(self)@.at(phase) == task_step(
                old(self).rules(),
                old(self)@.at(Phase::Working { rule: r, issues, pos, task }),
                r as int,
                issues,
                pos as int,
                task,
                event,
            ),
    {
        assert(issues.len() == issues@.len());
        match (task, event) {
            (Task::Workspaces { cond }, Event::Workspaces(reply)) => {
                if let Some(workspaces) = reply {
                    if !find_active_workspace(&workspaces, &issues[pos].simple_id) {
                        let rule = &self.config.rules[r];
                        assert(rule.conditions.len() == rule.conditions@.len());
                        let result = self.passes_conditions(rule, cond + 1);
                        return self.settle(r, issues, pos, result);
                    }
                }
                self.handle_issue_status_trigger(r, issues, pos + 1)
            },
            (Task::WipStatuses { cond, index, count }, Event::Statuses(reply)) => {
                match reply {
                    Some(list) => {
                        let project_id = self.config.rules[r].project_id();
                        self.status_cache.store(project_id, list);
                        self.resume_count(r, issues, pos, cond, index, count)
                    },
                    None => {
                        proof {
                            let statuses = self.rules()[r as int].conditions@[cond as int]->statuses;
                            assert(statuses.len() == statuses@.len());
                        }
                        self.resume_count(r, issues, pos, cond, index + 1, count)
                    },
                }
            },
            (Task::WipIssues { cond, index, count, status_id }, Event::Issues(reply)) => {
                proof {
                    let statuses = self.rules()[r as int].conditions@[cond as int]->statuses;
                    assert(statuses.len() == statuses@.len());
                }
                let count = match reply {
                    Some(found) => count.add_status(status_id, found.len()),
                    None => count,
                };
                self.resume_count(r, issues, pos, cond, index + 1, count)
            },
            (task, _) => Phase::Working { rule: r, issues, pos, task },
        }
    }

    /// Takes in a reply that the action on an issue waits for.
    fn execute_action(
        &mut self,
        r: usize,
        issues: Vec<Issue>,
        pos: usize,
        task: Task,
        event: Event,
    ) -> (phase: Phase)
        requires
            !(task is Workspaces || task is WipStatuses || task is WipIssues),
            old(self)@.at(Phase::Working { rule: r, issues, pos, task }).wf(old(self).rules()),
        ensures
            final(self).rules() == old(self).rules(),
            final(self)@.at(phase) == task_step(
                old(self).rules(),
                old(self)@.at(Phase::Working { rule: r, issues, pos, task }),
                r as int,
                issues,
                pos as int,
                task,
                event,
            ),
    {
        assert(issues.len() == issues@.len());
        let next = match (task, event) {
            (Task::Executor, Event::Executor(reply)) => match reply {
                Some(executor) => Some(Task::Port { executor }),
                None => None,
            },
            (Task::Port { executor }, Event::Port(reply)) => match reply {
                Some(port) => Some(Task::Start { executor, port }),
                None => None,
            },
            (Task::Start { port, .. }, Event::StartSent(reply)) => match reply {
                Some(code) => if is_success(code) {
                    Some(Task::StartResponse { port })
                } else {
                    None
                },
                None => None,
            },
            (Task::StartResponse { port }, Event::StartResponse(reply)) => match reply {
                Some(response) => match response.data {
                    Some(workspace_id) => Some(Task::Link { port, workspace_id }),
                    None => None,
                },
                None => None,
            },
            (Task::Link { .. }, Event::LinkSent(_)) => {
                // The workspace is there and its agent runs, linked or not.
                self.processed_issues.insert(issues[pos].id);
                None
            },
            (task, _) => Some(task),
        };
        match next {
            Some(task) => Phase::Working { rule: r, issues, pos, task },
            None => self.handle_issue_status_trigger(r, issues, pos + 1),
        }
    }

    /// Takes in an event. One that is not the reply to the service's command is ignored.
    pub fn step(&mut self, event: Event)
        requires
            old(self).wf(),
        ensures
            final(self).wf(),
            final(self).rules() == old(self).rules(),
            final(self)@ == step(old(self).rules(), old(self)@, event),
    {
        proof {
            step_keeps_wf(self.rules(), self@, event);
        }
        assert(self.config.rules.len() == self.config.rules@.len());
        let mut phase = Phase::Waiting;
        std::mem::swap(&mut self.phase, &mut phase);
        self.phase = match (phase, event) {
            (Phase::Starting, Event::Slept) => Phase::Waiting,
            (Phase::Waiting, Event::Tick) => self.check_all_rules(0),
            (Phase::TargetStatuses { rule }, Event::Statuses(reply)) => match reply {
                Some(list) => {
                    let project_id = self.config.rules[rule].project_id();
                    self.status_cache.store(project_id, list);
                    self.check_all_rules(rule)
                },
                None => self.check_all_rules(rule + 1),
            },
            (Phase::TargetIssues { rule, .. }, Event::Issues(reply)) => match reply {
                Some(issues) => self.handle_issue_status_trigger(rule, issues, 0),
                None => self.check_all_rules(rule + 1),
            },
            (Phase::Working { rule, issues, pos, task }, event) => {
                match &task {
                    Task::Workspaces { .. } | Task::WipStatuses { .. } | Task::WipIssues { .. } => {
                        self.check_issue(rule, issues, pos, task, event)
                    },
                    _ => self.execute_action(rule, issues, pos, task, event),
                }
            },
            (phase, _) => phase,
        };
    }

    /// The rule that the service works for now, if any.
    pub fn current_rule(&self) -> (rule: Option<&AutomationRule>)
        requires
            self.wf(),
        ensures
            rule == (match self@.phase {
                Phase::Starting => None,
                Phase::Waiting => None,
                Phase::TargetStatuses { rule } => Some(&self.rules()[rule as int]),
                Phase::TargetIssues { rule, .. } => Some(&self.rules()[rule as int]),
                Phase::Working { rule, .. } => Some(&self.rules()[rule as int]),
            }),
    {
        match &self.phase {
            Phase::Starting => None,
            Phase::Waiting => None,
            Phase::TargetStatuses { rule } => Some(&self.config.rules[*rule]),
            Phase::TargetIssues { rule, .. } => Some(&self.config.rules[*rule]),
            Phase::Working { rule, .. } => Some(&self.config.rules[*rule]),
        }
    }

    /// The issue that the service works on now, if any.
    pub fn current_issue(&self) -> (issue: Option<&Issue>)
        requires
            self.wf(),
        ensures
            issue == (match self@.phase {
                Phase::Working { issues, pos, .. } => Some(&issues@[pos as int]),
                _ => None,
            }),
    {
        match &self.phase {
            Phase::Working { issues, pos, .. } => Some(&issues[*pos]),
            _ => None,
        }
    }

    /// Whether an issue has been processed in this session.
    pub fn is_processed(&self, issue_id: Uuid) -> (processed: bool)
        ensures
            processed == self@.processed.contains(issue_id),
    {
        self.processed_issues.contains(&issue_id)
    }

    /// What the service wants done now.
    pub fn command(&self) -> (command: Command)
        requires
            self.wf(),
        ensures
            command@ == ask(self.rules(), self@.phase),
    {
        match &self.phase {
            Phase::Starting => Command::Sleep { secs: STARTUP_DELAY_SECS },
            Phase::Waiting => Command::AwaitTick { secs: POLL_INTERVAL_SECS },
            Phase::TargetStatuses { rule } => Command::FetchStatuses {
                project_id: self.config.rules[*rule].project_id(),
            },
            Phase::TargetIssues { rule, status_id } => Command::SearchIssues {
                request: SearchIssuesRequest::in_status(
                    self.config.rules[*rule].project_id(),
                    *status_id,
                ),
            },
            Phase::Working { rule, issues, pos, task } => task_command(
                &self.config.rules[*rule],
                &issues[*pos],
                task,
            ),
        }
    }
}

/// What the service wants done for an issue.
fn task_command(rule: &AutomationRule, issue: &Issue, task: &Task) -> (command: Command)
    ensures
        command@ == task_ask(*rule, *issue, *task),
{
    match task {
        Task::Workspaces { .. } => Command::FetchWorkspaces,
        Task::WipStatuses { .. } => Command::FetchStatuses { project_id: rule.project_id() },
        Task::WipIssues { status_id, .. } => Command::SearchIssues {
            request: SearchIssuesRequest::in_status(rule.project_id(), *status_id),
        },
        Task::Executor => match &rule.action {
            AutomationAction::CreateWorkspace { executor, .. } => Command::ParseExecutor {
                executor: executor.clone(),
            },
        },
        Task::Port { .. } => Command::ReadPortFile { app: String::from_str("vibe-kanban") },
        Task::Start { executor, port } => Command::StartWorkspace {
            url: start_url_text(*port),
            request: workspace_request(rule, issue, executor),
        },
        Task::StartResponse { .. } => Command::ReadStartResponse,
        Task::Link { port, workspace_id } => Command::LinkWorkspace {
            url: link_url_text(*port, *workspace_id),
            link: LinkRequest { project_id: rule.project_id(), issue_id: issue.id },
        },
    }
}

} // verus!
