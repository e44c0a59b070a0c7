//! The automation service read as one sequential program.
//!
//! The service is a state machine because the outside world answers in its own
//! time. What a round does is easier to read as a program that asks and gets
//! its reply on the spot. The functions here are that program, and
//! [`service_follows_the_program`] shows that the state machine, run against any
//! outside world, asks the same commands in the same order and ends up with the
//! same knowledge.

use crate::action::{link_url, start_request, start_url, LinkRequest};
use crate::api::{success_code, ApiResponse};
use crate::board::{search_in_status, Issue};
use crate::conditions::{capped_sum, has_active_workspace, WipCount};
use crate::config::{AutomationCondition, AutomationRule};
use crate::ids::Uuid;
use crate::machine::{
    after_check, after_tally, answers, ask, check, initial_state, issue_phase, rule_phase, step,
    tally, Ask, Cache, Check, Event, Phase, State, Tally, Task,
    POLL_INTERVAL_SECS, STARTUP_DELAY_SECS,
};
use crate::statuses::{lookup, status_map, StatusLookup};
use vstd::prelude::*;

verus! {

/// The outside world: its reply to the last of the commands asked so far.
pub type Outside = spec_fn(Seq<Ask>) -> Event;

/// Whether the outside world answers every command with a reply to it.
pub open spec fn is_answering(o: Outside) -> bool {
    forall|asked: Seq<Ask>| asked.len() > 0 ==> answers(asked.last(), #[trigger] o(asked))
}

/// What the program has asked so far and what it knows.
pub struct World {
    pub asked: Seq<Ask>,
    pub cache: Cache,
    pub processed: Set<Uuid>,
}

impl World {
    /// One more command has been asked.
    pub open spec fn ask(self, ask: Ask) -> World {
        World { asked: self.asked.push(ask), ..self }
    }
}

/// Resolves a status name of a project, after fetching the project's statuses
/// if they are not known.
pub open spec fn resolve_status_id(o: Outside, w: World, project_id: Uuid, name: Seq<char>) -> (
    Option<Uuid>,
    World,
) {
    if w.cache.contains_key(project_id) {
        (w.cache[project_id].get(name), w)
    } else {
        let w1 = w.ask(Ask::Statuses(project_id));
        match o(w1.asked) {
            Event::Statuses(Some(list)) => (
                status_map(list@).get(name),
                World { cache: w1.cache.insert(project_id, status_map(list@)), ..w1 },
            ),
            _ => (None, w1),
        }
    }
}

/// Adds to `total` the number of issues in the statuses from `index` on. A
/// status that is among those `counted` already adds nothing, nor does one that
/// cannot be resolved or whose search fails.
pub open spec fn wip_total(
    o: Outside,
    w: World,
    project_id: Uuid,
    statuses: Seq<String>,
    index: int,
    total: nat,
    counted: Set<Uuid>,
) -> (nat, World)
    decreases statuses.len() - index,
{
    if index >= statuses.len() {
        (total, w)
    } else {
        let (status_id, w1) = resolve_status_id(o, w, project_id, statuses[index]@);
        match status_id {
            Some(status_id) => if counted.contains(status_id) {
                wip_total(o, w1, project_id, statuses, index + 1, total, counted)
            } else {
                let w2 = w1.ask(Ask::Search(search_in_status(project_id, status_id)));
                match o(w2.asked) {
                    Event::Issues(Some(found)) => wip_total(
                        o,
                        w2,
                        project_id,
                        statuses,
                        index + 1,
                        total + found@.len(),
                        counted.insert(status_id),
                    ),
                    _ => wip_total(o, w2, project_id, statuses, index + 1, total, counted),
                }
            },
            None => wip_total(o, w1, project_id, statuses, index + 1, total, counted),
        }
    }
}

/// Whether a condition holds for an issue.
pub open spec fn condition_holds(
    o: Outside,
    w: World,
    rule: AutomationRule,
    issue: Issue,
    condition: AutomationCondition,
) -> (bool, World) {
    match condition {
        AutomationCondition::NoExistingWorkspace => {
            let w1 = w.ask(Ask::Workspaces);
            match o(w1.asked) {
                Event::Workspaces(Some(workspaces)) => (
                    !has_active_workspace(workspaces@, issue.simple_id@),
                    w1,
                ),
                _ => (false, w1),
            }
        },
        AutomationCondition::WipLimit { max, statuses } => {
            let (total, w1) = wip_total(o, w, rule.project(), statuses@, 0, 0, Set::empty());
            (total < max, w1)
        },
    }
}

/// Whether the conditions from `cond` on hold for an issue. They are tried in
/// order, up to the first that does not hold.
pub open spec fn passes_conditions(
    o: Outside,
    w: World,
    rule: AutomationRule,
    issue: Issue,
    cond: int,
) -> (bool, World)
    decreases rule.conditions@.len() - cond,
{
    if cond >= rule.conditions@.len() {
        (true, w)
    } else {
        let (holds, w1) = condition_holds(o, w, rule, issue, rule.conditions@[cond]);
        if holds {
            passes_conditions(o, w1, rule, issue, cond + 1)
        } else {
            (false, w1)
        }
    }
}

/// Creates a workspace for an issue, links it, and marks the issue as
/// processed. Gives up at the first step that fails, except that a link that
/// fails does not matter.
pub open spec fn execute_action(o: Outside, w: World, rule: AutomationRule, issue: Issue) -> World {
    let w1 = w.ask(Ask::Executor(rule.action->executor@));
    match o(w1.asked) {
        Event::Executor(Some(executor)) => {
            let w2 = w1.ask(Ask::Port("vibe-kanban"@));
            match o(w2.asked) {
                Event::Port(Some(port)) => create_workspace(o, w2, rule, issue, executor, port),
                _ => w2,
            }
        },
        _ => w1,
    }
}

/// The part of the action that talks to the local server.
pub open spec fn create_workspace(
    o: Outside,
    w: World,
    rule: AutomationRule,
    issue: Issue,
    executor: String,
    port: u16,
) -> World {
    let w1 = w.ask(
        Ask::Start { url: start_url(port), request: start_request(rule, issue, executor) },
    );
    match o(w1.asked) {
        Event::StartSent(Some(code)) => if success_code(code) {
            let w2 = w1.ask(Ask::StartResponse);
            match o(w2.asked) {
                Event::StartResponse(Some(ApiResponse { data: Some(workspace_id) })) => {
                    let w3 = w2.ask(
                        Ask::Link {
                            url: link_url(port, workspace_id),
                            link: LinkRequest { project_id: rule.project(), issue_id: issue.id },
                        },
                    );
                    World { processed: w3.processed.insert(issue.id), ..w3 }
                },
                _ => w2,
            }
        } else {
            w1
        },
        _ => w1,
    }
}

/// Works on the issues from `pos` on: an issue that has not been processed and
/// for which all conditions hold is acted on.
pub open spec fn handle_issues(
    o: Outside,
    w: World,
    rule: AutomationRule,
    issues: Seq<Issue>,
    pos: int,
) -> World
    decreases issues.len() - pos,
{
    if pos >= issues.len() {
        w
    } else if w.processed.contains(issues[pos].id) {
        handle_issues(o, w, rule, issues, pos + 1)
    } else {
        let (passes, w1) = passes_conditions(o, w, rule, issues[pos], 0);
        let w2 = if passes {
            execute_action(o, w1, rule, issues[pos])
        } else {
            w1
        };
        handle_issues(o, w2, rule, issues, pos + 1)
    }
}

/// Works on the issues that are in the target status of a rule.
pub open spec fn handle_issue_status_trigger(o: Outside, w: World, rule: AutomationRule) -> World {
    let (status_id, w1) = resolve_status_id(o, w, rule.project(), rule.target());
    match status_id {
        Some(status_id) => {
            let w2 = w1.ask(Ask::Search(search_in_status(rule.project(), status_id)));
            match o(w2.asked) {
                Event::Issues(Some(issues)) => handle_issues(o, w2, rule, issues@, 0),
                _ => w2,
            }
        },
        None => w1,
    }
}

/// Works on the enabled rules from `r` on.
pub open spec fn check_all_rules(o: Outside, w: World, rules: Seq<AutomationRule>, r: int) -> World
    decreases rules.len() - r,
{
    if r >= rules.len() {
        w
    } else if rules[r].enabled {
        check_all_rules(o, handle_issue_status_trigger(o, w, rules[r]), rules, r + 1)
    } else {
        check_all_rules(o, w, rules, r + 1)
    }
}

/// The state machine together with what it has asked so far.
pub struct Snapshot {
    pub state: State,
    pub asked: Seq<Ask>,
}

/// The state machine in a phase, with what a world holds.
pub open spec fn at(w: World, phase: Phase) -> Snapshot {
    Snapshot {
        state: State { phase, cache: w.cache, processed: w.processed },
        asked: w.asked,
    }
}

/// The state machine after one more command has been asked and answered.
pub open spec fn next(rules: Seq<AutomationRule>, o: Outside, c: Snapshot) -> Snapshot {
    let asked = c.asked.push(ask(rules, c.state.phase));
    Snapshot { state: step(rules, c.state, o(asked)), asked }
}

/// The state machine after `n` more commands have been asked and answered.
pub open spec fn run(rules: Seq<AutomationRule>, o: Outside, c: Snapshot, n: nat) -> Snapshot
    decreases n,
{
    if n == 0 {
        c
    } else {
        run(rules, o, next(rules, o, c), (n - 1) as nat)
    }
}

/// Whether the state machine comes from one snapshot to another.
pub open spec fn leads_to(
    rules: Seq<AutomationRule>,
    o: Outside,
    c: Snapshot,
    d: Snapshot,
) -> bool {
    exists|n: nat| #[trigger] run(rules, o, c, n) == d
}

proof fn lemma_run_adds(rules: Seq<AutomationRule>, o: Outside, c: Snapshot, m: nat, n: nat)
    ensures
        run(rules, o, run(rules, o, c, m), n) == run(rules, o, c, m + n),
    decreases m,
{
    if m > 0 {
        lemma_run_adds(rules, o, next(rules, o, c), (m - 1) as nat, n);
    }
}

proof fn lemma_stays(rules: Seq<AutomationRule>, o: Outside, c: Snapshot)
    ensures
        leads_to(rules, o, c, c),
{
    assert(run(rules, o, c, 0) == c);
}

proof fn lemma_then(rules: Seq<AutomationRule>, o: Outside, a: Snapshot, b: Snapshot, c: Snapshot)
    requires
        leads_to(rules, o, a, b),
        leads_to(rules, o, b, c),
    ensures
        leads_to(rules, o, a, c),
{
    let m = choose|m: nat| #[trigger] run(rules, o, a, m) == b;
    let n = choose|n: nat| #[trigger] run(rules, o, b, n) == c;
    lemma_run_adds(rules, o, a, m, n);
}

proof fn lemma_step_then(rules: Seq<AutomationRule>, o: Outside, a: Snapshot, c: Snapshot)
    requires
        leads_to(rules, o, next(rules, o, a), c),
    ensures
        leads_to(rules, o, a, c),
{
    let n = choose|n: nat| #[trigger] run(rules, o, next(rules, o, a), n) == c;
    assert(run(rules, o, a, (n + 1) as nat) == c);
}

/// The phase that the machine is in while it counts for the limit `cond`.
spec fn tally_phase(
    rules: Seq<AutomationRule>,
    w: World,
    r: int,
    issues: Vec<Issue>,
    pos: int,
    cond: int,
    t: Tally,
) -> Phase {
    after_check(
        rules,
        w.cache,
        w.processed,
        r,
        issues,
        pos,
        after_tally(rules[r], w.cache, cond, t),
    )
}

spec fn tally_from(
    rule: AutomationRule,
    cache: Cache,
    cond: int,
    index: int,
    count: WipCount,
) -> Tally {
    tally(rule.project(), cache, rule.conditions@[cond]->statuses@, cond, index, count)
}

proof fn lemma_wip_total(
    rules: Seq<AutomationRule>,
    o: Outside,
    w: World,
    r: int,
    issues: Vec<Issue>,
    pos: int,
    cond: int,
    index: int,
    total: nat,
    count: WipCount,
)
    requires
        is_answering(o),
        0 <= r < rules.len() <= usize::MAX,
        0 <= pos < issues@.len(),
        0 <= cond < rules[r].conditions@.len(),
        rules[r].conditions@[cond] is WipLimit,
        0 <= index,
        count.issues == capped_sum(total, 0),
    ensures
        ({
            let rule = rules[r];
            let statuses = rule.conditions@[cond]->statuses@;
            let (counted, w2) = wip_total(
                o,
                w,
                rule.project(),
                statuses,
                index,
                total,
                count.statuses.ids(),
            );
            &&& w2.processed == w.processed
            &&& leads_to(
                rules,
                o,
                at(
                    w,
                    tally_phase(
                        rules,
                        w,
                        r,
                        issues,
                        pos,
                        cond,
                        tally_from(rule, w.cache, cond, index, count),
                    ),
                ),
                at(
                    w2,
                    tally_phase(
                        rules,
                        w2,
                        r,
                        issues,
                        pos,
                        cond,
                        Tally::Counted(capped_sum(counted, 0)),
                    ),
                ),
            )
        }),
    decreases
            rules[r].conditions@[cond]->statuses@.len() - index,
            (if w.cache.contains_key(rules[r].project()) {
                0int
            } else {
                1int
            }),
{
    let rule = rules[r];
    let project_id = rule.project();
    let statuses = rule.conditions@[cond]->statuses;
    assert(issues.len() == issues@.len());
    assert(rule.conditions.len() == rule.conditions@.len());
    assert(statuses.len() == statuses@.len());
    let (counted, w2) = wip_total(
        o,
        w,
        project_id,
        statuses@,
        index,
        total,
        count.statuses.ids(),
    );
    let start = at(
        w,
        tally_phase(
            rules,
            w,
            r,
            issues,
            pos,
            cond,
            tally_from(rule, w.cache, cond, index, count),
        ),
    );
    let end = at(
        w2,
        tally_phase(
            rules,
            w2,
            r,
            issues,
            pos,
            cond,
            Tally::Counted(capped_sum(counted, 0)),
        ),
    );
    if index >= statuses@.len() {
        lemma_stays(rules, o, start);
    } else {
        match lookup(w.cache, project_id, statuses@[index]@) {
            StatusLookup::Known(None) => {
                lemma_wip_total(rules, o, w, r, issues, pos, cond, index + 1, total, count);
            },
            StatusLookup::Known(Some(status_id)) => {
                if count.statuses.ids().contains(status_id) {
                    lemma_wip_total(rules, o, w, r, issues, pos, cond, index + 1, total, count);
                } else {
                    let asked = w.ask(Ask::Search(search_in_status(project_id, status_id)));
                    let reply = o(asked.asked);
                    assert(answers(asked.asked.last(), reply));
                    let (total2, count2) = match reply {
                        Event::Issues(Some(found)) => (
                            total + found@.len(),
                            count.plus(status_id, found@.len()),
                        ),
                        _ => (total, count),
                    };
                    lemma_wip_total(
                        rules,
                        o,
                        asked,
                        r,
                        issues,
                        pos,
                        cond,
                        index + 1,
                        total2,
                        count2,
                    );
                    assert(next(rules, o, start) == at(
                        asked,
                        tally_phase(
                            rules,
                            asked,
                            r,
                            issues,
                            pos,
                            cond,
                            tally_from(rule, asked.cache, cond, index + 1, count2),
                        ),
                    ));
                    lemma_step_then(rules, o, start, end);
                }
            },
            StatusLookup::Unfetched => {
                let asked = w.ask(Ask::Statuses(project_id));
                let reply = o(asked.asked);
                assert(answers(asked.asked.last(), reply));
                if let Event::Statuses(Some(list)) = reply {
                    let known = World {
                        cache: asked.cache.insert(project_id, status_map(list@)),
                        ..asked
                    };
                    lemma_wip_total(rules, o, known, r, issues, pos, cond, index, total, count);
                    assert(next(rules, o, start) == at(
                        known,
                        tally_phase(
                            rules,
                            known,
                            r,
                            issues,
                            pos,
                            cond,
                            tally_from(rule, known.cache, cond, index, count),
                        ),
                    ));
                } else {
                    lemma_wip_total(
                        rules,
                        o,
                        asked,
                        r,
                        issues,
                        pos,
                        cond,
                        index + 1,
                        total,
                        count,
                    );
                    assert(next(rules, o, start) == at(
                        asked,
                        tally_phase(
                            rules,
                            asked,
                            r,
                            issues,
                            pos,
                            cond,
                            tally_from(rule, asked.cache, cond, index + 1, count),
                        ),
                    ));
                }
                lemma_step_then(rules, o, start, end);
            },
        }
    }
}

proof fn lemma_passes_conditions(
    rules: Seq<AutomationRule>,
    o: Outside,
    w: World,
    r: int,
    issues: Vec<Issue>,
    pos: int,
    cond: int,
)
    requires
        is_answering(o),
        0 <= r < rules.len() <= usize::MAX,
        0 <= pos < issues@.len(),
        0 <= cond,
    ensures
        ({
            let rule = rules[r];
            let (passes, w2) = passes_conditions(o, w, rule, issues@[pos], cond);
            &&& w2.processed == w.processed
            &&& leads_to(
                rules,
                o,
                at(
                    w,
                    after_check(
                        rules,
                        w.cache,
                        w.processed,
                        r,
                        issues,
                        pos,
                        check(rule, w.cache, cond),
                    ),
                ),
                at(
                    w2,
                    after_check(
                        rules,
                        w2.cache,
                        w2.processed,
                        r,
                        issues,
                        pos,
                        if passes {
                            Check::Pass
                        } else {
                            Check::Fail
                        },
                    ),
                ),
            )
        }),
    decreases rules[r].conditions@.len() - cond,
{
    let rule = rules[r];
    let issue = issues@[pos];
    assert(issues.len() == issues@.len());
    assert(rule.conditions.len() == rule.conditions@.len());
    let (passes, w2) = passes_conditions(o, w, rule, issue, cond);
    let start = at(
        w,
        after_check(rules, w.cache, w.processed, r, issues, pos, check(rule, w.cache, cond)),
    );
    let result = if passes {
        Check::Pass
    } else {
        Check::Fail
    };
    let end = at(w2, after_check(rules, w2.cache, w2.processed, r, issues, pos, result));
    if cond >= rule.conditions@.len() {
        lemma_stays(rules, o, start);
    } else {
        let (holds, w1) = condition_holds(o, w, rule, issue, rule.conditions@[cond]);
        let middle_check = if holds {
            check(rule, w1.cache, cond + 1)
        } else {
            Check::Fail
        };
        let middle = at(
            w1,
            after_check(rules, w1.cache, w1.processed, r, issues, pos, middle_check),
        );
        match rule.conditions@[cond] {
            AutomationCondition::NoExistingWorkspace => {
                let reply = o(w1.asked);
                assert(answers(w1.asked.last(), reply));
                assert(next(rules, o, start) == middle);
                lemma_stays(rules, o, middle);
                lemma_step_then(rules, o, start, middle);
            },
            AutomationCondition::WipLimit { max, statuses } => {
                lemma_wip_total(rules, o, w, r, issues, pos, cond, 0, 0, WipCount::none());
                let (total, _) = wip_total(o, w, rule.project(), statuses@, 0, 0, Set::empty());
                assert(after_tally(rule, w1.cache, cond, Tally::Counted(capped_sum(total, 0)))
                    == middle_check);
                assert(check(rule, w.cache, cond) == after_tally(
                    rule,
                    w.cache,
                    cond,
                    tally_from(rule, w.cache, cond, 0, WipCount::none()),
                ));
            },
        }
        assert(leads_to(rules, o, start, middle));
        if holds {
            lemma_passes_conditions(rules, o, w1, r, issues, pos, cond + 1);
            lemma_then(rules, o, start, middle, end);
        }
    }
}

proof fn lemma_execute_action(
    rules: Seq<AutomationRule>,
    o: Outside,
    w: World,
    r: int,
    issues: Vec<Issue>,
    pos: int,
)
    requires
        is_answering(o),
        0 <= r < rules.len() <= usize::MAX,
        0 <= pos < issues@.len(),
    ensures
        ({
            let w2 = execute_action(o, w, rules[r], issues@[pos]);
            leads_to(
                rules,
                o,
                at(
                    w,
                    Phase::Working {
                        rule: r as usize,
                        issues,
                        pos: pos as usize,
                        task: Task::Executor,
                    },
                ),
                at(w2, issue_phase(rules, w2.cache, w2.processed, r, issues, pos + 1)),
            )
        }),
{
    let rule = rules[r];
    let issue = issues@[pos];
    assert(issues.len() == issues@.len());
    let working = |task: Task|
        Phase::Working { rule: r as usize, issues, pos: pos as usize, task };
    let end_w = execute_action(o, w, rule, issue);
    let end = at(end_w, issue_phase(rules, end_w.cache, end_w.processed, r, issues, pos + 1));
    lemma_stays(rules, o, end);
    let start = at(w, working(Task::Executor));
    let w1 = w.ask(Ask::Executor(rule.action->executor@));
    assert(answers(w1.asked.last(), o(w1.asked)));
    if let Event::Executor(Some(executor)) = o(w1.asked) {
        let s1 = at(w1, working(Task::Port { executor }));
        assert(next(rules, o, start) == s1);
        let w2 = w1.ask(Ask::Port("vibe-kanban"@));
        assert(answers(w2.asked.last(), o(w2.asked)));
        if let Event::Port(Some(port)) = o(w2.asked) {
            let s2 = at(w2, working(Task::Start { executor, port }));
            assert(next(rules, o, s1) == s2);
            let w3 = w2.ask(
                Ask::Start { url: start_url(port), request: start_request(rule, issue, executor) },
            );
            assert(answers(w3.asked.last(), o(w3.asked)));
            let sent = match o(w3.asked) {
                Event::StartSent(Some(code)) => success_code(code),
                _ => false,
            };
            if sent {
                let s3 = at(w3, working(Task::StartResponse { port }));
                assert(next(rules, o, s2) == s3);
                let w4 = w3.ask(Ask::StartResponse);
                assert(answers(w4.asked.last(), o(w4.asked)));
                if let Event::StartResponse(Some(ApiResponse { data: Some(workspace_id) })) = o(
                    w4.asked,
                ) {
                    let s4 = at(w4, working(Task::Link { port, workspace_id }));
                    assert(next(rules, o, s3) == s4);
                    let w5 = w4.ask(
                        Ask::Link {
                            url: link_url(port, workspace_id),
                            link: LinkRequest { project_id: rule.project(), issue_id: issue.id },
                        },
                    );
                    assert(answers(w5.asked.last(), o(w5.asked)));
                    assert(next(rules, o, s4) == end);
                    lemma_step_then(rules, o, s4, end);
                } else {
                    assert(next(rules, o, s3) == end);
                }
                lemma_step_then(rules, o, s3, end);
            } else {
                assert(next(rules, o, s2) == end);
            }
            lemma_step_then(rules, o, s2, end);
        } else {
            assert(next(rules, o, s1) == end);
        }
        lemma_step_then(rules, o, s1, end);
    } else {
        assert(next(rules, o, start) == end);
    }
    lemma_step_then(rules, o, start, end);
}

proof fn lemma_handle_issues(
    rules: Seq<AutomationRule>,
    o: Outside,
    w: World,
    r: int,
    issues: Vec<Issue>,
    pos: int,
)
    requires
        is_answering(o),
        0 <= r < rules.len() <= usize::MAX,
        0 <= pos,
    ensures
        ({
            let w2 = handle_issues(o, w, rules[r], issues@, pos);
            leads_to(
                rules,
                o,
                at(w, issue_phase(rules, w.cache, w.processed, r, issues, pos)),
                at(w2, rule_phase(rules, w2.cache, r + 1)),
            )
        }),
    decreases issues@.len() - pos,
{
    let rule = rules[r];
    let end_w = handle_issues(o, w, rule, issues@, pos);
    let end = at(end_w, rule_phase(rules, end_w.cache, r + 1));
    let start = at(w, issue_phase(rules, w.cache, w.processed, r, issues, pos));
    if pos >= issues@.len() {
        lemma_stays(rules, o, start);
    } else if w.processed.contains(issues@[pos].id) {
        lemma_handle_issues(rules, o, w, r, issues, pos + 1);
    } else {
        let (passes, w1) = passes_conditions(o, w, rule, issues@[pos], 0);
        lemma_passes_conditions(rules, o, w, r, issues, pos, 0);
        let result = if passes {
            Check::Pass
        } else {
            Check::Fail
        };
        let checked = at(w1, after_check(rules, w1.cache, w1.processed, r, issues, pos, result));
        assert(leads_to(rules, o, start, checked));
        let w2 = if passes {
            execute_action(o, w1, rule, issues@[pos])
        } else {
            w1
        };
        let done = at(w2, issue_phase(rules, w2.cache, w2.processed, r, issues, pos + 1));
        if passes {
            lemma_execute_action(rules, o, w1, r, issues, pos);
            lemma_then(rules, o, start, checked, done);
        } else {
            assert(checked == done);
        }
        lemma_handle_issues(rules, o, w2, r, issues, pos + 1);
        lemma_then(rules, o, start, done, end);
    }
}

proof fn lemma_check_all_rules(rules: Seq<AutomationRule>, o: Outside, w: World, r: int)
    requires
        is_answering(o),
        rules.len() <= usize::MAX,
        0 <= r,
    ensures
        leads_to(
            rules,
            o,
            at(w, rule_phase(rules, w.cache, r)),
            at(check_all_rules(o, w, rules, r), Phase::Waiting),
        ),
    decreases
            rules.len() - r,
            (if w.cache.contains_key(rules[r].project()) {
                0int
            } else {
                1int
            }),
{
    let start = at(w, rule_phase(rules, w.cache, r));
    let end = at(check_all_rules(o, w, rules, r), Phase::Waiting);
    if r >= rules.len() {
        lemma_stays(rules, o, start);
    } else if !rules[r].enabled {
        lemma_check_all_rules(rules, o, w, r + 1);
    } else {
        let rule = rules[r];
        match lookup(w.cache, rule.project(), rule.target()) {
            StatusLookup::Known(None) => {
                lemma_check_all_rules(rules, o, w, r + 1);
            },
            StatusLookup::Known(Some(status_id)) => {
                let asked = w.ask(Ask::Search(search_in_status(rule.project(), status_id)));
                let reply = o(asked.asked);
                assert(answers(asked.asked.last(), reply));
                if let Event::Issues(Some(issues)) = reply {
                    let w2 = handle_issues(o, asked, rule, issues@, 0);
                    let done = at(w2, rule_phase(rules, w2.cache, r + 1));
                    lemma_handle_issues(rules, o, asked, r, issues, 0);
                    assert(next(rules, o, start) == at(
                        asked,
                        issue_phase(rules, asked.cache, asked.processed, r, issues, 0),
                    ));
                    lemma_step_then(rules, o, start, done);
                    lemma_check_all_rules(rules, o, w2, r + 1);
                    lemma_then(rules, o, start, done, end);
                } else {
                    assert(next(rules, o, start) == at(
                        asked,
                        rule_phase(rules, asked.cache, r + 1),
                    ));
                    lemma_check_all_rules(rules, o, asked, r + 1);
                    lemma_step_then(rules, o, start, end);
                }
            },
            StatusLookup::Unfetched => {
                let asked = w.ask(Ask::Statuses(rule.project()));
                let reply = o(asked.asked);
                assert(answers(asked.asked.last(), reply));
                if let Event::Statuses(Some(list)) = reply {
                    let known = World {
                        cache: asked.cache.insert(rule.project(), status_map(list@)),
                        ..asked
                    };
                    assert(next(rules, o, start) == at(known, rule_phase(rules, known.cache, r)));
                    lemma_check_all_rules(rules, o, known, r);
                } else {
                    assert(next(rules, o, start) == at(
                        asked,
                        rule_phase(rules, asked.cache, r + 1),
                    ));
                    lemma_check_all_rules(rules, o, asked, r + 1);
                }
                lemma_step_then(rules, o, start, end);
            },
        }
    }
}

/// A round of the service does what the program does: whatever an answering
/// outside world replies, the service comes from one wait for a tick to the
/// next, and in between it asks what [`check_all_rules`] asks, in the same
/// order, and comes to know what that comes to know.
pub proof fn round_follows_the_program(rules: Seq<AutomationRule>, o: Outside, w: World)
    requires
        is_answering(o),
        rules.len() <= usize::MAX,
    ensures
        leads_to(
            rules,
            o,
            at(w, Phase::Waiting),
            at(
                check_all_rules(o, w.ask(Ask::AwaitTick(POLL_INTERVAL_SECS)), rules, 0),
                Phase::Waiting,
            ),
        ),
{
    let asked = w.ask(Ask::AwaitTick(POLL_INTERVAL_SECS));
    assert(answers(asked.asked.last(), o(asked.asked)));
    assert(next(rules, o, at(w, Phase::Waiting)) == at(asked, rule_phase(rules, asked.cache, 0)));
    lemma_check_all_rules(rules, o, asked, 0);
    lemma_step_then(
        rules,
        o,
        at(w, Phase::Waiting),
        at(check_all_rules(o, asked, rules, 0), Phase::Waiting),
    );
}

/// The service sleeps once before its first round, and asks nothing else until then.
pub proof fn starts_with_the_delay(rules: Seq<AutomationRule>, o: Outside, w: World)
    requires
        is_answering(o),
    ensures
        next(rules, o, at(w, Phase::Starting)) == at(
            w.ask(Ask::Sleep(STARTUP_DELAY_SECS)),
            Phase::Waiting,
        ),
{
    let asked = w.ask(Ask::Sleep(STARTUP_DELAY_SECS));
    assert(answers(asked.asked.last(), o(asked.asked)));
}

/// The program of a session, after its `n`-th round: it sleeps once, and then
/// waits for a tick before each round.
pub open spec fn session(o: Outside, rules: Seq<AutomationRule>, n: nat) -> World
    decreases n,
{
    if n == 0 {
        World { asked: seq![], cache: Map::empty(), processed: Set::empty() }.ask(
            Ask::Sleep(STARTUP_DELAY_SECS),
        )
    } else {
        let w = session(o, rules, (n - 1) as nat);
        check_all_rules(o, w.ask(Ask::AwaitTick(POLL_INTERVAL_SECS)), rules, 0)
    }
}

/// The state machine as it is when the service has been set up.
pub open spec fn at_first() -> Snapshot {
    Snapshot { state: initial_state(), asked: seq![] }
}

/// The service, once set up, does what the program of a session does, for as
/// many rounds as one likes: no reply can make it stop.
pub proof fn service_follows_the_program(rules: Seq<AutomationRule>, o: Outside, n: nat)
    requires
        is_answering(o),
        rules.len() <= usize::MAX,
    ensures
        leads_to(rules, o, at_first(), at(session(o, rules, n), Phase::Waiting)),
    decreases n,
{
    let end = at(session(o, rules, n), Phase::Waiting);
    if n == 0 {
        let w = World { asked: seq![], cache: Map::empty(), processed: Set::empty() };
        assert(at(w, Phase::Starting) == at_first());
        starts_with_the_delay(rules, o, w);
        lemma_stays(rules, o, end);
        lemma_step_then(rules, o, at_first(), end);
    } else {
        let w = session(o, rules, (n - 1) as nat);
        service_follows_the_program(rules, o, (n - 1) as nat);
        round_follows_the_program(rules, o, w);
        lemma_then(rules, o, at_first(), at(w, Phase::Waiting), end);
    }
}

} // verus!
