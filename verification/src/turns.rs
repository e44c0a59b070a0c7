//! What one event makes of the service: whose turn it is next.

use crate::action::requests_go_to_the_port;
use crate::api::ApiResponse;
use crate::board::{Issue, ProjectStatus, Workspace};
use crate::conditions::{list_holds_its_statuses, StatusList, WipCount};
use crate::config::{AutomationCondition, AutomationRule};
use crate::ids::{hyphenated, Uuid};
use crate::machine::{
    after_check, answers, ask, check, initial_state, issue_phase, rule_phase, step, tally,
    tally_step, Ask, Cache, Check, Command, Event, Phase, State, Tally, Task,
};
use crate::statuses::{absent_name_is_unknown, last_entry_counts};
use crate::text::decimal;
use crate::traces::{is_request_for, is_search_for};
use vstd::prelude::*;

verus! {

/// A session starts with a delay, knowing no statuses and no processed issues.
pub proof fn session_starts_without_knowledge()
    ensures
        initial_state().phase is Starting,
        initial_state().cache == Map::<Uuid, Map<Seq<char>, Uuid>>::empty(),
        initial_state().processed == Set::<Uuid>::empty(),
{
}

/// What the service asks when it works for no issue: to sleep for ten seconds,
/// to wait for the next minute, for the statuses of the rule's project, or for
/// all issues of that project in the status at hand.
pub proof fn what_is_asked_for_a_rule(rules: Seq<AutomationRule>, rule: usize, status_id: Uuid)
    ensures
        ask(rules, Phase::Starting) == Ask::Sleep(10),
        ask(rules, Phase::Waiting) == Ask::AwaitTick(60),
        ask(rules, Phase::TargetStatuses { rule }) == Ask::Statuses(
            rules[rule as int].action->project_id,
        ),
        is_search_for(
            ask(rules, Phase::TargetIssues { rule, status_id }),
            rules[rule as int].action->project_id,
            status_id,
        ),
{
}

/// What the service asks when it works on an issue, for each task.
pub proof fn what_is_asked_for_an_issue(
    rules: Seq<AutomationRule>,
    r: usize,
    issues: Vec<Issue>,
    pos: usize,
    task: Task,
)
    ensures
        ({
            let asked = ask(rules, Phase::Working { rule: r, issues, pos, task });
            let rule = rules[r as int];
            let issue = issues@[pos as int];
            match task {
                Task::Workspaces { .. } => asked is Workspaces,
                Task::WipStatuses { .. } => asked == Ask::Statuses(rule.action->project_id),
                Task::WipIssues { status_id, .. } => is_search_for(
                    asked,
                    rule.action->project_id,
                    status_id,
                ),
                Task::Executor => asked == Ask::Executor(rule.action->executor@),
                Task::Port { .. } => asked == Ask::Port("vibe-kanban"@),
                Task::Start { executor, port } => asked matches Ask::Start { url, request } && url
                    == "http://127.0.0.1:"@ + decimal(port as nat) + "/api/workspaces/start"@
                    && is_request_for(request, rule, issue, executor),
                Task::StartResponse { .. } => asked is StartResponse,
                Task::Link { port, workspace_id } => asked matches Ask::Link { url, link } && url
                    == "http://127.0.0.1:"@ + decimal(port as nat) + "/api/workspaces/"@
                    + hyphenated(workspace_id) + "/links"@ && link.project_id
                    == rule.action->project_id && link.issue_id == issue.id,
            }
        }),
{
    match task {
        Task::Start { port, .. } => requests_go_to_the_port(port, 0),
        Task::Link { port, workspace_id } => requests_go_to_the_port(port, workspace_id),
        _ => {},
    }
}

/// The contents of a command are the command's own.
pub proof fn command_contents(command: Command)
    ensures
        match command {
            Command::Sleep { secs } => command@ == Ask::Sleep(secs),
            Command::AwaitTick { secs } => command@ == Ask::AwaitTick(secs),
            Command::FetchStatuses { project_id } => command@ == Ask::Statuses(project_id),
            Command::SearchIssues { request } => command@ == Ask::Search(request),
            Command::FetchWorkspaces => command@ is Workspaces,
            Command::ParseExecutor { executor } => command@ == Ask::Executor(executor@),
            Command::ReadPortFile { app } => command@ == Ask::Port(app@),
            Command::StartWorkspace { url, request } => command@ matches Ask::Start {
                url: u,
                request: r,
            } && u == url@ && r == request@,
            Command::ReadStartResponse => command@ is StartResponse,
            Command::LinkWorkspace { url, link } => command@ matches Ask::Link {
                url: u,
                link: l,
            } && u == url@ && l == link,
        },
{
}

/// Every reply of the right kind, good or bad, answers a command.
pub proof fn bad_replies_are_replies(asked: Ask, event: Event)
    ensures
        answers(asked, event) <==> match event {
            Event::Slept => asked is Sleep,
            Event::Tick => asked is AwaitTick,
            Event::Statuses(_) => asked is Statuses,
            Event::Issues(_) => asked is Search,
            Event::Workspaces(_) => asked is Workspaces,
            Event::Executor(_) => asked is Executor,
            Event::Port(_) => asked is Port,
            Event::StartSent(_) => asked is Start,
            Event::StartResponse(_) => asked is StartResponse,
            Event::LinkSent(_) => asked is Link,
        },
{
}

/// After the delay the service waits for its first round.
pub proof fn delay_ends(rules: Seq<AutomationRule>, s: State)
    requires
        s.phase is Starting,
    ensures
        step(rules, s, Event::Slept).phase is Waiting,
        step(rules, s, Event::Slept).cache == s.cache,
        step(rules, s, Event::Slept).processed == s.processed,
{
}

/// Whether a rule has nothing to be done: it is disabled, or its project's
/// statuses are known and its target is not one of them.
pub open spec fn is_idle(rule: AutomationRule, cache: Cache) -> bool {
    !rule.enabled || (cache.contains_key(rule.action->project_id)
        && !cache[rule.action->project_id].contains_key(rule.trigger->to@))
}

/// Whether a phase is about the first rule from `from` on that is not idle: it
/// waits for the statuses of its project if they are not known, and else for
/// the issues in its target status. If all are idle, the round is over.
pub open spec fn takes_next_rule(
    rules: Seq<AutomationRule>,
    cache: Cache,
    from: int,
    phase: Phase,
) -> bool {
    match phase {
        Phase::Waiting => forall|q: int|
            from <= q < rules.len() ==> is_idle(#[trigger] rules[q], cache),
        Phase::TargetStatuses { rule } => {
            &&& from <= rule < rules.len()
            &&& forall|q: int| from <= q < rule ==> is_idle(#[trigger] rules[q], cache)
            &&& rules[rule as int].enabled
            &&& !cache.contains_key(rules[rule as int].action->project_id)
        },
        Phase::TargetIssues { rule, status_id } => {
            &&& from <= rule < rules.len()
            &&& forall|q: int| from <= q < rule ==> is_idle(#[trigger] rules[q], cache)
            &&& rules[rule as int].enabled
            &&& cache.contains_key(rules[rule as int].action->project_id)
            &&& cache[rules[rule as int].action->project_id].get(rules[rule as int].trigger->to@)
                == Some(status_id)
        },
        _ => false,
    }
}

proof fn lemma_next_rule(rules: Seq<AutomationRule>, cache: Cache, from: int)
    requires
        0 <= from,
        rules.len() <= usize::MAX,
    ensures
        takes_next_rule(rules, cache, from, rule_phase(rules, cache, from)),
    decreases rules.len() - from,
{
    if from < rules.len() {
        lemma_next_rule(rules, cache, from + 1);
    }
}

/// A round begins with the first rule that is not idle.
pub proof fn round_begins_with_the_first_rule(rules: Seq<AutomationRule>, s: State)
    requires
        s.wf(rules),
        s.phase is Waiting,
    ensures
        takes_next_rule(rules, s.cache, 0, step(rules, s, Event::Tick).phase),
        step(rules, s, Event::Tick).cache == s.cache,
        step(rules, s, Event::Tick).processed == s.processed,
{
    lemma_next_rule(rules, s.cache, 0);
}

/// The statuses of a project that come in are kept: each name stands for the
/// last status that carries it. The rule that they were fetched for is tried
/// again; if they do not come, nothing is kept and the next rule is taken.
pub proof fn fetched_statuses_are_kept(
    rules: Seq<AutomationRule>,
    s: State,
    rule: usize,
    reply: Option<Vec<ProjectStatus>>,
    name: Seq<char>,
    i: int,
)
    requires
        s.wf(rules),
        s.phase == (Phase::TargetStatuses { rule }),
    ensures
        ({
            let t = step(rules, s, Event::Statuses(reply));
            let project_id = rules[rule as int].action->project_id;
            &&& t.processed == s.processed
            &&& t.cache.remove(project_id) == s.cache
            &&& match reply {
                Some(list) => {
                    &&& t.cache.contains_key(project_id)
                    &&& takes_next_rule(rules, t.cache, rule as int, t.phase)
                    &&& 0 <= i < list@.len() && list@[i].name@ == name && (forall|j: int|
                        i < j < list@.len() ==> (#[trigger] list@[j]).name@ != name)
                        ==> t.cache[project_id].get(name) == Some(list@[i].id)
                    &&& (forall|j: int|
                        0 <= j < list@.len() ==> (#[trigger] list@[j]).name@ != name)
                        ==> !t.cache[project_id].contains_key(name)
                },
                None => t.cache == s.cache && takes_next_rule(rules, s.cache, rule + 1, t.phase),
            }
        }),
{
    let t = step(rules, s, Event::Statuses(reply));
    let project_id = rules[rule as int].action->project_id;
    assert(t.cache.remove(project_id) =~= s.cache);
    match reply {
        Some(list) => {
            lemma_next_rule(rules, t.cache, rule as int);
            if 0 <= i < list@.len() && list@[i].name@ == name && (forall|j: int|
                i < j < list@.len() ==> (#[trigger] list@[j]).name@ != name) {
                last_entry_counts(list@, i);
            }
            if forall|j: int| 0 <= j < list@.len() ==> (#[trigger] list@[j]).name@ != name {
                absent_name_is_unknown(list@, name);
            }
        },
        None => lemma_next_rule(rules, s.cache, rule + 1),
    }
}

/// A rule whose search fails or gives no issues is followed by the next rule.
pub proof fn rule_without_issues_is_over(
    rules: Seq<AutomationRule>,
    s: State,
    rule: usize,
    status_id: Uuid,
    reply: Option<Vec<Issue>>,
)
    requires
        s.wf(rules),
        s.phase == (Phase::TargetIssues { rule, status_id }),
        reply matches Some(issues) ==> issues@.len() == 0,
    ensures
        takes_next_rule(rules, s.cache, rule + 1, step(rules, s, Event::Issues(reply)).phase),
        step(rules, s, Event::Issues(reply)).cache == s.cache,
        step(rules, s, Event::Issues(reply)).processed == s.processed,
{
    lemma_next_rule(rules, s.cache, rule + 1);
}

/// Whether a limit needs no search: none of its names is a status of the project.
pub open spec fn counts_nothing(rule: AutomationRule, cache: Cache, statuses: Seq<String>) -> bool {
    &&& statuses.len() > 0 ==> cache.contains_key(rule.action->project_id)
    &&& forall|i: int|
        0 <= i < statuses.len() ==> !cache[rule.action->project_id].contains_key(
            (#[trigger] statuses[i])@,
        )
}

/// Whether a condition holds without a reply: it is a limit above zero that
/// counts nothing.
pub open spec fn holds_at_once(rule: AutomationRule, cache: Cache, cond: int) -> bool {
    rule.conditions@[cond] matches AutomationCondition::WipLimit { max, statuses } && max > 0
        && counts_nothing(rule, cache, statuses@)
}

/// Whether a condition fails without a reply: it is a limit of zero that counts
/// nothing.
pub open spec fn fails_at_once(rule: AutomationRule, cache: Cache, cond: int) -> bool {
    rule.conditions@[cond] matches AutomationCondition::WipLimit { max, statuses } && max == 0
        && counts_nothing(rule, cache, statuses@)
}

/// Whether a task waits for what a condition needs first.
pub open spec fn waits_for_condition(
    rule: AutomationRule,
    cache: Cache,
    cond: int,
    task: Task,
) -> bool {
    match rule.conditions@[cond] {
        AutomationCondition::NoExistingWorkspace => task == (Task::Workspaces {
            cond: cond as usize,
        }),
        AutomationCondition::WipLimit { statuses, .. } => waits_for_name(
            rule,
            cache,
            cond,
            statuses@,
            0,
            WipCount { issues: 0, statuses: StatusList::Empty },
            task,
        ),
    }
}

/// Whether a name adds nothing to a count: it is not a status of the project,
/// or that status has been counted.
pub open spec fn adds_nothing(
    rule: AutomationRule,
    cache: Cache,
    name: Seq<char>,
    counted: Set<Uuid>,
) -> bool {
    cache.contains_key(rule.action->project_id) && (cache[rule.action->project_id].get(
        name,
    ) matches Some(status_id) ==> counted.contains(status_id))
}

/// Whether a task waits for what a count needs for the first of the names from
/// `from` on that may add to it.
pub open spec fn waits_for_name(
    rule: AutomationRule,
    cache: Cache,
    cond: int,
    statuses: Seq<String>,
    from: int,
    count: WipCount,
    task: Task,
) -> bool {
    match task {
        Task::WipStatuses { cond: c, index, count: so_far } => {
            &&& c == cond
            &&& so_far == count
            &&& from <= index < statuses.len()
            &&& forall|i: int|
                from <= i < index ==> adds_nothing(
                    rule,
                    cache,
                    (#[trigger] statuses[i])@,
                    count.statuses.ids(),
                )
            &&& !cache.contains_key(rule.action->project_id)
        },
        Task::WipIssues { cond: c, index, count: so_far, status_id } => {
            &&& c == cond
            &&& so_far == count
            &&& from <= index < statuses.len()
            &&& forall|i: int|
                from <= i < index ==> adds_nothing(
                    rule,
                    cache,
                    (#[trigger] statuses[i])@,
                    count.statuses.ids(),
                )
            &&& cache.contains_key(rule.action->project_id)
            &&& cache[rule.action->project_id].get(statuses[index as int]@) == Some(status_id)
            &&& !count.statuses.ids().contains(status_id)
        },
        _ => false,
    }
}

proof fn lemma_tally(
    rule: AutomationRule,
    cache: Cache,
    cond: int,
    statuses: Vec<String>,
    from: int,
    count: WipCount,
)
    requires
        0 <= cond <= usize::MAX,
        0 <= from,
    ensures
        match tally(rule.project(), cache, statuses@, cond, from, count) {
            Tally::Need(task) => waits_for_name(
                rule,
                cache,
                cond,
                statuses@,
                from,
                count,
                task,
            ),
            Tally::Counted(issues) => issues == count.issues && forall|i: int|
                from <= i < statuses@.len() ==> adds_nothing(
                    rule,
                    cache,
                    (#[trigger] statuses@[i])@,
                    count.statuses.ids(),
                ),
        },
    decreases statuses@.len() - from,
{
    assert(statuses.len() == statuses@.len());
    if from < statuses@.len() {
        lemma_tally(rule, cache, cond, statuses, from + 1, count);
        let t = tally(rule.project(), cache, statuses@, cond, from, count);
        if cache.contains_key(rule.project()) {
            let found = cache[rule.project()].get(statuses@[from]@);
            if found is None || count.statuses.ids().contains(found->0) {
                assert(adds_nothing(rule, cache, statuses@[from]@, count.statuses.ids()));
            }
        }
    }
}

/// Whether a check goes on from the condition `from` as it should: conditions
/// that hold without a reply are passed over. The first that does not is waited
/// for or, if it fails without a reply, refuses the issue.
pub open spec fn checks_on(rule: AutomationRule, cache: Cache, from: int, result: Check) -> bool {
    match result {
        Check::Pass => forall|c: int|
            from <= c < rule.conditions@.len() ==> #[trigger] holds_at_once(rule, cache, c),
        Check::Fail => exists|c: int|
            {
                &&& from <= c < rule.conditions@.len()
                &&& #[trigger] fails_at_once(rule, cache, c)
                &&& forall|d: int| from <= d < c ==> #[trigger] holds_at_once(rule, cache, d)
            },
        Check::Need(task) => exists|c: int|
            {
                &&& from <= c < rule.conditions@.len()
                &&& #[trigger] waits_for_condition(rule, cache, c, task)
                &&& forall|d: int| from <= d < c ==> #[trigger] holds_at_once(rule, cache, d)
            },
    }
}

proof fn lemma_counts_nothing(rule: AutomationRule, cache: Cache, statuses: Seq<String>)
    requires
        forall|i: int|
            0 <= i < statuses.len() ==> adds_nothing(
                rule,
                cache,
                (#[trigger] statuses[i])@,
                StatusList::Empty.ids(),
            ),
    ensures
        counts_nothing(rule, cache, statuses),
{
    if statuses.len() > 0 {
        assert(adds_nothing(rule, cache, statuses[0]@, StatusList::Empty.ids()));
    }
    assert forall|i: int|
        0 <= i < statuses.len() implies !cache[rule.action->project_id].contains_key(
        (#[trigger] statuses[i])@,
    ) by {
        assert(adds_nothing(rule, cache, statuses[i]@, StatusList::Empty.ids()));
        let known = cache[rule.action->project_id];
        if known.contains_key(statuses[i]@) {
            assert(known.get(statuses[i]@) == Some(known[statuses[i]@]));
            list_holds_its_statuses(0, StatusList::Empty, known[statuses[i]@]);
        }
    }
}

proof fn lemma_check(rule: AutomationRule, cache: Cache, from: int)
    requires
        0 <= from,
    ensures
        checks_on(rule, cache, from, check(rule, cache, from)),
    decreases rule.conditions@.len() - from,
{
    assert(rule.conditions.len() == rule.conditions@.len());
    if from < rule.conditions@.len() {
        lemma_check(rule, cache, from + 1);
        let result = check(rule, cache, from);
        match rule.conditions@[from] {
            AutomationCondition::NoExistingWorkspace => {
                assert(waits_for_condition(rule, cache, from, result->Need_0));
            },
            AutomationCondition::WipLimit { max, statuses } => {
                let none = WipCount { issues: 0, statuses: StatusList::Empty };
                assert(none == WipCount::none());
                lemma_tally(rule, cache, from, statuses, 0, none);
                match tally(rule.project(), cache, statuses@, from, 0, none) {
                    Tally::Need(task) => {
                        assert(waits_for_condition(rule, cache, from, task));
                    },
                    Tally::Counted(_) => {
                        lemma_counts_nothing(rule, cache, statuses@);
                        if max == 0 {
                            assert(fails_at_once(rule, cache, from));
                        } else {
                            assert(holds_at_once(rule, cache, from));
                            lemma_checks_on_further(rule, cache, from, result);
                        }
                    },
                }
            },
        }
    }
}

proof fn lemma_checks_on_further(rule: AutomationRule, cache: Cache, from: int, result: Check)
    requires
        holds_at_once(rule, cache, from),
        checks_on(rule, cache, from + 1, result),
        from < rule.conditions@.len(),
    ensures
        checks_on(rule, cache, from, result),
{
    match result {
        Check::Pass => {},
        Check::Fail => {
            let c = choose|c: int|
                {
                    &&& from + 1 <= c < rule.conditions@.len()
                    &&& #[trigger] fails_at_once(rule, cache, c)
                    &&& forall|d: int|
                        from + 1 <= d < c ==> #[trigger] holds_at_once(rule, cache, d)
                };
            assert(fails_at_once(rule, cache, c));
        },
        Check::Need(task) => {
            let c = choose|c: int|
                {
                    &&& from + 1 <= c < rule.conditions@.len()
                    &&& #[trigger] waits_for_condition(rule, cache, c, task)
                    &&& forall|d: int|
                        from + 1 <= d < c ==> #[trigger] holds_at_once(rule, cache, d)
                };
            assert(waits_for_condition(rule, cache, c, task));
        },
    }
}

/// Whether an issue is refused without a reply when its turn comes.
pub open spec fn is_refused_at_once(rule: AutomationRule, cache: Cache) -> bool {
    checks_on(rule, cache, 0, Check::Fail)
}

/// Whether the task with which work on an issue begins is the right one: what
/// the first condition that needs a reply waits for, or the agent if none does.
pub open spec fn begins_with(rule: AutomationRule, cache: Cache, from: int, task: Task) -> bool {
    ||| task is Executor && checks_on(rule, cache, from, Check::Pass)
    ||| checks_on(rule, cache, from, Check::Need(task))
}

/// Whether a phase is about the first of the issues from `from` on that is not
/// processed, unless issues are refused without a reply. If there is no such
/// issue, it is about the next rule.
pub open spec fn takes_next_issue(
    rules: Seq<AutomationRule>,
    cache: Cache,
    processed: Set<Uuid>,
    r: int,
    issues: Vec<Issue>,
    from: int,
    phase: Phase,
) -> bool {
    match phase {
        Phase::Working { rule, issues: list, pos, task } => {
            &&& rule == r
            &&& list == issues
            &&& from <= pos < issues@.len()
            &&& !processed.contains(issues@[pos as int].id)
            &&& forall|k: int|
                from <= k < pos ==> processed.contains((#[trigger] issues@[k]).id)
            &&& begins_with(rules[r], cache, 0, task)
        },
        _ => {
            &&& takes_next_rule(rules, cache, r + 1, phase)
            &&& is_refused_at_once(rules[r], cache) || forall|k: int|
                from <= k < issues@.len() ==> processed.contains((#[trigger] issues@[k]).id)
        },
    }
}

proof fn lemma_next_issue(
    rules: Seq<AutomationRule>,
    cache: Cache,
    processed: Set<Uuid>,
    r: int,
    issues: Vec<Issue>,
    from: int,
)
    requires
        0 <= r < rules.len() <= usize::MAX,
        0 <= from,
    ensures
        takes_next_issue(
            rules,
            cache,
            processed,
            r,
            issues,
            from,
            issue_phase(rules, cache, processed, r, issues, from),
        ),
    decreases issues@.len() - from,
{
    assert(issues.len() == issues@.len());
    lemma_next_rule(rules, cache, r + 1);
    if from < issues@.len() {
        lemma_next_issue(rules, cache, processed, r, issues, from + 1);
        if !processed.contains(issues@[from].id) {
            let checked = check(rules[r], cache, 0);
            lemma_check(rules[r], cache, 0);
            assert(issue_phase(rules, cache, processed, r, issues, from) == after_check(
                rules,
                cache,
                processed,
                r,
                issues,
                from,
                checked,
            ));
            if checked is Fail {
                lemma_refused_to_the_end(rules, cache, processed, r, issues, from);
            }
        }
    }
}

proof fn lemma_refused_to_the_end(
    rules: Seq<AutomationRule>,
    cache: Cache,
    processed: Set<Uuid>,
    r: int,
    issues: Vec<Issue>,
    from: int,
)
    requires
        0 <= from,
        check(rules[r], cache, 0) is Fail,
    ensures
        issue_phase(rules, cache, processed, r, issues, from) == rule_phase(rules, cache, r + 1),
    decreases issues@.len() - from,
{
    if from < issues@.len() {
        lemma_refused_to_the_end(rules, cache, processed, r, issues, from + 1);
        assert(after_check(rules, cache, processed, r, issues, from, Check::Fail) == issue_phase(
            rules,
            cache,
            processed,
            r,
            issues,
            from + 1,
        ));
    }
}

/// When the search for a rule's target status gives issues, the first of them
/// that is not processed is worked on, unless a limit of zero refuses every issue.
pub proof fn list_is_taken_up_from_the_first(
    rules: Seq<AutomationRule>,
    s: State,
    rule: usize,
    status_id: Uuid,
    issues: Vec<Issue>,
)
    requires
        s.wf(rules),
        s.phase == (Phase::TargetIssues { rule, status_id }),
    ensures
        ({
            let t = step(rules, s, Event::Issues(Some(issues)));
            &&& t.cache == s.cache
            &&& t.processed == s.processed
            &&& takes_next_issue(rules, s.cache, s.processed, rule as int, issues, 0, t.phase)
        }),
{
    lemma_next_issue(rules, s.cache, s.processed, rule as int, issues, 0);
}

/// Whether the service has left the issue at `pos` and taken up the next one.
pub open spec fn leaves_issue(
    rules: Seq<AutomationRule>,
    r: int,
    issues: Vec<Issue>,
    pos: int,
    t: State,
) -> bool {
    takes_next_issue(rules, t.cache, t.processed, r, issues, pos + 1, t.phase)
}

/// Whether a check that has come to the condition `from` has gone on as it
/// should: to the next reply, to the action, or to the next issue.
pub open spec fn goes_on_checking(
    rules: Seq<AutomationRule>,
    r: int,
    issues: Vec<Issue>,
    pos: int,
    from: int,
    t: State,
) -> bool {
    ||| (t.phase matches Phase::Working { rule, issues: list, pos: p, task } && rule == r && list
        == issues && p == pos && begins_with(rules[r], t.cache, from, task))
    ||| checks_on(rules[r], t.cache, from, Check::Fail) && leaves_issue(rules, r, issues, pos, t)
}

proof fn lemma_after_check(
    rules: Seq<AutomationRule>,
    s: State,
    r: int,
    issues: Vec<Issue>,
    pos: int,
    from: int,
)
    requires
        0 <= r < rules.len() <= usize::MAX,
        0 <= pos < issues@.len(),
        0 <= from,
    ensures
        goes_on_checking(
            rules,
            r,
            issues,
            pos,
            from,
            s.at(
                after_check(
                    rules,
                    s.cache,
                    s.processed,
                    r,
                    issues,
                    pos,
                    check(rules[r], s.cache, from),
                ),
            ),
        ),
{
    assert(issues.len() == issues@.len());
    lemma_check(rules[r], s.cache, from);
    lemma_next_issue(rules, s.cache, s.processed, r, issues, pos + 1);
}

/// The reply to the list of workspaces: the issue is left if the list did not
/// come or a workspace in it, wherever it stands, is in use under the issue's
/// short name; else the conditions after this one are checked.
pub proof fn workspace_in_use_refuses_the_issue(
    rules: Seq<AutomationRule>,
    s: State,
    r: usize,
    issues: Vec<Issue>,
    pos: usize,
    cond: usize,
    reply: Option<Vec<Workspace>>,
)
    requires
        s.wf(rules),
        s.phase == (Phase::Working { rule: r, issues, pos, task: Task::Workspaces { cond } }),
    ensures
        ({
            let t = step(rules, s, Event::Workspaces(reply));
            let in_use = |workspaces: Vec<Workspace>|
                exists|i: int|
                    0 <= i < workspaces@.len() && !(#[trigger] workspaces@[i]).archived
                        && workspaces@[i].name is Some && workspaces@[i].name->0@
                        == issues@[pos as int].simple_id@;
            &&& t.cache == s.cache
            &&& t.processed == s.processed
            &&& if reply is None || in_use(reply->0) {
                leaves_issue(rules, r as int, issues, pos as int, t)
            } else {
                goes_on_checking(rules, r as int, issues, pos as int, cond + 1, t)
            }
        }),
{
    assert(issues.len() == issues@.len());
    lemma_next_issue(rules, s.cache, s.processed, r as int, issues, pos + 1);
    lemma_after_check(rules, s, r as int, issues, pos as int, cond + 1);
}

/// Whether a count for the limit `cond` that has come to the name `from` has
/// gone on as it should: it waits for the next name that may add to it. When
/// there is none, the limit is reached unless the count is below it; then the
/// conditions after it are checked.
pub open spec fn goes_on_counting(
    rules: Seq<AutomationRule>,
    r: int,
    issues: Vec<Issue>,
    pos: int,
    cond: int,
    from: int,
    count: WipCount,
    t: State,
) -> bool {
    let rule = rules[r];
    let max = rule.conditions@[cond]->max;
    let statuses = rule.conditions@[cond]->statuses@;
    let is_done = forall|i: int|
        from <= i < statuses.len() ==> adds_nothing(
            rule,
            t.cache,
            (#[trigger] statuses[i])@,
            count.statuses.ids(),
        );
    ||| is_done && count.issues >= max && leaves_issue(rules, r, issues, pos, t)
    ||| is_done && count.issues < max && goes_on_checking(rules, r, issues, pos, cond + 1, t)
    ||| (t.phase matches Phase::Working { rule: q, issues: list, pos: p, task } && q == r && list
        == issues && p == pos && waits_for_name(
        rule,
        t.cache,
        cond,
        statuses,
        from,
        count,
        task,
    ))
}

proof fn lemma_goes_on_counting(
    rules: Seq<AutomationRule>,
    s: State,
    r: int,
    issues: Vec<Issue>,
    pos: int,
    cond: int,
    from: int,
    count: WipCount,
)
    requires
        0 <= r < rules.len() <= usize::MAX,
        0 <= pos < issues@.len(),
        0 <= cond < rules[r].conditions@.len(),
        rules[r].conditions@[cond] is WipLimit,
        0 <= from,
    ensures
        goes_on_counting(
            rules,
            r,
            issues,
            pos,
            cond,
            from,
            count,
            tally_step(rules, s, r, issues, pos, cond, from, count),
        ),
{
    let rule = rules[r];
    let statuses = rule.conditions@[cond]->statuses;
    assert(issues.len() == issues@.len());
    assert(rule.conditions.len() == rule.conditions@.len());
    lemma_tally(rule, s.cache, cond, statuses, from, count);
    lemma_next_issue(rules, s.cache, s.processed, r, issues, pos + 1);
    lemma_after_check(rules, s, r, issues, pos, cond + 1);
}

/// The reply to a search for a limit: the issues that came are added to the
/// count, and their status to those counted; a search that failed adds nothing.
/// The count then goes on with the next name.
pub proof fn found_issues_are_counted(
    rules: Seq<AutomationRule>,
    s: State,
    r: usize,
    issues: Vec<Issue>,
    pos: usize,
    cond: usize,
    index: usize,
    count: WipCount,
    status_id: Uuid,
    reply: Option<Vec<Issue>>,
)
    requires
        s.wf(rules),
        s.phase == (Phase::Working {
            rule: r,
            issues,
            pos,
            task: Task::WipIssues { cond, index, count, status_id },
        }),
    ensures
        ({
            let t = step(rules, s, Event::Issues(reply));
            &&& t.cache == s.cache
            &&& t.processed == s.processed
            &&& exists|after: WipCount|
                {
                    &&& #[trigger] goes_on_counting(
                        rules,
                        r as int,
                        issues,
                        pos as int,
                        cond as int,
                        index + 1,
                        after,
                        t,
                    )
                    &&& match reply {
                        Some(found) => {
                            &&& after.issues == if count.issues + found@.len() <= usize::MAX {
                                count.issues + found@.len()
                            } else {
                                usize::MAX as int
                            }
                            &&& after.statuses == (StatusList::With {
                                status_id,
                                rest: Box::new(count.statuses),
                            })
                        },
                        None => after == count,
                    }
                }
        }),
{
    let after = match reply {
        Some(found) => count.plus(status_id, found@.len()),
        None => count,
    };
    lemma_goes_on_counting(
        rules,
        s,
        r as int,
        issues,
        pos as int,
        cond as int,
        index + 1,
        after,
    );
    assert(goes_on_counting(
        rules,
        r as int,
        issues,
        pos as int,
        cond as int,
        index + 1,
        after,
        step(rules, s, Event::Issues(reply)),
    ));
}

/// The reply to a fetch of statuses for a limit: statuses that came are kept
/// and the name is tried again; else the count goes on with the next name.
pub proof fn count_goes_on_after_a_fetch(
    rules: Seq<AutomationRule>,
    s: State,
    r: usize,
    issues: Vec<Issue>,
    pos: usize,
    cond: usize,
    index: usize,
    count: WipCount,
    reply: Option<Vec<ProjectStatus>>,
    name: Seq<char>,
    i: int,
)
    requires
        s.wf(rules),
        s.phase == (Phase::Working {
            rule: r,
            issues,
            pos,
            task: Task::WipStatuses { cond, index, count },
        }),
    ensures
        ({
            let t = step(rules, s, Event::Statuses(reply));
            let project_id = rules[r as int].action->project_id;
            &&& t.processed == s.processed
            &&& t.cache.remove(project_id) == s.cache
            &&& match reply {
                Some(list) => {
                    &&& t.cache.contains_key(project_id)
                    &&& 0 <= i < list@.len() && list@[i].name@ == name && (forall|j: int|
                        i < j < list@.len() ==> (#[trigger] list@[j]).name@ != name)
                        ==> t.cache[project_id].get(name) == Some(list@[i].id)
                    &&& (forall|j: int|
                        0 <= j < list@.len() ==> (#[trigger] list@[j]).name@ != name)
                        ==> !t.cache[project_id].contains_key(name)
                    &&& goes_on_counting(
                        rules,
                        r as int,
                        issues,
                        pos as int,
                        cond as int,
                        index as int,
                        count,
                        t,
                    )
                },
                None => t.cache == s.cache && goes_on_counting(
                    rules,
                    r as int,
                    issues,
                    pos as int,
                    cond as int,
                    index + 1,
                    count,
                    t,
                ),
            }
        }),
{
    let t = step(rules, s, Event::Statuses(reply));
    let project_id = rules[r as int].action->project_id;
    assert(t.cache.remove(project_id) =~= s.cache);
    match reply {
        Some(list) => {
            let known = State { cache: t.cache, ..s };
            lemma_goes_on_counting(
                rules,
                known,
                r as int,
                issues,
                pos as int,
                cond as int,
                index as int,
                count,
            );
            if 0 <= i < list@.len() && list@[i].name@ == name && (forall|j: int|
                i < j < list@.len() ==> (#[trigger] list@[j]).name@ != name) {
                last_entry_counts(list@, i);
            }
            if forall|j: int| 0 <= j < list@.len() ==> (#[trigger] list@[j]).name@ != name {
                absent_name_is_unknown(list@, name);
            }
        },
        None => {
            lemma_goes_on_counting(
                rules,
                s,
                r as int,
                issues,
                pos as int,
                cond as int,
                index + 1,
                count,
            );
        },
    }
}

/// The steps of an action: a good reply leads to the next step with what it
/// gave, on the same issue; a bad one leaves the issue unmarked. Whatever the
/// reply to the link is, the issue is marked and left.
pub proof fn action_goes_step_by_step(
    rules: Seq<AutomationRule>,
    s: State,
    r: usize,
    issues: Vec<Issue>,
    pos: usize,
    task: Task,
    event: Event,
)
    requires
        s.wf(rules),
        s.phase == (Phase::Working { rule: r, issues, pos, task }),
        answers(ask(rules, s.phase), event),
        !(task is Workspaces || task is WipStatuses || task is WipIssues),
    ensures
        ({
            let t = step(rules, s, event);
            let next: Option<Task> = match (task, event) {
                (Task::Executor, Event::Executor(Some(executor))) => Some(
                    Task::Port { executor },
                ),
                (Task::Port { executor }, Event::Port(Some(port))) => Some(
                    Task::Start { executor, port },
                ),
                (Task::Start { port, .. }, Event::StartSent(Some(code))) => if 200 <= code
                    <= 299 {
                    Some(Task::StartResponse { port })
                } else {
                    None
                },
                (
                    Task::StartResponse { port },
                    Event::StartResponse(Some(ApiResponse { data: Some(workspace_id) })),
                ) => Some(Task::Link { port, workspace_id }),
                _ => None,
            };
            &&& t.cache == s.cache
            &&& t.processed == if task is Link {
                s.processed.insert(issues@[pos as int].id)
            } else {
                s.processed
            }
            &&& match next {
                Some(task) => t.phase == (Phase::Working { rule: r, issues, pos, task }),
                None => leaves_issue(rules, r as int, issues, pos as int, t),
            }
        }),
{
    assert(issues.len() == issues@.len());
    lemma_next_issue(rules, s.cache, s.processed, r as int, issues, pos + 1);
    let marked = s.processed.insert(issues@[pos as int].id);
    lemma_next_issue(rules, s.cache, marked, r as int, issues, pos + 1);
}

} // verus!
