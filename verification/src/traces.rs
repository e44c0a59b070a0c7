//! What the service asks, command by command, and what it makes of the replies.

use crate::action::{requests_go_to_the_port, StartRequest};
use crate::board::{search_in_status, Issue};
use crate::config::{AutomationCondition, AutomationRule};
use crate::ids::{hyphenated, Uuid};
use crate::laws::{is_by_status_alone, starts_issue};
use crate::machine::{Ask, Event, Phase};
use crate::program::{
    at, check_all_rules, condition_holds, execute_action, handle_issue_status_trigger,
    handle_issues, is_answering, leads_to, passes_conditions, resolve_status_id,
    round_follows_the_program, run, session, wip_total, Outside, World,
};
use crate::statuses::{absent_name_is_unknown, last_entry_counts};
use crate::text::decimal;
use vstd::prelude::*;

verus! {

/// Whether a search is for all issues of a project in a status.
pub open spec fn is_search_for(ask: Ask, project_id: Uuid, status_id: Uuid) -> bool {
    ask matches Ask::Search(request) && is_by_status_alone(request) && request.project_id
        == project_id && request.status_id == Some(status_id)
}

/// Whether one world comes from another by asking one command.
pub open spec fn asks_one(before: World, after: World) -> bool {
    &&& after.asked.len() == before.asked.len() + 1
    &&& after.asked.drop_last() == before.asked
    &&& after.cache == before.cache
    &&& after.processed == before.processed
}

/// A status name of a project whose statuses are known stands for what is known
/// of it, and nothing is asked.
pub proof fn known_status_is_resolved(o: Outside, w: World, project_id: Uuid, name: Seq<char>)
    requires
        w.cache.contains_key(project_id),
    ensures
        resolve_status_id(o, w, project_id, name) == (w.cache[project_id].get(name), w),
{
}

/// The statuses of a project that are not known are fetched, and kept if they
/// come: then a name stands for the last status that carries it. If they do not
/// come, nothing is kept and the name stands for nothing.
pub proof fn unknown_statuses_are_fetched(
    o: Outside,
    w: World,
    project_id: Uuid,
    name: Seq<char>,
    i: int,
)
    requires
        !w.cache.contains_key(project_id),
    ensures
        ({
            let asked = w.asked.push(Ask::Statuses(project_id));
            let (found, w2) = resolve_status_id(o, w, project_id, name);
            &&& w2.asked == asked
            &&& w2.processed == w.processed
            &&& w2.cache.remove(project_id) == w.cache
            &&& match o(asked) {
                Event::Statuses(Some(list)) => {
                    &&& w2.cache.contains_key(project_id)
                    &&& w2.cache[project_id].get(name) == found
                    &&& 0 <= i < list@.len() && list@[i].name@ == name && (forall|j: int|
                        i < j < list@.len() ==> (#[trigger] list@[j]).name@ != name) ==> found
                        == Some(list@[i].id)
                    &&& (forall|j: int|
                        0 <= j < list@.len() ==> (#[trigger] list@[j]).name@ != name) ==> found
                        is None
                },
                _ => found is None && w2.cache == w.cache,
            }
        }),
{
    let asked = w.asked.push(Ask::Statuses(project_id));
    let (found, w2) = resolve_status_id(o, w, project_id, name);
    assert(w2.cache.remove(project_id) =~= w.cache);
    if let Event::Statuses(Some(list)) = o(asked) {
        if 0 <= i < list@.len() && list@[i].name@ == name && (forall|j: int|
            i < j < list@.len() ==> (#[trigger] list@[j]).name@ != name) {
            last_entry_counts(list@, i);
        }
        if forall|j: int| 0 <= j < list@.len() ==> (#[trigger] list@[j]).name@ != name {
            absent_name_is_unknown(list@, name);
        }
    }
}

/// The condition on existing workspaces lists the workspaces and nothing else.
/// It holds exactly if the list comes and no workspace of it, wherever it
/// stands, is in use under the issue's short name.
pub proof fn existing_workspace_holds_the_rule_back(
    o: Outside,
    w: World,
    rule: AutomationRule,
    issue: Issue,
)
    ensures
        ({
            let (holds, w2) = condition_holds(
                o,
                w,
                rule,
                issue,
                AutomationCondition::NoExistingWorkspace,
            );
            &&& asks_one(w, w2)
            &&& w2.asked.last() is Workspaces
            &&& holds <==> (o(w2.asked) matches Event::Workspaces(Some(workspaces))
                && forall|i: int|
                0 <= i < workspaces@.len() ==> !(!(#[trigger] workspaces@[i]).archived
                    && workspaces@[i].name is Some && workspaces@[i].name->0@ == issue.simple_id@))
        }),
{
    let (holds, w2) = condition_holds(
        o,
        w,
        rule,
        issue,
        AutomationCondition::NoExistingWorkspace,
    );
    assert(w2.asked.drop_last() =~= w.asked);
}

/// A count of issues under way: the world, the issues counted and the statuses
/// they are in.
pub struct Counting {
    pub world: World,
    pub issues: nat,
    pub statuses: Set<Uuid>,
}

/// Whether a count goes on with one more status name as it should: a name that
/// stands for a status not counted yet has the issues in that status searched
/// for; if they come, they and the status are counted. Any other name adds nothing.
pub open spec fn counts_name(
    o: Outside,
    project_id: Uuid,
    name: Seq<char>,
    before: Counting,
    after: Counting,
) -> bool {
    let (found, resolved) = resolve_status_id(o, before.world, project_id, name);
    match found {
        Some(status_id) if !before.statuses.contains(status_id) => {
            &&& asks_one(resolved, after.world)
            &&& is_search_for(after.world.asked.last(), project_id, status_id)
            &&& match o(after.world.asked) {
                Event::Issues(Some(reply)) => {
                    &&& after.issues == before.issues + reply@.len()
                    &&& after.statuses == before.statuses.insert(status_id)
                },
                _ => after.issues == before.issues && after.statuses == before.statuses,
            }
        },
        _ => {
            &&& after.world == resolved
            &&& after.issues == before.issues
            &&& after.statuses == before.statuses
        },
    }
}

/// Whether a count goes through all status names, from the first to the last.
pub open spec fn counts_names(
    o: Outside,
    project_id: Uuid,
    names: Seq<String>,
    counts: Seq<Counting>,
) -> bool {
    &&& counts.len() == names.len() + 1
    &&& forall|k: int|
        0 <= k < names.len() ==> counts_name(
            o,
            project_id,
            (#[trigger] names[k])@,
            counts[k],
            counts[k + 1],
        )
}

proof fn lemma_counts(
    o: Outside,
    w: World,
    project_id: Uuid,
    names: Seq<String>,
    index: int,
    total: nat,
    counted: Set<Uuid>,
) -> (counts: Seq<Counting>)
    requires
        0 <= index <= names.len(),
    ensures
        counts.len() == names.len() - index + 1,
        counts[0] == (Counting { world: w, issues: total, statuses: counted }),
        forall|k: int|
            index <= k < names.len() ==> counts_name(
                o,
                project_id,
                (#[trigger] names[k])@,
                counts[k - index],
                counts[k - index + 1],
            ),
        wip_total(o, w, project_id, names, index, total, counted) == (
            counts.last().issues,
            counts.last().world,
        ),
    decreases names.len() - index,
{
    let here = Counting { world: w, issues: total, statuses: counted };
    if index == names.len() {
        seq![here]
    } else {
        let (found, w1) = resolve_status_id(o, w, project_id, names[index]@);
        let (w2, total2, counted2) = if found is Some && !counted.contains(found->0) {
            let w2 = w1.ask(
                Ask::Search(search_in_status(project_id, found->0)),
            );
            match o(w2.asked) {
                Event::Issues(Some(reply)) => (
                    w2,
                    total + reply@.len(),
                    counted.insert(found->0),
                ),
                _ => (w2, total, counted),
            }
        } else {
            (w1, total, counted)
        };
        assert(w1.asked.push(w2.asked.last()).drop_last() =~= w1.asked);
        let rest = lemma_counts(o, w2, project_id, names, index + 1, total2, counted2);
        let counts = seq![here] + rest;
        assert(counts_name(o, project_id, names[index]@, counts[0], counts[1]));
        assert forall|k: int| index <= k < names.len() implies counts_name(
            o,
            project_id,
            (#[trigger] names[k])@,
            counts[k - index],
            counts[k - index + 1],
        ) by {
            if k > index {
                assert(counts[k - index] == rest[k - index - 1]);
                assert(counts[k - index + 1] == rest[k - index]);
            }
        }
        assert(counts.last() == rest.last());
        counts
    }
}

/// A limit on work in progress goes through its status names in order, counts
/// the issues that the searches give, and holds exactly if they are below it.
pub proof fn limit_goes_through_its_statuses(
    o: Outside,
    w: World,
    rule: AutomationRule,
    issue: Issue,
    max: usize,
    statuses: Vec<String>,
)
    ensures
        exists|counts: Seq<Counting>| #[trigger]
            counts_names(o, rule.action->project_id, statuses@, counts) && counts[0].world == w
                && counts[0].issues == 0 && counts[0].statuses == Set::<Uuid>::empty()
                && condition_holds(
                o,
                w,
                rule,
                issue,
                AutomationCondition::WipLimit { max, statuses },
            ) == (counts.last().issues < max, counts.last().world),
{
    let counts = lemma_counts(o, w, rule.project(), statuses@, 0, 0, Set::empty());
    assert(counts_names(o, rule.action->project_id, statuses@, counts));
}

/// Whether conditions of a rule, from the first on, hold one after the other.
pub open spec fn hold_in_turn(
    o: Outside,
    rule: AutomationRule,
    issue: Issue,
    worlds: Seq<World>,
) -> bool {
    &&& 1 <= worlds.len() <= rule.conditions@.len() + 1
    &&& forall|k: int|
        0 <= k < worlds.len() - 1 ==> condition_holds(
            o,
            #[trigger] worlds[k],
            rule,
            issue,
            rule.conditions@[k],
        ) == (true, worlds[k + 1])
}

#[verifier::rlimit(60)]
#[verifier::spinoff_prover]
proof fn lemma_hold_in_turn(
    o: Outside,
    rule: AutomationRule,
    issue: Issue,
    worlds: Seq<World>,
) -> (all: Seq<World>)
    requires
        hold_in_turn(o, rule, issue, worlds),
    ensures
        hold_in_turn(o, rule, issue, all),
        all[0] == worlds[0],
        ({
            let n = all.len() - 1;
            let (passes, end) = passes_conditions(
                o,
                worlds.last(),
                rule,
                issue,
                worlds.len() - 1,
            );
            ||| n == rule.conditions@.len() && passes && end == all[n]
            ||| n < rule.conditions@.len() && !passes && condition_holds(
                o,
                all[n],
                rule,
                issue,
                rule.conditions@[n],
            ) == (false, end)
        }),
    decreases rule.conditions@.len() + 1 - worlds.len(),
{
    let n = worlds.len() - 1;
    if n == rule.conditions@.len() {
        worlds
    } else {
        let (holds, w1) = condition_holds(o, worlds[n], rule, issue, rule.conditions@[n]);
        if holds {
            let more = worlds.push(w1);
            assert forall|k: int| 0 <= k < more.len() - 1 implies condition_holds(
                o,
                #[trigger] more[k],
                rule,
                issue,
                rule.conditions@[k],
            ) == (true, more[k + 1]) by {
                assert(more[k] == worlds[k]);
            }
            lemma_hold_in_turn(o, rule, issue, more)
        } else {
            worlds
        }
    }
}

/// The conditions of a rule are tried from the first on, each in the world that
/// the one before has left. An issue passes exactly if all hold; the first that
/// does not hold is the last that is tried.
pub proof fn conditions_are_tried_in_turn(
    o: Outside,
    w: World,
    rule: AutomationRule,
    issue: Issue,
)
    ensures
        ({
            let (passes, end) = passes_conditions(o, w, rule, issue, 0);
            exists|worlds: Seq<World>| #[trigger]
                hold_in_turn(o, rule, issue, worlds) && worlds[0] == w && {
                    let n = worlds.len() - 1;
                    ||| n == rule.conditions@.len() && passes && end == worlds[n]
                    ||| n < rule.conditions@.len() && !passes && condition_holds(
                        o,
                        worlds[n],
                        rule,
                        issue,
                        rule.conditions@[n],
                    ) == (false, end)
                }
        }),
{
    let first = seq![w];
    assert(hold_in_turn(o, rule, issue, first));
    let all = lemma_hold_in_turn(o, rule, issue, first);
    assert(hold_in_turn(o, rule, issue, all) && all[0] == w);
}

/// Whether a request for a workspace is the one that a rule makes for an issue.
pub open spec fn is_request_for(
    request: StartRequest,
    rule: AutomationRule,
    issue: Issue,
    executor: String,
) -> bool {
    &&& request.name is Some && request.name->0@ == issue.simple_id@
    &&& request.repos.len() == rule.action->repos@.len()
    &&& forall|i: int|
        0 <= i < request.repos.len() ==> (#[trigger] request.repos[i]).repo_id
            == rule.action->repos@[i].repo_id && request.repos[i].target_branch
            == rule.action->repos@[i].branch
    &&& request.linked_issue is Some
    &&& request.linked_issue->0.remote_project_id == rule.action->project_id
    &&& request.linked_issue->0.issue_id == issue.id
    &&& request.executor_config.executor == executor
    &&& request.executor_config.agent_id == rule.action->agent_id
    &&& request.executor_config.variant is None
    &&& request.executor_config.model_id is None
    &&& request.executor_config.reasoning_id is None
    &&& request.executor_config.permission_policy is None
    &&& request.prompt == "處理 Issue "@ + issue.simple_id@ + "（"@ + hyphenated(issue.id) + "）"@
    &&& request.attachment_ids is None
}

/// What acting on an issue asks, in this order, each as long as the reply before
/// it was good: the rule's agent, the port of the local server, a workspace for
/// the issue there, which one it is, and its link to the issue. The issue is
/// marked exactly if it came to the link.
pub proof fn action_asks_in_order(o: Outside, w: World, rule: AutomationRule, issue: Issue)
    ensures
        ({
            let end = execute_action(o, w, rule, issue);
            let n = w.asked.len() as int;
            let len = end.asked.len();
            let agent = o(end.asked.take(n + 1));
            let port = o(end.asked.take(n + 2));
            let sent = o(end.asked.take(n + 3));
            let body = o(end.asked.take(n + 4));
            &&& end.cache == w.cache
            &&& end.asked.take(n) == w.asked
            &&& n < len <= n + 5
            &&& end.asked[n] == Ask::Executor(rule.action->executor@)
            &&& len > n + 1 <==> (agent matches Event::Executor(Some(_)))
            &&& len > n + 1 ==> end.asked[n + 1] == Ask::Port("vibe-kanban"@)
            &&& len > n + 2 <==> len > n + 1 && (port matches Event::Port(Some(_)))
            &&& len > n + 2 ==> (end.asked[n + 2] matches Ask::Start { url, request } && url
                == "http://127.0.0.1:"@ + decimal(port->Port_0->0 as nat)
                + "/api/workspaces/start"@ && is_request_for(
                request,
                rule,
                issue,
                agent->Executor_0->0,
            ))
            &&& len > n + 3 <==> len > n + 2 && (sent matches Event::StartSent(Some(code)) && 200
                <= code <= 299)
            &&& len > n + 3 ==> end.asked[n + 3] is StartResponse
            &&& len > n + 4 <==> len > n + 3 && (body matches Event::StartResponse(Some(reply))
                && reply.data is Some)
            &&& len > n + 4 ==> (end.asked[n + 4] matches Ask::Link { url, link } && url
                == "http://127.0.0.1:"@ + decimal(port->Port_0->0 as nat) + "/api/workspaces/"@
                + hyphenated(body->StartResponse_0->0.data->0) + "/links"@ && link.project_id
                == rule.action->project_id && link.issue_id == issue.id)
            &&& end.processed == if len > n + 4 {
                w.processed.insert(issue.id)
            } else {
                w.processed
            }
        }),
{
    let end = execute_action(o, w, rule, issue);
    let n = w.asked.len() as int;
    let a1 = w.asked.push(Ask::Executor(rule.action->executor@));
    assert(end.asked.take(n) =~= w.asked);
    assert(end.asked.take(n + 1) =~= a1);
    if end.asked.len() > n + 1 {
        let a2 = a1.push(end.asked[n + 1]);
        assert(end.asked.take(n + 2) =~= a2);
        if end.asked.len() > n + 2 {
            let a3 = a2.push(end.asked[n + 2]);
            assert(end.asked.take(n + 3) =~= a3);
            requests_go_to_the_port(o(a2)->Port_0->0, 0);
            if end.asked.len() > n + 3 {
                let a4 = a3.push(end.asked[n + 3]);
                assert(end.asked.take(n + 4) =~= a4);
                if end.asked.len() > n + 4 {
                    requests_go_to_the_port(
                        o(a2)->Port_0->0,
                        o(a4)->StartResponse_0->0.data->0,
                    );
                }
            }
        }
    }
}

/// Whether an issue is handled as it should be: one that is processed is left
/// alone, any other is checked and, if all conditions hold, acted on.
pub open spec fn handles_issue(
    o: Outside,
    rule: AutomationRule,
    issue: Issue,
    before: World,
    after: World,
) -> bool {
    let (passes, checked) = passes_conditions(o, before, rule, issue, 0);
    after == if before.processed.contains(issue.id) {
        before
    } else if passes {
        execute_action(o, checked, rule, issue)
    } else {
        checked
    }
}

/// Whether issues are handled one after the other, from the first to the last.
pub open spec fn handles_each(
    o: Outside,
    rule: AutomationRule,
    issues: Seq<Issue>,
    worlds: Seq<World>,
) -> bool {
    &&& worlds.len() == issues.len() + 1
    &&& forall|k: int|
        0 <= k < issues.len() ==> handles_issue(
            o,
            rule,
            #[trigger] issues[k],
            worlds[k],
            worlds[k + 1],
        )
}

proof fn lemma_handles_each(
    o: Outside,
    w: World,
    rule: AutomationRule,
    issues: Seq<Issue>,
    pos: int,
) -> (worlds: Seq<World>)
    requires
        0 <= pos <= issues.len(),
    ensures
        worlds.len() == issues.len() - pos + 1,
        worlds[0] == w,
        worlds.last() == handle_issues(o, w, rule, issues, pos),
        forall|k: int|
            pos <= k < issues.len() ==> handles_issue(
                o,
                rule,
                #[trigger] issues[k],
                worlds[k - pos],
                worlds[k - pos + 1],
            ),
    decreases issues.len() - pos,
{
    if pos == issues.len() {
        seq![w]
    } else {
        let (passes, checked) = passes_conditions(o, w, rule, issues[pos], 0);
        let w1 = if w.processed.contains(issues[pos].id) {
            w
        } else if passes {
            execute_action(o, checked, rule, issues[pos])
        } else {
            checked
        };
        let rest = lemma_handles_each(o, w1, rule, issues, pos + 1);
        let worlds = seq![w] + rest;
        assert forall|k: int| pos <= k < issues.len() implies handles_issue(
            o,
            rule,
            #[trigger] issues[k],
            worlds[k - pos],
            worlds[k - pos + 1],
        ) by {
            if k > pos {
                assert(worlds[k - pos] == rest[k - pos - 1]);
            }
            assert(worlds[k - pos + 1] == rest[k - pos]);
        }
        assert(worlds.last() == rest.last());
        worlds
    }
}

/// A rule whose target status is known searches for the issues in that status
/// and handles every issue that the search gives, from the first to the last,
/// each in the world that the one before has left. If the search fails, that is all.
pub proof fn every_issue_found_is_handled(
    o: Outside,
    w: World,
    rule: AutomationRule,
    status_id: Uuid,
    searched: World,
)
    requires
        w.cache.contains_key(rule.action->project_id),
        w.cache[rule.action->project_id].get(rule.trigger->to@) == Some(status_id),
        asks_one(w, searched),
        is_search_for(searched.asked.last(), rule.action->project_id, status_id),
    ensures
        match o(searched.asked) {
            Event::Issues(Some(issues)) => exists|worlds: Seq<World>| #[trigger]
                handles_each(o, rule, issues@, worlds) && worlds[0] == searched && worlds.last()
                    == handle_issue_status_trigger(o, w, rule),
            _ => handle_issue_status_trigger(o, w, rule) == searched,
        },
{
    let request = search_in_status(rule.project(), status_id);
    assert(searched.asked.last() == Ask::Search(request));
    assert(searched.asked =~= w.asked.push(Ask::Search(request)));
    assert(searched == w.ask(Ask::Search(request)));
    if let Event::Issues(Some(issues)) = o(searched.asked) {
        let worlds = lemma_handles_each(o, searched, rule, issues@, 0);
        assert(handles_each(o, rule, issues@, worlds));
    }
}

/// A rule whose project's statuses are not known first has its target resolved;
/// it then goes on as if they had been known. A rule whose target stands for
/// nothing does nothing more.
pub proof fn target_is_resolved_first(o: Outside, w: World, rule: AutomationRule)
    ensures
        ({
            let (found, resolved) = resolve_status_id(
                o,
                w,
                rule.action->project_id,
                rule.trigger->to@,
            );
            &&& found is None ==> handle_issue_status_trigger(o, w, rule) == resolved
            &&& found is Some ==> handle_issue_status_trigger(o, w, rule)
                == handle_issue_status_trigger(o, resolved, rule) && resolved.cache.contains_key(
                rule.action->project_id,
            ) && resolved.cache[rule.action->project_id].get(rule.trigger->to@) == found
        }),
{
}

/// Whether rules are worked on one after the other, from the first to the last:
/// those that are enabled have their trigger handled, the others are passed over.
pub open spec fn works_on_each(
    o: Outside,
    rules: Seq<AutomationRule>,
    worlds: Seq<World>,
) -> bool {
    &&& worlds.len() == rules.len() + 1
    &&& forall|r: int|
        0 <= r < rules.len() ==> worlds[r + 1] == if (#[trigger] rules[r]).enabled {
            handle_issue_status_trigger(o, worlds[r], rules[r])
        } else {
            worlds[r]
        }
}

proof fn lemma_works_on_each(
    o: Outside,
    w: World,
    rules: Seq<AutomationRule>,
    r: int,
) -> (worlds: Seq<World>)
    requires
        0 <= r <= rules.len(),
    ensures
        worlds.len() == rules.len() - r + 1,
        worlds[0] == w,
        worlds.last() == check_all_rules(o, w, rules, r),
        forall|k: int|
            r <= k < rules.len() ==> worlds[k - r + 1] == if (#[trigger] rules[k]).enabled {
                handle_issue_status_trigger(o, worlds[k - r], rules[k])
            } else {
                worlds[k - r]
            },
    decreases rules.len() - r,
{
    if r == rules.len() {
        seq![w]
    } else {
        let w1 = if rules[r].enabled {
            handle_issue_status_trigger(o, w, rules[r])
        } else {
            w
        };
        let rest = lemma_works_on_each(o, w1, rules, r + 1);
        let worlds = seq![w] + rest;
        assert forall|k: int| r <= k < rules.len() implies worlds[k - r + 1] == if (
        #[trigger] rules[k]).enabled {
            handle_issue_status_trigger(o, worlds[k - r], rules[k])
        } else {
            worlds[k - r]
        } by {
            if k > r {
                assert(worlds[k - r] == rest[k - r - 1]);
            }
            assert(worlds[k - r + 1] == rest[k - r]);
        }
        assert(worlds.last() == rest.last());
        worlds
    }
}

/// A round works on every enabled rule, from the first to the last, each in the
/// world that the one before has left.
pub proof fn every_enabled_rule_is_worked_on(o: Outside, w: World, rules: Seq<AutomationRule>)
    ensures
        exists|worlds: Seq<World>| #[trigger]
            works_on_each(o, rules, worlds) && worlds[0] == w && worlds.last() == check_all_rules(
                o,
                w,
                rules,
                0,
            ),
{
    let worlds = lemma_works_on_each(o, w, rules, 0);
    assert(works_on_each(o, rules, worlds));
}

/// A session knows nothing at first and sleeps for ten seconds; then rounds
/// follow, each after a tick of a clock with a period of a minute.
pub proof fn session_goes_in_rounds(o: Outside, rules: Seq<AutomationRule>, n: nat)
    ensures
        session(o, rules, 0).asked == seq![Ask::Sleep(10)],
        session(o, rules, 0).cache == Map::<Uuid, Map<Seq<char>, Uuid>>::empty(),
        session(o, rules, 0).processed == Set::<Uuid>::empty(),
        exists|ticked: World| #[trigger]
            asks_one(session(o, rules, n), ticked) && ticked.asked.last() == Ask::AwaitTick(60)
                && session(o, rules, n + 1) == check_all_rules(o, ticked, rules, 0),
{
    assert(session(o, rules, 0).asked =~= seq![Ask::Sleep(10)]);
    let w = session(o, rules, n);
    let ticked = w.ask(Ask::AwaitTick(60));
    assert(ticked.asked.drop_last() =~= w.asked);
    assert(asks_one(w, ticked));
}

/// Whether one world comes after another: all that was asked, known and marked
/// still is, and an issue that has been marked since has had a workspace asked
/// for since.
pub open spec fn advances(a: World, b: World) -> bool {
    &&& a.asked.len() <= b.asked.len()
    &&& b.asked.take(a.asked.len() as int) == a.asked
    &&& a.processed.subset_of(b.processed)
    &&& forall|project_id: Uuid| #[trigger]
        a.cache.contains_key(project_id) ==> b.cache.contains_key(project_id)
            && b.cache[project_id] == a.cache[project_id]
    &&& forall|id: Uuid| #[trigger]
        b.processed.contains(id) && !a.processed.contains(id) ==> starts_since(a, b, id)
}

/// Whether a workspace for an issue has been asked for between two worlds.
pub open spec fn starts_since(a: World, b: World, id: Uuid) -> bool {
    exists|j: int| a.asked.len() <= j < b.asked.len() && starts_issue(#[trigger] b.asked[j], id)
}

proof fn lemma_no_advance(w: World)
    ensures
        advances(w, w),
{
    assert(w.asked.take(w.asked.len() as int) =~= w.asked);
}

proof fn lemma_asks_one(a: World, b: World)
    requires
        asks_one(a, b),
    ensures
        advances(a, b),
{
    assert(b.asked.take(a.asked.len() as int) =~= b.asked.drop_last());
}

proof fn lemma_ask_advances(w: World, ask: Ask)
    ensures
        advances(w, w.ask(ask)),
{
    assert(w.ask(ask).asked.drop_last() =~= w.asked);
    lemma_asks_one(w, w.ask(ask));
}

proof fn lemma_advances_then(a: World, b: World, c: World)
    requires
        advances(a, b),
        advances(b, c),
    ensures
        advances(a, c),
{
    assert forall|i: int| 0 <= i < b.asked.len() implies c.asked[i] == b.asked[i] by {
        assert(c.asked.take(b.asked.len() as int)[i] == b.asked[i]);
    }
    assert(c.asked.take(a.asked.len() as int) =~= b.asked.take(a.asked.len() as int));
    assert forall|id: Uuid| #[trigger]
        c.processed.contains(id) && !a.processed.contains(id) implies starts_since(a, c, id) by {
        if b.processed.contains(id) {
            assert(starts_since(a, b, id));
            let j = choose|j: int|
                a.asked.len() <= j < b.asked.len() && starts_issue(#[trigger] b.asked[j], id);
            assert(starts_issue(c.asked[j], id));
        } else {
            assert(starts_since(b, c, id));
            let j = choose|j: int|
                b.asked.len() <= j < c.asked.len() && starts_issue(#[trigger] c.asked[j], id);
            assert(starts_issue(c.asked[j], id));
        }
    }
}

proof fn lemma_resolve_advances(o: Outside, w: World, project_id: Uuid, name: Seq<char>)
    ensures
        advances(w, resolve_status_id(o, w, project_id, name).1),
{
    lemma_no_advance(w);
    lemma_ask_advances(w, Ask::Statuses(project_id));
}

proof fn lemma_counts_advance(
    o: Outside,
    project_id: Uuid,
    names: Seq<String>,
    counts: Seq<Counting>,
    k: int,
)
    requires
        counts_names(o, project_id, names, counts),
        0 <= k <= names.len(),
    ensures
        advances(counts[0].world, counts[k].world),
    decreases k,
{
    if k == 0 {
        lemma_no_advance(counts[0].world);
    } else {
        lemma_counts_advance(o, project_id, names, counts, k - 1);
        let before = counts[k - 1];
        let name = names[k - 1]@;
        assert(counts_name(o, project_id, name, before, counts[k]));
        let (found, resolved) = resolve_status_id(o, before.world, project_id, name);
        lemma_resolve_advances(o, before.world, project_id, name);
        if found is Some && !before.statuses.contains(found->0) {
            lemma_asks_one(resolved, counts[k].world);
            lemma_advances_then(before.world, resolved, counts[k].world);
        }
        lemma_advances_then(counts[0].world, before.world, counts[k].world);
    }
}

proof fn lemma_condition_advances(
    o: Outside,
    w: World,
    rule: AutomationRule,
    issue: Issue,
    condition: AutomationCondition,
)
    ensures
        advances(w, condition_holds(o, w, rule, issue, condition).1),
{
    match condition {
        AutomationCondition::NoExistingWorkspace => {
            existing_workspace_holds_the_rule_back(o, w, rule, issue);
            lemma_asks_one(w, condition_holds(o, w, rule, issue, condition).1);
        },
        AutomationCondition::WipLimit { max, statuses } => {
            let counts = lemma_counts(o, w, rule.project(), statuses@, 0, 0, Set::empty());
            assert(counts_names(o, rule.project(), statuses@, counts));
            lemma_counts_advance(
                o,
                rule.project(),
                statuses@,
                counts,
                statuses@.len() as int,
            );
        },
    }
}

proof fn lemma_check_advances(
    o: Outside,
    w: World,
    rule: AutomationRule,
    issue: Issue,
    cond: int,
)
    requires
        0 <= cond,
    ensures
        advances(w, passes_conditions(o, w, rule, issue, cond).1),
    decreases rule.conditions@.len() - cond,
{
    lemma_no_advance(w);
    if cond < rule.conditions@.len() {
        let (holds, w1) = condition_holds(o, w, rule, issue, rule.conditions@[cond]);
        lemma_condition_advances(o, w, rule, issue, rule.conditions@[cond]);
        if holds {
            lemma_check_advances(o, w1, rule, issue, cond + 1);
            lemma_advances_then(w, w1, passes_conditions(o, w1, rule, issue, cond + 1).1);
        }
    }
}

proof fn lemma_action_advances(o: Outside, w: World, rule: AutomationRule, issue: Issue)
    ensures
        advances(w, execute_action(o, w, rule, issue)),
{
    let end = execute_action(o, w, rule, issue);
    let n = w.asked.len() as int;
    action_asks_in_order(o, w, rule, issue);
    if end.asked.len() > n + 4 {
        assert(starts_issue(end.asked[n + 2], issue.id));
        assert(starts_since(w, end, issue.id));
    }
}

proof fn lemma_handles_issue_advances(
    o: Outside,
    rule: AutomationRule,
    issue: Issue,
    before: World,
    after: World,
)
    requires
        handles_issue(o, rule, issue, before, after),
    ensures
        advances(before, after),
{
    let checked = passes_conditions(o, before, rule, issue, 0).1;
    lemma_no_advance(before);
    lemma_check_advances(o, before, rule, issue, 0);
    lemma_action_advances(o, checked, rule, issue);
    lemma_advances_then(before, checked, execute_action(o, checked, rule, issue));
}

proof fn lemma_handles_each_advances(
    o: Outside,
    rule: AutomationRule,
    issues: Seq<Issue>,
    worlds: Seq<World>,
    j: int,
    k: int,
)
    requires
        handles_each(o, rule, issues, worlds),
        0 <= j <= k <= issues.len(),
    ensures
        advances(worlds[j], worlds[k]),
    decreases k - j,
{
    if j == k {
        lemma_no_advance(worlds[j]);
    } else {
        lemma_handles_each_advances(o, rule, issues, worlds, j, k - 1);
        assert(handles_issue(o, rule, issues[k - 1], worlds[k - 1], worlds[k]));
        lemma_handles_issue_advances(o, rule, issues[k - 1], worlds[k - 1], worlds[k]);
        lemma_advances_then(worlds[j], worlds[k - 1], worlds[k]);
    }
}

proof fn lemma_trigger_advances(o: Outside, w: World, rule: AutomationRule)
    ensures
        advances(w, handle_issue_status_trigger(o, w, rule)),
{
    let (found, w1) = resolve_status_id(o, w, rule.project(), rule.target());
    lemma_resolve_advances(o, w, rule.project(), rule.target());
    if found is Some {
        let search = Ask::Search(search_in_status(rule.project(), found->0));
        let w2 = w1.ask(search);
        lemma_ask_advances(w1, search);
        lemma_advances_then(w, w1, w2);
        if let Event::Issues(Some(issues)) = o(w2.asked) {
            let worlds = lemma_handles_each(o, w2, rule, issues@, 0);
            assert(handles_each(o, rule, issues@, worlds));
            lemma_handles_each_advances(
                o,
                rule,
                issues@,
                worlds,
                0,
                issues@.len() as int,
            );
            lemma_advances_then(w, w2, worlds.last());
        }
    }
}

proof fn lemma_works_on_each_advances(
    o: Outside,
    rules: Seq<AutomationRule>,
    worlds: Seq<World>,
    j: int,
    k: int,
)
    requires
        works_on_each(o, rules, worlds),
        0 <= j <= k <= rules.len(),
    ensures
        advances(worlds[j], worlds[k]),
    decreases k - j,
{
    lemma_no_advance(worlds[j]);
    if j < k {
        lemma_works_on_each_advances(o, rules, worlds, j, k - 1);
        assert(worlds[k] == if rules[k - 1].enabled {
            handle_issue_status_trigger(o, worlds[k - 1], rules[k - 1])
        } else {
            worlds[k - 1]
        });
        lemma_trigger_advances(o, worlds[k - 1], rules[k - 1]);
        lemma_no_advance(worlds[k - 1]);
        lemma_advances_then(worlds[j], worlds[k - 1], worlds[k]);
    }
}

/// A round takes back nothing: what was asked, known and marked before it still
/// is after it, and it marks only issues for which it has asked for a workspace.
pub proof fn round_only_adds(o: Outside, w: World, rules: Seq<AutomationRule>)
    ensures
        advances(w, check_all_rules(o, w, rules, 0)),
{
    let worlds = lemma_works_on_each(o, w, rules, 0);
    assert(works_on_each(o, rules, worlds));
    lemma_works_on_each_advances(o, rules, worlds, 0, rules.len() as int);
}

/// Whether nothing that an action asks for fails.
pub open spec fn lets_actions_succeed(o: Outside) -> bool {
    forall|asked: Seq<Ask>|
        asked.len() > 0 ==> {
            let reply = #[trigger] o(asked);
            match asked.last() {
                Ask::Executor(_) => reply matches Event::Executor(Some(_)),
                Ask::Port(_) => reply matches Event::Port(Some(_)),
                Ask::Start { .. } => reply matches Event::StartSent(Some(code)) && 200 <= code
                    <= 299,
                Ask::StartResponse => reply matches Event::StartResponse(Some(response))
                    && response.data is Some,
                _ => true,
            }
        }
}

proof fn lemma_action_succeeds(o: Outside, w: World, rule: AutomationRule, issue: Issue)
    requires
        lets_actions_succeed(o),
    ensures
        execute_action(o, w, rule, issue).processed.contains(issue.id),
{
    let end = execute_action(o, w, rule, issue);
    let n = w.asked.len() as int;
    action_asks_in_order(o, w, rule, issue);
    assert(end.asked.take(n + 1).last() == end.asked[n]);
    assert(end.asked.len() > n + 1);
    assert(end.asked.take(n + 2).last() == end.asked[n + 1]);
    assert(end.asked.len() > n + 2);
    assert(end.asked.take(n + 3).last() == end.asked[n + 2]);
    assert(end.asked.len() > n + 3);
    assert(end.asked.take(n + 4).last() == end.asked[n + 3]);
    assert(end.asked.len() > n + 4);
}

/// Where nothing that an action asks for fails, a round of the service gets a
/// workspace for every issue in the target status of every enabled rule without
/// conditions: after the round each issue that the search for that status gave,
/// wherever it stands in the list, is processed, and if it was not before, a
/// workspace for it has been asked for in between.
pub proof fn every_issue_in_the_status_gets_a_workspace(
    rules: Seq<AutomationRule>,
    o: Outside,
    w: World,
    r: int,
    status_id: Uuid,
    issues: Vec<Issue>,
    k: int,
)
    requires
        is_answering(o),
        lets_actions_succeed(o),
        rules.len() <= usize::MAX,
        0 <= r < rules.len(),
        rules[r].enabled,
        rules[r].conditions@.len() == 0,
        w.cache.contains_key(rules[r].action->project_id),
        w.cache[rules[r].action->project_id].get(rules[r].trigger->to@) == Some(status_id),
        forall|asked: Seq<Ask>|
            asked.len() > 0 && is_search_for(
                asked.last(),
                rules[r].action->project_id,
                status_id,
            ) ==> #[trigger] o(asked) == Event::Issues(Some(issues)),
        0 <= k < issues@.len(),
    ensures
        exists|n: nat|
            {
                let end = #[trigger] run(rules, o, at(w, Phase::Waiting), n);
                &&& end.state.phase is Waiting
                &&& end.asked.len() > w.asked.len()
                &&& end.asked[w.asked.len() as int] == Ask::AwaitTick(60)
                &&& end.state.processed.contains(issues@[k].id)
                &&& !w.processed.contains(issues@[k].id) ==> exists|j: int|
                    w.asked.len() <= j < end.asked.len() && starts_issue(
                        #[trigger] end.asked[j],
                        issues@[k].id,
                    )
            },
{
    let rule = rules[r];
    let id = issues@[k].id;
    let ticked = w.ask(Ask::AwaitTick(60));
    let last = check_all_rules(o, ticked, rules, 0);
    let turns = lemma_works_on_each(o, ticked, rules, 0);
    assert(works_on_each(o, rules, turns));
    lemma_works_on_each_advances(o, rules, turns, 0, r);
    let before = turns[r];
    assert(turns[r + 1] == handle_issue_status_trigger(o, before, rules[r]));
    let searched = before.ask(
        Ask::Search(search_in_status(rule.project(), status_id)),
    );
    assert(searched.asked.drop_last() =~= before.asked);
    assert(ticked.cache.contains_key(rule.action->project_id));
    every_issue_found_is_handled(o, before, rule, status_id, searched);
    assert(o(searched.asked) == Event::Issues(Some(issues)));
    let worlds = choose|worlds: Seq<World>| #[trigger]
        handles_each(o, rule, issues@, worlds) && worlds[0] == searched && worlds.last()
            == handle_issue_status_trigger(o, before, rule);
    assert(handles_issue(o, rule, issues@[k], worlds[k], worlds[k + 1]));
    lemma_action_succeeds(o, worlds[k], rule, issues@[k]);
    assert(worlds[k + 1].processed.contains(id));
    lemma_handles_each_advances(o, rule, issues@, worlds, k + 1, issues@.len() as int);
    lemma_works_on_each_advances(o, rules, turns, r + 1, rules.len() as int);
    assert(last.processed.contains(id));
    round_only_adds(o, ticked, rules);
    assert(last.asked.take(ticked.asked.len() as int) == ticked.asked);
    assert(last.asked[w.asked.len() as int] == ticked.asked[w.asked.len() as int]);
    round_follows_the_program(rules, o, w);
    let end = at(last, Phase::Waiting);
    assert(leads_to(rules, o, at(w, Phase::Waiting), end));
    let n = choose|n: nat| #[trigger] run(rules, o, at(w, Phase::Waiting), n) == end;
    if !w.processed.contains(id) {
        assert(starts_since(ticked, last, id));
        let j = choose|j: int|
            ticked.asked.len() <= j < last.asked.len() && starts_issue(#[trigger] last.asked[j], id);
        assert(starts_issue(end.asked[j], id));
    }
    assert(run(rules, o, at(w, Phase::Waiting), n) == end);
}

} // verus!
