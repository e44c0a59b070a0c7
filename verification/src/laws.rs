//! What holds of every session of the service.

use crate::action::prompt;
use crate::api::ApiResponse;
use crate::board::{search_in_status, Issue, SearchIssuesRequest};
use crate::config::{AutomationCondition, AutomationRule};
use crate::ids::{hyphenated, hyphenated_is_injective, Uuid};
use crate::machine::{answers, ask, step, step_keeps_wf, Ask, Event, Phase, State};
use crate::program::{
    at_first, check_all_rules, condition_holds, execute_action, handle_issue_status_trigger,
    handle_issues, is_answering, next, passes_conditions, resolve_status_id, run, wip_total,
    Outside, Snapshot, World,
};
use crate::statuses::status_map;
use vstd::prelude::*;

verus! {

/// The state after a sequence of events, replies or not.
pub open spec fn after(rules: Seq<AutomationRule>, s: State, events: Seq<Event>) -> State
    decreases events.len(),
{
    if events.len() == 0 {
        s
    } else {
        step(rules, after(rules, s, events.drop_last()), events.last())
    }
}

/// Whether a command creates a workspace for an issue.
pub open spec fn starts_issue(ask: Ask, issue_id: Uuid) -> bool {
    ask matches Ask::Start { request, .. } && request.linked_issue is Some
        && request.linked_issue->0.issue_id == issue_id
}

/// An event that is not a reply to the service's command changes nothing.
pub proof fn only_replies_count(rules: Seq<AutomationRule>, s: State, event: Event)
    requires
        !answers(ask(rules, s.phase), event),
    ensures
        step(rules, s, event) == s,
{
}

proof fn lemma_step_keeps_knowledge(rules: Seq<AutomationRule>, s: State, event: Event)
    requires
        s.wf(rules),
    ensures
        s.processed.subset_of(step(rules, s, event).processed),
        s.cache.submap_of(step(rules, s, event).cache),
{
    let project_id = match s.phase {
        Phase::TargetStatuses { rule } => rules[rule as int].project(),
        Phase::Working { rule, .. } => rules[rule as int].project(),
        _ => 0,
    };
    let next = step(rules, s, event).cache;
    if next != s.cache {
        let list = event->Statuses_0->0;
        assert(!s.cache.contains_key(project_id));
        assert(next == s.cache.insert(project_id, status_map(list@)));
    }
}

/// What a session has come to know it keeps: a project whose statuses are
/// known keeps them, and an issue that has been processed stays so.
pub proof fn knowledge_is_kept(rules: Seq<AutomationRule>, s: State, events: Seq<Event>)
    requires
        s.wf(rules),
    ensures
        after(rules, s, events).wf(rules),
        s.processed.subset_of(after(rules, s, events).processed),
        s.cache.submap_of(after(rules, s, events).cache),
    decreases events.len(),
{
    if events.len() > 0 {
        let before = after(rules, s, events.drop_last());
        knowledge_is_kept(rules, s, events.drop_last());
        lemma_step_keeps_knowledge(rules, before, events.last());
        step_keeps_wf(rules, before, events.last());
        let end = after(rules, s, events).cache;
        assert forall|p: Uuid| #[trigger] s.cache.dom().contains(p) implies end.dom().contains(p)
            && s.cache[p] == end[p] by {
            assert(before.cache.dom().contains(p));
        }
    }
}

/// Once an issue has been processed, no workspace is created for it for the
/// rest of the session, whatever comes in.
pub proof fn processed_issues_are_left_alone(
    rules: Seq<AutomationRule>,
    s: State,
    events: Seq<Event>,
    issue_id: Uuid,
)
    requires
        s.wf(rules),
        s.processed.contains(issue_id),
    ensures
        !starts_issue(ask(rules, after(rules, s, events).phase), issue_id),
{
    knowledge_is_kept(rules, s, events);
}

/// Once the statuses of a project are known, they are not fetched again for
/// the rest of the session.
pub proof fn known_statuses_are_not_fetched(
    rules: Seq<AutomationRule>,
    s: State,
    events: Seq<Event>,
    project_id: Uuid,
)
    requires
        s.wf(rules),
        s.cache.contains_key(project_id),
    ensures
        ask(rules, after(rules, s, events).phase) != Ask::Statuses(project_id),
{
    knowledge_is_kept(rules, s, events);
    assert(s.cache.dom().contains(project_id));
}

/// An issue is marked as processed exactly when the reply to the request for
/// its link comes in.
pub proof fn marked_with_the_link(rules: Seq<AutomationRule>, s: State, event: Event)
    ensures
        step(rules, s, event).processed == (match (ask(rules, s.phase), event) {
            (Ask::Link { link, .. }, Event::LinkSent(_)) => s.processed.insert(link.issue_id),
            _ => s.processed,
        }),
{
}

/// Whether the link succeeds does not matter.
pub proof fn link_may_fail(
    rules: Seq<AutomationRule>,
    s: State,
    reply: Option<u16>,
    other: Option<u16>,
)
    ensures
        step(rules, s, Event::LinkSent(reply)) == step(rules, s, Event::LinkSent(other)),
{
}

proof fn lemma_link_comes_first(
    rules: Seq<AutomationRule>,
    s: State,
    events: Seq<Event>,
    issue_id: Uuid,
)
    requires
        s.wf(rules),
        ask(rules, s.phase) matches Ask::Link { link, .. } && link.issue_id == issue_id,
    ensures
        after(rules, s, events).wf(rules),
        after(rules, s, events) == s || after(rules, s, events).processed.contains(issue_id),
    decreases events.len(),
{
    if events.len() > 0 {
        let before = after(rules, s, events.drop_last());
        lemma_link_comes_first(rules, s, events.drop_last(), issue_id);
        step_keeps_wf(rules, before, events.last());
        lemma_step_keeps_knowledge(rules, before, events.last());
    }
}

/// Once the server has named the workspace that it created for an issue, no
/// workspace is created for that issue for the rest of the session.
pub proof fn workspace_is_created_once(
    rules: Seq<AutomationRule>,
    s: State,
    workspace_id: Uuid,
    events: Seq<Event>,
)
    requires
        s.wf(rules),
        s.phase matches Phase::Working { task, .. } && task is StartResponse,
    ensures
        ({
            let issue_id = s.phase->issues@[s.phase->pos as int].id;
            let created = Event::StartResponse(
                Some(ApiResponse { data: Some(workspace_id) }),
            );
            let s1 = step(rules, s, created);
            !starts_issue(ask(rules, after(rules, s1, events).phase), issue_id)
        }),
{
    let issue_id = s.phase->issues@[s.phase->pos as int].id;
    let created = Event::StartResponse(
        Some(ApiResponse { data: Some(workspace_id) }),
    );
    let s1 = step(rules, s, created);
    step_keeps_wf(rules, s, created);
    lemma_link_comes_first(rules, s1, events, issue_id);
}

/// Whether, in what a session has asked, no workspace is created for an issue
/// after one has been linked to it.
pub open spec fn creates_no_second_workspace(asked: Seq<Ask>) -> bool {
    forall|i: int, j: int|
        0 <= i < j < asked.len() && (#[trigger] asked[i] matches Ask::Link { link, .. })
            ==> !starts_issue(#[trigger] asked[j], asked[i]->link.issue_id)
}

/// Whether the issues that a session has linked are marked.
spec fn linked_are_marked(c: Snapshot) -> bool {
    forall|i: int|
        0 <= i < c.asked.len() && (#[trigger] c.asked[i] matches Ask::Link { .. })
            ==> c.state.processed.contains(c.asked[i]->link.issue_id)
}

proof fn lemma_no_second_workspace(
    rules: Seq<AutomationRule>,
    o: Outside,
    c: Snapshot,
    n: nat,
)
    requires
        is_answering(o),
        c.state.wf(rules),
        linked_are_marked(c),
        creates_no_second_workspace(c.asked),
    ensures
        creates_no_second_workspace(run(rules, o, c, n).asked),
    decreases n,
{
    if n > 0 {
        let d = next(rules, o, c);
        let event = o(d.asked);
        assert(answers(d.asked.last(), event));
        step_keeps_wf(rules, c.state, event);
        lemma_step_keeps_knowledge(rules, c.state, event);
        marked_with_the_link(rules, c.state, event);
        assert forall|i: int|
            0 <= i < d.asked.len() && (#[trigger] d.asked[i] matches Ask::Link {
                ..
            }) implies d.state.processed.contains(d.asked[i]->link.issue_id) by {
            if i < c.asked.len() {
                assert(d.asked[i] == c.asked[i]);
            }
        }
        assert forall|i: int, j: int|
            0 <= i < j < d.asked.len() && (#[trigger] d.asked[i] matches Ask::Link {
                ..
            }) implies !starts_issue(#[trigger] d.asked[j], d.asked[i]->link.issue_id) by {
            assert(d.asked[i] == c.asked[i]);
            if j < c.asked.len() {
                assert(d.asked[j] == c.asked[j]);
            } else {
                processed_issues_are_left_alone(
                    rules,
                    c.state,
                    seq![],
                    c.asked[i]->link.issue_id,
                );
            }
        }
        lemma_no_second_workspace(rules, o, d, (n - 1) as nat);
    }
}

/// However long a session runs, it creates no workspace for an issue after one
/// has been linked to it.
pub proof fn session_creates_no_second_workspace(
    rules: Seq<AutomationRule>,
    o: Outside,
    n: nat,
)
    requires
        is_answering(o),
        rules.len() <= usize::MAX,
    ensures
        creates_no_second_workspace(run(rules, o, at_first(), n).asked),
{
    lemma_no_second_workspace(rules, o, at_first(), n);
}

/// The world in which the condition `cond` is tried, if all before it hold.
pub open spec fn world_before(
    o: Outside,
    w: World,
    rule: AutomationRule,
    issue: Issue,
    cond: nat,
) -> World
    decreases cond,
{
    if cond == 0 {
        w
    } else {
        let before = (cond - 1) as nat;
        condition_holds(
            o,
            world_before(o, w, rule, issue, before),
            rule,
            issue,
            rule.conditions@[before as int],
        ).1
    }
}

/// Whether the condition `cond` holds when it is tried.
pub open spec fn holds_in_turn(
    o: Outside,
    w: World,
    rule: AutomationRule,
    issue: Issue,
    cond: nat,
) -> bool {
    condition_holds(
        o,
        world_before(o, w, rule, issue, cond),
        rule,
        issue,
        rule.conditions@[cond as int],
    ).0
}

proof fn lemma_passes_from(
    o: Outside,
    w: World,
    rule: AutomationRule,
    issue: Issue,
    cond: nat,
)
    requires
        cond <= rule.conditions@.len(),
    ensures
        ({
            let (passes, end) = passes_conditions(
                o,
                world_before(o, w, rule, issue, cond),
                rule,
                issue,
                cond as int,
            );
            &&& passes <==> forall|c: nat|
                cond <= c < rule.conditions@.len() ==> holds_in_turn(o, w, rule, issue, c)
            &&& passes ==> end == world_before(o, w, rule, issue, rule.conditions@.len())
        }),
    decreases rule.conditions@.len() - cond,
{
    if cond < rule.conditions@.len() {
        lemma_passes_from(o, w, rule, issue, cond + 1);
        assert(holds_in_turn(o, w, rule, issue, cond) == condition_holds(
            o,
            world_before(o, w, rule, issue, cond),
            rule,
            issue,
            rule.conditions@[cond as int],
        ).0);
    }
}

/// The check of an issue comes out well exactly if all conditions hold, each in its turn.
pub proof fn check_tries_all_conditions(
    o: Outside,
    w: World,
    rule: AutomationRule,
    issue: Issue,
)
    ensures
        passes_conditions(o, w, rule, issue, 0).0 <==> forall|c: nat|
            c < rule.conditions@.len() ==> holds_in_turn(o, w, rule, issue, c),
{
    lemma_passes_from(o, w, rule, issue, 0);
    assert forall|c: nat| passes_conditions(o, w, rule, issue, 0).0 && c
        < rule.conditions@.len() implies holds_in_turn(o, w, rule, issue, c) by {
        assert(0 <= c);
    }
}

/// Whether a command only reads.
pub open spec fn is_query(ask: Ask) -> bool {
    ask is Statuses || ask is Search || ask is Workspaces
}

/// Whether all that has been asked between two worlds only reads.
pub open spec fn only_queries_between(w: World, w2: World) -> bool {
    &&& w.asked.len() <= w2.asked.len()
    &&& w2.asked.take(w.asked.len() as int) == w.asked
    &&& forall|i: int|
        w.asked.len() <= i < w2.asked.len() ==> is_query(#[trigger] w2.asked[i])
    &&& w2.processed == w.processed
}

proof fn lemma_queries_then(a: World, b: World, c: World)
    requires
        only_queries_between(a, b),
        only_queries_between(b, c),
    ensures
        only_queries_between(a, c),
{
    assert(c.asked.take(a.asked.len() as int) =~= b.asked.take(a.asked.len() as int)) by {
        assert forall|i: int| 0 <= i < a.asked.len() implies c.asked[i] == b.asked[i] by {
            assert(c.asked.take(b.asked.len() as int)[i] == b.asked[i]);
        }
    }
    assert forall|i: int| a.asked.len() <= i < c.asked.len() implies is_query(
        #[trigger] c.asked[i],
    ) by {
        if i < b.asked.len() {
            assert(c.asked.take(b.asked.len() as int)[i] == b.asked[i]);
        }
    }
}

proof fn lemma_one_query(w: World, ask: Ask)
    requires
        is_query(ask),
    ensures
        only_queries_between(w, w.ask(ask)),
{
    assert(w.ask(ask).asked.take(w.asked.len() as int) =~= w.asked);
}

proof fn lemma_no_query(w: World)
    ensures
        only_queries_between(w, w),
{
    assert(w.asked.take(w.asked.len() as int) =~= w.asked);
}

proof fn lemma_resolve_queries(o: Outside, w: World, project_id: Uuid, name: Seq<char>)
    ensures
        only_queries_between(w, resolve_status_id(o, w, project_id, name).1),
{
    lemma_no_query(w);
    lemma_one_query(w, Ask::Statuses(project_id));
}

proof fn lemma_wip_queries(
    o: Outside,
    w: World,
    project_id: Uuid,
    statuses: Seq<String>,
    index: int,
    total: nat,
    counted: Set<Uuid>,
)
    ensures
        only_queries_between(w, wip_total(o, w, project_id, statuses, index, total, counted).1),
    decreases statuses.len() - index,
{
    let end = wip_total(o, w, project_id, statuses, index, total, counted).1;
    if index >= statuses.len() {
        lemma_no_query(w);
    } else {
        let (status_id, w1) = resolve_status_id(o, w, project_id, statuses[index]@);
        lemma_resolve_queries(o, w, project_id, statuses[index]@);
        if status_id is Some && !counted.contains(status_id->0) {
            let search = Ask::Search(search_in_status(project_id, status_id->0));
            let w2 = w1.ask(search);
            let (total2, counted2) = match o(w2.asked) {
                Event::Issues(Some(found)) => (
                    total + found@.len(),
                    counted.insert(status_id->0),
                ),
                _ => (total, counted),
            };
            lemma_one_query(w1, search);
            lemma_queries_then(w, w1, w2);
            lemma_wip_queries(o, w2, project_id, statuses, index + 1, total2, counted2);
            lemma_queries_then(w, w2, end);
        } else {
            lemma_wip_queries(o, w1, project_id, statuses, index + 1, total, counted);
            lemma_queries_then(w, w1, end);
        }
    }
}

/// Checking the conditions of a rule changes nothing outside and marks no
/// issue: it only fetches statuses, searches for issues and lists workspaces.
pub proof fn checks_only_query(
    o: Outside,
    w: World,
    rule: AutomationRule,
    issue: Issue,
    cond: int,
)
    requires
        0 <= cond,
    ensures
        only_queries_between(w, passes_conditions(o, w, rule, issue, cond).1),
    decreases rule.conditions@.len() - cond,
{
    if cond >= rule.conditions@.len() {
        lemma_no_query(w);
    } else {
        let condition = rule.conditions@[cond];
        let (holds, w1) = condition_holds(o, w, rule, issue, condition);
        match condition {
            AutomationCondition::NoExistingWorkspace => {
                lemma_one_query(w, Ask::Workspaces);
            },
            AutomationCondition::WipLimit { statuses, .. } => {
                lemma_wip_queries(o, w, rule.project(), statuses@, 0, 0, Set::empty());
            },
        }
        if holds {
            checks_only_query(o, w1, rule, issue, cond + 1);
            lemma_queries_then(w, w1, passes_conditions(o, w1, rule, issue, cond + 1).1);
        }
    }
}

/// A rule acts on an issue that has not been processed exactly if all its
/// conditions hold, each in its turn. Up to then it only reads.
pub proof fn acts_exactly_if_all_conditions_hold(
    o: Outside,
    w: World,
    rule: AutomationRule,
    issues: Seq<Issue>,
    pos: int,
)
    requires
        0 <= pos < issues.len(),
        !w.processed.contains(issues[pos].id),
    ensures
        ({
            let checked = passes_conditions(o, w, rule, issues[pos], 0).1;
            let all_hold = forall|c: nat|
                c < rule.conditions@.len() ==> holds_in_turn(o, w, rule, issues[pos], c);
            let done = if all_hold {
                execute_action(o, checked, rule, issues[pos])
            } else {
                checked
            };
            &&& only_queries_between(w, checked)
            &&& handle_issues(o, w, rule, issues, pos) == handle_issues(
                o,
                done,
                rule,
                issues,
                pos + 1,
            )
        }),
{
    check_tries_all_conditions(o, w, rule, issues[pos]);
    checks_only_query(o, w, rule, issues[pos], 0);
}

/// An action marks its issue, and no other, if it came as far as the link;
/// else it marks none.
pub proof fn action_marks_only_its_issue(
    o: Outside,
    w: World,
    rule: AutomationRule,
    issue: Issue,
)
    ensures
        ({
            let w2 = execute_action(o, w, rule, issue);
            w2.processed == if w2.asked.last() is Link {
                w.processed.insert(issue.id)
            } else {
                w.processed
            }
        }),
{
}

/// Whether a name before the one at `index` stands for this status.
pub open spec fn named_before(
    known: Map<Seq<char>, Uuid>,
    statuses: Seq<String>,
    index: int,
    status_id: Uuid,
) -> bool {
    exists|j: int|
        0 <= j < index && j < statuses.len() && known.get((#[trigger] statuses[j])@) == Some(
            status_id,
        )
}

/// The number of issues in the statuses from `index` on, on a board that holds
/// `count` issues in each status. A name that the project does not have counts
/// for nothing, and a status that is named more than once counts once.
pub open spec fn issues_on_board(
    known: Map<Seq<char>, Uuid>,
    count: spec_fn(Uuid) -> nat,
    statuses: Seq<String>,
    index: int,
) -> nat
    decreases statuses.len() - index,
{
    if index >= statuses.len() {
        0
    } else {
        let here = match known.get(statuses[index]@) {
            Some(status_id) => if named_before(known, statuses, index, status_id) {
                0
            } else {
                count(status_id)
            },
            None => 0,
        };
        here + issues_on_board(known, count, statuses, index + 1)
    }
}

/// Whether a search asks for all issues in one status, in no particular order.
pub open spec fn is_by_status_alone(request: SearchIssuesRequest) -> bool {
    &&& request.status_id is Some
    &&& request.status_ids is None
    &&& request.priority is None
    &&& request.parent_issue_id is None
    &&& request.search is None
    &&& request.simple_id is None
    &&& request.assignee_user_id is None
    &&& request.tag_id is None
    &&& request.tag_ids is None
    &&& request.sort_field is None
    &&& request.sort_direction is None
    &&& request.limit is None
    &&& request.offset is None
}

/// Whether the outside world answers every search for the issues of a project
/// in one status with all the issues that the board holds there.
pub open spec fn shows_board(o: Outside, project_id: Uuid, count: spec_fn(Uuid) -> nat) -> bool {
    forall|asked: Seq<Ask>|
        asked.len() > 0 && (asked.last() matches Ask::Search(request) && request.project_id
            == project_id && is_by_status_alone(request)) ==> (#[trigger] o(
            asked,
        ) matches Event::Issues(Some(found)) && found@.len() == count(
            asked.last()->Search_0.status_id->0,
        ))
}

/// Whether the statuses of a project, as far as they are known or the outside
/// world gives them, are these.
pub open spec fn has_statuses(
    o: Outside,
    w: World,
    project_id: Uuid,
    known: Map<Seq<char>, Uuid>,
) -> bool {
    &&& w.cache.contains_key(project_id) ==> w.cache[project_id] == known
    &&& forall|asked: Seq<Ask>|
        asked.len() > 0 && asked.last() == Ask::Statuses(project_id) ==> (#[trigger] o(
            asked,
        ) matches Event::Statuses(Some(list)) && status_map(list@) == known)
}

proof fn lemma_total_on_board(
    o: Outside,
    w: World,
    project_id: Uuid,
    known: Map<Seq<char>, Uuid>,
    count: spec_fn(Uuid) -> nat,
    statuses: Seq<String>,
    index: int,
    total: nat,
    counted: Set<Uuid>,
)
    requires
        has_statuses(o, w, project_id, known),
        shows_board(o, project_id, count),
        0 <= index,
        forall|id: Uuid| #[trigger]
            counted.contains(id) <==> named_before(known, statuses, index, id),
    ensures
        wip_total(o, w, project_id, statuses, index, total, counted).0 == total + issues_on_board(
            known,
            count,
            statuses,
            index,
        ),
    decreases statuses.len() - index,
{
    if index < statuses.len() {
        let fetched = w.ask(Ask::Statuses(project_id));
        assert(fetched.asked.last() == Ask::Statuses(project_id));
        assert(o(fetched.asked) matches Event::Statuses(Some(list)) && status_map(list@) == known);
        let (status_id, w1) = resolve_status_id(o, w, project_id, statuses[index]@);
        assert(status_id == known.get(statuses[index]@));
        assert(has_statuses(o, w1, project_id, known));
        let counted2 = match status_id {
            Some(status_id) => counted.insert(status_id),
            None => counted,
        };
        assert forall|id: Uuid| #[trigger] counted2.contains(id) <==> named_before(
            known,
            statuses,
            index + 1,
            id,
        ) by {
            if named_before(known, statuses, index, id) {
                let j = choose|j: int|
                    0 <= j < index && j < statuses.len() && known.get(
                        (#[trigger] statuses[j])@,
                    ) == Some(id);
                assert(known.get(statuses[j]@) == Some(id));
            }
            if status_id == Some(id) {
                assert(known.get(statuses[index]@) == Some(id));
            }
            assert(counted.contains(id) <==> named_before(known, statuses, index, id));
        }
        if status_id is Some && !counted.contains(status_id->0) {
            let search = Ask::Search(search_in_status(project_id, status_id->0));
            let w2 = w1.ask(search);
            assert(w2.asked.last() == search);
            let n = count(status_id->0);
            assert(o(w2.asked) matches Event::Issues(Some(found)) && found@.len() == n);
            lemma_total_on_board(
                o,
                w2,
                project_id,
                known,
                count,
                statuses,
                index + 1,
                total + n,
                counted2,
            );
        } else {
            assert(counted2 =~= counted);
            lemma_total_on_board(
                o,
                w1,
                project_id,
                known,
                count,
                statuses,
                index + 1,
                total,
                counted,
            );
        }
    }
}

/// A limit on work in progress holds exactly when the total number of issues
/// on the board in its statuses is below it.
pub proof fn wip_limit_counts_the_board(
    o: Outside,
    w: World,
    rule: AutomationRule,
    issue: Issue,
    known: Map<Seq<char>, Uuid>,
    count: spec_fn(Uuid) -> nat,
    max: usize,
    statuses: Vec<String>,
)
    requires
        has_statuses(o, w, rule.project(), known),
        shows_board(o, rule.project(), count),
    ensures
        condition_holds(
            o,
            w,
            rule,
            issue,
            AutomationCondition::WipLimit { max, statuses },
        ).0 <==> issues_on_board(known, count, statuses@, 0) < max,
{
    lemma_total_on_board(o, w, rule.project(), known, count, statuses@, 0, 0, Set::empty());
}

/// The rules that are enabled, in order.
pub open spec fn enabled_rules(rules: Seq<AutomationRule>) -> Seq<AutomationRule>
    decreases rules.len(),
{
    if rules.len() == 0 {
        seq![]
    } else if rules[0].enabled {
        seq![rules[0]] + enabled_rules(rules.drop_first())
    } else {
        enabled_rules(rules.drop_first())
    }
}

proof fn lemma_later_rules(o: Outside, w: World, rules: Seq<AutomationRule>, r: int)
    requires
        0 < rules.len(),
        0 <= r,
    ensures
        check_all_rules(o, w, rules, r + 1) == check_all_rules(o, w, rules.drop_first(), r),
    decreases rules.len() - r,
{
    if r + 1 < rules.len() {
        assert(rules.drop_first()[r] == rules[r + 1]);
        if rules[r + 1].enabled {
            let w1 = handle_issue_status_trigger(o, w, rules[r + 1]);
            lemma_later_rules(o, w1, rules, r + 1);
        } else {
            lemma_later_rules(o, w, rules, r + 1);
        }
    }
}

/// A round is the same without the rules that are disabled.
pub proof fn disabled_rules_do_nothing(o: Outside, w: World, rules: Seq<AutomationRule>)
    ensures
        check_all_rules(o, w, rules, 0) == check_all_rules(o, w, enabled_rules(rules), 0),
    decreases rules.len(),
{
    if rules.len() > 0 {
        let rest = rules.drop_first();
        if rules[0].enabled {
            let w1 = handle_issue_status_trigger(o, w, rules[0]);
            lemma_later_rules(o, w1, rules, 0);
            disabled_rules_do_nothing(o, w1, rest);
            let kept = enabled_rules(rules);
            lemma_later_rules(o, w1, kept, 0);
            assert(kept.drop_first() =~= enabled_rules(rest));
            assert(kept[0] == rules[0]);
        } else {
            lemma_later_rules(o, w, rules, 0);
            disabled_rules_do_nothing(o, w, rest);
        }
    }
}

/// What the agent is told tells which issue is meant.
pub proof fn prompt_names_the_issue(a: Issue, b: Issue)
    requires
        prompt(a) == prompt(b),
    ensures
        a.id == b.id,
        a.simple_id@ == b.simple_id@,
{
    reveal_strlit("處理 Issue ");
    reveal_strlit("（");
    reveal_strlit("）");
    let n = a.simple_id@.len();
    let head = "處理 Issue "@.len() as int;
    assert(hyphenated(a.id).len() == 36 && hyphenated(b.id).len() == 36);
    assert(prompt(a).len() == head + n + 38);
    assert(prompt(b).len() == head + b.simple_id@.len() + 38);
    assert(a.simple_id@ =~= prompt(a).subrange(head, head + n));
    assert(b.simple_id@ =~= prompt(b).subrange(head, head + n));
    assert(hyphenated(a.id) =~= prompt(a).subrange(head + n + 1, head + n + 37));
    assert(hyphenated(b.id) =~= prompt(b).subrange(head + n + 1, head + n + 37));
    hyphenated_is_injective(a.id, b.id);
}

} // verus!
