//! The conditions that guard a rule's action.

use crate::board::Workspace;
use crate::ids::Uuid;
use vstd::prelude::*;

verus! {

/// Whether a workspace is in use under this name.
pub open spec fn is_active_as(workspace: Workspace, name: Seq<char>) -> bool {
    &&& !workspace.archived
    &&& workspace.name matches Some(own) && own@ == name
}

/// Whether a non-archived workspace carries this name.
pub open spec fn has_active_workspace(workspaces: Seq<Workspace>, name: Seq<char>) -> bool {
    exists|i: int| 0 <= i < workspaces.len() && is_active_as(#[trigger] workspaces[i], name)
}

/// Tests whether a non-archived workspace carries this name.
pub fn find_active_workspace(workspaces: &Vec<Workspace>, name: &String) -> (found: bool)
    ensures
        found == has_active_workspace(workspaces@, name@),
        found <==> exists|i: int|
            0 <= i < workspaces@.len() && !(#[trigger] workspaces@[i]).archived
                && workspaces@[i].name is Some && workspaces@[i].name->0@ == name@,
{
    for i in 0..workspaces.len()
        invariant
            forall|j: int| 0 <= j < i ==> !is_active_as(#[trigger] workspaces@[j], name@),
    {
        if !workspaces[i].archived {
            if let Some(own) = &workspaces[i].name {
                if *own == *name {
                    assert(is_active_as(workspaces@[i as int], name@));
                    return true;
                }
            }
        }
    }
    false
}

/// A workspace that is in use under the name, wherever it is in the list, is found.
pub proof fn active_workspace_is_found(
    workspaces: Vec<Workspace>,
    name: String,
    found: bool,
    i: int,
)
    requires
        call_ensures(find_active_workspace, (&workspaces, &name), found),
        0 <= i < workspaces@.len(),
        !workspaces@[i].archived,
        workspaces@[i].name is Some,
        workspaces@[i].name->0@ == name@,
    ensures
        found,
{
}

/// Where each workspace is archived or goes by another name or none, none is found.
pub proof fn other_workspaces_are_not_found(
    workspaces: Vec<Workspace>,
    name: String,
    found: bool,
)
    requires
        call_ensures(find_active_workspace, (&workspaces, &name), found),
        forall|i: int|
            0 <= i < workspaces@.len() ==> (#[trigger] workspaces@[i]).archived
                || workspaces@[i].name is None || workspaces@[i].name->0@ != name@,
    ensures
        !found,
{
}

/// A workspace more in the list, at either end, is found on top of what was found before.
pub proof fn workspaces_are_looked_at_one_by_one(
    workspaces: Seq<Workspace>,
    more: Workspace,
    name: Seq<char>,
)
    ensures
        has_active_workspace(workspaces.push(more), name) <==> has_active_workspace(
            workspaces,
            name,
        ) || (!more.archived && more.name is Some && more.name->0@ == name),
        has_active_workspace(seq![more] + workspaces, name) <==> has_active_workspace(
            workspaces,
            name,
        ) || (!more.archived && more.name is Some && more.name->0@ == name),
        !has_active_workspace(seq![], name),
{
    let back = workspaces.push(more);
    let front = seq![more] + workspaces;
    assert(back[workspaces.len() as int] == more);
    assert(front[0] == more);
    assert forall|i: int| 0 <= i < workspaces.len() implies #[trigger] workspaces[i] == back[i]
        && workspaces[i] == front[i + 1] by {}
    if has_active_workspace(front, name) {
        let i = choose|i: int| 0 <= i < front.len() && is_active_as(#[trigger] front[i], name);
        if i > 0 {
            assert(workspaces[i - 1] == front[i]);
        }
    }
}

/// Statuses, in no particular order.
#[derive(Debug, PartialEq, Eq)]
pub enum StatusList {
    Empty,
    With { status_id: Uuid, rest: Box<StatusList> },
}

impl StatusList {
    /// The statuses in the list.
    pub open spec fn ids(self) -> Set<Uuid>
        decreases self,
    {
        match self {
            StatusList::Empty => Set::empty(),
            StatusList::With { status_id, rest } => rest.ids().insert(status_id),
        }
    }

    /// Tests whether a status is in the list.
    pub fn contains(&self, id: Uuid) -> (found: bool)
        ensures
            found == self.ids().contains(id),
            *self is Empty ==> !found,
    {
        let mut list = self;
        loop
            invariant
                self.ids().contains(id) == list.ids().contains(id),
            decreases list,
        {
            match list {
                StatusList::Empty => {
                    return false;
                },
                StatusList::With { status_id, rest } => {
                    if *status_id == id {
                        return true;
                    }
                    list = &**rest;
                },
            }
        }
    }
}

/// What has been counted so far for a limit on work in progress.
#[derive(Debug, PartialEq, Eq)]
pub struct WipCount {
    /// The number of issues, or the largest number there is if they are more.
    pub issues: usize,
    /// The statuses whose issues are in that number.
    pub statuses: StatusList,
}

/// The sum of two counts, or the largest count if the sum is larger.
pub open spec fn capped_sum(a: nat, b: nat) -> usize {
    if a + b <= usize::MAX {
        (a + b) as usize
    } else {
        usize::MAX
    }
}

impl WipCount {
    /// Nothing has been counted.
    pub open spec fn none() -> WipCount {
        WipCount { issues: 0, statuses: StatusList::Empty }
    }

    /// The issues of one more status have been counted.
    pub open spec fn plus(self, status_id: Uuid, issues: nat) -> WipCount {
        WipCount {
            issues: capped_sum(self.issues as nat, issues),
            statuses: StatusList::With { status_id, rest: Box::new(self.statuses) },
        }
    }

    /// Starts counting.
    pub fn new() -> (count: Self)
        ensures
            count == WipCount::none(),
            count.issues == 0,
            count.statuses is Empty,
    {
        WipCount { issues: 0, statuses: StatusList::Empty }
    }

    /// Counts the issues of one more status.
    pub fn add_status(self, status_id: Uuid, issues: usize) -> (count: Self)
        ensures
            count == self.plus(status_id, issues as nat),
            self.issues + issues <= usize::MAX ==> count.issues == self.issues + issues,
            self.issues + issues > usize::MAX ==> count.issues == usize::MAX,
            forall|id: Uuid| #[trigger]
                count.statuses.ids().contains(id) <==> id == status_id
                    || self.statuses.ids().contains(id),
    {
        WipCount {
            issues: self.issues.saturating_add(issues),
            statuses: StatusList::With { status_id, rest: Box::new(self.statuses) },
        }
    }
}

/// A list holds its first status and those of the rest, and an empty one holds none.
pub proof fn list_holds_its_statuses(status_id: Uuid, rest: StatusList, id: Uuid)
    ensures
        (StatusList::With { status_id, rest: Box::new(rest) }).ids().contains(id) <==> id
            == status_id || rest.ids().contains(id),
        !StatusList::Empty.ids().contains(id),
{
}

/// A count adds up, up to the largest number there is, and remembers the
/// statuses that are in it.
pub proof fn count_adds_up(
    count: WipCount,
    status_id: Uuid,
    issues: usize,
    more: WipCount,
    id: Uuid,
)
    requires
        call_ensures(WipCount::add_status, (count, status_id, issues), more),
    ensures
        more == count.plus(status_id, issues as nat),
        count.issues + issues <= usize::MAX ==> more.issues == count.issues + issues,
        count.issues + issues > usize::MAX ==> more.issues == usize::MAX,
        more.statuses.ids().contains(id) <==> id == status_id || count.statuses.ids().contains(id),
{
}

} // verus!
