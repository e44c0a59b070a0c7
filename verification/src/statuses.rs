//! Status names and the identifiers they stand for.

use crate::board::ProjectStatus;
use crate::ids::Uuid;
use std::collections::HashMap;
use vstd::prelude::*;

verus! {

broadcast use vstd::std_specs::hash::group_hash_axioms;

/// The names in a list of statuses, each with its identifier. Of two entries
/// with one name the later one counts.
pub open spec fn status_map(list: Seq<ProjectStatus>) -> Map<Seq<char>, Uuid>
    decreases list.len(),
{
    if list.len() == 0 {
        Map::empty()
    } else {
        status_map(list.drop_last()).insert(list.last().name@, list.last().id)
    }
}

/// A name stands for the identifier of the last entry that carries it.
pub proof fn last_entry_counts(list: Seq<ProjectStatus>, i: int)
    requires
        0 <= i < list.len(),
        forall|j: int| i < j < list.len() ==> (#[trigger] list[j]).name@ != list[i].name@,
    ensures
        status_map(list).get(list[i].name@) == Some(list[i].id),
    decreases list.len(),
{
    if i < list.len() - 1 {
        last_entry_counts(list.drop_last(), i);
        assert(list.last() == list[list.len() - 1]);
    }
}

/// A name that no entry carries stands for nothing.
pub proof fn absent_name_is_unknown(list: Seq<ProjectStatus>, name: Seq<char>)
    requires
        forall|j: int| 0 <= j < list.len() ==> (#[trigger] list[j]).name@ != name,
    ensures
        status_map(list).get(name) is None,
    decreases list.len(),
{
    if list.len() > 0 {
        absent_name_is_unknown(list.drop_last(), name);
        assert(list.last() == list[list.len() - 1]);
    }
}

/// The statuses of one project.
#[derive(Debug)]
pub struct StatusTable {
    statuses: Vec<ProjectStatus>,
}

impl View for StatusTable {
    type V = Map<Seq<char>, Uuid>;

    closed spec fn view(&self) -> Map<Seq<char>, Uuid> {
        status_map(self.statuses@)
    }
}

impl StatusTable {
    /// The table of a list of statuses.
    pub fn new(statuses: Vec<ProjectStatus>) -> (table: Self)
        ensures
            table@ == status_map(statuses@),
    {
        StatusTable { statuses }
    }

    /// The identifier that a status name stands for.
    pub fn get(&self, name: &String) -> (id: Option<Uuid>)
        ensures
            id == self@.get(name@),
    {
        let mut i: usize = self.statuses.len();
        while i > 0
            invariant
                i <= self.statuses@.len(),
                forall|j: int|
                    i <= j < self.statuses@.len() ==> (#[trigger] self.statuses@[j]).name@ != name@,
            decreases i,
        {
            i -= 1;
            if self.statuses[i].name == *name {
                proof {
                    last_entry_counts(self.statuses@, i as int);
                }
                return Some(self.statuses[i].id);
            }
        }
        proof {
            absent_name_is_unknown(self.statuses@, name@);
        }
        None
    }
}

/// What the cache knows of a status name.
#[derive(Debug, Clone, Copy, PartialEq, Eq)]
pub enum StatusLookup {
    /// The statuses of the project are known: what the name stands for, if anything.
    Known(Option<Uuid>),
    /// The statuses of the project have not been fetched.
    Unfetched,
}

/// What a cache with these contents knows of a status name.
pub open spec fn lookup(
    cache: Map<Uuid, Map<Seq<char>, Uuid>>,
    project_id: Uuid,
    name: Seq<char>,
) -> StatusLookup {
    if cache.contains_key(project_id) {
        StatusLookup::Known(cache[project_id].get(name))
    } else {
        StatusLookup::Unfetched
    }
}

/// The statuses of the projects asked for so far: project, then status name,
/// to status identifier.
#[derive(Debug)]
pub struct StatusCache {
    projects: HashMap<Uuid, StatusTable>,
}

impl View for StatusCache {
    type V = Map<Uuid, Map<Seq<char>, Uuid>>;

    closed spec fn view(&self) -> Map<Uuid, Map<Seq<char>, Uuid>> {
        self.projects@.map_values(|table: StatusTable| table@)
    }
}

impl StatusCache {
    /// A cache that knows no project.
    pub fn new() -> (cache: Self)
        ensures
            cache@ == Map::<Uuid, Map<Seq<char>, Uuid>>::empty(),
    {
        let cache = StatusCache { projects: HashMap::new() };
        assert(cache@ =~= Map::empty());
        cache
    }

    /// What the cache knows of a status name of a project.
    pub fn lookup(&self, project_id: Uuid, name: &String) -> (found: StatusLookup)
        ensures
            found == lookup(self@, project_id, name@),
            !self@.contains_key(project_id) ==> found is Unfetched,
            self@.contains_key(project_id) ==> found == StatusLookup::Known(
                self@[project_id].get(name@),
            ),
    {
        match self.projects.get(&project_id) {
            Some(table) => StatusLookup::Known(table.get(name)),
            None => StatusLookup::Unfetched,
        }
    }

    /// Keeps the statuses of a project.
    pub fn store(&mut self, project_id: Uuid, statuses: Vec<ProjectStatus>)
        ensures
            final(self)@ == old(self)@.insert(project_id, status_map(statuses@)),
    {
        self.projects.insert(project_id, StatusTable::new(statuses));
        assert(self@ =~= old(self)@.insert(project_id, status_map(statuses@)));
    }
}

/// What is kept for a project is what is looked up there: a name stands for the
/// identifier of the last status that carries it, if one does, and nothing
/// changes for any other project.
pub proof fn kept_statuses_are_looked_up(
    cache: Map<Uuid, Map<Seq<char>, Uuid>>,
    project_id: Uuid,
    list: Seq<ProjectStatus>,
    name: Seq<char>,
    other_project_id: Uuid,
)
    ensures
        ({
            let found = lookup(cache.insert(project_id, status_map(list)), project_id, name);
            &&& forall|i: int|
                0 <= i < list.len() && (#[trigger] list[i]).name@ == name && (forall|j: int|
                    i < j < list.len() ==> (#[trigger] list[j]).name@ != name) ==> found
                    == StatusLookup::Known(Some(list[i].id))
            &&& (forall|i: int| 0 <= i < list.len() ==> (#[trigger] list[i]).name@ != name)
                ==> found == StatusLookup::Known(None)
        }),
        other_project_id != project_id ==> lookup(
            cache.insert(project_id, status_map(list)),
            other_project_id,
            name,
        ) == lookup(cache, other_project_id, name),
        !cache.contains_key(project_id) ==> lookup(cache, project_id, name) is Unfetched,
        cache.contains_key(project_id) ==> lookup(cache, project_id, name) == StatusLookup::Known(
            cache[project_id].get(name),
        ),
{
    assert forall|i: int|
        0 <= i < list.len() && (#[trigger] list[i]).name@ == name && (forall|j: int|
            i < j < list.len() ==> (#[trigger] list[j]).name@ != name) implies status_map(list).get(
        name,
    ) == Some(list[i].id) by {
        last_entry_counts(list, i);
    }
    if forall|i: int| 0 <= i < list.len() ==> (#[trigger] list[i]).name@ != name {
        absent_name_is_unknown(list, name);
    }
}

} // verus!
