//! What the rules read of the remote board and of the local workspaces.

use crate::ids::Uuid;
use vstd::prelude::*;

verus! {

/// An issue of the remote board.
#[derive(Debug, Clone, PartialEq, Eq)]
pub struct Issue {
    pub id: Uuid,
    /// The short name that people use, e.g. "VK-12".
    pub simple_id: String,
}

/// A status that issues of a project can be in.
#[derive(Debug, Clone, PartialEq, Eq)]
pub struct ProjectStatus {
    pub id: Uuid,
    pub name: String,
}

/// A local workspace.
#[derive(Debug, Clone, PartialEq, Eq)]
pub struct Workspace {
    pub archived: bool,
    pub name: Option<String>,
}

/// A search for issues; a filter that is `None` is off.
#[derive(Debug, Clone, PartialEq, Eq)]
pub struct SearchIssuesRequest {
    pub project_id: Uuid,
    pub status_id: Option<Uuid>,
    pub status_ids: Option<Vec<Uuid>>,
    pub priority: Option<String>,
    pub parent_issue_id: Option<Uuid>,
    pub search: Option<String>,
    pub simple_id: Option<String>,
    pub assignee_user_id: Option<Uuid>,
    pub tag_id: Option<Uuid>,
    pub tag_ids: Option<Vec<Uuid>>,
    pub sort_field: Option<String>,
    pub sort_direction: Option<String>,
    pub limit: Option<i32>,
    pub offset: Option<i32>,
}

/// The search for all issues of a project in one status: every other filter is
/// off, and there is no limit.
pub open spec fn search_in_status(project_id: Uuid, status_id: Uuid) -> SearchIssuesRequest {
    SearchIssuesRequest {
        project_id,
        status_id: Some(status_id),
        status_ids: None,
        priority: None,
        parent_issue_id: None,
        search: None,
        simple_id: None,
        assignee_user_id: None,
        tag_id: None,
        tag_ids: None,
        sort_field: None,
        sort_direction: None,
        limit: None,
        offset: None,
    }
}

impl SearchIssuesRequest {
    /// Searches for all issues of a project in one status.
    pub fn in_status(project_id: Uuid, status_id: Uuid) -> (request: Self)
        ensures
            request == search_in_status(project_id, status_id),
            request.project_id == project_id,
            request.status_id == Some(status_id),
            request.status_ids is None,
            request.priority is None,
            request.parent_issue_id is None,
            request.search is None,
            request.simple_id is None,
            request.assignee_user_id is None,
            request.tag_id is None,
            request.tag_ids is None,
            request.sort_field is None,
            request.sort_direction is None,
            request.limit is None,
            request.offset is None,
    {
        SearchIssuesRequest {
            project_id,
            status_id: Some(status_id),
            status_ids: None,
            priority: None,
            parent_issue_id: None,
            search: None,
            simple_id: None,
            assignee_user_id: None,
            tag_id: None,
            tag_ids: None,
            sort_field: None,
            sort_direction: None,
            limit: None,
            offset: None,
        }
    }
}

/// A search that is made for a status of a project is for that status of that
/// project and nothing narrower.
pub proof fn search_is_for_the_status_asked(
    project_id: Uuid,
    status_id: Uuid,
    request: SearchIssuesRequest,
)
    requires
        call_ensures(SearchIssuesRequest::in_status, (project_id, status_id), request)
            || request == search_in_status(project_id, status_id),
    ensures
        request.project_id == project_id,
        request.status_id == Some(status_id),
        request.status_ids is None,
        request.priority is None,
        request.parent_issue_id is None,
        request.search is None,
        request.simple_id is None,
        request.assignee_user_id is None,
        request.tag_id is None,
        request.tag_ids is None,
        request.sort_field is None,
        request.sort_direction is None,
        request.limit is None,
        request.offset is None,
{
}

/// Searches for different statuses, or in different projects, differ.
pub proof fn searches_tell_statuses_apart(
    project_id: Uuid,
    status_id: Uuid,
    other_project_id: Uuid,
    other_status_id: Uuid,
)
    ensures
        search_in_status(project_id, status_id) == search_in_status(
            other_project_id,
            other_status_id,
        ) <==> project_id == other_project_id && status_id == other_status_id,
{
}

} // verus!
