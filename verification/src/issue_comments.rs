//! The routes of the local server that hand issue comments through to the
//! remote board.

use crate::ids::Uuid;
use vstd::prelude::*;

verus! {

/// The HTTP methods that the routes use.
#[derive(Debug, Clone, Copy, PartialEq, Eq)]
pub enum Method {
    Get,
    Post,
    Delete,
}

/// What the routes lead to.
#[derive(Debug, Clone, Copy, PartialEq, Eq)]
pub enum Endpoint {
    ListIssueComments,
    CreateIssueComment,
    GetIssueComment,
    DeleteIssueComment,
}

/// A route: a path, whose parts in braces stand for any text, and a method.
#[derive(Debug, Clone, Copy, PartialEq, Eq)]
pub struct Route {
    pub path: &'static str,
    pub method: Method,
    pub endpoint: Endpoint,
}

impl Route {
    /// Whether this is the route from a path and a method to an endpoint.
    pub open spec fn is(self, path: Seq<char>, method: Method, endpoint: Endpoint) -> bool {
        &&& self.path@ == path
        &&& self.method == method
        &&& self.endpoint == endpoint
    }
}

/// The query of a request for the comments on an issue.
#[derive(Debug, Clone, Copy, PartialEq, Eq)]
pub struct ListIssueCommentsQuery {
    pub issue_id: Uuid,
}

/// A call to the remote board. `R` is the text of a new comment and what goes with it.
#[derive(Debug, Clone, PartialEq, Eq)]
pub enum RemoteCall<R> {
    ListIssueComments { issue_id: Uuid },
    GetIssueComment { issue_comment_id: Uuid },
    CreateIssueComment { request: R },
    DeleteIssueComment { issue_comment_id: Uuid },
}

/// The reply that reports success and carries `data`. How it is written out is
/// left to the server.
#[derive(Debug, Clone, PartialEq, Eq)]
pub struct Success<T> {
    pub data: T,
}

/// The call is made with the client, if there is one; else the error that says
/// why there is none is the reply, and no call is made.
pub open spec fn call_with<C, R, E>(client: Result<C, E>, call: RemoteCall<R>) -> Result<
    (C, RemoteCall<R>),
    E,
> {
    match client {
        Ok(client) => Ok((client, call)),
        Err(error) => Err(error),
    }
}

/// The routes for issue comments.
pub fn router() -> (routes: Vec<Route>)
    ensures
        routes@.len() == 4,
        routes@[0].is("/issue-comments"@, Method::Get, Endpoint::ListIssueComments),
        routes@[1].is("/issue-comments"@, Method::Post, Endpoint::CreateIssueComment),
        routes@[2].is(
            "/issue-comments/{issue_comment_id}"@,
            Method::Get,
            Endpoint::GetIssueComment,
        ),
        routes@[3].is(
            "/issue-comments/{issue_comment_id}"@,
            Method::Delete,
            Endpoint::DeleteIssueComment,
        ),
{
    let mut routes: Vec<Route> = Vec::new();
    routes.push(
        Route {
            path: "/issue-comments",
            method: Method::Get,
            endpoint: Endpoint::ListIssueComments,
        },
    );
    routes.push(
        Route {
            path: "/issue-comments",
            method: Method::Post,
            endpoint: Endpoint::CreateIssueComment,
        },
    );
    routes.push(
        Route {
            path: "/issue-comments/{issue_comment_id}",
            method: Method::Get,
            endpoint: Endpoint::GetIssueComment,
        },
    );
    routes.push(
        Route {
            path: "/issue-comments/{issue_comment_id}",
            method: Method::Delete,
            endpoint: Endpoint::DeleteIssueComment,
        },
    );
    routes
}

/// Decides the call for a request for the comments on an issue.
pub fn list_issue_comments<C, R, E>(
    client: Result<C, E>,
    query: ListIssueCommentsQuery,
) -> (call: Result<(C, RemoteCall<R>), E>)
    ensures
        call == call_with(client, RemoteCall::<R>::ListIssueComments { issue_id: query.issue_id }),
        client is Err ==> call is Err && call->Err_0 == client->Err_0,
        client is Ok ==> call is Ok && call->Ok_0.0 == client->Ok_0,
        client is Ok ==> call->Ok_0.1 is ListIssueComments,
        client is Ok ==> call->Ok_0.1->issue_id == query.issue_id,
{
    match client {
        Ok(client) => Ok((client, RemoteCall::ListIssueComments { issue_id: query.issue_id })),
        Err(error) => Err(error),
    }
}

/// Decides the call for a request for one comment.
pub fn get_issue_comment<C, R, E>(
    client: Result<C, E>,
    issue_comment_id: Uuid,
) -> (call: Result<(C, RemoteCall<R>), E>)
    ensures
        call == call_with(client, RemoteCall::<R>::GetIssueComment { issue_comment_id }),
        client is Err ==> call is Err && call->Err_0 == client->Err_0,
        client is Ok ==> call is Ok && call->Ok_0.0 == client->Ok_0,
        client is Ok ==> call->Ok_0.1 is GetIssueComment,
        client is Ok ==> call->Ok_0.1->GetIssueComment_issue_comment_id == issue_comment_id,
{
    match client {
        Ok(client) => Ok((client, RemoteCall::GetIssueComment { issue_comment_id })),
        Err(error) => Err(error),
    }
}

/// Decides the call for a request to add a comment.
pub fn create_issue_comment<C, R, E>(
    client: Result<C, E>,
    request: R,
) -> (call: Result<(C, RemoteCall<R>), E>)
    ensures
        call == call_with(client, RemoteCall::CreateIssueComment { request }),
        client is Err ==> call is Err && call->Err_0 == client->Err_0,
        client is Ok ==> call is Ok && call->Ok_0.0 == client->Ok_0,
        client is Ok ==> call->Ok_0.1 is CreateIssueComment,
        client is Ok ==> call->Ok_0.1->request == request,
{
    match client {
        Ok(client) => Ok((client, RemoteCall::CreateIssueComment { request })),
        Err(error) => Err(error),
    }
}

/// Decides the call for a request to delete a comment.
pub fn delete_issue_comment<C, R, E>(
    client: Result<C, E>,
    issue_comment_id: Uuid,
) -> (call: Result<(C, RemoteCall<R>), E>)
    ensures
        call == call_with(client, RemoteCall::<R>::DeleteIssueComment { issue_comment_id }),
        client is Err ==> call is Err && call->Err_0 == client->Err_0,
        client is Ok ==> call is Ok && call->Ok_0.0 == client->Ok_0,
        client is Ok ==> call->Ok_0.1 is DeleteIssueComment,
        client is Ok ==> call->Ok_0.1->DeleteIssueComment_issue_comment_id == issue_comment_id,
{
    match client {
        Ok(client) => Ok((client, RemoteCall::DeleteIssueComment { issue_comment_id })),
        Err(error) => Err(error),
    }
}

/// The reply to a request whose call has come back: success with what the
/// remote board gave, or its error.
pub fn respond<T, E>(reply: Result<T, E>) -> (response: Result<Success<T>, E>)
    ensures
        response == (match reply {
            Ok(data) => Ok(Success { data }),
            Err(error) => Err(error),
        }),
{
    match reply {
        Ok(data) => Ok(Success { data }),
        Err(error) => Err(error),
    }
}

/// A request for the comments on an issue asks the remote board for the comments
/// on that issue, with the client at hand; without a client its error is the reply.
pub proof fn comments_are_listed_for_the_issue<C, R, E>(
    client: Result<C, E>,
    query: ListIssueCommentsQuery,
    call: Result<(C, RemoteCall<R>), E>,
)
    requires
        call_ensures(list_issue_comments::<C, R, E>, (client, query), call),
    ensures
        client matches Ok(c) ==> call == Ok::<(C, RemoteCall<R>), E>(
            (c, RemoteCall::ListIssueComments { issue_id: query.issue_id }),
        ),
        client matches Err(e) ==> call == Err::<(C, RemoteCall<R>), E>(e),
{
}

/// A request for a comment asks the remote board for that comment.
pub proof fn comment_is_got_by_its_id<C, R, E>(
    client: Result<C, E>,
    issue_comment_id: Uuid,
    call: Result<(C, RemoteCall<R>), E>,
)
    requires
        call_ensures(get_issue_comment::<C, R, E>, (client, issue_comment_id), call),
    ensures
        client matches Ok(c) ==> call == Ok::<(C, RemoteCall<R>), E>(
            (c, RemoteCall::GetIssueComment { issue_comment_id }),
        ),
        client matches Err(e) ==> call == Err::<(C, RemoteCall<R>), E>(e),
{
}

/// A request to add a comment hands the comment to the remote board as it is.
pub proof fn comment_is_created_as_given<C, R, E>(
    client: Result<C, E>,
    request: R,
    call: Result<(C, RemoteCall<R>), E>,
)
    requires
        call_ensures(create_issue_comment::<C, R, E>, (client, request), call),
    ensures
        client matches Ok(c) ==> call == Ok::<(C, RemoteCall<R>), E>(
            (c, RemoteCall::CreateIssueComment { request }),
        ),
        client matches Err(e) ==> call == Err::<(C, RemoteCall<R>), E>(e),
{
}

/// A request to delete a comment has the remote board delete that comment.
pub proof fn comment_is_deleted_by_its_id<C, R, E>(
    client: Result<C, E>,
    issue_comment_id: Uuid,
    call: Result<(C, RemoteCall<R>), E>,
)
    requires
        call_ensures(delete_issue_comment::<C, R, E>, (client, issue_comment_id), call),
    ensures
        client matches Ok(c) ==> call == Ok::<(C, RemoteCall<R>), E>(
            (c, RemoteCall::DeleteIssueComment { issue_comment_id }),
        ),
        client matches Err(e) ==> call == Err::<(C, RemoteCall<R>), E>(e),
{
}

/// Requests for different issues make different calls: the issue that is asked
/// for can be told from the call.
pub proof fn calls_tell_issues_apart<C, R, E>(
    client: C,
    query: ListIssueCommentsQuery,
    other: ListIssueCommentsQuery,
    call: Result<(C, RemoteCall<R>), E>,
)
    requires
        call_ensures(list_issue_comments::<C, R, E>, (Ok(client), query), call),
        call_ensures(list_issue_comments::<C, R, E>, (Ok(client), other), call),
    ensures
        query.issue_id == other.issue_id,
{
}

/// A call is made with the client and as it was decided, or not at all.
pub proof fn calls_are_not_rewritten<C, R, E>(client: Result<C, E>, call: RemoteCall<R>)
    ensures
        client matches Ok(c) ==> call_with(client, call) == Ok::<(C, RemoteCall<R>), E>((c, call)),
        client matches Err(e) ==> call_with(client, call) == Err::<(C, RemoteCall<R>), E>(e),
{
}

/// What the remote board replied is the reply, and its error is the error.
pub proof fn reply_is_handed_on<T, E>(reply: Result<T, E>, response: Result<Success<T>, E>)
    requires
        call_ensures(respond::<T, E>, (reply,), response),
    ensures
        reply matches Ok(data) ==> response is Ok && response->Ok_0.data == data,
        reply matches Err(error) ==> response is Err && response->Err_0 == error,
{
}

} // verus!
