use vibe_automation::issue_comments::{
    create_issue_comment, delete_issue_comment, get_issue_comment, list_issue_comments, respond,
    router, Endpoint, ListIssueCommentsQuery, Method, RemoteCall,
};

type Call = Result<(u8, RemoteCall<String>), String>;

#[test]
fn routes_are_the_four_of_issue_comments() {
    let routes: Vec<(&str, Method, Endpoint)> =
        router().into_iter().map(|route| (route.path, route.method, route.endpoint)).collect();
    assert_eq!(
        routes,
        vec![
            ("/issue-comments", Method::Get, Endpoint::ListIssueComments),
            ("/issue-comments", Method::Post, Endpoint::CreateIssueComment),
            ("/issue-comments/{issue_comment_id}", Method::Get, Endpoint::GetIssueComment),
            ("/issue-comments/{issue_comment_id}", Method::Delete, Endpoint::DeleteIssueComment),
        ]
    );
}

#[test]
fn calls_carry_what_was_asked() {
    let list: Call = list_issue_comments(Ok(1), ListIssueCommentsQuery { issue_id: 9 });
    assert_eq!(list, Ok((1, RemoteCall::ListIssueComments { issue_id: 9 })));
    let get: Call = get_issue_comment(Ok(1), 4);
    assert_eq!(get, Ok((1, RemoteCall::GetIssueComment { issue_comment_id: 4 })));
    let create: Call = create_issue_comment(Ok(1), "hello".to_string());
    assert_eq!(create, Ok((1, RemoteCall::CreateIssueComment { request: "hello".to_string() })));
    let delete: Call = delete_issue_comment(Ok(1), 4);
    assert_eq!(delete, Ok((1, RemoteCall::DeleteIssueComment { issue_comment_id: 4 })));
}

#[test]
fn without_a_client_the_error_is_the_reply() {
    let none = || Err("no remote".to_string());
    let list: Call = list_issue_comments(none(), ListIssueCommentsQuery { issue_id: 9 });
    let get: Call = get_issue_comment(none(), 4);
    let create: Call = create_issue_comment(none(), "hello".to_string());
    let delete: Call = delete_issue_comment(none(), 4);
    for call in [list, get, create, delete] {
        assert_eq!(call, Err("no remote".to_string()));
    }
}

#[test]
fn replies_are_handed_on() {
    let reply: Result<u8, String> = Ok(5);
    assert_eq!(respond(reply).unwrap().data, 5);
    let reply: Result<(), String> = Ok(());
    assert_eq!(respond(reply).unwrap().data, ());
    let reply: Result<u8, String> = Err("gone".to_string());
    assert_eq!(respond(reply), Err("gone".to_string()));
}
