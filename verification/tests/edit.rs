use ticgit::edit::check_csrf;
use ticgit::edit::edit_response;
use ticgit::edit::handle_assign;
use ticgit::edit::handle_comment;
use ticgit::edit::handle_parsed_state;
use ticgit::edit::handle_priority;
use ticgit::edit::handle_state;
use ticgit::edit::handle_tags;
use ticgit::edit::post_is_readable;
use ticgit::edit::redirect_to_detail;
use ticgit::edit::redirect_with_error;
use ticgit::edit::route_post;
use ticgit::edit::tag_changes;
use ticgit::edit::Edit;
use ticgit::edit::Step;
use ticgit::edit::TagChange;
use ticgit::page::Server;
use ticgit::query::TicketLifecycle;
use ticgit::request::parse_request_line;
use ticgit::request::Request;
use ticgit::response::Response;
use ticgit::ticket::TicketState;
use ticgit::ticket::TicketStatus;

fn server() -> Server {
    Server {
        edit: true,
        csrf: "test-csrf".to_string(),
    }
}

fn post(target: &str, body: &str) -> Request {
    let mut req = parse_request_line(&format!("POST {target} HTTP/1.1\r\n")).unwrap();
    req.body = body.as_bytes().to_vec();
    req
}

fn reply(step: Step) -> Response {
    match step {
        Step::Reply { response } => response,
        other => panic!("no reply: {other:?}"),
    }
}

fn applied(step: Step) -> (String, Edit) {
    match step {
        Step::Apply { reference, edit } => (reference, edit),
        other => panic!("no change: {other:?}"),
    }
}

#[test]
fn csrf_mismatch_is_rejected_with_error_redirect() {
    let server = server();
    let req = post("/t/abc/comment", "body=hi&csrf=wrong");
    let resp = reply(route_post(&req, &server));
    assert_eq!(resp.status, 303);
    assert!(resp.location.as_deref().unwrap().contains("error="));
}

#[test]
fn unknown_action_redirects_with_error() {
    let server = server();
    let req = post("/t/abc/frobnicate", "csrf=test-csrf");
    let resp = reply(route_post(&req, &server));
    assert_eq!(resp.status, 303);
    assert!(resp
        .location
        .as_deref()
        .unwrap()
        .contains("unknown%20edit%20action"));
    assert_eq!(
        resp.location.as_deref(),
        Some("/t/abc?error=unknown%20edit%20action%20%60frobnicate%60")
    );
}

#[test]
fn bare_ticket_post_is_405() {
    let server = server();
    let req = post("/t/abc", "csrf=test-csrf");
    let resp = reply(route_post(&req, &server));
    assert_eq!(resp.status, 405);
}

#[test]
fn check_csrf_matches_server_token() {
    let server = server();
    let req = post("/t/abc/comment", "csrf=test-csrf");
    assert!(check_csrf(&req, &server));
    let req = post("/t/abc/comment", "csrf=nope");
    assert!(!check_csrf(&req, &server));
    let req = post("/t/abc/comment", "");
    assert!(!check_csrf(&req, &server));
}

#[test]
fn posts_elsewhere_say_what_is_missing() {
    let server = server();
    let page = |target: &str| {
        let resp = reply(route_post(&post(target, "csrf=test-csrf"), &server));
        assert_eq!(resp.status, 405);
        String::from_utf8(resp.body).unwrap()
    };
    assert!(page("/t/").contains("POST is only allowed on /t/&lt;id&gt;/&lt;action&gt;."));
    assert!(page("/x").contains("POST is only allowed on /t/&lt;id&gt;/&lt;action&gt;."));
    assert!(page("/t/abc").contains("POST needs an action, e.g. /t/&lt;id&gt;/comment."));
}

#[test]
fn the_last_slash_parts_reference_and_action() {
    let (reference, edit) = applied(route_post(
        &post("/t/a/b/assign", "assigned=me&csrf=test-csrf"),
        &server(),
    ));
    assert_eq!(reference, "a/b");
    assert_eq!(
        edit,
        Edit::Assign {
            assigned: Some("me".to_string())
        }
    );
}

#[test]
fn comments_need_a_body() {
    let (reference, edit) = applied(route_post(
        &post("/t/abc/comment", "body=+hello+world+&csrf=test-csrf"),
        &server(),
    ));
    assert_eq!(reference, "abc");
    assert_eq!(
        edit,
        Edit::Comment {
            body: "hello world".to_string()
        }
    );
    let resp = reply(handle_comment(&post("/t/abc/comment", "body=++"), "abc"));
    assert_eq!(
        resp.location.as_deref(),
        Some("/t/abc?error=comment%20body%20cannot%20be%20empty")
    );
}

#[test]
fn states_are_read_before_they_are_set() {
    match handle_state(&post("/t/abc/state", "state=open%3Areview"), "abc") {
        Step::ParseState { reference, spec } => {
            assert_eq!(reference, "abc");
            assert_eq!(spec, "open:review");
        }
        other => panic!("unexpected: {other:?}"),
    }
    let resp = reply(handle_state(&post("/t/abc/state", ""), "abc"));
    assert_eq!(
        resp.location.as_deref(),
        Some("/t/abc?error=no%20state%20provided")
    );
    let lifecycle = TicketLifecycle {
        status: TicketStatus::Open,
        state: TicketState {
            name: "review".to_string(),
            status: TicketStatus::Open,
        },
    };
    let (reference, edit) = applied(handle_parsed_state("abc", Ok(lifecycle.clone())));
    assert_eq!(reference, "abc");
    assert_eq!(edit, Edit::State { lifecycle });
    let resp = reply(handle_parsed_state("abc", Err("what?".to_string())));
    assert_eq!(resp.location.as_deref(), Some("/t/abc?error=what%3F"));
}

#[test]
fn an_empty_assignee_clears_it() {
    let (_, edit) = applied(handle_assign(&post("/t/abc/assign", "assigned="), "abc"));
    assert_eq!(edit, Edit::Assign { assigned: None });
}

#[test]
fn priorities_are_numbers_or_cleared() {
    let set = |body: &str| handle_priority(&post("/t/abc/priority", body), "abc");
    let (_, edit) = applied(set("priority=-7"));
    assert_eq!(edit, Edit::Priority { priority: Some(-7) });
    let (_, edit) = applied(set("priority=%2B3"));
    assert_eq!(edit, Edit::Priority { priority: Some(3) });
    let (_, edit) = applied(set("priority="));
    assert_eq!(edit, Edit::Priority { priority: None });
    for bad in ["priority=high", "priority=9223372036854775808", "priority=-"] {
        assert_eq!(
            reply(set(bad)).location.as_deref(),
            Some("/t/abc?error=priority%20must%20be%20a%20number")
        );
    }
}

fn add(tag: &str) -> TagChange {
    TagChange::Add {
        tag: tag.to_string(),
    }
}

fn remove(tag: &str) -> TagChange {
    TagChange::Remove {
        tag: tag.to_string(),
    }
}

#[test]
fn tags_are_added_before_others_are_removed() {
    let posted = |body: &str| applied(handle_tags(&post("/t/abc/tags", body), "abc")).1;
    assert_eq!(
        posted("remove=bug&add=ui"),
        Edit::Tags {
            changes: vec![add("ui"), remove("bug")]
        }
    );
    assert_eq!(
        posted("add=bug&remove=bug"),
        Edit::Tags {
            changes: vec![add("bug"), remove("bug")]
        }
    );
    assert_eq!(
        posted("add=+"),
        Edit::Tags {
            changes: Vec::new()
        }
    );
    assert_eq!(tag_changes(Some("x".to_string()), None), vec![add("x")]);
    assert_eq!(tag_changes(None, Some("x".to_string())), vec![remove("x")]);
    assert!(tag_changes(None, None).is_empty());
}

#[test]
fn outcomes_lead_back_with_a_message_where_they_failed() {
    let done = edit_response("abc", &Ok(()));
    assert_eq!(done.status, 303);
    assert_eq!(done.location.as_deref(), Some("/t/abc"));
    assert_eq!(done, redirect_to_detail("abc"));
    let failed = edit_response("abc", &Err("store is <locked>".to_string()));
    assert_eq!(failed.status, 303);
    assert_eq!(
        failed.location.as_deref(),
        Some("/t/abc?error=store%20is%20%3Clocked%3E")
    );
}

#[test]
fn an_error_redirect_leads_to_the_page_with_the_message() {
    let message = "priority must be a number: 50% & more?";
    let resp = redirect_with_error("d7f2d8", message);
    let location = resp.location.unwrap();
    let req = parse_request_line(&format!("GET {location} HTTP/1.1\r\n")).unwrap();
    assert_eq!(req.path, "/t/d7f2d8");
    assert_eq!(req.param("error"), Some(message));
    assert_eq!(req.params.len(), 1);
    let location = redirect_with_error("größe", "x").location.unwrap();
    let req = parse_request_line(&format!("GET {location} HTTP/1.1\r\n")).unwrap();
    assert_eq!(req.path, "/t/größe");
}

#[test]
fn unreadable_forms_are_found_out() {
    assert!(post_is_readable(&post("/t/abc/comment", "body=100%")));
    assert!(!post_is_readable(&post("/t/abc/comment", "body=%a\u{e9}b")));
    assert!(post_is_readable(&post("/t/abc", "body=%a\u{e9}b")));
}
