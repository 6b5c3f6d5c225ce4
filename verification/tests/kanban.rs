use ticgit::kanban::card;
use ticgit::kanban::kanban_page;
use ticgit::kanban::response;
use ticgit::moment::Timestamp;
use ticgit::page::Page;
use ticgit::query::ListQuery;
use ticgit::ticket::Moment;
use ticgit::ticket::Person;
use ticgit::ticket::Ticket;
use ticgit::ticket::TicketState;
use ticgit::ticket::TicketStatus;

fn state(name: &str, status: TicketStatus) -> TicketState {
    TicketState {
        name: name.to_string(),
        status,
    }
}

fn open(name: &str) -> TicketState {
    state(name, TicketStatus::Open)
}

fn epoch() -> Timestamp {
    Timestamp::new(0, 0, 0).unwrap()
}

fn person(email: &str) -> Person {
    Person {
        email: email.to_string(),
        name: email.to_string(),
    }
}

fn moment() -> Moment {
    Moment {
        time: epoch(),
        age: "0s".to_string(),
    }
}

fn ticket(id: &str, title: &str, state: TicketState) -> Ticket {
    Ticket {
        id: uuid::Uuid::parse_str(id).unwrap().as_u128(),
        title: title.to_string(),
        description: None,
        spec: None,
        status: state.status,
        state,
        assigned: None,
        priority: None,
        points: None,
        milestone: None,
        code: None,
        parent: None,
        children: Vec::new(),
        depends_on: Vec::new(),
        blocks: Vec::new(),
        tags: Vec::new(),
        meta: Vec::new(),
        comments: vec![],
        created_at: moment(),
        created_by: person("tester@example.com"),
    }
}

fn page() -> Page {
    Page {
        repo: "ticgit".to_string(),
        current_user: "tester@example.com".to_string(),
        edit: false,
        csrf: "test-csrf".to_string(),
    }
}

fn states() -> Vec<TicketState> {
    vec![
        open("new"),
        open("in-progress"),
        open("blocked"),
        open("review"),
        state("resolved", TicketStatus::Closed),
        state("wontfix", TicketStatus::Closed),
    ]
}

#[test]
fn kanban_renders_columns_and_cards() {
    let open = ticket(
        "d7f2d8f6-d6ec-3da1-a180-0a33fb090d59",
        "fix parser",
        open("in-progress"),
    );
    let blocked = ticket(
        "aaaaaaaa-d6ec-3da1-a180-0a33fb090d59",
        "waiting on api",
        state("blocked", TicketStatus::Open),
    );
    let html = kanban_page(
        &page(),
        &ListQuery::default(),
        &vec![open, blocked],
        &states(),
    );
    assert!(html.contains("kanban-col"));
    assert!(html.contains("in-progress"));
    assert!(html.contains("blocked"));
    assert!(html.contains("fix parser"));
    assert!(html.contains("waiting on api"));
    assert!(html.contains("href=\"/t/d7f2d8\""));
}

#[test]
fn kanban_skips_empty_closed_columns() {
    let t = ticket(
        "d7f2d8f6-d6ec-3da1-a180-0a33fb090d59",
        "open task",
        open("new"),
    );
    let html = kanban_page(&page(), &ListQuery::default(), &vec![t], &states());
    // The "new" column header should be present.
    assert!(html.contains(">new <span"));
    // No "resolved" column header (the word appears in CSS, so check
    // for the heading markup specifically).
    assert!(!html.contains(">resolved <span"));
}

#[test]
fn kanban_shows_empty_message_when_no_tickets() {
    let html = kanban_page(&page(), &ListQuery::default(), &vec![], &states());
    assert!(html.contains("No tickets match"));
}

#[test]
fn closed_columns_with_tickets_are_shown() {
    let t = ticket(
        "d7f2d8f6-d6ec-3da1-a180-0a33fb090d59",
        "done",
        state("resolved", TicketStatus::Closed),
    );
    let html = kanban_page(&page(), &ListQuery::default(), &vec![t], &states());
    assert!(html.contains(
        "<div class=\"kanban-col\"><h3>resolved <span class=\"n\">1</span></h3>\
         <div class=\"kanban-cards\"><a class=\"kcard\" href=\"/t/d7f2d8\">"
    ));
    assert!(html.contains(
        "<div class=\"kanban-col\"><h3>review <span class=\"n\">0</span></h3>\
         <div class=\"kanban-cards\"></div></div>"
    ));
    assert!(!html.contains(">wontfix <span"));
    assert!(html.contains("<p class=\"count\">1 ticket \u{b7} read-only</p>"));
}

#[test]
fn cards_show_priority_assignee_and_tags() {
    let mut t = ticket(
        "d7f2d8f6-d6ec-3da1-a180-0a33fb090d59",
        "a\n<b>",
        open("new"),
    );
    t.priority = Some(1);
    t.assigned = Some(Person {
        email: "a@example.com".to_string(),
        name: "alice".to_string(),
    });
    t.tags = vec!["bug".to_string(), "ui".to_string()];
    assert_eq!(
        card(&t),
        "<a class=\"kcard\" href=\"/t/d7f2d8\"><div class=\"kt\">a &lt;b&gt;</div>\
         <div class=\"km\"><span class=\"kid\">d7f2d8</span><span class=\"kp\">p1</span>\
         <span class=\"ka\">alice</span><span class=\"tag tag-4\">bug</span>\
         <span class=\"tag tag-4\">ui</span></div></a>"
    );
    t.assigned = Some(Person {
        email: "a@example.com".to_string(),
        name: String::new(),
    });
    t.priority = None;
    t.tags = Vec::new();
    assert!(card(&t).ends_with("<span class=\"kid\">d7f2d8</span></div></a>"));
}

#[test]
fn each_ticket_stands_in_one_column() {
    let ids = [
        "aaaaaaaa-d6ec-3da1-a180-0a33fb090d59",
        "bbbbbbbb-d6ec-3da1-a180-0a33fb090d59",
        "cccccccc-d6ec-3da1-a180-0a33fb090d59",
    ];
    let tickets = vec![
        ticket(ids[0], "one", open("new")),
        ticket(ids[1], "two", open("review")),
        ticket(ids[2], "three", open("new")),
    ];
    let html = kanban_page(&page(), &ListQuery::default(), &tickets, &states());
    for id in ["aaaaaa", "bbbbbb", "cccccc"] {
        assert_eq!(html.matches(&format!("href=\"/t/{id}\"")).count(), 1);
    }
    assert!(html.contains("<h3>new <span class=\"n\">2</span>"));
    assert!(html.contains("<p class=\"count\">3 tickets \u{b7} read-only</p>"));
    let board = response(&page(), &ListQuery::default(), &tickets, &states());
    assert_eq!(board.status, 200);
    assert_eq!(String::from_utf8(board.body).unwrap(), html);
}
