use ticgit::detail::csrf_hidden;
use ticgit::detail::detail_page;
use ticgit::detail::detail_response;
use ticgit::detail::edit_forms;
use ticgit::detail::fields_of;
use ticgit::list::json_response;
use ticgit::list::list_page;
use ticgit::list::list_response;
use ticgit::list::row;
use ticgit::moment::Timestamp;
use ticgit::nesting::tickets_nest;
use ticgit::page::active_filters;
use ticgit::page::header;
use ticgit::page::tag_chips;
use ticgit::page::Page;
use ticgit::query::Filter;
use ticgit::query::ListQuery;
use ticgit::query::ParsedFilters;
use ticgit::query::TicketLifecycle;
use ticgit::query::ViewMode;
use ticgit::request::parse_request_line;
use ticgit::request::Request;
use ticgit::ticket::join_uuids;
use ticgit::ticket::short_uuid;
use ticgit::ticket::Comment;
use ticgit::ticket::Moment;
use ticgit::ticket::Person;
use ticgit::ticket::Ticket;
use ticgit::ticket::TicketState;
use ticgit::ticket::TicketStatus;

fn state(name: &str, status: TicketStatus) -> TicketState {
    TicketState {
        name: name.to_string(),
        status,
    }
}

fn open(name: &str) -> TicketState {
    state(name, TicketStatus::Open)
}

fn epoch() -> Timestamp {
    Timestamp::new(0, 0, 0).unwrap()
}

fn person(email: &str) -> Person {
    Person {
        email: email.to_string(),
        name: email.to_string(),
    }
}

fn moment() -> Moment {
    Moment {
        time: epoch(),
        age: "0s".to_string(),
    }
}

fn ticket(id: &str, title: &str, state: TicketState) -> Ticket {
    Ticket {
        id: uuid::Uuid::parse_str(id).unwrap().as_u128(),
        title: title.to_string(),
        description: None,
        spec: None,
        status: state.status,
        state,
        assigned: None,
        priority: None,
        points: None,
        milestone: None,
        code: None,
        parent: None,
        children: Vec::new(),
        depends_on: Vec::new(),
        blocks: Vec::new(),
        tags: Vec::new(),
        meta: Vec::new(),
        comments: vec![],
        created_at: moment(),
        created_by: person("tester@example.com"),
    }
}

fn page() -> Page {
    Page {
        repo: "ticgit".to_string(),
        current_user: "tester@example.com".to_string(),
        edit: false,
        csrf: "test-csrf".to_string(),
    }
}

fn states() -> Vec<TicketState> {
    vec![
        open("new"),
        open("in-progress"),
        open("blocked"),
        open("review"),
        state("resolved", TicketStatus::Closed),
        state("wontfix", TicketStatus::Closed),
    ]
}

fn edit_page() -> Page {
    Page {
        edit: true,
        ..page()
    }
}

fn request(target: &str) -> Request {
    parse_request_line(&format!("GET {target} HTTP/1.1\r\n")).unwrap()
}

fn unread() -> String {
    "cannot be read".to_string()
}

/// The outcomes for a store that knows a few words.
fn parsed(query: &ListQuery) -> ParsedFilters {
    let status = |text: &str| match text {
        "open" => Ok(TicketStatus::Open),
        "closed" => Ok(TicketStatus::Closed),
        _ => Err(unread()),
    };
    let lifecycle = |text: &str| match text {
        "open" => Ok(TicketLifecycle {
            status: TicketStatus::Open,
            state: open("new"),
        }),
        _ => states()
            .into_iter()
            .find(|s| s.name == text)
            .map(|s| TicketLifecycle {
                status: s.status,
                state: s,
            })
            .ok_or_else(unread),
    };
    let order = query.order.clone().unwrap_or_default();
    let search = query.search.clone().unwrap_or_default();
    ParsedFilters {
        status: status(query.status.as_deref().unwrap_or_default()),
        lifecycle: lifecycle(query.state.as_deref().unwrap_or_default()),
        state_is_status: status(query.state.as_deref().unwrap_or_default()).is_ok(),
        order_is_known: order.starts_with("priority") || order.starts_with("created"),
        search: if search.contains('[') {
            Err(unread())
        } else {
            Ok(())
        },
    }
}

fn filter_for(target: &str) -> Result<Filter, String> {
    let query = ListQuery::from_request(&request(target));
    query.filter(&parsed(&query))
}

#[test]
fn query_defaults_to_open_tickets_without_subissues() {
    let filter = filter_for("/").unwrap();
    assert_eq!(filter.status, Some(TicketStatus::Open));
    assert!(filter.hide_subissues);
}

#[test]
fn query_all_clears_status_and_shows_subissues() {
    let filter = filter_for("/?all=1&subissues=1").unwrap();
    assert_eq!(filter.status, None);
    assert!(!filter.hide_subissues);
}

#[test]
fn query_state_narrows_status_and_state() {
    let filter = filter_for("/?state=blocked").unwrap();
    assert_eq!(filter.status, Some(TicketStatus::Open));
    assert_eq!(filter.state, Some(open("blocked")));
}

#[test]
fn query_rejects_unknown_status() {
    assert!(filter_for("/?status=frob").is_err());
}

#[test]
fn href_round_trips_through_the_request_parser() {
    let query = ListQuery::from_request(&request("/?tag=bug&q=parser+bug&order=priority"));
    let reparsed = ListQuery::from_request(&request(&query.href(None)));
    assert_eq!(query, reparsed);
}

#[test]
fn order_href_toggles_direction_for_the_active_column() {
    let query = ListQuery::from_request(&request("/?order=priority"));
    assert!(query.order_href("priority").contains("order=priority.desc"));
    let desc = ListQuery::from_request(&request("/?order=priority.desc"));
    assert!(desc.order_href("priority").ends_with("order=priority"));
}

#[test]
fn list_page_renders_rows_and_links_to_detail() {
    let mut open = ticket(
        "d7f2d8f6-d6ec-3da1-a180-0a33fb090d59",
        "fix parser",
        open("new"),
    );
    open.priority = Some(2);
    open.tags.push("bug".to_string());
    let html = list_page(&page(), &ListQuery::default(), false, &vec![open]);
    assert!(html.contains("href=\"/t/d7f2d8\""));
    assert!(html.contains("fix parser"));
    assert!(html.contains("p2"));
    assert!(html.contains(">bug</a>"));
    assert!(html.contains("1 ticket "));
}

#[test]
fn list_page_shows_state_column_only_when_closed_tickets_can_appear() {
    let t = ticket("d7f2d8f6-d6ec-3da1-a180-0a33fb090d59", "x", open("new"));
    let default = ListQuery::default();
    let shows = default.shows_closed(&parsed(&default));
    let open_view = list_page(&page(), &default, shows, &vec![t.clone()]);
    assert!(!open_view.contains("class=\"state\""));

    let all = ListQuery {
        all: true,
        ..Default::default()
    };
    let shows = all.shows_closed(&parsed(&all));
    assert!(list_page(&page(), &all, shows, &vec![t]).contains("class=\"state\""));
}

#[test]
fn html_is_escaped_in_titles_and_tags() {
    let mut t = ticket(
        "d7f2d8f6-d6ec-3da1-a180-0a33fb090d59",
        "<script>alert(1)</script>",
        open("new"),
    );
    t.tags.push("a\"b".to_string());
    let html = list_page(&page(), &ListQuery::default(), false, &vec![t]);
    // The ticket title should be escaped. The page itself includes a
    // <script> tag for the kanban toggle, so check that the unescaped
    // title doesn't appear — only the escaped version should.
    assert!(!html.contains("<script>alert(1)</script>"));
    assert!(html.contains("&lt;script&gt;"));
    assert!(html.contains("a&quot;b"));
}

#[test]
fn detail_page_shows_fields_description_and_comments() {
    let mut t = ticket(
        "d7f2d8f6-d6ec-3da1-a180-0a33fb090d59",
        "fix parser",
        open("in-progress"),
    );
    t.description = Some("a longer\nexplanation".to_string());
    t.assigned = Some(person("tester@example.com"));
    t.comments.push(Comment {
        author: person("other@example.com"),
        at: moment(),
        body: "on it".to_string(),
    });
    let html = detail_page(&page(), &t, &states(), None);
    assert!(html.contains("fix parser"));
    assert!(html.contains("in-progress"));
    assert!(html.contains("a longer\nexplanation"));
    assert!(html.contains("Comments (1)"));
    assert!(html.contains("on it"));
}

#[test]
fn detail_page_omits_edit_forms_when_edit_mode_is_off() {
    let t = ticket("d7f2d8f6-d6ec-3da1-a180-0a33fb090d59", "x", open("new"));
    let html = detail_page(&page(), &t, &states(), None);
    assert!(!html.contains("<section class=\"edit\">"));
    assert!(!html.contains("name=\"csrf\""));
}

#[test]
fn detail_page_renders_edit_forms_and_csrf_when_edit_mode_is_on() {
    let t = ticket("d7f2d8f6-d6ec-3da1-a180-0a33fb090d59", "x", open("new"));
    let html = detail_page(&edit_page(), &t, &states(), None);
    assert!(html.contains("<section class=\"edit\">"));
    assert!(html.contains("name=\"csrf\""));
    assert!(html.contains("value=\"test-csrf\""));
    // All five action routes are present.
    assert!(html.contains("action=\"/t/d7f2d8/state\""));
    assert!(html.contains("action=\"/t/d7f2d8/assign\""));
    assert!(html.contains("action=\"/t/d7f2d8/priority\""));
    assert!(html.contains("action=\"/t/d7f2d8/tags\""));
    assert!(html.contains("action=\"/t/d7f2d8/comment\""));
}

#[test]
fn detail_page_renders_error_banner_when_error_is_set() {
    let t = ticket("d7f2d8f6-d6ec-3da1-a180-0a33fb090d59", "x", open("new"));
    let html = detail_page(&page(), &t, &states(), Some("nope, bad state"));
    assert!(html.contains("class=\"edit-error\""));
    assert!(html.contains("nope, bad state"));
}

// -- filters ----------------------------------------------------------------

#[test]
fn filters_name_the_first_one_that_cannot_be_read() {
    assert_eq!(
        filter_for("/?order=colour").unwrap_err(),
        "unknown sort order `colour`"
    );
    assert_eq!(filter_for("/?state=frob").unwrap_err(), unread());
    assert_eq!(filter_for("/?q=%5B").unwrap_err(), unread());
    assert_eq!(
        filter_for("/?order=colour&q=%5B").unwrap_err(),
        "unknown sort order `colour`"
    );
}

#[test]
fn filters_hand_everything_to_the_store() {
    let filter = filter_for("/?status=closed&tag=a&tag=b&tag=+&assigned=me&q=x&order=created").unwrap();
    assert_eq!(
        filter,
        Filter {
            status: Some(TicketStatus::Closed),
            state: None,
            tag: Some("a".to_string()),
            tags: vec!["a".to_string(), "b".to_string()],
            tag_match_all: true,
            assigned: Some("me".to_string()),
            only_tagged: false,
            search: Some("x".to_string()),
            order: Some("created".to_string()),
            hide_subissues: true,
        }
    );
    assert_eq!(filter_for("/?status=all").unwrap().status, None);
    let mere = filter_for("/?state=open&status=closed").unwrap();
    assert_eq!(mere.status, Some(TicketStatus::Open));
    assert_eq!(mere.state, None);
    let query = ListQuery::from_request(&request("/"));
    assert!(!query.list_filter(&parsed(&query)).unwrap().hide_subissues);
}

#[test]
fn links_carry_every_filter() {
    let query = ListQuery {
        status: Some("closed".to_string()),
        state: Some("a b".to_string()),
        tags: vec!["x&y".to_string(), "z".to_string()],
        assigned: Some("me@example.com".to_string()),
        search: Some("50%".to_string()),
        order: Some("title".to_string()),
        all: true,
        subissues: true,
    };
    let link = "/?status=closed&state=a%20b&tag=x%26y&tag=z&assigned=me%40example.com&q=50%25\
                &all=1&subissues=1&order=title";
    assert_eq!(query.href(None), link);
    assert_eq!(query.href(Some("id")), link.replace("order=title", "order=id"));
    assert_eq!(query.href_on("/kanban"), format!("/kanban{}", &link[1..]));
    assert_eq!(ListQuery::from_request(&request(link)), query);
    assert_eq!(ListQuery::default().href(None), "/");
    assert_eq!(ListQuery::default().href_on("/kanban"), "/kanban");
    let board = request(&query.href_on(ViewMode::Kanban.path()));
    assert_eq!(board.path, "/kanban");
    assert_eq!(ListQuery::from_request(&board), query);
    assert_eq!(query.clone(), query);
}

#[test]
fn filters_are_trimmed_and_blank_ones_dropped() {
    let query = ListQuery::from_request(&request("/?status=+open+&q=++&tag=+a+&tag=&subissues"));
    assert_eq!(query.status.as_deref(), Some("open"));
    assert_eq!(query.search, None);
    assert_eq!(query.tags, vec![" a "]);
    assert!(query.subissues && !query.all);
}

#[test]
fn columns_toggle_and_mark_their_order() {
    let by = |order: &str| ListQuery {
        order: Some(order.to_string()),
        ..Default::default()
    };
    assert_eq!(by("title").order_href("title"), "/?order=title.desc");
    assert_eq!(by("title.desc").order_href("title"), "/?order=title");
    assert_eq!(by("title").order_href("state"), "/?order=state");
    assert_eq!(by("title").order_marker("title"), " \u{2191}");
    assert_eq!(by("title.desc").order_marker("title"), " \u{2193}");
    assert_eq!(by("title").order_marker("state"), "");
}

#[test]
fn closed_tickets_show_where_the_store_is_asked_for_them() {
    let shows = |target: &str| {
        let query = ListQuery::from_request(&request(target));
        let parsed = parsed(&query);
        let shows = query.shows_closed(&parsed);
        if let Ok(filter) = query.filter(&parsed) {
            assert_eq!(shows, filter.status != Some(TicketStatus::Open));
        }
        shows
    };
    assert!(!shows("/"));
    assert!(!shows("/?status=open"));
    assert!(shows("/?status=closed"));
    assert!(shows("/?status=all"));
    assert!(!shows("/?state=blocked"));
    assert!(shows("/?state=resolved"));
    assert!(shows("/?all=1"));
    assert!(!shows("/?all=1&status=open"));
    assert!(!shows("/?status=frob"));
}

#[test]
fn modes_have_a_label_and_a_path() {
    assert_eq!(ViewMode::List.label(), "List");
    assert_eq!(ViewMode::List.path(), "/");
    assert_eq!(ViewMode::Kanban.label(), "Kanban");
    assert_eq!(ViewMode::Kanban.path(), "/kanban");
}

// -- the header -------------------------------------------------------------

#[test]
fn the_header_marks_the_list_and_keeps_the_filters() {
    let html = header(&page(), &ListQuery::default(), ViewMode::List);
    assert_eq!(
        html,
        "<header><h1><a href=\"/\">ticgit</a></h1><nav>\
         <a class=\"view active\" href=\"/\">Open</a>\
         <a class=\"view\" href=\"/?assigned=tester%40example.com\">Mine</a>\
         <a class=\"view\" href=\"/?status=closed&amp;order=created.desc\">Closed</a>\
         <a class=\"view\" href=\"/?all=1&amp;subissues=1\">All</a></nav>\
         <nav class=\"modes\"><a class=\"view active\" href=\"/\">List</a>\
         <a class=\"view\" href=\"/kanban\">Kanban</a></nav>\
         <form method=\"get\" action=\"/\">\
         <input type=\"search\" name=\"q\" placeholder=\"search\" value=\"\"></form></header>"
    );
    let query = ListQuery::from_request(&request("/?status=closed&tag=a&assigned=me&q=x&all=1&order=id"));
    let html = header(&page(), &query, ViewMode::Kanban);
    assert!(html.contains(
        "<input type=\"hidden\" name=\"status\" value=\"closed\">\
         <input type=\"hidden\" name=\"tag\" value=\"a\">\
         <input type=\"hidden\" name=\"assigned\" value=\"me\">\
         <input type=\"hidden\" name=\"all\" value=\"1\">\
         <input type=\"search\" name=\"q\" placeholder=\"search\" value=\"x\">"
    ));
    assert!(html.contains("<a class=\"view\" href=\"/\">Open</a>"));
    assert!(html.contains(">Kanban</a></nav>"));
    assert_eq!(html.matches("class=\"view active\"").count(), 1);
}

#[test]
fn active_filters_link_to_the_list_without_them() {
    assert_eq!(active_filters(&ListQuery::default()), "");
    let query = ListQuery::from_request(&request("/?tag=a&tag=b&assigned=me&q=x"));
    assert_eq!(
        active_filters(&query),
        "<div class=\"filters\">\
         <a class=\"chip\" href=\"/?tag=b&amp;assigned=me&amp;q=x\">tag:a \u{d7}</a>\
         <a class=\"chip\" href=\"/?tag=a&amp;assigned=me&amp;q=x\">tag:b \u{d7}</a>\
         <a class=\"chip\" href=\"/?tag=a&amp;tag=b&amp;q=x\">assigned:me \u{d7}</a>\
         <a class=\"chip\" href=\"/?tag=a&amp;tag=b&amp;assigned=me\">search:x \u{d7}</a></div>"
    );
}

#[test]
fn tags_link_to_the_list_narrowed_to_them() {
    let mut t = ticket("d7f2d8f6-d6ec-3da1-a180-0a33fb090d59", "x", open("new"));
    t.tags = vec!["a".to_string(), "b".to_string()];
    let query = ListQuery::from_request(&request("/?tag=b"));
    assert_eq!(
        tag_chips(&query, &t),
        "<a class=\"tag tag-1\" href=\"/?tag=b&amp;tag=a\">a</a> \
         <a class=\"tag tag-2\" href=\"/?tag=b\">b</a>"
    );
}

// -- the list ---------------------------------------------------------------

const A: &str = "aaaaaaaa-d6ec-3da1-a180-0a33fb090d59";
const B: &str = "bbbbbbbb-d6ec-3da1-a180-0a33fb090d59";
const C: &str = "cccccccc-d6ec-3da1-a180-0a33fb090d59";
const D: &str = "dddddddd-d6ec-3da1-a180-0a33fb090d59";

fn id(text: &str) -> u128 {
    uuid::Uuid::parse_str(text).unwrap().as_u128()
}

fn under(text: &str, parent: &str) -> Ticket {
    let mut t = ticket(text, "sub", open("new"));
    t.parent = Some(id(parent));
    t
}

#[test]
fn rows_show_what_a_ticket_is() {
    let mut t = ticket(A, "a\tb", state("resolved", TicketStatus::Closed));
    t.assigned = Some(Person {
        email: "tester@example.com".to_string(),
        name: "tester".to_string(),
    });
    t.priority = Some(-1);
    t.parent = Some(id(B));
    assert_eq!(
        row(&page(), &ListQuery::default(), &t, true, 2, true, 3),
        "<tr class=\"closed\" data-id=\"aaaaaaaa-d6ec-3da1-a180-0a33fb090d59\" data-depth=\"3\" \
         data-parent=\"bbbbbbbb-d6ec-3da1-a180-0a33fb090d59\" style=\"display:none;--depth:3\">\
         <td class=\"id\"><a href=\"/t/aaaaaa\">aaaaaa</a></td><td class=\"age\">0s</td>\
         <td class=\"prio\">p-1</td><td class=\"state\"><span class=\"badge state-resolved\">resolved</span></td>\
         <td class=\"title\"><span class=\"parent\">\u{21b3} bbbbbb</span> <a href=\"/t/aaaaaa\">a b</a> \
         <button class=\"children-toggle\" onclick=\"listToggle(this)\"              aria-expanded=\"false\">[+2]</button></td>\
         <td class=\"who mine\">tester</td><td class=\"tags\"></td></tr>"
    );
    let plain = ticket(C, "x", open("new"));
    assert_eq!(
        row(&page(), &ListQuery::default(), &plain, false, 0, false, 0),
        "<tr class=\"open\" data-id=\"cccccccc-d6ec-3da1-a180-0a33fb090d59\" data-depth=\"0\" \
         style=\"--depth:0\"><td class=\"id\"><a href=\"/t/cccccc\">cccccc</a></td>\
         <td class=\"age\">0s</td><td class=\"prio\"></td><td class=\"title\">\
         <a href=\"/t/cccccc\">x</a></td><td class=\"who\"></td><td class=\"tags\"></td></tr>"
    );
    assert!(row(&page(), &ListQuery::default(), &plain, false, 0, true, 1).starts_with("<tr class=\"open sub\""));
}

#[test]
fn sub_tickets_stand_under_their_parents() {
    // B is under A and D under B; C is under a ticket that is not in the list.
    let mut c = ticket(C, "alone", open("new"));
    c.parent = Some(1);
    let tickets = vec![
        under(D, B),
        c,
        under(B, A),
        ticket(A, "top", open("new")),
    ];
    assert!(tickets_nest(&tickets));
    let html = list_page(&page(), &ListQuery::default(), false, &tickets);
    let at = |text: &str, depth: usize| {
        html.find(&format!("data-id=\"{text}\" data-depth=\"{depth}\""))
            .unwrap()
    };
    assert!(at(C, 0) < at(A, 0));
    assert!(at(A, 0) < at(B, 1));
    assert!(at(B, 1) < at(D, 2));
    assert_eq!(html.matches("<tr class=").count(), 4);
    assert_eq!(html.matches("display:none").count(), 2);
    assert!(html.contains("4 tickets \u{b7} <a href=\"/tickets.json\">JSON</a>"));
    let query = ListQuery::default();
    let response = list_response(&page(), &query, &parsed(&query), &tickets);
    assert_eq!(response.status, 200);
    assert_eq!(String::from_utf8(response.body).unwrap(), html);
}

#[test]
fn tickets_above_themselves_are_not_listed() {
    let tickets = vec![under(A, B), under(B, A), ticket(C, "x", open("new"))];
    assert!(tickets_nest(&tickets));
    let html = list_page(&page(), &ListQuery::default(), false, &tickets);
    assert_eq!(html.matches("<tr class=").count(), 1);
}

#[test]
fn an_id_in_use_twice_can_keep_a_list_from_ending() {
    let tickets = vec![ticket(A, "top", open("new")), under(B, A), under(A, B)];
    assert!(!tickets_nest(&tickets));
    assert!(tickets_nest(&vec![]));
}

#[test]
fn an_empty_list_says_so() {
    let html = list_page(&page(), &ListQuery::default(), false, &vec![]);
    assert!(html.contains("<p class=\"empty\">No tickets match this view.</p>"));
    assert!(html.contains("<p class=\"count\">0 tickets \u{b7}"));
    assert!(!html.contains("<table"));
}

#[test]
fn lists_link_to_their_json_form() {
    let query = ListQuery::from_request(&request("/?tag=a&order=priority"));
    let html = list_page(&page(), &query, false, &vec![ticket(A, "x", open("new"))]);
    assert!(html.contains("<a href=\"/tickets.json?tag=a&amp;order=priority\">JSON</a>"));
    assert!(html.contains(
        "<th class=\"prio\"><a href=\"/?tag=a&amp;order=priority.desc\">P \u{2191}</a></th>"
    ));
    let response = json_response("[]".to_string());
    assert_eq!(response.status, 200);
    assert_eq!(response.content_type, "application/json; charset=utf-8");
    assert_eq!(response.body, b"[]".to_vec());
}

// -- one ticket -------------------------------------------------------------

#[test]
fn fields_come_in_order() {
    let mut t = ticket(A, "x", open("new"));
    t.assigned = Some(Person {
        email: "a@example.com".to_string(),
        name: "alice".to_string(),
    });
    t.priority = Some(2);
    t.points = Some(-3);
    t.milestone = Some("m1".to_string());
    t.code = Some("src".to_string());
    t.tags = vec!["a".to_string(), "b".to_string()];
    t.parent = Some(id(B));
    t.children = vec![id(C), id(D)];
    t.depends_on = vec![id(C)];
    t.blocks = vec![id(D)];
    t.meta = vec![("k".to_string(), "v".to_string())];
    let pair = |k: &str, v: &str| (k.to_string(), v.to_string());
    assert_eq!(
        fields_of(&t),
        vec![
            pair("Status", "open"),
            pair("Assigned", "alice"),
            pair("Priority", "2"),
            pair("Points", "-3"),
            pair("Milestone", "m1"),
            pair("Code", "src"),
            pair("Tags", "a, b"),
            pair("Parent", "bbbbbb"),
            pair("Sub-issues", "cccccc, dddddd"),
            pair("Depends on", "cccccc"),
            pair("Blocks", "dddddd"),
            pair("Created", "1970-01-01T00:00:00Z"),
            pair("k", "v"),
        ]
    );
    assert_eq!(
        fields_of(&ticket(A, "x", open("new"))),
        vec![pair("Status", "open"), pair("Created", "1970-01-01T00:00:00Z")]
    );
}

#[test]
fn forms_offer_the_states_and_the_tags() {
    let mut t = ticket(A, "x", open("review"));
    t.assigned = Some(Person {
        email: "a@example.com".to_string(),
        name: "alice".to_string(),
    });
    t.priority = Some(4);
    t.tags = vec!["<b>".to_string()];
    let html = edit_forms(&edit_page(), &t, &states());
    assert!(html.contains("<option value=\"open:new\">open:new</option>"));
    assert!(html.contains("<option value=\"open:review\" selected>open:review</option>"));
    assert!(html.contains("<option value=\"closed:resolved\">closed:resolved</option>"));
    assert!(html.contains("name=\"assigned\" value=\"a@example.com\" placeholder="));
    assert!(html.contains("name=\"priority\" value=\"4\" min=\"0\" placeholder=\"blank to clear\">"));
    assert!(html.contains(
        "<form class=\"edit-form edit-tag-remove\" method=\"post\" action=\"/t/aaaaaa/tags\">\
         <input type=\"hidden\" name=\"csrf\" value=\"test-csrf\">\
         <input type=\"hidden\" name=\"remove\" value=\"&lt;b&gt;\">\
         <span class=\"tag tag-0\">&lt;b&gt;</span><button type=\"submit\">remove</button></form>"
    ));
    assert!(html.ends_with("<button type=\"submit\">Comment</button></form></section>"));
    assert_eq!(
        csrf_hidden(&edit_page()),
        "<input type=\"hidden\" name=\"csrf\" value=\"test-csrf\">"
    );
}

#[test]
fn blank_prose_is_left_out() {
    let mut t = ticket(A, "x", open("new"));
    t.description = Some(" \n ".to_string());
    t.spec = Some("do <it>".to_string());
    let html = detail_page(&page(), &t, &states(), None);
    assert!(!html.contains("<h2>Description</h2>"));
    assert!(html.contains("<section><h2>Spec</h2><pre class=\"prose\">do &lt;it&gt;</pre></section>"));
    assert!(html.contains("<title>aaaaaa \u{b7} x</title>"));
    assert!(html.contains(
        "</span> <code>aaaaaa</code> \u{b7} opened 0s ago by tester@example.com</p>\
         <nav class=\"detail-nav\"><a href=\"/t/aaaaaa\" class=\"active\">Ticket</a>\
         <a href=\"/t/aaaaaa/flow\">Lifecycle</a></nav></header>"
    ));
}

#[test]
fn unknown_tickets_are_404() {
    let missing = Err("no ticket `zz`".to_string());
    let response = detail_response(&page(), &request("/t/zz"), &states(), &missing);
    assert_eq!(response.status, 404);
    assert!(String::from_utf8(response.body).unwrap().contains("no ticket `zz`"));
    let found = Ok(ticket(A, "x", open("new")));
    let response = detail_response(
        &page(),
        &request("/t/aaaaaa?error=nope%21"),
        &states(),
        &found,
    );
    assert_eq!(response.status, 200);
    assert!(String::from_utf8(response.body)
        .unwrap()
        .contains("<p class=\"edit-error\">nope!</p>"));
}

#[test]
fn ids_are_shown_short() {
    assert_eq!(short_uuid(id(A)), "aaaaaa");
    assert_eq!(short_uuid(0), "000000");
    assert_eq!(join_uuids(&vec![id(A), id(B)]), "aaaaaa, bbbbbb");
    assert_eq!(join_uuids(&vec![]), "");
    assert_eq!(ticket(D, "x", open("new")).short_id(), "dddddd");
}
