use ticgit::flow::bootstrap_script;
use ticgit::flow::build_edges_json;
use ticgit::flow::build_nodes_json;
use ticgit::flow::duration_str;
use ticgit::flow::flow_document;
use ticgit::flow::flow_page;
use ticgit::flow::is_history_showable;
use ticgit::flow::lifecycle_is_showable;
use ticgit::flow::render_step;
use ticgit::flow::render_visit;
use ticgit::flow::response;
use ticgit::flow::value_is_showable;
use ticgit::lifecycle::build_lifecycle;
use ticgit::lifecycle::sort_by_time;
use ticgit::lifecycle::HistoryEntry;
use ticgit::lifecycle::Lifecycle;
use ticgit::moment::Duration;
use ticgit::moment::Timestamp;
use ticgit::ticket::Moment;
use ticgit::ticket::Person;
use ticgit::ticket::Ticket;
use ticgit::ticket::TicketState;
use ticgit::ticket::TicketStatus;

fn state(name: &str, status: TicketStatus) -> TicketState {
    TicketState {
        name: name.to_string(),
        status,
    }
}

fn open(name: &str) -> TicketState {
    state(name, TicketStatus::Open)
}

fn epoch() -> Timestamp {
    Timestamp::new(0, 0, 0).unwrap()
}

fn person(email: &str) -> Person {
    Person {
        email: email.to_string(),
        name: email.to_string(),
    }
}

fn moment() -> Moment {
    Moment {
        time: epoch(),
        age: "0s".to_string(),
    }
}

fn ticket(id: &str, title: &str, state: TicketState) -> Ticket {
    Ticket {
        id: uuid::Uuid::parse_str(id).unwrap().as_u128(),
        title: title.to_string(),
        description: None,
        spec: None,
        status: state.status,
        state,
        assigned: None,
        priority: None,
        points: None,
        milestone: None,
        code: None,
        parent: None,
        children: Vec::new(),
        depends_on: Vec::new(),
        blocks: Vec::new(),
        tags: Vec::new(),
        meta: Vec::new(),
        comments: vec![],
        created_at: moment(),
        created_by: person("tester@example.com"),
    }
}

fn now() -> Timestamp {
    Timestamp::new(10 * 86400, 0, 0).unwrap()
}

fn named(name: &str) -> TicketState {
    match name {
        "resolved" | "wontfix" => state(name, TicketStatus::Closed),
        _ => open(name),
    }
}

fn hist(field: &str, value: &str, op: &str, secs: i64) -> HistoryEntry {
    HistoryEntry {
        field: field.to_string(),
        value: value.to_string(),
        operation: op.to_string(),
        author: person("tester@example.com"),
        at: Moment {
            time: Timestamp::new(secs, 0, 0).unwrap(),
            age: format!("{secs}s"),
        },
        state: if field == "state" && value != "unknown" {
            Some(named(value))
        } else {
            None
        },
    }
}

#[test]
fn empty_history_yields_single_visit_with_current_state() {
    let t = ticket(
        "d7f2d8f6-d6ec-3da1-a180-0a33fb090d59",
        "fix parser",
        open("in-progress"),
    );
    let lc = build_lifecycle(&t, &vec![], now());
    assert_eq!(lc.visits.len(), 1);
    assert_eq!(lc.visits[0].state, open("in-progress"));
}

#[test]
fn state_transitions_become_visits() {
    let t = ticket(
        "d7f2d8f6-d6ec-3da1-a180-0a33fb090d59",
        "fix parser",
        open("review"),
    );
    let history = vec![
        hist("state", "new", "set", 0),
        hist("state", "in-progress", "set", 100),
        hist("state", "review", "set", 500),
    ];
    let lc = build_lifecycle(&t, &history, now());
    assert_eq!(lc.visits.len(), 3);
    assert_eq!(lc.visits[0].state, open("new"));
    assert_eq!(lc.visits[1].state, open("in-progress"));
    assert_eq!(lc.visits[2].state, open("review"));
}

#[test]
fn loops_produce_back_edges() {
    let t = ticket(
        "d7f2d8f6-d6ec-3da1-a180-0a33fb090d59",
        "fix parser",
        open("review"),
    );
    let history = vec![
        hist("state", "new", "set", 0),
        hist("state", "in-progress", "set", 100),
        hist("state", "review", "set", 500),
        hist("state", "in-progress", "set", 800),
        hist("state", "review", "set", 1200),
    ];
    let lc = build_lifecycle(&t, &history, now());
    // 5 transitions → 5 visits, 4 edges.
    assert_eq!(lc.visits.len(), 5);
    let edges = build_edges_json(&lc);
    // The edge from review→in-progress (transition #3) should be a
    // back-edge (dashed, red).
    assert!(edges.contains("e-3"));
    assert!(edges.contains("strokeDasharray"));
    assert_eq!(edges.matches("strokeDasharray").count(), 1);
    assert_eq!(edges.matches("\"id\":\"e-").count(), 4);
    assert!(edges.contains(
        "{\"id\":\"e-3\",\"source\":\"review\",\"target\":\"in-progress\",\"type\":\"smoothstep\",\
         \"animated\":false,\"label\":\"#3 \u{b7} 5m\",\
         \"style\":{\"strokeDasharray\":\"6 4\",\"stroke\":\"#dc2626\"}}"
    ));
}

#[test]
fn steps_are_bucketed_into_state_windows() {
    let t = ticket(
        "d7f2d8f6-d6ec-3da1-a180-0a33fb090d59",
        "fix parser",
        open("in-progress"),
    );
    let history = vec![
        hist("state", "new", "set", 0),
        hist("tags", "bug", "set_add", 50),
        hist("state", "in-progress", "set", 100),
        hist("assigned", "alice@example.com", "set", 150),
        hist("comments", "(comment added)", "push", 200),
    ];
    let lc = build_lifecycle(&t, &history, now());
    assert_eq!(lc.visits.len(), 2);
    // "new" window [0, 100) → tag added at t=50
    assert_eq!(lc.visits[0].steps.len(), 1);
    assert_eq!(lc.visits[0].steps[0].field, "tags");
    // "in-progress" window [100, now) → assigned + comment
    assert_eq!(lc.visits[1].steps.len(), 2);
}

#[test]
fn flow_page_contains_local_vendor_assets() {
    let t = ticket(
        "d7f2d8f6-d6ec-3da1-a180-0a33fb090d59",
        "fix parser",
        open("new"),
    );
    let lc = build_lifecycle(&t, &vec![], now());
    let html = flow_page(&t, &lc);
    // Should reference local assets, not CDN.
    assert!(html.contains("/assets/react.min.js"));
    assert!(html.contains("/assets/xyflow.min.js"));
    assert!(html.contains("/assets/xyflow.css"));
    assert!(!html.contains("esm.sh"));
    assert!(html.contains("ReactFlow"));
}

#[test]
fn flow_page_shows_timeline_section() {
    let t = ticket(
        "d7f2d8f6-d6ec-3da1-a180-0a33fb090d59",
        "fix parser",
        open("new"),
    );
    let lc = build_lifecycle(&t, &vec![], now());
    let html = flow_page(&t, &lc);
    assert!(html.contains("lifecycle-timeline"));
    assert!(html.contains("Timeline"));
}

#[test]
fn flow_page_links_back_to_ticket() {
    let t = ticket(
        "d7f2d8f6-d6ec-3da1-a180-0a33fb090d59",
        "fix parser",
        open("new"),
    );
    let lc = build_lifecycle(&t, &vec![], now());
    let html = flow_page(&t, &lc);
    assert!(html.contains("href=\"/t/d7f2d8\""));
}

#[test]
fn duration_str_formats_compactly() {
    assert_eq!(duration_str(Duration::seconds(30)), "30s");
    assert_eq!(duration_str(Duration::seconds(90)), "1m");
    assert_eq!(duration_str(Duration::seconds(3600)), "1h");
    assert_eq!(duration_str(Duration::days(3)), "3d");
}

#[test]
fn durations_take_the_largest_unit() {
    let text = |seconds: i64| duration_str(Duration::seconds(seconds));
    assert_eq!(text(-5), "0s");
    assert_eq!(text(0), "0s");
    assert_eq!(text(59), "59s");
    assert_eq!(text(60), "1m");
    assert_eq!(text(3599), "59m");
    assert_eq!(text(86399), "23h");
    assert_eq!(text(30 * 86400 - 1), "29d");
    assert_eq!(text(30 * 86400), "1mo");
    assert_eq!(text(365 * 86400 - 1), "12mo");
    assert_eq!(text(365 * 86400), "1y");
    assert_eq!(text(i64::MAX), "292471208677y");
    assert_eq!(text(i64::MIN), "0s");
    let almost = Duration {
        nanoseconds: 59_999_999_999,
    };
    assert_eq!(duration_str(almost), "59s");
}

const ID: &str = "d7f2d8f6-d6ec-3da1-a180-0a33fb090d59";

#[test]
fn changes_are_put_in_order_and_keep_it_at_one_point_in_time() {
    let history = vec![
        hist("c", "late", "set", 30),
        hist("a", "first", "set", 20),
        hist("b", "second", "set", 20),
        hist("z", "early", "set", -10),
        hist("d", "third", "set", 20),
    ];
    let sorted = sort_by_time(&history);
    let fields: Vec<&str> = sorted.iter().map(|e| e.field.as_str()).collect();
    assert_eq!(fields, vec!["z", "a", "b", "d", "c"]);
    assert_eq!(history[1].copy(), history[1]);
}

#[test]
fn visits_are_numbered_and_last_until_the_next() {
    let t = ticket(ID, "x", open("review"));
    let history = vec![
        hist("state", "review", "set", 500),
        hist("status", "open", "set", 500),
        hist("state", "unknown", "set", 100),
    ];
    let lc = build_lifecycle(&t, &history, now());
    assert_eq!(lc.visits.len(), 2);
    assert_eq!(lc.visits[0].seq, 0);
    assert_eq!(lc.visits[1].seq, 1);
    // A value that names no state stands for the first one.
    assert_eq!(lc.visits[0].state, open("new"));
    assert_eq!(lc.visits[0].duration, Duration::seconds(400));
    assert_eq!(lc.visits[1].duration, Duration::seconds(10 * 86400 - 500));
    assert_eq!(lc.visits[0].entered_at.age, "100s");
    assert_eq!(lc.visits[0].entered_by.email, "tester@example.com");
    assert!(lc.visits[1].steps.is_empty());
}

#[test]
fn without_a_change_of_state_all_else_is_one_visit() {
    let t = ticket(ID, "x", open("blocked"));
    let history = vec![
        hist("status", "open", "set", 3),
        hist("title", "y", "set", 2),
        hist("tags", "bug", "set_add", 1),
    ];
    let lc = build_lifecycle(&t, &history, now());
    assert_eq!(lc.visits.len(), 1);
    assert_eq!(lc.visits[0].state, open("blocked"));
    assert_eq!(lc.visits[0].duration, Duration::days(10));
    let fields: Vec<&str> = lc.visits[0].steps.iter().map(|e| e.field.as_str()).collect();
    assert_eq!(fields, vec!["tags", "title"]);
}

#[test]
fn visits_are_chronological_within_a_second() {
    let at = |value: &str, millis: u32| {
        let mut entry = hist("state", value, "set", 0);
        entry.at.time = Timestamp::new(0, millis * 1_000_000, 0).unwrap();
        entry
    };
    let t = ticket(ID, "x", open("in-progress"));
    let lc = build_lifecycle(&t, &vec![at("in-progress", 700), at("new", 200)], now());
    assert_eq!(lc.visits.len(), 2);
    assert_eq!(lc.visits[0].state, open("new"));
    assert_eq!(lc.visits[1].state, open("in-progress"));
    assert_eq!(lc.visits[0].duration.nanoseconds, 500_000_000);
}

#[test]
fn every_step_is_told_in_one_visit() {
    let t = ticket(ID, "x", open("review"));
    let history = vec![
        hist("state", "new", "set", 100),
        hist("state", "review", "set", 200),
        hist("a", "before all", "set", 99),
        hist("b", "at the start", "set", 100),
        hist("c", "at the end", "set", 200),
        hist("d", "now", "set", 10 * 86400),
        hist("e", "after now", "set", 11 * 86400),
    ];
    let lc = build_lifecycle(&t, &history, now());
    let fields = |i: usize| -> Vec<String> {
        lc.visits[i].steps.iter().map(|e| e.field.clone()).collect()
    };
    assert_eq!(fields(0), vec!["a", "b"]);
    assert_eq!(fields(1), vec!["c", "d", "e"]);
}

#[test]
fn nodes_stand_in_the_order_of_the_first_visits() {
    let t = ticket(ID, "x", state("resolved", TicketStatus::Closed));
    let history = vec![
        hist("state", "review", "set", 0),
        hist("state", "new", "set", 60),
        hist("state", "review", "set", 180),
        hist("state", "resolved", "set", 3600),
    ];
    let lc = build_lifecycle(&t, &history, now());
    let nodes = build_nodes_json(&lc);
    let expected = "{\"id\":\"review\",\"data\":{\"label\":\"<div class=\\\"lnode\\\">\
         <span class=\\\"lnode-state state-review\\\">review</span>\
         <span class=\\\"lnode-count\\\">\u{d7}2</span>\
         <div class=\\\"lnode-meta\\\">1m</div></div>\"},\"position\":{\"x\":40,\"y\":40},\
         \"type\":\"default\",\"draggable\":false},\
         {\"id\":\"new\",\"data\":{\"label\":\"<div class=\\\"lnode\\\">\
         <span class=\\\"lnode-state state-new\\\">new</span>\
         <div class=\\\"lnode-meta\\\">2m</div></div>\"},\"position\":{\"x\":260,\"y\":40},\
         \"type\":\"default\",\"draggable\":false},\
         {\"id\":\"resolved\",\"data\":{\"label\":\"<div class=\\\"lnode current\\\">\
         <span class=\\\"lnode-state state-resolved\\\">resolved \u{2713}</span>\
         <div class=\\\"lnode-meta\\\">current \u{b7} 9d</div></div>\"},\"position\":{\"x\":480,\"y\":40},\
         \"type\":\"default\",\"draggable\":false}";
    assert_eq!(nodes, expected);
    let json: serde_json::Value = serde_json::from_str(&format!("[{nodes}]")).unwrap();
    assert_eq!(json.as_array().unwrap().len(), 3);
    let closed = build_lifecycle(&ticket(ID, "x", named("wontfix")), &vec![], now());
    assert!(build_nodes_json(&closed).contains("wontfix \u{2717}</span>"));
}

#[test]
fn labels_are_json_strings() {
    let odd = open("a\"b\\c\n\t\r\u{8}\u{c}\u{1}\u{7f}é");
    let lc = build_lifecycle(&ticket(ID, "x", odd.clone()), &vec![], now());
    let nodes = build_nodes_json(&lc);
    assert!(nodes.contains("a&quot;b\\\\c\\n\\t\\r\\b\\f\\u0001\u{7f}é"));
    let label = nodes.split("\"label\":").nth(1).unwrap();
    let label = label.split("},\"position\"").next().unwrap();
    let text: String = serde_json::from_str(label).unwrap();
    assert!(text.contains("a&quot;b\\c\n\t\r\u{8}\u{c}\u{1}\u{7f}é"));
}

#[test]
fn no_visits_draw_nothing() {
    let none = Lifecycle { visits: Vec::new() };
    assert_eq!(build_nodes_json(&none), "");
    assert_eq!(build_edges_json(&none), "");
    assert!(lifecycle_is_showable(&none));
}

#[test]
fn steps_say_when_what_and_who() {
    let mut entry = hist("tags", "<bug>", "set_add", 86400 + 3600 + 120);
    assert_eq!(
        render_step(&entry),
        "<li class=\"lstep\"><time datetime=\"1970-01-02 01:02\">1970-01-02 01:02</time> \
         <span class=\"lstep-op\">added</span> <code>tags</code> \
         <span class=\"lstep-val\">&lt;bug&gt;</span> \
         <span class=\"lstep-who\">\u{b7} tester@example.com</span></li>"
    );
    let words = |op: &str| {
        let text = render_step(&hist("f", "v", op, 0));
        let from = text.find("lstep-op\">").unwrap() + 10;
        let to = text[from..].find('<').unwrap();
        text[from..from + to].to_string()
    };
    assert_eq!(words("set"), "set");
    assert_eq!(words("remove"), "removed");
    assert_eq!(words("set_remove"), "removed");
    assert_eq!(words("set_rm"), "removed");
    assert_eq!(words("push"), "added");
    assert_eq!(words("frob"), "frob");
    // The clock of the place where it happened: 1969-12-31 23:30 UTC is half past midnight there.
    entry.at.time = Timestamp::new(-1800, 0, 3600).unwrap();
    assert!(render_step(&entry).contains("datetime=\"1970-01-01 00:30\""));
}

#[test]
fn long_values_are_cut() {
    let shown = |value: &str| {
        let text = render_step(&hist("f", value, "set", 0));
        let from = text.find("lstep-val\">").unwrap() + 11;
        let to = text[from..].find('<').unwrap();
        text[from..from + to].to_string()
    };
    assert_eq!(shown(&"x".repeat(60)), "x".repeat(60));
    assert_eq!(shown(&"x".repeat(61)), format!("{}...", "x".repeat(57)));
    let accented = format!("{}é{}", "x".repeat(55), "y".repeat(10));
    assert_eq!(shown(&accented), format!("{}é...", "x".repeat(55)));
    assert!(value_is_showable(&accented));
    assert!(!value_is_showable(&format!("{}é{}", "x".repeat(56), "y".repeat(10))));
    assert!(value_is_showable(&"é".repeat(30)));
    let cut = format!("{}é{}", "x".repeat(56), "y".repeat(10));
    let lc = build_lifecycle(
        &ticket(ID, "x", open("new")),
        &vec![hist("f", &cut, "set", 0)],
        now(),
    );
    assert!(!lifecycle_is_showable(&lc));
}

#[test]
fn visits_are_told_on_the_timeline() {
    let t = ticket(ID, "x", open("review"));
    let history = vec![
        hist("state", "new", "set", 0),
        hist("tags", "bug", "set_add", 50),
        hist("state", "review", "set", 7200),
    ];
    let lc = build_lifecycle(&t, &history, now());
    let told = render_visit(&lc.visits[0]);
    assert!(told.starts_with(
        "<div class=\"lvisit\"><div class=\"lvisit-header\"><span class=\"lseq\">#0</span>\
         <span class=\"badge state-new\">new</span><span class=\"ldur\">2h</span>\
         <span class=\"lwhen\">0s ago</span><span class=\"lwho\">\u{b7} tester@example.com</span></div>\
         <ul class=\"lsteps\"><li class=\"lstep\">"
    ));
    assert!(told.ends_with("</li></ul></div>"));
    assert!(render_visit(&lc.visits[1])
        .ends_with("<div class=\"lsteps-empty\">No changes during this state.</div></div>"));
}

#[test]
fn lifecycles_of_unknown_tickets_are_404() {
    let missing = Err("no ticket `zz`".to_string());
    assert!(is_history_showable(&missing, &vec![], now()));
    let answer = response(&missing, &vec![], now());
    assert_eq!(answer.status, 404);
    let found = Ok(ticket(ID, "a <b>", open("new")));
    let history = vec![hist("state", "new", "set", 0)];
    assert!(is_history_showable(&found, &history, now()));
    let answer = response(&found, &history, now());
    assert_eq!(answer.status, 200);
    let html = String::from_utf8(answer.body).unwrap();
    assert!(html.contains("<title>d7f2d8 \u{b7} lifecycle</title>"));
    assert!(html.contains("<h1>a &lt;b&gt;</h1>"));
    assert!(html.contains(
        "<nav class=\"detail-nav\"><a href=\"/t/d7f2d8\">Ticket</a>\
         <a href=\"/t/d7f2d8/flow\" class=\"active\">Lifecycle</a></nav></header>\
         <div class=\"flow-wrap\" id=\"flow\"></div>\
         <section class=\"lifecycle-timeline\"><h2>Timeline</h2><div class=\"lvisit\">"
    ));
}

#[test]
fn the_script_holds_nodes_and_edges() {
    let script = bootstrap_script("NODES", "EDGES");
    assert!(script.starts_with("(function() {\nvar React = window.React;\n"));
    assert!(script.contains("var nodes = [NODES].map(function(n) {\n  return Object.assign({}, n, { style: { width: 180 } });\n});\n"));
    assert!(script.contains("var edges = [EDGES].map(function(e) {\n  return Object.assign({}, e, {\n    markerEnd: { type: ReactFlow.MarkerType.ArrowClosed },\n"));
    assert!(script.ends_with("ReactDOM.createRoot(flowEl).render(React.createElement(Flow));\n})();\n"));
    let page = flow_document("a<b", "BODY", "N", "E");
    assert!(page.contains("<title>a&lt;b</title><style>:root{"));
    assert!(page.contains(".lsteps-empty{padding:8px 12px;color:var(--dim);font-size:12px}</style>\
         <link rel=\"stylesheet\" href=\"/assets/xyflow.css\"></head><body><main>BODY</main>\
         <script src=\"/assets/react.min.js\"></script>\
         <script src=\"/assets/react-dom.min.js\"></script>\
         <script src=\"/assets/jsx-runtime-shim.js\"></script>\
         <script src=\"/assets/xyflow.min.js\"></script><script>(function() {"));
    assert!(page.ends_with("})();\n</script></body></html>\n"));
}

// -- points in time ---------------------------------------------------------

#[test]
fn points_in_time_are_within_ten_thousand_years() {
    assert!(Timestamp::new(253402300799, 999_999_999, 0).is_some());
    assert!(Timestamp::new(253402300800, 0, 0).is_none());
    assert!(Timestamp::new(253402300800, 0, -1).is_some());
    assert!(Timestamp::new(-377705116800, 0, 0).is_some());
    assert!(Timestamp::new(-377705116801, 0, 0).is_none());
    assert!(Timestamp::new(0, 1_000_000_000, 0).is_none());
    assert!(Timestamp::new(0, 0, 93599).is_some());
    assert!(Timestamp::new(0, 0, 93600).is_none());
    let t = Timestamp::new(-1, 250_000_000, 60).unwrap();
    assert_eq!(t.unix_timestamp(), -1);
    assert_eq!(t.unix_nanos(), -750_000_000);
}

#[test]
fn points_in_time_have_a_text() {
    let text = |s: i64, n: u32, o: i32| Timestamp::new(s, n, o).unwrap().text();
    assert_eq!(text(0, 0, 0), "1970-01-01T00:00:00Z");
    assert_eq!(text(951782400, 0, 0), "2000-02-29T00:00:00Z");
    assert_eq!(text(1700000000, 120_000_000, 5400), "2023-11-14T23:43:20.12+01:30");
    assert_eq!(text(1700000000, 1, -3600), "2023-11-14T21:13:20.000000001-01:00");
    // RFC 3339 knows neither years before the first nor offsets with seconds.
    assert_eq!(text(-62167219201, 0, 0), "-0001-12-31 23:59:59.0 +00:00:00");
    assert_eq!(text(0, 0, 1), "1970-01-01 0:00:01.0 +00:00:01");
    assert_eq!(text(0, 0, 86400), "1970-01-02 0:00:00.0 +24:00:00");
    assert_eq!(text(43200, 250_000_000, -3601), "1970-01-01 10:59:59.25 -01:00:01");
    assert_eq!(text(-377705116800, 1, 0), "-9999-01-01 0:00:00.000000001 +00:00:00");
}

#[test]
fn local_dates_and_clocks() {
    let t = Timestamp::new(1709251199, 0, 0).unwrap();
    assert_eq!(t.date_text(), "2024-02-29");
    assert_eq!(t.clock_text(), "23:59");
    let t = Timestamp::new(1709251199, 0, 1).unwrap();
    assert_eq!(t.date_text(), "2024-03-01");
    assert_eq!(t.clock_text(), "00:00");
    let t = Timestamp::new(-377705116800, 0, 0).unwrap();
    assert_eq!(t.date_text(), "-9999-01-01");
    let t = Timestamp::new(-62135596800, 0, 0).unwrap();
    assert_eq!(t.date_text(), "0001-01-01");
    let t = Timestamp::new(-62198755200, 0, 0).unwrap();
    assert_eq!(t.date_text(), "-001-01-01");
}
