use ticgit::html::document;
use ticgit::html::error_page;
use ticgit::html::escape;
use ticgit::html::filter_chip;
use ticgit::html::flatten;
use ticgit::html::hidden_input;
use ticgit::html::tag_hue;
use ticgit::page::Page;
use ticgit::page::Server;
use ticgit::percent::percent_decodable;
use ticgit::percent::percent_decode;
use ticgit::percent::percent_encode;
use ticgit::request::content_length;
use ticgit::request::parse_query;
use ticgit::request::parse_request;
use ticgit::request::parse_request_line;
use ticgit::request::query_is_decodable;
use ticgit::request::request_line_is_decodable;
use ticgit::request::Request;
use ticgit::request::RequestHead;
use ticgit::response::reason;
use ticgit::response::Response;
use ticgit::serve::can_route;
use ticgit::serve::generate_csrf_token;
use ticgit::serve::repo_name;
use ticgit::serve::route;
use ticgit::serve::serve_asset;
use ticgit::serve::Args;
use ticgit::serve::Assets;
use ticgit::serve::Route;

fn request(target: &str) -> Request {
    parse_request_line(&format!("GET {target} HTTP/1.1\r\n")).unwrap()
}

fn readonly_server() -> Server {
    Server {
        edit: false,
        csrf: "test-csrf".to_string(),
    }
}

fn edit_server() -> Server {
    Server {
        edit: true,
        csrf: "test-csrf".to_string(),
    }
}

fn assets() -> Assets {
    Assets {
        react_js: "react".to_string(),
        react_dom_js: "react-dom".to_string(),
        xyflow_js: "xyflow".to_string(),
        xyflow_css: "xyflow-css".to_string(),
        jsx_shim_js: "shim".to_string(),
    }
}

fn status_of(route: Route) -> u16 {
    match route {
        Route::Reply { response } => response.status,
        Route::Edit {
            step: ticgit::edit::Step::Reply { response },
        } => response.status,
        other => panic!("no reply: {other:?}"),
    }
}

#[test]
fn parses_request_line_into_path_and_params() {
    let req = request("/?status=closed&tag=bug&tag=ui");
    assert_eq!(req.method, "GET");
    assert_eq!(req.path, "/");
    assert_eq!(req.param("status"), Some("closed"));
    assert_eq!(req.param_values("tag"), vec!["bug", "ui"]);
}

#[test]
fn percent_decoding_handles_escapes_and_plus() {
    assert_eq!(percent_decode("a%20b+c"), "a b c");
    assert_eq!(percent_decode("caf%C3%A9"), "café");
    assert_eq!(percent_decode("100%"), "100%");
}

#[test]
fn percent_encode_round_trips() {
    let value = "tag with spaces & ?=#";
    assert_eq!(percent_decode(&percent_encode(value)), value);
}

#[test]
fn form_body_is_parsed_into_fields() {
    let mut req = parse_request_line("POST /t/abc/comment HTTP/1.1\r\n").unwrap();
    req.body = b"body=hello+world&csrf=test-csrf".to_vec();
    assert_eq!(req.form_field("body"), Some("hello world".to_string()));
    assert_eq!(req.form_field("csrf"), Some("test-csrf".to_string()));
    assert_eq!(req.form_field("missing"), None);
}

#[test]
fn unknown_paths_are_404_and_non_get_is_405() {
    let server = readonly_server();
    let response = route(&request("/nope"), &server, &assets());
    assert_eq!(status_of(response), 404);

    let post = parse_request_line("POST / HTTP/1.1\r\n").unwrap();
    // Read-only server rejects POST everywhere.
    assert_eq!(status_of(route(&post, &server, &assets())), 405);
}

#[test]
fn post_to_non_edit_path_is_405_even_in_edit_mode() {
    let server = edit_server();
    let post = parse_request_line("POST / HTTP/1.1\r\n").unwrap();
    assert_eq!(status_of(route(&post, &server, &assets())), 405);
}

#[test]
fn redirect_response_carries_location_header() {
    let resp = Response::redirect("/t/abc");
    assert_eq!(resp.status, 303);
    assert_eq!(resp.location.as_deref(), Some("/t/abc"));
    assert!(resp.head().contains("\r\nLocation: /t/abc\r\n"));
    assert_eq!(
        String::from_utf8(resp.body).unwrap(),
        "<!doctype html><meta charset=utf-8><title>See Other</title><a href=\"/t/abc\">continue</a>"
    );
}

#[test]
fn percent_encoding_writes_upper_case_bytes() {
    assert_eq!(percent_encode("aZ09-_.~"), "aZ09-_.~");
    assert_eq!(percent_encode("é/"), "%C3%A9%2F");
    assert_eq!(percent_encode("a b\n"), "a%20b%0A");
    assert_eq!(percent_encode(""), "");
}

#[test]
fn percent_decoding_leaves_what_is_no_escape() {
    assert_eq!(percent_decode("%zz%4"), "%zz%4");
    assert_eq!(percent_decode("%+5"), "\u{5}");
    assert_eq!(percent_decode("%41%61"), "Aa");
    assert_eq!(percent_decode("%FF"), "\u{fffd}");
    assert_eq!(percent_decode("a%C3"), "a\u{fffd}");
}

#[test]
fn decoding_needs_whole_characters_behind_a_percent() {
    assert!(percent_decodable("%41é"));
    assert!(percent_decodable("%é"));
    assert!(!percent_decodable("%aéb"));
    assert!(query_is_decodable("a=1&b=%41"));
    assert!(!query_is_decodable("a=1&b=%aé"));
    assert!(request_line_is_decodable("GET /?a=b HTTP/1.1\r\n"));
    assert!(!request_line_is_decodable("GET /%aé HTTP/1.1\r\n"));
}

#[test]
fn queries_skip_empty_pieces_and_allow_missing_values() {
    let pair = |k: &str, v: &str| (k.to_string(), v.to_string());
    assert_eq!(
        parse_query("a=1&&b&c=x=y"),
        vec![pair("a", "1"), pair("b", ""), pair("c", "x=y")]
    );
    assert!(parse_query("").is_empty());
}

#[test]
fn flags_accept_a_few_spellings() {
    let req = request("/?a=1&b=true&c=yes&d&e=no");
    assert!(req.flag("a") && req.flag("b") && req.flag("c") && req.flag("d"));
    assert!(!req.flag("e") && !req.flag("f"));
}

#[test]
fn request_lines_need_a_method_and_a_target() {
    assert!(parse_request_line("").is_none());
    assert!(parse_request_line("GET\r\n").is_none());
    let req = parse_request_line("  GET   /a%20b?x=%31  ").unwrap();
    assert_eq!(req.method, "GET");
    assert_eq!(req.path, "/a b");
    assert_eq!(req.param("x"), Some("1"));
    assert!(req.body.is_empty());
    let req = parse_request("POST /t/a/b HTTP/1.1\r\n", b"x=1".to_vec()).unwrap();
    assert_eq!(req.form(), vec![("x".to_string(), "1".to_string())]);
    assert!(parse_request("", b"x=1".to_vec()).is_none());
}

#[test]
fn a_form_that_is_not_utf8_has_no_fields() {
    let mut req = request("/");
    req.body = vec![0x61, 0x3d, 0xff];
    assert!(req.form_is_decodable());
    assert!(req.form().is_empty());
}

#[test]
fn content_length_is_read_and_capped() {
    assert_eq!(content_length("Content-Length: 12\r\n"), Some(12));
    assert_eq!(content_length("CONTENT-length : +7\r\n"), Some(7));
    assert_eq!(content_length("Content-Length: 999999\r\n"), Some(64 * 1024));
    assert_eq!(content_length("Content-Length: many\r\n"), None);
    assert_eq!(content_length("Content-Type: text/plain\r\n"), None);
    assert_eq!(content_length("Content-Length 12\r\n"), None);
}

#[test]
fn headers_end_at_an_empty_line_or_the_cap() {
    let mut head = RequestHead::new("POST / HTTP/1.1\r\n");
    assert!(head.take_header("Content-Length: 3\r\n"));
    assert!(head.take_header("Host: x\r\n"));
    assert!(!head.take_header("\r\n"));
    assert_eq!(head.body_len(), 3);

    let mut head = RequestHead::new("GET / HTTP/1.1\r\n");
    assert!(!head.take_header(""));
    assert_eq!(head.body_len(), 0);

    let mut head = RequestHead::new("GET / HTTP/1.1\r\n");
    let long = "x".repeat(16 * 1024);
    assert!(!head.take_header(&long));
    assert!(!head.take_header("Content-Length: 3\r\n"));
    assert_eq!(head.body_len(), 0);
}

#[test]
fn responses_have_a_head() {
    let resp = Response::html(200, "<p>é</p>".to_string());
    assert_eq!(
        resp.head(),
        "HTTP/1.1 200 OK\r\nContent-Type: text/html; charset=utf-8\r\nContent-Length: 9\r\n\
         Cache-Control: no-store\r\nConnection: close\r\n\r\n"
    );
    let empty = Response::empty(204);
    assert_eq!(empty.content_type, "text/plain; charset=utf-8");
    assert!(empty.body.is_empty());
    assert!(empty.head().starts_with("HTTP/1.1 204 No Content\r\n"));
    let made = Response::new(404, "text/css; charset=utf-8", vec![1, 2]);
    assert_eq!(made.body, vec![1, 2]);
    assert_eq!(made.location, None);
}

#[test]
fn reasons_are_known_for_the_statuses_in_use() {
    assert_eq!(reason(200), "OK");
    assert_eq!(reason(204), "No Content");
    assert_eq!(reason(303), "See Other");
    assert_eq!(reason(404), "Not Found");
    assert_eq!(reason(405), "Method Not Allowed");
    assert_eq!(reason(500), "Internal Server Error");
    assert_eq!(reason(418), "OK");
}

#[test]
fn pages_are_routed_by_their_path() {
    let server = edit_server();
    let at = |target: &str| route(&request(target), &server, &assets());
    assert_eq!(at("/"), Route::List);
    assert_eq!(at("/?q=x"), Route::List);
    assert_eq!(at("/kanban"), Route::Kanban);
    assert_eq!(at("/tickets.json"), Route::Json);
    assert_eq!(
        at("/t/abc"),
        Route::Detail {
            reference: "abc".to_string()
        }
    );
    assert_eq!(
        at("/t/abc/flow"),
        Route::Flow {
            reference: "abc".to_string()
        }
    );
    assert_eq!(status_of(at("/favicon.ico")), 204);
    assert_eq!(status_of(at("/t/")), 404);
    assert_eq!(status_of(at("/assets/nope.js")), 404);
    assert_eq!(status_of(at("/assets/react.min.js")), 200);
    let head = parse_request_line("HEAD / HTTP/1.1\r\n").unwrap();
    assert_eq!(route(&head, &server, &assets()), Route::List);
    let put = parse_request_line("PUT / HTTP/1.1\r\n").unwrap();
    assert_eq!(status_of(route(&put, &server, &assets())), 405);
}

#[test]
fn only_a_post_with_the_token_changes_a_ticket() {
    let mut post = parse_request_line("POST /t/abc/comment HTTP/1.1\r\n").unwrap();
    post.body = b"body=hi&csrf=test-csrf".to_vec();
    assert!(can_route(&post, &edit_server()));
    assert!(matches!(
        route(&post, &edit_server(), &assets()),
        Route::Edit {
            step: ticgit::edit::Step::Apply { .. }
        }
    ));
    assert_eq!(status_of(route(&post, &readonly_server(), &assets())), 405);
    post.body = b"body=hi".to_vec();
    assert_eq!(status_of(route(&post, &edit_server(), &assets())), 303);
    post.method = "GET".to_string();
    assert!(matches!(
        route(&post, &edit_server(), &assets()),
        Route::Detail { .. }
    ));
    post.method = "POST".to_string();
    post.body = "body=%aé".as_bytes().to_vec();
    assert!(!can_route(&post, &edit_server()));
    assert!(can_route(&post, &readonly_server()));
}

#[test]
fn assets_come_with_their_type() {
    let text = |name: &str| {
        let resp = serve_asset(name, &assets());
        (
            resp.status,
            resp.content_type,
            String::from_utf8(resp.body).unwrap(),
        )
    };
    let js = "text/javascript; charset=utf-8";
    assert_eq!(text("react.min.js"), (200, js, "react".to_string()));
    assert_eq!(text("react-dom.min.js"), (200, js, "react-dom".to_string()));
    assert_eq!(text("xyflow.min.js"), (200, js, "xyflow".to_string()));
    assert_eq!(text("jsx-runtime-shim.js"), (200, js, "shim".to_string()));
    assert_eq!(
        text("xyflow.css"),
        (200, "text/css; charset=utf-8", "xyflow-css".to_string())
    );
    let (status, _, page) = text("x");
    assert_eq!(status, 404);
    assert!(page.contains("No such asset."));
}

#[test]
fn tokens_mix_time_and_process() {
    assert_eq!(
        generate_csrf_token(0, 255),
        "000000000000000000000000000000ff"
    );
    assert_eq!(
        generate_csrf_token(0x1234_5678_9abc_def0, 0xf),
        "0000000000000000123456789abcdeff"
    );
    assert_eq!(
        generate_csrf_token(u128::MAX, 0),
        "ffffffffffffffffffffffffffffffff"
    );
}

#[test]
fn servers_and_pages_take_over_their_settings() {
    let args = Args::default();
    assert_eq!(args.port, 8177);
    assert_eq!(args.bind, "127.0.0.1");
    assert!(!args.open && !args.edit);
    let server = Server::new(
        &Args {
            edit: true,
            ..Args::default()
        },
        "token".to_string(),
    );
    assert!(server.edit);
    assert_eq!(server.csrf, "token");
    let page = Page::new("repo".to_string(), "me@example.com".to_string(), &server);
    assert_eq!(page.repo, "repo");
    assert_eq!(page.current_user, "me@example.com");
    assert!(page.edit);
    assert_eq!(page.csrf, "token");
    assert_eq!(repo_name(Some("ticgit".to_string())), "ticgit");
    assert_eq!(repo_name(None), "tickets");
}

#[test]
fn markup_is_escaped() {
    assert_eq!(escape("<a b=\"c\">'&'</a>"), "&lt;a b=&quot;c&quot;&gt;&#39;&amp;&#39;&lt;/a&gt;");
    assert_eq!(escape("plain é"), "plain é");
    assert_eq!(flatten("a\nb\r\tc"), "a b  c");
    assert_eq!(
        hidden_input("a", "\"x\""),
        "<input type=\"hidden\" name=\"a\" value=\"&quot;x&quot;\">"
    );
    assert_eq!(
        filter_chip("tag:<b>", "/?a=1&b=2"),
        "<a class=\"chip\" href=\"/?a=1&amp;b=2\">tag:&lt;b&gt; \u{d7}</a>"
    );
}

#[test]
fn hues_follow_the_bytes() {
    assert_eq!(tag_hue(""), 0);
    assert_eq!(tag_hue("a"), 97 % 8);
    assert_eq!(tag_hue("bug"), ((98 * 31 + 117) * 31 + 103) % 8);
    assert!(tag_hue("a very long tag that makes the sum wrap around, more than once") < 8);
}

#[test]
fn documents_frame_their_body() {
    let page = document("a & b", "<p>x</p>");
    assert!(page.starts_with(
        "<!doctype html>\n<html lang=\"en\"><head><meta charset=\"utf-8\">\
         <meta name=\"viewport\" content=\"width=device-width,initial-scale=1\">\
         <title>a &amp; b</title><style>:root{color-scheme:light dark;"
    ));
    assert!(page.contains("</style></head><body><main><p>x</p></main><script>function kanbanToggle(b){{"));
    assert!(page.ends_with("</script></body></html>\n"));
    let error = error_page("404 - x", "no <such> page");
    assert!(error.contains(
        "<header class=\"detail\"><a class=\"back\" href=\"/\">\u{2190} all tickets</a>\
         <h1>404 - x</h1></header><pre class=\"prose\">no &lt;such&gt; page</pre>"
    ));
}
