use ticgit::edit::check_csrf;
use ticgit::edit::redirect_to_detail;
use ticgit::html::escape;
use ticgit::html::flatten;
use ticgit::number::count_text;
use ticgit::number::padded_text;
use ticgit::number::parse_count;
use ticgit::number::parse_signed;
use ticgit::number::signed_text;
use ticgit::page::Server;
use ticgit::percent::percent_decode;
use ticgit::percent::percent_encode;
use ticgit::query::ListQuery;
use ticgit::request::parse_request_line;
use ticgit::request::Request;
use ticgit::serve::generate_csrf_token;
use ticgit::serve::route;
use ticgit::serve::Assets;
use ticgit::serve::Route;
use ticgit::text::join;
use ticgit::text::rsplit_once;
use ticgit::text::split;
use ticgit::text::split_once;
use ticgit::text::strip_prefix;
use ticgit::text::strip_suffix;
use ticgit::text::trim;

fn request(target: &str) -> Request {
    parse_request_line(&format!("GET {target} HTTP/1.1\r\n")).unwrap()
}

fn server(csrf: &str) -> Server {
    Server {
        edit: true,
        csrf: csrf.to_string(),
    }
}

fn assets() -> Assets {
    Assets {
        react_js: String::new(),
        react_dom_js: String::new(),
        xyflow_js: String::new(),
        xyflow_css: String::new(),
        jsx_shim_js: String::new(),
    }
}

#[test]
fn encoded_text_is_safe_and_reads_back() {
    for text in ["", "a b", "50% + 50%", "é\u{1f600}\n", "&=?#/"] {
        let encoded = percent_encode(text);
        assert!(encoded
            .chars()
            .all(|c| c.is_ascii_alphanumeric() || "-_.~%".contains(c)));
        assert_eq!(percent_decode(&encoded), text);
    }
}

#[test]
fn different_texts_escape_differently() {
    let texts = ["&", "&amp;", "<", "&lt;", "'", "\""];
    for a in texts {
        let escaped = escape(a);
        assert!(!escaped.contains(['<', '>', '"', '\'']));
        for b in texts {
            assert_eq!(escape(b) == escaped, a == b);
        }
    }
}

#[test]
fn one_line_stays_as_long() {
    let text = "a\r\nb\tc";
    assert_eq!(flatten(text), "a  b c");
    assert_eq!(flatten(text).len(), text.len());
}

#[test]
fn numbers_read_back_as_themselves() {
    for n in [0, 7, -7, 10, 12345, i64::MAX, i64::MIN] {
        assert_eq!(signed_text(n), n.to_string());
        assert_eq!(parse_signed(&signed_text(n)), Some(n));
    }
    assert_eq!(parse_signed("9223372036854775808"), None);
    assert_eq!(parse_signed("-9223372036854775809"), None);
    assert_eq!(parse_signed("+"), None);
    assert_eq!(parse_signed(""), None);
    assert_eq!(parse_count(&count_text(usize::MAX)), Some(usize::MAX));
    assert_eq!(parse_count("-1"), None);
    assert_eq!(parse_count("99999999999999999999999999999999999999999"), None);
    assert_eq!(padded_text(7, 3), "007");
    assert_eq!(padded_text(-7, 3), "-07");
    assert_eq!(padded_text(1234, 3), "1234");
}

#[test]
fn pieces_join_and_part_again() {
    let parts = vec!["a".to_string(), String::new(), "b c".to_string()];
    let text = join(&parts, "&");
    assert_eq!(text, "a&&b c");
    assert_eq!(split(&text, '&'), parts);
    assert_eq!(split("", '&'), vec![""]);
    let pair = |a: &str, b: &str| Some((a.to_string(), b.to_string()));
    assert_eq!(split_once("a=b=c", '='), pair("a", "b=c"));
    assert_eq!(rsplit_once("a=b=c", '='), pair("a=b", "c"));
    assert_eq!(split_once("abc", '='), None);
    assert_eq!(strip_prefix("/t/x", "/t/"), Some("x".to_string()));
    assert_eq!(strip_prefix("/x", "/t/"), None);
    assert_eq!(strip_suffix("x/flow", "/flow"), Some("x".to_string()));
    assert_eq!(strip_suffix("flow", "/flow"), None);
    assert_eq!(trim("\u{a0} x y\t\u{3000}"), "x y");
    assert_eq!(trim(&trim(" x ")), trim(" x "));
}

#[test]
fn a_generated_token_is_accepted_when_echoed() {
    let token = generate_csrf_token(1_700_000_000_123_456_789, 4242);
    assert_eq!(token.len(), 32);
    let mut post = parse_request_line("POST /t/abc/comment HTTP/1.1\r\n").unwrap();
    post.body = format!("body=x&csrf={}", percent_encode(&token)).into_bytes();
    assert!(check_csrf(&post, &server(&token)));
    assert!(!check_csrf(&post, &server("other")));
}

#[test]
fn redirects_and_links_lead_to_the_ticket() {
    let server = server("x");
    let location = redirect_to_detail("d7f2d8").location.unwrap();
    assert_eq!(
        route(&request(&location), &server, &assets()),
        Route::Detail {
            reference: "d7f2d8".to_string()
        }
    );
    assert_eq!(
        route(&request("/t/d7f2d8/flow"), &server, &assets()),
        Route::Flow {
            reference: "d7f2d8".to_string()
        }
    );
}

#[test]
fn filters_of_a_request_link_back_to_themselves() {
    for target in [
        "/",
        "/?status=+closed+&tag=+x+&tag=a%26b&q=50%25&subissues=yes",
        "/?all&order=created.desc&assigned=me%40example.com&state=in-progress",
    ] {
        let query = ListQuery::from_request(&request(target));
        assert_eq!(ListQuery::from_request(&request(&query.href(None))), query);
        let sorted = ListQuery::from_request(&request(&query.href(Some("title"))));
        assert_eq!(sorted.order.as_deref(), Some("title"));
        assert_eq!(
            ListQuery {
                order: query.order.clone(),
                ..sorted
            },
            query
        );
    }
}
