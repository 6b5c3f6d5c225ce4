//! Responses and how they go over the wire.

use vstd::prelude::*;
use vstd::slice::*;
use vstd::string::*;
use vstd::utf8::*;

use crate::html::error_page;
use crate::html::escape;
use crate::number::count_text;
use crate::number::unsigned_text;
use crate::text::out_push;

verus! {

// -- model ------------------------------------------------------------------

/// A response, as mathematical values.
#[verifier::ext_equal]
pub struct ResponseView {
    pub status: int,
    pub content_type: Seq<char>,
    pub body: Seq<u8>,
    pub location: Option<Seq<char>>,
}

/// The response that shows a page.
pub open spec fn html_response(status: int, page: Seq<char>) -> ResponseView {
    ResponseView {
        status,
        content_type: "text/html; charset=utf-8"@,
        body: encode_utf8(page),
        location: None,
    }
}

/// The response that shows an error page.
pub open spec fn error_response(status: int, title: Seq<char>, detail: Seq<char>) -> ResponseView {
    html_response(status, crate::html::error_page_html(title, detail))
}

/// The page for clients that do not follow a redirect.
pub open spec fn redirect_html(location: Seq<char>) -> Seq<char> {
    "<!doctype html><meta charset=utf-8><title>See Other</title><a href=\""@
        + crate::html::escaped(location) + "\">continue</a>"@
}

/// The response that sends the client to `location`.
pub open spec fn redirect_response(location: Seq<char>) -> ResponseView {
    ResponseView {
        location: Some(location),
        ..html_response(303, redirect_html(location))
    }
}

/// The reason phrase of a status.
pub open spec fn reason_phrase(status: int) -> Seq<char> {
    if status == 204 {
        "No Content"@
    } else if status == 303 {
        "See Other"@
    } else if status == 404 {
        "Not Found"@
    } else if status == 405 {
        "Method Not Allowed"@
    } else if status == 500 {
        "Internal Server Error"@
    } else {
        "OK"@
    }
}

/// The `Location` header, where there is one.
pub open spec fn location_header(location: Option<Seq<char>>) -> Seq<char> {
    match location {
        Some(to) => "Location: "@ + to + "\r\n"@,
        None => Seq::empty(),
    }
}

/// The status line and the headers, with the empty line that ends them.
pub open spec fn head_text(response: ResponseView) -> Seq<char> {
    "HTTP/1.1 "@ + crate::number::decimal(response.status) + " "@ + reason_phrase(response.status)
        + "\r\nContent-Type: "@ + response.content_type + "\r\nContent-Length: "@
        + crate::number::decimal(response.body.len() as int)
        + "\r\nCache-Control: no-store\r\nConnection: close\r\n"@ + location_header(
        response.location,
    ) + "\r\n"@
}

// -- responses --------------------------------------------------------------

/// A response to a client.
#[derive(Debug, Clone, PartialEq, Eq)]
pub struct Response {
    pub status: u16,
    pub content_type: &'static str,
    pub body: Vec<u8>,
    /// Set on a redirect; written as the `Location` header.
    pub location: Option<String>,
}

impl View for Response {
    type V = ResponseView;

    open spec fn view(&self) -> ResponseView {
        ResponseView {
            status: self.status as int,
            content_type: self.content_type@,
            body: self.body@,
            location: self.location.deep_view(),
        }
    }
}

impl Response {
    /// A response that is no redirect.
    pub fn new(status: u16, content_type: &'static str, body: Vec<u8>) -> (r: Response)
        ensures
            r@ == (ResponseView {
                status: status as int,
                content_type: content_type@,
                body: body@,
                location: None,
            }),
    {
        Response { status, content_type, body, location: None }
    }

    /// A response that shows a page.
    pub fn html(status: u16, body: String) -> (r: Response)
        ensures
            r@ == html_response(status as int, body@),
    {
        Response::new(
            status,
            "text/html; charset=utf-8",
            slice_to_vec(body.as_str().as_bytes()),
        )
    }

    /// A response without a body.
    pub fn empty(status: u16) -> (r: Response)
        ensures
            r@ == (ResponseView {
                status: status as int,
                content_type: "text/plain; charset=utf-8"@,
                body: Seq::empty(),
                location: None,
            }),
    {
        Response::new(status, "text/plain; charset=utf-8", Vec::new())
    }

    /// A response that shows an error page.
    pub fn error(status: u16, title: &str, detail: &str) -> (r: Response)
        ensures
            r@ == error_response(status as int, title@, detail@),
    {
        Response::html(status, error_page(title, detail))
    }

    /// The response to a request that failed on the server's side.
    pub fn server_error(detail: &str) -> (r: Response)
        ensures
            r@ == error_response(500, "500 - server error"@, detail@),
    {
        Response::error(500, "500 - server error", detail)
    }

    /// `303 See Other`: the answer to every form, so that a refresh does not submit it again. The
    /// body is a link for clients that do not follow the `Location` header.
    pub fn redirect(location: &str) -> (r: Response)
        ensures
            r@ == redirect_response(location@),
    {
        let mut body =
            "<!doctype html><meta charset=utf-8><title>See Other</title><a href=\"".to_owned();
        out_push(&mut body, escape(location).as_str());
        out_push(&mut body, "\">continue</a>");
        let page = Response::html(303, body);
        Response {
            status: page.status,
            content_type: page.content_type,
            body: page.body,
            location: Some(location.to_owned()),
        }
    }

    /// The status line and the headers, with the empty line that ends them. The body follows it
    /// as it is.
    pub fn head(&self) -> (r: String)
        ensures
            r@ == head_text(self@),
    {
        let mut head = "HTTP/1.1 ".to_owned();
        out_push(&mut head, unsigned_text(self.status as u128).as_str());
        out_push(&mut head, " ");
        out_push(&mut head, reason(self.status));
        out_push(&mut head, "\r\nContent-Type: ");
        out_push(&mut head, self.content_type);
        out_push(&mut head, "\r\nContent-Length: ");
        out_push(&mut head, count_text(self.body.len()).as_str());
        out_push(&mut head, "\r\nCache-Control: no-store\r\nConnection: close\r\n");
        let mut header = String::new();
        if let Some(to) = &self.location {
            header = "Location: ".to_owned();
            out_push(&mut header, to.as_str());
            out_push(&mut header, "\r\n");
        }
        out_push(&mut head, header.as_str());
        out_push(&mut head, "\r\n");
        head
    }
}

/// The reason phrase of a status.
pub fn reason(status: u16) -> (r: &'static str)
    ensures
        r@ == reason_phrase(status as int),
{
    match status {
        200 => "OK",
        204 => "No Content",
        303 => "See Other",
        404 => "Not Found",
        405 => "Method Not Allowed",
        500 => "Internal Server Error",
        _ => "OK",
    }
}

// -- laws -------------------------------------------------------------------

/// A page goes out as HTML, with its status, and its bytes are those of its text.
pub proof fn a_page_goes_out_as_it_is(status: u16, body: String, r: Response)
    requires
        call_ensures(Response::html, (status, body), r),
    ensures
        r.status == status,
        r.content_type@ == "text/html; charset=utf-8"@,
        decode_utf8(r.body@) == body@,
        r.location is None,
{
    encode_utf8_decode_utf8(body@);
}

/// A response is made of what it is given, and is no redirect; one without a body has none.
pub proof fn a_response_is_what_it_is_made_of(
    status: u16,
    content_type: &'static str,
    body: Vec<u8>,
    r: Response,
    nothing: Response,
)
    requires
        call_ensures(Response::new, (status, content_type, body), r),
        call_ensures(Response::empty, (status,), nothing),
    ensures
        r.status == status,
        r.content_type@ == content_type@,
        r.body@ == body@,
        r.location is None,
        nothing.status == status,
        nothing.content_type@ == "text/plain; charset=utf-8"@,
        nothing.body@.len() == 0,
        nothing.location is None,
{
}

/// An error goes out as the error page, with its status; a failure of the server as 500, with the
/// reason on the page.
pub proof fn an_error_goes_out_as_its_page(
    status: u16,
    title: &str,
    detail: &str,
    r: Response,
    page: String,
    failure: Response,
    failure_page: String,
)
    requires
        call_ensures(Response::error, (status, title, detail), r),
        call_ensures(error_page, (title, detail), page),
        call_ensures(Response::server_error, (detail,), failure),
        call_ensures(error_page, ("500 - server error", detail), failure_page),
    ensures
        r.status == status,
        r.content_type@ == "text/html; charset=utf-8"@,
        r.body@ == encode_utf8(page@),
        r.location is None,
        failure.status == 500,
        failure.content_type@ == "text/html; charset=utf-8"@,
        failure.body@ == encode_utf8(failure_page@),
        failure.location is None,
{
}

/// A redirect sends the client to the address that it was made for, and its body is a link to that
/// address.
pub proof fn a_redirect_leads_where_it_says(location: &str, r: Response) -> (page: Seq<char>)
    requires
        call_ensures(Response::redirect, (location,), r),
    ensures
        r.status == 303,
        r.content_type@ == "text/html; charset=utf-8"@,
        r.location matches Some(to) && to@ == location@,
        r.body@ == encode_utf8(page),
        crate::text::holds(
            page,
            crate::html::escaped(location@) + "\">continue</a>"@,
        ),
{
    broadcast use crate::text::group_holds;

    redirect_html(location@)
}

/// The head of a response tells its status, what its body is and how long it is in bytes, and where a
/// redirect leads; nothing is kept, and the connection is closed.
pub proof fn the_head_tells_of_the_response(response: &Response, r: String, phrase: &'static str)
    requires
        call_ensures(Response::head, (response,), r),
        call_ensures(reason, (response.status,), phrase),
    ensures
        r@ == "HTTP/1.1 "@ + crate::number::decimal(response.status as int) + " "@ + phrase@
            + "\r\nContent-Type: "@ + response.content_type@ + "\r\nContent-Length: "@
            + crate::number::decimal(response.body@.len() as int)
            + "\r\nCache-Control: no-store\r\nConnection: close\r\n"@ + (match response.location {
            Some(to) => "Location: "@ + to@ + "\r\n"@,
            None => Seq::empty(),
        }) + "\r\n"@,
{
}

/// Each status that the server answers with has its own phrase.
pub proof fn each_status_has_its_phrase(status: u16, r: &'static str)
    requires
        call_ensures(reason, (status,), r),
    ensures
        status == 200 ==> r@ == "OK"@,
        status == 204 ==> r@ == "No Content"@,
        status == 303 ==> r@ == "See Other"@,
        status == 404 ==> r@ == "Not Found"@,
        status == 405 ==> r@ == "Method Not Allowed"@,
        status == 500 ==> r@ == "Internal Server Error"@,
{
}

} // verus!
