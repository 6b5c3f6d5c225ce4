//! What the server answers: which page, which asset, or which edit.

use vstd::prelude::*;
use vstd::slice::*;
use vstd::string::*;

use crate::edit::post_is_readable;
use crate::edit::route_post;
use crate::edit::Step;
use crate::number::hex_text;
use crate::page::Server;
use crate::request::Request;
use crate::response::Response;
use crate::text::same;
use crate::text::strip_prefix;
use crate::text::strip_suffix;

verus! {

// -- starting ---------------------------------------------------------------

/// The port to listen on where none is given.
pub const DEFAULT_PORT: u16 = 8177;

/// The address to bind where none is given.
pub const DEFAULT_BIND: &'static str = "127.0.0.1";

/// How to serve: the port, where 0 picks a free one, the address to bind, whether to open the page
/// in a browser, and whether to accept edits.
#[derive(Debug, Clone, PartialEq, Eq)]
pub struct Args {
    pub port: u16,
    pub bind: String,
    pub open: bool,
    pub edit: bool,
}

impl Default for Args {
    fn default() -> (r: Args)
        ensures
            r.port == DEFAULT_PORT,
            r.bind@ == DEFAULT_BIND@,
            !r.open,
            !r.edit,
    {
        Args { port: DEFAULT_PORT, bind: DEFAULT_BIND.to_owned(), open: false, edit: false }
    }
}

impl Server {
    /// The server that `args` ask for, with a token.
    pub fn new(args: &Args, csrf: String) -> (r: Server)
        ensures
            r.edit == args.edit,
            r.csrf@ == csrf@,
    {
        Server { edit: args.edit, csrf }
    }
}

/// A token: the nanoseconds since the start of 1970 and the process id, mixed and written with 32
/// hexadecimal digits.
pub fn generate_csrf_token(nanos: u128, process: u32) -> (r: String)
    ensures
        r@ == crate::number::hex((nanos ^ (process as u128)) as nat, 32),
{
    let seed: u128 = nanos ^ (process as u128);
    hex_text(seed, 32)
}

/// The name of the repository: that of its directory, or `tickets` where it has none.
pub fn repo_name(directory: Option<String>) -> (r: String)
    ensures
        r@ == (match directory {
            Some(name) => name@,
            None => "tickets"@,
        }),
{
    match directory {
        Some(name) => name,
        None => "tickets".to_owned(),
    }
}

// -- assets -----------------------------------------------------------------

/// The texts that the page of a graph loads.
#[derive(Debug, Clone, PartialEq, Eq)]
pub struct Assets {
    pub react_js: String,
    pub react_dom_js: String,
    pub xyflow_js: String,
    pub xyflow_css: String,
    pub jsx_shim_js: String,
}

/// A response with a script.
pub open spec fn script_response(text: Seq<char>) -> crate::response::ResponseView {
    crate::response::ResponseView {
        status: 200,
        content_type: "text/javascript; charset=utf-8"@,
        body: vstd::utf8::encode_utf8(text),
        location: None,
    }
}

/// A response with a style sheet.
pub open spec fn style_response(text: Seq<char>) -> crate::response::ResponseView {
    crate::response::ResponseView {
        status: 200,
        content_type: "text/css; charset=utf-8"@,
        body: vstd::utf8::encode_utf8(text),
        location: None,
    }
}

/// The response to a request for an asset.
pub open spec fn asset_response(name: Seq<char>, assets: Assets) -> crate::response::ResponseView {
    if name == "react.min.js"@ {
        script_response(assets.react_js@)
    } else if name == "react-dom.min.js"@ {
        script_response(assets.react_dom_js@)
    } else if name == "xyflow.min.js"@ {
        script_response(assets.xyflow_js@)
    } else if name == "xyflow.css"@ {
        style_response(assets.xyflow_css@)
    } else if name == "jsx-runtime-shim.js"@ {
        script_response(assets.jsx_shim_js@)
    } else {
        crate::response::error_response(404, "404 - not found"@, "No such asset."@)
    }
}

/// A response with a script.
fn script(text: &String) -> (r: Response)
    ensures
        r@ == script_response(text@),
{
    Response::new(
        200,
        "text/javascript; charset=utf-8",
        slice_to_vec(text.as_str().as_bytes()),
    )
}

/// The response to a request for an asset.
pub fn serve_asset(name: &str, assets: &Assets) -> (r: Response)
    ensures
        r@ == asset_response(name@, *assets),
{
    if same(name, "react.min.js") {
        script(&assets.react_js)
    } else if same(name, "react-dom.min.js") {
        script(&assets.react_dom_js)
    } else if same(name, "xyflow.min.js") {
        script(&assets.xyflow_js)
    } else if same(name, "xyflow.css") {
        Response::new(
            200,
            "text/css; charset=utf-8",
            slice_to_vec(assets.xyflow_css.as_str().as_bytes()),
        )
    } else if same(name, "jsx-runtime-shim.js") {
        script(&assets.jsx_shim_js)
    } else {
        Response::error(404, "404 - not found", "No such asset.")
    }
}

// -- routing ----------------------------------------------------------------

/// What a request asks for: an answer that is known at once, one of the pages, or an edit.
#[derive(Debug, Clone, PartialEq, Eq)]
pub enum Route {
    Reply { response: Response },
    List,
    Kanban,
    Json,
    Flow { reference: String },
    Detail { reference: String },
    Edit { step: Step },
}

/// A route, as mathematical values.
#[verifier::ext_equal]
pub enum RouteView {
    Reply { response: crate::response::ResponseView },
    List,
    Kanban,
    Json,
    Flow { reference: Seq<char> },
    Detail { reference: Seq<char> },
    Edit { step: crate::edit::StepView },
}

impl View for Route {
    type V = RouteView;

    open spec fn view(&self) -> RouteView {
        match self {
            Route::Reply { response } => RouteView::Reply { response: response@ },
            Route::List => RouteView::List,
            Route::Kanban => RouteView::Kanban,
            Route::Json => RouteView::Json,
            Route::Flow { reference } => RouteView::Flow { reference: reference@ },
            Route::Detail { reference } => RouteView::Detail { reference: reference@ },
            Route::Edit { step } => RouteView::Edit { step: step@ },
        }
    }
}

/// What a path under `/t/` asks for.
pub open spec fn ticket_route(reference: Seq<char>) -> RouteView {
    match crate::text::before_suffix(reference, "/flow"@) {
        Some(id) => RouteView::Flow { reference: id },
        None => RouteView::Detail { reference },
    }
}

/// What a request for a page asks for.
pub open spec fn page_route(path: Seq<char>, assets: Assets) -> RouteView {
    if path == "/"@ {
        RouteView::List
    } else if path == "/kanban"@ {
        RouteView::Kanban
    } else if path == "/tickets.json"@ {
        RouteView::Json
    } else if path == "/favicon.ico"@ {
        RouteView::Reply {
            response: crate::response::ResponseView {
                status: 204,
                content_type: "text/plain; charset=utf-8"@,
                body: Seq::empty(),
                location: None,
            },
        }
    } else {
        match crate::text::after_prefix(path, "/assets/"@) {
            Some(asset) => RouteView::Reply { response: asset_response(asset, assets) },
            None => match crate::text::after_prefix(path, "/t/"@) {
                Some(reference) => if reference.len() > 0 {
                    ticket_route(reference)
                } else {
                    not_found()
                },
                None => not_found(),
            },
        }
    }
}

/// The answer to a request for a page that there is not.
pub open spec fn not_found() -> RouteView {
    RouteView::Reply {
        response: crate::response::error_response(
            404,
            "404 - not found"@,
            "No page at that address."@,
        ),
    }
}

/// The answer to a request with a method that the server does not take.
pub open spec fn method_refusal(detail: Seq<char>) -> RouteView {
    RouteView::Reply {
        response: crate::response::error_response(405, "405 - method not allowed"@, detail),
    }
}

/// What a request asks for.
pub open spec fn route_of(
    request: crate::request::RequestView,
    server: Server,
    assets: Assets,
) -> RouteView {
    if request.method == "POST"@ {
        if server.edit {
            RouteView::Edit { step: crate::edit::post_step(request, server) }
        } else {
            method_refusal(
                "This server is read-only. Restart with `ti serve --edit` to mutate tickets."@,
            )
        }
    } else if request.method == "GET"@ || request.method == "HEAD"@ {
        page_route(request.path, assets)
    } else {
        method_refusal("This server only answers GET."@)
    }
}

/// Whether the form of a request can be read where it has to be.
pub open spec fn is_routable(request: crate::request::RequestView, server: Server) -> bool {
    request.method == "POST"@ && server.edit ==> crate::edit::is_readable_post(request)
}

/// Whether the form of a request can be read where it has to be.
pub fn can_route(request: &Request, server: &Server) -> (r: bool)
    ensures
        r == is_routable(request@, *server),
{
    !(same(request.method.as_str(), "POST") && server.edit) || post_is_readable(request)
}

/// What a path under `/t/` asks for.
fn route_ticket(reference: String) -> (r: Route)
    ensures
        r@ == ticket_route(reference@),
{
    match strip_suffix(reference.as_str(), "/flow") {
        Some(id) => Route::Flow { reference: id },
        None => Route::Detail { reference },
    }
}

/// The answer to a request for a page that there is not.
fn no_page() -> (r: Route)
    ensures
        r@ == not_found(),
{
    Route::Reply { response: Response::error(404, "404 - not found", "No page at that address.") }
}

/// What a request for a page asks for.
fn route_page(path: &str, assets: &Assets) -> (r: Route)
    ensures
        r@ == page_route(path@, *assets),
{
    if same(path, "/") {
        return Route::List;
    }
    if same(path, "/kanban") {
        return Route::Kanban;
    }
    if same(path, "/tickets.json") {
        return Route::Json;
    }
    if same(path, "/favicon.ico") {
        return Route::Reply { response: Response::empty(204) };
    }
    match strip_prefix(path, "/assets/") {
        Some(asset) => Route::Reply { response: serve_asset(asset.as_str(), assets) },
        None => match strip_prefix(path, "/t/") {
            Some(reference) => {
                if reference.as_str().is_empty() {
                    no_page()
                } else {
                    route_ticket(reference)
                }
            },
            None => no_page(),
        },
    }
}

/// The answer to a request with a method that the server does not take.
fn refuse_method(detail: &str) -> (r: Route)
    ensures
        r@ == method_refusal(detail@),
{
    Route::Reply { response: Response::error(405, "405 - method not allowed", detail) }
}

/// What a request asks for.
pub fn route(request: &Request, server: &Server, assets: &Assets) -> (r: Route)
    requires
        is_routable(request@, *server),
    ensures
        r@ == route_of(request@, *server, *assets),
{
    let method = request.method.as_str();
    if same(method, "POST") {
        if !server.edit {
            return refuse_method(
                "This server is read-only. Restart with `ti serve --edit` to mutate tickets.",
            );
        }
        return Route::Edit { step: route_post(request, server) };
    }
    if !same(method, "GET") && !same(method, "HEAD") {
        return refuse_method("This server only answers GET.");
    }
    route_page(request.path.as_str(), assets)
}

// -- laws -------------------------------------------------------------------

/// A server that does not accept edits answers every posted form with 405.
pub proof fn a_read_only_server_refuses_posts(
    request: crate::request::RequestView,
    server: Server,
    assets: Assets,
)
    requires
        request.method == "POST"@,
        !server.edit,
    ensures
        route_of(request, server, assets) matches RouteView::Reply { response }
            && response.status == 405,
{
}

/// Whether a route leads to a change of a ticket.
pub open spec fn may_change(route: RouteView) -> bool {
    route matches RouteView::Edit { step } && step !is Reply
}

/// Only a posted form that carries the token, on a server that accepts edits, can change a ticket.
pub proof fn changes_need_a_token(
    request: crate::request::RequestView,
    server: Server,
    assets: Assets,
)
    requires
        may_change(route_of(request, server, assets)),
    ensures
        request.method == "POST"@,
        server.edit,
        crate::edit::has_token(request, server),
{
    if !crate::edit::has_token(request, server) {
        crate::edit::no_change_without_the_token(request, server);
    }
}

/// Reading changes nothing: a request with GET or HEAD asks for a page or is answered at once.
pub proof fn reading_changes_nothing(
    request: crate::request::RequestView,
    server: Server,
    assets: Assets,
)
    requires
        request.method == "GET"@ || request.method == "HEAD"@,
    ensures
        route_of(request, server, assets) == page_route(request.path, assets),
        route_of(request, server, assets) !is Edit,
{
    reveal_strlit("GET");
    reveal_strlit("HEAD");
    reveal_strlit("POST");
    assert("GET"@.len() == 3 && "HEAD"@.len() == 4 && "POST"@.len() == 4);
    assert("HEAD"@[0] == 'H' && "POST"@[0] == 'P');
}

/// Each page is asked for at its own address, by GET as well as by HEAD: the list, the board and the
/// tickets as JSON; the icon that browsers ask for is answered with nothing.
pub proof fn each_page_has_its_own_address(
    request: &Request,
    server: &Server,
    assets: &Assets,
    r: Route,
)
    requires
        call_ensures(route, (request, server, assets), r),
        request.method@ == "GET"@ || request.method@ == "HEAD"@,
    ensures
        r is List <==> request.path@ == "/"@,
        r is Kanban <==> request.path@ == "/kanban"@,
        r is Json <==> request.path@ == "/tickets.json"@,
        request.path@ == "/favicon.ico"@ ==> (r matches Route::Reply { response } && response.status
            == 204 && response.body@.len() == 0),
{
    reading_changes_nothing(request@, *server, *assets);
    reveal_strlit("/");
    reveal_strlit("/kanban");
    reveal_strlit("/tickets.json");
    reveal_strlit("/favicon.ico");
    assert("/"@.len() == 1 && "/kanban"@.len() == 7 && "/tickets.json"@.len() == 13
        && "/favicon.ico"@.len() == 12);
}

proof fn lemma_under_t(reference: Seq<char>, assets: Assets)
    ensures
        page_route("/t/"@ + reference, assets) == if reference.len() > 0 {
            ticket_route(reference)
        } else {
            not_found()
        },
{
    reveal_strlit("/t/");
    reveal_strlit("/");
    reveal_strlit("/kanban");
    reveal_strlit("/tickets.json");
    reveal_strlit("/favicon.ico");
    reveal_strlit("/assets/");
    let path = "/t/"@ + reference;
    assert(path[1] == 't' && path[2] == '/');
    assert("/kanban"@[1] == 'k' && "/favicon.ico"@[1] == 'f' && "/assets/"@[1] == 'a');
    assert("/tickets.json"@[2] == 'i');
    assert("/"@.len() == 1);
    if crate::text::after_prefix(path, "/assets/"@) is Some {
        assert(path.take(8)[1] == "/assets/"@[1]);
    }
    assert(path.take(3) =~= "/t/"@);
    assert(path.skip(3) =~= reference);
}

/// A reference under `/t/` asks for the page of the ticket that it names, and with `/flow` behind it
/// for the graph of that ticket.
pub proof fn each_ticket_has_its_own_addresses(
    request: &Request,
    server: &Server,
    assets: &Assets,
    r: Route,
    reference: Seq<char>,
)
    requires
        call_ensures(route, (request, server, assets), r),
        request.method@ == "GET"@ || request.method@ == "HEAD"@,
        reference.len() > 0,
        crate::text::before_suffix(reference, "/flow"@) is None,
    ensures
        request.path@ == "/t/"@ + reference ==> (r matches Route::Detail { reference: to } && to@
            == reference),
        request.path@ == "/t/"@ + (reference + "/flow"@) ==> (r matches Route::Flow { reference: to }
            && to@ == reference),
{
    reveal_strlit("/flow");
    reading_changes_nothing(request@, *server, *assets);
    lemma_under_t(reference, *assets);
    lemma_under_t(reference + "/flow"@, *assets);
    let long = reference + "/flow"@;
    assert(long.skip(reference.len() as int) =~= "/flow"@);
    assert(long.take(reference.len() as int) =~= reference);
}

/// An asset under `/assets/` is answered with that very asset.
pub proof fn each_asset_has_its_own_address(
    request: &Request,
    server: &Server,
    assets: &Assets,
    r: Route,
    name: &str,
    asset: Response,
)
    requires
        call_ensures(route, (request, server, assets), r),
        request.method@ == "GET"@ || request.method@ == "HEAD"@,
        request.path@ == "/assets/"@ + name@,
        call_ensures(serve_asset, (name, assets), asset),
    ensures
        r matches Route::Reply { response } && response@ == asset@,
{
    reading_changes_nothing(request@, *server, *assets);
    reveal_strlit("/");
    reveal_strlit("/kanban");
    reveal_strlit("/tickets.json");
    reveal_strlit("/favicon.ico");
    reveal_strlit("/assets/");
    let path = "/assets/"@ + name@;
    assert(path[1] == 'a');
    assert("/kanban"@[1] == 'k' && "/favicon.ico"@[1] == 'f' && "/tickets.json"@[1] == 't');
    assert("/"@.len() == 1);
    assert(path.take(8) =~= "/assets/"@);
    assert(path.skip(8) =~= name@);
}

/// Any other address is answered with 404.
pub proof fn other_addresses_are_not_found(
    request: &Request,
    server: &Server,
    assets: &Assets,
    r: Route,
    not_there: Response,
)
    requires
        call_ensures(
            Response::error,
            (404, "404 - not found", "No page at that address."),
            not_there,
        ),
        call_ensures(route, (request, server, assets), r),
        request.method@ == "GET"@ || request.method@ == "HEAD"@,
        request.path@ != "/"@,
        request.path@ != "/kanban"@,
        request.path@ != "/tickets.json"@,
        request.path@ != "/favicon.ico"@,
        forall|name: Seq<char>| request.path@ != #[trigger] ("/assets/"@ + name),
        forall|reference: Seq<char>|
            request.path@ != #[trigger] ("/t/"@ + reference) || reference.len() == 0,
    ensures
        r matches Route::Reply { response } && response.status == 404 && response@ == not_there@,
{
    reading_changes_nothing(request@, *server, *assets);
    let path = request.path@;
    if let Some(name) = crate::text::after_prefix(path, "/assets/"@) {
        assert(path =~= "/assets/"@ + name);
    }
    if let Some(reference) = crate::text::after_prefix(path, "/t/"@) {
        assert(path =~= "/t/"@ + reference);
    }
}

/// A posted form is carried out as an edit where the server accepts edits, and refused with 405 where
/// it does not. So is every method but GET, HEAD and POST.
pub proof fn forms_are_for_servers_that_accept_edits(
    request: &Request,
    server: &Server,
    assets: &Assets,
    r: Route,
    step: Step,
    read_only: Response,
    only_get: Response,
)
    requires
        call_ensures(route, (request, server, assets), r),
        call_ensures(route_post, (request, server), step),
        call_ensures(
            Response::error,
            (
                405,
                "405 - method not allowed",
                "This server is read-only. Restart with `ti serve --edit` to mutate tickets.",
            ),
            read_only,
        ),
        call_ensures(
            Response::error,
            (405, "405 - method not allowed", "This server only answers GET."),
            only_get,
        ),
    ensures
        request.method@ == "POST"@ && server.edit ==> (r matches Route::Edit { step: s } && s@
            == step@),
        request.method@ == "POST"@ && !server.edit ==> (r matches Route::Reply { response }
            && response.status == 405 && response@ == read_only@),
        request.method@ != "POST"@ && request.method@ != "GET"@ && request.method@ != "HEAD"@ ==> (
        r matches Route::Reply { response } && response.status == 405 && response@ == only_get@),
{
}

/// Each asset is served under its own name: the scripts as scripts and the style sheet as one. Any
/// other name is answered with 404.
pub proof fn each_asset_is_served_as_it_is(
    name: &str,
    assets: &Assets,
    r: Response,
    not_there: Response,
)
    requires
        call_ensures(Response::error, (404, "404 - not found", "No such asset."), not_there),
        call_ensures(serve_asset, (name, assets), r),
    ensures
        r.location is None,
        name@ == "react.min.js"@ ==> serves_script(r, assets.react_js@),
        name@ == "react-dom.min.js"@ ==> serves_script(r, assets.react_dom_js@),
        name@ == "xyflow.min.js"@ ==> serves_script(r, assets.xyflow_js@),
        name@ == "jsx-runtime-shim.js"@ ==> serves_script(r, assets.jsx_shim_js@),
        name@ == "xyflow.css"@ ==> r.status == 200 && r.content_type@ == "text/css; charset=utf-8"@
            && vstd::utf8::decode_utf8(r.body@) == assets.xyflow_css@,
        name@ != "react.min.js"@ && name@ != "react-dom.min.js"@ && name@ != "xyflow.min.js"@
            && name@ != "jsx-runtime-shim.js"@ && name@ != "xyflow.css"@ ==> r.status == 404 && r@
            == not_there@,
{
    reveal_strlit("react.min.js");
    reveal_strlit("react-dom.min.js");
    reveal_strlit("xyflow.min.js");
    reveal_strlit("jsx-runtime-shim.js");
    reveal_strlit("xyflow.css");
    assert("react.min.js"@.len() == 12 && "react-dom.min.js"@.len() == 16 && "xyflow.min.js"@.len()
        == 13 && "jsx-runtime-shim.js"@.len() == 19 && "xyflow.css"@.len() == 10);
    vstd::utf8::encode_utf8_decode_utf8(assets.react_js@);
    vstd::utf8::encode_utf8_decode_utf8(assets.react_dom_js@);
    vstd::utf8::encode_utf8_decode_utf8(assets.xyflow_js@);
    vstd::utf8::encode_utf8_decode_utf8(assets.jsx_shim_js@);
    vstd::utf8::encode_utf8_decode_utf8(assets.xyflow_css@);
}

/// Whether a response serves a script.
pub open spec fn serves_script(r: Response, text: Seq<char>) -> bool {
    &&& r.status == 200
    &&& r.content_type@ == "text/javascript; charset=utf-8"@
    &&& vstd::utf8::decode_utf8(r.body@) == text
}

/// A server accepts edits where it was asked to, and keeps its token. Unless it is told otherwise it
/// listens on port 8177 of this machine alone, opens no browser, and accepts no edits.
pub proof fn a_server_does_what_it_was_asked_to(
    args: &Args,
    csrf: String,
    server: Server,
    unasked: Args,
)
    requires
        call_ensures(Server::new, (args, csrf), server),
        call_ensures(Args::default, (), unasked),
    ensures
        server.edit <==> args.edit,
        server.csrf@ == csrf@,
        unasked.port == 8177,
        unasked.bind@ == "127.0.0.1"@,
        !unasked.open,
        !unasked.edit,
{
}

/// A token has 32 hexadecimal digits, and servers that were started at different times, or at one
/// time by different processes, have different ones.
pub proof fn tokens_differ(
    nanos: u128,
    process: u32,
    r: String,
    other_nanos: u128,
    other_process: u32,
    other: String,
)
    requires
        call_ensures(generate_csrf_token, (nanos, process), r),
        call_ensures(generate_csrf_token, (other_nanos, other_process), other),
    ensures
        r@.len() == 32,
        forall|i: int|
            0 <= i < 32 ==> '0' <= #[trigger] r@[i] <= '9' || 'a' <= r@[i] <= 'f',
        r@ == other@ && process == other_process ==> nanos == other_nanos,
        r@ == other@ && nanos == other_nanos ==> process == other_process,
{
    let a: u128 = nanos ^ (process as u128);
    let b: u128 = other_nanos ^ (other_process as u128);
    crate::number::lemma_hex(a as nat, 32);
    if r@ == other@ {
        crate::number::hex_is_injective(a, b);
        if process == other_process {
            let p: u128 = process as u128;
            assert(nanos == other_nanos) by (bit_vector)
                requires
                    nanos ^ p == other_nanos ^ p,
            ;
        }
        if nanos == other_nanos {
            let p: u128 = process as u128;
            let q: u128 = other_process as u128;
            assert(p == q) by (bit_vector)
                requires
                    nanos ^ p == nanos ^ q,
            ;
        }
    }
}

/// A repository is named after its directory, and `tickets` where it has none.
pub proof fn a_repository_is_named_after_its_directory(directory: Option<String>, r: String)
    requires
        call_ensures(repo_name, (directory,), r),
    ensures
        match directory {
            Some(name) => r@ == name@,
            None => r@ == "tickets"@,
        },
{
}

} // verus!
