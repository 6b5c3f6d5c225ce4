//! Where redirects and links lead.

use vstd::prelude::*;
use vstd::string::*;

verus! {

// -- redirects --------------------------------------------------------------

/// Following a redirect after an edit that failed asks for the page of the ticket, with the message
/// and nothing else. The reference holds no white space and none of `%`, `+` and `?`, which the
/// redirect does not encode.
pub proof fn error_redirect_carries_the_message(reference: Seq<char>, message: Seq<char>)
    requires
        crate::roundtrip::is_plain(reference),
    ensures
        ({
            let line = "GET "@ + crate::edit::error_location(reference, message)
                + " HTTP/1.1\r\n"@;
            &&& crate::request::line_decodable(line)
            &&& crate::request::request_of_line(line) == Some(
                crate::request::RequestView {
                    method: "GET"@,
                    path: "/t/"@ + reference,
                    params: seq![("error"@, message)],
                    body: Seq::empty(),
                },
            )
        }),
{
    reveal_strlit("?error=");
    reveal_strlit("?");
    reveal_strlit("=");
    reveal_strlit("error");
    let path = "/t/"@ + reference;
    let pairs = seq![("error"@, message)];
    let pieces = crate::query::pieces_of(pairs);
    let text = crate::text::joined(pieces, "&"@);
    lemma_ticket_path(reference);
    assert(pieces.len() == 1 && pieces[0] == crate::query::piece_of(pairs[0]));
    assert(text == crate::query::piece_of(pairs[0]));
    crate::roundtrip::lemma_target(path, pairs);
    assert("?error="@ =~= "?"@ + "error"@ + "="@);
    assert(path + "?"@ + text =~= crate::edit::error_location(reference, message));
}

/// What a browser asks for when it follows a link.
pub open spec fn followed(target: Seq<char>) -> Option<crate::request::RequestView> {
    crate::request::request_of_line("GET "@ + target + " HTTP/1.1\r\n"@)
}

proof fn lemma_ticket_path(reference: Seq<char>)
    requires
        crate::roundtrip::is_plain(reference),
    ensures
        crate::roundtrip::is_plain("/t/"@ + reference),
        ("/t/"@ + reference).len() > 0,
{
    reveal_strlit("/t/");
    let path = "/t/"@ + reference;
    assert forall|i: int| 0 <= i < path.len() implies crate::roundtrip::plain_char(
        #[trigger] path[i],
    ) by {
        if i >= 3 {
            assert(path[i] == reference[i - 3]);
            assert(crate::roundtrip::plain_char(reference[i - 3]));
        }
    }
}

proof fn lemma_ticket_route(reference: Seq<char>, assets: crate::serve::Assets)
    requires
        reference.len() > 0,
    ensures
        crate::serve::page_route("/t/"@ + reference, assets) == crate::serve::ticket_route(
            reference,
        ),
{
    reveal_strlit("/t/");
    reveal_strlit("/");
    reveal_strlit("/kanban");
    reveal_strlit("/tickets.json");
    reveal_strlit("/favicon.ico");
    reveal_strlit("/assets/");
    let path = "/t/"@ + reference;
    assert(path[1] == 't' && path[2] == '/');
    assert("/kanban"@[1] == 'k' && "/favicon.ico"@[1] == 'f' && "/assets/"@[1] == 'a');
    assert("/tickets.json"@[2] == 'i');
    assert("/"@.len() == 1);
    if crate::text::after_prefix(path, "/assets/"@) is Some {
        assert(path.take(8)[1] == "/assets/"@[1]);
    }
    assert(path.take(3) =~= "/t/"@);
    assert(path.skip(3) =~= reference);
}

/// After an edit the browser asks for the page of the ticket, unless its reference ends like the
/// address of a graph.
pub proof fn redirects_lead_to_the_ticket(
    reference: Seq<char>,
    server: crate::page::Server,
    assets: crate::serve::Assets,
)
    requires
        reference.len() > 0,
        crate::roundtrip::is_plain(reference),
        crate::text::before_suffix(reference, "/flow"@) is None,
    ensures
        crate::edit::detail_redirect(reference).location matches Some(target)
            && followed(target) matches Some(request) && crate::serve::route_of(
            request,
            server,
            assets,
        ) == (crate::serve::RouteView::Detail { reference }),
{
    lemma_ticket_path(reference);
    lemma_ticket_route(reference, assets);
    crate::roundtrip::lemma_bare_target("/t/"@ + reference);
    let request = followed("/t/"@ + reference)->0;
    crate::serve::reading_changes_nothing(request, server, assets);
}

proof fn lemma_short_text(id: u128)
    ensures
        crate::ticket::short_text(id).len() == 6,
        crate::roundtrip::is_plain(crate::ticket::short_text(id)),
        crate::text::before_suffix(crate::ticket::short_text(id), "/flow"@) is None,
{
    reveal_strlit("/flow");
    let digits = crate::number::hex(id as nat, 32);
    let text = crate::ticket::short_text(id);
    crate::number::lemma_hex(id as nat, 32);
    assert forall|i: int| 0 <= i < 6 implies ('0' <= #[trigger] text[i] <= '9' || 'a' <= text[i]
        <= 'f') by {
        assert(text[i] == digits[i]);
    }
    if crate::text::before_suffix(text, "/flow"@) is Some {
        assert(text.skip(1)[0] == "/flow"@[0]);
        assert(text[1] == '/');
    }
}

/// The link that a list shows for a ticket leads to its page, and with `/flow` behind it to its
/// graph.
pub proof fn ticket_links_lead_to_their_pages(
    id: u128,
    server: crate::page::Server,
    assets: crate::serve::Assets,
)
    ensures
        ({
            let short = crate::ticket::short_text(id);
            &&& followed("/t/"@ + short) matches Some(detail)
            &&& crate::serve::route_of(detail, server, assets) == (
            crate::serve::RouteView::Detail { reference: short })
            &&& followed("/t/"@ + (short + "/flow"@)) matches Some(graph)
            &&& crate::serve::route_of(graph, server, assets) == (crate::serve::RouteView::Flow {
                reference: short,
            })
        }),
{
    reveal_strlit("/flow");
    let short = crate::ticket::short_text(id);
    let long = short + "/flow"@;
    lemma_short_text(id);
    assert(crate::roundtrip::is_plain(long)) by {
        assert forall|i: int| 0 <= i < long.len() implies crate::roundtrip::plain_char(
            #[trigger] long[i],
        ) by {
            if i < 6 {
                assert(long[i] == short[i]);
                assert(crate::roundtrip::plain_char(short[i]));
            }
        }
    }
    assert(long.skip(6) =~= "/flow"@);
    assert(long.take(6) =~= short);
    lemma_ticket_path(short);
    lemma_ticket_path(long);
    lemma_ticket_route(short, assets);
    lemma_ticket_route(long, assets);
    crate::roundtrip::lemma_bare_target("/t/"@ + short);
    crate::roundtrip::lemma_bare_target("/t/"@ + long);
    crate::serve::reading_changes_nothing(followed("/t/"@ + short)->0, server, assets);
    crate::serve::reading_changes_nothing(followed("/t/"@ + long)->0, server, assets);
}

/// A token is clean, so that a form can echo it.
pub proof fn tokens_are_clean(nanos: u128, process: u32)
    ensures
        crate::roundtrip::is_clean(
            Some(crate::number::hex((nanos ^ (process as u128)) as nat, 32)),
        ),
{
    let token = crate::number::hex((nanos ^ (process as u128)) as nat, 32);
    crate::number::lemma_hex((nanos ^ (process as u128)) as nat, 32);
    assert('0' <= token[0] <= '9' || 'a' <= token[0] <= 'f');
    assert('0' <= token[31] <= '9' || 'a' <= token[31] <= 'f');
}

} // verus!
