//! The list of tickets.

use vstd::prelude::*;
use vstd::slice::*;
use vstd::string::*;

use std::collections::HashMap;
use std::collections::HashSet;

use crate::html::document;
use crate::html::escape;
use crate::html::flatten;
use crate::nesting::map_children;
use crate::nesting::present_ids;
use crate::number::count_text;
use crate::number::signed_text;
use crate::page::header;
use crate::page::tag_chips;
use crate::page::Page;
use crate::query::ListQuery;
use crate::query::ParsedFilters;
use crate::query::ViewMode;
use crate::response::Response;
use crate::text::out_push;
use crate::text::same;
use crate::ticket::short_uuid;
use crate::ticket::uuid_string;
use crate::ticket::Ticket;
use crate::ticket::TicketStatus;

verus! {

broadcast use vstd::std_specs::hash::group_hash_axioms;

// -- rows -------------------------------------------------------------------

/// The name to show for the assignee.
pub open spec fn who_text(ticket: Ticket) -> Seq<char> {
    match ticket.assigned {
        Some(person) => person.name@,
        None => ""@,
    }
}

/// Whether the ticket is assigned to `user`.
pub open spec fn is_mine(ticket: Ticket, user: Seq<char>) -> bool {
    match ticket.assigned {
        Some(person) => person.email@ == user,
        None => false,
    }
}

/// The priority as a list shows it.
pub open spec fn short_priority(ticket: Ticket) -> Seq<char> {
    match ticket.priority {
        Some(priority) => "p"@ + crate::number::decimal(priority as int),
        None => ""@,
    }
}

/// The button that shows and hides the children.
pub open spec fn toggle_html(children: int) -> Seq<char> {
    if children > 0 {
        " <button class=\"children-toggle\" onclick=\"listToggle(this)\"              aria-expanded=\"false\">[+"@
            + crate::number::decimal(children) + "]</button>"@
    } else {
        Seq::empty()
    }
}

/// The mark of a ticket that has a parent.
pub open spec fn parent_html(ticket: Ticket) -> Seq<char> {
    match ticket.parent {
        Some(parent) => "<span class=\"parent\">\u{21b3} "@ + crate::html::escaped(
            crate::ticket::short_text(parent),
        ) + "</span> "@,
        None => Seq::empty(),
    }
}

/// The class of a row.
pub open spec fn row_class(ticket: Ticket, is_child: bool) -> Seq<char> {
    if ticket.status == TicketStatus::Closed {
        "closed"@
    } else if is_child {
        "open sub"@
    } else {
        "open"@
    }
}

/// The attribute by which a row is found under its parent's.
pub open spec fn data_parent_html(ticket: Ticket) -> Seq<char> {
    match ticket.parent {
        Some(parent) => " data-parent=\""@ + crate::html::escaped(crate::ticket::uuid_text(parent))
            + "\""@,
        None => Seq::empty(),
    }
}

/// The style of a row: how deep it is, and hidden where it is a child's.
pub open spec fn row_style_html(is_child: bool, depth: int) -> Seq<char> {
    (if is_child {
        " style=\"display:none;--depth:"@
    } else {
        " style=\"--depth:"@
    }) + crate::number::decimal(depth) + "\""@
}

/// The cell with the state.
pub open spec fn state_cell_html(ticket: Ticket, show_state: bool) -> Seq<char> {
    if show_state {
        "<td class=\"state\"><span class=\"badge state-"@ + crate::html::escaped(ticket.state@.0)
            + "\">"@ + crate::html::escaped(ticket.state@.0) + "</span></td>"@
    } else {
        Seq::empty()
    }
}

/// The row of a ticket.
pub open spec fn row_html(
    page: Page,
    q: crate::query::QueryView,
    ticket: Ticket,
    show_state: bool,
    children: int,
    is_child: bool,
    depth: int,
) -> Seq<char> {
    let id = crate::html::escaped(crate::ticket::short_text(ticket.id));
    "<tr class=\""@ + row_class(ticket, is_child) + "\" data-id=\""@ + crate::html::escaped(
        crate::ticket::uuid_text(ticket.id),
    ) + "\" data-depth=\""@ + crate::number::decimal(depth) + "\""@ + data_parent_html(ticket)
        + row_style_html(is_child, depth) + "><td class=\"id\"><a href=\"/t/"@ + id + "\">"@ + id
        + "</a></td><td class=\"age\">"@ + crate::html::escaped(ticket.created_at.age@)
        + "</td><td class=\"prio\">"@ + crate::html::escaped(short_priority(ticket)) + "</td>"@
        + state_cell_html(ticket, show_state) + "<td class=\"title\">"@ + parent_html(ticket)
        + "<a href=\"/t/"@ + id + "\">"@ + crate::html::escaped(
        crate::html::flattened(ticket.title@),
    ) + "</a>"@ + toggle_html(children) + "</td><td class=\"who"@ + (if is_mine(
        ticket,
        page.current_user@,
    ) {
        " mine"@
    } else {
        ""@
    }) + "\">"@ + crate::html::escaped(who_text(ticket)) + "</td><td class=\"tags\">"@
        + crate::page::tag_chips_html(q, ticket.tags.deep_view()) + "</td></tr>"@
}

/// The button that shows and hides the children.
fn toggle(children: usize) -> (r: String)
    ensures
        r@ == toggle_html(children as int),
{
    if children > 0 {
        let mut out =
            " <button class=\"children-toggle\" onclick=\"listToggle(this)\"              aria-expanded=\"false\">[+".to_owned();
        out_push(&mut out, count_text(children).as_str());
        out_push(&mut out, "]</button>");
        out
    } else {
        String::new()
    }
}

/// The mark of a ticket that has a parent.
fn parent_mark(ticket: &Ticket) -> (r: String)
    ensures
        r@ == parent_html(*ticket),
{
    match ticket.parent {
        Some(parent) => {
            let mut out = "<span class=\"parent\">\u{21b3} ".to_owned();
            out_push(&mut out, escape(short_uuid(parent).as_str()).as_str());
            out_push(&mut out, "</span> ");
            out
        },
        None => String::new(),
    }
}

/// The attribute by which a row is found under its parent's.
fn data_parent(ticket: &Ticket) -> (r: String)
    ensures
        r@ == data_parent_html(*ticket),
{
    match ticket.parent {
        Some(parent) => {
            let mut out = " data-parent=\"".to_owned();
            out_push(&mut out, escape(uuid_string(parent).as_str()).as_str());
            out_push(&mut out, "\"");
            out
        },
        None => String::new(),
    }
}

/// The style of a row: how deep it is, and hidden where it is a child's.
fn row_style(is_child: bool, depth: usize) -> (r: String)
    ensures
        r@ == row_style_html(is_child, depth as int),
{
    let mut out = if is_child {
        " style=\"display:none;--depth:".to_owned()
    } else {
        " style=\"--depth:".to_owned()
    };
    out_push(&mut out, count_text(depth).as_str());
    out_push(&mut out, "\"");
    out
}

/// The cell with the state.
fn state_cell(ticket: &Ticket, show_state: bool) -> (r: String)
    ensures
        r@ == state_cell_html(*ticket, show_state),
{
    if show_state {
        let mut out = "<td class=\"state\"><span class=\"badge state-".to_owned();
        out_push(&mut out, escape(ticket.state.as_str()).as_str());
        out_push(&mut out, "\">");
        out_push(&mut out, escape(ticket.state.as_str()).as_str());
        out_push(&mut out, "</span></td>");
        out
    } else {
        String::new()
    }
}

/// The row of a ticket with so many children.
pub fn row(
    page: &Page,
    query: &ListQuery,
    ticket: &Ticket,
    show_state: bool,
    children: usize,
    is_child: bool,
    depth: usize,
) -> (r: String)
    ensures
        r@ == row_html(
            *page,
            query@,
            *ticket,
            show_state,
            children as int,
            is_child,
            depth as int,
        ),
{
    let who = match &ticket.assigned {
        Some(person) => person.name.as_str(),
        None => "",
    };
    let mine = match &ticket.assigned {
        Some(person) => same(person.email.as_str(), page.current_user.as_str()),
        None => false,
    };
    let priority = match ticket.priority {
        Some(priority) => {
            let mut out = "p".to_owned();
            out_push(&mut out, signed_text(priority).as_str());
            out
        },
        None => "".to_owned(),
    };
    let class = if ticket.status == TicketStatus::Closed {
        "closed"
    } else if is_child {
        "open sub"
    } else {
        "open"
    };
    let id = escape(ticket.short_id().as_str());
    let mut out = "<tr class=\"".to_owned();
    out_push(&mut out, class);
    out_push(&mut out, "\" data-id=\"");
    out_push(&mut out, escape(uuid_string(ticket.id).as_str()).as_str());
    out_push(&mut out, "\" data-depth=\"");
    out_push(&mut out, count_text(depth).as_str());
    out_push(&mut out, "\"");
    out_push(&mut out, data_parent(ticket).as_str());
    out_push(&mut out, row_style(is_child, depth).as_str());
    out_push(&mut out, "><td class=\"id\"><a href=\"/t/");
    out_push(&mut out, id.as_str());
    out_push(&mut out, "\">");
    out_push(&mut out, id.as_str());
    out_push(&mut out, "</a></td><td class=\"age\">");
    out_push(&mut out, escape(ticket.created_at.age.as_str()).as_str());
    out_push(&mut out, "</td><td class=\"prio\">");
    out_push(&mut out, escape(priority.as_str()).as_str());
    out_push(&mut out, "</td>");
    out_push(&mut out, state_cell(ticket, show_state).as_str());
    out_push(&mut out, "<td class=\"title\">");
    out_push(&mut out, parent_mark(ticket).as_str());
    out_push(&mut out, "<a href=\"/t/");
    out_push(&mut out, id.as_str());
    out_push(&mut out, "\">");
    out_push(&mut out, escape(flatten(ticket.title.as_str()).as_str()).as_str());
    out_push(&mut out, "</a>");
    out_push(&mut out, toggle(children).as_str());
    out_push(&mut out, "</td><td class=\"who");
    if mine {
        out_push(&mut out, " mine");
    } else {
        out_push(&mut out, "");
    }
    out_push(&mut out, "\">");
    out_push(&mut out, escape(who).as_str());
    out_push(&mut out, "</td><td class=\"tags\">");
    out_push(&mut out, tag_chips(query, ticket).as_str());
    out_push(&mut out, "</td></tr>");
    out
}

// -- rows in order ----------------------------------------------------------

/// The row of the ticket at `row.0`, at depth `row.1`.
pub open spec fn listed_row_html(
    page: Page,
    q: crate::query::QueryView,
    show_state: bool,
    ts: Seq<Ticket>,
    row: (int, nat),
) -> Seq<char> {
    row_html(
        page,
        q,
        ts[row.0],
        show_state,
        crate::nesting::children_of(ts, row.0).len() as int,
        !crate::nesting::is_root(ts, row.0),
        row.1 as int,
    )
}

/// Rows, one after the other.
pub open spec fn rows_html(
    page: Page,
    q: crate::query::QueryView,
    show_state: bool,
    ts: Seq<Ticket>,
    rows: Seq<(int, nat)>,
) -> Seq<char>
    decreases rows.len(),
{
    if rows.len() == 0 {
        Seq::empty()
    } else {
        rows_html(page, q, show_state, ts, rows.drop_last()) + listed_row_html(page, q, show_state, ts, rows.last())
    }
}

proof fn lemma_rows_concat(
    page: Page,
    q: crate::query::QueryView,
    show_state: bool,
    ts: Seq<Ticket>,
    a: Seq<(int, nat)>,
    b: Seq<(int, nat)>,
)
    ensures
        rows_html(page, q, show_state, ts, a + b) == rows_html(page, q, show_state, ts, a) + rows_html(page, q, show_state, ts, b),
    decreases b.len(),
{
    if b.len() == 0 {
        assert(a + b =~= a);
        assert(rows_html(page, q, show_state, ts, a) + Seq::<char>::empty() =~= rows_html(page, q, show_state, ts, a));
    } else {
        assert((a + b).drop_last() =~= a + b.drop_last());
        assert((a + b).last() == b.last());
        lemma_rows_concat(page, q, show_state, ts, a, b.drop_last());
        crate::text::lemma_assoc(
            rows_html(page, q, show_state, ts, a),
            rows_html(page, q, show_state, ts, b.drop_last()),
            listed_row_html(page, q, show_state, ts, b.last()),
        );
    }
}

proof fn lemma_one_row(page: Page, q: crate::query::QueryView, show_state: bool, ts: Seq<Ticket>, row: (int, nat))
    ensures
        rows_html(page, q, show_state, ts, seq![row]) == listed_row_html(page, q, show_state, ts, row),
{
    assert(seq![row].drop_last() =~= Seq::<(int, nat)>::empty());
    assert(rows_html(page, q, show_state, ts, Seq::<(int, nat)>::empty()) =~= Seq::<char>::empty());
    assert(Seq::<char>::empty() + listed_row_html(page, q, show_state, ts, row) =~= listed_row_html(
        page,
        q,
        show_state,
        ts,
        row,
    ));
}

proof fn lemma_next_child(
    page: Page,
    q: crate::query::QueryView,
    show_state: bool,
    ts: Seq<Ticket>,
    list: Seq<int>,
    k: int,
    depth: nat,
)
    requires
        0 <= k < list.len(),
        depth <= ts.len(),
    ensures
        rows_html(
            page,
            q,
            show_state,
            ts,
            crate::nesting::forest_rows(ts, list.take(k + 1), depth),
        ) == rows_html(
            page,
            q,
            show_state,
            ts,
            crate::nesting::forest_rows(ts, list.take(k), depth),
        ) + rows_html(page, q, show_state, ts, crate::nesting::tree_rows(ts, list[k], depth)),
{
    assert(list.take(k + 1).drop_last() =~= list.take(k));
    assert(list.take(k + 1).last() == list[k]);
    lemma_rows_concat(
        page,
        q,
        show_state,
        ts,
        crate::nesting::forest_rows(ts, list.take(k), depth),
        crate::nesting::tree_rows(ts, list[k], depth),
    );
}

/// The rows of a ticket at `depth` and of those under it.
fn row_tree(
    page: &Page,
    query: &ListQuery,
    tickets: &Vec<Ticket>,
    at: usize,
    show_state: bool,
    children_of: &HashMap<u128, Vec<usize>>,
    present: &HashSet<u128>,
    depth: usize,
) -> (r: String)
    requires
        crate::nesting::is_nested(tickets@),
        crate::nesting::at_depth(tickets@, at as int, depth as nat),
        crate::nesting::maps_kids(children_of@, tickets@, tickets@.len() as int),
        forall|id: u128| #[trigger]
            present@.contains(id) <==> crate::nesting::is_present(tickets@, id),
    ensures
        r@ == rows_html(
            *page,
            query@,
            show_state,
            tickets@,
            crate::nesting::tree_rows(tickets@, at as int, depth as nat),
        ),
    decreases tickets@.len() - depth,
{
    let ghost ts = tickets@;
    let ghost q = query@;
    let ghost i = at as int;
    let ghost list = crate::nesting::children_of(ts, i);
    let ticket = &tickets[at];
    let is_child = match ticket.parent {
        Some(parent) => present.contains(&parent),
        None => false,
    };
    let none: Vec<usize> = Vec::new();
    let children = match children_of.get(&ticket.id) {
        Some(children) => children,
        None => &none,
    };
    proof {
        assert(children_of@.contains_key(ts[i].id) <==> list.len() > 0);
        assert(crate::nesting::positions(children@) =~= list);
        crate::nesting::lemma_kids(ts, ts[i].id, ts.len() as int);
    }
    let mut out = row(page, query, ticket, show_state, children.len(), is_child, depth);
    let ghost own = out@;
    let total: usize = tickets.len();
    let mut k: usize = 0;
    proof {
        assert(depth < ts.len());
        lemma_one_row(*page, q, show_state, ts, (i, depth as nat));
        assert(list.take(0).len() == 0);
        assert(crate::nesting::forest_rows(ts, list.take(0), (depth + 1) as nat) =~= Seq::<
            (int, nat),
        >::empty());
        assert(own + Seq::<char>::empty() =~= own);
    }
    while k < children.len()
        invariant
            k <= children@.len(),
            depth < ts.len(),
            total == ts.len(),
            ts == tickets@,
            q == query@,
            i == at as int,
            list == crate::nesting::children_of(ts, i),
            crate::nesting::positions(children@) == list,
            forall|n: int| 0 <= n < list.len() ==> 0 <= #[trigger] list[n] < ts.len()
                && ts[list[n]].parent == Some(ts[i].id),
            crate::nesting::is_nested(ts),
            crate::nesting::at_depth(ts, i, depth as nat),
            crate::nesting::maps_kids(children_of@, ts, ts.len() as int),
            forall|id: u128| #[trigger]
                present@.contains(id) <==> crate::nesting::is_present(ts, id),
            out@ == own + rows_html(
                *page,
                q,
                show_state,
                ts,
                crate::nesting::forest_rows(ts, list.take(k as int), (depth + 1) as nat),
            ),
        decreases children@.len() - k,
    {
        let kid = children[k];
        proof {
            assert(list[k as int] == kid as int);
            assert(crate::nesting::is_child(ts, kid as int, i));
            crate::nesting::lemma_child_depth(ts, kid as int, i, depth as nat);
            assert(depth + 1 < ts.len());
        }
        let rows = row_tree(
            page,
            query,
            tickets,
            kid,
            show_state,
            children_of,
            present,
            depth + 1,
        );
        proof {
            lemma_next_child(*page, q, show_state, ts, list, k as int, (depth + 1) as nat);
            let before = rows_html(
                *page,
                q,
                show_state,
                ts,
                crate::nesting::forest_rows(ts, list.take(k as int), (depth + 1) as nat),
            );
            crate::text::lemma_assoc(own, before, rows@);
        }
        out_push(&mut out, rows.as_str());
        k = k + 1;
    }
    proof {
        assert(list.take(k as int) =~= list);
        lemma_rows_concat(
            *page,
            q,
            show_state,
            ts,
            seq![(i, depth as nat)],
            crate::nesting::forest_rows(ts, list, (depth + 1) as nat),
        );
    }
    out
}

proof fn lemma_next_root(page: Page, q: crate::query::QueryView, show_state: bool, ts: Seq<Ticket>, i: int)
    requires
        0 <= i < ts.len(),
    ensures
        rows_html(page, q, show_state, ts, crate::nesting::forest_rows(ts, crate::nesting::roots(ts, i + 1), 0))
            == if crate::nesting::is_root(ts, i) {
            rows_html(page, q, show_state, ts, crate::nesting::forest_rows(ts, crate::nesting::roots(ts, i), 0))
                + rows_html(page, q, show_state, ts, crate::nesting::tree_rows(ts, i, 0))
        } else {
            rows_html(page, q, show_state, ts, crate::nesting::forest_rows(ts, crate::nesting::roots(ts, i), 0))
        },
{
    if crate::nesting::is_root(ts, i) {
        let before = crate::nesting::roots(ts, i);
        let now = crate::nesting::roots(ts, i + 1);
        assert(now.drop_last() =~= before);
        assert(now.last() == i);
        lemma_rows_concat(
            page,
            q,
            show_state,
            ts,
            crate::nesting::forest_rows(ts, before, 0),
            crate::nesting::tree_rows(ts, i, 0),
        );
    }
}

/// The rows of a list.
fn listed_rows(page: &Page, query: &ListQuery, show_state: bool, tickets: &Vec<Ticket>) -> (r: String)
    requires
        crate::nesting::is_nested(tickets@),
    ensures
        r@ == rows_html(*page, query@, show_state, tickets@, crate::nesting::listing(tickets@)),
{
    let ghost ts = tickets@;
    let ghost q = query@;
    let present = present_ids(tickets);
    let children_of = map_children(tickets);
    let mut out = String::new();
    let mut i: usize = 0;
    proof {
        assert(crate::nesting::roots(ts, 0).len() == 0);
        assert(crate::nesting::forest_rows(ts, crate::nesting::roots(ts, 0), 0) =~= Seq::<
            (int, nat),
        >::empty());
    }
    while i < tickets.len()
        invariant
            i <= tickets@.len(),
            ts == tickets@,
            q == query@,
            crate::nesting::is_nested(ts),
            crate::nesting::maps_kids(children_of@, ts, ts.len() as int),
            forall|id: u128| #[trigger]
                present@.contains(id) <==> crate::nesting::is_present(ts, id),
            out@ == rows_html(
                *page,
                q,
                show_state,
                ts,
                crate::nesting::forest_rows(ts, crate::nesting::roots(ts, i as int), 0),
            ),
        decreases tickets@.len() - i,
    {
        let nested = match tickets[i].parent {
            Some(parent) => present.contains(&parent),
            None => false,
        };
        if !nested {
            let rows = row_tree(
                page,
                query,
                tickets,
                i,
                show_state,
                &children_of,
                &present,
                0,
            );
            out_push(&mut out, rows.as_str());
        }
        proof {
            lemma_next_root(*page, q, show_state, ts, i as int);
        }
        i = i + 1;
    }
    out
}

// -- the page ---------------------------------------------------------------

/// A column head that sorts by its column.
pub open spec fn column_html(
    class: Seq<char>,
    label: Seq<char>,
    key: Seq<char>,
    q: crate::query::QueryView,
) -> Seq<char> {
    "<th class=\""@ + class + "\"><a href=\""@ + crate::html::escaped(
        crate::query::href_text(q, Some(crate::query::next_order(q.order, key))),
    ) + "\">"@ + label + crate::query::marker_text(q.order, key) + "</a></th>"@
}

/// The column head of the states, where they are shown.
pub open spec fn state_column_html(q: crate::query::QueryView, show_state: bool) -> Seq<char> {
    if show_state {
        column_html("state"@, "State"@, "state"@, q)
    } else {
        Seq::empty()
    }
}

/// The table of a list.
pub open spec fn table_html(page: Page, q: crate::query::QueryView, show_state: bool, ts: Seq<Ticket>) -> Seq<char> {
    "<table class=\"tickets\"><thead><tr><th class=\"id\">Id</th>"@ + column_html(
        "age"@,
        "Age"@,
        "created"@,
        q,
    ) + column_html("prio"@, "P"@, "priority"@, q) + state_column_html(q, show_state) + column_html(
        "title"@,
        "Title"@,
        "title"@,
        q,
    ) + column_html("who"@, "Assigned"@, "assigned"@, q)
        + "<th class=\"tags\">Tags</th></tr></thead><tbody>"@ + rows_html(
        page,
        q,
        show_state,
        ts,
        crate::nesting::listing(ts),
    ) + "</tbody></table>"@
}

/// What the list shows: its table, or that there is nothing to show.
pub open spec fn list_content_html(page: Page, q: crate::query::QueryView, show_state: bool, ts: Seq<Ticket>) -> Seq<
    char,
> {
    if ts.len() == 0 {
        "<p class=\"empty\">No tickets match this view.</p>"@
    } else {
        table_html(page, q, show_state, ts)
    }
}

/// The ending of a count.
pub open spec fn plural_text(n: int) -> Seq<char> {
    if n == 1 {
        ""@
    } else {
        "s"@
    }
}

/// The page of a list.
pub open spec fn list_html(page: Page, q: crate::query::QueryView, show_state: bool, ts: Seq<Ticket>) -> Seq<char> {
    crate::html::document_html(
        page.repo@ + " tickets"@,
        crate::page::header_html(page, q, ViewMode::List) + list_content_html(page, q, show_state, ts)
            + "<p class=\"count\">"@ + crate::number::decimal(ts.len() as int) + " ticket"@
            + plural_text(ts.len() as int) + " \u{b7} <a href=\""@ + crate::html::escaped(
            crate::query::href_on_text(q, "/tickets.json"@),
        ) + "\">JSON</a></p>"@,
    )
}

/// A column head that sorts by its column.
fn column(class: &str, label: &str, key: &str, query: &ListQuery) -> (r: String)
    ensures
        r@ == column_html(class@, label@, key@, query@),
{
    let mut out = "<th class=\"".to_owned();
    out_push(&mut out, class);
    out_push(&mut out, "\"><a href=\"");
    out_push(&mut out, escape(query.order_href(key).as_str()).as_str());
    out_push(&mut out, "\">");
    out_push(&mut out, label);
    out_push(&mut out, query.order_marker(key));
    out_push(&mut out, "</a></th>");
    out
}

/// The table of a list.
fn table(page: &Page, query: &ListQuery, show_state: bool, tickets: &Vec<Ticket>) -> (r: String)
    requires
        crate::nesting::is_nested(tickets@),
    ensures
        r@ == table_html(*page, query@, show_state, tickets@),
{
    let state = if show_state {
        column("state", "State", "state", query)
    } else {
        String::new()
    };
    let mut out = "<table class=\"tickets\"><thead><tr><th class=\"id\">Id</th>".to_owned();
    out_push(&mut out, column("age", "Age", "created", query).as_str());
    out_push(&mut out, column("prio", "P", "priority", query).as_str());
    out_push(&mut out, state.as_str());
    out_push(&mut out, column("title", "Title", "title", query).as_str());
    out_push(&mut out, column("who", "Assigned", "assigned", query).as_str());
    out_push(&mut out, "<th class=\"tags\">Tags</th></tr></thead><tbody>");
    out_push(&mut out, listed_rows(page, query, show_state, tickets).as_str());
    out_push(&mut out, "</tbody></table>");
    out
}

/// The page of a list, with sub-tickets under their parents, and with the states where they are
/// shown.
pub fn list_page(page: &Page, query: &ListQuery, show_state: bool, tickets: &Vec<Ticket>) -> (r:
    String)
    requires
        crate::nesting::is_nested(tickets@),
    ensures
        r@ == list_html(*page, query@, show_state, tickets@),
{
    let content = if tickets.len() == 0 {
        "<p class=\"empty\">No tickets match this view.</p>".to_owned()
    } else {
        table(page, query, show_state, tickets)
    };
    let mut body = header(page, query, ViewMode::List);
    out_push(&mut body, content.as_str());
    out_push(&mut body, "<p class=\"count\">");
    out_push(&mut body, count_text(tickets.len()).as_str());
    out_push(&mut body, " ticket");
    if tickets.len() == 1 {
        out_push(&mut body, "");
    } else {
        out_push(&mut body, "s");
    }
    out_push(&mut body, " \u{b7} <a href=\"");
    out_push(&mut body, escape(query.href_on("/tickets.json").as_str()).as_str());
    out_push(&mut body, "\">JSON</a></p>");
    let mut title = page.repo.clone();
    out_push(&mut title, " tickets");
    document(title.as_str(), body.as_str())
}

// -- responses --------------------------------------------------------------

/// The answer to a request for the list: its page, with the states where the list can hold closed
/// tickets.
pub fn list_response(
    page: &Page,
    query: &ListQuery,
    parsed: &ParsedFilters,
    tickets: &Vec<Ticket>,
) -> (r: Response)
    requires
        crate::nesting::is_nested(tickets@),
    ensures
        r@ == crate::response::html_response(
            200,
            list_html(
                *page,
                query@,
                crate::query::may_show_closed(query@, *parsed),
                tickets@,
            ),
        ),
{
    Response::html(200, list_page(page, query, query.shows_closed(parsed), tickets))
}

/// The answer to a request for the tickets as JSON, of which `json` is the text.
pub fn json_response(json: String) -> (r: Response)
    ensures
        r@ == (crate::response::ResponseView {
            status: 200,
            content_type: "application/json; charset=utf-8"@,
            body: vstd::utf8::encode_utf8(json@),
            location: None,
        }),
{
    Response::new(
        200,
        "application/json; charset=utf-8",
        slice_to_vec(json.as_str().as_bytes()),
    )
}

// -- laws -------------------------------------------------------------------

/// The row of a ticket says which ticket it is, where it belongs, and what is known of it: its age,
/// priority, title, assignee and tags, and its state where the list shows that. Its links lead to the
/// page of that ticket.
pub proof fn a_row_shows_its_ticket(
    page: &Page,
    query: &ListQuery,
    ticket: &Ticket,
    show_state: bool,
    children: usize,
    is_child: bool,
    depth: usize,
    r: String,
)
    requires
        call_ensures(row, (page, query, ticket, show_state, children, is_child, depth), r),
    ensures
        ({
            let id = crate::html::escaped(crate::ticket::short_text(ticket.id));
            let age = crate::html::escaped(ticket.created_at.age@);
            let title = crate::html::escaped(crate::html::flattened(ticket.title@));
            let priority = match ticket.priority {
                Some(n) => "p"@ + crate::number::decimal(n as int),
                None => ""@,
            };
            let who = match ticket.assigned {
                Some(person) => person.name@,
                None => ""@,
            };
            let mine = match ticket.assigned {
                Some(person) => person.email@ == page.current_user@,
                None => false,
            };
            &&& crate::text::holds(
                r@,
                "<tr class=\""@ + (if ticket.status == TicketStatus::Closed {
                    "closed"@
                } else if is_child {
                    "open sub"@
                } else {
                    "open"@
                }) + "\" data-id=\""@ + crate::html::escaped(crate::ticket::uuid_text(ticket.id))
                    + "\" data-depth=\""@ + crate::number::decimal(depth as int) + "\""@,
            )
            &&& crate::text::holds(r@, "><td class=\"id\"><a href=\"/t/"@ + id + "\">"@ + id)
            &&& crate::text::holds(
                r@,
                "<td class=\"title\">"@ + parent_html(*ticket) + "<a href=\"/t/"@ + id + "\">"@
                    + title + "</a>"@,
            )
            &&& crate::text::holds(
                r@,
                "</a></td><td class=\"age\">"@ + age + "</td><td class=\"prio\">"@
                    + crate::html::escaped(priority) + "</td>"@,
            )
            &&& crate::text::holds(
                r@,
                "</td><td class=\"who"@ + (if mine {
                    " mine"@
                } else {
                    ""@
                }) + "\">"@ + crate::html::escaped(who) + "</td><td class=\"tags\">"@,
            )
        }),
{
    broadcast use crate::text::group_holds;

}

/// The row of a ticket under another names that one, and only such a row does. A row under another
/// of the list is folded away, and one that has others under it says how many.
pub proof fn a_row_shows_its_place(
    page: &Page,
    query: &ListQuery,
    ticket: &Ticket,
    show_state: bool,
    children: usize,
    is_child: bool,
    depth: usize,
    r: String,
)
    requires
        call_ensures(row, (page, query, ticket, show_state, children, is_child, depth), r),
    ensures
        crate::text::holds(
            r@,
            "\""@ + (match ticket.parent {
                Some(parent) => " data-parent=\""@ + crate::html::escaped(
                    crate::ticket::uuid_text(parent),
                ) + "\""@,
                None => Seq::empty(),
            }) + ((if is_child {
                " style=\"display:none;--depth:"@
            } else {
                " style=\"--depth:"@
            }) + crate::number::decimal(depth as int) + "\""@) + "><td class=\"id\"><a href=\"/t/"@,
        ),
        crate::text::holds(
            r@,
            "<td class=\"title\">"@ + (match ticket.parent {
                Some(parent) => "<span class=\"parent\">\u{21b3} "@ + crate::html::escaped(
                    crate::ticket::short_text(parent),
                ) + "</span> "@,
                None => Seq::empty(),
            }) + "<a href=\"/t/"@,
        ),
        crate::text::holds(
            r@,
            "</a>"@ + (if children > 0 {
                " <button class=\"children-toggle\" onclick=\"listToggle(this)\"              aria-expanded=\"false\">[+"@
                    + crate::number::decimal(children as int) + "]</button>"@
            } else {
                Seq::empty()
            }) + "</td><td class=\"who"@,
        ),
        crate::text::holds(
            r@,
            "</td>"@ + (if show_state {
                "<td class=\"state\"><span class=\"badge state-"@ + crate::html::escaped(
                    ticket.state.name@,
                ) + "\">"@ + crate::html::escaped(ticket.state.name@) + "</span></td>"@
            } else {
                Seq::empty()
            }) + "<td class=\"title\">"@,
        ),
{
    broadcast use crate::text::group_holds;

}

/// The tags of a row are those of its ticket, in order: the same that the ticket shows elsewhere.
pub proof fn a_row_shows_the_tags(
    page: &Page,
    query: &ListQuery,
    ticket: &Ticket,
    show_state: bool,
    children: usize,
    is_child: bool,
    depth: usize,
    r: String,
    chips: String,
)
    requires
        call_ensures(row, (page, query, ticket, show_state, children, is_child, depth), r),
        call_ensures(tag_chips, (query, ticket), chips),
    ensures
        crate::text::holds(r@, "</td><td class=\"tags\">"@ + chips@ + "</td></tr>"@),
{
    broadcast use crate::text::group_holds;

}

/// The order that the head of a column asks for: that of its key, or the reverse where the list is in
/// that order already.
pub open spec fn asked_order(q: crate::query::QueryView, key: Seq<char>) -> Seq<char> {
    if q.order == Some(key) {
        key + ".desc"@
    } else {
        key
    }
}

/// A column head with a label that links to the list sorted by a key, with an arrow where the list is
/// sorted by that key: from the link on.
pub open spec fn head_piece(
    label: Seq<char>,
    key: Seq<char>,
    q: crate::query::QueryView,
) -> Seq<char> {
    "\"><a href=\""@ + crate::html::escaped(
        crate::query::href_text(q, Some(asked_order(q, key))),
    ) + "\">"@ + label + (if q.order == Some(key) {
        " \u{2191}"@
    } else if q.order == Some(key + ".desc"@) {
        " \u{2193}"@
    } else {
        ""@
    }) + "</a></th>"@
}

/// Whether a text has such a column head.
pub open spec fn has_head(
    text: Seq<char>,
    label: Seq<char>,
    key: Seq<char>,
    q: crate::query::QueryView,
) -> bool {
    crate::text::holds(text, head_piece(label, key, q))
}

/// Each column head links to the list sorted by its own column, and the arrow stands beside the
/// column that the list is sorted by.
pub proof fn column_heads_sort_by_their_columns(
    page: &Page,
    query: &ListQuery,
    show_state: bool,
    tickets: &Vec<Ticket>,
    r: String,
)
    requires
        call_ensures(list_page, (page, query, show_state, tickets), r),
        tickets@.len() > 0,
    ensures
        has_head(r@, "Age"@, "created"@, query@),
        has_head(r@, "P"@, "priority"@, query@),
        show_state ==> has_head(r@, "State"@, "state"@, query@),
        has_head(r@, "Title"@, "title"@, query@),
        has_head(r@, "Assigned"@, "assigned"@, query@),
{
    let q = query@;
    let ts = tickets@;
    let listing = crate::nesting::listing(ts);
    let rows = Seq::new(
        listing.len(),
        |k: int| listed_row_html(*page, q, show_state, ts, listing[k]),
    );
    let heads = heads_of(q, show_state);
    lemma_rows_run_together(*page, q, show_state, ts, listing, rows);
    lemma_heads(q, show_state);
    lemma_table_parts(*page, q, show_state, ts, rows);
    let n = heads.len() as int;
    lemma_head_in_page(*page, q, show_state, ts, rows, 0, head_piece("Age"@, "created"@, q));
    lemma_head_in_page(*page, q, show_state, ts, rows, 1, head_piece("P"@, "priority"@, q));
    if show_state {
        lemma_head_in_page(*page, q, show_state, ts, rows, 2, head_piece("State"@, "state"@, q));
    }
    lemma_head_in_page(*page, q, show_state, ts, rows, n - 2, head_piece("Title"@, "title"@, q));
    lemma_head_in_page(
        *page,
        q,
        show_state,
        ts,
        rows,
        n - 1,
        head_piece("Assigned"@, "assigned"@, q),
    );
}

proof fn lemma_head(class: Seq<char>, label: Seq<char>, key: Seq<char>, q: crate::query::QueryView)
    ensures
        has_head(column_html(class, label, key, q), label, key, q),
{
    broadcast use crate::text::group_holds;

}

proof fn lemma_head_in_page(
    page: Page,
    q: crate::query::QueryView,
    show_state: bool,
    ts: Seq<Ticket>,
    rows: Seq<Seq<char>>,
    k: int,
    piece: Seq<char>,
)
    requires
        ts.len() > 0,
        0 <= k < heads_of(q, show_state).len(),
        crate::text::holds(heads_of(q, show_state)[k], piece),
        table_html(page, q, show_state, ts)
            == "<table class=\"tickets\"><thead><tr><th class=\"id\">Id</th>"@
            + crate::text::run_together(heads_of(q, show_state))
            + "<th class=\"tags\">Tags</th></tr></thead><tbody>"@ + crate::text::run_together(rows)
            + "</tbody></table>"@,
    ensures
        crate::text::holds(list_html(page, q, show_state, ts), piece),
{
    let open = "<table class=\"tickets\"><thead><tr><th class=\"id\">Id</th>"@;
    let heads = crate::text::run_together(heads_of(q, show_state));
    let middle = "<th class=\"tags\">Tags</th></tr></thead><tbody>"@;
    let all = crate::text::run_together(rows);
    crate::text::lemma_holds_part(heads_of(q, show_state), k, piece);
    crate::text::lemma_holds_end(open, heads, piece);
    crate::text::lemma_holds_start(open + heads, middle, piece);
    crate::text::lemma_holds_start(open + heads + middle, all, piece);
    crate::text::lemma_holds_start(open + heads + middle + all, "</tbody></table>"@, piece);
    lemma_content_in_page(page, q, show_state, ts, piece);
}

proof fn lemma_content_in_page(
    page: Page,
    q: crate::query::QueryView,
    show_state: bool,
    ts: Seq<Ticket>,
    piece: Seq<char>,
)
    requires
        crate::text::holds(list_content_html(page, q, show_state, ts), piece),
    ensures
        crate::text::holds(list_html(page, q, show_state, ts), piece),
{
    let head = crate::page::header_html(page, q, ViewMode::List);
    let content = list_content_html(page, q, show_state, ts);
    let count = crate::number::decimal(ts.len() as int);
    let link = crate::html::escaped(crate::query::href_on_text(q, "/tickets.json"@));
    let b1 = head + content;
    let b2 = b1 + "<p class=\"count\">"@;
    let b3 = b2 + count;
    let b4 = b3 + " ticket"@;
    let b5 = b4 + plural_text(ts.len() as int);
    let b6 = b5 + " \u{b7} <a href=\""@;
    let b7 = b6 + link;
    crate::text::lemma_holds_end(head, content, piece);
    crate::text::lemma_holds_start(b1, "<p class=\"count\">"@, piece);
    crate::text::lemma_holds_start(b2, count, piece);
    crate::text::lemma_holds_start(b3, " ticket"@, piece);
    crate::text::lemma_holds_start(b4, plural_text(ts.len() as int), piece);
    crate::text::lemma_holds_start(b5, " \u{b7} <a href=\""@, piece);
    crate::text::lemma_holds_start(b6, link, piece);
    crate::text::lemma_holds_start(b7, "\">JSON</a></p>"@, piece);
    crate::html::lemma_in_document(page.repo@ + " tickets"@, b7 + "\">JSON</a></p>"@, piece);
}

/// The page of a list counts its tickets, links to them as JSON, and starts with the header of the
/// list.
pub proof fn a_list_counts_its_tickets(
    page: &Page,
    query: &ListQuery,
    show_state: bool,
    tickets: &Vec<Ticket>,
    r: String,
    head: String,
)
    requires
        call_ensures(list_page, (page, query, show_state, tickets), r),
        call_ensures(header, (page, query, ViewMode::List), head),
    ensures
        crate::text::holds(
            r@,
            "<p class=\"count\">"@ + crate::number::decimal(tickets@.len() as int) + " ticket"@ + (
            if tickets@.len() == 1 {
                ""@
            } else {
                "s"@
            }) + " \u{b7} <a href=\""@ + crate::html::escaped(
                crate::query::href_on_text(query@, "/tickets.json"@),
            ) + "\">JSON</a></p>"@,
        ),
        crate::text::holds(
            r@,
            crate::html::escaped(page.repo@ + " tickets"@) + "</title><style>"@,
        ),
        crate::text::holds(r@, head@),
        tickets@.len() == 0 ==> crate::text::holds(
            r@,
            head@ + "<p class=\"empty\">No tickets match this view.</p>"@,
        ),
{
    broadcast use crate::text::group_holds;

}

/// The table of a list holds a row for each ticket that is listed, in the order of the listing.
pub proof fn a_list_shows_its_rows(
    page: &Page,
    query: &ListQuery,
    show_state: bool,
    tickets: &Vec<Ticket>,
    r: String,
) -> (rows: Seq<Seq<char>>)
    requires
        call_ensures(list_page, (page, query, show_state, tickets), r),
        tickets@.len() > 0,
    ensures
        rows.len() == crate::nesting::listing(tickets@).len(),
        crate::text::holds(
            r@,
            "<th class=\"tags\">Tags</th></tr></thead><tbody>"@ + crate::text::run_together(rows)
                + "</tbody></table>"@,
        ),
        forall|k: int, children: usize, is_child: bool, depth: usize, s: String|
            0 <= k < rows.len() && depth == crate::nesting::listing(tickets@)[k].1 && children
                == crate::nesting::children_of(
                tickets@,
                crate::nesting::listing(tickets@)[k].0,
            ).len() && is_child == !crate::nesting::is_root(
                tickets@,
                crate::nesting::listing(tickets@)[k].0,
            ) && #[trigger] call_ensures(
                row,
                (
                    page,
                    query,
                    &tickets@[crate::nesting::listing(tickets@)[k].0],
                    show_state,
                    children,
                    is_child,
                    depth,
                ),
                s,
            ) ==> rows[k] == s@,
{
    broadcast use crate::text::group_holds;

    let ts = tickets@;
    let q = query@;
    let listing = crate::nesting::listing(ts);
    let rows = Seq::new(
        listing.len(),
        |k: int| listed_row_html(*page, q, show_state, ts, listing[k]),
    );
    lemma_rows_run_together(*page, q, show_state, ts, listing, rows);
    rows
}

proof fn lemma_rows_run_together(
    page: Page,
    q: crate::query::QueryView,
    show_state: bool,
    ts: Seq<Ticket>,
    listing: Seq<(int, nat)>,
    rows: Seq<Seq<char>>,
)
    requires
        rows.len() == listing.len(),
        forall|k: int|
            0 <= k < rows.len() ==> #[trigger] rows[k] == listed_row_html(
                page,
                q,
                show_state,
                ts,
                listing[k],
            ),
    ensures
        rows_html(page, q, show_state, ts, listing) == crate::text::run_together(rows),
    decreases listing.len(),
{
    if listing.len() > 0 {
        lemma_rows_run_together(page, q, show_state, ts, listing.drop_last(), rows.drop_last());
    }
}

/// A list is answered with its page, which shows the states where the list can hold closed tickets.
pub proof fn a_list_is_answered_with_its_page(
    page: &Page,
    query: &ListQuery,
    parsed: &ParsedFilters,
    tickets: &Vec<Ticket>,
    r: Response,
    shows: bool,
    text: String,
)
    requires
        call_ensures(list_response, (page, query, parsed, tickets), r),
        call_ensures(ListQuery::shows_closed, (query, parsed), shows),
        call_ensures(list_page, (page, query, shows, tickets), text),
    ensures
        r.status == 200,
        r.content_type@ == "text/html; charset=utf-8"@,
        r.body@ == vstd::utf8::encode_utf8(text@),
        r.location is None,
{
}

/// The tickets as JSON are answered as they are, and as JSON.
pub proof fn json_is_answered_as_it_is(json: String, r: Response)
    requires
        call_ensures(json_response, (json,), r),
    ensures
        r.status == 200,
        r.content_type@ == "application/json; charset=utf-8"@,
        vstd::utf8::decode_utf8(r.body@) == json@,
        r.location is None,
{
    vstd::utf8::encode_utf8_decode_utf8(json@);
}

/// A list is a document with the header of the list, the table of the tickets or that there are none,
/// and the count, and nothing else. The table has a head for the id, one for each column that the
/// list can be sorted by, and one for the tags, and then the rows.
pub proof fn a_list_is_made_of_its_parts(
    page: &Page,
    query: &ListQuery,
    show_state: bool,
    tickets: &Vec<Ticket>,
    r: String,
    head: String,
    title: &str,
    body: &str,
    whole: String,
) -> (found: (Seq<Seq<char>>, Seq<Seq<char>>))
    requires
        call_ensures(list_page, (page, query, show_state, tickets), r),
        call_ensures(header, (page, query, ViewMode::List), head),
        call_ensures(document, (title, body), whole),
        title@ == page.repo@ + " tickets"@,
        whole@ == r@,
    ensures
        ({
            let (heads, rows) = found;
            &&& heads.len() == if show_state {
                5int
            } else {
                4
            }
            &&& has_head(heads[0], "Age"@, "created"@, query@)
            &&& has_head(heads[1], "P"@, "priority"@, query@)
            &&& show_state ==> has_head(heads[2], "State"@, "state"@, query@)
            &&& has_head(heads[heads.len() - 2], "Title"@, "title"@, query@)
            &&& has_head(heads[heads.len() - 1], "Assigned"@, "assigned"@, query@)
            &&& rows.len() == crate::nesting::listing(tickets@).len()
            &&& body@ == head@ + (if tickets@.len() == 0 {
                "<p class=\"empty\">No tickets match this view.</p>"@
            } else {
                "<table class=\"tickets\"><thead><tr><th class=\"id\">Id</th>"@
                    + crate::text::run_together(heads)
                    + "<th class=\"tags\">Tags</th></tr></thead><tbody>"@
                    + crate::text::run_together(rows) + "</tbody></table>"@
            }) + "<p class=\"count\">"@ + crate::number::decimal(tickets@.len() as int)
                + " ticket"@ + (if tickets@.len() == 1 {
                ""@
            } else {
                "s"@
            }) + " \u{b7} <a href=\""@ + crate::html::escaped(
                crate::query::href_on_text(query@, "/tickets.json"@),
            ) + "\">JSON</a></p>"@
        }),
{
    let ts = tickets@;
    let q = query@;
    let listing = crate::nesting::listing(ts);
    let rows = Seq::new(
        listing.len(),
        |k: int| listed_row_html(*page, q, show_state, ts, listing[k]),
    );
    lemma_rows_run_together(*page, q, show_state, ts, listing, rows);
    let heads = heads_of(q, show_state);
    lemma_heads(q, show_state);
    lemma_table_parts(*page, q, show_state, ts, rows);
    let inside = crate::page::header_html(*page, q, ViewMode::List) + list_content_html(
        *page,
        q,
        show_state,
        ts,
    ) + "<p class=\"count\">"@ + crate::number::decimal(ts.len() as int) + " ticket"@
        + plural_text(ts.len() as int) + " \u{b7} <a href=\""@ + crate::html::escaped(
        crate::query::href_on_text(q, "/tickets.json"@),
    ) + "\">JSON</a></p>"@;
    crate::html::documents_differ_in_their_bodies(title@, body@, inside);
    (heads, rows)
}

spec fn heads_of(q: crate::query::QueryView, show_state: bool) -> Seq<Seq<char>> {
    let age = column_html("age"@, "Age"@, "created"@, q);
    let prio = column_html("prio"@, "P"@, "priority"@, q);
    let state = column_html("state"@, "State"@, "state"@, q);
    let name = column_html("title"@, "Title"@, "title"@, q);
    let who = column_html("who"@, "Assigned"@, "assigned"@, q);
    if show_state {
        seq![age, prio, state, name, who]
    } else {
        seq![age, prio, name, who]
    }
}

proof fn lemma_heads(q: crate::query::QueryView, show_state: bool)
    ensures
        ({
            let heads = heads_of(q, show_state);
            &&& heads.len() == if show_state {
                5int
            } else {
                4
            }
            &&& has_head(heads[0], "Age"@, "created"@, q)
            &&& has_head(heads[1], "P"@, "priority"@, q)
            &&& show_state ==> has_head(heads[2], "State"@, "state"@, q)
            &&& has_head(heads[heads.len() - 2], "Title"@, "title"@, q)
            &&& has_head(heads[heads.len() - 1], "Assigned"@, "assigned"@, q)
        }),
{
    lemma_head("age"@, "Age"@, "created"@, q);
    lemma_head("prio"@, "P"@, "priority"@, q);
    lemma_head("state"@, "State"@, "state"@, q);
    lemma_head("title"@, "Title"@, "title"@, q);
    lemma_head("who"@, "Assigned"@, "assigned"@, q);
}

proof fn lemma_table_parts(
    page: Page,
    q: crate::query::QueryView,
    show_state: bool,
    ts: Seq<Ticket>,
    rows: Seq<Seq<char>>,
)
    requires
        rows_html(page, q, show_state, ts, crate::nesting::listing(ts))
            == crate::text::run_together(rows),
    ensures
        table_html(page, q, show_state, ts)
            == "<table class=\"tickets\"><thead><tr><th class=\"id\">Id</th>"@
            + crate::text::run_together(heads_of(q, show_state))
            + "<th class=\"tags\">Tags</th></tr></thead><tbody>"@ + crate::text::run_together(rows)
            + "</tbody></table>"@,
{
    lemma_heads_run_together(
        "<table class=\"tickets\"><thead><tr><th class=\"id\">Id</th>"@,
        column_html("age"@, "Age"@, "created"@, q),
        column_html("prio"@, "P"@, "priority"@, q),
        column_html("state"@, "State"@, "state"@, q),
        column_html("title"@, "Title"@, "title"@, q),
        column_html("who"@, "Assigned"@, "assigned"@, q),
    );
}

proof fn lemma_heads_run_together(
    open: Seq<char>,
    a: Seq<char>,
    b: Seq<char>,
    c: Seq<char>,
    d: Seq<char>,
    e: Seq<char>,
)
    ensures
        open + a + b + c + d + e == open + crate::text::run_together(seq![a, b, c, d, e]),
        open + a + b + Seq::<char>::empty() + d + e == open + crate::text::run_together(
            seq![a, b, d, e],
        ),
{
    let none = Seq::<Seq<char>>::empty();
    let five = seq![a, b, c, d, e];
    let four = seq![a, b, d, e];
    assert(five.drop_last() =~= seq![a, b, c, d]);
    assert(seq![a, b, c, d].drop_last() =~= seq![a, b, c]);
    assert(seq![a, b, c].drop_last() =~= seq![a, b]);
    assert(seq![a, b].drop_last() =~= seq![a]);
    assert(seq![a].drop_last() =~= none);
    assert(four.drop_last() =~= seq![a, b, d]);
    assert(seq![a, b, d].drop_last() =~= seq![a, b]);
    reveal_with_fuel(crate::text::run_together, 6);
    assert(crate::text::run_together(none) =~= Seq::<char>::empty());
    assert(open + a + b + c + d + e =~= open + crate::text::run_together(five));
    assert(open + a + b + Seq::<char>::empty() + d + e =~= open + crate::text::run_together(four));
}

} // verus!
