//! The board: tickets in a column for each state.

use vstd::prelude::*;
use vstd::string::*;

use crate::html::document;
use crate::html::escape;
use crate::html::flatten;
use crate::html::tag_hue;
use crate::number::count_text;
use crate::number::signed_text;
use crate::page::header;
use crate::page::Page;
use crate::query::ListQuery;
use crate::query::ViewMode;
use crate::response::Response;
use crate::text::out_push;
use crate::ticket::Ticket;
use crate::ticket::TicketState;
use crate::ticket::TicketStatus;

verus! {

// -- cards ------------------------------------------------------------------

/// The priority on a card.
pub open spec fn card_priority_html(ticket: Ticket) -> Seq<char> {
    match ticket.priority {
        Some(priority) => "<span class=\"kp\">p"@ + crate::number::decimal(priority as int)
            + "</span>"@,
        None => Seq::empty(),
    }
}

/// The assignee on a card.
pub open spec fn card_assigned_html(ticket: Ticket) -> Seq<char> {
    match ticket.assigned {
        Some(person) => if person.name@.len() > 0 {
            "<span class=\"ka\">"@ + crate::html::escaped(person.name@) + "</span>"@
        } else {
            Seq::empty()
        },
        None => Seq::empty(),
    }
}

/// The first `n` tags on a card.
pub open spec fn card_tags_html(tags: Seq<Seq<char>>, n: int) -> Seq<char>
    decreases n,
{
    if n <= 0 {
        Seq::empty()
    } else {
        card_tags_html(tags, n - 1) + "<span class=\"tag tag-"@ + crate::number::decimal(
            crate::html::hue(tags[n - 1]) as int,
        ) + "\">"@ + crate::html::escaped(tags[n - 1]) + "</span>"@
    }
}

/// The card of a ticket.
pub open spec fn card_html(ticket: Ticket) -> Seq<char> {
    let id = crate::html::escaped(crate::ticket::short_text(ticket.id));
    "<a class=\"kcard\" href=\"/t/"@ + id + "\"><div class=\"kt\">"@ + crate::html::escaped(
        crate::html::flattened(ticket.title@),
    ) + "</div><div class=\"km\"><span class=\"kid\">"@ + id + "</span>"@ + card_priority_html(
        ticket,
    ) + card_assigned_html(ticket) + card_tags_html(
        ticket.tags.deep_view(),
        ticket.tags.deep_view().len() as int,
    ) + "</div></a>"@
}

/// The priority on a card.
fn card_priority(ticket: &Ticket) -> (r: String)
    ensures
        r@ == card_priority_html(*ticket),
{
    match ticket.priority {
        Some(priority) => {
            let mut out = "<span class=\"kp\">p".to_owned();
            out_push(&mut out, signed_text(priority).as_str());
            out_push(&mut out, "</span>");
            out
        },
        None => String::new(),
    }
}

/// The assignee on a card.
fn card_assigned(ticket: &Ticket) -> (r: String)
    ensures
        r@ == card_assigned_html(*ticket),
{
    match &ticket.assigned {
        Some(person) => {
            if person.name.as_str().is_empty() {
                String::new()
            } else {
                let mut out = "<span class=\"ka\">".to_owned();
                out_push(&mut out, escape(person.name.as_str()).as_str());
                out_push(&mut out, "</span>");
                out
            }
        },
        None => String::new(),
    }
}

/// The tags on a card.
fn card_tags(tags: &Vec<String>) -> (r: String)
    ensures
        r@ == card_tags_html(tags.deep_view(), tags.deep_view().len() as int),
{
    let mut out = String::new();
    let mut i: usize = 0;
    while i < tags.len()
        invariant
            i <= tags@.len(),
            out@ == card_tags_html(tags.deep_view(), i as int),
        decreases tags@.len() - i,
    {
        let tag = tags[i].as_str();
        assert(tags.deep_view()[i as int] == tag@);
        out_push(&mut out, "<span class=\"tag tag-");
        out_push(&mut out, count_text(tag_hue(tag)).as_str());
        out_push(&mut out, "\">");
        out_push(&mut out, escape(tag).as_str());
        out_push(&mut out, "</span>");
        i = i + 1;
    }
    out
}

/// The card of a ticket.
pub fn card(ticket: &Ticket) -> (r: String)
    ensures
        r@ == card_html(*ticket),
{
    let id = escape(ticket.short_id().as_str());
    let mut out = "<a class=\"kcard\" href=\"/t/".to_owned();
    out_push(&mut out, id.as_str());
    out_push(&mut out, "\"><div class=\"kt\">");
    out_push(&mut out, escape(flatten(ticket.title.as_str()).as_str()).as_str());
    out_push(&mut out, "</div><div class=\"km\"><span class=\"kid\">");
    out_push(&mut out, id.as_str());
    out_push(&mut out, "</span>");
    out_push(&mut out, card_priority(ticket).as_str());
    out_push(&mut out, card_assigned(ticket).as_str());
    out_push(&mut out, card_tags(&ticket.tags).as_str());
    out_push(&mut out, "</div></a>");
    out
}

// -- columns ----------------------------------------------------------------

/// The positions of those of the first `n` tickets that are in a state.
pub open spec fn in_state(
    ts: Seq<Ticket>,
    state: (Seq<char>, TicketStatus),
    n: int,
) -> Seq<int>
    decreases n,
{
    if n <= 0 {
        Seq::empty()
    } else if ts[n - 1].state@ == state {
        in_state(ts, state, n - 1).push(n - 1)
    } else {
        in_state(ts, state, n - 1)
    }
}

/// The positions of the tickets in a column.
pub open spec fn column_of(ts: Seq<Ticket>, state: (Seq<char>, TicketStatus)) -> Seq<int> {
    in_state(ts, state, ts.len() as int)
}

/// The cards of the tickets at `list`.
pub open spec fn cards_html(ts: Seq<Ticket>, list: Seq<int>) -> Seq<char>
    decreases list.len(),
{
    if list.len() == 0 {
        Seq::empty()
    } else {
        cards_html(ts, list.drop_last()) + card_html(ts[list.last()])
    }
}

/// Whether a column is shown: a closed state's only where it holds a ticket.
pub open spec fn is_column_shown(ts: Seq<Ticket>, state: (Seq<char>, TicketStatus)) -> bool {
    column_of(ts, state).len() > 0 || state.1 == TicketStatus::Open
}

/// The column of a state.
pub open spec fn column_html(ts: Seq<Ticket>, state: (Seq<char>, TicketStatus)) -> Seq<char> {
    if is_column_shown(ts, state) {
        "<div class=\"kanban-col\"><h3>"@ + crate::html::escaped(state.0)
            + " <span class=\"n\">"@ + crate::number::decimal(column_of(ts, state).len() as int)
            + "</span></h3><div class=\"kanban-cards\">"@ + cards_html(ts, column_of(ts, state))
            + "</div></div>"@
    } else {
        Seq::empty()
    }
}

/// The columns of the first `n` states.
pub open spec fn columns_html(ts: Seq<Ticket>, states: Seq<TicketState>, n: int) -> Seq<char>
    decreases n,
{
    if n <= 0 {
        Seq::empty()
    } else {
        columns_html(ts, states, n - 1) + column_html(ts, states[n - 1]@)
    }
}

proof fn lemma_in_state(ts: Seq<Ticket>, state: (Seq<char>, TicketStatus), n: int)
    requires
        0 <= n <= ts.len(),
    ensures
        forall|k: int|
            0 <= k < in_state(ts, state, n).len() ==> 0 <= #[trigger] in_state(ts, state, n)[k] < n
                && ts[in_state(ts, state, n)[k]].state@ == state,
        forall|i: int|
            0 <= i < n && (#[trigger] ts[i]).state@ == state ==> in_state(ts, state, n).contains(i),
        in_state(ts, state, n).no_duplicates(),
    decreases n,
{
    if n > 0 {
        let before = in_state(ts, state, n - 1);
        let now = in_state(ts, state, n);
        lemma_in_state(ts, state, n - 1);
        assert forall|k: int| 0 <= k < now.len() implies 0 <= #[trigger] now[k] < n
            && ts[now[k]].state@ == state by {
            if k < before.len() {
                assert(now[k] == before[k]);
            }
        }
        assert forall|i: int| 0 <= i < n && (#[trigger] ts[i]).state@ == state implies now.contains(
            i,
        ) by {
            if i < n - 1 {
                let k = choose|k: int| 0 <= k < before.len() && before[k] == i;
                assert(now[k] == i);
            } else {
                assert(now[now.len() - 1] == i);
            }
        }
    }
}

/// A ticket has one card, in the column of its state, and that column is shown.
pub proof fn each_ticket_is_in_its_column(
    ts: Seq<Ticket>,
    state: (Seq<char>, TicketStatus),
    i: int,
)
    requires
        0 <= i < ts.len(),
    ensures
        column_of(ts, state).contains(i) <==> ts[i].state@ == state,
        column_of(ts, state).no_duplicates(),
        ts[i].state@ == state ==> is_column_shown(ts, state),
{
    lemma_in_state(ts, state, ts.len() as int);
}

/// The cards of the tickets in a state, and how many there are.
fn cards(tickets: &Vec<Ticket>, state: &TicketState) -> (r: (String, usize))
    ensures
        r.0@ == cards_html(tickets@, column_of(tickets@, state@)),
        r.1 == column_of(tickets@, state@).len(),
{
    let ghost ts = tickets@;
    let mut out = String::new();
    let mut count: usize = 0;
    let mut i: usize = 0;
    while i < tickets.len()
        invariant
            i <= tickets@.len(),
            count <= i,
            ts == tickets@,
            count == in_state(ts, state@, i as int).len(),
            out@ == cards_html(ts, in_state(ts, state@, i as int)),
        decreases tickets@.len() - i,
    {
        if tickets[i].state.same_as(state) {
            proof {
                let before = in_state(ts, state@, i as int);
                let now = in_state(ts, state@, i + 1);
                assert(now.drop_last() =~= before);
                assert(now.last() == i as int);
            }
            out_push(&mut out, card(&tickets[i]).as_str());
            count = count + 1;
        }
        i = i + 1;
    }
    (out, count)
}

/// The column of a state.
fn column(tickets: &Vec<Ticket>, state: &TicketState) -> (r: String)
    ensures
        r@ == column_html(tickets@, state@),
{
    let (cards, count) = cards(tickets, state);
    if count == 0 && state.status() == TicketStatus::Closed {
        return String::new();
    }
    let mut out = "<div class=\"kanban-col\"><h3>".to_owned();
    out_push(&mut out, escape(state.as_str()).as_str());
    out_push(&mut out, " <span class=\"n\">");
    out_push(&mut out, count_text(count).as_str());
    out_push(&mut out, "</span></h3><div class=\"kanban-cards\">");
    out_push(&mut out, cards.as_str());
    out_push(&mut out, "</div></div>");
    out
}

// -- the page ---------------------------------------------------------------

/// What the board shows: its columns, or that there is nothing to show.
pub open spec fn board_html(ts: Seq<Ticket>, states: Seq<TicketState>) -> Seq<char> {
    if ts.len() == 0 {
        "<p class=\"empty\">No tickets match this view.</p>"@
    } else {
        "<div class=\"kanban\">"@ + columns_html(ts, states, states.len() as int) + "</div>"@
    }
}

/// The page of the board.
pub open spec fn kanban_html(
    page: Page,
    q: crate::query::QueryView,
    ts: Seq<Ticket>,
    states: Seq<TicketState>,
) -> Seq<char> {
    crate::html::document_html(
        page.repo@ + " kanban"@,
        crate::page::header_html(page, q, ViewMode::Kanban) + board_html(ts, states)
            + "<p class=\"count\">"@ + crate::number::decimal(ts.len() as int) + " ticket"@
            + crate::list::plural_text(ts.len() as int) + " \u{b7} read-only</p>"@,
    )
}

/// What the board shows: its columns, or that there is nothing to show.
fn board(tickets: &Vec<Ticket>, states: &Vec<TicketState>) -> (r: String)
    ensures
        r@ == board_html(tickets@, states@),
{
    if tickets.len() == 0 {
        return "<p class=\"empty\">No tickets match this view.</p>".to_owned();
    }
    let mut columns = String::new();
    let mut i: usize = 0;
    while i < states.len()
        invariant
            i <= states@.len(),
            columns@ == columns_html(tickets@, states@, i as int),
        decreases states@.len() - i,
    {
        out_push(&mut columns, column(tickets, &states[i]).as_str());
        i = i + 1;
    }
    let mut out = "<div class=\"kanban\">".to_owned();
    out_push(&mut out, columns.as_str());
    out_push(&mut out, "</div>");
    out
}

/// The page of the board, with a column for each state of the workflow, in its order.
pub fn kanban_page(
    page: &Page,
    query: &ListQuery,
    tickets: &Vec<Ticket>,
    states: &Vec<TicketState>,
) -> (r: String)
    ensures
        r@ == kanban_html(*page, query@, tickets@, states@),
{
    let mut body = header(page, query, ViewMode::Kanban);
    out_push(&mut body, board(tickets, states).as_str());
    out_push(&mut body, "<p class=\"count\">");
    out_push(&mut body, count_text(tickets.len()).as_str());
    out_push(&mut body, " ticket");
    if tickets.len() == 1 {
        out_push(&mut body, "");
    } else {
        out_push(&mut body, "s");
    }
    out_push(&mut body, " \u{b7} read-only</p>");
    let mut title = page.repo.clone();
    out_push(&mut title, " kanban");
    document(title.as_str(), body.as_str())
}

/// The answer to a request for the board: its page.
pub fn response(
    page: &Page,
    query: &ListQuery,
    tickets: &Vec<Ticket>,
    states: &Vec<TicketState>,
) -> (r: Response)
    ensures
        r@ == crate::response::html_response(200, kanban_html(*page, query@, tickets@, states@)),
{
    Response::html(200, kanban_page(page, query, tickets, states))
}

// -- laws -------------------------------------------------------------------

/// The card of a ticket leads to its page and shows its title, its id and its priority, who it is
/// assigned to, and nothing for what is not set.
pub proof fn a_card_shows_its_ticket(ticket: &Ticket, r: String)
    requires
        call_ensures(card, (ticket,), r),
    ensures
        ({
            let id = crate::html::escaped(crate::ticket::short_text(ticket.id));
            crate::text::holds(
                r@,
                "<a class=\"kcard\" href=\"/t/"@ + id + "\"><div class=\"kt\">"@
                    + crate::html::escaped(crate::html::flattened(ticket.title@)),
            ) && crate::text::holds(
                r@,
                "</div><div class=\"km\"><span class=\"kid\">"@ + id + "</span>"@ + (
                match ticket.priority {
                    Some(n) => "<span class=\"kp\">p"@ + crate::number::decimal(n as int)
                        + "</span>"@,
                    None => Seq::empty(),
                }) + (match ticket.assigned {
                    Some(person) => if person.name@.len() > 0 {
                        "<span class=\"ka\">"@ + crate::html::escaped(person.name@) + "</span>"@
                    } else {
                        Seq::empty()
                    },
                    None => Seq::empty(),
                }),
            )
        }),
{
    broadcast use crate::text::group_holds;

}

proof fn lemma_card_tags(tags: Seq<Seq<char>>, n: int, marks: Seq<Seq<char>>)
    requires
        0 <= n <= tags.len(),
        marks.len() == tags.len(),
        forall|i: int|
            0 <= i < marks.len() ==> #[trigger] marks[i] == "<span class=\"tag tag-"@
                + crate::number::decimal(crate::html::hue(tags[i]) as int) + "\">"@
                + crate::html::escaped(tags[i]) + "</span>"@,
    ensures
        card_tags_html(tags, n) == crate::text::run_together(marks.take(n)),
    decreases n,
{
    if n > 0 {
        lemma_card_tags(tags, n - 1, marks);
        assert(marks.take(n).drop_last() =~= marks.take(n - 1));
        assert(marks.take(n).last() == marks[n - 1]);
        assert(card_tags_html(tags, n) =~= card_tags_html(tags, n - 1) + marks[n - 1]);
    }
}

/// The card of a ticket ends with its tags and no others, in their order.
pub proof fn a_card_shows_the_tags(ticket: &Ticket, r: String) -> (marks: Seq<Seq<char>>)
    requires
        call_ensures(card, (ticket,), r),
    ensures
        marks.len() == ticket.tags@.len(),
        crate::text::holds(r@, crate::text::run_together(marks) + "</div></a>"@),
        forall|i: int|
            0 <= i < marks.len() ==> #[trigger] marks[i] == "<span class=\"tag tag-"@
                + crate::number::decimal(crate::html::hue(ticket.tags@[i]@) as int) + "\">"@
                + crate::html::escaped(ticket.tags@[i]@) + "</span>"@,
{
    broadcast use crate::text::group_holds;

    let tags = ticket.tags.deep_view();
    let marks = Seq::new(
        tags.len(),
        |i: int|
            "<span class=\"tag tag-"@ + crate::number::decimal(crate::html::hue(tags[i]) as int)
                + "\">"@ + crate::html::escaped(tags[i]) + "</span>"@,
    );
    lemma_card_tags(tags, tags.len() as int, marks);
    assert(marks.take(tags.len() as int) =~= marks);
    assert forall|i: int| 0 <= i < marks.len() implies #[trigger] marks[i]
        == "<span class=\"tag tag-"@ + crate::number::decimal(
        crate::html::hue(ticket.tags@[i]@) as int,
    ) + "\">"@ + crate::html::escaped(ticket.tags@[i]@) + "</span>"@ by {
        assert(tags[i] == ticket.tags@[i]@);
    }
    marks
}

proof fn lemma_cards_run_together(ts: Seq<Ticket>, list: Seq<int>, cards: Seq<Seq<char>>)
    requires
        cards.len() == list.len(),
        forall|k: int| 0 <= k < cards.len() ==> #[trigger] cards[k] == card_html(ts[list[k]]),
    ensures
        cards_html(ts, list) == crate::text::run_together(cards),
    decreases list.len(),
{
    if list.len() > 0 {
        lemma_cards_run_together(ts, list.drop_last(), cards.drop_last());
    }
}

proof fn lemma_in_state_order(ts: Seq<Ticket>, state: (Seq<char>, TicketStatus), n: int)
    requires
        0 <= n <= ts.len(),
    ensures
        forall|a: int, b: int|
            0 <= a < b < in_state(ts, state, n).len() ==> #[trigger] in_state(ts, state, n)[a]
                < #[trigger] in_state(ts, state, n)[b],
        forall|a: int|
            0 <= a < in_state(ts, state, n).len() ==> #[trigger] in_state(ts, state, n)[a] < n,
    decreases n,
{
    if n > 0 {
        lemma_in_state_order(ts, state, n - 1);
        let before = in_state(ts, state, n - 1);
        let now = in_state(ts, state, n);
        assert forall|a: int| 0 <= a < now.len() implies #[trigger] now[a] < n by {
            if a < before.len() {
                assert(now[a] == before[a]);
            }
        }
        assert forall|a: int, b: int| 0 <= a < b < now.len() implies #[trigger] now[a]
            < #[trigger] now[b] by {
            assert(now[a] == before[a]);
            if b < before.len() {
                assert(now[b] == before[b]);
            }
        }
    }
}

/// Whether `at` are the positions of the tickets in a state, in order.
pub open spec fn are_in_state(at: Seq<int>, ts: Seq<Ticket>, state: TicketState) -> bool {
    &&& forall|k: int| 0 <= k < at.len() ==> 0 <= #[trigger] at[k] < ts.len()
    &&& forall|a: int, b: int| 0 <= a < b < at.len() ==> #[trigger] at[a] < #[trigger] at[b]
    &&& forall|i: int|
        0 <= i < ts.len() ==> (#[trigger] at.contains(i) <==> ts[i].state.name@ == state.name@
            && ts[i].state.status == state.status)
}

/// The board has a column for each state of the workflow, with its name, the number of its tickets,
/// and a card for each of them and no other, in their order. Only a closed state without a ticket has
/// none.
pub proof fn the_board_has_each_column(
    page: &Page,
    query: &ListQuery,
    tickets: &Vec<Ticket>,
    states: &Vec<TicketState>,
    r: String,
    i: int,
) -> (found: (Seq<int>, Seq<Seq<char>>))
    requires
        call_ensures(kanban_page, (page, query, tickets, states), r),
        tickets@.len() > 0,
        0 <= i < states@.len(),
    ensures
        are_in_state(found.0, tickets@, states@[i]),
        found.1.len() == found.0.len(),
        forall|k: int, s: String|
            0 <= k < found.1.len() && #[trigger] call_ensures(
                card,
                (&tickets@[found.0[k]],),
                s,
            ) ==> #[trigger] found.1[k] == s@,
        found.0.len() > 0 || states@[i].status == TicketStatus::Open ==> crate::text::holds(
            r@,
            "<div class=\"kanban-col\"><h3>"@ + crate::html::escaped(states@[i].name@)
                + " <span class=\"n\">"@ + crate::number::decimal(found.0.len() as int)
                + "</span></h3><div class=\"kanban-cards\">"@ + crate::text::run_together(found.1)
                + "</div></div>"@,
        ),
{
    broadcast use crate::text::group_holds;

    let ts = tickets@;
    let state = states@[i];
    let at = column_of(ts, state@);
    let cards = Seq::new(at.len(), |k: int| card_html(ts[at[k]]));
    lemma_cards_run_together(ts, at, cards);
    lemma_in_state(ts, state@, ts.len() as int);
    lemma_in_state_order(ts, state@, ts.len() as int);
    assert forall|n: int| 0 <= n < ts.len() implies (#[trigger] at.contains(n)
        <==> ts[n].state.name@ == state.name@ && ts[n].state.status == state.status) by {
        assert((ts[n].state@ == state@) <==> ts[n].state.name@ == state.name@
            && ts[n].state.status == state.status);
        if at.contains(n) {
            let k = choose|k: int| 0 <= k < at.len() && at[k] == n;
            assert(ts[at[k]].state@ == state@);
        }
    }
    let wanted = "<div class=\"kanban-col\"><h3>"@ + crate::html::escaped(state.name@)
        + " <span class=\"n\">"@ + crate::number::decimal(at.len() as int)
        + "</span></h3><div class=\"kanban-cards\">"@ + crate::text::run_together(cards)
        + "</div></div>"@;
    if at.len() > 0 || state.status == TicketStatus::Open {
        assert(column_html(ts, state@) == wanted);
        lemma_column_shown(ts, states@, states@.len() as int, i);
    }
    (at, cards)
}

proof fn lemma_column_shown(ts: Seq<Ticket>, states: Seq<TicketState>, n: int, i: int)
    requires
        0 <= i < n,
    ensures
        crate::text::holds(columns_html(ts, states, n), column_html(ts, states[i]@)),
    decreases n,
{
    broadcast use crate::text::group_holds;

    if i < n - 1 {
        lemma_column_shown(ts, states, n - 1, i);
    }
}

proof fn lemma_columns_run_together(
    ts: Seq<Ticket>,
    states: Seq<TicketState>,
    n: int,
    columns: Seq<Seq<char>>,
)
    requires
        0 <= n <= states.len(),
        columns.len() == states.len(),
        forall|i: int|
            0 <= i < columns.len() ==> #[trigger] columns[i] == column_html(ts, states[i]@),
    ensures
        columns_html(ts, states, n) == crate::text::run_together(columns.take(n)),
    decreases n,
{
    if n > 0 {
        lemma_columns_run_together(ts, states, n - 1, columns);
        assert(columns.take(n).drop_last() =~= columns.take(n - 1));
        assert(columns.take(n).last() == columns[n - 1]);
    }
}

/// The columns of the board stand in the order of the workflow, and there are no others. Each starts
/// with the name of its state; only a closed state without a ticket has an empty one.
pub proof fn the_columns_are_in_order(
    page: &Page,
    query: &ListQuery,
    tickets: &Vec<Ticket>,
    states: &Vec<TicketState>,
    r: String,
) -> (columns: Seq<Seq<char>>)
    requires
        call_ensures(kanban_page, (page, query, tickets, states), r),
        tickets@.len() > 0,
    ensures
        columns.len() == states@.len(),
        crate::text::holds(
            r@,
            "<div class=\"kanban\">"@ + crate::text::run_together(columns) + "</div>"@,
        ),
        forall|i: int|
            0 <= i < columns.len() ==> if states@[i].status == TicketStatus::Closed && !(exists|
                n: int,
            |
                0 <= n < tickets@.len() && (#[trigger] tickets@[n]).state@ == states@[i]@) {
                (#[trigger] columns[i]).len() == 0
            } else {
                crate::text::holds(
                    columns[i],
                    "<div class=\"kanban-col\"><h3>"@ + crate::html::escaped(states@[i].name@)
                        + " <span class=\"n\">"@,
                )
            },
{
    broadcast use crate::text::group_holds;

    let ts = tickets@;
    let columns = Seq::new(states@.len(), |i: int| column_html(ts, states@[i]@));
    lemma_columns_run_together(ts, states@, states@.len() as int, columns);
    assert(columns.take(states@.len() as int) =~= columns);
    assert forall|i: int| 0 <= i < columns.len() implies if states@[i].status
        == TicketStatus::Closed && !(exists|n: int|
        0 <= n < ts.len() && (#[trigger] ts[n]).state@ == states@[i]@) {
        (#[trigger] columns[i]).len() == 0
    } else {
        crate::text::holds(
            columns[i],
            "<div class=\"kanban-col\"><h3>"@ + crate::html::escaped(states@[i].name@)
                + " <span class=\"n\">"@,
        )
    } by {
        let state = states@[i]@;
        let at = column_of(ts, state);
        lemma_in_state(ts, state, ts.len() as int);
        if at.len() > 0 {
            assert(ts[at[0]].state@ == state);
        } else if exists|n: int| 0 <= n < ts.len() && (#[trigger] ts[n]).state@ == state {
            let n = choose|n: int| 0 <= n < ts.len() && (#[trigger] ts[n]).state@ == state;
            assert(at.contains(n));
        }
    }
    columns
}

/// The page of the board counts its tickets and starts with the header of the board.
pub proof fn the_board_counts_its_tickets(
    page: &Page,
    query: &ListQuery,
    tickets: &Vec<Ticket>,
    states: &Vec<TicketState>,
    r: String,
    head: String,
)
    requires
        call_ensures(kanban_page, (page, query, tickets, states), r),
        call_ensures(header, (page, query, ViewMode::Kanban), head),
    ensures
        crate::text::holds(
            r@,
            "<p class=\"count\">"@ + crate::number::decimal(tickets@.len() as int) + " ticket"@ + (
            if tickets@.len() == 1 {
                ""@
            } else {
                "s"@
            }) + " \u{b7} read-only</p>"@,
        ),
        crate::text::holds(
            r@,
            crate::html::escaped(page.repo@ + " kanban"@) + "</title><style>"@,
        ),
        crate::text::holds(r@, head@),
        tickets@.len() == 0 ==> crate::text::holds(
            r@,
            head@ + "<p class=\"empty\">No tickets match this view.</p>"@,
        ),
{
    broadcast use crate::text::group_holds;

}

/// The board is answered with its page.
pub proof fn the_board_is_answered_with_its_page(
    page: &Page,
    query: &ListQuery,
    tickets: &Vec<Ticket>,
    states: &Vec<TicketState>,
    r: Response,
    text: String,
)
    requires
        call_ensures(response, (page, query, tickets, states), r),
        call_ensures(kanban_page, (page, query, tickets, states), text),
    ensures
        r.status == 200,
        r.content_type@ == "text/html; charset=utf-8"@,
        r.body@ == vstd::utf8::encode_utf8(text@),
        r.location is None,
{
}

/// A board is a document with the header of the board, a column for each state or that there are no
/// tickets, and the count, and nothing else.
pub proof fn the_board_is_made_of_its_parts(
    page: &Page,
    query: &ListQuery,
    tickets: &Vec<Ticket>,
    states: &Vec<TicketState>,
    r: String,
    head: String,
    title: &str,
    body: &str,
    whole: String,
) -> (columns: Seq<Seq<char>>)
    requires
        call_ensures(kanban_page, (page, query, tickets, states), r),
        call_ensures(header, (page, query, ViewMode::Kanban), head),
        call_ensures(document, (title, body), whole),
        title@ == page.repo@ + " kanban"@,
        whole@ == r@,
    ensures
        columns.len() == states@.len(),
        body@ == head@ + (if tickets@.len() == 0 {
            "<p class=\"empty\">No tickets match this view.</p>"@
        } else {
            "<div class=\"kanban\">"@ + crate::text::run_together(columns) + "</div>"@
        }) + "<p class=\"count\">"@ + crate::number::decimal(tickets@.len() as int) + " ticket"@ + (
        if tickets@.len() == 1 {
            ""@
        } else {
            "s"@
        }) + " \u{b7} read-only</p>"@,
{
    let ts = tickets@;
    let columns = Seq::new(states@.len(), |i: int| column_html(ts, states@[i]@));
    lemma_columns_run_together(ts, states@, states@.len() as int, columns);
    assert(columns.take(states@.len() as int) =~= columns);
    let inside = crate::page::header_html(*page, query@, ViewMode::Kanban) + board_html(ts, states@)
        + "<p class=\"count\">"@ + crate::number::decimal(ts.len() as int) + " ticket"@
        + crate::list::plural_text(ts.len() as int) + " \u{b7} read-only</p>"@;
    crate::html::documents_differ_in_their_bodies(title@, body@, inside);
    columns
}

} // verus!
