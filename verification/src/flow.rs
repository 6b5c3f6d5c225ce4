//! The page of a ticket's way through its states: a graph of the states, and a timeline.

use vstd::prelude::*;
use vstd::slice::*;
use vstd::string::*;
use vstd::utf8::*;

use crate::html::escape;
use crate::html::STYLE;
use crate::lifecycle::build_lifecycle;
use crate::lifecycle::HistoryEntry;
use crate::lifecycle::Lifecycle;
use crate::lifecycle::StateVisit;
use crate::moment::Duration;
use crate::moment::Timestamp;
use crate::number::count_text;
use crate::number::unsigned_text;
use crate::response::Response;
use crate::text::join;
use crate::text::out_push;
use crate::text::same;
use crate::ticket::Ticket;
use crate::ticket::TicketState;
use crate::ticket::TicketStatus;

verus! {

// -- durations --------------------------------------------------------------

/// So many nanoseconds in the largest unit that they fill: seconds, minutes, hours, days, months of
/// 30 days or years of 365 days. Less than none count as none.
pub open spec fn duration_text(nanoseconds: int) -> Seq<char> {
    let s = if nanoseconds < 0 {
        0
    } else {
        nanoseconds / 1_000_000_000
    };
    if s < 60 {
        crate::number::decimal(s) + "s"@
    } else if s < 3600 {
        crate::number::decimal(s / 60) + "m"@
    } else if s < 86400 {
        crate::number::decimal(s / 3600) + "h"@
    } else if s < 2592000 {
        crate::number::decimal(s / 86400) + "d"@
    } else if s < 31536000 {
        crate::number::decimal(s / 2592000) + "mo"@
    } else {
        crate::number::decimal(s / 31536000) + "y"@
    }
}

/// A length of time, as `3d`, `2h` or `5m`.
pub fn duration_str(duration: Duration) -> (r: String)
    ensures
        r@ == duration_text(duration.nanoseconds as int),
{
    let s: u128 = if duration.nanoseconds < 0 {
        0
    } else {
        duration.nanoseconds as u128 / 1_000_000_000
    };
    let (n, unit): (u128, &str) = if s < 60 {
        (s, "s")
    } else if s < 3600 {
        (s / 60, "m")
    } else if s < 86400 {
        (s / 3600, "h")
    } else if s < 2592000 {
        (s / 86400, "d")
    } else if s < 31536000 {
        (s / 2592000, "mo")
    } else {
        (s / 31536000, "y")
    };
    let mut out = unsigned_text(n);
    out_push(&mut out, unit);
    out
}

// -- JSON strings -----------------------------------------------------------

/// A character inside a JSON string.
pub open spec fn json_char(c: char) -> Seq<char> {
    if c == '"' {
        "\\\""@
    } else if c == '\\' {
        "\\\\"@
    } else if c == '\u{8}' {
        "\\b"@
    } else if c == '\t' {
        "\\t"@
    } else if c == '\n' {
        "\\n"@
    } else if c == '\u{c}' {
        "\\f"@
    } else if c == '\r' {
        "\\r"@
    } else if 32 > c as int {
        "\\u00"@ + seq![
            crate::number::hex_digit(c as int / 16),
            crate::number::hex_digit(c as int % 16),
        ]
    } else {
        seq![c]
    }
}

/// Characters inside a JSON string.
pub open spec fn json_chars(s: Seq<char>) -> Seq<char>
    decreases s.len(),
{
    if s.len() == 0 {
        Seq::empty()
    } else {
        json_chars(s.drop_last()) + json_char(s.last())
    }
}

/// A text as a JSON string.
pub open spec fn json_text(s: Seq<char>) -> Seq<char> {
    "\""@ + json_chars(s) + "\""@
}

/// The error of `serde_json`.
#[verifier::external_type_specification]
#[verifier::external_body]
pub struct ExJsonError(serde_json::Error);

/// `serde_json::to_string` of a text puts it in quotes, with an escape for the quote, the
/// backslash and each control character below the space, and all else as it is. It writes to
/// memory, which does not fail.
#[verifier::external_body]
fn json_string(text: &str) -> (r: Result<String, serde_json::Error>)
    ensures
        r is Ok,
        r matches Ok(s) ==> s@ == json_text(text@),
{
    serde_json::to_string(text)
}

/// A text as a JSON string.
fn json_or_empty(text: &str) -> (r: String)
    ensures
        r@ == json_text(text@),
{
    match json_string(text) {
        Ok(json) => json,
        Err(_) => "\"\"".to_owned(),
    }
}

// -- the states of a graph --------------------------------------------------

/// The states of the first `n` visits, each where it first appears.
pub open spec fn unique_states(vs: Seq<crate::lifecycle::VisitView>, n: int) -> Seq<
    (Seq<char>, TicketStatus),
>
    decreases n,
{
    if n <= 0 {
        Seq::empty()
    } else if unique_states(vs, n - 1).contains(vs[n - 1].state) {
        unique_states(vs, n - 1)
    } else {
        unique_states(vs, n - 1).push(vs[n - 1].state)
    }
}

/// The states of a graph, from left to right.
pub open spec fn node_states(vs: Seq<crate::lifecycle::VisitView>) -> Seq<
    (Seq<char>, TicketStatus),
> {
    unique_states(vs, vs.len() as int)
}

/// How many of the first `n` visits are to a state.
pub open spec fn visit_count(
    vs: Seq<crate::lifecycle::VisitView>,
    state: (Seq<char>, TicketStatus),
    n: int,
) -> int
    decreases n,
{
    if n <= 0 {
        0
    } else if vs[n - 1].state == state {
        visit_count(vs, state, n - 1) + 1
    } else {
        visit_count(vs, state, n - 1)
    }
}

/// The first visit to a state, or the number of visits where there is none.
pub open spec fn first_visit(
    vs: Seq<crate::lifecycle::VisitView>,
    state: (Seq<char>, TicketStatus),
) -> int
    decreases vs.len(),
{
    if vs.len() == 0 || vs[0].state == state {
        0
    } else {
        1 + first_visit(vs.drop_first(), state)
    }
}

proof fn lemma_first_visit(
    vs: Seq<crate::lifecycle::VisitView>,
    state: (Seq<char>, TicketStatus),
    i: int,
)
    requires
        0 <= i <= vs.len(),
        forall|j: int| 0 <= j < i ==> (#[trigger] vs[j]).state != state,
        i < vs.len() ==> vs[i].state == state,
    ensures
        first_visit(vs, state) == i,
    decreases vs.len(),
{
    if i > 0 {
        assert(vs[0].state != state);
        assert forall|j: int| 0 <= j < i - 1 implies (#[trigger] vs.drop_first()[j]).state != state by {
            assert(vs[j + 1].state != state);
        }
        lemma_first_visit(vs.drop_first(), state, i - 1);
    }
}

proof fn lemma_unique_states(vs: Seq<crate::lifecycle::VisitView>, n: int)
    requires
        0 <= n <= vs.len(),
    ensures
        forall|i: int| 0 <= i < n ==> unique_states(vs, n).contains((#[trigger] vs[i]).state),
        forall|k: int|
            0 <= k < unique_states(vs, n).len() ==> 0 <= first_visit(
                vs,
                #[trigger] unique_states(vs, n)[k],
            ) < n && vs[first_visit(vs, unique_states(vs, n)[k])].state == unique_states(vs, n)[k],
        forall|a: int, b: int|
            0 <= a < b < unique_states(vs, n).len() ==> first_visit(
                vs,
                #[trigger] unique_states(vs, n)[a],
            ) < first_visit(vs, #[trigger] unique_states(vs, n)[b]),
    decreases n,
{
    if n > 0 {
        let before = unique_states(vs, n - 1);
        let now = unique_states(vs, n);
        let state = vs[n - 1].state;
        lemma_unique_states(vs, n - 1);
        if !before.contains(state) {
            assert forall|j: int| 0 <= j < n - 1 implies (#[trigger] vs[j]).state != state by {
                assert(before.contains(vs[j].state));
            }
            lemma_first_visit(vs, state, n - 1);
            assert(now[now.len() - 1] == state);
        }
        assert forall|i: int| 0 <= i < n implies now.contains((#[trigger] vs[i]).state) by {
            if i < n - 1 {
                let k = choose|k: int| 0 <= k < before.len() && before[k] == vs[i].state;
                assert(now[k] == vs[i].state);
            }
        }
        assert forall|k: int| 0 <= k < now.len() implies 0 <= first_visit(vs, #[trigger] now[k]) < n
            && vs[first_visit(vs, now[k])].state == now[k] by {
            if k < before.len() {
                assert(now[k] == before[k]);
            }
        }
        assert forall|a: int, b: int| 0 <= a < b < now.len() implies first_visit(
            vs,
            #[trigger] now[a],
        ) < first_visit(vs, #[trigger] now[b]) by {
            assert(now[a] == before[a]);
            if b < before.len() {
                assert(now[b] == before[b]);
            }
        }
    }
}

/// Each state that a ticket was in has one node.
pub proof fn each_state_has_one_node(vs: Seq<crate::lifecycle::VisitView>, i: int)
    requires
        0 <= i < vs.len(),
    ensures
        node_states(vs).contains(vs[i].state),
        node_states(vs).no_duplicates(),
{
    lemma_unique_states(vs, vs.len() as int);
    let states = node_states(vs);
    assert forall|a: int, b: int| 0 <= a < states.len() && 0 <= b < states.len() && a != b implies states[a]
        != states[b] by {
        if a < b {
            assert(first_visit(vs, states[a]) < first_visit(vs, states[b]));
        } else {
            assert(first_visit(vs, states[b]) < first_visit(vs, states[a]));
        }
    }
}

/// Whether the `i`-th change leads back: to a state that was visited no later than the one it leaves.
pub open spec fn is_back_edge(vs: Seq<crate::lifecycle::VisitView>, i: int) -> bool {
    &&& first_visit(vs, vs[i + 1].state) <= first_visit(vs, vs[i].state)
    &&& vs[i].state != vs[i + 1].state
}

/// A change that leads back goes to a node left of the one that it leaves, and no other does.
pub proof fn back_edges_lead_left(vs: Seq<crate::lifecycle::VisitView>, i: int, from: int, to: int)
    requires
        0 <= i < vs.len() - 1,
        0 <= from < node_states(vs).len(),
        0 <= to < node_states(vs).len(),
        node_states(vs)[from] == vs[i].state,
        node_states(vs)[to] == vs[i + 1].state,
    ensures
        is_back_edge(vs, i) <==> to < from,
{
    lemma_unique_states(vs, vs.len() as int);
    let states = node_states(vs);
    if to < from {
        assert(first_visit(vs, states[to]) < first_visit(vs, states[from]));
    } else if from < to {
        assert(first_visit(vs, states[from]) < first_visit(vs, states[to]));
    }
}

/// States, as mathematical values.
pub open spec fn states_of(states: Seq<TicketState>) -> Seq<(Seq<char>, TicketStatus)> {
    Seq::new(states.len(), |k: int| states[k]@)
}

/// Whether `states` holds `state`.
fn holds_state(states: &Vec<TicketState>, state: &TicketState) -> (r: bool)
    ensures
        r == states_of(states@).contains(state@),
{
    let mut i: usize = 0;
    while i < states.len()
        invariant
            i <= states@.len(),
            forall|k: int| 0 <= k < i ==> #[trigger] states_of(states@)[k] != state@,
        decreases states@.len() - i,
    {
        assert(states_of(states@)[i as int] == states@[i as int]@);
        if states[i].same_as(state) {
            return true;
        }
        i = i + 1;
    }
    false
}

/// The states of a graph, from left to right.
fn unique_states_in(lifecycle: &Lifecycle) -> (r: Vec<TicketState>)
    ensures
        states_of(r@) == node_states(lifecycle@),
{
    let ghost vs = lifecycle@;
    let mut out: Vec<TicketState> = Vec::new();
    let mut i: usize = 0;
    assert(states_of(out@) =~= unique_states(vs, 0));
    while i < lifecycle.visits.len()
        invariant
            i <= lifecycle.visits@.len(),
            vs == lifecycle@,
            states_of(out@) == unique_states(vs, i as int),
        decreases lifecycle.visits@.len() - i,
    {
        let state = &lifecycle.visits[i].state;
        let ghost before = states_of(out@);
        assert(vs[i as int].state == state@);
        if !holds_state(&out, state) {
            out.push(state.copy());
            assert(states_of(out@) =~= before.push(state@));
        }
        i = i + 1;
    }
    out
}

/// How many visits are to a state.
fn count_visits(lifecycle: &Lifecycle, state: &TicketState) -> (r: usize)
    ensures
        r == visit_count(lifecycle@, state@, lifecycle@.len() as int),
{
    let ghost vs = lifecycle@;
    let mut count: usize = 0;
    let mut i: usize = 0;
    while i < lifecycle.visits.len()
        invariant
            i <= lifecycle.visits@.len(),
            vs == lifecycle@,
            count <= i,
            count == visit_count(vs, state@, i as int),
        decreases lifecycle.visits@.len() - i,
    {
        assert(vs[i as int].state == lifecycle.visits@[i as int].state@);
        if lifecycle.visits[i].state.same_as(state) {
            count = count + 1;
        }
        i = i + 1;
    }
    count
}

/// The first visit to a state, or the number of visits where there is none.
fn position(lifecycle: &Lifecycle, state: &TicketState) -> (r: usize)
    ensures
        r == first_visit(lifecycle@, state@),
        r <= lifecycle.visits@.len(),
{
    let ghost vs = lifecycle@;
    let mut i: usize = 0;
    while i < lifecycle.visits.len()
        invariant
            i <= lifecycle.visits@.len(),
            vs == lifecycle@,
            forall|j: int| 0 <= j < i ==> (#[trigger] vs[j]).state != state@,
        decreases lifecycle.visits@.len() - i,
    {
        assert(vs[i as int].state == lifecycle.visits@[i as int].state@);
        if lifecycle.visits[i].state.same_as(state) {
            proof {
                lemma_first_visit(vs, state@, i as int);
            }
            return i;
        }
        i = i + 1;
    }
    proof {
        lemma_first_visit(vs, state@, i as int);
    }
    i
}

// -- nodes ------------------------------------------------------------------

/// The mark of a closed state.
pub open spec fn icon_text(state: (Seq<char>, TicketStatus)) -> Seq<char> {
    if state.1 == TicketStatus::Closed {
        if state.0 == "resolved"@ {
            " \u{2713}"@
        } else {
            " \u{2717}"@
        }
    } else {
        ""@
    }
}

/// How often a state was visited, where it was more than once.
pub open spec fn count_badge_html(count: int) -> Seq<char> {
    if count > 1 {
        "<span class=\"lnode-count\">\u{d7}"@ + crate::number::decimal(count) + "</span>"@
    } else {
        Seq::empty()
    }
}

/// Whether a state is the one that the ticket is in.
pub open spec fn is_current(
    vs: Seq<crate::lifecycle::VisitView>,
    state: (Seq<char>, TicketStatus),
) -> bool {
    vs.len() > 0 && vs.last().state == state
}

/// How long the first visit to a state took.
pub open spec fn node_meta_html(
    vs: Seq<crate::lifecycle::VisitView>,
    state: (Seq<char>, TicketStatus),
) -> Seq<char> {
    let i = first_visit(vs, state);
    if i < vs.len() {
        (if is_current(vs, state) {
            "<div class=\"lnode-meta\">current \u{b7} "@
        } else {
            "<div class=\"lnode-meta\">"@
        }) + crate::html::escaped(duration_text(vs[i].duration)) + "</div>"@
    } else {
        Seq::empty()
    }
}

/// What a node shows.
pub open spec fn node_label_html(
    vs: Seq<crate::lifecycle::VisitView>,
    state: (Seq<char>, TicketStatus),
) -> Seq<char> {
    "<div class=\"lnode"@ + (if is_current(vs, state) {
        " current"@
    } else {
        ""@
    }) + "\"><span class=\"lnode-state state-"@ + crate::html::escaped(state.0) + "\">"@
        + crate::html::escaped(state.0) + icon_text(state) + "</span>"@ + count_badge_html(
        visit_count(vs, state, vs.len() as int),
    ) + node_meta_html(vs, state) + "</div>"@
}

/// The node of a state in column `col`.
pub open spec fn node_json(
    vs: Seq<crate::lifecycle::VisitView>,
    state: (Seq<char>, TicketStatus),
    col: int,
) -> Seq<char> {
    "{\"id\":\""@ + crate::html::escaped(state.0) + "\",\"data\":{\"label\":"@ + json_text(
        node_label_html(vs, state),
    ) + "},\"position\":{\"x\":"@ + crate::number::decimal(40 + 220 * col)
        + ",\"y\":40},\"type\":\"default\",\"draggable\":false}"@
}

/// A node for each state, from left to right.
pub open spec fn nodes_json(vs: Seq<crate::lifecycle::VisitView>) -> Seq<char> {
    crate::text::joined(
        Seq::new(node_states(vs).len(), |k: int| node_json(vs, node_states(vs)[k], k)),
        ","@,
    )
}

/// How often a state was visited, where it was more than once.
fn count_badge(count: usize) -> (r: String)
    ensures
        r@ == count_badge_html(count as int),
{
    if count > 1 {
        let mut out = "<span class=\"lnode-count\">\u{d7}".to_owned();
        out_push(&mut out, count_text(count).as_str());
        out_push(&mut out, "</span>");
        out
    } else {
        String::new()
    }
}

/// Whether a state is the one that the ticket is in.
fn is_current_state(lifecycle: &Lifecycle, state: &TicketState) -> (r: bool)
    ensures
        r == is_current(lifecycle@, state@),
{
    let n: usize = lifecycle.visits.len();
    if n == 0 {
        return false;
    }
    assert(lifecycle@.last() == lifecycle.visits@[n - 1]@);
    lifecycle.visits[n - 1].state.same_as(state)
}

/// How long the first visit to a state took.
fn node_meta(lifecycle: &Lifecycle, state: &TicketState) -> (r: String)
    ensures
        r@ == node_meta_html(lifecycle@, state@),
{
    let i: usize = position(lifecycle, state);
    if i < lifecycle.visits.len() {
        assert(lifecycle@[i as int] == lifecycle.visits@[i as int]@);
        let mut out = if is_current_state(lifecycle, state) {
            "<div class=\"lnode-meta\">current \u{b7} ".to_owned()
        } else {
            "<div class=\"lnode-meta\">".to_owned()
        };
        out_push(
            &mut out,
            escape(duration_str(lifecycle.visits[i].duration).as_str()).as_str(),
        );
        out_push(&mut out, "</div>");
        out
    } else {
        String::new()
    }
}

/// What a node shows.
fn node_label(lifecycle: &Lifecycle, state: &TicketState) -> (r: String)
    ensures
        r@ == node_label_html(lifecycle@, state@),
{
    let icon = if state.status() == TicketStatus::Closed {
        if same(state.as_str(), "resolved") {
            " \u{2713}"
        } else {
            " \u{2717}"
        }
    } else {
        ""
    };
    let name = escape(state.as_str());
    let mut out = "<div class=\"lnode".to_owned();
    if is_current_state(lifecycle, state) {
        out_push(&mut out, " current");
    } else {
        out_push(&mut out, "");
    }
    out_push(&mut out, "\"><span class=\"lnode-state state-");
    out_push(&mut out, name.as_str());
    out_push(&mut out, "\">");
    out_push(&mut out, name.as_str());
    out_push(&mut out, icon);
    out_push(&mut out, "</span>");
    out_push(&mut out, count_badge(count_visits(lifecycle, state)).as_str());
    out_push(&mut out, node_meta(lifecycle, state).as_str());
    out_push(&mut out, "</div>");
    out
}

/// The node of a state in column `col`.
fn node(lifecycle: &Lifecycle, state: &TicketState, col: usize) -> (r: String)
    ensures
        r@ == node_json(lifecycle@, state@, col as int),
{
    let x: u128 = 40 + 220 * (col as u128);
    let mut out = "{\"id\":\"".to_owned();
    out_push(&mut out, escape(state.as_str()).as_str());
    out_push(&mut out, "\",\"data\":{\"label\":");
    out_push(&mut out, json_or_empty(node_label(lifecycle, state).as_str()).as_str());
    out_push(&mut out, "},\"position\":{\"x\":");
    out_push(&mut out, unsigned_text(x).as_str());
    out_push(&mut out, ",\"y\":40},\"type\":\"default\",\"draggable\":false}");
    out
}

/// A node for each state, from left to right in the order of the first visits.
pub fn build_nodes_json(lifecycle: &Lifecycle) -> (r: String)
    ensures
        r@ == nodes_json(lifecycle@),
{
    let ghost vs = lifecycle@;
    let states = unique_states_in(lifecycle);
    let ghost all = Seq::new(node_states(vs).len(), |k: int| node_json(vs, node_states(vs)[k], k));
    let mut nodes: Vec<String> = Vec::new();
    let mut i: usize = 0;
    while i < states.len()
        invariant
            i <= states@.len(),
            vs == lifecycle@,
            states_of(states@) == node_states(vs),
            all == Seq::new(
                node_states(vs).len(),
                |k: int| node_json(vs, node_states(vs)[k], k),
            ),
            nodes.deep_view() == all.take(i as int),
        decreases states@.len() - i,
    {
        let ghost before = nodes.deep_view();
        assert(states_of(states@)[i as int] == states@[i as int]@);
        nodes.push(node(lifecycle, &states[i], i));
        assert(nodes.deep_view() =~= before.push(all[i as int]));
        assert(nodes.deep_view() =~= all.take(i + 1));
        i = i + 1;
    }
    assert(states_of(states@).len() == states@.len());
    assert(all.take(i as int) =~= all);
    join(&nodes, ",")
}

// -- edges ------------------------------------------------------------------

/// The style of an edge that leads back.
pub open spec fn edge_style_json(vs: Seq<crate::lifecycle::VisitView>, i: int) -> Seq<char> {
    if is_back_edge(vs, i) {
        ",\"style\":{\"strokeDasharray\":\"6 4\",\"stroke\":\"#dc2626\"}"@
    } else {
        ""@
    }
}

/// The edge for the change between the `i`-th visit and the next.
pub open spec fn edge_json(vs: Seq<crate::lifecycle::VisitView>, i: int) -> Seq<char> {
    "{\"id\":\"e-"@ + crate::number::decimal(i + 1) + "\",\"source\":\""@ + crate::html::escaped(
        vs[i].state.0,
    ) + "\",\"target\":\""@ + crate::html::escaped(vs[i + 1].state.0)
        + "\",\"type\":\"smoothstep\",\"animated\":false,\"label\":"@ + json_text(
        "#"@ + crate::number::decimal(i + 1) + " \u{b7} "@ + duration_text(vs[i].duration),
    ) + edge_style_json(vs, i) + "}"@
}

/// How many changes there are between visits.
pub open spec fn edge_count(vs: Seq<crate::lifecycle::VisitView>) -> nat {
    if vs.len() == 0 {
        0
    } else {
        (vs.len() - 1) as nat
    }
}

/// An edge for each change, in order.
pub open spec fn edges_json(vs: Seq<crate::lifecycle::VisitView>) -> Seq<char> {
    crate::text::joined(Seq::new(edge_count(vs), |i: int| edge_json(vs, i)), ","@)
}

/// The edge for the change between the `i`-th visit and the next.
fn edge(lifecycle: &Lifecycle, i: usize) -> (r: String)
    requires
        i + 1 < lifecycle.visits@.len(),
    ensures
        r@ == edge_json(lifecycle@, i as int),
{
    let ghost vs = lifecycle@;
    let total: usize = lifecycle.visits.len();
    assert(i + 1 < total);
    let from = &lifecycle.visits[i];
    let to = &lifecycle.visits[i + 1];
    assert(vs[i as int] == from@ && vs[i + 1] == to@);
    let number = count_text(i + 1);
    let from_first: usize = position(lifecycle, &from.state);
    let to_first: usize = position(lifecycle, &to.state);
    let is_back = to_first <= from_first && !from.state.same_as(&to.state);
    let mut label = "#".to_owned();
    out_push(&mut label, number.as_str());
    out_push(&mut label, " \u{b7} ");
    out_push(&mut label, duration_str(from.duration).as_str());
    let mut out = "{\"id\":\"e-".to_owned();
    out_push(&mut out, number.as_str());
    out_push(&mut out, "\",\"source\":\"");
    out_push(&mut out, escape(from.state.as_str()).as_str());
    out_push(&mut out, "\",\"target\":\"");
    out_push(&mut out, escape(to.state.as_str()).as_str());
    out_push(&mut out, "\",\"type\":\"smoothstep\",\"animated\":false,\"label\":");
    out_push(&mut out, json_or_empty(label.as_str()).as_str());
    if is_back {
        out_push(&mut out, ",\"style\":{\"strokeDasharray\":\"6 4\",\"stroke\":\"#dc2626\"}");
    } else {
        out_push(&mut out, "");
    }
    out_push(&mut out, "}");
    out
}

/// An edge for each change, in order, dashed where it leads back.
pub fn build_edges_json(lifecycle: &Lifecycle) -> (r: String)
    ensures
        r@ == edges_json(lifecycle@),
{
    let ghost vs = lifecycle@;
    let count: usize = if lifecycle.visits.len() == 0 {
        0
    } else {
        lifecycle.visits.len() - 1
    };
    let ghost all = Seq::new(edge_count(vs), |i: int| edge_json(vs, i));
    let mut edges: Vec<String> = Vec::new();
    let mut i: usize = 0;
    while i < count
        invariant
            i <= count,
            vs == lifecycle@,
            count == edge_count(vs),
            all == Seq::new(edge_count(vs), |i: int| edge_json(vs, i)),
            edges.deep_view() == all.take(i as int),
        decreases count - i,
    {
        let ghost before = edges.deep_view();
        edges.push(edge(lifecycle, i));
        assert(edges.deep_view() =~= before.push(all[i as int]));
        assert(edges.deep_view() =~= all.take(i + 1));
        i = i + 1;
    }
    assert(all.take(i as int) =~= all);
    join(&edges, ",")
}

// -- the timeline -----------------------------------------------------------

/// The words for an operation.
pub open spec fn operation_text(operation: Seq<char>) -> Seq<char> {
    if operation == "set"@ {
        "set"@
    } else if operation == "remove"@ || operation == "set_remove"@ || operation == "set_rm"@ {
        "removed"@
    } else if operation == "set_add"@ || operation == "push"@ {
        "added"@
    } else {
        operation
    }
}

/// Whether a value can be shown: where it is longer than 60 bytes, its first 57 must be whole
/// characters.
pub open spec fn is_showable(value: Seq<char>) -> bool {
    encode_utf8(value).len() > 60 ==> valid_utf8(encode_utf8(value).take(57))
}

/// A value as the timeline shows it: as it is, or where it is longer than 60 bytes its first 57 and
/// an ellipsis.
pub open spec fn short_value(value: Seq<char>) -> Seq<char> {
    if encode_utf8(value).len() > 60 {
        decode_utf8(encode_utf8(value).take(57)) + "..."@
    } else {
        value
    }
}

/// A step of the timeline.
pub open spec fn step_html(e: crate::lifecycle::EntryView) -> Seq<char> {
    let date = crate::html::escaped(crate::moment::local_date_text(e.at));
    let time = crate::html::escaped(crate::moment::local_clock_text(e.at));
    "<li class=\"lstep\"><time datetime=\""@ + date + " "@ + time + "\">"@ + date + " "@ + time
        + "</time> <span class=\"lstep-op\">"@ + crate::html::escaped(operation_text(e.operation))
        + "</span> <code>"@ + crate::html::escaped(e.field)
        + "</code> <span class=\"lstep-val\">"@ + crate::html::escaped(short_value(e.value))
        + "</span> <span class=\"lstep-who\">\u{b7} "@ + crate::html::escaped(e.name)
        + "</span></li>"@
}

/// The first `n` steps.
pub open spec fn step_list_html(steps: Seq<crate::lifecycle::EntryView>, n: int) -> Seq<char>
    decreases n,
{
    if n <= 0 {
        Seq::empty()
    } else {
        step_list_html(steps, n - 1) + step_html(steps[n - 1])
    }
}

/// The steps of a visit, or that there are none.
pub open spec fn steps_html(steps: Seq<crate::lifecycle::EntryView>) -> Seq<char> {
    if steps.len() == 0 {
        "<div class=\"lsteps-empty\">No changes during this state.</div>"@
    } else {
        "<ul class=\"lsteps\">"@ + step_list_html(steps, steps.len() as int) + "</ul>"@
    }
}

/// A visit on the timeline.
pub open spec fn visit_html(v: crate::lifecycle::VisitView) -> Seq<char> {
    "<div class=\"lvisit\"><div class=\"lvisit-header\"><span class=\"lseq\">#"@
        + crate::number::decimal(v.seq) + "</span><span class=\"badge state-"@
        + crate::html::escaped(v.state.0) + "\">"@ + crate::html::escaped(v.state.0)
        + "</span><span class=\"ldur\">"@ + crate::html::escaped(duration_text(v.duration))
        + "</span><span class=\"lwhen\">"@ + crate::html::escaped(v.entered_age)
        + " ago</span><span class=\"lwho\">\u{b7} "@ + crate::html::escaped(v.entered_name)
        + "</span></div>"@ + steps_html(v.steps) + "</div>"@
}

/// The first `n` visits on the timeline.
pub open spec fn visits_html(vs: Seq<crate::lifecycle::VisitView>, n: int) -> Seq<char>
    decreases n,
{
    if n <= 0 {
        Seq::empty()
    } else {
        visits_html(vs, n - 1) + visit_html(vs[n - 1])
    }
}

/// Whether the value of each step can be shown.
pub open spec fn steps_are_showable(steps: Seq<crate::lifecycle::EntryView>) -> bool {
    forall|i: int| 0 <= i < steps.len() ==> is_showable((#[trigger] steps[i]).value)
}

/// Whether the value of each step of each visit can be shown.
pub open spec fn visits_are_showable(vs: Seq<crate::lifecycle::VisitView>) -> bool {
    forall|i: int| 0 <= i < vs.len() ==> steps_are_showable((#[trigger] vs[i]).steps)
}

/// The first `n` bytes.
fn first_bytes(bytes: &[u8], n: usize) -> (r: Vec<u8>)
    requires
        n <= bytes@.len(),
    ensures
        r@ == bytes@.take(n as int),
{
    let mut out: Vec<u8> = Vec::new();
    let mut i: usize = 0;
    while i < n
        invariant
            i <= n <= bytes@.len(),
            out@ == bytes@.take(i as int),
        decreases n - i,
    {
        out.push(bytes[i]);
        assert(out@ =~= bytes@.take(i + 1));
        i = i + 1;
    }
    out
}

/// Whether a value can be shown.
pub fn value_is_showable(value: &str) -> (r: bool)
    ensures
        r == is_showable(value@),
{
    let bytes = value.as_bytes();
    if bytes.len() > 60 {
        let prefix = first_bytes(bytes, 57);
        core::str::from_utf8(prefix.as_slice()).is_ok()
    } else {
        true
    }
}

/// Whether the value of each step of each visit can be shown.
pub fn lifecycle_is_showable(lifecycle: &Lifecycle) -> (r: bool)
    ensures
        r == visits_are_showable(lifecycle@),
{
    let ghost vs = lifecycle@;
    let mut i: usize = 0;
    while i < lifecycle.visits.len()
        invariant
            i <= lifecycle.visits@.len(),
            vs == lifecycle@,
            forall|k: int| 0 <= k < i ==> steps_are_showable((#[trigger] vs[k]).steps),
        decreases lifecycle.visits@.len() - i,
    {
        let steps = &lifecycle.visits[i].steps;
        let ghost es = vs[i as int].steps;
        assert(es == crate::lifecycle::entries_of(steps@));
        let mut j: usize = 0;
        while j < steps.len()
            invariant
                j <= steps@.len(),
                i < vs.len(),
                vs == lifecycle@,
                es == vs[i as int].steps,
                es == crate::lifecycle::entries_of(steps@),
                forall|k: int| 0 <= k < j ==> is_showable((#[trigger] es[k]).value),
            decreases steps@.len() - j,
        {
            assert(es[j as int].value == steps@[j as int].value@);
            if !value_is_showable(steps[j].value.as_str()) {
                assert(!steps_are_showable(vs[i as int].steps));
                return false;
            }
            j = j + 1;
        }
        i = i + 1;
    }
    true
}

/// The words for an operation.
fn operation_words(operation: &str) -> (r: &str)
    ensures
        r@ == operation_text(operation@),
{
    if same(operation, "set") {
        "set"
    } else if same(operation, "remove") || same(operation, "set_remove") || same(
        operation,
        "set_rm",
    ) {
        "removed"
    } else if same(operation, "set_add") || same(operation, "push") {
        "added"
    } else {
        operation
    }
}

/// A value as the timeline shows it.
fn shortened(value: &str) -> (r: String)
    requires
        is_showable(value@),
    ensures
        r@ == short_value(value@),
{
    let bytes = value.as_bytes();
    if bytes.len() > 60 {
        let prefix = first_bytes(bytes, 57);
        let mut out = match core::str::from_utf8(prefix.as_slice()) {
            Ok(start) => start.to_owned(),
            Err(_) => String::new(),
        };
        out_push(&mut out, "...");
        out
    } else {
        value.to_owned()
    }
}

/// A step of the timeline.
pub fn render_step(entry: &HistoryEntry) -> (r: String)
    requires
        is_showable(entry@.value),
    ensures
        r@ == step_html(entry@),
{
    let date = escape(entry.at.time.date_text().as_str());
    let time = escape(entry.at.time.clock_text().as_str());
    let mut out = "<li class=\"lstep\"><time datetime=\"".to_owned();
    out_push(&mut out, date.as_str());
    out_push(&mut out, " ");
    out_push(&mut out, time.as_str());
    out_push(&mut out, "\">");
    out_push(&mut out, date.as_str());
    out_push(&mut out, " ");
    out_push(&mut out, time.as_str());
    out_push(&mut out, "</time> <span class=\"lstep-op\">");
    out_push(&mut out, escape(operation_words(entry.operation.as_str())).as_str());
    out_push(&mut out, "</span> <code>");
    out_push(&mut out, escape(entry.field.as_str()).as_str());
    out_push(&mut out, "</code> <span class=\"lstep-val\">");
    out_push(&mut out, escape(shortened(entry.value.as_str()).as_str()).as_str());
    out_push(&mut out, "</span> <span class=\"lstep-who\">\u{b7} ");
    out_push(&mut out, escape(entry.author.name.as_str()).as_str());
    out_push(&mut out, "</span></li>");
    out
}

/// The steps of a visit, or that there are none.
fn render_steps(steps: &Vec<HistoryEntry>) -> (r: String)
    requires
        steps_are_showable(crate::lifecycle::entries_of(steps@)),
    ensures
        r@ == steps_html(crate::lifecycle::entries_of(steps@)),
{
    let ghost es = crate::lifecycle::entries_of(steps@);
    if steps.len() == 0 {
        return "<div class=\"lsteps-empty\">No changes during this state.</div>".to_owned();
    }
    let mut list = String::new();
    let mut i: usize = 0;
    while i < steps.len()
        invariant
            i <= steps@.len(),
            es == crate::lifecycle::entries_of(steps@),
            steps_are_showable(es),
            list@ == step_list_html(es, i as int),
        decreases steps@.len() - i,
    {
        assert(es[i as int] == steps@[i as int]@);
        out_push(&mut list, render_step(&steps[i]).as_str());
        i = i + 1;
    }
    let mut out = "<ul class=\"lsteps\">".to_owned();
    out_push(&mut out, list.as_str());
    out_push(&mut out, "</ul>");
    out
}

/// A visit on the timeline.
pub fn render_visit(visit: &StateVisit) -> (r: String)
    requires
        steps_are_showable(visit@.steps),
    ensures
        r@ == visit_html(visit@),
{
    let mut out =
        "<div class=\"lvisit\"><div class=\"lvisit-header\"><span class=\"lseq\">#".to_owned();
    out_push(&mut out, count_text(visit.seq).as_str());
    out_push(&mut out, "</span><span class=\"badge state-");
    out_push(&mut out, escape(visit.state.as_str()).as_str());
    out_push(&mut out, "\">");
    out_push(&mut out, escape(visit.state.as_str()).as_str());
    out_push(&mut out, "</span><span class=\"ldur\">");
    out_push(&mut out, escape(duration_str(visit.duration).as_str()).as_str());
    out_push(&mut out, "</span><span class=\"lwhen\">");
    out_push(&mut out, escape(visit.entered_at.age.as_str()).as_str());
    out_push(&mut out, " ago</span><span class=\"lwho\">\u{b7} ");
    out_push(&mut out, escape(visit.entered_by.name.as_str()).as_str());
    out_push(&mut out, "</span></div>");
    out_push(&mut out, render_steps(&visit.steps).as_str());
    out_push(&mut out, "</div>");
    out
}

// -- the page ---------------------------------------------------------------

/// The head of the page.
pub open spec fn flow_header_html(ticket: Ticket) -> Seq<char> {
    let id = crate::html::escaped(crate::ticket::short_text(ticket.id));
    let state = crate::html::escaped(ticket.state@.0);
    "<header class=\"detail\"><a class=\"back\" href=\"/\">\u{2190} all tickets</a><h1>"@
        + crate::html::escaped(ticket.title@)
        + "</h1><p class=\"subtitle\"><span class=\"badge state-"@ + state + "\">"@ + state
        + "</span> <code>"@ + id + "</code> \u{b7} opened "@ + crate::html::escaped(
        ticket.created_at.age@,
    ) + " ago by "@ + crate::html::escaped(ticket.created_by.name@)
        + "</p><nav class=\"detail-nav\"><a href=\"/t/"@ + id + "\">Ticket</a><a href=\"/t/"@ + id
        + "/flow\" class=\"active\">Lifecycle</a></nav></header>"@
}

/// The script that draws the graph.
pub open spec fn script_text(nodes: Seq<char>, edges: Seq<char>) -> Seq<char> {
    SCRIPT_HEAD@ + nodes + SCRIPT_MIDDLE@ + edges + SCRIPT_TAIL@
}

/// A document that loads what the graph needs and draws it.
pub open spec fn flow_document_html(
    title: Seq<char>,
    body: Seq<char>,
    nodes: Seq<char>,
    edges: Seq<char>,
) -> Seq<char> {
    "<!doctype html>\n<html lang=\"en\"><head><meta charset=\"utf-8\">\
     <meta name=\"viewport\" content=\"width=device-width,initial-scale=1\"><title>"@
        + crate::html::escaped(title) + "</title><style>"@ + STYLE@ + LIFECYCLE_STYLE@
        + "</style><link rel=\"stylesheet\" href=\"/assets/xyflow.css\"></head><body><main>"@ + body
        + "</main>\
     <script src=\"/assets/react.min.js\"></script>\
     <script src=\"/assets/react-dom.min.js\"></script>\
     <script src=\"/assets/jsx-runtime-shim.js\"></script>\
     <script src=\"/assets/xyflow.min.js\"></script><script>"@ + script_text(nodes, edges)
        + "</script></body></html>\n"@
}

/// The body of the page.
pub open spec fn flow_body_html(ticket: Ticket, vs: Seq<crate::lifecycle::VisitView>) -> Seq<char> {
    flow_header_html(ticket) + "<div class=\"flow-wrap\" id=\"flow\"></div>\
     <section class=\"lifecycle-timeline\"><h2>Timeline</h2>"@ + visits_html(vs, vs.len() as int)
        + "</section>"@
}

/// The page of a ticket's way through its states.
pub open spec fn flow_html(ticket: Ticket, vs: Seq<crate::lifecycle::VisitView>) -> Seq<char> {
    flow_document_html(
        crate::ticket::short_text(ticket.id) + " \u{b7} lifecycle"@,
        flow_body_html(ticket, vs),
        nodes_json(vs),
        edges_json(vs),
    )
}

/// The head of the page.
fn flow_header(ticket: &Ticket) -> (r: String)
    ensures
        r@ == flow_header_html(*ticket),
{
    let id = escape(ticket.short_id().as_str());
    let state = escape(ticket.state.as_str());
    let mut out =
        "<header class=\"detail\"><a class=\"back\" href=\"/\">\u{2190} all tickets</a><h1>".to_owned();
    out_push(&mut out, escape(ticket.title.as_str()).as_str());
    out_push(&mut out, "</h1><p class=\"subtitle\"><span class=\"badge state-");
    out_push(&mut out, state.as_str());
    out_push(&mut out, "\">");
    out_push(&mut out, state.as_str());
    out_push(&mut out, "</span> <code>");
    out_push(&mut out, id.as_str());
    out_push(&mut out, "</code> \u{b7} opened ");
    out_push(&mut out, escape(ticket.created_at.age.as_str()).as_str());
    out_push(&mut out, " ago by ");
    out_push(&mut out, escape(ticket.created_by.name.as_str()).as_str());
    out_push(&mut out, "</p><nav class=\"detail-nav\"><a href=\"/t/");
    out_push(&mut out, id.as_str());
    out_push(&mut out, "\">Ticket</a><a href=\"/t/");
    out_push(&mut out, id.as_str());
    out_push(&mut out, "/flow\" class=\"active\">Lifecycle</a></nav></header>");
    out
}

/// The script that draws the graph.
pub fn bootstrap_script(nodes: &str, edges: &str) -> (r: String)
    ensures
        r@ == script_text(nodes@, edges@),
{
    let mut out = SCRIPT_HEAD.to_owned();
    out_push(&mut out, nodes);
    out_push(&mut out, SCRIPT_MIDDLE);
    out_push(&mut out, edges);
    out_push(&mut out, SCRIPT_TAIL);
    out
}

/// A document that loads what the graph needs and draws it.
pub fn flow_document(title: &str, body: &str, nodes: &str, edges: &str) -> (r: String)
    ensures
        r@ == flow_document_html(title@, body@, nodes@, edges@),
{
    let mut out =
        "<!doctype html>\n<html lang=\"en\"><head><meta charset=\"utf-8\">\
     <meta name=\"viewport\" content=\"width=device-width,initial-scale=1\"><title>".to_owned();
    out_push(&mut out, escape(title).as_str());
    out_push(&mut out, "</title><style>");
    out_push(&mut out, STYLE);
    out_push(&mut out, LIFECYCLE_STYLE);
    out_push(
        &mut out,
        "</style><link rel=\"stylesheet\" href=\"/assets/xyflow.css\"></head><body><main>",
    );
    out_push(&mut out, body);
    out_push(
        &mut out,
        "</main>\
     <script src=\"/assets/react.min.js\"></script>\
     <script src=\"/assets/react-dom.min.js\"></script>\
     <script src=\"/assets/jsx-runtime-shim.js\"></script>\
     <script src=\"/assets/xyflow.min.js\"></script><script>",
    );
    out_push(&mut out, bootstrap_script(nodes, edges).as_str());
    out_push(&mut out, "</script></body></html>\n");
    out
}

/// The visits on the timeline.
fn timeline(lifecycle: &Lifecycle) -> (r: String)
    requires
        visits_are_showable(lifecycle@),
    ensures
        r@ == visits_html(lifecycle@, lifecycle@.len() as int),
{
    let ghost vs = lifecycle@;
    let mut out = String::new();
    let mut i: usize = 0;
    while i < lifecycle.visits.len()
        invariant
            i <= lifecycle.visits@.len(),
            vs == lifecycle@,
            visits_are_showable(vs),
            out@ == visits_html(vs, i as int),
        decreases lifecycle.visits@.len() - i,
    {
        assert(vs[i as int] == lifecycle.visits@[i as int]@);
        out_push(&mut out, render_visit(&lifecycle.visits[i]).as_str());
        i = i + 1;
    }
    out
}

/// The body of the page.
fn flow_body(ticket: &Ticket, lifecycle: &Lifecycle) -> (r: String)
    requires
        visits_are_showable(lifecycle@),
    ensures
        r@ == flow_body_html(*ticket, lifecycle@),
{
    let mut body = flow_header(ticket);
    out_push(
        &mut body,
        "<div class=\"flow-wrap\" id=\"flow\"></div>\
     <section class=\"lifecycle-timeline\"><h2>Timeline</h2>",
    );
    out_push(&mut body, timeline(lifecycle).as_str());
    out_push(&mut body, "</section>");
    body
}

/// The page of a ticket's way through its states.
pub fn flow_page(ticket: &Ticket, lifecycle: &Lifecycle) -> (r: String)
    requires
        visits_are_showable(lifecycle@),
    ensures
        r@ == flow_html(*ticket, lifecycle@),
{
    let mut title = ticket.short_id();
    out_push(&mut title, " \u{b7} lifecycle");
    let body = flow_body(ticket, lifecycle);
    let nodes = build_nodes_json(lifecycle);
    let edges = build_edges_json(lifecycle);
    flow_document(title.as_str(), body.as_str(), nodes.as_str(), edges.as_str())
}

// -- the response -----------------------------------------------------------

/// Whether all that the page shows of a history can be shown.
pub open spec fn history_is_showable(
    found: Result<Ticket, String>,
    history: Seq<HistoryEntry>,
    now: Timestamp,
) -> bool {
    found matches Ok(ticket) ==> visits_are_showable(
        crate::lifecycle::visits_of(ticket, crate::lifecycle::entries_of(history), now),
    )
}

/// Whether all that the page shows of a history can be shown.
pub fn is_history_showable(
    found: &Result<Ticket, String>,
    history: &Vec<HistoryEntry>,
    now: Timestamp,
) -> (r: bool)
    ensures
        r == history_is_showable(*found, history@, now),
{
    match found {
        Ok(ticket) => lifecycle_is_showable(&build_lifecycle(ticket, history, now)),
        Err(_) => true,
    }
}

/// The answer to a request for a ticket's way through its states: its page, or 404 where the store
/// knows no such ticket.
pub fn response(
    found: &Result<Ticket, String>,
    history: &Vec<HistoryEntry>,
    now: Timestamp,
) -> (r: Response)
    requires
        history_is_showable(*found, history@, now),
    ensures
        r@ == (match found {
            Ok(ticket) => crate::response::html_response(
                200,
                flow_html(
                    *ticket,
                    crate::lifecycle::visits_of(
                        *ticket,
                        crate::lifecycle::entries_of(history@),
                        now,
                    ),
                ),
            ),
            Err(message) => crate::response::error_response(
                404,
                "404 - no such ticket"@,
                message@,
            ),
        }),
{
    match found {
        Ok(ticket) => {
            let lifecycle = build_lifecycle(ticket, history, now);
            Response::html(200, flow_page(ticket, &lifecycle))
        },
        Err(message) => Response::error(404, "404 - no such ticket", message.as_str()),
    }
}

// -- laws -------------------------------------------------------------------

/// A length of time is told in whole units, rounded down, and in the largest unit that it fills:
/// seconds below a minute, minutes below an hour, hours below a day, days below 30, months of 30 days
/// below 365 days, and years of 365 days. One below zero is told as none.
pub proof fn durations_are_told_in_whole_units(duration: Duration, r: String) -> (told: (
    int,
    int,
    Seq<char>,
))
    requires
        call_ensures(duration_str, (duration,), r),
    ensures
        ({
            let (n, unit, name) = told;
            let time: int = if duration.nanoseconds < 0 {
                0
            } else {
                duration.nanoseconds as int
            };
            let second: int = 1_000_000_000;
            &&& r@ == crate::number::decimal(n) + name
            &&& n * unit <= time < (n + 1) * unit
            &&& name == "s"@ || name == "m"@ || name == "h"@ || name == "d"@ || name == "mo"@
                || name == "y"@
            &&& name == "s"@ ==> unit == second && time < 60 * second
            &&& name == "m"@ ==> unit == 60 * second && 60 * second <= time < 3600 * second
            &&& name == "h"@ ==> unit == 3600 * second && 3600 * second <= time < 86400 * second
            &&& name == "d"@ ==> unit == 86400 * second && 86400 * second <= time < 30 * 86400
                * second
            &&& name == "mo"@ ==> unit == 30 * 86400 * second && 30 * 86400 * second <= time < 365
                * 86400 * second
            &&& name == "y"@ ==> unit == 365 * 86400 * second && 365 * 86400 * second <= time
        }),
{
    reveal_strlit("s");
    reveal_strlit("m");
    reveal_strlit("h");
    reveal_strlit("d");
    reveal_strlit("mo");
    reveal_strlit("y");
    assert("s"@[0] == 's' && "m"@[0] == 'm' && "h"@[0] == 'h' && "d"@[0] == 'd' && "mo"@.len() == 2
        && "y"@[0] == 'y');
    let time: int = if duration.nanoseconds < 0 {
        0
    } else {
        duration.nanoseconds as int
    };
    let s = time / 1_000_000_000;
    if s < 60 {
        (s, 1_000_000_000int, "s"@)
    } else if s < 3600 {
        (s / 60, 60_000_000_000int, "m"@)
    } else if s < 86400 {
        (s / 3600, 3600_000_000_000int, "h"@)
    } else if s < 2592000 {
        (s / 86400, 86400_000_000_000int, "d"@)
    } else if s < 31536000 {
        (s / 2592000, 2592000_000_000_000int, "mo"@)
    } else {
        (s / 31536000, 31536000_000_000_000int, "y"@)
    }
}

/// Whether two visits are to one state.
pub open spec fn same_state(a: StateVisit, b: StateVisit) -> bool {
    a.state.name@ == b.state.name@ && a.state.status == b.state.status
}

/// Whether one of the visits at `first` is to the state of the visit at `i`.
pub open spec fn has_its_first(first: Seq<int>, visits: Seq<StateVisit>, i: int) -> bool {
    exists|k: int| 0 <= k < first.len() && same_state(visits[i], visits[#[trigger] first[k]])
}

/// Whether `first` are the first visits to the states of a lifecycle, in order: each to a state that
/// no earlier visit was to, and one for every state.
pub open spec fn are_first_visits(first: Seq<int>, visits: Seq<StateVisit>) -> bool {
    &&& forall|k: int| 0 <= k < first.len() ==> 0 <= #[trigger] first[k] < visits.len()
    &&& forall|a: int, b: int|
        0 <= a < b < first.len() ==> #[trigger] first[a] < #[trigger] first[b]
    &&& forall|k: int, j: int|
        0 <= k < first.len() && 0 <= j < first[k] ==> !same_state(
            #[trigger] visits[j],
            visits[#[trigger] first[k]],
        )
    &&& forall|i: int|
        0 <= i < visits.len() ==> #[trigger] has_its_first(first, visits, i)
}

proof fn lemma_first_is_first(
    vs: Seq<crate::lifecycle::VisitView>,
    state: (Seq<char>, TicketStatus),
)
    ensures
        0 <= first_visit(vs, state) <= vs.len(),
        forall|j: int| 0 <= j < first_visit(vs, state) ==> (#[trigger] vs[j]).state != state,
        first_visit(vs, state) < vs.len() ==> vs[first_visit(vs, state)].state == state,
    decreases vs.len(),
{
    if vs.len() > 0 && vs[0].state != state {
        let rest = vs.drop_first();
        lemma_first_is_first(rest, state);
        assert forall|j: int| 0 <= j < first_visit(vs, state) implies (#[trigger] vs[j]).state
            != state by {
            if j > 0 {
                assert(rest[j - 1] == vs[j]);
            }
        }
    }
}

proof fn lemma_same_state(lifecycle: Lifecycle, i: int, j: int)
    requires
        0 <= i < lifecycle.visits@.len(),
        0 <= j < lifecycle.visits@.len(),
    ensures
        same_state(lifecycle.visits@[i], lifecycle.visits@[j]) <==> lifecycle@[i].state
            == lifecycle@[j].state,
{
    assert(lifecycle@[i] == lifecycle.visits@[i]@ && lifecycle@[j] == lifecycle.visits@[j]@);
}

proof fn lemma_first_place(lifecycle: Lifecycle, k: int)
    requires
        0 <= k < node_states(lifecycle@).len(),
    ensures
        0 <= first_visit(lifecycle@, node_states(lifecycle@)[k]) < lifecycle.visits@.len(),
        lifecycle@[first_visit(lifecycle@, node_states(lifecycle@)[k])].state == node_states(
            lifecycle@,
        )[k],
{
    lemma_unique_states(lifecycle@, lifecycle@.len() as int);
}

proof fn lemma_first_order(lifecycle: Lifecycle, a: int, b: int)
    requires
        0 <= a < b < node_states(lifecycle@).len(),
    ensures
        first_visit(lifecycle@, node_states(lifecycle@)[a]) < first_visit(
            lifecycle@,
            node_states(lifecycle@)[b],
        ),
{
    lemma_unique_states(lifecycle@, lifecycle@.len() as int);
}

proof fn lemma_none_earlier(lifecycle: Lifecycle, k: int, j: int)
    requires
        0 <= k < node_states(lifecycle@).len(),
        0 <= j < first_visit(lifecycle@, node_states(lifecycle@)[k]),
    ensures
        !same_state(
            lifecycle.visits@[j],
            lifecycle.visits@[first_visit(lifecycle@, node_states(lifecycle@)[k])],
        ),
{
    let state = node_states(lifecycle@)[k];
    lemma_first_place(lifecycle, k);
    lemma_first_is_first(lifecycle@, state);
    lemma_same_state(lifecycle, j, first_visit(lifecycle@, state));
    assert(lifecycle@[j].state != state);
}

proof fn lemma_has_first(lifecycle: Lifecycle, i: int) -> (k: int)
    requires
        0 <= i < lifecycle.visits@.len(),
    ensures
        0 <= k < node_states(lifecycle@).len(),
        0 <= first_visit(lifecycle@, node_states(lifecycle@)[k]) < lifecycle.visits@.len(),
        same_state(
            lifecycle.visits@[i],
            lifecycle.visits@[first_visit(lifecycle@, node_states(lifecycle@)[k])],
        ),
{
    let vs = lifecycle@;
    let states = node_states(vs);
    assert(states.contains(vs[i].state)) by {
        lemma_unique_states(vs, vs.len() as int);
    }
    let k = choose|k: int| 0 <= k < states.len() && states[k] == vs[i].state;
    lemma_first_place(lifecycle, k);
    lemma_same_state(lifecycle, i, first_visit(vs, states[k]));
    k
}

proof fn lemma_firsts(lifecycle: Lifecycle) -> (first: Seq<int>)
    ensures
        first.len() == node_states(lifecycle@).len(),
        are_first_visits(first, lifecycle.visits@),
        forall|k: int|
            0 <= k < first.len() ==> #[trigger] first[k] == first_visit(
                lifecycle@,
                node_states(lifecycle@)[k],
            ) && lifecycle@[first[k]].state == node_states(lifecycle@)[k],
{
    let vs = lifecycle@;
    let visits = lifecycle.visits@;
    let states = node_states(vs);
    let first = Seq::new(states.len(), |k: int| first_visit(vs, states[k]));
    assert forall|k: int| 0 <= k < first.len() implies 0 <= #[trigger] first[k] < visits.len()
        && first[k] == first_visit(vs, states[k]) && vs[first[k]].state == states[k] by {
        lemma_first_place(lifecycle, k);
    }
    assert forall|a: int, b: int| 0 <= a < b < first.len() implies #[trigger] first[a]
        < #[trigger] first[b] by {
        lemma_first_order(lifecycle, a, b);
    }
    assert forall|k: int, j: int| 0 <= k < first.len() && 0 <= j < first[k] implies !same_state(
        #[trigger] visits[j],
        visits[#[trigger] first[k]],
    ) by {
        lemma_none_earlier(lifecycle, k, j);
    }
    assert forall|i: int| 0 <= i < visits.len() implies #[trigger] has_its_first(
        first,
        visits,
        i,
    ) by {
        let k = lemma_has_first(lifecycle, i);
        assert(same_state(visits[i], visits[first[k]]));
    }
    first
}

proof fn lemma_visit_count(lifecycle: Lifecycle, at: int, n: int)
    requires
        0 <= n <= lifecycle.visits@.len(),
        0 <= at < lifecycle.visits@.len(),
    ensures
        visit_count(lifecycle@, lifecycle@[at].state, n) == lifecycle.visits@.take(n).filter(
            |v: StateVisit| same_state(v, lifecycle.visits@[at]),
        ).len(),
    decreases n,
{
    reveal(Seq::filter);
    let visits = lifecycle.visits@;
    if n > 0 {
        lemma_visit_count(lifecycle, at, n - 1);
        assert(visits.take(n).drop_last() =~= visits.take(n - 1));
        assert(visits.take(n).last() == visits[n - 1]);
        lemma_same_state(lifecycle, n - 1, at);
    }
}

/// How many visits are to the state of the visit at `at`.
pub open spec fn times_visited(visits: Seq<StateVisit>, at: int) -> nat {
    visits.filter(|v: StateVisit| same_state(v, visits[at])).len()
}

/// The graph has one node for each state that the ticket was in and no other, from left to right in
/// the order of the first visits. Each is named after its state and shows a label.
pub proof fn the_graph_has_each_state(lifecycle: &Lifecycle, r: String) -> (found: (
    Seq<int>,
    Seq<Seq<char>>,
    Seq<Seq<char>>,
))
    requires
        call_ensures(build_nodes_json, (lifecycle,), r),
    ensures
        ({
            let (first, nodes, labels) = found;
            let visits = lifecycle.visits@;
            &&& are_first_visits(first, visits)
            &&& nodes.len() == first.len()
            &&& labels.len() == first.len()
            &&& r@ == crate::text::joined(nodes, ","@)
            &&& forall|k: int|
                0 <= k < nodes.len() ==> #[trigger] nodes[k] == "{\"id\":\""@
                    + crate::html::escaped(visits[first[k]].state.name@)
                    + "\",\"data\":{\"label\":"@ + json_text(labels[k]) + "},\"position\":{\"x\":"@
                    + crate::number::decimal(40 + 220 * k)
                    + ",\"y\":40},\"type\":\"default\",\"draggable\":false}"@
            &&& forall|k: int|
                0 <= k < labels.len() ==> label_tells(#[trigger] labels[k], visits, first[k])
        }),
{
    let vs = lifecycle@;
    let visits = lifecycle.visits@;
    let states = node_states(vs);
    let first = lemma_firsts(*lifecycle);
    let nodes = Seq::new(states.len(), |k: int| node_json(vs, states[k], k));
    let labels = Seq::new(states.len(), |k: int| node_label_html(vs, states[k]));
    assert forall|k: int| 0 <= k < nodes.len() implies #[trigger] nodes[k] == "{\"id\":\""@
        + crate::html::escaped(visits[first[k]].state.name@) + "\",\"data\":{\"label\":"@
        + json_text(labels[k]) + "},\"position\":{\"x\":"@ + crate::number::decimal(40 + 220 * k)
        + ",\"y\":40},\"type\":\"default\",\"draggable\":false}"@ by {
        assert(vs[first[k]] == visits[first[k]]@);
        assert(labels[k] == node_label_html(vs, states[k]));
        assert(nodes[k] == node_json(vs, states[k], k));
    }
    assert forall|k: int| 0 <= k < labels.len() implies label_tells(
        #[trigger] labels[k],
        visits,
        first[k],
    ) by {
        assert(labels[k] == node_label_html(vs, states[k]));
        assert(vs[first[k]].state == states[k]);
        lemma_label(*lifecycle, first[k]);
    }
    (first, nodes, labels)
}

/// Whether a label tells of the state of the visit at `at`, the first one to it: its name with a mark
/// where it is closed, how often it was visited where that was more than once, whether the ticket is
/// in it now, and how long that first visit took.
pub open spec fn label_tells(label: Seq<char>, visits: Seq<StateVisit>, at: int) -> bool {
    let name = crate::html::escaped(visits[at].state.name@);
    let is_now = same_state(visits.last(), visits[at]);
    let count = times_visited(visits, at);
    label == "<div class=\"lnode"@ + (if is_now {
        " current"@
    } else {
        ""@
    }) + "\"><span class=\"lnode-state state-"@ + name + "\">"@ + name + (
    if visits[at].state.status == TicketStatus::Open {
        ""@
    } else if visits[at].state.name@ == "resolved"@ {
        " \u{2713}"@
    } else {
        " \u{2717}"@
    }) + "</span>"@ + (if count > 1 {
        "<span class=\"lnode-count\">\u{d7}"@ + crate::number::decimal(count as int) + "</span>"@
    } else {
        Seq::empty()
    }) + ((if is_now {
        "<div class=\"lnode-meta\">current \u{b7} "@
    } else {
        "<div class=\"lnode-meta\">"@
    }) + crate::html::escaped(duration_text(visits[at].duration.nanoseconds as int)) + "</div>"@)
        + "</div>"@
}

proof fn lemma_label(lifecycle: Lifecycle, at: int)
    requires
        0 <= at < lifecycle.visits@.len(),
        first_visit(lifecycle@, lifecycle@[at].state) == at,
    ensures
        label_tells(
            node_label_html(lifecycle@, lifecycle@[at].state),
            lifecycle.visits@,
            at,
        ),
{
    let vs = lifecycle@;
    let visits = lifecycle.visits@;
    let n = visits.len() as int;
    lemma_visit_count(lifecycle, at, n);
    assert(visits.take(n) =~= visits);
    lemma_same_state(lifecycle, n - 1, at);
    assert(vs[at] == visits[at]@);
    assert(vs.last() == visits[n - 1]@);
}

/// Whether the change behind the visit at `i` leads back: to a state that the ticket was in before it
/// ever was in the one that it leaves.
pub open spec fn leads_back(visits: Seq<StateVisit>, i: int) -> bool {
    exists|m: int|
        0 <= m < visits.len() && same_state(#[trigger] visits[m], visits[i + 1]) && forall|n: int|
            0 <= n <= m ==> !same_state(#[trigger] visits[n], visits[i])
}

proof fn lemma_leads_back(lifecycle: Lifecycle, i: int)
    requires
        0 <= i < lifecycle.visits@.len() - 1,
    ensures
        is_back_edge(lifecycle@, i) <==> leads_back(lifecycle.visits@, i),
{
    let vs = lifecycle@;
    let visits = lifecycle.visits@;
    let from = vs[i].state;
    let to = vs[i + 1].state;
    lemma_first_is_first(vs, from);
    lemma_first_is_first(vs, to);
    let a = first_visit(vs, from);
    let b = first_visit(vs, to);
    if is_back_edge(vs, i) {
        lemma_same_state(lifecycle, b, i + 1);
        assert(same_state(visits[b], visits[i + 1]));
        assert forall|n: int| 0 <= n <= b implies !same_state(#[trigger] visits[n], visits[i]) by {
            lemma_same_state(lifecycle, n, i);
            if n < a {
                assert(vs[n].state != from);
            }
        }
    }
    if leads_back(visits, i) {
        let m = choose|m: int|
            0 <= m < visits.len() && same_state(#[trigger] visits[m], visits[i + 1]) && forall|
                n: int,
            |
                0 <= n <= m ==> !same_state(#[trigger] visits[n], visits[i]);
        lemma_same_state(lifecycle, m, i + 1);
        assert(vs[m].state == to);
        assert(b <= m);
        if a <= m {
            lemma_same_state(lifecycle, a, i);
            assert(!same_state(visits[a], visits[i]));
        }
        assert(!same_state(visits[m], visits[i]));
        lemma_same_state(lifecycle, m, i);
    }
}

/// The graph has an edge for each change from one visit to the next and no other, in their order:
/// from the state that the ticket left to the one that it came to, numbered, with the time that it
/// had spent, and dashed where the change leads back.
pub proof fn the_graph_has_each_change(lifecycle: &Lifecycle, r: String) -> (edges: Seq<Seq<char>>)
    requires
        call_ensures(build_edges_json, (lifecycle,), r),
    ensures
        edges.len() == if lifecycle.visits@.len() == 0 {
            0
        } else {
            lifecycle.visits@.len() - 1
        },
        r@ == crate::text::joined(edges, ","@),
        forall|i: int|
            0 <= i < edges.len() ==> #[trigger] edges[i] == "{\"id\":\"e-"@
                + crate::number::decimal(i + 1) + "\",\"source\":\""@ + crate::html::escaped(
                lifecycle.visits@[i].state.name@,
            ) + "\",\"target\":\""@ + crate::html::escaped(lifecycle.visits@[i + 1].state.name@)
                + "\",\"type\":\"smoothstep\",\"animated\":false,\"label\":"@ + json_text(
                "#"@ + crate::number::decimal(i + 1) + " \u{b7} "@ + duration_text(
                    lifecycle.visits@[i].duration.nanoseconds as int,
                ),
            ) + (if leads_back(lifecycle.visits@, i) {
                ",\"style\":{\"strokeDasharray\":\"6 4\",\"stroke\":\"#dc2626\"}"@
            } else {
                ""@
            }) + "}"@,
{
    let vs = lifecycle@;
    let visits = lifecycle.visits@;
    let edges = Seq::new(edge_count(vs), |i: int| edge_json(vs, i));
    assert forall|i: int| 0 <= i < edges.len() implies #[trigger] edges[i] == "{\"id\":\"e-"@
        + crate::number::decimal(i + 1) + "\",\"source\":\""@ + crate::html::escaped(
        visits[i].state.name@,
    ) + "\",\"target\":\""@ + crate::html::escaped(visits[i + 1].state.name@)
        + "\",\"type\":\"smoothstep\",\"animated\":false,\"label\":"@ + json_text(
        "#"@ + crate::number::decimal(i + 1) + " \u{b7} "@ + duration_text(
            visits[i].duration.nanoseconds as int,
        ),
    ) + (if leads_back(visits, i) {
        ",\"style\":{\"strokeDasharray\":\"6 4\",\"stroke\":\"#dc2626\"}"@
    } else {
        ""@
    }) + "}"@ by {
        assert(edges[i] == edge_json(vs, i));
        assert(vs[i] == visits[i]@ && vs[i + 1] == visits[i + 1]@);
        lemma_leads_back(*lifecycle, i);
    }
    edges
}

/// A value can be shown unless it is longer than 60 bytes and its first 57 end inside a character.
pub proof fn values_are_not_cut_inside_a_character(value: &str, r: bool)
    requires
        call_ensures(value_is_showable, (value,), r),
    ensures
        r <==> encode_utf8(value@).len() <= 60 || valid_utf8(encode_utf8(value@).take(57)),
{
}

/// A value that the timeline shows is the value itself, or where it is longer than 60 bytes its first
/// 57 bytes, with an ellipsis behind them.
pub open spec fn is_shown_as(shown: Seq<char>, value: Seq<char>) -> bool {
    if encode_utf8(value).len() <= 60 {
        shown == value
    } else {
        exists|start: Seq<char>|
            shown == start + "..."@ && #[trigger] encode_utf8(start) == encode_utf8(value).take(57)
    }
}

/// A step of the timeline tells when it was made, what was done to which field, with which value, and
/// by whom.
pub proof fn a_step_tells_what_was_done(entry: &HistoryEntry, r: String) -> (shown: Seq<char>)
    requires
        call_ensures(render_step, (entry,), r),
        is_showable(entry.value@),
    ensures
        is_shown_as(shown, entry.value@),
        ({
            let date = crate::html::escaped(crate::moment::local_date_text(entry.at.time));
            let time = crate::html::escaped(crate::moment::local_clock_text(entry.at.time));
            let done = if entry.operation@ == "remove"@ || entry.operation@ == "set_remove"@
                || entry.operation@ == "set_rm"@ {
                "removed"@
            } else if entry.operation@ == "set_add"@ || entry.operation@ == "push"@ {
                "added"@
            } else {
                entry.operation@
            };
            &&& crate::text::holds(
                r@,
                "<li class=\"lstep\"><time datetime=\""@ + date + " "@ + time + "\">"@ + date + " "@
                    + time + "</time> <span class=\"lstep-op\">"@,
            )
            &&& crate::text::holds(
                r@,
                "</time> <span class=\"lstep-op\">"@ + crate::html::escaped(done)
                    + "</span> <code>"@ + crate::html::escaped(entry.field@)
                    + "</code> <span class=\"lstep-val\">"@ + crate::html::escaped(shown)
                    + "</span> <span class=\"lstep-who\">\u{b7} "@,
            )
            &&& crate::text::holds(
                r@,
                "</span> <span class=\"lstep-who\">\u{b7} "@ + crate::html::escaped(
                    entry.author.name@,
                ) + "</span></li>"@,
            )
        }),
{
    broadcast use crate::text::group_holds;

    reveal_strlit("set");
    reveal_strlit("remove");
    reveal_strlit("set_remove");
    reveal_strlit("set_rm");
    reveal_strlit("set_add");
    reveal_strlit("push");
    let value = entry.value@;
    let shown = short_value(value);
    if encode_utf8(value).len() > 60 {
        let start = decode_utf8(encode_utf8(value).take(57));
        decode_utf8_encode_utf8(encode_utf8(value).take(57));
        assert(encode_utf8(start) == encode_utf8(value).take(57));
    }
    assert(entry@.value == value && entry@.field == entry.field@ && entry@.operation
        == entry.operation@ && entry@.name == entry.author.name@ && entry@.at == entry.at.time);
    shown
}

proof fn lemma_steps_run_together(
    steps: Seq<crate::lifecycle::EntryView>,
    n: int,
    items: Seq<Seq<char>>,
)
    requires
        0 <= n <= steps.len(),
        items.len() == steps.len(),
        forall|i: int| 0 <= i < items.len() ==> #[trigger] items[i] == step_html(steps[i]),
    ensures
        step_list_html(steps, n) == crate::text::run_together(items.take(n)),
    decreases n,
{
    if n > 0 {
        lemma_steps_run_together(steps, n - 1, items);
        assert(items.take(n).drop_last() =~= items.take(n - 1));
        assert(items.take(n).last() == items[n - 1]);
    }
}

/// A visit on the timeline tells its number, its state, how long it took, when it began and through
/// whom, and then each of its steps and no other, in their order.
pub proof fn a_visit_is_told(visit: &StateVisit, r: String) -> (items: Seq<Seq<char>>)
    requires
        call_ensures(render_visit, (visit,), r),
    ensures
        ({
            let state = crate::html::escaped(visit.state.name@);
            &&& crate::text::holds(
                r@,
                "<div class=\"lvisit\"><div class=\"lvisit-header\"><span class=\"lseq\">#"@
                    + crate::number::decimal(visit.seq as int)
                    + "</span><span class=\"badge state-"@ + state + "\">"@ + state
                    + "</span><span class=\"ldur\">"@,
            )
            &&& crate::text::holds(
                r@,
                "</span><span class=\"ldur\">"@ + crate::html::escaped(
                    duration_text(visit.duration.nanoseconds as int),
                ) + "</span><span class=\"lwhen\">"@ + crate::html::escaped(
                    visit.entered_at.age@,
                ) + " ago</span><span class=\"lwho\">\u{b7} "@ + crate::html::escaped(
                    visit.entered_by.name@,
                ) + "</span></div>"@,
            )
            &&& crate::text::holds(
                r@,
                "</span></div>"@ + (if visit.steps@.len() == 0 {
                    "<div class=\"lsteps-empty\">No changes during this state.</div>"@
                } else {
                    "<ul class=\"lsteps\">"@ + crate::text::run_together(items) + "</ul>"@
                }) + "</div>"@,
            )
        }),
        items.len() == visit.steps@.len(),
        forall|i: int, s: String|
            0 <= i < items.len() && #[trigger] call_ensures(
                render_step,
                (&visit.steps@[i],),
                s,
            ) ==> #[trigger] items[i] == s@,
{
    broadcast use crate::text::group_holds;

    let steps = crate::lifecycle::entries_of(visit.steps@);
    let items = Seq::new(steps.len(), |i: int| step_html(steps[i]));
    lemma_steps_run_together(steps, steps.len() as int, items);
    assert(items.take(steps.len() as int) =~= items);
    assert forall|i: int, s: String|
        0 <= i < items.len() && #[trigger] call_ensures(
            render_step,
            (&visit.steps@[i],),
            s,
        ) implies #[trigger] items[i] == s@ by {
        assert(steps[i] == visit.steps@[i]@);
    }
    items
}

proof fn lemma_visits_run_together(
    vs: Seq<crate::lifecycle::VisitView>,
    n: int,
    items: Seq<Seq<char>>,
)
    requires
        0 <= n <= vs.len(),
        items.len() == vs.len(),
        forall|i: int| 0 <= i < items.len() ==> #[trigger] items[i] == visit_html(vs[i]),
    ensures
        visits_html(vs, n) == crate::text::run_together(items.take(n)),
    decreases n,
{
    if n > 0 {
        lemma_visits_run_together(vs, n - 1, items);
        assert(items.take(n).drop_last() =~= items.take(n - 1));
        assert(items.take(n).last() == items[n - 1]);
    }
}

/// The timeline of a ticket tells each visit and no other, in their order.
pub proof fn the_timeline_tells_each_visit(ticket: &Ticket, lifecycle: &Lifecycle, r: String) -> (
    items: Seq<Seq<char>>)
    requires
        call_ensures(flow_page, (ticket, lifecycle), r),
    ensures
        items.len() == lifecycle.visits@.len(),
        crate::text::holds(
            r@,
            "<div class=\"flow-wrap\" id=\"flow\"></div>\
     <section class=\"lifecycle-timeline\"><h2>Timeline</h2>"@ + crate::text::run_together(
                items,
            ) + "</section>"@,
        ),
        forall|i: int, s: String|
            0 <= i < items.len() && #[trigger] call_ensures(
                render_visit,
                (&lifecycle.visits@[i],),
                s,
            ) ==> #[trigger] items[i] == s@,
{
    broadcast use crate::text::group_holds;

    let vs = lifecycle@;
    let items = Seq::new(vs.len(), |i: int| visit_html(vs[i]));
    lemma_visits_run_together(vs, vs.len() as int, items);
    assert(items.take(vs.len() as int) =~= items);
    assert forall|i: int, s: String|
        0 <= i < items.len() && #[trigger] call_ensures(
            render_visit,
            (&lifecycle.visits@[i],),
            s,
        ) implies #[trigger] items[i] == s@ by {
        assert(vs[i] == lifecycle.visits@[i]@);
    }
    items
}

/// The script of the page draws the nodes and the edges of the lifecycle: the nodes as nodes, and the
/// edges as edges.
pub proof fn the_script_draws_the_graph(
    ticket: &Ticket,
    lifecycle: &Lifecycle,
    r: String,
    nodes: String,
    edges: String,
)
    requires
        call_ensures(flow_page, (ticket, lifecycle), r),
        call_ensures(build_nodes_json, (lifecycle,), nodes),
        call_ensures(build_edges_json, (lifecycle,), edges),
    ensures
        crate::text::holds(r@, "var nodes = ["@ + nodes@ + "].map(function(n) {"@),
        crate::text::holds(r@, "var edges = ["@ + edges@ + SCRIPT_TAIL@),
{
    broadcast use crate::text::group_holds;

    let script = script_text(nodes@, edges@);
    assert(crate::text::holds(r@, script));
    lemma_script(nodes@, edges@);
    lemma_holds_through(r@, script, "var nodes = ["@ + nodes@ + "].map(function(n) {"@);
    lemma_holds_through(r@, script, "var edges = ["@ + edges@ + SCRIPT_TAIL@);
}

proof fn lemma_holds_through(text: Seq<char>, part: Seq<char>, piece: Seq<char>)
    requires
        crate::text::holds(text, part),
        crate::text::holds(part, piece),
    ensures
        crate::text::holds(text, piece),
{
    let a = choose|at: int|
        0 <= at && at + part.len() <= text.len() && #[trigger] text.subrange(
            at,
            at + part.len(),
        ) == part;
    let b = choose|at: int|
        0 <= at && at + piece.len() <= part.len() && #[trigger] part.subrange(
            at,
            at + piece.len(),
        ) == piece;
    assert(text.subrange(a + b, a + b + piece.len()) =~= part.subrange(b, b + piece.len()));
}

proof fn lemma_script(nodes: Seq<char>, edges: Seq<char>)
    ensures
        crate::text::holds(
            script_text(nodes, edges),
            "var nodes = ["@ + nodes + "].map(function(n) {"@,
        ),
        crate::text::holds(script_text(nodes, edges), "var edges = ["@ + edges + SCRIPT_TAIL@),
{
    let head = SCRIPT_HEAD@;
    let middle = SCRIPT_MIDDLE@;
    let tail = SCRIPT_TAIL@;
    lemma_script_text();
    let open_nodes = "var nodes = ["@;
    let close_nodes = "].map(function(n) {"@;
    let open_edges = "var edges = ["@;
    let a = head.take(head.len() - open_nodes.len());
    let b = middle.skip(close_nodes.len() as int);
    let c = middle.take(middle.len() - open_edges.len());
    lemma_parts(head, a.len() as int);
    lemma_parts(middle, close_nodes.len() as int);
    lemma_parts(middle, c.len() as int);
    lemma_first_part(a, open_nodes, nodes, close_nodes, b, edges, tail);
    lemma_last_part(head, nodes, c, open_edges, edges, tail);
}

proof fn lemma_parts(s: Seq<char>, n: int)
    requires
        0 <= n <= s.len(),
    ensures
        s == s.take(n) + s.skip(n),
{
    assert(s =~= s.take(n) + s.skip(n));
}

proof fn lemma_first_part(
    a: Seq<char>,
    open: Seq<char>,
    nodes: Seq<char>,
    close: Seq<char>,
    b: Seq<char>,
    edges: Seq<char>,
    tail: Seq<char>,
)
    ensures
        crate::text::holds((a + open) + nodes + (close + b) + edges + tail, open + nodes + close),
{
    broadcast use crate::text::group_holds;

    crate::text::lemma_assoc((a + open) + nodes, close, b);
}

proof fn lemma_last_part(
    head: Seq<char>,
    nodes: Seq<char>,
    c: Seq<char>,
    open: Seq<char>,
    edges: Seq<char>,
    tail: Seq<char>,
)
    ensures
        crate::text::holds(head + nodes + (c + open) + edges + tail, open + edges + tail),
{
    broadcast use crate::text::group_holds;

    crate::text::lemma_assoc(head + nodes, c, open);
}

proof fn lemma_script_text()
    ensures
        SCRIPT_HEAD@.len() >= "var nodes = ["@.len(),
        SCRIPT_HEAD@.skip(SCRIPT_HEAD@.len() - "var nodes = ["@.len()) == "var nodes = ["@,
        SCRIPT_MIDDLE@.len() >= "].map(function(n) {"@.len(),
        SCRIPT_MIDDLE@.take("].map(function(n) {"@.len() as int) == "].map(function(n) {"@,
        SCRIPT_MIDDLE@.len() >= "var edges = ["@.len(),
        SCRIPT_MIDDLE@.skip(SCRIPT_MIDDLE@.len() - "var edges = ["@.len()) == "var edges = ["@,
{
    reveal_strlit("(function() {
var React = window.React;
var ReactDOM = window.ReactDOM;
var ReactFlow = window.ReactFlow;

var nodes = [");
    reveal_strlit("].map(function(n) {
  return Object.assign({}, n, { style: { width: 180 } });
});
var edges = [");
    reveal_strlit("var nodes = [");
    reveal_strlit("].map(function(n) {");
    reveal_strlit("var edges = [");
    assert(SCRIPT_HEAD@.skip(SCRIPT_HEAD@.len() - "var nodes = ["@.len()) =~= "var nodes = ["@);
    assert(SCRIPT_MIDDLE@.take("].map(function(n) {"@.len() as int) =~= "].map(function(n) {"@);
    assert(SCRIPT_MIDDLE@.skip(SCRIPT_MIDDLE@.len() - "var edges = ["@.len()) =~= "var edges = ["@);
}

/// The page of a ticket's way starts with its title, state, id and age, who opened it, and links to
/// its own page and to its own graph.
pub proof fn the_graph_names_its_ticket(ticket: &Ticket, lifecycle: &Lifecycle, r: String)
    requires
        call_ensures(flow_page, (ticket, lifecycle), r),
    ensures
        ({
            let id = crate::html::escaped(crate::ticket::short_text(ticket.id));
            let state = crate::html::escaped(ticket.state.name@);
            &&& crate::text::holds(
                r@,
                crate::html::escaped(crate::ticket::short_text(ticket.id) + " \u{b7} lifecycle"@)
                    + "</title><style>"@,
            )
            &&& crate::text::holds(
                r@,
                "<header class=\"detail\"><a class=\"back\" href=\"/\">\u{2190} all tickets</a><h1>"@
                    + crate::html::escaped(ticket.title@)
                    + "</h1><p class=\"subtitle\"><span class=\"badge state-"@ + state + "\">"@
                    + state + "</span> <code>"@ + id,
            )
            &&& crate::text::holds(
                r@,
                "</code> \u{b7} opened "@ + crate::html::escaped(ticket.created_at.age@)
                    + " ago by "@ + crate::html::escaped(ticket.created_by.name@)
                    + "</p><nav class=\"detail-nav\"><a href=\"/t/"@,
            )
            &&& crate::text::holds(
                r@,
                "</p><nav class=\"detail-nav\"><a href=\"/t/"@ + id
                    + "\">Ticket</a><a href=\"/t/"@ + id
                    + "/flow\" class=\"active\">Lifecycle</a></nav></header>"@,
            )
        }),
{
    broadcast use crate::text::group_holds;

}

/// A ticket that the store knows is answered with the page of its lifecycle; for one that it does not
/// know the answer is 404, with the reason.
pub proof fn a_graph_is_answered_with_its_page(
    found: &Result<Ticket, String>,
    history: &Vec<HistoryEntry>,
    now: Timestamp,
    r: Response,
    ticket: &Ticket,
    lifecycle: &Lifecycle,
    text: String,
    message: &str,
    unknown: Response,
)
    requires
        found matches Err(why) ==> why@ == message@,
        call_ensures(Response::error, (404, "404 - no such ticket", message), unknown),
        call_ensures(response, (found, history, now), r),
        found matches Ok(known) ==> known == ticket,
        call_ensures(build_lifecycle, (ticket, history, now), *lifecycle),
        call_ensures(flow_page, (ticket, lifecycle), text),
    ensures
        r.location is None,
        r.content_type@ == "text/html; charset=utf-8"@,
        match found {
            Ok(_) => r.status == 200 && r.body@ == encode_utf8(text@),
            Err(_) => r.status == 404 && r@ == unknown@,
        },
{
}

/// The page of a graph loads the style sheet and the scripts that the graph needs from the addresses
/// under which they are served, and shows its body and its graph.
pub proof fn the_page_loads_its_assets(
    title: &str,
    body: &str,
    nodes: &str,
    edges: &str,
    r: String,
    script: String,
)
    requires
        call_ensures(flow_document, (title, body, nodes, edges), r),
        call_ensures(bootstrap_script, (nodes, edges), script),
    ensures
        crate::text::holds(r@, "href=\"/assets/xyflow.css\""@),
        crate::text::holds(r@, "src=\"/assets/react.min.js\""@),
        crate::text::holds(r@, "src=\"/assets/react-dom.min.js\""@),
        crate::text::holds(r@, "src=\"/assets/jsx-runtime-shim.js\""@),
        crate::text::holds(r@, "src=\"/assets/xyflow.min.js\""@),
        crate::text::holds(
            r@,
            "</style><link rel=\"stylesheet\" href=\"/assets/xyflow.css\"></head><body><main>"@
                + body@,
        ),
        crate::text::holds(r@, script@ + "</script></body></html>\n"@),
        script@ == SCRIPT_HEAD@ + nodes@ + SCRIPT_MIDDLE@ + edges@ + SCRIPT_TAIL@,
{
    broadcast use crate::text::group_holds;

    let head =
        "</style><link rel=\"stylesheet\" href=\"/assets/xyflow.css\"></head><body><main>"@;
    let tail =
        "</main>\
     <script src=\"/assets/react.min.js\"></script>\
     <script src=\"/assets/react-dom.min.js\"></script>\
     <script src=\"/assets/jsx-runtime-shim.js\"></script>\
     <script src=\"/assets/xyflow.min.js\"></script><script>"@;
    assert(crate::text::holds(r@, head));
    assert(crate::text::holds(r@, tail));
    lemma_asset_tags();
    lemma_holds_through(r@, head, "href=\"/assets/xyflow.css\""@);
    lemma_holds_through(r@, tail, "src=\"/assets/react.min.js\""@);
    lemma_holds_through(r@, tail, "src=\"/assets/react-dom.min.js\""@);
    lemma_holds_through(r@, tail, "src=\"/assets/jsx-runtime-shim.js\""@);
    lemma_holds_through(r@, tail, "src=\"/assets/xyflow.min.js\""@);
}

proof fn lemma_asset_tags()
    ensures
        crate::text::holds(
            "</style><link rel=\"stylesheet\" href=\"/assets/xyflow.css\"></head><body><main>"@,
            "href=\"/assets/xyflow.css\""@,
        ),
        ({
            let tail =
                "</main>\
     <script src=\"/assets/react.min.js\"></script>\
     <script src=\"/assets/react-dom.min.js\"></script>\
     <script src=\"/assets/jsx-runtime-shim.js\"></script>\
     <script src=\"/assets/xyflow.min.js\"></script><script>"@;
            &&& crate::text::holds(tail, "src=\"/assets/react.min.js\""@)
            &&& crate::text::holds(tail, "src=\"/assets/react-dom.min.js\""@)
            &&& crate::text::holds(tail, "src=\"/assets/jsx-runtime-shim.js\""@)
            &&& crate::text::holds(tail, "src=\"/assets/xyflow.min.js\""@)
        }),
{
    reveal_strlit(
        "</style><link rel=\"stylesheet\" href=\"/assets/xyflow.css\"></head><body><main>",
    );
    reveal_strlit(
        "</main>\
     <script src=\"/assets/react.min.js\"></script>\
     <script src=\"/assets/react-dom.min.js\"></script>\
     <script src=\"/assets/jsx-runtime-shim.js\"></script>\
     <script src=\"/assets/xyflow.min.js\"></script><script>",
    );
    reveal_strlit("href=\"/assets/xyflow.css\"");
    reveal_strlit("src=\"/assets/react.min.js\"");
    reveal_strlit("src=\"/assets/react-dom.min.js\"");
    reveal_strlit("src=\"/assets/jsx-runtime-shim.js\"");
    reveal_strlit("src=\"/assets/xyflow.min.js\"");
    let head =
        "</style><link rel=\"stylesheet\" href=\"/assets/xyflow.css\"></head><body><main>"@;
    let tail =
        "</main>\
     <script src=\"/assets/react.min.js\"></script>\
     <script src=\"/assets/react-dom.min.js\"></script>\
     <script src=\"/assets/jsx-runtime-shim.js\"></script>\
     <script src=\"/assets/xyflow.min.js\"></script><script>"@;
    let css = "href=\"/assets/xyflow.css\""@;
    assert(head.subrange(31int, 31int + css.len()) =~= css);
    let a = "src=\"/assets/react.min.js\""@;
    assert(tail.subrange(15int, 15int + a.len()) =~= a);
    let b = "src=\"/assets/react-dom.min.js\""@;
    assert(tail.subrange(59int, 59int + b.len()) =~= b);
    let c = "src=\"/assets/jsx-runtime-shim.js\""@;
    assert(tail.subrange(107int, 107int + c.len()) =~= c);
    let d = "src=\"/assets/xyflow.min.js\""@;
    assert(tail.subrange(158int, 158int + d.len()) =~= d);
}

/// The page of a graph is the document with its title, with the head of the page and the timeline as
/// its body, and with the nodes and the edges of the lifecycle.
pub proof fn a_graph_is_made_of_its_parts(
    ticket: &Ticket,
    lifecycle: &Lifecycle,
    r: String,
    nodes: &str,
    edges: &str,
    built_nodes: String,
    built_edges: String,
    title: &str,
    body: &str,
    whole: String,
) -> (found: (Seq<char>, Seq<Seq<char>>))
    requires
        call_ensures(flow_page, (ticket, lifecycle), r),
        call_ensures(build_nodes_json, (lifecycle,), built_nodes),
        call_ensures(build_edges_json, (lifecycle,), built_edges),
        nodes@ == built_nodes@,
        edges@ == built_edges@,
        title@ == crate::ticket::short_text(ticket.id) + " \u{b7} lifecycle"@,
        body@ == flow_body_html(*ticket, lifecycle@),
        call_ensures(flow_document, (title, body, nodes, edges), whole),
    ensures
        r@ == whole@,
        found.1.len() == lifecycle.visits@.len(),
        body@ == found.0 + "<div class=\"flow-wrap\" id=\"flow\"></div>\
     <section class=\"lifecycle-timeline\"><h2>Timeline</h2>"@ + crate::text::run_together(
            found.1,
        ) + "</section>"@,
{
    let vs = lifecycle@;
    let items = Seq::new(vs.len(), |i: int| visit_html(vs[i]));
    lemma_visits_run_together(vs, vs.len() as int, items);
    assert(items.take(vs.len() as int) =~= items);
    (flow_header_html(*ticket), items)
}

// -- text -------------------------------------------------------------------

/// The script that draws the graph, up to its nodes.
pub const SCRIPT_HEAD: &'static str = "(function() {
var React = window.React;
var ReactDOM = window.ReactDOM;
var ReactFlow = window.ReactFlow;

var nodes = [";

/// The script between its nodes and its edges.
pub const SCRIPT_MIDDLE: &'static str = "].map(function(n) {
  return Object.assign({}, n, { style: { width: 180 } });
});
var edges = [";

/// The script after its edges.
pub const SCRIPT_TAIL: &'static str = "].map(function(e) {
  return Object.assign({}, e, {
    markerEnd: { type: ReactFlow.MarkerType.ArrowClosed },
    labelStyle: { fontSize: 11, fontFamily: 'ui-monospace, monospace' },
    labelBgStyle: { fill: 'var(--chip)' },
    labelBgPadding: [4, 2],
    labelBgBorderRadius: 4,
  });
});

// Detect dark mode and add the class React Flow expects.
var flowEl = document.getElementById('flow');
var isDark = window.matchMedia('(prefers-color-scheme: dark)').matches;

function Flow() {
  return React.createElement(ReactFlow.ReactFlow, {
    nodes: nodes,
    edges: edges,
    fitView: true,
    fitViewOptions: { padding: 0.3 },
    nodesDraggable: true,
    nodesConnectable: false,
    elementsSelectable: false,
    panOnDrag: true,
    zoomOnScroll: true,
    minZoom: 0.2,
    maxZoom: 2,
    className: isDark ? 'dark' : '',
  },
    React.createElement(ReactFlow.Background, { variant: 'dots', gap: 16, size: 1 }),
    React.createElement(ReactFlow.Controls, { showInteractive: false })
  );
}

ReactDOM.createRoot(flowEl).render(React.createElement(Flow));
})();
";

/// The styles of the page.
pub const LIFECYCLE_STYLE: &'static str = "\
.flow-wrap{width:100%;height:380px;border:1px solid var(--line);border-radius:8px;overflow:hidden;margin-bottom:24px}\
.lnode{width:160px;padding:8px;text-align:center}\
.lnode-state{display:inline-block;font-size:12px;font-weight:600;border-radius:4px;padding:2px 8px;background:var(--chip)}\
.lnode-count{font-size:11px;color:var(--dim);margin-left:4px}\
.lnode-meta{font-size:10px;color:var(--dim);margin-top:4px}\
.lnode.current .lnode-state{box-shadow:0 0 0 2px var(--accent)}\
.lifecycle-timeline{margin-top:8px}\
.lvisit{margin-bottom:12px;border:1px solid var(--line);border-radius:6px;overflow:hidden}\
.lvisit-header{display:flex;align-items:center;gap:8px;padding:8px 12px;background:var(--chip);font-size:13px}\
.lseq{color:var(--dim);font-size:12px;min-width:28px}\
.ldur{color:var(--fg);font-size:12px;font-weight:500}\
.lwhen{color:var(--dim);font-size:12px}\
.lwho{color:var(--dim);font-size:12px}\
.lsteps{list-style:none;margin:0;padding:0}\
.lstep{padding:5px 12px;font-size:12px;border-bottom:1px solid var(--line);display:flex;gap:6px;align-items:baseline;flex-wrap:wrap}\
.lstep:last-child{border-bottom:none}\
.lstep time{color:var(--dim);white-space:nowrap}\
.lstep .lstep-op{color:var(--accent);min-width:48px}\
.lstep code{color:var(--dim)}\
.lstep .lstep-val{color:var(--fg)}\
.lstep .lstep-who{color:var(--dim)}\
.lsteps-empty{padding:8px 12px;color:var(--dim);font-size:12px}";

} // verus!
