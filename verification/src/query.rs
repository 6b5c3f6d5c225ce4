//! The list filters: read from a request, written back as a link, and handed to the store.

use vstd::prelude::*;
use vstd::string::*;

use crate::percent::percent_encode;
use crate::request::clean;
use crate::request::Request;
use crate::text::chars_of;
use crate::text::join;
use crate::text::out_push;
use crate::text::same;
use crate::text::text_between;
use crate::text::trim;
use crate::ticket::TicketState;
use crate::ticket::TicketStatus;

verus! {

// -- view modes -------------------------------------------------------------

/// How a list of tickets is shown.
#[derive(Debug, Clone, Copy, PartialEq, Eq, Structural)]
pub enum ViewMode {
    List,
    Kanban,
}

impl ViewMode {
    /// The caption of the link to a mode.
    pub open spec fn caption(self) -> Seq<char> {
        match self {
            ViewMode::List => "List"@,
            ViewMode::Kanban => "Kanban"@,
        }
    }

    /// Where a mode is served.
    pub open spec fn address(self) -> Seq<char> {
        match self {
            ViewMode::List => "/"@,
            ViewMode::Kanban => "/kanban"@,
        }
    }

    /// The caption of the link to a mode.
    pub fn label(self) -> (r: &'static str)
        ensures
            r@ == self.caption(),
    {
        match self {
            ViewMode::List => "List",
            ViewMode::Kanban => "Kanban",
        }
    }

    /// Where a mode is served.
    pub fn path(self) -> (r: &'static str)
        ensures
            r@ == self.address(),
    {
        match self {
            ViewMode::List => "/",
            ViewMode::Kanban => "/kanban",
        }
    }
}

// -- model ------------------------------------------------------------------

/// The list filters, as mathematical values.
#[verifier::ext_equal]
pub struct QueryView {
    pub status: Option<Seq<char>>,
    pub state: Option<Seq<char>>,
    pub tags: Seq<Seq<char>>,
    pub assigned: Option<Seq<char>>,
    pub search: Option<Seq<char>>,
    pub order: Option<Seq<char>>,
    pub all: bool,
    pub subissues: bool,
}

/// No filters at all.
pub open spec fn empty_query() -> QueryView {
    QueryView {
        status: None,
        state: None,
        tags: Seq::empty(),
        assigned: None,
        search: None,
        order: None,
        all: false,
        subissues: false,
    }
}

/// The texts that are not blank, in order.
pub open spec fn not_blank(texts: Seq<Seq<char>>) -> Seq<Seq<char>>
    decreases texts.len(),
{
    if texts.len() == 0 {
        Seq::empty()
    } else if crate::text::trimmed(texts.last()).len() > 0 {
        not_blank(texts.drop_last()).push(texts.last())
    } else {
        not_blank(texts.drop_last())
    }
}

/// The filter that a request sets under `key`.
pub open spec fn param_filter(request: crate::request::RequestView, key: Seq<char>) -> Option<Seq<char>> {
    crate::request::cleaned(crate::request::first_value(request.params, key))
}

/// The filters that a request sets.
pub open spec fn query_of(request: crate::request::RequestView) -> QueryView {
    QueryView {
        status: param_filter(request, "status"@),
        state: param_filter(request, "state"@),
        tags: not_blank(crate::request::all_values(request.params, "tag"@)),
        assigned: param_filter(request, "assigned"@),
        search: param_filter(request, "q"@),
        order: param_filter(request, "order"@),
        all: request.flag("all"@),
        subissues: request.flag("subissues"@),
    }
}

/// The pair for a filter that may be set.
pub open spec fn filter_pair(key: Seq<char>, value: Option<Seq<char>>) -> Seq<(Seq<char>, Seq<char>)> {
    match value {
        Some(v) => seq![(key, v)],
        None => Seq::empty(),
    }
}

/// The pair for a switch.
pub open spec fn switch_pair(key: Seq<char>, on: bool) -> Seq<(Seq<char>, Seq<char>)> {
    if on {
        seq![(key, "1"@)]
    } else {
        Seq::empty()
    }
}

/// A pair for each tag.
pub open spec fn tag_pairs(tags: Seq<Seq<char>>) -> Seq<(Seq<char>, Seq<char>)> {
    Seq::new(tags.len(), |i: int| ("tag"@, tags[i]))
}

/// The sort order that a link asks for: `order` where it is given, or the one in use.
pub open spec fn link_order(q: QueryView, order: Option<Seq<char>>) -> Option<Seq<char>> {
    match order {
        Some(o) => Some(o),
        None => q.order,
    }
}

/// The pairs that a link with these filters carries.
pub open spec fn link_pairs(q: QueryView, order: Option<Seq<char>>) -> Seq<(Seq<char>, Seq<char>)> {
    filter_pair("status"@, q.status) + filter_pair("state"@, q.state) + tag_pairs(q.tags)
        + filter_pair("assigned"@, q.assigned) + filter_pair("q"@, q.search) + switch_pair(
        "all"@,
        q.all,
    ) + switch_pair("subissues"@, q.subissues) + filter_pair("order"@, link_order(q, order))
}

/// A pair as a piece of a query string.
pub open spec fn piece_of(pair: (Seq<char>, Seq<char>)) -> Seq<char> {
    pair.0 + "="@ + crate::percent::percent_encoded(pair.1)
}

/// The pieces of a query string.
pub open spec fn pieces_of(pairs: Seq<(Seq<char>, Seq<char>)>) -> Seq<Seq<char>> {
    Seq::new(pairs.len(), |i: int| piece_of(pairs[i]))
}

/// The link to the list with these filters.
pub open spec fn href_text(q: QueryView, order: Option<Seq<char>>) -> Seq<char> {
    if link_pairs(q, order).len() == 0 {
        "/"@
    } else {
        "/?"@ + crate::text::joined(pieces_of(link_pairs(q, order)), "&"@)
    }
}

/// The link to another page with these filters.
pub open spec fn href_on_text(q: QueryView, path: Seq<char>) -> Seq<char> {
    if href_text(q, None) == "/"@ {
        path
    } else {
        path + href_text(q, None).skip(1)
    }
}

/// The order that a click on a column asks for: its own, or the reverse where that is in use.
pub open spec fn next_order(order: Option<Seq<char>>, key: Seq<char>) -> Seq<char> {
    if order == Some(key) {
        key + ".desc"@
    } else {
        key
    }
}

/// The arrow beside a column: up where the list is sorted by it, down for the reverse.
pub open spec fn marker_text(order: Option<Seq<char>>, key: Seq<char>) -> Seq<char> {
    if order == Some(key) {
        " \u{2191}"@
    } else if order == Some(key + ".desc"@) {
        " \u{2193}"@
    } else {
        ""@
    }
}

// -- filters ----------------------------------------------------------------

/// The list filters that a request may set.
#[derive(Debug, PartialEq, Eq)]
pub struct ListQuery {
    pub status: Option<String>,
    pub state: Option<String>,
    pub tags: Vec<String>,
    pub assigned: Option<String>,
    pub search: Option<String>,
    pub order: Option<String>,
    pub all: bool,
    pub subissues: bool,
}

impl View for ListQuery {
    type V = QueryView;

    open spec fn view(&self) -> QueryView {
        QueryView {
            status: self.status.deep_view(),
            state: self.state.deep_view(),
            tags: self.tags.deep_view(),
            assigned: self.assigned.deep_view(),
            search: self.search.deep_view(),
            order: self.order.deep_view(),
            all: self.all,
            subissues: self.subissues,
        }
    }
}

impl Default for ListQuery {
    fn default() -> (r: ListQuery)
        ensures
            r@ == empty_query(),
    {
        let r = ListQuery {
            status: None,
            state: None,
            tags: Vec::new(),
            assigned: None,
            search: None,
            order: None,
            all: false,
            subissues: false,
        };
        assert(r@.tags =~= Seq::<Seq<char>>::empty());
        r
    }
}

/// A copy of an optional text.
pub fn copy_option(value: &Option<String>) -> (r: Option<String>)
    ensures
        r.deep_view() == value.deep_view(),
{
    match value {
        Some(v) => Some(v.clone()),
        None => None,
    }
}

/// A copy of a list of texts.
pub fn copy_texts(texts: &Vec<String>) -> (r: Vec<String>)
    ensures
        r.deep_view() == texts.deep_view(),
{
    let mut out: Vec<String> = Vec::new();
    let mut i: usize = 0;
    while i < texts.len()
        invariant
            i <= texts@.len(),
            out.deep_view() == texts.deep_view().take(i as int),
        decreases texts@.len() - i,
    {
        let ghost before = out.deep_view();
        out.push(texts[i].clone());
        assert(out.deep_view() =~= before.push(texts@[i as int]@));
        assert(out.deep_view() =~= texts.deep_view().take(i + 1));
        i = i + 1;
    }
    assert(texts.deep_view().take(i as int) =~= texts.deep_view());
    out
}

impl Clone for ListQuery {
    fn clone(&self) -> (r: ListQuery)
        ensures
            r@ == self@,
    {
        ListQuery {
            status: copy_option(&self.status),
            state: copy_option(&self.state),
            tags: copy_texts(&self.tags),
            assigned: copy_option(&self.assigned),
            search: copy_option(&self.search),
            order: copy_option(&self.order),
            all: self.all,
            subissues: self.subissues,
        }
    }
}

/// Whether an optional text is set to `text`.
pub fn is_set_to(value: &Option<String>, text: &str) -> (r: bool)
    ensures
        r == (value.deep_view() == Some(text@)),
{
    match value {
        Some(v) => same(v.as_str(), text),
        None => false,
    }
}

/// Adds a pair where the value is set.
fn push_filter(pairs: &mut Vec<(String, String)>, key: &str, value: &Option<String>)
    ensures
        final(pairs).deep_view() == old(pairs).deep_view() + filter_pair(key@, value.deep_view()),
{
    if let Some(v) = value {
        pairs.push((key.to_owned(), v.clone()));
    }
    assert(pairs.deep_view() =~= old(pairs).deep_view() + filter_pair(key@, value.deep_view()));
}

/// Adds a pair where the switch is on.
fn push_switch(pairs: &mut Vec<(String, String)>, key: &str, on: bool)
    ensures
        final(pairs).deep_view() == old(pairs).deep_view() + switch_pair(key@, on),
{
    if on {
        pairs.push((key.to_owned(), "1".to_owned()));
    }
    assert(pairs.deep_view() =~= old(pairs).deep_view() + switch_pair(key@, on));
}

impl ListQuery {
    /// The filters that a request sets.
    pub fn from_request(request: &Request) -> (r: ListQuery)
        ensures
            r@ == query_of(request@),
    {
        let values = request.param_values("tag");
        let ghost all = values.deep_view();
        let mut tags: Vec<String> = Vec::new();
        let mut i: usize = 0;
        assert(tags.deep_view() =~= Seq::<Seq<char>>::empty());
        while i < values.len()
            invariant
                i <= values@.len(),
                all == values.deep_view(),
                tags.deep_view() == not_blank(all.take(i as int)),
            decreases values@.len() - i,
        {
            let ghost before = tags.deep_view();
            assert(all.take(i + 1).drop_last() =~= all.take(i as int));
            if !trim(values[i].as_str()).as_str().is_empty() {
                tags.push(values[i].clone());
                assert(tags.deep_view() =~= before.push(values@[i as int]@));
            }
            i = i + 1;
        }
        assert(all.take(i as int) =~= all);
        ListQuery {
            status: clean(request.param("status")),
            state: clean(request.param("state")),
            tags,
            assigned: clean(request.param("assigned")),
            search: clean(request.param("q")),
            order: clean(request.param("order")),
            all: request.flag("all"),
            subissues: request.flag("subissues"),
        }
    }

    /// The link to the list with these filters, sorted by `order` where it is given.
    pub fn href(&self, order: Option<&str>) -> (r: String)
        ensures
            r@ == href_text(
                self@,
                match order {
                    Some(o) => Some(o@),
                    None => None,
                },
            ),
    {
        let mut pairs: Vec<(String, String)> = Vec::new();
        assert(pairs.deep_view() =~= Seq::<(Seq<char>, Seq<char>)>::empty());
        push_filter(&mut pairs, "status", &self.status);
        push_filter(&mut pairs, "state", &self.state);
        let ghost before = pairs.deep_view();
        assert(before =~= filter_pair("status"@, self@.status) + filter_pair(
            "state"@,
            self@.state,
        ));
        let mut i: usize = 0;
        while i < self.tags.len()
            invariant
                i <= self.tags@.len(),
                pairs.deep_view() == before + tag_pairs(self@.tags).take(i as int),
            decreases self.tags@.len() - i,
        {
            let ghost prior = pairs.deep_view();
            pairs.push(("tag".to_owned(), self.tags[i].clone()));
            assert(pairs.deep_view() =~= prior.push(("tag"@, self.tags@[i as int]@)));
            assert(pairs.deep_view() =~= before + tag_pairs(self@.tags).take(i + 1));
            i = i + 1;
        }
        assert(tag_pairs(self@.tags).take(i as int) =~= tag_pairs(self@.tags));
        push_filter(&mut pairs, "assigned", &self.assigned);
        push_filter(&mut pairs, "q", &self.search);
        push_switch(&mut pairs, "all", self.all);
        push_switch(&mut pairs, "subissues", self.subissues);
        let order = match order {
            Some(o) => Some(o.to_owned()),
            None => copy_option(&self.order),
        };
        push_filter(&mut pairs, "order", &order);
        if pairs.is_empty() {
            return "/".to_owned();
        }
        let ghost all = pairs.deep_view();
        let mut parts: Vec<String> = Vec::new();
        let mut j: usize = 0;
        assert(parts.deep_view() =~= pieces_of(all).take(0));
        while j < pairs.len()
            invariant
                j <= pairs@.len(),
                all == pairs.deep_view(),
                parts.deep_view() == pieces_of(all).take(j as int),
            decreases pairs@.len() - j,
        {
            let ghost prior = parts.deep_view();
            let mut piece = pairs[j].0.clone();
            out_push(&mut piece, "=");
            out_push(&mut piece, percent_encode(pairs[j].1.as_str()).as_str());
            assert(all[j as int] == (pairs@[j as int].0@, pairs@[j as int].1@));
            assert(piece@ == piece_of(all[j as int]));
            parts.push(piece);
            assert(parts.deep_view() =~= prior.push(piece_of(all[j as int])));
            assert(parts.deep_view() =~= pieces_of(all).take(j + 1));
            j = j + 1;
        }
        assert(pieces_of(all).take(j as int) =~= pieces_of(all));
        let mut out = "/?".to_owned();
        out_push(&mut out, join(&parts, "&").as_str());
        out
    }

    /// The link to another page with these filters.
    pub fn href_on(&self, path: &str) -> (r: String)
        ensures
            r@ == href_on_text(self@, path@),
    {
        let base = self.href(None);
        if same(base.as_str(), "/") {
            return path.to_owned();
        }
        let chars = chars_of(base.as_str());
        proof {
            reveal_strlit("/?");
            assert(chars@.len() >= 2);
            assert(chars@.subrange(1, chars@.len() as int) =~= chars@.skip(1));
        }
        let mut out = path.to_owned();
        out_push(&mut out, text_between(&chars, 1, chars.len()).as_str());
        out
    }

    /// The link of a column: sorts by it, or the other way round where that is done already.
    pub fn order_href(&self, key: &str) -> (r: String)
        ensures
            r@ == href_text(self@, Some(next_order(self@.order, key@))),
    {
        if is_set_to(&self.order, key) {
            let mut next = key.to_owned();
            out_push(&mut next, ".desc");
            self.href(Some(next.as_str()))
        } else {
            self.href(Some(key))
        }
    }

    /// The arrow beside a column.
    pub fn order_marker(&self, key: &str) -> (r: &'static str)
        ensures
            r@ == marker_text(self@.order, key@),
    {
        let mut reverse = key.to_owned();
        out_push(&mut reverse, ".desc");
        if is_set_to(&self.order, key) {
            " \u{2191}"
        } else if is_set_to(&self.order, reverse.as_str()) {
            " \u{2193}"
        } else {
            ""
        }
    }
}

// -- what the store is asked for --------------------------------------------

/// A status and a state that belong together.
#[derive(Debug, Clone, PartialEq, Eq)]
pub struct TicketLifecycle {
    pub status: TicketStatus,
    pub state: TicketState,
}

/// What the store makes of the filters that are spelled in its own language. An outcome is looked
/// at only where its filter is set; an error is the message to show.
pub struct ParsedFilters {
    /// The status filter, read as a status.
    pub status: Result<TicketStatus, String>,
    /// The state filter, read as a lifecycle.
    pub lifecycle: Result<TicketLifecycle, String>,
    /// Whether the state filter reads as a mere status.
    pub state_is_status: bool,
    /// Whether the sort order is known.
    pub order_is_known: bool,
    /// The search filter, read as a search.
    pub search: Result<(), String>,
}

/// What the store is asked for.
#[derive(Debug, Clone, PartialEq, Eq)]
pub struct Filter {
    pub status: Option<TicketStatus>,
    pub state: Option<TicketState>,
    pub tag: Option<String>,
    pub tags: Vec<String>,
    pub tag_match_all: bool,
    pub assigned: Option<String>,
    pub only_tagged: bool,
    pub search: Option<String>,
    pub order: Option<String>,
    pub hide_subissues: bool,
}

/// What the store is asked for, as mathematical values.
#[verifier::ext_equal]
pub struct FilterView {
    pub status: Option<TicketStatus>,
    pub state: Option<(Seq<char>, TicketStatus)>,
    pub tag: Option<Seq<char>>,
    pub tags: Seq<Seq<char>>,
    pub tag_match_all: bool,
    pub assigned: Option<Seq<char>>,
    pub only_tagged: bool,
    pub search: Option<Seq<char>>,
    pub order: Option<Seq<char>>,
    pub hide_subissues: bool,
}

impl View for Filter {
    type V = FilterView;

    open spec fn view(&self) -> FilterView {
        FilterView {
            status: self.status,
            state: match self.state {
                Some(s) => Some(s@),
                None => None,
            },
            tag: self.tag.deep_view(),
            tags: self.tags.deep_view(),
            tag_match_all: self.tag_match_all,
            assigned: self.assigned.deep_view(),
            only_tagged: self.only_tagged,
            search: self.search.deep_view(),
            order: self.order.deep_view(),
            hide_subissues: self.hide_subissues,
        }
    }
}

/// The message about a sort order that nobody knows.
pub open spec fn unknown_order_text(order: Seq<char>) -> Seq<char> {
    "unknown sort order `"@ + order + "`"@
}

/// The message of the first filter that the store cannot read: the status, the state, the order,
/// the search.
pub open spec fn filter_error(q: QueryView, parsed: ParsedFilters) -> Option<Seq<char>> {
    if q.status is Some && q.status != Some("all"@) && parsed.status is Err {
        Some(parsed.status->Err_0@)
    } else if q.state is Some && parsed.lifecycle is Err {
        Some(parsed.lifecycle->Err_0@)
    } else if q.order is Some && !parsed.order_is_known {
        Some(unknown_order_text(q.order->0))
    } else if q.search is Some && parsed.search is Err {
        Some(parsed.search->Err_0@)
    } else {
        None
    }
}

/// The status to ask for: that of the state filter, or the status filter, or open tickets.
pub open spec fn filter_status(q: QueryView, parsed: ParsedFilters) -> Option<TicketStatus> {
    if q.state is Some {
        Some(parsed.lifecycle->Ok_0.status)
    } else if q.status == Some("all"@) {
        None
    } else if q.status is Some {
        Some(parsed.status->Ok_0)
    } else if q.all {
        None
    } else {
        Some(TicketStatus::Open)
    }
}

/// What the store is asked for, where it can read all filters.
pub open spec fn filter_of(q: QueryView, parsed: ParsedFilters) -> FilterView {
    FilterView {
        status: filter_status(q, parsed),
        state: if q.state is Some && !parsed.state_is_status {
            Some(parsed.lifecycle->Ok_0.state@)
        } else {
            None
        },
        tag: if q.tags.len() > 0 {
            Some(q.tags[0])
        } else {
            None
        },
        tags: q.tags,
        tag_match_all: true,
        assigned: q.assigned,
        only_tagged: false,
        search: q.search,
        order: q.order,
        hide_subissues: !(q.subissues || q.all),
    }
}

/// Whether the list can hold closed tickets: it can unless the store is asked for open ones alone. A
/// list that the store cannot be asked for holds none.
pub open spec fn may_show_closed(q: QueryView, parsed: ParsedFilters) -> bool {
    filter_error(q, parsed) is None && filter_status(q, parsed) != Some(TicketStatus::Open)
}

impl ListQuery {
    /// What the store is asked for: open tickets unless the filters say otherwise.
    pub fn filter(&self, parsed: &ParsedFilters) -> (r: Result<Filter, String>)
        ensures
            match filter_error(self@, *parsed) {
                Some(message) => r is Err && r->Err_0@ == message,
                None => r is Ok && r->Ok_0@ == filter_of(self@, *parsed),
            },
    {
        let mut status: Option<TicketStatus> = None;
        if self.status.is_some() {
            if !is_set_to(&self.status, "all") {
                match &parsed.status {
                    Ok(s) => {
                        status = Some(*s);
                    },
                    Err(message) => {
                        return Err(message.clone());
                    },
                }
            }
        } else if !self.all && self.state.is_none() {
            status = Some(TicketStatus::Open);
        }
        let mut state: Option<TicketState> = None;
        if self.state.is_some() {
            match &parsed.lifecycle {
                Ok(lifecycle) => {
                    status = Some(lifecycle.status);
                    if !parsed.state_is_status {
                        state = Some(lifecycle.state.copy());
                    }
                },
                Err(message) => {
                    return Err(message.clone());
                },
            }
        }
        if let Some(spec_text) = &self.order {
            if !parsed.order_is_known {
                let mut message = "unknown sort order `".to_owned();
                out_push(&mut message, spec_text.as_str());
                out_push(&mut message, "`");
                return Err(message);
            }
        }
        if self.search.is_some() {
            if let Err(message) = &parsed.search {
                return Err(message.clone());
            }
        }
        let tag = if self.tags.len() > 0 {
            Some(self.tags[0].clone())
        } else {
            None
        };
        Ok(
            Filter {
                status,
                state,
                tag,
                tags: copy_texts(&self.tags),
                tag_match_all: true,
                assigned: copy_option(&self.assigned),
                only_tagged: false,
                search: copy_option(&self.search),
                order: copy_option(&self.order),
                hide_subissues: !(self.subissues || self.all),
            },
        )
    }

    /// What the store is asked for on behalf of the list and its JSON form, which always hold
    /// the sub-issues.
    pub fn list_filter(&self, parsed: &ParsedFilters) -> (r: Result<Filter, String>)
        ensures
            match filter_error(self@, *parsed) {
                Some(message) => r is Err && r->Err_0@ == message,
                None => r is Ok && r->Ok_0@ == (FilterView {
                    hide_subissues: false,
                    ..filter_of(self@, *parsed)
                }),
            },
    {
        match self.filter(parsed) {
            Ok(filter) => {
                let mut filter = filter;
                filter.hide_subissues = false;
                Ok(filter)
            },
            Err(message) => Err(message),
        }
    }

    /// Whether the list can hold closed tickets, in which case it shows their states.
    pub fn shows_closed(&self, parsed: &ParsedFilters) -> (r: bool)
        ensures
            r == may_show_closed(self@, *parsed),
    {
        match self.filter(parsed) {
            Ok(filter) => match filter.status {
                Some(status) => status != TicketStatus::Open,
                None => true,
            },
            Err(_) => false,
        }
    }
}

// -- laws -------------------------------------------------------------------

/// Each filter is read from the parameter of its own name: the status, the state, the tags, the
/// assignee, the order and the two switches from theirs, and the search from `q`.
pub proof fn each_filter_has_its_own_parameter(
    request: &Request,
    r: ListQuery,
    status: Option<&str>,
    state: Option<&str>,
    assigned: Option<&str>,
    search: Option<&str>,
    order: Option<&str>,
    all: bool,
    subissues: bool,
    tags: Vec<String>,
)
    requires
        call_ensures(ListQuery::from_request, (request,), r),
        call_ensures(Request::param, (request, "status"), status),
        call_ensures(Request::param, (request, "state"), state),
        call_ensures(Request::param, (request, "assigned"), assigned),
        call_ensures(Request::param, (request, "q"), search),
        call_ensures(Request::param, (request, "order"), order),
        call_ensures(Request::flag, (request, "all"), all),
        call_ensures(Request::flag, (request, "subissues"), subissues),
        call_ensures(Request::param_values, (request, "tag"), tags),
    ensures
        is_trimmed_value(r.status, status),
        is_trimmed_value(r.state, state),
        is_trimmed_value(r.assigned, assigned),
        is_trimmed_value(r.search, search),
        is_trimmed_value(r.order, order),
        r.all == all,
        r.subissues == subissues,
        r.tags.deep_view() == tags.deep_view().filter(
            |tag: Seq<char>| crate::text::trimmed(tag).len() > 0,
        ),
{
    lemma_not_blank_is_a_filter(crate::request::all_values(request@.params, "tag"@));
}

/// Whether a filter is what a parameter says, without the white space around it; one that says
/// nothing sets none.
pub open spec fn is_trimmed_value(filter: Option<String>, value: Option<&str>) -> bool {
    match value {
        Some(v) => if crate::text::trimmed(v@).len() > 0 {
            filter matches Some(text) && text@ == crate::text::trimmed(v@)
        } else {
            filter is None
        },
        None => filter is None,
    }
}

proof fn lemma_not_blank_is_a_filter(texts: Seq<Seq<char>>)
    ensures
        not_blank(texts) == texts.filter(|tag: Seq<char>| crate::text::trimmed(tag).len() > 0),
    decreases texts.len(),
{
    reveal(Seq::filter);
    if texts.len() > 0 {
        lemma_not_blank_is_a_filter(texts.drop_last());
    }
}

/// Without filters the store is asked for the open tickets, and for nothing less; the sub-issues are
/// left to their parents.
pub proof fn without_filters_the_open_tickets_are_asked_for(
    parsed: &ParsedFilters,
    query: ListQuery,
    r: Result<Filter, String>,
)
    requires
        call_ensures(ListQuery::default, (), query),
        call_ensures(ListQuery::filter, (&query, parsed), r),
    ensures
        r matches Ok(f) && f.status == Some(TicketStatus::Open) && f.state is None && f.tag is None
            && f.tags@.len() == 0 && f.assigned is None && !f.only_tagged && f.search is None
            && f.order is None && f.hide_subissues,
{
    if let Ok(f) = r {
        assert(f@.tags.len() == f.tags@.len());
    }
}

/// The store is asked for what the filters say, each filter for itself: for tickets with all of the
/// tags, of the assignee, that the search finds, in the order.
pub proof fn the_store_is_asked_for_each_filter(
    query: &ListQuery,
    parsed: &ParsedFilters,
    r: Result<Filter, String>,
)
    requires
        call_ensures(ListQuery::filter, (query, parsed), r),
        r is Ok,
    ensures
        r->Ok_0.tags.deep_view() == query.tags.deep_view(),
        query.tags@.len() > 0 ==> (r->Ok_0.tag matches Some(tag) && tag@ == query.tags@[0]@),
        query.tags@.len() == 0 ==> r->Ok_0.tag is None,
        r->Ok_0.tag_match_all,
        !r->Ok_0.only_tagged,
        r->Ok_0.assigned.deep_view() == query.assigned.deep_view(),
        r->Ok_0.search.deep_view() == query.search.deep_view(),
        r->Ok_0.order.deep_view() == query.order.deep_view(),
        r->Ok_0.hide_subissues <==> !query.subissues && !query.all,
{
    assert(query.tags.deep_view().len() == query.tags@.len());
    if query.tags@.len() > 0 {
        assert(query.tags.deep_view()[0] == query.tags@[0]@);
    }
}

/// A state asks for the tickets in that state and with its status, whatever status is asked for
/// besides; one that reads as a mere status asks for that alone.
pub proof fn a_state_decides_over_the_status(
    query: &ListQuery,
    parsed: &ParsedFilters,
    r: Result<Filter, String>,
)
    requires
        call_ensures(ListQuery::filter, (query, parsed), r),
        r is Ok,
        query.state is Some,
    ensures
        parsed.lifecycle is Ok,
        r->Ok_0.status == Some(parsed.lifecycle->Ok_0.status),
        parsed.state_is_status ==> r->Ok_0.state is None,
        !parsed.state_is_status ==> (r->Ok_0.state matches Some(state) && state.name@
            == parsed.lifecycle->Ok_0.state.name@ && state.status
            == parsed.lifecycle->Ok_0.state.status),
{
}

/// Without a state the status decides: `all` asks for every ticket, another status for its own
/// tickets. Where no status is set either, all tickets are asked for if `all` is on, and the open
/// ones if it is not.
pub proof fn the_status_decides_without_a_state(
    query: &ListQuery,
    parsed: &ParsedFilters,
    r: Result<Filter, String>,
)
    requires
        call_ensures(ListQuery::filter, (query, parsed), r),
        r is Ok,
        query.state is None,
    ensures
        r->Ok_0.state is None,
        match query.status {
            Some(status) => if status@ == "all"@ {
                r->Ok_0.status is None
            } else {
                parsed.status matches Ok(wanted) && r->Ok_0.status == Some(wanted)
            },
            None => if query.all {
                r->Ok_0.status is None
            } else {
                r->Ok_0.status == Some(TicketStatus::Open)
            },
        },
{
}

/// A filter that the store cannot read is an error, with the message of the first such filter, and
/// nothing else is.
pub proof fn unreadable_filters_are_errors(
    query: &ListQuery,
    parsed: &ParsedFilters,
    r: Result<Filter, String>,
)
    requires
        call_ensures(ListQuery::filter, (query, parsed), r),
    ensures
        ({
            let bad_status = query.status matches Some(status) && status@ != "all"@
                && parsed.status is Err;
            let bad_state = query.state is Some && parsed.lifecycle is Err;
            let bad_order = query.order is Some && !parsed.order_is_known;
            let bad_search = query.search is Some && parsed.search is Err;
            &&& r is Err <==> bad_status || bad_state || bad_order || bad_search
            &&& bad_status ==> r->Err_0@ == parsed.status->Err_0@
            &&& !bad_status && bad_state ==> r->Err_0@ == parsed.lifecycle->Err_0@
            &&& !bad_status && !bad_state && bad_order ==> r->Err_0@ == "unknown sort order `"@
                + query.order->0@ + "`"@
            &&& !bad_status && !bad_state && !bad_order && bad_search ==> r->Err_0@
                == parsed.search->Err_0@
        }),
{
}

/// The list and its JSON form ask for the same as the board, but always with the sub-issues.
pub proof fn lists_hold_the_sub_issues(
    query: &ListQuery,
    parsed: &ParsedFilters,
    board: Result<Filter, String>,
    list: Result<Filter, String>,
)
    requires
        call_ensures(ListQuery::filter, (query, parsed), board),
        call_ensures(ListQuery::list_filter, (query, parsed), list),
    ensures
        match board {
            Ok(filter) => list matches Ok(other) && !other.hide_subissues && other@ == (
            FilterView { hide_subissues: false, ..filter@ }),
            Err(message) => list matches Err(other) && other@ == message@,
        },
{
}

/// The states are shown where the store is asked for other than open tickets.
pub proof fn states_are_shown_with_closed_tickets(
    query: &ListQuery,
    parsed: &ParsedFilters,
    shows: bool,
    list: Result<Filter, String>,
)
    requires
        call_ensures(ListQuery::shows_closed, (query, parsed), shows),
        call_ensures(ListQuery::list_filter, (query, parsed), list),
    ensures
        shows <==> (list matches Ok(filter) && filter.status != Some(TicketStatus::Open)),
{
}

/// A link carries each filter in use as a parameter of its own name, in one order, and nothing else.
pub proof fn links_carry_each_filter(query: &ListQuery, order: Option<&str>, r: String) -> (pairs:
    Seq<(Seq<char>, Seq<char>)>)
    requires
        call_ensures(ListQuery::href, (query, order), r),
    ensures
        r@ == if pairs.len() == 0 {
            "/"@
        } else {
            "/?"@ + crate::text::joined(
                Seq::new(
                    pairs.len(),
                    |i: int| pairs[i].0 + "="@ + crate::percent::percent_encoded(pairs[i].1),
                ),
                "&"@,
            )
        },
        crate::request::first_value(pairs, "status"@) == query.status.deep_view(),
        crate::request::first_value(pairs, "state"@) == query.state.deep_view(),
        crate::request::all_values(pairs, "tag"@) == query.tags.deep_view(),
        crate::request::first_value(pairs, "assigned"@) == query.assigned.deep_view(),
        crate::request::first_value(pairs, "q"@) == query.search.deep_view(),
        crate::request::first_value(pairs, "all"@) == if query.all {
            Some("1"@)
        } else {
            None
        },
        crate::request::first_value(pairs, "subissues"@) == if query.subissues {
            Some("1"@)
        } else {
            None
        },
        crate::request::first_value(pairs, "order"@) == (match order {
            Some(wanted) => Some(wanted@),
            None => query.order.deep_view(),
        }),
{
    let asked = match order {
        Some(o) => Some(o@),
        None => None,
    };
    let pairs = link_pairs(query@, asked);
    crate::roundtrip::lemma_link_lookup(query@, asked, "status"@);
    crate::roundtrip::lemma_link_lookup(query@, asked, "state"@);
    crate::roundtrip::lemma_link_lookup(query@, asked, "tag"@);
    crate::roundtrip::lemma_link_lookup(query@, asked, "assigned"@);
    crate::roundtrip::lemma_link_lookup(query@, asked, "q"@);
    crate::roundtrip::lemma_link_lookup(query@, asked, "all"@);
    crate::roundtrip::lemma_link_lookup(query@, asked, "subissues"@);
    crate::roundtrip::lemma_link_lookup(query@, asked, "order"@);
    crate::roundtrip::lemma_keys_differ();
    assert(pieces_of(pairs) =~= Seq::new(
        pairs.len(),
        |i: int| pairs[i].0 + "="@ + crate::percent::percent_encoded(pairs[i].1),
    ));
    pairs
}

/// The link of a column asks for the order of its key, or for the reverse where that is in use, and
/// the arrow tells which one is.
pub proof fn columns_ask_for_their_order(
    query: &ListQuery,
    key: &str,
    link: String,
    arrow: &'static str,
    order: &str,
    plain: String,
)
    requires
        call_ensures(ListQuery::order_href, (query, key), link),
        call_ensures(ListQuery::order_marker, (query, key), arrow),
        order@ == if query.order.deep_view() == Some(key@) {
            key@ + ".desc"@
        } else {
            key@
        },
        call_ensures(ListQuery::href, (query, Some(order)), plain),
    ensures
        link@ == plain@,
        query.order.deep_view() == Some(key@) ==> arrow@ == " \u{2191}"@,
        query.order.deep_view() == Some(key@ + ".desc"@) ==> arrow@ == " \u{2193}"@,
        query.order.deep_view() != Some(key@) && query.order.deep_view() != Some(key@ + ".desc"@)
            ==> arrow@.len() == 0,
{
    reveal_strlit(".desc");
    reveal_strlit("");
    assert((key@ + ".desc"@).len() > key@.len());
}

/// Each view has its own caption and its own address.
pub proof fn each_view_has_its_own_address(view: ViewMode, label: &'static str, path: &'static str)
    requires
        call_ensures(ViewMode::label, (view,), label),
        call_ensures(ViewMode::path, (view,), path),
    ensures
        match view {
            ViewMode::List => label@ == "List"@ && path@ == "/"@,
            ViewMode::Kanban => label@ == "Kanban"@ && path@ == "/kanban"@,
        },
{
}

/// The link to another page carries the same parameters as the link to the list.
pub proof fn links_to_other_pages_carry_the_same(
    query: &ListQuery,
    path: &str,
    r: String,
    list: String,
    parameters: Seq<char>,
)
    requires
        call_ensures(ListQuery::href_on, (query, path), r),
        call_ensures(ListQuery::href, (query, None), list),
        list@ == "/"@ + parameters,
    ensures
        r@ == path@ + parameters,
{
    reveal_strlit("/");
    assert(list@.skip(1) =~= parameters);
    if list@ == "/"@ {
        assert(parameters =~= Seq::<char>::empty());
        assert(path@ + parameters =~= path@);
    }
}

} // verus!
