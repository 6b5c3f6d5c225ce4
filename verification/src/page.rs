//! What every page shares: the server it is made for, and the header with its navigation.

use vstd::prelude::*;
use vstd::string::*;

use crate::html::escape;
use crate::html::filter_chip;
use crate::html::hidden_input;
use crate::html::tag_hue;
use crate::number::count_text;
use crate::query::ListQuery;
use crate::query::ViewMode;
use crate::text::join;
use crate::text::out_push;
use crate::text::same;
use crate::ticket::Ticket;

verus! {

// -- context ----------------------------------------------------------------

/// What every request to a server shares: whether it accepts edits, and the token that an edit
/// form has to echo.
#[derive(Debug, Clone, PartialEq, Eq)]
pub struct Server {
    pub edit: bool,
    pub csrf: String,
}

/// What a page is made for: the repository, the person who looks at it, and the edit forms.
#[derive(Debug, Clone, PartialEq, Eq)]
pub struct Page {
    pub repo: String,
    pub current_user: String,
    pub edit: bool,
    pub csrf: String,
}

impl Page {
    /// The context of a page of `server`.
    pub fn new(repo: String, current_user: String, server: &Server) -> (r: Page)
        ensures
            r.repo@ == repo@,
            r.current_user@ == current_user@,
            r.edit == server.edit,
            r.csrf@ == server.csrf@,
    {
        Page { repo, current_user, edit: server.edit, csrf: server.csrf.clone() }
    }
}

// -- tags -------------------------------------------------------------------

/// The filters narrowed to a tag as well.
pub open spec fn with_tag(q: crate::query::QueryView, tag: Seq<char>) -> crate::query::QueryView {
    if q.tags.contains(tag) {
        q
    } else {
        crate::query::QueryView { tags: q.tags.push(tag), ..q }
    }
}

/// A tag that links to the list narrowed to it.
pub open spec fn tag_chip_html(q: crate::query::QueryView, tag: Seq<char>) -> Seq<char> {
    "<a class=\"tag tag-"@ + crate::number::decimal(crate::html::hue(tag) as int) + "\" href=\""@
        + crate::html::escaped(crate::query::href_text(with_tag(q, tag), None)) + "\">"@
        + crate::html::escaped(tag) + "</a>"@
}

/// A chip for each tag, with spaces between them.
pub open spec fn tag_chips_html(q: crate::query::QueryView, tags: Seq<Seq<char>>) -> Seq<char> {
    crate::text::joined(Seq::new(tags.len(), |i: int| tag_chip_html(q, tags[i])), " "@)
}

/// Whether `texts` holds `text`.
pub fn holds(texts: &Vec<String>, text: &str) -> (r: bool)
    ensures
        r == texts.deep_view().contains(text@),
{
    let mut i: usize = 0;
    while i < texts.len()
        invariant
            i <= texts@.len(),
            forall|j: int| 0 <= j < i ==> #[trigger] texts.deep_view()[j] != text@,
        decreases texts@.len() - i,
    {
        assert(texts.deep_view()[i as int] == texts@[i as int]@);
        if same(texts[i].as_str(), text) {
            return true;
        }
        i = i + 1;
    }
    false
}

/// A tag that links to the list narrowed to it.
pub fn tag_chip(query: &ListQuery, tag: &str) -> (r: String)
    ensures
        r@ == tag_chip_html(query@, tag@),
{
    let mut scoped = query.clone();
    if !holds(&scoped.tags, tag) {
        let ghost before = scoped.tags.deep_view();
        scoped.tags.push(tag.to_owned());
        assert(scoped.tags.deep_view() =~= before.push(tag@));
    }
    assert(scoped@ == with_tag(query@, tag@));
    let mut out = "<a class=\"tag tag-".to_owned();
    out_push(&mut out, count_text(tag_hue(tag)).as_str());
    out_push(&mut out, "\" href=\"");
    out_push(&mut out, escape(scoped.href(None).as_str()).as_str());
    out_push(&mut out, "\">");
    out_push(&mut out, escape(tag).as_str());
    out_push(&mut out, "</a>");
    out
}

/// The tags of a ticket, each linking to the list narrowed to it.
pub fn tag_chips(query: &ListQuery, ticket: &Ticket) -> (r: String)
    ensures
        r@ == tag_chips_html(query@, ticket.tags.deep_view()),
{
    let ghost tags = ticket.tags.deep_view();
    let ghost chips = Seq::new(tags.len(), |i: int| tag_chip_html(query@, tags[i]));
    let mut parts: Vec<String> = Vec::new();
    let mut i: usize = 0;
    while i < ticket.tags.len()
        invariant
            i <= ticket.tags@.len(),
            tags == ticket.tags.deep_view(),
            chips == Seq::new(tags.len(), |i: int| tag_chip_html(query@, tags[i])),
            parts.deep_view() == chips.take(i as int),
        decreases ticket.tags@.len() - i,
    {
        let ghost before = parts.deep_view();
        parts.push(tag_chip(query, ticket.tags[i].as_str()));
        assert(parts.deep_view() =~= before.push(tag_chip_html(query@, tags[i as int])));
        assert(parts.deep_view() =~= chips.take(i + 1));
        i = i + 1;
    }
    assert(chips.take(i as int) =~= chips);
    join(&parts, " ")
}

// -- active filters ---------------------------------------------------------

/// The texts other than `text`.
pub open spec fn other_than(text: Seq<char>) -> spec_fn(Seq<char>) -> bool {
    |t: Seq<char>| t != text
}

/// The filters without a tag.
pub open spec fn without_tag(q: crate::query::QueryView, tag: Seq<char>) -> crate::query::QueryView {
    crate::query::QueryView { tags: q.tags.filter(other_than(tag)), ..q }
}

/// A chip for each of the first `n` tags in use, each linking to the list without it.
pub open spec fn tag_filters_html(q: crate::query::QueryView, n: int) -> Seq<char>
    decreases n,
{
    if n <= 0 {
        Seq::empty()
    } else {
        tag_filters_html(q, n - 1) + crate::html::filter_chip_html(
            "tag:"@ + q.tags[n - 1],
            crate::query::href_text(without_tag(q, q.tags[n - 1]), None),
        )
    }
}

/// The chip for the assignee in use.
pub open spec fn assigned_filter_html(q: crate::query::QueryView) -> Seq<char> {
    match q.assigned {
        Some(assigned) => crate::html::filter_chip_html(
            "assigned:"@ + assigned,
            crate::query::href_text(crate::query::QueryView { assigned: None, ..q }, None),
        ),
        None => Seq::empty(),
    }
}

/// The chip for the search in use.
pub open spec fn search_filter_html(q: crate::query::QueryView) -> Seq<char> {
    match q.search {
        Some(search) => crate::html::filter_chip_html(
            "search:"@ + search,
            crate::query::href_text(crate::query::QueryView { search: None, ..q }, None),
        ),
        None => Seq::empty(),
    }
}

/// Chips for what narrows the list, each linking to the list without it.
pub open spec fn active_filters_html(q: crate::query::QueryView) -> Seq<char> {
    if q.tags.len() == 0 && q.assigned is None && q.search is None {
        Seq::empty()
    } else {
        "<div class=\"filters\">"@ + (tag_filters_html(q, q.tags.len() as int)
            + assigned_filter_html(q) + search_filter_html(q)) + "</div>"@
    }
}

/// The texts other than `text`, in order.
pub fn texts_without(texts: &Vec<String>, text: &str) -> (r: Vec<String>)
    ensures
        r.deep_view() == texts.deep_view().filter(other_than(text@)),
{
    let ghost keep = other_than(text@);
    let ghost all = texts.deep_view();
    let mut out: Vec<String> = Vec::new();
    let mut i: usize = 0;
    proof {
        reveal(Seq::filter);
        assert(all.take(0) =~= Seq::empty());
        assert(out.deep_view() =~= Seq::<Seq<char>>::empty());
    }
    while i < texts.len()
        invariant
            i <= texts@.len(),
            all == texts.deep_view(),
            keep == other_than(text@),
            out.deep_view() == all.take(i as int).filter(keep),
        decreases texts@.len() - i,
    {
        let ghost before = out.deep_view();
        proof {
            reveal(Seq::filter);
            assert(all.take(i + 1).drop_last() =~= all.take(i as int));
            assert(all.take(i + 1).last() == texts@[i as int]@);
        }
        if !same(texts[i].as_str(), text) {
            out.push(texts[i].clone());
            assert(out.deep_view() =~= before.push(texts@[i as int]@));
        }
        i = i + 1;
    }
    assert(all.take(i as int) =~= all);
    out
}

/// A text after a label.
fn labelled(label: &str, text: &str) -> (r: String)
    ensures
        r@ == label@ + text@,
{
    let mut out = label.to_owned();
    out_push(&mut out, text);
    out
}

/// Chips for what narrows the list, each linking to the list without it.
pub fn active_filters(query: &ListQuery) -> (r: String)
    ensures
        r@ == active_filters_html(query@),
{
    let mut chips = String::new();
    let mut i: usize = 0;
    while i < query.tags.len()
        invariant
            i <= query.tags@.len(),
            chips@ == tag_filters_html(query@, i as int),
        decreases query.tags@.len() - i,
    {
        assert(query@.tags[i as int] == query.tags@[i as int]@);
        let tag = query.tags[i].as_str();
        let mut without = query.clone();
        without.tags = texts_without(&query.tags, tag);
        assert(without@ == without_tag(query@, tag@));
        let label = labelled("tag:", tag);
        out_push(&mut chips, filter_chip(label.as_str(), without.href(None).as_str()).as_str());
        i = i + 1;
    }
    let ghost none = Seq::<char>::empty();
    if let Some(assigned) = &query.assigned {
        let mut without = query.clone();
        without.assigned = None;
        let label = labelled("assigned:", assigned.as_str());
        out_push(&mut chips, filter_chip(label.as_str(), without.href(None).as_str()).as_str());
    } else {
        assert(chips@ + none =~= chips@);
    }
    assert(chips@ == tag_filters_html(query@, query@.tags.len() as int) + assigned_filter_html(
        query@,
    ));
    if let Some(search) = &query.search {
        let mut without = query.clone();
        without.search = None;
        let label = labelled("search:", search.as_str());
        out_push(&mut chips, filter_chip(label.as_str(), without.href(None).as_str()).as_str());
    } else {
        assert(chips@ + none =~= chips@);
    }
    if query.tags.len() == 0 && query.assigned.is_none() && query.search.is_none() {
        return String::new();
    }
    let mut out = "<div class=\"filters\">".to_owned();
    out_push(&mut out, chips.as_str());
    out_push(&mut out, "</div>");
    out
}

// -- header -----------------------------------------------------------------

/// A link of the navigation.
pub open spec fn view_link_html(label: Seq<char>, href: Seq<char>, active: bool) -> Seq<char> {
    "<a class=\"view"@ + (if active {
        " active"@
    } else {
        ""@
    }) + "\" href=\""@ + crate::html::escaped(href) + "\">"@ + label + "</a>"@
}

/// The filters of the current person's tickets.
pub open spec fn mine_query(user: Seq<char>) -> crate::query::QueryView {
    crate::query::QueryView { assigned: Some(user), ..crate::query::empty_query() }
}

/// The filters of the closed tickets, the latest first.
pub open spec fn closed_query() -> crate::query::QueryView {
    crate::query::QueryView {
        status: Some("closed"@),
        order: Some("created.desc"@),
        ..crate::query::empty_query()
    }
}

/// The filters of all tickets.
pub open spec fn all_query() -> crate::query::QueryView {
    crate::query::QueryView { all: true, subissues: true, ..crate::query::empty_query() }
}

/// A link to a ready-made list, marked where it is the list shown.
pub open spec fn preset_html(
    label: Seq<char>,
    preset: crate::query::QueryView,
    q: crate::query::QueryView,
    view: ViewMode,
) -> Seq<char> {
    let href = crate::query::href_text(preset, None);
    view_link_html(
        label,
        href,
        href == crate::query::href_text(q, None) && view == ViewMode::List,
    )
}

/// The links to the ready-made lists.
pub open spec fn presets_html(
    user: Seq<char>,
    q: crate::query::QueryView,
    view: ViewMode,
) -> Seq<char> {
    preset_html("Open"@, crate::query::empty_query(), q, view) + preset_html(
        "Mine"@,
        mine_query(user),
        q,
        view,
    ) + preset_html("Closed"@, closed_query(), q, view) + preset_html("All"@, all_query(), q, view)
}

/// A link to a mode, marked where it is the mode shown.
pub open spec fn mode_html(mode: ViewMode, q: crate::query::QueryView, view: ViewMode) -> Seq<char> {
    view_link_html(
        mode.caption(),
        crate::query::href_on_text(q, mode.address()),
        mode == view,
    )
}

/// The hidden input for a filter in use.
pub open spec fn hidden_filter_html(name: Seq<char>, value: Option<Seq<char>>) -> Seq<char> {
    match value {
        Some(v) => crate::html::hidden_input_html(name, v),
        None => Seq::empty(),
    }
}

/// The hidden input for a switch that is on.
pub open spec fn hidden_switch_html(name: Seq<char>, on: bool) -> Seq<char> {
    if on {
        crate::html::hidden_input_html(name, "1"@)
    } else {
        Seq::empty()
    }
}

/// The hidden inputs for the first `n` tags.
pub open spec fn hidden_tags_html(tags: Seq<Seq<char>>, n: int) -> Seq<char>
    decreases n,
{
    if n <= 0 {
        Seq::empty()
    } else {
        hidden_tags_html(tags, n - 1) + crate::html::hidden_input_html("tag"@, tags[n - 1])
    }
}

/// The hidden inputs that keep the filters in use through a search.
pub open spec fn hidden_html(q: crate::query::QueryView) -> Seq<char> {
    hidden_filter_html("status"@, q.status) + hidden_filter_html("state"@, q.state)
        + hidden_tags_html(q.tags, q.tags.len() as int) + hidden_filter_html("assigned"@, q.assigned)
        + hidden_switch_html("all"@, q.all) + hidden_switch_html("subissues"@, q.subissues)
}

/// The text that the search field shows.
pub open spec fn search_text(q: crate::query::QueryView) -> Seq<char> {
    match q.search {
        Some(search) => search,
        None => Seq::empty(),
    }
}

/// The header of a list or a board.
pub open spec fn header_html(page: Page, q: crate::query::QueryView, view: ViewMode) -> Seq<char> {
    "<header><h1><a href=\"/\">"@ + crate::html::escaped(page.repo@) + "</a></h1><nav>"@
        + presets_html(page.current_user@, q, view) + "</nav><nav class=\"modes\">"@ + (mode_html(
        ViewMode::List,
        q,
        view,
    ) + mode_html(ViewMode::Kanban, q, view))
        + "</nav><form method=\"get\" action=\"/\">"@ + hidden_html(q)
        + "<input type=\"search\" name=\"q\" placeholder=\"search\" value=\""@
        + crate::html::escaped(search_text(q)) + "\"></form></header>"@ + active_filters_html(q)
}

/// A link of the navigation.
fn view_link(label: &str, href: &str, active: bool) -> (r: String)
    ensures
        r@ == view_link_html(label@, href@, active),
{
    let mut out = "<a class=\"view".to_owned();
    if active {
        out_push(&mut out, " active");
    } else {
        out_push(&mut out, "");
    }
    out_push(&mut out, "\" href=\"");
    out_push(&mut out, escape(href).as_str());
    out_push(&mut out, "\">");
    out_push(&mut out, label);
    out_push(&mut out, "</a>");
    out
}

/// A link to a ready-made list, marked where it is the list shown.
fn preset(label: &str, filters: &ListQuery, query: &ListQuery, view: ViewMode) -> (r: String)
    ensures
        r@ == preset_html(label@, filters@, query@, view),
{
    let href = filters.href(None);
    let current = query.href(None);
    let active = same(href.as_str(), current.as_str()) && view == ViewMode::List;
    view_link(label, href.as_str(), active)
}

/// The links to the ready-made lists.
fn presets(user: &str, query: &ListQuery, view: ViewMode) -> (r: String)
    ensures
        r@ == presets_html(user@, query@, view),
{
    let open = ListQuery::default();
    let mut mine = ListQuery::default();
    mine.assigned = Some(user.to_owned());
    let mut closed = ListQuery::default();
    closed.status = Some("closed".to_owned());
    closed.order = Some("created.desc".to_owned());
    let mut all = ListQuery::default();
    all.all = true;
    all.subissues = true;
    assert(mine@ == mine_query(user@));
    assert(closed@ == closed_query());
    assert(all@ == all_query());
    let mut out = preset("Open", &open, query, view);
    out_push(&mut out, preset("Mine", &mine, query, view).as_str());
    out_push(&mut out, preset("Closed", &closed, query, view).as_str());
    out_push(&mut out, preset("All", &all, query, view).as_str());
    out
}

/// A link to a mode, marked where it is the mode shown.
fn mode_link(mode: ViewMode, query: &ListQuery, view: ViewMode) -> (r: String)
    ensures
        r@ == mode_html(mode, query@, view),
{
    let href = query.href_on(mode.path());
    view_link(mode.label(), href.as_str(), mode == view)
}

/// The hidden input for a filter in use.
fn hidden_filter(name: &str, value: &Option<String>) -> (r: String)
    ensures
        r@ == hidden_filter_html(name@, value.deep_view()),
{
    match value {
        Some(v) => hidden_input(name, v.as_str()),
        None => String::new(),
    }
}

/// The hidden input for a switch that is on.
fn hidden_switch(name: &str, on: bool) -> (r: String)
    ensures
        r@ == hidden_switch_html(name@, on),
{
    if on {
        hidden_input(name, "1")
    } else {
        String::new()
    }
}

/// The hidden inputs that keep the filters in use through a search.
fn hidden_inputs(query: &ListQuery) -> (r: String)
    ensures
        r@ == hidden_html(query@),
{
    let mut tags = String::new();
    let mut i: usize = 0;
    while i < query.tags.len()
        invariant
            i <= query.tags@.len(),
            tags@ == hidden_tags_html(query@.tags, i as int),
        decreases query.tags@.len() - i,
    {
        assert(query@.tags[i as int] == query.tags@[i as int]@);
        out_push(&mut tags, hidden_input("tag", query.tags[i].as_str()).as_str());
        i = i + 1;
    }
    let mut out = hidden_filter("status", &query.status);
    out_push(&mut out, hidden_filter("state", &query.state).as_str());
    out_push(&mut out, tags.as_str());
    out_push(&mut out, hidden_filter("assigned", &query.assigned).as_str());
    out_push(&mut out, hidden_switch("all", query.all).as_str());
    out_push(&mut out, hidden_switch("subissues", query.subissues).as_str());
    out
}

/// The header of a list or a board.
pub fn header(page: &Page, query: &ListQuery, view: ViewMode) -> (r: String)
    ensures
        r@ == header_html(*page, query@, view),
{
    let mut modes = mode_link(ViewMode::List, query, view);
    out_push(&mut modes, mode_link(ViewMode::Kanban, query, view).as_str());
    let search = match &query.search {
        Some(search) => search.clone(),
        None => String::new(),
    };
    let mut out = "<header><h1><a href=\"/\">".to_owned();
    out_push(&mut out, escape(page.repo.as_str()).as_str());
    out_push(&mut out, "</a></h1><nav>");
    out_push(&mut out, presets(page.current_user.as_str(), query, view).as_str());
    out_push(&mut out, "</nav><nav class=\"modes\">");
    out_push(&mut out, modes.as_str());
    out_push(&mut out, "</nav><form method=\"get\" action=\"/\">");
    out_push(&mut out, hidden_inputs(query).as_str());
    out_push(&mut out, "<input type=\"search\" name=\"q\" placeholder=\"search\" value=\"");
    out_push(&mut out, escape(search.as_str()).as_str());
    out_push(&mut out, "\"></form></header>");
    out_push(&mut out, active_filters(query).as_str());
    out
}

// -- laws -------------------------------------------------------------------

/// The context of a page is that of its repository, its reader and its server.
pub proof fn a_page_knows_its_server(
    repo: String,
    current_user: String,
    server: &Server,
    r: Page,
)
    requires
        call_ensures(Page::new, (repo, current_user, server), r),
    ensures
        r.repo@ == repo@,
        r.current_user@ == current_user@,
        r.edit <==> server.edit,
        r.csrf@ == server.csrf@,
{
}

/// A tag shows its own name and links to the list that is narrowed to it as well, with all other
/// filters as they are.
pub proof fn a_tag_links_to_its_tickets(query: &ListQuery, tag: &str, r: String)
    requires
        call_ensures(tag_chip, (query, tag), r),
    ensures
        ({
            let q = query@;
            let narrowed = crate::query::QueryView {
                status: q.status,
                state: q.state,
                tags: if q.tags.contains(tag@) {
                    q.tags
                } else {
                    q.tags + seq![tag@]
                },
                assigned: q.assigned,
                search: q.search,
                order: q.order,
                all: q.all,
                subissues: q.subissues,
            };
            r@ == "<a class=\"tag tag-"@ + crate::number::decimal(crate::html::hue(tag@) as int)
                + "\" href=\""@ + crate::html::escaped(crate::query::href_text(narrowed, None))
                + "\">"@ + crate::html::escaped(tag@) + "</a>"@
        }),
{
    assert(query@.tags + seq![tag@] =~= query@.tags.push(tag@));
}

/// The tags of a ticket are shown one after the other, each by itself, and no others.
pub proof fn each_tag_is_shown(query: &ListQuery, ticket: &Ticket, r: String) -> (chips: Seq<
    Seq<char>,
>)
    requires
        call_ensures(tag_chips, (query, ticket), r),
    ensures
        chips.len() == ticket.tags@.len(),
        r@ == crate::text::joined(chips, " "@),
        forall|i: int, tag: &str, chip: String|
            0 <= i < chips.len() && tag@ == ticket.tags@[i]@ && #[trigger] call_ensures(
                tag_chip,
                (query, tag),
                chip,
            ) ==> #[trigger] chips[i] == chip@,
{
    let tags = ticket.tags.deep_view();
    let chips = Seq::new(tags.len(), |i: int| tag_chip_html(query@, tags[i]));
    assert forall|i: int, tag: &str, chip: String|
        0 <= i < chips.len() && tag@ == ticket.tags@[i]@ && #[trigger] call_ensures(
            tag_chip,
            (query, tag),
            chip,
        ) implies #[trigger] chips[i] == chip@ by {
        assert(tags[i] == ticket.tags@[i]@);
    }
    chips
}

/// Whether a text has a link with a label, marked where it is active.
pub open spec fn has_link(
    text: Seq<char>,
    label: Seq<char>,
    href: Seq<char>,
    active: bool,
) -> bool {
    crate::text::holds(
        text,
        "<a class=\"view"@ + (if active {
            " active"@
        } else {
            ""@
        }) + "\" href=\""@ + crate::html::escaped(href) + "\">"@ + label + "</a>"@,
    )
}

/// Whether a text has a link with a label to the list with some filters, marked where that is the
/// list shown.
pub open spec fn has_preset(
    text: Seq<char>,
    label: Seq<char>,
    filters: crate::query::QueryView,
    q: crate::query::QueryView,
    view: ViewMode,
) -> bool {
    has_link(
        text,
        label,
        crate::query::href_text(filters, None),
        view == ViewMode::List && crate::query::href_text(filters, None)
            == crate::query::href_text(q, None),
    )
}

/// The header leads to the open tickets, to those of the reader, to the closed ones with the latest
/// first, and to all of them with their sub-issues. The one that is shown is marked.
pub proof fn the_header_leads_to_the_lists(
    page: &Page,
    query: &ListQuery,
    view: ViewMode,
    r: String,
)
    requires
        call_ensures(header, (page, query, view), r),
    ensures
        ({
            let none = crate::query::QueryView {
                status: None,
                state: None,
                tags: Seq::empty(),
                assigned: None,
                search: None,
                order: None,
                all: false,
                subissues: false,
            };
            &&& has_preset(r@, "Open"@, none, query@, view)
            &&& has_preset(
                r@,
                "Mine"@,
                crate::query::QueryView { assigned: Some(page.current_user@), ..none },
                query@,
                view,
            )
            &&& has_preset(
                r@,
                "Closed"@,
                crate::query::QueryView {
                    status: Some("closed"@),
                    order: Some("created.desc"@),
                    ..none
                },
                query@,
                view,
            )
            &&& has_preset(
                r@,
                "All"@,
                crate::query::QueryView { all: true, subissues: true, ..none },
                query@,
                view,
            )
        }),
{
    broadcast use crate::text::group_holds;

    let q = query@;
    let user = page.current_user@;
    let text = presets_html(user, q, view);
    assert(crate::text::holds(text, preset_html("Open"@, crate::query::empty_query(), q, view)));
    assert(crate::text::holds(text, preset_html("Mine"@, mine_query(user), q, view)));
    assert(crate::text::holds(text, preset_html("Closed"@, closed_query(), q, view)));
    assert(crate::text::holds(text, preset_html("All"@, all_query(), q, view)));
}

/// The header names the repository, and leads to the list and to the board with the filters in use.
/// The one that is shown is marked.
pub proof fn the_header_leads_to_the_views(
    page: &Page,
    query: &ListQuery,
    view: ViewMode,
    r: String,
)
    requires
        call_ensures(header, (page, query, view), r),
    ensures
        crate::text::holds(
            r@,
            "<header><h1><a href=\"/\">"@ + crate::html::escaped(page.repo@)
                + "</a></h1><nav>"@,
        ),
        has_link(
            r@,
            "List"@,
            crate::query::href_on_text(query@, "/"@),
            view == ViewMode::List,
        ),
        has_link(
            r@,
            "Kanban"@,
            crate::query::href_on_text(query@, "/kanban"@),
            view == ViewMode::Kanban,
        ),
{
    broadcast use crate::text::group_holds;

    let q = query@;
    assert(crate::text::holds(
        mode_html(ViewMode::List, q, view) + mode_html(ViewMode::Kanban, q, view),
        mode_html(ViewMode::List, q, view),
    ));
    assert(crate::text::holds(
        mode_html(ViewMode::List, q, view) + mode_html(ViewMode::Kanban, q, view),
        mode_html(ViewMode::Kanban, q, view),
    ));
}

/// The search field of the header shows the search in use, and searching goes to the list.
pub proof fn the_header_shows_the_search(
    page: &Page,
    query: &ListQuery,
    view: ViewMode,
    r: String,
)
    requires
        call_ensures(header, (page, query, view), r),
    ensures
        crate::text::holds(
            r@,
            "</nav><form method=\"get\" action=\"/\">"@ + hidden_html(query@)
                + "<input type=\"search\" name=\"q\" placeholder=\"search\" value=\""@
                + crate::html::escaped(
                match query.search {
                    Some(search) => search@,
                    None => Seq::empty(),
                },
            ) + "\"></form></header>"@,
        ),
{
    broadcast use crate::text::group_holds;

}

/// Whether a text has a hidden input with a name and a value.
pub open spec fn has_hidden(text: Seq<char>, name: Seq<char>, value: Seq<char>) -> bool {
    crate::text::holds(
        text,
        "<input type=\"hidden\" name=\""@ + crate::html::escaped(name) + "\" value=\""@
            + crate::html::escaped(value) + "\">"@,
    )
}

/// A search from the header keeps each filter in use under its own name.
pub proof fn a_search_keeps_each_filter(
    page: &Page,
    query: &ListQuery,
    view: ViewMode,
    r: String,
)
    requires
        call_ensures(header, (page, query, view), r),
    ensures
        query.status matches Some(v) ==> has_hidden(r@, "status"@, v@),
        query.state matches Some(v) ==> has_hidden(r@, "state"@, v@),
        query.assigned matches Some(v) ==> has_hidden(r@, "assigned"@, v@),
        query.all ==> has_hidden(r@, "all"@, "1"@),
        query.subissues ==> has_hidden(r@, "subissues"@, "1"@),
        forall|i: int| 0 <= i < query.tags@.len() ==> has_hidden(r@, "tag"@, #[trigger] query.tags@[i]@),
{
    broadcast use crate::text::group_holds;

    let q = query@;
    let hidden = hidden_html(q);
    assert(crate::text::holds(r@, hidden));
    assert(query.status matches Some(v) ==> has_hidden(hidden, "status"@, v@));
    assert(query.state matches Some(v) ==> has_hidden(hidden, "state"@, v@));
    assert(query.assigned matches Some(v) ==> has_hidden(hidden, "assigned"@, v@));
    assert(query.all ==> has_hidden(hidden, "all"@, "1"@));
    assert(query.subissues ==> has_hidden(hidden, "subissues"@, "1"@));
    assert forall|i: int| 0 <= i < query.tags@.len() implies has_hidden(
        r@,
        "tag"@,
        #[trigger] query.tags@[i]@,
    ) by {
        assert(q.tags[i] == query.tags@[i]@);
        lemma_hidden_tag(q.tags, q.tags.len() as int, i);
        assert(has_hidden(hidden, "tag"@, q.tags[i]));
    }
}

proof fn lemma_hidden_tag(tags: Seq<Seq<char>>, n: int, i: int)
    requires
        0 <= i < n,
    ensures
        has_hidden(hidden_tags_html(tags, n), "tag"@, tags[i]),
    decreases n,
{
    broadcast use crate::text::group_holds;

    if i < n - 1 {
        lemma_hidden_tag(tags, n - 1, i);
    }
}

/// Whether a text has a chip for a filter, which leads to the list with other filters.
pub open spec fn has_chip(
    text: Seq<char>,
    label: Seq<char>,
    filters: crate::query::QueryView,
) -> bool {
    crate::text::holds(
        text,
        "<a class=\"chip\" href=\""@ + crate::html::escaped(
            crate::query::href_text(filters, None),
        ) + "\">"@ + crate::html::escaped(label) + " \u{d7}</a>"@,
    )
}

/// For each filter that narrows the list there is a chip with its name, and it leads to the list
/// without that very filter, with all others as they are.
pub proof fn each_filter_can_be_dropped(query: &ListQuery, r: String)
    requires
        call_ensures(active_filters, (query,), r),
    ensures
        query.assigned matches Some(v) ==> has_chip(
            r@,
            "assigned:"@ + v@,
            crate::query::QueryView { assigned: None, ..query@ },
        ),
        query.search matches Some(v) ==> has_chip(
            r@,
            "search:"@ + v@,
            crate::query::QueryView { search: None, ..query@ },
        ),
        forall|i: int|
            0 <= i < query.tags@.len() ==> has_chip(
                r@,
                "tag:"@ + #[trigger] query.tags@[i]@,
                crate::query::QueryView {
                    tags: query@.tags.filter(|t: Seq<char>| t != query.tags@[i]@),
                    ..query@
                },
            ),
        query.tags@.len() == 0 && query.assigned is None && query.search is None ==> r@.len() == 0,
{
    broadcast use crate::text::group_holds;

    let q = query@;
    assert(q.tags.len() == query.tags@.len());
    let chips = tag_filters_html(q, q.tags.len() as int) + assigned_filter_html(q)
        + search_filter_html(q);
    if query.tags@.len() > 0 || query.assigned is Some || query.search is Some {
        assert(crate::text::holds(r@, chips));
    }
    assert(query.assigned matches Some(v) ==> has_chip(
        chips,
        "assigned:"@ + v@,
        crate::query::QueryView { assigned: None, ..query@ },
    ));
    assert(query.search matches Some(v) ==> has_chip(
        chips,
        "search:"@ + v@,
        crate::query::QueryView { search: None, ..query@ },
    ));
    assert forall|i: int| 0 <= i < query.tags@.len() implies has_chip(
        r@,
        "tag:"@ + #[trigger] query.tags@[i]@,
        crate::query::QueryView {
            tags: query@.tags.filter(|t: Seq<char>| t != query.tags@[i]@),
            ..query@
        },
    ) by {
        assert(q.tags[i] == query.tags@[i]@);
        lemma_tag_chip(q, q.tags.len() as int, i);
        assert(other_than(q.tags[i]) =~= (|t: Seq<char>| t != query.tags@[i]@));
        assert(has_chip(chips, "tag:"@ + q.tags[i], without_tag(q, q.tags[i])));
    }
}

proof fn lemma_tag_chip(q: crate::query::QueryView, n: int, i: int)
    requires
        0 <= i < n,
    ensures
        has_chip(tag_filters_html(q, n), "tag:"@ + q.tags[i], without_tag(q, q.tags[i])),
    decreases n,
{
    broadcast use crate::text::group_holds;

    if i < n - 1 {
        lemma_tag_chip(q, n - 1, i);
    }
}

/// The header ends with the chips for the filters in use.
pub proof fn the_header_shows_the_filters(
    page: &Page,
    query: &ListQuery,
    view: ViewMode,
    r: String,
    chips: String,
) -> (before: Seq<char>)
    requires
        call_ensures(header, (page, query, view), r),
        call_ensures(active_filters, (query,), chips),
    ensures
        r@ == before + "\"></form></header>"@ + chips@,
{
    let q = query@;
    "<header><h1><a href=\"/\">"@ + crate::html::escaped(page.repo@) + "</a></h1><nav>"@
        + presets_html(page.current_user@, q, view) + "</nav><nav class=\"modes\">"@ + (mode_html(
        ViewMode::List,
        q,
        view,
    ) + mode_html(ViewMode::Kanban, q, view)) + "</nav><form method=\"get\" action=\"/\">"@
        + hidden_html(q) + "<input type=\"search\" name=\"q\" placeholder=\"search\" value=\""@
        + crate::html::escaped(search_text(q))
}

} // verus!
