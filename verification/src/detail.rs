//! The page of one ticket, with its edit forms.

use vstd::prelude::*;
use vstd::string::*;

use crate::html::document;
use crate::html::escape;
use crate::html::tag_hue;
use crate::number::count_text;
use crate::number::signed_text;
use crate::page::Page;
use crate::query::copy_option;
use crate::request::Request;
use crate::response::Response;
use crate::text::join;
use crate::text::out_push;
use crate::text::trim;
use crate::ticket::join_uuids;
use crate::ticket::short_uuid;
use crate::ticket::Comment;
use crate::ticket::Ticket;
use crate::ticket::TicketState;
use crate::ticket::TicketStatus;

verus! {

// -- fields -----------------------------------------------------------------

/// A field where its value is set.
pub open spec fn text_field(label: Seq<char>, value: Option<Seq<char>>) -> Seq<(Seq<char>, Seq<char>)> {
    match value {
        Some(v) => seq![(label, v)],
        None => Seq::empty(),
    }
}

/// A field where its number is set.
pub open spec fn number_field(label: Seq<char>, value: Option<i64>) -> Seq<(Seq<char>, Seq<char>)> {
    match value {
        Some(n) => seq![(label, crate::number::decimal(n as int))],
        None => Seq::empty(),
    }
}

/// A field where there are ids to show.
pub open spec fn ids_field(label: Seq<char>, ids: Seq<u128>) -> Seq<(Seq<char>, Seq<char>)> {
    if ids.len() > 0 {
        seq![(label, crate::text::joined(crate::ticket::short_texts(ids), ", "@))]
    } else {
        Seq::empty()
    }
}

/// The name to show for the assignee.
pub open spec fn assigned_name(ticket: Ticket) -> Option<Seq<char>> {
    match ticket.assigned {
        Some(person) => Some(person.name@),
        None => None,
    }
}

/// The tags in one text.
pub open spec fn tags_text(ticket: Ticket) -> Option<Seq<char>> {
    if ticket.tags.deep_view().len() > 0 {
        Some(crate::text::joined(ticket.tags.deep_view(), ", "@))
    } else {
        None
    }
}

/// The short id of the parent.
pub open spec fn parent_text(ticket: Ticket) -> Option<Seq<char>> {
    match ticket.parent {
        Some(parent) => Some(crate::ticket::short_text(parent)),
        None => None,
    }
}

/// The fields of a ticket, in the order in which its page lists them.
pub open spec fn ticket_fields(ticket: Ticket) -> Seq<(Seq<char>, Seq<char>)> {
    seq![("Status"@, ticket.status.name())] + text_field("Assigned"@, assigned_name(ticket))
        + number_field("Priority"@, ticket.priority) + number_field("Points"@, ticket.points)
        + text_field("Milestone"@, ticket.milestone.deep_view()) + text_field(
        "Code"@,
        ticket.code.deep_view(),
    ) + text_field("Tags"@, tags_text(ticket)) + text_field("Parent"@, parent_text(ticket))
        + ids_field("Sub-issues"@, ticket.children@) + ids_field("Depends on"@, ticket.depends_on@)
        + ids_field("Blocks"@, ticket.blocks@) + seq![
        ("Created"@, crate::moment::timestamp_text(ticket.created_at.time)),
    ] + ticket.meta.deep_view()
}

/// The first `n` fields, as entries of a list.
pub open spec fn fields_html(fields: Seq<(Seq<char>, Seq<char>)>, n: int) -> Seq<char>
    decreases n,
{
    if n <= 0 {
        Seq::empty()
    } else {
        fields_html(fields, n - 1) + "<div><dt>"@ + crate::html::escaped(fields[n - 1].0)
            + "</dt><dd>"@ + crate::html::escaped(fields[n - 1].1) + "</dd></div>"@
    }
}

/// Adds a field where its value is set.
fn push_text(fields: &mut Vec<(String, String)>, label: &str, value: Option<String>)
    ensures
        final(fields).deep_view() == old(fields).deep_view() + text_field(
            label@,
            value.deep_view(),
        ),
{
    if let Some(v) = value {
        fields.push((label.to_owned(), v));
    }
    assert(fields.deep_view() =~= old(fields).deep_view() + text_field(label@, value.deep_view()));
}

/// Adds a field where its number is set.
fn push_number(fields: &mut Vec<(String, String)>, label: &str, value: Option<i64>)
    ensures
        final(fields).deep_view() == old(fields).deep_view() + number_field(label@, value),
{
    if let Some(n) = value {
        fields.push((label.to_owned(), signed_text(n)));
    }
    assert(fields.deep_view() =~= old(fields).deep_view() + number_field(label@, value));
}

/// Adds a field where there are ids to show.
fn push_ids(fields: &mut Vec<(String, String)>, label: &str, ids: &Vec<u128>)
    ensures
        final(fields).deep_view() == old(fields).deep_view() + ids_field(label@, ids@),
{
    if ids.len() > 0 {
        fields.push((label.to_owned(), join_uuids(ids)));
    }
    assert(fields.deep_view() =~= old(fields).deep_view() + ids_field(label@, ids@));
}

/// Adds fields.
fn push_all(fields: &mut Vec<(String, String)>, more: &Vec<(String, String)>)
    ensures
        final(fields).deep_view() == old(fields).deep_view() + more.deep_view(),
{
    let ghost before = fields.deep_view();
    let mut i: usize = 0;
    assert(before =~= before + more.deep_view().take(0));
    while i < more.len()
        invariant
            i <= more@.len(),
            fields.deep_view() == before + more.deep_view().take(i as int),
        decreases more@.len() - i,
    {
        let ghost now = fields.deep_view();
        fields.push((more[i].0.clone(), more[i].1.clone()));
        assert(fields.deep_view() =~= now.push(more.deep_view()[i as int]));
        assert(fields.deep_view() =~= before + more.deep_view().take(i + 1));
        i = i + 1;
    }
    assert(more.deep_view().take(i as int) =~= more.deep_view());
}

/// The fields of a ticket, in the order in which its page lists them.
pub fn fields_of(ticket: &Ticket) -> (r: Vec<(String, String)>)
    ensures
        r.deep_view() == ticket_fields(*ticket),
{
    let mut fields: Vec<(String, String)> = Vec::new();
    fields.push(("Status".to_owned(), ticket.status.as_str().to_owned()));
    assert(fields.deep_view() =~= seq![("Status"@, ticket.status.name())]);
    let assigned = match &ticket.assigned {
        Some(person) => Some(person.name.clone()),
        None => None,
    };
    push_text(&mut fields, "Assigned", assigned);
    push_number(&mut fields, "Priority", ticket.priority);
    push_number(&mut fields, "Points", ticket.points);
    push_text(&mut fields, "Milestone", copy_option(&ticket.milestone));
    push_text(&mut fields, "Code", copy_option(&ticket.code));
    let tags = if ticket.tags.len() > 0 {
        Some(join(&ticket.tags, ", "))
    } else {
        None
    };
    push_text(&mut fields, "Tags", tags);
    let parent = match ticket.parent {
        Some(parent) => Some(short_uuid(parent)),
        None => None,
    };
    push_text(&mut fields, "Parent", parent);
    push_ids(&mut fields, "Sub-issues", &ticket.children);
    push_ids(&mut fields, "Depends on", &ticket.depends_on);
    push_ids(&mut fields, "Blocks", &ticket.blocks);
    let ghost before = fields.deep_view();
    fields.push(("Created".to_owned(), ticket.created_at.time.text()));
    assert(fields.deep_view() =~= before + seq![
        ("Created"@, crate::moment::timestamp_text(ticket.created_at.time)),
    ]);
    push_all(&mut fields, &ticket.meta);
    fields
}

// -- edit forms -------------------------------------------------------------

/// The hidden input that carries the token.
pub open spec fn csrf_html(page: Page) -> Seq<char> {
    "<input type=\"hidden\" name=\"csrf\" value=\""@ + crate::html::escaped(page.csrf@) + "\">"@
}

/// How a form spells a state: its status and its name.
pub open spec fn state_spec(state: TicketState) -> Seq<char> {
    state@.1.name() + ":"@ + state@.0
}

/// The options for the first `n` states of a workflow.
pub open spec fn state_options_html(states: Seq<TicketState>, current: TicketState, n: int) -> Seq<char>
    decreases n,
{
    if n <= 0 {
        Seq::empty()
    } else {
        state_options_html(states, current, n - 1) + "<option value=\""@ + state_spec(states[n - 1])
            + "\""@ + (if states[n - 1]@ == current@ {
            " selected"@
        } else {
            ""@
        }) + ">"@ + state_spec(states[n - 1]) + "</option>"@
    }
}

/// The start of a form that posts an edit.
pub open spec fn form_start_html(
    class: Seq<char>,
    ticket: Ticket,
    action: Seq<char>,
    page: Page,
) -> Seq<char> {
    "<form class=\""@ + class + "\" method=\"post\" action=\"/t/"@ + crate::ticket::short_text(
        ticket.id,
    ) + "/"@ + action + "\">"@ + csrf_html(page)
}

/// The form that sets the state.
pub open spec fn state_form_html(page: Page, ticket: Ticket, states: Seq<TicketState>) -> Seq<char> {
    form_start_html("edit-form"@, ticket, "state"@, page)
        + "<label>State <select name=\"state\">"@ + state_options_html(
        states,
        ticket.state,
        states.len() as int,
    ) + "</select></label><button type=\"submit\">Set</button></form>"@
}

/// The address of the assignee.
pub open spec fn assigned_email(ticket: Ticket) -> Seq<char> {
    match ticket.assigned {
        Some(person) => person.email@,
        None => ""@,
    }
}

/// The form that sets the assignee.
pub open spec fn assign_form_html(page: Page, ticket: Ticket) -> Seq<char> {
    form_start_html("edit-form"@, ticket, "assign"@, page)
        + "<label>Assigned <input type=\"text\" name=\"assigned\" value=\""@
        + crate::html::escaped(assigned_email(ticket)) + "\" \
         placeholder=\"email or nick (blank to clear)\"></label>\
         <button type=\"submit\">Set</button></form>"@
}

/// The priority in digits.
pub open spec fn priority_text(ticket: Ticket) -> Seq<char> {
    match ticket.priority {
        Some(priority) => crate::number::decimal(priority as int),
        None => ""@,
    }
}

/// The form that sets the priority.
pub open spec fn priority_form_html(page: Page, ticket: Ticket) -> Seq<char> {
    form_start_html("edit-form"@, ticket, "priority"@, page)
        + "<label>Priority <input type=\"number\" name=\"priority\" value=\""@
        + crate::html::escaped(priority_text(ticket)) + "\" \
         min=\"0\" placeholder=\"blank to clear\"></label>\
         <button type=\"submit\">Set</button></form>"@
}

/// The form that adds a tag.
pub open spec fn tag_form_html(page: Page, ticket: Ticket) -> Seq<char> {
    form_start_html("edit-form"@, ticket, "tags"@, page)
        + "<label>Tags <input type=\"text\" name=\"add\" placeholder=\"add a tag\"></label>\
         <button type=\"submit\">Add</button></form>"@
}

/// The forms that remove the first `n` tags.
pub open spec fn tag_removals_html(page: Page, ticket: Ticket, n: int) -> Seq<char>
    decreases n,
{
    if n <= 0 {
        Seq::empty()
    } else {
        tag_removals_html(page, ticket, n - 1) + form_start_html(
            "edit-form edit-tag-remove"@,
            ticket,
            "tags"@,
            page,
        ) + "<input type=\"hidden\" name=\"remove\" value=\""@ + crate::html::escaped(
            ticket.tags.deep_view()[n - 1],
        ) + "\"><span class=\"tag tag-"@ + crate::number::decimal(
            crate::html::hue(ticket.tags.deep_view()[n - 1]) as int,
        ) + "\">"@ + crate::html::escaped(ticket.tags.deep_view()[n - 1])
            + "</span><button type=\"submit\">remove</button></form>"@
    }
}

/// The form that adds a comment.
pub open spec fn comment_form_html(page: Page, ticket: Ticket) -> Seq<char> {
    form_start_html("edit-form edit-comment"@, ticket, "comment"@, page)
        + "<label>Comment <textarea name=\"body\" rows=\"3\" placeholder=\"add a comment\">\
         </textarea></label><button type=\"submit\">Comment</button></form>"@
}

/// The edit forms of a ticket.
pub open spec fn edit_forms_html(page: Page, ticket: Ticket, states: Seq<TicketState>) -> Seq<char> {
    "<section class=\"edit\"><h2>Edit</h2>"@ + state_form_html(page, ticket, states)
        + assign_form_html(page, ticket) + priority_form_html(page, ticket) + tag_form_html(
        page,
        ticket,
    ) + tag_removals_html(page, ticket, ticket.tags.deep_view().len() as int) + comment_form_html(
        page,
        ticket,
    ) + "</section>"@
}

/// The hidden input that carries the token.
pub fn csrf_hidden(page: &Page) -> (r: String)
    ensures
        r@ == csrf_html(*page),
{
    let mut out = "<input type=\"hidden\" name=\"csrf\" value=\"".to_owned();
    out_push(&mut out, escape(page.csrf.as_str()).as_str());
    out_push(&mut out, "\">");
    out
}

/// The start of a form that posts an edit.
fn form_start(class: &str, ticket: &Ticket, action: &str, page: &Page) -> (r: String)
    ensures
        r@ == form_start_html(class@, *ticket, action@, *page),
{
    let mut out = "<form class=\"".to_owned();
    out_push(&mut out, class);
    out_push(&mut out, "\" method=\"post\" action=\"/t/");
    out_push(&mut out, ticket.short_id().as_str());
    out_push(&mut out, "/");
    out_push(&mut out, action);
    out_push(&mut out, "\">");
    out_push(&mut out, csrf_hidden(page).as_str());
    out
}

/// The options for the states of a workflow.
fn state_options(states: &Vec<TicketState>, current: &TicketState) -> (r: String)
    ensures
        r@ == state_options_html(states@, *current, states@.len() as int),
{
    let mut out = String::new();
    let mut i: usize = 0;
    while i < states.len()
        invariant
            i <= states@.len(),
            out@ == state_options_html(states@, *current, i as int),
        decreases states@.len() - i,
    {
        let state = &states[i];
        let mut spelled = state.status().as_str().to_owned();
        out_push(&mut spelled, ":");
        out_push(&mut spelled, state.as_str());
        assert(spelled@ == state_spec(states@[i as int]));
        out_push(&mut out, "<option value=\"");
        out_push(&mut out, spelled.as_str());
        out_push(&mut out, "\"");
        if state.same_as(current) {
            out_push(&mut out, " selected");
        } else {
            out_push(&mut out, "");
        }
        out_push(&mut out, ">");
        out_push(&mut out, spelled.as_str());
        out_push(&mut out, "</option>");
        i = i + 1;
    }
    out
}

/// The form that sets the state.
fn state_form(page: &Page, ticket: &Ticket, states: &Vec<TicketState>) -> (r: String)
    ensures
        r@ == state_form_html(*page, *ticket, states@),
{
    let mut out = form_start("edit-form", ticket, "state", page);
    out_push(&mut out, "<label>State <select name=\"state\">");
    out_push(&mut out, state_options(states, &ticket.state).as_str());
    out_push(&mut out, "</select></label><button type=\"submit\">Set</button></form>");
    out
}

/// The form that sets the assignee.
fn assign_form(page: &Page, ticket: &Ticket) -> (r: String)
    ensures
        r@ == assign_form_html(*page, *ticket),
{
    let email = match &ticket.assigned {
        Some(person) => person.email.as_str(),
        None => "",
    };
    let mut out = form_start("edit-form", ticket, "assign", page);
    out_push(&mut out, "<label>Assigned <input type=\"text\" name=\"assigned\" value=\"");
    out_push(&mut out, escape(email).as_str());
    out_push(
        &mut out,
        "\" \
         placeholder=\"email or nick (blank to clear)\"></label>\
         <button type=\"submit\">Set</button></form>",
    );
    out
}

/// The form that sets the priority.
fn priority_form(page: &Page, ticket: &Ticket) -> (r: String)
    ensures
        r@ == priority_form_html(*page, *ticket),
{
    let priority = match ticket.priority {
        Some(priority) => signed_text(priority),
        None => "".to_owned(),
    };
    let mut out = form_start("edit-form", ticket, "priority", page);
    out_push(&mut out, "<label>Priority <input type=\"number\" name=\"priority\" value=\"");
    out_push(&mut out, escape(priority.as_str()).as_str());
    out_push(
        &mut out,
        "\" \
         min=\"0\" placeholder=\"blank to clear\"></label>\
         <button type=\"submit\">Set</button></form>",
    );
    out
}

/// The form that adds a tag.
fn tag_form(page: &Page, ticket: &Ticket) -> (r: String)
    ensures
        r@ == tag_form_html(*page, *ticket),
{
    let mut out = form_start("edit-form", ticket, "tags", page);
    out_push(
        &mut out,
        "<label>Tags <input type=\"text\" name=\"add\" placeholder=\"add a tag\"></label>\
         <button type=\"submit\">Add</button></form>",
    );
    out
}

/// The forms that remove the tags.
fn tag_removals(page: &Page, ticket: &Ticket) -> (r: String)
    ensures
        r@ == tag_removals_html(*page, *ticket, ticket.tags.deep_view().len() as int),
{
    let mut out = String::new();
    let mut i: usize = 0;
    while i < ticket.tags.len()
        invariant
            i <= ticket.tags@.len(),
            out@ == tag_removals_html(*page, *ticket, i as int),
        decreases ticket.tags@.len() - i,
    {
        let tag = ticket.tags[i].as_str();
        assert(ticket.tags.deep_view()[i as int] == tag@);
        out_push(&mut out, form_start("edit-form edit-tag-remove", ticket, "tags", page).as_str());
        out_push(&mut out, "<input type=\"hidden\" name=\"remove\" value=\"");
        out_push(&mut out, escape(tag).as_str());
        out_push(&mut out, "\"><span class=\"tag tag-");
        out_push(&mut out, count_text(tag_hue(tag)).as_str());
        out_push(&mut out, "\">");
        out_push(&mut out, escape(tag).as_str());
        out_push(&mut out, "</span><button type=\"submit\">remove</button></form>");
        i = i + 1;
    }
    out
}

/// The form that adds a comment.
fn comment_form(page: &Page, ticket: &Ticket) -> (r: String)
    ensures
        r@ == comment_form_html(*page, *ticket),
{
    let mut out = form_start("edit-form edit-comment", ticket, "comment", page);
    out_push(
        &mut out,
        "<label>Comment <textarea name=\"body\" rows=\"3\" placeholder=\"add a comment\">\
         </textarea></label><button type=\"submit\">Comment</button></form>",
    );
    out
}

/// The edit forms of a ticket, with the states of the workflow to choose from. Each posts to
/// `/t/<id>/<action>` and carries the token.
pub fn edit_forms(page: &Page, ticket: &Ticket, states: &Vec<TicketState>) -> (r: String)
    ensures
        r@ == edit_forms_html(*page, *ticket, states@),
{
    let mut out = "<section class=\"edit\"><h2>Edit</h2>".to_owned();
    out_push(&mut out, state_form(page, ticket, states).as_str());
    out_push(&mut out, assign_form(page, ticket).as_str());
    out_push(&mut out, priority_form(page, ticket).as_str());
    out_push(&mut out, tag_form(page, ticket).as_str());
    out_push(&mut out, tag_removals(page, ticket).as_str());
    out_push(&mut out, comment_form(page, ticket).as_str());
    out_push(&mut out, "</section>");
    out
}

// -- the page ---------------------------------------------------------------

/// The head of the page.
pub open spec fn detail_header_html(ticket: Ticket) -> Seq<char> {
    let id = crate::html::escaped(crate::ticket::short_text(ticket.id));
    let state = crate::html::escaped(ticket.state@.0);
    "<header class=\"detail\"><a class=\"back\" href=\"/\">\u{2190} all tickets</a><h1>"@
        + crate::html::escaped(ticket.title@) + "</h1><p class=\"subtitle\"><span class=\"badge \
         state-"@ + state + "\">"@ + state + "</span> <code>"@ + id
        + "</code> \u{b7} opened "@ + crate::html::escaped(ticket.created_at.age@) + " ago by "@
        + crate::html::escaped(ticket.created_by.name@) + "</p><nav class=\"detail-nav\">\
         <a href=\"/t/"@ + id + "\" class=\"active\">Ticket</a><a href=\"/t/"@ + id
        + "/flow\">Lifecycle</a></nav></header>"@
}

/// The message about an edit that failed.
pub open spec fn banner_html(error: Option<Seq<char>>) -> Seq<char> {
    match error {
        Some(message) => "<p class=\"edit-error\">"@ + crate::html::escaped(message) + "</p>"@,
        None => Seq::empty(),
    }
}

/// A section of prose, where there is any.
pub open spec fn prose_html(title: Seq<char>, text: Option<Seq<char>>) -> Seq<char> {
    match text {
        Some(prose) => if crate::text::trimmed(prose).len() > 0 {
            "<section><h2>"@ + title + "</h2><pre class=\"prose\">"@ + crate::html::escaped(prose)
                + "</pre></section>"@
        } else {
            Seq::empty()
        },
        None => Seq::empty(),
    }
}

/// The first `n` comments.
pub open spec fn comment_list_html(comments: Seq<Comment>, n: int) -> Seq<char>
    decreases n,
{
    if n <= 0 {
        Seq::empty()
    } else {
        comment_list_html(comments, n - 1)
            + "<article class=\"comment\"><p class=\"byline\">"@ + crate::html::escaped(
            comments[n - 1].author.name@,
        ) + " \u{b7} "@ + crate::html::escaped(comments[n - 1].at.age@)
            + " ago</p><pre class=\"prose\">"@ + crate::html::escaped(comments[n - 1].body@)
            + "</pre></article>"@
    }
}

/// The comments, where there are any.
pub open spec fn comments_html(comments: Seq<Comment>) -> Seq<char> {
    if comments.len() > 0 {
        "<section><h2>Comments ("@ + crate::number::decimal(comments.len() as int) + ")</h2>"@
            + comment_list_html(comments, comments.len() as int) + "</section>"@
    } else {
        Seq::empty()
    }
}

/// The edit forms, on a server that accepts edits.
pub open spec fn forms_html(page: Page, ticket: Ticket, states: Seq<TicketState>) -> Seq<char> {
    if page.edit {
        edit_forms_html(page, ticket, states)
    } else {
        Seq::empty()
    }
}

/// The body of the page of a ticket.
pub open spec fn detail_body_html(
    page: Page,
    ticket: Ticket,
    states: Seq<TicketState>,
    error: Option<Seq<char>>,
) -> Seq<char> {
    detail_header_html(ticket) + banner_html(error) + "<dl class=\"fields\">"@ + fields_html(
        ticket_fields(ticket),
        ticket_fields(ticket).len() as int,
    ) + "</dl>"@ + prose_html("Description"@, ticket.description.deep_view()) + prose_html(
        "Spec"@,
        ticket.spec.deep_view(),
    ) + comments_html(ticket.comments@) + forms_html(page, ticket, states)
}

/// The page of a ticket.
pub open spec fn detail_html(
    page: Page,
    ticket: Ticket,
    states: Seq<TicketState>,
    error: Option<Seq<char>>,
) -> Seq<char> {
    crate::html::document_html(
        crate::ticket::short_text(ticket.id) + " \u{b7} "@ + ticket.title@,
        detail_body_html(page, ticket, states, error),
    )
}

/// The head of the page.
fn detail_header(ticket: &Ticket) -> (r: String)
    ensures
        r@ == detail_header_html(*ticket),
{
    let id = escape(ticket.short_id().as_str());
    let state = escape(ticket.state.as_str());
    let mut out =
        "<header class=\"detail\"><a class=\"back\" href=\"/\">\u{2190} all tickets</a><h1>".to_owned();
    out_push(&mut out, escape(ticket.title.as_str()).as_str());
    out_push(
        &mut out,
        "</h1><p class=\"subtitle\"><span class=\"badge \
         state-",
    );
    out_push(&mut out, state.as_str());
    out_push(&mut out, "\">");
    out_push(&mut out, state.as_str());
    out_push(&mut out, "</span> <code>");
    out_push(&mut out, id.as_str());
    out_push(&mut out, "</code> \u{b7} opened ");
    out_push(&mut out, escape(ticket.created_at.age.as_str()).as_str());
    out_push(&mut out, " ago by ");
    out_push(&mut out, escape(ticket.created_by.name.as_str()).as_str());
    out_push(
        &mut out,
        "</p><nav class=\"detail-nav\">\
         <a href=\"/t/",
    );
    out_push(&mut out, id.as_str());
    out_push(&mut out, "\" class=\"active\">Ticket</a><a href=\"/t/");
    out_push(&mut out, id.as_str());
    out_push(&mut out, "/flow\">Lifecycle</a></nav></header>");
    out
}

/// The message about an edit that failed.
fn banner(error: Option<&str>) -> (r: String)
    ensures
        r@ == banner_html(
            match error {
                Some(e) => Some(e@),
                None => None,
            },
        ),
{
    match error {
        Some(message) => {
            let mut out = "<p class=\"edit-error\">".to_owned();
            out_push(&mut out, escape(message).as_str());
            out_push(&mut out, "</p>");
            out
        },
        None => String::new(),
    }
}

/// The entries of the list of fields.
fn field_list(fields: &Vec<(String, String)>) -> (r: String)
    ensures
        r@ == fields_html(fields.deep_view(), fields.deep_view().len() as int),
{
    let mut out = String::new();
    let mut i: usize = 0;
    while i < fields.len()
        invariant
            i <= fields@.len(),
            out@ == fields_html(fields.deep_view(), i as int),
        decreases fields@.len() - i,
    {
        assert(fields.deep_view()[i as int] == (fields@[i as int].0@, fields@[i as int].1@));
        out_push(&mut out, "<div><dt>");
        out_push(&mut out, escape(fields[i].0.as_str()).as_str());
        out_push(&mut out, "</dt><dd>");
        out_push(&mut out, escape(fields[i].1.as_str()).as_str());
        out_push(&mut out, "</dd></div>");
        i = i + 1;
    }
    out
}

/// A section of prose, where there is any.
fn prose(title: &str, text: &Option<String>) -> (r: String)
    ensures
        r@ == prose_html(title@, text.deep_view()),
{
    match text {
        Some(prose) => {
            if trim(prose.as_str()).as_str().is_empty() {
                String::new()
            } else {
                let mut out = "<section><h2>".to_owned();
                out_push(&mut out, title);
                out_push(&mut out, "</h2><pre class=\"prose\">");
                out_push(&mut out, escape(prose.as_str()).as_str());
                out_push(&mut out, "</pre></section>");
                out
            }
        },
        None => String::new(),
    }
}

/// The comments, where there are any.
fn comments_section(comments: &Vec<Comment>) -> (r: String)
    ensures
        r@ == comments_html(comments@),
{
    if comments.len() == 0 {
        return String::new();
    }
    let mut list = String::new();
    let mut i: usize = 0;
    while i < comments.len()
        invariant
            i <= comments@.len(),
            list@ == comment_list_html(comments@, i as int),
        decreases comments@.len() - i,
    {
        let comment = &comments[i];
        out_push(&mut list, "<article class=\"comment\"><p class=\"byline\">");
        out_push(&mut list, escape(comment.author.name.as_str()).as_str());
        out_push(&mut list, " \u{b7} ");
        out_push(&mut list, escape(comment.at.age.as_str()).as_str());
        out_push(&mut list, " ago</p><pre class=\"prose\">");
        out_push(&mut list, escape(comment.body.as_str()).as_str());
        out_push(&mut list, "</pre></article>");
        i = i + 1;
    }
    let mut out = "<section><h2>Comments (".to_owned();
    out_push(&mut out, count_text(comments.len()).as_str());
    out_push(&mut out, ")</h2>");
    out_push(&mut out, list.as_str());
    out_push(&mut out, "</section>");
    out
}

/// The page of a ticket, with a message where an edit failed. `states` are those of the workflow.
pub fn detail_page(
    page: &Page,
    ticket: &Ticket,
    states: &Vec<TicketState>,
    error: Option<&str>,
) -> (r: String)
    ensures
        r@ == detail_html(
            *page,
            *ticket,
            states@,
            match error {
                Some(e) => Some(e@),
                None => None,
            },
        ),
{
    let forms = if page.edit {
        edit_forms(page, ticket, states)
    } else {
        String::new()
    };
    let mut body = detail_header(ticket);
    out_push(&mut body, banner(error).as_str());
    out_push(&mut body, "<dl class=\"fields\">");
    out_push(&mut body, field_list(&fields_of(ticket)).as_str());
    out_push(&mut body, "</dl>");
    out_push(&mut body, prose("Description", &ticket.description).as_str());
    out_push(&mut body, prose("Spec", &ticket.spec).as_str());
    out_push(&mut body, comments_section(&ticket.comments).as_str());
    out_push(&mut body, forms.as_str());
    let mut title = ticket.short_id();
    out_push(&mut title, " \u{b7} ");
    out_push(&mut title, ticket.title.as_str());
    document(title.as_str(), body.as_str())
}

// -- the response -----------------------------------------------------------

/// The answer to a request for a ticket: its page, with the message that the request carries, or
/// 404 where the store knows no such ticket.
pub fn detail_response(
    page: &Page,
    request: &Request,
    states: &Vec<TicketState>,
    found: &Result<Ticket, String>,
) -> (r: Response)
    ensures
        r@ == (match found {
            Ok(ticket) => crate::response::html_response(
                200,
                detail_html(
                    *page,
                    *ticket,
                    states@,
                    crate::request::first_value(request@.params, "error"@),
                ),
            ),
            Err(message) => crate::response::error_response(
                404,
                "404 - no such ticket"@,
                message@,
            ),
        }),
{
    match found {
        Ok(ticket) => {
            let error = request.param("error");
            Response::html(200, detail_page(page, ticket, states, error))
        },
        Err(message) => Response::error(404, "404 - no such ticket", message.as_str()),
    }
}

// -- laws -------------------------------------------------------------------

proof fn lemma_comments_run_together(comments: Seq<Comment>, n: int, articles: Seq<Seq<char>>)
    requires
        0 <= n <= comments.len(),
        articles.len() == comments.len(),
        forall|i: int|
            0 <= i < articles.len() ==> #[trigger] articles[i]
                == "<article class=\"comment\"><p class=\"byline\">"@ + crate::html::escaped(
                comments[i].author.name@,
            ) + " \u{b7} "@ + crate::html::escaped(comments[i].at.age@)
                + " ago</p><pre class=\"prose\">"@ + crate::html::escaped(comments[i].body@)
                + "</pre></article>"@,
    ensures
        comment_list_html(comments, n) == crate::text::run_together(articles.take(n)),
    decreases n,
{
    if n > 0 {
        lemma_comments_run_together(comments, n - 1, articles);
        assert(articles.take(n).drop_last() =~= articles.take(n - 1));
        assert(articles.take(n).last() == articles[n - 1]);
        assert(comment_list_html(comments, n) =~= comment_list_html(comments, n - 1)
            + articles[n - 1]);
    }
}

/// The page of a ticket holds an article for each of its comments and no other, in their order: each
/// with the name of its own author, its own age and its own text.
pub proof fn a_page_shows_each_comment(
    page: &Page,
    ticket: &Ticket,
    states: &Vec<TicketState>,
    error: Option<&str>,
    r: String,
) -> (articles: Seq<Seq<char>>)
    requires
        call_ensures(detail_page, (page, ticket, states, error), r),
    ensures
        articles.len() == ticket.comments@.len(),
        articles.len() > 0 ==> crate::text::holds(
            r@,
            "<section><h2>Comments ("@ + crate::number::decimal(articles.len() as int) + ")</h2>"@
                + crate::text::run_together(articles) + "</section>"@,
        ),
        forall|i: int|
            0 <= i < articles.len() ==> #[trigger] articles[i]
                == "<article class=\"comment\"><p class=\"byline\">"@ + crate::html::escaped(
                ticket.comments@[i].author.name@,
            ) + " \u{b7} "@ + crate::html::escaped(ticket.comments@[i].at.age@)
                + " ago</p><pre class=\"prose\">"@ + crate::html::escaped(
                ticket.comments@[i].body@,
            ) + "</pre></article>"@,
{
    broadcast use crate::text::group_holds;

    let comments = ticket.comments@;
    let articles = Seq::new(
        comments.len(),
        |i: int|
            "<article class=\"comment\"><p class=\"byline\">"@ + crate::html::escaped(
                comments[i].author.name@,
            ) + " \u{b7} "@ + crate::html::escaped(comments[i].at.age@)
                + " ago</p><pre class=\"prose\">"@ + crate::html::escaped(comments[i].body@)
                + "</pre></article>"@,
    );
    lemma_comments_run_together(comments, comments.len() as int, articles);
    assert(articles.take(comments.len() as int) =~= articles);
    articles
}

/// The page of a ticket starts with its title, state, id and age, who opened it, and links to its own
/// page and to its own graph.
pub proof fn a_page_names_its_ticket(
    page: &Page,
    ticket: &Ticket,
    states: &Vec<TicketState>,
    error: Option<&str>,
    r: String,
)
    requires
        call_ensures(detail_page, (page, ticket, states, error), r),
    ensures
        ({
            let id = crate::html::escaped(crate::ticket::short_text(ticket.id));
            let state = crate::html::escaped(ticket.state.name@);
            &&& crate::text::holds(
                r@,
                crate::html::escaped(
                    crate::ticket::short_text(ticket.id) + " \u{b7} "@ + ticket.title@,
                ) + "</title><style>"@,
            )
            &&& crate::text::holds(
                r@,
                "<header class=\"detail\"><a class=\"back\" href=\"/\">\u{2190} all tickets</a><h1>"@
                    + crate::html::escaped(ticket.title@),
            )
            &&& crate::text::holds(r@, state + "\">"@ + state + "</span> <code>"@ + id)
            &&& crate::text::holds(
                r@,
                "</code> \u{b7} opened "@ + crate::html::escaped(ticket.created_at.age@)
                    + " ago by "@ + crate::html::escaped(ticket.created_by.name@),
            )
            &&& crate::text::holds(
                r@,
                "</p><nav class=\"detail-nav\"><a href=\"/t/"@ + id
                    + "\" class=\"active\">Ticket</a><a href=\"/t/"@ + id
                    + "/flow\">Lifecycle</a></nav></header>"@,
            )
        }),
{
    broadcast use crate::text::group_holds;

}

/// The page of a ticket shows the message about an edit that failed, as text, and shows none where
/// there is no message.
pub proof fn a_page_shows_the_message(
    page: &Page,
    ticket: &Ticket,
    states: &Vec<TicketState>,
    error: Option<&str>,
    r: String,
)
    requires
        call_ensures(detail_page, (page, ticket, states, error), r),
    ensures
        crate::text::holds(
            r@,
            "/flow\">Lifecycle</a></nav></header>"@ + (match error {
                Some(message) => "<p class=\"edit-error\">"@ + crate::html::escaped(message@)
                    + "</p>"@,
                None => Seq::empty(),
            }) + "<dl class=\"fields\">"@,
        ),
{
    broadcast use crate::text::group_holds;

}

/// The page of a ticket shows its description and its spec, each under its own heading, where they
/// are not blank.
pub proof fn a_page_shows_the_prose(
    page: &Page,
    ticket: &Ticket,
    states: &Vec<TicketState>,
    error: Option<&str>,
    r: String,
)
    requires
        call_ensures(detail_page, (page, ticket, states, error), r),
    ensures
        crate::text::holds(
            r@,
            "</dl>"@ + (match ticket.description {
                Some(text) => if crate::text::trimmed(text@).len() > 0 {
                    "<section><h2>"@ + "Description"@ + "</h2><pre class=\"prose\">"@
                        + crate::html::escaped(text@) + "</pre></section>"@
                } else {
                    Seq::empty()
                },
                None => Seq::empty(),
            }) + (match ticket.spec {
                Some(text) => if crate::text::trimmed(text@).len() > 0 {
                    "<section><h2>"@ + "Spec"@ + "</h2><pre class=\"prose\">"@
                        + crate::html::escaped(text@) + "</pre></section>"@
                } else {
                    Seq::empty()
                },
                None => Seq::empty(),
            }),
        ),
{
    broadcast use crate::text::group_holds;

}

proof fn lemma_fields_run_together(
    fields: Seq<(Seq<char>, Seq<char>)>,
    n: int,
    entries: Seq<Seq<char>>,
)
    requires
        0 <= n <= fields.len(),
        entries.len() == fields.len(),
        forall|i: int|
            0 <= i < entries.len() ==> #[trigger] entries[i] == "<div><dt>"@ + crate::html::escaped(
                fields[i].0,
            ) + "</dt><dd>"@ + crate::html::escaped(fields[i].1) + "</dd></div>"@,
    ensures
        fields_html(fields, n) == crate::text::run_together(entries.take(n)),
    decreases n,
{
    if n > 0 {
        lemma_fields_run_together(fields, n - 1, entries);
        assert(entries.take(n).drop_last() =~= entries.take(n - 1));
        assert(entries.take(n).last() == entries[n - 1]);
        assert(fields_html(fields, n) =~= fields_html(fields, n - 1) + entries[n - 1]);
    }
}

/// The page of a ticket lists its fields and no others, in their order, each with its own label and
/// value.
pub proof fn a_page_lists_the_fields(
    page: &Page,
    ticket: &Ticket,
    states: &Vec<TicketState>,
    error: Option<&str>,
    r: String,
    fields: Vec<(String, String)>,
) -> (entries: Seq<Seq<char>>)
    requires
        call_ensures(detail_page, (page, ticket, states, error), r),
        call_ensures(fields_of, (ticket,), fields),
    ensures
        entries.len() == fields@.len(),
        crate::text::holds(
            r@,
            "<dl class=\"fields\">"@ + crate::text::run_together(entries) + "</dl>"@,
        ),
        forall|i: int|
            0 <= i < entries.len() ==> #[trigger] entries[i] == "<div><dt>"@ + crate::html::escaped(
                fields@[i].0@,
            ) + "</dt><dd>"@ + crate::html::escaped(fields@[i].1@) + "</dd></div>"@,
{
    broadcast use crate::text::group_holds;

    let pairs = fields.deep_view();
    let entries = Seq::new(
        pairs.len(),
        |i: int|
            "<div><dt>"@ + crate::html::escaped(pairs[i].0) + "</dt><dd>"@ + crate::html::escaped(
                pairs[i].1,
            ) + "</dd></div>"@,
    );
    lemma_fields_run_together(pairs, pairs.len() as int, entries);
    assert(entries.take(pairs.len() as int) =~= entries);
    assert forall|i: int| 0 <= i < entries.len() implies #[trigger] entries[i] == "<div><dt>"@
        + crate::html::escaped(fields@[i].0@) + "</dt><dd>"@ + crate::html::escaped(fields@[i].1@)
        + "</dd></div>"@ by {
        assert(pairs[i] == (fields@[i].0@, fields@[i].1@));
    }
    entries
}

spec fn stands_at(
    all: Seq<(Seq<char>, Seq<char>)>,
    at: int,
    field: (Seq<char>, Seq<char>),
) -> bool {
    0 <= at < all.len() && all[at] == field
}

broadcast proof fn lemma_stands_before(
    a: Seq<(Seq<char>, Seq<char>)>,
    b: Seq<(Seq<char>, Seq<char>)>,
    at: int,
    field: (Seq<char>, Seq<char>),
)
    requires
        stands_at(a, at, field),
    ensures
        #[trigger] stands_at(a + b, at, field),
{
}

broadcast proof fn lemma_stands_last(
    a: Seq<(Seq<char>, Seq<char>)>,
    at: int,
    field: (Seq<char>, Seq<char>),
)
    requires
        at == a.len(),
    ensures
        #[trigger] stands_at(a + seq![field], at, field),
{
}

/// One for what is set, and none for what is not.
pub open spec fn one_if(set: bool) -> int {
    if set {
        1
    } else {
        0
    }
}

/// The fields of a ticket say what is known of it, each under its own label and in this order: its
/// status, whatever else is set, and when it was created; its own further fields come last, as they
/// are.
pub proof fn fields_say_what_is_known(ticket: &Ticket, fields: Vec<(String, String)>)
    requires
        call_ensures(fields_of, (ticket,), fields),
    ensures
        ({
            let all = fields.deep_view();
            &&& all.len() == 2 + one_if(ticket.assigned is Some) + one_if(ticket.priority is Some)
                + one_if(ticket.points is Some) + one_if(ticket.milestone is Some) + one_if(
                ticket.code is Some,
            ) + one_if(ticket.tags@.len() > 0) + one_if(ticket.parent is Some) + one_if(
                ticket.children@.len() > 0,
            ) + one_if(ticket.depends_on@.len() > 0) + one_if(ticket.blocks@.len() > 0)
                + ticket.meta@.len()
            &&& all[0] == ("Status"@, if ticket.status == TicketStatus::Closed {
                "closed"@
            } else {
                "open"@
            })
            &&& ticket.assigned matches Some(person) ==> all[1] == ("Assigned"@, person.name@)
            &&& ticket.priority matches Some(n) ==> all[1 + one_if(ticket.assigned is Some)] == (
                "Priority"@,
                crate::number::decimal(n as int),
            )
            &&& ticket.points matches Some(n) ==> all[1 + one_if(ticket.assigned is Some) + one_if(
                ticket.priority is Some,
            )] == ("Points"@, crate::number::decimal(n as int))
            &&& ticket.milestone matches Some(text) ==> all[1 + one_if(ticket.assigned is Some)
                + one_if(ticket.priority is Some) + one_if(ticket.points is Some)] == (
                "Milestone"@,
                text@,
            )
            &&& ticket.code matches Some(text) ==> all[1 + one_if(ticket.assigned is Some) + one_if(
                ticket.priority is Some,
            ) + one_if(ticket.points is Some) + one_if(ticket.milestone is Some)] == (
                "Code"@,
                text@,
            )
            &&& ({
                let n = 1 + one_if(ticket.assigned is Some) + one_if(ticket.priority is Some)
                    + one_if(ticket.points is Some) + one_if(ticket.milestone is Some) + one_if(
                    ticket.code is Some,
                );
                let tags = one_if(ticket.tags@.len() > 0);
                let parent = one_if(ticket.parent is Some);
                let children = one_if(ticket.children@.len() > 0);
                let depends = one_if(ticket.depends_on@.len() > 0);
                let blocks = one_if(ticket.blocks@.len() > 0);
                &&& tags == 1 ==> all[n] == (
                    "Tags"@,
                    crate::text::joined(ticket.tags.deep_view(), ", "@),
                )
                &&& ticket.parent matches Some(id) ==> all[n + tags] == (
                    "Parent"@,
                    crate::ticket::short_text(id),
                )
                &&& children == 1 ==> all[n + tags + parent] == (
                    "Sub-issues"@,
                    crate::text::joined(crate::ticket::short_texts(ticket.children@), ", "@),
                )
                &&& depends == 1 ==> all[n + tags + parent + children] == (
                    "Depends on"@,
                    crate::text::joined(crate::ticket::short_texts(ticket.depends_on@), ", "@),
                )
                &&& blocks == 1 ==> all[n + tags + parent + children + depends] == (
                    "Blocks"@,
                    crate::text::joined(crate::ticket::short_texts(ticket.blocks@), ", "@),
                )
                &&& all[n + tags + parent + children + depends + blocks] == (
                    "Created"@,
                    crate::moment::timestamp_text(ticket.created_at.time),
                )
            })
            &&& all.skip(all.len() - ticket.meta@.len()) == ticket.meta.deep_view()
        }),
{
    lemma_field_places(*ticket);
    lemma_field_order(*ticket);
    assert(ticket.tags.deep_view().len() == ticket.tags@.len());
    assert(ticket.meta.deep_view().len() == ticket.meta@.len());
}

proof fn lemma_field_order(ticket: Ticket)
    ensures
        ({
            let all = ticket_fields(ticket);
            let a = 1 + one_if(ticket.assigned is Some);
            let b = a + one_if(ticket.priority is Some);
            let c = b + one_if(ticket.points is Some);
            let d = c + one_if(ticket.milestone is Some);
            let e = d + one_if(ticket.code is Some);
            let f = e + one_if(ticket.tags.deep_view().len() > 0);
            let g = f + one_if(ticket.parent is Some);
            let h = g + one_if(ticket.children@.len() > 0);
            let i = h + one_if(ticket.depends_on@.len() > 0);
            let j = i + one_if(ticket.blocks@.len() > 0);
            &&& ticket.assigned matches Some(person) ==> all[1] == ("Assigned"@, person.name@)
            &&& ticket.priority matches Some(n) ==> all[a] == (
                "Priority"@,
                crate::number::decimal(n as int),
            )
            &&& ticket.points matches Some(n) ==> all[b] == (
                "Points"@,
                crate::number::decimal(n as int),
            )
            &&& ticket.milestone matches Some(text) ==> all[c] == ("Milestone"@, text@)
            &&& ticket.code matches Some(text) ==> all[d] == ("Code"@, text@)
            &&& ticket.tags.deep_view().len() > 0 ==> all[e] == (
                "Tags"@,
                crate::text::joined(ticket.tags.deep_view(), ", "@),
            )
            &&& ticket.parent matches Some(id) ==> all[f] == (
                "Parent"@,
                crate::ticket::short_text(id),
            )
            &&& ticket.children@.len() > 0 ==> all[g] == (
                "Sub-issues"@,
                crate::text::joined(crate::ticket::short_texts(ticket.children@), ", "@),
            )
            &&& ticket.depends_on@.len() > 0 ==> all[h] == (
                "Depends on"@,
                crate::text::joined(crate::ticket::short_texts(ticket.depends_on@), ", "@),
            )
            &&& ticket.blocks@.len() > 0 ==> all[i] == (
                "Blocks"@,
                crate::text::joined(crate::ticket::short_texts(ticket.blocks@), ", "@),
            )
            &&& all[j] == ("Created"@, crate::moment::timestamp_text(ticket.created_at.time))
        }),
{
    lemma_each_stands(
        seq![("Status"@, ticket.status.name())],
        text_field("Assigned"@, assigned_name(ticket)),
        number_field("Priority"@, ticket.priority),
        number_field("Points"@, ticket.points),
        text_field("Milestone"@, ticket.milestone.deep_view()),
        text_field("Code"@, ticket.code.deep_view()),
        text_field("Tags"@, tags_text(ticket)),
        text_field("Parent"@, parent_text(ticket)),
        ids_field("Sub-issues"@, ticket.children@),
        ids_field("Depends on"@, ticket.depends_on@),
        ids_field("Blocks"@, ticket.blocks@),
        seq![("Created"@, crate::moment::timestamp_text(ticket.created_at.time))],
        ticket.meta.deep_view(),
    );
}

proof fn lemma_each_stands(
    a: Seq<(Seq<char>, Seq<char>)>,
    b: Seq<(Seq<char>, Seq<char>)>,
    c: Seq<(Seq<char>, Seq<char>)>,
    d: Seq<(Seq<char>, Seq<char>)>,
    e: Seq<(Seq<char>, Seq<char>)>,
    f: Seq<(Seq<char>, Seq<char>)>,
    g: Seq<(Seq<char>, Seq<char>)>,
    h: Seq<(Seq<char>, Seq<char>)>,
    i: Seq<(Seq<char>, Seq<char>)>,
    j: Seq<(Seq<char>, Seq<char>)>,
    k: Seq<(Seq<char>, Seq<char>)>,
    l: Seq<(Seq<char>, Seq<char>)>,
    m: Seq<(Seq<char>, Seq<char>)>,
)
    ensures
        ({
            let s2 = a + b;
            let s3 = s2 + c;
            let s4 = s3 + d;
            let s5 = s4 + e;
            let s6 = s5 + f;
            let s7 = s6 + g;
            let s8 = s7 + h;
            let s9 = s8 + i;
            let s10 = s9 + j;
            let s11 = s10 + k;
            let s12 = s11 + l;
            let all = s12 + m;
            &&& a.len() == 1 ==> all[0] == a[0]
            &&& b.len() == 1 ==> all[a.len() as int] == b[0]
            &&& c.len() == 1 ==> all[s2.len() as int] == c[0]
            &&& d.len() == 1 ==> all[s3.len() as int] == d[0]
            &&& e.len() == 1 ==> all[s4.len() as int] == e[0]
            &&& f.len() == 1 ==> all[s5.len() as int] == f[0]
            &&& g.len() == 1 ==> all[s6.len() as int] == g[0]
            &&& h.len() == 1 ==> all[s7.len() as int] == h[0]
            &&& i.len() == 1 ==> all[s8.len() as int] == i[0]
            &&& j.len() == 1 ==> all[s9.len() as int] == j[0]
            &&& k.len() == 1 ==> all[s10.len() as int] == k[0]
            &&& l.len() == 1 ==> all[s11.len() as int] == l[0]
        }),
{
    broadcast use {lemma_stands_before, lemma_stands_last};

    let s2 = a + b;
    let s3 = s2 + c;
    let s4 = s3 + d;
    let s5 = s4 + e;
    let s6 = s5 + f;
    let s7 = s6 + g;
    let s8 = s7 + h;
    let s9 = s8 + i;
    let s10 = s9 + j;
    let s11 = s10 + k;
    let s12 = s11 + l;
    let all = s12 + m;
    if a.len() == 1 {
        assert(a =~= seq![a[0]]);
        assert(stands_at(a, 0, a[0]));
        assert(stands_at(all, 0, a[0]));
    }
    if b.len() == 1 {
        assert(b =~= seq![b[0]]);
        assert(stands_at(s2, a.len() as int, b[0]));
        assert(stands_at(all, a.len() as int, b[0]));
    }
    if c.len() == 1 {
        assert(c =~= seq![c[0]]);
        assert(stands_at(s3, s2.len() as int, c[0]));
        assert(stands_at(all, s2.len() as int, c[0]));
    }
    if d.len() == 1 {
        assert(d =~= seq![d[0]]);
        assert(stands_at(s4, s3.len() as int, d[0]));
        assert(stands_at(all, s3.len() as int, d[0]));
    }
    if e.len() == 1 {
        assert(e =~= seq![e[0]]);
        assert(stands_at(s5, s4.len() as int, e[0]));
        assert(stands_at(all, s4.len() as int, e[0]));
    }
    if f.len() == 1 {
        assert(f =~= seq![f[0]]);
        assert(stands_at(s6, s5.len() as int, f[0]));
        assert(stands_at(all, s5.len() as int, f[0]));
    }
    if g.len() == 1 {
        assert(g =~= seq![g[0]]);
        assert(stands_at(s7, s6.len() as int, g[0]));
        assert(stands_at(all, s6.len() as int, g[0]));
    }
    if h.len() == 1 {
        assert(h =~= seq![h[0]]);
        assert(stands_at(s8, s7.len() as int, h[0]));
        assert(stands_at(all, s7.len() as int, h[0]));
    }
    if i.len() == 1 {
        assert(i =~= seq![i[0]]);
        assert(stands_at(s9, s8.len() as int, i[0]));
        assert(stands_at(all, s8.len() as int, i[0]));
    }
    if j.len() == 1 {
        assert(j =~= seq![j[0]]);
        assert(stands_at(s10, s9.len() as int, j[0]));
        assert(stands_at(all, s9.len() as int, j[0]));
    }
    if k.len() == 1 {
        assert(k =~= seq![k[0]]);
        assert(stands_at(s11, s10.len() as int, k[0]));
        assert(stands_at(all, s10.len() as int, k[0]));
    }
    if l.len() == 1 {
        assert(l =~= seq![l[0]]);
        assert(stands_at(s12, s11.len() as int, l[0]));
        assert(stands_at(all, s11.len() as int, l[0]));
    }
}

proof fn lemma_meta_comes_last(
    front: Seq<(Seq<char>, Seq<char>)>,
    meta: Seq<(Seq<char>, Seq<char>)>,
)
    ensures
        (front + meta).skip((front + meta).len() - meta.len()) == meta,
{
    assert((front + meta).skip((front + meta).len() - meta.len()) =~= meta);
}

proof fn lemma_field_places(ticket: Ticket)
    ensures
        ({
            let all = ticket_fields(ticket);
            &&& all.len() == 2 + one_if(ticket.assigned is Some) + one_if(ticket.priority is Some)
                + one_if(ticket.points is Some) + one_if(ticket.milestone is Some) + one_if(
                ticket.code is Some,
            ) + one_if(ticket.tags.deep_view().len() > 0) + one_if(ticket.parent is Some) + one_if(
                ticket.children@.len() > 0,
            ) + one_if(ticket.depends_on@.len() > 0) + one_if(ticket.blocks@.len() > 0)
                + ticket.meta.deep_view().len()
            &&& all[0] == ("Status"@, ticket.status.name())
            &&& all.skip(all.len() - ticket.meta.deep_view().len()) == ticket.meta.deep_view()
        }),
{
    let front = seq![("Status"@, ticket.status.name())] + text_field(
        "Assigned"@,
        assigned_name(ticket),
    ) + number_field("Priority"@, ticket.priority) + number_field("Points"@, ticket.points)
        + text_field("Milestone"@, ticket.milestone.deep_view()) + text_field(
        "Code"@,
        ticket.code.deep_view(),
    ) + text_field("Tags"@, tags_text(ticket)) + text_field("Parent"@, parent_text(ticket))
        + ids_field("Sub-issues"@, ticket.children@) + ids_field("Depends on"@, ticket.depends_on@)
        + ids_field("Blocks"@, ticket.blocks@) + seq![
        ("Created"@, crate::moment::timestamp_text(ticket.created_at.time)),
    ];
    lemma_meta_comes_last(front, ticket.meta.deep_view());
}

/// The hidden input that carries the token carries that of the page.
pub proof fn forms_carry_the_token(page: &Page, r: String)
    requires
        call_ensures(csrf_hidden, (page,), r),
    ensures
        r@ == "<input type=\"hidden\" name=\"csrf\" value=\""@ + crate::html::escaped(page.csrf@)
            + "\">"@,
{
}

/// Whether a page has a form that posts to the address of an edit of a ticket, with the token, and
/// goes on with `inputs`.
pub open spec fn posts_to(
    text: Seq<char>,
    ticket: Ticket,
    action: Seq<char>,
    token: Seq<char>,
    inputs: Seq<char>,
) -> bool {
    crate::text::holds(
        text,
        "\" method=\"post\" action=\"/t/"@ + crate::ticket::short_text(ticket.id) + "/"@ + action
            + "\">"@ + token + inputs,
    )
}

/// The edit forms of a ticket post to the addresses of their edits of that very ticket, each with the
/// token and with the field that its edit reads, filled in with what the ticket has.
pub proof fn each_form_posts_its_edit(
    page: &Page,
    ticket: &Ticket,
    states: &Vec<TicketState>,
    r: String,
    token: String,
)
    requires
        call_ensures(edit_forms, (page, ticket, states), r),
        call_ensures(csrf_hidden, (page,), token),
    ensures
        posts_to(r@, *ticket, "state"@, token@, "<label>State <select name=\"state\">"@),
        posts_to(
            r@,
            *ticket,
            "assign"@,
            token@,
            "<label>Assigned <input type=\"text\" name=\"assigned\" value=\""@,
        ),
        posts_to(
            r@,
            *ticket,
            "priority"@,
            token@,
            "<label>Priority <input type=\"number\" name=\"priority\" value=\""@,
        ),
        posts_to(
            r@,
            *ticket,
            "tags"@,
            token@,
            "<label>Tags <input type=\"text\" name=\"add\" placeholder=\"add a tag\"></label>\
         <button type=\"submit\">Add</button></form>"@,
        ),
        posts_to(
            r@,
            *ticket,
            "comment"@,
            token@,
            "<label>Comment <textarea name=\"body\" rows=\"3\" placeholder=\"add a comment\">\
         </textarea></label><button type=\"submit\">Comment</button></form>"@,
        ),
        crate::text::holds(
            r@,
            "<label>Assigned <input type=\"text\" name=\"assigned\" value=\""@
                + crate::html::escaped(
                match ticket.assigned {
                    Some(person) => person.email@,
                    None => ""@,
                },
            ) + "\" \
         placeholder=\"email or nick (blank to clear)\"></label>\
         <button type=\"submit\">Set</button></form>"@,
        ),
        crate::text::holds(
            r@,
            "<label>Priority <input type=\"number\" name=\"priority\" value=\""@
                + crate::html::escaped(
                match ticket.priority {
                    Some(n) => crate::number::decimal(n as int),
                    None => ""@,
                },
            ) + "\" \
         min=\"0\" placeholder=\"blank to clear\"></label>\
         <button type=\"submit\">Set</button></form>"@,
        ),
{
    broadcast use crate::text::group_holds;

    assert(posts_to(
        state_form_html(*page, *ticket, states@),
        *ticket,
        "state"@,
        token@,
        "<label>State <select name=\"state\">"@,
    ));
    assert(posts_to(
        assign_form_html(*page, *ticket),
        *ticket,
        "assign"@,
        token@,
        "<label>Assigned <input type=\"text\" name=\"assigned\" value=\""@,
    ));
    assert(posts_to(
        priority_form_html(*page, *ticket),
        *ticket,
        "priority"@,
        token@,
        "<label>Priority <input type=\"number\" name=\"priority\" value=\""@,
    ));
}

proof fn lemma_options_run_together(
    states: Seq<TicketState>,
    current: TicketState,
    n: int,
    options: Seq<Seq<char>>,
)
    requires
        0 <= n <= states.len(),
        options.len() == states.len(),
        forall|i: int|
            0 <= i < options.len() ==> #[trigger] options[i] == "<option value=\""@ + state_spec(
                states[i],
            ) + "\""@ + (if states[i]@ == current@ {
                " selected"@
            } else {
                ""@
            }) + ">"@ + state_spec(states[i]) + "</option>"@,
    ensures
        state_options_html(states, current, n) == crate::text::run_together(options.take(n)),
    decreases n,
{
    if n > 0 {
        lemma_options_run_together(states, current, n - 1, options);
        assert(options.take(n).drop_last() =~= options.take(n - 1));
        assert(options.take(n).last() == options[n - 1]);
        assert(state_options_html(states, current, n) =~= state_options_html(
            states,
            current,
            n - 1,
        ) + options[n - 1]);
    }
}

/// The form for the state offers each state of the workflow and no other, in their order, spelled
/// with its status and its name, and has chosen the one that the ticket is in.
pub proof fn each_state_can_be_chosen(
    page: &Page,
    ticket: &Ticket,
    states: &Vec<TicketState>,
    r: String,
) -> (options: Seq<Seq<char>>)
    requires
        call_ensures(edit_forms, (page, ticket, states), r),
    ensures
        options.len() == states@.len(),
        crate::text::holds(
            r@,
            "<label>State <select name=\"state\">"@ + crate::text::run_together(options)
                + "</select></label><button type=\"submit\">Set</button></form>"@,
        ),
        forall|i: int|
            0 <= i < options.len() ==> #[trigger] options[i] == ({
                let spelled = (if states@[i].status == TicketStatus::Open {
                    "open"@
                } else {
                    "closed"@
                }) + ":"@ + states@[i].name@;
                "<option value=\""@ + spelled + "\""@ + (if states@[i].name@ == ticket.state.name@
                    && states@[i].status == ticket.state.status {
                    " selected"@
                } else {
                    ""@
                }) + ">"@ + spelled + "</option>"@
            }),
{
    broadcast use crate::text::group_holds;

    let options = Seq::new(
        states@.len(),
        |i: int|
            "<option value=\""@ + state_spec(states@[i]) + "\""@ + (if states@[i]@
                == ticket.state@ {
                " selected"@
            } else {
                ""@
            }) + ">"@ + state_spec(states@[i]) + "</option>"@,
    );
    lemma_options_run_together(states@, ticket.state, states@.len() as int, options);
    assert(options.take(states@.len() as int) =~= options);
    assert(crate::text::holds(
        state_form_html(*page, *ticket, states@),
        "<label>State <select name=\"state\">"@ + crate::text::run_together(options)
            + "</select></label><button type=\"submit\">Set</button></form>"@,
    ));
    options
}

/// For each tag of a ticket there is a form that posts to the address for tags, and removes that very
/// tag.
pub proof fn each_tag_can_be_removed(
    page: &Page,
    ticket: &Ticket,
    states: &Vec<TicketState>,
    r: String,
    token: String,
    i: int,
)
    requires
        call_ensures(edit_forms, (page, ticket, states), r),
        call_ensures(csrf_hidden, (page,), token),
        0 <= i < ticket.tags@.len(),
    ensures
        posts_to(
            r@,
            *ticket,
            "tags"@,
            token@,
            "<input type=\"hidden\" name=\"remove\" value=\""@,
        ),
        crate::text::holds(
            r@,
            "<input type=\"hidden\" name=\"remove\" value=\""@ + crate::html::escaped(
                ticket.tags@[i]@,
            ) + "\"><span class=\"tag tag-"@ + crate::number::decimal(
                crate::html::hue(ticket.tags@[i]@) as int,
            ) + "\">"@ + crate::html::escaped(ticket.tags@[i]@)
                + "</span><button type=\"submit\">remove</button></form>"@,
        ),
{
    broadcast use crate::text::group_holds;

    let n = ticket.tags.deep_view().len() as int;
    assert(ticket.tags.deep_view()[i] == ticket.tags@[i]@);
    lemma_removal(*page, *ticket, n, i, token@);
}

proof fn lemma_removal(page: Page, ticket: Ticket, n: int, i: int, token: Seq<char>)
    requires
        0 <= i < n,
        token == csrf_html(page),
    ensures
        posts_to(
            tag_removals_html(page, ticket, n),
            ticket,
            "tags"@,
            token,
            "<input type=\"hidden\" name=\"remove\" value=\""@,
        ),
        crate::text::holds(
            tag_removals_html(page, ticket, n),
            "<input type=\"hidden\" name=\"remove\" value=\""@ + crate::html::escaped(
                ticket.tags.deep_view()[i],
            ) + "\"><span class=\"tag tag-"@ + crate::number::decimal(
                crate::html::hue(ticket.tags.deep_view()[i]) as int,
            ) + "\">"@ + crate::html::escaped(ticket.tags.deep_view()[i])
                + "</span><button type=\"submit\">remove</button></form>"@,
        ),
    decreases n,
{
    broadcast use crate::text::group_holds;

    if i < n - 1 {
        lemma_removal(page, ticket, n - 1, i, token);
    } else {
        let before = tag_removals_html(page, ticket, n - 1);
        let class = "edit-form edit-tag-remove"@;
        let start = form_start_html(class, ticket, "tags"@, page);
        let open = "<input type=\"hidden\" name=\"remove\" value=\""@;
        assert(posts_to(start + open, ticket, "tags"@, token, open));
        assert(before + start + open =~= before + (start + open));
    }
}

/// The edit forms are on the page of a ticket where the server accepts edits, and not where it does
/// not.
pub proof fn forms_are_there_to_edit(
    page: &Page,
    ticket: &Ticket,
    states: &Vec<TicketState>,
    error: Option<&str>,
    r: String,
    forms: String,
) -> (before: Seq<char>)
    requires
        call_ensures(detail_page, (page, ticket, states, error), r),
        call_ensures(edit_forms, (page, ticket, states), forms),
    ensures
        r@ == before + (if page.edit {
            forms@
        } else {
            Seq::empty()
        }) + "</main>"@ + crate::html::KANBAN_SCRIPT@ + "</body></html>\n"@,
{
    let html = detail_header_html(*ticket) + banner_html(
        match error {
            Some(e) => Some(e@),
            None => None,
        },
    ) + "<dl class=\"fields\">"@ + fields_html(
        ticket_fields(*ticket),
        ticket_fields(*ticket).len() as int,
    ) + "</dl>"@ + prose_html("Description"@, ticket.description.deep_view()) + prose_html(
        "Spec"@,
        ticket.spec.deep_view(),
    ) + comments_html(ticket.comments@);
    let title = crate::ticket::short_text(ticket.id) + " \u{b7} "@ + ticket.title@;
    let start = "<!doctype html>\n<html lang=\"en\"><head><meta charset=\"utf-8\">\
<meta name=\"viewport\" content=\"width=device-width,initial-scale=1\">\
<title>"@ + crate::html::escaped(title) + "</title><style>"@ + crate::html::STYLE@
        + "</style></head><body><main>"@;
    let rest = forms_html(*page, *ticket, states@);
    crate::text::lemma_assoc(start, html, rest);
    start + html
}

/// A ticket that the store knows is answered with its page, with the message that the request
/// carries; for one that it does not know the answer is 404, with the reason.
pub proof fn a_ticket_is_answered_with_its_page(
    page: &Page,
    request: &Request,
    states: &Vec<TicketState>,
    found: &Result<Ticket, String>,
    r: Response,
    ticket: &Ticket,
    error: Option<&str>,
    text: String,
    message: &str,
    unknown: Response,
)
    requires
        found matches Err(why) ==> why@ == message@,
        call_ensures(Response::error, (404, "404 - no such ticket", message), unknown),
        call_ensures(detail_response, (page, request, states, found), r),
        found matches Ok(known) ==> known == ticket,
        call_ensures(Request::param, (request, "error"), error),
        call_ensures(detail_page, (page, ticket, states, error), text),
    ensures
        r.location is None,
        r.content_type@ == "text/html; charset=utf-8"@,
        match found {
            Ok(_) => r.status == 200 && r.body@ == vstd::utf8::encode_utf8(text@),
            Err(_) => r.status == 404 && r@ == unknown@,
        },
{
}

/// The page of a ticket is a document with the head of the page, the message about an edit that
/// failed, the fields, the description and the spec, the comments and the edit forms, and nothing
/// else.
pub proof fn a_page_is_made_of_its_parts(
    page: &Page,
    ticket: &Ticket,
    states: &Vec<TicketState>,
    error: Option<&str>,
    r: String,
    fields: Vec<(String, String)>,
    forms: String,
    title: &str,
    body: &str,
    whole: String,
) -> (found: (Seq<char>, Seq<Seq<char>>, Seq<Seq<char>>))
    requires
        call_ensures(detail_page, (page, ticket, states, error), r),
        call_ensures(fields_of, (ticket,), fields),
        call_ensures(edit_forms, (page, ticket, states), forms),
        call_ensures(document, (title, body), whole),
        title@ == crate::ticket::short_text(ticket.id) + " \u{b7} "@ + ticket.title@,
        whole@ == r@,
    ensures
        ({
            let (head, entries, articles) = found;
            let id = crate::html::escaped(crate::ticket::short_text(ticket.id));
            let state = crate::html::escaped(ticket.state.name@);
            let prose = |name: Seq<char>, text: Option<Seq<char>>|
                if text is Some && crate::text::trimmed(text->0).len() > 0 {
                    "<section><h2>"@ + name + "</h2><pre class=\"prose\">"@ + crate::html::escaped(
                        text->0,
                    ) + "</pre></section>"@
                } else {
                    Seq::empty()
                };
            &&& entries.len() == fields@.len()
            &&& articles.len() == ticket.comments@.len()
            &&& head
                == "<header class=\"detail\"><a class=\"back\" href=\"/\">\u{2190} all tickets</a><h1>"@
                + crate::html::escaped(ticket.title@)
                + "</h1><p class=\"subtitle\"><span class=\"badge \
         state-"@ + state + "\">"@ + state + "</span> <code>"@ + id + "</code> \u{b7} opened "@
                + crate::html::escaped(ticket.created_at.age@) + " ago by "@
                + crate::html::escaped(ticket.created_by.name@)
                + "</p><nav class=\"detail-nav\">\
         <a href=\"/t/"@ + id + "\" class=\"active\">Ticket</a><a href=\"/t/"@ + id
                + "/flow\">Lifecycle</a></nav></header>"@
            &&& body@ == head + (match error {
                Some(message) => "<p class=\"edit-error\">"@ + crate::html::escaped(message@)
                    + "</p>"@,
                None => Seq::empty(),
            }) + "<dl class=\"fields\">"@ + crate::text::run_together(entries) + "</dl>"@ + prose(
                "Description"@,
                ticket.description.deep_view(),
            ) + prose("Spec"@, ticket.spec.deep_view()) + (if articles.len() > 0 {
                "<section><h2>Comments ("@ + crate::number::decimal(articles.len() as int)
                    + ")</h2>"@ + crate::text::run_together(articles) + "</section>"@
            } else {
                Seq::empty()
            }) + (if page.edit {
                forms@
            } else {
                Seq::empty()
            })
        }),
{
    let message = match error {
        Some(e) => Some(e@),
        None => None,
    };
    let pairs = fields.deep_view();
    let entries = Seq::new(
        pairs.len(),
        |i: int|
            "<div><dt>"@ + crate::html::escaped(pairs[i].0) + "</dt><dd>"@ + crate::html::escaped(
                pairs[i].1,
            ) + "</dd></div>"@,
    );
    lemma_fields_run_together(pairs, pairs.len() as int, entries);
    assert(entries.take(pairs.len() as int) =~= entries);
    let comments = ticket.comments@;
    let articles = Seq::new(
        comments.len(),
        |i: int|
            "<article class=\"comment\"><p class=\"byline\">"@ + crate::html::escaped(
                comments[i].author.name@,
            ) + " \u{b7} "@ + crate::html::escaped(comments[i].at.age@)
                + " ago</p><pre class=\"prose\">"@ + crate::html::escaped(comments[i].body@)
                + "</pre></article>"@,
    );
    lemma_comments_run_together(comments, comments.len() as int, articles);
    assert(articles.take(comments.len() as int) =~= articles);
    crate::html::documents_differ_in_their_bodies(
        title@,
        body@,
        detail_body_html(*page, *ticket, states@, message),
    );
    (detail_header_html(*ticket), entries, articles)
}

proof fn lemma_removals_run_together(page: Page, ticket: Ticket, n: int, forms: Seq<Seq<char>>)
    requires
        0 <= n <= ticket.tags.deep_view().len(),
        forms.len() == ticket.tags.deep_view().len(),
        forall|i: int|
            0 <= i < forms.len() ==> #[trigger] forms[i] == form_start_html(
                "edit-form edit-tag-remove"@,
                ticket,
                "tags"@,
                page,
            ) + "<input type=\"hidden\" name=\"remove\" value=\""@ + crate::html::escaped(
                ticket.tags.deep_view()[i],
            ) + "\"><span class=\"tag tag-"@ + crate::number::decimal(
                crate::html::hue(ticket.tags.deep_view()[i]) as int,
            ) + "\">"@ + crate::html::escaped(ticket.tags.deep_view()[i])
                + "</span><button type=\"submit\">remove</button></form>"@,
    ensures
        tag_removals_html(page, ticket, n) == crate::text::run_together(forms.take(n)),
    decreases n,
{
    if n > 0 {
        lemma_removals_run_together(page, ticket, n - 1, forms);
        assert(forms.take(n).drop_last() =~= forms.take(n - 1));
        assert(forms.take(n).last() == forms[n - 1]);
        assert(tag_removals_html(page, ticket, n) =~= tag_removals_html(page, ticket, n - 1)
            + forms[n - 1]);
    }
}

/// Between the form that adds a tag and the one for comments there is a form to remove each tag of
/// the ticket and no other, in their order.
pub proof fn tags_are_removed_one_by_one(
    page: &Page,
    ticket: &Ticket,
    states: &Vec<TicketState>,
    r: String,
) -> (removals: Seq<Seq<char>>)
    requires
        call_ensures(edit_forms, (page, ticket, states), r),
    ensures
        removals.len() == ticket.tags@.len(),
        crate::text::holds(
            r@,
            "<label>Tags <input type=\"text\" name=\"add\" placeholder=\"add a tag\"></label>\
         <button type=\"submit\">Add</button></form>"@ + crate::text::run_together(removals),
        ),
        forall|i: int|
            0 <= i < removals.len() ==> crate::text::holds(
                #[trigger] removals[i],
                "<input type=\"hidden\" name=\"remove\" value=\""@ + crate::html::escaped(
                    ticket.tags@[i]@,
                ) + "\"><span class=\"tag tag-"@,
            ),
{
    broadcast use crate::text::group_holds;

    let tags = ticket.tags.deep_view();
    let start = form_start_html("edit-form edit-tag-remove"@, *ticket, "tags"@, *page);
    let removals = Seq::new(
        tags.len(),
        |i: int|
            start + "<input type=\"hidden\" name=\"remove\" value=\""@ + crate::html::escaped(
                tags[i],
            ) + "\"><span class=\"tag tag-"@ + crate::number::decimal(
                crate::html::hue(tags[i]) as int,
            ) + "\">"@ + crate::html::escaped(tags[i])
                + "</span><button type=\"submit\">remove</button></form>"@,
    );
    lemma_removals_run_together(*page, *ticket, tags.len() as int, removals);
    assert(removals.take(tags.len() as int) =~= removals);
    crate::text::lemma_assoc(
        "<section class=\"edit\"><h2>Edit</h2>"@ + state_form_html(*page, *ticket, states@)
            + assign_form_html(*page, *ticket) + priority_form_html(*page, *ticket),
        form_start_html("edit-form"@, *ticket, "tags"@, *page),
        "<label>Tags <input type=\"text\" name=\"add\" placeholder=\"add a tag\"></label>\
         <button type=\"submit\">Add</button></form>"@,
    );
    assert forall|i: int| 0 <= i < removals.len() implies crate::text::holds(
        #[trigger] removals[i],
        "<input type=\"hidden\" name=\"remove\" value=\""@ + crate::html::escaped(
            ticket.tags@[i]@,
        ) + "\"><span class=\"tag tag-"@,
    ) by {
        assert(tags[i] == ticket.tags@[i]@);
    }
    removals
}

} // verus!
