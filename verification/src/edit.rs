//! Edits that a form posts.
//!
//! A handler says what has to be done; the store does it, and its outcome is the answer.

use vstd::prelude::*;
use vstd::string::*;

use crate::number::parse_signed;
use crate::page::Server;
use crate::percent::percent_encode;
use crate::query::is_set_to;
use crate::query::TicketLifecycle;
use crate::request::Request;
use crate::response::Response;
use crate::text::out_push;
use crate::text::rsplit_once;
use crate::text::same;
use crate::text::strip_prefix;
use crate::ticket::TicketStatus;

verus! {

// -- steps ------------------------------------------------------------------

/// A change to the tags of a ticket.
#[derive(Debug, Clone, PartialEq, Eq)]
pub enum TagChange {
    Add { tag: String },
    Remove { tag: String },
}

/// A change to tags, as mathematical values.
#[verifier::ext_equal]
pub enum TagChangeView {
    Add { tag: Seq<char> },
    Remove { tag: Seq<char> },
}

impl View for TagChange {
    type V = TagChangeView;

    open spec fn view(&self) -> TagChangeView {
        match self {
            TagChange::Add { tag } => TagChangeView::Add { tag: tag@ },
            TagChange::Remove { tag } => TagChangeView::Remove { tag: tag@ },
        }
    }
}

/// A change to a ticket. The changes to its tags are made one after the other.
#[derive(Debug, Clone, PartialEq, Eq)]
pub enum Edit {
    Comment { body: String },
    State { lifecycle: TicketLifecycle },
    Assign { assigned: Option<String> },
    Priority { priority: Option<i64> },
    Tags { changes: Vec<TagChange> },
}

/// A change, as mathematical values.
#[verifier::ext_equal]
pub enum EditView {
    Comment { body: Seq<char> },
    State { status: TicketStatus, state: (Seq<char>, TicketStatus) },
    Assign { assigned: Option<Seq<char>> },
    Priority { priority: Option<i64> },
    Tags { changes: Seq<TagChangeView> },
}

/// Changes to tags, as mathematical values.
pub open spec fn tag_changes_of(changes: Seq<TagChange>) -> Seq<TagChangeView> {
    Seq::new(changes.len(), |i: int| changes[i]@)
}

impl View for Edit {
    type V = EditView;

    open spec fn view(&self) -> EditView {
        match self {
            Edit::Comment { body } => EditView::Comment { body: body@ },
            Edit::State { lifecycle } => EditView::State {
                status: lifecycle.status,
                state: lifecycle.state@,
            },
            Edit::Assign { assigned } => EditView::Assign { assigned: assigned.deep_view() },
            Edit::Priority { priority } => EditView::Priority { priority: *priority },
            Edit::Tags { changes } => EditView::Tags { changes: tag_changes_of(changes@) },
        }
    }
}

/// What a posted form asks for: an answer at once, the state that `spec` names, or a change to the
/// ticket that `reference` names.
#[derive(Debug, Clone, PartialEq, Eq)]
pub enum Step {
    Reply { response: Response },
    ParseState { reference: String, spec: String },
    Apply { reference: String, edit: Edit },
}

/// A step, as mathematical values.
#[verifier::ext_equal]
pub enum StepView {
    Reply { response: crate::response::ResponseView },
    ParseState { reference: Seq<char>, spec: Seq<char> },
    Apply { reference: Seq<char>, edit: EditView },
}

impl View for Step {
    type V = StepView;

    open spec fn view(&self) -> StepView {
        match self {
            Step::Reply { response } => StepView::Reply { response: response@ },
            Step::ParseState { reference, spec } => StepView::ParseState {
                reference: reference@,
                spec: spec@,
            },
            Step::Apply { reference, edit } => StepView::Apply {
                reference: reference@,
                edit: edit@,
            },
        }
    }
}

// -- redirects --------------------------------------------------------------

/// Where a failed edit leads: to the page of the ticket, with a message.
pub open spec fn error_location(reference: Seq<char>, message: Seq<char>) -> Seq<char> {
    "/t/"@ + reference + "?error="@ + crate::percent::percent_encoded(message)
}

/// The answer to an edit that failed.
pub open spec fn error_redirect(reference: Seq<char>, message: Seq<char>) -> crate::response::ResponseView {
    crate::response::redirect_response(error_location(reference, message))
}

/// The answer to an edit that succeeded.
pub open spec fn detail_redirect(reference: Seq<char>) -> crate::response::ResponseView {
    crate::response::redirect_response("/t/"@ + reference)
}

/// The step that answers with a message.
pub open spec fn refusal(reference: Seq<char>, message: Seq<char>) -> StepView {
    StepView::Reply { response: error_redirect(reference, message) }
}

/// `303 See Other` to the page of the ticket, with a message.
pub fn redirect_with_error(reference: &str, message: &str) -> (r: Response)
    ensures
        r@ == error_redirect(reference@, message@),
{
    let mut location = "/t/".to_owned();
    out_push(&mut location, reference);
    out_push(&mut location, "?error=");
    out_push(&mut location, percent_encode(message).as_str());
    Response::redirect(location.as_str())
}

/// `303 See Other` to the page of the ticket.
pub fn redirect_to_detail(reference: &str) -> (r: Response)
    ensures
        r@ == detail_redirect(reference@),
{
    let mut location = "/t/".to_owned();
    out_push(&mut location, reference);
    Response::redirect(location.as_str())
}

/// The step that answers with a message.
fn refuse(reference: &str, message: &str) -> (r: Step)
    ensures
        r@ == refusal(reference@, message@),
{
    Step::Reply { response: redirect_with_error(reference, message) }
}

// -- handlers ---------------------------------------------------------------

/// What a posted comment asks for.
pub open spec fn comment_step(request: crate::request::RequestView, reference: Seq<char>) -> StepView {
    match request.form_field("body"@) {
        Some(body) => StepView::Apply { reference, edit: EditView::Comment { body } },
        None => refusal(reference, "comment body cannot be empty"@),
    }
}

/// What a posted state asks for.
pub open spec fn state_step(request: crate::request::RequestView, reference: Seq<char>) -> StepView {
    match request.form_field("state"@) {
        Some(spec) => StepView::ParseState { reference, spec },
        None => refusal(reference, "no state provided"@),
    }
}

/// What a posted assignee asks for; none clears it.
pub open spec fn assign_step(request: crate::request::RequestView, reference: Seq<char>) -> StepView {
    StepView::Apply {
        reference,
        edit: EditView::Assign { assigned: request.form_field("assigned"@) },
    }
}

/// What a posted priority asks for; none clears it.
pub open spec fn priority_step(request: crate::request::RequestView, reference: Seq<char>) -> StepView {
    match request.form_field("priority"@) {
        Some(raw) => match crate::number::signed_value(raw) {
            Some(n) => StepView::Apply {
                reference,
                edit: EditView::Priority { priority: Some(n as i64) },
            },
            None => refusal(reference, "priority must be a number"@),
        },
        None => StepView::Apply { reference, edit: EditView::Priority { priority: None } },
    }
}

/// The changes that posted tags ask for: one that is added comes before one that is removed.
pub open spec fn posted_tag_changes(add: Option<Seq<char>>, remove: Option<Seq<char>>) -> Seq<
    TagChangeView,
> {
    (match add {
        Some(tag) => seq![TagChangeView::Add { tag }],
        None => Seq::empty(),
    }) + (match remove {
        Some(tag) => seq![TagChangeView::Remove { tag }],
        None => Seq::empty(),
    })
}

/// What posted tags ask for.
pub open spec fn tags_step(request: crate::request::RequestView, reference: Seq<char>) -> StepView {
    StepView::Apply {
        reference,
        edit: EditView::Tags {
            changes: posted_tag_changes(request.form_field("add"@), request.form_field("remove"@)),
        },
    }
}

/// What a posted comment asks for.
pub fn handle_comment(request: &Request, reference: &str) -> (r: Step)
    requires
        request@.form_decodable(),
    ensures
        r@ == comment_step(request@, reference@),
{
    match request.form_field("body") {
        Some(body) => Step::Apply { reference: reference.to_owned(), edit: Edit::Comment { body } },
        None => refuse(reference, "comment body cannot be empty"),
    }
}

/// What a posted state asks for.
pub fn handle_state(request: &Request, reference: &str) -> (r: Step)
    requires
        request@.form_decodable(),
    ensures
        r@ == state_step(request@, reference@),
{
    match request.form_field("state") {
        Some(spec) => Step::ParseState { reference: reference.to_owned(), spec },
        None => refuse(reference, "no state provided"),
    }
}

/// What a posted assignee asks for; none clears it.
pub fn handle_assign(request: &Request, reference: &str) -> (r: Step)
    requires
        request@.form_decodable(),
    ensures
        r@ == assign_step(request@, reference@),
{
    let assigned = request.form_field("assigned");
    Step::Apply { reference: reference.to_owned(), edit: Edit::Assign { assigned } }
}

/// What a posted priority asks for; none clears it.
pub fn handle_priority(request: &Request, reference: &str) -> (r: Step)
    requires
        request@.form_decodable(),
    ensures
        r@ == priority_step(request@, reference@),
{
    let priority = match request.form_field("priority") {
        Some(raw) => match parse_signed(raw.as_str()) {
            Some(n) => Some(n),
            None => {
                return refuse(reference, "priority must be a number");
            },
        },
        None => None,
    };
    Step::Apply { reference: reference.to_owned(), edit: Edit::Priority { priority } }
}

/// The changes that posted tags ask for: one that is added comes before one that is removed.
pub fn tag_changes(add: Option<String>, remove: Option<String>) -> (r: Vec<TagChange>)
    ensures
        tag_changes_of(r@) == posted_tag_changes(add.deep_view(), remove.deep_view()),
{
    let mut changes: Vec<TagChange> = Vec::new();
    if let Some(tag) = add {
        changes.push(TagChange::Add { tag });
    }
    if let Some(tag) = remove {
        changes.push(TagChange::Remove { tag });
    }
    assert(tag_changes_of(changes@) =~= posted_tag_changes(add.deep_view(), remove.deep_view()));
    changes
}

/// What posted tags ask for.
pub fn handle_tags(request: &Request, reference: &str) -> (r: Step)
    requires
        request@.form_decodable(),
    ensures
        r@ == tags_step(request@, reference@),
{
    let add = request.form_field("add");
    let remove = request.form_field("remove");
    Step::Apply { reference: reference.to_owned(), edit: Edit::Tags { changes: tag_changes(add, remove) } }
}

/// What follows once the state that a form names is known, or why it names none.
pub fn handle_parsed_state(reference: &str, parsed: Result<TicketLifecycle, String>) -> (r: Step)
    ensures
        r@ == (match parsed {
            Ok(lifecycle) => StepView::Apply {
                reference: reference@,
                edit: EditView::State { status: lifecycle.status, state: lifecycle.state@ },
            },
            Err(message) => refusal(reference@, message@),
        }),
{
    match parsed {
        Ok(lifecycle) => Step::Apply {
            reference: reference.to_owned(),
            edit: Edit::State { lifecycle },
        },
        Err(message) => refuse(reference, message.as_str()),
    }
}

/// The answer once a change has been tried: back to the ticket, with a message where it failed.
pub fn edit_response(reference: &str, outcome: &Result<(), String>) -> (r: Response)
    ensures
        r@ == (match outcome {
            Ok(()) => detail_redirect(reference@),
            Err(message) => error_redirect(reference@, message@),
        }),
{
    match outcome {
        Ok(()) => redirect_to_detail(reference),
        Err(message) => redirect_with_error(reference, message.as_str()),
    }
}

// -- routing ----------------------------------------------------------------

/// The ticket and the action that a path `/t/<reference>/<action>` names.
pub open spec fn edit_path(path: Seq<char>) -> Option<(Seq<char>, Seq<char>)> {
    match crate::text::after_prefix(path, "/t/"@) {
        Some(rest) => crate::text::cut_last(rest, '/'),
        None => None,
    }
}

/// Whether a request carries the token of the server.
pub open spec fn has_token(request: crate::request::RequestView, server: Server) -> bool {
    request.form_field("csrf"@) == Some(server.csrf@)
}

/// What a posted form asks for.
pub open spec fn post_step(request: crate::request::RequestView, server: Server) -> StepView {
    match edit_path(request.path) {
        Some((reference, action)) => if !has_token(request, server) {
            refusal(reference, "missing or invalid CSRF token"@)
        } else if action == "comment"@ {
            comment_step(request, reference)
        } else if action == "state"@ {
            state_step(request, reference)
        } else if action == "assign"@ {
            assign_step(request, reference)
        } else if action == "priority"@ {
            priority_step(request, reference)
        } else if action == "tags"@ {
            tags_step(request, reference)
        } else {
            refusal(reference, "unknown edit action `"@ + action + "`"@)
        },
        None => StepView::Reply {
            response: crate::response::error_response(
                405,
                "405 - method not allowed"@,
                match crate::text::after_prefix(request.path, "/t/"@) {
                    Some(rest) => if rest.len() > 0 {
                        "POST needs an action, e.g. /t/<id>/comment."@
                    } else {
                        "POST is only allowed on /t/<id>/<action>."@
                    },
                    None => "POST is only allowed on /t/<id>/<action>."@,
                },
            ),
        },
    }
}

/// Whether a request carries the token of the server.
pub fn check_csrf(request: &Request, server: &Server) -> (r: bool)
    requires
        request@.form_decodable(),
    ensures
        r == has_token(request@, *server),
{
    let token = request.form_field("csrf");
    is_set_to(&token, server.csrf.as_str())
}

/// The step that refuses a method.
fn not_allowed(detail: &str) -> (r: Step)
    ensures
        r@ == (StepView::Reply {
            response: crate::response::error_response(405, "405 - method not allowed"@, detail@),
        }),
{
    Step::Reply { response: Response::error(405, "405 - method not allowed", detail) }
}

/// Whether a form can be read where the path of the request asks for that.
pub open spec fn is_readable_post(request: crate::request::RequestView) -> bool {
    edit_path(request.path) is Some ==> request.form_decodable()
}

/// What a posted form asks for.
pub fn route_post(request: &Request, server: &Server) -> (r: Step)
    requires
        is_readable_post(request@),
    ensures
        r@ == post_step(request@, *server),
{
    let rest = match strip_prefix(request.path.as_str(), "/t/") {
        Some(rest) => rest,
        None => {
            return not_allowed("POST is only allowed on /t/<id>/<action>.");
        },
    };
    let (reference, action) = match rsplit_once(rest.as_str(), '/') {
        Some((reference, action)) => (reference, action),
        None => {
            if rest.as_str().is_empty() {
                return not_allowed("POST is only allowed on /t/<id>/<action>.");
            }
            return not_allowed("POST needs an action, e.g. /t/<id>/comment.");
        },
    };
    let reference = reference.as_str();
    let action = action.as_str();
    if !check_csrf(request, server) {
        return refuse(reference, "missing or invalid CSRF token");
    }
    if same(action, "comment") {
        handle_comment(request, reference)
    } else if same(action, "state") {
        handle_state(request, reference)
    } else if same(action, "assign") {
        handle_assign(request, reference)
    } else if same(action, "priority") {
        handle_priority(request, reference)
    } else if same(action, "tags") {
        handle_tags(request, reference)
    } else {
        let mut message = "unknown edit action `".to_owned();
        out_push(&mut message, action);
        out_push(&mut message, "`");
        refuse(reference, message.as_str())
    }
}

/// Whether a form can be read where the path of the request asks for that.
pub fn post_is_readable(request: &Request) -> (r: bool)
    ensures
        r == is_readable_post(request@),
{
    match strip_prefix(request.path.as_str(), "/t/") {
        Some(rest) => match rsplit_once(rest.as_str(), '/') {
            Some(_) => request.form_is_decodable(),
            None => true,
        },
        None => true,
    }
}

/// The tags of a ticket after a change.
pub open spec fn tags_after(tags: Set<Seq<char>>, change: TagChangeView) -> Set<Seq<char>> {
    match change {
        TagChangeView::Add { tag } => tags.insert(tag),
        TagChangeView::Remove { tag } => tags.remove(tag),
    }
}

/// The tags of a ticket after changes, made one after the other.
pub open spec fn tags_after_all(tags: Set<Seq<char>>, changes: Seq<TagChangeView>) -> Set<Seq<char>>
    decreases changes.len(),
{
    if changes.len() == 0 {
        tags
    } else {
        tags_after(tags_after_all(tags, changes.drop_last()), changes.last())
    }
}

/// After posted tags a ticket has the one that was added, unless it was removed as well, and not the
/// one that was removed. It keeps all others.
pub proof fn posted_tags_are_set(
    tags: Set<Seq<char>>,
    add: Option<Seq<char>>,
    remove: Option<Seq<char>>,
    tag: Seq<char>,
)
    ensures
        tags_after_all(tags, posted_tag_changes(add, remove)).contains(tag) <==> (tags.contains(tag)
            || add == Some(tag)) && remove != Some(tag),
{
    let changes = posted_tag_changes(add, remove);
    let none = Seq::<TagChangeView>::empty();
    assert(tags_after_all(tags, none) == tags);
    match (add, remove) {
        (Some(a), Some(r)) => {
            let first = changes.drop_last();
            assert(first =~= seq![TagChangeView::Add { tag: a }]);
            assert(first.drop_last() =~= none);
            assert(tags_after_all(tags, first) == tags.insert(a));
            assert(changes.last() == (TagChangeView::Remove { tag: r }));
        },
        (Some(a), None) => {
            assert(changes =~= seq![TagChangeView::Add { tag: a }]);
            assert(changes.drop_last() =~= none);
        },
        (None, Some(r)) => {
            assert(changes =~= seq![TagChangeView::Remove { tag: r }]);
            assert(changes.drop_last() =~= none);
        },
        (None, None) => {
            assert(changes =~= none);
        },
    }
}

/// A form that does not carry the token of the server changes nothing.
pub proof fn no_change_without_the_token(request: crate::request::RequestView, server: Server)
    requires
        !has_token(request, server),
    ensures
        post_step(request, server) is Reply,
{
}

// -- what a form asks for ---------------------------------------------------

proof fn lemma_edit_path(reference: Seq<char>, action: Seq<char>)
    requires
        forall|i: int| 0 <= i < action.len() ==> #[trigger] action[i] != '/',
    ensures
        edit_path("/t/"@ + reference + "/"@ + action) == Some((reference, action)),
{
    reveal_strlit("/t/");
    reveal_strlit("/");
    let path = "/t/"@ + reference + "/"@ + action;
    let rest = reference + "/"@ + action;
    assert(path.take(3) =~= "/t/"@);
    assert(path.skip(3) =~= rest);
    let n = reference.len() as int;
    assert(rest[n] == '/');
    assert forall|j: int| n < j < rest.len() implies #[trigger] rest[j] != '/' by {
        assert(rest[j] == action[j - n - 1]);
    }
    crate::text::lemma_cut_last(rest, '/', n);
    assert(rest.take(n) =~= reference);
    assert(rest.skip(n + 1) =~= action);
}

proof fn lemma_actions()
    ensures
        "comment"@.len() == 7,
        "state"@.len() == 5,
        "assign"@.len() == 6,
        "priority"@.len() == 8,
        "tags"@.len() == 4,
        forall|i: int| 0 <= i < 7 ==> #[trigger] "comment"@[i] != '/',
        forall|i: int| 0 <= i < 5 ==> #[trigger] "state"@[i] != '/',
        forall|i: int| 0 <= i < 6 ==> #[trigger] "assign"@[i] != '/',
        forall|i: int| 0 <= i < 8 ==> #[trigger] "priority"@[i] != '/',
        forall|i: int| 0 <= i < 4 ==> #[trigger] "tags"@[i] != '/',
{
    reveal_strlit("comment");
    reveal_strlit("state");
    reveal_strlit("assign");
    reveal_strlit("priority");
    reveal_strlit("tags");
}

/// The change that a step makes to the ticket that `reference` names, if it makes one.
pub open spec fn edit_on(step: Step, reference: Seq<char>) -> Option<Edit> {
    match step {
        Step::Apply { reference: to, edit } => if to@ == reference {
            Some(edit)
        } else {
            None
        },
        _ => None,
    }
}

/// Whether a step sends the browser back to the page of a ticket with a message, and changes
/// nothing.
pub open spec fn tells_the_reader(step: Step, reference: Seq<char>, message: Seq<char>) -> bool {
    &&& step matches Step::Reply { response }
    &&& response.status == 303
    &&& response.location matches Some(location)
    &&& location@ == "/t/"@ + reference + "?error="@ + crate::percent::percent_encoded(message)
}

/// A comment that is posted with the token, to the address for comments, is added to that ticket as
/// it was written. One without a text is refused.
pub proof fn a_posted_comment_is_added(
    request: &Request,
    server: &Server,
    step: Step,
    reference: Seq<char>,
)
    requires
        call_ensures(route_post, (request, server), step),
        request.path@ == "/t/"@ + reference + "/"@ + "comment"@,
        request@.form_field("csrf"@) == Some(server.csrf@),
    ensures
        match request@.form_field("body"@) {
            Some(text) => edit_on(step, reference) matches Some(Edit::Comment { body }) && body@
                == text,
            None => tells_the_reader(step, reference, "comment body cannot be empty"@),
        },
{
    lemma_actions();
    lemma_edit_path(reference, "comment"@);
}

/// A state that is posted with the token, to the address for states, is read for that ticket. A form
/// that names none is refused.
pub proof fn a_posted_state_is_read(
    request: &Request,
    server: &Server,
    step: Step,
    reference: Seq<char>,
)
    requires
        call_ensures(route_post, (request, server), step),
        request.path@ == "/t/"@ + reference + "/"@ + "state"@,
        request@.form_field("csrf"@) == Some(server.csrf@),
    ensures
        match request@.form_field("state"@) {
            Some(text) => step matches Step::ParseState { reference: to, spec } && to@ == reference
                && spec@ == text,
            None => tells_the_reader(step, reference, "no state provided"@),
        },
{
    lemma_actions();
    lemma_edit_path(reference, "state"@);
}

/// A state that could be read is set on the ticket whose form named it, and its status with it. For
/// one that could not the reader is told why.
pub proof fn a_state_that_was_read_is_set(
    reference: &str,
    parsed: Result<TicketLifecycle, String>,
    step: Step,
)
    requires
        call_ensures(handle_parsed_state, (reference, parsed), step),
    ensures
        match parsed {
            Ok(wanted) => edit_on(step, reference@) matches Some(Edit::State { lifecycle })
                && lifecycle.status == wanted.status && lifecycle.state.name@
                == wanted.state.name@ && lifecycle.state.status == wanted.state.status,
            Err(message) => tells_the_reader(step, reference@, message@),
        },
{
}

/// An assignee that is posted with the token, to the address for assignees, is set on that ticket. A
/// form without one clears it.
pub proof fn a_posted_assignee_is_set(
    request: &Request,
    server: &Server,
    step: Step,
    reference: Seq<char>,
)
    requires
        call_ensures(route_post, (request, server), step),
        request.path@ == "/t/"@ + reference + "/"@ + "assign"@,
        request@.form_field("csrf"@) == Some(server.csrf@),
    ensures
        edit_on(step, reference) matches Some(Edit::Assign { assigned }) && assigned.deep_view()
            == request@.form_field("assigned"@),
{
    lemma_actions();
    lemma_edit_path(reference, "assign"@);
}

/// A number that is posted with the token, to the address for priorities, becomes the priority of
/// that ticket.
pub proof fn a_posted_priority_is_set(
    request: &Request,
    server: &Server,
    step: Step,
    reference: Seq<char>,
    n: i64,
)
    requires
        call_ensures(route_post, (request, server), step),
        request.path@ == "/t/"@ + reference + "/"@ + "priority"@,
        request@.form_field("csrf"@) == Some(server.csrf@),
        request@.form_field("priority"@) == Some(crate::number::decimal(n as int)),
    ensures
        edit_on(step, reference) matches Some(Edit::Priority { priority }) && priority == Some(n),
{
    lemma_actions();
    lemma_edit_path(reference, "priority"@);
    crate::number::numbers_read_back(n);
}

/// A form that is posted to the address for priorities changes nothing but a priority: it clears it
/// where the field is empty, sets it to the number that the field spells, or tells the reader that
/// it spells none.
pub proof fn a_posted_priority_is_a_number(
    request: &Request,
    server: &Server,
    step: Step,
    reference: Seq<char>,
)
    requires
        call_ensures(route_post, (request, server), step),
        request.path@ == "/t/"@ + reference + "/"@ + "priority"@,
        request@.form_field("csrf"@) == Some(server.csrf@),
    ensures
        match request@.form_field("priority"@) {
            Some(text) => match crate::number::signed_value(text) {
                Some(n) => edit_on(step, reference) matches Some(
                    Edit::Priority { priority: Some(m) },
                ) && m == n,
                None => tells_the_reader(step, reference, "priority must be a number"@),
            },
            None => edit_on(step, reference) matches Some(Edit::Priority { priority })
                && priority is None,
        },
{
    lemma_actions();
    lemma_edit_path(reference, "priority"@);
}

/// The changes to tags, of which one is added before another is removed.
pub open spec fn adds_and_removes(
    changes: Seq<TagChange>,
    add: Option<Seq<char>>,
    remove: Option<Seq<char>>,
) -> bool {
    &&& changes.len() == (if add is Some {
        1int
    } else {
        0
    }) + (if remove is Some {
        1int
    } else {
        0
    })
    &&& add matches Some(wanted) ==> changes[0] matches TagChange::Add { tag } && tag@ == wanted
    &&& remove matches Some(wanted) ==> changes.last() matches TagChange::Remove { tag } && tag@
        == wanted
}

/// Tags that are posted with the token, to the address for tags, are changed on that ticket: the one
/// in the field `add` is added, and then the one in the field `remove` is removed.
pub proof fn posted_tags_are_changed(
    request: &Request,
    server: &Server,
    step: Step,
    reference: Seq<char>,
)
    requires
        call_ensures(route_post, (request, server), step),
        request.path@ == "/t/"@ + reference + "/"@ + "tags"@,
        request@.form_field("csrf"@) == Some(server.csrf@),
    ensures
        edit_on(step, reference) matches Some(Edit::Tags { changes }) && adds_and_removes(
            changes@,
            request@.form_field("add"@),
            request@.form_field("remove"@),
        ),
{
    lemma_actions();
    lemma_edit_path(reference, "tags"@);
    let add = request@.form_field("add"@);
    let remove = request@.form_field("remove"@);
    let wanted = posted_tag_changes(add, remove);
    if let Step::Apply { reference: to, edit } = step {
        if let Edit::Tags { changes } = edit {
            assert(tag_changes_of(changes@) == wanted);
            assert(changes@.len() == wanted.len());
            if changes@.len() > 0 {
                assert(tag_changes_of(changes@)[0] == changes@[0]@);
                assert(tag_changes_of(changes@).last() == changes@.last()@);
            }
        }
    }
}

/// A form that is posted to an address that no edit has is refused, and the reader is told.
pub proof fn an_unknown_edit_is_refused(
    request: &Request,
    server: &Server,
    step: Step,
    reference: Seq<char>,
    action: Seq<char>,
)
    requires
        call_ensures(route_post, (request, server), step),
        request.path@ == "/t/"@ + reference + "/"@ + action,
        forall|i: int| 0 <= i < action.len() ==> #[trigger] action[i] != '/',
        request@.form_field("csrf"@) == Some(server.csrf@),
        action != "comment"@,
        action != "state"@,
        action != "assign"@,
        action != "priority"@,
        action != "tags"@,
    ensures
        tells_the_reader(step, reference, "unknown edit action `"@ + action + "`"@),
{
    lemma_edit_path(reference, action);
}

/// A form without the token is refused, whatever edit it asks for, and the reader is told.
pub proof fn a_form_without_the_token_is_refused(
    request: &Request,
    server: &Server,
    step: Step,
    reference: Seq<char>,
    action: Seq<char>,
)
    requires
        call_ensures(route_post, (request, server), step),
        request.path@ == "/t/"@ + reference + "/"@ + action,
        forall|i: int| 0 <= i < action.len() ==> #[trigger] action[i] != '/',
        request@.form_field("csrf"@) != Some(server.csrf@),
    ensures
        tells_the_reader(step, reference, "missing or invalid CSRF token"@),
{
    lemma_edit_path(reference, action);
}

/// A form that is posted to an address outside `/t/<reference>/<action>` is answered with 405, and
/// with what is missing: the action, or all of it.
pub proof fn a_form_for_no_ticket_is_refused(
    request: &Request,
    server: &Server,
    step: Step,
    no_action: Response,
    elsewhere: Response,
)
    requires
        call_ensures(route_post, (request, server), step),
        forall|reference: Seq<char>, action: Seq<char>|
            request.path@ != #[trigger] ("/t/"@ + reference + "/"@ + action),
        call_ensures(
            Response::error,
            (405, "405 - method not allowed", "POST needs an action, e.g. /t/<id>/comment."),
            no_action,
        ),
        call_ensures(
            Response::error,
            (405, "405 - method not allowed", "POST is only allowed on /t/<id>/<action>."),
            elsewhere,
        ),
    ensures
        step matches Step::Reply { response } && response.status == 405 && response@ == if exists|
            reference: Seq<char>,
        |
            reference.len() > 0 && request.path@ == #[trigger] ("/t/"@ + reference) {
            no_action@
        } else {
            elsewhere@
        },
{
    if let Some(rest) = crate::text::after_prefix(request.path@, "/t/"@) {
        assert(request.path@ =~= "/t/"@ + rest);
    }
    if exists|reference: Seq<char>|
        reference.len() > 0 && request.path@ == #[trigger] ("/t/"@ + reference) {
        let reference = choose|reference: Seq<char>|
            reference.len() > 0 && request.path@ == #[trigger] ("/t/"@ + reference);
        assert(request.path@.take("/t/"@.len() as int) =~= "/t/"@);
        assert(request.path@.skip("/t/"@.len() as int) =~= reference);
    }
    if let Some((reference, action)) = edit_path(request.path@) {
        reveal_strlit("/t/");
        reveal_strlit("/");
        let rest = request.path@.skip(3);
        crate::text::lemma_cut_last_parts(rest, '/');
        assert("/"@ =~= seq!['/']);
        assert(request.path@ =~= request.path@.take(3) + rest);
        assert(request.path@ =~= "/t/"@ + reference + "/"@ + action);
    }
}

/// After an edit the browser is sent to the page of that very ticket, with the message where the
/// edit failed.
pub proof fn an_edit_leads_back_to_its_ticket(
    reference: &str,
    outcome: &Result<(), String>,
    r: Response,
)
    requires
        call_ensures(edit_response, (reference, outcome), r),
    ensures
        r.status == 303,
        r.location matches Some(location) && location@ == match outcome {
            Ok(()) => "/t/"@ + reference@,
            Err(message) => "/t/"@ + reference@ + "?error="@ + crate::percent::percent_encoded(
                message@,
            ),
        },
{
}

/// The two redirects lead to the page of the ticket that they were made for, the one with the message
/// behind it.
pub proof fn redirects_name_their_ticket(
    reference: &str,
    message: &str,
    failed: Response,
    done: Response,
)
    requires
        call_ensures(redirect_with_error, (reference, message), failed),
        call_ensures(redirect_to_detail, (reference,), done),
    ensures
        failed.status == 303,
        failed.location matches Some(to) && to@ == "/t/"@ + reference@ + "?error="@
            + crate::percent::percent_encoded(message@),
        done.status == 303,
        done.location matches Some(to) && to@ == "/t/"@ + reference@,
{
}

/// A request carries the token where the field `csrf` of its form is the token of the server.
pub proof fn the_token_is_that_of_the_server(
    request: &Request,
    server: &Server,
    r: bool,
    field: Option<String>,
)
    requires
        call_ensures(check_csrf, (request, server), r),
        call_ensures(Request::form_field, (request, "csrf"), field),
    ensures
        r <==> (field matches Some(token) && token@ == server.csrf@),
{
}

/// The changes to tags are those that were asked for: the one is added before the other is removed.
pub proof fn tags_are_added_before_they_are_removed(
    add: Option<String>,
    remove: Option<String>,
    r: Vec<TagChange>,
)
    requires
        call_ensures(tag_changes, (add, remove), r),
    ensures
        adds_and_removes(r@, add.deep_view(), remove.deep_view()),
{
    let wanted = posted_tag_changes(add.deep_view(), remove.deep_view());
    assert(tag_changes_of(r@).len() == wanted.len());
    if r@.len() > 0 {
        assert(tag_changes_of(r@)[0] == r@[0]@);
        assert(tag_changes_of(r@).last() == r@.last()@);
    }
}

} // verus!
