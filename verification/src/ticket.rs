//! Tickets, as the pages read them.

use vstd::prelude::*;
use vstd::string::*;

use crate::moment::Timestamp;
use crate::text::chars_of;
use crate::text::join;
use crate::text::same;
use crate::text::text_between;

verus! {

// -- ids --------------------------------------------------------------------

/// The hyphenated form of an id: its 32 hexadecimal digits in groups of 8, 4, 4, 4 and 12.
pub open spec fn uuid_text(id: u128) -> Seq<char> {
    let digits = crate::number::hex(id as nat, 32);
    digits.subrange(0, 8) + "-"@ + digits.subrange(8, 12) + "-"@ + digits.subrange(12, 16) + "-"@
        + digits.subrange(16, 20) + "-"@ + digits.subrange(20, 32)
}

/// The first six digits of an id.
pub open spec fn short_text(id: u128) -> Seq<char> {
    uuid_text(id).take(6)
}

/// The short forms of `ids`.
pub open spec fn short_texts(ids: Seq<u128>) -> Seq<Seq<char>> {
    Seq::new(ids.len(), |i: int| short_text(ids[i]))
}

/// `uuid::Uuid`'s `Display` form is the hyphenated one, in lower case, most significant digit
/// first.
#[verifier::external_body]
pub(crate) fn uuid_string(id: u128) -> (r: String)
    ensures
        r@ == uuid_text(id),
{
    uuid::Uuid::from_u128(id).to_string()
}

/// The first six digits of an id.
pub fn short_uuid(id: u128) -> (r: String)
    ensures
        r@ == short_text(id),
{
    let chars = chars_of(uuid_string(id).as_str());
    proof {
        crate::number::lemma_hex(id as nat, 32);
        assert(chars@.subrange(0, 6) =~= chars@.take(6));
    }
    text_between(&chars, 0, 6)
}

/// The short forms of `ids`, with commas between them.
pub fn join_uuids(ids: &Vec<u128>) -> (r: String)
    ensures
        r@ == crate::text::joined(short_texts(ids@), ", "@),
{
    let mut parts: Vec<String> = Vec::new();
    let mut i: usize = 0;
    while i < ids.len()
        invariant
            i <= ids@.len(),
            parts.deep_view() == short_texts(ids@).take(i as int),
        decreases ids@.len() - i,
    {
        let ghost before = parts.deep_view();
        parts.push(short_uuid(ids[i]));
        assert(parts.deep_view() =~= before.push(short_text(ids@[i as int])));
        assert(parts.deep_view() =~= short_texts(ids@).take(i + 1));
        i = i + 1;
    }
    assert(short_texts(ids@).take(i as int) =~= short_texts(ids@));
    join(&parts, ", ")
}

// -- lifecycle --------------------------------------------------------------

/// Whether a ticket still needs work.
#[derive(Debug, Clone, Copy, PartialEq, Eq, Structural)]
pub enum TicketStatus {
    Open,
    Closed,
}

impl TicketStatus {
    /// The spelling of a status.
    pub open spec fn name(self) -> Seq<char> {
        match self {
            TicketStatus::Open => "open"@,
            TicketStatus::Closed => "closed"@,
        }
    }

    /// The spelling of a status.
    pub fn as_str(&self) -> (r: &'static str)
        ensures
            r@ == self.name(),
    {
        match self {
            TicketStatus::Open => "open",
            TicketStatus::Closed => "closed",
        }
    }
}

/// A step of the workflow: its spelling, and the status of the tickets that are in it.
#[derive(Debug, Clone, PartialEq, Eq)]
pub struct TicketState {
    pub name: String,
    pub status: TicketStatus,
}

impl View for TicketState {
    type V = (Seq<char>, TicketStatus);

    open spec fn view(&self) -> (Seq<char>, TicketStatus) {
        (self.name@, self.status)
    }
}

/// The state of a ticket that nothing has happened to.
pub open spec fn initial_state() -> (Seq<char>, TicketStatus) {
    ("new"@, TicketStatus::Open)
}

impl TicketState {
    /// The state of a ticket that nothing has happened to.
    pub fn initial() -> (r: TicketState)
        ensures
            r@ == initial_state(),
    {
        TicketState { name: "new".to_owned(), status: TicketStatus::Open }
    }

    /// The spelling of a state.
    pub fn as_str(&self) -> (r: &str)
        ensures
            r@ == self@.0,
    {
        self.name.as_str()
    }

    /// The status of the tickets in a state.
    pub fn status(&self) -> (r: TicketStatus)
        ensures
            r == self@.1,
    {
        self.status
    }

    /// Whether two states are the same.
    pub fn same_as(&self, other: &TicketState) -> (r: bool)
        ensures
            r == (self@ == other@),
    {
        same(self.name.as_str(), other.name.as_str()) && self.status == other.status
    }

    /// A copy.
    pub fn copy(&self) -> (r: TicketState)
        ensures
            r@ == self@,
    {
        TicketState { name: self.name.clone(), status: self.status }
    }
}

// -- people and moments -----------------------------------------------------

/// Someone who works on tickets: the address that identifies them and the name to show.
#[derive(Debug, Clone, PartialEq, Eq)]
pub struct Person {
    pub email: String,
    pub name: String,
}

/// A point in time together with its age, in words, when the page is made.
#[derive(Debug, Clone, PartialEq, Eq)]
pub struct Moment {
    pub time: Timestamp,
    pub age: String,
}

// -- tickets ----------------------------------------------------------------

/// A remark on a ticket.
#[derive(Debug, Clone, PartialEq, Eq)]
pub struct Comment {
    pub author: Person,
    pub at: Moment,
    pub body: String,
}

/// A ticket.
#[derive(Debug, Clone, PartialEq, Eq)]
pub struct Ticket {
    pub id: u128,
    pub title: String,
    pub description: Option<String>,
    pub spec: Option<String>,
    pub status: TicketStatus,
    pub state: TicketState,
    pub assigned: Option<Person>,
    pub priority: Option<i64>,
    pub points: Option<i64>,
    pub milestone: Option<String>,
    pub code: Option<String>,
    pub parent: Option<u128>,
    pub children: Vec<u128>,
    pub depends_on: Vec<u128>,
    pub blocks: Vec<u128>,
    pub tags: Vec<String>,
    pub meta: Vec<(String, String)>,
    pub comments: Vec<Comment>,
    pub created_at: Moment,
    pub created_by: Person,
}

impl Ticket {
    /// The id as links and lists show it.
    pub fn short_id(&self) -> (r: String)
        ensures
            r@ == short_text(self.id),
    {
        short_uuid(self.id)
    }
}

// -- laws -------------------------------------------------------------------

/// The short id of a ticket is how its own id starts: its first six digits.
pub proof fn a_short_id_starts_the_id(ticket: &Ticket, r: String)
    requires
        call_ensures(Ticket::short_id, (ticket,), r),
    ensures
        r@.len() == 6,
        uuid_text(ticket.id).take(6) == r@,
{
    crate::number::lemma_hex(ticket.id as nat, 32);
}

/// The short forms of ids are joined in their order, one for each id.
pub proof fn ids_are_joined_in_order(ids: &Vec<u128>, r: String) -> (parts: Seq<Seq<char>>)
    requires
        call_ensures(join_uuids, (ids,), r),
    ensures
        parts.len() == ids@.len(),
        r@ == crate::text::joined(parts, ", "@),
        forall|i: int, s: String|
            0 <= i < parts.len() && #[trigger] call_ensures(short_uuid, (ids@[i],), s)
                ==> #[trigger] parts[i] == s@,
{
    short_texts(ids@)
}

/// A status is spelled as it is called, a state by its own name; a state is the same as another where
/// name and status are, and so is a copy. A new ticket is in the open state `new`.
pub proof fn states_are_known_by_name_and_status(
    status: &TicketStatus,
    spelled: &'static str,
    state: &TicketState,
    name: &str,
    of: TicketStatus,
    other: &TicketState,
    same_one: bool,
    copy: TicketState,
    initial: TicketState,
)
    requires
        call_ensures(TicketStatus::as_str, (status,), spelled),
        call_ensures(TicketState::as_str, (state,), name),
        call_ensures(TicketState::status, (state,), of),
        call_ensures(TicketState::same_as, (state, other), same_one),
        call_ensures(TicketState::copy, (state,), copy),
        call_ensures(TicketState::initial, (), initial),
    ensures
        spelled@ == match status {
            TicketStatus::Open => "open"@,
            TicketStatus::Closed => "closed"@,
        },
        name@ == state.name@,
        of == state.status,
        same_one <==> state.name@ == other.name@ && state.status == other.status,
        copy.name@ == state.name@ && copy.status == state.status,
        initial.name@ == "new"@ && initial.status == TicketStatus::Open,
{
}

} // verus!
