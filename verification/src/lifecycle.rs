//! A ticket's way through its states, told from the changes that were recorded.

use vstd::prelude::*;
use vstd::string::*;

use crate::moment::Duration;
use crate::moment::Timestamp;
use crate::text::same;
use crate::ticket::Moment;
use crate::ticket::Person;
use crate::ticket::Ticket;
use crate::ticket::TicketState;
use crate::ticket::TicketStatus;

verus! {

// -- recorded changes -------------------------------------------------------

/// A recorded change of a field. `state` is what the value names, where it names a state.
#[derive(Debug, Clone, PartialEq, Eq)]
pub struct HistoryEntry {
    pub field: String,
    pub value: String,
    pub operation: String,
    pub author: Person,
    pub at: Moment,
    pub state: Option<TicketState>,
}

/// A recorded change, as mathematical values.
#[verifier::ext_equal]
pub struct EntryView {
    pub field: Seq<char>,
    pub value: Seq<char>,
    pub operation: Seq<char>,
    pub email: Seq<char>,
    pub name: Seq<char>,
    pub at: Timestamp,
    pub age: Seq<char>,
    pub state: Option<(Seq<char>, TicketStatus)>,
}

impl View for HistoryEntry {
    type V = EntryView;

    open spec fn view(&self) -> EntryView {
        EntryView {
            field: self.field@,
            value: self.value@,
            operation: self.operation@,
            email: self.author.email@,
            name: self.author.name@,
            at: self.at.time,
            age: self.at.age@,
            state: match self.state {
                Some(state) => Some(state@),
                None => None,
            },
        }
    }
}

/// The changes of a history.
pub open spec fn entries_of(history: Seq<HistoryEntry>) -> Seq<EntryView> {
    Seq::new(history.len(), |i: int| history[i]@)
}

/// A copy of a person.
fn copy_person(person: &Person) -> (r: Person)
    ensures
        r.email@ == person.email@,
        r.name@ == person.name@,
{
    Person { email: person.email.clone(), name: person.name.clone() }
}

/// A copy of a moment.
fn copy_moment(moment: &Moment) -> (r: Moment)
    ensures
        r.time == moment.time,
        r.age@ == moment.age@,
{
    Moment { time: moment.time, age: moment.age.clone() }
}

impl HistoryEntry {
    /// A copy.
    pub fn copy(&self) -> (r: HistoryEntry)
        ensures
            r@ == self@,
    {
        HistoryEntry {
            field: self.field.clone(),
            value: self.value.clone(),
            operation: self.operation.clone(),
            author: copy_person(&self.author),
            at: copy_moment(&self.at),
            state: match &self.state {
                Some(state) => Some(state.copy()),
                None => None,
            },
        }
    }
}

// -- the order of changes ---------------------------------------------------

/// `s` with `e` put in after all that is not later.
pub open spec fn put_in(s: Seq<EntryView>, e: EntryView) -> Seq<EntryView>
    decreases s.len(),
{
    if s.len() == 0 || s.last().at.instant() <= e.at.instant() {
        s.push(e)
    } else {
        put_in(s.drop_last(), e).push(s.last())
    }
}

/// The changes from the earliest to the latest. Those of one point in time keep their order.
pub open spec fn by_time(h: Seq<EntryView>) -> Seq<EntryView>
    decreases h.len(),
{
    if h.len() == 0 {
        h
    } else {
        put_in(by_time(h.drop_last()), h.last())
    }
}

/// Whether changes stand from the earliest to the latest.
pub open spec fn is_chronological(s: Seq<EntryView>) -> bool {
    forall|i: int, j: int|
        0 <= i <= j < s.len() ==> (#[trigger] s[i]).at.instant() <= (
        #[trigger] s[j]).at.instant()
}

/// The changes of one point in time, in order.
pub open spec fn at_instant(s: Seq<EntryView>, instant: int) -> Seq<EntryView>
    decreases s.len(),
{
    if s.len() == 0 {
        s
    } else if s.last().at.instant() == instant {
        at_instant(s.drop_last(), instant).push(s.last())
    } else {
        at_instant(s.drop_last(), instant)
    }
}

proof fn lemma_put_in(s: Seq<EntryView>, e: EntryView)
    requires
        is_chronological(s),
    ensures
        is_chronological(put_in(s, e)),
        put_in(s, e).to_multiset() == s.to_multiset().insert(e),
        put_in(s, e).len() == s.len() + 1,
        forall|i: int|
            0 <= i < put_in(s, e).len() ==> (#[trigger] put_in(s, e)[i]) == e || s.contains(
                put_in(s, e)[i],
            ),
    decreases s.len(),
{
    broadcast use vstd::seq_lib::group_to_multiset_ensures;

    let now = put_in(s, e);
    if s.len() == 0 || s.last().at.instant() <= e.at.instant() {
        assert forall|i: int| 0 <= i < now.len() implies (#[trigger] now[i]) == e || s.contains(
            now[i],
        ) by {
            if i < s.len() {
                assert(now[i] == s[i]);
            }
        }
        assert forall|i: int, j: int| 0 <= i <= j < now.len() implies (
        #[trigger] now[i]).at.instant() <= (#[trigger] now[j]).at.instant() by {
            if j == s.len() && i < s.len() {
                assert(s[i].at.instant() <= s[s.len() - 1].at.instant());
            }
        }
    } else {
        let front = put_in(s.drop_last(), e);
        lemma_put_in(s.drop_last(), e);
        assert(now == front.push(s.last()));
        assert(s.drop_last().push(s.last()) =~= s);
        assert forall|i: int| 0 <= i < now.len() implies (#[trigger] now[i]) == e || s.contains(
            now[i],
        ) by {
            if i < front.len() {
                assert(now[i] == front[i]);
                if now[i] != e {
                    let k = choose|k: int|
                        0 <= k < s.drop_last().len() && s.drop_last()[k] == now[i];
                    assert(s[k] == now[i]);
                }
            } else {
                assert(now[i] == s[s.len() - 1]);
            }
        }
        assert forall|i: int, j: int| 0 <= i <= j < now.len() implies (
        #[trigger] now[i]).at.instant() <= (#[trigger] now[j]).at.instant() by {
            if j == front.len() && i < front.len() {
                assert(now[i] == front[i]);
                if front[i] != e {
                    let k = choose|k: int|
                        0 <= k < s.drop_last().len() && s.drop_last()[k] == front[i];
                    assert(s[k].at.instant() <= s[s.len() - 1].at.instant());
                }
            } else if j < front.len() {
                assert(now[i] == front[i] && now[j] == front[j]);
            }
        }
        assert(front.to_multiset() == s.drop_last().to_multiset().insert(e));
        assert(now.to_multiset() =~= s.to_multiset().insert(e));
    }
}

proof fn lemma_put_in_instant(s: Seq<EntryView>, e: EntryView, instant: int)
    requires
        is_chronological(s),
    ensures
        at_instant(put_in(s, e), instant) == if e.at.instant() == instant {
            at_instant(s, instant).push(e)
        } else {
            at_instant(s, instant)
        },
    decreases s.len(),
{
    let now = put_in(s, e);
    assert(now.drop_last().push(now.last()) =~= now);
    if s.len() == 0 || s.last().at.instant() <= e.at.instant() {
        assert(now.drop_last() =~= s);
    } else {
        assert(now.drop_last() =~= put_in(s.drop_last(), e));
        lemma_put_in_instant(s.drop_last(), e, instant);
    }
}

/// Putting changes in order keeps each of them, leaves the earliest first and the latest last, and
/// keeps the order of those of one point in time.
pub proof fn by_time_is_a_stable_sort(h: Seq<EntryView>, instant: int)
    ensures
        by_time(h).to_multiset() == h.to_multiset(),
        by_time(h).len() == h.len(),
        is_chronological(by_time(h)),
        at_instant(by_time(h), instant) == at_instant(h, instant),
    decreases h.len(),
{
    broadcast use vstd::seq_lib::group_to_multiset_ensures;

    if h.len() > 0 {
        by_time_is_a_stable_sort(h.drop_last(), instant);
        lemma_put_in(by_time(h.drop_last()), h.last());
        lemma_put_in_instant(by_time(h.drop_last()), h.last(), instant);
        assert(h.drop_last().push(h.last()) =~= h);
        assert(h.to_multiset() =~= h.drop_last().to_multiset().insert(h.last()));
    }
}

proof fn lemma_put_in_at(s: Seq<EntryView>, e: EntryView, p: int)
    requires
        0 <= p <= s.len(),
        p > 0 ==> s[p - 1].at.instant() <= e.at.instant(),
        forall|k: int| p <= k < s.len() ==> (#[trigger] s[k]).at.instant() > e.at.instant(),
    ensures
        put_in(s, e) == s.insert(p, e),
    decreases s.len(),
{
    if s.len() == p {
        assert(s.insert(p, e) =~= s.push(e));
    } else {
        assert(s[s.len() - 1].at.instant() > e.at.instant());
        lemma_put_in_at(s.drop_last(), e, p);
        assert(s.insert(p, e) =~= s.drop_last().insert(p, e).push(s.last()));
    }
}

/// The changes from the earliest to the latest. Those of one point in time keep their order.
pub fn sort_by_time(history: &Vec<HistoryEntry>) -> (r: Vec<HistoryEntry>)
    ensures
        entries_of(r@) == by_time(entries_of(history@)),
{
    let ghost h = entries_of(history@);
    let mut out: Vec<HistoryEntry> = Vec::new();
    let mut i: usize = 0;
    assert(h.take(0) =~= Seq::<EntryView>::empty());
    assert(entries_of(out@) =~= by_time(h.take(0)));
    while i < history.len()
        invariant
            i <= history@.len(),
            h == entries_of(history@),
            out@.len() == i,
            entries_of(out@) == by_time(h.take(i as int)),
        decreases history@.len() - i,
    {
        let entry = history[i].copy();
        let instant: i128 = entry.at.time.unix_nanos();
        let ghost s = entries_of(out@);
        let mut p: usize = out.len();
        while p > 0 && out[p - 1].at.time.unix_nanos() > instant
            invariant
                p <= out@.len(),
                s == entries_of(out@),
                instant == entry@.at.instant(),
                forall|k: int|
                    p <= k < s.len() ==> (#[trigger] s[k]).at.instant()
                        > entry@.at.instant(),
            decreases p,
        {
            assert(s[p - 1] == out@[p - 1]@);
            p = p - 1;
        }
        proof {
            if p > 0 {
                assert(s[p - 1] == out@[p - 1]@);
            }
            lemma_put_in_at(s, entry@, p as int);
            assert(h.take(i + 1).drop_last() =~= h.take(i as int));
            assert(h.take(i + 1).last() == history@[i as int]@);
        }
        let ghost e = entry@;
        out.insert(p, entry);
        assert(entries_of(out@) =~= s.insert(p as int, e));
        i = i + 1;
    }
    assert(h.take(i as int) =~= h);
    out
}

// -- visits -----------------------------------------------------------------

/// A stretch of time that a ticket spent in one state: when it came there and through whom, its
/// place among the visits, how long it stayed, and what else changed meanwhile.
#[derive(Debug, Clone, PartialEq, Eq)]
pub struct StateVisit {
    pub state: TicketState,
    pub entered_at: Moment,
    pub entered_by: Person,
    pub seq: usize,
    pub duration: Duration,
    pub steps: Vec<HistoryEntry>,
}

/// A visit, as mathematical values.
#[verifier::ext_equal]
pub struct VisitView {
    pub state: (Seq<char>, TicketStatus),
    pub entered_at: Timestamp,
    pub entered_age: Seq<char>,
    pub entered_by: Seq<char>,
    pub entered_name: Seq<char>,
    pub seq: int,
    pub duration: int,
    pub steps: Seq<EntryView>,
}

impl View for StateVisit {
    type V = VisitView;

    open spec fn view(&self) -> VisitView {
        VisitView {
            state: self.state@,
            entered_at: self.entered_at.time,
            entered_age: self.entered_at.age@,
            entered_by: self.entered_by.email@,
            entered_name: self.entered_by.name@,
            seq: self.seq as int,
            duration: self.duration.nanoseconds as int,
            steps: entries_of(self.steps@),
        }
    }
}

/// The visits of a ticket, in order.
#[derive(Debug, Clone, PartialEq, Eq)]
pub struct Lifecycle {
    pub visits: Vec<StateVisit>,
}

impl View for Lifecycle {
    type V = Seq<VisitView>;

    open spec fn view(&self) -> Seq<VisitView> {
        Seq::new(self.visits@.len(), |i: int| self.visits@[i]@)
    }
}

/// Whether a change is one of the state.
pub open spec fn is_transition(e: EntryView) -> bool {
    e.field == "state"@
}

/// Whether a change is neither one of the state nor of the status that goes with it.
pub open spec fn is_step(e: EntryView) -> bool {
    e.field != "state"@ && e.field != "status"@
}

/// The changes of the state, in order.
pub open spec fn transitions(s: Seq<EntryView>) -> Seq<EntryView>
    decreases s.len(),
{
    if s.len() == 0 {
        Seq::empty()
    } else if is_transition(s.last()) {
        transitions(s.drop_last()).push(s.last())
    } else {
        transitions(s.drop_last())
    }
}

/// Whether a point in time falls into the visit that the `i`-th change of the state opens: not
/// before that change, and before the next one. What comes before the first change falls into the
/// first visit.
pub open spec fn falls_into(t: Seq<EntryView>, i: int, instant: int) -> bool {
    &&& i > 0 ==> t[i].at.instant() <= instant
    &&& i + 1 < t.len() ==> instant < t[i + 1].at.instant()
}

/// The steps that fall into the `i`-th visit, in order.
pub open spec fn steps_within(s: Seq<EntryView>, t: Seq<EntryView>, i: int) -> Seq<EntryView>
    decreases s.len(),
{
    if s.len() == 0 {
        Seq::empty()
    } else if is_step(s.last()) && falls_into(t, i, s.last().at.instant()) {
        steps_within(s.drop_last(), t, i).push(s.last())
    } else {
        steps_within(s.drop_last(), t, i)
    }
}

/// All changes but those of the status.
pub open spec fn without_status(s: Seq<EntryView>) -> Seq<EntryView>
    decreases s.len(),
{
    if s.len() == 0 {
        Seq::empty()
    } else if s.last().field != "status"@ {
        without_status(s.drop_last()).push(s.last())
    } else {
        without_status(s.drop_last())
    }
}

/// The end of the visit that the `i`-th change of the state opens: the next one, or now.
pub open spec fn visit_end(t: Seq<EntryView>, i: int, now: Timestamp) -> int {
    if i + 1 < t.len() {
        t[i + 1].at.instant()
    } else {
        now.instant()
    }
}

/// The visit that the `i`-th change of the state opens.
pub open spec fn visit_of(s: Seq<EntryView>, i: int, now: Timestamp) -> VisitView {
    let t = transitions(s);
    VisitView {
        state: match t[i].state {
            Some(state) => state,
            None => crate::ticket::initial_state(),
        },
        entered_at: t[i].at,
        entered_age: t[i].age,
        entered_by: t[i].email,
        entered_name: t[i].name,
        seq: i,
        duration: visit_end(t, i, now) - t[i].at.instant(),
        steps: steps_within(s, t, i),
    }
}

/// The visit of a ticket whose state never changed.
pub open spec fn only_visit(ticket: Ticket, steps: Seq<EntryView>, now: Timestamp) -> VisitView {
    VisitView {
        state: ticket.state@,
        entered_at: ticket.created_at.time,
        entered_age: ticket.created_at.age@,
        entered_by: ticket.created_by.email@,
        entered_name: ticket.created_by.name@,
        seq: 0,
        duration: now.instant() - ticket.created_at.time.instant(),
        steps,
    }
}

/// The visits that a history tells of.
pub open spec fn visits_of(ticket: Ticket, history: Seq<EntryView>, now: Timestamp) -> Seq<VisitView> {
    let s = by_time(history);
    if transitions(s).len() == 0 {
        seq![only_visit(ticket, without_status(s), now)]
    } else {
        Seq::new(transitions(s).len(), |i: int| visit_of(s, i, now))
    }
}

// -- laws -------------------------------------------------------------------

/// A ticket has a visit for each change of its state, or a single one, and they are numbered from
/// zero.
pub proof fn visits_are_numbered(ticket: Ticket, history: Seq<EntryView>, now: Timestamp, i: int)
    requires
        0 <= i < visits_of(ticket, history, now).len(),
    ensures
        visits_of(ticket, history, now).len() == if transitions(by_time(history)).len() == 0 {
            1
        } else {
            transitions(by_time(history)).len()
        },
        visits_of(ticket, history, now)[i].seq == i,
{
}

/// Without a recorded change a ticket has been in its present state since it was created.
pub proof fn no_history_is_one_visit(ticket: Ticket, now: Timestamp)
    ensures
        visits_of(ticket, Seq::empty(), now) == seq![only_visit(ticket, Seq::empty(), now)],
{
    assert(transitions(Seq::<EntryView>::empty()).len() == 0);
    assert(without_status(Seq::<EntryView>::empty()) =~= Seq::<EntryView>::empty());
}

proof fn lemma_transitions(s: Seq<EntryView>)
    ensures
        forall|k: int|
            0 <= k < transitions(s).len() ==> s.contains(#[trigger] transitions(s)[k])
                && is_transition(transitions(s)[k]),
        is_chronological(s) ==> is_chronological(transitions(s)),
    decreases s.len(),
{
    if s.len() > 0 {
        let front = s.drop_last();
        let before = transitions(front);
        let t = transitions(s);
        lemma_transitions(front);
        assert forall|k: int| 0 <= k < t.len() implies s.contains(#[trigger] t[k])
            && is_transition(t[k]) by {
            if k < before.len() {
                assert(t[k] == before[k]);
                let n = choose|n: int| 0 <= n < front.len() && front[n] == before[k];
                assert(s[n] == t[k]);
            } else {
                assert(t[k] == s[s.len() - 1]);
            }
        }
        if is_chronological(s) {
            assert forall|i: int, j: int| 0 <= i <= j < front.len() implies (
            #[trigger] front[i]).at.instant() <= (#[trigger] front[j]).at.instant() by {
                assert(s[i].at.instant() <= s[j].at.instant());
            }
            assert forall|i: int, j: int| 0 <= i <= j < t.len() implies (
            #[trigger] t[i]).at.instant() <= (#[trigger] t[j]).at.instant() by {
                if j < before.len() {
                    assert(t[i] == before[i] && t[j] == before[j]);
                } else if i < before.len() {
                    assert(front.contains(before[i]));
                    let n = choose|n: int| 0 <= n < front.len() && front[n] == before[i];
                    assert(s[n].at.instant() <= s[s.len() - 1].at.instant());
                }
            }
        }
    }
}

/// The changes of the state of a history stand from the earliest to the latest.
pub proof fn visits_are_chronological(history: Seq<EntryView>)
    ensures
        is_chronological(transitions(by_time(history))),
{
    by_time_is_a_stable_sort(history, 0);
    lemma_transitions(by_time(history));
}

/// No point in time falls into two visits.
pub proof fn visits_do_not_overlap(history: Seq<EntryView>, i: int, j: int, instant: int)
    requires
        0 <= i < transitions(by_time(history)).len(),
        0 <= j < transitions(by_time(history)).len(),
        falls_into(transitions(by_time(history)), i, instant),
        falls_into(transitions(by_time(history)), j, instant),
    ensures
        i == j,
{
    let t = transitions(by_time(history));
    visits_are_chronological(history);
    if i < j {
        assert(t[i + 1].at.instant() <= t[j].at.instant());
    } else if j < i {
        assert(t[j + 1].at.instant() <= t[i].at.instant());
    }
}

/// Where no change of the state comes after now, no visit ends before it starts.
pub proof fn visits_do_not_end_early(
    ticket: Ticket,
    history: Seq<EntryView>,
    now: Timestamp,
    i: int,
)
    requires
        transitions(by_time(history)).len() > 0,
        transitions(by_time(history)).last().at.instant() <= now.instant(),
        0 <= i < visits_of(ticket, history, now).len(),
    ensures
        visits_of(ticket, history, now)[i].duration >= 0,
{
    let t = transitions(by_time(history));
    visits_are_chronological(history);
    if i + 1 < t.len() {
        assert(t[i].at.instant() <= t[i + 1].at.instant());
    } else {
        assert(t[i] == t.last());
    }
}

proof fn lemma_steps_within(s: Seq<EntryView>, t: Seq<EntryView>, i: int, e: EntryView)
    ensures
        steps_within(s, t, i).contains(e) <==> s.contains(e) && is_step(e) && falls_into(
            t,
            i,
            e.at.instant(),
        ),
    decreases s.len(),
{
    if s.len() > 0 {
        let front = s.drop_last();
        let before = steps_within(front, t, i);
        let now = steps_within(s, t, i);
        lemma_steps_within(front, t, i, e);
        if s.contains(e) && is_step(e) && falls_into(t, i, e.at.instant()) {
            let k = choose|k: int| 0 <= k < s.len() && s[k] == e;
            if k < front.len() {
                assert(front[k] == e);
                let n = choose|n: int| 0 <= n < before.len() && before[n] == e;
                assert(now[n] == e);
            } else {
                assert(now[now.len() - 1] == e);
            }
        }
        if now.contains(e) {
            let n = choose|n: int| 0 <= n < now.len() && now[n] == e;
            if n < before.len() {
                assert(before[n] == e);
                let k = choose|k: int| 0 <= k < front.len() && front[k] == e;
                assert(s[k] == e);
            } else {
                assert(s[s.len() - 1] == e);
            }
        }
    }
}

proof fn lemma_without_status(s: Seq<EntryView>, e: EntryView)
    requires
        s.contains(e),
        e.field != "status"@,
    ensures
        without_status(s).contains(e),
    decreases s.len(),
{
    let front = s.drop_last();
    let before = without_status(front);
    let now = without_status(s);
    let k = choose|k: int| 0 <= k < s.len() && s[k] == e;
    if k < front.len() {
        assert(front[k] == e);
        lemma_without_status(front, e);
        let n = choose|n: int| 0 <= n < before.len() && before[n] == e;
        assert(now[n] == e);
    } else {
        assert(now[now.len() - 1] == e);
    }
}

proof fn lemma_visit_at(t: Seq<EntryView>, instant: int, n: int) -> (i: int)
    requires
        0 < n <= t.len(),
        n < t.len() ==> instant < t[n].at.instant(),
    ensures
        0 <= i < n,
        falls_into(t, i, instant),
    decreases n,
{
    if n == 1 || t[n - 1].at.instant() <= instant {
        n - 1
    } else {
        lemma_visit_at(t, instant, n - 1)
    }
}

proof fn lemma_sorted_contains(history: Seq<EntryView>, e: EntryView)
    ensures
        by_time(history).contains(e) <==> history.contains(e),
{
    broadcast use vstd::seq_lib::group_to_multiset_ensures;

    by_time_is_a_stable_sort(history, 0);
    if history.contains(e) {
        assert(by_time(history).to_multiset().contains(e));
    }
    if by_time(history).contains(e) {
        assert(history.to_multiset().contains(e));
    }
}

/// Every recorded step is told of in a visit.
pub proof fn every_step_is_told(
    ticket: Ticket,
    history: Seq<EntryView>,
    now: Timestamp,
    e: EntryView,
) -> (i: int)
    requires
        history.contains(e),
        is_step(e),
    ensures
        0 <= i < visits_of(ticket, history, now).len(),
        visits_of(ticket, history, now)[i].steps.contains(e),
{
    let s = by_time(history);
    let t = transitions(s);
    lemma_sorted_contains(history, e);
    if t.len() == 0 {
        lemma_without_status(s, e);
        0
    } else {
        let i = lemma_visit_at(t, e.at.instant(), t.len() as int);
        lemma_steps_within(s, t, i, e);
        i
    }
}

/// A visit tells of recorded steps alone, and only of those that fall into it.
pub proof fn visits_tell_of_their_steps(
    ticket: Ticket,
    history: Seq<EntryView>,
    now: Timestamp,
    i: int,
    e: EntryView,
)
    requires
        transitions(by_time(history)).len() > 0,
        0 <= i < visits_of(ticket, history, now).len(),
        visits_of(ticket, history, now)[i].steps.contains(e),
    ensures
        history.contains(e),
        is_step(e),
        falls_into(transitions(by_time(history)), i, e.at.instant()),
{
    let s = by_time(history);
    lemma_steps_within(s, transitions(s), i, e);
    lemma_sorted_contains(history, e);
}

// -- the visits of a history ------------------------------------------------

/// The changes of the state, in order.
fn transitions_in(entries: &Vec<HistoryEntry>) -> (r: Vec<HistoryEntry>)
    ensures
        entries_of(r@) == transitions(entries_of(entries@)),
{
    let ghost s = entries_of(entries@);
    let mut out: Vec<HistoryEntry> = Vec::new();
    let mut i: usize = 0;
    assert(entries_of(out@) =~= transitions(s.take(0)));
    while i < entries.len()
        invariant
            i <= entries@.len(),
            s == entries_of(entries@),
            entries_of(out@) == transitions(s.take(i as int)),
        decreases entries@.len() - i,
    {
        let ghost before = entries_of(out@);
        assert(s.take(i + 1).drop_last() =~= s.take(i as int));
        assert(s.take(i + 1).last() == entries@[i as int]@);
        if same(entries[i].field.as_str(), "state") {
            out.push(entries[i].copy());
            assert(entries_of(out@) =~= before.push(entries@[i as int]@));
        }
        i = i + 1;
    }
    assert(s.take(i as int) =~= s);
    out
}

/// Whether a point in time falls into the `i`-th visit.
fn is_within(changes: &Vec<HistoryEntry>, i: usize, instant: i128) -> (r: bool)
    requires
        i < changes@.len(),
    ensures
        r == falls_into(entries_of(changes@), i as int, instant as int),
{
    let ghost t = entries_of(changes@);
    assert(t[i as int] == changes@[i as int]@);
    if i > 0 && instant < changes[i].at.time.unix_nanos() {
        return false;
    }
    if i < changes.len() - 1 {
        assert(t[i + 1] == changes@[i + 1]@);
        instant < changes[i + 1].at.time.unix_nanos()
    } else {
        true
    }
}

/// The steps that fall into the `i`-th visit, in order.
fn steps_in(entries: &Vec<HistoryEntry>, changes: &Vec<HistoryEntry>, i: usize) -> (r: Vec<
    HistoryEntry,
>)
    requires
        i < changes@.len(),
    ensures
        entries_of(r@) == steps_within(entries_of(entries@), entries_of(changes@), i as int),
{
    let ghost s = entries_of(entries@);
    let ghost t = entries_of(changes@);
    let mut out: Vec<HistoryEntry> = Vec::new();
    let mut k: usize = 0;
    assert(entries_of(out@) =~= steps_within(s.take(0), t, i as int));
    while k < entries.len()
        invariant
            k <= entries@.len(),
            i < changes@.len(),
            s == entries_of(entries@),
            t == entries_of(changes@),
            entries_of(out@) == steps_within(s.take(k as int), t, i as int),
        decreases entries@.len() - k,
    {
        let entry = &entries[k];
        let ghost before = entries_of(out@);
        assert(s.take(k + 1).drop_last() =~= s.take(k as int));
        assert(s.take(k + 1).last() == entries@[k as int]@);
        if !same(entry.field.as_str(), "state") && !same(entry.field.as_str(), "status")
            && is_within(changes, i, entry.at.time.unix_nanos()) {
            out.push(entry.copy());
            assert(entries_of(out@) =~= before.push(entries@[k as int]@));
        }
        k = k + 1;
    }
    assert(s.take(k as int) =~= s);
    out
}

/// All changes but those of the status.
fn without_status_in(entries: &Vec<HistoryEntry>) -> (r: Vec<HistoryEntry>)
    ensures
        entries_of(r@) == without_status(entries_of(entries@)),
{
    let ghost s = entries_of(entries@);
    let mut out: Vec<HistoryEntry> = Vec::new();
    let mut i: usize = 0;
    assert(entries_of(out@) =~= without_status(s.take(0)));
    while i < entries.len()
        invariant
            i <= entries@.len(),
            s == entries_of(entries@),
            entries_of(out@) == without_status(s.take(i as int)),
        decreases entries@.len() - i,
    {
        let ghost before = entries_of(out@);
        assert(s.take(i + 1).drop_last() =~= s.take(i as int));
        assert(s.take(i + 1).last() == entries@[i as int]@);
        if !same(entries[i].field.as_str(), "status") {
            out.push(entries[i].copy());
            assert(entries_of(out@) =~= before.push(entries@[i as int]@));
        }
        i = i + 1;
    }
    assert(s.take(i as int) =~= s);
    out
}

/// The visit of a ticket whose state never changed.
fn single_visit(ticket: &Ticket, steps: Vec<HistoryEntry>, now: Timestamp) -> (r: Lifecycle)
    ensures
        r@ == seq![only_visit(*ticket, entries_of(steps@), now)],
{
    let visit = StateVisit {
        state: ticket.state.copy(),
        entered_at: copy_moment(&ticket.created_at),
        entered_by: copy_person(&ticket.created_by),
        seq: 0,
        duration: Duration::between(ticket.created_at.time, now),
        steps,
    };
    assert(visit@ == only_visit(*ticket, entries_of(steps@), now));
    let mut visits: Vec<StateVisit> = Vec::new();
    visits.push(visit);
    let r = Lifecycle { visits };
    assert(r@ =~= seq![only_visit(*ticket, entries_of(steps@), now)]);
    r
}

/// The visit that the `i`-th change of the state opens.
fn visit_at(
    entries: &Vec<HistoryEntry>,
    changes: &Vec<HistoryEntry>,
    i: usize,
    now: Timestamp,
) -> (r: StateVisit)
    requires
        entries_of(changes@) == transitions(entries_of(entries@)),
        i < changes@.len(),
    ensures
        r@ == visit_of(entries_of(entries@), i as int, now),
{
    let change = &changes[i];
    let ghost t = entries_of(changes@);
    assert(t[i as int] == change@);
    let state = match &change.state {
        Some(state) => state.copy(),
        None => TicketState::initial(),
    };
    let end = if i < changes.len() - 1 {
        assert(t[i + 1] == changes@[i + 1]@);
        changes[i + 1].at.time
    } else {
        now
    };
    StateVisit {
        state,
        entered_at: copy_moment(&change.at),
        entered_by: copy_person(&change.author),
        seq: i,
        duration: Duration::between(change.at.time, end),
        steps: steps_in(entries, changes, i),
    }
}

/// The visits that a history tells of, as of `now`.
pub fn build_lifecycle(ticket: &Ticket, history: &Vec<HistoryEntry>, now: Timestamp) -> (r: Lifecycle)
    ensures
        r@ == visits_of(*ticket, entries_of(history@), now),
{
    if history.len() == 0 {
        let steps: Vec<HistoryEntry> = Vec::new();
        proof {
            assert(entries_of(history@) =~= Seq::<EntryView>::empty());
            assert(entries_of(steps@) =~= Seq::<EntryView>::empty());
            no_history_is_one_visit(*ticket, now);
        }
        return single_visit(ticket, steps, now);
    }
    let entries = sort_by_time(history);
    let changes = transitions_in(&entries);
    let ghost s = entries_of(entries@);
    if changes.len() == 0 {
        assert(transitions(s).len() == 0);
        return single_visit(ticket, without_status_in(&entries), now);
    }
    let mut visits: Vec<StateVisit> = Vec::new();
    let mut i: usize = 0;
    while i < changes.len()
        invariant
            i <= changes@.len(),
            visits@.len() == i,
            s == entries_of(entries@),
            entries_of(changes@) == transitions(s),
            forall|k: int| 0 <= k < i ==> (#[trigger] visits@[k])@ == visit_of(s, k, now),
        decreases changes@.len() - i,
    {
        visits.push(visit_at(&entries, &changes, i, now));
        i = i + 1;
    }
    let r = Lifecycle { visits };
    proof {
        assert(transitions(s).len() == changes@.len());
        assert(r@ =~= Seq::new(transitions(s).len(), |i: int| visit_of(s, i, now)));
    }
    r
}

// -- what visits are made of ------------------------------------------------

/// Whether the change at `a` comes before the one at `b`: by its time, or by its place in the
/// history where they have one time.
pub open spec fn comes_before(history: Seq<HistoryEntry>, a: int, b: int) -> bool {
    let x = history[a].at.time.instant();
    let y = history[b].at.time.instant();
    x < y || (x == y && a < b)
}

proof fn lemma_place(s: Seq<EntryView>, e: EntryView) -> (p: int)
    requires
        is_chronological(s),
    ensures
        0 <= p <= s.len(),
        put_in(s, e) == s.insert(p, e),
        forall|k: int| 0 <= k < p ==> (#[trigger] s[k]).at.instant() <= e.at.instant(),
        forall|k: int| p <= k < s.len() ==> (#[trigger] s[k]).at.instant() > e.at.instant(),
    decreases s.len(),
{
    if s.len() == 0 || s.last().at.instant() <= e.at.instant() {
        assert forall|k: int| 0 <= k < s.len() implies (#[trigger] s[k]).at.instant()
            <= e.at.instant() by {
            assert(s[k].at.instant() <= s[s.len() - 1].at.instant());
        }
        assert(s.push(e) =~= s.insert(s.len() as int, e));
        s.len() as int
    } else {
        let front = s.drop_last();
        assert forall|i: int, j: int| 0 <= i <= j < front.len() implies (
        #[trigger] front[i]).at.instant() <= (#[trigger] front[j]).at.instant() by {
            assert(s[i].at.instant() <= s[j].at.instant());
        }
        let p = lemma_place(front, e);
        assert forall|k: int| 0 <= k < p implies (#[trigger] s[k]).at.instant()
            <= e.at.instant() by {
            assert(front[k] == s[k]);
        }
        assert forall|k: int| p <= k < s.len() implies (#[trigger] s[k]).at.instant()
            > e.at.instant() by {
            if k < front.len() {
                assert(front[k] == s[k]);
            }
        }
        assert(front.insert(p, e).push(s.last()) =~= s.insert(p, e));
        p
    }
}

proof fn lemma_order(history: Seq<HistoryEntry>) -> (at: Seq<int>)
    ensures
        at.len() == history.len(),
        by_time(entries_of(history)).len() == history.len(),
        forall|k: int|
            0 <= k < at.len() ==> 0 <= #[trigger] at[k] < history.len() && by_time(
                entries_of(history),
            )[k] == history[at[k]]@,
        forall|i: int, j: int|
            0 <= i < j < at.len() ==> comes_before(history, #[trigger] at[i], #[trigger] at[j]),
        forall|n: int| 0 <= n < history.len() ==> #[trigger] at.contains(n),
    decreases history.len(),
{
    let h = entries_of(history);
    if history.len() == 0 {
        assert(by_time(h).len() == 0);
        Seq::empty()
    } else {
        let front = history.drop_last();
        let n = front.len() as int;
        let before = lemma_order(front);
        assert(h.drop_last() =~= entries_of(front));
        let s = by_time(entries_of(front));
        let e = history.last()@;
        by_time_is_a_stable_sort(entries_of(front), 0);
        assert(h.last() == e);
        let p = lemma_place(s, e);
        let at = before.insert(p, n);
        assert forall|k: int| 0 <= k < at.len() implies 0 <= #[trigger] at[k] < history.len()
            && by_time(h)[k] == history[at[k]]@ by {
            if k < p {
                assert(at[k] == before[k]);
            } else if k > p {
                assert(at[k] == before[k - 1]);
            }
        }
        assert forall|i: int, j: int| 0 <= i < j < at.len() implies comes_before(
            history,
            #[trigger] at[i],
            #[trigger] at[j],
        ) by {
            if i == p {
                assert(at[j] == before[j - 1]);
                assert(s[j - 1].at.instant() > e.at.instant());
                assert(s[j - 1] == front[before[j - 1]]@);
            } else if j == p {
                assert(at[i] == before[i]);
                assert(s[i].at.instant() <= e.at.instant());
                assert(s[i] == front[before[i]]@);
            } else {
                let a = if i < p {
                    i
                } else {
                    i - 1
                };
                let b = if j < p {
                    j
                } else {
                    j - 1
                };
                assert(at[i] == before[a] && at[j] == before[b]);
                assert(comes_before(front, before[a], before[b]));
                assert(front[before[a]] == history[before[a]]);
                assert(front[before[b]] == history[before[b]]);
            }
        }
        assert forall|m: int| 0 <= m < history.len() implies #[trigger] at.contains(m) by {
            if m == n {
                assert(at[p] == n);
            } else {
                assert(before.contains(m));
                let k = choose|k: int| 0 <= k < before.len() && before[k] == m;
                if k < p {
                    assert(at[k] == m);
                } else {
                    assert(at[k + 1] == m);
                }
            }
        }
        at
    }
}

proof fn lemma_transition_places(s: Seq<EntryView>) -> (at: Seq<int>)
    ensures
        at.len() == transitions(s).len(),
        forall|k: int|
            0 <= k < at.len() ==> 0 <= #[trigger] at[k] < s.len() && s[at[k]].field == "state"@
                && transitions(s)[k] == s[at[k]],
        forall|i: int, j: int| 0 <= i < j < at.len() ==> #[trigger] at[i] < #[trigger] at[j],
        forall|n: int| 0 <= n < s.len() && (#[trigger] s[n]).field == "state"@ ==> at.contains(n),
    decreases s.len(),
{
    if s.len() == 0 {
        Seq::empty()
    } else {
        let front = s.drop_last();
        let before = lemma_transition_places(front);
        let n = front.len() as int;
        let at = if s.last().field == "state"@ {
            before.push(n)
        } else {
            before
        };
        assert forall|k: int| 0 <= k < at.len() implies 0 <= #[trigger] at[k] < s.len()
            && s[at[k]].field == "state"@ && transitions(s)[k] == s[at[k]] by {
            if k < before.len() {
                assert(at[k] == before[k]);
            }
        }
        assert forall|i: int, j: int| 0 <= i < j < at.len() implies #[trigger] at[i]
            < #[trigger] at[j] by {
            assert(at[i] == before[i]);
            if j < before.len() {
                assert(at[j] == before[j]);
            }
        }
        assert forall|m: int| 0 <= m < s.len() && (#[trigger] s[m]).field
            == "state"@ implies at.contains(m) by {
            if m < n {
                assert(front[m] == s[m]);
                let k = choose|k: int| 0 <= k < before.len() && before[k] == m;
                assert(at[k] == m);
            } else {
                assert(at[before.len() as int] == n);
            }
        }
        at
    }
}

proof fn lemma_step_places(s: Seq<EntryView>, t: Seq<EntryView>, i: int) -> (at: Seq<int>)
    ensures
        at.len() == steps_within(s, t, i).len(),
        forall|k: int|
            0 <= k < at.len() ==> 0 <= #[trigger] at[k] < s.len() && steps_within(s, t, i)[k]
                == s[at[k]] && s[at[k]].field != "state"@ && s[at[k]].field != "status"@
                && falls_into(t, i, s[at[k]].at.instant()),
        forall|a: int, b: int| 0 <= a < b < at.len() ==> #[trigger] at[a] < #[trigger] at[b],
        forall|n: int|
            0 <= n < s.len() && (#[trigger] s[n]).field != "state"@ && s[n].field != "status"@
                && falls_into(t, i, s[n].at.instant()) ==> at.contains(n),
    decreases s.len(),
{
    if s.len() == 0 {
        Seq::empty()
    } else {
        let front = s.drop_last();
        let before = lemma_step_places(front, t, i);
        let n = front.len() as int;
        let at = if s.last().field != "state"@ && s.last().field != "status"@ && falls_into(
            t,
            i,
            s.last().at.instant(),
        ) {
            before.push(n)
        } else {
            before
        };
        assert forall|k: int| 0 <= k < at.len() implies 0 <= #[trigger] at[k] < s.len()
            && steps_within(s, t, i)[k] == s[at[k]] && s[at[k]].field != "state"@
            && s[at[k]].field != "status"@ && falls_into(t, i, s[at[k]].at.instant()) by {
            if k < before.len() {
                assert(at[k] == before[k]);
            }
        }
        assert forall|a: int, b: int| 0 <= a < b < at.len() implies #[trigger] at[a]
            < #[trigger] at[b] by {
            assert(at[a] == before[a]);
            if b < before.len() {
                assert(at[b] == before[b]);
            }
        }
        assert forall|m: int|
            0 <= m < s.len() && (#[trigger] s[m]).field != "state"@ && s[m].field != "status"@
                && falls_into(t, i, s[m].at.instant()) implies at.contains(m) by {
            if m < n {
                assert(front[m] == s[m]);
                let k = choose|k: int| 0 <= k < before.len() && before[k] == m;
                assert(at[k] == m);
            } else {
                assert(at[before.len() as int] == n);
            }
        }
        at
    }
}

/// Whether a visit tells of the change that opened it: the state that it names, or the initial one,
/// and its time, age and author.
pub open spec fn tells_of(visit: StateVisit, change: HistoryEntry) -> bool {
    &&& visit.entered_by.email@ == change.author.email@
    &&& visit.entered_by.name@ == change.author.name@
    &&& visit.entered_at.time == change.at.time
    &&& visit.entered_at.age@ == change.at.age@
    &&& match change.state {
        Some(state) => visit.state.name@ == state.name@ && visit.state.status == state.status,
        None => visit.state.name@ == "new"@ && visit.state.status == TicketStatus::Open,
    }
}

/// Where the state changed, there is a visit for each change of it and no other, in the order of
/// their times: with the state, the time and the author of that very change, for as long as it took
/// until the next one, or until now.
pub proof fn each_visit_tells_of_its_change(
    ticket: &Ticket,
    history: &Vec<HistoryEntry>,
    now: Timestamp,
    r: Lifecycle,
) -> (at: Seq<int>)
    requires
        call_ensures(build_lifecycle, (ticket, history, now), r),
        exists|n: int| 0 <= n < history@.len() && (#[trigger] history@[n]).field@ == "state"@,
    ensures
        at.len() == r.visits@.len(),
        forall|k: int|
            0 <= k < at.len() ==> 0 <= #[trigger] at[k] < history@.len()
                && history@[at[k]].field@ == "state"@ && tells_of(r.visits@[k], history@[at[k]])
                && r.visits@[k].seq == k && r.visits@[k].duration.nanoseconds == (if k + 1
                < at.len() {
                history@[at[k + 1]].at.time
            } else {
                now
            }).instant() - history@[at[k]].at.time.instant(),
        forall|i: int, j: int|
            0 <= i < j < at.len() ==> comes_before(history@, #[trigger] at[i], #[trigger] at[j]),
        forall|n: int|
            0 <= n < history@.len() && (#[trigger] history@[n]).field@ == "state"@ ==> at.contains(
                n,
            ),
{
    let h = entries_of(history@);
    let s = by_time(h);
    let order = lemma_order(history@);
    let places = lemma_transition_places(s);
    let t = transitions(s);
    let at = Seq::new(places.len(), |k: int| order[places[k]]);
    assert forall|n: int| 0 <= n < history@.len() && (#[trigger] history@[n]).field@
        == "state"@ implies at.contains(n) by {
        assert(order.contains(n));
        let m = choose|m: int| 0 <= m < order.len() && order[m] == n;
        assert(s[m] == history@[n]@);
        assert(places.contains(m));
        let k = choose|k: int| 0 <= k < places.len() && places[k] == m;
        assert(at[k] == n);
    }
    let some = choose|n: int|
        0 <= n < history@.len() && (#[trigger] history@[n]).field@ == "state"@;
    assert(at.contains(some));
    assert(t.len() > 0);
    assert(r@.len() == t.len());
    assert forall|k: int| 0 <= k < at.len() implies 0 <= #[trigger] at[k] < history@.len()
        && history@[at[k]].field@ == "state"@ && tells_of(r.visits@[k], history@[at[k]])
        && r.visits@[k].seq == k && r.visits@[k].duration.nanoseconds == (if k + 1 < at.len() {
        history@[at[k + 1]].at.time
    } else {
        now
    }).instant() - history@[at[k]].at.time.instant() by {
        assert(at[k] == order[places[k]]);
        assert(t[k] == s[places[k]]);
        assert(s[places[k]] == history@[at[k]]@);
        assert(r@[k] == r.visits@[k]@);
        assert(r@[k] == visit_of(s, k, now));
        if k + 1 < at.len() {
            assert(at[k + 1] == order[places[k + 1]]);
            assert(t[k + 1] == s[places[k + 1]]);
        }
    }
    assert forall|i: int, j: int| 0 <= i < j < at.len() implies comes_before(
        history@,
        #[trigger] at[i],
        #[trigger] at[j],
    ) by {
        assert(places[i] < places[j]);
        assert(at[i] == order[places[i]] && at[j] == order[places[j]]);
    }
    at
}

/// Whether a change is a copy of a recorded one.
pub open spec fn is_copy(copy: HistoryEntry, entry: HistoryEntry) -> bool {
    &&& copy.field@ == entry.field@
    &&& copy.value@ == entry.value@
    &&& copy.operation@ == entry.operation@
    &&& copy.author.email@ == entry.author.email@
    &&& copy.author.name@ == entry.author.name@
    &&& copy.at.time == entry.at.time
    &&& copy.at.age@ == entry.at.age@
}

/// The steps of a visit are the recorded changes of other fields than the state and the status that
/// were made before the next visit and, but for the first visit, not before this one, in the order
/// of their times.
pub proof fn each_visit_lists_its_steps(
    ticket: &Ticket,
    history: &Vec<HistoryEntry>,
    now: Timestamp,
    r: Lifecycle,
    i: int,
) -> (at: Seq<int>)
    requires
        call_ensures(build_lifecycle, (ticket, history, now), r),
        exists|n: int| 0 <= n < history@.len() && (#[trigger] history@[n]).field@ == "state"@,
        0 <= i < r.visits@.len(),
    ensures
        at.len() == r.visits@[i].steps@.len(),
        forall|k: int|
            0 <= k < at.len() ==> 0 <= #[trigger] at[k] < history@.len() && is_copy(
                r.visits@[i].steps@[k],
                history@[at[k]],
            ),
        forall|a: int, b: int|
            0 <= a < b < at.len() ==> comes_before(history@, #[trigger] at[a], #[trigger] at[b]),
        forall|n: int|
            0 <= n < history@.len() ==> (#[trigger] at.contains(n) <==> history@[n].field@
                != "state"@ && history@[n].field@ != "status"@ && (i > 0
                ==> r.visits@[i].entered_at.time.instant() <= history@[n].at.time.instant()) && (i
                + 1 < r.visits@.len() ==> history@[n].at.time.instant() < r.visits@[i
                + 1].entered_at.time.instant())),
{
    let s = by_time(entries_of(history@));
    let t = transitions(s);
    let order = lemma_order(history@);
    let opened = each_visit_tells_of_its_change(ticket, history, now, r);
    let changes = lemma_transition_places(s);
    assert(opened[0] == opened[0]);
    if t.len() == 0 {
        let some = choose|n: int|
            0 <= n < history@.len() && (#[trigger] history@[n]).field@ == "state"@;
        assert(order.contains(some));
        let m = choose|m: int| 0 <= m < order.len() && order[m] == some;
        assert(s[m].field == "state"@);
        assert(changes.contains(m));
    }
    assert(r@.len() == t.len());
    assert(r@[i] == r.visits@[i]@ && r@[i] == visit_of(s, i, now));
    if i + 1 < t.len() {
        assert(r@[i + 1] == r.visits@[i + 1]@ && r@[i + 1] == visit_of(s, i + 1, now));
    }
    let places = lemma_step_places(s, t, i);
    let at = Seq::new(places.len(), |k: int| order[places[k]]);
    let steps = r.visits@[i].steps@;
    assert(entries_of(steps) == steps_within(s, t, i));
    assert forall|k: int| 0 <= k < at.len() implies 0 <= #[trigger] at[k] < history@.len()
        && is_copy(steps[k], history@[at[k]]) by {
        assert(at[k] == order[places[k]]);
        assert(entries_of(steps)[k] == steps[k]@);
        assert(s[places[k]] == history@[at[k]]@);
    }
    assert forall|a: int, b: int| 0 <= a < b < at.len() implies comes_before(
        history@,
        #[trigger] at[a],
        #[trigger] at[b],
    ) by {
        assert(places[a] < places[b]);
        assert(at[a] == order[places[a]] && at[b] == order[places[b]]);
    }
    assert forall|n: int| 0 <= n < history@.len() implies (#[trigger] at.contains(n)
        <==> history@[n].field@ != "state"@ && history@[n].field@ != "status"@ && (i > 0
        ==> r.visits@[i].entered_at.time.instant() <= history@[n].at.time.instant()) && (i + 1
        < r.visits@.len() ==> history@[n].at.time.instant() < r.visits@[i
        + 1].entered_at.time.instant())) by {
        assert(order.contains(n));
        let m = choose|m: int| 0 <= m < order.len() && order[m] == n;
        assert(s[m] == history@[n]@);
        if at.contains(n) {
            let k = choose|k: int| 0 <= k < at.len() && at[k] == n;
            assert(order[places[k]] == n);
            if places[k] != m {
                if places[k] < m {
                    assert(comes_before(history@, order[places[k]], order[m]));
                } else {
                    assert(comes_before(history@, order[m], order[places[k]]));
                }
            }
        } else if falls_into(t, i, s[m].at.instant()) && s[m].field != "state"@ && s[m].field
            != "status"@ {
            assert(places.contains(m));
            let k = choose|k: int| 0 <= k < places.len() && places[k] == m;
            assert(at[k] == n);
        }
    }
    at
}

proof fn lemma_other_places(s: Seq<EntryView>) -> (at: Seq<int>)
    ensures
        at.len() == without_status(s).len(),
        forall|k: int|
            0 <= k < at.len() ==> 0 <= #[trigger] at[k] < s.len() && s[at[k]].field != "status"@
                && without_status(s)[k] == s[at[k]],
        forall|i: int, j: int| 0 <= i < j < at.len() ==> #[trigger] at[i] < #[trigger] at[j],
        forall|n: int| 0 <= n < s.len() && (#[trigger] s[n]).field != "status"@ ==> at.contains(n),
    decreases s.len(),
{
    if s.len() == 0 {
        Seq::empty()
    } else {
        let front = s.drop_last();
        let before = lemma_other_places(front);
        let n = front.len() as int;
        let at = if s.last().field != "status"@ {
            before.push(n)
        } else {
            before
        };
        assert forall|k: int| 0 <= k < at.len() implies 0 <= #[trigger] at[k] < s.len()
            && s[at[k]].field != "status"@ && without_status(s)[k] == s[at[k]] by {
            if k < before.len() {
                assert(at[k] == before[k]);
            }
        }
        assert forall|i: int, j: int| 0 <= i < j < at.len() implies #[trigger] at[i]
            < #[trigger] at[j] by {
            assert(at[i] == before[i]);
            if j < before.len() {
                assert(at[j] == before[j]);
            }
        }
        assert forall|m: int| 0 <= m < s.len() && (#[trigger] s[m]).field
            != "status"@ implies at.contains(m) by {
            if m < n {
                assert(front[m] == s[m]);
                let k = choose|k: int| 0 <= k < before.len() && before[k] == m;
                assert(at[k] == m);
            } else {
                assert(at[before.len() as int] == n);
            }
        }
        at
    }
}

/// Where the state never changed, the one visit lists every recorded change but those of the status,
/// in the order of their times.
pub proof fn without_a_change_all_steps_are_listed(
    ticket: &Ticket,
    history: &Vec<HistoryEntry>,
    now: Timestamp,
    r: Lifecycle,
) -> (at: Seq<int>)
    requires
        call_ensures(build_lifecycle, (ticket, history, now), r),
        forall|n: int| 0 <= n < history@.len() ==> (#[trigger] history@[n]).field@ != "state"@,
    ensures
        r.visits@.len() == 1,
        at.len() == r.visits@[0].steps@.len(),
        forall|k: int|
            0 <= k < at.len() ==> 0 <= #[trigger] at[k] < history@.len() && history@[at[k]].field@
                != "status"@ && is_copy(r.visits@[0].steps@[k], history@[at[k]]),
        forall|a: int, b: int|
            0 <= a < b < at.len() ==> comes_before(history@, #[trigger] at[a], #[trigger] at[b]),
        forall|n: int|
            0 <= n < history@.len() && (#[trigger] history@[n]).field@ != "status"@ ==> at.contains(
                n,
            ),
{
    without_a_change_the_ticket_stays(ticket, history, now, r);
    let s = by_time(entries_of(history@));
    let order = lemma_order(history@);
    let changes = lemma_transition_places(s);
    if transitions(s).len() > 0 {
        assert(changes[0] == changes[0]);
        assert(s[changes[0]] == history@[order[changes[0]]]@);
        assert(false);
    }
    assert(r@[0] == r.visits@[0]@);
    let places = lemma_other_places(s);
    let at = Seq::new(places.len(), |k: int| order[places[k]]);
    let steps = r.visits@[0].steps@;
    assert(entries_of(steps) == without_status(s));
    assert forall|k: int| 0 <= k < at.len() implies 0 <= #[trigger] at[k] < history@.len()
        && history@[at[k]].field@ != "status"@ && is_copy(steps[k], history@[at[k]]) by {
        assert(at[k] == order[places[k]]);
        assert(entries_of(steps)[k] == steps[k]@);
        assert(s[places[k]] == history@[at[k]]@);
    }
    assert forall|a: int, b: int| 0 <= a < b < at.len() implies comes_before(
        history@,
        #[trigger] at[a],
        #[trigger] at[b],
    ) by {
        assert(places[a] < places[b]);
        assert(at[a] == order[places[a]] && at[b] == order[places[b]]);
    }
    assert forall|n: int| 0 <= n < history@.len() && (#[trigger] history@[n]).field@
        != "status"@ implies at.contains(n) by {
        assert(order.contains(n));
        let m = choose|m: int| 0 <= m < order.len() && order[m] == n;
        assert(s[m] == history@[n]@);
        assert(places.contains(m));
        let k = choose|k: int| 0 <= k < places.len() && places[k] == m;
        assert(at[k] == n);
    }
    at
}

/// Where the state never changed, there is one visit: to the state of the ticket, since it was
/// created and by who created it, until now.
pub proof fn without_a_change_the_ticket_stays(
    ticket: &Ticket,
    history: &Vec<HistoryEntry>,
    now: Timestamp,
    r: Lifecycle,
)
    requires
        call_ensures(build_lifecycle, (ticket, history, now), r),
        forall|n: int| 0 <= n < history@.len() ==> (#[trigger] history@[n]).field@ != "state"@,
    ensures
        r.visits@.len() == 1,
        r.visits@[0].state.name@ == ticket.state.name@,
        r.visits@[0].state.status == ticket.state.status,
        r.visits@[0].entered_at.time == ticket.created_at.time,
        r.visits@[0].entered_at.age@ == ticket.created_at.age@,
        r.visits@[0].entered_by.email@ == ticket.created_by.email@,
        r.visits@[0].entered_by.name@ == ticket.created_by.name@,
        r.visits@[0].seq == 0,
        r.visits@[0].duration.nanoseconds == now.instant() - ticket.created_at.time.instant(),
{
    let s = by_time(entries_of(history@));
    let order = lemma_order(history@);
    let places = lemma_transition_places(s);
    if transitions(s).len() > 0 {
        assert(places[0] == places[0]);
        assert(s[places[0]] == history@[order[places[0]]]@);
        assert(false);
    }
    assert(r@.len() == 1);
    assert(r@[0] == r.visits@[0]@);
}

/// Sorting puts each change, as it was recorded, in the order of the times; those of one time keep
/// their order. `at` says where each one stood.
pub proof fn sorting_keeps_each_change(history: &Vec<HistoryEntry>, r: Vec<HistoryEntry>) -> (at:
    Seq<int>)
    requires
        call_ensures(sort_by_time, (history,), r),
    ensures
        at.len() == r@.len(),
        r@.len() == history@.len(),
        forall|k: int|
            0 <= k < at.len() ==> 0 <= #[trigger] at[k] < history@.len() && is_copy(
                r@[k],
                history@[at[k]],
            ),
        forall|i: int, j: int|
            0 <= i < j < at.len() ==> comes_before(history@, #[trigger] at[i], #[trigger] at[j]),
        forall|n: int| 0 <= n < history@.len() ==> #[trigger] at.contains(n),
{
    let at = lemma_order(history@);
    assert(entries_of(r@).len() == r@.len());
    assert forall|k: int| 0 <= k < at.len() implies 0 <= #[trigger] at[k] < history@.len()
        && is_copy(r@[k], history@[at[k]]) by {
        assert(entries_of(r@)[k] == r@[k]@);
    }
    at
}

} // verus!
