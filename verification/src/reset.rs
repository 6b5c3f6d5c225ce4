//! Emptying the store.

use vstd::prelude::*;
use vstd::string::*;

use crate::number::count_text;
use crate::text::out_push;
use crate::text::same;
use crate::text::trim;

verus! {

/// How to empty the store: without asking where `yes` is set.
#[derive(Debug, Clone, Copy, PartialEq, Eq)]
pub struct Args {
    pub yes: bool,
}

/// What has to be done: nothing, to ask first, or to empty the store.
#[derive(Debug, Clone, Copy, PartialEq, Eq, Structural)]
pub enum ResetStep {
    Nothing,
    Ask,
    Reset,
}

/// What is said where there is nothing to do.
pub const EMPTY_MESSAGE: &'static str = "Store is already empty \u{2014} nothing to reset.";

/// The question.
pub const QUESTION: &'static str = "Type 'yes' to confirm: ";

/// What is said where the answer was no.
pub const CANCELLED_MESSAGE: &'static str = "Reset cancelled.";

/// What is said in the end.
pub const DONE_MESSAGE: &'static str = "Reset complete \u{2014} ticgit store is now empty.";

/// How much a store holds.
#[derive(Debug, Clone, Copy, PartialEq, Eq)]
pub struct Contents {
    pub tickets: usize,
    pub writeups: usize,
    pub views: usize,
    pub users: usize,
}

impl Contents {
    /// Whether a store holds nothing at all.
    pub open spec fn is_nothing(self) -> bool {
        self.tickets == 0 && self.writeups == 0 && self.views == 0 && self.users == 0
    }

    /// Whether a store holds nothing at all.
    pub fn is_empty(&self) -> (r: bool)
        ensures
            r == self.is_nothing(),
    {
        self.tickets == 0 && self.writeups == 0 && self.views == 0 && self.users == 0
    }
}

/// What has to be done with a store: there is nothing to do only where it holds no ticket, writeup,
/// view or user mapping.
pub fn first_step(contents: &Contents, args: &Args) -> (r: ResetStep)
    ensures
        r == (if contents.is_nothing() {
            ResetStep::Nothing
        } else if args.yes {
            ResetStep::Reset
        } else {
            ResetStep::Ask
        }),
{
    if contents.is_empty() {
        ResetStep::Nothing
    } else if args.yes {
        ResetStep::Reset
    } else {
        ResetStep::Ask
    }
}

/// The warning before the question.
pub open spec fn warning_text(count: int) -> Seq<char> {
    "This will permanently delete all "@ + crate::number::decimal(count)
        + " ticket(s) and every writeup, view, and user mapping in this repository's ticgit store."@
}

/// The warning before the question.
pub fn warning(count: usize) -> (r: String)
    ensures
        r@ == warning_text(count as int),
{
    let mut out = "This will permanently delete all ".to_owned();
    out_push(&mut out, count_text(count).as_str());
    out_push(
        &mut out,
        " ticket(s) and every writeup, view, and user mapping in this repository's ticgit store.",
    );
    out
}

/// What follows the answer: only `yes` empties the store.
pub fn after_answer(line: &str) -> (r: ResetStep)
    ensures
        r == (if crate::text::trimmed(line@) == "yes"@ {
            ResetStep::Reset
        } else {
            ResetStep::Nothing
        }),
{
    if same(trim(line).as_str(), "yes") {
        ResetStep::Reset
    } else {
        ResetStep::Nothing
    }
}

// -- laws -------------------------------------------------------------------

/// A store is left alone only where it holds nothing at all. Where it holds anything, it is emptied
/// at once if that was asked for, and not without a question if it was not.
pub proof fn nothing_is_deleted_unasked(contents: &Contents, args: &Args, step: ResetStep)
    requires
        call_ensures(first_step, (contents, args), step),
    ensures
        step == ResetStep::Nothing <==> contents.tickets == 0 && contents.writeups == 0
            && contents.views == 0 && contents.users == 0,
        step == ResetStep::Reset ==> args.yes,
        step == ResetStep::Ask ==> !args.yes,
{
}

/// The answer `yes` empties the store, whatever white space is around it, and no other answer does.
pub proof fn only_yes_deletes(line: &str, step: ResetStep)
    requires
        call_ensures(after_answer, (line,), step),
    ensures
        step == ResetStep::Reset <==> crate::text::trimmed(line@) == "yes"@,
        step != ResetStep::Ask,
{
}

/// The warning tells how many tickets will be deleted, and what else.
pub proof fn the_warning_counts_the_tickets(count: usize, r: String)
    requires
        call_ensures(warning, (count,), r),
    ensures
        crate::text::holds(
            r@,
            "delete all "@ + crate::number::decimal(count as int)
                + " ticket(s) and every writeup, view, and user mapping"@,
        ),
{
    reveal_strlit("This will permanently delete all ");
    reveal_strlit("delete all ");
    reveal_strlit(
        " ticket(s) and every writeup, view, and user mapping in this repository's ticgit store.",
    );
    reveal_strlit(" ticket(s) and every writeup, view, and user mapping");
    let start = "This will permanently delete all "@;
    let end =
        " ticket(s) and every writeup, view, and user mapping in this repository's ticgit store."@;
    let open = "delete all "@;
    let close = " ticket(s) and every writeup, view, and user mapping"@;
    let number = crate::number::decimal(count as int);
    let before = start.take(start.len() - open.len());
    let after = end.skip(close.len() as int);
    assert(start =~= before + open);
    assert(end =~= close + after);
    crate::text::lemma_holds(before, open + number + close, after);
    assert(before + (open + number + close) + after =~= r@);
}

} // verus!
