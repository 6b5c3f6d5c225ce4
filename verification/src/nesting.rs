//! The order of a list in which sub-tickets stand under their parents.

use vstd::prelude::*;

use std::collections::HashMap;
use std::collections::HashSet;

use crate::ticket::Ticket;

verus! {

broadcast use vstd::std_specs::hash::group_hash_axioms;

// -- model ------------------------------------------------------------------

/// Whether a ticket with this id is in the list.
pub open spec fn is_present(ts: Seq<Ticket>, id: u128) -> bool {
    exists|i: int| 0 <= i < ts.len() && (#[trigger] ts[i]).id == id
}

/// Whether a ticket stands on its own: it has no parent, or none in the list.
pub open spec fn is_root(ts: Seq<Ticket>, i: int) -> bool {
    match ts[i].parent {
        Some(parent) => !is_present(ts, parent),
        None => true,
    }
}

/// The positions of the first `n` tickets that stand on their own.
pub open spec fn roots(ts: Seq<Ticket>, n: int) -> Seq<int>
    decreases n,
{
    if n <= 0 {
        Seq::empty()
    } else if is_root(ts, n - 1) {
        roots(ts, n - 1).push(n - 1)
    } else {
        roots(ts, n - 1)
    }
}

/// The positions of those of the first `n` tickets whose parent is `id`.
pub open spec fn kids(ts: Seq<Ticket>, id: u128, n: int) -> Seq<int>
    decreases n,
{
    if n <= 0 {
        Seq::empty()
    } else if ts[n - 1].parent == Some(id) {
        kids(ts, id, n - 1).push(n - 1)
    } else {
        kids(ts, id, n - 1)
    }
}

/// The positions of the tickets whose parent is the one at `i`.
pub open spec fn children_of(ts: Seq<Ticket>, i: int) -> Seq<int> {
    kids(ts, ts[i].id, ts.len() as int)
}

/// The rows for a ticket that is shown at `depth`: its own, and those of its children one deeper.
pub open spec fn tree_rows(ts: Seq<Ticket>, i: int, depth: nat) -> Seq<(int, nat)>
    decreases ts.len() - depth, 0nat,
{
    if depth >= ts.len() {
        Seq::empty()
    } else {
        seq![(i, depth)] + forest_rows(ts, children_of(ts, i), depth + 1)
    }
}

/// The rows for tickets that are shown at `depth`, one after the other.
pub open spec fn forest_rows(ts: Seq<Ticket>, list: Seq<int>, depth: nat) -> Seq<(int, nat)>
    decreases ts.len() - depth, list.len() + 1,
{
    if depth > ts.len() || list.len() == 0 {
        Seq::empty()
    } else {
        forest_rows(ts, list.drop_last(), depth) + tree_rows(ts, list.last(), depth)
    }
}

/// The rows of a list: which ticket stands there, and how deep.
pub open spec fn listing(ts: Seq<Ticket>) -> Seq<(int, nat)> {
    forest_rows(ts, roots(ts, ts.len() as int), 0)
}

/// Whether the ticket at `i` has the one at `j` for its parent.
pub open spec fn is_child(ts: Seq<Ticket>, i: int, j: int) -> bool {
    &&& 0 <= i < ts.len()
    &&& 0 <= j < ts.len()
    &&& ts[i].parent == Some(ts[j].id)
}

/// Whether the ticket at `i` is `depth` steps below one that stands on its own.
pub open spec fn at_depth(ts: Seq<Ticket>, i: int, depth: nat) -> bool
    decreases depth,
{
    &&& 0 <= i < ts.len()
    &&& if depth == 0 {
        is_root(ts, i)
    } else {
        exists|j: int| #[trigger] is_child(ts, i, j) && at_depth(ts, j, (depth - 1) as nat)
    }
}

/// Whether going down from parent to child comes to an end. It does where the ids are distinct.
pub open spec fn is_nested(ts: Seq<Ticket>) -> bool {
    forall|i: int, depth: nat| #[trigger] at_depth(ts, i, depth) ==> depth < ts.len()
}

/// Whether no two tickets have the same id.
pub open spec fn has_distinct_ids(ts: Seq<Ticket>) -> bool {
    forall|i: int, j: int|
        0 <= i < ts.len() && 0 <= j < ts.len() && (#[trigger] ts[i]).id == (#[trigger] ts[j]).id
            ==> i == j
}

// -- facts ------------------------------------------------------------------

pub(crate) proof fn lemma_kids(ts: Seq<Ticket>, id: u128, n: int)
    requires
        0 <= n <= ts.len(),
    ensures
        forall|k: int|
            0 <= k < kids(ts, id, n).len() ==> 0 <= #[trigger] kids(ts, id, n)[k] < n
                && ts[kids(ts, id, n)[k]].parent == Some(id),
        forall|i: int|
            0 <= i < n && (#[trigger] ts[i]).parent == Some(id) ==> kids(ts, id, n).contains(i),
        kids(ts, id, n).no_duplicates(),
    decreases n,
{
    if n > 0 {
        let before = kids(ts, id, n - 1);
        let now = kids(ts, id, n);
        lemma_kids(ts, id, n - 1);
        assert forall|k: int| 0 <= k < now.len() implies 0 <= #[trigger] now[k] < n
            && ts[now[k]].parent == Some(id) by {
            if k < before.len() {
                assert(now[k] == before[k]);
            }
        }
        assert forall|i: int| 0 <= i < n && (#[trigger] ts[i]).parent == Some(id) implies now.contains(
            i,
        ) by {
            if i < n - 1 {
                let k = choose|k: int| 0 <= k < before.len() && before[k] == i;
                assert(now[k] == i);
            } else {
                assert(now[now.len() - 1] == i);
            }
        }
    }
}

pub(crate) proof fn lemma_roots(ts: Seq<Ticket>, n: int)
    requires
        0 <= n <= ts.len(),
    ensures
        forall|k: int|
            0 <= k < roots(ts, n).len() ==> 0 <= #[trigger] roots(ts, n)[k] < n && is_root(
                ts,
                roots(ts, n)[k],
            ),
        forall|i: int| 0 <= i < n && #[trigger] is_root(ts, i) ==> roots(ts, n).contains(i),
        roots(ts, n).no_duplicates(),
    decreases n,
{
    if n > 0 {
        let before = roots(ts, n - 1);
        let now = roots(ts, n);
        lemma_roots(ts, n - 1);
        assert forall|k: int| 0 <= k < now.len() implies 0 <= #[trigger] now[k] < n && is_root(
            ts,
            now[k],
        ) by {
            if k < before.len() {
                assert(now[k] == before[k]);
            }
        }
        assert forall|i: int| 0 <= i < n && #[trigger] is_root(ts, i) implies now.contains(i) by {
            if i < n - 1 {
                let k = choose|k: int| 0 <= k < before.len() && before[k] == i;
                assert(now[k] == i);
            } else {
                assert(now[now.len() - 1] == i);
            }
        }
    }
}

/// A child stands one deeper than its parent, and not on its own.
pub(crate) proof fn lemma_child_depth(ts: Seq<Ticket>, i: int, j: int, depth: nat)
    requires
        is_child(ts, i, j),
        at_depth(ts, j, depth),
    ensures
        at_depth(ts, i, depth + 1),
        !is_root(ts, i),
{
    assert(((depth + 1) - 1) as nat == depth);
    assert(is_present(ts, ts[j].id));
}

// -- which rows there are ---------------------------------------------------

/// Whether the ticket at `i` is `steps` steps below the one at `top`.
spec fn is_below(ts: Seq<Ticket>, top: int, i: int, steps: nat) -> bool
    decreases steps,
{
    if steps == 0 {
        i == top
    } else {
        exists|j: int| #[trigger] is_child(ts, i, j) && is_below(ts, top, j, (steps - 1) as nat)
    }
}

proof fn lemma_below_child(ts: Seq<Ticket>, top: int, kid: int, i: int, steps: nat)
    requires
        is_child(ts, kid, top),
        is_below(ts, kid, i, steps),
    ensures
        is_below(ts, top, i, steps + 1),
    decreases steps,
{
    assert(((steps + 1) - 1) as nat == steps);
    if steps == 0 {
        assert(is_below(ts, top, top, 0));
        assert(is_child(ts, i, top));
    } else {
        let j = choose|j: int|
            #[trigger] is_child(ts, i, j) && is_below(ts, kid, j, (steps - 1) as nat);
        lemma_below_child(ts, top, kid, j, (steps - 1) as nat);
        assert(is_child(ts, i, j) && is_below(ts, top, j, steps));
    }
}

proof fn lemma_tree_sound(ts: Seq<Ticket>, i: int, depth: nat, x: int, d: nat)
    requires
        0 <= i < ts.len(),
        tree_rows(ts, i, depth).contains((x, d)),
    ensures
        d >= depth,
        is_below(ts, i, x, (d - depth) as nat),
    decreases ts.len() - depth, 0nat,
{
    let rest = forest_rows(ts, children_of(ts, i), depth + 1);
    let all = tree_rows(ts, i, depth);
    let k = choose|k: int| 0 <= k < all.len() && all[k] == (x, d);
    lemma_kids(ts, ts[i].id, ts.len() as int);
    if k == 0 {
        assert(all[0] == (i, depth));
    } else {
        assert(rest[k - 1] == (x, d));
        lemma_forest_sound(ts, children_of(ts, i), depth + 1, x, d);
        let n = choose|n: int|
            0 <= n < children_of(ts, i).len() && is_below(
                ts,
                #[trigger] children_of(ts, i)[n],
                x,
                (d - (depth + 1)) as nat,
            );
        assert(is_child(ts, children_of(ts, i)[n], i));
        lemma_below_child(ts, i, children_of(ts, i)[n], x, (d - (depth + 1)) as nat);
        assert(((d - (depth + 1)) as nat + 1) as nat == (d - depth) as nat);
    }
}

proof fn lemma_forest_sound(ts: Seq<Ticket>, list: Seq<int>, depth: nat, x: int, d: nat)
    requires
        forall|k: int| 0 <= k < list.len() ==> 0 <= #[trigger] list[k] < ts.len(),
        forest_rows(ts, list, depth).contains((x, d)),
    ensures
        d >= depth,
        exists|n: int|
            0 <= n < list.len() && is_below(ts, #[trigger] list[n], x, (d - depth) as nat),
    decreases ts.len() - depth, list.len() + 1,
{
    let front = forest_rows(ts, list.drop_last(), depth);
    let last = tree_rows(ts, list.last(), depth);
    let all = forest_rows(ts, list, depth);
    let k = choose|k: int| 0 <= k < all.len() && all[k] == (x, d);
    if k < front.len() {
        assert(front[k] == (x, d));
        lemma_forest_sound(ts, list.drop_last(), depth, x, d);
        let n = choose|n: int|
            0 <= n < list.drop_last().len() && is_below(
                ts,
                #[trigger] list.drop_last()[n],
                x,
                (d - depth) as nat,
            );
        assert(list[n] == list.drop_last()[n]);
    } else {
        assert(last[k - front.len()] == (x, d));
        lemma_tree_sound(ts, list.last(), depth, x, d);
        assert(list[list.len() - 1] == list.last());
    }
}

proof fn lemma_below_depth(ts: Seq<Ticket>, top: int, depth: nat, i: int, steps: nat)
    requires
        at_depth(ts, top, depth),
        is_below(ts, top, i, steps),
    ensures
        at_depth(ts, i, depth + steps),
    decreases steps,
{
    if steps > 0 {
        let j = choose|j: int|
            #[trigger] is_child(ts, i, j) && is_below(ts, top, j, (steps - 1) as nat);
        lemma_below_depth(ts, top, depth, j, (steps - 1) as nat);
        lemma_child_depth(ts, i, j, (depth + (steps - 1)) as nat);
        assert((depth + (steps - 1)) as nat + 1 == depth + steps);
    }
}

proof fn lemma_forest_has(ts: Seq<Ticket>, list: Seq<int>, depth: nat, k: int, row: (int, nat))
    requires
        0 <= k < list.len(),
        depth <= ts.len(),
        tree_rows(ts, list[k], depth).contains(row),
    ensures
        forest_rows(ts, list, depth).contains(row),
    decreases list.len(),
{
    let front = forest_rows(ts, list.drop_last(), depth);
    let last = tree_rows(ts, list.last(), depth);
    let all = forest_rows(ts, list, depth);
    if k < list.len() - 1 {
        lemma_forest_has(ts, list.drop_last(), depth, k, row);
        let n = choose|n: int| 0 <= n < front.len() && front[n] == row;
        assert(all[n] == row);
    } else {
        let n = choose|n: int| 0 <= n < last.len() && last[n] == row;
        assert(all[front.len() + n] == row);
    }
}

proof fn lemma_below_listed(ts: Seq<Ticket>, top: int, depth: nat, x: int, steps: nat)
    requires
        is_nested(ts),
        at_depth(ts, top, depth),
        is_below(ts, top, x, steps),
    ensures
        tree_rows(ts, top, depth).contains((x, depth + steps)),
    decreases steps,
{
    assert(depth < ts.len());
    let rest = forest_rows(ts, children_of(ts, top), depth + 1);
    let all = tree_rows(ts, top, depth);
    if steps == 0 {
        assert(all[0] == (x, depth));
    } else {
        let kid = lemma_first_step(ts, top, x, steps);
        lemma_child_depth(ts, kid, top, depth);
        lemma_below_listed(ts, kid, depth + 1, x, (steps - 1) as nat);
        lemma_kids(ts, ts[top].id, ts.len() as int);
        let k = choose|k: int|
            0 <= k < children_of(ts, top).len() && children_of(ts, top)[k] == kid;
        assert(depth + 1 + (steps - 1) as nat == depth + steps);
        lemma_forest_has(ts, children_of(ts, top), depth + 1, k, (x, depth + steps));
        let n = choose|n: int| 0 <= n < rest.len() && rest[n] == (x, depth + steps);
        assert(all[n + 1] == (x, depth + steps));
    }
}

proof fn lemma_first_step(ts: Seq<Ticket>, top: int, x: int, steps: nat) -> (kid: int)
    requires
        steps > 0,
        is_below(ts, top, x, steps),
    ensures
        is_child(ts, kid, top),
        is_below(ts, kid, x, (steps - 1) as nat),
    decreases steps,
{
    let j = choose|j: int| #[trigger] is_child(ts, x, j) && is_below(ts, top, j, (steps - 1) as nat);
    if steps == 1 {
        assert(is_below(ts, x, x, 0));
        x
    } else {
        let kid = lemma_first_step(ts, top, j, (steps - 1) as nat);
        assert(is_child(ts, x, j) && is_below(ts, kid, j, (steps - 2) as nat));
        assert(((steps - 1) - 1) as nat == (steps - 2) as nat);
        kid
    }
}

proof fn lemma_has_root(ts: Seq<Ticket>, i: int, depth: nat) -> (top: int)
    requires
        at_depth(ts, i, depth),
    ensures
        at_depth(ts, top, 0),
        is_below(ts, top, i, depth),
    decreases depth,
{
    if depth == 0 {
        i
    } else {
        let j = choose|j: int| #[trigger] is_child(ts, i, j) && at_depth(ts, j, (depth - 1) as nat);
        let top = lemma_has_root(ts, j, (depth - 1) as nat);
        assert(is_child(ts, i, j) && is_below(ts, top, j, (depth - 1) as nat));
        top
    }
}

/// A list shows a ticket at a depth exactly where it is that many steps below one that stands on
/// its own.
pub proof fn listed_where_nested(ts: Seq<Ticket>, i: int, depth: nat)
    requires
        is_nested(ts),
    ensures
        listing(ts).contains((i, depth)) <==> at_depth(ts, i, depth),
{
    let tops = roots(ts, ts.len() as int);
    lemma_roots(ts, ts.len() as int);
    if listing(ts).contains((i, depth)) {
        lemma_forest_sound(ts, tops, 0, i, depth);
        let n = choose|n: int|
            0 <= n < tops.len() && is_below(ts, #[trigger] tops[n], i, (depth - 0) as nat);
        assert(at_depth(ts, tops[n], 0));
        lemma_below_depth(ts, tops[n], 0, i, depth);
    }
    if at_depth(ts, i, depth) {
        let top = lemma_has_root(ts, i, depth);
        lemma_below_listed(ts, top, 0, i, depth);
        assert(is_root(ts, top));
        let k = choose|k: int| 0 <= k < tops.len() && tops[k] == top;
        lemma_forest_has(ts, tops, 0, k, (i, depth));
    }
}

// -- distinct ids -----------------------------------------------------------

proof fn lemma_depth_is_unique(ts: Seq<Ticket>, i: int, a: nat, b: nat)
    requires
        has_distinct_ids(ts),
        at_depth(ts, i, a),
        at_depth(ts, i, b),
    ensures
        a == b,
    decreases a,
{
    if a > 0 {
        let j = choose|j: int| #[trigger] is_child(ts, i, j) && at_depth(ts, j, (a - 1) as nat);
        lemma_child_depth(ts, i, j, (a - 1) as nat);
        if b > 0 {
            let k = choose|k: int| #[trigger] is_child(ts, i, k) && at_depth(ts, k, (b - 1) as nat);
            assert(ts[j].id == ts[k].id);
            lemma_depth_is_unique(ts, j, (a - 1) as nat, (b - 1) as nat);
        }
    } else if b > 0 {
        let k = choose|k: int| #[trigger] is_child(ts, i, k) && at_depth(ts, k, (b - 1) as nat);
        lemma_child_depth(ts, i, k, (b - 1) as nat);
    }
}

proof fn lemma_chain(ts: Seq<Ticket>, i: int, depth: nat) -> (chain: Seq<int>)
    requires
        at_depth(ts, i, depth),
    ensures
        chain.len() == depth + 1,
        forall|k: int| 0 <= k <= depth ==> at_depth(ts, #[trigger] chain[k], k as nat),
    decreases depth,
{
    if depth == 0 {
        seq![i]
    } else {
        let j = choose|j: int| #[trigger] is_child(ts, i, j) && at_depth(ts, j, (depth - 1) as nat);
        let before = lemma_chain(ts, j, (depth - 1) as nat);
        let chain = before.push(i);
        assert forall|k: int| 0 <= k <= depth implies at_depth(ts, #[trigger] chain[k], k as nat) by {
            if k < depth {
                assert(chain[k] == before[k]);
            }
        }
        chain
    }
}

/// Where the ids are distinct, going down from parent to child comes to an end.
pub proof fn distinct_ids_nest(ts: Seq<Ticket>)
    requires
        has_distinct_ids(ts),
    ensures
        is_nested(ts),
{
    assert forall|i: int, depth: nat| #[trigger] at_depth(ts, i, depth) implies depth < ts.len() by {
        let chain = lemma_chain(ts, i, depth);
        let all = vstd::set_lib::set_int_range(0, ts.len() as int);
        assert(chain.no_duplicates()) by {
            assert forall|a: int, b: int|
                0 <= a < chain.len() && 0 <= b < chain.len() && a != b implies chain[a]
                != chain[b] by {
                if chain[a] == chain[b] {
                    assert(at_depth(ts, chain[a], a as nat));
                    assert(at_depth(ts, chain[b], b as nat));
                    lemma_depth_is_unique(ts, chain[a], a as nat, b as nat);
                }
            }
        }
        chain.unique_seq_to_set();
        vstd::set_lib::lemma_int_range(0, ts.len() as int);
        assert(chain.to_set().subset_of(all)) by {
            assert forall|x: int| chain.to_set().contains(x) implies all.contains(x) by {
                let k = choose|k: int| 0 <= k < chain.len() && chain[k] == x;
                assert(at_depth(ts, chain[k], k as nat));
            }
        }
        vstd::set_lib::lemma_len_subset(chain.to_set(), all);
    }
}

proof fn lemma_top_is_unique(ts: Seq<Ticket>, a: int, b: int, x: int, steps: nat)
    requires
        has_distinct_ids(ts),
        is_below(ts, a, x, steps),
        is_below(ts, b, x, steps),
    ensures
        a == b,
    decreases steps,
{
    if steps > 0 {
        let j = choose|j: int| #[trigger] is_child(ts, x, j) && is_below(ts, a, j, (steps - 1) as nat);
        let k = choose|k: int| #[trigger] is_child(ts, x, k) && is_below(ts, b, k, (steps - 1) as nat);
        assert(ts[j].id == ts[k].id);
        lemma_top_is_unique(ts, a, b, j, (steps - 1) as nat);
    }
}

/// The tickets of rows.
pub open spec fn tickets_of(rows: Seq<(int, nat)>) -> Seq<int> {
    Seq::new(rows.len(), |k: int| rows[k].0)
}

proof fn lemma_forest_once(ts: Seq<Ticket>, list: Seq<int>, depth: nat)
    requires
        has_distinct_ids(ts),
        list.no_duplicates(),
        forall|k: int| 0 <= k < list.len() ==> at_depth(ts, #[trigger] list[k], depth),
    ensures
        tickets_of(forest_rows(ts, list, depth)).no_duplicates(),
    decreases ts.len() - depth, list.len() + 1,
{
    if depth <= ts.len() && list.len() > 0 {
        let front = forest_rows(ts, list.drop_last(), depth);
        let last = tree_rows(ts, list.last(), depth);
        let all = forest_rows(ts, list, depth);
        assert forall|k: int| 0 <= k < list.drop_last().len() implies at_depth(
            ts,
            #[trigger] list.drop_last()[k],
            depth,
        ) by {
            assert(at_depth(ts, list[k], depth));
        }
        lemma_forest_once(ts, list.drop_last(), depth);
        assert(at_depth(ts, list[list.len() - 1], depth));
        lemma_tree_once(ts, list.last(), depth);
        assert forall|a: int, b: int|
            0 <= a < tickets_of(front).len() && 0 <= b < tickets_of(
                last,
            ).len() implies tickets_of(front)[a] != tickets_of(last)[b] by {
            let (x, d) = front[a];
            let (y, e) = last[b];
            assert(front.contains((x, d)));
            assert(last.contains((y, e)));
            if x == y {
                lemma_forest_sound(ts, list.drop_last(), depth, x, d);
                let n = choose|n: int|
                    0 <= n < list.drop_last().len() && is_below(
                        ts,
                        #[trigger] list.drop_last()[n],
                        x,
                        (d - depth) as nat,
                    );
                lemma_tree_sound(ts, list.last(), depth, y, e);
                assert(list[n] == list.drop_last()[n]);
                lemma_below_depth(ts, list[n], depth, x, (d - depth) as nat);
                lemma_below_depth(ts, list.last(), depth, x, (e - depth) as nat);
                lemma_depth_is_unique(
                    ts,
                    x,
                    depth + (d - depth) as nat,
                    depth + (e - depth) as nat,
                );
                lemma_top_is_unique(ts, list[n], list.last(), x, (d - depth) as nat);
            }
        }
        vstd::seq_lib::lemma_no_dup_in_concat(tickets_of(front), tickets_of(last));
        assert(tickets_of(all) =~= tickets_of(front) + tickets_of(last));
    }
}

proof fn lemma_tree_once(ts: Seq<Ticket>, i: int, depth: nat)
    requires
        has_distinct_ids(ts),
        at_depth(ts, i, depth),
    ensures
        tickets_of(tree_rows(ts, i, depth)).no_duplicates(),
    decreases ts.len() - depth, 0nat,
{
    if depth < ts.len() {
        let list = children_of(ts, i);
        let rest = forest_rows(ts, list, depth + 1);
        let all = tree_rows(ts, i, depth);
        lemma_kids(ts, ts[i].id, ts.len() as int);
        assert forall|k: int| 0 <= k < list.len() implies at_depth(ts, #[trigger] list[k], depth + 1) by {
            assert(is_child(ts, list[k], i));
            lemma_child_depth(ts, list[k], i, depth);
        }
        lemma_forest_once(ts, list, depth + 1);
        assert forall|b: int| 0 <= b < tickets_of(rest).len() implies i != #[trigger] tickets_of(rest)[b] by {
            let (y, e) = rest[b];
            assert(rest.contains((y, e)));
            if y == i {
                lemma_forest_sound(ts, list, depth + 1, y, e);
                let n = choose|n: int|
                    0 <= n < list.len() && is_below(
                        ts,
                        #[trigger] list[n],
                        y,
                        (e - (depth + 1)) as nat,
                    );
                lemma_below_depth(ts, list[n], depth + 1, y, (e - (depth + 1)) as nat);
                lemma_depth_is_unique(ts, i, depth, depth + 1 + (e - (depth + 1)) as nat);
            }
        }
        assert(seq![i].no_duplicates());
        assert forall|a: int, b: int|
            0 <= a < seq![i].len() && 0 <= b < tickets_of(rest).len() implies seq![i][a]
            != tickets_of(rest)[b] by {}
        vstd::seq_lib::lemma_no_dup_in_concat(seq![i], tickets_of(rest));
        assert(tickets_of(all) =~= seq![i] + tickets_of(rest));
    }
}

/// Where the ids are distinct, no ticket is listed twice.
pub proof fn no_ticket_is_listed_twice(ts: Seq<Ticket>)
    requires
        has_distinct_ids(ts),
    ensures
        tickets_of(listing(ts)).no_duplicates(),
{
    let tops = roots(ts, ts.len() as int);
    lemma_roots(ts, ts.len() as int);
    assert forall|k: int| 0 <= k < tops.len() implies at_depth(ts, #[trigger] tops[k], 0) by {}
    lemma_forest_once(ts, tops, 0);
}

proof fn lemma_ranked(ts: Seq<Ticket>, rank: spec_fn(int) -> nat, i: int) -> (depth: nat)
    requires
        forall|i: int, j: int| #[trigger] is_child(ts, i, j) ==> rank(j) < rank(i),
        0 <= i < ts.len(),
    ensures
        at_depth(ts, i, depth),
    decreases rank(i),
{
    if is_root(ts, i) {
        0
    } else {
        let j = choose|j: int| 0 <= j < ts.len() && (#[trigger] ts[j]).id == ts[i].parent->0;
        assert(is_child(ts, i, j));
        let depth = lemma_ranked(ts, rank, j);
        lemma_child_depth(ts, i, j, depth);
        depth + 1
    }
}

/// Where the ids are distinct and no ticket is above itself, which a rank that grows from parent to
/// child witnesses, every ticket is listed.
pub proof fn every_ticket_is_listed(ts: Seq<Ticket>, rank: spec_fn(int) -> nat, i: int)
    requires
        has_distinct_ids(ts),
        forall|i: int, j: int| #[trigger] is_child(ts, i, j) ==> rank(j) < rank(i),
        0 <= i < ts.len(),
    ensures
        tickets_of(listing(ts)).contains(i),
{
    distinct_ids_nest(ts);
    let depth = lemma_ranked(ts, rank, i);
    listed_where_nested(ts, i, depth);
    let k = choose|k: int| 0 <= k < listing(ts).len() && listing(ts)[k] == (i, depth);
    assert(tickets_of(listing(ts))[k] == i);
}

// -- the parents of a list --------------------------------------------------

/// Positions, as mathematical integers.
pub open spec fn positions(list: Seq<usize>) -> Seq<int> {
    Seq::new(list.len(), |k: int| list[k] as int)
}

/// The ids of a list.
pub fn present_ids(tickets: &Vec<Ticket>) -> (r: HashSet<u128>)
    ensures
        forall|id: u128| #[trigger] r@.contains(id) <==> is_present(tickets@, id),
{
    let mut ids: HashSet<u128> = HashSet::new();
    let mut i: usize = 0;
    while i < tickets.len()
        invariant
            i <= tickets@.len(),
            forall|id: u128| #[trigger]
                ids@.contains(id) <==> exists|k: int| 0 <= k < i && (#[trigger] tickets@[k]).id == id,
        decreases tickets@.len() - i,
    {
        let ghost before = ids@;
        ids.insert(tickets[i].id);
        assert forall|id: u128| #[trigger] ids@.contains(id) <==> exists|k: int|
            0 <= k < i + 1 && (#[trigger] tickets@[k]).id == id by {
            if ids@.contains(id) {
                if before.contains(id) {
                    let k = choose|k: int| 0 <= k < i && (#[trigger] tickets@[k]).id == id;
                    assert(0 <= k < i + 1);
                } else {
                    assert(tickets@[i as int].id == id);
                }
            }
        }
        i = i + 1;
    }
    ids
}

/// Whether `map` holds, for each id, the positions of those of the first `n` tickets that have it
/// for their parent.
pub open spec fn maps_kids(map: Map<u128, Vec<usize>>, ts: Seq<Ticket>, n: int) -> bool {
    forall|id: u128|
        #![trigger map.contains_key(id)]
        #![trigger kids(ts, id, n)]
        if kids(ts, id, n).len() > 0 {
            map.contains_key(id) && positions(map[id]@) == kids(ts, id, n)
        } else {
            !map.contains_key(id)
        }
}

/// The positions of the children of each parent.
pub fn map_children(tickets: &Vec<Ticket>) -> (r: HashMap<u128, Vec<usize>>)
    ensures
        maps_kids(r@, tickets@, tickets@.len() as int),
{
    let mut map: HashMap<u128, Vec<usize>> = HashMap::new();
    let mut i: usize = 0;
    while i < tickets.len()
        invariant
            i <= tickets@.len(),
            maps_kids(map@, tickets@, i as int),
        decreases tickets@.len() - i,
    {
        let ghost before = map@;
        let ghost ts = tickets@;
        if let Some(parent) = tickets[i].parent {
            let mut list = match map.remove(&parent) {
                Some(list) => list,
                None => Vec::new(),
            };
            proof {
                assert(before.contains_key(parent) <==> kids(ts, parent, i as int).len() > 0);
                assert(positions(list@) =~= kids(ts, parent, i as int));
            }
            list.push(i);
            assert(positions(list@) =~= kids(ts, parent, i + 1));
            map.insert(parent, list);
            assert forall|id: u128| #![trigger map@.contains_key(id)] #![trigger kids(ts, id, i + 1)]
                if kids(ts, id, i + 1).len() > 0 {
                    map@.contains_key(id) && positions(map@[id]@) == kids(ts, id, i + 1)
                } else {
                    !map@.contains_key(id)
                } by {
                if id != parent {
                    assert(kids(ts, id, i + 1) == kids(ts, id, i as int));
                    assert(before.contains_key(id) == map@.contains_key(id));
                }
            }
        } else {
            assert forall|id: u128| #![trigger map@.contains_key(id)] #![trigger kids(ts, id, i + 1)]
                if kids(ts, id, i + 1).len() > 0 {
                    map@.contains_key(id) && positions(map@[id]@) == kids(ts, id, i + 1)
                } else {
                    !map@.contains_key(id)
                } by {
                assert(kids(ts, id, i + 1) == kids(ts, id, i as int));
            }
        }
        i = i + 1;
    }
    map
}

// -- the test for nesting ---------------------------------------------------

proof fn lemma_none_deeper(ts: Seq<Ticket>, depth: nat, i: int, deeper: nat)
    requires
        forall|j: int| !#[trigger] at_depth(ts, j, depth),
        deeper >= depth,
    ensures
        !at_depth(ts, i, deeper),
    decreases deeper,
{
    if deeper > depth && at_depth(ts, i, deeper) {
        let j = choose|j: int| #[trigger] is_child(ts, i, j) && at_depth(ts, j, (deeper - 1) as nat);
        lemma_none_deeper(ts, depth, j, (deeper - 1) as nat);
    }
}

/// Whether `level` marks the tickets at `depth`.
spec fn marks(level: Seq<bool>, ts: Seq<Ticket>, depth: nat) -> bool {
    &&& level.len() == ts.len()
    &&& forall|i: int| 0 <= i < ts.len() ==> #[trigger] level[i] == at_depth(ts, i, depth)
}

/// The tickets that stand on their own.
fn top_level(tickets: &Vec<Ticket>) -> (r: Vec<bool>)
    ensures
        marks(r@, tickets@, 0),
{
    let ids = present_ids(tickets);
    let mut level: Vec<bool> = Vec::new();
    let mut i: usize = 0;
    while i < tickets.len()
        invariant
            i <= tickets@.len(),
            level@.len() == i,
            forall|id: u128| #[trigger] ids@.contains(id) <==> is_present(tickets@, id),
            forall|k: int| 0 <= k < i ==> #[trigger] level@[k] == at_depth(tickets@, k, 0),
        decreases tickets@.len() - i,
    {
        let alone = match tickets[i].parent {
            Some(parent) => !ids.contains(&parent),
            None => true,
        };
        assert(alone == at_depth(tickets@, i as int, 0));
        level.push(alone);
        i = i + 1;
    }
    level
}

/// The ids of the marked tickets.
fn marked_ids(tickets: &Vec<Ticket>, level: &Vec<bool>) -> (r: HashSet<u128>)
    requires
        level@.len() == tickets@.len(),
    ensures
        forall|id: u128| #[trigger]
            r@.contains(id) <==> exists|k: int|
                0 <= k < tickets@.len() && level@[k] && (#[trigger] tickets@[k]).id == id,
{
    let mut ids: HashSet<u128> = HashSet::new();
    let mut i: usize = 0;
    while i < tickets.len()
        invariant
            i <= tickets@.len(),
            level@.len() == tickets@.len(),
            forall|id: u128| #[trigger]
                ids@.contains(id) <==> exists|k: int|
                    0 <= k < i && level@[k] && (#[trigger] tickets@[k]).id == id,
        decreases tickets@.len() - i,
    {
        let ghost before = ids@;
        if level[i] {
            ids.insert(tickets[i].id);
        }
        assert forall|id: u128| #[trigger] ids@.contains(id) <==> exists|k: int|
            0 <= k < i + 1 && level@[k] && (#[trigger] tickets@[k]).id == id by {
            if ids@.contains(id) {
                if before.contains(id) {
                    let k = choose|k: int|
                        0 <= k < i && level@[k] && (#[trigger] tickets@[k]).id == id;
                    assert(0 <= k < i + 1);
                } else {
                    assert(tickets@[i as int].id == id);
                }
            }
        }
        i = i + 1;
    }
    ids
}

/// The children of the marked tickets.
fn next_level(tickets: &Vec<Ticket>, level: &Vec<bool>, Ghost(depth): Ghost<nat>) -> (r: Vec<bool>)
    requires
        marks(level@, tickets@, depth),
    ensures
        marks(r@, tickets@, depth + 1),
{
    let ids = marked_ids(tickets, level);
    let mut next: Vec<bool> = Vec::new();
    let mut i: usize = 0;
    while i < tickets.len()
        invariant
            i <= tickets@.len(),
            marks(level@, tickets@, depth),
            next@.len() == i,
            forall|id: u128| #[trigger]
                ids@.contains(id) <==> exists|k: int|
                    0 <= k < tickets@.len() && level@[k] && (#[trigger] tickets@[k]).id == id,
            forall|k: int| 0 <= k < i ==> #[trigger] next@[k] == at_depth(tickets@, k, depth + 1),
        decreases tickets@.len() - i,
    {
        let below = match tickets[i].parent {
            Some(parent) => ids.contains(&parent),
            None => false,
        };
        proof {
            let ts = tickets@;
            assert(((depth + 1) - 1) as nat == depth);
            if below {
                let k = choose|k: int|
                    0 <= k < ts.len() && level@[k] && (#[trigger] ts[k]).id == ts[i as int].parent->0;
                assert(is_child(ts, i as int, k) && at_depth(ts, k, depth));
            }
            if at_depth(ts, i as int, depth + 1) {
                let k = choose|k: int| #[trigger] is_child(ts, i as int, k) && at_depth(ts, k, depth);
                assert(level@[k] && ts[k].id == ts[i as int].parent->0);
                assert(ids@.contains(ts[k].id));
            }
        }
        next.push(below);
        i = i + 1;
    }
    next
}

/// Whether any flag is up.
fn any(flags: &Vec<bool>) -> (r: bool)
    ensures
        r == exists|i: int| 0 <= i < flags@.len() && #[trigger] flags@[i],
{
    let mut i: usize = 0;
    while i < flags.len()
        invariant
            i <= flags@.len(),
            forall|k: int| 0 <= k < i ==> !#[trigger] flags@[k],
        decreases flags@.len() - i,
    {
        if flags[i] {
            return true;
        }
        i = i + 1;
    }
    false
}

/// Whether going down from parent to child comes to an end.
pub fn tickets_nest(tickets: &Vec<Ticket>) -> (r: bool)
    ensures
        r == is_nested(tickets@),
{
    let ghost ts = tickets@;
    let mut level = top_level(tickets);
    let mut depth: usize = 0;
    while any(&level)
        invariant
            depth <= tickets@.len(),
            ts == tickets@,
            marks(level@, ts, depth as nat),
        decreases tickets@.len() - depth,
    {
        if depth == tickets.len() {
            proof {
                let i = choose|i: int| 0 <= i < level@.len() && #[trigger] level@[i];
                assert(at_depth(ts, i, depth as nat));
            }
            return false;
        }
        level = next_level(tickets, &level, Ghost(depth as nat));
        depth = depth + 1;
    }
    proof {
        assert forall|j: int| !#[trigger] at_depth(ts, j, depth as nat) by {
            if at_depth(ts, j, depth as nat) {
                assert(level@[j]);
            }
        }
        assert forall|i: int, deeper: nat| #[trigger] at_depth(ts, i, deeper) implies deeper
            < ts.len() by {
            if deeper >= depth {
                lemma_none_deeper(ts, depth as nat, i, deeper);
            }
        }
    }
    true
}

// -- the outline ------------------------------------------------------------

/// Whether the row at `k` stands under the row of its parent: that one is one step less deep, and
/// between the two there are only rows that are as deep as this one or deeper.
pub open spec fn is_under_its_parent(ts: Seq<Ticket>, rows: Seq<(int, nat)>, k: int) -> bool {
    exists|j: int|
        0 <= j < k && (#[trigger] rows[j]).1 + 1 == rows[k].1 && is_child(
            ts,
            rows[k].0,
            rows[j].0,
        ) && no_shallower(rows, j, k, rows[k].1)
}

/// Whether the rows between `j` and `k` are all as deep as `depth`, or deeper.
pub open spec fn no_shallower(rows: Seq<(int, nat)>, j: int, k: int, depth: nat) -> bool {
    forall|m: int| j < m < k ==> (#[trigger] rows[m]).1 >= depth
}

/// Whether rows that start at `depth` are an outline: each deeper row stands under its parent, and
/// rows under one parent keep the order of their tickets.
pub open spec fn is_outline(ts: Seq<Ticket>, rows: Seq<(int, nat)>, depth: nat) -> bool {
    &&& forall|k: int| 0 <= k < rows.len() ==> (#[trigger] rows[k]).1 >= depth
    &&& forall|k: int|
        0 <= k < rows.len() && rows[k].1 > depth ==> #[trigger] is_under_its_parent(ts, rows, k)
    &&& forall|j: int, k: int|
        0 <= j < k < rows.len() && rows[j].1 == rows[k].1 && #[trigger] no_shallower(
            rows,
            j,
            k,
            rows[k].1,
        ) ==> rows[j].0 < rows[k].0
}

proof fn lemma_rising_kids(ts: Seq<Ticket>, id: u128, n: int)
    requires
        0 <= n <= ts.len(),
    ensures
        forall|a: int, b: int|
            0 <= a < b < kids(ts, id, n).len() ==> #[trigger] kids(ts, id, n)[a]
                < #[trigger] kids(ts, id, n)[b],
    decreases n,
{
    if n > 0 {
        let before = kids(ts, id, n - 1);
        let now = kids(ts, id, n);
        lemma_rising_kids(ts, id, n - 1);
        lemma_kids(ts, id, n - 1);
        assert forall|a: int, b: int| 0 <= a < b < now.len() implies #[trigger] now[a]
            < #[trigger] now[b] by {
            assert(now[a] == before[a]);
            if b < before.len() {
                assert(now[b] == before[b]);
            }
        }
    }
}

proof fn lemma_rising_roots(ts: Seq<Ticket>, n: int)
    requires
        0 <= n <= ts.len(),
    ensures
        forall|a: int, b: int|
            0 <= a < b < roots(ts, n).len() ==> #[trigger] roots(ts, n)[a] < #[trigger] roots(
                ts,
                n,
            )[b],
    decreases n,
{
    if n > 0 {
        let before = roots(ts, n - 1);
        let now = roots(ts, n);
        lemma_rising_roots(ts, n - 1);
        lemma_roots(ts, n - 1);
        assert forall|a: int, b: int| 0 <= a < b < now.len() implies #[trigger] now[a]
            < #[trigger] now[b] by {
            assert(now[a] == before[a]);
            if b < before.len() {
                assert(now[b] == before[b]);
            }
        }
    }
}

proof fn lemma_outlines_join(
    ts: Seq<Ticket>,
    a: Seq<(int, nat)>,
    b: Seq<(int, nat)>,
    depth: nat,
)
    requires
        is_outline(ts, a, depth),
        is_outline(ts, b, depth),
        b.len() > 0 ==> b[0].1 == depth,
        forall|k: int| 0 < k < b.len() ==> (#[trigger] b[k]).1 > depth,
        forall|j: int|
            0 <= j < a.len() && (#[trigger] a[j]).1 == depth && b.len() > 0 ==> a[j].0 < b[0].0,
    ensures
        is_outline(ts, a + b, depth),
{
    let rows = a + b;
    let n = a.len() as int;
    assert forall|k: int| 0 <= k < rows.len() implies (#[trigger] rows[k]).1 >= depth by {
        if k < n {
            assert(rows[k] == a[k]);
        } else {
            assert(rows[k] == b[k - n]);
        }
    }
    assert forall|k: int| 0 <= k < rows.len() && rows[k].1 > depth implies #[trigger] is_under_its_parent(
        ts,
        rows,
        k,
    ) by {
        if k < n {
            assert(rows[k] == a[k]);
            assert(is_under_its_parent(ts, a, k));
            let j = choose|j: int|
                0 <= j < k && (#[trigger] a[j]).1 + 1 == a[k].1 && is_child(ts, a[k].0, a[j].0)
                    && no_shallower(a, j, k, a[k].1);
            assert(rows[j] == a[j]);
            assert forall|m: int| j < m < k implies (#[trigger] rows[m]).1 >= rows[k].1 by {
                assert(rows[m] == a[m]);
            }
            assert(no_shallower(rows, j, k, rows[k].1));
        } else {
            let kb = k - n;
            assert(rows[k] == b[kb]);
            assert(is_under_its_parent(ts, b, kb));
            let j = choose|j: int|
                0 <= j < kb && (#[trigger] b[j]).1 + 1 == b[kb].1 && is_child(
                    ts,
                    b[kb].0,
                    b[j].0,
                ) && no_shallower(b, j, kb, b[kb].1);
            assert(rows[n + j] == b[j]);
            assert forall|m: int| n + j < m < k implies (#[trigger] rows[m]).1 >= rows[k].1 by {
                assert(rows[m] == b[m - n]);
            }
            assert(no_shallower(rows, n + j, k, rows[k].1));
        }
    }
    assert forall|j: int, k: int|
        0 <= j < k < rows.len() && rows[j].1 == rows[k].1 && #[trigger] no_shallower(
            rows,
            j,
            k,
            rows[k].1,
        ) implies rows[j].0 < rows[k].0 by {
        if k < n {
            assert(rows[j] == a[j] && rows[k] == a[k]);
            assert forall|m: int| j < m < k implies (#[trigger] a[m]).1 >= a[k].1 by {
                assert(rows[m] == a[m]);
            }
            assert(no_shallower(a, j, k, a[k].1));
        } else if j >= n {
            assert(rows[j] == b[j - n] && rows[k] == b[k - n]);
            assert forall|m: int| j - n < m < k - n implies (#[trigger] b[m]).1 >= b[k - n].1 by {
                assert(rows[m + n] == b[m]);
            }
            assert(no_shallower(b, j - n, k - n, b[k - n].1));
        } else {
            assert(rows[j] == a[j] && rows[k] == b[k - n]);
            if k > n {
                assert(rows[n] == b[0]);
                assert(b[k - n].1 > depth);
                assert(false);
            }
        }
    }
}

proof fn lemma_outline_under(
    ts: Seq<Ticket>,
    i: int,
    rest: Seq<(int, nat)>,
    depth: nat,
)
    requires
        is_outline(ts, rest, depth + 1),
        forall|k: int|
            0 <= k < rest.len() && (#[trigger] rest[k]).1 == depth + 1 ==> is_child(
                ts,
                rest[k].0,
                i,
            ),
    ensures
        is_outline(ts, seq![(i, depth)] + rest, depth),
{
    let rows = seq![(i, depth)] + rest;
    assert(rows[0] == (i, depth));
    assert forall|k: int| 0 <= k < rows.len() implies (#[trigger] rows[k]).1 >= depth by {
        if k > 0 {
            assert(rows[k] == rest[k - 1]);
        }
    }
    assert forall|k: int| 0 <= k < rows.len() && rows[k].1 > depth implies #[trigger] is_under_its_parent(
        ts,
        rows,
        k,
    ) by {
        let r = k - 1;
        assert(rows[k] == rest[r]);
        if rest[r].1 == depth + 1 {
            assert forall|m: int| 0 < m < k implies (#[trigger] rows[m]).1 >= rows[k].1 by {
                assert(rows[m] == rest[m - 1]);
            }
            assert(no_shallower(rows, 0, k, rows[k].1));
            assert(rows[0].1 + 1 == rows[k].1);
        } else {
            assert(is_under_its_parent(ts, rest, r));
            let j = choose|j: int|
                0 <= j < r && (#[trigger] rest[j]).1 + 1 == rest[r].1 && is_child(
                    ts,
                    rest[r].0,
                    rest[j].0,
                ) && no_shallower(rest, j, r, rest[r].1);
            assert(rows[j + 1] == rest[j]);
            assert forall|m: int| j + 1 < m < k implies (#[trigger] rows[m]).1 >= rows[k].1 by {
                assert(rows[m] == rest[m - 1]);
            }
            assert(no_shallower(rows, j + 1, k, rows[k].1));
        }
    }
    assert forall|j: int, k: int|
        0 <= j < k < rows.len() && rows[j].1 == rows[k].1 && #[trigger] no_shallower(
            rows,
            j,
            k,
            rows[k].1,
        ) implies rows[j].0 < rows[k].0 by {
        assert(rows[k] == rest[k - 1]);
        if j == 0 {
            assert(false);
        }
        assert(rows[j] == rest[j - 1]);
        assert forall|m: int| j - 1 < m < k - 1 implies (#[trigger] rest[m]).1 >= rest[k - 1].1 by {
            assert(rows[m + 1] == rest[m]);
        }
        assert(no_shallower(rest, j - 1, k - 1, rest[k - 1].1));
    }
}

proof fn lemma_forest_outline(ts: Seq<Ticket>, list: Seq<int>, depth: nat)
    requires
        forall|k: int| 0 <= k < list.len() ==> 0 <= #[trigger] list[k] < ts.len(),
        forall|a: int, b: int| 0 <= a < b < list.len() ==> #[trigger] list[a] < #[trigger] list[b],
    ensures
        is_outline(ts, forest_rows(ts, list, depth), depth),
        forall|k: int|
            0 <= k < forest_rows(ts, list, depth).len() && (#[trigger] forest_rows(
                ts,
                list,
                depth,
            )[k]).1 == depth ==> list.contains(forest_rows(ts, list, depth)[k].0),
    decreases ts.len() - depth, list.len() + 1,
{
    let all = forest_rows(ts, list, depth);
    if depth <= ts.len() && list.len() > 0 {
        let short = list.drop_last();
        let front = forest_rows(ts, short, depth);
        let last = tree_rows(ts, list.last(), depth);
        assert forall|k: int| 0 <= k < short.len() implies 0 <= #[trigger] short[k] < ts.len() by {
            assert(short[k] == list[k]);
        }
        assert forall|a: int, b: int| 0 <= a < b < short.len() implies #[trigger] short[a]
            < #[trigger] short[b] by {
            assert(list[a] < list[b]);
        }
        lemma_forest_outline(ts, short, depth);
        assert(0 <= list[list.len() - 1] < ts.len());
        lemma_tree_outline(ts, list.last(), depth);
        assert forall|j: int|
            0 <= j < front.len() && (#[trigger] front[j]).1 == depth && last.len()
                > 0 implies front[j].0 < last[0].0 by {
            assert(short.contains(front[j].0));
            let k = choose|k: int| 0 <= k < short.len() && short[k] == front[j].0;
            assert(list[k] < list[list.len() - 1]);
        }
        lemma_outlines_join(ts, front, last, depth);
        assert forall|k: int| 0 <= k < all.len() && (#[trigger] all[k]).1
            == depth implies list.contains(all[k].0) by {
            if k < front.len() {
                assert(all[k] == front[k]);
                assert(short.contains(front[k].0));
                let m = choose|m: int| 0 <= m < short.len() && short[m] == front[k].0;
                assert(list[m] == front[k].0);
            } else {
                assert(all[k] == last[k - front.len()]);
                assert(list[list.len() - 1] == list.last());
            }
        }
    }
}

proof fn lemma_tree_outline(ts: Seq<Ticket>, i: int, depth: nat)
    requires
        0 <= i < ts.len(),
    ensures
        is_outline(ts, tree_rows(ts, i, depth), depth),
        tree_rows(ts, i, depth).len() > 0 ==> tree_rows(ts, i, depth)[0] == (i, depth),
        forall|k: int|
            0 < k < tree_rows(ts, i, depth).len() ==> (#[trigger] tree_rows(ts, i, depth)[k]).1
                > depth,
    decreases ts.len() - depth, 0nat,
{
    if depth < ts.len() {
        let list = children_of(ts, i);
        let rest = forest_rows(ts, list, depth + 1);
        lemma_kids(ts, ts[i].id, ts.len() as int);
        lemma_rising_kids(ts, ts[i].id, ts.len() as int);
        lemma_forest_outline(ts, list, depth + 1);
        assert forall|k: int| 0 <= k < rest.len() && (#[trigger] rest[k]).1 == depth
            + 1 implies is_child(ts, rest[k].0, i) by {
            assert(list.contains(rest[k].0));
            let m = choose|m: int| 0 <= m < list.len() && list[m] == rest[k].0;
            assert(ts[list[m]].parent == Some(ts[i].id));
        }
        lemma_outline_under(ts, i, rest, depth);
        let rows = tree_rows(ts, i, depth);
        assert forall|k: int| 0 < k < rows.len() implies (#[trigger] rows[k]).1 > depth by {
            assert(rows[k] == rest[k - 1]);
        }
    }
}

/// The rows of a list are an outline: each ticket with a parent in the list stands under that very
/// parent, and before the next row that is no deeper than the parent; tickets under one parent, and
/// those that stand on their own, keep their order.
pub proof fn lists_are_outlines(ts: Seq<Ticket>)
    ensures
        is_outline(ts, listing(ts), 0),
        forall|k: int|
            0 <= k < listing(ts).len() && (#[trigger] listing(ts)[k]).1 == 0 ==> is_root(
                ts,
                listing(ts)[k].0,
            ),
{
    let list = roots(ts, ts.len() as int);
    lemma_roots(ts, ts.len() as int);
    lemma_rising_roots(ts, ts.len() as int);
    lemma_forest_outline(ts, list, 0);
    assert forall|k: int| 0 <= k < listing(ts).len() && (#[trigger] listing(ts)[k]).1
        == 0 implies is_root(ts, listing(ts)[k].0) by {
        assert(list.contains(listing(ts)[k].0));
        let m = choose|m: int| 0 <= m < list.len() && list[m] == listing(ts)[k].0;
        assert(is_root(ts, list[m]));
    }
}

/// The children of a ticket are those that name it as their parent, and no others, in their order.
pub proof fn children_name_their_parent(ts: Seq<Ticket>, i: int, k: int)
    requires
        0 <= i < ts.len(),
        0 <= k < ts.len(),
    ensures
        children_of(ts, i).contains(k) <==> ts[k].parent == Some(ts[i].id),
        children_of(ts, i).no_duplicates(),
        forall|a: int, b: int|
            0 <= a < b < children_of(ts, i).len() ==> #[trigger] children_of(ts, i)[a]
                < #[trigger] children_of(ts, i)[b],
{
    let list = children_of(ts, i);
    lemma_kids(ts, ts[i].id, ts.len() as int);
    lemma_rising_kids(ts, ts[i].id, ts.len() as int);
    if list.contains(k) {
        let m = choose|m: int| 0 <= m < list.len() && list[m] == k;
        assert(ts[list[m]].parent == Some(ts[i].id));
    }
}

/// Tickets with distinct ids always nest.
pub proof fn tickets_with_distinct_ids_nest(tickets: &Vec<Ticket>, r: bool)
    requires
        call_ensures(tickets_nest, (tickets,), r),
        has_distinct_ids(tickets@),
    ensures
        r,
{
    distinct_ids_nest(tickets@);
}

} // verus!
