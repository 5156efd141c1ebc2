use vstd::prelude::*;

use crate::database::{collection_ids, lemma_children, DatabaseState};
use crate::database_models::CollectionDatabase;
use crate::models::CollectionRow;
use crate::text::{contains_text, texts, Text};

verus! {

/// The remote references of `rows`, in order.
pub open spec fn deezer_ids(rows: Seq<CollectionRow>) -> Seq<Text> {
    Seq::new(rows.len(), |i: int| rows[i].deezer_id)
}

/// The test that every text but `id` passes.
pub open spec fn other_than(id: Text) -> spec_fn(Text) -> bool {
    |other: Text| other != id
}

/// `order` with `id` at its front and nowhere else.
pub open spec fn moved_to_front(order: Seq<Text>, id: Text) -> Seq<Text> {
    seq![id] + order.filter(other_than(id))
}

/// `found` followed by those of `incoming` that were not seen before, each
/// once, in the order of their first appearance.
pub open spec fn merged(found: Seq<Text>, incoming: Seq<Text>) -> Seq<Text>
    decreases incoming.len(),
{
    if incoming.len() == 0 {
        found
    } else {
        let rest = merged(found, incoming.drop_last());
        if rest.contains(incoming.last()) {
            rest
        } else {
            rest.push(incoming.last())
        }
    }
}

/// The remote references of the direct children of the collection with the
/// remote reference `deezer_id`.
pub open spec fn child_ids(state: DatabaseState, deezer_id: Text) -> Seq<Text> {
    deezer_ids(state.children(state.row_of(deezer_id).id))
}

/// One level of the sweep: every collection of `frontier` is moved to the front
/// of `order` in turn, and its children are gathered, each once, behind
/// `found`. The result is the new order and the gathered children.
pub open spec fn visited(
    state: DatabaseState,
    order: Seq<Text>,
    found: Seq<Text>,
    frontier: Seq<Text>,
) -> (Seq<Text>, Seq<Text>)
    decreases frontier.len(),
{
    if frontier.len() == 0 {
        (order, found)
    } else {
        let (so_far, gathered) = visited(state, order, found, frontier.drop_last());
        (
            moved_to_front(so_far, frontier.last()),
            merged(gathered, child_ids(state, frontier.last())),
        )
    }
}

/// The sweep from `frontier` through at most `depth` levels: it ends early at a
/// level that gathers no children.
pub open spec fn walked(state: DatabaseState, order: Seq<Text>, frontier: Seq<Text>, depth: nat) -> Seq<
    Text,
>
    decreases depth,
{
    if depth == 0 {
        order
    } else {
        let (so_far, gathered) = visited(state, order, Seq::empty(), frontier);
        if gathered.len() == 0 {
            so_far
        } else {
            walked(state, so_far, gathered, (depth - 1) as nat)
        }
    }
}

/// The order in which a full sweep refreshes the collections: the sweep starts
/// from every stored collection and goes through at most `max_depth` levels, so
/// that a collection reached at a later level comes before those of earlier
/// levels.
pub open spec fn swept_order(state: DatabaseState, max_depth: nat) -> Seq<Text> {
    walked(state, Seq::empty(), deezer_ids(state.collections), max_depth)
}

/// Moving to the front keeps what was there, adds what is moved, and keeps an
/// order without repeats free of repeats.
pub proof fn lemma_moved_to_front(order: Seq<Text>, id: Text)
    ensures
        moved_to_front(order, id).contains(id),
        moved_to_front(order, id)[0] == id,
        forall|other: Text|
            #[trigger] moved_to_front(order, id).contains(other) <==> other == id || order.contains(
                other,
            ),
        order.no_duplicates() ==> moved_to_front(order, id).no_duplicates(),
{
    let apart = other_than(id);
    let rest = order.filter(apart);
    let moved = moved_to_front(order, id);
    assert(seq![id].len() == 1);
    assert(moved.len() == rest.len() + 1);
    assert(moved[0] == id);
    assert forall|k: int| 0 <= k < rest.len() implies moved[k + 1] == rest[k] by {}
    assert forall|other: Text| #[trigger] moved.contains(other) <==> other == id || order.contains(
        other,
    ) by {
        if order.contains(other) && other != id {
            let j = choose|j: int| 0 <= j < order.len() && order[j] == other;
            order.lemma_filter_contains(apart, j);
            assert(rest.contains(order[j]));
            let k = choose|k: int| 0 <= k < rest.len() && rest[k] == other;
            assert(moved[k + 1] == other);
        }
        if moved.contains(other) && other != id {
            let k = choose|k: int| 0 <= k < moved.len() && moved[k] == other;
            assert(moved[(k - 1) + 1] == rest[k - 1]);
            assert(rest.contains(other));
            order.lemma_filter_contains_rev(apart, other);
        }
    }
    if order.no_duplicates() {
        crate::lists::lemma_filter_keeps_distinct(order, apart);
        assert forall|i: int, j: int|
            0 <= i < moved.len() && 0 <= j < moved.len() && i != j implies moved[i]
            != moved[j] by {
            if i > 0 && j > 0 {
                assert(moved[i] == rest[i - 1] && moved[j] == rest[j - 1]);
            } else if i > 0 {
                assert(rest.contains(rest[i - 1]));
            } else {
                assert(rest.contains(rest[j - 1]));
            }
        }
    }
}

/// Merging keeps what was found, adds what comes in, and nothing else; it keeps
/// a list without repeats free of repeats.
pub proof fn lemma_merged(found: Seq<Text>, incoming: Seq<Text>)
    ensures
        forall|x: Text|
            #[trigger] merged(found, incoming).contains(x) <==> found.contains(x)
                || incoming.contains(x),
        found.no_duplicates() ==> merged(found, incoming).no_duplicates(),
        found.len() <= merged(found, incoming).len(),
    decreases incoming.len(),
{
    if incoming.len() > 0 {
        let init = incoming.drop_last();
        let last = incoming.last();
        lemma_merged(found, init);
        let rest = merged(found, init);
        let all = merged(found, incoming);
        assert forall|x: Text| #[trigger] all.contains(x) <==> found.contains(x)
            || incoming.contains(x) by {
            if incoming.contains(x) {
                let j = choose|j: int| 0 <= j < incoming.len() && incoming[j] == x;
                if j < init.len() {
                    assert(init[j] == x);
                }
            }
            if init.contains(x) {
                let j = choose|j: int| 0 <= j < init.len() && init[j] == x;
                assert(incoming[j] == x);
            }
            assert(incoming[incoming.len() - 1] == last);
            if !rest.contains(last) {
                assert(rest.push(last)[rest.len() as int] == last);
                if rest.contains(x) {
                    let j = choose|j: int| 0 <= j < rest.len() && rest[j] == x;
                    assert(rest.push(last)[j] == x);
                }
                if all.contains(x) {
                    let j = choose|j: int| 0 <= j < all.len() && all[j] == x;
                    if j < rest.len() {
                        assert(rest[j] == x);
                    }
                }
            }
        }
        if found.no_duplicates() && !rest.contains(last) {
            assert forall|i: int, j: int|
                0 <= i < all.len() && 0 <= j < all.len() && i != j implies all[i] != all[j] by {
                if i < rest.len() && j < rest.len() {
                    assert(all[i] == rest[i] && all[j] == rest[j]);
                } else if i < rest.len() {
                    assert(rest.contains(rest[i]));
                } else {
                    assert(rest.contains(rest[j]));
                }
            }
        }
    }
}

/// A level of the sweep keeps the order's collections, adds the frontier's, and
/// keeps an order without repeats free of repeats; what it gathers beyond
/// `found` are children of the frontier's collections.
pub proof fn lemma_visited(
    state: DatabaseState,
    order: Seq<Text>,
    found: Seq<Text>,
    frontier: Seq<Text>,
)
    ensures
        forall|x: Text|
            #[trigger] visited(state, order, found, frontier).0.contains(x) <==> order.contains(x)
                || frontier.contains(x),
        order.no_duplicates() ==> visited(state, order, found, frontier).0.no_duplicates(),
        forall|x: Text|
            #[trigger] visited(state, order, found, frontier).1.contains(x) ==> found.contains(x)
                || exists|i: int|
                0 <= i < frontier.len() && child_ids(state, #[trigger] frontier[i]).contains(x),
    decreases frontier.len(),
{
    if frontier.len() > 0 {
        let init = frontier.drop_last();
        let last = frontier.last();
        lemma_visited(state, order, found, init);
        let (so_far, gathered) = visited(state, order, found, init);
        lemma_moved_to_front(so_far, last);
        lemma_merged(gathered, child_ids(state, last));
        let (next, all) = visited(state, order, found, frontier);
        assert forall|x: Text| #[trigger] next.contains(x) <==> order.contains(x)
            || frontier.contains(x) by {
            if frontier.contains(x) {
                let j = choose|j: int| 0 <= j < frontier.len() && frontier[j] == x;
                if j < init.len() {
                    assert(init[j] == x);
                }
            }
            if init.contains(x) {
                let j = choose|j: int| 0 <= j < init.len() && init[j] == x;
                assert(frontier[j] == x);
            }
            assert(frontier[frontier.len() - 1] == last);
        }
        assert forall|x: Text| #[trigger] all.contains(x) implies found.contains(x) || exists|i: int|
            0 <= i < frontier.len() && child_ids(state, #[trigger] frontier[i]).contains(x) by {
            if gathered.contains(x) {
                if !found.contains(x) {
                    let i = choose|i: int|
                        0 <= i < init.len() && child_ids(state, #[trigger] init[i]).contains(x);
                    assert(frontier[i] == init[i]);
                }
            } else {
                assert(child_ids(state, frontier[frontier.len() - 1]).contains(x));
            }
        }
    }
}

/// The sweep keeps the order's collections and keeps an order without repeats
/// free of repeats; through at least one level it also holds the frontier's.
pub proof fn lemma_walked(state: DatabaseState, order: Seq<Text>, frontier: Seq<Text>, depth: nat)
    ensures
        forall|x: Text| order.contains(x) ==> #[trigger] walked(state, order, frontier, depth).contains(x),
        depth > 0 ==> forall|x: Text|
            frontier.contains(x) ==> #[trigger] walked(state, order, frontier, depth).contains(x),
        order.no_duplicates() ==> walked(state, order, frontier, depth).no_duplicates(),
    decreases depth,
{
    if depth > 0 {
        lemma_visited(state, order, Seq::empty(), frontier);
        let (so_far, gathered) = visited(state, order, Seq::empty(), frontier);
        if gathered.len() > 0 {
            lemma_walked(state, so_far, gathered, (depth - 1) as nat);
        }
        assert forall|x: Text| order.contains(x) || frontier.contains(x) implies #[trigger] walked(
            state,
            order,
            frontier,
            depth,
        ).contains(x) by {
            assert(so_far == visited(state, order, Seq::empty(), frontier).0);
            assert(visited(state, order, Seq::empty(), frontier).0.contains(x));
            if gathered.len() > 0 {
                assert(walked(state, so_far, gathered, (depth - 1) as nat).contains(x));
            }
        }
    }
}

/// Whether the store holds every collection that `ids` names.
pub open spec fn all_held(state: DatabaseState, ids: Seq<Text>) -> bool {
    forall|i: int| 0 <= i < ids.len() ==> state.holds(#[trigger] ids[i])
}

/// The children of a collection are stored.
pub proof fn lemma_children_are_held(state: DatabaseState, id: Text)
    requires
        state.well_formed(),
    ensures
        all_held(state, child_ids(state, id)),
{
    let parent = state.row_of(id).id;
    lemma_children(state, parent);
    let rows = state.children(parent);
    assert forall|i: int| 0 <= i < child_ids(state, id).len() implies state.holds(
        #[trigger] child_ids(state, id)[i],
    ) by {
        assert(state.collections.contains(rows[i]));
        let k = choose|k: int| 0 <= k < state.collections.len() && state.collections[k] == rows[i];
        assert(state.collections[k].deezer_id == rows[i].deezer_id);
    }
}

/// A level of the sweep does not leave the store.
proof fn lemma_visited_held(
    state: DatabaseState,
    order: Seq<Text>,
    found: Seq<Text>,
    frontier: Seq<Text>,
)
    requires
        state.well_formed(),
        all_held(state, order),
        all_held(state, found),
        all_held(state, frontier),
    ensures
        all_held(state, visited(state, order, found, frontier).0),
        all_held(state, visited(state, order, found, frontier).1),
{
    lemma_visited(state, order, found, frontier);
    let so_far = visited(state, order, found, frontier).0;
    let gathered = visited(state, order, found, frontier).1;
    assert forall|i: int| 0 <= i < so_far.len() implies state.holds(#[trigger] so_far[i]) by {
        let x = so_far[i];
        assert(so_far.contains(x));
        if order.contains(x) {
            let k = choose|k: int| 0 <= k < order.len() && order[k] == x;
            assert(state.holds(order[k]));
        } else {
            let k = choose|k: int| 0 <= k < frontier.len() && frontier[k] == x;
            assert(state.holds(frontier[k]));
        }
    }
    assert forall|i: int| 0 <= i < gathered.len() implies state.holds(#[trigger] gathered[i]) by {
        let x = gathered[i];
        assert(gathered.contains(x));
        if found.contains(x) {
            let k = choose|k: int| 0 <= k < found.len() && found[k] == x;
            assert(state.holds(found[k]));
        } else {
            let k = choose|k: int|
                0 <= k < frontier.len() && child_ids(state, #[trigger] frontier[k]).contains(x);
            lemma_children_are_held(state, frontier[k]);
            let ids = child_ids(state, frontier[k]);
            let n = choose|n: int| 0 <= n < ids.len() && ids[n] == x;
            assert(state.holds(ids[n]));
        }
    }
}

/// The sweep does not leave the store.
proof fn lemma_walked_held(state: DatabaseState, order: Seq<Text>, frontier: Seq<Text>, depth: nat)
    requires
        state.well_formed(),
        all_held(state, order),
        all_held(state, frontier),
    ensures
        all_held(state, walked(state, order, frontier, depth)),
    decreases depth,
{
    if depth > 0 {
        lemma_visited_held(state, order, Seq::empty(), frontier);
        let so_far = visited(state, order, Seq::empty(), frontier).0;
        let gathered = visited(state, order, Seq::empty(), frontier).1;
        if gathered.len() > 0 {
            lemma_walked_held(state, so_far, gathered, (depth - 1) as nat);
        }
    }
}

/// A list without repeats of stored collections is no longer than the table
/// of collections.
proof fn lemma_no_more_than_stored(state: DatabaseState, ids: Seq<Text>)
    requires
        ids.no_duplicates(),
        all_held(state, ids),
    ensures
        ids.len() <= state.collections.len(),
{
    let stored = deezer_ids(state.collections);
    assert forall|x: Text| ids.to_set().contains(x) implies stored.to_set().contains(x) by {
        let k = choose|k: int| 0 <= k < ids.len() && ids[k] == x;
        assert(state.holds(ids[k]));
        let n = choose|n: int|
            0 <= n < state.collections.len() && (#[trigger] state.collections[n]).deezer_id == x;
        assert(stored[n] == x);
    }
    ids.unique_seq_to_set();
    stored.lemma_cardinality_of_set();
    vstd::set_lib::lemma_len_subset(ids.to_set(), stored.to_set());
}

/// A sweep refreshes stored collections only and none twice, so that it
/// refreshes no more collections than are stored; a sweep of at least one level
/// refreshes every stored collection, each exactly once. This holds whatever the
/// dependencies are: a collection may depend on itself, directly or through
/// others.
pub proof fn lemma_sweep_reaches_every_collection(state: DatabaseState, max_depth: nat)
    ensures
        swept_order(state, max_depth).no_duplicates(),
        max_depth > 0 ==> forall|i: int|
            0 <= i < state.collections.len() ==> swept_order(state, max_depth).contains(
                (#[trigger] state.collections[i]).deezer_id,
            ),
        state.well_formed() ==> all_held(state, swept_order(state, max_depth)),
        state.well_formed() ==> swept_order(state, max_depth).len() <= state.collections.len(),
        state.well_formed() && max_depth > 0 ==> swept_order(state, max_depth).len()
            == state.collections.len(),
{
    let start = deezer_ids(state.collections);
    let order = swept_order(state, max_depth);
    lemma_walked(state, Seq::empty(), start, max_depth);
    if max_depth > 0 {
        assert forall|i: int| 0 <= i < state.collections.len() implies order.contains(
            (#[trigger] state.collections[i]).deezer_id,
        ) by {
            assert(start[i] == state.collections[i].deezer_id);
            assert(start.contains(state.collections[i].deezer_id));
        }
    }
    if state.well_formed() {
        assert forall|i: int| 0 <= i < start.len() implies state.holds(#[trigger] start[i]) by {
            assert(state.collections[i].deezer_id == start[i]);
        }
        lemma_walked_held(state, Seq::empty(), start, max_depth);
        lemma_no_more_than_stored(state, order);
        if max_depth > 0 {
            // The stored references are all apart, and the order holds them all.
            assert(start.no_duplicates()) by {
                assert forall|i: int, j: int|
                    0 <= i < start.len() && 0 <= j < start.len() && i != j implies start[i]
                    != start[j] by {
                    if i < j {
                        assert(state.collections[i].deezer_id != state.collections[j].deezer_id);
                    } else {
                        assert(state.collections[j].deezer_id != state.collections[i].deezer_id);
                    }
                }
            }
            assert forall|x: Text| start.to_set().contains(x) implies order.to_set().contains(x) by {
                let k = choose|k: int| 0 <= k < start.len() && start[k] == x;
                assert(order.contains(state.collections[k].deezer_id));
            }
            start.unique_seq_to_set();
            order.unique_seq_to_set();
            order.lemma_cardinality_of_set();
            vstd::set_lib::lemma_len_subset(start.to_set(), order.to_set());
        }
    }
}

/// Whether `first` stands before `second` in `order`.
pub open spec fn stands_before(order: Seq<Text>, first: Text, second: Text) -> bool {
    exists|i: int, j: int|
        #![trigger order[i], order[j]]
        0 <= i < j < order.len() && order[i] == first && order[j] == second
}

/// The frontier that follows `frontier`: the children of its collections, each
/// once.
pub open spec fn next_frontier(state: DatabaseState, frontier: Seq<Text>) -> Seq<Text> {
    visited(state, Seq::empty(), Seq::empty(), frontier).1
}

/// Whether the sweep from `frontier` comes to a level without children within
/// `depth` levels, so that it ends for want of children and not for want of
/// levels.
pub open spec fn runs_out(state: DatabaseState, frontier: Seq<Text>, depth: nat) -> bool
    decreases depth,
{
    if frontier.len() == 0 {
        true
    } else if depth == 0 {
        false
    } else {
        runs_out(state, next_frontier(state, frontier), (depth - 1) as nat)
    }
}

/// Whether every child of a collection of `order` stands before it, unless it
/// is among `pending`: the collections that are yet to be moved to the front.
pub open spec fn settled(state: DatabaseState, order: Seq<Text>, pending: Set<Text>) -> bool {
    forall|parent: Text, child: Text|
        order.contains(parent) && #[trigger] child_ids(state, parent).contains(child)
            ==> pending.contains(child) || stands_before(order, child, parent)
}

/// What a level gathers does not depend on the order that it started with.
proof fn lemma_gathered_ignores_order(
    state: DatabaseState,
    order: Seq<Text>,
    found: Seq<Text>,
    frontier: Seq<Text>,
)
    ensures
        visited(state, order, found, frontier).1 == visited(
            state,
            Seq::empty(),
            found,
            frontier,
        ).1,
    decreases frontier.len(),
{
    if frontier.len() > 0 {
        lemma_gathered_ignores_order(state, order, found, frontier.drop_last());
    }
}

/// A filter keeps what it keeps in order.
proof fn lemma_filter_keeps_order(
    order: Seq<Text>,
    kept: spec_fn(Text) -> bool,
    first: Text,
    second: Text,
)
    requires
        stands_before(order, first, second),
        kept(first),
        kept(second),
    ensures
        stands_before(order.filter(kept), first, second),
    decreases order.len(),
{
    reveal(Seq::filter);
    let (i, j) = choose|i: int, j: int|
        #![trigger order[i], order[j]]
        0 <= i < j < order.len() && order[i] == first && order[j] == second;
    let init = order.drop_last();
    let last = order.last();
    let before = init.filter(kept);
    let after = order.filter(kept);
    if j < order.len() - 1 {
        assert(init[i] == first && init[j] == second);
        lemma_filter_keeps_order(init, kept, first, second);
        let (a, b) = choose|a: int, b: int|
            #![trigger before[a], before[b]]
            0 <= a < b < before.len() && before[a] == first && before[b] == second;
        if kept(last) {
            assert(after[a] == before[a] && after[b] == before[b]);
        } else {
            assert(after[a] == first && after[b] == second);
        }
    } else {
        assert(init[i] == first);
        init.lemma_filter_contains(kept, i);
        let a = choose|a: int| 0 <= a < before.len() && before[a] == first;
        assert(after == before.push(last));
        assert(after[a] == first && after[before.len() as int] == second);
    }
}

/// Moving `moved` to the front keeps a child before its parent, and puts the
/// moved collection before every other.
proof fn lemma_move_keeps_order(order: Seq<Text>, moved: Text, child: Text, parent: Text)
    requires
        order.contains(parent),
        parent != moved,
        child == moved || stands_before(order, child, parent),
    ensures
        stands_before(moved_to_front(order, moved), child, parent),
{
    let apart = other_than(moved);
    let rest = order.filter(apart);
    let after = moved_to_front(order, moved);
    assert(seq![moved].len() == 1);
    assert(after.len() == rest.len() + 1);
    assert(after[0] == moved);
    assert forall|k: int| 0 <= k < rest.len() implies after[k + 1] == rest[k] by {}
    if child == moved {
        let n = choose|n: int| 0 <= n < order.len() && order[n] == parent;
        order.lemma_filter_contains(apart, n);
        let k = choose|k: int| 0 <= k < rest.len() && rest[k] == parent;
        assert(after[0] == child && after[k + 1] == parent);
    } else {
        lemma_filter_keeps_order(order, apart, child, parent);
        let (a, b) = choose|a: int, b: int|
            #![trigger rest[a], rest[b]]
            0 <= a < b < rest.len() && rest[a] == child && rest[b] == parent;
        assert(after[a + 1] == child && after[b + 1] == parent);
    }
}

/// Visiting one collection keeps the order settled: its children are gathered,
/// and it stands before every collection whose child it is.
proof fn lemma_visit_settles(
    state: DatabaseState,
    order: Seq<Text>,
    found: Seq<Text>,
    id: Text,
    rest: Set<Text>,
)
    requires
        settled(state, order, found.to_set() + rest.insert(id)),
    ensures
        settled(
            state,
            moved_to_front(order, id),
            merged(found, child_ids(state, id)).to_set() + rest,
        ),
{
    let after = moved_to_front(order, id);
    let gathered = merged(found, child_ids(state, id));
    lemma_moved_to_front(order, id);
    lemma_merged(found, child_ids(state, id));
    assert forall|parent: Text, child: Text|
        after.contains(parent) && #[trigger] child_ids(state, parent).contains(child) implies (
    gathered.to_set() + rest).contains(child) || stands_before(after, child, parent) by {
        if parent == id {
            assert(gathered.contains(child));
        } else {
            assert(order.contains(parent));
            if (found.to_set() + rest.insert(id)).contains(child) {
                if found.contains(child) {
                    assert(gathered.contains(child));
                } else if child == id {
                    lemma_move_keeps_order(order, id, child, parent);
                }
            } else {
                lemma_move_keeps_order(order, id, child, parent);
            }
        }
    }
}

/// A level of the sweep keeps the order settled: the children that it gathers
/// are yet to be moved, and every collection that it moved stands before the
/// collections whose child it is.
proof fn lemma_visited_settles(
    state: DatabaseState,
    order: Seq<Text>,
    found: Seq<Text>,
    frontier: Seq<Text>,
    rest: Set<Text>,
)
    requires
        settled(state, order, found.to_set() + frontier.to_set() + rest),
    ensures
        settled(
            state,
            visited(state, order, found, frontier).0,
            visited(state, order, found, frontier).1.to_set() + rest,
        ),
    decreases frontier.len(),
{
    if frontier.len() == 0 {
        assert forall|parent: Text, child: Text|
            order.contains(parent) && #[trigger] child_ids(state, parent).contains(child) implies (
        found.to_set() + rest).contains(child) || stands_before(order, child, parent) by {
            if (found.to_set() + frontier.to_set() + rest).contains(child) {
                assert(!frontier.contains(child));
            }
        }
    } else {
        let init = frontier.drop_last();
        let last = frontier.last();
        assert forall|parent: Text, child: Text|
            order.contains(parent) && #[trigger] child_ids(state, parent).contains(child) implies (
        found.to_set() + init.to_set() + rest.insert(last)).contains(child) || stands_before(
            order,
            child,
            parent,
        ) by {
            if frontier.contains(child) {
                let k = choose|k: int| 0 <= k < frontier.len() && frontier[k] == child;
                if k < init.len() {
                    assert(init[k] == child);
                }
            }
        }
        lemma_visited_settles(state, order, found, init, rest.insert(last));
        let so_far = visited(state, order, found, init).0;
        let gathered = visited(state, order, found, init).1;
        lemma_visit_settles(state, so_far, gathered, last, rest);
    }
}

/// A sweep that runs out of children leaves every child before its parent.
proof fn lemma_walked_settles(state: DatabaseState, order: Seq<Text>, frontier: Seq<Text>, depth: nat)
    requires
        settled(state, order, frontier.to_set()),
        runs_out(state, frontier, depth),
    ensures
        settled(state, walked(state, order, frontier, depth), Set::empty()),
    decreases depth,
{
    if frontier.len() == 0 {
        assert forall|parent: Text, child: Text|
            order.contains(parent) && #[trigger] child_ids(state, parent).contains(
                child,
            ) implies stands_before(order, child, parent) by {
            assert(!frontier.contains(child));
        }
        if depth > 0 {
            assert(visited(state, order, Seq::empty(), frontier) == (order, Seq::<Text>::empty()));
        }
    } else {
        let none = Seq::<Text>::empty();
        assert forall|parent: Text, child: Text|
            order.contains(parent) && #[trigger] child_ids(state, parent).contains(child) implies (
        none.to_set() + frontier.to_set() + Set::<Text>::empty()).contains(child) || stands_before(
            order,
            child,
            parent,
        ) by {}
        lemma_visited_settles(state, order, none, frontier, Set::empty());
        lemma_gathered_ignores_order(state, order, none, frontier);
        let so_far = visited(state, order, none, frontier).0;
        let gathered = visited(state, order, none, frontier).1;
        assert forall|parent: Text, child: Text|
            so_far.contains(parent) && #[trigger] child_ids(state, parent).contains(
                child,
            ) implies gathered.to_set().contains(child) || stands_before(so_far, child, parent) by {
            assert((gathered.to_set() + Set::<Text>::empty()).contains(child) || stands_before(
                so_far,
                child,
                parent,
            ));
        }
        if gathered.len() == 0 {
            assert forall|parent: Text, child: Text|
                so_far.contains(parent) && #[trigger] child_ids(state, parent).contains(
                    child,
                ) implies stands_before(so_far, child, parent) by {
                assert(!gathered.contains(child));
            }
        } else {
            lemma_walked_settles(state, so_far, gathered, (depth - 1) as nat);
        }
    }
}

/// Deepest first: in a sweep that goes on until a level has no children, every
/// collection is refreshed after each of its direct children.
///
/// Such a sweep exists only where no collection depends on itself, directly or
/// through others; [`lemma_sweep_without_cycle_runs_out`] says how many levels
/// are enough.
pub proof fn lemma_children_are_refreshed_first(state: DatabaseState, max_depth: nat)
    requires
        runs_out(state, deezer_ids(state.collections), max_depth),
    ensures
        forall|parent: Text, child: Text|
            swept_order(state, max_depth).contains(parent) && #[trigger] child_ids(
                state,
                parent,
            ).contains(child) ==> stands_before(swept_order(state, max_depth), child, parent),
{
    let start = deezer_ids(state.collections);
    let none = Seq::<Text>::empty();
    assert forall|parent: Text, child: Text|
        none.contains(parent) && #[trigger] child_ids(state, parent).contains(
            child,
        ) implies start.to_set().contains(child) || stands_before(none, child, parent) by {}
    lemma_walked_settles(state, none, start, max_depth);
}

/// What [`lemma_sweep_without_cycle_runs_out`] says, from a frontier on.
proof fn lemma_runs_out(
    state: DatabaseState,
    rank: spec_fn(Text) -> nat,
    frontier: Seq<Text>,
    depth: nat,
)
    requires
        state.well_formed(),
        all_held(state, frontier),
        forall|i: int| 0 <= i < frontier.len() ==> rank(#[trigger] frontier[i]) < depth,
        forall|parent: Text, child: Text|
            state.holds(parent) && #[trigger] child_ids(state, parent).contains(child) ==> rank(
                child,
            ) < rank(parent),
    ensures
        runs_out(state, frontier, depth),
    decreases depth,
{
    if frontier.len() > 0 {
        assert(rank(frontier[0]) < depth);
        let next = next_frontier(state, frontier);
        lemma_visited(state, Seq::empty(), Seq::empty(), frontier);
        lemma_visited_held(state, Seq::empty(), Seq::empty(), frontier);
        assert forall|i: int| 0 <= i < next.len() implies rank(#[trigger] next[i]) < depth - 1 by {
            let x = next[i];
            assert(next.contains(x));
            let k = choose|k: int|
                0 <= k < frontier.len() && child_ids(state, #[trigger] frontier[k]).contains(x);
            assert(state.holds(frontier[k]));
            assert(rank(x) < rank(frontier[k]));
        }
        lemma_runs_out(state, rank, next, (depth - 1) as nat);
    }
}

/// Where no collection depends on itself, directly or through others, a sweep
/// of enough levels runs out of children. That there is no such dependency is
/// said by a rank that falls from every stored collection to each of its
/// children; the levels are enough when there are more of them than the
/// highest rank.
pub proof fn lemma_sweep_without_cycle_runs_out(
    state: DatabaseState,
    rank: spec_fn(Text) -> nat,
    max_depth: nat,
)
    requires
        state.well_formed(),
        forall|parent: Text, child: Text|
            state.holds(parent) && #[trigger] child_ids(state, parent).contains(child) ==> rank(
                child,
            ) < rank(parent),
        forall|i: int|
            0 <= i < state.collections.len() ==> rank((#[trigger] state.collections[i]).deezer_id)
                < max_depth,
    ensures
        runs_out(state, deezer_ids(state.collections), max_depth),
{
    let start = deezer_ids(state.collections);
    assert forall|i: int| 0 <= i < start.len() implies state.holds(#[trigger] start[i]) && rank(
        start[i],
    ) < max_depth by {
        assert(state.collections[i].deezer_id == start[i]);
    }
    lemma_runs_out(state, rank, start, max_depth);
}

/// How many levels the sweep from `frontier` goes through, given `depth` at
/// most: it ends behind the first level that gathers no children.
pub open spec fn levels(state: DatabaseState, frontier: Seq<Text>, depth: nat) -> nat
    decreases depth,
{
    if depth == 0 {
        0
    } else if next_frontier(state, frontier).len() == 0 {
        1
    } else {
        1 + levels(state, next_frontier(state, frontier), (depth - 1) as nat)
    }
}

/// How often the sweep from `frontier` reads the children of a collection:
/// once for every collection of the frontier of every level.
pub open spec fn lookups(state: DatabaseState, frontier: Seq<Text>, depth: nat) -> nat
    decreases depth,
{
    if depth == 0 {
        0
    } else if next_frontier(state, frontier).len() == 0 {
        frontier.len()
    } else {
        frontier.len() + lookups(state, next_frontier(state, frontier), (depth - 1) as nat)
    }
}

/// What a level gathers behind a list without repeats holds nothing twice.
proof fn lemma_gathered_distinct(
    state: DatabaseState,
    order: Seq<Text>,
    found: Seq<Text>,
    frontier: Seq<Text>,
)
    requires
        found.no_duplicates(),
    ensures
        visited(state, order, found, frontier).1.no_duplicates(),
    decreases frontier.len(),
{
    if frontier.len() > 0 {
        lemma_gathered_distinct(state, order, found, frontier.drop_last());
        lemma_merged(
            visited(state, order, found, frontier.drop_last()).1,
            child_ids(state, frontier.last()),
        );
    }
}

/// What [`lemma_sweep_is_bounded`] says, from a frontier on.
proof fn lemma_levels_and_lookups(state: DatabaseState, frontier: Seq<Text>, depth: nat)
    requires
        state.well_formed(),
        frontier.no_duplicates(),
        all_held(state, frontier),
    ensures
        levels(state, frontier, depth) <= depth,
        !runs_out(state, frontier, depth) ==> levels(state, frontier, depth) == depth,
        lookups(state, frontier, depth) <= levels(state, frontier, depth)
            * state.collections.len(),
    decreases depth,
{
    let stored = state.collections.len();
    if depth > 0 {
        let next = next_frontier(state, frontier);
        lemma_no_more_than_stored(state, frontier);
        if next.len() > 0 {
            lemma_gathered_distinct(state, Seq::empty(), Seq::empty(), frontier);
            lemma_visited_held(state, Seq::empty(), Seq::empty(), frontier);
            lemma_levels_and_lookups(state, next, (depth - 1) as nat);
            let further = levels(state, next, (depth - 1) as nat);
            assert(frontier.len() + further * stored <= (1 + further) * stored)
                by (nonlinear_arith)
                requires
                    frontier.len() <= stored,
            ;
        } else {
            assert(1 * stored == stored) by (nonlinear_arith);
        }
    } else {
        assert(0 * stored == 0) by (nonlinear_arith);
    }
}

/// A sweep is bounded, whatever the dependencies are: it goes through no more
/// levels than it is given, and at every level it reads the children of no
/// more collections than are stored. A sweep that does not run out of children
/// goes through every level that it is given.
pub proof fn lemma_sweep_is_bounded(state: DatabaseState, max_depth: nat)
    requires
        state.well_formed(),
    ensures
        levels(state, deezer_ids(state.collections), max_depth) <= max_depth,
        !runs_out(state, deezer_ids(state.collections), max_depth) ==> levels(
            state,
            deezer_ids(state.collections),
            max_depth,
        ) == max_depth,
        lookups(state, deezer_ids(state.collections), max_depth) <= levels(
            state,
            deezer_ids(state.collections),
            max_depth,
        ) * state.collections.len(),
        lookups(state, deezer_ids(state.collections), max_depth) <= max_depth
            * state.collections.len(),
{
    let start = deezer_ids(state.collections);
    assert(start.no_duplicates()) by {
        assert forall|i: int, j: int|
            0 <= i < start.len() && 0 <= j < start.len() && i != j implies start[i]
            != start[j] by {
            if i < j {
                assert(state.collections[i].deezer_id != state.collections[j].deezer_id);
            } else {
                assert(state.collections[j].deezer_id != state.collections[i].deezer_id);
            }
        }
    }
    assert forall|i: int| 0 <= i < start.len() implies state.holds(#[trigger] start[i]) by {
        assert(state.collections[i].deezer_id == start[i]);
    }
    lemma_levels_and_lookups(state, start, max_depth);
    let passed = levels(state, start, max_depth);
    let stored = state.collections.len();
    assert(passed * stored <= max_depth * stored) by (nonlinear_arith)
        requires
            passed <= max_depth,
    ;
}

/// Moves `id` to the front of `order`.
pub fn move_to_front(order: &mut Vec<String>, id: String)
    ensures
        texts(final(order)@) == moved_to_front(texts(old(order)@), id@),
{
    let ghost apart = other_than(id@);
    let ghost before = texts(order@);
    let mut moved: Vec<String> = Vec::new();
    moved.push(id.clone());
    let mut i: usize = 0;
    proof {
        assert(before.take(0) =~= Seq::empty());
        reveal(Seq::filter);
        assert(texts(moved@) =~= seq![id@] + before.take(0).filter(apart));
    }
    while i < order.len()
        invariant
            i <= order.len(),
            before == texts(order@),
            apart == other_than(id@),
            texts(moved@) == seq![id@] + before.take(i as int).filter(apart),
        decreases order.len() - i,
    {
        proof {
            let so_far = before.take(i as int);
            assert(before.take(i + 1) =~= so_far.push(before[i as int]));
            so_far.lemma_filter_push(before[i as int], apart);
        }
        if order[i] != id {
            let ghost listed = texts(moved@);
            moved.push(order[i].clone());
            assert(texts(moved@) =~= listed.push(before[i as int]));
            assert(texts(moved@) =~= seq![id@] + before.take(i as int).filter(apart).push(
                before[i as int],
            ));
        }
        i += 1;
    }
    proof {
        assert(before.take(order.len() as int) =~= before);
    }
    *order = moved;
}

/// Puts behind `found` the remote references of `incoming` that are not there
/// yet, each once.
pub fn merge(found: &mut Vec<String>, incoming: &Vec<CollectionDatabase>)
    ensures
        texts(final(found)@) == merged(texts(old(found)@), collection_ids(incoming@)),
{
    let ghost start = texts(found@);
    let ghost ids = collection_ids(incoming@);
    let mut i: usize = 0;
    proof {
        assert(ids.take(0) =~= Seq::empty());
    }
    while i < incoming.len()
        invariant
            i <= incoming.len(),
            ids == collection_ids(incoming@),
            texts(found@) == merged(start, ids.take(i as int)),
        decreases incoming.len() - i,
    {
        proof {
            assert(ids.take(i + 1).drop_last() =~= ids.take(i as int));
            assert(ids.take(i + 1).last() == incoming[i as int]@.deezer_id);
        }
        if !contains_text(found, &incoming[i].deezer_id) {
            let ghost listed = texts(found@);
            found.push(incoming[i].deezer_id.clone());
            assert(texts(found@) =~= listed.push(incoming[i as int]@.deezer_id));
        }
        i += 1;
    }
    proof {
        assert(ids.take(incoming.len() as int) =~= ids);
    }
}

} // verus!
