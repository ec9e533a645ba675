//! Ids of objects in a fixed order.
//!
//! The objects of a game are filed without an order; what is sent about
//! several of them is sent in one of the orders here.

use std::collections::HashMap;
use vstd::prelude::*;

use crate::callback::set_world::{snapshot_rank, snapshot_rank_of};
use crate::vanject::Vanject;

verus! {

broadcast use vstd::std_specs::hash::group_hash_axioms;

/// The orders in which ids can be listed.
#[derive(Clone, Copy, Debug, PartialEq, Eq, Structural)]
pub enum Order {
    /// By the id alone.
    ById,
    /// As a player who enters a world is told of them, then by the id.
    Snapshot,
}

/// The number by which an id takes its place in an order.
pub open spec fn place(order: Order, id: i32) -> int {
    match order {
        Order::ById => id as int,
        Order::Snapshot => snapshot_rank(id) * 0x1_0000_0000 + id,
    }
}

/// Whether ids stand in an order, none of them twice.
pub open spec fn ascending(ids: Seq<i32>, order: Order) -> bool {
    forall|i: int, j: int|
        #![trigger ids[i], ids[j]]
        0 <= i < j < ids.len() ==> place(order, ids[i]) < place(order, ids[j])
}

/// Whether `ids` are the ids of a set, in an order.
pub open spec fn lists(ids: Seq<i32>, set: Set<i32>, order: Order) -> bool {
    &&& ascending(ids, order)
    &&& forall|id: i32| #[trigger] ids.contains(id) <==> set.contains(id)
}

/// The ids of a finite set, in an order.
pub open spec fn listing(set: Set<i32>, order: Order) -> Seq<i32> {
    choose|ids: Seq<i32>| lists(ids, set, order)
}

/// There is only one way to list a set in an order.
pub proof fn lemma_listing_is_unique(a: Seq<i32>, b: Seq<i32>, set: Set<i32>, order: Order)
    requires
        lists(a, set, order),
        lists(b, set, order),
    ensures
        a == b,
    decreases a.len(),
{
    if a.len() == 0 {
        if b.len() > 0 {
            assert(b.contains(b[0]));
            assert(a.contains(b[0]));
        }
        assert(a =~= b);
    } else {
        assert(a.contains(a.last()));
        assert(b.contains(a.last()));
        assert(b.contains(b.last()));
        assert(a.contains(b.last()));
        let i = choose|i: int| 0 <= i < b.len() && b[i] == a.last();
        let j = choose|j: int| 0 <= j < a.len() && a[j] == b.last();
        assert(a.last() == b.last()) by {
            if i < b.len() - 1 && j < a.len() - 1 {
                assert(place(order, b[i]) < place(order, b[b.len() - 1]));
                assert(place(order, a[j]) < place(order, a[a.len() - 1]));
            }
        }
        let rest = set.remove(a.last());
        lemma_drop_last(a, set, order);
        lemma_drop_last(b, set, order);
        lemma_listing_is_unique(a.drop_last(), b.drop_last(), rest, order);
        assert(a =~= a.drop_last().push(a.last()));
        assert(b =~= b.drop_last().push(b.last()));
    }
}

proof fn lemma_drop_last(a: Seq<i32>, set: Set<i32>, order: Order)
    requires
        lists(a, set, order),
        a.len() > 0,
    ensures
        lists(a.drop_last(), set.remove(a.last()), order),
{
    let rest = a.drop_last();
    let last = a.len() - 1;
    assert forall|i: int, j: int|
        #![trigger rest[i], rest[j]]
        0 <= i < j < rest.len() implies place(order, rest[i]) < place(order, rest[j]) by {
        assert(rest[i] == a[i] && rest[j] == a[j]);
    }
    assert forall|id: i32| #[trigger] rest.contains(id) <==> set.remove(a.last()).contains(
        id,
    ) by {
        if rest.contains(id) {
            let i = choose|i: int| 0 <= i < rest.len() && rest[i] == id;
            assert(a[i] == id);
            assert(a.contains(id));
            assert(place(order, a[i]) < place(order, a[last]));
        }
        if set.remove(a.last()).contains(id) {
            assert(a.contains(id));
            let i = choose|i: int| 0 <= i < a.len() && a[i] == id;
            assert(rest[i] == id);
        }
    }
}

/// Ids that list a set are its listing.
pub proof fn lemma_listing(ids: Seq<i32>, set: Set<i32>, order: Order)
    requires
        lists(ids, set, order),
    ensures
        listing(set, order) == ids,
{
    lemma_listing_is_unique(ids, listing(set, order), set, order);
}

fn place_of(order: Order, id: i32) -> (r: i64)
    ensures
        r == place(order, id),
{
    match order {
        Order::ById => id as i64,
        Order::Snapshot => snapshot_rank_of(id) as i64 * 0x1_0000_0000 + id as i64,
    }
}

/// Puts `id` into its place among `ids`.
pub fn insert_in_order(ids: &mut Vec<i32>, id: i32, order: Order)
    requires
        ascending(old(ids)@, order),
        !old(ids)@.contains(id),
    ensures
        ascending(final(ids)@, order),
        forall|x: i32| #[trigger] final(ids)@.contains(x) <==> old(ids)@.contains(x) || x == id,
{
    let ghost before = ids@;
    let key: i64 = place_of(order, id);
    let mut p: usize = 0;
    while p < ids.len() && place_of(order, ids[p]) < key
        invariant
            0 <= p <= ids@.len(),
            ids@ == before,
            key == place(order, id),
            forall|j: int| 0 <= j < p ==> place(order, #[trigger] before[j]) < key,
        decreases ids@.len() - p,
    {
        p = p + 1;
    }
    ids.insert(p, id);
    proof {
        let after = ids@;
        assert(after == before.insert(p as int, id));
        assert forall|j: int| p <= j < before.len() implies key < place(
            order,
            #[trigger] before[j],
        ) by {
            assert(before[j] != id) by {
                assert(before.contains(before[j]));
            }
            if p < j {
                assert(place(order, before[p as int]) < place(order, before[j]));
            }
            assert(before.contains(before[p as int]));
        }
        assert forall|i: int, j: int|
            #![trigger after[i], after[j]]
            0 <= i < j < after.len() implies place(order, after[i]) < place(order, after[j]) by {
            let a = if i < p { i } else { i - 1 };
            let b = if j < p { j } else { j - 1 };
            if i != p {
                assert(after[i] == before[a]);
            }
            if j != p {
                assert(after[j] == before[b]);
            }
        }
        assert forall|x: i32| #[trigger] after.contains(x) <==> before.contains(x) || x == id by {
            if after.contains(x) {
                let i = choose|i: int| 0 <= i < after.len() && after[i] == x;
                if i < p {
                    assert(before[i] == x);
                } else if i > p {
                    assert(before[i - 1] == x);
                }
            }
            if before.contains(x) {
                let i = choose|i: int| 0 <= i < before.len() && before[i] == x;
                if i < p {
                    assert(after[i] == x);
                } else {
                    assert(after[i + 1] == x);
                }
            }
            if x == id {
                assert(after[p as int] == x);
            }
        }
    }
}

/// What one more id adds to those at the start of a list without repetitions.
pub proof fn lemma_one_more(ids: Seq<i32>, i: int)
    requires
        ids.no_duplicates(),
        0 <= i < ids.len(),
    ensures
        ids.contains(ids[i]),
        !ids.take(i).contains(ids[i]),
        ids.take(i + 1) == ids.take(i).push(ids[i]),
        forall|x: i32| #[trigger]
            ids.take(i + 1).contains(x) <==> ids.take(i).contains(x) || x == ids[i],
{
    let (head, next, id) = (ids.take(i), ids.take(i + 1), ids[i]);
    assert(next =~= head.push(id));
    if head.contains(id) {
        let k = choose|k: int| 0 <= k < head.len() && head[k] == id;
        assert(ids[k] == ids[i]);
    }
    assert forall|x: i32| #[trigger] next.contains(x) <==> head.contains(x) || x == id by {
        if head.contains(x) {
            let k = choose|k: int| 0 <= k < head.len() && head[k] == x;
            assert(next[k] == x);
        }
        if x == id {
            assert(next[i] == id);
        }
    }
}

/// The ids of a listing do not repeat.
pub proof fn lemma_listed_once(ids: Seq<i32>, order: Order)
    requires
        ascending(ids, order),
    ensures
        ids.no_duplicates(),
{
    assert forall|i: int, j: int| 0 <= i < ids.len() && 0 <= j < ids.len() && i != j implies ids[i]
        != ids[j] by {
        if i < j {
            assert(place(order, ids[i]) < place(order, ids[j]));
        } else {
            assert(place(order, ids[j]) < place(order, ids[i]));
        }
    }
}

/// The ids of all objects, each once, in no order.
pub fn filed_ids(vanjects: &HashMap<i32, Vanject>) -> (ids: Vec<i32>)
    ensures
        ids@.no_duplicates(),
        forall|id: i32| #[trigger] ids@.contains(id) <==> vanjects@.contains_key(id),
{
    let mut ids: Vec<i32> = Vec::new();
    let ghost all = vstd::std_specs::iter::IteratorSpec::remaining(&vanjects.keys()).unref();
    for id in keys: vanjects.keys()
        invariant
            keys.seq().unref() == all,
            ids@ == all.take(keys.index()),
    {
        ids.push(*id);
        assert(ids@ =~= all.take(keys.index() + 1));
    }
    proof {
        assert(ids@ =~= all);
        assert(all.to_set() == vanjects@.dom());
        assert forall|id: i32| #[trigger] ids@.contains(id) <==> vanjects@.contains_key(id) by {
            assert(all.to_set().contains(id) <==> all.contains(id));
        }
    }
    ids
}

proof fn lemma_gap(ids: Seq<i32>, id: i32, order: Order) -> (k: int)
    requires
        ascending(ids, order),
        !ids.contains(id),
    ensures
        0 <= k <= ids.len(),
        forall|i: int| 0 <= i < k ==> place(order, #[trigger] ids[i]) < place(order, id),
        forall|i: int| k <= i < ids.len() ==> place(order, id) < place(order, #[trigger] ids[i]),
    decreases ids.len(),
{
    if ids.len() == 0 {
        0
    } else {
        let last = ids.len() - 1;
        assert(ids.contains(ids[last]));
        if place(order, ids[last]) < place(order, id) {
            ids.len() as int
        } else {
            let rest = ids.drop_last();
            assert forall|i: int, j: int|
                #![trigger rest[i], rest[j]]
                0 <= i < j < rest.len() implies place(order, rest[i]) < place(order, rest[j]) by {
                assert(rest[i] == ids[i] && rest[j] == ids[j]);
            }
            if rest.contains(id) {
                let i = choose|i: int| 0 <= i < rest.len() && rest[i] == id;
                assert(ids[i] == id);
            }
            let k = lemma_gap(rest, id, order);
            assert forall|i: int| 0 <= i < k implies place(order, #[trigger] ids[i]) < place(
                order,
                id,
            ) by {
                assert(rest[i] == ids[i]);
            }
            assert forall|i: int| k <= i < ids.len() implies place(order, id) < place(
                order,
                #[trigger] ids[i],
            ) by {
                if i < last {
                    assert(rest[i] == ids[i]);
                }
            }
            k
        }
    }
}

/// Every finite set has a listing.
pub proof fn lemma_listing_exists(set: Set<i32>, order: Order)
    requires
        set.finite(),
    ensures
        lists(listing(set, order), set, order),
    decreases set.len(),
{
    if set.len() == 0 {
        let none = Seq::<i32>::empty();
        assert(set =~= Set::empty());
        assert(lists(none, set, order));
    } else {
        let id = set.choose();
        let rest = set.remove(id);
        lemma_listing_exists(rest, order);
        let ids = listing(rest, order);
        assert(!ids.contains(id));
        let k = lemma_gap(ids, id, order);
        let all = ids.insert(k, id);
        assert forall|x: i32| #[trigger] all.contains(x) <==> set.contains(x) by {
            if all.contains(x) {
                let i = choose|i: int| 0 <= i < all.len() && all[i] == x;
                if i < k {
                    assert(ids[i] == x);
                    assert(ids.contains(x));
                } else if i > k {
                    assert(ids[i - 1] == x);
                    assert(ids.contains(x));
                }
            }
            if set.contains(x) {
                if x == id {
                    assert(all[k] == x);
                } else {
                    assert(ids.contains(x));
                    let i = choose|i: int| 0 <= i < ids.len() && ids[i] == x;
                    if i < k {
                        assert(all[i] == x);
                    } else {
                        assert(all[i + 1] == x);
                    }
                }
            }
        }
        assert forall|i: int, j: int|
            #![trigger all[i], all[j]]
            0 <= i < j < all.len() implies place(order, all[i]) < place(order, all[j]) by {
            let a = if i < k { ids[i] } else if i == k { id } else { ids[i - 1] };
            let b = if j < k { ids[j] } else if j == k { id } else { ids[j - 1] };
            assert(all[i] == a && all[j] == b);
        }
        assert(lists(all, set, order));
    }
}

} // verus!
