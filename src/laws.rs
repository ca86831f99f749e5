use vstd::prelude::*;

use crate::store::{
    add_spec, insert_all, lists_exactly, mark_outcome, mark_spec, keys_match_ids, MarkOutcome,
};
use crate::task::TaskModel;

verus! {

/// The store after adding tasks with the descriptions of `ds`, in order.
pub open spec fn add_all(m: Map<usize, TaskModel>, ds: Seq<Seq<char>>) -> Map<usize, TaskModel>
    decreases ds.len(),
{
    if ds.len() == 0 {
        m
    } else {
        add_spec(add_all(m, ds.drop_last()), ds.last())
    }
}

/// The store that adding the descriptions `ds` to an empty store gives:
/// task `k` holds the `k`-th description, not done.
pub open spec fn numbered(ds: Seq<Seq<char>>) -> Map<usize, TaskModel> {
    Map::new(
        |k: usize| 1 <= k <= ds.len(),
        |k: usize| TaskModel { id: k, description: ds[k - 1], completed: false },
    )
}

/// Adding tasks to an empty store, with no deletion between, numbers them
/// 1, 2, 3, ... in the order of addition: each receives the count of tasks
/// before it plus one, and none replaces another.
pub proof fn lemma_adds_from_empty(ds: Seq<Seq<char>>)
    requires
        ds.len() < usize::MAX,
    ensures
        add_all(Map::empty(), ds) == numbered(ds),
        keys_match_ids(add_all(Map::empty(), ds)),
    decreases ds.len(),
{
    if ds.len() == 0 {
        assert(numbered(ds) =~= Map::<usize, TaskModel>::empty());
    } else {
        let prev = ds.drop_last();
        lemma_adds_from_empty(prev);
        let pm = numbered(prev);
        assert(pm.dom() =~= Set::new(|k: usize| 1 <= k <= prev.len()));
        lemma_numbered_len(prev.len() as nat);
        assert(pm.len() == prev.len());
        assert(add_spec(pm, ds.last()) =~= numbered(ds));
    }
}

/// The keys 1 to `n` are `n` keys.
proof fn lemma_numbered_len(n: nat)
    requires
        n < usize::MAX,
    ensures
        Set::new(|k: usize| 1 <= k <= n).finite(),
        Set::new(|k: usize| 1 <= k <= n).len() == n,
    decreases n,
{
    let s = Set::new(|k: usize| 1 <= k <= n);
    if n == 0 {
        assert(s =~= Set::<usize>::empty());
    } else {
        lemma_numbered_len((n - 1) as nat);
        let p = Set::new(|k: usize| 1 <= k <= (n - 1) as nat);
        assert(s =~= p.insert(n as usize));
    }
}

/// Inserting pairs whose keys are all different gives a map that holds
/// exactly those pairs.
proof fn lemma_insert_all_distinct(es: Seq<(usize, TaskModel)>)
    requires
        forall|i: int, j: int| 0 <= i < j < es.len() ==> es[i].0 != es[j].0,
    ensures
        forall|k: usize| #[trigger]
            insert_all(Map::empty(), es).contains_key(k) <==> exists|i: int|
                0 <= i < es.len() && es[i].0 == k,
        forall|i: int|
            0 <= i < es.len() ==> #[trigger] insert_all(Map::empty(), es)[es[i].0] == es[i].1,
    decreases es.len(),
{
    if es.len() > 0 {
        let prev = es.drop_last();
        lemma_insert_all_distinct(prev);
        let m = insert_all(Map::empty(), es);
        let pm = insert_all(Map::empty(), prev);
        assert(m == pm.insert(es.last().0, es.last().1));
        assert forall|k: usize| #[trigger]
            m.contains_key(k) <==> exists|i: int| 0 <= i < es.len() && es[i].0 == k by {
            if m.contains_key(k) && k != es.last().0 {
                assert(pm.contains_key(k));
                let i = choose|i: int| 0 <= i < prev.len() && prev[i].0 == k;
                assert(es[i].0 == k);
            }
            if exists|i: int| 0 <= i < es.len() && es[i].0 == k {
                let i = choose|i: int| 0 <= i < es.len() && es[i].0 == k;
                if i < es.len() - 1 {
                    assert(prev[i].0 == k);
                    assert(pm.contains_key(k));
                }
            }
        }
        assert forall|i: int| 0 <= i < es.len() implies #[trigger] m[es[i].0] == es[i].1 by {
            if i < es.len() - 1 {
                assert(prev[i] == es[i]);
                assert(es[i].0 != es[es.len() - 1].0);
                assert(pm[prev[i].0] == prev[i].1);
            }
        }
    }
}

/// Writing a store out as the list of its entries and reading that list
/// back gives the same tasks under the same keys.
pub proof fn lemma_round_trip(m: Map<usize, TaskModel>, es: Seq<(usize, TaskModel)>)
    requires
        lists_exactly(m, es),
    ensures
        insert_all(Map::empty(), es) == m,
{
    lemma_insert_all_distinct(es);
    let r = insert_all(Map::empty(), es);
    assert forall|k: usize| r.contains_key(k) implies m.contains_key(k) && r[k] == m[k] by {
        let i = choose|i: int| 0 <= i < es.len() && es[i].0 == k;
        assert(m.contains_key(es[i].0));
    }
    assert forall|k: usize| m.contains_key(k) implies r.contains_key(k) by {
        let i = choose|i: int| 0 <= i < es.len() && es[i].0 == k;
        assert(r.contains_key(es[i].0));
    }
    assert(r =~= m);
}

/// Marking a task as done a second time changes nothing: the task stays
/// done, and the second call reports that it already was.
pub proof fn lemma_mark_done_idempotent(m: Map<usize, TaskModel>, id: usize)
    ensures
        mark_spec(mark_spec(m, id), id) == mark_spec(m, id),
        m.contains_key(id) ==> mark_spec(m, id)[id].completed,
        m.contains_key(id) ==> mark_outcome(mark_spec(m, id), id) == MarkOutcome::AlreadyDone,
        !m.contains_key(id) ==> mark_outcome(mark_spec(m, id), id) == MarkOutcome::NotFound,
{
}

/// Deleting an identifier that the store does not hold leaves every entry
/// as it was.
pub proof fn lemma_delete_missing_unchanged(m: Map<usize, TaskModel>, id: usize)
    requires
        !m.contains_key(id),
    ensures
        m.remove(id) == m,
{
    assert(m.remove(id) =~= m);
}

} // verus!
