use std::collections::HashMap;
use vstd::prelude::*;
use vstd::std_specs::iter::IteratorSpec;

use crate::task::{TaskModel, TodoItem};

verus! {

broadcast use vstd::std_specs::hash::group_hash_axioms;

/// What deleting a task reported.
#[derive(PartialEq, Eq, Structural, Debug, Clone, Copy)]
pub enum DeleteOutcome {
    Deleted,
    NotFound,
}

/// What marking a task as done reported.
#[derive(PartialEq, Eq, Structural, Debug, Clone, Copy)]
pub enum MarkOutcome {
    Marked,
    AlreadyDone,
    NotFound,
}

/// Every key is the identifier of the task stored under it.
pub open spec fn keys_match_ids(m: Map<usize, TaskModel>) -> bool {
    forall|k: usize| #[trigger] m.contains_key(k) ==> m[k].id == k
}

/// The identifier that the next added task receives: one more than the
/// number of tasks held.
pub open spec fn next_id(m: Map<usize, TaskModel>) -> int {
    (m.len() + 1) as int
}

/// The store after adding a task with the given description.
pub open spec fn add_spec(m: Map<usize, TaskModel>, description: Seq<char>) -> Map<usize, TaskModel> {
    let id = next_id(m) as usize;
    m.insert(id, TaskModel { id: id, description: description, completed: false })
}

/// The store after marking the task `id` as done.
pub open spec fn mark_spec(m: Map<usize, TaskModel>, id: usize) -> Map<usize, TaskModel> {
    if m.contains_key(id) && !m[id].completed {
        m.insert(id, TaskModel { completed: true, ..m[id] })
    } else {
        m
    }
}

/// What marking the task `id` as done reports.
pub open spec fn mark_outcome(m: Map<usize, TaskModel>, id: usize) -> MarkOutcome {
    if !m.contains_key(id) {
        MarkOutcome::NotFound
    } else if m[id].completed {
        MarkOutcome::AlreadyDone
    } else {
        MarkOutcome::Marked
    }
}

/// The entries of a list of pairs, with each task as its model.
pub open spec fn entries_view(es: Seq<(usize, TodoItem)>) -> Seq<(usize, TaskModel)> {
    es.map_values(|e: (usize, TodoItem)| (e.0, e.1@))
}

/// `es` lists the store `m` exactly: every key once, each with its task.
pub open spec fn lists_exactly(m: Map<usize, TaskModel>, es: Seq<(usize, TaskModel)>) -> bool {
    &&& es.len() == m.len()
    &&& forall|i: int, j: int| 0 <= i < j < es.len() ==> es[i].0 != es[j].0
    &&& forall|i: int|
        0 <= i < es.len() ==> #[trigger] m.contains_key(es[i].0) && m[es[i].0] == es[i].1
    &&& forall|k: usize| #[trigger]
        m.contains_key(k) ==> exists|i: int| 0 <= i < es.len() && es[i].0 == k
}

/// The map `m` after inserting the pairs of `es` in order, a later pair
/// replacing an earlier one with the same key.
pub open spec fn insert_all(m: Map<usize, TaskModel>, es: Seq<(usize, TaskModel)>) -> Map<
    usize,
    TaskModel,
>
    decreases es.len(),
{
    if es.len() == 0 {
        m
    } else {
        insert_all(m, es.drop_last()).insert(es.last().0, es.last().1)
    }
}

/// The collection of tasks, keyed by identifier.
pub struct TodoStore {
    tasks: HashMap<usize, TodoItem>,
}

impl View for TodoStore {
    type V = Map<usize, TaskModel>;

    closed spec fn view(&self) -> Map<usize, TaskModel> {
        self.tasks@.map_values(|t: TodoItem| t@)
    }
}

impl TodoStore {
    /// An empty store.
    pub fn new() -> (r: TodoStore)
        ensures
            r@ == Map::<usize, TaskModel>::empty(),
            keys_match_ids(r@),
    {
        let r = TodoStore { tasks: HashMap::new() };
        assert(r@ =~= Map::<usize, TaskModel>::empty());
        r
    }

    /// The number of tasks.
    pub fn len(&self) -> (r: usize)
        ensures
            r == self@.len(),
    {
        proof { assert(self@.dom() =~= self.tasks@.dom()); }
        self.tasks.len()
    }

    /// The task stored under `id`, if any.
    pub fn get(&self, id: usize) -> (r: Option<&TodoItem>)
        ensures
            match r {
                Some(t) => self@.contains_key(id) && t@ == self@[id],
                None => !self@.contains_key(id),
            },
    {
        self.tasks.get(&id)
    }

    /// Every task with its key, in no particular order.
    pub fn entries(&self) -> (r: Vec<(usize, TodoItem)>)
        ensures
            lists_exactly(self@, entries_view(r@)),
    {
        let mut r: Vec<(usize, TodoItem)> = Vec::new();
        let ghost v = vstd::std_specs::hash::spec_hash_map_iter(&self.tasks).remaining();
        for e in it: self.tasks.iter()
            invariant
                it.seq() == v,
                r@.len() == it.index(),
                forall|i: int|
                    0 <= i < it.index() ==> (#[trigger] r@[i]).0 == *it.seq()[i].0 && r@[i].1@
                        == it.seq()[i].1@,
        {
            let (k, t) = e;
            r.push((*k, t.duplicate()));
        }
        proof {
            let es = entries_view(r@);
            assert(v.len() == self.tasks@.dom().len());
            assert(self@.dom() =~= self.tasks@.dom());
            assert(es.len() == self@.len());
            assert forall|i: int|
                0 <= i < es.len() implies #[trigger] self@.contains_key(es[i].0) && self@[es[i].0]
                == es[i].1 by {
                assert(self.tasks@.contains_key(*v[i].0));
            }
            assert forall|i: int, j: int| 0 <= i < j < es.len() implies es[i].0 != es[j].0 by {
                if es[i].0 == es[j].0 {
                    assert(self.tasks@[*v[i].0] == *v[i].1);
                    assert(self.tasks@[*v[j].0] == *v[j].1);
                    assert(v[i] == v[j]);
                }
            }
            assert forall|k: usize| #[trigger]
                self@.contains_key(k) implies exists|i: int| 0 <= i < es.len() && es[i].0 == k by {
                assert(self.tasks@.contains_key(k));
                assert(v.contains((&k, &self.tasks@[k])));
                let i = choose|i: int| 0 <= i < v.len() && v[i] == (&k, &self.tasks@[k]);
                assert(es[i].0 == k);
            }
        }
        r
    }

    /// The store holding the pairs of `es`, inserted in order: where a key
    /// occurs twice the later pair wins.
    pub fn from_entries(es: Vec<(usize, TodoItem)>) -> (r: TodoStore)
        ensures
            r@ == insert_all(Map::empty(), entries_view(es@)),
    {
        let mut r = TodoStore::new();
        let mut i: usize = 0;
        while i < es.len()
            invariant
                i <= es.len(),
                r@ == insert_all(Map::empty(), entries_view(es@).take(i as int)),
            decreases es.len() - i,
        {
            let k = es[i].0;
            let t = es[i].1.duplicate();
            r.tasks.insert(k, t);
            proof {
                let ev = entries_view(es@);
                assert(ev.take(i + 1).drop_last() =~= ev.take(i as int));
                assert(r@ =~= insert_all(Map::empty(), ev.take(i + 1)));
            }
            i = i + 1;
        }
        proof {
            assert(entries_view(es@).take(i as int) =~= entries_view(es@));
        }
        r
    }

    /// The store to start from, given what was read back from storage:
    /// `None` where nothing could be read or parsed, which gives an empty store.
    pub fn from_loaded(loaded: Option<Vec<(usize, TodoItem)>>) -> (r: TodoStore)
        ensures
            match loaded {
                Some(es) => r@ == insert_all(Map::empty(), entries_view(es@)),
                None => r@ == Map::<usize, TaskModel>::empty(),
            },
    {
        match loaded {
            Some(es) => TodoStore::from_entries(es),
            None => TodoStore::new(),
        }
    }

    /// Adds a task with the given description under the identifier
    /// `len() + 1`, replacing a task already stored there.
    pub fn add_todo(&mut self, description: String)
        requires
            old(self)@.len() < usize::MAX,
        ensures
            final(self)@ == add_spec(old(self)@, description@),
            keys_match_ids(old(self)@) ==> keys_match_ids(final(self)@),
    {
        let id = self.len() + 1;
        let ghost d = description@;
        let todo = TodoItem::new(id, description);
        self.tasks.insert(id, todo);
        proof {
            assert(self@ =~= add_spec(old(self)@, d));
        }
    }

    /// Removes the task `id`, if there is one.
    pub fn delete_todo(&mut self, id: usize) -> (r: DeleteOutcome)
        ensures
            final(self)@ == old(self)@.remove(id),
            r == DeleteOutcome::Deleted <==> old(self)@.contains_key(id),
            r == DeleteOutcome::NotFound <==> !old(self)@.contains_key(id),
            keys_match_ids(old(self)@) ==> keys_match_ids(final(self)@),
    {
        let removed = self.tasks.remove(&id);
        proof {
            assert(self@ =~= old(self)@.remove(id));
        }
        if removed.is_some() {
            DeleteOutcome::Deleted
        } else {
            DeleteOutcome::NotFound
        }
    }

    /// Marks the task `id` as done; a task already done, or a missing one,
    /// leaves the store as it was.
    pub fn mark_done(&mut self, id: usize) -> (r: MarkOutcome)
        ensures
            final(self)@ == mark_spec(old(self)@, id),
            r == mark_outcome(old(self)@, id),
            keys_match_ids(old(self)@) ==> keys_match_ids(final(self)@),
    {
        match self.tasks.remove(&id) {
            Some(task) => {
                if task.completed {
                    self.tasks.insert(id, task);
                    proof {
                        assert(self.tasks@ =~= old(self).tasks@);
                    }
                    MarkOutcome::AlreadyDone
                } else {
                    let done = TodoItem { completed: true, ..task };
                    self.tasks.insert(id, done);
                    proof {
                        assert(self@ =~= mark_spec(old(self)@, id));
                    }
                    MarkOutcome::Marked
                }
            },
            None => {
                proof {
                    assert(self.tasks@ =~= old(self).tasks@);
                }
                MarkOutcome::NotFound
            },
        }
    }
}

} // verus!
