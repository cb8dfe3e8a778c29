use vstd::prelude::*;

verus! {

/// Ids in strictly ascending order.
pub open spec fn ascending(ids: Seq<u64>) -> bool {
    forall|i: int, j: int| 0 <= i < j < ids.len() ==> ids[i] < ids[j]
}

/// The ids of a table after an entry keyed `id` is put in: `id` goes before
/// the first id that is not smaller, and replaces an equal one.
pub open spec fn with_id(ids: Seq<u64>, id: u64) -> Seq<u64>
    decreases ids.len(),
{
    if ids.len() == 0 {
        seq![id]
    } else if ids[0] < id {
        seq![ids[0]] + with_id(ids.drop_first(), id)
    } else if ids[0] == id {
        ids
    } else {
        seq![id] + ids
    }
}

/// The entries of a table after `task` is put in under `id`: before the
/// first entry whose id is not smaller, in place of an entry with that id.
pub open spec fn entries_with<S>(e: Seq<(u64, S)>, id: u64, task: S) -> Seq<(u64, S)>
    decreases e.len(),
{
    if e.len() == 0 {
        seq![(id, task)]
    } else if e[0].0 < id {
        seq![e[0]] + entries_with(e.drop_first(), id, task)
    } else if e[0].0 == id {
        e.update(0, (id, task))
    } else {
        seq![(id, task)] + e
    }
}

/// `i` is where an entry keyed `id` goes: every id before it is smaller, the
/// one at it (if any) is not.
pub open spec fn slot_for(ids: Seq<u64>, id: u64, i: int) -> bool {
    &&& 0 <= i <= ids.len()
    &&& forall|j: int| 0 <= j < i ==> ids[j] < id
    &&& i < ids.len() ==> ids[i] >= id
}

/// The first components of a sequence of pairs.
pub open spec fn keys_of<S>(entries: Seq<(u64, S)>) -> Seq<u64> {
    entries.map_values(|e: (u64, S)| e.0)
}

/// `with_id` at the slot where the id goes.
pub proof fn lemma_with_id_at(ids: Seq<u64>, id: u64, i: int)
    requires
        slot_for(ids, id, i),
    ensures
        with_id(ids, id) == (if i < ids.len() && ids[i] == id {
            ids
        } else {
            ids.insert(i, id)
        }),
    decreases ids.len(),
{
    if ids.len() == 0 {
        assert(ids.insert(i, id) =~= seq![id]);
    } else if ids[0] < id {
        let rest = ids.drop_first();
        assert(slot_for(rest, id, i - 1));
        lemma_with_id_at(rest, id, i - 1);
        if i < ids.len() && ids[i] == id {
            assert(seq![ids[0]] + rest =~= ids);
        } else {
            assert(seq![ids[0]] + rest.insert(i - 1, id) =~= ids.insert(i, id));
        }
    } else {
        assert(i == 0);
        assert(seq![id] + ids =~= ids.insert(0, id));
    }
}

/// `entries_with` at the slot where the entry goes.
pub proof fn lemma_entries_with_at<S>(e: Seq<(u64, S)>, id: u64, task: S, i: int)
    requires
        slot_for(keys_of(e), id, i),
    ensures
        entries_with(e, id, task) == (if i < e.len() && e[i].0 == id {
            e.update(i, (id, task))
        } else {
            e.insert(i, (id, task))
        }),
    decreases e.len(),
{
    if e.len() == 0 {
        assert(e.insert(i, (id, task)) =~= seq![(id, task)]);
    } else if e[0].0 < id {
        assert(keys_of(e)[0] == e[0].0);
        let rest = e.drop_first();
        assert(keys_of(rest) =~= keys_of(e).drop_first());
        assert(slot_for(keys_of(rest), id, i - 1));
        lemma_entries_with_at(rest, id, task, i - 1);
        if i < e.len() && e[i].0 == id {
            assert(seq![e[0]] + rest.update(i - 1, (id, task)) =~= e.update(i, (id, task)));
        } else {
            assert(seq![e[0]] + rest.insert(i - 1, (id, task)) =~= e.insert(i, (id, task)));
        }
    } else {
        assert(keys_of(e)[0] == e[0].0);
        assert(i == 0);
        if e[0].0 == id {
        } else {
            assert(seq![(id, task)] + e =~= e.insert(0, (id, task)));
        }
    }
}

/// Putting an id into an ascending sequence keeps it ascending, and adds the
/// id to its set of ids.
pub proof fn lemma_with_id_ascending(ids: Seq<u64>, id: u64)
    requires
        ascending(ids),
    ensures
        ascending(with_id(ids, id)),
        with_id(ids, id).to_set() == ids.to_set().insert(id),
    decreases ids.len(),
{
    let r = with_id(ids, id);
    if ids.len() == 0 {
        assert(r.to_set() =~= ids.to_set().insert(id)) by {
            assert(r[0] == id);
            assert(r.to_set().contains(r[0]));
            assert forall|x: u64| r.to_set().contains(x) implies x == id by {
                let k = choose|k: int| 0 <= k < r.len() && r[k] == x;
            }
        }
    } else if ids[0] < id {
        let rest = ids.drop_first();
        lemma_with_id_ascending(rest, id);
        let rr = with_id(rest, id);
        assert forall|j: int| 0 <= j < rr.len() implies ids[0] < rr[j] by {
            assert(rr.to_set().contains(rr[j]));
            if rr[j] != id {
                assert(rest.to_set().contains(rr[j]));
                let k = choose|k: int| 0 <= k < rest.len() && rest[k] == rr[j];
                assert(ids[k + 1] == rr[j]);
            }
        }
        assert forall|a: int, b: int| 0 <= a < b < r.len() implies r[a] < r[b] by {
            if a == 0 {
                assert(r[b] == rr[b - 1]);
            } else {
                assert(r[a] == rr[a - 1] && r[b] == rr[b - 1]);
            }
        }
        assert(ids =~= seq![ids[0]] + rest);
        assert(r.to_set() =~= ids.to_set().insert(id)) by {
            assert forall|x: u64| r.to_set().contains(x) implies ids.to_set().insert(id).contains(x) by {
                let k = choose|k: int| 0 <= k < r.len() && r[k] == x;
                if k > 0 {
                    assert(rr.to_set().contains(rr[k - 1]));
                    if x != id {
                        let m = choose|m: int| 0 <= m < rest.len() && rest[m] == x;
                        assert(ids[m + 1] == x);
                    }
                }
            }
            assert forall|x: u64| ids.to_set().insert(id).contains(x) implies r.to_set().contains(x) by {
                if x == id {
                    assert(rr.to_set().contains(id));
                    let m = choose|m: int| 0 <= m < rr.len() && rr[m] == id;
                    assert(r[m + 1] == id);
                } else {
                    let k = choose|k: int| 0 <= k < ids.len() && ids[k] == x;
                    if k == 0 {
                        assert(r[0] == x);
                    } else {
                        assert(rest[k - 1] == x);
                        assert(rest.to_set().contains(x));
                        assert(rr.to_set().contains(x));
                        let m = choose|m: int| 0 <= m < rr.len() && rr[m] == x;
                        assert(r[m + 1] == x);
                    }
                }
            }
        }
    } else if ids[0] == id {
        assert(r.to_set() =~= ids.to_set().insert(id)) by {
            assert(ids.to_set().contains(ids[0]));
        }
    } else {
        assert forall|a: int, b: int| 0 <= a < b < r.len() implies r[a] < r[b] by {
            if a == 0 {
                assert(r[b] == ids[b - 1]);
                assert(ids[0] <= ids[b - 1]);
            } else {
                assert(r[a] == ids[a - 1] && r[b] == ids[b - 1]);
            }
        }
        assert(r.to_set() =~= ids.to_set().insert(id)) by {
            assert forall|x: u64| r.to_set().contains(x) implies ids.to_set().insert(id).contains(x) by {
                let k = choose|k: int| 0 <= k < r.len() && r[k] == x;
                if k > 0 {
                    assert(ids[k - 1] == x);
                }
            }
            assert forall|x: u64| ids.to_set().insert(id).contains(x) implies r.to_set().contains(x) by {
                if x == id {
                    assert(r[0] == id);
                } else {
                    let k = choose|k: int| 0 <= k < ids.len() && ids[k] == x;
                    assert(r[k + 1] == x);
                }
            }
        }
    }
}

/// Two ascending sequences with the same ids are the same sequence.
pub proof fn lemma_ascending_unique(a: Seq<u64>, b: Seq<u64>)
    requires
        ascending(a),
        ascending(b),
        a.to_set() == b.to_set(),
    ensures
        a == b,
    decreases a.len(),
{
    if a.len() == 0 {
        if b.len() > 0 {
            assert(b.to_set().contains(b[0]));
        }
        assert(a =~= b);
    } else {
        assert(a.to_set().contains(a[0]));
        assert(b.len() > 0);
        assert(b.to_set().contains(b[0]));
        let i = choose|i: int| 0 <= i < b.len() && b[i] == a[0];
        let k = choose|k: int| 0 <= k < a.len() && a[k] == b[0];
        if i > 0 {
            assert(b[0] < b[i]);
            if k > 0 {
                assert(a[0] < a[k]);
            }
        }
        assert(a[0] == b[0]);
        let (ra, rb) = (a.drop_first(), b.drop_first());
        assert(ra.to_set() =~= rb.to_set()) by {
            assert forall|x: u64| ra.to_set().contains(x) implies rb.to_set().contains(x) by {
                let m = choose|m: int| 0 <= m < ra.len() && ra[m] == x;
                assert(a[m + 1] == x && a[0] < x);
                assert(a.to_set().contains(x));
                let n = choose|n: int| 0 <= n < b.len() && b[n] == x;
                assert(n > 0);
                assert(rb[n - 1] == x);
            }
            assert forall|x: u64| rb.to_set().contains(x) implies ra.to_set().contains(x) by {
                let m = choose|m: int| 0 <= m < rb.len() && rb[m] == x;
                assert(b[m + 1] == x && b[0] < x);
                assert(b.to_set().contains(x));
                let n = choose|n: int| 0 <= n < a.len() && a[n] == x;
                assert(n > 0);
                assert(ra[n - 1] == x);
            }
        }
        lemma_ascending_unique(ra, rb);
        assert(a =~= seq![a[0]] + ra);
        assert(b =~= seq![b[0]] + rb);
    }
}

/// The order in which tasks are spawned does not change the order in which
/// they are polled: putting two ids into a table in either order gives the
/// same ascending sequence of ids.
pub proof fn lemma_spawn_order_free(ids: Seq<u64>, a: u64, b: u64)
    requires
        ascending(ids),
    ensures
        with_id(with_id(ids, a), b) == with_id(with_id(ids, b), a),
        ascending(with_id(with_id(ids, a), b)),
{
    lemma_with_id_ascending(ids, a);
    lemma_with_id_ascending(with_id(ids, a), b);
    lemma_with_id_ascending(ids, b);
    lemma_with_id_ascending(with_id(ids, b), a);
    assert(ids.to_set().insert(a).insert(b) =~= ids.to_set().insert(b).insert(a));
    lemma_ascending_unique(with_id(with_id(ids, a), b), with_id(with_id(ids, b), a));
}

/// Live tasks keyed by id, kept in ascending order of id.
pub struct Table<S> {
    entries: Vec<(u64, S)>,
}

impl<S> Table<S> {
    /// The entries, in the order they are polled.
    pub closed spec fn entries(&self) -> Seq<(u64, S)> {
        self.entries@
    }

    /// The ids, in the order they are polled.
    pub open spec fn ids(&self) -> Seq<u64> {
        keys_of(self.entries())
    }

    /// A table with no task.
    pub fn new() -> (r: Self)
        ensures
            r.entries() == Seq::<(u64, S)>::empty(),
    {
        Table { entries: Vec::new() }
    }

    /// The number of tasks.
    pub fn len(&self) -> (r: usize)
        ensures
            r == self.entries().len(),
    {
        self.entries.len()
    }

    /// The id at position `i`.
    pub fn id_at(&self, i: usize) -> (r: u64)
        requires
            i < self.entries().len(),
        ensures
            r == self.ids()[i as int],
    {
        self.entries[i].0
    }

    /// Puts `task` in under `id`, before the first entry whose id is not
    /// smaller; an entry with the same id is replaced.
    pub fn insert(&mut self, id: u64, task: S)
        ensures
            final(self).ids() == with_id(old(self).ids(), id),
            final(self).entries() == entries_with(old(self).entries(), id, task),
            exists|i: int|
                slot_for(old(self).ids(), id, i) && final(self).entries() == (if i < old(
                    self,
                ).ids().len() && old(self).ids()[i] == id {
                    old(self).entries().update(i, (id, task))
                } else {
                    old(self).entries().insert(i, (id, task))
                }),
            ascending(old(self).ids()) ==> ascending(final(self).ids()),
    {
        let ghost old_ids = self.ids();
        let n = self.entries.len();
        let mut i: usize = 0;
        while i < n && self.entries[i].0 < id
            invariant
                n == self.entries@.len(),
                self.entries@ == old(self).entries(),
                old_ids == self.ids(),
                i <= n,
                forall|j: int| 0 <= j < i ==> old_ids[j] < id,
            decreases n - i,
        {
            i = i + 1;
        }
        assert(slot_for(old_ids, id, i as int));
        if i < n && self.entries[i].0 == id {
            self.entries.remove(i);
        }
        self.entries.insert(i, (id, task));
        proof {
            lemma_with_id_at(old_ids, id, i as int);
            lemma_entries_with_at(old(self).entries(), id, task, i as int);
            if i < n && old_ids[i as int] == id {
                assert(self.entries@ =~= old(self).entries().update(i as int, (id, task)));
                assert(self.ids() =~= old_ids);
            } else {
                assert(self.ids() =~= old_ids.insert(i as int, id));
            }
            if ascending(old_ids) {
                lemma_with_id_ascending(old_ids, id);
            }
        }
    }

    /// Takes out the entry at position `i`.
    pub fn remove(&mut self, i: usize) -> (r: (u64, S))
        requires
            i < old(self).entries().len(),
        ensures
            r == old(self).entries()[i as int],
            final(self).entries() == old(self).entries().remove(i as int),
            final(self).ids() == old(self).ids().remove(i as int),
            ascending(old(self).ids()) ==> ascending(final(self).ids()),
    {
        let r = self.entries.remove(i);
        assert(self.ids() =~= old(self).ids().remove(i as int));
        r
    }

    /// Puts an entry back at position `i`.
    pub fn restore(&mut self, i: usize, entry: (u64, S))
        requires
            i <= old(self).entries().len(),
        ensures
            final(self).entries() == old(self).entries().insert(i as int, entry),
            final(self).ids() == old(self).ids().insert(i as int, entry.0),
    {
        self.entries.insert(i, entry);
        assert(self.ids() =~= old(self).ids().insert(i as int, entry.0));
    }

    /// The ids, in the order they are polled.
    pub fn task_ids(&self) -> (r: Vec<u64>)
        ensures
            r@ == self.ids(),
    {
        let mut r: Vec<u64> = Vec::new();
        let mut i: usize = 0;
        while i < self.entries.len()
            invariant
                i <= self.entries@.len(),
                r@ == self.ids().subrange(0, i as int),
            decreases self.entries@.len() - i,
        {
            r.push(self.entries[i].0);
            i = i + 1;
            assert(r@ =~= self.ids().subrange(0, i as int));
        }
        assert(r@ =~= self.ids());
        r
    }
}

} // verus!
