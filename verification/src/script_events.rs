//! The script side of the event bus: callbacks that scripts register with
//! `events.on(type, callback)`, identified by the number `on` returns, and
//! removed again with `events.off(id)`.
//!
//! Callbacks are kept in one list per event type, in registration order; the
//! id of each records its event type and its position in that list, and
//! removing a callback shifts the positions recorded for the callbacks after
//! it.

use vstd::prelude::*;

use crate::text::str_eq;

verus! {

/// Position of the first list for event type `t`, searching from `i`.
pub open spec fn type_index<F>(lists: Seq<(String, Vec<F>)>, t: Seq<char>, i: int) -> Option<int>
    decreases lists.len() - i,
{
    if i < 0 || i >= lists.len() {
        None
    } else if lists[i].0@ == t {
        Some(i)
    } else {
        type_index(lists, t, i + 1)
    }
}

/// The callbacks registered for event type `t`, in registration order.
pub open spec fn callbacks_in<F>(lists: Seq<(String, Vec<F>)>, t: Seq<char>) -> Seq<F> {
    match type_index(lists, t, 0) {
        Some(i) => lists[i].1@,
        None => Seq::empty(),
    }
}

/// Position of the first id-table entry for `id`, searching from `i`.
pub open spec fn id_index(ids: Seq<(u64, String, usize)>, id: u64, i: int) -> Option<int>
    decreases ids.len() - i,
{
    if i < 0 || i >= ids.len() {
        None
    } else if ids[i].0 == id {
        Some(i)
    } else {
        id_index(ids, id, i + 1)
    }
}

/// The event type and list position recorded for `id`.
pub open spec fn listener_in(ids: Seq<(u64, String, usize)>, id: u64) -> Option<(Seq<char>, int)> {
    match id_index(ids, id, 0) {
        Some(i) => Some((ids[i].1@, ids[i].2 as int)),
        None => None,
    }
}

proof fn lemma_type_index<F>(lists: Seq<(String, Vec<F>)>, t: Seq<char>, i: int)
    requires
        0 <= i,
    ensures
        match type_index(lists, t, i) {
            Some(k) => i <= k < lists.len() && lists[k].0@ == t && forall|j: int|
                i <= j < k ==> (#[trigger] lists[j]).0@ != t,
            None => forall|j: int| i <= j < lists.len() ==> (#[trigger] lists[j]).0@ != t,
        },
    decreases lists.len() - i,
{
    if i < lists.len() && lists[i].0@ != t {
        lemma_type_index(lists, t, i + 1);
    }
}

proof fn lemma_id_index(ids: Seq<(u64, String, usize)>, id: u64, i: int)
    requires
        0 <= i,
    ensures
        match id_index(ids, id, i) {
            Some(k) => i <= k < ids.len() && ids[k].0 == id && forall|j: int| i <= j < k ==> (#[trigger] ids[j]).0 != id,
            None => forall|j: int| i <= j < ids.len() ==> (#[trigger] ids[j]).0 != id,
        },
    decreases ids.len() - i,
{
    if i < ids.len() && ids[i].0 != id {
        lemma_id_index(ids, id, i + 1);
    }
}

/// With distinct ids, the entry found for an id is the one holding it.
proof fn lemma_id_index_unique(ids: Seq<(u64, String, usize)>, k: int)
    requires
        0 <= k < ids.len(),
        forall|a: int, b: int| 0 <= a < b < ids.len() ==> (#[trigger] ids[a]).0 != (#[trigger] ids[b]).0,
    ensures
        id_index(ids, ids[k].0, 0) == Some(k),
{
    lemma_id_index(ids, ids[k].0, 0);
    match id_index(ids, ids[k].0, 0) {
        Some(j) => {
            if j < k {
                assert(ids[j].0 != ids[k].0);
            } else if j > k {
                assert(ids[k].0 != ids[k].0);
            }
        },
        None => {
            assert(ids[k].0 != ids[k].0);
        },
    }
}

proof fn lemma_type_index_same_keys<F>(l1: Seq<(String, Vec<F>)>, l2: Seq<(String, Vec<F>)>, t: Seq<char>, i: int)
    requires
        l1.len() == l2.len(),
        forall|j: int| 0 <= j < l1.len() ==> (#[trigger] l1[j]).0@ == l2[j].0@,
    ensures
        type_index(l1, t, i) == type_index(l2, t, i),
    decreases l1.len() - i,
{
    if 0 <= i < l1.len() && l1[i].0@ != t {
        lemma_type_index_same_keys(l1, l2, t, i + 1);
    }
}

proof fn lemma_type_index_push<F>(l: Seq<(String, Vec<F>)>, e: (String, Vec<F>), t: Seq<char>, i: int)
    requires
        0 <= i <= l.len(),
    ensures
        type_index(l.push(e), t, i) == match type_index(l, t, i) {
            Some(k) => Some(k),
            None => if e.0@ == t { Some(l.len() as int) } else { None },
        },
    decreases l.len() - i,
{
    if i < l.len() {
        assert(l.push(e)[i] == l[i]);
        if l[i].0@ != t {
            lemma_type_index_push(l, e, t, i + 1);
        }
    } else {
        assert(l.push(e)[i] == e);
        assert(type_index(l.push(e), t, i + 1) is None);
    }
}

proof fn lemma_id_index_same_keys(s1: Seq<(u64, String, usize)>, s2: Seq<(u64, String, usize)>, id: u64, i: int)
    requires
        s1.len() == s2.len(),
        forall|j: int| 0 <= j < s1.len() ==> (#[trigger] s1[j]).0 == s2[j].0,
    ensures
        id_index(s1, id, i) == id_index(s2, id, i),
    decreases s1.len() - i,
{
    if 0 <= i < s1.len() && s1[i].0 != id {
        lemma_id_index_same_keys(s1, s2, id, i + 1);
    }
}

/// With distinct ids, an id held by no entry is found nowhere.
proof fn lemma_id_absent(ids: Seq<(u64, String, usize)>, id: u64)
    requires
        forall|j: int| 0 <= j < ids.len() ==> (#[trigger] ids[j]).0 != id,
    ensures
        id_index(ids, id, 0) is None,
{
    lemma_id_index(ids, id, 0);
}

fn reindex(ids: Vec<(u64, String, usize)>, t: &str, index: usize) -> (r: Vec<(u64, String, usize)>)
    ensures
        r@.len() == ids@.len(),
        forall|j: int| 0 <= j < ids@.len() ==> (#[trigger] r@[j]).0 == ids@[j].0 && r@[j].1@ == ids@[j].1@
            && r@[j].2 == shifted_pos(ids@[j].1@, ids@[j].2 as int, t@, index as int),
{
    let mut out: Vec<(u64, String, usize)> = Vec::new();
    let mut i: usize = 0;
    while i < ids.len()
        invariant
            i <= ids@.len(),
            out@.len() == i,
            forall|j: int| 0 <= j < i ==> (#[trigger] out@[j]).0 == ids@[j].0 && out@[j].1@ == ids@[j].1@
                && out@[j].2 == shifted_pos(ids@[j].1@, ids@[j].2 as int, t@, index as int),
        decreases ids@.len() - i,
    {
        let k = if str_eq(ids[i].1.as_str(), t) && ids[i].2 > index {
            ids[i].2 - 1
        } else {
            ids[i].2
        };
        out.push((ids[i].0, ids[i].1.clone(), k));
        i = i + 1;
    }
    out
}

fn find_type_in<F>(lists: &Vec<(String, Vec<F>)>, t: &str) -> (r: Option<usize>)
    ensures
        match r {
            Some(i) => type_index(lists@, t@, 0) == Some(i as int) && i < lists@.len(),
            None => type_index(lists@, t@, 0) is None,
        },
{
    proof {
        lemma_type_index(lists@, t@, 0);
    }
    let mut i: usize = 0;
    while i < lists.len()
        invariant
            i <= lists@.len(),
            forall|j: int| 0 <= j < i ==> (#[trigger] lists@[j]).0@ != t@,
            match type_index(lists@, t@, 0) {
                Some(k) => i <= k < lists@.len() && lists@[k].0@ == t@,
                None => true,
            },
        decreases lists@.len() - i,
    {
        if str_eq(lists[i].0.as_str(), t) {
            proof {
                lemma_type_index(lists@, t@, 0);
                match type_index(lists@, t@, 0) {
                    Some(k) => {
                        if k > i {
                            assert(lists@[i as int].0@ != t@);
                        }
                    },
                    None => {
                        assert(lists@[i as int].0@ != t@);
                    },
                }
            }
            return Some(i);
        }
        i = i + 1;
    }
    None
}

/// Position in the id table before the removal at `p` of the entry now at `j`.
pub open spec fn before_removal(j: int, p: int) -> int {
    if j < p {
        j
    } else {
        j + 1
    }
}

/// The position a callback of list `t` has after the removal at `index`.
pub open spec fn shifted_pos(t2: Seq<char>, k: int, t: Seq<char>, index: int) -> int {
    if t2 == t && k > index {
        k - 1
    } else {
        k
    }
}

/// The id table is well formed over the lists: distinct ids below `next`,
/// each naming a distinct position that holds a callback.
pub open spec fn ids_well_formed<F>(ids: Seq<(u64, String, usize)>, lists: Seq<(String, Vec<F>)>, next: u64) -> bool {
    &&& forall|a: int, b: int| 0 <= a < b < ids.len() ==> (#[trigger] ids[a]).0 != (#[trigger] ids[b]).0
    &&& forall|a: int, b: int|
        0 <= a < b < ids.len() && (#[trigger] ids[a]).1@ == (#[trigger] ids[b]).1@ ==> ids[a].2 != ids[b].2
    &&& forall|a: int| 0 <= a < ids.len() ==> (#[trigger] ids[a]).0 < next
    &&& forall|a: int| 0 <= a < ids.len() ==> (#[trigger] ids[a]).2 < callbacks_in(lists, ids[a].1@).len()
}

/// What removing the callback at position `index` of list `t`, together
/// with the id entry at `p` that named it, and shifting the later
/// positions, does to the callbacks and to what each id names.
proof fn lemma_off_facts<F>(
    old_lists: Seq<(String, Vec<F>)>,
    new_lists: Seq<(String, Vec<F>)>,
    old_ids: Seq<(u64, String, usize)>,
    new_ids: Seq<(u64, String, usize)>,
    p: int,
    li: int,
    t: Seq<char>,
    index: usize,
    next: u64,
)
    requires
        ids_well_formed(old_ids, old_lists, next),
        0 <= p < old_ids.len(),
        old_ids[p].1@ == t,
        old_ids[p].2 == index,
        type_index(old_lists, t, 0) == Some(li),
        0 <= li < old_lists.len(),
        new_lists.len() == old_lists.len(),
        forall|j: int| 0 <= j < old_lists.len() && j != li ==> #[trigger] new_lists[j] == old_lists[j],
        new_lists[li].0@ == old_lists[li].0@,
        index < old_lists[li].1@.len(),
        new_lists[li].1@ == old_lists[li].1@.remove(index as int),
        new_ids.len() + 1 == old_ids.len(),
        forall|j: int|
            0 <= j < new_ids.len() ==> (#[trigger] new_ids[j]).0 == old_ids[before_removal(j, p)].0
                && new_ids[j].1@ == old_ids[before_removal(j, p)].1@ && new_ids[j].2 == shifted_pos(
                old_ids[before_removal(j, p)].1@,
                old_ids[before_removal(j, p)].2 as int,
                t,
                index as int,
            ),
    ensures
        forall|t2: Seq<char>| #[trigger] callbacks_in(new_lists, t2) == if t2 == t {
            callbacks_in(old_lists, t).remove(index as int)
        } else {
            callbacks_in(old_lists, t2)
        },
        listener_in(new_ids, old_ids[p].0) is None,
        forall|id2: u64| id2 != old_ids[p].0 ==> #[trigger] listener_in(new_ids, id2) == match listener_in(old_ids, id2) {
            Some((t2, k2)) => Some((t2, shifted_pos(t2, k2, t, index as int))),
            None => None,
        },
        forall|id2: u64| id2 != old_ids[p].0 ==> (#[trigger] listener_in(old_ids, id2) matches Some((t2, k2)) ==> (
        0 <= k2 < callbacks_in(old_lists, t2).len() && callbacks_in(new_lists, t2)[shifted_pos(t2, k2, t, index as int)]
            == callbacks_in(old_lists, t2)[k2])),
        ids_well_formed(new_ids, new_lists, next),
{
    let id = old_ids[p].0;
    lemma_type_index(old_lists, t, 0);
    assert(new_lists =~= old_lists.update(li, new_lists[li]));
    assert forall|t2: Seq<char>| #[trigger] callbacks_in(new_lists, t2) == if t2 == t {
        callbacks_in(old_lists, t).remove(index as int)
    } else {
        callbacks_in(old_lists, t2)
    } by {
        lemma_type_index_same_keys(new_lists, old_lists, t2, 0);
        lemma_type_index(old_lists, t2, 0);
        match type_index(old_lists, t2, 0) {
            Some(k) => {
                if t2 != t {
                    assert(k != li);
                }
            },
            None => {},
        }
    }
    assert forall|j: int| 0 <= j < new_ids.len() implies (#[trigger] new_ids[j]).0 != id by {
        let q = before_removal(j, p);
        assert(q != p);
        if q < p {
            assert(old_ids[q].0 != old_ids[p].0);
        } else {
            assert(old_ids[p].0 != old_ids[q].0);
        }
    }
    lemma_id_absent(new_ids, id);
    assert forall|a: int, b: int| 0 <= a < b < new_ids.len() implies (#[trigger] new_ids[a]).0 != (
    #[trigger] new_ids[b]).0 by {
        assert(before_removal(a, p) < before_removal(b, p));
    }
    assert forall|id2: u64| id2 != id implies #[trigger] listener_in(new_ids, id2) == match listener_in(old_ids, id2) {
        Some((t2, k2)) => Some((t2, shifted_pos(t2, k2, t, index as int))),
        None => None,
    } by {
        lemma_id_index(old_ids, id2, 0);
        match id_index(old_ids, id2, 0) {
            Some(q) => {
                assert(q != p);
                let qq = if q < p { q } else { q - 1 };
                assert(before_removal(qq, p) == q);
                assert(new_ids[qq].0 == id2);
                lemma_id_index_unique(new_ids, qq);
            },
            None => {
                assert forall|j: int| 0 <= j < new_ids.len() implies (#[trigger] new_ids[j]).0 != id2 by {
                    assert(old_ids[before_removal(j, p)].0 != id2);
                }
                lemma_id_absent(new_ids, id2);
            },
        }
    }
    assert forall|id2: u64| id2 != id implies (#[trigger] listener_in(old_ids, id2) matches Some((t2, k2)) ==> (0
        <= k2 < callbacks_in(old_lists, t2).len() && callbacks_in(new_lists, t2)[shifted_pos(t2, k2, t, index as int)]
        == callbacks_in(old_lists, t2)[k2])) by {
        lemma_id_index(old_ids, id2, 0);
        match id_index(old_ids, id2, 0) {
            Some(q) => {
                let t2 = old_ids[q].1@;
                let k2 = old_ids[q].2 as int;
                assert(q != p);
                if t2 == t {
                    if q < p {
                        assert(old_ids[q].2 != old_ids[p].2);
                    } else {
                        assert(old_ids[p].2 != old_ids[q].2);
                    }
                }
            },
            None => {},
        }
    }
    assert forall|a: int| 0 <= a < new_ids.len() implies (#[trigger] new_ids[a]).2 < callbacks_in(
        new_lists,
        new_ids[a].1@,
    ).len() by {
        let q = before_removal(a, p);
        assert(q != p);
        if old_ids[q].1@ == t {
            if q < p {
                assert(old_ids[q].2 != old_ids[p].2);
            } else {
                assert(old_ids[p].2 != old_ids[q].2);
            }
        }
    }
    assert forall|a: int, b: int| 0 <= a < b < new_ids.len() && (#[trigger] new_ids[a]).1@ == (#[trigger] new_ids[b]).1@
        implies new_ids[a].2 != new_ids[b].2 by {
        let qa = before_removal(a, p);
        let qb = before_removal(b, p);
        assert(qa < qb);
        assert(old_ids[qa].2 != old_ids[qb].2);
        if old_ids[qa].1@ == t {
            if qa < p {
                assert(old_ids[qa].2 != old_ids[p].2);
            } else {
                assert(old_ids[p].2 != old_ids[qa].2);
            }
            if qb < p {
                assert(old_ids[qb].2 != old_ids[p].2);
            } else {
                assert(old_ids[p].2 != old_ids[qb].2);
            }
        }
    }
    assert forall|a: int| 0 <= a < new_ids.len() implies (#[trigger] new_ids[a]).0 < next by {
        assert(old_ids[before_removal(a, p)].0 < next);
    }
}

/// The callbacks scripts registered, with the ids that name them.
pub struct ScriptListeners<F> {
    lists: Vec<(String, Vec<F>)>,
    ids: Vec<(u64, String, usize)>,
    next_id: u64,
}

impl<F> ScriptListeners<F> {
    /// The callbacks for event type `t`, in registration order.
    pub closed spec fn callbacks(&self, t: Seq<char>) -> Seq<F> {
        callbacks_in(self.lists@, t)
    }

    /// The event type and list position of the callback named `id`, if it is
    /// registered.
    pub closed spec fn listener(&self, id: u64) -> Option<(Seq<char>, int)> {
        listener_in(self.ids@, id)
    }

    /// The id the next registration gets.
    pub closed spec fn next_id(&self) -> u64 {
        self.next_id
    }

    /// The callback registered under `id`.
    pub open spec fn callback_of(&self, id: u64) -> Option<F> {
        match self.listener(id) {
            Some((t, k)) => Some(self.callbacks(t)[k]),
            None => None,
        }
    }

    /// Every id names a distinct position that holds a callback, and no id
    /// is at or above the next one.
    #[verifier::type_invariant]
    closed spec fn well_formed(&self) -> bool {
        ids_well_formed(self.ids@, self.lists@, self.next_id)
    }

    /// No callbacks; the first id is 0.
    pub fn new() -> (s: Self)
        ensures
            forall|t: Seq<char>| #[trigger] s.callbacks(t) == Seq::<F>::empty(),
            forall|id: u64| #[trigger] s.listener(id) is None,
            s.next_id() == 0,
    {
        ScriptListeners { lists: Vec::new(), ids: Vec::new(), next_id: 0 }
    }

    fn find_type(&self, t: &str) -> (r: Option<usize>)
        ensures
            match r {
                Some(i) => type_index(self.lists@, t@, 0) == Some(i as int) && i < self.lists@.len(),
                None => type_index(self.lists@, t@, 0) is None,
            },
    {
        find_type_in(&self.lists, t)
    }

    fn find_id(&self, id: u64) -> (r: Option<usize>)
        ensures
            match r {
                Some(i) => id_index(self.ids@, id, 0) == Some(i as int) && i < self.ids@.len(),
                None => id_index(self.ids@, id, 0) is None,
            },
    {
        proof {
            lemma_id_index(self.ids@, id, 0);
        }
        let mut i: usize = 0;
        while i < self.ids.len()
            invariant
                i <= self.ids@.len(),
                forall|j: int| 0 <= j < i ==> (#[trigger] self.ids@[j]).0 != id,
                match id_index(self.ids@, id, 0) {
                    Some(k) => i <= k < self.ids@.len() && self.ids@[k].0 == id,
                    None => true,
                },
            decreases self.ids@.len() - i,
        {
            if self.ids[i].0 == id {
                proof {
                    lemma_id_index(self.ids@, id, 0);
                    match id_index(self.ids@, id, 0) {
                        Some(k) => {
                            if k > i {
                                assert(self.ids@[i as int].0 != id);
                            }
                        },
                        None => {
                            assert(self.ids@[i as int].0 != id);
                        },
                    }
                }
                return Some(i);
            }
            i = i + 1;
        }
        None
    }

    /// Registers `f` for event type `t` (`events.on`): it goes at the end of
    /// the type's callbacks and is named by the returned id, which is the
    /// next id. Nothing else changes.
    pub fn on(&mut self, t: &str, f: F) -> (id: u64)
        requires
            old(self).next_id() < u64::MAX,
        ensures
            id == old(self).next_id(),
            final(self).next_id() == id + 1,
            old(self).listener(id) is None,
            final(self).callbacks(t@) == old(self).callbacks(t@).push(f),
            forall|t2: Seq<char>| t2 != t@ ==> #[trigger] final(self).callbacks(t2) == old(self).callbacks(t2),
            final(self).listener(id) == Some((t@, old(self).callbacks(t@).len() as int)),
            forall|id2: u64| id2 != id ==> #[trigger] final(self).listener(id2) == old(self).listener(id2),
    {
        proof {
            use_type_invariant(&*self);
        }
        let found = self.find_type(t);
        let ghost old_lists = self.lists@;
        let ghost old_ids = self.ids@;
        let ghost old_next = self.next_id;
        proof {
            lemma_id_absent(old_ids, old_next);
        }
        let mut whole = ScriptListeners::new();
        std::mem::swap(self, &mut whole);
        let ScriptListeners { mut lists, mut ids, next_id } = whole;
        let index: usize;
        match found {
            Some(i) => {
                let mut entry = lists.remove(i);
                index = entry.1.len();
                entry.1.push(f);
                lists.insert(i, entry);
                proof {
                    lemma_type_index(old_lists, t@, 0);
                    assert(lists@ =~= old_lists.update(i as int, lists@[i as int]));
                    assert(lists@[i as int].0@ == t@);
                    assert(lists@[i as int].1@ == old_lists[i as int].1@.push(f));
                    assert forall|t2: Seq<char>| #[trigger] callbacks_in(lists@, t2) == if t2 == t@ {
                        callbacks_in(old_lists, t@).push(f)
                    } else {
                        callbacks_in(old_lists, t2)
                    } by {
                        lemma_type_index_same_keys(lists@, old_lists, t2, 0);
                        lemma_type_index(old_lists, t2, 0);
                        match type_index(old_lists, t2, 0) {
                            Some(k) => {
                                if t2 != t@ {
                                    assert(k != i);
                                    assert(lists@[k] == old_lists[k]);
                                }
                            },
                            None => {},
                        }
                    }
                }
            },
            None => {
                index = 0;
                let mut v: Vec<F> = Vec::new();
                v.push(f);
                lists.push((t.to_owned(), v));
                proof {
                    let e = lists@[old_lists.len() as int];
                    assert(lists@ =~= old_lists.push(e));
                    assert(e.0@ == t@);
                    assert(e.1@ =~= seq![f]);
                    assert forall|t2: Seq<char>| #[trigger] callbacks_in(lists@, t2) == if t2 == t@ {
                        callbacks_in(old_lists, t@).push(f)
                    } else {
                        callbacks_in(old_lists, t2)
                    } by {
                        lemma_type_index_push(old_lists, e, t2, 0);
                        lemma_type_index(old_lists, t2, 0);
                        match type_index(old_lists, t2, 0) {
                            Some(k) => {
                                assert(lists@[k] == old_lists[k]);
                            },
                            None => {
                                if t2 == t@ {
                                    assert(callbacks_in(old_lists, t@) == Seq::<F>::empty());
                                    assert(Seq::<F>::empty().push(f) =~= seq![f]);
                                }
                            },
                        }
                    }
                }
            },
        }
        let id = next_id;
        ids.push((id, t.to_owned(), index));
        proof {
            assert(index == callbacks_in(old_lists, t@).len());
            assert forall|id2: u64| #[trigger] id_index(ids@, id2, 0) == if id2 == id {
                Some(old_ids.len() as int)
            } else {
                id_index(old_ids, id2, 0)
            } by {
                lemma_id_index(old_ids, id2, 0);
                lemma_id_index(ids@, id2, 0);
                assert(ids@[old_ids.len() as int].0 == id);
                assert forall|j: int| 0 <= j < old_ids.len() implies #[trigger] ids@[j] == old_ids[j] by {}
                match id_index(ids@, id2, 0) {
                    Some(k) => {
                        match id_index(old_ids, id2, 0) {
                            Some(k2) => {
                                if k < k2 { assert(ids@[k] == old_ids[k]); }
                                if k2 < k { assert(ids@[k2] == old_ids[k2]); }
                            },
                            None => {
                                if k < old_ids.len() { assert(ids@[k] == old_ids[k]); }
                            },
                        }
                    },
                    None => {
                        match id_index(old_ids, id2, 0) {
                            Some(k2) => { assert(ids@[k2] == old_ids[k2]); },
                            None => {},
                        }
                    },
                }
            }
        }
        proof {
            assert(index == callbacks_in(old_lists, t@).len());
            assert forall|a: int| 0 <= a < old_ids.len() implies #[trigger] ids@[a] == old_ids[a] by {}
            assert(ids@[old_ids.len() as int] == (id, ids@[old_ids.len() as int].1, index));
            assert(ids@[old_ids.len() as int].1@ == t@);
            assert forall|a: int| 0 <= a < ids@.len() implies (#[trigger] ids@[a]).2 < callbacks_in(
                lists@,
                ids@[a].1@,
            ).len() by {
                if a < old_ids.len() {
                    assert(ids@[a] == old_ids[a]);
                }
            }
            assert forall|a: int, b: int| 0 <= a < b < ids@.len() && (#[trigger] ids@[a]).1@ == (#[trigger] ids@[b]).1@
                implies ids@[a].2 != ids@[b].2 by {
                if b == old_ids.len() {
                    assert(ids@[a] == old_ids[a]);
                } else {
                    assert(ids@[a] == old_ids[a]);
                    assert(ids@[b] == old_ids[b]);
                }
            }
            assert forall|a: int, b: int| 0 <= a < b < ids@.len() implies (#[trigger] ids@[a]).0 != (
            #[trigger] ids@[b]).0 by {
                assert(ids@[a] == old_ids[a]);
                if b < old_ids.len() {
                    assert(ids@[b] == old_ids[b]);
                }
            }
            assert forall|id2: u64| id2 != id implies #[trigger] listener_in(ids@, id2) == listener_in(old_ids, id2) by {
                lemma_id_index(old_ids, id2, 0);
                match id_index(old_ids, id2, 0) {
                    Some(k) => {
                        assert(ids@[k] == old_ids[k]);
                    },
                    None => {},
                }
            }
        }
        *self = ScriptListeners { lists, ids, next_id: next_id + 1 };
        id
    }

    /// Removes the callback named `id` (`events.off`): it leaves its type's
    /// list, the positions recorded for the callbacks after it move down by
    /// one, and every other id keeps naming the callback it named. An id
    /// that names nothing changes nothing.
    pub fn off(&mut self, id: u64)
        ensures
            final(self).next_id() == old(self).next_id(),
            final(self).listener(id) is None,
            forall|id2: u64| id2 != id ==> #[trigger] final(self).callback_of(id2) == old(self).callback_of(id2),
            match old(self).listener(id) {
                None => (forall|t2: Seq<char>| #[trigger] final(self).callbacks(t2) == old(self).callbacks(t2))
                    && (forall|id2: u64| #[trigger] final(self).listener(id2) == old(self).listener(id2)),
                Some((t, k)) => final(self).callbacks(t) == old(self).callbacks(t).remove(k) && (forall|
                    t2: Seq<char>,
                | t2 != t ==> #[trigger] final(self).callbacks(t2) == old(self).callbacks(t2)) && (forall|id2: u64|
                    id2 != id ==> #[trigger] final(self).listener(id2) == match old(self).listener(id2) {
                        Some((t2, k2)) => Some((t2, if t2 == t && k2 > k { k2 - 1 } else { k2 })),
                        None => None,
                    }),
            },
    {
        proof {
            use_type_invariant(&*self);
        }
        let pos = self.find_id(id);
        match pos {
            None => {},
            Some(p) => {
                let ghost old_lists = self.lists@;
                let ghost old_ids = self.ids@;
                let mut whole = ScriptListeners::new();
                std::mem::swap(self, &mut whole);
                let ScriptListeners { mut lists, mut ids, next_id } = whole;
                let removed = ids.remove(p);
                let t = removed.1;
                let index = removed.2;
                let ghost rem = ids@;
                proof {
                    assert(rem =~= old_ids.remove(p as int));
                    lemma_id_index(old_ids, id, 0);
                    assert(old_ids[p as int].0 == id);
                    assert(index < callbacks_in(old_lists, t@).len());
                    lemma_type_index(old_lists, t@, 0);
                }
                let found = find_type_in(&lists, t.as_str());
                match found {
                    Some(li) => {
                        if index < lists[li].1.len() {
                            let mut entry = lists.remove(li);
                            entry.1.remove(index);
                            lists.insert(li, entry);
                            ids = reindex(ids, t.as_str(), index);
                            proof {
                                assert(rem =~= old_ids.remove(p as int));
                                assert forall|j: int| 0 <= j < ids@.len() implies (#[trigger] ids@[j]).0 == old_ids[before_removal(j, p as int)].0
                                    && ids@[j].1@ == old_ids[before_removal(j, p as int)].1@ && ids@[j].2 == shifted_pos(
                                    old_ids[before_removal(j, p as int)].1@,
                                    old_ids[before_removal(j, p as int)].2 as int,
                                    t@,
                                    index as int,
                                ) by {
                                    assert(rem[j] == old_ids[before_removal(j, p as int)]);
                                }
                                assert(lists@[li as int].1@ == old_lists[li as int].1@.remove(index as int));
                                lemma_off_facts(old_lists, lists@, old_ids, ids@, p as int, li as int, t@, index, next_id);
                            }
                        } else {
                            proof {
                                assert(false);
                            }
                        }
                    },
                    None => {
                        proof {
                            assert(false);
                        }
                    },
                }
                *self = ScriptListeners { lists, ids, next_id };
            },
        }
    }

    /// The callbacks registered for `t`, in the order they were registered.
    pub fn callbacks_for(&self, t: &str) -> (r: Option<&Vec<F>>)
        ensures
            match r {
                Some(v) => v@ == self.callbacks(t@),
                None => self.callbacks(t@) == Seq::<F>::empty(),
            },
    {
        match self.find_type(t) {
            Some(i) => Some(&self.lists[i].1),
            None => None,
        }
    }
}

} // verus!
