//! The reconciliation queue: keys scheduled at points in time, drained in
//! time order once their time has come.
//!
//! Time is a count of ticks from an origin chosen by the caller; the queue
//! never reads a clock itself.
use vstd::prelude::*;

use crate::keymap::{add_key, distinct_keys, drop_key, key_set, KeyMap};
use crate::model::{Key, KeyView};

verus! {

/// The keys scheduled at one point in time.
pub struct Slot {
    pub when: u64,
    pub keys: Vec<Key>,
}

/// The abstract value of the queue: when each key was last scheduled, and
/// the keys filed under each point in time.
pub struct QueueView {
    pub scheduled: Map<KeyView, u64>,
    pub slots: Map<u64, Set<KeyView>>,
}

/// Keys scheduled at points in time.
pub struct Queue {
    scheduled: KeyMap<u64>,
    slots: Vec<Slot>,
}

/// The points in time of `s` are strictly increasing and no slot repeats a key.
pub open spec fn slots_wf(s: Seq<Slot>) -> bool {
    &&& forall|i: int, j: int| 0 <= i < j < s.len() ==> s[i].when < s[j].when
    &&& forall|i: int| 0 <= i < s.len() ==> distinct_keys(#[trigger] s[i].keys@)
}

pub open spec fn has_slot_at(s: Seq<Slot>, t: u64) -> bool {
    exists|i: int| 0 <= i < s.len() && s[i].when == t
}

/// The map from points in time to key sets that a slot sequence denotes.
pub open spec fn slots_map(s: Seq<Slot>) -> Map<u64, Set<KeyView>> {
    Map::new(
        |t: u64| has_slot_at(s, t),
        |t: u64| key_set(s[choose|i: int| 0 <= i < s.len() && s[i].when == t].keys@),
    )
}

pub proof fn lemma_slots_at(s: Seq<Slot>, i: int)
    requires
        slots_wf(s),
        0 <= i < s.len(),
    ensures
        slots_map(s).dom().contains(s[i].when),
        slots_map(s)[s[i].when] == key_set(s[i].keys@),
{
    let t = s[i].when;
    assert(has_slot_at(s, t));
    let j = choose|j: int| 0 <= j < s.len() && s[j].when == t;
    if j < i {
        assert(s[j].when < s[i].when);
    } else if i < j {
        assert(s[i].when < s[j].when);
    }
}

/// Replacing the keys of one slot replaces the set filed under its time.
pub proof fn lemma_slots_update(s: Seq<Slot>, i: int, x: Slot)
    requires
        slots_wf(s),
        0 <= i < s.len(),
        x.when == s[i].when,
        distinct_keys(x.keys@),
    ensures
        slots_wf(s.update(i, x)),
        slots_map(s.update(i, x)) == slots_map(s).insert(x.when, key_set(x.keys@)),
{
    let u = s.update(i, x);
    assert(slots_wf(u));
    let m = slots_map(s).insert(x.when, key_set(x.keys@));
    assert forall|t: u64| #[trigger] slots_map(u).dom().contains(t) == m.dom().contains(t) by {
        if has_slot_at(u, t) {
            let j = choose|j: int| 0 <= j < u.len() && u[j].when == t;
            if j != i {
                assert(s[j] == u[j]);
            }
        }
        if has_slot_at(s, t) {
            let j = choose|j: int| 0 <= j < s.len() && s[j].when == t;
            if j != i {
                assert(s[j] == u[j]);
            }
            assert(u[j].when == t);
        }
    }
    assert forall|t: u64| slots_map(u).dom().contains(t) implies slots_map(u)[t] == m[t] by {
        let j = choose|j: int| 0 <= j < u.len() && u[j].when == t;
        lemma_slots_at(u, j);
        if j != i {
            assert(s[j] == u[j]);
            lemma_slots_at(s, j);
        }
    }
    assert(slots_map(u) =~= m);
}

/// Inserting a slot for a new point in time, where the order is kept.
pub proof fn lemma_slots_insert(s: Seq<Slot>, p: int, x: Slot)
    requires
        slots_wf(s),
        0 <= p <= s.len(),
        forall|j: int| 0 <= j < p ==> s[j].when < x.when,
        forall|j: int| p <= j < s.len() ==> x.when < s[j].when,
        distinct_keys(x.keys@),
    ensures
        slots_wf(s.insert(p, x)),
        slots_map(s.insert(p, x)) == slots_map(s).insert(x.when, key_set(x.keys@)),
{
    let u = s.insert(p, x);
    assert forall|i: int, j: int| 0 <= i < j < u.len() implies u[i].when < u[j].when by {
        if j < p {
            assert(u[i] == s[i] && u[j] == s[j]);
        } else if j == p {
            assert(u[i] == s[i]);
        } else if i < p {
            assert(u[i] == s[i] && u[j] == s[j - 1]);
        } else if i == p {
            assert(u[j] == s[j - 1]);
        } else {
            assert(u[i] == s[i - 1] && u[j] == s[j - 1]);
        }
    }
    assert forall|i: int| 0 <= i < u.len() implies distinct_keys(#[trigger] u[i].keys@) by {
        if i < p {
            assert(u[i] == s[i]);
        } else if i > p {
            assert(u[i] == s[i - 1]);
        }
    }
    let m = slots_map(s).insert(x.when, key_set(x.keys@));
    assert forall|t: u64| #[trigger] slots_map(u).dom().contains(t) == m.dom().contains(t) by {
        if has_slot_at(u, t) {
            let j = choose|j: int| 0 <= j < u.len() && u[j].when == t;
            if j < p {
                assert(u[j] == s[j]);
            } else if j > p {
                assert(u[j] == s[j - 1]);
            }
        }
        if has_slot_at(s, t) {
            let j = choose|j: int| 0 <= j < s.len() && s[j].when == t;
            if j < p {
                assert(u[j] == s[j]);
            } else {
                assert(u[j + 1] == s[j]);
            }
        }
        if t == x.when {
            assert(u[p].when == t);
        }
    }
    assert forall|t: u64| slots_map(u).dom().contains(t) implies slots_map(u)[t] == m[t] by {
        let j = choose|j: int| 0 <= j < u.len() && u[j].when == t;
        lemma_slots_at(u, j);
        if j < p {
            assert(u[j] == s[j]);
            lemma_slots_at(s, j);
        } else if j > p {
            assert(u[j] == s[j - 1]);
            lemma_slots_at(s, j - 1);
        }
    }
    assert(slots_map(u) =~= m);
}

/// The slots of `s` up to position `p` are those at or before `at`.
pub proof fn lemma_slots_split(s: Seq<Slot>, p: int, at: u64)
    requires
        slots_wf(s),
        0 <= p <= s.len(),
        forall|j: int| 0 <= j < p ==> s[j].when <= at,
        forall|j: int| p <= j < s.len() ==> s[j].when > at,
    ensures
        slots_wf(s.subrange(0, p)),
        slots_wf(s.subrange(p, s.len() as int)),
        slots_map(s.subrange(0, p)) == slots_map(s).restrict(Set::new(|t: u64| t <= at)),
        slots_map(s.subrange(p, s.len() as int)) == slots_map(s).restrict(
            Set::new(|t: u64| t > at),
        ),
{
    let a = s.subrange(0, p);
    let b = s.subrange(p, s.len() as int);
    assert(slots_wf(a)) by {
        assert forall|i: int| 0 <= i < a.len() implies distinct_keys(#[trigger] a[i].keys@) by {
            assert(a[i] == s[i]);
        }
    }
    assert(slots_wf(b)) by {
        assert forall|i: int, j: int| 0 <= i < j < b.len() implies b[i].when < b[j].when by {
            assert(b[i] == s[i + p] && b[j] == s[j + p]);
        }
        assert forall|i: int| 0 <= i < b.len() implies distinct_keys(#[trigger] b[i].keys@) by {
            assert(b[i] == s[i + p]);
        }
    }
    let ma = slots_map(s).restrict(Set::new(|t: u64| t <= at));
    assert forall|t: u64| #[trigger] slots_map(a).dom().contains(t) == ma.dom().contains(t) by {
        if has_slot_at(a, t) {
            let j = choose|j: int| 0 <= j < a.len() && a[j].when == t;
            assert(a[j] == s[j]);
        }
        if has_slot_at(s, t) && t <= at {
            let j = choose|j: int| 0 <= j < s.len() && s[j].when == t;
            assert(j < p);
            assert(a[j] == s[j]);
        }
    }
    assert forall|t: u64| slots_map(a).dom().contains(t) implies slots_map(a)[t] == ma[t] by {
        let j = choose|j: int| 0 <= j < a.len() && a[j].when == t;
        lemma_slots_at(a, j);
        assert(a[j] == s[j]);
        lemma_slots_at(s, j);
    }
    assert(slots_map(a) =~= ma);
    let mb = slots_map(s).restrict(Set::new(|t: u64| t > at));
    assert forall|t: u64| #[trigger] slots_map(b).dom().contains(t) == mb.dom().contains(t) by {
        if has_slot_at(b, t) {
            let j = choose|j: int| 0 <= j < b.len() && b[j].when == t;
            assert(b[j] == s[j + p]);
        }
        if has_slot_at(s, t) && t > at {
            let j = choose|j: int| 0 <= j < s.len() && s[j].when == t;
            assert(j >= p);
            assert(b[j - p] == s[j]);
        }
    }
    assert forall|t: u64| slots_map(b).dom().contains(t) implies slots_map(b)[t] == mb[t] by {
        let j = choose|j: int| 0 <= j < b.len() && b[j].when == t;
        lemma_slots_at(b, j);
        assert(b[j] == s[j + p]);
        lemma_slots_at(s, j + p);
    }
    assert(slots_map(b) =~= mb);
}

/// Every key filed under some point in time of `slots`.
pub open spec fn keys_in(slots: Map<u64, Set<KeyView>>) -> Set<KeyView> {
    Set::new(|k: KeyView| exists|t: u64| slots.dom().contains(t) && #[trigger] slots[t].contains(k))
}

/// The slots whose time has come at `at`.
pub open spec fn due_slots(q: QueueView, at: u64) -> Map<u64, Set<KeyView>> {
    q.slots.restrict(Set::new(|t: u64| t <= at))
}

/// The queue after `k` is scheduled at `w`: if `k` was scheduled later than
/// `w`, it leaves that later slot; it joins the slot of `w`, and `w` becomes
/// its scheduled time. (A slot earlier than `w` that holds `k` keeps it.)
pub open spec fn schedule_spec(q: QueueView, k: KeyView, w: u64) -> QueueView {
    let slots1 = if q.scheduled.dom().contains(k) && q.scheduled[k] > w && q.slots.dom().contains(
        q.scheduled[k],
    ) {
        q.slots.insert(q.scheduled[k], q.slots[q.scheduled[k]].remove(k))
    } else {
        q.slots
    };
    let at_w = if slots1.dom().contains(w) {
        slots1[w]
    } else {
        Set::empty()
    };
    QueueView { scheduled: q.scheduled.insert(k, w), slots: slots1.insert(w, at_w.insert(k)) }
}

/// The queue after each key of `ks`, in turn, is scheduled at `w`.
pub open spec fn schedule_all_spec(q: QueueView, ks: Seq<KeyView>, w: u64) -> QueueView
    decreases ks.len(),
{
    if ks.len() == 0 {
        q
    } else {
        schedule_spec(schedule_all_spec(q, ks.drop_last(), w), ks.last(), w)
    }
}

/// The queue after `k` is unscheduled: it leaves the slot of its scheduled
/// time (the slot itself stays, possibly empty).
pub open spec fn unschedule_spec(q: QueueView, k: KeyView) -> QueueView {
    if !q.scheduled.dom().contains(k) {
        q
    } else {
        let w = q.scheduled[k];
        QueueView {
            scheduled: q.scheduled.remove(k),
            slots: if q.slots.dom().contains(w) {
                q.slots.insert(w, q.slots[w].remove(k))
            } else {
                q.slots
            },
        }
    }
}

/// The queue after the slots due at `at` are taken out: they leave, and the
/// keys they held are no longer scheduled.
pub open spec fn drain_spec(q: QueueView, at: u64) -> QueueView {
    QueueView {
        scheduled: q.scheduled.remove_keys(keys_in(due_slots(q, at))),
        slots: q.slots.restrict(Set::new(|t: u64| t > at)),
    }
}

/// Whether the waiters must be woken after a change of the earliest time:
/// when a time appears or disappears, or comes earlier.
pub open spec fn wake_spec(before: Option<u64>, after: Option<u64>) -> bool {
    match (before, after) {
        (Some(a), Some(b)) => a > b,
        (Some(_), None) | (None, Some(_)) => true,
        (None, None) => false,
    }
}

pub fn must_wake(before: Option<u64>, after: Option<u64>) -> (r: bool)
    ensures
        r == wake_spec(before, after),
{
    match (before, after) {
        (Some(a), Some(b)) => a > b,
        (Some(_), None) | (None, Some(_)) => true,
        (None, None) => false,
    }
}

/// What the reconciliation loop does next.
#[derive(Debug, Clone, Copy, PartialEq, Eq, Structural)]
pub enum WakeAction {
    /// Take out the due slots now.
    Drain,
    /// Wait until this time (or until woken).
    WaitUntil(u64),
    /// Nothing is scheduled: wait until woken.
    WaitForWork,
}

/// Decides, from the earliest scheduled time and the time `now`, whether to
/// drain now (the earliest time has come), to wait until the earliest time,
/// or to wait for work when nothing is scheduled.
pub fn next_wake(earliest: Option<u64>, now: u64) -> (r: WakeAction)
    ensures
        r == (match earliest {
            None => WakeAction::WaitForWork,
            Some(t) => if t <= now {
                WakeAction::Drain
            } else {
                WakeAction::WaitUntil(t)
            },
        }),
{
    match earliest {
        None => WakeAction::WaitForWork,
        Some(t) => if t <= now {
            WakeAction::Drain
        } else {
            WakeAction::WaitUntil(t)
        },
    }
}

impl Queue {
    pub closed spec fn view(&self) -> QueueView {
        QueueView { scheduled: self.scheduled.map_view(), slots: slots_map(self.slots@) }
    }

    pub closed spec fn wf(&self) -> bool {
        &&& self.scheduled.wf()
        &&& slots_wf(self.slots@)
    }

    /// The empty queue.
    pub fn new() -> (r: Queue)
        ensures
            r.wf(),
            r.view().scheduled == Map::<KeyView, u64>::empty(),
            r.view().slots == Map::<u64, Set<KeyView>>::empty(),
    {
        let r = Queue { scheduled: KeyMap::new(), slots: Vec::new() };
        assert(slots_map(r.slots@) =~= Map::<u64, Set<KeyView>>::empty());
        r
    }

    /// The position of the slot for `t`, or where one would go.
    fn slot_position(&self, t: u64) -> (r: (usize, bool))
        requires
            self.wf(),
        ensures
            r.0 <= self.slots@.len(),
            forall|j: int| 0 <= j < r.0 ==> self.slots@[j].when < t,
            r.1 ==> r.0 < self.slots@.len() && self.slots@[r.0 as int].when == t,
            !r.1 ==> forall|j: int| r.0 <= j < self.slots@.len() ==> self.slots@[j].when > t,
    {
        let mut i: usize = 0;
        while i < self.slots.len()
            invariant
                slots_wf(self.slots@),
                i <= self.slots@.len(),
                forall|j: int| 0 <= j < i ==> self.slots@[j].when < t,
            decreases self.slots@.len() - i,
        {
            if self.slots[i].when == t {
                return (i, true);
            }
            if self.slots[i].when > t {
                return (i, false);
            }
            i = i + 1;
        }
        (i, false)
    }

    /// Removes `k` from the slot for `t`, if there is one.
    fn leave_slot(&mut self, k: &Key, t: u64)
        requires
            old(self).wf(),
        ensures
            final(self).wf(),
            final(self).scheduled == old(self).scheduled,
            final(self).view().slots == (if old(self).view().slots.dom().contains(t) {
                old(self).view().slots.insert(t, old(self).view().slots[t].remove(k@))
            } else {
                old(self).view().slots
            }),
    {
        let (p, found) = self.slot_position(t);
        if found {
            let ghost s = self.slots@;
            let mut slot = self.slots.remove(p);
            drop_key(&mut slot.keys, k);
            self.slots.insert(p, slot);
            proof {
                assert(self.slots@ =~= s.update(p as int, slot));
                lemma_slots_at(s, p as int);
                lemma_slots_update(s, p as int, slot);
            }
        } else {
            proof {
                if has_slot_at(self.slots@, t) {
                    let j = choose|j: int| 0 <= j < self.slots@.len() && self.slots@[j].when == t;
                    if j < p {
                    } else {
                    }
                }
            }
        }
    }

    /// Adds `k` to the slot for `t`, creating the slot if there is none.
    fn join_slot(&mut self, k: Key, t: u64)
        requires
            old(self).wf(),
        ensures
            final(self).wf(),
            final(self).scheduled == old(self).scheduled,
            final(self).view().slots == old(self).view().slots.insert(
                t,
                (if old(self).view().slots.dom().contains(t) {
                    old(self).view().slots[t]
                } else {
                    Set::empty()
                }).insert(k@),
            ),
    {
        let (p, found) = self.slot_position(t);
        let ghost s = self.slots@;
        let ghost kv = k@;
        if found {
            let mut slot = self.slots.remove(p);
            add_key(&mut slot.keys, k);
            self.slots.insert(p, slot);
            proof {
                assert(self.slots@ =~= s.update(p as int, slot));
                lemma_slots_at(s, p as int);
                lemma_slots_update(s, p as int, slot);
            }
        } else {
            let mut keys: Vec<Key> = Vec::new();
            proof {
                assert(key_set(keys@) =~= Set::<KeyView>::empty());
            }
            add_key(&mut keys, k);
            let slot = Slot { when: t, keys };
            self.slots.insert(p, slot);
            proof {
                lemma_slots_insert(s, p as int, slot);
                if has_slot_at(s, t) {
                    let j = choose|j: int| 0 <= j < s.len() && s[j].when == t;
                    if j < p {
                    } else {
                    }
                }
            }
        }
    }

    /// Unschedules `k`: it leaves the slot of its scheduled time.
    pub fn remove_key(&mut self, key: &Key)
        requires
            old(self).wf(),
        ensures
            final(self).wf(),
            final(self).view() == unschedule_spec(old(self).view(), key@),
    {
        let ghost q = self.view();
        let when = match self.scheduled.remove(key) {
            Some(w) => w,
            None => {
                assert(self.scheduled.map_view() =~= q.scheduled);
                return;
            },
        };
        self.leave_slot(key, when);
        assert(self.view().scheduled == q.scheduled.remove(key@));
    }

    /// Schedules `key` at `when` (see [`schedule_spec`]).
    pub fn schedule_at(&mut self, key: Key, when: u64)
        requires
            old(self).wf(),
        ensures
            final(self).wf(),
            final(self).view() == schedule_spec(old(self).view(), key@, when),
    {
        let ghost q = self.view();
        match self.scheduled.get(&key) {
            Some(s) => {
                let s = *s;
                if s > when {
                    self.leave_slot(&key, s);
                }
            },
            None => {},
        }
        let k2 = key.copy();
        self.join_slot(key, when);
        self.scheduled.insert(k2, when);
        assert(self.view() =~= schedule_spec(q, k2@, when));
    }

    /// Schedules each of `keys` at `when`, as [`Queue::schedule_at`] would one
    /// after the other.
    pub fn schedule_at_bulk(&mut self, keys: Vec<Key>, when: u64)
        requires
            old(self).wf(),
        ensures
            final(self).wf(),
            final(self).view() == schedule_all_spec(
                old(self).view(),
                keys@.map_values(|k: Key| k@),
                when,
            ),
    {
        let ghost q = self.view();
        let ghost ks = keys@.map_values(|k: Key| k@);
        let mut i: usize = 0;
        let n = keys.len();
        let mut rest = keys;
        let ghost all = rest@;
        while i < n
            invariant
                self.wf(),
                n == all.len(),
                i <= n,
                ks == all.map_values(|k: Key| k@),
                rest@ == all.subrange(i as int, n as int),
                self.view() == schedule_all_spec(q, ks.subrange(0, i as int), when),
            decreases n - i,
        {
            let k = rest.remove(0);
            assert(k@ == ks[i as int]);
            self.schedule_at(k, when);
            proof {
                assert(ks.subrange(0, i + 1).drop_last() =~= ks.subrange(0, i as int));
                assert(rest@ =~= all.subrange(i + 1, n as int));
            }
            i = i + 1;
        }
        assert(ks.subrange(0, n as int) =~= ks);
    }

    /// The earliest point in time that has a slot.
    pub fn earliest(&self) -> (r: Option<u64>)
        requires
            self.wf(),
        ensures
            r is None <==> self.view().slots.dom() == Set::<u64>::empty(),
            r matches Some(t) ==> self.view().slots.dom().contains(t) && forall|u: u64|
                self.view().slots.dom().contains(u) ==> t <= u,
    {
        if self.slots.len() == 0 {
            assert(self.view().slots.dom() =~= Set::<u64>::empty());
            None
        } else {
            proof {
                lemma_slots_at(self.slots@, 0);
                assert forall|u: u64| self.view().slots.dom().contains(u) implies self.slots@[0].when
                    <= u by {
                    let j = choose|j: int| 0 <= j < self.slots@.len() && self.slots@[j].when == u;
                    if j > 0 {
                    }
                }
                assert(self.view().slots.dom().contains(self.slots@[0].when));
            }
            Some(self.slots[0].when)
        }
    }

    /// Takes out the slots due at `at` and returns them in time order.
    pub fn remove_expired_at(&mut self, at: u64) -> (r: Vec<Slot>)
        requires
            old(self).wf(),
        ensures
            final(self).wf(),
            slots_wf(r@),
            slots_map(r@) == due_slots(old(self).view(), at),
            final(self).view() == drain_spec(old(self).view(), at),
    {
        let ghost q = self.view();
        let ghost s = self.slots@;
        let mut p: usize = 0;
        while p < self.slots.len() && self.slots[p].when <= at
            invariant
                self.slots@ == s,
                slots_wf(s),
                p <= s.len(),
                forall|j: int| 0 <= j < p ==> s[j].when <= at,
            decreases s.len() - p,
        {
            p = p + 1;
        }
        proof {
            assert forall|j: int| p <= j < s.len() implies s[j].when > at by {
                if j > p {
                    assert(s[p as int].when < s[j].when);
                }
            }
            lemma_slots_split(s, p as int, at);
        }
        let mut due = self.slots.split_off(p);
        std::mem::swap(&mut self.slots, &mut due);
        assert(due@ =~= s.subrange(0, p as int));
        assert(self.slots@ =~= s.subrange(p as int, s.len() as int));
        let ghost dk = keys_in(due_slots(q, at));
        let mut a: usize = 0;
        while a < due.len()
            invariant
                self.wf(),
                due@ == s.subrange(0, p as int),
                slots_wf(due@),
                slots_map(due@) == due_slots(q, at),
                slots_map(self.slots@) == q.slots.restrict(Set::new(|t: u64| t > at)),
                a <= due@.len(),
                forall|k: KeyView|
                    #[trigger] self.scheduled.map_view().dom().contains(k) <==> (
                    q.scheduled.dom().contains(k) && !(exists|j: int|
                        0 <= j < a && key_set(due@[j].keys@).contains(k))),
                forall|k: KeyView|
                    #[trigger] self.scheduled.map_view().dom().contains(k) ==> self.scheduled.map_view()[k]
                        == q.scheduled[k],
            decreases due@.len() - a,
        {
            let mut b: usize = 0;
            let kn = due[a].keys.len();
            while b < kn
                invariant
                    self.wf(),
                    kn == due@[a as int].keys@.len(),
                    a < due@.len(),
                    slots_map(self.slots@) == q.slots.restrict(Set::new(|t: u64| t > at)),
                    b <= kn,
                    forall|k: KeyView|
                        #[trigger] self.scheduled.map_view().dom().contains(k) <==> (
                        q.scheduled.dom().contains(k) && !(exists|j: int|
                            0 <= j < a && key_set(due@[j].keys@).contains(k)) && !(exists|c: int|
                            0 <= c < b && due@[a as int].keys@[c]@ == k)),
                    forall|k: KeyView|
                        #[trigger] self.scheduled.map_view().dom().contains(k)
                            ==> self.scheduled.map_view()[k] == q.scheduled[k],
                decreases kn - b,
            {
                let _ = self.scheduled.remove(&due[a].keys[b]);
                b = b + 1;
            }
            proof {
                assert forall|k: KeyView|
                    #[trigger] self.scheduled.map_view().dom().contains(k) <==> (
                    q.scheduled.dom().contains(k) && !(exists|j: int|
                        0 <= j < a + 1 && key_set(due@[j].keys@).contains(k))) by {
                    if exists|j: int| 0 <= j < a + 1 && key_set(due@[j].keys@).contains(k) {
                        let j = choose|j: int| 0 <= j < a + 1 && key_set(due@[j].keys@).contains(k);
                        if j == a {
                            let c = choose|c: int|
                                0 <= c < due@[j].keys@.len() && due@[j].keys@[c]@ == k;
                            assert(0 <= c < kn && due@[a as int].keys@[c]@ == k);
                        }
                    }
                    if exists|c: int| 0 <= c < kn && due@[a as int].keys@[c]@ == k {
                        assert(key_set(due@[a as int].keys@).contains(k));
                    }
                }
            }
            a = a + 1;
        }
        proof {
            let m = q.scheduled.remove_keys(dk);
            assert forall|k: KeyView| #[trigger] dk.contains(k) == (exists|j: int|
                0 <= j < due@.len() && key_set(due@[j].keys@).contains(k)) by {
                if dk.contains(k) {
                    let t = choose|t: u64|
                        due_slots(q, at).dom().contains(t) && #[trigger] due_slots(q, at)[t].contains(
                            k,
                        );
                    let j = choose|j: int| 0 <= j < due@.len() && due@[j].when == t;
                    lemma_slots_at(due@, j);
                }
                if exists|j: int| 0 <= j < due@.len() && key_set(due@[j].keys@).contains(k) {
                    let j = choose|j: int|
                        0 <= j < due@.len() && key_set(due@[j].keys@).contains(k);
                    lemma_slots_at(due@, j);
                    let t = due@[j].when;
                    assert(due_slots(q, at).dom().contains(t) && due_slots(q, at)[t].contains(k));
                }
            }
            assert(self.scheduled.map_view() =~= m);
            assert(self.view() =~= drain_spec(q, at));
        }
        due
    }
}

/// Scheduling a key at or before `at` makes it part of what is drained at
/// `at`, in the slot of the time it was scheduled at.
pub proof fn lemma_scheduled_key_is_drained(q: QueueView, k: KeyView, w: u64, at: u64)
    requires
        w <= at,
    ensures
        due_slots(schedule_spec(q, k, w), at).dom().contains(w),
        due_slots(schedule_spec(q, k, w), at)[w].contains(k),
        !drain_spec(schedule_spec(q, k, w), at).scheduled.dom().contains(k),
{
    let q2 = schedule_spec(q, k, w);
    assert(q2.slots[w].contains(k));
    assert(due_slots(q2, at).dom().contains(w));
    assert(due_slots(q2, at)[w].contains(k));
    assert(keys_in(due_slots(q2, at)).contains(k));
}

/// A key scheduled later than `at` is not drained at `at` and stays scheduled
/// at its time.
pub proof fn lemma_future_key_survives_drain(q: QueueView, k: KeyView, w: u64, at: u64)
    requires
        w > at,
        forall|t: u64| q.slots.dom().contains(t) ==> !#[trigger] q.slots[t].contains(k),
    ensures
        !keys_in(due_slots(schedule_spec(q, k, w), at)).contains(k),
        drain_spec(schedule_spec(q, k, w), at).scheduled.dom().contains(k),
        drain_spec(schedule_spec(q, k, w), at).scheduled[k] == w,
        drain_spec(schedule_spec(q, k, w), at).slots[w].contains(k),
{
    let q2 = schedule_spec(q, k, w);
    assert forall|t: u64| due_slots(q2, at).dom().contains(t) implies !#[trigger] due_slots(q2, at)[t].contains(k) by {
        assert(t != w);
    }
}

/// After a drain at `at`, no slot at or before `at` is left.
pub proof fn lemma_drain_leaves_nothing_due(q: QueueView, at: u64)
    ensures
        due_slots(drain_spec(q, at), at) == Map::<u64, Set<KeyView>>::empty(),
{
    assert(due_slots(drain_spec(q, at), at) =~= Map::<u64, Set<KeyView>>::empty());
}

/// Whether `k` is scheduled and filed only in the slot of its scheduled time.
pub open spec fn filed_once(q: QueueView, k: KeyView) -> bool {
    &&& q.scheduled.dom().contains(k)
    &&& forall|t: u64| q.slots.dom().contains(t) && #[trigger] q.slots[t].contains(k) ==> t == q.scheduled[k]
}

/// Scheduling a key that no slot holds files it once, at its time.
pub proof fn lemma_fresh_key_filed_once(q: QueueView, k: KeyView, w: u64)
    requires
        forall|t: u64| q.slots.dom().contains(t) ==> !#[trigger] q.slots[t].contains(k),
    ensures
        filed_once(schedule_spec(q, k, w), k),
        schedule_spec(q, k, w).scheduled[k] == w,
{
}

/// Scheduling another key leaves a key filed once where it was.
pub proof fn lemma_other_key_keeps_filing(q: QueueView, k: KeyView, j: KeyView, w: u64)
    requires
        filed_once(q, k),
        j != k,
    ensures
        filed_once(schedule_spec(q, j, w), k),
        schedule_spec(q, j, w).scheduled[k] == q.scheduled[k],
{
}

/// Rescheduling a key filed once to an earlier time moves it: it is filed
/// once, at the earlier time; a drain at any time from the earlier time on
/// takes it out, after which it is unscheduled and no slot holds it, so no
/// later drain returns it unless it is scheduled anew.
pub proof fn lemma_reschedule_earlier(q: QueueView, k: KeyView, t1: u64, at: u64)
    requires
        filed_once(q, k),
        t1 < q.scheduled[k],
        t1 <= at,
    ensures
        filed_once(schedule_spec(q, k, t1), k),
        schedule_spec(q, k, t1).scheduled[k] == t1,
        due_slots(schedule_spec(q, k, t1), at)[t1].contains(k),
        !drain_spec(schedule_spec(q, k, t1), at).scheduled.dom().contains(k),
        forall|t: u64|
            drain_spec(schedule_spec(q, k, t1), at).slots.dom().contains(t) ==> !#[trigger] drain_spec(
                schedule_spec(q, k, t1),
                at,
            ).slots[t].contains(k),
{
    let q2 = schedule_spec(q, k, t1);
    assert(filed_once(q2, k)) by {
        assert forall|t: u64| q2.slots.dom().contains(t) && #[trigger] q2.slots[t].contains(k) implies t == t1 by {
            if t != t1 {
                if t == q.scheduled[k] {
                    assert(q.slots.dom().contains(t));
                    assert(!q2.slots[t].contains(k));
                } else {
                    assert(q.slots[t].contains(k));
                }
            }
        }
    }
    lemma_scheduled_key_is_drained(q, k, t1, at);
    let d = drain_spec(q2, at);
    assert forall|t: u64| d.slots.dom().contains(t) implies !#[trigger] d.slots[t].contains(k) by {
        assert(t > at);
        if q2.slots[t].contains(k) {
            assert(t == t1);
        }
    }
}

/// Unscheduling a key leaves it unscheduled and out of the slot of its time.
pub proof fn lemma_unscheduled_key_is_gone(q: QueueView, k: KeyView)
    ensures
        !unschedule_spec(q, k).scheduled.dom().contains(k),
        q.scheduled.dom().contains(k) && q.slots.dom().contains(q.scheduled[k]) ==> !unschedule_spec(
            q,
            k,
        ).slots[q.scheduled[k]].contains(k),
{
}

} // verus!
