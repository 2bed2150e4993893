//! The state manager's decisions over the stored resources: marking for
//! removal, scheduling what is available, merging configuration updates and
//! recording the outcome of reconciliations.
use vstd::prelude::*;

use crate::keymap::{add_key, distinct_keys, key_set, position_of_key, KeyMap};
use crate::json::{json_opt_str, push_json_opt_str};
use crate::model::{
    key_eq, opt_text, IdClass, Identity, IdentityView, Key, KeyView, Phase, PrivateIdentity,
    PrivateKind, Status, StatusError, StatusErrorView, StatusView,
};
use crate::resource::{id_classes, ResourceResponse};
use crate::text::{push_str, str_eq};
use crate::queue::{schedule_all_spec, Queue};
use crate::resource::{
    IdSet, ResourceView, SubResourceCreate, SubResourceView, TerminalResource, ValidateResponse,
};

verus! {

/// The stored resources, by key.
pub type Resources = KeyMap<TerminalResource>;

/// The keys of the children of a resource.
pub open spec fn child_keys(r: ResourceView) -> Set<KeyView> {
    Set::new(|k: KeyView| exists|c: IdClass| #[trigger] r.children.contains(c) && c.key == k)
}

/// `p` is a path of stored resources, each a child of the one before.
pub open spec fn is_child_path(m: Map<KeyView, ResourceView>, p: Seq<KeyView>) -> bool {
    &&& p.len() > 0
    &&& forall|i: int| 0 <= i < p.len() ==> m.dom().contains(#[trigger] p[i])
    &&& forall|i: int| 0 <= i < p.len() - 1 ==> #[trigger] child_keys(m[p[i]]).contains(p[i + 1])
}

/// `k` is reached from `from` by following children through stored
/// resources (`from` itself included, when it is stored).
pub open spec fn reachable(m: Map<KeyView, ResourceView>, from: KeyView, k: KeyView) -> bool {
    exists|p: Seq<KeyView>| #[trigger] is_child_path(m, p) && p[0] == from && p.last() == k
}

/// The phase a resource takes when it is removed: it is deleted at once
/// when nothing depends on it and it has no children, and waits otherwise.
pub open spec fn removal_phase(r: ResourceView) -> Phase {
    if r.children == Set::<IdClass>::empty() && r.dependents == Set::<IdClass>::empty() {
        Phase::Deleting
    } else {
        Phase::PendingDeletion
    }
}

/// The resources after `from` is marked for removal: it and every resource
/// reached through children take their removal phase.
pub open spec fn mark_removed_spec(m: Map<KeyView, ResourceView>, from: KeyView) -> Map<
    KeyView,
    ResourceView,
> {
    Map::new(
        |k: KeyView| m.dom().contains(k),
        |k: KeyView|
            if reachable(m, from, k) {
                ResourceView { phase: removal_phase(m[k]), ..m[k] }
            } else {
                m[k]
            },
    )
}

/// The resources that a removal of `from` sends to deletion at once.
pub open spec fn removal_queue(m: Map<KeyView, ResourceView>, from: KeyView) -> Set<KeyView> {
    Set::new(|k: KeyView| reachable(m, from, k) && removal_phase(m[k]) == Phase::Deleting)
}

/// A set that holds `from` (when stored) and the stored children of its
/// members holds everything reached from `from`.
pub proof fn lemma_closed_holds_reachable(
    m: Map<KeyView, ResourceView>,
    from: KeyView,
    s: Set<KeyView>,
    k: KeyView,
)
    requires
        m.dom().contains(from) ==> s.contains(from),
        forall|v: KeyView, c: KeyView|
            s.contains(v) && #[trigger] child_keys(m[v]).contains(c) && m.dom().contains(c)
                ==> s.contains(c),
        reachable(m, from, k),
    ensures
        s.contains(k),
{
    let p = choose|p: Seq<KeyView>| #[trigger] is_child_path(m, p) && p[0] == from && p.last() == k;
    lemma_path_in_closed(m, from, s, p, p.len() - 1);
}

proof fn lemma_path_in_closed(
    m: Map<KeyView, ResourceView>,
    from: KeyView,
    s: Set<KeyView>,
    p: Seq<KeyView>,
    i: int,
)
    requires
        m.dom().contains(from) ==> s.contains(from),
        forall|v: KeyView, c: KeyView|
            s.contains(v) && #[trigger] child_keys(m[v]).contains(c) && m.dom().contains(c)
                ==> s.contains(c),
        is_child_path(m, p),
        p[0] == from,
        0 <= i < p.len(),
    ensures
        s.contains(p[i]),
    decreases i,
{
    assert(m.dom().contains(p[i]));
    if i > 0 {
        lemma_path_in_closed(m, from, s, p, i - 1);
        let j = i - 1;
        assert(child_keys(m[p[j]]).contains(p[j + 1]));
    }
}

/// Extending a path to `v` by a stored child of `v` reaches that child.
pub proof fn lemma_reach_child(m: Map<KeyView, ResourceView>, from: KeyView, v: KeyView, c: KeyView)
    requires
        reachable(m, from, v),
        child_keys(m[v]).contains(c),
        m.dom().contains(c),
    ensures
        reachable(m, from, c),
{
    let p = choose|p: Seq<KeyView>| #[trigger] is_child_path(m, p) && p[0] == from && p.last() == v;
    let q = p.push(c);
    assert forall|i: int| 0 <= i < q.len() implies m.dom().contains(#[trigger] q[i]) by {
        if i < p.len() {
            assert(q[i] == p[i]);
        }
    }
    assert forall|i: int| 0 <= i < q.len() - 1 implies #[trigger] child_keys(m[q[i]]).contains(
        q[i + 1],
    ) by {
        if i < p.len() - 1 {
            assert(q[i] == p[i] && q[i + 1] == p[i + 1]);
        } else {
            assert(q[i] == v && q[i + 1] == c);
        }
    }
    assert(is_child_path(m, q));
}

/// A stored resource reaches itself.
pub proof fn lemma_reach_self(m: Map<KeyView, ResourceView>, k: KeyView)
    requires
        m.dom().contains(k),
    ensures
        reachable(m, k, k),
{
    let p = seq![k];
    assert(is_child_path(m, p));
}

/// A sequence of distinct keys drawn from a finite set is no longer than it.
pub proof fn lemma_distinct_keys_len(v: Seq<Key>, s: Set<KeyView>)
    requires
        distinct_keys(v),
        s.finite(),
        key_set(v).subset_of(s),
    ensures
        v.len() <= s.len(),
{
    let ks = v.map_values(|k: Key| k@);
    assert(ks.no_duplicates());
    ks.unique_seq_to_set();
    assert(ks.to_set().subset_of(s)) by {
        assert forall|x: KeyView| ks.to_set().contains(x) implies s.contains(x) by {
            let i = choose|i: int| 0 <= i < ks.len() && ks[i] == x;
            assert(key_set(v).contains(v[i]@));
        }
    }
    vstd::set_lib::lemma_len_subset(ks.to_set(), s);
}

/// The resource `r` as it is after being marked for removal.
pub open spec fn with_removal_phase(r: ResourceView) -> ResourceView {
    ResourceView { phase: removal_phase(r), ..r }
}

/// Marks `key` and everything reached from it through children for removal
/// (see [`mark_removed_spec`]), and returns the keys to delete at once
/// (see [`removal_queue`]), each once.
pub fn mark_removed(key: &Key, resources: &mut Resources) -> (queued: Vec<Key>)
    requires
        old(resources).wf(),
    ensures
        final(resources).wf(),
        final(resources).map_view() == mark_removed_spec(old(resources).map_view(), key@),
        key_set(queued@) == removal_queue(old(resources).map_view(), key@),
        distinct_keys(queued@),
{
    let ghost m0 = resources.map_view();
    let ghost from = key@;
    proof {
        resources.lemma_dom_len();
    }
    let mut visited: Vec<Key> = Vec::new();
    let mut work: Vec<Key> = Vec::new();
    work.push(key.copy());
    assert(key_set(work@).contains(from)) by {
        assert(work@[0]@ == from);
    }
    let mut queued: Vec<Key> = Vec::new();
    while work.len() > 0
        invariant
            resources.wf(),
            m0.dom().finite(),
            resources.map_view().dom() == m0.dom(),
            forall|k: KeyView|
                #[trigger] m0.dom().contains(k) ==> resources.map_view()[k] == (if key_set(
                    visited@,
                ).contains(k) {
                    with_removal_phase(m0[k])
                } else {
                    m0[k]
                }),
            distinct_keys(visited@),
            key_set(visited@).subset_of(m0.dom()),
            forall|v: KeyView| #[trigger] key_set(visited@).contains(v) ==> reachable(m0, from, v),
            forall|w: KeyView|
                #[trigger] key_set(work@).contains(w) ==> w == from || exists|v: KeyView|
                    key_set(visited@).contains(v) && #[trigger] child_keys(m0[v]).contains(w),
            forall|v: KeyView, c: KeyView|
                key_set(visited@).contains(v) && #[trigger] child_keys(m0[v]).contains(c)
                    && m0.dom().contains(c) ==> key_set(visited@).contains(c) || key_set(
                    work@,
                ).contains(c),
            m0.dom().contains(from) ==> key_set(visited@).contains(from) || key_set(work@).contains(
                from,
            ),
            distinct_keys(queued@),
            key_set(queued@) == key_set(visited@).filter(
                |v: KeyView| removal_phase(m0[v]) == Phase::Deleting,
            ),
        decreases m0.dom().len() - visited@.len(), work@.len(),
    {
        proof {
            lemma_distinct_keys_len(visited@, m0.dom());
        }
        let ghost work_before = work@;
        let ghost visited_before = visited@;
        let k = match work.pop() {
            Some(k) => k,
            None => {
                assert(false);
                return queued;
            },
        };
        proof {
            assert(work_before =~= work@.push(k));
            assert(key_set(work_before).contains(k@)) by {
                assert(work_before[work@.len() as int] == k);
            }
            assert forall|w: KeyView| #[trigger] key_set(work@).contains(w) implies key_set(
                work_before,
            ).contains(w) by {
                let j = choose|j: int| 0 <= j < work@.len() && work@[j]@ == w;
                assert(work_before[j] == work@[j]);
            }
            assert forall|w: KeyView| #[trigger] key_set(work_before).contains(w) implies key_set(
                work@,
            ).contains(w) || w == k@ by {
                let j = choose|j: int| 0 <= j < work_before.len() && work_before[j]@ == w;
                if j < work@.len() {
                    assert(work@[j] == work_before[j]);
                }
            }
        }
        if position_of_key(&visited, &k).is_some() {
            continue;
        }
        let i = match resources.find(&k) {
            Some(i) => i,
            None => {
                continue;
            },
        };
        let ghost mk = m0[k@];
        let ghost queued_before = queued@;
        let mut r = resources.swap_value_at(i, TerminalResource::placeholder());
        assert(r@ == mk);
        let no_inbound_deps = r.dependents.is_empty();
        let no_children = r.children.is_empty();
        if no_children && no_inbound_deps {
            r.phase = Phase::Deleting;
            let ghost qb = queued@;
            queued.push(k.copy());
            proof {
                assert forall|a: int, b: int|
                    0 <= a < queued@.len() && 0 <= b < queued@.len() && a != b implies queued@[a]@
                    != queued@[b]@ by {
                    if a < qb.len() && b < qb.len() {
                        assert(queued@[a] == qb[a] && queued@[b] == qb[b]);
                    } else if a < qb.len() {
                        assert(queued@[a] == qb[a]);
                        assert(key_set(qb).contains(qb[a]@));
                    } else {
                        assert(queued@[b] == qb[b]);
                        assert(key_set(qb).contains(qb[b]@));
                    }
                }
            }
        } else {
            r.phase = Phase::PendingDeletion;
        }
        assert(r@ == with_removal_phase(mk));
        let ghost work_mid = work@;
        let n = r.children.size();
        let mut j: usize = 0;
        while j < n
            invariant
                n == r.children.items_view().len(),
                j <= n,
                work@.len() == work_mid.len() + j,
                forall|a: int| 0 <= a < work_mid.len() ==> #[trigger] work@[a] == work_mid[a],
                forall|a: int|
                    0 <= a < j ==> #[trigger] work@[work_mid.len() + a]@ == r.children.items_view()[a]@.key(),
            decreases n - j,
        {
            let c = r.children.at(j).key().copy();
            work.push(c);
            j = j + 1;
        }
        resources.set_value_at(i, r);
        visited.push(k);
        proof {
            let kv = visited@.last()@;
            assert(kv == k@);
            assert(m0.dom().contains(kv));
            // children of k are now in the work list
            assert forall|c: KeyView| #[trigger] child_keys(mk).contains(c) implies key_set(work@).contains(c) by {
                let cl = choose|cl: IdClass| #[trigger] mk.children.contains(cl) && cl.key == c;
                r.children.lemma_items_cover(cl);
                let a = choose|a: int|
                    0 <= a < r.children.items_view().len() && r.children.items_view()[a]@.class() == cl;
                assert(work@[work_mid.len() + a]@ == c);
            }
            // the visited keys
            assert forall|v: KeyView| #[trigger] key_set(visited@).contains(v) == (key_set(
                visited_before,
            ).contains(v) || v == kv) by {
                if key_set(visited@).contains(v) {
                    let a = choose|a: int| 0 <= a < visited@.len() && visited@[a]@ == v;
                    if a < visited_before.len() {
                        assert(visited@[a] == visited_before[a]);
                    }
                }
                if key_set(visited_before).contains(v) {
                    let a = choose|a: int| 0 <= a < visited_before.len() && visited_before[a]@ == v;
                    assert(visited@[a] == visited_before[a]);
                }
                if v == kv {
                    assert(visited@[visited_before.len() as int]@ == v);
                }
            }
            assert forall|a: int, b: int|
                0 <= a < visited@.len() && 0 <= b < visited@.len() && a != b implies visited@[a]@
                != visited@[b]@ by {
                if a < visited_before.len() && b < visited_before.len() {
                    assert(visited@[a] == visited_before[a] && visited@[b] == visited_before[b]);
                } else if a < visited_before.len() {
                    assert(visited@[a] == visited_before[a]);
                    assert(key_set(visited_before).contains(visited_before[a]@));
                } else {
                    assert(visited@[b] == visited_before[b]);
                    assert(key_set(visited_before).contains(visited_before[b]@));
                }
            }
            // k is reachable
            assert(reachable(m0, from, kv)) by {
                if kv == from {
                    lemma_reach_self(m0, from);
                } else {
                    let v = choose|v: KeyView|
                        key_set(visited_before).contains(v) && #[trigger] child_keys(m0[v]).contains(kv);
                    lemma_reach_child(m0, from, v, kv);
                }
            }
            // work items are accounted for
            assert forall|w: KeyView| #[trigger] key_set(work@).contains(w) implies w == from
                || exists|v: KeyView|
                key_set(visited@).contains(v) && #[trigger] child_keys(m0[v]).contains(w) by {
                let a = choose|a: int| 0 <= a < work@.len() && work@[a]@ == w;
                if a < work_mid.len() {
                    assert(work@[a] == work_mid[a]);
                    assert(key_set(work_before).contains(w));
                    if w != from {
                        let v = choose|v: KeyView|
                            key_set(visited_before).contains(v) && #[trigger] child_keys(m0[v]).contains(w);
                        assert(key_set(visited@).contains(v));
                    }
                } else {
                    let b = a - work_mid.len();
                    let cl = r.children.items_view()[b]@.class();
                    r.children.lemma_item_in(b);
                    assert(r.children@.contains(cl));
                    assert(mk.children.contains(cl));
                    assert(work@[work_mid.len() + b]@ == r.children.items_view()[b]@.key());
                    assert(cl.key == w);
                    assert(child_keys(m0[kv]).contains(w));
                }
            }
            // closure
            assert forall|v: KeyView, c: KeyView|
                key_set(visited@).contains(v) && #[trigger] child_keys(m0[v]).contains(c)
                    && m0.dom().contains(c) implies key_set(visited@).contains(c) || key_set(
                work@,
            ).contains(c) by {
                if v != kv {
                    assert(key_set(visited_before).contains(v));
                    if !key_set(visited_before).contains(c) {
                        assert(key_set(work_before).contains(c));
                        if c != k@ {
                            let a = choose|a: int| 0 <= a < work_before.len() && work_before[a]@ == c;
                            if a < work_mid.len() {
                                assert(work@[a] == work_before[a]);
                            }
                        }
                    }
                }
            }
            assert(key_set(queued@) =~= key_set(visited@).filter(
                |v: KeyView| removal_phase(m0[v]) == Phase::Deleting,
            )) by {
                assert forall|v: KeyView| #[trigger] key_set(queued@).contains(v) == key_set(visited@).filter(
                    |v: KeyView| removal_phase(m0[v]) == Phase::Deleting,
                ).contains(v) by {
                    if no_children && no_inbound_deps {
                        assert(removal_phase(mk) == Phase::Deleting);
                        let qb = queued_before;
                        assert(qb =~= queued@.drop_last());
                        if key_set(queued@).contains(v) {
                            let a = choose|a: int| 0 <= a < queued@.len() && queued@[a]@ == v;
                            if a < qb.len() {
                                assert(queued@[a] == qb[a]);
                                assert(key_set(qb).contains(v));
                            }
                        }
                        if key_set(qb).contains(v) {
                            let a = choose|a: int| 0 <= a < qb.len() && qb[a]@ == v;
                            assert(queued@[a] == qb[a]);
                        }
                        if v == kv {
                            assert(queued@[qb.len() as int]@ == v);
                        }
                    } else {
                        assert(removal_phase(mk) == Phase::PendingDeletion);
                        assert(queued@ == queued_before);
                        if v == kv {
                            assert(!key_set(visited_before).contains(kv));
                        }
                    }
                }
            }
            assert forall|x: KeyView| #[trigger] m0.dom().contains(x) implies resources.map_view()[x]
                == (if key_set(visited@).contains(x) {
                with_removal_phase(m0[x])
            } else {
                m0[x]
            }) by {}
            if m0.dom().contains(from) && !key_set(visited@).contains(from) {
                assert(key_set(work_before).contains(from));
                assert(from != k@);
                let a = choose|a: int| 0 <= a < work_before.len() && work_before[a]@ == from;
                assert(a < work_mid.len());
                assert(work@[a] == work_before[a]);
            }
            lemma_distinct_keys_len(visited@, m0.dom());
        }
    }
    proof {
        assert(key_set(work@) =~= Set::<KeyView>::empty());
        assert forall|x: KeyView| #[trigger] reachable(m0, from, x) implies key_set(visited@).contains(x) by {
            lemma_closed_holds_reachable(m0, from, key_set(visited@), x);
        }
        assert forall|x: KeyView| reachable(m0, from, x) implies m0.dom().contains(x) by {
            let p = choose|p: Seq<KeyView>| #[trigger] is_child_path(m0, p) && p[0] == from && p.last() == x;
            assert(m0.dom().contains(p[p.len() - 1]));
        }
        assert(resources.map_view() =~= mark_removed_spec(m0, from));
        assert(key_set(queued@) =~= removal_queue(m0, from));
    }
    queued
}

/// A dependency is met when it is a shared resource that does not exist (yet),
/// or a resource that is done or ready.
pub open spec fn dependency_met(m: Map<KeyView, ResourceView>, c: IdClass) -> bool {
    ||| (c.shared && !m.dom().contains(c.key))
    ||| (m.dom().contains(c.key) && (m[c.key].status is Done || m[c.key].status is Ready))
}

/// Every dependency in `deps` is met.
pub open spec fn dependencies_met(m: Map<KeyView, ResourceView>, deps: Set<IdClass>) -> bool {
    forall|c: IdClass| #[trigger] deps.contains(c) ==> dependency_met(m, c)
}

/// A validated resource: what was asked for and what validation derived.
pub struct ValidatedView {
    pub sub: SubResourceView,
    pub derived_spec: Seq<char>,
    pub dependencies: Set<IdClass>,
}

pub open spec fn validated_view(p: (SubResourceCreate, ValidateResponse)) -> ValidatedView {
    ValidatedView { sub: p.0@, derived_spec: p.1.derived_spec@, dependencies: p.1.dependencies@ }
}

pub open spec fn validated_views(s: Seq<(SubResourceCreate, ValidateResponse)>) -> Seq<ValidatedView> {
    s.map_values(|p: (SubResourceCreate, ValidateResponse)| validated_view(p))
}

/// The keys of the validated resources whose dependencies are all met.
pub open spec fn available_keys(m: Map<KeyView, ResourceView>, s: Seq<ValidatedView>) -> Set<KeyView> {
    Set::new(
        |k: KeyView|
            exists|i: int|
                0 <= i < s.len() && #[trigger] s[i].sub.id.key() == k && dependencies_met(
                    m,
                    s[i].dependencies,
                ),
    )
}

/// Whether all the dependencies in `deps` are met.
pub fn dependencies_are_met(resources: &Resources, deps: &IdSet) -> (r: bool)
    requires
        resources.wf(),
    ensures
        r == dependencies_met(resources.map_view(), deps@),
{
    let n = deps.size();
    let mut i: usize = 0;
    while i < n
        invariant
            resources.wf(),
            n == deps.items_view().len(),
            i <= n,
            forall|j: int|
                0 <= j < i ==> dependency_met(
                    resources.map_view(),
                    #[trigger] deps.items_view()[j]@.class(),
                ),
        decreases n - i,
    {
        let d = deps.at(i);
        let met = match resources.get(d.key()) {
            None => d.is_shared(),
            Some(r) => r.status.is_available(),
        };
        if !met {
            proof {
                deps.lemma_item_in(i as int);
            }
            return false;
        }
        i = i + 1;
    }
    proof {
        assert forall|c: IdClass| #[trigger] deps@.contains(c) implies dependency_met(
            resources.map_view(),
            c,
        ) by {
            deps.lemma_items_cover(c);
        }
    }
    true
}

/// Adds to `acc` the keys of the candidates whose dependencies are all met.
pub fn collect_available(
    resources: &Resources,
    cands: &Vec<(SubResourceCreate, ValidateResponse)>,
    acc: &mut Vec<Key>,
)
    requires
        resources.wf(),
        distinct_keys(old(acc)@),
    ensures
        distinct_keys(final(acc)@),
        key_set(final(acc)@) == key_set(old(acc)@).union(
            available_keys(resources.map_view(), validated_views(cands@)),
        ),
{
    let ghost s = validated_views(cands@);
    let ghost m = resources.map_view();
    let mut i: usize = 0;
    while i < cands.len()
        invariant
            resources.wf(),
            m == resources.map_view(),
            s == validated_views(cands@),
            i <= cands@.len(),
            distinct_keys(acc@),
            key_set(acc@) == key_set(old(acc)@).union(available_keys(m, s.subrange(0, i as int))),
        decreases cands@.len() - i,
    {
        let ghost before = key_set(acc@);
        if dependencies_are_met(resources, &cands[i].1.dependencies) {
            add_key(acc, cands[i].0.id.key().copy());
        }
        proof {
            let p = s.subrange(0, i + 1);
            let q = s.subrange(0, i as int);
            assert(s[i as int] == validated_view(cands@[i as int]));
            assert forall|k: KeyView| #[trigger] available_keys(m, p).contains(k) == (available_keys(
                m,
                q,
            ).contains(k) || (k == s[i as int].sub.id.key() && dependencies_met(
                m,
                s[i as int].dependencies,
            ))) by {
                if available_keys(m, p).contains(k) {
                    let j = choose|j: int|
                        0 <= j < p.len() && #[trigger] p[j].sub.id.key() == k && dependencies_met(
                            m,
                            p[j].dependencies,
                        );
                    if j < i {
                        assert(q[j] == p[j]);
                    }
                }
                if available_keys(m, q).contains(k) {
                    let j = choose|j: int|
                        0 <= j < q.len() && #[trigger] q[j].sub.id.key() == k && dependencies_met(
                            m,
                            q[j].dependencies,
                        );
                    assert(p[j] == q[j]);
                }
                if k == s[i as int].sub.id.key() && dependencies_met(m, s[i as int].dependencies) {
                    assert(p[i as int] == s[i as int]);
                }
            }
            assert(key_set(acc@) =~= key_set(old(acc)@).union(available_keys(m, p)));
        }
        i = i + 1;
    }
    assert(s.subrange(0, cands@.len() as int) =~= s);
}

/// A copy of a list of keys.
pub fn copy_keys(v: &Vec<Key>) -> (r: Vec<Key>)
    ensures
        r@.len() == v@.len(),
        forall|i: int| 0 <= i < v@.len() ==> #[trigger] r@[i]@ == v@[i]@,
        key_set(r@) == key_set(v@),
        distinct_keys(v@) ==> distinct_keys(r@),
{
    let mut r: Vec<Key> = Vec::new();
    let mut i: usize = 0;
    while i < v.len()
        invariant
            i <= v@.len(),
            r@.len() == i,
            forall|j: int| 0 <= j < i ==> #[trigger] r@[j]@ == v@[j]@,
        decreases v@.len() - i,
    {
        r.push(v[i].copy());
        i = i + 1;
    }
    proof {
        assert forall|k: KeyView| #[trigger] key_set(r@).contains(k) == key_set(v@).contains(k) by {
            if key_set(r@).contains(k) {
                let j = choose|j: int| 0 <= j < r@.len() && r@[j]@ == k;
                assert(v@[j]@ == k);
            }
            if key_set(v@).contains(k) {
                let j = choose|j: int| 0 <= j < v@.len() && v@[j]@ == k;
                assert(r@[j]@ == k);
            }
        }
        assert(key_set(r@) =~= key_set(v@));
    }
    r
}

pub open spec fn key_views(v: Seq<Key>) -> Seq<KeyView> {
    v.map_values(|k: Key| k@)
}

/// Schedules, now when `do_schedule` holds, the candidates whose
/// dependencies are all met; returns their keys, each once.
pub fn schedule_available(
    cands: &Vec<(SubResourceCreate, ValidateResponse)>,
    queue: &mut Queue,
    resources: &Resources,
    do_schedule: bool,
    now: u64,
) -> (r: Vec<Key>)
    requires
        resources.wf(),
        old(queue).wf(),
    ensures
        final(queue).wf(),
        distinct_keys(r@),
        key_set(r@) == available_keys(resources.map_view(), validated_views(cands@)),
        final(queue).view() == (if do_schedule {
            schedule_all_spec(old(queue).view(), key_views(r@), now)
        } else {
            old(queue).view()
        }),
{
    let mut acc: Vec<Key> = Vec::new();
    assert(key_set(acc@) =~= Set::<KeyView>::empty());
    collect_available(resources, cands, &mut acc);
    assert(key_set(acc@) =~= available_keys(resources.map_view(), validated_views(cands@)));
    if do_schedule {
        let c = copy_keys(&acc);
        queue.schedule_at_bulk(c, now);
        assert(key_views(c@) =~= key_views(acc@));
    }
    acc
}

/// The requested resources, by the key of their identity (a later request
/// for a key replaces an earlier one).
pub open spec fn requests_map(s: Seq<SubResourceView>) -> Map<KeyView, SubResourceView>
    decreases s.len(),
{
    if s.len() == 0 {
        Map::empty()
    } else {
        requests_map(s.drop_last()).insert(s.last().id.key(), s.last())
    }
}

pub open spec fn sub_views(s: Seq<SubResourceCreate>) -> Seq<SubResourceView> {
    s.map_values(|x: SubResourceCreate| x@)
}

/// Files requested resources by the key of their identity.
pub fn requests_by_key(list: Vec<SubResourceCreate>) -> (r: KeyMap<SubResourceCreate>)
    ensures
        r.wf(),
        r.map_view() == requests_map(sub_views(list@)),
{
    let mut r: KeyMap<SubResourceCreate> = KeyMap::new();
    let n = list.len();
    let mut rest = list;
    let ghost all = rest@;
    let mut i: usize = 0;
    while i < n
        invariant
            r.wf(),
            n == all.len(),
            i <= n,
            rest@ == all.subrange(i as int, n as int),
            r.map_view() == requests_map(sub_views(all.subrange(0, i as int))),
        decreases n - i,
    {
        let x = rest.remove(0);
        proof {
            assert(x == all[i as int]);
            assert(sub_views(all.subrange(0, i + 1)).drop_last() =~= sub_views(all.subrange(0, i as int)));
            assert(rest@ =~= all.subrange(i + 1, n as int));
        }
        let k = x.id.key().copy();
        r.insert(k, x);
        i = i + 1;
    }
    assert(all.subrange(0, n as int) =~= all);
    r
}

/// The keys, among those stored, that the previous configuration held.
pub open spec fn previous_keys(m: Map<KeyView, ResourceView>, old_keys: Set<KeyView>) -> Set<KeyView> {
    m.dom().intersect(old_keys)
}

/// How a configuration update changes the stored resources: which keys are
/// new, which are gone and which have a changed specification.
pub struct UpsertPlan {
    pub added: Vec<Key>,
    pub removed: Vec<Key>,
    pub modified: Vec<Key>,
}

/// Compares the update `updated` with the stored resources whose keys the
/// previous configuration held (`old_keys`).
pub fn plan_upsert(resources: &Resources, old_keys: &Vec<Key>, updated: &KeyMap<SubResourceCreate>) -> (r:
    UpsertPlan)
    requires
        resources.wf(),
        updated.wf(),
    ensures
        distinct_keys(r.added@),
        distinct_keys(r.removed@),
        distinct_keys(r.modified@),
        key_set(r.added@) == updated.map_view().dom().difference(
            previous_keys(resources.map_view(), key_set(old_keys@)),
        ),
        key_set(r.removed@) == previous_keys(resources.map_view(), key_set(old_keys@)).difference(
            updated.map_view().dom(),
        ),
        key_set(r.modified@) == Set::new(
            |k: KeyView|
                previous_keys(resources.map_view(), key_set(old_keys@)).contains(k)
                    && updated.map_view().dom().contains(k) && updated.map_view()[k].spec
                    != resources.map_view()[k].spec,
        ),
{
    let ghost m = resources.map_view();
    let ghost u = updated.map_view();
    let ghost prev = previous_keys(m, key_set(old_keys@));
    let mut added: Vec<Key> = Vec::new();
    let mut modified: Vec<Key> = Vec::new();
    let ghost modified_spec = Set::new(
        |k: KeyView| prev.contains(k) && u.dom().contains(k) && u[k].spec != m[k].spec,
    );
    proof {
        assert(key_set(added@) =~= Set::<KeyView>::empty());
        assert(key_set(modified@) =~= Set::<KeyView>::empty());
    }
    let n = updated.size();
    let mut i: usize = 0;
    while i < n
        invariant
            resources.wf(),
            updated.wf(),
            m == resources.map_view(),
            u == updated.map_view(),
            prev == previous_keys(m, key_set(old_keys@)),
            n == updated.entries_view().len(),
            i <= n,
            modified_spec == Set::new(
                |k: KeyView| prev.contains(k) && u.dom().contains(k) && u[k].spec != m[k].spec,
            ),
            distinct_keys(added@),
            distinct_keys(modified@),
            forall|k: KeyView|
                #[trigger] key_set(added@).contains(k) == (exists|j: int|
                    0 <= j < i && updated.entries_view()[j].0@ == k && !prev.contains(k)),
            forall|k: KeyView|
                #[trigger] key_set(modified@).contains(k) == (exists|j: int|
                    0 <= j < i && updated.entries_view()[j].0@ == k && modified_spec.contains(k)),
        decreases n - i,
    {
        let k = updated.key_at(i);
        let v = updated.value_at(i);
        let in_old = position_of_key(old_keys, k).is_some();
        let ghost ab = key_set(added@);
        let ghost mb = key_set(modified@);
        let ghost kv = k@;
        proof {
            updated.lemma_position_key(i as int);
        }
        let (is_prev, differs) = match resources.get(k) {
            Some(r) => (in_old, r.spec != v.spec),
            None => (false, false),
        };
        assert(is_prev == prev.contains(kv));
        assert(is_prev ==> (differs == (u[kv].spec != m[kv].spec)));
        assert(modified_spec.contains(kv) == (is_prev && differs));
        if is_prev {
            if differs {
                add_key(&mut modified, k.copy());
            }
        } else {
            add_key(&mut added, k.copy());
        }
        proof {
            assert forall|x: KeyView| #[trigger] key_set(added@).contains(x) == (exists|j: int|
                0 <= j < i + 1 && updated.entries_view()[j].0@ == x && !prev.contains(x)) by {
                if exists|j: int| 0 <= j < i + 1 && updated.entries_view()[j].0@ == x && !prev.contains(x) {
                    let j = choose|j: int| 0 <= j < i + 1 && updated.entries_view()[j].0@ == x && !prev.contains(x);
                    if j < i {
                        assert(ab.contains(x));
                    }
                }
            }
            assert(prev.contains(kv) == (m.dom().contains(kv) && key_set(old_keys@).contains(kv)));
            if modified_spec.contains(kv) {
                assert(key_set(modified@).contains(kv));
            } else {
                assert(key_set(modified@) == mb);
            }
            assert forall|x: KeyView| #[trigger] key_set(modified@).contains(x) == (exists|j: int|
                0 <= j < i + 1 && updated.entries_view()[j].0@ == x && modified_spec.contains(x)) by {
                if x == kv && modified_spec.contains(x) {
                    assert(updated.entries_view()[i as int].0@ == x);
                }
                if exists|j: int| 0 <= j < i + 1 && updated.entries_view()[j].0@ == x && modified_spec.contains(x) {
                    let j = choose|j: int| 0 <= j < i + 1 && updated.entries_view()[j].0@ == x && modified_spec.contains(x);
                    if j < i {
                        assert(mb.contains(x));
                    }
                }
            }
        }
        i = i + 1;
    }
    let mut removed: Vec<Key> = Vec::new();
    proof {
        assert(key_set(removed@) =~= Set::<KeyView>::empty());
    }
    let mut j: usize = 0;
    while j < old_keys.len()
        invariant
            resources.wf(),
            updated.wf(),
            m == resources.map_view(),
            u == updated.map_view(),
            prev == previous_keys(m, key_set(old_keys@)),
            j <= old_keys@.len(),
            distinct_keys(removed@),
            key_set(removed@) == key_set(old_keys@.subrange(0, j as int)).intersect(m.dom()).difference(
                u.dom(),
            ),
        decreases old_keys@.len() - j,
    {
        let ghost rb = key_set(removed@);
        let k = &old_keys[j];
        if resources.contains_key(k) && !updated.contains_key(k) {
            add_key(&mut removed, k.copy());
        }
        proof {
            let p = old_keys@.subrange(0, j + 1);
            let q = old_keys@.subrange(0, j as int);
            assert forall|x: KeyView| #[trigger] key_set(p).contains(x) == (key_set(q).contains(x) || x
                == old_keys@[j as int]@) by {
                if key_set(p).contains(x) {
                    let a = choose|a: int| 0 <= a < p.len() && p[a]@ == x;
                    if a < j {
                        assert(q[a] == p[a]);
                    }
                }
                if key_set(q).contains(x) {
                    let a = choose|a: int| 0 <= a < q.len() && q[a]@ == x;
                    assert(p[a] == q[a]);
                }
                if x == old_keys@[j as int]@ {
                    assert(p[j as int] == old_keys@[j as int]);
                }
            }
            assert(key_set(removed@) =~= key_set(p).intersect(m.dom()).difference(u.dom()));
        }
        j = j + 1;
    }
    proof {
        assert(old_keys@.subrange(0, old_keys@.len() as int) =~= old_keys@);
        assert(key_set(removed@) =~= prev.difference(u.dom()));
        assert forall|x: KeyView| #[trigger] key_set(added@).contains(x) == u.dom().difference(prev).contains(x) by {
            if u.dom().contains(x) && !prev.contains(x) {
                updated.lemma_key_has_position(x);
            }
            if key_set(added@).contains(x) {
                let j = choose|j: int| 0 <= j < n && updated.entries_view()[j].0@ == x && !prev.contains(x);
                updated.lemma_position_key(j);
            }
        }
        assert(key_set(added@) =~= u.dom().difference(prev));
        assert forall|x: KeyView| #[trigger] key_set(modified@).contains(x) == modified_spec.contains(x) by {
            if modified_spec.contains(x) {
                updated.lemma_key_has_position(x);
            }
        }
        assert(key_set(modified@) =~= modified_spec);
    }
    UpsertPlan { added, removed, modified }
}

/// A resource as it is first stored after validation: running, of unknown
/// status, with no state, children or dependents yet.
pub open spec fn new_resource_view(v: ValidatedView) -> ResourceView {
    ResourceView {
        id: v.sub.id,
        phase: Phase::Running,
        status: StatusView::Unknown,
        spec: v.sub.spec,
        derived_spec: v.derived_spec,
        state: None,
        children: Set::empty(),
        dependencies: v.dependencies,
        dependents: Set::empty(),
    }
}

/// A stored resource after a validated change of its specification: its
/// status becomes unknown and it takes the new specification, derived
/// specification and dependencies.
pub open spec fn updated_view(r: ResourceView, v: ValidatedView) -> ResourceView {
    ResourceView {
        status: StatusView::Unknown,
        spec: v.sub.spec,
        derived_spec: v.derived_spec,
        dependencies: v.dependencies,
        ..r
    }
}

/// The resources after each validated resource is stored as new.
pub open spec fn insert_all_spec(m: Map<KeyView, ResourceView>, s: Seq<ValidatedView>) -> Map<
    KeyView,
    ResourceView,
>
    decreases s.len(),
{
    if s.len() == 0 {
        m
    } else {
        insert_all_spec(m, s.drop_last()).insert(s.last().sub.id.key(), new_resource_view(s.last()))
    }
}

/// The resources after each validated change is applied to the resource it
/// names, when that resource is stored.
pub open spec fn modify_all_spec(m: Map<KeyView, ResourceView>, s: Seq<ValidatedView>) -> Map<
    KeyView,
    ResourceView,
>
    decreases s.len(),
{
    if s.len() == 0 {
        m
    } else {
        let m1 = modify_all_spec(m, s.drop_last());
        let k = s.last().sub.id.key();
        if m1.dom().contains(k) {
            m1.insert(k, updated_view(m1[k], s.last()))
        } else {
            m1
        }
    }
}

/// The resources after each key, in turn, is marked for removal.
pub open spec fn mark_all_spec(m: Map<KeyView, ResourceView>, ks: Seq<KeyView>) -> Map<
    KeyView,
    ResourceView,
>
    decreases ks.len(),
{
    if ks.len() == 0 {
        m
    } else {
        mark_removed_spec(mark_all_spec(m, ks.drop_last()), ks.last())
    }
}

/// What those removals send to deletion at once.
pub open spec fn mark_all_queue(m: Map<KeyView, ResourceView>, ks: Seq<KeyView>) -> Set<KeyView>
    decreases ks.len(),
{
    if ks.len() == 0 {
        Set::empty()
    } else {
        mark_all_queue(m, ks.drop_last()).union(
            removal_queue(mark_all_spec(m, ks.drop_last()), ks.last()),
        )
    }
}

/// A copy of a list of validated resources.
pub fn copy_validated(v: &Vec<(SubResourceCreate, ValidateResponse)>) -> (r: Vec<
    (SubResourceCreate, ValidateResponse),
>)
    ensures
        validated_views(r@) == validated_views(v@),
{
    let mut r: Vec<(SubResourceCreate, ValidateResponse)> = Vec::new();
    let mut i: usize = 0;
    while i < v.len()
        invariant
            i <= v@.len(),
            r@.len() == i,
            forall|j: int| 0 <= j < i ==> #[trigger] validated_view(r@[j]) == validated_view(v@[j]),
        decreases v@.len() - i,
    {
        r.push((v[i].0.copy(), v[i].1.copy()));
        i = i + 1;
    }
    assert(validated_views(r@) =~= validated_views(v@));
    r
}

/// What applying a configuration update scheduled: the resources sent to
/// deletion and the resources whose dependencies are met.
pub struct UpsertOutcome {
    pub removal: Vec<Key>,
    pub available: Vec<Key>,
}

/// Applies a validated configuration update: the removed keys are marked
/// for removal, the added resources stored, the modified ones changed; what
/// is sent to deletion is scheduled now, and, when `do_schedule` holds, so
/// are the added and modified resources whose dependencies are met.
pub fn finish_upsert(
    resources: &mut Resources,
    queue: &mut Queue,
    removed: &Vec<Key>,
    added: Vec<(SubResourceCreate, ValidateResponse)>,
    modified: Vec<(SubResourceCreate, ValidateResponse)>,
    do_schedule: bool,
    now: u64,
) -> (r: UpsertOutcome)
    requires
        old(resources).wf(),
        old(queue).wf(),
    ensures
        final(resources).wf(),
        final(queue).wf(),
        final(resources).map_view() == modify_all_spec(
            insert_all_spec(
                mark_all_spec(old(resources).map_view(), key_views(removed@)),
                validated_views(added@),
            ),
            validated_views(modified@),
        ),
        distinct_keys(r.removal@),
        key_set(r.removal@) == mark_all_queue(old(resources).map_view(), key_views(removed@)),
        distinct_keys(r.available@),
        key_set(r.available@) == available_keys(final(resources).map_view(), validated_views(added@)).union(
            available_keys(final(resources).map_view(), validated_views(modified@)),
        ),
        final(queue).view() == schedule_all_spec(
            schedule_all_spec(old(queue).view(), key_views(r.removal@), now),
            if do_schedule {
                key_views(r.available@)
            } else {
                Seq::empty()
            },
            now,
        ),
{
    let ghost m0 = resources.map_view();
    let ghost ks = key_views(removed@);
    let mut removal: Vec<Key> = Vec::new();
    proof {
        assert(key_set(removal@) =~= Set::<KeyView>::empty());
    }
    let mut i: usize = 0;
    while i < removed.len()
        invariant
            resources.wf(),
            ks == key_views(removed@),
            i <= removed@.len(),
            resources.map_view() == mark_all_spec(m0, ks.subrange(0, i as int)),
            distinct_keys(removal@),
            key_set(removal@) == mark_all_queue(m0, ks.subrange(0, i as int)),
        decreases removed@.len() - i,
    {
        let q = mark_removed(&removed[i], resources);
        let mut j: usize = 0;
        let ghost rb = key_set(removal@);
        while j < q.len()
            invariant
                j <= q@.len(),
                distinct_keys(removal@),
                key_set(removal@) == rb.union(key_set(q@.subrange(0, j as int))),
            decreases q@.len() - j,
        {
            add_key(&mut removal, q[j].copy());
            proof {
                let p = q@.subrange(0, j + 1);
                let pq = q@.subrange(0, j as int);
                assert forall|x: KeyView| #[trigger] key_set(p).contains(x) == (key_set(pq).contains(x)
                    || x == q@[j as int]@) by {
                    if key_set(p).contains(x) {
                        let a = choose|a: int| 0 <= a < p.len() && p[a]@ == x;
                        if a < j {
                            assert(pq[a] == p[a]);
                        }
                    }
                    if key_set(pq).contains(x) {
                        let a = choose|a: int| 0 <= a < pq.len() && pq[a]@ == x;
                        assert(p[a] == pq[a]);
                    }
                    if x == q@[j as int]@ {
                        assert(p[j as int] == q@[j as int]);
                    }
                }
                assert(key_set(removal@) =~= rb.union(key_set(p)));
            }
            j = j + 1;
        }
        proof {
            assert(q@.subrange(0, q@.len() as int) =~= q@);
            assert(ks.subrange(0, i + 1).drop_last() =~= ks.subrange(0, i as int));
            assert(ks.subrange(0, i + 1).last() == removed@[i as int]@);
            assert(key_set(removal@) =~= mark_all_queue(m0, ks.subrange(0, i + 1)));
        }
        i = i + 1;
    }
    assert(ks.subrange(0, removed@.len() as int) =~= ks);
    let ghost m1 = resources.map_view();
    let cands_added = copy_validated(&added);
    let cands_modified = copy_validated(&modified);
    let ghost va = validated_views(added@);
    let ghost vm = validated_views(modified@);
    let na = added.len();
    let mut rest = added;
    let ghost all_a = rest@;
    let mut a: usize = 0;
    while a < na
        invariant
            resources.wf(),
            na == all_a.len(),
            va == validated_views(all_a),
            a <= na,
            rest@ == all_a.subrange(a as int, na as int),
            resources.map_view() == insert_all_spec(m1, va.subrange(0, a as int)),
        decreases na - a,
    {
        let (sub, resp) = rest.remove(0);
        proof {
            assert((sub, resp) == all_a[a as int]);
            assert(va.subrange(0, a + 1).drop_last() =~= va.subrange(0, a as int));
            assert(va.subrange(0, a + 1).last() == validated_view(all_a[a as int]));
            assert(rest@ =~= all_a.subrange(a + 1, na as int));
        }
        let k = sub.id.key().copy();
        let res = TerminalResource {
            id: sub.id,
            phase: Phase::Running,
            status: Status::Unknown,
            spec: sub.spec,
            derived_spec: resp.derived_spec,
            state: None,
            children: IdSet::new(),
            dependencies: resp.dependencies,
            dependents: IdSet::new(),
        };
        resources.insert(k, res);
        a = a + 1;
    }
    assert(va.subrange(0, na as int) =~= va);
    let ghost m2 = resources.map_view();
    let nm = modified.len();
    let mut rest_m = modified;
    let ghost all_m = rest_m@;
    let mut b: usize = 0;
    while b < nm
        invariant
            resources.wf(),
            nm == all_m.len(),
            vm == validated_views(all_m),
            b <= nm,
            rest_m@ == all_m.subrange(b as int, nm as int),
            resources.map_view() == modify_all_spec(m2, vm.subrange(0, b as int)),
        decreases nm - b,
    {
        let (sub, resp) = rest_m.remove(0);
        proof {
            assert((sub, resp) == all_m[b as int]);
            assert(vm.subrange(0, b + 1).drop_last() =~= vm.subrange(0, b as int));
            assert(vm.subrange(0, b + 1).last() == validated_view(all_m[b as int]));
            assert(rest_m@ =~= all_m.subrange(b + 1, nm as int));
        }
        match resources.find(sub.id.key()) {
            Some(p) => {
                let mut r = resources.swap_value_at(p, TerminalResource::placeholder());
                r.status = Status::Unknown;
                r.spec = sub.spec;
                r.derived_spec = resp.derived_spec;
                r.dependencies = resp.dependencies;
                resources.set_value_at(p, r);
            },
            None => {},
        }
        b = b + 1;
    }
    assert(vm.subrange(0, nm as int) =~= vm);
    let removal_copy = copy_keys(&removal);
    queue.schedule_at_bulk(removal_copy, now);
    assert(key_views(removal_copy@) =~= key_views(removal@));
    let ghost q1 = queue.view();
    let mut acc: Vec<Key> = Vec::new();
    assert(key_set(acc@) =~= Set::<KeyView>::empty());
    collect_available(resources, &cands_added, &mut acc);
    collect_available(resources, &cands_modified, &mut acc);
    assert(key_set(acc@) =~= available_keys(resources.map_view(), va).union(
        available_keys(resources.map_view(), vm),
    ));
    if do_schedule {
        let c = copy_keys(&acc);
        queue.schedule_at_bulk(c, now);
        assert(key_views(c@) =~= key_views(acc@));
    } else {
        assert(schedule_all_spec(q1, Seq::empty(), now) == q1);
    }
    UpsertOutcome { removal, available: acc }
}

/// A wait that did not end in time.
#[derive(Debug)]
pub struct TimedOut {
    _opaque: (),
}

impl TimedOut {
    pub fn new() -> (r: TimedOut) {
        TimedOut { _opaque: () }
    }

    /// The message of the error.
    pub fn message(&self) -> (r: &'static str)
        ensures
            r@ == "operation timed out"@,
    {
        "operation timed out"
    }
}

/// Resources of these schemas are configuration only: nothing reconciles them.
pub open spec fn is_config_only(k: KeyView) -> bool {
    k.schema == "api"@ || k.schema == "install"@
}

/// Whether the resource under `key` is left out of reconciliation.
pub fn reconcile_is_skipped(key: &Key) -> (r: bool)
    ensures
        r == is_config_only(key@),
{
    str_eq(key.schema.as_str(), "api") || str_eq(key.schema.as_str(), "install")
}

/// Why a reconciliation produced no answer.
pub enum ReconcileFailure {
    /// No reconciler is known for the schema.
    NoClient,
    /// The request could not be encoded.
    Unencodable,
    /// The reconciler did not answer in time.
    TimedOut,
    /// The call failed; `deadline_exceeded` when the transport reported that
    /// the deadline passed.
    Transport { deadline_exceeded: bool, message: String },
    /// The answer could not be read.
    Unreadable,
}

/// The error status that a failed reconciliation leaves on the resource.
pub open spec fn failure_status_spec(f: ReconcileFailure) -> StatusErrorView {
    match f {
        ReconcileFailure::NoClient => StatusErrorView::NoClient,
        ReconcileFailure::Unencodable => StatusErrorView::Internal,
        ReconcileFailure::TimedOut => StatusErrorView::TimedOut,
        ReconcileFailure::Transport { deadline_exceeded, message } => if deadline_exceeded {
            StatusErrorView::TimedOut
        } else {
            StatusErrorView::Transport(message@)
        },
        ReconcileFailure::Unreadable => StatusErrorView::Invalid,
    }
}

pub fn failure_status(f: ReconcileFailure) -> (r: StatusError)
    ensures
        r@ == failure_status_spec(f),
{
    match f {
        ReconcileFailure::NoClient => StatusError::NoClient,
        ReconcileFailure::Unencodable => StatusError::Internal,
        ReconcileFailure::TimedOut => StatusError::TimedOut,
        ReconcileFailure::Transport { deadline_exceeded, message } => if deadline_exceeded {
            StatusError::TimedOut
        } else {
            StatusError::Transport(message)
        },
        ReconcileFailure::Unreadable => StatusError::Invalid,
    }
}

/// Records a failed reconciliation of the resource under `key`: its status
/// becomes the error of the failure (nothing else changes). The result is
/// when the resource is looked at next: never, a failed reconciliation is
/// not rescheduled.
pub fn record_failure(resources: &mut Resources, key: &Key, f: ReconcileFailure) -> (r: Option<u64>)
    requires
        old(resources).wf(),
    ensures
        final(resources).wf(),
        r is None,
        final(resources).map_view() == (if old(resources).map_view().dom().contains(key@) {
            old(resources).map_view().insert(
                key@,
                ResourceView {
                    status: StatusView::Error(failure_status_spec(f)),
                    ..old(resources).map_view()[key@]
                },
            )
        } else {
            old(resources).map_view()
        }),
{
    match resources.find(key) {
        Some(i) => {
            let mut r = resources.swap_value_at(i, TerminalResource::placeholder());
            r.status = Status::Error(failure_status(f));
            resources.set_value_at(i, r);
        },
        None => {},
    }
    None
}

/// Whether a change of status makes the resource newly available to its
/// dependents: from not ready, unknown or failed to ready or done, or from
/// ready to done.
pub open spec fn transition_notifies(before: StatusView, after: StatusView) -> bool {
    ||| ((before is NotReady || before is Unknown || before is Error) && (after is Ready
        || after is Done))
    ||| (before is Ready && after is Done)
}

/// A resource notifies its dependents exactly when it becomes available: it
/// was not ready, unknown or failed and is now ready or done, or it was
/// ready and is now done. Staying ready, becoming anything but ready or done,
/// or being done or deleted before never notifies.
pub proof fn lemma_notify_on_becoming_available(before: StatusView, after: StatusView)
    ensures
        (before is NotReady || before is Unknown || before is Error) && (after is Ready || after is Done)
            ==> transition_notifies(before, after),
        before is Ready && after is Done ==> transition_notifies(before, after),
        !(after is Ready || after is Done) ==> !transition_notifies(before, after),
        before is Ready && after is Ready ==> !transition_notifies(before, after),
        (before is Done || before is Deleted) ==> !transition_notifies(before, after),
{
}

pub fn notifies_dependents(before: &Status, after: &Status) -> (r: bool)
    ensures
        r == transition_notifies(before@, after@),
{
    match (before, after) {
        (Status::NotReady | Status::Unknown | Status::Error(_), Status::Ready | Status::Done) => true,
        (Status::Ready, Status::Done) => true,
        _ => false,
    }
}

/// The identities of the stored resources that depend on `c` or have it as
/// a child.
pub open spec fn referencing_classes(m: Map<KeyView, ResourceView>, c: IdClass) -> Set<IdClass> {
    Set::new(
        |x: IdClass|
            exists|k: KeyView|
                #[trigger] m.dom().contains(k) && m[k].id.class() == x && (
                m[k].dependencies.contains(c) || m[k].children.contains(c)),
    )
}

/// The identities of the stored resources that depend on `id` or have it as
/// a child.
pub fn referencing_identities(resources: &Resources, id: &Identity) -> (r: Vec<Identity>)
    requires
        resources.wf(),
    ensures
        id_classes(r@) == referencing_classes(resources.map_view(), id@.class()),
{
    let ghost m = resources.map_view();
    let ghost c = id@.class();
    let mut out: Vec<Identity> = Vec::new();
    let n = resources.size();
    let mut i: usize = 0;
    while i < n
        invariant
            resources.wf(),
            m == resources.map_view(),
            c == id@.class(),
            n == resources.entries_view().len(),
            i <= n,
            forall|x: IdClass|
                #[trigger] id_classes(out@).contains(x) == (exists|j: int|
                    0 <= j < i && m[resources.entries_view()[j].0@].id.class() == x && (
                    m[resources.entries_view()[j].0@].dependencies.contains(c)
                        || m[resources.entries_view()[j].0@].children.contains(c))),
        decreases n - i,
    {
        let ghost before = out@;
        let v = resources.value_at(i);
        if v.dependencies.contains(id) || v.children.contains(id) {
            out.push(v.id.copy());
        }
        proof {
            let kj = resources.entries_view()[i as int].0@;
            assert forall|x: IdClass| #[trigger] id_classes(out@).contains(x) == (exists|j: int|
                0 <= j < i + 1 && m[resources.entries_view()[j].0@].id.class() == x && (
                m[resources.entries_view()[j].0@].dependencies.contains(c)
                    || m[resources.entries_view()[j].0@].children.contains(c))) by {
                if id_classes(out@).contains(x) {
                    let a = choose|a: int| 0 <= a < out@.len() && out@[a]@.class() == x;
                    if a < before.len() {
                        assert(out@[a] == before[a]);
                        assert(id_classes(before).contains(x));
                    } else {
                        assert(m[kj].id.class() == x);
                    }
                }
                if exists|j: int|
                    0 <= j < i + 1 && m[resources.entries_view()[j].0@].id.class() == x && (
                    m[resources.entries_view()[j].0@].dependencies.contains(c)
                        || m[resources.entries_view()[j].0@].children.contains(c)) {
                    let j = choose|j: int|
                        0 <= j < i + 1 && m[resources.entries_view()[j].0@].id.class() == x && (
                        m[resources.entries_view()[j].0@].dependencies.contains(c)
                            || m[resources.entries_view()[j].0@].children.contains(c));
                    if j < i {
                        assert(id_classes(before).contains(x));
                        let a = choose|a: int| 0 <= a < before.len() && before[a]@.class() == x;
                        assert(out@[a] == before[a]);
                    } else {
                        assert(out@[before.len() as int]@.class() == x);
                    }
                }
            }
        }
        i = i + 1;
    }
    proof {
        assert forall|x: IdClass| #[trigger] id_classes(out@).contains(x) == referencing_classes(m, c).contains(x) by {
            if id_classes(out@).contains(x) {
                let j = choose|j: int|
                    0 <= j < n && m[resources.entries_view()[j].0@].id.class() == x && (
                    m[resources.entries_view()[j].0@].dependencies.contains(c)
                        || m[resources.entries_view()[j].0@].children.contains(c));
                resources.lemma_position_key(j);
            }
            if referencing_classes(m, c).contains(x) {
                let k = choose|k: KeyView|
                    #[trigger] m.dom().contains(k) && m[k].id.class() == x && (m[k].dependencies.contains(c)
                        || m[k].children.contains(c));
                resources.lemma_key_has_position(k);
                let j = choose|j: int| 0 <= j < resources.entries_view().len() && resources.entries_view()[j].0@ == k;
                assert(m[resources.entries_view()[j].0@].id.class() == x);
            }
        }
        assert(id_classes(out@) =~= referencing_classes(m, c));
    }
    out
}

/// The request that keeps a shared dependency alive: the dependency itself,
/// with a specification that names it.
pub open spec fn shared_request(i: IdentityView) -> SubResourceView {
    SubResourceView {
        id: i,
        spec: "{\"name\":"@ + json_opt_str(i.key().name) + "}"@,
    }
}

/// The requests for the shared identities among `s`, in order.
pub open spec fn shared_requests(s: Seq<Identity>) -> Seq<SubResourceView>
    decreases s.len(),
{
    if s.len() == 0 {
        Seq::empty()
    } else if s.last()@.is_shared() {
        shared_requests(s.drop_last()).push(shared_request(s.last()@))
    } else {
        shared_requests(s.drop_last())
    }
}

/// The keys of the children and of the shared dependencies of a resource.
pub open spec fn owned_keys(r: ResourceView) -> Set<KeyView> {
    Set::new(
        |k: KeyView|
            exists|c: IdClass|
                #![trigger r.children.contains(c)]
                #![trigger r.dependencies.contains(c)]
                c.key == k && (r.children.contains(c) || (r.dependencies.contains(c) && c.shared)),
    )
}

/// The resource after a reconciliation answered: it takes the answer's
/// status, state, children and dependencies.
pub open spec fn answered_view(r: ResourceView, status: StatusView, state: Option<Seq<char>>, children: Set<
    IdClass,
>, deps: Set<IdClass>) -> ResourceView {
    ResourceView { status, state, children, dependencies: deps, ..r }
}

/// What remains to do after a reconciliation answer is recorded.
pub struct AnswerFollowUp {
    /// The identity of the reconciled resource.
    pub id: Identity,
    /// The answered status.
    pub status: Status,
    /// Whether the resources that depend on it must be looked at again.
    pub notify: bool,
    /// Dependencies it no longer has.
    pub removed_deps: Vec<Identity>,
    /// Dependencies it has now and did not have.
    pub added_deps: Vec<Identity>,
    /// The keys of what it owned before (children and shared dependencies).
    pub old_keys: Vec<Key>,
    /// What it owns now, to be merged as a configuration update.
    pub requested: KeyMap<SubResourceCreate>,
}

/// Records the answer of a reconciliation of the resource under `key`;
/// `None`, with nothing changed, when no resource is stored there.
pub fn record_answer(resources: &mut Resources, key: &Key, answer: ResourceResponse) -> (r: Option<
    AnswerFollowUp,
>)
    requires
        old(resources).wf(),
    ensures
        final(resources).wf(),
        r is None <==> !old(resources).map_view().dom().contains(key@),
        r is None ==> final(resources).map_view() == old(resources).map_view(),
        r matches Some(f) ==> {
            let old_r = old(resources).map_view()[key@];
            &&& final(resources).map_view() == old(resources).map_view().insert(
                key@,
                answered_view(
                    old_r,
                    answer.status@,
                    opt_text(answer.state),
                    id_classes(answer.children@.map_values(|x: SubResourceCreate| x.id)),
                    answer.dependencies@,
                ),
            )
            &&& f.id@ == old_r.id
            &&& f.status@ == answer.status@
            &&& f.notify == transition_notifies(old_r.status, answer.status@)
            &&& id_classes(f.removed_deps@) == old_r.dependencies.difference(answer.dependencies@)
            &&& id_classes(f.added_deps@) == answer.dependencies@.difference(old_r.dependencies)
            &&& distinct_keys(f.old_keys@)
            &&& key_set(f.old_keys@) == owned_keys(old_r)
            &&& f.requested.wf()
            &&& f.requested.map_view() == requests_map(
                sub_views(answer.children@) + shared_requests(answer.dependencies.items_view()),
            )
            &&& final(resources).stored(key@).dependencies == answer.dependencies
            &&& forall|v: IdentityView| #[trigger] final(resources).stored(key@).children.holds_view(v)
                ==> exists|j: int| 0 <= j < answer.children@.len() && answer.children@[j].id@ == v
        },
{
    let i = match resources.find(key) {
        Some(i) => i,
        None => {
            return None;
        },
    };
    let ghost old_r = resources.map_view()[key@];
    let mut r = resources.swap_value_at(i, TerminalResource::placeholder());
    let removed_deps = r.dependencies.difference(&answer.dependencies);
    let added_deps = answer.dependencies.difference(&r.dependencies);
    let notify = notifies_dependents(&r.status, &answer.status);
    // the keys owned before the answer
    let mut old_keys: Vec<Key> = Vec::new();
    proof {
        assert(key_set(old_keys@) =~= Set::<KeyView>::empty());
    }
    let nc = r.children.size();
    let mut a: usize = 0;
    while a < nc
        invariant
            nc == r.children.items_view().len(),
            a <= nc,
            distinct_keys(old_keys@),
            key_set(old_keys@) == Set::new(
                |k: KeyView| exists|j: int| 0 <= j < a && r.children.items_view()[j]@.key() == k,
            ),
        decreases nc - a,
    {
        let ghost before = key_set(old_keys@);
        add_key(&mut old_keys, r.children.at(a).key().copy());
        assert(key_set(old_keys@) =~= Set::new(
            |k: KeyView| exists|j: int| 0 <= j < a + 1 && r.children.items_view()[j]@.key() == k,
        )) by {
            assert forall|k: KeyView| (exists|j: int| 0 <= j < a + 1 && r.children.items_view()[j]@.key() == k)
                implies #[trigger] key_set(old_keys@).contains(k) by {
                let j = choose|j: int| 0 <= j < a + 1 && r.children.items_view()[j]@.key() == k;
                if j < a {
                    assert(before.contains(k));
                }
            }
        }
        a = a + 1;
    }
    let nd = r.dependencies.size();
    let mut b: usize = 0;
    while b < nd
        invariant
            nc == r.children.items_view().len(),
            nd == r.dependencies.items_view().len(),
            b <= nd,
            distinct_keys(old_keys@),
            key_set(old_keys@) == Set::new(
                |k: KeyView|
                    (exists|j: int| 0 <= j < nc && r.children.items_view()[j]@.key() == k) || (exists|
                        j: int,
                    |
                        0 <= j < b && r.dependencies.items_view()[j]@.is_shared()
                            && r.dependencies.items_view()[j]@.key() == k),
            ),
        decreases nd - b,
    {
        let ghost before = key_set(old_keys@);
        let d = r.dependencies.at(b);
        if d.is_shared() {
            add_key(&mut old_keys, d.key().copy());
        }
        assert(key_set(old_keys@) =~= Set::new(
            |k: KeyView|
                (exists|j: int| 0 <= j < nc && r.children.items_view()[j]@.key() == k) || (exists|j: int|
                    0 <= j < b + 1 && r.dependencies.items_view()[j]@.is_shared()
                        && r.dependencies.items_view()[j]@.key() == k),
        )) by {
            assert forall|k: KeyView|
                ((exists|j: int| 0 <= j < nc && r.children.items_view()[j]@.key() == k) || (exists|j: int|
                    0 <= j < b + 1 && r.dependencies.items_view()[j]@.is_shared()
                        && r.dependencies.items_view()[j]@.key() == k)) implies #[trigger] key_set(
                old_keys@,
            ).contains(k) by {
                if exists|j: int| 0 <= j < nc && r.children.items_view()[j]@.key() == k {
                    assert(before.contains(k));
                } else {
                    let j = choose|j: int|
                        0 <= j < b + 1 && r.dependencies.items_view()[j]@.is_shared()
                            && r.dependencies.items_view()[j]@.key() == k;
                    if j < b {
                        assert(before.contains(k));
                    }
                }
            }
        }
        b = b + 1;
    }
    proof {
        assert(r.children@ == old_r.children);
        assert(r.dependencies@ == old_r.dependencies);
        let ghost loop_set = Set::new(
            |k: KeyView|
                (exists|j: int| 0 <= j < nc && r.children.items_view()[j]@.key() == k) || (exists|j: int|
                    0 <= j < nd && r.dependencies.items_view()[j]@.is_shared()
                        && r.dependencies.items_view()[j]@.key() == k),
        );
        assert(key_set(old_keys@) == loop_set);
        assert forall|k: KeyView| #[trigger] loop_set.contains(k) implies owned_keys(old_r).contains(k) by {
            if exists|j: int| 0 <= j < nc && r.children.items_view()[j]@.key() == k {
                let j = choose|j: int| 0 <= j < nc && r.children.items_view()[j]@.key() == k;
                r.children.lemma_item_in(j);
                let c = r.children.items_view()[j]@.class();
                assert(old_r.children.contains(c) && c.key == k);
                assert(owned_keys(old_r).contains(k));
            } else {
                let j = choose|j: int|
                    0 <= j < nd && r.dependencies.items_view()[j]@.is_shared()
                        && r.dependencies.items_view()[j]@.key() == k;
                r.dependencies.lemma_item_in(j);
                let c = r.dependencies.items_view()[j]@.class();
                assert(old_r.dependencies.contains(c) && c.key == k && c.shared);
                assert(old_r.children.contains(c) || (old_r.dependencies.contains(c) && c.shared));
                assert(owned_keys(old_r).contains(k));
            }
        }
        assert forall|k: KeyView| #[trigger] owned_keys(old_r).contains(k) implies loop_set.contains(k) by {
            let c = choose|c: IdClass|
                c.key == k && (#[trigger] old_r.children.contains(c) || (old_r.dependencies.contains(c)
                    && c.shared));
            if old_r.children.contains(c) {
                r.children.lemma_items_cover(c);
                let j = choose|j: int|
                    0 <= j < r.children.items_view().len() && r.children.items_view()[j]@.class() == c;
                assert(r.children.items_view()[j]@.key() == k);
            } else {
                r.dependencies.lemma_items_cover(c);
                let j = choose|j: int|
                    0 <= j < r.dependencies.items_view().len()
                        && r.dependencies.items_view()[j]@.class() == c;
                assert(r.dependencies.items_view()[j]@.key() == k);
                assert(r.dependencies.items_view()[j]@.is_shared());
            }
        }
        assert(key_set(old_keys@) =~= owned_keys(old_r));
    }
    // what the resource owns now
    let mut list = crate::resource::copy_subs(&answer.children);
    let ghost child_subs = sub_views(answer.children@);
    proof {
        assert(sub_views(list@) =~= child_subs);
    }
    let nn = answer.dependencies.size();
    let mut c: usize = 0;
    while c < nn
        invariant
            nn == answer.dependencies.items_view().len(),
            c <= nn,
            sub_views(list@) == child_subs + shared_requests(
                answer.dependencies.items_view().subrange(0, c as int),
            ),
        decreases nn - c,
    {
        let ghost before = list@;
        let d = answer.dependencies.at(c);
        if d.is_shared() {
            let mut spec = String::new();
            push_str(&mut spec, "{\"name\":");
            push_json_opt_str(&mut spec, &d.key().name);
            push_str(&mut spec, "}");
            assert(spec@ =~= shared_request(d@).spec);
            list.push(SubResourceCreate { id: d.copy(), spec });
        }
        proof {
            let p = answer.dependencies.items_view().subrange(0, c + 1);
            assert(p.drop_last() =~= answer.dependencies.items_view().subrange(0, c as int));
            assert(p.last() == *d);
            if d@.is_shared() {
                assert(list@.drop_last() == before);
                assert(list@.last()@ == shared_request(d@));
                assert(sub_views(list@) =~= sub_views(before).push(shared_request(d@)));
                assert(shared_requests(p) == shared_requests(p.drop_last()).push(shared_request(d@)));
            } else {
                assert(shared_requests(p) == shared_requests(p.drop_last()));
            }
            assert(sub_views(list@) =~= child_subs + shared_requests(p));
        }
        c = c + 1;
    }
    assert(answer.dependencies.items_view().subrange(0, nn as int) =~= answer.dependencies.items_view());
    let requested = requests_by_key(list);
    // the answer replaces the status, state, children and dependencies
    let ResourceResponse { status, state, children, dependencies } = answer;
    let status_copy = status.copy();
    let mut child_ids: Vec<Identity> = Vec::new();
    let mut e: usize = 0;
    while e < children.len()
        invariant
            e <= children@.len(),
            child_ids@.len() == e,
            forall|j: int| 0 <= j < e ==> #[trigger] child_ids@[j]@ == children@[j].id@,
        decreases children@.len() - e,
    {
        child_ids.push(children[e].id.copy());
        e = e + 1;
    }
    let ghost target = id_classes(children@.map_values(|x: SubResourceCreate| x.id));
    let child_set = IdSet::from_vec(child_ids);
    proof {
        assert forall|x: IdClass| #[trigger] child_set@.contains(x) == target.contains(x) by {
            let mv = children@.map_values(|x: SubResourceCreate| x.id);
            if child_set@.contains(x) {
                let j = choose|j: int| 0 <= j < child_ids@.len() && child_ids@[j]@.class() == x;
                assert(mv[j]@ == child_ids@[j]@);
            }
            if target.contains(x) {
                let j = choose|j: int| 0 <= j < mv.len() && mv[j]@.class() == x;
                assert(mv[j]@ == child_ids@[j]@);
            }
        }
        assert(child_set@ =~= target);
    }
    r.status = status;
    r.state = state;
    r.children = child_set;
    r.dependencies = dependencies;
    let id = r.id.copy();
    resources.set_value_at(i, r);
    proof {
        assert forall|v: IdentityView| #[trigger] resources.stored(key@).children.holds_view(v) implies exists|j: int|
            0 <= j < children@.len() && children@[j].id@ == v by {
            let j = choose|j: int| 0 <= j < child_ids@.len() && child_ids@[j]@ == v;
            assert(children@[j].id@ == v);
        }
    }
    Some(
        AnswerFollowUp {
            id,
            status: status_copy,
            notify,
            removed_deps,
            added_deps,
            old_keys,
            requested,
        },
    )
}


/// How long a reconciled resource waits before it is looked at again, in
/// ticks of one nanosecond.
pub const RECONCILIATION_PERIOD: u64 = 30_000_000_000;

/// The keys of a sequence of identities.
pub open spec fn identity_keys(s: Seq<Identity>) -> Set<KeyView> {
    Set::new(|k: KeyView| exists|i: int| 0 <= i < s.len() && s[i]@.key() == k)
}

/// The dependents of the resource under `k` once `id` is taken off the
/// resources under `removed`, then put on those under `added`.
pub open spec fn rewired_dependents(
    d: Set<IdClass>,
    k: KeyView,
    removed: Set<KeyView>,
    added: Set<KeyView>,
    id: IdClass,
) -> Set<IdClass> {
    let kept = if removed.contains(k) {
        d.remove(id)
    } else {
        d
    };
    if added.contains(k) {
        kept.insert(id)
    } else {
        kept
    }
}

/// The resources once `id` is taken off the dependents of the resources
/// under `removed` and put on the dependents of those under `added`.
pub open spec fn rewired(
    m: Map<KeyView, ResourceView>,
    removed: Set<KeyView>,
    added: Set<KeyView>,
    id: IdClass,
) -> Map<KeyView, ResourceView> {
    Map::new(
        |k: KeyView| m.dom().contains(k),
        |k: KeyView|
            ResourceView {
                dependents: rewired_dependents(m[k].dependents, k, removed, added, id),
                ..m[k]
            },
    )
}

/// Puts `id` on, or takes it off, the dependents of the resource under
/// `key`, if one is stored there.
fn set_dependent(resources: &mut Resources, key: &Key, id: &Identity, present: bool)
    requires
        old(resources).wf(),
    ensures
        final(resources).wf(),
        final(resources).map_view() == (if old(resources).map_view().dom().contains(key@) {
            old(resources).map_view().insert(
                key@,
                ResourceView {
                    dependents: if present {
                        old(resources).map_view()[key@].dependents.insert(id@.class())
                    } else {
                        old(resources).map_view()[key@].dependents.remove(id@.class())
                    },
                    ..old(resources).map_view()[key@]
                },
            )
        } else {
            old(resources).map_view()
        }),
{
    match resources.find(key) {
        Some(i) => {
            let mut r = resources.swap_value_at(i, TerminalResource::placeholder());
            if present {
                r.dependents.insert(id.copy());
            } else {
                r.dependents.remove(id);
            }
            resources.set_value_at(i, r);
        },
        None => {},
    }
}

/// Takes `id` off the dependents of the resources under the keys of
/// `removed`, then puts it on the dependents of those under the keys of
/// `added`; keys with no stored resource are passed over.
pub fn rewire_dependents(
    resources: &mut Resources,
    id: &Identity,
    removed: &Vec<Identity>,
    added: &Vec<Identity>,
)
    requires
        old(resources).wf(),
    ensures
        final(resources).wf(),
        final(resources).map_view() == rewired(
            old(resources).map_view(),
            identity_keys(removed@),
            identity_keys(added@),
            id@.class(),
        ),
{
    let ghost m0 = resources.map_view();
    let ghost c = id@.class();
    proof {
        assert(identity_keys(removed@.take(0)) =~= Set::<KeyView>::empty());
        assert(identity_keys(added@.take(0)) =~= Set::<KeyView>::empty());
        assert(m0 =~= rewired(m0, Set::empty(), Set::empty(), c)) by {
            assert forall|k: KeyView| #[trigger] m0.dom().contains(k) implies m0[k] == rewired(
                m0,
                Set::empty(),
                Set::empty(),
                c,
            )[k] by {}
        }
    }
    let mut a: usize = 0;
    while a < removed.len()
        invariant
            a <= removed@.len(),
            resources.wf(),
            c == id@.class(),
            resources.map_view() == rewired(m0, identity_keys(removed@.take(a as int)), Set::empty(), c),
        decreases removed@.len() - a,
    {
        let ghost before = resources.map_view();
        let ghost pre = identity_keys(removed@.take(a as int));
        let k = removed[a].key();
        set_dependent(resources, k, id, false);
        let ghost post = identity_keys(removed@.take(a + 1));
        proof {
            assert(post =~= pre.insert(k@)) by {
                assert(removed@.take(a + 1)[a as int]@.key() == k@);
                assert forall|x: KeyView| #[trigger] post.contains(x) implies pre.insert(k@).contains(x) by {
                    let s1 = removed@.take(a + 1);
                    let i = choose|i: int| 0 <= i < a + 1 && #[trigger] s1[i]@.key() == x;
                    if i < a {
                        assert(removed@.take(a as int)[i] == s1[i]);
                    }
                }
                assert forall|x: KeyView| #[trigger] pre.contains(x) implies post.contains(x) by {
                    let s0 = removed@.take(a as int);
                    let i = choose|i: int| 0 <= i < a && #[trigger] s0[i]@.key() == x;
                    assert(s0[i] == removed@.take(a + 1)[i]);
                }
            }
            let target = rewired(m0, post, Set::empty(), c);
            assert forall|x: KeyView| #[trigger] target.dom().contains(x) implies resources.map_view()[x]
                == target[x] by {
                if x == k@ {
                    assert(rewired_dependents(m0[x].dependents, x, post, Set::empty(), c)
                        =~= rewired_dependents(m0[x].dependents, x, pre, Set::empty(), c).remove(c));
                }
            }
            assert(resources.map_view() =~= target);
        }
        a = a + 1;
    }
    proof {
        assert(removed@.take(removed@.len() as int) =~= removed@);
    }
    let ghost rk = identity_keys(removed@);
    let mut b: usize = 0;
    while b < added.len()
        invariant
            b <= added@.len(),
            resources.wf(),
            c == id@.class(),
            rk == identity_keys(removed@),
            resources.map_view() == rewired(m0, rk, identity_keys(added@.take(b as int)), c),
        decreases added@.len() - b,
    {
        let ghost pre = identity_keys(added@.take(b as int));
        let k = added[b].key();
        set_dependent(resources, k, id, true);
        let ghost post = identity_keys(added@.take(b + 1));
        proof {
            assert(post =~= pre.insert(k@)) by {
                assert(added@.take(b + 1)[b as int]@.key() == k@);
                assert forall|x: KeyView| #[trigger] post.contains(x) implies pre.insert(k@).contains(x) by {
                    let s1 = added@.take(b + 1);
                    let i = choose|i: int| 0 <= i < b + 1 && #[trigger] s1[i]@.key() == x;
                    if i < b {
                        assert(added@.take(b as int)[i] == s1[i]);
                    }
                }
                assert forall|x: KeyView| #[trigger] pre.contains(x) implies post.contains(x) by {
                    let s0 = added@.take(b as int);
                    let i = choose|i: int| 0 <= i < b && #[trigger] s0[i]@.key() == x;
                    assert(s0[i] == added@.take(b + 1)[i]);
                }
            }
            let target = rewired(m0, rk, post, c);
            assert forall|x: KeyView| #[trigger] target.dom().contains(x) implies resources.map_view()[x]
                == target[x] by {
                if x == k@ {
                    assert(rewired_dependents(m0[x].dependents, x, rk, post, c)
                        =~= rewired_dependents(m0[x].dependents, x, rk, pre, c).insert(c));
                }
            }
            assert(resources.map_view() =~= target);
        }
        b = b + 1;
    }
    proof {
        assert(added@.take(added@.len() as int) =~= added@);
    }
}

/// When the resource is looked at next after an answer with `status`:
/// never for a deleted or done resource, else one period after `now`.
pub open spec fn next_visit(status: StatusView, now: u64) -> Option<u64> {
    if status is Deleted || status is Done {
        None
    } else {
        Some((now + RECONCILIATION_PERIOD) as u64)
    }
}

/// Ends the handling of an answer: rewires the dependents of the removed and
/// added dependencies, drops the resource under `key` when it answered that it
/// is deleted, and says when it is looked at next.
pub fn finish_answer(
    resources: &mut Resources,
    key: &Key,
    id: &Identity,
    removed: &Vec<Identity>,
    added: &Vec<Identity>,
    status: &Status,
    now: u64,
) -> (r: Option<u64>)
    requires
        old(resources).wf(),
        now + RECONCILIATION_PERIOD <= u64::MAX,
    ensures
        final(resources).wf(),
        final(resources).map_view() == (if status@ is Deleted {
            rewired(
                old(resources).map_view(),
                identity_keys(removed@),
                identity_keys(added@),
                id@.class(),
            ).remove(key@)
        } else {
            rewired(
                old(resources).map_view(),
                identity_keys(removed@),
                identity_keys(added@),
                id@.class(),
            )
        }),
        r == next_visit(status@, now),
{
    rewire_dependents(resources, id, removed, added);
    match status {
        Status::Deleted => {
            let _ = resources.remove(key);
            None
        },
        Status::Done => None,
        _ => Some(now + RECONCILIATION_PERIOD),
    }
}


/// Whether one of `ids` has the key `k`.
pub fn identities_have_key(ids: &Vec<Identity>, k: &Key) -> (r: bool)
    ensures
        r == identity_keys(ids@).contains(k@),
{
    let mut i: usize = 0;
    while i < ids.len()
        invariant
            i <= ids@.len(),
            forall|j: int| 0 <= j < i ==> #[trigger] ids@[j]@.key() != k@,
        decreases ids@.len() - i,
    {
        if key_eq(ids[i].key(), k) {
            return true;
        }
        i = i + 1;
    }
    false
}

/// A stored resource seen as a validated one: its identity and
/// specification, what was derived from it and its dependencies.
pub open spec fn stored_validated(r: ResourceView) -> ValidatedView {
    ValidatedView {
        sub: SubResourceView { id: r.id, spec: r.spec },
        derived_spec: r.derived_spec,
        dependencies: r.dependencies,
    }
}

/// The stored resources whose identity has one of the keys `keys`, seen as
/// validated ones.
pub open spec fn candidates_of(m: Map<KeyView, ResourceView>, keys: Set<KeyView>) -> Set<ValidatedView> {
    Set::new(
        |v: ValidatedView|
            exists|k: KeyView|
                #[trigger] m.dom().contains(k) && keys.contains(m[k].id.key()) && v == stored_validated(
                    m[k],
                ),
    )
}

/// The stored resources whose identity has the key of one of `referencing`,
/// as candidates for scheduling: each with its specification, derived
/// specification and dependencies, and no children.
pub fn dependent_candidates(resources: &Resources, referencing: &Vec<Identity>) -> (r: Vec<
    (SubResourceCreate, ValidateResponse),
>)
    requires
        resources.wf(),
    ensures
        validated_views(r@).to_set() == candidates_of(resources.map_view(), identity_keys(referencing@)),
        forall|i: int| 0 <= i < r@.len() ==> (#[trigger] r@[i]).1.children@.len() == 0,
{
    let ghost m = resources.map_view();
    let ghost keys = identity_keys(referencing@);
    let mut out: Vec<(SubResourceCreate, ValidateResponse)> = Vec::new();
    let n = resources.size();
    let mut i: usize = 0;
    while i < n
        invariant
            resources.wf(),
            m == resources.map_view(),
            keys == identity_keys(referencing@),
            n == resources.entries_view().len(),
            i <= n,
            forall|j: int| 0 <= j < out@.len() ==> (#[trigger] out@[j]).1.children@.len() == 0,
            validated_views(out@).to_set() == Set::new(
                |v: ValidatedView|
                    exists|j: int|
                        0 <= j < i && #[trigger] keys.contains(m[resources.entries_view()[j].0@].id.key())
                            && v == stored_validated(m[resources.entries_view()[j].0@]),
            ),
        decreases n - i,
    {
        let ghost before = validated_views(out@);
        let v = resources.value_at(i);
        proof {
            resources.lemma_position_key(i as int);
        }
        if identities_have_key(referencing, v.id.key()) {
            let sub = SubResourceCreate { id: v.id.copy(), spec: v.spec.clone() };
            let resp = ValidateResponse {
                derived_spec: v.derived_spec.clone(),
                children: Vec::new(),
                dependencies: v.dependencies.copy(),
            };
            out.push((sub, resp));
            proof {
                assert(validated_views(out@) =~= before.push(stored_validated(v@)));
            }
        } else {
            proof {
                assert(validated_views(out@) =~= before);
            }
        }
        proof {
            let ix = i as int;
            let next = Set::new(
                |w: ValidatedView|
                    exists|j: int|
                        0 <= j < ix + 1 && #[trigger] keys.contains(m[resources.entries_view()[j].0@].id.key())
                            && w == stored_validated(m[resources.entries_view()[j].0@]),
            );
            let prev = Set::new(
                |w: ValidatedView|
                    exists|j: int|
                        0 <= j < ix && #[trigger] keys.contains(m[resources.entries_view()[j].0@].id.key())
                            && w == stored_validated(m[resources.entries_view()[j].0@]),
            );
            assert(v@ == m[resources.entries_view()[ix].0@]);
            assert forall|w: ValidatedView| #[trigger] validated_views(out@).to_set().contains(w)
                implies next.contains(w) by {
                let q = choose|q: int| 0 <= q < validated_views(out@).len() && validated_views(out@)[q] == w;
                if q < before.len() {
                    assert(before.to_set().contains(w));
                    assert(prev.contains(w));
                    let j = choose|j: int|
                        0 <= j < ix && #[trigger] keys.contains(m[resources.entries_view()[j].0@].id.key())
                            && w == stored_validated(m[resources.entries_view()[j].0@]);
                    assert(keys.contains(m[resources.entries_view()[j].0@].id.key()));
                } else {
                    assert(keys.contains(m[resources.entries_view()[ix].0@].id.key()));
                }
            }
            assert forall|w: ValidatedView| #[trigger] next.contains(w) implies validated_views(
                out@,
            ).to_set().contains(w) by {
                let j = choose|j: int|
                    0 <= j < ix + 1 && #[trigger] keys.contains(m[resources.entries_view()[j].0@].id.key())
                        && w == stored_validated(m[resources.entries_view()[j].0@]);
                if j < ix {
                    assert(prev.contains(w));
                    assert(before.to_set().contains(w));
                    let q = choose|q: int| 0 <= q < before.len() && before[q] == w;
                    assert(validated_views(out@)[q] == w);
                } else {
                    assert(validated_views(out@)[validated_views(out@).len() - 1] == w);
                }
            }
            assert(validated_views(out@).to_set() =~= next);
        }
        i = i + 1;
    }
    proof {
        let fin = Set::new(
            |v: ValidatedView|
                exists|j: int|
                    0 <= j < n && #[trigger] keys.contains(m[resources.entries_view()[j].0@].id.key()) && v
                        == stored_validated(m[resources.entries_view()[j].0@]),
        );
        assert forall|v: ValidatedView| #[trigger] fin.contains(v) implies candidates_of(m, keys).contains(v) by {
            let j = choose|j: int|
                0 <= j < n && #[trigger] keys.contains(m[resources.entries_view()[j].0@].id.key()) && v
                    == stored_validated(m[resources.entries_view()[j].0@]);
            resources.lemma_position_key(j);
            let k = resources.entries_view()[j].0@;
            assert(m.dom().contains(k));
        }
        assert forall|v: ValidatedView| #[trigger] candidates_of(m, keys).contains(v) implies fin.contains(v) by {
            let k = choose|k: KeyView|
                #[trigger] m.dom().contains(k) && keys.contains(m[k].id.key()) && v == stored_validated(m[k]);
            resources.lemma_key_has_position(k);
            let j = choose|j: int| 0 <= j < resources.entries_view().len() && resources.entries_view()[j].0@ == k;
            assert(keys.contains(m[resources.entries_view()[j].0@].id.key()));
        }
        assert(fin =~= candidates_of(m, keys));
    }
    out
}


/// The stored resources, in the order in which they are kept.
pub open spec fn stored_views(resources: Resources) -> Seq<ResourceView> {
    resources.entries_view().map_values(|e: (Key, TerminalResource)| e.1@)
}

/// Whether a resource is kept across restarts: all but the ephemeral ones.
pub open spec fn is_persisted(r: ResourceView) -> bool {
    !(r.id matches IdentityView::Private(PrivateKind::Ephemeral, _))
}

/// The resources of `s` that are kept across restarts, in order.
pub open spec fn persisted_views(s: Seq<ResourceView>) -> Seq<ResourceView>
    decreases s.len(),
{
    if s.len() == 0 {
        Seq::empty()
    } else if is_persisted(s.last()) {
        persisted_views(s.drop_last()).push(s.last())
    } else {
        persisted_views(s.drop_last())
    }
}

/// Whether the identity is an ephemeral one.
pub fn is_ephemeral(id: &Identity) -> (r: bool)
    ensures
        r == !is_persisted_id(id@),
{
    match id {
        Identity::Private(PrivateIdentity::Ephemeral(_)) => true,
        _ => false,
    }
}

/// Whether resources of this identity are kept across restarts.
pub open spec fn is_persisted_id(id: IdentityView) -> bool {
    !(id matches IdentityView::Private(PrivateKind::Ephemeral, _))
}

/// The resources to write into a bundle: copies of all the stored ones but
/// the ephemeral ones, in the order in which they are kept.
pub fn bundle_resources(resources: &Resources) -> (r: Vec<TerminalResource>)
    requires
        resources.wf(),
    ensures
        r@.map_values(|x: TerminalResource| x@) == persisted_views(stored_views(*resources)),
{
    let ghost all = stored_views(*resources);
    let mut out: Vec<TerminalResource> = Vec::new();
    let n = resources.size();
    let mut i: usize = 0;
    while i < n
        invariant
            resources.wf(),
            n == resources.entries_view().len(),
            all == stored_views(*resources),
            i <= n,
            out@.map_values(|x: TerminalResource| x@) == persisted_views(all.take(i as int)),
        decreases n - i,
    {
        let ghost before = out@.map_values(|x: TerminalResource| x@);
        let v = resources.value_at(i);
        proof {
            resources.lemma_position_key(i as int);
            assert(all.take(i + 1).drop_last() =~= all.take(i as int));
            assert(all.take(i + 1).last() == all[i as int]);
            assert(all[i as int] == resources.entries_view()[i as int].1@);
        }
        if !is_ephemeral(&v.id) {
            out.push(v.copy());
            proof {
                assert(out@.map_values(|x: TerminalResource| x@) =~= before.push(v@));
            }
        }
        i = i + 1;
    }
    proof {
        assert(all.take(n as int) =~= all);
    }
    out
}

/// A resource read back from a bundle: running, with an unknown status.
pub open spec fn restored_view(r: ResourceView) -> ResourceView {
    ResourceView { phase: Phase::Running, status: StatusView::Unknown, ..r }
}

/// The resources read back from a bundle, by the key of their identity (a
/// later one replaces an earlier one with the same key).
pub open spec fn restored_map(s: Seq<ResourceView>) -> Map<KeyView, ResourceView>
    decreases s.len(),
{
    if s.len() == 0 {
        Map::empty()
    } else {
        restored_map(s.drop_last()).insert(s.last().id.key(), restored_view(s.last()))
    }
}

/// Builds the stored resources from those read from a bundle: each is kept
/// under the key of its identity, running and with an unknown status.
pub fn restore_resources(list: Vec<TerminalResource>) -> (r: Resources)
    ensures
        r.wf(),
        r.map_view() == restored_map(list@.map_values(|x: TerminalResource| x@)),
{
    let ghost all = list@.map_values(|x: TerminalResource| x@);
    let mut out: Resources = KeyMap::new();
    let mut rest = list;
    proof {
        assert(all.take(0) =~= Seq::<ResourceView>::empty());
    }
    let mut taken: usize = 0;
    let mut i: usize = 0;
    let n = rest.len();
    let mut items: Vec<TerminalResource> = Vec::new();
    // reverse into `items`, so that popping gives them back in order
    while i < n
        invariant
            i <= n,
            n == all.len(),
            rest@.len() == n - i,
            items@.len() == i,
            forall|j: int| 0 <= j < rest@.len() ==> #[trigger] rest@[j]@ == all[j],
            forall|j: int| 0 <= j < i ==> #[trigger] items@[j]@ == all[n - 1 - j],
        decreases n - i,
    {
        let x = rest.pop().unwrap();
        items.push(x);
        i = i + 1;
    }
    while taken < n
        invariant
            taken <= n,
            n == all.len(),
            items@.len() == n - taken,
            forall|j: int| 0 <= j < items@.len() ==> #[trigger] items@[j]@ == all[n - 1 - j],
            out.wf(),
            out.map_view() == restored_map(all.take(taken as int)),
        decreases n - taken,
    {
        let mut x = items.pop().unwrap();
        proof {
            assert(x@ == all[taken as int]);
            assert(all.take(taken + 1).drop_last() =~= all.take(taken as int));
            assert(all.take(taken + 1).last() == all[taken as int]);
        }
        x.phase = Phase::Running;
        x.status = Status::Unknown;
        let k = x.id.key().copy();
        out.insert(k, x);
        taken = taken + 1;
    }
    proof {
        assert(all.take(n as int) =~= all);
    }
    out
}

/// Every stored resource is kept under the key of its identity.
pub open spec fn keyed_by_identity(m: Map<KeyView, ResourceView>) -> bool {
    forall|k: KeyView| #[trigger] m.dom().contains(k) ==> m[k].id.key() == k
}

/// The persisted resources of a store, as they come back from a bundle:
/// under their keys, running, with an unknown status.
pub open spec fn persisted_restored(m: Map<KeyView, ResourceView>) -> Map<KeyView, ResourceView> {
    Map::new(|k: KeyView| m.dom().contains(k) && is_persisted(m[k]), |k: KeyView| restored_view(m[k]))
}

proof fn lemma_restore_prefix(resources: Resources, n: int)
    requires
        resources.wf(),
        keyed_by_identity(resources.map_view()),
        0 <= n <= resources.entries_view().len(),
    ensures
        restored_map(persisted_views(stored_views(resources).take(n))) == Map::new(
            |k: KeyView|
                (exists|j: int| 0 <= j < n && #[trigger] resources.entries_view()[j].0@ == k) && is_persisted(
                    resources.map_view()[k],
                ),
            |k: KeyView| restored_view(resources.map_view()[k]),
        ),
    decreases n,
{
    let m = resources.map_view();
    let e = resources.entries_view();
    let target = Map::new(
        |k: KeyView| (exists|j: int| 0 <= j < n && #[trigger] e[j].0@ == k) && is_persisted(m[k]),
        |k: KeyView| restored_view(m[k]),
    );
    if n == 0 {
        assert(stored_views(resources).take(0) =~= Seq::<ResourceView>::empty());
        assert(restored_map(persisted_views(stored_views(resources).take(0))) =~= target);
    } else {
        lemma_restore_prefix(resources, n - 1);
        let prev = Map::new(
            |k: KeyView| (exists|j: int| 0 <= j < n - 1 && #[trigger] e[j].0@ == k) && is_persisted(m[k]),
            |k: KeyView| restored_view(m[k]),
        );
        let s = stored_views(resources).take(n);
        assert(s.drop_last() =~= stored_views(resources).take(n - 1));
        resources.lemma_position_key(n - 1);
        let k0 = e[n - 1].0@;
        assert(s.last() == e[n - 1].1@);
        assert(s.last() == m[k0]);
        assert(m[k0].id.key() == k0);
        if is_persisted(s.last()) {
            let x = persisted_views(s.drop_last());
            assert(persisted_views(s) == x.push(s.last()));
            assert(x.push(s.last()).drop_last() =~= x);
            assert(restored_map(x.push(s.last())) == restored_map(x).insert(
                s.last().id.key(),
                restored_view(s.last()),
            ));
            assert(restored_map(persisted_views(s)) == prev.insert(k0, restored_view(m[k0])));
            assert forall|k: KeyView| #[trigger] target.dom().contains(k) <==> prev.insert(k0, restored_view(m[k0])).dom().contains(k) by {
                if target.dom().contains(k) && k != k0 {
                    let j = choose|j: int| 0 <= j < n && #[trigger] e[j].0@ == k;
                    assert(j < n - 1);
                }
                if prev.dom().contains(k) {
                    let j = choose|j: int| 0 <= j < n - 1 && #[trigger] e[j].0@ == k;
                    assert(0 <= j < n && e[j].0@ == k);
                }
                if k == k0 {
                    assert(e[n - 1].0@ == k);
                }
            }
            assert(restored_map(persisted_views(s)) =~= target);
        } else {
            assert(restored_map(persisted_views(s)) == prev);
            assert forall|k: KeyView| #[trigger] target.dom().contains(k) <==> prev.dom().contains(k) by {
                if target.dom().contains(k) {
                    let j = choose|j: int| 0 <= j < n && #[trigger] e[j].0@ == k;
                    if j == n - 1 {
                        assert(k == k0);
                    } else {
                        assert(0 <= j < n - 1 && e[j].0@ == k);
                    }
                }
                if prev.dom().contains(k) {
                    let j = choose|j: int| 0 <= j < n - 1 && #[trigger] e[j].0@ == k;
                    assert(0 <= j < n && e[j].0@ == k);
                }
            }
            assert(restored_map(persisted_views(s)) =~= target);
        }
    }
}

/// What a bundle holds comes back when it is read: the resources kept
/// across restarts (all but the ephemeral ones), each under its key, running
/// and with an unknown status.
pub proof fn lemma_bundle_round_trip(resources: Resources)
    requires
        resources.wf(),
        keyed_by_identity(resources.map_view()),
    ensures
        restored_map(persisted_views(stored_views(resources))) == persisted_restored(resources.map_view()),
{
    let m = resources.map_view();
    let e = resources.entries_view();
    let n = e.len() as int;
    lemma_restore_prefix(resources, n);
    assert(stored_views(resources).take(n) =~= stored_views(resources));
    let prefix = Map::new(
        |k: KeyView| (exists|j: int| 0 <= j < n && #[trigger] e[j].0@ == k) && is_persisted(m[k]),
        |k: KeyView| restored_view(m[k]),
    );
    assert forall|k: KeyView| #[trigger] prefix.dom().contains(k) <==> persisted_restored(m).dom().contains(k) by {
        if prefix.dom().contains(k) {
            let j = choose|j: int| 0 <= j < n && #[trigger] e[j].0@ == k;
            resources.lemma_position_key(j);
        }
        if persisted_restored(m).dom().contains(k) {
            resources.lemma_key_has_position(k);
            let j = choose|j: int| 0 <= j < e.len() && e[j].0@ == k;
            assert(e[j].0@ == k);
        }
    }
    assert(prefix =~= persisted_restored(m));
}

/// Marking a resource for removal marks exactly the resources reached from
/// it through children, each pending or deleting, and changes nothing else;
/// those sent to deletion at once have neither children nor dependents.
pub proof fn lemma_removal_marks_subtree(m: Map<KeyView, ResourceView>, from: KeyView, k: KeyView)
    requires
        m.dom().contains(k),
    ensures
        mark_removed_spec(m, from).dom() == m.dom(),
        reachable(m, from, k) ==> (mark_removed_spec(m, from)[k].phase == Phase::PendingDeletion
            || mark_removed_spec(m, from)[k].phase == Phase::Deleting),
        reachable(m, from, k) ==> mark_removed_spec(m, from)[k] == (ResourceView {
            phase: mark_removed_spec(m, from)[k].phase,
            ..m[k]
        }),
        !reachable(m, from, k) ==> mark_removed_spec(m, from)[k] == m[k],
        removal_queue(m, from).contains(k) ==> m[k].children == Set::<IdClass>::empty()
            && m[k].dependents == Set::<IdClass>::empty(),
{
    assert(mark_removed_spec(m, from).dom() =~= m.dom());
}

/// After rewiring, the resource is a dependent of every stored resource
/// under a key of its added dependencies, and of none under a key of its
/// removed ones that is not also among the added; other dependents stay.
pub proof fn lemma_rewired_dependents(
    m: Map<KeyView, ResourceView>,
    removed: Set<KeyView>,
    added: Set<KeyView>,
    id: IdClass,
    k: KeyView,
)
    requires
        m.dom().contains(k),
    ensures
        rewired(m, removed, added, id).dom() == m.dom(),
        added.contains(k) ==> rewired(m, removed, added, id)[k].dependents.contains(id),
        removed.contains(k) && !added.contains(k) ==> !rewired(m, removed, added, id)[k].dependents.contains(id),
        forall|c: IdClass| c != id ==> (#[trigger] rewired(m, removed, added, id)[k].dependents.contains(c)
            == m[k].dependents.contains(c)),
        rewired(m, removed, added, id)[k] == (ResourceView {
            dependents: rewired(m, removed, added, id)[k].dependents,
            ..m[k]
        }),
{
    assert(rewired(m, removed, added, id).dom() =~= m.dom());
}

/// Reverse edges follow forward edges: when the dependencies of a resource
/// of identity `id` change from `before` to `after`, and the dependents are
/// rewired with the identities it lost (`removed`) and gained (`added`), as
/// an answer's follow-up gives them, then every stored resource under a
/// gained dependency lists `id` among its dependents, and every stored
/// resource under a lost dependency no longer does, unless a gained
/// dependency has the same key.
pub proof fn lemma_reverse_edges_follow(
    m: Map<KeyView, ResourceView>,
    before: Set<IdClass>,
    after: Set<IdClass>,
    removed: Seq<Identity>,
    added: Seq<Identity>,
    id: IdClass,
)
    requires
        id_classes(removed) == before.difference(after),
        id_classes(added) == after.difference(before),
    ensures
        forall|c: IdClass|
            after.difference(before).contains(c) && m.dom().contains(c.key) ==> #[trigger] rewired(
                m,
                identity_keys(removed),
                identity_keys(added),
                id,
            )[c.key].dependents.contains(id),
        forall|c: IdClass|
            before.difference(after).contains(c) && m.dom().contains(c.key) && !(exists|d: IdClass|
                #[trigger] after.difference(before).contains(d) && d.key == c.key) ==> !(#[trigger] rewired(
                m,
                identity_keys(removed),
                identity_keys(added),
                id,
            )[c.key].dependents.contains(id)),
{
    let rk = identity_keys(removed);
    let ak = identity_keys(added);
    assert forall|c: IdClass|
        after.difference(before).contains(c) && m.dom().contains(c.key) implies #[trigger] rewired(
            m,
            rk,
            ak,
            id,
        )[c.key].dependents.contains(id) by {
        assert(id_classes(added).contains(c));
        let i = choose|i: int| 0 <= i < added.len() && added[i]@.class() == c;
        assert(added[i]@.key() == c.key);
        assert(ak.contains(c.key));
        lemma_rewired_dependents(m, rk, ak, id, c.key);
    }
    assert forall|c: IdClass|
        before.difference(after).contains(c) && m.dom().contains(c.key) && !(exists|d: IdClass|
            #[trigger] after.difference(before).contains(d) && d.key == c.key) implies !(#[trigger] rewired(
            m,
            rk,
            ak,
            id,
        )[c.key].dependents.contains(id)) by {
        assert(id_classes(removed).contains(c));
        let i = choose|i: int| 0 <= i < removed.len() && removed[i]@.class() == c;
        assert(removed[i]@.key() == c.key);
        assert(rk.contains(c.key));
        if ak.contains(c.key) {
            let j = choose|j: int| 0 <= j < added.len() && added[j]@.key() == c.key;
            let d = added[j]@.class();
            assert(id_classes(added).contains(d));
            assert(after.difference(before).contains(d) && d.key == c.key);
        }
        lemma_rewired_dependents(m, rk, ak, id, c.key);
    }
}

/// The answer of validation for a configuration-only resource: nothing
/// derived (`null`), no children, no dependencies; `None` for the other
/// schemas, which their reconciler validates.
pub fn config_only_validation(sub: &SubResourceCreate) -> (r: Option<ValidateResponse>)
    ensures
        r is Some <==> is_config_only(sub.id@.key()),
        r matches Some(v) ==> v.derived_spec@ == "null"@ && v.children@.len() == 0 && v.dependencies@ == Set::<
            IdClass,
        >::empty(),
{
    if reconcile_is_skipped(sub.id.key()) {
        Some(ValidateResponse { derived_spec: "null".to_string(), children: Vec::new(), dependencies: IdSet::new() })
    } else {
        None
    }
}

/// The stored resources under the keys of `ids`, in the order of `ids`
/// (identities with no stored resource are passed over).
pub open spec fn related_views(m: Map<KeyView, ResourceView>, ids: Seq<Identity>) -> Seq<ResourceView>
    decreases ids.len(),
{
    if ids.len() == 0 {
        Seq::empty()
    } else if m.dom().contains(ids.last()@.key()) {
        related_views(m, ids.drop_last()).push(m[ids.last()@.key()])
    } else {
        related_views(m, ids.drop_last())
    }
}

/// Copies of the stored resources under the keys of the identities of
/// `ids`, as a reconciler receives a resource's relations.
pub fn related_resources(resources: &Resources, ids: &IdSet) -> (r: Vec<TerminalResource>)
    requires
        resources.wf(),
    ensures
        r@.map_values(|x: TerminalResource| x@) == related_views(resources.map_view(), ids.items_view()),
{
    let ghost m = resources.map_view();
    let mut out: Vec<TerminalResource> = Vec::new();
    let n = ids.size();
    let mut i: usize = 0;
    while i < n
        invariant
            resources.wf(),
            m == resources.map_view(),
            n == ids.items_view().len(),
            i <= n,
            out@.map_values(|x: TerminalResource| x@) == related_views(m, ids.items_view().take(i as int)),
        decreases n - i,
    {
        let ghost before = out@.map_values(|x: TerminalResource| x@);
        let id = ids.at(i);
        proof {
            let t = ids.items_view().take(i + 1);
            assert(t.drop_last() =~= ids.items_view().take(i as int));
            assert(t.last() == ids.items_view()[i as int]);
        }
        match resources.get(id.key()) {
            Some(v) => {
                out.push(v.copy());
                assert(out@.map_values(|x: TerminalResource| x@) =~= before.push(v@));
            },
            None => {},
        }
        i = i + 1;
    }
    assert(ids.items_view().take(n as int) =~= ids.items_view());
    out
}

/// The keys of a sequence of validated resources.
pub open spec fn validated_keys(s: Seq<ValidatedView>) -> Set<KeyView> {
    Set::new(|k: KeyView| exists|i: int| 0 <= i < s.len() && (#[trigger] s[i]).sub.id.key() == k)
}

proof fn lemma_mark_all_dom(m: Map<KeyView, ResourceView>, ks: Seq<KeyView>)
    ensures
        mark_all_spec(m, ks).dom() == m.dom(),
    decreases ks.len(),
{
    if ks.len() > 0 {
        lemma_mark_all_dom(m, ks.drop_last());
        assert(mark_removed_spec(mark_all_spec(m, ks.drop_last()), ks.last()).dom() =~= m.dom());
    }
}

proof fn lemma_insert_all_dom(m: Map<KeyView, ResourceView>, s: Seq<ValidatedView>)
    ensures
        insert_all_spec(m, s).dom() == m.dom().union(validated_keys(s)),
    decreases s.len(),
{
    if s.len() > 0 {
        lemma_insert_all_dom(m, s.drop_last());
        assert forall|k: KeyView| #[trigger] validated_keys(s).contains(k) <==> (validated_keys(s.drop_last()).contains(k)
            || k == s.last().sub.id.key()) by {
            if validated_keys(s).contains(k) {
                let i = choose|i: int| 0 <= i < s.len() && (#[trigger] s[i]).sub.id.key() == k;
                if i < s.len() - 1 {
                    assert(s.drop_last()[i] == s[i]);
                }
            }
            if validated_keys(s.drop_last()).contains(k) {
                let i = choose|i: int| 0 <= i < s.drop_last().len() && (#[trigger] s.drop_last()[i]).sub.id.key() == k;
                assert(s[i] == s.drop_last()[i]);
            }
            if k == s.last().sub.id.key() {
                assert(s[s.len() - 1].sub.id.key() == k);
            }
        }
        assert(insert_all_spec(m, s).dom() =~= m.dom().union(validated_keys(s)));
    }
}

proof fn lemma_modify_all_dom(m: Map<KeyView, ResourceView>, s: Seq<ValidatedView>)
    ensures
        modify_all_spec(m, s).dom() == m.dom(),
    decreases s.len(),
{
    if s.len() > 0 {
        lemma_modify_all_dom(m, s.drop_last());
        assert(modify_all_spec(m, s).dom() =~= m.dom());
    }
}

/// A configuration update loses no resource: the stored ones stay (those
/// removed are only marked, and go once their reconciler deleted them) and
/// the added ones are stored.
pub proof fn lemma_update_keeps_resources(
    m: Map<KeyView, ResourceView>,
    removed: Seq<KeyView>,
    added: Seq<ValidatedView>,
    modified: Seq<ValidatedView>,
)
    ensures
        modify_all_spec(insert_all_spec(mark_all_spec(m, removed), added), modified).dom() == m.dom().union(
            validated_keys(added),
        ),
{
    lemma_mark_all_dom(m, removed);
    lemma_insert_all_dom(mark_all_spec(m, removed), added);
    lemma_modify_all_dom(insert_all_spec(mark_all_spec(m, removed), added), modified);
}

} // verus!
