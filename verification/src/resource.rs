//! Resources as the state manager keeps them, and the messages exchanged
//! with the reconcilers. Specifications and states travel as JSON text.
use vstd::prelude::*;

use crate::model::{
    identity_eq, opt_text, IdClass, Identity, IdentityView, Key, KeyView, Phase, PrivateKind, Status,
    StatusView,
};

verus! {

/// A set of identities (equal identities are kept once).
#[derive(Debug)]
pub struct IdSet {
    items: Vec<Identity>,
}

/// The classes of the identities in `s`.
pub open spec fn id_classes(s: Seq<Identity>) -> Set<IdClass> {
    Set::new(|c: IdClass| exists|i: int| 0 <= i < s.len() && s[i]@.class() == c)
}

/// Whether the identity `v` is shared, or private of the kind `kind`.
pub open spec fn of_kind(v: IdentityView, kind: PrivateKind) -> bool {
    match v {
        IdentityView::Private(k, _) => k == kind,
        IdentityView::Shared(_) => true,
    }
}

impl View for IdSet {
    type V = Set<IdClass>;

    closed spec fn view(&self) -> Set<IdClass> {
        id_classes(self.items@)
    }
}

impl IdSet {
    /// The empty set.
    pub fn new() -> (r: IdSet)
        ensures
            r@ == Set::<IdClass>::empty(),
            r.items_view().len() == 0,
    {
        let r = IdSet { items: Vec::new() };
        assert(r@ =~= Set::<IdClass>::empty());
        r
    }

    pub closed spec fn items_view(&self) -> Seq<Identity> {
        self.items@
    }

    /// Whether an identity with the view `v` (kind included) is stored in
    /// the set.
    pub open spec fn holds_view(&self, v: IdentityView) -> bool {
        exists|i: int| 0 <= i < self.items_view().len() && #[trigger] self.items_view()[i]@ == v
    }

    /// Whether every private identity stored in the set is of the kind
    /// `kind` (the view keeps only whether an identity is shared, and its
    /// key).
    pub open spec fn privates_of_kind(&self, kind: PrivateKind) -> bool {
        forall|i: int| 0 <= i < self.items_view().len() ==> #[trigger] of_kind(self.items_view()[i]@, kind)
    }

    /// The number of stored identities.
    pub fn size(&self) -> (r: usize)
        ensures
            r == self.items_view().len(),
    {
        self.items.len()
    }

    /// The identity stored at position `i`.
    pub fn at(&self, i: usize) -> (r: &Identity)
        requires
            i < self.items_view().len(),
        ensures
            *r == self.items_view()[i as int],
            self@.contains(r@.class()),
    {
        &self.items[i]
    }

    /// The class of every stored identity is in the set.
    pub proof fn lemma_item_in(&self, i: int)
        requires
            0 <= i < self.items_view().len(),
        ensures
            self@.contains(self.items_view()[i]@.class()),
    {
    }

    /// Every class of the set is the class of some stored identity.
    pub proof fn lemma_items_cover(&self, c: IdClass)
        requires
            self@.contains(c),
        ensures
            exists|i: int| 0 <= i < self.items_view().len() && self.items_view()[i]@.class() == c,
    {
        let i = choose|i: int| 0 <= i < self.items@.len() && self.items@[i]@.class() == c;
        assert(self.items_view()[i]@.class() == c);
    }

    /// Whether the set holds no identity.
    pub fn is_empty(&self) -> (r: bool)
        ensures
            r == (self@ == Set::<IdClass>::empty()),
    {
        if self.items.len() == 0 {
            assert(self@ =~= Set::<IdClass>::empty());
            true
        } else {
            assert(self@.contains(self.items@[0]@.class()));
            false
        }
    }

    /// Whether an identity equal to `id` is in the set.
    pub fn contains(&self, id: &Identity) -> (r: bool)
        ensures
            r == self@.contains(id@.class()),
    {
        let mut i: usize = 0;
        while i < self.items.len()
            invariant
                i <= self.items@.len(),
                forall|j: int| 0 <= j < i ==> self.items@[j]@.class() != id@.class(),
            decreases self.items@.len() - i,
        {
            if identity_eq(&self.items[i], id) {
                return true;
            }
            i = i + 1;
        }
        false
    }

    /// Adds `id` unless an equal identity is there already.
    pub fn insert(&mut self, id: Identity)
        ensures
            final(self)@ == old(self)@.insert(id@.class()),
            forall|k: PrivateKind|
                old(self).privates_of_kind(k) && of_kind(id@, k) ==> #[trigger] final(self).privates_of_kind(k),
            forall|v: IdentityView| #[trigger] final(self).holds_view(v) ==> old(self).holds_view(v) || v == id@,
    {
        if !self.contains(&id) {
            let ghost s = self.items@;
            self.items.push(id);
            proof {
                let t = self.items@;
                assert forall|c: IdClass| #[trigger] id_classes(t).contains(c) == id_classes(
                    s,
                ).insert(id@.class()).contains(c) by {
                    if id_classes(t).contains(c) {
                        let j = choose|j: int| 0 <= j < t.len() && t[j]@.class() == c;
                        if j < s.len() {
                            assert(t[j] == s[j]);
                        }
                    }
                    if id_classes(s).contains(c) {
                        let j = choose|j: int| 0 <= j < s.len() && s[j]@.class() == c;
                        assert(t[j] == s[j]);
                    }
                    if c == id@.class() {
                        assert(t[s.len() as int]@.class() == c);
                    }
                }
                assert(self@ =~= old(self)@.insert(id@.class()));
                assert forall|v: IdentityView| #[trigger] self.holds_view(v) implies old(self).holds_view(v) || v == id@ by {
                    let j = choose|j: int| 0 <= j < t.len() && #[trigger] t[j]@ == v;
                    assert(old(self).items_view() == s);
                    if j < s.len() {
                        assert(t[j] == s[j]);
                        assert(old(self).items_view()[j]@ == v);
                    }
                }
                assert forall|k: PrivateKind| old(self).privates_of_kind(k) && of_kind(id@, k) implies #[trigger] self.privates_of_kind(k) by {
                    assert forall|i: int| 0 <= i < t.len() implies #[trigger] of_kind(t[i]@, k) by {
                        if i < s.len() {
                            assert(t[i] == s[i]);
                            assert(old(self).items_view() == s);
                            assert(of_kind(old(self).items_view()[i]@, k));
                        }
                    }
                }
            }
        } else {
            assert(self@ =~= old(self)@.insert(id@.class()));
        }
    }

    /// Removes every identity equal to `id`.
    pub fn remove(&mut self, id: &Identity)
        ensures
            final(self)@ == old(self)@.remove(id@.class()),
    {
        let mut kept: Vec<Identity> = Vec::new();
        let n = self.items.len();
        let mut rest: Vec<Identity> = Vec::new();
        std::mem::swap(&mut rest, &mut self.items);
        let ghost all = rest@;
        let mut i: usize = 0;
        while i < n
            invariant
                n == all.len(),
                i <= n,
                rest@ == all.subrange(i as int, n as int),
                id_classes(kept@) == id_classes(all.subrange(0, i as int)).remove(id@.class()),
            decreases n - i,
        {
            let x = rest.remove(0);
            let ghost before = kept@;
            proof {
                assert(x == all[i as int]);
            }
            if !identity_eq(&x, id) {
                kept.push(x);
            }
            proof {
                let p = all.subrange(0, i + 1);
                let q = all.subrange(0, i as int);
                assert forall|c: IdClass| #[trigger] id_classes(kept@).contains(c) == id_classes(p).remove(
                    id@.class(),
                ).contains(c) by {
                    if id_classes(kept@).contains(c) {
                        let j = choose|j: int| 0 <= j < kept@.len() && kept@[j]@.class() == c;
                        if j < before.len() {
                            assert(kept@[j] == before[j]);
                            assert(id_classes(before).contains(c));
                            let k = choose|k: int| 0 <= k < q.len() && q[k]@.class() == c;
                            assert(p[k] == q[k]);
                        } else {
                            assert(p[i as int] == x);
                        }
                    }
                    if id_classes(p).contains(c) && c != id@.class() {
                        let j = choose|j: int| 0 <= j < p.len() && p[j]@.class() == c;
                        if j < i {
                            assert(q[j] == p[j]);
                            assert(id_classes(before).contains(c));
                            let k = choose|k: int| 0 <= k < before.len() && before[k]@.class() == c;
                            assert(kept@[k] == before[k]);
                        } else {
                            assert(kept@[before.len() as int] == x);
                        }
                    }
                }
                assert(id_classes(kept@) =~= id_classes(p).remove(id@.class()));
                assert(rest@ =~= all.subrange(i + 1, n as int));
            }
            i = i + 1;
        }
        assert(all.subrange(0, n as int) =~= all);
        self.items = kept;
    }

    /// A copy of the set.
    pub fn copy(&self) -> (r: IdSet)
        ensures
            r@ == self@,
            r.items_view().len() == self.items_view().len(),
    {
        let mut items: Vec<Identity> = Vec::new();
        let mut i: usize = 0;
        while i < self.items.len()
            invariant
                i <= self.items@.len(),
                items@.len() == i,
                forall|j: int| 0 <= j < i ==> #[trigger] items@[j]@ == self.items@[j]@,
            decreases self.items@.len() - i,
        {
            items.push(self.items[i].copy());
            i = i + 1;
        }
        let r = IdSet { items };
        proof {
            assert forall|c: IdClass| #[trigger] r@.contains(c) == self@.contains(c) by {
                if r@.contains(c) {
                    let j = choose|j: int| 0 <= j < r.items@.len() && r.items@[j]@.class() == c;
                    assert(self.items@[j]@.class() == c);
                }
                if self@.contains(c) {
                    let j = choose|j: int| 0 <= j < self.items@.len() && self.items@[j]@.class() == c;
                    assert(r.items@[j]@.class() == c);
                }
            }
            assert(r@ =~= self@);
        }
        r
    }

    /// The set of the identities of a list (the first of equal ones is kept).
    pub fn from_vec(v: Vec<Identity>) -> (r: IdSet)
        ensures
            r@ == id_classes(v@),
            forall|x: IdentityView| #[trigger] r.holds_view(x) ==> exists|j: int| 0 <= j < v@.len() && v@[j]@ == x,
    {
        let mut r = IdSet::new();
        let n = v.len();
        let mut rest = v;
        let ghost all = rest@;
        let mut i: usize = 0;
        while i < n
            invariant
                n == all.len(),
                i <= n,
                rest@ == all.subrange(i as int, n as int),
                r@ == id_classes(all.subrange(0, i as int)),
                forall|y: IdentityView| #[trigger] r.holds_view(y) ==> exists|j: int| 0 <= j < i && all[j]@ == y,
            decreases n - i,
        {
            let x = rest.remove(0);
            proof {
                assert(x == all[i as int]);
            }
            r.insert(x);
            proof {
                let p = all.subrange(0, i + 1);
                let q = all.subrange(0, i as int);
                assert forall|c: IdClass| #[trigger] id_classes(p).contains(c) == id_classes(q).insert(
                    x@.class(),
                ).contains(c) by {
                    if id_classes(p).contains(c) {
                        let j = choose|j: int| 0 <= j < p.len() && p[j]@.class() == c;
                        if j < i {
                            assert(q[j] == p[j]);
                        }
                    }
                    if id_classes(q).contains(c) {
                        let j = choose|j: int| 0 <= j < q.len() && q[j]@.class() == c;
                        assert(p[j] == q[j]);
                    }
                    if c == x@.class() {
                        assert(p[i as int] == x);
                    }
                }
                assert(id_classes(p) =~= id_classes(q).insert(x@.class()));
                assert(rest@ =~= all.subrange(i + 1, n as int));
                assert forall|y: IdentityView| #[trigger] r.holds_view(y) implies exists|j: int| 0 <= j < i + 1 && all[j]@ == y by {
                    if y == x@ {
                        assert(all[i as int]@ == y);
                    }
                }
            }
            i = i + 1;
        }
        assert(all.subrange(0, n as int) =~= all);
        r
    }

    /// The identities of this set that are not in `other`.
    pub fn difference(&self, other: &IdSet) -> (r: Vec<Identity>)
        ensures
            id_classes(r@) == self@.difference(other@),
    {
        let mut out: Vec<Identity> = Vec::new();
        let mut i: usize = 0;
        while i < self.items.len()
            invariant
                i <= self.items@.len(),
                id_classes(out@) == id_classes(self.items@.subrange(0, i as int)).difference(other@),
            decreases self.items@.len() - i,
        {
            let ghost before = out@;
            if !other.contains(&self.items[i]) {
                out.push(self.items[i].copy());
            }
            proof {
                let p = self.items@.subrange(0, i + 1);
                let q = self.items@.subrange(0, i as int);
                let x = self.items@[i as int];
                assert forall|c: IdClass| #[trigger] id_classes(out@).contains(c) == id_classes(p).difference(
                    other@,
                ).contains(c) by {
                    if id_classes(out@).contains(c) {
                        let j = choose|j: int| 0 <= j < out@.len() && out@[j]@.class() == c;
                        if j < before.len() {
                            assert(out@[j] == before[j]);
                            assert(id_classes(before).contains(c));
                            let k = choose|k: int| 0 <= k < q.len() && q[k]@.class() == c;
                            assert(p[k] == q[k]);
                        } else {
                            assert(p[i as int] == x);
                        }
                    }
                    if id_classes(p).contains(c) && !other@.contains(c) {
                        let j = choose|j: int| 0 <= j < p.len() && p[j]@.class() == c;
                        if j < i {
                            assert(q[j] == p[j]);
                            assert(id_classes(before).contains(c));
                            let k = choose|k: int| 0 <= k < before.len() && before[k]@.class() == c;
                            assert(out@[k] == before[k]);
                        } else {
                            assert(out@[before.len() as int]@ == x@);
                        }
                    }
                }
                assert(id_classes(out@) =~= id_classes(p).difference(other@));
            }
            i = i + 1;
        }
        assert(self.items@.subrange(0, self.items@.len() as int) =~= self.items@);
        out
    }
}

/// The abstract value of a [`TerminalResource`].
pub struct ResourceView {
    pub id: IdentityView,
    pub phase: Phase,
    pub status: StatusView,
    pub spec: Seq<char>,
    pub derived_spec: Seq<char>,
    pub state: Option<Seq<char>>,
    pub children: Set<IdClass>,
    pub dependencies: Set<IdClass>,
    pub dependents: Set<IdClass>,
}

/// A resource as the state manager stores it, with its relations given by
/// identities.
#[derive(Debug)]
pub struct TerminalResource {
    pub id: Identity,
    pub phase: Phase,
    pub status: Status,
    pub spec: String,
    pub derived_spec: String,
    pub state: Option<String>,
    pub children: IdSet,
    pub dependencies: IdSet,
    pub dependents: IdSet,
}

impl View for TerminalResource {
    type V = ResourceView;

    open spec fn view(&self) -> ResourceView {
        ResourceView {
            id: self.id@,
            phase: self.phase,
            status: self.status@,
            spec: self.spec@,
            derived_spec: self.derived_spec@,
            state: opt_text(self.state),
            children: self.children@,
            dependencies: self.dependencies@,
            dependents: self.dependents@,
        }
    }
}

impl TerminalResource {
    /// A copy of the resource.
    pub fn copy(&self) -> (r: TerminalResource)
        ensures
            r@ == self@,
    {
        TerminalResource {
            id: self.id.copy(),
            phase: self.phase,
            status: self.status.copy(),
            spec: self.spec.clone(),
            derived_spec: self.derived_spec.clone(),
            state: match &self.state {
                Some(s) => Some(s.clone()),
                None => None,
            },
            children: self.children.copy(),
            dependencies: self.dependencies.copy(),
            dependents: self.dependents.copy(),
        }
    }

    /// A resource with nothing in it, used as a stand-in while a stored
    /// resource is being changed.
    pub(crate) fn placeholder() -> (r: TerminalResource)
        ensures
            r@ == (ResourceView {
                id: IdentityView::Shared(KeyView { schema: Seq::empty(), name: None }),
                phase: Phase::Running,
                status: StatusView::Unknown,
                spec: Seq::empty(),
                derived_spec: Seq::empty(),
                state: None,
                children: Set::empty(),
                dependencies: Set::empty(),
                dependents: Set::empty(),
            }),
    {
        TerminalResource {
            id: Identity::Shared(Key { schema: String::new(), name: None }),
            phase: Phase::Running,
            status: Status::Unknown,
            spec: String::new(),
            derived_spec: String::new(),
            state: None,
            children: IdSet::new(),
            dependencies: IdSet::new(),
            dependents: IdSet::new(),
        }
    }
}

/// A resource to create or update: its identity and its specification.
#[derive(Debug)]
pub struct SubResourceCreate {
    pub id: Identity,
    pub spec: String,
}

pub struct SubResourceView {
    pub id: IdentityView,
    pub spec: Seq<char>,
}

impl View for SubResourceCreate {
    type V = SubResourceView;

    open spec fn view(&self) -> SubResourceView {
        SubResourceView { id: self.id@, spec: self.spec@ }
    }
}

impl SubResourceCreate {
    pub fn copy(&self) -> (r: SubResourceCreate)
        ensures
            r@ == self@,
    {
        SubResourceCreate { id: self.id.copy(), spec: self.spec.clone() }
    }
}

/// What a reconciler answers to a validation: the derived specification,
/// the children and the dependencies of the resource.
#[derive(Debug)]
pub struct ValidateResponse {
    pub derived_spec: String,
    pub children: Vec<SubResourceCreate>,
    pub dependencies: IdSet,
}

/// A copy of a list of resources to create.
pub fn copy_subs(v: &Vec<SubResourceCreate>) -> (r: Vec<SubResourceCreate>)
    ensures
        r@.len() == v@.len(),
        forall|i: int| 0 <= i < v@.len() ==> #[trigger] r@[i]@ == v@[i]@,
{
    let mut r: Vec<SubResourceCreate> = Vec::new();
    let mut i: usize = 0;
    while i < v.len()
        invariant
            i <= v@.len(),
            r@.len() == i,
            forall|j: int| 0 <= j < i ==> #[trigger] r@[j]@ == v@[j]@,
        decreases v@.len() - i,
    {
        r.push(v[i].copy());
        i = i + 1;
    }
    r
}

impl ValidateResponse {
    pub fn copy(&self) -> (r: ValidateResponse)
        ensures
            r.derived_spec@ == self.derived_spec@,
            r.dependencies@ == self.dependencies@,
            r.children@.len() == self.children@.len(),
            forall|i: int| 0 <= i < self.children@.len() ==> #[trigger] r.children@[i]@ == self.children@[i]@,
    {
        ValidateResponse {
            derived_spec: self.derived_spec.clone(),
            children: copy_subs(&self.children),
            dependencies: self.dependencies.copy(),
        }
    }
}

/// What a reconciler answers to a reconciliation.
#[derive(Debug)]
pub struct ResourceResponse {
    pub status: Status,
    pub state: Option<String>,
    pub children: Vec<SubResourceCreate>,
    pub dependencies: IdSet,
}

/// A resource as a reconciler receives it: its own typed specification,
/// derived specification and state, with its children, dependencies and
/// dependents as stored.
pub struct Resource<T, U, V> {
    pub id: Identity,
    pub phase: Phase,
    pub status: Status,
    pub spec: T,
    pub derived_spec: U,
    pub state: Option<V>,
    pub children: Vec<TerminalResource>,
    pub dependencies: Vec<TerminalResource>,
    pub dependents: Vec<TerminalResource>,
}

} // verus!
