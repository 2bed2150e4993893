//! The system manager's model: resources named by schema and name, the
//! deadlines at which they are reconciled, and how a pushed configuration
//! replaces the stored one.
use vstd::prelude::*;

use crate::keymap::KeyMap;
use crate::model::{Key, KeyView};
use crate::text::{push_char, push_str, str_eq};

verus! {

/// A resource of the system manager: its schema and its name.
#[derive(Debug)]
pub struct Identity {
    pub schema: String,
    pub name: String,
}

impl Identity {
    /// The key under which the resource is kept: its schema and name.
    pub open spec fn key_view(&self) -> KeyView {
        KeyView { schema: self.schema@, name: Some(self.name@) }
    }

    pub fn key(&self) -> (r: Key)
        ensures
            r@ == self.key_view(),
    {
        Key { schema: self.schema.clone(), name: Some(self.name.clone()) }
    }

    /// The identity as text: `schema/name`.
    pub fn to_text(&self) -> (r: String)
        ensures
            r@ == self.schema@ + seq!['/'] + self.name@,
    {
        let mut s = String::new();
        push_str(&mut s, self.schema.as_str());
        push_char(&mut s, '/');
        push_str(&mut s, self.name.as_str());
        assert(s@ =~= self.schema@ + seq!['/'] + self.name@);
        s
    }
}

/// A specification, encoded.
#[derive(Debug)]
pub struct Spec(pub Vec<u8>);

/// A state, encoded.
#[derive(Debug)]
pub struct State(pub Vec<u8>);

/// Whether a resource has a state yet.
#[derive(Debug)]
pub enum ResourceState {
    Unset,
    /// A state was set (`Set` in the stored form).
    Assigned(State),
}

/// A resource configured by the user.
#[derive(Debug)]
pub struct UserConfig {
    pub schema: String,
    pub name: String,
    pub spec: Spec,
    pub state: ResourceState,
}

/// A resource created on behalf of another one, its owner.
#[derive(Debug)]
pub struct DynamicResource {
    pub schema: String,
    pub name: String,
    pub owner: Identity,
    pub spec: Spec,
    pub state: ResourceState,
}

/// A resource of the system manager.
#[derive(Debug)]
pub enum Resource {
    UserConfig(UserConfig),
    DynamicResource(DynamicResource),
}

/// A resource as plain values: whether it is configured by the user, its
/// specification, and its state (if set).
pub struct ResourceModel {
    pub user: bool,
    pub schema: Seq<char>,
    pub name: Seq<char>,
    pub spec: Seq<u8>,
    pub state: Option<Seq<u8>>,
}

pub open spec fn state_model(s: ResourceState) -> Option<Seq<u8>> {
    match s {
        ResourceState::Unset => None,
        ResourceState::Assigned(v) => Some(v.0@),
    }
}

impl View for Resource {
    type V = ResourceModel;

    open spec fn view(&self) -> ResourceModel {
        match self {
            Resource::UserConfig(c) => ResourceModel {
                user: true,
                schema: c.schema@,
                name: c.name@,
                spec: c.spec.0@,
                state: state_model(c.state),
            },
            Resource::DynamicResource(d) => ResourceModel {
                user: false,
                schema: d.schema@,
                name: d.name@,
                spec: d.spec.0@,
                state: state_model(d.state),
            },
        }
    }
}

// ---------------------------------------------------------------- deadlines

/// The deadlines at which resources are reconciled, by key.
pub type Deadlines = KeyMap<u64>;

/// The deadline of `k` once scheduled at `when` at the earliest: `when`, or
/// a later deadline that was already set.
pub open spec fn at_earliest(m: Map<KeyView, u64>, k: KeyView, when: u64) -> Map<KeyView, u64> {
    if m.dom().contains(k) && m[k] >= when {
        m
    } else {
        m.insert(k, when)
    }
}

/// The deadline of `k` once scheduled at `when` at the latest: `when`, or an
/// earlier deadline that was already set.
pub open spec fn at_latest(m: Map<KeyView, u64>, k: KeyView, when: u64) -> Map<KeyView, u64> {
    if m.dom().contains(k) && m[k] <= when {
        m
    } else {
        m.insert(k, when)
    }
}

/// Schedules a reconciliation of `id` to happen at `when` at the earliest:
/// an earlier one is moved to `when`, a later one is kept, and one is added
/// where there was none.
pub fn schedule_reconcile_at_earliest(deadlines: &mut Deadlines, id: &Identity, when: u64)
    requires
        old(deadlines).wf(),
    ensures
        final(deadlines).wf(),
        final(deadlines).map_view() == at_earliest(old(deadlines).map_view(), id.key_view(), when),
{
    let k = id.key();
    let keep = match deadlines.get(&k) {
        Some(existing) => *existing >= when,
        None => false,
    };
    if !keep {
        deadlines.insert(k, when);
    } else {
        assert(deadlines.map_view() == at_earliest(deadlines.map_view(), id.key_view(), when));
    }
}

/// Schedules a reconciliation of `id` to happen at `when` at the latest: a
/// later one is moved to `when`, an earlier one is kept, and one is added
/// where there was none.
pub fn schedule_reconcile_at_latest(deadlines: &mut Deadlines, id: &Identity, when: u64)
    requires
        old(deadlines).wf(),
    ensures
        final(deadlines).wf(),
        final(deadlines).map_view() == at_latest(old(deadlines).map_view(), id.key_view(), when),
{
    let k = id.key();
    let keep = match deadlines.get(&k) {
        Some(existing) => *existing <= when,
        None => false,
    };
    if !keep {
        deadlines.insert(k, when);
    }
}

/// Like `schedule_reconcile_at_earliest`, `delay` after `now`.
pub fn schedule_reconcile_at_earliest_in(deadlines: &mut Deadlines, id: &Identity, now: u64, delay: u64)
    requires
        old(deadlines).wf(),
        now + delay <= u64::MAX,
    ensures
        final(deadlines).wf(),
        final(deadlines).map_view() == at_earliest(old(deadlines).map_view(), id.key_view(), (now + delay) as u64),
{
    schedule_reconcile_at_earliest(deadlines, id, now + delay);
}

/// Like `schedule_reconcile_at_latest`, `delay` after `now`.
pub fn schedule_reconcile_at_latest_in(deadlines: &mut Deadlines, id: &Identity, now: u64, delay: u64)
    requires
        old(deadlines).wf(),
        now + delay <= u64::MAX,
    ensures
        final(deadlines).wf(),
        final(deadlines).map_view() == at_latest(old(deadlines).map_view(), id.key_view(), (now + delay) as u64),
{
    schedule_reconcile_at_latest(deadlines, id, now + delay);
}

/// Scheduled at the earliest, a reconciliation happens no sooner than asked
/// nor sooner than it was going to; only its own deadline changes.
pub proof fn lemma_earliest_never_sooner(m: Map<KeyView, u64>, k: KeyView, when: u64)
    ensures
        at_earliest(m, k, when).dom().contains(k),
        at_earliest(m, k, when)[k] >= when,
        m.dom().contains(k) ==> at_earliest(m, k, when)[k] >= m[k],
        at_earliest(m, k, when)[k] == when || at_earliest(m, k, when)[k] == m[k],
        forall|j: KeyView| j != k ==> (#[trigger] at_earliest(m, k, when).dom().contains(j) == m.dom().contains(j)
            && (m.dom().contains(j) ==> at_earliest(m, k, when)[j] == m[j])),
{
}

/// Scheduled at the latest, a reconciliation happens no later than asked
/// nor later than it was going to; only its own deadline changes.
pub proof fn lemma_latest_never_later(m: Map<KeyView, u64>, k: KeyView, when: u64)
    ensures
        at_latest(m, k, when).dom().contains(k),
        at_latest(m, k, when)[k] <= when,
        m.dom().contains(k) ==> at_latest(m, k, when)[k] <= m[k],
        at_latest(m, k, when)[k] == when || at_latest(m, k, when)[k] == m[k],
        forall|j: KeyView| j != k ==> (#[trigger] at_latest(m, k, when).dom().contains(j) == m.dom().contains(j)
            && (m.dom().contains(j) ==> at_latest(m, k, when)[j] == m[j])),
{
}

/// Scheduling at the earliest twice is scheduling once at the later of the
/// two times, in either order.
pub proof fn lemma_earliest_composes(m: Map<KeyView, u64>, k: KeyView, a: u64, b: u64)
    ensures
        at_earliest(at_earliest(m, k, a), k, b) == at_earliest(m, k, if a >= b { a } else { b }),
        at_earliest(at_earliest(m, k, a), k, b) == at_earliest(at_earliest(m, k, b), k, a),
{
    assert(at_earliest(at_earliest(m, k, a), k, b) =~= at_earliest(m, k, if a >= b { a } else { b }));
    assert(at_earliest(at_earliest(m, k, b), k, a) =~= at_earliest(m, k, if a >= b { a } else { b }));
}

/// Scheduling at the latest twice is scheduling once at the earlier of the
/// two times, in either order.
pub proof fn lemma_latest_composes(m: Map<KeyView, u64>, k: KeyView, a: u64, b: u64)
    ensures
        at_latest(at_latest(m, k, a), k, b) == at_latest(m, k, if a <= b { a } else { b }),
        at_latest(at_latest(m, k, a), k, b) == at_latest(at_latest(m, k, b), k, a),
{
    assert(at_latest(at_latest(m, k, a), k, b) =~= at_latest(m, k, if a <= b { a } else { b }));
    assert(at_latest(at_latest(m, k, b), k, a) =~= at_latest(m, k, if a <= b { a } else { b }));
}

// ---------------------------------------------------------------- pushes

/// A resource of a pushed configuration: schema, name, encoded
/// specification.
#[derive(Debug)]
pub struct ApiResource {
    pub schema: String,
    pub name: String,
    pub spec: Vec<u8>,
}

/// The resources of the system manager, by key.
pub type SystemResources = KeyMap<Resource>;

/// The key of a pushed resource.
pub open spec fn api_key_of(r: ApiResource) -> KeyView {
    KeyView { schema: r.schema@, name: Some(r.name@) }
}

/// The keys of the pushed resources.
pub open spec fn pushed_keys(s: Seq<ApiResource>) -> Set<KeyView> {
    Set::new(|k: KeyView| exists|i: int| 0 <= i < s.len() && api_key_of(#[trigger] s[i]) == k)
}

/// The stored resources once the pushed ones are recorded in order: a stored
/// configuration takes the pushed specification, a new one is added with no
/// state.
pub open spec fn recorded(m: Map<KeyView, ResourceModel>, s: Seq<ApiResource>) -> Map<KeyView, ResourceModel>
    decreases s.len(),
{
    if s.len() == 0 {
        m
    } else {
        let before = recorded(m, s.drop_last());
        let r = s.last();
        let k = api_key_of(r);
        if before.dom().contains(k) {
            before.insert(k, ResourceModel { spec: r.spec@, ..before[k] })
        } else {
            before.insert(
                k,
                ResourceModel { user: true, schema: r.schema@, name: r.name@, spec: r.spec@, state: None },
            )
        }
    }
}

/// Whether a stored resource of the install schema remains.
pub open spec fn is_installed(m: Map<KeyView, ResourceModel>) -> bool {
    exists|k: KeyView| #[trigger] m.dom().contains(k) && k.schema == "containeros::system::install"@
}

/// What a push decides besides the stored resources: whether the system was
/// installed, and the position of the installation document (if any).
pub struct SystemPush {
    pub installed: bool,
    pub install_document: Option<usize>,
}

fn contains_pushed(pushed: &Vec<ApiResource>, k: &Key) -> (r: bool)
    ensures
        r == pushed_keys(pushed@).contains(k@),
{
    let mut i: usize = 0;
    while i < pushed.len()
        invariant
            i <= pushed@.len(),
            forall|j: int| 0 <= j < i ==> api_key_of(#[trigger] pushed@[j]) != k@,
        decreases pushed@.len() - i,
    {
        let r = &pushed[i];
        let same = match &k.name {
            Some(n) => str_eq(r.schema.as_str(), k.schema.as_str()) && str_eq(r.name.as_str(), n.as_str()),
            None => false,
        };
        if same {
            assert(api_key_of(pushed@[i as int]) == k@);
            return true;
        }
        i = i + 1;
    }
    false
}

fn copy_model(r: &Resource) -> (c: Resource)
    ensures
        c@ == r@,
{
    match r {
        Resource::UserConfig(u) => Resource::UserConfig(UserConfig {
            schema: u.schema.clone(),
            name: u.name.clone(),
            spec: Spec(u.spec.0.clone()),
            state: copy_state(&u.state),
        }),
        Resource::DynamicResource(d) => Resource::DynamicResource(DynamicResource {
            schema: d.schema.clone(),
            name: d.name.clone(),
            owner: Identity { schema: d.owner.schema.clone(), name: d.owner.name.clone() },
            spec: Spec(d.spec.0.clone()),
            state: copy_state(&d.state),
        }),
    }
}

fn copy_state(s: &ResourceState) -> (c: ResourceState)
    ensures
        state_model(c) == state_model(*s),
{
    match s {
        ResourceState::Unset => ResourceState::Unset,
        ResourceState::Assigned(v) => ResourceState::Assigned(State(v.0.clone())),
    }
}

/// Keeps the stored resources that the push names.
pub fn retain_pushed(stored: &SystemResources, pushed: &Vec<ApiResource>) -> (r: SystemResources)
    requires
        stored.wf(),
    ensures
        r.wf(),
        r.map_view() == stored.map_view().restrict(pushed_keys(pushed@)),
{
    let ghost m = stored.map_view();
    let mut out: SystemResources = KeyMap::new();
    let n = stored.size();
    let mut i: usize = 0;
    while i < n
        invariant
            stored.wf(),
            out.wf(),
            m == stored.map_view(),
            n == stored.entries_view().len(),
            i <= n,
            out.map_view() == m.restrict(
                Set::new(|k: KeyView| pushed_keys(pushed@).contains(k) && exists|j: int| 0 <= j < i && #[trigger] stored.entries_view()[j].0@ == k),
            ),
        decreases n - i,
    {
        let k = stored.key_at(i);
        let v = stored.value_at(i);
        proof {
            stored.lemma_position_key(i as int);
        }
        if contains_pushed(pushed, k) {
            out.insert(k.copy(), copy_model(v));
        }
        proof {
            let ix = i as int;
            let next = Set::new(|x: KeyView| pushed_keys(pushed@).contains(x) && exists|j: int| 0 <= j < ix + 1 && #[trigger] stored.entries_view()[j].0@ == x);
            assert forall|x: KeyView| #[trigger] next.contains(x) <==> (pushed_keys(pushed@).contains(x) && (
                (exists|j: int| 0 <= j < ix && #[trigger] stored.entries_view()[j].0@ == x) || x == k@)) by {
                if next.contains(x) {
                    let j = choose|j: int| 0 <= j < ix + 1 && #[trigger] stored.entries_view()[j].0@ == x;
                    if j < ix {
                        assert(0 <= j < ix && stored.entries_view()[j].0@ == x);
                    }
                }
                if x == k@ {
                    assert(stored.entries_view()[ix].0@ == x);
                }
            }
            assert(out.map_view() =~= m.restrict(next));
        }
        i = i + 1;
    }
    proof {
        let all = Set::new(|k: KeyView| pushed_keys(pushed@).contains(k) && exists|j: int| 0 <= j < n && #[trigger] stored.entries_view()[j].0@ == k);
        assert forall|k: KeyView| m.dom().contains(k) implies (#[trigger] all.contains(k) == pushed_keys(pushed@).contains(k)) by {
            stored.lemma_key_has_position(k);
            let j = choose|j: int| 0 <= j < stored.entries_view().len() && stored.entries_view()[j].0@ == k;
            assert(stored.entries_view()[j].0@ == k);
        }
        assert(out.map_view() =~= m.restrict(pushed_keys(pushed@)));
    }
    out
}

/// Records the pushed resources over the stored ones, in order.
pub fn record_pushed(stored: &mut SystemResources, pushed: &Vec<ApiResource>)
    requires
        old(stored).wf(),
        forall|i: int|
            0 <= i < pushed@.len() && #[trigger] old(stored).map_view().dom().contains(api_key_of(pushed@[i]))
                ==> old(stored).map_view()[api_key_of(pushed@[i])].user,
    ensures
        final(stored).wf(),
        final(stored).map_view() == recorded(old(stored).map_view(), pushed@),
{
    let ghost m0 = stored.map_view();
    let mut i: usize = 0;
    while i < pushed.len()
        invariant
            stored.wf(),
            i <= pushed@.len(),
            stored.map_view() == recorded(m0, pushed@.take(i as int)),
            forall|j: int|
                0 <= j < pushed@.len() && #[trigger] m0.dom().contains(api_key_of(pushed@[j])) ==> m0[api_key_of(pushed@[j])].user,
            forall|k: KeyView| #[trigger] stored.map_view().dom().contains(k) && !m0.dom().contains(k) ==> stored.map_view()[k].user,
            forall|k: KeyView| #[trigger] m0.dom().contains(k) ==> stored.map_view().dom().contains(k) && stored.map_view()[k].user == m0[k].user,
        decreases pushed@.len() - i,
    {
        let r = &pushed[i];
        let k = Key { schema: r.schema.clone(), name: Some(r.name.clone()) };
        proof {
            let t = pushed@.take(i + 1);
            assert(t.drop_last() =~= pushed@.take(i as int));
            assert(t.last() == pushed@[i as int]);
            assert(k@ == api_key_of(pushed@[i as int]));
        }
        let spec = Spec(r.spec.clone());
        match stored.find(&k) {
            Some(p) => {
                let old_v = stored.swap_value_at(p, Resource::UserConfig(UserConfig {
                    schema: String::new(),
                    name: String::new(),
                    spec: Spec(Vec::new()),
                    state: ResourceState::Unset,
                }));
                let updated = match old_v {
                    Resource::UserConfig(u) => Resource::UserConfig(UserConfig { spec, ..u }),
                    Resource::DynamicResource(d) => {
                        proof {
                            assert(false);
                        }
                        Resource::DynamicResource(d)
                    },
                };
                stored.set_value_at(p, updated);
            },
            None => {
                stored.insert(
                    k,
                    Resource::UserConfig(UserConfig {
                        schema: r.schema.clone(),
                        name: r.name.clone(),
                        spec,
                        state: ResourceState::Unset,
                    }),
                );
            },
        }
        i = i + 1;
    }
    proof {
        assert(pushed@.take(pushed@.len() as int) =~= pushed@);
    }
}

/// The position of the first pushed installation document.
pub fn find_install_document(pushed: &Vec<ApiResource>) -> (r: Option<usize>)
    ensures
        (match r {
            Some(i) => i < pushed@.len() && pushed@[i as int].schema@ == "config#containeros::system::install"@
                && forall|j: int| 0 <= j < i ==> (#[trigger] pushed@[j]).schema@ != "config#containeros::system::install"@,
            None => forall|j: int| 0 <= j < pushed@.len() ==> (#[trigger] pushed@[j]).schema@ != "config#containeros::system::install"@,
        }),
{
    let mut i: usize = 0;
    while i < pushed.len()
        invariant
            i <= pushed@.len(),
            forall|j: int| 0 <= j < i ==> (#[trigger] pushed@[j]).schema@ != "config#containeros::system::install"@,
        decreases pushed@.len() - i,
    {
        if str_eq(pushed[i].schema.as_str(), "config#containeros::system::install") {
            return Some(i);
        }
        i = i + 1;
    }
    None
}

/// Whether a stored resource of the install schema remains.
pub fn installed(stored: &SystemResources) -> (r: bool)
    requires
        stored.wf(),
    ensures
        r == is_installed(stored.map_view()),
{
    let n = stored.size();
    let mut i: usize = 0;
    while i < n
        invariant
            stored.wf(),
            n == stored.entries_view().len(),
            i <= n,
            forall|j: int| 0 <= j < i ==> (#[trigger] stored.entries_view()[j]).0@.schema != "containeros::system::install"@,
        decreases n - i,
    {
        let k = stored.key_at(i);
        if str_eq(k.schema.as_str(), "containeros::system::install") {
            proof {
                stored.lemma_position_key(i as int);
            }
            return true;
        }
        i = i + 1;
    }
    proof {
        if is_installed(stored.map_view()) {
            let k = choose|k: KeyView| #[trigger] stored.map_view().dom().contains(k) && k.schema == "containeros::system::install"@;
            stored.lemma_key_has_position(k);
            let j = choose|j: int| 0 <= j < stored.entries_view().len() && stored.entries_view()[j].0@ == k;
            assert(stored.entries_view()[j].0@.schema != "containeros::system::install"@);
        }
    }
    false
}

/// Whether some pushed resource is an installation document.
pub open spec fn has_install_document(pushed: Seq<ApiResource>) -> bool {
    exists|j: int| 0 <= j < pushed.len() && (#[trigger] pushed[j]).schema@ == "config#containeros::system::install"@
}

/// Replaces the stored configuration by a pushed one: the stored resources
/// the push does not name go; each pushed resource is recorded (a stored
/// configuration takes its new specification, a new one is added with no
/// state). Says whether the system was installed and where the installation
/// document is. A pushed resource may not name a resource created on behalf
/// of another one, and an installed system needs an installation document.
pub fn push_config(stored: &mut SystemResources, pushed: &Vec<ApiResource>) -> (r: SystemPush)
    requires
        old(stored).wf(),
        forall|i: int|
            0 <= i < pushed@.len() && #[trigger] old(stored).map_view().dom().contains(api_key_of(pushed@[i]))
                ==> old(stored).map_view()[api_key_of(pushed@[i])].user,
        is_installed(old(stored).map_view().restrict(pushed_keys(pushed@))) ==> has_install_document(pushed@),
    ensures
        final(stored).wf(),
        final(stored).map_view() == recorded(old(stored).map_view().restrict(pushed_keys(pushed@)), pushed@),
        r.installed == is_installed(old(stored).map_view().restrict(pushed_keys(pushed@))),
        (match r.install_document {
            Some(i) => i < pushed@.len() && pushed@[i as int].schema@ == "config#containeros::system::install"@
                && forall|j: int| 0 <= j < i ==> (#[trigger] pushed@[j]).schema@ != "config#containeros::system::install"@,
            None => !has_install_document(pushed@),
        }),
{
    let mut kept = retain_pushed(stored, pushed);
    let was_installed = installed(&kept);
    let doc = find_install_document(pushed);
    proof {
        assert forall|i: int|
            0 <= i < pushed@.len() && #[trigger] kept.map_view().dom().contains(api_key_of(pushed@[i]))
                implies kept.map_view()[api_key_of(pushed@[i])].user by {
            assert(old(stored).map_view().dom().contains(api_key_of(pushed@[i])));
        }
    }
    record_pushed(&mut kept, pushed);
    *stored = kept;
    SystemPush { installed: was_installed, install_document: doc }
}

} // verus!
