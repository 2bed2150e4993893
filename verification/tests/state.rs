use containeros::keymap::KeyMap;
use containeros::model::{Identity, Key, Phase, PrivateIdentity, Status, StatusError};
use containeros::queue::Queue;
use containeros::resource::{IdSet, ResourceResponse, SubResourceCreate, TerminalResource, ValidateResponse};
use containeros::state::{
    bundle_resources, dependent_candidates, failure_status, finish_answer, finish_upsert, mark_removed,
    notifies_dependents, plan_upsert, reconcile_is_skipped, record_answer, record_failure,
    referencing_identities, requests_by_key, restore_resources, rewire_dependents, schedule_available,
    ReconcileFailure, Resources, RECONCILIATION_PERIOD,
};

fn key(schema: &str, name: &str) -> Key {
    Key { schema: schema.to_string(), name: Some(name.to_string()) }
}

fn dynamic(schema: &str, name: &str) -> Identity {
    Identity::Private(PrivateIdentity::Dynamic(key(schema, name)))
}

fn ids(v: Vec<Identity>) -> IdSet {
    IdSet::from_vec(v)
}

fn resource(id: Identity, status: Status) -> TerminalResource {
    TerminalResource {
        id,
        phase: Phase::Running,
        status,
        spec: "{}".to_string(),
        derived_spec: "null".to_string(),
        state: None,
        children: IdSet::new(),
        dependencies: IdSet::new(),
        dependents: IdSet::new(),
    }
}

fn store(list: Vec<TerminalResource>) -> Resources {
    let mut m: Resources = KeyMap::new();
    for r in list {
        let k = r.id.key().copy();
        m.insert(k, r);
    }
    m
}

fn names(keys: &[Key]) -> Vec<String> {
    let mut v: Vec<String> = keys.iter().map(|k| k.to_text()).collect();
    v.sort();
    v
}

#[test]
fn configuration_schemas_are_not_reconciled() {
    assert!(reconcile_is_skipped(&Key { schema: "api".to_string(), name: None }));
    assert!(reconcile_is_skipped(&Key { schema: "install".to_string(), name: None }));
    assert!(!reconcile_is_skipped(&key("network:link", "eth0")));
}

#[test]
fn leaf_resource_goes_straight_to_deletion() {
    let mut m = store(vec![resource(dynamic("network:link", "eth0"), Status::Ready)]);
    let queued = mark_removed(&key("network:link", "eth0"), &mut m);
    assert_eq!(names(&queued), vec!["network:link/eth0"]);
    assert_eq!(m.get(&key("network:link", "eth0")).unwrap().phase, Phase::Deleting);
}

#[test]
fn parent_waits_for_its_children() {
    let mut parent = resource(dynamic("network:interface", "eth0"), Status::Done);
    parent.children = ids(vec![dynamic("network:link", "eth0")]);
    let child = resource(dynamic("network:link", "eth0"), Status::Ready);
    let mut m = store(vec![parent, child]);
    let queued = mark_removed(&key("network:interface", "eth0"), &mut m);
    assert_eq!(names(&queued), vec!["network:link/eth0"]);
    assert_eq!(m.get(&key("network:interface", "eth0")).unwrap().phase, Phase::PendingDeletion);
    assert_eq!(m.get(&key("network:link", "eth0")).unwrap().phase, Phase::Deleting);
}

#[test]
fn resource_with_dependents_waits() {
    let mut link = resource(dynamic("network:link", "eth0"), Status::Ready);
    link.dependents = ids(vec![dynamic("network:address", "a")]);
    let mut m = store(vec![link]);
    let queued = mark_removed(&key("network:link", "eth0"), &mut m);
    assert!(queued.is_empty());
    assert_eq!(m.get(&key("network:link", "eth0")).unwrap().phase, Phase::PendingDeletion);
}

#[test]
fn missing_resource_marks_nothing() {
    let mut m = store(vec![]);
    assert!(mark_removed(&key("network:link", "eth0"), &mut m).is_empty());
}

fn candidate(id: Identity, deps: Vec<Identity>) -> (SubResourceCreate, ValidateResponse) {
    (
        SubResourceCreate { id, spec: "{}".to_string() },
        ValidateResponse { derived_spec: "null".to_string(), children: vec![], dependencies: ids(deps) },
    )
}

#[test]
fn only_resources_with_met_dependencies_are_scheduled() {
    let m = store(vec![
        resource(dynamic("network:link", "ready"), Status::Ready),
        resource(dynamic("network:link", "waiting"), Status::NotReady),
    ]);
    let cands = vec![
        candidate(dynamic("network:address", "a"), vec![dynamic("network:link", "ready")]),
        candidate(dynamic("network:address", "b"), vec![dynamic("network:link", "waiting")]),
        candidate(dynamic("network:address", "c"), vec![dynamic("network:link", "absent")]),
        candidate(
            dynamic("container:instance", "d"),
            vec![Identity::Shared(key("container:image", "absent"))],
        ),
    ];
    let mut q = Queue::new();
    let scheduled = schedule_available(&cands, &mut q, &m, true, 7);
    assert_eq!(names(&scheduled), vec!["container:instance/d", "network:address/a"]);
    let slots = q.remove_expired_at(7);
    assert_eq!(slots.len(), 1);
    assert_eq!(slots[0].keys.len(), 2);
}

#[test]
fn scheduling_can_be_left_out() {
    let m = store(vec![]);
    let cands = vec![candidate(dynamic("network:address", "a"), vec![])];
    let mut q = Queue::new();
    let scheduled = schedule_available(&cands, &mut q, &m, false, 7);
    assert_eq!(names(&scheduled), vec!["network:address/a"]);
    assert_eq!(q.earliest(), None);
}

#[test]
fn upsert_plan_sorts_keys() {
    let mut a = resource(dynamic("x", "kept"), Status::Ready);
    a.spec = "{\"v\":1}".to_string();
    let mut b = resource(dynamic("x", "changed"), Status::Ready);
    b.spec = "{\"v\":1}".to_string();
    let c = resource(dynamic("x", "gone"), Status::Ready);
    let m = store(vec![a, b, c]);
    let old_keys = vec![key("x", "kept"), key("x", "changed"), key("x", "gone")];
    let updated = requests_by_key(vec![
        SubResourceCreate { id: dynamic("x", "kept"), spec: "{\"v\":1}".to_string() },
        SubResourceCreate { id: dynamic("x", "changed"), spec: "{\"v\":2}".to_string() },
        SubResourceCreate { id: dynamic("x", "new"), spec: "{}".to_string() },
    ]);
    let plan = plan_upsert(&m, &old_keys, &updated);
    assert_eq!(names(&plan.added), vec!["x/new"]);
    assert_eq!(names(&plan.removed), vec!["x/gone"]);
    assert_eq!(names(&plan.modified), vec!["x/changed"]);
}

#[test]
fn later_request_for_a_key_wins() {
    let updated = requests_by_key(vec![
        SubResourceCreate { id: dynamic("x", "a"), spec: "1".to_string() },
        SubResourceCreate { id: dynamic("x", "a"), spec: "2".to_string() },
    ]);
    assert_eq!(updated.len(), 1);
    assert_eq!(updated.get(&key("x", "a")).unwrap().spec, "2");
}

#[test]
fn upsert_stores_added_changes_modified_and_removes() {
    let mut m = store(vec![
        resource(dynamic("x", "changed"), Status::Ready),
        resource(dynamic("x", "gone"), Status::Ready),
    ]);
    let mut q = Queue::new();
    let added = vec![candidate(dynamic("x", "new"), vec![])];
    let mut modified_c = candidate(dynamic("x", "changed"), vec![dynamic("x", "new")]);
    modified_c.0.spec = "{\"v\":2}".to_string();
    let outcome = finish_upsert(&mut m, &mut q, &vec![key("x", "gone")], added, vec![modified_c], true, 3);
    assert_eq!(names(&outcome.removal), vec!["x/gone"]);
    assert_eq!(names(&outcome.available), vec!["x/new"]);
    let new = m.get(&key("x", "new")).unwrap();
    assert_eq!(new.phase, Phase::Running);
    assert!(matches!(new.status, Status::Unknown));
    let changed = m.get(&key("x", "changed")).unwrap();
    assert_eq!(changed.spec, "{\"v\":2}");
    assert!(matches!(changed.status, Status::Unknown));
    assert_eq!(m.get(&key("x", "gone")).unwrap().phase, Phase::Deleting);
    let slots = q.remove_expired_at(3);
    assert_eq!(names(&slots[0].keys), vec!["x/gone", "x/new"]);
}

#[test]
fn failures_set_error_statuses() {
    assert!(matches!(failure_status(ReconcileFailure::NoClient), StatusError::NoClient));
    assert!(matches!(failure_status(ReconcileFailure::Unencodable), StatusError::Internal));
    assert!(matches!(failure_status(ReconcileFailure::TimedOut), StatusError::TimedOut));
    assert!(matches!(failure_status(ReconcileFailure::Unreadable), StatusError::Invalid));
    assert!(matches!(
        failure_status(ReconcileFailure::Transport { deadline_exceeded: true, message: "x".to_string() }),
        StatusError::TimedOut
    ));
    match failure_status(ReconcileFailure::Transport { deadline_exceeded: false, message: "boom".to_string() }) {
        StatusError::Transport(m) => assert_eq!(m, "boom"),
        other => panic!("unexpected {other:?}"),
    }
    let mut m = store(vec![resource(dynamic("x", "a"), Status::Ready)]);
    assert_eq!(record_failure(&mut m, &key("x", "a"), ReconcileFailure::NoClient), None);
    assert!(matches!(m.get(&key("x", "a")).unwrap().status, Status::Error(StatusError::NoClient)));
}

#[test]
fn becoming_available_notifies_dependents() {
    assert!(notifies_dependents(&Status::NotReady, &Status::Ready));
    assert!(notifies_dependents(&Status::Unknown, &Status::Done));
    assert!(notifies_dependents(&Status::Error(StatusError::Internal), &Status::Ready));
    assert!(notifies_dependents(&Status::Ready, &Status::Done));
    assert!(!notifies_dependents(&Status::Ready, &Status::Ready));
    assert!(!notifies_dependents(&Status::Done, &Status::Ready));
    assert!(!notifies_dependents(&Status::NotReady, &Status::NotReady));
}

#[test]
fn answer_replaces_status_children_and_dependencies() {
    let mut dns = resource(dynamic("network:dns", "main"), Status::NotReady);
    dns.children = ids(vec![dynamic("system:static-file", "/old")]);
    dns.dependencies = ids(vec![dynamic("network:link", "eth0"), Identity::Shared(key("x", "shared"))]);
    let mut m = store(vec![dns]);
    let answer = ResourceResponse {
        status: Status::Ready,
        state: Some("{\"s\":1}".to_string()),
        children: vec![SubResourceCreate { id: dynamic("system:static-file", "/new"), spec: "{}".to_string() }],
        dependencies: ids(vec![dynamic("network:link", "eth1"), Identity::Shared(key("x", "shared"))]),
    };
    let f = record_answer(&mut m, &key("network:dns", "main"), answer).unwrap();
    assert!(f.notify);
    assert!(matches!(f.status, Status::Ready));
    assert_eq!(f.removed_deps.len(), 1);
    assert_eq!(f.removed_deps[0].key().name.as_deref(), Some("eth0"));
    assert_eq!(f.added_deps.len(), 1);
    assert_eq!(f.added_deps[0].key().name.as_deref(), Some("eth1"));
    assert_eq!(names(&f.old_keys), vec!["system:static-file//old", "x/shared"]);
    assert_eq!(f.requested.len(), 2);
    assert_eq!(f.requested.get(&key("x", "shared")).unwrap().spec, "{\"name\":\"shared\"}");
    let stored = m.get(&key("network:dns", "main")).unwrap();
    assert!(matches!(stored.status, Status::Ready));
    assert_eq!(stored.state.as_deref(), Some("{\"s\":1}"));
    assert!(stored.children.contains(&dynamic("system:static-file", "/new")));
    assert!(!stored.children.contains(&dynamic("system:static-file", "/old")));
}

#[test]
fn answer_for_unknown_key_changes_nothing() {
    let mut m = store(vec![]);
    let answer = ResourceResponse { status: Status::Ready, state: None, children: vec![], dependencies: IdSet::new() };
    assert!(record_answer(&mut m, &key("x", "a"), answer).is_none());
    assert_eq!(m.len(), 0);
}

#[test]
fn dependents_follow_dependency_changes() {
    let mut old_dep = resource(dynamic("network:link", "eth0"), Status::Ready);
    old_dep.dependents = ids(vec![dynamic("network:address", "a")]);
    let new_dep = resource(dynamic("network:link", "eth1"), Status::Ready);
    let mut m = store(vec![old_dep, new_dep]);
    let id = dynamic("network:address", "a");
    rewire_dependents(&mut m, &id, &vec![dynamic("network:link", "eth0")], &vec![dynamic("network:link", "eth1")]);
    assert!(!m.get(&key("network:link", "eth0")).unwrap().dependents.contains(&id));
    assert!(m.get(&key("network:link", "eth1")).unwrap().dependents.contains(&id));
}

#[test]
fn answers_decide_the_next_visit() {
    let mut m = store(vec![resource(dynamic("x", "a"), Status::Ready)]);
    let id = dynamic("x", "a");
    assert_eq!(finish_answer(&mut m, &key("x", "a"), &id, &vec![], &vec![], &Status::Ready, 5), Some(5 + RECONCILIATION_PERIOD));
    assert_eq!(finish_answer(&mut m, &key("x", "a"), &id, &vec![], &vec![], &Status::Done, 5), None);
    assert_eq!(m.len(), 1);
    assert_eq!(finish_answer(&mut m, &key("x", "a"), &id, &vec![], &vec![], &Status::Deleted, 5), None);
    assert_eq!(m.len(), 0);
    assert_eq!(RECONCILIATION_PERIOD, 30_000_000_000);
}

#[test]
fn referencing_resources_are_found() {
    let link = dynamic("network:link", "eth0");
    let mut addr = resource(dynamic("network:address", "a"), Status::Ready);
    addr.dependencies = ids(vec![link.copy()]);
    let mut iface = resource(dynamic("network:interface", "i"), Status::Done);
    iface.children = ids(vec![link.copy()]);
    let other = resource(dynamic("network:route", "r"), Status::Ready);
    let m = store(vec![addr, iface, other, resource(link.copy(), Status::Ready)]);
    let refs = referencing_identities(&m, &link);
    let mut refs: Vec<String> = refs.iter().map(|i| i.to_text()).collect();
    refs.sort();
    assert_eq!(refs, vec!["dyn#network:address/a", "dyn#network:interface/i"]);
    let cands = dependent_candidates(&m, &vec![dynamic("network:address", "a")]);
    assert_eq!(cands.len(), 1);
    assert_eq!(cands[0].0.id.to_text(), "dyn#network:address/a");
    assert!(cands[0].1.children.is_empty());
}

#[test]
fn bundle_keeps_all_but_ephemeral_resources() {
    let m = store(vec![
        resource(dynamic("x", "kept"), Status::Ready),
        resource(Identity::Private(PrivateIdentity::Ephemeral(key("x", "tmp"))), Status::Ready),
        resource(Identity::Shared(key("x", "shared")), Status::Done),
    ]);
    let bundle = bundle_resources(&m);
    let texts: Vec<String> = bundle.iter().map(|r| r.id.to_text()).collect();
    assert_eq!(texts, vec!["dyn#x/kept", "sh#x/shared"]);
}

#[test]
fn restored_resources_start_over() {
    let mut r = resource(dynamic("x", "a"), Status::Done);
    r.phase = Phase::PendingDeletion;
    let restored = restore_resources(vec![r]);
    let a = restored.get(&key("x", "a")).unwrap();
    assert_eq!(a.phase, Phase::Running);
    assert!(matches!(a.status, Status::Unknown));
}

#[test]
fn configuration_only_resources_validate_locally() {
    let api = SubResourceCreate {
        id: Identity::Private(PrivateIdentity::Static(Key { schema: "api".to_string(), name: None })),
        spec: "{}".to_string(),
    };
    let v = containeros::state::config_only_validation(&api).unwrap();
    assert_eq!(v.derived_spec, "null");
    assert!(v.children.is_empty() && v.dependencies.is_empty());
    let link = SubResourceCreate { id: dynamic("network:link", "eth0"), spec: "{}".to_string() };
    assert!(containeros::state::config_only_validation(&link).is_none());
}

#[test]
fn relations_are_the_stored_resources() {
    let m = store(vec![resource(dynamic("x", "a"), Status::Ready)]);
    let rel = containeros::state::related_resources(&m, &ids(vec![dynamic("x", "a"), dynamic("x", "missing")]));
    assert_eq!(rel.len(), 1);
    assert_eq!(rel[0].id.to_text(), "dyn#x/a");
}

#[test]
fn bundle_comes_back() {
    let m = store(vec![
        resource(dynamic("x", "a"), Status::Done),
        resource(Identity::Private(PrivateIdentity::Ephemeral(key("x", "tmp"))), Status::Ready),
    ]);
    let back = restore_resources(bundle_resources(&m));
    assert_eq!(back.len(), 1);
    assert!(matches!(back.get(&key("x", "a")).unwrap().status, Status::Unknown));
    assert_eq!(containeros::state::TimedOut::new().message(), "operation timed out");
}

#[test]
fn reverse_edges_follow_an_answer() {
    let mut addr = resource(dynamic("network:address", "a"), Status::NotReady);
    addr.dependencies = ids(vec![dynamic("network:link", "eth0")]);
    let mut eth0 = resource(dynamic("network:link", "eth0"), Status::Ready);
    eth0.dependents = ids(vec![dynamic("network:address", "a")]);
    let eth1 = resource(dynamic("network:link", "eth1"), Status::Ready);
    let mut m = store(vec![addr, eth0, eth1]);
    let answer = ResourceResponse {
        status: Status::Ready,
        state: None,
        children: vec![],
        dependencies: ids(vec![dynamic("network:link", "eth1")]),
    };
    let f = record_answer(&mut m, &key("network:address", "a"), answer).unwrap();
    let next = finish_answer(&mut m, &key("network:address", "a"), &f.id, &f.removed_deps, &f.added_deps, &f.status, 0);
    assert_eq!(next, Some(RECONCILIATION_PERIOD));
    let id = dynamic("network:address", "a");
    assert!(!m.get(&key("network:link", "eth0")).unwrap().dependents.contains(&id));
    assert!(m.get(&key("network:link", "eth1")).unwrap().dependents.contains(&id));
}

#[test]
fn an_answer_keeps_the_kinds_it_gives() {
    let mut m = store(vec![resource(dynamic("network:dns", "main"), Status::NotReady)]);
    let answer = ResourceResponse {
        status: Status::Ready,
        state: None,
        children: vec![SubResourceCreate { id: dynamic("system:static-file", "/f"), spec: "{}".to_string() }],
        dependencies: ids(vec![Identity::Private(PrivateIdentity::Static(key("network:link", "eth0")))]),
    };
    let _ = record_answer(&mut m, &key("network:dns", "main"), answer).unwrap();
    let stored = m.get(&key("network:dns", "main")).unwrap();
    assert_eq!(stored.dependencies.at(0).to_text(), "cfg#network:link/eth0");
    assert_eq!(stored.children.at(0).to_text(), "dyn#system:static-file//f");
}
