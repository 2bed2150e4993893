use containeros::keymap::KeyMap;
use containeros::system::{
    schedule_reconcile_at_earliest, schedule_reconcile_at_earliest_in, schedule_reconcile_at_latest,
    schedule_reconcile_at_latest_in, Deadlines, Identity,
};

fn id(name: &str) -> Identity {
    Identity { schema: "config#containeros::net::link".to_string(), name: name.to_string() }
}

fn deadline(d: &Deadlines, i: &Identity) -> Option<u64> {
    d.get(&i.key()).copied()
}

#[test]
fn identity_text() {
    assert_eq!(id("eth0").to_text(), "config#containeros::net::link/eth0");
}

#[test]
fn earliest_only_moves_later() {
    let mut d: Deadlines = KeyMap::new();
    schedule_reconcile_at_earliest(&mut d, &id("a"), 100);
    assert_eq!(deadline(&d, &id("a")), Some(100));
    schedule_reconcile_at_earliest(&mut d, &id("a"), 50);
    assert_eq!(deadline(&d, &id("a")), Some(100));
    schedule_reconcile_at_earliest(&mut d, &id("a"), 150);
    assert_eq!(deadline(&d, &id("a")), Some(150));
    assert_eq!(deadline(&d, &id("b")), None);
}

#[test]
fn latest_only_moves_sooner() {
    let mut d: Deadlines = KeyMap::new();
    schedule_reconcile_at_latest(&mut d, &id("a"), 100);
    schedule_reconcile_at_latest(&mut d, &id("a"), 150);
    assert_eq!(deadline(&d, &id("a")), Some(100));
    schedule_reconcile_at_latest(&mut d, &id("a"), 50);
    assert_eq!(deadline(&d, &id("a")), Some(50));
}

#[test]
fn delays_count_from_now() {
    let mut d: Deadlines = KeyMap::new();
    schedule_reconcile_at_earliest_in(&mut d, &id("a"), 1000, 5);
    assert_eq!(deadline(&d, &id("a")), Some(1005));
    schedule_reconcile_at_latest_in(&mut d, &id("a"), 1000, 1);
    assert_eq!(deadline(&d, &id("a")), Some(1001));
    schedule_reconcile_at_earliest(&mut d, &id("b"), 7);
    schedule_reconcile_at_earliest(&mut d, &id("b"), 9);
    let mut e: Deadlines = KeyMap::new();
    schedule_reconcile_at_earliest(&mut e, &id("b"), 9);
    schedule_reconcile_at_earliest(&mut e, &id("b"), 7);
    assert_eq!(deadline(&d, &id("b")), deadline(&e, &id("b")));
}

use containeros::system::{push_config, ApiResource, Resource, ResourceState, Spec, SystemResources, UserConfig};

fn api(schema: &str, name: &str, spec: &[u8]) -> ApiResource {
    ApiResource { schema: schema.to_string(), name: name.to_string(), spec: spec.to_vec() }
}

fn user(schema: &str, name: &str, spec: &[u8]) -> Resource {
    Resource::UserConfig(UserConfig {
        schema: schema.to_string(),
        name: name.to_string(),
        spec: Spec(spec.to_vec()),
        state: ResourceState::Unset,
    })
}

#[test]
fn push_replaces_the_configuration() {
    let mut stored: SystemResources = KeyMap::new();
    stored.insert(id("eth0").key(), user("config#containeros::net::link", "eth0", b"old"));
    stored.insert(id("eth1").key(), user("config#containeros::net::link", "eth1", b"gone"));
    let pushed = vec![
        api("config#containeros::net::link", "eth0", b"new"),
        api("config#containeros::container::container", "web", b"c"),
    ];
    let r = push_config(&mut stored, &pushed);
    assert!(!r.installed);
    assert_eq!(r.install_document, None);
    assert_eq!(stored.len(), 2);
    match stored.get(&id("eth0").key()).unwrap() {
        Resource::UserConfig(c) => assert_eq!(c.spec.0, b"new".to_vec()),
        _ => panic!(),
    }
    assert!(stored.get(&id("eth1").key()).is_none());
    let web = Identity { schema: "config#containeros::container::container".to_string(), name: "web".to_string() };
    assert!(stored.get(&web.key()).is_some());
}

#[test]
fn push_finds_the_installation_document() {
    let mut stored: SystemResources = KeyMap::new();
    let pushed = vec![api("config#containeros::net::link", "eth0", b""), api("config#containeros::system::install", "disk", b"d")];
    let r = push_config(&mut stored, &pushed);
    assert_eq!(r.install_document, Some(1));
}
