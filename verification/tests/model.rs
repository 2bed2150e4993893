use containeros::model::{Identity, Key, PrivateIdentity};

fn key(schema: &str, name: Option<&str>) -> Key {
    Key { schema: schema.to_string(), name: name.map(|n| n.to_string()) }
}

// The isolated-test harness runs its body in a fresh process; the body
// itself is an ordinary assertion.
#[test]
fn normal_test_case_should_work() {
    assert!(true);
}

#[test]
fn key_text_with_and_without_name() {
    assert_eq!(key("network:dns", None).to_text(), "network:dns");
    assert_eq!(key("network:link", Some("eth0")).to_text(), "network:link/eth0");
}

#[test]
fn key_read_back_splits_at_first_slash() {
    let k = Key::from_text("system:static-file//etc/resolv.conf");
    assert_eq!(k.schema, "system:static-file");
    assert_eq!(k.name.as_deref(), Some("/etc/resolv.conf"));
    let k = Key::from_text("api");
    assert_eq!(k.schema, "api");
    assert_eq!(k.name, None);
}

#[test]
fn key_text_round_trip() {
    let k = key("container:image", Some("rt#docker.io/library/busybox"));
    let back = Key::from_text(&k.to_text());
    assert_eq!(back.schema, k.schema);
    assert_eq!(back.name, k.name);
}

#[test]
fn identity_text_prefixes() {
    let k = key("network:link", Some("eth0"));
    assert_eq!(Identity::Private(PrivateIdentity::Dynamic(k.copy())).to_text(), "dyn#network:link/eth0");
    assert_eq!(Identity::Private(PrivateIdentity::Ephemeral(k.copy())).to_text(), "tmp#network:link/eth0");
    assert_eq!(Identity::Private(PrivateIdentity::Static(k.copy())).to_text(), "cfg#network:link/eth0");
    assert_eq!(Identity::Shared(k).to_text(), "sh#network:link/eth0");
}

#[test]
fn identity_key_and_schema() {
    let id = Identity::Private(PrivateIdentity::Static(key("api", None)));
    assert_eq!(id.key().schema, "api");
    assert_eq!(id.schema(), "api");
    assert!(!id.is_shared());
    let shared = Identity::Shared(key("container:image", Some("rt#img")));
    assert!(shared.is_shared());
    assert_eq!(shared.key().name.as_deref(), Some("rt#img"));
}

#[test]
fn private_identities_compare_by_key() {
    let a = Identity::Private(PrivateIdentity::Static(key("network:link", Some("eth0"))));
    let b = Identity::Private(PrivateIdentity::Dynamic(key("network:link", Some("eth0"))));
    let c = Identity::Shared(key("network:link", Some("eth0")));
    assert!(containeros::model::identity_eq(&a, &b));
    assert!(!containeros::model::identity_eq(&a, &c));
}
