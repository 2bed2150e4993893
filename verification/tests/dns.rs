use containeros::dns::{get_child, get_content, reconcile, validate_new_spec, DnsError, DnsReconciler, DnsResource, DnsSpec};
use containeros::model::{Identity, Key, Phase, PrivateIdentity, Status, StatusError};
use containeros::resource::{IdSet, TerminalResource};

fn spec() -> DnsSpec {
    DnsSpec {
        nameservers: vec!["9.9.9.9".to_string()],
        search: None,
        sortlist: None,
        ndots: None,
        timeout: None,
        attempts: None,
        debug: None,
        rotate: None,
        no_aaaa: None,
        no_check_names: None,
        inet6: None,
        ip6_bytestring: None,
        ip6_dotint: None,
        ip6_no_dotint: None,
        edns0: None,
        single_request: None,
        single_request_reopen: None,
        no_tld_query: None,
        use_vc: None,
        no_reload: None,
        trust_ad: None,
    }
}

fn child(status: Status, spec_text: &str) -> TerminalResource {
    TerminalResource {
        id: Identity::Private(PrivateIdentity::Dynamic(Key {
            schema: "system:static-file".to_string(),
            name: Some("/etc/resolv.conf".to_string()),
        })),
        phase: Phase::Running,
        status,
        spec: spec_text.to_string(),
        derived_spec: "null".to_string(),
        state: None,
        children: IdSet::new(),
        dependencies: IdSet::new(),
        dependents: IdSet::new(),
    }
}

#[test]
fn reconciler_is_created() {
    let _ = DnsReconciler::new();
}

#[test]
fn single_nameserver_content() {
    assert_eq!(get_content(&spec()), "nameserver 9.9.9.9\n");
}

#[test]
fn full_content_in_order() {
    let mut s = spec();
    s.nameservers = vec!["1.1.1.1".to_string(), "8.8.8.8".to_string()];
    s.search = Some(vec!["example.com".to_string(), "lan".to_string()]);
    s.sortlist = Some(vec![]);
    s.ndots = Some(2);
    s.timeout = Some(30);
    s.rotate = Some(true);
    s.debug = Some(false);
    s.trust_ad = Some(true);
    assert_eq!(
        get_content(&s),
        "options ndots:2 timeout:30 rotate trust-ad\nsearch example.com lan\nnameserver 1.1.1.1\nnameserver 8.8.8.8\n"
    );
}

#[test]
fn limits_are_checked_in_order() {
    let mut s = spec();
    s.nameservers = vec!["a".into(), "b".into(), "c".into(), "d".into()];
    s.ndots = Some(16);
    assert_eq!(validate_new_spec(&s).unwrap_err(), DnsError::TooManyNameservers);
    assert_eq!(DnsError::TooManyNameservers.message(), "a maximum of 3 name servers can be specified");
    let mut s = spec();
    s.sortlist = Some((0..11).map(|i| i.to_string()).collect());
    assert_eq!(validate_new_spec(&s).unwrap_err(), DnsError::TooManySortlistPairs);
    let mut s = spec();
    s.ndots = Some(16);
    assert_eq!(validate_new_spec(&s).unwrap_err(), DnsError::NdotsTooLarge);
    let mut s = spec();
    s.timeout = Some(31);
    assert_eq!(validate_new_spec(&s).unwrap_err(), DnsError::TimeoutTooLarge);
    let mut s = spec();
    s.attempts = Some(6);
    assert_eq!(validate_new_spec(&s).unwrap_err(), DnsError::AttemptsTooLarge);
    assert_eq!(DnsError::AttemptsTooLarge.message(), "attempts cannot be greater than 5");
    let mut s = spec();
    s.ndots = Some(15);
    s.timeout = Some(30);
    s.attempts = Some(5);
    assert!(validate_new_spec(&s).is_ok());
}

#[test]
fn child_is_the_resolv_conf_file() {
    let c = get_child(&spec());
    assert_eq!(c.id.to_text(), "dyn#system:static-file//etc/resolv.conf");
    assert_eq!(
        c.spec,
        "{\"content\":\"nameserver 9.9.9.9\\n\",\"owner_gid\":null,\"path\":\"/etc/resolv.conf\",\"readable_by_group\":true,\"readable_by_others\":true}"
    );
}

#[test]
fn reconcile_waits_for_the_file() {
    let r = reconcile(&DnsResource { spec: spec(), children: vec![] });
    assert!(matches!(r.status, Status::NotReady));
    assert_eq!(r.children.len(), 1);
    let file_spec = get_child(&spec()).spec;
    let r = reconcile(&DnsResource { spec: spec(), children: vec![child(Status::Ready, &file_spec)] });
    assert!(matches!(r.status, Status::NotReady));
    let r = reconcile(&DnsResource { spec: spec(), children: vec![child(Status::Done, "{}")] });
    assert!(matches!(r.status, Status::NotReady));
    let r = reconcile(&DnsResource { spec: spec(), children: vec![child(Status::Done, &file_spec)] });
    assert!(matches!(r.status, Status::Done));
}

#[test]
fn reconcile_reports_errors() {
    let file_spec = get_child(&spec()).spec;
    let r = reconcile(&DnsResource {
        spec: spec(),
        children: vec![child(Status::Done, &file_spec), child(Status::Done, &file_spec)],
    });
    match r.status {
        Status::Error(StatusError::Other(m)) => assert_eq!(m, "too many children"),
        other => panic!("unexpected {other:?}"),
    }
    let mut s = spec();
    s.attempts = Some(9);
    let r = reconcile(&DnsResource { spec: s, children: vec![] });
    match r.status {
        Status::Error(StatusError::Other(m)) => assert_eq!(m, "attempts cannot be greater than 5"),
        other => panic!("unexpected {other:?}"),
    }
    assert!(r.children.is_empty());
}
