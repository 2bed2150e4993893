use containeros::boot::{default_config, parse_cmdline, reconciler_endpoint, stored_candidates, stored_api_config};
use containeros::keymap::KeyMap;
use containeros::model::{Identity, Key, Phase, PrivateIdentity, Status};
use containeros::resource::{IdSet, TerminalResource};
use containeros::state::Resources;

#[test]
fn default_configuration() {
    let cfg = default_config();
    let ids: Vec<String> = cfg.iter().map(|c| c.id.to_text()).collect();
    assert_eq!(ids, vec!["cfg#api", "cfg#network:dns", "cfg#network:link/eth0", "cfg#network:dhcp/eth0"]);
    assert_eq!(cfg[0].spec, "{\"auth\":\"none\"}");
    assert!(cfg[1].spec.contains("\"nameservers\":[\"9.9.9.9\"]"));
    assert_eq!(cfg[3].spec, "{}");
}

#[test]
fn command_line_pairs() {
    let pairs = parse_cmdline("console=ttyS0,115200 init=/init cos.maintenance\n");
    assert_eq!(
        pairs,
        vec![
            ("console".to_string(), "ttyS0,115200".to_string()),
            ("init".to_string(), "/init".to_string()),
            ("cos.maintenance\n".to_string(), String::new()),
        ]
    );
    assert_eq!(parse_cmdline(""), vec![(String::new(), String::new())]);
    assert_eq!(parse_cmdline("a=b=c"), vec![("a".to_string(), "b=c".to_string())]);
}

#[test]
fn reconciler_endpoints() {
    assert_eq!(reconciler_endpoint("system:static-file"), Some("http://[::1]:50051"));
    assert_eq!(reconciler_endpoint("network:dhcp"), Some("http://[::1]:50052"));
    assert_eq!(reconciler_endpoint("container:image"), Some("http://[::1]:50053"));
    assert_eq!(reconciler_endpoint("container:volume"), None);
    assert_eq!(reconciler_endpoint("api"), None);
}

fn stored(id: Identity) -> TerminalResource {
    TerminalResource {
        id,
        phase: Phase::Running,
        status: Status::Unknown,
        spec: "{}".to_string(),
        derived_spec: "null".to_string(),
        state: None,
        children: IdSet::new(),
        dependencies: IdSet::new(),
        dependents: IdSet::new(),
    }
}

#[test]
fn candidates_and_api_configuration_on_start() {
    let mut m: Resources = KeyMap::new();
    assert!(stored_api_config(&m).is_none());
    let api = Key { schema: "api".to_string(), name: None };
    m.insert(api.copy(), stored(Identity::Private(PrivateIdentity::Static(api))));
    let dns = Key { schema: "network:dns".to_string(), name: None };
    m.insert(dns.copy(), stored(Identity::Private(PrivateIdentity::Static(dns))));
    assert_eq!(stored_candidates(&m).len(), 2);
    assert_eq!(stored_api_config(&m).unwrap().id.to_text(), "cfg#api");
}
