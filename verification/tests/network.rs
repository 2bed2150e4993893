use containeros::model::{Key, Phase, Status, StatusError};
use containeros::network::{
    expect_single, is_nodev, link_type_of, parse_prefix, split_address, AddressAction, AddressReconciler,
    AddressSpec, AddressState, DhcpReconciler, DhcpState, InterfaceDerivedSpec, InterfaceReconciler, InterfaceSpec,
    IpAddr, IpAddress, LinkAction, LinkOperState, LinkReconciler, LinkSpec, LinkSpecDummy, LinkSpecType, LinkSpecUnspec,
    LinkState, LinkStateType, LinkStateUnspec, NetError, NtpReconciler, NtpSpec, PrefixError, RouteAction,
    RouteReconciler, RouteSeen, RouteSpec,
};

fn link_spec(admin_up: bool) -> LinkSpec {
    LinkSpec { name: "dummy0".to_string(), admin_up, link_type: LinkSpecType::Dummy(LinkSpecDummy {}) }
}

fn link_state(admin_up: bool) -> LinkState {
    LinkState {
        index: 2,
        running: false,
        admin_up,
        oper_state: LinkOperState::Unknown,
        link_type: LinkStateType::Unspec(LinkStateUnspec {}),
        mtu: 1500,
        address: [0; 6],
        broadcast: [0xff; 6],
        alt_names: vec![],
        arp: true,
        promiscuity: 0,
    }
}

#[test]
fn create_dummy_link() {
    let plan = LinkReconciler::plan(Phase::Running, &link_spec(true), None);
    assert_eq!(plan, LinkAction::Create { dummy: true, up: true });
    assert!(matches!(LinkReconciler::status(Phase::Running, plan), Status::NotReady));
    let after = LinkReconciler::plan(Phase::Running, &link_spec(true), Some(&link_state(true)));
    assert_eq!(after, LinkAction::Noop);
    assert!(matches!(LinkReconciler::status(Phase::Running, after), Status::Ready));
}

#[test]
fn update_dummy_link() {
    let plan = LinkReconciler::plan(Phase::Running, &link_spec(false), Some(&link_state(true)));
    assert_eq!(plan, LinkAction::SetAdmin(false));
}

#[test]
fn delete_dummy_link() {
    let plan = LinkReconciler::plan(Phase::Deleting, &link_spec(true), Some(&link_state(true)));
    assert_eq!(plan, LinkAction::Delete(2));
    let after = LinkReconciler::plan(Phase::Deleting, &link_spec(true), None);
    assert_eq!(after, LinkAction::Noop);
    assert!(matches!(LinkReconciler::status(Phase::Deleting, after), Status::Deleted));
}

#[test]
fn physical_links_are_unspecified_ones() {
    assert!(LinkSpecType::Unspec(LinkSpecUnspec {}).is_physical());
    assert!(!LinkSpecType::Dummy(LinkSpecDummy {}).is_physical());
    assert!(LinkStateType::Unspec(LinkStateUnspec {}).is_physical());
    assert!(!LinkStateType::Unsupported("veth".to_string()).is_physical());
    assert!(LinkSpecType::default().is_physical());
    assert!(LinkStateType::default().is_physical());
}

#[test]
fn link_kinds() {
    assert!(matches!(link_type_of(None, false), Ok(LinkStateType::Unspec(_))));
    assert!(matches!(link_type_of(Some("dummy".to_string()), false), Ok(LinkStateType::Dummy(_))));
    match link_type_of(Some("veth".to_string()), false) {
        Ok(LinkStateType::Unsupported(k)) => assert_eq!(k, "veth"),
        _ => panic!(),
    }
    assert!(matches!(link_type_of(Some("dummy".to_string()), true), Ok(LinkStateType::Unsupported(_))));
    assert_eq!(link_type_of(None, true).unwrap_err(), NetError::DataWithoutKind);
    assert_eq!(NetError::DataWithoutKind.message(), "got link data without link kind");
}

#[test]
fn lookups_expect_at_most_one() {
    assert_eq!(expect_single(0, NetError::MultipleLinks), Ok(false));
    assert_eq!(expect_single(1, NetError::MultipleLinks), Ok(true));
    assert_eq!(expect_single(2, NetError::MultipleLinks), Err(NetError::MultipleLinks));
    assert_eq!(NetError::MultipleLinks.message(), "found multiple links while at most one was expected");
    assert!(is_nodev(-19) && is_nodev(19) && !is_nodev(-2));
}

#[test]
fn addresses() {
    let spec = AddressSpec { dev: "eth0".to_string(), address: IpAddr::V4(v4(10, 0, 0, 2)), prefix_len: 24 };
    assert_eq!(AddressReconciler::plan(Phase::Running, 3, None), AddressAction::Create(3));
    assert_eq!(AddressReconciler::plan(Phase::Running, 3, Some(AddressState { index: 3 })), AddressAction::Noop);
    assert_eq!(AddressReconciler::plan(Phase::Deleting, 3, Some(AddressState { index: 3 })), AddressAction::Delete(3));
    assert!(matches!(AddressReconciler::status(Phase::Running, AddressAction::Noop), Status::Ready));
    assert!(matches!(AddressReconciler::status(Phase::Deleting, AddressAction::Noop), Status::Deleted));
    let deps = AddressReconciler::deps(&spec);
    assert_eq!(deps.size(), 1);
    assert_eq!(deps.at(0).to_text(), "dyn#network:link/eth0");
    let other = AddressSpec { dev: "eth0".to_string(), address: IpAddr::V4(v4(10, 0, 0, 3)), prefix_len: 24 };
    assert!(AddressReconciler::validate_spec_change(&spec, &spec).is_ok());
    assert_eq!(AddressReconciler::validate_spec_change(&spec, &other).unwrap_err(), NetError::AddressChanged);
}

/// The numeric value of the IPv4 address `a.b.c.d`.
fn v4(a: u8, b: u8, c: u8, d: u8) -> u32 {
    u32::from_be_bytes([a, b, c, d])
}

fn default_route(parent: Option<&str>) -> RouteSpec {
    RouteSpec::Ipv4 { destination: 0, prefix_len: 0, gateway: v4(10, 0, 0, 1), parent: parent.map(|s| s.to_string()) }
}

fn seen(dest: Option<u32>, len: u8, gw: Option<u32>, universe: bool) -> RouteSeen {
    RouteSeen { destination: dest.map(IpAddr::V4), prefix_len: len, gateway: gw.map(IpAddr::V4), universe }
}

#[test]
fn routes_match_on_destination_length_and_gateway() {
    let spec = default_route(None);
    assert!(RouteReconciler::matches(&spec, &seen(None, 0, Some(v4(10, 0, 0, 1)), true)));
    assert!(!RouteReconciler::matches(&spec, &seen(None, 0, Some(v4(10, 0, 0, 1)), false)));
    assert!(RouteReconciler::matches(&spec, &seen(Some(0), 0, Some(v4(10, 0, 0, 1)), false)));
    assert!(!RouteReconciler::matches(&spec, &seen(None, 0, Some(v4(10, 0, 0, 9)), true)));
    assert!(!RouteReconciler::matches(&spec, &seen(None, 8, Some(v4(10, 0, 0, 1)), true)));
    // fe80::1
    let link_local: u128 = (0xfe80u128 << 112) | 1;
    let v6 = RouteSpec::Ipv6 { destination: 0, prefix_len: 0, gateway: link_local, parent: None };
    let seen_v6 =
        RouteSeen { destination: None, prefix_len: 0, gateway: Some(IpAddr::V6(link_local)), universe: true };
    assert!(RouteReconciler::matches(&v6, &seen_v6));
    // the same numbers in the other family are another address
    let seen_v4 = seen(None, 0, Some(1), true);
    assert!(!RouteReconciler::matches(&RouteSpec::Ipv6 { destination: 0, prefix_len: 0, gateway: 1, parent: None }, &seen_v4));
}

#[test]
fn route_selection() {
    let spec = default_route(None);
    let routes = vec![seen(Some(v4(10, 0, 0, 0)), 24, None, false), seen(None, 0, Some(v4(10, 0, 0, 1)), true)];
    assert_eq!(RouteReconciler::select(&spec, &routes), Ok(Some(1)));
    assert_eq!(RouteReconciler::select(&spec, &vec![]), Ok(None));
    let twice = vec![seen(None, 0, Some(v4(10, 0, 0, 1)), true), seen(None, 0, Some(v4(10, 0, 0, 1)), true)];
    assert_eq!(RouteReconciler::select(&spec, &twice), Err(NetError::MultipleRoutes));
    assert_eq!(NetError::MultipleRoutes.message(), "found multiple routees while at most one was expected");
}

#[test]
fn route_plans_and_dependencies() {
    assert_eq!(RouteReconciler::plan(Phase::Running, false), RouteAction::Create);
    assert_eq!(RouteReconciler::plan(Phase::Deleting, true), RouteAction::Delete);
    assert_eq!(RouteReconciler::plan(Phase::Running, true), RouteAction::Noop);
    assert!(matches!(RouteReconciler::status(Phase::Running, RouteAction::Noop), Status::Ready));
    assert_eq!(RouteReconciler::deps(&default_route(None)).size(), 0);
    let deps = RouteReconciler::deps(&default_route(Some("eth0-dhcp")));
    assert_eq!(deps.at(0).to_text(), "dyn#network:address/eth0-dhcp");
    assert!(RouteReconciler::validate_spec_change(&default_route(None), &default_route(None)).is_ok());
    assert_eq!(
        RouteReconciler::validate_spec_change(&default_route(None), &default_route(Some("x"))).unwrap_err(),
        NetError::RouteChanged
    );
}

#[test]
fn dhcp_requests_address_and_route() {
    let k = Key { schema: "network:dhcp".to_string(), name: Some("eth0".to_string()) };
    let (d, deps) = DhcpReconciler::validate(&k).unwrap();
    assert_eq!(d.link, "eth0");
    assert_eq!(deps.at(0).to_text(), "dyn#network:link/eth0");
    let missing = Key { schema: "network:dhcp".to_string(), name: None };
    assert_eq!(DhcpReconciler::validate(&missing).unwrap_err(), NetError::MissingName);
    assert!(DhcpReconciler::requests("eth0", None).is_empty());
    let lease = DhcpState { address: "10.0.0.2".to_string(), prefix_len: 24, router: "10.0.0.1".to_string() };
    let reqs = DhcpReconciler::requests("eth0", Some(&lease));
    assert_eq!(reqs.len(), 2);
    assert_eq!(reqs[0].id.to_text(), "dyn#network:address/eth0-dhcp");
    assert_eq!(reqs[0].spec, "{\"address\":\"10.0.0.2\",\"dev\":\"eth0\",\"prefix_len\":24}");
    assert_eq!(reqs[1].id.to_text(), "dyn#network:route/eth0-dhcp");
    assert_eq!(
        reqs[1].spec,
        "{\"Ipv4\":{\"destination\":\"0.0.0.0\",\"gateway\":\"10.0.0.1\",\"parent\":\"eth0-dhcp\",\"prefix_len\":0}}"
    );
}

#[test]
fn dhcp_link_problems() {
    match DhcpReconciler::link_problem(Ok(false)) {
        Some(Status::Error(StatusError::Other(m))) => assert_eq!(m, "link does not exist"),
        _ => panic!(),
    }
    match DhcpReconciler::link_problem(Err("io".to_string())) {
        Some(Status::Error(StatusError::Other(m))) => assert_eq!(m, "io"),
        _ => panic!(),
    }
    assert!(DhcpReconciler::link_problem(Ok(true)).is_none());
    assert!(DhcpReconciler::stops(Phase::Shutdown) && DhcpReconciler::stops(Phase::Deleting));
    assert!(!DhcpReconciler::stops(Phase::Running));
}

#[test]
fn interface_address_parts() {
    assert_eq!(split_address("10.0.0.2/24").unwrap(), ("10.0.0.2".to_string(), "24".to_string()));
    assert_eq!(split_address("10.0.0.2").unwrap_err(), NetError::InvalidAddressFormat);
    assert_eq!(NetError::InvalidAddressFormat.message(), "invalid address format");
    assert_eq!(parse_prefix("24"), Ok(24));
    assert_eq!(parse_prefix("+8"), Ok(8));
    assert_eq!(parse_prefix("255"), Ok(255));
    assert_eq!(parse_prefix(""), Err(PrefixError::Empty));
    assert_eq!(parse_prefix("+"), Err(PrefixError::InvalidDigit));
    assert_eq!(parse_prefix("-1"), Err(PrefixError::InvalidDigit));
    assert_eq!(parse_prefix("2x"), Err(PrefixError::InvalidDigit));
    assert_eq!(parse_prefix("256"), Err(PrefixError::TooLarge));
    assert_eq!(parse_prefix("300x"), Err(PrefixError::TooLarge));
    assert_eq!(PrefixError::TooLarge.message(), "number too large to fit in target type");
    for s in ["0", "7", "+19", "", "+", "a", "1000", "25a"] {
        assert_eq!(parse_prefix(s).ok(), s.parse::<u8>().ok(), "{s}");
    }
}

#[test]
fn interface_requests_link_address_and_route() {
    let _ = InterfaceReconciler::new();
    let spec = InterfaceSpec { address: "10.0.0.2/24".to_string(), gateway: IpAddress::V4("10.0.0.1".to_string()) };
    let dspec = InterfaceDerivedSpec { name: "eth0".to_string(), address: "10.0.0.2".to_string(), prefix_len: 24 };
    let r = InterfaceReconciler::reconcile(&spec, &dspec);
    assert!(matches!(r.status, Status::Done));
    assert_eq!(r.children.len(), 3);
    assert_eq!(r.children[0].id.to_text(), "dyn#network:link/eth0");
    assert_eq!(r.children[0].spec, "{\"admin_up\":true,\"link_type\":{\"Unspec\":{}},\"name\":\"eth0\"}");
    assert_eq!(r.children[1].id.to_text(), "dyn#network:address/dyn-eth0-iface");
    assert_eq!(r.children[2].id.to_text(), "dyn#network:route/dyn-eth0-iface");
    assert_eq!(
        r.children[2].spec,
        "{\"Ipv4\":{\"destination\":\"0.0.0.0\",\"gateway\":\"10.0.0.1\",\"parent\":\"eth0\",\"prefix_len\":0}}"
    );
    let v6 = InterfaceSpec { address: "fd00::2/64".to_string(), gateway: IpAddress::V6("fd00::1".to_string()) };
    let children = InterfaceReconciler::get_children(&v6, &dspec);
    assert_eq!(
        children[2].spec,
        "{\"Ipv6\":{\"destination\":\"::\",\"gateway\":\"fd00::1\",\"parent\":\"eth0\",\"prefix_len\":0}}"
    );
}

#[test]
fn time_daemon() {
    let _ = NtpReconciler::new();
    let spec = NtpSpec {
        pools: vec!["pool.ntp.org".to_string()],
        servers: vec!["a".to_string(), "b".to_string()],
        depends_on: vec![Key { schema: "network:dhcp".to_string(), name: Some("eth0".to_string()) }],
    };
    assert_eq!(
        NtpReconciler::ntpd_args(&spec),
        vec!["-n", "-d", "-q", "-p", "a", "-p", "b", "-p", "pool.ntp.org"]
    );
    assert!(matches!(NtpReconciler::answer(Phase::Running, &spec, true).status, Status::Done));
    assert!(matches!(NtpReconciler::answer(Phase::Running, &spec, false).status, Status::NotReady));
    let stopped = NtpReconciler::answer(Phase::Shutdown, &spec, true);
    assert!(matches!(stopped.status, Status::Deleted));
    assert!(stopped.dependencies.is_empty());
    assert_eq!(NtpReconciler::get_deps(&spec).size(), 1);
}

#[test]
fn link_header_flags() {
    assert_eq!(containeros::network::header_flags(0x1 | 0x40), (true, true, true));
    assert_eq!(containeros::network::header_flags(0x80), (false, false, false));
}

#[test]
fn address_pass_answers_are_ready_when_settled() {
    let spec = AddressSpec { dev: "dummy0".to_string(), address: IpAddr::V4(v4(10, 0, 0, 2)), prefix_len: 24 };
    let done = AddressReconciler::pass_answer(
        Phase::Running,
        &spec,
        Ok((Some(AddressState { index: 2 }), AddressAction::Noop)),
    );
    assert!(matches!(done.status, Status::Ready));
    assert_eq!(done.state.unwrap().index, 2);
    assert!(done.children.is_empty());
    assert_eq!(done.dependencies.at(0).to_text(), "dyn#network:link/dummy0");
    let failed = AddressReconciler::pass_answer(Phase::Running, &spec, Err(("no link".to_string(), None)));
    assert!(matches!(failed.status, Status::Error(StatusError::Other(ref m)) if m == "no link"));
    // the same address written another way is the same address
    let same = AddressSpec { dev: "dummy0".to_string(), address: IpAddr::V4(0x0a00_0002), prefix_len: 24 };
    assert!(AddressReconciler::validate_spec_change(&spec, &same).is_ok());
}

#[test]
fn link_and_route_pass_answers() {
    let l = LinkReconciler::pass_answer(Phase::Running, Ok((Some(link_state(true)), LinkAction::Noop)));
    assert!(matches!(l.status, Status::Ready));
    assert_eq!(l.state.unwrap().index, 2);
    assert_eq!(l.dependencies.size(), 0);
    let created = LinkReconciler::pass_answer(Phase::Running, Ok((None, LinkAction::Create { dummy: true, up: true })));
    assert!(matches!(created.status, Status::NotReady));
    let r = RouteReconciler::pass_answer(Phase::Deleting, &default_route(Some("eth0-dhcp")), Ok((None, RouteAction::Noop)));
    assert!(matches!(r.status, Status::Deleted));
    assert_eq!(r.dependencies.at(0).to_text(), "dyn#network:address/eth0-dhcp");
}

#[test]
fn dhcp_pass_answers() {
    let k = Key { schema: "network:dhcp".to_string(), name: Some("eth0".to_string()) };
    let missing = DhcpReconciler::pass_answer(Phase::Running, &k, "eth0", Ok(false), Ok(None)).unwrap();
    assert!(matches!(missing.status, Status::Error(StatusError::Other(ref m)) if m == "link does not exist"));
    let stopped = DhcpReconciler::pass_answer(Phase::Shutdown, &k, "eth0", Ok(true), Ok(None)).unwrap();
    assert!(matches!(stopped.status, Status::Deleted));
    let lease = DhcpState { address: "10.0.0.2".to_string(), prefix_len: 24, router: "10.0.0.1".to_string() };
    let ready = DhcpReconciler::pass_answer(Phase::Running, &k, "eth0", Ok(true), Ok(Some(lease))).unwrap();
    assert!(matches!(ready.status, Status::Ready));
    assert_eq!(ready.children.len(), 2);
    assert_eq!(ready.state.unwrap().address, "10.0.0.2");
    assert_eq!(ready.dependencies.at(0).to_text(), "dyn#network:link/eth0");
    let unnamed = Key { schema: "network:dhcp".to_string(), name: None };
    assert_eq!(
        DhcpReconciler::pass_answer(Phase::Running, &unnamed, "eth0", Ok(true), Ok(None)).unwrap_err(),
        NetError::MissingName
    );
}
