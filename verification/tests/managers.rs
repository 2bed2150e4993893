use containeros::managers::{
    Container, ContainerConfig, ContainerConfigSpec, ContainerPlan, ContainerSpec, ContainerState, Link, LinkAction,
    LinkConfig, LinkConfigSpec, LinkConfigType, LinkType, Address, Route,
};

fn spec(running: bool) -> ContainerSpec {
    ContainerSpec { image: "busybox".to_string(), running, cmd: vec!["sleep".to_string(), "infinity".to_string()] }
}

fn state(image: &str, cmd: &str, running: bool) -> ContainerState {
    ContainerState { id: "1".to_string(), image: image.to_string(), running, cmd: cmd.to_string() }
}

#[test]
fn container_plans() {
    match Container::plan("c", &spec(true), false, None) {
        ContainerPlan::Pull(i) => assert_eq!(i, "busybox"),
        _ => panic!(),
    }
    assert!(matches!(Container::plan("c", &spec(true), true, None), ContainerPlan::Create));
    assert!(matches!(Container::plan("c", &spec(true), true, Some(&state("other", "sleep infinity", true))), ContainerPlan::Delete));
    assert!(matches!(Container::plan("c", &spec(true), true, Some(&state("busybox", "sleep 1", true))), ContainerPlan::Delete));
    assert!(matches!(Container::plan("c", &spec(true), true, Some(&state("busybox", "sleep infinity", false))), ContainerPlan::Start(_)));
    assert!(matches!(Container::plan("c", &spec(false), true, Some(&state("busybox", "sleep infinity", true))), ContainerPlan::Stop(_)));
    assert!(matches!(Container::plan("c", &spec(true), true, Some(&state("busybox", "sleep infinity", true))), ContainerPlan::Noop));
}

#[test]
fn container_configuration_asks_for_a_container() {
    let plan = ContainerConfig::plan(
        "web",
        &ContainerConfigSpec { image: "nginx".to_string(), running: true, cmd: vec![] },
    );
    assert_eq!(plan.children.len(), 1);
    assert_eq!(plan.children[0].schema, "res#containeros::container::container");
    assert_eq!(plan.children[0].name, "web");
    assert_eq!(plan.children[0].spec.image, "nginx");
}

#[test]
fn link_configuration_asks_for_link_address_and_route() {
    let spec = LinkConfigSpec {
        up: true,
        mtu: None,
        address: None,
        broadcast: None,
        altnames: None,
        arp: None,
        promiscuous: None,
        link_type: LinkConfigType::Ethernet,
        ip_address: 0x0a00020f,
        ip_subnet: 24,
        ip_gateway: 0x0a000202,
    };
    let plan = LinkConfig::plan("eth0", &spec);
    assert_eq!(plan.link.schema, "res#containeros::net::link");
    assert!(plan.link.spec.arp);
    assert!(!plan.link.spec.promiscuous);
    assert_eq!(plan.link.spec.link_type, LinkType::Ethernet);
    assert_eq!(plan.address.spec.address, 0x0a00020f);
    assert_eq!(plan.address.spec.link_name, "eth0");
    assert_eq!(plan.route.spec.gateway, 0x0a000202);
    assert_eq!(plan.route.spec.prefix_len, 0);
}

#[test]
fn link_address_and_route_plans() {
    assert_eq!(Link::plan(LinkType::Dummy, false), LinkAction::Create);
    assert_eq!(Link::plan(LinkType::Ethernet, false), LinkAction::Noop);
    assert_eq!(Link::plan(LinkType::Ethernet, true), LinkAction::Modify);
    assert!(Address::should_create(false, false));
    assert!(!Address::should_create(true, false));
    assert!(!Route::should_create(false, true));
}
