//! The decisions of the configuration managers that turn user configuration
//! into resources: the container manager (a container configuration asks for
//! a container, which is pulled, created, started or stopped) and the network
//! manager (a link configuration asks for a link, an address and a route).
use vstd::prelude::*;

use crate::text::{copy_strings, join, join_strings, str_eq, texts};

verus! {

/// A resource to create on behalf of a configuration: schema, name and
/// specification.
#[derive(Debug)]
pub struct SubResourceCreate<T> {
    pub schema: String,
    pub name: String,
    pub spec: T,
}

/// A resource of a manager, by schema and name.
#[derive(Debug)]
pub struct Identity {
    pub schema: String,
    pub name: String,
}

/// A request to reconcile a user configuration.
#[derive(Debug)]
pub struct ReconcileUserConfigRequest<Spec, State> {
    pub schema: String,
    pub name: String,
    pub spec: Spec,
    pub state: Option<State>,
    pub children: Vec<Identity>,
}

/// A request to reconcile a resource created on behalf of `owner`.
#[derive(Debug)]
pub struct ReconcileDynamicResourceRequest<Spec, State> {
    pub schema: String,
    pub name: String,
    pub spec: Spec,
    pub state: Option<State>,
    pub children: Vec<Identity>,
    pub owner: Identity,
}

// ---------------------------------------------------------------- containers

/// The reconciler of containers.
#[derive(Debug)]
pub struct Container;

/// A container: its image, whether it runs, and its command.
#[derive(Debug)]
pub struct ContainerSpec {
    pub image: String,
    pub running: bool,
    pub cmd: Vec<String>,
}

/// What is known of an existing container.
#[derive(Debug)]
pub struct ContainerState {
    pub id: String,
    pub image: String,
    pub running: bool,
    pub cmd: String,
}

/// What a pass does to a container.
#[derive(Debug)]
pub enum ContainerPlan {
    Create,
    Delete,
    Pull(String),
    Start(String),
    Stop(String),
    Noop,
}

/// A container plan as plain values.
pub enum ContainerPlanView {
    Create,
    Delete,
    Pull(Seq<char>),
    Start(Seq<char>),
    Stop(Seq<char>),
    Noop,
}

impl View for ContainerPlan {
    type V = ContainerPlanView;

    open spec fn view(&self) -> ContainerPlanView {
        match self {
            ContainerPlan::Create => ContainerPlanView::Create,
            ContainerPlan::Delete => ContainerPlanView::Delete,
            ContainerPlan::Pull(s) => ContainerPlanView::Pull(s@),
            ContainerPlan::Start(s) => ContainerPlanView::Start(s@),
            ContainerPlan::Stop(s) => ContainerPlanView::Stop(s@),
            ContainerPlan::Noop => ContainerPlanView::Noop,
        }
    }
}

/// The plan for the container `name`: pull its image when missing; create
/// it when missing; recreate it (delete first) when it runs another image or
/// command; start or stop it to match; else nothing.
pub open spec fn container_plan(
    name: Seq<char>,
    spec: ContainerSpec,
    image_present: bool,
    state: Option<(Seq<char>, Seq<char>, bool)>,
) -> ContainerPlanView {
    if !image_present {
        ContainerPlanView::Pull(spec.image@)
    } else {
        match state {
            None => ContainerPlanView::Create,
            Some((image, cmd, running)) => if spec.image@ != image {
                ContainerPlanView::Delete
            } else if join(texts(spec.cmd@), " "@) != cmd {
                ContainerPlanView::Delete
            } else if spec.running && !running {
                ContainerPlanView::Start(name)
            } else if !spec.running && running {
                ContainerPlanView::Stop(name)
            } else {
                ContainerPlanView::Noop
            },
        }
    }
}

/// The image, command and running flag of an observed container.
pub open spec fn container_seen(state: Option<&ContainerState>) -> Option<(Seq<char>, Seq<char>, bool)> {
    match state {
        Some(s) => Some((s.image@, s.cmd@, s.running)),
        None => None,
    }
}

impl Container {
    /// The schema of containers.
    pub open spec fn schema() -> Seq<char> {
        "res#containeros::container::container"@
    }

    /// The plan for the container `name`, knowing whether its image is
    /// present and what the container looks like.
    pub fn plan(name: &str, spec: &ContainerSpec, image_present: bool, state: Option<&ContainerState>) -> (r: ContainerPlan)
        ensures
            r@ == container_plan(name@, *spec, image_present, container_seen(state)),
    {
        if !image_present {
            return ContainerPlan::Pull(spec.image.clone());
        }
        match state {
            None => ContainerPlan::Create,
            Some(s) => {
                if !str_eq(spec.image.as_str(), s.image.as_str()) {
                    return ContainerPlan::Delete;
                }
                let cmd = join_strings(&spec.cmd, " ");
                if !str_eq(cmd.as_str(), s.cmd.as_str()) {
                    return ContainerPlan::Delete;
                }
                if spec.running && !s.running {
                    ContainerPlan::Start(name.to_string())
                } else if !spec.running && s.running {
                    ContainerPlan::Stop(name.to_string())
                } else {
                    ContainerPlan::Noop
                }
            },
        }
    }
}

/// The reconciler of container configurations.
#[derive(Debug)]
pub struct ContainerConfig;

/// A container configuration: the container's image, whether it runs, and
/// its command.
#[derive(Debug)]
pub struct ContainerConfigSpec {
    pub image: String,
    pub running: bool,
    pub cmd: Vec<String>,
}

/// A container configuration has no state of its own.
#[derive(Debug)]
pub struct ContainerConfigState {}

/// What a container configuration asks for.
#[derive(Debug)]
pub struct ContainerConfigPlan {
    pub children: Vec<SubResourceCreate<ContainerSpec>>,
}

impl ContainerConfig {
    /// The plan of the configuration `name`: one container of the same name
    /// with the same image, running flag and command.
    pub fn plan(name: &str, spec: &ContainerConfigSpec) -> (r: ContainerConfigPlan)
        ensures
            r.children@.len() == 1,
            r.children@[0].schema@ == Container::schema(),
            r.children@[0].name@ == name@,
            r.children@[0].spec.image@ == spec.image@,
            r.children@[0].spec.running == spec.running,
            texts(r.children@[0].spec.cmd@) == texts(spec.cmd@),
    {
        let cmd = copy_strings(&spec.cmd);
        let child = SubResourceCreate {
            schema: "res#containeros::container::container".to_string(),
            name: name.to_string(),
            spec: ContainerSpec { image: spec.image.clone(), running: spec.running, cmd },
        };
        ContainerConfigPlan { children: vec![child] }
    }
}

// ---------------------------------------------------------------- network

/// The kind of a link of the network manager.
#[derive(Debug, Clone, Copy, PartialEq, Eq, Structural)]
pub enum LinkType {
    Dummy,
    Ethernet,
}

/// The operational state of a link of the network manager.
#[derive(Debug, Clone, Copy, PartialEq, Eq, Structural)]
pub enum LinkOperState {
    Unknown,
    NotPresent,
    Down,
    LowerLayerDown,
    Testing,
    Dormant,
    Up,
    Other(u8),
}

/// A link of the network manager.
#[derive(Debug)]
pub struct LinkSpec {
    pub link_type: LinkType,
    pub admin_up: bool,
    pub mtu: Option<u32>,
    pub address: Option<[u8; 6]>,
    pub broadcast: Option<[u8; 6]>,
    pub altnames: Vec<String>,
    pub arp: bool,
    pub promiscuous: bool,
}

/// What is known of an existing link.
#[derive(Debug)]
pub struct LinkState {
    pub index: u32,
    pub running: bool,
    pub admin_up: bool,
    pub oper_state: LinkOperState,
    pub mtu: u32,
    pub address: [u8; 6],
    pub broadcast: [u8; 6],
    pub arp: bool,
    pub promiscuity: u32,
}

/// The reconciler of links.
#[derive(Debug)]
pub struct Link;

/// What a pass does to a link of the network manager.
#[derive(Debug, Clone, Copy, PartialEq, Eq, Structural)]
pub enum LinkAction {
    Create,
    Modify,
    Noop,
}

impl Link {
    /// The plan for a link: a dummy one is created when missing and
    /// modified to match otherwise; an ethernet one is modified when it
    /// exists and left alone when it does not.
    pub fn plan(link_type: LinkType, exists: bool) -> (r: LinkAction)
        ensures
            r == (match (link_type, exists) {
                (LinkType::Dummy, false) => LinkAction::Create,
                (_, true) => LinkAction::Modify,
                (LinkType::Ethernet, false) => LinkAction::Noop,
            }),
    {
        match (link_type, exists) {
            (LinkType::Dummy, false) => LinkAction::Create,
            (_, true) => LinkAction::Modify,
            (LinkType::Ethernet, false) => LinkAction::Noop,
        }
    }
}

/// An address of the network manager.
#[derive(Debug)]
pub struct AddressSpec {
    pub link_name: String,
    /// The IPv4 address as a number.
    pub address: u32,
    pub prefix_len: u8,
}

/// The reconciler of addresses.
#[derive(Debug)]
pub struct Address;

impl Address {
    /// An address is added only when it has no recorded state and none was
    /// found on its link.
    pub fn should_create(recorded: bool, found: bool) -> (r: bool)
        ensures
            r == (!recorded && !found),
    {
        !recorded && !found
    }
}

/// A route of the network manager (IPv4 addresses as numbers).
#[derive(Debug)]
pub struct RouteSpec {
    pub gateway: u32,
    pub destination: u32,
    pub prefix_len: u8,
}

/// What is known of an existing route.
#[derive(Debug)]
pub struct RouteState {}

/// The reconciler of routes.
#[derive(Debug)]
pub struct Route;

impl Route {
    /// A route is added only when it has no recorded state and none was
    /// found.
    pub fn should_create(recorded: bool, found: bool) -> (r: bool)
        ensures
            r == (!recorded && !found),
    {
        !recorded && !found
    }
}

/// The kind of link a link configuration asks for.
#[derive(Debug, Clone, Copy, PartialEq, Eq, Structural)]
pub enum LinkConfigType {
    Dummy,
    Ethernet,
}

/// A link configuration: the link and its IPv4 address, subnet and gateway.
#[derive(Debug)]
pub struct LinkConfigSpec {
    pub up: bool,
    pub mtu: Option<u32>,
    pub address: Option<[u8; 6]>,
    pub broadcast: Option<[u8; 6]>,
    pub altnames: Option<Vec<String>>,
    pub arp: Option<bool>,
    pub promiscuous: Option<bool>,
    pub link_type: LinkConfigType,
    pub ip_address: u32,
    pub ip_subnet: u8,
    pub ip_gateway: u32,
}

/// A link configuration has no state of its own.
#[derive(Debug)]
pub struct LinkConfigState {}

/// What a link configuration asks for.
#[derive(Debug)]
pub struct LinkConfigPlan {
    pub link: SubResourceCreate<LinkSpec>,
    pub address: SubResourceCreate<AddressSpec>,
    pub route: SubResourceCreate<RouteSpec>,
}

/// The reconciler of link configurations.
#[derive(Debug)]
pub struct LinkConfig;

impl LinkConfig {
    /// The plan of the configuration `name`: a link, an address and a
    /// default route, all named `name`; the link is up as configured, with
    /// ARP on and promiscuity off unless configured otherwise.
    pub fn plan(name: &str, spec: &LinkConfigSpec) -> (r: LinkConfigPlan)
        ensures
            r.link.schema@ == "res#containeros::net::link"@,
            r.link.name@ == name@,
            r.link.spec.admin_up == spec.up,
            r.link.spec.mtu == spec.mtu,
            r.link.spec.address == spec.address,
            r.link.spec.broadcast == spec.broadcast,
            texts(r.link.spec.altnames@) == (match spec.altnames {
                Some(v) => texts(v@),
                None => Seq::empty(),
            }),
            r.link.spec.arp == (match spec.arp {
                Some(b) => b,
                None => true,
            }),
            r.link.spec.promiscuous == (match spec.promiscuous {
                Some(b) => b,
                None => false,
            }),
            r.link.spec.link_type == (match spec.link_type {
                LinkConfigType::Dummy => LinkType::Dummy,
                LinkConfigType::Ethernet => LinkType::Ethernet,
            }),
            r.address.schema@ == "res#containeros::net::address"@,
            r.address.name@ == name@,
            r.address.spec.link_name@ == name@,
            r.address.spec.address == spec.ip_address,
            r.address.spec.prefix_len == spec.ip_subnet,
            r.route.schema@ == "res#containeros::net::route"@,
            r.route.name@ == name@,
            r.route.spec.gateway == spec.ip_gateway,
            r.route.spec.destination == 0,
            r.route.spec.prefix_len == 0,
    {
        let altnames = match &spec.altnames {
            Some(v) => copy_strings(v),
            None => {
                let v: Vec<String> = Vec::new();
                assert(texts(v@) =~= Seq::<Seq<char>>::empty());
                v
            },
        };
        let link = SubResourceCreate {
            schema: "res#containeros::net::link".to_string(),
            name: name.to_string(),
            spec: LinkSpec {
                link_type: match spec.link_type {
                    LinkConfigType::Dummy => LinkType::Dummy,
                    LinkConfigType::Ethernet => LinkType::Ethernet,
                },
                admin_up: spec.up,
                mtu: spec.mtu,
                address: spec.address,
                broadcast: spec.broadcast,
                altnames,
                arp: match spec.arp {
                    Some(b) => b,
                    None => true,
                },
                promiscuous: match spec.promiscuous {
                    Some(b) => b,
                    None => false,
                },
            },
        };
        let address = SubResourceCreate {
            schema: "res#containeros::net::address".to_string(),
            name: name.to_string(),
            spec: AddressSpec { link_name: name.to_string(), address: spec.ip_address, prefix_len: spec.ip_subnet },
        };
        let route = SubResourceCreate {
            schema: "res#containeros::net::route".to_string(),
            name: name.to_string(),
            spec: RouteSpec { gateway: spec.ip_gateway, destination: 0, prefix_len: 0 },
        };
        LinkConfigPlan { link, address, route }
    }
}

} // verus!
