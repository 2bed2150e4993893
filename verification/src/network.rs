//! The network reconcilers' decisions: links, addresses and routes (what a
//! pass plans and which status it ends with, which observed route matches a
//! specification), DHCP and interface requests, and the time daemon.
//!
//! The addresses that specifications and the kernel report are held by
//! their numeric value, so that two spellings of one address compare equal;
//! the addresses that go into the specifications of requested resources are
//! written in their textual form.
use vstd::prelude::*;

use crate::container::{dyn_class, key_classes};
use crate::json::{decimal, json_str, push_decimal, push_json_str};
use crate::model::{
    opt_text, IdClass, Identity, IdentityView, Key, KeyView, Phase, PrivateKind, Status, StatusErrorView,
    StatusView,
};
use crate::reconcile::{dynamic, failed_with, named_key, TypedResponse};
use crate::resource::{IdSet, ResourceResponse, SubResourceCreate, SubResourceView};
use crate::text::{push_char, push_str, str_eq};

verus! {

/// Why a network pass fails before it plans.
#[derive(Debug, Clone, Copy, PartialEq, Eq, Structural)]
pub enum NetError {
    MultipleLinks,
    MultipleAddresses,
    MultipleRoutes,
    NoMessages,
    NoLink,
    LinkMissing,
    DataWithoutKind,
    AddressChanged,
    RouteChanged,
    InvalidAddressFormat,
    MissingName,
}

pub open spec fn net_error_text(e: NetError) -> Seq<char> {
    match e {
        NetError::MultipleLinks => "found multiple links while at most one was expected"@,
        NetError::MultipleAddresses => "found multiple addresses while at most one was expected"@,
        NetError::MultipleRoutes => "found multiple routees while at most one was expected"@,
        NetError::NoMessages => "no messages receieved"@,
        NetError::NoLink => "no link"@,
        NetError::LinkMissing => "link does not exist"@,
        NetError::DataWithoutKind => "got link data without link kind"@,
        NetError::AddressChanged => "cannot change address specification"@,
        NetError::RouteChanged => "cannot change route specification"@,
        NetError::InvalidAddressFormat => "invalid address format"@,
        NetError::MissingName => "missing name"@,
    }
}

impl NetError {
    /// The message of the error.
    pub fn message(&self) -> (r: &'static str)
        ensures
            r@ == net_error_text(*self),
    {
        match self {
            NetError::MultipleLinks => "found multiple links while at most one was expected",
            NetError::MultipleAddresses => "found multiple addresses while at most one was expected",
            NetError::MultipleRoutes => "found multiple routees while at most one was expected",
            NetError::NoMessages => "no messages receieved",
            NetError::NoLink => "no link",
            NetError::LinkMissing => "link does not exist",
            NetError::DataWithoutKind => "got link data without link kind",
            NetError::AddressChanged => "cannot change address specification",
            NetError::RouteChanged => "cannot change route specification",
            NetError::InvalidAddressFormat => "invalid address format",
            NetError::MissingName => "missing name",
        }
    }
}

/// The status after a pass whose last plan is `noop` or not: deleted once
/// nothing is left to do while being deleted, `settled` otherwise when
/// nothing is left, not ready while work is left.
pub open spec fn net_status(phase: Phase, noop: bool, settled: StatusView) -> StatusView {
    if !noop {
        StatusView::NotReady
    } else if phase == Phase::Deleting {
        StatusView::Deleted
    } else {
        settled
    }
}

/// Whether the netlink error code (negative) stands for "no such device".
pub fn is_nodev(code: i32) -> (r: bool)
    ensures
        r == (code == 19 || code == -19),
{
    code == 19 || code == -19
}

// ---------------------------------------------------------------- links

/// A dummy link.
#[derive(Debug)]
pub struct LinkSpecDummy {}

/// A link whose kind is left to the kernel (a physical one).
#[derive(Debug)]
pub struct LinkSpecUnspec {}

/// The kind of link a specification asks for.
#[derive(Debug)]
pub enum LinkSpecType {
    Dummy(LinkSpecDummy),
    Unspec(LinkSpecUnspec),
}

impl Default for LinkSpecType {
    /// A link of unspecified kind.
    fn default() -> (r: LinkSpecType)
        ensures
            r is Unspec,
    {
        LinkSpecType::Unspec(LinkSpecUnspec {})
    }
}

impl LinkSpecType {
    /// Whether the link is a physical one (of unspecified kind).
    pub fn is_physical(&self) -> (r: bool)
        ensures
            r == (*self is Unspec),
    {
        match self {
            LinkSpecType::Unspec(_) => true,
            _ => false,
        }
    }
}

/// A link: its name, whether it is administratively up, and its kind.
#[derive(Debug)]
pub struct LinkSpec {
    pub name: String,
    pub admin_up: bool,
    pub link_type: LinkSpecType,
}

/// The operational state of a link.
#[derive(Debug, Clone, Copy, PartialEq, Eq, Structural)]
pub enum LinkOperState {
    Unknown,
    NotPresent,
    Down,
    LowerLayerDown,
    Testing,
    Dormant,
    Up,
    Other(u8),
    Unsupported,
}

/// An observed dummy link.
#[derive(Debug)]
pub struct LinkStateDummy {}

/// An observed link of no particular kind.
#[derive(Debug)]
pub struct LinkStateUnspec {}

/// The kind of an observed link.
#[derive(Debug)]
pub enum LinkStateType {
    Dummy(LinkStateDummy),
    Unspec(LinkStateUnspec),
    /// A kind this reconciler does not handle, by its name.
    Unsupported(String),
}

impl Default for LinkStateType {
    /// A link of unspecified kind.
    fn default() -> (r: LinkStateType)
        ensures
            r is Unspec,
    {
        LinkStateType::Unspec(LinkStateUnspec {})
    }
}

impl LinkStateType {
    /// Whether the link is a physical one (of unspecified kind).
    pub fn is_physical(&self) -> (r: bool)
        ensures
            r == (*self is Unspec),
    {
        match self {
            LinkStateType::Unspec(_) => true,
            _ => false,
        }
    }
}

/// What is known of an existing link.
#[derive(Debug)]
pub struct LinkState {
    pub index: u32,
    pub running: bool,
    pub admin_up: bool,
    pub oper_state: LinkOperState,
    pub link_type: LinkStateType,
    pub mtu: u32,
    pub address: [u8; 6],
    pub broadcast: [u8; 6],
    pub alt_names: Vec<String>,
    pub arp: bool,
    pub promiscuity: u32,
}

/// The kind of an observed link, as plain values.
pub enum LinkKindView {
    Dummy,
    Unspec,
    Unsupported(Seq<char>),
}

/// The kind of an observed link from the kind and data the kernel reports:
/// none for a link of unspecified kind, `dummy` for a dummy one; any other
/// kind, or a kind with data, is unsupported; data without a kind is an
/// error.
pub open spec fn link_kind_spec(kind: Option<Seq<char>>, has_data: bool) -> Result<LinkKindView, NetError> {
    match (kind, has_data) {
        (None, false) => Ok(LinkKindView::Unspec),
        (None, true) => Err(NetError::DataWithoutKind),
        (Some(k), false) => if k == "dummy"@ {
            Ok(LinkKindView::Dummy)
        } else {
            Ok(LinkKindView::Unsupported(k))
        },
        (Some(k), true) => Ok(LinkKindView::Unsupported(k)),
    }
}

pub open spec fn link_kind_view(t: LinkStateType) -> LinkKindView {
    match t {
        LinkStateType::Dummy(_) => LinkKindView::Dummy,
        LinkStateType::Unspec(_) => LinkKindView::Unspec,
        LinkStateType::Unsupported(k) => LinkKindView::Unsupported(k@),
    }
}

/// Classifies an observed link by the kind (its name) and whether data came
/// with it.
pub fn link_type_of(kind: Option<String>, has_data: bool) -> (r: Result<LinkStateType, NetError>)
    ensures
        (match r {
            Ok(t) => link_kind_spec(opt_text(kind), has_data) == Ok::<LinkKindView, NetError>(link_kind_view(t)),
            Err(e) => link_kind_spec(opt_text(kind), has_data) == Err::<LinkKindView, NetError>(e),
        }),
{
    match kind {
        None => if has_data {
            Err(NetError::DataWithoutKind)
        } else {
            Ok(LinkStateType::Unspec(LinkStateUnspec {}))
        },
        Some(k) => if !has_data && str_eq(k.as_str(), "dummy") {
            Ok(LinkStateType::Dummy(LinkStateDummy {}))
        } else {
            Ok(LinkStateType::Unsupported(k))
        },
    }
}

/// The flag of a link that is administratively up.
pub const IFF_UP: u32 = 0x1;

/// The flag of a link whose carrier is up.
pub const IFF_RUNNING: u32 = 0x40;

/// The flag of a link without ARP.
pub const IFF_NOARP: u32 = 0x80;

/// What the flags of a link header say: whether it is up, whether it runs,
/// and whether it uses ARP.
pub fn header_flags(flags: u32) -> (r: (bool, bool, bool))
    ensures
        r == ((flags & IFF_UP) != 0, (flags & IFF_RUNNING) != 0, (flags & IFF_NOARP) == 0),
{
    ((flags & IFF_UP) != 0, (flags & IFF_RUNNING) != 0, (flags & IFF_NOARP) == 0)
}

/// What a pass does to a link.
#[derive(Debug, Clone, Copy, PartialEq, Eq, Structural)]
pub enum LinkAction {
    /// Create it, dummy or not, up or down.
    Create { dummy: bool, up: bool },
    /// Set it up or down.
    SetAdmin(bool),
    /// Delete the link of this index.
    Delete(u32),
    Noop,
}

/// The plan of a pass over a link observed as `current`: delete it while
/// being deleted; create it while running and missing; set it up or down
/// when it differs from the specification; else nothing.
pub open spec fn link_plan(phase: Phase, spec: LinkSpec, current: Option<(u32, bool)>) -> LinkAction {
    match (phase, current) {
        (Phase::Deleting, Some((index, _))) => LinkAction::Delete(index),
        (Phase::Running, None) => LinkAction::Create { dummy: spec.link_type is Dummy, up: spec.admin_up },
        (Phase::Running, Some((_, up))) => if up != spec.admin_up {
            LinkAction::SetAdmin(spec.admin_up)
        } else {
            LinkAction::Noop
        },
        _ => LinkAction::Noop,
    }
}

/// The index and the administrative state of an observed link.
pub open spec fn link_seen(current: Option<&LinkState>) -> Option<(u32, bool)> {
    match current {
        Some(l) => Some((l.index, l.admin_up)),
        None => None,
    }
}

/// The reconciler of links.
#[derive(Debug)]
pub struct LinkReconciler;

impl LinkReconciler {
    /// The plan of a pass over a link.
    pub fn plan(phase: Phase, spec: &LinkSpec, current: Option<&LinkState>) -> (r: LinkAction)
        ensures
            r == link_plan(phase, *spec, link_seen(current)),
    {
        match (phase, current) {
            (Phase::Deleting, Some(l)) => LinkAction::Delete(l.index),
            (Phase::Running, None) => LinkAction::Create {
                dummy: !spec.link_type.is_physical(),
                up: spec.admin_up,
            },
            (Phase::Running, Some(l)) => if l.admin_up != spec.admin_up {
                LinkAction::SetAdmin(spec.admin_up)
            } else {
                LinkAction::Noop
            },
            _ => LinkAction::Noop,
        }
    }

    /// The status after a pass: ready once nothing is left to do.
    pub fn status(phase: Phase, plan: LinkAction) -> (r: Status)
        ensures
            r@ == net_status(phase, plan == LinkAction::Noop, StatusView::Ready),
    {
        match (plan, phase) {
            (LinkAction::Noop, Phase::Deleting) => Status::Deleted,
            (LinkAction::Noop, _) => Status::Ready,
            _ => Status::NotReady,
        }
    }

    /// The answer of a pass over a link: the message of the step that failed
    /// with the state known then, or the state observed last and the plan
    /// made from it. No children; the status of the outcome; its
    /// dependencies.
    pub fn pass_answer(phase: Phase, outcome: Result<(Option<LinkState>, LinkAction), (String, Option<LinkState>)>) -> (r: TypedResponse<LinkState>)
        ensures
            r.status@ == (match outcome {
                Ok((_, p)) => net_status(phase, p == LinkAction::Noop, StatusView::Ready),
                Err((m, _)) => StatusView::Error(StatusErrorView::Other(m@)),
            }),
            r.state == (match outcome {
                Ok((s, _)) => s,
                Err((_, s)) => s,
            }),
            r.children@.len() == 0,
            r.dependencies@ == Set::<IdClass>::empty(),
    {
        let dependencies = IdSet::new();
        match outcome {
            Ok((state, plan)) => TypedResponse {
                status: Self::status(phase, plan),
                state,
                children: Vec::new(),
                dependencies,
            },
            Err((m, state)) => TypedResponse {
                status: failed_with(m),
                state,
                children: Vec::new(),
                dependencies,
            },
        }
    }
}

/// What a lookup that expects at most one answer makes of `count` answers:
/// more than one is the error `multiple`.
pub open spec fn single_spec(count: nat, multiple: NetError) -> Result<bool, NetError> {
    if count > 1 {
        Err(multiple)
    } else {
        Ok(count == 1)
    }
}

/// Checks that a lookup found at most one answer; whether it found one.
pub fn expect_single(count: usize, multiple: NetError) -> (r: Result<bool, NetError>)
    ensures
        r == single_spec(count as nat, multiple),
{
    if count > 1 {
        Err(multiple)
    } else {
        Ok(count == 1)
    }
}

// ---------------------------------------------------------------- addresses

/// An IP address by its numeric value: the 32 or 128 bits of the address,
/// most significant first (as `u32::from` and `u128::from` give them for the
/// standard library's address types).
#[derive(Debug, Clone, Copy, PartialEq, Eq, Structural)]
pub enum IpAddr {
    V4(u32),
    V6(u128),
}

/// An address on a link.
#[derive(Debug)]
pub struct AddressSpec {
    pub dev: String,
    pub address: IpAddr,
    pub prefix_len: u8,
}

/// What is known of an existing address: the index of its link.
#[derive(Debug, Clone, Copy, PartialEq, Eq, Structural)]
pub struct AddressState {
    pub index: u32,
}

/// What a pass does to an address.
#[derive(Debug, Clone, Copy, PartialEq, Eq, Structural)]
pub enum AddressAction {
    /// Add it to the link of this index.
    Create(u32),
    /// Remove it from the link of this index.
    Delete(u32),
    Noop,
}

/// The reconciler of addresses.
#[derive(Debug)]
pub struct AddressReconciler;

pub open spec fn address_plan(phase: Phase, link_index: u32, state: Option<AddressState>) -> AddressAction {
    match (phase, state) {
        (Phase::Deleting, Some(s)) => AddressAction::Delete(s.index),
        (Phase::Running, None) => AddressAction::Create(link_index),
        _ => AddressAction::Noop,
    }
}

/// Whether two address specifications are the same.
pub open spec fn same_address(a: AddressSpec, b: AddressSpec) -> bool {
    a.dev@ == b.dev@ && a.address == b.address && a.prefix_len == b.prefix_len
}

impl AddressReconciler {
    /// What an address depends on: its link.
    pub fn deps(spec: &AddressSpec) -> (r: IdSet)
        ensures
            r@ == set![dyn_class("network:link"@, spec.dev@)],
            r.privates_of_kind(PrivateKind::Dynamic),
    {
        let mut s = IdSet::new();
        s.insert(dynamic(named_key("network:link", spec.dev.as_str())));
        assert(s@ =~= set![dyn_class("network:link"@, spec.dev@)]);
        s
    }

    /// An address cannot change once created.
    pub fn validate_spec_change(old: &AddressSpec, spec: &AddressSpec) -> (r: Result<(), NetError>)
        ensures
            r is Ok <==> same_address(*old, *spec),
            r matches Err(e) ==> e == NetError::AddressChanged,
    {
        if str_eq(old.dev.as_str(), spec.dev.as_str()) && old.address == spec.address
            && old.prefix_len == spec.prefix_len {
            Ok(())
        } else {
            Err(NetError::AddressChanged)
        }
    }

    /// The plan of a pass over an address, on the link of `link_index`:
    /// remove it while being deleted; add it while running and missing.
    pub fn plan(phase: Phase, link_index: u32, state: Option<AddressState>) -> (r: AddressAction)
        ensures
            r == address_plan(phase, link_index, state),
    {
        match (phase, state) {
            (Phase::Deleting, Some(s)) => AddressAction::Delete(s.index),
            (Phase::Running, None) => AddressAction::Create(link_index),
            _ => AddressAction::Noop,
        }
    }

    /// The status after a pass: ready once nothing is left to do.
    pub fn status(phase: Phase, plan: AddressAction) -> (r: Status)
        ensures
            r@ == net_status(phase, plan == AddressAction::Noop, StatusView::Ready),
    {
        match (plan, phase) {
            (AddressAction::Noop, Phase::Deleting) => Status::Deleted,
            (AddressAction::Noop, _) => Status::Ready,
            _ => Status::NotReady,
        }
    }

    /// The answer of a pass over an address: the message of the step that failed
    /// with the state known then, or the state observed last and the plan
    /// made from it. No children; the status of the outcome; its
    /// dependencies.
    pub fn pass_answer(phase: Phase, spec: &AddressSpec, outcome: Result<(Option<AddressState>, AddressAction), (String, Option<AddressState>)>) -> (r: TypedResponse<AddressState>)
        ensures
            r.status@ == (match outcome {
                Ok((_, p)) => net_status(phase, p == AddressAction::Noop, StatusView::Ready),
                Err((m, _)) => StatusView::Error(StatusErrorView::Other(m@)),
            }),
            r.state == (match outcome {
                Ok((s, _)) => s,
                Err((_, s)) => s,
            }),
            r.children@.len() == 0,
            r.dependencies@ == set![dyn_class("network:link"@, spec.dev@)],
            r.dependencies.privates_of_kind(PrivateKind::Dynamic),
    {
        let dependencies = Self::deps(spec);
        match outcome {
            Ok((state, plan)) => TypedResponse {
                status: Self::status(phase, plan),
                state,
                children: Vec::new(),
                dependencies,
            },
            Err((m, state)) => TypedResponse {
                status: failed_with(m),
                state,
                children: Vec::new(),
                dependencies,
            },
        }
    }
}

// ---------------------------------------------------------------- routes

/// A route through a gateway, to a destination prefix (the default route for
/// a prefix of length 0); addresses by their numeric value. `parent` names
/// the address it needs.
#[derive(Debug)]
pub enum RouteSpec {
    Ipv4 { destination: u32, prefix_len: u8, gateway: u32, parent: Option<String> },
    Ipv6 { destination: u128, prefix_len: u8, gateway: u128, parent: Option<String> },
}

/// What is known of an existing route.
#[derive(Debug)]
pub struct RouteState {}

/// A route as the kernel reports it: its destination and gateway (if it
/// carries them), its prefix length, and whether its scope is universe.
#[derive(Debug)]
pub struct RouteSeen {
    pub destination: Option<IpAddr>,
    pub prefix_len: u8,
    pub gateway: Option<IpAddr>,
    pub universe: bool,
}

/// What a pass does to a route.
#[derive(Debug, Clone, Copy, PartialEq, Eq, Structural)]
pub enum RouteAction {
    Create,
    Delete,
    Noop,
}

/// The parts of a route specification: destination, prefix length, gateway,
/// parent, and the unspecified address of its family.
pub open spec fn route_parts(spec: RouteSpec) -> (IpAddr, u8, IpAddr, Option<Seq<char>>, IpAddr) {
    match spec {
        RouteSpec::Ipv4 { destination, prefix_len, gateway, parent } => (
            IpAddr::V4(destination),
            prefix_len,
            IpAddr::V4(gateway),
            opt_text(parent),
            IpAddr::V4(0),
        ),
        RouteSpec::Ipv6 { destination, prefix_len, gateway, parent } => (
            IpAddr::V6(destination),
            prefix_len,
            IpAddr::V6(gateway),
            opt_text(parent),
            IpAddr::V6(0),
        ),
    }
}

/// Whether an observed route is the one of the specification: same
/// destination (a route without one in the universe scope goes to the
/// unspecified address), same prefix length, same gateway.
pub open spec fn route_matches_spec(spec: RouteSpec, seen: RouteSeen) -> bool {
    let (dest, len, gw, _, unspecified) = route_parts(spec);
    let seen_dest = match seen.destination {
        Some(d) => Some(d),
        None => if seen.universe {
            Some(unspecified)
        } else {
            None
        },
    };
    &&& seen_dest == Some(dest)
    &&& seen.prefix_len == len
    &&& seen.gateway == Some(gw)
}

/// The family's numbers of a route specification: destination, prefix
/// length and gateway, as addresses of its family.
pub open spec fn route_addrs(spec: RouteSpec) -> (IpAddr, u8, IpAddr) {
    match spec {
        RouteSpec::Ipv4 { destination, prefix_len, gateway, .. } => (
            IpAddr::V4(destination),
            prefix_len,
            IpAddr::V4(gateway),
        ),
        RouteSpec::Ipv6 { destination, prefix_len, gateway, .. } => (
            IpAddr::V6(destination),
            prefix_len,
            IpAddr::V6(gateway),
        ),
    }
}

/// An observed route is the route of a specification exactly when it has
/// the specification's prefix length and gateway, and its destination is the
/// specification's, or it reports none, lies in the universe scope and the
/// specification's destination is the unspecified address of its family. In
/// particular a route to another destination never matches.
pub proof fn lemma_route_match(spec: RouteSpec, seen: RouteSeen)
    ensures
        route_matches_spec(spec, seen) ==> seen.prefix_len == route_addrs(spec).1 && seen.gateway == Some(
            route_addrs(spec).2,
        ),
        route_matches_spec(spec, seen) && seen.destination is Some ==> seen.destination == Some(
            route_addrs(spec).0,
        ),
        route_matches_spec(spec, seen) && seen.destination is None ==> seen.universe && (route_addrs(spec).0
            == IpAddr::V4(0) || route_addrs(spec).0 == IpAddr::V6(0)),
        seen.destination == Some(route_addrs(spec).0) && seen.prefix_len == route_addrs(spec).1
            && seen.gateway == Some(route_addrs(spec).2) ==> route_matches_spec(spec, seen),
        seen.destination is None && seen.universe && (route_addrs(spec).0 == IpAddr::V4(0) || route_addrs(
            spec,
        ).0 == IpAddr::V6(0)) && seen.prefix_len == route_addrs(spec).1 && seen.gateway == Some(
            route_addrs(spec).2,
        ) ==> route_matches_spec(spec, seen),
{
}

/// The positions of the observed routes that match.
pub open spec fn matching_routes(spec: RouteSpec, seen: Seq<RouteSeen>) -> Seq<int>
    decreases seen.len(),
{
    if seen.len() == 0 {
        Seq::empty()
    } else if route_matches_spec(spec, seen.last()) {
        matching_routes(spec, seen.drop_last()).push(seen.len() - 1)
    } else {
        matching_routes(spec, seen.drop_last())
    }
}

fn opt_addr_is(o: Option<IpAddr>, a: IpAddr) -> (r: bool)
    ensures
        r == (o == Some(a)),
{
    match o {
        Some(t) => t == a,
        None => false,
    }
}

/// The route reconciler.
#[derive(Debug)]
pub struct RouteReconciler;

impl RouteReconciler {
    /// Whether an observed route is the one of the specification.
    pub fn matches(spec: &RouteSpec, seen: &RouteSeen) -> (r: bool)
        ensures
            r == route_matches_spec(*spec, *seen),
    {
        let (dest, len, gw, unspecified) = match spec {
            RouteSpec::Ipv4 { destination, prefix_len, gateway, .. } => (
                IpAddr::V4(*destination),
                *prefix_len,
                IpAddr::V4(*gateway),
                IpAddr::V4(0),
            ),
            RouteSpec::Ipv6 { destination, prefix_len, gateway, .. } => (
                IpAddr::V6(*destination),
                *prefix_len,
                IpAddr::V6(*gateway),
                IpAddr::V6(0),
            ),
        };
        let dest_ok = match seen.destination {
            Some(d) => d == dest,
            None => seen.universe && unspecified == dest,
        };
        dest_ok && seen.prefix_len == len && opt_addr_is(seen.gateway, gw)
    }

    /// Picks the route of the specification among those the kernel reported:
    /// none, or the position of the only one that matches; an error when
    /// more than one matches.
    pub fn select(spec: &RouteSpec, seen: &Vec<RouteSeen>) -> (r: Result<Option<usize>, NetError>)
        ensures
            (match r {
                Err(e) => e == NetError::MultipleRoutes && matching_routes(*spec, seen@).len() > 1,
                Ok(None) => matching_routes(*spec, seen@).len() == 0,
                Ok(Some(i)) => matching_routes(*spec, seen@) == seq![i as int],
            }),
    {
        let mut found: Option<usize> = None;
        let mut i: usize = 0;
        while i < seen.len()
            invariant
                i <= seen@.len(),
                (match found {
                    None => matching_routes(*spec, seen@.take(i as int)).len() == 0,
                    Some(j) => matching_routes(*spec, seen@.take(i as int)) == seq![j as int],
                }),
            decreases seen@.len() - i,
        {
            let ghost pre = seen@.take(i as int);
            let ghost post = seen@.take(i + 1);
            proof {
                assert(post.drop_last() =~= pre);
                assert(post.last() == seen@[i as int]);
            }
            if Self::matches(spec, &seen[i]) {
                match found {
                    Some(_) => {
                        proof {
                            lemma_matching_prefix(*spec, seen@, i + 1);
                        }
                        return Err(NetError::MultipleRoutes);
                    },
                    None => {
                        found = Some(i);
                    },
                }
            }
            i = i + 1;
        }
        proof {
            assert(seen@.take(seen@.len() as int) =~= seen@);
        }
        Ok(found)
    }

    /// What a route depends on: the address it names, if any.
    pub fn deps(spec: &RouteSpec) -> (r: IdSet)
        ensures
            r@ == (match route_parts(*spec).3 {
                Some(p) => set![dyn_class("network:address"@, p)],
                None => Set::<IdClass>::empty(),
            }),
            r.privates_of_kind(PrivateKind::Dynamic),
    {
        let parent = match spec {
            RouteSpec::Ipv4 { parent, .. } => parent,
            RouteSpec::Ipv6 { parent, .. } => parent,
        };
        let mut s = IdSet::new();
        match parent {
            Some(p) => {
                s.insert(dynamic(named_key("network:address", p.as_str())));
                assert(s@ =~= set![dyn_class("network:address"@, p@)]);
            },
            None => {},
        }
        s
    }

    /// A route cannot change once created.
    pub fn validate_spec_change(old: &RouteSpec, spec: &RouteSpec) -> (r: Result<(), NetError>)
        ensures
            r is Ok <==> (route_parts(*old) == route_parts(*spec) && (old is Ipv4 <==> spec is Ipv4)),
            r matches Err(e) ==> e == NetError::RouteChanged,
    {
        let same = match (old, spec) {
            (
                RouteSpec::Ipv4 { destination: d1, prefix_len: l1, gateway: g1, parent: p1 },
                RouteSpec::Ipv4 { destination: d2, prefix_len: l2, gateway: g2, parent: p2 },
            ) => *d1 == *d2 && *l1 == *l2 && *g1 == *g2 && same_opt(p1, p2),
            (
                RouteSpec::Ipv6 { destination: d1, prefix_len: l1, gateway: g1, parent: p1 },
                RouteSpec::Ipv6 { destination: d2, prefix_len: l2, gateway: g2, parent: p2 },
            ) => *d1 == *d2 && *l1 == *l2 && *g1 == *g2 && same_opt(p1, p2),
            _ => false,
        };
        if same {
            Ok(())
        } else {
            Err(NetError::RouteChanged)
        }
    }

    /// The plan of a pass over a route: delete it while being deleted;
    /// create it while running and missing.
    pub fn plan(phase: Phase, exists: bool) -> (r: RouteAction)
        ensures
            r == (match (phase, exists) {
                (Phase::Deleting, true) => RouteAction::Delete,
                (Phase::Running, false) => RouteAction::Create,
                _ => RouteAction::Noop,
            }),
    {
        match (phase, exists) {
            (Phase::Deleting, true) => RouteAction::Delete,
            (Phase::Running, false) => RouteAction::Create,
            _ => RouteAction::Noop,
        }
    }

    /// The status after a pass: ready once nothing is left to do.
    pub fn status(phase: Phase, plan: RouteAction) -> (r: Status)
        ensures
            r@ == net_status(phase, plan == RouteAction::Noop, StatusView::Ready),
    {
        match (plan, phase) {
            (RouteAction::Noop, Phase::Deleting) => Status::Deleted,
            (RouteAction::Noop, _) => Status::Ready,
            _ => Status::NotReady,
        }
    }

    /// The answer of a pass over a route: the message of the step that failed
    /// with the state known then, or the state observed last and the plan
    /// made from it. No children; the status of the outcome; its
    /// dependencies.
    pub fn pass_answer(phase: Phase, spec: &RouteSpec, outcome: Result<(Option<RouteState>, RouteAction), (String, Option<RouteState>)>) -> (r: TypedResponse<RouteState>)
        ensures
            r.status@ == (match outcome {
                Ok((_, p)) => net_status(phase, p == RouteAction::Noop, StatusView::Ready),
                Err((m, _)) => StatusView::Error(StatusErrorView::Other(m@)),
            }),
            r.state == (match outcome {
                Ok((s, _)) => s,
                Err((_, s)) => s,
            }),
            r.children@.len() == 0,
            r.dependencies@ == (match route_parts(*spec).3 {
                Some(p) => set![dyn_class("network:address"@, p)],
                None => Set::<IdClass>::empty(),
            }),
            r.dependencies.privates_of_kind(PrivateKind::Dynamic),
    {
        let dependencies = Self::deps(spec);
        match outcome {
            Ok((state, plan)) => TypedResponse {
                status: Self::status(phase, plan),
                state,
                children: Vec::new(),
                dependencies,
            },
            Err((m, state)) => TypedResponse {
                status: failed_with(m),
                state,
                children: Vec::new(),
                dependencies,
            },
        }
    }
}

fn same_opt(a: &Option<String>, b: &Option<String>) -> (r: bool)
    ensures
        r == (opt_text(*a) == opt_text(*b)),
{
    match (a, b) {
        (Some(x), Some(y)) => str_eq(x.as_str(), y.as_str()),
        (None, None) => true,
        _ => false,
    }
}

/// Once a second match is found, at least two routes match.
proof fn lemma_matching_prefix(spec: RouteSpec, seen: Seq<RouteSeen>, n: int)
    requires
        0 < n <= seen.len(),
        matching_routes(spec, seen.take(n)).len() >= 2,
    ensures
        matching_routes(spec, seen).len() > 1,
    decreases seen.len() - n,
{
    if n < seen.len() {
        let t = seen.take(n + 1);
        assert(t.drop_last() =~= seen.take(n));
        lemma_matching_prefix(spec, seen, n + 1);
    } else {
        assert(seen.take(n) =~= seen);
    }
}

// ---------------------------------------------------------------- requests

/// The specification, in JSON, of an address resource.
pub open spec fn address_json(dev: Seq<char>, address: Seq<char>, prefix_len: u8) -> Seq<char> {
    "{\"address\":"@ + json_str(address) + ",\"dev\":"@ + json_str(dev) + ",\"prefix_len\":"@ + decimal(
        prefix_len as nat,
    ) + "}"@
}

/// Renders the specification of an address resource.
pub fn address_spec_text(dev: &str, address: &str, prefix_len: u8) -> (r: String)
    ensures
        r@ == address_json(dev@, address@, prefix_len),
{
    let mut s = String::new();
    push_str(&mut s, "{\"address\":");
    push_json_str(&mut s, address);
    push_str(&mut s, ",\"dev\":");
    push_json_str(&mut s, dev);
    push_str(&mut s, ",\"prefix_len\":");
    push_decimal(&mut s, prefix_len as u64);
    push_str(&mut s, "}");
    assert(s@ =~= address_json(dev@, address@, prefix_len));
    s
}

/// The specification, in JSON, of a default route (prefix length 0) of the
/// family `family` through `gateway`, needing the address `parent`.
pub open spec fn default_route_json(family: Seq<char>, unspecified: Seq<char>, gateway: Seq<char>, parent: Seq<char>) -> Seq<char> {
    "{\""@ + family + "\":{\"destination\":"@ + json_str(unspecified) + ",\"gateway\":"@ + json_str(
        gateway,
    ) + ",\"parent\":"@ + json_str(parent) + ",\"prefix_len\":0}}"@
}

/// Renders the specification of a default route.
pub fn default_route_text(v6: bool, gateway: &str, parent: &str) -> (r: String)
    ensures
        r@ == (if v6 {
            default_route_json("Ipv6"@, "::"@, gateway@, parent@)
        } else {
            default_route_json("Ipv4"@, "0.0.0.0"@, gateway@, parent@)
        }),
{
    let (family, unspecified) = if v6 {
        ("Ipv6", "::")
    } else {
        ("Ipv4", "0.0.0.0")
    };
    let mut s = String::new();
    push_str(&mut s, "{\"");
    push_str(&mut s, family);
    push_str(&mut s, "\":{\"destination\":");
    push_json_str(&mut s, unspecified);
    push_str(&mut s, ",\"gateway\":");
    push_json_str(&mut s, gateway);
    push_str(&mut s, ",\"parent\":");
    push_json_str(&mut s, parent);
    push_str(&mut s, ",\"prefix_len\":0}}");
    assert(s@ =~= default_route_json(family@, unspecified@, gateway@, parent@));
    s
}

/// `name` followed by `suffix`.
pub fn suffixed(name: &str, suffix: &str) -> (r: String)
    ensures
        r@ == name@ + suffix@,
{
    let mut s = String::new();
    push_str(&mut s, name);
    push_str(&mut s, suffix);
    assert(s@ =~= name@ + suffix@);
    s
}

/// A request for the dynamic resource of `schema` named `name`.
pub open spec fn dyn_request(schema: Seq<char>, name: Seq<char>, spec: Seq<char>) -> SubResourceView {
    SubResourceView {
        id: IdentityView::Private(PrivateKind::Dynamic, KeyView { schema, name: Some(name) }),
        spec,
    }
}

// ---------------------------------------------------------------- DHCP

/// A DHCP client takes no specification: its name is the link.
#[derive(Debug)]
pub struct DhcpSpec {}

/// The link a DHCP client runs on.
#[derive(Debug)]
pub struct DhcpDerivedSpec {
    pub link: String,
}

/// The lease of a DHCP client: the address, its prefix length and the router
/// (addresses in their textual form).
#[derive(Debug)]
pub struct DhcpState {
    pub address: String,
    pub prefix_len: u8,
    pub router: String,
}

/// The reconciler of DHCP clients.
#[derive(Debug)]
pub struct DhcpReconciler;

/// The requests of a DHCP client with a lease: the leased address on the
/// link and the default route through the router, both named
/// `<link>-dhcp`.
pub open spec fn dhcp_requests(link: Seq<char>, lease: Option<(Seq<char>, u8, Seq<char>)>) -> Seq<SubResourceView> {
    match lease {
        Some((address, prefix_len, router)) => seq![
            dyn_request("network:address"@, link + "-dhcp"@, address_json(link, address, prefix_len)),
            dyn_request(
                "network:route"@,
                link + "-dhcp"@,
                default_route_json("Ipv4"@, "0.0.0.0"@, router, link + "-dhcp"@),
            ),
        ],
        None => Seq::empty(),
    }
}

pub open spec fn lease_of(cfg: Option<&DhcpState>) -> Option<(Seq<char>, u8, Seq<char>)> {
    match cfg {
        Some(c) => Some((c.address@, c.prefix_len, c.router@)),
        None => None,
    }
}

/// The lease of a client state, if any.
pub open spec fn lease_of_state(cfg: Option<DhcpState>) -> Option<(Seq<char>, u8, Seq<char>)> {
    match cfg {
        Some(c) => Some((c.address@, c.prefix_len, c.router@)),
        None => None,
    }
}

impl DhcpReconciler {
    /// What a DHCP client depends on: the link of its name.
    pub fn get_deps(key: &Key) -> (r: Result<IdSet, NetError>)
        ensures
            (match r {
                Ok(s) => key@.name matches Some(n) && s@ == set![dyn_class("network:link"@, n)]
                    && s.privates_of_kind(PrivateKind::Dynamic),
                Err(e) => e == NetError::MissingName && key@.name is None,
            }),
    {
        match &key.name {
            None => Err(NetError::MissingName),
            Some(n) => {
                let mut s = IdSet::new();
                s.insert(dynamic(named_key("network:link", n.as_str())));
                assert(s@ =~= set![dyn_class("network:link"@, n@)]);
                Ok(s)
            },
        }
    }

    /// Validates a DHCP client: it runs on the link of its name.
    pub fn validate(key: &Key) -> (r: Result<(DhcpDerivedSpec, IdSet), NetError>)
        ensures
            (match r {
                Ok((d, s)) => key@.name == Some(d.link@) && s@ == set![dyn_class("network:link"@, d.link@)]
                    && s.privates_of_kind(PrivateKind::Dynamic),
                Err(e) => e == NetError::MissingName && key@.name is None,
            }),
    {
        let deps = match Self::get_deps(key) {
            Ok(s) => s,
            Err(e) => return Err(e),
        };
        match &key.name {
            Some(n) => Ok((DhcpDerivedSpec { link: n.clone() }, deps)),
            None => Err(NetError::MissingName),
        }
    }

    /// What the lookup of the link makes the pass answer at once: its error,
    /// or that the link does not exist; nothing when it exists.
    pub fn link_problem(lookup: Result<bool, String>) -> (r: Option<Status>)
        ensures
            (match lookup {
                Err(m) => r matches Some(s) && s@ == StatusView::Error(StatusErrorView::Other(m@)),
                Ok(false) => r matches Some(s) && s@ == StatusView::Error(
                    StatusErrorView::Other(net_error_text(NetError::LinkMissing)),
                ),
                Ok(true) => r is None,
            }),
    {
        match lookup {
            Err(m) => Some(failed_with(m)),
            Ok(false) => Some(failed_with(NetError::LinkMissing.message().to_string())),
            Ok(true) => None,
        }
    }

    /// Whether the client stops: when the resource shuts down or is deleted.
    pub fn stops(phase: Phase) -> (r: bool)
        ensures
            r == (phase == Phase::Shutdown || phase == Phase::Deleting),
    {
        match phase {
            Phase::Shutdown | Phase::Deleting => true,
            _ => false,
        }
    }

    /// The answer of a pass over a DHCP client of the resource under `key`,
    /// running on `link`: the error of the link lookup, or that the link is
    /// missing; deleted once the client stops; the error of starting the
    /// client; else ready, with its lease (if any) as the state and the
    /// address and route of the lease as children. The link of the key's
    /// name is the dependency; a key without a name is refused.
    pub fn pass_answer(
        phase: Phase,
        key: &Key,
        link: &str,
        lookup: Result<bool, String>,
        client: Result<Option<DhcpState>, String>,
    ) -> (r: Result<TypedResponse<DhcpState>, NetError>)
        ensures
            (match r {
                Err(e) => e == NetError::MissingName && key@.name is None,
                Ok(a) => {
                    &&& key@.name matches Some(n) && a.dependencies@ == set![dyn_class("network:link"@, n)]
                    &&& a.dependencies.privates_of_kind(PrivateKind::Dynamic)
                    &&& match lookup {
                        Err(m) => a.status@ == StatusView::Error(StatusErrorView::Other(m@)) && a.state is None
                            && a.children@.len() == 0,
                        Ok(false) => a.status@ == StatusView::Error(
                            StatusErrorView::Other(net_error_text(NetError::LinkMissing)),
                        ) && a.state is None && a.children@.len() == 0,
                        Ok(true) => if phase == Phase::Shutdown || phase == Phase::Deleting {
                            a.status@ == StatusView::Deleted && a.state is None && a.children@.len() == 0
                        } else {
                            match client {
                                Err(m) => a.status@ == StatusView::Error(StatusErrorView::Other(m@))
                                    && a.state is None && a.children@.len() == 0,
                                Ok(cfg) => a.status@ == StatusView::Ready && a.state == cfg
                                    && a.children@.map_values(|x: SubResourceCreate| x@) == dhcp_requests(
                                    link@,
                                    lease_of_state(cfg),
                                ),
                            }
                        },
                    }
                },
            }),
    {
        let dependencies = match Self::get_deps(key) {
            Ok(d) => d,
            Err(e) => return Err(e),
        };
        match Self::link_problem(lookup) {
            Some(status) => {
                return Ok(TypedResponse { status, state: None, children: Vec::new(), dependencies });
            },
            None => {},
        }
        if Self::stops(phase) {
            return Ok(TypedResponse { status: Status::Deleted, state: None, children: Vec::new(), dependencies });
        }
        match client {
            Err(m) => Ok(TypedResponse { status: failed_with(m), state: None, children: Vec::new(), dependencies }),
            Ok(cfg) => {
                let children = match &cfg {
                    Some(c) => Self::requests(link, Some(c)),
                    None => Self::requests(link, None),
                };
                Ok(TypedResponse { status: Status::Ready, state: cfg, children, dependencies })
            },
        }
    }

    /// The resources a client with the lease `cfg` (if any) asks for.
    pub fn requests(link: &str, cfg: Option<&DhcpState>) -> (r: Vec<SubResourceCreate>)
        ensures
            r@.map_values(|x: SubResourceCreate| x@) == dhcp_requests(link@, lease_of(cfg)),
    {
        match cfg {
            None => {
                let v: Vec<SubResourceCreate> = Vec::new();
                assert(v@.map_values(|x: SubResourceCreate| x@) =~= Seq::<SubResourceView>::empty());
                v
            },
            Some(c) => {
                let name = suffixed(link, "-dhcp");
                let addr = SubResourceCreate {
                    id: dynamic(named_key("network:address", name.as_str())),
                    spec: address_spec_text(link, c.address.as_str(), c.prefix_len),
                };
                let route = SubResourceCreate {
                    id: dynamic(named_key("network:route", name.as_str())),
                    spec: default_route_text(false, c.router.as_str(), name.as_str()),
                };
                let v = vec![addr, route];
                assert(v@.map_values(|x: SubResourceCreate| x@) =~= dhcp_requests(link@, lease_of(cfg)));
                v
            },
        }
    }
}

// ---------------------------------------------------------------- interfaces

/// An address in its textual form, with its family.
#[derive(Debug)]
pub enum IpAddress {
    V4(String),
    V6(String),
}

/// A network interface: its address as `address/prefix` and its gateway.
#[derive(Debug)]
pub struct InterfaceSpec {
    pub address: String,
    pub gateway: IpAddress,
}

/// The name of an interface, its address and the prefix length.
#[derive(Debug)]
pub struct InterfaceDerivedSpec {
    pub name: String,
    pub address: String,
    pub prefix_len: u8,
}

/// The reconciler of network interfaces.
#[derive(Debug)]
pub struct InterfaceReconciler;

impl InterfaceReconciler {
    pub fn new() -> (r: Self) {
        InterfaceReconciler
    }
}

/// An address `address/prefix` split at its first `/`.
pub open spec fn split_cidr(s: Seq<char>) -> Option<(Seq<char>, Seq<char>)> {
    crate::text::split_once_spec(s, '/')
}

/// Splits an address `address/prefix` at its first `/`.
pub fn split_address(s: &str) -> (r: Result<(String, String), NetError>)
    ensures
        (match r {
            Ok((a, p)) => split_cidr(s@) == Some((a@, p@)),
            Err(e) => e == NetError::InvalidAddressFormat && split_cidr(s@) is None,
        }),
{
    match crate::text::split_once_char(s, '/') {
        Some(p) => Ok(p),
        None => Err(NetError::InvalidAddressFormat),
    }
}

/// Why a prefix length does not parse (as `u8::from_str` reports it).
#[derive(Debug, Clone, Copy, PartialEq, Eq, Structural)]
pub enum PrefixError {
    Empty,
    InvalidDigit,
    TooLarge,
}

pub open spec fn prefix_error_text(e: PrefixError) -> Seq<char> {
    match e {
        PrefixError::Empty => "cannot parse integer from empty string"@,
        PrefixError::InvalidDigit => "invalid digit found in string"@,
        PrefixError::TooLarge => "number too large to fit in target type"@,
    }
}

impl PrefixError {
    /// The message of the error.
    pub fn message(&self) -> (r: &'static str)
        ensures
            r@ == prefix_error_text(*self),
    {
        match self {
            PrefixError::Empty => "cannot parse integer from empty string",
            PrefixError::InvalidDigit => "invalid digit found in string",
            PrefixError::TooLarge => "number too large to fit in target type",
        }
    }
}

pub open spec fn is_digit(c: char) -> bool {
    '0' <= c <= '9'
}

pub open spec fn digit_value(c: char) -> int {
    (c as int) - ('0' as int)
}

/// Reads decimal digits from the left onto `acc`: the first character that
/// is not a digit, or the first that takes the number above 255, fails.
pub open spec fn read_digits(s: Seq<char>, acc: int) -> Result<int, PrefixError>
    decreases s.len(),
{
    if s.len() == 0 {
        Ok(acc)
    } else if !is_digit(s[0]) {
        Err(PrefixError::InvalidDigit)
    } else if acc * 10 + digit_value(s[0]) > 255 {
        Err(PrefixError::TooLarge)
    } else {
        read_digits(s.drop_first(), acc * 10 + digit_value(s[0]))
    }
}

/// A number from 0 to 255 in decimal, as `u8::from_str` reads it: not
/// empty, an optional leading `+` before at least one digit.
pub open spec fn parse_u8_spec(s: Seq<char>) -> Result<int, PrefixError> {
    if s.len() == 0 {
        Err(PrefixError::Empty)
    } else if s[0] == '+' {
        if s.len() == 1 {
            Err(PrefixError::InvalidDigit)
        } else {
            read_digits(s.drop_first(), 0)
        }
    } else {
        read_digits(s, 0)
    }
}

proof fn lemma_read_digits_step(s: Seq<char>, i: int, acc: int)
    requires
        0 <= i < s.len(),
    ensures
        read_digits(s.subrange(i, s.len() as int), acc) == (if !is_digit(s[i]) {
            Err(PrefixError::InvalidDigit)
        } else if acc * 10 + digit_value(s[i]) > 255 {
            Err(PrefixError::TooLarge)
        } else {
            read_digits(s.subrange(i + 1, s.len() as int), acc * 10 + digit_value(s[i]))
        }),
{
    let t = s.subrange(i, s.len() as int);
    assert(t[0] == s[i]);
    assert(t.drop_first() =~= s.subrange(i + 1, s.len() as int));
}

/// Reads a prefix length.
pub fn parse_prefix(s: &str) -> (r: Result<u8, PrefixError>)
    ensures
        (match r {
            Ok(n) => parse_u8_spec(s@) == Ok::<int, PrefixError>(n as int),
            Err(e) => parse_u8_spec(s@) == Err::<int, PrefixError>(e),
        }),
{
    let chars = crate::text::chars_of(s);
    let n = chars.len();
    if n == 0 {
        return Err(PrefixError::Empty);
    }
    let mut i: usize = 0;
    if chars[0] == '+' {
        if n == 1 {
            return Err(PrefixError::InvalidDigit);
        }
        i = 1;
    }
    let ghost start = i as int;
    let ghost body = s@.subrange(start, n as int);
    proof {
        if start == 1 {
            assert(s@.drop_first() =~= body);
        } else {
            assert(s@ =~= body);
        }
    }
    let mut acc: u32 = 0;
    while i < n
        invariant
            chars@ == s@,
            n == s@.len(),
            start <= i <= n,
            acc <= 255,
            parse_u8_spec(s@) == read_digits(s@.subrange(i as int, n as int), acc as int),
        decreases n - i,
    {
        let c = chars[i];
        proof {
            lemma_read_digits_step(s@, i as int, acc as int);
        }
        if !('0' <= c && c <= '9') {
            return Err(PrefixError::InvalidDigit);
        }
        let d = (c as u32) - ('0' as u32);
        if acc * 10 + d > 255 {
            return Err(PrefixError::TooLarge);
        }
        acc = acc * 10 + d;
        i = i + 1;
    }
    proof {
        assert(s@.subrange(n as int, n as int) =~= Seq::<char>::empty());
    }
    Ok(acc as u8)
}

/// The specification, in JSON, of a physical link that is up.
pub open spec fn up_link_json(name: Seq<char>) -> Seq<char> {
    "{\"admin_up\":true,\"link_type\":{\"Unspec\":{}},\"name\":"@ + json_str(name) + "}"@
}

/// The resources an interface asks for: its link, up; its address on it;
/// the default route through its gateway; the address and route named
/// `dyn-<name>-iface`.
pub open spec fn interface_requests(name: Seq<char>, address: Seq<char>, prefix_len: u8, gateway_v6: bool, gateway: Seq<char>) -> Seq<SubResourceView> {
    let sub = "dyn-"@ + name + "-iface"@;
    seq![
        dyn_request("network:link"@, name, up_link_json(name)),
        dyn_request("network:address"@, sub, address_json(name, address, prefix_len)),
        dyn_request(
            "network:route"@,
            sub,
            if gateway_v6 {
                default_route_json("Ipv6"@, "::"@, gateway, name)
            } else {
                default_route_json("Ipv4"@, "0.0.0.0"@, gateway, name)
            },
        ),
    ]
}

pub open spec fn gateway_parts(g: IpAddress) -> (bool, Seq<char>) {
    match g {
        IpAddress::V4(t) => (false, t@),
        IpAddress::V6(t) => (true, t@),
    }
}

impl InterfaceReconciler {
    /// The resources an interface asks for.
    pub fn get_children(spec: &InterfaceSpec, dspec: &InterfaceDerivedSpec) -> (r: Vec<SubResourceCreate>)
        ensures
            r@.map_values(|x: SubResourceCreate| x@) == interface_requests(
                dspec.name@,
                dspec.address@,
                dspec.prefix_len,
                gateway_parts(spec.gateway).0,
                gateway_parts(spec.gateway).1,
            ),
    {
        let name = dspec.name.as_str();
        let mut link_spec = String::new();
        push_str(&mut link_spec, "{\"admin_up\":true,\"link_type\":{\"Unspec\":{}},\"name\":");
        push_json_str(&mut link_spec, name);
        push_str(&mut link_spec, "}");
        assert(link_spec@ =~= up_link_json(name@));
        let mut sub = String::new();
        push_str(&mut sub, "dyn-");
        push_str(&mut sub, name);
        push_str(&mut sub, "-iface");
        assert(sub@ =~= "dyn-"@ + name@ + "-iface"@);
        let link = SubResourceCreate { id: dynamic(named_key("network:link", name)), spec: link_spec };
        let addr = SubResourceCreate {
            id: dynamic(named_key("network:address", sub.as_str())),
            spec: address_spec_text(name, dspec.address.as_str(), dspec.prefix_len),
        };
        let (v6, gw) = match &spec.gateway {
            IpAddress::V4(t) => (false, t),
            IpAddress::V6(t) => (true, t),
        };
        let route = SubResourceCreate {
            id: dynamic(named_key("network:route", sub.as_str())),
            spec: default_route_text(v6, gw.as_str(), name),
        };
        let v = vec![link, addr, route];
        assert(v@.map_values(|x: SubResourceCreate| x@) =~= interface_requests(
            dspec.name@,
            dspec.address@,
            dspec.prefix_len,
            gateway_parts(spec.gateway).0,
            gateway_parts(spec.gateway).1,
        ));
        v
    }

    /// Reconciles an interface: it is done once it has asked for its link,
    /// address and route.
    pub fn reconcile(spec: &InterfaceSpec, dspec: &InterfaceDerivedSpec) -> (r: ResourceResponse)
        ensures
            r.status@ == StatusView::Done,
            r.state is None,
            r.dependencies@ == Set::<IdClass>::empty(),
            r.children@.map_values(|x: SubResourceCreate| x@) == interface_requests(
                dspec.name@,
                dspec.address@,
                dspec.prefix_len,
                gateway_parts(spec.gateway).0,
                gateway_parts(spec.gateway).1,
            ),
    {
        ResourceResponse {
            status: Status::Done,
            state: None,
            children: Self::get_children(spec, dspec),
            dependencies: IdSet::new(),
        }
    }
}

// ---------------------------------------------------------------- time

/// The time servers and pools to query, and what the query waits for.
#[derive(Debug)]
pub struct NtpSpec {
    pub pools: Vec<String>,
    pub servers: Vec<String>,
    pub depends_on: Vec<Key>,
}

/// The time daemon derives nothing.
#[derive(Debug)]
pub struct NtpDerivedSpec {}

/// The reconciler of the time daemon.
#[derive(Debug)]
pub struct NtpReconciler;

impl NtpReconciler {
    pub fn new() -> (r: Self) {
        NtpReconciler
    }
}

/// `-p host` for each host.
pub open spec fn peer_args(hosts: Seq<Seq<char>>) -> Seq<Seq<char>>
    decreases hosts.len(),
{
    if hosts.len() == 0 {
        Seq::empty()
    } else {
        peer_args(hosts.drop_last()) + seq!["-p"@, hosts.last()]
    }
}

/// The arguments of the one-shot query of the time daemon: no detaching,
/// debug output, quit once set; then the servers and the pools as peers.
pub open spec fn ntpd_args_spec(spec: NtpSpec) -> Seq<Seq<char>> {
    seq!["-n"@, "-d"@, "-q"@] + peer_args(crate::text::texts(spec.servers@)) + peer_args(
        crate::text::texts(spec.pools@),
    )
}

fn push_peers(args: &mut Vec<String>, hosts: &Vec<String>)
    ensures
        crate::text::texts(final(args)@) == crate::text::texts(old(args)@) + peer_args(crate::text::texts(hosts@)),
{
    let ghost base = crate::text::texts(args@);
    let mut i: usize = 0;
    proof {
        assert(crate::text::texts(hosts@.take(0)) =~= Seq::<Seq<char>>::empty());
        assert(base + peer_args(Seq::<Seq<char>>::empty()) =~= base);
    }
    while i < hosts.len()
        invariant
            i <= hosts@.len(),
            crate::text::texts(args@) == base + peer_args(crate::text::texts(hosts@.take(i as int))),
        decreases hosts@.len() - i,
    {
        let ghost before = crate::text::texts(args@);
        args.push("-p".to_string());
        args.push(hosts[i].clone());
        proof {
            let t = crate::text::texts(hosts@.take(i + 1));
            assert(t.drop_last() =~= crate::text::texts(hosts@.take(i as int)));
            assert(t.last() == hosts@[i as int]@);
            assert(crate::text::texts(args@) =~= before + seq!["-p"@, hosts@[i as int]@]);
        }
        i = i + 1;
    }
    proof {
        assert(hosts@.take(hosts@.len() as int) =~= hosts@);
    }
}

impl NtpReconciler {
    /// The arguments of the query of the time daemon.
    pub fn ntpd_args(spec: &NtpSpec) -> (r: Vec<String>)
        ensures
            crate::text::texts(r@) == ntpd_args_spec(*spec),
    {
        let mut args: Vec<String> = vec!["-n".to_string(), "-d".to_string(), "-q".to_string()];
        assert(crate::text::texts(args@) =~= seq!["-n"@, "-d"@, "-q"@]);
        push_peers(&mut args, &spec.servers);
        push_peers(&mut args, &spec.pools);
        assert(crate::text::texts(args@) =~= ntpd_args_spec(*spec));
        args
    }

    /// What the time daemon waits for: the resources it names.
    pub fn get_deps(spec: &NtpSpec) -> (r: IdSet)
        ensures
            r@ == key_classes(Some(spec.depends_on)),
            r.privates_of_kind(PrivateKind::Dynamic),
    {
        let mut s = IdSet::new();
        let mut i: usize = 0;
        while i < spec.depends_on.len()
            invariant
                i <= spec.depends_on@.len(),
                s@ == Set::new(
                    |c: IdClass| exists|j: int| 0 <= j < i && c == IdClass { shared: false, key: #[trigger] spec.depends_on@[j]@ },
                ),
                s.privates_of_kind(PrivateKind::Dynamic),
            decreases spec.depends_on@.len() - i,
        {
            s.insert(dynamic(spec.depends_on[i].copy()));
            assert(s@ =~= Set::new(
                |c: IdClass| exists|j: int| 0 <= j < i + 1 && c == IdClass { shared: false, key: #[trigger] spec.depends_on@[j]@ },
            )) by {
                assert(IdClass { shared: false, key: spec.depends_on@[i as int]@ } == IdClass {
                    shared: false,
                    key: spec.depends_on@[i as int]@,
                });
            }
            i = i + 1;
        }
        s
    }

    /// The answer of a pass over the time daemon: deleted when it shuts down
    /// or is deleted (the daemon is stopped); done once the query finished
    /// successfully; else not ready (the query is started again).
    pub fn answer(phase: Phase, spec: &NtpSpec, query_succeeded: bool) -> (r: ResourceResponse)
        ensures
            r.state is None,
            r.children@.len() == 0,
            (phase == Phase::Shutdown || phase == Phase::Deleting) ==> r.status@ == StatusView::Deleted
                && r.dependencies@ == Set::<IdClass>::empty(),
            !(phase == Phase::Shutdown || phase == Phase::Deleting) ==> r.dependencies@ == key_classes(
                Some(spec.depends_on),
            ) && r.status@ == (if query_succeeded {
                StatusView::Done
            } else {
                StatusView::NotReady
            }),
    {
        match phase {
            Phase::Shutdown | Phase::Deleting => ResourceResponse {
                status: Status::Deleted,
                state: None,
                children: Vec::new(),
                dependencies: IdSet::new(),
            },
            _ => ResourceResponse {
                status: if query_succeeded {
                    Status::Done
                } else {
                    Status::NotReady
                },
                state: None,
                children: Vec::new(),
                dependencies: Self::get_deps(spec),
            },
        }
    }
}

} // verus!
