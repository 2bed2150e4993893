//! What the state manager starts from: the default configuration, the kernel
//! command line, where each reconciler listens, and the resources read back
//! from disk.
use vstd::prelude::*;

use crate::model::{IdentityView, Key, KeyView, PrivateIdentity, PrivateKind, Identity};
use crate::resource::{SubResourceCreate, SubResourceView, TerminalResource, ValidateResponse};
use crate::state::{stored_validated, validated_views, Resources, ValidatedView};
use crate::text::{split_char, split_on, split_once_char, split_once_spec, str_eq, texts};

verus! {

/// A configuration resource (static identity) of the schema `schema`.
pub open spec fn static_request(schema: Seq<char>, name: Option<Seq<char>>, spec: Seq<char>) -> SubResourceView {
    SubResourceView {
        id: IdentityView::Private(PrivateKind::Static, KeyView { schema, name }),
        spec,
    }
}

/// A configuration resource of `schema`, named `name` (if any), with the
/// specification `spec` in JSON.
pub fn static_resource(schema: &str, name: Option<&str>, spec: &str) -> (r: SubResourceCreate)
    ensures
        r@ == static_request(schema@, match name {
            Some(n) => Some(n@),
            None => None,
        }, spec@),
{
    let key = Key {
        schema: schema.to_string(),
        name: match name {
            Some(n) => Some(n.to_string()),
            None => None,
        },
    };
    SubResourceCreate { id: Identity::Private(PrivateIdentity::Static(key)), spec: spec.to_string() }
}

/// The specification of the management interface without authentication.
pub open spec fn default_api_spec() -> Seq<char> {
    "{\"auth\":\"none\"}"@
}

/// The resolver configuration with one name server, 9.9.9.9.
pub open spec fn default_dns_spec() -> Seq<char> {
    "{\"attempts\":null,\"debug\":null,\"edns0\":null,\"inet6\":null,\"ip6_bytestring\":null,\"ip6_dotint\":null,\"ip6_no_dotint\":null,\"nameservers\":[\"9.9.9.9\"],\"ndots\":null,\"no_aaaa\":null,\"no_check_names\":null,\"no_reload\":null,\"no_tld_query\":null,\"rotate\":null,\"search\":null,\"single_request\":null,\"single_request_reopen\":null,\"sortlist\":null,\"timeout\":null,\"trust_ad\":null,\"use_vc\":null}"@
}

/// The physical link `eth0`, up.
pub open spec fn default_link_spec() -> Seq<char> {
    "{\"admin_up\":true,\"link_type\":{\"Unspec\":{}},\"name\":\"eth0\"}"@
}

/// The configuration a fresh system starts with: the management interface
/// without authentication, a resolver with one name server, the link `eth0`
/// up, and a DHCP client on it.
pub open spec fn default_config_spec() -> Seq<SubResourceView> {
    seq![
        static_request("api"@, None, default_api_spec()),
        static_request("network:dns"@, None, default_dns_spec()),
        static_request("network:link"@, Some("eth0"@), default_link_spec()),
        static_request("network:dhcp"@, Some("eth0"@), "{}"@),
    ]
}

/// The configuration a fresh system starts with.
pub fn default_config() -> (r: Vec<SubResourceCreate>)
    ensures
        r@.map_values(|x: SubResourceCreate| x@) == default_config_spec(),
{
    let api = static_resource("api", None, "{\"auth\":\"none\"}");
    let dns = static_resource(
        "network:dns",
        None,
        "{\"attempts\":null,\"debug\":null,\"edns0\":null,\"inet6\":null,\"ip6_bytestring\":null,\"ip6_dotint\":null,\"ip6_no_dotint\":null,\"nameservers\":[\"9.9.9.9\"],\"ndots\":null,\"no_aaaa\":null,\"no_check_names\":null,\"no_reload\":null,\"no_tld_query\":null,\"rotate\":null,\"search\":null,\"single_request\":null,\"single_request_reopen\":null,\"sortlist\":null,\"timeout\":null,\"trust_ad\":null,\"use_vc\":null}",
    );
    let link = static_resource(
        "network:link",
        Some("eth0"),
        "{\"admin_up\":true,\"link_type\":{\"Unspec\":{}},\"name\":\"eth0\"}",
    );
    let dhcp = static_resource("network:dhcp", Some("eth0"), "{}");
    let v = vec![api, dns, link, dhcp];
    assert(v@.map_values(|x: SubResourceCreate| x@) =~= default_config_spec());
    v
}

/// A word of the kernel command line as a pair: split at its first `=`, or
/// the whole word with an empty value.
pub open spec fn cmdline_entry(word: Seq<char>) -> (Seq<char>, Seq<char>) {
    match split_once_spec(word, '=') {
        Some(p) => p,
        None => (word, Seq::empty()),
    }
}

/// The kernel command line as pairs: one for each piece between spaces.
pub open spec fn cmdline_spec(data: Seq<char>) -> Seq<(Seq<char>, Seq<char>)> {
    split_on(data, ' ').map_values(|w: Seq<char>| cmdline_entry(w))
}

/// Reads the kernel command line into pairs of name and value.
pub fn parse_cmdline(data: &str) -> (r: Vec<(String, String)>)
    ensures
        r@.map_values(|p: (String, String)| (p.0@, p.1@)) == cmdline_spec(data@),
{
    let words = split_char(data, ' ');
    let mut out: Vec<(String, String)> = Vec::new();
    let mut i: usize = 0;
    while i < words.len()
        invariant
            i <= words@.len(),
            texts(words@) == split_on(data@, ' '),
            out@.len() == i,
            forall|j: int| 0 <= j < i ==> (#[trigger] out@[j]).0@ == cmdline_entry(words@[j]@).0 && out@[j].1@
                == cmdline_entry(words@[j]@).1,
        decreases words@.len() - i,
    {
        let w = &words[i];
        let pair = match split_once_char(w.as_str(), '=') {
            Some(p) => p,
            None => (w.clone(), String::new()),
        };
        out.push(pair);
        i = i + 1;
    }
    proof {
        let lhs = out@.map_values(|p: (String, String)| (p.0@, p.1@));
        let rhs = cmdline_spec(data@);
        assert forall|j: int| 0 <= j < lhs.len() implies lhs[j] == rhs[j] by {
            assert(texts(words@)[j] == words@[j]@);
        }
        assert(lhs =~= rhs);
    }
    out
}

/// Where the reconciler of each schema listens.
pub open spec fn endpoint_spec(schema: Seq<char>) -> Option<Seq<char>> {
    if schema == "system:static-file"@ {
        Some("http://[::1]:50051"@)
    } else if schema == "network:dns"@ || schema == "network:interface"@ || schema == "network:link"@
        || schema == "network:route"@ || schema == "network:address"@ || schema == "network:dhcp"@ {
        Some("http://[::1]:50052"@)
    } else if schema == "container:runtime"@ || schema == "container:instance"@ || schema
        == "container:image"@ || schema == "container:network"@ {
        Some("http://[::1]:50053"@)
    } else {
        None
    }
}

/// Where the reconciler of `schema` listens, if one is known.
pub fn reconciler_endpoint(schema: &str) -> (r: Option<&'static str>)
    ensures
        (match r {
            Some(e) => endpoint_spec(schema@) == Some(e@),
            None => endpoint_spec(schema@) is None,
        }),
{
    if str_eq(schema, "system:static-file") {
        Some("http://[::1]:50051")
    } else if str_eq(schema, "network:dns") || str_eq(schema, "network:interface") || str_eq(
        schema,
        "network:link",
    ) || str_eq(schema, "network:route") || str_eq(schema, "network:address") || str_eq(
        schema,
        "network:dhcp",
    ) {
        Some("http://[::1]:50052")
    } else if str_eq(schema, "container:runtime") || str_eq(schema, "container:instance") || str_eq(
        schema,
        "container:image",
    ) || str_eq(schema, "container:network") {
        Some("http://[::1]:50053")
    } else {
        None
    }
}

/// All the stored resources, as candidates for scheduling.
pub open spec fn all_candidates(m: Map<KeyView, crate::resource::ResourceView>) -> Set<ValidatedView> {
    Set::new(|v: ValidatedView| exists|k: KeyView| #[trigger] m.dom().contains(k) && v == stored_validated(m[k]))
}

/// The stored resources as candidates for scheduling, each with its
/// specification, derived specification and dependencies, and no children.
pub fn stored_candidates(resources: &Resources) -> (r: Vec<(SubResourceCreate, ValidateResponse)>)
    requires
        resources.wf(),
    ensures
        validated_views(r@).to_set() == all_candidates(resources.map_view()),
        forall|i: int| 0 <= i < r@.len() ==> (#[trigger] r@[i]).1.children@.len() == 0,
{
    let ghost m = resources.map_view();
    let mut out: Vec<(SubResourceCreate, ValidateResponse)> = Vec::new();
    let n = resources.size();
    let mut i: usize = 0;
    while i < n
        invariant
            resources.wf(),
            m == resources.map_view(),
            n == resources.entries_view().len(),
            i <= n,
            validated_views(out@).len() == i,
            forall|j: int| 0 <= j < out@.len() ==> (#[trigger] out@[j]).1.children@.len() == 0,
            forall|j: int| 0 <= j < i ==> #[trigger] validated_views(out@)[j] == stored_validated(
                m[resources.entries_view()[j].0@],
            ),
        decreases n - i,
    {
        let v = resources.value_at(i);
        let sub = SubResourceCreate { id: v.id.copy(), spec: v.spec.clone() };
        let resp = ValidateResponse {
            derived_spec: v.derived_spec.clone(),
            children: Vec::new(),
            dependencies: v.dependencies.copy(),
        };
        let ghost before = validated_views(out@);
        out.push((sub, resp));
        proof {
            assert(validated_views(out@) =~= before.push(stored_validated(v@)));
        }
        i = i + 1;
    }
    proof {
        let vv = validated_views(out@);
        assert forall|x: ValidatedView| #[trigger] vv.to_set().contains(x) == all_candidates(m).contains(x) by {
            if vv.to_set().contains(x) {
                let j = choose|j: int| 0 <= j < vv.len() && vv[j] == x;
                resources.lemma_position_key(j);
                let k = resources.entries_view()[j].0@;
                assert(m.dom().contains(k) && x == stored_validated(m[k]));
            }
            if all_candidates(m).contains(x) {
                let k = choose|k: KeyView| #[trigger] m.dom().contains(k) && x == stored_validated(m[k]);
                resources.lemma_key_has_position(k);
                let j = choose|j: int| 0 <= j < resources.entries_view().len() && resources.entries_view()[j].0@ == k;
                assert(vv[j] == x);
            }
        }
        assert(vv.to_set() =~= all_candidates(m));
    }
    out
}

/// The stored configuration of the management interface: the resource under
/// the unnamed key `api`, which must exist.
pub fn stored_api_config(resources: &Resources) -> (r: Option<&TerminalResource>)
    requires
        resources.wf(),
    ensures
        r is Some <==> resources.map_view().dom().contains(crate::api::api_key()),
        r matches Some(v) ==> v@ == resources.map_view()[crate::api::api_key()],
{
    let key = Key { schema: "api".to_string(), name: None };
    resources.get(&key)
}

} // verus!
