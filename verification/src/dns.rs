//! The resolver configuration: its limits, the `resolv.conf` it renders and
//! the file it asks the system controller to write.
use vstd::prelude::*;

use crate::json::{decimal, push_decimal};
use crate::model::{IdClass, Identity, IdentityView, KeyView, PrivateKind, Status, StatusView};
use crate::reconcile::{dynamic, failed_with, named_key, static_file, static_file_spec};
use crate::resource::{IdSet, ResourceResponse, SubResourceCreate, SubResourceView, TerminalResource};
use crate::text::{join, join_strings, push_str, texts};

verus! {

/// Resolver configuration (see `resolv.conf(5)`).
#[derive(Debug)]
pub struct DnsSpec {
    pub nameservers: Vec<String>,
    pub search: Option<Vec<String>>,
    pub sortlist: Option<Vec<String>>,
    pub ndots: Option<u8>,
    pub timeout: Option<u8>,
    pub attempts: Option<u8>,
    pub debug: Option<bool>,
    pub rotate: Option<bool>,
    pub no_aaaa: Option<bool>,
    pub no_check_names: Option<bool>,
    pub inet6: Option<bool>,
    pub ip6_bytestring: Option<bool>,
    pub ip6_dotint: Option<bool>,
    pub ip6_no_dotint: Option<bool>,
    pub edns0: Option<bool>,
    pub single_request: Option<bool>,
    pub single_request_reopen: Option<bool>,
    pub no_tld_query: Option<bool>,
    pub use_vc: Option<bool>,
    pub no_reload: Option<bool>,
    pub trust_ad: Option<bool>,
}

/// The reconciler of the resolver configuration.
#[derive(Debug)]
pub struct DnsReconciler;

impl DnsReconciler {
    pub fn new() -> (r: Self) {
        DnsReconciler
    }
}

/// The most name servers the resolver takes.
pub const MAX_NS: usize = 3;

/// The most address/netmask pairs of a sort list.
pub const MAX_SORTLIST: usize = 10;

/// The largest `ndots`.
pub const MAX_NDOTS: u8 = 15;

/// The largest `timeout`, in seconds.
pub const MAX_TIMEOUT: u8 = 30;

/// The largest number of `attempts`.
pub const MAX_ATTEMPTS: u8 = 5;

/// Why a resolver configuration is refused.
#[derive(Debug, Clone, Copy, PartialEq, Eq, Structural)]
pub enum DnsError {
    TooManyNameservers,
    TooManySortlistPairs,
    NdotsTooLarge,
    TimeoutTooLarge,
    AttemptsTooLarge,
}

pub open spec fn dns_error_text(e: DnsError) -> Seq<char> {
    match e {
        DnsError::TooManyNameservers => "a maximum of 3 name servers can be specified"@,
        DnsError::TooManySortlistPairs => "a maximum of 10 sortlist paris can be specified"@,
        DnsError::NdotsTooLarge => "ndots cannot be greater than 15"@,
        DnsError::TimeoutTooLarge => "timeout cannot be greater than 30"@,
        DnsError::AttemptsTooLarge => "attempts cannot be greater than 5"@,
    }
}

impl DnsError {
    /// The message of the error.
    pub fn message(&self) -> (r: &'static str)
        ensures
            r@ == dns_error_text(*self),
    {
        match self {
            DnsError::TooManyNameservers => "a maximum of 3 name servers can be specified",
            DnsError::TooManySortlistPairs => "a maximum of 10 sortlist paris can be specified",
            DnsError::NdotsTooLarge => "ndots cannot be greater than 15",
            DnsError::TimeoutTooLarge => "timeout cannot be greater than 30",
            DnsError::AttemptsTooLarge => "attempts cannot be greater than 5",
        }
    }
}

/// Whether an optional number is present and above `max`.
pub open spec fn above(v: Option<u8>, max: u8) -> bool {
    match v {
        Some(n) => n > max,
        None => false,
    }
}

/// The first limit that a configuration breaks, if any.
pub open spec fn dns_violation(spec: DnsSpec) -> Option<DnsError> {
    if spec.nameservers@.len() > MAX_NS {
        Some(DnsError::TooManyNameservers)
    } else if spec.sortlist matches Some(l) && l@.len() > MAX_SORTLIST {
        Some(DnsError::TooManySortlistPairs)
    } else if above(spec.ndots, MAX_NDOTS) {
        Some(DnsError::NdotsTooLarge)
    } else if above(spec.timeout, MAX_TIMEOUT) {
        Some(DnsError::TimeoutTooLarge)
    } else if above(spec.attempts, MAX_ATTEMPTS) {
        Some(DnsError::AttemptsTooLarge)
    } else {
        None
    }
}

fn is_above(v: Option<u8>, max: u8) -> (r: bool)
    ensures
        r == above(v, max),
{
    match v {
        Some(n) => n > max,
        None => false,
    }
}

/// Checks the limits of the resolver: at most three name servers and ten
/// sort list pairs, `ndots` at most 15, `timeout` at most 30, `attempts` at
/// most 5; the first broken one is reported.
pub fn validate_new_spec(spec: &DnsSpec) -> (r: Result<(), DnsError>)
    ensures
        (match r {
            Ok(()) => dns_violation(*spec) is None,
            Err(e) => dns_violation(*spec) == Some(e),
        }),
{
    if spec.nameservers.len() > MAX_NS {
        return Err(DnsError::TooManyNameservers);
    }
    match &spec.sortlist {
        Some(l) => if l.len() > MAX_SORTLIST {
            return Err(DnsError::TooManySortlistPairs);
        },
        None => {},
    }
    if is_above(spec.ndots, MAX_NDOTS) {
        return Err(DnsError::NdotsTooLarge);
    }
    if is_above(spec.timeout, MAX_TIMEOUT) {
        return Err(DnsError::TimeoutTooLarge);
    }
    if is_above(spec.attempts, MAX_ATTEMPTS) {
        return Err(DnsError::AttemptsTooLarge);
    }
    Ok(())
}

/// The option `name:n`, when the number is set.
pub open spec fn number_option(name: Seq<char>, v: Option<u8>) -> Seq<Seq<char>> {
    match v {
        Some(n) => seq![name + ":"@ + decimal(n as nat)],
        None => Seq::empty(),
    }
}

/// The option `name`, when the flag is set and true.
pub open spec fn flag_option(name: Seq<char>, v: Option<bool>) -> Seq<Seq<char>> {
    if v == Some(true) {
        seq![name]
    } else {
        Seq::empty()
    }
}

/// The options of the resolver, in the order of `resolv.conf(5)` as rendered.
pub open spec fn dns_options(spec: DnsSpec) -> Seq<Seq<char>> {
    number_option("ndots"@, spec.ndots) + number_option("timeout"@, spec.timeout) + number_option(
        "attempts"@,
        spec.attempts,
    ) + flag_option("debug"@, spec.debug) + flag_option("rotate"@, spec.rotate) + flag_option(
        "no-aaaa"@,
        spec.no_aaaa,
    ) + flag_option("no-check-names"@, spec.no_check_names) + flag_option("inet6"@, spec.inet6)
        + flag_option("ip6-bytestring"@, spec.ip6_bytestring) + flag_option(
        "ip6-dotint"@,
        spec.ip6_dotint,
    ) + flag_option("ip6-no-dotint"@, spec.ip6_no_dotint) + flag_option("edns0"@, spec.edns0)
        + flag_option("single-request"@, spec.single_request) + flag_option(
        "single-request-reopen"@,
        spec.single_request_reopen,
    ) + flag_option("no-tld-query"@, spec.no_tld_query) + flag_option("use-vc"@, spec.use_vc)
        + flag_option("no-reload"@, spec.no_reload) + flag_option("trust-ad"@, spec.trust_ad)
}

/// The line `label items...`, when the items joined are not empty.
pub open spec fn list_line(label: Seq<char>, items: Seq<Seq<char>>) -> Seq<Seq<char>> {
    if join(items, " "@).len() == 0 {
        Seq::empty()
    } else {
        seq![label + join(items, " "@)]
    }
}

/// The line of an optional list.
pub open spec fn opt_list_line(label: Seq<char>, items: Option<Vec<String>>) -> Seq<Seq<char>> {
    match items {
        Some(v) => list_line(label, texts(v@)),
        None => Seq::empty(),
    }
}

/// The line of each name server.
pub open spec fn nameserver_lines(ns: Seq<Seq<char>>) -> Seq<Seq<char>> {
    ns.map_values(|n: Seq<char>| "nameserver "@ + n)
}

/// The lines of `resolv.conf`: options, search list, sort list, name
/// servers, and an empty last line.
pub open spec fn dns_lines(spec: DnsSpec) -> Seq<Seq<char>> {
    list_line("options "@, dns_options(spec)) + opt_list_line("search "@, spec.search)
        + opt_list_line("sortlist "@, spec.sortlist) + nameserver_lines(texts(spec.nameservers@))
        + seq![Seq::<char>::empty()]
}

/// A line that begins with `q` followed by anything does not begin with a
/// label `p` that differs from `q` at position `j`.
proof fn lemma_label_clash(p: Seq<char>, q: Seq<char>, x: Seq<char>, j: int)
    requires
        0 <= j < p.len(),
        j < q.len(),
        p[j] != q[j],
    ensures
        !p.is_prefix_of(q + x),
{
    if p.is_prefix_of(q + x) {
        assert((q + x)[j] == q[j]);
    }
}

/// Each list of `resolv.conf` is written under its own label: a non-empty
/// search list gives the line `search` followed by its items, a non-empty
/// sort list the line `sortlist` followed by its items, each name server a
/// line `nameserver` followed by it; and a line that begins with `search `
/// or `sortlist ` is the line of that list, so none does when the list is
/// absent or empty.
pub proof fn lemma_dns_lines_labelled(spec: DnsSpec)
    ensures
        spec.search matches Some(v) ==> (join(texts(v@), " "@).len() > 0 ==> dns_lines(spec).contains(
            "search "@ + join(texts(v@), " "@),
        )),
        spec.sortlist matches Some(v) ==> (join(texts(v@), " "@).len() > 0 ==> dns_lines(spec).contains(
            "sortlist "@ + join(texts(v@), " "@),
        )),
        forall|j: int|
            0 <= j < spec.nameservers@.len() ==> dns_lines(spec).contains(
                "nameserver "@ + #[trigger] spec.nameservers@[j]@,
            ),
        forall|i: int|
            0 <= i < dns_lines(spec).len() && "search "@.is_prefix_of(#[trigger] dns_lines(spec)[i]) ==> (
            spec.search matches Some(v) && dns_lines(spec)[i] == "search "@ + join(texts(v@), " "@)),
        forall|i: int|
            0 <= i < dns_lines(spec).len() && "sortlist "@.is_prefix_of(#[trigger] dns_lines(spec)[i])
                ==> (spec.sortlist matches Some(v) && dns_lines(spec)[i] == "sortlist "@ + join(
                texts(v@),
                " "@,
            )),
{
    reveal_strlit("search ");
    reveal_strlit("sortlist ");
    reveal_strlit("options ");
    reveal_strlit("nameserver ");
    let a = list_line("options "@, dns_options(spec));
    let b = opt_list_line("search "@, spec.search);
    let c = opt_list_line("sortlist "@, spec.sortlist);
    let ns = texts(spec.nameservers@);
    let d = nameserver_lines(ns);
    let e = seq![Seq::<char>::empty()];
    let l = dns_lines(spec);
    assert(l == a + b + c + d + e);
    assert(a.len() <= 1 && b.len() <= 1 && c.len() <= 1);
    if let Some(v) = spec.search {
        if join(texts(v@), " "@).len() > 0 {
            assert(l[a.len() as int] == b[0]);
        }
    }
    if let Some(v) = spec.sortlist {
        if join(texts(v@), " "@).len() > 0 {
            assert(l[(a.len() + b.len()) as int] == c[0]);
        }
    }
    assert forall|j: int| 0 <= j < spec.nameservers@.len() implies l.contains(
        "nameserver "@ + #[trigger] spec.nameservers@[j]@,
    ) by {
        assert(ns[j] == spec.nameservers@[j]@);
        assert(d[j] == "nameserver "@ + ns[j]);
        assert(l[a.len() + b.len() + c.len() + j] == d[j]);
    }
    assert forall|i: int| 0 <= i < l.len() implies (!"search "@.is_prefix_of(#[trigger] l[i]) || (
    spec.search matches Some(v) && l[i] == "search "@ + join(texts(v@), " "@))) && (!"sortlist "@.is_prefix_of(
        l[i],
    ) || (spec.sortlist matches Some(v) && l[i] == "sortlist "@ + join(texts(v@), " "@))) by {
        if i < a.len() {
            let x = join(dns_options(spec), " "@);
            assert(l[i] == "options "@ + x);
            lemma_label_clash("search "@, "options "@, x, 0);
            lemma_label_clash("sortlist "@, "options "@, x, 0);
        } else if i < a.len() + b.len() {
            let v = spec.search.unwrap();
            let x = join(texts(v@), " "@);
            assert(l[i] == "search "@ + x);
            lemma_label_clash("sortlist "@, "search "@, x, 1);
        } else if i < a.len() + b.len() + c.len() {
            let v = spec.sortlist.unwrap();
            let x = join(texts(v@), " "@);
            assert(l[i] == "sortlist "@ + x);
            lemma_label_clash("search "@, "sortlist "@, x, 1);
        } else if i < a.len() + b.len() + c.len() + d.len() {
            let j = i - a.len() - b.len() - c.len();
            assert(l[i] == "nameserver "@ + ns[j]);
            lemma_label_clash("search "@, "nameserver "@, ns[j], 0);
            lemma_label_clash("sortlist "@, "nameserver "@, ns[j], 0);
        } else {
            assert(l[i] == Seq::<char>::empty());
        }
    }
}

/// The content of `resolv.conf`: its lines joined, so that it ends with a
/// line break.
pub open spec fn dns_content(spec: DnsSpec) -> Seq<char> {
    join(dns_lines(spec), "\n"@)
}

fn push_number_option(out: &mut Vec<String>, name: &str, v: Option<u8>)
    ensures
        texts(final(out)@) == texts(old(out)@) + number_option(name@, v),
{
    match v {
        Some(n) => {
            let mut s = String::new();
            push_str(&mut s, name);
            push_str(&mut s, ":");
            push_decimal(&mut s, n as u64);
            let ghost t = s@;
            out.push(s);
            assert(texts(out@) =~= texts(old(out)@) + seq![t]);
            assert(t =~= name@ + ":"@ + decimal(n as nat));
        },
        None => {
            assert(texts(out@) =~= texts(old(out)@) + Seq::<Seq<char>>::empty());
        },
    }
}

fn push_flag_option(out: &mut Vec<String>, name: &str, v: Option<bool>)
    ensures
        texts(final(out)@) == texts(old(out)@) + flag_option(name@, v),
{
    match v {
        Some(true) => {
            let s = name.to_string();
            out.push(s);
            assert(texts(out@) =~= texts(old(out)@) + seq![name@]);
        },
        _ => {
            assert(texts(out@) =~= texts(old(out)@) + Seq::<Seq<char>>::empty());
        },
    }
}

/// The options of the resolver, each as its word.
pub fn options_of(spec: &DnsSpec) -> (r: Vec<String>)
    ensures
        texts(r@) == dns_options(*spec),
{
    let mut v: Vec<String> = Vec::new();
    assert(texts(v@) =~= Seq::<Seq<char>>::empty());
    push_number_option(&mut v, "ndots", spec.ndots);
    push_number_option(&mut v, "timeout", spec.timeout);
    push_number_option(&mut v, "attempts", spec.attempts);
    push_flag_option(&mut v, "debug", spec.debug);
    push_flag_option(&mut v, "rotate", spec.rotate);
    push_flag_option(&mut v, "no-aaaa", spec.no_aaaa);
    push_flag_option(&mut v, "no-check-names", spec.no_check_names);
    push_flag_option(&mut v, "inet6", spec.inet6);
    push_flag_option(&mut v, "ip6-bytestring", spec.ip6_bytestring);
    push_flag_option(&mut v, "ip6-dotint", spec.ip6_dotint);
    push_flag_option(&mut v, "ip6-no-dotint", spec.ip6_no_dotint);
    push_flag_option(&mut v, "edns0", spec.edns0);
    push_flag_option(&mut v, "single-request", spec.single_request);
    push_flag_option(&mut v, "single-request-reopen", spec.single_request_reopen);
    push_flag_option(&mut v, "no-tld-query", spec.no_tld_query);
    push_flag_option(&mut v, "use-vc", spec.use_vc);
    push_flag_option(&mut v, "no-reload", spec.no_reload);
    push_flag_option(&mut v, "trust-ad", spec.trust_ad);
    assert(texts(v@) =~= dns_options(*spec));
    v
}

fn push_list_line(lines: &mut Vec<String>, label: &str, items: &Vec<String>)
    ensures
        texts(final(lines)@) == texts(old(lines)@) + list_line(label@, texts(items@)),
{
    let joined = join_strings(items, " ");
    if joined.unicode_len() == 0 {
        assert(texts(lines@) =~= texts(old(lines)@) + Seq::<Seq<char>>::empty());
    } else {
        let mut s = String::new();
        push_str(&mut s, label);
        push_str(&mut s, joined.as_str());
        let ghost t = s@;
        lines.push(s);
        assert(texts(lines@) =~= texts(old(lines)@) + seq![t]);
    }
}

/// Renders `resolv.conf` for the configuration.
pub fn get_content(spec: &DnsSpec) -> (r: String)
    ensures
        r@ == dns_content(*spec),
{
    let options = options_of(spec);
    let mut lines: Vec<String> = Vec::new();
    assert(texts(lines@) =~= Seq::<Seq<char>>::empty());
    push_list_line(&mut lines, "options ", &options);
    match &spec.search {
        Some(v) => push_list_line(&mut lines, "search ", v),
        None => {
            assert(texts(lines@) =~= texts(lines@) + Seq::<Seq<char>>::empty());
        },
    }
    match &spec.sortlist {
        Some(v) => push_list_line(&mut lines, "sortlist ", v),
        None => {
            assert(texts(lines@) =~= texts(lines@) + Seq::<Seq<char>>::empty());
        },
    }
    let ghost head = texts(lines@);
    let mut i: usize = 0;
    while i < spec.nameservers.len()
        invariant
            i <= spec.nameservers@.len(),
            texts(lines@) == head + nameserver_lines(texts(spec.nameservers@.take(i as int))),
        decreases spec.nameservers@.len() - i,
    {
        let mut s = String::new();
        push_str(&mut s, "nameserver ");
        push_str(&mut s, spec.nameservers[i].as_str());
        let ghost t = s@;
        let ghost prev = texts(lines@);
        lines.push(s);
        proof {
            let a = texts(spec.nameservers@.take(i as int));
            let b = texts(spec.nameservers@.take(i + 1));
            assert(b =~= a.push(spec.nameservers@[i as int]@));
            assert(nameserver_lines(b) =~= nameserver_lines(a).push(t));
            assert(texts(lines@) =~= prev.push(t));
            assert(texts(lines@) =~= head + nameserver_lines(texts(spec.nameservers@.take(i + 1))));
        }
        i = i + 1;
    }
    assert(spec.nameservers@.take(spec.nameservers@.len() as int) =~= spec.nameservers@);
    lines.push(String::new());
    assert(texts(lines@) =~= dns_lines(*spec));
    join_strings(&lines, "\n")
}

/// The path of the resolver configuration file.
pub open spec fn resolv_conf_path() -> Seq<char> {
    "/etc/resolv.conf"@
}

/// The file that the resolver configuration asks for: `/etc/resolv.conf`,
/// a dynamic static-file resource named by its path.
pub open spec fn dns_child(spec: DnsSpec) -> SubResourceView {
    SubResourceView {
        id: IdentityView::Private(
            PrivateKind::Dynamic,
            KeyView { schema: "system:static-file"@, name: Some(resolv_conf_path()) },
        ),
        spec: static_file_spec(resolv_conf_path(), dns_content(spec)),
    }
}

/// The file resource the resolver configuration asks for.
pub fn get_child(spec: &DnsSpec) -> (r: SubResourceCreate)
    ensures
        r@ == dns_child(*spec),
{
    let content = get_content(spec);
    SubResourceCreate {
        id: dynamic(named_key("system:static-file", "/etc/resolv.conf")),
        spec: static_file("/etc/resolv.conf", content.as_str()),
    }
}

/// The resolver configuration as the state manager hands it over: the
/// configuration and its current children.
pub struct DnsResource {
    pub spec: DnsSpec,
    pub children: Vec<TerminalResource>,
}

/// The status a reconciliation answers, and whether it asks for the file
/// (`None` for a configuration that breaks a limit).
pub open spec fn dns_answer(spec: DnsSpec, children: Seq<TerminalResource>) -> (StatusView, bool) {
    match dns_violation(spec) {
        Some(e) => (StatusView::Error(crate::model::StatusErrorView::Other(dns_error_text(e))), false),
        None => if children.len() > 1 {
            (StatusView::Error(crate::model::StatusErrorView::Other("too many children"@)), true)
        } else if children.len() == 0 || children[0]@.id.class() != dns_child(spec).id.class() || children[0]@.spec
            != dns_child(spec).spec {
            (StatusView::NotReady, true)
        } else if children[0]@.status is Done {
            (StatusView::Done, true)
        } else {
            (StatusView::NotReady, true)
        },
    }
}

/// Reconciles the resolver configuration: once the file it asks for exists
/// as asked and is done, so is the configuration.
pub fn reconcile(resource: &DnsResource) -> (r: ResourceResponse)
    ensures
        r.status@ == dns_answer(resource.spec, resource.children@).0,
        r.state is None,
        r.dependencies@ == Set::<IdClass>::empty(),
        dns_answer(resource.spec, resource.children@).1 ==> r.children@.len() == 1 && r.children@[0]@
            == dns_child(resource.spec),
        !dns_answer(resource.spec, resource.children@).1 ==> r.children@.len() == 0,
{
    let child = get_child(&resource.spec);
    match validate_new_spec(&resource.spec) {
        Err(e) => {
            return ResourceResponse {
                status: failed_with(e.message().to_string()),
                state: None,
                children: Vec::new(),
                dependencies: IdSet::new(),
            };
        },
        Ok(()) => {},
    }
    let status = if resource.children.len() > 1 {
        failed_with("too many children".to_string())
    } else if resource.children.len() == 0 {
        Status::NotReady
    } else {
        let existing = &resource.children[0];
        if !crate::model::identity_eq(&existing.id, &child.id) {
            Status::NotReady
        } else if !crate::text::str_eq(existing.spec.as_str(), child.spec.as_str()) {
            Status::NotReady
        } else {
            match existing.status {
                Status::Done => Status::Done,
                _ => Status::NotReady,
            }
        }
    };
    ResourceResponse { status, state: None, children: vec![child], dependencies: IdSet::new() }
}

} // verus!
