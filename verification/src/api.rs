//! The decisions of the management interface: who may call it, what a pushed
//! configuration must hold, when it asks for an installation, and what a pull
//! gives back.
use vstd::prelude::*;

use crate::keymap::{add_key, distinct_keys, key_set};
use crate::model::{opt_text, Identity, IdentityView, Key, KeyView, PrivateIdentity, PrivateKind};
use crate::resource::{SubResourceCreate, SubResourceView, TerminalResource};
use crate::state::{stored_views, Resources};
use crate::text::str_eq;

verus! {

/// How callers of the management interface authenticate.
#[derive(Debug)]
pub enum ApiAuth {
    /// Anyone may call (`none` in the configuration).
    Unauthenticated,
    /// Callers give a password matching this PHC hash string.
    Password(String),
}

/// The configuration of the management interface.
#[derive(Debug)]
pub struct ApiConfig {
    pub auth: ApiAuth,
}

/// What `PasswordHash::new` of the argon2 crate reports on a hash string:
/// `None` when it parses, else the text of its error.
pub uninterp spec fn hash_parse_outcome(hash: Seq<char>) -> Option<Seq<char>>;

/// What verifying a password against a parsed hash string with the default
/// Argon2 parameters reports: `None` when the password matches, else the text
/// of the error.
pub uninterp spec fn argon2_outcome(hash: Seq<char>, password: Seq<u8>) -> Option<Seq<char>>;

/// Parses a PHC hash string with `argon2::PasswordHash::new` and gives the
/// text of its error, if any. Claimed: the result is a function of the string
/// alone; an empty string, or one that does not begin with `$`, is refused
/// with "password hash string missing field" (the first checks of
/// `PasswordHash::parse`).
#[verifier::external_body]
fn parse_password_hash(hash: &str) -> (r: Option<String>)
    ensures
        opt_text(r) == hash_parse_outcome(hash@),
        (hash@.len() == 0 || hash@[0] != '$') ==> opt_text(r) == Some(
            "password hash string missing field"@,
        ),
{
    match argon2::PasswordHash::new(hash) {
        Ok(_) => None,
        Err(e) => Some(e.to_string()),
    }
}

/// Verifies `password` against the hash string with
/// `argon2::PasswordVerifier::verify_password` of `Argon2::default()` and
/// gives the text of its error, if any. Claimed: the result is a function of
/// the hash string and the password alone.
#[verifier::external_body]
fn verify_password_hash(hash: &str, password: &[u8]) -> (r: Option<String>)
    requires
        hash_parse_outcome(hash@) is None,
    ensures
        opt_text(r) == argon2_outcome(hash@, password@),
{
    match argon2::PasswordHash::new(hash) {
        Ok(h) => match argon2::PasswordVerifier::verify_password(&argon2::Argon2::default(), password, &h) {
            Ok(()) => None,
            Err(e) => Some(e.to_string()),
        },
        Err(e) => Some(e.to_string()),
    }
}

/// Why a call of the management interface is refused.
#[derive(Debug)]
pub enum AuthError {
    /// A password is configured and the call carries none.
    NoPassword,
    /// The hash or the password was refused, with the reason.
    Rejected(String),
}

/// The outcome of an authentication, as plain values.
pub enum AuthVerdict {
    Allowed,
    NoPassword,
    Rejected(Seq<char>),
}

/// The outcome of a check that reported `failure` (if anything).
pub open spec fn verdict_of(failure: Option<Seq<char>>) -> AuthVerdict {
    match failure {
        Some(m) => AuthVerdict::Rejected(m),
        None => AuthVerdict::Allowed,
    }
}

/// Who may call: anyone without a configured password; with one, a caller
/// whose password matches the hash (a hash that does not parse refuses
/// everyone).
pub open spec fn authorization(auth: ApiAuth, password: Option<Seq<u8>>) -> AuthVerdict {
    match auth {
        ApiAuth::Unauthenticated => AuthVerdict::Allowed,
        ApiAuth::Password(hash) => match password {
            None => AuthVerdict::NoPassword,
            Some(p) => match hash_parse_outcome(hash@) {
                Some(m) => AuthVerdict::Rejected(m),
                None => verdict_of(argon2_outcome(hash@, p)),
            },
        },
    }
}

pub open spec fn auth_result_view(r: Result<(), AuthError>) -> AuthVerdict {
    match r {
        Ok(()) => AuthVerdict::Allowed,
        Err(AuthError::NoPassword) => AuthVerdict::NoPassword,
        Err(AuthError::Rejected(m)) => AuthVerdict::Rejected(m@),
    }
}

/// Turns what a check reported into the answer to the caller.
pub fn rejection(failure: Option<String>) -> (r: Result<(), AuthError>)
    ensures
        auth_result_view(r) == verdict_of(opt_text(failure)),
{
    match failure {
        Some(m) => Err(AuthError::Rejected(m)),
        None => Ok(()),
    }
}

/// Checks a call that carries `password` (if any) against the configured
/// authentication.
pub fn authorize(auth: &ApiAuth, password: Option<&[u8]>) -> (r: Result<(), AuthError>)
    ensures
        auth_result_view(r) == authorization(*auth, match password {
            Some(p) => Some(p@),
            None => None,
        }),
{
    match auth {
        ApiAuth::Unauthenticated => Ok(()),
        ApiAuth::Password(hash) => match password {
            None => Err(AuthError::NoPassword),
            Some(p) => {
                let parsed = parse_password_hash(hash.as_str());
                match parsed {
                    Some(m) => Err(AuthError::Rejected(m)),
                    None => rejection(verify_password_hash(hash.as_str(), p)),
                }
            },
        },
    }
}

/// The key of the management interface's own configuration.
pub open spec fn api_key() -> KeyView {
    KeyView { schema: "api"@, name: None }
}

/// The key of the installation configuration.
pub open spec fn install_key() -> KeyView {
    KeyView { schema: "install"@, name: None }
}

/// The position of the first pushed resource whose identity has key `k`.
pub open spec fn first_with_key(s: Seq<SubResourceCreate>, k: KeyView) -> Option<int>
    decreases s.len(),
{
    if s.len() == 0 {
        None
    } else if s[0].id@.key() == k {
        Some(0)
    } else {
        match first_with_key(s.drop_first(), k) {
            Some(i) => Some(i + 1),
            None => None,
        }
    }
}

/// The first position at which `k` occurs is `i`, where none of those
/// before hold it (the length of `s` stands for none).
pub proof fn lemma_first_with_key(s: Seq<SubResourceCreate>, k: KeyView, i: int)
    requires
        0 <= i <= s.len(),
        forall|j: int| 0 <= j < i ==> #[trigger] s[j].id@.key() != k,
        i == s.len() || s[i].id@.key() == k,
    ensures
        first_with_key(s, k) == (if i == s.len() {
            None
        } else {
            Some(i)
        }),
    decreases i,
{
    if i > 0 {
        let t = s.drop_first();
        assert forall|j: int| 0 <= j < i - 1 implies #[trigger] t[j].id@.key() != k by {
            assert(t[j] == s[j + 1]);
        }
        if i < s.len() {
            assert(t[i - 1] == s[i]);
        }
        lemma_first_with_key(t, k, i - 1);
        assert(s[0].id@.key() != k);
    }
}

/// Whether `k` is the key of the schema `schema` with no name.
fn is_unnamed(k: &Key, schema: &str) -> (r: bool)
    ensures
        r == (k@ == KeyView { schema: schema@, name: None }),
{
    k.name.is_none() && str_eq(k.schema.as_str(), schema)
}

/// The position of the first pushed resource with the unnamed key of
/// `schema`.
pub fn find_unnamed(pushed: &Vec<SubResourceCreate>, schema: &str) -> (r: Option<usize>)
    ensures
        r matches Some(i) ==> i < pushed@.len(),
        (match r {
            Some(i) => first_with_key(pushed@, KeyView { schema: schema@, name: None }) == Some(
                i as int,
            ),
            None => first_with_key(pushed@, KeyView { schema: schema@, name: None }) is None,
        }),
{
    let ghost k = KeyView { schema: schema@, name: None };
    let mut i: usize = 0;
    while i < pushed.len()
        invariant
            i <= pushed@.len(),
            k == (KeyView { schema: schema@, name: None }),
            forall|j: int| 0 <= j < i ==> #[trigger] pushed@[j].id@.key() != k,
        decreases pushed@.len() - i,
    {
        if is_unnamed(pushed[i].id.key(), schema) {
            proof {
                lemma_first_with_key(pushed@, k, i as int);
            }
            return Some(i);
        }
        i = i + 1;
    }
    proof {
        lemma_first_with_key(pushed@, k, i as int);
    }
    None
}

/// Why a pushed configuration is refused before it is merged.
#[derive(Debug, Clone, Copy, PartialEq, Eq, Structural)]
pub enum PushError {
    /// The push holds no configuration of the management interface.
    MissingApiConfig,
    /// An installation configuration is stored and the push has none.
    RemovedInstall,
}

pub open spec fn push_error_text(e: PushError) -> Seq<char> {
    match e {
        PushError::MissingApiConfig => "api config must be present"@,
        PushError::RemovedInstall => "cannot remove install config"@,
    }
}

impl PushError {
    /// The message of the error.
    pub fn message(&self) -> (r: &'static str)
        ensures
            r@ == push_error_text(*self),
    {
        match self {
            PushError::MissingApiConfig => "api config must be present",
            PushError::RemovedInstall => "cannot remove install config",
        }
    }
}

/// The management interface's configuration among the pushed resources: the
/// position of the first one under the unnamed key `api`.
pub fn api_config_position(pushed: &Vec<SubResourceCreate>) -> (r: Result<usize, PushError>)
    ensures
        r matches Ok(i) ==> i < pushed@.len(),
        (match r {
            Ok(i) => first_with_key(pushed@, api_key()) == Some(i as int),
            Err(e) => e == PushError::MissingApiConfig && first_with_key(pushed@, api_key()) is None,
        }),
{
    match find_unnamed(pushed, "api") {
        Some(i) => Ok(i),
        None => Err(PushError::MissingApiConfig),
    }
}

/// What a push does to the installation.
pub enum InstallChange {
    /// Nothing to install.
    Unchanged,
    /// Install the configuration `new` over the stored one `old` (if any);
    /// both are specifications in JSON.
    Install { old: Option<String>, new: String },
}

/// The installation change of a push: none without an installation
/// configuration on either side; refused when the stored one would go; an
/// installation when the pushed one is new or differs from the stored one.
pub open spec fn install_change_spec(stored: Option<Seq<char>>, pushed: Option<Seq<char>>) -> Result<
    Option<(Option<Seq<char>>, Seq<char>)>,
    PushError,
> {
    match (stored, pushed) {
        (None, None) => Ok(None),
        (Some(_), None) => Err(PushError::RemovedInstall),
        (old, Some(new)) => if old is None || old.unwrap() != new {
            Ok(Some((old, new)))
        } else {
            Ok(None)
        },
    }
}

pub open spec fn install_change_view(r: Result<InstallChange, PushError>) -> Result<
    Option<(Option<Seq<char>>, Seq<char>)>,
    PushError,
> {
    match r {
        Ok(InstallChange::Unchanged) => Ok(None),
        Ok(InstallChange::Install { old, new }) => Ok(Some((opt_text(old), new@))),
        Err(e) => Err(e),
    }
}

/// The specification of the stored installation configuration, if any.
pub open spec fn stored_install(m: Map<KeyView, crate::resource::ResourceView>) -> Option<Seq<char>> {
    if m.dom().contains(install_key()) {
        Some(m[install_key()].spec)
    } else {
        None
    }
}

/// The specification of the first pushed installation configuration, if
/// any.
pub open spec fn pushed_install(pushed: Seq<SubResourceCreate>) -> Option<Seq<char>> {
    match first_with_key(pushed, install_key()) {
        Some(i) => Some(pushed[i].spec@),
        None => None,
    }
}

/// Decides what a push does to the installation from the stored and the
/// pushed installation configurations.
pub fn decide_install(old: Option<String>, new: Option<String>) -> (r: Result<InstallChange, PushError>)
    ensures
        install_change_view(r) == install_change_spec(opt_text(old), opt_text(new)),
{
    match new {
        None => match old {
            None => Ok(InstallChange::Unchanged),
            Some(_) => Err(PushError::RemovedInstall),
        },
        Some(new) => {
            let differs = match &old {
                None => true,
                Some(o) => !str_eq(o.as_str(), new.as_str()),
            };
            if differs {
                Ok(InstallChange::Install { old, new })
            } else {
                Ok(InstallChange::Unchanged)
            }
        },
    }
}

/// The specification of the stored installation configuration, if any.
fn stored_install_spec(stored: &Resources) -> (r: Option<String>)
    requires
        stored.wf(),
    ensures
        opt_text(r) == stored_install(stored.map_view()),
{
    let key = Key { schema: String::from_str("install"), name: None };
    proof {
        reveal_strlit("install");
        assert(key@ == install_key());
    }
    match stored.get(&key) {
        Some(v) => Some(v.spec.clone()),
        None => None,
    }
}

/// The specification of the first pushed installation configuration, if
/// any.
fn pushed_install_spec(pushed: &Vec<SubResourceCreate>) -> (r: Option<String>)
    ensures
        opt_text(r) == pushed_install(pushed@),
{
    match find_unnamed(pushed, "install") {
        Some(i) => Some(pushed[i].spec.clone()),
        None => None,
    }
}

/// Decides what a push does to the installation, comparing the pushed
/// installation configuration with the stored one.
pub fn install_change(pushed: &Vec<SubResourceCreate>, stored: &Resources) -> (r: Result<
    InstallChange,
    PushError,
>)
    requires
        stored.wf(),
    ensures
        install_change_view(r) == install_change_spec(
            stored_install(stored.map_view()),
            pushed_install(pushed@),
        ),
{
    decide_install(stored_install_spec(stored), pushed_install_spec(pushed))
}

/// Whether an identity is one of configuration (static).
pub open spec fn is_static(id: IdentityView) -> bool {
    id matches IdentityView::Private(PrivateKind::Static, _)
}

/// The keys of the stored configuration resources.
pub open spec fn static_keys_spec(m: Map<KeyView, crate::resource::ResourceView>) -> Set<KeyView> {
    Set::new(
        |k: KeyView|
            exists|x: KeyView| #[trigger] m.dom().contains(x) && is_static(m[x].id) && m[x].id.key() == k,
    )
}

fn static_key(id: &Identity) -> (r: Option<&Key>)
    ensures
        r is Some <==> is_static(id@),
        r matches Some(k) ==> k@ == id@.key(),
{
    match id {
        Identity::Private(PrivateIdentity::Static(k)) => Some(k),
        _ => None,
    }
}

/// The keys of the stored configuration resources, each once: those a push
/// replaces.
pub fn static_keys(stored: &Resources) -> (r: Vec<Key>)
    requires
        stored.wf(),
    ensures
        distinct_keys(r@),
        key_set(r@) == static_keys_spec(stored.map_view()),
{
    let ghost m = stored.map_view();
    let mut out: Vec<Key> = Vec::new();
    let n = stored.size();
    let mut i: usize = 0;
    proof {
        assert(key_set(out@) =~= Set::<KeyView>::empty());
    }
    while i < n
        invariant
            stored.wf(),
            m == stored.map_view(),
            n == stored.entries_view().len(),
            i <= n,
            distinct_keys(out@),
            key_set(out@) == Set::new(
                |k: KeyView|
                    exists|j: int|
                        0 <= j < i && is_static(#[trigger] m[stored.entries_view()[j].0@].id) && m[stored.entries_view()[j].0@].id.key() == k,
            ),
        decreases n - i,
    {
        let ghost before = key_set(out@);
        let v = stored.value_at(i);
        proof {
            stored.lemma_position_key(i as int);
        }
        match static_key(&v.id) {
            Some(k) => add_key(&mut out, k.copy()),
            None => {},
        }
        proof {
            let ix = i as int;
            assert forall|k: KeyView|
                (exists|j: int|
                    0 <= j < ix + 1 && is_static(#[trigger] m[stored.entries_view()[j].0@].id) && m[stored.entries_view()[j].0@].id.key() == k)
                    <==> #[trigger] key_set(out@).contains(k) by {
                if exists|j: int|
                    0 <= j < ix + 1 && is_static(#[trigger] m[stored.entries_view()[j].0@].id) && m[stored.entries_view()[j].0@].id.key() == k {
                    let j = choose|j: int|
                        0 <= j < ix + 1 && is_static(#[trigger] m[stored.entries_view()[j].0@].id) && m[stored.entries_view()[j].0@].id.key() == k;
                    if j < ix {
                        assert(before.contains(k));
                    }
                }
                if key_set(out@).contains(k) && !before.contains(k) {
                    assert(is_static(m[stored.entries_view()[ix].0@].id));
                }
            }
            assert(key_set(out@) =~= Set::new(
                |k: KeyView|
                    exists|j: int|
                        0 <= j < ix + 1 && is_static(#[trigger] m[stored.entries_view()[j].0@].id) && m[stored.entries_view()[j].0@].id.key() == k,
            ));
        }
        i = i + 1;
    }
    proof {
        assert forall|k: KeyView| #[trigger] key_set(out@).contains(k) == static_keys_spec(m).contains(k) by {
            if key_set(out@).contains(k) {
                let j = choose|j: int|
                    0 <= j < n && is_static(#[trigger] m[stored.entries_view()[j].0@].id) && m[stored.entries_view()[j].0@].id.key() == k;
                stored.lemma_position_key(j);
                assert(m.dom().contains(stored.entries_view()[j].0@));
            }
            if static_keys_spec(m).contains(k) {
                let x = choose|x: KeyView| #[trigger] m.dom().contains(x) && is_static(m[x].id) && m[x].id.key() == k;
                stored.lemma_key_has_position(x);
                let j = choose|j: int| 0 <= j < stored.entries_view().len() && stored.entries_view()[j].0@ == x;
                assert(is_static(m[stored.entries_view()[j].0@].id));
            }
        }
        assert(key_set(out@) =~= static_keys_spec(m));
    }
    out
}

/// The stored configuration resources of `s`, as requests, in order.
pub open spec fn pulled_views(s: Seq<crate::resource::ResourceView>) -> Seq<SubResourceView>
    decreases s.len(),
{
    if s.len() == 0 {
        Seq::empty()
    } else if is_static(s.last().id) {
        pulled_views(s.drop_last()).push(SubResourceView { id: s.last().id, spec: s.last().spec })
    } else {
        pulled_views(s.drop_last())
    }
}

/// The configuration as a pull gives it back: each stored configuration
/// resource with its specification, in the order in which they are kept.
pub fn config_pull(stored: &Resources) -> (r: Vec<SubResourceCreate>)
    requires
        stored.wf(),
    ensures
        r@.map_values(|x: SubResourceCreate| x@) == pulled_views(stored_views(*stored)),
{
    let ghost all = stored_views(*stored);
    let mut out: Vec<SubResourceCreate> = Vec::new();
    let n = stored.size();
    let mut i: usize = 0;
    while i < n
        invariant
            stored.wf(),
            n == stored.entries_view().len(),
            all == stored_views(*stored),
            i <= n,
            out@.map_values(|x: SubResourceCreate| x@) == pulled_views(all.take(i as int)),
        decreases n - i,
    {
        let ghost before = out@.map_values(|x: SubResourceCreate| x@);
        let v = stored.value_at(i);
        proof {
            stored.lemma_position_key(i as int);
            assert(all.take(i + 1).drop_last() =~= all.take(i as int));
            assert(all.take(i + 1).last() == all[i as int]);
        }
        if static_key(&v.id).is_some() {
            out.push(SubResourceCreate { id: v.id.copy(), spec: v.spec.clone() });
            proof {
                assert(out@.map_values(|x: SubResourceCreate| x@) =~= before.push(
                    SubResourceView { id: v@.id, spec: v@.spec },
                ));
            }
        }
        i = i + 1;
    }
    proof {
        assert(all.take(n as int) =~= all);
    }
    out
}

} // verus!
