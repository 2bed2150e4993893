//! The resource model shared by the state manager and the reconcilers:
//! keys, identities, lifecycle phases and reconciliation statuses.
use vstd::prelude::*;

use crate::text::{chars_of, push_char, push_str};

verus! {

/// The abstract value of a [`Key`]: a schema and an optional name.
pub struct KeyView {
    pub schema: Seq<char>,
    pub name: Option<Seq<char>>,
}

/// The abstract value of an optional string.
pub open spec fn opt_text(o: Option<String>) -> Option<Seq<char>> {
    match o {
        Some(s) => Some(s@),
        None => None,
    }
}

/// Identifies a resource: the schema that handles it and, for schemas that
/// hold several resources, a name.
#[derive(Debug)]
pub struct Key {
    pub schema: String,
    pub name: Option<String>,
}

impl View for Key {
    type V = KeyView;

    open spec fn view(&self) -> KeyView {
        KeyView { schema: self.schema@, name: opt_text(self.name) }
    }
}

/// The textual form of a key: `schema` or `schema/name`.
pub open spec fn key_text(k: KeyView) -> Seq<char> {
    match k.name {
        Some(n) => k.schema + seq!['/'] + n,
        None => k.schema,
    }
}

/// `i` is the position of the first `c` in `s`.
pub open spec fn is_first_index(s: Seq<char>, c: char, i: int) -> bool {
    &&& 0 <= i < s.len()
    &&& s[i] == c
    &&& forall|j: int| 0 <= j < i ==> s[j] != c
}

/// The key that a text denotes: it is split at its first `/`, the part
/// before it being the schema and the rest the name; a text without `/` is
/// a schema alone.
pub open spec fn parse_key_text(s: Seq<char>) -> KeyView {
    if exists|i: int| is_first_index(s, '/', i) {
        let i = choose|i: int| is_first_index(s, '/', i);
        KeyView { schema: s.subrange(0, i), name: Some(s.subrange(i + 1, s.len() as int)) }
    } else {
        KeyView { schema: s, name: None }
    }
}

/// The first position of `c` is unique.
pub proof fn lemma_first_index_unique(s: Seq<char>, c: char, i: int, j: int)
    requires
        is_first_index(s, c, i),
        is_first_index(s, c, j),
    ensures
        i == j,
{
}

/// A text without `/` has no first `/`; a text with one has exactly one first `/`.
pub proof fn lemma_first_index_exists(s: Seq<char>, c: char, k: int)
    requires
        0 <= k < s.len(),
        s[k] == c,
    ensures
        exists|i: int| is_first_index(s, c, i),
    decreases k,
{
    if exists|j: int| 0 <= j < k && s[j] == c {
        let j = choose|j: int| 0 <= j < k && s[j] == c;
        lemma_first_index_exists(s, c, j);
    } else {
        assert(is_first_index(s, c, k));
    }
}

/// Two keys are equal when their schemas and names are.
pub fn key_eq(a: &Key, b: &Key) -> (r: bool)
    ensures
        r == (a@ == b@),
{
    if a.schema != b.schema {
        return false;
    }
    match (&a.name, &b.name) {
        (Some(x), Some(y)) => *x == *y,
        (None, None) => true,
        _ => false,
    }
}

impl Key {
    /// A copy of the key.
    pub fn copy(&self) -> (r: Key)
        ensures
            r@ == self@,
    {
        Key {
            schema: self.schema.clone(),
            name: match &self.name {
                Some(n) => Some(n.clone()),
                None => None,
            },
        }
    }

    /// The textual form of the key (`schema` or `schema/name`).
    pub fn to_text(&self) -> (r: String)
        ensures
            r@ == key_text(self@),
    {
        let mut s = self.schema.clone();
        match &self.name {
            Some(n) => {
                push_char(&mut s, '/');
                push_str(&mut s, n.as_str());
            },
            None => {},
        }
        s
    }

    /// Reads a key from its textual form; never fails.
    pub fn from_text(s: &str) -> (r: Key)
        ensures
            r@ == parse_key_text(s@),
    {
        let v = chars_of(s);
        let mut i: usize = 0;
        while i < v.len()
            invariant
                v@ == s@,
                i <= v.len(),
                forall|j: int| 0 <= j < i ==> v@[j] != '/',
            decreases v.len() - i,
        {
            if v[i] == '/' {
                assert(is_first_index(s@, '/', i as int));
                let mut schema = String::new();
                let mut name = String::new();
                let mut j: usize = 0;
                while j < i
                    invariant
                        v@ == s@,
                        j <= i < v.len(),
                        schema@ == s@.subrange(0, j as int),
                    decreases i - j,
                {
                    push_char(&mut schema, v[j]);
                    assert(s@.subrange(0, j + 1) == s@.subrange(0, j as int).push(v@[j as int]));
                    j = j + 1;
                }
                let mut k: usize = i + 1;
                while k < v.len()
                    invariant
                        v@ == s@,
                        i < k <= v.len(),
                        name@ == s@.subrange(i + 1, k as int),
                    decreases v.len() - k,
                {
                    push_char(&mut name, v[k]);
                    assert(s@.subrange(i + 1, k + 1) == s@.subrange(i + 1, k as int).push(
                        v@[k as int],
                    ));
                    k = k + 1;
                }
                proof {
                    let c = choose|c: int| is_first_index(s@, '/', c);
                    lemma_first_index_unique(s@, '/', c, i as int);
                }
                return Key { schema, name: Some(name) };
            }
            i = i + 1;
        }
        let r = Key { schema: String::from_str(s), name: None };
        proof {
            if exists|c: int| is_first_index(s@, '/', c) {
                let c = choose|c: int| is_first_index(s@, '/', c);
                assert(v@[c] == '/');
            }
        }
        r
    }
}

/// Reading the text of a key gives the key back when its schema holds no `/`.
pub proof fn lemma_key_text_round_trip(k: KeyView)
    requires
        !k.schema.contains('/'),
    ensures
        parse_key_text(key_text(k)) == k,
{
    let t = key_text(k);
    match k.name {
        Some(n) => {
            let i = k.schema.len() as int;
            assert(t[i] == '/');
            assert forall|j: int| 0 <= j < i implies t[j] != '/' by {
                assert(t[j] == k.schema[j]);
            }
            assert(is_first_index(t, '/', i));
            let c = choose|c: int| is_first_index(t, '/', c);
            lemma_first_index_unique(t, '/', c, i);
            assert(t.subrange(0, i) =~= k.schema);
            assert(t.subrange(i + 1, t.len() as int) =~= n);
        },
        None => {
            if exists|c: int| is_first_index(t, '/', c) {
                let c = choose|c: int| is_first_index(t, '/', c);
                assert(k.schema[c] == '/');
                assert(k.schema.contains('/'));
            }
        },
    }
}

/// Writing a key read from a text gives the text back, whatever the text.
pub proof fn lemma_text_key_round_trip(s: Seq<char>)
    ensures
        key_text(parse_key_text(s)) == s,
{
    if exists|c: int| is_first_index(s, '/', c) {
        let c = choose|c: int| is_first_index(s, '/', c);
        assert(s.subrange(0, c) + seq!['/'] + s.subrange(c + 1, s.len() as int) =~= s);
    }
}

/// The kind of a private identity.
#[derive(Debug, Clone, Copy, PartialEq, Eq, Structural)]
pub enum PrivateKind {
    Ephemeral,
    Dynamic,
    Static,
}

/// A resource owned by a single parent: created on the fly (ephemeral),
/// by another resource (dynamic) or by the configuration (static).
#[derive(Debug)]
pub enum PrivateIdentity {
    Ephemeral(Key),
    Dynamic(Key),
    Static(Key),
}

/// The abstract value of an [`Identity`].
pub enum IdentityView {
    Private(PrivateKind, KeyView),
    Shared(KeyView),
}

/// What makes two identities equal: being shared or private, and the key.
/// (Two private identities of different kinds but equal keys are equal.)
pub struct IdClass {
    pub shared: bool,
    pub key: KeyView,
}

impl IdentityView {
    pub open spec fn key(self) -> KeyView {
        match self {
            IdentityView::Private(_, k) => k,
            IdentityView::Shared(k) => k,
        }
    }

    pub open spec fn class(self) -> IdClass {
        match self {
            IdentityView::Private(_, k) => IdClass { shared: false, key: k },
            IdentityView::Shared(k) => IdClass { shared: true, key: k },
        }
    }

    pub open spec fn is_shared(self) -> bool {
        self is Shared
    }
}

impl View for PrivateIdentity {
    type V = (PrivateKind, KeyView);

    open spec fn view(&self) -> (PrivateKind, KeyView) {
        match self {
            PrivateIdentity::Ephemeral(k) => (PrivateKind::Ephemeral, k@),
            PrivateIdentity::Dynamic(k) => (PrivateKind::Dynamic, k@),
            PrivateIdentity::Static(k) => (PrivateKind::Static, k@),
        }
    }
}

/// Who a resource belongs to: a single parent (private) or every resource
/// that depends on it (shared).
#[derive(Debug)]
pub enum Identity {
    Private(PrivateIdentity),
    Shared(Key),
}

impl View for Identity {
    type V = IdentityView;

    open spec fn view(&self) -> IdentityView {
        match self {
            Identity::Private(p) => IdentityView::Private(p@.0, p@.1),
            Identity::Shared(k) => IdentityView::Shared(k@),
        }
    }
}

impl PrivateIdentity {
    /// The key of the identity, whatever its kind.
    pub fn key(&self) -> (r: &Key)
        ensures
            r@ == self@.1,
    {
        match self {
            PrivateIdentity::Static(key) | PrivateIdentity::Dynamic(key)
            | PrivateIdentity::Ephemeral(key) => key,
        }
    }

    pub fn kind(&self) -> (r: PrivateKind)
        ensures
            r == self@.0,
    {
        match self {
            PrivateIdentity::Static(_) => PrivateKind::Static,
            PrivateIdentity::Dynamic(_) => PrivateKind::Dynamic,
            PrivateIdentity::Ephemeral(_) => PrivateKind::Ephemeral,
        }
    }
}

impl Identity {
    /// The key of the identity.
    pub fn key(&self) -> (r: &Key)
        ensures
            r@ == self@.key(),
    {
        match self {
            Identity::Private(p) => p.key(),
            Identity::Shared(key) => key,
        }
    }

    /// The schema of the identity's key.
    pub fn schema(&self) -> (r: &String)
        ensures
            r@ == self@.key().schema,
    {
        &self.key().schema
    }

    pub fn is_shared(&self) -> (r: bool)
        ensures
            r == self@.is_shared(),
    {
        match self {
            Identity::Shared(_) => true,
            Identity::Private(_) => false,
        }
    }

    /// A copy of the identity.
    pub fn copy(&self) -> (r: Identity)
        ensures
            r@ == self@,
    {
        match self {
            Identity::Shared(k) => Identity::Shared(k.copy()),
            Identity::Private(PrivateIdentity::Static(k)) => Identity::Private(
                PrivateIdentity::Static(k.copy()),
            ),
            Identity::Private(PrivateIdentity::Dynamic(k)) => Identity::Private(
                PrivateIdentity::Dynamic(k.copy()),
            ),
            Identity::Private(PrivateIdentity::Ephemeral(k)) => Identity::Private(
                PrivateIdentity::Ephemeral(k.copy()),
            ),
        }
    }

    /// The textual form of the identity: a prefix for its kind (`cfg#`,
    /// `dyn#`, `tmp#` or `sh#`) followed by the text of its key.
    pub fn to_text(&self) -> (r: String)
        ensures
            r@ == identity_text(self@),
    {
        let mut s = String::new();
        match self {
            Identity::Private(PrivateIdentity::Dynamic(_)) => push_str(&mut s, "dyn#"),
            Identity::Private(PrivateIdentity::Ephemeral(_)) => push_str(&mut s, "tmp#"),
            Identity::Private(PrivateIdentity::Static(_)) => push_str(&mut s, "cfg#"),
            Identity::Shared(_) => push_str(&mut s, "sh#"),
        }
        let k = self.key().to_text();
        push_str(&mut s, k.as_str());
        proof {
            reveal_strlit("dyn#");
            reveal_strlit("tmp#");
            reveal_strlit("cfg#");
            reveal_strlit("sh#");
        }
        s
    }
}

/// The prefix that marks the kind of an identity in its textual form.
pub open spec fn identity_prefix(i: IdentityView) -> Seq<char> {
    match i {
        IdentityView::Private(PrivateKind::Dynamic, _) => seq!['d', 'y', 'n', '#'],
        IdentityView::Private(PrivateKind::Ephemeral, _) => seq!['t', 'm', 'p', '#'],
        IdentityView::Private(PrivateKind::Static, _) => seq!['c', 'f', 'g', '#'],
        IdentityView::Shared(_) => seq!['s', 'h', '#'],
    }
}

pub open spec fn identity_text(i: IdentityView) -> Seq<char> {
    identity_prefix(i) + key_text(i.key())
}

/// Identities compare equal when they are both shared or both private and
/// their keys are equal.
pub fn identity_eq(a: &Identity, b: &Identity) -> (r: bool)
    ensures
        r == (a@.class() == b@.class()),
{
    a.is_shared() == b.is_shared() && key_eq(a.key(), b.key())
}

/// Where a resource is in its life.
#[derive(Debug, Clone, Copy, PartialEq, Eq, Structural)]
pub enum Phase {
    Running,
    Shutdown,
    PendingDeletion,
    Deleting,
}

/// Why a reconciliation failed.
#[derive(Debug)]
pub enum StatusError {
    /// No reconciler is known for the resource's schema.
    NoClient,
    /// The reconciliation took too long and was abandoned.
    TimedOut,
    /// The state manager itself failed.
    Internal,
    /// The reconciler answered with something unreadable.
    Invalid,
    /// The reconciler failed at the transport level.
    Transport(String),
    /// The reconciler reported an expected failure.
    Other(String),
}

pub enum StatusErrorView {
    NoClient,
    TimedOut,
    Internal,
    Invalid,
    Transport(Seq<char>),
    Other(Seq<char>),
}

impl View for StatusError {
    type V = StatusErrorView;

    open spec fn view(&self) -> StatusErrorView {
        match self {
            StatusError::NoClient => StatusErrorView::NoClient,
            StatusError::TimedOut => StatusErrorView::TimedOut,
            StatusError::Internal => StatusErrorView::Internal,
            StatusError::Invalid => StatusErrorView::Invalid,
            StatusError::Transport(s) => StatusErrorView::Transport(s@),
            StatusError::Other(s) => StatusErrorView::Other(s@),
        }
    }
}

/// The outcome of the last reconciliation of a resource.
#[derive(Debug)]
pub enum Status {
    Unknown,
    Error(StatusError),
    NotReady,
    Done,
    Ready,
    Deleted,
}

pub enum StatusView {
    Unknown,
    Error(StatusErrorView),
    NotReady,
    Done,
    Ready,
    Deleted,
}

impl View for Status {
    type V = StatusView;

    open spec fn view(&self) -> StatusView {
        match self {
            Status::Unknown => StatusView::Unknown,
            Status::Error(e) => StatusView::Error(e@),
            Status::NotReady => StatusView::NotReady,
            Status::Done => StatusView::Done,
            Status::Ready => StatusView::Ready,
            Status::Deleted => StatusView::Deleted,
        }
    }
}

impl StatusError {
    pub fn copy(&self) -> (r: StatusError)
        ensures
            r@ == self@,
    {
        match self {
            StatusError::NoClient => StatusError::NoClient,
            StatusError::TimedOut => StatusError::TimedOut,
            StatusError::Internal => StatusError::Internal,
            StatusError::Invalid => StatusError::Invalid,
            StatusError::Transport(s) => StatusError::Transport(s.clone()),
            StatusError::Other(s) => StatusError::Other(s.clone()),
        }
    }
}

impl Status {
    pub fn copy(&self) -> (r: Status)
        ensures
            r@ == self@,
    {
        match self {
            Status::Unknown => Status::Unknown,
            Status::Error(e) => Status::Error(e.copy()),
            Status::NotReady => Status::NotReady,
            Status::Done => Status::Done,
            Status::Ready => Status::Ready,
            Status::Deleted => Status::Deleted,
        }
    }

    /// The resource is usable by the resources that depend on it.
    pub fn is_available(&self) -> (r: bool)
        ensures
            r == (self@ is Done || self@ is Ready),
    {
        match self {
            Status::Done | Status::Ready => true,
            _ => false,
        }
    }

    pub fn is_done(&self) -> (r: bool)
        ensures
            r == (self@ is Done),
    {
        match self {
            Status::Done => true,
            _ => false,
        }
    }

    pub fn is_deleted(&self) -> (r: bool)
        ensures
            r == (self@ is Deleted),
    {
        match self {
            Status::Deleted => true,
            _ => false,
        }
    }
}

} // verus!
