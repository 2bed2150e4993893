//! Pieces shared by the reconcilers: the errors they report, the request for
//! a file on the system, and the key of a named resource.
use vstd::prelude::*;

use crate::json::{json_str, push_json_str};
use crate::model::{Identity, Key, KeyView, PrivateIdentity, Status, StatusError, StatusErrorView, StatusView};
use crate::resource::{IdSet, SubResourceCreate};
use crate::text::push_str;

verus! {

/// The status of a reconciliation that failed with the message `m`.
pub fn failed_with(m: String) -> (r: Status)
    ensures
        r@ == StatusView::Error(StatusErrorView::Other(m@)),
{
    Status::Error(StatusError::Other(m))
}

/// The specification, in JSON, of a file that the system controller writes:
/// at `path`, with `content`, owned by the default group and readable by the
/// group and by others.
pub open spec fn static_file_spec(path: Seq<char>, content: Seq<char>) -> Seq<char> {
    "{\"content\":"@ + json_str(content) + ",\"owner_gid\":null,\"path\":"@ + json_str(path)
        + ",\"readable_by_group\":true,\"readable_by_others\":true}"@
}

/// Renders the specification of a file that the system controller writes.
pub fn static_file(path: &str, content: &str) -> (r: String)
    ensures
        r@ == static_file_spec(path@, content@),
{
    let mut s = String::new();
    push_str(&mut s, "{\"content\":");
    push_json_str(&mut s, content);
    push_str(&mut s, ",\"owner_gid\":null,\"path\":");
    push_json_str(&mut s, path);
    push_str(&mut s, ",\"readable_by_group\":true,\"readable_by_others\":true}");
    assert(s@ =~= static_file_spec(path@, content@));
    s
}

/// The key of the schema `schema` with the name `name`.
pub fn named_key(schema: &str, name: &str) -> (r: Key)
    ensures
        r@ == (KeyView { schema: schema@, name: Some(name@) }),
{
    Key { schema: schema.to_string(), name: Some(name.to_string()) }
}

/// A dynamic identity: a resource created on request of its parent.
pub fn dynamic(key: Key) -> (r: Identity)
    ensures
        r@ == crate::model::IdentityView::Private(crate::model::PrivateKind::Dynamic, key@),
{
    Identity::Private(PrivateIdentity::Dynamic(key))
}

/// A reconciler's answer to a pass, with the state as a value of the
/// reconciler's own type (the state manager receives it encoded).
#[derive(Debug)]
pub struct TypedResponse<S> {
    pub status: Status,
    pub state: Option<S>,
    pub children: Vec<SubResourceCreate>,
    pub dependencies: IdSet,
}

/// How a pass went: it could not start yet (what it needs is not there);
/// a step failed, with the message and the state known then; or it went
/// through, with the state observed last and the plan made from it.
#[derive(Debug)]
pub enum PassOutcome<S, P> {
    Waiting,
    Failed(String, Option<S>),
    Planned(Option<S>, P),
}

/// The state a pass outcome carries.
pub open spec fn outcome_state<S, P>(o: PassOutcome<S, P>) -> Option<S> {
    match o {
        PassOutcome::Waiting => None,
        PassOutcome::Failed(_, s) => s,
        PassOutcome::Planned(s, _) => s,
    }
}

/// The status of a pass outcome: not ready while waiting, the error of a
/// failed step, or `settled` for the plan of a pass that went through.
pub open spec fn outcome_status<S, P>(o: PassOutcome<S, P>, settled: spec_fn(P) -> StatusView) -> StatusView {
    match o {
        PassOutcome::Waiting => StatusView::NotReady,
        PassOutcome::Failed(m, _) => StatusView::Error(StatusErrorView::Other(m@)),
        PassOutcome::Planned(_, p) => settled(p),
    }
}

} // verus!
