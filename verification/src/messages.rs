//! The payloads of the management interface, and what a configuration
//! document becomes once pushed. Specifications travel as JSON text, paths as
//! text.
use vstd::prelude::*;

use crate::boot::static_request;
use crate::model::{Identity, Key, PrivateIdentity};
use crate::resource::{SubResourceCreate, SubResourceView, TerminalResource};

verus! {

/// Resources to validate.
#[derive(Debug)]
pub struct ConfigValidateRequestPayload {
    pub resources: Vec<SubResourceCreate>,
}

/// The outcome of a validation.
#[derive(Debug)]
pub enum ConfigValidateResponsePayload {
    /// The resources are valid (`Ok` in the encoded form).
    Valid,
    /// The first refusal, with its reason.
    Error(String),
}

/// Resources to push as the new configuration.
#[derive(Debug)]
pub struct ConfigPushRequestPayload {
    pub resources: Vec<SubResourceCreate>,
}

/// A push succeeded.
#[derive(Debug)]
pub struct ConfigPushResponsePayload;

/// A request for the configuration.
#[derive(Debug)]
pub struct ConfigPullRequestPayload;

/// The configuration.
#[derive(Debug)]
pub struct ConfigPullResponsePayload {
    pub resources: Vec<SubResourceCreate>,
}

/// Content to write to a file of a volume.
#[derive(Debug)]
pub struct FsWriteRequestPayload {
    pub volume: String,
    pub path: String,
    pub content: Vec<u8>,
}

/// A write succeeded.
#[derive(Debug)]
pub struct FsWriteResponsePayload;

/// A directory of a volume to list.
#[derive(Debug)]
pub struct FsListRequestPayload {
    pub volume: String,
    pub path: String,
}

/// The entries of a directory: whether each is a directory, and its name.
#[derive(Debug)]
pub struct FsListResponsePayload {
    pub entries: Vec<(bool, String)>,
}

/// A file of a volume to read.
#[derive(Debug)]
pub struct FsReadRequestPayload {
    pub volume: String,
    pub path: String,
}

/// The content of a file.
#[derive(Debug)]
pub struct FsReadResponsePayload {
    pub content: Vec<u8>,
}

/// A request for the resources, of one schema or all.
#[derive(Debug)]
pub struct ResourcesListRequestPayload {
    pub schema: Option<String>,
}

/// The resources.
#[derive(Debug)]
pub struct ResourcesListResponsePayload {
    pub resources: Vec<TerminalResource>,
}

/// A request for one resource.
#[derive(Debug)]
pub struct ResourcesGetRequestPayload {
    pub schema: String,
    pub name: Option<String>,
}

/// One resource.
#[derive(Debug)]
pub struct ResourcesGetResponsePayload {
    pub resource: TerminalResource,
}

/// A request to reconcile a resource now.
#[derive(Debug)]
pub struct ResourcesReconcileNowRequestPayload {
    pub schema: String,
    pub name: Option<String>,
}

/// The reconciliation was scheduled.
#[derive(Debug)]
pub struct ResourcesReconcileNowResponsePayload;

/// A request to drop a resource without reconciling it.
#[derive(Debug)]
pub struct ResourcesForceDeleteRequestPayload {
    pub schema: String,
    pub name: Option<String>,
}

/// The resource was dropped.
#[derive(Debug)]
pub struct ResourcesForceDeleteResponsePayload;

/// A request to reboot.
#[derive(Debug)]
pub struct SystemRebootRequestPayload;

/// The reboot was scheduled.
#[derive(Debug)]
pub struct SystemRebootResponsePayload;

/// A document of a configuration file: the schema, the name (if any), and
/// the rest of the document as the specification.
#[derive(Debug)]
pub struct ConfigResource {
    pub schema: String,
    pub name: Option<String>,
    pub spec: String,
}

impl ConfigResource {
    /// The configuration resource a document stands for.
    pub fn into_request(self) -> (r: SubResourceCreate)
        ensures
            r@ == static_request(self.schema@, crate::model::opt_text(self.name), self.spec@),
    {
        let ConfigResource { schema, name, spec } = self;
        SubResourceCreate { id: Identity::Private(PrivateIdentity::Static(Key { schema, name })), spec }
    }
}

} // verus!
