//! The container reconcilers' decisions: what each resource depends on, what
//! a pass plans from the phase and the observed state, which status it ends
//! with, and how names and addresses are derived.
use vstd::prelude::*;

use crate::json::{decimal, push_decimal};
use crate::model::{
    opt_text, IdClass, Identity, IdentityView, Key, KeyView, Phase, PrivateIdentity, PrivateKind,
    Status, StatusErrorView, StatusView,
};
use crate::reconcile::{
    dynamic, failed_with, named_key, outcome_state, outcome_status, static_file, static_file_spec, PassOutcome,
    TypedResponse,
};
use crate::resource::{IdSet, Resource, ResourceResponse, ResourceView, SubResourceCreate, SubResourceView, TerminalResource};
use crate::text::{push_char, push_str, str_eq};

verus! {

// ---------------------------------------------------------------- shared

/// The stages of a reconciliation pass whose outside work can fail.
#[derive(Debug, Clone, Copy, PartialEq, Eq, Structural)]
pub enum PassStage {
    Refresh,
    Apply,
    Rerefresh,
}

pub open spec fn stage_label(s: PassStage) -> Seq<char> {
    match s {
        PassStage::Refresh => "refresh: "@,
        PassStage::Apply => "apply: "@,
        PassStage::Rerefresh => "rerefresh: "@,
    }
}

/// The message of a pass that failed at `stage` with `err`: labelled with the
/// stage, or the bare error.
pub open spec fn pass_message(stage: PassStage, labelled: bool, err: Seq<char>) -> Seq<char> {
    if labelled {
        stage_label(stage) + err
    } else {
        err
    }
}

/// The status of a pass that failed at `stage` with `err`.
pub fn pass_failure(stage: PassStage, labelled: bool, err: &str) -> (r: Status)
    ensures
        r@ == StatusView::Error(StatusErrorView::Other(pass_message(stage, labelled, err@))),
{
    let mut m = String::new();
    if labelled {
        let label = match stage {
            PassStage::Refresh => "refresh: ",
            PassStage::Apply => "apply: ",
            PassStage::Rerefresh => "rerefresh: ",
        };
        push_str(&mut m, label);
    }
    push_str(&mut m, err);
    assert(m@ =~= pass_message(stage, labelled, err@));
    failed_with(m)
}

/// The address of the container engine listening on `port`.
pub open spec fn engine_address_spec(port: u16) -> Seq<char> {
    "tcp://127.0.0.1:"@ + decimal(port as nat)
}

/// Renders the address of the container engine listening on `port`.
pub fn engine_address(port: u16) -> (r: String)
    ensures
        r@ == engine_address_spec(port),
{
    let mut s = String::new();
    push_str(&mut s, "tcp://127.0.0.1:");
    push_decimal(&mut s, port as u64);
    s
}

/// The position of the first resource of `schema` among `s`.
pub open spec fn first_of_schema(s: Seq<TerminalResource>, schema: Seq<char>) -> Option<int>
    decreases s.len(),
{
    if s.len() == 0 {
        None
    } else if s[0]@.id.key().schema == schema {
        Some(0)
    } else {
        match first_of_schema(s.drop_first(), schema) {
            Some(i) => Some(i + 1),
            None => None,
        }
    }
}

proof fn lemma_first_of_schema(s: Seq<TerminalResource>, schema: Seq<char>, i: int)
    requires
        0 <= i <= s.len(),
        forall|j: int| 0 <= j < i ==> #[trigger] s[j]@.id.key().schema != schema,
        i == s.len() || s[i]@.id.key().schema == schema,
    ensures
        first_of_schema(s, schema) == (if i == s.len() {
            None
        } else {
            Some(i)
        }),
    decreases i,
{
    if i > 0 {
        let t = s.drop_first();
        assert forall|j: int| 0 <= j < i - 1 implies #[trigger] t[j]@.id.key().schema != schema by {
            assert(t[j] == s[j + 1]);
        }
        if i < s.len() {
            assert(t[i - 1] == s[i]);
        }
        lemma_first_of_schema(t, schema, i - 1);
    }
}

/// The position of the first resource of `schema` among `deps`.
pub fn find_schema(deps: &Vec<TerminalResource>, schema: &str) -> (r: Option<usize>)
    ensures
        r matches Some(i) ==> i < deps@.len(),
        (match r {
            Some(i) => first_of_schema(deps@, schema@) == Some(i as int),
            None => first_of_schema(deps@, schema@) is None,
        }),
{
    let mut i: usize = 0;
    while i < deps.len()
        invariant
            i <= deps@.len(),
            forall|j: int| 0 <= j < i ==> #[trigger] deps@[j]@.id.key().schema != schema@,
        decreases deps@.len() - i,
    {
        if str_eq(deps[i].id.schema().as_str(), schema) {
            proof {
                lemma_first_of_schema(deps@, schema@, i as int);
            }
            return Some(i);
        }
        i = i + 1;
    }
    proof {
        lemma_first_of_schema(deps@, schema@, i as int);
    }
    None
}

/// Why a container resource is refused.
#[derive(Debug, Clone, Copy, PartialEq, Eq, Structural)]
pub enum ContainerError {
    /// The key of the resource has no name.
    MissingName,
    /// An image name is not `runtime#image`.
    InvalidImageFormat,
    /// The engine of a runtime is not podman.
    UnsupportedEngine,
}

pub open spec fn container_error_text(e: ContainerError) -> Seq<char> {
    match e {
        ContainerError::MissingName => "missing name"@,
        ContainerError::InvalidImageFormat => "invalid image format"@,
        ContainerError::UnsupportedEngine => "only 'podman' is supported"@,
    }
}

impl ContainerError {
    /// The message of the error.
    pub fn message(&self) -> (r: &'static str)
        ensures
            r@ == container_error_text(*self),
    {
        match self {
            ContainerError::MissingName => "missing name",
            ContainerError::InvalidImageFormat => "invalid image format",
            ContainerError::UnsupportedEngine => "only 'podman' is supported",
        }
    }
}

/// The name of a key, required by every container resource.
pub fn key_name(key: &Key) -> (r: Result<String, ContainerError>)
    ensures
        (match r {
            Ok(n) => key@.name == Some(n@),
            Err(e) => e == ContainerError::MissingName && key@.name is None,
        }),
{
    match &key.name {
        Some(n) => Ok(n.clone()),
        None => Err(ContainerError::MissingName),
    }
}

/// The class of the dynamic identity of the named resource of `schema`.
pub open spec fn dyn_class(schema: Seq<char>, name: Seq<char>) -> IdClass {
    IdClass { shared: false, key: KeyView { schema, name: Some(name) } }
}

/// The runtime a container resource depends on.
pub fn runtime_dependency(runtime: &str) -> (r: Identity)
    ensures
        r@ == IdentityView::Private(
            PrivateKind::Dynamic,
            KeyView { schema: "container:runtime"@, name: Some(runtime@) },
        ),
{
    dynamic(named_key("container:runtime", runtime))
}

/// The dependencies of a resource that only needs its runtime.
pub fn runtime_only_deps(runtime: &str) -> (r: IdSet)
    ensures
        r@ == set![dyn_class("container:runtime"@, runtime@)],
        r.privates_of_kind(PrivateKind::Dynamic),
{
    let mut s = IdSet::new();
    s.insert(runtime_dependency(runtime));
    assert(s@ =~= set![dyn_class("container:runtime"@, runtime@)]);
    s
}

/// The answer of a resource whose pass cannot start yet.
pub fn not_ready(deps: IdSet) -> (r: ResourceResponse)
    ensures
        r.status@ == StatusView::NotReady,
        r.state is None,
        r.children@.len() == 0,
        r.dependencies@ == deps@,
{
    ResourceResponse { status: Status::NotReady, state: None, children: Vec::new(), dependencies: deps }
}

/// The plan of a resource that exists or not: create it while running,
/// delete it while being deleted, leave it otherwise.
pub open spec fn presence_plan(phase: Phase, exists: bool) -> PresencePlan {
    match (phase, exists) {
        (Phase::Running, false) => PresencePlan::Create,
        (Phase::Deleting, true) => PresencePlan::Delete,
        _ => PresencePlan::Noop,
    }
}

/// What a pass does to a resource that exists or not.
#[derive(Debug, Clone, Copy, PartialEq, Eq, Structural)]
pub enum PresencePlan {
    Create,
    Delete,
    Noop,
}

/// A resource is only created while running and missing, and only deleted
/// while being deleted and present; once a resource being deleted is gone,
/// nothing is left to do, and nothing is done while running and present or
/// in any other phase.
pub proof fn lemma_presence_plan(phase: Phase, exists: bool)
    ensures
        presence_plan(phase, exists) == PresencePlan::Create <==> (phase == Phase::Running && !exists),
        presence_plan(phase, exists) == PresencePlan::Delete <==> (phase == Phase::Deleting && exists),
        phase == Phase::Deleting && !exists ==> presence_plan(phase, exists) == PresencePlan::Noop,
        phase == Phase::Running && exists ==> presence_plan(phase, exists) == PresencePlan::Noop,
        phase != Phase::Running && phase != Phase::Deleting ==> presence_plan(phase, exists)
            == PresencePlan::Noop,
{
}

fn plan_presence(phase: Phase, exists: bool) -> (r: PresencePlan)
    ensures
        r == presence_plan(phase, exists),
{
    match (phase, exists) {
        (Phase::Running, false) => PresencePlan::Create,
        (Phase::Deleting, true) => PresencePlan::Delete,
        _ => PresencePlan::Noop,
    }
}

/// The status after a pass whose last plan is `noop` or not: deleted once
/// nothing is left to do while being deleted, not ready while waiting for
/// deletion or while work is left, else `settled`.
pub open spec fn settled_status(phase: Phase, noop: bool, settled: StatusView) -> StatusView {
    if !noop {
        StatusView::NotReady
    } else if phase == Phase::Deleting {
        StatusView::Deleted
    } else if phase == Phase::PendingDeletion {
        StatusView::NotReady
    } else {
        settled
    }
}

// ---------------------------------------------------------------- images

/// The reconciler of container images.
#[derive(Debug)]
pub struct ImageReconciler;

impl ImageReconciler {
    pub fn new() -> (r: Self) {
        ImageReconciler
    }
}

/// An image takes no specification of its own: its name says it all.
#[derive(Debug)]
pub struct ImageSpec {}

/// The runtime and the image reference of an image resource.
#[derive(Debug)]
pub struct ImageDerivedSpec {
    pub runtime: String,
    pub image: String,
}

/// What is known of a pulled image.
#[derive(Debug, Clone, Copy, PartialEq, Eq, Structural)]
pub struct ImageState {
    pub size: i64,
}

/// What a pass does to an image.
#[derive(Debug, Clone, Copy, PartialEq, Eq, Structural)]
pub enum ImagePlan {
    Pull,
    Delete,
    Noop,
}

pub type ImageResource = Resource<ImageSpec, ImageDerivedSpec, ImageState>;

/// An image name `runtime#image` split at its first `#`.
pub open spec fn split_image_name(name: Seq<char>) -> Option<(Seq<char>, Seq<char>)> {
    crate::text::split_once_spec(name, '#')
}

/// The derived specification of an image from its key's name.
pub open spec fn image_derivation(name: Option<Seq<char>>) -> Result<(Seq<char>, Seq<char>), ContainerError> {
    match name {
        None => Err(ContainerError::MissingName),
        Some(n) => match split_image_name(n) {
            None => Err(ContainerError::InvalidImageFormat),
            Some(p) => Ok(p),
        },
    }
}

/// The status after a pass over an image whose last plan is `plan`.
pub open spec fn image_status(phase: Phase, plan: ImagePlan) -> StatusView {
    if plan == ImagePlan::Noop && phase == Phase::Deleting {
        StatusView::Deleted
    } else if plan == ImagePlan::Noop {
        StatusView::Done
    } else {
        StatusView::NotReady
    }
}

impl ImageReconciler {
    /// Validates an image: its name is `runtime#image`; it depends on its
    /// runtime.
    pub fn validate(&self, key: &Key) -> (r: Result<(ImageDerivedSpec, IdSet), ContainerError>)
        ensures
            (match r {
                Ok((d, deps)) => image_derivation(key@.name) == Ok::<
                    (Seq<char>, Seq<char>),
                    ContainerError,
                >((d.runtime@, d.image@)) && deps@ == set![
                    dyn_class("container:runtime"@, d.runtime@),
                ] && deps.privates_of_kind(PrivateKind::Dynamic),
                Err(e) => image_derivation(key@.name) == Err::<(Seq<char>, Seq<char>), ContainerError>(e),
            }),
    {
        let name = match key_name(key) {
            Ok(n) => n,
            Err(e) => return Err(e),
        };
        match crate::text::split_once_char(name.as_str(), '#') {
            None => Err(ContainerError::InvalidImageFormat),
            Some((runtime, image)) => {
                let deps = runtime_only_deps(runtime.as_str());
                Ok((ImageDerivedSpec { runtime, image }, deps))
            },
        }
    }

    /// The plan of a pass over an image: pull it while running and missing,
    /// delete it while being deleted and present.
    pub fn plan(&self, phase: Phase, cx: Option<ImageState>) -> (r: ImagePlan)
        ensures
            r == (match presence_plan(phase, cx is Some) {
                PresencePlan::Create => ImagePlan::Pull,
                PresencePlan::Delete => ImagePlan::Delete,
                PresencePlan::Noop => ImagePlan::Noop,
            }),
            r == ImagePlan::Pull <==> (phase == Phase::Running && !(cx is Some)),
            r == ImagePlan::Delete <==> (phase == Phase::Deleting && cx is Some),
    {
        match plan_presence(phase, cx.is_some()) {
            PresencePlan::Create => ImagePlan::Pull,
            PresencePlan::Delete => ImagePlan::Delete,
            PresencePlan::Noop => ImagePlan::Noop,
        }
    }

    /// The status after a pass: an image with nothing left to do is done (or
    /// deleted while being deleted).
    pub fn status(&self, phase: Phase, plan: ImagePlan) -> (r: Status)
        ensures
            r@ == image_status(phase, plan),
    {
        match (plan, phase) {
            (ImagePlan::Noop, Phase::Deleting) => Status::Deleted,
            (ImagePlan::Noop, _) => Status::Done,
            _ => Status::NotReady,
        }
    }

    /// The answer of a pass over an image: no children, the state the outcome
    /// carries, the status of the outcome, and its dependencies.
    pub fn pass_answer(&self, phase: Phase, dspec: &ImageDerivedSpec, outcome: PassOutcome<ImageState, ImagePlan>) -> (r: TypedResponse<ImageState>)
        ensures
            r.status@ == outcome_status(outcome, |p: ImagePlan| image_status(phase, p)),
            r.state == outcome_state(outcome),
            r.children@.len() == 0,
            r.dependencies@ == set![dyn_class("container:runtime"@, dspec.runtime@)],
            r.dependencies.privates_of_kind(PrivateKind::Dynamic),
    {
        let dependencies = runtime_only_deps(dspec.runtime.as_str());
        match outcome {
            PassOutcome::Waiting => TypedResponse {
                status: Status::NotReady,
                state: None,
                children: Vec::new(),
                dependencies,
            },
            PassOutcome::Failed(m, state) => TypedResponse {
                status: failed_with(m),
                state,
                children: Vec::new(),
                dependencies,
            },
            PassOutcome::Planned(state, plan) => TypedResponse {
                status: self.status(phase, plan),
                state,
                children: Vec::new(),
                dependencies,
            },
        }
    }
}

// ---------------------------------------------------------------- networks

/// The reconciler of container networks.
#[derive(Debug)]
pub struct NetworkReconciler;

impl NetworkReconciler {
    pub fn new() -> (r: Self) {
        NetworkReconciler
    }
}

/// A container network: the runtime it lives in.
#[derive(Debug)]
pub struct NetworkSpec {
    pub runtime: String,
}

/// The name of a container network.
#[derive(Debug)]
pub struct NetworkDerivedSpec {
    pub name: String,
}

/// What is known of an existing network.
#[derive(Debug)]
pub struct NetworkState {
    pub id: String,
    pub containers: Vec<String>,
}

/// What a pass does to a network.
#[derive(Debug, Clone, Copy, PartialEq, Eq, Structural)]
pub enum NetworkPlan {
    Create,
    Delete,
    Noop,
}

pub type NetworkResource = Resource<NetworkSpec, NetworkDerivedSpec, NetworkState>;

impl NetworkReconciler {
    /// Validates a network: it takes the name of its key and depends on its
    /// runtime.
    pub fn validate(&self, key: &Key, spec: &NetworkSpec) -> (r: Result<(NetworkDerivedSpec, IdSet), ContainerError>)
        ensures
            (match r {
                Ok((d, deps)) => key@.name == Some(d.name@) && deps@ == set![
                    dyn_class("container:runtime"@, spec.runtime@),
                ] && deps.privates_of_kind(PrivateKind::Dynamic),
                Err(e) => e == ContainerError::MissingName && key@.name is None,
            }),
    {
        let name = match key_name(key) {
            Ok(n) => n,
            Err(e) => return Err(e),
        };
        Ok((NetworkDerivedSpec { name }, runtime_only_deps(spec.runtime.as_str())))
    }

    /// The plan of a pass over a network.
    pub fn plan(&self, phase: Phase, exists: bool) -> (r: NetworkPlan)
        ensures
            r == (match presence_plan(phase, exists) {
                PresencePlan::Create => NetworkPlan::Create,
                PresencePlan::Delete => NetworkPlan::Delete,
                PresencePlan::Noop => NetworkPlan::Noop,
            }),
            r == NetworkPlan::Create <==> (phase == Phase::Running && !exists),
            r == NetworkPlan::Delete <==> (phase == Phase::Deleting && exists),
    {
        match plan_presence(phase, exists) {
            PresencePlan::Create => NetworkPlan::Create,
            PresencePlan::Delete => NetworkPlan::Delete,
            PresencePlan::Noop => NetworkPlan::Noop,
        }
    }

    /// The status after a pass.
    pub fn status(&self, phase: Phase, plan: NetworkPlan) -> (r: Status)
        ensures
            r@ == settled_status(phase, plan == NetworkPlan::Noop, StatusView::Ready),
    {
        match (plan, phase) {
            (NetworkPlan::Noop, Phase::Deleting) => Status::Deleted,
            (NetworkPlan::Noop, Phase::PendingDeletion) => Status::NotReady,
            (NetworkPlan::Noop, _) => Status::Ready,
            _ => Status::NotReady,
        }
    }

    /// The answer of a pass over a network: no children, the state the outcome
    /// carries, the status of the outcome, and its dependencies.
    pub fn pass_answer(&self, phase: Phase, spec: &NetworkSpec, outcome: PassOutcome<NetworkState, NetworkPlan>) -> (r: TypedResponse<NetworkState>)
        ensures
            r.status@ == outcome_status(outcome, |p: NetworkPlan| settled_status(phase, p == NetworkPlan::Noop, StatusView::Ready)),
            r.state == outcome_state(outcome),
            r.children@.len() == 0,
            r.dependencies@ == set![dyn_class("container:runtime"@, spec.runtime@)],
            r.dependencies.privates_of_kind(PrivateKind::Dynamic),
    {
        let dependencies = runtime_only_deps(spec.runtime.as_str());
        match outcome {
            PassOutcome::Waiting => TypedResponse {
                status: Status::NotReady,
                state: None,
                children: Vec::new(),
                dependencies,
            },
            PassOutcome::Failed(m, state) => TypedResponse {
                status: failed_with(m),
                state,
                children: Vec::new(),
                dependencies,
            },
            PassOutcome::Planned(state, plan) => TypedResponse {
                status: self.status(phase, plan),
                state,
                children: Vec::new(),
                dependencies,
            },
        }
    }
}

// ---------------------------------------------------------------- volumes

/// The reconciler of container volumes.
#[derive(Debug)]
pub struct VolumeReconciler;

impl VolumeReconciler {
    pub fn new() -> (r: Self) {
        VolumeReconciler
    }
}

/// A container volume: the runtime it lives in.
#[derive(Debug)]
pub struct VolumeSpec {
    pub runtime: String,
}

/// The name of a container volume.
#[derive(Debug)]
pub struct VolumeDerivedSpec {
    pub name: String,
}

/// What is known of an existing volume.
#[derive(Debug)]
pub struct VolumeState {
    pub mountpoint: String,
}

/// What a pass does to a volume.
#[derive(Debug, Clone, Copy, PartialEq, Eq, Structural)]
pub enum VolumePlan {
    Create,
    Delete,
    Noop,
}

pub type VolumeResource = Resource<VolumeSpec, VolumeDerivedSpec, VolumeState>;

impl VolumeReconciler {
    /// Validates a volume: it takes the name of its key and depends on its
    /// runtime.
    pub fn validate(&self, key: &Key, spec: &VolumeSpec) -> (r: Result<(VolumeDerivedSpec, IdSet), ContainerError>)
        ensures
            (match r {
                Ok((d, deps)) => key@.name == Some(d.name@) && deps@ == set![
                    dyn_class("container:runtime"@, spec.runtime@),
                ] && deps.privates_of_kind(PrivateKind::Dynamic),
                Err(e) => e == ContainerError::MissingName && key@.name is None,
            }),
    {
        let name = match key_name(key) {
            Ok(n) => n,
            Err(e) => return Err(e),
        };
        Ok((VolumeDerivedSpec { name }, runtime_only_deps(spec.runtime.as_str())))
    }

    /// The plan of a pass over a volume.
    pub fn plan(&self, phase: Phase, exists: bool) -> (r: VolumePlan)
        ensures
            r == (match presence_plan(phase, exists) {
                PresencePlan::Create => VolumePlan::Create,
                PresencePlan::Delete => VolumePlan::Delete,
                PresencePlan::Noop => VolumePlan::Noop,
            }),
            r == VolumePlan::Create <==> (phase == Phase::Running && !exists),
            r == VolumePlan::Delete <==> (phase == Phase::Deleting && exists),
    {
        match plan_presence(phase, exists) {
            PresencePlan::Create => VolumePlan::Create,
            PresencePlan::Delete => VolumePlan::Delete,
            PresencePlan::Noop => VolumePlan::Noop,
        }
    }

    /// The status after a pass.
    pub fn status(&self, phase: Phase, plan: VolumePlan) -> (r: Status)
        ensures
            r@ == settled_status(phase, plan == VolumePlan::Noop, StatusView::Ready),
    {
        match (plan, phase) {
            (VolumePlan::Noop, Phase::Deleting) => Status::Deleted,
            (VolumePlan::Noop, Phase::PendingDeletion) => Status::NotReady,
            (VolumePlan::Noop, _) => Status::Ready,
            _ => Status::NotReady,
        }
    }

    /// The answer of a pass over a volume: no children, the state the outcome
    /// carries, the status of the outcome, and its dependencies.
    pub fn pass_answer(&self, phase: Phase, spec: &VolumeSpec, outcome: PassOutcome<VolumeState, VolumePlan>) -> (r: TypedResponse<VolumeState>)
        ensures
            r.status@ == outcome_status(outcome, |p: VolumePlan| settled_status(phase, p == VolumePlan::Noop, StatusView::Ready)),
            r.state == outcome_state(outcome),
            r.children@.len() == 0,
            r.dependencies@ == set![dyn_class("container:runtime"@, spec.runtime@)],
            r.dependencies.privates_of_kind(PrivateKind::Dynamic),
    {
        let dependencies = runtime_only_deps(spec.runtime.as_str());
        match outcome {
            PassOutcome::Waiting => TypedResponse {
                status: Status::NotReady,
                state: None,
                children: Vec::new(),
                dependencies,
            },
            PassOutcome::Failed(m, state) => TypedResponse {
                status: failed_with(m),
                state,
                children: Vec::new(),
                dependencies,
            },
            PassOutcome::Planned(state, plan) => TypedResponse {
                status: self.status(phase, plan),
                state,
                children: Vec::new(),
                dependencies,
            },
        }
    }
}

// ---------------------------------------------------------------- instances

/// The reconciler of container instances.
#[derive(Debug)]
pub struct InstanceReconciler;

impl InstanceReconciler {
    pub fn new() -> (r: Self) {
        InstanceReconciler
    }
}

/// A port published by an instance.
#[derive(Debug)]
pub struct InstancePortSpec {
    pub container_port: u16,
    pub host_port: Option<u16>,
    /// The host address to bind, in its textual form.
    pub host_ip: Option<String>,
}

/// A container instance: its image, runtime and how it runs.
#[derive(Debug)]
pub struct InstanceSpec {
    pub image: String,
    pub runtime: String,
    pub cmd: Option<Vec<String>>,
    pub running: Option<bool>,
    pub ports: Option<Vec<InstancePortSpec>>,
    pub entrypoint: Option<Vec<String>>,
    pub env: Option<Vec<String>>,
    pub volumes: Option<Vec<String>>,
    pub networks: Option<Vec<String>>,
    pub domainname: Option<String>,
    pub hostname: Option<String>,
    pub user: Option<String>,
    pub working_dir: Option<String>,
    pub depends_on: Option<Vec<Key>>,
}

/// The name of a container instance.
#[derive(Debug)]
pub struct InstanceDerivedSpec {
    pub name: String,
}

/// What is known of an existing container.
#[derive(Debug)]
pub struct InstanceState {
    pub id: String,
    pub image: String,
    pub running: bool,
    pub cmd: String,
}

/// What a pass does to an instance.
#[derive(Debug)]
pub enum InstancePlan {
    Create,
    Delete,
    Start(String),
    Stop(String),
    Noop,
}

/// An instance plan as plain values.
pub enum InstancePlanView {
    Create,
    Delete,
    Start(Seq<char>),
    Stop(Seq<char>),
    Noop,
}

impl View for InstancePlan {
    type V = InstancePlanView;

    open spec fn view(&self) -> InstancePlanView {
        match self {
            InstancePlan::Create => InstancePlanView::Create,
            InstancePlan::Delete => InstancePlanView::Delete,
            InstancePlan::Start(n) => InstancePlanView::Start(n@),
            InstancePlan::Stop(n) => InstancePlanView::Stop(n@),
            InstancePlan::Noop => InstancePlanView::Noop,
        }
    }
}

pub type InstanceResource = Resource<InstanceSpec, InstanceDerivedSpec, InstanceState>;

/// The classes of the dynamic resources of `schema` named by `names`.
pub open spec fn named_classes(schema: Seq<char>, names: Option<Vec<String>>) -> Set<IdClass> {
    match names {
        Some(v) => Set::new(|c: IdClass| exists|i: int| 0 <= i < v@.len() && c == dyn_class(schema, #[trigger] v@[i]@)),
        None => Set::empty(),
    }
}

/// The classes of the dynamic resources under `keys`.
pub open spec fn key_classes(keys: Option<Vec<Key>>) -> Set<IdClass> {
    match keys {
        Some(v) => Set::new(
            |c: IdClass| exists|i: int| 0 <= i < v@.len() && c == IdClass { shared: false, key: #[trigger] v@[i]@ },
        ),
        None => Set::empty(),
    }
}

/// The shared image an instance runs: `runtime#image`.
pub open spec fn image_class(runtime: Seq<char>, image: Seq<char>) -> IdClass {
    IdClass {
        shared: true,
        key: KeyView { schema: "container:image"@, name: Some(runtime + "#"@ + image) },
    }
}

/// What an instance depends on: its runtime, its image, its networks, its
/// volumes and what it names itself.
pub open spec fn instance_deps(spec: InstanceSpec) -> Set<IdClass> {
    set![dyn_class("container:runtime"@, spec.runtime@), image_class(spec.runtime@, spec.image@)]
        + named_classes("container:network"@, spec.networks) + named_classes(
        "container:volume"@,
        spec.volumes,
    ) + key_classes(spec.depends_on)
}

/// Adds the dynamic resources of `schema` named by `names`.
fn insert_named(set: &mut IdSet, schema: &str, names: &Option<Vec<String>>)
    ensures
        final(set)@ == old(set)@ + named_classes(schema@, *names),
        old(set).privates_of_kind(PrivateKind::Dynamic) ==> final(set).privates_of_kind(PrivateKind::Dynamic),
{
    match names {
        None => {
            assert(set@ =~= old(set)@ + Set::<IdClass>::empty());
        },
        Some(v) => {
            let mut i: usize = 0;
            while i < v.len()
                invariant
                    i <= v@.len(),
                    set@ == old(set)@ + Set::new(
                        |c: IdClass| exists|j: int| 0 <= j < i && c == dyn_class(schema@, #[trigger] v@[j]@),
                    ),
                    old(set).privates_of_kind(PrivateKind::Dynamic) ==> set.privates_of_kind(PrivateKind::Dynamic),
                decreases v@.len() - i,
            {
                set.insert(dynamic(named_key(schema, v[i].as_str())));
                assert(set@ =~= old(set)@ + Set::new(
                    |c: IdClass| exists|j: int| 0 <= j < i + 1 && c == dyn_class(schema@, #[trigger] v@[j]@),
                )) by {
                    assert(dyn_class(schema@, v@[i as int]@) == dyn_class(schema@, v@[i as int]@));
                }
                i = i + 1;
            }
        },
    }
}

/// Adds the dynamic resources under `keys`.
fn insert_keys(set: &mut IdSet, keys: &Option<Vec<Key>>)
    ensures
        final(set)@ == old(set)@ + key_classes(*keys),
        old(set).privates_of_kind(PrivateKind::Dynamic) ==> final(set).privates_of_kind(PrivateKind::Dynamic),
{
    match keys {
        None => {
            assert(set@ =~= old(set)@ + Set::<IdClass>::empty());
        },
        Some(v) => {
            let mut i: usize = 0;
            while i < v.len()
                invariant
                    i <= v@.len(),
                    set@ == old(set)@ + Set::new(
                        |c: IdClass| exists|j: int| 0 <= j < i && c == IdClass { shared: false, key: #[trigger] v@[j]@ },
                    ),
                    old(set).privates_of_kind(PrivateKind::Dynamic) ==> set.privates_of_kind(PrivateKind::Dynamic),
                decreases v@.len() - i,
            {
                set.insert(dynamic(v[i].copy()));
                assert(set@ =~= old(set)@ + Set::new(
                    |c: IdClass| exists|j: int| 0 <= j < i + 1 && c == IdClass { shared: false, key: #[trigger] v@[j]@ },
                )) by {
                    assert(IdClass { shared: false, key: v@[i as int]@ } == IdClass { shared: false, key: v@[i as int]@ });
                }
                i = i + 1;
            }
        },
    }
}

/// The name of the shared image resource: `runtime#image`.
pub fn image_name(runtime: &str, image: &str) -> (r: String)
    ensures
        r@ == runtime@ + "#"@ + image@,
{
    let mut s = String::new();
    push_str(&mut s, runtime);
    push_str(&mut s, "#");
    push_str(&mut s, image);
    assert(s@ =~= runtime@ + "#"@ + image@);
    s
}

/// Whether a pass must wait: no runtime among the dependencies, or an image
/// that is absent or not pulled yet.
pub open spec fn instance_waits(deps: Seq<TerminalResource>) -> bool {
    ||| first_of_schema(deps, "container:runtime"@) is None
    ||| match first_of_schema(deps, "container:image"@) {
        None => true,
        Some(i) => !(deps[i]@.status is Done),
    }
}

/// Whether the instance wants its container running (the default).
pub open spec fn wants_running(spec: InstanceSpec) -> bool {
    match spec.running {
        Some(b) => b,
        None => true,
    }
}

/// The plan of a pass over an instance: create it while running and
/// missing; delete it while being deleted, or when it runs another image;
/// start or stop it to match what it should be; else nothing.
pub open spec fn instance_plan(phase: Phase, spec: InstanceSpec, name: Seq<char>, cx: Option<(Seq<char>, bool)>) -> InstancePlanView {
    match (phase, cx) {
        (Phase::Running, None) => InstancePlanView::Create,
        (Phase::Deleting, Some(_)) => InstancePlanView::Delete,
        (Phase::Running, Some((image, running))) => if spec.image@ == image {
            if wants_running(spec) && !running {
                InstancePlanView::Start(name)
            } else if !wants_running(spec) && running {
                InstancePlanView::Stop(name)
            } else {
                InstancePlanView::Noop
            }
        } else {
            InstancePlanView::Delete
        },
        _ => InstancePlanView::Noop,
    }
}

/// The image and the running flag of an observed container.
pub open spec fn observed(cx: Option<&InstanceState>) -> Option<(Seq<char>, bool)> {
    match cx {
        Some(s) => Some((s.image@, s.running)),
        None => None,
    }
}

impl InstanceReconciler {
    /// What an instance depends on.
    pub fn get_deps(spec: &InstanceSpec) -> (r: IdSet)
        ensures
            r@ == instance_deps(*spec),
            r.privates_of_kind(PrivateKind::Dynamic),
    {
        let mut s = IdSet::new();
        s.insert(runtime_dependency(spec.runtime.as_str()));
        s.insert(
            Identity::Shared(
                Key {
                    schema: "container:image".to_string(),
                    name: Some(image_name(spec.runtime.as_str(), spec.image.as_str())),
                },
            ),
        );
        assert(s@ =~= set![
            dyn_class("container:runtime"@, spec.runtime@),
            image_class(spec.runtime@, spec.image@),
        ]);
        insert_named(&mut s, "container:network", &spec.networks);
        insert_named(&mut s, "container:volume", &spec.volumes);
        insert_keys(&mut s, &spec.depends_on);
        s
    }

    /// Validates an instance: it takes the name of its key.
    pub fn validate(&self, key: &Key, spec: &InstanceSpec) -> (r: Result<(InstanceDerivedSpec, IdSet), ContainerError>)
        ensures
            (match r {
                Ok((d, deps)) => key@.name == Some(d.name@) && deps@ == instance_deps(*spec)
                    && deps.privates_of_kind(PrivateKind::Dynamic),
                Err(e) => e == ContainerError::MissingName && key@.name is None,
            }),
    {
        let name = match key_name(key) {
            Ok(n) => n,
            Err(e) => return Err(e),
        };
        Ok((InstanceDerivedSpec { name }, Self::get_deps(spec)))
    }

    /// Whether a pass can start: the position of the runtime among the
    /// dependencies, once the image is pulled.
    pub fn ready_runtime(&self, deps: &Vec<TerminalResource>) -> (r: Option<usize>)
        ensures
            r is None <==> instance_waits(deps@),
            r matches Some(i) ==> i < deps@.len() && first_of_schema(deps@, "container:runtime"@) == Some(
                i as int,
            ),
    {
        let rt = find_schema(deps, "container:runtime");
        let img = find_schema(deps, "container:image");
        match (rt, img) {
            (Some(i), Some(j)) => if deps[j].status.is_done() {
                Some(i)
            } else {
                None
            },
            _ => None,
        }
    }

    /// The plan of a pass over an instance named `name`, with the container
    /// observed as `cx`.
    pub fn plan(&self, phase: Phase, spec: &InstanceSpec, name: &str, cx: Option<&InstanceState>) -> (r: InstancePlan)
        ensures
            r@ == instance_plan(phase, *spec, name@, observed(cx)),
    {
        match (phase, cx) {
            (Phase::Running, None) => InstancePlan::Create,
            (Phase::Deleting, Some(_)) => InstancePlan::Delete,
            (Phase::Running, Some(s)) => if str_eq(spec.image.as_str(), s.image.as_str()) {
                let want = match spec.running {
                    Some(b) => b,
                    None => true,
                };
                if want && !s.running {
                    InstancePlan::Start(name.to_string())
                } else if !want && s.running {
                    InstancePlan::Stop(name.to_string())
                } else {
                    InstancePlan::Noop
                }
            } else {
                InstancePlan::Delete
            },
            _ => InstancePlan::Noop,
        }
    }

    /// The status after a pass.
    pub fn status(&self, phase: Phase, plan: &InstancePlan) -> (r: Status)
        ensures
            r@ == settled_status(phase, plan@ is Noop, StatusView::Ready),
    {
        match (plan, phase) {
            (InstancePlan::Noop, Phase::Deleting) => Status::Deleted,
            (InstancePlan::Noop, Phase::PendingDeletion) => Status::NotReady,
            (InstancePlan::Noop, _) => Status::Ready,
            _ => Status::NotReady,
        }
    }

    /// The answer of a pass over an instance: no children, the state the outcome
    /// carries, the status of the outcome, and its dependencies.
    pub fn pass_answer(&self, phase: Phase, spec: &InstanceSpec, outcome: PassOutcome<InstanceState, InstancePlan>) -> (r: TypedResponse<InstanceState>)
        ensures
            r.status@ == outcome_status(outcome, |p: InstancePlan| settled_status(phase, p@ is Noop, StatusView::Ready)),
            r.state == outcome_state(outcome),
            r.children@.len() == 0,
            r.dependencies@ == instance_deps(*spec),
            r.dependencies.privates_of_kind(PrivateKind::Dynamic),
    {
        let dependencies = Self::get_deps(spec);
        match outcome {
            PassOutcome::Waiting => TypedResponse {
                status: Status::NotReady,
                state: None,
                children: Vec::new(),
                dependencies,
            },
            PassOutcome::Failed(m, state) => TypedResponse {
                status: failed_with(m),
                state,
                children: Vec::new(),
                dependencies,
            },
            PassOutcome::Planned(state, plan) => TypedResponse {
                status: self.status(phase, &plan),
                state,
                children: Vec::new(),
                dependencies,
            },
        }
    }
}

// ---------------------------------------------------------------- runtimes

/// The reconciler of container runtimes.
#[derive(Debug)]
pub struct RuntimeReconciler;

impl RuntimeReconciler {
    pub fn new() -> (r: Self) {
        RuntimeReconciler
    }
}

/// A container runtime: its engine, the user and group it runs as, the port
/// it listens on (drawn at random when absent) and what it depends on.
#[derive(Debug)]
pub struct RuntimeSpec {
    pub engine: String,
    pub uid: u32,
    pub gid: u32,
    pub port: Option<u16>,
    pub depends_on: Vec<Key>,
}

/// The name of a runtime and the port its engine listens on.
#[derive(Debug)]
pub struct RuntimeDerivedSpec {
    pub name: String,
    pub port: u16,
}

pub type RuntimeResource = Resource<RuntimeSpec, RuntimeDerivedSpec, ()>;

/// The lowest port drawn for a runtime.
pub const PORT_LOW: u16 = 32768;

/// The bound above the ports drawn for a runtime.
pub const PORT_HIGH: u16 = 60999;

/// A port drawn at random with `rand::random_range(32768..60999)`. Claimed:
/// only that it lies in the range; which port comes out is left open.
#[verifier::external_body]
fn random_port() -> (r: u16)
    ensures
        PORT_LOW <= r < PORT_HIGH,
{
    rand::random_range(32768..60999)
}

/// The path of the image policy of the engine.
pub open spec fn policy_path() -> Seq<char> {
    "/etc/containers/policy.json"@
}

/// The image policy of the engine: accept any image.
pub open spec fn policy_content() -> Seq<char> {
    "{\"default\":[{\"type\":\"insecureAcceptAnything\"}]}"@
}

/// The file a runtime asks for: its image policy.
pub open spec fn runtime_child() -> SubResourceView {
    SubResourceView {
        id: IdentityView::Private(
            PrivateKind::Dynamic,
            KeyView { schema: "system:static-file"@, name: Some(policy_path()) },
        ),
        spec: static_file_spec(policy_path(), policy_content()),
    }
}

/// What a runtime depends on: the resources it names.
pub open spec fn runtime_deps(spec: RuntimeSpec) -> Set<IdClass> {
    key_classes(Some(spec.depends_on))
}

/// Why a runtime is refused, if it is: an engine other than podman, then a
/// key without a name.
pub open spec fn runtime_violation(key: KeyView, spec: RuntimeSpec) -> Option<ContainerError> {
    if spec.engine@ != "podman"@ {
        Some(ContainerError::UnsupportedEngine)
    } else if key.name is None {
        Some(ContainerError::MissingName)
    } else {
        None
    }
}

/// What a pass over a runtime does first.
pub enum RuntimeStep {
    /// Stop its engine, then answer that it is deleted.
    Stop,
    /// Answer at once.
    Answer(ResourceResponse),
    /// Look at its engine: answer ready when it runs, else restart it and
    /// answer not ready.
    CheckEngine,
}

impl RuntimeReconciler {
    /// The files a runtime asks for: its image policy.
    pub fn get_children(spec: &RuntimeSpec) -> (r: Vec<SubResourceCreate>)
        ensures
            r@.len() == 1,
            r@[0]@ == runtime_child(),
    {
        let child = SubResourceCreate {
            id: dynamic(named_key("system:static-file", "/etc/containers/policy.json")),
            spec: static_file(
                "/etc/containers/policy.json",
                "{\"default\":[{\"type\":\"insecureAcceptAnything\"}]}",
            ),
        };
        vec![child]
    }

    /// What a runtime depends on.
    pub fn get_deps(spec: &RuntimeSpec) -> (r: IdSet)
        ensures
            r@ == runtime_deps(*spec),
            r.privates_of_kind(PrivateKind::Dynamic),
    {
        let mut s = IdSet::new();
        let keys = Some(copy_keys(&spec.depends_on));
        insert_keys(&mut s, &keys);
        assert(s@ =~= runtime_deps(*spec)) by {
            let v = keys.unwrap();
            assert forall|c: IdClass| #[trigger] s@.contains(c) == runtime_deps(*spec).contains(c) by {
                if s@.contains(c) {
                    let i = choose|i: int| 0 <= i < v@.len() && c == IdClass { shared: false, key: #[trigger] v@[i]@ };
                    assert(c == IdClass { shared: false, key: spec.depends_on@[i]@ });
                }
                if runtime_deps(*spec).contains(c) {
                    let i = choose|i: int|
                        0 <= i < spec.depends_on@.len() && c == IdClass { shared: false, key: #[trigger] spec.depends_on@[i]@ };
                    assert(c == IdClass { shared: false, key: v@[i]@ });
                }
            }
        }
        s
    }

    /// Validates a runtime: podman only, named by its key, listening on the
    /// given port or on one drawn at random in `32768..60999`.
    pub fn validate(&self, key: &Key, spec: &RuntimeSpec) -> (r: Result<
        (RuntimeDerivedSpec, Vec<SubResourceCreate>, IdSet),
        ContainerError,
    >)
        ensures
            (match r {
                Ok((d, children, deps)) => {
                    &&& runtime_violation(key@, *spec) is None
                    &&& key@.name == Some(d.name@)
                    &&& (match spec.port {
                        Some(p) => d.port == p,
                        None => PORT_LOW <= d.port < PORT_HIGH,
                    })
                    &&& children@.len() == 1
                    &&& children@[0]@ == runtime_child()
                    &&& deps@ == runtime_deps(*spec)
                },
                Err(e) => runtime_violation(key@, *spec) == Some(e),
            }),
    {
        if !str_eq(spec.engine.as_str(), "podman") {
            return Err(ContainerError::UnsupportedEngine);
        }
        let name = match key_name(key) {
            Ok(n) => n,
            Err(e) => return Err(e),
        };
        let port = match spec.port {
            Some(p) => p,
            None => random_port(),
        };
        Ok((RuntimeDerivedSpec { name, port }, Self::get_children(spec), Self::get_deps(spec)))
    }

    /// What a pass over a runtime does first: a runtime that shuts down or is
    /// deleted stops its engine; one with an unsupported engine fails; one
    /// whose image policy is not in place as asked and done waits; else its
    /// engine is looked at.
    pub fn reconcile_step(&self, resource: &RuntimeResource) -> (r: RuntimeStep)
        ensures
            (resource.phase == Phase::Shutdown || resource.phase == Phase::Deleting) <==> r is Stop,
            r is CheckEngine <==> {
                &&& resource.phase != Phase::Shutdown
                &&& resource.phase != Phase::Deleting
                &&& resource.spec.engine@ == "podman"@
                &&& resource.children@.len() == 1
                &&& resource.children@[0]@.id.class() == runtime_child().id.class()
                &&& resource.children@[0]@.spec == runtime_child().spec
                &&& resource.children@[0]@.status is Done
            },
            r matches RuntimeStep::Answer(a) ==> {
                &&& a.state is None
                &&& a.dependencies@ == runtime_deps(resource.spec)
                &&& if resource.spec.engine@ != "podman"@ {
                    &&& a.status@ == StatusView::Error(StatusErrorView::Other(container_error_text(ContainerError::UnsupportedEngine)))
                    &&& a.children@.len() == 0
                } else {
                    &&& a.status@ == StatusView::NotReady
                    &&& a.children@.len() == 1
                    &&& a.children@[0]@ == runtime_child()
                }
            },
    {
        match resource.phase {
            Phase::Shutdown | Phase::Deleting => return RuntimeStep::Stop,
            _ => {},
        }
        if !str_eq(resource.spec.engine.as_str(), "podman") {
            return RuntimeStep::Answer(
                ResourceResponse {
                    status: failed_with(ContainerError::UnsupportedEngine.message().to_string()),
                    state: None,
                    children: Vec::new(),
                    dependencies: Self::get_deps(&resource.spec),
                },
            );
        }
        let children = Self::get_children(&resource.spec);
        let matches = resource.children.len() == 1 && {
            let existing = &resource.children[0];
            crate::model::identity_eq(&existing.id, &children[0].id) && str_eq(
                existing.spec.as_str(),
                children[0].spec.as_str(),
            ) && existing.status.is_done()
        };
        if matches {
            RuntimeStep::CheckEngine
        } else {
            RuntimeStep::Answer(
                ResourceResponse {
                    status: Status::NotReady,
                    state: None,
                    children,
                    dependencies: Self::get_deps(&resource.spec),
                },
            )
        }
    }

    /// The answer once the engine was looked at: ready when it was running,
    /// else (once restarted) not ready.
    pub fn engine_answer(&self, spec: &RuntimeSpec, running: bool) -> (r: ResourceResponse)
        ensures
            r.status@ == (if running {
                StatusView::Ready
            } else {
                StatusView::NotReady
            }),
            r.state is None,
            r.children@.len() == 1,
            r.children@[0]@ == runtime_child(),
            r.dependencies@ == runtime_deps(*spec),
    {
        ResourceResponse {
            status: if running {
                Status::Ready
            } else {
                Status::NotReady
            },
            state: None,
            children: Self::get_children(spec),
            dependencies: Self::get_deps(spec),
        }
    }

    /// The answer of a runtime whose engine was stopped.
    pub fn stopped_answer(&self) -> (r: ResourceResponse)
        ensures
            r.status@ == StatusView::Deleted,
            r.state is None,
            r.children@.len() == 0,
            r.dependencies@ == Set::<IdClass>::empty(),
    {
        ResourceResponse { status: Status::Deleted, state: None, children: Vec::new(), dependencies: IdSet::new() }
    }
}

/// A copy of a list of keys.
fn copy_keys(v: &Vec<Key>) -> (r: Vec<Key>)
    ensures
        r@.len() == v@.len(),
        forall|i: int| 0 <= i < v@.len() ==> #[trigger] r@[i]@ == v@[i]@,
{
    let mut r: Vec<Key> = Vec::new();
    let mut i: usize = 0;
    while i < v.len()
        invariant
            i <= v@.len(),
            r@.len() == i,
            forall|j: int| 0 <= j < i ==> #[trigger] r@[j]@ == v@[j]@,
        decreases v@.len() - i,
    {
        r.push(v[i].copy());
        i = i + 1;
    }
    r
}

} // verus!
