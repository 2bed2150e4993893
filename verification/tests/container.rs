use containeros::container::{
    engine_address, find_schema, pass_failure, ContainerError, ImagePlan, ImageReconciler, InstancePlan,
    InstanceReconciler, InstanceSpec, InstanceState, NetworkPlan, NetworkReconciler, NetworkSpec, PassStage,
    RuntimeReconciler, RuntimeSpec, RuntimeStep, VolumePlan, VolumeReconciler, VolumeSpec, RuntimeResource,
    RuntimeDerivedSpec, PORT_LOW, PORT_HIGH,
};
use containeros::container::{ImageDerivedSpec, ImageState};
use containeros::model::{Identity, Key, Phase, PrivateIdentity, Status, StatusError};
use containeros::reconcile::PassOutcome;
use containeros::resource::{IdSet, TerminalResource};

fn key(schema: &str, name: Option<&str>) -> Key {
    Key { schema: schema.to_string(), name: name.map(|s| s.to_string()) }
}

fn dep(schema: &str, status: Status) -> TerminalResource {
    TerminalResource {
        id: Identity::Private(PrivateIdentity::Dynamic(key(schema, Some("x")))),
        phase: Phase::Running,
        status,
        spec: "{}".to_string(),
        derived_spec: "{\"name\":\"rt\",\"port\":40000}".to_string(),
        state: None,
        children: IdSet::new(),
        dependencies: IdSet::new(),
        dependents: IdSet::new(),
    }
}

fn instance_spec() -> InstanceSpec {
    InstanceSpec {
        image: "busybox".to_string(),
        runtime: "rt".to_string(),
        cmd: None,
        running: None,
        ports: None,
        entrypoint: None,
        env: None,
        volumes: Some(vec!["data".to_string()]),
        networks: Some(vec!["net".to_string()]),
        domainname: None,
        hostname: None,
        user: None,
        working_dir: None,
        depends_on: Some(vec![key("network:dns", None)]),
    }
}

#[test]
fn reconcilers_are_created() {
    let _ = (
        ImageReconciler::new(),
        InstanceReconciler::new(),
        NetworkReconciler::new(),
        RuntimeReconciler::new(),
        VolumeReconciler::new(),
    );
}

#[test]
fn engine_address_on_loopback() {
    assert_eq!(engine_address(40000), "tcp://127.0.0.1:40000");
    assert_eq!(engine_address(0), "tcp://127.0.0.1:0");
}

#[test]
fn failures_are_labelled_by_stage() {
    match pass_failure(PassStage::Refresh, true, "boom") {
        Status::Error(StatusError::Other(m)) => assert_eq!(m, "refresh: boom"),
        _ => panic!(),
    }
    match pass_failure(PassStage::Rerefresh, true, "boom") {
        Status::Error(StatusError::Other(m)) => assert_eq!(m, "rerefresh: boom"),
        _ => panic!(),
    }
    match pass_failure(PassStage::Apply, false, "boom") {
        Status::Error(StatusError::Other(m)) => assert_eq!(m, "boom"),
        _ => panic!(),
    }
}

#[test]
fn image_names_split_at_hash() {
    let r = ImageReconciler::new();
    let (d, deps) = r.validate(&key("container:image", Some("rt#docker.io/lib/busybox#x"))).unwrap();
    assert_eq!(d.runtime, "rt");
    assert_eq!(d.image, "docker.io/lib/busybox#x");
    assert!(deps.contains(&Identity::Private(PrivateIdentity::Dynamic(key("container:runtime", Some("rt"))))));
    assert_eq!(r.validate(&key("container:image", Some("busybox"))).unwrap_err(), ContainerError::InvalidImageFormat);
    assert_eq!(r.validate(&key("container:image", None)).unwrap_err(), ContainerError::MissingName);
    assert_eq!(ContainerError::InvalidImageFormat.message(), "invalid image format");
}

#[test]
fn image_plan_and_status() {
    let r = ImageReconciler::new();
    assert_eq!(r.plan(Phase::Running, None), ImagePlan::Pull);
    assert_eq!(r.plan(Phase::Deleting, Some(containeros::container::ImageState { size: 1 })), ImagePlan::Delete);
    assert_eq!(r.plan(Phase::Running, Some(containeros::container::ImageState { size: 1 })), ImagePlan::Noop);
    assert!(matches!(r.status(Phase::Running, ImagePlan::Noop), Status::Done));
    assert!(matches!(r.status(Phase::Deleting, ImagePlan::Noop), Status::Deleted));
    assert!(matches!(r.status(Phase::Running, ImagePlan::Pull), Status::NotReady));
}

#[test]
fn network_and_volume_plans() {
    let n = NetworkReconciler::new();
    assert_eq!(n.plan(Phase::Running, false), NetworkPlan::Create);
    assert_eq!(n.plan(Phase::Deleting, true), NetworkPlan::Delete);
    assert_eq!(n.plan(Phase::PendingDeletion, true), NetworkPlan::Noop);
    assert!(matches!(n.status(Phase::Running, NetworkPlan::Noop), Status::Ready));
    assert!(matches!(n.status(Phase::PendingDeletion, NetworkPlan::Noop), Status::NotReady));
    assert!(matches!(n.status(Phase::Deleting, NetworkPlan::Noop), Status::Deleted));
    let v = VolumeReconciler::new();
    assert_eq!(v.plan(Phase::Running, false), VolumePlan::Create);
    assert_eq!(v.plan(Phase::Shutdown, false), VolumePlan::Noop);
    let (d, deps) = v.validate(&key("container:volume", Some("data")), &VolumeSpec { runtime: "rt".to_string() }).unwrap();
    assert_eq!(d.name, "data");
    assert_eq!(deps.size(), 1);
    let (d, _) = n.validate(&key("container:network", Some("net")), &NetworkSpec { runtime: "rt".to_string() }).unwrap();
    assert_eq!(d.name, "net");
}

#[test]
fn instance_dependencies() {
    let deps = InstanceReconciler::get_deps(&instance_spec());
    assert_eq!(deps.size(), 5);
    assert!(deps.contains(&Identity::Shared(key("container:image", Some("rt#busybox")))));
    assert!(deps.contains(&Identity::Private(PrivateIdentity::Dynamic(key("container:network", Some("net"))))));
    assert!(deps.contains(&Identity::Private(PrivateIdentity::Dynamic(key("container:volume", Some("data"))))));
    assert!(deps.contains(&Identity::Private(PrivateIdentity::Dynamic(key("network:dns", None)))));
}

#[test]
fn instance_waits_for_runtime_and_image() {
    let r = InstanceReconciler::new();
    assert_eq!(r.ready_runtime(&vec![]), None);
    assert_eq!(r.ready_runtime(&vec![dep("container:runtime", Status::Ready)]), None);
    assert_eq!(
        r.ready_runtime(&vec![dep("container:runtime", Status::Ready), dep("container:image", Status::NotReady)]),
        None
    );
    assert_eq!(
        r.ready_runtime(&vec![dep("container:image", Status::Done), dep("container:runtime", Status::Ready)]),
        Some(1)
    );
    assert_eq!(find_schema(&vec![dep("a", Status::Done), dep("b", Status::Done)], "b"), Some(1));
}

#[test]
fn instance_plans() {
    let r = InstanceReconciler::new();
    let spec = instance_spec();
    let state = |image: &str, running: bool| InstanceState {
        id: "id".to_string(),
        image: image.to_string(),
        running,
        cmd: String::new(),
    };
    assert!(matches!(r.plan(Phase::Running, &spec, "c", None), InstancePlan::Create));
    assert!(matches!(r.plan(Phase::Running, &spec, "c", Some(&state("other", true))), InstancePlan::Delete));
    match r.plan(Phase::Running, &spec, "c", Some(&state("busybox", false))) {
        InstancePlan::Start(n) => assert_eq!(n, "c"),
        _ => panic!(),
    }
    let mut stopped = instance_spec();
    stopped.running = Some(false);
    assert!(matches!(r.plan(Phase::Running, &stopped, "c", Some(&state("busybox", true))), InstancePlan::Stop(_)));
    assert!(matches!(r.plan(Phase::Running, &spec, "c", Some(&state("busybox", true))), InstancePlan::Noop));
    assert!(matches!(r.plan(Phase::Deleting, &spec, "c", Some(&state("busybox", true))), InstancePlan::Delete));
    assert!(matches!(r.plan(Phase::Deleting, &spec, "c", None), InstancePlan::Noop));
    assert!(matches!(r.status(Phase::Running, &InstancePlan::Noop), Status::Ready));
    assert!(matches!(r.status(Phase::Running, &InstancePlan::Create), Status::NotReady));
}

fn runtime_resource(phase: Phase, engine: &str, children: Vec<TerminalResource>) -> RuntimeResource {
    RuntimeResource {
        id: Identity::Private(PrivateIdentity::Static(key("container:runtime", Some("rt")))),
        phase,
        status: Status::Unknown,
        spec: RuntimeSpec { engine: engine.to_string(), uid: 1000, gid: 1000, port: Some(40000), depends_on: vec![] },
        derived_spec: RuntimeDerivedSpec { name: "rt".to_string(), port: 40000 },
        state: None,
        children,
        dependencies: vec![],
        dependents: vec![],
    }
}

#[test]
fn runtime_validation() {
    let r = RuntimeReconciler::new();
    let spec = RuntimeSpec { engine: "docker".to_string(), uid: 0, gid: 0, port: None, depends_on: vec![] };
    assert!(matches!(r.validate(&key("container:runtime", Some("rt")), &spec), Err(ContainerError::UnsupportedEngine)));
    assert_eq!(ContainerError::UnsupportedEngine.message(), "only 'podman' is supported");
    let spec = RuntimeSpec { engine: "podman".to_string(), uid: 0, gid: 0, port: None, depends_on: vec![key("x", None)] };
    let (d, children, deps) = r.validate(&key("container:runtime", Some("rt")), &spec).unwrap();
    assert_eq!(d.name, "rt");
    assert!(PORT_LOW <= d.port && d.port < PORT_HIGH);
    assert_eq!(children.len(), 1);
    assert_eq!(children[0].id.to_text(), "dyn#system:static-file//etc/containers/policy.json");
    assert_eq!(deps.size(), 1);
    let fixed = RuntimeSpec { engine: "podman".to_string(), uid: 0, gid: 0, port: Some(4242), depends_on: vec![] };
    assert_eq!(r.validate(&key("container:runtime", Some("rt")), &fixed).unwrap().0.port, 4242);
}

#[test]
fn runtime_steps() {
    let r = RuntimeReconciler::new();
    assert!(matches!(r.reconcile_step(&runtime_resource(Phase::Deleting, "podman", vec![])), RuntimeStep::Stop));
    match r.reconcile_step(&runtime_resource(Phase::Running, "docker", vec![])) {
        RuntimeStep::Answer(a) => match a.status {
            Status::Error(StatusError::Other(m)) => assert_eq!(m, "only 'podman' is supported"),
            _ => panic!(),
        },
        _ => panic!(),
    }
    match r.reconcile_step(&runtime_resource(Phase::Running, "podman", vec![])) {
        RuntimeStep::Answer(a) => {
            assert!(matches!(a.status, Status::NotReady));
            assert_eq!(a.children.len(), 1);
        },
        _ => panic!(),
    }
    let policy = RuntimeReconciler::get_children(&runtime_resource(Phase::Running, "podman", vec![]).spec);
    let mut file = dep("system:static-file", Status::Done);
    file.id = policy[0].id.copy();
    file.spec = policy[0].spec.clone();
    assert!(matches!(r.reconcile_step(&runtime_resource(Phase::Running, "podman", vec![file])), RuntimeStep::CheckEngine));
    assert!(matches!(r.engine_answer(&runtime_resource(Phase::Running, "podman", vec![]).spec, true).status, Status::Ready));
    assert!(matches!(r.stopped_answer().status, Status::Deleted));
}

#[test]
fn image_pass_answers() {
    let r = ImageReconciler::new();
    let d = ImageDerivedSpec { runtime: "main".to_string(), image: "busybox".to_string() };
    let waiting = r.pass_answer(Phase::Running, &d, PassOutcome::Waiting);
    assert!(matches!(waiting.status, Status::NotReady));
    assert!(waiting.state.is_none() && waiting.children.is_empty());
    assert_eq!(waiting.dependencies.size(), 1);
    assert_eq!(waiting.dependencies.at(0).to_text(), "dyn#container:runtime/main");
    let failed = r.pass_answer(Phase::Running, &d, PassOutcome::Failed("refresh: boom".to_string(), None));
    assert!(matches!(failed.status, Status::Error(StatusError::Other(ref m)) if m == "refresh: boom"));
    let done = r.pass_answer(Phase::Running, &d, PassOutcome::Planned(Some(ImageState { size: 7 }), ImagePlan::Noop));
    assert!(matches!(done.status, Status::Done));
    assert_eq!(done.state, Some(ImageState { size: 7 }));
    let pulling = r.pass_answer(Phase::Running, &d, PassOutcome::Planned(None, ImagePlan::Pull));
    assert!(matches!(pulling.status, Status::NotReady));
}

#[test]
fn network_volume_and_instance_pass_answers() {
    let spec = NetworkSpec { runtime: "main".to_string() };
    let a = NetworkReconciler::new().pass_answer(Phase::Running, &spec, PassOutcome::Planned(None, NetworkPlan::Noop));
    assert!(matches!(a.status, Status::Ready));
    assert!(a.children.is_empty());
    assert_eq!(a.dependencies.at(0).to_text(), "dyn#container:runtime/main");
    let pending =
        NetworkReconciler::new().pass_answer(Phase::PendingDeletion, &spec, PassOutcome::Planned(None, NetworkPlan::Noop));
    assert!(matches!(pending.status, Status::NotReady));
    let vspec = VolumeSpec { runtime: "main".to_string() };
    let v = VolumeReconciler::new().pass_answer(Phase::Deleting, &vspec, PassOutcome::Planned(None, VolumePlan::Noop));
    assert!(matches!(v.status, Status::Deleted));
    let ispec = instance_spec();
    let i = InstanceReconciler::new().pass_answer(Phase::Running, &ispec, PassOutcome::Waiting);
    assert!(matches!(i.status, Status::NotReady));
    assert_eq!(i.dependencies.size(), InstanceReconciler::get_deps(&ispec).size());
    let started = InstanceReconciler::new().pass_answer(
        Phase::Running,
        &ispec,
        PassOutcome::Planned(None, InstancePlan::Start("web".to_string())),
    );
    assert!(matches!(started.status, Status::NotReady));
}
