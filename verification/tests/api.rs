use argon2::password_hash::{PasswordHasher, SaltString};
use containeros::api::{
    api_config_position, authorize, config_pull, decide_install, install_change, static_keys, ApiAuth, ApiConfig,
    AuthError, InstallChange, PushError,
};
use containeros::keymap::KeyMap;
use containeros::model::{Identity, Key, Phase, PrivateIdentity, Status};
use containeros::resource::{IdSet, SubResourceCreate, TerminalResource};
use containeros::state::Resources;

fn stat(schema: &str, name: Option<&str>) -> Identity {
    Identity::Private(PrivateIdentity::Static(Key {
        schema: schema.to_string(),
        name: name.map(|s| s.to_string()),
    }))
}

fn sub(id: Identity, spec: &str) -> SubResourceCreate {
    SubResourceCreate { id, spec: spec.to_string() }
}

fn stored(id: Identity, spec: &str) -> TerminalResource {
    TerminalResource {
        id,
        phase: Phase::Running,
        status: Status::Unknown,
        spec: spec.to_string(),
        derived_spec: "null".to_string(),
        state: None,
        children: IdSet::new(),
        dependencies: IdSet::new(),
        dependents: IdSet::new(),
    }
}

fn store(list: Vec<TerminalResource>) -> Resources {
    let mut m: Resources = KeyMap::new();
    for r in list {
        let k = r.id.key().copy();
        m.insert(k, r);
    }
    m
}

#[test]
fn without_password_anyone_may_call() {
    let cfg = ApiConfig { auth: ApiAuth::Unauthenticated };
    assert!(authorize(&cfg.auth, None).is_ok());
    assert!(authorize(&cfg.auth, Some(b"anything")).is_ok());
}

#[test]
fn password_must_be_given() {
    let auth = ApiAuth::Password("$argon2id$v=19$m=19456,t=2,p=1$c2FsdHNhbHQ$aGFzaA".to_string());
    assert!(matches!(authorize(&auth, None), Err(AuthError::NoPassword)));
}

#[test]
fn malformed_hash_refuses_everyone() {
    let auth = ApiAuth::Password("not-a-hash".to_string());
    match authorize(&auth, Some(b"pw")) {
        Err(AuthError::Rejected(m)) => assert_eq!(m, "password hash string missing field"),
        other => panic!("unexpected {other:?}"),
    }
    let auth = ApiAuth::Password(String::new());
    assert!(matches!(authorize(&auth, Some(b"pw")), Err(AuthError::Rejected(_))));
}

#[test]
fn matching_password_is_accepted() {
    let salt = SaltString::encode_b64(b"saltsaltsalt").unwrap();
    let hash = argon2::Argon2::default().hash_password(b"secret", &salt).unwrap().to_string();
    let auth = ApiAuth::Password(hash);
    assert!(authorize(&auth, Some(b"secret")).is_ok());
    match authorize(&auth, Some(b"wrong")) {
        Err(AuthError::Rejected(m)) => assert_eq!(m, "invalid password"),
        other => panic!("unexpected {other:?}"),
    }
}

#[test]
fn push_needs_the_api_configuration() {
    let pushed = vec![sub(stat("network:dns", None), "{}")];
    assert_eq!(api_config_position(&pushed).unwrap_err(), PushError::MissingApiConfig);
    assert_eq!(PushError::MissingApiConfig.message(), "api config must be present");
    let pushed = vec![sub(stat("network:dns", None), "{}"), sub(stat("api", None), "{\"auth\":\"none\"}")];
    assert_eq!(api_config_position(&pushed).unwrap(), 1);
}

#[test]
fn install_configuration_cannot_go() {
    let m = store(vec![stored(stat("install", None), "{\"disks\":[]}")]);
    let pushed = vec![sub(stat("api", None), "{}")];
    assert!(matches!(install_change(&pushed, &m), Err(PushError::RemovedInstall)));
    assert_eq!(PushError::RemovedInstall.message(), "cannot remove install config");
}

#[test]
fn install_runs_when_configuration_changes() {
    let empty = store(vec![]);
    let pushed = vec![sub(stat("install", None), "{\"disks\":[]}")];
    match install_change(&pushed, &empty) {
        Ok(InstallChange::Install { old, new }) => {
            assert!(old.is_none());
            assert_eq!(new, "{\"disks\":[]}");
        },
        _ => panic!("expected an installation"),
    }
    let same = store(vec![stored(stat("install", None), "{\"disks\":[]}")]);
    assert!(matches!(install_change(&pushed, &same), Ok(InstallChange::Unchanged)));
    assert!(matches!(install_change(&vec![], &empty), Ok(InstallChange::Unchanged)));
    assert!(matches!(decide_install(Some("a".to_string()), Some("b".to_string())), Ok(InstallChange::Install { .. })));
}

#[test]
fn pull_and_replacement_keys_are_the_static_resources() {
    let m = store(vec![
        stored(stat("network:dns", None), "{\"a\":1}"),
        stored(Identity::Private(PrivateIdentity::Dynamic(Key { schema: "x".to_string(), name: None })), "{}"),
        stored(Identity::Shared(Key { schema: "y".to_string(), name: None }), "{}"),
    ]);
    let pulled = config_pull(&m);
    assert_eq!(pulled.len(), 1);
    assert_eq!(pulled[0].id.to_text(), "cfg#network:dns");
    assert_eq!(pulled[0].spec, "{\"a\":1}");
    let keys = static_keys(&m);
    assert_eq!(keys.len(), 1);
    assert_eq!(keys[0].to_text(), "network:dns");
}
