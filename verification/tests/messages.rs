use containeros::messages::{ConfigResource, ConfigValidateResponsePayload};

#[test]
fn documents_become_configuration_resources() {
    let doc = ConfigResource { schema: "network:link".to_string(), name: Some("eth0".to_string()), spec: "{\"admin_up\":true}".to_string() };
    let r = doc.into_request();
    assert_eq!(r.id.to_text(), "cfg#network:link/eth0");
    assert_eq!(r.spec, "{\"admin_up\":true}");
    let unnamed = ConfigResource { schema: "api".to_string(), name: None, spec: "{}".to_string() }.into_request();
    assert_eq!(unnamed.id.to_text(), "cfg#api");
    assert!(matches!(ConfigValidateResponsePayload::Valid, ConfigValidateResponsePayload::Valid));
}
