use orynth::ids::PluginId;
use orynth::kernel::TrustOrigin;
use orynth::plugin::{
    authorize_manifest, authorize_manifest_with_ownership, CapabilityDomain, PluginCapability,
    PluginError, PluginKind, PluginManifest, PluginRegistry, PluginRequest, PluginResourceLimits,
    PluginResponse, MAX_CAPABILITIES, PLUGIN_PROTOCOL_VERSION,
};

fn manifest(kind: PluginKind) -> PluginManifest {
    PluginManifest {
        id: PluginId::from_u64(7),
        protocol_version: PLUGIN_PROTOCOL_VERSION,
        name: "example".to_owned(),
        version: "1.0.0".to_owned(),
        kind,
        capabilities: vec![PluginCapability {
            domain: CapabilityDomain::Filesystem,
            resource: "workspace/src".to_owned(),
        }],
        limits: PluginResourceLimits::default(),
    }
}

#[test]
fn manifests_require_bounded_capabilities_and_limits() {
    let manifest = manifest(PluginKind::Process);
    assert!(manifest.validate().is_ok());
    let mut invalid = manifest;
    invalid.limits.max_message_bytes = 0;
    assert!(matches!(invalid.validate(), Err(PluginError::Invalid(_))));
}

#[test]
fn requests_and_responses_are_bounded_and_output_is_explicitly_untrusted() {
    let manifest = manifest(PluginKind::Mcp);
    let request = PluginRequest {
        request_id: 1,
        method: "tools/list".to_owned(),
        payload: vec![1, 2, 3],
    };
    request.validate_with(manifest.limits).unwrap();
    let response = PluginResponse {
        request_id: request.request_id,
        payload: vec![4],
        origin: TrustOrigin::External,
    };
    response.validate_with(manifest.limits).unwrap();
    assert!(!response.origin.is_trusted());
}

#[test]
fn oversized_messages_fail_before_transport() {
    let manifest = manifest(PluginKind::Process);
    let request = PluginRequest {
        request_id: 1,
        method: "run".to_owned(),
        payload: vec![0; manifest.limits.max_message_bytes as usize + 1],
    };
    assert!(matches!(
        request.validate_with(manifest.limits),
        Err(PluginError::MessageTooLarge(_))
    ));
}

#[test]
fn registry_discovers_validated_manifests_without_duplicates() {
    let mut registry = PluginRegistry::new();
    let manifest = manifest(PluginKind::Process);
    registry.register(manifest.clone()).unwrap();
    assert_eq!(registry.manifest(manifest.id), Some(&manifest));
    assert_eq!(
        registry
            .discover(Some(PluginKind::Process), "ex")
            .unwrap()
            .len(),
        1
    );
    assert!(matches!(
        registry.register(manifest),
        Err(PluginError::Duplicate(_))
    ));
}

#[test]
fn every_part_of_a_manifest_is_checked() {
    let good = manifest(PluginKind::Wasm);
    let mut bad = good.clone();
    bad.id = PluginId::from_u64(0);
    assert_eq!(
        bad.validate(),
        Err(PluginError::Invalid("plugin ID must be non-zero"))
    );
    let mut bad = good.clone();
    bad.protocol_version = 9;
    assert_eq!(bad.validate(), Err(PluginError::UnsupportedVersion(9)));
    let mut bad = good.clone();
    bad.name = " ".to_owned();
    assert_eq!(bad.validate(), Err(PluginError::Invalid("plugin name")));
    let mut bad = good.clone();
    bad.version = "v".repeat(257);
    assert_eq!(bad.validate(), Err(PluginError::TooLarge(257)));
    let mut bad = good.clone();
    bad.capabilities = vec![bad.capabilities[0].clone(); MAX_CAPABILITIES + 1];
    assert_eq!(bad.validate(), Err(PluginError::TooLarge(65)));
    let mut bad = good;
    bad.capabilities[0].resource = String::new();
    assert_eq!(
        bad.validate(),
        Err(PluginError::Invalid("plugin capability resource is empty"))
    );
}

#[test]
fn discovery_filters_by_kind_and_name() {
    let mut registry = PluginRegistry::default();
    for (id, name, kind) in [
        (9u64, "beta", PluginKind::Mcp),
        (3u64, "alpha", PluginKind::Process),
        (5u64, "alpine", PluginKind::Mcp),
    ] {
        let mut one = manifest(kind);
        one.id = PluginId::from_u64(id);
        one.name = name.to_owned();
        registry.register(one).unwrap();
    }
    let found = registry.discover(None, "alp").unwrap();
    let ids: Vec<u64> = found.iter().map(|one| one.id.value()).collect();
    assert_eq!(ids, vec![3, 5]);
    assert_eq!(registry.discover(Some(PluginKind::Mcp), "").unwrap().len(), 2);
    assert_eq!(
        registry.discover(None, &"x".repeat(300)),
        Err(PluginError::TooLarge(300))
    );
    assert!(registry.manifest(PluginId::from_u64(4)).is_none());
}

#[test]
fn messages_need_identities_and_methods() {
    let limits = PluginResourceLimits::default();
    let request = PluginRequest {
        request_id: 0,
        method: "run".to_owned(),
        payload: vec![],
    };
    assert!(request.validate_with(limits).is_err());
    let request = PluginRequest {
        request_id: 1,
        method: "\t".to_owned(),
        payload: vec![],
    };
    assert_eq!(
        request.validate_with(limits),
        Err(PluginError::Invalid("plugin method"))
    );
    let response = PluginResponse {
        request_id: 0,
        payload: vec![],
        origin: TrustOrigin::External,
    };
    assert!(response.validate_with(limits).is_err());
}

#[test]
fn capabilities_are_authorized_one_by_one() {
    let mut manifest = manifest(PluginKind::Process);
    manifest.capabilities.push(PluginCapability {
        domain: CapabilityDomain::Named("network".to_owned()),
        resource: "example.org".to_owned(),
    });
    let allow = |_: &PluginCapability| -> Option<String> { None };
    let deny_network = |capability: &PluginCapability| -> Option<String> {
        match &capability.domain {
            CapabilityDomain::Filesystem => None,
            CapabilityDomain::Named(name) => Some(format!("{name} is closed")),
        }
    };
    assert_eq!(authorize_manifest(&allow, &manifest), Ok(()));
    assert_eq!(
        authorize_manifest(&deny_network, &manifest),
        Err(PluginError::CapabilityDenied("network is closed".to_owned()))
    );
    assert_eq!(
        authorize_manifest_with_ownership(&allow, &deny_network, &manifest),
        Err(PluginError::CapabilityDenied("network is closed".to_owned()))
    );
    assert_eq!(
        authorize_manifest_with_ownership(&allow, &allow, &manifest),
        Ok(())
    );
}

#[test]
fn plugin_errors_have_texts() {
    assert_eq!(
        PluginError::Duplicate(PluginId::from_u64(7)).to_text(),
        "plugin plugin-0000000000000007 is already registered"
    );
    assert_eq!(
        PluginError::MessageTooLarge(12).to_text(),
        "plugin message is too large: 12"
    );
    assert_eq!(PluginError::TimedOut.to_text(), "plugin invocation timed out");
}
