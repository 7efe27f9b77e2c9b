use recall_proxy::config::{
    default_true, GatewayConfig, ProviderConfig, ReadPipeline, ReadProviderRoute,
    RecallProxyConfig, WriteCriticality,
};

#[test]
fn gateway_config_collects_provider_configs() {
    let config = GatewayConfig {
        bind_address: "127.0.0.1:8080".to_string(),
        providers: vec![ProviderConfig {
            name: "primary".to_string(),
            kind: "semantic".to_string(),
        }],
    };

    assert_eq!(config.bind_address, "127.0.0.1:8080");
    assert_eq!(config.providers.len(), 1);
    assert_eq!(config.providers[0].name, "primary");
    assert_eq!(config.providers[0].kind, "semantic");
}

#[test]
fn legacy_gateway_config_migrates_to_canonical() {
    let legacy = GatewayConfig {
        bind_address: "0.0.0.0:3000".to_string(),
        providers: vec![
            ProviderConfig {
                name: "semantic_local".to_string(),
                kind: "semantic".to_string(),
            },
            ProviderConfig {
                name: "graph_engine".to_string(),
                kind: "structural".to_string(),
            },
        ],
    };

    let canonical = legacy.to_canonical();

    assert_eq!(canonical.bind_address, Some("0.0.0.0:3000".to_string()));
    assert_eq!(canonical.providers.len(), 2);
    assert_eq!(canonical.providers[0].id, "semantic_local");
    assert_eq!(canonical.providers[0].provider_type, "semantic");
    assert_eq!(canonical.providers[1].id, "graph_engine");
    assert_eq!(canonical.providers[1].provider_type, "structural");
}

#[test]
fn migrated_providers_are_enabled_and_bare() {
    let legacy = GatewayConfig {
        bind_address: "0.0.0.0:3000".to_string(),
        providers: vec![ProviderConfig {
            name: "p".to_string(),
            kind: "temporal".to_string(),
        }],
    };
    let canonical = legacy.to_canonical();
    assert!(canonical.providers[0].enabled);
    assert!(canonical.providers[0].capabilities.is_empty());
    assert!(canonical.providers[0].settings.is_empty());
    assert!(canonical.read_pipelines.is_empty());
    assert!(canonical.write_pipelines.is_empty());
}

#[test]
fn config_defaults() {
    let config = RecallProxyConfig::default();
    assert!(config.providers.is_empty());
    assert!(config.read_pipelines.is_empty());
    assert!(config.write_pipelines.is_empty());
    assert_eq!(config.bind_address, None);
    assert_eq!(WriteCriticality::default(), WriteCriticality::Required);
    assert!(default_true());
}

fn route(id: &str, capability: &str, priority: u32, weight: u32, enabled: bool) -> ReadProviderRoute {
    ReadProviderRoute {
        provider_id: id.to_string(),
        capability: capability.to_string(),
        intent: None,
        priority,
        weight,
        enabled,
    }
}

#[test]
fn routes_are_tried_by_priority_then_weight_then_provider_id() {
    let pipeline = ReadPipeline {
        id: "default".to_string(),
        providers: vec![
            route("a", "retrieve", 10, 100, true),
            route("b", "retrieve", 5, 50, true),
            route("c", "retrieve", 5, 80, true),
            route("d", "retrieve", 1, 100, false),
            route("e", "store", 1, 100, true),
            route("aa", "retrieve", 5, 80, true),
        ],
    };
    let order: Vec<String> = pipeline
        .routes_for("retrieve")
        .into_iter()
        .map(|r| r.provider_id)
        .collect();
    assert_eq!(order, vec!["aa", "c", "b", "a"]);
    assert!(pipeline.routes_for("missing").is_empty());
}
