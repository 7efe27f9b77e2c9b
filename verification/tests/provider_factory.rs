use std::collections::BTreeMap;

use recall_proxy::config::{
    ProviderRegistration, ReadPipeline, ReadProviderRoute, RecallProxyConfig, WriteCriticality,
    WritePipeline, WriteSink, WriteTrigger,
};
use recall_proxy::factory::{
    create_all_providers, create_provider, validate_provider_routes, ProviderEngine,
};
use recall_proxy::gateway_types::MemoryQuery;
use recall_proxy::memory::MemoryProviderKind;
use recall_proxy::MemoryRecord;

fn registration(id: &str, provider_type: &str, enabled: bool) -> ProviderRegistration {
    ProviderRegistration {
        id: id.to_string(),
        provider_type: provider_type.to_string(),
        enabled,
        capabilities: vec![],
        settings: BTreeMap::new(),
    }
}

fn route(provider_id: &str) -> ReadProviderRoute {
    ReadProviderRoute {
        provider_id: provider_id.to_string(),
        capability: "semantic_search".to_string(),
        intent: None,
        priority: 10,
        weight: 100,
        enabled: true,
    }
}

#[test]
fn create_provider_rejects_unknown_type() {
    let registration = registration("test", "redis", true);
    match create_provider(&registration, MemoryProviderKind::Semantic) {
        Ok(_) => panic!("expected error"),
        Err(ref e) => assert!(e.to_string().contains("unsupported provider type")),
    }
}

#[test]
fn create_provider_requires_db_path_for_sqlite() {
    let registration = registration("sqlite:memory.db", "sqlite", true);
    match create_provider(&registration, MemoryProviderKind::Semantic) {
        Ok(_) => panic!("expected error"),
        Err(ref e) => assert!(e.to_string().contains("db_path")),
    }
}

#[test]
fn create_episodic_provider_succeeds() {
    let mut registration = registration("episodic-1", "episodic", true);
    registration.capabilities = vec!["session_memory".to_string()];
    let engine = create_provider(&registration, MemoryProviderKind::Episodic)
        .expect("episodic provider should succeed");
    assert_eq!(engine.memory_type(), MemoryProviderKind::Episodic);
}

#[test]
fn create_semantic_provider_succeeds() {
    let mut registration = registration("semantic-1", "semantic", true);
    registration.capabilities = vec!["semantic_search".to_string()];
    let engine = create_provider(&registration, MemoryProviderKind::Semantic)
        .expect("semantic provider should succeed");
    assert_eq!(engine.memory_type(), MemoryProviderKind::Semantic);
}

#[test]
fn create_temporal_provider_succeeds() {
    let mut registration = registration("temporal-1", "temporal", true);
    registration.capabilities = vec!["timeline".to_string()];
    let engine = create_provider(&registration, MemoryProviderKind::Temporal)
        .expect("temporal provider should succeed");
    assert_eq!(engine.memory_type(), MemoryProviderKind::Temporal);
}

#[test]
fn create_structural_provider_succeeds() {
    let mut registration = registration("structural-1", "structural", true);
    registration.capabilities = vec!["graph_neighborhood".to_string()];
    let engine = create_provider(&registration, MemoryProviderKind::Structure)
        .expect("structural provider should succeed");
    assert_eq!(engine.memory_type(), MemoryProviderKind::Structure);
}

#[test]
fn create_all_providers_skips_disabled() {
    let config = RecallProxyConfig {
        providers: vec![registration("disabled", "sqlite", false)],
        read_pipelines: vec![],
        write_pipelines: vec![],
        bind_address: None,
    };

    let engines = create_all_providers(&config).expect("should succeed");
    assert!(engines.is_empty());
}

#[test]
fn create_all_providers_includes_all_enabled() {
    let config = RecallProxyConfig {
        providers: vec![
            registration("episodic-1", "episodic", true),
            registration("semantic-1", "semantic", true),
            registration("temporal-1", "temporal", true),
            registration("structural-1", "structural", true),
        ],
        read_pipelines: vec![],
        write_pipelines: vec![],
        bind_address: None,
    };

    let engines = create_all_providers(&config).expect("should succeed");
    assert_eq!(engines.len(), 4);
}

#[test]
fn validate_provider_routes_passes_when_all_present() {
    let mut structural_route = route("structural-1");
    structural_route.capability = "graph_neighborhood".to_string();
    structural_route.priority = 5;
    structural_route.weight = 50;
    let config = RecallProxyConfig {
        providers: vec![
            registration("semantic-1", "semantic", true),
            registration("structural-1", "structural", true),
        ],
        read_pipelines: vec![ReadPipeline {
            id: "default".to_string(),
            providers: vec![route("semantic-1"), structural_route],
        }],
        write_pipelines: vec![WritePipeline {
            id: "archive".to_string(),
            trigger: WriteTrigger::OnResponse,
            sinks: vec![WriteSink {
                provider_id: "semantic-1".to_string(),
                capability: "semantic_search".to_string(),
                enabled: true,
                criticality: WriteCriticality::Required,
            }],
        }],
        bind_address: None,
    };

    let result = validate_provider_routes(&config);
    assert!(result.is_ok());
}

#[test]
fn validate_provider_routes_fails_when_missing_provider() {
    let config = RecallProxyConfig {
        providers: vec![registration("semantic-1", "semantic", true)],
        read_pipelines: vec![ReadPipeline {
            id: "default".to_string(),
            providers: vec![route("missing-provider")],
        }],
        write_pipelines: vec![],
        bind_address: None,
    };

    let result = validate_provider_routes(&config);
    assert!(result.is_err());
    let err = result.unwrap_err();
    assert!(err.to_string().contains("missing provider"));
    assert!(err.to_string().contains("missing-provider"));
}

#[test]
fn unsupported_type_message_names_the_type() {
    let err = create_provider(&registration("x", "redis", true), MemoryProviderKind::Semantic)
        .err()
        .expect("redis is unsupported");
    assert_eq!(err.to_string(), "unsupported provider type: redis");
    let err = create_provider(&registration("y", "sqlite", true), MemoryProviderKind::Temporal)
        .err()
        .expect("sqlite needs a path");
    assert_eq!(err.to_string(), "sqlite provider requires 'db_path' setting");
}

#[test]
fn sqlite_provider_carries_path_and_kind() {
    let mut reg = registration("db", "sqlite", true);
    reg.settings.insert("db_path".to_string(), "/tmp/memory.db".to_string());
    let engine = create_provider(&reg, MemoryProviderKind::Temporal).expect("sqlite plan");
    assert_eq!(engine.memory_type(), MemoryProviderKind::Temporal);
    match engine {
        ProviderEngine::Sqlite { db_path, memory_type } => {
            assert_eq!(db_path, "/tmp/memory.db");
            assert_eq!(memory_type, MemoryProviderKind::Temporal);
        },
        _ => panic!("expected an sqlite engine"),
    }
}

#[test]
fn in_memory_engines_ignore_the_requested_kind() {
    let engine = create_provider(&registration("e", "episodic", true), MemoryProviderKind::Semantic)
        .expect("episodic engine");
    assert_eq!(engine.memory_type(), MemoryProviderKind::Episodic);
}

#[test]
fn settings_override_defaults_and_bad_numbers_fall_back() {
    let mut reg = registration("e", "episodic", true);
    reg.settings.insert("max_entries_per_session".to_string(), "2".to_string());
    reg.settings.insert("max_age_minutes".to_string(), "not-a-number".to_string());
    let engine = create_provider(&reg, MemoryProviderKind::Episodic).expect("episodic engine");
    let mut episodic = match engine {
        ProviderEngine::Episodic(e) => e,
        _ => panic!("expected an episodic engine"),
    };
    for i in 0..3 {
        episodic
            .write(MemoryRecord { namespace: "s".to_string(), content: format!("c{}", i) })
            .unwrap();
    }
    let results = episodic
        .query(MemoryQuery { session_id: "s".to_string(), prompt: String::new(), max_results: 10 })
        .unwrap();
    assert_eq!(results.len(), 2);
}

#[test]
fn create_all_stops_at_first_refused_registration() {
    let config = RecallProxyConfig {
        providers: vec![
            registration("a", "semantic", true),
            registration("b", "redis", true),
            registration("c", "sqlite", true),
        ],
        read_pipelines: vec![],
        write_pipelines: vec![],
        bind_address: None,
    };
    let err = create_all_providers(&config).err().expect("redis is refused");
    assert_eq!(err.to_string(), "unsupported provider type: redis");
}

#[test]
fn create_all_files_unknown_types_as_semantic_for_sqlite() {
    let mut reg = registration("db", "sqlite", true);
    reg.settings.insert("db_path".to_string(), "m.db".to_string());
    let config = RecallProxyConfig {
        providers: vec![reg],
        read_pipelines: vec![],
        write_pipelines: vec![],
        bind_address: None,
    };
    let engines = create_all_providers(&config).expect("sqlite plan");
    assert_eq!(engines[0].memory_type(), MemoryProviderKind::Semantic);
}

#[test]
fn validation_reports_every_missing_provider_in_order() {
    let config = RecallProxyConfig {
        providers: vec![registration("on", "semantic", true), registration("off", "semantic", false)],
        read_pipelines: vec![ReadPipeline {
            id: "r".to_string(),
            providers: vec![route("on"), route("off")],
        }],
        write_pipelines: vec![WritePipeline {
            id: "w".to_string(),
            trigger: WriteTrigger::AsyncHindsight,
            sinks: vec![WriteSink {
                provider_id: "ghost".to_string(),
                capability: "c".to_string(),
                enabled: false,
                criticality: WriteCriticality::BestEffort,
            }],
        }],
        bind_address: None,
    };
    let err = validate_provider_routes(&config).err().expect("two providers are missing");
    assert_eq!(
        err.to_string(),
        "startup validation failed: 2 missing provider(s): \
         read_pipeline[r].provider[off]: provider 'off' not found; \
         write_pipeline[w].sink[ghost]: provider 'ghost' not found"
    );
}

#[test]
fn validation_of_empty_config_passes_with_no_reports() {
    let missing = validate_provider_routes(&RecallProxyConfig::default()).expect("nothing to check");
    assert!(missing.is_empty());
}
