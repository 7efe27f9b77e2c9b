use std::collections::BTreeMap;

use recall_proxy::config::{ProviderRegistration, ReadPipeline, ReadProviderRoute, RecallProxyConfig};
use recall_proxy::mcp::state::startup_engines;
use recall_proxy::memory::MemoryProviderKind;

fn registration(id: &str, provider_type: &str, enabled: bool) -> ProviderRegistration {
    ProviderRegistration {
        id: id.to_string(),
        provider_type: provider_type.to_string(),
        enabled,
        capabilities: vec![],
        settings: BTreeMap::new(),
    }
}

fn config(providers: Vec<ProviderRegistration>, routes: Vec<&str>) -> RecallProxyConfig {
    RecallProxyConfig {
        providers,
        read_pipelines: vec![ReadPipeline {
            id: "default".to_string(),
            providers: routes
                .into_iter()
                .map(|id| ReadProviderRoute {
                    provider_id: id.to_string(),
                    capability: "c".to_string(),
                    intent: None,
                    priority: 1,
                    weight: 1,
                    enabled: true,
                })
                .collect(),
        }],
        write_pipelines: vec![],
        bind_address: None,
    }
}

#[test]
fn startup_builds_enabled_engines() {
    let cfg = config(
        vec![registration("s", "semantic", true), registration("t", "temporal", true)],
        vec!["s", "t"],
    );
    let engines = startup_engines(&cfg).expect("valid configuration");
    let kinds: Vec<MemoryProviderKind> = engines.iter().map(|e| e.memory_type()).collect();
    assert_eq!(kinds, vec![MemoryProviderKind::Semantic, MemoryProviderKind::Temporal]);
}

#[test]
fn startup_refuses_unresolved_routes() {
    let cfg = config(vec![registration("s", "semantic", true)], vec!["x"]);
    let err = startup_engines(&cfg).err().expect("route to x is unresolved");
    assert_eq!(
        err,
        "startup validation failed: 1 missing provider(s): read_pipeline[default].provider[x]: provider 'x' not found"
    );
}

#[test]
fn startup_refuses_configuration_without_enabled_providers() {
    let cfg = config(vec![registration("s", "semantic", false)], vec![]);
    let err = startup_engines(&cfg).err().expect("nothing is enabled");
    assert_eq!(err, "no enabled providers configured");
}

#[test]
fn startup_reports_provider_build_failures() {
    let cfg = config(vec![registration("r", "redis", true)], vec!["r"]);
    let err = startup_engines(&cfg).err().expect("redis is unsupported");
    assert_eq!(err, "failed to create providers: unsupported provider type: redis");
}
