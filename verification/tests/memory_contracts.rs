use recall_proxy::{MemoryProvider, MemoryRecord};

struct TestProvider;

impl MemoryProvider for TestProvider {
    fn provider_name(&self) -> &'static str {
        "test-provider"
    }
}

#[test]
fn lib_memory_record_holds_values() {
    let record = MemoryRecord {
        namespace: "session-1".to_string(),
        content: "hello world".to_string(),
    };

    assert_eq!(record.namespace, "session-1");
    assert_eq!(record.content, "hello world");
}

#[test]
fn mod_memory_record_holds_values() {
    let record = MemoryRecord {
        namespace: "session-1".to_string(),
        content: "hello world".to_string(),
    };

    assert_eq!(record.namespace, "session-1");
    assert_eq!(record.content, "hello world");
}

#[test]
fn provider_name_contract_is_callable() {
    let provider = TestProvider;
    assert_eq!(provider.provider_name(), "test-provider");
}
