use outlayer_scheduler::api::{
    agent_call_body, agent_call_headers, agent_call_url, check_call_response, decode_storage_batch,
    decode_storage_item, storage_batch_body, storage_batch_url, BatchStorageItem,
    BatchStorageResponse, CallError, WasiCallResponse,
};
use outlayer_scheduler::config::{
    AgentConfig, AlertsConfig, Config, InputConfig, LoggingConfig, ResourcesConfig,
    StorageDiffConfig, TriggersConfig, WebhookConfig,
};
use outlayer_scheduler::json::{JsonNumber, JsonValue};

fn config() -> Config {
    Config {
        agent: AgentConfig {
            project_owner: "alice.near".to_string(),
            project_name: "my-agent".to_string(),
            coordinator_url: "https://api.outlayer.ai".to_string(),
            payment_key: "alice.near:1:k".to_string(),
            secrets_profile: None,
            secrets_account_id: None,
        },
        triggers: TriggersConfig {
            interval_secs: 60,
            storage_diff: StorageDiffConfig::default(),
            webhook: WebhookConfig::default(),
        },
        input: InputConfig::default(),
        resources: ResourcesConfig::default(),
        alerts: AlertsConfig::default(),
        logging: LoggingConfig::default(),
    }
}

fn get<'a>(v: &'a JsonValue, k: &str) -> Option<&'a JsonValue> {
    match v {
        JsonValue::Object(es) => es.iter().find(|(kk, _)| kk == k).map(|(_, v)| v),
        _ => None,
    }
}

#[test]
fn call_url() {
    let c = config();
    assert_eq!(agent_call_url(&c.agent), "https://api.outlayer.ai/call/alice.near/my-agent");
    assert_eq!(storage_batch_url(&c.agent), "https://api.outlayer.ai/public/storage/batch");
}

#[test]
fn headers_with_defaults() {
    let hs = agent_call_headers(&config());
    let expected: Vec<(String, String)> = vec![
        ("X-Payment-Key".into(), "alice.near:1:k".into()),
        ("Content-Type".into(), "application/json".into()),
        ("X-Compute-Limit".into(), "10000".into()),
        ("X-Attached-Deposit".into(), "0".into()),
    ];
    assert_eq!(hs, expected);
}

#[test]
fn headers_with_deposit_and_no_limit() {
    let mut c = config();
    c.resources.compute_limit = 0;
    c.resources.attached_deposit = 18446744073709551615;
    let hs = agent_call_headers(&c);
    assert_eq!(hs.len(), 3);
    assert_eq!(hs[2], ("X-Attached-Deposit".to_string(), "18446744073709551615".to_string()));
}

#[test]
fn body_without_secrets() {
    let body = agent_call_body(&config(), JsonValue::Object(vec![]));
    assert!(matches!(get(&body, "async"), Some(JsonValue::Bool(false))));
    assert!(matches!(get(&body, "input"), Some(JsonValue::Object(es)) if es.is_empty()));
    let limits = get(&body, "resource_limits").unwrap();
    assert!(matches!(get(limits, "max_instructions"), Some(JsonValue::Number(JsonNumber::PosInt(1_000_000_000)))));
    assert!(matches!(get(limits, "max_memory_mb"), Some(JsonValue::Number(JsonNumber::PosInt(128)))));
    assert!(matches!(get(limits, "max_execution_seconds"), Some(JsonValue::Number(JsonNumber::PosInt(60)))));
    assert!(get(&body, "secrets_ref").is_none());
}

#[test]
fn body_with_secrets() {
    let mut c = config();
    c.agent.secrets_profile = Some("default".to_string());
    assert!(get(&agent_call_body(&c, JsonValue::Null), "secrets_ref").is_none());
    c.agent.secrets_account_id = Some("alice.near".to_string());
    let body = agent_call_body(&c, JsonValue::Null);
    let s = get(&body, "secrets_ref").unwrap();
    assert!(matches!(get(s, "profile"), Some(JsonValue::String(p)) if p == "default"));
    assert!(matches!(get(s, "account_id"), Some(JsonValue::String(p)) if p == "alice.near"));
}

#[test]
fn batch_body() {
    let body = storage_batch_body(&"p1".to_string(), &vec!["a".to_string(), "b".to_string()]);
    assert!(matches!(get(&body, "project_uuid"), Some(JsonValue::String(p)) if p == "p1"));
    match get(&body, "keys") {
        Some(JsonValue::Array(items)) => {
            assert_eq!(items.len(), 2);
            assert!(matches!(&items[1], JsonValue::String(s) if s == "b"));
        }
        other => panic!("unexpected {:?}", other),
    }
}

#[test]
fn storage_values_decode() {
    let item = BatchStorageItem { exists: true, value: Some("aGVsbG8=".to_string()) };
    assert_eq!(decode_storage_item(&item), Some(b"hello".to_vec()));
    let bad = BatchStorageItem { exists: true, value: Some("not base64!".to_string()) };
    assert_eq!(decode_storage_item(&bad), None);
    let missing = BatchStorageItem { exists: false, value: Some("aGVsbG8=".to_string()) };
    assert_eq!(decode_storage_item(&missing), None);
    let empty = BatchStorageItem { exists: true, value: None };
    assert_eq!(decode_storage_item(&empty), None);
    let resp = BatchStorageResponse {
        results: vec![
            ("k1".to_string(), BatchStorageItem { exists: true, value: Some("MTIz".to_string()) }),
            ("k2".to_string(), BatchStorageItem { exists: false, value: None }),
        ],
    };
    let out = decode_storage_batch(&resp);
    assert_eq!(out, vec![("k1".to_string(), Some(b"123".to_vec())), ("k2".to_string(), None)]);
}

fn reply(status: Option<&str>, error: Option<&str>) -> WasiCallResponse {
    WasiCallResponse {
        call_id: None,
        status: status.map(|s| s.to_string()),
        output: None,
        error: error.map(|s| s.to_string()),
        compute_cost: Some("1920".to_string()),
        instructions: None,
        time_ms: Some(230),
        attestation_url: None,
    }
}

#[test]
fn call_verdicts() {
    assert!(check_call_response(&reply(Some("completed"), None)).is_ok());
    assert!(check_call_response(&reply(None, None)).is_ok());
    match check_call_response(&reply(Some("failed"), None)) {
        Err(e @ CallError::StatusFailed) => assert_eq!(e.message(), "WASI execution status: failed"),
        _ => panic!("expected failure"),
    }
    match check_call_response(&reply(Some("completed"), Some("timeout exceeded"))) {
        Err(e @ CallError::Wasi(_)) => assert_eq!(e.message(), "WASI error: timeout exceeded"),
        _ => panic!("expected WASI error"),
    }
}
