use outlayer_scheduler::config::{
    AgentConfig, AlertsConfig, Config, InputConfig, LoggingConfig, ResourcesConfig,
    StorageDiffConfig, TriggersConfig, WebhookConfig,
};
use outlayer_scheduler::executor::{build_input, trigger_name, TriggerReason};
use outlayer_scheduler::interval::is_due;
use outlayer_scheduler::json::{JsonNumber, JsonValue, TomlValue};
use outlayer_scheduler::scheduler::{alert_title, failure_alert_message, SchedulerState};
use outlayer_scheduler::text::u64_to_decimal;

const SEC: u64 = 1_000_000_000;

fn config(with_reason: bool) -> Config {
    Config {
        agent: AgentConfig {
            project_owner: "o".to_string(),
            project_name: "n".to_string(),
            coordinator_url: "https://x".to_string(),
            payment_key: "k".to_string(),
            secrets_profile: None,
            secrets_account_id: None,
        },
        triggers: TriggersConfig {
            interval_secs: 60,
            storage_diff: StorageDiffConfig::default(),
            webhook: WebhookConfig::default(),
        },
        input: InputConfig {
            static_input: Some(TomlValue::Table(vec![(
                "command".to_string(),
                TomlValue::String("tick".to_string()),
            )])),
            include_trigger_reason: with_reason,
        },
        resources: ResourcesConfig::default(),
        alerts: AlertsConfig::default(),
        logging: LoggingConfig::default(),
    }
}

fn get<'a>(v: &'a JsonValue, k: &str) -> Option<&'a JsonValue> {
    match v {
        JsonValue::Object(es) => es.iter().find(|(kk, _)| kk == k).map(|(_, v)| v),
        _ => None,
    }
}

fn is_str(v: Option<&JsonValue>, s: &str) -> bool {
    matches!(v, Some(JsonValue::String(x)) if x == s)
}

#[test]
fn interval_input_with_reason() {
    let input = build_input(&config(true), &TriggerReason::Interval);
    assert!(is_str(get(&input, "command"), "tick"));
    assert!(is_str(get(&input, "trigger"), "interval"));
}

#[test]
fn interval_input_without_reason() {
    let input = build_input(&config(false), &TriggerReason::Interval);
    assert!(is_str(get(&input, "command"), "tick"));
    assert!(get(&input, "trigger").is_none());
}

#[test]
fn storage_diff_input() {
    let t = TriggerReason::StorageDiff { changed_keys: vec!["price:wrap.near".to_string()] };
    let input = build_input(&config(true), &t);
    assert!(is_str(get(&input, "trigger"), "storage_diff"));
    match get(&input, "changed_keys") {
        Some(JsonValue::Array(items)) => {
            assert_eq!(items.len(), 1);
            assert!(matches!(&items[0], JsonValue::String(s) if s == "price:wrap.near"));
        }
        other => panic!("unexpected {:?}", other),
    }
    let input = build_input(&config(false), &t);
    assert!(get(&input, "changed_keys").is_none());
}

#[test]
fn webhook_data_always_included() {
    let data = JsonValue::Object(vec![(
        "event".to_string(),
        JsonValue::String("new_order".to_string()),
    )]);
    let t = TriggerReason::Webhook { data };
    for with_reason in [true, false] {
        let input = build_input(&config(with_reason), &t);
        let wd = get(&input, "webhook_data").unwrap();
        assert!(is_str(get(wd, "event"), "new_order"));
        assert_eq!(get(&input, "trigger").is_some(), with_reason);
    }
}

#[test]
fn no_static_input_gives_object() {
    let mut c = config(true);
    c.input.static_input = None;
    let input = build_input(&c, &TriggerReason::Interval);
    match input {
        JsonValue::Object(es) => assert_eq!(es.len(), 1),
        _ => panic!("not an object"),
    }
    c.input.static_input = Some(TomlValue::Integer(3));
    c.input.include_trigger_reason = false;
    assert!(matches!(build_input(&c, &TriggerReason::Interval), JsonValue::Number(JsonNumber::PosInt(3))));
}

#[test]
fn names_of_triggers() {
    assert_eq!(trigger_name(&TriggerReason::Interval), "interval");
    assert_eq!(trigger_name(&TriggerReason::StorageDiff { changed_keys: vec![] }), "storage_diff");
    assert_eq!(trigger_name(&TriggerReason::Webhook { data: JsonValue::Null }), "webhook");
}

#[test]
fn interval_due() {
    assert!(is_due(None, 0, 60));
    assert!(!is_due(Some(5 * SEC), 64 * SEC, 60));
    assert!(!is_due(Some(5 * SEC), 65 * SEC - 1, 60));
    assert!(is_due(Some(5 * SEC), 65 * SEC, 60));
    assert!(!is_due(Some(10 * SEC), 5 * SEC, 1));
    assert!(is_due(Some(10 * SEC), 5 * SEC, 0));
}

#[test]
fn failure_streak_alerts() {
    let mut s = SchedulerState::new();
    assert!(s.interval_due(0, 60));
    s.start_interval(0);
    assert!(!s.interval_due(30 * SEC, 60));
    assert!(!s.record_failure(3));
    assert!(!s.record_failure(3));
    assert!(s.record_failure(3));
    assert!(s.record_failure(3));
    assert_eq!(s.consecutive_failures, 4);
    s.record_success();
    assert_eq!(s.consecutive_failures, 0);
    assert!(!s.record_failure(3));
}

#[test]
fn alert_message() {
    assert_eq!(alert_title(), "Scheduler Error");
    assert_eq!(
        failure_alert_message("alice.near", "my-agent", 3, "WASI error: timeout exceeded"),
        "Project: alice.near/my-agent\n3 consecutive failures\nLast error: WASI error: timeout exceeded"
    );
}

#[test]
fn decimal_formatting() {
    for n in [0u64, 7, 10, 1920, 10000, u64::MAX] {
        assert_eq!(u64_to_decimal(n), n.to_string());
    }
}
