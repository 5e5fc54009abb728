use outlayer_scheduler::config::{
    bind_is_loopback, default_alert_cooldown, default_compute_limit, default_coordinator_url,
    default_failure_threshold, default_interval, default_log_level, default_max_exec_secs,
    default_max_instructions, default_max_memory, default_max_per_minute, default_webhook_bind,
    default_webhook_path, default_webhook_port, validate, AgentConfig, AlertsConfig, Config,
    ConfigError, InputConfig, LoggingConfig, ResourcesConfig, StorageDiffConfig, TriggersConfig,
    WebhookConfig,
};

fn sample_config() -> Config {
    Config {
        agent: AgentConfig {
            project_owner: "alice.near".to_string(),
            project_name: "my-agent".to_string(),
            coordinator_url: default_coordinator_url(),
            payment_key: "alice.near:1:secret".to_string(),
            secrets_profile: None,
            secrets_account_id: None,
        },
        triggers: TriggersConfig {
            interval_secs: 60,
            storage_diff: StorageDiffConfig::default(),
            webhook: WebhookConfig::default(),
        },
        input: InputConfig::default(),
        resources: ResourcesConfig::default(),
        alerts: AlertsConfig::default(),
        logging: LoggingConfig::default(),
    }
}

#[test]
fn documented_defaults() {
    assert_eq!(default_coordinator_url(), "https://api.outlayer.ai");
    assert_eq!(default_interval(), 60);
    assert_eq!(default_webhook_port(), 9090);
    assert_eq!(default_webhook_path(), "/trigger");
    assert_eq!(default_webhook_bind(), "127.0.0.1");
    assert_eq!(default_max_per_minute(), 60);
    assert_eq!(default_max_instructions(), 1_000_000_000);
    assert_eq!(default_max_memory(), 128);
    assert_eq!(default_max_exec_secs(), 60);
    assert_eq!(default_compute_limit(), 10000);
    assert_eq!(default_failure_threshold(), 3);
    assert_eq!(default_alert_cooldown(), 600);
    assert_eq!(default_log_level(), "info");
}

#[test]
fn section_defaults() {
    let r = ResourcesConfig::default();
    assert_eq!(r.max_instructions, 1_000_000_000);
    assert_eq!(r.max_memory_mb, 128);
    assert_eq!(r.max_execution_seconds, 60);
    assert_eq!(r.compute_limit, 10000);
    assert_eq!(r.attached_deposit, 0);
    let a = AlertsConfig::default();
    assert!(a.telegram_bot_token.is_none() && a.telegram_chat_id.is_none());
    assert_eq!(a.failure_threshold, 3);
    assert_eq!(a.alert_cooldown_secs, 600);
    assert_eq!(LoggingConfig::default().level, "info");
    let w = WebhookConfig::default();
    assert!(!w.enabled);
    assert_eq!(w.bind, "127.0.0.1");
    assert_eq!(w.port, 9090);
    assert_eq!(w.path, "/trigger");
    assert!(w.secret.is_none());
    assert_eq!(w.max_per_minute, 60);
    let s = StorageDiffConfig::default();
    assert!(!s.enabled && s.keys.is_empty() && s.project_uuid.is_empty());
    assert_eq!(f64::from_bits(s.threshold_percent_bits), 1.0);
    let i = InputConfig::default();
    assert!(i.static_input.is_none() && !i.include_trigger_reason);
}

#[test]
fn valid_config_passes() {
    assert_eq!(validate(&sample_config()), Ok(()));
}

#[test]
fn each_rule_is_reported() {
    let mut c = sample_config();
    c.agent.project_owner = String::new();
    assert_eq!(validate(&c), Err(ConfigError::MissingProjectOwner));

    let mut c = sample_config();
    c.agent.project_name = String::new();
    assert_eq!(validate(&c), Err(ConfigError::MissingProjectName));

    let mut c = sample_config();
    c.agent.payment_key = String::new();
    assert_eq!(validate(&c), Err(ConfigError::MissingPaymentKey));

    let mut c = sample_config();
    c.agent.payment_key = "${PAYMENT_KEY}".to_string();
    assert_eq!(validate(&c), Err(ConfigError::MissingPaymentKey));

    let mut c = sample_config();
    c.agent.coordinator_url = "http://api.outlayer.ai".to_string();
    assert_eq!(validate(&c), Err(ConfigError::InsecureCoordinatorUrl));

    let mut c = sample_config();
    c.triggers.interval_secs = 0;
    assert_eq!(validate(&c), Err(ConfigError::ZeroInterval));

    let mut c = sample_config();
    c.triggers.storage_diff.enabled = true;
    assert_eq!(validate(&c), Err(ConfigError::EmptyStorageKeys));

    c.triggers.storage_diff.keys = vec!["price:wrap.near".to_string()];
    assert_eq!(validate(&c), Err(ConfigError::MissingProjectUuid));

    c.triggers.storage_diff.project_uuid = "p0000000000000001".to_string();
    assert_eq!(validate(&c), Ok(()));
}

#[test]
fn first_broken_rule_wins() {
    let mut c = sample_config();
    c.agent.project_name = String::new();
    c.triggers.interval_secs = 0;
    assert_eq!(validate(&c), Err(ConfigError::MissingProjectName));
}

#[test]
fn exposed_webhook_needs_secret() {
    let mut c = sample_config();
    c.triggers.webhook.enabled = true;
    assert_eq!(validate(&c), Ok(()));
    c.triggers.webhook.bind = "0.0.0.0".to_string();
    assert_eq!(validate(&c), Err(ConfigError::ExposedWebhookWithoutSecret));
    c.triggers.webhook.secret = Some(String::new());
    assert_eq!(validate(&c), Err(ConfigError::ExposedWebhookWithoutSecret));
    c.triggers.webhook.secret = Some("s3cret".to_string());
    assert_eq!(validate(&c), Ok(()));
    c.triggers.webhook.enabled = false;
    c.triggers.webhook.secret = None;
    assert_eq!(validate(&c), Ok(()));
}

#[test]
fn loopback_addresses() {
    assert!(bind_is_loopback("127.0.0.1"));
    assert!(bind_is_loopback("127.10.20.30"));
    assert!(bind_is_loopback("127.255.255.255"));
    assert!(bind_is_loopback("localhost"));
    assert!(bind_is_loopback("::1"));
    assert!(!bind_is_loopback("0.0.0.0"));
    assert!(!bind_is_loopback("192.168.1.10"));
    assert!(!bind_is_loopback("127.0.0"));
    assert!(!bind_is_loopback("127.0.0.256"));
    assert!(!bind_is_loopback("127.0.0.1.5"));
    assert!(!bind_is_loopback("127..0.1"));
    assert!(!bind_is_loopback(""));
    assert!(!bind_is_loopback("::"));
}

#[test]
fn ipv6_loopback_spellings() {
    for a in [
        "::1",
        "0::1",
        "0:0:0:0:0:0:0:1",
        "0000:0000:0000:0000:0000:0000:0000:0001",
        "::0001",
        "0:0:0:0:0:0::1",
        "::0:0:0:0:0:0:1",
        "::0.0.0.1",
        "0::0.0.0.1",
        "0:0:0:0:0:0:0.0.0.1",
    ] {
        assert!(bind_is_loopback(a), "{a}");
    }
    for a in [
        "::",
        "::2",
        "1::1",
        "::1:0",
        ":::1",
        ":1",
        "::1:",
        "0::0::1",
        "::00001",
        "0:0:0:0:0:0:0:0:1",
        "0:0:0:0:0:0:0::1",
        "::0:0:0:0:0:0:0:1",
        "0:0:0:0:0:0:0:0.0.0.1",
        "::0.0.0.01",
        "::0.0.1",
        "::ffff:127.0.0.1",
        "::g",
        "[::1]",
    ] {
        assert!(!bind_is_loopback(a), "{a}");
    }
}

#[test]
fn ipv6_loopback_webhook_needs_no_secret() {
    let mut c = sample_config();
    c.triggers.webhook.enabled = true;
    for bind in ["0::1", "0:0:0:0:0:0:0:1", "::1"] {
        c.triggers.webhook.bind = bind.to_string();
        assert_eq!(validate(&c), Ok(()));
    }
    c.triggers.webhook.bind = "::".to_string();
    assert_eq!(validate(&c), Err(ConfigError::ExposedWebhookWithoutSecret));
}

#[test]
fn error_messages() {
    assert_eq!(ConfigError::MissingProjectOwner.message(), "agent.project_owner is required");
    assert_eq!(ConfigError::ZeroInterval.message(), "triggers.interval_secs must be > 0");
    assert_eq!(
        ConfigError::MissingPaymentKey.message(),
        "agent.payment_key is required (set the env var if using ${...} syntax)"
    );
}
