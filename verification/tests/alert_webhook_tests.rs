use outlayer_scheduler::json::JsonValue;
use outlayer_scheduler::executor::TriggerReason;
use outlayer_scheduler::telegram::{alert_request, escape_markdown, AlertThrottle};
use outlayer_scheduler::webhook::{ct_eq, decide_webhook, webhook_trigger, RateLimiter, WebhookVerdict};

const SEC: u64 = 1_000_000_000;

#[test]
fn throttle_by_title() {
    let mut t = AlertThrottle::new(600);
    assert!(t.should_send("Scheduler Error", 0));
    assert!(!t.should_send("Scheduler Error", 599 * SEC));
    assert!(t.should_send("Other", 599 * SEC));
    assert!(t.should_send("Scheduler Error", 600 * SEC));
    assert!(!t.should_send("Scheduler Error", 601 * SEC));
}

#[test]
fn zero_cooldown_never_throttles() {
    let mut t = AlertThrottle::new(0);
    assert!(t.should_send("x", 5));
    assert!(t.should_send("x", 5));
}

#[test]
fn markdown_escaping() {
    assert_eq!(escape_markdown("a_b.c!"), "a\\_b\\.c\\!");
    assert_eq!(escape_markdown("Project: x/y"), "Project: x/y");
    assert_eq!(escape_markdown("[1](2)"), "\\[1\\]\\(2\\)");
    assert_eq!(escape_markdown(""), "");
}

#[test]
fn telegram_request_built_only_when_configured() {
    assert!(alert_request(None, Some("1"), "t", "m").is_none());
    assert!(alert_request(Some("tok"), None, "t", "m").is_none());
    let req = alert_request(Some("tok"), Some("42"), "Scheduler Error", "3 failures.").unwrap();
    assert_eq!(req.url, "https://api.telegram.org/bottok/sendMessage");
    match req.body {
        JsonValue::Object(es) => {
            assert_eq!(es.len(), 3);
            assert!(matches!(&es[0], (k, JsonValue::String(v)) if k == "chat_id" && v == "42"));
            assert!(matches!(&es[1], (k, JsonValue::String(v)) if k == "text" && v == "\u{1f6a8} *Scheduler Error*\n\n3 failures\\."));
            assert!(matches!(&es[2], (k, JsonValue::String(v)) if k == "parse_mode" && v == "MarkdownV2"));
        }
        _ => panic!("not an object"),
    }
}

#[test]
fn constant_time_equality() {
    assert!(ct_eq(b"secret", b"secret"));
    assert!(!ct_eq(b"secret", b"secreT"));
    assert!(!ct_eq(b"secret", b"secre"));
    assert!(ct_eq(b"", b""));
}

#[test]
fn webhook_secret_and_rate_limit() {
    let mut lim = RateLimiter::new(0);
    assert_eq!(decide_webhook(Some("s"), None, &mut lim, 0, 2), WebhookVerdict::Unauthorized);
    assert_eq!(decide_webhook(Some("s"), Some("x"), &mut lim, 0, 2), WebhookVerdict::Unauthorized);
    assert_eq!(lim.count, 0);
    assert_eq!(decide_webhook(Some("s"), Some("s"), &mut lim, 1, 2), WebhookVerdict::Accepted);
    assert_eq!(decide_webhook(None, None, &mut lim, 2, 2), WebhookVerdict::Accepted);
    assert_eq!(decide_webhook(None, None, &mut lim, 3, 2), WebhookVerdict::RateLimited);
    assert_eq!(decide_webhook(None, None, &mut lim, 60 * SEC, 2), WebhookVerdict::Accepted);
    assert_eq!(lim.window_start, 60 * SEC);
    assert_eq!(lim.count, 1);
}

#[test]
fn first_requests_in_window_accepted() {
    let mut lim = RateLimiter::new(5 * SEC);
    let answers: Vec<bool> = (0..7u64).map(|i| lim.allow(5 * SEC + i * SEC, 4)).collect();
    assert_eq!(answers, vec![true, true, true, true, false, false, false]);
    assert_eq!(lim.window_start, 5 * SEC);
    assert_eq!(lim.count, 4);
    assert!(lim.allow(65 * SEC - 1, 4) == false);
    assert!(lim.allow(65 * SEC, 4));
    assert_eq!(lim.window_start, 65 * SEC);
    assert_eq!(lim.count, 1);
}

#[test]
fn unlimited_rate() {
    let mut lim = RateLimiter::new(0);
    for i in 0..1000 {
        assert_eq!(decide_webhook(None, None, &mut lim, i, 0), WebhookVerdict::Accepted);
    }
    assert_eq!(lim.count, 0);
}

#[test]
fn webhook_body_defaults_to_empty_object() {
    match webhook_trigger(None) {
        TriggerReason::Webhook { data: JsonValue::Object(es) } => assert!(es.is_empty()),
        _ => panic!("unexpected"),
    }
    match webhook_trigger(Some(JsonValue::Bool(true))) {
        TriggerReason::Webhook { data: JsonValue::Bool(true) } => {}
        _ => panic!("unexpected"),
    }
}
