//! The scheduler's configuration, its documented defaults, and its validation.

use vstd::prelude::*;
use vstd::string::*;
use crate::json::{TomlValue, TomlView};
use crate::text::{chars_of, contains, contains_seq, digits_value, is_digit, occurs_at, starts_with};

verus! {

/// Project identification and access to the agent API.
pub struct AgentConfig {
    pub project_owner: String,
    pub project_name: String,
    pub coordinator_url: String,
    pub payment_key: String,
    pub secrets_profile: Option<String>,
    pub secrets_account_id: Option<String>,
}

/// When the agent is called.
pub struct TriggersConfig {
    pub interval_secs: u64,
    pub storage_diff: StorageDiffConfig,
    pub webhook: WebhookConfig,
}

/// Storage-diff trigger settings. The threshold is a percentage held by the
/// IEEE-754 bit pattern of its floating-point value.
pub struct StorageDiffConfig {
    pub enabled: bool,
    pub keys: Vec<String>,
    pub project_uuid: String,
    pub threshold_percent_bits: u64,
}

/// Webhook trigger settings.
pub struct WebhookConfig {
    pub enabled: bool,
    pub bind: String,
    pub port: u16,
    pub path: String,
    pub secret: Option<String>,
    pub max_per_minute: u32,
}

/// What is sent to the agent besides the trigger data.
pub struct InputConfig {
    pub static_input: Option<TomlValue>,
    pub include_trigger_reason: bool,
}

/// Execution limits passed with each call.
pub struct ResourcesConfig {
    pub max_instructions: u64,
    pub max_memory_mb: u32,
    pub max_execution_seconds: u64,
    pub compute_limit: u64,
    pub attached_deposit: u64,
}

/// Telegram alert settings.
pub struct AlertsConfig {
    pub telegram_bot_token: Option<String>,
    pub telegram_chat_id: Option<String>,
    pub failure_threshold: u32,
    pub alert_cooldown_secs: u64,
}

/// Log settings.
pub struct LoggingConfig {
    pub level: String,
}

/// The whole configuration.
pub struct Config {
    pub agent: AgentConfig,
    pub triggers: TriggersConfig,
    pub input: InputConfig,
    pub resources: ResourcesConfig,
    pub alerts: AlertsConfig,
    pub logging: LoggingConfig,
}

/// The agent API endpoint used when none is configured.
pub fn default_coordinator_url() -> (r: String)
    ensures
        r@ == "https://api.outlayer.ai"@,
{
    String::from_str("https://api.outlayer.ai")
}

/// Seconds between interval triggers when none is configured.
pub fn default_interval() -> (r: u64)
    ensures
        r == 60,
{
    60
}

/// Webhook port when none is configured.
pub fn default_webhook_port() -> (r: u16)
    ensures
        r == 9090,
{
    9090
}

/// Webhook trigger path when none is configured.
pub fn default_webhook_path() -> (r: String)
    ensures
        r@ == "/trigger"@,
{
    String::from_str("/trigger")
}

/// Webhook bind address when none is configured: local only.
pub fn default_webhook_bind() -> (r: String)
    ensures
        r@ == "127.0.0.1"@,
{
    String::from_str("127.0.0.1")
}

/// Accepted webhook triggers per minute when none is configured.
pub fn default_max_per_minute() -> (r: u32)
    ensures
        r == 60,
{
    60
}

/// WASM instruction limit when none is configured.
pub fn default_max_instructions() -> (r: u64)
    ensures
        r == 1_000_000_000,
{
    1_000_000_000
}

/// Memory limit in MB when none is configured.
pub fn default_max_memory() -> (r: u32)
    ensures
        r == 128,
{
    128
}

/// Wall-clock limit in seconds when none is configured.
pub fn default_max_exec_secs() -> (r: u64)
    ensures
        r == 60,
{
    60
}

/// Compute budget when none is configured.
pub fn default_compute_limit() -> (r: u64)
    ensures
        r == 10000,
{
    10000
}

/// Consecutive failures before an alert when none is configured.
pub fn default_failure_threshold() -> (r: u32)
    ensures
        r == 3,
{
    3
}

/// Seconds between repeated alerts when none is configured.
pub fn default_alert_cooldown() -> (r: u64)
    ensures
        r == 600,
{
    600
}

/// Log level when none is configured.
pub fn default_log_level() -> (r: String)
    ensures
        r@ == "info"@,
{
    String::from_str("info")
}

/// The bit pattern of the floating-point value 1.0, the default threshold percentage.
pub open spec fn one_percent_bits() -> u64 {
    0x3ff0_0000_0000_0000u64
}

impl Default for StorageDiffConfig {
    fn default() -> (r: Self)
        ensures
            !r.enabled,
            r.keys@.len() == 0,
            r.project_uuid@.len() == 0,
            r.threshold_percent_bits == one_percent_bits(),
    {
        StorageDiffConfig {
            enabled: false,
            keys: Vec::new(),
            project_uuid: String::new(),
            threshold_percent_bits: 0x3ff0_0000_0000_0000u64,
        }
    }
}

impl Default for WebhookConfig {
    fn default() -> (r: Self)
        ensures
            !r.enabled,
            r.bind@ == "127.0.0.1"@,
            r.port == 9090,
            r.path@ == "/trigger"@,
            r.secret is None,
            r.max_per_minute == 60,
    {
        WebhookConfig {
            enabled: false,
            bind: default_webhook_bind(),
            port: default_webhook_port(),
            path: default_webhook_path(),
            secret: None,
            max_per_minute: default_max_per_minute(),
        }
    }
}

impl Default for InputConfig {
    fn default() -> (r: Self)
        ensures
            r.static_input is None,
            !r.include_trigger_reason,
    {
        InputConfig { static_input: None, include_trigger_reason: false }
    }
}

impl Default for ResourcesConfig {
    fn default() -> (r: Self)
        ensures
            r.max_instructions == 1_000_000_000,
            r.max_memory_mb == 128,
            r.max_execution_seconds == 60,
            r.compute_limit == 10000,
            r.attached_deposit == 0,
    {
        ResourcesConfig {
            max_instructions: default_max_instructions(),
            max_memory_mb: default_max_memory(),
            max_execution_seconds: default_max_exec_secs(),
            compute_limit: default_compute_limit(),
            attached_deposit: 0,
        }
    }
}

impl Default for AlertsConfig {
    fn default() -> (r: Self)
        ensures
            r.telegram_bot_token is None,
            r.telegram_chat_id is None,
            r.failure_threshold == 3,
            r.alert_cooldown_secs == 600,
    {
        AlertsConfig {
            telegram_bot_token: None,
            telegram_chat_id: None,
            failure_threshold: default_failure_threshold(),
            alert_cooldown_secs: default_alert_cooldown(),
        }
    }
}

impl Default for LoggingConfig {
    fn default() -> (r: Self)
        ensures
            r.level@ == "info"@,
    {
        LoggingConfig { level: default_log_level() }
    }
}

/// The fields of `s` separated by `sep` characters (a string without `sep` is one
/// field).
pub open spec fn sep_fields(s: Seq<char>, sep: char) -> Seq<Seq<char>>
    decreases s.len(),
{
    if s.len() == 0 {
        seq![Seq::<char>::empty()]
    } else {
        let prev = sep_fields(s.drop_last(), sep);
        if s.last() == sep {
            prev.push(Seq::<char>::empty())
        } else {
            prev.update(prev.len() - 1, prev.last().push(s.last()))
        }
    }
}

/// A decimal octet: one to three digits with a value of at most 255.
pub open spec fn is_octet(s: Seq<char>) -> bool {
    &&& 1 <= s.len() <= 3
    &&& forall|i: int| 0 <= i < s.len() ==> is_digit(#[trigger] s[i])
    &&& digits_value(s) <= 255
}

/// A dotted-decimal IPv4 address in the loopback block 127.0.0.0/8.
pub open spec fn is_ipv4_loopback(s: Seq<char>) -> bool {
    let f = sep_fields(s, '.');
    &&& f.len() == 4
    &&& forall|i: int| 0 <= i < 4 ==> is_octet(#[trigger] f[i])
    &&& digits_value(f[0]) == 127
}

/// An ASCII hexadecimal digit, in either case.
pub open spec fn is_hex_digit(c: char) -> bool {
    ('0' <= c && c <= '9') || ('a' <= c && c <= 'f') || ('A' <= c && c <= 'F')
}

/// The value of a hexadecimal digit.
pub open spec fn hex_digit_value(c: char) -> int {
    if '0' <= c && c <= '9' {
        c as int - '0' as int
    } else if 'a' <= c && c <= 'f' {
        c as int - 'a' as int + 10
    } else {
        c as int - 'A' as int + 10
    }
}

/// The number written by the hexadecimal digits `s`.
pub open spec fn hex_value(s: Seq<char>) -> int
    decreases s.len(),
{
    if s.len() == 0 {
        0
    } else {
        hex_value(s.drop_last()) * 16 + hex_digit_value(s.last())
    }
}

/// A group of an IPv6 address with the value `v`: one to four hexadecimal digits.
pub open spec fn hex_group_is(s: Seq<char>, v: int) -> bool {
    &&& 1 <= s.len() <= 4
    &&& forall|i: int| 0 <= i < s.len() ==> is_hex_digit(#[trigger] s[i])
    &&& hex_value(s) == v
}

/// How many of the fields `f` are empty.
pub open spec fn empty_fields(f: Seq<Seq<char>>) -> nat
    decreases f.len(),
{
    if f.len() == 0 {
        0
    } else {
        empty_fields(f.drop_last()) + if f.last().len() == 0 {
            1nat
        } else {
            0nat
        }
    }
}

/// A textual IPv6 address whose value is the loopback address `::1`, in any of
/// the forms that std's address parser reads. Between colons stand groups of one
/// to four hexadecimal digits; the last field may instead be a dotted IPv4
/// address, which counts as two groups (and whose octets have no leading zeros,
/// so that the value 1 is written `0.0.0.1`). Without `::` there are eight
/// groups; one `::` (leading, or between groups) stands for at least one zero
/// group. Every group but the last is zero and the last is one.
pub open spec fn is_ipv6_loopback(s: Seq<char>) -> bool {
    let f = sep_fields(s, ':');
    let n = f.len() as int;
    let last = f[n - 1];
    let last_groups: int = if last == "0.0.0.1"@ {
        2
    } else {
        1
    };
    let groups = n - 1 - empty_fields(f) + last_groups;
    &&& hex_group_is(last, 1) || last == "0.0.0.1"@
    &&& forall|i: int| 0 <= i < n - 1 ==> (#[trigger] f[i]).len() == 0 || hex_group_is(f[i], 0)
    &&& {
        ||| empty_fields(f) == 0 && groups == 8
        ||| empty_fields(f) == 1 && f[0].len() > 0 && groups <= 7
        ||| empty_fields(f) == 2 && f[0].len() == 0 && f[1].len() == 0 && groups <= 7
    }
}

/// A bind address that only accepts local connections: `localhost`, an IPv4
/// address in 127.0.0.0/8, or the IPv6 loopback address in any spelling.
pub open spec fn is_loopback_bind(s: Seq<char>) -> bool {
    s == "localhost"@ || is_ipv4_loopback(s) || is_ipv6_loopback(s)
}

/// Splits on `sep` as `sep_fields` does.
fn split_on(s: &Vec<char>, sep: char) -> (out: Vec<Vec<char>>)
    ensures
        out@.len() == sep_fields(s@, sep).len(),
        forall|i: int| 0 <= i < out@.len() ==> (#[trigger] out@[i])@ == sep_fields(s@, sep)[i],
        out@.len() >= 1,
{
    let mut out: Vec<Vec<char>> = Vec::new();
    out.push(Vec::new());
    let mut i: usize = 0;
    proof {
        assert(s@.take(0) =~= Seq::<char>::empty());
    }
    while i < s.len()
        invariant
            i <= s@.len(),
            out@.len() == sep_fields(s@.take(i as int), sep).len(),
            out@.len() >= 1,
            forall|j: int| 0 <= j < out@.len() ==> (#[trigger] out@[j])@ == sep_fields(s@.take(i as int), sep)[j],
        decreases s.len() - i,
    {
        let c = s[i];
        proof {
            assert(s@.take(i + 1).drop_last() =~= s@.take(i as int));
            assert(s@.take(i + 1).last() == c);
        }
        if c == sep {
            out.push(Vec::new());
        } else {
            let last = out.len() - 1;
            let mut cur = out.pop().unwrap();
            cur.push(c);
            out.push(cur);
            proof {
                let prev = sep_fields(s@.take(i as int), sep);
                assert forall|j: int| 0 <= j < out@.len() implies (#[trigger] out@[j])@ == sep_fields(
                    s@.take(i + 1),
                    sep,
                )[j] by {
                    if j == last {
                        assert(out@[j]@ =~= prev.last().push(c));
                    }
                }
            }
        }
        i = i + 1;
    }
    proof {
        assert(s@.take(s@.len() as int) =~= s@);
    }
    out
}

/// Whether `s` is a decimal octet.
fn octet_value(s: &Vec<char>) -> (r: Option<u32>)
    ensures
        r is Some <==> is_octet(s@),
        r matches Some(v) ==> v == digits_value(s@),
{
    if s.len() < 1 || s.len() > 3 {
        return None;
    }
    let mut v: u32 = 0;
    let mut i: usize = 0;
    proof {
        assert(s@.take(0) =~= Seq::<char>::empty());
    }
    while i < s.len()
        invariant
            1 <= s@.len() <= 3,
            i <= s@.len(),
            forall|j: int| 0 <= j < i ==> is_digit(#[trigger] s@[j]),
            v == digits_value(s@.take(i as int)),
            v < 1000,
            i == 0 ==> v == 0,
            i == 1 ==> v < 10,
            i == 2 ==> v < 100,
        decreases s.len() - i,
    {
        let c = s[i];
        if !('0' <= c && c <= '9') {
            return None;
        }
        proof {
            assert(s@.take(i + 1).drop_last() =~= s@.take(i as int));
        }
        v = v * 10 + ((c as u32) - ('0' as u32));
        i = i + 1;
    }
    proof {
        assert(s@.take(s@.len() as int) =~= s@);
    }
    if v > 255 {
        None
    } else {
        Some(v)
    }
}

/// The value of the IPv6 group `s`, if it is one.
fn hex_group_value(s: &Vec<char>) -> (r: Option<u32>)
    ensures
        r is Some <==> hex_group_is(s@, hex_value(s@)),
        r matches Some(v) ==> v == hex_value(s@),
{
    if s.len() < 1 || s.len() > 4 {
        return None;
    }
    let mut v: u32 = 0;
    let mut i: usize = 0;
    proof {
        assert(s@.take(0) =~= Seq::<char>::empty());
    }
    while i < s.len()
        invariant
            1 <= s@.len() <= 4,
            i <= s@.len(),
            forall|j: int| 0 <= j < i ==> is_hex_digit(#[trigger] s@[j]),
            v == hex_value(s@.take(i as int)),
            i == 0 ==> v == 0,
            i == 1 ==> v < 16,
            i == 2 ==> v < 256,
            i == 3 ==> v < 4096,
            v < 65536,
        decreases s.len() - i,
    {
        let c = s[i];
        let d: u32 = if '0' <= c && c <= '9' {
            (c as u32) - ('0' as u32)
        } else if 'a' <= c && c <= 'f' {
            (c as u32) - ('a' as u32) + 10
        } else if 'A' <= c && c <= 'F' {
            (c as u32) - ('A' as u32) + 10
        } else {
            return None;
        };
        proof {
            assert(s@.take(i + 1).drop_last() =~= s@.take(i as int));
        }
        v = v * 16 + d;
        i = i + 1;
    }
    proof {
        assert(s@.take(s@.len() as int) =~= s@);
    }
    Some(v)
}

/// Whether `cs` spells the IPv6 loopback address.
fn ipv6_is_loopback(cs: &Vec<char>) -> (r: bool)
    ensures
        r == is_ipv6_loopback(cs@),
{
    let fields = split_on(cs, ':');
    let ghost f = sep_fields(cs@, ':');
    let n = fields.len();
    let last = &fields[n - 1];
    let one_v4 = chars_of("0.0.0.1");
    proof {
        reveal_strlit("0.0.0.1");
    }
    let last_v4 = last.len() == one_v4.len() && starts_with(last, &one_v4);
    proof {
        if last@ == one_v4@ {
            assert(last@.subrange(0, one_v4@.len() as int) =~= last@);
        }
        if last_v4 {
            assert(last@ =~= one_v4@);
        }
    }
    let last_one = match hex_group_value(last) {
        Some(v) => v == 1,
        None => false,
    };
    if !(last_v4 || last_one) {
        return false;
    }
    let mut empties: usize = 0;
    let mut i: usize = 0;
    proof {
        assert(f.take(0) =~= Seq::<Seq<char>>::empty());
    }
    while i < n - 1
        invariant
            f == sep_fields(cs@, ':'),
            n == f.len(),
            n >= 1,
            i <= n - 1,
            fields@.len() == n,
            forall|j: int| 0 <= j < n ==> (#[trigger] fields@[j])@ == f[j],
            empties == empty_fields(f.take(i as int)),
            empties <= i,
            forall|j: int| 0 <= j < i ==> (#[trigger] f[j]).len() == 0 || hex_group_is(f[j], 0),
        decreases n - 1 - i,
    {
        proof {
            assert(f.take(i + 1).drop_last() =~= f.take(i as int));
            assert(f.take(i + 1).last() == f[i as int]);
        }
        if fields[i].len() == 0 {
            empties = empties + 1;
        } else {
            match hex_group_value(&fields[i]) {
                Some(v) => {
                    if v != 0 {
                        proof {
                            assert(!hex_group_is(f[i as int], 0));
                            assert(!((#[trigger] f[i as int]).len() == 0 || hex_group_is(f[i as int], 0)));
                        }
                        return false;
                    }
                },
                None => {
                    proof {
                        assert(!hex_group_is(f[i as int], 0));
                        assert(!((#[trigger] f[i as int]).len() == 0 || hex_group_is(f[i as int], 0)));
                    }
                    return false;
                },
            }
        }
        i = i + 1;
    }
    proof {
        assert(f.drop_last() =~= f.take(n - 1));
        assert(f.last().len() > 0);
        assert(empty_fields(f) == empty_fields(f.drop_last()));
    }
    let before = n - 1 - empties;
    let last_groups: usize = if last_v4 {
        2
    } else {
        1
    };
    if empties == 0 {
        before == 8 - last_groups
    } else if empties == 1 {
        fields[0].len() > 0 && before <= 7 - last_groups
    } else if empties == 2 {
        fields[0].len() == 0 && fields[1].len() == 0 && before <= 7 - last_groups
    } else {
        false
    }
}

/// Whether the bind address only accepts local connections.
pub fn bind_is_loopback(bind: &str) -> (r: bool)
    ensures
        r == is_loopback_bind(bind@),
{
    let cs = chars_of(bind);
    let localhost = chars_of("localhost");
    if cs.len() == localhost.len() && starts_with(&cs, &localhost) {
        proof {
            assert(cs@ =~= localhost@);
        }
        return true;
    }
    proof {
        if cs@ == localhost@ {
            assert(cs@.subrange(0, localhost@.len() as int) =~= cs@);
        }
    }
    if ipv6_is_loopback(&cs) {
        return true;
    }
    let fields = split_on(&cs, '.');
    if fields.len() != 4 {
        return false;
    }
    let mut i: usize = 0;
    let mut first: u32 = 0;
    while i < 4
        invariant
            i <= 4,
            cs@ == bind@,
            cs@ != "localhost"@,
            !is_ipv6_loopback(cs@),
            fields@.len() == 4,
            sep_fields(cs@, '.').len() == 4,
            forall|j: int| 0 <= j < 4 ==> (#[trigger] fields@[j])@ == sep_fields(cs@, '.')[j],
            forall|j: int| 0 <= j < i ==> is_octet(#[trigger] sep_fields(cs@, '.')[j]),
            i > 0 ==> first == digits_value(sep_fields(cs@, '.')[0]),
        decreases 4 - i,
    {
        match octet_value(&fields[i]) {
            Some(v) => {
                if i == 0 {
                    first = v;
                }
            },
            None => {
                return false;
            },
        }
        i = i + 1;
    }
    first == 127
}

/// Why a configuration is refused.
#[derive(Debug, Clone, Copy, PartialEq, Eq, Structural)]
pub enum ConfigError {
    MissingProjectOwner,
    MissingProjectName,
    MissingPaymentKey,
    InsecureCoordinatorUrl,
    ZeroInterval,
    EmptyStorageKeys,
    MissingProjectUuid,
    ExposedWebhookWithoutSecret,
}

impl ConfigError {
    /// The message shown for this error.
    pub fn message(&self) -> (m: &'static str)
        ensures
            m@ == config_error_message(*self),
    {
        match self {
            ConfigError::MissingProjectOwner => "agent.project_owner is required",
            ConfigError::MissingProjectName => "agent.project_name is required",
            ConfigError::MissingPaymentKey => "agent.payment_key is required (set the env var if using ${...} syntax)",
            ConfigError::InsecureCoordinatorUrl => "agent.coordinator_url must start with https://",
            ConfigError::ZeroInterval => "triggers.interval_secs must be > 0",
            ConfigError::EmptyStorageKeys => "triggers.storage_diff.keys must be non-empty when enabled",
            ConfigError::MissingProjectUuid => "triggers.storage_diff.project_uuid is required when enabled",
            ConfigError::ExposedWebhookWithoutSecret => "triggers.webhook.secret is required when triggers.webhook.bind is not a loopback address",
        }
    }
}

/// The message of each configuration error.
pub open spec fn config_error_message(e: ConfigError) -> Seq<char> {
    match e {
        ConfigError::MissingProjectOwner => "agent.project_owner is required"@,
        ConfigError::MissingProjectName => "agent.project_name is required"@,
        ConfigError::MissingPaymentKey => "agent.payment_key is required (set the env var if using ${...} syntax)"@,
        ConfigError::InsecureCoordinatorUrl => "agent.coordinator_url must start with https://"@,
        ConfigError::ZeroInterval => "triggers.interval_secs must be > 0"@,
        ConfigError::EmptyStorageKeys => "triggers.storage_diff.keys must be non-empty when enabled"@,
        ConfigError::MissingProjectUuid => "triggers.storage_diff.project_uuid is required when enabled"@,
        ConfigError::ExposedWebhookWithoutSecret => "triggers.webhook.secret is required when triggers.webhook.bind is not a loopback address"@,
    }
}

/// A webhook secret is present and non-empty.
pub open spec fn has_secret(secret: Option<String>) -> bool {
    secret matches Some(s) && s@.len() > 0
}

/// The first rule that the configuration breaks, checked in this order: owner,
/// name, payment key (empty or an unexpanded `${`), an https coordinator URL,
/// a positive interval, storage-diff keys and project when that trigger is on,
/// and a secret for a webhook that listens beyond loopback.
pub open spec fn config_violation(c: Config) -> Option<ConfigError> {
    if c.agent.project_owner@.len() == 0 {
        Some(ConfigError::MissingProjectOwner)
    } else if c.agent.project_name@.len() == 0 {
        Some(ConfigError::MissingProjectName)
    } else if c.agent.payment_key@.len() == 0 || contains_seq(c.agent.payment_key@, "${"@) {
        Some(ConfigError::MissingPaymentKey)
    } else if !occurs_at(c.agent.coordinator_url@, "https://"@, 0) {
        Some(ConfigError::InsecureCoordinatorUrl)
    } else if c.triggers.interval_secs == 0 {
        Some(ConfigError::ZeroInterval)
    } else if c.triggers.storage_diff.enabled && c.triggers.storage_diff.keys@.len() == 0 {
        Some(ConfigError::EmptyStorageKeys)
    } else if c.triggers.storage_diff.enabled && c.triggers.storage_diff.project_uuid@.len() == 0 {
        Some(ConfigError::MissingProjectUuid)
    } else if c.triggers.webhook.enabled && !is_loopback_bind(c.triggers.webhook.bind@)
        && !has_secret(c.triggers.webhook.secret) {
        Some(ConfigError::ExposedWebhookWithoutSecret)
    } else {
        None
    }
}

/// Checks the configuration: `Ok` exactly when no rule is broken, otherwise the
/// first broken rule.
pub fn validate(config: &Config) -> (r: Result<(), ConfigError>)
    ensures
        r == (match config_violation(*config) {
            Some(e) => Err(e),
            None => Ok(()),
        }),
{
    if config.agent.project_owner.as_str().is_empty() {
        return Err(ConfigError::MissingProjectOwner);
    }
    if config.agent.project_name.as_str().is_empty() {
        return Err(ConfigError::MissingProjectName);
    }
    let key = chars_of(config.agent.payment_key.as_str());
    let placeholder = chars_of("${");
    if key.len() == 0 || contains(&key, &placeholder) {
        return Err(ConfigError::MissingPaymentKey);
    }
    let url = chars_of(config.agent.coordinator_url.as_str());
    let https = chars_of("https://");
    if !starts_with(&url, &https) {
        return Err(ConfigError::InsecureCoordinatorUrl);
    }
    if config.triggers.interval_secs == 0 {
        return Err(ConfigError::ZeroInterval);
    }
    if config.triggers.storage_diff.enabled {
        if config.triggers.storage_diff.keys.len() == 0 {
            return Err(ConfigError::EmptyStorageKeys);
        }
        if config.triggers.storage_diff.project_uuid.as_str().is_empty() {
            return Err(ConfigError::MissingProjectUuid);
        }
    }
    let hook = &config.triggers.webhook;
    if hook.enabled && !bind_is_loopback(hook.bind.as_str()) {
        let secret_ok = match &hook.secret {
            Some(s) => !s.as_str().is_empty(),
            None => false,
        };
        if !secret_ok {
            return Err(ConfigError::ExposedWebhookWithoutSecret);
        }
    }
    Ok(())
}

/// A configuration that passes validation talks to the agent API over https
/// only, carries a payment key, and never exposes a webhook beyond loopback
/// without a secret.
pub proof fn lemma_valid_config_is_safe(c: Config)
    requires
        config_violation(c) is None,
    ensures
        occurs_at(c.agent.coordinator_url@, "https://"@, 0),
        c.agent.payment_key@.len() > 0,
        c.triggers.interval_secs > 0,
        c.triggers.webhook.enabled && !is_loopback_bind(c.triggers.webhook.bind@) ==> has_secret(
            c.triggers.webhook.secret,
        ),
        c.triggers.storage_diff.enabled ==> c.triggers.storage_diff.keys@.len() > 0,
        c.agent.project_owner@.len() > 0,
        c.agent.project_name@.len() > 0,
        c.triggers.storage_diff.enabled ==> c.triggers.storage_diff.project_uuid@.len() > 0,
        c.triggers.webhook.enabled && !is_loopback_bind(c.triggers.webhook.bind@) ==> (
        c.triggers.webhook.secret matches Some(sec) && sec@.len() > 0),
{
}

/// A payment key that still holds `${` anywhere (an unexpanded placeholder) is
/// refused: a configuration that passes has no `$` followed by `{` in its key, and
/// once owner and name are given, a key with one is reported as missing.
pub proof fn lemma_unexpanded_payment_key_refused(c: Config)
    ensures
        config_violation(c) is None ==> forall|i: int|
            0 <= i < c.agent.payment_key@.len() - 1 ==> !(#[trigger] c.agent.payment_key@[i] == '$'
                && c.agent.payment_key@[i + 1] == '{'),
        c.agent.project_owner@.len() > 0 && c.agent.project_name@.len() > 0 && (exists|i: int|
            0 <= i < c.agent.payment_key@.len() - 1 && #[trigger] c.agent.payment_key@[i] == '$'
                && c.agent.payment_key@[i + 1] == '{') ==> config_violation(c) == Some(
            ConfigError::MissingPaymentKey,
        ),
{
    let key = c.agent.payment_key@;
    reveal_strlit("${");
    assert forall|i: int|
        0 <= i < key.len() - 1 && #[trigger] key[i] == '$' && key[i + 1] == '{' implies occurs_at(
        key,
        "${"@,
        i,
    ) by {
        assert(key.subrange(i, i + 2) =~= "${"@);
    }
}

/// A configuration that passes names a coordinator URL beginning with the eight
/// characters `https://`.
pub proof fn lemma_valid_url_is_https(c: Config)
    requires
        config_violation(c) is None,
    ensures
        c.agent.coordinator_url@.len() >= 8,
        c.agent.coordinator_url@[0] == 'h' && c.agent.coordinator_url@[1] == 't' && c.agent.coordinator_url@[2] == 't'
            && c.agent.coordinator_url@[3] == 'p' && c.agent.coordinator_url@[4] == 's'
            && c.agent.coordinator_url@[5] == ':' && c.agent.coordinator_url@[6] == '/'
            && c.agent.coordinator_url@[7] == '/',
{
    reveal_strlit("https://");
    let u = c.agent.coordinator_url@;
    assert(u.subrange(0, 8) == "https://"@);
    assert(u.subrange(0, 8)[0] == u[0]);
    assert(u.subrange(0, 8)[1] == u[1]);
    assert(u.subrange(0, 8)[2] == u[2]);
    assert(u.subrange(0, 8)[3] == u[3]);
    assert(u.subrange(0, 8)[4] == u[4]);
    assert(u.subrange(0, 8)[5] == u[5]);
    assert(u.subrange(0, 8)[6] == u[6]);
    assert(u.subrange(0, 8)[7] == u[7]);
}

} // verus!
