//! What the library sends to the agent API and what it makes of the replies:
//! request URLs, headers and bodies, the decoding of public storage values, and
//! the verdict on an execution reply.

use vstd::prelude::*;
use vstd::string::*;
use crate::config::{AgentConfig, Config};
use crate::json::{JsonNumber, JsonValue, JsonView, json_set, json_set_field, lemma_array_view, lemma_object_view};
use crate::text::{decimal, u64_to_decimal};

verus! {

/// One entry of a public storage batch reply.
pub struct BatchStorageItem {
    pub exists: bool,
    pub value: Option<String>,
}

/// A public storage batch reply: the entry for each requested key.
pub struct BatchStorageResponse {
    pub results: Vec<(String, BatchStorageItem)>,
}

/// An agent execution reply.
pub struct WasiCallResponse {
    pub call_id: Option<String>,
    pub status: Option<String>,
    pub output: Option<JsonValue>,
    pub error: Option<String>,
    pub compute_cost: Option<String>,
    pub instructions: Option<u64>,
    pub time_ms: Option<u64>,
    pub attestation_url: Option<String>,
}

#[verifier::external_type_specification]
#[verifier::external_body]
pub struct ExDecodeError(base64::DecodeError);

/// What base64 decoding with the standard alphabet and padding makes of a text:
/// the decoded bytes, or `None` when the text is not valid base64.
pub uninterp spec fn base64_standard_decoded(text: Seq<char>) -> Option<Seq<u8>>;

/// Decodes `text` with base64's `engine::general_purpose::STANDARD` engine
/// (`Engine::decode`).
///
/// Trusted: the decoded bytes, or the error, are named by
/// `base64_standard_decoded` as a function of the text alone; nothing more is
/// claimed of the decoding.
#[verifier::external_body]
fn base64_decode(text: &String) -> (r: Result<Vec<u8>, base64::DecodeError>)
    ensures
        match r {
            Ok(v) => base64_standard_decoded(text@) == Some(v@),
            Err(_) => base64_standard_decoded(text@) is None,
        },
{
    base64::Engine::decode(&base64::engine::general_purpose::STANDARD, text)
}

/// The bytes an entry stands for: the decoded value when the key exists and has
/// a value that decodes, and nothing otherwise.
pub open spec fn item_bytes(item: BatchStorageItem) -> Option<Seq<u8>> {
    if item.exists {
        match item.value {
            Some(s) => base64_standard_decoded(s@),
            None => None,
        }
    } else {
        None
    }
}

/// The value of one entry, decoded.
pub fn decode_storage_item(item: &BatchStorageItem) -> (r: Option<Vec<u8>>)
    ensures
        match r {
            Some(v) => item_bytes(*item) == Some(v@),
            None => item_bytes(*item) is None,
        },
{
    if item.exists {
        match &item.value {
            Some(b64) => match base64_decode(b64) {
                Ok(bytes) => Some(bytes),
                Err(_) => None,
            },
            None => None,
        }
    } else {
        None
    }
}

/// The keys of a storage batch reply with their decoded values, in the reply's
/// order.
pub fn decode_storage_batch(resp: &BatchStorageResponse) -> (out: Vec<(String, Option<Vec<u8>>)>)
    ensures
        out@.len() == resp.results@.len(),
        forall|i: int|
            0 <= i < out@.len() ==> (#[trigger] out@[i]).0@ == resp.results@[i].0@ && match out@[i].1 {
                Some(v) => item_bytes(resp.results@[i].1) == Some(v@),
                None => item_bytes(resp.results@[i].1) is None,
            },
{
    let mut out: Vec<(String, Option<Vec<u8>>)> = Vec::new();
    let mut i: usize = 0;
    while i < resp.results.len()
        invariant
            i <= resp.results@.len(),
            out@.len() == i,
            forall|j: int|
                0 <= j < i ==> (#[trigger] out@[j]).0@ == resp.results@[j].0@ && match out@[j].1 {
                    Some(v) => item_bytes(resp.results@[j].1) == Some(v@),
                    None => item_bytes(resp.results@[j].1) is None,
                },
        decreases resp.results.len() - i,
    {
        let key = resp.results[i].0.clone();
        let value = decode_storage_item(&resp.results[i].1);
        out.push((key, value));
        i = i + 1;
    }
    out
}

/// The URL of the execution endpoint of the configured project.
pub open spec fn call_url(a: AgentConfig) -> Seq<char> {
    a.coordinator_url@ + "/call/"@ + a.project_owner@ + "/"@ + a.project_name@
}

/// `{coordinator_url}/call/{project_owner}/{project_name}`.
pub fn agent_call_url(agent: &AgentConfig) -> (url: String)
    ensures
        url@ == call_url(*agent),
{
    let mut url = agent.coordinator_url.clone();
    url.append("/call/");
    url.append(agent.project_owner.as_str());
    url.append("/");
    url.append(agent.project_name.as_str());
    url
}

/// `{coordinator_url}/public/storage/batch`.
pub fn storage_batch_url(agent: &AgentConfig) -> (url: String)
    ensures
        url@ == agent.coordinator_url@ + "/public/storage/batch"@,
{
    let mut url = agent.coordinator_url.clone();
    url.append("/public/storage/batch");
    url
}

/// The headers of an execution request: the payment key, the content type, the
/// compute limit in decimal when it is positive, and the attached deposit in
/// decimal (zero included).
pub open spec fn call_headers(c: Config) -> Seq<(Seq<char>, Seq<char>)> {
    seq![("X-Payment-Key"@, c.agent.payment_key@), ("Content-Type"@, "application/json"@)] + (if c.resources.compute_limit
        > 0 {
        seq![("X-Compute-Limit"@, decimal(c.resources.compute_limit as nat))]
    } else {
        Seq::empty()
    }) + seq![("X-Attached-Deposit"@, decimal(c.resources.attached_deposit as nat))]
}

/// The headers of an execution request, in order.
pub fn agent_call_headers(config: &Config) -> (hs: Vec<(String, String)>)
    ensures
        hs@.map_values(|h: (String, String)| (h.0@, h.1@)) == call_headers(*config),
{
    let mut hs: Vec<(String, String)> = Vec::new();
    hs.push((String::from_str("X-Payment-Key"), config.agent.payment_key.clone()));
    hs.push((String::from_str("Content-Type"), String::from_str("application/json")));
    let ghost base = hs@.map_values(|h: (String, String)| (h.0@, h.1@));
    if config.resources.compute_limit > 0 {
        hs.push((String::from_str("X-Compute-Limit"), u64_to_decimal(config.resources.compute_limit)));
    }
    let ghost mid = hs@.map_values(|h: (String, String)| (h.0@, h.1@));
    proof {
        assert(mid =~= base + (if config.resources.compute_limit > 0 {
            seq![("X-Compute-Limit"@, decimal(config.resources.compute_limit as nat))]
        } else {
            Seq::empty()
        }));
    }
    hs.push((String::from_str("X-Attached-Deposit"), u64_to_decimal(config.resources.attached_deposit)));
    proof {
        assert(hs@.map_values(|h: (String, String)| (h.0@, h.1@)) =~= mid + seq![
            ("X-Attached-Deposit"@, decimal(config.resources.attached_deposit as nat)),
        ]);
        assert(base =~= seq![("X-Payment-Key"@, config.agent.payment_key@), ("Content-Type"@, "application/json"@)]);
    }
    hs
}

/// The body of an execution request: the input, a synchronous call, the
/// resource limits, and the secrets reference when both its profile and
/// account are configured.
pub open spec fn call_body(c: Config, input: JsonView) -> JsonView {
    let limits = JsonView::Object(
        seq![
            ("max_instructions"@, JsonView::Number(JsonNumber::PosInt(c.resources.max_instructions))),
            ("max_memory_mb"@, JsonView::Number(JsonNumber::PosInt(c.resources.max_memory_mb as u64))),
            ("max_execution_seconds"@, JsonView::Number(JsonNumber::PosInt(c.resources.max_execution_seconds))),
        ],
    );
    let base = JsonView::Object(
        seq![("input"@, input), ("async"@, JsonView::Bool(false)), ("resource_limits"@, limits)],
    );
    match (c.agent.secrets_profile, c.agent.secrets_account_id) {
        (Some(p), Some(a)) => json_set(
            base,
            "secrets_ref"@,
            JsonView::Object(seq![("profile"@, JsonView::String(p@)), ("account_id"@, JsonView::String(a@))]),
        ),
        _ => base,
    }
}

/// Builds the body of an execution request around `input`.
pub fn agent_call_body(config: &Config, input: JsonValue) -> (body: JsonValue)
    ensures
        body@ == call_body(*config, input@),
{
    let ghost iv = input@;
    let mut limits: Vec<(String, JsonValue)> = Vec::new();
    limits.push(
        (
            String::from_str("max_instructions"),
            JsonValue::Number(JsonNumber::PosInt(config.resources.max_instructions)),
        ),
    );
    limits.push(
        (
            String::from_str("max_memory_mb"),
            JsonValue::Number(JsonNumber::PosInt(config.resources.max_memory_mb as u64)),
        ),
    );
    limits.push(
        (
            String::from_str("max_execution_seconds"),
            JsonValue::Number(JsonNumber::PosInt(config.resources.max_execution_seconds)),
        ),
    );
    proof {
        lemma_object_view(limits);
        assert(limits@[0].1@ == JsonView::Number(JsonNumber::PosInt(config.resources.max_instructions)));
        assert(limits@[1].1@ == JsonView::Number(JsonNumber::PosInt(config.resources.max_memory_mb as u64)));
        assert(limits@[2].1@ == JsonView::Number(JsonNumber::PosInt(config.resources.max_execution_seconds)));
    }
    let limits = JsonValue::Object(limits);
    let ghost limits_v = JsonView::Object(
        seq![
            ("max_instructions"@, JsonView::Number(JsonNumber::PosInt(config.resources.max_instructions))),
            ("max_memory_mb"@, JsonView::Number(JsonNumber::PosInt(config.resources.max_memory_mb as u64))),
            ("max_execution_seconds"@, JsonView::Number(JsonNumber::PosInt(config.resources.max_execution_seconds))),
        ],
    );
    proof {
        assert(limits@->Object_0 =~= limits_v->Object_0);
        assert(limits@ == limits_v);
    }
    let mut entries: Vec<(String, JsonValue)> = Vec::new();
    entries.push((String::from_str("input"), input));
    entries.push((String::from_str("async"), JsonValue::Bool(false)));
    entries.push((String::from_str("resource_limits"), limits));
    proof {
        lemma_object_view(entries);
        assert(entries@[1].1@ == JsonView::Bool(false));
    }
    let base = JsonValue::Object(entries);
    proof {
        assert(base@->Object_0 =~= seq![("input"@, iv), ("async"@, JsonView::Bool(false)), ("resource_limits"@, limits_v)]);
    }
    match (&config.agent.secrets_profile, &config.agent.secrets_account_id) {
        (Some(profile), Some(account_id)) => {
            let mut r: Vec<(String, JsonValue)> = Vec::new();
            r.push((String::from_str("profile"), JsonValue::String(profile.clone())));
            r.push((String::from_str("account_id"), JsonValue::String(account_id.clone())));
            proof {
                lemma_object_view(r);
                assert(r@[0].1@ == JsonView::String(profile@));
                assert(r@[1].1@ == JsonView::String(account_id@));
            }
            let secrets = JsonValue::Object(r);
            proof {
                assert(secrets@->Object_0 =~= seq![("profile"@, JsonView::String(profile@)), ("account_id"@, JsonView::String(account_id@))]);
            }
            json_set_field(base, String::from_str("secrets_ref"), secrets)
        },
        _ => base,
    }
}

/// The body of a public storage batch request.
pub open spec fn batch_body(project_uuid: Seq<char>, keys: Seq<String>) -> JsonView {
    JsonView::Object(
        seq![
            ("project_uuid"@, JsonView::String(project_uuid)),
            ("keys"@, JsonView::Array(keys.map_values(|k: String| JsonView::String(k@)))),
        ],
    )
}

/// Builds the body of a public storage batch request for `keys`.
pub fn storage_batch_body(project_uuid: &String, keys: &Vec<String>) -> (body: JsonValue)
    ensures
        body@ == batch_body(project_uuid@, keys@),
{
    let mut items: Vec<JsonValue> = Vec::new();
    let mut i: usize = 0;
    while i < keys.len()
        invariant
            i <= keys@.len(),
            items@.len() == i,
            forall|j: int| 0 <= j < i ==> (#[trigger] items@[j])@ == JsonView::String(keys@[j]@),
        decreases keys.len() - i,
    {
        items.push(JsonValue::String(keys[i].clone()));
        i = i + 1;
    }
    proof {
        lemma_array_view(items);
    }
    let arr = JsonValue::Array(items);
    proof {
        assert(arr@->Array_0 =~= keys@.map_values(|k: String| JsonView::String(k@)));
        assert(arr@ == JsonView::Array(keys@.map_values(|k: String| JsonView::String(k@))));
    }
    let mut entries: Vec<(String, JsonValue)> = Vec::new();
    entries.push((String::from_str("project_uuid"), JsonValue::String(project_uuid.clone())));
    entries.push((String::from_str("keys"), arr));
    proof {
        lemma_object_view(entries);
        assert(entries@[0].1@ == JsonView::String(project_uuid@));
    }
    let body = JsonValue::Object(entries);
    proof {
        assert(body@->Object_0 =~= batch_body(project_uuid@, keys@)->Object_0);
    }
    body
}

/// Why an execution reply counts as a failure.
pub enum CallError {
    /// The reply carries an error message.
    Wasi(String),
    /// The reply's status is `failed`.
    StatusFailed,
}

impl CallError {
    /// The message for this failure.
    pub fn message(&self) -> (m: String)
        ensures
            m@ == match self {
                CallError::Wasi(e) => "WASI error: "@ + e@,
                CallError::StatusFailed => "WASI execution status: failed"@,
            },
    {
        match self {
            CallError::Wasi(e) => {
                let mut m = String::from_str("WASI error: ");
                m.append(e.as_str());
                m
            },
            CallError::StatusFailed => String::from_str("WASI execution status: failed"),
        }
    }
}

/// The verdict on an execution reply: an error message fails it, then a
/// `failed` status does; otherwise it succeeded.
pub fn check_call_response(resp: &WasiCallResponse) -> (r: Result<(), CallError>)
    ensures
        match resp.error {
            Some(e) => r matches Err(CallError::Wasi(m)) && m@ == e@,
            None => match resp.status {
                Some(s) => if s@ == "failed"@ {
                    r matches Err(CallError::StatusFailed)
                } else {
                    r is Ok
                },
                None => r is Ok,
            },
        },
{
    match &resp.error {
        Some(e) => Err(CallError::Wasi(e.clone())),
        None => match &resp.status {
            Some(s) => {
                let failed = String::from_str("failed");
                if *s == failed {
                    Err(CallError::StatusFailed)
                } else {
                    Ok(())
                }
            },
            None => Ok(()),
        },
    }
}

} // verus!
