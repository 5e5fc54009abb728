//! Why the agent is called, and the input it is called with.

use vstd::prelude::*;
use vstd::string::*;
use crate::config::{Config, InputConfig};
use crate::json::{
    JsonValue, JsonView, json_clone, json_field, json_set, json_set_field, lemma_array_view,
    lemma_set_then_field, takes_fields, toml_json, toml_to_json,
};

verus! {

/// What caused an execution.
#[derive(Debug)]
pub enum TriggerReason {
    Interval,
    StorageDiff { changed_keys: Vec<String> },
    Webhook { data: JsonValue },
}

impl Clone for TriggerReason {
    fn clone(&self) -> (out: Self)
        ensures
            same_trigger(out, *self),
    {
        match self {
            TriggerReason::Interval => TriggerReason::Interval,
            TriggerReason::StorageDiff { changed_keys } => TriggerReason::StorageDiff {
                changed_keys: clone_strings(changed_keys),
            },
            TriggerReason::Webhook { data } => TriggerReason::Webhook { data: json_clone(data) },
        }
    }
}

/// Two triggers are the same kind and carry the same data.
pub open spec fn same_trigger(a: TriggerReason, b: TriggerReason) -> bool {
    match (a, b) {
        (TriggerReason::Interval, TriggerReason::Interval) => true,
        (TriggerReason::StorageDiff { changed_keys: x }, TriggerReason::StorageDiff { changed_keys: y }) => x@.map_values(
            |s: String| s@,
        ) == y@.map_values(|s: String| s@),
        (TriggerReason::Webhook { data: x }, TriggerReason::Webhook { data: y }) => x@ == y@,
        _ => false,
    }
}

/// A copy of a list of strings.
pub fn clone_strings(v: &Vec<String>) -> (out: Vec<String>)
    ensures
        out@.map_values(|s: String| s@) == v@.map_values(|s: String| s@),
{
    let mut out: Vec<String> = Vec::new();
    let mut i: usize = 0;
    while i < v.len()
        invariant
            i <= v@.len(),
            out@.len() == i,
            forall|j: int| 0 <= j < i ==> (#[trigger] out@[j])@ == v@[j]@,
        decreases v.len() - i,
    {
        out.push(v[i].clone());
        i = i + 1;
    }
    assert(out@.map_values(|s: String| s@) =~= v@.map_values(|s: String| s@));
    out
}

/// The name under which a trigger is reported.
pub open spec fn trigger_label(t: TriggerReason) -> Seq<char> {
    match t {
        TriggerReason::Interval => "interval"@,
        TriggerReason::StorageDiff { .. } => "storage_diff"@,
        TriggerReason::Webhook { .. } => "webhook"@,
    }
}

/// `interval`, `storage_diff` or `webhook`.
pub fn trigger_name(trigger: &TriggerReason) -> (name: &'static str)
    ensures
        name@ == trigger_label(*trigger),
{
    match trigger {
        TriggerReason::Interval => "interval",
        TriggerReason::StorageDiff { .. } => "storage_diff",
        TriggerReason::Webhook { .. } => "webhook",
    }
}

/// The static part of the input: the configured static value as JSON, or an
/// empty object when none is configured.
pub open spec fn static_json(i: InputConfig) -> JsonView {
    match i.static_input {
        Some(t) => toml_json(t@),
        None => JsonView::Object(Seq::empty()),
    }
}

/// A list of keys as a JSON array of strings.
pub open spec fn keys_json(keys: Seq<String>) -> JsonView {
    JsonView::Array(keys.map_values(|k: String| JsonView::String(k@)))
}

/// Whether building the input sets fields on the static part: it does when the
/// trigger reason is included, and for webhook data in any case.
pub open spec fn sets_fields(i: InputConfig, t: TriggerReason) -> bool {
    i.include_trigger_reason || t is Webhook
}

/// The input that a trigger causes the agent to be called with: the static part,
/// with `trigger` (and `changed_keys` or `webhook_data`) set when the trigger
/// reason is included, and `webhook_data` set for a webhook in any case.
pub open spec fn agent_input(i: InputConfig, t: TriggerReason) -> JsonView {
    let base = static_json(i);
    if i.include_trigger_reason {
        match t {
            TriggerReason::Interval => json_set(base, "trigger"@, JsonView::String("interval"@)),
            TriggerReason::StorageDiff { changed_keys } => json_set(
                json_set(base, "trigger"@, JsonView::String("storage_diff"@)),
                "changed_keys"@,
                keys_json(changed_keys@),
            ),
            TriggerReason::Webhook { data } => json_set(
                json_set(base, "trigger"@, JsonView::String("webhook"@)),
                "webhook_data"@,
                data@,
            ),
        }
    } else {
        match t {
            TriggerReason::Webhook { data } => json_set(base, "webhook_data"@, data@),
            _ => base,
        }
    }
}

/// Builds the agent's input for a trigger. A static value that is neither a table
/// nor absent cannot take fields, so it is excluded when fields are to be set.
pub fn build_input(config: &Config, trigger: &TriggerReason) -> (input: JsonValue)
    requires
        sets_fields(config.input, *trigger) ==> takes_fields(static_json(config.input)),
    ensures
        input@ == agent_input(config.input, *trigger),
{
    let base = match &config.input.static_input {
        Some(t) => toml_to_json(t),
        None => JsonValue::Object(Vec::new()),
    };
    proof {
        if config.input.static_input is None {
            assert(base@->Object_0 =~= Seq::<(Seq<char>, JsonView)>::empty());
        }
    }
    if config.input.include_trigger_reason {
        match trigger {
            TriggerReason::Interval => json_set_field(
                base,
                String::from_str("trigger"),
                JsonValue::String(String::from_str("interval")),
            ),
            TriggerReason::StorageDiff { changed_keys } => {
                let with_reason = json_set_field(
                    base,
                    String::from_str("trigger"),
                    JsonValue::String(String::from_str("storage_diff")),
                );
                let mut items: Vec<JsonValue> = Vec::new();
                let mut i: usize = 0;
                while i < changed_keys.len()
                    invariant
                        i <= changed_keys@.len(),
                        items@.len() == i,
                        forall|j: int| 0 <= j < i ==> (#[trigger] items@[j])@ == JsonView::String(changed_keys@[j]@),
                    decreases changed_keys.len() - i,
                {
                    items.push(JsonValue::String(changed_keys[i].clone()));
                    i = i + 1;
                }
                proof {
                    lemma_array_view(items);
                    assert(JsonValue::Array(items)@->Array_0 =~= keys_json(changed_keys@)->Array_0);
                }
                json_set_field(with_reason, String::from_str("changed_keys"), JsonValue::Array(items))
            },
            TriggerReason::Webhook { data } => {
                let with_reason = json_set_field(
                    base,
                    String::from_str("trigger"),
                    JsonValue::String(String::from_str("webhook")),
                );
                json_set_field(with_reason, String::from_str("webhook_data"), json_clone(data))
            },
        }
    } else {
        match trigger {
            TriggerReason::Webhook { data } => json_set_field(
                base,
                String::from_str("webhook_data"),
                json_clone(data),
            ),
            _ => base,
        }
    }
}

/// Webhook data always reaches the agent under `webhook_data`; the trigger
/// reason is under `trigger` exactly when it is to be included; and every other
/// field of the static input is passed through unchanged.
pub proof fn lemma_agent_input_fields(i: InputConfig, t: TriggerReason, k: Seq<char>)
    requires
        sets_fields(i, t) ==> takes_fields(static_json(i)),
    ensures
        t matches TriggerReason::Webhook { data } ==> json_field(agent_input(i, t), "webhook_data"@) == Some(
            data@,
        ),
        i.include_trigger_reason ==> json_field(agent_input(i, t), "trigger"@) == Some(
            JsonView::String(trigger_label(t)),
        ),
        k != "trigger"@ && k != "changed_keys"@ && k != "webhook_data"@ ==> json_field(agent_input(i, t), k)
            == json_field(static_json(i), k),
        !sets_fields(i, t) ==> agent_input(i, t) == static_json(i),
{
    let base = static_json(i);
    if i.include_trigger_reason {
        let first = json_set(base, "trigger"@, JsonView::String(trigger_label(t)));
        lemma_set_then_field(base, "trigger"@, JsonView::String(trigger_label(t)), k);
        match t {
            TriggerReason::Interval => {},
            TriggerReason::StorageDiff { changed_keys } => {
                lemma_set_then_field(first, "changed_keys"@, keys_json(changed_keys@), k);
                lemma_set_then_field(first, "changed_keys"@, keys_json(changed_keys@), "trigger"@);
                assert("trigger"@ != "changed_keys"@) by {
                    reveal_strlit("trigger");
                    reveal_strlit("changed_keys");
                    assert("trigger"@.len() != "changed_keys"@.len());
                }
            },
            TriggerReason::Webhook { data } => {
                lemma_set_then_field(first, "webhook_data"@, data@, k);
                lemma_set_then_field(first, "webhook_data"@, data@, "trigger"@);
                assert("trigger"@ != "webhook_data"@) by {
                    reveal_strlit("trigger");
                    reveal_strlit("webhook_data");
                    assert("trigger"@.len() != "webhook_data"@.len());
                }
            },
        }
    } else {
        if let TriggerReason::Webhook { data } = t {
            lemma_set_then_field(base, "webhook_data"@, data@, k);
        }
    }
}

/// With the trigger reason included, a storage-diff input reports the reason as
/// the string `storage_diff` and lists the changed keys under `changed_keys` as
/// an array holding each key as a string, in the trigger's order.
pub proof fn lemma_changed_keys_listed(i: InputConfig, ks: Vec<String>)
    requires
        i.include_trigger_reason,
        takes_fields(static_json(i)),
    ensures
        json_field(agent_input(i, TriggerReason::StorageDiff { changed_keys: ks }), "trigger"@) == Some(
            JsonView::String(seq!['s', 't', 'o', 'r', 'a', 'g', 'e', '_', 'd', 'i', 'f', 'f']),
        ),
        json_field(agent_input(i, TriggerReason::StorageDiff { changed_keys: ks }), "changed_keys"@) == Some(
            JsonView::Array(Seq::new(ks@.len(), |j: int| JsonView::String(ks@[j]@))),
        ),
{
    let t = TriggerReason::StorageDiff { changed_keys: ks };
    lemma_agent_input_fields(i, t, "changed_keys"@);
    let base = static_json(i);
    let first = json_set(base, "trigger"@, JsonView::String("storage_diff"@));
    lemma_set_then_field(base, "trigger"@, JsonView::String("storage_diff"@), "changed_keys"@);
    lemma_set_then_field(first, "changed_keys"@, keys_json(ks@), "trigger"@);
    assert(keys_json(ks@)->Array_0 =~= Seq::new(ks@.len(), |j: int| JsonView::String(ks@[j]@)));
    reveal_strlit("storage_diff");
    assert("storage_diff"@ =~= seq!['s', 't', 'o', 'r', 'a', 'g', 'e', '_', 'd', 'i', 'f', 'f']);
}

/// With the trigger reason included, the reason is reported as the string
/// `interval`, `storage_diff` or `webhook`.
pub proof fn lemma_trigger_reason_strings(i: InputConfig, t: TriggerReason)
    requires
        i.include_trigger_reason,
        takes_fields(static_json(i)),
    ensures
        t is Interval ==> json_field(agent_input(i, t), "trigger"@) == Some(
            JsonView::String(seq!['i', 'n', 't', 'e', 'r', 'v', 'a', 'l']),
        ),
        t is StorageDiff ==> json_field(agent_input(i, t), "trigger"@) == Some(
            JsonView::String(seq!['s', 't', 'o', 'r', 'a', 'g', 'e', '_', 'd', 'i', 'f', 'f']),
        ),
        t is Webhook ==> json_field(agent_input(i, t), "trigger"@) == Some(
            JsonView::String(seq!['w', 'e', 'b', 'h', 'o', 'o', 'k']),
        ),
{
    lemma_agent_input_fields(i, t, "trigger"@);
    reveal_strlit("interval");
    reveal_strlit("storage_diff");
    reveal_strlit("webhook");
    assert("interval"@ =~= seq!['i', 'n', 't', 'e', 'r', 'v', 'a', 'l']);
    assert("storage_diff"@ =~= seq!['s', 't', 'o', 'r', 'a', 'g', 'e', '_', 'd', 'i', 'f', 'f']);
    assert("webhook"@ =~= seq!['w', 'e', 'b', 'h', 'o', 'o', 'k']);
}

} // verus!
