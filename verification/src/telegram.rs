//! Alert throttling and the Telegram messages that alerts are sent as.

use vstd::prelude::*;
use vstd::string::*;
use crate::json::{JsonValue, JsonView, lemma_object_view};
use vstd::hash_map::StringHashMap;
use crate::text::{chars_of, push_char};

verus! {

/// Nanoseconds in a second.
pub open spec fn nanos_per_sec() -> int {
    1_000_000_000
}

/// Time elapsed from `then` to `now` on a monotonic clock read in nanoseconds;
/// never negative.
pub open spec fn elapsed(then: u64, now: u64) -> int {
    if now >= then {
        now - then
    } else {
        0
    }
}

/// The remembered send times and the answer when an alert titled `title` is
/// offered at `now`: refused while the same title went out less than the
/// cooldown ago; otherwise sent, and `now` remembered for the title.
pub open spec fn throttle_step(sent: Map<Seq<char>, u64>, cooldown_secs: u64, title: Seq<char>, now: u64) -> (
    Map<Seq<char>, u64>,
    bool,
) {
    if sent.contains_key(title) && elapsed(sent[title], now) < cooldown_secs * nanos_per_sec() {
        (sent, false)
    } else {
        (sent.insert(title, now), true)
    }
}

/// An alert that went out is not sent again under the same title before the
/// cooldown has passed, while other titles are not held back by it.
pub proof fn lemma_throttle_holds_back(
    sent: Map<Seq<char>, u64>,
    cooldown_secs: u64,
    title: Seq<char>,
    other: Seq<char>,
    t: u64,
    later: u64,
)
    requires
        throttle_step(sent, cooldown_secs, title, t).1,
        t <= later,
        later - t < cooldown_secs * nanos_per_sec(),
    ensures
        !throttle_step(throttle_step(sent, cooldown_secs, title, t).0, cooldown_secs, title, later).1,
        other != title ==> throttle_step(throttle_step(sent, cooldown_secs, title, t).0, cooldown_secs, other, later).1
            == throttle_step(sent, cooldown_secs, other, later).1,
{
}

/// Throttles repeated alerts by title: an alert with a given title is sent at
/// most once per cooldown.
pub struct AlertThrottle {
    last_sent: StringHashMap<u64>,
    cooldown_secs: u64,
}

impl AlertThrottle {
    /// When each title was last sent, in nanoseconds.
    pub closed spec fn sent_at(&self) -> Map<Seq<char>, u64> {
        self.last_sent@
    }

    /// The cooldown in seconds.
    pub closed spec fn cooldown(&self) -> u64 {
        self.cooldown_secs
    }

    /// A throttle that has sent nothing yet.
    pub fn new(cooldown_secs: u64) -> (t: Self)
        ensures
            t.sent_at() == Map::<Seq<char>, u64>::empty(),
            t.cooldown() == cooldown_secs,
    {
        AlertThrottle { last_sent: StringHashMap::new(), cooldown_secs }
    }

    /// Whether an alert titled `title` may go out at time `now` (nanoseconds on a
    /// monotonic clock): not when the same title went out less than the cooldown
    /// ago. When it may, `now` is remembered for the title.
    pub fn should_send(&mut self, title: &str, now: u64) -> (send: bool)
        ensures
            final(self).cooldown() == old(self).cooldown(),
            (final(self).sent_at(), send) == throttle_step(old(self).sent_at(), old(self).cooldown(), title@, now),
    {
        let recent = match self.last_sent.get(title) {
            Some(last) => {
                let last = *last;
                let since: u64 = if now >= last {
                    now - last
                } else {
                    0
                };
                (since as u128) < (self.cooldown_secs as u128) * 1_000_000_000u128
            },
            None => false,
        };
        if recent {
            false
        } else {
            self.last_sent.insert(String::from_str(title), now);
            true
        }
    }
}

/// Characters that MarkdownV2 requires to be escaped.
pub open spec fn is_markdown_special(c: char) -> bool {
    c == '_' || c == '*' || c == '[' || c == ']' || c == '(' || c == ')' || c == '~' || c == '`'
        || c == '>' || c == '#' || c == '+' || c == '-' || c == '=' || c == '|' || c == '{' || c
        == '}' || c == '.' || c == '!'
}

/// `s` with a backslash put before each MarkdownV2 special character.
pub open spec fn markdown_escaped(s: Seq<char>) -> Seq<char>
    decreases s.len(),
{
    if s.len() == 0 {
        Seq::empty()
    } else {
        markdown_escaped(s.drop_last()) + if is_markdown_special(s.last()) {
            seq!['\\', s.last()]
        } else {
            seq![s.last()]
        }
    }
}

/// Escapes the MarkdownV2 special characters of `text` with a backslash.
pub fn escape_markdown(text: &str) -> (out: String)
    ensures
        out@ == markdown_escaped(text@),
{
    let cs = chars_of(text);
    let mut out = String::new();
    let mut i: usize = 0;
    while i < cs.len()
        invariant
            i <= cs@.len(),
            out@ == markdown_escaped(cs@.take(i as int)),
        decreases cs.len() - i,
    {
        let c = cs[i];
        proof {
            assert(cs@.take(i + 1).drop_last() =~= cs@.take(i as int));
        }
        if c == '_' || c == '*' || c == '[' || c == ']' || c == '(' || c == ')' || c == '~' || c
            == '`' || c == '>' || c == '#' || c == '+' || c == '-' || c == '=' || c == '|' || c
            == '{' || c == '}' || c == '.' || c == '!' {
            push_char(&mut out, '\\');
        }
        push_char(&mut out, c);
        i = i + 1;
        proof {
            assert(out@ =~= markdown_escaped(cs@.take(i as int)));
        }
    }
    proof {
        assert(cs@.take(cs@.len() as int) =~= cs@);
    }
    out
}

/// The text of an alert: a siren, the title in bold, a blank line and the
/// message, with both escaped for MarkdownV2.
pub open spec fn alert_text(title: Seq<char>, message: Seq<char>) -> Seq<char> {
    "\u{1f6a8} *"@ + markdown_escaped(title) + "*\n\n"@ + markdown_escaped(message)
}

/// A Telegram `sendMessage` request: where it goes and its JSON body.
pub struct TelegramRequest {
    pub url: String,
    pub body: JsonValue,
}

/// The `sendMessage` request for an alert, or `None` when the bot token or the
/// chat is not configured.
pub fn alert_request(
    bot_token: Option<&str>,
    chat_id: Option<&str>,
    title: &str,
    message: &str,
) -> (r: Option<TelegramRequest>)
    ensures
        match (bot_token, chat_id) {
            (Some(token), Some(chat)) => r matches Some(req) && req.url@ == "https://api.telegram.org/bot"@
                + token@ + "/sendMessage"@ && req.body@ == JsonView::Object(
                seq![
                    ("chat_id"@, JsonView::String(chat@)),
                    ("text"@, JsonView::String(alert_text(title@, message@))),
                    ("parse_mode"@, JsonView::String("MarkdownV2"@)),
                ],
            ),
            _ => r is None,
        },
{
    match (bot_token, chat_id) {
        (Some(token), Some(chat)) => {
            let mut url = String::from_str("https://api.telegram.org/bot");
            url.append(token);
            url.append("/sendMessage");
            let mut text = String::from_str("\u{1f6a8} *");
            let t = escape_markdown(title);
            text.append(t.as_str());
            text.append("*\n\n");
            let m = escape_markdown(message);
            text.append(m.as_str());
            let mut es: Vec<(String, JsonValue)> = Vec::new();
            es.push((String::from_str("chat_id"), JsonValue::String(String::from_str(chat))));
            es.push((String::from_str("text"), JsonValue::String(text)));
            es.push((String::from_str("parse_mode"), JsonValue::String(String::from_str("MarkdownV2"))));
            proof {
                lemma_object_view(es);
                assert(es@[0].1@ == JsonView::String(chat@));
                assert(es@[1].1@ == JsonView::String(alert_text(title@, message@)));
                assert(es@[2].1@ == JsonView::String("MarkdownV2"@));
            }
            let body = JsonValue::Object(es);
            proof {
                assert(body@->Object_0 =~= seq![
                    ("chat_id"@, JsonView::String(chat@)),
                    ("text"@, JsonView::String(alert_text(title@, message@))),
                    ("parse_mode"@, JsonView::String("MarkdownV2"@)),
                ]);
            }
            Some(TelegramRequest { url, body })
        },
        _ => None,
    }
}

/// Escaping works character by character: the escape of two texts put
/// together is the two escapes put together.
pub proof fn lemma_markdown_escape_concat(a: Seq<char>, b: Seq<char>)
    ensures
        markdown_escaped(a + b) == markdown_escaped(a) + markdown_escaped(b),
    decreases b.len(),
{
    if b.len() == 0 {
        assert(a + b =~= a);
        assert(markdown_escaped(b) =~= Seq::<char>::empty());
        assert(markdown_escaped(a) + markdown_escaped(b) =~= markdown_escaped(a));
    } else {
        let b2 = b.drop_last();
        lemma_markdown_escape_concat(a, b2);
        assert((a + b).drop_last() =~= a + b2);
        assert((a + b).last() == b.last());
        let tail = if is_markdown_special(b.last()) {
            seq!['\\', b.last()]
        } else {
            seq![b.last()]
        };
        assert(markdown_escaped(a + b) == markdown_escaped(a + b2) + tail);
        assert(markdown_escaped(b) == markdown_escaped(b2) + tail);
        assert(markdown_escaped(a) + markdown_escaped(b2) + tail =~= markdown_escaped(a) + (markdown_escaped(b2) + tail));
    }
}

/// Each of the characters that Telegram's MarkdownV2 reserves,
/// `_ * [ ] ( ) ~ ` ` > # + - = | { } . !`, comes out with a backslash before it,
/// and every other character comes out as it is.
pub proof fn lemma_markdown_escape_char(c: char)
    ensures
        c == '_' || c == '*' || c == '[' || c == ']' || c == '(' || c == ')' || c == '~' || c == '`' || c == '>'
            || c == '#' || c == '+' || c == '-' || c == '=' || c == '|' || c == '{' || c == '}' || c == '.'
            || c == '!' ==> markdown_escaped(seq![c]) == seq!['\\', c],
        !(c == '_' || c == '*' || c == '[' || c == ']' || c == '(' || c == ')' || c == '~' || c == '`' || c
            == '>' || c == '#' || c == '+' || c == '-' || c == '=' || c == '|' || c == '{' || c == '}' || c
            == '.' || c == '!') ==> markdown_escaped(seq![c]) == seq![c],
{
    let s = seq![c];
    assert(s.drop_last() =~= Seq::<char>::empty());
    assert(markdown_escaped(s.drop_last()) =~= Seq::<char>::empty());
    assert(Seq::<char>::empty() + seq!['\\', c] =~= seq!['\\', c]);
    assert(Seq::<char>::empty() + seq![c] =~= seq![c]);
}

} // verus!
