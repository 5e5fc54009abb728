//! The storage-diff trigger's decisions: which watched keys changed since the
//! last poll, and the cache of last-seen values that this keeps.

use vstd::prelude::*;
use vstd::hash_map::StringHashMap;
use crate::envexpand::bytes_equal;

verus! {

/// Last-seen value of each watched key.
pub type StorageCache = StringHashMap<Vec<u8>>;

/// The byte strings of a map, by their contents.
pub open spec fn bytes_view(m: Map<Seq<char>, Vec<u8>>) -> Map<Seq<char>, Seq<u8>> {
    m.map_values(|v: Vec<u8>| v@)
}

/// A copy of a byte string.
pub fn copy_bytes(v: &Vec<u8>) -> (r: Vec<u8>)
    ensures
        r@ == v@,
{
    let mut r: Vec<u8> = Vec::new();
    let mut i: usize = 0;
    while i < v.len()
        invariant
            i <= v@.len(),
            r@ == v@.take(i as int),
        decreases v.len() - i,
    {
        r.push(v[i]);
        i = i + 1;
        assert(r@ =~= v@.take(i as int));
    }
    assert(v@.take(v@.len() as int) =~= v@);
    r
}

/// The value that a poll returned for `k`: that of the first entry with key `k`,
/// when that entry holds one.
pub open spec fn current_value(cur: Seq<(String, Option<Vec<u8>>)>, k: Seq<char>) -> Option<Seq<u8>>
    decreases cur.len(),
{
    if cur.len() == 0 {
        None
    } else if cur[0].0@ == k {
        match cur[0].1 {
            Some(v) => Some(v@),
            None => None,
        }
    } else {
        current_value(cur.drop_first(), k)
    }
}

/// The cache after one key is checked: a present value is remembered, an absent
/// one forgotten.
pub open spec fn step_cache(c: Map<Seq<char>, Seq<u8>>, k: Seq<char>, new: Option<Seq<u8>>) -> Map<
    Seq<char>,
    Seq<u8>,
> {
    match new {
        Some(n) => c.insert(k, n),
        None => c.remove(k),
    }
}

/// The key had a remembered value and now has a different one.
pub open spec fn is_modified(c: Map<Seq<char>, Seq<u8>>, k: Seq<char>, new: Option<Seq<u8>>) -> bool {
    c.contains_key(k) && new is Some && c[k] != new->0
}

/// The key had a remembered value and now has none.
pub open spec fn is_deleted(c: Map<Seq<char>, Seq<u8>>, k: Seq<char>, new: Option<Seq<u8>>) -> bool {
    c.contains_key(k) && new is None
}

/// The cache before the key at position `i` is checked, starting from `c0`.
pub open spec fn cache_before(
    c0: Map<Seq<char>, Seq<u8>>,
    keys: Seq<String>,
    cur: Seq<(String, Option<Vec<u8>>)>,
    i: int,
) -> Map<Seq<char>, Seq<u8>>
    decreases i,
{
    if i <= 0 {
        c0
    } else {
        let k = keys[i - 1]@;
        step_cache(cache_before(c0, keys, cur, i - 1), k, current_value(cur, k))
    }
}

/// The key at position `i` triggers: it was deleted, or it was modified and the
/// change at that position is significant.
pub open spec fn triggers_at(
    c0: Map<Seq<char>, Seq<u8>>,
    keys: Seq<String>,
    cur: Seq<(String, Option<Vec<u8>>)>,
    sig: Seq<bool>,
    i: int,
) -> bool {
    let c = cache_before(c0, keys, cur, i);
    let k = keys[i]@;
    let n = current_value(cur, k);
    is_deleted(c, k, n) || (is_modified(c, k, n) && sig[i])
}

/// The keys, among the first `n`, that trigger, in order.
pub open spec fn changed_keys(
    c0: Map<Seq<char>, Seq<u8>>,
    keys: Seq<String>,
    cur: Seq<(String, Option<Vec<u8>>)>,
    sig: Seq<bool>,
    n: int,
) -> Seq<Seq<char>>
    decreases n,
{
    if n <= 0 {
        Seq::empty()
    } else {
        let prev = changed_keys(c0, keys, cur, sig, n - 1);
        if triggers_at(c0, keys, cur, sig, n - 1) {
            prev.push(keys[n - 1]@)
        } else {
            prev
        }
    }
}

/// Position of the first entry of `cur` for `key`.
fn find_current(cur: &Vec<(String, Option<Vec<u8>>)>, key: &String) -> (r: Option<usize>)
    ensures
        match r {
            Some(i) => i < cur@.len() && current_value(cur@, key@) == match cur@[i as int].1 {
                Some(v) => Some(v@),
                None => None::<Seq<u8>>,
            },
            None => current_value(cur@, key@) is None,
        },
{
    let mut i: usize = 0;
    assert(cur@.skip(0) =~= cur@);
    while i < cur.len()
        invariant
            i <= cur@.len(),
            current_value(cur@, key@) == current_value(cur@.skip(i as int), key@),
        decreases cur.len() - i,
    {
        proof {
            assert(cur@.skip(i as int).drop_first() =~= cur@.skip(i + 1));
            assert(cur@.skip(i as int)[0] == cur@[i as int]);
        }
        if cur[i].0 == *key {
            return Some(i);
        }
        i = i + 1;
    }
    None
}

/// Checks each watched key against the cache, in order, and updates the cache: a
/// key seen for the first time is only remembered; a changed value is
/// remembered and triggers when `significant` says so for its position; a
/// vanished value is forgotten and always triggers. Returns the keys that
/// trigger.
pub fn check_for_changes(
    cache: &mut StorageCache,
    keys: &Vec<String>,
    current: &Vec<(String, Option<Vec<u8>>)>,
    significant: &Vec<bool>,
) -> (changed: Vec<String>)
    requires
        significant@.len() == keys@.len(),
    ensures
        bytes_view(final(cache)@) == cache_before(bytes_view(old(cache)@), keys@, current@, keys@.len() as int),
        changed@.map_values(|s: String| s@) == changed_keys(
            bytes_view(old(cache)@),
            keys@,
            current@,
            significant@,
            keys@.len() as int,
        ),
{
    let ghost c0 = bytes_view(cache@);
    let mut changed: Vec<String> = Vec::new();
    let mut i: usize = 0;
    while i < keys.len()
        invariant
            i <= keys@.len(),
            significant@.len() == keys@.len(),
            bytes_view(cache@) == cache_before(c0, keys@, current@, i as int),
            changed@.map_values(|s: String| s@) == changed_keys(c0, keys@, current@, significant@, i as int),
        decreases keys.len() - i,
    {
        let key = &keys[i];
        let ghost c = bytes_view(cache@);
        let ghost n = current_value(current@, key@);
        let pos = find_current(current, key);
        let new_val: Option<&Vec<u8>> = match pos {
            Some(p) => match &current[p].1 {
                Some(v) => Some(v),
                None => None,
            },
            None => None,
        };
        assert(match new_val {
            Some(v) => n == Some(v@),
            None => n is None,
        });
        let (present, differs) = match cache.get(key.as_str()) {
            Some(old_bytes) => match new_val {
                Some(nb) => (true, !bytes_equal(old_bytes, nb)),
                None => (true, false),
            },
            None => (false, false),
        };
        assert(present == c.contains_key(key@));
        let mut trig = false;
        match new_val {
            Some(nb) => {
                if !present || differs {
                    let copy = copy_bytes(nb);
                    cache.insert(key.clone(), copy);
                    if present && significant[i] {
                        trig = true;
                    }
                }
                proof {
                    assert(bytes_view(cache@) =~= c.insert(key@, nb@));
                }
            },
            None => {
                if present {
                    cache.remove(key.as_str());
                    trig = true;
                }
                proof {
                    assert(bytes_view(cache@) =~= c.remove(key@));
                }
            },
        }
        assert(trig == triggers_at(c0, keys@, current@, significant@, i as int));
        if trig {
            changed.push(key.clone());
        }
        proof {
            assert(changed@.map_values(|s: String| s@) =~= changed_keys(
                c0,
                keys@,
                current@,
                significant@,
                i + 1,
            ));
        }
        i = i + 1;
    }
    changed
}

/// The values that the threshold test must compare: for each watched key, in
/// the same order as `check_for_changes` visits them, the remembered and the new
/// value when the key is modified at that position, and `None` otherwise.
pub fn pending_comparisons(
    cache: &StorageCache,
    keys: &Vec<String>,
    current: &Vec<(String, Option<Vec<u8>>)>,
) -> (out: Vec<Option<(Vec<u8>, Vec<u8>)>>)
    ensures
        out@.len() == keys@.len(),
        forall|i: int|
            0 <= i < keys@.len() ==> {
                let c = cache_before(bytes_view(cache@), keys@, current@, i);
                let k = keys@[i]@;
                let n = current_value(current@, k);
                match #[trigger] out@[i] {
                    Some(pair) => is_modified(c, k, n) && pair.0@ == c[k] && pair.1@ == n->0,
                    None => !is_modified(c, k, n),
                }
            },
{
    let ghost c0 = bytes_view(cache@);
    let mut out: Vec<Option<(Vec<u8>, Vec<u8>)>> = Vec::new();
    let mut i: usize = 0;
    while i < keys.len()
        invariant
            i <= keys@.len(),
            c0 == bytes_view(cache@),
            out@.len() == i,
            forall|j: int|
                0 <= j < i ==> {
                    let c = cache_before(c0, keys@, current@, j);
                    let k = keys@[j]@;
                    let n = current_value(current@, k);
                    match #[trigger] out@[j] {
                        Some(pair) => is_modified(c, k, n) && pair.0@ == c[k] && pair.1@ == n->0,
                        None => !is_modified(c, k, n),
                    }
                },
        decreases keys.len() - i,
    {
        let key = &keys[i];
        let ghost c = cache_before(c0, keys@, current@, i as int);
        let ghost n = current_value(current@, key@);
        proof {
            lemma_cache_follows_poll(c0, keys@, current@, i as int, key@);
        }
        // A key already checked earlier in the list holds the polled value by now.
        let mut seen = false;
        let mut j: usize = 0;
        while j < i
            invariant
                j <= i < keys@.len(),
                key == &keys@[i as int],
                seen == exists|t: int| 0 <= t < j && (#[trigger] keys@[t])@ == key@,
            decreases i - j,
        {
            if keys[j] == *key {
                seen = true;
            }
            j = j + 1;
        }
        let item: Option<(Vec<u8>, Vec<u8>)> = if seen {
            None
        } else {
            let pos = find_current(current, key);
            let new_val: Option<&Vec<u8>> = match pos {
                Some(p) => match &current[p].1 {
                    Some(v) => Some(v),
                    None => None,
                },
                None => None,
            };
            assert(match new_val {
                Some(v) => n == Some(v@),
                None => n is None,
            });
            match cache.get(key.as_str()) {
                Some(old_bytes) => match new_val {
                    Some(nb) => if !bytes_equal(old_bytes, nb) {
                        Some((copy_bytes(old_bytes), copy_bytes(nb)))
                    } else {
                        None
                    },
                    None => None,
                },
                None => None,
            }
        };
        out.push(item);
        i = i + 1;
    }
    out
}

/// Every remembered value is the value that the poll returned for its key.
pub open spec fn cache_agrees(c: Map<Seq<char>, Seq<u8>>, cur: Seq<(String, Option<Vec<u8>>)>) -> bool {
    forall|k: Seq<char>| #[trigger] c.contains_key(k) ==> current_value(cur, k) == Some(c[k])
}

/// While the cache agrees with the poll, checking a key keeps it in agreement.
proof fn lemma_agreement_kept(
    c0: Map<Seq<char>, Seq<u8>>,
    keys: Seq<String>,
    cur: Seq<(String, Option<Vec<u8>>)>,
    i: int,
)
    requires
        cache_agrees(c0, cur),
        0 <= i <= keys.len(),
    ensures
        cache_agrees(cache_before(c0, keys, cur, i), cur),
    decreases i,
{
    if i > 0 {
        lemma_agreement_kept(c0, keys, cur, i - 1);
        let c = cache_before(c0, keys, cur, i - 1);
        let k = keys[i - 1]@;
        let c2 = cache_before(c0, keys, cur, i);
        assert forall|q: Seq<char>| #[trigger] c2.contains_key(q) implies current_value(cur, q) == Some(c2[q]) by {
            if q != k {
                assert(c.contains_key(q));
            }
        }
    }
}

/// When the poll returns, for every remembered key, the remembered value, no
/// key triggers, whatever the threshold test says. In particular nothing
/// triggers on the first poll, which only fills the empty cache.
pub proof fn lemma_no_change_no_trigger(
    c0: Map<Seq<char>, Seq<u8>>,
    keys: Seq<String>,
    cur: Seq<(String, Option<Vec<u8>>)>,
    sig: Seq<bool>,
    n: int,
)
    requires
        cache_agrees(c0, cur),
        0 <= n <= keys.len(),
    ensures
        changed_keys(c0, keys, cur, sig, n) == Seq::<Seq<char>>::empty(),
    decreases n,
{
    if n > 0 {
        lemma_no_change_no_trigger(c0, keys, cur, sig, n - 1);
        lemma_agreement_kept(c0, keys, cur, n - 1);
        let c = cache_before(c0, keys, cur, n - 1);
        let k = keys[n - 1]@;
        if c.contains_key(k) {
            assert(current_value(cur, k) == Some(c[k]));
        }
        assert(!triggers_at(c0, keys, cur, sig, n - 1));
    }
}

/// After a check the cache holds, for every watched key, exactly the value that
/// the poll returned for it (none when the poll returned none), and leaves
/// other keys as they were.
pub proof fn lemma_cache_follows_poll(
    c0: Map<Seq<char>, Seq<u8>>,
    keys: Seq<String>,
    cur: Seq<(String, Option<Vec<u8>>)>,
    n: int,
    k: Seq<char>,
)
    requires
        0 <= n <= keys.len(),
    ensures
        (exists|i: int| 0 <= i < n && (#[trigger] keys[i])@ == k) ==> match current_value(cur, k) {
            Some(v) => cache_before(c0, keys, cur, n).contains_key(k) && cache_before(c0, keys, cur, n)[k] == v,
            None => !cache_before(c0, keys, cur, n).contains_key(k),
        },
        !(exists|i: int| 0 <= i < n && (#[trigger] keys[i])@ == k) ==> (cache_before(c0, keys, cur, n).contains_key(k)
            == c0.contains_key(k) && (c0.contains_key(k) ==> cache_before(c0, keys, cur, n)[k] == c0[k])),
    decreases n,
{
    if n > 0 {
        lemma_cache_follows_poll(c0, keys, cur, n - 1, k);
        if keys[n - 1]@ != k {
            if exists|i: int| 0 <= i < n && (#[trigger] keys[i])@ == k {
                let i = choose|i: int| 0 <= i < n && (#[trigger] keys[i])@ == k;
                assert(i < n - 1);
            }
        } else {
            assert(keys[n - 1]@ == k);
        }
    }
}

/// What a poll returned for `k` is read from the first entry of the reply with
/// that key: its value when it has one, nothing when it has none, and nothing
/// when no entry has that key.
pub proof fn lemma_current_value_first_entry(cur: Seq<(String, Option<Vec<u8>>)>, k: Seq<char>, j: int)
    ensures
        (forall|t: int| 0 <= t < cur.len() ==> (#[trigger] cur[t]).0@ != k) ==> current_value(cur, k) is None,
        0 <= j < cur.len() && cur[j].0@ == k && (forall|t: int| 0 <= t < j ==> (#[trigger] cur[t]).0@ != k)
            ==> current_value(cur, k) == match cur[j].1 {
            Some(v) => Some(v@),
            None => None::<Seq<u8>>,
        },
    decreases cur.len(),
{
    if cur.len() > 0 {
        let rest = cur.drop_first();
        if forall|t: int| 0 <= t < cur.len() ==> (#[trigger] cur[t]).0@ != k {
            assert(cur[0].0@ != k);
            assert forall|t: int| 0 <= t < rest.len() implies (#[trigger] rest[t]).0@ != k by {
                assert(rest[t] == cur[t + 1]);
            }
            lemma_current_value_first_entry(rest, k, j - 1);
        }
        if 0 <= j < cur.len() && cur[j].0@ == k && (forall|t: int| 0 <= t < j ==> (#[trigger] cur[t]).0@ != k) {
            if j > 0 {
                assert(cur[0].0@ != k);
                assert(rest[j - 1] == cur[j]);
                assert forall|t: int| 0 <= t < j - 1 implies (#[trigger] rest[t]).0@ != k by {
                    assert(rest[t] == cur[t + 1]);
                }
                lemma_current_value_first_entry(rest, k, j - 1);
            }
        }
    }
}

/// A key that triggers at a position among the first `n` is among the keys
/// reported for them.
proof fn lemma_trigger_reported(
    c0: Map<Seq<char>, Seq<u8>>,
    keys: Seq<String>,
    cur: Seq<(String, Option<Vec<u8>>)>,
    sig: Seq<bool>,
    n: int,
    i: int,
)
    requires
        0 <= i < n <= keys.len(),
        triggers_at(c0, keys, cur, sig, i),
    ensures
        changed_keys(c0, keys, cur, sig, n).contains(keys[i]@),
    decreases n,
{
    let prev = changed_keys(c0, keys, cur, sig, n - 1);
    if i == n - 1 {
        assert(changed_keys(c0, keys, cur, sig, n) == prev.push(keys[i]@));
        assert(prev.push(keys[i]@)[prev.len() as int] == keys[i]@);
    } else {
        lemma_trigger_reported(c0, keys, cur, sig, n - 1, i);
        let w = choose|w: int| 0 <= w < prev.len() && prev[w] == keys[i]@;
        if triggers_at(c0, keys, cur, sig, n - 1) {
            assert(prev.push(keys[n - 1]@)[w] == keys[i]@);
        }
    }
}

/// A deleted key is always reported, and a changed value is reported when the
/// threshold test calls it significant. At each watched position, when the
/// cache remembers a value for the key and the poll has none for it (the reply
/// lists it without a value, or does not list it), the key is among the changed
/// keys; when the poll has a different value and the change at that position is
/// significant, so it is too.
pub proof fn lemma_deleted_or_changed_reported(
    c0: Map<Seq<char>, Seq<u8>>,
    keys: Seq<String>,
    cur: Seq<(String, Option<Vec<u8>>)>,
    sig: Seq<bool>,
    i: int,
)
    requires
        0 <= i < keys.len(),
        sig.len() == keys.len(),
    ensures
        cache_before(c0, keys, cur, i).contains_key(keys[i]@) && current_value(cur, keys[i]@) is None
            ==> changed_keys(c0, keys, cur, sig, keys.len() as int).contains(keys[i]@),
        cache_before(c0, keys, cur, i).contains_key(keys[i]@) && current_value(cur, keys[i]@) is Some
            && current_value(cur, keys[i]@)->0 != cache_before(c0, keys, cur, i)[keys[i]@] && sig[i]
            ==> changed_keys(c0, keys, cur, sig, keys.len() as int).contains(keys[i]@),
{
    if triggers_at(c0, keys, cur, sig, i) {
        lemma_trigger_reported(c0, keys, cur, sig, keys.len() as int, i);
    }
}

/// Only a watched key that was deleted, or whose value changed significantly,
/// is reported: each reported key stands at some watched position where the
/// cache remembered a value for it and the poll had either none or a different
/// one judged significant there.
pub proof fn lemma_only_changes_reported(
    c0: Map<Seq<char>, Seq<u8>>,
    keys: Seq<String>,
    cur: Seq<(String, Option<Vec<u8>>)>,
    sig: Seq<bool>,
    n: int,
)
    requires
        0 <= n <= keys.len(),
    ensures
        forall|w: int|
            #![trigger changed_keys(c0, keys, cur, sig, n)[w]]
            0 <= w < changed_keys(c0, keys, cur, sig, n).len() ==> exists|i: int|
                0 <= i < n && (#[trigger] keys[i])@ == changed_keys(c0, keys, cur, sig, n)[w]
                    && cache_before(c0, keys, cur, i).contains_key(keys[i]@) && (current_value(cur, keys[i]@) is None
                    || (current_value(cur, keys[i]@)->0 != cache_before(c0, keys, cur, i)[keys[i]@] && sig[i])),
    decreases n,
{
    if n > 0 {
        lemma_only_changes_reported(c0, keys, cur, sig, n - 1);
        let prev = changed_keys(c0, keys, cur, sig, n - 1);
        let out = changed_keys(c0, keys, cur, sig, n);
        assert forall|w: int| #![trigger out[w]] 0 <= w < out.len() implies exists|i: int|
            0 <= i < n && (#[trigger] keys[i])@ == out[w] && cache_before(c0, keys, cur, i).contains_key(keys[i]@)
                && (current_value(cur, keys[i]@) is None || (current_value(cur, keys[i]@)->0 != cache_before(
                c0,
                keys,
                cur,
                i,
            )[keys[i]@] && sig[i])) by {
            if w < prev.len() {
                assert(out[w] == prev[w]);
                let i = choose|i: int|
                    0 <= i < n - 1 && (#[trigger] keys[i])@ == prev[w] && cache_before(c0, keys, cur, i).contains_key(
                        keys[i]@,
                    ) && (current_value(cur, keys[i]@) is None || (current_value(cur, keys[i]@)->0 != cache_before(
                        c0,
                        keys,
                        cur,
                        i,
                    )[keys[i]@] && sig[i]));
                assert(keys[i]@ == out[w]);
            } else {
                assert(out[w] == keys[n - 1]@);
                assert(triggers_at(c0, keys, cur, sig, n - 1));
            }
        }
    }
}

} // verus!
