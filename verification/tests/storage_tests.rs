use outlayer_scheduler::storage::{check_for_changes, pending_comparisons, StorageCache};

fn keys(ks: &[&str]) -> Vec<String> {
    ks.iter().map(|k| k.to_string()).collect()
}

fn poll(vals: &[(&str, Option<&str>)]) -> Vec<(String, Option<Vec<u8>>)> {
    vals.iter().map(|(k, v)| (k.to_string(), v.map(|s| s.as_bytes().to_vec()))).collect()
}

#[test]
fn first_poll_only_fills_cache() {
    let mut cache = StorageCache::new();
    let ks = keys(&["a", "b", "c"]);
    let cur = poll(&[("a", Some("1")), ("b", Some("x")), ("c", None)]);
    let changed = check_for_changes(&mut cache, &ks, &cur, &vec![true, true, true]);
    assert!(changed.is_empty());
    assert_eq!(cache.get(&"a".to_string()), Some(&b"1".to_vec()));
    assert_eq!(cache.get(&"b".to_string()), Some(&b"x".to_vec()));
    assert_eq!(cache.get(&"c".to_string()), None);
    assert_eq!(cache.len(), 2);
}

#[test]
fn changes_deletions_and_thresholds() {
    let mut cache = StorageCache::new();
    let ks = keys(&["price", "state", "gone"]);
    check_for_changes(
        &mut cache,
        &ks,
        &poll(&[("price", Some("100")), ("state", Some("idle")), ("gone", Some("here"))]),
        &vec![false, false, false],
    );
    let cur = poll(&[("price", Some("100.5")), ("state", Some("busy"))]);
    let pending = pending_comparisons(&cache, &ks, &cur);
    assert_eq!(
        pending,
        vec![
            Some((b"100".to_vec(), b"100.5".to_vec())),
            Some((b"idle".to_vec(), b"busy".to_vec())),
            None
        ]
    );
    // The price moved by 0.5%, below the threshold; the state change counts.
    let changed = check_for_changes(&mut cache, &ks, &cur, &vec![false, true, false]);
    assert_eq!(changed, keys(&["state", "gone"]));
    assert_eq!(cache.get(&"price".to_string()), Some(&b"100.5".to_vec()));
    assert_eq!(cache.get(&"gone".to_string()), None);
    // Nothing changed since: nothing triggers.
    let changed = check_for_changes(&mut cache, &ks, &cur, &vec![true, true, true]);
    assert!(changed.is_empty());
}

#[test]
fn repeated_key_compared_once() {
    let mut cache = StorageCache::new();
    let ks = keys(&["k", "k"]);
    check_for_changes(&mut cache, &ks, &poll(&[("k", Some("1"))]), &vec![true, true]);
    let cur = poll(&[("k", Some("2"))]);
    let pending = pending_comparisons(&cache, &ks, &cur);
    assert_eq!(pending, vec![Some((b"1".to_vec(), b"2".to_vec())), None]);
    let changed = check_for_changes(&mut cache, &ks, &cur, &vec![true, true]);
    assert_eq!(changed, keys(&["k"]));
}
