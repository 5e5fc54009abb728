use outlayer_scheduler::envexpand::{expand_env_vars, placeholder_names};

fn env(pairs: &[(&str, &str)]) -> Vec<(Vec<u8>, Vec<u8>)> {
    pairs.iter().map(|(k, v)| (k.as_bytes().to_vec(), v.as_bytes().to_vec())).collect()
}

fn expand(text: &str, pairs: &[(&str, &str)]) -> String {
    String::from_utf8(expand_env_vars(text.as_bytes(), &env(pairs))).unwrap()
}

#[test]
fn set_variable_is_substituted() {
    assert_eq!(
        expand("payment_key = \"${PAYMENT_KEY}\"", &[("PAYMENT_KEY", "alice.near:1:abc")]),
        "payment_key = \"alice.near:1:abc\""
    );
}

#[test]
fn unset_variable_is_left_as_is() {
    assert_eq!(expand("key = \"${MISSING}\"", &[("OTHER", "x")]), "key = \"${MISSING}\"");
    assert_eq!(expand("a ${X} b ${Y}", &[]), "a ${X} b ${Y}");
}

#[test]
fn several_placeholders() {
    assert_eq!(
        expand("${A}-${B}-${A}${_c9}", &[("A", "1"), ("B", "two"), ("_c9", "!")]),
        "1-two-1!"
    );
}

#[test]
fn non_placeholders_untouched() {
    assert_eq!(expand("$A ${} ${9X} ${A-B} {A} $${A}", &[("A", "v")]), "$A ${} ${9X} ${A-B} {A} $v");
}

#[test]
fn names_in_order() {
    let names = placeholder_names(b"x ${ONE} ${TWO} ${bad-} ${THREE}");
    let names: Vec<String> = names.into_iter().map(|n| String::from_utf8(n).unwrap()).collect();
    assert_eq!(names, vec!["ONE", "TWO", "THREE"]);
    assert!(placeholder_names(b"nothing here").is_empty());
}

#[test]
fn first_entry_of_env_wins() {
    assert_eq!(expand("${A}", &[("A", "first"), ("A", "second")]), "first");
}
