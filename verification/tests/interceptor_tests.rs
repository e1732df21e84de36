use device_faker::attrs::AttributeMap;
use device_faker::interceptor::{InterceptOutcome, intercept_lookup};

fn s(x: &str) -> String {
    x.to_string()
}

fn table() -> AttributeMap {
    let mut m = AttributeMap::new();
    m.insert(s("ro.product.model"), s("Pixel7"));
    m.insert(s("ro.product.brand"), s("Brandy"));
    m
}

#[test]
fn key_in_table_is_substituted() {
    let t = Some(table());
    match intercept_lookup(&t, true, &Some(s("ro.product.model"))) {
        InterceptOutcome::Substitute(v) => assert_eq!(v, "Pixel7"),
        _ => panic!("expected a substitution"),
    }
}

#[test]
fn absent_key_is_forwarded_to_the_original() {
    // A lookup for a key the substitution table does not hold is forwarded
    // to the retained native implementation, its result untouched.
    let t = Some(table());
    assert!(matches!(
        intercept_lookup(&t, true, &Some(s("ro.serialno"))),
        InterceptOutcome::CallOriginal
    ));
}

#[test]
fn decode_failure_fails_open_with_the_default() {
    let t = Some(table());
    assert!(matches!(intercept_lookup(&t, true, &None), InterceptOutcome::UseDefault));
}

#[test]
fn missing_original_falls_back_to_the_default() {
    let t = Some(table());
    assert!(matches!(
        intercept_lookup(&t, false, &Some(s("ro.serialno"))),
        InterceptOutcome::UseDefault
    ));
}

#[test]
fn missing_table_behaves_like_an_empty_one() {
    assert!(matches!(
        intercept_lookup(&None, true, &Some(s("ro.product.model"))),
        InterceptOutcome::CallOriginal
    ));
    assert!(matches!(
        intercept_lookup(&None, false, &Some(s("ro.product.model"))),
        InterceptOutcome::UseDefault
    ));
}

#[test]
fn every_key_of_the_table_is_substituted() {
    let t = table();
    let wrapped = Some(table());
    for i in 0..t.len() {
        let key = t.key_at(i).clone();
        let expected = t.value_at(i).clone();
        match intercept_lookup(&wrapped, true, &Some(key)) {
            InterceptOutcome::Substitute(v) => assert_eq!(v, expected),
            _ => panic!("expected a substitution"),
        }
    }
}
