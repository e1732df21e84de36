use device_faker::attrs::{Attr, AttributeMap};
use device_faker::text::{str_contains, trim_trailing_newlines};
use device_faker::watcher::{apply_pairs, in_privileged_class, should_restore};

fn s(x: &str) -> String {
    x.to_string()
}

fn map_of(pairs: &[(&str, &str)]) -> AttributeMap {
    let mut m = AttributeMap::new();
    for (k, v) in pairs {
        m.insert(s(k), s(v));
    }
    m
}

fn pairs_of(pairs: &[(&str, &str)]) -> Vec<Attr> {
    pairs.iter().map(|(k, v)| Attr::new(s(k), s(v))).collect()
}

#[test]
fn cgroup_with_class_label_is_privileged() {
    let content = s("5:cpuset:/top-app\n4:memory:/apps");
    assert!(in_privileged_class(Some(&content)));
    let other = s("5:cpuset:/background\n4:memory:/apps");
    assert!(!in_privileged_class(Some(&other)));
}

#[test]
fn unreadable_cgroup_counts_as_still_privileged() {
    assert!(in_privileged_class(None));
}

#[test]
fn restore_when_process_is_gone_or_backgrounded() {
    let fg = s("5:cpuset:/top-app");
    let bg = s("5:cpuset:/background");
    // Still alive and in the foreground class: keep waiting.
    assert!(!should_restore(true, Some(&fg)));
    // Process terminated: restore, whatever the last signal read.
    assert!(should_restore(false, Some(&fg)));
    // Alive but out of the foreground class: restore.
    assert!(should_restore(true, Some(&bg)));
    // Alive, signal unreadable: treated conservatively, keep waiting.
    assert!(!should_restore(true, None));
}

#[test]
fn substring_search_finds_the_label_anywhere() {
    assert!(str_contains("a top-app line", "top-app"));
    assert!(str_contains("top-app", "top-app"));
    assert!(!str_contains("top-ap", "top-app"));
    assert!(!str_contains("", "top-app"));
    assert!(str_contains("anything", ""));
}

#[test]
fn trimming_removes_only_trailing_line_breaks() {
    assert_eq!(trim_trailing_newlines("RealModel\n"), "RealModel");
    assert_eq!(trim_trailing_newlines("RealModel\r\n"), "RealModel");
    assert_eq!(trim_trailing_newlines("Real\nModel"), "Real\nModel");
    assert_eq!(trim_trailing_newlines(""), "");
    assert_eq!(trim_trailing_newlines("\n\r\n"), "");
}

#[test]
fn replaying_pairs_sets_each_key() {
    let store = map_of(&[("ro.product.model", "Pixel7"), ("ro.serialno", "abc")]);
    let backups = pairs_of(&[("ro.product.model", "RealModel")]);
    let restored = apply_pairs(&store, &backups);
    assert_eq!(restored.get(&s("ro.product.model")).map(|v| v.as_str()), Some("RealModel"));
    assert_eq!(restored.get(&s("ro.serialno")).map(|v| v.as_str()), Some("abc"));
}

#[test]
fn replaying_twice_equals_replaying_once() {
    // The restore job's pairs are idempotent per key: a second replay of
    // the same job leaves every attribute value unchanged.
    let store = map_of(&[
        ("ro.product.model", "Pixel7"),
        ("ro.product.brand", "Brandy"),
        ("ro.serialno", "abc"),
    ]);
    let backups = pairs_of(&[
        ("ro.product.model", "RealModel"),
        ("ro.product.brand", "RealBrand"),
    ]);
    let once = apply_pairs(&store, &backups);
    let twice = apply_pairs(&once, &backups);
    assert_eq!(once.len(), twice.len());
    for i in 0..once.len() {
        assert_eq!(once.key_at(i), twice.key_at(i));
        assert_eq!(once.value_at(i), twice.value_at(i));
    }
}
