use device_faker::attrs::AttributeMap;
use device_faker::protocol::{ResetpropSessionRequest, RestoreRequest};
use device_faker::worker::{
    WorkerError, apply_resetprop_session, backup_keys, first_existing, resetprop_candidates,
    restore_properties,
};

fn s(x: &str) -> String {
    x.to_string()
}

fn map_of(pairs: &[(&str, &str)]) -> AttributeMap {
    let mut m = AttributeMap::new();
    for (k, v) in pairs {
        m.insert(s(k), s(v));
    }
    m
}

#[test]
fn empty_apply_succeeds_with_empty_backups_and_no_watcher() {
    let request = ResetpropSessionRequest { pid: 1234, props: AttributeMap::new() };
    let plan = apply_resetprop_session(&request, None, &Vec::new()).unwrap();
    assert_eq!(plan.backups.len(), 0);
    assert!(plan.writes.is_empty());
    assert!(plan.watcher.is_none());
}

#[test]
fn missing_executable_aborts_apply() {
    let request =
        ResetpropSessionRequest { pid: 1, props: map_of(&[("ro.product.model", "Pixel7")]) };
    let err = apply_resetprop_session(&request, None, &Vec::new()).unwrap_err();
    assert!(matches!(err, WorkerError::ExecutableMissing));
    assert_eq!(err.message(), "resetprop binary not found in known locations");
}

#[test]
fn read_failure_aborts_the_whole_apply() {
    let request = ResetpropSessionRequest {
        pid: 1,
        props: map_of(&[("ro.product.model", "Pixel7"), ("ro.product.brand", "Brandy")]),
    };
    let path = s("/system/bin/resetprop");
    let reads = vec![Some(s("RealModel\n")), None];
    let err = apply_resetprop_session(&request, Some(&path), &reads).unwrap_err();
    match &err {
        WorkerError::ReadFailed { key } => assert_eq!(key, "ro.product.brand"),
        _ => panic!("wrong error"),
    }
    assert_eq!(err.message(), "getprop failed for ro.product.brand");
}

#[test]
fn successful_apply_backs_up_mutates_and_spawns_watcher() {
    // The privileged worker backs up the real value, plans the mutation to
    // the requested value, and hands the backups to a watcher for the
    // requesting process.
    let request =
        ResetpropSessionRequest { pid: 1234, props: map_of(&[("ro.product.model", "Pixel7")]) };
    let keys = backup_keys(&request);
    assert_eq!(keys, vec![s("ro.product.model")]);
    let path = s("/system/bin/resetprop");
    let reads = vec![Some(s("RealModel\n"))];
    let plan = apply_resetprop_session(&request, Some(&path), &reads).unwrap();
    assert_eq!(
        plan.backups.get(&s("ro.product.model")).map(|v| v.as_str()),
        Some("RealModel")
    );
    assert_eq!(plan.writes.len(), 1);
    assert_eq!(plan.writes[0].key, "ro.product.model");
    assert_eq!(plan.writes[0].value, "Pixel7");
    let job = plan.watcher.unwrap();
    assert_eq!(job.pid, 1234);
    assert_eq!(job.exec_path, "/system/bin/resetprop");
    assert_eq!(job.pairs.len(), 1);
    assert_eq!(job.pairs[0].key, "ro.product.model");
    assert_eq!(job.pairs[0].value, "RealModel");
}

#[test]
fn restore_replays_all_pairs_in_order() {
    let request = RestoreRequest {
        props: map_of(&[("ro.product.model", "RealModel"), ("ro.product.brand", "RealBrand")]),
    };
    let path = s("/system/bin/resetprop");
    let writes = restore_properties(&request, Some(&path)).unwrap();
    assert_eq!(writes.len(), 2);
    assert_eq!(writes[0].key, "ro.product.model");
    assert_eq!(writes[0].value, "RealModel");
    assert_eq!(writes[1].key, "ro.product.brand");
    assert_eq!(writes[1].value, "RealBrand");
}

#[test]
fn empty_restore_is_a_no_op_even_without_executable() {
    let request = RestoreRequest { props: AttributeMap::new() };
    let writes = restore_properties(&request, None).unwrap();
    assert!(writes.is_empty());
}

#[test]
fn missing_executable_aborts_restore() {
    let request = RestoreRequest { props: map_of(&[("k", "v")]) };
    let err = restore_properties(&request, None).unwrap_err();
    assert!(matches!(err, WorkerError::ExecutableMissing));
}

#[test]
fn executable_candidates_are_probed_in_order() {
    let candidates = resetprop_candidates();
    assert_eq!(candidates.len(), 6);
    assert_eq!(candidates[0], "/data/adb/ksu/bin/resetprop");
    assert_eq!(candidates[5], "/vendor/bin/resetprop");

    let found = vec![false, true, false, true, false, false];
    assert_eq!(first_existing(&candidates, &found), Some(s("/data/adb/magisk/resetprop")));
    let none = vec![false; 6];
    assert_eq!(first_existing(&candidates, &none), None);
}

#[test]
fn write_failure_message_names_the_key() {
    let err = WorkerError::WriteFailed { key: s("ro.product.model") };
    assert_eq!(err.message(), "resetprop failed for ro.product.model");
}
