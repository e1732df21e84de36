use device_faker::attrs::AttributeMap;
use device_faker::config::{AppConfig, Config};
use device_faker::protocol::{
    CompanionRequest, CompanionResponse, ResetpropSessionRequest, decode_request, encode_request,
};
use device_faker::session::{SessionLedger, apply_request_for, reversal_request,
    session_after_apply};
use device_faker::specialize::{
    Strategy, build_field_ops, plan_specialization, should_unload_after, strategy_of_label,
};
use device_faker::worker::apply_resetprop_session;

fn s(x: &str) -> String {
    x.to_string()
}

fn app_entry(package: &str, mode: Option<&str>) -> AppConfig {
    AppConfig {
        package: s(package),
        manufacturer: None,
        brand: None,
        marketname: None,
        model: None,
        name: None,
        device: None,
        product: None,
        fingerprint: None,
        characteristics: None,
        force_denylist_unmount: None,
        mode: mode.map(s),
    }
}

fn config_with(apps: Vec<AppConfig>) -> Config {
    Config {
        default_mode: s("lite"),
        default_force_denylist_unmount: false,
        debug: false,
        templates: Vec::new(),
        apps,
    }
}

#[test]
fn labels_map_to_strategies_with_fallback() {
    assert_eq!(strategy_of_label(&s("lite")), (Strategy::InProcessOnly, true));
    assert_eq!(strategy_of_label(&s("full")), (Strategy::InProcessPlusIntercept, true));
    assert_eq!(strategy_of_label(&s("resetprop")), (Strategy::PrivilegedMutation, true));
    assert_eq!(strategy_of_label(&s("turbo")), (Strategy::InProcessOnly, false));
}

#[test]
fn missing_config_disables_and_unloads() {
    let plan = plan_specialization(None, &s("com.example.app"));
    assert_eq!(plan.strategy, Strategy::Disabled);
    assert!(plan.request_unload);
    assert!(plan.field_ops.is_empty());
    assert!(plan.install_table.is_none());
    assert!(plan.companion_props.is_none());
}

#[test]
fn unconfigured_identity_disables_and_unloads() {
    let c = config_with(vec![app_entry("com.someone.else", None)]);
    let plan = plan_specialization(Some(&c), &s("com.example.app"));
    assert_eq!(plan.strategy, Strategy::Disabled);
    assert!(plan.request_unload);
}

#[test]
fn lite_mode_substitutes_fields_and_unloads() {
    let mut a = app_entry("com.example.app", Some("lite"));
    a.model = Some(s("Pixel7"));
    let c = config_with(vec![a]);
    let plan = plan_specialization(Some(&c), &s("com.example.app"));
    assert_eq!(plan.strategy, Strategy::InProcessOnly);
    assert!(plan.request_unload);
    assert_eq!(plan.field_ops.len(), 1);
    assert_eq!(plan.field_ops[0].key, "MODEL");
    assert_eq!(plan.field_ops[0].value, "Pixel7");
    assert!(plan.install_table.is_none());
    assert!(plan.companion_props.is_none());
    assert!(should_unload_after(&plan.strategy));
}

#[test]
fn full_mode_installs_the_interception_table_and_stays_resident() {
    let mut a = app_entry("com.example.app", Some("full"));
    a.model = Some(s("Pixel7"));
    let c = config_with(vec![a]);
    let plan = plan_specialization(Some(&c), &s("com.example.app"));
    assert_eq!(plan.strategy, Strategy::InProcessPlusIntercept);
    assert!(!plan.request_unload);
    let table = plan.install_table.unwrap();
    assert_eq!(table.get(&s("ro.product.model")).map(|v| v.as_str()), Some("Pixel7"));
    assert!(plan.companion_props.is_none());
    assert!(!should_unload_after(&Strategy::InProcessPlusIntercept));
}

#[test]
fn unknown_label_falls_back_to_lite() {
    let mut a = app_entry("com.example.app", Some("turbo"));
    a.model = Some(s("Pixel7"));
    let c = config_with(vec![a]);
    let plan = plan_specialization(Some(&c), &s("com.example.app"));
    assert_eq!(plan.strategy, Strategy::InProcessOnly);
    assert!(!plan.label_recognized);
    assert!(plan.request_unload);
}

#[test]
fn field_ops_skip_unset_and_empty_fields() {
    let mut a = app_entry("x", None);
    a.manufacturer = Some(s("Vendor"));
    a.brand = Some(s(""));
    a.fingerprint = Some(s("fp/1"));
    let c = config_with(vec![a]);
    let merged = c.get_merged_config(&s("x")).unwrap();
    let ops = build_field_ops(&merged);
    assert_eq!(ops.len(), 2);
    assert_eq!(ops[0].key, "MANUFACTURER");
    assert_eq!(ops[0].value, "Vendor");
    assert_eq!(ops[1].key, "FINGERPRINT");
    assert_eq!(ops[1].value, "fp/1");
}

#[test]
fn privileged_mutation_end_to_end() {
    // The identity resolves to the privileged-mutation strategy with one
    // attribute. The worker backs up the real value, plans the mutation,
    // echoes the backups; the session ledger then owns the identity, and a
    // later event for a different identity takes exactly that backup map
    // for reversal.
    let mut a = app_entry("com.example.app", Some("resetprop"));
    a.model = Some(s("Pixel7"));
    let c = config_with(vec![a]);
    let plan = plan_specialization(Some(&c), &s("com.example.app"));
    assert_eq!(plan.strategy, Strategy::PrivilegedMutation);
    assert!(plan.request_unload);
    let props = plan.companion_props.unwrap();

    // Caller side: build and frame the request.
    let request = apply_request_for(&props, 1234).unwrap();
    let bytes = encode_request(&CompanionRequest::Apply(request)).unwrap();

    // Worker side: decode, read the current value, plan the mutation.
    let decoded = match decode_request(&bytes).unwrap() {
        CompanionRequest::Apply(apply) => apply,
        _ => panic!("wrong request variant"),
    };
    assert_eq!(decoded.pid, 1234);
    let path = s("/system/bin/resetprop");
    let reads = vec![Some(s("RealModel\n"))];
    let worker_plan = apply_resetprop_session(&decoded, Some(&path), &reads).unwrap();
    assert_eq!(
        worker_plan.backups.get(&s("ro.product.model")).map(|v| v.as_str()),
        Some("RealModel")
    );
    assert_eq!(worker_plan.writes[0].value, "Pixel7");
    assert_eq!(worker_plan.watcher.as_ref().unwrap().pid, 1234);

    // The response echoes the backups; the caller records the session.
    let response = CompanionResponse::ok_with_backups(worker_plan.backups);
    let session = session_after_apply(&s("com.example.app"), &response).unwrap();
    let mut ledger = SessionLedger::new();
    ledger.record(session);
    assert_eq!(ledger.active().unwrap().package, "com.example.app");

    // A later event for a different identity reverses with that exact map.
    let taken = ledger.take_if_different(&s("com.other.app")).unwrap();
    let restore = reversal_request(&taken).unwrap();
    assert_eq!(
        restore.props.get(&s("ro.product.model")).map(|v| v.as_str()),
        Some("RealModel")
    );
}

#[test]
fn apply_with_empty_map_needs_no_round_trip() {
    let empty = AttributeMap::new();
    assert!(apply_request_for(&empty, 7).is_none());
}

#[test]
fn apply_request_variant_round_trips_through_the_wire() {
    let mut props = AttributeMap::new();
    props.insert(s("ro.product.model"), s("Pixel7"));
    let req = CompanionRequest::Apply(ResetpropSessionRequest { pid: 77, props });
    let bytes = encode_request(&req).unwrap();
    match decode_request(&bytes).unwrap() {
        CompanionRequest::Apply(a) => assert_eq!(a.pid, 77),
        _ => panic!("wrong variant"),
    }
}
