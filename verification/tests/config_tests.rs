use device_faker::config::{AppConfig, Config, DeviceTemplate, default_mode};

fn s(x: &str) -> String {
    x.to_string()
}

fn empty_template() -> DeviceTemplate {
    DeviceTemplate {
        packages: Vec::new(),
        manufacturer: None,
        brand: None,
        marketname: None,
        model: None,
        name: None,
        device: None,
        product: None,
        fingerprint: None,
        characteristics: None,
        force_denylist_unmount: None,
        mode: None,
    }
}

fn empty_app(package: &str) -> AppConfig {
    AppConfig {
        package: s(package),
        manufacturer: None,
        brand: None,
        marketname: None,
        model: None,
        name: None,
        device: None,
        product: None,
        fingerprint: None,
        characteristics: None,
        force_denylist_unmount: None,
        mode: None,
    }
}

fn base_config() -> Config {
    Config {
        default_mode: s("lite"),
        default_force_denylist_unmount: false,
        debug: false,
        templates: Vec::new(),
        apps: Vec::new(),
    }
}

#[test]
fn default_mode_is_lite() {
    assert_eq!(default_mode(), "lite");
}

#[test]
fn app_config_found_by_package() {
    let mut c = base_config();
    let mut a = empty_app("com.example.app");
    a.model = Some(s("Pixel7"));
    c.apps.push(a);
    let found = c.get_app_config(&s("com.example.app"));
    assert!(found.is_some());
    assert_eq!(found.unwrap().model.as_deref(), Some("Pixel7"));
    assert!(c.get_app_config(&s("com.other.app")).is_none());
}

#[test]
fn template_found_by_package_list() {
    let mut c = base_config();
    let mut t = empty_template();
    t.packages.push(s("com.example.game"));
    t.model = Some(s("Tablet9"));
    c.templates.push((s("tablets"), t));
    let found = c.find_template_for_package(&s("com.example.game"));
    assert!(found.is_some());
    assert_eq!(found.unwrap().model.as_deref(), Some("Tablet9"));
    assert!(c.find_template_for_package(&s("com.example.other")).is_none());
}

#[test]
fn merged_config_prefers_direct_entry() {
    let mut c = base_config();
    let mut t = empty_template();
    t.packages.push(s("com.example.app"));
    t.model = Some(s("FromTemplate"));
    c.templates.push((s("t"), t));
    let mut a = empty_app("com.example.app");
    a.model = Some(s("FromApp"));
    c.apps.push(a);
    let merged = c.get_merged_config(&s("com.example.app")).unwrap();
    assert_eq!(merged.model.as_deref(), Some("FromApp"));
}

#[test]
fn merged_config_falls_back_to_template_and_defaults() {
    let mut c = base_config();
    c.default_mode = s("full");
    c.default_force_denylist_unmount = true;
    let mut t = empty_template();
    t.packages.push(s("com.example.game"));
    t.manufacturer = Some(s("Vendor"));
    c.templates.push((s("t"), t));
    let merged = c.get_merged_config(&s("com.example.game")).unwrap();
    assert_eq!(merged.manufacturer.as_deref(), Some("Vendor"));
    assert_eq!(merged.mode, "full");
    assert!(merged.force_denylist_unmount);
    assert!(c.get_merged_config(&s("com.nowhere.app")).is_none());
}

#[test]
fn merged_config_mode_overrides_default() {
    let mut c = base_config();
    let mut a = empty_app("com.example.app");
    a.mode = Some(s("resetprop"));
    a.force_denylist_unmount = Some(true);
    c.apps.push(a);
    let merged = c.get_merged_config(&s("com.example.app")).unwrap();
    assert_eq!(merged.mode, "resetprop");
    assert!(merged.force_denylist_unmount);
}

#[test]
fn property_map_holds_set_fields_under_system_keys() {
    let mut c = base_config();
    let mut a = empty_app("x");
    a.manufacturer = Some(s("Vendor"));
    a.brand = Some(s("Brandy"));
    a.model = Some(s("Pixel7"));
    a.fingerprint = Some(s("fp/1"));
    c.apps.push(a);
    let merged = c.get_merged_config(&s("x")).unwrap();
    let map = Config::build_merged_property_map(&merged);
    assert_eq!(map.len(), 4);
    assert_eq!(map.get(&s("ro.product.manufacturer")).map(|v| v.as_str()), Some("Vendor"));
    assert_eq!(map.get(&s("ro.product.brand")).map(|v| v.as_str()), Some("Brandy"));
    assert_eq!(map.get(&s("ro.product.model")).map(|v| v.as_str()), Some("Pixel7"));
    assert_eq!(map.get(&s("ro.build.fingerprint")).map(|v| v.as_str()), Some("fp/1"));
    assert!(map.get(&s("ro.product.device")).is_none());
}

#[test]
fn property_map_skips_empty_values() {
    let mut c = base_config();
    let mut a = empty_app("x");
    a.manufacturer = Some(s(""));
    a.model = Some(s("Pixel7"));
    c.apps.push(a);
    let merged = c.get_merged_config(&s("x")).unwrap();
    let map = Config::build_merged_property_map(&merged);
    assert_eq!(map.len(), 1);
    assert!(map.get(&s("ro.product.manufacturer")).is_none());
}

#[test]
fn property_map_device_falls_back_to_name() {
    let mut c = base_config();
    let mut a = empty_app("x");
    a.name = Some(s("codename"));
    c.apps.push(a);
    let merged = c.get_merged_config(&s("x")).unwrap();
    let map = Config::build_merged_property_map(&merged);
    assert_eq!(map.get(&s("ro.product.name")).map(|v| v.as_str()), Some("codename"));
    assert_eq!(map.get(&s("ro.product.device")).map(|v| v.as_str()), Some("codename"));
    assert_eq!(map.len(), 2);
}

#[test]
fn property_map_device_wins_over_name_fallback() {
    let mut c = base_config();
    let mut a = empty_app("x");
    a.name = Some(s("codename"));
    a.device = Some(s("realdevice"));
    c.apps.push(a);
    let merged = c.get_merged_config(&s("x")).unwrap();
    let map = Config::build_merged_property_map(&merged);
    assert_eq!(map.get(&s("ro.product.device")).map(|v| v.as_str()), Some("realdevice"));
}

#[test]
fn empty_app_and_template_lists_resolve_nothing() {
    let c = base_config();
    assert!(c.get_merged_config(&s("anything")).is_none());
}
