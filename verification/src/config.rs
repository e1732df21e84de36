//! Policy resolution: per-application configuration entries, named device
//! templates, and the merge of the two into the effective configuration for
//! one process-creation event.

use vstd::prelude::*;
use crate::attrs::{Attr, AttributeMap, pairs_view};

verus! {

/// A named device-identity template, matched against an application through
/// its package list.
pub struct DeviceTemplate {
    pub packages: Vec<String>,
    pub manufacturer: Option<String>,
    pub brand: Option<String>,
    pub marketname: Option<String>,
    pub model: Option<String>,
    pub name: Option<String>,
    pub device: Option<String>,
    pub product: Option<String>,
    pub fingerprint: Option<String>,
    pub characteristics: Option<String>,
    pub force_denylist_unmount: Option<bool>,
    pub mode: Option<String>,
}

/// A directly configured application entry.
pub struct AppConfig {
    pub package: String,
    pub manufacturer: Option<String>,
    pub brand: Option<String>,
    pub marketname: Option<String>,
    pub model: Option<String>,
    pub name: Option<String>,
    pub device: Option<String>,
    pub product: Option<String>,
    pub fingerprint: Option<String>,
    pub characteristics: Option<String>,
    pub force_denylist_unmount: Option<bool>,
    pub mode: Option<String>,
}

/// The resolved policy input: global defaults, templates in declaration
/// order (names unique, as in the configuration file), and application
/// entries in declaration order.
pub struct Config {
    pub default_mode: String,
    pub default_force_denylist_unmount: bool,
    pub debug: bool,
    pub templates: Vec<(String, DeviceTemplate)>,
    pub apps: Vec<AppConfig>,
}

/// The effective configuration for one application after merging a direct
/// entry or a template with the global defaults.
pub struct MergedAppConfig {
    pub manufacturer: Option<String>,
    pub brand: Option<String>,
    pub marketname: Option<String>,
    pub model: Option<String>,
    pub name: Option<String>,
    pub device: Option<String>,
    pub product: Option<String>,
    pub fingerprint: Option<String>,
    pub characteristics: Option<String>,
    pub force_denylist_unmount: bool,
    pub mode: String,
}

/// The global default strategy label.
pub fn default_mode() -> (r: String)
    ensures
        r@ == "lite"@,
{
    String::from_str("lite")
}

/// Whether some string in the sequence reads `pkg`.
pub open spec fn spec_list_contains(s: Seq<String>, pkg: Seq<char>) -> bool {
    exists|i: int| 0 <= i < s.len() && (#[trigger] s[i])@ == pkg
}

impl DeviceTemplate {
    /// Whether this template claims the package.
    pub open spec fn spec_matches(&self, pkg: Seq<char>) -> bool {
        spec_list_contains(self.packages@, pkg)
    }
}

/// Whether an application entry for `pkg` exists.
pub open spec fn spec_has_app(apps: Seq<AppConfig>, pkg: Seq<char>) -> bool {
    exists|i: int| 0 <= i < apps.len() && (#[trigger] apps[i]).package@ == pkg
}

/// The first application entry for `pkg`; meaningful only when one exists.
pub open spec fn spec_first_app(apps: Seq<AppConfig>, pkg: Seq<char>) -> int
    decreases apps.len(),
{
    if apps.len() == 0 {
        0
    } else if apps[0].package@ == pkg {
        0
    } else {
        1 + spec_first_app(apps.drop_first(), pkg)
    }
}

pub proof fn lemma_first_app(apps: Seq<AppConfig>, pkg: Seq<char>)
    ensures
        spec_has_app(apps, pkg) ==> {
            let i = spec_first_app(apps, pkg);
            &&& 0 <= i < apps.len()
            &&& apps[i].package@ == pkg
            &&& forall|j: int| 0 <= j < i ==> (#[trigger] apps[j]).package@ != pkg
        },
    decreases apps.len(),
{
    if apps.len() != 0 && apps[0].package@ != pkg {
        let t = apps.drop_first();
        assert(forall|i: int| 0 <= i < t.len() ==> #[trigger] t[i] == apps[i + 1]);
        if spec_has_app(apps, pkg) {
            let i = choose|i: int| 0 <= i < apps.len() && (#[trigger] apps[i]).package@ == pkg;
            assert(t[i - 1] == apps[i]);
            assert(spec_has_app(t, pkg));
        }
        lemma_first_app(t, pkg);
        if spec_has_app(t, pkg) {
            let i0 = spec_first_app(t, pkg);
            assert(apps[i0 + 1].package@ == pkg);
            assert forall|j: int| 0 <= j < spec_first_app(apps, pkg) implies (
            #[trigger] apps[j]).package@ != pkg by {
                if j >= 1 {
                    assert(t[j - 1].package@ != pkg);
                }
            }
        }
    }
}

/// Whether some template claims `pkg`.
pub open spec fn spec_has_template(ts: Seq<(String, DeviceTemplate)>, pkg: Seq<char>) -> bool {
    exists|i: int| 0 <= i < ts.len() && (#[trigger] ts[i]).1.spec_matches(pkg)
}

/// The first template that claims `pkg`; meaningful only when one exists.
pub open spec fn spec_first_template(ts: Seq<(String, DeviceTemplate)>, pkg: Seq<char>) -> int
    decreases ts.len(),
{
    if ts.len() == 0 {
        0
    } else if ts[0].1.spec_matches(pkg) {
        0
    } else {
        1 + spec_first_template(ts.drop_first(), pkg)
    }
}

pub proof fn lemma_first_template(ts: Seq<(String, DeviceTemplate)>, pkg: Seq<char>)
    ensures
        spec_has_template(ts, pkg) ==> {
            let i = spec_first_template(ts, pkg);
            &&& 0 <= i < ts.len()
            &&& ts[i].1.spec_matches(pkg)
            &&& forall|j: int| 0 <= j < i ==> !(#[trigger] ts[j]).1.spec_matches(pkg)
        },
    decreases ts.len(),
{
    if ts.len() != 0 && !ts[0].1.spec_matches(pkg) {
        let t = ts.drop_first();
        assert(forall|i: int| 0 <= i < t.len() ==> #[trigger] t[i] == ts[i + 1]);
        if spec_has_template(ts, pkg) {
            let i = choose|i: int| 0 <= i < ts.len() && (#[trigger] ts[i]).1.spec_matches(pkg);
            assert(t[i - 1] == ts[i]);
            assert(spec_has_template(t, pkg));
        }
        lemma_first_template(t, pkg);
        if spec_has_template(t, pkg) {
            let i0 = spec_first_template(t, pkg);
            assert(ts[i0 + 1].1.spec_matches(pkg));
            assert forall|j: int| 0 <= j < spec_first_template(ts, pkg) implies !(
            #[trigger] ts[j]).1.spec_matches(pkg) by {
                if j >= 1 {
                    assert(!t[j - 1].1.spec_matches(pkg));
                }
            }
        }
    }
}

/// A copy of an optional string, equal to its source.
fn dup_opt(o: &Option<String>) -> (r: Option<String>)
    ensures
        r == *o,
{
    match o {
        Some(s) => Some(s.clone()),
        None => None,
    }
}

/// The merge of a direct application entry with the global defaults.
pub open spec fn spec_merged_of_app(c: &Config, a: AppConfig) -> MergedAppConfig {
    MergedAppConfig {
        manufacturer: a.manufacturer,
        brand: a.brand,
        marketname: a.marketname,
        model: a.model,
        name: a.name,
        device: a.device,
        product: a.product,
        fingerprint: a.fingerprint,
        characteristics: a.characteristics,
        force_denylist_unmount: match a.force_denylist_unmount {
            Some(b) => b,
            None => c.default_force_denylist_unmount,
        },
        mode: match a.mode {
            Some(m) => m,
            None => c.default_mode,
        },
    }
}

/// The merge of a template with the global defaults.
pub open spec fn spec_merged_of_template(c: &Config, t: DeviceTemplate) -> MergedAppConfig {
    MergedAppConfig {
        manufacturer: t.manufacturer,
        brand: t.brand,
        marketname: t.marketname,
        model: t.model,
        name: t.name,
        device: t.device,
        product: t.product,
        fingerprint: t.fingerprint,
        characteristics: t.characteristics,
        force_denylist_unmount: match t.force_denylist_unmount {
            Some(b) => b,
            None => c.default_force_denylist_unmount,
        },
        mode: match t.mode {
            Some(m) => m,
            None => c.default_mode,
        },
    }
}

/// The policy resolution result for one identity: the first direct entry
/// when one exists, otherwise the first matching template, otherwise
/// nothing; either merged with the global defaults.
pub open spec fn spec_resolved(c: &Config, pkg: Seq<char>) -> Option<MergedAppConfig> {
    if spec_has_app(c.apps@, pkg) {
        Some(spec_merged_of_app(c, c.apps@[spec_first_app(c.apps@, pkg)]))
    } else if spec_has_template(c.templates@, pkg) {
        Some(
            spec_merged_of_template(c, c.templates@[spec_first_template(c.templates@, pkg)].1),
        )
    } else {
        None
    }
}

impl Config {
    /// Template names are unique, as keys of the configuration table are.
    pub open spec fn wf(&self) -> bool {
        forall|i: int, j: int|
            0 <= i < j < self.templates@.len() ==> (#[trigger] self.templates@[i]).0@ != (
            #[trigger] self.templates@[j]).0@
    }

    /// The first directly configured entry for the package, if any.
    pub fn get_app_config(&self, package_name: &String) -> (r: Option<&AppConfig>)
        ensures
            match r {
                Some(a) => {
                    &&& spec_has_app(self.apps@, package_name@)
                    &&& *a == self.apps@[spec_first_app(self.apps@, package_name@)]
                },
                None => !spec_has_app(self.apps@, package_name@),
            },
    {
        proof {
            lemma_first_app(self.apps@, package_name@);
        }
        let n = self.apps.len();
        for i in 0..n
            invariant
                n == self.apps@.len(),
                forall|j: int| 0 <= j < i ==> (#[trigger] self.apps@[j]).package@ != package_name@,
        {
            if self.apps[i].package == *package_name {
                proof {
                    lemma_first_app(self.apps@, package_name@);
                    assert(spec_first_app(self.apps@, package_name@) == i);
                }
                return Some(&self.apps[i]);
            }
        }
        None
    }

    /// The first template whose package list holds the package, if any.
    pub fn find_template_for_package(&self, package_name: &String) -> (r: Option<&DeviceTemplate>)
        ensures
            match r {
                Some(t) => {
                    &&& spec_has_template(self.templates@, package_name@)
                    &&& *t == self.templates@[spec_first_template(self.templates@, package_name@)].1
                },
                None => !spec_has_template(self.templates@, package_name@),
            },
    {
        let n = self.templates.len();
        for i in 0..n
            invariant
                n == self.templates@.len(),
                forall|j: int|
                    0 <= j < i ==> !(#[trigger] self.templates@[j]).1.spec_matches(package_name@),
        {
            if list_contains(&self.templates[i].1.packages, package_name) {
                proof {
                    lemma_first_template(self.templates@, package_name@);
                    assert(spec_first_template(self.templates@, package_name@) == i);
                }
                return Some(&self.templates[i].1);
            }
        }
        None
    }

    /// The effective configuration for the package: a direct entry merged
    /// with the defaults when one exists, otherwise the first matching
    /// template merged with the defaults, otherwise nothing.
    pub fn get_merged_config(&self, package_name: &String) -> (r: Option<MergedAppConfig>)
        ensures
            r == spec_resolved(self, package_name@),
    {
        if let Some(app) = self.get_app_config(package_name) {
            return Some(
                MergedAppConfig {
                    manufacturer: dup_opt(&app.manufacturer),
                    brand: dup_opt(&app.brand),
                    marketname: dup_opt(&app.marketname),
                    model: dup_opt(&app.model),
                    name: dup_opt(&app.name),
                    device: dup_opt(&app.device),
                    product: dup_opt(&app.product),
                    fingerprint: dup_opt(&app.fingerprint),
                    characteristics: dup_opt(&app.characteristics),
                    force_denylist_unmount: match app.force_denylist_unmount {
                        Some(b) => b,
                        None => self.default_force_denylist_unmount,
                    },
                    mode: match &app.mode {
                        Some(m) => m.clone(),
                        None => self.default_mode.clone(),
                    },
                },
            );
        }
        if let Some(template) = self.find_template_for_package(package_name) {
            return Some(
                MergedAppConfig {
                    manufacturer: dup_opt(&template.manufacturer),
                    brand: dup_opt(&template.brand),
                    marketname: dup_opt(&template.marketname),
                    model: dup_opt(&template.model),
                    name: dup_opt(&template.name),
                    device: dup_opt(&template.device),
                    product: dup_opt(&template.product),
                    fingerprint: dup_opt(&template.fingerprint),
                    characteristics: dup_opt(&template.characteristics),
                    force_denylist_unmount: match template.force_denylist_unmount {
                        Some(b) => b,
                        None => self.default_force_denylist_unmount,
                    },
                    mode: match &template.mode {
                        Some(m) => m.clone(),
                        None => self.default_mode.clone(),
                    },
                },
            );
        }
        None
    }
}

/// One optional property entry: present exactly when the value is set and
/// non-empty.
pub open spec fn opt_entry(key: Seq<char>, o: Option<String>) -> Seq<(Seq<char>, Seq<char>)> {
    match o {
        Some(v) => if v@.len() > 0 {
            seq![(key, v@)]
        } else {
            Seq::empty()
        },
        None => Seq::empty(),
    }
}

/// The device entry falls back to the product name when no non-empty device
/// is set.
pub open spec fn device_entry(m: &MergedAppConfig) -> Seq<(Seq<char>, Seq<char>)> {
    match m.device {
        Some(d) => if d@.len() > 0 {
            seq![("ro.product.device"@, d@)]
        } else {
            opt_entry("ro.product.device"@, m.name)
        },
        None => opt_entry("ro.product.device"@, m.name),
    }
}

/// The property pairs a merged configuration induces, in their fixed
/// emission order.
pub open spec fn spec_property_pairs(m: &MergedAppConfig) -> Seq<(Seq<char>, Seq<char>)> {
    opt_entry("ro.product.manufacturer"@, m.manufacturer) + opt_entry("ro.product.brand"@, m.brand)
        + opt_entry("ro.product.marketname"@, m.marketname) + opt_entry(
        "ro.product.model"@,
        m.model,
    ) + opt_entry("ro.product.name"@, m.name) + device_entry(m) + opt_entry(
        "ro.build.fingerprint"@,
        m.fingerprint,
    ) + opt_entry("ro.build.characteristics"@, m.characteristics)
}

/// The eight property keys are pairwise distinct.
pub proof fn lemma_property_keys_distinct()
    ensures
        "ro.product.manufacturer"@ != "ro.product.brand"@,
        "ro.product.manufacturer"@ != "ro.product.marketname"@,
        "ro.product.manufacturer"@ != "ro.product.model"@,
        "ro.product.manufacturer"@ != "ro.product.name"@,
        "ro.product.manufacturer"@ != "ro.product.device"@,
        "ro.product.manufacturer"@ != "ro.build.fingerprint"@,
        "ro.product.manufacturer"@ != "ro.build.characteristics"@,
        "ro.product.brand"@ != "ro.product.marketname"@,
        "ro.product.brand"@ != "ro.product.model"@,
        "ro.product.brand"@ != "ro.product.name"@,
        "ro.product.brand"@ != "ro.product.device"@,
        "ro.product.brand"@ != "ro.build.fingerprint"@,
        "ro.product.brand"@ != "ro.build.characteristics"@,
        "ro.product.marketname"@ != "ro.product.model"@,
        "ro.product.marketname"@ != "ro.product.name"@,
        "ro.product.marketname"@ != "ro.product.device"@,
        "ro.product.marketname"@ != "ro.build.fingerprint"@,
        "ro.product.marketname"@ != "ro.build.characteristics"@,
        "ro.product.model"@ != "ro.product.name"@,
        "ro.product.model"@ != "ro.product.device"@,
        "ro.product.model"@ != "ro.build.fingerprint"@,
        "ro.product.model"@ != "ro.build.characteristics"@,
        "ro.product.name"@ != "ro.product.device"@,
        "ro.product.name"@ != "ro.build.fingerprint"@,
        "ro.product.name"@ != "ro.build.characteristics"@,
        "ro.product.device"@ != "ro.build.fingerprint"@,
        "ro.product.device"@ != "ro.build.characteristics"@,
        "ro.build.fingerprint"@ != "ro.build.characteristics"@,
{
    reveal_strlit("ro.product.manufacturer");
    reveal_strlit("ro.product.brand");
    reveal_strlit("ro.product.marketname");
    reveal_strlit("ro.product.model");
    reveal_strlit("ro.product.name");
    reveal_strlit("ro.product.device");
    reveal_strlit("ro.build.fingerprint");
    reveal_strlit("ro.build.characteristics");
    assert("ro.product.manufacturer"@.len() == 23);
    assert("ro.product.brand"@.len() == 16);
    assert("ro.product.marketname"@.len() == 21);
    assert("ro.product.model"@.len() == 16);
    assert("ro.product.name"@.len() == 15);
    assert("ro.product.device"@.len() == 17);
    assert("ro.build.fingerprint"@.len() == 20);
    assert("ro.build.characteristics"@.len() == 24);
    assert("ro.product.brand"@[11] == 'b');
    assert("ro.product.model"@[11] == 'm');
}

/// Appends the entry for one optional property value, skipping unset and
/// empty values.
pub(crate) fn push_opt(pairs: &mut Vec<Attr>, key: &str, o: &Option<String>)
    ensures
        pairs_view(final(pairs)@) == pairs_view(old(pairs)@) + opt_entry(key@, *o),
{
    let ghost before = pairs_view(pairs@);
    match o {
        Some(v) => {
            if !v.as_str().is_empty() {
                pairs.push(Attr { key: key.to_owned(), value: v.clone() });
                proof {
                    assert(pairs_view(pairs@) =~= before + opt_entry(key@, *o));
                }
            } else {
                proof {
                    assert(pairs_view(pairs@) =~= before + opt_entry(key@, *o));
                }
            }
        },
        None => {
            proof {
                assert(pairs_view(pairs@) =~= before + opt_entry(key@, *o));
            }
        },
    }
}

/// Appends the device entry, falling back to the product name.
fn push_device(pairs: &mut Vec<Attr>, merged: &MergedAppConfig)
    ensures
        pairs_view(final(pairs)@) == pairs_view(old(pairs)@) + device_entry(merged),
{
    let use_device = match &merged.device {
        Some(d) => !d.as_str().is_empty(),
        None => false,
    };
    if use_device {
        let ghost before = pairs_view(pairs@);
        if let Some(d) = &merged.device {
            pairs.push(Attr { key: String::from_str("ro.product.device"), value: d.clone() });
            proof {
                assert(pairs_view(pairs@) =~= before + device_entry(merged));
            }
        }
    } else {
        push_opt(pairs, "ro.product.device", &merged.name);
    }
}

impl Config {
    /// Builds the attribute map a merged configuration induces: one entry
    /// per set, non-empty property value, under its system attribute key.
    pub fn build_merged_property_map(merged: &MergedAppConfig) -> (r: AttributeMap)
        ensures
            r@ == spec_property_pairs(merged),
            r.wf(),
            r.no_empty_values(),
    {
        let mut pairs: Vec<Attr> = Vec::new();
        push_opt(&mut pairs, "ro.product.manufacturer", &merged.manufacturer);
        push_opt(&mut pairs, "ro.product.brand", &merged.brand);
        push_opt(&mut pairs, "ro.product.marketname", &merged.marketname);
        push_opt(&mut pairs, "ro.product.model", &merged.model);
        push_opt(&mut pairs, "ro.product.name", &merged.name);
        push_device(&mut pairs, merged);
        push_opt(&mut pairs, "ro.build.fingerprint", &merged.fingerprint);
        push_opt(&mut pairs, "ro.build.characteristics", &merged.characteristics);
        proof {
            assert(pairs_view(pairs@) =~= spec_property_pairs(merged));
            lemma_property_keys_distinct();
            assert forall|i: int, j: int|
                0 <= i < j < pairs@.len() implies (#[trigger] pairs@[i]).key@ != (
            #[trigger] pairs@[j]).key@ by {
                assert(pairs_view(pairs@)[i] == pairs@[i]@);
                assert(pairs_view(pairs@)[j] == pairs@[j]@);
            }
        }
        let r = AttributeMap::from_pairs(pairs);
        r
    }
}

/// Whether some string in the vector reads `pkg`.
fn list_contains(list: &Vec<String>, pkg: &String) -> (b: bool)
    ensures
        b == spec_list_contains(list@, pkg@),
{
    let n = list.len();
    for i in 0..n
        invariant
            n == list@.len(),
            forall|j: int| 0 <= j < i ==> (#[trigger] list@[j])@ != pkg@,
    {
        if list[i] == *pkg {
            return true;
        }
    }
    false
}

} // verus!
