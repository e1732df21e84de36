//! The per-process specialization state machine: from one process-creation
//! event and the resolved policy to the strategy, the field substitutions to
//! apply, what to install or send, and whether to request eviction from the
//! host process.

use vstd::prelude::*;
use crate::attrs::{Attr, AttributeMap, pairs_view};
use crate::config::{
    Config, MergedAppConfig, opt_entry, push_opt, spec_property_pairs, spec_resolved,
};

verus! {

/// The strategy selected for one process, exactly once per process-creation
/// event.
#[derive(Clone, Copy, PartialEq, Eq, Structural, Debug)]
pub enum Strategy {
    /// No policy for this identity: leave the process untouched.
    Disabled,
    /// Only the directly settable static fields are substituted.
    InProcessOnly,
    /// Field substitution plus the in-process call interceptor.
    InProcessPlusIntercept,
    /// Field substitution plus an out-of-process privileged mutation.
    PrivilegedMutation,
}

/// The strategy a policy label selects; unrecognized labels fall back to
/// in-process substitution only.
pub open spec fn spec_strategy_of_label(l: Seq<char>) -> Strategy {
    if l == "lite"@ {
        Strategy::InProcessOnly
    } else if l == "full"@ {
        Strategy::InProcessPlusIntercept
    } else if l == "resetprop"@ {
        Strategy::PrivilegedMutation
    } else {
        Strategy::InProcessOnly
    }
}

pub open spec fn spec_label_recognized(l: Seq<char>) -> bool {
    l == "lite"@ || l == "full"@ || l == "resetprop"@
}

/// Maps a policy strategy label to the strategy, reporting whether the
/// label was recognized (an unrecognized one is logged by the caller).
pub fn strategy_of_label(label: &String) -> (r: (Strategy, bool))
    ensures
        r.0 == spec_strategy_of_label(label@),
        r.1 == spec_label_recognized(label@),
{
    if *label == String::from_str("lite") {
        (Strategy::InProcessOnly, true)
    } else if *label == String::from_str("full") {
        (Strategy::InProcessPlusIntercept, true)
    } else if *label == String::from_str("resetprop") {
        (Strategy::PrivilegedMutation, true)
    } else {
        (Strategy::InProcessOnly, false)
    }
}

/// The static identity fields to overwrite, with their values: every field
/// the merged configuration sets to a non-empty string.
pub open spec fn spec_build_field_ops(m: &MergedAppConfig) -> Seq<(Seq<char>, Seq<char>)> {
    opt_entry("MANUFACTURER"@, m.manufacturer) + opt_entry("BRAND"@, m.brand) + opt_entry(
        "MODEL"@,
        m.model,
    ) + opt_entry("DEVICE"@, m.device) + opt_entry("PRODUCT"@, m.product) + opt_entry(
        "FINGERPRINT"@,
        m.fingerprint,
    )
}

/// The field substitutions to apply unconditionally, independent of the
/// strategy: one per set, non-empty field of the merged configuration.
pub fn build_field_ops(merged: &MergedAppConfig) -> (r: Vec<Attr>)
    ensures
        pairs_view(r@) == spec_build_field_ops(merged),
{
    let mut pairs: Vec<Attr> = Vec::new();
    push_opt(&mut pairs, "MANUFACTURER", &merged.manufacturer);
    push_opt(&mut pairs, "BRAND", &merged.brand);
    push_opt(&mut pairs, "MODEL", &merged.model);
    push_opt(&mut pairs, "DEVICE", &merged.device);
    push_opt(&mut pairs, "PRODUCT", &merged.product);
    push_opt(&mut pairs, "FINGERPRINT", &merged.fingerprint);
    proof {
        assert(pairs_view(pairs@) =~= spec_build_field_ops(merged));
    }
    pairs
}

/// Everything one process-creation event requires of the host process.
pub struct SpecializationPlan {
    pub strategy: Strategy,
    /// Whether the strategy label in the policy was recognized.
    pub label_recognized: bool,
    /// Static identity fields to overwrite, applied for every strategy but
    /// `Disabled`.
    pub field_ops: Vec<Attr>,
    /// The substitution table to install for the call interceptor.
    pub install_table: Option<AttributeMap>,
    /// The attribute map to send to the privileged worker.
    pub companion_props: Option<AttributeMap>,
    /// Whether to ask the host to evict this module from process memory.
    pub request_unload: bool,
}

/// The plan when no policy applies: leave the process untouched and request
/// eviction.
pub open spec fn spec_plan_disabled(p: &SpecializationPlan) -> bool {
    &&& p.strategy == Strategy::Disabled
    &&& p.label_recognized
    &&& p.request_unload
    &&& p.field_ops@.len() == 0
    &&& p.install_table is None
    &&& p.companion_props is None
}

/// Selects the strategy and assembles the side effects for one
/// process-creation event. A missing or unreadable configuration, and an
/// identity no entry or template claims, disable the module for this
/// process. Otherwise the field substitutions are assembled
/// unconditionally, and exactly one of the interceptor table and the
/// privileged request is produced, by strategy; eviction is requested
/// unless the interceptor must stay resident.
pub fn plan_specialization(config: Option<&Config>, package: &String) -> (r: SpecializationPlan)
    ensures
        match config {
            None => spec_plan_disabled(&r),
            Some(c) => match spec_resolved(c, package@) {
                None => spec_plan_disabled(&r),
                Some(m) => {
                    &&& r.strategy == spec_strategy_of_label(m.mode@)
                    &&& r.label_recognized == spec_label_recognized(m.mode@)
                    &&& pairs_view(r.field_ops@) == spec_build_field_ops(&m)
                    &&& r.request_unload == (r.strategy != Strategy::InProcessPlusIntercept)
                    &&& match r.install_table {
                        Some(t) => {
                            &&& r.strategy == Strategy::InProcessPlusIntercept
                            &&& t@ == spec_property_pairs(&m)
                            &&& t.wf()
                            &&& t.no_empty_values()
                        },
                        None => r.strategy != Strategy::InProcessPlusIntercept,
                    }
                    &&& match r.companion_props {
                        Some(t) => {
                            &&& r.strategy == Strategy::PrivilegedMutation
                            &&& t@ == spec_property_pairs(&m)
                            &&& t.wf()
                            &&& t.no_empty_values()
                        },
                        None => r.strategy != Strategy::PrivilegedMutation,
                    }
                },
            },
        },
{
    let c = match config {
        Some(c) => c,
        None => {
            return SpecializationPlan {
                strategy: Strategy::Disabled,
                label_recognized: true,
                field_ops: Vec::new(),
                install_table: None,
                companion_props: None,
                request_unload: true,
            };
        },
    };
    let merged = match c.get_merged_config(package) {
        Some(m) => m,
        None => {
            return SpecializationPlan {
                strategy: Strategy::Disabled,
                label_recognized: true,
                field_ops: Vec::new(),
                install_table: None,
                companion_props: None,
                request_unload: true,
            };
        },
    };
    let (strategy, label_recognized) = strategy_of_label(&merged.mode);
    let field_ops = build_field_ops(&merged);
    match strategy {
        Strategy::InProcessPlusIntercept => SpecializationPlan {
            strategy,
            label_recognized,
            field_ops,
            install_table: Some(Config::build_merged_property_map(&merged)),
            companion_props: None,
            request_unload: false,
        },
        Strategy::PrivilegedMutation => SpecializationPlan {
            strategy,
            label_recognized,
            field_ops,
            install_table: None,
            companion_props: Some(Config::build_merged_property_map(&merged)),
            request_unload: true,
        },
        _ => SpecializationPlan {
            strategy,
            label_recognized,
            field_ops,
            install_table: None,
            companion_props: None,
            request_unload: true,
        },
    }
}

/// After the host completes specialization, eviction is requested again
/// (idempotently) for every strategy that leaves no code resident.
pub fn should_unload_after(strategy: &Strategy) -> (r: bool)
    ensures
        r == (*strategy != Strategy::InProcessPlusIntercept),
{
    match strategy {
        Strategy::InProcessPlusIntercept => false,
        _ => true,
    }
}

} // verus!
