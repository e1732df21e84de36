//! The privileged worker's side of the protocol: locating the mutation
//! executable, planning an `Apply` (read-before-write backups, the
//! mutations, the watcher job) and a `Restore`, and the failure messages
//! reported back over the channel.

use vstd::prelude::*;
use crate::attrs::{Attr, AttributeMap, pairs_view};
use crate::protocol::{ResetpropSessionRequest, RestoreRequest};
use crate::text::{spec_trim_end, trim_trailing_newlines};

verus! {

/// Why a privileged request was aborted.
#[derive(Debug)]
pub enum WorkerError {
    /// The mutation executable was found at none of the well-known
    /// locations.
    ExecutableMissing,
    /// Reading the current value of this key failed; the whole request is
    /// aborted, since no partial backups are trusted.
    ReadFailed { key: String },
    /// Writing this key failed; the request is aborted, but mutations
    /// already applied are not rolled back.
    WriteFailed { key: String },
}

impl WorkerError {
    /// The message reported over the channel for this failure.
    pub open spec fn spec_message(&self) -> Seq<char> {
        match self {
            WorkerError::ExecutableMissing => "resetprop binary not found in known locations"@,
            WorkerError::ReadFailed { key } => "getprop failed for "@ + key@,
            WorkerError::WriteFailed { key } => "resetprop failed for "@ + key@,
        }
    }

    pub fn message(&self) -> (r: String)
        ensures
            r@ == self.spec_message(),
    {
        match self {
            WorkerError::ExecutableMissing => String::from_str(
                "resetprop binary not found in known locations",
            ),
            WorkerError::ReadFailed { key } => String::from_str("getprop failed for ").concat(
                key.as_str(),
            ),
            WorkerError::WriteFailed { key } => String::from_str("resetprop failed for ").concat(
                key.as_str(),
            ),
        }
    }
}

/// Everything the detached watcher owns, copied at spawn time: the target
/// process, the recorded pairs to replay, and the executable path.
#[derive(Debug)]
pub struct RestoreJob {
    pub pid: u32,
    pub pairs: Vec<Attr>,
    pub exec_path: String,
}

/// The outcome of planning a successful `Apply`: the backups to echo, the
/// mutations to perform in order, and the watcher to spawn.
#[derive(Debug)]
pub struct ApplyPlan {
    pub backups: AttributeMap,
    pub writes: Vec<Attr>,
    pub watcher: Option<RestoreJob>,
}

/// The backup pairs an `Apply` records: each requested key with its
/// current value, the trailing line breaks of the read-back output removed.
pub open spec fn spec_backup_pairs(
    props: Seq<(Seq<char>, Seq<char>)>,
    reads: Seq<Option<String>>,
) -> Seq<(Seq<char>, Seq<char>)> {
    Seq::new(
        props.len(),
        |i: int|
            (
                props[i].0,
                spec_trim_end(
                    match reads[i] {
                        Some(s) => s@,
                        None => Seq::empty(),
                    },
                ),
            ),
    )
}

/// The keys whose current values must be read, in map order, before any
/// mutation is applied.
pub fn backup_keys(request: &ResetpropSessionRequest) -> (r: Vec<String>)
    ensures
        r@.len() == request.props@.len(),
        forall|i: int| 0 <= i < r@.len() ==> (#[trigger] r@[i])@ == request.props@[i].0,
{
    let mut out: Vec<String> = Vec::new();
    let n = request.props.len();
    for i in 0..n
        invariant
            n == request.props@.len(),
            out@.len() == i,
            forall|j: int| 0 <= j < i ==> (#[trigger] out@[j])@ == request.props@[j].0,
    {
        out.push(request.props.key_at(i).clone());
    }
    out
}

/// Plans one `Apply` request, given the executable lookup's result and the
/// read-back value of each key (in the order `backup_keys` gives, `None`
/// for a failed read). An empty map succeeds immediately with empty
/// backups and no watcher. Otherwise a missing executable aborts the whole
/// request, as does the first failed read; on success the backups mirror
/// the reads, every requested mutation is emitted in map order, and the
/// watcher job carries the requesting process id, the backup pairs and the
/// executable path.
pub fn apply_resetprop_session(
    request: &ResetpropSessionRequest,
    exec_path: Option<&String>,
    reads: &Vec<Option<String>>,
) -> (r: Result<ApplyPlan, WorkerError>)
    requires
        request.props.wf(),
        request.props@.len() > 0 && exec_path is Some ==> reads@.len() == request.props@.len(),
    ensures
        match r {
            Ok(plan) => {
                &&& plan.backups.wf()
                &&& if request.props@.len() == 0 {
                    &&& plan.backups@.len() == 0
                    &&& plan.writes@.len() == 0
                    &&& plan.watcher is None
                } else {
                    &&& exec_path is Some
                    &&& forall|i: int| 0 <= i < reads@.len() ==> (#[trigger] reads@[i]) is Some
                    &&& plan.backups@ == spec_backup_pairs(request.props@, reads@)
                    &&& pairs_view(plan.writes@) == request.props@
                    &&& match &plan.watcher {
                        Some(job) => {
                            &&& job.pid == request.pid
                            &&& pairs_view(job.pairs@) == plan.backups@
                            &&& match exec_path {
                                Some(p) => job.exec_path@ == p@,
                                None => false,
                            }
                        },
                        None => false,
                    }
                }
            },
            Err(e) => match e {
                WorkerError::ExecutableMissing => request.props@.len() > 0 && exec_path is None,
                WorkerError::ReadFailed { key } => {
                    &&& request.props@.len() > 0
                    &&& exec_path is Some
                    &&& exists|i: int|
                        0 <= i < reads@.len() && (#[trigger] reads@[i]) is None && key@
                            == request.props@[i].0 && (forall|j: int|
                            0 <= j < i ==> (#[trigger] reads@[j]) is Some)
                },
                WorkerError::WriteFailed { .. } => false,
            },
        },
{
    if request.props.is_empty() {
        return Ok(ApplyPlan { backups: AttributeMap::new(), writes: Vec::new(), watcher: None });
    }
    let path = match exec_path {
        Some(p) => p,
        None => {
            return Err(WorkerError::ExecutableMissing);
        },
    };
    let n = request.props.len();
    let mut backups: Vec<Attr> = Vec::new();
    for i in 0..n
        invariant
            n == request.props@.len(),
            n > 0,
            exec_path is Some,
            reads@.len() == n,
            request.props.wf(),
            backups@.len() == i,
            forall|j: int| 0 <= j < i ==> (#[trigger] reads@[j]) is Some,
            forall|j: int|
                0 <= j < i ==> (#[trigger] backups@[j])@ == spec_backup_pairs(
                    request.props@,
                    reads@,
                )[j],
    {
        match &reads[i] {
            Some(raw) => {
                backups.push(
                    Attr {
                        key: request.props.key_at(i).clone(),
                        value: trim_trailing_newlines(raw.as_str()),
                    },
                );
            },
            None => {
                let k = request.props.key_at(i).clone();
                proof {
                    assert(exists|ii: int|
                        0 <= ii < reads@.len() && (#[trigger] reads@[ii]) is None && k@
                            == request.props@[ii].0 && (forall|j: int|
                            0 <= j < ii ==> (#[trigger] reads@[j]) is Some)) by {
                        assert(reads@[i as int] is None);
                    }
                }
                return Err(WorkerError::ReadFailed { key: k });
            },
        }
    }
    proof {
        assert(pairs_view(backups@) =~= spec_backup_pairs(request.props@, reads@));
        assert forall|i: int, j: int|
            0 <= i < j < backups@.len() implies (#[trigger] backups@[i]).key@ != (
        #[trigger] backups@[j]).key@ by {
            assert(backups@[i]@ == spec_backup_pairs(request.props@, reads@)[i]);
            assert(backups@[j]@ == spec_backup_pairs(request.props@, reads@)[j]);
        }
    }
    let backup_map = AttributeMap::from_pairs(backups);
    let writes = request.props.to_pairs();
    let job = RestoreJob {
        pid: request.pid,
        pairs: backup_map.to_pairs(),
        exec_path: path.clone(),
    };
    Ok(ApplyPlan { backups: backup_map, writes, watcher: Some(job) })
}

/// Plans one `Restore` request: an empty map is a no-op success; otherwise
/// a missing executable aborts the request, and on success every supplied
/// pair is replayed in order, with no read-before-write.
pub fn restore_properties(request: &RestoreRequest, exec_path: Option<&String>) -> (r: Result<
    Vec<Attr>,
    WorkerError,
>)
    ensures
        match r {
            Ok(writes) => {
                &&& pairs_view(writes@) == request.props@
                &&& (request.props@.len() > 0 ==> exec_path is Some)
            },
            Err(e) => {
                &&& e matches WorkerError::ExecutableMissing
                &&& request.props@.len() > 0
                &&& exec_path is None
            },
        },
{
    if request.props.is_empty() {
        let empty: Vec<Attr> = Vec::new();
        proof {
            assert(pairs_view(empty@) =~= request.props@);
        }
        return Ok(empty);
    }
    if exec_path.is_none() {
        return Err(WorkerError::ExecutableMissing);
    }
    Ok(request.props.to_pairs())
}

/// The well-known locations probed for the mutation executable, in the
/// order they are checked.
pub fn resetprop_candidates() -> (r: Vec<String>)
    ensures
        r@.len() == 6,
        r@[0]@ == "/data/adb/ksu/bin/resetprop"@,
        r@[1]@ == "/data/adb/magisk/resetprop"@,
        r@[2]@ == "/debug_ramdisk/resetprop"@,
        r@[3]@ == "/data/adb/ap/bin/resetprop"@,
        r@[4]@ == "/system/bin/resetprop"@,
        r@[5]@ == "/vendor/bin/resetprop"@,
{
    let mut v: Vec<String> = Vec::new();
    v.push(String::from_str("/data/adb/ksu/bin/resetprop"));
    v.push(String::from_str("/data/adb/magisk/resetprop"));
    v.push(String::from_str("/debug_ramdisk/resetprop"));
    v.push(String::from_str("/data/adb/ap/bin/resetprop"));
    v.push(String::from_str("/system/bin/resetprop"));
    v.push(String::from_str("/vendor/bin/resetprop"));
    v
}

/// The first candidate whose probe succeeded: the executable search takes
/// the well-known locations in order.
pub fn first_existing(paths: &Vec<String>, found: &Vec<bool>) -> (r: Option<String>)
    requires
        paths@.len() == found@.len(),
    ensures
        match r {
            Some(p) => exists|i: int|
                0 <= i < found@.len() && #[trigger] found@[i] && p@ == paths@[i]@ && (forall|j: int|
                    0 <= j < i ==> !(#[trigger] found@[j])),
            None => forall|i: int| 0 <= i < found@.len() ==> !(#[trigger] found@[i]),
        },
{
    let n = paths.len();
    for i in 0..n
        invariant
            n == paths@.len(),
            n == found@.len(),
            forall|j: int| 0 <= j < i ==> !(#[trigger] found@[j]),
    {
        if found[i] {
            return Some(paths[i].clone());
        }
    }
    None
}

} // verus!
