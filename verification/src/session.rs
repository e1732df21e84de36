//! The session ledger: the process-wide singleton slot holding the one
//! outstanding privileged-mutation session, consulted and refreshed at
//! specialization boundaries.

use vstd::prelude::*;
use crate::attrs::AttributeMap;
use crate::protocol::{CompanionResponse, ResetpropSessionRequest, RestoreRequest};

verus! {

/// The outstanding privileged-mutation session: the owning identity and the
/// pre-mutation backup values echoed by the worker.
pub struct ActiveResetSession {
    pub package: String,
    pub backups: AttributeMap,
}

impl View for ActiveResetSession {
    type V = (Seq<char>, Seq<(Seq<char>, Seq<char>)>);

    open spec fn view(&self) -> (Seq<char>, Seq<(Seq<char>, Seq<char>)>) {
        (self.package@, self.backups@)
    }
}

/// The singleton slot: by construction at most one session exists
/// process-wide at any time.
pub struct SessionLedger {
    slot: Option<ActiveResetSession>,
}

impl View for SessionLedger {
    type V = Option<(Seq<char>, Seq<(Seq<char>, Seq<char>)>)>;

    closed spec fn view(&self) -> Option<(Seq<char>, Seq<(Seq<char>, Seq<char>)>)> {
        match &self.slot {
            Some(s) => Some(s@),
            None => None,
        }
    }
}

/// What one identity check does to the slot: a session owned by a different
/// identity is taken for reversal and the slot is emptied; one owned by the
/// current identity, or an empty slot, is left as it is. The result is the
/// slot afterwards and the session taken.
pub open spec fn spec_take_if_different(
    slot: Option<(Seq<char>, Seq<(Seq<char>, Seq<char>)>)>,
    pkg: Seq<char>,
) -> (Option<(Seq<char>, Seq<(Seq<char>, Seq<char>)>)>, Option<
    (Seq<char>, Seq<(Seq<char>, Seq<char>)>),
>) {
    match slot {
        Some(s) => if s.0 != pkg {
            (None, Some(s))
        } else {
            (slot, None)
        },
        None => (None, None),
    }
}

/// One privileged-mutation event for `pkg`: the identity check first takes
/// a differing session for reversal, then the worker's backups are recorded
/// under `pkg`. The result is the slot afterwards and the session taken for
/// reversal.
pub open spec fn spec_privileged_event(
    slot: Option<(Seq<char>, Seq<(Seq<char>, Seq<char>)>)>,
    pkg: Seq<char>,
    backups: Seq<(Seq<char>, Seq<char>)>,
) -> (Option<(Seq<char>, Seq<(Seq<char>, Seq<char>)>)>, Option<
    (Seq<char>, Seq<(Seq<char>, Seq<char>)>),
>) {
    let taken = spec_take_if_different(slot, pkg).1;
    (Some((pkg, backups)), taken)
}

impl SessionLedger {
    pub fn new() -> (r: SessionLedger)
        ensures
            r@ is None,
    {
        SessionLedger { slot: None }
    }

    /// The outstanding session, for inspection.
    pub fn active(&self) -> (r: Option<&ActiveResetSession>)
        ensures
            match r {
                Some(s) => self@ == Some(s@),
                None => self@ is None,
            },
    {
        self.slot.as_ref()
    }

    /// Takes the outstanding session when it belongs to a different
    /// identity than the current one, so its reversal can be issued before
    /// specialization proceeds; otherwise leaves the slot untouched.
    pub fn take_if_different(&mut self, current_package: &String) -> (r: Option<
        ActiveResetSession,
    >)
        ensures
            final(self)@ == spec_take_if_different(old(self)@, current_package@).0,
            match r {
                Some(s) => spec_take_if_different(old(self)@, current_package@).1 == Some(s@),
                None => spec_take_if_different(old(self)@, current_package@).1 is None,
            },
    {
        let differs = match &self.slot {
            Some(s) => !(s.package == *current_package),
            None => false,
        };
        if differs {
            self.slot.take()
        } else {
            None
        }
    }

    /// Records the session of a successful privileged mutation; any earlier
    /// content of the slot is replaced.
    pub fn record(&mut self, session: ActiveResetSession)
        ensures
            final(self)@ == Some(session@),
    {
        self.slot = Some(session);
    }
}

/// Through process-creation events with alternating identities `a`, `b`,
/// `a`, all using privileged mutation, the ledger holds exactly one session
/// after each event (and never more than one: the slot is a single optional
/// cell); and whenever the previous session belonged to the other identity,
/// exactly that session is taken for a reversal request before the new one
/// is recorded.
pub proof fn lemma_alternating_sessions(
    a: Seq<char>,
    b: Seq<char>,
    backups_a1: Seq<(Seq<char>, Seq<char>)>,
    backups_b: Seq<(Seq<char>, Seq<char>)>,
    backups_a2: Seq<(Seq<char>, Seq<char>)>,
)
    requires
        a != b,
    ensures
        ({
            let (s1, t1) = spec_privileged_event(None, a, backups_a1);
            let (s2, t2) = spec_privileged_event(s1, b, backups_b);
            let (s3, t3) = spec_privileged_event(s2, a, backups_a2);
            &&& s1 == Some((a, backups_a1)) && t1 is None
            &&& s2 == Some((b, backups_b)) && t2 == Some((a, backups_a1))
            &&& s3 == Some((a, backups_a2)) && t3 == Some((b, backups_b))
        }),
{
}

/// The request sent to the privileged worker for one mutation, or nothing
/// when there is no attribute to change (an empty map succeeds immediately
/// on the caller's side, with no round trip).
pub fn apply_request_for(props: &AttributeMap, pid: u32) -> (r: Option<ResetpropSessionRequest>)
    ensures
        r is None <==> props@.len() == 0,
        r matches Some(req) ==> req.pid == pid && req.props@ == props@,
{
    if props.is_empty() {
        None
    } else {
        Some(ResetpropSessionRequest { pid, props: props.duplicate() })
    }
}

/// The reversal request for a taken session, or nothing when its backup map
/// is empty and there is nothing to replay.
pub fn reversal_request(session: &ActiveResetSession) -> (r: Option<RestoreRequest>)
    ensures
        r is None <==> session.backups@.len() == 0,
        r matches Some(req) ==> req.props@ == session.backups@,
{
    if session.backups.is_empty() {
        None
    } else {
        Some(RestoreRequest { props: session.backups.duplicate() })
    }
}

/// The session to record after a privileged mutation: the worker's echoed
/// backups under the requesting identity; nothing on failure or when the
/// worker returned no backups (then no automatic restore bookkeeping is
/// possible, which the caller logs).
pub fn session_after_apply(package: &String, response: &CompanionResponse) -> (r: Option<
    ActiveResetSession,
>)
    ensures
        match r {
            Some(s) => response@.status == 0 && response@.backups == Some(s.backups@)
                && s.package@ == package@,
            None => response@.status != 0 || response@.backups is None,
        },
{
    if response.status == 0 {
        match &response.backups {
            Some(b) => Some(
                ActiveResetSession { package: package.clone(), backups: b.duplicate() },
            ),
            None => None,
        }
    } else {
        None
    }
}

} // verus!
