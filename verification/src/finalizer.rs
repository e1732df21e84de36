//! The finalizer dispatcher: a process-wide ordered registry of deferred
//! cleanup callbacks. A drain invokes every not-yet-invoked entry exactly
//! once, latest registration first, and runs to completion even when a
//! callback registers further entries mid-drain — required before the
//! module's code can be unloaded from a process that keeps running.

use vstd::prelude::*;
use vstd::multiset::Multiset;

verus! {

/// One registered finalizer: a callback handle and its opaque argument, as
/// the host hands them over.
#[derive(Clone, Copy, PartialEq, Eq, Structural, Debug)]
pub struct FinalizerEntry {
    pub func: u64,
    pub arg: u64,
}

/// The not-yet-invoked entries, in the order a drain hands them out:
/// latest registration first.
pub open spec fn pending_rev(s: Seq<Option<FinalizerEntry>>) -> Seq<FinalizerEntry>
    decreases s.len(),
{
    if s.len() == 0 {
        Seq::empty()
    } else {
        match s.last() {
            Some(e) => seq![e] + pending_rev(s.drop_last()),
            None => pending_rev(s.drop_last()),
        }
    }
}

/// A registry holding no pending entry yields nothing.
proof fn lemma_pending_rev_all_none(s: Seq<Option<FinalizerEntry>>)
    requires
        forall|j: int| 0 <= j < s.len() ==> (#[trigger] s[j]) is None,
    ensures
        pending_rev(s).len() == 0,
    decreases s.len(),
{
    if s.len() != 0 {
        assert(s.last() is None);
        lemma_pending_rev_all_none(s.drop_last());
    }
}

/// Tombstoning the highest-index pending entry removes exactly the head of
/// the pending order.
proof fn lemma_pending_rev_take(s: Seq<Option<FinalizerEntry>>, i: int)
    requires
        0 <= i < s.len(),
        s[i] is Some,
        forall|j: int| i < j < s.len() ==> (#[trigger] s[j]) is None,
    ensures
        pending_rev(s).len() > 0,
        Some(pending_rev(s)[0]) == s[i],
        pending_rev(s.update(i, None)) == pending_rev(s).drop_first(),
    decreases s.len(),
{
    if i == s.len() - 1 {
        let u = s.update(i, None);
        assert(u.last() is None);
        assert(u.drop_last() =~= s.drop_last());
        assert(pending_rev(s).drop_first() =~= pending_rev(s.drop_last()));
    } else {
        assert(s.last() is None);
        let t = s.drop_last();
        assert(forall|j: int| 0 <= j < t.len() ==> #[trigger] t[j] == s[j]);
        lemma_pending_rev_take(t, i);
        let u = s.update(i, None);
        assert(u.last() is None);
        assert(u.drop_last() =~= t.update(i, None));
    }
}

/// The registry: entries in arrival order. An invoked entry is tombstoned
/// in place, never shifting the others during a pass.
pub struct FinalizerDispatcher {
    entries: Vec<Option<FinalizerEntry>>,
}

impl View for FinalizerDispatcher {
    type V = Seq<Option<FinalizerEntry>>;

    closed spec fn view(&self) -> Seq<Option<FinalizerEntry>> {
        self.entries@
    }
}

impl FinalizerDispatcher {
    pub fn new() -> (r: FinalizerDispatcher)
        ensures
            r@.len() == 0,
    {
        FinalizerDispatcher { entries: Vec::new() }
    }

    /// Appends one registration. Registration is allowed at any time,
    /// including from a callback running inside a drain; the new entry
    /// becomes the next one the drain hands out.
    pub fn register(&mut self, entry: FinalizerEntry)
        ensures
            final(self)@ == old(self)@.push(Some(entry)),
            pending_rev(final(self)@) == seq![entry] + pending_rev(old(self)@),
    {
        self.entries.push(Some(entry));
        proof {
            assert(self@.drop_last() =~= old(self)@);
        }
    }

    /// Hands out the next entry to invoke: the pending entry of highest
    /// index — the most recent registration not yet invoked — and
    /// tombstones it, so no entry is ever handed out twice. The scan
    /// always starts from the current end, so entries registered or
    /// tombstoned since the last call are seen. When nothing is pending
    /// the registry is cleared and the drain is complete.
    pub fn take_next(&mut self) -> (r: Option<FinalizerEntry>)
        ensures
            match r {
                Some(e) => {
                    &&& pending_rev(old(self)@).len() > 0
                    &&& e == pending_rev(old(self)@)[0]
                    &&& pending_rev(final(self)@) == pending_rev(old(self)@).drop_first()
                },
                None => {
                    &&& pending_rev(old(self)@).len() == 0
                    &&& final(self)@.len() == 0
                },
            },
    {
        let n = self.entries.len();
        let mut i = n;
        while i > 0
            invariant
                i <= n,
                n == self@.len(),
                forall|j: int| i <= j < n ==> (#[trigger] self@[j]) is None,
            ensures
                i <= n,
                n == self@.len(),
                forall|j: int| i <= j < n ==> (#[trigger] self@[j]) is None,
                i > 0 ==> self@[i - 1] is Some,
            decreases i,
        {
            if self.entries[i - 1].is_some() {
                break;
            }
            i = i - 1;
        }
        if i == 0 {
            proof {
                lemma_pending_rev_all_none(self@);
            }
            self.entries.clear();
            None
        } else {
            let idx = i - 1;
            let o = self.entries[idx];
            match o {
                Some(e) => {
                    proof {
                        lemma_pending_rev_take(self@, idx as int);
                    }
                    self.entries.set(idx, None);
                    Some(e)
                },
                None => {
                    proof {
                        assert(false);
                    }
                    None
                },
            }
        }
    }
}

/// The number of entries the remaining effect batches would register.
pub open spec fn total_effects(s: Seq<Vec<FinalizerEntry>>) -> nat
    decreases s.len(),
{
    if s.len() == 0 {
        0
    } else {
        total_effects(s.drop_last()) + s.last()@.len()
    }
}

/// The entries the remaining effect batches would register, as a multiset.
pub open spec fn effects_multiset(s: Seq<Vec<FinalizerEntry>>) -> Multiset<FinalizerEntry>
    decreases s.len(),
{
    if s.len() == 0 {
        Multiset::empty()
    } else {
        effects_multiset(s.drop_last()).add(s.last()@.to_multiset())
    }
}

/// Runs one complete drain against modeled callbacks: every entry handed
/// out is invoked (appended to the result, in invocation order), and an
/// entry with a nonzero callback handle models a callback that registers
/// further entries mid-drain: it consumes the last batch of `effects` and
/// registers each of its entries. The drain always terminates with the
/// registry empty; the number of invocations equals the initially pending
/// entries plus every entry registered mid-drain, each invoked exactly
/// once; and when no callback registers (no batches are supplied), the
/// invocation order is exactly the reverse of the registration order.
pub fn drain_with_effects(
    d: &mut FinalizerDispatcher,
    effects: &mut Vec<Vec<FinalizerEntry>>,
) -> (invoked: Vec<FinalizerEntry>)
    ensures
        final(d)@.len() == 0,
        invoked@.len() == pending_rev(old(d)@).len() + total_effects(old(effects)@)
            - total_effects(final(effects)@),
        total_effects(final(effects)@) <= total_effects(old(effects)@),
        invoked@.to_multiset().add(effects_multiset(final(effects)@)) == pending_rev(
            old(d)@,
        ).to_multiset().add(effects_multiset(old(effects)@)),
        old(effects)@.len() == 0 ==> invoked@ == pending_rev(old(d)@),
{
    let mut invoked: Vec<FinalizerEntry> = Vec::new();
    let mut done = false;
    proof {
        broadcast use vstd::seq_lib::group_to_multiset_ensures;
        broadcast use vstd::multiset::group_multiset_axioms;

        assert(invoked@.to_multiset() =~= Multiset::<FinalizerEntry>::empty());
        assert(invoked@.to_multiset().add(pending_rev(d@).to_multiset()).add(
            effects_multiset(effects@),
        ) =~= pending_rev(old(d)@).to_multiset().add(effects_multiset(old(effects)@)));
    }
    while !done
        invariant
            invoked@.len() + pending_rev(d@).len() == pending_rev(old(d)@).len() + total_effects(
                old(effects)@,
            ) - total_effects(effects@),
            total_effects(effects@) <= total_effects(old(effects)@),
            invoked@.to_multiset().add(pending_rev(d@).to_multiset()).add(
                effects_multiset(effects@),
            ) == pending_rev(old(d)@).to_multiset().add(effects_multiset(old(effects)@)),
            old(effects)@.len() == 0 ==> effects@.len() == 0 && invoked@ + pending_rev(d@)
                == pending_rev(old(d)@),
            done ==> d@.len() == 0 && pending_rev(d@).len() == 0,
        decreases pending_rev(d@).len() + total_effects(effects@) + (if done {
            0int
        } else {
            1
        }),
    {
        let ghost pending_before = pending_rev(d@);
        let ghost invoked_before = invoked@;
        match d.take_next() {
            None => {
                done = true;
                proof {
                    broadcast use vstd::seq_lib::group_to_multiset_ensures;

                    assert(pending_rev(d@).to_multiset() =~= Multiset::<FinalizerEntry>::empty());
                }
            },
            Some(e) => {
                invoked.push(e);
                proof {
                    broadcast use vstd::seq_lib::group_to_multiset_ensures;
                    broadcast use vstd::multiset::group_multiset_axioms;

                    assert(invoked@ + pending_rev(d@) =~= invoked@.drop_last()
                        + pending_before);
                    assert(invoked@.to_multiset() =~= invoked_before.to_multiset().insert(e));
                    assert(pending_before.remove(0) =~= pending_rev(d@));
                    assert(pending_before.remove(0).to_multiset() == pending_before.to_multiset()
                        .remove(pending_before[0]));
                    assert(pending_before.contains(pending_before[0]));
                    assert(pending_before.to_multiset().count(e) > 0);
                    assert(pending_before.to_multiset() =~= pending_rev(d@).to_multiset().insert(
                        e,
                    ));
                    assert(invoked@.to_multiset().add(pending_rev(d@).to_multiset()).add(
                        effects_multiset(effects@),
                    ) =~= invoked_before.to_multiset().add(pending_before.to_multiset()).add(
                        effects_multiset(effects@),
                    ));
                }
                if e.func != 0 {
                    let ghost effects_before = effects@;
                    let popped = effects.pop();
                    match popped {
                        Some(batch) => {
                            proof {
                                broadcast use vstd::seq_lib::group_to_multiset_ensures;
                                broadcast use vstd::multiset::group_multiset_axioms;

                                assert(old(effects)@.len() != 0);
                                assert(effects_before.drop_last() =~= effects@);
                                assert(effects_multiset(effects_before) == effects_multiset(
                                    effects@,
                                ).add(batch@.to_multiset()));
                            }
                            let ghost pend0 = pending_rev(d@).len();
                            let ghost pend0_ms = pending_rev(d@).to_multiset();
                            let m = batch.len();
                            let mut k: usize = 0;
                            while k < m
                                invariant
                                    k <= m,
                                    m == batch@.len(),
                                    pending_rev(d@).len() == pend0 + k,
                                    pending_rev(d@).to_multiset() == pend0_ms.add(
                                        batch@.take(k as int).to_multiset(),
                                    ),
                                decreases m - k,
                            {
                                let ghost pending_prev = pending_rev(d@);
                                d.register(batch[k]);
                                proof {
                                    broadcast use vstd::seq_lib::group_to_multiset_ensures;
                                    broadcast use vstd::multiset::group_multiset_axioms;

                                    assert(seq![batch@[k as int]] + pending_prev =~= pending_prev
                                        .insert(0, batch@[k as int]));
                                    assert(pending_prev.insert(0, batch@[k as int]).to_multiset()
                                        == pending_prev.to_multiset().insert(batch@[k as int]));
                                    assert(batch@.take(k + 1) =~= batch@.take(k as int).push(
                                        batch@[k as int],
                                    ));
                                    assert(pending_rev(d@).to_multiset() =~= pend0_ms.add(
                                        batch@.take(k + 1).to_multiset(),
                                    ));
                                }
                                k = k + 1;
                            }
                            proof {
                                broadcast use vstd::multiset::group_multiset_axioms;

                                assert(batch@.take(m as int) =~= batch@);
                                assert(invoked@.to_multiset().add(
                                    pending_rev(d@).to_multiset(),
                                ).add(effects_multiset(effects@)) =~= invoked@.to_multiset().add(
                                    pend0_ms,
                                ).add(effects_multiset(effects_before)));
                            }
                        },
                        None => {
                        },
                    }
                }
            },
        }
    }
    proof {
        broadcast use vstd::seq_lib::group_to_multiset_ensures;
        broadcast use vstd::multiset::group_multiset_axioms;

        assert(pending_rev(d@).to_multiset() =~= Multiset::<FinalizerEntry>::empty());
        assert(invoked@.to_multiset().add(effects_multiset(effects@)) =~= invoked@.to_multiset()
            .add(pending_rev(d@).to_multiset()).add(effects_multiset(effects@)));
    }
    invoked
}

} // verus!
