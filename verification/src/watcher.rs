//! The restoration watcher's decisions: when the target process has left
//! the privileged execution class, and what replaying the recorded backup
//! pairs does to the attribute store.

use vstd::prelude::*;
use crate::attrs::{Attr, AttributeMap, pairs_view};
use crate::text::{spec_contains, str_contains};

verus! {

/// Whether the control-group signal keeps the process in the privileged
/// class: the class label occurs in the signal's text. A transient failure
/// to read the signal (`None`) is treated conservatively as still
/// privileged, so restoration is never triggered prematurely.
pub open spec fn spec_in_privileged_class(cgroup: Option<Seq<char>>) -> bool {
    match cgroup {
        Some(c) => spec_contains(c, "top-app"@),
        None => true,
    }
}

pub fn in_privileged_class(cgroup: Option<&String>) -> (r: bool)
    ensures
        r == spec_in_privileged_class(
            match cgroup {
                Some(c) => Some(c@),
                None => None,
            },
        ),
{
    match cgroup {
        Some(c) => str_contains(c.as_str(), "top-app"),
        None => true,
    }
}

/// Whether the watcher must replay the backups now: the target process has
/// terminated, or it is still alive but has left the privileged class —
/// either alone suffices.
pub fn should_restore(process_exists: bool, cgroup: Option<&String>) -> (r: bool)
    ensures
        r == (!process_exists || !spec_in_privileged_class(
            match cgroup {
                Some(c) => Some(c@),
                None => None,
            },
        )),
{
    !process_exists || !in_privileged_class(cgroup)
}

/// What replaying pairs does to an attribute store: each pair sets its key,
/// front to back, later pairs winning.
pub open spec fn spec_apply_pairs(
    m: Map<Seq<char>, Seq<char>>,
    ps: Seq<(Seq<char>, Seq<char>)>,
) -> Map<Seq<char>, Seq<char>>
    decreases ps.len(),
{
    if ps.len() == 0 {
        m
    } else {
        spec_apply_pairs(m.insert(ps[0].0, ps[0].1), ps.drop_first())
    }
}

/// Replaying pairs overrides the store with the pairs' own final mapping.
proof fn lemma_apply_pairs_union(m: Map<Seq<char>, Seq<char>>, ps: Seq<(Seq<char>, Seq<char>)>)
    ensures
        spec_apply_pairs(m, ps) == m.union_prefer_right(
            spec_apply_pairs(Map::empty(), ps),
        ),
    decreases ps.len(),
{
    if ps.len() == 0 {
        assert(m.union_prefer_right(spec_apply_pairs(Map::empty(), ps)) =~= m);
    } else {
        let p = ps[0];
        let rest = ps.drop_first();
        let l = spec_apply_pairs(Map::empty(), rest);
        lemma_apply_pairs_union(m.insert(p.0, p.1), rest);
        lemma_apply_pairs_union(Map::<Seq<char>, Seq<char>>::empty().insert(p.0, p.1), rest);
        assert(m.insert(p.0, p.1).union_prefer_right(l) =~= m.union_prefer_right(
            Map::<Seq<char>, Seq<char>>::empty().insert(p.0, p.1).union_prefer_right(l),
        ));
    }
}

/// Replaying the same pairs twice leaves the same final attribute values as
/// replaying once: the per-key mutation is idempotent, so a repeated replay
/// of one restore job changes nothing further.
pub proof fn lemma_replay_idempotent(m: Map<Seq<char>, Seq<char>>, ps: Seq<(Seq<char>, Seq<char>)>)
    ensures
        spec_apply_pairs(spec_apply_pairs(m, ps), ps) == spec_apply_pairs(m, ps),
{
    let l = spec_apply_pairs(Map::<Seq<char>, Seq<char>>::empty(), ps);
    lemma_apply_pairs_union(m, ps);
    lemma_apply_pairs_union(m.union_prefer_right(l), ps);
    assert(m.union_prefer_right(l).union_prefer_right(l) =~= m.union_prefer_right(l));
}

/// Splitting the last pair off a replay splits the store update.
proof fn lemma_apply_pairs_snoc(
    m: Map<Seq<char>, Seq<char>>,
    ps: Seq<(Seq<char>, Seq<char>)>,
    p: (Seq<char>, Seq<char>),
)
    ensures
        spec_apply_pairs(m, ps.push(p)) == spec_apply_pairs(m, ps).insert(p.0, p.1),
    decreases ps.len(),
{
    let sp = ps.push(p);
    if ps.len() == 0 {
        assert(sp[0] == p);
        assert(sp.drop_first() =~= ps);
        assert(spec_apply_pairs(m, sp) == spec_apply_pairs(m.insert(p.0, p.1), ps));
        assert(spec_apply_pairs(m.insert(p.0, p.1), ps) == m.insert(p.0, p.1));
        assert(spec_apply_pairs(m, ps) == m);
    } else {
        assert(sp[0] == ps[0]);
        assert(sp.drop_first() =~= ps.drop_first().push(p));
        lemma_apply_pairs_snoc(m.insert(ps[0].0, ps[0].1), ps.drop_first(), p);
        assert(spec_apply_pairs(m, sp) == spec_apply_pairs(
            m.insert(ps[0].0, ps[0].1),
            ps.drop_first().push(p),
        ));
        assert(spec_apply_pairs(m, ps) == spec_apply_pairs(
            m.insert(ps[0].0, ps[0].1),
            ps.drop_first(),
        ));
    }
}

/// Replays pairs against a modeled attribute store, as the watcher replays
/// its recorded backups through the mutation executable key by key.
pub fn apply_pairs(store: &AttributeMap, pairs: &Vec<Attr>) -> (r: AttributeMap)
    ensures
        r.as_map() == spec_apply_pairs(store.as_map(), pairs_view(pairs@)),
        store.wf() ==> r.wf(),
{
    let mut out = store.duplicate();
    let n = pairs.len();
    for i in 0..n
        invariant
            n == pairs@.len(),
            out.as_map() == spec_apply_pairs(store.as_map(), pairs_view(pairs@).take(i as int)),
            store.wf() ==> out.wf(),
    {
        let ghost before = pairs_view(pairs@).take(i as int);
        out.insert(pairs[i].key.clone(), pairs[i].value.clone());
        proof {
            assert(pairs_view(pairs@).take(i + 1) =~= before.push(pairs_view(pairs@)[i as int]));
            lemma_apply_pairs_snoc(store.as_map(), before, pairs_view(pairs@)[i as int]);
        }
    }
    proof {
        assert(pairs_view(pairs@).take(n as int) =~= pairs_view(pairs@));
    }
    out
}

} // verus!
