//! The attribute data model: a flat mapping of namespaced attribute keys to
//! string values, with unique keys and the insertion order kept.

use vstd::prelude::*;

verus! {

/// One attribute: a namespaced key (for example a dotted product identifier)
/// and the string value it should report.
#[derive(Debug)]
pub struct Attr {
    pub key: String,
    pub value: String,
}

impl View for Attr {
    type V = (Seq<char>, Seq<char>);

    open spec fn view(&self) -> (Seq<char>, Seq<char>) {
        (self.key@, self.value@)
    }
}

impl Attr {
    pub fn new(key: String, value: String) -> (r: Attr)
        ensures
            r@ == (key@, value@),
    {
        Attr { key, value }
    }

    pub fn duplicate(&self) -> (r: Attr)
        ensures
            r@ == self@,
    {
        Attr { key: self.key.clone(), value: self.value.clone() }
    }
}

/// The value the sequence of pairs associates with a key: the first pair
/// whose key matches, or `None`.
pub open spec fn spec_get(s: Seq<(Seq<char>, Seq<char>)>, k: Seq<char>) -> Option<Seq<char>>
    decreases s.len(),
{
    if s.len() == 0 {
        None
    } else if s[0].0 == k {
        Some(s[0].1)
    } else {
        spec_get(s.drop_first(), k)
    }
}

/// The index of the first pair whose key matches; meaningful only when
/// `spec_get` returns `Some`.
pub open spec fn spec_key_index(s: Seq<(Seq<char>, Seq<char>)>, k: Seq<char>) -> int
    decreases s.len(),
{
    if s.len() == 0 {
        0
    } else if s[0].0 == k {
        0
    } else {
        1 + spec_key_index(s.drop_first(), k)
    }
}

pub proof fn lemma_spec_get_characterizes(s: Seq<(Seq<char>, Seq<char>)>, k: Seq<char>)
    ensures
        spec_get(s, k) is Some <==> exists|i: int| 0 <= i < s.len() && #[trigger] s[i].0 == k,
        spec_get(s, k) is Some ==> {
            let i = spec_key_index(s, k);
            &&& 0 <= i < s.len()
            &&& s[i].0 == k
            &&& spec_get(s, k) == Some(s[i].1)
            &&& forall|j: int| 0 <= j < i ==> #[trigger] s[j].0 != k
        },
    decreases s.len(),
{
    if s.len() != 0 && s[0].0 != k {
        let t = s.drop_first();
        lemma_spec_get_characterizes(t, k);
        assert(forall|i: int| 0 <= i < t.len() ==> #[trigger] t[i] == s[i + 1]);
        if spec_get(s, k) is Some {
            let i0 = spec_key_index(t, k);
            assert(s[i0 + 1].0 == k);
            assert forall|j: int| 0 <= j < spec_key_index(s, k) implies #[trigger] s[j].0 != k by {
                if j >= 1 {
                    assert(t[j - 1].0 != k);
                }
            }
        }
        if exists|i: int| 0 <= i < s.len() && #[trigger] s[i].0 == k {
            let i = choose|i: int| 0 <= i < s.len() && #[trigger] s[i].0 == k;
            assert(t[i - 1] == s[i]);
            assert(t[i - 1].0 == k);
            assert(spec_get(t, k) is Some);
        }
    }
}

/// `spec_get` is unaffected by pairs appended after a match, and an appended
/// pair with a fresh key is found by `spec_get`.
pub proof fn lemma_spec_get_push(s: Seq<(Seq<char>, Seq<char>)>, k: Seq<char>, p: (Seq<char>, Seq<char>))
    ensures
        spec_get(s.push(p), k) == if spec_get(s, k) is Some {
            spec_get(s, k)
        } else if p.0 == k {
            Some(p.1)
        } else {
            None
        },
    decreases s.len(),
{
    if s.len() == 0 {
        assert(s.push(p)[0] == p);
        assert(s.push(p).len() == 1);
        if p.0 != k {
            assert(s.push(p).drop_first() =~= Seq::<(Seq<char>, Seq<char>)>::empty());
        }
    } else {
        assert(s.push(p)[0] == s[0]);
        assert(s.push(p).drop_first() =~= s.drop_first().push(p));
        lemma_spec_get_push(s.drop_first(), k, p);
    }
}

/// `spec_get` after updating index `i` (the first occurrence of `k`) with a
/// new value for the same key.
pub proof fn lemma_spec_get_update(
    s: Seq<(Seq<char>, Seq<char>)>,
    k: Seq<char>,
    i: int,
    p: (Seq<char>, Seq<char>),
    q: Seq<char>,
)
    requires
        0 <= i < s.len(),
        s[i].0 == k,
        forall|j: int| 0 <= j < i ==> #[trigger] s[j].0 != k,
        p.0 == k,
    ensures
        spec_get(s.update(i, p), q) == if q == k {
            Some(p.1)
        } else {
            spec_get(s, q)
        },
    decreases s.len(),
{
    if i == 0 {
        assert(s.update(0, p)[0] == p);
        if q != k {
            assert(s.update(0, p).drop_first() =~= s.drop_first());
        }
    } else {
        assert(s.update(i, p)[0] == s[0]);
        assert(s.update(i, p).drop_first() =~= s.drop_first().update(i - 1, p));
        assert(forall|j: int|
            0 <= j < i - 1 ==> #[trigger] s.drop_first()[j].0 == s[j + 1].0);
        lemma_spec_get_update(s.drop_first(), k, i - 1, p, q);
    }
}

/// The key/value pairs a sequence of attributes denotes.
pub open spec fn pairs_view(s: Seq<Attr>) -> Seq<(Seq<char>, Seq<char>)> {
    Seq::new(s.len(), |i: int| s[i]@)
}

/// A flat attribute-key to value mapping. Keys are unique; insertion order is
/// kept (it only matters for deterministic iteration, never semantically).
#[derive(Debug)]
pub struct AttributeMap {
    entries: Vec<Attr>,
}

impl View for AttributeMap {
    type V = Seq<(Seq<char>, Seq<char>)>;

    closed spec fn view(&self) -> Seq<(Seq<char>, Seq<char>)> {
        pairs_view(self.entries@)
    }
}

/// Pairwise-distinct keys.
pub open spec fn keys_distinct(s: Seq<(Seq<char>, Seq<char>)>) -> bool {
    forall|i: int, j: int| 0 <= i < j < s.len() ==> (#[trigger] s[i]).0 != (#[trigger] s[j]).0
}

impl AttributeMap {
    /// Keys are pairwise distinct.
    pub open spec fn wf(&self) -> bool {
        keys_distinct(self@)
    }

    /// No value is the empty string. Desired attribute values are filtered
    /// upstream; backup maps may hold empty strings, so this is not part of
    /// `wf`.
    pub open spec fn no_empty_values(&self) -> bool {
        forall|i: int| 0 <= i < self@.len() ==> (#[trigger] self@[i]).1.len() > 0
    }

    /// The mapping the entry sequence denotes.
    pub open spec fn as_map(&self) -> Map<Seq<char>, Seq<char>> {
        Map::new(
            |k: Seq<char>| spec_get(self@, k) is Some,
            |k: Seq<char>| spec_get(self@, k)->Some_0,
        )
    }

    pub fn new() -> (r: AttributeMap)
        ensures
            r@ == Seq::<(Seq<char>, Seq<char>)>::empty(),
            r.wf(),
    {
        AttributeMap { entries: Vec::new() }
    }

    pub fn len(&self) -> (n: usize)
        ensures
            n == self@.len(),
    {
        self.entries.len()
    }

    pub fn is_empty(&self) -> (b: bool)
        ensures
            b == (self@.len() == 0),
    {
        self.entries.len() == 0
    }

    pub fn key_at(&self, i: usize) -> (k: &String)
        requires
            i < self@.len(),
        ensures
            k@ == self@[i as int].0,
    {
        &self.entries[i].key
    }

    pub fn value_at(&self, i: usize) -> (v: &String)
        requires
            i < self@.len(),
        ensures
            v@ == self@[i as int].1,
    {
        &self.entries[i].value
    }

    /// The index of the first entry whose key equals `key`.
    fn index_of(&self, key: &String) -> (r: Option<usize>)
        ensures
            match r {
                Some(i) => {
                    &&& i < self@.len()
                    &&& self@[i as int].0 == key@
                    &&& forall|j: int| 0 <= j < i ==> (#[trigger] self@[j]).0 != key@
                },
                None => forall|j: int| 0 <= j < self@.len() ==> (#[trigger] self@[j]).0 != key@,
            },
    {
        let n = self.entries.len();
        for i in 0..n
            invariant
                n == self@.len(),
                forall|j: int| 0 <= j < i ==> (#[trigger] self@[j]).0 != key@,
        {
            if self.entries[i].key == *key {
                return Some(i);
            }
        }
        None
    }

    /// Looks the key up, returning the mapped value when present.
    pub fn get(&self, key: &String) -> (r: Option<&String>)
        ensures
            match r {
                Some(v) => spec_get(self@, key@) == Some(v@),
                None => spec_get(self@, key@) is None,
            },
    {
        proof {
            lemma_spec_get_characterizes(self@, key@);
        }
        match self.index_of(key) {
            Some(i) => Some(&self.entries[i].value),
            None => None,
        }
    }

    pub fn contains_key(&self, key: &String) -> (b: bool)
        ensures
            b == (spec_get(self@, key@) is Some),
    {
        match self.get(key) {
            Some(_) => true,
            None => false,
        }
    }

    /// Inserts the pair. An existing entry with the same key is overwritten
    /// in place; a fresh key is appended.
    pub fn insert(&mut self, key: String, value: String)
        ensures
            final(self)@ == if spec_get(old(self)@, key@) is Some {
                old(self)@.update(spec_key_index(old(self)@, key@), (key@, value@))
            } else {
                old(self)@.push((key@, value@))
            },
            spec_get(final(self)@, key@) == Some::<Seq<char>>(value@),
            final(self).as_map() == old(self).as_map().insert(key@, value@),
            old(self).wf() ==> final(self).wf(),
    {
        proof {
            lemma_spec_get_characterizes(self@, key@);
        }
        let ghost s = self@;
        match self.index_of(&key) {
            Some(i) => {
                self.entries.set(i, Attr { key, value });
                proof {
                    assert(self@ =~= s.update(i as int, (key@, value@)));
                    assert forall|q: Seq<char>| #[trigger] spec_get(self@, q) == (if q == key@ {
                        Some(value@)
                    } else {
                        spec_get(s, q)
                    }) by {
                        lemma_spec_get_update(s, key@, i as int, (key@, value@), q);
                    }
                    assert(self.as_map() =~= old(self).as_map().insert(key@, value@));
                }
            },
            None => {
                self.entries.push(Attr { key, value });
                proof {
                    assert(self@ =~= s.push((key@, value@)));
                    assert forall|q: Seq<char>| #[trigger] spec_get(self@, q) == (if q == key@ {
                        Some(value@)
                    } else {
                        spec_get(s, q)
                    }) by {
                        lemma_spec_get_push(s, q, (key@, value@));
                    }
                    assert(self.as_map() =~= old(self).as_map().insert(key@, value@));
                }
            },
        }
    }

    /// Builds the map from entries whose keys are already known distinct.
    pub fn from_pairs(entries: Vec<Attr>) -> (r: AttributeMap)
        requires
            forall|i: int, j: int|
                0 <= i < j < entries@.len() ==> (#[trigger] entries@[i]).key@ != (
                #[trigger] entries@[j]).key@,
        ensures
            r@ == pairs_view(entries@),
            r.wf(),
    {
        let r = AttributeMap { entries };
        proof {
            assert(forall|i: int|
                0 <= i < r@.len() ==> (#[trigger] r@[i]).0 == r.entries@[i].key@);
        }
        r
    }

    /// A copy of the entries, in insertion order.
    pub fn to_pairs(&self) -> (r: Vec<Attr>)
        ensures
            pairs_view(r@) == self@,
    {
        let mut out: Vec<Attr> = Vec::new();
        let n = self.entries.len();
        for i in 0..n
            invariant
                n == self@.len(),
                out@.len() == i,
                forall|j: int| 0 <= j < i ==> (#[trigger] out@[j])@ == self@[j],
        {
            out.push(self.entries[i].duplicate());
        }
        proof {
            assert(pairs_view(out@) =~= self@);
        }
        out
    }

    pub fn duplicate(&self) -> (r: AttributeMap)
        ensures
            r@ == self@,
    {
        AttributeMap { entries: self.to_pairs() }
    }
}

} // verus!
