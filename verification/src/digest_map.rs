//! The fingerprint snapshot: an association from relative paths to hex
//! digests, with unique keys, kept in insertion order so that diffing two
//! snapshots produces a deterministic change list.

use vstd::prelude::*;

verus! {

/// A key/digest pair as the specifications see it.
pub type DigestPair = (Seq<char>, Seq<char>);

/// First-match lookup in a sequence of key/value pairs.
pub open spec fn lookup(s: Seq<DigestPair>, k: Seq<char>) -> Option<Seq<char>>
    decreases s.len(),
{
    if s.len() == 0 {
        None
    } else if s[0].0 == k {
        Some(s[0].1)
    } else {
        lookup(s.drop_first(), k)
    }
}

/// All keys of the pair sequence are pairwise distinct.
pub open spec fn keys_distinct(s: Seq<DigestPair>) -> bool {
    forall|i: int, j: int| 0 <= i < j < s.len() ==> s[i].0 != s[j].0
}

/// Insert-or-overwrite on a pair sequence: an existing key keeps its
/// position and receives the new value, a new key is appended.
pub open spec fn spec_put(s: Seq<DigestPair>, k: Seq<char>, v: Seq<char>) -> Seq<DigestPair>
    decreases s.len(),
{
    if s.len() == 0 {
        seq![(k, v)]
    } else if s[0].0 == k {
        seq![(k, v)] + s.drop_first()
    } else {
        seq![s[0]] + spec_put(s.drop_first(), k, v)
    }
}

/// A path-to-digest map backed by a vector of pairs with distinct keys.
#[derive(Debug, Clone)]
pub struct DigestMap {
    entries: Vec<(String, String)>,
}

impl View for DigestMap {
    type V = Seq<DigestPair>;

    closed spec fn view(&self) -> Seq<DigestPair> {
        self.entries@.map_values(|p: (String, String)| (p.0@, p.1@))
    }
}

impl DigestMap {
    /// Snapshot validity: no relative path occurs twice.
    pub open spec fn wf(&self) -> bool {
        keys_distinct(self@)
    }

    /// An empty snapshot.
    pub fn new() -> (r: DigestMap)
        ensures
            r@ == Seq::<DigestPair>::empty(),
            r.wf(),
    {
        let r = DigestMap { entries: Vec::new() };
        assert(r@ =~= Seq::<DigestPair>::empty());
        r
    }

    /// Number of entries.
    pub fn len(&self) -> (n: usize)
        ensures
            n == self@.len(),
    {
        self.entries.len()
    }

    /// The key of the entry at position `i`.
    pub fn key_at(&self, i: usize) -> (k: &String)
        requires
            i < self@.len(),
        ensures
            k@ == self@[i as int].0,
    {
        &self.entries[i].0
    }

    /// The digest of the entry at position `i`.
    pub fn val_at(&self, i: usize) -> (v: &String)
        requires
            i < self@.len(),
        ensures
            v@ == self@[i as int].1,
    {
        &self.entries[i].1
    }

    /// Looks a key up, returning its digest if present.
    pub fn get<'a>(&'a self, k: &String) -> (r: Option<&'a String>)
        ensures
            match r {
                Some(v) => lookup(self@, k@) == Some(v@),
                None => lookup(self@, k@) is None,
            },
    {
        let n = self.entries.len();
        let mut i: usize = 0;
        proof {
            assert(self@.skip(0) =~= self@);
        }
        while i < n
            invariant
                n == self@.len(),
                i <= n,
                lookup(self@, k@) == lookup(self@.skip(i as int), k@),
            decreases n - i,
        {
            if self.entries[i].0.eq(k) {
                proof {
                    assert(self@.skip(i as int)[0] == self@[i as int]);
                    assert(lookup(self@.skip(i as int), k@) == Some(self@[i as int].1));
                }
                return Some(&self.entries[i].1);
            }
            proof {
                assert(self@.skip(i as int)[0] == self@[i as int]);
                assert(self@.skip(i as int).drop_first() =~= self@.skip(i + 1));
            }
            i = i + 1;
        }
        proof {
            assert(self@.skip(n as int) =~= Seq::<DigestPair>::empty());
        }
        None
    }

    /// Whether a key is present.
    pub fn contains_key(&self, k: &String) -> (b: bool)
        ensures
            b == (lookup(self@, k@) is Some),
    {
        self.get(k).is_some()
    }

    /// Inserts a pair; an existing key keeps its position and gets the new
    /// digest, a new key is appended.
    pub fn insert(&mut self, key: String, value: String)
        requires
            old(self).wf(),
        ensures
            final(self)@ == spec_put(old(self)@, key@, value@),
            final(self).wf(),
    {
        let ghost orig = self@;
        let n = self.entries.len();
        let mut i: usize = 0;
        while i < n
            invariant
                n == self@.len(),
                i <= n,
                self@ == orig,
                orig == old(self)@,
                keys_distinct(orig),
                forall|j: int| 0 <= j < i ==> orig[j].0 != key@,
            decreases n - i,
        {
            if self.entries[i].0.eq(&key) {
                proof {
                    lemma_put_at_pub(orig, key@, value@, i as int);
                }
                self.entries.set(i, (key, value));
                proof {
                    assert(self@ =~= orig.update(i as int, (key@, value@)));
                    assert forall|a: int, b: int| 0 <= a < b < self@.len() implies self@[a].0
                        != self@[b].0 by {
                        assert(self@[a].0 == orig[a].0);
                        assert(self@[b].0 == orig[b].0);
                    }
                    assert(keys_distinct(self@));
                }
                return ;
            }
            i = i + 1;
        }
        proof {
            lemma_put_missing_pub(orig, key@, value@);
        }
        self.entries.push((key, value));
        proof {
            assert(self@ =~= orig.push((key@, value@)));
            assert(forall|j: int| 0 <= j < orig.len() ==> self@[j] == orig[j]);
            assert(keys_distinct(self@));
        }
    }
}

/// When the first occurrence of `k` is at position `i`, the overwrite is an
/// in-place update.
pub proof fn lemma_put_at_pub(s: Seq<DigestPair>, k: Seq<char>, v: Seq<char>, i: int)
    requires
        0 <= i < s.len(),
        s[i].0 == k,
        forall|j: int| 0 <= j < i ==> s[j].0 != k,
    ensures
        spec_put(s, k, v) == s.update(i, (k, v)),
    decreases i,
{
    if i == 0 {
        assert(spec_put(s, k, v) =~= s.update(0, (k, v)));
    } else {
        lemma_put_at_pub(s.drop_first(), k, v, i - 1);
        assert(spec_put(s, k, v) =~= s.update(i, (k, v)));
    }
}

/// When `k` is absent, the overwrite is an append.
pub proof fn lemma_put_missing_pub(s: Seq<DigestPair>, k: Seq<char>, v: Seq<char>)
    requires
        forall|j: int| 0 <= j < s.len() ==> s[j].0 != k,
    ensures
        spec_put(s, k, v) == s.push((k, v)),
    decreases s.len(),
{
    if s.len() == 0 {
        assert(spec_put(s, k, v) =~= s.push((k, v)));
    } else {
        lemma_put_missing_pub(s.drop_first(), k, v);
        assert(spec_put(s, k, v) =~= s.push((k, v)));
    }
}

/// With distinct keys, looking an entry's own key up finds that entry.
pub proof fn lemma_lookup_at_index(s: Seq<DigestPair>, i: int)
    requires
        keys_distinct(s),
        0 <= i < s.len(),
    ensures
        lookup(s, s[i].0) == Some(s[i].1),
    decreases i,
{
    if i == 0 {
    } else {
        assert(s[0].0 != s[i].0);
        assert forall|a: int, b: int|
            0 <= a < b < s.drop_first().len() implies s.drop_first()[a].0 != s.drop_first()[b].0
            by {
            assert(s.drop_first()[a] == s[a + 1]);
            assert(s.drop_first()[b] == s[b + 1]);
        }
        lemma_lookup_at_index(s.drop_first(), i - 1);
        assert(s.drop_first()[i - 1] == s[i]);
    }
}

/// `lookup` after an overwrite behaves like a map update.
pub proof fn lemma_lookup_put(s: Seq<DigestPair>, k: Seq<char>, v: Seq<char>, q: Seq<char>)
    ensures
        lookup(spec_put(s, k, v), q) == if q == k {
            Some(v)
        } else {
            lookup(s, q)
        },
    decreases s.len(),
{
    if s.len() == 0 {
        assert(spec_put(s, k, v) == seq![(k, v)]);
        assert(spec_put(s, k, v)[0] == (k, v));
        assert(spec_put(s, k, v).drop_first() =~= Seq::<DigestPair>::empty());
        if q == k {
            assert(lookup(spec_put(s, k, v), q) == Some(v));
        } else {
            assert(lookup(spec_put(s, k, v), q) == lookup(spec_put(s, k, v).drop_first(), q));
            assert(lookup(Seq::<DigestPair>::empty(), q) is None);
        }
    } else if s[0].0 == k {
        assert(spec_put(s, k, v)[0] == (k, v));
        assert(spec_put(s, k, v).drop_first() =~= s.drop_first());
        if q == k {
            assert(lookup(spec_put(s, k, v), q) == Some(v));
        } else {
            assert(lookup(spec_put(s, k, v), q) == lookup(s.drop_first(), q));
            assert(lookup(s, q) == lookup(s.drop_first(), q));
        }
    } else {
        lemma_lookup_put(s.drop_first(), k, v, q);
        assert(spec_put(s, k, v)[0] == s[0]);
        assert(spec_put(s, k, v).drop_first() =~= spec_put(s.drop_first(), k, v));
        if s[0].0 == q {
            assert(lookup(spec_put(s, k, v), q) == Some(s[0].1));
            assert(lookup(s, q) == Some(s[0].1));
        } else {
            assert(lookup(spec_put(s, k, v), q) == lookup(spec_put(s.drop_first(), k, v), q));
            assert(lookup(s, q) == lookup(s.drop_first(), q));
        }
    }
}

} // verus!
