//! A small string-keyed map over a vector of entries, with its contents as a
//! mathematical `Map` view. Keys are kept distinct.
use vstd::prelude::*;
use crate::strings::str_eq;

verus! {

/// The map a sequence of `(key, value)` entries denotes: later entries override
/// earlier ones (with distinct keys there is nothing to override).
pub open spec fn map_of(s: Seq<(String, String)>) -> Map<Seq<char>, Seq<char>>
    decreases s.len(),
{
    if s.len() == 0 {
        Map::empty()
    } else {
        map_of(s.drop_last()).insert(s.last().0@, s.last().1@)
    }
}

/// No two entries share a key.
pub open spec fn keys_distinct(s: Seq<(String, String)>) -> bool {
    forall|i: int, j: int| 0 <= i < j < s.len() ==> s[i].0@ != s[j].0@
}

/// Whether some entry of `s` carries key `k`.
pub open spec fn has_key(s: Seq<(String, String)>, k: Seq<char>) -> bool {
    exists|i: int| 0 <= i < s.len() && s[i].0@ == k
}

/// With distinct keys, a key is in the map exactly when an entry carries it,
/// and then the map holds that entry's value.
pub proof fn lemma_map_of_lookup(s: Seq<(String, String)>, k: Seq<char>)
    requires
        keys_distinct(s),
    ensures
        map_of(s).dom().contains(k) <==> has_key(s, k),
        forall|i: int| 0 <= i < s.len() && s[i].0@ == k ==> map_of(s)[k] == s[i].1@,
    decreases s.len(),
{
    if s.len() > 0 {
        let t = s.drop_last();
        assert(keys_distinct(t));
        lemma_map_of_lookup(t, k);
        if has_key(t, k) {
            let i = choose|i: int| 0 <= i < t.len() && t[i].0@ == k;
            assert(s[i].0@ == k);
        }
        if has_key(s, k) && s.last().0@ != k {
            let i = choose|i: int| 0 <= i < s.len() && s[i].0@ == k;
            assert(t[i].0@ == k);
        }
    }
}

/// The map of distinct-key entries is finite and has one key per entry.
pub proof fn lemma_map_of_len(s: Seq<(String, String)>)
    requires
        keys_distinct(s),
    ensures
        map_of(s).dom().finite(),
        map_of(s).dom().len() == s.len(),
    decreases s.len(),
{
    if s.len() > 0 {
        let t = s.drop_last();
        assert(keys_distinct(t));
        lemma_map_of_len(t);
        lemma_map_of_lookup(t, s.last().0@);
        if has_key(t, s.last().0@) {
            let i = choose|i: int| 0 <= i < t.len() && t[i].0@ == s.last().0@;
            assert(s[i].0@ == s[s.len() - 1].0@);
        }
    }
}

/// A string-keyed map: distinct keys, each with one value.
#[derive(Debug, Clone)]
pub struct StrMap {
    entries: Vec<(String, String)>,
}

impl StrMap {
    /// The entries, in insertion order.
    pub closed spec fn entries(&self) -> Seq<(String, String)> {
        self.entries@
    }

    /// The map the entries denote.
    pub open spec fn view(&self) -> Map<Seq<char>, Seq<char>> {
        map_of(self.entries())
    }

    /// No two entries share a key.
    pub open spec fn wf(&self) -> bool {
        keys_distinct(self.entries())
    }

    /// An empty map.
    pub fn new() -> (m: Self)
        ensures
            m.wf(),
            m.view() == Map::<Seq<char>, Seq<char>>::empty(),
    {
        StrMap { entries: Vec::new() }
    }

    /// The number of keys.
    pub fn len(&self) -> (n: usize)
        requires
            self.wf(),
        ensures
            n == self.view().dom().len(),
            self.view().dom().finite(),
    {
        proof {
            lemma_map_of_len(self.entries@);
        }
        self.entries.len()
    }

    /// A copy of the entries, in insertion order.
    pub fn entries_clone(&self) -> (r: Vec<(String, String)>)
        ensures
            r@ == self.entries(),
    {
        let mut out: Vec<(String, String)> = Vec::new();
        let mut i: usize = 0;
        while i < self.entries.len()
            invariant
                i <= self.entries@.len(),
                out@ == self.entries@.take(i as int),
            decreases self.entries@.len() - i,
        {
            let k = self.entries[i].0.clone();
            let v = self.entries[i].1.clone();
            out.push((k, v));
            proof {
                assert(out@ =~= self.entries@.take(i + 1));
            }
            i = i + 1;
        }
        proof {
            assert(self.entries@.take(i as int) =~= self.entries@);
        }
        out
    }

    /// The position of the entry keyed `key`, if there is one.
    fn find(&self, key: &str) -> (r: Option<usize>)
        requires
            self.wf(),
        ensures
            r matches Some(i) ==> i < self.entries@.len() && self.entries@[i as int].0@ == key@,
            r is None ==> !has_key(self.entries@, key@),
    {
        let mut i: usize = 0;
        while i < self.entries.len()
            invariant
                i <= self.entries@.len(),
                forall|j: int| 0 <= j < i ==> self.entries@[j].0@ != key@,
            decreases self.entries@.len() - i,
        {
            if str_eq(self.entries[i].0.as_str(), key) {
                return Some(i);
            }
            i = i + 1;
        }
        None
    }

    /// The value stored under `key`, if any.
    pub fn get(&self, key: &str) -> (r: Option<String>)
        requires
            self.wf(),
        ensures
            r matches Some(v) ==> self.view().dom().contains(key@) && v@ == self.view()[key@],
            r is None ==> !self.view().dom().contains(key@),
    {
        proof {
            lemma_map_of_lookup(self.entries@, key@);
        }
        match self.find(key) {
            Some(i) => Some(self.entries[i].1.clone()),
            None => None,
        }
    }

    /// Store `value` under `key`, replacing any value already there.
    pub fn insert(&mut self, key: &str, value: &str)
        requires
            old(self).wf(),
        ensures
            final(self).wf(),
            final(self).view() == old(self).view().insert(key@, value@),
    {
        let ghost s0 = self.entries@;
        proof {
            lemma_map_of_lookup(s0, key@);
        }
        match self.find(key) {
            Some(i) => {
                self.entries.set(i, (key.to_string(), value.to_string()));
                let ghost s1 = self.entries@;
                proof {
                    assert(keys_distinct(s1));
                    let target = map_of(s0).insert(key@, value@);
                    assert forall|q: Seq<char>| #[trigger] map_of(s1).dom().contains(q)
                        == target.dom().contains(q) && (map_of(s1).dom().contains(q)
                        ==> map_of(s1)[q] == target[q]) by {
                        lemma_map_of_lookup(s0, q);
                        lemma_map_of_lookup(s1, q);
                        if q != key@ {
                            if has_key(s0, q) {
                                let j = choose|j: int| 0 <= j < s0.len() && s0[j].0@ == q;
                                assert(s1[j].0@ == q);
                            }
                            if has_key(s1, q) {
                                let j = choose|j: int| 0 <= j < s1.len() && s1[j].0@ == q;
                                assert(s0[j].0@ == q);
                            }
                        } else {
                            assert(s1[i as int].0@ == q);
                        }
                    }
                    assert(map_of(s1) =~= map_of(s0).insert(key@, value@));
                }
            },
            None => {
                self.entries.push((key.to_string(), value.to_string()));
                proof {
                    let s1 = self.entries@;
                    assert(s1.drop_last() =~= s0);
                    assert forall|a: int, b: int| 0 <= a < b < s1.len() implies s1[a].0@
                        != s1[b].0@ by {
                        if b == s1.len() - 1 {
                            assert(s0[a].0@ == s1[a].0@);
                        }
                    }
                }
            },
        }
    }

    /// Remove `key` and return the value it held, if any.
    pub fn remove(&mut self, key: &str) -> (r: Option<String>)
        requires
            old(self).wf(),
        ensures
            final(self).wf(),
            final(self).view() == old(self).view().remove(key@),
            r matches Some(v) ==> old(self).view().dom().contains(key@) && v@ == old(self).view()[key@],
            r is None ==> !old(self).view().dom().contains(key@),
    {
        let ghost s0 = self.entries@;
        proof {
            lemma_map_of_lookup(s0, key@);
        }
        match self.find(key) {
            Some(i) => {
                let (_, v) = self.entries.remove(i);
                let ghost s1 = self.entries@;
                proof {
                    assert(s1 =~= s0.remove(i as int));
                    assert(keys_distinct(s1)) by {
                        assert forall|a: int, b: int| 0 <= a < b < s1.len() implies s1[a].0@
                            != s1[b].0@ by {
                            let a0 = if a < i { a } else { a + 1 };
                            let b0 = if b < i { b } else { b + 1 };
                            assert(s1[a] == s0[a0]);
                            assert(s1[b] == s0[b0]);
                        }
                    }
                    let target = map_of(s0).remove(key@);
                    assert forall|q: Seq<char>| #[trigger] map_of(s1).dom().contains(q)
                        == target.dom().contains(q) && (map_of(s1).dom().contains(q)
                        ==> map_of(s1)[q] == target[q]) by {
                        lemma_map_of_lookup(s0, q);
                        lemma_map_of_lookup(s1, q);
                        if has_key(s0, q) && q != key@ {
                            let j = choose|j: int| 0 <= j < s0.len() && s0[j].0@ == q;
                            let j1 = if j < i { j } else { j - 1 };
                            assert(s1[j1] == s0[j]);
                        }
                        if has_key(s1, q) {
                            let j = choose|j: int| 0 <= j < s1.len() && s1[j].0@ == q;
                            let j0 = if j < i { j } else { j + 1 };
                            assert(s1[j] == s0[j0]);
                        }
                    }
                    assert(map_of(s1) =~= map_of(s0).remove(key@));
                }
                Some(v)
            },
            None => {
                proof {
                    assert(map_of(s0) =~= map_of(s0).remove(key@));
                }
                None
            },
        }
    }
}

} // verus!
