//! A registry's record set: each ID maps to the path it resolves to, or to
//! nothing (a tombstone). Records are kept sorted by ID, which is the order a
//! registry is written in.
use vstd::prelude::*;
use crate::identity::Id;
use crate::strings::{chars_lt, lemma_chars_lt_transitive, lemma_chars_lt_trichotomy, str_eq, str_lt};

verus! {

/// A record as character sequences: an ID and its path, or `None` for a tombstone.
pub type RecordView = (Seq<char>, Option<Seq<char>>);

/// The view of an optional path.
pub open spec fn opt_view(p: Option<String>) -> Option<Seq<char>> {
    match p {
        Some(s) => Some(s@),
        None => None,
    }
}

/// IDs in strictly increasing order (hence distinct).
pub open spec fn records_sorted(s: Seq<RecordView>) -> bool {
    forall|i: int, j: int| 0 <= i < j < s.len() ==> chars_lt(s[i].0, s[j].0)
}

/// The records as a map from ID to path-or-tombstone.
pub open spec fn records_map(s: Seq<RecordView>) -> Map<Seq<char>, Option<Seq<char>>>
    decreases s.len(),
{
    if s.len() == 0 {
        Map::empty()
    } else {
        records_map(s.drop_last()).insert(s.last().0, s.last().1)
    }
}

/// In sorted records, the map holds exactly the listed IDs, each with its
/// listed value.
pub proof fn lemma_records_map(s: Seq<RecordView>)
    requires
        records_sorted(s),
    ensures
        forall|k: Seq<char>| #[trigger] records_map(s).dom().contains(k) <==> exists|i: int| 0 <= i < s.len() && s[i].0 == k,
        forall|i: int| 0 <= i < s.len() ==> #[trigger] records_map(s)[s[i].0] == s[i].1,
        records_map(s).dom().finite(),
        records_map(s).dom().len() == s.len(),
    decreases s.len(),
{
    if s.len() > 0 {
        let p = s.drop_last();
        assert(records_sorted(p));
        lemma_records_map(p);
        assert forall|i: int| 0 <= i < p.len() implies p[i].0 != s.last().0 by {
            assert(chars_lt(s[i].0, s[s.len() - 1].0));
            lemma_chars_lt_trichotomy(s[i].0, s.last().0);
        }
        assert(!records_map(p).dom().contains(s.last().0));
        assert forall|k: Seq<char>| #[trigger] records_map(s).dom().contains(k) <==> exists|i: int| 0 <= i < s.len() && s[i].0 == k by {
            if records_map(s).dom().contains(k) && k != s.last().0 {
                let i = choose|i: int| 0 <= i < p.len() && p[i].0 == k;
                assert(s[i] == p[i]);
            }
            if exists|i: int| 0 <= i < s.len() && s[i].0 == k {
                let i = choose|i: int| 0 <= i < s.len() && s[i].0 == k;
                if i < p.len() {
                    assert(p[i] == s[i]);
                }
            }
        }
        assert forall|i: int| 0 <= i < s.len() implies #[trigger] records_map(s)[s[i].0] == s[i].1 by {
            if i < p.len() {
                assert(p[i] == s[i]);
                assert(records_map(p)[p[i].0] == p[i].1);
            }
        }
    }
}

/// Sorted records are determined by their map: two sorted lists with the same
/// map are the same list.
pub proof fn lemma_records_canonical(s: Seq<RecordView>, t: Seq<RecordView>)
    requires
        records_sorted(s),
        records_sorted(t),
        records_map(s) == records_map(t),
    ensures
        s == t,
    decreases s.len(),
{
    lemma_records_map(s);
    lemma_records_map(t);
    if s.len() > 0 {
        let ks = s.last().0;
        let kt = t.last().0;
        assert(t.len() == s.len());
        assert(records_map(t).dom().contains(ks));
        assert(records_map(s).dom().contains(kt));
        let i = choose|i: int| 0 <= i < t.len() && t[i].0 == ks;
        let j = choose|j: int| 0 <= j < s.len() && s[j].0 == kt;
        if ks != kt {
            if i < t.len() - 1 {
                assert(chars_lt(t[i].0, t[t.len() - 1].0));
            }
            if j < s.len() - 1 {
                assert(chars_lt(s[j].0, s[s.len() - 1].0));
            }
            lemma_chars_lt_trichotomy(ks, kt);
            assert(false);
        }
        assert(records_map(s)[ks] == s.last().1);
        assert(records_map(t)[kt] == t.last().1);
        let ps = s.drop_last();
        let pt = t.drop_last();
        assert(records_sorted(ps));
        assert(records_sorted(pt));
        lemma_records_map(ps);
        lemma_records_map(pt);
        assert forall|a: int| 0 <= a < ps.len() implies ps[a].0 != ks by {
            assert(chars_lt(s[a].0, s[s.len() - 1].0));
            lemma_chars_lt_trichotomy(s[a].0, ks);
        }
        assert forall|a: int| 0 <= a < pt.len() implies pt[a].0 != ks by {
            assert(chars_lt(t[a].0, t[t.len() - 1].0));
            lemma_chars_lt_trichotomy(t[a].0, ks);
        }
        assert(records_map(ps) =~= records_map(s).remove(ks));
        assert(records_map(pt) =~= records_map(t).remove(ks));
        lemma_records_canonical(ps, pt);
        assert(s =~= ps.push(s.last()));
        assert(t =~= pt.push(t.last()));
    } else {
        assert(t.len() == 0);
        assert(s =~= t);
    }
}

/// Records keyed by ID, sorted by ID.
#[derive(Debug, Clone)]
pub struct RecordSet {
    entries: Vec<(Id, Option<String>)>,
}

impl RecordSet {
    /// The records, in ID order.
    pub closed spec fn view(&self) -> Seq<RecordView> {
        self.entries@.map_values(|e: (Id, Option<String>)| (e.0@, opt_view(e.1)))
    }

    /// The records are sorted by ID.
    pub open spec fn wf(&self) -> bool {
        records_sorted(self.view())
    }

    /// No records.
    pub fn new() -> (r: Self)
        ensures
            r.wf(),
            r.view() == Seq::<RecordView>::empty(),
    {
        let r = RecordSet { entries: Vec::new() };
        proof {
            assert(r.view() =~= Seq::<RecordView>::empty());
        }
        r
    }

    /// The records, in ID order.
    pub fn as_slice(&self) -> (r: &[(Id, Option<String>)])
        ensures
            r@.map_values(|e: (Id, Option<String>)| (e.0@, opt_view(e.1))) == self.view(),
    {
        self.entries.as_slice()
    }

    /// The number of records.
    pub fn len(&self) -> (n: usize)
        ensures
            n == self.view().len(),
    {
        self.entries.len()
    }

    /// The value recorded for `id`: `Some(Some(path))`, `Some(None)` for a
    /// tombstone, `None` when `id` has no record.
    pub fn get(&self, id: &Id) -> (r: Option<Option<String>>)
        requires
            self.wf(),
        ensures
            r matches Some(v) ==> records_map(self.view()).dom().contains(id@) && records_map(self.view())[id@] == opt_view(v),
            r is None ==> !records_map(self.view()).dom().contains(id@),
    {
        proof {
            lemma_records_map(self.view());
        }
        proof {
            lemma_records_map(self.view());
        }
        let mut i: usize = 0;
        while i < self.entries.len()
            invariant
                self.wf(),
                records_map(self.view()).dom().contains(id@) <==> exists|j: int| 0 <= j < self.view().len() && self.view()[j].0 == id@,
                i <= self.entries@.len(),
                forall|j: int| 0 <= j < i ==> self.view()[j].0 != id@,
            decreases self.entries@.len() - i,
        {
            proof {
                assert(self.view()[i as int].0 == self.entries@[i as int].0@);
            }
            if str_eq(self.entries[i].0.as_str(), id.as_str()) {
                let v = match &self.entries[i].1 {
                    Some(p) => Some(p.clone()),
                    None => None,
                };
                proof {
                    assert(self.view()[i as int].1 == opt_view(self.entries@[i as int].1));
                    lemma_records_map(self.view());
                    assert(records_map(self.view())[self.view()[i as int].0] == self.view()[i as int].1);
                }
                return Some(v);
            }
            i = i + 1;
        }
        None
    }

    /// Whether two record sets hold the same records.
    pub fn same_as(&self, other: &RecordSet) -> (r: bool)
        ensures
            r == (self.view() == other.view()),
    {
        if self.entries.len() != other.entries.len() {
            proof {
                assert(self.view().len() != other.view().len());
            }
            return false;
        }
        let mut i: usize = 0;
        while i < self.entries.len()
            invariant
                self.entries@.len() == other.entries@.len(),
                i <= self.entries@.len(),
                forall|j: int| 0 <= j < i ==> self.view()[j] == other.view()[j],
            decreases self.entries@.len() - i,
        {
            let a = &self.entries[i];
            let b = &other.entries[i];
            proof {
                assert(self.view()[i as int] == (a.0@, opt_view(a.1)));
                assert(other.view()[i as int] == (b.0@, opt_view(b.1)));
            }
            if !str_eq(a.0.as_str(), b.0.as_str()) {
                proof {
                    assert(self.view()[i as int] != other.view()[i as int]);
                }
                return false;
            }
            let same_value = match (&a.1, &b.1) {
                (Some(x), Some(y)) => str_eq(x.as_str(), y.as_str()),
                (None, None) => true,
                _ => false,
            };
            if !same_value {
                proof {
                    assert(self.view()[i as int] != other.view()[i as int]);
                }
                return false;
            }
            i = i + 1;
        }
        proof {
            assert(self.view() =~= other.view());
        }
        true
    }

    /// Record `value` for `id`, replacing any record it has.
    pub fn upsert(&mut self, id: &Id, value: Option<String>)
        requires
            old(self).wf(),
        ensures
            final(self).wf(),
            records_map(final(self).view()) == records_map(old(self).view()).insert(id@, opt_view(value)),
    {
        let ghost s0 = self.view();
        let ghost e = (id@, opt_view(value));
        proof {
            lemma_records_map(s0);
        }
        let mut p: usize = 0;
        while p < self.entries.len() && str_lt(self.entries[p].0.as_str(), id.as_str())
            invariant
                self.view() == s0,
                records_sorted(s0),
                p <= s0.len(),
                forall|a: int| 0 <= a < p ==> chars_lt(#[trigger] s0[a].0, id@),
            decreases s0.len() - p,
        {
            proof {
                assert(s0[p as int].0 == self.entries@[p as int].0@);
            }
            p = p + 1;
        }
        proof {
            if p < s0.len() {
                assert(s0[p as int].0 == self.entries@[p as int].0@);
            }
        }
        if p < self.entries.len() && str_eq(self.entries[p].0.as_str(), id.as_str()) {
            self.entries.set(p, (id.clone_id(), value));
            proof {
                assert(self.view() =~= s0.update(p as int, e));
                let s1 = self.view();
                assert forall|a: int, b: int| 0 <= a < b < s1.len() implies chars_lt(s1[a].0, s1[b].0) by {
                    assert(s1[a].0 == s0[a].0);
                    assert(s1[b].0 == s0[b].0);
                }
                lemma_records_map(s1);
                assert(records_map(s1) =~= records_map(s0).insert(id@, opt_view(value))) by {
                    assert forall|k: Seq<char>| records_map(s1).dom().contains(k) <==> records_map(s0).insert(id@, opt_view(value)).dom().contains(k) by {
                        if records_map(s0).dom().contains(k) {
                            let i = choose|i: int| 0 <= i < s0.len() && s0[i].0 == k;
                            assert(s1[i].0 == k);
                        }
                        if records_map(s1).dom().contains(k) {
                            let i = choose|i: int| 0 <= i < s1.len() && s1[i].0 == k;
                            assert(s0[i].0 == k);
                        }
                        if k == id@ {
                            assert(s1[p as int].0 == k);
                        }
                    }
                    assert forall|k: Seq<char>| records_map(s1).dom().contains(k) implies records_map(s1)[k] == records_map(s0).insert(id@, opt_view(value))[k] by {
                        let i = choose|i: int| 0 <= i < s1.len() && s1[i].0 == k;
                        assert(records_map(s1)[s1[i].0] == s1[i].1);
                        if i != p {
                            assert(records_map(s0)[s0[i].0] == s0[i].1);
                            lemma_chars_lt_trichotomy(s0[i].0, s0[p as int].0);
                            if i < p {
                                assert(chars_lt(s0[i].0, s0[p as int].0));
                            } else {
                                assert(chars_lt(s0[p as int].0, s0[i].0));
                            }
                        }
                    }
                }
            }
        } else {
            self.entries.insert(p, (id.clone_id(), value));
            proof {
                assert(self.view() =~= s0.insert(p as int, e));
                let s1 = self.view();
                if p < s0.len() {
                    lemma_chars_lt_trichotomy(s0[p as int].0, id@);
                }
                assert forall|a: int, b: int| 0 <= a < b < s1.len() implies chars_lt(s1[a].0, s1[b].0) by {
                    if b < p {
                        assert(s1[a] == s0[a] && s1[b] == s0[b]);
                    } else if a > p {
                        assert(s1[a] == s0[a - 1] && s1[b] == s0[b - 1]);
                    } else if a == p {
                        assert(s1[b] == s0[b - 1]);
                        if b - 1 > p {
                            lemma_chars_lt_transitive(id@, s0[p as int].0, s0[b - 1].0);
                        }
                    } else if b == p {
                        assert(s1[a] == s0[a]);
                    } else {
                        assert(s1[a] == s0[a] && s1[b] == s0[b - 1]);
                        lemma_chars_lt_transitive(s0[a].0, id@, s0[p as int].0);
                        if b - 1 > p {
                            lemma_chars_lt_transitive(s0[a].0, s0[p as int].0, s0[b - 1].0);
                        }
                    }
                }
                lemma_records_map(s1);
                assert forall|a: int| 0 <= a < s0.len() implies s0[a].0 != id@ by {
                    if a < p {
                        lemma_chars_lt_trichotomy(s0[a].0, id@);
                    } else if a > p {
                        lemma_chars_lt_transitive(id@, s0[p as int].0, s0[a].0);
                        lemma_chars_lt_trichotomy(s0[a].0, id@);
                    }
                }
                assert(records_map(s1) =~= records_map(s0).insert(id@, opt_view(value))) by {
                    assert forall|k: Seq<char>| records_map(s1).dom().contains(k) <==> records_map(s0).insert(id@, opt_view(value)).dom().contains(k) by {
                        if records_map(s0).dom().contains(k) {
                            let i = choose|i: int| 0 <= i < s0.len() && s0[i].0 == k;
                            if i < p {
                                assert(s1[i] == s0[i]);
                            } else {
                                assert(s1[i + 1] == s0[i]);
                            }
                        }
                        if records_map(s1).dom().contains(k) && k != id@ {
                            let i = choose|i: int| 0 <= i < s1.len() && s1[i].0 == k;
                            if i < p {
                                assert(s1[i] == s0[i]);
                            } else if i > p {
                                assert(s1[i] == s0[i - 1]);
                            }
                        }
                        if k == id@ {
                            assert(s1[p as int].0 == k);
                        }
                    }
                    assert forall|k: Seq<char>| records_map(s1).dom().contains(k) implies records_map(s1)[k] == records_map(s0).insert(id@, opt_view(value))[k] by {
                        let i = choose|i: int| 0 <= i < s1.len() && s1[i].0 == k;
                        assert(records_map(s1)[s1[i].0] == s1[i].1);
                        if i < p {
                            assert(s1[i] == s0[i]);
                            assert(records_map(s0)[s0[i].0] == s0[i].1);
                        } else if i > p {
                            assert(s1[i] == s0[i - 1]);
                            assert(records_map(s0)[s0[i - 1].0] == s0[i - 1].1);
                        }
                    }
                }
            }
        }
    }
}

} // verus!
