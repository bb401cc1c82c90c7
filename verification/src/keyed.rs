//! A small map keyed by pet id, kept as a list of distinct keys.
use vstd::prelude::*;

use crate::search::contains_token;
use crate::stream::string_views;
use crate::text::str_eq;

verus! {

/// Entries with distinct keys.
pub struct KeyedList<V> {
    pub entries: Vec<(String, V)>,
}

pub open spec fn keys_distinct<V>(s: Seq<(String, V)>) -> bool {
    forall|i: int, j: int| 0 <= i < j < s.len() ==> (#[trigger] s[i]).0@ != (#[trigger] s[j]).0@
}

pub open spec fn has_key<V>(s: Seq<(String, V)>, k: Seq<char>) -> bool {
    exists|i: int| 0 <= i < s.len() && (#[trigger] s[i]).0@ == k
}

pub open spec fn value_for<V>(s: Seq<(String, V)>, k: Seq<char>) -> V {
    s[choose|i: int| 0 <= i < s.len() && (#[trigger] s[i]).0@ == k].1
}

/// The map that a list of distinct keys stands for.
pub open spec fn as_map<V>(s: Seq<(String, V)>) -> Map<Seq<char>, V> {
    Map::new(|k: Seq<char>| has_key(s, k), |k: Seq<char>| value_for(s, k))
}

/// The texts stored under each key.
pub open spec fn text_map(m: Map<Seq<char>, String>) -> Map<Seq<char>, Seq<char>> {
    m.map_values(|s: String| s@)
}

pub proof fn lemma_value_at<V>(s: Seq<(String, V)>, i: int)
    requires
        keys_distinct(s),
        0 <= i < s.len(),
    ensures
        has_key(s, s[i].0@),
        value_for(s, s[i].0@) == s[i].1,
        as_map(s).contains_key(s[i].0@),
        as_map(s)[s[i].0@] == s[i].1,
{
    let k = s[i].0@;
    assert(has_key(s, k));
    let j = choose|j: int| 0 <= j < s.len() && (#[trigger] s[j]).0@ == k;
    if j < i {
        assert(s[j].0@ != s[i].0@);
    } else if j > i {
        assert(s[i].0@ != s[j].0@);
    }
}

impl<V> KeyedList<V> {
    pub open spec fn wf(&self) -> bool {
        keys_distinct(self.entries@)
    }

    pub open spec fn map(&self) -> Map<Seq<char>, V> {
        as_map(self.entries@)
    }

    pub fn new() -> (t: Self)
        ensures
            t.wf(),
            t.map() == Map::<Seq<char>, V>::empty(),
    {
        let t = KeyedList { entries: Vec::new() };
        assert(t.map() =~= Map::<Seq<char>, V>::empty());
        t
    }

    /// The position of `key`.
    pub fn position(&self, key: &str) -> (res: Option<usize>)
        requires
            self.wf(),
        ensures
            match res {
                Some(i) => i < self.entries@.len() && self.entries@[i as int].0@ == key@,
                None => !self.map().contains_key(key@),
            },
    {
        let mut i: usize = 0;
        while i < self.entries.len()
            invariant
                0 <= i <= self.entries@.len(),
                forall|j: int| 0 <= j < i ==> (#[trigger] self.entries@[j]).0@ != key@,
            decreases self.entries@.len() - i,
        {
            if str_eq(self.entries[i].0.as_str(), key) {
                return Some(i);
            }
            i = i + 1;
        }
        None
    }

    /// Whether `key` has an entry.
    pub fn contains(&self, key: &str) -> (b: bool)
        requires
            self.wf(),
        ensures
            b == self.map().contains_key(key@),
    {
        match self.position(key) {
            Some(i) => {
                proof {
                    lemma_value_at(self.entries@, i as int);
                }
                true
            },
            None => false,
        }
    }

    /// The value stored under `key`.
    pub fn get(&self, key: &str) -> (res: Option<&V>)
        requires
            self.wf(),
        ensures
            match res {
                Some(v) => self.map().contains_key(key@) && self.map()[key@] == *v,
                None => !self.map().contains_key(key@),
            },
    {
        match self.position(key) {
            Some(i) => {
                proof {
                    lemma_value_at(self.entries@, i as int);
                }
                Some(&self.entries[i].1)
            },
            None => None,
        }
    }

    /// Whether no key has an entry.
    pub fn is_empty(&self) -> (b: bool)
        ensures
            b == (self.map().dom() == Set::<Seq<char>>::empty()),
    {
        if self.entries.len() == 0 {
            assert(self.map().dom() =~= Set::<Seq<char>>::empty());
            true
        } else {
            assert(self.map().dom().contains(self.entries@[0].0@)) by {
                assert(has_key(self.entries@, self.entries@[0].0@));
            }
            false
        }
    }

    /// `HashMap::insert`: stores `value` under `key`; says whether the key
    /// was new.
    pub fn insert(&mut self, key: String, value: V) -> (was_new: bool)
        requires
            old(self).wf(),
        ensures
            final(self).wf(),
            final(self).map() == old(self).map().insert(key@, value),
            was_new == !old(self).map().contains_key(key@),
    {
        let ghost k = key@;
        let ghost old_s = self.entries@;
        match self.position(key.as_str()) {
            Some(i) => {
                proof {
                    lemma_value_at(old_s, i as int);
                }
                self.entries.set(i, (key, value));
                proof {
                    let s = self.entries@;
                    assert(keys_distinct(s)) by {
                        assert forall|a: int, b: int| 0 <= a < b < s.len() implies (
                        #[trigger] s[a]).0@ != (#[trigger] s[b]).0@ by {
                            assert(old_s[a].0@ != old_s[b].0@);
                        }
                    }
                    assert forall|q: Seq<char>| #[trigger] has_key(s, q) == has_key(old_s, q) by {
                        if has_key(old_s, q) {
                            let j = choose|j: int| 0 <= j < old_s.len() && (#[trigger] old_s[j]).0@ == q;
                            assert(s[j].0@ == q);
                        }
                        if has_key(s, q) {
                            let j = choose|j: int| 0 <= j < s.len() && (#[trigger] s[j]).0@ == q;
                            assert(old_s[j].0@ == q);
                        }
                    }
                    assert forall|q: Seq<char>| has_key(s, q) implies #[trigger] value_for(s, q)
                        == if q == k {
                        value
                    } else {
                        value_for(old_s, q)
                    } by {
                        let j = choose|j: int| 0 <= j < s.len() && (#[trigger] s[j]).0@ == q;
                        lemma_value_at(s, j);
                        if q != k {
                            assert(old_s[j] == s[j]);
                            lemma_value_at(old_s, j);
                        } else {
                            lemma_value_at(s, i as int);
                        }
                    }
                    assert(as_map(s) =~= as_map(old_s).insert(k, value));
                }
                false
            },
            None => {
                self.entries.push((key, value));
                proof {
                    let s = self.entries@;
                    let n = old_s.len() as int;
                    assert(!has_key(old_s, k));
                    assert(keys_distinct(s)) by {
                        assert forall|a: int, b: int| 0 <= a < b < s.len() implies (
                        #[trigger] s[a]).0@ != (#[trigger] s[b]).0@ by {
                            if b == n {
                                assert(old_s[a].0@ != k);
                            } else {
                                assert(old_s[a].0@ != old_s[b].0@);
                            }
                        }
                    }
                    assert forall|q: Seq<char>| #[trigger] has_key(s, q) == (has_key(old_s, q) || q
                        == k) by {
                        if has_key(old_s, q) {
                            let j = choose|j: int| 0 <= j < old_s.len() && (#[trigger] old_s[j]).0@ == q;
                            assert(s[j].0@ == q);
                        }
                        if q == k {
                            assert(s[n].0@ == q);
                        }
                        if has_key(s, q) && q != k {
                            let j = choose|j: int| 0 <= j < s.len() && (#[trigger] s[j]).0@ == q;
                            assert(j < n);
                            assert(old_s[j].0@ == q);
                        }
                    }
                    assert forall|q: Seq<char>| has_key(s, q) implies #[trigger] value_for(s, q)
                        == if q == k {
                        value
                    } else {
                        value_for(old_s, q)
                    } by {
                        let j = choose|j: int| 0 <= j < s.len() && (#[trigger] s[j]).0@ == q;
                        lemma_value_at(s, j);
                        if q != k {
                            assert(j < n);
                            assert(old_s[j] == s[j]);
                            lemma_value_at(old_s, j);
                        } else {
                            lemma_value_at(s, n);
                        }
                    }
                    assert(as_map(s) =~= as_map(old_s).insert(k, value));
                }
                true
            },
        }
    }

    /// `HashMap::remove`: takes the value stored under `key` out.
    pub fn remove(&mut self, key: &str) -> (res: Option<V>)
        requires
            old(self).wf(),
        ensures
            final(self).wf(),
            final(self).map() == old(self).map().remove(key@),
            match res {
                Some(v) => old(self).map().contains_key(key@) && old(self).map()[key@] == v,
                None => !old(self).map().contains_key(key@),
            },
    {
        let ghost k = key@;
        let ghost old_s = self.entries@;
        match self.position(key) {
            Some(i) => {
                proof {
                    lemma_value_at(old_s, i as int);
                }
                let (_, v) = self.entries.remove(i);
                proof {
                    let s = self.entries@;
                    assert(s =~= old_s.remove(i as int));
                    assert forall|j: int| 0 <= j < s.len() implies #[trigger] s[j] == if j < i {
                        old_s[j]
                    } else {
                        old_s[j + 1]
                    } by {}
                    assert(keys_distinct(s)) by {
                        assert forall|a: int, b: int| 0 <= a < b < s.len() implies (
                        #[trigger] s[a]).0@ != (#[trigger] s[b]).0@ by {
                            let a2 = if a < i {
                                a
                            } else {
                                a + 1
                            };
                            let b2 = if b < i {
                                b
                            } else {
                                b + 1
                            };
                            assert(old_s[a2].0@ != old_s[b2].0@);
                        }
                    }
                    assert forall|q: Seq<char>| #[trigger] has_key(s, q) == (has_key(old_s, q) && q
                        != k) by {
                        if has_key(s, q) {
                            let j = choose|j: int| 0 <= j < s.len() && (#[trigger] s[j]).0@ == q;
                            let j2 = if j < i {
                                j
                            } else {
                                j + 1
                            };
                            assert(old_s[j2].0@ == q);
                            assert(j2 != i);
                            if q == k {
                                if j2 < i {
                                    assert(old_s[j2].0@ != old_s[i as int].0@);
                                } else {
                                    assert(old_s[i as int].0@ != old_s[j2].0@);
                                }
                            }
                        }
                        if has_key(old_s, q) && q != k {
                            let j = choose|j: int| 0 <= j < old_s.len() && (#[trigger] old_s[j]).0@ == q;
                            assert(j != i);
                            let j2 = if j < i {
                                j
                            } else {
                                j - 1
                            };
                            assert(s[j2].0@ == q);
                        }
                    }
                    assert forall|q: Seq<char>| has_key(s, q) implies #[trigger] value_for(s, q)
                        == value_for(old_s, q) by {
                        let j = choose|j: int| 0 <= j < s.len() && (#[trigger] s[j]).0@ == q;
                        lemma_value_at(s, j);
                        let j2 = if j < i {
                            j
                        } else {
                            j + 1
                        };
                        assert(old_s[j2] == s[j]);
                        lemma_value_at(old_s, j2);
                    }
                    assert(as_map(s) =~= as_map(old_s).remove(k));
                }
                Some(v)
            },
            None => {
                assert(as_map(old_s) =~= as_map(old_s).remove(k));
                None
            },
        }
    }

    /// `HashMap::retain` by key: keeps the entries whose key is in `keep`.
    pub fn retain_keys(&mut self, keep: &Vec<String>)
        requires
            old(self).wf(),
        ensures
            final(self).wf(),
            final(self).map() == old(self).map().restrict(string_views(keep@).to_set()),
    {
        let ghost old_s = self.entries@;
        let ghost ks = string_views(keep@).to_set();
        let ghost om = as_map(old_s);
        let mut rest: Vec<(String, V)> = Vec::new();
        std::mem::swap(&mut rest, &mut self.entries);
        let mut kept: KeyedList<V> = KeyedList::new();
        let total: usize = rest.len();
        let mut i: usize = 0;
        while rest.len() > 0
            invariant
                total == old_s.len(),
                ks == string_views(keep@).to_set(),
                rest@ == old_s.skip(i as int),
                i <= old_s.len(),
                keys_distinct(old_s),
                om == as_map(old_s),
                kept.wf(),
                kept.map() =~= Map::new(
                    |q: Seq<char>|
                        ks.contains(q) && exists|b: int|
                            0 <= b < i && (#[trigger] old_s[b]).0@ == q,
                    |q: Seq<char>| om[q],
                ),
            decreases rest@.len(),
        {
            let entry = rest.remove(0);
            let ghost e = entry;
            assert(e == old_s[i as int]);
            proof {
                lemma_value_at(old_s, i as int);
            }
            let name: &str = entry.0.as_str();
            let keep_it = contains_token(keep, name);
            assert(name@ == e.0@);
            assert(keep_it == string_views(keep@).contains(name@));
            let ghost before = kept.map();
            if keep_it {
                kept.insert(entry.0, entry.1);
            }
            proof {
                let target = Map::new(
                    |q: Seq<char>|
                        ks.contains(q) && exists|b: int|
                            0 <= b < i + 1 && (#[trigger] old_s[b]).0@ == q,
                    |q: Seq<char>| om[q],
                );
                assert(keep_it == string_views(keep@).contains(e.0@));
                assert(ks.contains(e.0@) == string_views(keep@).contains(e.0@));
                assert(keep_it == ks.contains(e.0@));
                if keep_it {
                    assert(kept.map() == before.insert(e.0@, e.1));
                } else {
                    assert(kept.map() == before);
                }
                assert forall|q: Seq<char>| #[trigger] target.contains_key(q) == kept.map().contains_key(q) by {
                    if exists|b: int| 0 <= b < i + 1 && (#[trigger] old_s[b]).0@ == q {
                        let b = choose|b: int| 0 <= b < i + 1 && (#[trigger] old_s[b]).0@ == q;
                        if b < i {
                            assert(exists|c: int| 0 <= c < i && (#[trigger] old_s[c]).0@ == q);
                        }
                    }
                    if exists|b: int| 0 <= b < i && (#[trigger] old_s[b]).0@ == q {
                        let b = choose|b: int| 0 <= b < i && (#[trigger] old_s[b]).0@ == q;
                        assert(0 <= b < i + 1 && old_s[b].0@ == q);
                    }
                    assert(0 <= i < i + 1 && old_s[i as int].0@ == e.0@);
                }
                assert(kept.map() =~= target);
            }
            assert(rest@ =~= old_s.skip(i + 1));
            i = i + 1;
        }
        assert(i == old_s.len());
        self.entries = kept.entries;
        proof {
            let r = om.restrict(ks);
            assert forall|q: Seq<char>| #[trigger] r.contains_key(q) == self.map().contains_key(q) by {
                if om.contains_key(q) {
                    let b = choose|b: int| 0 <= b < old_s.len() && (#[trigger] old_s[b]).0@ == q;
                    assert(0 <= b < i && old_s[b].0@ == q);
                }
                if exists|b: int| 0 <= b < i && (#[trigger] old_s[b]).0@ == q {
                    assert(has_key(old_s, q));
                }
            }
            assert(self.map() =~= r);
        }
    }
}

} // verus!
