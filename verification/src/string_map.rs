//! A map from strings to strings that remembers the order in which keys
//! first arrived.

use vstd::prelude::*;

verus! {

spec fn distinct_keys(s: Seq<(String, String)>) -> bool {
    forall|i: int, j: int|
        0 <= i < s.len() && 0 <= j < s.len() && i != j ==> (#[trigger] s[i]).0@ != (
        #[trigger] s[j]).0@
}

spec fn seq_has_key(s: Seq<(String, String)>, k: Seq<char>) -> bool {
    exists|i: int| 0 <= i < s.len() && (#[trigger] s[i]).0@ == k
}

spec fn seq_index_of(s: Seq<(String, String)>, k: Seq<char>) -> int {
    choose|i: int| 0 <= i < s.len() && (#[trigger] s[i]).0@ == k
}

spec fn seq_map(s: Seq<(String, String)>) -> Map<Seq<char>, Seq<char>> {
    Map::new(|k: Seq<char>| seq_has_key(s, k), |k: Seq<char>| s[seq_index_of(s, k)].1@)
}

proof fn lemma_index_of(s: Seq<(String, String)>, k: Seq<char>, i: int)
    requires
        distinct_keys(s),
        0 <= i < s.len(),
        s[i].0@ == k,
    ensures
        seq_has_key(s, k),
        seq_index_of(s, k) == i,
        seq_map(s).contains_key(k),
        seq_map(s)[k] == s[i].1@,
{
    assert(seq_has_key(s, k));
    let j = seq_index_of(s, k);
    assert(s[j].0@ == k);
}

/// String-keyed map; each key occurs once, later inserts replace values.
#[derive(Debug)]
pub struct StringMap {
    entries: Vec<(String, String)>,
}

impl View for StringMap {
    type V = Map<Seq<char>, Seq<char>>;

    closed spec fn view(&self) -> Map<Seq<char>, Seq<char>> {
        seq_map(self.entries@)
    }
}

impl StringMap {
    #[verifier::type_invariant]
    closed spec fn keys_distinct(self) -> bool {
        distinct_keys(self.entries@)
    }

    /// An empty map.
    pub fn new() -> (m: Self)
        ensures
            m@ == Map::<Seq<char>, Seq<char>>::empty(),
    {
        let m = StringMap { entries: Vec::new() };
        assert(m@ =~= Map::<Seq<char>, Seq<char>>::empty());
        m
    }

    /// Binds `key` to `value`, replacing any earlier value of `key`.
    pub fn insert(&mut self, key: String, value: String)
        ensures
            final(self)@ == old(self)@.insert(key@, value@),
    {
        proof {
            use_type_invariant(&*self);
        }
        let ghost old_entries = self.entries@;
        let mut entries: Vec<(String, String)> = Vec::new();
        std::mem::swap(&mut entries, &mut self.entries);
        assert(entries@ == old_entries);
        let mut i: usize = 0;
        let mut found = false;
        while i < entries.len()
            invariant_except_break
                i <= entries@.len(),
                entries@ == old_entries,
                forall|t: int| 0 <= t < i ==> (#[trigger] entries@[t]).0@ != key@,
                !found,
            ensures
                i <= entries@.len(),
                entries@ == old_entries,
                found ==> i < entries@.len() && entries@[i as int].0@ == key@,
                !found ==> forall|t: int|
                    0 <= t < entries@.len() ==> (#[trigger] entries@[t]).0@ != key@,
            decreases entries@.len() - i,
        {
            if entries[i].0 == key {
                found = true;
                break;
            }
            i = i + 1;
        }
        let ghost k = key@;
        let ghost v = value@;
        if found {
            entries[i] = (key, value);
            proof {
                let s = entries@;
                assert(distinct_keys(s));
                assert forall|q: Seq<char>| #[trigger]
                    seq_map(s).contains_key(q) == seq_map(old_entries).insert(k, v).contains_key(
                        q,
                    ) by {
                    if seq_has_key(old_entries, q) {
                        let t = seq_index_of(old_entries, q);
                        assert(s[t].0@ == q);
                    }
                    if seq_has_key(s, q) {
                        let t = seq_index_of(s, q);
                        if t != i {
                            assert(old_entries[t].0@ == q);
                        }
                    }
                }
                assert forall|q: Seq<char>| #[trigger]
                    seq_map(s).contains_key(q) implies seq_map(s)[q] == seq_map(
                    old_entries,
                ).insert(k, v)[q] by {
                    let t = seq_index_of(s, q);
                    lemma_index_of(s, q, t);
                    if t != i {
                        lemma_index_of(old_entries, q, t);
                    }
                }
                assert(seq_map(s) =~= seq_map(old_entries).insert(k, v));
            }
        } else {
            entries.push((key, value));
            proof {
                let s = entries@;
                let n = old_entries.len();
                assert(distinct_keys(s));
                assert forall|q: Seq<char>| #[trigger]
                    seq_map(s).contains_key(q) == seq_map(old_entries).insert(k, v).contains_key(
                        q,
                    ) by {
                    if seq_has_key(old_entries, q) {
                        let t = seq_index_of(old_entries, q);
                        assert(s[t].0@ == q);
                    }
                    if q == k {
                        assert(s[n as int].0@ == q);
                    }
                    if seq_has_key(s, q) {
                        let t = seq_index_of(s, q);
                        if t != n {
                            assert(old_entries[t].0@ == q);
                        }
                    }
                }
                assert forall|q: Seq<char>| #[trigger]
                    seq_map(s).contains_key(q) implies seq_map(s)[q] == seq_map(
                    old_entries,
                ).insert(k, v)[q] by {
                    let t = seq_index_of(s, q);
                    lemma_index_of(s, q, t);
                    if t != n {
                        lemma_index_of(old_entries, q, t);
                    }
                }
                assert(seq_map(s) =~= seq_map(old_entries).insert(k, v));
            }
        }
        self.entries = entries;
    }

    /// The value bound to `key`, if any.
    pub fn get(&self, key: &String) -> (res: Option<&String>)
        ensures
            match res {
                Some(v) => self@.contains_key(key@) && self@[key@] == v@,
                None => !self@.contains_key(key@),
            },
    {
        proof {
            use_type_invariant(self);
        }
        let mut i: usize = 0;
        while i < self.entries.len()
            invariant
                i <= self.entries@.len(),
                distinct_keys(self.entries@),
                forall|t: int| 0 <= t < i ==> (#[trigger] self.entries@[t]).0@ != key@,
            decreases self.entries@.len() - i,
        {
            if self.entries[i].0 == *key {
                proof {
                    lemma_index_of(self.entries@, key@, i as int);
                }
                return Some(&self.entries[i].1);
            }
            i = i + 1;
        }
        proof {
            if seq_has_key(self.entries@, key@) {
                let t = seq_index_of(self.entries@, key@);
                assert(self.entries@[t].0@ == key@);
            }
        }
        None
    }

    /// The bindings, each key once.
    pub fn entries(&self) -> (res: &Vec<(String, String)>)
        ensures
            forall|i: int|
                0 <= i < res@.len() ==> self@.contains_key((#[trigger] res@[i]).0@) && self@[res@[i].0@]
                    == res@[i].1@,
            forall|k: Seq<char>|
                self@.contains_key(k) ==> exists|i: int| 0 <= i < res@.len() && (#[trigger] res@[i]).0@ == k,
            forall|i: int, j: int|
                0 <= i < res@.len() && 0 <= j < res@.len() && i != j ==> (#[trigger] res@[i]).0@
                    != (#[trigger] res@[j]).0@,
    {
        proof {
            use_type_invariant(self);
            assert forall|i: int| 0 <= i < self.entries@.len() implies self@.contains_key(
                (#[trigger] self.entries@[i]).0@,
            ) && self@[self.entries@[i].0@] == self.entries@[i].1@ by {
                lemma_index_of(self.entries@, self.entries@[i].0@, i);
            }
            assert forall|k: Seq<char>| self@.contains_key(k) implies exists|i: int|
                0 <= i < self.entries@.len() && (#[trigger] self.entries@[i]).0@ == k by {
                assert(seq_has_key(self.entries@, k));
            }
        }
        &self.entries
    }

    /// Number of keys.
    pub fn len(&self) -> (n: usize)
        ensures
            n == self@.dom().len(),
    {
        proof {
            use_type_invariant(self);
            lemma_map_len(self.entries@);
        }
        self.entries.len()
    }
}

proof fn lemma_map_len(s: Seq<(String, String)>)
    requires
        distinct_keys(s),
    ensures
        seq_map(s).dom().len() == s.len(),
        seq_map(s).dom().finite(),
    decreases s.len(),
{
    if s.len() == 0 {
        assert(seq_map(s).dom() =~= Set::<Seq<char>>::empty());
    } else {
        let p = s.drop_last();
        let k = s.last().0@;
        assert(distinct_keys(p));
        lemma_map_len(p);
        assert forall|q: Seq<char>| #[trigger]
            seq_map(s).dom().contains(q) == seq_map(p).dom().insert(k).contains(q) by {
            if seq_has_key(s, q) {
                let t = seq_index_of(s, q);
                if t < p.len() {
                    assert(p[t].0@ == q);
                }
            }
            if seq_has_key(p, q) {
                let t = seq_index_of(p, q);
                assert(s[t].0@ == q);
            }
            if q == k {
                assert(s[s.len() - 1].0@ == q);
            }
        }
        assert(seq_map(s).dom() =~= seq_map(p).dom().insert(k));
        assert(!seq_map(p).dom().contains(k)) by {
            if seq_has_key(p, k) {
                let t = seq_index_of(p, k);
                assert(s[t].0@ == k);
            }
        }
    }
}

} // verus!
