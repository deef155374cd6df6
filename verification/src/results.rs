//! Bookkeeping of batch jobs: which inputs succeeded and which failed, and
//! why.

use vstd::prelude::*;
use crate::string_map::StringMap;

verus! {

/// What hashing one file produced.
#[derive(Clone, Debug)]
pub enum HashOutcome {
    Hashed { path: String, hash: String },
    Failed { path: String, error: String },
}

/// Successful hashes (hash -> file path) and failures (file path -> error).
#[derive(Debug)]
pub struct HashResults {
    pub successes: StringMap,
    pub failures: StringMap,
}

type TextMap = Map<Seq<char>, Seq<char>>;

/// The maps after recording `outcomes` in order, starting from empty maps;
/// a later outcome for the same key replaces an earlier one.
pub open spec fn hash_maps_after(outcomes: Seq<HashOutcome>) -> (TextMap, TextMap)
    decreases outcomes.len(),
{
    if outcomes.len() == 0 {
        (Map::empty(), Map::empty())
    } else {
        let (s, f) = hash_maps_after(outcomes.drop_last());
        match outcomes.last() {
            HashOutcome::Hashed { path, hash } => (s.insert(hash@, path@), f),
            HashOutcome::Failed { path, error } => (s, f.insert(path@, error@)),
        }
    }
}

impl HashResults {
    /// No successes and no failures.
    pub fn new() -> (r: Self)
        ensures
            r.successes@ == TextMap::empty(),
            r.failures@ == TextMap::empty(),
    {
        HashResults { successes: StringMap::new(), failures: StringMap::new() }
    }

    /// Records one outcome: a hash maps to its file, a failed file to its
    /// error.
    pub fn record(&mut self, outcome: HashOutcome)
        ensures
            match outcome {
                HashOutcome::Hashed { path, hash } => {
                    &&& final(self).successes@ == old(self).successes@.insert(hash@, path@)
                    &&& final(self).failures@ == old(self).failures@
                },
                HashOutcome::Failed { path, error } => {
                    &&& final(self).successes@ == old(self).successes@
                    &&& final(self).failures@ == old(self).failures@.insert(path@, error@)
                },
            },
    {
        match outcome {
            HashOutcome::Hashed { path, hash } => self.successes.insert(hash, path),
            HashOutcome::Failed { path, error } => self.failures.insert(path, error),
        }
    }

    /// Gathers the outcomes of a batch, in order.
    pub fn from_outcomes(outcomes: &Vec<HashOutcome>) -> (r: Self)
        ensures
            (r.successes@, r.failures@) == hash_maps_after(outcomes@),
    {
        let mut r = HashResults::new();
        let mut i: usize = 0;
        while i < outcomes.len()
            invariant
                i <= outcomes@.len(),
                (r.successes@, r.failures@) == hash_maps_after(outcomes@.take(i as int)),
            decreases outcomes@.len() - i,
        {
            let copy = match &outcomes[i] {
                HashOutcome::Hashed { path, hash } => HashOutcome::Hashed {
                    path: path.clone(),
                    hash: hash.clone(),
                },
                HashOutcome::Failed { path, error } => HashOutcome::Failed {
                    path: path.clone(),
                    error: error.clone(),
                },
            };
            r.record(copy);
            assert(outcomes@.take(i + 1).drop_last() =~= outcomes@.take(i as int));
            i = i + 1;
        }
        assert(outcomes@.take(outcomes@.len() as int) =~= outcomes@);
        r
    }
}

/// The key an outcome writes and the map it writes it into (`true` for
/// the successes).
pub open spec fn outcome_key(o: HashOutcome) -> (bool, Seq<char>) {
    match o {
        HashOutcome::Hashed { path, hash } => (true, hash@),
        HashOutcome::Failed { path, error } => (false, path@),
    }
}

/// The value an outcome writes.
pub open spec fn outcome_value(o: HashOutcome) -> Seq<char> {
    match o {
        HashOutcome::Hashed { path, hash } => path@,
        HashOutcome::Failed { path, error } => error@,
    }
}

/// Every outcome of a batch is accounted for: a hashed file's digest is a
/// key of the successes and a failed file is a key of the failures; and a
/// key holds the value of the last outcome that wrote it.
pub proof fn every_hash_outcome_is_recorded(outcomes: Seq<HashOutcome>, i: int)
    requires
        0 <= i < outcomes.len(),
    ensures
        ({
            let (s, f) = hash_maps_after(outcomes);
            let (in_successes, key) = outcome_key(outcomes[i]);
            let m = if in_successes {
                s
            } else {
                f
            };
            &&& m.contains_key(key)
            &&& (forall|j: int|
                i < j < outcomes.len() ==> #[trigger] outcome_key(outcomes[j]) != outcome_key(
                    outcomes[i],
                )) ==> m[key] == outcome_value(outcomes[i])
        }),
    decreases outcomes.len(),
{
    if i < outcomes.len() - 1 {
        let p = outcomes.drop_last();
        every_hash_outcome_is_recorded(p, i);
        assert(p[i] == outcomes[i]);
        assert forall|j: int| i < j < p.len() implies #[trigger] outcome_key(p[j]) == outcome_key(
            outcomes[j],
        ) by {
            assert(p[j] == outcomes[j]);
        }
        if forall|j: int|
            i < j < outcomes.len() ==> #[trigger] outcome_key(outcomes[j]) != outcome_key(
                outcomes[i],
            ) {
            assert(outcome_key(outcomes[outcomes.len() - 1]) != outcome_key(outcomes[i]));
        }
    }
}

/// Outcomes that write the same key of the same map write the same value
/// (for instance, the same failing path listed twice).
pub open spec fn outcomes_consistent(outcomes: Seq<HashOutcome>) -> bool {
    forall|i: int, j: int|
        0 <= i < outcomes.len() && 0 <= j < outcomes.len() && outcome_key(#[trigger] outcomes[i])
            == outcome_key(#[trigger] outcomes[j]) ==> outcome_value(outcomes[i]) == outcome_value(
            outcomes[j],
        )
}

/// The successes (`true`) or failures (`false`) map after `outcomes`.
pub open spec fn map_of_kind(outcomes: Seq<HashOutcome>, in_successes: bool) -> Map<
    Seq<char>,
    Seq<char>,
> {
    if in_successes {
        hash_maps_after(outcomes).0
    } else {
        hash_maps_after(outcomes).1
    }
}

proof fn lemma_key_written(outcomes: Seq<HashOutcome>, b: bool, k: Seq<char>)
    requires
        map_of_kind(outcomes, b).contains_key(k),
    ensures
        exists|i: int| 0 <= i < outcomes.len() && outcome_key(#[trigger] outcomes[i]) == (b, k),
    decreases outcomes.len(),
{
    let n = outcomes.len();
    if n > 0 {
        let p = outcomes.drop_last();
        if outcome_key(outcomes[n - 1]) != (b, k) {
            lemma_key_written(p, b, k);
            let i = choose|i: int| 0 <= i < p.len() && outcome_key(#[trigger] p[i]) == (b, k);
            assert(outcomes[i] == p[i]);
        }
    }
}

proof fn lemma_value_of(outcomes: Seq<HashOutcome>, i: int)
    requires
        outcomes_consistent(outcomes),
        0 <= i < outcomes.len(),
    ensures
        map_of_kind(outcomes, outcome_key(outcomes[i]).0).contains_key(outcome_key(outcomes[i]).1),
        map_of_kind(outcomes, outcome_key(outcomes[i]).0)[outcome_key(outcomes[i]).1]
            == outcome_value(outcomes[i]),
    decreases outcomes.len(),
{
    let n = outcomes.len();
    let p = outcomes.drop_last();
    if i == n - 1 {
        every_hash_outcome_is_recorded(outcomes, i);
    } else if outcome_key(outcomes[n - 1]) == outcome_key(outcomes[i]) {
        every_hash_outcome_is_recorded(outcomes, n - 1);
    } else {
        assert(outcomes_consistent(p)) by {
            assert forall|a: int, b: int|
                0 <= a < p.len() && 0 <= b < p.len() && outcome_key(#[trigger] p[a])
                    == outcome_key(#[trigger] p[b]) implies outcome_value(p[a]) == outcome_value(
                p[b],
            ) by {
                assert(p[a] == outcomes[a] && p[b] == outcomes[b]);
            }
        }
        lemma_value_of(p, i);
        assert(p[i] == outcomes[i]);
    }
}

proof fn lemma_consistent_permutation(o1: Seq<HashOutcome>, o2: Seq<HashOutcome>)
    requires
        o1.to_multiset() == o2.to_multiset(),
        outcomes_consistent(o1),
    ensures
        outcomes_consistent(o2),
{
    broadcast use vstd::seq_lib::group_to_multiset_ensures;

    assert forall|a: int, b: int|
        0 <= a < o2.len() && 0 <= b < o2.len() && outcome_key(#[trigger] o2[a]) == outcome_key(
            #[trigger] o2[b],
        ) implies outcome_value(o2[a]) == outcome_value(o2[b]) by {
        assert(o2.contains(o2[a]));
        assert(o2.contains(o2[b]));
        assert(o1.to_multiset().count(o2[a]) > 0);
        assert(o1.to_multiset().count(o2[b]) > 0);
        assert(o1.contains(o2[a]));
        assert(o1.contains(o2[b]));
        let x = choose|x: int| 0 <= x < o1.len() && o1[x] == o2[a];
        let y = choose|y: int| 0 <= y < o1.len() && o1[y] == o2[b];
        assert(outcome_key(o1[x]) == outcome_key(o1[y]));
    }
}

proof fn lemma_map_included(o1: Seq<HashOutcome>, o2: Seq<HashOutcome>, b: bool)
    requires
        o1.to_multiset() == o2.to_multiset(),
        outcomes_consistent(o1),
        outcomes_consistent(o2),
    ensures
        forall|k: Seq<char>|
            #[trigger] map_of_kind(o1, b).contains_key(k) ==> map_of_kind(o2, b).contains_key(k)
                && map_of_kind(o2, b)[k] == map_of_kind(o1, b)[k],
{
    broadcast use vstd::seq_lib::group_to_multiset_ensures;

    assert forall|k: Seq<char>| #[trigger] map_of_kind(o1, b).contains_key(k) implies map_of_kind(
        o2,
        b,
    ).contains_key(k) && map_of_kind(o2, b)[k] == map_of_kind(o1, b)[k] by {
        lemma_key_written(o1, b, k);
        let i = choose|i: int| 0 <= i < o1.len() && outcome_key(#[trigger] o1[i]) == (b, k);
        let x = o1[i];
        assert(o1.contains(x));
        assert(o1.to_multiset().count(x) > 0);
        assert(o2.contains(x));
        let j = choose|j: int| 0 <= j < o2.len() && o2[j] == x;
        lemma_value_of(o1, i);
        lemma_value_of(o2, j);
    }
}

/// The hash report does not depend on the order in which the outcomes
/// arrive: any reordering of outcomes in which a repeated key always carries
/// the same value gives the same successes and failures.
pub proof fn hash_results_ignore_order(o1: Seq<HashOutcome>, o2: Seq<HashOutcome>)
    requires
        o1.to_multiset() == o2.to_multiset(),
        outcomes_consistent(o1),
    ensures
        hash_maps_after(o1) == hash_maps_after(o2),
{
    lemma_consistent_permutation(o1, o2);
    lemma_map_included(o1, o2, true);
    lemma_map_included(o2, o1, true);
    lemma_map_included(o1, o2, false);
    lemma_map_included(o2, o1, false);
    assert(map_of_kind(o1, true) =~= map_of_kind(o2, true));
    assert(map_of_kind(o1, false) =~= map_of_kind(o2, false));
}

} // verus!
