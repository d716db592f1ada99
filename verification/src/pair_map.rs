//! A map keyed by a pair of strings.
//!
//! Names and emails come in pairs, and both the mailmap and the author cache
//! look values up by such a pair. Entries are kept in the order they were
//! inserted and found through an index on the pair's second half, so that a
//! lookup only compares the first halves of the entries that share it.

use vstd::prelude::*;
use vstd::hash_map::StringHashMap;

verus! {

/// A pair of texts, the key of a [`PairMap`].
pub type PairKey = (Seq<char>, Seq<char>);

/// One inserted entry.
struct Entry<V> {
    first: String,
    second: String,
    value: V,
}

impl<V> Entry<V> {
    /// The pair that the entry is found by.
    spec fn key(self) -> PairKey {
        (self.first@, self.second@)
    }
}

/// The map that a sequence of insertions makes: a later entry replaces an
/// earlier one with the same key.
spec fn entries_map<V>(s: Seq<Entry<V>>) -> Map<PairKey, V>
    decreases s.len(),
{
    if s.len() == 0 {
        Map::empty()
    } else {
        entries_map(s.drop_last()).insert(s.last().key(), s.last().value)
    }
}

/// The value of a key is that of the last entry inserted under it.
proof fn lemma_last_entry_wins<V>(s: Seq<Entry<V>>, i: int)
    requires
        0 <= i < s.len(),
        forall|j: int| i < j < s.len() ==> s[j].key() != s[i].key(),
    ensures
        entries_map(s).contains_key(s[i].key()),
        entries_map(s)[s[i].key()] == s[i].value,
    decreases s.len(),
{
    if i < s.len() - 1 {
        lemma_last_entry_wins(s.drop_last(), i);
    }
}

/// A key that no entry was inserted under is not in the map.
proof fn lemma_no_entry_no_key<V>(s: Seq<Entry<V>>, k: PairKey)
    requires
        forall|j: int| 0 <= j < s.len() ==> s[j].key() != k,
    ensures
        !entries_map(s).contains_key(k),
    decreases s.len(),
{
    if s.len() > 0 {
        lemma_no_entry_no_key(s.drop_last(), k);
    }
}

/// Whether `index` lists, under each second half and in rising order, the
/// positions of exactly the entries that carry it.
spec fn index_of<V>(entries: Seq<Entry<V>>, index: Map<Seq<char>, Vec<usize>>) -> bool {
    &&& forall|e: Seq<char>, j: int|
        index.contains_key(e) && 0 <= j < index[e]@.len() ==> {
            &&& (#[trigger] index[e]@[j]) < entries.len()
            &&& entries[index[e]@[j] as int].second@ == e
        }
    &&& forall|e: Seq<char>, j: int, k: int|
        index.contains_key(e) && 0 <= j < k < index[e]@.len() ==> (#[trigger] index[e]@[j]) < (
        #[trigger] index[e]@[k])
    &&& forall|i: int|
        0 <= i < entries.len() ==> {
            &&& index.contains_key((#[trigger] entries[i]).second@)
            &&& index[entries[i].second@]@.contains(i as usize)
        }
}

/// A map from pairs of strings to values of `V`.
#[verifier::reject_recursive_types(V)]
pub struct PairMap<V> {
    entries: Vec<Entry<V>>,
    index: StringHashMap<Vec<usize>>,
}

impl<V> View for PairMap<V> {
    type V = Map<PairKey, V>;

    closed spec fn view(&self) -> Map<PairKey, V> {
        entries_map(self.entries@)
    }
}

impl<V> PairMap<V> {
    #[verifier::type_invariant]
    closed spec fn indexed(&self) -> bool {
        index_of(self.entries@, self.index@)
    }

    /// A map that holds nothing.
    pub fn new() -> (m: Self)
        ensures
            m@ == Map::<PairKey, V>::empty(),
    {
        PairMap { entries: Vec::new(), index: StringHashMap::new() }
    }

    /// The value stored under `(first, second)`, if there is one.
    pub fn get(&self, first: &str, second: &str) -> (r: Option<&V>)
        ensures
            match r {
                Some(v) => self@.contains_key((first@, second@)) && *v == self@[(first@, second@)],
                None => !self@.contains_key((first@, second@)),
            },
    {
        proof {
            use_type_invariant(self);
        }
        let ghost k: PairKey = (first@, second@);
        let bucket = match self.index.get(second) {
            Some(b) => b,
            None => {
                proof {
                    lemma_no_entry_no_key(self.entries@, k);
                }
                return None;
            },
        };
        let wanted = first.to_owned();
        let count = self.entries.len();
        let mut j: usize = bucket.len();
        while j > 0
            invariant
                self.indexed(),
                count == self.entries@.len(),
                self.index@.contains_key(second@),
                *bucket == self.index@[second@],
                wanted@ == first@,
                k == (first@, second@),
                j <= bucket@.len(),
                forall|m: int| j <= m < bucket@.len() ==> self.entries@[bucket@[m] as int].first@ != first@,
            decreases j,
        {
            j -= 1;
            let at = bucket[j];
            assert(at == self.index@[second@]@[j as int]);
            if self.entries[at].first == wanted {
                proof {
                    let s = self.entries@;
                    assert(s[at as int].key() == k);
                    assert forall|i: int| at < i < s.len() implies s[i].key() != k by {
                        if s[i].key() == k {
                            assert(s[i].second@ == second@);
                            assert(bucket@.contains(i as usize));
                            let m = choose|m: int| 0 <= m < bucket@.len() && bucket@[m] == i as usize;
                            assert(bucket@[m] == self.index@[second@]@[m]);
                            if m < j {
                                assert(self.index@[second@]@[m] < self.index@[second@]@[j as int]);
                            }
                            assert(m > j);
                            assert(s[bucket@[m] as int].first@ != first@);
                        }
                    }
                    lemma_last_entry_wins(s, at as int);
                }
                return Some(&self.entries[at].value);
            }
        }
        proof {
            let s = self.entries@;
            assert forall|i: int| 0 <= i < s.len() implies s[i].key() != k by {
                if s[i].key() == k {
                    assert(s[i].second@ == second@);
                    assert(bucket@.contains(i as usize));
                    let m = choose|m: int| 0 <= m < bucket@.len() && bucket@[m] == i as usize;
                    assert(s[bucket@[m] as int].first@ != first@);
                }
            }
            lemma_no_entry_no_key(s, k);
        }
        None
    }

    /// Stores `value` under `(first, second)`, in place of what was there.
    pub fn insert(&mut self, first: String, second: String, value: V)
        ensures
            final(self)@ == old(self)@.insert((first@, second@), value),
    {
        let mut held = PairMap::new();
        core::mem::swap(self, &mut held);
        held = held.with(first, second, value);
        core::mem::swap(self, &mut held);
    }

    /// The map with `value` stored under `(first, second)`.
    fn with(self, first: String, second: String, value: V) -> (m: Self)
        ensures
            m@ == self@.insert((first@, second@), value),
    {
        proof {
            use_type_invariant(&self);
        }
        let PairMap { mut entries, mut index } = self;
        let n = entries.len();
        let mut bucket: Vec<usize> = Vec::new();
        let ghost old_entries = entries@;
        let ghost old_index = index@;
        match index.get(second.as_str()) {
            Some(b) => {
                let mut j: usize = 0;
                while j < b.len()
                    invariant
                        j <= b@.len(),
                        bucket@ == b@.take(j as int),
                    decreases b.len() - j,
                {
                    bucket.push(b[j]);
                    j += 1;
                }
                assert(bucket@ == b@);
            },
            None => {},
        }
        let ghost old_bucket = bucket@;
        assert(old_index.contains_key(second@) ==> old_bucket == old_index[second@]@);
        assert(!old_index.contains_key(second@) ==> old_bucket.len() == 0);
        bucket.push(n);
        index.insert(second.clone(), bucket);
        entries.push(Entry { first, second, value });
        proof {
            assert(entries@.drop_last() == old_entries);
            let e = second@;
            let b = index@[e]@;
            assert(b.drop_last() == old_bucket);
            assert(b.last() == n);
            assert forall|f: Seq<char>, j: int|
                index@.contains_key(f) && 0 <= j < index@[f]@.len() implies (
            #[trigger] index@[f]@[j]) < entries@.len() && entries@[index@[f]@[j] as int].second@
                == f by {
                if f == e {
                    if j < old_bucket.len() {
                        assert(b[j] == old_bucket[j]);
                        assert(old_index.contains_key(e));
                        assert(old_index[e]@[j] < old_entries.len());
                    }
                } else {
                    assert(old_index.contains_key(f));
                    assert(old_index[f]@[j] < old_entries.len());
                }
            }
            assert forall|f: Seq<char>, j: int, k: int|
                index@.contains_key(f) && 0 <= j < k < index@[f]@.len() implies (
            #[trigger] index@[f]@[j]) < (#[trigger] index@[f]@[k]) by {
                if f == e {
                    assert(b[j] == old_bucket[j]);
                    assert(old_index[e]@[j] < old_entries.len());
                    if k < old_bucket.len() {
                        assert(b[k] == old_bucket[k]);
                        assert(old_index[e]@[j] < old_index[e]@[k]);
                    }
                } else {
                    assert(old_index[f]@[j] < old_index[f]@[k]);
                }
            }
            assert forall|i: int| 0 <= i < entries@.len() implies index@.contains_key(
                (#[trigger] entries@[i]).second@,
            ) && index@[entries@[i].second@]@.contains(i as usize) by {
                if i < n {
                    assert(entries@[i] == old_entries[i]);
                    let f = old_entries[i].second@;
                    assert(old_index[f]@.contains(i as usize));
                    if f == e {
                        let m = choose|m: int|
                            0 <= m < old_bucket.len() && old_bucket[m] == i as usize;
                        assert(b[m] == i as usize);
                    }
                } else {
                    assert(b[b.len() - 1] == i as usize);
                }
            }
        }
        PairMap { entries, index }
    }
}

} // verus!
