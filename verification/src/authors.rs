//! The authors known so far, in front of the store that keeps them.
//!
//! The store holds one record for each canonical name and email. Asking it is
//! slow, so the records it has confirmed are kept in a cache, and authors are
//! looked up in batches: what the cache holds is answered at once, and the
//! store is asked, chunk by chunk, for the rest only. The cache and every
//! question to the store go by the canonical pair, never by what a commit
//! says.
//!
//! Talking to the store is left to the caller. For one chunk it runs three
//! steps: ask the store which of the chunk's pairs it has; have it create the
//! ones [`still_missing`]; read the whole chunk again and hand the rows to
//! [`AuthorStore::admit_chunk`]. When every chunk is admitted,
//! [`AuthorStore::lookup_all`] gives the author of each commit of the batch,
//! one for one and in order.

use vstd::prelude::*;
use crate::lists::{
    distinct, kept, lemma_distinct_contains, lemma_distinct_no_duplicates,
    lemma_distinct_of_distinct, lemma_kept_contains, lemma_kept_no_duplicates,
};
use crate::mailmap::{Mailmap, Rules};
use crate::models::{Author, NewAuthor};
use crate::pair_map::{PairKey, PairMap};

verus! {

/// How many pairs the store is asked for at once: it refuses much more.
pub const ITEMS_PER_CHUNK: usize = 30_000;

/// The names and emails that a list of pairs holds.
pub open spec fn pair_keys(v: Seq<(String, String)>) -> Seq<PairKey> {
    Seq::new(v.len(), |i: int| (v[i].0@, v[i].1@))
}

/// The names and emails that commits give.
pub open spec fn raw_keys<'a>(v: Seq<NewAuthor<'a>>) -> Seq<PairKey> {
    Seq::new(v.len(), |i: int| (v[i].name@, v[i].email@))
}

/// The canonical pairs of `raw`, one for one.
pub open spec fn resolved(rules: Rules, raw: Seq<PairKey>) -> Seq<PairKey> {
    Seq::new(raw.len(), |i: int| rules.resolve(raw[i].0, raw[i].1))
}

/// What holds of a pair that `known` lacks.
pub open spec fn unknown_to(known: Map<PairKey, Author>) -> spec_fn(PairKey) -> bool {
    |k: PairKey| !known.contains_key(k)
}

/// The cached authors of the pairs of `keys` that the cache holds, in order.
pub open spec fn hits(cache: Map<PairKey, Author>, keys: Seq<PairKey>) -> Seq<Author>
    decreases keys.len(),
{
    if keys.len() == 0 {
        Seq::empty()
    } else if cache.contains_key(keys.last()) {
        hits(cache, keys.drop_last()).push(cache[keys.last()])
    } else {
        hits(cache, keys.drop_last())
    }
}

/// The pairs of `keys` that the cache lacks, each once, in the order they
/// first occur.
pub open spec fn misses(cache: Map<PairKey, Author>, keys: Seq<PairKey>) -> Seq<PairKey> {
    distinct(kept(keys, unknown_to(cache)))
}

/// The record that the rows of a reading hold under each pair; of two rows
/// with the same pair the later one.
pub open spec fn rows_map(rows: Seq<Author>) -> Map<PairKey, Author>
    decreases rows.len(),
{
    if rows.len() == 0 {
        Map::empty()
    } else {
        rows_map(rows.drop_last()).insert(rows.last().key(), rows.last())
    }
}

/// The cache after it has taken in `authors`, first to last.
pub open spec fn cache_with(cache: Map<PairKey, Author>, authors: Seq<Author>) -> Map<
    PairKey,
    Author,
>
    decreases authors.len(),
{
    if authors.len() == 0 {
        cache
    } else {
        cache_with(cache, authors.drop_last()).insert(authors.last().key(), authors.last())
    }
}

/// The first position of `keys` whose pair `rows` lacks; the length of `keys`
/// if there is none.
pub open spec fn first_unanswered(rows: Map<PairKey, Author>, keys: Seq<PairKey>, from: int) -> int
    decreases keys.len() - from,
{
    if 0 <= from < keys.len() && rows.contains_key(keys[from]) {
        first_unanswered(rows, keys, from + 1)
    } else {
        from
    }
}

/// What is asked of the store for a batch of authors.
pub struct Batch {
    /// The authors that the cache held, in the order asked for.
    pub found: Vec<Author>,
    /// The canonical pairs that the store has to be asked for, each once.
    pub missing: Vec<(String, String)>,
}

/// Why the rows read for a chunk cannot be taken in.
#[derive(Debug)]
pub enum StoreError {
    /// The store gave no record for the pair at `index` of the chunk.
    MissingRecord { index: usize },
}

/// The cache of known authors, and the mailmap by which authors are known.
pub struct AuthorStore {
    cache: PairMap<Author>,
    mailmap: Mailmap,
}

impl AuthorStore {
    /// Every cached author is found by their own name and email.
    #[verifier::type_invariant]
    closed spec fn keyed(&self) -> bool {
        forall|k: PairKey| self.cache@.contains_key(k) ==> (#[trigger] self.cache@[k]).key() == k
    }

    /// The authors that the cache holds, by canonical name and email.
    pub closed spec fn cache(&self) -> Map<PairKey, Author> {
        self.cache@
    }

    /// The rules by which authors are canonicalised.
    pub closed spec fn rules(&self) -> Rules {
        self.mailmap@
    }

    /// A store that knows no author yet.
    pub fn new(mailmap: Mailmap) -> (store: AuthorStore)
        ensures
            store.cache() == Map::<PairKey, Author>::empty(),
            store.rules() == mailmap@,
    {
        AuthorStore { cache: PairMap::new(), mailmap }
    }

    /// A store that knows no author yet, with the mailmap that a repository
    /// keeps in its `.mailmap` file. `contents` is the text of that file, the
    /// empty text for a repository without one.
    pub fn from_file(contents: &str) -> (store: AuthorStore)
        ensures
            store.cache() == Map::<PairKey, Author>::empty(),
            store.rules() == Rules::parse(contents@),
    {
        AuthorStore { cache: PairMap::new(), mailmap: Mailmap::new(contents) }
    }

    /// The cached author of a commit made under `author_name` and
    /// `author_email`. `None` means that the store has to be asked: for the
    /// canonical pair that [`AuthorStore::map_author`] gives.
    pub fn get(&self, author_name: &str, author_email: &str) -> (r: Option<Author>)
        ensures
            match r {
                Some(a) => {
                    &&& self.cache().contains_key(self.rules().resolve(author_name@, author_email@))
                    &&& a == self.cache()[self.rules().resolve(author_name@, author_email@)]
                    &&& a.key() == self.rules().resolve(author_name@, author_email@)
                },
                None => !self.cache().contains_key(
                    self.rules().resolve(author_name@, author_email@),
                ),
            },
    {
        proof {
            use_type_invariant(self);
        }
        let (name, email) = self.mailmap.map(author_name, author_email);
        match self.cache.get(name.as_str(), email.as_str()) {
            Some(a) => Some(a.clone()),
            None => None,
        }
    }

    /// Takes in an author that the store has confirmed, under their own name
    /// and email.
    pub fn remember(&mut self, author: Author)
        ensures
            final(self).cache() == old(self).cache().insert(author.key(), author),
            final(self).rules() == old(self).rules(),
    {
        proof {
            use_type_invariant(&*self);
        }
        let mut cache: PairMap<Author> = PairMap::new();
        core::mem::swap(&mut self.cache, &mut cache);
        cache.insert(author.name.clone(), author.email.clone(), author);
        core::mem::swap(&mut self.cache, &mut cache);
    }

    /// Who the author of a commit is.
    pub fn map_author<'b>(&self, author: NewAuthor<'b>) -> (r: (String, String))
        ensures
            (r.0@, r.1@) == self.rules().resolve(author.name@, author.email@),
    {
        self.mailmap.map(author.name, author.email)
    }

    /// The mailmap by which authors are canonicalised.
    pub fn get_mailmap(&self) -> (m: &Mailmap)
        ensures
            m@ == self.rules(),
    {
        &self.mailmap
    }

    /// Looks a batch of authors up in the cache: the authors it holds, and
    /// the canonical pairs that the store has to be asked for.
    pub fn find_or_create_all<'b>(&self, new_authors: &Vec<NewAuthor<'b>>) -> (batch: Batch)
        ensures
            batch.found@ == hits(
                self.cache(),
                resolved(self.rules(), raw_keys(new_authors@)),
            ),
            pair_keys(batch.missing@) == misses(
                self.cache(),
                resolved(self.rules(), raw_keys(new_authors@)),
            ),
    {
        let mut found: Vec<Author> = Vec::new();
        let mut missing: Vec<(String, String)> = Vec::new();
        let mut asked: PairMap<bool> = PairMap::new();
        let ghost cache = self.cache();
        let ghost keys = resolved(self.rules(), raw_keys(new_authors@));
        let mut i: usize = 0;
        proof {
            assert(pair_keys(missing@) =~= misses(cache, keys.take(0)));
        }
        while i < new_authors.len()
            invariant
                i <= new_authors.len(),
                cache == self.cache(),
                keys == resolved(self.rules(), raw_keys(new_authors@)),
                keys.len() == new_authors@.len(),
                found@ == hits(cache, keys.take(i as int)),
                pair_keys(missing@) == misses(cache, keys.take(i as int)),
                forall|k: PairKey|
                    asked@.contains_key(k) <==> misses(cache, keys.take(i as int)).contains(k),
            decreases new_authors.len() - i,
        {
            let (name, email) = self.mailmap.map(new_authors[i].name, new_authors[i].email);
            let ghost k: PairKey = (name@, email@);
            let ghost seen = keys.take(i as int);
            let ghost next = keys.take(i + 1);
            let ghost old_missing = missing@;
            proof {
                assert(next.drop_last() == seen);
                assert(next.last() == k);
            }
            match self.cache.get(name.as_str(), email.as_str()) {
                Some(a) => {
                    found.push(a.clone());
                },
                None => {
                    proof {
                        let d = kept(seen, unknown_to(cache));
                        assert(kept(next, unknown_to(cache)) == d.push(k));
                        assert(d.push(k).drop_last() == d);
                    }
                    if asked.get(name.as_str(), email.as_str()).is_none() {
                        asked.insert(name.clone(), email.clone(), true);
                        missing.push((name, email));
                        proof {
                            let m = misses(cache, seen);
                            assert(pair_keys(missing@) =~= pair_keys(old_missing).push(k));
                            assert forall|x: PairKey| asked@.contains_key(x) <==> m.push(
                                k,
                            ).contains(x) by {
                                if m.push(k).contains(x) {
                                    let j = choose|j: int|
                                        0 <= j < m.push(k).len() && m.push(k)[j] == x;
                                    if j < m.len() {
                                        assert(m[j] == x);
                                    }
                                }
                                if m.contains(x) {
                                    let j = choose|j: int| 0 <= j < m.len() && m[j] == x;
                                    assert(m.push(k)[j] == x);
                                }
                                assert(m.push(k)[m.len() as int] == k);
                            }
                        }
                    }
                },
            }
            i += 1;
        }
        proof {
            assert(keys.take(new_authors.len() as int) == keys);
        }
        Batch { found, missing }
    }

    /// Looks up the authors of a whole history at once, so that the cache is
    /// filled in one batch: the authors it holds already, and the canonical
    /// pairs that the store has to be asked for. `authors` holds the name and
    /// email of each commit's author.
    pub fn warm_cache(&self, authors: &Vec<(String, String)>) -> (batch: Batch)
        ensures
            batch.found@ == hits(self.cache(), resolved(self.rules(), pair_keys(authors@))),
            pair_keys(batch.missing@) == misses(
                self.cache(),
                resolved(self.rules(), pair_keys(authors@)),
            ),
    {
        let mut new_authors: Vec<NewAuthor> = Vec::new();
        let mut i: usize = 0;
        while i < authors.len()
            invariant
                i <= authors.len(),
                new_authors@.len() == i,
                forall|k: int|
                    0 <= k < i ==> (#[trigger] new_authors@[k]).name@ == authors@[k].0@
                        && new_authors@[k].email@ == authors@[k].1@,
            decreases authors.len() - i,
        {
            new_authors.push(
                NewAuthor { name: authors[i].0.as_str(), email: authors[i].1.as_str() },
            );
            i += 1;
        }
        proof {
            assert(raw_keys(new_authors@) =~= pair_keys(authors@));
        }
        self.find_or_create_all(&new_authors)
    }

    /// The author of each commit of a batch, one for one and in the order
    /// given: for each commit the cached record of its canonical name and
    /// email. It is there for every commit once the pairs that
    /// [`AuthorStore::find_or_create_all`] found missing were admitted; where
    /// the cache lacks one, the first such commit is reported.
    pub fn lookup_all<'b>(&self, new_authors: &Vec<NewAuthor<'b>>) -> (r: Result<
        Vec<Author>,
        StoreError,
    >)
        ensures
            match r {
                Ok(authors) => {
                    &&& first_unanswered(
                        self.cache(),
                        resolved(self.rules(), raw_keys(new_authors@)),
                        0,
                    ) == new_authors@.len()
                    &&& authors@.len() == new_authors@.len()
                    &&& forall|i: int|
                        0 <= i < new_authors@.len() ==> self.cache().contains_key(
                            #[trigger] resolved(self.rules(), raw_keys(new_authors@))[i],
                        )
                    &&& forall|i: int|
                        0 <= i < new_authors@.len() ==> (#[trigger] authors@[i]) == self.cache()[resolved(
                            self.rules(),
                            raw_keys(new_authors@),
                        )[i]]
                    &&& forall|i: int|
                        0 <= i < new_authors@.len() ==> (#[trigger] authors@[i]).key() == resolved(
                            self.rules(),
                            raw_keys(new_authors@),
                        )[i]
                },
                Err(StoreError::MissingRecord { index }) => {
                    &&& index < new_authors@.len()
                    &&& index == first_unanswered(
                        self.cache(),
                        resolved(self.rules(), raw_keys(new_authors@)),
                        0,
                    )
                },
            },
    {
        let ghost keys = resolved(self.rules(), raw_keys(new_authors@));
        let mut authors: Vec<Author> = Vec::new();
        let mut i: usize = 0;
        while i < new_authors.len()
            invariant
                i <= new_authors.len(),
                keys == resolved(self.rules(), raw_keys(new_authors@)),
                keys.len() == new_authors@.len(),
                authors@.len() == i,
                first_unanswered(self.cache(), keys, 0) == first_unanswered(
                    self.cache(),
                    keys,
                    i as int,
                ),
                forall|j: int| 0 <= j < i ==> self.cache().contains_key(#[trigger] keys[j]),
                forall|j: int| 0 <= j < i ==> (#[trigger] authors@[j]) == self.cache()[keys[j]],
                forall|j: int| 0 <= j < i ==> (#[trigger] authors@[j]).key() == keys[j],
            decreases new_authors.len() - i,
        {
            let ghost so_far = authors@;
            match self.get(new_authors[i].name, new_authors[i].email) {
                Some(a) => {
                    authors.push(a);
                },
                None => {
                    return Err(StoreError::MissingRecord { index: i });
                },
            }
            proof {
                assert forall|j: int| 0 <= j < i + 1 implies (#[trigger] authors@[j])
                    == self.cache()[keys[j]] by {
                    if j < i {
                        assert(authors@[j] == so_far[j]);
                    }
                }
                assert forall|j: int| 0 <= j < i + 1 implies (#[trigger] authors@[j]).key()
                    == keys[j] by {
                    if j < i {
                        assert(authors@[j] == so_far[j]);
                    }
                }
            }
            i += 1;
        }
        Ok(authors)
    }

    /// Takes in the rows that the store gave for a chunk of pairs. Where the
    /// rows hold a record for every pair of the chunk, those records are
    /// cached and returned in the order of the chunk. Where a pair has none,
    /// nothing is cached and the first such pair is reported.
    pub fn admit_chunk(&mut self, chunk: &Vec<(String, String)>, rows: &Vec<Author>) -> (r: Result<
        Vec<Author>,
        StoreError,
    >)
        ensures
            final(self).rules() == old(self).rules(),
            match r {
                Ok(authors) => {
                    &&& first_unanswered(rows_map(rows@), pair_keys(chunk@), 0) == chunk@.len()
                    &&& authors@.len() == chunk@.len()
                    &&& forall|i: int|
                        0 <= i < chunk@.len() ==> rows_map(rows@).contains_key(
                            pair_keys(chunk@)[i],
                        ) && (#[trigger] authors@[i]) == rows_map(rows@)[pair_keys(chunk@)[i]]
                    &&& final(self).cache() == cache_with(old(self).cache(), authors@)
                },
                Err(StoreError::MissingRecord { index }) => {
                    &&& index < chunk@.len()
                    &&& index == first_unanswered(rows_map(rows@), pair_keys(chunk@), 0)
                    &&& final(self).cache() == old(self).cache()
                },
            },
    {
        let given = index_rows(rows);
        let ghost keys = pair_keys(chunk@);
        let mut authors: Vec<Author> = Vec::new();
        let mut i: usize = 0;
        while i < chunk.len()
            invariant
                i <= chunk.len(),
                keys == pair_keys(chunk@),
                given@ == rows_map(rows@),
                authors@.len() == i,
                first_unanswered(given@, keys, 0) == first_unanswered(given@, keys, i as int),
                forall|j: int| 0 <= j < i ==> given@.contains_key(#[trigger] keys[j]),
                forall|j: int| 0 <= j < i ==> (#[trigger] authors@[j]) == given@[keys[j]],
                *self == *old(self),
            decreases chunk.len() - i,
        {
            let ghost so_far = authors@;
            proof {
                assert(keys[i as int] == (chunk@[i as int].0@, chunk@[i as int].1@));
            }
            match given.get(chunk[i].0.as_str(), chunk[i].1.as_str()) {
                Some(a) => {
                    authors.push(a.clone());
                },
                None => {
                    return Err(StoreError::MissingRecord { index: i });
                },
            }
            proof {
                assert forall|j: int| 0 <= j < i + 1 implies (#[trigger] authors@[j])
                    == given@[keys[j]] by {
                    if j < i {
                        assert(authors@[j] == so_far[j]);
                    }
                }
            }
            i += 1;
        }
        let mut j: usize = 0;
        while j < authors.len()
            invariant
                j <= authors.len(),
                keys == pair_keys(chunk@),
                given@ == rows_map(rows@),
                authors@.len() == chunk@.len(),
                first_unanswered(given@, keys, 0) == chunk@.len(),
                forall|m: int| 0 <= m < chunk@.len() ==> given@.contains_key(#[trigger] keys[m]),
                forall|m: int|
                    0 <= m < chunk@.len() ==> (#[trigger] authors@[m]) == given@[keys[m]],
                self.rules() == old(self).rules(),
                self.cache() == cache_with(old(self).cache(), authors@.take(j as int)),
            decreases authors.len() - j,
        {
            proof {
                assert(authors@.take(j + 1).drop_last() == authors@.take(j as int));
            }
            self.remember(authors[j].clone());
            j += 1;
        }
        proof {
            assert(authors@.take(authors.len() as int) == authors@);
        }
        Ok(authors)
    }
}

/// The rows of a reading, to be found by name and email.
fn index_rows(rows: &Vec<Author>) -> (given: PairMap<Author>)
    ensures
        given@ == rows_map(rows@),
{
    let mut given: PairMap<Author> = PairMap::new();
    let mut i: usize = 0;
    while i < rows.len()
        invariant
            i <= rows.len(),
            given@ == rows_map(rows@.take(i as int)),
        decreases rows.len() - i,
    {
        proof {
            assert(rows@.take(i + 1).drop_last() == rows@.take(i as int));
        }
        given.insert(rows[i].name.clone(), rows[i].email.clone(), rows[i].clone());
        i += 1;
    }
    proof {
        assert(rows@.take(rows.len() as int) == rows@);
    }
    given
}

/// The pairs of a chunk that the store has yet to create: those for which
/// `existing`, the rows that the store holds for the chunk, has no record.
pub fn still_missing(chunk: &Vec<(String, String)>, existing: &Vec<Author>) -> (absent: Vec<
    (String, String),
>)
    ensures
        pair_keys(absent@) == kept(pair_keys(chunk@), unknown_to(rows_map(existing@))),
{
    let given = index_rows(existing);
    let ghost keys = pair_keys(chunk@);
    let mut absent: Vec<(String, String)> = Vec::new();
    let mut i: usize = 0;
    proof {
        assert(pair_keys(absent@) =~= kept(keys.take(0), unknown_to(given@)));
    }
    while i < chunk.len()
        invariant
            i <= chunk.len(),
            keys == pair_keys(chunk@),
            given@ == rows_map(existing@),
            pair_keys(absent@) == kept(keys.take(i as int), unknown_to(given@)),
        decreases chunk.len() - i,
    {
        let ghost old_absent = absent@;
        proof {
            assert(keys.take(i + 1).drop_last() == keys.take(i as int));
        }
        if given.get(chunk[i].0.as_str(), chunk[i].1.as_str()).is_none() {
            absent.push((chunk[i].0.clone(), chunk[i].1.clone()));
            proof {
                assert(pair_keys(absent@) =~= pair_keys(old_absent).push(keys[i as int]));
            }
        }
        i += 1;
    }
    proof {
        assert(keys.take(chunk.len() as int) == keys);
    }
    absent
}

/// How many chunks a list of `total` pairs is asked for in.
pub open spec fn chunk_count(total: nat) -> nat {
    (total + ITEMS_PER_CHUNK - 1) as nat / ITEMS_PER_CHUNK as nat
}

/// How many pairs chunk `index` of a list of `total` pairs holds.
pub open spec fn chunk_len(total: nat, index: nat) -> nat {
    if (index + 1) * ITEMS_PER_CHUNK <= total {
        ITEMS_PER_CHUNK as nat
    } else {
        (total - index * ITEMS_PER_CHUNK) as nat
    }
}

/// Splits the pairs to ask the store for into chunks that it accepts: every
/// chunk but the last holds [`ITEMS_PER_CHUNK`] pairs, none is empty, and
/// together they hold the pairs in order.
pub fn chunks(missing: &Vec<(String, String)>) -> (parts: Vec<Vec<(String, String)>>)
    ensures
        parts@.len() == chunk_count(missing@.len()),
        forall|c: int|
            0 <= c < parts@.len() ==> 0 < (#[trigger] parts@[c])@.len() <= ITEMS_PER_CHUNK
                && parts@[c]@.len() == chunk_len(missing@.len(), c as nat),
        forall|c: int, j: int|
            0 <= c < parts@.len() && 0 <= j < parts@[c]@.len() ==> c * ITEMS_PER_CHUNK + j
                < missing@.len() && (#[trigger] pair_keys(parts@[c]@)[j]) == pair_keys(
                missing@,
            )[c * ITEMS_PER_CHUNK + j],
{
    let mut parts: Vec<Vec<(String, String)>> = Vec::new();
    let mut part: Vec<(String, String)> = Vec::new();
    let ghost keys = pair_keys(missing@);
    let mut i: usize = 0;
    while i < missing.len()
        invariant
            i <= missing.len(),
            keys == pair_keys(missing@),
            parts@.len() == i / ITEMS_PER_CHUNK,
            part@.len() == i % ITEMS_PER_CHUNK,
            forall|c: int|
                0 <= c < parts@.len() ==> (#[trigger] parts@[c])@.len() == ITEMS_PER_CHUNK,
            forall|c: int, j: int|
                0 <= c < parts@.len() && 0 <= j < parts@[c]@.len() ==> (#[trigger] pair_keys(
                    parts@[c]@,
                )[j]) == keys[c * ITEMS_PER_CHUNK + j],
            forall|j: int|
                0 <= j < part@.len() ==> (#[trigger] pair_keys(part@)[j]) == keys[(i
                    / ITEMS_PER_CHUNK) * ITEMS_PER_CHUNK + j],
        decreases missing.len() - i,
    {
        let ghost old_part = part@;
        let ghost old_parts = parts@;
        part.push((missing[i].0.clone(), missing[i].1.clone()));
        proof {
            assert forall|j: int| 0 <= j < part@.len() implies (#[trigger] pair_keys(part@)[j])
                == keys[(i / ITEMS_PER_CHUNK) * ITEMS_PER_CHUNK + j] by {
                if j < old_part.len() {
                    assert(pair_keys(part@)[j] == pair_keys(old_part)[j]);
                }
            }
        }
        i += 1;
        if part.len() == ITEMS_PER_CHUNK {
            let ghost full = part@;
            let mut done: Vec<(String, String)> = Vec::new();
            core::mem::swap(&mut part, &mut done);
            parts.push(done);
            proof {
                assert forall|c: int, j: int|
                    0 <= c < parts@.len() && 0 <= j < parts@[c]@.len() implies (
                #[trigger] pair_keys(parts@[c]@)[j]) == keys[c * ITEMS_PER_CHUNK + j] by {
                    if c < old_parts.len() {
                        assert(parts@[c] == old_parts[c]);
                    } else {
                        assert(parts@[c]@ == full);
                        assert(pair_keys(full)[j] == keys[((i - 1) / ITEMS_PER_CHUNK as int)
                            * ITEMS_PER_CHUNK + j]);
                    }
                }
            }
        }
    }
    if part.len() > 0 {
        parts.push(part);
    }
    parts
}

/// A batch asks the store for none of the authors that the cache holds, and
/// for none twice: the pairs to ask for are exactly the canonical pairs of
/// the batch that the cache lacks.
pub proof fn lemma_misses_are_new(cache: Map<PairKey, Author>, keys: Seq<PairKey>)
    ensures
        forall|k: PairKey|
            misses(cache, keys).contains(k) <==> keys.contains(k) && !cache.contains_key(k),
        forall|i: int, j: int|
            0 <= i < j < misses(cache, keys).len() ==> misses(cache, keys)[i] != misses(
                cache,
                keys,
            )[j],
{
    let unknown = kept(keys, unknown_to(cache));
    lemma_distinct_no_duplicates(unknown);
    assert forall|k: PairKey|
        misses(cache, keys).contains(k) <==> keys.contains(k) && !cache.contains_key(k) by {
        lemma_distinct_contains(unknown, k);
        lemma_kept_contains(keys, unknown_to(cache), k);
    }
}

/// A list of pairs is answered in full exactly if the records hold every
/// one of its pairs.
pub proof fn lemma_answered_in_full(rows: Map<PairKey, Author>, keys: Seq<PairKey>, from: int)
    requires
        0 <= from <= keys.len(),
    ensures
        first_unanswered(rows, keys, from) == keys.len() <==> forall|i: int|
            from <= i < keys.len() ==> rows.contains_key(#[trigger] keys[i]),
        from <= first_unanswered(rows, keys, from) <= keys.len(),
    decreases keys.len() - from,
{
    if from < keys.len() {
        if rows.contains_key(keys[from]) {
            lemma_answered_in_full(rows, keys, from + 1);
        } else {
            assert(!rows.contains_key(keys[from]));
        }
    }
}

/// Taking authors in keeps what the cache held and adds each of them.
pub proof fn lemma_cache_grows(cache: Map<PairKey, Author>, authors: Seq<Author>)
    ensures
        forall|k: PairKey| cache.contains_key(k) ==> cache_with(cache, authors).contains_key(k),
        forall|i: int|
            0 <= i < authors.len() ==> cache_with(cache, authors).contains_key(
                (#[trigger] authors[i]).key(),
            ),
    decreases authors.len(),
{
    if authors.len() > 0 {
        lemma_cache_grows(cache, authors.drop_last());
        assert forall|i: int| 0 <= i < authors.len() implies cache_with(
            cache,
            authors,
        ).contains_key((#[trigger] authors[i]).key()) by {
            if i < authors.len() - 1 {
                assert(authors.drop_last()[i] == authors[i]);
            }
        }
    }
}

/// Once the pairs that a batch found missing are in the cache, the cache
/// answers the whole batch: it holds the canonical pair of every commit, so
/// [`AuthorStore::lookup_all`] gives one author for each, in order.
pub proof fn lemma_admitted_batch_is_complete(
    cache: Map<PairKey, Author>,
    after: Map<PairKey, Author>,
    keys: Seq<PairKey>,
)
    requires
        forall|k: PairKey| cache.contains_key(k) ==> after.contains_key(k),
        forall|k: PairKey| misses(cache, keys).contains(k) ==> after.contains_key(k),
    ensures
        first_unanswered(after, keys, 0) == keys.len(),
{
    lemma_misses_are_new(cache, keys);
    lemma_answered_in_full(after, keys, 0);
    assert forall|i: int| 0 <= i < keys.len() implies after.contains_key(#[trigger] keys[i]) by {
        if !cache.contains_key(keys[i]) {
            assert(keys.contains(keys[i]));
            assert(misses(cache, keys).contains(keys[i]));
        }
    }
}

/// The cache holds only what the store has confirmed: where every cached
/// pair has a record in the store, and the authors taken in are records read
/// from it, every cached pair has a record afterwards too. So a later batch
/// asks the store to create none of them.
pub proof fn lemma_cache_stays_backed(
    cache: Map<PairKey, Author>,
    authors: Seq<Author>,
    stored: Seq<PairKey>,
)
    requires
        forall|k: PairKey| cache.contains_key(k) ==> stored.contains(k),
        forall|i: int| 0 <= i < authors.len() ==> stored.contains((#[trigger] authors[i]).key()),
    ensures
        forall|k: PairKey| cache_with(cache, authors).contains_key(k) ==> stored.contains(k),
    decreases authors.len(),
{
    if authors.len() > 0 {
        assert forall|i: int| 0 <= i < authors.drop_last().len() implies stored.contains(
            (#[trigger] authors.drop_last()[i]).key(),
        ) by {
            assert(authors.drop_last()[i] == authors[i]);
        }
        lemma_cache_stays_backed(cache, authors.drop_last(), stored);
        assert(stored.contains(authors[authors.len() - 1].key()));
    }
}

/// What holds of a pair that no record of `stored` carries.
pub open spec fn absent_from(stored: Seq<PairKey>) -> spec_fn(PairKey) -> bool {
    |k: PairKey| !stored.contains(k)
}

/// The pairs of the records that the store holds after it was asked for a
/// chunk: those it held, then one new record for each pair of the chunk that
/// it lacked.
pub open spec fn stored_after(stored: Seq<PairKey>, chunk: Seq<PairKey>) -> Seq<PairKey> {
    stored + distinct(kept(chunk, absent_from(stored)))
}

/// The pairs of the records that the store holds after it was asked for
/// chunk after chunk, of one batch or of several.
pub open spec fn stored_after_all(stored: Seq<PairKey>, chunks: Seq<Seq<PairKey>>) -> Seq<PairKey>
    decreases chunks.len(),
{
    if chunks.len() == 0 {
        stored
    } else {
        stored_after(stored_after_all(stored, chunks.drop_last()), chunks.last())
    }
}

/// Whether a list holds no pair twice.
pub open spec fn one_each(stored: Seq<PairKey>) -> bool {
    forall|i: int, j: int| 0 <= i < j < stored.len() ==> stored[i] != stored[j]
}

/// Asking the store for a chunk leaves one record for each pair: the records
/// it held stay as they are, no record is made for a pair that has one, and
/// every pair of the chunk has its record afterwards.
pub proof fn lemma_chunk_keeps_one_record(stored: Seq<PairKey>, chunk: Seq<PairKey>)
    requires
        one_each(stored),
    ensures
        one_each(stored_after(stored, chunk)),
        stored_after(stored, chunk).len() >= stored.len(),
        stored_after(stored, chunk).take(stored.len() as int) == stored,
        forall|k: PairKey| chunk.contains(k) ==> stored_after(stored, chunk).contains(k),
        forall|k: PairKey| stored.contains(k) ==> stored_after(stored, chunk).contains(k),
{
    let created = distinct(kept(chunk, absent_from(stored)));
    let after = stored + created;
    lemma_distinct_no_duplicates(kept(chunk, absent_from(stored)));
    assert forall|i: int, j: int| 0 <= i < j < after.len() implies after[i] != after[j] by {
        if j < stored.len() {
            assert(stored[i] != stored[j]);
        } else if i >= stored.len() {
            assert(created[i - stored.len()] != created[j - stored.len()]);
        } else {
            let k = created[j - stored.len()];
            assert(created.contains(k));
            lemma_distinct_contains(kept(chunk, absent_from(stored)), k);
            lemma_kept_contains(chunk, absent_from(stored), k);
            if stored[i] == k {
                assert(stored.contains(k));
            }
        }
    }
    assert(after.take(stored.len() as int) =~= stored);
    assert forall|k: PairKey| chunk.contains(k) implies after.contains(k) by {
        lemma_distinct_contains(kept(chunk, absent_from(stored)), k);
        lemma_kept_contains(chunk, absent_from(stored), k);
        if stored.contains(k) {
            let i = choose|i: int| 0 <= i < stored.len() && stored[i] == k;
            assert(after[i] == k);
        } else {
            let i = choose|i: int| 0 <= i < created.len() && created[i] == k;
            assert(after[stored.len() + i] == k);
        }
    }
    assert forall|k: PairKey| stored.contains(k) implies after.contains(k) by {
        let i = choose|i: int| 0 <= i < stored.len() && stored[i] == k;
        assert(after[i] == k);
    }
}

/// However the pairs to ask for are cut into chunks, and however many
/// batches follow one another, the store holds exactly one record for each
/// pair: a store that held no pair twice holds none twice afterwards, keeps
/// the records it had, and has a record for every pair of every chunk.
pub proof fn lemma_batches_keep_one_record(stored: Seq<PairKey>, chunks: Seq<Seq<PairKey>>)
    requires
        one_each(stored),
    ensures
        one_each(stored_after_all(stored, chunks)),
        stored_after_all(stored, chunks).len() >= stored.len(),
        stored_after_all(stored, chunks).take(stored.len() as int) == stored,
        forall|k: PairKey| stored.contains(k) ==> stored_after_all(stored, chunks).contains(k),
        forall|c: int, k: PairKey|
            0 <= c < chunks.len() && (#[trigger] chunks[c]).contains(k) ==> #[trigger]
                stored_after_all(stored, chunks).contains(k),
    decreases chunks.len(),
{
    if chunks.len() > 0 {
        let before = stored_after_all(stored, chunks.drop_last());
        let after = stored_after_all(stored, chunks);
        lemma_batches_keep_one_record(stored, chunks.drop_last());
        lemma_chunk_keeps_one_record(before, chunks.last());
        assert(after.take(stored.len() as int) =~= before.take(stored.len() as int)) by {
            assert(after.take(before.len() as int) == before);
        }
        assert forall|c: int, k: PairKey|
            0 <= c < chunks.len() && (#[trigger] chunks[c]).contains(k) implies #[trigger] after.contains(
            k,
        ) by {
            if c < chunks.len() - 1 {
                assert(chunks.drop_last()[c] == chunks[c]);
                assert(before.contains(k));
            }
        }
    }
}

/// For a chunk that names no pair twice, the records to create are the
/// pairs that are [`still_missing`]: the store after the chunk is as
/// [`stored_after`] says, with `existing` the records that the store held
/// for the chunk's pairs.
pub proof fn lemma_still_missing_are_created(
    stored: Seq<PairKey>,
    chunk: Seq<PairKey>,
    existing: Seq<Author>,
)
    requires
        one_each(chunk),
        forall|k: PairKey|
            chunk.contains(k) ==> (rows_map(existing).contains_key(k) <==> stored.contains(k)),
    ensures
        stored_after(stored, chunk) == stored + kept(chunk, unknown_to(rows_map(existing))),
{
    lemma_kept_agrees(chunk, absent_from(stored), unknown_to(rows_map(existing)));
    lemma_kept_no_duplicates(chunk, absent_from(stored));
    lemma_distinct_of_distinct(kept(chunk, absent_from(stored)));
}

proof fn lemma_kept_agrees(s: Seq<PairKey>, f: spec_fn(PairKey) -> bool, g: spec_fn(PairKey) -> bool)
    requires
        forall|k: PairKey| s.contains(k) ==> f(k) == g(k),
    ensures
        kept(s, f) == kept(s, g),
    decreases s.len(),
{
    if s.len() > 0 {
        assert forall|k: PairKey| s.drop_last().contains(k) implies f(k) == g(k) by {
            let i = choose|i: int| 0 <= i < s.drop_last().len() && s.drop_last()[i] == k;
            assert(s[i] == k);
            assert(s.contains(k));
        }
        lemma_kept_agrees(s.drop_last(), f, g);
        assert(s[s.len() - 1] == s.last());
        assert(s.contains(s.last()));
    }
}

} // verus!
