//! Attribution: which release a commit belongs to, and who made it.
//!
//! A batch of commits is assigned to a release in one transaction. The store
//! holds one record for each commit, so assigning a commit again moves it:
//! the record takes the new release and author, and no second one is made.
//! What is written is decided here; the writing is left to the caller, who
//! rolls the transaction back unless [`confirm`] accepts the number of
//! records that the store says it wrote.

use vstd::prelude::*;
use vstd::hash_map::StringHashMap;
use crate::authors::AuthorStore;
use crate::mailmap::Rules;
use crate::models::{Author, Commit, Release};
use crate::pair_map::PairKey;
use crate::text::{same_text, texts};

verus! {

/// A commit as the repository gives it: its id and its author.
pub struct RawCommit {
    pub sha: String,
    pub author_name: String,
    pub author_email: String,
}

/// What to write to the store for a batch of commits.
pub enum Assignment {
    /// There was no commit to assign: nothing is written and the release
    /// keeps the commits it has.
    Skipped,
    /// The commit records to insert, or to overwrite where the store holds
    /// one for the same commit already.
    Upsert(Vec<Commit>),
}

/// Why a batch of commits could not be assigned.
#[derive(Debug)]
pub enum AssignError {
    /// The author of the commit at `index` is not among the known authors.
    UnknownAuthor { index: usize },
    /// The store wrote `affected` records where `expected` were handed to it.
    RowCount { expected: usize, affected: usize },
}

/// The position in `releases` of the release of project `project_id` with the
/// given version, from `from` on: the first one, or the length of `releases`
/// if there is none.
pub open spec fn release_position(
    releases: Seq<Release>,
    version: Seq<char>,
    project_id: i32,
    from: int,
) -> int
    decreases releases.len() - from,
{
    if 0 <= from < releases.len() && !(releases[from].version@ == version
        && releases[from].project_id == project_id) {
        release_position(releases, version, project_id, from + 1)
    } else {
        from
    }
}

/// Finds the release of a project with the given version.
pub fn find_release(releases: &Vec<Release>, version: &str, project_id: i32) -> (r: Option<usize>)
    ensures
        match r {
            Some(i) => i < releases@.len() && i == release_position(
                releases@,
                version@,
                project_id,
                0,
            ),
            None => release_position(releases@, version@, project_id, 0) == releases@.len(),
        },
{
    let mut i: usize = 0;
    while i < releases.len()
        invariant
            i <= releases.len(),
            release_position(releases@, version@, project_id, 0) == release_position(
                releases@,
                version@,
                project_id,
                i as int,
            ),
        decreases releases.len() - i,
    {
        if releases[i].project_id == project_id && same_text(
            releases[i].version.as_str(),
            version,
        ) {
            return Some(i);
        }
        i += 1;
    }
    None
}

/// The canonical author of a commit.
pub open spec fn author_key(rules: Rules, commit: RawCommit) -> PairKey {
    rules.resolve(commit.author_name@, commit.author_email@)
}

/// The first position of `commits` whose author the cache lacks, from `from`
/// on; the length of `commits` if there is none.
pub open spec fn first_unknown(
    cache: Map<PairKey, Author>,
    rules: Rules,
    commits: Seq<RawCommit>,
    from: int,
) -> int
    decreases commits.len() - from,
{
    if 0 <= from < commits.len() && cache.contains_key(author_key(rules, commits[from])) {
        first_unknown(cache, rules, commits, from + 1)
    } else {
        from
    }
}

/// The record that assigns `commit` to `release`.
pub open spec fn record_of(
    cache: Map<PairKey, Author>,
    rules: Rules,
    release: Release,
    commit: RawCommit,
) -> Commit {
    Commit {
        sha: commit.sha,
        release_id: release.id,
        author_id: cache[author_key(rules, commit)].id,
    }
}

/// Decides what to write to assign `commits` to `release`: one record for
/// each commit, with the release and the commit's canonical author. The
/// authors must be known to `authors`; looking them up in one batch
/// beforehand sees to that.
pub fn assign(authors: &AuthorStore, release: &Release, commits: &Vec<RawCommit>) -> (r: Result<
    Assignment,
    AssignError,
>)
    ensures
        match r {
            Ok(Assignment::Skipped) => commits@.len() == 0,
            Ok(Assignment::Upsert(records)) => {
                &&& commits@.len() > 0
                &&& first_unknown(authors.cache(), authors.rules(), commits@, 0) == commits@.len()
                &&& records@.len() == commits@.len()
                &&& forall|i: int|
                    0 <= i < commits@.len() ==> (#[trigger] records@[i]) == record_of(
                        authors.cache(),
                        authors.rules(),
                        *release,
                        commits@[i],
                    )
            },
            Err(AssignError::UnknownAuthor { index }) => {
                &&& index < commits@.len()
                &&& index == first_unknown(authors.cache(), authors.rules(), commits@, 0)
            },
            Err(AssignError::RowCount { .. }) => false,
        },
{
    if commits.len() == 0 {
        return Ok(Assignment::Skipped);
    }
    let mut records: Vec<Commit> = Vec::new();
    let mut i: usize = 0;
    while i < commits.len()
        invariant
            i <= commits.len(),
            records@.len() == i,
            first_unknown(authors.cache(), authors.rules(), commits@, 0) == first_unknown(
                authors.cache(),
                authors.rules(),
                commits@,
                i as int,
            ),
            forall|j: int|
                0 <= j < i ==> (#[trigger] records@[j]) == record_of(
                    authors.cache(),
                    authors.rules(),
                    *release,
                    commits@[j],
                ),
        decreases commits.len() - i,
    {
        let commit = &commits[i];
        match authors.get(commit.author_name.as_str(), commit.author_email.as_str()) {
            Some(author) => {
                records.push(
                    Commit { sha: commit.sha.clone(), release_id: release.id, author_id: author.id },
                );
            },
            None => {
                return Err(AssignError::UnknownAuthor { index: i });
            },
        }
        i += 1;
    }
    Ok(Assignment::Upsert(records))
}

/// The commits of `fetched` that the store holds no record for, in order.
/// `stored` holds the ids of the commits that it has records for.
pub open spec fn unrecorded(fetched: Seq<RawCommit>, stored: Set<Seq<char>>) -> Seq<RawCommit>
    decreases fetched.len(),
{
    if fetched.len() == 0 {
        fetched
    } else if stored.contains(fetched.last().sha@) {
        unrecorded(fetched.drop_last(), stored)
    } else {
        unrecorded(fetched.drop_last(), stored).push(fetched.last())
    }
}

/// Of the commits that a project's host reports, those that are yet to be
/// recorded: the ones whose id is not among `stored`, the ids of the commits
/// that the store has records for. They go to what is not released yet.
pub fn new_commits(fetched: &Vec<RawCommit>, stored: &Vec<String>) -> (fresh: Vec<RawCommit>)
    ensures
        fresh@ == unrecorded(fetched@, texts(stored@).to_set()),
{
    let mut known: StringHashMap<bool> = StringHashMap::new();
    let mut i: usize = 0;
    while i < stored.len()
        invariant
            i <= stored.len(),
            forall|k: Seq<char>| known@.contains_key(k) <==> texts(stored@).take(i as int).contains(k),
        decreases stored.len() - i,
    {
        let ghost seen = texts(stored@).take(i as int);
        let ghost next = texts(stored@).take(i + 1);
        known.insert(stored[i].clone(), true);
        proof {
            assert forall|k: Seq<char>| known@.contains_key(k) <==> next.contains(k) by {
                if next.contains(k) {
                    let j = choose|j: int| 0 <= j < next.len() && next[j] == k;
                    if j < i {
                        assert(seen[j] == k);
                    }
                }
                if seen.contains(k) {
                    let j = choose|j: int| 0 <= j < seen.len() && seen[j] == k;
                    assert(next[j] == k);
                }
                assert(next[i as int] == stored@[i as int]@);
            }
        }
        i += 1;
    }
    proof {
        assert(texts(stored@).take(stored.len() as int) == texts(stored@));
    }
    let ghost ids = texts(stored@).to_set();
    let mut fresh: Vec<RawCommit> = Vec::new();
    let mut j: usize = 0;
    while j < fetched.len()
        invariant
            j <= fetched.len(),
            ids == texts(stored@).to_set(),
            forall|k: Seq<char>| known@.contains_key(k) <==> ids.contains(k),
            fresh@ == unrecorded(fetched@.take(j as int), ids),
        decreases fetched.len() - j,
    {
        proof {
            assert(fetched@.take(j + 1).drop_last() == fetched@.take(j as int));
        }
        if !known.contains_key(fetched[j].sha.as_str()) {
            fresh.push(commit_copy(&fetched[j]));
        }
        j += 1;
    }
    proof {
        assert(fetched@.take(fetched.len() as int) == fetched@);
    }
    fresh
}

fn commit_copy(commit: &RawCommit) -> (copy: RawCommit)
    ensures
        copy == *commit,
{
    RawCommit {
        sha: commit.sha.clone(),
        author_name: commit.author_name.clone(),
        author_email: commit.author_email.clone(),
    }
}

/// Accepts what the store wrote only if it wrote every record handed to it.
pub fn confirm(expected: usize, affected: usize) -> (r: Result<(), AssignError>)
    ensures
        match r {
            Ok(_) => expected == affected,
            Err(e) => expected != affected && e == (AssignError::RowCount { expected, affected }),
        },
{
    if expected == affected {
        Ok(())
    } else {
        Err(AssignError::RowCount { expected, affected })
    }
}

/// The commit records of a store: for each commit id, the release and the
/// author that the commit is attributed to.
pub type CommitTable = Map<Seq<char>, (i32, i32)>;

/// The store after `records` were written to it, first to last: each record
/// stands in place of what the store held for its commit.
pub open spec fn upserted(table: CommitTable, records: Seq<Commit>) -> CommitTable
    decreases records.len(),
{
    if records.len() == 0 {
        table
    } else {
        upserted(table, records.drop_last()).insert(
            records.last().sha@,
            (records.last().release_id, records.last().author_id),
        )
    }
}

/// Writing records to a store lays them over what the store held.
pub proof fn lemma_upserted_overlays(table: CommitTable, records: Seq<Commit>)
    ensures
        upserted(table, records) == table.union_prefer_right(upserted(Map::empty(), records)),
    decreases records.len(),
{
    if records.len() > 0 {
        lemma_upserted_overlays(table, records.drop_last());
    }
    assert(upserted(table, records) =~= table.union_prefer_right(
        upserted(Map::empty(), records),
    ));
}

/// Assigning is idempotent: writing the same records a second time leaves the
/// store as the first writing left it.
pub proof fn lemma_assign_twice(table: CommitTable, records: Seq<Commit>)
    ensures
        upserted(upserted(table, records), records) == upserted(table, records),
{
    let written = upserted(Map::empty(), records);
    lemma_upserted_overlays(table, records);
    lemma_upserted_overlays(upserted(table, records), records);
    assert(table.union_prefer_right(written).union_prefer_right(written)
        =~= table.union_prefer_right(written));
}

/// A commit is attributed to what was written for it last: the last record
/// of a writing decides, whatever the store held and whatever came before.
pub proof fn lemma_last_write_wins(table: CommitTable, records: Seq<Commit>)
    requires
        records.len() > 0,
    ensures
        upserted(table, records).contains_key(records.last().sha@),
        upserted(table, records)[records.last().sha@] == (
            records.last().release_id,
            records.last().author_id,
        ),
{
}

/// Writing leaves every other commit as it was: a commit that no record
/// names keeps its release and its author.
pub proof fn lemma_other_commits_untouched(table: CommitTable, records: Seq<Commit>, sha: Seq<char>)
    requires
        forall|i: int| 0 <= i < records.len() ==> records[i].sha@ != sha,
    ensures
        upserted(table, records).contains_key(sha) == table.contains_key(sha),
        table.contains_key(sha) ==> upserted(table, records)[sha] == table[sha],
    decreases records.len(),
{
    if records.len() > 0 {
        assert forall|i: int| 0 <= i < records.drop_last().len() implies records.drop_last()[i].sha@
            != sha by {
            assert(records[i].sha@ != sha);
        }
        lemma_other_commits_untouched(table, records.drop_last(), sha);
        assert(records[records.len() - 1].sha@ != sha);
    }
}

} // verus!
