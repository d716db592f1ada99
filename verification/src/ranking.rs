//! The leaderboard: authors ranked by how many commits they made.
//!
//! Authors with the same number of commits share a rank, and the rank after a
//! group of them is the position in the list, so after two authors at rank 1
//! comes rank 3.

use vstd::prelude::*;
use crate::sorting::{
    before, is_order_by, lemma_order_lists_all, lemma_order_unique, stable_order, total_preorder,
    Ranked,
};
use crate::lists::{
    distinct, lemma_distinct_contains, lemma_distinct_no_duplicates, lemma_occurrences_bound,
    lemma_occurrences_ignore_order, lemma_same_items_same_images, occurrences,
};
use crate::authors::pair_keys;
use crate::pair_map::{PairKey, PairMap};

verus! {

/// One line of the leaderboard.
#[derive(Debug)]
pub struct Score {
    pub rank: u64,
    pub author: String,
    pub commits: u64,
}

/// An author with the number of their commits. Authors are told apart by
/// name and email together: two with one name are two authors.
#[derive(Debug)]
pub struct Count {
    pub name: String,
    pub email: String,
    pub commits: u64,
}

impl Count {
    /// The name and email that the author is known by.
    pub open spec fn key(self) -> PairKey {
        (self.name@, self.email@)
    }
}

/// The authors that a list of counts speaks of.
pub open spec fn keys_of(counts: Seq<Count>) -> Seq<PairKey> {
    Seq::new(counts.len(), |i: int| counts[i].key())
}

/// Whether `counts` says of each author of `authors`, in the order they
/// first occur, how many commits they made.
pub open spec fn is_tally(authors: Seq<PairKey>, counts: Seq<Count>) -> bool {
    &&& keys_of(counts) == distinct(authors)
    &&& forall|k: int|
        0 <= k < counts.len() ==> (#[trigger] counts[k]).commits == occurrences(
            authors,
            counts[k].key(),
        )
}

/// Counts the commits of each author, given the canonical name and email of
/// the author of each commit.
pub fn tally(authors: &Vec<(String, String)>) -> (counts: Vec<Count>)
    ensures
        is_tally(pair_keys(authors@), counts@),
{
    let mut index: PairMap<usize> = PairMap::new();
    let mut counts: Vec<Count> = Vec::new();
    let ghost all = pair_keys(authors@);
    let mut i: usize = 0;
    proof {
        assert(keys_of(counts@) =~= distinct(all.take(0)));
    }
    while i < authors.len()
        invariant
            i <= authors.len(),
            all == pair_keys(authors@),
            keys_of(counts@) == distinct(all.take(i as int)),
            forall|k: int|
                0 <= k < counts@.len() ==> (#[trigger] counts@[k]).commits == occurrences(
                    all.take(i as int),
                    counts@[k].key(),
                ),
            forall|key: PairKey| index@.contains_key(key) <==> keys_of(counts@).contains(key),
            forall|k: int|
                0 <= k < counts@.len() ==> index@.contains_key((#[trigger] counts@[k]).key())
                    && index@[counts@[k].key()] == k,
        decreases authors.len() - i,
    {
        let ghost seen = all.take(i as int);
        let ghost next = all.take(i + 1);
        let ghost old_counts = counts@;
        let ghost x: PairKey = (authors@[i as int].0@, authors@[i as int].1@);
        proof {
            assert(next.drop_last() == seen);
            assert(next.last() == x);
            assert forall|k: int| 0 <= k < old_counts.len() implies keys_of(old_counts)[k]
                == (#[trigger] old_counts[k]).key() by {}
        }
        let found = match index.get(authors[i].0.as_str(), authors[i].1.as_str()) {
            Some(at) => Some(*at),
            None => None,
        };
        match found {
            Some(at) => {
                proof {
                    assert(keys_of(old_counts).contains(x));
                    let k = choose|k: int|
                        0 <= k < keys_of(old_counts).len() && keys_of(old_counts)[k] == x;
                    assert(old_counts[k].key() == x);
                    assert(at == k);
                    lemma_occurrences_bound(seen, x);
                }
                let name = counts[at].name.clone();
                let email = counts[at].email.clone();
                let n = counts[at].commits;
                counts.set(at, Count { name, email, commits: n + 1 });
                proof {
                    assert(keys_of(counts@) =~= keys_of(old_counts));
                    assert forall|k: int| 0 <= k < counts@.len() implies (
                    #[trigger] counts@[k]).commits == occurrences(next, counts@[k].key()) by {
                        if k != at {
                            assert(counts@[k] == old_counts[k]);
                            assert(keys_of(old_counts)[k] == old_counts[k].key());
                            assert(keys_of(old_counts)[at as int] == old_counts[at as int].key());
                            lemma_distinct_no_duplicates(seen);
                        }
                    }
                    assert forall|k: int| 0 <= k < counts@.len() implies index@.contains_key(
                        (#[trigger] counts@[k]).key(),
                    ) && index@[counts@[k].key()] == k by {
                        assert(counts@[k].key() == old_counts[k].key());
                    }
                }
            },
            None => {
                index.insert(authors[i].0.clone(), authors[i].1.clone(), counts.len());
                counts.push(
                    Count { name: authors[i].0.clone(), email: authors[i].1.clone(), commits: 1 },
                );
                proof {
                    let d = keys_of(old_counts);
                    assert(!d.contains(x));
                    assert(keys_of(counts@) =~= d.push(x));
                    assert forall|k: int| 0 <= k < counts@.len() implies (
                    #[trigger] counts@[k]).commits == occurrences(next, counts@[k].key()) by {
                        if k < old_counts.len() {
                            assert(counts@[k] == old_counts[k]);
                            assert(d[k] == old_counts[k].key());
                        } else {
                            lemma_absent_occurs_never(seen, x);
                        }
                    }
                    assert forall|key: PairKey| index@.contains_key(key) <==> keys_of(
                        counts@,
                    ).contains(key) by {
                        if d.push(x).contains(key) {
                            let j = choose|j: int| 0 <= j < d.push(x).len() && d.push(x)[j] == key;
                            if j < d.len() {
                                assert(d[j] == key);
                            }
                        }
                        if d.contains(key) {
                            let j = choose|j: int| 0 <= j < d.len() && d[j] == key;
                            assert(d.push(x)[j] == key);
                        }
                        assert(d.push(x)[d.len() as int] == x);
                    }
                    assert forall|k: int| 0 <= k < counts@.len() implies index@.contains_key(
                        (#[trigger] counts@[k]).key(),
                    ) && index@[counts@[k].key()] == k by {
                        if k < old_counts.len() {
                            assert(counts@[k] == old_counts[k]);
                            assert(d[k] == old_counts[k].key());
                        }
                    }
                }
            },
        }
        i += 1;
    }
    proof {
        assert(all.take(authors.len() as int) == all);
    }
    counts
}

/// What a list without repetitions of `s` lacks does not occur in `s`.
proof fn lemma_absent_occurs_never<A>(s: Seq<A>, x: A)
    requires
        !distinct(s).contains(x),
    ensures
        occurrences(s, x) == 0,
    decreases s.len(),
{
    if s.len() > 0 {
        lemma_distinct_contains(s, x);
        lemma_distinct_contains(s.drop_last(), x);
        assert(s[s.len() - 1] != x);
        if s.drop_last().contains(x) {
            let j = choose|j: int| 0 <= j < s.drop_last().len() && s.drop_last()[j] == x;
            assert(s[j] == x);
        }
        lemma_absent_occurs_never(s.drop_last(), x);
    }
}

/// The rank at position `p` of a list of counts that falls: that of the
/// position before where the counts are equal, else the position counted
/// from one.
pub open spec fn rank_at(counts: Seq<u64>, p: int) -> int
    decreases p,
{
    if p <= 0 {
        1
    } else if counts[p] == counts[p - 1] {
        rank_at(counts, p - 1)
    } else {
        p + 1
    }
}

/// Whether a list of counts never rises.
pub open spec fn falls(counts: Seq<u64>) -> bool {
    forall|i: int, j: int| 0 <= i < j < counts.len() ==> counts[i] >= counts[j]
}

/// In a list of counts that falls, the rank of an entry is one more than the
/// number of entries with a greater count: the entry at `rank - 1` has the
/// same count, and all before it have a greater one. So equal counts share a
/// rank, and the first entry after a group of ties has its position as rank.
pub proof fn lemma_rank_is_competition_rank(counts: Seq<u64>, p: int)
    requires
        falls(counts),
        0 <= p < counts.len(),
    ensures
        1 <= rank_at(counts, p) <= p + 1,
        counts[rank_at(counts, p) - 1] == counts[p],
        forall|q: int| 0 <= q < rank_at(counts, p) - 1 ==> counts[q] > counts[p],
        p > 0 && counts[p] != counts[p - 1] ==> rank_at(counts, p) == p + 1,
    decreases p,
{
    if p > 0 {
        if counts[p] == counts[p - 1] {
            lemma_rank_is_competition_rank(counts, p - 1);
        } else {
            assert forall|q: int| 0 <= q < p implies counts[q] > counts[p] by {
                if q < p - 1 {
                    assert(counts[q] >= counts[p - 1]);
                }
                assert(counts[p - 1] >= counts[p]);
            }
        }
    }
}

/// In a list of counts that falls, entries with equal counts share a rank.
pub proof fn lemma_equal_counts_share_rank(counts: Seq<u64>, i: int, j: int)
    requires
        falls(counts),
        0 <= i <= j < counts.len(),
        counts[i] == counts[j],
    ensures
        rank_at(counts, i) == rank_at(counts, j),
    decreases j - i,
{
    if i < j {
        assert(counts[i] >= counts[j - 1]);
        assert(counts[j - 1] >= counts[j]);
        lemma_equal_counts_share_rank(counts, i, j - 1);
    }
}

/// Counted authors, known by their counts, with more commits sorting first.
pub struct ByCommits {
    pub commits: Vec<u64>,
}

impl Ranked for ByCommits {
    open spec fn size(&self) -> nat {
        self.commits@.len()
    }

    open spec fn le(&self, i: int, j: int) -> bool {
        self.commits@[i] >= self.commits@[j]
    }

    fn no_later(&self, i: usize, j: usize) -> (r: bool) {
        self.commits[i] >= self.commits[j]
    }
}

/// Whether reading `counts` in the order `perm` gives a leaderboard: more
/// commits first, and authors with the same number in the order they stand.
pub open spec fn is_leaderboard_order(counts: Seq<Count>, perm: Seq<usize>) -> bool {
    &&& perm.len() == counts.len()
    &&& forall|p: int| 0 <= p < perm.len() ==> 0 <= #[trigger] perm[p] < counts.len()
    &&& forall|p: int, q: int|
        0 <= p < q < perm.len() ==> {
            let a = counts[(#[trigger] perm[p]) as int].commits;
            let b = counts[(#[trigger] perm[q]) as int].commits;
            a >= b && (a == b ==> perm[p] < perm[q])
        }
}

/// The commit counts of `counts` read in the order `perm`.
pub open spec fn commits_in_order(counts: Seq<Count>, perm: Seq<usize>) -> Seq<u64> {
    Seq::new(perm.len(), |p: int| counts[perm[p] as int].commits)
}

/// Whether `board` is the leaderboard of `counts` read in the order `perm`.
pub open spec fn is_leaderboard_of(
    counts: Seq<Count>,
    perm: Seq<usize>,
    board: Seq<Score>,
) -> bool {
    &&& is_leaderboard_order(counts, perm)
    &&& board.len() == counts.len()
    &&& forall|p: int|
        0 <= p < board.len() ==> {
            &&& (#[trigger] board[p]).author == counts[perm[p] as int].name
            &&& board[p].commits == counts[perm[p] as int].commits
            &&& board[p].rank == rank_at(commits_in_order(counts, perm), p)
        }
}

/// Whether `board` is the leaderboard of `counts`.
pub open spec fn is_leaderboard(counts: Seq<Count>, board: Seq<Score>) -> bool {
    exists|perm: Seq<usize>| #[trigger] is_leaderboard_of(counts, perm, board)
}

/// Ranks counted authors: most commits first, authors with the same number of
/// commits in the order given and under one rank.
pub fn rank(counts: &Vec<Count>) -> (board: Vec<Score>)
    ensures
        is_leaderboard(counts@, board@),
        forall|i: int, j: int| 0 <= i < j < board@.len() ==> board@[i].commits >= board@[j].commits,
{
    let mut commits: Vec<u64> = Vec::new();
    let mut i: usize = 0;
    while i < counts.len()
        invariant
            i <= counts.len(),
            commits@.len() == i,
            forall|k: int| 0 <= k < i ==> commits@[k] == counts@[k].commits,
        decreases counts.len() - i,
    {
        commits.push(counts[i].commits);
        i += 1;
    }
    let by = ByCommits { commits };
    assert(total_preorder(&by));
    let perm = stable_order(&by, counts.len());
    proof {
        assert forall|p: int, q: int| 0 <= p < q < perm@.len() implies {
            let a = counts@[(#[trigger] perm@[p]) as int].commits;
            let b = counts@[(#[trigger] perm@[q]) as int].commits;
            a >= b && (a == b ==> perm@[p] < perm@[q])
        } by {
            assert(before(&by, perm@[p] as int, perm@[q] as int));
        }
        assert(is_leaderboard_order(counts@, perm@));
    }
    let ghost sorted = commits_in_order(counts@, perm@);
    let mut board: Vec<Score> = Vec::new();
    let mut p: usize = 0;
    let mut last_rank: u64 = 0;
    let mut last_commits: u64 = 0;
    while p < perm.len()
        invariant
            p <= perm.len(),
            perm@.len() == counts@.len(),
            is_leaderboard_order(counts@, perm@),
            sorted == commits_in_order(counts@, perm@),
            board@.len() == p,
            p > 0 ==> last_rank == rank_at(sorted, p - 1) && last_commits == sorted[p - 1],
            forall|k: int|
                0 <= k < p ==> {
                    &&& (#[trigger] board@[k]).author == counts@[perm@[k] as int].name
                    &&& board@[k].commits == counts@[perm@[k] as int].commits
                    &&& board@[k].rank == rank_at(sorted, k)
                },
        decreases perm.len() - p,
    {
        let entry = &counts[perm[p]];
        proof {
            lemma_rank_bound(sorted, p as int);
            if p > 0 {
                lemma_rank_bound(sorted, p - 1);
            }
        }
        if p == 0 || entry.commits != last_commits {
            last_rank = (p + 1) as u64;
            last_commits = entry.commits;
        }
        board.push(Score { rank: last_rank, author: entry.name.clone(), commits: entry.commits });
        p += 1;
    }
    proof {
        assert(is_leaderboard_of(counts@, perm@, board@));
    }
    board
}

/// A rank is at least one and at most the position counted from one.
pub proof fn lemma_rank_bound(counts: Seq<u64>, p: int)
    requires
        0 <= p,
    ensures
        1 <= rank_at(counts, p) <= p + 1,
    decreases p,
{
    if p > 0 && counts[p] == counts[p - 1] {
        lemma_rank_bound(counts, p - 1);
    }
}

/// The leaderboard of a history, given the canonical name and email of the
/// author of each of its commits. Each author has one line, which shows
/// their name.
pub fn scores(authors: &Vec<(String, String)>) -> (board: Vec<Score>)
    ensures
        exists|counts: Seq<Count>| #[trigger]
            is_tally(pair_keys(authors@), counts) && is_leaderboard(counts, board@),
{
    let counts = tally(authors);
    rank(&counts)
}

/// The order of a leaderboard depends on the commit counts alone: two lists
/// of counted authors with the same counts at the same positions are read in
/// the same order.
pub proof fn lemma_leaderboard_order_unique(
    first: Seq<Count>,
    second: Seq<Count>,
    a: Seq<usize>,
    b: Seq<usize>,
)
    requires
        first.len() == second.len(),
        forall|k: int| 0 <= k < first.len() ==> first[k].commits == second[k].commits,
        is_leaderboard_order(first, a),
        is_leaderboard_order(second, b),
    ensures
        a == b,
{
    let le = |i: int, j: int| first[i].commits >= first[j].commits;
    assert(is_order_by(first.len(), le, a));
    assert(is_order_by(first.len(), le, b));
    lemma_order_unique(first.len(), le, a, b);
}

/// Ranking has one result: two leaderboards of the same counted authors are
/// the same.
pub proof fn lemma_leaderboard_unique(counts: Seq<Count>, first: Seq<Score>, second: Seq<Score>)
    requires
        is_leaderboard(counts, first),
        is_leaderboard(counts, second),
    ensures
        first == second,
{
    let a = choose|perm: Seq<usize>| #[trigger] is_leaderboard_of(counts, perm, first);
    let b = choose|perm: Seq<usize>| #[trigger] is_leaderboard_of(counts, perm, second);
    lemma_leaderboard_order_unique(counts, counts, a, b);
    assert(first =~= second);
}

/// Ranks and commit counts do not depend on who holds which count: where two
/// lists of counted authors differ only in the order of authors with equal
/// counts, their leaderboards show the same rank and the same count at every
/// position.
pub proof fn lemma_ranks_ignore_tie_order(
    first: Seq<Count>,
    second: Seq<Count>,
    first_board: Seq<Score>,
    second_board: Seq<Score>,
)
    requires
        first.len() == second.len(),
        forall|k: int| 0 <= k < first.len() ==> first[k].commits == second[k].commits,
        is_leaderboard(first, first_board),
        is_leaderboard(second, second_board),
    ensures
        first_board.len() == second_board.len(),
        forall|p: int|
            0 <= p < first_board.len() ==> first_board[p].rank == second_board[p].rank
                && first_board[p].commits == second_board[p].commits,
{
    let a = choose|perm: Seq<usize>| #[trigger] is_leaderboard_of(first, perm, first_board);
    let b = choose|perm: Seq<usize>| #[trigger] is_leaderboard_of(second, perm, second_board);
    lemma_leaderboard_order_unique(first, second, a, b);
    assert(commits_in_order(first, a) =~= commits_in_order(second, b));
}

/// A leaderboard falls: no entry has more commits than one above it. Its
/// ranks are those of [`rank_at`] on its own commit counts.
pub proof fn lemma_leaderboard_falls(counts: Seq<Count>, board: Seq<Score>)
    requires
        is_leaderboard(counts, board),
    ensures
        falls(Seq::new(board.len(), |p: int| board[p].commits)),
        forall|p: int|
            0 <= p < board.len() ==> board[p].rank == rank_at(
                Seq::new(board.len(), |p: int| board[p].commits),
                p,
            ),
{
    let perm = choose|perm: Seq<usize>| #[trigger] is_leaderboard_of(counts, perm, board);
    let column = Seq::new(board.len(), |p: int| board[p].commits);
    assert(column =~= commits_in_order(counts, perm));
    assert forall|i: int, j: int| 0 <= i < j < column.len() implies column[i] >= column[j] by {
        assert(counts[perm[i] as int].commits >= counts[perm[j] as int].commits);
    }
}

/// The commit counts of counted authors, as they stand.
pub open spec fn commits_of(counts: Seq<Count>) -> Seq<u64> {
    Seq::new(counts.len(), |i: int| counts[i].commits)
}

/// What sorts commit counts: more commits first.
pub open spec fn more_first() -> spec_fn(u64, u64) -> bool {
    |a: u64, b: u64| a >= b
}

/// Putting counted authors in the order of the leaderboard keeps their
/// counts: the same counts stand there, in another order.
proof fn lemma_order_keeps_commits(counts: Seq<Count>, perm: Seq<usize>)
    requires
        is_leaderboard_order(counts, perm),
    ensures
        commits_in_order(counts, perm).to_multiset() == commits_of(counts).to_multiset(),
{
    let n = counts.len();
    let a = Seq::new(n, |p: int| perm[p] as int);
    let b = Seq::new(n, |i: int| i);
    let f = |i: int| counts[i].commits;
    let le = |i: int, j: int| counts[i].commits >= counts[j].commits;
    assert(is_order_by(n, le, perm));
    assert forall|p: int, q: int| 0 <= p < q < a.len() implies a[p] != a[q] by {
        assert(le(perm[p] as int, perm[q] as int));
    }
    assert forall|x: int| a.contains(x) <==> b.contains(x) by {
        if a.contains(x) {
            let p = choose|p: int| 0 <= p < a.len() && a[p] == x;
            assert(0 <= perm[p] < n);
            assert(b[x] == x);
        }
        if b.contains(x) {
            let i = choose|i: int| 0 <= i < b.len() && b[i] == x;
            lemma_order_lists_all(n, le, perm, x);
            let p = choose|p: int| 0 <= p < perm.len() && perm[p] == x;
            assert(a[p] == x);
        }
    }
    lemma_same_items_same_images(a, b, f);
    assert(a.map_values(f) =~= commits_in_order(counts, perm));
    assert(b.map_values(f) =~= commits_of(counts));
}

/// The tallies of two histories whose commits are the same but for their
/// order give every author the same count, and hold the same counts.
proof fn lemma_tallies_agree(
    first: Seq<PairKey>,
    second: Seq<PairKey>,
    first_counts: Seq<Count>,
    second_counts: Seq<Count>,
)
    requires
        first.to_multiset() == second.to_multiset(),
        is_tally(first, first_counts),
        is_tally(second, second_counts),
    ensures
        first_counts.len() == second_counts.len(),
        commits_of(first_counts).to_multiset() == commits_of(second_counts).to_multiset(),
        forall|i: int, j: int|
            0 <= i < first_counts.len() && 0 <= j < second_counts.len() && first_counts[i].key()
                == second_counts[j].key() ==> first_counts[i].commits == second_counts[j].commits,
        forall|i: int|
            0 <= i < first_counts.len() ==> keys_of(second_counts).contains(
                #[trigger] keys_of(first_counts)[i],
            ),
{
    let k1 = keys_of(first_counts);
    let k2 = keys_of(second_counts);
    let f = |k: PairKey| occurrences(first, k) as u64;
    lemma_distinct_no_duplicates(first);
    lemma_distinct_no_duplicates(second);
    assert forall|x: PairKey| k1.contains(x) <==> k2.contains(x) by {
        lemma_distinct_contains(first, x);
        lemma_distinct_contains(second, x);
        vstd::seq_lib::to_multiset_contains(first, x);
        vstd::seq_lib::to_multiset_contains(second, x);
    }
    lemma_same_items_same_images(k1, k2, f);
    assert forall|i: int| 0 <= i < first_counts.len() implies k1.map_values(f)[i]
        == first_counts[i].commits by {
        assert(k1[i] == first_counts[i].key());
    }
    assert forall|j: int| 0 <= j < second_counts.len() implies k2.map_values(f)[j]
        == second_counts[j].commits by {
        assert(k2[j] == second_counts[j].key());
        lemma_occurrences_ignore_order(first, k2[j]);
        lemma_occurrences_ignore_order(second, k2[j]);
    }
    assert(k1.map_values(f) =~= commits_of(first_counts));
    assert(k2.map_values(f) =~= commits_of(second_counts));
    assert forall|i: int, j: int|
        0 <= i < first_counts.len() && 0 <= j < second_counts.len() && first_counts[i].key()
            == second_counts[j].key() implies first_counts[i].commits
        == second_counts[j].commits by {
        lemma_occurrences_ignore_order(first, first_counts[i].key());
        lemma_occurrences_ignore_order(second, first_counts[i].key());
    }
    assert forall|i: int| 0 <= i < first_counts.len() implies k2.contains(#[trigger] k1[i]) by {
        assert(k1.contains(k1[i]));
    }
}

/// Whether a leaderboard has a line with the author, rank and count of
/// `line`.
pub open spec fn shows(board: Seq<Score>, line: Score) -> bool {
    exists|q: int|
        0 <= q < board.len() && (#[trigger] board[q]).author@ == line.author@ && board[q].rank
            == line.rank && board[q].commits == line.commits
}

/// The leaderboard does not depend on the order of the commits. Take two
/// histories that hold the same commits in another order, so that every
/// author has the same number of commits in both. Then their leaderboards
/// show the same rank and the same count at every position, and every line
/// of the one, with its author, rank and count, is a line of the other;
/// only the order inside a group of equal counts may differ.
pub proof fn lemma_scores_ignore_commit_order(
    first: Seq<PairKey>,
    second: Seq<PairKey>,
    first_counts: Seq<Count>,
    second_counts: Seq<Count>,
    first_board: Seq<Score>,
    second_board: Seq<Score>,
)
    requires
        first.to_multiset() == second.to_multiset(),
        is_tally(first, first_counts),
        is_tally(second, second_counts),
        is_leaderboard(first_counts, first_board),
        is_leaderboard(second_counts, second_board),
    ensures
        first_board.len() == second_board.len(),
        forall|p: int|
            0 <= p < first_board.len() ==> (#[trigger] first_board[p]).rank == second_board[p].rank
                && first_board[p].commits == second_board[p].commits,
        forall|p: int|
            0 <= p < first_board.len() ==> shows(second_board, #[trigger] first_board[p]),
{
    let a = choose|perm: Seq<usize>| #[trigger]
        is_leaderboard_of(first_counts, perm, first_board);
    let b = choose|perm: Seq<usize>| #[trigger]
        is_leaderboard_of(second_counts, perm, second_board);
    let s1 = commits_in_order(first_counts, a);
    let s2 = commits_in_order(second_counts, b);
    lemma_tallies_agree(first, second, first_counts, second_counts);
    lemma_order_keeps_commits(first_counts, a);
    lemma_order_keeps_commits(second_counts, b);
    assert(vstd::relations::sorted_by(s1, more_first())) by {
        assert forall|i: int, j: int| 0 <= i < j < s1.len() implies (more_first())(
            s1[i],
            s1[j],
        ) by {
            assert(first_counts[a[i] as int].commits >= first_counts[a[j] as int].commits);
        }
    }
    assert(vstd::relations::sorted_by(s2, more_first())) by {
        assert forall|i: int, j: int| 0 <= i < j < s2.len() implies (more_first())(
            s2[i],
            s2[j],
        ) by {
            assert(second_counts[b[i] as int].commits >= second_counts[b[j] as int].commits);
        }
    }
    assert(vstd::relations::total_ordering(more_first()));
    vstd::seq_lib::lemma_sorted_unique(s1, s2, more_first());
    assert(s1 == s2);
    assert(falls(s1)) by {
        assert forall|i: int, j: int| 0 <= i < j < s1.len() implies s1[i] >= s1[j] by {
            assert(first_counts[a[i] as int].commits >= first_counts[a[j] as int].commits);
        }
    }
    let le = |i: int, j: int| second_counts[i].commits >= second_counts[j].commits;
    assert(is_order_by(second_counts.len(), le, b));
    assert forall|p: int| 0 <= p < first_board.len() implies shows(
        second_board,
        #[trigger] first_board[p],
    ) by {
        let i = a[p] as int;
        let key = keys_of(first_counts)[i];
        assert(keys_of(second_counts).contains(key));
        let j = choose|j: int|
            0 <= j < keys_of(second_counts).len() && keys_of(second_counts)[j] == key;
        assert(second_counts[j].key() == first_counts[i].key());
        lemma_order_lists_all(second_counts.len(), le, b, j);
        let q = choose|q: int| 0 <= q < b.len() && b[q] == j;
        assert(s1[p] == first_counts[i].commits);
        assert(s2[q] == second_counts[j].commits);
        if p <= q {
            lemma_equal_counts_share_rank(s1, p, q);
        } else {
            lemma_equal_counts_share_rank(s1, q, p);
        }
        assert(second_board[q].author@ == first_board[p].author@);
        assert(second_board[q].rank == first_board[p].rank);
    }
}

} // verus!
