//! What the pages show: the contributors to a release, and the leaderboard
//! of a whole history.

use vstd::prelude::*;
use crate::collation::{is_display_sorted, sort_for_display};
use crate::lists::distinct;
use crate::mailmap::{Mailmap, Rules};
use crate::authors::{pair_keys, resolved};
use crate::ranking::{is_leaderboard, is_tally, rank, tally, Count, Score};
use crate::text::{distinct_strings, texts};

pub use crate::releases::inaccurate_sort;

verus! {

/// The canonical names of authors, one for one.
pub open spec fn canonical_names(rules: Rules, authors: Seq<(String, String)>) -> Seq<Seq<char>> {
    Seq::new(authors.len(), |i: int| rules.resolve(authors[i].0@, authors[i].1@).0)
}

/// The name to show for the author of each commit, given the name and email
/// that the commit carries.
pub fn names_of_authors(mailmap: &Mailmap, authors: &Vec<(String, String)>) -> (names: Vec<String>)
    ensures
        texts(names@) == canonical_names(mailmap@, authors@),
{
    let mut names: Vec<String> = Vec::new();
    let mut i: usize = 0;
    while i < authors.len()
        invariant
            i <= authors.len(),
            names@.len() == i,
            forall|k: int|
                0 <= k < i ==> (#[trigger] names@[k])@ == mailmap@.resolve(
                    authors@[k].0@,
                    authors@[k].1@,
                ).0,
        decreases authors.len() - i,
    {
        let (name, _) = mailmap.map(authors[i].0.as_str(), authors[i].1.as_str());
        names.push(name);
        i += 1;
    }
    proof {
        assert(texts(names@) =~= canonical_names(mailmap@, authors@));
    }
    names
}

/// Whether `shown` holds the contributors to a release whose commits have
/// the authors `authors`: their canonical names, each once, in display order.
pub open spec fn is_release_page(
    rules: Rules,
    authors: Seq<(String, String)>,
    shown: Seq<String>,
) -> bool {
    exists|once: Seq<String>| #[trigger]
        is_display_sorted(once, shown) && texts(once) == distinct(
            canonical_names(rules, authors),
        )
}

/// The contributors to a release, given the name and email of the author of
/// each of its commits.
pub fn release(mailmap: &Mailmap, authors: &Vec<(String, String)>) -> (shown: Vec<String>)
    ensures
        is_release_page(mailmap@, authors@, shown@),
{
    let names = names_of_authors(mailmap, authors);
    let once = distinct_strings(&names);
    sort_for_display(&once)
}

/// The canonical name and email of the author of each commit, given the name
/// and email that the commit carries.
pub fn canonical_authors(mailmap: &Mailmap, authors: &Vec<(String, String)>) -> (canonical: Vec<
    (String, String),
>)
    ensures
        pair_keys(canonical@) == resolved(mailmap@, pair_keys(authors@)),
{
    let mut canonical: Vec<(String, String)> = Vec::new();
    let mut i: usize = 0;
    while i < authors.len()
        invariant
            i <= authors.len(),
            canonical@.len() == i,
            forall|k: int|
                0 <= k < i ==> ((#[trigger] canonical@[k]).0@, canonical@[k].1@) == mailmap@.resolve(
                    authors@[k].0@,
                    authors@[k].1@,
                ),
        decreases authors.len() - i,
    {
        canonical.push(mailmap.map(authors[i].0.as_str(), authors[i].1.as_str()));
        i += 1;
    }
    proof {
        assert(pair_keys(canonical@) =~= resolved(mailmap@, pair_keys(authors@)));
    }
    canonical
}

/// Whether `board` is the leaderboard of a history whose commits have the
/// authors `authors`: one line for each canonical author, that is for each
/// canonical name and email, with the commits of all their spellings.
pub open spec fn is_all_time_page(
    rules: Rules,
    authors: Seq<(String, String)>,
    board: Seq<Score>,
) -> bool {
    exists|counts: Seq<Count>| #[trigger]
        is_tally(resolved(rules, pair_keys(authors)), counts) && is_leaderboard(counts, board)
}

/// The leaderboard of a whole history, given the name and email of the
/// author of each of its commits.
pub fn all_time(mailmap: &Mailmap, authors: &Vec<(String, String)>) -> (board: Vec<Score>)
    ensures
        is_all_time_page(mailmap@, authors@, board@),
{
    let canonical = canonical_authors(mailmap, authors);
    let counts = tally(&canonical);
    rank(&counts)
}

} // verus!
