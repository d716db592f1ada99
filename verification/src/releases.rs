//! Releases: the commits that belong to one, and the contributors to show
//! for it.
//!
//! A release holds the commits by which it differs from the release before
//! it. The two need not lie on one line of history, so the commits are taken
//! from both sides: those that only the release reaches and those that only
//! the one before reaches.

use std::cmp::Ordering;
use vstd::prelude::*;
use crate::collation::{
    char_order, char_order_of, display_order, display_order_of, is_display_sorted,
    sort_for_display, Precedence,
};
use crate::lists::{
    distinct, lemma_distinct_contains, lemma_distinct_no_duplicates, lemma_distinct_of_distinct,
};
use crate::text::{distinct_strings, same_text, texts};

pub use crate::versions::{all, semver_version};

verus! {

/// The commits of a first release, which has none before it: every commit
/// that the release reaches, none of them twice.
pub fn get_first_commits(reached: &Vec<String>) -> (commits: Vec<String>)
    ensures
        texts(commits@) == distinct(texts(reached@)),
{
    distinct_strings(reached)
}

/// The commits of a release: those that only the release reaches, then those
/// that only the release before it reaches, none of them twice.
pub fn get_commits(only_in_release: Vec<String>, only_in_previous: Vec<String>) -> (commits: Vec<
    String,
>)
    ensures
        texts(commits@) == distinct(texts(only_in_release@) + texts(only_in_previous@)),
{
    let mut all = only_in_release;
    let mut rest = only_in_previous;
    all.append(&mut rest);
    proof {
        assert(texts(all@) =~= texts(only_in_release@) + texts(only_in_previous@));
    }
    distinct_strings(&all)
}

/// The commits of a release are the symmetric difference of two histories:
/// where the two lists handed to [`get_commits`] hold what only the release
/// reaches and what only the release before it reaches, the result holds a
/// commit exactly if one of the two reaches it and the other does not,
/// whichever side that is, and holds none twice.
pub proof fn lemma_commits_between(
    release: Set<Seq<char>>,
    previous: Set<Seq<char>>,
    only_in_release: Seq<Seq<char>>,
    only_in_previous: Seq<Seq<char>>,
)
    requires
        forall|c: Seq<char>|
            only_in_release.contains(c) <==> release.contains(c) && !previous.contains(c),
        forall|c: Seq<char>|
            only_in_previous.contains(c) <==> previous.contains(c) && !release.contains(c),
    ensures
        forall|c: Seq<char>|
            distinct(only_in_release + only_in_previous).contains(c) <==> (release.contains(c)
                != previous.contains(c)),
        forall|i: int, j: int|
            0 <= i < j < distinct(only_in_release + only_in_previous).len() ==> distinct(
                only_in_release + only_in_previous,
            )[i] != distinct(only_in_release + only_in_previous)[j],
{
    let both = only_in_release + only_in_previous;
    lemma_distinct_no_duplicates(both);
    assert forall|c: Seq<char>| distinct(both).contains(c) <==> (release.contains(c)
        != previous.contains(c)) by {
        lemma_distinct_contains(both, c);
        if both.contains(c) {
            let i = choose|i: int| 0 <= i < both.len() && both[i] == c;
            if i < only_in_release.len() {
                assert(only_in_release[i] == c);
            } else {
                assert(only_in_previous[i - only_in_release.len()] == c);
            }
        }
        if only_in_release.contains(c) {
            let i = choose|i: int| 0 <= i < only_in_release.len() && only_in_release[i] == c;
            assert(both[i] == c);
        }
        if only_in_previous.contains(c) {
            let i = choose|i: int| 0 <= i < only_in_previous.len() && only_in_previous[i] == c;
            assert(both[only_in_release.len() + i] == c);
        }
    }
}

/// Where neither of the two lists handed to [`get_commits`] holds a commit
/// twice and the two share none, as is the case for what only the release
/// reaches and what only the release before it reaches, the result is the
/// first list followed by the second.
pub proof fn lemma_commits_of_two_sides(
    only_in_release: Seq<Seq<char>>,
    only_in_previous: Seq<Seq<char>>,
)
    requires
        forall|i: int, j: int|
            0 <= i < j < only_in_release.len() ==> only_in_release[i] != only_in_release[j],
        forall|i: int, j: int|
            0 <= i < j < only_in_previous.len() ==> only_in_previous[i] != only_in_previous[j],
        forall|i: int, j: int|
            0 <= i < only_in_release.len() && 0 <= j < only_in_previous.len()
                ==> only_in_release[i] != only_in_previous[j],
    ensures
        distinct(only_in_release + only_in_previous) == only_in_release + only_in_previous,
{
    lemma_distinct_of_distinct(only_in_release + only_in_previous);
}

/// Puts names in the order they are shown in. The sort is stable.
pub fn inaccurate_sort(strings: &mut Vec<String>)
    ensures
        is_display_sorted(old(strings)@, final(strings)@),
{
    let sorted = sort_for_display(strings);
    *strings = sorted;
}

/// The standard ordering that a precedence stands for.
pub open spec fn ordering_of(p: Precedence) -> Ordering {
    match p {
        Precedence::Before => Ordering::Less,
        Precedence::Same => Ordering::Equal,
        Precedence::After => Ordering::Greater,
    }
}

fn to_ordering(p: Precedence) -> (o: Ordering)
    ensures
        o == ordering_of(p),
{
    match p {
        Precedence::Before => Ordering::Less,
        Precedence::Same => Ordering::Equal,
        Precedence::After => Ordering::Greater,
    }
}

/// Compares two names as they are shown.
pub fn str_cmp(a_raw: &str, b_raw: &str) -> (o: Ordering)
    ensures
        o == ordering_of(display_order(a_raw@, b_raw@)),
{
    to_ordering(display_order_of(a_raw, b_raw))
}

/// Compares two characters of a display key.
pub fn char_cmp(a_char: char, b_char: char) -> (o: Ordering)
    ensures
        o == ordering_of(char_order(a_char, b_char)),
{
    to_ordering(char_order_of(a_char, b_char))
}

/// `s` without immediate repetitions: of each run of equal texts, the first.
pub open spec fn squeezed(s: Seq<Seq<char>>) -> Seq<Seq<char>>
    decreases s.len(),
{
    if s.len() == 0 {
        s
    } else if squeezed(s.drop_last()).len() > 0 && squeezed(s.drop_last()).last() == s.last() {
        squeezed(s.drop_last())
    } else {
        squeezed(s.drop_last()).push(s.last())
    }
}

/// Whether `shown` holds the contributors to show for the commits whose
/// authors are `names`: the names in display order, a name that follows
/// itself left out.
pub open spec fn is_contributor_list(names: Seq<String>, shown: Seq<Seq<char>>) -> bool {
    exists|sorted: Seq<String>| #[trigger]
        is_display_sorted(names, sorted) && shown == squeezed(texts(sorted))
}

/// The contributors to show for a release, given the name of the author of
/// each of its commits.
pub fn contributors(names: &Vec<String>) -> (shown: Vec<String>)
    ensures
        is_contributor_list(names@, texts(shown@)),
{
    let sorted = sort_for_display(names);
    let ghost all = texts(sorted@);
    let mut shown: Vec<String> = Vec::new();
    let mut i: usize = 0;
    proof {
        assert(texts(shown@) =~= squeezed(all.take(0)));
    }
    while i < sorted.len()
        invariant
            i <= sorted.len(),
            all == texts(sorted@),
            texts(shown@) == squeezed(all.take(i as int)),
        decreases sorted.len() - i,
    {
        let ghost so_far = shown@;
        proof {
            assert(all.take(i + 1).drop_last() == all.take(i as int));
            assert(all.take(i + 1).last() == sorted@[i as int]@);
            if so_far.len() > 0 {
                assert(texts(so_far).last() == so_far[so_far.len() - 1]@);
            }
        }
        let repeated = shown.len() > 0 && same_text(
            shown[shown.len() - 1].as_str(),
            sorted[i].as_str(),
        );
        if !repeated {
            shown.push(sorted[i].clone());
            proof {
                assert(texts(shown@) =~= texts(so_far).push(sorted@[i as int]@));
            }
        }
        i += 1;
    }
    proof {
        assert(all.take(sorted.len() as int) == all);
    }
    shown
}

/// The first position at or after `from` at which `tags` holds `tag`; the
/// length of `tags` if there is none.
pub open spec fn tag_position(tags: Seq<Seq<char>>, tag: Seq<char>, from: int) -> int
    decreases tags.len() - from,
{
    if 0 <= from < tags.len() && tags[from] != tag {
        tag_position(tags, tag, from + 1)
    } else {
        from
    }
}

/// The release before `tag_ref`: in a list of releases that starts with the
/// newest, the one that follows it. There is none for a release that the
/// list lacks, nor for its last.
pub fn find_previous_tag_ref(tags: &Vec<String>, tag_ref: &str) -> (previous: Option<String>)
    ensures
        match previous {
            Some(p) => tag_position(texts(tags@), tag_ref@, 0) + 1 < tags@.len() && p == tags@[
                tag_position(texts(tags@), tag_ref@, 0) + 1],
            None => tag_position(texts(tags@), tag_ref@, 0) + 1 >= tags@.len(),
        },
{
    let mut i: usize = 0;
    while i < tags.len()
        invariant
            i <= tags.len(),
            tag_position(texts(tags@), tag_ref@, 0) == tag_position(
                texts(tags@),
                tag_ref@,
                i as int,
            ),
        decreases tags.len() - i,
    {
        proof {
            assert(texts(tags@)[i as int] == tags@[i as int]@);
        }
        if same_text(tags[i].as_str(), tag_ref) {
            if i + 1 < tags.len() {
                return Some(tags[i + 1].clone());
            } else {
                return None;
            }
        }
        i += 1;
    }
    None
}

/// The name of the branch of what is not released yet.
pub open spec fn master() -> Seq<char> {
    seq!['m', 'a', 's', 't', 'e', 'r']
}

/// The reference of the branch of what is not released yet.
pub open spec fn master_ref() -> Seq<char> {
    seq!['r', 'e', 'f', 's', '/', 'h', 'e', 'a', 'd', 's', '/', 'm', 'a', 's', 't', 'e', 'r']
}

/// What stands before the name of a tag in its reference.
pub open spec fn tags_prefix() -> Seq<char> {
    seq!['r', 'e', 'f', 's', '/', 't', 'a', 'g', 's', '/']
}

/// The reference under which the repository knows a release.
pub open spec fn ref_of(release_name: Seq<char>) -> Seq<char> {
    if release_name == master() {
        master_ref()
    } else {
        tags_prefix() + release_name
    }
}

/// The reference under which the repository knows a release: that of its
/// tag, or that of the branch for what is not released yet.
pub fn release_ref(release_name: &str) -> (reference: String)
    ensures
        reference@ == ref_of(release_name@),
{
    proof {
        reveal_strlit("master");
        reveal_strlit("refs/heads/master");
        reveal_strlit("refs/tags/");
        assert("master"@ =~= master());
        assert("refs/heads/master"@ =~= master_ref());
        assert("refs/tags/"@ =~= tags_prefix());
    }
    if same_text(release_name, "master") {
        String::from_str("refs/heads/master")
    } else {
        String::from_str("refs/tags/").concat(release_name)
    }
}

} // verus!
