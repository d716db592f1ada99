//! The releases of a project in order, newest first.
//!
//! Releases are tags of the repository. Most are version numbers and are put
//! in the order of semantic versioning; the earliest ones are named
//! `release-…` and come before all of those, in the order given. What is not
//! released yet goes by the name `master` and is the newest of all.

use vstd::prelude::*;
use crate::lists::kept;
use crate::sorting::{before, is_order_by, lists_within, stable_order, total_preorder, Ranked};
use crate::text::{chars_of, texts};

verus! {

/// Whether `Version::parse` of semver accepts a text.
pub uninterp spec fn is_semver(s: Seq<char>) -> bool;

/// Whether, of two texts that semver accepts, the version of the first is
/// less than or equal to that of the second.
pub uninterp spec fn semver_le(a: Seq<char>, b: Seq<char>) -> bool;

/// Whether the order of versions compares any two versions and is
/// transitive, as the order of an `Ord` type should.
pub open spec fn semver_is_ordered() -> bool {
    &&& forall|a: Seq<char>, b: Seq<char>|
        is_semver(a) && is_semver(b) ==> #[trigger] semver_le(a, b) || semver_le(b, a)
    &&& forall|a: Seq<char>, b: Seq<char>, c: Seq<char>|
        is_semver(a) && is_semver(b) && is_semver(c) && #[trigger] semver_le(a, b)
            && #[trigger] semver_le(b, c) ==> semver_le(a, c)
}

/// `Version::parse` of semver: whether `s` is a semantic version. The
/// contract only gives the answer its name, [`is_semver`].
#[verifier::external_body]
fn parses(s: &str) -> (r: bool)
    ensures
        r == is_semver(s@),
{
    semver::Version::parse(s).is_ok()
}

/// The order of semver's `Version`, on two texts that it parses: whether the
/// first version is less than or equal to the second. The contract only
/// gives the answer its name, [`semver_le`]; that the order compares any two
/// versions and is transitive is not claimed here.
#[verifier::external_body]
fn precedes(a: &str, b: &str) -> (r: bool)
    requires
        is_semver(a@),
        is_semver(b@),
    ensures
        r == semver_le(a@, b@),
{
    semver::Version::parse(a).unwrap() <= semver::Version::parse(b).unwrap()
}

/// The text `.0`, which makes a version of two numbers one of three.
pub open spec fn patch_zero() -> Seq<char> {
    seq!['.', '0']
}

/// The semantic version that a tag stands for, given whether the tag is one
/// itself and whether the tag with `.0` after it is one: the first of the
/// two that is.
pub open spec fn chosen_version(version: Seq<char>, plain: bool, longer: bool) -> Option<
    Seq<char>,
> {
    if plain {
        Some(version)
    } else if longer {
        Some(version + patch_zero())
    } else {
        None
    }
}

/// The semantic version that a tag stands for: the tag itself, or the tag
/// with `.0` after it for an old version that lacks its last number.
pub open spec fn semver_text(version: Seq<char>) -> Option<Seq<char>> {
    chosen_version(version, is_semver(version), is_semver(version + patch_zero()))
}

/// The semantic version that a tag stands for, given whether the tag is one
/// itself and whether the tag with `.0` after it is one.
pub fn choose_version(version: &str, plain: bool, longer: bool) -> (r: Option<String>)
    ensures
        match r {
            Some(v) => chosen_version(version@, plain, longer) == Some(v@),
            None => chosen_version(version@, plain, longer) is None,
        },
{
    if plain {
        Some(version.to_owned())
    } else if longer {
        proof {
            reveal_strlit(".0");
            assert(".0"@ =~= patch_zero());
        }
        Some(String::from_str(version).concat(".0"))
    } else {
        None
    }
}

/// The semantic version that a tag stands for, if it stands for one.
pub fn semver_version(version: &str) -> (r: Option<String>)
    ensures
        match r {
            Some(v) => semver_text(version@) == Some(v@),
            None => semver_text(version@) is None,
        },
{
    let plain = parses(version);
    let longer = if plain {
        false
    } else {
        proof {
            reveal_strlit(".0");
            assert(".0"@ =~= patch_zero());
        }
        parses(String::from_str(version).concat(".0").as_str())
    };
    choose_version(version, plain, longer)
}

/// The text `release-`, with which the names of the earliest releases start.
pub open spec fn early_prefix() -> Seq<char> {
    seq!['r', 'e', 'l', 'e', 'a', 's', 'e', '-']
}

/// Whether a tag names one of the earliest releases.
pub open spec fn is_early(tag: Seq<char>) -> bool {
    tag.len() >= early_prefix().len() && tag.subrange(0, early_prefix().len() as int)
        == early_prefix()
}

/// What holds of the tags of the earliest releases.
pub open spec fn early() -> spec_fn(Seq<char>) -> bool {
    |tag: Seq<char>| is_early(tag)
}

/// What holds of the tags that are version numbers.
pub open spec fn numbered() -> spec_fn(Seq<char>) -> bool {
    |tag: Seq<char>| !is_early(tag)
}

/// Whether a tag names one of the earliest releases.
pub fn starts_early(tag: &str) -> (r: bool)
    ensures
        r == is_early(tag@),
{
    let cs = chars_of(tag);
    let prefix = chars_of("release-");
    proof {
        reveal_strlit("release-");
        assert(prefix@ =~= early_prefix());
    }
    if cs.len() < prefix.len() {
        return false;
    }
    let mut i: usize = 0;
    while i < prefix.len()
        invariant
            i <= prefix.len(),
            prefix@ == early_prefix(),
            cs@ == tag@,
            cs.len() >= prefix.len(),
            forall|k: int| 0 <= k < i ==> cs@[k] == prefix@[k],
        decreases prefix.len() - i,
    {
        if cs[i] != prefix[i] {
            proof {
                assert(tag@.subrange(0, early_prefix().len() as int)[i as int] == cs@[i as int]);
            }
            return false;
        }
        i += 1;
    }
    proof {
        assert(tag@.subrange(0, early_prefix().len() as int) =~= early_prefix());
    }
    true
}

/// Tags with the versions they stand for, to be put in order.
pub struct Versions {
    tags: Vec<String>,
    versions: Vec<String>,
}

impl Versions {
    /// Every tag stands for the version beside it.
    #[verifier::type_invariant]
    closed spec fn numbered(&self) -> bool {
        &&& self.tags@.len() == self.versions@.len()
        &&& forall|i: int|
            0 <= i < self.tags@.len() ==> semver_text(self.tags@[i]@) == Some(
                (#[trigger] self.versions@[i])@,
            )
    }

    /// The tags.
    pub closed spec fn tags(&self) -> Seq<String> {
        self.tags@
    }

    /// No tags.
    pub fn new() -> (v: Versions)
        ensures
            v.tags() == Seq::<String>::empty(),
    {
        Versions { tags: Vec::new(), versions: Vec::new() }
    }

    /// Takes in one more tag, if it stands for a version.
    pub fn with(self, tag: &String) -> (r: Option<Versions>)
        ensures
            match r {
                Some(v) => semver_text(tag@) is Some && v.tags() == self.tags().push(*tag),
                None => semver_text(tag@) is None,
            },
    {
        proof {
            use_type_invariant(&self);
        }
        match semver_version(tag.as_str()) {
            Some(version) => {
                let Versions { mut tags, mut versions } = self;
                tags.push(tag.clone());
                versions.push(version);
                Some(Versions { tags, versions })
            },
            None => None,
        }
    }

    /// How many tags there are.
    pub fn len(&self) -> (n: usize)
        ensures
            n == self.tags().len(),
    {
        self.tags.len()
    }

    /// The tag at `i`.
    pub fn tag(&self, i: usize) -> (t: &String)
        requires
            i < self.tags().len(),
        ensures
            *t == self.tags()[i as int],
    {
        &self.tags[i]
    }
}

/// Whether the version of one tag is less than or equal to that of another.
pub open spec fn tag_le(a: Seq<char>, b: Seq<char>) -> bool {
    semver_text(a) is Some && semver_text(b) is Some && semver_le(
        semver_text(a).unwrap(),
        semver_text(b).unwrap(),
    )
}

impl Ranked for Versions {
    closed spec fn size(&self) -> nat {
        self.tags@.len()
    }

    closed spec fn le(&self, i: int, j: int) -> bool {
        semver_le(self.versions@[i]@, self.versions@[j]@)
    }

    fn no_later(&self, i: usize, j: usize) -> (r: bool) {
        proof {
            use_type_invariant(self);
        }
        precedes(self.versions[i].as_str(), self.versions[j].as_str())
    }
}

/// Whether reading `tags` in the order `perm` gives them from the oldest
/// version to the newest, tags with the same version in the order they
/// stand in.
pub open spec fn is_version_order(tags: Seq<String>, perm: Seq<usize>) -> bool {
    is_order_by(tags.len(), |i: int, j: int| tag_le(tags[i]@, tags[j]@), perm)
}

/// An order in which to read the tags: it lists every tag once, and goes
/// from the oldest version to the newest wherever the order of versions is
/// one to sort by.
pub fn version_order(tags: &Versions) -> (perm: Vec<usize>)
    ensures
        perm@.len() == tags.tags().len(),
        lists_within(perm@, 0, tags.tags().len() as int),
        semver_is_ordered() ==> is_version_order(tags.tags(), perm@),
{
    let perm = stable_order(tags, tags.len());
    proof {
        use_type_invariant(tags);
        if semver_is_ordered() {
            assert(total_preorder(tags));
            let le = |i: int, j: int| tag_le(tags.tags()[i]@, tags.tags()[j]@);
            assert forall|p: int, q: int| 0 <= p < q < perm@.len() implies {
                let i = (#[trigger] perm@[p]) as int;
                let j = (#[trigger] perm@[q]) as int;
                le(i, j) && (le(j, i) ==> i < j)
            } by {
                assert(before(tags, perm@[p] as int, perm@[q] as int));
            }
        }
    }
    perm
}

/// The name of what is not released yet.
pub open spec fn master() -> Seq<char> {
    seq!['m', 'a', 's', 't', 'e', 'r']
}

/// `tags` read in the order `perm`.
pub open spec fn in_order(tags: Seq<Seq<char>>, perm: Seq<usize>) -> Seq<Seq<char>> {
    Seq::new(perm.len(), |p: int| tags[perm[p] as int])
}

/// Whether `releases` holds, newest first, the releases that `tags` name,
/// with the version numbers read in the order `perm`: `master`, then the
/// version numbers, then the earliest releases, last to first. The version
/// numbers go from the newest to the oldest wherever the order of versions
/// is one to sort by, and each is there once in any case.
pub open spec fn is_release_list_by(
    tags: Seq<Seq<char>>,
    numbers: Seq<String>,
    perm: Seq<usize>,
    releases: Seq<Seq<char>>,
) -> bool {
    &&& texts(numbers) == kept(tags, numbered())
    &&& perm.len() == numbers.len()
    &&& lists_within(perm, 0, numbers.len() as int)
    &&& semver_is_ordered() ==> is_version_order(numbers, perm)
    &&& releases == (kept(tags, early()) + in_order(texts(numbers), perm)).push(
        master(),
    ).reverse()
}

/// Whether `releases` lists the releases that `tags` name, newest first.
pub open spec fn is_release_list(tags: Seq<Seq<char>>, releases: Seq<Seq<char>>) -> bool {
    exists|numbers: Seq<String>, perm: Seq<usize>| #[trigger]
        is_release_list_by(tags, numbers, perm, releases)
}

/// Whether every tag that is not one of the earliest releases stands for a
/// version.
pub open spec fn all_numbered(tags: Seq<Seq<char>>) -> bool {
    forall|i: int| 0 <= i < tags.len() && !is_early(tags[i]) ==> semver_text(tags[i]) is Some
}

/// The releases of a project, newest first, given the tags of its
/// repository. There is no such list where a tag that is not one of the
/// earliest releases stands for no version.
pub fn all(tag_names: &Vec<String>) -> (r: Option<Vec<String>>)
    ensures
        match r {
            Some(releases) => all_numbered(texts(tag_names@)) && is_release_list(
                texts(tag_names@),
                texts(releases@),
            ),
            None => !all_numbered(texts(tag_names@)),
        },
{
    let ghost tags = texts(tag_names@);
    let mut first: Vec<String> = Vec::new();
    let mut numbers = Versions::new();
    let mut i: usize = 0;
    proof {
        assert(texts(first@) =~= kept(tags.take(0), early()));
        assert(texts(numbers.tags()) =~= kept(tags.take(0), numbered()));
    }
    while i < tag_names.len()
        invariant
            i <= tag_names.len(),
            tags == texts(tag_names@),
            texts(first@) == kept(tags.take(i as int), early()),
            texts(numbers.tags()) == kept(tags.take(i as int), numbered()),
            forall|k: int| 0 <= k < i && !is_early(tags[k]) ==> semver_text(tags[k]) is Some,
        decreases tag_names.len() - i,
    {
        let ghost old_first = first@;
        let ghost old_numbers = numbers.tags();
        proof {
            assert(tags.take(i + 1).drop_last() == tags.take(i as int));
            assert(tags.take(i + 1).last() == tag_names@[i as int]@);
        }
        if starts_early(tag_names[i].as_str()) {
            first.push(tag_names[i].clone());
            proof {
                assert(texts(first@) =~= texts(old_first).push(tag_names@[i as int]@));
            }
        } else {
            match numbers.with(&tag_names[i]) {
                Some(more) => {
                    numbers = more;
                    proof {
                        assert(texts(numbers.tags()) =~= texts(old_numbers).push(
                            tag_names@[i as int]@,
                        ));
                    }
                },
                None => {
                    proof {
                        assert(!is_early(tags[i as int]) && semver_text(tags[i as int]) is None);
                    }
                    return None;
                },
            }
        }
        i += 1;
    }
    proof {
        assert(tags.take(tag_names.len() as int) == tags);
    }
    let perm = version_order(&numbers);
    let mut oldest_first = first;
    let ghost early_tags = texts(oldest_first@);
    let mut p: usize = 0;
    while p < perm.len()
        invariant
            p <= perm.len(),
            perm@.len() == numbers.tags().len(),
            lists_within(perm@, 0, numbers.tags().len() as int),
            early_tags == kept(tags, early()),
            texts(oldest_first@) == early_tags + in_order(texts(numbers.tags()), perm@).take(
                p as int,
            ),
        decreases perm.len() - p,
    {
        let ghost so_far = oldest_first@;
        oldest_first.push(numbers.tag(perm[p]).clone());
        proof {
            assert(texts(oldest_first@) =~= texts(so_far).push(
                in_order(texts(numbers.tags()), perm@)[p as int],
            ));
            assert(in_order(texts(numbers.tags()), perm@).take(p + 1) =~= in_order(
                texts(numbers.tags()),
                perm@,
            ).take(p as int).push(in_order(texts(numbers.tags()), perm@)[p as int]));
        }
        p += 1;
    }
    let ghost numbered_in_order = in_order(texts(numbers.tags()), perm@);
    proof {
        assert(numbered_in_order.take(perm.len() as int) == numbered_in_order);
    }
    let ghost before_master = oldest_first@;
    oldest_first.push(String::from_str("master"));
    proof {
        reveal_strlit("master");
        assert("master"@ =~= master());
        assert(texts(oldest_first@) =~= (early_tags + numbered_in_order).push(master()));
    }
    let ghost ascending = texts(oldest_first@);
    let mut releases: Vec<String> = Vec::new();
    let mut k: usize = oldest_first.len();
    while k > 0
        invariant
            k <= oldest_first.len(),
            ascending == texts(oldest_first@),
            releases@.len() == oldest_first.len() - k,
            forall|m: int|
                0 <= m < releases@.len() ==> (#[trigger] releases@[m])@ == ascending[
                    ascending.len() - 1 - m],
        decreases k,
    {
        k -= 1;
        releases.push(oldest_first[k].clone());
    }
    proof {
        assert(texts(releases@) =~= ascending.reverse());
        assert(is_release_list_by(tags, numbers.tags(), perm@, texts(releases@)));
    }
    Some(releases)
}

} // verus!
