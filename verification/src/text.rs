//! Characters and strings: what the rest of the library needs of them.

use vstd::prelude::*;
use vstd::hash_map::StringHashMap;
use crate::lists::distinct;

verus! {

/// What `str::to_lowercase` makes of a text.
pub uninterp spec fn lowercase(s: Seq<char>) -> Seq<char>;

/// `str::to_lowercase` of std: the lowercase equivalent of `s`, as the Unicode
/// tables that std is built with define it. The contract only gives the result
/// its name, [`lowercase`]; nothing is claimed of what it holds.
#[verifier::external_body]
pub(crate) fn to_lowercase(s: &str) -> (r: String)
    ensures
        r@ == lowercase(s@),
{
    s.to_lowercase()
}

/// The characters of `s`, in order.
pub fn chars_of(s: &str) -> (v: Vec<char>)
    ensures
        v@ == s@,
{
    let mut v: Vec<char> = Vec::new();
    for c in it: s.chars()
        invariant
            v@ == it.seq().take(it.index() as int),
    {
        v.push(c);
    }
    v
}

/// The characters `from..to` of `s` as an owned string.
pub fn substring(s: &str, from: usize, to: usize) -> (r: String)
    requires
        from <= to <= s@.len(),
    ensures
        r@ == s@.subrange(from as int, to as int),
{
    s.substring_char(from, to).to_owned()
}

/// Whether two strings hold the same characters.
pub fn same_text(a: &str, b: &str) -> (r: bool)
    ensures
        r == (a@ == b@),
{
    a.to_owned() == b.to_owned()
}

/// The texts that a list of strings holds.
pub open spec fn texts(v: Seq<String>) -> Seq<Seq<char>> {
    Seq::new(v.len(), |i: int| v[i]@)
}

/// The strings of `items` without repetitions: of each text, the first
/// occurrence, in the order of `items`.
pub fn distinct_strings(items: &Vec<String>) -> (out: Vec<String>)
    ensures
        texts(out@) == distinct(texts(items@)),
{
    let mut seen: StringHashMap<bool> = StringHashMap::new();
    let mut out: Vec<String> = Vec::new();
    let ghost all = texts(items@);
    let mut i: usize = 0;
    proof {
        assert(texts(out@) =~= distinct(all.take(0)));
    }
    while i < items.len()
        invariant
            i <= items.len(),
            all == texts(items@),
            texts(out@) == distinct(all.take(i as int)),
            forall|k: Seq<char>| seen@.contains_key(k) <==> distinct(all.take(i as int)).contains(k),
        decreases items.len() - i,
    {
        let ghost before = all.take(i as int);
        let ghost after = all.take(i + 1);
        let ghost old_out = out@;
        proof {
            assert(after.drop_last() == before);
            assert(after.last() == items@[i as int]@);
        }
        if !seen.contains_key(items[i].as_str()) {
            seen.insert(items[i].clone(), true);
            out.push(items[i].clone());
            proof {
                assert(texts(out@) =~= texts(old_out).push(items@[i as int]@));
                assert forall|k: Seq<char>| seen@.contains_key(k) <==> distinct(after).contains(
                    k,
                ) by {
                    let d = distinct(before);
                    if d.push(after.last()).contains(k) {
                        let j = choose|j: int|
                            0 <= j < d.push(after.last()).len() && d.push(after.last())[j] == k;
                        if j < d.len() {
                            assert(d[j] == k);
                        }
                    }
                    if d.contains(k) {
                        let j = choose|j: int| 0 <= j < d.len() && d[j] == k;
                        assert(d.push(after.last())[j] == k);
                    }
                    assert(d.push(after.last())[d.len() as int] == after.last());
                }
            }
        }
        i += 1;
    }
    proof {
        assert(all.take(items.len() as int) == all);
    }
    out
}

} // verus!
