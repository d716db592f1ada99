//! The order in which names are shown.
//!
//! Names are compared by what a reader sees first: accents are set aside and
//! case is folded, so that `é` stands with `e` and `B` with `b`. Where two
//! characters fold to the same small Latin letter, the small one comes first.
//! This is an approximation, not the Unicode Collation Algorithm.

use vstd::prelude::*;
use unicode_normalization::UnicodeNormalization;
use crate::sorting::{
    before, is_order_by, is_stable_order, lemma_order_unique, stable_order, total_preorder, Ranked,
};
use crate::text::chars_of;

verus! {

/// How one thing stands to another in an order.
#[derive(Clone, Copy, PartialEq, Eq, Structural, Debug)]
pub enum Precedence {
    Before,
    Same,
    After,
}

impl Precedence {
    /// The same comparison with its two sides exchanged.
    pub open spec fn flip(self) -> Precedence {
        match self {
            Precedence::Before => Precedence::After,
            Precedence::Same => Precedence::Same,
            Precedence::After => Precedence::Before,
        }
    }
}

/// What canonical decomposition (normalization form D) makes of a text.
pub uninterp spec fn canonical_decomposition(s: Seq<char>) -> Seq<char>;

/// What default case folding makes of one character: one to three characters.
pub uninterp spec fn case_fold(c: char) -> Seq<char>;

/// `UnicodeNormalization::nfd` of unicode-normalization, collected: the
/// characters of `s` in normalization form D. The contract only gives the
/// result its name, [`canonical_decomposition`].
#[verifier::external_body]
pub(crate) fn nfd(s: &str) -> (r: String)
    ensures
        r@ == canonical_decomposition(s@),
{
    s.nfd().collect()
}

/// `caseless::default_case_fold_str` on the one character `c`: its default
/// case folding. The contract only gives the result its name, [`case_fold`].
#[verifier::external_body]
pub(crate) fn fold(c: char) -> (r: String)
    ensures
        r@ == case_fold(c),
{
    caseless::default_case_fold_str(&c.to_string())
}

/// Whether `c` is a combining diacritical mark (U+0300 to U+036F).
pub open spec fn is_combining_mark(c: char) -> bool {
    0x300 <= c as int && c as int <= 0x36f
}

/// `s` without its combining marks.
pub open spec fn strip_marks(s: Seq<char>) -> Seq<char>
    decreases s.len(),
{
    if s.len() == 0 {
        s
    } else if is_combining_mark(s.last()) {
        strip_marks(s.drop_last())
    } else {
        strip_marks(s.drop_last()).push(s.last())
    }
}

/// A character of a display key, with its case folding.
pub struct Letter {
    pub c: char,
    pub fold: Vec<char>,
}

/// A [`Letter`] as a mathematical value.
pub struct LetterView {
    pub c: char,
    pub fold: Seq<char>,
}

impl View for Letter {
    type V = LetterView;

    open spec fn view(&self) -> LetterView {
        LetterView { c: self.c, fold: self.fold@ }
    }
}

/// The letters of a key as mathematical values.
pub open spec fn letter_views(key: Seq<Letter>) -> Seq<LetterView> {
    Seq::new(key.len(), |i: int| key[i]@)
}

/// A character with its case folding.
pub open spec fn folded(c: char) -> LetterView {
    LetterView { c, fold: case_fold(c) }
}

/// The characters of `s`, each with its case folding.
pub open spec fn letters(s: Seq<char>) -> Seq<LetterView> {
    Seq::new(s.len(), |i: int| folded(s[i]))
}

/// What a name is compared by: the characters of its canonical
/// decomposition, without the combining marks, each with its case folding.
pub open spec fn display_key(s: Seq<char>) -> Seq<LetterView> {
    letters(strip_marks(canonical_decomposition(s)))
}

/// The order of two texts from position `i` on, character by character and
/// by code point; a text that ends first comes first.
pub open spec fn code_point_order_from(a: Seq<char>, b: Seq<char>, i: int) -> Precedence
    decreases a.len() - i,
{
    if i >= a.len() || i >= b.len() {
        if a.len() < b.len() {
            Precedence::Before
        } else if a.len() > b.len() {
            Precedence::After
        } else {
            Precedence::Same
        }
    } else if (a[i] as int) < (b[i] as int) {
        Precedence::Before
    } else if (a[i] as int) > (b[i] as int) {
        Precedence::After
    } else {
        code_point_order_from(a, b, i + 1)
    }
}

/// The order of two texts by code point.
pub open spec fn code_point_order(a: Seq<char>, b: Seq<char>) -> Precedence {
    code_point_order_from(a, b, 0)
}

/// Whether a folded character is one small Latin letter.
pub open spec fn is_small_letter(f: Seq<char>) -> bool {
    f.len() == 1 && 'a' as int <= f[0] as int && f[0] as int <= 'z' as int
}

/// The order of two letters: that of their case foldings by code point,
/// except that of two letters with the same folding to a small Latin letter
/// the one with the greater code point comes first.
pub open spec fn letter_order(a: LetterView, b: LetterView) -> Precedence {
    if a.fold == b.fold && is_small_letter(a.fold) {
        if a.c as int > b.c as int {
            Precedence::Before
        } else if (a.c as int) < (b.c as int) {
            Precedence::After
        } else {
            Precedence::Same
        }
    } else {
        code_point_order(a.fold, b.fold)
    }
}

/// The order of two characters of a display key.
pub open spec fn char_order(a: char, b: char) -> Precedence {
    letter_order(folded(a), folded(b))
}

/// The order of two display keys from position `i` on: that of the first
/// pair of letters that are not the same in order; a key that ends first
/// comes first.
pub open spec fn key_order_from(x: Seq<LetterView>, y: Seq<LetterView>, i: int) -> Precedence
    decreases x.len() - i,
{
    if i >= x.len() || i >= y.len() {
        if x.len() < y.len() {
            Precedence::Before
        } else if x.len() > y.len() {
            Precedence::After
        } else {
            Precedence::Same
        }
    } else {
        match letter_order(x[i], y[i]) {
            Precedence::Same => key_order_from(x, y, i + 1),
            o => o,
        }
    }
}

/// The order of two display keys.
pub open spec fn key_order(x: Seq<LetterView>, y: Seq<LetterView>) -> Precedence {
    key_order_from(x, y, 0)
}

/// The order in which two names are shown.
pub open spec fn display_order(a: Seq<char>, b: Seq<char>) -> Precedence {
    key_order(display_key(a), display_key(b))
}

/// Whether `a` is shown no later than `b`.
pub open spec fn display_le(a: Seq<char>, b: Seq<char>) -> bool {
    display_order(a, b) != Precedence::After
}

proof fn lemma_code_point_flip(a: Seq<char>, b: Seq<char>, i: int)
    requires
        0 <= i,
    ensures
        code_point_order_from(b, a, i) == code_point_order_from(a, b, i).flip(),
    decreases a.len() - i,
{
    if i < a.len() && i < b.len() && a[i] as int == b[i] as int {
        lemma_code_point_flip(a, b, i + 1);
    }
}

proof fn lemma_code_point_same(a: Seq<char>, b: Seq<char>, i: int)
    requires
        0 <= i <= a.len(),
        i <= b.len(),
        forall|k: int| 0 <= k < i ==> a[k] == b[k],
    ensures
        code_point_order_from(a, b, i) == Precedence::Same <==> a == b,
    decreases a.len() - i,
{
    if i < a.len() && i < b.len() {
        if a[i] as int == b[i] as int {
            assert(a[i] == b[i]);
            lemma_code_point_same(a, b, i + 1);
        } else {
            assert(a[i] != b[i]);
        }
    } else if a.len() == b.len() {
        assert(a =~= b);
    }
}

proof fn lemma_code_point_transitive(a: Seq<char>, b: Seq<char>, c: Seq<char>, i: int)
    requires
        0 <= i <= a.len(),
        i <= b.len(),
        i <= c.len(),
        code_point_order_from(a, b, i) != Precedence::After,
        code_point_order_from(b, c, i) != Precedence::After,
    ensures
        code_point_order_from(a, c, i) != Precedence::After,
        code_point_order_from(a, b, i) == Precedence::Before || code_point_order_from(b, c, i)
            == Precedence::Before ==> code_point_order_from(a, c, i) == Precedence::Before,
    decreases a.len() - i,
{
    if i < a.len() && i < b.len() && i < c.len() {
        if a[i] as int == b[i] as int && b[i] as int == c[i] as int {
            lemma_code_point_transitive(a, b, c, i + 1);
        }
    }
}

/// Exchanging the two letters exchanges their order.
pub proof fn lemma_letter_order_flip(a: LetterView, b: LetterView)
    ensures
        letter_order(b, a) == letter_order(a, b).flip(),
{
    lemma_code_point_flip(a.fold, b.fold, 0);
}

/// The order of letters is transitive, strictly so where one step is.
pub proof fn lemma_letter_order_transitive(a: LetterView, b: LetterView, c: LetterView)
    requires
        letter_order(a, b) != Precedence::After,
        letter_order(b, c) != Precedence::After,
    ensures
        letter_order(a, c) != Precedence::After,
        letter_order(a, b) == Precedence::Before || letter_order(b, c) == Precedence::Before
            ==> letter_order(a, c) == Precedence::Before,
{
    lemma_code_point_same(a.fold, b.fold, 0);
    lemma_code_point_same(b.fold, c.fold, 0);
    lemma_code_point_same(a.fold, c.fold, 0);
    lemma_code_point_flip(a.fold, b.fold, 0);
    lemma_code_point_flip(b.fold, c.fold, 0);
    let ab = a.fold == b.fold && is_small_letter(a.fold);
    let bc = b.fold == c.fold && is_small_letter(b.fold);
    if !ab && !bc {
        lemma_code_point_transitive(a.fold, b.fold, c.fold, 0);
    }
}

/// Exchanging the two keys exchanges their order.
pub proof fn lemma_key_order_flip(x: Seq<LetterView>, y: Seq<LetterView>, i: int)
    requires
        0 <= i,
    ensures
        key_order_from(y, x, i) == key_order_from(x, y, i).flip(),
    decreases x.len() - i,
{
    if i < x.len() && i < y.len() {
        lemma_letter_order_flip(x[i], y[i]);
        if letter_order(x[i], y[i]) == Precedence::Same {
            lemma_key_order_flip(x, y, i + 1);
        }
    }
}

/// The order of keys is transitive, strictly so where one step is.
pub proof fn lemma_key_order_transitive(
    x: Seq<LetterView>,
    y: Seq<LetterView>,
    z: Seq<LetterView>,
    i: int,
)
    requires
        0 <= i <= x.len(),
        i <= y.len(),
        i <= z.len(),
        key_order_from(x, y, i) != Precedence::After,
        key_order_from(y, z, i) != Precedence::After,
    ensures
        key_order_from(x, z, i) != Precedence::After,
        key_order_from(x, y, i) == Precedence::Before || key_order_from(y, z, i)
            == Precedence::Before ==> key_order_from(x, z, i) == Precedence::Before,
    decreases x.len() - i,
{
    if i < x.len() && i < y.len() && i < z.len() {
        lemma_letter_order_transitive(x[i], y[i], z[i]);
        if letter_order(x[i], y[i]) == Precedence::Same && letter_order(y[i], z[i])
            == Precedence::Same {
            lemma_letter_order_flip(x[i], y[i]);
            lemma_letter_order_flip(y[i], z[i]);
            lemma_letter_order_flip(x[i], z[i]);
            lemma_letter_order_transitive(z[i], y[i], x[i]);
            lemma_key_order_transitive(x, y, z, i + 1);
        }
    }
}

/// The order in which names are shown compares any two names, and is
/// transitive: sorting by it is well defined.
pub proof fn lemma_display_order_total(a: Seq<char>, b: Seq<char>, c: Seq<char>)
    ensures
        display_order(b, a) == display_order(a, b).flip(),
        display_le(a, b) || display_le(b, a),
        display_le(a, b) && display_le(b, c) ==> display_le(a, c),
        display_order(a, a) == Precedence::Same,
{
    lemma_key_order_flip(display_key(a), display_key(b), 0);
    lemma_key_order_flip(display_key(a), display_key(a), 0);
    if display_le(a, b) && display_le(b, c) {
        lemma_key_order_transitive(display_key(a), display_key(b), display_key(c), 0);
    }
}

fn combining_mark(c: char) -> (r: bool)
    ensures
        r == is_combining_mark(c),
{
    '\u{300}' <= c && c <= '\u{36f}'
}

/// The characters of `cs` that are no combining marks.
pub fn strip_marks_of(cs: &Vec<char>) -> (bare: Vec<char>)
    ensures
        bare@ == strip_marks(cs@),
{
    let mut bare: Vec<char> = Vec::new();
    let mut i: usize = 0;
    while i < cs.len()
        invariant
            i <= cs.len(),
            bare@ == strip_marks(cs@.take(i as int)),
        decreases cs.len() - i,
    {
        proof {
            assert(cs@.take(i + 1).drop_last() == cs@.take(i as int));
        }
        if !combining_mark(cs[i]) {
            bare.push(cs[i]);
        }
        i += 1;
    }
    proof {
        assert(cs@.take(cs.len() as int) == cs@);
    }
    bare
}

/// A character with its case folding.
pub fn letter_of(c: char) -> (letter: Letter)
    ensures
        letter@ == folded(c),
{
    Letter { c, fold: chars_of(fold(c).as_str()) }
}

/// The key that `s` is compared by when names are put in order.
pub fn display_key_of(s: &str) -> (key: Vec<Letter>)
    ensures
        letter_views(key@) == display_key(s@),
{
    let decomposed = nfd(s);
    let bare = strip_marks_of(&chars_of(decomposed.as_str()));
    let mut key: Vec<Letter> = Vec::new();
    let mut i: usize = 0;
    while i < bare.len()
        invariant
            i <= bare.len(),
            key@.len() == i,
            forall|k: int| 0 <= k < i ==> (#[trigger] key@[k])@ == folded(bare@[k]),
        decreases bare.len() - i,
    {
        key.push(letter_of(bare[i]));
        i += 1;
    }
    proof {
        assert(letter_views(key@) =~= letters(bare@));
    }
    key
}

fn by_length(a: usize, b: usize) -> (r: Precedence)
    ensures
        r == if a < b {
            Precedence::Before
        } else if a > b {
            Precedence::After
        } else {
            Precedence::Same
        },
{
    if a < b {
        Precedence::Before
    } else if a > b {
        Precedence::After
    } else {
        Precedence::Same
    }
}

/// The order of two texts by code point.
pub fn code_point_order_of(a: &Vec<char>, b: &Vec<char>) -> (r: Precedence)
    ensures
        r == code_point_order(a@, b@),
{
    let mut i: usize = 0;
    while i < a.len() && i < b.len()
        invariant
            i <= a.len(),
            i <= b.len(),
            code_point_order(a@, b@) == code_point_order_from(a@, b@, i as int),
        decreases a.len() - i,
    {
        if a[i] < b[i] {
            return Precedence::Before;
        }
        if a[i] > b[i] {
            return Precedence::After;
        }
        i += 1;
    }
    by_length(a.len(), b.len())
}

/// The order of two letters.
pub fn letter_order_of(a: &Letter, b: &Letter) -> (r: Precedence)
    ensures
        r == letter_order(a@, b@),
{
    let by_fold = code_point_order_of(&a.fold, &b.fold);
    proof {
        lemma_code_point_same(a.fold@, b.fold@, 0);
    }
    let small = a.fold.len() == 1 && 'a' <= a.fold[0] && a.fold[0] <= 'z';
    match by_fold {
        Precedence::Same => {
            if !small {
                Precedence::Same
            } else if a.c > b.c {
                Precedence::Before
            } else if a.c < b.c {
                Precedence::After
            } else {
                Precedence::Same
            }
        },
        o => o,
    }
}

/// The order of two characters of a display key.
pub fn char_order_of(a: char, b: char) -> (r: Precedence)
    ensures
        r == char_order(a, b),
{
    letter_order_of(&letter_of(a), &letter_of(b))
}

/// The order of two display keys.
pub fn key_order_of(x: &Vec<Letter>, y: &Vec<Letter>) -> (r: Precedence)
    ensures
        r == key_order(letter_views(x@), letter_views(y@)),
{
    let mut i: usize = 0;
    while i < x.len() && i < y.len()
        invariant
            i <= x.len(),
            i <= y.len(),
            key_order(letter_views(x@), letter_views(y@)) == key_order_from(
                letter_views(x@),
                letter_views(y@),
                i as int,
            ),
        decreases x.len() - i,
    {
        match letter_order_of(&x[i], &y[i]) {
            Precedence::Same => {},
            o => {
                return o;
            },
        }
        i += 1;
    }
    by_length(x.len(), y.len())
}

/// The order in which two names are shown.
pub fn display_order_of(a: &str, b: &str) -> (r: Precedence)
    ensures
        r == display_order(a@, b@),
{
    let x = display_key_of(a);
    let y = display_key_of(b);
    key_order_of(&x, &y)
}

/// Names to put in order, known by their display keys.
pub struct DisplayKeys {
    pub keys: Vec<Vec<Letter>>,
}

impl Ranked for DisplayKeys {
    open spec fn size(&self) -> nat {
        self.keys@.len()
    }

    open spec fn le(&self, i: int, j: int) -> bool {
        key_order(letter_views(self.keys@[i]@), letter_views(self.keys@[j]@)) != Precedence::After
    }

    fn no_later(&self, i: usize, j: usize) -> (r: bool) {
        match key_order_of(&self.keys[i], &self.keys[j]) {
            Precedence::After => false,
            _ => true,
        }
    }
}

/// The order in which to read display keys: from the first in order to the
/// last, keys that are the same in order as they stand.
pub fn key_order_positions(keys: &DisplayKeys) -> (perm: Vec<usize>)
    ensures
        is_stable_order(keys, perm@),
{
    proof {
        assert forall|i: int, j: int|
            0 <= i < keys.size() && 0 <= j < keys.size() implies #[trigger] keys.le(i, j)
            || keys.le(j, i) by {
            lemma_key_order_flip(letter_views(keys.keys@[i]@), letter_views(keys.keys@[j]@), 0);
        }
        assert forall|i: int, j: int, k: int|
            0 <= i < keys.size() && 0 <= j < keys.size() && 0 <= k < keys.size()
                && #[trigger] keys.le(i, j) && #[trigger] keys.le(j, k) implies keys.le(i, k) by {
            lemma_key_order_transitive(
                letter_views(keys.keys@[i]@),
                letter_views(keys.keys@[j]@),
                letter_views(keys.keys@[k]@),
                0,
            );
        }
        assert(total_preorder(keys));
    }
    stable_order(keys, keys.keys.len())
}

/// The display keys of `names`, in the same order.
pub fn display_keys_of(names: &Vec<String>) -> (keys: Vec<Vec<Letter>>)
    ensures
        keys@.len() == names@.len(),
        forall|i: int|
            0 <= i < names@.len() ==> letter_views((#[trigger] keys@[i])@) == display_key(
                names@[i]@,
            ),
{
    let mut keys: Vec<Vec<Letter>> = Vec::new();
    let mut i: usize = 0;
    while i < names.len()
        invariant
            i <= names.len(),
            keys@.len() == i,
            forall|k: int|
                0 <= k < i ==> letter_views((#[trigger] keys@[k])@) == display_key(names@[k]@),
        decreases names.len() - i,
    {
        keys.push(display_key_of(names[i].as_str()));
        i += 1;
    }
    keys
}

/// Whether reading `names` in the order `perm` shows them in display order,
/// names that the order does not tell apart in the order they stand in.
pub open spec fn is_display_order(names: Seq<String>, perm: Seq<usize>) -> bool {
    &&& perm.len() == names.len()
    &&& forall|p: int| 0 <= p < perm.len() ==> 0 <= #[trigger] perm[p] < names.len()
    &&& forall|p: int, q: int|
        0 <= p < q < perm.len() ==> {
            let a = names[(#[trigger] perm[p]) as int]@;
            let b = names[(#[trigger] perm[q]) as int]@;
            display_le(a, b) && (display_le(b, a) ==> perm[p] < perm[q])
        }
}

/// The order in which to read `names` to show them in display order.
pub fn display_order_positions(names: &Vec<String>) -> (perm: Vec<usize>)
    ensures
        is_display_order(names@, perm@),
{
    let keys = DisplayKeys { keys: display_keys_of(names) };
    let perm = key_order_positions(&keys);
    proof {
        assert forall|p: int, q: int| 0 <= p < q < perm@.len() implies {
            let a = names@[(#[trigger] perm@[p]) as int]@;
            let b = names@[(#[trigger] perm@[q]) as int]@;
            display_le(a, b) && (display_le(b, a) ==> perm@[p] < perm@[q])
        } by {
            assert(before(&keys, perm@[p] as int, perm@[q] as int));
        }
    }
    perm
}

/// `names` read in the order `perm`.
pub open spec fn arranged(names: Seq<String>, perm: Seq<usize>) -> Seq<String> {
    Seq::new(perm.len(), |p: int| names[perm[p] as int])
}

/// Whether `sorted` holds the names of `names` in display order, names that
/// the order does not tell apart in the order they stand in.
pub open spec fn is_display_sorted(names: Seq<String>, sorted: Seq<String>) -> bool {
    exists|perm: Seq<usize>| #[trigger] is_display_order(names, perm) && sorted == arranged(names, perm)
}

/// The names of `names` in display order. The sort is stable: names that the
/// order does not tell apart, such as `é` and `e`, stay as they stand.
pub fn sort_for_display(names: &Vec<String>) -> (sorted: Vec<String>)
    ensures
        is_display_sorted(names@, sorted@),
{
    let perm = display_order_positions(names);
    let mut sorted: Vec<String> = Vec::new();
    let mut p: usize = 0;
    while p < perm.len()
        invariant
            p <= perm.len(),
            is_display_order(names@, perm@),
            sorted@.len() == p,
            forall|k: int| 0 <= k < p ==> #[trigger] sorted@[k] == names@[perm@[k] as int],
        decreases perm.len() - p,
    {
        sorted.push(names[perm[p]].clone());
        p += 1;
    }
    proof {
        assert(sorted@ =~= arranged(names@, perm@));
    }
    sorted
}

/// Sorting for display has one result: two lists that are both `names` in
/// display order are the same list.
pub proof fn lemma_display_sorted_unique(names: Seq<String>, first: Seq<String>, second: Seq<String>)
    requires
        is_display_sorted(names, first),
        is_display_sorted(names, second),
    ensures
        first == second,
{
    let a = choose|perm: Seq<usize>| #[trigger]
        is_display_order(names, perm) && first == arranged(names, perm);
    let b = choose|perm: Seq<usize>| #[trigger]
        is_display_order(names, perm) && second == arranged(names, perm);
    let le = |i: int, j: int| display_le(names[i]@, names[j]@);
    assert(is_order_by(names.len(), le, a));
    assert(is_order_by(names.len(), le, b));
    lemma_order_unique(names.len(), le, a, b);
}

} // verus!
