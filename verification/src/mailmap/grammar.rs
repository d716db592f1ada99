//! The grammar of one mailmap line.
//!
//! A line holds a proper name and/or a proper email, then the name and/or email
//! that commits carry, in one of four shapes:
//!
//! ```text
//! Proper Name <commit@email>
//! <proper@email> <commit@email>
//! Proper Name <proper@email> <commit@email>
//! Proper Name <proper@email> Commit Name <commit@email>
//! ```
//!
//! A name is a run of characters other than `<` and `>`, an email such a run
//! between `<` and `>`; neither is empty. Exactly one space stands between two
//! fields. White space may lead the line. Each shape must fill the line but
//! for trailing white space and a `#` comment, so a line with more names or
//! emails than the fourth shape holds states no rule. The shapes are tried in
//! this order and the first that fits is the line's rule.

use vstd::prelude::*;
use crate::text::{chars_of, substring};

verus! {

/// Whether `c` is white space: the characters of Unicode's `White_Space`.
pub open spec fn is_space(c: char) -> bool {
    let n = c as u32;
    (0x09 <= n && n <= 0x0d) || n == 0x20 || n == 0x85 || n == 0xa0 || n == 0x1680 || (0x2000 <= n
        && n <= 0x200a) || n == 0x2028 || n == 0x2029 || n == 0x202f || n == 0x205f || n == 0x3000
}

/// Whether `c` is one of the two characters that delimit an email.
pub open spec fn is_bracket(c: char) -> bool {
    c == '<' || c == '>'
}

/// The first position at or after `i` that holds no white space; the length of
/// `s` if there is none.
pub open spec fn skip_spaces(s: Seq<char>, i: int) -> int
    decreases s.len() - i,
{
    if 0 <= i < s.len() && is_space(s[i]) {
        skip_spaces(s, i + 1)
    } else {
        i
    }
}

/// The first position at or after `i` that holds `<` or `>`; the length of `s`
/// if there is none.
pub open spec fn next_bracket(s: Seq<char>, i: int) -> int
    decreases s.len() - i,
{
    if 0 <= i < s.len() && !is_bracket(s[i]) {
        next_bracket(s, i + 1)
    } else {
        i
    }
}

/// The name that opens a line, as the positions `(start, end)` of its
/// characters. It runs up to the space before the line's first bracket, which
/// must be a `<`. Leading white space is not part of it, except that a name
/// made of white space alone keeps its last character.
pub open spec fn leading_name(s: Seq<char>) -> Option<(int, int)> {
    let p = next_bracket(s, 0);
    if 2 <= p < s.len() && s[p] == '<' && s[p - 1] == ' ' {
        let w = skip_spaces(s, 0);
        Some((if w <= p - 2 { w } else { p - 2 }, p - 1))
    } else {
        None
    }
}

/// The name that starts at `i` inside a line: it runs up to the space before
/// the next bracket, which must be a `<`.
pub open spec fn name_at(s: Seq<char>, i: int) -> Option<(int, int)> {
    let p = next_bracket(s, i);
    if 0 <= i && i + 1 < p < s.len() && s[p] == '<' && s[p - 1] == ' ' {
        Some((i, p - 1))
    } else {
        None
    }
}

/// The email whose `<` stands at `i`, as the positions `(start, end)` of the
/// characters between the brackets; the closing `>` stands at `end`.
pub open spec fn email_at(s: Seq<char>, i: int) -> Option<(int, int)> {
    let q = next_bracket(s, i + 1);
    if 0 <= i < s.len() && s[i] == '<' && i + 1 < q < s.len() && s[q] == '>' {
        Some((i + 1, q))
    } else {
        None
    }
}

/// The email that follows one space at `i`.
pub open spec fn spaced_email_at(s: Seq<char>, i: int) -> Option<(int, int)> {
    if 0 <= i < s.len() && s[i] == ' ' {
        email_at(s, i + 1)
    } else {
        None
    }
}

/// Whether `s` holds no line feed at or after `i`.
pub open spec fn no_line_feed(s: Seq<char>, i: int) -> bool {
    forall|k: int| i <= k < s.len() ==> s[k] != '\n'
}

/// Whether `s` ends well from `i` on: white space, then nothing more or a `#`
/// comment that runs to the end on one line.
pub open spec fn trailer(s: Seq<char>, i: int) -> bool {
    let r = skip_spaces(s, i);
    r >= s.len() || (s[r] == '#' && no_line_feed(s, r + 1))
}

/// What one line of a mailmap says.
pub enum Rule {
    /// `Proper Name <commit@email>`: the name of whoever commits under that email.
    Name { name: String, commit_email: String },
    /// `<proper@email> <commit@email>`: the email to show in place of another.
    Email { email: String, commit_email: String },
    /// `Proper Name <proper@email> <commit@email>`: name and email of whoever
    /// commits under that email.
    Both { name: String, email: String, commit_email: String },
    /// `Proper Name <proper@email> Commit Name <commit@email>`: name and email of
    /// whoever commits under that name and that email.
    Pair { name: String, email: String, commit_name: String, commit_email: String },
}

/// A [`Rule`] as a mathematical value.
pub enum RuleView {
    Name { name: Seq<char>, commit_email: Seq<char> },
    Email { email: Seq<char>, commit_email: Seq<char> },
    Both { name: Seq<char>, email: Seq<char>, commit_email: Seq<char> },
    Pair { name: Seq<char>, email: Seq<char>, commit_name: Seq<char>, commit_email: Seq<char> },
}

impl View for Rule {
    type V = RuleView;

    open spec fn view(&self) -> RuleView {
        match self {
            Rule::Name { name, commit_email } => RuleView::Name {
                name: name@,
                commit_email: commit_email@,
            },
            Rule::Email { email, commit_email } => RuleView::Email {
                email: email@,
                commit_email: commit_email@,
            },
            Rule::Both { name, email, commit_email } => RuleView::Both {
                name: name@,
                email: email@,
                commit_email: commit_email@,
            },
            Rule::Pair { name, email, commit_name, commit_email } => RuleView::Pair {
                name: name@,
                email: email@,
                commit_name: commit_name@,
                commit_email: commit_email@,
            },
        }
    }
}

/// The line read as `Proper Name <commit@email>`.
pub open spec fn name_rule(s: Seq<char>) -> Option<RuleView> {
    match leading_name(s) {
        Some((a, b)) => match email_at(s, b + 1) {
            Some((c, d)) => if trailer(s, d + 1) {
                Some(RuleView::Name { name: s.subrange(a, b), commit_email: s.subrange(c, d) })
            } else {
                None
            },
            None => None,
        },
        None => None,
    }
}

/// The line read as `<proper@email> <commit@email>`.
pub open spec fn email_rule(s: Seq<char>) -> Option<RuleView> {
    match email_at(s, skip_spaces(s, 0)) {
        Some((a, b)) => match spaced_email_at(s, b + 1) {
            Some((c, d)) => if trailer(s, d + 1) {
                Some(RuleView::Email { email: s.subrange(a, b), commit_email: s.subrange(c, d) })
            } else {
                None
            },
            None => None,
        },
        None => None,
    }
}

/// The line read as `Proper Name <proper@email> <commit@email>`.
pub open spec fn both_rule(s: Seq<char>) -> Option<RuleView> {
    match leading_name(s) {
        Some((a, b)) => match email_at(s, b + 1) {
            Some((c, d)) => match spaced_email_at(s, d + 1) {
                Some((e, f)) => if trailer(s, f + 1) {
                    Some(
                        RuleView::Both {
                            name: s.subrange(a, b),
                            email: s.subrange(c, d),
                            commit_email: s.subrange(e, f),
                        },
                    )
                } else {
                    None
                },
                None => None,
            },
            None => None,
        },
        None => None,
    }
}

/// The line read as `Proper Name <proper@email> Commit Name <commit@email>`.
pub open spec fn pair_rule(s: Seq<char>) -> Option<RuleView> {
    match leading_name(s) {
        Some((a, b)) => match email_at(s, b + 1) {
            Some((c, d)) => if d + 1 < s.len() && s[d + 1] == ' ' {
                match name_at(s, d + 2) {
                    Some((e, f)) => match email_at(s, f + 1) {
                        Some((g, h)) => if trailer(s, h + 1) {
                            Some(
                                RuleView::Pair {
                                    name: s.subrange(a, b),
                                    email: s.subrange(c, d),
                                    commit_name: s.subrange(e, f),
                                    commit_email: s.subrange(g, h),
                                },
                            )
                        } else {
                            None
                        },
                        None => None,
                    },
                    None => None,
                }
            } else {
                None
            },
            None => None,
        },
        None => None,
    }
}

/// The rule that a line states, if any: none for a line that starts with `#`,
/// else the first of the four shapes that fits.
pub open spec fn line_rule(s: Seq<char>) -> Option<RuleView> {
    if s.len() > 0 && s[0] == '#' {
        None
    } else if name_rule(s) is Some {
        name_rule(s)
    } else if email_rule(s) is Some {
        email_rule(s)
    } else if both_rule(s) is Some {
        both_rule(s)
    } else {
        pair_rule(s)
    }
}

/// A pair of positions as mathematical integers.
pub open spec fn span(r: Option<(usize, usize)>) -> Option<(int, int)> {
    match r {
        Some((a, b)) => Some((a as int, b as int)),
        None => None,
    }
}

fn space(c: char) -> (r: bool)
    ensures
        r == is_space(c),
{
    let n: u32 = c as u32;
    (0x09 <= n && n <= 0x0d) || n == 0x20 || n == 0x85 || n == 0xa0 || n == 0x1680 || (0x2000 <= n
        && n <= 0x200a) || n == 0x2028 || n == 0x2029 || n == 0x202f || n == 0x205f || n == 0x3000
}

fn scan_spaces(cs: &Vec<char>, i: usize) -> (j: usize)
    requires
        i <= cs.len(),
    ensures
        j == skip_spaces(cs@, i as int),
        i <= j <= cs.len(),
{
    let mut j: usize = i;
    while j < cs.len() && space(cs[j])
        invariant
            i <= j <= cs.len(),
            skip_spaces(cs@, i as int) == skip_spaces(cs@, j as int),
        decreases cs.len() - j,
    {
        j += 1;
    }
    j
}

fn scan_bracket(cs: &Vec<char>, i: usize) -> (j: usize)
    requires
        i <= cs.len(),
    ensures
        j == next_bracket(cs@, i as int),
        i <= j <= cs.len(),
{
    let mut j: usize = i;
    while j < cs.len() && cs[j] != '<' && cs[j] != '>'
        invariant
            i <= j <= cs.len(),
            next_bracket(cs@, i as int) == next_bracket(cs@, j as int),
        decreases cs.len() - j,
    {
        j += 1;
    }
    j
}

fn scan_leading_name(cs: &Vec<char>) -> (r: Option<(usize, usize)>)
    ensures
        span(r) == leading_name(cs@),
        r matches Some((a, b)) ==> a < b && b + 1 < cs.len(),
{
    let p = scan_bracket(cs, 0);
    if 2 <= p && p < cs.len() && cs[p] == '<' && cs[p - 1] == ' ' {
        let w = scan_spaces(cs, 0);
        Some((if w <= p - 2 { w } else { p - 2 }, p - 1))
    } else {
        None
    }
}

fn scan_name_at(cs: &Vec<char>, i: usize) -> (r: Option<(usize, usize)>)
    requires
        i <= cs.len(),
    ensures
        span(r) == name_at(cs@, i as int),
        r matches Some((a, b)) ==> a == i && a < b && b + 1 < cs.len(),
{
    let p = scan_bracket(cs, i);
    if i < p && p - i >= 2 && p < cs.len() && cs[p] == '<' && cs[p - 1] == ' ' {
        Some((i, p - 1))
    } else {
        None
    }
}

fn scan_email_at(cs: &Vec<char>, i: usize) -> (r: Option<(usize, usize)>)
    requires
        i <= cs.len(),
    ensures
        span(r) == email_at(cs@, i as int),
        r matches Some((a, b)) ==> a == i + 1 && a < b < cs.len(),
{
    if i < cs.len() && cs[i] == '<' {
        let q = scan_bracket(cs, i + 1);
        if i + 1 < q && q < cs.len() && cs[q] == '>' {
            Some((i + 1, q))
        } else {
            None
        }
    } else {
        None
    }
}

fn scan_spaced_email_at(cs: &Vec<char>, i: usize) -> (r: Option<(usize, usize)>)
    requires
        i <= cs.len(),
    ensures
        span(r) == spaced_email_at(cs@, i as int),
        r matches Some((a, b)) ==> a == i + 2 && a < b < cs.len(),
{
    if i < cs.len() && cs[i] == ' ' {
        scan_email_at(cs, i + 1)
    } else {
        None
    }
}

fn scan_trailer(cs: &Vec<char>, i: usize) -> (r: bool)
    requires
        i <= cs.len(),
    ensures
        r == trailer(cs@, i as int),
{
    let j = scan_spaces(cs, i);
    if j >= cs.len() {
        return true;
    }
    if cs[j] != '#' {
        return false;
    }
    let mut k: usize = j + 1;
    while k < cs.len()
        invariant
            j < k <= cs.len(),
            j == skip_spaces(cs@, i as int),
            cs@[j as int] == '#',
            forall|m: int| j < m < k ==> cs@[m] != '\n',
        decreases cs.len() - k,
    {
        if cs[k] == '\n' {
            assert(!no_line_feed(cs@, j + 1)) by {
                assert(cs@[k as int] == '\n');
            }
            return false;
        }
        k += 1;
    }
    true
}

fn scan_name_rule(line: &str, cs: &Vec<char>) -> (r: Option<Rule>)
    requires
        cs@ == line@,
    ensures
        r matches Some(rule) ==> name_rule(line@) == Some(rule@),
        r is None ==> name_rule(line@) is None,
{
    let (a, b) = match scan_leading_name(cs) {
        Some(x) => x,
        None => { return None; },
    };
    let (c, d) = match scan_email_at(cs, b + 1) {
        Some(x) => x,
        None => { return None; },
    };
    if !scan_trailer(cs, d + 1) {
        return None;
    }
    Some(Rule::Name { name: substring(line, a, b), commit_email: substring(line, c, d) })
}

fn scan_email_rule(line: &str, cs: &Vec<char>) -> (r: Option<Rule>)
    requires
        cs@ == line@,
    ensures
        r matches Some(rule) ==> email_rule(line@) == Some(rule@),
        r is None ==> email_rule(line@) is None,
{
    let w = scan_spaces(cs, 0);
    let (a, b) = match scan_email_at(cs, w) {
        Some(x) => x,
        None => { return None; },
    };
    let (c, d) = match scan_spaced_email_at(cs, b + 1) {
        Some(x) => x,
        None => { return None; },
    };
    if !scan_trailer(cs, d + 1) {
        return None;
    }
    Some(Rule::Email { email: substring(line, a, b), commit_email: substring(line, c, d) })
}

fn scan_both_rule(line: &str, cs: &Vec<char>) -> (r: Option<Rule>)
    requires
        cs@ == line@,
    ensures
        r matches Some(rule) ==> both_rule(line@) == Some(rule@),
        r is None ==> both_rule(line@) is None,
{
    let (a, b) = match scan_leading_name(cs) {
        Some(x) => x,
        None => { return None; },
    };
    let (c, d) = match scan_email_at(cs, b + 1) {
        Some(x) => x,
        None => { return None; },
    };
    let (e, f) = match scan_spaced_email_at(cs, d + 1) {
        Some(x) => x,
        None => { return None; },
    };
    if !scan_trailer(cs, f + 1) {
        return None;
    }
    Some(
        Rule::Both {
            name: substring(line, a, b),
            email: substring(line, c, d),
            commit_email: substring(line, e, f),
        },
    )
}

fn scan_pair_rule(line: &str, cs: &Vec<char>) -> (r: Option<Rule>)
    requires
        cs@ == line@,
    ensures
        r matches Some(rule) ==> pair_rule(line@) == Some(rule@),
        r is None ==> pair_rule(line@) is None,
{
    let (a, b) = match scan_leading_name(cs) {
        Some(x) => x,
        None => { return None; },
    };
    let (c, d) = match scan_email_at(cs, b + 1) {
        Some(x) => x,
        None => { return None; },
    };
    if !(d + 1 < cs.len() && cs[d + 1] == ' ') {
        return None;
    }
    let (e, f) = match scan_name_at(cs, d + 2) {
        Some(x) => x,
        None => { return None; },
    };
    let (g, h) = match scan_email_at(cs, f + 1) {
        Some(x) => x,
        None => { return None; },
    };
    if !scan_trailer(cs, h + 1) {
        return None;
    }
    Some(
        Rule::Pair {
            name: substring(line, a, b),
            email: substring(line, c, d),
            commit_name: substring(line, e, f),
            commit_email: substring(line, g, h),
        },
    )
}

/// Reads one line of a mailmap: the rule it states, or `None` for a comment
/// and for a line that fits none of the four shapes.
pub fn parse_line(line: &str) -> (r: Option<Rule>)
    ensures
        r matches Some(rule) ==> line_rule(line@) == Some(rule@),
        r is None ==> line_rule(line@) is None,
{
    let cs = chars_of(line);
    if cs.len() > 0 && cs[0] == '#' {
        return None;
    }
    let r = scan_name_rule(line, &cs);
    if r.is_some() {
        return r;
    }
    let r = scan_email_rule(line, &cs);
    if r.is_some() {
        return r;
    }
    let r = scan_both_rule(line, &cs);
    if r.is_some() {
        return r;
    }
    scan_pair_rule(line, &cs)
}

} // verus!
