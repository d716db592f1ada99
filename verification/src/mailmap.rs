//! The mailmap: rules that map the names and emails found in commits to the
//! ones a contributor wants to be known by.
//!
//! A mailmap is read once from its text and then asked, commit by commit, who
//! an author really is. Rules are found without regard to case; what no rule
//! replaces comes back as it was written.

pub mod grammar;

use vstd::prelude::*;
use vstd::hash_map::StringHashMap;
use crate::pair_map::{PairKey, PairMap};
use crate::text::{chars_of, lowercase, substring, to_lowercase};
use grammar::{line_rule, parse_line, Rule, RuleView};

verus! {

/// What a rule puts in place of a commit's name, of its email, or of both.
pub struct Replacement {
    pub name: Option<String>,
    pub email: Option<String>,
}

/// A [`Replacement`] as a mathematical value.
pub struct ReplacementView {
    pub name: Option<Seq<char>>,
    pub email: Option<Seq<char>>,
}

impl ReplacementView {
    /// The pair that the replacement makes of `(name, email)`: each half is
    /// replaced where the rule gives one, and kept where it does not.
    pub open spec fn apply(self, name: Seq<char>, email: Seq<char>) -> PairKey {
        (
            match self.name {
                Some(n) => n,
                None => name,
            },
            match self.email {
                Some(e) => e,
                None => email,
            },
        )
    }
}

impl View for Replacement {
    type V = ReplacementView;

    open spec fn view(&self) -> ReplacementView {
        ReplacementView {
            name: match self.name {
                Some(n) => Some(n@),
                None => None,
            },
            email: match self.email {
                Some(e) => Some(e@),
                None => None,
            },
        }
    }
}

impl Replacement {
    /// A replacement of the name alone.
    pub fn name(name: String) -> (r: Replacement)
        ensures
            r@ == (ReplacementView { name: Some(name@), email: None }),
    {
        Replacement { name: Some(name), email: None }
    }

    /// A replacement of the email alone.
    pub fn email(email: String) -> (r: Replacement)
        ensures
            r@ == (ReplacementView { name: None, email: Some(email@) }),
    {
        Replacement { name: None, email: Some(email) }
    }

    /// A replacement of both name and email.
    pub fn both(name: String, email: String) -> (r: Replacement)
        ensures
            r@ == (ReplacementView { name: Some(name@), email: Some(email@) }),
    {
        Replacement { name: Some(name), email: Some(email) }
    }
}

/// The rules of a mailmap as a mathematical value: what replaces the author
/// of a commit made under a given email, and what replaces the author of a
/// commit made under a given name and email. Keys are in lower case.
pub struct Rules {
    pub by_email: Map<Seq<char>, ReplacementView>,
    pub by_pair: Map<PairKey, PairKey>,
}

impl Rules {
    /// No rule at all.
    pub open spec fn empty() -> Rules {
        Rules { by_email: Map::empty(), by_pair: Map::empty() }
    }

    /// The rules with `rule` added under the given keys, in place of an
    /// earlier rule with the same key. `name_key` matters to a rule for a name
    /// and email only.
    pub open spec fn add_keyed(self, rule: RuleView, name_key: Seq<char>, email_key: Seq<char>) -> Rules {
        match rule {
            RuleView::Name { name, .. } => Rules {
                by_email: self.by_email.insert(
                    email_key,
                    ReplacementView { name: Some(name), email: None },
                ),
                ..self
            },
            RuleView::Email { email, .. } => Rules {
                by_email: self.by_email.insert(
                    email_key,
                    ReplacementView { name: None, email: Some(email) },
                ),
                ..self
            },
            RuleView::Both { name, email, .. } => Rules {
                by_email: self.by_email.insert(
                    email_key,
                    ReplacementView { name: Some(name), email: Some(email) },
                ),
                ..self
            },
            RuleView::Pair { name, email, .. } => Rules {
                by_pair: self.by_pair.insert((name_key, email_key), (name, email)),
                ..self
            },
        }
    }

    /// The rules with `rule` added: its keys are the commit name and the
    /// commit email in lower case.
    pub open spec fn add(self, rule: RuleView) -> Rules {
        self.add_keyed(rule, lowercase(commit_name_of(rule)), lowercase(commit_email_of(rule)))
    }

    /// The rules after one more line of text.
    pub open spec fn add_line(self, line: Seq<char>) -> Rules {
        match line_rule(line) {
            Some(rule) => self.add(rule),
            None => self,
        }
    }

    /// The rules after more lines, read first to last.
    pub open spec fn add_lines(self, lines: Seq<Seq<char>>) -> Rules
        decreases lines.len(),
    {
        if lines.len() == 0 {
            self
        } else {
            self.add_lines(lines.drop_last()).add_line(lines.last())
        }
    }

    /// The rules that a mailmap's text states.
    pub open spec fn parse(data: Seq<char>) -> Rules {
        Rules::empty().add_lines(lines(data))
    }

    /// Who `(name, email)` is, given the two in lower case: what the rule for
    /// the email makes of the pair; without such a rule, what the rule for the
    /// name and email gives; without that one either, the pair itself.
    pub open spec fn resolve_keyed(
        self,
        name: Seq<char>,
        email: Seq<char>,
        name_key: Seq<char>,
        email_key: Seq<char>,
    ) -> PairKey {
        if self.by_email.contains_key(email_key) {
            self.by_email[email_key].apply(name, email)
        } else if self.by_pair.contains_key((name_key, email_key)) {
            self.by_pair[(name_key, email_key)]
        } else {
            (name, email)
        }
    }

    /// Who `(name, email)` is.
    pub open spec fn resolve(self, name: Seq<char>, email: Seq<char>) -> PairKey {
        self.resolve_keyed(name, email, lowercase(name), lowercase(email))
    }

    /// Whether no rule changes `(name, email)`.
    pub open spec fn settled(self, name: Seq<char>, email: Seq<char>) -> bool {
        let name_key = lowercase(name);
        let email_key = lowercase(email);
        if self.by_email.contains_key(email_key) {
            let r = self.by_email[email_key];
            (r.name is Some ==> r.name == Some(name)) && (r.email is Some ==> r.email == Some(
                email,
            ))
        } else {
            self.by_pair.contains_key((name_key, email_key)) ==> self.by_pair[(name_key, email_key)]
                == (name, email)
        }
    }
}

/// The name that commits carry, for a rule that asks for one; empty otherwise.
pub open spec fn commit_name_of(rule: RuleView) -> Seq<char> {
    match rule {
        RuleView::Pair { commit_name, .. } => commit_name,
        _ => Seq::empty(),
    }
}

/// The email that commits carry.
pub open spec fn commit_email_of(rule: RuleView) -> Seq<char> {
    match rule {
        RuleView::Name { commit_email, .. } => commit_email,
        RuleView::Email { commit_email, .. } => commit_email,
        RuleView::Both { commit_email, .. } => commit_email,
        RuleView::Pair { commit_email, .. } => commit_email,
    }
}

/// The first position at or after `i` that holds a line feed; the length of
/// `s` if there is none.
pub open spec fn line_end(s: Seq<char>, i: int) -> int
    decreases s.len() - i,
{
    if 0 <= i < s.len() && s[i] != '\n' {
        line_end(s, i + 1)
    } else {
        i
    }
}

/// The lines of `s` from `i` on: the pieces between line feeds. There is one
/// more line than there are line feeds, so a text that ends in a line feed
/// ends in an empty line.
pub open spec fn lines_from(s: Seq<char>, i: int) -> Seq<Seq<char>>
    decreases s.len() - i,
{
    let e = line_end(s, i);
    if 0 <= i <= e < s.len() {
        seq![s.subrange(i, e)] + lines_from(s, e + 1)
    } else if 0 <= i <= s.len() {
        seq![s.subrange(i, s.len() as int)]
    } else {
        Seq::empty()
    }
}

/// The lines of `s`.
pub open spec fn lines(s: Seq<char>) -> Seq<Seq<char>> {
    lines_from(s, 0)
}

proof fn lemma_line_end_bounds(s: Seq<char>, i: int)
    requires
        0 <= i <= s.len(),
    ensures
        i <= line_end(s, i) <= s.len(),
    decreases s.len() - i,
{
    if i < s.len() && s[i] != '\n' {
        lemma_line_end_bounds(s, i + 1);
    }
}

/// A mailmap: the rules read from its text.
pub struct Mailmap {
    email_map: StringHashMap<Replacement>,
    name_email_map: PairMap<(String, String)>,
}

impl View for Mailmap {
    type V = Rules;

    closed spec fn view(&self) -> Rules {
        Rules {
            by_email: self.email_map@.map_values(|r: Replacement| r@),
            by_pair: self.name_email_map@.map_values(|p: (String, String)| (p.0@, p.1@)),
        }
    }
}

impl Mailmap {
    /// Reads a mailmap from its text. Lines that state no rule are passed
    /// over; of two rules with the same key the later one holds.
    pub fn new(data: &str) -> (map: Mailmap)
        ensures
            map@ == Rules::parse(data@),
    {
        let mut map = Mailmap { email_map: StringHashMap::new(), name_email_map: PairMap::new() };
        assert(map@.by_email =~= Map::empty());
        assert(map@.by_pair =~= Map::empty());
        map.parse_map(data);
        map
    }

    /// Adds the rules that `data` states, line by line.
    pub fn parse_map(&mut self, data: &str)
        ensures
            final(self)@ == old(self)@.add_lines(lines(data@)),
    {
        let cs = chars_of(data);
        let ghost s = data@;
        let ghost mut done: Seq<Seq<char>> = Seq::empty();
        let mut i: usize = 0;
        loop
            invariant_except_break
                cs@ == s,
                s == data@,
                i <= cs.len(),
                lines(s) == done + lines_from(s, i as int),
                self@ == old(self)@.add_lines(done),
            ensures
                self@ == old(self)@.add_lines(lines(s)),
            decreases cs.len() - i,
        {
            let mut e: usize = i;
            while e < cs.len() && cs[e] != '\n'
                invariant
                    i <= e <= cs.len(),
                    line_end(cs@, i as int) == line_end(cs@, e as int),
                decreases cs.len() - e,
            {
                e += 1;
            }
            let line = substring(data, i, e);
            match parse_line(line.as_str()) {
                Some(rule) => {
                    self.insert(rule);
                },
                None => {},
            }
            proof {
                assert((done.push(line@)).drop_last() == done);
            }
            if e >= cs.len() {
                proof {
                    assert(lines(s) == done.push(line@));
                }
                break;
            }
            proof {
                assert(done + (seq![line@] + lines_from(s, e + 1)) == done.push(line@) + lines_from(
                    s,
                    e + 1,
                ));
                done = done.push(line@);
            }
            i = e + 1;
        }
    }

    /// Adds one rule, under its commit name and commit email in lower case.
    pub fn insert(&mut self, rule: Rule)
        ensures
            final(self)@ == old(self)@.add(rule@),
    {
        let (name_key, email_key) = match &rule {
            Rule::Name { commit_email, .. } => (String::new(), to_lowercase(commit_email.as_str())),
            Rule::Email { commit_email, .. } => (
                String::new(),
                to_lowercase(commit_email.as_str()),
            ),
            Rule::Both { commit_email, .. } => (String::new(), to_lowercase(commit_email.as_str())),
            Rule::Pair { commit_name, commit_email, .. } => (
                to_lowercase(commit_name.as_str()),
                to_lowercase(commit_email.as_str()),
            ),
        };
        self.insert_keyed(rule, name_key, email_key);
    }

    /// Adds one rule under the given keys, in place of an earlier rule with
    /// the same key. `name_key` matters to a rule for a name and email only.
    pub fn insert_keyed(&mut self, rule: Rule, name_key: String, email_key: String)
        ensures
            final(self)@ == old(self)@.add_keyed(rule@, name_key@, email_key@),
    {
        match rule {
            Rule::Name { name, .. } => {
                self.email_map.insert(email_key, Replacement::name(name));
                assert(self@.by_email =~= old(self)@.add_keyed(rule@, name_key@, email_key@).by_email);
            },
            Rule::Email { email, .. } => {
                self.email_map.insert(email_key, Replacement::email(email));
                assert(self@.by_email =~= old(self)@.add_keyed(rule@, name_key@, email_key@).by_email);
            },
            Rule::Both { name, email, .. } => {
                self.email_map.insert(email_key, Replacement::both(name, email));
                assert(self@.by_email =~= old(self)@.add_keyed(rule@, name_key@, email_key@).by_email);
            },
            Rule::Pair { name, email, .. } => {
                self.name_email_map.insert(name_key, email_key, (name, email));
                assert(self@.by_pair =~= old(self)@.add_keyed(rule@, name_key@, email_key@).by_pair);
            },
        }
    }

    /// Who the author of a commit is: the name and email to show for a commit
    /// made under `name` and `email`.
    pub fn map(&self, name: &str, email: &str) -> (r: (String, String))
        ensures
            (r.0@, r.1@) == self@.resolve(name@, email@),
    {
        let name_key = to_lowercase(name);
        let email_key = to_lowercase(email);
        self.map_keyed(name, email, name_key.as_str(), email_key.as_str())
    }

    /// Who the author of a commit is, given the commit's name and email in
    /// lower case as well.
    pub fn map_keyed(&self, name: &str, email: &str, name_key: &str, email_key: &str) -> (r: (
        String,
        String,
    ))
        ensures
            (r.0@, r.1@) == self@.resolve_keyed(name@, email@, name_key@, email_key@),
    {
        match self.email_map.get(email_key) {
            Some(r) => {
                let n = match &r.name {
                    Some(n) => n.clone(),
                    None => name.to_owned(),
                };
                let e = match &r.email {
                    Some(e) => e.clone(),
                    None => email.to_owned(),
                };
                return (n, e);
            },
            None => {},
        }
        match self.name_email_map.get(name_key, email_key) {
            Some(p) => (p.0.clone(), p.1.clone()),
            None => (name.to_owned(), email.to_owned()),
        }
    }
}

/// Resolving is a function of the rules and the pair alone, and what it
/// returns is settled once no rule changes it: resolving a settled pair gives
/// the pair back.
pub proof fn lemma_resolve_settled(rules: Rules, name: Seq<char>, email: Seq<char>)
    requires
        rules.settled(name, email),
    ensures
        rules.resolve(name, email) == (name, email),
{
}

/// Resolving twice is resolving once, wherever the first answer is settled.
pub proof fn lemma_resolve_idempotent(rules: Rules, name: Seq<char>, email: Seq<char>)
    requires
        rules.settled(rules.resolve(name, email).0, rules.resolve(name, email).1),
    ensures
        rules.resolve(rules.resolve(name, email).0, rules.resolve(name, email).1) == rules.resolve(
            name,
            email,
        ),
{
}

/// Whether every rule leads to a pair that no rule changes: what a rule puts
/// in place of a commit's author is settled, whatever the commit's name
/// where the rule keeps it.
pub open spec fn targets_settled(rules: Rules) -> bool {
    &&& forall|key: Seq<char>| #[trigger]
        rules.by_email.contains_key(key) && rules.by_email[key].email is Some
            && rules.by_email[key].name is Some ==> rules.settled(
            rules.by_email[key].name.unwrap(),
            rules.by_email[key].email.unwrap(),
        )
    &&& forall|key: Seq<char>, name: Seq<char>|
        rules.by_email.contains_key(key) && rules.by_email[key].email is Some
            && rules.by_email[key].name is None ==> #[trigger] rules.settled(
            name,
            rules.by_email[key].email.unwrap(),
        )
    &&& forall|key: PairKey| #[trigger]
        rules.by_pair.contains_key(key) ==> rules.settled(
            rules.by_pair[key].0,
            rules.by_pair[key].1,
        )
}

/// With rules whose targets are settled, resolving is idempotent for every
/// name and email: resolving twice is resolving once.
pub proof fn lemma_resolve_idempotent_for_settled_rules(
    rules: Rules,
    name: Seq<char>,
    email: Seq<char>,
)
    requires
        targets_settled(rules),
    ensures
        rules.resolve(rules.resolve(name, email).0, rules.resolve(name, email).1) == rules.resolve(
            name,
            email,
        ),
{
    let key = lowercase(email);
    if rules.by_email.contains_key(key) {
        let r = rules.by_email[key];
        if r.email is Some && r.name is None {
            assert(rules.settled(name, r.email.unwrap()));
        }
    } else if rules.by_pair.contains_key((lowercase(name), key)) {
        let target = rules.by_pair[(lowercase(name), key)];
        assert(rules.settled(target.0, target.1));
    }
}

/// A rule that gives a name and no email settles at once: where the rule for
/// a commit's email replaces the name alone, resolving twice is resolving
/// once.
pub proof fn lemma_name_rule_settles(rules: Rules, name: Seq<char>, email: Seq<char>)
    requires
        rules.by_email.contains_key(lowercase(email)),
        rules.by_email[lowercase(email)].email is None,
    ensures
        rules.resolve(rules.resolve(name, email).0, rules.resolve(name, email).1) == rules.resolve(
            name,
            email,
        ),
{
}

/// A pair that no rule speaks of resolves to itself.
pub proof fn lemma_resolve_unmapped(rules: Rules, name: Seq<char>, email: Seq<char>)
    requires
        !rules.by_email.contains_key(lowercase(email)),
        !rules.by_pair.contains_key((lowercase(name), lowercase(email))),
    ensures
        rules.resolve(name, email) == (name, email),
{
}

} // verus!
