use std::cmp::Ordering;
use thanks::releases::{
    char_cmp, contributors, find_previous_tag_ref, get_commits, get_first_commits, inaccurate_sort,
    release_ref, str_cmp,
};

fn strings(items: &[&str]) -> Vec<String> {
    items.iter().map(|s| s.to_string()).collect()
}

#[test]
fn sort_sets_combining_marks_aside() {
    let mut names = strings(&["\u{e9}", "e"]);
    inaccurate_sort(&mut names);
    assert_eq!(names, strings(&["\u{e9}", "e"]));

    let mut names = strings(&["e", "\u{e9}"]);
    inaccurate_sort(&mut names);
    assert_eq!(names, strings(&["e", "\u{e9}"]));

    assert_eq!(str_cmp("\u{e9}", "e"), Ordering::Equal);
    assert_eq!(str_cmp("e\u{301}", "\u{e9}"), Ordering::Equal);
}

#[test]
fn sort_orders_names() {
    let mut names = strings(&["bob", "Carol", "alice", "\u{c9}mile", "Bob", "dave", "Al"]);
    inaccurate_sort(&mut names);
    // 'a' and 'A' fold to the same letter, so the first character decides
    // between "alice" and "Al": the small letter comes first.
    assert_eq!(names, strings(&["alice", "Al", "bob", "Bob", "Carol", "dave", "\u{c9}mile"]));
}

#[test]
fn small_letter_comes_before_capital() {
    assert_eq!(char_cmp('a', 'A'), Ordering::Less);
    assert_eq!(char_cmp('A', 'a'), Ordering::Greater);
    assert_eq!(char_cmp('a', 'a'), Ordering::Equal);
    assert_eq!(char_cmp('a', 'b'), Ordering::Less);
    assert_eq!(char_cmp('B', 'a'), Ordering::Greater);
    assert_eq!(char_cmp('1', '2'), Ordering::Less);
    assert_eq!(char_cmp('1', '1'), Ordering::Equal);
}

#[test]
fn shorter_name_comes_first() {
    assert_eq!(str_cmp("ab", "abc"), Ordering::Less);
    assert_eq!(str_cmp("abc", "ab"), Ordering::Greater);
    assert_eq!(str_cmp("", ""), Ordering::Equal);
    assert_eq!(str_cmp("abc", "abd"), Ordering::Less);
}

#[test]
fn commits_come_from_both_sides() {
    let commits = get_commits(strings(&["c3", "c2"]), strings(&["b1"]));
    assert_eq!(commits, strings(&["c3", "c2", "b1"]));
}

#[test]
fn commits_are_not_repeated() {
    let commits = get_commits(strings(&["c3", "c2", "c3"]), strings(&["c2", "b1"]));
    assert_eq!(commits, strings(&["c3", "c2", "b1"]));
    assert_eq!(get_commits(Vec::new(), Vec::new()), Vec::<String>::new());
}

#[test]
fn contributors_are_sorted_and_named_once() {
    let names = strings(&["bob", "alice", "Bob", "bob", "alice", "\u{e9}ric", "eric", "\u{e9}ric"]);
    assert_eq!(
        contributors(&names),
        strings(&["alice", "bob", "Bob", "\u{e9}ric", "eric", "\u{e9}ric"])
    );
    assert_eq!(contributors(&Vec::new()), Vec::<String>::new());
}

#[test]
fn previous_release_follows_in_the_list() {
    let tags = strings(&["master", "1.1.0", "1.0.0", "0.9", "1.0.0"]);
    assert_eq!(find_previous_tag_ref(&tags, "master"), Some("1.1.0".to_string()));
    assert_eq!(find_previous_tag_ref(&tags, "1.0.0"), Some("0.9".to_string()));
    assert_eq!(find_previous_tag_ref(&tags, "0.9"), Some("1.0.0".to_string()));
    assert_eq!(find_previous_tag_ref(&tags, "2.0.0"), None);
    assert_eq!(find_previous_tag_ref(&strings(&["master", "0.1"]), "0.1"), None);
    assert_eq!(find_previous_tag_ref(&Vec::new(), "0.1"), None);
}

#[test]
fn releases_are_known_by_their_tags() {
    assert_eq!(release_ref("master"), "refs/heads/master");
    assert_eq!(release_ref("1.0.0"), "refs/tags/1.0.0");
    assert_eq!(release_ref(""), "refs/tags/");
    assert_eq!(release_ref("Master"), "refs/tags/Master");
}

#[test]
fn first_release_takes_all_it_reaches() {
    assert_eq!(get_first_commits(&strings(&["c3", "c2", "c1"])), strings(&["c3", "c2", "c1"]));
    assert_eq!(get_first_commits(&strings(&["c3", "c2", "c3"])), strings(&["c3", "c2"]));
    assert_eq!(get_first_commits(&Vec::new()), Vec::<String>::new());
}
