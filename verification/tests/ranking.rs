use thanks::ranking::{rank, scores, tally, Count, Score};

fn authors(items: &[(&str, &str)]) -> Vec<(String, String)> {
    items.iter().map(|a| (a.0.to_string(), a.1.to_string())).collect()
}

fn count(name: &str, commits: u64) -> Count {
    Count { name: name.to_string(), email: format!("{}@example.com", name), commits }
}

fn lines(board: &[Score]) -> Vec<(u64, String, u64)> {
    board.iter().map(|s| (s.rank, s.author.clone(), s.commits)).collect()
}

fn line(rank: u64, author: &str, commits: u64) -> (u64, String, u64) {
    (rank, author.to_string(), commits)
}

#[test]
fn tally_counts_in_order_of_first_commit() {
    let counts = tally(&authors(&[
        ("ann", "ann@e.com"),
        ("bob", "bob@e.com"),
        ("ann", "ann@e.com"),
        ("cy", "cy@e.com"),
        ("ann", "ann@e.com"),
        ("bob", "bob@e.com"),
    ]));
    let rows: Vec<(String, String, u64)> =
        counts.into_iter().map(|c| (c.name, c.email, c.commits)).collect();
    assert_eq!(
        rows,
        vec![
            ("ann".to_string(), "ann@e.com".to_string(), 3),
            ("bob".to_string(), "bob@e.com".to_string(), 2),
            ("cy".to_string(), "cy@e.com".to_string(), 1),
        ]
    );
    assert!(tally(&Vec::new()).is_empty());
}

#[test]
fn one_name_under_two_emails_is_two_authors() {
    let commits = authors(&[("A", "x@e.com"), ("A", "y@e.com"), ("A", "x@e.com")]);
    let counts = tally(&commits);
    assert_eq!(counts.len(), 2);
    assert_eq!(lines(&scores(&commits)), vec![line(1, "A", 2), line(2, "A", 1)]);
    let commits = authors(&[("A", "x@e.com"), ("B", "x@e.com")]);
    assert_eq!(lines(&scores(&commits)), vec![line(1, "A", 1), line(1, "B", 1)]);
}

#[test]
fn ties_share_a_rank_and_the_next_rank_is_the_position() {
    let counts =
        vec![count("a", 5), count("b", 9), count("c", 5), count("d", 9), count("e", 1), count("f", 5)];
    assert_eq!(
        lines(&rank(&counts)),
        vec![
            line(1, "b", 9),
            line(1, "d", 9),
            line(3, "a", 5),
            line(3, "c", 5),
            line(3, "f", 5),
            line(6, "e", 1),
        ]
    );
    let counts = vec![count("a", 4), count("b", 3), count("c", 3), count("d", 2)];
    let ranks: Vec<u64> = rank(&counts).iter().map(|s| s.rank).collect();
    assert_eq!(ranks, vec![1, 2, 2, 4]);
}

#[test]
fn ranks_do_not_depend_on_the_order_of_ties() {
    let one = vec![count("a", 2), count("b", 2), count("c", 7)];
    let two = vec![count("b", 2), count("a", 2), count("c", 7)];
    assert_eq!(lines(&rank(&one)), vec![line(1, "c", 7), line(2, "a", 2), line(2, "b", 2)]);
    assert_eq!(lines(&rank(&two)), vec![line(1, "c", 7), line(2, "b", 2), line(2, "a", 2)]);
}

#[test]
fn first_entry_has_rank_one_whatever_its_count() {
    let counts = vec![count("a", 0), count("b", 0)];
    assert_eq!(lines(&rank(&counts)), vec![line(1, "a", 0), line(1, "b", 0)]);
    assert!(rank(&Vec::new()).is_empty());
}

#[test]
fn scores_rank_the_authors_of_commits() {
    let board = scores(&authors(&[
        ("ann", "ann@e.com"),
        ("bob", "bob@e.com"),
        ("ann", "ann@e.com"),
        ("cy", "cy@e.com"),
        ("bob", "bob@e.com"),
        ("ann", "ann@e.com"),
        ("dee", "dee@e.com"),
    ]));
    assert_eq!(
        lines(&board),
        vec![line(1, "ann", 3), line(2, "bob", 2), line(3, "cy", 1), line(3, "dee", 1)]
    );
}

#[test]
fn scores_of_permuted_commits_differ_only_inside_ties() {
    let one = scores(&authors(&[
        ("ann", "ann@e.com"),
        ("bob", "bob@e.com"),
        ("cy", "cy@e.com"),
        ("ann", "ann@e.com"),
    ]));
    let two = scores(&authors(&[
        ("cy", "cy@e.com"),
        ("ann", "ann@e.com"),
        ("ann", "ann@e.com"),
        ("bob", "bob@e.com"),
    ]));
    assert_eq!(lines(&one), vec![line(1, "ann", 2), line(2, "bob", 1), line(2, "cy", 1)]);
    assert_eq!(lines(&two), vec![line(1, "ann", 2), line(2, "cy", 1), line(2, "bob", 1)]);
}
