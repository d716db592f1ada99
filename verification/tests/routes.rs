use thanks::mailmap::Mailmap;
use thanks::routes::{all_time, release};

const MAILMAP: &str = "Bob Jones <bob@example.com> <old@example.com>
<ann@example.com> <ann@old.example.com>";

fn pair(name: &str, email: &str) -> (String, String) {
    (name.to_string(), email.to_string())
}

#[test]
fn release_page_names_each_contributor_once() {
    let m = Mailmap::new(MAILMAP);
    let authors = vec![
        pair("zed", "zed@example.com"),
        pair("bob", "old@example.com"),
        pair("Ann", "ann@old.example.com"),
        pair("Bob Jones", "bob@example.com"),
        pair("Ann", "ann@example.com"),
        pair("zed", "zed@example.com"),
    ];
    assert_eq!(release(&m, &authors), vec!["Ann".to_string(), "Bob Jones".to_string(), "zed".to_string()]);
    assert!(release(&m, &Vec::new()).is_empty());
}

#[test]
fn all_time_page_counts_by_canonical_author() {
    let m = Mailmap::new(MAILMAP);
    let authors = vec![
        pair("zed", "zed@example.com"),
        pair("bob", "old@example.com"),
        pair("Ann", "ann@old.example.com"),
        pair("Bob Jones", "bob@example.com"),
        pair("B. Jones", "OLD@example.com"),
        pair("cy", "cy@example.com"),
    ];
    let board: Vec<(u64, String, u64)> =
        all_time(&m, &authors).iter().map(|s| (s.rank, s.author.clone(), s.commits)).collect();
    assert_eq!(
        board,
        vec![
            (1, "Bob Jones".to_string(), 3),
            (2, "zed".to_string(), 1),
            (2, "Ann".to_string(), 1),
            (2, "cy".to_string(), 1),
        ]
    );
}

#[test]
fn all_time_page_tells_authors_apart_by_name_and_email() {
    let m = Mailmap::new("");
    let authors = vec![pair("A", "x@e.com"), pair("A", "y@e.com")];
    let board: Vec<(u64, String, u64)> =
        all_time(&m, &authors).iter().map(|s| (s.rank, s.author.clone(), s.commits)).collect();
    assert_eq!(board, vec![(1, "A".to_string(), 1), (1, "A".to_string(), 1)]);
}
