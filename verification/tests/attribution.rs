use thanks::attribution::{
    assign, confirm, find_release, new_commits, AssignError, Assignment, RawCommit,
};
use thanks::authors::AuthorStore;
use thanks::mailmap::Mailmap;
use thanks::models::{Author, Release};

fn release(id: i32, version: &str, project_id: i32) -> Release {
    Release { id, version: version.to_string(), project_id, visible: true, link: String::new() }
}

fn commit(sha: &str, name: &str, email: &str) -> RawCommit {
    RawCommit {
        sha: sha.to_string(),
        author_name: name.to_string(),
        author_email: email.to_string(),
    }
}

fn store() -> AuthorStore {
    let mut store = AuthorStore::new(Mailmap::new("Bob Jones <bob@example.com> <old@example.com>"));
    store.remember(Author {
        id: 11,
        name: "Bob Jones".to_string(),
        email: "bob@example.com".to_string(),
        visible: true,
    });
    store.remember(Author {
        id: 12,
        name: "Ann".to_string(),
        email: "ann@example.com".to_string(),
        visible: true,
    });
    store
}

#[test]
fn release_is_found_by_version_and_project() {
    let releases = vec![release(1, "1.0.0", 7), release(2, "1.1.0", 8), release(3, "1.1.0", 7)];
    assert_eq!(find_release(&releases, "1.1.0", 7), Some(2));
    assert_eq!(find_release(&releases, "1.1.0", 8), Some(1));
    assert_eq!(find_release(&releases, "1.0.0", 8), None);
    assert_eq!(find_release(&releases, "2.0.0", 7), None);
    assert_eq!(find_release(&Vec::new(), "1.0.0", 7), None);
}

#[test]
fn commits_are_assigned_to_release_and_canonical_author() {
    let commits = vec![
        commit("a1", "bob", "OLD@example.com"),
        commit("b2", "Ann", "ann@example.com"),
        commit("c3", "Bob Jones", "bob@example.com"),
    ];
    match assign(&store(), &release(5, "1.0.0", 7), &commits) {
        Ok(Assignment::Upsert(records)) => {
            let rows: Vec<(String, i32, i32)> =
                records.iter().map(|c| (c.sha.clone(), c.release_id, c.author_id)).collect();
            assert_eq!(
                rows,
                vec![("a1".to_string(), 5, 11), ("b2".to_string(), 5, 12), ("c3".to_string(), 5, 11)]
            );
        }
        _ => panic!("the commits were not assigned"),
    }
}

#[test]
fn assigning_twice_decides_the_same() {
    let commits = vec![commit("a1", "bob", "old@example.com"), commit("b2", "Ann", "ann@example.com")];
    let authors = store();
    let rel = release(5, "1.0.0", 7);
    let rows = |r: Result<Assignment, AssignError>| match r {
        Ok(Assignment::Upsert(records)) => records
            .iter()
            .map(|c| (c.sha.clone(), c.release_id, c.author_id))
            .collect::<Vec<_>>(),
        _ => panic!("the commits were not assigned"),
    };
    assert_eq!(rows(assign(&authors, &rel, &commits)), rows(assign(&authors, &rel, &commits)));
}

#[test]
fn no_commits_are_skipped() {
    match assign(&store(), &release(5, "1.0.0", 7), &Vec::new()) {
        Ok(Assignment::Skipped) => {}
        _ => panic!("an empty batch was not skipped"),
    }
}

#[test]
fn unknown_author_stops_the_batch() {
    let commits = vec![
        commit("a1", "Ann", "ann@example.com"),
        commit("b2", "Cy", "cy@example.com"),
        commit("c3", "Dee", "dee@example.com"),
    ];
    match assign(&store(), &release(5, "1.0.0", 7), &commits) {
        Err(AssignError::UnknownAuthor { index }) => assert_eq!(index, 1),
        _ => panic!("a commit of an unknown author was assigned"),
    }
}

#[test]
fn row_count_must_match() {
    assert!(confirm(3, 3).is_ok());
    assert!(confirm(0, 0).is_ok());
    match confirm(3, 2) {
        Err(AssignError::RowCount { expected, affected }) => {
            assert_eq!(expected, 3);
            assert_eq!(affected, 2);
        }
        _ => panic!("a short write was accepted"),
    }
    assert!(confirm(2, 3).is_err());
}

#[test]
fn only_unrecorded_commits_are_new() {
    let fetched = vec![
        commit("a1", "Ann", "ann@example.com"),
        commit("b2", "Bob", "bob@example.com"),
        commit("c3", "Cy", "cy@example.com"),
        commit("b2", "Bob", "bob@example.com"),
        commit("d4", "Dee", "dee@example.com"),
    ];
    let stored = vec!["b2".to_string(), "zz".to_string(), "d4".to_string()];
    let fresh: Vec<String> = new_commits(&fetched, &stored).into_iter().map(|c| c.sha).collect();
    assert_eq!(fresh, vec!["a1".to_string(), "c3".to_string()]);
    assert!(new_commits(&Vec::new(), &stored).is_empty());
    assert_eq!(new_commits(&fetched, &Vec::new()).len(), 5);
}
