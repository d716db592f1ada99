use thanks::authors::{chunks, still_missing, AuthorStore, StoreError, ITEMS_PER_CHUNK};
use thanks::mailmap::Mailmap;
use thanks::models::{Author, NewAuthor};

const MAILMAP: &str = "Bob Jones <bobjones@example.com> <fakejones@example.com>
John Doe <johndoe@example.com> That Guy <thatguy@example.com>";

fn author(id: i32, name: &str, email: &str) -> Author {
    Author { id, name: name.to_string(), email: email.to_string(), visible: true }
}

fn pair(name: &str, email: &str) -> (String, String) {
    (name.to_string(), email.to_string())
}

fn same(a: &Author, id: i32, name: &str, email: &str) -> bool {
    a.id == id && a.name == name && a.email == email
}

#[test]
fn unknown_author_is_a_miss() {
    let store = AuthorStore::new(Mailmap::new(MAILMAP));
    assert!(store.get("Bob Jones", "bobjones@example.com").is_none());
    assert_eq!(
        store.map_author(NewAuthor { name: "bob", email: "FakeJones@example.com" }),
        pair("Bob Jones", "bobjones@example.com")
    );
}

#[test]
fn remembered_author_is_found_by_any_spelling() {
    let mut store = AuthorStore::from_file(MAILMAP);
    store.remember(author(7, "Bob Jones", "bobjones@example.com"));
    let a = store.get("bob", "fakejones@example.com").expect("cached");
    assert!(same(&a, 7, "Bob Jones", "bobjones@example.com"));
    let a = store.get("Bob Jones", "bobjones@example.com").expect("cached");
    assert!(same(&a, 7, "Bob Jones", "bobjones@example.com"));
    assert!(store.get("Bob Jones", "other@example.com").is_none());
    assert!(store.get("bob jones", "bobjones@example.com").is_none());
}

#[test]
fn batch_asks_once_for_each_missing_pair() {
    let mut store = AuthorStore::new(Mailmap::new(MAILMAP));
    store.remember(author(1, "John Doe", "johndoe@example.com"));
    let batch = store.find_or_create_all(&vec![
        NewAuthor { name: "Someone", email: "fakejones@example.com" },
        NewAuthor { name: "That Guy", email: "thatguy@example.com" },
        NewAuthor { name: "Bob Jones", email: "bobjones@example.com" },
        NewAuthor { name: "New", email: "new@example.com" },
        NewAuthor { name: "THAT GUY", email: "ThatGuy@example.com" },
        NewAuthor { name: "New", email: "new@example.com" },
    ]);
    assert_eq!(batch.found.len(), 2);
    assert!(same(&batch.found[0], 1, "John Doe", "johndoe@example.com"));
    assert!(same(&batch.found[1], 1, "John Doe", "johndoe@example.com"));
    assert_eq!(
        batch.missing,
        vec![pair("Bob Jones", "bobjones@example.com"), pair("New", "new@example.com")]
    );
}

#[test]
fn second_batch_finds_what_the_first_admitted() {
    let mut store = AuthorStore::new(Mailmap::new(MAILMAP));
    let raw = vec![pair("Someone", "fakejones@example.com"), pair("New", "new@example.com")];
    let first = store.warm_cache(&raw);
    assert!(first.found.is_empty());
    assert_eq!(first.missing.len(), 2);

    let existing = vec![author(3, "New", "new@example.com")];
    assert_eq!(
        still_missing(&first.missing, &existing),
        vec![pair("Bob Jones", "bobjones@example.com")]
    );

    let rows = vec![author(3, "New", "new@example.com"), author(4, "Bob Jones", "bobjones@example.com")];
    let admitted = store.admit_chunk(&first.missing, &rows).expect("every pair has a row");
    assert_eq!(admitted.len(), 2);
    assert!(same(&admitted[0], 4, "Bob Jones", "bobjones@example.com"));
    assert!(same(&admitted[1], 3, "New", "new@example.com"));

    let second = store.warm_cache(&raw);
    assert!(second.missing.is_empty());
    assert_eq!(second.found.len(), 2);
    assert!(same(&second.found[0], 4, "Bob Jones", "bobjones@example.com"));
    assert!(same(&second.found[1], 3, "New", "new@example.com"));
}

#[test]
fn chunk_without_its_record_is_refused() {
    let mut store = AuthorStore::new(Mailmap::new(""));
    let chunk = vec![pair("A", "a@example.com"), pair("B", "b@example.com"), pair("C", "c@example.com")];
    let rows = vec![author(1, "A", "a@example.com"), author(3, "C", "c@example.com")];
    match store.admit_chunk(&chunk, &rows) {
        Err(StoreError::MissingRecord { index }) => assert_eq!(index, 1),
        Ok(_) => panic!("a pair without a record was admitted"),
    }
    assert!(store.get("A", "a@example.com").is_none());
    assert!(store.get("C", "c@example.com").is_none());
}

#[test]
fn chunks_hold_the_pairs_in_order() {
    assert!(chunks(&Vec::new()).is_empty());

    let few = vec![pair("A", "a@example.com"), pair("B", "b@example.com")];
    assert_eq!(chunks(&few), vec![few.clone()]);

    let mut many = Vec::new();
    for i in 0..(2 * ITEMS_PER_CHUNK + 5) {
        many.push(pair("n", &format!("{}@example.com", i)));
    }
    let parts = chunks(&many);
    assert_eq!(parts.len(), 3);
    assert_eq!(parts[0].len(), ITEMS_PER_CHUNK);
    assert_eq!(parts[1].len(), ITEMS_PER_CHUNK);
    assert_eq!(parts[2].len(), 5);
    assert_eq!(parts[1][0], many[ITEMS_PER_CHUNK]);
    assert_eq!(parts[2][4], many[2 * ITEMS_PER_CHUNK + 4]);
    assert_eq!(parts.concat(), many);

    let exact: Vec<(String, String)> = many[..ITEMS_PER_CHUNK].to_vec();
    assert_eq!(chunks(&exact).len(), 1);
}

#[test]
fn after_admission_each_input_has_its_author_in_order() {
    let mut store = AuthorStore::new(Mailmap::new(MAILMAP));
    store.remember(author(1, "John Doe", "johndoe@example.com"));
    let inputs = vec![
        NewAuthor { name: "New", email: "new@example.com" },
        NewAuthor { name: "That Guy", email: "thatguy@example.com" },
        NewAuthor { name: "New", email: "new@example.com" },
        NewAuthor { name: "x", email: "FAKEJONES@example.com" },
        NewAuthor { name: "New", email: "new@example.com" },
    ];
    match store.lookup_all(&inputs) {
        Err(StoreError::MissingRecord { index }) => assert_eq!(index, 0),
        Ok(_) => panic!("authors were found that the cache does not hold"),
    }

    let batch = store.find_or_create_all(&inputs);
    assert_eq!(
        batch.missing,
        vec![pair("New", "new@example.com"), pair("Bob Jones", "bobjones@example.com")]
    );
    let rows = vec![author(5, "Bob Jones", "bobjones@example.com"), author(6, "New", "new@example.com")];
    for chunk in chunks(&batch.missing) {
        store.admit_chunk(&chunk, &rows).expect("every pair has a row");
    }

    let authors = store.lookup_all(&inputs).expect("every author is cached");
    assert_eq!(authors.len(), inputs.len());
    for (a, input) in authors.iter().zip(inputs.iter()) {
        assert_eq!((a.name.clone(), a.email.clone()), store.map_author(*input));
    }
    let ids: Vec<i32> = authors.iter().map(|a| a.id).collect();
    assert_eq!(ids, vec![6, 1, 6, 5, 6]);
    assert!(store.lookup_all(&Vec::new()).expect("nothing to look up").is_empty());
}
