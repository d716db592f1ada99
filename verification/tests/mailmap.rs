use thanks::mailmap::grammar::{parse_line, Rule};
use thanks::mailmap::Mailmap;

fn check_map(map: &Mailmap, name: &str, email: &str, expected_name: &str, expected_email: &str) {
    let result: (String, String) = map.map(name, email);
    assert_eq!(
        (expected_name.to_owned(), expected_email.to_owned()),
        result,
        "Expected to map '{},{}' to '{},{}', but instead mapped to '{},{}'",
        name,
        email,
        expected_name,
        expected_email,
        result.0,
        result.1
    );
}

#[test]
fn test_mailmap() {
    let map_data = "Other Name <othername@example.com>
Three Four <threefour@example.com> # This is a comment
<properemail@example.com> <commitemail@example.com>
Bob Jones <bobjones@example.com> <fakejones@example.com>
# Comment line!
# Another comment
John Doe <johndoe@example.com> That Guy <thatguy@example.com>
Am Valid <valid@example.com> Also Valid <alsovalid@example.com> Not Valid <notvalid@example.com>";

    let m = Mailmap::new(map_data);

    // Authors not in the mailmap should be unchanged
    check_map(&m, "Not Here", "nothere@gmail.com", "Not Here", "nothere@gmail.com");

    // Ensure that non-mailmapped people with multiple names for one email work properly
    check_map(&m, "Kinda Here", "nothere@gmail.com", "Kinda Here", "nothere@gmail.com");

    // A name for an email
    check_map(&m, "Wrong name", "othername@example.com", "Other Name", "othername@example.com");
    check_map(&m, "One Two", "threefour@example.com", "Three Four", "threefour@example.com");

    // An email for an email
    check_map(&m, "Aaron Hill", "commitemail@example.com", "Aaron Hill", "properemail@example.com");
    check_map(&m, "Random Name", "commitemail@example.com", "Random Name", "properemail@example.com");

    // A name and an email for an email
    check_map(&m, "Some Person", "fakejones@example.com", "Bob Jones", "bobjones@example.com");
    check_map(&m, "Someone Else", "fakejones@example.com", "Bob Jones", "bobjones@example.com");

    // A name and an email for a name and an email
    check_map(&m, "That Guy", "thatguy@example.com", "John Doe", "johndoe@example.com");

    // Requires name and email to both match
    check_map(&m, "Other Guy", "thatguy@example.com", "Other Guy", "thatguy@example.com");
    check_map(&m, "That Guy", "blablah@example.com", "That Guy", "blablah@example.com");

    // A line with a third name and email fits none of the shapes and states no rule
    check_map(&m, "Also Valid", "alsovalid@example.com", "Also Valid", "alsovalid@example.com");
    check_map(&m, "Not Valid", "notvalid@example.com", "Not Valid", "notvalid@example.com");

    // Name/email comparisons are case-insensitive, but the case as written is preserved when replacement does not occur
    check_map(&m, "Wrong name", "OtHername@exAmple.com", "Other Name", "OtHername@exAmple.com");
    check_map(&m, "THAT guy", "ThATguy@examPle.com", "John Doe", "johndoe@example.com");
}

#[test]
fn parse_line_reads_each_shape() {
    match parse_line("Other Name <othername@example.com>") {
        Some(Rule::Name { name, commit_email }) => {
            assert_eq!(name, "Other Name");
            assert_eq!(commit_email, "othername@example.com");
        }
        _ => panic!("not read as a name rule"),
    }
    match parse_line("<properemail@example.com> <commitemail@example.com>") {
        Some(Rule::Email { email, commit_email }) => {
            assert_eq!(email, "properemail@example.com");
            assert_eq!(commit_email, "commitemail@example.com");
        }
        _ => panic!("not read as an email rule"),
    }
    match parse_line("Bob Jones <bobjones@example.com> <fakejones@example.com>") {
        Some(Rule::Both { name, email, commit_email }) => {
            assert_eq!(name, "Bob Jones");
            assert_eq!(email, "bobjones@example.com");
            assert_eq!(commit_email, "fakejones@example.com");
        }
        _ => panic!("not read as a rule for both"),
    }
    match parse_line("John Doe <johndoe@example.com> That Guy <thatguy@example.com>") {
        Some(Rule::Pair { name, email, commit_name, commit_email }) => {
            assert_eq!(name, "John Doe");
            assert_eq!(email, "johndoe@example.com");
            assert_eq!(commit_name, "That Guy");
            assert_eq!(commit_email, "thatguy@example.com");
        }
        _ => panic!("not read as a rule for a pair"),
    }
}

#[test]
fn sample_mailmap_resolves_as_documented() {
    let m = Mailmap::new(
        "Other Name <othername@example.com>
<properemail@example.com> <commitemail@example.com>
Bob Jones <bobjones@example.com> <fakejones@example.com>
John Doe <johndoe@example.com> That Guy <thatguy@example.com>",
    );
    check_map(&m, "Wrong name", "othername@example.com", "Other Name", "othername@example.com");
    check_map(&m, "Aaron Hill", "commitemail@example.com", "Aaron Hill", "properemail@example.com");
    check_map(&m, "Someone Else", "fakejones@example.com", "Bob Jones", "bobjones@example.com");
    check_map(&m, "That Guy", "thatguy@example.com", "John Doe", "johndoe@example.com");
    check_map(&m, "Other Guy", "thatguy@example.com", "Other Guy", "thatguy@example.com");
}

#[test]
fn resolving_again_changes_nothing_once_settled() {
    let m = Mailmap::new(
        "Bob Jones <bobjones@example.com> <fakejones@example.com>
John Doe <johndoe@example.com> That Guy <thatguy@example.com>",
    );
    for (name, email) in [
        ("x", "fakejones@example.com"),
        ("That Guy", "thatguy@example.com"),
        ("Nobody", "nobody@example.com"),
    ] {
        let once = m.map(name, email);
        let twice = m.map(&once.0, &once.1);
        assert_eq!(once, twice);
    }
}

#[test]
fn resolving_again_follows_a_chain_of_rules() {
    let m = Mailmap::new("<b@example.com> <a@example.com>\n<c@example.com> <b@example.com>");
    let once = m.map("N", "a@example.com");
    assert_eq!(once, ("N".to_string(), "b@example.com".to_string()));
    assert_eq!(m.map(&once.0, &once.1), ("N".to_string(), "c@example.com".to_string()));
}

#[test]
fn later_rule_replaces_earlier_rule_for_the_same_key() {
    let m = Mailmap::new(
        "First <first@example.com> <k@example.com>
Second <K@Example.com>
A B <ab@example.com> C D <cd@example.com>
E F <ef@example.com> c d <CD@example.com>",
    );
    check_map(&m, "x", "k@example.com", "Second", "k@example.com");
    check_map(&m, "C D", "cd@example.com", "E F", "ef@example.com");
}

#[test]
fn email_rule_comes_before_rule_for_name_and_email() {
    let m = Mailmap::new(
        "John Doe <johndoe@example.com> That Guy <thatguy@example.com>
<other@example.com> <thatguy@example.com>",
    );
    check_map(&m, "That Guy", "thatguy@example.com", "That Guy", "other@example.com");
}

#[test]
fn lines_that_state_no_rule_are_passed_over() {
    let m = Mailmap::new("nonsense\n\n# Bob <bob@example.com>\nAnn <ann@example.com>\n<<>>\n");
    check_map(&m, "x", "ann@example.com", "Ann", "ann@example.com");
    check_map(&m, "x", "bob@example.com", "x", "bob@example.com");
    let empty = Mailmap::new("");
    check_map(&empty, "x", "y", "x", "y");
}

#[test]
fn rules_can_be_added_one_by_one() {
    let mut m = Mailmap::new("");
    m.insert(parse_line("Ann <ann@example.com> <old@example.com>").unwrap());
    m.parse_map("Bob <bob@example.com> B <b@example.com>");
    check_map(&m, "x", "OLD@example.com", "Ann", "ann@example.com");
    check_map(&m, "b", "B@example.com", "Bob", "bob@example.com");
    // a rule stored under a key that is not in lower case is never found
    m.insert_keyed(
        parse_line("Cy <cy@example.com>").unwrap(),
        String::new(),
        "CY@example.com".to_string(),
    );
    check_map(&m, "x", "cy@example.com", "x", "cy@example.com");
    assert_eq!(
        m.map_keyed("x", "cy@example.com", "x", "CY@example.com"),
        ("Cy".to_string(), "cy@example.com".to_string())
    );
}
