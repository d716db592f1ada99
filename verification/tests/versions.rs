use thanks::versions::{all, choose_version, semver_version, starts_early};

fn strings(items: &[&str]) -> Vec<String> {
    items.iter().map(|s| s.to_string()).collect()
}

#[test]
fn old_versions_get_their_last_number() {
    assert_eq!(semver_version("1.2.3"), Some("1.2.3".to_string()));
    assert_eq!(semver_version("0.10"), Some("0.10.0".to_string()));
    assert_eq!(semver_version("1.0.0-alpha.2"), Some("1.0.0-alpha.2".to_string()));
    assert_eq!(semver_version("master"), None);
    assert_eq!(semver_version(""), None);
    assert_eq!(semver_version("1"), None);
}

#[test]
fn early_releases_are_known_by_their_name() {
    assert!(starts_early("release-0.1"));
    assert!(starts_early("release-"));
    assert!(!starts_early("release"));
    assert!(!starts_early("0.1"));
    assert!(!starts_early("a-release-0.1"));
    assert!(!starts_early(""));
}

#[test]
fn releases_are_listed_newest_first() {
    let tags = strings(&[
        "1.0.0",
        "0.2",
        "release-0.1",
        "0.10",
        "1.0.0-alpha",
        "1.10.0",
        "release-0.3",
        "0.1",
        "1.0.0-beta",
        "1.9.0",
        "1.0.0-alpha.2",
    ]);
    assert_eq!(
        all(&tags),
        Some(strings(&[
            "master",
            "1.10.0",
            "1.9.0",
            "1.0.0",
            "1.0.0-beta",
            "1.0.0-alpha.2",
            "1.0.0-alpha",
            "0.10",
            "0.2",
            "0.1",
            "release-0.3",
            "release-0.1",
        ]))
    );
}

#[test]
fn equal_versions_keep_their_order() {
    assert_eq!(
        all(&strings(&["0.2.0", "0.1", "0.2"])),
        Some(strings(&["master", "0.2", "0.2.0", "0.1"]))
    );
}

#[test]
fn no_tags_leave_what_is_not_released() {
    assert_eq!(all(&Vec::new()), Some(strings(&["master"])));
}

#[test]
fn a_tag_that_is_no_version_spoils_the_list() {
    assert_eq!(all(&strings(&["1.0.0", "nightly", "0.2"])), None);
}

#[test]
fn first_version_that_parses_is_chosen() {
    assert_eq!(choose_version("1.2", true, true), Some("1.2".to_string()));
    assert_eq!(choose_version("1.2", true, false), Some("1.2".to_string()));
    assert_eq!(choose_version("1.2", false, true), Some("1.2.0".to_string()));
    assert_eq!(choose_version("1.2", false, false), None);
}
