use thanks::changelog::changelog_link;

#[test]
fn releases_have_their_notes() {
    assert_eq!(changelog_link("master"), "https://github.com/rust-lang/rust/commits/master");
    assert_eq!(
        changelog_link("0.1"),
        "https://github.com/rust-lang/rust/blob/master/RELEASES.md#version-01--2012-01-20"
    );
    assert_eq!(
        changelog_link("1.0.0-alpha.2"),
        "https://github.com/rust-lang/rust/blob/master/RELEASES.md#version-100-alpha2-2015-02-20"
    );
    assert_eq!(
        changelog_link("1.16.0"),
        "https://github.com/rust-lang/rust/blob/master/RELEASES.md#version-1160-2017-03-16"
    );
}

#[test]
fn other_releases_get_the_top_of_the_notes() {
    let top = "https://github.com/rust-lang/rust/blob/master/RELEASES.md#";
    assert_eq!(changelog_link("1.0.0-beta"), top);
    assert_eq!(changelog_link("1.17.0"), top);
    assert_eq!(changelog_link(""), top);
    assert_eq!(changelog_link("Master"), top);
}
