use thanks::server::{choose_route, dispatch, Dispatch, RouteChoice};

fn answer(proto: Option<&str>, path: &str) -> (String, String) {
    match dispatch(proto, path) {
        Dispatch::Redirect { location } => ("redirect".to_string(), location),
        Dispatch::NotFound => ("not found".to_string(), String::new()),
        Dispatch::Static { path } => ("static".to_string(), path),
    }
}

fn expect(kind: &str, text: &str) -> (String, String) {
    (kind.to_string(), text.to_string())
}

#[test]
fn requests_are_sent_to_https() {
    assert_eq!(
        answer(Some("http"), "/rust/1.0.0"),
        expect("redirect", "https://thanks.rust-lang.org/rust/1.0.0")
    );
    assert_eq!(answer(Some(""), "/"), expect("redirect", "https://thanks.rust-lang.org/"));
    assert_eq!(answer(Some("HTTPS"), "/"), expect("redirect", "https://thanks.rust-lang.org/"));
    assert_eq!(
        answer(Some("http"), "/../etc"),
        expect("redirect", "https://thanks.rust-lang.org/../etc")
    );
}

#[test]
fn paths_that_leave_the_public_directory_are_turned_away() {
    assert_eq!(answer(None, "/../secret"), expect("not found", ""));
    assert_eq!(answer(Some("https"), "/a/./b"), expect("not found", ""));
    assert_eq!(answer(None, "./"), expect("not found", ""));
    assert_eq!(answer(None, "/a/b./"), expect("not found", ""));
}

#[test]
fn other_requests_look_for_a_public_file_first() {
    assert_eq!(answer(None, "/css/site.css"), expect("static", "public/css/site.css"));
    assert_eq!(answer(Some("https"), "/"), expect("static", "public/"));
    assert_eq!(answer(None, ""), expect("static", "public"));
    assert_eq!(answer(None, "/a.b/c."), expect("static", "public/a.b/c."));
    assert_eq!(answer(None, "/.hidden"), expect("static", "public/.hidden"));
}

#[test]
fn first_fitting_route_is_chosen() {
    assert_eq!(choose_route(&vec![false, true, true], true), RouteChoice::Route(1));
    assert_eq!(choose_route(&vec![true], false), RouteChoice::Route(0));
    assert_eq!(choose_route(&vec![false, false], true), RouteChoice::CatchAll);
    assert_eq!(choose_route(&vec![false, false], false), RouteChoice::NotFound);
    assert_eq!(choose_route(&Vec::new(), true), RouteChoice::CatchAll);
    assert_eq!(choose_route(&Vec::new(), false), RouteChoice::NotFound);
}
