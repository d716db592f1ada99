//! What to answer a request with, before any page is made.
//!
//! Requests that did not come over HTTPS are sent there. Paths that try to
//! leave the directory of public files are turned away. Any other request
//! gets the public file of its path if there is one, else the page of the
//! first route that its path fits.

use vstd::prelude::*;
use crate::text::{chars_of, same_text};

verus! {

/// The first answer to a request.
pub enum Dispatch {
    /// Send the client to `location`.
    Redirect { location: String },
    /// There is no such page.
    NotFound,
    /// Serve the file at `path` if there is one; go on to the routes if
    /// there is none.
    Static { path: String },
}

/// The scheme that requests have to come over.
pub open spec fn https() -> Seq<char> {
    seq!['h', 't', 't', 'p', 's']
}

/// The site that requests over another scheme are sent to.
pub open spec fn site() -> Seq<char> {
    seq![
        'h',
        't',
        't',
        'p',
        's',
        ':',
        '/',
        '/',
        't',
        'h',
        'a',
        'n',
        'k',
        's',
        '.',
        'r',
        'u',
        's',
        't',
        '-',
        'l',
        'a',
        'n',
        'g',
        '.',
        'o',
        'r',
        'g',
    ]
}

/// The directory of the public files.
pub open spec fn public_dir() -> Seq<char> {
    seq!['p', 'u', 'b', 'l', 'i', 'c']
}

/// Whether a path holds `./`, with which it could leave its directory.
pub open spec fn has_dot_slash(path: Seq<char>) -> bool {
    exists|i: int| 0 <= i < path.len() - 1 && #[trigger] path[i] == '.' && path[i + 1] == '/'
}

/// A [`Dispatch`] as a mathematical value.
pub enum DispatchView {
    Redirect { location: Seq<char> },
    NotFound,
    Static { path: Seq<char> },
}

impl View for Dispatch {
    type V = DispatchView;

    open spec fn view(&self) -> DispatchView {
        match self {
            Dispatch::Redirect { location } => DispatchView::Redirect { location: location@ },
            Dispatch::NotFound => DispatchView::NotFound,
            Dispatch::Static { path } => DispatchView::Static { path: path@ },
        }
    }
}

/// The `x-forwarded-proto` header of a request as a mathematical value.
pub open spec fn header(forwarded_proto: Option<&str>) -> Option<Seq<char>> {
    match forwarded_proto {
        Some(p) => Some(p@),
        None => None,
    }
}

/// The first answer to a request for `path` that came with the given
/// `x-forwarded-proto` header, if it came with one.
pub open spec fn first_answer(forwarded_proto: Option<Seq<char>>, path: Seq<char>) -> DispatchView {
    if forwarded_proto is Some && forwarded_proto.unwrap() != https() {
        DispatchView::Redirect { location: site() + path }
    } else if has_dot_slash(public_dir() + path) {
        DispatchView::NotFound
    } else {
        DispatchView::Static { path: public_dir() + path }
    }
}

fn dot_slash(cs: &Vec<char>) -> (r: bool)
    ensures
        r == has_dot_slash(cs@),
{
    if cs.len() < 2 {
        return false;
    }
    let mut i: usize = 0;
    while i < cs.len() - 1
        invariant
            cs.len() >= 2,
            forall|k: int| 0 <= k < i && k < cs@.len() - 1 ==> !(#[trigger] cs@[k] == '.' && cs@[k
                + 1] == '/'),
        decreases cs.len() - i,
    {
        if cs[i] == '.' && cs[i + 1] == '/' {
            return true;
        }
        i += 1;
    }
    false
}

/// Decides the first answer to a request for `path`. `forwarded_proto` is
/// the `x-forwarded-proto` header of the request, if it has one.
pub fn dispatch(forwarded_proto: Option<&str>, path: &str) -> (d: Dispatch)
    ensures
        d@ == first_answer(header(forwarded_proto), path@),
{
    proof {
        reveal_strlit("https");
        reveal_strlit("https://thanks.rust-lang.org");
        reveal_strlit("public");
        assert("https"@ =~= https());
        assert("https://thanks.rust-lang.org"@ =~= site());
        assert("public"@ =~= public_dir());
    }
    match forwarded_proto {
        Some(proto) => {
            if !same_text(proto, "https") {
                return Dispatch::Redirect {
                    location: String::from_str("https://thanks.rust-lang.org").concat(path),
                };
            }
        },
        None => {},
    }
    let file = String::from_str("public").concat(path);
    let cs = chars_of(file.as_str());
    if dot_slash(&cs) {
        Dispatch::NotFound
    } else {
        Dispatch::Static { path: file }
    }
}

/// Which page answers a request.
#[derive(Debug, PartialEq, Eq)]
pub enum RouteChoice {
    /// The route at this position.
    Route(usize),
    /// The route for requests that fit no other.
    CatchAll,
    /// None: there is no such page.
    NotFound,
}

/// The first position at or after `from` at which `fits` is true; the length
/// of `fits` if there is none.
pub open spec fn first_fit(fits: Seq<bool>, from: int) -> int
    decreases fits.len() - from,
{
    if 0 <= from < fits.len() && !fits[from] {
        first_fit(fits, from + 1)
    } else {
        from
    }
}

/// Picks the route for a request: the first that its path fits, else the
/// route for all other requests if there is one. `fits` says of each route,
/// in the order they were added, whether the path fits it.
pub fn choose_route(fits: &Vec<bool>, has_catch_all: bool) -> (choice: RouteChoice)
    ensures
        match choice {
            RouteChoice::Route(i) => i < fits@.len() && i == first_fit(fits@, 0),
            RouteChoice::CatchAll => first_fit(fits@, 0) == fits@.len() && has_catch_all,
            RouteChoice::NotFound => first_fit(fits@, 0) == fits@.len() && !has_catch_all,
        },
{
    let mut i: usize = 0;
    while i < fits.len()
        invariant
            i <= fits.len(),
            first_fit(fits@, 0) == first_fit(fits@, i as int),
        decreases fits.len() - i,
    {
        if fits[i] {
            return RouteChoice::Route(i);
        }
        i += 1;
    }
    if has_catch_all {
        RouteChoice::CatchAll
    } else {
        RouteChoice::NotFound
    }
}

} // verus!
