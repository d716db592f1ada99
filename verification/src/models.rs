//! The records that the persistent store keeps, and the values from which new
//! ones are made.

use vstd::prelude::*;

verus! {

/// A project whose contributors are acknowledged.
#[derive(Debug)]
pub struct Project {
    pub id: i32,
    pub name: String,
    pub url_path: String,
    pub github_name: String,
}

/// A commit, attributed to one release and to one author. The store holds at
/// most one record per `sha`.
#[derive(Debug)]
pub struct Commit {
    pub sha: String,
    pub release_id: i32,
    pub author_id: i32,
}

/// A release of a project.
#[derive(Debug)]
pub struct Release {
    pub id: i32,
    pub version: String,
    pub project_id: i32,
    pub visible: bool,
    pub link: String,
}

/// A contributor as the store knows them: a canonical name and email under a
/// surrogate id. `visible` is false for one who asked not to be listed.
#[derive(Debug)]
pub struct Author {
    pub id: i32,
    pub name: String,
    pub email: String,
    pub visible: bool,
}

impl Author {
    /// The name and email that the author is found by.
    pub open spec fn key(self) -> (Seq<char>, Seq<char>) {
        (self.name@, self.email@)
    }
}

impl Clone for Author {
    fn clone(&self) -> (a: Self)
        ensures
            a == *self,
    {
        Author {
            id: self.id,
            name: self.name.clone(),
            email: self.email.clone(),
            visible: self.visible,
        }
    }
}

/// The fields of a project that is yet to be stored.
pub struct NewProject<'a> {
    pub name: &'a str,
    pub url_path: &'a str,
    pub github_name: &'a str,
}

/// The fields of a commit that is yet to be stored.
pub struct NewCommit<'a> {
    pub sha: &'a str,
    pub release_id: i32,
    pub author_id: i32,
}

/// The fields of a release that is yet to be stored.
pub struct NewRelease<'a> {
    pub version: &'a str,
    pub project_id: i32,
    pub visible: bool,
    pub link: &'a str,
}

/// The name and email of an author as a commit gives them.
#[derive(Debug, PartialEq, Eq, Hash, Clone, Copy)]
pub struct NewAuthor<'a> {
    pub name: &'a str,
    pub email: &'a str,
}

/// Whether the site is under maintenance.
#[derive(Debug)]
pub struct Maintenance {
    pub id: i32,
    pub enabled: bool,
}

/// How a request for a page ended.
pub enum Status {
    Success,
    NotFound,
}

} // verus!
