//! The values the HTML pages are rendered from.

use vstd::prelude::*;
use vstd::std_specs::convert::FromSpecImpl;
use crate::auth::User;

verus! {

/// One step of the path shown above a page.
pub struct Breadcrumb {
    pub url: String,
    pub name: String,
}

/// One entry of a directory page.
pub struct EntryInfo {
    pub is_dir: bool,
    pub is_book: bool,
    pub url: String,
    pub name: String,
    pub uploaded_by: Option<String>,
}

/// A book's table of contents (its `index.json`).
pub struct BookIndex {
    pub book_name: String,
    pub sections: Vec<BookSection>,
}

/// One section of a book: its title and its HTML file.
pub struct BookSection {
    pub title: String,
    pub filename: String,
}

/// What the pages show of the logged-in user.
pub struct UserInfo {
    pub username: String,
    pub is_admin: bool,
}

impl<'a> From<&'a User> for UserInfo {
    fn from(u: &'a User) -> (r: Self) {
        UserInfo { username: u.username.clone(), is_admin: u.is_admin }
    }
}

impl<'a> FromSpecImpl<&'a User> for UserInfo {
    open spec fn obeys_from_spec() -> bool {
        true
    }

    open spec fn from_spec(u: &'a User) -> Self {
        UserInfo { username: u.username, is_admin: u.is_admin }
    }
}

/// One account on the administration page.
pub struct AdminUserEntry {
    pub username: String,
    pub is_admin: bool,
    pub must_change_password: bool,
}

/// One of a user's own books on the profile page.
pub struct ProfileBookEntry {
    pub book_path: String,
    pub book_name: String,
    pub is_private: bool,
    pub url: String,
    pub category: String,
}

} // verus!
