//! The page a user read last, offered again at `/previous`.

use vstd::prelude::*;
use crate::layout::{user_dir_of, user_data_dir};
use crate::paths::{join_path, path_join};

verus! {

/// The last section page a user opened.
pub struct PreviousPage {
    pub path: String,
}

/// The file that holds a user's last page: `<user dir>/previous.json`.
pub fn previous_page_file(username: &str) -> (r: String)
    ensures
        r@ == join_path(user_dir_of(username@), "previous.json"@),
{
    let d = user_data_dir(username);
    path_join(d.as_str(), "previous.json")
}

} // verus!
