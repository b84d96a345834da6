//! Accounts, sessions and book ownership: the data of the server's JSON
//! files and the operations on it.

use vstd::prelude::*;
use crate::store::StrMap;
use crate::crypto::{
    hash_password, password_hash, generate_otp, is_otp, generate_session_token, is_session_token,
};
use crate::text::{chars_of, string_from_chars, chars_eq, views};
use crate::paths::{
    split_segments, split_path, named_segs, is_named, dot, lemma_named_concat, extension_of, with_extension_of,
    strip_dir_prefix, path_extension, path_strip_dir, path_with_extension,
};
use crate::layout::EPUBS_DIR;

verus! {

/// A user account.
#[derive(Debug)]
pub struct User {
    pub username: String,
    pub password_hash: String,
    pub is_admin: bool,
    pub must_change_password: bool,
}

pub struct UserView {
    pub username: Seq<char>,
    pub password_hash: Seq<char>,
    pub is_admin: bool,
    pub must_change_password: bool,
}

impl View for User {
    type V = UserView;

    open spec fn view(&self) -> UserView {
        UserView {
            username: self.username@,
            password_hash: self.password_hash@,
            is_admin: self.is_admin,
            must_change_password: self.must_change_password,
        }
    }
}

impl Clone for User {
    fn clone(&self) -> (r: Self)
        ensures
            r@ == self@,
    {
        User {
            username: self.username.clone(),
            password_hash: self.password_hash.clone(),
            is_admin: self.is_admin,
            must_change_password: self.must_change_password,
        }
    }
}

/// The accounts, keyed by user name.
pub struct UsersFile {
    pub users: StrMap<User>,
}

impl Default for UsersFile {
    fn default() -> (r: Self)
        ensures
            r.users@ == Map::<Seq<char>, UserView>::empty(),
    {
        UsersFile { users: StrMap::new() }
    }
}

/// A login session.
#[derive(Debug)]
pub struct Session {
    pub username: String,
    pub created_at: u64,
}

pub struct SessionView {
    pub username: Seq<char>,
    pub created_at: u64,
}

impl View for Session {
    type V = SessionView;

    open spec fn view(&self) -> SessionView {
        SessionView { username: self.username@, created_at: self.created_at }
    }
}

/// The sessions, keyed by token.
pub struct SessionsFile {
    pub sessions: StrMap<Session>,
}

impl Default for SessionsFile {
    fn default() -> (r: Self)
        ensures
            r.sessions@ == Map::<Seq<char>, SessionView>::empty(),
    {
        SessionsFile { sessions: StrMap::new() }
    }
}

/// Who uploaded each book, keyed by book path.
pub struct BookOwnersFile {
    pub books: StrMap<String>,
}

impl Default for BookOwnersFile {
    fn default() -> (r: Self)
        ensures
            r.books@ == Map::<Seq<char>, Seq<char>>::empty(),
    {
        BookOwnersFile { books: StrMap::new() }
    }
}

/// The books owned by `username`: every key whose value is `username`.
pub open spec fn owned_by(books: Map<Seq<char>, Seq<char>>, username: Seq<char>, k: Seq<char>) -> bool {
    books.contains_key(k) && books[k] == username
}

/// The ownership table after a book moved from `old_path` to `new_path`.
pub open spec fn moved_owner(
    books: Map<Seq<char>, Seq<char>>,
    old_path: Seq<char>,
    new_path: Seq<char>,
) -> Map<Seq<char>, Seq<char>> {
    if books.contains_key(old_path) {
        books.remove(old_path).insert(new_path, books[old_path])
    } else {
        books
    }
}

impl BookOwnersFile {
    /// Records `username` as the owner of `book_path`.
    pub fn set_owner(&mut self, book_path: &str, username: &str)
        ensures
            final(self).books@ == old(self).books@.insert(book_path@, username@),
    {
        self.books.insert(String::from_str(book_path), String::from_str(username));
    }

    /// The owner of `book_path`, if one is recorded.
    pub fn get_owner(&self, book_path: &str) -> (r: Option<String>)
        ensures
            match r {
                Some(o) => self.books@.contains_key(book_path@) && o@ == self.books@[book_path@],
                None => !self.books@.contains_key(book_path@),
            },
    {
        match self.books.get(book_path) {
            Some(o) => Some(o.clone()),
            None => None,
        }
    }

    /// Every book owned by `username`, each once (in no particular order).
    pub fn books_by_user(&self, username: &str) -> (r: Vec<String>)
        ensures
            r@.map_values(|s: String| s@).no_duplicates(),
            forall|k: Seq<char>|
                owned_by(self.books@, username@, k) <==> r@.map_values(|s: String| s@).contains(k),
    {
        let user = String::from_str(username);
        let n = self.books.len();
        let mut r: Vec<String> = Vec::new();
        let ghost keys = self.books.key_seq();
        let ghost vals = self.books.value_seq();
        let mut i: usize = 0;
        while i < n
            invariant
                i <= n,
                n == keys.len(),
                keys == self.books.key_seq(),
                vals == self.books.value_seq(),
                self.books.consistent(),
                user@ == username@,
                r@.map_values(|s: String| s@) == keys.take(i as int).filter(
                    |k: Seq<char>| owned_by(self.books@, username@, k),
                ),
            decreases n - i,
        {
            let (k, v) = self.books.entry(i);
            proof {
                reveal_with_fuel(Seq::<_>::filter, 1);
                assert(keys.take(i + 1).drop_last() =~= keys.take(i as int));
                assert(self.books@[keys[i as int]] == vals[i as int]);
            }
            if *v == user {
                r.push(k.clone());
                assert(r@.map_values(|s: String| s@) =~= keys.take(i as int).filter(
                    |k: Seq<char>| owned_by(self.books@, username@, k),
                ).push(k@));
            }
            i = i + 1;
        }
        proof {
            assert(keys.take(n as int) =~= keys);
            let f = |k: Seq<char>| owned_by(self.books@, username@, k);
            keys.filter_lemma(f);
            keys.unique_seq_to_set();
            lemma_filter_no_dups(keys, f);
            assert forall|k: Seq<char>|
                owned_by(self.books@, username@, k) <==> r@.map_values(|s: String| s@).contains(k) by {
                if owned_by(self.books@, username@, k) {
                    assert(keys.contains(k));
                    let j = keys.index_of(k);
                    assert(keys.filter(f).contains(keys[j]));
                }
            }
        }
        r
    }

    /// Moves the ownership record of a book from `old_path` to `new_path`.
    pub fn update_path(&mut self, old_path: &str, new_path: &str)
        ensures
            final(self).books@ == moved_owner(old(self).books@, old_path@, new_path@),
    {
        match self.books.remove(old_path) {
            Some(owner) => {
                self.books.insert(String::from_str(new_path), owner);
            },
            None => {},
        }
    }
}

proof fn lemma_filter_no_dups(s: Seq<Seq<char>>, f: spec_fn(Seq<char>) -> bool)
    requires
        s.no_duplicates(),
    ensures
        s.filter(f).no_duplicates(),
    decreases s.len(),
{
    reveal_with_fuel(Seq::<_>::filter, 1);
    if s.len() > 0 {
        let t = s.drop_last();
        assert(t.no_duplicates());
        lemma_filter_no_dups(t, f);
        t.filter_lemma(f);
        if f(s.last()) {
            assert forall|a: int, b: int|
                0 <= a < s.filter(f).len() && 0 <= b < s.filter(f).len() && a != b implies s.filter(
                f,
            )[a] != s.filter(f)[b] by {
                if a == s.filter(f).len() - 1 || b == s.filter(f).len() - 1 {
                    let other = if a == s.filter(f).len() - 1 { b } else { a };
                    assert(t.filter(f).contains(t.filter(f)[other]));
                    t.lemma_filter_contains_rev(f, t.filter(f)[other]);
                    let j = t.index_of(t.filter(f)[other]);
                    assert(s[j] == t[j]);
                    assert(s[s.len() - 1] == s.last());
                }
            }
        }
    }
}

/// Why an account operation was refused.
#[derive(Debug)]
pub enum AuthError {
    /// No account has this name.
    UserNotFound,
    /// An account with this name exists already.
    UserExists(String),
}

impl AuthError {
    /// The message shown for this error.
    pub fn message(&self) -> (r: String)
        ensures
            match self {
                AuthError::UserNotFound => r@ == "User not found"@,
                AuthError::UserExists(u) => r@ == "User '"@ + u@ + "' already exists"@,
            },
    {
        match self {
            AuthError::UserNotFound => String::from_str("User not found"),
            AuthError::UserExists(u) => {
                let mut m = String::from_str("User '");
                m.append(u.as_str());
                m.append("' already exists");
                m
            },
        }
    }
}

/// The account a session token logs in, if the session and its user exist.
pub open spec fn session_user(
    sessions: Map<Seq<char>, SessionView>,
    users: Map<Seq<char>, UserView>,
    token: Seq<char>,
) -> Option<UserView> {
    if sessions.contains_key(token) && users.contains_key(sessions[token].username) {
        Some(users[sessions[token].username])
    } else {
        None
    }
}

/// The account that `username` and `password` log in to, if they match.
pub open spec fn login_user(
    users: Map<Seq<char>, UserView>,
    username: Seq<char>,
    password: Seq<char>,
) -> Option<UserView> {
    if users.contains_key(username) && users[username].password_hash == password_hash(password) {
        Some(users[username])
    } else {
        None
    }
}

/// A freshly created account with one-time password `otp`.
pub open spec fn new_account(username: Seq<char>, otp: Seq<char>, is_admin: bool) -> UserView {
    UserView {
        username,
        password_hash: password_hash(otp),
        is_admin,
        must_change_password: true,
    }
}

/// An account after its password was changed to `password`.
pub open spec fn with_password(u: UserView, password: Seq<char>) -> UserView {
    UserView { password_hash: password_hash(password), must_change_password: false, ..u }
}

pub open spec fn opt_user_view(r: Option<User>) -> Option<UserView> {
    match r {
        Some(u) => Some(u@),
        None => None,
    }
}

/// Opens a session for `username` at time `now` (seconds since the epoch)
/// and returns its fresh token.
pub fn create_session(sessions: &mut SessionsFile, username: &str, now: u64) -> (token: String)
    ensures
        is_session_token(token@),
        final(sessions).sessions@ == old(sessions).sessions@.insert(
            token@,
            SessionView { username: username@, created_at: now },
        ),
{
    let token = generate_session_token();
    let session = Session { username: String::from_str(username), created_at: now };
    sessions.sessions.insert(token.clone(), session);
    token
}

/// The account that the session `token` belongs to.
pub fn validate_session(sessions: &SessionsFile, users: &UsersFile, token: &str) -> (r: Option<
    User,
>)
    ensures
        opt_user_view(r) == session_user(sessions.sessions@, users.users@, token@),
{
    match sessions.sessions.get(token) {
        Some(s) => match users.users.get(s.username.as_str()) {
            Some(u) => Some(u.clone()),
            None => None,
        },
        None => None,
    }
}

/// Ends the session `token`.
pub fn delete_session(sessions: &mut SessionsFile, token: &str)
    ensures
        final(sessions).sessions@ == old(sessions).sessions@.remove(token@),
{
    sessions.sessions.remove(token);
}

/// The account that `username` and `password` log in to.
pub fn authenticate(users: &UsersFile, username: &str, password: &str) -> (r: Option<User>)
    ensures
        opt_user_view(r) == login_user(users.users@, username@, password@),
{
    match users.users.get(username) {
        Some(u) => {
            let h = hash_password(password);
            if u.password_hash == h {
                Some(u.clone())
            } else {
                None
            }
        },
        None => None,
    }
}

/// Sets a new password and clears the request to change it.
pub fn change_password(users: &mut UsersFile, username: &str, new_password: &str) -> (r: Result<
    (),
    AuthError,
>)
    ensures
        r is Err <==> !old(users).users@.contains_key(username@),
        r is Err ==> r->Err_0 is UserNotFound && final(users).users@ == old(users).users@,
        r is Ok ==> final(users).users@ == old(users).users@.insert(
            username@,
            with_password(old(users).users@[username@], new_password@),
        ),
{
    let current = match users.users.get(username) {
        Some(u) => u.clone(),
        None => return Err(AuthError::UserNotFound),
    };
    let updated = User {
        username: current.username,
        password_hash: hash_password(new_password),
        is_admin: current.is_admin,
        must_change_password: false,
    };
    users.users.insert(String::from_str(username), updated);
    Ok(())
}

/// Creates an account that must change its password at first login, and
/// returns the one-time password it was given.
pub fn create_user(users: &mut UsersFile, username: &str, is_admin: bool) -> (r: Result<
    String,
    AuthError,
>)
    ensures
        r is Err <==> old(users).users@.contains_key(username@),
        r is Err ==> (r->Err_0 matches AuthError::UserExists(u) && u@ == username@)
            && final(users).users@ == old(users).users@,
        r matches Ok(otp) ==> is_otp(otp@) && final(users).users@ == old(users).users@.insert(
            username@,
            new_account(username@, otp@, is_admin),
        ),
{
    if users.users.contains_key(username) {
        return Err(AuthError::UserExists(String::from_str(username)));
    }
    let otp = generate_otp();
    let user = User {
        username: String::from_str(username),
        password_hash: hash_password(otp.as_str()),
        is_admin,
        must_change_password: true,
    };
    users.users.insert(String::from_str(username), user);
    Ok(otp)
}

/// Creates the administrator `admin` when there are no accounts yet, and
/// returns its one-time password; leaves existing accounts alone.
pub fn bootstrap_admin(users: &mut UsersFile) -> (r: Option<String>)
    ensures
        r is None <==> old(users).users@ != Map::<Seq<char>, UserView>::empty(),
        r is None ==> final(users).users@ == old(users).users@,
        r matches Some(otp) ==> is_otp(otp@) && final(users).users@ == Map::<
            Seq<char>,
            UserView,
        >::empty().insert("admin"@, new_account("admin"@, otp@, true)),
{
    if !users.users.is_empty() {
        return None;
    }
    match create_user(users, "admin", true) {
        Ok(otp) => Some(otp),
        Err(_) => None,
    }
}

/// The owner named by a relative path inside the private area: the path's
/// first named segment is `private` and its second one is the owner (empty
/// and `.` segments are skipped, as the file system skips them).
pub open spec fn private_owner_of(rel_path: Seq<char>) -> Option<Seq<char>> {
    let ns = named_segs(split_path(rel_path));
    if ns.len() >= 2 && ns[0] == "private"@ {
        Some(ns[1])
    } else {
        None
    }
}

fn seg_is_named(s: &Vec<char>) -> (r: bool)
    ensures
        r == is_named(s@),
{
    let r = s.len() > 0 && !(s.len() == 1 && s[0] == '.');
    assert(s@.len() == 1 && s@[0] == '.' <==> s@ =~= dot());
    r
}

/// If `rel_path` is inside the private area, the user name that owns it;
/// e.g. `private/alice/My Book` gives `alice`, and so does
/// `private//alice/My Book`.
pub fn private_path_owner(rel_path: &str) -> (r: Option<String>)
    ensures
        match r {
            Some(o) => private_owner_of(rel_path@) == Some(o@),
            None => private_owner_of(rel_path@) is None,
        },
{
    let v = chars_of(rel_path);
    let segs = split_segments(&v);
    let ghost vs = views(segs@);
    let mut first: Vec<char> = Vec::new();
    let mut second: Vec<char> = Vec::new();
    let mut count: usize = 0;
    let mut i: usize = 0;
    assert(vs.take(0) =~= Seq::<Seq<char>>::empty());
    while i < segs.len() && count < 2
        invariant
            i <= segs.len(),
            vs == views(segs@),
            vs == split_path(rel_path@),
            count <= 2,
            count == named_segs(vs.take(i as int)).len(),
            count >= 1 ==> first@ == named_segs(vs.take(i as int))[0],
            count >= 2 ==> second@ == named_segs(vs.take(i as int))[1],
        decreases segs.len() - i,
    {
        proof {
            assert(vs.take(i + 1).drop_last() =~= vs.take(i as int));
            assert(vs.take(i + 1).last() == vs[i as int]);
        }
        if seg_is_named(&segs[i]) {
            if count == 0 {
                first = segs[i].clone();
            } else {
                second = segs[i].clone();
            }
            count = count + 1;
        }
        i = i + 1;
    }
    proof {
        assert(vs.take(i as int) + vs.skip(i as int) =~= vs);
        lemma_named_concat(vs.take(i as int), vs.skip(i as int));
    }
    let private = chars_of("private");
    if count < 2 {
        assert(i == segs.len());
        assert(vs.take(i as int) =~= vs);
        return None;
    }
    if !chars_eq(&first, &private) {
        return None;
    }
    Some(string_from_chars(second.as_slice()))
}

/// The ownership table after looking at one path found under `EPUBS_DIR`;
/// `None` when an EPUB path does not lie under `EPUBS_DIR`.
pub open spec fn backfill_step(books: Map<Seq<char>, Seq<char>>, path: Seq<char>) -> Option<
    Map<Seq<char>, Seq<char>>,
> {
    if extension_of(path) == Some("epub"@) {
        match strip_dir_prefix(path, EPUBS_DIR@) {
            Some(rel) => {
                let key = with_extension_of(rel, Seq::<char>::empty());
                if books.contains_key(key) {
                    Some(books)
                } else {
                    Some(books.insert(key, "admin"@))
                }
            },
            None => None,
        }
    } else {
        Some(books)
    }
}

/// The ownership table after looking at all `paths`, in order.
pub open spec fn backfill_all(books: Map<Seq<char>, Seq<char>>, paths: Seq<Seq<char>>) -> Option<
    Map<Seq<char>, Seq<char>>,
>
    decreases paths.len(),
{
    if paths.len() == 0 {
        Some(books)
    } else {
        match backfill_all(books, paths.drop_last()) {
            Some(b) => backfill_step(b, paths.last()),
            None => None,
        }
    }
}

/// Why the ownership backfill stopped.
#[derive(Debug)]
pub enum BackfillError {
    /// An EPUB path found by the walk does not lie under `EPUBS_DIR`.
    OutsideEpubsDir,
}

/// Gives `admin` as owner to every EPUB found under `EPUBS_DIR` (the walk's
/// `paths`) that has no recorded owner yet. Returns whether the table
/// changed.
pub fn backfill_owners(owners: &mut BookOwnersFile, paths: &Vec<String>) -> (r: Result<
    bool,
    BackfillError,
>)
    ensures
        r is Err <==> backfill_all(old(owners).books@, paths@.map_values(|s: String| s@)) is None,
        r matches Ok(changed) ==> Some(final(owners).books@) == backfill_all(
            old(owners).books@,
            paths@.map_values(|s: String| s@),
        ) && changed == (final(owners).books@ != old(owners).books@),
        r is Err ==> exists|i: int|
            0 <= i < paths@.len() && backfill_all(
                old(owners).books@,
                paths@.map_values(|s: String| s@).take(i),
            ) == Some(final(owners).books@) && backfill_step(final(owners).books@, (#[trigger] paths@[i])@)
                is None,
{
    let ghost start = owners.books@;
    let ghost ps = paths@.map_values(|s: String| s@);
    let mut changed = false;
    let epub = chars_of("epub");
    let mut i: usize = 0;
    assert(ps.take(0) =~= Seq::<Seq<char>>::empty());
    while i < paths.len()
        invariant
            i <= paths.len(),
            ps == paths@.map_values(|s: String| s@),
            start == old(owners).books@,
            epub@ == "epub"@,
            backfill_all(start, ps.take(i as int)) == Some(owners.books@),
            forall|k: Seq<char>| start.contains_key(k) ==> #[trigger] owners.books@.contains_key(k),
            changed == (owners.books@ != start),
        decreases paths.len() - i,
    {
        let p = &paths[i];
        proof {
            assert(ps.take(i + 1).drop_last() =~= ps.take(i as int));
            assert(ps.take(i + 1).last() == p@);
        }
        let is_epub = match path_extension(p.as_str()) {
            Some(e) => {
                let ec = chars_of(e.as_str());
                chars_eq(&ec, &epub)
            },
            None => false,
        };
        if is_epub {
            match path_strip_dir(p.as_str(), EPUBS_DIR) {
                Some(rel) => {
                    let key = path_with_extension(rel.as_str(), "");
                    proof {
                        reveal_strlit("");
                        assert(""@ =~= Seq::<char>::empty());
                    }
                    if !owners.books.contains_key(key.as_str()) {
                        let owner = String::from_str("admin");
                        owners.books.insert(key, owner);
                        changed = true;
                        assert(owners.books@.contains_key(key@));
                        assert(!start.contains_key(key@));
                    }
                },
                None => {
                    proof {
                        assert(extension_of(p@) == Some("epub"@));
                        assert(backfill_step(owners.books@, p@) is None);
                        assert(backfill_all(start, ps.take(i + 1)) is None);
                        lemma_backfill_none_sticks(start, ps, i as int + 1);
                        assert(ps.take(i as int) == paths@.map_values(|s: String| s@).take(i as int));
                    }
                    return Err(BackfillError::OutsideEpubsDir);
                },
            }
        }
        i = i + 1;
    }
    assert(ps.take(paths.len() as int) =~= ps);
    Ok(changed)
}

proof fn lemma_backfill_none_sticks(books: Map<Seq<char>, Seq<char>>, ps: Seq<Seq<char>>, n: int)
    requires
        0 <= n <= ps.len(),
        backfill_all(books, ps.take(n)) is None,
    ensures
        backfill_all(books, ps) is None,
    decreases ps.len() - n,
{
    if n < ps.len() {
        assert(ps.take(n + 1).drop_last() =~= ps.take(n));
        lemma_backfill_none_sticks(books, ps, n + 1);
    } else {
        assert(ps.take(n) =~= ps);
    }
}

/// A created account can log in with the one-time password it was given,
/// and is asked to change it.
pub proof fn law_created_account_logs_in(
    users: Map<Seq<char>, UserView>,
    username: Seq<char>,
    otp: Seq<char>,
    is_admin: bool,
)
    ensures
        login_user(users.insert(username, new_account(username, otp, is_admin)), username, otp)
            == Some(new_account(username, otp, is_admin)),
        new_account(username, otp, is_admin).must_change_password,
{
}

/// After a password change the account logs in with the new password and
/// is no longer asked to change it.
pub proof fn law_changed_password_logs_in(
    users: Map<Seq<char>, UserView>,
    username: Seq<char>,
    password: Seq<char>,
)
    requires
        users.contains_key(username),
    ensures
        login_user(
            users.insert(username, with_password(users[username], password)),
            username,
            password,
        ) == Some(with_password(users[username], password)),
        !with_password(users[username], password).must_change_password,
{
}

/// A new session's token logs in its user (while the account exists).
pub proof fn law_new_session_logs_in(
    sessions: Map<Seq<char>, SessionView>,
    users: Map<Seq<char>, UserView>,
    token: Seq<char>,
    username: Seq<char>,
    now: u64,
)
    ensures
        session_user(
            sessions.insert(token, SessionView { username, created_at: now }),
            users,
            token,
        ) == if users.contains_key(username) {
            Some(users[username])
        } else {
            None
        },
{
}

/// A deleted session's token logs in no one.
pub proof fn law_deleted_session_logs_out(
    sessions: Map<Seq<char>, SessionView>,
    users: Map<Seq<char>, UserView>,
    token: Seq<char>,
)
    ensures
        session_user(sessions.remove(token), users, token) is None,
{
}

/// After recording an owner, the book belongs to that owner.
pub proof fn law_recorded_owner(books: Map<Seq<char>, Seq<char>>, book_path: Seq<char>, username: Seq<char>)
    ensures
        owned_by(books.insert(book_path, username), username, book_path),
{
}

/// Moving a book keeps its owner under the new path and frees the old one.
pub proof fn law_moved_owner(
    books: Map<Seq<char>, Seq<char>>,
    old_path: Seq<char>,
    new_path: Seq<char>,
)
    requires
        books.contains_key(old_path),
    ensures
        moved_owner(books, old_path, new_path).contains_key(new_path),
        moved_owner(books, old_path, new_path)[new_path] == books[old_path],
        old_path != new_path ==> !moved_owner(books, old_path, new_path).contains_key(old_path),
        forall|k: Seq<char>|
            k != old_path && k != new_path ==> (#[trigger] moved_owner(books, old_path, new_path).contains_key(k)
                == books.contains_key(k)),
{
}

/// The backfill only adds owners: every book that had one keeps it.
pub proof fn law_backfill_keeps_owners(books: Map<Seq<char>, Seq<char>>, paths: Seq<Seq<char>>)
    requires
        backfill_all(books, paths) is Some,
    ensures
        forall|k: Seq<char>|
            books.contains_key(k) ==> #[trigger] backfill_all(books, paths)->0.contains_key(k)
                && backfill_all(books, paths)->0[k] == books[k],
    decreases paths.len(),
{
    if paths.len() > 0 {
        law_backfill_keeps_owners(books, paths.drop_last());
    }
}

proof fn lemma_backfill_settled(books: Map<Seq<char>, Seq<char>>, paths: Seq<Seq<char>>)
    requires
        backfill_all(books, paths) is Some,
    ensures
        forall|i: int|
            0 <= i < paths.len() ==> backfill_step(backfill_all(books, paths)->0, #[trigger] paths[i])
                == backfill_all(books, paths),
    decreases paths.len(),
{
    if paths.len() > 0 {
        let init = paths.drop_last();
        lemma_backfill_settled(books, init);
        let b1 = backfill_all(books, init)->0;
        let b2 = backfill_all(books, paths)->0;
        assert(backfill_step(b1, paths.last()) == Some(b2));
        assert forall|k: Seq<char>| b1.contains_key(k) implies #[trigger] b2.contains_key(k) by {}
        assert forall|i: int| 0 <= i < paths.len() implies backfill_step(b2, #[trigger] paths[i])
            == Some(b2) by {
            if i < paths.len() - 1 {
                assert(paths[i] == init[i]);
                assert(backfill_step(b1, init[i]) == Some(b1));
            }
        }
    }
}

proof fn lemma_backfill_fixed(books: Map<Seq<char>, Seq<char>>, paths: Seq<Seq<char>>)
    requires
        forall|i: int| 0 <= i < paths.len() ==> backfill_step(books, #[trigger] paths[i]) == Some(books),
    ensures
        backfill_all(books, paths) == Some(books),
    decreases paths.len(),
{
    if paths.len() > 0 {
        let init = paths.drop_last();
        assert forall|i: int| 0 <= i < init.len() implies backfill_step(books, #[trigger] init[i])
            == Some(books) by {
            assert(init[i] == paths[i]);
        }
        lemma_backfill_fixed(books, init);
        assert(backfill_step(books, paths[paths.len() - 1]) == Some(books));
    }
}

/// Running the backfill again over the same walk changes nothing: every
/// book it gave an owner to now has one.
pub proof fn law_backfill_idempotent(books: Map<Seq<char>, Seq<char>>, paths: Seq<Seq<char>>)
    requires
        backfill_all(books, paths) is Some,
    ensures
        backfill_all(backfill_all(books, paths)->0, paths) == backfill_all(books, paths),
{
    lemma_backfill_settled(books, paths);
    lemma_backfill_fixed(backfill_all(books, paths)->0, paths);
}

/// A password change touches only the password and the request to change
/// it: the account keeps its name and its administrator right, and every
/// other account stays as it was.
pub proof fn law_password_change_keeps_account(
    users: Map<Seq<char>, UserView>,
    username: Seq<char>,
    password: Seq<char>,
)
    requires
        users.contains_key(username),
    ensures
        ({
            let before = users[username];
            let after = users.insert(username, with_password(before, password));
            &&& after.contains_key(username)
            &&& after[username].username == before.username
            &&& after[username].is_admin == before.is_admin
            &&& after[username].password_hash == password_hash(password)
            &&& !after[username].must_change_password
            &&& forall|k: Seq<char>|
                k != username ==> (#[trigger] after.contains_key(k) == users.contains_key(k) && (
                users.contains_key(k) ==> after[k] == users[k]))
        }),
{
}

} // verus!
