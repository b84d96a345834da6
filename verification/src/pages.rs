//! The decisions behind the HTML pages: what a user may see, how a page's
//! path is shown, and what an upload or an administrator's form may do.

use vstd::prelude::*;
use crate::auth::{User, UserView, UsersFile, BookOwnersFile, private_owner_of, private_path_owner};
use crate::middleware::MaybeUser;
use vstd::utf8::encode_utf8;
use crate::layout::{EPUBS_DIR, HTML_DIR};
use crate::templates::{BookIndex, BookSection, ProfileBookEntry, AdminUserEntry, EntryInfo};
use crate::api::{book_name_of, opt_view, no_slash, lemma_private_prefix, may_toggle};
use crate::order::{stable_order, stable_sort_order};
use crate::text::{
    lemma_trim_noop, lemma_trim_trailing_slash, lemma_contains_char, lemma_contains_dotdot,
    double_dot_at, is_ws,
    has_prefix, has_suffix, contains, contains_chars, starts_with_chars, ends_with_chars, trim,
    trim_char, trim_whitespace, trim_chars, slice_chars, Strip, chars_of, string_from_chars, chars_eq, split_by, split_chars, views,
};
use crate::paths::{is_named, file_name_of, parent_of, join_path, path_file_name, path_parent, path_join, extension_of, has_parent_dir, path_extension, path_has_parent_dir};
use crate::templates::Breadcrumb;

verus! {

/// The URL of the crumb for the last of `segs`: each non-empty segment
/// contributes `/<segment>/`.
pub open spec fn crumb_url(segs: Seq<Seq<char>>) -> Seq<char>
    decreases segs.len(),
{
    if segs.len() == 0 {
        Seq::<char>::empty()
    } else {
        let a = crumb_url(segs.drop_last());
        if segs.last().len() == 0 {
            a
        } else {
            a.push('/') + segs.last().push('/')
        }
    }
}

/// One crumb (URL, name) per non-empty segment.
pub open spec fn crumbs(segs: Seq<Seq<char>>) -> Seq<(Seq<char>, Seq<char>)>
    decreases segs.len(),
{
    if segs.len() == 0 {
        Seq::<(Seq<char>, Seq<char>)>::empty()
    } else {
        let c = crumbs(segs.drop_last());
        if segs.last().len() == 0 {
            c
        } else {
            c.push((crumb_url(segs), segs.last()))
        }
    }
}

/// The breadcrumbs of a relative path: `root` at `/`, then one per
/// non-empty segment.
pub open spec fn breadcrumbs_of(rel_path: Seq<char>) -> Seq<(Seq<char>, Seq<char>)> {
    seq![("/"@, "root"@)] + if rel_path.len() == 0 {
        Seq::<(Seq<char>, Seq<char>)>::empty()
    } else {
        crumbs(split_by(rel_path, '/'))
    }
}

pub open spec fn crumb_views(v: Seq<Breadcrumb>) -> Seq<(Seq<char>, Seq<char>)> {
    v.map_values(|b: Breadcrumb| (b.url@, b.name@))
}

fn push_all(r: &mut Vec<char>, s: &Vec<char>)
    ensures
        final(r)@ == old(r)@ + s@,
{
    let mut k: usize = 0;
    let ghost base = r@;
    while k < s.len()
        invariant
            k <= s@.len(),
            r@ == base + s@.take(k as int),
        decreases s@.len() - k,
    {
        r.push(s[k]);
        assert(s@.take(k + 1) =~= s@.take(k as int).push(s@[k as int]));
        k = k + 1;
    }
    assert(s@.take(k as int) =~= s@);
}

/// The breadcrumbs shown above the page of `rel_path`.
pub fn build_breadcrumbs(rel_path: &str) -> (r: Vec<Breadcrumb>)
    ensures
        crumb_views(r@) == breadcrumbs_of(rel_path@),
{
    let mut r: Vec<Breadcrumb> = Vec::new();
    r.push(Breadcrumb { url: String::from_str("/"), name: String::from_str("root") });
    if rel_path.is_empty() {
        assert(crumb_views(r@) =~= breadcrumbs_of(rel_path@));
        return r;
    }
    let v = chars_of(rel_path);
    let segs = split_chars(&v, '/');
    let ghost vs = views(segs@);
    let mut acc: Vec<char> = Vec::new();
    let mut i: usize = 0;
    assert(vs.take(0) =~= Seq::<Seq<char>>::empty());
    assert(crumb_views(r@) =~= seq![("/"@, "root"@)] + crumbs(vs.take(0)));
    while i < segs.len()
        invariant
            i <= segs.len(),
            vs == views(segs@),
            vs == split_by(rel_path@, '/'),
            acc@ == crumb_url(vs.take(i as int)),
            crumb_views(r@) == seq![("/"@, "root"@)] + crumbs(vs.take(i as int)),
        decreases segs.len() - i,
    {
        proof {
            assert(vs.take(i + 1).drop_last() =~= vs.take(i as int));
            assert(vs.take(i + 1).last() == vs[i as int]);
        }
        if segs[i].len() > 0 {
            acc.push('/');
            push_all(&mut acc, &segs[i]);
            acc.push('/');
            assert(acc@ =~= crumb_url(vs.take(i + 1)));
            let ghost before = crumb_views(r@);
            r.push(
                Breadcrumb {
                    url: string_from_chars(acc.as_slice()),
                    name: string_from_chars(segs[i].as_slice()),
                },
            );
            assert(crumb_views(r@) =~= before.push((acc@, vs[i as int])));
            assert(crumb_views(r@) =~= seq![("/"@, "root"@)] + crumbs(vs.take(i + 1)));
        } else {
            assert(crumb_views(r@) =~= seq![("/"@, "root"@)] + crumbs(vs.take(i + 1)));
        }
        i = i + 1;
    }
    assert(vs.take(segs.len() as int) =~= vs);
    r
}

/// The media type served for a file extension.
pub open spec fn content_type_of(ext: Option<Seq<char>>) -> Seq<char> {
    match ext {
        Some(e) => if e == "html"@ || e == "htm"@ {
            "text/html; charset=utf-8"@
        } else if e == "css"@ {
            "text/css; charset=utf-8"@
        } else if e == "js"@ {
            "application/javascript"@
        } else if e == "json"@ {
            "application/json"@
        } else if e == "png"@ {
            "image/png"@
        } else if e == "jpg"@ || e == "jpeg"@ {
            "image/jpeg"@
        } else if e == "gif"@ {
            "image/gif"@
        } else if e == "svg"@ {
            "image/svg+xml"@
        } else if e == "txt"@ {
            "text/plain; charset=utf-8"@
        } else if e == "pdf"@ {
            "application/pdf"@
        } else if e == "woff"@ {
            "font/woff"@
        } else if e == "woff2"@ {
            "font/woff2"@
        } else {
            "application/octet-stream"@
        },
        None => "application/octet-stream"@,
    }
}

fn ext_is(e: &Vec<char>, lit: &str) -> (r: bool)
    ensures
        r == (e@ == lit@),
{
    let l = chars_of(lit);
    chars_eq(e, &l)
}

/// The media type of a file, from its extension.
pub fn guess_content_type(path: &str) -> (r: &'static str)
    ensures
        r@ == content_type_of(extension_of(path@)),
{
    let e = match path_extension(path) {
        Some(e) => chars_of(e.as_str()),
        None => return "application/octet-stream",
    };
    if ext_is(&e, "html") || ext_is(&e, "htm") {
        "text/html; charset=utf-8"
    } else if ext_is(&e, "css") {
        "text/css; charset=utf-8"
    } else if ext_is(&e, "js") {
        "application/javascript"
    } else if ext_is(&e, "json") {
        "application/json"
    } else if ext_is(&e, "png") {
        "image/png"
    } else if ext_is(&e, "jpg") || ext_is(&e, "jpeg") {
        "image/jpeg"
    } else if ext_is(&e, "gif") {
        "image/gif"
    } else if ext_is(&e, "svg") {
        "image/svg+xml"
    } else if ext_is(&e, "txt") {
        "text/plain; charset=utf-8"
    } else if ext_is(&e, "pdf") {
        "application/pdf"
    } else if ext_is(&e, "woff") {
        "font/woff"
    } else if ext_is(&e, "woff2") {
        "font/woff2"
    } else {
        "application/octet-stream"
    }
}

/// A private path may be seen by its owner and by administrators only.
pub open spec fn may_access(rel_path: Seq<char>, username: Seq<char>, is_admin: bool) -> bool {
    match private_owner_of(rel_path) {
        Some(o) => username == o || is_admin,
        None => true,
    }
}

/// The refusal (403) of a user who may not see `rel_path`, if any.
pub fn check_private_access(rel_path: &str, user: &User) -> (r: Option<u16>)
    ensures
        r is None <==> may_access(rel_path@, user.username@, user.is_admin),
        r matches Some(s) ==> s == 403,
{
    match private_path_owner(rel_path) {
        Some(owner) => {
            if user.username == owner || user.is_admin {
                None
            } else {
                Some(403)
            }
        },
        None => None,
    }
}

/// The refusal (403) of a request for the page at `rel_path`: a `..`
/// component, or a private path of someone else.
pub fn serve_path_refusal(rel_path: &str, user: &User) -> (r: Option<u16>)
    ensures
        r is None <==> !has_parent_dir(rel_path@) && may_access(
            rel_path@,
            user.username@,
            user.is_admin,
        ),
        r matches Some(s) ==> s == 403,
{
    if path_has_parent_dir(rel_path) {
        return Some(403);
    }
    check_private_access(rel_path, user)
}

/// The user of a page request, if logged in.
pub fn require_auth(maybe: MaybeUser) -> (r: Option<User>)
    ensures
        r == maybe.0,
{
    maybe.0
}

/// Where a page request goes.
pub enum PageGate {
    /// Not logged in: to the login page.
    Login,
    /// The password must be changed first.
    ChangePassword,
    /// Serve the page to this user.
    Serve(User),
}

/// Sends anonymous users to the login page and users with a one-time
/// password to the password form.
pub fn gate_page(maybe: MaybeUser) -> (r: PageGate)
    ensures
        maybe.0 is None ==> r is Login,
        maybe.0 matches Some(u) ==> if u.must_change_password {
            r is ChangePassword
        } else {
            r matches PageGate::Serve(v) && v == u
        },
{
    match require_auth(maybe) {
        None => PageGate::Login,
        Some(u) => if u.must_change_password {
            PageGate::ChangePassword
        } else {
            PageGate::Serve(u)
        },
    }
}

/// The file name of a requested path that a section page is made for:
/// `section_*.html`.
pub open spec fn section_file_of(full_path: Seq<char>) -> Option<Seq<char>> {
    match file_name_of(full_path) {
        Some(n) => if has_prefix(n, "section_"@) && has_suffix(n, ".html"@) {
            Some(n)
        } else {
            None
        },
        None => None,
    }
}

/// The section file a request for `full_path` shows in a section page, if
/// it is one.
pub fn section_file_name(full_path: &str) -> (r: Option<String>)
    ensures
        match r {
            Some(n) => section_file_of(full_path@) == Some(n@),
            None => section_file_of(full_path@) is None,
        },
{
    let n = match path_file_name(full_path) {
        Some(n) => n,
        None => return None,
    };
    let nc = chars_of(n.as_str());
    let pre = chars_of("section_");
    let suf = chars_of(".html");
    if starts_with_chars(&nc, &pre) && ends_with_chars(&nc, &suf) {
        Some(n)
    } else {
        None
    }
}

/// What the reads at a requested path found, tried in this order: the
/// book index `index.json` inside it, a directory listing, the file itself.
pub enum PathFound {
    /// The path is a book: its `index.json` was read.
    BookIndex,
    /// The path is a directory that is not a book.
    Directory,
    /// The path is a file.
    File,
    /// None of the reads succeeded.
    Nothing,
}

/// How a page request that passed the access checks is answered.
#[derive(Debug)]
pub enum ServeAction {
    /// The book's contents page.
    ShowBook,
    /// The directory page.
    ShowDirectory,
    /// The section page for this section file, remembered as the user's
    /// last page; the file itself is sent when the page cannot be made.
    ShowSection(String),
    /// The file as it is, with its media type.
    SendFile,
    /// 404.
    NotFound,
}

/// Chooses the answer to a request for `rel_path` (under `HTML_DIR`) from
/// what the reads found; `raw` asks for the file itself even where a
/// section page could be shown.
pub fn serve_action(rel_path: &str, raw: bool, found: PathFound) -> (r: ServeAction)
    ensures
        match found {
            PathFound::BookIndex => r is ShowBook,
            PathFound::Directory => r is ShowDirectory,
            PathFound::Nothing => r is NotFound,
            PathFound::File => match section_file_of(join_path(HTML_DIR@, rel_path@)) {
                Some(n) => if raw {
                    r is SendFile
                } else {
                    r matches ServeAction::ShowSection(m) && m@ == n
                },
                None => r is SendFile,
            },
        },
{
    match found {
        PathFound::BookIndex => ServeAction::ShowBook,
        PathFound::Directory => ServeAction::ShowDirectory,
        PathFound::Nothing => ServeAction::NotFound,
        PathFound::File => {
            let full_path = path_join(HTML_DIR, rel_path);
            match section_file_name(full_path.as_str()) {
                Some(n) => if raw {
                    ServeAction::SendFile
                } else {
                    ServeAction::ShowSection(n)
                },
                None => ServeAction::SendFile,
            }
        },
    }
}

/// The `index.json` next to a file: in the file's parent directory.
pub fn sibling_index_json(full_path: &str) -> (r: Option<String>)
    ensures
        match r {
            Some(p) => parent_of(full_path@) matches Some(d) && p@ == join_path(d, "index.json"@),
            None => parent_of(full_path@) is None,
        },
{
    match path_parent(full_path) {
        Some(d) => Some(path_join(d.as_str(), "index.json")),
        None => None,
    }
}

fn find_section(index: &BookIndex, file_name: &str) -> (r: Option<usize>)
    ensures
        match r {
            Some(i) => first_position(section_names(index), file_name@, i as int),
            None => !section_names(index).contains(file_name@),
        },
{
    let ghost names = section_names(index);
    let target = String::from_str(file_name);
    let n = index.sections.len();
    let mut i: usize = 0;
    while i < n
        invariant
            i <= n,
            n == index.sections@.len(),
            names == section_names(index),
            target@ == file_name@,
            forall|j: int| 0 <= j < i ==> names[j] != file_name@,
        decreases n - i,
    {
        if index.sections[i].filename == target {
            return Some(i);
        }
        i = i + 1;
    }
    None
}

/// What a section page shows.
pub struct SectionView {
    pub book_name: String,
    pub breadcrumbs: Vec<Breadcrumb>,
    pub iframe_src: String,
    pub prev_url: Option<String>,
    pub next_url: Option<String>,
}

pub open spec fn section_names(index: &BookIndex) -> Seq<Seq<char>> {
    index.sections@.map_values(|s: BookSection| s.filename@)
}

/// The first position of `name` among the section files.
pub open spec fn first_position(names: Seq<Seq<char>>, name: Seq<char>, i: int) -> bool {
    0 <= i < names.len() && names[i] == name && forall|j: int| 0 <= j < i ==> names[j] != name
}

/// The section page for `file_name` of the book `index`, reached at
/// `rel_path`: links to the sections before and after it, and crumbs for the
/// book's directory. `None` when the book has no such section.
pub fn section_view(index: &BookIndex, file_name: &str, rel_path: &str) -> (r: Option<SectionView>)
    ensures
        ({
            let names = section_names(index);
            match r {
                None => !names.contains(file_name@),
                Some(v) => exists|i: int|
                    {
                        &&& first_position(names, file_name@, i)
                        &&& v.book_name@ == index.book_name@
                        &&& v.iframe_src@ == file_name@ + "?raw=true"@
                        &&& (if i > 0 {
                            v.prev_url matches Some(p) && p@ == names[i - 1]
                        } else {
                            v.prev_url is None
                        })
                        &&& (if i + 1 < names.len() {
                            v.next_url matches Some(p) && p@ == names[i + 1]
                        } else {
                            v.next_url is None
                        })
                        &&& crumb_views(v.breadcrumbs@) == breadcrumbs_of(
                            match parent_of(rel_path@) {
                                Some(p) => p,
                                None => Seq::<char>::empty(),
                            },
                        )
                    },
            }
        }),
{
    let ghost names = section_names(index);
    let n = index.sections.len();
    let i = match find_section(index, file_name) {
        Some(i) => i,
        None => return None,
    };
    assert(first_position(names, file_name@, i as int));
    let prev_url = if i > 0 {
        Some(index.sections[i - 1].filename.clone())
    } else {
        None
    };
    let next_url = if i + 1 < n {
        Some(index.sections[i + 1].filename.clone())
    } else {
        None
    };
    let parent_rel = match path_parent(rel_path) {
        Some(p) => p,
        None => String::new(),
    };
    let breadcrumbs = build_breadcrumbs(parent_rel.as_str());
    let mut iframe_src = String::from_str(file_name);
    iframe_src.append("?raw=true");
    let v = SectionView {
        book_name: index.book_name.clone(),
        breadcrumbs,
        iframe_src,
        prev_url,
        next_url,
    };
    Some(v)
}

/// What a book's contents page shows besides the book itself.
pub struct BookViewPlan {
    pub breadcrumbs: Vec<Breadcrumb>,
    pub book_path: String,
    pub is_private: bool,
    pub can_toggle: bool,
}

/// The contents page of the book at `rel_path` whose recorded uploader is
/// `uploaded_by`: its owner and administrators may move it.
pub fn book_view_plan(rel_path: &str, uploaded_by: &Option<String>, user: &User) -> (r: BookViewPlan)
    ensures
        crumb_views(r.breadcrumbs@) == breadcrumbs_of(rel_path@),
        r.book_path@ == trim(rel_path@, Strip::Char('/')),
        r.is_private == private_owner_of(trim(rel_path@, Strip::Char('/'))) is Some,
        r.can_toggle == may_toggle(opt_view(*uploaded_by), user@),
{
    let breadcrumbs = build_breadcrumbs(rel_path);
    let book_path = trim_char(rel_path, '/');
    let is_private = private_path_owner(book_path.as_str()).is_some();
    let is_uploader = match uploaded_by {
        Some(o) => *o == user.username,
        None => false,
    };
    BookViewPlan { breadcrumbs, book_path, is_private, can_toggle: is_uploader || user.is_admin }
}

/// Why a new password was refused.
#[derive(Debug)]
pub enum PasswordProblem {
    /// The two entries differ.
    Mismatch,
    /// Fewer than four bytes.
    TooShort,
}

impl PasswordProblem {
    /// The message shown on the form.
    pub fn message(&self) -> (r: String)
        ensures
            match self {
                PasswordProblem::Mismatch => r@ == "Passwords do not match"@,
                PasswordProblem::TooShort => r@ == "Password must be at least 4 characters"@,
            },
    {
        match self {
            PasswordProblem::Mismatch => String::from_str("Passwords do not match"),
            PasswordProblem::TooShort => String::from_str("Password must be at least 4 characters"),
        }
    }
}

/// Checks a new password and its confirmation: they must agree, and the
/// password must be at least 4 bytes long (in UTF-8).
pub fn check_new_password(new_password: &str, confirm_password: &str) -> (r: Result<
    (),
    PasswordProblem,
>)
    ensures
        new_password@ != confirm_password@ ==> r matches Err(PasswordProblem::Mismatch),
        new_password@ == confirm_password@ && encode_utf8(new_password@).len() < 4 ==> r matches Err(
            PasswordProblem::TooShort,
        ),
        new_password@ == confirm_password@ && encode_utf8(new_password@).len() >= 4 ==> r is Ok,
{
    let a = String::from_str(new_password);
    let b = String::from_str(confirm_password);
    if a != b {
        return Err(PasswordProblem::Mismatch);
    }
    if new_password.as_bytes().len() < 4 {
        return Err(PasswordProblem::TooShort);
    }
    Ok(())
}

/// The Unicode lower-case mapping of a string, as `str::to_lowercase`
/// computes it.
pub uninterp spec fn lowercase(s: Seq<char>) -> Seq<char>;

/// `str::to_lowercase`. Its result is named by `lowercase`; the Unicode
/// case tables it applies are not written out here.
#[verifier::external_body]
fn to_lowercase(s: &str) -> (r: String)
    ensures
        r@ == lowercase(s@),
{
    s.to_lowercase()
}

/// An acceptable user name: not empty, without the path separator `/`, and
/// without `..`.
pub open spec fn valid_username(u: Seq<char>) -> bool {
    u.len() > 0 && !contains(u, "/"@) && !contains(u, ".."@)
}

/// A lower-cased user name, kept if it is acceptable.
pub fn check_username(lowered: &str) -> (r: Option<String>)
    ensures
        match r {
            Some(u) => valid_username(lowered@) && u@ == lowered@,
            None => !valid_username(lowered@),
        },
{
    let v = chars_of(lowered);
    let slash = chars_of("/");
    let dd = chars_of("..");
    if v.len() == 0 || contains_chars(&v, &slash) || contains_chars(&v, &dd) {
        None
    } else {
        Some(String::from_str(lowered))
    }
}

/// The user name an administrator's form asks for: trimmed and lower-cased,
/// `None` when it is not acceptable.
pub fn normalize_new_username(raw: &str) -> (r: Option<String>)
    ensures
        match r {
            Some(u) => valid_username(lowercase(trim(raw@, Strip::Whitespace))) && u@ == lowercase(
                trim(raw@, Strip::Whitespace),
            ),
            None => !valid_username(lowercase(trim(raw@, Strip::Whitespace))),
        },
{
    let t = trim_whitespace(raw);
    let l = to_lowercase(t.as_str());
    check_username(l.as_str())
}

/// The form's admin box counts when it sent `true`.
pub fn admin_flag(field: &Option<String>) -> (r: bool)
    ensures
        r == (field matches Some(f) && f@ == "true"@),
{
    match field {
        Some(f) => {
            let t = String::from_str("true");
            *f == t
        },
        None => false,
    }
}

/// An acceptable category name: not empty, without `/` or `..`, and not
/// starting with `.`.
pub open spec fn valid_category_name(n: Seq<char>) -> bool {
    n.len() > 0 && !contains(n, "/"@) && !contains(n, ".."@) && !has_prefix(n, "."@)
}

/// The category name an administrator's form asks for, trimmed; `None`
/// when it is not acceptable.
pub fn check_category_name(raw: &str) -> (r: Option<String>)
    ensures
        match r {
            Some(n) => n@ == trim(raw@, Strip::Whitespace) && valid_category_name(n@),
            None => !valid_category_name(trim(raw@, Strip::Whitespace)),
        },
{
    let t = trim_whitespace(raw);
    let v = chars_of(t.as_str());
    let slash = chars_of("/");
    let dd = chars_of("..");
    let dot = chars_of(".");
    if v.len() == 0 || contains_chars(&v, &slash) || contains_chars(&v, &dd) || starts_with_chars(
        &v,
        &dot,
    ) {
        None
    } else {
        Some(t)
    }
}

/// The directory of a category.
pub fn category_dir(name: &str) -> (r: String)
    ensures
        r@ == join_path(EPUBS_DIR@, name@),
{
    path_join(EPUBS_DIR, name)
}

pub open spec fn str_views(v: Seq<String>) -> Seq<Seq<char>> {
    v.map_values(|s: String| s@)
}

fn string_keys(v: &Vec<String>) -> (r: Vec<Vec<char>>)
    ensures
        views(r@) == str_views(v@),
{
    let mut r: Vec<Vec<char>> = Vec::new();
    let mut i: usize = 0;
    while i < v.len()
        invariant
            i <= v.len(),
            views(r@) == str_views(v@).take(i as int),
        decreases v.len() - i,
    {
        let k = chars_of(v[i].as_str());
        assert(k@ == str_views(v@)[i as int]);
        let ghost prev = views(r@);
        let ghost kv = k@;
        r.push(k);
        assert(views(r@) =~= prev.push(kv));
        assert(str_views(v@).take(i + 1) =~= str_views(v@).take(i as int).push(kv));
        i = i + 1;
    }
    assert(str_views(v@).take(i as int) =~= str_views(v@));
    r
}

/// The strings of `v` in stable ascending order.
pub fn sort_strings(v: &Vec<String>) -> (r: Vec<String>)
    ensures
        exists|ord: Seq<usize>|
            stable_order(str_views(v@), ord) && r@.len() == ord.len() && forall|j: int|
                0 <= j < ord.len() ==> #[trigger] r@[j]@ == str_views(v@)[ord[j] as int],
{
    let keys = string_keys(v);
    let ord = stable_sort_order(&keys);
    let mut r: Vec<String> = Vec::new();
    let mut j: usize = 0;
    while j < ord.len()
        invariant
            j <= ord.len(),
            stable_order(str_views(v@), ord@),
            r@.len() == j,
            forall|k: int| 0 <= k < j ==> #[trigger] r@[k]@ == str_views(v@)[ord@[k] as int],
        decreases ord.len() - j,
    {
        r.push(v[ord[j]].clone());
        j = j + 1;
    }
    r
}

/// A directory that is offered as a category: not hidden, and not the
/// private area.
pub open spec fn is_category_entry(e: (Seq<char>, bool)) -> bool {
    e.1 && !has_prefix(e.0, "."@) && e.0 != "private"@
}

pub open spec fn entry_views(v: Seq<(String, bool)>) -> Seq<(Seq<char>, bool)> {
    v.map_values(|e: (String, bool)| (e.0@, e.1))
}

/// The category names among the first `n` entries (name, is a directory)
/// of the EPUB root, in their listing order.
pub open spec fn category_names_upto(ev: Seq<(Seq<char>, bool)>, n: int) -> Seq<Seq<char>>
    decreases n,
{
    if n <= 0 {
        Seq::<Seq<char>>::empty()
    } else if is_category_entry(ev[n - 1]) {
        category_names_upto(ev, n - 1).push(ev[n - 1].0)
    } else {
        category_names_upto(ev, n - 1)
    }
}

/// The category names among the entries of the EPUB root, in listing order.
pub open spec fn category_names(entries: Seq<(String, bool)>) -> Seq<Seq<char>> {
    category_names_upto(entry_views(entries), entries.len() as int)
}

/// The categories found among the entries (name, is a directory) of the
/// EPUB root, sorted.
pub fn select_categories(entries: &Vec<(String, bool)>) -> (r: Vec<String>)
    ensures
        exists|ord: Seq<usize>|
            stable_order(category_names(entries@), ord) && r@.len() == ord.len() && forall|j: int|
                0 <= j < ord.len() ==> #[trigger] r@[j]@ == category_names(entries@)[ord[j] as int],
{
    let ghost ev = entry_views(entries@);
    let mut names: Vec<String> = Vec::new();
    let dot = chars_of(".");
    let private = chars_of("private");
    let mut i: usize = 0;
    while i < entries.len()
        invariant
            i <= entries.len(),
            ev == entry_views(entries@),
            dot@ == "."@,
            private@ == "private"@,
            str_views(names@) == category_names_upto(ev, i as int),
        decreases entries.len() - i,
    {
        let (name, is_dir) = (&entries[i].0, entries[i].1);
        let nc = chars_of(name.as_str());
        let keep = is_dir && !starts_with_chars(&nc, &dot) && !chars_eq(&nc, &private);
        assert(ev[i as int] == (name@, is_dir));
        assert(keep == is_category_entry(ev[i as int]));
        if keep {
            names.push(name.clone());
        }
        assert(str_views(names@) =~= category_names_upto(ev, i + 1));
        i = i + 1;
    }
    assert(str_views(names@) == category_names(entries@));
    let r = sort_strings(&names);
    proof {
        let ord = choose|ord: Seq<usize>|
            stable_order(str_views(names@), ord) && r@.len() == ord.len() && forall|j: int|
                0 <= j < ord.len() ==> #[trigger] r@[j]@ == str_views(names@)[ord[j] as int];
        assert(stable_order(category_names(entries@), ord));
    }
    r
}

/// The category shown for one of a user's books: `private` for private
/// books, else the book's parent directory.
pub open spec fn profile_category_of(book_path: Seq<char>) -> Seq<char> {
    if private_owner_of(book_path) is Some {
        "private"@
    } else {
        match parent_of(book_path) {
            Some(q) => q,
            None => Seq::<char>::empty(),
        }
    }
}

/// `e` is the profile entry of the book at `p`.
pub open spec fn profile_matches(e: ProfileBookEntry, p: Seq<char>) -> bool {
    &&& e.book_path@ == p
    &&& e.book_name@ == book_name_of(p)
    &&& e.is_private == (private_owner_of(p) is Some)
    &&& e.url@ == p.push('/')
    &&& e.category@ == profile_category_of(p)
}

pub open spec fn book_names(paths: Seq<Seq<char>>) -> Seq<Seq<char>> {
    paths.map_values(|p: Seq<char>| book_name_of(p))
}

fn profile_entry(book_path: &String) -> (r: ProfileBookEntry)
    ensures
        profile_matches(r, book_path@),
{
    let is_private = private_path_owner(book_path.as_str()).is_some();
    let book_name = match path_file_name(book_path.as_str()) {
        Some(n) => n,
        None => String::new(),
    };
    let category = if is_private {
        String::from_str("private")
    } else {
        match path_parent(book_path.as_str()) {
            Some(q) => q,
            None => String::new(),
        }
    };
    let mut url = book_path.clone();
    url.append("/");
    proof {
        reveal_strlit("/");
        assert(url@ =~= book_path@.push('/'));
    }
    ProfileBookEntry { book_path: book_path.clone(), book_name, is_private, url, category }
}

/// The profile page's list of a user's books, sorted by book name (books
/// with the same name keep their order).
pub fn profile_entries(book_paths: &Vec<String>) -> (r: Vec<ProfileBookEntry>)
    ensures
        exists|ord: Seq<usize>|
            stable_order(book_names(str_views(book_paths@)), ord) && r@.len() == ord.len()
                && forall|j: int|
                0 <= j < ord.len() ==> profile_matches(
                    #[trigger] r@[j],
                    str_views(book_paths@)[ord[j] as int],
                ),
{
    let ghost ps = str_views(book_paths@);
    let mut keys: Vec<Vec<char>> = Vec::new();
    let mut i: usize = 0;
    while i < book_paths.len()
        invariant
            i <= book_paths.len(),
            ps == str_views(book_paths@),
            views(keys@) == book_names(ps).take(i as int),
        decreases book_paths.len() - i,
    {
        let name = book_name(book_paths[i].as_str());
        let k = chars_of(name.as_str());
        let ghost prev = views(keys@);
        let ghost kv = k@;
        keys.push(k);
        assert(views(keys@) =~= prev.push(kv));
        assert(book_names(ps).take(i + 1) =~= book_names(ps).take(i as int).push(kv));
        i = i + 1;
    }
    assert(book_names(ps).take(i as int) =~= book_names(ps));
    let ord = stable_sort_order(&keys);
    let mut r: Vec<ProfileBookEntry> = Vec::new();
    let mut j: usize = 0;
    while j < ord.len()
        invariant
            j <= ord.len(),
            ps == str_views(book_paths@),
            stable_order(book_names(ps), ord@),
            r@.len() == j,
            forall|k: int| 0 <= k < j ==> profile_matches(#[trigger] r@[k], ps[ord@[k] as int]),
        decreases ord.len() - j,
    {
        r.push(profile_entry(&book_paths[ord[j]]));
        j = j + 1;
    }
    r
}

/// The file name of a book path, empty when it has none.
pub fn book_name(book_path: &str) -> (r: String)
    ensures
        r@ == book_name_of(book_path@),
{
    match path_file_name(book_path) {
        Some(n) => n,
        None => String::new(),
    }
}

pub open spec fn usernames(vals: Seq<UserView>) -> Seq<Seq<char>> {
    vals.map_values(|u: UserView| u.username)
}

/// `e` shows the account `u`.
pub open spec fn admin_matches(e: AdminUserEntry, u: UserView) -> bool {
    &&& e.username@ == u.username
    &&& e.is_admin == u.is_admin
    &&& e.must_change_password == u.must_change_password
}

/// The administration page's list of accounts, sorted by user name.
pub fn admin_user_entries(users: &UsersFile) -> (r: Vec<AdminUserEntry>)
    ensures
        exists|ord: Seq<usize>|
            stable_order(usernames(users.users.value_seq()), ord) && r@.len() == ord.len()
                && forall|j: int|
                0 <= j < ord.len() ==> admin_matches(
                    #[trigger] r@[j],
                    users.users.value_seq()[ord[j] as int],
                ),
{
    let n = users.users.len();
    let ghost vals = users.users.value_seq();
    let mut keys: Vec<Vec<char>> = Vec::new();
    let mut i: usize = 0;
    while i < n
        invariant
            i <= n,
            n == vals.len(),
            vals == users.users.value_seq(),
            users.users.consistent(),
            views(keys@) == usernames(vals).take(i as int),
        decreases n - i,
    {
        let (_, u) = users.users.entry(i);
        let k = chars_of(u.username.as_str());
        let ghost prev = views(keys@);
        let ghost kv = k@;
        keys.push(k);
        assert(views(keys@) =~= prev.push(kv));
        assert(usernames(vals).take(i + 1) =~= usernames(vals).take(i as int).push(kv));
        i = i + 1;
    }
    assert(usernames(vals).take(i as int) =~= usernames(vals));
    let ord = stable_sort_order(&keys);
    let mut r: Vec<AdminUserEntry> = Vec::new();
    let mut j: usize = 0;
    while j < ord.len()
        invariant
            j <= ord.len(),
            n == vals.len(),
            vals == users.users.value_seq(),
            users.users.consistent(),
            stable_order(usernames(vals), ord@),
            r@.len() == j,
            forall|k: int| 0 <= k < j ==> admin_matches(#[trigger] r@[k], vals[ord@[k] as int]),
        decreases ord.len() - j,
    {
        let (_, u) = users.users.entry(ord[j]);
        r.push(
            AdminUserEntry {
                username: u.username.clone(),
                is_admin: u.is_admin,
                must_change_password: u.must_change_password,
            },
        );
        j = j + 1;
    }
    r
}

/// Why an upload was refused (all with status 400).
#[derive(Debug)]
pub enum UploadError {
    NoFile,
    NotEpub,
    InvalidCategory,
    CategoryRequired,
    UnknownCategory,
}

impl UploadError {
    /// The message sent back.
    pub fn message(&self) -> (r: &'static str)
        ensures
            match self {
                UploadError::NoFile => r@ == "No file uploaded"@,
                UploadError::NotEpub => r@ == "Only .epub files allowed"@,
                UploadError::InvalidCategory => r@ == "Invalid category"@,
                UploadError::CategoryRequired => r@ == "Category required for public uploads"@,
                UploadError::UnknownCategory => r@
                    == "Category does not exist. Ask an admin to create it."@,
            },
    {
        match self {
            UploadError::NoFile => "No file uploaded",
            UploadError::NotEpub => "Only .epub files allowed",
            UploadError::InvalidCategory => "Invalid category",
            UploadError::CategoryRequired => "Category required for public uploads",
            UploadError::UnknownCategory => "Category does not exist. Ask an admin to create it.",
        }
    }
}

/// Where an accepted upload goes.
#[derive(Debug)]
pub struct UploadPlan {
    /// The EPUB file to write.
    pub dest_path: String,
    /// The directory to create for it, if it has one.
    pub dest_dir: Option<String>,
    /// The book's path, under which its uploader is recorded.
    pub book_key: String,
    /// Where the browser is sent afterwards.
    pub redirect_to: String,
}

/// The name of the uploaded file: the one the browser sent, or
/// `upload.epub`.
pub fn uploaded_file_name(given: Option<&str>) -> (r: String)
    ensures
        match given {
            Some(g) => r@ == g@,
            None => r@ == "upload.epub"@,
        },
{
    match given {
        Some(g) => String::from_str(g),
        None => String::from_str("upload.epub"),
    }
}

/// The category of an upload form: white space, then slashes, trimmed.
pub open spec fn upload_category_of(raw: Seq<char>) -> Seq<char> {
    trim(trim(raw, Strip::Whitespace), Strip::Char('/'))
}

/// The book's name: the file name without its `.epub` suffix.
pub open spec fn upload_stem_of(file_name: Seq<char>) -> Seq<char> {
    file_name.take(file_name.len() - 5)
}

/// The book path an accepted upload is recorded under.
pub open spec fn upload_key_of(file_name: Seq<char>, category: Seq<char>, is_private: bool, username: Seq<char>) -> Seq<char> {
    if is_private {
        "private/"@ + username.push('/') + upload_stem_of(file_name)
    } else {
        category.push('/') + upload_stem_of(file_name)
    }
}

/// The EPUB file an accepted upload is written to.
pub open spec fn upload_dest_of(file_name: Seq<char>, category: Seq<char>, is_private: bool, username: Seq<char>) -> Seq<char> {
    if is_private {
        join_path(join_path(join_path(EPUBS_DIR@, "private"@), username), file_name)
    } else {
        join_path(join_path(EPUBS_DIR@, category), file_name)
    }
}

/// Decides an upload of the file `file_name` (`None`: no file was sent)
/// by `username`, either to the uploader's private folder or to the
/// category `category`, which must be one of `categories`.
pub fn plan_upload(
    file_name: Option<String>,
    category: &str,
    is_private: bool,
    username: &str,
    categories: &Vec<String>,
) -> (r: Result<UploadPlan, UploadError>)
    ensures
        ({
            let c = upload_category_of(category@);
            match file_name {
                None => r matches Err(UploadError::NoFile),
                Some(f) => if !has_suffix(f@, ".epub"@) {
                    r matches Err(UploadError::NotEpub)
                } else if contains(c, ".."@) || contains(c, "/"@) {
                    r matches Err(UploadError::InvalidCategory)
                } else if !is_private && c.len() == 0 {
                    r matches Err(UploadError::CategoryRequired)
                } else if !is_private && !str_views(categories@).contains(c) {
                    r matches Err(UploadError::UnknownCategory)
                } else {
                    r matches Ok(p) && {
                        &&& p.book_key@ == upload_key_of(f@, c, is_private, username@)
                        &&& p.dest_path@ == upload_dest_of(f@, c, is_private, username@)
                        &&& opt_view(p.dest_dir) == parent_of(p.dest_path@)
                        &&& p.redirect_to@ == if is_private {
                            "/profile?uploaded=true"@
                        } else {
                            "/"@ + c + "/?uploaded=true"@
                        }
                    }
                },
            }
        }),
{
    let f = match file_name {
        Some(f) => f,
        None => return Err(UploadError::NoFile),
    };
    let fc = chars_of(f.as_str());
    let suffix = chars_of(".epub");
    proof {
        reveal_strlit(".epub");
    }
    if !ends_with_chars(&fc, &suffix) {
        return Err(UploadError::NotEpub);
    }
    let raw = chars_of(category);
    let c1 = trim_chars(&raw, Strip::Whitespace);
    let c2 = trim_chars(&c1, Strip::Char('/'));
    let dd = chars_of("..");
    let slash = chars_of("/");
    if contains_chars(&c2, &dd) || contains_chars(&c2, &slash) {
        return Err(UploadError::InvalidCategory);
    }
    let cat = string_from_chars(c2.as_slice());
    let stem_chars = slice_chars(&fc, 0, fc.len() - 5);
    let stem = string_from_chars(stem_chars.as_slice());
    proof {
        reveal_strlit("/");
        assert("/"@ =~= seq!['/']);
    }
    if is_private {
        let d = path_join(EPUBS_DIR, "private");
        let d = path_join(d.as_str(), username);
        let dest_path = path_join(d.as_str(), f.as_str());
        let mut key = String::from_str("private/");
        key.append(username);
        key.append("/");
        key.append(stem.as_str());
        let dest_dir = path_parent(dest_path.as_str());
        Ok(
            UploadPlan {
                dest_path,
                dest_dir,
                book_key: key,
                redirect_to: String::from_str("/profile?uploaded=true"),
            },
        )
    } else {
        if c2.len() == 0 {
            return Err(UploadError::CategoryRequired);
        }
        if !contains_string(categories, &cat) {
            return Err(UploadError::UnknownCategory);
        }
        let d = path_join(EPUBS_DIR, cat.as_str());
        let dest_path = path_join(d.as_str(), f.as_str());
        let mut key = cat.clone();
        key.append("/");
        key.append(stem.as_str());
        let dest_dir = path_parent(dest_path.as_str());
        let mut redirect_to = String::from_str("/");
        redirect_to.append(cat.as_str());
        redirect_to.append("/?uploaded=true");
        Ok(UploadPlan { dest_path, dest_dir, book_key: key, redirect_to })
    }
}

/// `v` holds `s`.
pub fn contains_string(v: &Vec<String>, s: &String) -> (r: bool)
    ensures
        r == str_views(v@).contains(s@),
{
    let mut i: usize = 0;
    while i < v.len()
        invariant
            i <= v.len(),
            forall|k: int| 0 <= k < i ==> str_views(v@)[k] != s@,
        decreases v.len() - i,
    {
        if v[i] == *s {
            assert(str_views(v@)[i as int] == s@);
            return true;
        }
        i = i + 1;
    }
    false
}

/// Private uploads are recorded in their uploader's private folder (for
/// user names that are a single named segment: not empty, not `.`, no `/`).
pub proof fn law_private_upload_owned_by_uploader(
    file_name: Seq<char>,
    category: Seq<char>,
    username: Seq<char>,
)
    requires
        is_named(username),
        no_slash(username),
    ensures
        private_owner_of(upload_key_of(file_name, category, true, username)) == Some(username),
{
    lemma_private_prefix(username, upload_stem_of(file_name));
}

/// One entry read from a directory: its name, whether it is a directory,
/// and whether it holds an `index.json` (that is, is a book).
pub struct DirItem {
    pub name: String,
    pub is_dir: bool,
    pub has_index: bool,
}

pub open spec fn item_views(v: Seq<DirItem>) -> Seq<(Seq<char>, bool, bool)> {
    v.map_values(|d: DirItem| (d.name@, d.is_dir, d.has_index))
}

/// The path, relative to the root, of the entry `name` of the directory at
/// `rel_path`.
pub open spec fn child_path_of(rel_path: Seq<char>, name: Seq<char>) -> Seq<char> {
    if rel_path.len() == 0 {
        name
    } else {
        trim(rel_path, Strip::Char('/')).push('/') + name
    }
}

/// Whether a directory page lists an entry: hidden names never; the root's
/// `private` folder only to administrators; folders inside the private area
/// only to their owner and administrators.
pub open spec fn shows_item(
    rel_path: Seq<char>,
    name: Seq<char>,
    is_dir: bool,
    username: Seq<char>,
    is_admin: bool,
) -> bool {
    &&& !has_prefix(name, "."@)
    &&& is_dir ==> {
        &&& !(rel_path.len() == 0 && name == "private"@ && !is_admin)
        &&& may_access(child_path_of(rel_path, name), username, is_admin)
    }
}

/// Positions among the first `n` items of the listed entries that are
/// directories (`want_dir`) or files.
pub open spec fn shown_upto(
    items: Seq<(Seq<char>, bool, bool)>,
    n: int,
    want_dir: bool,
    rel_path: Seq<char>,
    username: Seq<char>,
    is_admin: bool,
) -> Seq<int>
    decreases n,
{
    if n <= 0 {
        Seq::<int>::empty()
    } else {
        let prev = shown_upto(items, n - 1, want_dir, rel_path, username, is_admin);
        let it = items[n - 1];
        if it.1 == want_dir && shows_item(rel_path, it.0, it.1, username, is_admin) {
            prev.push(n - 1)
        } else {
            prev
        }
    }
}

pub open spec fn names_at(items: Seq<(Seq<char>, bool, bool)>, idx: Seq<int>) -> Seq<Seq<char>> {
    idx.map_values(|i: int| items[i].0)
}

/// `e` is the listing entry of `item` in the directory at `rel_path`.
pub open spec fn entry_matches(
    e: EntryInfo,
    item: (Seq<char>, bool, bool),
    rel_path: Seq<char>,
    owners: Map<Seq<char>, Seq<char>>,
) -> bool {
    let is_book = item.1 && item.2;
    let key = child_path_of(rel_path, item.0);
    &&& e.name@ == item.0
    &&& e.is_dir == item.1
    &&& e.is_book == is_book
    &&& e.url@ == if item.1 {
        item.0.push('/')
    } else {
        item.0
    }
    &&& opt_view(e.uploaded_by) == if is_book && owners.contains_key(key) {
        Some(owners[key])
    } else {
        None
    }
}

/// What a directory page shows.
pub struct DirectoryView {
    pub current_path: String,
    pub parent_url: Option<String>,
    pub breadcrumbs: Vec<Breadcrumb>,
    pub entries: Vec<EntryInfo>,
}

/// `rel` joined with `/` and `name` (or `name` alone at the root).
fn child_path(rel_trimmed: &String, at_root: bool, name: &String) -> (r: String)
    ensures
        at_root ==> r@ == name@,
        !at_root ==> r@ == rel_trimmed@.push('/') + name@,
{
    if at_root {
        name.clone()
    } else {
        let mut c = rel_trimmed.clone();
        c.append("/");
        c.append(name.as_str());
        proof {
            reveal_strlit("/");
            assert("/"@ =~= seq!['/']);
        }
        c
    }
}

fn listing_entry(
    item: &DirItem,
    rel_path: &str,
    rel_trimmed: &String,
    at_root: bool,
    owners: &BookOwnersFile,
) -> (r: EntryInfo)
    requires
        at_root == (rel_path@.len() == 0),
        rel_trimmed@ == trim(rel_path@, Strip::Char('/')),
    ensures
        entry_matches(r, (item.name@, item.is_dir, item.has_index), rel_path@, owners.books@),
{
    let is_book = item.is_dir && item.has_index;
    let url = if item.is_dir {
        let mut u = item.name.clone();
        u.append("/");
        proof {
            reveal_strlit("/");
            assert(u@ =~= item.name@.push('/'));
        }
        u
    } else {
        item.name.clone()
    };
    let uploaded_by = if is_book {
        let key = child_path(rel_trimmed, at_root, &item.name);
        owners.get_owner(key.as_str())
    } else {
        None
    };
    EntryInfo { is_dir: item.is_dir, is_book, url, name: item.name.clone(), uploaded_by }
}

pub open spec fn as_ints(v: Seq<usize>) -> Seq<int> {
    v.map_values(|x: usize| x as int)
}

fn shows(
    item: &DirItem,
    rel_path: &str,
    rel_trimmed: &String,
    at_root: bool,
    user: &User,
) -> (r: bool)
    requires
        at_root == (rel_path@.len() == 0),
        rel_trimmed@ == trim(rel_path@, Strip::Char('/')),
    ensures
        r == shows_item(rel_path@, item.name@, item.is_dir, user.username@, user.is_admin),
{
    let nc = chars_of(item.name.as_str());
    let dot = chars_of(".");
    if starts_with_chars(&nc, &dot) {
        return false;
    }
    if !item.is_dir {
        return true;
    }
    let private = chars_of("private");
    if at_root && chars_eq(&nc, &private) && !user.is_admin {
        return false;
    }
    let child = child_path(rel_trimmed, at_root, &item.name);
    check_private_access(child.as_str(), user).is_none()
}

/// The directory page of `rel_path`, whose entries were read as `items`:
/// folders first, then files, each sorted by name, with what `user` may not
/// see left out, and the uploader of each book from `owners`.
pub fn directory_listing(
    rel_path: &str,
    items: &Vec<DirItem>,
    user: &User,
    owners: &BookOwnersFile,
) -> (r: DirectoryView)
    ensures
        r.current_path@ == if rel_path@.len() == 0 {
            "/"@
        } else {
            "/"@ + rel_path@ + "/"@
        },
        rel_path@.len() == 0 ==> r.parent_url is None,
        rel_path@.len() > 0 ==> (r.parent_url matches Some(u) && u@ == "../"@),
        crumb_views(r.breadcrumbs@) == breadcrumbs_of(rel_path@),
        ({
            let iv = item_views(items@);
            let n = iv.len() as int;
            let ds = shown_upto(iv, n, true, rel_path@, user.username@, user.is_admin);
            let fs = shown_upto(iv, n, false, rel_path@, user.username@, user.is_admin);
            exists|od: Seq<usize>, of: Seq<usize>|
                {
                    &&& stable_order(names_at(iv, ds), od)
                    &&& stable_order(names_at(iv, fs), of)
                    &&& r.entries@.len() == ds.len() + fs.len()
                    &&& forall|j: int|
                        0 <= j < ds.len() ==> entry_matches(
                            #[trigger] r.entries@[j],
                            iv[ds[od[j] as int]],
                            rel_path@,
                            owners.books@,
                        )
                    &&& forall|j: int|
                        0 <= j < fs.len() ==> entry_matches(
                            #[trigger] r.entries@[ds.len() + j],
                            iv[fs[of[j] as int]],
                            rel_path@,
                            owners.books@,
                        )
                }
        }),
{
    let ghost iv = item_views(items@);
    let ghost uname = user.username@;
    let ghost adm = user.is_admin;
    let at_root = rel_path.is_empty();
    let rel_trimmed = trim_char(rel_path, '/');
    let mut dirs: Vec<usize> = Vec::new();
    let mut files: Vec<usize> = Vec::new();
    let mut dkeys: Vec<Vec<char>> = Vec::new();
    let mut fkeys: Vec<Vec<char>> = Vec::new();
    let mut i: usize = 0;
    while i < items.len()
        invariant
            i <= items.len(),
            iv == item_views(items@),
            uname == user.username@,
            adm == user.is_admin,
            at_root == (rel_path@.len() == 0),
            rel_trimmed@ == trim(rel_path@, Strip::Char('/')),
            as_ints(dirs@) == shown_upto(iv, i as int, true, rel_path@, uname, adm),
            as_ints(files@) == shown_upto(iv, i as int, false, rel_path@, uname, adm),
            forall|k: int| 0 <= k < dirs@.len() ==> #[trigger] dirs@[k] < i,
            forall|k: int| 0 <= k < files@.len() ==> #[trigger] files@[k] < i,
            views(dkeys@) == names_at(iv, as_ints(dirs@)),
            views(fkeys@) == names_at(iv, as_ints(files@)),
        decreases items.len() - i,
    {
        let item = &items[i];
        let show = shows(item, rel_path, &rel_trimmed, at_root, user);
        assert(iv[i as int] == (item.name@, item.is_dir, item.has_index));
        if show {
            let k = chars_of(item.name.as_str());
            if item.is_dir {
                let ghost pd = as_ints(dirs@);
                let ghost pk = views(dkeys@);
                let ghost kv = k@;
                dirs.push(i);
                dkeys.push(k);
                assert(as_ints(dirs@) =~= pd.push(i as int));
                assert(views(dkeys@) =~= pk.push(kv));
                assert(names_at(iv, as_ints(dirs@)) =~= names_at(iv, pd).push(iv[i as int].0));
            } else {
                let ghost pf = as_ints(files@);
                let ghost pk = views(fkeys@);
                let ghost kv = k@;
                files.push(i);
                fkeys.push(k);
                assert(as_ints(files@) =~= pf.push(i as int));
                assert(views(fkeys@) =~= pk.push(kv));
                assert(names_at(iv, as_ints(files@)) =~= names_at(iv, pf).push(iv[i as int].0));
            }
        }
        i = i + 1;
    }
    let ghost ds = as_ints(dirs@);
    let ghost fs = as_ints(files@);
    let od = stable_sort_order(&dkeys);
    let of = stable_sort_order(&fkeys);
    let mut entries: Vec<EntryInfo> = Vec::new();
    let mut j: usize = 0;
    while j < od.len()
        invariant
            j <= od.len(),
            iv == item_views(items@),
            ds == shown_upto(iv, items@.len() as int, true, rel_path@, user.username@, user.is_admin),
            fs == shown_upto(iv, items@.len() as int, false, rel_path@, user.username@, user.is_admin),
            stable_order(names_at(iv, ds), od@),
            stable_order(names_at(iv, fs), of@),
            ds == as_ints(dirs@),
            od@.len() == dirs@.len(),
            forall|k: int| 0 <= k < od@.len() ==> #[trigger] od@[k] < dirs@.len(),
            forall|k: int| 0 <= k < dirs@.len() ==> #[trigger] dirs@[k] < items@.len(),
            at_root == (rel_path@.len() == 0),
            rel_trimmed@ == trim(rel_path@, Strip::Char('/')),
            entries@.len() == j,
            forall|k: int|
                0 <= k < j ==> entry_matches(
                    #[trigger] entries@[k],
                    iv[ds[od@[k] as int]],
                    rel_path@,
                    owners.books@,
                ),
        decreases od.len() - j,
    {
        let idx = dirs[od[j]];
        entries.push(listing_entry(&items[idx], rel_path, &rel_trimmed, at_root, owners));
        j = j + 1;
    }
    let nd = entries.len();
    assert(nd == ds.len());
    let mut j: usize = 0;
    while j < of.len()
        invariant
            j <= of.len(),
            iv == item_views(items@),
            ds == shown_upto(iv, items@.len() as int, true, rel_path@, user.username@, user.is_admin),
            fs == shown_upto(iv, items@.len() as int, false, rel_path@, user.username@, user.is_admin),
            stable_order(names_at(iv, ds), od@),
            stable_order(names_at(iv, fs), of@),
            ds == as_ints(dirs@),
            fs == as_ints(files@),
            nd == ds.len(),
            of@.len() == files@.len(),
            forall|k: int| 0 <= k < of@.len() ==> #[trigger] of@[k] < files@.len(),
            forall|k: int| 0 <= k < files@.len() ==> #[trigger] files@[k] < items@.len(),
            at_root == (rel_path@.len() == 0),
            rel_trimmed@ == trim(rel_path@, Strip::Char('/')),
            entries@.len() == nd + j,
            forall|k: int|
                0 <= k < nd ==> entry_matches(
                    #[trigger] entries@[k],
                    iv[ds[od@[k] as int]],
                    rel_path@,
                    owners.books@,
                ),
            forall|k: int|
                0 <= k < j ==> entry_matches(
                    #[trigger] entries@[nd + k],
                    iv[fs[of@[k] as int]],
                    rel_path@,
                    owners.books@,
                ),
        decreases of.len() - j,
    {
        let idx = files[of[j]];
        entries.push(listing_entry(&items[idx], rel_path, &rel_trimmed, at_root, owners));
        j = j + 1;
    }
    let breadcrumbs = build_breadcrumbs(rel_path);
    let current_path = if at_root {
        String::from_str("/")
    } else {
        let mut c = String::from_str("/");
        c.append(rel_path);
        c.append("/");
        c
    };
    let parent_url = if at_root {
        None
    } else {
        Some(String::from_str("../"))
    };
    let r = DirectoryView { current_path, parent_url, breadcrumbs, entries };
    assert(iv.len() == items@.len());
    assert({
        &&& stable_order(names_at(iv, ds), od@)
        &&& stable_order(names_at(iv, fs), of@)
        &&& r.entries@.len() == ds.len() + fs.len()
        &&& forall|j: int|
            0 <= j < ds.len() ==> entry_matches(
                #[trigger] r.entries@[j],
                iv[ds[od@[j] as int]],
                rel_path@,
                owners.books@,
            )
        &&& forall|j: int|
            0 <= j < fs.len() ==> entry_matches(
                #[trigger] r.entries@[ds.len() + j],
                iv[fs[of@[j] as int]],
                rel_path@,
                owners.books@,
            )
    });
    r
}

proof fn lemma_shown_items(
    items: Seq<(Seq<char>, bool, bool)>,
    n: int,
    want_dir: bool,
    rel_path: Seq<char>,
    username: Seq<char>,
    is_admin: bool,
)
    requires
        0 <= n <= items.len(),
    ensures
        forall|k: int|
            0 <= k < shown_upto(items, n, want_dir, rel_path, username, is_admin).len() ==> {
                let i = #[trigger] shown_upto(items, n, want_dir, rel_path, username, is_admin)[k];
                &&& 0 <= i < n
                &&& items[i].1 == want_dir
                &&& shows_item(rel_path, items[i].0, items[i].1, username, is_admin)
            },
    decreases n,
{
    if n > 0 {
        lemma_shown_items(items, n - 1, want_dir, rel_path, username, is_admin);
        let prev = shown_upto(items, n - 1, want_dir, rel_path, username, is_admin);
        let cur = shown_upto(items, n, want_dir, rel_path, username, is_admin);
        assert forall|k: int| 0 <= k < cur.len() implies ({
            let i = #[trigger] cur[k];
            &&& 0 <= i < n
            &&& items[i].1 == want_dir
            &&& shows_item(rel_path, items[i].0, items[i].1, username, is_admin)
        }) by {
            if k < prev.len() {
                assert(cur[k] == prev[k]);
            }
        }
    }
}

/// A directory page never lists, for a user who is not an administrator,
/// a hidden entry, the root's `private` folder, or a private folder of
/// someone else.
pub proof fn law_listing_respects_privacy(
    items: Seq<(Seq<char>, bool, bool)>,
    rel_path: Seq<char>,
    username: Seq<char>,
    k: int,
)
    requires
        0 <= k < shown_upto(items, items.len() as int, true, rel_path, username, false).len(),
    ensures
        ({
            let i = shown_upto(items, items.len() as int, true, rel_path, username, false)[k];
            let name = items[i].0;
            &&& !has_prefix(name, "."@)
            &&& !(rel_path.len() == 0 && name == "private"@)
            &&& (private_owner_of(child_path_of(rel_path, name)) matches Some(o) ==> o == username)
        }),
{
    lemma_shown_items(items, items.len() as int, true, rel_path, username, false);
}

/// The user-name rule, character by character: a name is accepted exactly
/// when it is not empty, has no `/`, and has no two `.` in a row (so
/// `john.doe` is accepted and `a..b` is not).
pub proof fn law_username_rule(u: Seq<char>)
    ensures
        valid_username(u) <==> (u.len() > 0 && (forall|i: int| 0 <= i < u.len() ==> u[i] != '/')
            && !(exists|i: int| #[trigger] double_dot_at(u, i))),
{
    reveal_strlit("/");
    reveal_strlit("..");
    assert("/"@ =~= seq!['/']);
    assert(".."@ =~= seq!['.', '.']);
    lemma_contains_char(u, '/');
    lemma_contains_dotdot(u);
}

/// The category-name rule, character by character: a name is accepted
/// exactly when it is not empty, has no `/`, has no two `.` in a row and
/// does not start with `.` (spaces and capitals are fine); a name without
/// white space at its ends is taken as it is.
pub proof fn law_category_name_rule(n: Seq<char>)
    ensures
        valid_category_name(n) <==> (n.len() > 0 && (forall|i: int| 0 <= i < n.len() ==> n[i]
            != '/') && !(exists|i: int| #[trigger] double_dot_at(n, i)) && n[0] != '.'),
        n.len() > 0 && !is_ws(n[0]) && !is_ws(n.last()) ==> trim(n, Strip::Whitespace) == n,
{
    reveal_strlit("/");
    reveal_strlit("..");
    reveal_strlit(".");
    assert("/"@ =~= seq!['/']);
    assert(".."@ =~= seq!['.', '.']);
    assert("."@ =~= seq!['.']);
    lemma_contains_char(n, '/');
    lemma_contains_dotdot(n);
    if n.len() > 0 {
        assert(n.subrange(0, 1)[0] == n[0]);
        if n[0] == '.' {
            assert(n.subrange(0, 1) =~= seq!['.']);
        }
    }
    if n.len() > 0 && !is_ws(n[0]) && !is_ws(n.last()) {
        lemma_trim_noop(n, Strip::Whitespace);
    }
}

/// A public upload goes into the category exactly as the form names it
/// (only white space and `/` at its ends are dropped; letters keep their
/// case): the book `<stem>.epub` is recorded as `<category>/<stem>` and
/// written to `EPUBS_DIR/<category>/<stem>.epub`.
pub proof fn law_public_upload_keeps_category(c: Seq<char>, stem: Seq<char>, username: Seq<char>)
    requires
        c.len() > 0,
        !is_ws(c[0]),
        !is_ws(c.last()),
        c[0] != '/',
        c.last() != '/',
    ensures
        upload_category_of(c) == c,
        upload_key_of(stem + ".epub"@, c, false, username) == c.push('/') + stem,
        upload_dest_of(stem + ".epub"@, c, false, username) == join_path(
            join_path(EPUBS_DIR@, c),
            stem + ".epub"@,
        ),
{
    reveal_strlit(".epub");
    lemma_trim_noop(c, Strip::Whitespace);
    lemma_trim_noop(c, Strip::Char('/'));
    assert((stem + ".epub"@).take(stem.len() as int) =~= stem);
}

/// The uploader shown for a book in a directory page is the owner recorded
/// under `<directory>/<name>`, whether the directory's path is written with
/// a trailing `/` or not.
pub proof fn law_listing_uploader(
    c: Seq<char>,
    name: Seq<char>,
    rel_path: Seq<char>,
    owners: Map<Seq<char>, Seq<char>>,
    e: EntryInfo,
)
    requires
        c.len() > 0,
        c[0] != '/',
        c.last() != '/',
        rel_path == c || rel_path == c.push('/'),
        owners.contains_key(c.push('/') + name),
        entry_matches(e, (name, true, true), rel_path, owners),
    ensures
        opt_view(e.uploaded_by) == Some(owners[c.push('/') + name]),
{
    if rel_path == c {
        lemma_trim_noop(c, Strip::Char('/'));
    } else {
        lemma_trim_trailing_slash(c);
    }
    assert(child_path_of(rel_path, name) == c.push('/') + name);
}

/// At the root of the library the uploader shown for a book is the owner
/// recorded under the book's own name.
pub proof fn law_listing_uploader_at_root(
    name: Seq<char>,
    owners: Map<Seq<char>, Seq<char>>,
    e: EntryInfo,
)
    requires
        owners.contains_key(name),
        entry_matches(e, (name, true, true), Seq::<char>::empty(), owners),
    ensures
        opt_view(e.uploaded_by) == Some(owners[name]),
{
}

} // verus!
