//! Where the server keeps its files.

use vstd::prelude::*;
use crate::paths::{
    join_path, with_extension_of, path_join, path_with_extension, split_path, join_segs, kept,
    normal, last_kept, last_kept_below, file_name_of, parent_of, stem_of, last_dot, last_dot_below,
    strip_dir_prefix, is_named, dotdot, lemma_split_join, lemma_join_split, same_path,
    components_of, lemma_last_kept_range, lemma_last_kept_after, lemma_last_kept_is, lemma_join_cons,
    lemma_join_prefix, lemma_kept_upto_take, lemma_kept_upto_skip,
};
use crate::text::{lemma_split_by_len, lemma_split_pieces, lemma_split_concat, lemma_split_without_sep, trim_start, lead_len, has_prefix, Strip};

verus! {

/// Root of the server's own data (users, sessions, ownership, per-user files).
pub const DATA_DIR: &'static str = "data";

/// Root of the uploaded EPUB files, one sub-directory per category.
pub const EPUBS_DIR: &'static str = "epubs";

/// Root of the extracted HTML books.
pub const HTML_DIR: &'static str = "html";

/// A book's location relative to both the EPUB and the HTML roots.
#[derive(PartialEq, Eq, Clone, Hash)]
pub struct DirHelper {
    pub common_path: String,
}

impl DirHelper {
    pub fn new(path: String) -> (r: Self)
        ensures
            r.common_path@ == path@,
    {
        DirHelper { common_path: path }
    }

    /// `EPUBS_DIR/<common path>` with the extension `epub`.
    pub fn epub_file_path(&self) -> (r: String)
        ensures
            r@ == with_extension_of(join_path(EPUBS_DIR@, self.common_path@), "epub"@),
    {
        let p = path_join(EPUBS_DIR, self.common_path.as_str());
        path_with_extension(p.as_str(), "epub")
    }

    /// `HTML_DIR/<common path>`.
    pub fn html_dir(&self) -> (r: String)
        ensures
            r@ == join_path(HTML_DIR@, self.common_path@),
    {
        path_join(HTML_DIR, self.common_path.as_str())
    }
}

/// The file that holds the user accounts.
pub fn users_json_path() -> (r: String)
    ensures
        r@ == join_path(DATA_DIR@, "users.json"@),
{
    path_join(DATA_DIR, "users.json")
}

/// The file that holds the login sessions.
pub fn sessions_json_path() -> (r: String)
    ensures
        r@ == join_path(DATA_DIR@, "sessions.json"@),
{
    path_join(DATA_DIR, "sessions.json")
}

/// The file that records who uploaded each book.
pub fn book_owners_path() -> (r: String)
    ensures
        r@ == join_path(DATA_DIR@, "book_owners.json"@),
{
    path_join(DATA_DIR, "book_owners.json")
}

/// `DATA_DIR/users/<username>`.
pub open spec fn user_dir_of(username: Seq<char>) -> Seq<char> {
    join_path(join_path(DATA_DIR@, "users"@), username)
}

/// A user's own directory: `DATA_DIR/users/<username>`.
pub fn user_data_dir(username: &str) -> (r: String)
    ensures
        r@ == user_dir_of(username@),
{
    let d = path_join(DATA_DIR, "users");
    path_join(d.as_str(), username)
}

/// Where a user's reading positions in one book are kept:
/// `<user dir>/read_positions/<book path>.json`. (`/` is the platform
/// separator here, so the book path is kept as it is.)
pub fn user_read_position_path(username: &str, book_path: &str) -> (r: String)
    ensures
        r@ == join_path(join_path(user_dir_of(username@), "read_positions"@), book_path@ + ".json"@),
{
    let d = user_data_dir(username);
    let d = path_join(d.as_str(), "read_positions");
    let mut f = String::from_str(book_path);
    f.append(".json");
    path_join(d.as_str(), f.as_str())
}

/// No segment of `xs` holds a `/`, and each names something other than
/// `..`.
pub open spec fn plain_segs(xs: Seq<Seq<char>>) -> bool {
    forall|i: int|
        0 <= i < xs.len() ==> {
            &&& is_named(#[trigger] xs[i])
            &&& xs[i] != dotdot()
            &&& forall|j: int| 0 <= j < xs[i].len() ==> xs[i][j] != '/'
        }
}

/// A path made of one plain segment `base` and the plain segments `xs`
/// splits into exactly these.
proof fn lemma_split_under(base: Seq<char>, xs: Seq<Seq<char>>)
    requires
        xs.len() >= 1,
        plain_segs(xs),
        forall|j: int| 0 <= j < base.len() ==> base[j] != '/',
    ensures
        split_path(base.push('/') + join_segs(xs)) == seq![base] + xs,
{
    lemma_split_join(xs);
    lemma_split_concat(base, join_segs(xs), '/');
    lemma_split_without_sep(base, '/');
}

/// Distinct user names get distinct directories, each directly inside
/// `DATA_DIR/users` and named after its user (for user names that are a
/// single plain segment: not empty, not `.` or `..`, no `/`).
pub proof fn law_user_dirs(u1: Seq<char>, u2: Seq<char>)
    requires
        plain_segs(seq![u1]),
        plain_segs(seq![u2]),
    ensures
        file_name_of(user_dir_of(u1)) == Some(u1),
        file_name_of(user_dir_of(u2)) == Some(u2),
        parent_of(user_dir_of(u1)) == Some(join_path(DATA_DIR@, "users"@)),
        u1 != u2 ==> user_dir_of(u1) != user_dir_of(u2),
{
    lemma_user_dir(u1);
    lemma_user_dir(u2);
}

proof fn lemma_user_dir(u: Seq<char>)
    requires
        plain_segs(seq![u]),
    ensures
        file_name_of(user_dir_of(u)) == Some(u),
        parent_of(user_dir_of(u)) == Some(join_path(DATA_DIR@, "users"@)),
{
    reveal_strlit("data");
    reveal_strlit("users");
    let us = "users"@;
    let xs = seq![us, u];
    assert(seq![u][0] == u);
    assert(plain_segs(xs)) by {
        assert forall|i: int| 0 <= i < xs.len() implies {
            &&& is_named(#[trigger] xs[i])
            &&& xs[i] != dotdot()
            &&& forall|j: int| 0 <= j < xs[i].len() ==> xs[i][j] != '/'
        } by {
            if i == 0 {
                assert(xs[0] == us);
                assert(us.len() == 5);
            } else {
                assert(xs[1] == seq![u][0]);
            }
        }
    }
    assert(join_segs(xs) == join_segs(xs.drop_last()).push('/') + u);
    assert(xs.drop_last() =~= seq![us]);
    assert(join_segs(seq![us]) == us);
    let d = join_path(DATA_DIR@, us);
    assert(d =~= DATA_DIR@.push('/') + us);
    assert(u[0] != '/');
    let dir = user_dir_of(u);
    assert(dir =~= DATA_DIR@.push('/') + join_segs(xs));
    lemma_split_under(DATA_DIR@, xs);
    let segs = split_path(dir);
    assert(segs =~= seq![DATA_DIR@, us, u]);
    assert(kept(segs, 2));
    assert(last_kept(segs) == 2);
    assert(normal(segs, 2));
    assert(kept(segs, 1));
    assert(last_kept_below(segs, 2) == 1);
    assert(segs.take(2) =~= seq![DATA_DIR@, us]);
    assert(join_segs(seq![DATA_DIR@, us]) == join_segs(seq![DATA_DIR@]).push('/') + us) by {
        assert(seq![DATA_DIR@, us].drop_last() =~= seq![DATA_DIR@]);
    }
}

proof fn lemma_no_dot(name: Seq<char>, n: int)
    requires
        0 <= n <= name.len(),
        forall|j: int| 0 <= j < name.len() ==> name[j] != '.',
    ensures
        last_dot_below(name, n) == -1,
    decreases n,
{
    if n > 0 {
        lemma_no_dot(name, n - 1);
    }
}

/// The last `.` of `<name>.epub` is the one before `epub`.
proof fn lemma_epub_dot(name: Seq<char>)
    ensures
        last_dot(name.push('.') + "epub"@) == name.len(),
{
    reveal_strlit("epub");
    let z = name.push('.') + "epub"@;
    let n = name.len() as int;
    assert(z.len() == n + 5);
    assert(z[n + 4] == 'b' && z[n + 3] == 'u' && z[n + 2] == 'p' && z[n + 1] == 'e' && z[n] == '.');
    assert(last_dot_below(z, n + 1) == n);
    assert(last_dot_below(z, n + 2) == n);
    assert(last_dot_below(z, n + 3) == n);
    assert(last_dot_below(z, n + 4) == n);
    assert(last_dot_below(z, n + 5) == n);
}

/// A book's EPUB file and its HTML directory name the same book: below
/// `EPUBS_DIR`, without the `.epub` extension, the EPUB path is the same
/// path (by `Path` equality) as the HTML path below `HTML_DIR`. Stated for
/// every relative, non-empty book path whose file name has no `.`.
pub proof fn law_epub_and_html_agree(p: Seq<char>)
    requires
        p.len() > 0,
        p[0] != '/',
        file_name_of(p) matches Some(n) && forall|j: int| 0 <= j < n.len() ==> n[j] != '.',
    ensures
        ({
            let epub = with_extension_of(join_path(EPUBS_DIR@, p), "epub"@);
            let html = join_path(HTML_DIR@, p);
            &&& strip_dir_prefix(html, HTML_DIR@) == Some(p)
            &&& strip_dir_prefix(epub, EPUBS_DIR@) matches Some(r) && same_path(
                with_extension_of(r, ""@),
                p,
            )
        }),
{
    reveal_strlit("epubs");
    reveal_strlit("html");
    reveal_strlit("epub");
    reveal_strlit("");
    let ps = split_path(p);
    lemma_split_by_len(p, '/');
    lemma_split_pieces(p, '/');
    lemma_join_split(p);
    let len = ps.len() as int;
    lemma_last_kept_range(ps, len);
    lemma_last_kept_after(ps, len);
    let l = last_kept(ps);
    let n = ps[l];
    assert(l >= 0 && normal(ps, l));
    assert(file_name_of(p) == Some(n));
    // the HTML side
    let html = join_path(HTML_DIR@, p);
    assert(html =~= HTML_DIR@.push('/') + p);
    assert(has_prefix(html, HTML_DIR@.push('/'))) by {
        assert(html.subrange(0, 5) =~= HTML_DIR@.push('/'));
    }
    assert(html.skip(5) =~= p);
    assert(lead_len(p, Strip::Char('/')) == 0);
    assert(trim_start(p, Strip::Char('/')) =~= p);
    assert(html != HTML_DIR@) by { assert(html.len() != HTML_DIR@.len()); }
    // the EPUB path splits into `epubs` and the segments of `p`
    let q = join_path(EPUBS_DIR@, p);
    assert(q =~= EPUBS_DIR@.push('/') + p);
    lemma_split_concat(EPUBS_DIR@, p, '/');
    lemma_split_without_sep(EPUBS_DIR@, '/');
    let qs = split_path(q);
    assert(qs == seq![EPUBS_DIR@] + ps);
    assert forall|i: int| l + 1 < i < qs.len() implies !kept(qs, i) by {
        assert(qs[i] == ps[i - 1]);
        assert(!kept(ps, i - 1));
    }
    assert(qs[l + 1] == n);
    lemma_last_kept_is(qs, qs.len() as int, l + 1);
    assert(normal(qs, l + 1));
    assert(file_name_of(p)->0 == n);
    assert(forall|j: int| 0 <= j < n.len() ==> n[j] != '.');
    lemma_no_dot(n, n.len() as int);
    assert(stem_of(n) == n);
    assert(qs.take(l + 1).push(n) =~= seq![EPUBS_DIR@] + ps.take(l + 1));
    lemma_join_cons(EPUBS_DIR@, ps.take(l + 1));
    let a = join_segs(ps.take(l + 1));
    let epub = with_extension_of(q, "epub"@);
    assert(epub == (EPUBS_DIR@.push('/') + a).push('.') + "epub"@);
    let r = a.push('.') + "epub"@;
    assert(epub =~= EPUBS_DIR@.push('/') + r);
    assert(has_prefix(epub, EPUBS_DIR@.push('/'))) by {
        assert(epub.subrange(0, 6) =~= EPUBS_DIR@.push('/'));
    }
    assert(epub != EPUBS_DIR@) by { assert(epub.len() != EPUBS_DIR@.len()); }
    assert(epub.skip(6) =~= r);
    lemma_join_prefix(ps, l + 1);
    assert(a.len() > 0 ==> a[0] == p[0]);
    assert(r[0] != '/');
    assert(lead_len(r, Strip::Char('/')) == 0);
    assert(trim_start(r, Strip::Char('/')) =~= r);
    assert(strip_dir_prefix(epub, EPUBS_DIR@) == Some(r));
    // `r` splits like the book's segments up to its file name, with `.epub`
    // on the last one
    let z = n.push('.') + "epub"@;
    let ys = ps.take(l).push(z);
    if l == 0 {
        assert(ys =~= seq![z]);
        assert(ps.take(1) =~= seq![n]);
        assert(a == n);
    } else {
        assert(ys.drop_last() =~= ps.take(l));
        assert(ps.take(l + 1).drop_last() =~= ps.take(l));
        assert(ps.take(l + 1).last() == n);
    }
    assert(join_segs(ys) =~= r);
    assert forall|i: int, j: int| 0 <= i < ys.len() && 0 <= j < ys[i].len() implies ys[i][j] != '/' by {
        if i < l {
            assert(ys[i] == ps[i]);
        } else {
            assert(ys[i] == z);
            if j < n.len() {
                assert(z[j] == n[j]);
            }
        }
    }
    lemma_split_join(ys);
    let rs = split_path(r);
    assert(rs == ys);
    assert(rs[l] == z);
    assert(z.len() == n.len() + 5);
    assert(kept(rs, l));
    lemma_last_kept_is(rs, rs.len() as int, l);
    assert(normal(rs, l));
    lemma_epub_dot(n);
    assert(stem_of(z) =~= n);
    assert(rs.take(l).push(n) =~= ps.take(l + 1));
    let w = with_extension_of(r, ""@);
    assert(w == a);
    // `a` is `p` without the segments after its file name
    let pt = ps.take(l + 1);
    assert forall|i: int, j: int| 0 <= i < pt.len() && 0 <= j < pt[i].len() implies #[trigger] pt[i][j]
        != '/' by {
        assert(pt[i] == ps[i]);
    }
    lemma_split_join(pt);
    lemma_kept_upto_take(ps, l + 1, l + 1);
    lemma_kept_upto_skip(ps, l + 1, len);
    assert(components_of(a) == components_of(p));
    if a.len() > 0 {
        assert(a.subrange(0, 1)[0] == a[0]);
    }
    assert(!has_prefix(a, seq!['/']));
    assert(p.subrange(0, 1)[0] == p[0]);
    assert(!has_prefix(p, seq!['/']));
}

} // verus!
