//! The JSON API: reading positions inside a book's sections, and moving a
//! book between a public category and its owner's private folder.

use vstd::prelude::*;
use vstd::utf8::{encode_utf8, valid_utf8, decode_utf8};
use percent_encoding::percent_decode_str;
use crate::store::StrMap;
use crate::auth::{User, UserView, private_owner_of, private_path_owner};
use crate::text::{
    lemma_split_by_len, lemma_split_concat, lemma_split_without_sep, lemma_split_pieces,
    lead_len, lemma_lead_len, chars_of, string_from_chars, trim, trim_start, trim_chars, trim_start_chars, has_prefix,
    contains, contains_chars, starts_with_chars, Strip,
};
use crate::paths::{
    split_path, kept, normal, last_kept, last_kept_below, join_segs, lemma_last_kept_range, lemma_split_join, dotdot, has_parent_dir, file_stem_of, file_name_of, parent_of, join_path, path_has_parent_dir,
    path_file_stem, path_file_name, path_parent, path_join, named_segs, is_named, lemma_named_concat,
    lemma_named_one,
};
use crate::layout::{EPUBS_DIR, HTML_DIR};

verus! {

pub struct UpdateReadPositionRequest {
    pub path: String,
    pub node_path: Vec<usize>,
    pub offset: usize,
}

#[derive(Debug)]
pub struct UpdateReadPositionResponse {
    pub success: bool,
}

pub struct GetReadPositionQuery {
    pub path: String,
}

#[derive(Debug)]
pub struct GetReadPositionResponse {
    pub node_path: Vec<usize>,
    pub offset: usize,
}

pub struct TogglePrivateRequest {
    pub book_path: String,
    pub category: Option<String>,
}

#[derive(Debug)]
pub struct TogglePrivateResponse {
    pub success: bool,
    pub is_private: bool,
    pub new_path: Option<String>,
}

/// Where the reader stopped in one section: the path of child indices from
/// the section's root node, and the offset inside that node.
pub struct ReadPosition {
    pub file_name: String,
    pub node_path: Vec<usize>,
    pub offset: usize,
}

pub struct ReadPositionView {
    pub file_name: Seq<char>,
    pub node_path: Seq<usize>,
    pub offset: usize,
}

impl View for ReadPosition {
    type V = ReadPositionView;

    open spec fn view(&self) -> ReadPositionView {
        ReadPositionView {
            file_name: self.file_name@,
            node_path: self.node_path@,
            offset: self.offset,
        }
    }
}

/// A user's reading positions in one book, keyed by section stem.
pub struct ReadPositionFileData {
    pub read_position: StrMap<ReadPosition>,
}

impl Default for ReadPositionFileData {
    fn default() -> (r: Self)
        ensures
            r.read_position@ == Map::<Seq<char>, ReadPositionView>::empty(),
    {
        ReadPositionFileData { read_position: StrMap::new() }
    }
}

pub open spec fn is_hex_byte(b: u8) -> bool {
    (48 <= b <= 57) || (65 <= b <= 70) || (97 <= b <= 102)
}

pub open spec fn hex_byte_value(b: u8) -> int {
    if b <= 57 {
        b - 48
    } else if b <= 70 {
        b - 55
    } else {
        b - 87
    }
}

/// Percent-decoding of bytes: `%` and two hexadecimal digits become the byte
/// they spell; every other byte, a lone `%` included, stays.
pub open spec fn percent_decode_bytes(b: Seq<u8>) -> Seq<u8>
    decreases b.len(),
{
    if b.len() == 0 {
        Seq::<u8>::empty()
    } else if b[0] == 37 && b.len() >= 3 && is_hex_byte(b[1]) && is_hex_byte(b[2]) {
        seq![(hex_byte_value(b[1]) * 16 + hex_byte_value(b[2])) as u8] + percent_decode_bytes(
            b.skip(3),
        )
    } else {
        seq![b[0]] + percent_decode_bytes(b.skip(1))
    }
}

/// The text a percent-encoded string stands for, if its decoded bytes are
/// UTF-8.
pub open spec fn percent_decoded(s: Seq<char>) -> Option<Seq<char>> {
    let bytes = percent_decode_bytes(encode_utf8(s));
    if valid_utf8(bytes) {
        Some(decode_utf8(bytes))
    } else {
        None
    }
}

/// `percent_encoding::percent_decode_str(s).decode_utf8()`: the UTF-8 bytes
/// of `s` percent-decoded (see `percent_decode_bytes`), read back as UTF-8;
/// `None` where they are not UTF-8.
#[verifier::external_body]
fn percent_decode_utf8(s: &str) -> (r: Option<String>)
    ensures
        match r {
            Some(d) => percent_decoded(s@) == Some(d@),
            None => percent_decoded(s@) is None,
        },
{
    percent_decode_str(s).decode_utf8().ok().map(|d| d.into_owned())
}

/// The book and section named by a decoded section path
/// `<book path>/section_<n>.<ext>` (leading slashes ignored): refused when a
/// component is `..`, when the file stem does not start with `section_`, or
/// when there is no book path before it.
pub open spec fn section_path_of(decoded: Seq<char>) -> Option<(Seq<char>, Seq<char>)> {
    let stripped = trim_start(decoded, Strip::Char('/'));
    if has_parent_dir(stripped) {
        None
    } else {
        match file_stem_of(stripped) {
            None => None,
            Some(stem) => if !has_prefix(stem, "section_"@) {
                None
            } else {
                match parent_of(stripped) {
                    None => None,
                    Some(parent) => if parent.len() == 0 {
                        None
                    } else {
                        Some((parent, stem))
                    },
                }
            },
        }
    }
}

pub open spec fn opt_pair_view(r: Option<(String, String)>) -> Option<(Seq<char>, Seq<char>)> {
    match r {
        Some((a, b)) => Some((a@, b@)),
        None => None,
    }
}

/// The book path and section stem of an already decoded section path.
pub fn parse_decoded_section_path(decoded: &str) -> (r: Option<(String, String)>)
    ensures
        opt_pair_view(r) == section_path_of(decoded@),
{
    let v = chars_of(decoded);
    let t = trim_start_chars(&v, Strip::Char('/'));
    let stripped = string_from_chars(t.as_slice());
    if path_has_parent_dir(stripped.as_str()) {
        return None;
    }
    let stem = match path_file_stem(stripped.as_str()) {
        Some(s) => s,
        None => return None,
    };
    let sc = chars_of(stem.as_str());
    let prefix = chars_of("section_");
    if !starts_with_chars(&sc, &prefix) {
        return None;
    }
    let parent = match path_parent(stripped.as_str()) {
        Some(p) => p,
        None => return None,
    };
    if parent.as_str().is_empty() {
        return None;
    }
    Some((parent, stem))
}

/// The book path and section stem of a percent-encoded section URL path.
pub fn parse_section_path(url_path: &str) -> (r: Option<(String, String)>)
    ensures
        opt_pair_view(r) == match percent_decoded(url_path@) {
            Some(d) => section_path_of(d),
            None => None,
        },
{
    match percent_decode_utf8(url_path) {
        Some(d) => parse_decoded_section_path(d.as_str()),
        None => None,
    }
}

/// Records the reading position of a section.
pub fn record_read_position(
    data: &mut ReadPositionFileData,
    section_stem: String,
    node_path: Vec<usize>,
    offset: usize,
)
    ensures
        final(data).read_position@ == old(data).read_position@.insert(
            section_stem@,
            ReadPositionView { file_name: section_stem@, node_path: node_path@, offset },
        ),
{
    let pos = ReadPosition { file_name: section_stem.clone(), node_path, offset };
    data.read_position.insert(section_stem, pos);
}

/// The node path and offset a position query answers: those recorded for
/// the section, or the start (no node path, offset 0).
pub open spec fn position_reply(
    positions: Map<Seq<char>, ReadPositionView>,
    section_stem: Seq<char>,
) -> (Seq<usize>, usize) {
    if positions.contains_key(section_stem) {
        (positions[section_stem].node_path, positions[section_stem].offset)
    } else {
        (Seq::<usize>::empty(), 0)
    }
}

/// The answer to a position query: the recorded position of the section, or
/// the start (no node path, offset 0).
pub fn read_position_reply(data: &ReadPositionFileData, section_stem: &str) -> (r:
    GetReadPositionResponse)
    ensures
        (r.node_path@, r.offset) == position_reply(data.read_position@, section_stem@),
{
    match data.read_position.get(section_stem) {
        Some(pos) => {
            let np = pos.node_path.clone();
            assert(np@ =~= pos.node_path@);
            GetReadPositionResponse { node_path: np, offset: pos.offset }
        },
        None => {
            let r = start_position();
            assert(r.node_path@ =~= Seq::<usize>::empty());
            r
        },
    }
}

/// A recorded reading position is what a later query for that section
/// answers; queries for other sections answer as before.
pub proof fn law_position_read_back(
    positions: Map<Seq<char>, ReadPositionView>,
    section_stem: Seq<char>,
    node_path: Seq<usize>,
    offset: usize,
    other: Seq<char>,
)
    ensures
        ({
            let after = positions.insert(
                section_stem,
                ReadPositionView { file_name: section_stem, node_path, offset },
            );
            &&& position_reply(after, section_stem) == (node_path, offset)
            &&& other != section_stem ==> position_reply(after, other) == position_reply(
                positions,
                other,
            )
        }),
{
}

/// The position at the start of a section.
pub fn start_position() -> (r: GetReadPositionResponse)
    ensures
        r.node_path@.len() == 0,
        r.offset == 0,
{
    GetReadPositionResponse { node_path: Vec::new(), offset: 0 }
}

/// How an update of a reading position ended.
pub enum UpdateOutcome {
    /// The section path could not be parsed.
    BadPath,
    /// The positions file could not be written.
    SaveFailed,
    /// The position was stored.
    Saved,
}

/// The HTTP status and body that answer an update.
pub fn update_reply(outcome: UpdateOutcome) -> (r: (u16, UpdateReadPositionResponse))
    ensures
        match outcome {
            UpdateOutcome::BadPath => r.0 == 400 && !r.1.success,
            UpdateOutcome::SaveFailed => r.0 == 500 && !r.1.success,
            UpdateOutcome::Saved => r.0 == 200 && r.1.success,
        },
{
    match outcome {
        UpdateOutcome::BadPath => (400, UpdateReadPositionResponse { success: false }),
        UpdateOutcome::SaveFailed => (500, UpdateReadPositionResponse { success: false }),
        UpdateOutcome::Saved => (200, UpdateReadPositionResponse { success: true }),
    }
}

pub open spec fn opt_view(o: Option<String>) -> Option<Seq<char>> {
    match o {
        Some(s) => Some(s@),
        None => None,
    }
}

/// The book path a toggle request names: slashes at both ends removed;
/// refused when empty or when it holds `..`.
pub open spec fn toggle_key_of(raw: Seq<char>) -> Option<Seq<char>> {
    let p = trim(raw, Strip::Char('/'));
    if contains(p, ".."@) || p.len() == 0 {
        None
    } else {
        Some(p)
    }
}

/// The category a book is made public into: white space, then slashes,
/// trimmed from the request's category (none counts as empty).
pub open spec fn category_of(category: Option<Seq<char>>) -> Seq<char> {
    let c = match category {
        Some(c) => c,
        None => Seq::<char>::empty(),
    };
    trim(trim(c, Strip::Whitespace), Strip::Char('/'))
}

/// The file name of a book path (empty when it has none).
pub open spec fn book_name_of(book_path: Seq<char>) -> Seq<char> {
    match file_name_of(book_path) {
        Some(n) => n,
        None => Seq::<char>::empty(),
    }
}

/// Where a toggle moves a book: a private book goes to
/// `<category>/<name>` (`None` when the category is empty or holds `..`), a
/// public one to `private/<owner>/<name>`.
pub open spec fn toggled_path(
    book_path: Seq<char>,
    category: Option<Seq<char>>,
    owner: Seq<char>,
) -> Option<Seq<char>> {
    let name = book_name_of(book_path);
    if private_owner_of(book_path) is Some {
        let c = category_of(category);
        if c.len() == 0 || contains(c, ".."@) {
            None
        } else {
            Some(c.push('/') + name)
        }
    } else {
        Some("private/"@ + owner.push('/') + name)
    }
}

/// A refused toggle: the HTTP status and the body.
#[derive(Debug)]
pub struct ToggleRefusal {
    pub status: u16,
    pub response: TogglePrivateResponse,
}

/// The file moves a granted toggle makes.
#[derive(Debug)]
pub struct ToggleMove {
    /// The book's path before the move.
    pub book_path: String,
    /// The book's path after the move.
    pub new_book_path: String,
    /// Whether the book is private after the move.
    pub new_is_private: bool,
    /// Whether the book is private before the move.
    pub currently_private: bool,
    /// The EPUB file before the move.
    pub old_epub: String,
    /// The EPUB file after the move.
    pub new_epub: String,
    /// The directory to create for the moved EPUB, if it has one.
    pub new_epub_dir: Option<String>,
    /// The extracted HTML of the book, to be removed.
    pub old_html: String,
}

/// Who may move a book between a category and the private area: its
/// recorded uploader and administrators.
pub open spec fn may_toggle(owner: Option<Seq<char>>, user: UserView) -> bool {
    owner == Some(user.username) || user.is_admin
}

/// Validates the book path of a toggle request.
pub fn toggle_book_path(raw: &str) -> (r: Result<String, ToggleRefusal>)
    ensures
        match r {
            Ok(p) => toggle_key_of(raw@) == Some(p@),
            Err(e) => toggle_key_of(raw@) is None && e.status == 400 && !e.response.success
                && !e.response.is_private && e.response.new_path is None,
        },
{
    let v = chars_of(raw);
    let p = trim_chars(&v, Strip::Char('/'));
    let dd = chars_of("..");
    if contains_chars(&p, &dd) || p.len() == 0 {
        return Err(
            ToggleRefusal {
                status: 400,
                response: TogglePrivateResponse { success: false, is_private: false, new_path: None },
            },
        );
    }
    Ok(string_from_chars(p.as_slice()))
}

/// Decides a toggle of `book_path` (already validated) requested by `user`,
/// given the book's recorded `owner`: only the owner or an administrator may
/// toggle; making a book public needs a valid category.
pub fn plan_toggle_private(
    book_path: &str,
    category: Option<String>,
    owner: Option<String>,
    user: &User,
) -> (r: Result<ToggleMove, ToggleRefusal>)
    ensures
        ({
            let allowed = may_toggle(opt_view(owner), user@);
            let acting = match owner {
                Some(o) => o@,
                None => user.username@,
            };
            let private_now = private_owner_of(book_path@) is Some;
            match r {
                Err(e) => {
                    &&& !e.response.success
                    &&& e.response.new_path is None
                    &&& !allowed ==> e.status == 403 && !e.response.is_private
                    &&& allowed ==> e.status == 400 && e.response.is_private && toggled_path(
                        book_path@,
                        opt_view(category),
                        acting,
                    ) is None
                },
                Ok(m) => {
                    &&& allowed
                    &&& toggled_path(book_path@, opt_view(category), acting) == Some(
                        m.new_book_path@,
                    )
                    &&& m.book_path@ == book_path@
                    &&& m.currently_private == private_now
                    &&& m.new_is_private == !private_now
                    &&& m.old_epub@ == join_path(EPUBS_DIR@, book_path@ + ".epub"@)
                    &&& m.new_epub@ == join_path(EPUBS_DIR@, m.new_book_path@ + ".epub"@)
                    &&& opt_view(m.new_epub_dir) == parent_of(m.new_epub@)
                    &&& m.old_html@ == join_path(HTML_DIR@, book_path@)
                },
            }
        }),
{
    let is_owner = match &owner {
        Some(o) => *o == user.username,
        None => false,
    };
    if !(is_owner || user.is_admin) {
        return Err(
            ToggleRefusal {
                status: 403,
                response: TogglePrivateResponse { success: false, is_private: false, new_path: None },
            },
        );
    }
    let acting = match owner {
        Some(o) => o,
        None => user.username.clone(),
    };
    let currently_private = private_path_owner(book_path).is_some();
    let book_name = match path_file_name(book_path) {
        Some(n) => n,
        None => String::new(),
    };
    let new_book_path = if currently_private {
        let c = match category {
            Some(c) => c,
            None => String::new(),
        };
        let cv = chars_of(c.as_str());
        let c1 = trim_chars(&cv, Strip::Whitespace);
        let c2 = trim_chars(&c1, Strip::Char('/'));
        let dd = chars_of("..");
        if c2.len() == 0 || contains_chars(&c2, &dd) {
            return Err(
                ToggleRefusal {
                    status: 400,
                    response: TogglePrivateResponse {
                        success: false,
                        is_private: true,
                        new_path: None,
                    },
                },
            );
        }
        let mut np = string_from_chars(c2.as_slice());
        np.append("/");
        np.append(book_name.as_str());
        proof {
            reveal_strlit("/");
            assert("/"@ =~= seq!['/']);
        }
        np
    } else {
        let mut np = String::from_str("private/");
        np.append(acting.as_str());
        np.append("/");
        np.append(book_name.as_str());
        proof {
            reveal_strlit("/");
            assert("/"@ =~= seq!['/']);
        }
        np
    };
    let mut old_file = String::from_str(book_path);
    old_file.append(".epub");
    let old_epub = path_join(EPUBS_DIR, old_file.as_str());
    let mut new_file = new_book_path.clone();
    new_file.append(".epub");
    let new_epub = path_join(EPUBS_DIR, new_file.as_str());
    let new_epub_dir = path_parent(new_epub.as_str());
    let old_html = path_join(HTML_DIR, book_path);
    Ok(
        ToggleMove {
            book_path: String::from_str(book_path),
            new_book_path,
            new_is_private: !currently_private,
            currently_private,
            old_epub,
            new_epub,
            new_epub_dir,
            old_html,
        },
    )
}

/// The answer to a granted toggle, given whether the EPUB was moved (its
/// directory created and the file renamed).
pub fn toggle_reply(m: &ToggleMove, moved: bool) -> (r: (u16, TogglePrivateResponse))
    ensures
        moved ==> r.0 == 200 && r.1.success && r.1.is_private == m.new_is_private && opt_view(
            r.1.new_path,
        ) == Some(m.new_book_path@),
        !moved ==> r.0 == 500 && !r.1.success && r.1.is_private == m.currently_private
            && r.1.new_path is None,
{
    if moved {
        (
            200,
            TogglePrivateResponse {
                success: true,
                is_private: m.new_is_private,
                new_path: Some(m.new_book_path.clone()),
            },
        )
    } else {
        (500, TogglePrivateResponse { success: false, is_private: m.currently_private, new_path: None })
    }
}

/// The file name of a path has no `/`.
proof fn lemma_name_no_slash(p: Seq<char>)
    ensures
        forall|j: int| 0 <= j < book_name_of(p).len() ==> book_name_of(p)[j] != '/',
{
    lemma_split_pieces(p, '/');
    lemma_split_by_len(p, '/');
    let segs = split_path(p);
    lemma_last_kept_range(segs, segs.len() as int);
    let l = last_kept(segs);
    if l >= 0 && normal(segs, l) {
        assert(book_name_of(p) == segs[l]);
    }
}

pub open spec fn no_slash(s: Seq<char>) -> bool {
    forall|j: int| 0 <= j < s.len() ==> s[j] != '/'
}

/// The first named segment of `c` is `private`: a book put under `c` lands
/// in the private area.
pub open spec fn leads_into_private(c: Seq<char>) -> bool {
    let ns = named_segs(split_path(c));
    ns.len() > 0 && ns[0] == "private"@
}

/// `private/<owner>/<rest>` splits into `private`, the pieces of `owner`,
/// and the pieces of `rest`.
proof fn lemma_private_split(owner: Seq<char>, rest: Seq<char>)
    ensures
        split_path("private/"@ + owner.push('/') + rest) == seq!["private"@] + split_path(owner)
            + split_path(rest),
        named_segs(split_path("private/"@ + owner.push('/') + rest)) == seq!["private"@]
            + named_segs(split_path(owner)) + named_segs(split_path(rest)),
{
    reveal_strlit("private/");
    reveal_strlit("private");
    let pv = "private"@;
    assert("private/"@ =~= pv.push('/'));
    assert("private/"@ + owner.push('/') + rest =~= pv.push('/') + (owner.push('/') + rest));
    lemma_split_concat(pv, owner.push('/') + rest, '/');
    lemma_split_concat(owner, rest, '/');
    lemma_split_without_sep(pv, '/');
    let a = seq![pv];
    let b = split_path(owner);
    let c = split_path(rest);
    assert(a + (b + c) =~= a + b + c);
    lemma_named_concat(a + b, c);
    lemma_named_concat(a, b);
    lemma_named_one(pv);
    assert(is_named(pv));
}

/// A path whose last segment is a normal name has that name as file name.
proof fn lemma_file_name_last(segs: Seq<Seq<char>>, p: Seq<char>)
    requires
        split_path(p) == segs,
        segs.len() >= 1,
        is_named(segs.last()),
        segs.last() != dotdot(),
    ensures
        file_name_of(p) == Some(segs.last()),
        book_name_of(p) == segs.last(),
{
    let l = segs.len() - 1;
    assert(kept(segs, l));
    assert(last_kept(segs) == l);
    assert(normal(segs, l));
}

/// Any path `private/<owner>/...` lies in the private folder of `owner`,
/// for an owner name that is a single named segment (not empty, not `.`,
/// no `/`).
pub proof fn lemma_private_prefix(owner: Seq<char>, rest: Seq<char>)
    requires
        is_named(owner),
        no_slash(owner),
    ensures
        private_owner_of("private/"@ + owner.push('/') + rest) == Some(owner),
{
    lemma_private_split(owner, rest);
    lemma_split_without_sep(owner, '/');
    lemma_named_one(owner);
    reveal_strlit("private");
}

/// Toggling a public book makes it private to its owner: the new path lies
/// in the private folder of that owner (for an owner name that is a single
/// named segment, as account names are unless one is `.`).
pub proof fn law_toggle_makes_private(
    book_path: Seq<char>,
    category: Option<Seq<char>>,
    owner: Seq<char>,
)
    requires
        private_owner_of(book_path) is None,
        is_named(owner),
        no_slash(owner),
    ensures
        toggled_path(book_path, category, owner) matches Some(np) && private_owner_of(np) == Some(
            owner,
        ),
{
    let name = book_name_of(book_path);
    assert(toggled_path(book_path, category, owner) == Some("private/"@ + owner.push('/') + name));
    lemma_private_prefix(owner, name);
}

/// Toggling a private book into a category makes it public again, for any
/// category that does not itself lead into the private area.
pub proof fn law_toggle_makes_public(
    book_path: Seq<char>,
    category: Option<Seq<char>>,
    owner: Seq<char>,
)
    requires
        private_owner_of(book_path) is Some,
        !leads_into_private(category_of(category)),
        toggled_path(book_path, category, owner) is Some,
    ensures
        private_owner_of(toggled_path(book_path, category, owner)->0) is None,
{
    let c = category_of(category);
    let name = book_name_of(book_path);
    lemma_name_no_slash(book_path);
    let np = c.push('/') + name;
    assert(toggled_path(book_path, category, owner) == Some(np));
    lemma_split_concat(c, name, '/');
    lemma_split_without_sep(name, '/');
    lemma_named_concat(split_path(c), seq![name]);
    lemma_named_one(name);
}

/// Toggling a public book out of category `c` and back into `c` returns it
/// to where it was: `c/<name>` goes to `private/<owner>/<name>` and back to
/// `c/<name>`, whoever asks the second time.
pub proof fn law_toggle_round_trip(c: Seq<char>, name: Seq<char>, owner: Seq<char>, other: Seq<char>)
    requires
        category_of(Some(c)) == c,
        c.len() > 0,
        !contains(c, ".."@),
        private_owner_of(c.push('/') + name) is None,
        is_named(name),
        name != dotdot(),
        no_slash(name),
    ensures
        toggled_path(c.push('/') + name, Some(c), owner) matches Some(q) && toggled_path(
            q,
            Some(c),
            other,
        ) == Some(c.push('/') + name),
{
    reveal_strlit("private");
    let bp = c.push('/') + name;
    lemma_split_by_len(c, '/');
    lemma_split_concat(c, name, '/');
    lemma_split_without_sep(name, '/');
    let segs = split_path(bp);
    assert(segs == split_path(c) + seq![name]);
    lemma_file_name_last(segs, bp);
    let q = "private/"@ + owner.push('/') + name;
    assert(toggled_path(bp, Some(c), owner) == Some(q));
    lemma_private_split(owner, name);
    let qs = split_path(q);
    assert(qs == seq!["private"@] + split_path(owner) + seq![name]);
    assert(qs.last() == name);
    lemma_file_name_last(qs, q);
    lemma_named_one(name);
    let ns = named_segs(qs);
    assert(ns == seq!["private"@] + named_segs(split_path(owner)) + seq![name]);
    assert(ns[0] == "private"@);
    assert(ns.len() >= 2);
    assert(private_owner_of(q) is Some);
}

/// A section path never names a book outside the library: the book path it
/// yields has no `..` component, and the section stem starts with
/// `section_`.
pub proof fn law_section_path_stays_inside(decoded: Seq<char>)
    requires
        section_path_of(decoded) is Some,
    ensures
        section_path_of(decoded) matches Some(p) && !has_parent_dir(p.0) && has_prefix(
            p.1,
            "section_"@,
        ),
{
    let stripped = trim_start(decoded, Strip::Char('/'));
    let segs = split_path(stripped);
    let book = section_path_of(decoded).unwrap().0;
    lemma_split_by_len(stripped, '/');
    lemma_split_pieces(stripped, '/');
    lemma_last_kept_range(segs, segs.len() as int);
    let l = last_kept(segs);
    lemma_last_kept_range(segs, l);
    let k = last_kept_below(segs, l);
    if k >= 0 {
        let xs = segs.take(k + 1);
        assert forall|i: int, j: int| 0 <= i < xs.len() && 0 <= j < xs[i].len() implies xs[i][j] != '/' by {
            assert(xs[i] == segs[i]);
        }
        lemma_split_join(xs);
        assert(book == join_segs(xs));
        assert forall|i: int| 0 <= i < xs.len() implies xs[i] != dotdot() by {
            assert(xs[i] == segs[i]);
        }
    } else if stripped.len() > 0 && stripped[0] == '/' {
        lemma_lead_len(decoded, Strip::Char('/'));
        assert(stripped[0] == decoded[lead_len(decoded, Strip::Char('/')) as int]);
        assert(false);
    } else {
        assert(book == Seq::<char>::empty());
    }
}

} // verus!
