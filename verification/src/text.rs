//! Character-level helpers. Strings are handled as sequences of `char`: the
//! view of a `String` or `&str` is its `Seq<char>`.

use vstd::prelude::*;

verus! {

/// The characters of `s`, in order.
pub fn chars_of(s: &str) -> (r: Vec<char>)
    ensures
        r@ == s@,
{
    let mut r: Vec<char> = Vec::new();
    for c in it: s.chars()
        invariant
            r@ == it.seq().take(it.index() as int),
            it.seq() == s@,
    {
        r.push(c);
    }
    r
}

/// Collects characters into a `String` (std's `FromIterator<char>` for
/// `String`): the result holds exactly these characters, in order.
#[verifier::external_body]
pub(crate) fn string_from_chars(v: &[char]) -> (r: String)
    ensures
        r@ == v@,
{
    v.iter().collect()
}

/// Unicode `White_Space`, the property behind `char::is_whitespace`.
pub open spec fn is_ws(c: char) -> bool {
    let u = c as u32;
    ||| (0x09 <= u && u <= 0x0d)
    ||| u == 0x20
    ||| u == 0x85
    ||| u == 0xa0
    ||| u == 0x1680
    ||| (0x2000 <= u && u <= 0x200a)
    ||| u == 0x2028
    ||| u == 0x2029
    ||| u == 0x202f
    ||| u == 0x205f
    ||| u == 0x3000
}

/// `char::is_whitespace`.
pub fn is_whitespace(c: char) -> (r: bool)
    ensures
        r == is_ws(c),
{
    let u = c as u32;
    (0x09 <= u && u <= 0x0d) || u == 0x20 || u == 0x85 || u == 0xa0 || u == 0x1680 || (0x2000
        <= u && u <= 0x200a) || u == 0x2028 || u == 0x2029 || u == 0x202f || u == 0x205f || u
        == 0x3000
}

/// Which characters a trim removes: white space, or one given character.
pub enum Strip {
    Whitespace,
    Char(char),
}

pub open spec fn strips(p: Strip, c: char) -> bool {
    match p {
        Strip::Whitespace => is_ws(c),
        Strip::Char(x) => c == x,
    }
}

/// Number of leading characters of `s` that `p` strips.
pub open spec fn lead_len(s: Seq<char>, p: Strip) -> nat
    decreases s.len(),
{
    if s.len() > 0 && strips(p, s[0]) {
        1 + lead_len(s.drop_first(), p)
    } else {
        0
    }
}

/// Number of trailing characters of `s` that `p` strips.
pub open spec fn trail_len(s: Seq<char>, p: Strip) -> nat
    decreases s.len(),
{
    if s.len() > 0 && strips(p, s.last()) {
        1 + trail_len(s.drop_last(), p)
    } else {
        0
    }
}

/// `str::trim_start_matches`.
pub open spec fn trim_start(s: Seq<char>, p: Strip) -> Seq<char> {
    s.subrange(lead_len(s, p) as int, s.len() as int)
}

/// `str::trim_end_matches`.
pub open spec fn trim_end(s: Seq<char>, p: Strip) -> Seq<char> {
    s.subrange(0, s.len() - trail_len(s, p))
}

/// `str::trim_matches` (and `str::trim` for white space).
pub open spec fn trim(s: Seq<char>, p: Strip) -> Seq<char> {
    trim_end(trim_start(s, p), p)
}

pub proof fn lemma_lead_len(s: Seq<char>, p: Strip)
    ensures
        lead_len(s, p) <= s.len(),
        forall|i: int| 0 <= i < lead_len(s, p) ==> strips(p, #[trigger] s[i]),
        lead_len(s, p) < s.len() ==> !strips(p, s[lead_len(s, p) as int]),
    decreases s.len(),
{
    if s.len() > 0 && strips(p, s[0]) {
        lemma_lead_len(s.drop_first(), p);
        assert forall|i: int| 0 <= i < lead_len(s, p) implies strips(p, #[trigger] s[i]) by {
            if i > 0 {
                assert(s[i] == s.drop_first()[i - 1]);
            }
        }
    }
}

proof fn lemma_lead_len_unique(s: Seq<char>, p: Strip, n: int)
    requires
        0 <= n <= s.len(),
        forall|i: int| 0 <= i < n ==> strips(p, #[trigger] s[i]),
        n < s.len() ==> !strips(p, s[n]),
    ensures
        lead_len(s, p) == n,
    decreases s.len(),
{
    if n > 0 {
        assert(strips(p, s[0]));
        assert forall|i: int| 0 <= i < n - 1 implies strips(p, #[trigger] s.drop_first()[i]) by {
            assert(s.drop_first()[i] == s[i + 1]);
        }
        lemma_lead_len_unique(s.drop_first(), p, n - 1);
    }
}

proof fn lemma_trail_len_unique(s: Seq<char>, p: Strip, n: int)
    requires
        0 <= n <= s.len(),
        forall|i: int| s.len() - n <= i < s.len() ==> strips(p, #[trigger] s[i]),
        n < s.len() ==> !strips(p, s[s.len() - n - 1]),
    ensures
        trail_len(s, p) == n,
    decreases s.len(),
{
    if n > 0 {
        assert(strips(p, s[s.len() - 1]));
        assert forall|i: int|
            s.drop_last().len() - (n - 1) <= i < s.drop_last().len() implies strips(
            p,
            #[trigger] s.drop_last()[i],
        ) by {
            assert(s.drop_last()[i] == s[i]);
        }
        lemma_trail_len_unique(s.drop_last(), p, n - 1);
    }
}

/// Index of the first character at or after `from` that `p` does not strip.
fn skip_forward(s: &Vec<char>, p: &Strip, from: usize) -> (r: usize)
    requires
        from <= s.len(),
    ensures
        from <= r <= s.len(),
        forall|i: int| from <= i < r ==> strips(*p, #[trigger] s@[i]),
        r < s.len() ==> !strips(*p, s@[r as int]),
{
    let mut i = from;
    while i < s.len()
        invariant
            from <= i <= s.len(),
            forall|j: int| from <= j < i ==> strips(*p, #[trigger] s@[j]),
        decreases s.len() - i,
    {
        let hit = match p {
            Strip::Whitespace => is_whitespace(s[i]),
            Strip::Char(x) => s[i] == *x,
        };
        if !hit {
            return i;
        }
        i = i + 1;
    }
    i
}

/// Index just past the last character before `to` that `p` does not strip,
/// looking no further back than `from`.
fn skip_backward(s: &Vec<char>, p: &Strip, from: usize, to: usize) -> (r: usize)
    requires
        from <= to <= s.len(),
    ensures
        from <= r <= to,
        forall|i: int| r <= i < to ==> strips(*p, #[trigger] s@[i]),
        r > from ==> !strips(*p, s@[r - 1]),
{
    let mut i = to;
    while i > from
        invariant
            from <= i <= to,
            to <= s.len(),
            forall|j: int| i <= j < to ==> strips(*p, #[trigger] s@[j]),
        decreases i,
    {
        let hit = match p {
            Strip::Whitespace => is_whitespace(s[i - 1]),
            Strip::Char(x) => s[i - 1] == *x,
        };
        if !hit {
            return i;
        }
        i = i - 1;
    }
    i
}

/// Copies `s[from..to]`.
pub fn slice_chars(s: &Vec<char>, from: usize, to: usize) -> (r: Vec<char>)
    requires
        from <= to <= s.len(),
    ensures
        r@ == s@.subrange(from as int, to as int),
{
    let mut r: Vec<char> = Vec::new();
    let mut i = from;
    while i < to
        invariant
            from <= i <= to <= s.len(),
            r@ == s@.subrange(from as int, i as int),
        decreases to - i,
    {
        r.push(s[i]);
        i = i + 1;
    }
    r
}

/// Removes what `p` strips from the start of `s`.
pub fn trim_start_chars(s: &Vec<char>, p: Strip) -> (r: Vec<char>)
    ensures
        r@ == trim_start(s@, p),
{
    let lo = skip_forward(s, &p, 0);
    proof {
        lemma_lead_len_unique(s@, p, lo as int);
    }
    slice_chars(s, lo, s.len())
}

/// Removes what `p` strips from both ends of `s`.
pub fn trim_chars(s: &Vec<char>, p: Strip) -> (r: Vec<char>)
    ensures
        r@ == trim(s@, p),
{
    let lo = skip_forward(s, &p, 0);
    let hi = skip_backward(s, &p, lo, s.len());
    proof {
        lemma_lead_len_unique(s@, p, lo as int);
        let t = trim_start(s@, p);
        assert(t == s@.subrange(lo as int, s@.len() as int));
        assert forall|i: int| t.len() - (s@.len() - hi) <= i < t.len() implies strips(
            p,
            #[trigger] t[i],
        ) by {
            assert(t[i] == s@[lo + i]);
        }
        if s@.len() - hi < t.len() {
            assert(t[t.len() - (s@.len() - hi) - 1] == s@[hi - 1]);
        }
        lemma_trail_len_unique(t, p, s@.len() - hi);
        assert(trim(s@, p) =~= s@.subrange(lo as int, hi as int));
    }
    slice_chars(s, lo, hi)
}

/// `str::trim`: white space removed from both ends.
pub fn trim_whitespace(s: &str) -> (r: String)
    ensures
        r@ == trim(s@, Strip::Whitespace),
{
    let v = chars_of(s);
    let t = trim_chars(&v, Strip::Whitespace);
    string_from_chars(t.as_slice())
}

/// `str::trim_matches(c)`: every `c` removed from both ends.
pub fn trim_char(s: &str, c: char) -> (r: String)
    ensures
        r@ == trim(s@, Strip::Char(c)),
{
    let v = chars_of(s);
    let t = trim_chars(&v, Strip::Char(c));
    string_from_chars(t.as_slice())
}

/// `s` begins with `t`.
pub open spec fn has_prefix(s: Seq<char>, t: Seq<char>) -> bool {
    t.len() <= s.len() && s.subrange(0, t.len() as int) == t
}

/// `s` ends with `t`.
pub open spec fn has_suffix(s: Seq<char>, t: Seq<char>) -> bool {
    t.len() <= s.len() && s.subrange(s.len() - t.len(), s.len() as int) == t
}

/// `t` occurs in `s` at position `i`.
pub open spec fn occurs_at(s: Seq<char>, t: Seq<char>, i: int) -> bool {
    0 <= i && i + t.len() <= s.len() && s.subrange(i, i + t.len()) == t
}

/// `str::contains` with a string pattern.
pub open spec fn contains(s: Seq<char>, t: Seq<char>) -> bool {
    exists|i: int| occurs_at(s, t, i)
}

fn matches_at(s: &Vec<char>, t: &Vec<char>, i: usize) -> (r: bool)
    ensures
        r == occurs_at(s@, t@, i as int),
{
    if i > s.len() || t.len() > s.len() - i {
        return false;
    }
    let mut k: usize = 0;
    while k < t.len()
        invariant
            i + t.len() <= s.len(),
            k <= t.len(),
            forall|j: int| 0 <= j < k ==> s@[i + j] == t@[j],
        decreases t.len() - k,
    {
        if s[i + k] != t[k] {
            assert(s@.subrange(i as int, i + t.len())[k as int] != t@[k as int]);
            return false;
        }
        k = k + 1;
    }
    assert(s@.subrange(i as int, i + t.len()) =~= t@);
    true
}

/// `str::starts_with`.
pub fn starts_with_chars(s: &Vec<char>, t: &Vec<char>) -> (r: bool)
    ensures
        r == has_prefix(s@, t@),
{
    let r = matches_at(s, t, 0);
    assert(r == occurs_at(s@, t@, 0));
    r
}

/// `str::ends_with`.
pub fn ends_with_chars(s: &Vec<char>, t: &Vec<char>) -> (r: bool)
    ensures
        r == has_suffix(s@, t@),
{
    if t.len() > s.len() {
        return false;
    }
    matches_at(s, t, s.len() - t.len())
}

/// `str::contains` with a string pattern.
pub fn contains_chars(s: &Vec<char>, t: &Vec<char>) -> (r: bool)
    ensures
        r == contains(s@, t@),
{
    if t.len() == 0 {
        assert(s@.subrange(0, 0) =~= t@);
        assert(occurs_at(s@, t@, 0));
        return true;
    }
    let mut i: usize = 0;
    while i < s.len()
        invariant
            t@.len() > 0,
            i <= s.len(),
            forall|j: int| 0 <= j < i ==> !occurs_at(s@, t@, j),
        decreases s.len() - i,
    {
        if matches_at(s, t, i) {
            return true;
        }
        i = i + 1;
    }
    assert forall|j: int| !occurs_at(s@, t@, j) by {
        if j >= i {
            assert(j + t@.len() > s@.len());
        }
    }
    false
}

/// Equality of character sequences.
pub fn chars_eq(s: &Vec<char>, t: &Vec<char>) -> (r: bool)
    ensures
        r == (s@ == t@),
{
    if s.len() != t.len() {
        return false;
    }
    let r = matches_at(s, t, 0);
    assert(r ==> s@ =~= s@.subrange(0, t@.len() as int));
    assert(!r ==> s@.subrange(0, t@.len() as int) =~= s@);
    r
}

/// `str::split(sep)`: at least one piece, empty ones included.
pub open spec fn split_by(p: Seq<char>, sep: char) -> Seq<Seq<char>>
    decreases p.len(),
{
    if p.len() == 0 {
        seq![Seq::<char>::empty()]
    } else {
        let rest = split_by(p.drop_last(), sep);
        if p.last() == sep {
            rest.push(Seq::<char>::empty())
        } else {
            rest.update(rest.len() - 1, rest.last().push(p.last()))
        }
    }
}

pub proof fn lemma_split_by_len(p: Seq<char>, sep: char)
    ensures
        split_by(p, sep).len() >= 1,
    decreases p.len(),
{
    if p.len() > 0 {
        lemma_split_by_len(p.drop_last(), sep);
    }
}

/// The views of a list of character vectors.
pub open spec fn views(v: Seq<Vec<char>>) -> Seq<Seq<char>> {
    v.map_values(|x: Vec<char>| x@)
}

/// `str::split(sep)` on characters.
pub fn split_chars(p: &Vec<char>, sep: char) -> (r: Vec<Vec<char>>)
    ensures
        views(r@) == split_by(p@, sep),
{
    let mut done: Vec<Vec<char>> = Vec::new();
    let mut cur: Vec<char> = Vec::new();
    let mut i: usize = 0;
    assert(p@.take(0) =~= Seq::<char>::empty());
    while i < p.len()
        invariant
            i <= p.len(),
            views(done@).push(cur@) == split_by(p@.take(i as int), sep),
        decreases p.len() - i,
    {
        let c = p[i];
        proof {
            lemma_split_by_len(p@.take(i as int), sep);
            assert(p@.take(i + 1).drop_last() =~= p@.take(i as int));
            assert(p@.take(i + 1).last() == c);
        }
        if c == sep {
            let old_cur = cur;
            done.push(old_cur);
            cur = Vec::new();
            assert(views(done@).push(cur@) =~= split_by(p@.take(i + 1), sep));
        } else {
            let ghost before = views(done@).push(cur@);
            cur.push(c);
            assert(views(done@).push(cur@) =~= before.update(
                before.len() - 1,
                before.last().push(c),
            ));
        }
        i = i + 1;
    }
    done.push(cur);
    assert(p@.take(p@.len() as int) =~= p@);
    assert(views(done@) =~= split_by(p@, sep));
    done
}

/// Splitting text without the separator gives the text itself.
pub proof fn lemma_split_without_sep(p: Seq<char>, sep: char)
    requires
        forall|i: int| 0 <= i < p.len() ==> p[i] != sep,
    ensures
        split_by(p, sep) == seq![p],
    decreases p.len(),
{
    if p.len() > 0 {
        lemma_split_without_sep(p.drop_last(), sep);
        assert(p.drop_last().push(p.last()) =~= p);
    } else {
        assert(p =~= Seq::<char>::empty());
    }
}

/// Splitting at a separator splits both sides.
pub proof fn lemma_split_concat(x: Seq<char>, y: Seq<char>, sep: char)
    ensures
        split_by(x.push(sep) + y, sep) == split_by(x, sep) + split_by(y, sep),
    decreases y.len(),
{
    lemma_split_by_len(x, sep);
    if y.len() == 0 {
        assert(x.push(sep) + y =~= x.push(sep));
        assert(x.push(sep).drop_last() =~= x);
    } else {
        let y2 = y.drop_last();
        lemma_split_concat(x, y2, sep);
        lemma_split_by_len(y2, sep);
        let z = x.push(sep) + y;
        assert(z.drop_last() =~= x.push(sep) + y2);
        assert(z.last() == y.last());
        if y.last() == sep {
            assert(split_by(z, sep) =~= split_by(x, sep) + split_by(y, sep));
        } else {
            assert(split_by(z, sep) =~= split_by(x, sep) + split_by(y, sep));
        }
    }
}

/// No piece of a split holds the separator.
pub proof fn lemma_split_pieces(p: Seq<char>, sep: char)
    ensures
        forall|i: int, j: int|
            0 <= i < split_by(p, sep).len() && 0 <= j < split_by(p, sep)[i].len() ==> split_by(
                p,
                sep,
            )[i][j] != sep,
    decreases p.len(),
{
    if p.len() > 0 {
        lemma_split_pieces(p.drop_last(), sep);
        lemma_split_by_len(p.drop_last(), sep);
    }
}

/// Trimming text that starts and ends with characters `p` keeps leaves it
/// unchanged.
pub proof fn lemma_trim_noop(s: Seq<char>, p: Strip)
    requires
        s.len() > 0,
        !strips(p, s[0]),
        !strips(p, s.last()),
    ensures
        trim(s, p) == s,
{
    assert(lead_len(s, p) == 0);
    let t = trim_start(s, p);
    assert(t =~= s);
    assert(trail_len(t, p) == 0);
    assert(trim(s, p) =~= s);
}

/// Trimming `/` from text followed by one `/` gives the text back, when
/// the text neither starts nor ends with `/`.
pub proof fn lemma_trim_trailing_slash(t: Seq<char>)
    requires
        t.len() > 0,
        t[0] != '/',
        t.last() != '/',
    ensures
        trim(t.push('/'), Strip::Char('/')) == t,
{
    let p = Strip::Char('/');
    let s = t.push('/');
    assert(lead_len(s, p) == 0);
    let u = trim_start(s, p);
    assert(u =~= s);
    assert(s.drop_last() =~= t);
    assert(trail_len(t, p) == 0);
    assert(trail_len(s, p) == 1);
    assert(trim(s, p) =~= t);
}

/// Text contains a one-character string exactly when that character
/// occurs in it.
pub proof fn lemma_contains_char(s: Seq<char>, c: char)
    ensures
        contains(s, seq![c]) <==> exists|i: int| 0 <= i < s.len() && s[i] == c,
{
    if contains(s, seq![c]) {
        let i = choose|i: int| occurs_at(s, seq![c], i);
        assert(s.subrange(i, i + 1)[0] == s[i]);
    }
    if exists|i: int| 0 <= i < s.len() && s[i] == c {
        let i = choose|i: int| 0 <= i < s.len() && s[i] == c;
        assert(s.subrange(i, i + 1) =~= seq![c]);
        assert(occurs_at(s, seq![c], i));
    }
}

/// Two `.` at positions `i` and `i + 1` of `s`.
pub open spec fn double_dot_at(s: Seq<char>, i: int) -> bool {
    0 <= i && i + 1 < s.len() && s[i] == '.' && s[i + 1] == '.'
}

/// Text contains `..` exactly when two `.` follow each other in it.
pub proof fn lemma_contains_dotdot(s: Seq<char>)
    ensures
        contains(s, seq!['.', '.']) <==> exists|i: int| #[trigger] double_dot_at(s, i),
{
    if contains(s, seq!['.', '.']) {
        let i = choose|i: int| occurs_at(s, seq!['.', '.'], i);
        assert(s.subrange(i, i + 2)[0] == s[i]);
        assert(s.subrange(i, i + 2)[1] == s[i + 1]);
        assert(double_dot_at(s, i));
    }
    if exists|i: int| #[trigger] double_dot_at(s, i) {
        let i = choose|i: int| double_dot_at(s, i);
        assert(s.subrange(i, i + 2) =~= seq!['.', '.']);
        assert(occurs_at(s, seq!['.', '.'], i));
    }
}

} // verus!
