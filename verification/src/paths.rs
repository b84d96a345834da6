//! A model of `std::path` on Unix for relative and absolute paths held as
//! text.
//!
//! A path is split on `/` into segments (as `str::split` does). The
//! components that `Path::components` yields are the non-empty segments,
//! except that a `.` segment only counts when it is the first one (the
//! current directory); `..` is the parent directory, anything else a normal
//! name.

use vstd::prelude::*;
use crate::text::{lemma_split_without_sep, lemma_split_concat, split_by, lemma_split_by_len, split_chars, views, chars_of, string_from_chars, has_prefix, trim_start, Strip, starts_with_chars, chars_eq, trim_start_chars, slice_chars};

verus! {

/// `str::split('/')`: at least one segment, empty ones included.
pub open spec fn split_path(p: Seq<char>) -> Seq<Seq<char>> {
    split_by(p, '/')
}

/// Segments glued back together with `/` between them.
pub open spec fn join_segs(segs: Seq<Seq<char>>) -> Seq<char>
    decreases segs.len(),
{
    if segs.len() == 0 {
        Seq::<char>::empty()
    } else if segs.len() == 1 {
        segs[0]
    } else {
        join_segs(segs.drop_last()).push('/') + segs.last()
    }
}

pub open spec fn dot() -> Seq<char> {
    seq!['.']
}

pub open spec fn dotdot() -> Seq<char> {
    seq!['.', '.']
}

/// Segment `i` yields a component.
pub open spec fn kept(segs: Seq<Seq<char>>, i: int) -> bool {
    segs[i].len() > 0 && (segs[i] != dot() || i == 0)
}

/// Segment `i` yields a normal (named) component.
pub open spec fn normal(segs: Seq<Seq<char>>, i: int) -> bool {
    kept(segs, i) && segs[i] != dot() && segs[i] != dotdot()
}

/// The last index below `n` whose segment yields a component, or -1.
pub open spec fn last_kept_below(segs: Seq<Seq<char>>, n: int) -> int
    decreases n,
{
    if n <= 0 {
        -1
    } else if kept(segs, n - 1) {
        n - 1
    } else {
        last_kept_below(segs, n - 1)
    }
}

pub open spec fn last_kept(segs: Seq<Seq<char>>) -> int {
    last_kept_below(segs, segs.len() as int)
}

/// `Path::file_name`.
pub open spec fn file_name_of(p: Seq<char>) -> Option<Seq<char>> {
    let segs = split_path(p);
    let l = last_kept(segs);
    if l >= 0 && normal(segs, l) {
        Some(segs[l])
    } else {
        None
    }
}

/// `Path::parent`: the text before the last component, without the
/// separators and `.` segments that trail it.
pub open spec fn parent_of(p: Seq<char>) -> Option<Seq<char>> {
    let segs = split_path(p);
    let l = last_kept(segs);
    if l < 0 {
        None
    } else {
        let k = last_kept_below(segs, l);
        if k >= 0 {
            Some(join_segs(segs.take(k + 1)))
        } else if p.len() > 0 && p[0] == '/' {
            Some(seq!['/'])
        } else {
            Some(Seq::<char>::empty())
        }
    }
}

/// Index of the last `.` in `name`, or -1.
pub open spec fn last_dot_below(name: Seq<char>, n: int) -> int
    decreases n,
{
    if n <= 0 {
        -1
    } else if name[n - 1] == '.' {
        n - 1
    } else {
        last_dot_below(name, n - 1)
    }
}

pub open spec fn last_dot(name: Seq<char>) -> int {
    last_dot_below(name, name.len() as int)
}

/// `Path::file_stem` of a file name: before the last `.`, unless that `.`
/// starts the name.
pub open spec fn stem_of(name: Seq<char>) -> Seq<char> {
    let d = last_dot(name);
    if d > 0 {
        name.take(d)
    } else {
        name
    }
}

/// `Path::extension` of a file name: after the last `.`, unless that `.`
/// starts the name.
pub open spec fn ext_of(name: Seq<char>) -> Option<Seq<char>> {
    let d = last_dot(name);
    if d > 0 {
        Some(name.skip(d + 1))
    } else {
        None
    }
}

/// `Path::file_stem`.
pub open spec fn file_stem_of(p: Seq<char>) -> Option<Seq<char>> {
    match file_name_of(p) {
        Some(n) => Some(stem_of(n)),
        None => None,
    }
}

/// `Path::extension`.
pub open spec fn extension_of(p: Seq<char>) -> Option<Seq<char>> {
    match file_name_of(p) {
        Some(n) => ext_of(n),
        None => None,
    }
}

/// `Path::with_extension`: the text up to the end of the file stem, then
/// `.` and `ext` unless `ext` is empty; unchanged without a file name.
pub open spec fn with_extension_of(p: Seq<char>, ext: Seq<char>) -> Seq<char> {
    let segs = split_path(p);
    let l = last_kept(segs);
    if l >= 0 && normal(segs, l) {
        let base = join_segs(segs.take(l).push(stem_of(segs[l])));
        if ext.len() == 0 {
            base
        } else {
            base.push('.') + ext
        }
    } else {
        p
    }
}

/// `Path::join`: an absolute `rel` replaces `base`; otherwise a `/` is put
/// between them unless `base` is empty or already ends with one.
pub open spec fn join_path(base: Seq<char>, rel: Seq<char>) -> Seq<char> {
    if rel.len() > 0 && rel[0] == '/' {
        rel
    } else if base.len() == 0 || base.last() == '/' {
        base + rel
    } else {
        base.push('/') + rel
    }
}

/// Some component of `p` is `..`.
pub open spec fn has_parent_dir(p: Seq<char>) -> bool {
    let segs = split_path(p);
    exists|i: int| 0 <= i < segs.len() && segs[i] == dotdot()
}

/// A segment that names something: not empty and not `.`.
pub open spec fn is_named(seg: Seq<char>) -> bool {
    seg.len() > 0 && seg != dot()
}

/// The segments that name something, in order: what is left after the
/// empty segments (doubled, leading or trailing `/`) and the `.` segments
/// are dropped. These are the directories and the file a path leads to.
pub open spec fn named_segs(segs: Seq<Seq<char>>) -> Seq<Seq<char>>
    decreases segs.len(),
{
    if segs.len() == 0 {
        Seq::<Seq<char>>::empty()
    } else if is_named(segs.last()) {
        named_segs(segs.drop_last()).push(segs.last())
    } else {
        named_segs(segs.drop_last())
    }
}

/// Dropping unnamed segments works piece by piece.
pub proof fn lemma_named_concat(a: Seq<Seq<char>>, b: Seq<Seq<char>>)
    ensures
        named_segs(a + b) == named_segs(a) + named_segs(b),
    decreases b.len(),
{
    if b.len() == 0 {
        assert(a + b =~= a);
        assert(named_segs(a) + named_segs(b) =~= named_segs(a));
    } else {
        lemma_named_concat(a, b.drop_last());
        assert((a + b).drop_last() =~= a + b.drop_last());
        assert((a + b).last() == b.last());
        if is_named(b.last()) {
            assert(named_segs(a) + named_segs(b) =~= (named_segs(a) + named_segs(b.drop_last())).push(b.last()));
        }
    }
}

/// A single named segment is kept, an unnamed one dropped.
pub proof fn lemma_named_one(x: Seq<char>)
    ensures
        named_segs(seq![x]) == if is_named(x) {
            seq![x]
        } else {
            Seq::<Seq<char>>::empty()
        },
{
    let s = seq![x];
    assert(s.drop_last() =~= Seq::<Seq<char>>::empty());
    assert(s.last() == x);
    assert(named_segs(s.drop_last()) == Seq::<Seq<char>>::empty());
    assert(Seq::<Seq<char>>::empty().push(x) =~= s);
}

/// The segments before index `n` that yield a component, in order.
pub open spec fn kept_upto(segs: Seq<Seq<char>>, n: int) -> Seq<Seq<char>>
    decreases n,
{
    if n <= 0 {
        Seq::<Seq<char>>::empty()
    } else if kept(segs, n - 1) {
        kept_upto(segs, n - 1).push(segs[n - 1])
    } else {
        kept_upto(segs, n - 1)
    }
}

/// The components of `p`, as `Path::components` yields them after the root.
pub open spec fn components_of(p: Seq<char>) -> Seq<Seq<char>> {
    kept_upto(split_path(p), split_path(p).len() as int)
}

/// `Path` equality: both absolute or both relative, with the same
/// components.
pub open spec fn same_path(a: Seq<char>, b: Seq<char>) -> bool {
    &&& has_prefix(a, seq!['/']) == has_prefix(b, seq!['/'])
    &&& components_of(a) == components_of(b)
}

/// The components before `n` do not depend on the segments from `n` on.
pub proof fn lemma_kept_upto_take(segs: Seq<Seq<char>>, k: int, n: int)
    requires
        0 <= n <= k <= segs.len(),
    ensures
        kept_upto(segs.take(k), n) == kept_upto(segs, n),
    decreases n,
{
    if n > 0 {
        lemma_kept_upto_take(segs, k, n - 1);
        assert(segs.take(k)[n - 1] == segs[n - 1]);
    }
}

/// Segments that yield no component add none.
pub proof fn lemma_kept_upto_skip(segs: Seq<Seq<char>>, n: int, m: int)
    requires
        0 <= n <= m <= segs.len(),
        forall|i: int| n <= i < m ==> !kept(segs, i),
    ensures
        kept_upto(segs, m) == kept_upto(segs, n),
    decreases m,
{
    if m > n {
        lemma_kept_upto_skip(segs, n, m - 1);
    }
}

/// After the last kept segment below `n` no segment below `n` is kept.
pub proof fn lemma_last_kept_after(segs: Seq<Seq<char>>, n: int)
    requires
        0 <= n,
    ensures
        forall|i: int| last_kept_below(segs, n) < i < n ==> !kept(segs, i),
        last_kept_below(segs, n) >= 0 ==> kept(segs, last_kept_below(segs, n)),
    decreases n,
{
    if n > 0 && !kept(segs, n - 1) {
        lemma_last_kept_after(segs, n - 1);
    }
}

/// A kept segment with nothing kept after it (below `n`) is the last kept.
pub proof fn lemma_last_kept_is(segs: Seq<Seq<char>>, n: int, l: int)
    requires
        0 <= l < n,
        kept(segs, l),
        forall|i: int| l < i < n ==> !kept(segs, i),
    ensures
        last_kept_below(segs, n) == l,
    decreases n,
{
    if n - 1 > l {
        lemma_last_kept_is(segs, n - 1, l);
    }
}

/// Joining a first segment in front of others puts a `/` after it.
pub proof fn lemma_join_cons(a: Seq<char>, ys: Seq<Seq<char>>)
    requires
        ys.len() >= 1,
    ensures
        join_segs(seq![a] + ys) == a.push('/') + join_segs(ys),
    decreases ys.len(),
{
    let xs = seq![a] + ys;
    assert(xs.len() >= 2);
    assert(xs.last() == ys.last());
    if ys.len() == 1 {
        assert(xs.drop_last() =~= seq![a]);
        assert(join_segs(seq![a]) == a);
        assert(join_segs(ys) == ys[0]);
        assert(join_segs(xs) == join_segs(xs.drop_last()).push('/') + xs.last());
        assert(join_segs(xs) =~= a.push('/') + join_segs(ys));
    } else {
        lemma_join_cons(a, ys.drop_last());
        assert(xs.drop_last() =~= seq![a] + ys.drop_last());
        assert(join_segs(xs) == join_segs(xs.drop_last()).push('/') + xs.last());
        assert(join_segs(ys) == join_segs(ys.drop_last()).push('/') + ys.last());
        assert(join_segs(xs) =~= a.push('/') + join_segs(ys));
    }
}

/// The first `k` segments joined are a beginning of all of them joined.
pub proof fn lemma_join_prefix(xs: Seq<Seq<char>>, k: int)
    requires
        1 <= k <= xs.len(),
    ensures
        join_segs(xs.take(k)).len() <= join_segs(xs).len(),
        forall|i: int| 0 <= i < join_segs(xs.take(k)).len() ==> join_segs(xs.take(k))[i] == join_segs(xs)[i],
    decreases xs.len(),
{
    if k == xs.len() {
        assert(xs.take(k) =~= xs);
    } else {
        lemma_join_prefix(xs.drop_last(), k);
        assert(xs.drop_last().take(k) =~= xs.take(k));
    }
}

pub proof fn lemma_split_len(p: Seq<char>)
    ensures
        split_path(p).len() >= 1,
{
    lemma_split_by_len(p, '/');
}

/// Splitting and joining again gives the path back.
pub proof fn lemma_join_split(p: Seq<char>)
    ensures
        join_segs(split_path(p)) == p,
    decreases p.len(),
{
    if p.len() > 0 {
        let q = p.drop_last();
        lemma_join_split(q);
        lemma_split_len(q);
        assert(split_path(p) == split_by(p, '/'));
        let rest = split_path(q);
        if p.last() == '/' {
            assert(split_path(p).drop_last() =~= rest);
            assert(join_segs(split_path(p)) =~= p);
        } else {
            let s = split_path(p);
            assert(p =~= q.push(p.last()));
            if rest.len() == 1 {
                assert(s.len() == 1);
                assert(s[0] == rest[0].push(p.last()));
                assert(join_segs(rest) == rest[0]);
                assert(join_segs(s) == s[0]);
            } else {
                assert(s.drop_last() =~= rest.drop_last());
                assert(join_segs(rest) == join_segs(rest.drop_last()).push('/') + rest.last());
                assert(join_segs(s) =~= p);
            }
        }
    }
}

proof fn lemma_join_take_step(segs: Seq<Seq<char>>, j: int)
    requires
        1 <= j < segs.len(),
    ensures
        join_segs(segs.take(j + 1)) == join_segs(segs.take(j)).push('/') + segs[j],
{
    assert(segs.take(j + 1).drop_last() =~= segs.take(j));
}

proof fn lemma_join_push(segs: Seq<Seq<char>>, x: Seq<char>)
    requires
        segs.len() >= 1,
    ensures
        join_segs(segs.push(x)) == join_segs(segs).push('/') + x,
{
    assert(segs.push(x).drop_last() =~= segs);
}

/// `str::split('/')` on characters.
pub(crate) fn split_segments(p: &Vec<char>) -> (r: Vec<Vec<char>>)
    ensures
        views(r@) == split_path(p@),
{
    split_chars(p, '/')
}

fn is_dot(s: &Vec<char>) -> (r: bool)
    ensures
        r == (s@ == dot()),
{
    let r = s.len() == 1 && s[0] == '.';
    assert(r ==> s@ =~= dot());
    r
}

fn is_dotdot(s: &Vec<char>) -> (r: bool)
    ensures
        r == (s@ == dotdot()),
{
    let r = s.len() == 2 && s[0] == '.' && s[1] == '.';
    assert(r ==> s@ =~= dotdot());
    r
}

fn seg_kept(segs: &Vec<Vec<char>>, i: usize) -> (r: bool)
    requires
        i < segs.len(),
    ensures
        r == kept(views(segs@), i as int),
{
    segs[i].len() > 0 && (!is_dot(&segs[i]) || i == 0)
}

/// The last index below `n` whose segment yields a component.
fn find_last_kept(segs: &Vec<Vec<char>>, n: usize) -> (r: Option<usize>)
    requires
        n <= segs.len(),
    ensures
        match r {
            Some(k) => last_kept_below(views(segs@), n as int) == k as int && k < n && kept(
                views(segs@),
                k as int,
            ),
            None => last_kept_below(views(segs@), n as int) == -1,
        },
{
    let mut i = n;
    while i > 0
        invariant
            i <= n <= segs.len(),
            last_kept_below(views(segs@), n as int) == last_kept_below(views(segs@), i as int),
        decreases i,
    {
        if seg_kept(segs, i - 1) {
            assert(last_kept_below(views(segs@), i as int) == i - 1);
            return Some(i - 1);
        }
        i = i - 1;
    }
    None
}

/// The segments `segs[..n]` joined with `/`.
fn join_prefix(segs: &Vec<Vec<char>>, n: usize) -> (r: Vec<char>)
    requires
        n <= segs.len(),
    ensures
        r@ == join_segs(views(segs@).take(n as int)),
{
    let ghost vs = views(segs@);
    if n == 0 {
        assert(vs.take(0) =~= Seq::<Seq<char>>::empty());
        return Vec::new();
    }
    let mut r = segs[0].clone();
    assert(vs.take(1) =~= seq![vs[0]]);
    let mut j: usize = 1;
    while j < n
        invariant
            1 <= j <= n <= segs.len(),
            vs == views(segs@),
            r@ == join_segs(vs.take(j as int)),
        decreases n - j,
    {
        proof {
            lemma_join_take_step(vs, j as int);
        }
        r.push('/');
        let mut k: usize = 0;
        let ghost base = r@;
        while k < segs[j].len()
            invariant
                j < segs.len(),
                k <= segs[j as int]@.len(),
                r@ == base + segs[j as int]@.take(k as int),
            decreases segs[j as int]@.len() - k,
        {
            r.push(segs[j][k]);
            assert(segs[j as int]@.take(k + 1) =~= segs[j as int]@.take(k as int).push(
                segs[j as int]@[k as int],
            ));
            k = k + 1;
        }
        assert(segs[j as int]@.take(k as int) =~= segs[j as int]@);
        j = j + 1;
    }
    r
}

fn append_chars(r: &mut Vec<char>, s: &Vec<char>)
    ensures
        final(r)@ == old(r)@ + s@,
{
    let mut k: usize = 0;
    let ghost base = r@;
    while k < s.len()
        invariant
            k <= s@.len(),
            r@ == base + s@.take(k as int),
        decreases s@.len() - k,
    {
        r.push(s[k]);
        assert(s@.take(k + 1) =~= s@.take(k as int).push(s@[k as int]));
        k = k + 1;
    }
    assert(s@.take(k as int) =~= s@);
}

fn find_last_dot(name: &Vec<char>) -> (r: Option<usize>)
    ensures
        match r {
            Some(d) => last_dot(name@) == d as int && d < name@.len(),
            None => last_dot(name@) == -1,
        },
{
    let mut i = name.len();
    while i > 0
        invariant
            i <= name.len(),
            last_dot(name@) == last_dot_below(name@, i as int),
        decreases i,
    {
        if name[i - 1] == '.' {
            return Some(i - 1);
        }
        i = i - 1;
    }
    None
}

fn stem_chars(name: &Vec<char>) -> (r: Vec<char>)
    ensures
        r@ == stem_of(name@),
{
    match find_last_dot(name) {
        Some(d) => {
            if d > 0 {
                crate::text::slice_chars(name, 0, d)
            } else {
                name.clone()
            }
        },
        None => name.clone(),
    }
}

fn file_name_chars(p: &Vec<char>) -> (r: Option<Vec<char>>)
    ensures
        match r {
            Some(n) => file_name_of(p@) == Some(n@),
            None => file_name_of(p@) is None,
        },
{
    let segs = split_segments(p);
    match find_last_kept(&segs, segs.len()) {
        Some(l) => {
            if !is_dot(&segs[l]) && !is_dotdot(&segs[l]) {
                Some(segs[l].clone())
            } else {
                None
            }
        },
        None => None,
    }
}

/// `Path::file_name`.
pub fn path_file_name(p: &str) -> (r: Option<String>)
    ensures
        match r {
            Some(n) => file_name_of(p@) == Some(n@),
            None => file_name_of(p@) is None,
        },
{
    let v = chars_of(p);
    match file_name_chars(&v) {
        Some(n) => Some(string_from_chars(n.as_slice())),
        None => None,
    }
}

/// `Path::file_stem`.
pub fn path_file_stem(p: &str) -> (r: Option<String>)
    ensures
        match r {
            Some(n) => file_stem_of(p@) == Some(n@),
            None => file_stem_of(p@) is None,
        },
{
    let v = chars_of(p);
    match file_name_chars(&v) {
        Some(n) => {
            let s = stem_chars(&n);
            Some(string_from_chars(s.as_slice()))
        },
        None => None,
    }
}

/// `Path::extension`.
pub fn path_extension(p: &str) -> (r: Option<String>)
    ensures
        match r {
            Some(e) => extension_of(p@) == Some(e@),
            None => extension_of(p@) is None,
        },
{
    let v = chars_of(p);
    match file_name_chars(&v) {
        Some(n) => {
            match find_last_dot(&n) {
                Some(d) => {
                    if d > 0 && d < n.len() {
                        let e = crate::text::slice_chars(&n, d + 1, n.len());
                        Some(string_from_chars(e.as_slice()))
                    } else {
                        None
                    }
                },
                None => None,
            }
        },
        None => None,
    }
}

/// `Path::parent`.
pub fn path_parent(p: &str) -> (r: Option<String>)
    ensures
        match r {
            Some(q) => parent_of(p@) == Some(q@),
            None => parent_of(p@) is None,
        },
{
    let v = chars_of(p);
    let segs = split_segments(&v);
    match find_last_kept(&segs, segs.len()) {
        None => None,
        Some(l) => {
            match find_last_kept(&segs, l) {
                Some(k) => {
                    let q = join_prefix(&segs, k + 1);
                    Some(string_from_chars(q.as_slice()))
                },
                None => {
                    if v.len() > 0 && v[0] == '/' {
                        let mut q: Vec<char> = Vec::new();
                        q.push('/');
                        assert(q@ =~= seq!['/']);
                        Some(string_from_chars(q.as_slice()))
                    } else {
                        Some(String::new())
                    }
                },
            }
        },
    }
}

/// `Path::with_extension`.
pub fn path_with_extension(p: &str, ext: &str) -> (r: String)
    ensures
        r@ == with_extension_of(p@, ext@),
{
    let v = chars_of(p);
    let e = chars_of(ext);
    let segs = split_segments(&v);
    let ghost vs = views(segs@);
    match find_last_kept(&segs, segs.len()) {
        Some(l) => {
            if !is_dot(&segs[l]) && !is_dotdot(&segs[l]) {
                let stem = stem_chars(&segs[l]);
                let mut out = join_prefix(&segs, l);
                if l > 0 {
                    out.push('/');
                }
                append_chars(&mut out, &stem);
                proof {
                    if l > 0 {
                        lemma_join_push(vs.take(l as int), stem@);
                    } else {
                        assert(vs.take(0).push(stem@) =~= seq![stem@]);
                        assert(out@ =~= stem@);
                    }
                }
                if e.len() > 0 {
                    out.push('.');
                    append_chars(&mut out, &e);
                }
                string_from_chars(out.as_slice())
            } else {
                string_from_chars(v.as_slice())
            }
        },
        None => string_from_chars(v.as_slice()),
    }
}

/// `Path::join`.
pub fn path_join(base: &str, rel: &str) -> (r: String)
    ensures
        r@ == join_path(base@, rel@),
{
    let b = chars_of(base);
    let x = chars_of(rel);
    if x.len() > 0 && x[0] == '/' {
        return string_from_chars(x.as_slice());
    }
    let mut out = b.clone();
    if !(b.len() == 0 || b[b.len() - 1] == '/') {
        out.push('/');
    }
    append_chars(&mut out, &x);
    string_from_chars(out.as_slice())
}

/// Some component of `p` is `..`.
pub fn path_has_parent_dir(p: &str) -> (r: bool)
    ensures
        r == has_parent_dir(p@),
{
    let v = chars_of(p);
    let segs = split_segments(&v);
    let ghost vs = views(segs@);
    let mut i: usize = 0;
    while i < segs.len()
        invariant
            i <= segs.len(),
            vs == views(segs@),
            vs == split_path(p@),
            forall|j: int| 0 <= j < i ==> vs[j] != dotdot(),
        decreases segs.len() - i,
    {
        if is_dotdot(&segs[i]) {
            assert(vs[i as int] == dotdot());
            assert(split_path(p@)[i as int] == dotdot());
            return true;
        }
        i = i + 1;
    }
    false
}

/// What is left of `p` below the directory `dir`, for paths that a walk
/// from `dir` yields (`dir` itself, or `dir/` followed by the rest).
pub open spec fn strip_dir_prefix(p: Seq<char>, dir: Seq<char>) -> Option<Seq<char>> {
    if p == dir {
        Some(Seq::<char>::empty())
    } else if has_prefix(p, dir.push('/')) {
        Some(trim_start(p.skip(dir.len() as int + 1), Strip::Char('/')))
    } else {
        None
    }
}

/// `Path::strip_prefix(dir)` for paths that a walk from `dir` yields.
pub fn path_strip_dir(p: &str, dir: &str) -> (r: Option<String>)
    ensures
        match r {
            Some(q) => strip_dir_prefix(p@, dir@) == Some(q@),
            None => strip_dir_prefix(p@, dir@) is None,
        },
{
    let v = chars_of(p);
    let d = chars_of(dir);
    if chars_eq(&v, &d) {
        return Some(String::new());
    }
    let mut ds = d.clone();
    ds.push('/');
    if starts_with_chars(&v, &ds) {
        let rest = slice_chars(&v, ds.len(), v.len());
        assert(rest@ == v@.skip(d@.len() as int + 1));
        let t = trim_start_chars(&rest, Strip::Char('/'));
        Some(string_from_chars(t.as_slice()))
    } else {
        None
    }
}

pub proof fn lemma_last_kept_range(segs: Seq<Seq<char>>, n: int)
    requires
        0 <= n,
    ensures
        -1 <= last_kept_below(segs, n) < n,
    decreases n,
{
    if n > 0 && !kept(segs, n - 1) {
        lemma_last_kept_range(segs, n - 1);
    }
}

/// Joining segments that hold no `/` and splitting again gives them back.
pub proof fn lemma_split_join(xs: Seq<Seq<char>>)
    requires
        xs.len() >= 1,
        forall|i: int, j: int| 0 <= i < xs.len() && 0 <= j < xs[i].len() ==> xs[i][j] != '/',
    ensures
        split_path(join_segs(xs)) == xs,
    decreases xs.len(),
{
    if xs.len() == 1 {
        lemma_split_without_sep(xs[0], '/');
        assert(seq![xs[0]] =~= xs);
    } else {
        let ys = xs.drop_last();
        lemma_split_join(ys);
        lemma_split_concat(join_segs(ys), xs.last(), '/');
        lemma_split_without_sep(xs.last(), '/');
        assert(ys + seq![xs.last()] =~= xs);
    }
}

} // verus!
