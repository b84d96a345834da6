//! The session cookie and the request-level view of the logged-in user.

use vstd::prelude::*;
use crate::auth::User;
use crate::crypto::{hex_lower, hex_digit, is_session_token, lemma_hex_len};
use crate::text::{
    chars_of, string_from_chars, split_by, split_chars, views, trim, trim_chars,
    has_prefix, starts_with_chars, lemma_split_without_sep, slice_chars, Strip, is_ws, lead_len, trail_len,
};

verus! {

/// Name of the cookie that carries the session token.
pub const SESSION_COOKIE_NAME: &'static str = "reader_session";

/// The logged-in user of a request that requires one.
pub struct AuthUser(pub User);

/// The logged-in user of a request, if there is one.
pub struct MaybeUser(pub Option<User>);

/// The token found in the cookie pairs `pairs`: the value of the first pair
/// (trimmed) named exactly like the session cookie and with a non-empty
/// value. Other cookies, even ones whose names begin with the session
/// cookie's name, are passed over.
pub open spec fn scan_cookie_pairs(pairs: Seq<Seq<char>>) -> Option<Seq<char>>
    decreases pairs.len(),
{
    if pairs.len() == 0 {
        None
    } else {
        let p = trim(pairs[0], Strip::Whitespace);
        let rest = p.skip(SESSION_COOKIE_NAME@.len() as int);
        if has_prefix(p, SESSION_COOKIE_NAME@) && rest.len() > 1 && rest[0] == '=' {
            Some(rest.skip(1))
        } else {
            scan_cookie_pairs(pairs.drop_first())
        }
    }
}

/// The session token in a `Cookie` header value.
pub open spec fn session_token_of(cookie_header: Seq<char>) -> Option<Seq<char>> {
    scan_cookie_pairs(split_by(cookie_header, ';'))
}

/// Extracts the session token from the value of the `Cookie` header.
pub fn extract_session_token(cookie_header: &str) -> (r: Option<String>)
    ensures
        match r {
            Some(t) => session_token_of(cookie_header@) == Some(t@),
            None => session_token_of(cookie_header@) is None,
        },
{
    let v = chars_of(cookie_header);
    let pairs = split_chars(&v, ';');
    let name = chars_of(SESSION_COOKIE_NAME);
    let ghost ps = views(pairs@);
    let mut i: usize = 0;
    assert(ps.skip(0) =~= ps);
    while i < pairs.len()
        invariant
            i <= pairs.len(),
            ps == views(pairs@),
            ps == split_by(cookie_header@, ';'),
            name@ == SESSION_COOKIE_NAME@,
            scan_cookie_pairs(ps.skip(i as int)) == session_token_of(cookie_header@),
        decreases pairs.len() - i,
    {
        let p = trim_chars(&pairs[i], Strip::Whitespace);
        proof {
            assert(ps.skip(i as int)[0] == ps[i as int]);
            assert(ps.skip(i as int).drop_first() =~= ps.skip(i + 1));
        }
        if starts_with_chars(&p, &name) {
            let rest = slice_chars(&p, name.len(), p.len());
            if rest.len() > 1 && rest[0] == '=' {
                let value = slice_chars(&rest, 1, rest.len());
                return Some(string_from_chars(value.as_slice()));
            }
        }
        i = i + 1;
    }
    None
}

/// The `Set-Cookie` value that stores a session token in the browser.
pub fn session_cookie(token: &str) -> (r: String)
    ensures
        r@ == SESSION_COOKIE_NAME@ + "="@ + token@ + "; Path=/; HttpOnly; SameSite=Lax"@,
{
    let mut c = String::from_str(SESSION_COOKIE_NAME);
    c.append("=");
    c.append(token);
    c.append("; Path=/; HttpOnly; SameSite=Lax");
    c
}

/// The `Set-Cookie` value that removes the session cookie.
pub fn cleared_session_cookie() -> (r: String)
    ensures
        r@ == SESSION_COOKIE_NAME@ + "=; Path=/; HttpOnly; SameSite=Lax; Max-Age=0"@,
{
    let mut c = String::from_str(SESSION_COOKIE_NAME);
    c.append("=; Path=/; HttpOnly; SameSite=Lax; Max-Age=0");
    c
}

proof fn lemma_hex_chars(b: Seq<u8>)
    ensures
        forall|i: int|
            0 <= i < hex_lower(b).len() ==> {
                let c = #[trigger] hex_lower(b)[i] as u32;
                (48 <= c <= 57) || (97 <= c <= 102)
            },
    decreases b.len(),
{
    lemma_hex_len(b);
    if b.len() > 0 {
        lemma_hex_chars(b.drop_first());
        let hi = b[0] as int / 16;
        let lo = b[0] as int % 16;
        assert(0 <= hi < 16 && 0 <= lo < 16);
        let head = seq![hex_digit(hi), hex_digit(lo)];
        assert forall|i: int| 0 <= i < hex_lower(b).len() implies {
            let c = #[trigger] hex_lower(b)[i] as u32;
            (48 <= c <= 57) || (97 <= c <= 102)
        } by {
            if i >= 2 {
                assert(hex_lower(b)[i] == hex_lower(b.drop_first())[i - 2]);
            } else {
                assert(hex_lower(b)[i] == head[i]);
            }
        }
    }
}

/// What the login stores is what later requests give back: a browser that
/// sends the cookie `reader_session=<token>` for a token made by
/// `generate_session_token` is recognised by that token.
pub proof fn law_session_cookie_round_trip(token: Seq<char>)
    requires
        is_session_token(token),
    ensures
        session_token_of(SESSION_COOKIE_NAME@ + "="@ + token) == Some(token),
{
    reveal_strlit("reader_session");
    reveal_strlit("=");
    let b = choose|b: Seq<u8>| b.len() == 32 && token == hex_lower(b);
    lemma_hex_chars(b);
    lemma_hex_len(b);
    let s = SESSION_COOKIE_NAME@ + "="@ + token;
    let n = SESSION_COOKIE_NAME@.len() as int;
    assert(n == 14);
    assert forall|i: int| 0 <= i < s.len() implies s[i] != ';' by {
        if i > n {
            assert(s[i] == token[i - n - 1]);
            let c = token[i - n - 1] as u32;
            assert((48 <= c <= 57) || (97 <= c <= 102));
        }
    }
    lemma_split_without_sep(s, ';');
    assert(!is_ws(s[0]));
    assert(lead_len(s, Strip::Whitespace) == 0);
    let last = s[s.len() - 1];
    assert(last == token[token.len() - 1]);
    assert(!is_ws(last)) by {
        let c = token[token.len() - 1] as u32;
        assert((48 <= c <= 57) || (97 <= c <= 102));
    }
    assert(trail_len(s, Strip::Whitespace) == 0);
    assert(trim(s, Strip::Whitespace) =~= s);
    assert(s.subrange(0, n) =~= SESSION_COOKIE_NAME@);
    let rest = s.skip(n);
    assert(rest[0] == '=');
    assert(rest.skip(1) =~= token);
    let pairs = split_by(s, ';');
    assert(pairs[0] == s);
}

} // verus!
