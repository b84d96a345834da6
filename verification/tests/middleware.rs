use epub_reader::auth::User;
use epub_reader::crypto::generate_session_token;
use epub_reader::middleware::{
    cleared_session_cookie, extract_session_token, session_cookie, MaybeUser, SESSION_COOKIE_NAME,
};
use epub_reader::pages::{gate_page, require_auth, PageGate};

#[test]
fn token_from_cookie_header() {
    assert_eq!(extract_session_token("reader_session=abc"), Some("abc".to_string()));
    assert_eq!(
        extract_session_token("theme=dark; reader_session=xyz ; other=1"),
        Some("xyz".to_string())
    );
    assert_eq!(extract_session_token("theme=dark"), None);
    assert_eq!(extract_session_token(""), None);
    // an empty value is skipped, the next pair is looked at
    assert_eq!(
        extract_session_token("reader_session=; reader_session=t2"),
        Some("t2".to_string())
    );
    // other cookies whose names begin with the cookie name are passed over
    assert_eq!(
        extract_session_token("reader_session_old=x; reader_session=abc123"),
        Some("abc123".to_string())
    );
    assert_eq!(extract_session_token("reader_sessionX=1; reader_session=t3"), Some("t3".to_string()));
    assert_eq!(extract_session_token("reader_session_old=x"), None);
}

#[test]
fn cookie_round_trip() {
    let token = generate_session_token();
    let set = session_cookie(&token);
    assert_eq!(set, format!("{SESSION_COOKIE_NAME}={token}; Path=/; HttpOnly; SameSite=Lax"));
    let sent = format!("{SESSION_COOKIE_NAME}={token}");
    assert_eq!(extract_session_token(&sent), Some(token));
    assert_eq!(
        cleared_session_cookie(),
        "reader_session=; Path=/; HttpOnly; SameSite=Lax; Max-Age=0"
    );
}

fn user(name: &str, must_change: bool) -> User {
    User {
        username: name.to_string(),
        password_hash: String::new(),
        is_admin: false,
        must_change_password: must_change,
    }
}

#[test]
fn page_gate() {
    assert!(matches!(gate_page(MaybeUser(None)), PageGate::Login));
    assert!(matches!(gate_page(MaybeUser(Some(user("a", true)))), PageGate::ChangePassword));
    match gate_page(MaybeUser(Some(user("b", false)))) {
        PageGate::Serve(u) => assert_eq!(u.username, "b"),
        _ => panic!("expected the page"),
    }
    assert_eq!(require_auth(MaybeUser(Some(user("c", false)))).unwrap().username, "c");
}
