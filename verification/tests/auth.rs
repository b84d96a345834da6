use epub_reader::auth::{
    authenticate, backfill_owners, bootstrap_admin, change_password, create_session, create_user,
    delete_session, private_path_owner, validate_session, AuthError, BackfillError, BookOwnersFile,
    Session, SessionsFile, User, UsersFile,
};
use epub_reader::crypto::{
    generate_otp, generate_session_token, hash_password, otp_from_indices, token_from_bytes, OTP_LENGTH,
};

const ALPHABET: &str = "abcdefghijkmnpqrstuvwxyzABCDEFGHJKLMNPQRSTUVWXYZ23456789";

#[test]
fn hash_password_is_hex_sha256() {
    assert_eq!(
        hash_password("password"),
        "5e884898da28047151d0e56f8dc6292773603d0d6aabbdd62a11ef721d1542d8"
    );
    assert_eq!(
        hash_password(""),
        "e3b0c44298fc1c149afbf4c8996fb92427ae41e4649b934ca495991b7852b855"
    );
    assert_ne!(hash_password("a"), hash_password("b"));
}

#[test]
fn otp_shape() {
    for _ in 0..50 {
        let otp = generate_otp();
        assert_eq!(otp.chars().count(), OTP_LENGTH);
        assert!(otp.chars().all(|c| ALPHABET.contains(c)), "{otp}");
    }
}

#[test]
fn otp_from_drawn_indices() {
    assert_eq!(otp_from_indices(&vec![0, 1, 55, 24, 48]), "ab9A2");
    assert_eq!(otp_from_indices(&vec![]), "");
}

#[test]
fn token_from_drawn_bytes() {
    assert_eq!(token_from_bytes(&vec![0x00, 0xff, 0x1a]), "00ff1a");
}

#[test]
fn session_token_shape() {
    let t = generate_session_token();
    assert_eq!(t.len(), 64);
    assert!(t.chars().all(|c| c.is_ascii_hexdigit() && !c.is_ascii_uppercase()));
    assert_ne!(generate_session_token(), t);
}

#[test]
fn private_path_owner_examples() {
    assert_eq!(private_path_owner("private/alice/My Book"), Some("alice".to_string()));
    assert_eq!(private_path_owner("/private/bob/"), Some("bob".to_string()));
    assert_eq!(private_path_owner("private/bob"), Some("bob".to_string()));
    assert_eq!(private_path_owner("private"), None);
    assert_eq!(private_path_owner("private/"), None);
    assert_eq!(private_path_owner("private//alice/My Book"), Some("alice".to_string()));
    assert_eq!(private_path_owner("./private/./alice/x"), Some("alice".to_string()));
    assert_eq!(private_path_owner("private//"), None);
    assert_eq!(private_path_owner("fiction/My Book"), None);
    assert_eq!(private_path_owner("privatex/alice"), None);
    assert_eq!(private_path_owner(""), None);
}

#[test]
fn created_user_logs_in_with_otp() {
    let mut users = UsersFile::default();
    let otp = create_user(&mut users, "carol", false).unwrap();
    let u = authenticate(&users, "carol", &otp).unwrap();
    assert_eq!(u.username, "carol");
    assert!(u.must_change_password);
    assert!(!u.is_admin);
    assert!(authenticate(&users, "carol", "wrong").is_none());
    assert!(authenticate(&users, "nobody", &otp).is_none());
}

#[test]
fn duplicate_user_is_refused() {
    let mut users = UsersFile::default();
    create_user(&mut users, "dave", true).unwrap();
    match create_user(&mut users, "dave", false) {
        Err(e @ AuthError::UserExists(_)) => {
            assert_eq!(e.message(), "User 'dave' already exists")
        }
        _ => panic!("expected a refusal"),
    }
    assert!(users.users.get("dave").unwrap().is_admin);
}

#[test]
fn change_password_then_login() {
    let mut users = UsersFile::default();
    create_user(&mut users, "erin", false).unwrap();
    change_password(&mut users, "erin", "s3cret").unwrap();
    let u = authenticate(&users, "erin", "s3cret").unwrap();
    assert!(!u.must_change_password);
    assert_eq!(u.password_hash, hash_password("s3cret"));
    match change_password(&mut users, "ghost", "x") {
        Err(e @ AuthError::UserNotFound) => assert_eq!(e.message(), "User not found"),
        _ => panic!("expected UserNotFound"),
    }
}

#[test]
fn bootstrap_admin_only_when_empty() {
    let mut users = UsersFile::default();
    let otp = bootstrap_admin(&mut users).unwrap();
    let admin = authenticate(&users, "admin", &otp).unwrap();
    assert!(admin.is_admin && admin.must_change_password);
    assert!(bootstrap_admin(&mut users).is_none());
    assert_eq!(users.users.len(), 1);
}

#[test]
fn session_lifecycle() {
    let mut users = UsersFile::default();
    create_user(&mut users, "frank", false).unwrap();
    let mut sessions = SessionsFile::default();
    let token = create_session(&mut sessions, "frank", 1234);
    let s: &Session = sessions.sessions.get(&token).unwrap();
    assert_eq!(s.created_at, 1234);
    let u: User = validate_session(&sessions, &users, &token).unwrap();
    assert_eq!(u.username, "frank");
    assert!(validate_session(&sessions, &users, "not-a-token").is_none());
    let orphan = create_session(&mut sessions, "gone", 1);
    assert!(validate_session(&sessions, &users, &orphan).is_none());
    delete_session(&mut sessions, &token);
    assert!(validate_session(&sessions, &users, &token).is_none());
}

#[test]
fn book_owner_records() {
    let mut owners = BookOwnersFile::default();
    owners.set_owner("fiction/A", "alice");
    owners.set_owner("fiction/B", "bob");
    owners.set_owner("private/alice/C", "alice");
    assert_eq!(owners.get_owner("fiction/A"), Some("alice".to_string()));
    assert_eq!(owners.get_owner("fiction/Z"), None);
    let mut mine = owners.books_by_user("alice");
    mine.sort();
    assert_eq!(mine, vec!["fiction/A".to_string(), "private/alice/C".to_string()]);
    owners.update_path("fiction/A", "private/alice/A");
    assert_eq!(owners.get_owner("fiction/A"), None);
    assert_eq!(owners.get_owner("private/alice/A"), Some("alice".to_string()));
    owners.update_path("missing", "elsewhere");
    assert_eq!(owners.get_owner("elsewhere"), None);
    assert!(owners.books_by_user("nobody").is_empty());
}

#[test]
fn backfill_assigns_missing_owners() {
    let mut owners = BookOwnersFile::default();
    owners.set_owner("fiction/Known", "bob");
    let walked: Vec<String> = [
        "epubs",
        "epubs/fiction",
        "epubs/fiction/Known.epub",
        "epubs/fiction/New.epub",
        "epubs/private/alice/Mine.epub",
        "epubs/notes.txt",
    ]
    .iter()
    .map(|s| s.to_string())
    .collect();
    assert_eq!(backfill_owners(&mut owners, &walked).ok(), Some(true));
    assert_eq!(owners.get_owner("fiction/Known"), Some("bob".to_string()));
    assert_eq!(owners.get_owner("fiction/New"), Some("admin".to_string()));
    assert_eq!(owners.get_owner("private/alice/Mine"), Some("admin".to_string()));
    assert_eq!(owners.get_owner("notes"), None);
    assert_eq!(backfill_owners(&mut owners, &walked).ok(), Some(false));
    let outside = vec!["elsewhere/x.epub".to_string()];
    assert!(matches!(backfill_owners(&mut owners, &outside), Err(BackfillError::OutsideEpubsDir)));
}
