use epub_reader::api::{
    parse_decoded_section_path, parse_section_path, plan_toggle_private, read_position_reply,
    record_read_position, start_position, toggle_book_path, toggle_reply, update_reply,
    ReadPositionFileData, UpdateOutcome,
};
use epub_reader::auth::{private_path_owner, User};
use epub_reader::layout::{EPUBS_DIR, HTML_DIR};

fn pair(a: &str, b: &str) -> Option<(String, String)> {
    Some((a.to_string(), b.to_string()))
}

#[test]
fn section_paths() {
    assert_eq!(parse_section_path("/fiction/My%20Book/section_3.html"), pair("fiction/My Book", "section_3"));
    assert_eq!(parse_section_path("fiction/Book/section_1.xhtml"), pair("fiction/Book", "section_1"));
    assert_eq!(parse_section_path("/private/alice/B%C3%BCch/section_2.html"), pair("private/alice/Büch", "section_2"));
    assert_eq!(parse_section_path("/section_1.html"), None);
    assert_eq!(parse_section_path("/a/chapter_1.html"), None);
    assert_eq!(parse_section_path("/a/%2E%2E/b/section_1.html"), None);
    assert_eq!(parse_section_path("/a/../b/section_1.html"), None);
    assert_eq!(parse_section_path("/a/%FF/section_1.html"), None);
    // a lone or broken escape stays as it is
    assert_eq!(parse_section_path("/a%/b%zz/section_1.html"), pair("a%/b%zz", "section_1"));
    assert_eq!(parse_decoded_section_path("//x//y/section_9"), pair("x//y", "section_9"));
}

#[test]
fn read_positions() {
    let mut data = ReadPositionFileData::default();
    let r = read_position_reply(&data, "section_1");
    assert!(r.node_path.is_empty() && r.offset == 0);
    record_read_position(&mut data, "section_1".to_string(), vec![0, 3, 2], 17);
    record_read_position(&mut data, "section_2".to_string(), vec![1], 4);
    record_read_position(&mut data, "section_1".to_string(), vec![5], 9);
    let r = read_position_reply(&data, "section_1");
    assert_eq!((r.node_path, r.offset), (vec![5], 9));
    let r = read_position_reply(&data, "section_2");
    assert_eq!((r.node_path, r.offset), (vec![1], 4));
    assert_eq!(data.read_position.get("section_1").unwrap().file_name, "section_1");
    let s = start_position();
    assert!(s.node_path.is_empty() && s.offset == 0);
}

#[test]
fn update_replies() {
    assert_eq!(update_reply(UpdateOutcome::BadPath).0, 400);
    assert_eq!(update_reply(UpdateOutcome::SaveFailed).0, 500);
    let (status, body) = update_reply(UpdateOutcome::Saved);
    assert!(status == 200 && body.success);
}

fn user(name: &str, admin: bool) -> User {
    User {
        username: name.to_string(),
        password_hash: String::new(),
        is_admin: admin,
        must_change_password: false,
    }
}

#[test]
fn toggle_book_path_validation() {
    assert_eq!(toggle_book_path("/fiction/Book/").unwrap(), "fiction/Book");
    let e = toggle_book_path("a/../b").unwrap_err();
    assert_eq!(e.status, 400);
    assert!(!e.response.success && !e.response.is_private && e.response.new_path.is_none());
    assert_eq!(toggle_book_path("//").unwrap_err().status, 400);
}

#[test]
fn toggle_to_private_and_back() {
    let alice = user("alice", false);
    let m = plan_toggle_private("fiction/Book", None, Some("alice".to_string()), &alice).unwrap();
    assert_eq!(m.new_book_path, "private/alice/Book");
    assert!(m.new_is_private && !m.currently_private);
    assert_eq!(m.old_epub, format!("{EPUBS_DIR}/fiction/Book.epub"));
    assert_eq!(m.new_epub, format!("{EPUBS_DIR}/private/alice/Book.epub"));
    assert_eq!(m.new_epub_dir, Some(format!("{EPUBS_DIR}/private/alice")));
    assert_eq!(m.old_html, format!("{HTML_DIR}/fiction/Book"));
    assert_eq!(private_path_owner(&m.new_book_path), Some("alice".to_string()));

    let back = plan_toggle_private(
        &m.new_book_path,
        Some(" /fiction/ ".to_string()),
        Some("alice".to_string()),
        &alice,
    )
    .unwrap();
    assert_eq!(back.new_book_path, "fiction/Book");
    assert!(!back.new_is_private && back.currently_private);

    let (status, body) = toggle_reply(&back, true);
    assert_eq!(status, 200);
    assert!(body.success && !body.is_private);
    assert_eq!(body.new_path, Some("fiction/Book".to_string()));
    let (status, body) = toggle_reply(&back, false);
    assert_eq!(status, 500);
    assert!(!body.success && body.is_private && body.new_path.is_none());
}

#[test]
fn toggle_refusals() {
    let bob = user("bob", false);
    let e = plan_toggle_private("fiction/Book", None, Some("alice".to_string()), &bob).unwrap_err();
    assert_eq!(e.status, 403);
    let e = plan_toggle_private("fiction/Book", None, None, &bob).unwrap_err();
    assert_eq!(e.status, 403);
    let e = plan_toggle_private("private/bob/Book", None, Some("bob".to_string()), &bob).unwrap_err();
    assert_eq!(e.status, 400);
    assert!(e.response.is_private && !e.response.success);
    let e = plan_toggle_private("private/bob/Book", Some("a/../b".to_string()), Some("bob".to_string()), &bob)
        .unwrap_err();
    assert_eq!(e.status, 400);
    // an administrator may toggle a book without a recorded owner; it goes
    // to the administrator's own folder
    let admin = user("root", true);
    let m = plan_toggle_private("fiction/Book", None, None, &admin).unwrap();
    assert_eq!(m.new_book_path, "private/root/Book");
    let m = plan_toggle_private("fiction/Book", None, Some("alice".to_string()), &admin).unwrap();
    assert_eq!(m.new_book_path, "private/alice/Book");
    // a doubled slash does not hide that a book is private
    let m = plan_toggle_private("private//bob/Book", Some("fiction".to_string()), Some("bob".to_string()), &bob)
        .unwrap();
    assert!(m.currently_private && !m.new_is_private);
    assert_eq!(m.new_book_path, "fiction/Book");
}
