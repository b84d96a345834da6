use epub_reader::auth::{create_user, private_path_owner, BookOwnersFile, User, UsersFile};
use epub_reader::layout::EPUBS_DIR;
use epub_reader::pages::{
    serve_action, PathFound, ServeAction,
    admin_flag, admin_user_entries, book_name, book_view_plan, build_breadcrumbs, category_dir,
    check_category_name, check_new_password, check_private_access, check_username,
    directory_listing, guess_content_type, normalize_new_username, plan_upload, profile_entries,
    section_file_name, section_view, select_categories, serve_path_refusal, sibling_index_json,
    sort_strings, uploaded_file_name, DirItem, PasswordProblem, UploadError,
};
use epub_reader::templates::{BookIndex, BookSection, UserInfo};

fn user(name: &str, admin: bool) -> User {
    User {
        username: name.to_string(),
        password_hash: String::new(),
        is_admin: admin,
        must_change_password: false,
    }
}

fn crumbs(rel: &str) -> Vec<(String, String)> {
    build_breadcrumbs(rel).into_iter().map(|b| (b.url, b.name)).collect()
}

fn p(a: &str, b: &str) -> (String, String) {
    (a.to_string(), b.to_string())
}

#[test]
fn breadcrumbs() {
    assert_eq!(crumbs(""), vec![p("/", "root")]);
    assert_eq!(crumbs("fiction"), vec![p("/", "root"), p("/fiction/", "fiction")]);
    // each crumb adds `/<segment>/` to the previous one
    assert_eq!(
        crumbs("fiction/My Book/"),
        vec![p("/", "root"), p("/fiction/", "fiction"), p("/fiction//My Book/", "My Book")]
    );
    assert_eq!(crumbs("//a"), vec![p("/", "root"), p("/a/", "a")]);
}

#[test]
fn content_types() {
    assert_eq!(guess_content_type("html/a/section_1.html"), "text/html; charset=utf-8");
    assert_eq!(guess_content_type("x.htm"), "text/html; charset=utf-8");
    assert_eq!(guess_content_type("x.css"), "text/css; charset=utf-8");
    assert_eq!(guess_content_type("x.js"), "application/javascript");
    assert_eq!(guess_content_type("x.json"), "application/json");
    assert_eq!(guess_content_type("x.png"), "image/png");
    assert_eq!(guess_content_type("x.jpg"), "image/jpeg");
    assert_eq!(guess_content_type("x.jpeg"), "image/jpeg");
    assert_eq!(guess_content_type("x.gif"), "image/gif");
    assert_eq!(guess_content_type("x.svg"), "image/svg+xml");
    assert_eq!(guess_content_type("x.txt"), "text/plain; charset=utf-8");
    assert_eq!(guess_content_type("x.pdf"), "application/pdf");
    assert_eq!(guess_content_type("x.woff"), "font/woff");
    assert_eq!(guess_content_type("x.woff2"), "font/woff2");
    assert_eq!(guess_content_type("x.HTML"), "application/octet-stream");
    assert_eq!(guess_content_type("README"), "application/octet-stream");
    assert_eq!(guess_content_type(".html"), "application/octet-stream");
}

#[test]
fn private_access() {
    let alice = user("alice", false);
    let bob = user("bob", false);
    let admin = user("root", true);
    assert_eq!(check_private_access("private/alice/Book", &alice), None);
    assert_eq!(check_private_access("private/alice/Book", &bob), Some(403));
    assert_eq!(check_private_access("private/alice/Book", &admin), None);
    assert_eq!(check_private_access("fiction/Book", &bob), None);
    // doubled slashes and `.` segments lead to the same private folder
    assert_eq!(check_private_access("private//alice/My Book", &bob), Some(403));
    assert_eq!(check_private_access("./private/alice/My Book", &bob), Some(403));
    assert_eq!(serve_path_refusal("private//alice/My Book", &bob), Some(403));
    assert_eq!(check_private_access("private//alice/My Book", &alice), None);
    assert_eq!(serve_path_refusal("fiction/../private/alice", &admin), Some(403));
    assert_eq!(serve_path_refusal("private/alice/x.html", &bob), Some(403));
    assert_eq!(serve_path_refusal("fiction/x.html", &bob), None);
}

fn index() -> BookIndex {
    BookIndex {
        book_name: "My Book".to_string(),
        sections: ["section_0.html", "section_1.html", "section_2.html"]
            .iter()
            .map(|f| BookSection { title: f.to_string(), filename: f.to_string() })
            .collect(),
    }
}

#[test]
fn section_pages() {
    assert_eq!(section_file_name("html/b/section_1.html"), Some("section_1.html".to_string()));
    assert_eq!(section_file_name("html/b/chapter_1.html"), None);
    assert_eq!(section_file_name("html/b/section_1.xhtml"), None);
    assert_eq!(sibling_index_json("html/b/section_1.html"), Some("html/b/index.json".to_string()));
    let idx = index();
    let v = section_view(&idx, "section_1.html", "fiction/b/section_1.html").unwrap();
    assert_eq!(v.book_name, "My Book");
    assert_eq!(v.iframe_src, "section_1.html?raw=true");
    assert_eq!(v.prev_url, Some("section_0.html".to_string()));
    assert_eq!(v.next_url, Some("section_2.html".to_string()));
    assert_eq!(v.breadcrumbs.last().unwrap().url, "/fiction//b/");
    let first = section_view(&idx, "section_0.html", "b/section_0.html").unwrap();
    assert_eq!(first.prev_url, None);
    let last = section_view(&idx, "section_2.html", "b/section_2.html").unwrap();
    assert_eq!(last.next_url, None);
    assert!(section_view(&idx, "section_9.html", "b/section_9.html").is_none());
}

#[test]
fn book_pages() {
    let alice = user("alice", false);
    let plan = book_view_plan("/private/alice/B/", &Some("alice".to_string()), &alice);
    assert_eq!(plan.book_path, "private/alice/B");
    assert!(plan.is_private && plan.can_toggle);
    let plan = book_view_plan("fiction/B", &Some("bob".to_string()), &alice);
    assert!(!plan.is_private && !plan.can_toggle);
    let plan = book_view_plan("fiction/B", &None, &user("root", true));
    assert!(plan.can_toggle);
}

#[test]
fn password_rules() {
    assert!(matches!(check_new_password("abcd", "abce"), Err(PasswordProblem::Mismatch)));
    assert!(matches!(check_new_password("abc", "abc"), Err(PasswordProblem::TooShort)));
    assert!(check_new_password("abcd", "abcd").is_ok());
    // the length counts bytes
    assert!(check_new_password("éé", "éé").is_ok());
    assert_eq!(PasswordProblem::Mismatch.message(), "Passwords do not match");
    assert_eq!(PasswordProblem::TooShort.message(), "Password must be at least 4 characters");
}

#[test]
fn username_rules() {
    assert_eq!(normalize_new_username("  Alice "), Some("alice".to_string()));
    assert_eq!(normalize_new_username("ÉVE"), Some("éve".to_string()));
    assert_eq!(normalize_new_username("   "), None);
    assert_eq!(normalize_new_username("a/b"), None);
    assert_eq!(normalize_new_username("a..b"), None);
    assert_eq!(check_username("bob"), Some("bob".to_string()));
    assert!(admin_flag(&Some("true".to_string())));
    assert!(!admin_flag(&Some("on".to_string())));
    assert!(!admin_flag(&None));
}

#[test]
fn category_rules() {
    assert_eq!(check_category_name(" Fiction "), Some("Fiction".to_string()));
    assert_eq!(check_category_name(""), None);
    assert_eq!(check_category_name("a/b"), None);
    assert_eq!(check_category_name("a..b"), None);
    assert_eq!(check_category_name(".hidden"), None);
    assert_eq!(category_dir("Fiction"), format!("{EPUBS_DIR}/Fiction"));
    let entries: Vec<(String, bool)> = [
        ("poetry", true),
        (".git", true),
        ("private", true),
        ("fiction", true),
        ("notes.txt", false),
        ("Zines", true),
    ]
    .iter()
    .map(|(n, d)| (n.to_string(), *d))
    .collect();
    assert_eq!(select_categories(&entries), vec!["Zines", "fiction", "poetry"]);
    let v: Vec<String> = ["b", "a", "c"].iter().map(|s| s.to_string()).collect();
    assert_eq!(sort_strings(&v), vec!["a", "b", "c"]);
}

fn cats() -> Vec<String> {
    vec!["fiction".to_string(), "poetry".to_string()]
}

#[test]
fn upload_plans() {
    let plan = plan_upload(Some("Book.epub".to_string()), " /fiction/ ", false, "alice", &cats()).unwrap();
    assert_eq!(plan.dest_path, format!("{EPUBS_DIR}/fiction/Book.epub"));
    assert_eq!(plan.dest_dir, Some(format!("{EPUBS_DIR}/fiction")));
    assert_eq!(plan.book_key, "fiction/Book");
    assert_eq!(plan.redirect_to, "/fiction/?uploaded=true");
    let plan = plan_upload(Some("Mine.epub".to_string()), "", true, "alice", &cats()).unwrap();
    assert_eq!(plan.dest_path, format!("{EPUBS_DIR}/private/alice/Mine.epub"));
    assert_eq!(plan.book_key, "private/alice/Mine");
    assert_eq!(plan.redirect_to, "/profile?uploaded=true");
    assert_eq!(private_path_owner(&plan.book_key), Some("alice".to_string()));
    assert!(matches!(plan_upload(None, "fiction", false, "a", &cats()), Err(UploadError::NoFile)));
    assert!(matches!(
        plan_upload(Some("x.pdf".to_string()), "fiction", false, "a", &cats()),
        Err(UploadError::NotEpub)
    ));
    assert!(matches!(
        plan_upload(Some("x.epub".to_string()), "a/b", false, "a", &cats()),
        Err(UploadError::InvalidCategory)
    ));
    assert!(matches!(
        plan_upload(Some("x.epub".to_string()), "..", true, "a", &cats()),
        Err(UploadError::InvalidCategory)
    ));
    assert!(matches!(
        plan_upload(Some("x.epub".to_string()), "  ", false, "a", &cats()),
        Err(UploadError::CategoryRequired)
    ));
    assert!(matches!(
        plan_upload(Some("x.epub".to_string()), "drama", false, "a", &cats()),
        Err(UploadError::UnknownCategory)
    ));
    assert_eq!(UploadError::NoFile.message(), "No file uploaded");
    assert_eq!(UploadError::UnknownCategory.message(), "Category does not exist. Ask an admin to create it.");
    assert_eq!(uploaded_file_name(None), "upload.epub");
    assert_eq!(uploaded_file_name(Some("a.epub")), "a.epub");
}

#[test]
fn profile_list() {
    let books: Vec<String> =
        ["poetry/Zed", "private/alice/Alpha", "fiction/Mid"].iter().map(|s| s.to_string()).collect();
    let entries = profile_entries(&books);
    let names: Vec<&str> = entries.iter().map(|e| e.book_name.as_str()).collect();
    assert_eq!(names, vec!["Alpha", "Mid", "Zed"]);
    assert!(entries[0].is_private);
    assert_eq!(entries[0].category, "private");
    assert_eq!(entries[0].url, "private/alice/Alpha/");
    assert_eq!(entries[1].category, "fiction");
    assert!(!entries[1].is_private);
    assert_eq!(book_name("a/b"), "b");
    assert_eq!(book_name(".."), "");
}

#[test]
fn admin_list() {
    let mut users = UsersFile::default();
    create_user(&mut users, "zoe", false).unwrap();
    create_user(&mut users, "adam", true).unwrap();
    let list = admin_user_entries(&users);
    let names: Vec<&str> = list.iter().map(|e| e.username.as_str()).collect();
    assert_eq!(names, vec!["adam", "zoe"]);
    assert!(list[0].is_admin && list[0].must_change_password);
    let info = UserInfo::from(&user("kim", true));
    assert_eq!(info.username, "kim");
    assert!(info.is_admin);
}

fn item(name: &str, is_dir: bool, has_index: bool) -> DirItem {
    DirItem { name: name.to_string(), is_dir, has_index }
}

#[test]
fn directory_pages() {
    let mut owners = BookOwnersFile::default();
    owners.set_owner("fiction/Book", "alice");
    let root = vec![
        item("zeta.txt", false, false),
        item("private", true, false),
        item(".hidden", true, false),
        item("fiction", true, false),
        item("about.txt", false, false),
    ];
    let v = directory_listing("", &root, &user("bob", false), &owners);
    let names: Vec<&str> = v.entries.iter().map(|e| e.name.as_str()).collect();
    assert_eq!(names, vec!["fiction", "about.txt", "zeta.txt"]);
    assert_eq!(v.current_path, "/");
    assert_eq!(v.parent_url, None);
    assert_eq!(v.entries[0].url, "fiction/");
    let v = directory_listing("", &root, &user("root", true), &owners);
    let names: Vec<&str> = v.entries.iter().map(|e| e.name.as_str()).collect();
    assert_eq!(names, vec!["fiction", "private", "about.txt", "zeta.txt"]);

    let fiction = vec![item("Other", true, true), item("Book", true, true), item("notes", true, false)];
    let v = directory_listing("fiction", &fiction, &user("bob", false), &owners);
    assert_eq!(v.current_path, "/fiction/");
    assert_eq!(v.parent_url, Some("../".to_string()));
    let names: Vec<&str> = v.entries.iter().map(|e| e.name.as_str()).collect();
    assert_eq!(names, vec!["Book", "Other", "notes"]);
    assert!(v.entries[0].is_book);
    assert_eq!(v.entries[0].uploaded_by, Some("alice".to_string()));
    assert_eq!(v.entries[1].uploaded_by, None);
    assert!(!v.entries[2].is_book);

    let private = vec![item("alice", true, false), item("bob", true, false)];
    let v = directory_listing("private", &private, &user("bob", false), &owners);
    let names: Vec<&str> = v.entries.iter().map(|e| e.name.as_str()).collect();
    assert_eq!(names, vec!["bob"]);
    let v = directory_listing("private/", &private, &user("root", true), &owners);
    assert_eq!(v.entries.len(), 2);
}

#[test]
fn serve_actions() {
    assert!(matches!(serve_action("fiction/Book", false, PathFound::BookIndex), ServeAction::ShowBook));
    assert!(matches!(serve_action("fiction", false, PathFound::Directory), ServeAction::ShowDirectory));
    assert!(matches!(serve_action("x", false, PathFound::Nothing), ServeAction::NotFound));
    match serve_action("fiction/Book/section_3.html", false, PathFound::File) {
        ServeAction::ShowSection(n) => assert_eq!(n, "section_3.html"),
        other => panic!("unexpected {other:?}"),
    }
    assert!(matches!(
        serve_action("fiction/Book/section_3.html", true, PathFound::File),
        ServeAction::SendFile
    ));
    assert!(matches!(
        serve_action("fiction/Book/images/cover.png", false, PathFound::File),
        ServeAction::SendFile
    ));
}
