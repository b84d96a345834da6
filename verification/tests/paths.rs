use std::path::Path;

use epub_reader::layout::{
    book_owners_path, sessions_json_path, user_data_dir, user_read_position_path, users_json_path,
    DirHelper, DATA_DIR, EPUBS_DIR, HTML_DIR,
};
use epub_reader::paths::{
    path_extension, path_file_name, path_file_stem, path_has_parent_dir, path_join, path_parent,
    path_strip_dir, path_with_extension,
};
use epub_reader::previous_path::previous_page_file;

const SAMPLES: &[&str] = &[
    "",
    "/",
    "//",
    ".",
    "./",
    "..",
    "../",
    "a",
    "a/",
    "a//",
    "/a",
    "//a",
    "a/b",
    "a//b",
    "a/./b",
    "a/b/.",
    "a/b/./",
    "./a",
    "./a/b",
    "a/..",
    "a/../b",
    "/a/b/c.txt",
    "a/b/c.tar.gz",
    "a/.hidden",
    "a/.hidden.txt",
    "a/name.",
    "fiction/My Book",
    "private/alice/My Book/section_3.html",
    "x/section_1",
    "épub/ünï.cødé",
    "a/b/..",
    "...",
    "a/.../b",
];

fn s(p: &Path) -> String {
    p.to_str().unwrap().to_string()
}

#[test]
fn file_name_matches_std() {
    for p in SAMPLES {
        let expected = Path::new(p).file_name().map(|n| n.to_str().unwrap().to_string());
        assert_eq!(path_file_name(p), expected, "file_name of {p:?}");
    }
}

#[test]
fn file_stem_matches_std() {
    for p in SAMPLES {
        let expected = Path::new(p).file_stem().map(|n| n.to_str().unwrap().to_string());
        assert_eq!(path_file_stem(p), expected, "file_stem of {p:?}");
    }
}

#[test]
fn extension_matches_std() {
    for p in SAMPLES {
        let expected = Path::new(p).extension().map(|n| n.to_str().unwrap().to_string());
        assert_eq!(path_extension(p), expected, "extension of {p:?}");
    }
}

#[test]
fn parent_matches_std() {
    for p in SAMPLES {
        let expected = Path::new(p).parent().map(s);
        assert_eq!(path_parent(p), expected, "parent of {p:?}");
    }
}

#[test]
fn with_extension_matches_std() {
    for p in SAMPLES {
        for ext in ["epub", "", "json"] {
            let expected = s(&Path::new(p).with_extension(ext));
            assert_eq!(path_with_extension(p, ext), expected, "{p:?} with extension {ext:?}");
        }
    }
}

#[test]
fn join_matches_std() {
    for base in ["", "a", "a/", "/", "data/users"] {
        for rel in SAMPLES {
            let expected = s(&Path::new(base).join(rel));
            assert_eq!(path_join(base, rel), expected, "{base:?} joined with {rel:?}");
        }
    }
}

#[test]
fn parent_dir_component_matches_std() {
    for p in SAMPLES {
        let expected =
            Path::new(p).components().any(|c| matches!(c, std::path::Component::ParentDir));
        assert_eq!(path_has_parent_dir(p), expected, "components of {p:?}");
    }
}

#[test]
fn strip_dir_for_walked_paths() {
    assert_eq!(path_strip_dir("epubs/a/b.epub", "epubs"), Some("a/b.epub".to_string()));
    assert_eq!(path_strip_dir("epubs", "epubs"), Some(String::new()));
    assert_eq!(path_strip_dir("epubsx/a.epub", "epubs"), None);
    assert_eq!(path_strip_dir("other/a.epub", "epubs"), None);
    for p in ["epubs/a/b.epub", "epubs/x.epub", "epubs"] {
        let expected = s(Path::new(p).strip_prefix("epubs").unwrap());
        assert_eq!(path_strip_dir(p, "epubs"), Some(expected));
    }
}

#[test]
fn dir_helper_paths() {
    let h = DirHelper::new("fiction/My Book".to_string());
    assert_eq!(h.epub_file_path(), format!("{EPUBS_DIR}/fiction/My Book.epub"));
    assert_eq!(h.html_dir(), format!("{HTML_DIR}/fiction/My Book"));
    let h2 = DirHelper::new("a/b.c".to_string());
    assert_eq!(
        h2.epub_file_path(),
        s(&Path::new(EPUBS_DIR).join("a/b.c").with_extension("epub"))
    );
}

#[test]
fn data_file_paths() {
    assert_eq!(users_json_path(), format!("{DATA_DIR}/users.json"));
    assert_eq!(sessions_json_path(), format!("{DATA_DIR}/sessions.json"));
    assert_eq!(book_owners_path(), format!("{DATA_DIR}/book_owners.json"));
    assert_eq!(user_data_dir("alice"), format!("{DATA_DIR}/users/alice"));
    assert_eq!(
        user_read_position_path("alice", "fiction/My Book"),
        format!("{DATA_DIR}/users/alice/read_positions/fiction/My Book.json")
    );
    assert_eq!(previous_page_file("bob"), format!("{DATA_DIR}/users/bob/previous.json"));
}

#[test]
fn user_dirs_are_distinct_and_named() {
    let a = user_data_dir("alice");
    let b = user_data_dir("bob");
    assert_ne!(a, b);
    assert_eq!(path_file_name(&a), Some("alice".to_string()));
    assert_eq!(path_parent(&b), Some(format!("{DATA_DIR}/users")));
    assert_eq!(Path::new(&a).parent(), Some(Path::new(DATA_DIR).join("users").as_path()));
}

#[test]
fn epub_and_html_paths_agree() {
    let h = DirHelper::new("fiction/My Book".to_string());
    let epub = h.epub_file_path();
    let html = h.html_dir();
    let e = path_strip_dir(&epub, EPUBS_DIR).unwrap();
    assert_eq!(path_with_extension(&e, ""), path_strip_dir(&html, HTML_DIR).unwrap());
    assert_eq!(path_with_extension(&e, ""), "fiction/My Book");
    for p in ["a//b", "a/./b/", "./a/b", "a/b//"] {
        let h = DirHelper::new(p.to_string());
        let e = path_strip_dir(&h.epub_file_path(), EPUBS_DIR).unwrap();
        let x = path_strip_dir(&h.html_dir(), HTML_DIR).unwrap();
        assert_eq!(x, p);
        assert_eq!(Path::new(&path_with_extension(&e, "")), Path::new(&x), "{p}");
        // the same relation as std computes it
        let std_e = Path::new(EPUBS_DIR).join(p).with_extension("epub");
        let std_e = std_e.strip_prefix(EPUBS_DIR).unwrap().with_extension("");
        assert_eq!(std_e.as_path(), Path::new(HTML_DIR).join(p).strip_prefix(HTML_DIR).unwrap(), "{p}");
    }
}

#[test]
fn user_dir_join_is_path_join() {
    // an absolute name replaces the base, as `Path::join` does
    assert_eq!(user_data_dir("/etc"), "/etc".to_string());
}
