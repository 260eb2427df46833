use karvon::paths::{cwd_matches_root, file_name, path_lies_within};
use karvon::platform::Platform;

#[test]
fn cwd_match_accepts_exact_directory() {
    assert!(cwd_matches_root(Platform::Unix, "/tmp/karvon/project", "/tmp/karvon/project"));
}

#[test]
fn cwd_match_accepts_child_directory() {
    assert!(cwd_matches_root(Platform::Unix, "/tmp/karvon/project/packages/api", "/tmp/karvon/project"));
}

#[test]
fn cwd_match_rejects_sibling_directory() {
    assert!(!cwd_matches_root(Platform::Unix, "/tmp/karvon/project-api", "/tmp/karvon/project"));
}

const PATHS: [&str; 18] = [
    "", "/", ".", "..", "a", "/a", "a/b", "/a/b", "/a//b/", "/a/./b", "./a", "a/.", "/a/..", "a/../b",
    "//a", "/a/b/c", "/ab", "a b/ä",
];

#[test]
fn agrees_with_the_standard_library() {
    for path in PATHS {
        assert_eq!(
            file_name(Platform::Unix, path).as_deref(),
            std::path::Path::new(path).file_name().and_then(|name| name.to_str()),
            "file name of {path:?}"
        );
        for base in PATHS {
            assert_eq!(
                path_lies_within(Platform::Unix, path, base),
                std::path::Path::new(path).starts_with(base),
                "{path:?} within {base:?}"
            );
        }
    }
}

#[test]
fn windows_names() {
    let name = |path| file_name(Platform::Windows, path);
    let some = |text: &str| Some(text.to_string());
    assert_eq!(name("C:\\a\\b.txt"), some("b.txt"));
    assert_eq!(name("a/b\\c/"), some("c"));
    assert_eq!(name("C:b"), some("b"));
    assert_eq!(name("C:"), None);
    assert_eq!(name("C:\\"), None);
    assert_eq!(name("."), None);
    assert_eq!(name("a\\."), some("a"));
    assert_eq!(name("a\\.."), None);
    assert_eq!(name("\\\\server\\share"), None);
    assert_eq!(name("//server/share/x"), some("x"));
    assert_eq!(name("\\\\server"), some("server"));
    assert_eq!(name("\\\\.\\COM42"), None);
    assert_eq!(name("\\\\?\\C:\\a/b"), some("a/b"));
    assert_eq!(name("\\\\?\\C:\\a\\."), None);
    assert_eq!(name("\\\\?\\UNC\\server\\share\\x"), some("x"));
    assert_eq!(name("\\\\?\\UNC\\server\\share"), None);
    assert_eq!(name("\\\\?\\pictures\\kittens"), some("kittens"));
    assert_eq!(name("1:b"), some("1:b"));
    assert_eq!(name(""), None);
}

#[test]
fn windows_directories() {
    let within = |path, base| cwd_matches_root(Platform::Windows, path, base);
    assert!(within("C:\\srv\\shop", "c:/srv/shop/"));
    assert!(within("C:\\srv\\shop\\api", "C:\\srv"));
    assert!(!within("C:\\srv\\shop-api", "C:\\srv\\shop"));
    assert!(!within("C:\\Srv", "C:\\srv"));
    assert!(!within("C:srv", "C:\\srv"));
    assert!(within("C:\\srv", "C:"));
    assert!(!within("D:\\srv", "C:\\srv"));
    assert!(within("\\\\server\\share\\x", "//server/share"));
    assert!(!within("\\\\server\\other\\x", "\\\\server\\share"));
    assert!(!within("\\\\?\\C:\\srv", "C:\\srv"));
    assert!(within("\\\\?\\c:\\srv", "\\\\?\\C:\\"));
    assert!(within("C:\\srv", ""));
}
