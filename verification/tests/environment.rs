use karvon::environment::{effective_process_env, Surroundings};
use karvon::platform::{unix, windows, Platform};
use karvon::text_map::TextMap;

fn surroundings() -> Surroundings {
    Surroundings {
        path: Some("/usr/bin:/custom/bin".to_string()),
        home: Some("/Users/example".to_string()),
        user_profile: None,
        local_app_data: None,
    }
}

#[test]
fn default_process_path_includes_herd_bin_first() {
    let path = unix::default_process_path(
        Some("/custom/bin:/usr/bin".to_string()),
        Some("/Users/example".to_string()),
    );
    let entries: Vec<_> = path.split(':').collect();

    assert_eq!(
        entries.first().copied(),
        Some("/Users/example/Library/Application Support/Herd/bin")
    );
    assert!(entries.contains(&"/opt/homebrew/bin"));
    assert!(entries.contains(&"/usr/local/bin"));
    assert!(entries.contains(&"/custom/bin"));
}

#[test]
fn default_process_path_deduplicates_entries() {
    let path = unix::default_process_path(
        Some("/usr/local/bin:/opt/homebrew/bin:/custom/bin:/custom/bin".to_string()),
        Some("/Users/example".to_string()),
    );
    let entries: Vec<_> = path.split(':').collect();

    assert_eq!(entries.iter().filter(|entry| **entry == "/opt/homebrew/bin").count(), 1);
    assert_eq!(entries.iter().filter(|entry| **entry == "/custom/bin").count(), 1);
}

#[test]
fn effective_process_env_preserves_explicit_path() {
    let mut process_env = TextMap::new();
    process_env.insert("PATH".to_string(), "/custom/php/bin".to_string());
    process_env.insert("APP_ENV".to_string(), "local".to_string());

    let env = effective_process_env(&process_env, Platform::Unix, &surroundings());

    assert_eq!(env.get("PATH").map(String::as_str), Some("/custom/php/bin"));
    assert_eq!(env.get("APP_ENV").map(String::as_str), Some("local"));
}

#[test]
fn effective_process_env_keeps_unrelated_vars() {
    let mut process_env = TextMap::new();
    process_env.insert("APP_ENV".to_string(), "local".to_string());

    let env = effective_process_env(&process_env, Platform::Unix, &surroundings());

    assert_eq!(env.get("APP_ENV").map(String::as_str), Some("local"));
    assert!(env
        .get("PATH")
        .is_some_and(|path| path.contains("/Library/Application Support/Herd/bin")));
}

#[test]
fn default_path_exact() {
    assert_eq!(
        unix::default_process_path(Some(" /a : : /bin ".to_string()), None),
        "/opt/homebrew/bin:/usr/local/bin:/usr/bin:/bin:/usr/sbin:/sbin:/a"
    );
    assert_eq!(
        unix::default_process_path(None, Some("/h".to_string())),
        "/h/Library/Application Support/Herd/bin:/opt/homebrew/bin:/usr/local/bin:/usr/bin:/bin:/usr/sbin:/sbin"
    );
}

#[test]
fn windows_path_ignores_case_and_prefers_local_app_data() {
    assert_eq!(
        windows::default_process_path(
            Some("C:\\Tools; c:\\tools ;D:\\x;;D:\\X".to_string()),
            Some("C:\\Users\\dev".to_string()),
            Some("C:\\Local".to_string()),
        ),
        "C:\\Local\\Herd\\bin;C:\\Tools;D:\\x"
    );
    assert_eq!(
        windows::default_process_path(None, Some("C:\\Users\\dev".to_string()), None),
        "C:\\Users\\dev\\Herd\\bin"
    );
    assert_eq!(windows::default_process_path(None, None, None), "");
}

#[test]
fn home_falls_back_to_the_user_profile() {
    let env = effective_process_env(
        &TextMap::new(),
        Platform::Windows,
        &Surroundings {
            path: None,
            home: None,
            user_profile: Some("C:\\Users\\dev".to_string()),
            local_app_data: None,
        },
    );
    assert_eq!(env.get("PATH").map(String::as_str), Some("C:\\Users\\dev\\Herd\\bin"));
}

#[test]
fn repeated_folders_keep_their_first_place() {
    let paths: Vec<String> =
        ["/b", "/a", "/b", "/c", "/a"].iter().map(|path| path.to_string()).collect();
    let once = unix::dedupe_paths(&paths);
    assert_eq!(once, ["/b", "/a", "/c"]);
    assert_eq!(unix::dedupe_paths(&once), once);
    let mixed: Vec<String> = ["C:\\A", "c:\\a", "D"].iter().map(|path| path.to_string()).collect();
    assert_eq!(windows::dedupe_paths(&mixed), ["C:\\A", "D"]);
}

#[test]
fn making_the_path_again_changes_nothing() {
    for home in [None, Some("/Users/example".to_string()), Some(String::new())] {
        let once = unix::default_process_path(Some(" /a : /bin::/b b".to_string()), home.clone());
        assert_eq!(unix::default_process_path(Some(once.clone()), home.clone()), once);
    }
    // A home directory with a colon is taken for two folders.
    let home = Some("/x:y".to_string());
    let once = unix::default_process_path(None, home.clone());
    assert_ne!(unix::default_process_path(Some(once.clone()), home), once);
}
