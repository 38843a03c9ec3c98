use indexmap::IndexMap;
use window_switcher::icon_source::{
    browser_of, find_override, get_app_icon, icon_sources, Browser, IconSource,
};
use window_switcher::text::{
    contains_text, eq_ignore_ascii_case, path_file_name, path_parts, text_starts_with,
};

fn names(sources: &[IconSource]) -> Vec<String> {
    sources
        .iter()
        .map(|source| match source {
            IconSource::Override(path) => format!("override {path}"),
            IconSource::Package { app_id } => format!("package {app_id}"),
            IconSource::Shortcut { exe_path, app_type, app_id } => {
                format!("shortcut {exe_path} {app_type} {app_id}")
            }
            IconSource::Profile { browser, profile } => format!("profile {browser:?} {profile}"),
            IconSource::AppxLogo => "appx".to_string(),
            IconSource::Executable(path) => format!("exe {path}"),
            IconSource::Window => "window".to_string(),
            IconSource::Fallback => "fallback".to_string(),
        })
        .collect()
}

fn sources(overrides: &[(&str, &str)], app_path: &str) -> Vec<String> {
    let map: IndexMap<String, String> = overrides
        .iter()
        .map(|(key, value)| (key.to_string(), value.to_string()))
        .collect();
    names(&get_app_icon(&map, app_path))
}

#[test]
fn an_ordinary_application_has_the_icon_of_its_executable() {
    assert_eq!(
        sources(&[], "C:\\Tools\\Editor.exe"),
        vec!["exe C:\\Tools\\Editor.exe", "window", "fallback"]
    );
}

#[test]
fn the_configuration_comes_first() {
    let overrides = [
        ("calc.exe", "calc.ico"),
        ("ÉDITOR.EXE", "editor.ico"),
        ("tools", "tools.ico"),
    ];
    // The case of letters does not matter, and the first entry that fits is taken.
    assert_eq!(
        sources(&overrides, "C:\\Tools\\éditor.exe"),
        vec![
            "override editor.ico",
            "exe C:\\Tools\\éditor.exe",
            "window",
            "fallback"
        ]
    );
    assert_eq!(
        sources(&overrides, "C:\\TOOLS\\other.exe")[0],
        "override tools.ico"
    );
    assert_eq!(sources(&overrides, "D:\\other.exe").len(), 3);
}

#[test]
fn hosted_applications_have_their_own_icons() {
    assert_eq!(
        sources(&[], "C:\\edge.exe::appx::Pkg_123"),
        vec!["package Pkg_123", "exe C:\\edge.exe", "window", "fallback"]
    );
    assert_eq!(
        sources(&[], "C:\\edge.exe::Default::abc"),
        vec![
            "shortcut C:\\edge.exe Default abc",
            "exe C:\\edge.exe",
            "window",
            "fallback"
        ]
    );
    assert_eq!(sources(&[], "a::b::c::d"), vec!["exe a", "window", "fallback"]);
}

#[test]
fn browser_profiles_have_their_own_icons() {
    assert_eq!(
        sources(&[], "C:\\Google\\Chrome.EXE::Profile 1"),
        vec![
            "profile Chrome Profile 1",
            "exe C:\\Google\\Chrome.EXE",
            "window",
            "fallback"
        ]
    );
    assert_eq!(
        sources(&[], "C:\\msedge.exe::Work")[0],
        "profile Edge Work"
    );
    assert_eq!(sources(&[], "C:\\firefox.exe::Work").len(), 3);
    assert_eq!(Browser::Chrome.user_data_dir(), r"Google\Chrome\User Data");
    assert_eq!(Browser::Edge.user_data_dir(), r"Microsoft\Edge\User Data");
    assert_eq!(Browser::Chrome.icon_file(), "Google Profile.ico");
    assert_eq!(Browser::Edge.icon_file(), "Edge Profile.ico");
}

#[test]
fn packaged_applications_have_logos() {
    assert_eq!(
        sources(&[], "C:\\Program Files\\WindowsApps\\Pkg\\app.exe")[0],
        "appx"
    );
    assert_eq!(
        sources(&[], "c:\\Program Files\\WindowsApps\\Pkg\\app.exe").len(),
        3
    );
}

#[test]
fn what_is_known_of_an_application_decides() {
    assert_eq!(
        names(&icon_sources(Some("x.ico".to_string()), "a::b", Some(Browser::Edge))),
        vec!["override x.ico", "profile Edge b", "exe a", "window", "fallback"]
    );
    assert_eq!(browser_of("c:\\chrome.exe"), Some(Browser::Chrome));
    assert_eq!(browser_of("c:\\msedge.exe"), Some(Browser::Edge));
    assert_eq!(browser_of("c:\\Chrome.exe"), None);
    let keys: Vec<String> = ["zz", "b", "a"].iter().map(|k| k.to_string()).collect();
    assert_eq!(find_override(&keys, "abc"), Some(1));
    assert_eq!(find_override(&keys, "xyz"), None);
}

#[test]
fn paths_are_taken_apart() {
    assert_eq!(path_parts("a::b:::c"), vec!["a", "b", ":c"]);
    assert_eq!(path_parts(""), vec![""]);
    assert_eq!(path_parts("::"), vec!["", ""]);
    assert_eq!(path_parts("a:b"), vec!["a:b"]);
    assert_eq!(path_file_name("C:\\x\\y.exe"), "y.exe");
    assert_eq!(path_file_name("y.exe"), "y.exe");
    assert_eq!(path_file_name("C:\\x\\"), "");
    for path in ["a::b:::c", "", "::", ":::", "::::", "a:b:", "é::ü"] {
        assert_eq!(path_parts(path), path.split("::").collect::<Vec<_>>(), "{path}");
    }
}

#[test]
fn texts_are_compared() {
    assert!(contains_text("abc", ""));
    assert!(contains_text("abc", "bc"));
    assert!(!contains_text("abc", "abcd"));
    assert!(!contains_text("abc", "ac"));
    assert!(text_starts_with("abc", "ab"));
    assert!(!text_starts_with("abc", "b"));
    assert!(eq_ignore_ascii_case("ICO", "ico"));
    assert!(!eq_ignore_ascii_case("É", "é"));
}
