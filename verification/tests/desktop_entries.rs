use xdg_tui::desktop_entries::{dedup_by_id, discover_apps, sort_by_name, AppEntry, DesktopFields};

fn file(path: &str, content: &str) -> (String, String) {
    (path.to_string(), content.to_string())
}

fn entry(id: &str, name: &str) -> AppEntry {
    AppEntry {
        id: id.to_string(),
        name: name.to_string(),
        generic_name: None,
        comment: None,
        exec_line: None,
        icon: None,
        categories: Vec::new(),
        mime_types: Vec::new(),
        no_display: false,
        terminal: false,
        path: String::new(),
    }
}

const FIREFOX: &str = "\
[Desktop Entry]
Name=Firefox
GenericName=Web Browser
Comment=Browse the Web
Exec=firefox %u
Icon=firefox
Categories=Network;WebBrowser;
MimeType=text/html;x-scheme-handler/http;
Terminal=false
NoDisplay=false
";

#[test]
fn desktop_entries_discover_does_not_panic() {
    let _ = discover_apps(&Vec::new());
    let _ = discover_apps(&vec![file("/x/applications/a.desktop", "garbage\\"), file("", "")]);
}

#[test]
fn parses_fields_of_a_desktop_file() {
    let apps = discover_apps(&vec![file("/usr/share/applications/firefox.desktop", FIREFOX)]);
    assert_eq!(apps.len(), 1);
    let a = &apps[0];
    assert_eq!(a.id, "firefox");
    assert_eq!(a.name, "Firefox");
    assert_eq!(a.generic_name.as_deref(), Some("Web Browser"));
    assert_eq!(a.comment.as_deref(), Some("Browse the Web"));
    assert_eq!(a.exec_line.as_deref(), Some("firefox %u"));
    assert_eq!(a.icon.as_deref(), Some("firefox"));
    assert_eq!(a.categories, vec!["Network", "WebBrowser", ""]);
    assert_eq!(a.mime_types, vec!["text/html", "x-scheme-handler/http", ""]);
    assert!(!a.terminal);
    assert!(!a.no_display);
    assert_eq!(a.path, "/usr/share/applications/firefox.desktop");
}

#[test]
fn name_falls_back_to_id_and_flags_are_read() {
    let apps = discover_apps(&vec![file(
        "/usr/share/applications/org.example.Tool.desktop",
        "[Desktop Entry]\nExec=tool\nTerminal=true\nNoDisplay=true\n",
    )]);
    assert_eq!(apps.len(), 1);
    assert_eq!(apps[0].id, "org.example.Tool");
    assert_eq!(apps[0].name, "org.example.Tool");
    assert!(apps[0].terminal);
    assert!(apps[0].no_display);
    assert!(apps[0].categories.is_empty());
    assert!(apps[0].mime_types.is_empty());
}

#[test]
fn rejected_files_are_skipped() {
    let apps = discover_apps(&vec![
        file("/usr/share/applications/broken.desktop", "[Desktop Entry]\nExec=bad\\\n"),
        file("/usr/share/applications/notes.txt", FIREFOX),
        file("/usr/share/applications/ok.desktop", "[Desktop Entry]\nName=Ok\n"),
    ]);
    let ids: Vec<&str> = apps.iter().map(|a| a.id.as_str()).collect();
    assert_eq!(ids, vec!["ok"]);
}

#[test]
fn sorted_by_lowercase_name_and_repeated_ids_dropped() {
    let apps = discover_apps(&vec![
        file("/home/u/.local/share/applications/zeta.desktop", "[Desktop Entry]\nName=zeta\n"),
        file("/home/u/.local/share/applications/b.desktop", "[Desktop Entry]\nName=Beta local\n"),
        file("/usr/share/applications/a.desktop", "[Desktop Entry]\nName=alpha\n"),
        file("/usr/share/applications/b.desktop", "[Desktop Entry]\nName=beta LOCAL\n"),
        file("/usr/share/applications/c.desktop", "[Desktop Entry]\nName=Gamma\n"),
    ]);
    let got: Vec<(&str, &str)> = apps.iter().map(|a| (a.id.as_str(), a.name.as_str())).collect();
    assert_eq!(got, vec![("a", "alpha"), ("b", "Beta local"), ("c", "Gamma"), ("zeta", "zeta")]);
    assert_eq!(apps[1].path, "/home/u/.local/share/applications/b.desktop");
}

#[test]
fn sort_is_stable_and_case_insensitive() {
    let sorted = sort_by_name(vec![
        entry("3", "b"),
        entry("1", "B"),
        entry("2", "a"),
        entry("4", "\u{c4}pfel"),
        entry("5", "A"),
    ]);
    let ids: Vec<&str> = sorted.iter().map(|a| a.id.as_str()).collect();
    assert_eq!(ids, vec!["2", "5", "3", "1", "4"]);
}

#[test]
fn dedup_drops_only_neighbouring_repeats() {
    let kept = dedup_by_id(vec![entry("a", "1"), entry("a", "2"), entry("b", "3"), entry("a", "4"), entry("a", "5")]);
    let names: Vec<&str> = kept.iter().map(|a| a.name.as_str()).collect();
    assert_eq!(names, vec!["1", "3", "4"]);
}

#[test]
fn from_entry_defaults() {
    let fields = DesktopFields {
        appid: "x".to_string(),
        name: None,
        generic_name: None,
        comment: Some("c".to_string()),
        exec_line: None,
        icon: None,
        categories: None,
        mime_types: Some(vec!["a/b".to_string()]),
        no_display: true,
        terminal: false,
    };
    let a = AppEntry::from_entry(fields, "/p/x.desktop".to_string());
    assert_eq!(a.name, "x");
    assert_eq!(a.id, "x");
    assert!(a.categories.is_empty());
    assert_eq!(a.mime_types, vec!["a/b"]);
    assert_eq!(a.comment.as_deref(), Some("c"));
    assert!(a.no_display);
    assert_eq!(a.path, "/p/x.desktop");
}

#[test]
fn discovered_apps_are_sorted_by_lowercase_name() {
    let apps = discover_apps(&vec![
        file("/a/applications/q.desktop", "[Desktop Entry]\nName=quail\n"),
        file("/a/applications/b.desktop", "[Desktop Entry]\nName=Bee\n"),
        file("/b/applications/a.desktop", "[Desktop Entry]\nName=apple\n"),
        file("/a/applications/z.desktop", "[Desktop Entry]\nName=Zebra\n"),
    ]);
    let names: Vec<String> = apps.iter().map(|a| a.name.to_lowercase()).collect();
    let mut sorted = names.clone();
    sorted.sort();
    assert_eq!(names, sorted);
    assert_eq!(names, vec!["apple", "bee", "quail", "zebra"]);
}
