use xdg_tui::app::{Status, Tab};
use xdg_tui::desktop_entries::AppEntry;
use xdg_tui::mime::MimeAssociation;
use xdg_tui::text::{
    contains_chars, is_white_space_char, order_keys, push_decimal, split_chars, to_chars, trim_chars,
    KeyOrder,
};
use xdg_tui::ui::{
    app_detail, app_row, base_detail, base_mark, count_label, filter_label, help_line, mime_detail,
    mime_row, status_line, status_line_after, tab_label, truncate, Look,
};
use xdg_tui::xdg_base::BaseDirs;

fn chars(s: &str) -> Vec<char> {
    s.chars().collect()
}

#[test]
fn whitespace_matches_std() {
    for u in 0u32..=0x10FFFF {
        if let Some(c) = char::from_u32(u) {
            assert_eq!(is_white_space_char(c), c.is_whitespace(), "U+{:04X}", u);
        }
    }
}

#[test]
fn trim_split_contains() {
    let t: String = trim_chars(&chars("\u{3000} a b \t\r")).into_iter().collect();
    assert_eq!(t, "a b");
    let parts: Vec<String> = split_chars(&chars("a;;b;"), ';').into_iter().map(|p| p.into_iter().collect()).collect();
    assert_eq!(parts, vec!["a", "", "b", ""]);
    assert_eq!(split_chars(&chars(""), ';').len(), 1);
    assert!(contains_chars(&chars("hello"), &chars("ll")));
    assert!(contains_chars(&chars("hello"), &chars("")));
    assert!(!contains_chars(&chars("hello"), &chars("lo!")));
    assert!(!contains_chars(&chars("he"), &chars("hello")));
    assert_eq!(to_chars("h\u{e9}"), vec!['h', '\u{e9}']);
}

#[test]
fn key_order_and_decimals() {
    assert!(matches!(order_keys(&chars("ab"), &chars("b")), KeyOrder::Before));
    assert!(matches!(order_keys(&chars("b"), &chars("ab")), KeyOrder::After));
    assert!(matches!(order_keys(&chars("a"), &chars("ab")), KeyOrder::Before));
    assert!(matches!(order_keys(&chars("ab"), &chars("ab")), KeyOrder::Same));
    let mut out = Vec::new();
    push_decimal(1234567890123, &mut out);
    assert_eq!(out.into_iter().collect::<String>(), "1234567890123");
    let mut out = Vec::new();
    push_decimal(0, &mut out);
    assert_eq!(out, vec!['0']);
}

#[test]
fn truncate_keeps_whole_characters() {
    assert_eq!(truncate("hello", 10), "hello");
    assert_eq!(truncate("hello", 3), "hel");
    assert_eq!(truncate("h\u{e9}llo", 2), "h");
    assert_eq!(truncate("h\u{e9}llo", 3), "h\u{e9}");
    assert_eq!(truncate("\u{1F600}x", 3), "");
    assert_eq!(truncate("abc", 0), "");
}

#[test]
fn labels_and_help() {
    assert_eq!(tab_label(Tab::MimeTypes), " MIME Defaults ");
    assert_eq!(count_label(12), "(12) ");
    assert_eq!(filter_label("", false), " / to filter ");
    assert_eq!(filter_label("", true), " filter: _ ");
    assert_eq!(filter_label("pdf", false), " filter: pdf_ ");
    assert_eq!(help_line(Tab::BaseDirs), "q quit \u{b7} Tab/Shift-Tab switch \u{b7} \u{2191}\u{2193} move \u{b7} r reload");
    assert_eq!(
        help_line(Tab::MimeTypes),
        "q quit \u{b7} Tab/Shift-Tab switch \u{b7} \u{2191}\u{2193} move \u{b7} r reload \u{b7} / filter \u{b7} Enter set default (prompts app)"
    );
    assert!(help_line(Tab::Applications).ends_with(" \u{b7} / filter"));
    assert_eq!(base_mark(true), " \u{25cf} ");
    assert_eq!(base_mark(false), " \u{25cb} ");
}

#[test]
fn rows() {
    let m = MimeAssociation {
        mime_type: "text/html".to_string(),
        default_app: None,
        added_apps: Vec::new(),
        removed_apps: Vec::new(),
    };
    let (a, b) = mime_row(&m);
    assert_eq!(a, format!(" {:<36} ", "text/html"));
    assert_eq!(b, "\u{2014}");
    let long = "x".repeat(50);
    let m2 = MimeAssociation { mime_type: long.clone(), default_app: Some(long.clone()), ..m };
    let (a, b) = mime_row(&m2);
    assert_eq!(a, format!(" {} ", &long[..36]));
    assert_eq!(b, &long[..28]);
    let app = AppEntry {
        id: "x".to_string(),
        name: "Name".to_string(),
        generic_name: None,
        comment: None,
        exec_line: None,
        icon: None,
        categories: Vec::new(),
        mime_types: Vec::new(),
        no_display: true,
        terminal: false,
        path: String::new(),
    };
    assert_eq!(app_row(&app), (" \u{b7} ".to_string(), "Name".to_string()));
}

fn texts(lines: &[xdg_tui::ui::DetailLine]) -> Vec<String> {
    lines.iter().map(|l| format!("{}{}", l.label, l.text)).collect()
}

#[test]
fn detail_panels() {
    let none = mime_detail(None);
    assert_eq!(texts(&none), vec!["No MIME associations found. Your mimeapps.list may be empty or absent."]);
    assert!(none[0].look == Look::Subtle);
    let m = MimeAssociation {
        mime_type: "text/html".to_string(),
        default_app: None,
        added_apps: vec!["a.desktop".to_string()],
        removed_apps: Vec::new(),
    };
    assert_eq!(
        texts(&mime_detail(Some(&m))),
        vec!["text/html", "", "Default   (none)", "", "Added associations", "  \u{2022} a.desktop"]
    );
    let app = AppEntry {
        id: "firefox".to_string(),
        name: "Firefox".to_string(),
        generic_name: Some("Web Browser".to_string()),
        comment: Some("Browse".to_string()),
        exec_line: Some("firefox %u".to_string()),
        icon: None,
        categories: vec!["Network".to_string(), "WebBrowser".to_string()],
        mime_types: (0..10).map(|i| format!("t/{}", i)).collect(),
        no_display: false,
        terminal: true,
        path: "/p".to_string(),
    };
    let lines = texts(&app_detail(Some(&app)));
    assert_eq!(
        lines,
        vec![
            "Firefox", "Web Browser", "", "ID        firefox", "Exec      firefox %u",
            "Terminal  true", "NoDisplay false", "Path      /p", "", "Browse", "", "Categories",
            "Network \u{b7} WebBrowser", "", "Handles 10 MIME type(s)", "  \u{2022} t/0", "  \u{2022} t/1",
            "  \u{2022} t/2", "  \u{2022} t/3", "  \u{2022} t/4", "  \u{2022} t/5", "  \u{2022} t/6",
            "  \u{2022} t/7", "  \u{2026}and 2 more",
        ]
    );
    assert_eq!(texts(&app_detail(None)), vec!["No applications found."]);
    let b = BaseDirs::discover(Some("/h".to_string()), 1, &Vec::new());
    let lines = base_detail(&b.dirs[0]);
    assert_eq!(
        texts(&lines),
        vec!["XDG_CONFIG_HOME", "", "Path      /h/.config", "Source    spec default", "Status    missing", "", "User-specific configuration files"]
    );
    assert!(lines[3].look == Look::Dim && lines[4].look == Look::Warn && lines[6].look == Look::Italic);
}

#[test]
fn status_line_shows_live_messages_only() {
    let info = Some(Status::info("saved".to_string()));
    let line = status_line_after(&info, 3999);
    assert_eq!(line.text, "saved");
    assert!(line.look == Look::Good);
    assert!(line.label.is_empty());
    let gone = status_line_after(&info, 4000);
    assert_eq!(gone.text, "");
    assert!(gone.look == Look::Plain);

    let err = Some(Status::error("failed".to_string()));
    let line = status_line_after(&err, 5999);
    assert_eq!(line.text, "failed");
    assert!(line.look == Look::Error);
    assert_eq!(status_line_after(&err, 6000).text, "");

    assert_eq!(status_line_after(&None, 0).text, "");
    assert_eq!(status_line(&None).text, "");
    let now = status_line(&Some(Status::error("oops".to_string())));
    assert_eq!(now.text, "oops");
    assert!(now.look == Look::Error);
}
