use xdg_tui::app::{App, Selection, Status, Tab};
use xdg_tui::desktop_entries::AppEntry;
use xdg_tui::input::{
    classify_key, complete_set_default, desktop_file_for, handle_enter, handle_filter_key, handle_key,
    Action, Command, Key, Modifiers,
};
use xdg_tui::mime::MimeAssociation;
use xdg_tui::xdg_base::BaseDirs;

const NONE: Modifiers = Modifiers { control: false, others: false };
const CTRL: Modifiers = Modifiers { control: true, others: false };
const SHIFT: Modifiers = Modifiers { control: false, others: true };

fn assoc(t: &str, default: Option<&str>) -> MimeAssociation {
    MimeAssociation {
        mime_type: t.to_string(),
        default_app: default.map(|d| d.to_string()),
        added_apps: Vec::new(),
        removed_apps: Vec::new(),
    }
}

fn app_entry(id: &str, name: &str, categories: &[&str]) -> AppEntry {
    AppEntry {
        id: id.to_string(),
        name: name.to_string(),
        generic_name: None,
        comment: None,
        exec_line: None,
        icon: None,
        categories: categories.iter().map(|c| c.to_string()).collect(),
        mime_types: Vec::new(),
        no_display: false,
        terminal: false,
        path: String::new(),
    }
}

fn sample() -> App {
    let base = BaseDirs::discover(Some("/home/u".to_string()), 1000, &Vec::new());
    App::new(
        base,
        vec![
            assoc("application/pdf", Some("org.gnome.Evince.desktop")),
            assoc("image/png", None),
            assoc("text/html", Some("firefox.desktop")),
        ],
        vec![
            app_entry("org.gnome.Evince", "Document Viewer", &["Office", "Viewer"]),
            app_entry("firefox", "Firefox", &["Network"]),
            app_entry("gimp.desktop", "GNU Image Manipulation Program", &["Graphics"]),
        ],
    )
}

fn press(app: &mut App, key: Key) -> Action {
    handle_key(app, &key, NONE)
}

#[test]
fn new_app_selects_first_rows() {
    let app = sample();
    assert_eq!(app.tab, Tab::BaseDirs);
    assert!(!app.should_quit);
    assert_eq!(app.base_state.selected(), Some(0));
    assert_eq!(app.mime_state.selected(), Some(0));
    assert_eq!(app.app_state.selected(), Some(0));
    assert!(app.status.is_none());
    let empty = App::new(BaseDirs { dirs: Vec::new() }, Vec::new(), Vec::new());
    assert_eq!(empty.base_state.selected(), Some(0));
    assert_eq!(empty.mime_state.selected(), None);
    assert_eq!(empty.app_state.selected(), None);
}

#[test]
fn empty_filter_lists_everything() {
    let app = sample();
    assert_eq!(app.filtered_mime_indices(), vec![0, 1, 2]);
    assert_eq!(app.filtered_app_indices(), vec![0, 1, 2]);
}

#[test]
fn mime_filter_is_case_insensitive_and_checks_default() {
    let mut app = sample();
    app.mime_filter = "PNG".to_string();
    assert_eq!(app.filtered_mime_indices(), vec![1]);
    app.mime_filter = "FIREFOX".to_string();
    assert_eq!(app.filtered_mime_indices(), vec![2]);
    app.mime_filter = "O".to_string();
    assert_eq!(app.filtered_mime_indices(), vec![0, 2]);
    app.mime_filter = "zzz".to_string();
    assert!(app.filtered_mime_indices().is_empty());
}

#[test]
fn app_filter_checks_name_id_and_categories() {
    let mut app = sample();
    app.app_filter = "viewer".to_string();
    assert_eq!(app.filtered_app_indices(), vec![0]);
    app.app_filter = "GRAPH".to_string();
    assert_eq!(app.filtered_app_indices(), vec![2]);
    app.app_filter = "FIREF".to_string();
    assert_eq!(app.filtered_app_indices(), vec![1]);
    app.app_filter = "gnome".to_string();
    assert_eq!(app.filtered_app_indices(), vec![0]);
}

#[test]
fn selection_wraps_both_ways() {
    let mut app = sample();
    assert_eq!(app.base_state.selected(), Some(0));
    app.move_selection(-1);
    assert_eq!(app.base_state.selected(), Some(6));
    app.move_selection(1);
    assert_eq!(app.base_state.selected(), Some(0));
    app.move_selection(3);
    assert_eq!(app.base_state.selected(), Some(3));
    app.move_selection(-10);
    assert_eq!(app.base_state.selected(), Some(0));
    app.tab = Tab::MimeTypes;
    app.mime_filter = "nothing matches".to_string();
    app.move_selection(1);
    assert_eq!(app.mime_state.selected(), None);
    app.mime_filter = String::new();
    app.move_selection(1);
    assert_eq!(app.mime_state.selected(), Some(1));
    assert!(app.can_move_selection(1));
    app.mime_state.select(Some(i32::MAX as usize));
    assert!(!app.can_move_selection(1));
    assert!(app.can_move_selection(-1));
}

#[test]
fn selection_select_and_read() {
    let mut s = Selection::new();
    assert_eq!(s.selected(), None);
    s.select(Some(4));
    assert_eq!(s.selected(), Some(4));
}

#[test]
fn quit_keys() {
    let mut app = sample();
    assert!(matches!(handle_key(&mut app, &Key::Char('c'), NONE), Action::Nothing));
    assert!(!app.should_quit);
    handle_key(&mut app, &Key::Char('c'), CTRL);
    assert!(app.should_quit);
    let mut app = sample();
    press(&mut app, Key::Esc);
    assert!(app.should_quit);
    let mut app = sample();
    press(&mut app, Key::Char('q'));
    assert!(app.should_quit);
}

#[test]
fn tab_switching_keys() {
    let mut app = sample();
    press(&mut app, Key::Tab);
    assert_eq!(app.tab, Tab::MimeTypes);
    press(&mut app, Key::Right);
    assert_eq!(app.tab, Tab::Applications);
    handle_key(&mut app, &Key::Tab, SHIFT);
    assert_eq!(app.tab, Tab::Applications);
    handle_key(&mut app, &Key::BackTab, SHIFT);
    assert_eq!(app.tab, Tab::MimeTypes);
    press(&mut app, Key::Left);
    assert_eq!(app.tab, Tab::BaseDirs);
}

#[test]
fn movement_and_reload_keys() {
    let mut app = sample();
    press(&mut app, Key::Down);
    press(&mut app, Key::Char('j'));
    assert_eq!(app.base_state.selected(), Some(2));
    press(&mut app, Key::Up);
    press(&mut app, Key::Char('k'));
    press(&mut app, Key::Char('k'));
    assert_eq!(app.base_state.selected(), Some(6));
    assert!(matches!(press(&mut app, Key::Char('r')), Action::Reload));
    assert!(matches!(classify_key(&Key::Other, NONE), Command::Ignore));
    assert!(matches!(classify_key(&Key::Char('/'), NONE), Command::StartFilter));
}

#[test]
fn filter_typing_and_clamping() {
    let mut app = sample();
    app.tab = Tab::MimeTypes;
    app.mime_state.select(Some(2));
    press(&mut app, Key::Char('/'));
    assert!(app.mime_filter_active);
    assert_eq!(app.mime_filter, "");
    press(&mut app, Key::Char('q'));
    assert!(!app.should_quit);
    assert_eq!(app.mime_filter, "q");
    press(&mut app, Key::Char('x'));
    assert_eq!(app.mime_filter, "qx");
    // The row count is taken before the key: "q" matched nothing, so the
    // selection was cleared.
    assert_eq!(app.mime_state.selected(), None);
    press(&mut app, Key::Backspace);
    press(&mut app, Key::Backspace);
    press(&mut app, Key::Backspace);
    assert_eq!(app.mime_filter, "");
    assert_eq!(app.mime_state.selected(), Some(0));
    press(&mut app, Key::Char('p'));
    press(&mut app, Key::Enter);
    assert!(!app.mime_filter_active);
    assert_eq!(app.mime_filter, "p");
    press(&mut app, Key::Char('/'));
    assert_eq!(app.mime_filter, "");
    press(&mut app, Key::Char('z'));
    press(&mut app, Key::Esc);
    assert!(!app.mime_filter_active);
    assert_eq!(app.mime_filter, "");
    assert!(!app.should_quit);
}

#[test]
fn filter_keys_do_nothing_on_base_tab() {
    let mut app = sample();
    handle_filter_key(&mut app, &Key::Char('a'));
    assert_eq!(app.mime_filter, "");
    assert_eq!(app.app_filter, "");
    press(&mut app, Key::Char('/'));
    assert!(!app.mime_filter_active && !app.app_filter_active);
}

#[test]
fn enter_requests_a_new_default() {
    let mut app = sample();
    app.tab = Tab::MimeTypes;
    app.mime_state.select(Some(1));
    app.app_state.select(Some(1));
    match press(&mut app, Key::Enter) {
        Action::SetDefault { desktop_file, mime_type } => {
            assert_eq!(desktop_file, "firefox.desktop");
            assert_eq!(mime_type, "image/png");
        }
        _ => panic!("expected a request"),
    }
    app.app_state.select(Some(2));
    match handle_enter(&mut app) {
        Action::SetDefault { desktop_file, .. } => assert_eq!(desktop_file, "gimp.desktop"),
        _ => panic!("expected a request"),
    }
    assert!(app.status.is_none());
}

#[test]
fn enter_without_application_reports_an_error() {
    let mut app = sample();
    app.tab = Tab::MimeTypes;
    app.app_filter = "no such app".to_string();
    assert!(matches!(press(&mut app, Key::Enter), Action::Nothing));
    let s = app.status.as_ref().expect("status set");
    assert!(s.is_error);
    assert_eq!(
        s.message,
        "Pick an application on the Applications tab first, then return here and press Enter."
    );
    let mut app = sample();
    app.tab = Tab::MimeTypes;
    app.mime_state.select(Some(9));
    assert!(matches!(press(&mut app, Key::Enter), Action::Nothing));
    assert!(app.status.is_none());
    let mut app = sample();
    assert!(matches!(handle_enter(&mut app), Action::Nothing));
}

#[test]
fn outcome_of_setting_a_default() {
    let mut app = sample();
    complete_set_default(&mut app, "text/html", "firefox.desktop", Ok(vec![assoc("a/b", None)]));
    let s = app.status.as_ref().unwrap();
    assert!(!s.is_error);
    assert_eq!(s.message, "Set default for text/html \u{2192} firefox.desktop");
    assert_eq!(app.mime_assocs.len(), 1);
    complete_set_default(&mut app, "x/y", "z.desktop", Err("xdg-mime exited".to_string()));
    let s = app.status.as_ref().unwrap();
    assert!(s.is_error);
    assert_eq!(s.message, "Failed: xdg-mime exited");
    assert_eq!(s.lifetime_ms, 6000);
    assert_eq!(app.mime_assocs.len(), 1);
}

#[test]
fn desktop_file_names() {
    assert_eq!(desktop_file_for("firefox"), "firefox.desktop");
    assert_eq!(desktop_file_for("firefox.desktop"), "firefox.desktop");
    assert_eq!(desktop_file_for(""), ".desktop");
    assert_eq!(desktop_file_for("desktop"), "desktop.desktop");
}

#[test]
fn refresh_replaces_data_and_reports() {
    let mut app = sample();
    app.tab = Tab::Applications;
    app.refresh(BaseDirs { dirs: Vec::new() }, Vec::new(), Vec::new());
    assert!(app.base_dirs.dirs.is_empty());
    assert!(app.mime_assocs.is_empty() && app.apps.is_empty());
    assert_eq!(app.tab, Tab::Applications);
    let s = app.status.as_ref().unwrap();
    assert_eq!(s.message, "Reloaded XDG data");
    assert_eq!(s.lifetime_ms, 4000);
    assert!(!s.is_error);
    assert!(s.is_live());
}

#[test]
fn status_messages() {
    let i = Status::info("hello".to_string());
    assert!(!i.is_error);
    assert_eq!(i.message, "hello");
    assert!(i.is_live());
    let e = Status::error("bad".to_string());
    assert!(e.is_error);
    assert!(e.is_live());
    assert_eq!(Status::lifetime_ms(false), 4000);
    assert_eq!(Status::lifetime_ms(true), 6000);
    assert_eq!(i.lifetime_ms, 4000);
    assert_eq!(e.lifetime_ms, 6000);
}

#[test]
fn status_is_transient() {
    let made = std::time::Instant::now();
    let i = Status::made_at("m".to_string(), false, made);
    assert_eq!(i.lifetime_ms, 4000);
    assert!(i.is_live_after(0));
    assert!(i.is_live_after(3999));
    assert!(!i.is_live_after(4000));
    let e = Status::made_at("m".to_string(), true, made);
    assert!(e.is_live_after(5999));
    assert!(!e.is_live_after(6000));
    let gone = Status { lifetime_ms: 0, ..Status::info("x".to_string()) };
    assert!(!gone.is_live());
}

#[test]
fn move_and_back_by_any_distance() {
    let mut app = sample();
    for d in [-7i32, -5, -1, 0, 2, 6, 7, 13] {
        app.base_state.select(Some(3));
        app.move_selection(d);
        app.move_selection(-d);
        assert_eq!(app.base_state.selected(), Some(3));
        assert_eq!(app.mime_state.selected(), Some(0));
        assert_eq!(app.app_state.selected(), Some(0));
    }
}

#[test]
fn narrower_filter_lists_no_more_rows() {
    let mut wide = sample();
    let mut narrow = sample();
    wide.mime_filter = "P".to_string();
    narrow.mime_filter = "pdf".to_string();
    let w = wide.filtered_mime_indices();
    for i in narrow.filtered_mime_indices() {
        assert!(w.contains(&i));
    }
    wide.app_filter = "O".to_string();
    narrow.app_filter = "office".to_string();
    let w = wide.filtered_app_indices();
    let n = narrow.filtered_app_indices();
    assert_eq!(n, vec![0]);
    for i in n {
        assert!(w.contains(&i));
    }
}

#[test]
fn narrowing_from_an_empty_filter() {
    let wide = sample();
    let mut narrow = sample();
    narrow.mime_filter = "pdf".to_string();
    let w = wide.filtered_mime_indices();
    assert_eq!(w.len(), wide.mime_assocs.len());
    for i in narrow.filtered_mime_indices() {
        assert!(w.contains(&i));
    }
    let both_empty = sample();
    assert_eq!(both_empty.filtered_app_indices(), wide.filtered_app_indices());
}
