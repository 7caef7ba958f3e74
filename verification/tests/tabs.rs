use xdg_tui::app::Tab;

#[test]
fn tab_cycling() {
    assert_eq!(Tab::BaseDirs.next(), Tab::MimeTypes);
    assert_eq!(Tab::MimeTypes.next(), Tab::Applications);
    assert_eq!(Tab::Applications.next(), Tab::BaseDirs);
    assert_eq!(Tab::BaseDirs.prev(), Tab::Applications);
}

#[test]
fn tab_prev_undoes_next() {
    for t in Tab::all() {
        assert_eq!(t.next().prev(), t);
        assert_eq!(t.prev().next(), t);
        assert_eq!(t.next().next().next(), t);
        assert_ne!(t.next(), t);
    }
}

#[test]
fn tab_titles_and_positions() {
    assert_eq!(Tab::BaseDirs.title(), "Base Directories");
    assert_eq!(Tab::MimeTypes.title(), "MIME Defaults");
    assert_eq!(Tab::Applications.title(), "Applications");
    let all = Tab::all();
    for (i, t) in all.iter().enumerate() {
        assert_eq!(t.position(), i);
    }
    assert_eq!(all, [Tab::BaseDirs, Tab::MimeTypes, Tab::Applications]);
}
