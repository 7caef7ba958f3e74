use xdg_tui::mime::{mimeapps_list_path, read_associations, MimeAssociation};

fn s(x: &str) -> String {
    x.to_string()
}

fn strings(v: &[&str]) -> Vec<String> {
    v.iter().map(|x| x.to_string()).collect()
}

fn find<'a>(list: &'a [MimeAssociation], key: &str) -> &'a MimeAssociation {
    list.iter().find(|m| m.mime_type == key).expect("key present")
}

const SAMPLE: &str = "\
[Default Applications]
text/html=firefox.desktop;chromium.desktop
application/pdf=org.gnome.Evince.desktop;

[Added Associations]
text/html=firefox.desktop;chromium.desktop;
image/png=eog.desktop

[Removed Associations]
text/plain=gedit.desktop
";

#[test]
fn mime_associations_does_not_panic() {
    let _ = read_associations("");
    let _ = read_associations("[broken\n=\n==\n;;;\n[]\nx=;\n\u{feff}weird=\u{0}\n");
}

#[test]
fn parses_sections_into_sorted_associations() {
    let list = read_associations(SAMPLE);
    let keys: Vec<&str> = list.iter().map(|m| m.mime_type.as_str()).collect();
    assert_eq!(keys, vec!["application/pdf", "image/png", "text/html", "text/plain"]);

    let pdf = find(&list, "application/pdf");
    assert_eq!(pdf.default_app, Some(s("org.gnome.Evince.desktop")));
    assert!(pdf.added_apps.is_empty());

    let html = find(&list, "text/html");
    assert_eq!(html.default_app, Some(s("firefox.desktop")));
    assert_eq!(html.added_apps, strings(&["firefox.desktop", "chromium.desktop"]));
    assert!(html.removed_apps.is_empty());

    let png = find(&list, "image/png");
    assert_eq!(png.default_app, None);
    assert_eq!(png.added_apps, strings(&["eog.desktop"]));

    let plain = find(&list, "text/plain");
    assert_eq!(plain.removed_apps, strings(&["gedit.desktop"]));
    assert_eq!(plain.default_app, None);
}

#[test]
fn comments_blank_lines_and_whitespace() {
    let text = "  # a comment\r\n\r\n[Default Applications]\r\n  text/x-c  =  a.desktop ;  b.desktop ;; \r\n#text/y=z.desktop\n";
    let list = read_associations(text);
    assert_eq!(list.len(), 1);
    assert_eq!(list[0].mime_type, "text/x-c");
    assert_eq!(list[0].default_app, Some(s("a.desktop")));
}

#[test]
fn keys_outside_known_sections_are_listed_empty() {
    let list = read_associations("orphan/type=x.desktop\n[Other]\nother/type=y.desktop\nno equals sign\n");
    let keys: Vec<&str> = list.iter().map(|m| m.mime_type.as_str()).collect();
    assert_eq!(keys, vec!["orphan/type", "other/type"]);
    for m in &list {
        assert_eq!(m.default_app, None);
        assert!(m.added_apps.is_empty());
        assert!(m.removed_apps.is_empty());
    }
}

#[test]
fn later_lines_replace_earlier_ones() {
    let text = "[Default Applications]\na/b=one.desktop\na/b=two.desktop;three.desktop\nc/d=x.desktop\nc/d=\n[Added Associations]\na/b=p.desktop\na/b=q.desktop\n";
    let list = read_associations(text);
    let ab = find(&list, "a/b");
    assert_eq!(ab.default_app, Some(s("two.desktop")));
    assert_eq!(ab.added_apps, strings(&["q.desktop"]));
    let cd = find(&list, "c/d");
    assert_eq!(cd.default_app, None);
}

#[test]
fn section_names_are_matched_exactly() {
    let list = read_associations("[ Default Applications ]\na/b=x.desktop\n[default applications]\nc/d=y.desktop\n");
    assert_eq!(list.len(), 2);
    assert!(list.iter().all(|m| m.default_app.is_none()));
}

#[test]
fn key_order_is_by_code_point() {
    let list = read_associations("b=1\nB=2\na=3\n\u{e9}=4\nab=5\n=6\n");
    let keys: Vec<&str> = list.iter().map(|m| m.mime_type.as_str()).collect();
    assert_eq!(keys, vec!["", "B", "a", "ab", "b", "\u{e9}"]);
}

#[test]
fn mimeapps_path_rules() {
    assert_eq!(mimeapps_list_path(Some(s("/cfg")), Some(s("/home/u"))), "/cfg/mimeapps.list");
    assert_eq!(mimeapps_list_path(Some(s("/cfg/")), None), "/cfg/mimeapps.list");
    assert_eq!(mimeapps_list_path(Some(s("")), None), "/.config/mimeapps.list");
    assert_eq!(mimeapps_list_path(Some(s("")), Some(s("/h"))), "/h/.config/mimeapps.list");
    assert_eq!(mimeapps_list_path(None, Some(s("/home/u"))), "/home/u/.config/mimeapps.list");
    assert_eq!(mimeapps_list_path(None, None), "/.config/mimeapps.list");
}

#[test]
fn names_are_trimmed_and_non_empty() {
    let list = read_associations("[Added Associations]\n\t a/b \t=  x.desktop ; ;\u{a0}y\u{2003};\n");
    assert_eq!(list.len(), 1);
    assert_eq!(list[0].mime_type, "a/b");
    assert_eq!(list[0].added_apps, strings(&["x.desktop", "y"]));
    for name in &list[0].added_apps {
        assert!(!name.is_empty());
        assert_eq!(name.trim(), name);
    }
}

#[test]
fn fields_come_from_the_last_line_of_their_section() {
    let text = "a/b=pre.desktop\n[Added Associations]\na/b=x.desktop\n[Default Applications]\na/b=d1.desktop\n[Added Associations]\na/b=y.desktop;z.desktop\n[Default Applications]\na/b=;\n[Other]\na/b=o.desktop\n";
    let list = read_associations(text);
    assert_eq!(list.len(), 1);
    assert_eq!(list[0].default_app, None);
    assert_eq!(list[0].added_apps, strings(&["y.desktop", "z.desktop"]));
    assert!(list[0].removed_apps.is_empty());
}
