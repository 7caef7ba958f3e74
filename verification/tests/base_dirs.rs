use xdg_tui::xdg_base::{env_lookup, path_join, BaseDir, BaseDirs};

fn env(pairs: &[(&str, &str)]) -> Vec<(String, String)> {
    pairs.iter().map(|(k, v)| (k.to_string(), v.to_string())).collect()
}

#[test]
fn base_dirs_discover_returns_all_seven() {
    let b = BaseDirs::discover(Some("/home/u".to_string()), 1000, &Vec::new());
    assert_eq!(b.dirs.len(), 7);
    for d in &b.dirs {
        assert!(!d.name.is_empty());
        assert!(d.value.len() > 0);
    }
}

#[test]
fn defaults_follow_the_spec() {
    let b = BaseDirs::discover(Some("/home/u".to_string()), 1000, &Vec::new());
    let got: Vec<(&str, &str, bool)> =
        b.dirs.iter().map(|d| (d.name, d.value.as_str(), d.from_env)).collect();
    assert_eq!(
        got,
        vec![
            ("XDG_CONFIG_HOME", "/home/u/.config", false),
            ("XDG_DATA_HOME", "/home/u/.local/share", false),
            ("XDG_STATE_HOME", "/home/u/.local/state", false),
            ("XDG_CACHE_HOME", "/home/u/.cache", false),
            ("XDG_RUNTIME_DIR", "/run/user/1000", false),
            ("XDG_CONFIG_DIRS", "/etc/xdg", false),
            ("XDG_DATA_DIRS", "/usr/local/share:/usr/share", false),
        ]
    );
    for d in &b.dirs {
        assert_eq!(d.name, d.env_var);
        assert!(!d.exists);
    }
    assert_eq!(b.dirs[0].description, "User-specific configuration files");
}

#[test]
fn environment_values_win_unless_empty() {
    let e = env(&[("XDG_DATA_HOME", "/data"), ("XDG_CONFIG_HOME", ""), ("XDG_RUNTIME_DIR", "/tmp/rt")]);
    let b = BaseDirs::discover(None, 0, &e);
    assert_eq!(b.dirs[0].value, "/.config");
    assert!(!b.dirs[0].from_env);
    assert_eq!(b.dirs[1].value, "/data");
    assert!(b.dirs[1].from_env);
    assert_eq!(b.dirs[4].value, "/tmp/rt");
    assert!(b.dirs[4].from_env);
}

#[test]
fn runtime_dir_uses_decimal_uid() {
    let b = BaseDirs::discover(None, 0, &Vec::new());
    assert_eq!(b.dirs[4].value, "/run/user/0");
    let b = BaseDirs::discover(None, u32::MAX, &Vec::new());
    assert_eq!(b.dirs[4].value, "/run/user/4294967295");
}

#[test]
fn resolve_and_lookup() {
    let d = BaseDir::resolve("N", "V", Some("x".to_string()), "d".to_string(), "desc");
    assert_eq!((d.value.as_str(), d.from_env), ("x", true));
    let d = BaseDir::resolve("N", "V", Some(String::new()), "d".to_string(), "desc");
    assert_eq!((d.value.as_str(), d.from_env), ("d", false));
    let d = BaseDir::resolve("N", "V", None, "d".to_string(), "desc");
    assert_eq!((d.value.as_str(), d.from_env), ("d", false));
    let e = env(&[("A", "1"), ("B", "2"), ("A", "3")]);
    assert_eq!(env_lookup(&e, "A"), Some("1".to_string()));
    assert_eq!(env_lookup(&e, "C"), None);
}

#[test]
fn path_join_rules() {
    assert_eq!(path_join("/home/u", ".config"), "/home/u/.config");
    assert_eq!(path_join("/home/u/", ".config"), "/home/u/.config");
    assert_eq!(path_join("/", ".config"), "/.config");
    assert_eq!(path_join("", "x"), "x");
    assert_eq!(path_join("/h\u{e9}", "x"), "/h\u{e9}/x");
}
