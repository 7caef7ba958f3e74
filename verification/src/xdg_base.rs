//! The XDG Base Directory variables: each one's value from the environment
//! when it is set to something non-empty, else the spec-defined default.
//! See <https://specifications.freedesktop.org/basedir-spec/latest/>.

use vstd::prelude::*;
use vstd::string::*;
use crate::text::{decimal, push_decimal, string_from_chars, to_chars};

verus! {

/// `base` followed by the relative path `rel`, with a `/` between them
/// unless `base` is empty or already ends in `/` (as `Path::join` does for
/// a relative component).
pub open spec fn join_path(base: Seq<char>, rel: Seq<char>) -> Seq<char> {
    if base.len() == 0 || base.last() == '/' {
        base + rel
    } else {
        base.push('/') + rel
    }
}

/// Joins the relative path `rel` onto `base` (see [`join_path`]).
pub fn path_join(base: &str, rel: &str) -> (r: String)
    ensures
        r@ == join_path(base@, rel@),
{
    let mut r = String::from_str(base);
    let n = base.unicode_len();
    if n > 0 && base.get_char(n - 1) != '/' {
        proof {
            reveal_strlit("/");
        }
        r.append("/");
    }
    r.append(rel);
    r
}

/// One base-directory variable and where its value came from.
#[derive(Debug, Clone)]
pub struct BaseDir {
    pub name: &'static str,
    pub env_var: &'static str,
    pub value: String,
    pub from_env: bool,
    pub exists: bool,
    pub description: &'static str,
}

/// All seven base-directory variables, in display order.
#[derive(Debug, Clone)]
pub struct BaseDirs {
    pub dirs: Vec<BaseDir>,
}

/// The value of the first variable named `name` in `env`, if any.
pub open spec fn env_value(env: Seq<(String, String)>, name: Seq<char>) -> Option<Seq<char>>
    decreases env.len(),
{
    if env.len() == 0 {
        None
    } else if env[0].0@ == name {
        Some(env[0].1@)
    } else {
        env_value(env.drop_first(), name)
    }
}

/// The value of the variable named `name` in `env`, if it is there.
pub fn env_lookup(env: &Vec<(String, String)>, name: &str) -> (r: Option<String>)
    ensures
        opt_chars(r) == env_value(env@, name@),
{
    let key = String::from_str(name);
    let mut i: usize = 0;
    assert(env@.skip(0) =~= env@);
    while i < env.len()
        invariant
            i <= env.len(),
            key@ == name@,
            env_value(env@, name@) == env_value(env@.skip(i as int), name@),
        decreases env.len() - i,
    {
        assert(env@.skip(i as int)[0] == env@[i as int]);
        if env[i].0 == key {
            return Some(env[i].1.clone());
        }
        assert(env@.skip(i as int).drop_first() =~= env@.skip(i + 1));
        i += 1;
    }
    None
}

/// The characters of an optional string.
pub open spec fn opt_chars(o: Option<String>) -> Option<Seq<char>> {
    match o {
        Some(s) => Some(s@),
        None => None,
    }
}

/// The value a variable resolves to, and whether it came from the
/// environment: a set, non-empty value wins over `default`.
pub open spec fn resolved_value(set: Option<Seq<char>>, default: Seq<char>) -> (Seq<char>, bool) {
    match set {
        Some(v) => if v.len() > 0 {
            (v, true)
        } else {
            (default, false)
        },
        None => (default, false),
    }
}

/// `d` describes variable `var` resolved in `env` against `default`; whether
/// the path exists is not yet known.
pub open spec fn resolves(
    d: BaseDir,
    var: Seq<char>,
    env: Seq<(String, String)>,
    default: Seq<char>,
    description: Seq<char>,
) -> bool {
    &&& d.name@ == var
    &&& d.env_var@ == var
    &&& (d.value@, d.from_env) == resolved_value(env_value(env, var), default)
    &&& !d.exists
    &&& d.description@ == description
}

impl BaseDir {
    /// Resolves one variable: the environment's value if it is set and
    /// non-empty, else `default`. `exists` is left `false`: whether the
    /// path exists is for the caller to find out on disk.
    pub fn resolve(
        name: &'static str,
        env_var: &'static str,
        set: Option<String>,
        default: String,
        description: &'static str,
    ) -> (r: BaseDir)
        ensures
            r.name == name,
            r.env_var == env_var,
            r.description == description,
            (r.value@, r.from_env) == resolved_value(opt_chars(set), default@),
            !r.exists,
    {
        let (value, from_env) = match set {
            Some(v) => if !v.as_str().is_empty() {
                (v, true)
            } else {
                (default, false)
            },
            None => (default, false),
        };
        BaseDir { name, env_var, value, from_env, exists: false, description }
    }
}

/// The home directory used for defaults: the given one, or `/`.
pub open spec fn home_or_root(home: Option<String>) -> Seq<char> {
    match home {
        Some(h) => h@,
        None => "/"@,
    }
}

impl BaseDirs {
    /// Resolves the seven base-directory variables, in this order:
    /// `XDG_CONFIG_HOME` (default `<home>/.config`), `XDG_DATA_HOME`
    /// (`<home>/.local/share`), `XDG_STATE_HOME` (`<home>/.local/state`),
    /// `XDG_CACHE_HOME` (`<home>/.cache`), `XDG_RUNTIME_DIR`
    /// (`/run/user/<uid>`), `XDG_CONFIG_DIRS` (`/etc/xdg`) and
    /// `XDG_DATA_DIRS` (`/usr/local/share:/usr/share`). `env` holds the
    /// environment's variables; an unknown home directory counts as `/`.
    pub fn discover(home: Option<String>, uid: u32, env: &Vec<(String, String)>) -> (r: BaseDirs)
        ensures
            r.dirs.len() == 7,
            resolves(
                r.dirs[0],
                "XDG_CONFIG_HOME"@,
                env@,
                join_path(home_or_root(home), ".config"@),
                "User-specific configuration files"@,
            ),
            resolves(
                r.dirs[1],
                "XDG_DATA_HOME"@,
                env@,
                join_path(home_or_root(home), ".local/share"@),
                "User-specific data files"@,
            ),
            resolves(
                r.dirs[2],
                "XDG_STATE_HOME"@,
                env@,
                join_path(home_or_root(home), ".local/state"@),
                "User-specific state (logs, history, recent files)"@,
            ),
            resolves(
                r.dirs[3],
                "XDG_CACHE_HOME"@,
                env@,
                join_path(home_or_root(home), ".cache"@),
                "User-specific non-essential cached data"@,
            ),
            resolves(
                r.dirs[4],
                "XDG_RUNTIME_DIR"@,
                env@,
                "/run/user/"@ + decimal(uid as nat),
                "User-specific runtime files (sockets, pipes)"@,
            ),
            resolves(
                r.dirs[5],
                "XDG_CONFIG_DIRS"@,
                env@,
                "/etc/xdg"@,
                "System-wide configuration directories (colon-separated)"@,
            ),
            resolves(
                r.dirs[6],
                "XDG_DATA_DIRS"@,
                env@,
                "/usr/local/share:/usr/share"@,
                "System-wide data directories (colon-separated)"@,
            ),
    {
        let home = match home {
            Some(h) => h,
            None => String::from_str("/"),
        };
        let mut runtime = to_chars("/run/user/");
        push_decimal(uid as u64, &mut runtime);
        let runtime_default = string_from_chars(&runtime);

        let mut dirs: Vec<BaseDir> = Vec::new();
        dirs.push(
            BaseDir::resolve(
                "XDG_CONFIG_HOME",
                "XDG_CONFIG_HOME",
                env_lookup(env, "XDG_CONFIG_HOME"),
                path_join(home.as_str(), ".config"),
                "User-specific configuration files",
            ),
        );
        dirs.push(
            BaseDir::resolve(
                "XDG_DATA_HOME",
                "XDG_DATA_HOME",
                env_lookup(env, "XDG_DATA_HOME"),
                path_join(home.as_str(), ".local/share"),
                "User-specific data files",
            ),
        );
        dirs.push(
            BaseDir::resolve(
                "XDG_STATE_HOME",
                "XDG_STATE_HOME",
                env_lookup(env, "XDG_STATE_HOME"),
                path_join(home.as_str(), ".local/state"),
                "User-specific state (logs, history, recent files)",
            ),
        );
        dirs.push(
            BaseDir::resolve(
                "XDG_CACHE_HOME",
                "XDG_CACHE_HOME",
                env_lookup(env, "XDG_CACHE_HOME"),
                path_join(home.as_str(), ".cache"),
                "User-specific non-essential cached data",
            ),
        );
        dirs.push(
            BaseDir::resolve(
                "XDG_RUNTIME_DIR",
                "XDG_RUNTIME_DIR",
                env_lookup(env, "XDG_RUNTIME_DIR"),
                runtime_default,
                "User-specific runtime files (sockets, pipes)",
            ),
        );
        dirs.push(
            BaseDir::resolve(
                "XDG_CONFIG_DIRS",
                "XDG_CONFIG_DIRS",
                env_lookup(env, "XDG_CONFIG_DIRS"),
                String::from_str("/etc/xdg"),
                "System-wide configuration directories (colon-separated)",
            ),
        );
        dirs.push(
            BaseDir::resolve(
                "XDG_DATA_DIRS",
                "XDG_DATA_DIRS",
                env_lookup(env, "XDG_DATA_DIRS"),
                String::from_str("/usr/local/share:/usr/share"),
                "System-wide data directories (colon-separated)",
            ),
        );
        BaseDirs { dirs }
    }
}

} // verus!
