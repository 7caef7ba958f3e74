//! Key handling: what each key press does to the application state, and
//! which outside work (reloading, changing a default) it asks for.

use vstd::prelude::*;
use vstd::string::*;
use crate::app::{
    app_matches, current_row, lemma_app_indices_valid, lemma_mime_indices_valid, mime_matches, App,
    Selection, Status, Tab,
};
use crate::desktop_entries::apps_view;
use crate::mime::{associations_view, MimeAssociation};
use crate::text::{lowercase, pop_char, push_char, to_chars};

verus! {

/// A key as the terminal reports it.
pub enum Key {
    Char(char),
    Esc,
    Tab,
    BackTab,
    Left,
    Right,
    Up,
    Down,
    Enter,
    Backspace,
    Other,
}

/// The modifier keys held with a key: Control, and whether any other
/// modifier (Shift, Alt, Super, Hyper, Meta) is held.
#[derive(Clone, Copy)]
pub struct Modifiers {
    pub control: bool,
    pub others: bool,
}

impl Modifiers {
    /// No modifier is held.
    pub open spec fn none(self) -> bool {
        !self.control && !self.others
    }
}

/// What a key means outside a filter input.
pub enum Command {
    Quit,
    NextTab,
    PrevTab,
    Move(i32),
    Reload,
    StartFilter,
    Enter,
    Ignore,
}

/// The key bindings: `q`/Esc quit, Control-`c` quits, Tab/Right (with no
/// modifier) go to the next tab, Shift-Tab/Left to the previous one,
/// Down/`j` and Up/`k` move the selection, `r` reloads, `/` starts a
/// filter, Enter acts on the selection; everything else is ignored.
pub open spec fn key_command(code: Key, mods: Modifiers) -> Command {
    match code {
        Key::Char(c) => if c == 'q' {
            Command::Quit
        } else if c == 'c' && mods.control {
            Command::Quit
        } else if c == 'j' {
            Command::Move(1i32)
        } else if c == 'k' {
            Command::Move(-1i32)
        } else if c == 'r' {
            Command::Reload
        } else if c == '/' {
            Command::StartFilter
        } else {
            Command::Ignore
        },
        Key::Esc => Command::Quit,
        Key::Tab => if mods.none() {
            Command::NextTab
        } else {
            Command::Ignore
        },
        Key::Right => if mods.none() {
            Command::NextTab
        } else {
            Command::Ignore
        },
        Key::BackTab => Command::PrevTab,
        Key::Left => Command::PrevTab,
        Key::Down => Command::Move(1i32),
        Key::Up => Command::Move(-1i32),
        Key::Enter => Command::Enter,
        _ => Command::Ignore,
    }
}

/// The meaning of a key outside a filter input (see [`key_command`]).
pub fn classify_key(code: &Key, mods: Modifiers) -> (r: Command)
    ensures
        r == key_command(*code, mods),
{
    let none = !mods.control && !mods.others;
    match code {
        Key::Char(c) => {
            let c = *c;
            if c == 'q' {
                Command::Quit
            } else if c == 'c' && mods.control {
                Command::Quit
            } else if c == 'j' {
                Command::Move(1i32)
            } else if c == 'k' {
                Command::Move(-1i32)
            } else if c == 'r' {
                Command::Reload
            } else if c == '/' {
                Command::StartFilter
            } else {
                Command::Ignore
            }
        },
        Key::Esc => Command::Quit,
        Key::Tab | Key::Right => if none {
            Command::NextTab
        } else {
            Command::Ignore
        },
        Key::BackTab | Key::Left => Command::PrevTab,
        Key::Down => Command::Move(1i32),
        Key::Up => Command::Move(-1i32),
        Key::Enter => Command::Enter,
        _ => Command::Ignore,
    }
}

/// Outside work that a key press asks for.
pub enum Action {
    /// Nothing to do.
    Nothing,
    /// Read the data again and hand it to [`App::refresh`].
    Reload,
    /// Make `desktop_file` the default for `mime_type`, then report the
    /// outcome with [`complete_set_default`].
    SetDefault { desktop_file: String, mime_type: String },
}

// ---------------------------------------------------------------------------
// Filter input
// ---------------------------------------------------------------------------

/// A filter and whether it takes input, after a key: Esc clears and
/// closes it, Enter closes it, Backspace deletes the last character, a
/// character is appended; other keys change nothing.
pub open spec fn edited_filter(filter: Seq<char>, active: bool, code: Key) -> (Seq<char>, bool) {
    match code {
        Key::Esc => (Seq::empty(), false),
        Key::Enter => (filter, false),
        Key::Backspace => (
            if filter.len() > 0 {
                filter.drop_last()
            } else {
                filter
            },
            active,
        ),
        Key::Char(c) => (filter.push(c), active),
        _ => (filter, active),
    }
}

/// A selection brought back into a list of `len` rows: none when the list
/// is empty, the first row when it pointed nowhere or past the end.
pub open spec fn clamped(s: Selection, len: nat) -> Selection {
    if len == 0 {
        Selection { selected: None }
    } else if (match s.selected {
        Some(i) => i >= len,
        None => true,
    }) {
        Selection { selected: Some(0) }
    } else {
        s
    }
}

/// The fields outside the filters and selections are the same in `a` and `b`.
pub open spec fn same_data(a: App, b: App) -> bool {
    &&& a.tab == b.tab
    &&& a.should_quit == b.should_quit
    &&& a.base_dirs == b.base_dirs
    &&& a.base_state == b.base_state
    &&& a.mime_assocs == b.mime_assocs
    &&& a.apps == b.apps
    &&& a.status == b.status
}

/// The MIME filter and selection are the same in `a` and `b`.
pub open spec fn same_mime_view(a: App, b: App) -> bool {
    a.mime_filter == b.mime_filter && a.mime_filter_active == b.mime_filter_active
        && a.mime_state == b.mime_state
}

/// The application filter and selection are the same in `a` and `b`.
pub open spec fn same_app_view(a: App, b: App) -> bool {
    a.app_filter == b.app_filter && a.app_filter_active == b.app_filter_active && a.app_state
        == b.app_state
}

/// A key typed into the active tab's filter: the filter is edited by
/// [`edited_filter`], and the tab's selection is clamped to the number of
/// rows the tab listed before the key. On the base-directory tab nothing
/// happens.
pub open spec fn filter_key_post(old: App, new: App, code: Key) -> bool {
    &&& same_data(old, new)
    &&& match old.tab {
        Tab::BaseDirs => same_mime_view(old, new) && same_app_view(old, new),
        Tab::MimeTypes => {
            let e = edited_filter(old.mime_filter@, old.mime_filter_active, code);
            &&& new.mime_filter@ == e.0
            &&& new.mime_filter_active == e.1
            &&& new.mime_state == clamped(old.mime_state, old.mime_indices().len())
            &&& same_app_view(old, new)
        },
        Tab::Applications => {
            let e = edited_filter(old.app_filter@, old.app_filter_active, code);
            &&& new.app_filter@ == e.0
            &&& new.app_filter_active == e.1
            &&& new.app_state == clamped(old.app_state, old.app_indices().len())
            &&& same_mime_view(old, new)
        },
    }
}

fn edit_filter(
    filter: &mut String,
    active: &mut bool,
    state: &mut Selection,
    len: usize,
    code: &Key,
)
    ensures
        (final(filter)@, *final(active)) == edited_filter(old(filter)@, *old(active), *code),
        *final(state) == clamped(*old(state), len as nat),
{
    match code {
        Key::Esc => {
            *filter = String::new();
            *active = false;
        },
        Key::Enter => {
            *active = false;
        },
        Key::Backspace => {
            let _ = pop_char(filter);
        },
        Key::Char(c) => {
            push_char(filter, *c);
        },
        _ => {},
    }
    if len == 0 {
        state.select(None);
    } else {
        let out_of_range = match state.selected() {
            Some(i) => i >= len,
            None => true,
        };
        if out_of_range {
            state.select(Some(0));
        }
    }
}

/// Handles a key typed while the active tab's filter takes input.
pub fn handle_filter_key(app: &mut App, code: &Key)
    ensures
        filter_key_post(*old(app), *final(app), *code),
{
    match app.tab {
        Tab::MimeTypes => {
            let len = app.filtered_mime_indices().len();
            edit_filter(
                &mut app.mime_filter,
                &mut app.mime_filter_active,
                &mut app.mime_state,
                len,
                code,
            );
        },
        Tab::Applications => {
            let len = app.filtered_app_indices().len();
            edit_filter(
                &mut app.app_filter,
                &mut app.app_filter_active,
                &mut app.app_state,
                len,
                code,
            );
        },
        Tab::BaseDirs => {},
    }
}

// ---------------------------------------------------------------------------
// Setting a default application
// ---------------------------------------------------------------------------

/// `s` ends with `suffix`.
pub open spec fn ends_with(s: Seq<char>, suffix: Seq<char>) -> bool {
    suffix.len() <= s.len() && s.subrange(s.len() - suffix.len(), s.len() as int) == suffix
}

/// The desktop file name of an application id: the id itself when it
/// already ends in `.desktop`, else the id with `.desktop` appended.
pub open spec fn desktop_file_name(id: Seq<char>) -> Seq<char> {
    if ends_with(id, ".desktop"@) {
        id
    } else {
        id + ".desktop"@
    }
}

/// The desktop file name of an application id (see [`desktop_file_name`]).
pub fn desktop_file_for(id: &str) -> (r: String)
    ensures
        r@ == desktop_file_name(id@),
{
    let chars = to_chars(id);
    let suffix = to_chars(".desktop");
    let n = chars.len();
    let m = suffix.len();
    let mut ends = m <= n;
    if ends {
        let mut k: usize = 0;
        while k < m
            invariant
                m == suffix.len() <= n == chars.len(),
                k <= m,
                ends == forall|t: int| 0 <= t < k ==> chars@[n - m + t] == suffix@[t],
            decreases m - k,
        {
            if chars[n - m + k] != suffix[k] {
                ends = false;
            }
            k += 1;
        }
        if ends {
            assert(chars@.subrange(n - m, n as int) =~= suffix@);
        } else {
            assert(!(chars@.subrange(n - m, n as int) =~= suffix@));
        }
    }
    let mut r = String::from_str(id);
    if !ends {
        r.append(".desktop");
    }
    r
}

/// What Enter on the MIME tab does, given the state before (`old`) and
/// after (`new`) and the action returned: nothing outside the MIME tab or
/// when no MIME row is selected; an error message (and nothing else) when
/// no application row is selected; else a request to make the selected
/// application's desktop file the default for the selected MIME type.
pub open spec fn enter_post(old: App, new: App, r: Action) -> bool {
    if old.tab != Tab::MimeTypes || current_row(old.mime_state) >= old.mime_indices().len() {
        r is Nothing && new == old
    } else if current_row(old.app_state) >= old.app_indices().len() {
        &&& r is Nothing
        &&& new == App { status: new.status, ..old }
        &&& new.status matches Some(s) && s.is_error && s.lifetime_ms == 6000 && s.message@
            == "Pick an application on the Applications tab first, then return here and press Enter."@
    } else {
        let m = old.mime_assocs@[old.mime_indices()[current_row(old.mime_state) as int] as int];
        let a = old.apps@[old.app_indices()[current_row(old.app_state) as int] as int];
        &&& new == old
        &&& r matches Action::SetDefault { desktop_file, mime_type } && mime_type@ == m.mime_type@
            && desktop_file@ == desktop_file_name(a.id@)
    }
}

/// Enter on the MIME tab: asks to make the application selected on the
/// Applications tab the default for the selected MIME type.
pub fn handle_enter(app: &mut App) -> (r: Action)
    ensures
        enter_post(*old(app), *final(app), r),
{
    if app.tab != Tab::MimeTypes {
        return Action::Nothing;
    }
    let mime_indices = app.filtered_mime_indices();
    let ms = match app.mime_state.selected() {
        Some(i) => i,
        None => 0,
    };
    if ms >= mime_indices.len() {
        return Action::Nothing;
    }
    proof {
        lemma_mime_indices_valid(*app);
    }
    let mime_idx = mime_indices[ms];
    let mime_type = app.mime_assocs[mime_idx].mime_type.clone();
    let app_indices = app.filtered_app_indices();
    let sel = match app.app_state.selected() {
        Some(i) => i,
        None => 0,
    };
    if sel >= app_indices.len() {
        app.status = Some(
            Status::error(
                String::from_str(
                    "Pick an application on the Applications tab first, then return here and press Enter.",
                ),
            ),
        );
        return Action::Nothing;
    }
    proof {
        lemma_app_indices_valid(*app);
    }
    let app_idx = app_indices[sel];
    let desktop_file = desktop_file_for(app.apps[app_idx].id.as_str());
    Action::SetDefault { desktop_file, mime_type }
}

/// The message reporting a new default.
pub open spec fn set_default_message(mime_type: Seq<char>, desktop_file: Seq<char>) -> Seq<char> {
    "Set default for "@ + mime_type + " → "@ + desktop_file
}

/// Records the outcome of making `desktop_file` the default for
/// `mime_type`: on success the freshly read associations replace the old
/// ones and an information message says what was set; on failure an error
/// message gives the reason. Nothing else changes.
pub fn complete_set_default(
    app: &mut App,
    mime_type: &str,
    desktop_file: &str,
    outcome: Result<Vec<MimeAssociation>, String>,
)
    ensures
        match outcome {
            Ok(assocs) => {
                &&& *final(app) == App {
                    mime_assocs: assocs,
                    status: final(app).status,
                    ..*old(app)
                }
                &&& final(app).status matches Some(s) && !s.is_error && s.lifetime_ms == 4000
                    && s.message@ == set_default_message(mime_type@, desktop_file@)
            },
            Err(e) => {
                &&& *final(app) == App { status: final(app).status, ..*old(app) }
                &&& final(app).status matches Some(s) && s.is_error && s.lifetime_ms == 6000
                    && s.message@ == "Failed: "@ + e@
            },
        },
{
    match outcome {
        Ok(assocs) => {
            let mut msg = String::from_str("Set default for ");
            msg.append(mime_type);
            msg.append(" → ");
            msg.append(desktop_file);
            app.status = Some(Status::info(msg));
            app.mime_assocs = assocs;
        },
        Err(e) => {
            let mut msg = String::from_str("Failed: ");
            msg.append(e.as_str());
            app.status = Some(Status::error(msg));
        },
    }
}

/// The state after starting the active tab's filter: on the MIME and
/// Applications tabs the filter is emptied and takes input; nothing else
/// changes.
pub open spec fn start_filter_post(old: App, new: App) -> bool {
    &&& same_data(old, new)
    &&& match old.tab {
        Tab::BaseDirs => same_mime_view(old, new) && same_app_view(old, new),
        Tab::MimeTypes => new.mime_filter@.len() == 0 && new.mime_filter_active && new.mime_state
            == old.mime_state && same_app_view(old, new),
        Tab::Applications => new.app_filter@.len() == 0 && new.app_filter_active && new.app_state
            == old.app_state && same_mime_view(old, new),
    }
}

/// Handles a key press: while the active tab's filter takes input the key
/// edits the filter ([`handle_filter_key`]); otherwise it is a command (see
/// [`key_command`]). Returns the outside work the key asks for.
pub fn handle_key(app: &mut App, code: &Key, mods: Modifiers) -> (r: Action)
    requires
        !old(app).filter_active() ==> (key_command(*code, mods) matches Command::Move(d)
            ==> old(app).move_defined(d)),
    ensures
        old(app).filter_active() ==> r is Nothing && filter_key_post(*old(app), *final(app), *code),
        !old(app).filter_active() ==> match key_command(*code, mods) {
            Command::Quit => r is Nothing && *final(app) == App { should_quit: true, ..*old(app) },
            Command::NextTab => r is Nothing && *final(app) == App {
                tab: old(app).tab.following(),
                ..*old(app)
            },
            Command::PrevTab => r is Nothing && *final(app) == App {
                tab: old(app).tab.preceding(),
                ..*old(app)
            },
            Command::Move(d) => r is Nothing && *final(app) == old(app).after_move(d),
            Command::Reload => r is Reload && *final(app) == *old(app),
            Command::StartFilter => r is Nothing && start_filter_post(*old(app), *final(app)),
            Command::Enter => enter_post(*old(app), *final(app), r),
            Command::Ignore => r is Nothing && *final(app) == *old(app),
        },
{
    let filter_active = match app.tab {
        Tab::MimeTypes => app.mime_filter_active,
        Tab::Applications => app.app_filter_active,
        Tab::BaseDirs => false,
    };
    if filter_active {
        handle_filter_key(app, code);
        return Action::Nothing;
    }
    match classify_key(code, mods) {
        Command::Quit => {
            app.should_quit = true;
        },
        Command::NextTab => {
            app.tab = app.tab.next();
        },
        Command::PrevTab => {
            app.tab = app.tab.prev();
        },
        Command::Move(d) => {
            app.move_selection(d);
        },
        Command::Reload => {
            return Action::Reload;
        },
        Command::StartFilter => match app.tab {
            Tab::MimeTypes => {
                app.mime_filter_active = true;
                app.mime_filter = String::new();
            },
            Tab::Applications => {
                app.app_filter_active = true;
                app.app_filter = String::new();
            },
            Tab::BaseDirs => {},
        },
        Command::Enter => {
            return handle_enter(app);
        },
        Command::Ignore => {},
    }
    Action::Nothing
}

// ---------------------------------------------------------------------------
// Laws
// ---------------------------------------------------------------------------

/// Editing the active tab's filter: Backspace deletes exactly its last
/// character (an empty filter stays empty) and a typed character is added
/// at its end, both leaving input on; Esc empties the filter and Enter keeps
/// its text, both ending input. Other keys change neither. The other tab's
/// filter is untouched, and nothing happens on the base-directory tab.
pub proof fn lemma_filter_editing(old: App, new: App, code: Key)
    requires
        filter_key_post(old, new, code),
    ensures
        old.tab == Tab::BaseDirs ==> new == old,
        old.tab != Tab::BaseDirs ==> {
            let (f, g, a, b) = if old.tab == Tab::MimeTypes {
                (old.mime_filter@, new.mime_filter@, old.mime_filter_active, new.mime_filter_active)
            } else {
                (old.app_filter@, new.app_filter@, old.app_filter_active, new.app_filter_active)
            };
            &&& code is Backspace && f.len() > 0 ==> g.len() == f.len() - 1 && g == f.subrange(
                0,
                f.len() - 1,
            ) && b == a
            &&& code is Backspace && f.len() == 0 ==> g.len() == 0 && b == a
            &&& code matches Key::Char(c) ==> g.len() == f.len() + 1 && g.subrange(0, f.len() as int)
                == f && g[f.len() as int] == c && b == a
            &&& code is Esc ==> g.len() == 0 && !b
            &&& code is Enter ==> g == f && !b
            &&& !(code is Backspace || code is Char || code is Esc || code is Enter) ==> g == f && b
                == a
        },
        old.tab == Tab::MimeTypes ==> new.app_filter == old.app_filter,
        old.tab == Tab::Applications ==> new.mime_filter == old.mime_filter,
{
    if old.tab == Tab::BaseDirs {
        assert(new == old);
    }
    if old.tab == Tab::MimeTypes {
        let f = old.mime_filter@;
        if code is Backspace && f.len() > 0 {
            assert(new.mime_filter@ =~= f.subrange(0, f.len() - 1));
        }
        if let Key::Char(c) = code {
            assert(new.mime_filter@.subrange(0, f.len() as int) =~= f);
        }
    }
    if old.tab == Tab::Applications {
        let f = old.app_filter@;
        if code is Backspace && f.len() > 0 {
            assert(new.app_filter@ =~= f.subrange(0, f.len() - 1));
        }
        if let Key::Char(c) = code {
            assert(new.app_filter@.subrange(0, f.len() as int) =~= f);
        }
    }
}

/// A request made by Enter names the rows the user sees highlighted: the
/// MIME type of the association at the selected position of the filtered
/// MIME list, which matches the MIME filter, and the desktop file of the
/// application at the selected position of the filtered application list,
/// which matches the application filter. The state is left as it was.
pub proof fn lemma_enter_requests_highlighted_rows(old: App, new: App, r: Action)
    requires
        enter_post(old, new, r),
        r is SetDefault,
    ensures
        old.tab == Tab::MimeTypes,
        new == old,
        current_row(old.mime_state) < old.mime_indices().len(),
        current_row(old.app_state) < old.app_indices().len(),
        ({
            let i = old.mime_indices()[current_row(old.mime_state) as int] as int;
            &&& 0 <= i < old.mime_assocs@.len()
            &&& r->mime_type@ == old.mime_assocs@[i].mime_type@
            &&& mime_matches(associations_view(old.mime_assocs@)[i], lowercase(old.mime_filter@))
        }),
        ({
            let j = old.app_indices()[current_row(old.app_state) as int] as int;
            &&& 0 <= j < old.apps@.len()
            &&& r->desktop_file@ == desktop_file_name(old.apps@[j].id@)
            &&& app_matches(apps_view(old.apps@)[j], lowercase(old.app_filter@))
        }),
{
    assert(old.mime_assocs.len() == old.mime_assocs@.len());
    assert(old.apps.len() == old.apps@.len());
    lemma_mime_indices_valid(old);
    lemma_app_indices_valid(old);
    let i = old.mime_indices()[current_row(old.mime_state) as int] as int;
    let j = old.app_indices()[current_row(old.app_state) as int] as int;
    let q = lowercase(old.mime_filter@);
    let v = associations_view(old.mime_assocs@);
    crate::app::lemma_matching_indices(v.len(), |k: int| mime_matches(v[k], q));
    let qa = lowercase(old.app_filter@);
    let va = apps_view(old.apps@);
    crate::app::lemma_matching_indices(va.len(), |k: int| app_matches(va[k], qa));
}

} // verus!
