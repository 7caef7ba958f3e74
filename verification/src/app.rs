//! Application-level state: which tab is active, the list selections and
//! filters, and a transient status line for showing the result of actions.

use vstd::prelude::*;
use std::time::{Duration, Instant};
use crate::desktop_entries::{apps_view, AppEntry, AppEntryView};
use crate::mime::{associations_view, AssociationView, MimeAssociation};
use crate::text::{contains_chars, contains_seq, lowercase, occurs_at, to_chars, to_lowercase};
use crate::xdg_base::BaseDirs;

verus! {

// ---------------------------------------------------------------------------
// Tabs
// ---------------------------------------------------------------------------

/// The three views of the interface, in display order.
#[derive(Debug, Clone, Copy, PartialEq, Eq, Structural)]
pub enum Tab {
    BaseDirs,
    MimeTypes,
    Applications,
}

impl Tab {
    /// The tab after this one, wrapping from the last to the first.
    pub open spec fn following(self) -> Tab {
        match self {
            Tab::BaseDirs => Tab::MimeTypes,
            Tab::MimeTypes => Tab::Applications,
            Tab::Applications => Tab::BaseDirs,
        }
    }

    /// The tab before this one, wrapping from the first to the last.
    pub open spec fn preceding(self) -> Tab {
        match self {
            Tab::BaseDirs => Tab::Applications,
            Tab::MimeTypes => Tab::BaseDirs,
            Tab::Applications => Tab::MimeTypes,
        }
    }

    /// The place of the tab in display order.
    pub open spec fn place(self) -> int {
        match self {
            Tab::BaseDirs => 0,
            Tab::MimeTypes => 1,
            Tab::Applications => 2,
        }
    }

    /// The heading shown for the tab.
    pub open spec fn heading(self) -> Seq<char> {
        match self {
            Tab::BaseDirs => "Base Directories"@,
            Tab::MimeTypes => "MIME Defaults"@,
            Tab::Applications => "Applications"@,
        }
    }

    /// All tabs, in display order.
    pub fn all() -> (r: [Tab; 3])
        ensures
            r@ == seq![Tab::BaseDirs, Tab::MimeTypes, Tab::Applications],
    {
        let r = [Tab::BaseDirs, Tab::MimeTypes, Tab::Applications];
        assert(r@ =~= seq![Tab::BaseDirs, Tab::MimeTypes, Tab::Applications]);
        r
    }

    /// The place of the tab in display order (its index in [`Tab::all`]).
    pub fn position(self) -> (r: usize)
        ensures
            r == self.place(),
    {
        match self {
            Tab::BaseDirs => 0,
            Tab::MimeTypes => 1,
            Tab::Applications => 2,
        }
    }

    /// The heading shown for the tab.
    pub fn title(self) -> (r: &'static str)
        ensures
            r@ == self.heading(),
    {
        match self {
            Tab::BaseDirs => "Base Directories",
            Tab::MimeTypes => "MIME Defaults",
            Tab::Applications => "Applications",
        }
    }

    /// The tab after this one, wrapping around.
    pub fn next(self) -> (r: Self)
        ensures
            r == self.following(),
    {
        match self {
            Tab::BaseDirs => Tab::MimeTypes,
            Tab::MimeTypes => Tab::Applications,
            Tab::Applications => Tab::BaseDirs,
        }
    }

    /// The tab before this one, wrapping around.
    pub fn prev(self) -> (r: Self)
        ensures
            r == self.preceding(),
    {
        match self {
            Tab::BaseDirs => Tab::Applications,
            Tab::MimeTypes => Tab::BaseDirs,
            Tab::Applications => Tab::MimeTypes,
        }
    }
}

/// Going to the next tab and back, or back and then forward, returns to the
/// tab one started from.
pub proof fn lemma_next_prev_inverse(t: Tab)
    ensures
        t.following().preceding() == t,
        t.preceding().following() == t,
{
}

/// Three steps forward, or three back, visit every tab once and return to
/// the start.
pub proof fn lemma_tab_cycle(t: Tab)
    ensures
        t.following().following().following() == t,
        t.preceding().preceding().preceding() == t,
        t.following() != t,
        t.following().following() != t,
        t.following().place() == (t.place() + 1) % 3,
        t.preceding().place() == (t.place() + 2) % 3,
{
}

// ---------------------------------------------------------------------------
// The status line
// ---------------------------------------------------------------------------

#[verifier::external_type_specification]
#[verifier::external_body]
pub struct ExInstant(Instant);

/// `Instant::now`: a reading of the monotonic clock; nothing is promised of
/// the reading.
#[verifier::external_body]
fn clock_now() -> Instant {
    Instant::now()
}

/// `Instant::elapsed`: how much time has passed since `made` was read from
/// the clock. It depends on the clock, so nothing is promised of it.
#[verifier::external_body]
fn elapsed_since(made: &Instant) -> Duration {
    made.elapsed()
}

/// `Duration::as_millis`: the whole milliseconds in `d`. `Duration` is
/// opaque here, so nothing is stated of the number.
#[verifier::external_body]
fn whole_millis(d: &Duration) -> u128 {
    d.as_millis()
}

/// How many whole milliseconds ago `made` was read from the clock,
/// `u64::MAX` when that does not fit.
pub(crate) fn millis_since(made: &Instant) -> u64 {
    let ms = whole_millis(&elapsed_since(made));
    if ms > u64::MAX as u128 {
        u64::MAX
    } else {
        ms as u64
    }
}

/// A message shown at the bottom of the screen until it expires: it is live
/// while less than `lifetime_ms` milliseconds have passed since `made`.
pub struct Status {
    pub message: String,
    pub is_error: bool,
    pub made: Instant,
    pub lifetime_ms: u64,
}

/// How long a message stays on screen: 4 seconds for information, 6 for
/// errors.
pub open spec fn lifetime_of(is_error: bool) -> u64 {
    if is_error {
        6000
    } else {
        4000
    }
}

impl Status {
    /// How many milliseconds a message stays on screen (see [`lifetime_of`]).
    pub fn lifetime_ms(is_error: bool) -> (r: u64)
        ensures
            r == lifetime_of(is_error),
    {
        if is_error {
            6000
        } else {
            4000
        }
    }

    /// A message made at the clock reading `made`, shown for
    /// [`lifetime_of`] its kind.
    pub fn made_at(message: String, is_error: bool, made: Instant) -> (r: Status)
        ensures
            r.message == message,
            r.is_error == is_error,
            r.made == made,
            r.lifetime_ms == lifetime_of(is_error),
    {
        Status { message, is_error, made, lifetime_ms: Status::lifetime_ms(is_error) }
    }

    /// An information message, shown for 4 seconds from now.
    pub fn info(msg: String) -> (r: Status)
        ensures
            r.message == msg,
            !r.is_error,
            r.lifetime_ms == 4000,
    {
        Status::made_at(msg, false, clock_now())
    }

    /// An error message, shown for 6 seconds from now.
    pub fn error(msg: String) -> (r: Status)
        ensures
            r.message == msg,
            r.is_error,
            r.lifetime_ms == 6000,
    {
        Status::made_at(msg, true, clock_now())
    }

    /// Whether the message is still shown `elapsed_ms` milliseconds after it
    /// was made.
    pub fn is_live_after(&self, elapsed_ms: u64) -> (r: bool)
        ensures
            r == (elapsed_ms < self.lifetime_ms),
    {
        elapsed_ms < self.lifetime_ms
    }

    /// Whether the message has not expired yet: [`Status::is_live_after`]
    /// the time that has passed since it was made, read from the clock. Only
    /// a message with a positive lifetime is ever live.
    pub fn is_live(&self) -> (r: bool)
        ensures
            r ==> self.lifetime_ms > 0,
    {
        self.is_live_after(millis_since(&self.made))
    }
}

/// A message is live from the moment it is made until its lifetime has
/// passed, and never after: an information message for 4 seconds, an error
/// for 6.
pub proof fn lemma_status_transient(s: Status, elapsed_ms: u64)
    requires
        s.lifetime_ms == lifetime_of(s.is_error),
    ensures
        (elapsed_ms < s.lifetime_ms) == if s.is_error {
            elapsed_ms < 6000
        } else {
            elapsed_ms < 4000
        },
        s.lifetime_ms > 0,
{
}

// ---------------------------------------------------------------------------
// List selections
// ---------------------------------------------------------------------------

/// The highlighted row of a list, if any.
pub struct Selection {
    pub selected: Option<usize>,
}

impl Selection {
    /// No row highlighted.
    pub fn new() -> (r: Selection)
        ensures
            r.selected is None,
    {
        Selection { selected: None }
    }

    /// Highlights row `index`, or none.
    pub fn select(&mut self, index: Option<usize>)
        ensures
            final(self).selected == index,
    {
        self.selected = index;
    }

    /// The highlighted row, if any.
    pub fn selected(&self) -> (r: Option<usize>)
        ensures
            r == self.selected,
    {
        self.selected
    }
}

/// The highlighted row, or the first row when none is.
pub open spec fn current_row(s: Selection) -> usize {
    match s.selected {
        Some(i) => i,
        None => 0,
    }
}

/// The row reached from `current` by moving `delta` rows in a list of `len`
/// rows, wrapping around at both ends. The arithmetic is that of `i32`:
/// `(current as i32 + delta).rem_euclid(len as i32)`.
pub open spec fn wrapped_row(current: usize, delta: i32, len: usize) -> int {
    ((current as i32) as int + delta as int) % ((len as i32) as int)
}

/// Moving from `current` by `delta` in a list of `len > 0` rows stays within
/// `i32` arithmetic: the sum does not overflow and the remainder is defined.
pub open spec fn step_defined(current: usize, delta: i32, len: usize) -> bool {
    let x = (current as i32) as int + delta as int;
    &&& i32::MIN <= x <= i32::MAX
    &&& (len as i32) != 0
    &&& !(x == i32::MIN && (len as i32) == -1)
}

/// The selection after moving by `delta` in a list of `len` rows: nothing
/// when the list is empty, else the wrapped row.
pub open spec fn moved(s: Selection, len: usize, delta: i32) -> Selection {
    if len == 0 {
        Selection { selected: None }
    } else {
        Selection { selected: Some(wrapped_row(current_row(s), delta, len) as usize) }
    }
}

fn step_selection(s: &mut Selection, len: usize, delta: i32)
    requires
        len > 0 ==> step_defined(current_row(*old(s)), delta, len),
    ensures
        *final(s) == moved(*old(s), len, delta),
{
    if len == 0 {
        s.select(None);
        return;
    }
    let current = match s.selected() {
        Some(i) => i,
        None => 0,
    };
    let c = current as i32;
    let x = c + delta;
    let m = len as i32;
    let r = match x.checked_rem_euclid(m) {
        Some(r) => r,
        None => 0,
    };
    s.select(Some(r as usize));
}

/// In a list of at most `i32::MAX` rows, a move from a row on the list lands
/// on a row of the list.
pub proof fn lemma_moved_in_range(s: Selection, len: usize, delta: i32)
    requires
        0 < len <= i32::MAX,
        current_row(s) < len,
        step_defined(current_row(s), delta, len),
    ensures
        moved(s, len, delta).selected matches Some(k) && k < len,
        wrapped_row(current_row(s), delta, len) == (current_row(s) as int + delta as int) % (
        len as int),
{
}

/// Moving down one row and then up one row (or up and then down) returns to
/// the row one started from, in a list of at most `i32::MAX` rows.
pub proof fn lemma_move_round_trip(s: Selection, len: usize)
    requires
        0 < len <= i32::MAX,
        current_row(s) < len,
    ensures
        step_defined(current_row(s), 1, len),
        step_defined(current_row(moved(s, len, 1)), -1i32, len),
        moved(moved(s, len, 1), len, -1i32).selected == Some(current_row(s)),
        step_defined(current_row(s), -1i32, len),
        step_defined(current_row(moved(s, len, -1i32)), 1, len),
        moved(moved(s, len, -1i32), len, 1).selected == Some(current_row(s)),
{
    let c = current_row(s) as int;
    let n = len as int;
    assert((current_row(s) as i32) as int == c);
    assert((len as i32) as int == n);
    if c + 1 < n {
        vstd::arithmetic::div_mod::lemma_small_mod((c + 1) as nat, n as nat);
    } else {
        assert((c + 1) % n == 0) by (nonlinear_arith)
            requires
                c + 1 == n,
                n > 0,
        ;
    }
    let up = wrapped_row(current_row(s), 1, len);
    assert(0 <= up < n);
    assert((up as usize as i32) as int == up);
    if c >= 1 {
        vstd::arithmetic::div_mod::lemma_small_mod((c - 1) as nat, n as nat);
    } else {
        assert((c - 1) % n == n - 1) by (nonlinear_arith)
            requires
                c == 0,
                n > 0,
        ;
    }
    let down = wrapped_row(current_row(s), -1i32, len);
    assert(0 <= down < n);
    assert((down as usize as i32) as int == down);
    if up >= 1 {
        vstd::arithmetic::div_mod::lemma_small_mod((up - 1) as nat, n as nat);
    } else {
        assert((up - 1) % n == n - 1) by (nonlinear_arith)
            requires
                up == 0,
                n > 0,
        ;
    }
    if down + 1 < n {
        vstd::arithmetic::div_mod::lemma_small_mod((down + 1) as nat, n as nat);
    } else {
        assert((down + 1) % n == 0) by (nonlinear_arith)
            requires
                down + 1 == n,
                n > 0,
        ;
    }
}

/// Moving by `delta` and then by `-delta` returns to the row one started
/// from, in a list of at most `i32::MAX` rows, for every move whose `i32`
/// arithmetic is defined.
pub proof fn lemma_move_and_back(s: Selection, len: usize, delta: i32)
    requires
        0 < len <= i32::MAX,
        current_row(s) < len,
        delta != i32::MIN,
        step_defined(current_row(s), delta, len),
        step_defined(current_row(moved(s, len, delta)), (-delta) as i32, len),
    ensures
        moved(moved(s, len, delta), len, (-delta) as i32).selected == Some(current_row(s)),
{
    let c = current_row(s) as int;
    let n = len as int;
    let d = delta as int;
    assert((current_row(s) as i32) as int == c);
    assert((len as i32) as int == n);
    let r = wrapped_row(current_row(s), delta, len);
    assert(r == (c + d) % n);
    assert(0 <= r < n);
    assert((r as usize as i32) as int == r);
    assert(((-delta) as i32) as int == -d);
    vstd::arithmetic::div_mod::lemma_add_mod_noop_right(-d, c + d, n);
    assert(-d + (c + d) == c);
    vstd::arithmetic::div_mod::lemma_small_mod(c as nat, n as nat);
    assert(wrapped_row(r as usize, (-delta) as i32, len) == (-d + r) % n);
}

// ---------------------------------------------------------------------------
// The application state
// ---------------------------------------------------------------------------

/// Everything the interface shows and remembers between frames.
pub struct App {
    pub tab: Tab,
    pub should_quit: bool,
    pub base_dirs: BaseDirs,
    pub base_state: Selection,
    pub mime_assocs: Vec<MimeAssociation>,
    pub mime_state: Selection,
    pub mime_filter: String,
    pub mime_filter_active: bool,
    pub apps: Vec<AppEntry>,
    pub app_state: Selection,
    pub app_filter: String,
    pub app_filter_active: bool,
    pub status: Option<Status>,
}

/// The indices `0..n`.
pub open spec fn all_indices(n: nat) -> Seq<usize> {
    Seq::new(n, |i: int| i as usize)
}

/// The indices `i` in `0..n` with `pred(i)`, in increasing order.
pub open spec fn matching_indices(n: nat, pred: spec_fn(int) -> bool) -> Seq<usize>
    decreases n,
{
    if n == 0 {
        Seq::empty()
    } else {
        let prev = matching_indices((n - 1) as nat, pred);
        if pred(n - 1) {
            prev.push((n - 1) as usize)
        } else {
            prev
        }
    }
}

/// A MIME association is shown for the lowercase query `q` when its type, or
/// its default application, contains `q` once lowercased.
pub open spec fn mime_matches(m: AssociationView, q: Seq<char>) -> bool {
    ||| contains_seq(lowercase(m.mime_type), q)
    ||| (m.default_app matches Some(d) && contains_seq(lowercase(d), q))
}

/// An application is shown for the lowercase query `q` when its name, its
/// id or one of its categories contains `q` once lowercased.
pub open spec fn app_matches(a: AppEntryView, q: Seq<char>) -> bool {
    ||| contains_seq(lowercase(a.name), q)
    ||| contains_seq(lowercase(a.id), q)
    ||| exists|j: int| 0 <= j < a.categories.len() && contains_seq(lowercase(#[trigger] a.categories[j]), q)
}

/// The indices listed by `matching_indices` are in `0..n`, strictly
/// increasing, and exactly those that satisfy `pred`.
pub proof fn lemma_matching_indices(n: nat, pred: spec_fn(int) -> bool)
    requires
        n <= usize::MAX + 1,
    ensures
        matching_indices(n, pred).len() <= n,
        forall|k: int|
            0 <= k < matching_indices(n, pred).len() ==> #[trigger] matching_indices(n, pred)[k]
                < n && pred(matching_indices(n, pred)[k] as int),
        forall|k: int, l: int|
            0 <= k < l < matching_indices(n, pred).len() ==> #[trigger] matching_indices(n, pred)[k]
                < #[trigger] matching_indices(n, pred)[l],
        forall|i: int|
            0 <= i < n && #[trigger] pred(i) ==> exists|k: int|
                0 <= k < matching_indices(n, pred).len() && matching_indices(n, pred)[k] == i,
    decreases n,
{
    if n > 0 {
        lemma_matching_indices((n - 1) as nat, pred);
        let prev = matching_indices((n - 1) as nat, pred);
        assert forall|i: int| 0 <= i < n && #[trigger] pred(i) implies exists|k: int|
            0 <= k < matching_indices(n, pred).len() && matching_indices(n, pred)[k] == i by {
            if i < n - 1 {
                let k = choose|k: int| 0 <= k < prev.len() && prev[k] == i;
                assert(matching_indices(n, pred)[k] == i);
            } else {
                assert(matching_indices(n, pred)[prev.len() as int] == i);
            }
        }
    }
}

/// Every text contains the empty string.
proof fn lemma_contains_empty(hay: Seq<char>)
    ensures
        contains_seq(hay, Seq::empty()),
{
    assert(hay.subrange(0, 0) =~= Seq::<char>::empty());
    assert(occurs_at(hay, Seq::empty(), 0));
}

/// When every index in `0..n` satisfies `pred`, all of them are listed.
proof fn lemma_all_matching(n: nat, pred: spec_fn(int) -> bool)
    requires
        forall|i: int| 0 <= i < n ==> #[trigger] pred(i),
    ensures
        matching_indices(n, pred) == all_indices(n),
    decreases n,
{
    if n > 0 {
        lemma_all_matching((n - 1) as nat, pred);
        assert(pred(n - 1));
        assert(matching_indices(n, pred) =~= all_indices(n));
    } else {
        assert(matching_indices(n, pred) =~= all_indices(n));
    }
}

impl App {
    /// The rows the MIME tab lists, as indices into `mime_assocs`: those
    /// matching the lowercase filter. Every text contains the empty string,
    /// so an empty filter lists them all.
    pub open spec fn mime_indices(&self) -> Seq<usize> {
        let q = lowercase(self.mime_filter@);
        let v = associations_view(self.mime_assocs@);
        matching_indices(v.len(), |i: int| mime_matches(v[i], q))
    }

    /// The rows the Applications tab lists, as indices into `apps`: those
    /// matching the lowercase filter. Every text contains the empty string,
    /// so an empty filter lists them all.
    pub open spec fn app_indices(&self) -> Seq<usize> {
        let q = lowercase(self.app_filter@);
        let v = apps_view(self.apps@);
        matching_indices(v.len(), |i: int| app_matches(v[i], q))
    }

    /// Whether the active tab's filter takes input (never on the
    /// base-directory tab).
    pub open spec fn filter_active(&self) -> bool {
        match self.tab {
            Tab::BaseDirs => false,
            Tab::MimeTypes => self.mime_filter_active,
            Tab::Applications => self.app_filter_active,
        }
    }

    /// The number of rows the active tab lists.
    pub open spec fn active_len(&self) -> usize {
        match self.tab {
            Tab::BaseDirs => self.base_dirs.dirs.len(),
            Tab::MimeTypes => self.mime_indices().len() as usize,
            Tab::Applications => self.app_indices().len() as usize,
        }
    }

    /// The selection of the active tab.
    pub open spec fn active_selection(&self) -> Selection {
        match self.tab {
            Tab::BaseDirs => self.base_state,
            Tab::MimeTypes => self.mime_state,
            Tab::Applications => self.app_state,
        }
    }

    /// Moving the active selection by `delta` stays within `i32` arithmetic.
    pub open spec fn move_defined(&self, delta: i32) -> bool {
        self.active_len() > 0 ==> step_defined(
            current_row(self.active_selection()),
            delta,
            self.active_len(),
        )
    }

    /// The state after moving the active tab's selection by `delta`.
    pub open spec fn after_move(self, delta: i32) -> App {
        match self.tab {
            Tab::BaseDirs => App {
                base_state: moved(self.base_state, self.active_len(), delta),
                ..self
            },
            Tab::MimeTypes => App {
                mime_state: moved(self.mime_state, self.active_len(), delta),
                ..self
            },
            Tab::Applications => App {
                app_state: moved(self.app_state, self.active_len(), delta),
                ..self
            },
        }
    }

    /// The starting state: the base-directory tab, the first row of each
    /// non-empty list selected (the base-directory list's first row in any
    /// case), empty inactive filters and no status message.
    pub fn new(base_dirs: BaseDirs, mime_assocs: Vec<MimeAssociation>, apps: Vec<AppEntry>) -> (r:
        App)
        ensures
            r.tab == Tab::BaseDirs,
            !r.should_quit,
            r.base_dirs == base_dirs,
            r.base_state.selected == Some(0usize),
            r.mime_assocs == mime_assocs,
            r.mime_state.selected == (if mime_assocs.len() > 0 {
                Some(0usize)
            } else {
                None
            }),
            r.mime_filter@.len() == 0,
            !r.mime_filter_active,
            r.apps == apps,
            r.app_state.selected == (if apps.len() > 0 {
                Some(0usize)
            } else {
                None
            }),
            r.app_filter@.len() == 0,
            !r.app_filter_active,
            r.status is None,
    {
        let mut base_state = Selection::new();
        base_state.select(Some(0));
        let mut mime_state = Selection::new();
        if mime_assocs.len() > 0 {
            mime_state.select(Some(0));
        }
        let mut app_state = Selection::new();
        if apps.len() > 0 {
            app_state.select(Some(0));
        }
        App {
            tab: Tab::BaseDirs,
            should_quit: false,
            base_dirs,
            base_state,
            mime_assocs,
            mime_state,
            mime_filter: String::new(),
            mime_filter_active: false,
            apps,
            app_state,
            app_filter: String::new(),
            app_filter_active: false,
            status: None,
        }
    }

    /// The rows the MIME tab lists (see [`App::mime_indices`]); with an
    /// empty filter, every association, in order.
    pub fn filtered_mime_indices(&self) -> (r: Vec<usize>)
        ensures
            r@ == self.mime_indices(),
            self.mime_filter@.len() == 0 ==> r@ == all_indices(self.mime_assocs@.len()),
    {
        let n = self.mime_assocs.len();
        let mut r: Vec<usize> = Vec::new();
        let lower = to_lowercase(self.mime_filter.as_str());
        let q = to_chars(lower.as_str());
        let ghost v = associations_view(self.mime_assocs@);
        let ghost pred = |i: int| mime_matches(v[i], q@);
        if self.mime_filter.as_str().is_empty() {
            proof {
                assert forall|i: int| 0 <= i < v.len() implies #[trigger] pred(i) by {
                    assert(q@ =~= Seq::<char>::empty());
                    lemma_contains_empty(lowercase(v[i].mime_type));
                }
                lemma_all_matching(v.len(), pred);
            }
            let mut i: usize = 0;
            while i < n
                invariant
                    i <= n == self.mime_assocs@.len(),
                    r@ == all_indices(i as nat),
                decreases n - i,
            {
                r.push(i);
                i += 1;
                assert(r@ =~= all_indices(i as nat));
            }
            return r;
        }
        let mut i: usize = 0;
        while i < n
            invariant
                i <= n == self.mime_assocs@.len() == v.len(),
                v == associations_view(self.mime_assocs@),
                pred == (|i: int| mime_matches(v[i], q@)),
                q@ == lowercase(self.mime_filter@),
                r@ == matching_indices(i as nat, pred),
            decreases n - i,
        {
            let m = &self.mime_assocs[i];
            assert(m@ == v[i as int]);
            let t = to_chars(to_lowercase(m.mime_type.as_str()).as_str());
            let mut hit = contains_chars(&t, &q);
            if !hit {
                match &m.default_app {
                    Some(d) => {
                        let dl = to_chars(to_lowercase(d.as_str()).as_str());
                        hit = contains_chars(&dl, &q);
                    },
                    None => {},
                }
            }
            assert(hit == pred(i as int));
            if hit {
                r.push(i);
            }
            i += 1;
        }
        r
    }

    /// The rows the Applications tab lists (see [`App::app_indices`]);
    /// with an empty filter, every application, in order.
    pub fn filtered_app_indices(&self) -> (r: Vec<usize>)
        ensures
            r@ == self.app_indices(),
            self.app_filter@.len() == 0 ==> r@ == all_indices(self.apps@.len()),
    {
        let n = self.apps.len();
        let mut r: Vec<usize> = Vec::new();
        let lower = to_lowercase(self.app_filter.as_str());
        let q = to_chars(lower.as_str());
        let ghost v = apps_view(self.apps@);
        let ghost pred = |i: int| app_matches(v[i], q@);
        if self.app_filter.as_str().is_empty() {
            proof {
                assert forall|i: int| 0 <= i < v.len() implies #[trigger] pred(i) by {
                    assert(q@ =~= Seq::<char>::empty());
                    lemma_contains_empty(lowercase(v[i].name));
                }
                lemma_all_matching(v.len(), pred);
            }
            let mut i: usize = 0;
            while i < n
                invariant
                    i <= n == self.apps@.len(),
                    r@ == all_indices(i as nat),
                decreases n - i,
            {
                r.push(i);
                i += 1;
                assert(r@ =~= all_indices(i as nat));
            }
            return r;
        }
        let mut i: usize = 0;
        while i < n
            invariant
                i <= n == self.apps@.len() == v.len(),
                v == apps_view(self.apps@),
                pred == (|i: int| app_matches(v[i], q@)),
                q@ == lowercase(self.app_filter@),
                r@ == matching_indices(i as nat, pred),
            decreases n - i,
        {
            let a = &self.apps[i];
            assert(a@ == v[i as int]);
            let mut hit = contains_chars(&to_chars(to_lowercase(a.name.as_str()).as_str()), &q);
            if !hit {
                hit = contains_chars(&to_chars(to_lowercase(a.id.as_str()).as_str()), &q);
            }
            if !hit {
                let mut j: usize = 0;
                while j < a.categories.len() && !hit
                    invariant
                        j <= a.categories.len(),
                        a@ == v[i as int],
                        hit ==> exists|k: int|
                            0 <= k < a@.categories.len() && contains_seq(
                                lowercase(#[trigger] a@.categories[k]),
                                q@,
                            ),
                        !hit ==> forall|k: int|
                            0 <= k < j ==> !contains_seq(
                                lowercase(#[trigger] a@.categories[k]),
                                q@,
                            ),
                    decreases a.categories.len() - j,
                {
                    assert(a@.categories[j as int] == a.categories@[j as int]@);
                    hit = contains_chars(
                        &to_chars(to_lowercase(a.categories[j].as_str()).as_str()),
                        &q,
                    );
                    j += 1;
                }
            }
            assert(hit == pred(i as int));
            if hit {
                r.push(i);
            }
            i += 1;
        }
        r
    }

    /// Moves the active tab's selection by `delta` rows, wrapping around at
    /// both ends; clears it when the tab lists nothing.
    pub fn move_selection(&mut self, delta: i32)
        requires
            old(self).move_defined(delta),
        ensures
            *final(self) == old(self).after_move(delta),
    {
        let len = match self.tab {
            Tab::BaseDirs => self.base_dirs.dirs.len(),
            Tab::MimeTypes => self.filtered_mime_indices().len(),
            Tab::Applications => self.filtered_app_indices().len(),
        };
        match self.tab {
            Tab::BaseDirs => step_selection(&mut self.base_state, len, delta),
            Tab::MimeTypes => step_selection(&mut self.mime_state, len, delta),
            Tab::Applications => step_selection(&mut self.app_state, len, delta),
        }
    }

    /// Whether the active tab's filter takes input (see
    /// [`App::filter_active`]).
    pub fn filter_input_active(&self) -> (r: bool)
        ensures
            r == self.filter_active(),
    {
        match self.tab {
            Tab::BaseDirs => false,
            Tab::MimeTypes => self.mime_filter_active,
            Tab::Applications => self.app_filter_active,
        }
    }

    /// Whether moving the active selection by `delta` stays within `i32`
    /// arithmetic (see [`App::move_defined`]).
    pub fn can_move_selection(&self, delta: i32) -> (r: bool)
        ensures
            r == self.move_defined(delta),
    {
        let len = match self.tab {
            Tab::BaseDirs => self.base_dirs.dirs.len(),
            Tab::MimeTypes => self.filtered_mime_indices().len(),
            Tab::Applications => self.filtered_app_indices().len(),
        };
        if len == 0 {
            return true;
        }
        let current = match self.tab {
            Tab::BaseDirs => self.base_state.selected(),
            Tab::MimeTypes => self.mime_state.selected(),
            Tab::Applications => self.app_state.selected(),
        };
        let current = match current {
            Some(i) => i,
            None => 0,
        };
        let c = current as i32;
        let m = len as i32;
        let x = c as i64 + delta as i64;
        (i32::MIN as i64) <= x && x <= (i32::MAX as i64) && m != 0 && !(x == (i32::MIN as i64)
            && m == -1)
    }

    /// Replaces the data with freshly read data and reports the reload.
    pub fn refresh(
        &mut self,
        base_dirs: BaseDirs,
        mime_assocs: Vec<MimeAssociation>,
        apps: Vec<AppEntry>,
    )
        ensures
            final(self).base_dirs == base_dirs,
            final(self).mime_assocs == mime_assocs,
            final(self).apps == apps,
            final(self).status matches Some(s) && s.message@ == "Reloaded XDG data"@ && !s.is_error
                && s.lifetime_ms == 4000,
            final(self).tab == old(self).tab,
            final(self).should_quit == old(self).should_quit,
            final(self).base_state == old(self).base_state,
            final(self).mime_state == old(self).mime_state,
            final(self).mime_filter == old(self).mime_filter,
            final(self).mime_filter_active == old(self).mime_filter_active,
            final(self).app_state == old(self).app_state,
            final(self).app_filter == old(self).app_filter,
            final(self).app_filter_active == old(self).app_filter_active,
    {
        self.base_dirs = base_dirs;
        self.mime_assocs = mime_assocs;
        self.apps = apps;
        self.status = Some(Status::info(String::from_str("Reloaded XDG data")));
    }
}

/// Moving the selection changes nothing but the active tab's selection.
pub proof fn lemma_move_changes_only_active_selection(app: App, delta: i32)
    ensures
        ({
            let a = app.after_move(delta);
            &&& a.tab == app.tab
            &&& a.should_quit == app.should_quit
            &&& a.base_dirs == app.base_dirs
            &&& a.mime_assocs == app.mime_assocs
            &&& a.mime_filter == app.mime_filter
            &&& a.mime_filter_active == app.mime_filter_active
            &&& a.apps == app.apps
            &&& a.app_filter == app.app_filter
            &&& a.app_filter_active == app.app_filter_active
            &&& a.status == app.status
            &&& app.tab != Tab::BaseDirs ==> a.base_state == app.base_state
            &&& app.tab != Tab::MimeTypes ==> a.mime_state == app.mime_state
            &&& app.tab != Tab::Applications ==> a.app_state == app.app_state
        }),
{
}

/// Moving wraps over the rows the active tab shows: from a row among the
/// `n` rows listed (all base directories, or the rows left by the MIME or
/// the application filter), a move by `delta` selects row
/// `(current + delta) mod n`, which is again one of the listed rows; with
/// nothing listed, the selection is cleared.
pub proof fn lemma_move_wraps_over_listed_rows(app: App, delta: i32)
    requires
        ({
            let n: int = match app.tab {
                Tab::BaseDirs => app.base_dirs.dirs@.len() as int,
                Tab::MimeTypes => app.mime_indices().len() as int,
                Tab::Applications => app.app_indices().len() as int,
            };
            let s = match app.tab {
                Tab::BaseDirs => app.base_state,
                Tab::MimeTypes => app.mime_state,
                Tab::Applications => app.app_state,
            };
            n <= i32::MAX && (n == 0 || current_row(s) < n)
        }),
    ensures
        ({
            let a = app.after_move(delta);
            let n: int = match app.tab {
                Tab::BaseDirs => app.base_dirs.dirs@.len() as int,
                Tab::MimeTypes => app.mime_indices().len() as int,
                Tab::Applications => app.app_indices().len() as int,
            };
            let s = match app.tab {
                Tab::BaseDirs => app.base_state,
                Tab::MimeTypes => app.mime_state,
                Tab::Applications => app.app_state,
            };
            let t = match app.tab {
                Tab::BaseDirs => a.base_state,
                Tab::MimeTypes => a.mime_state,
                Tab::Applications => a.app_state,
            };
            &&& n == 0 ==> t.selected is None
            &&& n > 0 ==> (t.selected matches Some(k) && k < n && k as int == (current_row(s) as int
                + delta as int) % n)
        }),
{
    assert(app.base_dirs.dirs.len() == app.base_dirs.dirs@.len());
    let n: int = app.active_len() as int;
    let c = current_row(app.active_selection()) as int;
    if n > 0 {
        assert((c as i32) as int == c);
        assert((n as i32) as int == n);
        let k = (c + delta as int) % n;
        assert(0 <= k < n);
        assert((k as usize) as int == k);
    }
}

/// `i` is one of the indices of `v`.
pub open spec fn lists_row(v: Seq<usize>, i: int) -> bool {
    exists|j: int| 0 <= j < v.len() && v[j] == i
}

/// What `inner` contains, a sequence containing `inner` contains too.
pub proof fn lemma_contains_transitive(hay: Seq<char>, mid: Seq<char>, inner: Seq<char>)
    requires
        contains_seq(hay, mid),
        contains_seq(mid, inner),
    ensures
        contains_seq(hay, inner),
{
    let i = choose|i: int| #[trigger] occurs_at(hay, mid, i);
    let j = choose|j: int| #[trigger] occurs_at(mid, inner, j);
    assert(hay.subrange(i + j, i + j + inner.len()) =~= mid.subrange(j, j + inner.len()));
    assert(occurs_at(hay, inner, i + j));
}

/// Narrowing the MIME filter never lists more rows: when the lowercase
/// form of the first filter occurs in that of the second, every row listed
/// for the second is listed for the first.
pub proof fn lemma_narrower_mime_filter(a1: App, a2: App)
    requires
        a1.mime_assocs == a2.mime_assocs,
        contains_seq(lowercase(a2.mime_filter@), lowercase(a1.mime_filter@)),
    ensures
        forall|k: int|
            0 <= k < a2.mime_indices().len() ==> lists_row(a1.mime_indices(), #[trigger] a2.mime_indices()[k] as int),
{
    let v = associations_view(a2.mime_assocs@);
    let q1 = lowercase(a1.mime_filter@);
    let q2 = lowercase(a2.mime_filter@);
    let p1 = |i: int| mime_matches(v[i], q1);
    let p2 = |i: int| mime_matches(v[i], q2);
    assert(a2.mime_assocs.len() == a2.mime_assocs@.len());
    lemma_matching_indices(v.len(), p2);
    lemma_matching_indices(v.len(), p1);
    assert(a2.mime_indices() == matching_indices(v.len(), p2));
    assert forall|k: int| 0 <= k < a2.mime_indices().len() implies lists_row(
        a1.mime_indices(),
        #[trigger] a2.mime_indices()[k] as int,
    ) by {
        let i = a2.mime_indices()[k] as int;
        assert(p2(i));
        assert(a1.mime_indices() == matching_indices(v.len(), p1));
        let m = v[i];
        if contains_seq(lowercase(m.mime_type), q2) {
            lemma_contains_transitive(lowercase(m.mime_type), q2, q1);
        } else {
            let d = m.default_app->0;
            lemma_contains_transitive(lowercase(d), q2, q1);
        }
        assert(p1(i));
        let j = choose|j: int|
            0 <= j < matching_indices(v.len(), p1).len() && matching_indices(v.len(), p1)[j] == i;
        assert(a1.mime_indices()[j] == i);
    }
}

/// Narrowing the application filter never lists more rows (see
/// [`lemma_narrower_mime_filter`]).
pub proof fn lemma_narrower_app_filter(a1: App, a2: App)
    requires
        a1.apps == a2.apps,
        contains_seq(lowercase(a2.app_filter@), lowercase(a1.app_filter@)),
    ensures
        forall|k: int|
            0 <= k < a2.app_indices().len() ==> lists_row(a1.app_indices(), #[trigger] a2.app_indices()[k] as int),
{
    let v = apps_view(a2.apps@);
    let q1 = lowercase(a1.app_filter@);
    let q2 = lowercase(a2.app_filter@);
    let p1 = |i: int| app_matches(v[i], q1);
    let p2 = |i: int| app_matches(v[i], q2);
    assert(a2.apps.len() == a2.apps@.len());
    lemma_matching_indices(v.len(), p2);
    lemma_matching_indices(v.len(), p1);
    assert(a2.app_indices() == matching_indices(v.len(), p2));
    assert forall|k: int| 0 <= k < a2.app_indices().len() implies lists_row(
        a1.app_indices(),
        #[trigger] a2.app_indices()[k] as int,
    ) by {
        let i = a2.app_indices()[k] as int;
        assert(p2(i));
        assert(a1.app_indices() == matching_indices(v.len(), p1));
        let a = v[i];
        if contains_seq(lowercase(a.name), q2) {
            lemma_contains_transitive(lowercase(a.name), q2, q1);
        } else if contains_seq(lowercase(a.id), q2) {
            lemma_contains_transitive(lowercase(a.id), q2, q1);
        } else {
            let c = choose|c: int|
                0 <= c < a.categories.len() && contains_seq(lowercase(#[trigger] a.categories[c]), q2);
            lemma_contains_transitive(lowercase(a.categories[c]), q2, q1);
        }
        assert(p1(i));
        let j = choose|j: int|
            0 <= j < matching_indices(v.len(), p1).len() && matching_indices(v.len(), p1)[j] == i;
        assert(a1.app_indices()[j] == i);
    }
}

/// The listed MIME rows are valid, strictly increasing indices, and every
/// association that matches the filter is listed.
pub proof fn lemma_mime_indices_valid(app: App)
    ensures
        forall|k: int|
            0 <= k < app.mime_indices().len() ==> #[trigger] app.mime_indices()[k]
                < app.mime_assocs@.len(),
        forall|k: int, l: int|
            0 <= k < l < app.mime_indices().len() ==> #[trigger] app.mime_indices()[k]
                < #[trigger] app.mime_indices()[l],
        forall|i: int|
            0 <= i < app.mime_assocs@.len() && mime_matches(
                #[trigger] associations_view(app.mime_assocs@)[i],
                lowercase(app.mime_filter@),
            ) ==> exists|k: int| 0 <= k < app.mime_indices().len() && app.mime_indices()[k] == i,
{
    assert(app.mime_assocs.len() == app.mime_assocs@.len());
    let q = lowercase(app.mime_filter@);
    let v = associations_view(app.mime_assocs@);
    let pred = |i: int| mime_matches(v[i], q);
    lemma_matching_indices(v.len(), pred);
    assert(app.mime_indices() == matching_indices(v.len(), pred));
    assert forall|i: int|
        0 <= i < app.mime_assocs@.len() && mime_matches(
            #[trigger] associations_view(app.mime_assocs@)[i],
            lowercase(app.mime_filter@),
        ) implies exists|k: int|
        0 <= k < app.mime_indices().len() && app.mime_indices()[k] == i by {
        assert(pred(i));
        let k = choose|k: int|
            0 <= k < matching_indices(v.len(), pred).len() && matching_indices(v.len(), pred)[k]
                == i;
        assert(app.mime_indices()[k] == i);
    }
}

/// The listed application rows are valid, strictly increasing indices, and
/// every application that matches the filter is listed.
pub proof fn lemma_app_indices_valid(app: App)
    ensures
        forall|k: int|
            0 <= k < app.app_indices().len() ==> #[trigger] app.app_indices()[k]
                < app.apps@.len(),
        forall|k: int, l: int|
            0 <= k < l < app.app_indices().len() ==> #[trigger] app.app_indices()[k]
                < #[trigger] app.app_indices()[l],
        forall|i: int|
            0 <= i < app.apps@.len() && app_matches(
                #[trigger] apps_view(app.apps@)[i],
                lowercase(app.app_filter@),
            ) ==> exists|k: int| 0 <= k < app.app_indices().len() && app.app_indices()[k] == i,
{
    assert(app.apps.len() == app.apps@.len());
    let q = lowercase(app.app_filter@);
    let v = apps_view(app.apps@);
    let pred = |i: int| app_matches(v[i], q);
    lemma_matching_indices(v.len(), pred);
    assert(app.app_indices() == matching_indices(v.len(), pred));
    assert forall|i: int|
        0 <= i < app.apps@.len() && app_matches(
            #[trigger] apps_view(app.apps@)[i],
            lowercase(app.app_filter@),
        ) implies exists|k: int|
        0 <= k < app.app_indices().len() && app.app_indices()[k] == i by {
        assert(pred(i));
        let k = choose|k: int|
            0 <= k < matching_indices(v.len(), pred).len() && matching_indices(v.len(), pred)[k]
                == i;
        assert(app.app_indices()[k] == i);
    }
}

} // verus!
