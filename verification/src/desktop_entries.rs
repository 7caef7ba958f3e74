//! Desktop entries (`.desktop` files): turning the text of each file into an
//! application record, ordering the records by name and dropping repeated
//! application ids.

use vstd::prelude::*;
use crate::mime::opt_string_view;
use crate::text::{
    lemma_seq_lt_asymmetric, lemma_seq_lt_irreflexive, lemma_seq_lt_total,
    lemma_seq_lt_transitive, key_before, lowercase, seq_lt, strings_view, to_chars, to_lowercase,
};
use freedesktop_desktop_entry::DesktopEntry;

verus! {

/// One installed application, as its desktop entry describes it.
#[derive(Debug, Clone)]
pub struct AppEntry {
    pub id: String,
    pub name: String,
    pub generic_name: Option<String>,
    pub comment: Option<String>,
    pub exec_line: Option<String>,
    pub icon: Option<String>,
    pub categories: Vec<String>,
    pub mime_types: Vec<String>,
    pub no_display: bool,
    pub terminal: bool,
    pub path: String,
}

/// The mathematical content of an [`AppEntry`].
pub struct AppEntryView {
    pub id: Seq<char>,
    pub name: Seq<char>,
    pub generic_name: Option<Seq<char>>,
    pub comment: Option<Seq<char>>,
    pub exec_line: Option<Seq<char>>,
    pub icon: Option<Seq<char>>,
    pub categories: Seq<Seq<char>>,
    pub mime_types: Seq<Seq<char>>,
    pub no_display: bool,
    pub terminal: bool,
    pub path: Seq<char>,
}

impl View for AppEntry {
    type V = AppEntryView;

    open spec fn view(&self) -> AppEntryView {
        AppEntryView {
            id: self.id@,
            name: self.name@,
            generic_name: opt_string_view(self.generic_name),
            comment: opt_string_view(self.comment),
            exec_line: opt_string_view(self.exec_line),
            icon: opt_string_view(self.icon),
            categories: strings_view(self.categories@),
            mime_types: strings_view(self.mime_types@),
            no_display: self.no_display,
            terminal: self.terminal,
            path: self.path@,
        }
    }
}

/// The views of a sequence of application records.
pub open spec fn apps_view(v: Seq<AppEntry>) -> Seq<AppEntryView> {
    v.map_values(|a: AppEntry| a@)
}

/// The fields of a parsed desktop entry that the application list uses,
/// as the desktop-entry parser reports them (no locale applied).
#[derive(Debug, Clone)]
pub struct DesktopFields {
    pub appid: String,
    pub name: Option<String>,
    pub generic_name: Option<String>,
    pub comment: Option<String>,
    pub exec_line: Option<String>,
    pub icon: Option<String>,
    pub categories: Option<Vec<String>>,
    pub mime_types: Option<Vec<String>>,
    pub no_display: bool,
    pub terminal: bool,
}

/// The mathematical content of [`DesktopFields`].
pub struct DesktopFieldsView {
    pub appid: Seq<char>,
    pub name: Option<Seq<char>>,
    pub generic_name: Option<Seq<char>>,
    pub comment: Option<Seq<char>>,
    pub exec_line: Option<Seq<char>>,
    pub icon: Option<Seq<char>>,
    pub categories: Option<Seq<Seq<char>>>,
    pub mime_types: Option<Seq<Seq<char>>>,
    pub no_display: bool,
    pub terminal: bool,
}

/// The characters of an optional list of strings.
pub open spec fn opt_strings_view(o: Option<Vec<String>>) -> Option<Seq<Seq<char>>> {
    match o {
        Some(v) => Some(strings_view(v@)),
        None => None,
    }
}

impl View for DesktopFields {
    type V = DesktopFieldsView;

    open spec fn view(&self) -> DesktopFieldsView {
        DesktopFieldsView {
            appid: self.appid@,
            name: opt_string_view(self.name),
            generic_name: opt_string_view(self.generic_name),
            comment: opt_string_view(self.comment),
            exec_line: opt_string_view(self.exec_line),
            icon: opt_string_view(self.icon),
            categories: opt_strings_view(self.categories),
            mime_types: opt_strings_view(self.mime_types),
            no_display: self.no_display,
            terminal: self.terminal,
        }
    }
}

/// The view of an optional parse result.
pub open spec fn opt_fields_view(o: Option<DesktopFields>) -> Option<DesktopFieldsView> {
    match o {
        Some(f) => Some(f@),
        None => None,
    }
}

/// The name for what the desktop-entry parser makes of the file at `path`
/// holding `content`: `None` where it rejects the file, else the fields it
/// reports. The desktop entry format takes pages to state.
pub uninterp spec fn desktop_entry_fields(path: Seq<char>, content: Seq<char>) -> Option<
    DesktopFieldsView,
>;

/// `DesktopEntry::from_str` of the `freedesktop_desktop_entry` crate on
/// `path` and `content` with an empty locale list, followed by its accessors
/// `appid`, `name`, `generic_name`, `comment`, `exec`, `icon`, `categories`,
/// `mime_type`, `no_display` and `terminal`. The result is claimed to be a
/// function of the path and the text alone, named [`desktop_entry_fields`];
/// that holds with the crate's `gettext` feature off, which this crate asks for.
#[verifier::external_body]
fn parse_desktop_entry(path: &str, content: &str) -> (r: Option<DesktopFields>)
    ensures
        opt_fields_view(r) == desktop_entry_fields(path@, content@),
{
    let no: &[&str] = &[];
    let e = DesktopEntry::from_str(path, content, Some(no)).ok()?;
    let list = |v: Vec<_>| v.into_iter().map(Into::into).collect();
    Some(DesktopFields {
        name: e.name(no).map(Into::into),
        generic_name: e.generic_name(no).map(Into::into),
        comment: e.comment(no).map(Into::into),
        exec_line: e.exec().map(Into::into),
        icon: e.icon().map(Into::into),
        categories: e.categories().map(list),
        mime_types: e.mime_type().map(list),
        no_display: e.no_display(),
        terminal: e.terminal(),
        appid: e.appid,
    })
}

/// The application record for the parsed fields `f` of the file at `path`:
/// the name falls back to the application id, and missing category and MIME
/// lists count as empty.
pub open spec fn app_from_fields(f: DesktopFieldsView, path: Seq<char>) -> AppEntryView {
    AppEntryView {
        id: f.appid,
        name: match f.name {
            Some(n) => n,
            None => f.appid,
        },
        generic_name: f.generic_name,
        comment: f.comment,
        exec_line: f.exec_line,
        icon: f.icon,
        categories: match f.categories {
            Some(c) => c,
            None => Seq::empty(),
        },
        mime_types: match f.mime_types {
            Some(m) => m,
            None => Seq::empty(),
        },
        no_display: f.no_display,
        terminal: f.terminal,
        path,
    }
}

impl AppEntry {
    /// The application record for the parsed fields of the file at `path`.
    pub fn from_entry(entry: DesktopFields, path: String) -> (r: AppEntry)
        ensures
            r@ == app_from_fields(entry@, path@),
    {
        let id = entry.appid.clone();
        let name = match entry.name {
            Some(n) => n,
            None => entry.appid,
        };
        let categories = match entry.categories {
            Some(c) => c,
            None => Vec::new(),
        };
        let mime_types = match entry.mime_types {
            Some(m) => m,
            None => Vec::new(),
        };
        assert(entry.categories is None ==> strings_view(categories@) =~= Seq::<Seq<char>>::empty());
        assert(entry.mime_types is None ==> strings_view(mime_types@) =~= Seq::<Seq<char>>::empty());
        AppEntry {
            id,
            name,
            generic_name: entry.generic_name,
            comment: entry.comment,
            exec_line: entry.exec_line,
            icon: entry.icon,
            categories,
            mime_types,
            no_display: entry.no_display,
            terminal: entry.terminal,
            path,
        }
    }
}

// ---------------------------------------------------------------------------
// Ordering and de-duplication
// ---------------------------------------------------------------------------

/// The key applications are ordered by: the lowercase form of the name.
pub open spec fn name_key(a: AppEntryView) -> Seq<char> {
    lowercase(a.name)
}

/// Some position of `p` holds `j`.
pub open spec fn takes(p: Seq<int>, j: int) -> bool {
    exists|i: int| 0 <= i < p.len() && #[trigger] p[i] == j
}

/// `output` is `input` sorted stably by [`name_key`], through the
/// rearrangement `p`: `output[i]` is `input[p[i]]`, every input position is
/// used once, keys never decrease, and records with equal keys keep their
/// input order.
pub open spec fn stable_sorted_by_name(
    input: Seq<AppEntryView>,
    output: Seq<AppEntryView>,
    p: Seq<int>,
) -> bool {
    &&& p.len() == input.len()
    &&& output.len() == input.len()
    &&& forall|i: int| 0 <= i < p.len() ==> 0 <= #[trigger] p[i] < input.len()
    &&& forall|i: int| 0 <= i < p.len() ==> #[trigger] output[i] == input[p[i]]
    &&& forall|i: int, j: int| 0 <= i < j < p.len() ==> #[trigger] p[i] != #[trigger] p[j]
    &&& forall|j: int| 0 <= j < input.len() ==> #[trigger] takes(p, j)
    &&& forall|i: int, j: int|
        0 <= i < j < output.len() ==> seq_lt(
            name_key(#[trigger] output[i]),
            name_key(#[trigger] output[j]),
        ) || (name_key(output[i]) == name_key(output[j]) && p[i] < p[j])
}

/// A stable sort by name puts the records in non-decreasing order of their
/// lowercase names, and records with equal names in their input order.
pub proof fn lemma_sorted_by_name_ordered(
    input: Seq<AppEntryView>,
    output: Seq<AppEntryView>,
    p: Seq<int>,
)
    requires
        stable_sorted_by_name(input, output, p),
    ensures
        forall|i: int, j: int|
            0 <= i < j < output.len() ==> !seq_lt(
                name_key(#[trigger] output[j]),
                name_key(#[trigger] output[i]),
            ),
        forall|i: int, j: int|
            0 <= i < j < output.len() && name_key(#[trigger] output[i]) == name_key(
                #[trigger] output[j],
            ) ==> p[i] < p[j],
{
    assert forall|i: int, j: int| 0 <= i < j < output.len() implies !seq_lt(
        name_key(#[trigger] output[j]),
        name_key(#[trigger] output[i]),
    ) by {
        if seq_lt(name_key(output[i]), name_key(output[j])) {
            lemma_seq_lt_asymmetric(name_key(output[i]), name_key(output[j]));
        } else {
            lemma_seq_lt_irreflexive(name_key(output[i]));
        }
    }
    assert forall|i: int, j: int|
        0 <= i < j < output.len() && name_key(#[trigger] output[i]) == name_key(
            #[trigger] output[j],
        ) implies p[i] < p[j] by {
        lemma_seq_lt_irreflexive(name_key(output[i]));
    }
}

/// The records of `s` without those whose id repeats the id of the record
/// just before them (the first of each run is kept).
pub open spec fn dedup_ids(s: Seq<AppEntryView>) -> Seq<AppEntryView>
    decreases s.len(),
{
    if s.len() == 0 {
        s
    } else {
        let d = dedup_ids(s.drop_last());
        if d.len() > 0 && d.last().id == s.last().id {
            d
        } else {
            d.push(s.last())
        }
    }
}

/// After de-duplication no record has the id of the record just before it,
/// and the first record (if any) is kept.
pub proof fn lemma_dedup_no_adjacent_repeats(s: Seq<AppEntryView>)
    ensures
        forall|i: int|
            0 <= i < dedup_ids(s).len() - 1 ==> #[trigger] dedup_ids(s)[i].id != dedup_ids(s)[i
                + 1].id,
        dedup_ids(s).len() <= s.len(),
        s.len() > 0 ==> dedup_ids(s).len() > 0 && dedup_ids(s)[0] == s[0],
    decreases s.len(),
{
    if s.len() > 0 {
        lemma_dedup_no_adjacent_repeats(s.drop_last());
        if s.len() == 1 {
            assert(s.drop_last().len() == 0);
        } else {
            assert(s.drop_last()[0] == s[0]);
        }
    }
}

/// `entries` sorted stably by the lowercase form of their names.
pub fn sort_by_name(entries: Vec<AppEntry>) -> (r: Vec<AppEntry>)
    ensures
        exists|p: Seq<int>| stable_sorted_by_name(apps_view(entries@), apps_view(r@), p),
{
    let ghost input = apps_view(entries@);
    let n = entries.len();
    let mut rest = entries;
    let mut out: Vec<AppEntry> = Vec::new();
    let mut keys: Vec<Vec<char>> = Vec::new();
    let ghost mut p: Seq<int> = Seq::empty();
    let mut i: usize = 0;
    while i < n
        invariant
            i <= n == input.len(),
            apps_view(rest@) == input.skip(i as int),
            rest.len() == n - i,
            out.len() == i,
            keys.len() == i,
            p.len() == i,
            forall|t: int| 0 <= t < i ==> 0 <= #[trigger] p[t] < i,
            forall|t: int| 0 <= t < i ==> #[trigger] apps_view(out@)[t] == input[p[t]],
            forall|t: int| 0 <= t < i ==> #[trigger] keys@[t]@ == name_key(apps_view(out@)[t]),
            forall|a: int, b: int| 0 <= a < b < i ==> #[trigger] p[a] != #[trigger] p[b],
            forall|j: int| 0 <= j < i ==> #[trigger] takes(p, j),
            forall|a: int, b: int|
                0 <= a < b < i ==> seq_lt(#[trigger] keys@[a]@, #[trigger] keys@[b]@) || (
                keys@[a]@ == keys@[b]@ && p[a] < p[b]),
        decreases n - i,
    {
        assert(apps_view(rest@)[0] == input[i as int]);
        let ghost old_rest = rest@;
        let e = rest.remove(0);
        assert forall|j: int| 0 <= j < rest.len() implies #[trigger] apps_view(rest@)[j]
            == input.skip(i + 1)[j] by {
            assert(rest@[j] == old_rest[j + 1]);
            assert(apps_view(old_rest)[j + 1] == input.skip(i as int)[j + 1]);
        }
        assert(apps_view(rest@) =~= input.skip(i + 1));
        let lower = to_lowercase(e.name.as_str());
        let k = to_chars(lower.as_str());
        assert(k@ == name_key(e@));
        let mut pos: usize = 0;
        while pos < keys.len() && !key_before(&k, &keys[pos])
            invariant
                pos <= keys.len() == i,
                forall|t: int| 0 <= t < pos ==> !seq_lt(k@, #[trigger] keys@[t]@),
            decreases keys.len() - pos,
        {
            pos += 1;
        }
        let ghost old_keys = keys@;
        let ghost old_out = apps_view(out@);
        let ghost old_p = p;
        proof {
            assert forall|t: int| pos <= t < i implies seq_lt(k@, #[trigger] old_keys[t]@) by {
                if t > pos {
                    let kp = old_keys[pos as int]@;
                    let kt = old_keys[t]@;
                    if seq_lt(kp, kt) {
                        lemma_seq_lt_transitive(k@, kp, kt);
                    }
                }
            }
            assert forall|t: int| 0 <= t < pos implies seq_lt(#[trigger] old_keys[t]@, k@)
                || old_keys[t]@ == k@ by {
                lemma_seq_lt_total(old_keys[t]@, k@);
            }
        }
        let ghost ev = e@;
        out.insert(pos, e);
        keys.insert(pos, k);
        proof {
            p = old_p.insert(pos as int, i as int);
            assert(apps_view(out@) =~= old_out.insert(pos as int, ev));
            assert forall|a: int, b: int| 0 <= a < b < i + 1 implies seq_lt(
                #[trigger] keys@[a]@,
                #[trigger] keys@[b]@,
            ) || (keys@[a]@ == keys@[b]@ && p[a] < p[b]) by {
                if a < pos && b < pos {
                    assert(keys@[a] == old_keys[a] && keys@[b] == old_keys[b]);
                } else if a < pos && b == pos {
                } else if a < pos {
                    assert(keys@[a] == old_keys[a] && keys@[b] == old_keys[b - 1]);
                    assert(seq_lt(old_keys[a]@, old_keys[b - 1]@) || (old_keys[a]@
                        == old_keys[b - 1]@ && old_p[a] < old_p[b - 1]));
                    if seq_lt(old_keys[a]@, k@) {
                        lemma_seq_lt_transitive(old_keys[a]@, k@, old_keys[b - 1]@);
                    }
                } else if a == pos {
                    assert(keys@[b] == old_keys[b - 1]);
                } else {
                    assert(keys@[a] == old_keys[a - 1] && keys@[b] == old_keys[b - 1]);
                }
            }
            assert forall|a: int, b: int| 0 <= a < b < i + 1 implies #[trigger] p[a]
                != #[trigger] p[b] by {
                if a < pos && b < pos {
                } else if a < pos && b == pos {
                } else if a < pos {
                    assert(p[a] == old_p[a] && p[b] == old_p[b - 1]);
                } else if a == pos {
                } else {
                    assert(p[a] == old_p[a - 1] && p[b] == old_p[b - 1]);
                }
            }
            assert forall|t: int| 0 <= t < i + 1 implies #[trigger] keys@[t]@ == name_key(
                apps_view(out@)[t],
            ) by {
                if t < pos {
                    assert(keys@[t] == old_keys[t]);
                } else if t > pos {
                    assert(keys@[t] == old_keys[t - 1]);
                }
            }
            assert forall|j: int| 0 <= j < i + 1 implies #[trigger] takes(p, j) by {
                if j == i {
                    assert(p[pos as int] == j);
                } else {
                    assert(takes(old_p, j));
                    let t = choose|t: int| 0 <= t < old_p.len() && #[trigger] old_p[t] == j;
                    if t < pos {
                        assert(p[t] == j);
                    } else {
                        assert(p[t + 1] == j);
                    }
                }
            }
            assert forall|t: int| 0 <= t < i + 1 implies #[trigger] apps_view(out@)[t]
                == input[p[t]] by {
                if t < pos {
                } else if t > pos {
                    assert(p[t] == old_p[t - 1]);
                }
            }
        }
        i += 1;
    }
    proof {
        assert forall|a: int, b: int| 0 <= a < b < apps_view(out@).len() implies seq_lt(
            name_key(#[trigger] apps_view(out@)[a]),
            name_key(#[trigger] apps_view(out@)[b]),
        ) || (name_key(apps_view(out@)[a]) == name_key(apps_view(out@)[b]) && p[a] < p[b]) by {
            assert(keys@[a]@ == name_key(apps_view(out@)[a]));
            assert(keys@[b]@ == name_key(apps_view(out@)[b]));
        }
        assert(stable_sorted_by_name(input, apps_view(out@), p));
    }
    out
}

/// The records are in non-decreasing order of their lowercase names.
pub open spec fn sorted_by_name(s: Seq<AppEntryView>) -> bool {
    forall|i: int, j: int|
        0 <= i < j < s.len() ==> !seq_lt(name_key(#[trigger] s[j]), name_key(#[trigger] s[i]))
}

/// Every record `dedup_ids` keeps is a record of `s`.
proof fn lemma_dedup_members(s: Seq<AppEntryView>)
    ensures
        forall|i: int|
            0 <= i < dedup_ids(s).len() ==> exists|t: int|
                0 <= t < s.len() && s[t] == #[trigger] dedup_ids(s)[i],
    decreases s.len(),
{
    if s.len() > 0 {
        let l = s.drop_last();
        lemma_dedup_members(l);
        let d = dedup_ids(l);
        assert forall|i: int| 0 <= i < dedup_ids(s).len() implies exists|t: int|
            0 <= t < s.len() && s[t] == #[trigger] dedup_ids(s)[i] by {
            if i < d.len() {
                let t = choose|t: int| 0 <= t < l.len() && l[t] == #[trigger] d[i];
                assert(s[t] == dedup_ids(s)[i]);
            } else {
                assert(s[s.len() - 1] == dedup_ids(s)[i]);
            }
        }
    }
}

/// Dropping repeated ids keeps a list sorted by name.
pub proof fn lemma_dedup_keeps_sorted(s: Seq<AppEntryView>)
    requires
        sorted_by_name(s),
    ensures
        sorted_by_name(dedup_ids(s)),
    decreases s.len(),
{
    if s.len() > 0 {
        let l = s.drop_last();
        assert(sorted_by_name(l)) by {
            assert forall|i: int, j: int| 0 <= i < j < l.len() implies !seq_lt(
                name_key(#[trigger] l[j]),
                name_key(#[trigger] l[i]),
            ) by {
                assert(l[i] == s[i] && l[j] == s[j]);
            }
        }
        lemma_dedup_keeps_sorted(l);
        lemma_dedup_members(l);
        let d = dedup_ids(l);
        let r = dedup_ids(s);
        assert forall|i: int, j: int| 0 <= i < j < r.len() implies !seq_lt(
            name_key(#[trigger] r[j]),
            name_key(#[trigger] r[i]),
        ) by {
            if j < d.len() {
                assert(r[i] == d[i] && r[j] == d[j]);
            } else {
                let t = choose|t: int| 0 <= t < l.len() && l[t] == #[trigger] d[i];
                assert(r[i] == s[t]);
                assert(r[j] == s[s.len() - 1]);
            }
        }
    }
}

/// `entries` without each record whose id equals the id of the record kept
/// just before it.
pub fn dedup_by_id(entries: Vec<AppEntry>) -> (r: Vec<AppEntry>)
    ensures
        apps_view(r@) == dedup_ids(apps_view(entries@)),
        forall|i: int| 0 <= i < r@.len() - 1 ==> #[trigger] r@[i].id@ != r@[i + 1].id@,
{
    let ghost input = apps_view(entries@);
    let n = entries.len();
    let mut rest = entries;
    let mut out: Vec<AppEntry> = Vec::new();
    let mut i: usize = 0;
    assert(input.take(0) =~= Seq::<AppEntryView>::empty());
    while i < n
        invariant
            i <= n == input.len(),
            apps_view(rest@) == input.skip(i as int),
            rest.len() == n - i,
            apps_view(out@) == dedup_ids(input.take(i as int)),
        decreases n - i,
    {
        assert(apps_view(rest@)[0] == input[i as int]);
        let ghost old_rest = rest@;
        let e = rest.remove(0);
        assert forall|j: int| 0 <= j < rest.len() implies #[trigger] apps_view(rest@)[j]
            == input.skip(i + 1)[j] by {
            assert(rest@[j] == old_rest[j + 1]);
            assert(apps_view(old_rest)[j + 1] == input.skip(i as int)[j + 1]);
        }
        assert(apps_view(rest@) =~= input.skip(i + 1));
        assert(input.take(i + 1).drop_last() =~= input.take(i as int));
        assert(input.take(i + 1).last() == e@);
        let repeat = out.len() > 0 && out[out.len() - 1].id == e.id;
        if !repeat {
            let ghost before = apps_view(out@);
            let ghost ev = e@;
            out.push(e);
            assert(apps_view(out@) =~= before.push(ev));
        }
        i += 1;
    }
    assert(input.take(n as int) =~= input);
    proof {
        lemma_dedup_no_adjacent_repeats(input);
        assert forall|i: int| 0 <= i < out@.len() - 1 implies #[trigger] out@[i].id@ != out@[i
            + 1].id@ by {
            assert(apps_view(out@)[i] == out@[i]@);
            assert(apps_view(out@)[i + 1] == out@[i + 1]@);
            assert(dedup_ids(input)[i].id != dedup_ids(input)[i + 1].id);
        }
    }
    out
}

/// The application records of the files that parse, in file order; each
/// file is given as its path and its text.
pub open spec fn parsed_apps(files: Seq<(String, String)>) -> Seq<AppEntryView>
    decreases files.len(),
{
    if files.len() == 0 {
        Seq::empty()
    } else {
        let prev = parsed_apps(files.drop_last());
        let f = files.last();
        match desktop_entry_fields(f.0@, f.1@) {
            Some(fields) => prev.push(app_from_fields(fields, f.0@)),
            None => prev,
        }
    }
}

/// The applications described by the given desktop files (each a path and
/// its text): files the parser rejects are skipped, the rest are sorted
/// stably by lowercase name, and a record whose id repeats that of the
/// record before it is dropped.
pub fn discover_apps(files: &Vec<(String, String)>) -> (r: Vec<AppEntry>)
    ensures
        exists|sorted: Seq<AppEntryView>, p: Seq<int>|
            stable_sorted_by_name(parsed_apps(files@), sorted, p) && apps_view(r@) == dedup_ids(
                sorted,
            ),
        forall|i: int| 0 <= i < r@.len() - 1 ==> #[trigger] r@[i].id@ != r@[i + 1].id@,
        sorted_by_name(apps_view(r@)),
{
    let mut parsed: Vec<AppEntry> = Vec::new();
    let mut i: usize = 0;
    assert(files@.take(0) =~= Seq::<(String, String)>::empty());
    while i < files.len()
        invariant
            i <= files.len(),
            apps_view(parsed@) == parsed_apps(files@.take(i as int)),
        decreases files.len() - i,
    {
        let (path, content) = (&files[i].0, &files[i].1);
        assert(files@.take(i + 1).drop_last() =~= files@.take(i as int));
        assert(files@.take(i + 1).last() == files@[i as int]);
        match parse_desktop_entry(path.as_str(), content.as_str()) {
            Some(fields) => {
                let ghost before = apps_view(parsed@);
                let a = AppEntry::from_entry(fields, path.clone());
                parsed.push(a);
                assert(apps_view(parsed@) =~= before.push(a@));
            },
            None => {},
        }
        i += 1;
    }
    assert(files@.take(files.len() as int) =~= files@);
    let ghost all = apps_view(parsed@);
    let sorted = sort_by_name(parsed);
    let ghost sv = apps_view(sorted@);
    let r = dedup_by_id(sorted);
    assert(exists|p: Seq<int>| stable_sorted_by_name(all, sv, p));
    proof {
        let p = choose|p: Seq<int>| stable_sorted_by_name(all, sv, p);
        lemma_sorted_by_name_ordered(all, sv, p);
        lemma_dedup_keeps_sorted(sv);
    }
    r
}

} // verus!
