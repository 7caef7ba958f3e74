//! MIME type default-application associations.
//!
//! Parses the text of a `mimeapps.list` file (the freedesktop Association
//! spec): INI-like sections `[Default Applications]`, `[Added Associations]`
//! and `[Removed Associations]` holding `mime/type=app.desktop;other.desktop;`
//! lines. The result lists one association per MIME type, ordered by type.

use vstd::prelude::*;
use vstd::string::*;
use crate::text::{
    chars_equal, find_char, first_index_of, is_trimmed, lemma_first_index_of,
    lemma_seq_lt_irreflexive, lemma_seq_lt_total, lemma_seq_lt_transitive, lemma_trim_is_trimmed,
    key_before, seq_lt, seqs_of, slice_chars, split_chars, split_seq, string_from_chars,
    strings_from, strings_view, to_chars, trim, trim_chars,
};
use crate::xdg_base::{join_path, path_join};

verus! {

/// What the file says about one MIME type.
#[derive(Debug, Clone)]
pub struct MimeAssociation {
    pub mime_type: String,
    pub default_app: Option<String>,
    pub added_apps: Vec<String>,
    pub removed_apps: Vec<String>,
}

/// The mathematical content of a [`MimeAssociation`].
pub struct AssociationView {
    pub mime_type: Seq<char>,
    pub default_app: Option<Seq<char>>,
    pub added_apps: Seq<Seq<char>>,
    pub removed_apps: Seq<Seq<char>>,
}

/// The characters of an optional string.
pub open spec fn opt_string_view(o: Option<String>) -> Option<Seq<char>> {
    match o {
        Some(s) => Some(s@),
        None => None,
    }
}

impl View for MimeAssociation {
    type V = AssociationView;

    open spec fn view(&self) -> AssociationView {
        AssociationView {
            mime_type: self.mime_type@,
            default_app: opt_string_view(self.default_app),
            added_apps: strings_view(self.added_apps@),
            removed_apps: strings_view(self.removed_apps@),
        }
    }
}

/// The views of a sequence of associations.
pub open spec fn associations_view(v: Seq<MimeAssociation>) -> Seq<AssociationView> {
    v.map_values(|a: MimeAssociation| a@)
}

// ---------------------------------------------------------------------------
// What the file means
// ---------------------------------------------------------------------------

/// The state of a reader part-way through the file: the current section's
/// name and, for each MIME type key seen so far, what has been read of it.
pub struct ParseState {
    pub section: Seq<char>,
    pub table: Map<Seq<char>, AssociationView>,
}

/// An association for `key` that says nothing yet.
pub open spec fn empty_association(key: Seq<char>) -> AssociationView {
    AssociationView {
        mime_type: key,
        default_app: None,
        added_apps: Seq::empty(),
        removed_apps: Seq::empty(),
    }
}

/// The desktop file names of a `;`-separated list: each piece trimmed,
/// empty pieces dropped.
pub open spec fn app_list(parts: Seq<Seq<char>>) -> Seq<Seq<char>>
    decreases parts.len(),
{
    if parts.len() == 0 {
        Seq::empty()
    } else {
        let prev = app_list(parts.drop_last());
        let t = trim(parts.last());
        if t.len() > 0 {
            prev.push(t)
        } else {
            prev
        }
    }
}

/// What a `key=apps` line in `section` does to the association read so far:
/// in `[Default Applications]` the first listed app becomes the default
/// (none if the list is empty); in `[Added Associations]` and
/// `[Removed Associations]` the list replaces the added or removed apps; in
/// any other section nothing changes.
pub open spec fn apply_section(
    section: Seq<char>,
    entry: AssociationView,
    apps: Seq<Seq<char>>,
) -> AssociationView {
    if section == "Default Applications"@ {
        AssociationView {
            default_app: if apps.len() > 0 {
                Some(apps[0])
            } else {
                None
            },
            ..entry
        }
    } else if section == "Added Associations"@ {
        AssociationView { added_apps: apps, ..entry }
    } else if section == "Removed Associations"@ {
        AssociationView { removed_apps: apps, ..entry }
    } else {
        entry
    }
}

/// Reading one line. After trimming: blank lines and `#` comments are
/// skipped; `[name]` starts section `name`; `key=value` records the key
/// (trimmed) in every section, known or not, and applies the value's app
/// list by [`apply_section`]; any other line is skipped.
pub open spec fn parse_line(st: ParseState, line: Seq<char>) -> ParseState {
    let t = trim(line);
    if t.len() == 0 || t[0] == '#' {
        st
    } else if t[0] == '[' && t.last() == ']' {
        ParseState { section: t.subrange(1, t.len() - 1), table: st.table }
    } else {
        match first_index_of(t, '=') {
            None => st,
            Some(i) => {
                let key = trim(t.take(i));
                let apps = app_list(split_seq(t.skip(i + 1), ';'));
                let entry = if st.table.contains_key(key) {
                    st.table[key]
                } else {
                    empty_association(key)
                };
                ParseState {
                    section: st.section,
                    table: st.table.insert(key, apply_section(st.section, entry, apps)),
                }
            },
        }
    }
}

/// Reading the lines in order, starting outside any section.
pub open spec fn parse_lines(lines: Seq<Seq<char>>) -> ParseState
    decreases lines.len(),
{
    if lines.len() == 0 {
        ParseState { section: Seq::empty(), table: Map::empty() }
    } else {
        parse_line(parse_lines(lines.drop_last()), lines.last())
    }
}

/// The associations a `mimeapps.list` text defines, by MIME type.
pub open spec fn association_table(content: Seq<char>) -> Map<Seq<char>, AssociationView> {
    parse_lines(split_seq(content, '\n')).table
}

/// `r` lists the associations of `table` exactly once each, in strictly
/// increasing code-point order of their MIME types.
pub open spec fn lists_table(r: Seq<AssociationView>, table: Map<Seq<char>, AssociationView>) -> bool {
    &&& forall|i: int, j: int|
        0 <= i < j < r.len() ==> seq_lt(#[trigger] r[i].mime_type, #[trigger] r[j].mime_type)
    &&& forall|i: int|
        0 <= i < r.len() ==> table.contains_key(#[trigger] r[i].mime_type) && table[r[i].mime_type]
            == r[i]
    &&& forall|k: Seq<char>|
        #[trigger] table.contains_key(k) ==> exists|i: int|
            0 <= i < r.len() && #[trigger] r[i].mime_type == k
}

/// A name as the file yields it: non-empty, without surrounding whitespace.
pub open spec fn clean_name(s: Seq<char>) -> bool {
    s.len() > 0 && is_trimmed(s)
}

/// The MIME type of an association has no surrounding whitespace, and
/// every application name it holds is non-empty and has none either.
pub open spec fn names_clean(a: AssociationView) -> bool {
    &&& is_trimmed(a.mime_type)
    &&& (a.default_app matches Some(d) ==> clean_name(d))
    &&& forall|i: int| 0 <= i < a.added_apps.len() ==> clean_name(#[trigger] a.added_apps[i])
    &&& forall|i: int| 0 <= i < a.removed_apps.len() ==> clean_name(#[trigger] a.removed_apps[i])
}

proof fn lemma_app_list_clean(parts: Seq<Seq<char>>)
    ensures
        forall|i: int| 0 <= i < app_list(parts).len() ==> clean_name(#[trigger] app_list(parts)[i]),
    decreases parts.len(),
{
    if parts.len() > 0 {
        let prev = app_list(parts.drop_last());
        lemma_app_list_clean(parts.drop_last());
        lemma_trim_is_trimmed(parts.last());
        assert forall|i: int| 0 <= i < app_list(parts).len() implies clean_name(
            #[trigger] app_list(parts)[i],
        ) by {
            if i < prev.len() {
                assert(app_list(parts)[i] == prev[i]);
            }
        }
    }
}

proof fn lemma_parse_lines_clean(lines: Seq<Seq<char>>)
    ensures
        forall|k: Seq<char>|
            #[trigger] parse_lines(lines).table.contains_key(k) ==> names_clean(
                parse_lines(lines).table[k],
            ) && parse_lines(lines).table[k].mime_type == k,
    decreases lines.len(),
{
    if lines.len() > 0 {
        lemma_parse_lines_clean(lines.drop_last());
        let t = trim(lines.last());
        match first_index_of(t, '=') {
            Some(i) => {
                lemma_app_list_clean(split_seq(t.skip(i + 1), ';'));
                lemma_trim_is_trimmed(t.take(i));
            },
            None => {},
        }
    }
}

/// Every association read from a file is keyed by its own MIME type, which
/// has no surrounding whitespace; its default, added and removed
/// applications are non-empty names without surrounding whitespace.
pub proof fn lemma_associations_clean(content: Seq<char>)
    ensures
        forall|k: Seq<char>|
            #[trigger] association_table(content).contains_key(k) ==> names_clean(
                association_table(content)[k],
            ) && association_table(content)[k].mime_type == k,
{
    lemma_parse_lines_clean(split_seq(content, '\n'));
}

/// The key a line records: the trimmed text before the first `=` of a
/// trimmed line that is not blank, not a `#` comment and not a `[section]`
/// header; `None` for any other line.
pub open spec fn line_key(line: Seq<char>) -> Option<Seq<char>> {
    let t = trim(line);
    if t.len() == 0 || t[0] == '#' || (t[0] == '[' && t.last() == ']') {
        None
    } else {
        match first_index_of(t, '=') {
            Some(i) => Some(trim(t.take(i))),
            None => None,
        }
    }
}

/// The application list of a `key=value` line: the trimmed, non-empty
/// pieces of the value between `;`.
pub open spec fn line_apps(line: Seq<char>) -> Seq<Seq<char>> {
    let t = trim(line);
    match first_index_of(t, '=') {
        Some(i) => app_list(split_seq(t.skip(i + 1), ';')),
        None => Seq::empty(),
    }
}

/// Some line records key `k`.
pub open spec fn keyed(lines: Seq<Seq<char>>, k: Seq<char>) -> bool {
    exists|i: int| 0 <= i < lines.len() && #[trigger] line_key(lines[i]) == Some(k)
}

/// The application list of the last line that records `k` under the
/// header `section`, if there is one.
pub open spec fn last_list(lines: Seq<Seq<char>>, k: Seq<char>, section: Seq<char>) -> Option<
    Seq<Seq<char>>,
>
    decreases lines.len(),
{
    if lines.len() == 0 {
        None
    } else if line_key(lines.last()) == Some(k) && parse_lines(lines.drop_last()).section
        == section {
        Some(line_apps(lines.last()))
    } else {
        last_list(lines.drop_last(), k, section)
    }
}

/// The first application of an optional list.
pub open spec fn first_app(o: Option<Seq<Seq<char>>>) -> Option<Seq<char>> {
    match o {
        Some(a) => if a.len() > 0 {
            Some(a[0])
        } else {
            None
        },
        None => None,
    }
}

/// The association the lines give key `k`: its default is the first
/// application of the last `k` line under `[Default Applications]`, its
/// added and removed applications are the lists of the last `k` lines under
/// `[Added Associations]` and `[Removed Associations]` (empty without one).
pub open spec fn association_by_lines(lines: Seq<Seq<char>>, k: Seq<char>) -> AssociationView {
    AssociationView {
        mime_type: k,
        default_app: first_app(last_list(lines, k, "Default Applications"@)),
        added_apps: match last_list(lines, k, "Added Associations"@) {
            Some(a) => a,
            None => Seq::empty(),
        },
        removed_apps: match last_list(lines, k, "Removed Associations"@) {
            Some(a) => a,
            None => Seq::empty(),
        },
    }
}

proof fn lemma_section_names_differ()
    ensures
        "Default Applications"@ != "Added Associations"@,
        "Default Applications"@ != "Removed Associations"@,
        "Added Associations"@ != "Removed Associations"@,
{
    reveal_strlit("Default Applications");
    reveal_strlit("Added Associations");
    reveal_strlit("Removed Associations");
    assert(("Default Applications"@)[0] != ("Added Associations"@)[0]);
    assert(("Default Applications"@)[0] != ("Removed Associations"@)[0]);
    assert(("Added Associations"@)[0] != ("Removed Associations"@)[0]);
}

proof fn lemma_last_list_keyed(lines: Seq<Seq<char>>, k: Seq<char>, section: Seq<char>)
    ensures
        last_list(lines, k, section) is Some ==> keyed(lines, k),
    decreases lines.len(),
{
    if lines.len() > 0 {
        let l = lines.drop_last();
        lemma_last_list_keyed(l, k, section);
        if last_list(lines, k, section) is Some {
            if line_key(lines.last()) == Some(k) && parse_lines(l).section == section {
                assert(line_key(lines[lines.len() - 1]) == Some(k));
            } else {
                let i = choose|i: int| 0 <= i < l.len() && #[trigger] line_key(l[i]) == Some(k);
                assert(line_key(lines[i]) == Some(k));
            }
        }
    }
}

proof fn lemma_parse_lines_by_lines(lines: Seq<Seq<char>>, k: Seq<char>)
    ensures
        parse_lines(lines).table.contains_key(k) == keyed(lines, k),
        keyed(lines, k) ==> parse_lines(lines).table[k] == association_by_lines(lines, k),
    decreases lines.len(),
{
    if lines.len() > 0 {
        let l = lines.drop_last();
        let line = lines.last();
        let st = parse_lines(l);
        lemma_parse_lines_by_lines(l, k);
        lemma_section_names_differ();
        lemma_last_list_keyed(l, k, "Default Applications"@);
        lemma_last_list_keyed(l, k, "Added Associations"@);
        lemma_last_list_keyed(l, k, "Removed Associations"@);
        assert forall|i: int| 0 <= i < l.len() implies #[trigger] l[i] == lines[i] by {}
        if line_key(line) != Some(k) {
            assert(parse_lines(lines).table.contains_key(k) == st.table.contains_key(k));
            assert(keyed(lines, k) == keyed(l, k)) by {
                if keyed(lines, k) {
                    let i = choose|i: int|
                        0 <= i < lines.len() && #[trigger] line_key(lines[i]) == Some(k);
                    assert(i < l.len());
                    assert(line_key(l[i]) == Some(k));
                }
                if keyed(l, k) {
                    let i = choose|i: int| 0 <= i < l.len() && #[trigger] line_key(l[i]) == Some(k);
                    assert(line_key(lines[i]) == Some(k));
                }
            }
            if keyed(lines, k) {
                assert(parse_lines(lines).table[k] == st.table[k]);
                assert(association_by_lines(lines, k) == association_by_lines(l, k));
            }
        } else {
            assert(line_key(lines[lines.len() - 1]) == Some(k));
            assert(keyed(lines, k));
            let t = trim(line);
            let i = first_index_of(t, '=')->0;
            assert(trim(t.take(i)) == k);
            if !keyed(l, k) {
                assert(!st.table.contains_key(k));
            }
            assert(parse_lines(lines).table[k] =~~= association_by_lines(lines, k));
        }
    }
}

/// What the file says, line by line: the MIME types of the associations are
/// exactly the keys recorded by its lines (in any section, also before any
/// header), and each field comes from the last line for that key under the
/// field's section (see [`association_by_lines`]).
pub proof fn lemma_association_table_by_lines(content: Seq<char>, k: Seq<char>)
    ensures
        association_table(content).contains_key(k) == keyed(split_seq(content, '\n'), k),
        association_table(content).contains_key(k) ==> association_table(content)[k]
            == association_by_lines(split_seq(content, '\n'), k),
{
    lemma_parse_lines_by_lines(split_seq(content, '\n'), k);
}

// ---------------------------------------------------------------------------
// Reading the file
// ---------------------------------------------------------------------------

struct Pending {
    key: Vec<char>,
    default_app: Option<Vec<char>>,
    added: Vec<Vec<char>>,
    removed: Vec<Vec<char>>,
}

spec fn opt_chars_view(o: Option<Vec<char>>) -> Option<Seq<char>> {
    match o {
        Some(v) => Some(v@),
        None => None,
    }
}

spec fn pending_view(p: Pending) -> AssociationView {
    AssociationView {
        mime_type: p.key@,
        default_app: opt_chars_view(p.default_app),
        added_apps: seqs_of(p.added@),
        removed_apps: seqs_of(p.removed@),
    }
}

spec fn pendings_view(v: Seq<Pending>) -> Seq<AssociationView> {
    v.map_values(|p: Pending| pending_view(p))
}

struct SectionNames {
    default_apps: Vec<char>,
    added: Vec<char>,
    removed: Vec<char>,
}

impl SectionNames {
    spec fn wf(&self) -> bool {
        &&& self.default_apps@ == "Default Applications"@
        &&& self.added@ == "Added Associations"@
        &&& self.removed@ == "Removed Associations"@
    }

    fn new() -> (r: Self)
        ensures
            r.wf(),
    {
        SectionNames {
            default_apps: to_chars("Default Applications"),
            added: to_chars("Added Associations"),
            removed: to_chars("Removed Associations"),
        }
    }
}

/// The trimmed, non-empty pieces of a `;`-separated list.
fn app_list_chars(value: &Vec<char>) -> (r: Vec<Vec<char>>)
    ensures
        seqs_of(r@) == app_list(split_seq(value@, ';')),
{
    let parts = split_chars(value, ';');
    let mut r: Vec<Vec<char>> = Vec::new();
    let mut i: usize = 0;
    assert(seqs_of(parts@).take(0) =~= Seq::<Seq<char>>::empty());
    while i < parts.len()
        invariant
            i <= parts.len(),
            seqs_of(r@) == app_list(seqs_of(parts@).take(i as int)),
        decreases parts.len() - i,
    {
        let t = trim_chars(&parts[i]);
        assert(seqs_of(parts@).take(i + 1).drop_last() =~= seqs_of(parts@).take(i as int));
        assert(seqs_of(parts@).take(i + 1).last() == parts@[i as int]@);
        let ghost before = r@;
        if t.len() > 0 {
            r.push(t);
            assert(seqs_of(r@) =~= seqs_of(before).push(t@));
        }
        i += 1;
    }
    assert(seqs_of(parts@).take(parts.len() as int) =~= seqs_of(parts@));
    r
}

/// Applies a line's app list to an association, by the rule of `section`.
fn apply_apps(e: &mut Pending, section: &Vec<char>, apps: Vec<Vec<char>>, names: &SectionNames)
    requires
        names.wf(),
    ensures
        pending_view(*final(e)) == apply_section(section@, pending_view(*old(e)), seqs_of(apps@)),
{
    if chars_equal(section, &names.default_apps) {
        if apps.len() > 0 {
            let mut apps = apps;
            let first = apps.remove(0);
            e.default_app = Some(first);
        } else {
            e.default_app = None;
        }
    } else if chars_equal(section, &names.added) {
        e.added = apps;
    } else if chars_equal(section, &names.removed) {
        e.removed = apps;
    }
}

proof fn lemma_lists_table_update(
    old: Seq<AssociationView>,
    table: Map<Seq<char>, AssociationView>,
    pos: int,
    newv: AssociationView,
)
    requires
        lists_table(old, table),
        0 <= pos < old.len(),
        newv.mime_type == old[pos].mime_type,
    ensures
        lists_table(old.update(pos, newv), table.insert(newv.mime_type, newv)),
{
    let r = old.update(pos, newv);
    let t = table.insert(newv.mime_type, newv);
    assert forall|i: int| 0 <= i < r.len() implies t.contains_key(#[trigger] r[i].mime_type)
        && t[r[i].mime_type] == r[i] by {
        if i != pos {
            assert(old[i].mime_type != old[pos].mime_type) by {
                if i < pos {
                    assert(seq_lt(old[i].mime_type, old[pos].mime_type));
                    lemma_seq_lt_irreflexive(old[i].mime_type);
                } else {
                    assert(seq_lt(old[pos].mime_type, old[i].mime_type));
                    lemma_seq_lt_irreflexive(old[i].mime_type);
                }
            }
        }
    }
    assert forall|k: Seq<char>| #[trigger] t.contains_key(k) implies exists|i: int|
        0 <= i < r.len() && #[trigger] r[i].mime_type == k by {
        if k == newv.mime_type {
            assert(r[pos].mime_type == k);
        } else {
            let i = choose|i: int| 0 <= i < old.len() && #[trigger] old[i].mime_type == k;
            assert(r[i].mime_type == k);
        }
    }
}

proof fn lemma_lists_table_insert(
    old: Seq<AssociationView>,
    table: Map<Seq<char>, AssociationView>,
    pos: int,
    newv: AssociationView,
)
    requires
        lists_table(old, table),
        0 <= pos <= old.len(),
        forall|j: int| 0 <= j < pos ==> seq_lt(#[trigger] old[j].mime_type, newv.mime_type),
        pos < old.len() ==> seq_lt(newv.mime_type, old[pos].mime_type),
    ensures
        !table.contains_key(newv.mime_type),
        lists_table(old.insert(pos, newv), table.insert(newv.mime_type, newv)),
{
    let key = newv.mime_type;
    assert forall|j: int| pos <= j < old.len() implies seq_lt(key, #[trigger] old[j].mime_type) by {
        if j > pos {
            lemma_seq_lt_transitive(key, old[pos].mime_type, old[j].mime_type);
        }
    }
    if table.contains_key(key) {
        let i = choose|i: int| 0 <= i < old.len() && #[trigger] old[i].mime_type == key;
        lemma_seq_lt_irreflexive(key);
        if i < pos {
            assert(seq_lt(old[i].mime_type, key));
        } else {
            assert(seq_lt(key, old[i].mime_type));
        }
    }
    let r = old.insert(pos, newv);
    let t = table.insert(key, newv);
    assert forall|i: int, j: int| 0 <= i < j < r.len() implies seq_lt(
        #[trigger] r[i].mime_type,
        #[trigger] r[j].mime_type,
    ) by {
        if j < pos {
        } else if j == pos {
        } else if i < pos {
            lemma_seq_lt_transitive(old[i].mime_type, key, old[j - 1].mime_type);
        } else if i == pos {
        } else {
        }
    }
    assert forall|i: int| 0 <= i < r.len() implies t.contains_key(#[trigger] r[i].mime_type)
        && t[r[i].mime_type] == r[i] by {
        if i < pos {
            lemma_seq_lt_irreflexive(key);
        } else if i > pos {
            lemma_seq_lt_irreflexive(key);
        }
    }
    assert forall|k: Seq<char>| #[trigger] t.contains_key(k) implies exists|i: int|
        0 <= i < r.len() && #[trigger] r[i].mime_type == k by {
        if k == key {
            assert(r[pos].mime_type == k);
        } else {
            let i = choose|i: int| 0 <= i < old.len() && #[trigger] old[i].mime_type == k;
            if i < pos {
                assert(r[i].mime_type == k);
            } else {
                assert(r[i + 1].mime_type == k);
            }
        }
    }
}

/// Records `key`'s app list under `section`, keeping `entries` sorted by key.
fn upsert(
    entries: &mut Vec<Pending>,
    key: Vec<char>,
    section: &Vec<char>,
    apps: Vec<Vec<char>>,
    names: &SectionNames,
    Ghost(table): Ghost<Map<Seq<char>, AssociationView>>,
)
    requires
        names.wf(),
        lists_table(pendings_view(old(entries)@), table),
    ensures
        lists_table(
            pendings_view(final(entries)@),
            table.insert(
                key@,
                apply_section(
                    section@,
                    if table.contains_key(key@) {
                        table[key@]
                    } else {
                        empty_association(key@)
                    },
                    seqs_of(apps@),
                ),
            ),
        ),
{
    let ghost old_view = pendings_view(entries@);
    let mut pos: usize = 0;
    while pos < entries.len() && key_before(&entries[pos].key, &key)
        invariant
            pos <= entries.len(),
            pendings_view(entries@) == old_view,
            forall|j: int| 0 <= j < pos ==> seq_lt(#[trigger] old_view[j].mime_type, key@),
        decreases entries.len() - pos,
    {
        pos += 1;
    }
    if pos < entries.len() && chars_equal(&entries[pos].key, &key) {
        let mut e = entries.remove(pos);
        assert(pending_view(e) == old_view[pos as int]);
        let ghost before = pending_view(e);
        assert(old_view[pos as int].mime_type == key@);
        assert(table.contains_key(key@) && table[key@] == before);
        apply_apps(&mut e, section, apps, names);
        entries.insert(pos, e);
        assert(pendings_view(entries@) =~= old_view.update(pos as int, pending_view(e)));
        proof {
            lemma_lists_table_update(old_view, table, pos as int, pending_view(e));
        }
    } else {
        let mut e = Pending { key, default_app: None, added: Vec::new(), removed: Vec::new() };
        assert(seqs_of(e.added@) =~= Seq::<Seq<char>>::empty());
        assert(seqs_of(e.removed@) =~= Seq::<Seq<char>>::empty());
        assert(pending_view(e) == empty_association(e.key@));
        let ghost k = e.key@;
        apply_apps(&mut e, section, apps, names);
        if pos < entries.len() {
            proof {
                lemma_seq_lt_total(k, old_view[pos as int].mime_type);
            }
        }
        proof {
            lemma_lists_table_insert(old_view, table, pos as int, pending_view(e));
        }
        entries.insert(pos, e);
        assert(pendings_view(entries@) =~= old_view.insert(pos as int, pending_view(e)));
    }
}

/// Reads one line of the file into `section` and `entries`.
fn read_line(
    section: &mut Vec<char>,
    entries: &mut Vec<Pending>,
    line: &Vec<char>,
    names: &SectionNames,
    Ghost(table): Ghost<Map<Seq<char>, AssociationView>>,
)
    requires
        names.wf(),
        lists_table(pendings_view(old(entries)@), table),
    ensures
        final(section)@ == parse_line(ParseState { section: old(section)@, table }, line@).section,
        lists_table(
            pendings_view(final(entries)@),
            parse_line(ParseState { section: old(section)@, table }, line@).table,
        ),
{
    let t = trim_chars(line);
    if t.len() == 0 || t[0] == '#' {
        return;
    }
    if t[0] == '[' && t[t.len() - 1] == ']' {
        *section = slice_chars(&t, 1, t.len() - 1);
        return;
    }
    match find_char(&t, '=') {
        None => {},
        Some(i) => {
            proof {
                lemma_first_index_of(t@, '=');
            }
            let raw_key = slice_chars(&t, 0, i);
            assert(raw_key@ =~= t@.take(i as int));
            let key = trim_chars(&raw_key);
            let value = slice_chars(&t, i + 1, t.len());
            assert(value@ =~= t@.skip(i + 1));
            let apps = app_list_chars(&value);
            upsert(entries, key, section, apps, names, Ghost(table));
        },
    }
}

/// Turns the collected associations into their public form.
fn finish(entries: &Vec<Pending>) -> (r: Vec<MimeAssociation>)
    ensures
        associations_view(r@) == pendings_view(entries@),
{
    let mut r: Vec<MimeAssociation> = Vec::new();
    let mut i: usize = 0;
    while i < entries.len()
        invariant
            i <= entries.len(),
            associations_view(r@) == pendings_view(entries@).take(i as int),
        decreases entries.len() - i,
    {
        let p = &entries[i];
        let default_app = match &p.default_app {
            Some(d) => Some(string_from_chars(d)),
            None => None,
        };
        let a = MimeAssociation {
            mime_type: string_from_chars(&p.key),
            default_app,
            added_apps: strings_from(&p.added),
            removed_apps: strings_from(&p.removed),
        };
        assert(a@ == pendings_view(entries@)[i as int]);
        let ghost before = r@;
        r.push(a);
        assert(associations_view(r@) =~= associations_view(before).push(a@));
        i += 1;
        assert(associations_view(r@) =~= pendings_view(entries@).take(i as int));
    }
    assert(pendings_view(entries@).take(entries.len() as int) =~= pendings_view(entries@));
    r
}

/// The associations that the text of a `mimeapps.list` file defines: one
/// per MIME type that appears as a key on a `key=value` line (in any
/// section), strictly ordered by MIME type.
pub fn read_associations(content: &str) -> (r: Vec<MimeAssociation>)
    ensures
        lists_table(associations_view(r@), association_table(content@)),
{
    let chars = to_chars(content);
    let lines = split_chars(&chars, '\n');
    let names = SectionNames::new();
    let mut section: Vec<char> = Vec::new();
    let mut entries: Vec<Pending> = Vec::new();
    let ghost mut st = ParseState { section: Seq::empty(), table: Map::empty() };
    assert(seqs_of(lines@).take(0) =~= Seq::<Seq<char>>::empty());
    assert(section@ =~= Seq::<char>::empty());
    assert(pendings_view(entries@) =~= Seq::<AssociationView>::empty());
    let mut i: usize = 0;
    while i < lines.len()
        invariant
            i <= lines.len(),
            names.wf(),
            st == parse_lines(seqs_of(lines@).take(i as int)),
            section@ == st.section,
            lists_table(pendings_view(entries@), st.table),
        decreases lines.len() - i,
    {
        assert(st == ParseState { section: section@, table: st.table });
        read_line(&mut section, &mut entries, &lines[i], &names, Ghost(st.table));
        proof {
            st = parse_line(st, lines@[i as int]@);
        }
        assert(seqs_of(lines@).take(i + 1).drop_last() =~= seqs_of(lines@).take(i as int));
        assert(seqs_of(lines@).take(i + 1).last() == lines@[i as int]@);
        i += 1;
    }
    assert(seqs_of(lines@).take(lines.len() as int) =~= seqs_of(lines@));
    finish(&entries)
}

/// The error text when `xdg-mime` exits unsuccessfully: its exit status,
/// then what it wrote to standard error, trimmed.
pub fn failure_message(status: &str, stderr: &str) -> (r: String)
    ensures
        r@ == "xdg-mime exited with "@ + status@ + ": "@ + trim(stderr@),
{
    let trimmed = trim_chars(&to_chars(stderr));
    let mut r = String::from_str("xdg-mime exited with ");
    r.append(status);
    r.append(": ");
    r.append(string_from_chars(&trimmed).as_str());
    r
}

/// Where the user's `mimeapps.list` lives: `$XDG_CONFIG_HOME/mimeapps.list`
/// when the variable is set to a non-empty value, else
/// `<home>/.config/mimeapps.list`, with `/` for an unknown home. As the base
/// directory rules say, an empty `XDG_CONFIG_HOME` counts as unset.
pub fn mimeapps_list_path(config_home: Option<String>, home: Option<String>) -> (r: String)
    ensures
        r@ == join_path(
            match config_home {
                Some(c) if c@.len() > 0 => c@,
                _ => join_path(
                    match home {
                        Some(h) => h@,
                        None => "/"@,
                    },
                    ".config"@,
                ),
            },
            "mimeapps.list"@,
        ),
{
    let config = match config_home {
        Some(c) if !c.as_str().is_empty() => c,
        _ => {
            let h = match home {
                Some(h) => h,
                None => String::from_str("/"),
            };
            path_join(h.as_str(), ".config")
        },
    };
    path_join(config.as_str(), "mimeapps.list")
}

} // verus!
