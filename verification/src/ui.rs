//! What the screen says: the text of list rows, titles, the help line and
//! the detail panels, each line tagged with the look it is drawn in. The
//! drawing itself (colours, borders, layout) is the terminal front end's.

use vstd::prelude::*;
use vstd::string::*;
use crate::app::{millis_since, Status, Tab};
use crate::desktop_entries::{AppEntry, AppEntryView};
use crate::mime::{AssociationView, MimeAssociation};
use crate::text::{decimal, push_decimal, string_from_chars, strings_view, to_chars};
use crate::xdg_base::BaseDir;

verus! {

// ---------------------------------------------------------------------------
// Truncation and padding
// ---------------------------------------------------------------------------

/// The number of bytes of the UTF-8 encoding of `c`.
pub open spec fn utf8_width(c: char) -> nat {
    let u = c as u32;
    if u < 0x80 {
        1
    } else if u < 0x800 {
        2
    } else if u < 0x10000 {
        3
    } else {
        4
    }
}

/// The number of bytes of the UTF-8 encoding of `s`.
pub open spec fn byte_len(s: Seq<char>) -> nat
    decreases s.len(),
{
    if s.len() == 0 {
        0
    } else {
        utf8_width(s[0]) + byte_len(s.drop_first())
    }
}

/// `byte_len` is the length of the UTF-8 encoding of the characters.
pub proof fn lemma_byte_len_is_utf8_len(s: Seq<char>)
    ensures
        byte_len(s) == vstd::utf8::encode_utf8(s).len(),
    decreases s.len(),
{
    if s.len() > 0 {
        lemma_byte_len_is_utf8_len(s.drop_first());
        vstd::utf8::char_is_scalar(s[0]);
    }
}

/// How many leading characters of `s` fit in `max` bytes of UTF-8.
pub open spec fn fit_len(s: Seq<char>, max: nat) -> nat
    decreases s.len(),
{
    if s.len() == 0 || utf8_width(s[0]) > max {
        0
    } else {
        1 + fit_len(s.drop_first(), (max - utf8_width(s[0])) as nat)
    }
}

/// The longest prefix of `s` whose UTF-8 encoding has at most `max` bytes.
pub open spec fn truncated(s: Seq<char>, max: nat) -> Seq<char> {
    s.take(fit_len(s, max) as int)
}

/// The prefix kept by [`truncated`] fits, and one more character would not.
pub proof fn lemma_truncated_fits(s: Seq<char>, max: nat)
    ensures
        fit_len(s, max) <= s.len(),
        byte_len(truncated(s, max)) <= max,
        fit_len(s, max) < s.len() ==> byte_len(s.take(fit_len(s, max) + 1int)) > max,
        byte_len(s) <= max ==> truncated(s, max) == s,
    decreases s.len(),
{
    if s.len() > 0 && utf8_width(s[0]) <= max {
        let rest = s.drop_first();
        let m2 = (max - utf8_width(s[0])) as nat;
        lemma_truncated_fits(rest, m2);
        let k = fit_len(rest, m2);
        assert(truncated(s, max).drop_first() =~= truncated(rest, m2));
        if k < rest.len() {
            assert(s.take(k + 2int).drop_first() =~= rest.take(k + 1int));
        }
        if byte_len(s) <= max {
            assert(truncated(s, max) =~= s);
        }
    } else if s.len() > 0 {
        assert(s.take(1).drop_first() =~= Seq::<char>::empty());
    } else {
        assert(truncated(s, max) =~= s);
    }
}

fn char_width(c: char) -> (r: usize)
    ensures
        r == utf8_width(c),
{
    let u = c as u32;
    if u < 0x80 {
        1
    } else if u < 0x800 {
        2
    } else if u < 0x10000 {
        3
    } else {
        4
    }
}

/// The longest prefix of `s` that fits in `max` bytes without cutting a
/// character (see [`truncated`]).
pub fn truncate(s: &str, max: usize) -> (r: &str)
    ensures
        r@ == truncated(s@, max as nat),
{
    let chars = to_chars(s);
    let n = chars.len();
    let mut k: usize = 0;
    let mut budget: usize = max;
    assert(s@.skip(0) =~= s@);
    while k < n && char_width(chars[k]) <= budget
        invariant
            k <= n == chars.len(),
            chars@ == s@,
            budget <= max,
            fit_len(s@, max as nat) == k + fit_len(s@.skip(k as int), budget as nat),
        decreases n - k,
    {
        let w = char_width(chars[k]);
        assert(s@.skip(k as int)[0] == chars@[k as int]);
        assert(s@.skip(k as int).drop_first() =~= s@.skip(k + 1));
        budget = budget - w;
        k += 1;
    }
    if k < n {
        assert(s@.skip(k as int)[0] == chars@[k as int]);
    }
    s.substring_char(0, k)
}

/// `s` followed by spaces up to `width` characters.
pub open spec fn padded(s: Seq<char>, width: nat) -> Seq<char> {
    if s.len() < width {
        s + Seq::new((width - s.len()) as nat, |i: int| ' ')
    } else {
        s
    }
}

fn push_str_chars(out: &mut Vec<char>, s: &str)
    ensures
        final(out)@ == old(out)@ + s@,
{
    let c = to_chars(s);
    let mut i: usize = 0;
    while i < c.len()
        invariant
            i <= c.len(),
            c@ == s@,
            out@ == old(out)@ + s@.take(i as int),
        decreases c.len() - i,
    {
        out.push(c[i]);
        i += 1;
        assert(out@ =~= old(out)@ + s@.take(i as int));
    }
    assert(s@.take(c.len() as int) =~= s@);
}

fn push_spaces(out: &mut Vec<char>, n: usize)
    ensures
        final(out)@ == old(out)@ + Seq::new(n as nat, |i: int| ' '),
{
    let mut i: usize = 0;
    while i < n
        invariant
            i <= n,
            out@ == old(out)@ + Seq::new(i as nat, |j: int| ' '),
        decreases n - i,
    {
        out.push(' ');
        i += 1;
        assert(out@ =~= old(out)@ + Seq::new(i as nat, |j: int| ' '));
    }
}

// ---------------------------------------------------------------------------
// Rows, titles and the help line
// ---------------------------------------------------------------------------

/// The text of a MIME row: the type truncated to 36 bytes and padded to 36
/// characters between single spaces, and the default application (`—` when
/// there is none) truncated to 28 bytes.
pub open spec fn mime_row_text(m: AssociationView) -> (Seq<char>, Seq<char>) {
    (
        " "@ + padded(truncated(m.mime_type, 36), 36) + " "@,
        truncated(
            match m.default_app {
                Some(d) => d,
                None => "—"@,
            },
            28,
        ),
    )
}

/// The text of a MIME row (see [`mime_row_text`]).
pub fn mime_row(m: &MimeAssociation) -> (r: (String, String))
    ensures
        (r.0@, r.1@) == mime_row_text(m@),
{
    let t = truncate(m.mime_type.as_str(), 36);
    let tc = to_chars(t);
    let mut out: Vec<char> = Vec::new();
    push_str_chars(&mut out, " ");
    let mut i: usize = 0;
    while i < tc.len()
        invariant
            i <= tc.len(),
            out@ == " "@ + tc@.take(i as int),
        decreases tc.len() - i,
    {
        out.push(tc[i]);
        i += 1;
        assert(out@ =~= " "@ + tc@.take(i as int));
    }
    assert(tc@.take(tc.len() as int) =~= tc@);
    if tc.len() < 36 {
        push_spaces(&mut out, 36 - tc.len());
    }
    push_str_chars(&mut out, " ");
    proof {
        assert(out@ =~= " "@ + padded(truncated(m@.mime_type, 36), 36) + " "@);
    }
    let first = string_from_chars(&out);
    let second = match &m.default_app {
        Some(d) => String::from_str(truncate(d.as_str(), 28)),
        None => String::from_str(truncate("—", 28)),
    };
    (first, second)
}

/// The text of an application row: a `·` mark for applications hidden from
/// menus, and the name truncated to 36 bytes.
pub open spec fn app_row_text(a: AppEntryView) -> (Seq<char>, Seq<char>) {
    (if a.no_display {
        " · "@
    } else {
        "   "@
    }, truncated(a.name, 36))
}

/// The text of an application row (see [`app_row_text`]).
pub fn app_row(a: &AppEntry) -> (r: (String, String))
    ensures
        (r.0@, r.1@) == app_row_text(a@),
{
    let mark = if a.no_display {
        String::from_str(" · ")
    } else {
        String::from_str("   ")
    };
    (mark, String::from_str(truncate(a.name.as_str(), 36)))
}

/// The mark of a base-directory row: filled when the value comes from the
/// environment, hollow for the spec default.
pub open spec fn base_mark_text(from_env: bool) -> Seq<char> {
    if from_env {
        " ● "@
    } else {
        " ○ "@
    }
}

/// The mark of a base-directory row (see [`base_mark_text`]).
pub fn base_mark(from_env: bool) -> (r: &'static str)
    ensures
        r@ == base_mark_text(from_env),
{
    if from_env {
        " ● "
    } else {
        " ○ "
    }
}

/// A tab's title as the tab bar shows it: the heading between spaces.
pub open spec fn tab_label_text(t: Tab) -> Seq<char> {
    " "@ + t.heading() + " "@
}

/// A tab's title as the tab bar shows it (see [`tab_label_text`]).
pub fn tab_label(t: Tab) -> (r: String)
    ensures
        r@ == tab_label_text(t),
{
    let mut r = String::from_str(" ");
    r.append(t.title());
    r.append(" ");
    r
}

/// The count shown in a list title: `(n) `.
pub open spec fn count_label_text(n: nat) -> Seq<char> {
    "("@ + decimal(n) + ") "@
}

/// The count shown in a list title (see [`count_label_text`]).
pub fn count_label(n: usize) -> (r: String)
    ensures
        r@ == count_label_text(n as nat),
{
    let mut out = to_chars("(");
    push_decimal(n as u64, &mut out);
    push_str_chars(&mut out, ") ");
    string_from_chars(&out)
}

/// The filter part of a list title: the filter text with a cursor while it
/// takes input or is not empty, else a hint.
pub open spec fn filter_label_text(filter: Seq<char>, active: bool) -> Seq<char> {
    if active || filter.len() > 0 {
        " filter: "@ + filter + "_ "@
    } else {
        " / to filter "@
    }
}

/// The filter part of a list title (see [`filter_label_text`]).
pub fn filter_label(filter: &str, active: bool) -> (r: String)
    ensures
        r@ == filter_label_text(filter@, active),
{
    if active || !filter.is_empty() {
        let mut r = String::from_str(" filter: ");
        r.append(filter);
        r.append("_ ");
        r
    } else {
        String::from_str(" / to filter ")
    }
}

/// The help line: the global keys, then those of the active tab.
pub open spec fn help_text(tab: Tab) -> Seq<char> {
    "q quit · Tab/Shift-Tab switch · ↑↓ move · r reload"@ + match tab {
        Tab::BaseDirs => ""@,
        Tab::MimeTypes => " · / filter · Enter set default (prompts app)"@,
        Tab::Applications => " · / filter"@,
    }
}

/// The help line (see [`help_text`]).
pub fn help_line(tab: Tab) -> (r: String)
    ensures
        r@ == help_text(tab),
{
    let mut r = String::from_str("q quit · Tab/Shift-Tab switch · ↑↓ move · r reload");
    match tab {
        Tab::BaseDirs => r.append(""),
        Tab::MimeTypes => r.append(" · / filter · Enter set default (prompts app)"),
        Tab::Applications => r.append(" · / filter"),
    }
    r
}

// ---------------------------------------------------------------------------
// Detail panels
// ---------------------------------------------------------------------------

/// How a line's text is drawn.
#[derive(Clone, Copy, PartialEq, Eq, Structural)]
pub enum Look {
    Plain,
    Heading,
    Subtle,
    Dim,
    Italic,
    Accent,
    Good,
    Warn,
    Error,
}

/// One line of a detail panel: an optional label drawn dim, then the text
/// drawn in its look.
pub struct DetailLine {
    pub label: String,
    pub text: String,
    pub look: Look,
}

/// The content of a detail line.
pub type LineView = (Seq<char>, Seq<char>, Look);

/// The views of detail lines.
pub open spec fn lines_view(v: Seq<DetailLine>) -> Seq<LineView> {
    v.map_values(|l: DetailLine| (l.label@, l.text@, l.look))
}

/// An unlabelled line.
pub open spec fn text_line(text: Seq<char>, look: Look) -> LineView {
    (Seq::empty(), text, look)
}

/// An empty line.
pub open spec fn blank_line() -> LineView {
    (Seq::empty(), Seq::empty(), Look::Plain)
}

/// A bullet line for each item.
pub open spec fn bullet_lines(items: Seq<Seq<char>>) -> Seq<LineView> {
    items.map_values(|a: Seq<char>| text_line("  • "@ + a, Look::Plain))
}

/// The section of a list under a heading: nothing for an empty list, else
/// a blank line, the heading and a bullet per item.
pub open spec fn listed_section(heading: Seq<char>, items: Seq<Seq<char>>) -> Seq<LineView> {
    if items.len() > 0 {
        seq![blank_line(), text_line(heading, Look::Subtle)] + bullet_lines(items)
    } else {
        Seq::empty()
    }
}

/// The MIME detail panel: the type, its default (`(none)` without one), and
/// the added and removed applications; a note when nothing is selected.
pub open spec fn mime_detail_lines(m: Option<AssociationView>) -> Seq<LineView> {
    match m {
        None => seq![
            text_line(
                "No MIME associations found. Your mimeapps.list may be empty or absent."@,
                Look::Subtle,
            ),
        ],
        Some(m) => seq![
            text_line(m.mime_type, Look::Heading),
            blank_line(),
            (
                "Default   "@,
                match m.default_app {
                    Some(d) => d,
                    None => "(none)"@,
                },
                Look::Plain,
            ),
        ] + listed_section("Added associations"@, m.added_apps) + listed_section(
            "Removed associations"@,
            m.removed_apps,
        ),
    }
}

/// What the MIME detail panel shows of an association: its type as the
/// heading, its default (or `(none)`) on the third line, then, when there
/// are any, the added applications under "Added associations" and finally
/// the removed ones under "Removed associations", one bullet per
/// application in order, each section after a blank line.
pub proof fn lemma_mime_detail_shows_every_application(m: AssociationView)
    ensures
        ({
            let l = mime_detail_lines(Some(m));
            let na = m.added_apps.len();
            let nr = m.removed_apps.len();
            let a: int = if na > 0 {
                na + 2int
            } else {
                0
            };
            let r: int = if nr > 0 {
                nr + 2int
            } else {
                0
            };
            &&& l.len() == 3 + a + r
            &&& l[0] == text_line(m.mime_type, Look::Heading)
            &&& l[1] == blank_line()
            &&& l[2].0 == "Default   "@ && l[2].1 == (match m.default_app {
                Some(d) => d,
                None => "(none)"@,
            })
            &&& na > 0 ==> l[3] == blank_line() && l[4] == text_line(
                "Added associations"@,
                Look::Subtle,
            ) && forall|k: int|
                0 <= k < na ==> #[trigger] l[5 + k] == text_line(
                    "  • "@ + m.added_apps[k],
                    Look::Plain,
                )
            &&& nr > 0 ==> l[3 + a] == blank_line() && l[4 + a] == text_line(
                "Removed associations"@,
                Look::Subtle,
            ) && forall|k: int|
                0 <= k < nr ==> #[trigger] l[5 + a + k] == text_line(
                    "  • "@ + m.removed_apps[k],
                    Look::Plain,
                )
        }),
{
    let l = mime_detail_lines(Some(m));
    let na = m.added_apps.len();
    let nr = m.removed_apps.len();
    let a: int = if na > 0 {
        na + 2int
    } else {
        0
    };
    let head = seq![
        text_line(m.mime_type, Look::Heading),
        blank_line(),
        (
            "Default   "@,
            match m.default_app {
                Some(d) => d,
                None => "(none)"@,
            },
            Look::Plain,
        ),
    ];
    let sa = listed_section("Added associations"@, m.added_apps);
    let sr = listed_section("Removed associations"@, m.removed_apps);
    assert(l == head + sa + sr);
    assert(sa.len() == a);
    if nr > 0 {
        assert forall|k: int| 0 <= k < nr implies #[trigger] l[5 + a + k] == text_line(
            "  • "@ + m.removed_apps[k],
            Look::Plain,
        ) by {
            assert(l[5 + a + k] == sr[2 + k]);
        }
    }
    if na > 0 {
        assert forall|k: int| 0 <= k < na implies #[trigger] l[5 + k] == text_line(
            "  • "@ + m.added_apps[k],
            Look::Plain,
        ) by {
            assert(l[5 + k] == sa[2 + k]);
        }
    }
}

fn line(label: &str, text: &str, look: Look) -> (r: DetailLine)
    ensures
        r.label@ == label@,
        r.text@ == text@,
        r.look == look,
{
    DetailLine { label: String::from_str(label), text: String::from_str(text), look }
}

fn push_line(out: &mut Vec<DetailLine>, l: DetailLine)
    ensures
        lines_view(final(out)@) == lines_view(old(out)@).push((l.label@, l.text@, l.look)),
{
    out.push(l);
    assert(lines_view(out@) =~= lines_view(old(out)@).push((l.label@, l.text@, l.look)));
}

fn push_bullets(out: &mut Vec<DetailLine>, items: &Vec<String>, count: usize)
    requires
        count <= items.len(),
    ensures
        lines_view(final(out)@) == lines_view(old(out)@) + bullet_lines(
            strings_view(items@).take(count as int),
        ),
{
    let mut i: usize = 0;
    while i < count
        invariant
            i <= count <= items.len(),
            lines_view(out@) == lines_view(old(out)@) + bullet_lines(
                strings_view(items@).take(i as int),
            ),
        decreases count - i,
    {
        let mut t = String::from_str("  • ");
        t.append(items[i].as_str());
        push_line(out, DetailLine { label: String::new(), text: t, look: Look::Plain });
        assert(strings_view(items@)[i as int] == items@[i as int]@);
        assert(bullet_lines(strings_view(items@).take(i + 1)) =~= bullet_lines(
            strings_view(items@).take(i as int),
        ).push(text_line("  • "@ + items@[i as int]@, Look::Plain)));
        i += 1;
    }
}

fn push_section(out: &mut Vec<DetailLine>, heading: &str, items: &Vec<String>)
    ensures
        lines_view(final(out)@) == lines_view(old(out)@) + listed_section(
            heading@,
            strings_view(items@),
        ),
{
    proof {
        reveal_strlit("");
        assert(""@ =~= Seq::<char>::empty());
    }
    if items.len() > 0 {
        push_line(out, line("", "", Look::Plain));
        push_line(out, line("", heading, Look::Subtle));
        push_bullets(out, items, items.len());
        assert(strings_view(items@).take(items.len() as int) =~= strings_view(items@));
        assert(lines_view(out@) =~= lines_view(old(out)@) + listed_section(
            heading@,
            strings_view(items@),
        ));
    } else {
        assert(lines_view(out@) =~= lines_view(old(out)@) + listed_section(
            heading@,
            strings_view(items@),
        ));
    }
}

/// The MIME detail panel (see [`mime_detail_lines`]).
pub fn mime_detail(m: Option<&MimeAssociation>) -> (r: Vec<DetailLine>)
    ensures
        lines_view(r@) == mime_detail_lines(
            match m {
                Some(m) => Some(m@),
                None => None,
            },
        ),
{
    proof {
        reveal_strlit("");
        assert(""@ =~= Seq::<char>::empty());
    }
    let mut out: Vec<DetailLine> = Vec::new();
    match m {
        None => {
            push_line(
                &mut out,
                line(
                    "",
                    "No MIME associations found. Your mimeapps.list may be empty or absent.",
                    Look::Subtle,
                ),
            );
            assert(lines_view(out@) =~= mime_detail_lines(None));
        },
        Some(m) => {
            push_line(&mut out, line("", m.mime_type.as_str(), Look::Heading));
            push_line(&mut out, line("", "", Look::Plain));
            match &m.default_app {
                Some(d) => push_line(&mut out, line("Default   ", d.as_str(), Look::Plain)),
                None => push_line(&mut out, line("Default   ", "(none)", Look::Plain)),
            }
            push_section(&mut out, "Added associations", &m.added_apps);
            push_section(&mut out, "Removed associations", &m.removed_apps);
            assert(lines_view(out@) =~= mime_detail_lines(Some(m@)));
        },
    }
    out
}

/// `items` joined with `sep` between neighbours.
pub open spec fn joined(items: Seq<Seq<char>>, sep: Seq<char>) -> Seq<char>
    decreases items.len(),
{
    if items.len() == 0 {
        Seq::empty()
    } else if items.len() == 1 {
        items[0]
    } else {
        joined(items.drop_last(), sep) + sep + items.last()
    }
}

fn join_strings(items: &Vec<String>, sep: &str) -> (r: String)
    ensures
        r@ == joined(strings_view(items@), sep@),
{
    let mut r = String::new();
    let mut i: usize = 0;
    assert(strings_view(items@).take(0) =~= Seq::<Seq<char>>::empty());
    while i < items.len()
        invariant
            i <= items.len(),
            r@ == joined(strings_view(items@).take(i as int), sep@),
        decreases items.len() - i,
    {
        let ghost prev = strings_view(items@).take(i as int);
        assert(strings_view(items@).take(i + 1).drop_last() =~= prev);
        assert(strings_view(items@)[i as int] == items@[i as int]@);
        if i > 0 {
            r.append(sep);
        }
        r.append(items[i].as_str());
        if i == 0 {
            assert(r@ =~= strings_view(items@).take(1)[0]);
        }
        i += 1;
    }
    assert(strings_view(items@).take(items.len() as int) =~= strings_view(items@));
    r
}

/// The text of a boolean, as `bool::to_string` gives it.
pub open spec fn bool_text(b: bool) -> Seq<char> {
    if b {
        "true"@
    } else {
        "false"@
    }
}

/// An optional field line: nothing when the value is absent.
pub open spec fn optional_field(label: Seq<char>, value: Option<Seq<char>>) -> Seq<LineView> {
    match value {
        Some(v) => seq![(label, v, Look::Plain)],
        None => Seq::empty(),
    }
}

/// The MIME part of the application panel: nothing for none, else a blank
/// line, how many types it handles, the first eight, and how many more.
pub open spec fn handled_section(types: Seq<Seq<char>>) -> Seq<LineView> {
    if types.len() == 0 {
        Seq::empty()
    } else {
        seq![
            blank_line(),
            text_line("Handles "@ + decimal(types.len()) + " MIME type(s)"@, Look::Subtle),
        ] + bullet_lines(
            if types.len() > 8 {
                types.take(8)
            } else {
                types
            },
        ) + if types.len() > 8 {
            seq![text_line("  …and "@ + decimal((types.len() - 8) as nat) + " more"@, Look::Dim)]
        } else {
            Seq::empty()
        }
    }
}

/// The head of the application panel: the name, the generic name if any,
/// a blank line and the id.
pub open spec fn app_identity_lines(a: AppEntryView) -> Seq<LineView> {
    seq![text_line(a.name, Look::Heading)] + match a.generic_name {
        Some(g) => seq![text_line(g, Look::Subtle)],
        None => Seq::empty(),
    } + seq![blank_line(), ("ID        "@, a.id, Look::Plain)]
}

/// The fields of the application panel: the command truncated to 60 bytes
/// and the icon when present, then the terminal and hidden flags and the
/// path.
pub open spec fn app_field_lines(a: AppEntryView) -> Seq<LineView> {
    optional_field(
        "Exec      "@,
        match a.exec_line {
            Some(e) => Some(truncated(e, 60)),
            None => None,
        },
    ) + optional_field("Icon      "@, a.icon) + seq![
        ("Terminal  "@, bool_text(a.terminal), Look::Plain),
        ("NoDisplay "@, bool_text(a.no_display), Look::Plain),
        ("Path      "@, a.path, Look::Plain),
    ]
}

/// The notes of the application panel: the comment, and the categories
/// joined by ` · `, each after a blank line when present.
pub open spec fn app_note_lines(a: AppEntryView) -> Seq<LineView> {
    (match a.comment {
        Some(c) => seq![blank_line(), text_line(c, Look::Plain)],
        None => Seq::empty(),
    }) + if a.categories.len() > 0 {
        seq![
            blank_line(),
            text_line("Categories"@, Look::Subtle),
            text_line(joined(a.categories, " · "@), Look::Plain),
        ]
    } else {
        Seq::empty()
    }
}

/// The application detail panel: its head, fields and notes and the
/// handled MIME types; a note when nothing is selected.
pub open spec fn app_detail_lines(a: Option<AppEntryView>) -> Seq<LineView> {
    match a {
        None => seq![text_line("No applications found."@, Look::Subtle)],
        Some(a) => app_identity_lines(a) + app_field_lines(a) + app_note_lines(a)
            + handled_section(a.mime_types),
    }
}

fn bool_str(b: bool) -> (r: &'static str)
    ensures
        r@ == bool_text(b),
{
    if b {
        "true"
    } else {
        "false"
    }
}

fn push_handled(out: &mut Vec<DetailLine>, types: &Vec<String>)
    ensures
        lines_view(final(out)@) == lines_view(old(out)@) + handled_section(strings_view(types@)),
{
    proof {
        reveal_strlit("");
        assert(""@ =~= Seq::<char>::empty());
    }
    let n = types.len();
    if n == 0 {
        assert(lines_view(out@) =~= lines_view(old(out)@) + handled_section(
            strings_view(types@),
        ));
        return;
    }
    push_line(out, line("", "", Look::Plain));
    let mut h = to_chars("Handles ");
    push_decimal(n as u64, &mut h);
    push_str_chars(&mut h, " MIME type(s)");
    push_line(out, DetailLine { label: String::new(), text: string_from_chars(&h), look: Look::Subtle });
    let shown = if n > 8 {
        8
    } else {
        n
    };
    push_bullets(out, types, shown);
    if n > 8 {
        let mut more = to_chars("  …and ");
        push_decimal((n - 8) as u64, &mut more);
        push_str_chars(&mut more, " more");
        push_line(out, DetailLine { label: String::new(), text: string_from_chars(&more), look: Look::Dim });
    } else {
        assert(strings_view(types@).take(n as int) =~= strings_view(types@));
    }
    assert(lines_view(out@) =~= lines_view(old(out)@) + handled_section(strings_view(types@)));
}

fn push_identity(out: &mut Vec<DetailLine>, a: &AppEntry)
    ensures
        lines_view(final(out)@) == lines_view(old(out)@) + app_identity_lines(a@),
{
    proof {
        reveal_strlit("");
        assert(""@ =~= Seq::<char>::empty());
    }
    push_line(out, line("", a.name.as_str(), Look::Heading));
    match &a.generic_name {
        Some(g) => push_line(out, line("", g.as_str(), Look::Subtle)),
        None => {},
    }
    push_line(out, line("", "", Look::Plain));
    push_line(out, line("ID        ", a.id.as_str(), Look::Plain));
    assert(lines_view(out@) =~= lines_view(old(out)@) + app_identity_lines(a@));
}

fn push_fields(out: &mut Vec<DetailLine>, a: &AppEntry)
    ensures
        lines_view(final(out)@) == lines_view(old(out)@) + app_field_lines(a@),
{
    match &a.exec_line {
        Some(e) => push_line(out, line("Exec      ", truncate(e.as_str(), 60), Look::Plain)),
        None => {},
    }
    match &a.icon {
        Some(i) => push_line(out, line("Icon      ", i.as_str(), Look::Plain)),
        None => {},
    }
    push_line(out, line("Terminal  ", bool_str(a.terminal), Look::Plain));
    push_line(out, line("NoDisplay ", bool_str(a.no_display), Look::Plain));
    push_line(out, line("Path      ", a.path.as_str(), Look::Plain));
    assert(lines_view(out@) =~= lines_view(old(out)@) + app_field_lines(a@));
}

fn push_notes(out: &mut Vec<DetailLine>, a: &AppEntry)
    ensures
        lines_view(final(out)@) == lines_view(old(out)@) + app_note_lines(a@),
{
    proof {
        reveal_strlit("");
        assert(""@ =~= Seq::<char>::empty());
    }
    match &a.comment {
        Some(c) => {
            push_line(out, line("", "", Look::Plain));
            push_line(out, line("", c.as_str(), Look::Plain));
        },
        None => {},
    }
    if a.categories.len() > 0 {
        push_line(out, line("", "", Look::Plain));
        push_line(out, line("", "Categories", Look::Subtle));
        let j = join_strings(&a.categories, " · ");
        push_line(out, DetailLine { label: String::new(), text: j, look: Look::Plain });
    }
    assert(lines_view(out@) =~= lines_view(old(out)@) + app_note_lines(a@));
}

/// The application detail panel (see [`app_detail_lines`]).
pub fn app_detail(a: Option<&AppEntry>) -> (r: Vec<DetailLine>)
    ensures
        lines_view(r@) == app_detail_lines(
            match a {
                Some(a) => Some(a@),
                None => None,
            },
        ),
{
    proof {
        reveal_strlit("");
        assert(""@ =~= Seq::<char>::empty());
    }
    let mut out: Vec<DetailLine> = Vec::new();
    assert(lines_view(out@) =~= Seq::<LineView>::empty());
    match a {
        None => {
            push_line(&mut out, line("", "No applications found.", Look::Subtle));
            assert(lines_view(out@) =~= app_detail_lines(None));
        },
        Some(a) => {
            push_identity(&mut out, a);
            push_fields(&mut out, a);
            push_notes(&mut out, a);
            push_handled(&mut out, &a.mime_types);
            assert(lines_view(out@) =~= app_detail_lines(Some(a@)));
        },
    }
    out
}

/// The base-directory detail panel: the variable, its path, where the
/// value came from, whether it exists, and what it is for.
pub open spec fn base_detail_lines(d: BaseDir) -> Seq<LineView> {
    seq![
        text_line(d.name@, Look::Heading),
        blank_line(),
        ("Path      "@, d.value@, Look::Plain),
        if d.from_env {
            ("Source    "@, "from environment"@, Look::Accent)
        } else {
            ("Source    "@, "spec default"@, Look::Dim)
        },
        if d.exists {
            ("Status    "@, "exists"@, Look::Good)
        } else {
            ("Status    "@, "missing"@, Look::Warn)
        },
        blank_line(),
        text_line(d.description@, Look::Italic),
    ]
}

/// The base-directory detail panel (see [`base_detail_lines`]).
pub fn base_detail(d: &BaseDir) -> (r: Vec<DetailLine>)
    ensures
        lines_view(r@) == base_detail_lines(*d),
{
    proof {
        reveal_strlit("");
        assert(""@ =~= Seq::<char>::empty());
    }
    let mut out: Vec<DetailLine> = Vec::new();
    push_line(&mut out, line("", d.name, Look::Heading));
    push_line(&mut out, line("", "", Look::Plain));
    push_line(&mut out, line("Path      ", d.value.as_str(), Look::Plain));
    if d.from_env {
        push_line(&mut out, line("Source    ", "from environment", Look::Accent));
    } else {
        push_line(&mut out, line("Source    ", "spec default", Look::Dim));
    }
    if d.exists {
        push_line(&mut out, line("Status    ", "exists", Look::Good));
    } else {
        push_line(&mut out, line("Status    ", "missing", Look::Warn));
    }
    push_line(&mut out, line("", "", Look::Plain));
    push_line(&mut out, line("", d.description, Look::Italic));
    assert(lines_view(out@) =~= base_detail_lines(*d));
    out
}

// ---------------------------------------------------------------------------
// Status line
// ---------------------------------------------------------------------------

/// The status line, `elapsed_ms` milliseconds after its message was made:
/// the message, in the error or the good look, while it is live, else
/// nothing.
pub open spec fn status_line_text(status: Option<Status>, elapsed_ms: u64) -> LineView {
    match status {
        Some(s) if elapsed_ms < s.lifetime_ms => text_line(
            s.message@,
            if s.is_error {
                Look::Error
            } else {
                Look::Good
            },
        ),
        _ => blank_line(),
    }
}

/// The status line `elapsed_ms` milliseconds after its message was made
/// (see [`status_line_text`]).
pub fn status_line_after(status: &Option<Status>, elapsed_ms: u64) -> (r: DetailLine)
    ensures
        (r.label@, r.text@, r.look) == status_line_text(*status, elapsed_ms),
{
    match status {
        Some(s) => {
            if s.is_live_after(elapsed_ms) {
                let look = if s.is_error {
                    Look::Error
                } else {
                    Look::Good
                };
                DetailLine { label: String::new(), text: s.message.clone(), look }
            } else {
                DetailLine { label: String::new(), text: String::new(), look: Look::Plain }
            }
        },
        None => DetailLine { label: String::new(), text: String::new(), look: Look::Plain },
    }
}

/// The status line now: [`status_line_after`] the time that has passed
/// since the message was made, read from the clock.
pub fn status_line(status: &Option<Status>) -> (r: DetailLine)
    ensures
        exists|elapsed_ms: u64|
            (r.label@, r.text@, r.look) == #[trigger] status_line_text(*status, elapsed_ms),
{
    match status {
        Some(s) => status_line_after(status, millis_since(&s.made)),
        None => status_line_after(status, 0),
    }
}

/// A status message expires: before its lifetime has passed the status
/// line shows it, in the error look for an error and the good look
/// otherwise; from then on, and when there is no message, the line is
/// blank.
pub proof fn lemma_status_line_expires(status: Option<Status>, elapsed_ms: u64)
    ensures
        ({
            let l = status_line_text(status, elapsed_ms);
            match status {
                Some(s) => if elapsed_ms < s.lifetime_ms {
                    &&& l.1 == s.message@
                    &&& l.0.len() == 0
                    &&& s.is_error ==> l.2 == Look::Error
                    &&& !s.is_error ==> l.2 == Look::Good
                } else {
                    l.0.len() == 0 && l.1.len() == 0 && l.2 == Look::Plain
                },
                None => l.0.len() == 0 && l.1.len() == 0 && l.2 == Look::Plain,
            }
        }),
{
}

} // verus!
