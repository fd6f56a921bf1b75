//! What the interface shows, as text: the rows, captions and columns that the
//! drawing code lays out and colours.
use vstd::prelude::*;
use vstd::string::*;

use crate::app::{SortMode, Tab};
use crate::model::{operation_for, operation_for_spec, list_status_spec, opt_text, state_spec, Package, PackageState, PackageView};
use crate::text::{
    chars_of, decimal_spec, is_control_spec, lemma_sanitized_has_no_control, lower_spec, lowered_chars, owned, push_char, push_decimal, sanitize_spec,
    sanitize_text, string_of, truncate, truncate_spec,
};

verus! {

broadcast use vstd::string::group_string_axioms;

/// `n` spaces.
pub open spec fn spaces(n: nat) -> Seq<char> {
    Seq::new(n, |_i: int| ' ')
}

/// `s` followed by spaces up to `width` characters; `s` itself when it is
/// that long already.
pub open spec fn pad_spec(s: Seq<char>, width: nat) -> Seq<char> {
    if s.len() < width {
        s + spaces((width - s.len()) as nat)
    } else {
        s
    }
}

/// Left-aligns `s` in a field `width` characters wide.
pub fn pad_right(s: &str, width: usize) -> (r: String)
    ensures
        r@ == pad_spec(s@, width as nat),
{
    let n = chars_of(s).len();
    let mut r = owned(s);
    let mut k: usize = n;
    while k < width
        invariant
            n == s@.len(),
            n <= k,
            k <= width || k == n,
            r@ == s@ + spaces((k - n) as nat),
        decreases width - k,
    {
        push_char(&mut r, ' ');
        k = k + 1;
        assert(r@ =~= s@ + spaces((k - n) as nat));
    }
    assert(s@ + spaces(0) =~= s@);
    r
}

/// The width of the name column in a list `area_width` cells wide: twenty
/// cells less, but at least 12 and at most 52.
pub open spec fn name_width_spec(area_width: int) -> int {
    let w = if area_width > 20 {
        area_width - 20
    } else {
        0
    };
    if w < 12 {
        12
    } else if w > 52 {
        52
    } else {
        w
    }
}

/// Decides `name_width_spec`.
pub fn name_width(area_width: u16) -> (r: usize)
    ensures
        r == name_width_spec(area_width as int),
{
    let w: u16 = if area_width > 20 {
        area_width - 20
    } else {
        0
    };
    if w < 12 {
        12
    } else if w > 52 {
        52
    } else {
        w as usize
    }
}

/// The first of two optional texts that is there.
pub open spec fn or_text(a: Option<Seq<char>>, b: Option<Seq<char>>) -> Option<Seq<char>> {
    match a {
        Some(x) => Some(x),
        None => b,
    }
}

/// An optional text, or `d` when it is missing.
pub open spec fn text_or(a: Option<Seq<char>>, d: Seq<char>) -> Seq<char> {
    match a {
        Some(x) => x,
        None => d,
    }
}

/// The version the package list shows: the installed one, else the latest,
/// made safe to print; nothing when neither is known.
pub open spec fn listed_version_spec(p: PackageView) -> Seq<char> {
    match or_text(p.installed_version, p.latest_version) {
        Some(v) => sanitize_spec(v),
        None => Seq::empty(),
    }
}

/// The version the package preview shows: the latest one, else the installed
/// one, else a note that it is still loading.
pub open spec fn preview_version_spec(p: PackageView) -> Seq<char> {
    sanitize_spec(text_or(or_text(p.latest_version, p.installed_version), "version loading\u{2026}"@))
}

/// The description the package preview shows.
pub open spec fn preview_description_spec(p: PackageView) -> Seq<char> {
    sanitize_spec(text_or(p.description, "Loading package description\u{2026}"@))
}

/// The license the package preview shows; a dash when it is unknown.
pub open spec fn preview_license_spec(p: PackageView) -> Seq<char> {
    sanitize_spec(text_or(p.license, "\u{2014}"@))
}

/// The homepage the package preview shows; a dash when it is unknown.
pub open spec fn preview_homepage_spec(p: PackageView) -> Seq<char> {
    sanitize_spec(text_or(p.homepage, "\u{2014}"@))
}

/// An optional text, made safe to print, or `fallback` made safe to print.
fn sanitized_or(o: &Option<String>, fallback: &str) -> (r: String)
    ensures
        r@ == sanitize_spec(text_or(opt_text(*o), fallback@)),
{
    match o {
        Some(v) => sanitize_text(v.as_str()),
        None => sanitize_text(fallback),
    }
}

impl Package {
    /// The version the package list shows.
    pub fn listed_version(&self) -> (r: String)
        ensures
            r@ == listed_version_spec(self@),
    {
        match &self.installed_version {
            Some(v) => sanitize_text(v.as_str()),
            None => match &self.latest_version {
                Some(v) => sanitize_text(v.as_str()),
                None => String::new(),
            },
        }
    }

    /// The version the package preview shows.
    pub fn preview_version(&self) -> (r: String)
        ensures
            r@ == preview_version_spec(self@),
    {
        match &self.latest_version {
            Some(v) => sanitize_text(v.as_str()),
            None => sanitized_or(&self.installed_version, "version loading\u{2026}"),
        }
    }

    /// The description the package preview shows.
    pub fn preview_description(&self) -> (r: String)
        ensures
            r@ == preview_description_spec(self@),
    {
        sanitized_or(&self.description, "Loading package description\u{2026}")
    }

    /// The license the package preview shows.
    pub fn preview_license(&self) -> (r: String)
        ensures
            r@ == preview_license_spec(self@),
    {
        sanitized_or(&self.license, "\u{2014}")
    }

    /// The homepage the package preview shows.
    pub fn preview_homepage(&self) -> (r: String)
        ensures
            r@ == preview_homepage_spec(self@),
    {
        sanitized_or(&self.homepage, "\u{2014}")
    }
}

/// One row of the package list.
pub struct ResultRow {
    /// Whether an operation on the package is staged.
    pub staged: bool,
    /// The name, cut to the column and padded to its width.
    pub name: String,
    /// The status word, padded to twelve characters.
    pub status: String,
    /// The version shown.
    pub version: String,
    /// Where the package stands, which decides the status colour.
    pub state: PackageState,
}

/// A row of the package list, as plain values.
pub struct ResultRowView {
    pub staged: bool,
    pub name: Seq<char>,
    pub status: Seq<char>,
    pub version: Seq<char>,
    pub state: PackageState,
}

impl View for ResultRow {
    type V = ResultRowView;

    open spec fn view(&self) -> ResultRowView {
        ResultRowView {
            staged: self.staged,
            name: self.name@,
            status: self.status@,
            version: self.version@,
            state: self.state,
        }
    }
}

/// The row the package list shows for `p` with a name column `width` wide:
/// the name made safe to print, cut to two less than the width and padded to
/// it; the status word padded to twelve; the listed version.
pub open spec fn row_spec(p: PackageView, staged: bool, width: nat) -> ResultRowView {
    let room: nat = if width >= 2 {
        (width - 2) as nat
    } else {
        0
    };
    ResultRowView {
        staged,
        name: pad_spec(truncate_spec(sanitize_spec(p.name), room), width),
        status: pad_spec(list_status_spec(p), 12),
        version: listed_version_spec(p),
        state: state_spec(p),
    }
}

/// The row the package list shows for `package`.
pub fn result_row(package: &Package, staged: bool, width: usize) -> (r: ResultRow)
    ensures
        r@ == row_spec(package@, staged, width as nat),
{
    let room: usize = if width >= 2 {
        width - 2
    } else {
        0
    };
    let cut = truncate(sanitize_text(package.name.as_str()).as_str(), room);
    ResultRow {
        staged,
        name: pad_right(cut.as_str(), width),
        status: pad_right(package.list_status(), 12),
        version: package.listed_version(),
        state: package.state(),
    }
}

/// A section's title in small letters.
pub fn tab_caption(tab: Tab) -> (r: String)
    ensures
        r@ == lower_spec(tab.label_spec()),
{
    string_of(&lowered_chars(tab.label()))
}

/// A section's entry in the side bar: a space, then its title in small
/// letters left-aligned in twelve characters.
pub fn nav_label(tab: Tab) -> (r: String)
    ensures
        r@ == " "@ + pad_spec(lower_spec(tab.label_spec()), 12),
{
    let mut r = owned(" ");
    r.append(pad_right(tab_caption(tab).as_str(), 12).as_str());
    r
}

/// A section's entry in the filter line of a narrow screen: its title in
/// small letters and the number of items it lists, with a space on each side.
pub fn filter_label(tab: Tab, count: usize) -> (r: String)
    ensures
        r@ == " "@ + lower_spec(tab.label_spec()) + "  "@ + decimal_spec(count as nat) + " "@,
{
    let mut r = owned(" ");
    r.append(tab_caption(tab).as_str());
    r.append("  ");
    push_decimal(&mut r, count);
    r.append(" ");
    r
}

/// The caption under the package list that counts its rows.
pub fn matches_caption(count: usize) -> (r: String)
    ensures
        r@ == "  "@ + decimal_spec(count as nat) + " matches"@,
{
    let mut r = owned("  ");
    push_decimal(&mut r, count);
    r.append(" matches");
    r
}

/// The caption under the package list that names the sort order.
pub fn sort_caption(sort: SortMode) -> (r: String)
    ensures
        r@ == "  \u{b7}  sorted by "@ + sort.label_spec(),
{
    let mut r = owned("  \u{b7}  sorted by ");
    r.append(sort.label());
    r
}

/// The heading of the staged operations in the side bar.
pub fn selection_caption(count: usize) -> (r: String)
    ensures
        r@ == "SELECTION  "@ + decimal_spec(count as nat),
{
    let mut r = owned("SELECTION  ");
    push_decimal(&mut r, count);
    r
}

/// What the application is busy with, as the header shows it.
#[derive(Clone, Copy, Debug, PartialEq, Eq, Structural)]
pub enum SyncState {
    Syncing,
    Running,
    Ready,
}

impl SyncState {
    /// The words the header shows.
    pub open spec fn label_spec(self) -> Seq<char> {
        match self {
            SyncState::Syncing => "syncing  \u{25cc}"@,
            SyncState::Running => "running  \u{25cf}"@,
            SyncState::Ready => "ready  \u{25cf}"@,
        }
    }

    /// The words the header shows.
    pub fn label(self) -> (r: &'static str)
        ensures
            r@ == self.label_spec(),
    {
        match self {
            SyncState::Syncing => "syncing  \u{25cc}",
            SyncState::Running => "running  \u{25cf}",
            SyncState::Ready => "ready  \u{25cf}",
        }
    }
}

/// What the application is busy with: loading the catalog comes before
/// running operations.
pub open spec fn sync_state_spec(loading: bool, running: bool) -> SyncState {
    if loading {
        SyncState::Syncing
    } else if running {
        SyncState::Running
    } else {
        SyncState::Ready
    }
}

/// The action the preview offers for `package`: the verb of the operation
/// Enter runs on it, after two spaces and before " now".
pub fn action_hint(package: &Package) -> (r: String)
    ensures
        r@ == "  "@ + operation_for_spec(package@).verb() + " now"@,
{
    let mut r = owned("  ");
    r.append(operation_for(package).verb());
    r.append(" now");
    r
}

/// The note the side bar shows in place of staged operations when none is.
pub fn queue_placeholder(staged: usize) -> (r: Option<&'static str>)
    ensures
        r == (if staged == 0 {
            Some("Nothing selected")
        } else {
            None::<&'static str>
        }),
{
    if staged == 0 {
        Some("Nothing selected")
    } else {
        None
    }
}

/// Whether a page `page_width` cells wide shows the side bar and the preview
/// beside the list (105 cells or more) rather than stacked.
pub fn wide_layout(page_width: u16) -> (r: bool)
    ensures
        r == (page_width >= 105),
{
    page_width >= 105
}

/// The margin on each side of a screen `width` cells wide: two cells past 90,
/// else one.
pub fn page_margin(width: u16) -> (r: u16)
    ensures
        r == (if width > 90 {
            2u16
        } else {
            1u16
        }),
{
    if width > 90 {
        2
    } else {
        1
    }
}

/// The rows the preview takes under the list on a narrow page: seven while
/// it shows, none when hidden.
pub fn stacked_preview_height(preview_visible: bool) -> (r: u16)
    ensures
        r == (if preview_visible {
            7u16
        } else {
            0u16
        }),
{
    if preview_visible {
        7
    } else {
        0
    }
}

/// Whether the header has room, at `width` cells, for the line naming the
/// program.
pub fn shows_subtitle(width: u16) -> (r: bool)
    ensures
        r == (width >= 62),
{
    width >= 62
}

/// Whether `s` holds no terminal control character.
pub open spec fn printable(s: Seq<char>) -> bool {
    forall|i: int| 0 <= i < s.len() ==> !is_control_spec(#[trigger] s[i])
}

/// Cutting and padding printable text leaves it printable.
proof fn lemma_cut_and_pad_printable(s: Seq<char>, room: nat, width: nat)
    requires
        printable(s),
    ensures
        printable(truncate_spec(s, room)),
        printable(pad_spec(truncate_spec(s, room), width)),
{
    let t = truncate_spec(s, room);
    assert forall|i: int| 0 <= i < t.len() implies !is_control_spec(#[trigger] t[i]) by {
        if room > 0 && s.len() > room && i < room - 1 {
            assert(t[i] == s[i]);
        }
    }
    let u = pad_spec(t, width);
    assert forall|i: int| 0 <= i < u.len() implies !is_control_spec(#[trigger] u[i]) by {
        if i >= t.len() {
            assert(u[i] == ' ');
        } else {
            assert(u[i] == t[i]);
        }
    }
}

/// Text made safe to print stays so when it is then cut to a width and
/// padded: the status line, the activity lines and the staged summaries hold
/// no terminal control character.
pub proof fn law_cut_text_is_printable(s: Seq<char>, room: nat, width: nat)
    ensures
        printable(truncate_spec(sanitize_spec(s), room)),
        printable(pad_spec(truncate_spec(sanitize_spec(s), room), width)),
{
    lemma_sanitized_has_no_control(s);
    lemma_cut_and_pad_printable(sanitize_spec(s), room, width);
}

/// Text from outside reaches the screen only made safe to print: the name
/// and version in a package row, and the version, description, license and
/// homepage in the preview hold no terminal control character.
pub proof fn law_shown_package_text_is_printable(p: PackageView, staged: bool, width: nat)
    ensures
        printable(row_spec(p, staged, width).name),
        printable(row_spec(p, staged, width).version),
        printable(preview_version_spec(p)),
        printable(preview_description_spec(p)),
        printable(preview_license_spec(p)),
        printable(preview_homepage_spec(p)),
{
    let room: nat = if width >= 2 {
        (width - 2) as nat
    } else {
        0
    };
    law_cut_text_is_printable(p.name, room, width);
    match or_text(p.installed_version, p.latest_version) {
        Some(v) => lemma_sanitized_has_no_control(v),
        None => {},
    }
    lemma_sanitized_has_no_control(text_or(or_text(p.latest_version, p.installed_version), "version loading\u{2026}"@));
    lemma_sanitized_has_no_control(text_or(p.description, "Loading package description\u{2026}"@));
    lemma_sanitized_has_no_control(text_or(p.license, "\u{2014}"@));
    lemma_sanitized_has_no_control(text_or(p.homepage, "\u{2014}"@));
}

} // verus!
