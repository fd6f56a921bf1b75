//! The interactive application's state and how it answers keys, the mouse
//! and background events. Work that must happen outside (loading the
//! catalog or a package's details, running `brew`) is handed back as an
//! [`Effect`] for the caller to carry out.
use vstd::prelude::*;
use vstd::string::*;

use crate::catalog::{installed_count_spec, outdated_count_spec, views, Catalog};
use crate::fuzzy::{fuzzy_score, fuzzy_spec, law_exact_match_ranks_first, lemma_fuzzy_in_i64};
use crate::model::{
    operation_for, operation_for_spec, Operation, OperationView, Package, PackageKind, PackageView,
};
use crate::order::{lemma_text_order, text_less, text_lt};
use crate::sort::{lemma_sorted_exists, merge_sort, sorted_under, weak_order};
use crate::screen::{
    name_width, name_width_spec, result_row, row_spec, sync_state_spec, ResultRow, SyncState,
};
use crate::text::{
    lower_spec,
    concat, decimal_spec, is_control, is_control_spec, owned, push_char, push_decimal, same_text,
    sanitize_log, sanitize_spec, sanitize_text, truncate, truncate_spec,
};
use crate::worker::WorkerEvent;

verus! {

broadcast use vstd::string::group_string_axioms;

/// A section of the package list.
#[derive(Clone, Copy, Debug, PartialEq, Eq, Structural)]
pub enum Tab {
    Browse,
    Installed,
    Outdated,
    Casks,
    Taps,
}

/// The sections in the order the interface shows them.
pub open spec fn tab_at(i: int) -> Tab {
    if i == 0 {
        Tab::Browse
    } else if i == 1 {
        Tab::Installed
    } else if i == 2 {
        Tab::Outdated
    } else if i == 3 {
        Tab::Casks
    } else {
        Tab::Taps
    }
}

impl Tab {
    /// The section's place in the interface's order.
    pub open spec fn index_spec(self) -> int {
        match self {
            Tab::Browse => 0,
            Tab::Installed => 1,
            Tab::Outdated => 2,
            Tab::Casks => 3,
            Tab::Taps => 4,
        }
    }

    /// The section's title.
    pub open spec fn label_spec(self) -> Seq<char> {
        match self {
            Tab::Browse => "Browse"@,
            Tab::Installed => "Installed"@,
            Tab::Outdated => "Outdated"@,
            Tab::Casks => "Casks"@,
            Tab::Taps => "Taps"@,
        }
    }

    /// The section's title.
    pub fn label(self) -> (r: &'static str)
        ensures
            r@ == self.label_spec(),
    {
        match self {
            Tab::Browse => "Browse",
            Tab::Installed => "Installed",
            Tab::Outdated => "Outdated",
            Tab::Casks => "Casks",
            Tab::Taps => "Taps",
        }
    }

    /// The section's place in the interface's order.
    pub fn index(self) -> (r: usize)
        ensures
            r == self.index_spec(),
    {
        match self {
            Tab::Browse => 0,
            Tab::Installed => 1,
            Tab::Outdated => 2,
            Tab::Casks => 3,
            Tab::Taps => 4,
        }
    }

    /// The section at a place in the interface's order (the last one for any
    /// place past the end).
    pub fn at(i: usize) -> (r: Tab)
        ensures
            r == tab_at(i as int),
    {
        if i == 0 {
            Tab::Browse
        } else if i == 1 {
            Tab::Installed
        } else if i == 2 {
            Tab::Outdated
        } else if i == 3 {
            Tab::Casks
        } else {
            Tab::Taps
        }
    }

    /// All sections, in the interface's order.
    pub fn all() -> (r: [Tab; 5])
        ensures
            forall|i: int| 0 <= i < 5 ==> #[trigger] r@[i] == tab_at(i),
    {
        [Tab::Browse, Tab::Installed, Tab::Outdated, Tab::Casks, Tab::Taps]
    }
}

/// The order in which packages are listed when there is no query.
#[derive(Clone, Copy, Debug, PartialEq, Eq, Structural)]
pub enum SortMode {
    Name,
    Status,
    Kind,
}

impl SortMode {
    /// The order's name.
    pub open spec fn label_spec(self) -> Seq<char> {
        match self {
            SortMode::Name => "name"@,
            SortMode::Status => "status"@,
            SortMode::Kind => "kind"@,
        }
    }

    /// The order that follows in the cycle name, status, kind.
    pub open spec fn next_spec(self) -> SortMode {
        match self {
            SortMode::Name => SortMode::Status,
            SortMode::Status => SortMode::Kind,
            SortMode::Kind => SortMode::Name,
        }
    }

    /// The order's name.
    pub fn label(self) -> (r: &'static str)
        ensures
            r@ == self.label_spec(),
    {
        match self {
            SortMode::Name => "name",
            SortMode::Status => "status",
            SortMode::Kind => "kind",
        }
    }

    /// The order that follows in the cycle name, status, kind.
    pub fn next(self) -> (r: SortMode)
        ensures
            r == self.next_spec(),
    {
        match self {
            SortMode::Name => SortMode::Status,
            SortMode::Status => SortMode::Kind,
            SortMode::Kind => SortMode::Name,
        }
    }
}

/// What covers the package list, if anything.
#[derive(Clone, Copy, Debug, PartialEq, Eq, Structural)]
pub enum Overlay {
    Hidden,
    Help,
}

/// A key, as the application tells keys apart.
#[derive(Clone, Copy, Debug, PartialEq, Eq)]
pub enum KeyCode {
    Char(char),
    Enter,
    Esc,
    Tab,
    BackTab,
    Backspace,
    Up,
    Down,
    Left,
    Right,
    PageUp,
    PageDown,
    Other,
}

/// A key press with the modifiers held.
#[derive(Clone, Copy, Debug)]
pub struct KeyInput {
    pub code: KeyCode,
    pub control: bool,
    pub alt: bool,
}

/// A mouse event, as the application tells them apart.
#[derive(Clone, Copy, Debug, PartialEq, Eq)]
pub enum MouseInput {
    ScrollDown,
    ScrollUp,
    Other,
}

/// Work the application asks its caller to start.
#[derive(Debug)]
pub enum Effect {
    Nothing,
    LoadCatalog { force_metadata: bool },
    LoadDetail { name: String, kind: PackageKind },
    RunOperations(Vec<Operation>),
}

/// The views of a list of operations.
pub open spec fn op_views(s: Seq<Operation>) -> Seq<OperationView> {
    Seq::new(s.len(), |i: int| s[i]@)
}

/// An [`Effect`] as plain values.
pub enum EffectView {
    Nothing,
    LoadCatalog { force_metadata: bool },
    LoadDetail { name: Seq<char>, kind: PackageKind },
    RunOperations(Seq<OperationView>),
}

impl View for Effect {
    type V = EffectView;

    open spec fn view(&self) -> EffectView {
        match self {
            Effect::Nothing => EffectView::Nothing,
            Effect::LoadCatalog { force_metadata } => EffectView::LoadCatalog {
                force_metadata: *force_metadata,
            },
            Effect::LoadDetail { name, kind } => EffectView::LoadDetail { name: name@, kind: *kind },
            Effect::RunOperations(ops) => EffectView::RunOperations(op_views(ops@)),
        }
    }
}

/// The application's state as plain values.
pub struct AppView {
    pub packages: Seq<PackageView>,
    pub taps: Seq<Seq<char>>,
    pub tab: Tab,
    pub selected: usize,
    pub query: Seq<char>,
    pub overlay: Overlay,
    pub sort: SortMode,
    pub queue: Seq<OperationView>,
    pub log: Seq<Seq<char>>,
    pub loading: bool,
    pub running: bool,
    pub status: Seq<char>,
    pub should_quit: bool,
    pub failed_operations: usize,
    pub preview_visible: bool,
    pub preview_scroll: u16,
    pub requested: Seq<Seq<char>>,
}

/// The application's state.
pub struct App {
    pub catalog: Catalog,
    pub tab: Tab,
    pub selected: usize,
    pub query: String,
    pub overlay: Overlay,
    pub sort: SortMode,
    pub queue: Vec<Operation>,
    pub log: Vec<String>,
    pub loading: bool,
    pub running: bool,
    pub status: String,
    pub should_quit: bool,
    pub failed_operations: usize,
    pub preview_visible: bool,
    pub preview_scroll: u16,
    /// The names whose details have been asked for since the catalog last
    /// loaded, each once.
    pub detail_requested: Vec<String>,
}

impl View for App {
    type V = AppView;

    open spec fn view(&self) -> AppView {
        AppView {
            packages: views(self.catalog.packages@),
            taps: crate::model::texts(self.catalog.taps@),
            tab: self.tab,
            selected: self.selected,
            query: self.query@,
            overlay: self.overlay,
            sort: self.sort,
            queue: op_views(self.queue@),
            log: crate::model::texts(self.log@),
            loading: self.loading,
            running: self.running,
            status: self.status@,
            should_quit: self.should_quit,
            failed_operations: self.failed_operations,
            preview_visible: self.preview_visible,
            preview_scroll: self.preview_scroll,
            requested: crate::model::texts(self.detail_requested@),
        }
    }
}

// ---------------------------------------------------------------------------
// Which packages are listed, and in what order
// ---------------------------------------------------------------------------

/// Whether a section lists a package: every package, the installed ones, the
/// outdated ones, the casks, or none (taps are listed instead).
pub open spec fn tab_admits(tab: Tab, p: PackageView) -> bool {
    match tab {
        Tab::Browse => true,
        Tab::Installed => p.installed,
        Tab::Outdated => p.outdated,
        Tab::Casks => p.kind == PackageKind::Cask,
        Tab::Taps => false,
    }
}

/// The listed packages, in catalog order, each with its position in the
/// catalog and its match score against the query.
pub open spec fn candidates(pkgs: Seq<PackageView>, tab: Tab, query: Seq<char>) -> Seq<(usize, i64)>
    decreases pkgs.len(),
{
    if pkgs.len() == 0 {
        Seq::empty()
    } else {
        let rest = candidates(pkgs.drop_last(), tab, query);
        let p = pkgs.last();
        if tab_admits(tab, p) && fuzzy_spec(p.name, query) is Some {
            rest.push(((pkgs.len() - 1) as usize, fuzzy_spec(p.name, query)->0 as i64))
        } else {
            rest
        }
    }
}

/// What a listed entry is sorted by: with a query, best score first; without
/// one, by the sort mode (outdated, then installed, first for status; casks
/// first for kind); and then by name.
pub open spec fn entry_key(pkgs: Seq<PackageView>, by_score: bool, sort: SortMode, e: (usize, i64)) -> (
    int,
    int,
    Seq<char>,
) {
    let p = if (e.0 as int) < pkgs.len() {
        pkgs[e.0 as int]
    } else {
        PackageView::fresh(Seq::empty(), PackageKind::Formula)
    };
    if by_score {
        (-(e.1 as int), 0, p.name)
    } else {
        match sort {
            SortMode::Name => (0, 0, p.name),
            SortMode::Status => (
                if p.outdated {
                    0int
                } else {
                    1int
                },
                if p.installed {
                    0int
                } else {
                    1int
                },
                p.name,
            ),
            SortMode::Kind => (
                if p.kind == PackageKind::Cask {
                    0int
                } else {
                    1int
                },
                0,
                p.name,
            ),
        }
    }
}

/// Entry `a` is listed strictly before entry `b`: by key, and between
/// entries with the same key, by position in the catalog.
pub open spec fn entry_before(
    pkgs: Seq<PackageView>,
    by_score: bool,
    sort: SortMode,
    a: (usize, i64),
    b: (usize, i64),
) -> bool {
    let ka = entry_key(pkgs, by_score, sort, a);
    let kb = entry_key(pkgs, by_score, sort, b);
    ka.0 < kb.0 || (ka.0 == kb.0 && (ka.1 < kb.1 || (ka.1 == kb.1 && (text_lt(ka.2, kb.2) || (ka.2
        == kb.2 && a.0 < b.0)))))
}

/// The order in which entries are listed, as a relation.
pub open spec fn listing_order(v: AppView) -> spec_fn((usize, i64), (usize, i64)) -> bool {
    |a: (usize, i64), b: (usize, i64)| entry_before(v.packages, v.query.len() > 0, v.sort, a, b)
}

impl AppView {
    /// `e` lists exactly the candidates, in listing order. There is only one
    /// such `e` (see `law_ranking_unique`).
    pub open spec fn is_ranking(self, e: Seq<(usize, i64)>) -> bool {
        sorted_under(e, listing_order(self)) && e.to_multiset() == candidates(
            self.packages,
            self.tab,
            self.query,
        ).to_multiset()
    }

    /// The list as the interface shows it: its one ranking.
    pub open spec fn listing(self) -> Seq<(usize, i64)> {
        choose|e: Seq<(usize, i64)>| self.is_ranking(e)
    }

    /// The package under the cursor.
    pub open spec fn selection(self) -> Option<PackageView> {
        self.chosen(self.listing())
    }

    /// The package under the cursor when the list is ordered as `e`.
    pub open spec fn chosen(self, e: Seq<(usize, i64)>) -> Option<PackageView> {
        if (self.selected as int) < e.len() {
            Some(self.packages[e[self.selected as int].0 as int])
        } else {
            None
        }
    }

    /// The number of listed items: taps on the taps section, else packages.
    pub open spec fn item_count(self) -> int {
        if self.tab == Tab::Taps {
            self.taps.len() as int
        } else {
            candidates(self.packages, self.tab, self.query).len() as int
        }
    }

    /// Sizes stay where the arithmetic of scores and cursor moves cannot
    /// overflow.
    pub open spec fn fits(self) -> bool {
        fits_parts(self.packages, self.taps, self.selected)
    }
}

/// Sizes stay where the arithmetic of scores and cursor moves cannot
/// overflow: fewer packages and taps than the machine's index range allows
/// with room for a page move, and names of at most `u32::MAX` characters.
pub open spec fn fits_parts(packages: Seq<PackageView>, taps: Seq<Seq<char>>, selected: usize) -> bool {
    &&& packages.len() + 10 <= isize::MAX
    &&& taps.len() + 10 <= isize::MAX
    &&& selected + 10 <= isize::MAX
    &&& forall|i: int| 0 <= i < packages.len() ==> #[trigger] packages[i].name.len() <= u32::MAX
}

/// Decides `fits_parts` for a catalog and a cursor position.
fn catalog_fits(catalog: &Catalog, selected: usize) -> (r: bool)
    ensures
        r == fits_parts(views(catalog.packages@), crate::model::texts(catalog.taps@), selected),
{
    let n = catalog.packages.len();
    if n > (isize::MAX as usize) - 10 || catalog.taps.len() > (isize::MAX as usize) - 10 || selected
        > (isize::MAX as usize) - 10 {
        return false;
    }
    let ghost s = views(catalog.packages@);
    let mut i: usize = 0;
    while i < n
        invariant
            n == catalog.packages@.len(),
            s == views(catalog.packages@),
            i <= n,
            forall|j: int| 0 <= j < i ==> #[trigger] s[j].name.len() <= u32::MAX,
        decreases n - i,
    {
        let len = crate::text::chars_of(catalog.packages[i].name.as_str()).len();
        assert(s[i as int] == catalog.packages@[i as int]@);
        assert(s[i as int].name.len() == len);
        if len > (u32::MAX as usize) {
            return false;
        }
        i = i + 1;
    }
    true
}

proof fn lemma_entry_order(v: AppView)
    ensures
        weak_order(listing_order(v)),
{
    let lt = listing_order(v);
    let pk = v.packages;
    let bs = v.query.len() > 0;
    let so = v.sort;
    assert forall|a: (usize, i64), b: (usize, i64)| #[trigger] lt(a, b) implies !lt(b, a) by {
        lemma_text_order(entry_key(pk, bs, so, a).2, entry_key(pk, bs, so, b).2, entry_key(pk, bs, so, a).2);
    }
    assert forall|a: (usize, i64), b: (usize, i64), c: (usize, i64)|
        #![trigger lt(b, a), lt(c, b)]
        !lt(b, a) && !lt(c, b) implies !lt(c, a) by {
        let ka = entry_key(pk, bs, so, a);
        let kb = entry_key(pk, bs, so, b);
        let kc = entry_key(pk, bs, so, c);
        lemma_text_order(ka.2, kb.2, kc.2);
        lemma_text_order(kc.2, ka.2, kb.2);
        lemma_text_order(kb.2, kc.2, ka.2);
        lemma_text_order(kc.2, kb.2, ka.2);
        lemma_text_order(ka.2, kc.2, kb.2);
        lemma_text_order(kb.2, ka.2, kc.2);
    }
}

/// Some ordering of the list always exists.
proof fn lemma_ranking_exists(v: AppView)
    ensures
        exists|e: Seq<(usize, i64)>| v.is_ranking(e),
{
    lemma_entry_order(v);
    let c = candidates(v.packages, v.tab, v.query);
    lemma_sorted_exists(c, listing_order(v));
    let e = choose|r: Seq<(usize, i64)>| sorted_under(r, listing_order(v)) && r.to_multiset()
        == c.to_multiset();
    assert(v.is_ranking(e));
}

proof fn lemma_candidates_bounds(pkgs: Seq<PackageView>, tab: Tab, query: Seq<char>)
    ensures
        candidates(pkgs, tab, query).len() <= pkgs.len(),
        forall|k: int|
            0 <= k < candidates(pkgs, tab, query).len() ==> (#[trigger] candidates(pkgs, tab, query)[k]).0
                < pkgs.len(),
    decreases pkgs.len(),
{
    if pkgs.len() > 0 {
        lemma_candidates_bounds(pkgs.drop_last(), tab, query);
    }
}

/// The candidates come in increasing catalog position.
proof fn lemma_candidates_increasing(pkgs: Seq<PackageView>, tab: Tab, query: Seq<char>)
    requires
        pkgs.len() <= usize::MAX,
    ensures
        forall|i: int, j: int|
            0 <= i < j < candidates(pkgs, tab, query).len() ==> (#[trigger] candidates(pkgs, tab, query)[i]).0
                < (#[trigger] candidates(pkgs, tab, query)[j]).0,
    decreases pkgs.len(),
{
    if pkgs.len() > 0 {
        lemma_candidates_increasing(pkgs.drop_last(), tab, query);
        lemma_candidates_bounds(pkgs.drop_last(), tab, query);
        let rest = candidates(pkgs.drop_last(), tab, query);
        let c = candidates(pkgs, tab, query);
        assert forall|i: int, j: int| 0 <= i < j < c.len() implies (#[trigger] c[i]).0 < (#[trigger] c[j]).0 by {
            if c.len() == rest.len() {
                assert(c[i] == rest[i]);
                assert(c[j] == rest[j]);
            } else {
                assert(c == rest.push(((pkgs.len() - 1) as usize, fuzzy_spec(pkgs.last().name, query)->0 as i64)));
                assert(c[i] == rest[i]);
                if j < rest.len() {
                    assert(c[j] == rest[j]);
                } else {
                    assert(rest[i].0 < pkgs.len() - 1);
                    assert(c[j].0 == pkgs.len() - 1);
                }
            }
        }
    }
}

/// There is exactly one ranking: any two orderings of the list that both
/// follow the listing order are the same, so every call that lists the
/// packages lists them alike.
pub proof fn law_ranking_unique(v: AppView, e1: Seq<(usize, i64)>, e2: Seq<(usize, i64)>)
    requires
        v.packages.len() <= usize::MAX,
        v.is_ranking(e1),
        v.is_ranking(e2),
    ensures
        e1 == e2,
{
    broadcast use vstd::seq_lib::group_to_multiset_ensures;

    let c = candidates(v.packages, v.tab, v.query);
    let lt = listing_order(v);
    lemma_candidates_increasing(v.packages, v.tab, v.query);
    assert forall|a: (usize, i64), b: (usize, i64)|
        e1.contains(a) && e1.contains(b) && a != b implies lt(a, b) || lt(b, a) by {
        assert(e1.to_multiset().count(a) > 0);
        assert(e1.to_multiset().count(b) > 0);
        assert(c.contains(a));
        assert(c.contains(b));
        let i = choose|i: int| 0 <= i < c.len() && c[i] == a;
        let j = choose|j: int| 0 <= j < c.len() && c[j] == b;
        assert(i != j);
        assert(a.0 != b.0) by {
            if i < j {
                assert(c[i].0 < c[j].0);
            } else {
                assert(c[j].0 < c[i].0);
            }
        }
        let pk = v.packages;
        let bs = v.query.len() > 0;
        lemma_text_order(entry_key(pk, bs, v.sort, a).2, entry_key(pk, bs, v.sort, b).2, entry_key(pk, bs, v.sort, a).2);
    }
    crate::sort::lemma_sorted_unique(e1, e2, lt);
}

/// The listing is a ranking of the list, and every ranking is the listing.
pub proof fn law_listing_is_the_ranking(v: AppView)
    requires
        v.packages.len() <= usize::MAX,
    ensures
        v.is_ranking(v.listing()),
        forall|e: Seq<(usize, i64)>| #[trigger] v.is_ranking(e) ==> e == v.listing(),
{
    lemma_ranking_exists(v);
    assert forall|e: Seq<(usize, i64)>| #[trigger] v.is_ranking(e) implies e == v.listing() by {
        law_ranking_unique(v, e, v.listing());
    }
}

/// A ranking lists positions of the catalog.
proof fn lemma_ranking_bounds(v: AppView, e: Seq<(usize, i64)>)
    requires
        v.is_ranking(e),
    ensures
        e.len() == candidates(v.packages, v.tab, v.query).len(),
        forall|k: int| 0 <= k < e.len() ==> (#[trigger] e[k]).0 < v.packages.len(),
{
    broadcast use vstd::seq_lib::group_to_multiset_ensures;

    let c = candidates(v.packages, v.tab, v.query);
    lemma_candidates_bounds(v.packages, v.tab, v.query);
    assert(e.len() == e.to_multiset().len());
    assert forall|k: int| 0 <= k < e.len() implies (#[trigger] e[k]).0 < v.packages.len() by {
        assert(e.contains(e[k]));
        assert(e.to_multiset().count(e[k]) > 0);
        assert(c.to_multiset().count(e[k]) > 0);
        assert(c.contains(e[k]));
    }
}

/// A package's view after the cursor moves.
pub open spec fn clamp(x: int, lo: int, hi: int) -> int {
    if x < lo {
        lo
    } else if x > hi {
        hi
    } else {
        x
    }
}


/// The position of the first staged operation on the package with this
/// name, or -1.
pub open spec fn first_with_name(q: Seq<OperationView>, name: Seq<char>) -> int
    decreases q.len(),
{
    if q.len() == 0 {
        -1
    } else {
        let i = first_with_name(q.drop_last(), name);
        if i >= 0 {
            i
        } else if q.last().package_name() == Some(name) {
            q.len() - 1
        } else {
            -1
        }
    }
}

/// The staged operations that are not on the package with this name.
pub open spec fn without_name(q: Seq<OperationView>, name: Seq<char>) -> Seq<OperationView>
    decreases q.len(),
{
    if q.len() == 0 {
        Seq::empty()
    } else {
        let rest = without_name(q.drop_last(), name);
        if q.last().package_name() == Some(name) {
            rest
        } else {
            rest.push(q.last())
        }
    }
}

/// `s` without any entry equal to `x`.
pub open spec fn without_text(s: Seq<Seq<char>>, x: Seq<char>) -> Seq<Seq<char>>
    decreases s.len(),
{
    if s.len() == 0 {
        Seq::empty()
    } else {
        let rest = without_text(s.drop_last(), x);
        if s.last() == x {
            rest
        } else {
            rest.push(s.last())
        }
    }
}

/// The position of the first package with this name, or -1.
pub open spec fn first_package(s: Seq<PackageView>, name: Seq<char>) -> int
    decreases s.len(),
{
    if s.len() == 0 {
        -1
    } else {
        let i = first_package(s.drop_last(), name);
        if i >= 0 {
            i
        } else if s.last().name == name {
            s.len() - 1
        } else {
            -1
        }
    }
}

/// The status text once the catalog has loaded.
pub open spec fn ready_status(pkgs: Seq<PackageView>) -> Seq<char> {
    "Ready \u{b7} "@ + decimal_spec(installed_count_spec(pkgs)) + " installed \u{b7} "@ + decimal_spec(
        outdated_count_spec(pkgs),
    ) + " outdated"@
}

/// The status text once the queue has run.
pub open spec fn finished_status(failed: usize) -> Seq<char> {
    if failed == 0 {
        "Operations finished successfully \u{b7} refreshing\u{2026}"@
    } else {
        "Stopped after "@ + decimal_spec(failed as nat) + " failed operation"@
    }
}

impl AppView {
    /// The state after the cursor moves by `delta`, kept within the list.
    pub open spec fn moved(self, delta: int) -> AppView {
        let max = if self.item_count() > 0 {
            self.item_count() - 1
        } else {
            0
        };
        AppView { selected: clamp(self.selected + delta, 0, max) as usize, preview_scroll: 0, ..self }
    }

    /// The state after moving `delta` sections along, wrapping around.
    pub open spec fn tab_changed(self, delta: int) -> AppView {
        AppView { tab: tab_at((self.tab.index_spec() + delta) % 5), selected: 0, ..self }
    }

    /// The state after staging or unstaging the package under the cursor:
    /// an operation already staged on it is taken off the queue; otherwise
    /// the operation it calls for is added at the end.
    pub open spec fn stage_toggled(self, sel: Option<PackageView>) -> AppView {
        match sel {
            None => self,
            Some(p) => {
                let i = first_with_name(self.queue, p.name);
                if i >= 0 {
                    AppView { queue: self.queue.remove(i), status: "Unstaged "@ + p.name, ..self }
                } else {
                    let op = operation_for_spec(p);
                    AppView {
                        queue: self.queue.push(op),
                        status: "Staged: "@ + op.summary(),
                        ..self
                    }
                }
            },
        }
    }

    /// The state after pinning or unpinning the package under the cursor:
    /// only an installed formula can be; what was staged on it is replaced
    /// by the pin or unpin.
    pub open spec fn pin_toggled(self, sel: Option<PackageView>) -> AppView {
        match sel {
            None => self,
            Some(p) => if !p.installed || p.kind != PackageKind::Formula {
                AppView { status: "Only installed formulae can be pinned"@, ..self }
            } else {
                let op = if p.pinned {
                    OperationView::Unpin { name: p.name }
                } else {
                    OperationView::Pin { name: p.name }
                };
                AppView {
                    queue: without_name(self.queue, p.name).push(op),
                    status: "Staged: "@ + (if p.pinned {
                        "unpin"@
                    } else {
                        "pin"@
                    }) + " "@ + p.name,
                    ..self
                }
            },
        }
    }

    /// Running the queue: nothing while it is empty or already running;
    /// otherwise the queue is handed over to run, the log cleared and the
    /// failure count reset.
    pub open spec fn queue_run(self) -> (AppView, EffectView) {
        if self.queue.len() == 0 || self.running {
            (self, EffectView::Nothing)
        } else {
            (
                AppView {
                    overlay: Overlay::Hidden,
                    running: true,
                    failed_operations: 0,
                    log: Seq::empty(),
                    queue: Seq::empty(),
                    ..self
                },
                EffectView::RunOperations(self.queue),
            )
        }
    }

    /// Reloading the catalog.
    pub open spec fn refreshed(self) -> (AppView, EffectView) {
        (
            AppView { loading: true, status: "Refreshing Homebrew catalog\u{2026}"@, ..self },
            EffectView::LoadCatalog { force_metadata: false },
        )
    }

    /// Asking for the details of the package under the cursor, once per
    /// package, while the preview shows and the catalog is not loading.
    pub open spec fn detail_requested(self, sel: Option<PackageView>) -> (AppView, EffectView) {
        if !self.preview_visible || self.loading {
            (self, EffectView::Nothing)
        } else {
            match sel {
                None => (self, EffectView::Nothing),
                Some(p) => if self.requested.contains(p.name) {
                    (self, EffectView::Nothing)
                } else {
                    (
                        AppView { requested: self.requested.push(p.name), ..self },
                        EffectView::LoadDetail { name: p.name, kind: p.kind },
                    )
                },
            }
        }
    }

    /// A key with Alt held: toggle the preview or scroll it by three lines.
    pub open spec fn alt_key(self, code: KeyCode) -> AppView {
        match code {
            KeyCode::Char(c) => if c == 'p' {
                AppView { preview_visible: !self.preview_visible, ..self }
            } else if c == 'j' {
                AppView {
                    preview_scroll: if self.preview_scroll as int + 3 > u16::MAX as int {
                        u16::MAX
                    } else {
                        (self.preview_scroll + 3) as u16
                    },
                    ..self
                }
            } else if c == 'k' {
                AppView {
                    preview_scroll: if self.preview_scroll < 3 {
                        0u16
                    } else {
                        (self.preview_scroll - 3) as u16
                    },
                    ..self
                }
            } else {
                self
            },
            _ => self,
        }
    }

    /// A key with Control held: run the queue, pin, refresh, change the
    /// order, update Homebrew, or change section.
    pub open spec fn control_key(self, code: KeyCode, sel: Option<PackageView>) -> (AppView, EffectView) {
        match code {
            KeyCode::Char(c) => if c == 'a' && self.queue.len() > 0 && !self.running {
                self.queue_run()
            } else if c == 'p' && !self.running {
                (self.pin_toggled(sel), EffectView::Nothing)
            } else if c == 'r' && !self.loading && !self.running {
                self.refreshed()
            } else if c == 's' {
                (AppView { sort: self.sort.next_spec(), selected: 0, ..self }, EffectView::Nothing)
            } else if c == 'u' && !self.running {
                AppView { queue: seq![OperationView::Update], ..self }.queue_run()
            } else {
                (self, EffectView::Nothing)
            },
            KeyCode::Left => (self.tab_changed(-1), EffectView::Nothing),
            KeyCode::Right => (self.tab_changed(1), EffectView::Nothing),
            _ => (self, EffectView::Nothing),
        }
    }

    /// A key without modifiers: typing searches; the other keys open help,
    /// stage, run, edit the query, move the cursor or change section.
    pub open spec fn plain_key(self, code: KeyCode, sel: Option<PackageView>) -> (AppView, EffectView) {
        match code {
            KeyCode::Tab => if !self.running {
                (self.stage_toggled(sel), EffectView::Nothing)
            } else {
                (self, EffectView::Nothing)
            },
            KeyCode::Enter => if !self.running {
                let v1 = if self.queue.len() == 0 {
                    self.stage_toggled(sel)
                } else {
                    self
                };
                if v1.queue.len() > 0 {
                    v1.queue_run()
                } else {
                    (v1, EffectView::Nothing)
                }
            } else {
                (self, EffectView::Nothing)
            },
            KeyCode::Backspace => (
                AppView {
                    query: if self.query.len() > 0 {
                        self.query.drop_last()
                    } else {
                        self.query
                    },
                    selected: 0,
                    ..self
                },
                EffectView::Nothing,
            ),
            KeyCode::Down => (self.moved(1), EffectView::Nothing),
            KeyCode::Up => (self.moved(-1), EffectView::Nothing),
            KeyCode::PageDown => (self.moved(10), EffectView::Nothing),
            KeyCode::PageUp => (self.moved(-10), EffectView::Nothing),
            KeyCode::Right => (self.tab_changed(1), EffectView::Nothing),
            KeyCode::Left => (self.tab_changed(-1), EffectView::Nothing),
            KeyCode::BackTab => (self.tab_changed(-1), EffectView::Nothing),
            KeyCode::Esc => if self.query.len() > 0 {
                (AppView { query: Seq::empty(), selected: 0, ..self }, EffectView::Nothing)
            } else {
                (self, EffectView::Nothing)
            },
            KeyCode::Char(c) => if c == '?' {
                (AppView { overlay: Overlay::Help, ..self }, EffectView::Nothing)
            } else if c == ' ' && !self.running {
                (self.stage_toggled(sel), EffectView::Nothing)
            } else if !is_control_spec(c) {
                (AppView { query: self.query.push(c), selected: 0, ..self }, EffectView::Nothing)
            } else {
                (self, EffectView::Nothing)
            },
            _ => (self, EffectView::Nothing),
        }
    }

    /// A key press. Control-Q quits, unless Homebrew is running; with help
    /// shown, Escape, Q and Enter close it and other keys do nothing.
    pub open spec fn after_key(self, key: KeyInput, sel: Option<PackageView>) -> (AppView, EffectView) {
        if key.control && key.code == KeyCode::Char('q') {
            if self.running {
                (
                    AppView {
                        status: "Homebrew is still running; wait for it to finish"@,
                        ..self
                    },
                    EffectView::Nothing,
                )
            } else {
                (AppView { should_quit: true, ..self }, EffectView::Nothing)
            }
        } else if self.overlay == Overlay::Help {
            if key.code == KeyCode::Esc || key.code == KeyCode::Char('q') || key.code
                == KeyCode::Enter {
                (AppView { overlay: Overlay::Hidden, ..self }, EffectView::Nothing)
            } else {
                (self, EffectView::Nothing)
            }
        } else {
            self.global_key(key, sel)
        }
    }

    /// A key press with nothing covering the list: Alt, then Control, then
    /// plain keys.
    pub open spec fn global_key(self, key: KeyInput, sel: Option<PackageView>) -> (AppView, EffectView) {
        if key.alt {
            (self.alt_key(key.code), EffectView::Nothing)
        } else if key.control {
            self.control_key(key.code, sel)
        } else {
            self.plain_key(key.code, sel)
        }
    }

    /// A mouse event: the wheel moves the cursor by three.
    pub open spec fn after_mouse(self, m: MouseInput) -> AppView {
        match m {
            MouseInput::ScrollDown => self.moved(3),
            MouseInput::ScrollUp => self.moved(-3),
            MouseInput::Other => self,
        }
    }

    /// The state once a catalog has loaded: it replaces the old one, the
    /// cursor is kept within the list, and the status counts installed and
    /// outdated packages.
    pub open spec fn catalog_loaded(self, c: Catalog) -> AppView {
        let pkgs = views(c.packages@);
        let v1 = AppView {
            packages: pkgs,
            taps: crate::model::texts(c.taps@),
            requested: Seq::empty(),
            loading: false,
            ..self
        };
        let max = if v1.item_count() > 0 {
            v1.item_count() - 1
        } else {
            0
        };
        AppView {
            selected: if (self.selected as int) < max {
                self.selected
            } else {
                max as usize
            },
            status: ready_status(pkgs),
            ..v1
        }
    }

    /// A background event.
    pub open spec fn after_event(self, event: WorkerEvent) -> (AppView, EffectView) {
        match event {
            WorkerEvent::CatalogLoaded(Ok(c)) => (self.catalog_loaded(c), EffectView::Nothing),
            WorkerEvent::CatalogLoaded(Err(e)) => (
                AppView { loading: false, status: e@, ..self },
                EffectView::Nothing,
            ),
            WorkerEvent::DetailLoaded { requested_name, result, .. } => match result {
                Ok(d) => {
                    let i = first_package(self.packages, requested_name@);
                    if i >= 0 {
                        let old = self.packages[i];
                        (
                            AppView {
                                packages: self.packages.update(
                                    i,
                                    PackageView {
                                        installed: d@.installed || old.installed,
                                        outdated: d@.outdated || old.outdated,
                                        ..d@
                                    },
                                ),
                                ..self
                            },
                            EffectView::Nothing,
                        )
                    } else {
                        (self, EffectView::Nothing)
                    }
                },
                Err(_) => (
                    AppView { requested: without_text(self.requested, requested_name@), ..self },
                    EffectView::Nothing,
                ),
            },
            WorkerEvent::Log(line) => {
                let l = self.log.push(line@);
                (
                    AppView {
                        log: if l.len() > 2000 {
                            l.skip(500)
                        } else {
                            l
                        },
                        ..self
                    },
                    EffectView::Nothing,
                )
            },
            WorkerEvent::OperationStarted(summary) => (
                AppView { status: "Running: "@ + summary@, ..self },
                EffectView::Nothing,
            ),
            WorkerEvent::OperationFinished { summary, success } => (
                AppView {
                    log: self.log.push(
                        (if success {
                            "\u{2713}"@
                        } else {
                            "\u{2717}"@
                        }) + " "@ + summary@,
                    ),
                    failed_operations: if success {
                        self.failed_operations
                    } else {
                        (self.failed_operations + 1) as usize
                    },
                    ..self
                },
                EffectView::Nothing,
            ),
            WorkerEvent::QueueFinished => AppView {
                running: false,
                status: finished_status(self.failed_operations),
                ..self
            }.refreshed(),
        }
    }

    /// What an event asks of the state's limits.
    pub open spec fn event_fits(self, event: WorkerEvent) -> bool {
        match event {
            WorkerEvent::CatalogLoaded(Ok(c)) => AppView {
                packages: views(c.packages@),
                taps: crate::model::texts(c.taps@),
                ..self
            }.fits(),
            WorkerEvent::OperationFinished { success, .. } => success || self.failed_operations
                < usize::MAX,
            WorkerEvent::DetailLoaded { result: Ok(d), .. } => d@.name.len() <= u32::MAX,
            _ => true,
        }
    }
}


// ---------------------------------------------------------------------------
// Executable parts
// ---------------------------------------------------------------------------

/// Whether a section lists a package.
fn admits(tab: Tab, p: &Package) -> (r: bool)
    ensures
        r == tab_admits(tab, p@),
{
    match tab {
        Tab::Browse => true,
        Tab::Installed => p.installed,
        Tab::Outdated => p.outdated,
        Tab::Casks => p.kind == PackageKind::Cask,
        Tab::Taps => false,
    }
}

/// Whether entry `a` is listed strictly before entry `b`.
fn entry_less(pkgs: &Vec<Package>, by_score: bool, sort: SortMode, a: (usize, i64), b: (usize, i64)) -> (r:
    bool)
    ensures
        r == entry_before(views(pkgs@), by_score, sort, a, b),
{
    let na: &str = if a.0 < pkgs.len() {
        pkgs[a.0].name.as_str()
    } else {
        ""
    };
    let nb: &str = if b.0 < pkgs.len() {
        pkgs[b.0].name.as_str()
    } else {
        ""
    };
    let (ka0, ka1, kb0, kb1): (i64, i64, i64, i64) = if by_score {
        (0, 0, 0, 0)
    } else {
        let pa_outdated = a.0 < pkgs.len() && pkgs[a.0].outdated;
        let pa_installed = a.0 < pkgs.len() && pkgs[a.0].installed;
        let pa_cask = a.0 < pkgs.len() && pkgs[a.0].kind == PackageKind::Cask;
        let pb_outdated = b.0 < pkgs.len() && pkgs[b.0].outdated;
        let pb_installed = b.0 < pkgs.len() && pkgs[b.0].installed;
        let pb_cask = b.0 < pkgs.len() && pkgs[b.0].kind == PackageKind::Cask;
        match sort {
            SortMode::Name => (0, 0, 0, 0),
            SortMode::Status => (
                if pa_outdated {
                    0
                } else {
                    1
                },
                if pa_installed {
                    0
                } else {
                    1
                },
                if pb_outdated {
                    0
                } else {
                    1
                },
                if pb_installed {
                    0
                } else {
                    1
                },
            ),
            SortMode::Kind => (
                if pa_cask {
                    0
                } else {
                    1
                },
                0,
                if pb_cask {
                    0
                } else {
                    1
                },
                0,
            ),
        }
    };
    proof {
        reveal_strlit("");
        if (a.0 as int) < pkgs@.len() {
            assert(views(pkgs@)[a.0 as int] == pkgs@[a.0 as int]@);
        }
        if (b.0 as int) < pkgs@.len() {
            assert(views(pkgs@)[b.0 as int] == pkgs@[b.0 as int]@);
        }
        assert(na@ == entry_key(views(pkgs@), by_score, sort, a).2);
        assert(nb@ == entry_key(views(pkgs@), by_score, sort, b).2);
    }
    let r = if by_score && a.1 != b.1 {
        a.1 > b.1
    } else if ka0 != kb0 {
        ka0 < kb0
    } else if ka1 != kb1 {
        ka1 < kb1
    } else if text_less(na, nb) {
        true
    } else if same_text(na, nb) {
        a.0 < b.0
    } else {
        false
    };
    r
}

/// `s` with the first match for `name` found by scanning from the front.
proof fn lemma_first_with_name(q: Seq<OperationView>, name: Seq<char>, i: int)
    requires
        0 <= i <= q.len(),
        forall|j: int| 0 <= j < i ==> q[j].package_name() != Some(name),
        i < q.len() ==> q[i].package_name() == Some(name),
    ensures
        first_with_name(q, name) == (if i < q.len() {
            i
        } else {
            -1
        }),
    decreases q.len(),
{
    if q.len() > 0 {
        let q0 = q.drop_last();
        if i < q.len() - 1 {
            lemma_first_with_name(q0, name, i);
        } else {
            lemma_first_with_name(q0, name, q0.len() as int);
        }
    }
}

proof fn lemma_first_package(s: Seq<PackageView>, name: Seq<char>, i: int)
    requires
        0 <= i <= s.len(),
        forall|j: int| 0 <= j < i ==> s[j].name != name,
        i < s.len() ==> s[i].name == name,
    ensures
        first_package(s, name) == (if i < s.len() {
            i
        } else {
            -1
        }),
    decreases s.len(),
{
    if s.len() > 0 {
        let s0 = s.drop_last();
        if i < s.len() - 1 {
            lemma_first_package(s0, name, i);
        } else {
            lemma_first_package(s0, name, s0.len() as int);
        }
    }
}

/// The position of the first staged operation on the package named `name`.
fn find_staged(queue: &Vec<Operation>, name: &str) -> (r: Option<usize>)
    ensures
        match r {
            Some(i) => i < queue@.len() && first_with_name(op_views(queue@), name@) == i,
            None => first_with_name(op_views(queue@), name@) == -1,
        },
{
    let ghost q = op_views(queue@);
    let mut i: usize = 0;
    while i < queue.len()
        invariant
            q == op_views(queue@),
            i <= q.len(),
            forall|j: int| 0 <= j < i ==> q[j].package_name() != Some(name@),
        decreases q.len() - i,
    {
        let hit = match queue[i].package_name() {
            Some(n) => same_text(n, name),
            None => false,
        };
        if hit {
            proof {
                lemma_first_with_name(q, name@, i as int);
            }
            return Some(i);
        }
        i = i + 1;
    }
    proof {
        lemma_first_with_name(q, name@, i as int);
    }
    None
}

/// The position of the first string in `v` holding the text of `s`.
fn find_text(v: &Vec<String>, s: &str) -> (r: Option<usize>)
    ensures
        match r {
            Some(i) => i < v@.len() && v@[i as int]@ == s@,
            None => !crate::model::texts(v@).contains(s@),
        },
{
    let mut i: usize = 0;
    while i < v.len()
        invariant
            i <= v@.len(),
            forall|j: int| 0 <= j < i ==> v@[j]@ != s@,
        decreases v@.len() - i,
    {
        if same_text(v[i].as_str(), s) {
            return Some(i);
        }
        i = i + 1;
    }
    proof {
        if crate::model::texts(v@).contains(s@) {
            let j = choose|j: int| 0 <= j < v@.len() && crate::model::texts(v@)[j] == s@;
            assert(v@[j]@ == s@);
        }
    }
    None
}

/// The position of the first package with this name.
fn find_package(pkgs: &Vec<Package>, name: &str) -> (r: Option<usize>)
    ensures
        match r {
            Some(i) => i < pkgs@.len() && first_package(views(pkgs@), name@) == i,
            None => first_package(views(pkgs@), name@) == -1,
        },
{
    let ghost s = views(pkgs@);
    let mut i: usize = 0;
    while i < pkgs.len()
        invariant
            s == views(pkgs@),
            i <= s.len(),
            forall|j: int| 0 <= j < i ==> s[j].name != name@,
        decreases s.len() - i,
    {
        let p = &pkgs[i];
        assert(s[i as int] == p@);
        if same_text(p.name.as_str(), name) {
            proof {
                lemma_first_package(s, name@, i as int);
            }
            return Some(i);
        }
        i = i + 1;
    }
    proof {
        lemma_first_package(s, name@, i as int);
    }
    None
}

impl App {
    /// A fresh application: an empty catalog that is loading, the browse
    /// section, no query, nothing staged, the preview shown.
    pub fn new() -> (app: App)
        ensures
            app@ == (AppView {
                packages: Seq::empty(),
                taps: Seq::empty(),
                tab: Tab::Browse,
                selected: 0,
                query: Seq::empty(),
                overlay: Overlay::Hidden,
                sort: SortMode::Name,
                queue: Seq::empty(),
                log: Seq::empty(),
                loading: true,
                running: false,
                status: "Loading Homebrew catalog\u{2026}"@,
                should_quit: false,
                failed_operations: 0,
                preview_visible: true,
                preview_scroll: 0,
                requested: Seq::empty(),
            }),
    {
        let app = App {
            catalog: Catalog::default(),
            tab: Tab::Browse,
            selected: 0,
            query: String::new(),
            overlay: Overlay::Hidden,
            sort: SortMode::Name,
            queue: Vec::new(),
            log: Vec::new(),
            loading: true,
            running: false,
            status: owned("Loading Homebrew catalog\u{2026}"),
            should_quit: false,
            failed_operations: 0,
            preview_visible: true,
            preview_scroll: 0,
            detail_requested: Vec::new(),
        };
        assert(app@.packages =~= Seq::<PackageView>::empty());
        assert(app@.taps =~= Seq::<Seq<char>>::empty());
        assert(app@.queue =~= Seq::<OperationView>::empty());
        assert(app@.log =~= Seq::<Seq<char>>::empty());
        assert(app@.requested =~= Seq::<Seq<char>>::empty());
        app
    }

    /// Starts from a catalog kept from an earlier run, while the current one
    /// loads.
    pub fn use_cached_catalog(&mut self, catalog: Catalog)
        ensures
            final(self)@ == (AppView {
                packages: views(catalog.packages@),
                taps: crate::model::texts(catalog.taps@),
                ..old(self)@
            }),
    {
        self.catalog = catalog;
    }

    /// Whether the state is within the limits that answering keys, the mouse
    /// and events needs.
    pub fn within_limits(&self) -> (r: bool)
        ensures
            r == self@.fits(),
    {
        catalog_fits(&self.catalog, self.selected)
    }

    /// Whether the state, and the event, are within the limits that answering
    /// the event needs.
    pub fn accepts(&self, event: &WorkerEvent) -> (r: bool)
        ensures
            r == (self@.fits() && self@.event_fits(*event)),
    {
        if !catalog_fits(&self.catalog, self.selected) {
            return false;
        }
        match event {
            WorkerEvent::CatalogLoaded(Ok(c)) => catalog_fits(c, self.selected),
            WorkerEvent::OperationFinished { success, .. } => *success || self.failed_operations
                < usize::MAX,
            WorkerEvent::DetailLoaded { result: Ok(d), .. } => {
                crate::text::chars_of(d.name.as_str()).len() <= (u32::MAX as usize)
            },
            _ => true,
        }
    }

    /// The listed packages in catalog order, with their scores.
    fn candidate_entries(&self) -> (r: Vec<(usize, i64)>)
        requires
            self@.fits(),
        ensures
            r@ == candidates(self@.packages, self@.tab, self@.query),
    {
        let ghost v = self@;
        let mut r: Vec<(usize, i64)> = Vec::new();
        let mut i: usize = 0;
        while i < self.catalog.packages.len()
            invariant
                v == self@,
                v.fits(),
                i <= v.packages.len(),
                r@ == candidates(v.packages.take(i as int), v.tab, v.query),
            decreases v.packages.len() - i,
        {
            let p = &self.catalog.packages[i];
            proof {
                assert(v.packages.take(i + 1).drop_last() == v.packages.take(i as int));
                assert(v.packages.take(i + 1).last() == p@);
                assert(v.packages[i as int].name.len() <= u32::MAX);
            }
            if admits(self.tab, p) {
                match fuzzy_score(p.name.as_str(), self.query.as_str()) {
                    Some(s) => {
                        r.push((i, s));
                    },
                    None => {},
                }
            }
            i = i + 1;
        }
        assert(v.packages.take(v.packages.len() as int) == v.packages);
        r
    }

    /// The listed packages with their scores, in listing order.
    fn ranked_entries(&self) -> (r: Vec<(usize, i64)>)
        requires
            self@.fits(),
        ensures
            self@.is_ranking(r@),
    {
        let entries = self.candidate_entries();
        let pkgs = &self.catalog.packages;
        let by_score = !self.query.as_str().is_empty();
        let sort = self.sort;
        let before = |a: &(usize, i64), b: &(usize, i64)| -> (x: bool)
            ensures
                x == entry_before(views(pkgs@), by_score, sort, *a, *b),
            { entry_less(pkgs, by_score, sort, *a, *b) };
        proof {
            lemma_entry_order(self@);
        }
        let r = merge_sort(entries, &before, Ghost(listing_order(self@)));
        r
    }

    /// The catalog positions of the listed packages, in listing order: best
    /// match first when there is a query, else by the sort mode, then by name.
    pub fn filtered_indices(&self) -> (r: Vec<usize>)
        requires
            self@.fits(),
        ensures
            r@ == Seq::new(self@.listing().len(), |k: int| self@.listing()[k].0),
    {
        proof {
            law_listing_is_the_ranking(self@);
        }
        let entries = self.ranked_entries();
        let mut r: Vec<usize> = Vec::new();
        let mut k: usize = 0;
        while k < entries.len()
            invariant
                k <= entries@.len(),
                r@ == Seq::new(k as nat, |j: int| entries@[j].0),
            decreases entries@.len() - k,
        {
            r.push(entries[k].0);
            k = k + 1;
            assert(r@ =~= Seq::new(k as nat, |j: int| entries@[j].0));
        }
        assert(self@.is_ranking(entries@) && r@ == Seq::new(entries@.len(), |j: int| entries@[j].0));
        r
    }

    /// The package under the cursor, if the cursor is on a listed package.
    pub fn selected_package(&self) -> (r: Option<&Package>)
        requires
            self@.fits(),
        ensures
            match r {
                Some(p) => self@.selection() == Some(p@),
                None => self@.selection() is None,
            },
    {
        proof {
            law_listing_is_the_ranking(self@);
        }
        let entries = self.ranked_entries();
        proof {
            lemma_ranking_bounds(self@, entries@);
        }
        if self.selected < entries.len() {
            let i = entries[self.selected].0;
            let r = Some(&self.catalog.packages[i]);
            assert(self@.is_ranking(entries@) && self@.chosen(entries@) == Some(self.catalog.packages@[i as int]@));
            r
        } else {
            assert(self@.is_ranking(entries@) && self@.chosen(entries@) is None);
            None
        }
    }

    /// The number of listed items.
    fn item_count(&self) -> (r: usize)
        requires
            self@.fits(),
        ensures
            r == self@.item_count(),
            r + 10 <= isize::MAX,
    {
        proof {
            lemma_candidates_bounds(self@.packages, self@.tab, self@.query);
        }
        if self.tab == Tab::Taps {
            self.catalog.taps.len()
        } else {
            self.candidate_entries().len()
        }
    }

    /// Moves the cursor by `delta`, keeping it within the list.
    fn move_selection(&mut self, delta: isize)
        requires
            old(self)@.fits(),
            isize::MIN <= old(self)@.selected + delta <= isize::MAX,
        ensures
            final(self)@ == old(self)@.moved(delta as int),
            final(self)@.fits(),
    {
        let count = self.item_count();
        let max: usize = if count > 0 {
            count - 1
        } else {
            0
        };
        let sel = self.selected;
        let target: usize = if delta >= 0 {
            let d = delta as usize;
            if sel + d > max {
                max
            } else {
                sel + d
            }
        } else {
            let d = (-1 - delta) as usize + 1;
            let lowered = if sel >= d {
                sel - d
            } else {
                0
            };
            if lowered > max {
                max
            } else {
                lowered
            }
        };
        self.selected = target;
        self.preview_scroll = 0;
    }

    /// Moves `delta` sections along, wrapping around, and puts the cursor at
    /// the top.
    fn change_tab(&mut self, delta: isize)
        requires
            delta == 1 || delta == -1,
            old(self)@.fits(),
        ensures
            final(self)@ == old(self)@.tab_changed(delta as int),
            final(self)@.fits(),
    {
        let current = self.tab.index();
        let next = if delta > 0 {
            (current + 1) % 5
        } else {
            (current + 4) % 5
        };
        self.tab = Tab::at(next);
        self.selected = 0;
    }

    /// Stages the operation the package under the cursor calls for, or
    /// unstages the one staged on it.
    fn toggle_stage(&mut self)
        requires
            old(self)@.fits(),
        ensures
            final(self)@ == old(self)@.stage_toggled(old(self)@.selection()),
            final(self)@.fits(),
    {
        let ghost v = self@;
        proof {
            law_listing_is_the_ranking(v);
        }
        let package = match self.selected_package() {
            Some(p) => p.duplicate(),
            None => {
                return;
            },
        };
        let ghost e = choose|e: Seq<(usize, i64)>| v.is_ranking(e) && v.chosen(e) == Some(package@);
        match find_staged(&self.queue, package.name.as_str()) {
            Some(i) => {
                self.queue.remove(i);
                self.status = concat("Unstaged ", package.name.as_str());
                assert(self@.queue =~= v.queue.remove(i as int));
            },
            None => {
                let operation = operation_for(&package);
                let summary = operation.summary();
                self.status = concat("Staged: ", summary.as_str());
                self.queue.push(operation);
                assert(self@.queue =~= v.queue.push(operation_for_spec(package@)));
            },
        }
        assert(self@ == v.stage_toggled(v.chosen(e)));
    }

    /// Hands the staged operations over to run, unless nothing is staged or
    /// Homebrew is already running.
    fn run_queue(&mut self) -> (r: Effect)
        ensures
            (final(self)@, r@) == old(self)@.queue_run(),
    {
        if self.queue.len() == 0 || self.running {
            return Effect::Nothing;
        }
        self.overlay = Overlay::Hidden;
        self.running = true;
        self.failed_operations = 0;
        self.log.clear();
        let mut operations: Vec<Operation> = Vec::new();
        std::mem::swap(&mut operations, &mut self.queue);
        assert(self@.queue =~= Seq::<OperationView>::empty());
        assert(self@.log =~= Seq::<Seq<char>>::empty());
        Effect::RunOperations(operations)
    }

    /// Stages pinning or unpinning the package under the cursor, replacing
    /// what was staged on it; only installed formulae can be pinned.
    fn toggle_pin(&mut self)
        requires
            old(self)@.fits(),
        ensures
            final(self)@ == old(self)@.pin_toggled(old(self)@.selection()),
            final(self)@.fits(),
    {
        let ghost v = self@;
        proof {
            law_listing_is_the_ranking(v);
        }
        let package = match self.selected_package() {
            Some(p) => p.duplicate(),
            None => {
                return;
            },
        };
        let ghost e = choose|e: Seq<(usize, i64)>| v.is_ranking(e) && v.chosen(e) == Some(package@);
        if !package.installed || package.kind != PackageKind::Formula {
            self.status = owned("Only installed formulae can be pinned");
            return;
        }
        let mut old_queue: Vec<Operation> = Vec::new();
        std::mem::swap(&mut old_queue, &mut self.queue);
        let ghost q = op_views(old_queue@);
        let mut kept: Vec<Operation> = Vec::new();
        for operation in it: old_queue
            invariant
                q == op_views(it.seq()),
                op_views(kept@) == without_name(q.take(it.index() as int), package@.name),
        {
            let ghost idx = it.index() as int;
            proof {
                assert(q.take(idx + 1).drop_last() == q.take(idx));
                assert(q.take(idx + 1).last() == operation@);
            }
            let same = match operation.package_name() {
                Some(n) => same_text(n, package.name.as_str()),
                None => false,
            };
            if !same {
                let ghost before = op_views(kept@);
                kept.push(operation);
                assert(op_views(kept@) =~= before.push(operation@));
            }
        }
        assert(q.take(q.len() as int) == q);
        let pin = if package.pinned {
            Operation::Unpin { name: package.name.clone() }
        } else {
            Operation::Pin { name: package.name.clone() }
        };
        let ghost kept_v = op_views(kept@);
        kept.push(pin);
        assert(op_views(kept@) =~= kept_v.push(pin@));
        self.queue = kept;
        let verb = if package.pinned {
            "unpin"
        } else {
            "pin"
        };
        let head = concat("Staged: ", verb);
        let head = concat(head.as_str(), " ");
        self.status = concat(head.as_str(), package.name.as_str());
        assert(self@ == v.pin_toggled(v.chosen(e)));
    }

    /// Starts reloading the catalog.
    pub fn refresh(&mut self) -> (r: Effect)
        ensures
            (final(self)@, r@) == old(self)@.refreshed(),
    {
        self.loading = true;
        self.status = owned("Refreshing Homebrew catalog\u{2026}");
        Effect::LoadCatalog { force_metadata: false }
    }

    /// Asks once for the details of the package under the cursor, while the
    /// preview shows and the catalog is not loading.
    pub fn request_selected_detail(&mut self) -> (r: Effect)
        requires
            old(self)@.fits(),
        ensures
            (final(self)@, r@) == old(self)@.detail_requested(old(self)@.selection()),
    {
        let ghost v = self@;
        proof {
            law_listing_is_the_ranking(v);
            lemma_ranking_exists(v);
        }
        if !self.preview_visible || self.loading {
            return Effect::Nothing;
        }
        let (name, kind) = match self.selected_package() {
            Some(p) => (p.name.clone(), p.kind),
            None => {
                return Effect::Nothing;
            },
        };
        let ghost e = choose|e: Seq<(usize, i64)>|
            v.is_ranking(e) && v.chosen(e) is Some && v.chosen(e)->0.name == name@
                && v.chosen(e)->0.kind == kind;
        match find_text(&self.detail_requested, name.as_str()) {
            Some(i) => {
                assert(v.requested[i as int] == name@);
                assert(v.requested.contains(name@));
                return Effect::Nothing;
            },
            None => {},
        }
        assert(!v.requested.contains(name@));
        self.detail_requested.push(name.clone());
        assert(self@.requested =~= v.requested.push(name@));
        Effect::LoadDetail { name, kind }
    }

    /// The names of the packages that staged operations act on, each once,
    /// in queue order.
    pub fn staged_names(&self) -> (r: Vec<String>)
        ensures
            crate::model::texts(r@).no_duplicates(),
            forall|n: Seq<char>|
                crate::model::texts(r@).contains(n) <==> exists|i: int|
                    0 <= i < self@.queue.len() && #[trigger] self@.queue[i].package_name() == Some(n),
    {
        let ghost q = self@.queue;
        let mut r: Vec<String> = Vec::new();
        let mut i: usize = 0;
        while i < self.queue.len()
            invariant
                q == self@.queue,
                i <= q.len(),
                crate::model::texts(r@).no_duplicates(),
                forall|n: Seq<char>|
                    crate::model::texts(r@).contains(n) <==> exists|k: int|
                        0 <= k < i && #[trigger] q[k].package_name() == Some(n),
            decreases q.len() - i,
        {
            let ghost before = crate::model::texts(r@);
            assert(q[i as int] == self.queue@[i as int]@);
            match self.queue[i].package_name() {
                Some(n) => {
                    match find_text(&r, n) {
                        Some(k) => {
                            assert(before[k as int] == n@);
                        },
                        None => {
                            r.push(owned(n));
                            assert(crate::model::texts(r@) =~= before.push(n@));
                            assert(crate::model::texts(r@).no_duplicates()) by {
                                assert forall|a: int, b: int|
                                    0 <= a < b < crate::model::texts(r@).len() implies crate::model::texts(r@)[a]
                                    != crate::model::texts(r@)[b] by {
                                    if b == before.len() {
                                        assert(before.contains(before[a]));
                                    }
                                }
                            }
                        },
                    }
                    assert forall|m: Seq<char>|
                        crate::model::texts(r@).contains(m) <==> exists|k: int|
                            0 <= k < i + 1 && #[trigger] q[k].package_name() == Some(m) by {
                        if exists|k: int| 0 <= k < i + 1 && #[trigger] q[k].package_name() == Some(m) {
                            let k = choose|k: int| 0 <= k < i + 1 && #[trigger] q[k].package_name() == Some(m);
                            if k < i {
                                assert(before.contains(m));
                                let w = choose|w: int| 0 <= w < before.len() && before[w] == m;
                                assert(crate::model::texts(r@)[w] == m);
                            } else {
                                assert(m == n@);
                                if !before.contains(m) {
                                    assert(crate::model::texts(r@)[before.len() as int] == m);
                                } else {
                                    let w = choose|w: int| 0 <= w < before.len() && before[w] == m;
                                    assert(crate::model::texts(r@)[w] == m);
                                }
                            }
                        }
                        if crate::model::texts(r@).contains(m) {
                            let w = choose|w: int| 0 <= w < crate::model::texts(r@).len() && crate::model::texts(r@)[w] == m;
                            if w < before.len() {
                                assert(before[w] == m);
                                assert(before.contains(m));
                            } else {
                                assert(q[i as int].package_name() == Some(m));
                            }
                        }
                    }
                },
                None => {
                    assert forall|m: Seq<char>|
                        crate::model::texts(r@).contains(m) <==> exists|k: int|
                            0 <= k < i + 1 && #[trigger] q[k].package_name() == Some(m) by {
                        if exists|k: int| 0 <= k < i + 1 && #[trigger] q[k].package_name() == Some(m) {
                            let k = choose|k: int| 0 <= k < i + 1 && #[trigger] q[k].package_name() == Some(m);
                            assert(k < i);
                        }
                    }
                },
            }
            i = i + 1;
        }
        r
    }

    /// Answers a key press when no dialog is open.
    #[verifier::rlimit(40)]
    fn handle_global_key(&mut self, key: KeyInput) -> (r: Effect)
        requires
            old(self)@.fits(),
        ensures
            (final(self)@, r@) == old(self)@.global_key(key, old(self)@.selection()),
            final(self)@.fits(),
    {
        let ghost v = self@;
        proof {
            law_listing_is_the_ranking(v);
            lemma_ranking_exists(v);
        }
        let ghost e0 = choose|e: Seq<(usize, i64)>| v.is_ranking(e);
        if key.alt {
            match key.code {
                KeyCode::Char(c) => {
                    if c == 'p' {
                        self.preview_visible = !self.preview_visible;
                    } else if c == 'j' {
                        self.preview_scroll = if self.preview_scroll > u16::MAX - 3 {
                            u16::MAX
                        } else {
                            self.preview_scroll + 3
                        };
                    } else if c == 'k' {
                        self.preview_scroll = if self.preview_scroll < 3 {
                            0
                        } else {
                            self.preview_scroll - 3
                        };
                    }
                },
                _ => {},
            }
            assert(v.is_ranking(e0) && (self@, Effect::Nothing@) == v.global_key(key, v.chosen(e0)));
            return Effect::Nothing;
        }
        if key.control {
            match key.code {
                KeyCode::Char(c) => {
                    if c == 'a' && self.queue.len() > 0 && !self.running {
                        let r = self.run_queue();
                        assert(v.is_ranking(e0) && (self@, r@) == v.global_key(key, v.chosen(e0)));
                        return r;
                    } else if c == 'p' && !self.running {
                        self.toggle_pin();
                        let ghost e = choose|e: Seq<(usize, i64)>|
                            v.is_ranking(e) && self@ == v.pin_toggled(v.chosen(e));
                        assert(v.is_ranking(e) && (self@, Effect::Nothing@) == v.global_key(key, v.chosen(e)));
                        return Effect::Nothing;
                    } else if c == 'r' && !self.loading && !self.running {
                        let r = self.refresh();
                        assert(v.is_ranking(e0) && (self@, r@) == v.global_key(key, v.chosen(e0)));
                        return r;
                    } else if c == 's' {
                        self.sort = self.sort.next();
                        self.selected = 0;
                    } else if c == 'u' && !self.running {
                        self.queue = vec![Operation::Update];
                        let ghost v1 = self@;
                        assert(v1.queue =~= seq![OperationView::Update]);
                        assert(v1 == AppView { queue: seq![OperationView::Update], ..v });
                        let r = self.run_queue();
                        assert(v.is_ranking(e0) && (self@, r@) == v.global_key(key, v.chosen(e0)));
                        return r;
                    }
                },
                KeyCode::Left => {
                    self.change_tab(-1);
                },
                KeyCode::Right => {
                    self.change_tab(1);
                },
                _ => {},
            }
            assert(v.is_ranking(e0) && (self@, Effect::Nothing@) == v.global_key(key, v.chosen(e0)));
            return Effect::Nothing;
        }
        match key.code {
            KeyCode::Tab => {
                if !self.running {
                    self.toggle_stage();
                    let ghost e = choose|e: Seq<(usize, i64)>|
                        v.is_ranking(e) && self@ == v.stage_toggled(v.chosen(e));
                    assert(v.is_ranking(e) && (self@, Effect::Nothing@) == v.global_key(key, v.chosen(e)));
                    return Effect::Nothing;
                }
            },
            KeyCode::Enter => {
                if !self.running {
                    let ghost mut e = e0;
                    if self.queue.len() == 0 {
                        self.toggle_stage();
                        proof {
                            e = choose|e: Seq<(usize, i64)>|
                                v.is_ranking(e) && self@ == v.stage_toggled(v.chosen(e));
                        }
                    }
                    if self.queue.len() > 0 {
                        let r = self.run_queue();
                        assert(v.is_ranking(e) && (self@, r@) == v.global_key(key, v.chosen(e)));
                        return r;
                    }
                    assert(v.is_ranking(e) && (self@, Effect::Nothing@) == v.global_key(key, v.chosen(e)));
                    return Effect::Nothing;
                }
            },
            KeyCode::Backspace => {
                let mut chars = crate::text::chars_of(self.query.as_str());
                chars.pop();
                self.query = crate::text::string_of(&chars);
                self.selected = 0;
                assert(self@.query =~= (if v.query.len() > 0 {
                    v.query.drop_last()
                } else {
                    v.query
                }));
            },
            KeyCode::Down => {
                self.move_selection(1);
            },
            KeyCode::Up => {
                self.move_selection(-1);
            },
            KeyCode::PageDown => {
                self.move_selection(10);
            },
            KeyCode::PageUp => {
                self.move_selection(-10);
            },
            KeyCode::Right => {
                self.change_tab(1);
            },
            KeyCode::Left => {
                self.change_tab(-1);
            },
            KeyCode::BackTab => {
                self.change_tab(-1);
            },
            KeyCode::Esc => {
                if !self.query.as_str().is_empty() {
                    self.query = String::new();
                    self.selected = 0;
                }
            },
            KeyCode::Char(c) => {
                if c == '?' {
                    self.overlay = Overlay::Help;
                } else if c == ' ' && !self.running {
                    self.toggle_stage();
                    let ghost e = choose|e: Seq<(usize, i64)>|
                        v.is_ranking(e) && self@ == v.stage_toggled(v.chosen(e));
                    assert(v.is_ranking(e) && (self@, Effect::Nothing@) == v.global_key(key, v.chosen(e)));
                    return Effect::Nothing;
                } else if !is_control(c) {
                    push_char(&mut self.query, c);
                    self.selected = 0;
                }
            },
            _ => {},
        }
        assert(v.is_ranking(e0) && (self@, Effect::Nothing@) == v.global_key(key, v.chosen(e0)));
        Effect::Nothing
    }

    /// Answers a key press; see [`AppView::after_key`].
    pub fn handle_key(&mut self, key: KeyInput) -> (r: Effect)
        requires
            old(self)@.fits(),
        ensures
            (final(self)@, r@) == old(self)@.after_key(key, old(self)@.selection()),
            final(self)@.fits(),
    {
        let ghost v = self@;
        proof {
            law_listing_is_the_ranking(v);
            lemma_ranking_exists(v);
        }
        let ghost e0 = choose|e: Seq<(usize, i64)>| v.is_ranking(e);
        let quit = key.control && match key.code {
            KeyCode::Char(c) => c == 'q',
            _ => false,
        };
        if quit {
            if self.running {
                self.status = owned("Homebrew is still running; wait for it to finish");
            } else {
                self.should_quit = true;
            }
            assert(v.is_ranking(e0) && (self@, Effect::Nothing@) == v.after_key(key, v.chosen(e0)));
            return Effect::Nothing;
        }
        match self.overlay {
            Overlay::Help => {
                let close = match key.code {
                    KeyCode::Esc => true,
                    KeyCode::Char(c) => c == 'q',
                    KeyCode::Enter => true,
                    _ => false,
                };
                if close {
                    self.overlay = Overlay::Hidden;
                }
                assert(v.is_ranking(e0) && (self@, Effect::Nothing@) == v.after_key(key, v.chosen(e0)));
                Effect::Nothing
            },
            Overlay::Hidden => {
                let r = self.handle_global_key(key);
                let ghost e = choose|e: Seq<(usize, i64)>|
                    v.is_ranking(e) && (self@, r@) == v.global_key(key, v.chosen(e));
                assert(v.is_ranking(e) && (self@, r@) == v.after_key(key, v.chosen(e)));
                r
            },
        }
    }

    /// Answers a mouse event: the wheel moves the cursor by three.
    pub fn handle_mouse(&mut self, event: MouseInput)
        requires
            old(self)@.fits(),
        ensures
            final(self)@ == old(self)@.after_mouse(event),
            final(self)@.fits(),
    {
        match event {
            MouseInput::ScrollDown => self.move_selection(3),
            MouseInput::ScrollUp => self.move_selection(-3),
            MouseInput::Other => {},
        }
    }

    /// Takes in a freshly loaded catalog.
    fn catalog_loaded(&mut self, catalog: Catalog)
        requires
            (AppView {
                packages: views(catalog.packages@),
                taps: crate::model::texts(catalog.taps@),
                ..old(self)@
            }).fits(),
        ensures
            final(self)@ == old(self)@.catalog_loaded(catalog),
            final(self)@.fits(),
    {
        let ghost v = self@;
        let ghost c = catalog;
        self.catalog = catalog;
        self.detail_requested.clear();
        self.loading = false;
        assert(self@.requested =~= Seq::<Seq<char>>::empty());
        let count = self.item_count();
        let max: usize = if count > 0 {
            count - 1
        } else {
            0
        };
        if self.selected >= max {
            self.selected = max;
        }
        let mut status = owned("Ready \u{b7} ");
        push_decimal(&mut status, self.catalog.installed_count());
        status.append(" installed \u{b7} ");
        push_decimal(&mut status, self.catalog.outdated_count());
        status.append(" outdated");
        self.status = status;
        assert(self@ == v.catalog_loaded(c));
    }

    /// Takes in the details loaded for a package.
    fn details_loaded(&mut self, requested_name: String, requested_kind: PackageKind, details: Package)
        requires
            old(self)@.fits(),
            details@.name.len() <= u32::MAX,
        ensures
            final(self)@ == old(self)@.after_event(
                WorkerEvent::DetailLoaded { requested_name, requested_kind, result: Ok(details) },
            ).0,
            final(self)@.fits(),
    {
        let ghost v = self@;
        let ghost d = details@;
        match find_package(&self.catalog.packages, requested_name.as_str()) {
            Some(i) => {
                let installed = self.catalog.packages[i].installed;
                let outdated = self.catalog.packages[i].outdated;
                assert(v.packages[i as int] == self.catalog.packages@[i as int]@);
                let mut package = details;
                package.installed = package.installed || installed;
                package.outdated = package.outdated || outdated;
                self.catalog.packages.set(i, package);
                assert(self@.packages =~= v.packages.update(
                    i as int,
                    PackageView {
                        installed: d.installed || v.packages[i as int].installed,
                        outdated: d.outdated || v.packages[i as int].outdated,
                        ..d
                    },
                ));
            },
            None => {},
        }
    }

    /// Forgets that details were asked for, so that they are asked again.
    fn forget_request(&mut self, requested_name: &str)
        ensures
            final(self)@ == (AppView {
                requested: without_text(old(self)@.requested, requested_name@),
                ..old(self)@
            }),
    {
        let mut old_requested: Vec<String> = Vec::new();
        std::mem::swap(&mut old_requested, &mut self.detail_requested);
        let ghost s = crate::model::texts(old_requested@);
        let mut kept: Vec<String> = Vec::new();
        for name in it: old_requested
            invariant
                s == crate::model::texts(it.seq()),
                crate::model::texts(kept@) == without_text(s.take(it.index() as int), requested_name@),
        {
            let ghost idx = it.index() as int;
            proof {
                assert(s.take(idx + 1).drop_last() == s.take(idx));
                assert(s.take(idx + 1).last() == name@);
            }
            if !same_text(name.as_str(), requested_name) {
                let ghost before = crate::model::texts(kept@);
                kept.push(name);
                assert(crate::model::texts(kept@) =~= before.push(s[idx]));
            }
        }
        assert(s.take(s.len() as int) == s);
        self.detail_requested = kept;
    }

    /// Adds a line of command output to the log, which keeps at most 2000
    /// lines by dropping the oldest 500 when it grows past that.
    fn log_line(&mut self, line: String)
        ensures
            final(self)@ == old(self)@.after_event(WorkerEvent::Log(line)).0,
    {
        let ghost v = self@;
        let ghost l = line@;
        self.log.push(line);
        if self.log.len() > 2000 {
            let rest = self.log.split_off(500);
            self.log = rest;
        }
        assert(self@.log =~= (if v.log.push(l).len() > 2000 {
            v.log.push(l).skip(500)
        } else {
            v.log.push(l)
        }));
    }

    /// Records how a staged operation ended.
    fn operation_finished(&mut self, summary: String, success: bool)
        requires
            success || old(self)@.failed_operations < usize::MAX,
        ensures
            final(self)@ == old(self)@.after_event(WorkerEvent::OperationFinished { summary, success }).0,
    {
        let ghost v = self@;
        let mark = if success {
            "\u{2713}"
        } else {
            "\u{2717}"
        };
        let head = concat(mark, " ");
        let line = concat(head.as_str(), summary.as_str());
        self.log.push(line);
        if !success {
            self.failed_operations = self.failed_operations + 1;
        }
        assert(self@.log =~= v.log.push(line@));
    }

    /// Answers an event from background work; see [`AppView::after_event`].
    pub fn handle_worker_event(&mut self, event: WorkerEvent) -> (r: Effect)
        requires
            old(self)@.fits(),
            old(self)@.event_fits(event),
        ensures
            (final(self)@, r@) == old(self)@.after_event(event),
            final(self)@.fits(),
    {
        match event {
            WorkerEvent::CatalogLoaded(Ok(catalog)) => {
                self.catalog_loaded(catalog);
                Effect::Nothing
            },
            WorkerEvent::CatalogLoaded(Err(error)) => {
                self.loading = false;
                self.status = error;
                Effect::Nothing
            },
            WorkerEvent::DetailLoaded { requested_name, requested_kind, result } => {
                match result {
                    Ok(details) => {
                        self.details_loaded(requested_name, requested_kind, details);
                    },
                    Err(_) => {
                        self.forget_request(requested_name.as_str());
                    },
                }
                Effect::Nothing
            },
            WorkerEvent::Log(line) => {
                self.log_line(line);
                Effect::Nothing
            },
            WorkerEvent::OperationStarted(summary) => {
                self.status = concat("Running: ", summary.as_str());
                Effect::Nothing
            },
            WorkerEvent::OperationFinished { summary, success } => {
                self.operation_finished(summary, success);
                Effect::Nothing
            },
            WorkerEvent::QueueFinished => {
                self.running = false;
                self.status = if self.failed_operations == 0 {
                    owned("Operations finished successfully \u{b7} refreshing\u{2026}")
                } else {
                    let mut s = owned("Stopped after ");
                    push_decimal(&mut s, self.failed_operations);
                    s.append(" failed operation");
                    s
                };
                self.refresh()
            },
        }
    }

    /// The status line: the count of staged operations while any are staged,
    /// else the status.
    pub fn status_text(&self) -> (r: String)
        ensures
            r@ == (if self@.queue.len() == 0 {
                self@.status
            } else {
                decimal_spec(self@.queue.len()) + " selected"@
            }),
    {
        if self.queue.len() == 0 {
            self.status.clone()
        } else {
            let mut s = String::new();
            push_decimal(&mut s, self.queue.len());
            s.append(" selected");
            s
        }
    }

    /// The status line as the footer shows it: made safe to print and cut to
    /// 38 characters.
    pub fn status_line(&self) -> (r: String)
        ensures
            r@ == truncate_spec(
                sanitize_spec(
                    if self@.queue.len() == 0 {
                        self@.status
                    } else {
                        decimal_spec(self@.queue.len()) + " selected"@
                    },
                ),
                38,
            ),
    {
        truncate(sanitize_text(self.status_text().as_str()).as_str(), 38)
    }

    /// What the application is busy with.
    pub fn sync_state(&self) -> (r: SyncState)
        ensures
            r == sync_state_spec(self@.loading, self@.running),
    {
        if self.loading {
            SyncState::Syncing
        } else if self.running {
            SyncState::Running
        } else {
            SyncState::Ready
        }
    }

    /// The rows of the package list for a list `area_width` cells wide, in
    /// listing order.
    pub fn result_rows(&self, area_width: u16) -> (r: Vec<ResultRow>)
        requires
            self@.fits(),
        ensures
            r@.len() == self@.listing().len(),
            forall|k: int|
                0 <= k < r@.len() ==> (#[trigger] r@[k])@ == row_spec(
                    self@.packages[self@.listing()[k].0 as int],
                    is_staged(self@.queue, self@.packages[self@.listing()[k].0 as int].name),
                    name_width_spec(area_width as int) as nat,
                ),
    {
        proof {
            law_listing_is_the_ranking(self@);
        }
        let entries = self.ranked_entries();
        proof {
            lemma_ranking_bounds(self@, entries@);
        }
        let staged = self.staged_names();
        let width = name_width(area_width);
        let mut r: Vec<ResultRow> = Vec::new();
        let mut k: usize = 0;
        while k < entries.len()
            invariant
                self@.is_ranking(entries@),
                forall|j: int| 0 <= j < entries@.len() ==> (#[trigger] entries@[j]).0 < self@.packages.len(),
                self@.packages == views(self.catalog.packages@),
                forall|n: Seq<char>|
                    crate::model::texts(staged@).contains(n) <==> is_staged(self@.queue, n),
                width == name_width_spec(area_width as int),
                k <= entries@.len(),
                r@.len() == k,
                forall|j: int|
                    0 <= j < k ==> (#[trigger] r@[j])@ == row_spec(
                        self@.packages[entries@[j].0 as int],
                        is_staged(self@.queue, self@.packages[entries@[j].0 as int].name),
                        width as nat,
                    ),
            decreases entries@.len() - k,
        {
            let i = entries[k].0;
            assert(entries@[k as int].0 < self@.packages.len());
            let package = &self.catalog.packages[i];
            assert(self@.packages[i as int] == package@);
            let flag = match find_text(&staged, package.name.as_str()) {
                Some(_) => true,
                None => false,
            };
            proof {
                if flag {
                    let j = choose|j: int| 0 <= j < staged@.len() && staged@[j]@ == package.name@;
                    assert(crate::model::texts(staged@)[j] == package.name@);
                }
            }
            r.push(result_row(package, flag, width));
            k = k + 1;
        }
        r
    }

    /// The text the preview shows on the taps section: the tap under the
    /// cursor made safe to print, or a note that none is.
    pub fn selected_tap_text(&self) -> (r: String)
        ensures
            r@ == sanitize_spec(
                if (self@.selected as int) < self@.taps.len() {
                    self@.taps[self@.selected as int]
                } else {
                    "No tap selected"@
                },
            ),
    {
        if self.selected < self.catalog.taps.len() {
            sanitize_text(self.catalog.taps[self.selected].as_str())
        } else {
            sanitize_text("No tap selected")
        }
    }

    /// The note the preview shows when no package is under the cursor.
    pub fn empty_preview_text(&self) -> (r: &'static str)
        ensures
            r@ == (if self@.loading {
                "Reading Homebrew metadata\u{2026}"@
            } else {
                "No matching package"@
            }),
    {
        if self.loading {
            "Reading Homebrew metadata\u{2026}"
        } else {
            "No matching package"
        }
    }

    /// The heading of the activity in the preview: live while operations run.
    pub fn activity_title(&self) -> (r: &'static str)
        ensures
            r@ == (if self@.running {
                "ACTIVITY  \u{25cf}"@
            } else {
                "LAST ACTIVITY"@
            }),
    {
        if self.running {
            "ACTIVITY  \u{25cf}"
        } else {
            "LAST ACTIVITY"
        }
    }

    /// The last six lines of the log (all of it when it is shorter), in order,
    /// made safe to print and cut to six cells less than `area_width`.
    pub fn activity_lines(&self, area_width: u16) -> (r: Vec<String>)
        ensures
            r@.len() == self@.log.len() - activity_start(self@.log.len()),
            forall|k: int|
                0 <= k < r@.len() ==> (#[trigger] r@[k])@ == truncate_spec(
                    sanitize_spec(self@.log[activity_start(self@.log.len()) + k]),
                    (if area_width >= 6 {
                        area_width - 6
                    } else {
                        0
                    }) as nat,
                ),
    {
        let n = self.log.len();
        let start: usize = if n > 6 {
            n - 6
        } else {
            0
        };
        let room: usize = if area_width >= 6 {
            (area_width - 6) as usize
        } else {
            0
        };
        let mut r: Vec<String> = Vec::new();
        let mut i: usize = start;
        while i < n
            invariant
                n == self.log@.len(),
                self@.log == crate::model::texts(self.log@),
                start == activity_start(n as nat),
                start <= i <= n,
                r@.len() == i - start,
                room == (if area_width >= 6 {
                    area_width - 6
                } else {
                    0
                }),
                forall|k: int|
                    0 <= k < r@.len() ==> (#[trigger] r@[k])@ == truncate_spec(
                        sanitize_spec(self@.log[start + k]),
                        room as nat,
                    ),
            decreases n - i,
        {
            r.push(truncate(sanitize_log(self.log[i].as_str()).as_str(), room));
            i = i + 1;
        }
        r
    }

    /// The staged operations the side bar lists in `height` rows: the first
    /// ones that fit, each summary made safe to print and cut to 18 characters.
    pub fn queue_lines(&self, height: u16) -> (r: Vec<String>)
        ensures
            r@.len() == (if self@.queue.len() < height as int {
                self@.queue.len() as int
            } else {
                height as int
            }),
            forall|k: int|
                0 <= k < r@.len() ==> (#[trigger] r@[k])@ == truncate_spec(
                    sanitize_spec(self@.queue[k].summary()),
                    18,
                ),
    {
        let n: usize = if self.queue.len() < height as usize {
            self.queue.len()
        } else {
            height as usize
        };
        let mut r: Vec<String> = Vec::new();
        let mut i: usize = 0;
        while i < n
            invariant
                n <= self.queue@.len(),
                self@.queue == op_views(self.queue@),
                i <= n,
                r@.len() == i,
                forall|k: int|
                    0 <= k < i ==> (#[trigger] r@[k])@ == truncate_spec(
                        sanitize_spec(self@.queue[k].summary()),
                        18,
                    ),
            decreases n - i,
        {
            assert(self@.queue[i as int] == self.queue@[i as int]@);
            r.push(truncate(sanitize_text(self.queue[i].summary().as_str()).as_str(), 18));
            i = i + 1;
        }
        r
    }
}

/// Where the last six lines of a log `n` lines long begin.
pub open spec fn activity_start(n: nat) -> int {
    if n > 6 {
        n - 6
    } else {
        0
    }
}

/// Whether an operation on the package named `name` is staged.
pub open spec fn is_staged(q: Seq<OperationView>, name: Seq<char>) -> bool {
    exists|i: int| 0 <= i < q.len() && #[trigger] q[i].package_name() == Some(name)
}

/// The number of casks.
pub open spec fn cask_count_spec(s: Seq<PackageView>) -> nat
    decreases s.len(),
{
    if s.len() == 0 {
        0
    } else {
        cask_count_spec(s.drop_last()) + if s.last().kind == PackageKind::Cask {
            1nat
        } else {
            0
        }
    }
}

/// The number of items a section lists when there is no query: every
/// package, the installed ones, the outdated ones, the casks, or the taps.
pub fn tab_count(app: &App, tab: Tab) -> (r: usize)
    ensures
        r == (match tab {
            Tab::Browse => app@.packages.len(),
            Tab::Installed => installed_count_spec(app@.packages),
            Tab::Outdated => outdated_count_spec(app@.packages),
            Tab::Casks => cask_count_spec(app@.packages),
            Tab::Taps => app@.taps.len(),
        }),
{
    match tab {
        Tab::Browse => app.catalog.packages.len(),
        Tab::Installed => app.catalog.installed_count(),
        Tab::Outdated => app.catalog.outdated_count(),
        Tab::Casks => {
            let ghost s = app@.packages;
            let mut count: usize = 0;
            let mut i: usize = 0;
            while i < app.catalog.packages.len()
                invariant
                    s == app@.packages,
                    i <= s.len(),
                    count == cask_count_spec(s.take(i as int)),
                    count <= i,
                decreases s.len() - i,
            {
                assert(s.take(i + 1).drop_last() == s.take(i as int));
                assert(s[i as int] == app.catalog.packages@[i as int]@);
                if app.catalog.packages[i].kind == PackageKind::Cask {
                    count = count + 1;
                }
                i = i + 1;
            }
            assert(s.take(s.len() as int) == s);
            count
        },
        Tab::Taps => app.catalog.taps.len(),
    }
}

} // verus!

verus! {

// ---------------------------------------------------------------------------
// Laws
// ---------------------------------------------------------------------------

/// A key press without modifiers.
pub open spec fn plain(code: KeyCode) -> KeyInput {
    KeyInput { code, control: false, alt: false }
}

/// Staging changes nothing that decides which package is under the cursor.
proof fn lemma_stage_keeps_listing(v: AppView, sel: Option<PackageView>, e: Seq<(usize, i64)>)
    ensures
        v.stage_toggled(sel).is_ranking(e) == v.is_ranking(e),
        v.stage_toggled(sel).chosen(e) == v.chosen(e),
{
    let w = v.stage_toggled(sel);
    assert(listing_order(w) == listing_order(v));
}

/// Pressing Tab twice on a package that has nothing staged leaves the queue
/// as it was: the first press stages the operation it calls for and keeps
/// the same package under the cursor, the second unstages it.
pub proof fn law_stage_twice_restores_queue(v: AppView)
    requires
        v.packages.len() <= usize::MAX,
        v.overlay == Overlay::Hidden,
        !v.running,
        v.selection() is Some,
        first_with_name(v.queue, v.selection()->0.name) < 0,
    ensures
        ({
            let v1 = v.after_key(plain(KeyCode::Tab), v.selection()).0;
            &&& v1.selection() == v.selection()
            &&& v1.queue == v.queue.push(operation_for_spec(v.selection()->0))
            &&& v1.after_key(plain(KeyCode::Tab), v1.selection()).0.queue == v.queue
        }),
{
    law_listing_is_the_ranking(v);
    let e = v.listing();
    let p = v.chosen(e)->0;
    let v1 = v.stage_toggled(v.chosen(e));
    lemma_stage_keeps_listing(v, v.chosen(e), e);
    law_listing_is_the_ranking(v1);
    assert(v1.listing() == e);
    let q1 = v.queue.push(operation_for_spec(p));
    assert(q1.drop_last() == v.queue);
    assert(first_with_name(q1, p.name) == v.queue.len());
    assert(q1.remove(v.queue.len() as int) =~= v.queue);
}

/// Moving right and then left returns to the same section, and five moves
/// in one direction come back around.
pub proof fn law_tabs_cycle(v: AppView)
    ensures
        v.tab_changed(1).tab_changed(-1).tab == v.tab,
        v.tab_changed(1).tab_changed(1).tab_changed(1).tab_changed(1).tab_changed(1).tab == v.tab,
{
}

/// Changing the order three times comes back to the first.
pub proof fn law_sort_modes_cycle(s: SortMode)
    ensures
        s.next_spec().next_spec().next_spec() == s,
{
}

/// The cursor always stays on the list (or at its top when it is empty),
/// however far it moves.
pub proof fn law_cursor_stays_in_list(v: AppView, delta: int)
    requires
        v.selected + delta <= usize::MAX,
    ensures
        0 <= v.moved(delta).selected,
        v.moved(delta).selected as int <= (if v.item_count() > 0 {
            v.item_count() - 1
        } else {
            0
        }),
        v.moved(delta).item_count() == v.item_count(),
{
    let w = v.moved(delta);
    assert(w.tab == v.tab && w.packages == v.packages && w.query == v.query && w.taps == v.taps);
}

/// A log of at most 2000 lines stays within 2000 lines when command output
/// arrives.
pub proof fn law_log_stays_bounded(v: AppView, line: String)
    requires
        v.log.len() <= 2000,
    ensures
        v.after_event(WorkerEvent::Log(line)).0.log.len() <= 2000,
{
}

/// The details of a package are asked for once: asking again right after
/// asks for nothing.
pub proof fn law_details_asked_once(v: AppView, p: PackageView)
    ensures
        ({
            let v1 = v.detail_requested(Some(p)).0;
            v1.detail_requested(Some(p)).1 == EffectView::Nothing
        }),
{
    let (v1, _) = v.detail_requested(Some(p));
    if v.preview_visible && !v.loading && !v.requested.contains(p.name) {
        assert(v1.requested[v1.requested.len() - 1] == p.name);
    }
}

/// Control-Q quits exactly when Homebrew is not running; while it runs, the
/// application stays and says why.
pub proof fn law_quit_waits_for_homebrew(v: AppView, sel: Option<PackageView>)
    ensures
        ({
            let key = KeyInput { code: KeyCode::Char('q'), control: true, alt: false };
            let (v1, eff) = v.after_key(key, sel);
            &&& v1.should_quit == (v.should_quit || !v.running)
            &&& v.running ==> v1.status == "Homebrew is still running; wait for it to finish"@
            &&& eff == EffectView::Nothing
        }),
{
}

/// Typing a printable character searches: it is added to the query, the
/// cursor goes to the top, and no dialog opens. (A question mark opens the
/// help, and a space stages while Homebrew is idle.)
pub proof fn law_typing_searches(v: AppView, c: char, sel: Option<PackageView>)
    requires
        v.overlay == Overlay::Hidden,
        !is_control_spec(c),
        c != '?',
        c != ' ' || v.running,
    ensures
        ({
            let (v1, eff) = v.after_key(plain(KeyCode::Char(c)), sel);
            &&& v1.query == v.query.push(c)
            &&& v1.selected == 0
            &&& v1.overlay == Overlay::Hidden
            &&& eff == EffectView::Nothing
        }),
{
}

/// Tab stages without running anything.
pub proof fn law_tab_does_not_run(v: AppView, sel: Option<PackageView>)
    requires
        v.overlay == Overlay::Hidden,
    ensures
        ({
            let (v1, eff) = v.after_key(plain(KeyCode::Tab), sel);
            &&& v1.running == v.running
            &&& eff == EffectView::Nothing
        }),
{
}

/// Pinning replaces whatever was staged on the package: afterwards exactly
/// one operation on it is staged, the pin or unpin, at the end.
pub proof fn law_pin_replaces_staged(v: AppView, p: PackageView)
    requires
        p.installed,
        p.kind == PackageKind::Formula,
    ensures
        ({
            let q = v.pin_toggled(Some(p)).queue;
            &&& q.last().package_name() == Some(p.name)
            &&& forall|i: int| 0 <= i < q.len() - 1 ==> (#[trigger] q[i]).package_name() != Some(p.name)
        }),
{
    lemma_without_name(v.queue, p.name);
}

proof fn lemma_without_name(q: Seq<OperationView>, name: Seq<char>)
    ensures
        forall|i: int|
            0 <= i < without_name(q, name).len() ==> (#[trigger] without_name(q, name)[i]).package_name()
                != Some(name),
    decreases q.len(),
{
    if q.len() > 0 {
        lemma_without_name(q.drop_last(), name);
    }
}

} // verus!

verus! {

/// With nothing staged, Enter runs at once the action the preview offers for
/// the package under the cursor, and nothing else.
pub proof fn law_enter_runs_shown_action(v: AppView, p: PackageView)
    requires
        v.overlay == Overlay::Hidden,
        !v.running,
        v.queue.len() == 0,
    ensures
        ({
            let (v1, eff) = v.after_key(plain(KeyCode::Enter), Some(p));
            &&& eff == EffectView::RunOperations(seq![operation_for_spec(p)])
            &&& v1.running
            &&& v1.queue.len() == 0
        }),
{
    assert(first_with_name(v.queue, p.name) == -1);
    let v1 = v.stage_toggled(Some(p));
    assert(v1.queue == seq![operation_for_spec(p)]);
}

/// Dropping a name from a list keeps only entries of the list, in order.
proof fn lemma_without_text(s: Seq<Seq<char>>, x: Seq<char>)
    ensures
        forall|y: Seq<char>| without_text(s, x).contains(y) ==> s.contains(y),
        s.no_duplicates() ==> without_text(s, x).no_duplicates(),
    decreases s.len(),
{
    if s.len() > 0 {
        let s0 = s.drop_last();
        lemma_without_text(s0, x);
        let rest = without_text(s0, x);
        assert forall|y: Seq<char>| without_text(s, x).contains(y) implies s.contains(y) by {
            let i = choose|i: int| 0 <= i < without_text(s, x).len() && without_text(s, x)[i] == y;
            if i < rest.len() {
                assert(rest[i] == y);
                assert(rest.contains(y));
                assert(s0.contains(y));
                let j = choose|j: int| 0 <= j < s0.len() && s0[j] == y;
                assert(s[j] == y);
            } else {
                assert(without_text(s, x) == rest.push(s.last()));
                assert(s[s.len() - 1] == y);
            }
            assert(s.contains(y));
        }
        if s.no_duplicates() && s.last() != x {
            assert(s0.no_duplicates()) by {
                assert forall|i: int, j: int| 0 <= i < s0.len() && 0 <= j < s0.len() && i != j implies s0[i]
                    != s0[j] by {
                    assert(s0[i] == s[i] && s0[j] == s[j]);
                }
            }
            assert(!rest.contains(s.last())) by {
                if rest.contains(s.last()) {
                    assert(s0.contains(s.last()));
                    let j = choose|j: int| 0 <= j < s0.len() && s0[j] == s.last();
                    assert(s[j] == s[s.len() - 1]);
                }
            }
            let w = rest.push(s.last());
            assert forall|i: int, j: int| 0 <= i < w.len() && 0 <= j < w.len() && i != j implies w[i] != w[j] by {
                if i == rest.len() {
                    assert(rest[j] == w[j]);
                } else if j == rest.len() {
                    assert(rest[i] == w[i]);
                }
            }
        } else if s.no_duplicates() {
            assert forall|i: int, j: int| 0 <= i < s0.len() && 0 <= j < s0.len() && i != j implies s0[i]
                != s0[j] by {
                assert(s0[i] == s[i] && s0[j] == s[j]);
            }
        }
    }
}

/// The names whose details have been asked for are each listed once: a
/// fresh application lists none (see `App::new`), and no key, mouse wheel
/// step, background event or detail request lists a name twice.
pub proof fn law_requests_stay_distinct(
    v: AppView,
    key: KeyInput,
    m: MouseInput,
    event: WorkerEvent,
    sel: Option<PackageView>,
)
    requires
        v.requested.no_duplicates(),
    ensures
        v.after_key(key, sel).0.requested.no_duplicates(),
        v.after_mouse(m).requested.no_duplicates(),
        v.after_event(event).0.requested.no_duplicates(),
        v.detail_requested(sel).0.requested.no_duplicates(),
{
    lemma_without_text(v.requested, Seq::empty());
    match event {
        WorkerEvent::DetailLoaded { requested_name, .. } => {
            lemma_without_text(v.requested, requested_name@);
        },
        _ => {},
    }
    match sel {
        Some(p) => {
            let w = v.requested.push(p.name);
            if !v.requested.contains(p.name) {
                assert forall|i: int, j: int| 0 <= i < w.len() && 0 <= j < w.len() && i != j implies w[i]
                    != w[j] by {
                    if i == v.requested.len() {
                        assert(v.requested[j] == w[j]);
                    } else if j == v.requested.len() {
                        assert(v.requested[i] == w[i]);
                    } else {
                        assert(v.requested[i] == w[i] && v.requested[j] == w[j]);
                    }
                }
            }
        },
        None => {},
    }
}

/// While Homebrew runs, nothing is staged, run or refreshed: Tab, Enter and
/// space, and Control with a, p, r or u, leave the queue as it is, keep the
/// application running, leave loading as it was, and start no work.
pub proof fn law_nothing_starts_while_running(v: AppView, key: KeyInput, sel: Option<PackageView>)
    requires
        v.running,
        !key.alt,
        (!key.control && (key.code == KeyCode::Tab || key.code == KeyCode::Enter || key.code
            == KeyCode::Char(' '))) || (key.control && (key.code == KeyCode::Char('a') || key.code
            == KeyCode::Char('p') || key.code == KeyCode::Char('r') || key.code == KeyCode::Char('u'))),
    ensures
        ({
            let (v1, eff) = v.after_key(key, sel);
            &&& v1.queue == v.queue
            &&& v1.running
            &&& v1.loading == v.loading
            &&& eff == EffectView::Nothing
        }),
{
}

/// Each candidate is a package of the catalog that the query matches, with
/// its score.
proof fn lemma_candidate_scores(pkgs: Seq<PackageView>, tab: Tab, query: Seq<char>, k: int)
    requires
        pkgs.len() <= usize::MAX,
        0 <= k < candidates(pkgs, tab, query).len(),
    ensures
        ({
            let e = candidates(pkgs, tab, query)[k];
            &&& (e.0 as int) < pkgs.len()
            &&& fuzzy_spec(pkgs[e.0 as int].name, query) is Some
            &&& e.1 == fuzzy_spec(pkgs[e.0 as int].name, query)->0 as i64
        }),
    decreases pkgs.len(),
{
    let rest = candidates(pkgs.drop_last(), tab, query);
    lemma_candidates_bounds(pkgs.drop_last(), tab, query);
    if k < rest.len() {
        lemma_candidate_scores(pkgs.drop_last(), tab, query, k);
        assert(candidates(pkgs, tab, query)[k] == rest[k]);
        assert(pkgs.drop_last()[rest[k].0 as int] == pkgs[rest[k].0 as int]);
    } else {
        assert(candidates(pkgs, tab, query)[k].0 as int == pkgs.len() - 1);
        assert(pkgs.last() == pkgs[pkgs.len() - 1]);
    }
}

/// With a query, the list is ranked by how well each package matches: every
/// listed package matches the query, a package listed earlier never scores
/// lower than one listed later, and when a listed package's name is the
/// query (ignoring case), the first listed package's name is too.
pub proof fn law_search_ranks_best_first(v: AppView)
    requires
        v.fits(),
        v.query.len() > 0,
    ensures
        forall|k: int|
            0 <= k < v.listing().len() ==> fuzzy_spec(
                v.packages[(#[trigger] v.listing()[k]).0 as int].name,
                v.query,
            ) is Some,
        forall|i: int, j: int|
            0 <= i < j < v.listing().len() ==> fuzzy_spec(
                v.packages[(#[trigger] v.listing()[j]).0 as int].name,
                v.query,
            )->0 <= fuzzy_spec(v.packages[(#[trigger] v.listing()[i]).0 as int].name, v.query)->0,
        (exists|k: int|
            0 <= k < v.listing().len() && lower_spec(v.packages[(#[trigger] v.listing()[k]).0 as int].name)
                == lower_spec(v.query)) ==> lower_spec(v.packages[v.listing()[0].0 as int].name)
            == lower_spec(v.query),
{
    broadcast use vstd::seq_lib::group_to_multiset_ensures;

    law_listing_is_the_ranking(v);
    let l = v.listing();
    let c = candidates(v.packages, v.tab, v.query);
    let pk = v.packages;
    let q = v.query;
    assert forall|k: int| 0 <= k < l.len() implies (l[k].0 as int) < pk.len() && fuzzy_spec(
        pk[l[k].0 as int].name,
        q,
    ) is Some && fuzzy_spec(pk[l[k].0 as int].name, q)->0 == l[k].1 by {
        assert(l.to_multiset().count(l[k]) > 0);
        assert(c.contains(l[k]));
        let m = choose|m: int| 0 <= m < c.len() && c[m] == l[k];
        lemma_candidate_scores(pk, v.tab, q, m);
        lemma_fuzzy_in_i64(pk[l[k].0 as int].name, q);
    }
    assert forall|i: int, j: int| 0 <= i < j < l.len() implies fuzzy_spec(
        pk[(#[trigger] l[j]).0 as int].name,
        q,
    )->0 <= fuzzy_spec(pk[(#[trigger] l[i]).0 as int].name, q)->0 by {
        assert(!listing_order(v)(l[j], l[i]));
    }
    if exists|k: int| 0 <= k < l.len() && lower_spec(pk[(#[trigger] l[k]).0 as int].name) == lower_spec(q) {
        let k = choose|k: int| 0 <= k < l.len() && lower_spec(pk[(#[trigger] l[k]).0 as int].name) == lower_spec(q);
        law_exact_match_ranks_first(pk[l[k].0 as int].name, q);
        law_exact_match_ranks_first(pk[l[0].0 as int].name, q);
        if k > 0 {
            assert(fuzzy_spec(pk[l[k].0 as int].name, q)->0 <= fuzzy_spec(pk[l[0].0 as int].name, q)->0);
        }
    }
}

/// Control-P on an installed formula stages the opposite of its pin state:
/// unpinning a pinned formula, pinning one that is not; whatever was staged
/// on it before is dropped, and nothing starts. On any other package it
/// stages nothing.
pub proof fn law_ctrl_p_stages_the_opposite_pin(v: AppView, p: PackageView)
    requires
        v.overlay == Overlay::Hidden,
        !v.running,
    ensures
        ({
            let key = KeyInput { code: KeyCode::Char('p'), control: true, alt: false };
            let (v1, eff) = v.after_key(key, Some(p));
            &&& eff == EffectView::Nothing
            &&& (p.installed && p.kind == PackageKind::Formula) ==> {
                &&& v1.queue.len() >= 1
                &&& v1.queue.last() == (if p.pinned {
                    OperationView::Unpin { name: p.name }
                } else {
                    OperationView::Pin { name: p.name }
                })
                &&& forall|i: int|
                    0 <= i < v1.queue.len() - 1 ==> (#[trigger] v1.queue[i]).package_name() != Some(p.name)
            }
            &&& !(p.installed && p.kind == PackageKind::Formula) ==> v1.queue == v.queue
        }),
{
    lemma_without_name(v.queue, p.name);
}

} // verus!
