//! The package catalog: assembling it from `brew`'s listings and JSON
//! reports, enriching it with bulk and cached metadata, and keeping it sorted.
use vstd::prelude::*;
use vstd::string::*;

use crate::model::{copy_opt, opt_text, texts, Package, PackageKind, PackageView};
use crate::order::{lemma_text_order, text_le, text_less, text_lt};
use crate::sort::merge_sort;
use crate::text::{concat, listed_lines, listed_spec, owned};

verus! {

broadcast use vstd::string::group_string_axioms;

// ---------------------------------------------------------------------------
// The shape of Homebrew's JSON reports
// ---------------------------------------------------------------------------

/// A package's name as the report gives it: one string or a list of them.
#[derive(Debug)]
pub enum OneOrMany {
    One(String),
    Many(Vec<String>),
}

/// One installed version of a package.
#[derive(Debug)]
pub struct InstalledVersion {
    pub version: Option<String>,
}

/// What the report says is installed: a list of versions, or one version.
#[derive(Debug)]
pub enum InstalledField {
    Entries(Vec<InstalledVersion>),
    Version(String),
}

/// The versions a formula offers.
#[derive(Debug)]
pub struct Versions {
    pub stable: Option<String>,
}

/// One formula or cask in a report.
#[derive(Debug)]
pub struct BrewItem {
    pub name: Option<OneOrMany>,
    pub token: Option<String>,
    pub full_name: Option<String>,
    pub desc: Option<String>,
    pub homepage: Option<String>,
    pub license: Option<String>,
    pub installed: Option<InstalledField>,
    pub versions: Option<Versions>,
    pub version: Option<String>,
    pub current_version: Option<String>,
    pub pinned: bool,
    pub outdated: bool,
}

/// A report on formulae and casks.
#[derive(Debug)]
pub struct BrewJson {
    pub formulae: Vec<BrewItem>,
    pub casks: Vec<BrewItem>,
}

impl Default for BrewItem {
    /// An item that says nothing.
    fn default() -> (r: BrewItem)
        ensures
            r.name is None && r.token is None && r.full_name is None && r.desc is None
                && r.homepage is None && r.license is None && r.installed is None
                && r.versions is None && r.version is None && r.current_version is None
                && !r.pinned && !r.outdated,
    {
        BrewItem {
            name: None,
            token: None,
            full_name: None,
            desc: None,
            homepage: None,
            license: None,
            installed: None,
            versions: None,
            version: None,
            current_version: None,
            pinned: false,
            outdated: false,
        }
    }
}

impl Default for BrewJson {
    /// A report on nothing.
    fn default() -> (r: BrewJson)
        ensures
            r.formulae@.len() == 0 && r.casks@.len() == 0,
    {
        BrewJson { formulae: Vec::new(), casks: Vec::new() }
    }
}

/// The first name a name field gives.
pub open spec fn first_name_spec(n: OneOrMany) -> Option<Seq<char>> {
    match n {
        OneOrMany::One(s) => Some(s@),
        OneOrMany::Many(v) => if v@.len() > 0 {
            Some(v@[0]@)
        } else {
            None
        },
    }
}

impl OneOrMany {
    /// The first name given, if any.
    pub fn first(self) -> (r: Option<String>)
        ensures
            opt_text(r) == first_name_spec(self),
    {
        match self {
            OneOrMany::One(value) => Some(value),
            OneOrMany::Many(mut values) => {
                if values.len() > 0 {
                    Some(values.swap_remove(0))
                } else {
                    None
                }
            },
        }
    }
}

/// The version an installed field names: the first entry's, or the one given.
pub open spec fn installed_version_spec(f: InstalledField) -> Option<Seq<char>> {
    match f {
        InstalledField::Entries(es) => if es@.len() > 0 {
            opt_text(es@[0].version)
        } else {
            None
        },
        InstalledField::Version(v) => Some(v@),
    }
}

impl InstalledField {
    /// The installed version it names, if any.
    pub fn version(&self) -> (r: Option<String>)
        ensures
            opt_text(r) == installed_version_spec(*self),
    {
        match self {
            InstalledField::Entries(entries) => {
                if entries.len() > 0 {
                    copy_opt(&entries[0].version)
                } else {
                    None
                }
            },
            InstalledField::Version(version) => Some(version.clone()),
        }
    }
}

/// `a` when it holds a value, else `b`.
pub open spec fn or_else(a: Option<Seq<char>>, b: Option<Seq<char>>) -> Option<Seq<char>> {
    if a is Some {
        a
    } else {
        b
    }
}

/// The name an item goes by: its token, else its first name, else its full
/// name, else nothing.
pub open spec fn item_name(item: BrewItem) -> Seq<char> {
    let n = or_else(
        opt_text(item.token),
        or_else(
            match item.name {
                Some(n) => first_name_spec(n),
                None => None,
            },
            opt_text(item.full_name),
        ),
    );
    match n {
        Some(s) => s,
        None => Seq::empty(),
    }
}

/// The newest version an item offers: its current version, else its stable
/// version, else its version.
pub open spec fn item_latest(item: BrewItem) -> Option<Seq<char>> {
    or_else(
        opt_text(item.current_version),
        or_else(
            match item.versions {
                Some(v) => opt_text(v.stable),
                None => None,
            },
            opt_text(item.version),
        ),
    )
}

/// The version an item reports installed.
pub open spec fn item_installed_version(item: BrewItem) -> Option<Seq<char>> {
    match item.installed {
        Some(f) => installed_version_spec(f),
        None => None,
    }
}

// ---------------------------------------------------------------------------
// The catalog as a list of package views
// ---------------------------------------------------------------------------

/// The views of a list of packages.
pub open spec fn views(v: Seq<Package>) -> Seq<PackageView> {
    Seq::new(v.len(), |i: int| v[i]@)
}

/// The position of the last package in `s` with this kind and name, or -1.
pub open spec fn last_index_of_key(s: Seq<PackageView>, kind: PackageKind, name: Seq<char>) -> int
    decreases s.len(),
{
    if s.len() == 0 {
        -1
    } else if s.last().kind == kind && s.last().name == name {
        s.len() - 1
    } else {
        last_index_of_key(s.drop_last(), kind, name)
    }
}

/// A package after an item of a report is taken into account: the item's
/// description, homepage, license and newest version win over what was known;
/// pinning and staleness accumulate; a report on installed packages marks the
/// package installed with the version it reports, and any other report
/// marks it outdated.
pub open spec fn apply_item(p: PackageView, item: BrewItem, installed: bool) -> PackageView {
    PackageView {
        description: or_else(opt_text(item.desc), p.description),
        homepage: or_else(opt_text(item.homepage), p.homepage),
        license: or_else(opt_text(item.license), p.license),
        pinned: p.pinned || item.pinned,
        outdated: p.outdated || item.outdated || !installed,
        installed: if installed {
            true
        } else {
            p.installed
        },
        installed_version: if installed {
            item_installed_version(item)
        } else {
            p.installed_version
        },
        latest_version: or_else(item_latest(item), p.latest_version),
        ..p
    }
}

/// `s` with one report item taken into account: an item without a name is
/// ignored; the package with the item's name and this kind is updated, or a
/// new one is added at the end.
pub open spec fn step_item(s: Seq<PackageView>, item: BrewItem, kind: PackageKind, installed: bool) -> Seq<
    PackageView,
> {
    let name = item_name(item);
    if name.len() == 0 {
        s
    } else {
        let i = last_index_of_key(s, kind, name);
        if i >= 0 {
            s.update(i, apply_item(s[i], item, installed))
        } else {
            s.push(apply_item(PackageView::fresh(name, kind), item, installed))
        }
    }
}

/// `s` with the items of a report taken into account in order.
pub open spec fn apply_items_spec(
    s: Seq<PackageView>,
    items: Seq<BrewItem>,
    kind: PackageKind,
    installed: bool,
) -> Seq<PackageView>
    decreases items.len(),
{
    if items.len() == 0 {
        s
    } else {
        step_item(apply_items_spec(s, items.drop_last(), kind, installed), items.last(), kind, installed)
    }
}

/// `s` with a listed name recorded as a new package of this kind, replacing
/// any package already recorded under that name and kind.
pub open spec fn step_listed(s: Seq<PackageView>, name: Seq<char>, kind: PackageKind) -> Seq<
    PackageView,
> {
    let i = last_index_of_key(s, kind, name);
    if i >= 0 {
        s.update(i, PackageView::fresh(name, kind))
    } else {
        s.push(PackageView::fresh(name, kind))
    }
}

/// `s` with each listed name recorded in order.
pub open spec fn list_names_spec(s: Seq<PackageView>, names: Seq<Seq<char>>, kind: PackageKind) -> Seq<
    PackageView,
>
    decreases names.len(),
{
    if names.len() == 0 {
        s
    } else {
        step_listed(list_names_spec(s, names.drop_last(), kind), names.last(), kind)
    }
}

/// A package after an item of the bulk metadata: its description is the
/// item's, or a note that Homebrew gives none; homepage, license and newest
/// version are replaced only where the item has one.
pub open spec fn apply_metadata(p: PackageView, item: BrewItem) -> PackageView {
    PackageView {
        description: Some(
            match opt_text(item.desc) {
                Some(d) => d,
                None => "No description provided by Homebrew"@,
            },
        ),
        homepage: or_else(opt_text(item.homepage), p.homepage),
        license: or_else(opt_text(item.license), p.license),
        latest_version: or_else(item_latest(item), p.latest_version),
        ..p
    }
}

/// `s` with one metadata item taken into account.
pub open spec fn step_metadata(s: Seq<PackageView>, item: BrewItem, kind: PackageKind) -> Seq<
    PackageView,
> {
    let name = item_name(item);
    if name.len() == 0 {
        s
    } else {
        let i = last_index_of_key(s, kind, name);
        if i >= 0 {
            s.update(i, apply_metadata(s[i], item))
        } else {
            s.push(apply_metadata(PackageView::fresh(name, kind), item))
        }
    }
}

/// `s` with the metadata items taken into account in order.
pub open spec fn apply_metadata_spec(s: Seq<PackageView>, items: Seq<BrewItem>, kind: PackageKind) -> Seq<
    PackageView,
>
    decreases items.len(),
{
    if items.len() == 0 {
        s
    } else {
        step_metadata(apply_metadata_spec(s, items.drop_last(), kind), items.last(), kind)
    }
}

/// `a` when it holds a value, else `b`.
pub open spec fn fill(a: Option<Seq<char>>, b: Option<Seq<char>>) -> Option<Seq<char>> {
    or_else(a, b)
}

/// A package filled in from a cached copy: what it lacks of description,
/// homepage, license and newest version is taken from the cache.
pub open spec fn fill_from_cache(p: PackageView, c: PackageView) -> PackageView {
    PackageView {
        description: fill(p.description, c.description),
        homepage: fill(p.homepage, c.homepage),
        license: fill(p.license, c.license),
        latest_version: fill(p.latest_version, c.latest_version),
        ..p
    }
}

/// A cached package that the current state does not know: it keeps its
/// metadata but is taken as not installed, not outdated and not pinned.
pub open spec fn from_cache(c: PackageView) -> PackageView {
    PackageView {
        installed: false,
        outdated: false,
        pinned: false,
        installed_version: None,
        ..c
    }
}

/// `s` with one cached package merged in, looking it up among the first `n`
/// packages (those known before the merge).
pub open spec fn step_cached(s: Seq<PackageView>, n: int, c: PackageView) -> Seq<PackageView> {
    let i = last_index_of_key(s.take(n), c.kind, c.name);
    if i >= 0 {
        s.update(i, fill_from_cache(s[i], c))
    } else {
        s.push(from_cache(c))
    }
}

/// `s` with the cached packages merged in order.
pub open spec fn merge_cached_spec(s: Seq<PackageView>, n: int, cached: Seq<PackageView>) -> Seq<
    PackageView,
>
    decreases cached.len(),
{
    if cached.len() == 0 {
        s
    } else {
        step_cached(merge_cached_spec(s, n, cached.drop_last()), n, cached.last())
    }
}

/// Packages in order of name.
pub open spec fn sorted_by_name(s: Seq<PackageView>) -> bool {
    forall|i: int, j: int| 0 <= i < j < s.len() ==> text_le(#[trigger] s[i].name, #[trigger] s[j].name)
}

/// `s` lists, in order of name, exactly the packages of `t`.
pub open spec fn sorted_listing(s: Seq<PackageView>, t: Seq<PackageView>) -> bool {
    sorted_by_name(s) && s.to_multiset() == t.to_multiset()
}

/// The number of installed packages.
pub open spec fn installed_count_spec(s: Seq<PackageView>) -> nat
    decreases s.len(),
{
    if s.len() == 0 {
        0
    } else {
        installed_count_spec(s.drop_last()) + if s.last().installed {
            1nat
        } else {
            0
        }
    }
}

/// The number of outdated packages.
pub open spec fn outdated_count_spec(s: Seq<PackageView>) -> nat
    decreases s.len(),
{
    if s.len() == 0 {
        0
    } else {
        outdated_count_spec(s.drop_last()) + if s.last().outdated {
            1nat
        } else {
            0
        }
    }
}

// ---------------------------------------------------------------------------
// Executable steps
// ---------------------------------------------------------------------------

/// The position of the last of the first `limit` packages with this kind and
/// name.
fn find_last_key(packages: &Vec<Package>, limit: usize, kind: PackageKind, name: &String) -> (r: Option<
    usize,
>)
    requires
        limit <= packages@.len(),
    ensures
        match r {
            Some(i) => i as int == last_index_of_key(views(packages@).take(limit as int), kind, name@)
                && i < limit,
            None => last_index_of_key(views(packages@).take(limit as int), kind, name@) == -1,
        },
{
    let ghost s = views(packages@);
    let mut j = limit;
    while j > 0
        invariant
            j <= limit <= packages@.len(),
            s == views(packages@),
            last_index_of_key(s.take(limit as int), kind, name@) == last_index_of_key(
                s.take(j as int),
                kind,
                name@,
            ),
        decreases j,
    {
        let p = &packages[j - 1];
        assert(s.take(j as int).last() == p@);
        if p.kind == kind && p.name == *name {
            return Some(j - 1);
        }
        assert(s.take(j as int).drop_last() == s.take(j - 1));
        j = j - 1;
    }
    None
}

/// The name an item goes by, taken out of the item's name fields.
fn take_item_name(token: Option<String>, name: Option<OneOrMany>, full_name: Option<String>) -> (r:
    String)
    ensures
        r@ == (match or_else(
            opt_text(token),
            or_else(
                match name {
                    Some(n) => first_name_spec(n),
                    None => None,
                },
                opt_text(full_name),
            ),
        ) {
            Some(s) => s,
            None => Seq::empty(),
        }),
{
    match token {
        Some(t) => t,
        None => {
            let first = match name {
                Some(n) => n.first(),
                None => None,
            };
            match first {
                Some(f) => f,
                None => match full_name {
                    Some(f) => f,
                    None => String::new(),
                },
            }
        },
    }
}

/// `a` when it holds a value, else `b`.
fn or_opt(a: Option<String>, b: Option<String>) -> (r: Option<String>)
    ensures
        opt_text(r) == or_else(opt_text(a), opt_text(b)),
{
    match a {
        Some(x) => Some(x),
        None => b,
    }
}

/// The parts of an item that update a package.
struct ItemParts {
    desc: Option<String>,
    homepage: Option<String>,
    license: Option<String>,
    installed_version: Option<String>,
    latest: Option<String>,
    pinned: bool,
    outdated: bool,
}

/// Splits an item into its name and the parts that update a package.
fn split_item(item: BrewItem) -> (r: (String, ItemParts))
    ensures
        r.0@ == item_name(item),
        opt_text(r.1.desc) == opt_text(item.desc),
        opt_text(r.1.homepage) == opt_text(item.homepage),
        opt_text(r.1.license) == opt_text(item.license),
        opt_text(r.1.installed_version) == item_installed_version(item),
        opt_text(r.1.latest) == item_latest(item),
        r.1.pinned == item.pinned,
        r.1.outdated == item.outdated,
{
    let installed_version = match &item.installed {
        Some(f) => f.version(),
        None => None,
    };
    let BrewItem {
        name,
        token,
        full_name,
        desc,
        homepage,
        license,
        installed: _,
        versions,
        version,
        current_version,
        pinned,
        outdated,
    } = item;
    let stable = match versions {
        Some(v) => v.stable,
        None => None,
    };
    let latest = or_opt(current_version, or_opt(stable, version));
    let n = take_item_name(token, name, full_name);
    (n, ItemParts { desc, homepage, license, installed_version, latest, pinned, outdated })
}

/// Applies the parts of a report item to a package.
fn apply_parts(p: &mut Package, parts: ItemParts, installed: bool)
    ensures
        final(p)@ == (PackageView {
            description: or_else(opt_text(parts.desc), old(p)@.description),
            homepage: or_else(opt_text(parts.homepage), old(p)@.homepage),
            license: or_else(opt_text(parts.license), old(p)@.license),
            pinned: old(p)@.pinned || parts.pinned,
            outdated: old(p)@.outdated || parts.outdated || !installed,
            installed: if installed {
                true
            } else {
                old(p)@.installed
            },
            installed_version: if installed {
                opt_text(parts.installed_version)
            } else {
                old(p)@.installed_version
            },
            latest_version: or_else(opt_text(parts.latest), old(p)@.latest_version),
            ..old(p)@
        }),
{
    let ItemParts { desc, homepage, license, installed_version, latest, pinned, outdated } = parts;
    p.description = or_opt(desc, p.description.take());
    p.homepage = or_opt(homepage, p.homepage.take());
    p.license = or_opt(license, p.license.take());
    p.pinned = p.pinned || pinned;
    p.outdated = p.outdated || outdated || !installed;
    if installed {
        p.installed = true;
        p.installed_version = installed_version;
    }
    p.latest_version = or_opt(latest, p.latest_version.take());
}

/// Takes report items into account, in order, on a list of packages.
pub fn apply_items(packages: &mut Vec<Package>, items: Vec<BrewItem>, kind: PackageKind, installed: bool)
    ensures
        views(final(packages)@) == apply_items_spec(views(old(packages)@), items@, kind, installed),
{
    let ghost s0 = views(packages@);
    let ghost all = items@;
    for item in it: items
        invariant
            it.seq() == all,
            views(packages@) == apply_items_spec(s0, all.take(it.index() as int), kind, installed),
    {
        let ghost before = views(packages@);
        let ghost idx = it.index() as int;
        proof {
            assert(all.take(idx + 1).drop_last() == all.take(idx));
            assert(all.take(idx + 1).last() == item);
        }
        let (name, parts) = split_item(item);
        if !name.as_str().is_empty() {
            let n = packages.len();
            match find_last_key(packages, n, kind, &name) {
                Some(i) => {
                    proof {
                        assert(before.take(n as int) == before);
                    }
                    apply_parts(&mut packages[i], parts, installed);
                    assert(views(packages@) =~= before.update(i as int, apply_item(before[i as int], item, installed)));
                },
                None => {
                    proof {
                        assert(before.take(n as int) == before);
                    }
                    let mut p = Package::new(name, kind);
                    apply_parts(&mut p, parts, installed);
                    packages.push(p);
                    assert(views(packages@) =~= before.push(
                        apply_item(PackageView::fresh(item_name(item), kind), item, installed),
                    ));
                },
            }
        } else {
            assert(item_name(item).len() == 0);
        }
    }
    proof {
        assert(all.take(all.len() as int) == all);
    }
}

/// Records listed names, in order, as fresh packages of this kind.
fn list_names(packages: &mut Vec<Package>, names: Vec<String>, kind: PackageKind)
    ensures
        views(final(packages)@) == list_names_spec(views(old(packages)@), texts(names@), kind),
{
    let ghost s0 = views(packages@);
    let ghost all = names@;
    for name in it: names
        invariant
            it.seq() == all,
            views(packages@) == list_names_spec(s0, texts(all.take(it.index() as int)), kind),
    {
        let ghost before = views(packages@);
        let ghost idx = it.index() as int;
        proof {
            assert(texts(all.take(idx + 1)).drop_last() == texts(all.take(idx)));
            assert(texts(all.take(idx + 1)).last() == name@);
            assert(before.take(before.len() as int) == before);
        }
        let n = packages.len();
        match find_last_key(packages, n, kind, &name) {
            Some(i) => {
                packages.set(i, Package::new(name, kind));
                assert(views(packages@) =~= before.update(
                    i as int,
                    PackageView::fresh(all[idx]@, kind),
                ));
            },
            None => {
                packages.push(Package::new(name, kind));
                assert(views(packages@) =~= before.push(PackageView::fresh(all[idx]@, kind)));
            },
        }
    }
    proof {
        assert(all.take(all.len() as int) == all);
    }
}

/// Applies a bulk metadata item's parts to a package.
fn apply_metadata_parts(p: &mut Package, parts: ItemParts)
    ensures
        final(p)@ == (PackageView {
            description: Some(
                match opt_text(parts.desc) {
                    Some(d) => d,
                    None => "No description provided by Homebrew"@,
                },
            ),
            homepage: or_else(opt_text(parts.homepage), old(p)@.homepage),
            license: or_else(opt_text(parts.license), old(p)@.license),
            latest_version: or_else(opt_text(parts.latest), old(p)@.latest_version),
            ..old(p)@
        }),
{
    let ItemParts { desc, homepage, license, installed_version: _, latest, pinned: _, outdated: _ } =
        parts;
    p.description = Some(
        match desc {
            Some(d) => d,
            None => owned("No description provided by Homebrew"),
        },
    );
    if homepage.is_some() {
        p.homepage = homepage;
    }
    if license.is_some() {
        p.license = license;
    }
    if latest.is_some() {
        p.latest_version = latest;
    }
}

/// Takes bulk metadata items into account, in order, on a list of packages.
fn apply_metadata_items(packages: &mut Vec<Package>, items: Vec<BrewItem>, kind: PackageKind)
    ensures
        views(final(packages)@) == apply_metadata_spec(views(old(packages)@), items@, kind),
{
    let ghost s0 = views(packages@);
    let ghost all = items@;
    for item in it: items
        invariant
            it.seq() == all,
            views(packages@) == apply_metadata_spec(s0, all.take(it.index() as int), kind),
    {
        let ghost before = views(packages@);
        let ghost idx = it.index() as int;
        proof {
            assert(all.take(idx + 1).drop_last() == all.take(idx));
            assert(all.take(idx + 1).last() == item);
            assert(before.take(before.len() as int) == before);
        }
        let (name, parts) = split_item(item);
        if !name.as_str().is_empty() {
            let n = packages.len();
            match find_last_key(packages, n, kind, &name) {
                Some(i) => {
                    apply_metadata_parts(&mut packages[i], parts);
                    assert(views(packages@) =~= before.update(i as int, apply_metadata(before[i as int], item)));
                },
                None => {
                    let mut p = Package::new(name, kind);
                    apply_metadata_parts(&mut p, parts);
                    packages.push(p);
                    assert(views(packages@) =~= before.push(
                        apply_metadata(PackageView::fresh(item_name(item), kind), item),
                    ));
                },
            }
        }
    }
    proof {
        assert(all.take(all.len() as int) == all);
    }
}

/// Fills a missing value from a source.
fn fill_missing(target: &mut Option<String>, source: &Option<String>)
    ensures
        opt_text(*final(target)) == fill(opt_text(*old(target)), opt_text(*source)),
{
    if target.is_none() {
        *target = copy_opt(source);
    }
}

// ---------------------------------------------------------------------------
// Sorting by name
// ---------------------------------------------------------------------------

proof fn lemma_text_le_transitive(a: Seq<char>, b: Seq<char>, c: Seq<char>)
    requires
        text_le(a, b),
        text_le(b, c),
    ensures
        text_le(a, c),
{
    lemma_text_order(a, b, c);
    lemma_text_order(c, a, b);
    lemma_text_order(b, c, a);
}

/// Lists with the same elements have views with the same elements.
proof fn lemma_views_multiset(s: Seq<Package>, t: Seq<Package>)
    requires
        s.to_multiset() == t.to_multiset(),
    ensures
        views(s).to_multiset() == views(t).to_multiset(),
    decreases s.len(),
{
    broadcast use vstd::seq_lib::group_to_multiset_ensures;

    if s.len() == 0 {
        assert(s.to_multiset().len() == 0);
        assert(t.to_multiset().len() == 0);
        assert(t.len() == 0);
        assert(views(s) =~= views(t));
    } else {
        let x = s.last();
        let s0 = s.drop_last();
        assert(s0.push(x) =~= s);
        vstd::seq_lib::to_multiset_build(s0, x);
        assert(t.to_multiset().count(x) > 0);
        assert(t.contains(x));
        let k = choose|k: int| 0 <= k < t.len() && t[k] == x;
        let t0 = t.remove(k);
        assert(t0.to_multiset() =~= t.to_multiset().remove(x));
        assert(s0.to_multiset() =~= s.to_multiset().remove(x));
        lemma_views_multiset(s0, t0);
        assert(views(s) =~= views(s0).push(x@));
        vstd::seq_lib::to_multiset_build(views(s0), x@);
        assert(views(t).remove(k) =~= views(t0));
        assert(views(t)[k] == x@);
        assert(views(t0).to_multiset() =~= views(t).to_multiset().remove(x@));
        assert(views(t).to_multiset().count(x@) > 0);
        assert(views(t).to_multiset() =~= views(t0).to_multiset().insert(x@));
    }
}

/// The packages of `v`, in order of name.
pub fn sort_by_name(v: Vec<Package>) -> (r: Vec<Package>)
    ensures
        sorted_listing(views(r@), views(v@)),
{
    let before = |a: &Package, b: &Package| -> (x: bool)
        ensures
            x == text_lt(a.name@, b.name@),
        { text_less(a.name.as_str(), b.name.as_str()) };
    let ghost lt = |a: Package, b: Package| text_lt(a.name@, b.name@);
    proof {
        assert forall|a: Package, b: Package| #[trigger] lt(a, b) implies !lt(b, a) by {
            lemma_text_order(a.name@, b.name@, a.name@);
        }
        assert forall|a: Package, b: Package, c: Package|
            #![trigger lt(b, a), lt(c, b)]
            !lt(b, a) && !lt(c, b) implies !lt(c, a) by {
            lemma_text_le_transitive(a.name@, b.name@, c.name@);
        }
    }
    let r = merge_sort(v, &before, Ghost(lt));
    proof {
        lemma_views_multiset(r@, v@);
        assert forall|i: int, j: int| 0 <= i < j < views(r@).len() implies text_le(
            #[trigger] views(r@)[i].name,
            #[trigger] views(r@)[j].name,
        ) by {
            assert(!lt(r@[j], r@[i]));
        }
    }
    r
}

// ---------------------------------------------------------------------------
// The catalog
// ---------------------------------------------------------------------------

/// The items of an optional report's formulae; none without a report.
pub open spec fn report_formulae(r: Option<BrewJson>) -> Seq<BrewItem> {
    match r {
        Some(j) => j.formulae@,
        None => Seq::empty(),
    }
}

/// The items of an optional report's casks; none without a report.
pub open spec fn report_casks(r: Option<BrewJson>) -> Seq<BrewItem> {
    match r {
        Some(j) => j.casks@,
        None => Seq::empty(),
    }
}

/// The packages of a catalog built from the formula and cask listings, the
/// report on installed packages and, when it could be read, the report on
/// outdated packages.
pub open spec fn catalog_entries(
    formulae: Seq<char>,
    casks: Seq<char>,
    installed: BrewJson,
    outdated: Option<BrewJson>,
) -> Seq<PackageView> {
    let s0 = list_names_spec(Seq::empty(), listed_spec(formulae), PackageKind::Formula);
    let s1 = list_names_spec(s0, listed_spec(casks), PackageKind::Cask);
    let s2 = apply_items_spec(s1, installed.formulae@, PackageKind::Formula, true);
    let s3 = apply_items_spec(s2, installed.casks@, PackageKind::Cask, true);
    let s4 = apply_items_spec(s3, report_formulae(outdated), PackageKind::Formula, false);
    apply_items_spec(s4, report_casks(outdated), PackageKind::Cask, false)
}

/// What a detail report yields: its first formula, else its first cask,
/// taken as a report on installed packages.
pub open spec fn detail_entries(j: BrewJson) -> Seq<PackageView> {
    if j.formulae@.len() > 0 {
        step_item(Seq::empty(), j.formulae@[0], PackageKind::Formula, true)
    } else if j.casks@.len() > 0 {
        step_item(Seq::empty(), j.casks@[0], PackageKind::Cask, true)
    } else {
        Seq::empty()
    }
}

/// The package a detail report describes, installed exactly when the report
/// names an installed version; none when it describes no named package.
pub open spec fn detail_spec(j: BrewJson) -> Option<PackageView> {
    let s = detail_entries(j);
    if s.len() > 0 {
        Some(PackageView { installed: s[0].installed_version is Some, ..s[0] })
    } else {
        None
    }
}

/// Every package `brew` knows of, and the taps it uses.
#[derive(Clone, Debug)]
pub struct Catalog {
    pub packages: Vec<Package>,
    pub taps: Vec<String>,
}

impl Default for Catalog {
    /// An empty catalog.
    fn default() -> (r: Catalog)
        ensures
            r.packages@.len() == 0 && r.taps@.len() == 0,
    {
        Catalog { packages: Vec::new(), taps: Vec::new() }
    }
}

impl Catalog {
    /// The catalog built from `brew`'s listings of formulae, casks and taps
    /// (one name per line) and its reports on installed and outdated packages.
    /// A report on installed packages that could not be read is an error; one
    /// on outdated packages that could not be read (`None`) counts as empty.
    /// The packages come out in order of name.
    pub fn from_outputs(
        formulae: &str,
        casks: &str,
        installed: Result<BrewJson, String>,
        outdated: Option<BrewJson>,
        taps: &str,
    ) -> (r: Result<Catalog, String>)
        ensures
            match installed {
                Err(e) => r is Err && r->Err_0@ == "cannot parse installed packages: "@ + e@,
                Ok(inst) => r is Ok && sorted_listing(
                    views(r->Ok_0.packages@),
                    catalog_entries(formulae@, casks@, inst, outdated),
                ) && keys_unique(views(r->Ok_0.packages@)) && texts(r->Ok_0.taps@) == listed_spec(
                    taps@,
                ),
            },
    {
        let installed_report = match installed {
            Ok(j) => j,
            Err(e) => {
                return Err(concat("cannot parse installed packages: ", e.as_str()));
            },
        };
        let outdated_report = match outdated {
            Some(j) => j,
            None => BrewJson::default(),
        };
        let ghost inst = installed_report;
        assert(report_formulae(outdated) =~= outdated_report.formulae@);
        assert(report_casks(outdated) =~= outdated_report.casks@);
        let mut packages: Vec<Package> = Vec::new();
        assert(views(packages@) =~= Seq::<PackageView>::empty());
        let formula_names = listed_lines(formulae);
        assert(texts(formula_names@) =~= listed_spec(formulae@));
        list_names(&mut packages, formula_names, PackageKind::Formula);
        let cask_names = listed_lines(casks);
        assert(texts(cask_names@) =~= listed_spec(casks@));
        list_names(&mut packages, cask_names, PackageKind::Cask);
        let BrewJson { formulae: installed_formulae, casks: installed_casks } = installed_report;
        let BrewJson { formulae: outdated_formulae, casks: outdated_casks } = outdated_report;
        apply_items(&mut packages, installed_formulae, PackageKind::Formula, true);
        apply_items(&mut packages, installed_casks, PackageKind::Cask, true);
        apply_items(&mut packages, outdated_formulae, PackageKind::Formula, false);
        apply_items(&mut packages, outdated_casks, PackageKind::Cask, false);
        assert(views(packages@) == catalog_entries(formulae@, casks@, inst, outdated));
        let ghost unsorted = views(packages@);
        let packages = sort_by_name(packages);
        proof {
            law_catalog_keys_unique(formulae@, casks@, inst, outdated, Seq::empty(), Seq::empty());
            lemma_unique_by_multiset(views(packages@), unsorted);
        }
        let tap_names = listed_lines(taps);
        assert(texts(tap_names@) =~= listed_spec(taps@));
        Ok(Catalog { packages, taps: tap_names })
    }

    /// The number of installed packages.
    pub fn installed_count(&self) -> (r: usize)
        ensures
            r == installed_count_spec(views(self.packages@)),
    {
        let ghost s = views(self.packages@);
        let mut count: usize = 0;
        let mut i: usize = 0;
        while i < self.packages.len()
            invariant
                s == views(self.packages@),
                i <= s.len(),
                count == installed_count_spec(s.take(i as int)),
                count <= i,
            decreases s.len() - i,
        {
            assert(s.take(i + 1).drop_last() == s.take(i as int));
            if self.packages[i].installed {
                count = count + 1;
            }
            i = i + 1;
        }
        assert(s.take(s.len() as int) == s);
        count
    }

    /// The number of outdated packages.
    pub fn outdated_count(&self) -> (r: usize)
        ensures
            r == outdated_count_spec(views(self.packages@)),
    {
        let ghost s = views(self.packages@);
        let mut count: usize = 0;
        let mut i: usize = 0;
        while i < self.packages.len()
            invariant
                s == views(self.packages@),
                i <= s.len(),
                count == outdated_count_spec(s.take(i as int)),
                count <= i,
            decreases s.len() - i,
        {
            assert(s.take(i + 1).drop_last() == s.take(i as int));
            if self.packages[i].outdated {
                count = count + 1;
            }
            i = i + 1;
        }
        assert(s.take(s.len() as int) == s);
        count
    }

    /// The package a detail report (`brew info --json=v2` on one package)
    /// describes. The package counts as installed only when the report names
    /// an installed version.
    pub fn package_from_json(parsed: Result<BrewJson, String>) -> (r: Result<Package, String>)
        ensures
            match parsed {
                Err(e) => r is Err && r->Err_0@ == "cannot parse package details: "@ + e@,
                Ok(j) => match detail_spec(j) {
                    Some(v) => r is Ok && r->Ok_0@ == v,
                    None => r is Err && r->Err_0@ == "Homebrew returned no package details"@,
                },
            },
    {
        let report = match parsed {
            Ok(j) => j,
            Err(e) => {
                return Err(concat("cannot parse package details: ", e.as_str()));
            },
        };
        let ghost j = report;
        assert(parsed == Ok::<BrewJson, String>(j));
        let BrewJson { formulae: mut formulae, casks: mut casks } = report;
        let mut packages: Vec<Package> = Vec::new();
        assert(views(packages@) =~= Seq::<PackageView>::empty());
        if formulae.len() > 0 {
            let item = formulae.swap_remove(0);
            assert(item == j.formulae@[0]);
            let items = vec![item];
            assert(items@.drop_last() =~= Seq::<BrewItem>::empty());
            assert(items@.last() == item);
            apply_items(&mut packages, items, PackageKind::Formula, true);
            assert(apply_items_spec(Seq::empty(), items@.drop_last(), PackageKind::Formula, true) =~= Seq::<PackageView>::empty());
            assert(views(packages@) == step_item(Seq::empty(), item, PackageKind::Formula, true));
        } else if casks.len() > 0 {
            let item = casks.swap_remove(0);
            assert(item == j.casks@[0]);
            let items = vec![item];
            assert(items@.drop_last() =~= Seq::<BrewItem>::empty());
            assert(items@.last() == item);
            apply_items(&mut packages, items, PackageKind::Cask, true);
            assert(apply_items_spec(Seq::empty(), items@.drop_last(), PackageKind::Cask, true) =~= Seq::<PackageView>::empty());
            assert(views(packages@) == step_item(Seq::empty(), item, PackageKind::Cask, true));
        }
        assert(views(packages@) == detail_entries(j));
        match packages.pop() {
            Some(mut package) => {
                package.installed = package.installed_version.is_some();
                Ok(package)
            },
            None => Err(owned("Homebrew returned no package details")),
        }
    }

    /// Enriches the catalog with bulk metadata on formulae and casks, then
    /// puts it back in order of name. Metadata that could not be read is an
    /// error, and then the catalog is left as it was.
    pub fn apply_metadata_outputs(
        &mut self,
        formula_items: Result<Vec<BrewItem>, String>,
        cask_items: Result<Vec<BrewItem>, String>,
    ) -> (r: Result<(), String>)
        ensures
            match (formula_items, cask_items) {
                (Err(e), _) => r is Err && r->Err_0@ == "cannot parse formula metadata: "@ + e@
                    && *final(self) == *old(self),
                (Ok(_), Err(e)) => r is Err && r->Err_0@ == "cannot parse cask metadata: "@ + e@
                    && *final(self) == *old(self),
                (Ok(fs), Ok(cs)) => r is Ok && final(self).taps == old(self).taps && sorted_listing(
                    views(final(self).packages@),
                    apply_metadata_spec(
                        apply_metadata_spec(views(old(self).packages@), fs@, PackageKind::Formula),
                        cs@,
                        PackageKind::Cask,
                    ),
                ),
            },
    {
        let formulae = match formula_items {
            Ok(v) => v,
            Err(e) => {
                return Err(concat("cannot parse formula metadata: ", e.as_str()));
            },
        };
        let casks = match cask_items {
            Ok(v) => v,
            Err(e) => {
                return Err(concat("cannot parse cask metadata: ", e.as_str()));
            },
        };
        let mut packages: Vec<Package> = Vec::new();
        std::mem::swap(&mut packages, &mut self.packages);
        apply_metadata_items(&mut packages, formulae, PackageKind::Formula);
        apply_metadata_items(&mut packages, casks, PackageKind::Cask);
        self.packages = sort_by_name(packages);
        Ok(())
    }

    /// Fills in what the catalog lacks from a cached catalog: a known package
    /// takes the description, homepage, license and newest version it lacks
    /// from its cached copy; a cached package the catalog does not know is
    /// added as not installed. The catalog is then put back in order of name.
    pub fn merge_cached_metadata(&mut self, cached: &Catalog)
        ensures
            final(self).taps == old(self).taps,
            sorted_listing(
                views(final(self).packages@),
                merge_cached_spec(
                    views(old(self).packages@),
                    old(self).packages@.len() as int,
                    views(cached.packages@),
                ),
            ),
    {
        let n = self.packages.len();
        let ghost s0 = views(self.packages@);
        let ghost cs = views(cached.packages@);
        let mut packages: Vec<Package> = Vec::new();
        std::mem::swap(&mut packages, &mut self.packages);
        let mut i: usize = 0;
        while i < cached.packages.len()
            invariant
                cs == views(cached.packages@),
                i <= cs.len(),
                n <= packages@.len(),
                views(packages@) == merge_cached_spec(s0, n as int, cs.take(i as int)),
            decreases cs.len() - i,
        {
            let c = &cached.packages[i];
            let ghost before = views(packages@);
            proof {
                assert(cs.take(i + 1).drop_last() == cs.take(i as int));
                assert(cs.take(i + 1).last() == c@);
            }
            match find_last_key(&packages, n, c.kind, &c.name) {
                Some(k) => {
                    let p = &mut packages[k];
                    fill_missing(&mut p.description, &c.description);
                    fill_missing(&mut p.homepage, &c.homepage);
                    fill_missing(&mut p.license, &c.license);
                    fill_missing(&mut p.latest_version, &c.latest_version);
                    assert(views(packages@) =~= before.update(k as int, fill_from_cache(before[k as int], c@)));
                },
                None => {
                    let mut p = c.duplicate();
                    p.installed = false;
                    p.outdated = false;
                    p.pinned = false;
                    p.installed_version = None;
                    packages.push(p);
                    assert(views(packages@) =~= before.push(from_cache(c@)));
                },
            }
            i = i + 1;
        }
        assert(cs.take(cs.len() as int) == cs);
        self.packages = sort_by_name(packages);
    }
}

} // verus!

verus! {

/// No two packages share both kind and name.
pub open spec fn keys_unique(s: Seq<PackageView>) -> bool {
    forall|i: int, j: int|
        0 <= i < j < s.len() ==> !(#[trigger] s[i].kind == #[trigger] s[j].kind && s[i].name == s[j].name)
}

proof fn lemma_last_index_of_key(s: Seq<PackageView>, kind: PackageKind, name: Seq<char>)
    ensures
        -1 <= last_index_of_key(s, kind, name) < s.len(),
        last_index_of_key(s, kind, name) >= 0 ==> s[last_index_of_key(s, kind, name)].kind == kind
            && s[last_index_of_key(s, kind, name)].name == name,
        last_index_of_key(s, kind, name) == -1 ==> forall|i: int|
            0 <= i < s.len() ==> !(#[trigger] s[i].kind == kind && s[i].name == name),
    decreases s.len(),
{
    if s.len() > 0 {
        lemma_last_index_of_key(s.drop_last(), kind, name);
        if last_index_of_key(s, kind, name) == -1 {
            assert forall|i: int| 0 <= i < s.len() implies !(#[trigger] s[i].kind == kind && s[i].name
                == name) by {
                if i < s.len() - 1 {
                    assert(s.drop_last()[i] == s[i]);
                }
            }
        }
    }
}

/// Replacing a package by one with the same key, or adding one with a new
/// key, keeps keys unique.
proof fn lemma_keyed_step(s: Seq<PackageView>, kind: PackageKind, name: Seq<char>, p: PackageView)
    requires
        keys_unique(s),
        p.kind == kind,
        p.name == name,
    ensures
        ({
            let i = last_index_of_key(s, kind, name);
            keys_unique(if i >= 0 {
                s.update(i, p)
            } else {
                s.push(p)
            })
        }),
{
    lemma_last_index_of_key(s, kind, name);
}

proof fn lemma_list_names_unique(s: Seq<PackageView>, names: Seq<Seq<char>>, kind: PackageKind)
    requires
        keys_unique(s),
    ensures
        keys_unique(list_names_spec(s, names, kind)),
    decreases names.len(),
{
    if names.len() > 0 {
        lemma_list_names_unique(s, names.drop_last(), kind);
        let s0 = list_names_spec(s, names.drop_last(), kind);
        lemma_keyed_step(s0, kind, names.last(), PackageView::fresh(names.last(), kind));
    }
}

proof fn lemma_apply_items_unique(
    s: Seq<PackageView>,
    items: Seq<BrewItem>,
    kind: PackageKind,
    installed: bool,
)
    requires
        keys_unique(s),
    ensures
        keys_unique(apply_items_spec(s, items, kind, installed)),
    decreases items.len(),
{
    if items.len() > 0 {
        lemma_apply_items_unique(s, items.drop_last(), kind, installed);
        let s0 = apply_items_spec(s, items.drop_last(), kind, installed);
        let item = items.last();
        let name = item_name(item);
        if name.len() > 0 {
            let i = last_index_of_key(s0, kind, name);
            lemma_last_index_of_key(s0, kind, name);
            if i >= 0 {
                lemma_keyed_step(s0, kind, name, apply_item(s0[i], item, installed));
            } else {
                lemma_keyed_step(s0, kind, name, apply_item(PackageView::fresh(name, kind), item, installed));
            }
        }
    }
}

proof fn lemma_apply_metadata_unique(s: Seq<PackageView>, items: Seq<BrewItem>, kind: PackageKind)
    requires
        keys_unique(s),
    ensures
        keys_unique(apply_metadata_spec(s, items, kind)),
    decreases items.len(),
{
    if items.len() > 0 {
        lemma_apply_metadata_unique(s, items.drop_last(), kind);
        let s0 = apply_metadata_spec(s, items.drop_last(), kind);
        let item = items.last();
        let name = item_name(item);
        if name.len() > 0 {
            let i = last_index_of_key(s0, kind, name);
            lemma_last_index_of_key(s0, kind, name);
            if i >= 0 {
                lemma_keyed_step(s0, kind, name, apply_metadata(s0[i], item));
            } else {
                lemma_keyed_step(s0, kind, name, apply_metadata(PackageView::fresh(name, kind), item));
            }
        }
    }
}

/// Rearranging keeps keys unique.
proof fn lemma_unique_by_multiset(s: Seq<PackageView>, t: Seq<PackageView>)
    requires
        keys_unique(t),
        s.to_multiset() == t.to_multiset(),
    ensures
        keys_unique(s),
{
    broadcast use vstd::seq_lib::group_to_multiset_ensures;

    assert forall|i: int, j: int| 0 <= i < j < s.len() implies !(#[trigger] s[i].kind == #[trigger] s[j].kind
        && s[i].name == s[j].name) by {
        if s[i].kind == s[j].kind && s[i].name == s[j].name {
            assert(s.contains(s[i]));
            assert(t.to_multiset().count(s[i]) > 0);
            let a = choose|a: int| 0 <= a < t.len() && t[a] == s[i];
            if s[i] == s[j] {
                assert(s.remove(i).contains(s[j])) by {
                    assert(s.remove(i)[j - 1] == s[j]);
                }
                assert(s.remove(i).to_multiset().count(s[i]) > 0);
                assert(s.to_multiset().count(s[i]) >= 2);
                assert(t.remove(a).to_multiset().count(s[i]) > 0);
                assert(t.remove(a).contains(s[i]));
                let b = choose|b: int| 0 <= b < t.remove(a).len() && t.remove(a)[b] == s[i];
                if b < a {
                    assert(t[b] == s[i]);
                } else {
                    assert(t[b + 1] == s[i]);
                }
            } else {
                assert(s.contains(s[j]));
                assert(t.to_multiset().count(s[j]) > 0);
                let b = choose|b: int| 0 <= b < t.len() && t[b] == s[j];
                assert(a != b);
            }
        }
    }
}

/// A catalog built from `brew`'s listings and reports holds each package
/// once per kind, and enriching it with metadata keeps it so.
pub proof fn law_catalog_keys_unique(
    formulae: Seq<char>,
    casks: Seq<char>,
    installed: BrewJson,
    outdated: Option<BrewJson>,
    fs: Seq<BrewItem>,
    cs: Seq<BrewItem>,
)
    ensures
        keys_unique(catalog_entries(formulae, casks, installed, outdated)),
        keys_unique(
            apply_metadata_spec(
                apply_metadata_spec(
                    catalog_entries(formulae, casks, installed, outdated),
                    fs,
                    PackageKind::Formula,
                ),
                cs,
                PackageKind::Cask,
            ),
        ),
{
    let s0 = list_names_spec(Seq::empty(), crate::text::listed_spec(formulae), PackageKind::Formula);
    lemma_list_names_unique(Seq::empty(), crate::text::listed_spec(formulae), PackageKind::Formula);
    let s1 = list_names_spec(s0, crate::text::listed_spec(casks), PackageKind::Cask);
    lemma_list_names_unique(s0, crate::text::listed_spec(casks), PackageKind::Cask);
    let s2 = apply_items_spec(s1, installed.formulae@, PackageKind::Formula, true);
    lemma_apply_items_unique(s1, installed.formulae@, PackageKind::Formula, true);
    let s3 = apply_items_spec(s2, installed.casks@, PackageKind::Cask, true);
    lemma_apply_items_unique(s2, installed.casks@, PackageKind::Cask, true);
    let s4 = apply_items_spec(s3, report_formulae(outdated), PackageKind::Formula, false);
    lemma_apply_items_unique(s3, report_formulae(outdated), PackageKind::Formula, false);
    lemma_apply_items_unique(s4, report_casks(outdated), PackageKind::Cask, false);
    let e = catalog_entries(formulae, casks, installed, outdated);
    lemma_apply_metadata_unique(e, fs, PackageKind::Formula);
    lemma_apply_metadata_unique(apply_metadata_spec(e, fs, PackageKind::Formula), cs, PackageKind::Cask);
}


/// What a merge with the cache keeps of a package known before it: its
/// identity, whether it is installed, outdated or pinned, its installed
/// version, and every piece of metadata it already had.
pub open spec fn keeps_current(before: PackageView, after: PackageView) -> bool {
    &&& after.name == before.name
    &&& after.kind == before.kind
    &&& after.installed == before.installed
    &&& after.outdated == before.outdated
    &&& after.pinned == before.pinned
    &&& after.installed_version == before.installed_version
    &&& (before.description is Some ==> after.description == before.description)
    &&& (before.homepage is Some ==> after.homepage == before.homepage)
    &&& (before.license is Some ==> after.license == before.license)
    &&& (before.latest_version is Some ==> after.latest_version == before.latest_version)
}

/// Merging a cached catalog trusts what Homebrew reports now: the packages
/// known before keep their state and their metadata, and packages known only
/// from the cache count as neither installed, outdated nor pinned.
pub proof fn law_cache_keeps_current_state(s: Seq<PackageView>, cached: Seq<PackageView>)
    ensures
        ({
            let m = merge_cached_spec(s, s.len() as int, cached);
            &&& s.len() <= m.len()
            &&& forall|i: int| 0 <= i < s.len() ==> keeps_current(s[i], #[trigger] m[i])
            &&& forall|i: int|
                s.len() <= i < m.len() ==> !(#[trigger] m[i]).installed && !m[i].outdated
                    && !m[i].pinned && m[i].installed_version is None
        }),
    decreases cached.len(),
{
    if cached.len() > 0 {
        law_cache_keeps_current_state(s, cached.drop_last());
        let n = s.len() as int;
        let m0 = merge_cached_spec(s, n, cached.drop_last());
        let c = cached.last();
        lemma_last_index_of_key(m0.take(n), c.kind, c.name);
        let m = merge_cached_spec(s, n, cached);
        assert(m == step_cached(m0, n, c));
        let k = last_index_of_key(m0.take(n), c.kind, c.name);
        if k >= 0 {
            assert(m0.take(n)[k] == m0[k]);
            assert forall|i: int| 0 <= i < s.len() implies keeps_current(s[i], #[trigger] m[i]) by {
                if i != k {
                    assert(m[i] == m0[i]);
                }
            }
            assert forall|i: int| s.len() <= i < m.len() implies !(#[trigger] m[i]).installed
                && !m[i].outdated && !m[i].pinned && m[i].installed_version is None by {
                assert(m[i] == m0[i]);
            }
        } else {
            assert forall|i: int| 0 <= i < s.len() implies keeps_current(s[i], #[trigger] m[i]) by {
                assert(m[i] == m0[i]);
            }
            assert forall|i: int| s.len() <= i < m.len() implies !(#[trigger] m[i]).installed
                && !m[i].outdated && !m[i].pinned && m[i].installed_version is None by {
                if i < m0.len() {
                    assert(m[i] == m0[i]);
                }
            }
        }
    }
}

/// `m` holds a package with the key of the cached package `c` that a merge
/// with `c` leaves as it is.
pub open spec fn settled(m: Seq<PackageView>, c: PackageView) -> bool {
    exists|j: int|
        0 <= j < m.len() && (#[trigger] m[j]).kind == c.kind && m[j].name == c.name && fill_from_cache(
            m[j],
            c,
        ) == m[j]
}

/// What a first merge with cached packages leaves: at least the `n`
/// packages it started from, keys still unique, each cached package settled,
/// and every added package keyed as one from the cache.
pub open spec fn merged_well(n: int, cached: Seq<PackageView>, m: Seq<PackageView>) -> bool {
    &&& 0 <= n <= m.len()
    &&& keys_unique(m)
    &&& forall|k: int| 0 <= k < cached.len() ==> settled(m, #[trigger] cached[k])
    &&& forall|j: int|
        n <= j < m.len() ==> exists|k: int|
            0 <= k < cached.len() && (#[trigger] m[j]).kind == cached[k].kind && m[j].name == cached[k].name
}

/// Merging in the last cached package when its key is found.
proof fn lemma_merge_step_found(n: int, cached: Seq<PackageView>, m0: Seq<PackageView>, i: int)
    requires
        cached.len() > 0,
        keys_unique(cached),
        merged_well(n, cached.drop_last(), m0),
        i == last_index_of_key(m0.take(n), cached.last().kind, cached.last().name),
        0 <= i < n,
        m0[i].kind == cached.last().kind,
        m0[i].name == cached.last().name,
    ensures
        merged_well(n, cached, m0.update(i, fill_from_cache(m0[i], cached.last()))),
{
    let c0 = cached.drop_last();
    let c = cached.last();
    let m = m0.update(i, fill_from_cache(m0[i], c));
    assert(keys_unique(m)) by {
        assert forall|a: int, b: int| 0 <= a < b < m.len() implies !(#[trigger] m[a].kind
            == #[trigger] m[b].kind && m[a].name == m[b].name) by {
            assert(m[a].kind == m0[a].kind && m[a].name == m0[a].name);
            assert(m[b].kind == m0[b].kind && m[b].name == m0[b].name);
        }
    }
    assert forall|k: int| 0 <= k < cached.len() implies settled(m, #[trigger] cached[k]) by {
        if k < c0.len() {
            assert(c0[k] == cached[k]);
            assert(settled(m0, c0[k]));
            let j = choose|j: int|
                0 <= j < m0.len() && (#[trigger] m0[j]).kind == c0[k].kind && m0[j].name == c0[k].name
                    && fill_from_cache(m0[j], c0[k]) == m0[j];
            if j == i {
                assert(!(cached[k].kind == cached[cached.len() - 1].kind && cached[k].name
                    == cached[cached.len() - 1].name));
            }
            assert(m[j] == m0[j]);
        } else {
            assert(m[i] == fill_from_cache(m0[i], c));
        }
    }
    assert forall|j: int| n <= j < m.len() implies exists|k: int|
        0 <= k < cached.len() && (#[trigger] m[j]).kind == cached[k].kind && m[j].name == cached[k].name by {
        assert(m[j] == m0[j]);
        let k = choose|k: int|
            0 <= k < c0.len() && (#[trigger] m0[j]).kind == c0[k].kind && m0[j].name == c0[k].name;
        assert(c0[k] == cached[k]);
    }
}

/// Merging in the last cached package when its key is not found.
proof fn lemma_merge_step_added(n: int, cached: Seq<PackageView>, m0: Seq<PackageView>)
    requires
        cached.len() > 0,
        keys_unique(cached),
        merged_well(n, cached.drop_last(), m0),
        forall|a: int|
            0 <= a < n ==> !(#[trigger] m0.take(n)[a].kind == cached.last().kind && m0.take(n)[a].name
                == cached.last().name),
    ensures
        merged_well(n, cached, m0.push(from_cache(cached.last()))),
{
    let c0 = cached.drop_last();
    let c = cached.last();
    let p = from_cache(c);
    let m = m0.push(p);
    assert(keys_unique(m)) by {
        assert forall|a: int, b: int| 0 <= a < b < m.len() implies !(#[trigger] m[a].kind
            == #[trigger] m[b].kind && m[a].name == m[b].name) by {
            if b == m0.len() {
                assert(m[a] == m0[a]);
                if a < n {
                    assert(m0.take(n)[a] == m0[a]);
                } else {
                    let k = choose|k: int|
                        0 <= k < c0.len() && (#[trigger] m0[a]).kind == c0[k].kind && m0[a].name
                            == c0[k].name;
                    assert(c0[k] == cached[k]);
                    assert(!(cached[k].kind == cached[cached.len() - 1].kind && cached[k].name
                        == cached[cached.len() - 1].name));
                }
            } else {
                assert(m[a] == m0[a] && m[b] == m0[b]);
            }
        }
    }
    assert forall|k: int| 0 <= k < cached.len() implies settled(m, #[trigger] cached[k]) by {
        if k < c0.len() {
            assert(c0[k] == cached[k]);
            assert(settled(m0, c0[k]));
            let j = choose|j: int|
                0 <= j < m0.len() && (#[trigger] m0[j]).kind == c0[k].kind && m0[j].name == c0[k].name
                    && fill_from_cache(m0[j], c0[k]) == m0[j];
            assert(m[j] == m0[j]);
        } else {
            assert(m[m0.len() as int] == p);
            assert(fill_from_cache(p, c) == p);
        }
    }
    assert forall|j: int| n <= j < m.len() implies exists|k: int|
        0 <= k < cached.len() && (#[trigger] m[j]).kind == cached[k].kind && m[j].name == cached[k].name by {
        if j < m0.len() {
            assert(m[j] == m0[j]);
            let k = choose|k: int|
                0 <= k < c0.len() && (#[trigger] m0[j]).kind == c0[k].kind && m0[j].name == c0[k].name;
            assert(c0[k] == cached[k]);
        } else {
            assert(m[j] == p);
            assert(cached[cached.len() - 1] == c);
        }
    }
}

/// A first merge with cached packages of distinct keys leaves the catalog
/// merged well.
proof fn lemma_first_merge(s: Seq<PackageView>, cached: Seq<PackageView>)
    requires
        keys_unique(s),
        keys_unique(cached),
    ensures
        merged_well(s.len() as int, cached, merge_cached_spec(s, s.len() as int, cached)),
    decreases cached.len(),
{
    let n = s.len() as int;
    if cached.len() > 0 {
        let c0 = cached.drop_last();
        let c = cached.last();
        assert(keys_unique(c0)) by {
            assert forall|i: int, j: int| 0 <= i < j < c0.len() implies !(#[trigger] c0[i].kind
                == #[trigger] c0[j].kind && c0[i].name == c0[j].name) by {
                assert(c0[i] == cached[i] && c0[j] == cached[j]);
            }
        }
        lemma_first_merge(s, c0);
        let m0 = merge_cached_spec(s, n, c0);
        lemma_last_index_of_key(m0.take(n), c.kind, c.name);
        let i = last_index_of_key(m0.take(n), c.kind, c.name);
        if i >= 0 {
            assert(m0.take(n)[i] == m0[i]);
            lemma_merge_step_found(n, cached, m0, i);
        } else {
            lemma_merge_step_added(n, cached, m0);
        }
    } else {
        assert(merged_well(n, cached, s)) by {
            assert forall|j: int| n <= j < s.len() implies exists|k: int|
                0 <= k < cached.len() && (#[trigger] s[j]).kind == cached[k].kind && s[j].name
                    == cached[k].name by {}
        }
    }
}

/// Merging again with packages that are all settled changes nothing.
proof fn lemma_settled_merge(t: Seq<PackageView>, cached: Seq<PackageView>)
    requires
        keys_unique(t),
        forall|k: int| 0 <= k < cached.len() ==> settled(t, #[trigger] cached[k]),
    ensures
        merge_cached_spec(t, t.len() as int, cached) == t,
    decreases cached.len(),
{
    if cached.len() > 0 {
        let c0 = cached.drop_last();
        let c = cached.last();
        assert forall|k: int| 0 <= k < c0.len() implies settled(t, #[trigger] c0[k]) by {
            assert(c0[k] == cached[k]);
        }
        lemma_settled_merge(t, c0);
        assert(t.take(t.len() as int) =~= t);
        assert(settled(t, cached[cached.len() - 1]));
        let j = choose|j: int|
            0 <= j < t.len() && (#[trigger] t[j]).kind == c.kind && t[j].name == c.name && fill_from_cache(t[j], c)
                == t[j];
        lemma_last_index_of_key(t, c.kind, c.name);
        let i = last_index_of_key(t, c.kind, c.name);
        if i != j {
            assert(!(t[j].kind == c.kind && t[j].name == c.name)) by {
                if i < j {
                    assert(!(t[i].kind == t[j].kind && t[i].name == t[j].name));
                } else {
                    assert(!(t[j].kind == t[i].kind && t[j].name == t[i].name));
                }
            }
        }
        assert(t.update(i, fill_from_cache(t[i], c)) =~= t);
    }
}

/// Merging the same cached catalog a second time changes nothing more: when
/// the catalog and the cache each hold a package once per kind and name, a
/// second merge into (any order of) the result of the first leaves it as it
/// is.
pub proof fn law_merging_cache_twice_changes_nothing(
    s: Seq<PackageView>,
    cached: Seq<PackageView>,
    t: Seq<PackageView>,
)
    requires
        keys_unique(s),
        keys_unique(cached),
        t.to_multiset() == merge_cached_spec(s, s.len() as int, cached).to_multiset(),
    ensures
        merge_cached_spec(t, t.len() as int, cached) == t,
{
    broadcast use vstd::seq_lib::group_to_multiset_ensures;

    let m = merge_cached_spec(s, s.len() as int, cached);
    lemma_first_merge(s, cached);
    lemma_unique_by_multiset(t, m);
    assert forall|k: int| 0 <= k < cached.len() implies settled(t, #[trigger] cached[k]) by {
        let c = cached[k];
        assert(settled(m, c));
        let j = choose|j: int|
            0 <= j < m.len() && (#[trigger] m[j]).kind == c.kind && m[j].name == c.name && fill_from_cache(m[j], c)
                == m[j];
        assert(m.contains(m[j]));
        assert(m.to_multiset().count(m[j]) > 0);
        assert(t.contains(m[j]));
        let a = choose|a: int| 0 <= a < t.len() && t[a] == m[j];
        assert(t[a] == m[j]);
    }
    lemma_settled_merge(t, cached);
}

/// `s` holds a pinned package of this kind and name.
pub open spec fn has_pinned(s: Seq<PackageView>, kind: PackageKind, name: Seq<char>) -> bool {
    exists|j: int| 0 <= j < s.len() && (#[trigger] s[j]).kind == kind && s[j].name == name && s[j].pinned
}

/// One report item never unpins a package.
proof fn lemma_step_keeps_pinned(
    s: Seq<PackageView>,
    item: BrewItem,
    kind: PackageKind,
    installed: bool,
    k: PackageKind,
    n: Seq<char>,
)
    requires
        has_pinned(s, k, n),
    ensures
        has_pinned(step_item(s, item, kind, installed), k, n),
{
    let j = choose|j: int| 0 <= j < s.len() && (#[trigger] s[j]).kind == k && s[j].name == n && s[j].pinned;
    let t = step_item(s, item, kind, installed);
    let name = item_name(item);
    if name.len() > 0 {
        lemma_last_index_of_key(s, kind, name);
        let i = last_index_of_key(s, kind, name);
        if i >= 0 {
            assert(t[j].kind == k && t[j].name == n && t[j].pinned);
        } else {
            assert(t[j] == s[j]);
        }
    }
}

/// Report items never unpin a package.
proof fn lemma_items_keep_pinned(
    s: Seq<PackageView>,
    items: Seq<BrewItem>,
    kind: PackageKind,
    installed: bool,
    k: PackageKind,
    n: Seq<char>,
)
    requires
        has_pinned(s, k, n),
    ensures
        has_pinned(apply_items_spec(s, items, kind, installed), k, n),
    decreases items.len(),
{
    if items.len() > 0 {
        lemma_items_keep_pinned(s, items.drop_last(), kind, installed, k, n);
        lemma_step_keeps_pinned(apply_items_spec(s, items.drop_last(), kind, installed), items.last(), kind, installed, k, n);
    }
}

/// A named report item that says the package is pinned leaves it pinned.
proof fn lemma_items_pin(
    s: Seq<PackageView>,
    items: Seq<BrewItem>,
    kind: PackageKind,
    installed: bool,
    x: int,
)
    requires
        0 <= x < items.len(),
        items[x].pinned,
        item_name(items[x]).len() > 0,
    ensures
        has_pinned(apply_items_spec(s, items, kind, installed), kind, item_name(items[x])),
    decreases items.len(),
{
    let s0 = apply_items_spec(s, items.drop_last(), kind, installed);
    if x < items.len() - 1 {
        assert(items.drop_last()[x] == items[x]);
        lemma_items_pin(s, items.drop_last(), kind, installed, x);
        lemma_step_keeps_pinned(s0, items.last(), kind, installed, kind, item_name(items[x]));
    } else {
        let item = items.last();
        let name = item_name(item);
        let t = step_item(s0, item, kind, installed);
        lemma_last_index_of_key(s0, kind, name);
        let i = last_index_of_key(s0, kind, name);
        if i >= 0 {
            assert(t[i].kind == kind && t[i].name == name && t[i].pinned);
        } else {
            assert(t[s0.len() as int].kind == kind && t[s0.len() as int].name == name
                && t[s0.len() as int].pinned);
        }
    }
}

/// Pinning reported by Homebrew shows in the catalog: every named item of the
/// reports on installed and on outdated packages that says it is pinned
/// leaves a pinned package of its kind and name in the catalog built from
/// them.
pub proof fn law_reported_pins_are_kept(
    formulae: Seq<char>,
    casks: Seq<char>,
    installed: BrewJson,
    outdated: Option<BrewJson>,
)
    ensures
        forall|x: int|
            0 <= x < installed.formulae@.len() && (#[trigger] installed.formulae@[x]).pinned && item_name(
                installed.formulae@[x],
            ).len() > 0 ==> has_pinned(
                catalog_entries(formulae, casks, installed, outdated),
                PackageKind::Formula,
                item_name(installed.formulae@[x]),
            ),
        forall|x: int|
            0 <= x < installed.casks@.len() && (#[trigger] installed.casks@[x]).pinned && item_name(
                installed.casks@[x],
            ).len() > 0 ==> has_pinned(
                catalog_entries(formulae, casks, installed, outdated),
                PackageKind::Cask,
                item_name(installed.casks@[x]),
            ),
        forall|x: int|
            0 <= x < report_formulae(outdated).len() && (#[trigger] report_formulae(outdated)[x]).pinned
                && item_name(report_formulae(outdated)[x]).len() > 0 ==> has_pinned(
                catalog_entries(formulae, casks, installed, outdated),
                PackageKind::Formula,
                item_name(report_formulae(outdated)[x]),
            ),
        forall|x: int|
            0 <= x < report_casks(outdated).len() && (#[trigger] report_casks(outdated)[x]).pinned
                && item_name(report_casks(outdated)[x]).len() > 0 ==> has_pinned(
                catalog_entries(formulae, casks, installed, outdated),
                PackageKind::Cask,
                item_name(report_casks(outdated)[x]),
            ),
{
    let s0 = list_names_spec(Seq::empty(), listed_spec(formulae), PackageKind::Formula);
    let s1 = list_names_spec(s0, listed_spec(casks), PackageKind::Cask);
    let f2 = installed.formulae@;
    let c3 = installed.casks@;
    let f4 = report_formulae(outdated);
    let c5 = report_casks(outdated);
    let s2 = apply_items_spec(s1, f2, PackageKind::Formula, true);
    let s3 = apply_items_spec(s2, c3, PackageKind::Cask, true);
    let s4 = apply_items_spec(s3, f4, PackageKind::Formula, false);
    let s5 = apply_items_spec(s4, c5, PackageKind::Cask, false);
    assert(s5 == catalog_entries(formulae, casks, installed, outdated));
    assert forall|x: int|
        0 <= x < f2.len() && (#[trigger] f2[x]).pinned && item_name(f2[x]).len() > 0 implies has_pinned(
        s5,
        PackageKind::Formula,
        item_name(f2[x]),
    ) by {
        let n = item_name(f2[x]);
        lemma_items_pin(s1, f2, PackageKind::Formula, true, x);
        lemma_items_keep_pinned(s2, c3, PackageKind::Cask, true, PackageKind::Formula, n);
        lemma_items_keep_pinned(s3, f4, PackageKind::Formula, false, PackageKind::Formula, n);
        lemma_items_keep_pinned(s4, c5, PackageKind::Cask, false, PackageKind::Formula, n);
    }
    assert forall|x: int|
        0 <= x < c3.len() && (#[trigger] c3[x]).pinned && item_name(c3[x]).len() > 0 implies has_pinned(
        s5,
        PackageKind::Cask,
        item_name(c3[x]),
    ) by {
        let n = item_name(c3[x]);
        lemma_items_pin(s2, c3, PackageKind::Cask, true, x);
        lemma_items_keep_pinned(s3, f4, PackageKind::Formula, false, PackageKind::Cask, n);
        lemma_items_keep_pinned(s4, c5, PackageKind::Cask, false, PackageKind::Cask, n);
    }
    assert forall|x: int|
        0 <= x < f4.len() && (#[trigger] f4[x]).pinned && item_name(f4[x]).len() > 0 implies has_pinned(
        s5,
        PackageKind::Formula,
        item_name(f4[x]),
    ) by {
        let n = item_name(f4[x]);
        lemma_items_pin(s3, f4, PackageKind::Formula, false, x);
        lemma_items_keep_pinned(s4, c5, PackageKind::Cask, false, PackageKind::Formula, n);
    }
    assert forall|x: int|
        0 <= x < c5.len() && (#[trigger] c5[x]).pinned && item_name(c5[x]).len() > 0 implies has_pinned(
        s5,
        PackageKind::Cask,
        item_name(c5[x]),
    ) by {
        lemma_items_pin(s4, c5, PackageKind::Cask, false, x);
    }
}

/// Two packages share a key: the same kind and name.
pub open spec fn same_key(a: PackageView, b: PackageView) -> bool {
    a.kind == b.kind && a.name == b.name
}

/// How a merge with the cache leaves each package known before it: as it was
/// when the cache has no package of its key, filled in from that package
/// when it has one.
proof fn lemma_cache_fill(s: Seq<PackageView>, cached: Seq<PackageView>)
    requires
        keys_unique(s),
        keys_unique(cached),
    ensures
        ({
            let m = merge_cached_spec(s, s.len() as int, cached);
            &&& s.len() <= m.len()
            &&& forall|i: int|
                0 <= i < s.len() && (forall|k: int| 0 <= k < cached.len() ==> !same_key(s[i], #[trigger] cached[k]))
                    ==> #[trigger] m[i] == s[i]
            &&& forall|i: int, k: int|
                0 <= i < s.len() && 0 <= k < cached.len() && same_key(s[i], cached[k]) ==> #[trigger] m[i]
                    == fill_from_cache(s[i], #[trigger] cached[k])
        }),
    decreases cached.len(),
{
    let n = s.len() as int;
    if cached.len() > 0 {
        let c0 = cached.drop_last();
        let c = cached.last();
        assert(keys_unique(c0)) by {
            assert forall|a: int, b: int| 0 <= a < b < c0.len() implies !(#[trigger] c0[a].kind
                == #[trigger] c0[b].kind && c0[a].name == c0[b].name) by {
                assert(c0[a] == cached[a] && c0[b] == cached[b]);
            }
        }
        lemma_cache_fill(s, c0);
        law_cache_keeps_current_state(s, c0);
        let m0 = merge_cached_spec(s, n, c0);
        let m = merge_cached_spec(s, n, cached);
        assert(m == step_cached(m0, n, c));
        lemma_last_index_of_key(m0.take(n), c.kind, c.name);
        let t = last_index_of_key(m0.take(n), c.kind, c.name);
        if t >= 0 {
            assert(m0.take(n)[t] == m0[t]);
            assert(keeps_current(s[t], m0[t]));
            assert(same_key(s[t], c));
            assert forall|k: int| 0 <= k < c0.len() implies !same_key(s[t], #[trigger] c0[k]) by {
                assert(c0[k] == cached[k]);
                assert(!(cached[k].kind == cached[cached.len() - 1].kind && cached[k].name
                    == cached[cached.len() - 1].name));
            }
            assert(m0[t] == s[t]);
            assert(m[t] == fill_from_cache(s[t], c));
            assert forall|i: int|
                0 <= i < s.len() && (forall|k: int| 0 <= k < cached.len() ==> !same_key(s[i], #[trigger] cached[k]))
                    implies #[trigger] m[i] == s[i] by {
                assert(!same_key(s[i], cached[cached.len() - 1]));
                assert(i != t);
                assert forall|k: int| 0 <= k < c0.len() implies !same_key(s[i], #[trigger] c0[k]) by {
                    assert(c0[k] == cached[k]);
                }
                assert(m[i] == m0[i]);
            }
            assert forall|i: int, k: int|
                0 <= i < s.len() && 0 <= k < cached.len() && same_key(s[i], cached[k]) implies #[trigger] m[i]
                    == fill_from_cache(s[i], #[trigger] cached[k]) by {
                if k == cached.len() - 1 {
                    if i != t {
                        assert(!(s[i].kind == s[t].kind && s[i].name == s[t].name));
                    }
                } else {
                    assert(c0[k] == cached[k]);
                    if i == t {
                        assert(!(cached[k].kind == cached[cached.len() - 1].kind && cached[k].name
                            == cached[cached.len() - 1].name));
                    }
                    assert(m[i] == m0[i]);
                }
            }
        } else {
            assert(m == m0.push(from_cache(c)));
            assert forall|i: int| 0 <= i < s.len() implies !same_key(s[i], c) && #[trigger] m[i] == m0[i] by {
                assert(keeps_current(s[i], m0[i]));
                assert(m0.take(n)[i] == m0[i]);
            }
            assert forall|i: int|
                0 <= i < s.len() && (forall|k: int| 0 <= k < cached.len() ==> !same_key(s[i], #[trigger] cached[k]))
                    implies #[trigger] m[i] == s[i] by {
                assert(m[i] == m0[i]);
                assert forall|k: int| 0 <= k < c0.len() implies !same_key(s[i], #[trigger] c0[k]) by {
                    assert(c0[k] == cached[k]);
                }
            }
            assert forall|i: int, k: int|
                0 <= i < s.len() && 0 <= k < cached.len() && same_key(s[i], cached[k]) implies #[trigger] m[i]
                    == fill_from_cache(s[i], #[trigger] cached[k]) by {
                assert(m[i] == m0[i]);
                if k == cached.len() - 1 {
                    assert(!same_key(s[i], c));
                } else {
                    assert(c0[k] == cached[k]);
                }
            }
        }
    }
}

/// A merge with the cache fills in what a package lacks from its cached copy
/// (the one of the same kind and name): each of description, homepage,
/// license and latest version stays as it was when the package had it, and
/// becomes the cached copy's otherwise.
pub proof fn law_cache_fills_missing_metadata(s: Seq<PackageView>, cached: Seq<PackageView>, i: int, k: int)
    requires
        keys_unique(s),
        keys_unique(cached),
        0 <= i < s.len(),
        0 <= k < cached.len(),
        s[i].kind == cached[k].kind,
        s[i].name == cached[k].name,
    ensures
        ({
            let m = merge_cached_spec(s, s.len() as int, cached);
            &&& i < m.len()
            &&& m[i].description == (if s[i].description is Some {
                s[i].description
            } else {
                cached[k].description
            })
            &&& m[i].homepage == (if s[i].homepage is Some {
                s[i].homepage
            } else {
                cached[k].homepage
            })
            &&& m[i].license == (if s[i].license is Some {
                s[i].license
            } else {
                cached[k].license
            })
            &&& m[i].latest_version == (if s[i].latest_version is Some {
                s[i].latest_version
            } else {
                cached[k].latest_version
            })
        }),
{
    lemma_cache_fill(s, cached);
    let m = merge_cached_spec(s, s.len() as int, cached);
    assert(same_key(s[i], cached[k]));
    assert(m[i] == fill_from_cache(s[i], cached[k]));
}

} // verus!
