//! What the background work reports, and the decisions taken around it:
//! when to refresh metadata, how a refreshed catalog is put together, how
//! failures read, and the order in which staged operations run.
use vstd::prelude::*;
use vstd::string::*;

use crate::catalog::{
    apply_metadata_spec, catalog_entries, merge_cached_spec, sorted_listing, views, BrewItem, BrewJson,
    Catalog,
};
use crate::model::{texts, Operation, OperationView, Package, PackageKind, PackageView};
use crate::text::{concat, owned, push_char, trim_spec, trimmed};

verus! {

broadcast use vstd::string::group_string_axioms;

/// An event that background work sends to the application.
#[derive(Debug)]
pub enum WorkerEvent {
    CatalogLoaded(Result<Catalog, String>),
    DetailLoaded { requested_name: String, requested_kind: PackageKind, result: Result<Package, String> },
    Log(String),
    OperationStarted(String),
    OperationFinished { summary: String, success: bool },
    QueueFinished,
}


/// How old bulk metadata may grow before it is downloaded again: six hours.
pub const METADATA_MAX_AGE_SECS: u64 = 21600;

/// The format version of the catalog cache.
pub const CACHE_SCHEMA: u32 = 1;

/// Bulk metadata is downloaded again when asked to, when there is no cache,
/// or when the cache's metadata is at least six hours old.
pub open spec fn needs_refresh_spec(force: bool, cached_updated: Option<u64>, now: u64) -> bool {
    force || match cached_updated {
        None => true,
        Some(updated) => (if now >= updated {
            now - updated
        } else {
            0
        }) >= METADATA_MAX_AGE_SECS,
    }
}

/// Whether to download bulk metadata again; a clock behind the cache's time
/// counts as no time passed.
pub fn needs_metadata_refresh(force: bool, cached_updated: Option<u64>, now: u64) -> (r: bool)
    ensures
        r == needs_refresh_spec(force, cached_updated, now),
{
    if force {
        return true;
    }
    match cached_updated {
        None => true,
        Some(updated) => {
            let age = if now >= updated {
                now - updated
            } else {
                0
            };
            age >= METADATA_MAX_AGE_SECS
        },
    }
}

/// Whether a cache was written in the current format.
pub fn cache_is_current(schema: u32) -> (r: bool)
    ensures
        r == (schema == CACHE_SCHEMA),
{
    schema == CACHE_SCHEMA
}

/// Texts joined with a separator between each two.
pub open spec fn join_spec(parts: Seq<Seq<char>>, sep: Seq<char>) -> Seq<char>
    decreases parts.len(),
{
    if parts.len() == 0 {
        Seq::empty()
    } else if parts.len() == 1 {
        parts[0]
    } else {
        join_spec(parts.drop_last(), sep) + sep + parts.last()
    }
}

/// The strings of `parts` joined with `sep` between each two.
pub fn join(parts: &Vec<String>, sep: &str) -> (r: String)
    ensures
        r@ == join_spec(texts(parts@), sep@),
{
    let ghost ps = texts(parts@);
    let mut r = String::new();
    let mut i: usize = 0;
    while i < parts.len()
        invariant
            ps == texts(parts@),
            i <= ps.len(),
            r@ == join_spec(ps.take(i as int), sep@),
        decreases ps.len() - i,
    {
        proof {
            assert(ps.take(i + 1).drop_last() == ps.take(i as int));
            assert(ps.take(i + 1).last() == parts@[i as int]@);
            if i == 0 {
                assert(ps.take(1)[0] == parts@[0]@);
            }
        }
        if i > 0 {
            r.append(sep);
        }
        r.append(parts[i].as_str());
        i = i + 1;
    }
    assert(ps.take(ps.len() as int) == ps);
    r
}

/// The `brew` arguments that read one package's details as JSON.
pub open spec fn detail_command_spec(name: Seq<char>, kind: PackageKind) -> Seq<Seq<char>> {
    seq![
        "info"@,
        "--json=v2"@,
        match kind {
            PackageKind::Formula => "--formula"@,
            PackageKind::Cask => "--cask"@,
        },
        name,
    ]
}

/// The `brew` arguments that read the details of the package `name` of `kind`.
pub fn detail_command(name: &str, kind: PackageKind) -> (r: Vec<String>)
    ensures
        texts(r@) == detail_command_spec(name@, kind),
{
    let mut r: Vec<String> = Vec::new();
    r.push(owned("info"));
    r.push(owned("--json=v2"));
    match kind {
        PackageKind::Formula => r.push(owned("--formula")),
        PackageKind::Cask => r.push(owned("--cask")),
    }
    r.push(owned(name));
    assert(texts(r@) =~= detail_command_spec(name@, kind));
    r
}

/// The log line announcing a `brew` command.
pub fn command_line(args: &Vec<String>) -> (r: String)
    ensures
        r@ == "$ brew "@ + join_spec(texts(args@), " "@),
{
    let joined = join(args, " ");
    concat("$ brew ", joined.as_str())
}

/// What a failed `brew` command reports: its error output, trimmed, or when
/// that is empty, a note naming the command.
pub fn capture_failure(args: &Vec<String>, stderr: &str) -> (r: String)
    ensures
        r@ == (if trim_spec(stderr@).len() == 0 {
            "brew "@ + join_spec(texts(args@), " "@) + " failed"@
        } else {
            trim_spec(stderr@)
        }),
{
    let message = trimmed(stderr);
    if message.as_str().is_empty() {
        let joined = join(args, " ");
        let head = concat("brew ", joined.as_str());
        concat(head.as_str(), " failed")
    } else {
        message
    }
}

/// A listing taken as empty when it could not be read.
fn listing_or_empty(r: &Result<String, String>) -> (s: &str)
    ensures
        s@ == (match r {
            Ok(t) => t@,
            Err(_) => Seq::empty(),
        }),
{
    match r {
        Ok(t) => t.as_str(),
        Err(_) => {
            proof {
                reveal_strlit("");
            }
            ""
        },
    }
}

/// The text of a listing, or nothing when it could not be read.
pub open spec fn listing_text(r: Result<String, String>) -> Seq<char> {
    match r {
        Ok(t) => t@,
        Err(_) => Seq::empty(),
    }
}

/// The steps of a refresh: `s1` is the built catalog in order of name, `s2`
/// that catalog after the cache, and `result` after the metadata.
pub open spec fn refresh_steps(
    s1: Seq<PackageView>,
    s2: Seq<PackageView>,
    result: Seq<PackageView>,
    formulae: Seq<char>,
    casks: Seq<char>,
    installed: BrewJson,
    outdated: Option<BrewJson>,
    cached: Option<Seq<PackageView>>,
    metadata: Option<(Seq<BrewItem>, Seq<BrewItem>)>,
) -> bool {
    &&& sorted_listing(s1, catalog_entries(formulae, casks, installed, outdated))
    &&& match cached {
        Some(cv) => sorted_listing(s2, merge_cached_spec(s1, s1.len() as int, cv)),
        None => s2 == s1,
    }
    &&& match metadata {
        Some((fs, cs)) => sorted_listing(
            result,
            apply_metadata_spec(apply_metadata_spec(s2, fs, PackageKind::Formula), cs, PackageKind::Cask),
        ),
        None => result == s2,
    }
}

/// The packages of a refreshed catalog: the catalog built from the listings
/// and reports, in order of name; then, when there is a cache, filled in from
/// it and put back in order; then, when metadata was downloaded, enriched
/// with the formula and then the cask metadata and put back in order.
pub open spec fn refreshed_packages(
    result: Seq<PackageView>,
    formulae: Seq<char>,
    casks: Seq<char>,
    installed: BrewJson,
    outdated: Option<BrewJson>,
    cached: Option<Seq<PackageView>>,
    metadata: Option<(Seq<BrewItem>, Seq<BrewItem>)>,
) -> bool {
    exists|s1: Seq<PackageView>, s2: Seq<PackageView>|
        #[trigger] refresh_steps(s1, s2, result, formulae, casks, installed, outdated, cached, metadata)
}

/// The cached packages, if there is a cache.
pub open spec fn cached_views(cached: Option<(Catalog, u64)>) -> Option<Seq<PackageView>> {
    match cached {
        Some(c) => Some(views(c.0.packages@)),
        None => None,
    }
}

/// The items of the downloaded metadata, when both downloads were read.
pub open spec fn metadata_items(
    metadata: Option<(Result<Vec<BrewItem>, String>, Result<Vec<BrewItem>, String>)>,
) -> Option<(Seq<BrewItem>, Seq<BrewItem>)> {
    match metadata {
        Some((Ok(fs), Ok(cs))) => Some((fs@, cs@)),
        _ => None,
    }
}

/// The time the cache's metadata dates from, if there is a cache.
pub open spec fn cached_time(cached: Option<(Catalog, u64)>) -> Option<u64> {
    match cached {
        Some(c) => Some(c.1),
        None => None,
    }
}

/// The downloaded metadata that a refresh takes into account: all of it when
/// metadata is due (see `needs_refresh_spec`), none otherwise.
pub open spec fn used_metadata(
    force_metadata: bool,
    cached: Option<(Catalog, u64)>,
    now: u64,
    metadata: Option<(Result<Vec<BrewItem>, String>, Result<Vec<BrewItem>, String>)>,
) -> Option<(Result<Vec<BrewItem>, String>, Result<Vec<BrewItem>, String>)> {
    if needs_refresh_spec(force_metadata, cached_time(cached), now) {
        metadata
    } else {
        None
    }
}

/// Puts a refreshed catalog together: the catalog built from the listings
/// (a listing that could not be read counts as empty) and reports, then
/// filled in from the cache when there is one, then enriched with freshly
/// downloaded metadata when both downloads succeeded and metadata was due:
/// asked for with `force_metadata`, without a cache, or with a cache six
/// hours old or more; metadata that was not due is not used. It comes back with the
/// time its metadata dates from: now after a download, else the cache's time
/// (0 without a cache). An unreadable report on installed packages, unreadable
/// metadata, or a catalog with no package at all is an error.
pub fn collect_catalog(
    force_metadata: bool,
    formulae: Result<String, String>,
    casks: Result<String, String>,
    installed: Result<BrewJson, String>,
    outdated: Option<BrewJson>,
    taps: Result<String, String>,
    cached: Option<(Catalog, u64)>,
    metadata: Option<(Result<Vec<BrewItem>, String>, Result<Vec<BrewItem>, String>)>,
    now: u64,
) -> (r: Result<(Catalog, u64), String>)
    ensures
        match installed {
            Err(e) => r is Err && r->Err_0@ == "cannot parse installed packages: "@ + e@,
            Ok(inst) => match used_metadata(force_metadata, cached, now, metadata) {
                Some((Err(e), _)) => r is Err && r->Err_0@ == "cannot parse formula metadata: "@ + e@,
                Some((Ok(_), Err(e))) => r is Err && r->Err_0@ == "cannot parse cask metadata: "@
                    + e@,
                _ => match r {
                    Err(e) => e@ == "Homebrew returned an empty package catalog"@
                        && refreshed_packages(
                        Seq::empty(),
                        listing_text(formulae),
                        listing_text(casks),
                        inst,
                        outdated,
                        cached_views(cached),
                        metadata_items(used_metadata(force_metadata, cached, now, metadata)),
                    ),
                    Ok((c, t)) => {
                        &&& c.packages@.len() > 0
                        &&& refreshed_packages(
                            views(c.packages@),
                            listing_text(formulae),
                            listing_text(casks),
                            inst,
                            outdated,
                            cached_views(cached),
                            metadata_items(used_metadata(force_metadata, cached, now, metadata)),
                        )
                        &&& texts(c.taps@) == crate::text::listed_spec(listing_text(taps))
                        &&& t == (if used_metadata(force_metadata, cached, now, metadata) is Some {
                            now
                        } else {
                            match cached {
                                Some(c) => c.1,
                                None => 0,
                            }
                        })
                    },
                },
            },
        },
{
    let base = Catalog::from_outputs(
        listing_or_empty(&formulae),
        listing_or_empty(&casks),
        installed,
        outdated,
        listing_or_empty(&taps),
    );
    let mut catalog = match base {
        Ok(c) => c,
        Err(e) => {
            return Err(e);
        },
    };
    let ghost s1 = views(catalog.packages@);
    let ghost given = metadata;
    let due = needs_metadata_refresh(
        force_metadata,
        match &cached {
            Some((_, updated)) => Some(*updated),
            None => None,
        },
        now,
    );
    let metadata = if due {
        metadata
    } else {
        None
    };
    assert(metadata == used_metadata(force_metadata, cached, now, given));
    let cached_updated: u64 = match &cached {
        Some((cache, updated)) => {
            catalog.merge_cached_metadata(cache);
            *updated
        },
        None => 0,
    };
    let ghost s2 = views(catalog.packages@);
    let metadata_updated = match metadata {
        Some((formula_items, cask_items)) => {
            match catalog.apply_metadata_outputs(formula_items, cask_items) {
                Ok(()) => now,
                Err(e) => {
                    return Err(e);
                },
            }
        },
        None => cached_updated,
    };
    proof {
        let inst = installed->Ok_0;
        let fin = views(catalog.packages@);
        assert(refreshed_packages(
            fin,
            listing_text(formulae),
            listing_text(casks),
            inst,
            outdated,
            cached_views(cached),
            metadata_items(metadata),
        )) by {
            assert(refresh_steps(
                s1,
                s2,
                fin,
                listing_text(formulae),
                listing_text(casks),
                inst,
                outdated,
                cached_views(cached),
                metadata_items(metadata),
            ));
        }
    }
    if catalog.packages.len() == 0 {
        proof {
            assert(views(catalog.packages@) =~= Seq::<PackageView>::empty());
        }
        return Err(owned("Homebrew returned an empty package catalog"));
    }
    Ok((catalog, metadata_updated))
}

// ---------------------------------------------------------------------------
// Running staged operations one after another
// ---------------------------------------------------------------------------

/// Runs staged operations in order, stopping after the first that fails.
pub struct OperationRunner {
    operations: Vec<Operation>,
    next: usize,
    stopped: bool,
}

/// The runner's progress as plain values.
pub struct RunnerView {
    pub operations: Seq<OperationView>,
    pub next: int,
    pub stopped: bool,
}

impl View for OperationRunner {
    type V = RunnerView;

    closed spec fn view(&self) -> RunnerView {
        RunnerView {
            operations: Seq::new(self.operations@.len(), |i: int| self.operations@[i]@),
            next: self.next as int,
            stopped: self.stopped,
        }
    }
}

impl OperationRunner {
    /// A runner for these operations, none of them started.
    pub fn new(operations: Vec<Operation>) -> (r: OperationRunner)
        ensures
            r@.operations == Seq::new(operations@.len(), |i: int| operations@[i]@),
            r@.next == 0,
            !r@.stopped,
    {
        OperationRunner { operations, next: 0, stopped: false }
    }

    /// The next operation to run, as its summary and its `brew` arguments;
    /// none once all have run or one has failed.
    pub fn start_next(&mut self) -> (r: Option<(String, Vec<String>)>)
        ensures
            final(self)@.operations == old(self)@.operations,
            final(self)@.stopped == old(self)@.stopped,
            match r {
                None => final(self)@ == old(self)@ && (old(self)@.stopped || old(self)@.next
                    >= old(self)@.operations.len()),
                Some((summary, args)) => {
                    &&& !old(self)@.stopped
                    &&& old(self)@.next < old(self)@.operations.len()
                    &&& final(self)@.next == old(self)@.next + 1
                    &&& summary@ == old(self)@.operations[old(self)@.next].summary()
                    &&& texts(args@) == old(self)@.operations[old(self)@.next].command()
                },
            },
    {
        if self.stopped || self.next >= self.operations.len() {
            return None;
        }
        let operation = &self.operations[self.next];
        let summary = operation.summary();
        let args = operation.command();
        self.next = self.next + 1;
        Some((summary, args))
    }

    /// Records whether the operation just run succeeded; a failure stops the
    /// run.
    pub fn finish(&mut self, success: bool)
        ensures
            final(self)@ == (RunnerView { stopped: old(self)@.stopped || !success, ..old(self)@ }),
    {
        if !success {
            self.stopped = true;
        }
    }
}

} // verus!
