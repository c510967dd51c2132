//! Importing the databases of all profiles. A profile that cannot be imported is reported, and does
//! not stand in the way of the others.

use crate::digest::FileIdentity;
use crate::discover::{
    discover_hermes_databases, discovered, source_views, HermesDatabaseSource, RootListing,
    SourceView,
};
use crate::error::{AppError, Failure};
use crate::import::{
    can_import, database_storable, import_hermes_database, imported_database, saturated,
    SourceContents,
};
use crate::reader::TablesView;
use crate::store::{StoreView, UsageStore};
use vstd::prelude::*;
use vstd::string::*;

verus! {

/// A database that was found, and what was read of it.
pub struct ReadingView {
    pub source: SourceView,
    pub contents: Result<(FileIdentity, TablesView), Failure>,
}

/// What was read of a database, as what it holds.
pub open spec fn viewed_contents(contents: Result<SourceContents, AppError>) -> Result<
    (FileIdentity, TablesView),
    Failure,
> {
    match contents {
        Ok(contents) => Ok((contents.identity, contents.tables@)),
        Err(e) => Err(e@),
    }
}

/// Each source with what was read of its database.
pub open spec fn readings(
    sources: Seq<SourceView>,
    contents: Seq<Result<SourceContents, AppError>>,
) -> Seq<ReadingView> {
    Seq::new(
        sources.len(),
        |i: int| ReadingView { source: sources[i], contents: viewed_contents(contents[i]) },
    )
}

/// What a synchronisation reports.
#[derive(Debug)]
pub struct SessionSyncResult {
    /// The rows that gave a delta.
    pub imported: u32,
    /// The rows that gave none.
    pub skipped: u32,
    /// The databases that were found.
    pub files_scanned: u32,
    /// What went wrong, one text for each profile that could not be imported.
    pub errors: Vec<String>,
}

/// What importing the database of one profile does to the store.
pub open spec fn imported_reading(
    store: StoreView,
    reading: ReadingView,
    observed_at: i64,
) -> Result<(StoreView, nat, nat), Failure> {
    match reading.contents {
        Err(e) => Err(e),
        Ok((identity, tables)) => imported_database(
            store,
            reading.source,
            identity,
            tables,
            observed_at,
        ),
    }
}

/// How a profile is reported that could not be imported.
pub open spec fn profile_error(profile_name: Seq<char>, failure: Failure) -> Seq<char> {
    "Hermes Profile '"@ + profile_name + "' 同步失败: "@ + failure.message()
}

/// The course of a synchronisation: the store, the rows that gave a delta, those that gave none, and
/// the profiles that could not be imported.
pub struct Progress {
    pub store: StoreView,
    pub imported: nat,
    pub skipped: nat,
    pub errors: Seq<Seq<char>>,
}

impl Progress {
    /// How things stand after one more profile.
    pub open spec fn after(self, reading: ReadingView, observed_at: i64) -> Progress {
        match imported_reading(self.store, reading, observed_at) {
            Ok((store, imported, skipped)) => Progress {
                store,
                imported: self.imported + imported,
                skipped: self.skipped + skipped,
                errors: self.errors,
            },
            Err(e) => Progress {
                errors: self.errors.push(profile_error(reading.source.profile_name, e)),
                ..self
            },
        }
    }
}

/// What synchronising the profiles one after the other does.
pub open spec fn synced(store: StoreView, readings: Seq<ReadingView>, observed_at: i64) -> Progress
    decreases readings.len(),
{
    if readings.len() == 0 {
        Progress { store, imported: 0, skipped: 0, errors: Seq::empty() }
    } else {
        synced(store, readings.drop_last(), observed_at).after(readings.last(), observed_at)
    }
}

/// Every cost that importing the database of one profile stores can be written with six decimal
/// places.
pub open spec fn reading_storable(
    store: StoreView,
    reading: ReadingView,
    observed_at: i64,
) -> bool {
    match reading.contents {
        Err(e) => true,
        Ok((identity, tables)) => database_storable(
            store,
            reading.source,
            identity,
            tables,
            observed_at,
        ),
    }
}

/// Every cost that a synchronisation stores can be written with six decimal places.
pub open spec fn sync_storable(store: StoreView, readings: Seq<ReadingView>, observed_at: i64) -> bool
    decreases readings.len(),
{
    if readings.len() == 0 {
        true
    } else {
        &&& sync_storable(store, readings.drop_last(), observed_at)
        &&& reading_storable(
            synced(store, readings.drop_last(), observed_at).store,
            readings.last(),
            observed_at,
        )
    }
}

/// The texts of a list.
pub open spec fn error_texts(errors: Seq<String>) -> Seq<Seq<char>> {
    errors.map_values(|e: String| e@)
}

impl SessionSyncResult {
    /// The report of a synchronisation of so many databases.
    pub open spec fn reports(self, progress: Progress, files: nat) -> bool {
        &&& self.imported == saturated(progress.imported)
        &&& self.skipped == saturated(progress.skipped)
        &&& self.files_scanned == files as u32
        &&& error_texts(self.errors@) == progress.errors
    }

    /// Adds to the report what became of one profile.
    pub fn record(&mut self, profile_name: &str, outcome: Result<(u32, u32), AppError>)
        ensures
            final(self).files_scanned == old(self).files_scanned,
            match outcome {
                Ok((imported, skipped)) => {
                    &&& final(self).imported == saturated((old(self).imported + imported) as nat)
                    &&& final(self).skipped == saturated((old(self).skipped + skipped) as nat)
                    &&& final(self).errors@ == old(self).errors@
                },
                Err(e) => {
                    &&& final(self).imported == old(self).imported
                    &&& final(self).skipped == old(self).skipped
                    &&& error_texts(final(self).errors@) == error_texts(old(self).errors@).push(
                        profile_error(profile_name@, e@),
                    )
                },
            },
    {
        match outcome {
            Ok((imported, skipped)) => {
                self.imported = self.imported.saturating_add(imported);
                self.skipped = self.skipped.saturating_add(skipped);
            },
            Err(e) => {
                let mut text: String = "Hermes Profile '".to_owned();
                text.append(profile_name);
                text.append("' 同步失败: ");
                text.append(e.message());
                let ghost before = self.errors@;
                self.errors.push(text);
                assert(error_texts(self.errors@) =~= error_texts(before).push(text@));
            },
        }
    }
}

/// What can be stored of all profiles can be stored of the first ones.
pub proof fn lemma_storable_prefix(store: StoreView, readings: Seq<ReadingView>, n: int, observed_at: i64)
    requires
        0 <= n <= readings.len(),
    ensures
        sync_storable(store, readings, observed_at) ==> sync_storable(
            store,
            readings.take(n),
            observed_at,
        ),
    decreases readings.len() - n,
{
    if n == readings.len() {
        assert(readings.take(n) =~= readings);
    } else {
        lemma_storable_prefix(store, readings, n + 1, observed_at);
        assert(readings.take(n + 1).drop_last() =~= readings.take(n));
    }
}

/// What synchronising a Hermes home does: one whose profiles cannot be listed fails as a whole, and
/// any other is imported profile by profile.
pub open spec fn synced_home(
    store: StoreView,
    listing: RootListing,
    contents: Seq<Result<SourceContents, AppError>>,
    observed_at: i64,
) -> Result<Progress, Failure> {
    match discovered(listing) {
        Err(e) => Err(e),
        Ok(sources) => Ok(synced(store, readings(sources, contents), observed_at)),
    }
}

/// Every cost that synchronising a Hermes home stores can be written with six decimal places.
pub open spec fn home_storable(
    store: StoreView,
    listing: RootListing,
    contents: Seq<Result<SourceContents, AppError>>,
    observed_at: i64,
) -> bool {
    match discovered(listing) {
        Err(e) => true,
        Ok(sources) => sync_storable(store, readings(sources, contents), observed_at),
    }
}

/// Each database that was found has been read, or it is known why not.
pub open spec fn all_read(
    listing: RootListing,
    contents: Seq<Result<SourceContents, AppError>>,
) -> bool {
    discovered(listing) is Ok ==> contents.len() == discovered(listing)->Ok_0.len()
}

/// Synchronises a Hermes home, given what was read of the databases in the order in which
/// `discover_hermes_databases` lists them. It fails if and only if the profiles cannot be listed.
pub fn sync_hermes_usage_at_root(
    store: &mut UsageStore,
    listing: &RootListing,
    contents: &Vec<Result<SourceContents, AppError>>,
    observed_at: i64,
) -> (r: Result<SessionSyncResult, AppError>)
    requires
        old(store).wf(),
        all_read(*listing, contents@),
        home_storable(old(store)@, *listing, contents@, observed_at),
    ensures
        final(store).wf(),
        match synced_home(old(store)@, *listing, contents@, observed_at) {
            Err(e) => {
                &&& r is Err
                &&& r->Err_0@ == e
                &&& final(store)@ == old(store)@
            },
            Ok(progress) => {
                &&& r is Ok
                &&& r->Ok_0.reports(progress, discovered(*listing)->Ok_0.len())
                &&& final(store)@ == progress.store
            },
        },
{
    let sources: Vec<HermesDatabaseSource> = match discover_hermes_databases(listing) {
        Ok(sources) => sources,
        Err(e) => {
            return Err(e);
        },
    };
    let ghost views = readings(source_views(sources@), contents@);
    let ghost start = store@;
    let mut result = SessionSyncResult {
        imported: 0,
        skipped: 0,
        files_scanned: sources.len() as u32,
        errors: Vec::new(),
    };
    let mut i: usize = 0;
    assert(error_texts(result.errors@) =~= Seq::empty());
    while i < sources.len()
        invariant
            i <= sources@.len(),
            sources@.len() == contents@.len(),
            views == readings(source_views(sources@), contents@),
            store.wf(),
            sync_storable(start, views, observed_at),
            store@ == synced(start, views.take(i as int), observed_at).store,
            result.reports(synced(start, views.take(i as int), observed_at), sources@.len()),
        decreases sources@.len() - i,
    {
        let source: &HermesDatabaseSource = &sources[i];
        let ghost next = views.take(i + 1);
        proof {
            assert(next.drop_last() =~= views.take(i as int));
            assert(next.last() == views[i as int]);
            lemma_storable_prefix(start, views, i + 1, observed_at);
        }
        let outcome: Result<(u32, u32), AppError> = match &contents[i] {
            Ok(contents) => import_hermes_database(store, source, contents, observed_at),
            Err(e) => Err(e.duplicate()),
        };
        result.record(source.profile_name.as_str(), outcome);
        i = i + 1;
    }
    assert(views.take(i as int) =~= views);
    Ok(result)
}

/// Whether every cost that synchronising a Hermes home stores can be written with six decimal
/// places.
pub fn can_sync(
    store: &UsageStore,
    listing: &RootListing,
    contents: &Vec<Result<SourceContents, AppError>>,
    observed_at: i64,
) -> (r: bool)
    requires
        store.wf(),
        all_read(*listing, contents@),
    ensures
        r == home_storable(store@, *listing, contents@, observed_at),
{
    let sources: Vec<HermesDatabaseSource> = match discover_hermes_databases(listing) {
        Ok(sources) => sources,
        Err(_) => {
            return true;
        },
    };
    let ghost views = readings(source_views(sources@), contents@);
    let mut trial: UsageStore = store.duplicate();
    let mut i: usize = 0;
    while i < sources.len()
        invariant
            i <= sources@.len(),
            sources@.len() == contents@.len(),
            views == readings(source_views(sources@), contents@),
            home_storable(store@, *listing, contents@, observed_at) == sync_storable(
                store@,
                views,
                observed_at,
            ),
            trial.wf(),
            sync_storable(store@, views.take(i as int), observed_at),
            trial@ == synced(store@, views.take(i as int), observed_at).store,
        decreases sources@.len() - i,
    {
        let source: &HermesDatabaseSource = &sources[i];
        let ghost next = views.take(i + 1);
        proof {
            assert(next.drop_last() =~= views.take(i as int));
            assert(next.last() == views[i as int]);
            lemma_storable_prefix(store@, views, i + 1, observed_at);
        }
        if let Ok(contents) = &contents[i] {
            if !can_import(&trial, source, contents, observed_at) {
                return false;
            }
            let _ = import_hermes_database(&mut trial, source, contents, observed_at);
        }
        i = i + 1;
    }
    assert(views.take(i as int) =~= views);
    true
}

/// Synchronises a Hermes home, unless a cost has too many digits to be stored.
pub fn try_sync_hermes_usage_at_root(
    store: &mut UsageStore,
    listing: &RootListing,
    contents: &Vec<Result<SourceContents, AppError>>,
    observed_at: i64,
) -> (r: Option<Result<SessionSyncResult, AppError>>)
    requires
        old(store).wf(),
        all_read(*listing, contents@),
    ensures
        final(store).wf(),
        r is Some == home_storable(old(store)@, *listing, contents@, observed_at),
        r is None ==> final(store)@ == old(store)@,
        r is Some ==> match synced_home(old(store)@, *listing, contents@, observed_at) {
            Err(e) => {
                &&& r->0 is Err
                &&& r->0->Err_0@ == e
                &&& final(store)@ == old(store)@
            },
            Ok(progress) => {
                &&& r->0 is Ok
                &&& r->0->Ok_0.reports(progress, discovered(*listing)->Ok_0.len())
                &&& final(store)@ == progress.store
            },
        },
{
    if can_sync(store, listing, contents, observed_at) {
        Some(sync_hermes_usage_at_root(store, listing, contents, observed_at))
    } else {
        None
    }
}

} // verus!
