//! What holds of a synchronisation of several profiles.

use crate::digest::FileIdentity;
use crate::discover::{discovered, RootListing, SourceView};
use crate::error::{AppError, Failure};
use crate::import::{
    imported_database, imported_rows, loaded, origin_of, rows_storable, OriginView,
    SourceContents,
};
use crate::import_laws::{
    distinct_keys, exact_above_baseline, law_import_stays_in_its_source,
    law_rows_are_independent, law_unchanged_rows_import_nothing, no_negative_zero,
    no_negative_zeros, only_times_differ, retimed,
};
use crate::reader::{all_valid, source_rows, TablesView};
use crate::source::RowView;
use crate::store::StoreView;
use crate::sync::{
    error_texts, imported_reading, lemma_storable_prefix, profile_error, reading_storable,
    readings, sync_storable, synced, synced_home, Progress, ReadingView, SessionSyncResult,
};
use vstd::prelude::*;
use vstd::string::*;

verus! {

/// A profile that cannot be imported changes nothing for the others: with it or without it, the
/// same is stored and counted, and its failure is reported in its place.
pub proof fn law_failed_profile_does_not_block(
    store: StoreView,
    before: Seq<ReadingView>,
    failed: ReadingView,
    rest: Seq<ReadingView>,
    observed_at: i64,
)
    requires
        imported_reading(synced(store, before, observed_at).store, failed, observed_at) is Err,
    ensures
        ({
            let with = synced(store, before.push(failed) + rest, observed_at);
            let without = synced(store, before + rest, observed_at);
            let place = synced(store, before, observed_at).errors.len() as int;
            let failure = imported_reading(
                synced(store, before, observed_at).store,
                failed,
                observed_at,
            )->Err_0;
            &&& with.store == without.store
            &&& with.imported == without.imported
            &&& with.skipped == without.skipped
            &&& place <= without.errors.len()
            &&& with.errors == without.errors.insert(
                place,
                profile_error(failed.source.profile_name, failure),
            )
        }),
    decreases rest.len(),
{
    let place = synced(store, before, observed_at).errors.len() as int;
    if rest.len() == 0 {
        assert(before.push(failed) + rest =~= before.push(failed));
        assert(before + rest =~= before);
        assert(before.push(failed).drop_last() =~= before);
        let errors = synced(store, before, observed_at).errors;
        let with = synced(store, before.push(failed), observed_at);
        assert(with.errors =~= errors.insert(place, with.errors.last()));
    } else {
        law_failed_profile_does_not_block(store, before, failed, rest.drop_last(), observed_at);
        let (a, b) = (before.push(failed) + rest, before + rest);
        assert(a.drop_last() =~= before.push(failed) + rest.drop_last());
        assert(b.drop_last() =~= before + rest.drop_last());
        assert(a.last() == rest.last() && b.last() == rest.last());
        let (with, without) = (
            synced(store, a.drop_last(), observed_at),
            synced(store, b.drop_last(), observed_at),
        );
        let failure = imported_reading(
            synced(store, before, observed_at).store,
            failed,
            observed_at,
        )->Err_0;
        let text = profile_error(failed.source.profile_name, failure);
        assert(forall|e: Seq<char>|
            without.errors.insert(place, text).push(e) =~= #[trigger] without.errors.push(e).insert(
                place,
                text,
            ));
    }
}

/// What importing each profile in its turn gives.
pub open spec fn outcomes(
    store: StoreView,
    profiles: Seq<ReadingView>,
    observed_at: i64,
) -> Seq<Result<(StoreView, nat, nat), Failure>> {
    Seq::new(
        profiles.len(),
        |i: int|
            imported_reading(
                synced(store, profiles.take(i), observed_at).store,
                profiles[i],
                observed_at,
            ),
    )
}

/// The rows that gave a delta, over all profiles that could be imported.
pub open spec fn imported_in_all(outcomes: Seq<Result<(StoreView, nat, nat), Failure>>) -> nat
    decreases outcomes.len(),
{
    if outcomes.len() == 0 {
        0
    } else {
        imported_in_all(outcomes.drop_last()) + match outcomes.last() {
            Ok((_, imported, _)) => imported,
            Err(_) => 0,
        }
    }
}

/// The rows that gave no delta, over all profiles that could be imported.
pub open spec fn skipped_in_all(outcomes: Seq<Result<(StoreView, nat, nat), Failure>>) -> nat
    decreases outcomes.len(),
{
    if outcomes.len() == 0 {
        0
    } else {
        skipped_in_all(outcomes.drop_last()) + match outcomes.last() {
            Ok((_, _, skipped)) => skipped,
            Err(_) => 0,
        }
    }
}

/// One text for each profile that could not be imported, in the order of the profiles.
pub open spec fn failures_in_all(
    profiles: Seq<ReadingView>,
    outcomes: Seq<Result<(StoreView, nat, nat), Failure>>,
) -> Seq<Seq<char>>
    decreases outcomes.len(),
{
    if outcomes.len() == 0 {
        Seq::empty()
    } else {
        let before = failures_in_all(profiles, outcomes.drop_last());
        match outcomes.last() {
            Ok(_) => before,
            Err(e) => before.push(
                profile_error(profiles[outcomes.len() - 1].source.profile_name, e),
            ),
        }
    }
}

proof fn lemma_report(
    store: StoreView,
    profiles: Seq<ReadingView>,
    n: int,
    observed_at: i64,
)
    requires
        0 <= n <= profiles.len(),
    ensures
        ({
            let progress = synced(store, profiles.take(n), observed_at);
            let given = outcomes(store, profiles, observed_at).take(n);
            &&& progress.imported == imported_in_all(given)
            &&& progress.skipped == skipped_in_all(given)
            &&& progress.errors == failures_in_all(profiles, given)
        }),
    decreases n,
{
    let given = outcomes(store, profiles, observed_at).take(n);
    if n > 0 {
        lemma_report(store, profiles, n - 1, observed_at);
        assert(profiles.take(n).drop_last() =~= profiles.take(n - 1));
        assert(profiles.take(n).last() == profiles[n - 1]);
        assert(given.drop_last() =~= outcomes(store, profiles, observed_at).take(n - 1));
        assert(given.last() == outcomes(store, profiles, observed_at)[n - 1]);
    }
}

/// A synchronisation fails if and only if the profiles cannot be listed. Otherwise it imports every
/// profile in its turn, in the order of the listing, whatever becomes of the others; it counts the
/// rows of those that could be imported, and reports each of the others by one text.
pub proof fn law_report_covers_every_profile(
    store: StoreView,
    listing: RootListing,
    contents: Seq<Result<SourceContents, AppError>>,
    observed_at: i64,
)
    ensures
        match discovered(listing) {
            Err(e) => synced_home(store, listing, contents, observed_at) == Err::<
                Progress,
                Failure,
            >(e),
            Ok(sources) => {
                let profiles = readings(sources, contents);
                let given = outcomes(store, profiles, observed_at);
                let report = synced_home(store, listing, contents, observed_at);
                &&& report is Ok
                &&& given.len() == sources.len()
                &&& report->Ok_0.imported == imported_in_all(given)
                &&& report->Ok_0.skipped == skipped_in_all(given)
                &&& report->Ok_0.errors == failures_in_all(profiles, given)
            },
        },
{
    if let Ok(sources) = discovered(listing) {
        let profiles = readings(sources, contents);
        let given = outcomes(store, profiles, observed_at);
        lemma_report(store, profiles, profiles.len() as int, observed_at);
        assert(profiles.take(profiles.len() as int) =~= profiles);
        assert(given.take(given.len() as int) =~= given);
    }
}

/// Two stores know the same of one source.
pub open spec fn same_source(a: StoreView, b: StoreView, source_id: Seq<char>) -> bool {
    forall|row_key: Seq<char>|
        {
            &&& #[trigger] a.snapshots.contains_key((source_id, row_key)) == b.snapshots.contains_key(
                (source_id, row_key),
            )
            &&& a.snapshots.contains_key((source_id, row_key)) ==> a.snapshots[(
                source_id,
                row_key,
            )] == b.snapshots[(source_id, row_key)]
        }
}

/// What an import does depends only on what the store knows of its own source.
pub proof fn law_import_sees_only_its_source(
    a: StoreView,
    b: StoreView,
    origin: OriginView,
    rows: Seq<RowView>,
    observed_at: i64,
)
    requires
        same_source(a, b, origin.source_id),
    ensures
        match (
            imported_rows(a, origin, rows, observed_at),
            imported_rows(b, origin, rows, observed_at),
        ) {
            (Ok((after_a, imported_a, skipped_a)), Ok((after_b, imported_b, skipped_b))) => {
                &&& imported_a == imported_b
                &&& skipped_a == skipped_b
                &&& same_source(after_a, after_b, origin.source_id)
            },
            (Err(e), Err(f)) => e == f,
            _ => false,
        },
        rows_storable(a, origin, rows, observed_at) == rows_storable(b, origin, rows, observed_at),
    decreases rows.len(),
{
    if rows.len() > 0 {
        law_import_sees_only_its_source(a, b, origin, rows.drop_last(), observed_at);
        if let (Ok((s, _, _)), Ok((t, _, _))) = (
            imported_rows(a, origin, rows.drop_last(), observed_at),
            imported_rows(b, origin, rows.drop_last(), observed_at),
        ) {
            let key = rows.last().row_key;
            assert(s.snapshots.contains_key((origin.source_id, key)) == t.snapshots.contains_key(
                (origin.source_id, key),
            ));
            assert(loaded(s, origin.source_id, key) == loaded(t, origin.source_id, key));
        }
    }
}

/// The origin of the rows of a database that could be read.
pub open spec fn reading_origin(reading: ReadingView) -> OriginView {
    origin_of(reading.source, reading.contents->Ok_0.0)
}

/// No two databases that could be read have the same source identifier.
pub open spec fn distinct_sources(readings: Seq<ReadingView>) -> bool {
    forall|i: int, j: int|
        0 <= i < readings.len() && 0 <= j < readings.len() && (
        #[trigger] readings[i]).contents is Ok && (#[trigger] readings[j]).contents is Ok
            && reading_origin(readings[i]).source_id == reading_origin(readings[j]).source_id ==> i
            == j
}

/// Six decimal places keep the costs of the rows of a database, and no two of its rows have the
/// same key.
pub open spec fn reading_exact(store: StoreView, reading: ReadingView, observed_at: i64) -> bool {
    reading.contents is Ok && source_rows(reading.contents->Ok_0.1) is Ok ==> {
        let rows = source_rows(reading.contents->Ok_0.1)->Ok_0;
        let source_id = reading_origin(reading).source_id;
        &&& distinct_keys(rows)
        &&& all_valid(rows)
        &&& forall|i: int|
            0 <= i < rows.len() && loaded(store, source_id, (#[trigger] rows[i]).row_key) is Ok
                ==> exact_above_baseline(
                loaded(store, source_id, rows[i].row_key)->Ok_0,
                rows[i],
                observed_at,
            )
    }
}

/// No row of a database comes with a zero that has a minus sign.
pub open spec fn reading_plain(store: StoreView, reading: ReadingView, observed_at: i64) -> bool {
    reading.contents is Ok && source_rows(reading.contents->Ok_0.1) is Ok ==> no_negative_zeros(
        store,
        reading_origin(reading),
        source_rows(reading.contents->Ok_0.1)->Ok_0,
        observed_at,
    )
}

/// Importing the database of one profile leaves the other sources as they are, and takes no delta
/// away.
proof fn lemma_reading_stays(store: StoreView, reading: ReadingView, observed_at: i64)
    ensures
        ({
            let result = imported_reading(store, reading, observed_at);
            result is Ok ==> {
                &&& reading.contents is Ok
                &&& result->Ok_0.0.deltas.len() == store.deltas.len() + result->Ok_0.1
                &&& result->Ok_0.0.deltas.take(store.deltas.len() as int) == store.deltas
                &&& forall|source_id: Seq<char>|
                    source_id != reading_origin(reading).source_id ==> #[trigger] same_source(
                        store,
                        result->Ok_0.0,
                        source_id,
                    )
            }
        }),
{
    let result = imported_reading(store, reading, observed_at);
    if result is Ok {
        let rows = source_rows(reading.contents->Ok_0.1)->Ok_0;
        let origin = reading_origin(reading);
        law_import_stays_in_its_source(store, origin, rows, observed_at);
        assert forall|source_id: Seq<char>|
            source_id != origin.source_id implies #[trigger] same_source(
            store,
            result->Ok_0.0,
            source_id,
        ) by {
            assert forall|row_key: Seq<char>|
                {
                    &&& #[trigger] store.snapshots.contains_key((source_id, row_key))
                        == result->Ok_0.0.snapshots.contains_key((source_id, row_key))
                    &&& store.snapshots.contains_key((source_id, row_key)) ==> store.snapshots[(
                        source_id,
                        row_key,
                    )] == result->Ok_0.0.snapshots[(source_id, row_key)]
                } by {
                let key = (source_id, row_key);
                assert(key.0 != origin.source_id);
                assert(result->Ok_0.0.snapshots.contains_key(key) == store.snapshots.contains_key(
                    key,
                ));
            }
        }
    }
}

/// A synchronisation takes no delta away, and leaves the sources as they are that it does not
/// import.
pub proof fn law_sync_stays_in_its_sources(
    store: StoreView,
    readings: Seq<ReadingView>,
    source_id: Seq<char>,
    observed_at: i64,
)
    requires
        forall|i: int|
            0 <= i < readings.len() && (#[trigger] readings[i]).contents is Ok ==> reading_origin(
                readings[i],
            ).source_id != source_id,
    ensures
        ({
            let after = synced(store, readings, observed_at);
            &&& same_source(store, after.store, source_id)
            &&& after.store.deltas.len() == store.deltas.len() + after.imported
            &&& after.store.deltas.take(store.deltas.len() as int) == store.deltas
        }),
    decreases readings.len(),
{
    if readings.len() == 0 {
        assert(store.deltas.take(store.deltas.len() as int) =~= store.deltas);
    } else {
        let first = readings.drop_last();
        let last = readings.last();
        assert forall|i: int|
            0 <= i < first.len() && (#[trigger] first[i]).contents is Ok implies reading_origin(
            first[i],
        ).source_id != source_id by {
            assert(first[i] == readings[i]);
        }
        law_sync_stays_in_its_sources(store, first, source_id, observed_at);
        let before = synced(store, first, observed_at).store;
        let after = synced(store, readings, observed_at).store;
        assert(last == readings[readings.len() - 1]);
        lemma_reading_stays(before, last, observed_at);
        if imported_reading(before, last, observed_at) is Ok {
            assert(same_source(before, after, source_id));
            lemma_same_source_chain(store, before, after, source_id);
            assert(after.deltas.take(store.deltas.len() as int) =~= after.deltas.take(
                before.deltas.len() as int,
            ).take(store.deltas.len() as int));
        }
    }
}

proof fn lemma_same_source_chain(a: StoreView, b: StoreView, c: StoreView, source_id: Seq<char>)
    requires
        same_source(a, b, source_id),
        same_source(b, c, source_id),
    ensures
        same_source(a, c, source_id),
{
    assert forall|row_key: Seq<char>|
        {
            &&& #[trigger] a.snapshots.contains_key((source_id, row_key)) == c.snapshots.contains_key(
                (source_id, row_key),
            )
            &&& a.snapshots.contains_key((source_id, row_key)) ==> a.snapshots[(
                source_id,
                row_key,
            )] == c.snapshots[(source_id, row_key)]
        } by {
        assert(a.snapshots.contains_key((source_id, row_key)) == b.snapshots.contains_key(
            (source_id, row_key),
        ));
        assert(b.snapshots.contains_key((source_id, row_key)) == c.snapshots.contains_key(
            (source_id, row_key),
        ));
    }
}

/// Whether rows with different keys can be imported, and why not, does not depend on the time.
proof fn lemma_failures_recur(
    store: StoreView,
    origin: OriginView,
    rows: Seq<RowView>,
    observed_at: i64,
    later: i64,
)
    requires
        distinct_keys(rows),
    ensures
        match (
            imported_rows(store, origin, rows, observed_at),
            imported_rows(store, origin, rows, later),
        ) {
            (Ok(_), Ok(_)) => true,
            (Err(e), Err(f)) => e == f,
            _ => false,
        },
        rows_storable(store, origin, rows, observed_at) == rows_storable(
            store,
            origin,
            rows,
            later,
        ),
    decreases rows.len(),
{
    if rows.len() > 0 {
        let first = rows.drop_last();
        let n = rows.len() - 1;
        assert forall|i: int, j: int|
            0 <= i < first.len() && 0 <= j < first.len() && (#[trigger] first[i]).row_key == (
            #[trigger] first[j]).row_key implies i == j by {
            assert(rows[i].row_key == rows[j].row_key);
        }
        lemma_failures_recur(store, origin, first, observed_at, later);
        if let (Ok((s, _, _)), Ok((t, _, _))) = (
            imported_rows(store, origin, first, observed_at),
            imported_rows(store, origin, first, later),
        ) {
            law_rows_are_independent(store, origin, first, observed_at);
            law_rows_are_independent(store, origin, first, later);
            let own = (origin.source_id, rows[n].row_key);
            assert forall|i: int| 0 <= i < first.len() implies (
                origin.source_id,
                (#[trigger] first[i]).row_key,
            ) != own by {
                assert(first[i] == rows[i]);
            }
            assert(s.snapshots.contains_key(own) == store.snapshots.contains_key(own));
            assert(t.snapshots.contains_key(own) == store.snapshots.contains_key(own));
            assert(loaded(s, origin.source_id, rows[n].row_key) == loaded(
                t,
                origin.source_id,
                rows[n].row_key,
            ));
        }
    }
}

/// A synchronisation of some profiles and then of others leaves the store as one of all of them.
proof fn lemma_sync_in_parts(
    store: StoreView,
    first: Seq<ReadingView>,
    rest: Seq<ReadingView>,
    observed_at: i64,
)
    ensures
        synced(store, first + rest, observed_at).store == synced(
            synced(store, first, observed_at).store,
            rest,
            observed_at,
        ).store,
    decreases rest.len(),
{
    if rest.len() == 0 {
        assert(first + rest =~= first);
    } else {
        lemma_sync_in_parts(store, first, rest.drop_last(), observed_at);
        assert((first + rest).drop_last() =~= first + rest.drop_last());
        assert((first + rest).last() == rest.last());
    }
}

/// What a synchronisation knows of one profile: before its turn what was known at the start, at the
/// end what its turn left.
proof fn lemma_turn(
    store: StoreView,
    readings: Seq<ReadingView>,
    n: int,
    observed_at: i64,
)
    requires
        distinct_sources(readings),
        0 <= n < readings.len(),
        readings[n].contents is Ok,
    ensures
        same_source(
            store,
            synced(store, readings.take(n), observed_at).store,
            reading_origin(readings[n]).source_id,
        ),
        same_source(
            synced(store, readings.take(n + 1), observed_at).store,
            synced(store, readings, observed_at).store,
            reading_origin(readings[n]).source_id,
        ),
{
    let source_id = reading_origin(readings[n]).source_id;
    let (before, rest) = (readings.take(n), readings.skip(n + 1));
    assert forall|i: int|
        0 <= i < before.len() && (#[trigger] before[i]).contents is Ok implies reading_origin(
        before[i],
    ).source_id != source_id by {
        assert(before[i] == readings[i]);
    }
    law_sync_stays_in_its_sources(store, before, source_id, observed_at);
    let turn = synced(store, readings.take(n + 1), observed_at).store;
    assert forall|i: int|
        0 <= i < rest.len() && (#[trigger] rest[i]).contents is Ok implies reading_origin(
        rest[i],
    ).source_id != source_id by {
        assert(rest[i] == readings[i + n + 1]);
    }
    law_sync_stays_in_its_sources(turn, rest, source_id, observed_at);
    assert(readings.take(n + 1) + rest =~= readings);
    lemma_sync_in_parts(store, readings.take(n + 1), rest, observed_at);
}

proof fn lemma_plain_before(
    store: StoreView,
    before: StoreView,
    origin: OriginView,
    rows: Seq<RowView>,
    observed_at: i64,
)
    requires
        same_source(store, before, origin.source_id),
        no_negative_zeros(store, origin, rows, observed_at),
    ensures
        no_negative_zeros(before, origin, rows, observed_at),
{
    assert forall|i: int| 0 <= i < rows.len() implies no_negative_zero(
        loaded(before, origin.source_id, (#[trigger] rows[i]).row_key)->Ok_0,
        rows[i],
        observed_at,
    ) by {
        let key = (origin.source_id, rows[i].row_key);
        assert(store.snapshots.contains_key(key) == before.snapshots.contains_key(key));
        assert(loaded(store, origin.source_id, rows[i].row_key) == loaded(
            before,
            origin.source_id,
            rows[i].row_key,
        ));
    }
}

/// What an import changes of one source, it changes alike in every store that knows the same of it.
proof fn lemma_times_carry_over(
    turn: StoreView,
    again: StoreView,
    now: StoreView,
    after: StoreView,
    source_id: Seq<char>,
)
    requires
        same_source(turn, now, source_id),
        same_source(again, after, source_id),
        only_times_differ(turn, again),
        forall|other: Seq<char>|
            other != source_id ==> #[trigger] same_source(now, after, other),
    ensures
        only_times_differ(now, after),
{
    assert forall|key: (Seq<char>, Seq<char>)|
        {
            &&& #[trigger] now.snapshots.contains_key(key) == after.snapshots.contains_key(key)
            &&& now.snapshots.contains_key(key) ==> after.snapshots[key] == retimed(
                now.snapshots[key],
                after.snapshots[key].observed_at,
            )
        } by {
        let (source, row_key) = key;
        assert(key == (source, row_key));
        if source == source_id {
            assert(turn.snapshots.contains_key((source_id, row_key)) == now.snapshots.contains_key(
                (source_id, row_key),
            ));
            assert(again.snapshots.contains_key((source_id, row_key))
                == after.snapshots.contains_key((source_id, row_key)));
        } else {
            assert(same_source(now, after, source));
            assert(now.snapshots.contains_key((source, row_key)) == after.snapshots.contains_key(
                (source, row_key),
            ));
        }
    }
}

proof fn lemma_times_chain(a: StoreView, b: StoreView, c: StoreView)
    requires
        only_times_differ(a, b),
        only_times_differ(b, c),
    ensures
        only_times_differ(a, c),
{
    assert forall|key: (Seq<char>, Seq<char>)|
        {
            &&& #[trigger] a.snapshots.contains_key(key) == c.snapshots.contains_key(key)
            &&& a.snapshots.contains_key(key) ==> c.snapshots[key] == retimed(
                a.snapshots[key],
                c.snapshots[key].observed_at,
            )
        } by {
        assert(a.snapshots.contains_key(key) == b.snapshots.contains_key(key));
        assert(b.snapshots.contains_key(key) == c.snapshots.contains_key(key));
    }
}

/// The turn of one profile in a second synchronisation of the same databases.
proof fn lemma_second_turn(
    store: StoreView,
    readings: Seq<ReadingView>,
    n: int,
    now: StoreView,
    observed_at: i64,
    later: i64,
)
    requires
        distinct_sources(readings),
        0 <= n < readings.len(),
        reading_exact(store, readings[n], observed_at),
        readings[n].contents is Ok ==> same_source(
            synced(store, readings, observed_at).store,
            now,
            reading_origin(readings[n]).source_id,
        ),
    ensures
        match (
            imported_reading(
                synced(store, readings.take(n), observed_at).store,
                readings[n],
                observed_at,
            ),
            imported_reading(now, readings[n], later),
        ) {
            (Ok(_), Ok((after, imported, _))) => {
                &&& imported == 0
                &&& reading_plain(store, readings[n], observed_at) ==> only_times_differ(now, after)
            },
            (Err(e), Err(f)) => e == f,
            _ => false,
        },
        reading_storable(
            synced(store, readings.take(n), observed_at).store,
            readings[n],
            observed_at,
        ) ==> reading_storable(now, readings[n], later),
{
    let reading = readings[n];
    if reading.contents is Ok && source_rows(reading.contents->Ok_0.1) is Ok {
        let rows = source_rows(reading.contents->Ok_0.1)->Ok_0;
        let origin = reading_origin(reading);
        let source_id = origin.source_id;
        let before = synced(store, readings.take(n), observed_at).store;
        let turn = synced(store, readings.take(n + 1), observed_at).store;
        let end = synced(store, readings, observed_at).store;
        assert(readings.take(n + 1).drop_last() =~= readings.take(n));
        assert(readings.take(n + 1).last() == reading);
        lemma_turn(store, readings, n, observed_at);
        lemma_same_source_chain(turn, end, now, source_id);
        match imported_rows(before, origin, rows, observed_at) {
            Err(e) => {
                assert(turn == before);
                lemma_failures_recur(before, origin, rows, observed_at, later);
                law_import_sees_only_its_source(before, now, origin, rows, later);
            },
            Ok(_) => {
                assert forall|i: int| 0 <= i < rows.len() implies exact_above_baseline(
                    loaded(before, source_id, (#[trigger] rows[i]).row_key)->Ok_0,
                    rows[i],
                    observed_at,
                ) by {
                    law_rows_are_independent(before, origin, rows, observed_at);
                    let key = (source_id, rows[i].row_key);
                    assert(store.snapshots.contains_key(key) == before.snapshots.contains_key(key));
                    assert(loaded(store, source_id, rows[i].row_key) == loaded(
                        before,
                        source_id,
                        rows[i].row_key,
                    ));
                }
                law_unchanged_rows_import_nothing(before, origin, rows, observed_at, later);
                law_import_sees_only_its_source(turn, now, origin, rows, later);
                if reading_plain(store, reading, observed_at) {
                    lemma_plain_before(store, before, origin, rows, observed_at);
                    lemma_reading_stays(now, reading, later);
                    lemma_times_carry_over(
                        turn,
                        imported_rows(turn, origin, rows, later)->Ok_0.0,
                        now,
                        imported_rows(now, origin, rows, later)->Ok_0.0,
                        source_id,
                    );
                }
            },
        }
    }
}

proof fn lemma_second_sync(
    store: StoreView,
    readings: Seq<ReadingView>,
    n: int,
    observed_at: i64,
    later: i64,
)
    requires
        distinct_sources(readings),
        0 <= n <= readings.len(),
        forall|i: int|
            0 <= i < readings.len() ==> reading_exact(
                store,
                #[trigger] readings[i],
                observed_at,
            ),
    ensures
        ({
            let end = synced(store, readings, observed_at).store;
            let second = synced(end, readings.take(n), later);
            &&& second.imported == 0
            &&& second.store.deltas == end.deltas
            &&& second.errors == synced(store, readings.take(n), observed_at).errors
            &&& sync_storable(store, readings, observed_at) ==> sync_storable(
                end,
                readings.take(n),
                later,
            )
            &&& (forall|i: int|
                0 <= i < readings.len() ==> reading_plain(
                    store,
                    #[trigger] readings[i],
                    observed_at,
                )) ==> only_times_differ(end, second.store)
        }),
    decreases n,
{
    let end = synced(store, readings, observed_at).store;
    if n == 0 {
        assert(readings.take(0).len() == 0);
    } else {
        lemma_second_sync(store, readings, n - 1, observed_at, later);
        let first = readings.take(n - 1);
        let now = synced(end, first, later).store;
        let reading = readings[n - 1];
        assert(readings.take(n).drop_last() =~= first);
        assert(readings.take(n).last() == reading);
        if reading.contents is Ok {
            let source_id = reading_origin(reading).source_id;
            assert forall|i: int|
                0 <= i < first.len() && (#[trigger] first[i]).contents is Ok implies reading_origin(
                first[i],
            ).source_id != source_id by {
                assert(first[i] == readings[i]);
            }
            law_sync_stays_in_its_sources(end, first, source_id, later);
        }
        assert(reading_exact(store, readings[n - 1], observed_at));
        lemma_second_turn(store, readings, n - 1, now, observed_at, later);
        lemma_storable_prefix(store, readings, n, observed_at);
        lemma_reading_stays(now, reading, later);
        let after = synced(end, readings.take(n), later).store;
        if imported_reading(now, reading, later) is Ok {
            assert(after.deltas.take(now.deltas.len() as int) =~= after.deltas);
            if forall|i: int|
                0 <= i < readings.len() ==> reading_plain(
                    store,
                    #[trigger] readings[i],
                    observed_at,
                ) {
                assert(reading_plain(store, readings[n - 1], observed_at));
                lemma_times_chain(end, now, after);
            }
        }
    }
}

/// Synchronising a second time while the databases stand still stores no delta, and reports the same
/// failures. If it could be made the first time, it can be made again. The stored snapshots change
/// in the time of observation alone.
pub proof fn law_repeated_sync_imports_nothing(
    store: StoreView,
    readings: Seq<ReadingView>,
    observed_at: i64,
    later: i64,
)
    requires
        distinct_sources(readings),
        forall|i: int|
            0 <= i < readings.len() ==> reading_exact(
                store,
                #[trigger] readings[i],
                observed_at,
            ),
    ensures
        ({
            let first = synced(store, readings, observed_at);
            let second = synced(first.store, readings, later);
            &&& second.imported == 0
            &&& second.store.deltas == first.store.deltas
            &&& second.errors == first.errors
            &&& sync_storable(store, readings, observed_at) ==> sync_storable(
                first.store,
                readings,
                later,
            )
            &&& (forall|i: int|
                0 <= i < readings.len() ==> reading_plain(
                    store,
                    #[trigger] readings[i],
                    observed_at,
                )) ==> only_times_differ(first.store, second.store)
        }),
{
    lemma_second_sync(store, readings, readings.len() as int, observed_at, later);
    assert(readings.take(readings.len() as int) =~= readings);
}

/// Each database is imported from what was read of it: the readings are the sources in their order, each
/// with its own contents.
pub proof fn law_readings_pair_up(
    sources: Seq<SourceView>,
    contents: Seq<Result<SourceContents, AppError>>,
)
    ensures
        readings(sources, contents).len() == sources.len(),
        forall|i: int|
            0 <= i < sources.len() ==> {
                let reading = #[trigger] readings(sources, contents)[i];
                &&& reading.source == sources[i]
                &&& contents[i] is Ok ==> reading.contents == Ok::<
                    (FileIdentity, TablesView),
                    Failure,
                >((contents[i]->Ok_0.identity, contents[i]->Ok_0.tables@))
                &&& contents[i] is Err ==> reading.contents == Err::<
                    (FileIdentity, TablesView),
                    Failure,
                >(contents[i]->Err_0@)
            },
{
}

/// A profile is imported from what was read of its database, into the store as it stands; one that could
/// not be read fails for the reason that was given.
pub proof fn law_reading_is_imported(store: StoreView, reading: ReadingView, observed_at: i64)
    ensures
        reading.contents is Err ==> imported_reading(store, reading, observed_at) == Err::<
            (StoreView, nat, nat),
            Failure,
        >(reading.contents->Err_0),
        reading.contents is Ok ==> imported_reading(store, reading, observed_at)
            == imported_database(
            store,
            reading.source,
            (reading.contents->Ok_0).0,
            (reading.contents->Ok_0).1,
            observed_at,
        ),
{
}

/// One more profile is imported into the store that those before it leave. Where it can be imported, the
/// store is what its import leaves and its rows are counted; where it cannot, the store and the counts
/// stay, and one text is added that names the profile and the reason.
pub proof fn law_profiles_are_synced_in_turn(
    store: StoreView,
    profiles: Seq<ReadingView>,
    profile: ReadingView,
    observed_at: i64,
)
    ensures
        ({
            let before = synced(store, profiles, observed_at);
            let after = synced(store, profiles.push(profile), observed_at);
            let start = synced(store, Seq::empty(), observed_at);
            &&& start.store == store && start.imported == 0 && start.skipped == 0
                && start.errors.len() == 0
            &&& match imported_reading(before.store, profile, observed_at) {
                Ok((left, imported, skipped)) => {
                    &&& after.store == left
                    &&& after.imported == before.imported + imported
                    &&& after.skipped == before.skipped + skipped
                    &&& after.errors == before.errors
                },
                Err(failure) => {
                    let reason = match failure {
                        Failure::Config(message) => message,
                        Failure::Database(message) => message,
                    };
                    &&& after.store == before.store
                    &&& after.imported == before.imported
                    &&& after.skipped == before.skipped
                    &&& after.errors == before.errors.push(
                        "Hermes Profile '"@ + profile.source.profile_name + "' 同步失败: "@
                            + reason,
                    )
                },
            }
        }),
{
    assert(profiles.push(profile).drop_last() =~= profiles);
}

/// A home whose profiles can be listed is synchronised by importing each of its databases, in the order
/// of the listing, from what was read of it.
pub proof fn law_home_is_synced_database_by_database(
    store: StoreView,
    listing: RootListing,
    contents: Seq<Result<SourceContents, AppError>>,
    observed_at: i64,
)
    ensures
        discovered(listing) is Ok ==> synced_home(store, listing, contents, observed_at) == Ok::<
            Progress,
            Failure,
        >(synced(store, readings(discovered(listing)->Ok_0, contents), observed_at)),
{
}

/// A report gives the counts as they are, as long as they fit in 32 bits, and else the largest number that
/// does; and it gives every text.
pub proof fn law_report_gives_the_counts(
    report: SessionSyncResult,
    progress: Progress,
    files: nat,
)
    requires
        report.reports(progress, files),
    ensures
        report.imported == if progress.imported <= u32::MAX {
            progress.imported
        } else {
            u32::MAX as nat
        },
        report.skipped == if progress.skipped <= u32::MAX {
            progress.skipped
        } else {
            u32::MAX as nat
        },
        files <= u32::MAX ==> report.files_scanned == files,
        report.errors@.len() == progress.errors.len(),
        forall|i: int|
            0 <= i < progress.errors.len() ==> (#[trigger] report.errors@[i])@
                == progress.errors[i],
{
    assert forall|i: int| 0 <= i < progress.errors.len() implies (#[trigger] report.errors@[i])@
        == progress.errors[i] by {
        assert(error_texts(report.errors@)[i] == report.errors@[i]@);
    }
}

} // verus!
