//! What holds of the rows that a database yields: the session totals add the main-loop calls that
//! no usage row accounts for, once, and change nothing else.

use crate::cost::{pow10, scaled, Cost};
use crate::cost_laws::{lemma_cost_text_reads_back, lemma_few_places, lemma_scaled_micros};
use crate::digest::digest_of;
use crate::digest_laws::{bounded, law_residual_key_is_reserved, told_apart};
use crate::error::Failure;
use crate::import::{row_effect, OriginView};
use crate::import_laws::{emitted_by, kept_state};
use crate::reader::{
    attributed_main_calls, lemma_rows_match_records, main_residual, parsed_rows, residual_row,
    residual_rows, source_rows, SessionView, TablesView, HERMES_UNATTRIBUTED_MAIN_TASK,
};
use crate::source::{parsed_row, row_key_of, RecordView, RowView};
use crate::value::{counter_value, required_value, text_value, ValueView};
use crate::value_laws::{is_counter, law_counter_reads_as_itself};
use vstd::prelude::*;
use vstd::string::*;

verus! {

/// A database without session totals yields its usage rows and nothing else.
pub proof fn law_without_totals_nothing_is_added(tables: TablesView)
    requires
        tables.has_usage_table,
        tables.failure is None,
        tables.sessions is None,
    ensures
        source_rows(tables) == parsed_rows(tables.records),
{
}

/// The row is one that a session total adds.
pub open spec fn is_added(row: RowView, sessions: Seq<SessionView>) -> bool {
    exists|i: int|
        0 <= i < sessions.len() && required_value((#[trigger] sessions[i]).id) == Ok::<
            Seq<char>,
            Failure,
        >(row.session_id) && row.api_call_count > 0 && row == residual_row(
            row.session_id,
            row.api_call_count,
        )
}

proof fn lemma_added_rows(records: Seq<RecordView>, sessions: Seq<SessionView>)
    requires
        residual_rows(records, sessions) is Ok,
        counters_readable(records),
    ensures
        forall|i: int|
            0 <= i < residual_rows(records, sessions)->Ok_0.len() ==> is_added(
                #[trigger] residual_rows(records, sessions)->Ok_0[i],
                sessions,
            ),
    decreases sessions.len(),
{
    if sessions.len() > 0 {
        let first = sessions.drop_last();
        lemma_added_rows(records, first);
        let (before, after) = (
            residual_rows(records, first)->Ok_0,
            residual_rows(records, sessions)->Ok_0,
        );
        assert forall|i: int| 0 <= i < after.len() implies is_added(
            #[trigger] after[i],
            sessions,
        ) by {
            if i < before.len() {
                assert(is_added(before[i], first));
                let j = choose|j: int|
                    0 <= j < first.len() && required_value((#[trigger] first[j]).id) == Ok::<
                        Seq<char>,
                        Failure,
                    >(before[i].session_id) && before[i].api_call_count > 0 && before[i]
                        == residual_row(before[i].session_id, before[i].api_call_count);
                assert(sessions[j] == first[j]);
            } else {
                let session = sessions[sessions.len() - 1];
                lemma_attributed_is_not_negative(records, session.id);
            }
        }
    }
}

/// The calls of every record can be read.
pub open spec fn counters_readable(records: Seq<RecordView>) -> bool {
    forall|i: int|
        0 <= i < records.len() ==> counter_value(
            (#[trigger] records[i]).api_call_count,
            "api_call_count"@,
        ) is Ok
}

proof fn lemma_counters_readable(records: Seq<RecordView>)
    requires
        parsed_rows(records) is Ok,
    ensures
        counters_readable(records),
{
    lemma_rows_match_records(records);
    assert forall|i: int| 0 <= i < records.len() implies counter_value(
        (#[trigger] records[i]).api_call_count,
        "api_call_count"@,
    ) is Ok by {
        assert(parsed_row(records[i]) is Ok);
    }
}

proof fn lemma_attributed_is_not_negative(records: Seq<RecordView>, session: ValueView)
    requires
        counters_readable(records),
    ensures
        attributed_main_calls(records, session) >= 0,
    decreases records.len(),
{
    if records.len() > 0 {
        let last = records[records.len() - 1];
        assert forall|i: int| 0 <= i < records.drop_last().len() implies counter_value(
            (#[trigger] records.drop_last()[i]).api_call_count,
            "api_call_count"@,
        ) is Ok by {
            assert(records.drop_last()[i] == records[i]);
        }
        lemma_attributed_is_not_negative(records.drop_last(), session);
        assert(counter_value(last.api_call_count, "api_call_count"@) is Ok);
    }
}

/// The session totals leave the usage rows as they are; behind them stand rows of calls that are
/// attributed to no model, route, tokens or cost.
pub proof fn law_usage_rows_stay(tables: TablesView)
    requires
        source_rows(tables) is Ok,
    ensures
        ({
            let usage = parsed_rows(tables.records)->Ok_0;
            let rows = source_rows(tables)->Ok_0;
            &&& parsed_rows(tables.records) is Ok
            &&& usage.len() <= rows.len()
            &&& rows.take(usage.len() as int) == usage
            &&& rows.len() > usage.len() ==> tables.sessions is Some
            &&& forall|i: int|
                usage.len() <= i < rows.len() ==> is_added(
                    #[trigger] rows[i],
                    (tables.sessions->0).0,
                )
        }),
{
    let usage = parsed_rows(tables.records)->Ok_0;
    let rows = source_rows(tables)->Ok_0;
    assert(rows.take(usage.len() as int) =~= usage);
    if let Some((sessions, _)) = tables.sessions {
        lemma_counters_readable(tables.records);
        lemma_added_rows(tables.records, sessions);
        let added = residual_rows(tables.records, sessions)->Ok_0;
        assert forall|i: int| usage.len() <= i < rows.len() implies is_added(
            #[trigger] rows[i],
            sessions,
        ) by {
            assert(rows[i] == added[i - usage.len()]);
        }
    }
}

/// Auxiliary calls do not count as calls of the main loop: only those of records count whose task is
/// the empty text.
pub proof fn law_auxiliary_rows_do_not_count(
    records: Seq<RecordView>,
    record: RecordView,
    session: ValueView,
)
    requires
        text_value(record.task) != Ok::<Option<Seq<char>>, Failure>(Some(Seq::empty())),
    ensures
        attributed_main_calls(records.push(record), session) == attributed_main_calls(
            records,
            session,
        ),
{
    assert(records.push(record).drop_last() =~= records);
}

/// A session whose total its usage records account for adds nothing; any other adds exactly what is
/// missing, so that usage records and added row together come to the total.
pub proof fn law_total_is_completed(
    records: Seq<RecordView>,
    sessions: Seq<SessionView>,
    session: SessionView,
)
    requires
        residual_rows(records, sessions) is Ok,
        required_value(session.id) is Ok,
        counter_value(session.api_call_count, "api_call_count"@) is Ok,
        counters_readable(records),
    ensures
        ({
            let id = required_value(session.id)->Ok_0;
            let total = counter_value(session.api_call_count, "api_call_count"@)->Ok_0;
            let attributed = attributed_main_calls(records, session.id);
            let before = residual_rows(records, sessions)->Ok_0;
            let after = residual_rows(records, sessions.push(session));
            &&& total <= attributed ==> after == Ok::<Seq<RowView>, Failure>(before)
            &&& total > attributed ==> {
                &&& after is Ok
                &&& after->Ok_0 == before.push(residual_row(id, (total - attributed) as i64))
                &&& attributed + after->Ok_0.last().api_call_count == total
            }
        }),
{
    assert(sessions.push(session).drop_last() =~= sessions);
    lemma_attributed_is_not_negative(records, session.id);
}

/// Calls of the main loop that only the session total knows of are imported like any others: once
/// a baseline is there, growth is stored as one delta of exactly so many calls, without tokens or
/// cost.
pub proof fn law_added_calls_are_imported(
    origin: OriginView,
    session_id: Seq<char>,
    earlier: i64,
    now: i64,
    observed_at: i64,
    later: i64,
)
    requires
        0 <= earlier < now,
    ensures
        ({
            let known = kept_state(
                residual_row(session_id, earlier),
                Cost::nothing(),
                Cost::nothing(),
                observed_at,
            );
            let effect = row_effect(Some(known), origin, residual_row(session_id, now), later);
            &&& effect is Ok
            &&& effect->Ok_0.1 is Some
            &&& effect->Ok_0.1->0.api_call_count == now - earlier
            &&& effect->Ok_0.1->0.input_tokens == 0
            &&& effect->Ok_0.1->0.output_tokens == 0
            &&& effect->Ok_0.1->0.cache_read_tokens == 0
            &&& effect->Ok_0.1->0.cache_write_tokens == 0
            &&& effect->Ok_0.1->0.reasoning_tokens == 0
            &&& emitted_by(effect->Ok_0.1) == 0
        }),
{
    lemma_few_places(Cost::nothing());
    assert(0 * pow10(6) == 0);
    lemma_scaled_micros(0);
    lemma_cost_text_reads_back(scaled(0, 6), "cost_usd"@);
}

/// The session of a record of totals.
pub open spec fn session_of(session: SessionView) -> Seq<char> {
    required_value(session.id)->Ok_0
}

/// The main-loop calls that the total of a session knows of and no usage row accounts for.
pub open spec fn missing_calls(records: Seq<RecordView>, session: SessionView) -> int {
    main_residual(
        counter_value(session.api_call_count, "api_call_count"@)->Ok_0 as int,
        attributed_main_calls(records, session.id),
    )
}

/// No session has two totals.
pub open spec fn distinct_sessions(sessions: Seq<SessionView>) -> bool {
    forall|i: int, j: int|
        0 <= i < sessions.len() && 0 <= j < sessions.len() && session_of(#[trigger] sessions[i])
            == session_of(#[trigger] sessions[j]) ==> i == j
}

/// The row stands for the missing calls of the session.
pub open spec fn stands_for(row: RowView, records: Seq<RecordView>, session: SessionView) -> bool {
    missing_calls(records, session) > 0 && row == residual_row(
        session_of(session),
        missing_calls(records, session) as i64,
    )
}

/// Some row of the list stands for the missing calls of the session.
pub open spec fn has_row_for(added: Seq<RowView>, records: Seq<RecordView>, session: SessionView) -> bool {
    exists|j: int| 0 <= j < added.len() && stands_for(#[trigger] added[j], records, session)
}

/// The row stands for the missing calls of some session of the list.
pub open spec fn has_session(row: RowView, records: Seq<RecordView>, sessions: Seq<SessionView>) -> bool {
    exists|i: int| 0 <= i < sessions.len() && stands_for(row, records, #[trigger] sessions[i])
}

/// No two rows of the list are of the same session.
pub open spec fn of_distinct_sessions(added: Seq<RowView>) -> bool {
    forall|j: int, k: int|
        0 <= j < added.len() && 0 <= k < added.len() && (#[trigger] added[j]).session_id == (
        #[trigger] added[k]).session_id ==> j == k
}

/// One more session adds one row or none.
proof fn lemma_one_more_session(records: Seq<RecordView>, sessions: Seq<SessionView>)
    requires
        residual_rows(records, sessions) is Ok,
        sessions.len() > 0,
    ensures
        ({
            let before = residual_rows(records, sessions.drop_last());
            let added = residual_rows(records, sessions)->Ok_0;
            &&& before is Ok
            &&& missing_calls(records, sessions.last()) <= 0 ==> added == before->Ok_0
            &&& missing_calls(records, sessions.last()) > 0 ==> {
                &&& added == before->Ok_0.push(added.last())
                &&& stands_for(added.last(), records, sessions.last())
            }
        }),
{
    let before = residual_rows(records, sessions.drop_last())->Ok_0;
    let added = residual_rows(records, sessions)->Ok_0;
    if missing_calls(records, sessions.last()) > 0 {
        assert(added =~= before.push(added.last()));
    }
}

proof fn lemma_every_session_has_its_row(
    records: Seq<RecordView>,
    sessions: Seq<SessionView>,
    i: int,
)
    requires
        residual_rows(records, sessions) is Ok,
        0 <= i < sessions.len(),
        missing_calls(records, sessions[i]) > 0,
    ensures
        has_row_for(residual_rows(records, sessions)->Ok_0, records, sessions[i]),
    decreases sessions.len(),
{
    lemma_one_more_session(records, sessions);
    let first = sessions.drop_last();
    let (before, added) = (residual_rows(records, first)->Ok_0, residual_rows(records, sessions)->Ok_0);
    if i < first.len() {
        assert(first[i] == sessions[i]);
        lemma_every_session_has_its_row(records, first, i);
        let j = choose|j: int|
            0 <= j < before.len() && stands_for(#[trigger] before[j], records, first[i]);
        assert(added[j] == before[j]);
    } else {
        assert(stands_for(added[before.len() as int], records, sessions[i]));
    }
}

proof fn lemma_every_row_has_its_session(
    records: Seq<RecordView>,
    sessions: Seq<SessionView>,
    j: int,
)
    requires
        residual_rows(records, sessions) is Ok,
        0 <= j < residual_rows(records, sessions)->Ok_0.len(),
    ensures
        has_session(residual_rows(records, sessions)->Ok_0[j], records, sessions),
    decreases sessions.len(),
{
    if sessions.len() > 0 {
        lemma_one_more_session(records, sessions);
        let first = sessions.drop_last();
        let n = sessions.len() - 1;
        let (before, added) = (
            residual_rows(records, first)->Ok_0,
            residual_rows(records, sessions)->Ok_0,
        );
        if j < before.len() {
            lemma_every_row_has_its_session(records, first, j);
            assert(added[j] == before[j]);
            let i = choose|i: int|
                0 <= i < first.len() && stands_for(before[j], records, #[trigger] first[i]);
            assert(first[i] == sessions[i]);
            assert(stands_for(added[j], records, sessions[i]));
        } else {
            assert(stands_for(added[j], records, sessions[n]));
        }
    }
}

proof fn lemma_rows_are_of_distinct_sessions(records: Seq<RecordView>, sessions: Seq<SessionView>)
    requires
        residual_rows(records, sessions) is Ok,
        distinct_sessions(sessions),
    ensures
        of_distinct_sessions(residual_rows(records, sessions)->Ok_0),
    decreases sessions.len(),
{
    if sessions.len() > 0 {
        lemma_one_more_session(records, sessions);
        let first = sessions.drop_last();
        let n = sessions.len() - 1;
        let (before, added) = (
            residual_rows(records, first)->Ok_0,
            residual_rows(records, sessions)->Ok_0,
        );
        assert forall|i: int, j: int|
            0 <= i < first.len() && 0 <= j < first.len() && session_of(#[trigger] first[i])
                == session_of(#[trigger] first[j]) implies i == j by {
            assert(session_of(sessions[i]) == session_of(sessions[j]));
        }
        lemma_rows_are_of_distinct_sessions(records, first);
        assert forall|j: int| 0 <= j < before.len() implies (#[trigger] before[j]).session_id
            != session_of(sessions[n]) by {
            lemma_every_row_has_its_session(records, first, j);
            let i = choose|i: int|
                0 <= i < first.len() && stands_for(before[j], records, #[trigger] first[i]);
            assert(first[i] == sessions[i]);
            if before[j].session_id == session_of(sessions[n]) {
                assert(session_of(sessions[i]) == session_of(sessions[n]));
            }
        }
        assert forall|j: int, k: int|
            0 <= j < added.len() && 0 <= k < added.len() && (#[trigger] added[j]).session_id == (
            #[trigger] added[k]).session_id implies j == k by {
            if j < before.len() {
                assert(added[j] == before[j]);
            }
            if k < before.len() {
                assert(added[k] == before[k]);
            }
        }
    }
}

/// The key of a row is the digest of its dimensions.
pub open spec fn keyed_by_dimensions(row: RowView) -> bool {
    row.row_key == row_key_of(
        row.session_id,
        row.model,
        row.billing_provider,
        row.billing_base_url_digest,
        row.billing_mode,
        row.task,
    )
}

proof fn lemma_keyed_by_dimensions(records: Seq<RecordView>)
    requires
        parsed_rows(records) is Ok,
    ensures
        forall|i: int|
            0 <= i < parsed_rows(records)->Ok_0.len() ==> keyed_by_dimensions(
                #[trigger] parsed_rows(records)->Ok_0[i],
            ),
    decreases records.len(),
{
    if records.len() > 0 {
        lemma_keyed_by_dimensions(records.drop_last());
        let (before, after) = (
            parsed_rows(records.drop_last())->Ok_0,
            parsed_rows(records)->Ok_0,
        );
        assert forall|i: int| 0 <= i < after.len() implies keyed_by_dimensions(
            #[trigger] after[i],
        ) by {
            if i < before.len() {
                assert(after[i] == before[i]);
            }
        }
    }
}

/// The texts of which the keys of a usage row and of an added row are digests do not collide.
pub open spec fn keys_told_apart(usage: RowView, added: RowView) -> bool {
    let marked = seq![HERMES_UNATTRIBUTED_MAIN_TASK@, added.session_id];
    let dimensions = seq![
        usage.session_id,
        usage.model,
        usage.billing_provider,
        usage.billing_base_url_digest,
        usage.billing_mode,
        usage.task,
    ];
    bounded(marked) && bounded(dimensions) && told_apart(marked, dimensions)
}

/// All rows of a database with session totals: its usage rows, unchanged and in their order, and
/// then exactly one row for each session whose total exceeds the main-loop calls that its usage rows
/// account for, with the calls that are missing, and none for any other session. None of them has
/// the key of a usage row.
pub proof fn law_one_row_per_session(tables: TablesView)
    requires
        source_rows(tables) is Ok,
        tables.sessions is Some,
        distinct_sessions((tables.sessions->0).0),
    ensures
        ({
            let usage = parsed_rows(tables.records)->Ok_0;
            let rows = source_rows(tables)->Ok_0;
            let sessions = (tables.sessions->0).0;
            let added = rows.skip(usage.len() as int);
            &&& parsed_rows(tables.records) is Ok
            &&& rows == usage + added
            &&& of_distinct_sessions(added)
            &&& forall|i: int|
                0 <= i < sessions.len() && missing_calls(tables.records, #[trigger] sessions[i]) > 0
                    ==> has_row_for(added, tables.records, sessions[i])
            &&& forall|i: int, j: int|
                0 <= i < sessions.len() && 0 <= j < added.len() && missing_calls(
                    tables.records,
                    #[trigger] sessions[i],
                ) <= 0 ==> (#[trigger] added[j]).session_id != session_of(sessions[i])
            &&& forall|j: int|
                0 <= j < added.len() ==> has_session(#[trigger] added[j], tables.records, sessions)
            &&& forall|j: int, k: int|
                0 <= j < added.len() && 0 <= k < usage.len() && keys_told_apart(
                    #[trigger] usage[k],
                    #[trigger] added[j],
                ) ==> added[j].row_key != usage[k].row_key
        }),
{
    let usage = parsed_rows(tables.records)->Ok_0;
    let rows = source_rows(tables)->Ok_0;
    let sessions = (tables.sessions->0).0;
    let added = residual_rows(tables.records, sessions)->Ok_0;
    assert(rows == usage + added);
    assert(rows.skip(usage.len() as int) =~= added);
    lemma_rows_are_of_distinct_sessions(tables.records, sessions);
    lemma_keyed_by_dimensions(tables.records);
    assert forall|i: int|
        0 <= i < sessions.len() && missing_calls(tables.records, #[trigger] sessions[i])
            > 0 implies has_row_for(added, tables.records, sessions[i]) by {
        lemma_every_session_has_its_row(tables.records, sessions, i);
    }
    assert forall|j: int| 0 <= j < added.len() implies has_session(
        #[trigger] added[j],
        tables.records,
        sessions,
    ) by {
        lemma_every_row_has_its_session(tables.records, sessions, j);
    }
    assert forall|i: int, j: int|
        0 <= i < sessions.len() && 0 <= j < added.len() && missing_calls(
            tables.records,
            #[trigger] sessions[i],
        ) <= 0 implies (#[trigger] added[j]).session_id != session_of(sessions[i]) by {
        assert(has_session(added[j], tables.records, sessions));
        let k = choose|k: int|
            0 <= k < sessions.len() && stands_for(added[j], tables.records, #[trigger] sessions[k]);
        if added[j].session_id == session_of(sessions[i]) {
            assert(session_of(sessions[k]) == session_of(sessions[i]));
        }
    }
    assert forall|j: int, k: int|
        0 <= j < added.len() && 0 <= k < usage.len() && keys_told_apart(
            #[trigger] usage[k],
            #[trigger] added[j],
        ) implies added[j].row_key != usage[k].row_key by {
        assert(has_session(added[j], tables.records, sessions));
        lemma_added_key(added[j], usage[k], tables.records, sessions);
    }
}

proof fn lemma_added_key(
    added: RowView,
    usage: RowView,
    records: Seq<RecordView>,
    sessions: Seq<SessionView>,
)
    requires
        has_session(added, records, sessions),
        keyed_by_dimensions(usage),
        keys_told_apart(usage, added),
    ensures
        added.row_key != usage.row_key,
{
    law_residual_key_is_reserved(
        added.session_id,
        added.api_call_count,
        (
            usage.session_id,
            usage.model,
            usage.billing_provider,
            usage.billing_base_url_digest,
            usage.billing_mode,
            usage.task,
        ),
    );
}

/// A record that names the session and whose task is the empty text is of the main loop, whatever its
/// other columns hold: it raises the calls that the usage records of the session account for by exactly
/// its own.
pub proof fn law_main_record_counts(
    records: Seq<RecordView>,
    record: RecordView,
    session: ValueView,
    id: Seq<char>,
    calls: i64,
)
    requires
        text_value(session) == Ok::<Option<Seq<char>>, Failure>(Some(id)),
        text_value(record.session_id) == Ok::<Option<Seq<char>>, Failure>(Some(id)),
        text_value(record.task) == Ok::<Option<Seq<char>>, Failure>(Some(Seq::empty())),
        is_counter(record.api_call_count, calls),
    ensures
        attributed_main_calls(records.push(record), session) == attributed_main_calls(
            records,
            session,
        ) + calls,
{
    assert(records.push(record).drop_last() =~= records);
    law_counter_reads_as_itself(record.api_call_count, "api_call_count"@, calls);
}

/// A record that names another session, or none, does not count for this one; nor does any record
/// for a session without a name.
pub proof fn law_other_sessions_do_not_count(
    records: Seq<RecordView>,
    record: RecordView,
    session: ValueView,
)
    requires
        text_value(session) == Ok::<Option<Seq<char>>, Failure>(None) || text_value(
            record.session_id,
        ) != text_value(session),
    ensures
        attributed_main_calls(records.push(record), session) == attributed_main_calls(
            records,
            session,
        ),
{
    assert(records.push(record).drop_last() =~= records);
}

/// The calls of the main loop of a session: those of the records with its name and an empty task.
pub open spec fn main_loop_calls(records: Seq<RecordView>, id: Seq<char>) -> int
    decreases records.len(),
{
    if records.len() == 0 {
        0
    } else {
        let record = records[0];
        let rest = main_loop_calls(records.drop_first(), id);
        if text_value(record.session_id) == Ok::<Option<Seq<char>>, Failure>(Some(id))
            && text_value(record.task) == Ok::<Option<Seq<char>>, Failure>(Some(Seq::empty())) {
            counter_value(record.api_call_count, "api_call_count"@)->Ok_0 + rest
        } else {
            rest
        }
    }
}

proof fn lemma_main_loop_push(records: Seq<RecordView>, record: RecordView, id: Seq<char>)
    ensures
        main_loop_calls(records.push(record), id) == main_loop_calls(records, id)
            + main_loop_calls(seq![record], id),
    decreases records.len(),
{
    if records.len() == 0 {
        assert(records.push(record) =~= seq![record]);
    } else {
        assert(records.push(record).drop_first() =~= records.drop_first().push(record));
        lemma_main_loop_push(records.drop_first(), record, id);
    }
}

/// The calls that the usage records of a session account for are the sum of the calls of all records
/// with its name and an empty task, in whatever order they stand.
pub proof fn law_main_calls_are_a_sum(records: Seq<RecordView>, session: ValueView, id: Seq<char>)
    requires
        text_value(session) == Ok::<Option<Seq<char>>, Failure>(Some(id)),
    ensures
        attributed_main_calls(records, session) == main_loop_calls(records, id),
    decreases records.len(),
{
    if records.len() > 0 {
        let record = records.last();
        law_main_calls_are_a_sum(records.drop_last(), session, id);
        assert(records =~= records.drop_last().push(record));
        lemma_main_loop_push(records.drop_last(), record, id);
        assert(seq![record].drop_first() =~= Seq::empty());
        assert(main_loop_calls(seq![record].drop_first(), id) == 0);
        assert(seq![record][0] == record);
    }
}

/// The row is the one that a session total adds for a session of that name: so many calls of an
/// unknown model under the reserved task, without a route, tokens, cost or times.
pub open spec fn holds_only_calls(row: RowView, session_id: Seq<char>, calls: int) -> bool {
    &&& row.session_id == session_id
    &&& row.api_call_count == calls
    &&& row.model == "unknown"@
    &&& row.task == "unattributed_main"@
    &&& row.billing_provider.len() == 0
    &&& row.billing_mode.len() == 0
    &&& row.billing_base_url_digest == digest_of(seq![Seq::empty()])
    &&& row.input_tokens == 0
    &&& row.output_tokens == 0
    &&& row.cache_read_tokens == 0
    &&& row.cache_write_tokens == 0
    &&& row.reasoning_tokens == 0
    &&& row.estimated_cost_usd is None
    &&& row.actual_cost_usd is None
    &&& row.selected_cost_usd == Cost { negative: false, magnitude: 0, scale: 0 }
    &&& row.selected_cost_kind == "none"@
    &&& row.cost_status is None
    &&& row.cost_source is None
    &&& row.first_seen is None
    &&& row.last_seen is None
    &&& row.row_key == digest_of(seq!["unattributed_main"@, session_id])
}

/// A database whose session totals have one session more yields the same rows and, where the total
/// of that session exceeds the calls of its main-loop records, one row more with what is missing.
pub proof fn law_session_total_is_met(tables: TablesView, more: TablesView, id: Seq<char>, total: i64)
    requires
        source_rows(tables) is Ok,
        tables.sessions is Some,
        more.has_usage_table,
        more.records == tables.records,
        more.failure is None,
        more.sessions is Some,
        (more.sessions->0).1 is None,
        (more.sessions->0).0.len() == (tables.sessions->0).0.len() + 1,
        (more.sessions->0).0.drop_last() == (tables.sessions->0).0,
        text_value((more.sessions->0).0.last().id) == Ok::<Option<Seq<char>>, Failure>(Some(id)),
        is_counter((more.sessions->0).0.last().api_call_count, total),
    ensures
        ({
            let accounted = main_loop_calls(tables.records, id);
            let rows = source_rows(tables)->Ok_0;
            let after = source_rows(more);
            &&& after is Ok
            &&& accounted >= total ==> after->Ok_0 == rows
            &&& accounted < total ==> {
                &&& after->Ok_0.len() == rows.len() + 1
                &&& after->Ok_0.drop_last() == rows
                &&& holds_only_calls(after->Ok_0.last(), id, total - accounted)
            }
        }),
{
    let sessions = (tables.sessions->0).0;
    let session = (more.sessions->0).0.last();
    law_main_calls_are_a_sum(tables.records, session.id, id);
    law_counter_reads_as_itself(session.api_call_count, "api_call_count"@, total);
    lemma_counters_readable(tables.records);
    lemma_attributed_is_not_negative(tables.records, session.id);
    assert((more.sessions->0).0 =~= sessions.push(session));
    assert(sessions.push(session).drop_last() =~= sessions);
    let usage = parsed_rows(tables.records)->Ok_0;
    let before = residual_rows(tables.records, sessions)->Ok_0;
    let added = residual_rows(tables.records, sessions.push(session))->Ok_0;
    if main_loop_calls(tables.records, id) < total {
        assert((usage + added).drop_last() =~= usage + before);
        assert((usage + added).last() == added.last());
    }
}

/// A database is read exactly where it has usage rows, each of them can be read, the name and the
/// total of each session can be read, and neither table breaks off.
pub proof fn law_database_is_read_where_its_rows_are(tables: TablesView)
    ensures
        source_rows(tables) is Ok <==> {
            &&& tables.has_usage_table
            &&& tables.failure is None
            &&& all_readable(tables.records)
            &&& tables.sessions is Some ==> (tables.sessions->0).1 is None && sessions_readable(
                (tables.sessions->0).0,
            )
        },
{
    lemma_all_readable(tables.records);
    if let Some((sessions, _)) = tables.sessions {
        lemma_sessions_readable(tables.records, sessions);
    }
}

/// Every record can be read.
pub open spec fn all_readable(records: Seq<RecordView>) -> bool {
    forall|i: int| 0 <= i < records.len() ==> parsed_row(#[trigger] records[i]) is Ok
}

/// The name and the total of every session can be read.
pub open spec fn sessions_readable(sessions: Seq<SessionView>) -> bool {
    forall|i: int| 0 <= i < sessions.len() ==> session_readable(#[trigger] sessions[i])
}

/// The name and the total of the session can be read.
pub open spec fn session_readable(session: SessionView) -> bool {
    &&& text_value(session.id) is Ok
    &&& counter_value(session.api_call_count, "api_call_count"@) is Ok
}

proof fn lemma_all_readable(records: Seq<RecordView>)
    ensures
        parsed_rows(records) is Ok <==> all_readable(records),
    decreases records.len(),
{
    if parsed_rows(records) is Ok {
        lemma_rows_match_records(records);
    }
    if all_readable(records) && records.len() > 0 {
        assert forall|i: int| 0 <= i < records.drop_last().len() implies parsed_row(
            #[trigger] records.drop_last()[i],
        ) is Ok by {
            assert(records.drop_last()[i] == records[i]);
        }
        lemma_all_readable(records.drop_last());
        assert(parsed_row(records[records.len() - 1]) is Ok);
    }
}

proof fn lemma_sessions_readable(records: Seq<RecordView>, sessions: Seq<SessionView>)
    ensures
        residual_rows(records, sessions) is Ok <==> sessions_readable(sessions),
    decreases sessions.len(),
{
    if sessions.len() > 0 {
        let first = sessions.drop_last();
        lemma_sessions_readable(records, first);
        if residual_rows(records, sessions) is Ok {
            assert forall|i: int| 0 <= i < sessions.len() implies session_readable(
                #[trigger] sessions[i],
            ) by {
                if i < first.len() {
                    assert(session_readable(first[i]));
                    assert(first[i] == sessions[i]);
                }
            }
        }
        if sessions_readable(sessions) {
            assert forall|i: int| 0 <= i < first.len() implies session_readable(
                #[trigger] first[i],
            ) by {
                assert(first[i] == sessions[i]);
            }
            assert(session_readable(sessions[sessions.len() - 1]));
        }
    }
}

/// The first record that cannot be read is the reason why a database cannot be read.
pub proof fn law_first_unreadable_record_is_reported(tables: TablesView, k: int)
    requires
        tables.has_usage_table,
        0 <= k < tables.records.len(),
        all_readable(tables.records.take(k)),
        parsed_row(tables.records[k]) is Err,
    ensures
        source_rows(tables) is Err,
        source_rows(tables)->Err_0 == parsed_row(tables.records[k])->Err_0,
{
    lemma_all_readable(tables.records.take(k));
    lemma_unreadable(tables.records, k);
}

proof fn lemma_unreadable(records: Seq<RecordView>, k: int)
    requires
        0 <= k < records.len(),
        parsed_rows(records.take(k)) is Ok,
        parsed_row(records[k]) is Err,
    ensures
        parsed_rows(records) is Err,
        parsed_rows(records)->Err_0 == parsed_row(records[k])->Err_0,
    decreases records.len(),
{
    if k == records.len() - 1 {
        assert(records.take(k) =~= records.drop_last());
    } else {
        assert(records.drop_last().take(k) =~= records.take(k));
        assert(records.drop_last()[k] == records[k]);
        lemma_unreadable(records.drop_last(), k);
    }
}

} // verus!
