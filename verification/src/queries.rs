//! The statements that a store's maintenance and enumeration run, and what is
//! made of their results.
use crate::entity::{CompactionPolicy, EventSourced};
use std::num::TryFromIntError;
use vstd::prelude::*;
use vstd::string::*;

verus! {

/// Deletes the events of a type of aggregate that are at or before the
/// sequence number of their aggregate's snapshot.
pub const COMPACT_EVENTS: &'static str =
    "DELETE FROM events \
     WHERE aggregate_type = ?1 \
       AND sequence <= COALESCE( \
           (SELECT last_sequence FROM snapshots \
            WHERE snapshots.aggregate_type = events.aggregate_type \
              AND snapshots.aggregate_id = events.aggregate_id), \
           0 \
       )";

/// Rebuilds the database file.
pub const VACUUM: &'static str = "VACUUM";

/// All aggregate IDs of a type, with events or with a snapshot, in order.
pub const LOAD_ALL_IDS: &'static str =
    "SELECT aggregate_id FROM ( \
         SELECT aggregate_id FROM events WHERE aggregate_type = ?1 \
         UNION \
         SELECT aggregate_id FROM snapshots WHERE aggregate_type = ?1 \
     ) \
     ORDER BY aggregate_id ASC";

/// One page of the aggregate IDs of a type, newest first.
pub const LOAD_IDS_PAGINATED: &'static str =
    "SELECT aggregate_id FROM ( \
         SELECT aggregate_id, MAX(rowid) AS latest_rowid \
         FROM events \
         WHERE aggregate_type = ?1 \
         GROUP BY aggregate_id \
         UNION ALL \
         SELECT aggregate_id, MAX(rowid) AS latest_rowid \
         FROM snapshots \
         WHERE aggregate_type = ?1 \
         GROUP BY aggregate_id \
     ) \
     GROUP BY aggregate_id \
     ORDER BY MAX(latest_rowid) DESC \
     LIMIT ?2 OFFSET ?3";

/// The number of aggregates of a type, with events or with a snapshot.
pub const COUNT_AGGREGATES: &'static str =
    "SELECT COUNT(*) FROM ( \
         SELECT aggregate_id FROM events WHERE aggregate_type = ?1 \
         UNION \
         SELECT aggregate_id FROM snapshots WHERE aggregate_type = ?1 \
     )";

/// A value bound to a parameter of a statement.
#[derive(Debug, Clone, Copy)]
pub enum Bind {
    Text(&'static str),
    Integer(i64),
}

/// A statement to run, with the values of its parameters in order.
#[derive(Debug)]
pub struct Statement {
    pub sql: String,
    pub binds: Vec<Bind>,
}

/// What can go wrong when aggregate IDs are loaded or counted.
#[derive(Debug)]
pub enum LoadAllIdsError<Sql> {
    /// The database failed.
    Sql(Sql),
    /// Stored IDs that are not IDs of the aggregate's type.
    InvalidIds {
        /// The type of aggregate.
        aggregate_type: &'static str,
        /// Every stored ID that does not parse, in the order of the rows.
        ids: Vec<String>,
    },
    /// A number does not fit the type it is needed in.
    NumericConversion(TryFromIntError),
}

/// A row of an ID query: the stored text, and the ID it parses to.
#[derive(Debug)]
pub struct IdRow<Id> {
    pub text: String,
    pub id: Option<Id>,
}

/// How a compaction goes on.
#[derive(Debug)]
pub enum CompactionStep {
    /// There is nothing to run. So many events were deleted.
    Done(u64),
    /// The statement to run; it deletes the rows it affects.
    Run(Statement),
}

fn statement(sql: &str) -> (statement: Statement)
    ensures
        statement.sql@ == sql@,
        statement.binds@ == Seq::<Bind>::empty(),
{
    Statement { sql: sql.to_owned(), binds: Vec::new() }
}

/// Starts a compaction: a no-op for aggregates whose events are retained.
pub fn compact_events<Entity: EventSourced>() -> (step: CompactionStep)
    ensures
        step is Done <==> crate::snapshot::never_deletes::<Entity::Event>(
            Entity::COMPACTION_POLICY,
        ),
        Entity::COMPACTION_POLICY is Retain ==> step == CompactionStep::Done(0),
        Entity::COMPACTION_POLICY is CompactAfterSnapshot ==> {
            &&& step is Run
            &&& step->Run_0.sql@ == COMPACT_EVENTS@
            &&& step->Run_0.sql@ == "DELETE FROM events \
                 WHERE aggregate_type = ?1 \
                   AND sequence <= COALESCE( \
                       (SELECT last_sequence FROM snapshots \
                        WHERE snapshots.aggregate_type = events.aggregate_type \
                          AND snapshots.aggregate_id = events.aggregate_id), \
                       0 \
                   )"@
            &&& step->Run_0.binds@ == seq![Bind::Text(Entity::AGGREGATE_TYPE)]
        },
{
    proof {
        crate::snapshot::law_only_retained_events_are_never_deleted::<Entity::Event>(
            Entity::COMPACTION_POLICY,
        );
    }
    match Entity::COMPACTION_POLICY {
        CompactionPolicy::Retain => CompactionStep::Done(0),
        CompactionPolicy::CompactAfterSnapshot => {
            let mut run = statement(COMPACT_EVENTS);
            run.binds.push(Bind::Text(Entity::AGGREGATE_TYPE));
            CompactionStep::Run(run)
        },
    }
}

/// Reclaims all free space of the database file.
pub fn vacuum() -> (run: Statement)
    ensures
        run.sql@ == VACUUM@,
        run.sql@ == "VACUUM"@,
        run.binds@ == Seq::<Bind>::empty(),
{
    statement(VACUUM)
}

/// Asks for all aggregate IDs of a type.
pub fn load_all_ids<Entity: EventSourced>() -> (run: Statement)
    ensures
        run.sql@ == LOAD_ALL_IDS@,
        run.sql@ == "SELECT aggregate_id FROM ( \
                 SELECT aggregate_id FROM events WHERE aggregate_type = ?1 \
                 UNION \
                 SELECT aggregate_id FROM snapshots WHERE aggregate_type = ?1 \
             ) \
             ORDER BY aggregate_id ASC"@,
        run.binds@ == seq![Bind::Text(Entity::AGGREGATE_TYPE)],
{
    let mut run = statement(LOAD_ALL_IDS);
    run.binds.push(Bind::Text(Entity::AGGREGATE_TYPE));
    run
}

/// Asks for at most `limit` aggregate IDs of a type, from `offset` on. Fails
/// before anything is run where a bound is more than a statement can carry.
pub fn load_ids_paginated<Entity: EventSourced, Sql>(
    limit: usize,
    offset: usize,
) -> (run: Result<Statement, LoadAllIdsError<Sql>>)
    ensures
        limit <= i64::MAX && offset <= i64::MAX ==> {
            &&& run is Ok
            &&& run->Ok_0.sql@ == LOAD_IDS_PAGINATED@
            &&& run->Ok_0.sql@ == "SELECT aggregate_id FROM ( \
                     SELECT aggregate_id, MAX(rowid) AS latest_rowid \
                     FROM events \
                     WHERE aggregate_type = ?1 \
                     GROUP BY aggregate_id \
                     UNION ALL \
                     SELECT aggregate_id, MAX(rowid) AS latest_rowid \
                     FROM snapshots \
                     WHERE aggregate_type = ?1 \
                     GROUP BY aggregate_id \
                 ) \
                 GROUP BY aggregate_id \
                 ORDER BY MAX(latest_rowid) DESC \
                 LIMIT ?2 OFFSET ?3"@
            &&& run->Ok_0.binds@ == seq![
                Bind::Text(Entity::AGGREGATE_TYPE),
                Bind::Integer(limit as i64),
                Bind::Integer(offset as i64),
            ]
        },
        limit > i64::MAX || offset > i64::MAX ==> run is Err && run->Err_0 is NumericConversion,
{
    let limit = match i64::try_from(limit) {
        Ok(limit) => limit,
        Err(error) => {
            return Err(LoadAllIdsError::NumericConversion(error));
        },
    };
    let offset = match i64::try_from(offset) {
        Ok(offset) => offset,
        Err(error) => {
            return Err(LoadAllIdsError::NumericConversion(error));
        },
    };
    let mut run = statement(LOAD_IDS_PAGINATED);
    run.binds.push(Bind::Text(Entity::AGGREGATE_TYPE));
    run.binds.push(Bind::Integer(limit));
    run.binds.push(Bind::Integer(offset));
    Ok(run)
}

/// Asks for the number of aggregates of a type.
pub fn count_aggregates<Entity: EventSourced>() -> (run: Statement)
    ensures
        run.sql@ == COUNT_AGGREGATES@,
        run.sql@ == "SELECT COUNT(*) FROM ( \
                 SELECT aggregate_id FROM events WHERE aggregate_type = ?1 \
                 UNION \
                 SELECT aggregate_id FROM snapshots WHERE aggregate_type = ?1 \
             )"@,
        run.binds@ == seq![Bind::Text(Entity::AGGREGATE_TYPE)],
{
    let mut run = statement(COUNT_AGGREGATES);
    run.binds.push(Bind::Text(Entity::AGGREGATE_TYPE));
    run
}

/// Reads the count that came back.
pub fn counted<Sql>(row: Result<i64, Sql>) -> (count: Result<usize, LoadAllIdsError<Sql>>)
    ensures
        match row {
            Err(error) => count == Err::<usize, LoadAllIdsError<Sql>>(LoadAllIdsError::Sql(error)),
            Ok(number) => if 0 <= number <= usize::MAX {
                count is Ok && count->Ok_0 == number
            } else {
                count is Err && count->Err_0 is NumericConversion
            },
        },
{
    match row {
        Err(error) => Err(LoadAllIdsError::Sql(error)),
        Ok(number) => match usize::try_from(number) {
            Ok(count) => Ok(count),
            Err(error) => Err(LoadAllIdsError::NumericConversion(error)),
        },
    }
}

/// Whether every row of an ID query holds an ID.
pub open spec fn all_valid<Id>(rows: Seq<IdRow<Id>>) -> bool {
    forall|i: int| 0 <= i < rows.len() ==> (#[trigger] rows[i]).id is Some
}

/// The IDs that the rows of an ID query hold, in order.
pub open spec fn valid_ids<Id>(rows: Seq<IdRow<Id>>) -> Seq<Id>
    decreases rows.len(),
{
    if rows.len() == 0 {
        Seq::empty()
    } else {
        match rows.last().id {
            Some(id) => valid_ids(rows.drop_last()).push(id),
            None => valid_ids(rows.drop_last()),
        }
    }
}

/// The texts that do not parse to an ID, in order.
pub open spec fn invalid_ids<Id>(rows: Seq<IdRow<Id>>) -> Seq<String>
    decreases rows.len(),
{
    if rows.len() == 0 {
        Seq::empty()
    } else {
        match rows.last().id {
            Some(_) => invalid_ids(rows.drop_last()),
            None => invalid_ids(rows.drop_last()).push(rows.last().text),
        }
    }
}

/// Reads the IDs that came back. One text that does not parse spoils the whole
/// result, and is then reported together with all the others.
pub fn parsed_ids<Entity: EventSourced, Sql>(rows: Result<Vec<IdRow<Entity::Id>>, Sql>) -> (ids:
    Result<Vec<Entity::Id>, LoadAllIdsError<Sql>>)
    ensures
        match rows {
            Err(error) => ids == Err::<Vec<Entity::Id>, LoadAllIdsError<Sql>>(
                LoadAllIdsError::Sql(error),
            ),
            Ok(rows) => if all_valid(rows@) {
                ids is Ok && ids->Ok_0@ == valid_ids(rows@)
            } else {
                &&& ids is Err
                &&& ids->Err_0 is InvalidIds
                &&& ids->Err_0->aggregate_type == Entity::AGGREGATE_TYPE
                &&& ids->Err_0->ids@ == invalid_ids(rows@)
            },
        },
        rows matches Ok(rows) ==> {
            &&& ids is Ok <==> forall|i: int|
                0 <= i < rows@.len() ==> (#[trigger] rows@[i]).id is Some
            &&& ids matches Ok(ids) ==> ids@.len() == rows@.len() && forall|i: int|
                0 <= i < rows@.len() ==> (#[trigger] rows@[i]).id == Some(ids@[i])
            &&& ids is Err ==> ids->Err_0 is InvalidIds && ids->Err_0->ids@ == rows@.filter(
                |row: IdRow<Entity::Id>| row.id is None,
            ).map_values(|row: IdRow<Entity::Id>| row.text)
        },
{
    let rows = match rows {
        Ok(rows) => rows,
        Err(error) => {
            return Err(LoadAllIdsError::Sql(error));
        },
    };
    let ghost all = rows@;
    let mut valid: Vec<Entity::Id> = Vec::new();
    let mut invalid: Vec<String> = Vec::new();
    for row in iter: rows
        invariant
            iter.seq() == all,
            valid@ == valid_ids(all.take(iter.index() as int)),
            invalid@ == invalid_ids(all.take(iter.index() as int)),
    {
        proof {
            let more = all.take(iter.index() as int + 1);
            assert(more.drop_last() =~= all.take(iter.index() as int));
            assert(more.last() == row);
        }
        match row.id {
            Some(id) => {
                valid.push(id);
            },
            None => {
                invalid.push(row.text);
            },
        }
    }
    proof {
        assert(all.take(all.len() as int) =~= all);
        law_ids_are_reported_iff_they_do_not_parse(all);
        law_reported_texts_are_those_without_an_id(all);
    }
    if invalid.len() == 0 {
        Ok(valid)
    } else {
        Err(LoadAllIdsError::InvalidIds { aggregate_type: Entity::AGGREGATE_TYPE, ids: invalid })
    }
}

/// Every row is either given back as an ID or reported as invalid, and an ID
/// query succeeds exactly when nothing is reported. The IDs of a query that
/// succeeds are those of its rows, one for one.
pub proof fn law_ids_are_reported_iff_they_do_not_parse<Id>(rows: Seq<IdRow<Id>>)
    ensures
        valid_ids(rows).len() + invalid_ids(rows).len() == rows.len(),
        invalid_ids(rows).len() == 0 <==> all_valid(rows),
        all_valid(rows) ==> forall|i: int|
            0 <= i < rows.len() ==> (#[trigger] rows[i]).id == Some(valid_ids(rows)[i]),
    decreases rows.len(),
{
    if rows.len() > 0 {
        let earlier = rows.drop_last();
        law_ids_are_reported_iff_they_do_not_parse(earlier);
        if all_valid(rows) {
            assert forall|i: int|
                0 <= i < earlier.len() implies (#[trigger] earlier[i]).id is Some by {
                assert(rows[i].id is Some);
            }
        }
        if all_valid(earlier) && rows.last().id is Some {
            assert forall|i: int| 0 <= i < rows.len() implies (#[trigger] rows[i]).id is Some by {
                if i < earlier.len() {
                    assert(earlier[i].id is Some);
                }
            }
        }
        if all_valid(rows) {
            assert forall|i: int| 0 <= i < rows.len() implies (#[trigger] rows[i]).id == Some(
                valid_ids(rows)[i],
            ) by {
                if i < earlier.len() {
                    assert(earlier[i].id == Some(valid_ids(earlier)[i]));
                }
            }
        }
    }
}

/// The IDs that are given back are those of the rows that have one, and the texts
/// that are reported are those of the rows that have none, whatever the texts
/// are, both in the order of the rows.
pub proof fn law_reported_texts_are_those_without_an_id<Id>(rows: Seq<IdRow<Id>>)
    ensures
        invalid_ids(rows) == rows.filter(|row: IdRow<Id>| row.id is None).map_values(
            |row: IdRow<Id>| row.text,
        ),
        valid_ids(rows) == rows.filter(|row: IdRow<Id>| row.id is Some).map_values(
            |row: IdRow<Id>| row.id->Some_0,
        ),
        all_valid(rows) <==> forall|i: int|
            0 <= i < rows.len() ==> (#[trigger] rows[i]).id is Some,
    decreases rows.len(),
{
    reveal(Seq::filter);
    let without = rows.filter(|row: IdRow<Id>| row.id is None);
    let with = rows.filter(|row: IdRow<Id>| row.id is Some);
    if rows.len() > 0 {
        law_reported_texts_are_those_without_an_id(rows.drop_last());
    }
    assert(invalid_ids(rows) =~= without.map_values(|row: IdRow<Id>| row.text));
    assert(valid_ids(rows) =~= with.map_values(|row: IdRow<Id>| row.id->Some_0));
}

/// An ID query whose rows all have an ID, whatever their texts, gives exactly
/// those IDs, in order.
pub proof fn law_rows_with_ids_are_given_back<Entity: EventSourced, Sql>(
    rows: Vec<IdRow<Entity::Id>>,
    ids: Result<Vec<Entity::Id>, LoadAllIdsError<Sql>>,
)
    requires
        call_ensures(parsed_ids::<Entity, Sql>, (Ok(rows),), ids),
        forall|i: int| 0 <= i < rows@.len() ==> (#[trigger] rows@[i]).id is Some,
    ensures
        ids is Ok,
        ids->Ok_0@.len() == rows@.len(),
        forall|i: int| 0 <= i < rows@.len() ==> Some(ids->Ok_0@[i]) == (#[trigger] rows@[i]).id,
{
}

/// A row without an ID spoils the whole query. The texts of all such rows are
/// reported and no others, each as often as it occurs and in the order of the
/// rows: where `reported` lists the places of those rows in order, they are
/// the texts at these places.
pub proof fn law_rows_without_ids_are_reported<Entity: EventSourced, Sql>(
    rows: Vec<IdRow<Entity::Id>>,
    reported: Seq<int>,
    ids: Result<Vec<Entity::Id>, LoadAllIdsError<Sql>>,
)
    requires
        call_ensures(parsed_ids::<Entity, Sql>, (Ok(rows),), ids),
        reported.len() > 0,
        forall|i: int, j: int|
            0 <= i < j < reported.len() ==> #[trigger] reported[i] < #[trigger] reported[j],
        forall|at: int|
            reported.contains(at) <==> 0 <= at < rows@.len() && (#[trigger] rows@[at]).id is None,
    ensures
        ids is Err,
        ids->Err_0 is InvalidIds,
        ids->Err_0->aggregate_type == Entity::AGGREGATE_TYPE,
        ids->Err_0->ids@ == reported.map_values(|at: int| rows@[at].text),
{
    assert(reported.contains(reported[0]));
    lemma_places_of_reported_texts(rows@, reported);
    law_reported_texts_are_those_without_an_id(rows@);
}

proof fn lemma_places_of_reported_texts<Id>(rows: Seq<IdRow<Id>>, reported: Seq<int>)
    requires
        forall|i: int, j: int|
            0 <= i < j < reported.len() ==> #[trigger] reported[i] < #[trigger] reported[j],
        forall|at: int|
            reported.contains(at) <==> 0 <= at < rows.len() && (#[trigger] rows[at]).id is None,
    ensures
        invalid_ids(rows) == reported.map_values(|at: int| rows[at].text),
    decreases rows.len(),
{
    let texts = reported.map_values(|at: int| rows[at].text);
    if rows.len() == 0 {
        if reported.len() > 0 {
            assert(reported.contains(reported[0]));
            assert(rows[reported[0]].id is None);
        }
        assert(invalid_ids(rows) =~= texts);
    } else {
        let earlier = rows.drop_last();
        let last = rows.len() - 1;
        if rows.last().id is None {
            assert(rows[last].id is None);
            assert(reported.contains(last));
            let k = reported.index_of(last);
            if k < reported.len() - 1 {
                let beyond = reported[reported.len() - 1];
                assert(reported[k] < beyond);
                assert(reported.contains(beyond));
                assert(rows[beyond].id is None);
                assert(false);
            }
            let fewer = reported.drop_last();
            assert forall|at: int|
                fewer.contains(at) <==> 0 <= at < earlier.len() && (#[trigger] earlier[at]).id
                is None by {
                if fewer.contains(at) {
                    let i = fewer.index_of(at);
                    assert(reported[i] == at);
                    assert(reported.contains(at));
                    assert(rows[at].id is None);
                    assert(reported[i] < reported[k]);
                }
                if 0 <= at < earlier.len() && earlier[at].id is None {
                    assert(rows[at].id is None);
                    assert(reported.contains(at));
                    let i = reported.index_of(at);
                    assert(fewer[i] == at);
                }
            }
            lemma_places_of_reported_texts(earlier, fewer);
            assert forall|i: int| 0 <= i < fewer.len() implies rows[#[trigger] fewer[i]].text
                == earlier[fewer[i]].text by {
                assert(fewer.contains(fewer[i]));
                assert(earlier[fewer[i]].id is None);
            }
            assert(invalid_ids(rows) =~= texts);
        } else {
            assert forall|at: int|
                reported.contains(at) <==> 0 <= at < earlier.len() && (#[trigger] earlier[at]).id
                is None by {
                assert(rows[at] == rows[at]);
                if 0 <= at < earlier.len() {
                    assert(earlier[at] == rows[at]);
                }
            }
            lemma_places_of_reported_texts(earlier, reported);
            assert forall|i: int| 0 <= i < reported.len() implies rows[#[trigger] reported[i]].text
                == earlier[reported[i]].text by {
                assert(reported.contains(reported[i]));
                assert(earlier[reported[i]].id is None);
            }
            assert(invalid_ids(rows) =~= texts);
        }
    }
}

/// A failure of the database is handed on, and is the only one that is.
pub proof fn law_database_failure_is_handed_on<Entity: EventSourced, Sql>(
    rows: Result<Vec<IdRow<Entity::Id>>, Sql>,
    ids: Result<Vec<Entity::Id>, LoadAllIdsError<Sql>>,
)
    requires
        call_ensures(parsed_ids::<Entity, Sql>, (rows,), ids),
    ensures
        rows matches Err(error) ==> ids == Err::<Vec<Entity::Id>, LoadAllIdsError<Sql>>(
            LoadAllIdsError::Sql(error),
        ),
        rows is Ok ==> !(ids matches Err(LoadAllIdsError::Sql(_))),
{
}

/// The rows that a page of at most `limit` rows from `offset` on has, out of all
/// the rows of the listing in order.
pub open spec fn page<Id>(rows: Seq<IdRow<Id>>, limit: nat, offset: nat) -> Seq<IdRow<Id>> {
    let start = if offset <= rows.len() {
        offset as int
    } else {
        rows.len() as int
    };
    let end = if offset + limit <= rows.len() {
        offset + limit as int
    } else {
        rows.len() as int
    };
    rows.subrange(start, end)
}

/// A page has the rows from its offset on, in their order, as many as it may have
/// or as there are.
pub proof fn law_page_starts_at_its_offset<Id>(
    rows: Seq<IdRow<Id>>,
    limit: nat,
    offset: nat,
    at: int,
)
    ensures
        offset + limit <= rows.len() ==> page(rows, limit, offset).len() == limit,
        offset <= rows.len() < offset + limit ==> page(rows, limit, offset).len() == rows.len()
            - offset,
        rows.len() < offset ==> page(rows, limit, offset).len() == 0,
        0 <= at < page(rows, limit, offset).len() ==> page(rows, limit, offset)[at] == rows[offset
            + at],
{
}

/// What is read from rows joined is what is read from their parts, joined.
pub proof fn law_ids_of_joined_rows<Id>(left: Seq<IdRow<Id>>, right: Seq<IdRow<Id>>)
    ensures
        valid_ids(left + right) == valid_ids(left) + valid_ids(right),
        invalid_ids(left + right) == invalid_ids(left) + invalid_ids(right),
        all_valid(left + right) <==> all_valid(left) && all_valid(right),
    decreases right.len(),
{
    let joined = left + right;
    if right.len() == 0 {
        assert(joined =~= left);
        assert(valid_ids(joined) =~= valid_ids(left) + valid_ids(right));
        assert(invalid_ids(joined) =~= invalid_ids(left) + invalid_ids(right));
    } else {
        let earlier = right.drop_last();
        law_ids_of_joined_rows(left, earlier);
        assert(joined.drop_last() =~= left + earlier);
        assert(joined.last() == right.last());
        assert(valid_ids(joined) =~= valid_ids(left) + valid_ids(right));
        assert(invalid_ids(joined) =~= invalid_ids(left) + invalid_ids(right));
    }
    law_ids_are_reported_iff_they_do_not_parse(left);
    law_ids_are_reported_iff_they_do_not_parse(right);
    law_ids_are_reported_iff_they_do_not_parse(joined);
}

/// Adjacent pages neither overlap nor leave a gap: two of them read well exactly
/// when the page over both does, and it has the IDs of the one, followed by
/// those of the other.
pub proof fn law_adjacent_pages_join<Id>(
    rows: Seq<IdRow<Id>>,
    first: nat,
    second: nat,
    offset: nat,
)
    ensures
        all_valid(page(rows, first, offset)) && all_valid(page(rows, second, offset + first))
            <==> all_valid(page(rows, first + second, offset)),
        valid_ids(page(rows, first + second, offset)) == valid_ids(page(rows, first, offset))
            + valid_ids(page(rows, second, offset + first)),
        invalid_ids(page(rows, first + second, offset)) == invalid_ids(page(rows, first, offset))
            + invalid_ids(page(rows, second, offset + first)),
{
    let (left, right) = (page(rows, first, offset), page(rows, second, offset + first));
    assert(page(rows, first + second, offset) =~= left + right);
    law_ids_of_joined_rows(left, right);
}

/// One page from the start on that is large enough has all the rows.
pub proof fn law_full_page_has_all_rows<Id>(rows: Seq<IdRow<Id>>, limit: nat)
    requires
        rows.len() <= limit,
    ensures
        page(rows, limit, 0) == rows,
{
    assert(page(rows, limit, 0) =~= rows);
}

/// Listings of the same rows in different orders read well together, and give
/// the same IDs, and report the same invalid ones, but for the order.
pub proof fn law_order_of_rows_does_not_matter<Id>(left: Seq<IdRow<Id>>, right: Seq<IdRow<Id>>)
    requires
        left.to_multiset() == right.to_multiset(),
    ensures
        all_valid(left) <==> all_valid(right),
        valid_ids(left).to_multiset() == valid_ids(right).to_multiset(),
        invalid_ids(left).to_multiset() == invalid_ids(right).to_multiset(),
    decreases left.len(),
{
    broadcast use vstd::seq_lib::group_to_multiset_ensures;

    law_ids_are_reported_iff_they_do_not_parse(left);
    law_ids_are_reported_iff_they_do_not_parse(right);
    if left.len() == 0 {
        vstd::seq_lib::to_multiset_len(left);
        vstd::seq_lib::to_multiset_len(right);
    } else {
        let row = left.last();
        assert(left.to_multiset().count(row) > 0) by {
            assert(left.contains(row));
        }
        assert(right.contains(row));
        let at = right.index_of(row);
        let (before, behind) = (right.take(at), right.skip(at + 1));
        let rest = before + behind;
        assert(right.remove(at) =~= rest);
        assert(left.remove(left.len() - 1) =~= left.drop_last());
        assert(left.drop_last().to_multiset() =~= rest.to_multiset());
        law_order_of_rows_does_not_matter(left.drop_last(), rest);
        assert(right =~= before + (seq![row] + behind));
        law_ids_of_joined_rows(before, seq![row] + behind);
        law_ids_of_joined_rows(seq![row], behind);
        law_ids_of_joined_rows(before, behind);
        assert(seq![row].drop_last() =~= Seq::<IdRow<Id>>::empty());
        reveal_with_fuel(valid_ids, 2);
        reveal_with_fuel(invalid_ids, 2);
        vstd::seq_lib::lemma_multiset_commutative(valid_ids(before), valid_ids(behind));
        vstd::seq_lib::lemma_multiset_commutative(invalid_ids(before), invalid_ids(behind));
        lemma_moved_to_the_end(valid_ids(before), valid_ids(seq![row]), valid_ids(behind));
        lemma_moved_to_the_end(invalid_ids(before), invalid_ids(seq![row]), invalid_ids(behind));
        assert(left =~= left.drop_last() + seq![row]);
        law_ids_of_joined_rows(left.drop_last(), seq![row]);
        vstd::seq_lib::lemma_multiset_commutative(
            valid_ids(left.drop_last()),
            valid_ids(seq![row]),
        );
        vstd::seq_lib::lemma_multiset_commutative(
            invalid_ids(left.drop_last()),
            invalid_ids(seq![row]),
        );
        law_ids_are_reported_iff_they_do_not_parse(rest);
        law_ids_are_reported_iff_they_do_not_parse(left.drop_last());
        law_ids_are_reported_iff_they_do_not_parse(seq![row]);
    }
}

proof fn lemma_moved_to_the_end<T>(before: Seq<T>, moved: Seq<T>, behind: Seq<T>)
    ensures
        (before + (moved + behind)).to_multiset() == (before + behind).to_multiset().add(
            moved.to_multiset(),
        ),
{
    vstd::seq_lib::lemma_multiset_commutative(before, moved + behind);
    vstd::seq_lib::lemma_multiset_commutative(moved, behind);
    vstd::seq_lib::lemma_multiset_commutative(before, behind);
    assert((before + (moved + behind)).to_multiset() =~= (before + behind).to_multiset().add(
        moved.to_multiset(),
    ));
}

/// A count of the rows of a listing reads well whether or not the rows do, and
/// is the number of IDs that the listing gives where it gives any.
pub proof fn law_count_agrees_with_the_listing<Id>(rows: Seq<IdRow<Id>>, number: i64)
    requires
        number == rows.len(),
        rows.len() <= usize::MAX,
    ensures
        0 <= number <= usize::MAX,
        all_valid(rows) ==> number == valid_ids(rows).len(),
        number == valid_ids(rows).len() + invalid_ids(rows).len(),
{
    law_ids_are_reported_iff_they_do_not_parse(rows);
}

/// The decimal digits of a number, without leading zeros.
pub open spec fn decimal_text(number: nat) -> Seq<char>
    decreases number,
{
    if number < 10 {
        seq![digit(number)]
    } else {
        decimal_text(number / 10).push(digit(number % 10))
    }
}

/// The character of a decimal digit.
pub open spec fn digit(value: nat) -> char {
    if value == 0 {
        '0'
    } else if value == 1 {
        '1'
    } else if value == 2 {
        '2'
    } else if value == 3 {
        '3'
    } else if value == 4 {
        '4'
    } else if value == 5 {
        '5'
    } else if value == 6 {
        '6'
    } else if value == 7 {
        '7'
    } else if value == 8 {
        '8'
    } else {
        '9'
    }
}

fn digit_text(value: u32) -> (text: &'static str)
    requires
        value < 10,
    ensures
        text@ == seq![digit(value as nat)],
{
    proof {
        reveal_strlit("0");
        reveal_strlit("1");
        reveal_strlit("2");
        reveal_strlit("3");
        reveal_strlit("4");
        reveal_strlit("5");
        reveal_strlit("6");
        reveal_strlit("7");
        reveal_strlit("8");
        reveal_strlit("9");
    }
    let text = match value {
        0 => "0",
        1 => "1",
        2 => "2",
        3 => "3",
        4 => "4",
        5 => "5",
        6 => "6",
        7 => "7",
        8 => "8",
        _ => "9",
    };
    assert(text@ =~= seq![digit(value as nat)]);
    text
}

fn write_decimal(text: &mut String, number: u32)
    ensures
        final(text)@ == old(text)@ + decimal_text(number as nat),
    decreases number,
{
    if number >= 10 {
        write_decimal(text, number / 10);
    }
    text.append(digit_text(number % 10));
    assert(text@ =~= old(text)@ + decimal_text(number as nat));
}

/// Reclaims at most `pages` free pages of the database file.
///
/// For no pages there is nothing to run: to SQLite, an incremental vacuum of 0
/// pages is one without a bound.
pub fn incremental_vacuum(pages: u32) -> (run: Option<Statement>)
    ensures
        pages == 0 <==> run is None,
        run matches Some(statement) ==> {
            &&& statement.sql@ == "PRAGMA incremental_vacuum("@ + decimal_text(pages as nat) + ")"@
            &&& statement.binds@ == Seq::<Bind>::empty()
        },
{
    if pages == 0 {
        return None;
    }
    let mut run = statement("PRAGMA incremental_vacuum(");
    write_decimal(&mut run.sql, pages);
    run.sql.append(")");
    Some(run)
}

/// The text of a number reads back as that number.
pub proof fn law_decimal_text_reads_back(number: nat)
    ensures
        decimal_text(number).len() > 0,
        crate::busy::digits_value(decimal_text(number)) == number,
        forall|i: int|
            0 <= i < decimal_text(number).len() ==> crate::busy::is_digit(
                #[trigger] decimal_text(number)[i],
            ),
        forall|i: int|
            0 <= i < decimal_text(number).len() ==> '0' <= #[trigger] decimal_text(number)[i]
                <= '9',
        number > 0 ==> decimal_text(number)[0] != '0',
    decreases number,
{
    reveal_with_fuel(crate::busy::digits_value, 2);
    if number >= 10 {
        law_decimal_text_reads_back(number / 10);
        assert(decimal_text(number).drop_last() =~= decimal_text(number / 10));
    } else {
        assert(decimal_text(number).drop_last() =~= Seq::empty());
    }
}

} // verus!
