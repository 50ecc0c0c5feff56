//! The statements, run against a real database in memory.
use event_sorcery::{
    compact_events, count_aggregates, counted, incremental_vacuum, load_all_ids,
    load_ids_paginated, parsed_ids, vacuum, Bind, CompactionPolicy, CompactionStep, EventSourced,
    IdRow, LoadAllIdsError, Statement,
};
use sqlx::{Connection, SqliteConnection};

#[derive(Debug, Clone, PartialEq, Eq)]
struct NumericId(u64);

#[derive(Debug, Clone)]
struct Widget;

impl EventSourced for Widget {
    type Id = NumericId;
    type Event = ();
    type Command = ();
    type Error = ();
    type Services = ();
    type Materialized = ();

    const AGGREGATE_TYPE: &'static str = "Widget";
    const PROJECTION: () = ();
    const SCHEMA_VERSION: u64 = 1;
    const COMPACTION_POLICY: CompactionPolicy = CompactionPolicy::CompactAfterSnapshot;

    fn originate(_event: &()) -> Option<Self> {
        Some(Self)
    }

    fn evolve(entity: &Self, _event: &()) -> Result<Option<Self>, ()> {
        Ok(Some(entity.clone()))
    }
}

#[derive(Debug, Clone)]
struct RetainedWidget;

impl EventSourced for RetainedWidget {
    type Id = NumericId;
    type Event = ();
    type Command = ();
    type Error = ();
    type Services = ();
    type Materialized = ();

    const AGGREGATE_TYPE: &'static str = "RetainedWidget";
    const PROJECTION: () = ();
    const SCHEMA_VERSION: u64 = 1;

    fn originate(_event: &()) -> Option<Self> {
        Some(Self)
    }

    fn evolve(entity: &Self, _event: &()) -> Result<Option<Self>, ()> {
        Ok(Some(entity.clone()))
    }
}

fn block_on<F: std::future::Future>(future: F) -> F::Output {
    tokio::runtime::Builder::new_current_thread()
        .enable_time()
        .build()
        .unwrap()
        .block_on(future)
}

async fn execute(connection: &mut SqliteConnection, sql: &'static str) {
    sqlx::query(sql).execute(connection).await.unwrap();
}

async fn database() -> SqliteConnection {
    let mut connection = SqliteConnection::connect("sqlite::memory:").await.unwrap();
    execute(
        &mut connection,
        "CREATE TABLE events ( \
             aggregate_type TEXT NOT NULL, aggregate_id TEXT NOT NULL, \
             sequence BIGINT NOT NULL, event_type TEXT NOT NULL, \
             event_version TEXT NOT NULL, payload JSON NOT NULL, metadata JSON NOT NULL, \
             PRIMARY KEY (aggregate_type, aggregate_id, sequence))",
    )
    .await;
    execute(
        &mut connection,
        "CREATE TABLE snapshots ( \
             aggregate_type TEXT NOT NULL, aggregate_id TEXT NOT NULL, \
             last_sequence BIGINT NOT NULL, snapshot_version BIGINT NOT NULL DEFAULT 0, \
             payload JSON NOT NULL, timestamp TEXT NOT NULL, \
             PRIMARY KEY (aggregate_type, aggregate_id))",
    )
    .await;
    connection
}

async fn insert_event(
    connection: &mut SqliteConnection,
    aggregate_type: &str,
    aggregate_id: &str,
    sequence: i64,
) {
    sqlx::query("INSERT INTO events VALUES (?1, ?2, ?3, 'Created', '1.0', '{}', '{}')")
        .bind(aggregate_type)
        .bind(aggregate_id)
        .bind(sequence)
        .execute(connection)
        .await
        .unwrap();
}

async fn insert_snapshot(
    connection: &mut SqliteConnection,
    aggregate_type: &str,
    aggregate_id: &str,
    last_sequence: i64,
) {
    sqlx::query("INSERT INTO snapshots VALUES (?1, ?2, ?3, 1, '{}', '')")
        .bind(aggregate_type)
        .bind(aggregate_id)
        .bind(last_sequence)
        .execute(connection)
        .await
        .unwrap();
}

async fn run(connection: &mut SqliteConnection, statement: Statement) -> u64 {
    let mut query = sqlx::query(sqlx::AssertSqlSafe(statement.sql));
    for bind in statement.binds {
        query = match bind {
            Bind::Text(text) => query.bind(text),
            Bind::Integer(number) => query.bind(number),
        };
    }
    query.execute(connection).await.unwrap().rows_affected()
}

async fn fetch_ids(
    connection: &mut SqliteConnection,
    statement: Statement,
) -> Result<Vec<IdRow<NumericId>>, sqlx::Error> {
    let mut query = sqlx::query_as(sqlx::AssertSqlSafe(statement.sql));
    for bind in statement.binds {
        query = match bind {
            Bind::Text(text) => query.bind(text),
            Bind::Integer(number) => query.bind(number),
        };
    }
    let rows: Vec<(String,)> = query.fetch_all(connection).await?;
    Ok(rows
        .into_iter()
        .map(|(text,)| {
            let id = text.parse().ok().map(NumericId);
            IdRow { text, id }
        })
        .collect())
}

async fn all_ids(
    connection: &mut SqliteConnection,
) -> Result<Vec<NumericId>, LoadAllIdsError<sqlx::Error>> {
    let rows = fetch_ids(connection, load_all_ids::<Widget>()).await;
    parsed_ids::<Widget, _>(rows)
}

async fn page(
    connection: &mut SqliteConnection,
    limit: usize,
    offset: usize,
) -> Vec<NumericId> {
    let statement = load_ids_paginated::<Widget, sqlx::Error>(limit, offset).unwrap();
    let rows = fetch_ids(connection, statement).await;
    parsed_ids::<Widget, _>(rows).unwrap()
}

async fn count(connection: &mut SqliteConnection) -> usize {
    let statement = count_aggregates::<Widget>();
    let mut query = sqlx::query_as(sqlx::AssertSqlSafe(statement.sql));
    for bind in statement.binds {
        query = match bind {
            Bind::Text(text) => query.bind(text),
            Bind::Integer(number) => query.bind(number),
        };
    }
    let row: Result<(i64,), sqlx::Error> = query.fetch_one(connection).await;
    counted(row.map(|row| row.0)).unwrap()
}

async fn compact<Entity: EventSourced>(connection: &mut SqliteConnection) -> u64 {
    match compact_events::<Entity>() {
        CompactionStep::Done(deleted) => deleted,
        CompactionStep::Run(statement) => run(connection, statement).await,
    }
}

async fn event_count(connection: &mut SqliteConnection) -> i64 {
    let row: (i64,) = sqlx::query_as("SELECT COUNT(*) FROM events")
        .fetch_one(connection)
        .await
        .unwrap();
    row.0
}

#[test]
fn load_all_ids_returns_parsed_ids() {
    block_on(async {
        let mut connection = database().await;
        insert_event(&mut connection, "Widget", "10", 1).await;
        insert_event(&mut connection, "Widget", "20", 1).await;
        assert_eq!(
            all_ids(&mut connection).await.unwrap(),
            vec![NumericId(10), NumericId(20)]
        );
    });
}

#[test]
fn load_all_ids_includes_snapshot_only_aggregates() {
    block_on(async {
        let mut connection = database().await;
        insert_event(&mut connection, "Widget", "30", 1).await;
        insert_snapshot(&mut connection, "Widget", "30", 1).await;
        assert_eq!(compact::<Widget>(&mut connection).await, 1);
        assert_eq!(all_ids(&mut connection).await.unwrap(), vec![NumericId(30)]);
    });
}

#[test]
fn load_all_ids_returns_empty_when_no_events() {
    block_on(async {
        let mut connection = database().await;
        assert!(all_ids(&mut connection).await.unwrap().is_empty());
    });
}

#[test]
fn load_all_ids_errors_on_unparseable_id() {
    block_on(async {
        let mut connection = database().await;
        insert_event(&mut connection, "Widget", "42", 1).await;
        insert_event(&mut connection, "Widget", "not-a-number", 1).await;
        match all_ids(&mut connection).await.unwrap_err() {
            LoadAllIdsError::InvalidIds {
                aggregate_type,
                ids,
            } => {
                assert_eq!(aggregate_type, "Widget");
                assert_eq!(ids, vec!["not-a-number"]);
            }
            error => panic!("expected InvalidIds, got {error:?}"),
        }
    });
}

#[test]
fn load_all_ids_ignores_other_aggregate_types() {
    block_on(async {
        let mut connection = database().await;
        insert_event(&mut connection, "Widget", "1", 1).await;
        insert_event(&mut connection, "OtherAggregate", "should-be-excluded", 1).await;
        assert_eq!(all_ids(&mut connection).await.unwrap(), vec![NumericId(1)]);
    });
}

#[test]
fn count_aggregates_includes_snapshot_only_aggregates() {
    block_on(async {
        let mut connection = database().await;
        insert_event(&mut connection, "Widget", "30", 1).await;
        insert_snapshot(&mut connection, "Widget", "30", 1).await;
        compact::<Widget>(&mut connection).await;
        assert_eq!(count(&mut connection).await, 1);
        insert_event(&mut connection, "Widget", "30", 2).await;
        insert_event(&mut connection, "Widget", "31", 1).await;
        assert_eq!(count(&mut connection).await, 2);
    });
}

#[test]
fn retain_policy_does_not_compact_events() {
    block_on(async {
        let mut connection = database().await;
        insert_event(&mut connection, "RetainedWidget", "7", 1).await;
        insert_snapshot(&mut connection, "RetainedWidget", "7", 1).await;
        assert_eq!(compact::<RetainedWidget>(&mut connection).await, 0);
        assert_eq!(event_count(&mut connection).await, 1);
    });
}

#[test]
fn compaction_deletes_up_to_the_snapshot_of_each_aggregate() {
    block_on(async {
        let mut connection = database().await;
        for sequence in 1..=4 {
            insert_event(&mut connection, "Widget", "1", sequence).await;
            insert_event(&mut connection, "Widget", "2", sequence).await;
            insert_event(&mut connection, "Other", "1", sequence).await;
        }
        insert_snapshot(&mut connection, "Widget", "1", 3).await;
        insert_snapshot(&mut connection, "Other", "1", 3).await;
        assert_eq!(compact::<Widget>(&mut connection).await, 3);
        let left: Vec<(String, String, i64)> = sqlx::query_as(
            "SELECT aggregate_type, aggregate_id, sequence FROM events \
             WHERE aggregate_type = 'Widget' AND aggregate_id = '1'",
        )
        .fetch_all(&mut connection)
        .await
        .unwrap();
        assert_eq!(left, vec![("Widget".to_string(), "1".to_string(), 4)]);
        assert_eq!(event_count(&mut connection).await, 9);
    });
}

#[test]
fn pages_run_from_the_newest_aggregate_on() {
    block_on(async {
        let mut connection = database().await;
        for id in ["1", "2", "3"] {
            insert_event(&mut connection, "Widget", id, 1).await;
        }
        insert_event(&mut connection, "Widget", "1", 2).await;
        assert_eq!(
            page(&mut connection, 2, 0).await,
            vec![NumericId(1), NumericId(3)]
        );
        assert_eq!(page(&mut connection, 2, 2).await, vec![NumericId(2)]);
        assert!(page(&mut connection, 0, 0).await.is_empty());
        assert!(page(&mut connection, 2, 3).await.is_empty());
    });
}

#[test]
fn maintenance_statements_run() {
    block_on(async {
        let mut connection = database().await;
        run(&mut connection, vacuum()).await;
        run(&mut connection, incremental_vacuum(100).unwrap()).await;
    });
}

#[test]
fn incremental_vacuum_spells_out_its_pages() {
    assert!(incremental_vacuum(0).is_none());
    for pages in [1, 7, 10, 99, 100, 1_234_567_890, u32::MAX] {
        let statement = incremental_vacuum(pages).unwrap();
        assert_eq!(statement.sql, format!("PRAGMA incremental_vacuum({pages})"));
        assert!(statement.binds.is_empty());
    }
    assert_eq!(vacuum().sql, "VACUUM");
}

#[test]
fn adjacent_pages_join_to_one() {
    block_on(async {
        let mut connection = database().await;
        for id in ["1", "2", "3", "4", "5"] {
            insert_event(&mut connection, "Widget", id, 1).await;
        }
        insert_snapshot(&mut connection, "Widget", "6", 1).await;
        let mut joined = page(&mut connection, 2, 1).await;
        joined.extend(page(&mut connection, 3, 3).await);
        assert_eq!(joined, page(&mut connection, 5, 1).await);
    });
}

#[test]
fn full_page_has_the_ids_of_the_whole_listing() {
    block_on(async {
        let mut connection = database().await;
        for id in ["3", "1", "2"] {
            insert_event(&mut connection, "Widget", id, 1).await;
        }
        insert_snapshot(&mut connection, "Widget", "9", 1).await;
        let all = all_ids(&mut connection).await.unwrap();
        let mut full = page(&mut connection, 10, 0).await;
        assert_ne!(full, all);
        full.sort_by_key(|id| id.0);
        assert_eq!(full, all);
        assert_eq!(count(&mut connection).await, all.len());
    });
}

#[test]
fn unparseable_ids_are_counted() {
    block_on(async {
        let mut connection = database().await;
        insert_event(&mut connection, "Widget", "1", 1).await;
        insert_event(&mut connection, "Widget", "not-a-number", 1).await;
        assert!(all_ids(&mut connection).await.is_err());
        assert_eq!(count(&mut connection).await, 2);
    });
}

#[test]
fn page_bounds_that_do_not_fit_fail_before_anything_runs() {
    for (limit, offset) in [(usize::MAX, 0), (0, usize::MAX)] {
        assert!(matches!(
            load_ids_paginated::<Widget, ()>(limit, offset),
            Err(LoadAllIdsError::NumericConversion(_))
        ));
    }
    let most = usize::try_from(i64::MAX).unwrap();
    let statement = load_ids_paginated::<Widget, ()>(most, 3).unwrap();
    assert!(matches!(
        statement.binds[..],
        [
            Bind::Text("Widget"),
            Bind::Integer(i64::MAX),
            Bind::Integer(3)
        ]
    ));
}

#[test]
fn count_that_does_not_fit_is_an_error() {
    assert!(matches!(counted::<()>(Ok(7)), Ok(7)));
    assert!(matches!(
        counted::<()>(Ok(-1)),
        Err(LoadAllIdsError::NumericConversion(_))
    ));
    assert!(matches!(
        counted(Err("down")),
        Err(LoadAllIdsError::Sql("down"))
    ));
}

#[test]
fn every_invalid_id_is_reported_in_order() {
    let row = |text: &str| IdRow {
        text: text.to_string(),
        id: text.parse().ok().map(NumericId),
    };
    let rows: Vec<IdRow<NumericId>> = ["x", "1", "y", "2"].into_iter().map(row).collect();
    match parsed_ids::<Widget, ()>(Ok(rows)) {
        Err(LoadAllIdsError::InvalidIds { ids, .. }) => assert_eq!(ids, vec!["x", "y"]),
        _ => panic!("two IDs do not parse"),
    }
    assert!(matches!(
        parsed_ids::<Widget, &str>(Err("down")),
        Err(LoadAllIdsError::Sql("down"))
    ));
}
