//! Classification of error chains, on the errors that the driver and the
//! persistence layer really raise.
use event_sorcery::{
    is_busy_extended_code, is_retryable_sqlite_busy, ErrorKind, ErrorNode, PersistenceError,
};
use sqlx::sqlite::SqliteConnectOptions;
use sqlx::{Connection, SqliteConnection};
use std::borrow::Cow;
use std::error::Error;
use std::fmt;
use std::time::Duration;

#[derive(Debug)]
struct TestDatabaseError {
    code: Option<&'static str>,
}

impl fmt::Display for TestDatabaseError {
    fn fmt(&self, formatter: &mut fmt::Formatter<'_>) -> fmt::Result {
        formatter.write_str("test database error")
    }
}

impl Error for TestDatabaseError {}

impl sqlx::error::DatabaseError for TestDatabaseError {
    fn message(&self) -> &str {
        "test database error"
    }

    fn code(&self) -> Option<Cow<'_, str>> {
        self.code.map(Cow::Borrowed)
    }

    fn as_error(&self) -> &(dyn Error + Send + Sync + 'static) {
        self
    }

    fn as_error_mut(&mut self) -> &mut (dyn Error + Send + Sync + 'static) {
        self
    }

    fn into_error(self: Box<Self>) -> Box<dyn Error + Send + Sync + 'static> {
        self
    }

    fn kind(&self) -> sqlx::error::ErrorKind {
        sqlx::error::ErrorKind::Other
    }
}

fn sqlx_error_with_code(code: &'static str) -> sqlx::Error {
    sqlx::Error::Database(Box::new(TestDatabaseError { code: Some(code) }))
}

/// An error of this file that wraps another and names it as its source.
#[derive(Debug)]
struct Wrapper<E: Error + 'static>(E);

impl<E: Error + 'static> fmt::Display for Wrapper<E> {
    fn fmt(&self, formatter: &mut fmt::Formatter<'_>) -> fmt::Result {
        write_text(formatter, "wrapped")
    }
}

impl<E: Error + 'static> Error for Wrapper<E> {
    fn source(&self) -> Option<&(dyn Error + 'static)> {
        Some(&self.0)
    }
}

/// An error that passes itself off as the one it wraps, source and all.
#[derive(Debug)]
struct Transparent<E: Error + 'static>(E);

impl<E: Error + 'static> fmt::Display for Transparent<E> {
    fn fmt(&self, formatter: &mut fmt::Formatter<'_>) -> fmt::Result {
        fmt::Display::fmt(&self.0, formatter)
    }
}

impl<E: Error + 'static> Error for Transparent<E> {
    fn source(&self) -> Option<&(dyn Error + 'static)> {
        self.0.source()
    }
}

/// An error that seals another one in without naming it as its source.
#[derive(Debug)]
struct AggregateShapedError(#[allow(dead_code)] Box<dyn Error + Send + Sync + 'static>);

impl fmt::Display for AggregateShapedError {
    fn fmt(&self, formatter: &mut fmt::Formatter<'_>) -> fmt::Result {
        write_text(formatter, "aggregate-shaped")
    }
}

impl Error for AggregateShapedError {}

fn write_text(formatter: &mut fmt::Formatter<'_>, text: &str) -> fmt::Result {
    formatter.write_str(text)
}

fn code_of(error: &dyn sqlx::error::DatabaseError) -> Option<String> {
    error.code().map(Cow::into_owned)
}

fn kind_of(error: &(dyn Error + 'static)) -> ErrorKind {
    if let Some(sqlx::Error::Database(database_error)) = error.downcast_ref::<sqlx::Error>() {
        return ErrorKind::SqlxDatabase(code_of(database_error.as_ref()));
    }
    if let Some(database_error) = error.downcast_ref::<Box<dyn sqlx::error::DatabaseError>>() {
        return ErrorKind::BoxedDatabase(code_of(database_error.as_ref()));
    }
    match error.downcast_ref::<cqrs_es::persist::PersistenceError>() {
        None => ErrorKind::Opaque,
        Some(persistence_error) => ErrorKind::Persistence(match persistence_error {
            cqrs_es::persist::PersistenceError::OptimisticLockError => {
                PersistenceError::OptimisticLockError
            }
            cqrs_es::persist::PersistenceError::ConnectionError(inner) => {
                PersistenceError::ConnectionError(Box::new(node(inner.as_ref())))
            }
            cqrs_es::persist::PersistenceError::DeserializationError(inner) => {
                PersistenceError::DeserializationError(Box::new(node(inner.as_ref())))
            }
            cqrs_es::persist::PersistenceError::UnknownError(inner) => {
                PersistenceError::UnknownError(Box::new(node(inner.as_ref())))
            }
        }),
    }
}

fn node(error: &(dyn Error + 'static)) -> ErrorNode {
    ErrorNode {
        kind: kind_of(error),
        source: error.source().map(|source| Box::new(node(source))),
    }
}

fn classify(error: &(dyn Error + 'static)) -> bool {
    is_retryable_sqlite_busy(&node(error))
}

#[test]
fn is_retryable_sqlite_busy_true_for_busy_code() {
    let error = sqlx_error_with_code("5");
    assert!(classify(&error));
}

#[test]
fn is_retryable_sqlite_busy_true_for_busy_snapshot_code() {
    let error = sqlx_error_with_code("517");
    assert!(classify(&error));
}

#[test]
fn is_retryable_sqlite_busy_true_for_busy_recovery_code() {
    let error = sqlx_error_with_code("261");
    assert!(classify(&error));
}

#[test]
fn is_retryable_sqlite_busy_true_for_busy_timeout_code() {
    let error = sqlx_error_with_code("773");
    assert!(classify(&error));
}

#[test]
fn is_retryable_sqlite_busy_false_for_other_code() {
    let error = sqlx_error_with_code("19");
    assert!(!classify(&error));
}

#[test]
fn is_retryable_sqlite_busy_true_two_levels_deep_via_source_chain() {
    let error = Wrapper(Wrapper(sqlx_error_with_code("5")));
    assert!(classify(&error));
}

#[test]
fn is_retryable_sqlite_busy_true_behind_persistence_error_connection_error() {
    let boxed_sqlx_error: Box<dyn Error + Send + Sync + 'static> =
        Box::new(sqlx_error_with_code("517"));
    let error = Wrapper(cqrs_es::persist::PersistenceError::ConnectionError(
        boxed_sqlx_error,
    ));
    assert!(classify(&error));
}

#[test]
fn is_retryable_sqlite_busy_true_for_projection_error_sqlx_variant() {
    let error = Wrapper(sqlx_error_with_code("5"));
    assert!(classify(&error));
}

#[test]
fn is_retryable_sqlite_busy_true_for_projection_error_persistence_variant() {
    let boxed_sqlx_error: Box<dyn Error + Send + Sync + 'static> =
        Box::new(sqlx_error_with_code("517"));
    let error = Wrapper(cqrs_es::persist::PersistenceError::ConnectionError(
        boxed_sqlx_error,
    ));
    assert!(classify(&error));
}

#[test]
fn is_retryable_sqlite_busy_fails_closed_behind_unsourced_aggregate_error() {
    let error = AggregateShapedError(Box::new(sqlx_error_with_code("5")));
    assert!(!classify(&error));
}

#[test]
fn transparent_wrapper_leads_to_the_boxed_database_error() {
    let error = Transparent(sqlx_error_with_code("5"));
    assert!(matches!(kind_of(&error), ErrorKind::Opaque));
    let source = error.source().expect("the driver error names its source");
    assert!(matches!(kind_of(source), ErrorKind::BoxedDatabase(Some(_))));
    assert!(classify(&error));
    assert!(!classify(&Transparent(sqlx_error_with_code("19"))));
}

#[test]
fn unknown_persistence_failure_is_walked_into() {
    let error = cqrs_es::persist::PersistenceError::UnknownError(Box::new(sqlx_error_with_code(
        "5",
    )));
    assert!(classify(&error));
}

#[test]
fn other_persistence_failures_are_not_walked_into() {
    let unreadable = cqrs_es::persist::PersistenceError::DeserializationError(Box::new(
        sqlx_error_with_code("5"),
    ));
    assert!(!classify(&unreadable));
    assert!(!classify(
        &cqrs_es::persist::PersistenceError::OptimisticLockError
    ));
}

#[test]
fn database_error_without_a_code_is_not_busy() {
    let error = sqlx::Error::Database(Box::new(TestDatabaseError { code: None }));
    assert!(!classify(&error));
    assert!(!classify(&sqlx::Error::RowNotFound));
}

#[test]
fn busy_family_is_the_low_byte() {
    for code in ["5", "261", "517", "773", "+5", "0005", "-251"] {
        assert!(is_busy_extended_code(Some(code)), "{code} is busy");
    }
    for code in ["0", "6", "19", "-5", "256", "2067"] {
        assert!(!is_busy_extended_code(Some(code)), "{code} is not busy");
    }
}

#[test]
fn codes_that_are_not_32_bit_decimals_are_not_busy() {
    for code in ["", "+", "-", "5 ", " 5", "5a", "0x5", "++5", "٥", "4294967301"] {
        assert!(!is_busy_extended_code(Some(code)), "{code:?} is no code");
        assert!(!matches!(code.parse::<i32>(), Ok(value) if value & 0xff == 5));
    }
    assert!(!is_busy_extended_code(None));
}

#[test]
fn codes_read_like_the_standard_parser_at_the_limits() {
    for code in ["2147483647", "2147483648", "-2147483648", "-2147483649", "-2147483643"] {
        let expected = matches!(code.parse::<i32>(), Ok(value) if value & 0xff == 5);
        assert_eq!(is_busy_extended_code(Some(code)), expected, "{code}");
    }
    assert!(is_busy_extended_code(Some("-2147483643")));
}

/// One connection holds the write lock of a database in memory that both share;
/// the other, which does not wait for it, is turned away.
#[test]
fn is_retryable_sqlite_busy_true_for_real_busy_through_transparent_wrapper() {
    let runtime = tokio::runtime::Builder::new_current_thread()
        .enable_time()
        .build()
        .unwrap();
    let raised = runtime.block_on(async {
        let options = SqliteConnectOptions::new()
            .filename("/event_sorcery_busy_probe")
            .vfs("memdb")
            .create_if_missing(true)
            .busy_timeout(Duration::from_secs(0));
        let mut holder = SqliteConnection::connect_with(&options).await.unwrap();
        let mut contender = SqliteConnection::connect_with(&options).await.unwrap();
        for statement in [
            "CREATE TABLE busy_probe (value INTEGER NOT NULL)",
            "BEGIN IMMEDIATE",
            "INSERT INTO busy_probe (value) VALUES (1)",
        ] {
            sqlx::query(statement).execute(&mut holder).await.unwrap();
        }
        sqlx::query("INSERT INTO busy_probe (value) VALUES (2)")
            .execute(&mut contender)
            .await
            .unwrap_err()
    });
    let sqlx::Error::Database(database_error) = &raised else {
        panic!("expected a database error, got {raised:?}");
    };
    assert_eq!(database_error.code().as_deref(), Some("5"));
    assert!(classify(&Transparent(raised)));
}
