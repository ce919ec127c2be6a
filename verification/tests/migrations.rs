use grafbabe::migrations::{
    database_state, find_line_col, find_str, is_latest_migration, last_migration_name,
    migrations, migrations_to_run, schema, sql_input_failure, DatabaseState, Migration,
    SqlInputFailure,
};
use rusqlite::Connection;

fn names(ms: &[grafbabe::migrations::Migration]) -> Vec<String> {
    ms.iter().map(|m| m.name.to_string()).collect()
}

#[test]
fn schema_and_latest_migration_have_the_same_name() {
    assert_eq!(schema().name, migrations().iter().last().unwrap().name);
}

#[test]
fn last_migration_detects_new_db() {
    let state = database_state(false, false);
    assert_eq!(None, last_migration_name(state, None));
}

#[test]
fn last_migration_detects_legacy_db() {
    let state = database_state(false, true);
    assert_eq!(
        Some("pre_migration".to_string()),
        last_migration_name(state, None)
    );
}

#[test]
fn last_migration_returns_000_init() {
    let state = database_state(true, true);
    assert_eq!(Some("000_init".to_string()), last_migration_name(state, None));
}

#[test]
fn last_migration_returns_name_of_last_migration() {
    let expected_name = "5678_cool_migration";
    let state = database_state(true, true);
    assert_eq!(
        Some(expected_name.to_string()),
        last_migration_name(state, Some(expected_name.to_string()))
    );
}

#[test]
fn is_latest_migration_detects_pre_migration_database() {
    assert!(!is_latest_migration("pre_migration"));
}

#[test]
fn is_latest_migration_detects_pending_migrations() {
    assert!(!is_latest_migration("000_init"));
}

#[test]
fn is_latest_migration_detects_up_to_date_migration() {
    assert!(is_latest_migration("001_change_values_to_real"));
}

#[test]
fn is_latest_migration_detects_unknown_migration() {
    assert!(is_latest_migration("3456_unknown_migration"));
}

fn in_memory_db() -> Connection {
    let db = Connection::open_in_memory().expect("couldn't create in-memory db");
    db.pragma_update(None, "foreign_keys", "ON").expect("couldn't enable foreign keys");
    db
}

fn run(db: &mut Connection, m: &Migration) {
    let transaction = db.transaction().expect("couldn't start a transaction");
    transaction.execute_batch(m.queries).expect("migration failed");
    transaction
        .execute("INSERT INTO grafbabe_migrations (name) VALUES (?1);", [m.name])
        .expect("couldn't record the migration");
    transaction.commit().expect("couldn't commit");
}

fn read_migration_names(db: &Connection) -> Vec<String> {
    let mut statement = db
        .prepare("SELECT name FROM grafbabe_migrations ORDER BY id ASC")
        .unwrap();
    let rows = statement.query_map([], |row| row.get(0)).unwrap();
    rows.map(|r| r.unwrap()).collect()
}

const PRE_MIGRATION_SCHEMA: &str = "CREATE TABLE IF NOT EXISTS metrics (
    id INTEGER PRIMARY KEY,
    name TEXT NOT NULL,
    kind INTEGER NOT NULL DEFAULT 0,
    help TEXT
) STRICT;
CREATE UNIQUE INDEX IF NOT EXISTS metrics_by_name ON metrics(name);
CREATE TABLE IF NOT EXISTS labels (
    id INTEGER PRIMARY KEY,
    label TEXT NOT NULL
) STRICT;
CREATE UNIQUE INDEX IF NOT EXISTS labels_by_label ON labels(label);
CREATE TABLE IF NOT EXISTS events (
    id INTEGER PRIMARY KEY,
    timestamp INTEGER NOT NULL
) STRICT;
CREATE UNIQUE INDEX IF NOT EXISTS events_by_timestamp ON events(timestamp);
CREATE TABLE IF NOT EXISTS metric_values (
    metric_id INTEGER NOT NULL REFERENCES metrics(id) ON DELETE CASCADE,
    label_id INTEGER REFERENCES labels(id) ON DELETE CASCADE,
    event_id INTEGER NOT NULL REFERENCES events(id) ON DELETE CASCADE,
    value INTEGER NOT NULL
) STRICT;
CREATE INDEX IF NOT EXISTS metric_values_by_event_id ON metric_values(event_id);";

fn migrate(db: &mut Connection, from: &str) {
    for m in migrations_to_run(from) {
        run(db, &m);
    }
}

#[test]
fn migrate_from_fresh_db() {
    let mut db = in_memory_db();
    run(&mut db, &schema());
    let inserted_migration_names = read_migration_names(&db);
    let ms = migrations();
    assert_eq!(
        vec![ms[ms.len() - 1].name.to_string()],
        inserted_migration_names
    );
}

#[test]
fn migrate_from_pre_migration() {
    let mut db = in_memory_db();
    db.execute_batch(PRE_MIGRATION_SCHEMA).expect("couldn't apply schema");
    migrate(&mut db, "pre_migration");
    let inserted_migration_names = read_migration_names(&db);
    let all_migration_names = names(&migrations());
    assert_eq!(all_migration_names, inserted_migration_names);
}

#[test]
fn migrate_from_000_init() {
    let mut db = in_memory_db();
    db.execute_batch(PRE_MIGRATION_SCHEMA).expect("couldn't apply schema");
    let init = Migration {
        from: "",
        name: "000_init",
        queries: "CREATE TABLE grafbabe_migrations (
    id INTEGER PRIMARY KEY,
    name TEXT NOT NULL
) STRICT;",
    };
    run(&mut db, &init);
    migrate(&mut db, "000_init");
    let inserted_migration_names = read_migration_names(&db);
    let all_migration_names = names(&migrations());
    assert_eq!(all_migration_names, inserted_migration_names);
}

#[test]
fn migrated_and_fresh_databases_store_real_values() {
    let mut fresh = in_memory_db();
    run(&mut fresh, &schema());
    let mut old = in_memory_db();
    old.execute_batch(PRE_MIGRATION_SCHEMA).unwrap();
    migrate(&mut old, "pre_migration");
    for db in [&fresh, &old] {
        db.execute("INSERT INTO metrics (name) VALUES ('m');", []).unwrap();
        db.execute("INSERT INTO events (timestamp) VALUES (1);", []).unwrap();
        db.execute(
            "INSERT INTO metric_values (metric_id, event_id, value) VALUES (1, 1, 0.5);",
            [],
        )
        .unwrap();
        let v: f64 = db
            .query_row("SELECT value FROM metric_values;", [], |r| r.get(0))
            .unwrap();
        assert_eq!(v, 0.5);
    }
}

#[test]
fn up_to_date_and_unknown_databases_run_no_migration() {
    assert!(migrations_to_run("001_change_values_to_real").is_empty());
    assert!(migrations_to_run("3456_unknown_migration").is_empty());
}

#[test]
fn database_states() {
    assert_eq!(database_state(false, false), DatabaseState::Fresh);
    assert_eq!(database_state(false, true), DatabaseState::PreMigration);
    assert_eq!(database_state(true, false), DatabaseState::Recorded);
}

#[test]
fn line_and_column_of_a_byte() {
    let s = "abc\nde\r\nfgh";
    assert_eq!(find_line_col(s, 0), (1, 1));
    assert_eq!(find_line_col(s, 2), (1, 3));
    assert_eq!(find_line_col(s, 3), (1, 3));
    assert_eq!(find_line_col(s, 5), (2, 2));
    assert_eq!(find_line_col(s, 8), (3, 1));
    assert_eq!(find_line_col(s, 9), (3, 2));
}

#[test]
fn finds_first_occurrence() {
    assert_eq!(find_str("abcabc", "bc"), Some(1));
    assert_eq!(find_str("abcabc", "x"), None);
    assert_eq!(find_str("abc", ""), Some(0));
    assert_eq!(find_str("ab", "abc"), None);
}

#[test]
fn alter_column_needs_newer_sqlite() {
    let m = &migrations()[1];
    let sql = "ALTER COLUMN value";
    match sql_input_failure(m, "bad".to_string(), 0, sql) {
        SqlInputFailure::SQLiteVersion { name, min_version } => {
            assert_eq!(name, "001_change_values_to_real");
            assert_eq!(min_version, "3.53.0");
        }
        other => panic!("unexpected {:?}", other),
    }
}

#[test]
fn syntax_error_is_placed_in_the_migration() {
    let m = &migrations()[1];
    let sql = "DROP TABLE metric_values;";
    match sql_input_failure(m, "near DROP".to_string(), 0, sql) {
        SqlInputFailure::Syntax { name, message, index, queries } => {
            assert_eq!(name, "001_change_values_to_real");
            assert_eq!(message, "near DROP");
            let at = m.queries.find(sql).unwrap();
            assert_eq!(index, find_line_col(m.queries, at));
            assert_eq!(queries, m.queries);
        }
        other => panic!("unexpected {:?}", other),
    }
}

#[test]
fn migrations_form_a_chain_to_the_schema() {
    let ms = migrations();
    assert_eq!(ms[0].from, "pre_migration");
    for pair in ms.windows(2) {
        assert_eq!(pair[1].from, pair[0].name);
    }
    assert_eq!(ms[ms.len() - 1].name, schema().name);
    let to_run = migrations_to_run("000_init");
    assert_eq!(to_run[0].from, "000_init");
    assert!(is_latest_migration(to_run[to_run.len() - 1].name));
}
