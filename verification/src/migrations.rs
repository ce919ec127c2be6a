//! The database's schema versions and how an old database is brought up to
//! date.
use vstd::prelude::*;
use vstd::string::StringSliceAdditionalSpecFns;
use crate::text::{split_lines, str_eq};

verus! {

/// A change of the database schema.
#[derive(Debug, PartialEq, Eq)]
pub struct Migration {
    /// The schema version that this migration starts from.
    pub from: &'static str,
    pub name: &'static str,
    /// The SQL statements of this migration.
    pub queries: &'static str,
}

/// The name of the schema that a database starts from when it was created
/// before schema versions were recorded.
pub open spec fn pre_migration() -> Seq<char> {
    "pre_migration"@
}

/// The SQL of the full current schema.
pub open spec fn schema_sql() -> Seq<char> {
    "CREATE TABLE IF NOT EXISTS metrics (
    id INTEGER PRIMARY KEY,
    name TEXT NOT NULL,
    kind INTEGER NOT NULL DEFAULT 0,
    help TEXT
) STRICT;

CREATE UNIQUE INDEX IF NOT EXISTS metrics_by_name ON metrics(name);

CREATE TABLE IF NOT EXISTS labels (
    id INTEGER PRIMARY KEY,
    label TEXT NOT NULL
) STRICT;

CREATE UNIQUE INDEX IF NOT EXISTS labels_by_label ON labels(label);

CREATE TABLE IF NOT EXISTS events (
    id INTEGER PRIMARY KEY,
    timestamp INTEGER NOT NULL
) STRICT;

CREATE UNIQUE INDEX IF NOT EXISTS events_by_timestamp ON events(timestamp);

CREATE TABLE IF NOT EXISTS metric_values (
    metric_id INTEGER NOT NULL REFERENCES metrics(id) ON DELETE CASCADE,
    label_id INTEGER REFERENCES labels(id) ON DELETE CASCADE,
    event_id INTEGER NOT NULL REFERENCES events(id) ON DELETE CASCADE,
    value REAL NOT NULL
) STRICT;

CREATE INDEX IF NOT EXISTS metric_values_by_event_id ON metric_values(event_id);

CREATE TABLE IF NOT EXISTS grafbabe_migrations (
    id INTEGER PRIMARY KEY,
    name TEXT NOT NULL
) STRICT;"@
}

/// The SQL that starts recording migrations in a database made before they
/// were recorded.
pub open spec fn init_sql() -> Seq<char> {
    "CREATE TABLE grafbabe_migrations (
    id INTEGER PRIMARY KEY,
    name TEXT NOT NULL
) STRICT;"@
}

/// The SQL that makes the stored values real numbers.
pub open spec fn values_real_sql() -> Seq<char> {
    "CREATE TABLE metric_values_real (
    metric_id INTEGER NOT NULL REFERENCES metrics(id) ON DELETE CASCADE,
    label_id INTEGER REFERENCES labels(id) ON DELETE CASCADE,
    event_id INTEGER NOT NULL REFERENCES events(id) ON DELETE CASCADE,
    value REAL NOT NULL
) STRICT;

INSERT INTO metric_values_real (metric_id, label_id, event_id, value)
    SELECT metric_id, label_id, event_id, value FROM metric_values;

DROP TABLE metric_values;

ALTER TABLE metric_values_real RENAME TO metric_values;

CREATE INDEX IF NOT EXISTS metric_values_by_event_id ON metric_values(event_id);"@
}

/// The migrations, in order, each as (the version it starts from, its
/// name, its SQL).
pub open spec fn migration_list() -> Seq<(Seq<char>, Seq<char>, Seq<char>)> {
    seq![
        ("pre_migration"@, "000_init"@, init_sql()),
        ("000_init"@, "001_change_values_to_real"@, values_real_sql()),
    ]
}

pub open spec fn migration_view(m: Migration) -> (Seq<char>, Seq<char>, Seq<char>) {
    (m.from@, m.name@, m.queries@)
}

/// The name of the full current schema.
pub open spec fn schema_name() -> Seq<char> {
    "001_change_values_to_real"@
}

/// The full current schema, applied to a new database.
pub fn schema() -> (res: Migration)
    ensures
        res.from@ == ""@,
        res.name@ == schema_name(),
        res.queries@ == schema_sql(),
{
    Migration {
        from: "",
        name: "001_change_values_to_real",
        queries: "CREATE TABLE IF NOT EXISTS metrics (
    id INTEGER PRIMARY KEY,
    name TEXT NOT NULL,
    kind INTEGER NOT NULL DEFAULT 0,
    help TEXT
) STRICT;

CREATE UNIQUE INDEX IF NOT EXISTS metrics_by_name ON metrics(name);

CREATE TABLE IF NOT EXISTS labels (
    id INTEGER PRIMARY KEY,
    label TEXT NOT NULL
) STRICT;

CREATE UNIQUE INDEX IF NOT EXISTS labels_by_label ON labels(label);

CREATE TABLE IF NOT EXISTS events (
    id INTEGER PRIMARY KEY,
    timestamp INTEGER NOT NULL
) STRICT;

CREATE UNIQUE INDEX IF NOT EXISTS events_by_timestamp ON events(timestamp);

CREATE TABLE IF NOT EXISTS metric_values (
    metric_id INTEGER NOT NULL REFERENCES metrics(id) ON DELETE CASCADE,
    label_id INTEGER REFERENCES labels(id) ON DELETE CASCADE,
    event_id INTEGER NOT NULL REFERENCES events(id) ON DELETE CASCADE,
    value REAL NOT NULL
) STRICT;

CREATE INDEX IF NOT EXISTS metric_values_by_event_id ON metric_values(event_id);

CREATE TABLE IF NOT EXISTS grafbabe_migrations (
    id INTEGER PRIMARY KEY,
    name TEXT NOT NULL
) STRICT;",
    }
}

/// The migrations, in the order in which they run.
pub fn migrations() -> (res: Vec<Migration>)
    ensures
        res@.map_values(|m: Migration| migration_view(m)) == migration_list(),
{
    let mut v = Vec::new();
    v.push(
        Migration {
            from: "pre_migration",
            name: "000_init",
            queries: "CREATE TABLE grafbabe_migrations (
    id INTEGER PRIMARY KEY,
    name TEXT NOT NULL
) STRICT;",
        },
    );
    v.push(
        Migration {
            from: "000_init",
            name: "001_change_values_to_real",
            queries: "CREATE TABLE metric_values_real (
    metric_id INTEGER NOT NULL REFERENCES metrics(id) ON DELETE CASCADE,
    label_id INTEGER REFERENCES labels(id) ON DELETE CASCADE,
    event_id INTEGER NOT NULL REFERENCES events(id) ON DELETE CASCADE,
    value REAL NOT NULL
) STRICT;

INSERT INTO metric_values_real (metric_id, label_id, event_id, value)
    SELECT metric_id, label_id, event_id, value FROM metric_values;

DROP TABLE metric_values;

ALTER TABLE metric_values_real RENAME TO metric_values;

CREATE INDEX IF NOT EXISTS metric_values_by_event_id ON metric_values(event_id);",
        },
    );
    assert(v@.map_values(|m: Migration| migration_view(m)) =~= migration_list());
    v
}

/// Whether a database at schema `from` needs no migration: it is at the
/// last one, or at one this program does not know (which it leaves alone).
pub open spec fn is_latest_spec(from: Seq<char>) -> bool {
    let ms = migration_list();
    if ms.len() == 0 {
        true
    } else if from != pre_migration() && !(exists|i: int| 0 <= i < ms.len() && ms[i].1 == from) {
        true
    } else {
        from == ms.last().1
    }
}

/// Whether a database at schema `migrate_from` is up to date.
pub fn is_latest_migration(migrate_from: &str) -> (res: bool)
    ensures
        res == is_latest_spec(migrate_from@),
{
    let ms = migrations();
    let ghost mv = ms@.map_values(|m: Migration| migration_view(m));
    if ms.len() == 0 {
        return true;
    }
    let mut known = false;
    let mut i: usize = 0;
    while i < ms.len()
        invariant
            mv == ms@.map_values(|m: Migration| migration_view(m)),
            mv == migration_list(),
            i <= ms@.len(),
            known == (exists|j: int| 0 <= j < i && mv[j].1 == migrate_from@),
        decreases ms@.len() - i,
    {
        assert(mv[i as int].1 == ms@[i as int].name@);
        if str_eq(ms[i].name, migrate_from) {
            known = true;
        }
        i = i + 1;
    }
    if !str_eq(migrate_from, "pre_migration") && !known {
        return true;
    }
    assert(mv.last().1 == ms@[ms@.len() - 1].name@);
    str_eq(migrate_from, ms[ms.len() - 1].name)
}

/// The migrations that bring a database at schema `from` up to date: from
/// the first one that starts at `from` to the last; none where the database
/// is up to date or no migration starts at `from`.
pub open spec fn to_run_spec(from: Seq<char>) -> Seq<(Seq<char>, Seq<char>, Seq<char>)> {
    let ms = migration_list();
    if is_latest_spec(from) {
        Seq::empty()
    } else if exists|i: int| 0 <= i < ms.len() && ms[i].0 == from {
        ms.skip(
            choose|i: int|
                0 <= i < ms.len() && ms[i].0 == from && forall|j: int|
                    0 <= j < i ==> ms[j].0 != from,
        )
    } else {
        Seq::empty()
    }
}

/// The migrations form a chain from the schema of databases made before
/// migrations were recorded to the full current schema: each starts where
/// the one before it ends, and the last ends where a new database starts.
pub proof fn lemma_migrations_chain()
    ensures
        migration_list().len() > 0,
        migration_list()[0].0 == pre_migration(),
        forall|i: int|
            0 < i < migration_list().len() ==> #[trigger] migration_list()[i].0 == migration_list()[i
                - 1].1,
        migration_list().last().1 == schema_name(),
{
}

/// A database that is not up to date is brought up to date: the migrations
/// to run on it start at its schema, each starts where the one before it
/// ends, and the last one ends at a schema that is up to date.
pub proof fn lemma_migrating_brings_up_to_date(from: Seq<char>)
    requires
        !is_latest_spec(from),
    ensures
        to_run_spec(from).len() > 0,
        to_run_spec(from)[0].0 == from,
        forall|i: int|
            0 < i < to_run_spec(from).len() ==> #[trigger] to_run_spec(from)[i].0 == to_run_spec(
                from,
            )[i - 1].1,
        is_latest_spec(to_run_spec(from).last().1),
        to_run_spec(from).last().1 == schema_name(),
{
    reveal_strlit("pre_migration");
    reveal_strlit("000_init");
    reveal_strlit("001_change_values_to_real");
    let ms = migration_list();
    assert("pre_migration"@.len() == 13);
    assert("000_init"@.len() == 8);
    assert("001_change_values_to_real"@.len() == 25);
    assert(ms[0].1 != ms[1].1);
    assert(pre_migration() != ms[0].1);
    assert(pre_migration() != ms[1].1);
    if from == pre_migration() {
        assert(ms[0].0 == from);
        let i = choose|i: int| 0 <= i < ms.len() && ms[i].0 == from && forall|j: int| 0 <= j < i ==> ms[j].0 != from;
        assert(i == 0) by {
            if i == 1 {
                assert(ms[1].0 != from);
            }
        }
        assert(to_run_spec(from) =~= ms);
    } else {
        let k = choose|k: int| 0 <= k < ms.len() && ms[k].1 == from;
        assert(k == 0);
        assert(ms[1].0 == from);
        let i = choose|i: int| 0 <= i < ms.len() && ms[i].0 == from && forall|j: int| 0 <= j < i ==> ms[j].0 != from;
        assert(i == 1) by {
            if i == 0 {
                assert(ms[0].0 != from);
            }
        }
        assert(to_run_spec(from) =~= ms.skip(1));
    }
}

/// The migrations to run on a database at schema `from`, in order.
pub fn migrations_to_run(from: &str) -> (res: Vec<Migration>)
    ensures
        res@.map_values(|m: Migration| migration_view(m)) == to_run_spec(from@),
{
    if is_latest_migration(from) {
        let v: Vec<Migration> = Vec::new();
        assert(v@.map_values(|m: Migration| migration_view(m)) =~= to_run_spec(from@));
        return v;
    }
    let ms = migrations();
    let ghost mv = ms@.map_values(|m: Migration| migration_view(m));
    let mut i: usize = 0;
    while i < ms.len()
        invariant
            mv == ms@.map_values(|m: Migration| migration_view(m)),
            mv == migration_list(),
            !is_latest_spec(from@),
            i <= ms@.len(),
            forall|j: int| 0 <= j < i ==> mv[j].0 != from@,
        decreases ms@.len() - i,
    {
        assert(mv[i as int].0 == ms@[i as int].from@);
        if str_eq(ms[i].from, from) {
            proof {
                let k = choose|k: int|
                    0 <= k < mv.len() && mv[k].0 == from@ && forall|j: int|
                        0 <= j < k ==> mv[j].0 != from@;
                assert(k == i) by {
                    if k < i {
                    } else if k > i {
                    }
                };
            }
            let mut out: Vec<Migration> = Vec::new();
            let mut j: usize = i;
            while j < ms.len()
                invariant
                    mv == ms@.map_values(|m: Migration| migration_view(m)),
                    i <= j <= ms@.len(),
                    out@.map_values(|m: Migration| migration_view(m)) == mv.subrange(
                        i as int,
                        j as int,
                    ),
                decreases ms@.len() - j,
            {
                let m = Migration { from: ms[j].from, name: ms[j].name, queries: ms[j].queries };
                assert(migration_view(m) == mv[j as int]);
                let ghost before = out@;
                out.push(m);
                assert(out@ =~= before.push(m));
                assert(before.push(m).map_values(|m: Migration| migration_view(m)) =~= before.map_values(
                    |m: Migration| migration_view(m),
                ).push(migration_view(m)));
                assert(mv.subrange(i as int, j + 1) =~= mv.subrange(i as int, j as int).push(
                    mv[j as int],
                ));
                j = j + 1;
            }
            assert(mv.subrange(i as int, ms@.len() as int) =~= mv.skip(i as int));
            return out;
        }
        i = i + 1;
    }
    let v: Vec<Migration> = Vec::new();
    assert(v@.map_values(|m: Migration| migration_view(m)) =~= to_run_spec(from@));
    v
}

// ---------------------------------------------------------------------------
// Where a migration failed
// ---------------------------------------------------------------------------

/// Line and column of byte `index` (counting lines from 1, and the column
/// as the byte length of that line up to and including the byte).
pub open spec fn line_col_spec(b: Seq<u8>) -> (int, int) {
    let ls = split_lines(b, 10u8, 13u8);
    (ls.len() as int, if ls.len() > 0 {
        ls.last().len() as int
    } else {
        0
    })
}

/// Where byte `index` of `s` is: the number of lines up to and including it,
/// and the length of the last of them.
pub fn find_line_col(s: &str, index: usize) -> (res: (usize, usize))
    requires
        index < s.spec_bytes().len(),
        vstd::utf8::is_char_boundary(s.spec_bytes(), index + 1),
    ensures
        (res.0 as int, res.1 as int) == line_col_spec(s.spec_bytes().take(index + 1)),
{
    let b = s.as_bytes();
    let ghost bs = b@;
    let mut count: usize = 0;
    let mut last_len: usize = 0;
    let mut cur_len: usize = 0;
    let mut i: usize = 0;
    while i <= index
        invariant
            bs == b@,
            bs == s.spec_bytes(),
            index < bs.len(),
            i <= index + 1,
            count + cur_len <= i,
            count == crate::text::lines_acc(bs.take(i as int), 10u8, 13u8).0.len(),
            count > 0 ==> last_len == crate::text::lines_acc(bs.take(i as int), 10u8, 13u8).0.last().len(),
            cur_len == crate::text::lines_acc(bs.take(i as int), 10u8, 13u8).1.len(),
            cur_len > 0 ==> crate::text::lines_acc(bs.take(i as int), 10u8, 13u8).1.last() == bs[i - 1],
        decreases index + 1 - i,
    {
        let c = b[i];
        assert(bs.take(i + 1).drop_last() =~= bs.take(i as int));
        assert(bs.take(i + 1).last() == c);
        if c == 10u8 {
            let stripped = if cur_len > 0 && b[i - 1] == 13u8 {
                cur_len - 1
            } else {
                cur_len
            };
            count = count + 1;
            last_len = stripped;
            cur_len = 0;
        } else {
            cur_len = cur_len + 1;
        }
        i = i + 1;
    }
    if cur_len > 0 {
        (count + 1, cur_len)
    } else if count > 0 {
        (count, last_len)
    } else {
        (0, 0)
    }
}

/// Where a migration stopped on an SQL statement that SQLite could not
/// read.
#[derive(Debug)]
pub enum SqlInputFailure {
    /// The statement needs a newer SQLite than the one linked.
    SQLiteVersion { name: &'static str, min_version: &'static str },
    /// The statement is wrong, at this line and column of the migration.
    Syntax { name: &'static str, message: String, index: (usize, usize), queries: &'static str },
}

/// `needle` occurs in `hay` at byte position `i`.
pub open spec fn occurs_at(hay: Seq<u8>, needle: Seq<u8>, i: int) -> bool {
    0 <= i && i + needle.len() <= hay.len() && hay.subrange(i, i + needle.len()) == needle
}

/// The first byte position at which `needle` occurs in `hay`.
#[verifier::opaque]
pub open spec fn find_spec(hay: Seq<u8>, needle: Seq<u8>) -> Option<int> {
    if exists|i: int| occurs_at(hay, needle, i) {
        Some(
            choose|i: int|
                occurs_at(hay, needle, i) && forall|j: int| 0 <= j < i ==> !occurs_at(hay, needle, j),
        )
    } else {
        None
    }
}

/// Whether `nd` occurs in `h` at byte position `i`.
fn bytes_at(h: &[u8], i: usize, nd: &[u8]) -> (res: bool)
    requires
        i + nd@.len() <= h@.len(),
    ensures
        res == (h@.subrange(i as int, i + nd@.len()) == nd@),
{
    let m = nd.len();
    let n = h.len();
    let mut k: usize = 0;
    assert(h@.subrange(i as int, i as int) =~= nd@.subrange(0, 0));
    while k < m && h[i + k] == nd[k]
        invariant
            m == nd@.len(),
            n == h@.len(),
            i + m <= h@.len(),
            k <= m,
            h@.subrange(i as int, i + k) == nd@.subrange(0, k as int),
        decreases m - k,
    {
        assert(h@.subrange(i as int, i + k + 1) =~= h@.subrange(i as int, i + k).push(h@[i + k]));
        assert(nd@.subrange(0, k + 1) =~= nd@.subrange(0, k as int).push(nd@[k as int]));
        k = k + 1;
    }
    if k == m {
        assert(nd@.subrange(0, m as int) =~= nd@);
        true
    } else {
        assert(h@.subrange(i as int, i + m)[k as int] == h@[i + k]);
        false
    }
}

/// The first occurrence is the one at `i` when nothing occurs before it.
proof fn lemma_find_first(h: Seq<u8>, nd: Seq<u8>, i: int)
    requires
        occurs_at(h, nd, i),
        forall|j: int| 0 <= j < i ==> !occurs_at(h, nd, j),
    ensures
        find_spec(h, nd) == Some(i),
{
    reveal(find_spec);
    let c = choose|c: int| occurs_at(h, nd, c) && forall|j: int| 0 <= j < c ==> !occurs_at(h, nd, j);
    assert(occurs_at(h, nd, c) && forall|j: int| 0 <= j < c ==> !occurs_at(h, nd, j));
    if c < i {
        assert(!occurs_at(h, nd, c));
    } else if c > i {
        assert(!occurs_at(h, nd, i));
    }
}

/// `str::find` with a string pattern: the byte position of the first
/// occurrence.
pub fn find_str(hay: &str, needle: &str) -> (res: Option<usize>)
    ensures
        match res {
            Some(i) => find_spec(hay.spec_bytes(), needle.spec_bytes()) == Some(i as int),
            None => find_spec(hay.spec_bytes(), needle.spec_bytes()) is None,
        },
{
    let h = hay.as_bytes();
    let nd = needle.as_bytes();
    let n = h.len();
    let m = nd.len();
    if m > n {
        proof {
            reveal(find_spec);
            assert forall|j: int| !occurs_at(h@, nd@, j) by {}
        }
        return None;
    }
    let mut i: usize = 0;
    if m == 0 {
        assert(h@.subrange(0, 0) =~= nd@);
        proof {
            lemma_find_first(h@, nd@, 0);
        }
        return Some(0);
    }
    while i <= n - m
        invariant
            h@ == hay.spec_bytes(),
            nd@ == needle.spec_bytes(),
            n == h@.len(),
            m == nd@.len(),
            1 <= m <= n,
            i <= n - m + 1,
            forall|j: int| 0 <= j < i ==> !occurs_at(h@, nd@, j),
        decreases n - m + 1 - i,
    {
        if bytes_at(h, i, nd) {
            proof {
                lemma_find_first(h@, nd@, i as int);
            }
            return Some(i);
        }
        i = i + 1;
    }
    proof {
        reveal(find_spec);
        assert forall|j: int| !occurs_at(h@, nd@, j) by {
            if occurs_at(h@, nd@, j) {
                assert(j < i);
            }
        }
    }
    None
}

/// The bytes of `ALTER COLUMN`, which starts a statement that needs a newer
/// SQLite.
pub open spec fn alter_column() -> Seq<u8> {
    seq![65u8, 76u8, 84u8, 69u8, 82u8, 32u8, 67u8, 79u8, 76u8, 85u8, 77u8, 78u8]
}

/// What an SQL input error at byte `offset` of statement `sql`, in
/// migration `m`, means: a statement that starts with `ALTER COLUMN` there
/// needs a newer SQLite; otherwise the error is placed in the migration's
/// text (at `offset` past where `sql` first occurs in it, or past its start
/// where it does not occur).
pub open spec fn syntax_index(queries: Seq<u8>, sql: Seq<u8>, offset: int) -> int {
    match find_spec(queries, sql) {
        Some(p) => p + offset,
        None => offset,
    }
}

/// Explains an SQL input error that a migration ran into.
pub fn sql_input_failure(m: &Migration, message: String, offset: usize, sql: &str) -> (res:
    SqlInputFailure)
    requires
        offset + 12 <= sql.spec_bytes().len(),
        vstd::utf8::is_char_boundary(sql.spec_bytes(), offset as int),
        vstd::utf8::is_char_boundary(sql.spec_bytes(), offset + 12),
        sql.spec_bytes().subrange(offset as int, offset + 12) != alter_column() ==> {
            let index = syntax_index(m.queries.spec_bytes(), sql.spec_bytes(), offset as int);
            &&& index < m.queries.spec_bytes().len()
            &&& vstd::utf8::is_char_boundary(m.queries.spec_bytes(), index + 1)
        },
    ensures
        match res {
            SqlInputFailure::SQLiteVersion { name, min_version } => {
                &&& sql.spec_bytes().subrange(offset as int, offset + 12) == alter_column()
                &&& name == m.name
                &&& min_version@ == "3.53.0"@
            },
            SqlInputFailure::Syntax { name, message: msg, index, queries } => {
                let i = syntax_index(m.queries.spec_bytes(), sql.spec_bytes(), offset as int);
                &&& sql.spec_bytes().subrange(offset as int, offset + 12) != alter_column()
                &&& name == m.name
                &&& msg == message
                &&& queries == m.queries
                &&& (index.0 as int, index.1 as int) == line_col_spec(
                    m.queries.spec_bytes().take(i + 1),
                )
            },
        },
{
    let s = sql.as_bytes();
    let a: [u8; 12] = [65u8, 76u8, 84u8, 69u8, 82u8, 32u8, 67u8, 79u8, 76u8, 85u8, 77u8, 78u8];
    assert(a@ =~= alter_column());
    if bytes_at(s, offset, &a) {
        return SqlInputFailure::SQLiteVersion { name: m.name, min_version: "3.53.0" };
    }
    assert(s@ == sql.spec_bytes());
    assert(s@.subrange(offset as int, offset + 12) != alter_column());
    let ghost q = m.queries.spec_bytes();
    let qlen = m.queries.as_bytes().len();
    assert(syntax_index(q, s@, offset as int) < qlen);
    let index = match find_str(m.queries, sql) {
        Some(p) => {
            p + offset
        },
        None => offset,
    };
    let (line, col) = find_line_col(m.queries, index);
    SqlInputFailure::Syntax { name: m.name, message, index: (line, col), queries: m.queries }
}

/// What is known of a database before it is migrated.
#[derive(Clone, Copy, Debug, PartialEq, Eq, Structural)]
pub enum DatabaseState {
    /// No tables: a new database, which gets the full schema.
    Fresh,
    /// Data, but no record of migrations: created before they were recorded.
    PreMigration,
    /// Migrations are recorded; the last one names the schema.
    Recorded,
}

/// Tells a database's state from whether it has the migrations table and
/// whether it has the table of values.
pub fn database_state(migration_aware: bool, has_any_data: bool) -> (res: DatabaseState)
    ensures
        res == (if migration_aware {
            DatabaseState::Recorded
        } else if has_any_data {
            DatabaseState::PreMigration
        } else {
            DatabaseState::Fresh
        }),
{
    if migration_aware {
        DatabaseState::Recorded
    } else if has_any_data {
        DatabaseState::PreMigration
    } else {
        DatabaseState::Fresh
    }
}

/// The schema of a database: `None` for a fresh one; `pre_migration` for
/// one with data but no record; the last recorded migration, or `000_init`
/// where the record is empty.
pub fn last_migration_name(state: DatabaseState, last_recorded: Option<String>) -> (res: Option<
    String,
>)
    ensures
        match state {
            DatabaseState::Fresh => res is None,
            DatabaseState::PreMigration => res matches Some(n) && n@ == "pre_migration"@,
            DatabaseState::Recorded => match last_recorded {
                Some(r) => res == Some(r),
                None => res matches Some(n) && n@ == "000_init"@,
            },
        },
{
    match state {
        DatabaseState::Fresh => None,
        DatabaseState::PreMigration => Some(crate::config::owned("pre_migration")),
        DatabaseState::Recorded => match last_recorded {
            Some(r) => Some(r),
            None => Some(crate::config::owned("000_init")),
        },
    }
}

} // verus!
