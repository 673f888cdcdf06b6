use vstd::prelude::*;
use crate::errors::EngineError;
use crate::model::{Candle, CandleModel, DataSet};
use crate::text::{chars_to_string, dec_spec, extend_chars, to_chars, u64_to_dec};
use rusqlite::OptionalExtension;

verus! {

#[verifier::external_type_specification]
#[verifier::external_body]
pub struct ExConnection(rusqlite::Connection);

#[verifier::external_type_specification]
#[verifier::external_body]
pub struct ExSqlError(rusqlite::Error);

/// One positional SQL parameter: the engine binds text, integers and nulls
/// and nothing else.
pub enum SqlArg {
    Text(String),
    Int(i64),
    Null,
}

/// One stored candle row: the timestamp text and the five price words as the
/// signed integers the storage holds.
pub struct CandleRow {
    pub ts_utc: String,
    pub open: i64,
    pub high: i64,
    pub low: i64,
    pub close: i64,
    pub volume: i64,
}

/// Relies on rusqlite::Connection::open: opens (creating if absent) the
/// SQLite database file at the path.
#[verifier::external_body]
fn db_open(path: &str) -> (r: Result<rusqlite::Connection, rusqlite::Error>) {
    rusqlite::Connection::open(path)
}

/// Relies on rusqlite::Connection::open_in_memory: a fresh empty database
/// held in memory.
#[verifier::external_body]
fn db_open_in_memory() -> (r: Result<rusqlite::Connection, rusqlite::Error>) {
    rusqlite::Connection::open_in_memory()
}

/// Relies on rusqlite::Connection::execute_batch: runs the statements in
/// order, stopping at the first failure.
#[verifier::external_body]
fn db_exec_batch(conn: &rusqlite::Connection, sql: &str) -> (r: Result<(), rusqlite::Error>) {
    conn.execute_batch(sql)
}

/// Relies on rusqlite::Connection::execute with positional parameters: runs
/// one statement, returning how many rows it changed.
#[verifier::external_body]
fn db_exec(conn: &rusqlite::Connection, sql: &str, args: &Vec<SqlArg>) -> (r: Result<
    u64,
    rusqlite::Error,
>) {
    let ps = rusqlite::params_from_iter(args.iter().map(|a| match a {
        SqlArg::Text(s) => rusqlite::types::Value::Text(s.clone()),
        SqlArg::Int(i) => rusqlite::types::Value::Integer(*i),
        SqlArg::Null => rusqlite::types::Value::Null,
    }));
    conn.execute(sql, ps).map(|n| n as u64)
}

/// Relies on rusqlite::Connection::query_row and OptionalExtension::optional:
/// the first row's integer, or None when the query yields no row.
#[verifier::external_body]
fn db_query_count(conn: &rusqlite::Connection, sql: &str, key: &str) -> (r: Result<
    Option<i64>,
    rusqlite::Error,
>) {
    conn.query_row(sql, [key], |row| row.get(0)).optional()
}

/// Relies on rusqlite::Connection::query_row: the first row's text; an empty
/// result is the QueryReturnedNoRows error.
#[verifier::external_body]
fn db_query_text(conn: &rusqlite::Connection, sql: &str) -> (r: Result<String, rusqlite::Error>) {
    conn.query_row(sql, [], |row| row.get(0))
}

/// Relies on rusqlite::Statement::query_map: every row the statement yields,
/// in statement order, each read as one text and five integer columns.
#[verifier::external_body]
fn db_candle_rows(conn: &rusqlite::Connection, sql: &str, args: &Vec<SqlArg>) -> (r: Result<
    Vec<CandleRow>,
    rusqlite::Error,
>) {
    let ps = rusqlite::params_from_iter(args.iter().map(|a| match a {
        SqlArg::Text(s) => rusqlite::types::Value::Text(s.clone()),
        SqlArg::Int(i) => rusqlite::types::Value::Integer(*i),
        SqlArg::Null => rusqlite::types::Value::Null,
    }));
    let mut stmt = conn.prepare(sql)?;
    let rows = stmt.query_map(ps, |row| Ok(CandleRow {
        ts_utc: row.get(0)?, open: row.get(1)?, high: row.get(2)?,
        low: row.get(3)?, close: row.get(4)?, volume: row.get(5)?,
    }))?;
    rows.collect()
}

/// Relies on rusqlite::Statement::query_map: every row the statement yields,
/// in statement order, each read as an integer index and an optional integer
/// reinterpreted as an unsigned word.
#[verifier::external_body]
fn db_value_rows(conn: &rusqlite::Connection, sql: &str, key: &str) -> (r: Result<
    Vec<(i64, Option<u64>)>,
    rusqlite::Error,
>) {
    let mut stmt = conn.prepare(sql)?;
    let rows = stmt.query_map([key], |row| {
        let v: Option<i64> = row.get(1)?;
        Ok((row.get(0)?, v.map(|x| x as u64)))
    })?;
    rows.collect()
}

/// Relies on rusqlite::Error's Display: the error's diagnostic text.
#[verifier::external_body]
fn sql_error_text(e: &rusqlite::Error) -> (r: String) {
    format!("{}", e)
}

/// Every storage failure surfaces as a `CacheIoError` carrying the storage
/// engine's own words.
fn map_sql_err(e: rusqlite::Error) -> (r: EngineError)
    ensures
        r is CacheIoError,
{
    EngineError::CacheIoError { detail: sql_error_text(&e) }
}

/// Names what blake3 computes over a text's bytes, written as lowercase hex;
/// a function of the text alone.
pub uninterp spec fn blake3_hex_of(s: Seq<char>) -> Seq<char>;

/// Relies on blake3::hash and blake3::Hash's Display: the 256-bit digest of
/// the key's bytes as 64 hexadecimal characters, a function of the key alone.
#[verifier::external_body]
fn blake3_hex(key: &str) -> (r: String)
    ensures
        r@ == blake3_hex_of(key@),
        r@.len() == 64,
{
    format!("{}", blake3::hash(key.as_bytes()))
}

/// The cache identity text: the absolute path and the file's modification
/// time in epoch seconds, joined by an underscore.
pub open spec fn cache_key_spec(path: Seq<char>, mtime: int) -> Seq<char> {
    path + seq!['_'] + dec_spec(mtime)
}

/// Builds the identity string a file's path and modification time hash into.
pub fn cache_key(path: &str, mtime: u64) -> (r: String)
    ensures
        r@ == cache_key_spec(path@, mtime as int),
{
    let mut out = to_chars(path);
    out.push('_');
    let digits = u64_to_dec(mtime);
    extend_chars(&mut out, &digits);
    proof {
        assert(out@ =~= cache_key_spec(path@, mtime as int));
    }
    chars_to_string(&out)
}

/// The cache file's name for an identity key: the key's digest plus the
/// `.sqlite` suffix.
pub open spec fn cache_file_name_spec(key: Seq<char>) -> Seq<char> {
    blake3_hex_of(key) + ".sqlite"@
}

/// Names the cache file that holds the partitions of one file identity.
pub fn cache_file_name(key: &str) -> (r: String)
    ensures
        r@ == cache_file_name_spec(key@),
{
    let hex = blake3_hex(key);
    let mut out = to_chars(hex.as_str());
    let suffix = to_chars(".sqlite");
    extend_chars(&mut out, &suffix);
    chars_to_string(&out)
}

/// The stored image of a candle: prices reinterpreted as signed words.
pub open spec fn row_of(c: CandleModel) -> (Seq<char>, i64, i64, i64, i64, i64) {
    (c.ts, c.open as i64, c.high as i64, c.low as i64, c.close as i64, c.volume as i64)
}

/// The candle a stored row denotes: prices reinterpreted back as unsigned
/// words.
pub open spec fn candle_of_row(ts: Seq<char>, o: i64, h: i64, l: i64, cl: i64, v: i64) -> CandleModel {
    CandleModel {
        ts: ts,
        open: o as u64,
        high: h as u64,
        low: l as u64,
        close: cl as u64,
        volume: v as u64,
    }
}

fn candle_to_row(c: &Candle) -> (r: CandleRow)
    ensures
        (r.ts_utc@, r.open, r.high, r.low, r.close, r.volume) == row_of(c@),
{
    CandleRow {
        ts_utc: c.ts_utc.clone(),
        open: #[verifier::truncate] (c.open as i64),
        high: #[verifier::truncate] (c.high as i64),
        low: #[verifier::truncate] (c.low as i64),
        close: #[verifier::truncate] (c.close as i64),
        volume: #[verifier::truncate] (c.volume as i64),
    }
}

fn row_to_candle(r: &CandleRow) -> (c: Candle)
    ensures
        c@ == candle_of_row(r.ts_utc@, r.open, r.high, r.low, r.close, r.volume),
{
    Candle {
        ts_utc: r.ts_utc.clone(),
        open: #[verifier::truncate] (r.open as u64),
        high: #[verifier::truncate] (r.high as u64),
        low: #[verifier::truncate] (r.low as u64),
        close: #[verifier::truncate] (r.close as u64),
        volume: #[verifier::truncate] (r.volume as u64),
    }
}

/// Law: storing a candle as a signed-word row and reading it back yields the
/// candle unchanged, field for field.
pub proof fn lemma_candle_row_round_trip(c: CandleModel)
    ensures
        candle_of_row(
            row_of(c).0,
            row_of(c).1,
            row_of(c).2,
            row_of(c).3,
            row_of(c).4,
            row_of(c).5,
        ) == c,
{
    let o = c.open;
    let h = c.high;
    let l = c.low;
    let cl = c.close;
    let v = c.volume;
    assert(((o as i64) as u64) == o) by (bit_vector);
    assert(((h as i64) as u64) == h) by (bit_vector);
    assert(((l as i64) as u64) == l) by (bit_vector);
    assert(((cl as i64) as u64) == cl) by (bit_vector);
    assert(((v as i64) as u64) == v) by (bit_vector);
}

/// Law: a whole candle sequence survives the stored-row encoding unchanged,
/// candle for candle and field for field.
pub proof fn lemma_dataset_round_trip(cs: Seq<CandleModel>)
    ensures
        forall|j: int|
            0 <= j < cs.len() ==> candle_of_row(
                row_of(#[trigger] cs[j]).0,
                row_of(cs[j]).1,
                row_of(cs[j]).2,
                row_of(cs[j]).3,
                row_of(cs[j]).4,
                row_of(cs[j]).5,
            ) == cs[j],
{
    assert forall|j: int| 0 <= j < cs.len() implies candle_of_row(
        row_of(#[trigger] cs[j]).0,
        row_of(cs[j]).1,
        row_of(cs[j]).2,
        row_of(cs[j]).3,
        row_of(cs[j]).4,
        row_of(cs[j]).5,
    ) == cs[j] by {
        lemma_candle_row_round_trip(cs[j]);
    }
}

/// Whether a stored partition counts as a hit: the meta count must exist and
/// equal the number of rows actually retrieved.
pub open spec fn partition_hit(count: Option<i64>, nrows: int) -> bool {
    match count {
        Some(v) => nrows == v,
        None => false,
    }
}

/// Validates a resample partition read: rows become candles only when the
/// stored count agrees with them; any disagreement is a miss, not an error.
pub fn validate_candle_rows(count: Option<i64>, rows: &Vec<CandleRow>) -> (r: Option<Vec<Candle>>)
    ensures
        (match r {
            Some(cs) => partition_hit(count, rows@.len() as int) && cs@.len() == rows@.len()
                && (forall|j: int|
                0 <= j < cs@.len() ==> (#[trigger] cs@[j])@ == candle_of_row(
                    rows@[j].ts_utc@,
                    rows@[j].open,
                    rows@[j].high,
                    rows@[j].low,
                    rows@[j].close,
                    rows@[j].volume,
                )),
            None => !partition_hit(count, rows@.len() as int),
        }),
{
    let c = match count {
        Some(v) => v,
        None => {
            return None;
        },
    };
    if c < 0 {
        return None;
    }
    if rows.len() as u64 != c as u64 {
        return None;
    }
    let mut cs: Vec<Candle> = Vec::new();
    let mut j: usize = 0;
    while j < rows.len()
        invariant
            j <= rows@.len(),
            cs@.len() == j,
            forall|k: int|
                0 <= k < j ==> (#[trigger] cs@[k])@ == candle_of_row(
                    rows@[k].ts_utc@,
                    rows@[k].open,
                    rows@[k].high,
                    rows@[k].low,
                    rows@[k].close,
                    rows@[k].volume,
                ),
        decreases rows@.len() - j,
    {
        cs.push(row_to_candle(&rows[j]));
        j = j + 1;
    }
    Some(cs)
}

/// Whether an indicator partition read counts as a hit: the stored count must
/// equal the caller's expected length exactly.
pub open spec fn indicator_hit(count: Option<i64>, expected: int) -> bool {
    match count {
        Some(v) => v == expected,
        None => false,
    }
}

/// Law: a stored count that disagrees with the expected length can never
/// validate into a hit, whatever rows exist.
pub proof fn lemma_count_mismatch_misses(count: Option<i64>, expected: int)
    requires
        (match count {
            Some(v) => v as int != expected,
            None => true,
        }),
    ensures
        !indicator_hit(count, expected),
{
}

/// The indicator partition guard: a stored count is a hit only when it
/// equals the caller's expected length exactly.
fn indicator_count_hit(count: Option<i64>, expected_len: usize) -> (r: bool)
    ensures
        r == indicator_hit(count, expected_len as int),
{
    match count {
        Some(v) => v >= 0 && (v as u64) == (expected_len as u64),
        None => false,
    }
}

/// The value of the assembled series at one index: the last stored pair for
/// that index wins; indices nothing was stored for stay empty.
pub open spec fn series_at(pairs: Seq<(i64, Option<u64>)>, i: int) -> Option<u64>
    decreases pairs.len(),
{
    if pairs.len() == 0 {
        None
    } else if pairs.last().0 == i {
        pairs.last().1
    } else {
        series_at(pairs.drop_last(), i)
    }
}

/// Builds an indicator series of exactly `len` slots from the stored
/// `(index, value)` pairs; out-of-range indices are ignored.
pub fn assemble_series(len: usize, pairs: &Vec<(i64, Option<u64>)>) -> (r: Vec<Option<u64>>)
    ensures
        r@.len() == len,
        forall|i: int| 0 <= i < len ==> r@[i] == series_at(pairs@, i),
{
    let mut r: Vec<Option<u64>> = Vec::new();
    let mut i: usize = 0;
    while i < len
        invariant
            i <= len,
            r@.len() == i,
            forall|k: int| 0 <= k < i ==> r@[k] is None,
        decreases len - i,
    {
        r.push(None);
        i = i + 1;
    }
    proof {
        assert forall|k: int| 0 <= k < len implies r@[k] == series_at(
            pairs@.subrange(0, 0),
            k,
        ) by {
            assert(pairs@.subrange(0, 0) =~= Seq::<(i64, Option<u64>)>::empty());
        }
    }
    let mut p: usize = 0;
    while p < pairs.len()
        invariant
            p <= pairs@.len(),
            r@.len() == len,
            forall|k: int| 0 <= k < len ==> r@[k] == series_at(pairs@.subrange(0, p as int), k),
        decreases pairs@.len() - p,
    {
        let (idx, value) = pairs[p];
        let ghost before = r@;
        let in_range = idx >= 0 && (idx as u64) < (len as u64);
        if in_range {
            r.set(idx as usize, value);
        }
        p = p + 1;
        proof {
            let sub = pairs@.subrange(0, p as int);
            assert(sub.drop_last() =~= pairs@.subrange(0, p as int - 1));
            assert(sub.last() == pairs@[p as int - 1]);
            assert forall|k: int| 0 <= k < len implies r@[k] == series_at(sub, k) by {
                if k == idx as int {
                    assert(in_range);
                    assert(r@[k] == value);
                } else {
                    assert(r@[k] == before[k]);
                    assert(sub.last().0 != k);
                }
            }
        }
    }
    proof {
        assert(pairs@.subrange(0, pairs@.len() as int) =~= pairs@);
    }
    r
}

fn rows_to_candles(rows: &Vec<CandleRow>) -> (cs: Vec<Candle>)
    ensures
        cs@.len() == rows@.len(),
        forall|j: int|
            0 <= j < cs@.len() ==> (#[trigger] cs@[j])@ == candle_of_row(
                rows@[j].ts_utc@,
                rows@[j].open,
                rows@[j].high,
                rows@[j].low,
                rows@[j].close,
                rows@[j].volume,
            ),
{
    let mut cs: Vec<Candle> = Vec::new();
    let mut j: usize = 0;
    while j < rows.len()
        invariant
            j <= rows@.len(),
            cs@.len() == j,
            forall|k: int|
                0 <= k < j ==> (#[trigger] cs@[k])@ == candle_of_row(
                    rows@[k].ts_utc@,
                    rows@[k].open,
                    rows@[k].high,
                    rows@[k].low,
                    rows@[k].close,
                    rows@[k].volume,
                ),
        decreases rows@.len() - j,
    {
        cs.push(row_to_candle(&rows[j]));
        j = j + 1;
    }
    cs
}

/// The per-identity cache store: one SQLite database holding the three
/// partitions of one file identity. The five price words of each candle are
/// stored as signed integers, so they survive the round trip bit for bit.
pub struct CacheStore {
    conn: rusqlite::Connection,
}

impl CacheStore {
    /// Opens, creating it when absent, the cache database at `path`.
    pub fn open(path: &str) -> (r: Result<CacheStore, EngineError>)
        ensures
            (match r {
                Ok(_) => true,
                Err(e) => e is CacheIoError,
            }),
    {
        match db_open(path) {
            Ok(conn) => Ok(CacheStore { conn }),
            Err(e) => Err(map_sql_err(e)),
        }
    }

    /// A store kept in memory, with no file behind it.
    pub fn in_memory() -> (r: Result<CacheStore, EngineError>)
        ensures
            (match r {
                Ok(_) => true,
                Err(e) => e is CacheIoError,
            }),
    {
        match db_open_in_memory() {
            Ok(conn) => Ok(CacheStore { conn }),
            Err(e) => Err(map_sql_err(e)),
        }
    }

    fn init_dataset(&self) -> (r: Result<(), EngineError>)
        ensures
            (match r {
                Ok(_) => true,
                Err(e) => e is CacheIoError,
            }),
    {
        let sql =
            "CREATE TABLE IF NOT EXISTS dataset_meta (source_path TEXT);\n         CREATE TABLE IF NOT EXISTS candles (ts_utc TEXT, open INTEGER, high INTEGER, low INTEGER, close INTEGER, volume INTEGER);";
        match db_exec_batch(&self.conn, sql) {
            Ok(_) => Ok(()),
            Err(e) => Err(map_sql_err(e)),
        }
    }

    fn init_resample(&self) -> (r: Result<(), EngineError>)
        ensures
            (match r {
                Ok(_) => true,
                Err(e) => e is CacheIoError,
            }),
    {
        let sql =
            "CREATE TABLE IF NOT EXISTS resample_meta (target TEXT PRIMARY KEY, count INTEGER);\nCREATE TABLE IF NOT EXISTS resample_candles (\n  target TEXT,\n  idx INTEGER,\n  ts_utc TEXT,\n  open INTEGER,\n  high INTEGER,\n  low INTEGER,\n  close INTEGER,\n  volume INTEGER\n);\nCREATE INDEX IF NOT EXISTS idx_resample_target_idx ON resample_candles(target, idx);";
        match db_exec_batch(&self.conn, sql) {
            Ok(_) => Ok(()),
            Err(e) => Err(map_sql_err(e)),
        }
    }

    fn init_indicator(&self) -> (r: Result<(), EngineError>)
        ensures
            (match r {
                Ok(_) => true,
                Err(e) => e is CacheIoError,
            }),
    {
        let sql =
            "CREATE TABLE IF NOT EXISTS indicator_meta (indicator TEXT PRIMARY KEY, count INTEGER);\nCREATE TABLE IF NOT EXISTS indicator_values (\n  indicator TEXT,\n  idx INTEGER,\n  value INTEGER\n);\nCREATE INDEX IF NOT EXISTS idx_indicator_idx ON indicator_values(indicator, idx);";
        match db_exec_batch(&self.conn, sql) {
            Ok(_) => Ok(()),
            Err(e) => Err(map_sql_err(e)),
        }
    }

    /// Replaces the dataset partition wholesale: the clear, the identity text
    /// and the full candle sequence all inside one transaction, so a reader
    /// never sees a half-written partition.
    pub fn save_to_cache(&self, dataset: &DataSet) -> (r: Result<(), EngineError>)
        ensures
            (match r {
                Ok(_) => true,
                Err(e) => e is CacheIoError,
            }),
    {
        self.init_dataset()?;
        if let Err(e) = db_exec_batch(&self.conn, "BEGIN;") {
            return Err(map_sql_err(e));
        }
        let no_args: Vec<SqlArg> = Vec::new();
        if let Err(e) = db_exec(&self.conn, "DELETE FROM dataset_meta", &no_args) {
            return Err(map_sql_err(e));
        }
        let meta_args = vec![SqlArg::Text(dataset.source_path.clone())];
        if let Err(e) = db_exec(
            &self.conn,
            "INSERT INTO dataset_meta (source_path) VALUES (?1)",
            &meta_args,
        ) {
            return Err(map_sql_err(e));
        }
        if let Err(e) = db_exec(&self.conn, "DELETE FROM candles", &no_args) {
            return Err(map_sql_err(e));
        }
        let mut i: usize = 0;
        while i < dataset.candles.len()
            decreases dataset.candles@.len() - i,
        {
            let row = candle_to_row(&dataset.candles[i]);
            let args = vec![
                SqlArg::Text(row.ts_utc),
                SqlArg::Int(row.open),
                SqlArg::Int(row.high),
                SqlArg::Int(row.low),
                SqlArg::Int(row.close),
                SqlArg::Int(row.volume),
            ];
            if let Err(e) = db_exec(
                &self.conn,
                "INSERT INTO candles (ts_utc, open, high, low, close, volume) VALUES (?1, ?2, ?3, ?4, ?5, ?6)",
                &args,
            ) {
                return Err(map_sql_err(e));
            }
            i = i + 1;
        }
        match db_exec_batch(&self.conn, "COMMIT;") {
            Ok(_) => Ok(()),
            Err(e) => Err(map_sql_err(e)),
        }
    }

    /// Reads the dataset partition back: the stored identity text and the
    /// candle rows in insertion order. A store without a dataset is an
    /// error, not a miss.
    pub fn load_from_cache(&self) -> (r: Result<DataSet, EngineError>)
        ensures
            (match r {
                Ok(_) => true,
                Err(e) => e is CacheIoError,
            }),
    {
        let source_path = match db_query_text(
            &self.conn,
            "SELECT source_path FROM dataset_meta LIMIT 1",
        ) {
            Ok(s) => s,
            Err(e) => {
                return Err(map_sql_err(e));
            },
        };
        let no_args: Vec<SqlArg> = Vec::new();
        let rows = match db_candle_rows(
            &self.conn,
            "SELECT ts_utc, open, high, low, close, volume FROM candles ORDER BY ROWID ASC",
            &no_args,
        ) {
            Ok(rows) => rows,
            Err(e) => {
                return Err(map_sql_err(e));
            },
        };
        let candles = rows_to_candles(&rows);
        Ok(DataSet { source_path, candles })
    }

    /// Replaces one interval's resample partition: the clear, its candle rows
    /// indexed from zero and its count record all inside one transaction;
    /// other intervals' entries stay untouched.
    pub fn save_resample_cache(&self, target: &str, dataset: &DataSet) -> (r: Result<
        (),
        EngineError,
    >)
        ensures
            (match r {
                Ok(_) => true,
                Err(e) => e is CacheIoError,
            }),
    {
        self.init_resample()?;
        if let Err(e) = db_exec_batch(&self.conn, "BEGIN;") {
            return Err(map_sql_err(e));
        }
        let key_args = vec![SqlArg::Text(String::from_str(target))];
        if let Err(e) = db_exec(
            &self.conn,
            "DELETE FROM resample_candles WHERE target = ?1",
            &key_args,
        ) {
            return Err(map_sql_err(e));
        }
        if let Err(e) = db_exec(&self.conn, "DELETE FROM resample_meta WHERE target = ?1", &key_args) {
            return Err(map_sql_err(e));
        }
        let mut i: usize = 0;
        while i < dataset.candles.len()
            decreases dataset.candles@.len() - i,
        {
            let row = candle_to_row(&dataset.candles[i]);
            let args = vec![
                SqlArg::Text(String::from_str(target)),
                SqlArg::Int(#[verifier::truncate] (i as i64)),
                SqlArg::Text(row.ts_utc),
                SqlArg::Int(row.open),
                SqlArg::Int(row.high),
                SqlArg::Int(row.low),
                SqlArg::Int(row.close),
                SqlArg::Int(row.volume),
            ];
            if let Err(e) = db_exec(
                &self.conn,
                "INSERT INTO resample_candles (target, idx, ts_utc, open, high, low, close, volume) VALUES (?1, ?2, ?3, ?4, ?5, ?6, ?7, ?8)",
                &args,
            ) {
                return Err(map_sql_err(e));
            }
            i = i + 1;
        }
        let meta_args = vec![
            SqlArg::Text(String::from_str(target)),
            SqlArg::Int(#[verifier::truncate] (dataset.candles.len() as i64)),
        ];
        if let Err(e) = db_exec(
            &self.conn,
            "INSERT INTO resample_meta (target, count) VALUES (?1, ?2)",
            &meta_args,
        ) {
            return Err(map_sql_err(e));
        }
        match db_exec_batch(&self.conn, "COMMIT;") {
            Ok(_) => Ok(()),
            Err(e) => Err(map_sql_err(e)),
        }
    }

    /// Reads one interval's resample partition: a hit only when the stored
    /// count exists and matches the rows retrieved, the empty sequence
    /// included; any disagreement is a miss. The returned dataset carries the
    /// caller's source path.
    pub fn load_resample_cache(&self, source_path: &str, target: &str) -> (r: Result<
        Option<DataSet>,
        EngineError,
    >)
        ensures
            (match r {
                Ok(Some(ds)) => ds.source_path@ == source_path@,
                Ok(None) => true,
                Err(e) => e is CacheIoError,
            }),
    {
        self.init_resample()?;
        let count = match db_query_count(
            &self.conn,
            "SELECT count FROM resample_meta WHERE target = ?1",
            target,
        ) {
            Ok(c) => c,
            Err(e) => {
                return Err(map_sql_err(e));
            },
        };
        if count.is_none() {
            return Ok(None);
        }
        let key_args = vec![SqlArg::Text(String::from_str(target))];
        let rows = match db_candle_rows(
            &self.conn,
            "SELECT ts_utc, open, high, low, close, volume FROM resample_candles WHERE target = ?1 ORDER BY idx ASC",
            &key_args,
        ) {
            Ok(rows) => rows,
            Err(e) => {
                return Err(map_sql_err(e));
            },
        };
        match validate_candle_rows(count, &rows) {
            Some(candles) => Ok(
                Some(DataSet { source_path: String::from_str(source_path), candles }),
            ),
            None => Ok(None),
        }
    }

    /// Replaces the named indicator series wholesale: each series' optional
    /// values indexed from zero plus its count record, all inside one
    /// transaction.
    pub fn save_indicator_cache(&self, indicators: &Vec<(String, Vec<Option<u64>>)>) -> (r: Result<
        (),
        EngineError,
    >)
        ensures
            (match r {
                Ok(_) => true,
                Err(e) => e is CacheIoError,
            }),
    {
        self.init_indicator()?;
        if let Err(e) = db_exec_batch(&self.conn, "BEGIN;") {
            return Err(map_sql_err(e));
        }
        let mut k: usize = 0;
        while k < indicators.len()
            decreases indicators@.len() - k,
        {
            let name: &String = &indicators[k].0;
            let key_args = vec![SqlArg::Text(name.clone())];
            if let Err(e) = db_exec(
                &self.conn,
                "DELETE FROM indicator_values WHERE indicator = ?1",
                &key_args,
            ) {
                return Err(map_sql_err(e));
            }
            if let Err(e) = db_exec(
                &self.conn,
                "DELETE FROM indicator_meta WHERE indicator = ?1",
                &key_args,
            ) {
                return Err(map_sql_err(e));
            }
            let series: &Vec<Option<u64>> = &indicators[k].1;
            let mut i: usize = 0;
            while i < series.len()
                decreases series@.len() - i,
            {
                let arg = match series[i] {
                    Some(bits) => SqlArg::Int(#[verifier::truncate] (bits as i64)),
                    None => SqlArg::Null,
                };
                let args = vec![
                    SqlArg::Text(name.clone()),
                    SqlArg::Int(#[verifier::truncate] (i as i64)),
                    arg,
                ];
                if let Err(e) = db_exec(
                    &self.conn,
                    "INSERT INTO indicator_values (indicator, idx, value) VALUES (?1, ?2, ?3)",
                    &args,
                ) {
                    return Err(map_sql_err(e));
                }
                i = i + 1;
            }
            let meta_args = vec![
                SqlArg::Text(name.clone()),
                SqlArg::Int(#[verifier::truncate] (series.len() as i64)),
            ];
            if let Err(e) = db_exec(
                &self.conn,
                "INSERT INTO indicator_meta (indicator, count) VALUES (?1, ?2)",
                &meta_args,
            ) {
                return Err(map_sql_err(e));
            }
            k = k + 1;
        }
        match db_exec_batch(&self.conn, "COMMIT;") {
            Ok(_) => Ok(()),
            Err(e) => Err(map_sql_err(e)),
        }
    }

    /// Reads the named indicator series, one per requested name: a hit only
    /// when every name's stored count equals `expected_len` exactly; any
    /// disagreement is a miss for the whole read. Each returned series has
    /// exactly `expected_len` slots.
    pub fn load_indicator_cache(&self, expected_len: usize, names: &Vec<String>) -> (r: Result<
        Option<Vec<Vec<Option<u64>>>>,
        EngineError,
    >)
        ensures
            (match r {
                Ok(Some(vs)) => vs@.len() == names@.len() && (forall|k: int|
                    0 <= k < vs@.len() ==> (#[trigger] vs@[k])@.len() == expected_len),
                Ok(None) => true,
                Err(e) => e is CacheIoError,
            }),
    {
        self.init_indicator()?;
        let mut out: Vec<Vec<Option<u64>>> = Vec::new();
        let mut k: usize = 0;
        while k < names.len()
            invariant
                k <= names@.len(),
                out@.len() == k,
                forall|j: int| 0 <= j < k ==> (#[trigger] out@[j])@.len() == expected_len,
            decreases names@.len() - k,
        {
            let name: &String = &names[k];
            let count = match db_query_count(
                &self.conn,
                "SELECT count FROM indicator_meta WHERE indicator = ?1",
                name.as_str(),
            ) {
                Ok(c) => c,
                Err(e) => {
                    return Err(map_sql_err(e));
                },
            };
            if !indicator_count_hit(count, expected_len) {
                return Ok(None);
            }
            let pairs = match db_value_rows(
                &self.conn,
                "SELECT idx, value FROM indicator_values WHERE indicator = ?1 ORDER BY idx ASC",
                name.as_str(),
            ) {
                Ok(p) => p,
                Err(e) => {
                    return Err(map_sql_err(e));
                },
            };
            let series = assemble_series(expected_len, &pairs);
            out.push(series);
            k = k + 1;
        }
        Ok(Some(out))
    }
}

} // verus!
