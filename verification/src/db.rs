//! Storage in SQLite: users, notes, their tags, uploaded files and the
//! rate-limit log.
//!
//! SQLite runs the statements; what the library owns is which statement runs
//! with which parameters, how the rows that come back are read, and what is
//! decided from them.  What SQLite returns depends on what the database holds,
//! so each answer is recorded against the statement and the parameters it
//! was given (`sqlite_query_answer`, `sqlite_execute_answer`): the contract
//! of each method names the statement it runs and says what it makes of the
//! answer, and the readers of rows, which take the answer as an argument,
//! say exactly what they make of it.
use vstd::prelude::*;
use vstd::utf8::{encode_utf8, valid_utf8};
use crate::auth::now_timestamp;
use crate::chars::{append_chars, chars_of, string_of};
use crate::num::{dec, dec_chars};
use rusqlite::types::{Value, ValueRef};

verus! {

// ---------------------------------------------------------------------------
// Values going in and coming out
// ---------------------------------------------------------------------------

/// A parameter bound to a statement.
#[derive(Debug)]
pub enum SqlParam {
    Null,
    Int(i64),
    Text(String),
}

/// A parameter as the contracts see it.
pub enum ParamView {
    Null,
    Int(int),
    Text(Seq<char>),
}

/// How a parameter reads in the contracts.
pub open spec fn param_view(p: SqlParam) -> ParamView {
    match p {
        SqlParam::Null => ParamView::Null,
        SqlParam::Int(i) => ParamView::Int(i as int),
        SqlParam::Text(s) => ParamView::Text(s@),
    }
}

/// The parameters of a statement as the contracts see them.
pub open spec fn param_views(params: Seq<SqlParam>) -> Seq<ParamView> {
    params.map_values(|p: SqlParam| param_view(p))
}

/// An integer parameter.
pub open spec fn int_p(i: i64) -> ParamView {
    ParamView::Int(i as int)
}

/// A text parameter.
pub open spec fn text_p(s: Seq<char>) -> ParamView {
    ParamView::Text(s)
}

/// A column of a row that SQLite returned: `NULL`, an integer, text (its
/// bytes), or a value of another type (a real or a blob).
#[derive(Debug)]
pub enum SqlValue {
    Null,
    Integer(i64),
    Text(Vec<u8>),
    Other,
}

/// Why a storage operation failed.
#[derive(Debug)]
pub enum DbError {
    /// SQLite refused the statement; its message.
    Sqlite(String),
    /// A column did not hold the type the row is read as.
    ColumnType,
    /// A text column was not UTF-8.
    Utf8,
}

impl DbError {
    /// Whether this is a violated `UNIQUE` constraint (a name already taken).
    pub fn is_unique_violation(&self) -> (res: bool)
        ensures
            res == (self matches DbError::Sqlite(m) && contains_unique(m@)),
    {
        match self {
            DbError::Sqlite(m) => {
                let v = chars_of(m.as_str());
                has_unique(&v)
            },
            _ => false,
        }
    }
}

/// `s` contains the word `UNIQUE`.
pub open spec fn contains_unique(s: Seq<char>) -> bool {
    exists|i: int|
        0 <= i && i + 6 <= s.len() && #[trigger] s.subrange(i, i + 6) == seq![
            'U',
            'N',
            'I',
            'Q',
            'U',
            'E',
        ]
}

fn has_unique(v: &Vec<char>) -> (res: bool)
    ensures
        res == contains_unique(v@),
{
    let w: [char; 6] = ['U', 'N', 'I', 'Q', 'U', 'E'];
    let mut i: usize = 0;
    while i <= v.len() && 6 <= v.len() - i
        invariant
            i <= v@.len(),
            w@ == seq!['U', 'N', 'I', 'Q', 'U', 'E'],
            forall|j: int|
                0 <= j < i && j + 6 <= v@.len() ==> #[trigger] v@.subrange(j, j + 6) != w@,
        decreases v.len() - i,
    {
        let mut k: usize = 0;
        let mut same = true;
        while k < 6
            invariant
                i + 6 <= v@.len(),
                i + 6 <= v.len(),
                w@ == seq!['U', 'N', 'I', 'Q', 'U', 'E'],
                k <= 6,
                same == (forall|j: int| 0 <= j < k ==> v@[i + j] == w@[j]),
            decreases 6 - k,
        {
            if v[i + k] != w[k] {
                same = false;
            }
            k = k + 1;
        }
        if same {
            assert(v@.subrange(i as int, i + 6) =~= w@);
            return true;
        }
        assert(v@.subrange(i as int, i + 6) != w@) by {
            let j = choose|j: int| 0 <= j < 6 && v@[i + j] != w@[j];
            assert(v@.subrange(i as int, i + 6)[j] == v@[i + j]);
        }
        i = i + 1;
    }
    false
}

// ---------------------------------------------------------------------------
// Outside calls
// ---------------------------------------------------------------------------

/// `rusqlite::Connection`.
#[verifier::external_type_specification]
#[verifier::external_body]
pub struct ExConnection(rusqlite::Connection);

/// `rusqlite::Error`.
#[verifier::external_type_specification]
#[verifier::external_body]
pub struct ExSqliteError(rusqlite::Error);

/// `rusqlite::Connection::open`: opens (creating it if needed) the database
/// at `path`; `:memory:` is a fresh database in memory.
#[verifier::external_body]
fn sqlite_open(path: &str) -> (res: Result<rusqlite::Connection, rusqlite::Error>) {
    rusqlite::Connection::open(path)
}

/// `rusqlite::Connection::execute_batch`: runs the statements of `sql`.
#[verifier::external_body]
fn sqlite_execute_batch(conn: &rusqlite::Connection, sql: &str) -> (res: Result<(), rusqlite::Error>) {
    conn.execute_batch(sql)
}

/// `rusqlite::types::Value`.
#[verifier::external_type_specification]
#[verifier::external_body]
pub struct ExSqliteValue(rusqlite::types::Value);

/// `rusqlite::types::ValueRef`.
#[verifier::external_type_specification]
#[verifier::external_body]
pub struct ExSqliteValueRef<'a>(rusqlite::types::ValueRef<'a>);

/// The parameters as `rusqlite` values (`Value::Null`, `Integer`, `Text`).
#[verifier::external_body]
fn sqlite_params(params: &[SqlParam]) -> Vec<Value> {
    params.iter().map(|p| match p {
        SqlParam::Null => Value::Null,
        SqlParam::Int(i) => Value::Integer(*i),
        SqlParam::Text(s) => Value::Text(s.clone()),
    }).collect()
}

/// A column of a `rusqlite` row as a value of the library (a real or a
/// blob as `Other`).
#[verifier::external_body]
fn column_value(v: ValueRef<'_>) -> SqlValue {
    match v {
        ValueRef::Null => SqlValue::Null,
        ValueRef::Integer(x) => SqlValue::Integer(x),
        ValueRef::Text(t) => SqlValue::Text(t.to_vec()),
        ValueRef::Real(_) | ValueRef::Blob(_) => SqlValue::Other,
    }
}

/// SQLite ran the statement `sql` with `params` and reported `answer`: the
/// number of rows changed, or `None` for a refusal.  It records what was
/// asked and what came back; it says nothing of how SQLite answers the same
/// statement another time, which depends on what the database holds.
pub uninterp spec fn sqlite_execute_answer(sql: Seq<char>, params: Seq<ParamView>, answer: Option<int>) -> bool;

/// SQLite ran the query `sql` with `params` and gave `answer`: the rows, or
/// `None` for a refusal.  It records what was asked and what came back; it
/// says nothing of how SQLite answers the same query another time, which
/// depends on what the database holds.
pub uninterp spec fn sqlite_query_answer(
    sql: Seq<char>,
    params: Seq<ParamView>,
    answer: Option<Seq<Vec<SqlValue>>>,
) -> bool;

/// `rusqlite::Connection::execute`: runs one statement with `params` bound
/// to `?1`, `?2`, ... and gives the number of rows it changed.  The answer is
/// recorded against the statement and its parameters.
#[verifier::external_body]
fn sqlite_execute(conn: &rusqlite::Connection, sql: &str, params: &[SqlParam]) -> (res: Result<
    usize,
    rusqlite::Error,
>)
    ensures
        res matches Ok(n) ==> sqlite_execute_answer(sql@, param_views(params@), Some(n as int)),
        res is Err ==> sqlite_execute_answer(sql@, param_views(params@), None),
{
    conn.execute(sql, rusqlite::params_from_iter(sqlite_params(params)))
}

/// `rusqlite::Connection::prepare` and `Statement::query`: runs a query with
/// `params` bound and gives every row, each column as a value.  The answer
/// is recorded against the query and its parameters.
#[verifier::external_body]
fn sqlite_query(conn: &rusqlite::Connection, sql: &str, params: &[SqlParam]) -> (res: Result<
    Vec<Vec<SqlValue>>,
    rusqlite::Error,
>)
    ensures
        res matches Ok(rows) ==> sqlite_query_answer(sql@, param_views(params@), Some(rows@)),
        res is Err ==> sqlite_query_answer(sql@, param_views(params@), None),
{
    let mut stmt = conn.prepare(sql)?;
    let n = stmt.column_count();
    let mut rows = stmt.query(rusqlite::params_from_iter(sqlite_params(params)))?;
    let mut out = Vec::new();
    while let Some(row) = rows.next()? {
        let mut cols = Vec::new();
        for i in 0..n {
            cols.push(column_value(row.get_ref(i)?));
        }
        out.push(cols);
    }
    Ok(out)
}

/// `rusqlite::Connection::last_insert_rowid`: the row id of the latest
/// successful `INSERT` on this connection.
#[verifier::external_body]
fn sqlite_last_insert_rowid(conn: &rusqlite::Connection) -> (res: i64) {
    conn.last_insert_rowid()
}

/// The message of a `rusqlite::Error` (its `Display`).
#[verifier::external_body]
fn sqlite_error_text(e: &rusqlite::Error) -> (res: String) {
    e.to_string()
}

/// `String::from_utf8`: the text whose UTF-8 encoding `bytes` are, when
/// they are valid UTF-8.
#[verifier::external_body]
fn utf8_text(bytes: Vec<u8>) -> (res: Option<String>)
    ensures
        res matches Some(s) ==> encode_utf8(s@) == bytes@,
        res is Some <==> valid_utf8(bytes@),
{
    String::from_utf8(bytes).ok()
}

/// A SQLite error as an error of the library.
fn sqlite_error(e: rusqlite::Error) -> (res: DbError)
    ensures
        res is Sqlite,
{
    DbError::Sqlite(sqlite_error_text(&e))
}

// ---------------------------------------------------------------------------
// Reading rows
// ---------------------------------------------------------------------------

/// The integer in column `i` of `row`, when it holds one.
pub open spec fn int_col(row: Seq<SqlValue>, i: int) -> Option<i64> {
    if 0 <= i < row.len() {
        match row[i] {
            SqlValue::Integer(x) => Some(x),
            _ => None,
        }
    } else {
        None
    }
}

/// The bytes of the text in column `i` of `row`, when it holds text.
pub open spec fn text_col(row: Seq<SqlValue>, i: int) -> Option<Seq<u8>> {
    if 0 <= i < row.len() {
        match row[i] {
            SqlValue::Text(b) => Some(b@),
            _ => None,
        }
    } else {
        None
    }
}

/// Column `i` of `row` holds text that is valid UTF-8.
pub open spec fn text_ok(row: Seq<SqlValue>, i: int) -> bool {
    text_col(row, i) matches Some(b) && valid_utf8(b)
}

/// Column `i` of `row` holds the text `t`.
pub open spec fn text_at(row: Seq<SqlValue>, i: int, t: Seq<char>) -> bool {
    text_col(row, i) == Some(encode_utf8(t))
}

/// Column `i` of `row` is `NULL`.
pub open spec fn null_at(row: Seq<SqlValue>, i: int) -> bool {
    0 <= i < row.len() && row[i] is Null
}

/// Column `i` of `row` can be read as optional text: `NULL` or UTF-8 text.
pub open spec fn opt_text_ok(row: Seq<SqlValue>, i: int) -> bool {
    null_at(row, i) || text_ok(row, i)
}

/// Column `i` of `row` holds the optional text `t`.
pub open spec fn opt_text_at(row: Seq<SqlValue>, i: int, t: Option<String>) -> bool {
    match t {
        Some(s) => text_at(row, i, s@),
        None => null_at(row, i),
    }
}

/// Column `i` of `row` read as an integer.
fn read_int(row: &Vec<SqlValue>, i: usize) -> (res: Result<i64, DbError>)
    ensures
        match res {
            Ok(x) => int_col(row@, i as int) == Some(x),
            Err(e) => int_col(row@, i as int) is None && e is ColumnType,
        },
{
    if i < row.len() {
        match &row[i] {
            SqlValue::Integer(x) => Ok(*x),
            _ => Err(DbError::ColumnType),
        }
    } else {
        Err(DbError::ColumnType)
    }
}

/// A copy of a byte vector.
fn copy_bytes(b: &Vec<u8>) -> (res: Vec<u8>)
    ensures
        res@ == b@,
{
    let mut out: Vec<u8> = Vec::new();
    let mut k: usize = 0;
    while k < b.len()
        invariant
            k <= b@.len(),
            out@ == b@.subrange(0, k as int),
        decreases b.len() - k,
    {
        out.push(b[k]);
        k = k + 1;
    }
    assert(b@.subrange(0, b@.len() as int) =~= b@);
    out
}

/// Column `i` of `row` read as text.
fn read_text(row: &Vec<SqlValue>, i: usize) -> (res: Result<String, DbError>)
    ensures
        match res {
            Ok(s) => text_at(row@, i as int, s@),
            Err(e) => !text_ok(row@, i as int) && (e is ColumnType <==> text_col(row@, i as int) is None),
        },
{
    if i < row.len() {
        match &row[i] {
            SqlValue::Text(b) => match utf8_text(copy_bytes(b)) {
                Some(s) => Ok(s),
                None => Err(DbError::Utf8),
            },
            _ => Err(DbError::ColumnType),
        }
    } else {
        Err(DbError::ColumnType)
    }
}

/// Column `i` of `row` read as optional text (`NULL` is `None`).
fn read_opt_text(row: &Vec<SqlValue>, i: usize) -> (res: Result<Option<String>, DbError>)
    ensures
        match res {
            Ok(t) => opt_text_at(row@, i as int, t),
            Err(_) => !opt_text_ok(row@, i as int),
        },
{
    if i < row.len() {
        if let SqlValue::Null = &row[i] {
            return Ok(None);
        }
    }
    match read_text(row, i) {
        Ok(s) => Ok(Some(s)),
        Err(e) => Err(e),
    }
}

/// A note as listed: id, title, content, visibility, creation time.
pub type MemoTuple = (i64, String, String, String, String);

/// `row` can be read as a note.
pub open spec fn memo_shape(row: Seq<SqlValue>) -> bool {
    int_col(row, 0) is Some && text_ok(row, 1) && text_ok(row, 2) && text_ok(row, 3) && text_ok(row, 4)
}

/// `row` holds the note `m`.
pub open spec fn memo_row(row: Seq<SqlValue>, m: MemoTuple) -> bool {
    &&& int_col(row, 0) == Some(m.0)
    &&& text_at(row, 1, m.1@)
    &&& text_at(row, 2, m.2@)
    &&& text_at(row, 3, m.3@)
    &&& text_at(row, 4, m.4@)
}

/// A row read as a note.
pub fn read_memo(row: &Vec<SqlValue>) -> (res: Result<MemoTuple, DbError>)
    ensures
        match res {
            Ok(m) => memo_row(row@, m),
            Err(_) => !memo_shape(row@),
        },
{
    let id = match read_int(row, 0) { Ok(x) => x, Err(e) => return Err(e) };
    let a = match read_text(row, 1) { Ok(x) => x, Err(e) => return Err(e) };
    let b = match read_text(row, 2) { Ok(x) => x, Err(e) => return Err(e) };
    let c = match read_text(row, 3) { Ok(x) => x, Err(e) => return Err(e) };
    let d = match read_text(row, 4) { Ok(x) => x, Err(e) => return Err(e) };
    Ok((id, a, b, c, d))
}

/// Every row that SQLite returned, read as notes.
pub fn read_memos(rows: &Vec<Vec<SqlValue>>) -> (res: Result<Vec<MemoTuple>, DbError>)
    ensures
        match res {
            Ok(v) => v@.len() == rows@.len() && forall|i: int|
                0 <= i < rows@.len() ==> memo_row(#[trigger] rows@[i]@, v@[i]),
            Err(_) => exists|i: int| 0 <= i < rows@.len() && !memo_shape(#[trigger] rows@[i]@),
        },
{
    let mut out: Vec<MemoTuple> = Vec::new();
    let mut k: usize = 0;
    while k < rows.len()
        invariant
            k <= rows@.len(),
            out@.len() == k,
            forall|i: int| 0 <= i < k ==> memo_row(#[trigger] rows@[i]@, out@[i]),
        decreases rows.len() - k,
    {
        match read_memo(&rows[k]) {
            Ok(m) => out.push(m),
            Err(e) => return Err(e),
        }
        k = k + 1;
    }
    Ok(out)
}

/// A user with the hash of their password: id, name, hash.
pub type UserAuthTuple = (i64, String, String);

/// `row` can be read as a user with a password hash.
pub open spec fn user_auth_shape(row: Seq<SqlValue>) -> bool {
    int_col(row, 0) is Some && text_ok(row, 1) && text_ok(row, 2)
}

/// `row` holds the user `u` with a password hash.
pub open spec fn user_auth_row(row: Seq<SqlValue>, u: UserAuthTuple) -> bool {
    int_col(row, 0) == Some(u.0) && text_at(row, 1, u.1@) && text_at(row, 2, u.2@)
}

/// A row read as a user with a password hash.
pub fn read_user_auth(row: &Vec<SqlValue>) -> (res: Result<UserAuthTuple, DbError>)
    ensures
        match res {
            Ok(u) => user_auth_row(row@, u),
            Err(_) => !user_auth_shape(row@),
        },
{
    let id = match read_int(row, 0) { Ok(x) => x, Err(e) => return Err(e) };
    let a = match read_text(row, 1) { Ok(x) => x, Err(e) => return Err(e) };
    let b = match read_text(row, 2) { Ok(x) => x, Err(e) => return Err(e) };
    Ok((id, a, b))
}

/// `row` can be read as an id and a text.
pub open spec fn id_text_shape(row: Seq<SqlValue>) -> bool {
    int_col(row, 0) is Some && text_ok(row, 1)
}

/// `row` holds the id and the text `u`.
pub open spec fn id_text_row(row: Seq<SqlValue>, u: (i64, String)) -> bool {
    int_col(row, 0) == Some(u.0) && text_at(row, 1, u.1@)
}

/// A row read as an id and a text (a user and their name, a file and its
/// stored name).
pub fn read_id_text(row: &Vec<SqlValue>) -> (res: Result<(i64, String), DbError>)
    ensures
        match res {
            Ok(u) => id_text_row(row@, u),
            Err(_) => !id_text_shape(row@),
        },
{
    let id = match read_int(row, 0) { Ok(x) => x, Err(e) => return Err(e) };
    let a = match read_text(row, 1) { Ok(x) => x, Err(e) => return Err(e) };
    Ok((id, a))
}

/// A shared note with its owner: id, title, content, visibility, password
/// hash, creation time, owner id, owner name.
pub type PublicMemoTuple = (i64, String, String, String, Option<String>, String, i64, String);

/// `row` can be read as a shared note.
pub open spec fn public_memo_shape(row: Seq<SqlValue>) -> bool {
    &&& int_col(row, 0) is Some
    &&& text_ok(row, 1) && text_ok(row, 2) && text_ok(row, 3)
    &&& opt_text_ok(row, 4)
    &&& text_ok(row, 5)
    &&& int_col(row, 6) is Some
    &&& text_ok(row, 7)
}

/// `row` holds the shared note `m`.
pub open spec fn public_memo_row(row: Seq<SqlValue>, m: PublicMemoTuple) -> bool {
    &&& int_col(row, 0) == Some(m.0)
    &&& text_at(row, 1, m.1@) && text_at(row, 2, m.2@) && text_at(row, 3, m.3@)
    &&& opt_text_at(row, 4, m.4)
    &&& text_at(row, 5, m.5@)
    &&& int_col(row, 6) == Some(m.6)
    &&& text_at(row, 7, m.7@)
}

/// A row read as a shared note.
pub fn read_public_memo(row: &Vec<SqlValue>) -> (res: Result<PublicMemoTuple, DbError>)
    ensures
        match res {
            Ok(m) => public_memo_row(row@, m),
            Err(_) => !public_memo_shape(row@),
        },
{
    let id = match read_int(row, 0) { Ok(x) => x, Err(e) => return Err(e) };
    let a = match read_text(row, 1) { Ok(x) => x, Err(e) => return Err(e) };
    let b = match read_text(row, 2) { Ok(x) => x, Err(e) => return Err(e) };
    let c = match read_text(row, 3) { Ok(x) => x, Err(e) => return Err(e) };
    let h = match read_opt_text(row, 4) { Ok(x) => x, Err(e) => return Err(e) };
    let d = match read_text(row, 5) { Ok(x) => x, Err(e) => return Err(e) };
    let o = match read_int(row, 6) { Ok(x) => x, Err(e) => return Err(e) };
    let n = match read_text(row, 7) { Ok(x) => x, Err(e) => return Err(e) };
    Ok((id, a, b, c, h, d, o, n))
}

/// An uploaded file: id, stored name, original name, MIME type, size.
pub type ResourceTuple = (i64, String, String, String, i64);

/// `row` can be read as a file.
pub open spec fn resource_shape(row: Seq<SqlValue>) -> bool {
    int_col(row, 0) is Some && text_ok(row, 1) && text_ok(row, 2) && text_ok(row, 3) && int_col(row, 4) is Some
}

/// `row` holds the file `r` (in its first five columns).
pub open spec fn resource_row(row: Seq<SqlValue>, r: ResourceTuple) -> bool {
    &&& int_col(row, 0) == Some(r.0)
    &&& text_at(row, 1, r.1@) && text_at(row, 2, r.2@) && text_at(row, 3, r.3@)
    &&& int_col(row, 4) == Some(r.4)
}

/// A row read as a file.
pub fn read_resource(row: &Vec<SqlValue>) -> (res: Result<ResourceTuple, DbError>)
    ensures
        match res {
            Ok(r) => resource_row(row@, r),
            Err(_) => !resource_shape(row@),
        },
{
    let id = match read_int(row, 0) { Ok(x) => x, Err(e) => return Err(e) };
    let a = match read_text(row, 1) { Ok(x) => x, Err(e) => return Err(e) };
    let b = match read_text(row, 2) { Ok(x) => x, Err(e) => return Err(e) };
    let c = match read_text(row, 3) { Ok(x) => x, Err(e) => return Err(e) };
    let n = match read_int(row, 4) { Ok(x) => x, Err(e) => return Err(e) };
    Ok((id, a, b, c, n))
}

/// A file with its owner: id, stored name, original name, MIME type, size,
/// owner id.
pub type PublicResourceTuple = (i64, String, String, String, i64, i64);

/// A listed file: id, stored name, original name, MIME type, size, upload
/// time.
pub type ResourceEntryTuple = (i64, String, String, String, i64, String);

/// A row read as a file with its owner (sixth column).
pub fn read_public_resource(row: &Vec<SqlValue>) -> (res: Result<PublicResourceTuple, DbError>)
    ensures
        match res {
            Ok(r) => resource_row(row@, (r.0, r.1, r.2, r.3, r.4)) && int_col(row@, 5) == Some(r.5),
            Err(_) => !(resource_shape(row@) && int_col(row@, 5) is Some),
        },
{
    let r = match read_resource(row) { Ok(x) => x, Err(e) => return Err(e) };
    let o = match read_int(row, 5) { Ok(x) => x, Err(e) => return Err(e) };
    Ok((r.0, r.1, r.2, r.3, r.4, o))
}

/// A row read as a listed file (upload time in the sixth column).
pub fn read_resource_entry(row: &Vec<SqlValue>) -> (res: Result<ResourceEntryTuple, DbError>)
    ensures
        match res {
            Ok(r) => resource_row(row@, (r.0, r.1, r.2, r.3, r.4)) && text_at(row@, 5, r.5@),
            Err(_) => !(resource_shape(row@) && text_ok(row@, 5)),
        },
{
    let r = match read_resource(row) { Ok(x) => x, Err(e) => return Err(e) };
    let t = match read_text(row, 5) { Ok(x) => x, Err(e) => return Err(e) };
    Ok((r.0, r.1, r.2, r.3, r.4, t))
}

/// Every row read as a listed file.
pub fn read_resource_entries(rows: &Vec<Vec<SqlValue>>) -> (res: Result<Vec<ResourceEntryTuple>, DbError>)
    ensures
        match res {
            Ok(v) => v@.len() == rows@.len() && forall|i: int|
                0 <= i < rows@.len() ==> resource_row(#[trigger] rows@[i]@, (v@[i].0, v@[i].1, v@[i].2, v@[i].3, v@[i].4))
                    && text_at(rows@[i]@, 5, v@[i].5@),
            Err(_) => exists|i: int|
                0 <= i < rows@.len() && !(resource_shape(#[trigger] rows@[i]@) && text_ok(rows@[i]@, 5)),
        },
{
    let mut out: Vec<ResourceEntryTuple> = Vec::new();
    let mut k: usize = 0;
    while k < rows.len()
        invariant
            k <= rows@.len(),
            out@.len() == k,
            forall|i: int|
                0 <= i < k ==> resource_row(#[trigger] rows@[i]@, (out@[i].0, out@[i].1, out@[i].2, out@[i].3, out@[i].4))
                    && text_at(rows@[i]@, 5, out@[i].5@),
        decreases rows.len() - k,
    {
        match read_resource_entry(&rows[k]) {
            Ok(m) => out.push(m),
            Err(e) => return Err(e),
        }
        k = k + 1;
    }
    Ok(out)
}

/// A note that mentions a file: id, visibility, owner.
pub type MemoRefTuple = (i64, String, i64);

/// `row` holds the mention `m`.
pub open spec fn memo_ref_row(row: Seq<SqlValue>, m: MemoRefTuple) -> bool {
    int_col(row, 0) == Some(m.0) && text_at(row, 1, m.1@) && int_col(row, 2) == Some(m.2)
}

/// Every row read as a mention of a file.
pub fn read_memo_refs(rows: &Vec<Vec<SqlValue>>) -> (res: Result<Vec<MemoRefTuple>, DbError>)
    ensures
        match res {
            Ok(v) => v@.len() == rows@.len() && forall|i: int|
                0 <= i < rows@.len() ==> memo_ref_row(#[trigger] rows@[i]@, v@[i]),
            Err(_) => exists|i: int|
                0 <= i < rows@.len() && !(int_col(#[trigger] rows@[i]@, 0) is Some && text_ok(rows@[i]@, 1)
                    && int_col(rows@[i]@, 2) is Some),
        },
{
    let mut out: Vec<MemoRefTuple> = Vec::new();
    let mut k: usize = 0;
    while k < rows.len()
        invariant
            k <= rows@.len(),
            out@.len() == k,
            forall|i: int| 0 <= i < k ==> memo_ref_row(#[trigger] rows@[i]@, out@[i]),
        decreases rows.len() - k,
    {
        let row = &rows[k];
        let id = match read_int(row, 0) { Ok(x) => x, Err(e) => return Err(e) };
        let v = match read_text(row, 1) { Ok(x) => x, Err(e) => return Err(e) };
        let o = match read_int(row, 2) { Ok(x) => x, Err(e) => return Err(e) };
        out.push((id, v, o));
        k = k + 1;
    }
    Ok(out)
}

/// Every row read as a tag and its count.
pub fn read_tag_counts(rows: &Vec<Vec<SqlValue>>) -> (res: Result<Vec<(String, i64)>, DbError>)
    ensures
        match res {
            Ok(v) => v@.len() == rows@.len() && forall|i: int|
                0 <= i < rows@.len() ==> text_at(#[trigger] rows@[i]@, 0, v@[i].0@) && int_col(rows@[i]@, 1)
                    == Some(v@[i].1),
            Err(_) => exists|i: int|
                0 <= i < rows@.len() && !(text_ok(#[trigger] rows@[i]@, 0) && int_col(rows@[i]@, 1) is Some),
        },
{
    let mut out: Vec<(String, i64)> = Vec::new();
    let mut k: usize = 0;
    while k < rows.len()
        invariant
            k <= rows@.len(),
            out@.len() == k,
            forall|i: int|
                0 <= i < k ==> text_at(#[trigger] rows@[i]@, 0, out@[i].0@) && int_col(rows@[i]@, 1) == Some(out@[i].1),
        decreases rows.len() - k,
    {
        let row = &rows[k];
        let t = match read_text(row, 0) { Ok(x) => x, Err(e) => return Err(e) };
        let n = match read_int(row, 1) { Ok(x) => x, Err(e) => return Err(e) };
        out.push((t, n));
        k = k + 1;
    }
    Ok(out)
}

/// Every row read as one text (its first column).
pub fn read_texts(rows: &Vec<Vec<SqlValue>>) -> (res: Result<Vec<String>, DbError>)
    ensures
        match res {
            Ok(v) => v@.len() == rows@.len() && forall|i: int|
                0 <= i < rows@.len() ==> text_at(#[trigger] rows@[i]@, 0, v@[i]@),
            Err(_) => exists|i: int| 0 <= i < rows@.len() && !text_ok(#[trigger] rows@[i]@, 0),
        },
{
    let mut out: Vec<String> = Vec::new();
    let mut k: usize = 0;
    while k < rows.len()
        invariant
            k <= rows@.len(),
            out@.len() == k,
            forall|i: int| 0 <= i < k ==> text_at(#[trigger] rows@[i]@, 0, out@[i]@),
        decreases rows.len() - k,
    {
        match read_text(&rows[k], 0) {
            Ok(t) => out.push(t),
            Err(e) => return Err(e),
        }
        k = k + 1;
    }
    Ok(out)
}

/// Whether a note has a password, from the row that says so: an integer
/// other than zero.  No row, or another value, counts as no password.
pub fn read_has_password(rows: &Vec<Vec<SqlValue>>) -> (res: bool)
    ensures
        res == (rows@.len() > 0 && (int_col(rows@[0]@, 0) matches Some(x) && x != 0)),
{
    if rows.len() == 0 {
        return false;
    }
    match read_int(&rows[0], 0) {
        Ok(x) => x != 0,
        Err(_) => false,
    }
}

/// Whether one more attempt fits under `limit` when `count` attempts were
/// made in the window.
pub open spec fn rate_allows(count: i64, limit: i64) -> bool {
    count < limit
}

/// The verdict of the rate limit from the row that counts the attempts in
/// the window; a count below zero, which SQLite never gives, is refused.
pub fn read_rate_verdict(rows: &Vec<Vec<SqlValue>>, limit: i64) -> (res: Result<bool, DbError>)
    ensures
        match res {
            Ok(b) => count_of(rows@) matches Some(c) && b == rate_allows(c, limit),
            Err(_) => count_of(rows@) is None,
        },
{
    if rows.len() == 0 {
        return Err(DbError::ColumnType);
    }
    match read_int(&rows[0], 0) {
        Ok(c) => if c >= 0 {
            Ok(c < limit)
        } else {
            Err(DbError::ColumnType)
        },
        Err(e) => Err(e),
    }
}

// ---------------------------------------------------------------------------
// Patterns for LIKE
// ---------------------------------------------------------------------------

/// `%q%`: text that contains `q`.
pub open spec fn contains_pattern(q: Seq<char>) -> Seq<char> {
    seq!['%'] + q + seq!['%']
}

/// `{:02}` of a month: at least two digits, zero padded.
pub open spec fn two_digits(m: int) -> Seq<char> {
    if m < 10 {
        seq!['0'] + dec(m)
    } else {
        dec(m)
    }
}

/// `<year>-<mm>-%`: times in that month.
pub open spec fn month_pattern(year: int, month: int) -> Seq<char> {
    dec(year) + seq!['-'] + two_digits(month) + seq!['-', '%']
}

/// `%q%` as a string.
pub fn like_contains(q: &str) -> (res: String)
    ensures
        res@ == contains_pattern(q@),
{
    let mut v: Vec<char> = vec!['%'];
    let w = chars_of(q);
    append_chars(&mut v, w.as_slice());
    v.push('%');
    assert(v@ =~= contains_pattern(q@));
    string_of(v.as_slice())
}

/// `<year>-<mm>-%` as a string.
pub fn like_month(year: i32, month: u32) -> (res: String)
    ensures
        res@ == month_pattern(year as int, month as int),
{
    let mut v = dec_chars(year as i64);
    v.push('-');
    if month < 10 {
        v.push('0');
    }
    let m = dec_chars(month as i64);
    append_chars(&mut v, m.as_slice());
    v.push('-');
    v.push('%');
    assert(v@ =~= month_pattern(year as int, month as int));
    string_of(v.as_slice())
}

/// A string's copy, as a text parameter.
fn text_param(s: &str) -> (res: SqlParam)
    ensures
        res matches SqlParam::Text(t) && t@ == s@,
{
    SqlParam::Text(s.to_owned())
}

// ---------------------------------------------------------------------------
// What was handed to SQLite and what came back
// ---------------------------------------------------------------------------

/// `res` is what a change gives when SQLite ran `sql` with `params`: done,
/// or SQLite's refusal.
pub open spec fn ran(sql: Seq<char>, params: Seq<ParamView>, res: Result<(), DbError>) -> bool {
    match res {
        Ok(_) => exists|n: int| #[trigger] sqlite_execute_answer(sql, params, Some(n)),
        Err(e) => e is Sqlite && sqlite_execute_answer(sql, params, None),
    }
}

/// `res` is what an insertion gives when SQLite ran `sql` with `params`: a
/// row id (SQLite's latest), or SQLite's refusal.
pub open spec fn inserted(sql: Seq<char>, params: Seq<ParamView>, res: Result<i64, DbError>) -> bool {
    match res {
        Ok(_) => exists|n: int| #[trigger] sqlite_execute_answer(sql, params, Some(n)),
        Err(e) => e is Sqlite && sqlite_execute_answer(sql, params, None),
    }
}

// ---------------------------------------------------------------------------
// The statements
// ---------------------------------------------------------------------------

pub const SQL_CREATE_USER: &'static str = "INSERT INTO users (username, password_hash) VALUES (?1, ?2)";
pub const SQL_USER_BY_NAME: &'static str = "SELECT id, username, password_hash FROM users WHERE username = ?1";
pub const SQL_USER_BY_ID: &'static str = "SELECT id, username FROM users WHERE id = ?1";
pub const SQL_CREATE_MEMO: &'static str = "INSERT INTO memos (user_id, title, content, visibility, password_hash) VALUES (?1, ?2, ?3, ?4, ?5)";
pub const SQL_MEMOS: &'static str = "SELECT id, title, content, visibility, created_at FROM memos WHERE user_id = ?1 ORDER BY created_at DESC";
pub const SQL_MEMO_BY_ID: &'static str = "SELECT id, title, content, visibility, created_at FROM memos WHERE id = ?1 AND user_id = ?2";
pub const SQL_MEMO_HAS_PASSWORD: &'static str = "SELECT password_hash IS NOT NULL AND password_hash != '' FROM memos WHERE id = ?1 AND user_id = ?2";
pub const SQL_MEMO_PUBLIC: &'static str = "SELECT m.id, m.title, m.content, m.visibility, m.password_hash, m.created_at, m.user_id, u.username FROM memos m JOIN users u ON m.user_id = u.id WHERE m.id = ?1";
pub const SQL_SIDEBAR_MEMOS: &'static str = "SELECT id, title, content, visibility, created_at FROM memos WHERE user_id = ?1 ORDER BY created_at DESC LIMIT ?2";
pub const SQL_MEMOS_PAGE: &'static str = "SELECT id, title, content, visibility, created_at FROM memos WHERE user_id = ?1 ORDER BY created_at DESC LIMIT ?2 OFFSET ?3";
pub const SQL_RESOURCES_PAGE: &'static str = "SELECT id, filename, original_name, mime_type, size, created_at FROM resources WHERE user_id = ?1 ORDER BY created_at DESC LIMIT ?2 OFFSET ?3";
pub const SQL_SEARCH_MEMOS: &'static str = "SELECT id, title, content, visibility, created_at FROM memos WHERE user_id = ?1 AND (title LIKE ?2 OR content LIKE ?2) ORDER BY created_at DESC";
pub const SQL_MEMOS_BY_DATE: &'static str = "SELECT id, title, content, visibility, created_at FROM memos WHERE user_id = ?1 AND date(created_at) = ?2 ORDER BY created_at DESC";
pub const SQL_MEMOS_BY_TAG: &'static str = "SELECT m.id, m.title, m.content, m.visibility, m.created_at FROM memos m JOIN memo_tags t ON m.id = t.memo_id WHERE m.user_id = ?1 AND t.tag = ?2 ORDER BY m.created_at DESC";
pub const SQL_DATES_IN_MONTH: &'static str = "SELECT DISTINCT date(created_at) FROM memos WHERE user_id = ?1 AND created_at LIKE ?2";
pub const SQL_DATES_IN_MONTH_FOR_QUERY: &'static str = "SELECT DISTINCT date(created_at) FROM memos WHERE user_id = ?1 AND created_at LIKE ?2 AND (title LIKE ?3 OR content LIKE ?3)";
pub const SQL_DELETE_TAGS: &'static str = "DELETE FROM memo_tags WHERE memo_id = ?1";
pub const SQL_INSERT_TAG: &'static str = "INSERT OR IGNORE INTO memo_tags (memo_id, tag) VALUES (?1, ?2)";
pub const SQL_USER_TAGS: &'static str = "SELECT t.tag, COUNT(*) as cnt FROM memo_tags t JOIN memos m ON t.memo_id = m.id WHERE m.user_id = ?1 GROUP BY t.tag ORDER BY cnt DESC, t.tag ASC";
pub const SQL_UPDATE_MEMO: &'static str = "UPDATE memos SET content = ?1 WHERE id = ?2 AND user_id = ?3";
pub const SQL_UPDATE_VISIBILITY: &'static str = "UPDATE memos SET visibility = ?1, password_hash = ?2 WHERE id = ?3 AND user_id = ?4";
pub const SQL_DELETE_MEMO: &'static str = "DELETE FROM memos WHERE id = ?1 AND user_id = ?2";
pub const SQL_CREATE_RESOURCE: &'static str = "INSERT INTO resources (user_id, filename, original_name, mime_type, size) VALUES (?1, ?2, ?3, ?4, ?5)";
pub const SQL_RESOURCE: &'static str = "SELECT id, filename, original_name, mime_type, size FROM resources WHERE id = ?1 AND user_id = ?2";
pub const SQL_RESOURCE_BY_NAME: &'static str = "SELECT id, filename FROM resources WHERE user_id = ?1 AND original_name = ?2 ORDER BY id DESC LIMIT 1";
pub const SQL_DELETE_RESOURCE: &'static str = "DELETE FROM resources WHERE id = ?1 AND user_id = ?2";
pub const SQL_RESOURCE_PUBLIC: &'static str = "SELECT id, filename, original_name, mime_type, size, user_id FROM resources WHERE id = ?1";
pub const SQL_MEMOS_REFERENCING: &'static str = "SELECT id, visibility, user_id FROM memos WHERE content LIKE ?1";
pub const SQL_MEMO_TAGS: &'static str = "SELECT tag FROM memo_tags WHERE memo_id = ?1 ORDER BY tag ASC";
pub const SQL_RATE_PRUNE: &'static str = "DELETE FROM rate_limits WHERE timestamp < ?1";
pub const SQL_RATE_COUNT: &'static str = "SELECT COUNT(*) FROM rate_limits WHERE key = ?1 AND action = ?2 AND timestamp >= ?3";
pub const SQL_RATE_RECORD: &'static str = "INSERT INTO rate_limits (key, action, timestamp) VALUES (?1, ?2, ?3)";

/// An optional text parameter (`NULL` when absent).
pub open spec fn opt_p(t: Option<&str>) -> ParamView {
    match t {
        Some(s) => ParamView::Text(s@),
        None => ParamView::Null,
    }
}

// ---------------------------------------------------------------------------
// What the methods make of SQLite's answers
// ---------------------------------------------------------------------------

/// `res` is what `read_memos` makes of `rows`.
pub open spec fn memos_read(rows: Seq<Vec<SqlValue>>, res: Result<Vec<MemoTuple>, DbError>) -> bool {
    match res {
        Ok(v) => v@.len() == rows.len() && forall|i: int| 0 <= i < rows.len() ==> memo_row(#[trigger] rows[i]@, v@[i]),
        Err(_) => exists|i: int| 0 <= i < rows.len() && !memo_shape(#[trigger] rows[i]@),
    }
}

/// `res` is what a list of notes gives when SQLite was asked `sql` with
/// `params`: its refusal, or the notes read from the rows it gave.
pub open spec fn memos_answer(sql: Seq<char>, params: Seq<ParamView>, res: Result<Vec<MemoTuple>, DbError>) -> bool {
    ||| res is Err && sqlite_query_answer(sql, params, None)
    ||| exists|rows: Seq<Vec<SqlValue>>| #[trigger] sqlite_query_answer(sql, params, Some(rows)) && memos_read(rows, res)
}

/// `res` is what `read_resource_entries` makes of `rows`.
pub open spec fn entries_read(rows: Seq<Vec<SqlValue>>, res: Result<Vec<ResourceEntryTuple>, DbError>) -> bool {
    match res {
        Ok(v) => v@.len() == rows.len() && forall|i: int|
            0 <= i < rows.len() ==> resource_row(#[trigger] rows[i]@, (v@[i].0, v@[i].1, v@[i].2, v@[i].3, v@[i].4))
                && text_at(rows[i]@, 5, v@[i].5@),
        Err(_) => exists|i: int| 0 <= i < rows.len() && !(resource_shape(#[trigger] rows[i]@) && text_ok(rows[i]@, 5)),
    }
}

/// `res` is what a list of files gives when SQLite was asked `sql` with
/// `params`.
pub open spec fn entries_answer(
    sql: Seq<char>,
    params: Seq<ParamView>,
    res: Result<Vec<ResourceEntryTuple>, DbError>,
) -> bool {
    ||| res is Err && sqlite_query_answer(sql, params, None)
    ||| exists|rows: Seq<Vec<SqlValue>>| #[trigger] sqlite_query_answer(sql, params, Some(rows)) && entries_read(rows, res)
}

/// `res` is what `read_memo_refs` makes of `rows`.
pub open spec fn refs_read(rows: Seq<Vec<SqlValue>>, res: Result<Vec<MemoRefTuple>, DbError>) -> bool {
    match res {
        Ok(v) => v@.len() == rows.len() && forall|i: int| 0 <= i < rows.len() ==> memo_ref_row(#[trigger] rows[i]@, v@[i]),
        Err(_) => exists|i: int|
            0 <= i < rows.len() && !(int_col(#[trigger] rows[i]@, 0) is Some && text_ok(rows[i]@, 1) && int_col(rows[i]@, 2) is Some),
    }
}

/// `res` is what a list of mentions gives when SQLite was asked `sql` with
/// `params`.
pub open spec fn refs_answer(sql: Seq<char>, params: Seq<ParamView>, res: Result<Vec<MemoRefTuple>, DbError>) -> bool {
    ||| res is Err && sqlite_query_answer(sql, params, None)
    ||| exists|rows: Seq<Vec<SqlValue>>| #[trigger] sqlite_query_answer(sql, params, Some(rows)) && refs_read(rows, res)
}

/// `res` is what `read_tag_counts` makes of `rows`.
pub open spec fn tag_counts_read(rows: Seq<Vec<SqlValue>>, res: Result<Vec<(String, i64)>, DbError>) -> bool {
    match res {
        Ok(v) => v@.len() == rows.len() && forall|i: int|
            0 <= i < rows.len() ==> text_at(#[trigger] rows[i]@, 0, v@[i].0@) && int_col(rows[i]@, 1) == Some(v@[i].1),
        Err(_) => exists|i: int| 0 <= i < rows.len() && !(text_ok(#[trigger] rows[i]@, 0) && int_col(rows[i]@, 1) is Some),
    }
}

/// `res` is what a list of tags and counts gives when SQLite was asked
/// `sql` with `params`.
pub open spec fn tag_counts_answer(
    sql: Seq<char>,
    params: Seq<ParamView>,
    res: Result<Vec<(String, i64)>, DbError>,
) -> bool {
    ||| res is Err && sqlite_query_answer(sql, params, None)
    ||| exists|rows: Seq<Vec<SqlValue>>| #[trigger] sqlite_query_answer(sql, params, Some(rows)) && tag_counts_read(rows, res)
}

/// `res` is what `read_texts` makes of `rows`.
pub open spec fn texts_read(rows: Seq<Vec<SqlValue>>, res: Result<Vec<String>, DbError>) -> bool {
    match res {
        Ok(v) => v@.len() == rows.len() && forall|i: int| 0 <= i < rows.len() ==> text_at(#[trigger] rows[i]@, 0, v@[i]@),
        Err(_) => exists|i: int| 0 <= i < rows.len() && !text_ok(#[trigger] rows[i]@, 0),
    }
}

/// `res` is what a list of texts gives when SQLite was asked `sql` with
/// `params`.
pub open spec fn texts_answer(sql: Seq<char>, params: Seq<ParamView>, res: Result<Vec<String>, DbError>) -> bool {
    ||| res is Err && sqlite_query_answer(sql, params, None)
    ||| exists|rows: Seq<Vec<SqlValue>>| #[trigger] sqlite_query_answer(sql, params, Some(rows)) && texts_read(rows, res)
}

/// The tags the store gave (none when it failed).
pub open spec fn texts_of(res: Result<Vec<String>, DbError>) -> Seq<String> {
    match res {
        Ok(v) => v@,
        Err(_) => Seq::empty(),
    }
}

/// What the store gives when asked for the tags of note `id`.
pub open spec fn memo_tags_answer(id: i64, res: Result<Vec<String>, DbError>) -> bool {
    texts_answer(SQL_MEMO_TAGS@, seq![int_p(id)], res)
}

/// `res` is the user named `name` read from the first of `rows`, when it is
/// one and has that name.
pub open spec fn user_by_name_read(rows: Seq<Vec<SqlValue>>, name: Seq<char>, res: Result<Option<UserAuthTuple>, DbError>) -> bool {
    match res {
        Ok(Some(u)) => rows.len() > 0 && user_auth_row(rows[0]@, u) && u.1@ == name,
        Ok(None) => rows.len() == 0 || (exists|u: UserAuthTuple| user_auth_row(rows[0]@, u) && u.1@ != name),
        Err(_) => rows.len() > 0 && !user_auth_shape(rows[0]@),
    }
}

/// `res` is what looking up the user named `name` gives.
pub open spec fn user_by_name_answer(name: Seq<char>, res: Result<Option<UserAuthTuple>, DbError>) -> bool {
    user_by_name_answer_to(SQL_USER_BY_NAME@, seq![text_p(name)], name, res)
}

/// The same, for the statement `sql` with `params`.
pub open spec fn user_by_name_answer_to(
    sql: Seq<char>,
    params: Seq<ParamView>,
    name: Seq<char>, res: Result<Option<UserAuthTuple>, DbError>) -> bool {
    ||| res is Err && sqlite_query_answer(sql, params, None)
    ||| exists|rows: Seq<Vec<SqlValue>>|
        #[trigger] sqlite_query_answer(sql, params, Some(rows)) && user_by_name_read(rows, name, res)
}

/// `res` is the id and text with id `id` read from the first of `rows`,
/// when it is one and has that id.
pub open spec fn id_text_by_id_read(rows: Seq<Vec<SqlValue>>, id: i64, res: Result<Option<(i64, String)>, DbError>) -> bool {
    match res {
        Ok(Some(u)) => rows.len() > 0 && id_text_row(rows[0]@, u) && u.0 == id,
        Ok(None) => rows.len() == 0 || (int_col(rows[0]@, 0) matches Some(x) && x != id),
        Err(_) => rows.len() > 0 && !id_text_shape(rows[0]@),
    }
}

/// `res` is what looking up user `id` gives.
pub open spec fn user_by_id_answer(id: i64, res: Result<Option<(i64, String)>, DbError>) -> bool {
    user_by_id_answer_to(SQL_USER_BY_ID@, seq![int_p(id)], id, res)
}

/// The same, for the statement `sql` with `params`.
pub open spec fn user_by_id_answer_to(
    sql: Seq<char>,
    params: Seq<ParamView>,
    id: i64, res: Result<Option<(i64, String)>, DbError>) -> bool {
    ||| res is Err && sqlite_query_answer(sql, params, None)
    ||| exists|rows: Seq<Vec<SqlValue>>|
        #[trigger] sqlite_query_answer(sql, params, Some(rows)) && id_text_by_id_read(rows, id, res)
}

/// `res` is the note with id `id` read from the first of `rows`, when it is
/// one and has that id.
pub open spec fn memo_by_id_read(rows: Seq<Vec<SqlValue>>, id: i64, res: Result<Option<MemoTuple>, DbError>) -> bool {
    match res {
        Ok(Some(m)) => rows.len() > 0 && memo_row(rows[0]@, m) && m.0 == id,
        Ok(None) => rows.len() == 0 || (int_col(rows[0]@, 0) matches Some(x) && x != id),
        Err(_) => rows.len() > 0 && !memo_shape(rows[0]@),
    }
}

/// `res` is what looking up note `id` of user `user_id` gives.
pub open spec fn memo_by_id_answer(id: i64, user_id: i64, res: Result<Option<MemoTuple>, DbError>) -> bool {
    memo_by_id_answer_to(SQL_MEMO_BY_ID@, seq![int_p(id), int_p(user_id)], id, res)
}

/// The same, for the statement `sql` with `params`.
pub open spec fn memo_by_id_answer_to(
    sql: Seq<char>,
    params: Seq<ParamView>,
    id: i64, res: Result<Option<MemoTuple>, DbError>) -> bool {
    ||| res is Err && sqlite_query_answer(sql, params, None)
    ||| exists|rows: Seq<Vec<SqlValue>>|
        #[trigger] sqlite_query_answer(sql, params, Some(rows))
            && memo_by_id_read(rows, id, res)
}

/// `res` is what asking whether note `id` of user `user_id` has a password
/// gives: `false` on a refusal, else what the first row says.
pub open spec fn has_password_answer(id: i64, user_id: i64, res: bool) -> bool {
    has_password_answer_to(SQL_MEMO_HAS_PASSWORD@, seq![int_p(id), int_p(user_id)], res)
}

/// The same, for the statement `sql` with `params`.
pub open spec fn has_password_answer_to(
    sql: Seq<char>,
    params: Seq<ParamView>,
    res: bool) -> bool {
    ||| !res && sqlite_query_answer(sql, params, None)
    ||| exists|rows: Seq<Vec<SqlValue>>|
        #[trigger] sqlite_query_answer(sql, params, Some(rows))
            && res == (rows.len() > 0 && (int_col(rows[0]@, 0) matches Some(x) && x != 0))
}

/// `res` is the shared note with id `id` read from the first of `rows`,
/// when it is one and has that id.
pub open spec fn memo_public_read(rows: Seq<Vec<SqlValue>>, id: i64, res: Result<Option<PublicMemoTuple>, DbError>) -> bool {
    match res {
        Ok(Some(m)) => rows.len() > 0 && public_memo_row(rows[0]@, m) && m.0 == id,
        Ok(None) => rows.len() == 0 || (int_col(rows[0]@, 0) matches Some(x) && x != id),
        Err(_) => rows.len() > 0 && !public_memo_shape(rows[0]@),
    }
}

/// `res` is what looking up the shared note `id` gives.
pub open spec fn memo_public_answer(id: i64, res: Result<Option<PublicMemoTuple>, DbError>) -> bool {
    memo_public_answer_to(SQL_MEMO_PUBLIC@, seq![int_p(id)], id, res)
}

/// The same, for the statement `sql` with `params`.
pub open spec fn memo_public_answer_to(
    sql: Seq<char>,
    params: Seq<ParamView>,
    id: i64, res: Result<Option<PublicMemoTuple>, DbError>) -> bool {
    ||| res is Err && sqlite_query_answer(sql, params, None)
    ||| exists|rows: Seq<Vec<SqlValue>>|
        #[trigger] sqlite_query_answer(sql, params, Some(rows)) && memo_public_read(rows, id, res)
}

/// `res` is the file with id `id` read from the first of `rows`, when it is
/// one and has that id.
pub open spec fn resource_read(rows: Seq<Vec<SqlValue>>, id: i64, res: Result<Option<ResourceTuple>, DbError>) -> bool {
    match res {
        Ok(Some(r)) => rows.len() > 0 && resource_row(rows[0]@, r) && r.0 == id,
        Ok(None) => rows.len() == 0 || (int_col(rows[0]@, 0) matches Some(x) && x != id),
        Err(_) => rows.len() > 0 && !resource_shape(rows[0]@),
    }
}

/// `res` is what looking up file `id` of user `user_id` gives.
pub open spec fn resource_answer(id: i64, user_id: i64, res: Result<Option<ResourceTuple>, DbError>) -> bool {
    resource_answer_to(SQL_RESOURCE@, seq![int_p(id), int_p(user_id)], id, res)
}

/// The same, for the statement `sql` with `params`.
pub open spec fn resource_answer_to(
    sql: Seq<char>,
    params: Seq<ParamView>,
    id: i64, res: Result<Option<ResourceTuple>, DbError>) -> bool {
    ||| res is Err && sqlite_query_answer(sql, params, None)
    ||| exists|rows: Seq<Vec<SqlValue>>|
        #[trigger] sqlite_query_answer(sql, params, Some(rows))
            && resource_read(rows, id, res)
}

/// `res` is the file with id `id` and its owner read from the first of
/// `rows`, when it is one and has that id.
pub open spec fn resource_public_read(rows: Seq<Vec<SqlValue>>, id: i64, res: Result<Option<PublicResourceTuple>, DbError>) -> bool {
    match res {
        Ok(Some(r)) => rows.len() > 0 && resource_row(rows[0]@, (r.0, r.1, r.2, r.3, r.4)) && int_col(rows[0]@, 5)
            == Some(r.5) && r.0 == id,
        Ok(None) => rows.len() == 0 || (int_col(rows[0]@, 0) matches Some(x) && x != id),
        Err(_) => rows.len() > 0 && !(resource_shape(rows[0]@) && int_col(rows[0]@, 5) is Some),
    }
}

/// `res` is what looking up file `id` with its owner gives.
pub open spec fn resource_public_answer(id: i64, res: Result<Option<PublicResourceTuple>, DbError>) -> bool {
    resource_public_answer_to(SQL_RESOURCE_PUBLIC@, seq![int_p(id)], id, res)
}

/// The same, for the statement `sql` with `params`.
pub open spec fn resource_public_answer_to(
    sql: Seq<char>,
    params: Seq<ParamView>,
    id: i64, res: Result<Option<PublicResourceTuple>, DbError>) -> bool {
    ||| res is Err && sqlite_query_answer(sql, params, None)
    ||| exists|rows: Seq<Vec<SqlValue>>|
        #[trigger] sqlite_query_answer(sql, params, Some(rows))
            && resource_public_read(rows, id, res)
}

/// `res` is what looking up user `user_id`'s latest file named `name`
/// gives: its id and stored name from the first row.
pub open spec fn resource_by_name_answer(user_id: i64, name: Seq<char>, res: Result<Option<(i64, String)>, DbError>) -> bool {
    resource_by_name_answer_to(SQL_RESOURCE_BY_NAME@, seq![int_p(user_id), text_p(name)], res)
}

/// The same, for the statement `sql` with `params`.
pub open spec fn resource_by_name_answer_to(
    sql: Seq<char>,
    params: Seq<ParamView>,
    res: Result<Option<(i64, String)>, DbError>) -> bool {
    ||| res is Err && sqlite_query_answer(sql, params, None)
    ||| exists|rows: Seq<Vec<SqlValue>>|
        #[trigger] sqlite_query_answer(sql, params, Some(rows))
            && match res {
            Ok(Some(u)) => rows.len() > 0 && id_text_row(rows[0]@, u),
            Ok(None) => rows.len() == 0,
            Err(_) => rows.len() > 0 && !id_text_shape(rows[0]@),
        }
}

/// SQLite ran `sql` with `params` and did not refuse it.
pub open spec fn executed(sql: Seq<char>, params: Seq<ParamView>) -> bool {
    exists|n: int| #[trigger] sqlite_execute_answer(sql, params, Some(n))
}

/// SQLite inserted the tag `tag` of note `memo_id`.
pub open spec fn tag_inserted(memo_id: i64, tag: Seq<char>) -> bool {
    executed(SQL_INSERT_TAG@, seq![int_p(memo_id), text_p(tag)])
}

/// SQLite deleted the tags of note `memo_id`, then inserted each of `tags`.
pub open spec fn tags_set(memo_id: i64, tags: Seq<String>) -> bool {
    &&& executed(SQL_DELETE_TAGS@, seq![int_p(memo_id)])
    &&& forall|j: int| 0 <= j < tags.len() ==> #[trigger] tag_inserted(memo_id, tags[j]@)
}

/// The number of attempts the first of `rows` counts, when it is a count.
pub open spec fn count_of(rows: Seq<Vec<SqlValue>>) -> Option<i64> {
    if rows.len() > 0 && (int_col(rows[0]@, 0) matches Some(c) && c >= 0) {
        int_col(rows[0]@, 0)
    } else {
        None
    }
}

/// `res` is what the rate limit of `action` by `key` gives at time `now`,
/// at most `limit` attempts since `window_start`: the entries older than
/// the window are deleted, the attempts of `key` and `action` since then are
/// counted, and one more is allowed, and recorded at `now`, exactly when
/// that count is under `limit`; an error when SQLite refuses a step or the
/// count cannot be read.
pub open spec fn rate_answer(
    key: Seq<char>,
    action: Seq<char>,
    limit: i64,
    window_start: int,
    now: int,
    res: Result<bool, DbError>,
) -> bool {
    rate_steps(
        seq![ParamView::Int(window_start)],
        seq![text_p(key), text_p(action), ParamView::Int(window_start)],
        seq![text_p(key), text_p(action), ParamView::Int(now)],
        limit,
        res,
    )
}

/// `res` is what the rate limit gives when the old entries are deleted with
/// `prune`, the attempts counted with `count` and the new one recorded with
/// `record` (the parameters of the three statements).
pub open spec fn rate_steps(
    prune: Seq<ParamView>,
    count: Seq<ParamView>,
    record: Seq<ParamView>,
    limit: i64,
    res: Result<bool, DbError>,
) -> bool {
    match res {
        Ok(b) => {
            &&& executed(SQL_RATE_PRUNE@, prune)
            &&& exists|rows: Seq<Vec<SqlValue>>|
                #[trigger] sqlite_query_answer(SQL_RATE_COUNT@, count, Some(rows)) && (count_of(rows) matches Some(c)
                    && b == rate_allows(c, limit))
            &&& b ==> executed(SQL_RATE_RECORD@, record)
        },
        Err(_) => {
            ||| sqlite_execute_answer(SQL_RATE_PRUNE@, prune, None)
            ||| sqlite_query_answer(SQL_RATE_COUNT@, count, None)
            ||| exists|rows: Seq<Vec<SqlValue>>|
                #[trigger] sqlite_query_answer(SQL_RATE_COUNT@, count, Some(rows)) && count_of(rows) is None
            ||| sqlite_execute_answer(SQL_RATE_RECORD@, record, None)
        },
    }
}

// ---------------------------------------------------------------------------
// The store
// ---------------------------------------------------------------------------

/// The store: one SQLite connection, with the tables made.
pub struct Database {
    conn: rusqlite::Connection,
}

/// The first row of an answer read as a user with a password hash.
pub fn first_user_auth(rows: &Vec<Vec<SqlValue>>) -> (res: Result<Option<UserAuthTuple>, DbError>)
    ensures
        rows@.len() == 0 ==> res matches Ok(None),
        rows@.len() > 0 ==> match res {
            Ok(Some(u)) => user_auth_row(rows@[0]@, u),
            Ok(None) => false,
            Err(_) => !user_auth_shape(rows@[0]@),
        },
{
    if rows.len() == 0 {
        return Ok(None);
    }
    match read_user_auth(&rows[0]) {
        Ok(u) => Ok(Some(u)),
        Err(e) => Err(e),
    }
}

/// The first row of an answer read as an id and a text.
pub fn first_id_text(rows: &Vec<Vec<SqlValue>>) -> (res: Result<Option<(i64, String)>, DbError>)
    ensures
        rows@.len() == 0 ==> res matches Ok(None),
        rows@.len() > 0 ==> match res {
            Ok(Some(u)) => id_text_row(rows@[0]@, u),
            Ok(None) => false,
            Err(_) => !id_text_shape(rows@[0]@),
        },
{
    if rows.len() == 0 {
        return Ok(None);
    }
    match read_id_text(&rows[0]) {
        Ok(u) => Ok(Some(u)),
        Err(e) => Err(e),
    }
}

/// The first row of an answer read as a note.
pub fn first_memo(rows: &Vec<Vec<SqlValue>>) -> (res: Result<Option<MemoTuple>, DbError>)
    ensures
        rows@.len() == 0 ==> res matches Ok(None),
        rows@.len() > 0 ==> match res {
            Ok(Some(m)) => memo_row(rows@[0]@, m),
            Ok(None) => false,
            Err(_) => !memo_shape(rows@[0]@),
        },
{
    if rows.len() == 0 {
        return Ok(None);
    }
    match read_memo(&rows[0]) {
        Ok(u) => Ok(Some(u)),
        Err(e) => Err(e),
    }
}

/// The first row of an answer read as a shared note.
pub fn first_public_memo(rows: &Vec<Vec<SqlValue>>) -> (res: Result<Option<PublicMemoTuple>, DbError>)
    ensures
        rows@.len() == 0 ==> res matches Ok(None),
        rows@.len() > 0 ==> match res {
            Ok(Some(m)) => public_memo_row(rows@[0]@, m),
            Ok(None) => false,
            Err(_) => !public_memo_shape(rows@[0]@),
        },
{
    if rows.len() == 0 {
        return Ok(None);
    }
    match read_public_memo(&rows[0]) {
        Ok(u) => Ok(Some(u)),
        Err(e) => Err(e),
    }
}

/// The first row of an answer read as a file.
pub fn first_resource(rows: &Vec<Vec<SqlValue>>) -> (res: Result<Option<ResourceTuple>, DbError>)
    ensures
        rows@.len() == 0 ==> res matches Ok(None),
        rows@.len() > 0 ==> match res {
            Ok(Some(r)) => resource_row(rows@[0]@, r),
            Ok(None) => false,
            Err(_) => !resource_shape(rows@[0]@),
        },
{
    if rows.len() == 0 {
        return Ok(None);
    }
    match read_resource(&rows[0]) {
        Ok(u) => Ok(Some(u)),
        Err(e) => Err(e),
    }
}

/// The first row of an answer read as a file with its owner.
pub fn first_public_resource(rows: &Vec<Vec<SqlValue>>) -> (res: Result<Option<PublicResourceTuple>, DbError>)
    ensures
        rows@.len() == 0 ==> res matches Ok(None),
        rows@.len() > 0 ==> match res {
            Ok(Some(r)) => resource_row(rows@[0]@, (r.0, r.1, r.2, r.3, r.4)) && int_col(rows@[0]@, 5) == Some(r.5),
            Ok(None) => false,
            Err(_) => !(resource_shape(rows@[0]@) && int_col(rows@[0]@, 5) is Some),
        },
{
    if rows.len() == 0 {
        return Ok(None);
    }
    match read_public_resource(&rows[0]) {
        Ok(u) => Ok(Some(u)),
        Err(e) => Err(e),
    }
}

impl Database {
    /// Runs a query; SQLite's refusal becomes a library error.
    fn query(&self, sql: &str, params: &[SqlParam]) -> (res: Result<Vec<Vec<SqlValue>>, DbError>)
        ensures
            res matches Ok(rows) ==> sqlite_query_answer(sql@, param_views(params@), Some(rows@)),
            res matches Err(e) ==> e is Sqlite && sqlite_query_answer(sql@, param_views(params@), None),
    {
        match sqlite_query(&self.conn, sql, params) {
            Ok(rows) => Ok(rows),
            Err(e) => Err(sqlite_error(e)),
        }
    }

    /// Runs a statement that changes the database.
    fn execute(&self, sql: &str, params: &[SqlParam]) -> (res: Result<(), DbError>)
        ensures
            ran(sql@, param_views(params@), res),
    {
        match sqlite_execute(&self.conn, sql, params) {
            Ok(n) => {
                assert(sqlite_execute_answer(sql@, param_views(params@), Some(n as int)));
                Ok(())
            },
            Err(e) => Err(sqlite_error(e)),
        }
    }

    /// Runs an `INSERT` and gives the id of the new row.
    fn insert(&self, sql: &str, params: &[SqlParam]) -> (res: Result<i64, DbError>)
        ensures
            inserted(sql@, param_views(params@), res),
    {
        match sqlite_execute(&self.conn, sql, params) {
            Ok(n) => {
                assert(sqlite_execute_answer(sql@, param_views(params@), Some(n as int)));
                Ok(sqlite_last_insert_rowid(&self.conn))
            },
            Err(e) => Err(sqlite_error(e)),
        }
    }

    /// Opens the database at `path` (`:memory:` for one in memory) and makes
    /// the tables that are missing: users, notes, note tags, files and the
    /// rate-limit log.  Columns that older databases lack are added.
    pub fn new(path: &str) -> (res: Result<Database, DbError>)
        ensures
            res matches Err(e) ==> e is Sqlite,
    {
        let conn = match sqlite_open(path) {
            Ok(c) => c,
            Err(e) => return Err(sqlite_error(e)),
        };
        if let Err(e) = sqlite_execute_batch(&conn, "PRAGMA journal_mode=WAL; PRAGMA cache_size=-4000;") {
            return Err(sqlite_error(e));
        }
        let schema = "CREATE TABLE IF NOT EXISTS users (
                id INTEGER PRIMARY KEY AUTOINCREMENT,
                username TEXT NOT NULL UNIQUE,
                password_hash TEXT NOT NULL,
                created_at TEXT NOT NULL DEFAULT (datetime('now'))
            );
            CREATE TABLE IF NOT EXISTS memos (
                id INTEGER PRIMARY KEY AUTOINCREMENT,
                user_id INTEGER NOT NULL,
                title TEXT NOT NULL DEFAULT '',
                content TEXT NOT NULL,
                visibility TEXT NOT NULL DEFAULT 'private',
                password_hash TEXT,
                created_at TEXT NOT NULL DEFAULT (datetime('now')),
                FOREIGN KEY (user_id) REFERENCES users(id)
            );
            CREATE TABLE IF NOT EXISTS memo_tags (
                memo_id INTEGER NOT NULL,
                tag TEXT NOT NULL COLLATE NOCASE,
                FOREIGN KEY (memo_id) REFERENCES memos(id) ON DELETE CASCADE
            );
            CREATE TABLE IF NOT EXISTS resources (
                id INTEGER PRIMARY KEY AUTOINCREMENT,
                user_id INTEGER NOT NULL,
                filename TEXT NOT NULL,
                original_name TEXT NOT NULL,
                mime_type TEXT NOT NULL DEFAULT 'application/octet-stream',
                size INTEGER NOT NULL DEFAULT 0,
                created_at TEXT NOT NULL DEFAULT (datetime('now')),
                FOREIGN KEY (user_id) REFERENCES users(id)
            );
            CREATE TABLE IF NOT EXISTS rate_limits (
                key TEXT NOT NULL,
                action TEXT NOT NULL,
                timestamp INTEGER NOT NULL
            );
            CREATE INDEX IF NOT EXISTS idx_rate_limits ON rate_limits (key, action, timestamp);";
        if let Err(e) = sqlite_execute_batch(&conn, schema) {
            return Err(sqlite_error(e));
        }
        let _ = sqlite_execute_batch(&conn, "ALTER TABLE memos ADD COLUMN title TEXT NOT NULL DEFAULT ''");
        let _ = sqlite_execute_batch(
            &conn,
            "ALTER TABLE memos ADD COLUMN visibility TEXT NOT NULL DEFAULT 'private'",
        );
        let _ = sqlite_execute_batch(&conn, "ALTER TABLE memos ADD COLUMN password_hash TEXT");
        Ok(Database { conn })
    }

    /// Adds a user; gives the new user's id.  A name already taken is
    /// refused by the `UNIQUE` constraint.
    pub fn create_user(&self, username: &str, password_hash: &str) -> (res: Result<i64, DbError>)
        ensures
            inserted(SQL_CREATE_USER@, seq![text_p(username@), text_p(password_hash@)], res),
    {
        let params = [text_param(username), text_param(password_hash)];
        assert(param_views(params@) =~= seq![text_p(username@), text_p(password_hash@)]);
        self.insert(SQL_CREATE_USER, &params)
    }

    /// The user with this name: id, name, password hash.  A row for another
    /// name is not taken (SQLite gives none).
    pub fn get_user_by_username(&self, username: &str) -> (res: Result<Option<UserAuthTuple>, DbError>)
        ensures
            user_by_name_answer(username@, res),
            res matches Ok(Some(u)) ==> u.1@ == username@,
    {
        let params = [text_param(username)];
        assert(param_views(params@) =~= seq![text_p(username@)]);
        let rows = match self.query(SQL_USER_BY_NAME, &params) {
            Ok(r) => r,
            Err(e) => return Err(e),
        };
        let res = match first_user_auth(&rows) {
            Ok(Some(u)) => if crate::chars::chars_eq(
                crate::chars::chars_of(u.1.as_str()).as_slice(),
                crate::chars::chars_of(username).as_slice(),
            ) {
                Ok(Some(u))
            } else {
                Ok(None)
            },
            other => other,
        };
        assert(user_by_name_read(rows@, username@, res));
        res
    }

    /// The user with this id: id, name.  A row for another id is not taken
    /// (SQLite gives none).
    pub fn get_user_by_id(&self, id: i64) -> (res: Result<Option<(i64, String)>, DbError>)
        ensures
            user_by_id_answer(id, res),
            res matches Ok(Some(u)) ==> u.0 == id,
    {
        let params = [SqlParam::Int(id)];
        assert(param_views(params@) =~= seq![int_p(id)]);
        let rows = match self.query(SQL_USER_BY_ID, &params) {
            Ok(r) => r,
            Err(e) => return Err(e),
        };
        let res = match first_id_text(&rows) {
            Ok(Some(u)) => if u.0 == id {
                Ok(Some(u))
            } else {
                Ok(None)
            },
            other => other,
        };
        assert(id_text_by_id_read(rows@, id, res));
        res
    }

    /// Adds a note; gives its id.
    pub fn create_memo(
        &self,
        user_id: i64,
        title: &str,
        content: &str,
        visibility: &str,
        password_hash: Option<&str>,
    ) -> (res: Result<i64, DbError>)
        ensures
            inserted(
                SQL_CREATE_MEMO@,
                seq![int_p(user_id), text_p(title@), text_p(content@), text_p(visibility@), opt_p(password_hash)],
                res,
            ),
    {
        let hash = match password_hash {
            Some(h) => text_param(h),
            None => SqlParam::Null,
        };
        let params = [SqlParam::Int(user_id), text_param(title), text_param(content), text_param(visibility), hash];
        assert(param_views(params@) =~= seq![
            int_p(user_id),
            text_p(title@),
            text_p(content@),
            text_p(visibility@),
            opt_p(password_hash),
        ]);
        self.insert(SQL_CREATE_MEMO, &params)
    }

    /// The notes of a query, read from every row.
    fn memo_list(&self, sql: &str, params: &[SqlParam]) -> (res: Result<Vec<MemoTuple>, DbError>)
        ensures
            memos_answer(sql@, param_views(params@), res),
    {
        let rows = match self.query(sql, params) {
            Ok(r) => r,
            Err(e) => return Err(e),
        };
        let res = read_memos(&rows);
        assert(sqlite_query_answer(sql@, param_views(params@), Some(rows@)));
        res
    }

    /// A user's notes, newest first.
    pub fn get_memos(&self, user_id: i64) -> (res: Result<Vec<MemoTuple>, DbError>)
        ensures
            memos_answer(SQL_MEMOS@, seq![int_p(user_id)], res),
    {
        let params = [SqlParam::Int(user_id)];
        assert(param_views(params@) =~= seq![int_p(user_id)]);
        self.memo_list(SQL_MEMOS, &params)
    }

    /// A user's note by id.  A row for another id is not taken (SQLite gives
    /// none).
    pub fn get_memo_by_id(&self, memo_id: i64, user_id: i64) -> (res: Result<Option<MemoTuple>, DbError>)
        ensures
            memo_by_id_answer(memo_id, user_id, res),
            res matches Ok(Some(m)) ==> m.0 == memo_id,
    {
        let params = [SqlParam::Int(memo_id), SqlParam::Int(user_id)];
        assert(param_views(params@) =~= seq![int_p(memo_id), int_p(user_id)]);
        let rows = match self.query(SQL_MEMO_BY_ID, &params) {
            Ok(r) => r,
            Err(e) => return Err(e),
        };
        let res = match first_memo(&rows) {
            Ok(Some(m)) => if m.0 == memo_id {
                Ok(Some(m))
            } else {
                Ok(None)
            },
            other => other,
        };
        assert(memo_by_id_read(rows@, memo_id, res));
        res
    }

    /// Whether a user's note has a non-empty password; `false` when the note
    /// is not found or the query fails.
    pub fn get_memo_has_password(&self, memo_id: i64, user_id: i64) -> (res: bool)
        ensures
            has_password_answer(memo_id, user_id, res),
    {
        let params = [SqlParam::Int(memo_id), SqlParam::Int(user_id)];
        assert(param_views(params@) =~= seq![int_p(memo_id), int_p(user_id)]);
        match self.query(SQL_MEMO_HAS_PASSWORD, &params) {
            Ok(rows) => {
                let res = read_has_password(&rows);
                assert(sqlite_query_answer(SQL_MEMO_HAS_PASSWORD@, seq![int_p(memo_id), int_p(user_id)], Some(rows@)));
                res
            },
            Err(_) => false,
        }
    }

    /// Any user's note by id, with its password hash and its owner.  A row
    /// for another id is not taken (SQLite gives none).
    pub fn get_memo_public(&self, memo_id: i64) -> (res: Result<Option<PublicMemoTuple>, DbError>)
        ensures
            memo_public_answer(memo_id, res),
            res matches Ok(Some(m)) ==> m.0 == memo_id,
    {
        let params = [SqlParam::Int(memo_id)];
        assert(param_views(params@) =~= seq![int_p(memo_id)]);
        let rows = match self.query(SQL_MEMO_PUBLIC, &params) {
            Ok(r) => r,
            Err(e) => return Err(e),
        };
        let res = match first_public_memo(&rows) {
            Ok(Some(m)) => if m.0 == memo_id {
                Ok(Some(m))
            } else {
                Ok(None)
            },
            other => other,
        };
        assert(memo_public_read(rows@, memo_id, res));
        res
    }

    /// A user's newest `limit` notes.
    pub fn get_sidebar_memos(&self, user_id: i64, limit: i64) -> (res: Result<Vec<MemoTuple>, DbError>)
        ensures
            memos_answer(SQL_SIDEBAR_MEMOS@, seq![int_p(user_id), int_p(limit)], res),
    {
        let params = [SqlParam::Int(user_id), SqlParam::Int(limit)];
        assert(param_views(params@) =~= seq![int_p(user_id), int_p(limit)]);
        self.memo_list(SQL_SIDEBAR_MEMOS, &params)
    }

    /// A page of a user's notes, newest first: `limit` of them after the
    /// first `offset`.
    pub fn get_memos_paginated(&self, user_id: i64, limit: i64, offset: i64) -> (res: Result<Vec<MemoTuple>, DbError>)
        ensures
            memos_answer(SQL_MEMOS_PAGE@, seq![int_p(user_id), int_p(limit), int_p(offset)], res),
    {
        let params = [SqlParam::Int(user_id), SqlParam::Int(limit), SqlParam::Int(offset)];
        assert(param_views(params@) =~= seq![int_p(user_id), int_p(limit), int_p(offset)]);
        self.memo_list(SQL_MEMOS_PAGE, &params)
    }

    /// A page of a user's files, newest first.
    pub fn get_resources_paginated(&self, user_id: i64, limit: i64, offset: i64) -> (res: Result<Vec<ResourceEntryTuple>, DbError>)
        ensures
            entries_answer(SQL_RESOURCES_PAGE@, seq![int_p(user_id), int_p(limit), int_p(offset)], res),
    {
        let params = [SqlParam::Int(user_id), SqlParam::Int(limit), SqlParam::Int(offset)];
        assert(param_views(params@) =~= seq![int_p(user_id), int_p(limit), int_p(offset)]);
        let rows = match self.query(SQL_RESOURCES_PAGE, &params) {
            Ok(r) => r,
            Err(e) => return Err(e),
        };
        let res = read_resource_entries(&rows);
        assert(sqlite_query_answer(SQL_RESOURCES_PAGE@, param_views(params@), Some(rows@)));
        res
    }

    /// A user's notes whose title or content contains `query` (SQL `LIKE`,
    /// so `%` and `_` in it are wildcards), newest first.
    pub fn search_memos(&self, user_id: i64, query: &str) -> (res: Result<Vec<MemoTuple>, DbError>)
        ensures
            memos_answer(SQL_SEARCH_MEMOS@, seq![int_p(user_id), text_p(contains_pattern(query@))], res),
    {
        let pattern = like_contains(query);
        let params = [SqlParam::Int(user_id), SqlParam::Text(pattern)];
        assert(param_views(params@) =~= seq![int_p(user_id), text_p(contains_pattern(query@))]);
        self.memo_list(SQL_SEARCH_MEMOS, &params)
    }

    /// A user's notes written on `date` (`YYYY-MM-DD`), newest first.
    pub fn get_memos_by_date(&self, user_id: i64, date: &str) -> (res: Result<Vec<MemoTuple>, DbError>)
        ensures
            memos_answer(SQL_MEMOS_BY_DATE@, seq![int_p(user_id), text_p(date@)], res),
    {
        let params = [SqlParam::Int(user_id), text_param(date)];
        assert(param_views(params@) =~= seq![int_p(user_id), text_p(date@)]);
        self.memo_list(SQL_MEMOS_BY_DATE, &params)
    }

    /// A user's notes with the tag `tag` (ignoring case), newest first.
    pub fn get_memos_by_tag(&self, user_id: i64, tag: &str) -> (res: Result<Vec<MemoTuple>, DbError>)
        ensures
            memos_answer(SQL_MEMOS_BY_TAG@, seq![int_p(user_id), text_p(tag@)], res),
    {
        let params = [SqlParam::Int(user_id), text_param(tag)];
        assert(param_views(params@) =~= seq![int_p(user_id), text_p(tag@)]);
        self.memo_list(SQL_MEMOS_BY_TAG, &params)
    }

    /// The days (`YYYY-MM-DD`) of a month on which a user wrote notes.
    pub fn get_memo_dates_in_month(&self, user_id: i64, year: i32, month: u32) -> (res: Result<Vec<String>, DbError>)
        ensures
            texts_answer(
                SQL_DATES_IN_MONTH@,
                seq![int_p(user_id), text_p(month_pattern(year as int, month as int))],
                res,
            ),
    {
        let params = [SqlParam::Int(user_id), SqlParam::Text(like_month(year, month))];
        assert(param_views(params@) =~= seq![int_p(user_id), text_p(month_pattern(year as int, month as int))]);
        let rows = match self.query(SQL_DATES_IN_MONTH, &params) {
            Ok(r) => r,
            Err(e) => return Err(e),
        };
        let res = read_texts(&rows);
        assert(sqlite_query_answer(SQL_DATES_IN_MONTH@, param_views(params@), Some(rows@)));
        res
    }

    /// The days of a month on which a user wrote notes whose title or
    /// content contains `query`.
    pub fn get_memo_dates_in_month_for_query(
        &self,
        user_id: i64,
        year: i32,
        month: u32,
        query: &str,
    ) -> (res: Result<Vec<String>, DbError>)
        ensures
            texts_answer(
                SQL_DATES_IN_MONTH_FOR_QUERY@,
                seq![
                    int_p(user_id),
                    text_p(month_pattern(year as int, month as int)),
                    text_p(contains_pattern(query@)),
                ],
                res,
            ),
    {
        let params = [
            SqlParam::Int(user_id),
            SqlParam::Text(like_month(year, month)),
            SqlParam::Text(like_contains(query)),
        ];
        assert(param_views(params@) =~= seq![
            int_p(user_id),
            text_p(month_pattern(year as int, month as int)),
            text_p(contains_pattern(query@)),
        ]);
        let rows = match self.query(SQL_DATES_IN_MONTH_FOR_QUERY, &params) {
            Ok(r) => r,
            Err(e) => return Err(e),
        };
        let res = read_texts(&rows);
        assert(sqlite_query_answer(SQL_DATES_IN_MONTH_FOR_QUERY@, param_views(params@), Some(rows@)));
        res
    }

    /// Replaces the tags of a note with `tags` (a tag given twice is kept
    /// once): the old ones are deleted, then each is inserted in turn; the
    /// first refusal stops it.
    pub fn set_memo_tags(&self, memo_id: i64, tags: &[String]) -> (res: Result<(), DbError>)
        ensures
            res is Ok ==> tags_set(memo_id, tags@),
            res matches Err(e) ==> e is Sqlite,
    {
        let params = [SqlParam::Int(memo_id)];
        assert(param_views(params@) =~= seq![int_p(memo_id)]);
        if let Err(e) = self.execute(SQL_DELETE_TAGS, &params) {
            return Err(e);
        }
        let mut i: usize = 0;
        while i < tags.len()
            invariant
                i <= tags@.len(),
                executed(SQL_DELETE_TAGS@, seq![int_p(memo_id)]),
                forall|j: int| 0 <= j < i ==> #[trigger] tag_inserted(memo_id, tags@[j]@),
            decreases tags.len() - i,
        {
            let p = [SqlParam::Int(memo_id), text_param(tags[i].as_str())];
            assert(param_views(p@) =~= seq![int_p(memo_id), text_p(tags@[i as int]@)]);
            match self.execute(SQL_INSERT_TAG, &p) {
                Ok(()) => {},
                Err(e) => return Err(e),
            }
            assert(tag_inserted(memo_id, tags@[i as int]@));
            i = i + 1;
        }
        Ok(())
    }

    /// A user's tags with the number of notes that carry each, most used
    /// first, then by name.
    pub fn get_user_tags(&self, user_id: i64) -> (res: Result<Vec<(String, i64)>, DbError>)
        ensures
            tag_counts_answer(SQL_USER_TAGS@, seq![int_p(user_id)], res),
    {
        let params = [SqlParam::Int(user_id)];
        assert(param_views(params@) =~= seq![int_p(user_id)]);
        let rows = match self.query(SQL_USER_TAGS, &params) {
            Ok(r) => r,
            Err(e) => return Err(e),
        };
        let res = read_tag_counts(&rows);
        assert(sqlite_query_answer(SQL_USER_TAGS@, param_views(params@), Some(rows@)));
        res
    }

    /// Replaces the content of a user's note.
    pub fn update_memo(&self, memo_id: i64, user_id: i64, content: &str) -> (res: Result<(), DbError>)
        ensures
            ran(SQL_UPDATE_MEMO@, seq![text_p(content@), int_p(memo_id), int_p(user_id)], res),
    {
        let params = [text_param(content), SqlParam::Int(memo_id), SqlParam::Int(user_id)];
        assert(param_views(params@) =~= seq![text_p(content@), int_p(memo_id), int_p(user_id)]);
        self.execute(SQL_UPDATE_MEMO, &params)
    }

    /// Sets the visibility and the password hash of a user's note.
    pub fn update_memo_visibility(
        &self,
        memo_id: i64,
        user_id: i64,
        visibility: &str,
        password_hash: Option<&str>,
    ) -> (res: Result<(), DbError>)
        ensures
            ran(
                SQL_UPDATE_VISIBILITY@,
                seq![text_p(visibility@), opt_p(password_hash), int_p(memo_id), int_p(user_id)],
                res,
            ),
    {
        let hash = match password_hash {
            Some(h) => text_param(h),
            None => SqlParam::Null,
        };
        let params = [text_param(visibility), hash, SqlParam::Int(memo_id), SqlParam::Int(user_id)];
        assert(param_views(params@) =~= seq![
            text_p(visibility@),
            opt_p(password_hash),
            int_p(memo_id),
            int_p(user_id),
        ]);
        self.execute(SQL_UPDATE_VISIBILITY, &params)
    }

    /// Deletes a user's note.
    pub fn delete_memo(&self, memo_id: i64, user_id: i64) -> (res: Result<(), DbError>)
        ensures
            ran(SQL_DELETE_MEMO@, seq![int_p(memo_id), int_p(user_id)], res),
    {
        let params = [SqlParam::Int(memo_id), SqlParam::Int(user_id)];
        assert(param_views(params@) =~= seq![int_p(memo_id), int_p(user_id)]);
        self.execute(SQL_DELETE_MEMO, &params)
    }

    /// Records an uploaded file; gives its id.
    pub fn create_resource(
        &self,
        user_id: i64,
        filename: &str,
        original_name: &str,
        mime_type: &str,
        size: i64,
    ) -> (res: Result<i64, DbError>)
        ensures
            inserted(
                SQL_CREATE_RESOURCE@,
                seq![int_p(user_id), text_p(filename@), text_p(original_name@), text_p(mime_type@), int_p(size)],
                res,
            ),
    {
        let params = [
            SqlParam::Int(user_id),
            text_param(filename),
            text_param(original_name),
            text_param(mime_type),
            SqlParam::Int(size),
        ];
        assert(param_views(params@) =~= seq![
            int_p(user_id),
            text_p(filename@),
            text_p(original_name@),
            text_p(mime_type@),
            int_p(size),
        ]);
        self.insert(SQL_CREATE_RESOURCE, &params)
    }

    /// A user's file by id.  A row for another id is not taken (SQLite gives
    /// none).
    pub fn get_resource(&self, resource_id: i64, user_id: i64) -> (res: Result<Option<ResourceTuple>, DbError>)
        ensures
            resource_answer(resource_id, user_id, res),
            res matches Ok(Some(r)) ==> r.0 == resource_id,
    {
        let params = [SqlParam::Int(resource_id), SqlParam::Int(user_id)];
        assert(param_views(params@) =~= seq![int_p(resource_id), int_p(user_id)]);
        let rows = match self.query(SQL_RESOURCE, &params) {
            Ok(r) => r,
            Err(e) => return Err(e),
        };
        let res = match first_resource(&rows) {
            Ok(Some(r)) => if r.0 == resource_id {
                Ok(Some(r))
            } else {
                Ok(None)
            },
            other => other,
        };
        assert(resource_read(rows@, resource_id, res));
        res
    }

    /// The latest file a user uploaded under `original_name`: id and stored
    /// name.
    pub fn find_resource_by_original_name(&self, user_id: i64, original_name: &str) -> (res: Result<Option<(i64, String)>, DbError>)
        ensures
            resource_by_name_answer(user_id, original_name@, res),
    {
        let params = [SqlParam::Int(user_id), text_param(original_name)];
        assert(param_views(params@) =~= seq![int_p(user_id), text_p(original_name@)]);
        let rows = match self.query(SQL_RESOURCE_BY_NAME, &params) {
            Ok(r) => r,
            Err(e) => return Err(e),
        };
        let res = first_id_text(&rows);
        assert(sqlite_query_answer(SQL_RESOURCE_BY_NAME@, param_views(params@), Some(rows@)));
        res
    }

    /// Deletes a user's file record.
    pub fn delete_resource(&self, resource_id: i64, user_id: i64) -> (res: Result<(), DbError>)
        ensures
            ran(SQL_DELETE_RESOURCE@, seq![int_p(resource_id), int_p(user_id)], res),
    {
        let params = [SqlParam::Int(resource_id), SqlParam::Int(user_id)];
        assert(param_views(params@) =~= seq![int_p(resource_id), int_p(user_id)]);
        self.execute(SQL_DELETE_RESOURCE, &params)
    }

    /// Any user's file by id, with its owner.  A row for another id is not
    /// taken (SQLite gives none).
    pub fn get_resource_public(&self, resource_id: i64) -> (res: Result<Option<PublicResourceTuple>, DbError>)
        ensures
            resource_public_answer(resource_id, res),
            res matches Ok(Some(r)) ==> r.0 == resource_id,
    {
        let params = [SqlParam::Int(resource_id)];
        assert(param_views(params@) =~= seq![int_p(resource_id)]);
        let rows = match self.query(SQL_RESOURCE_PUBLIC, &params) {
            Ok(r) => r,
            Err(e) => return Err(e),
        };
        let res = match first_public_resource(&rows) {
            Ok(Some(r)) => if r.0 == resource_id {
                Ok(Some(r))
            } else {
                Ok(None)
            },
            other => other,
        };
        assert(resource_public_read(rows@, resource_id, res));
        res
    }

    /// The notes whose content contains `ref_pattern`: id, visibility,
    /// owner.
    pub fn get_memos_referencing_resource(&self, ref_pattern: &str) -> (res: Result<Vec<MemoRefTuple>, DbError>)
        ensures
            refs_answer(SQL_MEMOS_REFERENCING@, seq![text_p(contains_pattern(ref_pattern@))], res),
    {
        let params = [SqlParam::Text(like_contains(ref_pattern))];
        assert(param_views(params@) =~= seq![text_p(contains_pattern(ref_pattern@))]);
        let rows = match self.query(SQL_MEMOS_REFERENCING, &params) {
            Ok(r) => r,
            Err(e) => return Err(e),
        };
        let res = read_memo_refs(&rows);
        assert(sqlite_query_answer(SQL_MEMOS_REFERENCING@, param_views(params@), Some(rows@)));
        res
    }

    /// The tags of a note, in order.
    pub fn get_memo_tags(&self, memo_id: i64) -> (res: Result<Vec<String>, DbError>)
        ensures
            texts_answer(SQL_MEMO_TAGS@, seq![int_p(memo_id)], res),
    {
        let params = [SqlParam::Int(memo_id)];
        assert(param_views(params@) =~= seq![int_p(memo_id)]);
        let rows = match self.query(SQL_MEMO_TAGS, &params) {
            Ok(r) => r,
            Err(e) => return Err(e),
        };
        let res = read_texts(&rows);
        assert(sqlite_query_answer(SQL_MEMO_TAGS@, param_views(params@), Some(rows@)));
        res
    }

    /// Whether `key` may do `action` once more at time `now`, at most
    /// `limit` times per `window_secs` seconds; if so the attempt is
    /// recorded.  Entries older than the window are dropped first.
    pub fn rate_limit_at(&self, key: &str, action: &str, limit: i64, window_secs: i64, now: i64) -> (res: Result<bool, DbError>)
        requires
            i64::MIN <= now - window_secs <= i64::MAX,
        ensures
            rate_answer(key@, action@, limit, now - window_secs, now as int, res),
    {
        let window_start = now - window_secs;
        let p1 = [SqlParam::Int(window_start)];
        assert(param_views(p1@) =~= seq![int_p(window_start)]);
        if let Err(e) = self.execute(SQL_RATE_PRUNE, &p1) {
            return Err(e);
        }
        let p2 = [text_param(key), text_param(action), SqlParam::Int(window_start)];
        assert(param_views(p2@) =~= seq![text_p(key@), text_p(action@), int_p(window_start)]);
        let rows = match self.query(SQL_RATE_COUNT, &p2) {
            Ok(r) => r,
            Err(e) => return Err(e),
        };
        assert(sqlite_query_answer(SQL_RATE_COUNT@, param_views(p2@), Some(rows@)));
        match read_rate_verdict(&rows, limit) {
            Ok(true) => {
                let p3 = [text_param(key), text_param(action), SqlParam::Int(now)];
                assert(param_views(p3@) =~= seq![text_p(key@), text_p(action@), int_p(now)]);
                match self.execute(SQL_RATE_RECORD, &p3) {
                    Ok(()) => Ok(true),
                    Err(e) => Err(e),
                }
            },
            other => other,
        }
    }

    /// Whether `key` may do `action` once more now (see `rate_limit_at`).
    pub fn check_and_record_rate_limit(&self, key: &str, action: &str, limit: i64, window_secs: i64) -> (res: Result<bool, DbError>)
        requires
            8_400_000_000_000 - i64::MAX <= window_secs <= i64::MAX - 8_400_000_000_000,
        ensures
            exists|now: int|
                -8_400_000_000_000 <= now <= 8_400_000_000_000 && #[trigger] rate_answer(
                    key@,
                    action@,
                    limit,
                    now - window_secs,
                    now,
                    res,
                ),
    {
        let now = now_timestamp();
        let res = self.rate_limit_at(key, action, limit, window_secs, now);
        assert(rate_answer(key@, action@, limit, now - window_secs, now as int, res));
        res
    }
}

} // verus!
