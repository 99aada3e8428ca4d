//! The audit log's records and rules. The SQLite database itself is opened,
//! written and queried by the application; this module decides what goes in
//! each row, what a query asks for, and how the database's answers are read.
use vstd::prelude::*;
use vstd::string::*;

use crate::error::{Error, Result};
use crate::paths::{default_data_path, no_data_dir_text, stowe_file};
use crate::text::{push_signed_decimal, signed_decimal, views};

verus! {

/// The schema version this library writes.
pub const SCHEMA_VERSION: i64 = 1;

/// Outcome of a single `stowe run` invocation.
#[derive(Debug, Clone, Copy, PartialEq, Eq, Structural)]
pub enum Outcome {
    Allowed,
    Denied,
    BiometricFailed,
}

impl Outcome {
    pub open spec fn text(self) -> Seq<char> {
        match self {
            Outcome::Allowed => "allowed"@,
            Outcome::Denied => "denied"@,
            Outcome::BiometricFailed => "biometric_failed"@,
        }
    }

    /// How the outcome is written in the log.
    pub fn as_str(&self) -> (s: &'static str)
        ensures
            s@ == self.text(),
    {
        match self {
            Outcome::Allowed => "allowed",
            Outcome::Denied => "denied",
            Outcome::BiometricFailed => "biometric_failed",
        }
    }
}

/// Information captured at run start.
pub struct OpenRun<'a> {
    pub namespace: &'a str,
    pub var_names: &'a [String],
    pub binary_path: &'a str,
    pub binary_hash: Option<&'a str>,
    pub pid: Option<u32>,
    pub ppid: Option<u32>,
    pub argv: &'a [String],
    pub outcome: Outcome,
    pub reason: Option<&'a str>,
}

impl<'a> OpenRun<'a> {
    /// The row for a run that was allowed: the variables loaded into the
    /// child, outcome `Allowed`, no reason, and `pid` the running process's id.
    pub fn allowed(
        namespace: &'a str,
        var_names: &'a [String],
        binary_path: &'a str,
        argv: &'a [String],
        pid: u32,
    ) -> (o: OpenRun<'a>)
        ensures
            o.namespace == namespace,
            o.var_names == var_names,
            o.binary_path == binary_path,
            o.binary_hash is None,
            o.pid == Some(pid),
            o.ppid is None,
            o.argv == argv,
            o.outcome == Outcome::Allowed,
            o.reason is None,
    {
        OpenRun {
            namespace,
            var_names,
            binary_path,
            binary_hash: None,
            pid: Some(pid),
            ppid: None,
            argv,
            outcome: Outcome::Allowed,
            reason: None,
        }
    }

    /// The row for a run refused before any child was spawned: no variables,
    /// outcome `Denied`, with the reason, and `pid` the refusing process's id.
    pub fn denial(
        namespace: &'a str,
        binary_path: &'a str,
        argv: &'a [String],
        reason: &'a str,
        pid: u32,
    ) -> (o: OpenRun<'a>)
        ensures
            o.namespace == namespace,
            o.var_names@.len() == 0,
            o.binary_path == binary_path,
            o.binary_hash is None,
            o.pid == Some(pid),
            o.ppid is None,
            o.argv == argv,
            o.outcome == Outcome::Denied,
            o.reason == Some(reason),
    {
        OpenRun {
            namespace,
            var_names: &[],
            binary_path,
            binary_hash: None,
            pid: Some(pid),
            ppid: None,
            argv,
            outcome: Outcome::Denied,
            reason: Some(reason),
        }
    }
}

/// Information captured at run close.
#[derive(Debug, Clone, Copy)]
pub struct CloseRun {
    pub duration_ms: Option<i64>,
    pub child_exit: Option<i32>,
}

impl CloseRun {
    pub fn default() -> (c: Self)
        ensures
            c.duration_ms is None,
            c.child_exit is None,
    {
        CloseRun { duration_ms: None, child_exit: None }
    }

    /// How a denial row is closed: no time spent, no child exit.
    pub fn denial() -> (c: Self)
        ensures
            c.duration_ms == Some(0i64),
            c.child_exit is None,
    {
        CloseRun { duration_ms: Some(0), child_exit: None }
    }
}

#[derive(Debug)]
pub struct AuditFilter {
    pub namespace: Option<String>,
    pub outcome: Option<String>,
    pub limit: i64,
}

#[derive(Debug)]
pub struct AccessRow {
    pub id: i64,
    pub ts: String,
    pub namespace: String,
    pub var_names: Vec<String>,
    pub binary_path: String,
    pub binary_hash: Option<String>,
    pub pid: Option<i64>,
    pub argv: Vec<String>,
    pub outcome: String,
    pub reason: Option<String>,
    pub duration_ms: Option<i64>,
    pub child_exit: Option<i32>,
}

/// The most rows one query returns.
pub const MAX_ROWS: i64 = 1000;

/// `limit` held to `1..=1000`.
pub open spec fn clamped(limit: i64) -> i64 {
    if limit < 1 {
        1
    } else if limit > MAX_ROWS {
        MAX_ROWS
    } else {
        limit
    }
}

pub fn clamp_limit(limit: i64) -> (l: i64)
    ensures
        l == clamped(limit),
{
    if limit < 1 {
        1
    } else if limit > MAX_ROWS {
        MAX_ROWS
    } else {
        limit
    }
}

/// A value bound to a `?` of a query.
#[derive(Debug)]
pub enum QueryParam {
    Text(String),
    Integer(i64),
}

/// A query over the `accesses` table and the values for its placeholders.
#[derive(Debug)]
pub struct FilteredQuery {
    pub sql: String,
    pub params: Vec<QueryParam>,
}

/// The columns every listing selects, in `AccessRow` order.
pub open spec fn select_head() -> Seq<char> {
    "SELECT id, ts, namespace, var_names, binary_path, binary_hash,\n                    pid, argv, outcome, reason, duration_ms, child_exit\n             FROM accesses WHERE 1=1"@
}

pub open spec fn filtered_sql(filter: AuditFilter) -> Seq<char> {
    select_head() + (if filter.namespace is Some {
        " AND namespace = ?"@
    } else {
        Seq::empty()
    }) + (if filter.outcome is Some {
        " AND outcome = ?"@
    } else {
        Seq::empty()
    }) + " ORDER BY id DESC LIMIT ?"@
}

impl AuditFilter {
    /// The query for this filter: most recent rows first, at most the clamped
    /// limit, restricted to the namespace and outcome when they are given.
    /// The placeholders take the namespace, the outcome, then the limit.
    pub fn query(&self) -> (q: FilteredQuery)
        ensures
            q.sql@ == filtered_sql(*self),
            q.params@.len() == (if self.namespace is Some {
                1int
            } else {
                0
            }) + (if self.outcome is Some {
                1int
            } else {
                0
            }) + 1,
            self.namespace matches Some(ns) ==> (q.params@[0] matches QueryParam::Text(t) && t@
                == ns@),
            self.outcome matches Some(o) ==> (q.params@[q.params@.len() - 2] matches QueryParam::Text(
                t,
            ) && t@ == o@),
            q.params@.last() matches QueryParam::Integer(l) && l == clamped(self.limit),
    {
        let limit = clamp_limit(self.limit);
        let mut sql = String::new();
        sql.append(
            "SELECT id, ts, namespace, var_names, binary_path, binary_hash,\n                    pid, argv, outcome, reason, duration_ms, child_exit\n             FROM accesses WHERE 1=1",
        );
        let mut params: Vec<QueryParam> = Vec::new();
        match &self.namespace {
            Some(ns) => {
                sql.append(" AND namespace = ?");
                params.push(QueryParam::Text(ns.clone()));
            },
            None => {},
        }
        match &self.outcome {
            Some(o) => {
                sql.append(" AND outcome = ?");
                params.push(QueryParam::Text(o.clone()));
            },
            None => {},
        }
        sql.append(" ORDER BY id DESC LIMIT ?");
        params.push(QueryParam::Integer(limit));
        assert(sql@ =~= filtered_sql(*self));
        FilteredQuery { sql, params }
    }
}

/// What opening the database does about the recorded schema version.
#[derive(Debug, Clone, Copy, PartialEq, Eq, Structural)]
pub enum SchemaStep {
    /// No version recorded yet: record `SCHEMA_VERSION`.
    RecordVersion,
    /// The recorded version is this library's.
    UpToDate,
}

pub open spec fn newer_schema_text(v: i64) -> Seq<char> {
    "audit DB schema version "@ + signed_decimal(v as int) + " is newer than supported version "@
        + signed_decimal(SCHEMA_VERSION as int)
}

/// Decide on the recorded schema version `existing`: record ours when there
/// is none, accept ours, refuse any other.
pub fn schema_step(existing: Option<i64>) -> (r: Result<SchemaStep>)
    ensures
        existing is None ==> r == Ok::<SchemaStep, Error>(SchemaStep::RecordVersion),
        existing == Some(SCHEMA_VERSION) ==> r == Ok::<SchemaStep, Error>(SchemaStep::UpToDate),
        existing matches Some(v) ==> (v != SCHEMA_VERSION ==> (r matches Err(Error::Database(m))
            && m@ == newer_schema_text(v))),
{
    match existing {
        None => Ok(SchemaStep::RecordVersion),
        Some(v) => {
            if v == SCHEMA_VERSION {
                Ok(SchemaStep::UpToDate)
            } else {
                let mut m = String::new();
                m.append("audit DB schema version ");
                push_signed_decimal(&mut m, v);
                m.append(" is newer than supported version ");
                push_signed_decimal(&mut m, SCHEMA_VERSION);
                Err(Error::Database(m))
            }
        },
    }
}

pub open spec fn row_not_found_text(id: i64) -> Seq<char> {
    "audit row "@ + signed_decimal(id as int) + " not found for close"@
}

/// Closing row `id` changed `updated` rows: none means there is no such row.
pub fn check_closed(id: i64, updated: usize) -> (r: Result<()>)
    ensures
        updated > 0 <==> r is Ok,
        updated == 0 ==> (r matches Err(Error::Database(m)) && m@ == row_not_found_text(id)),
{
    if updated == 0 {
        let mut m = String::new();
        m.append("audit row ");
        push_signed_decimal(&mut m, id);
        m.append(" not found for close");
        return Err(Error::Database(m));
    }
    Ok(())
}

/// Default location of the audit database: `audit.db` in the `stowe`
/// directory of the user's data directory.
pub fn default_path() -> (r: Result<String>)
    ensures
        r matches Ok(p) ==> exists|d: Seq<char>| p@ == #[trigger] stowe_file(d, "audit.db"@),
        r matches Err(e) ==> e matches Error::Invalid(m) && m@ == no_data_dir_text(),
{
    default_data_path("audit.db")
}

/// The lowercase hexadecimal digits.
pub open spec fn hex_digits() -> Seq<char> {
    seq!['0', '1', '2', '3', '4', '5', '6', '7', '8', '9', 'a', 'b', 'c', 'd', 'e', 'f']
}

/// How a character is written inside a JSON string: `"` and `\` behind a
/// backslash, the control characters below U+0020 as `\b`, `\t`, `\n`, `\f`,
/// `\r` or `\u00` and two lowercase hexadecimal digits, anything else as it is.
pub open spec fn json_escaped(c: char) -> Seq<char> {
    if c == '"' {
        seq!['\\', '"']
    } else if c == '\\' {
        seq!['\\', '\\']
    } else if c == '\x08' {
        seq!['\\', 'b']
    } else if c == '\t' {
        seq!['\\', 't']
    } else if c == '\n' {
        seq!['\\', 'n']
    } else if c == '\x0C' {
        seq!['\\', 'f']
    } else if c == '\r' {
        seq!['\\', 'r']
    } else if (c as int) < 32 {
        seq!['\\', 'u', '0', '0', hex_digits()[(c as int) / 16], hex_digits()[(c as int) % 16]]
    } else {
        seq![c]
    }
}

/// The characters of `s`, each written as inside a JSON string.
pub open spec fn json_string_body(s: Seq<char>) -> Seq<char>
    decreases s.len(),
{
    if s.len() == 0 {
        Seq::empty()
    } else {
        json_string_body(s.drop_last()) + json_escaped(s.last())
    }
}

/// `s` as a JSON string: its escaped characters between double quotes.
pub open spec fn json_string(s: Seq<char>) -> Seq<char> {
    seq!['"'] + json_string_body(s) + seq!['"']
}

/// The JSON strings of `v`, separated by commas.
pub open spec fn json_items(v: Seq<Seq<char>>) -> Seq<char>
    decreases v.len(),
{
    if v.len() == 0 {
        Seq::empty()
    } else if v.len() == 1 {
        json_string(v[0])
    } else {
        json_items(v.drop_last()) + seq![','] + json_string(v.last())
    }
}

/// The compact JSON text of a list of strings, as `serde_json::to_string`
/// writes it: the strings between square brackets, with no spaces.
pub open spec fn json_of_strings(v: Seq<Seq<char>>) -> Seq<char> {
    seq!['['] + json_items(v) + seq![']']
}

/// The list of strings `serde_json::from_str` reads from `text`, when `text`
/// is the JSON of a list of strings.
pub uninterp spec fn strings_in_json(text: Seq<char>) -> Option<Seq<Seq<char>>>;

/// `serde_json::to_string` on a slice of strings. Serializing strings cannot
/// fail (the documentation names only failing `Serialize` impls and maps with
/// non-string keys), so the result is the compact JSON text of the list
/// (`json_of_strings`, after serde_json's escape table); `serde_json::from_str`
/// reads that text back as the same list of strings.
#[verifier::external_body]
fn strings_to_json(v: &[String]) -> (r: core::result::Result<String, String>)
    ensures
        r is Ok,
        r->Ok_0@ == json_of_strings(views(v@)),
        strings_in_json(r->Ok_0@) == Some(views(v@)),
{
    serde_json::to_string(v).map_err(|e| e.to_string())
}

/// `serde_json::from_str::<Vec<String>>`: the list `text` holds, or nothing
/// when it is not the JSON of a list of strings.
#[verifier::external_body]
fn strings_from_json(text: &str) -> (r: Option<Vec<String>>)
    ensures
        match strings_in_json(text@) {
            Some(s) => r matches Some(v) && views(v@) == s,
            None => r is None,
        },
{
    serde_json::from_str::<Vec<String>>(text).ok()
}

/// `Utc::now().to_rfc3339()` from chrono: the current time in RFC 3339 with a
/// `+00:00` offset. Nothing is stated of it: it is the clock's reading.
#[verifier::external_body]
fn utc_now_rfc3339_offset() -> String {
    chrono::Utc::now().to_rfc3339()
}

/// A list read back from a JSON column, or an empty list when the column
/// held something else.
pub fn list_or_empty(parsed: Option<Vec<String>>) -> (v: Vec<String>)
    ensures
        match parsed {
            Some(p) => v@ == p@,
            None => v@.len() == 0,
        },
{
    match parsed {
        Some(p) => p,
        None => Vec::new(),
    }
}

/// The strings a JSON column holds; empty when it holds no list of strings.
pub fn decode_strings(json: &str) -> (v: Vec<String>)
    ensures
        match strings_in_json(json@) {
            Some(s) => views(v@) == s,
            None => v@.len() == 0,
        },
{
    list_or_empty(strings_from_json(json))
}

/// The values of the row that records a run.
#[derive(Debug)]
pub struct AuditInsert {
    pub ts: String,
    pub namespace: String,
    /// JSON array of the variable names.
    pub var_names_json: String,
    pub binary_path: String,
    pub binary_hash: Option<String>,
    pub pid: Option<u32>,
    pub ppid: Option<u32>,
    /// JSON array of the arguments.
    pub argv_json: String,
    pub outcome: String,
    pub reason: Option<String>,
}

/// An optional string slice as an optional character sequence.
pub open spec fn opt_str_view(o: Option<&str>) -> Option<Seq<char>> {
    match o {
        Some(t) => Some(t@),
        None => None,
    }
}

/// An optional string as an optional character sequence.
pub open spec fn opt_string_view(o: Option<String>) -> Option<Seq<char>> {
    match o {
        Some(t) => Some(t@),
        None => None,
    }
}

fn owned(o: Option<&str>) -> (r: Option<String>)
    ensures
        opt_string_view(r) == opt_str_view(o),
{
    match o {
        Some(t) => Some(t.to_owned()),
        None => None,
    }
}

impl<'a> OpenRun<'a> {
    /// `row` holds this run's values, stamped `ts`, with the given JSON columns.
    pub open spec fn row_matches(
        &self,
        row: AuditInsert,
        ts: Seq<char>,
        var_names_json: Seq<char>,
        argv_json: Seq<char>,
    ) -> bool {
        &&& row.ts@ == ts
        &&& row.namespace@ == self.namespace@
        &&& row.var_names_json@ == var_names_json
        &&& row.binary_path@ == self.binary_path@
        &&& opt_string_view(row.binary_hash) == opt_str_view(self.binary_hash)
        &&& row.pid == self.pid
        &&& row.ppid == self.ppid
        &&& row.argv_json@ == argv_json
        &&& row.outcome@ == self.outcome.text()
        &&& opt_string_view(row.reason) == opt_str_view(self.reason)
    }

    /// The row for this run at time `ts`, given how its variable names and
    /// arguments serialized: a serialization failure is a `Database` error.
    pub fn insert_values(
        &self,
        ts: String,
        var_names_json: core::result::Result<String, String>,
        argv_json: core::result::Result<String, String>,
    ) -> (r: Result<AuditInsert>)
        ensures
            var_names_json matches Err(m) ==> (r matches Err(Error::Database(x)) && x@
                == "serializing var_names: "@ + m@),
            var_names_json is Ok ==> (argv_json matches Err(m) ==> (r matches Err(Error::Database(x))
                && x@ == "serializing argv: "@ + m@)),
            var_names_json matches Ok(vj) ==> (argv_json matches Ok(aj) ==> (r matches Ok(row)
                && self.row_matches(row, ts@, vj@, aj@))),
    {
        let vj = match var_names_json {
            Ok(j) => j,
            Err(m) => {
                let mut x = String::new();
                x.append("serializing var_names: ");
                x.append(m.as_str());
                return Err(Error::Database(x));
            },
        };
        let aj = match argv_json {
            Ok(j) => j,
            Err(m) => {
                let mut x = String::new();
                x.append("serializing argv: ");
                x.append(m.as_str());
                return Err(Error::Database(x));
            },
        };
        Ok(
            AuditInsert {
                ts,
                namespace: self.namespace.to_owned(),
                var_names_json: vj,
                binary_path: self.binary_path.to_owned(),
                binary_hash: owned(self.binary_hash),
                pid: self.pid,
                ppid: self.ppid,
                argv_json: aj,
                outcome: self.outcome.as_str().to_owned(),
                reason: owned(self.reason),
            },
        )
    }

    /// The row recording this run, stamped with the current time, its
    /// variable names and arguments as JSON arrays, which read back (by
    /// `decode_strings`) as the names and arguments themselves.
    pub fn insert_row(&self) -> (r: Result<AuditInsert>)
        ensures
            r matches Ok(row) && self.row_matches(
                row,
                row.ts@,
                json_of_strings(views(self.var_names@)),
                json_of_strings(views(self.argv@)),
            ),
            r matches Ok(row) && strings_in_json(row.var_names_json@) == Some(views(self.var_names@))
                && strings_in_json(row.argv_json@) == Some(views(self.argv@)),
    {
        let ts = utc_now_rfc3339_offset();
        let vj = strings_to_json(self.var_names);
        let aj = strings_to_json(self.argv);
        self.insert_values(ts, vj, aj)
    }
}

impl AccessRow {
    /// A row as the database returns it, its JSON columns decoded (a column
    /// holding no list of strings reads as an empty list).
    pub fn from_columns(
        id: i64,
        ts: String,
        namespace: String,
        var_names_json: &str,
        binary_path: String,
        binary_hash: Option<String>,
        pid: Option<i64>,
        argv_json: &str,
        outcome: String,
        reason: Option<String>,
        duration_ms: Option<i64>,
        child_exit: Option<i32>,
    ) -> (row: AccessRow)
        ensures
            row.id == id,
            row.ts == ts,
            row.namespace == namespace,
            match strings_in_json(var_names_json@) {
                Some(s) => views(row.var_names@) == s,
                None => row.var_names@.len() == 0,
            },
            row.binary_path == binary_path,
            row.binary_hash == binary_hash,
            row.pid == pid,
            match strings_in_json(argv_json@) {
                Some(s) => views(row.argv@) == s,
                None => row.argv@.len() == 0,
            },
            row.outcome == outcome,
            row.reason == reason,
            row.duration_ms == duration_ms,
            row.child_exit == child_exit,
    {
        AccessRow {
            id,
            ts,
            namespace,
            var_names: decode_strings(var_names_json),
            binary_path,
            binary_hash,
            pid,
            argv: decode_strings(argv_json),
            outcome,
            reason,
            duration_ms,
            child_exit,
        }
    }
}

} // verus!
