//! What the desktop UI's commands decide: the rows it shows and the answers
//! it gives back as text. The window itself belongs to the application.
use vstd::prelude::*;
use vstd::string::*;
use vstd::utf8::*;

use crate::audit::{
    clamp_limit, clamped, decode_strings, strings_in_json, FilteredQuery, QueryParam,
};
use crate::manifest::BiometricMode;
use crate::text::views;
use crate::secret_value::SecretValue;

verus! {

/// A namespace and how many variables it holds.
#[derive(Debug, Clone)]
pub struct NamespaceSummary {
    pub namespace: String,
    pub var_count: usize,
}

/// One row of the recent-accesses view.
#[derive(Debug, Clone)]
pub struct AuditRow {
    pub id: i64,
    pub ts: String,
    pub namespace: String,
    pub var_names: Vec<String>,
    pub binary_path: String,
    pub argv: Vec<String>,
    pub outcome: String,
    pub reason: Option<String>,
    pub child_exit: Option<i32>,
}

impl AuditRow {
    /// A row of the recent-accesses query, its JSON columns decoded (a column
    /// holding no list of strings reads as an empty list).
    pub fn from_columns(
        id: i64,
        ts: String,
        namespace: String,
        var_names_json: &str,
        binary_path: String,
        argv_json: &str,
        outcome: String,
        reason: Option<String>,
        child_exit: Option<i32>,
    ) -> (row: AuditRow)
        ensures
            row.id == id,
            row.ts == ts,
            row.namespace == namespace,
            match strings_in_json(var_names_json@) {
                Some(s) => views(row.var_names@) == s,
                None => row.var_names@.len() == 0,
            },
            row.binary_path == binary_path,
            match strings_in_json(argv_json@) {
                Some(s) => views(row.argv@) == s,
                None => row.argv@.len() == 0,
            },
            row.outcome == outcome,
            row.reason == reason,
            row.child_exit == child_exit,
    {
        AuditRow {
            id,
            ts,
            namespace,
            var_names: decode_strings(var_names_json),
            binary_path,
            argv: decode_strings(argv_json),
            outcome,
            reason,
            child_exit,
        }
    }
}

/// The text of the recent-accesses query.
pub open spec fn recent_accesses_sql() -> Seq<char> {
    "SELECT id, ts, namespace, var_names, binary_path, argv,\n                    outcome, reason, child_exit\n             FROM accesses\n             ORDER BY id DESC\n             LIMIT ?1"@
}

/// The query behind the recent-accesses view: the most recent rows first, at
/// most `limit` held to `1..=1000`. Its columns are those `AuditRow::from_columns`
/// takes, in order.
pub fn recent_accesses_query(limit: i64) -> (q: FilteredQuery)
    ensures
        q.sql@ == recent_accesses_sql(),
        q.params@.len() == 1,
        q.params@[0] matches QueryParam::Integer(l) && l == clamped(limit),
{
    let mut sql = String::new();
    sql.append(
        "SELECT id, ts, namespace, var_names, binary_path, argv,\n                    outcome, reason, child_exit\n             FROM accesses\n             ORDER BY id DESC\n             LIMIT ?1",
    );
    let mut params: Vec<QueryParam> = Vec::new();
    params.push(QueryParam::Integer(clamp_limit(limit)));
    FilteredQuery { sql, params }
}

pub open spec fn non_utf8_reveal_text() -> Seq<char> {
    "secret contains non-UTF-8 bytes; binary secrets cannot be revealed in the UI"@
}

/// A secret as the UI shows it: its text, or the message for a value that is
/// not UTF-8.
pub fn reveal_text(value: &SecretValue) -> (r: Result<String, String>)
    ensures
        valid_utf8(value@) ==> (r matches Ok(t) && t@ == decode_utf8(value@)),
        !valid_utf8(value@) ==> (r matches Err(m) && m@ == non_utf8_reveal_text()),
{
    match value.to_utf8() {
        Some(t) => Ok(t),
        None => {
            let mut m = String::new();
            m.append("secret contains non-UTF-8 bytes; binary secrets cannot be revealed in the UI");
            Err(m)
        },
    }
}

/// The biometric mode a UI request names, or the message refusing it.
pub fn biometric_arg(text: &str) -> (r: Result<BiometricMode, String>)
    ensures
        text@ == "always"@ ==> r == Ok::<BiometricMode, String>(BiometricMode::Always),
        text@ == "never"@ ==> r == Ok::<BiometricMode, String>(BiometricMode::Never),
        text@ != "always"@ && text@ != "never"@ ==> (r matches Err(m) && m@
            == "unknown biometric mode: "@ + text@),
{
    match BiometricMode::parse(text) {
        Some(m) => Ok(m),
        None => {
            let mut m = String::new();
            m.append("unknown biometric mode: ");
            m.append(text);
            Err(m)
        },
    }
}

} // verus!
