//! The local archive of notifications, action history and deletion
//! audits: where it lives, how stored rows become values, and the
//! statements its queries and migrations are made of.
use vstd::prelude::*;
use crate::foreign::{parse_rfc3339, spec_parse_rfc3339};
use crate::notification_db::{NotificationRecord, normalized_identifier, normalize_identifier};
use crate::paths::{join_path, path_join};
use crate::text::{chars_of, extend_str, is_blank, is_blank_str, join, owned, string_of};

verus! {

/// One executed (or attempted) action, as the history keeps it.
#[derive(Clone, Debug)]
pub struct ActionHistoryEntry {
    pub id: String,
    pub timestamp: String,
    pub queue_id: Option<String>,
    pub rule_id: String,
    pub rule_name: String,
    pub notification_id: i64,
    pub notification_title: String,
    pub app_identifier: String,
    pub action_index: u32,
    pub action_type: String,
    pub success: bool,
    pub message: String,
    pub output: Option<String>,
    /// What started the action: `auto` for a matched rule.
    pub origin: String,
    pub duration_ms: u64,
    pub attempt_count: u32,
    pub variables_json: Option<String>,
}

/// Sizes and row counts of the archive.
#[derive(Clone, Debug)]
pub struct ArchiveStats {
    pub path: String,
    pub size_bytes: u64,
    pub notification_count: u64,
    pub hidden_count: u64,
    pub system_deleted_count: u64,
    pub action_history_count: u64,
    pub system_delete_audit_count: u64,
}

/// One deletion from the system notification store.
#[derive(Clone, Debug)]
pub struct SystemDeleteAuditEntry {
    pub id: String,
    pub timestamp: String,
    pub record_id: i64,
    pub app_identifier: String,
    pub app_name: String,
    pub title: String,
    pub subtitle: String,
    pub body: String,
    pub system_rows_deleted: u64,
}

/// The archive file within a data directory.
pub open spec fn archive_path_of(data_dir: Seq<char>) -> Seq<char> {
    path_join(data_dir, "notifications.sqlite"@)
}

/// The archive file within the data directory `data_dir`.
pub fn archive_path(data_dir: &str) -> (r: String)
    ensures
        r@ == archive_path_of(data_dir@),
{
    join_path(data_dir, "notifications.sqlite")
}

// ---------------------------------------------------------------------
// Identifier filters
// ---------------------------------------------------------------------

/// Each identifier trimmed and lowercased, blanks dropped, in the given
/// order.
pub open spec fn normalized_ids(items: Seq<Seq<char>>) -> Seq<Seq<char>>
    decreases items.len(),
{
    if items.len() == 0 {
        seq![]
    } else {
        let rest = normalized_ids(items.drop_last());
        let n = normalized_identifier(items.last());
        if n.len() > 0 {
            rest.push(n)
        } else {
            rest
        }
    }
}

/// The identifiers a query filters on: trimmed, lowercased, blanks
/// dropped, order and repeats kept.
pub fn normalized_app_identifiers(items: &[String]) -> (r: Vec<String>)
    ensures
        r@.map_values(|s: String| s@) == normalized_ids(items@.map_values(|s: String| s@)),
{
    let mut r: Vec<String> = Vec::new();
    let mut i: usize = 0;
    while i < items.len()
        invariant
            i <= items@.len(),
            r@.map_values(|s: String| s@) == normalized_ids(items@.map_values(|s: String| s@).take(i as int)),
        decreases items.len() - i,
    {
        let ghost all = items@.map_values(|s: String| s@);
        assert(all.take(i + 1).drop_last() =~= all.take(i as int));
        assert(all.take(i + 1).last() == items@[i as int]@);
        let n = normalize_identifier(items[i].as_str());
        if !n.as_str().is_empty() {
            let ghost before = r@;
            r.push(n);
            assert(r@.map_values(|s: String| s@) =~= before.map_values(|s: String| s@).push(n@));
        }
        i += 1;
    }
    assert(items@.map_values(|s: String| s@).take(items@.len() as int) =~= items@.map_values(|s: String| s@));
    r
}

// ---------------------------------------------------------------------
// Statements
// ---------------------------------------------------------------------

/// `n` placeholders separated by `, `.
pub open spec fn placeholders(n: nat) -> Seq<char>
    decreases n,
{
    if n == 0 {
        seq![]
    } else if n == 1 {
        "?"@
    } else {
        placeholders((n - 1) as nat) + ", ?"@
    }
}

/// `n` placeholders separated by `, `.
pub fn in_placeholders(n: usize) -> (r: String)
    ensures
        r@ == placeholders(n as nat),
{
    let mut v: Vec<char> = Vec::new();
    let mut k: usize = 0;
    proof {
        reveal_strlit("?");
        reveal_strlit(", ?");
    }
    while k < n
        invariant
            k <= n,
            v@ == placeholders(k as nat),
        decreases n - k,
    {
        if k == 0 {
            extend_str(&mut v, "?");
        } else {
            extend_str(&mut v, ", ?");
        }
        k += 1;
    }
    string_of(&v)
}

/// Which notifications a listing keeps, by application identifier.
#[derive(Clone, Copy, Debug, PartialEq, Eq, Structural)]
pub enum RecordFilter {
    /// Every application.
    All,
    /// All but the applications of `n` bound identifiers.
    Excluding(usize),
    /// Only the applications of `n` bound identifiers.
    Including(usize),
}

/// The columns a notification is read with.
pub open spec fn record_columns() -> Seq<char> {
    "select record_id, app_identifier, app_name, delivered_at, title, subtitle, body from notifications where hidden = 0 and system_deleted = 0 and julianday(delivered_at) is not null"@
}

/// The query for the latest visible notifications: newest first, the
/// limit bound last.
pub open spec fn recent_records_sql_of(filter: RecordFilter) -> Seq<char> {
    let order = " order by delivered_at desc, record_id desc limit ?"@;
    match filter {
        RecordFilter::All => record_columns() + order,
        RecordFilter::Excluding(n) => record_columns() + " and lower(app_identifier) not in ("@ + placeholders(
            n as nat,
        ) + ")"@ + order,
        RecordFilter::Including(n) => record_columns() + " and lower(app_identifier) in ("@ + placeholders(
            n as nat,
        ) + ")"@ + order,
    }
}

/// The query for the latest visible notifications.
pub fn recent_records_sql(filter: RecordFilter) -> (r: String)
    ensures
        r@ == recent_records_sql_of(filter),
{
    let mut v = chars_of(
        "select record_id, app_identifier, app_name, delivered_at, title, subtitle, body from notifications where hidden = 0 and system_deleted = 0 and julianday(delivered_at) is not null",
    );
    match filter {
        RecordFilter::All => {},
        RecordFilter::Excluding(n) => {
            extend_str(&mut v, " and lower(app_identifier) not in (");
            let p = in_placeholders(n);
            extend_str(&mut v, p.as_str());
            extend_str(&mut v, ")");
        },
        RecordFilter::Including(n) => {
            extend_str(&mut v, " and lower(app_identifier) in (");
            let p = in_placeholders(n);
            extend_str(&mut v, p.as_str());
            extend_str(&mut v, ")");
        },
    }
    extend_str(&mut v, " order by delivered_at desc, record_id desc limit ?");
    string_of(&v)
}

/// The filter a listing uses for identifiers to leave out.
pub fn excluding_filter(ignored: &Vec<String>) -> (r: RecordFilter)
    ensures
        r == (if ignored@.len() == 0 {
            RecordFilter::All
        } else {
            RecordFilter::Excluding(ignored@.len() as usize)
        }),
{
    if ignored.len() == 0 {
        RecordFilter::All
    } else {
        RecordFilter::Excluding(ignored.len())
    }
}

/// The statement counting the rows of `table`, optionally restricted.
pub open spec fn count_rows_sql_of(table: Seq<char>, where_clause: Option<Seq<char>>) -> Seq<char> {
    match where_clause {
        Some(w) => "select count(*) from "@ + table + " where "@ + w,
        None => "select count(*) from "@ + table,
    }
}

/// The statement counting the rows of `table`.
pub fn count_rows_sql(table: &str, where_clause: Option<&str>) -> (r: String)
    ensures
        r@ == count_rows_sql_of(
            table@,
            match where_clause {
                Some(w) => Some(w@),
                None => None,
            },
        ),
{
    let mut v = chars_of("select count(*) from ");
    extend_str(&mut v, table);
    match where_clause {
        Some(w) => {
            extend_str(&mut v, " where ");
            extend_str(&mut v, w);
        },
        None => {},
    }
    string_of(&v)
}

/// A stored count as a row count: negative counts read as zero.
pub fn row_count(count: i64) -> (r: u64)
    ensures
        r == (if count < 0 {
            0
        } else {
            count
        }),
{
    if count < 0 {
        0
    } else {
        count as u64
    }
}

/// The statement listing the columns of `table`.
pub fn table_info_sql(table: &str) -> (r: String)
    ensures
        r@ == "pragma table_info("@ + table@ + ")"@,
{
    let mut v = chars_of("pragma table_info(");
    extend_str(&mut v, table);
    extend_str(&mut v, ")");
    string_of(&v)
}

/// The statement adding a column to `table`.
pub fn add_column_sql(table: &str, column: &str, definition: &str) -> (r: String)
    ensures
        r@ == "alter table "@ + table@ + " add column "@ + column@ + " "@ + definition@,
{
    let mut v = chars_of("alter table ");
    extend_str(&mut v, table);
    extend_str(&mut v, " add column ");
    extend_str(&mut v, column);
    extend_str(&mut v, " ");
    extend_str(&mut v, definition);
    string_of(&v)
}

/// The migration a table needs for a column: none when a column of that
/// name is listed, else the statement that adds it.
pub fn column_migration(columns: &Vec<String>, table: &str, column: &str, definition: &str) -> (r: Option<String>)
    ensures
        (exists|i: int| 0 <= i < columns@.len() && #[trigger] columns@[i]@ == column@) ==> r is None,
        !(exists|i: int| 0 <= i < columns@.len() && #[trigger] columns@[i]@ == column@) ==> (r matches Some(s)
            && s@ == "alter table "@ + table@ + " add column "@ + column@ + " "@ + definition@),
{
    let target = chars_of(column);
    let mut i: usize = 0;
    while i < columns.len()
        invariant
            i <= columns@.len(),
            target@ == column@,
            forall|j: int| 0 <= j < i ==> #[trigger] columns@[j]@ != column@,
        decreases columns.len() - i,
    {
        if crate::text::chars_eq(&chars_of(columns[i].as_str()), &target) {
            return None;
        }
        i += 1;
    }
    Some(add_column_sql(table, column, definition))
}

/// How many days notifications are kept: at least one, at most ten
/// years.
pub fn retention_days(days: u64) -> (r: i64)
    ensures
        r == (if days < 1 {
            1
        } else if days > 3650 {
            3650
        } else {
            days as int
        }),
{
    if days < 1 {
        1
    } else if days > 3650 {
        3650
    } else {
        days as i64
    }
}

// ---------------------------------------------------------------------
// Stored rows
// ---------------------------------------------------------------------

/// A notification as a row of the archive holds it.
#[derive(Clone, Debug)]
pub struct NotificationRow {
    pub record_id: i64,
    pub app_identifier: String,
    pub app_name: String,
    /// RFC 3339 text.
    pub delivered_at: String,
    pub title: String,
    pub subtitle: String,
    pub body: String,
}

/// The notification a row holds; an error when its delivery time is no
/// RFC 3339 date.
pub fn archive_record_from_row(row: NotificationRow) -> (r: Result<NotificationRecord, String>)
    ensures
        match spec_parse_rfc3339(row.delivered_at@) {
            Ok((millis, _)) => (r matches Ok(rec) && rec.id == row.record_id && rec.app_identifier
                == row.app_identifier && rec.app_name == row.app_name && rec.delivered_at == millis
                && rec.title == row.title && rec.subtitle == row.subtitle && rec.body == row.body),
            Err(m) => (r matches Err(e) && e@ == m),
        },
{
    match parse_rfc3339(row.delivered_at.as_str()) {
        Ok((millis, _)) => Ok(
            NotificationRecord {
                id: row.record_id,
                app_identifier: row.app_identifier,
                app_name: row.app_name,
                delivered_at: millis,
                title: row.title,
                subtitle: row.subtitle,
                body: row.body,
            },
        ),
        Err(m) => Err(m),
    }
}

/// An action-history row as stored: integers as SQLite keeps them.
#[derive(Clone, Debug)]
pub struct ActionHistoryRow {
    pub id: String,
    pub timestamp: String,
    pub queue_id: Option<String>,
    pub rule_id: String,
    pub rule_name: String,
    pub notification_id: i64,
    pub notification_title: String,
    pub app_identifier: String,
    pub action_index: i64,
    pub action_type: String,
    pub success: i64,
    pub message: String,
    pub duration_ms: i64,
    pub attempt_count: i64,
    pub variables_json: Option<String>,
    pub output: Option<String>,
    pub origin: Option<String>,
}

/// The origin recorded for an action: the stored one unless blank, else
/// `auto`.
pub open spec fn origin_of(origin: Option<String>) -> Seq<char> {
    match origin {
        Some(o) => if is_blank(o@) {
            "auto"@
        } else {
            o@
        },
        None => "auto"@,
    }
}

/// The history entry a row holds: a negative index or duration reads as
/// zero, an attempt count below one as one, a blank origin as `auto`.
pub fn action_history_from_row(row: ActionHistoryRow) -> (r: ActionHistoryEntry)
    ensures
        r.id == row.id,
        r.timestamp == row.timestamp,
        r.queue_id == row.queue_id,
        r.rule_id == row.rule_id,
        r.rule_name == row.rule_name,
        r.notification_id == row.notification_id,
        r.notification_title == row.notification_title,
        r.app_identifier == row.app_identifier,
        r.action_index == (if row.action_index < 0 {
            0
        } else {
            row.action_index
        }) as u32,
        r.action_type == row.action_type,
        r.success == (row.success != 0),
        r.message == row.message,
        r.duration_ms == (if row.duration_ms < 0 {
            0
        } else {
            row.duration_ms
        }),
        r.attempt_count == (if row.attempt_count < 1 {
            1
        } else {
            row.attempt_count
        }) as u32,
        r.variables_json == row.variables_json,
        r.output == row.output,
        r.origin@ == origin_of(row.origin),
{
    let origin = match row.origin {
        Some(o) => if is_blank_str(o.as_str()) {
            owned("auto")
        } else {
            o
        },
        None => owned("auto"),
    };
    let action_index: i64 = if row.action_index < 0 {
        0
    } else {
        row.action_index
    };
    let attempt_count: i64 = if row.attempt_count < 1 {
        1
    } else {
        row.attempt_count
    };
    ActionHistoryEntry {
        id: row.id,
        timestamp: row.timestamp,
        queue_id: row.queue_id,
        rule_id: row.rule_id,
        rule_name: row.rule_name,
        notification_id: row.notification_id,
        notification_title: row.notification_title,
        app_identifier: row.app_identifier,
        action_index: action_index as u32,
        action_type: row.action_type,
        success: row.success != 0,
        message: row.message,
        output: row.output,
        origin,
        duration_ms: row_count(row.duration_ms),
        attempt_count: attempt_count as u32,
        variables_json: row.variables_json,
    }
}

/// A deletion-audit row as stored.
#[derive(Clone, Debug)]
pub struct SystemDeleteAuditRow {
    pub id: String,
    pub timestamp: String,
    pub record_id: i64,
    pub app_identifier: String,
    pub app_name: String,
    pub title: String,
    pub subtitle: String,
    pub body: String,
    pub system_rows_deleted: i64,
}

/// The audit entry a row holds: a negative count reads as zero.
pub fn system_delete_audit_from_row(row: SystemDeleteAuditRow) -> (r: SystemDeleteAuditEntry)
    ensures
        r.id == row.id,
        r.timestamp == row.timestamp,
        r.record_id == row.record_id,
        r.app_identifier == row.app_identifier,
        r.app_name == row.app_name,
        r.title == row.title,
        r.subtitle == row.subtitle,
        r.body == row.body,
        r.system_rows_deleted == (if row.system_rows_deleted < 0 {
            0
        } else {
            row.system_rows_deleted
        }),
{
    SystemDeleteAuditEntry {
        id: row.id,
        timestamp: row.timestamp,
        record_id: row.record_id,
        app_identifier: row.app_identifier,
        app_name: row.app_name,
        title: row.title,
        subtitle: row.subtitle,
        body: row.body,
        system_rows_deleted: row_count(row.system_rows_deleted),
    }
}

} // verus!
