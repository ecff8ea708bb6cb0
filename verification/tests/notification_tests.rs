use noticeflow::notification_archive::{
    action_history_from_row, add_column_sql, archive_path, archive_record_from_row, column_migration,
    count_rows_sql, excluding_filter, in_placeholders, normalized_app_identifiers, recent_records_sql, retention_days,
    row_count, system_delete_audit_from_row, table_info_sql, ActionHistoryRow, NotificationRow, RecordFilter,
    SystemDeleteAuditRow,
};
use noticeflow::notification_db::{
    delete_referencing_rows_sql, foreign_key_list_sql, normalized_ignored_app_identifiers,
    notification_database_corrupt_backup_path_in, notification_database_path_in, parse_payload,
    quote_sql_identifier, record_reference_columns, NotificationRecord,
};
use noticeflow::record_cache::NotificationRecordCache;
use rusqlite::types::Value;
use std::hash::{Hash, Hasher};

fn payload_hash(data: &[u8]) -> u64 {
    let mut hasher = std::collections::hash_map::DefaultHasher::new();
    data.hash(&mut hasher);
    hasher.finish()
}

fn apple_reference_millis(seconds: f64) -> i64 {
    978_307_200_000 + (seconds * 1_000.0) as i64
}

#[test]
fn normalized_app_identifiers_removes_blank_values() {
    assert_eq!(
        normalized_app_identifiers(&[" com.example.App ".to_string(), "".to_string()]),
        vec!["com.example.app".to_string()]
    );
}

#[test]
fn normalizes_ignored_app_identifiers_for_sql_filtering() {
    let items = vec![
        " com.apple.mail ".to_string(),
        "COM.APPLE.MAIL".to_string(),
        "".to_string(),
        "com.example.App".to_string(),
    ];

    assert_eq!(
        normalized_ignored_app_identifiers(&items),
        vec!["com.apple.mail".to_string(), "com.example.app".to_string()]
    );
}

#[test]
fn parses_notification_payload_from_plist() {
    let payload = parse_payload(
        br#"<?xml version="1.0" encoding="UTF-8"?>
<!DOCTYPE plist PUBLIC "-//Apple//DTD PLIST 1.0//EN" "http://www.apple.com/DTDs/PropertyList-1.0.dtd">
<plist version="1.0">
<dict>
  <key>req</key>
  <dict>
    <key>titl</key>
    <string>  Title  </string>
    <key>subt</key>
    <string>Subtitle</string>
    <key>body</key>
    <string>Body</string>
  </dict>
</dict>
</plist>"#,
    );

    assert_eq!(payload.title, "Title");
    assert_eq!(payload.subtitle, "Subtitle");
    assert_eq!(payload.body, "Body");
}

#[test]
fn parses_payload_root_fallback_fields() {
    let payload = parse_payload(
        br#"<?xml version="1.0" encoding="UTF-8"?>
<!DOCTYPE plist PUBLIC "-//Apple//DTD PLIST 1.0//EN" "http://www.apple.com/DTDs/PropertyList-1.0.dtd">
<plist version="1.0">
<dict>
  <key>titl</key>
  <string>Title</string>
  <key>body</key>
  <string>Body</string>
</dict>
</plist>"#,
    );

    assert_eq!(payload.title, "Title");
    assert_eq!(payload.subtitle, "");
    assert_eq!(payload.body, "Body");
}

#[test]
fn unreadable_payloads_give_empty_texts() {
    let payload = parse_payload(b"not a plist");
    assert_eq!(payload.title, "");
    assert_eq!(payload.subtitle, "");
    assert_eq!(payload.body, "");
}

#[test]
fn notification_record_cache_requires_matching_signature() {
    let delivered_date: f64 = 12345.0;
    let record = NotificationRecord {
        id: 9_000_001,
        app_identifier: "com.example.App".to_string(),
        app_name: "Example".to_string(),
        delivered_at: apple_reference_millis(delivered_date),
        title: "Title".to_string(),
        subtitle: String::new(),
        body: "Body".to_string(),
    };
    let mut cache = NotificationRecordCache::new();

    let payload_hash_v1 = payload_hash(b"payload-v1");
    cache.remember_notification_record(delivered_date.to_bits(), payload_hash_v1, record);

    assert!(cache
        .cached_notification_record(
            9_000_001,
            "com.example.App",
            delivered_date.to_bits(),
            payload_hash_v1
        )
        .is_some());
    assert!(cache
        .cached_notification_record(
            9_000_001,
            "com.example.Other",
            delivered_date.to_bits(),
            payload_hash_v1
        )
        .is_none());
    assert!(cache
        .cached_notification_record(
            9_000_001,
            "com.example.App",
            (delivered_date + 1.0).to_bits(),
            payload_hash_v1
        )
        .is_none());
    assert!(cache
        .cached_notification_record(
            9_000_001,
            "com.example.App",
            delivered_date.to_bits(),
            payload_hash(b"payload-v2")
        )
        .is_none());
}

#[test]
fn record_cache_forgets_the_least_recently_used_beyond_its_limit() {
    let mut cache = NotificationRecordCache::new();
    for id in 0..1_001i64 {
        let record = NotificationRecord {
            id,
            app_identifier: "com.example.App".to_string(),
            app_name: "Example".to_string(),
            delivered_at: 0,
            title: format!("#{id}"),
            subtitle: String::new(),
            body: String::new(),
        };
        cache.remember_notification_record(0, 1, record);
        if id == 0 {
            assert!(cache
                .cached_notification_record(0, "com.example.App", 0, 1)
                .is_some());
        }
    }
    assert_eq!(cache.len(), 1_000);
    assert!(cache.cached_notification_record(0, "com.example.App", 0, 1).is_none());
    assert!(cache.cached_notification_record(1, "com.example.App", 0, 1).is_some());
    assert_eq!(
        cache
            .cached_notification_record(1_000, "com.example.App", 0, 1)
            .map(|record| record.title),
        Some("#1000".to_string())
    );
}

#[test]
fn archive_record_from_row_rejects_invalid_delivered_at() {
    let row = NotificationRow {
        record_id: 1,
        app_identifier: "com.example.app".to_string(),
        app_name: "Example".to_string(),
        delivered_at: "not-a-date".to_string(),
        title: "Broken".to_string(),
        subtitle: String::new(),
        body: String::new(),
    };

    let result = archive_record_from_row(row);

    assert!(result.is_err());
}

#[test]
fn archive_rows_keep_their_delivery_time() {
    let row = NotificationRow {
        record_id: 7,
        app_identifier: "com.example.app".to_string(),
        app_name: "Example".to_string(),
        delivered_at: "2026-07-06T00:00:00Z".to_string(),
        title: "Title".to_string(),
        subtitle: "Sub".to_string(),
        body: "Body".to_string(),
    };
    let record = archive_record_from_row(row).expect("valid row");
    assert_eq!(record.id, 7);
    assert_eq!(record.delivered_at, 1_783_296_000_000);
    assert_eq!(record.title, "Title");
}

#[test]
fn stored_history_rows_are_read_with_defaults() {
    let row = ActionHistoryRow {
        id: "h1".to_string(),
        timestamp: "2026-07-06T00:00:00Z".to_string(),
        queue_id: None,
        rule_id: "rule".to_string(),
        rule_name: "Rule".to_string(),
        notification_id: 3,
        notification_title: "Title".to_string(),
        app_identifier: "com.example.app".to_string(),
        action_index: -4,
        action_type: "open_url".to_string(),
        success: 1,
        message: "ok".to_string(),
        duration_ms: -1,
        attempt_count: 0,
        variables_json: None,
        output: None,
        origin: Some("  ".to_string()),
    };
    let entry = action_history_from_row(row);
    assert_eq!(entry.action_index, 0);
    assert_eq!(entry.duration_ms, 0);
    assert_eq!(entry.attempt_count, 1);
    assert!(entry.success);
    assert_eq!(entry.origin, "auto");

    let audit = system_delete_audit_from_row(SystemDeleteAuditRow {
        id: "a1".to_string(),
        timestamp: "2026-07-06T00:00:00Z".to_string(),
        record_id: 3,
        app_identifier: "com.example.app".to_string(),
        app_name: "Example".to_string(),
        title: "Title".to_string(),
        subtitle: String::new(),
        body: String::new(),
        system_rows_deleted: -2,
    });
    assert_eq!(audit.system_rows_deleted, 0);
    assert_eq!(row_count(5), 5);
}

#[test]
fn archive_statements_are_built_from_their_parts() {
    assert_eq!(in_placeholders(0), "");
    assert_eq!(in_placeholders(3), "?, ?, ?");
    assert!(recent_records_sql(RecordFilter::Excluding(2))
        .contains("lower(app_identifier) not in (?, ?)"));
    assert!(recent_records_sql(RecordFilter::Including(1)).contains("lower(app_identifier) in (?)"));
    assert!(!recent_records_sql(RecordFilter::All).contains(" in ("));
    assert_eq!(
        count_rows_sql("notifications", Some("hidden = 1")),
        "select count(*) from notifications where hidden = 1"
    );
    assert_eq!(count_rows_sql("action_history", None), "select count(*) from action_history");
    assert_eq!(
        add_column_sql("action_history", "origin", "text not null default 'auto'"),
        "alter table action_history add column origin text not null default 'auto'"
    );
    let columns = vec!["record_id".to_string(), "hidden".to_string()];
    assert_eq!(
        column_migration(&columns, "notifications", "hidden", "integer"),
        None
    );
    assert_eq!(
        column_migration(&columns, "notifications", "system_deleted", "integer not null default 0")
            .as_deref(),
        Some("alter table notifications add column system_deleted integer not null default 0")
    );
    assert_eq!(retention_days(0), 1);
    assert_eq!(retention_days(30), 30);
    assert_eq!(retention_days(100_000), 3650);
    assert_eq!(archive_path("/data"), "/data/notifications.sqlite");
}

#[test]
fn store_paths_live_under_the_home_directory() {
    let home = Some("/Users/example".to_string());
    assert_eq!(
        notification_database_path_in(&home).as_deref(),
        Ok("/Users/example/Library/Group Containers/group.com.apple.usernoted/db2/db")
    );
    assert_eq!(
        notification_database_corrupt_backup_path_in(&home).as_deref(),
        Ok("/Users/example/Library/Group Containers/group.com.apple.usernoted/db2/db.corrupt")
    );
    assert!(notification_database_path_in(&None).is_err());
}

#[test]
fn record_reference_statements_find_only_foreign_keys() {
    let connection = rusqlite::Connection::open_in_memory().expect("in-memory db should open");
    connection
        .execute_batch(
            r#"
            create table record(rec_id integer primary key);
            create table record_related(rec_id integer references record(rec_id), value text);
            create table record_id_related(record_id integer, value text);
            insert into record values (10), (11), (12);
            insert into record_related values (10, 'remove'), (11, 'keep');
            insert into record_id_related values (10, 'keep');
            "#,
        )
        .expect("schema should be created");

    let mut changed = 0;
    for table in ["record_related", "record_id_related"] {
        let mut statement = connection
            .prepare(&foreign_key_list_sql(table))
            .expect("foreign keys should be listed");
        let references = statement
            .query_map([], |row| {
                Ok((
                    row.get::<_, String>(2)?,
                    row.get::<_, String>(3)?,
                    row.get::<_, Option<String>>(4)?.unwrap_or_default(),
                ))
            })
            .expect("foreign keys should be read")
            .collect::<Result<Vec<_>, _>>()
            .expect("foreign keys should parse");
        for column in record_reference_columns(&references) {
            changed += connection
                .execute(&delete_referencing_rows_sql(table, &column), [10i64])
                .expect("rows should be deleted");
        }
    }

    assert_eq!(changed, 1);
    assert_eq!(quote_sql_identifier("a\"b"), "\"a\"\"b\"");
    let remaining: i64 = connection
        .query_row("select count(*) from record_id_related", [], |row| row.get(0))
        .expect("count should be readable");
    assert_eq!(remaining, 1);
}

fn table_columns(connection: &rusqlite::Connection, table: &str) -> Vec<String> {
    let mut statement = connection.prepare(&table_info_sql(table)).expect("table info should be readable");
    let columns = statement
        .query_map([], |row| row.get::<_, String>(1))
        .expect("columns should be listed")
        .collect::<Result<Vec<_>, _>>()
        .expect("columns should parse");
    columns
}

#[test]
fn column_migration_adds_a_missing_column_once() {
    let connection = rusqlite::Connection::open_in_memory().expect("in-memory db should open");
    connection
        .execute_batch(
            "create table notifications (record_id integer primary key, app_identifier text not null, app_name text not null, delivered_at text not null, title text not null, subtitle text not null, body text not null, hidden integer not null default 0, archived_at text not null);",
        )
        .expect("legacy schema should be created");
    let before = table_columns(&connection, "notifications");
    let migration = column_migration(&before, "notifications", "system_deleted", "integer not null default 0")
        .expect("a missing column needs a migration");
    assert_eq!(migration, "alter table notifications add column system_deleted integer not null default 0");
    connection.execute(&migration, []).expect("migration should apply");
    let after = table_columns(&connection, "notifications");
    assert!(after.contains(&"system_deleted".to_string()));
    assert_eq!(column_migration(&after, "notifications", "system_deleted", "integer not null default 0"), None);
}

#[test]
fn recent_records_query_skips_hidden_and_filtered_apps() {
    let connection = rusqlite::Connection::open_in_memory().expect("in-memory db should open");
    connection
        .execute_batch(
            "create table notifications (record_id integer primary key, app_identifier text not null, app_name text not null, delivered_at text not null, title text not null, subtitle text not null, body text not null, hidden integer not null default 0, system_deleted integer not null default 0, archived_at text not null);
             insert into notifications values (1, 'com.example.a', 'A', '2024-01-01T00:00:00+00:00', 't1', '', '', 0, 0, 'x');
             insert into notifications values (2, 'com.example.b', 'B', '2024-01-02T00:00:00+00:00', 't2', '', '', 0, 0, 'x');
             insert into notifications values (3, 'com.example.a', 'A', '2024-01-03T00:00:00+00:00', 't3', '', '', 1, 0, 'x');
             insert into notifications values (4, 'COM.EXAMPLE.A', 'A', '2024-01-04T00:00:00+00:00', 't4', '', '', 0, 0, 'x');
             insert into notifications values (5, 'com.example.c', 'C', 'not a date', 't5', '', '', 0, 0, 'x');",
        )
        .expect("rows should be inserted");
    let ids_of = |filter: RecordFilter, params: Vec<rusqlite::types::Value>| {
        let mut statement = connection.prepare(&recent_records_sql(filter)).expect("query should prepare");
        let ids = statement
            .query_map(rusqlite::params_from_iter(params), |row| row.get::<_, i64>(0))
            .expect("query should run")
            .collect::<Result<Vec<_>, _>>()
            .expect("ids should parse");
        ids
    };
    assert_eq!(ids_of(RecordFilter::All, vec![Value::Integer(10)]), vec![4, 2, 1]);
    assert_eq!(ids_of(RecordFilter::All, vec![Value::Integer(2)]), vec![4, 2]);
    let ignored = normalized_app_identifiers(&[" COM.example.A ".to_string()]);
    let mut params = ignored.iter().cloned().map(Value::Text).collect::<Vec<_>>();
    params.push(Value::Integer(10));
    assert_eq!(ids_of(excluding_filter(&ignored), params.clone()), vec![2]);
    let mut including = ignored.iter().cloned().map(Value::Text).collect::<Vec<_>>();
    including.push(Value::Integer(10));
    assert_eq!(ids_of(RecordFilter::Including(ignored.len()), including), vec![4, 1]);
    let total: i64 = connection
        .query_row(&count_rows_sql("notifications", Some("hidden = 1")), [], |row| row.get(0))
        .expect("count should run");
    assert_eq!(row_count(total), 1);
}
