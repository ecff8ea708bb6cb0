//! Notifications as the system notification store holds them: the record
//! type, the decoding of a payload, the identifier filters its queries
//! use, and the statements that delete a record with its dependants.
use vstd::prelude::*;
use crate::foreign::{home_dir, opt_view, plist_root, spec_plist_root};
use crate::property_list::{PlistEntryView, dictionary_text, nested_text_of, root_dictionary, root_text, root_text_of};
use crate::paths::{join_path, path_join};
use crate::strmap::{StringMap, sorted_keys, text_lt};
use crate::text::{
    chars_eq_str, chars_of, concat, owned, replace_char, replace_char_chars, spec_to_lowercase,
    string_of, to_lowercase, trim, trimmed,
};

verus! {

/// One notification.
#[derive(Clone, Debug)]
pub struct NotificationRecord {
    pub id: i64,
    pub app_identifier: String,
    pub app_name: String,
    /// Delivery time in milliseconds since the Unix epoch (UTC).
    pub delivered_at: i64,
    pub title: String,
    pub subtitle: String,
    pub body: String,
}

impl NotificationRecord {
    /// A field-by-field copy.
    pub fn duplicate(&self) -> (r: NotificationRecord)
        ensures
            r == *self,
    {
        NotificationRecord {
            id: self.id,
            app_identifier: self.app_identifier.clone(),
            app_name: self.app_name.clone(),
            delivered_at: self.delivered_at,
            title: self.title.clone(),
            subtitle: self.subtitle.clone(),
            body: self.body.clone(),
        }
    }
}

/// The texts a notification payload carries.
#[derive(Clone, Debug)]
pub struct NotificationPayload {
    pub title: String,
    pub subtitle: String,
    pub body: String,
}

/// Field `k` (0 title, 1 subtitle, 2 body) of a decoded payload: the
/// request dictionary's string when present, else the root's, trimmed;
/// empty when the bytes were no property list or neither holds it.
pub open spec fn payload_field(fields: Option<Seq<Option<Seq<char>>>>, k: int) -> Seq<char> {
    match fields {
        None => Seq::empty(),
        Some(f) => match f[k] {
            Some(s) => trim(s),
            None => match f[k + 3] {
                Some(s) => trim(s),
                None => Seq::empty(),
            },
        },
    }
}

fn pick_field(fields: &Vec<Option<String>>, k: usize) -> (r: String)
    requires
        fields.len() == 6,
        k < 3,
    ensures
        r@ == payload_field(Some(fields@.map_values(|f: Option<String>| opt_view(f))), k as int),
{
    let ghost views = fields@.map_values(|f: Option<String>| opt_view(f));
    assert(views[k as int] == opt_view(fields@[k as int]));
    assert(views[k + 3] == opt_view(fields@[k + 3]));
    let chosen: Vec<char> = match &fields[k] {
        Some(s) => trimmed(s.as_str()),
        None => match &fields[k + 3] {
            Some(s) => trimmed(s.as_str()),
            None => Vec::new(),
        },
    };
    string_of(&chosen)
}

/// The payload made of the six string fields a property list held
/// (request `titl`, `subt`, `body`, then the root's), or of nothing.
pub fn payload_from_fields(fields: &Option<Vec<Option<String>>>) -> (r: NotificationPayload)
    requires
        fields matches Some(f) ==> f.len() == 6,
    ensures
        ({
            let views = match fields {
                Some(f) => Some(f@.map_values(|x: Option<String>| opt_view(x))),
                None => None,
            };
            &&& r.title@ == payload_field(views, 0)
            &&& r.subtitle@ == payload_field(views, 1)
            &&& r.body@ == payload_field(views, 2)
        }),
{
    match fields {
        Some(f) => NotificationPayload {
            title: pick_field(f, 0),
            subtitle: pick_field(f, 1),
            body: pick_field(f, 2),
        },
        None => NotificationPayload { title: String::new(), subtitle: String::new(), body: String::new() },
    }
}

/// The string of `key` in the request dictionary (`req`) of a payload.
pub open spec fn request_text(root: Seq<(Seq<char>, PlistEntryView)>, key: Seq<char>) -> Option<Seq<char>> {
    match root_dictionary(root, "req"@) {
        Some(d) => dictionary_text(d, key),
        None => None,
    }
}

/// The six string fields of a payload's root dictionary: `titl`, `subt`,
/// `body` of the request dictionary, then those of the root.
pub open spec fn payload_fields_of(root: Seq<(Seq<char>, PlistEntryView)>) -> Seq<Option<Seq<char>>> {
    seq![
        request_text(root, "titl"@),
        request_text(root, "subt"@),
        request_text(root, "body"@),
        root_text(root, "titl"@),
        root_text(root, "subt"@),
        root_text(root, "body"@),
    ]
}

/// The fields of the payload in `data`, or none when it is no property
/// list with a root dictionary.
pub open spec fn payload_fields(data: Seq<u8>) -> Option<Seq<Option<Seq<char>>>> {
    match spec_plist_root(data) {
        Some(root) => Some(payload_fields_of(root)),
        None => None,
    }
}

/// Decodes a notification payload (a binary or XML property list).
pub fn parse_payload(data: &[u8]) -> (r: NotificationPayload)
    ensures
        r.title@ == payload_field(payload_fields(data@), 0),
        r.subtitle@ == payload_field(payload_fields(data@), 1),
        r.body@ == payload_field(payload_fields(data@), 2),
{
    let fields = match plist_root(data) {
        Some(root) => {
            let mut f: Vec<Option<String>> = Vec::new();
            f.push(nested_text_of(&root, "req", "titl"));
            f.push(nested_text_of(&root, "req", "subt"));
            f.push(nested_text_of(&root, "req", "body"));
            f.push(root_text_of(&root, "titl"));
            f.push(root_text_of(&root, "subt"));
            f.push(root_text_of(&root, "body"));
            assert(f@.map_values(|x: Option<String>| opt_view(x)) =~= payload_fields_of(
                crate::property_list::root_view(root@),
            ));
            Some(f)
        },
        None => None,
    };
    payload_from_fields(&fields)
}

// ---------------------------------------------------------------------
// Application identifier filters
// ---------------------------------------------------------------------

/// An application identifier as the filters compare it: trimmed, then
/// lowercased.
pub open spec fn normalized_identifier(s: Seq<char>) -> Seq<char> {
    spec_to_lowercase(trim(s))
}

/// `normalized_identifier` of `s`.
pub fn normalize_identifier(s: &str) -> (r: String)
    ensures
        r@ == normalized_identifier(s@),
{
    let t = trimmed(s);
    let ts = string_of(&t);
    to_lowercase(ts.as_str())
}

/// Whether `s` is the non-empty normalized form of one of `items`.
pub open spec fn is_normalized_member(items: Seq<String>, s: Seq<char>) -> bool {
    s.len() > 0 && exists|k: int| 0 <= k < items.len() && #[trigger] normalized_identifier(items[k]@) == s
}

/// The identifiers to filter on: each trimmed and lowercased, blanks
/// dropped, sorted and without repeats.
pub fn normalized_ignored_app_identifiers(ignored: &Vec<String>) -> (r: Vec<String>)
    ensures
        forall|i: int, j: int| 0 <= i < j < r.len() ==> text_lt(#[trigger] r[i]@, #[trigger] r[j]@),
        forall|s: Seq<char>|
            (exists|i: int| 0 <= i < r.len() && #[trigger] r[i]@ == s) <==> is_normalized_member(
                ignored@,
                s,
            ),
{
    let mut m = StringMap::new();
    let mut i: usize = 0;
    while i < ignored.len()
        invariant
            i <= ignored.len(),
            forall|s: Seq<char>| #[trigger]
                m.keys().contains(s) <==> is_normalized_member(ignored@.take(i as int), s),
        decreases ignored.len() - i,
    {
        let n = normalize_identifier(ignored[i].as_str());
        let ghost nv = n@;
        assert(ignored@.take(i + 1)[i as int] == ignored@[i as int]);
        if !n.as_str().is_empty() {
            m.insert(n, String::new());
        }
        assert forall|s: Seq<char>| #[trigger]
            m.keys().contains(s) <==> is_normalized_member(ignored@.take(i + 1), s) by {
            if is_normalized_member(ignored@.take(i + 1), s) {
                let k = choose|k: int|
                    0 <= k < i + 1 && #[trigger] normalized_identifier(ignored@.take(i + 1)[k]@)
                        == s;
                if k < i {
                    assert(ignored@.take(i as int)[k] == ignored@.take(i + 1)[k]);
                }
            }
            if is_normalized_member(ignored@.take(i as int), s) {
                let k = choose|k: int|
                    0 <= k < i && #[trigger] normalized_identifier(ignored@.take(i as int)[k]@)
                        == s;
                assert(ignored@.take(i as int)[k] == ignored@.take(i + 1)[k]);
            }
        }
        i += 1;
    }
    assert(ignored@.take(ignored.len() as int) =~= ignored@);
    let keys = m.key_list();
    let mut r: Vec<String> = Vec::new();
    let mut j: usize = 0;
    while j < keys.len()
        invariant
            j <= keys.len(),
            keys@.map_values(|v: Vec<char>| v@) == m.keys(),
            r.len() == j,
            forall|t: int| 0 <= t < j ==> #[trigger] r[t]@ == keys@[t]@,
        decreases keys.len() - j,
    {
        r.push(string_of(&keys[j]));
        j += 1;
    }
    proof {
        assert(sorted_keys(m.pairs()));
        assert(keys@.map_values(|v: Vec<char>| v@).len() == keys@.len());
        assert(m.keys().len() == m.pairs().len());
        assert forall|a: int, b: int| 0 <= a < b < r.len() implies text_lt(
            #[trigger] r[a]@,
            #[trigger] r[b]@,
        ) by {
            assert(m.keys()[a] == m.pairs()[a].0);
            assert(m.keys()[b] == m.pairs()[b].0);
            assert(keys@.map_values(|v: Vec<char>| v@)[a] == keys@[a]@);
            assert(keys@.map_values(|v: Vec<char>| v@)[b] == keys@[b]@);
        }
        assert forall|s: Seq<char>|
            (exists|t: int| 0 <= t < r.len() && #[trigger] r[t]@ == s) <==> is_normalized_member(
                ignored@,
                s,
            ) by {
            if exists|t: int| 0 <= t < r.len() && #[trigger] r[t]@ == s {
                let t = choose|t: int| 0 <= t < r.len() && #[trigger] r[t]@ == s;
                assert(keys@.map_values(|v: Vec<char>| v@)[t] == keys@[t]@);
                assert(m.keys().contains(s));
            }
            if is_normalized_member(ignored@, s) {
                assert(m.keys().contains(s));
                let t = choose|t: int| 0 <= t < m.keys().len() && m.keys()[t] == s;
                assert(keys@.map_values(|v: Vec<char>| v@)[t] == keys@[t]@);
                assert(r[t]@ == s);
            }
        }
    }
    r
}

// ---------------------------------------------------------------------
// Deleting a record
// ---------------------------------------------------------------------

/// `value` quoted as an SQL identifier: in double quotes, with each
/// double quote doubled.
pub open spec fn quoted_identifier(value: Seq<char>) -> Seq<char> {
    seq!['"'] + replace_char(value, '"', seq!['"', '"']) + seq!['"']
}

/// Quotes `value` for use as a table or column name.
pub fn quote_sql_identifier(value: &str) -> (r: String)
    ensures
        r@ == quoted_identifier(value@),
{
    let v = chars_of(value);
    let mut rep: Vec<char> = Vec::new();
    rep.push('"');
    rep.push('"');
    assert(rep@ == seq!['"', '"']);
    let body = replace_char_chars(&v, '"', &rep);
    let mut out: Vec<char> = Vec::new();
    out.push('"');
    let mut out = concat(&out, &body);
    out.push('"');
    string_of(&out)
}

/// Whether a foreign key pointing at `foreign_table`.`to_column` refers to
/// the notification records (their primary key, named or implied).
pub open spec fn references_record(foreign_table: Seq<char>, to_column: Seq<char>) -> bool {
    foreign_table == "record"@ && (to_column.len() == 0 || to_column == "rec_id"@)
}

/// The referencing columns of the foreign keys, given as
/// (referenced table, referencing column, referenced column), that point
/// at the notification records.
pub open spec fn record_reference_columns_of(refs: Seq<(String, String, String)>) -> Seq<Seq<char>>
    decreases refs.len(),
{
    if refs.len() == 0 {
        seq![]
    } else {
        let rest = record_reference_columns_of(refs.drop_last());
        let last = refs.last();
        if references_record(last.0@, last.2@) {
            rest.push(last.1@)
        } else {
            rest
        }
    }
}

/// Of the foreign keys of a table (`pragma foreign_key_list`: referenced
/// table, referencing column, referenced column or empty), the columns
/// whose key points at the notification records.
pub fn record_reference_columns(refs: &Vec<(String, String, String)>) -> (r: Vec<String>)
    ensures
        r@.map_values(|s: String| s@) == record_reference_columns_of(refs@),
{
    let mut r: Vec<String> = Vec::new();
    let mut i: usize = 0;
    while i < refs.len()
        invariant
            i <= refs.len(),
            r@.map_values(|s: String| s@) == record_reference_columns_of(refs@.take(i as int)),
        decreases refs.len() - i,
    {
        assert(refs@.take(i + 1).drop_last() =~= refs@.take(i as int));
        assert(refs@.take(i + 1).last() == refs@[i as int]);
        let table = chars_of(refs[i].0.as_str());
        let to = chars_of(refs[i].2.as_str());
        let is_record = chars_eq_str(&table, "record");
        let to_key = to.len() == 0 || chars_eq_str(&to, "rec_id");
        let ghost before = r@.map_values(|s: String| s@);
        if is_record && to_key {
            r.push(refs[i].1.clone());
            assert(r@.map_values(|s: String| s@) =~= before.push(refs@[i as int].1@));
        }
        i += 1;
    }
    assert(refs@.take(refs.len() as int) =~= refs@);
    r
}

/// `delete from "table" where "column" = ?1`, both names quoted.
pub fn delete_referencing_rows_sql(table: &str, column: &str) -> (r: String)
    ensures
        r@ == "delete from "@ + quoted_identifier(table@) + " where "@ + quoted_identifier(column@)
            + " = ?1"@,
{
    let head = chars_of("delete from ");
    let t = quote_sql_identifier(table);
    let with_table = concat(&head, &chars_of(t.as_str()));
    let with_where = concat(&with_table, &chars_of(" where "));
    let c = quote_sql_identifier(column);
    let with_column = concat(&with_where, &chars_of(c.as_str()));
    let out = concat(&with_column, &chars_of(" = ?1"));
    string_of(&out)
}

/// `pragma foreign_key_list("table")`.
pub fn foreign_key_list_sql(table: &str) -> (r: String)
    ensures
        r@ == "pragma foreign_key_list("@ + quoted_identifier(table@) + ")"@,
{
    let out = chars_of("pragma foreign_key_list(");
    let t = quote_sql_identifier(table);
    let tc = chars_of(t.as_str());
    let out = concat(&out, &tc);
    let e = chars_of(")");
    let out = concat(&out, &e);
    string_of(&out)
}

// ---------------------------------------------------------------------
// Where the store lives
// ---------------------------------------------------------------------

/// The store's location under a home directory.
pub open spec fn database_suffix() -> Seq<char> {
    "Library/Group Containers/group.com.apple.usernoted/db2/db"@
}

/// Where macOS keeps a damaged store it has set aside.
pub open spec fn corrupt_backup_suffix() -> Seq<char> {
    "Library/Group Containers/group.com.apple.usernoted/db2/db.corrupt"@
}

/// The message given when the home directory is unknown.
pub open spec fn no_home_message() -> Seq<char> {
    "无法读取用户主目录"@
}

/// The store's path under `home`, or the error for an unknown home.
pub fn notification_database_path_in(home: &Option<String>) -> (r: Result<String, String>)
    ensures
        match home {
            Some(h) => r matches Ok(p) && p@ == path_join(h@, database_suffix()),
            None => r matches Err(m) && m@ == no_home_message(),
        },
{
    match home {
        Some(h) => Ok(join_path(h.as_str(), "Library/Group Containers/group.com.apple.usernoted/db2/db")),
        None => Err(owned("无法读取用户主目录")),
    }
}

/// The damaged-store backup's path under `home`, or the error for an
/// unknown home.
pub fn notification_database_corrupt_backup_path_in(home: &Option<String>) -> (r: Result<String, String>)
    ensures
        match home {
            Some(h) => r matches Ok(p) && p@ == path_join(h@, corrupt_backup_suffix()),
            None => r matches Err(m) && m@ == no_home_message(),
        },
{
    match home {
        Some(h) => Ok(
            join_path(h.as_str(), "Library/Group Containers/group.com.apple.usernoted/db2/db.corrupt"),
        ),
        None => Err(owned("无法读取用户主目录")),
    }
}

/// The store's path under the current user's home directory.
pub fn notification_database_path() -> (r: Result<String, String>)
    ensures
        r matches Err(m) ==> m@ == no_home_message(),
        r matches Ok(p) ==> exists|h: Seq<char>| p@ == path_join(h, database_suffix()),
{
    let home = home_dir();
    notification_database_path_in(&home)
}

/// The damaged-store backup's path under the current user's home
/// directory.
pub fn notification_database_corrupt_backup_path() -> (r: Result<String, String>)
    ensures
        r matches Err(m) ==> m@ == no_home_message(),
        r matches Ok(p) ==> exists|h: Seq<char>| p@ == path_join(h, corrupt_backup_suffix()),
{
    let home = home_dir();
    notification_database_corrupt_backup_path_in(&home)
}

} // verus!
