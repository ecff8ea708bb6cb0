//! Calls into outside crates (regex, serde_json, chrono, uuid, dirs,
//! plist). Verus believes the contracts stated here; each says what the
//! library relies on and no more.
use vstd::prelude::*;
use crate::property_list::{PlistEntry, PlistEntryView, root_view};
use std::fmt::Write;

verus! {

// ---------------------------------------------------------------------
// regex
// ---------------------------------------------------------------------

/// The message of the error `regex::Regex::new` reports for `pattern`, or
/// `None` when the pattern compiles.
pub uninterp spec fn spec_regex_error(pattern: Seq<char>) -> Option<Seq<char>>;

/// Whether the compiled `pattern` matches somewhere in `text`
/// (`Regex::is_match`).
pub uninterp spec fn spec_regex_is_match(pattern: Seq<char>, text: Seq<char>) -> bool;

/// The capture groups of the leftmost-first match of `pattern` in `text`
/// (`Regex::captures`), group 0 first; `None` when nothing matches.
pub uninterp spec fn spec_regex_captures(pattern: Seq<char>, text: Seq<char>) -> Option<
    Seq<Option<Seq<char>>>,
>;

/// Calls `regex::Regex::new` and keeps the error's message. Claims only
/// that the result is the named value for this pattern.
#[verifier::external_body]
pub(crate) fn regex_error(pattern: &str) -> (r: Option<String>)
    ensures
        match r {
            Some(m) => spec_regex_error(pattern@) == Some(m@),
            None => spec_regex_error(pattern@) is None,
        },
{
    regex::Regex::new(pattern).err().map(|error| error.to_string())
}

/// Compiles `pattern` with `regex::Regex::new` and, when it compiles,
/// calls `Regex::is_match` on `text`. Claims that `None` comes exactly for
/// patterns that do not compile, and names the answer otherwise.
#[verifier::external_body]
pub(crate) fn regex_is_match(pattern: &str, text: &str) -> (r: Option<bool>)
    ensures
        r is None <==> spec_regex_error(pattern@) is Some,
        r matches Some(b) ==> b == spec_regex_is_match(pattern@, text@),
{
    regex::Regex::new(pattern).ok().map(|compiled| compiled.is_match(text))
}

/// Compiles `pattern` and, when it compiles, calls `Regex::captures` on
/// `text`, turning each group into its matched text. Claims that `None`
/// comes exactly for patterns that do not compile, names the groups
/// otherwise, and (as the crate documents for `Captures`) that a match has
/// at least group 0 and that group 0 always participates.
#[verifier::external_body]
pub(crate) fn regex_captures(pattern: &str, text: &str) -> (r: Option<Option<Vec<Option<String>>>>)
    ensures
        r is None <==> spec_regex_error(pattern@) is Some,
        r matches Some(found) ==> match found {
            Some(groups) => {
                &&& spec_regex_captures(pattern@, text@) == Some(
                    groups@.map_values(|g: Option<String>| opt_view(g)),
                )
                &&& groups@.len() > 0
                &&& groups@[0] is Some
            },
            None => spec_regex_captures(pattern@, text@) is None,
        },
{
    regex::Regex::new(pattern).ok().map(
        |compiled|
            compiled.captures(text).map(
                |caps| caps.iter().map(|group| group.map(|m| m.as_str().to_string())).collect(),
            ),
    )
}

/// The view of an optional string.
pub open spec fn opt_view(o: Option<String>) -> Option<Seq<char>> {
    match o {
        Some(s) => Some(s@),
        None => None,
    }
}

// ---------------------------------------------------------------------
// serde_json
// ---------------------------------------------------------------------

/// The lowercase hexadecimal digit of `n` (below 16).
pub open spec fn hex_digit(n: int) -> char {
    if n < 10 {
        (48 + n) as char
    } else {
        (87 + n) as char
    }
}

/// How serde_json writes one character inside a string: `"` and `\`
/// escaped with a backslash, backspace, tab, line feed, form feed and
/// carriage return as `\b`, `\t`, `\n`, `\f`, `\r`, the other control
/// characters below U+0020 as `\u00XX` (lowercase hex), any other
/// character as itself.
pub open spec fn json_escape_char(c: char) -> Seq<char> {
    let u = c as u32;
    if c == '"' {
        seq!['\\', '"']
    } else if c == '\\' {
        seq!['\\', '\\']
    } else if u == 8 {
        seq!['\\', 'b']
    } else if u == 9 {
        seq!['\\', 't']
    } else if u == 10 {
        seq!['\\', 'n']
    } else if u == 12 {
        seq!['\\', 'f']
    } else if u == 13 {
        seq!['\\', 'r']
    } else if u < 32 {
        seq!['\\', 'u', '0', '0', hex_digit(u as int / 16), hex_digit(u as int % 16)]
    } else {
        seq![c]
    }
}

/// The characters of `s`, each written as inside a JSON string.
pub open spec fn json_escaped(s: Seq<char>) -> Seq<char>
    decreases s.len(),
{
    if s.len() == 0 {
        seq![]
    } else {
        json_escaped(s.drop_last()) + json_escape_char(s.last())
    }
}

/// The JSON text `serde_json::to_string` gives for one string: the string
/// escaped between double quotes.
pub open spec fn spec_json_string(s: Seq<char>) -> Seq<char> {
    seq!['"'] + json_escaped(s) + seq!['"']
}

/// The JSON strings of `items`, separated by commas.
pub open spec fn json_string_items(items: Seq<Seq<char>>) -> Seq<char>
    decreases items.len(),
{
    if items.len() == 0 {
        seq![]
    } else if items.len() == 1 {
        spec_json_string(items[0])
    } else {
        json_string_items(items.drop_last()) + seq![','] + spec_json_string(items.last())
    }
}

/// The JSON text `serde_json::to_string` gives for a list of strings:
/// their JSON strings between brackets, separated by commas, no spaces.
pub open spec fn spec_json_string_list(items: Seq<Seq<char>>) -> Seq<char> {
    seq!['['] + json_string_items(items) + seq![']']
}

/// What `serde_json::from_str::<Vec<String>>` reads from `text`.
pub uninterp spec fn spec_json_parse_string_list(text: Seq<char>) -> Option<Seq<Seq<char>>>;

/// What `serde_json::from_str::<BTreeMap<String, String>>` makes of
/// `text`: the entries in ascending key order, or the error's message.
pub uninterp spec fn spec_json_string_record(text: Seq<char>) -> Result<
    Seq<(Seq<char>, Seq<char>)>,
    Seq<char>,
>;

/// Calls `serde_json::to_string` on a list of strings: the compact
/// array of their JSON strings (serialising strings cannot fail, so the
/// empty fallback is never taken).
#[verifier::external_body]
pub(crate) fn json_string_list(items: &Vec<String>) -> (r: String)
    ensures
        r@ == spec_json_string_list(items@.map_values(|s: String| s@)),
{
    serde_json::to_string(items).unwrap_or_default()
}

/// Calls `serde_json::to_string` on one string, giving the quoted and
/// escaped JSON string literal (serde_json's `format_escaped_str`).
#[verifier::external_body]
pub(crate) fn json_string(s: &str) -> (r: String)
    ensures
        r@ == spec_json_string(s@),
{
    serde_json::to_string(s).unwrap_or_else(|_| "\"\"".to_string())
}

/// Calls `serde_json::from_str::<Vec<String>>`. Claims that the result is
/// named and, since serde_json reads back what it wrote, that the text
/// written for a list of strings reads back as that list.
#[verifier::external_body]
pub(crate) fn json_parse_string_list(text: &str) -> (r: Option<Vec<String>>)
    ensures
        match r {
            Some(v) => spec_json_parse_string_list(text@) == Some(v@.map_values(|s: String| s@)),
            None => spec_json_parse_string_list(text@) is None,
        },
        forall|items: Seq<Seq<char>>|
            text@ == #[trigger] spec_json_string_list(items) ==> match r {
                Some(v) => v@.map_values(|s: String| s@) == items,
                None => false,
            },
{
    serde_json::from_str::<Vec<String>>(text).ok()
}

/// Calls `serde_json::from_str::<BTreeMap<String, String>>` and keeps the
/// entries in the map's (ascending) order, or the error's message.
/// Claims only that the outcome is the named value for `text`.
#[verifier::external_body]
pub(crate) fn json_string_record(text: &str) -> (r: Result<Vec<(String, String)>, String>)
    ensures
        match r {
            Ok(entries) => spec_json_string_record(text@) == Ok::<_, Seq<char>>(
                entries@.map_values(|e: (String, String)| (e.0@, e.1@)),
            ),
            Err(m) => spec_json_string_record(text@) == Err::<Seq<(Seq<char>, Seq<char>)>, _>(
                m@,
            ),
        },
{
    match serde_json::from_str::<std::collections::BTreeMap<String, String>>(text) {
        Ok(map) => Ok(map.into_iter().collect()),
        Err(error) => Err(error.to_string()),
    }
}

/// The members of a JSON object for `entries`, separated by commas.
pub open spec fn json_object_members(entries: Seq<(Seq<char>, Seq<char>)>) -> Seq<char>
    decreases entries.len(),
{
    if entries.len() == 0 {
        seq![]
    } else {
        let last = entries.last();
        let member = spec_json_string(last.0) + seq![':'] + spec_json_string(last.1);
        if entries.len() == 1 {
            member
        } else {
            json_object_members(entries.drop_last()) + seq![','] + member
        }
    }
}

/// The JSON text `serde_json::to_string` gives for a
/// `BTreeMap<String, String>` holding `entries` (keys ascending): each
/// key and value as JSON strings joined by `:`, in order, separated by
/// commas, between braces, no spaces.
pub open spec fn spec_json_string_object(entries: Seq<(Seq<char>, Seq<char>)>) -> Seq<char> {
    seq!['{'] + json_object_members(entries) + seq!['}']
}

/// Collects `entries` (keys strictly ascending, so nothing is reordered
/// or dropped) into a `BTreeMap` and calls `serde_json::to_string`.
/// The result is the compact JSON object; serialising a map of strings
/// cannot fail, so the empty fallback is never taken.
#[verifier::external_body]
pub(crate) fn json_string_object(entries: &Vec<(String, String)>) -> (r: String)
    requires
        forall|i: int, j: int| 0 <= i < j < entries@.len() ==> crate::strmap::text_lt(#[trigger] entries@[i].0@, #[trigger] entries@[j].0@),
    ensures
        r@ == spec_json_string_object(entries@.map_values(|e: (String, String)| (e.0@, e.1@))),
{
    let map: std::collections::BTreeMap<String, String> = entries.iter().cloned().collect();
    serde_json::to_string(&map).unwrap_or_default()
}

// ---------------------------------------------------------------------
// chrono
// ---------------------------------------------------------------------

/// The text chrono's `format` gives with `pattern` for the UTC instant
/// `millis` milliseconds after the Unix epoch (empty where chrono cannot
/// hold the instant or refuses the pattern).
pub uninterp spec fn spec_format_timestamp(millis: int, pattern: Seq<char>) -> Seq<char>;

/// What `chrono::DateTime::parse_from_rfc3339` makes of `text`: the
/// instant's whole milliseconds since the Unix epoch and its nanoseconds
/// since the last whole second, or the error's message.
pub uninterp spec fn spec_parse_rfc3339(text: Seq<char>) -> Result<(int, int), Seq<char>>;

/// Calls `DateTime::<Utc>::from_timestamp_millis` and writes the instant
/// with chrono's `format(pattern)`; an instant chrono cannot hold, or a
/// pattern whose formatting fails, gives the empty text. Claims only that
/// the result is named.
#[verifier::external_body]
pub(crate) fn format_timestamp(millis: i64, pattern: &str) -> (r: String)
    ensures
        r@ == spec_format_timestamp(millis as int, pattern@),
{
    let mut out = String::new();
    match chrono::DateTime::<chrono::Utc>::from_timestamp_millis(millis) {
        Some(instant) => match write!(out, "{}", instant.format(pattern)) {
            Ok(()) => out,
            Err(_) => String::new(),
        },
        None => String::new(),
    }
}

/// Calls `DateTime::parse_from_rfc3339` and reads the instant's
/// milliseconds since the epoch and nanoseconds since the last second, or
/// gives the error's message. Claims that the outcome is the named value
/// and, as chrono documents, that the nanoseconds stay below two seconds'
/// worth (a leap second may exceed one).
#[verifier::external_body]
pub(crate) fn parse_rfc3339(text: &str) -> (r: Result<(i64, u32), String>)
    ensures
        match r {
            Ok((millis, nanos)) => spec_parse_rfc3339(text@) == Ok::<(int, int), Seq<char>>(
                (millis as int, nanos as int),
            ) && nanos < 2_000_000_000,
            Err(m) => spec_parse_rfc3339(text@) == Err::<(int, int), Seq<char>>(m@),
        },
{
    match chrono::DateTime::parse_from_rfc3339(text) {
        Ok(instant) => Ok((instant.timestamp_millis(), instant.timestamp_subsec_nanos())),
        Err(error) => Err(error.to_string()),
    }
}

/// A time of day as `"%H:%M"` writes it: two digits of an hour below 24,
/// a colon, two digits of a minute below 60.
pub open spec fn is_clock_minute(m: Seq<char>) -> bool {
    &&& m.len() == 5
    &&& m[2] == ':'
    &&& forall|i: int| 0 <= i < 5 && i != 2 ==> '0' <= #[trigger] m[i] <= '9'
    &&& (m[0] as int - 48) * 10 + (m[1] as int - 48) < 24
    &&& (m[3] as int - 48) * 10 + (m[4] as int - 48) < 60
}

/// Calls `chrono::Local::now` and writes it with chrono's
/// `format(pattern)` (empty where that formatting fails). The time read
/// depends on the clock and the time zone, so only what chrono documents
/// of every reading is claimed: with `"%H:%M"` the text is the hour
/// (00--23) and the minute (00--59), zero-padded, joined by a colon.
/// chrono panics when the system clock reads before 1970.
#[verifier::external_body]
pub(crate) fn current_local_minute(pattern: &str) -> (r: String)
    ensures
        pattern@ == "%H:%M"@ ==> is_clock_minute(r@),
{
    let mut out = String::new();
    match write!(out, "{}", chrono::Local::now().format(pattern)) {
        Ok(()) => out,
        Err(_) => String::new(),
    }
}

/// Calls `chrono::Utc::now` and formats it with `to_rfc3339`. The result
/// depends on the clock, so nothing is claimed of it; chrono panics when
/// the system clock reads before 1970.
#[verifier::external_body]
pub(crate) fn now_rfc3339() -> (r: String) {
    chrono::Utc::now().to_rfc3339()
}

// ---------------------------------------------------------------------
// uuid, dirs
// ---------------------------------------------------------------------

/// Calls `uuid::Uuid::new_v4` and formats it; a random value, of which the
/// crate documents the 36-character hyphenated form. The crate panics when
/// the operating system's random source fails.
#[verifier::external_body]
pub(crate) fn new_uuid() -> (r: String)
    ensures
        r@.len() == 36,
{
    uuid::Uuid::new_v4().to_string()
}

/// Calls `dirs::home_dir`; it depends on the environment, so nothing is
/// claimed of it.
#[verifier::external_body]
pub(crate) fn home_dir() -> (r: Option<String>) {
    dirs::home_dir().map(|path| path.to_string_lossy().to_string())
}

/// Calls `dirs::data_dir`; it depends on the environment, so nothing is
/// claimed of it.
#[verifier::external_body]
pub(crate) fn data_dir() -> (r: Option<String>) {
    dirs::data_dir().map(|path| path.to_string_lossy().to_string())
}

// ---------------------------------------------------------------------
// plist
// ---------------------------------------------------------------------

/// What `plist::Value::from_reader` reads from `data`, as the entries of
/// its root dictionary in order (each string kept, each nested dictionary
/// kept with all its keys, a value that is a string as that text and any
/// other value as none, anything else marked other); `None` when the bytes are no property list or its root is no
/// dictionary.
pub uninterp spec fn spec_plist_root(data: Seq<u8>) -> Option<Seq<(Seq<char>, PlistEntryView)>>;

/// Calls `plist::Value::from_reader` on `data` and converts the root
/// dictionary, entry by entry, into the library's entries. Claims only
/// that the result is the named value for these bytes.
#[verifier::external_body]
pub(crate) fn plist_root(data: &[u8]) -> (r: Option<Vec<(String, PlistEntry)>>)
    ensures
        match r {
            Some(entries) => spec_plist_root(data@) == Some(root_view(entries@)),
            None => spec_plist_root(data@) is None,
        },
{
    let value = plist::Value::from_reader(std::io::Cursor::new(data)).ok()?;
    let mut root = Vec::new();
    for (key, item) in value.as_dictionary()? {
        let entry = match item {
            plist::Value::String(text) => PlistEntry::Text(text.clone()),
            plist::Value::Dictionary(inner) => PlistEntry::Dictionary(
                inner.iter().map(|(k, v)| (k.clone(), v.as_string().map(str::to_string))).collect(),
            ),
            _ => PlistEntry::Other,
        };
        root.push((key.clone(), entry));
    }
    Some(root)
}

// ---------------------------------------------------------------------
// std functions that vstd does not specify
// ---------------------------------------------------------------------

/// What `String::from_utf8_lossy` makes of `bytes`.
pub uninterp spec fn spec_utf8_lossy(bytes: Seq<u8>) -> Seq<char>;

/// Calls `String::from_utf8_lossy`. Claims only that the result is named.
#[verifier::external_body]
pub(crate) fn utf8_lossy(bytes: &[u8]) -> (r: String)
    ensures
        r@ == spec_utf8_lossy(bytes@),
{
    String::from_utf8_lossy(bytes).to_string()
}

// ---------------------------------------------------------------------
// std hashing, base64
// ---------------------------------------------------------------------

/// The character of the standard base64 alphabet for `n` (below 64):
/// `A`-`Z`, `a`-`z`, `0`-`9`, `+`, `/`.
pub open spec fn base64_digit(n: int) -> char {
    if n < 26 {
        (65 + n) as char
    } else if n < 52 {
        (71 + n) as char
    } else if n < 62 {
        (n - 4) as char
    } else if n == 62 {
        '+'
    } else {
        '/'
    }
}

/// Standard base64 with padding: each group of three bytes gives four
/// characters of six bits each, most significant first; a last group of
/// one or two bytes is filled with zero bits and closed with `=` signs to
/// four characters.
pub open spec fn spec_base64_standard(b: Seq<u8>) -> Seq<char>
    decreases b.len(),
{
    if b.len() == 0 {
        seq![]
    } else {
        let x = b[0] as int;
        let y = if b.len() > 1 { b[1] as int } else { 0 };
        let z = if b.len() > 2 { b[2] as int } else { 0 };
        let first = base64_digit(x / 4);
        let second = base64_digit((x % 4) * 16 + y / 16);
        let third = base64_digit((y % 16) * 4 + z / 64);
        let fourth = base64_digit(z % 64);
        if b.len() == 1 {
            seq![first, second, '=', '=']
        } else if b.len() == 2 {
            seq![first, second, third, '=']
        } else {
            seq![first, second, third, fourth] + spec_base64_standard(b.subrange(3, b.len() as int))
        }
    }
}

/// Calls `STANDARD.encode` of the base64 crate: standard alphabet, with
/// padding, as stated above.
#[verifier::external_body]
pub(crate) fn base64_standard(bytes: &[u8]) -> (r: String)
    ensures
        r@ == spec_base64_standard(bytes@),
{
    base64::Engine::encode(&base64::engine::general_purpose::STANDARD, bytes)
}

} // verus!
