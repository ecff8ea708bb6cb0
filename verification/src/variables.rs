//! The variables of a notification: the built-in ones (its fields, its
//! time, the links it mentions) and those a rule extracts with a regular
//! expression or between two markers.
use vstd::prelude::*;
use crate::foreign::{
    format_timestamp, json_string_list, opt_view, regex_captures, regex_is_match,
    spec_format_timestamp, spec_json_string_list, spec_regex_captures, spec_regex_error,
    spec_regex_is_match,
};
use crate::notification_db::NotificationRecord;
use crate::strmap::{StringMap, Pairs, lookup_last};
use crate::template::{is_internal_key, url_values_key};
use crate::text::{
    chars_eq, chars_eq_str, chars_of, decimal, find_from, first_index_from, is_ascii_alnum,
    is_ascii_alpha, is_ascii_alpha_char, is_ascii_digit_char, join, join_chars, matches_at,
    occurs_at, owned, slice_chars, spec_decimal, string_of, trim, trim_chars, trimmed, views,
    lemma_first_index_none, lemma_first_index_some,
};

verus! {

// ---------------------------------------------------------------------
// Extraction rules
// ---------------------------------------------------------------------

/// The notification field a custom variable is read from.
#[derive(Clone, Copy, Debug, PartialEq, Eq, Structural)]
pub enum VariableExtractionSource {
    Title,
    Subtitle,
    Body,
}

/// How a custom variable is read.
#[derive(Clone, Copy, Debug, PartialEq, Eq, Structural)]
pub enum VariableExtractionMethod {
    /// A capture group of a regular expression.
    Regex,
    /// The text between a start marker and an end marker.
    Between,
}

/// A custom variable of a rule.
#[derive(Clone, Debug)]
pub struct VariableExtractionRule {
    pub name: String,
    pub source: VariableExtractionSource,
    pub method: VariableExtractionMethod,
    /// The regular expression, or the start marker.
    pub pattern: Option<String>,
    /// The end marker.
    pub end_pattern: Option<String>,
    /// The capture group to take (1 when absent).
    pub group_index: Option<usize>,
}

impl VariableExtractionRule {
    /// A field-by-field copy.
    pub fn duplicate(&self) -> (r: VariableExtractionRule)
        ensures
            r == *self,
    {
        VariableExtractionRule {
            name: self.name.clone(),
            source: self.source,
            method: self.method,
            pattern: match &self.pattern {
                Some(p) => Some(p.clone()),
                None => None,
            },
            end_pattern: match &self.end_pattern {
                Some(p) => Some(p.clone()),
                None => None,
            },
            group_index: self.group_index,
        }
    }
}

// ---------------------------------------------------------------------
// Names
// ---------------------------------------------------------------------

/// A letter or `_`, then letters, digits and `_` (ASCII).
pub open spec fn valid_variable_name(s: Seq<char>) -> bool {
    &&& s.len() > 0
    &&& (is_ascii_alpha(s[0]) || s[0] == '_')
    &&& forall|i: int| 1 <= i < s.len() ==> (is_ascii_alnum(#[trigger] s[i]) || s[i] == '_')
}

/// Whether `name` can name a variable.
pub fn is_valid_variable_name(name: &str) -> (r: bool)
    ensures
        r == valid_variable_name(name@),
{
    let v = chars_of(name);
    if v.len() == 0 {
        return false;
    }
    let first = v[0];
    if !(is_ascii_alpha_char(first) || first == '_') {
        return false;
    }
    let mut i: usize = 1;
    while i < v.len()
        invariant
            1 <= i <= v.len(),
            v@ == name@,
            forall|k: int| 1 <= k < i ==> (is_ascii_alnum(#[trigger] v@[k]) || v@[k] == '_'),
        decreases v.len() - i,
    {
        let c = v[i];
        if !(is_ascii_alpha_char(c) || is_ascii_digit_char(c) || c == '_') {
            return false;
        }
        i += 1;
    }
    true
}

/// A valid name that is neither internal (`__…`) nor the `url_n`
/// placeholder.
pub open spec fn displayable_variable_name(s: Seq<char>) -> bool {
    valid_variable_name(s) && !is_internal_key(s) && s != "url_n"@
}

/// Whether a variable is shown to the user.
pub fn is_displayable_variable_name(name: &str) -> (r: bool)
    ensures
        r == displayable_variable_name(name@),
{
    let v = chars_of(name);
    let internal = crate::text::starts_with(&v, &chars_of("__"));
    is_valid_variable_name(name) && !internal && !chars_eq_str(&v, "url_n")
}

/// The built-in variables, in the order they are listed.
pub open spec fn builtin_display_names() -> Seq<Seq<char>> {
    seq![
        "app_id"@,
        "app_name"@,
        "title"@,
        "subtitle"@,
        "body"@,
        "url"@,
        "url_count"@,
        "urls"@,
        "urls_count"@,
        "urls_json"@,
        "timestamp"@,
    ]
}

/// `names` followed by each displayable key of `keys` not yet listed.
pub open spec fn display_names_from(names: Seq<Seq<char>>, keys: Seq<Seq<char>>) -> Seq<Seq<char>>
    decreases keys.len(),
{
    if keys.len() == 0 {
        names
    } else {
        let prev = display_names_from(names, keys.drop_last());
        let k = keys.last();
        if displayable_variable_name(k) && !prev.contains(k) {
            prev.push(k)
        } else {
            prev
        }
    }
}

fn builtin_display_names_exec() -> (r: Vec<String>)
    ensures
        r@.map_values(|s: String| s@) == builtin_display_names(),
{
    let mut r: Vec<String> = Vec::new();
    r.push(owned("app_id"));
    r.push(owned("app_name"));
    r.push(owned("title"));
    r.push(owned("subtitle"));
    r.push(owned("body"));
    r.push(owned("url"));
    r.push(owned("url_count"));
    r.push(owned("urls"));
    r.push(owned("urls_count"));
    r.push(owned("urls_json"));
    r.push(owned("timestamp"));
    assert(r@.map_values(|s: String| s@) =~= builtin_display_names());
    r
}

fn list_contains(names: &Vec<String>, k: &Vec<char>) -> (r: bool)
    ensures
        r == names@.map_values(|s: String| s@).contains(k@),
{
    let ghost vs = names@.map_values(|s: String| s@);
    let mut i: usize = 0;
    while i < names.len()
        invariant
            i <= names.len(),
            vs == names@.map_values(|s: String| s@),
            forall|j: int| 0 <= j < i ==> vs[j] != k@,
        decreases names.len() - i,
    {
        let n = chars_of(names[i].as_str());
        if chars_eq(&n, k) {
            assert(vs[i as int] == k@);
            return true;
        }
        i += 1;
    }
    false
}

/// The variables to offer the user: the built-in ones, then the other
/// displayable names of `variables` in ascending order.
pub fn display_variable_names(variables: &StringMap) -> (r: Vec<String>)
    ensures
        r@.map_values(|s: String| s@) == display_names_from(builtin_display_names(), variables.keys()),
{
    let mut names = builtin_display_names_exec();
    let keys = variables.key_list();
    let ghost ks = variables.keys();
    let mut i: usize = 0;
    while i < keys.len()
        invariant
            i <= keys.len(),
            keys@.map_values(|v: Vec<char>| v@) == ks,
            names@.map_values(|s: String| s@) == display_names_from(
                builtin_display_names(),
                ks.take(i as int),
            ),
        decreases keys.len() - i,
    {
        assert(ks.take(i + 1).drop_last() =~= ks.take(i as int));
        assert(ks.take(i + 1).last() == keys@[i as int]@);
        let k = string_of(&keys[i]);
        let ghost before = names@.map_values(|s: String| s@);
        if is_displayable_variable_name(k.as_str()) && !list_contains(&names, &keys[i]) {
            names.push(k);
            assert(names@.map_values(|s: String| s@) =~= before.push(keys@[i as int]@));
        }
        i += 1;
    }
    assert(ks.take(keys.len() as int) =~= ks);
    names
}

// ---------------------------------------------------------------------
// Links
// ---------------------------------------------------------------------

/// `\s` of the regex crate (Unicode white space), as the crate decides it.
pub open spec fn is_space_char(c: char) -> bool {
    spec_regex_error("\\A\\s\\z"@) is None && spec_regex_is_match("\\A\\s\\z"@, seq![c])
}

/// `\s` membership, decided by the regex crate.
pub fn space_char(c: char) -> (r: bool)
    ensures
        r == is_space_char(c),
{
    let mut v: Vec<char> = Vec::new();
    v.push(c);
    let s = string_of(&v);
    assert(s@ =~= seq![c]);
    match regex_is_match("\\A\\s\\z", s.as_str()) {
        Some(b) => b,
        None => false,
    }
}

/// Characters that end a link: brackets, quotes and (full-width)
/// punctuation.
pub open spec fn url_stop_char(c: char) -> bool {
    ||| c == '<'
    ||| c == '>'
    ||| c == '"'
    ||| c == '\''
    ||| c == '，'
    ||| c == '。'
    ||| c == '！'
    ||| c == '？'
    ||| c == '、'
    ||| c == '；'
    ||| c == '：'
    ||| c == '）'
    ||| c == ')'
    ||| c == '】'
    ||| c == ']'
}

/// A character that may continue a link.
pub open spec fn url_char(c: char) -> bool {
    !is_space_char(c) && !url_stop_char(c)
}

fn url_char_exec(c: char) -> (r: bool)
    ensures
        r == url_char(c),
{
    let stop = c == '<' || c == '>' || c == '"' || c == '\'' || c == '，' || c == '。' || c == '！'
        || c == '？' || c == '、' || c == '；' || c == '：' || c == '）' || c == ')' || c == '】'
        || c == ']';
    !stop && !space_char(c)
}

/// Length of the run of link characters of `t` from `i`.
pub open spec fn url_run(t: Seq<char>, i: int) -> nat
    decreases t.len() - i,
{
    if 0 <= i < t.len() && url_char(t[i]) {
        1 + url_run(t, i + 1)
    } else {
        0
    }
}

/// Length of the link starting at `i` (`https?://` and at least one link
/// character, as long as possible), or 0.
pub open spec fn url_match_len(t: Seq<char>, i: int) -> nat {
    if occurs_at(t, "https://"@, i) && url_run(t, i + 8) > 0 {
        8 + url_run(t, i + 8)
    } else if occurs_at(t, "http://"@, i) && url_run(t, i + 7) > 0 {
        7 + url_run(t, i + 7)
    } else {
        0
    }
}

/// The links of `t` from `i` on, leftmost first and not overlapping.
pub open spec fn url_matches_from(t: Seq<char>, i: int) -> Seq<Seq<char>>
    decreases t.len() - i,
{
    if i < 0 || i >= t.len() {
        seq![]
    } else {
        let n = url_match_len(t, i);
        if n > 0 && i + n <= t.len() {
            seq![t.subrange(i, i + n)] + url_matches_from(t, i + n)
        } else {
            url_matches_from(t, i + 1)
        }
    }
}

/// The punctuation a link may not end with.
pub open spec fn url_tail_char(c: char) -> bool {
    c == '.' || c == ',' || c == ';' || c == ':'
}

/// `s` without trailing `.`, `,`, `;`, `:`.
pub open spec fn strip_url_tail(s: Seq<char>) -> Seq<char>
    decreases s.len(),
{
    if s.len() > 0 && url_tail_char(s.last()) {
        strip_url_tail(s.drop_last())
    } else {
        s
    }
}

/// The stripped links, empty ones and repeats left out, first occurrence
/// first.
pub open spec fn collect_urls(ms: Seq<Seq<char>>) -> Seq<Seq<char>>
    decreases ms.len(),
{
    if ms.len() == 0 {
        seq![]
    } else {
        let prev = collect_urls(ms.drop_last());
        let u = strip_url_tail(ms.last());
        if u.len() > 0 && !prev.contains(u) {
            prev.push(u)
        } else {
            prev
        }
    }
}

/// The non-empty texts among title, subtitle and body, in that order.
pub open spec fn url_source_parts(t: Seq<char>, s: Seq<char>, b: Seq<char>) -> Seq<Seq<char>> {
    let a = if t.len() > 0 {
        seq![t]
    } else {
        seq![]
    };
    let a2 = if s.len() > 0 {
        a.push(s)
    } else {
        a
    };
    if b.len() > 0 {
        a2.push(b)
    } else {
        a2
    }
}

/// The links a notification mentions.
pub open spec fn extracted_urls(t: Seq<char>, s: Seq<char>, b: Seq<char>) -> Seq<Seq<char>> {
    collect_urls(url_matches_from(join(url_source_parts(t, s, b), seq!['\n']), 0))
}

proof fn lemma_url_run_bound(t: Seq<char>, i: int)
    requires
        0 <= i,
    ensures
        i + url_run(t, i) <= t.len() || url_run(t, i) == 0,
    decreases t.len() - i,
{
    if 0 <= i < t.len() && url_char(t[i]) {
        lemma_url_run_bound(t, i + 1);
    }
}

fn url_run_exec(t: &Vec<char>, i: usize) -> (r: usize)
    requires
        i <= t.len(),
    ensures
        r == url_run(t@, i as int),
        i + r <= t.len(),
{
    let mut j: usize = i;
    while j < t.len() && url_char_exec(t[j])
        invariant
            i <= j <= t.len(),
            url_run(t@, i as int) == (j - i) + url_run(t@, j as int),
        decreases t.len() - j,
    {
        j += 1;
    }
    j - i
}

fn url_match_len_exec(t: &Vec<char>, i: usize, https: &Vec<char>, http: &Vec<char>) -> (r: usize)
    requires
        i < t.len(),
        https@ == "https://"@,
        http@ == "http://"@,
    ensures
        r == url_match_len(t@, i as int),
        i + r <= t.len(),
{
    proof {
        reveal_strlit("https://");
        reveal_strlit("http://");
    }
    if matches_at(t, https, i) {
        let n = url_run_exec(t, i + 8);
        if n > 0 {
            return 8 + n;
        }
    }
    if matches_at(t, http, i) {
        let n = url_run_exec(t, i + 7);
        if n > 0 {
            return 7 + n;
        }
    }
    0
}

fn strip_url_tail_exec(s: &Vec<char>) -> (r: Vec<char>)
    ensures
        r@ == strip_url_tail(s@),
{
    let mut n: usize = s.len();
    assert(s@.take(n as int) =~= s@);
    while n > 0 && (s[n - 1] == '.' || s[n - 1] == ',' || s[n - 1] == ';' || s[n - 1] == ':')
        invariant
            n <= s.len(),
            strip_url_tail(s@) == strip_url_tail(s@.take(n as int)),
        decreases n,
    {
        assert(s@.take(n as int).drop_last() =~= s@.take(n - 1));
        assert(s@.take(n as int).last() == s@[n - 1]);
        n -= 1;
    }
    slice_chars(s, 0, n)
}

fn seq_list_contains(list: &Vec<Vec<char>>, k: &Vec<char>) -> (r: bool)
    ensures
        r == views(list@).contains(k@),
{
    let mut i: usize = 0;
    while i < list.len()
        invariant
            i <= list.len(),
            forall|j: int| 0 <= j < i ==> views(list@)[j] != k@,
        decreases list.len() - i,
    {
        if chars_eq(&list[i], k) {
            assert(views(list@)[i as int] == k@);
            return true;
        }
        i += 1;
    }
    false
}

/// The links in `text`, as the crate's leftmost-first search finds them.
fn url_matches(text: &Vec<char>) -> (r: Vec<Vec<char>>)
    ensures
        views(r@) == url_matches_from(text@, 0),
{
    let https = chars_of("https://");
    let http = chars_of("http://");
    let mut r: Vec<Vec<char>> = Vec::new();
    let mut i: usize = 0;
    while i < text.len()
        invariant
            i <= text.len(),
            https@ == "https://"@,
            http@ == "http://"@,
            views(r@) + url_matches_from(text@, i as int) == url_matches_from(text@, 0),
        decreases text.len() - i,
    {
        let n = url_match_len_exec(text, i, &https, &http);
        let ghost before = views(r@);
        if n > 0 {
            let m = slice_chars(text, i, i + n);
            r.push(m);
            assert(views(r@) =~= before.push(text@.subrange(i as int, i + n)));
            assert(views(r@) + url_matches_from(text@, (i + n) as int) =~= before + (seq![
                text@.subrange(i as int, i + n),
            ] + url_matches_from(text@, (i + n) as int)));
            i = i + n;
        } else {
            i = i + 1;
        }
    }
    assert(views(r@) + url_matches_from(text@, i as int) =~= views(r@));
    r
}

/// The links a notification mentions: in its title, subtitle and body
/// (the non-empty ones, joined by line breaks), without trailing `.`,
/// `,`, `;`, `:`, each once, in order of first mention.
pub fn extract_urls(notification: &NotificationRecord) -> (r: Vec<String>)
    ensures
        r@.map_values(|s: String| s@) == extracted_urls(
            notification.title@,
            notification.subtitle@,
            notification.body@,
        ),
{
    let t = chars_of(notification.title.as_str());
    let s = chars_of(notification.subtitle.as_str());
    let b = chars_of(notification.body.as_str());
    let mut parts: Vec<Vec<char>> = Vec::new();
    if t.len() > 0 {
        parts.push(t);
    }
    if s.len() > 0 {
        parts.push(s);
    }
    if b.len() > 0 {
        parts.push(b);
    }
    assert(views(parts@) =~= url_source_parts(
        notification.title@,
        notification.subtitle@,
        notification.body@,
    ));
    let mut sep: Vec<char> = Vec::new();
    sep.push('\n');
    assert(sep@ =~= seq!['\n']);
    let text = join_chars(&parts, &sep);
    let ms = url_matches(&text);
    let ghost mv = views(ms@);
    let mut urls: Vec<Vec<char>> = Vec::new();
    let mut i: usize = 0;
    while i < ms.len()
        invariant
            i <= ms.len(),
            mv == views(ms@),
            views(urls@) == collect_urls(mv.take(i as int)),
        decreases ms.len() - i,
    {
        assert(mv.take(i + 1).drop_last() =~= mv.take(i as int));
        assert(mv.take(i + 1).last() == ms@[i as int]@);
        let u = strip_url_tail_exec(&ms[i]);
        let ghost before = views(urls@);
        if u.len() > 0 && !seq_list_contains(&urls, &u) {
            urls.push(u);
            assert(views(urls@) =~= before.push(strip_url_tail(ms@[i as int]@)));
        }
        i += 1;
    }
    assert(mv.take(ms.len() as int) =~= mv);
    let mut r: Vec<String> = Vec::new();
    let mut j: usize = 0;
    while j < urls.len()
        invariant
            j <= urls.len(),
            r@.map_values(|x: String| x@) =~= views(urls@).take(j as int),
        decreases urls.len() - j,
    {
        let ghost before = r@.map_values(|x: String| x@);
        r.push(string_of(&urls[j]));
        assert(r@.map_values(|x: String| x@) =~= before.push(urls@[j as int]@));
        assert(views(urls@).take(j + 1) =~= views(urls@).take(j as int).push(urls@[j as int]@));
        j += 1;
    }
    assert(views(urls@).take(urls.len() as int) =~= views(urls@));
    r
}

// ---------------------------------------------------------------------
// Custom variables
// ---------------------------------------------------------------------

/// The field a rule reads.
pub open spec fn source_text(rec: NotificationRecord, source: VariableExtractionSource) -> Seq<char> {
    match source {
        VariableExtractionSource::Title => rec.title@,
        VariableExtractionSource::Subtitle => rec.subtitle@,
        VariableExtractionSource::Body => rec.body@,
    }
}

fn source_text_exec(rec: &NotificationRecord, source: VariableExtractionSource) -> (r: &String)
    ensures
        r@ == source_text(*rec, source),
{
    match source {
        VariableExtractionSource::Title => &rec.title,
        VariableExtractionSource::Subtitle => &rec.subtitle,
        VariableExtractionSource::Body => &rec.body,
    }
}

/// The text of an optional string, empty when absent.
pub open spec fn opt_text(o: Option<String>) -> Seq<char> {
    match o {
        Some(s) => s@,
        None => Seq::empty(),
    }
}

/// What a regular-expression rule reads from `text`: the trimmed pattern
/// (none when blank or invalid) is searched for; of the first match, the
/// requested group (1 by default; group 0, the whole match, when the
/// pattern has no such group), trimmed, when it took part and is not
/// blank.
pub open spec fn regex_extraction(pattern: Option<String>, text: Seq<char>, group: Option<usize>) -> Option<Seq<char>> {
    match pattern {
        None => None,
        Some(p) => {
            let pt = trim(p@);
            if pt.len() == 0 || spec_regex_error(pt) is Some {
                None
            } else {
                match spec_regex_captures(pt, text) {
                    None => None,
                    Some(groups) => {
                        let requested: int = match group {
                            Some(g) => g as int,
                            None => 1,
                        };
                        let index = if requested < groups.len() {
                            requested
                        } else {
                            0
                        };
                        match groups[index] {
                            None => None,
                            Some(m) => if trim(m).len() > 0 {
                                Some(trim(m))
                            } else {
                                None
                            },
                        }
                    },
                }
            }
        },
    }
}

/// What a between-markers rule reads from `text`: the part after the
/// first start marker (from the beginning when the marker is empty) up to
/// the first end marker after it (to the end when empty), trimmed; none
/// when `text` is empty, a marker is missing, or the part is blank.
pub open spec fn between_extraction(text: Seq<char>, start_marker: Seq<char>, end_marker: Seq<char>) -> Option<Seq<char>> {
    if text.len() == 0 {
        None
    } else {
        let start_at: Option<int> = if start_marker.len() == 0 {
            Some(0)
        } else {
            match first_index_from(text, start_marker, 0) {
                Some(i) => Some(i + start_marker.len()),
                None => None,
            }
        };
        match start_at {
            None => None,
            Some(start) => {
                let end_at: Option<int> = if end_marker.len() == 0 {
                    Some(text.len() as int)
                } else {
                    first_index_from(text, end_marker, start)
                };
                match end_at {
                    None => None,
                    Some(end) => if start > end {
                        None
                    } else {
                        let v = trim(text.subrange(start, end));
                        if v.len() > 0 {
                            Some(v)
                        } else {
                            None
                        }
                    },
                }
            },
        }
    }
}

/// A between-markers rule reads the text after the first start marker up
/// to the first end marker that follows it, trimmed (nothing when that
/// is blank), whatever stands before the start marker; with no end
/// marker after the start marker it reads nothing.
pub proof fn lemma_between_reads_between_markers(
    text: Seq<char>,
    start_marker: Seq<char>,
    end_marker: Seq<char>,
    s: int,
    e: int,
)
    requires
        start_marker.len() > 0,
        end_marker.len() > 0,
        occurs_at(text, start_marker, s),
        forall|j: int| 0 <= j < s ==> !occurs_at(text, start_marker, j),
    ensures
        (s + start_marker.len() <= e && occurs_at(text, end_marker, e) && forall|j: int|
            s + start_marker.len() <= j < e ==> !occurs_at(text, end_marker, j)) ==> between_extraction(
            text,
            start_marker,
            end_marker,
        ) == (if trim(text.subrange(s + start_marker.len(), e)).len() > 0 {
            Some(trim(text.subrange(s + start_marker.len(), e)))
        } else {
            None::<Seq<char>>
        }),
        (forall|j: int| s + start_marker.len() <= j ==> !occurs_at(text, end_marker, j)) ==> between_extraction(
            text,
            start_marker,
            end_marker,
        ) is None,
{
    lemma_first_index_some(text, start_marker, 0, s);
    assert(text.len() > 0);
    let start = s + start_marker.len();
    if start <= e && occurs_at(text, end_marker, e) && forall|j: int| start <= j < e ==> !occurs_at(text, end_marker, j) {
        lemma_first_index_some(text, end_marker, start, e);
    }
    if forall|j: int| start <= j ==> !occurs_at(text, end_marker, j) {
        lemma_first_index_none(text, end_marker, start);
    }
}

/// Without an end marker a between-markers rule reads from just after the
/// first start marker to the end of the text; without a start marker it
/// reads from the beginning up to the first end marker.
pub proof fn lemma_between_open_ends(text: Seq<char>, marker: Seq<char>, at: int)
    requires
        marker.len() > 0,
        occurs_at(text, marker, at),
        forall|j: int| 0 <= j < at ==> !occurs_at(text, marker, j),
    ensures
        between_extraction(text, marker, seq![]) == (if trim(text.subrange(at + marker.len(), text.len() as int)).len()
            > 0 {
            Some(trim(text.subrange(at + marker.len(), text.len() as int)))
        } else {
            None::<Seq<char>>
        }),
        between_extraction(text, seq![], marker) == (if trim(text.subrange(0, at)).len() > 0 {
            Some(trim(text.subrange(0, at)))
        } else {
            None::<Seq<char>>
        }),
{
    lemma_first_index_some(text, marker, 0, at);
    assert(text.len() > 0);
}

/// The value a custom rule reads from a notification, if any.
pub open spec fn custom_value(rec: NotificationRecord, rule: VariableExtractionRule) -> Option<Seq<char>> {
    match rule.method {
        VariableExtractionMethod::Regex => regex_extraction(
            rule.pattern,
            source_text(rec, rule.source),
            rule.group_index,
        ),
        VariableExtractionMethod::Between => between_extraction(
            source_text(rec, rule.source),
            opt_text(rule.pattern),
            opt_text(rule.end_pattern),
        ),
    }
}

fn extract_regex_value(notification: &NotificationRecord, rule: &VariableExtractionRule) -> (r: Option<String>)
    ensures
        opt_view(r) == regex_extraction(rule.pattern, source_text(*notification, rule.source), rule.group_index),
{
    let pattern = match &rule.pattern {
        Some(p) => p,
        None => return None,
    };
    let pt = trimmed(pattern.as_str());
    if pt.len() == 0 {
        return None;
    }
    let pts = string_of(&pt);
    let text = source_text_exec(notification, rule.source);
    match regex_captures(pts.as_str(), text.as_str()) {
        None => None,
        Some(None) => None,
        Some(Some(groups)) => {
            let ghost gv = groups@.map_values(|g: Option<String>| opt_view(g));
            let requested: usize = match rule.group_index {
                Some(g) => g,
                None => 1,
            };
            let index: usize = if requested < groups.len() {
                requested
            } else {
                0
            };
            assert(gv[index as int] == opt_view(groups@[index as int]));
            match &groups[index] {
                None => None,
                Some(m) => {
                    let v = trimmed(m.as_str());
                    if v.len() > 0 {
                        Some(string_of(&v))
                    } else {
                        None
                    }
                },
            }
        },
    }
}

fn extract_between_value(notification: &NotificationRecord, rule: &VariableExtractionRule) -> (r: Option<String>)
    ensures
        opt_view(r) == between_extraction(
            source_text(*notification, rule.source),
            opt_text(rule.pattern),
            opt_text(rule.end_pattern),
        ),
{
    let text = chars_of(source_text_exec(notification, rule.source).as_str());
    if text.len() == 0 {
        return None;
    }
    let sm: Vec<char> = match &rule.pattern {
        Some(p) => chars_of(p.as_str()),
        None => Vec::new(),
    };
    let em: Vec<char> = match &rule.end_pattern {
        Some(p) => chars_of(p.as_str()),
        None => Vec::new(),
    };
    let start: usize = if sm.len() == 0 {
        0
    } else {
        match find_from(&text, &sm, 0) {
            Some(i) => i + sm.len(),
            None => return None,
        }
    };
    assert(sm@ == opt_text(rule.pattern));
    assert(em@ == opt_text(rule.end_pattern));
    assert(sm.len() > 0 ==> first_index_from(text@, sm@, 0) == Some((start - sm.len()) as int));
    let end: usize = if em.len() == 0 {
        text.len()
    } else {
        match find_from(&text, &em, start) {
            Some(j) => j,
            None => return None,
        }
    };
    if start > end {
        return None;
    }
    let part = slice_chars(&text, start, end);
    let v = trim_chars(&part);
    if v.len() > 0 {
        Some(string_of(&v))
    } else {
        None
    }
}

/// The value a custom rule reads from a notification, if any.
pub fn extract_custom_value(notification: &NotificationRecord, rule: &VariableExtractionRule) -> (r: Option<String>)
    ensures
        opt_view(r) == custom_value(*notification, *rule),
{
    match rule.method {
        VariableExtractionMethod::Regex => extract_regex_value(notification, rule),
        VariableExtractionMethod::Between => extract_between_value(notification, rule),
    }
}

// ---------------------------------------------------------------------
// All variables of a notification
// ---------------------------------------------------------------------

/// How the `timestamp` variable writes a notification's delivery time:
/// date and time of day in UTC, to the second.
pub open spec fn timestamp_pattern() -> Seq<char> {
    "%Y-%m-%d %H:%M:%S"@
}

/// The built-in variables, in the order they are set.
pub open spec fn builtin_pairs(rec: NotificationRecord) -> Pairs {
    let urls = extracted_urls(rec.title@, rec.subtitle@, rec.body@);
    let json = spec_json_string_list(urls);
    seq![
        ("app_id"@, rec.app_identifier@),
        ("app_name"@, rec.app_name@),
        ("title"@, rec.title@),
        ("subtitle"@, rec.subtitle@),
        ("body"@, rec.body@),
        ("timestamp"@, spec_format_timestamp(rec.delivered_at as int, timestamp_pattern())),
        ("url"@, if urls.len() > 0 { urls[0] } else { Seq::<char>::empty() }),
        ("url_count"@, spec_decimal(urls.len())),
        ("urls"@, join(urls, seq![' '])),
        ("urls_count"@, spec_decimal(urls.len())),
        ("urls_json"@, json),
        (url_values_key(), json),
    ]
}

/// The custom variables, in rule order: each rule with a valid (trimmed)
/// name that reads a value.
pub open spec fn custom_pairs(rec: NotificationRecord, rules: Seq<VariableExtractionRule>) -> Pairs
    decreases rules.len(),
{
    if rules.len() == 0 {
        seq![]
    } else {
        let prev = custom_pairs(rec, rules.drop_last());
        let rule = rules.last();
        let name = trim(rule.name@);
        if valid_variable_name(name) {
            match custom_value(rec, rule) {
                Some(v) => prev.push((name, v)),
                None => prev,
            }
        } else {
            prev
        }
    }
}

/// Every variable assignment of a notification, in order; a later one
/// replaces an earlier one with the same name.
pub open spec fn variable_pairs(rec: NotificationRecord, rules: Seq<VariableExtractionRule>) -> Pairs {
    builtin_pairs(rec) + custom_pairs(rec, rules)
}

fn put(m: &mut StringMap, key: String, value: String, Ghost(ps): Ghost<Pairs>)
    requires
        forall|k: Seq<char>| #[trigger] old(m).get_spec(k) == lookup_last(ps, k),
    ensures
        forall|k: Seq<char>| #[trigger] final(m).get_spec(k) == lookup_last(ps.push((key@, value@)), k),
{
    let ghost kv = key@;
    let ghost vv = value@;
    m.insert(key, value);
    assert(ps.push((kv, vv)).drop_last() =~= ps);
}

/// The variables of a notification: `app_id`, `app_name`, `title`,
/// `subtitle`, `body`, `timestamp`, the links (`url`, `url_count`,
/// `urls`, `urls_count`, `urls_json` and an internal copy of the list),
/// then the custom variables of `custom_rules`.
pub fn extract_variables(notification: &NotificationRecord, custom_rules: &Vec<VariableExtractionRule>) -> (r: StringMap)
    ensures
        forall|k: Seq<char>| #[trigger]
            r.get_spec(k) == lookup_last(variable_pairs(*notification, custom_rules@), k),
{
    let ghost rec = *notification;
    let mut m = StringMap::new();
    let ghost mut ps: Pairs = seq![];
    put(&mut m, owned("app_id"), notification.app_identifier.clone(), Ghost(ps));
    proof { ps = ps.push(("app_id"@, rec.app_identifier@)); }
    put(&mut m, owned("app_name"), notification.app_name.clone(), Ghost(ps));
    proof { ps = ps.push(("app_name"@, rec.app_name@)); }
    put(&mut m, owned("title"), notification.title.clone(), Ghost(ps));
    proof { ps = ps.push(("title"@, rec.title@)); }
    put(&mut m, owned("subtitle"), notification.subtitle.clone(), Ghost(ps));
    proof { ps = ps.push(("subtitle"@, rec.subtitle@)); }
    put(&mut m, owned("body"), notification.body.clone(), Ghost(ps));
    proof { ps = ps.push(("body"@, rec.body@)); }
    let stamp = format_timestamp(notification.delivered_at, "%Y-%m-%d %H:%M:%S");
    put(&mut m, owned("timestamp"), stamp, Ghost(ps));
    proof { ps = ps.push(("timestamp"@, spec_format_timestamp(rec.delivered_at as int, timestamp_pattern()))); }
    let urls = extract_urls(notification);
    let ghost uv = urls@.map_values(|s: String| s@);
    assert(uv.len() == urls.len());
    let json = json_string_list(&urls);
    let first = if urls.len() > 0 {
        assert(uv[0] == urls@[0]@);
        urls[0].clone()
    } else {
        String::new()
    };
    put(&mut m, owned("url"), first, Ghost(ps));
    proof { ps = ps.push(("url"@, if uv.len() > 0 { uv[0] } else { Seq::<char>::empty() })); }
    let count = string_of(&decimal(urls.len() as u64));
    put(&mut m, owned("url_count"), count, Ghost(ps));
    proof { ps = ps.push(("url_count"@, spec_decimal(uv.len()))); }
    let mut url_chars: Vec<Vec<char>> = Vec::new();
    let mut i: usize = 0;
    while i < urls.len()
        invariant
            i <= urls.len(),
            uv == urls@.map_values(|s: String| s@),
            views(url_chars@) =~= uv.take(i as int),
        decreases urls.len() - i,
    {
        let ghost before = views(url_chars@);
        url_chars.push(chars_of(urls[i].as_str()));
        assert(views(url_chars@) =~= before.push(uv[i as int]));
        assert(uv.take(i + 1) =~= uv.take(i as int).push(uv[i as int]));
        i += 1;
    }
    assert(uv.take(urls.len() as int) =~= uv);
    let mut space: Vec<char> = Vec::new();
    space.push(' ');
    assert(space@ =~= seq![' ']);
    let joined = string_of(&join_chars(&url_chars, &space));
    put(&mut m, owned("urls"), joined, Ghost(ps));
    proof { ps = ps.push(("urls"@, join(uv, seq![' ']))); }
    let count2 = string_of(&decimal(urls.len() as u64));
    put(&mut m, owned("urls_count"), count2, Ghost(ps));
    proof { ps = ps.push(("urls_count"@, spec_decimal(uv.len()))); }
    put(&mut m, owned("urls_json"), json.clone(), Ghost(ps));
    proof { ps = ps.push(("urls_json"@, spec_json_string_list(uv))); }
    put(&mut m, owned("__noticeflow_url_values"), json, Ghost(ps));
    proof { ps = ps.push((url_values_key(), spec_json_string_list(uv))); }
    assert(ps =~= builtin_pairs(rec));
    let mut j: usize = 0;
    while j < custom_rules.len()
        invariant
            j <= custom_rules.len(),
            rec == *notification,
            forall|k: Seq<char>| #[trigger]
                m.get_spec(k) == lookup_last(
                    builtin_pairs(rec) + custom_pairs(rec, custom_rules@.take(j as int)),
                    k,
                ),
        decreases custom_rules.len() - j,
    {
        let ghost before = builtin_pairs(rec) + custom_pairs(rec, custom_rules@.take(j as int));
        assert(custom_rules@.take(j + 1).drop_last() =~= custom_rules@.take(j as int));
        assert(custom_rules@.take(j + 1).last() == custom_rules@[j as int]);
        let rule = &custom_rules[j];
        let name = trimmed(rule.name.as_str());
        let name_s = string_of(&name);
        if is_valid_variable_name(name_s.as_str()) {
            match extract_custom_value(notification, rule) {
                Some(v) => {
                    put(&mut m, name_s, v, Ghost(before));
                    assert(before.push((trim(rule.name@), custom_value(rec, *rule)->0)) =~= builtin_pairs(rec)
                        + custom_pairs(rec, custom_rules@.take(j + 1)));
                },
                None => {
                    assert(before =~= builtin_pairs(rec) + custom_pairs(rec, custom_rules@.take(j + 1)));
                },
            }
        } else {
            assert(before =~= builtin_pairs(rec) + custom_pairs(rec, custom_rules@.take(j + 1)));
        }
        j += 1;
    }
    assert(custom_rules@.take(custom_rules.len() as int) =~= custom_rules@);
    m
}

} // verus!
