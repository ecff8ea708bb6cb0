//! Property lists as the library reads them: the entries of the root
//! dictionary, a nested dictionary kept with its string values, and the
//! lookups the notification payload and `Info.plist` need.
use vstd::prelude::*;
use crate::foreign::opt_view;
use crate::text::{chars_eq, chars_of};

verus! {

/// An entry of a root dictionary.
#[derive(Clone, Debug)]
pub enum PlistEntry {
    /// A string.
    Text(String),
    /// A dictionary: every key, with its value when that is a string.
    Dictionary(Vec<(String, Option<String>)>),
    /// Any other value.
    Other,
}

/// An entry as a value.
pub enum PlistEntryView {
    Text(Seq<char>),
    Dictionary(Seq<(Seq<char>, Option<Seq<char>>)>),
    Other,
}

/// The entries of a nested dictionary as values.
pub open spec fn dictionary_view(d: Seq<(String, Option<String>)>) -> Seq<(Seq<char>, Option<Seq<char>>)> {
    d.map_values(|e: (String, Option<String>)| (e.0@, opt_view(e.1)))
}

pub open spec fn entry_view(e: PlistEntry) -> PlistEntryView {
    match e {
        PlistEntry::Text(t) => PlistEntryView::Text(t@),
        PlistEntry::Dictionary(d) => PlistEntryView::Dictionary(dictionary_view(d@)),
        PlistEntry::Other => PlistEntryView::Other,
    }
}

/// The entries of a root dictionary as values.
pub open spec fn root_view(r: Seq<(String, PlistEntry)>) -> Seq<(Seq<char>, PlistEntryView)> {
    r.map_values(|e: (String, PlistEntry)| (e.0@, entry_view(e.1)))
}

/// The value of the first entry named `key`.
pub open spec fn first_entry<T>(entries: Seq<(Seq<char>, T)>, key: Seq<char>) -> Option<T>
    decreases entries.len(),
{
    if entries.len() == 0 {
        None
    } else if entries[0].0 == key {
        Some(entries[0].1)
    } else {
        first_entry(entries.drop_first(), key)
    }
}

/// The string named `key` in the root dictionary.
pub open spec fn root_text(root: Seq<(Seq<char>, PlistEntryView)>, key: Seq<char>) -> Option<Seq<char>> {
    match first_entry(root, key) {
        Some(PlistEntryView::Text(t)) => Some(t),
        _ => None,
    }
}

/// The dictionary named `key` in the root dictionary.
pub open spec fn root_dictionary(root: Seq<(Seq<char>, PlistEntryView)>, key: Seq<char>) -> Option<
    Seq<(Seq<char>, Option<Seq<char>>)>,
> {
    match first_entry(root, key) {
        Some(PlistEntryView::Dictionary(d)) => Some(d),
        _ => None,
    }
}

/// The string named `key` in a nested dictionary.
pub open spec fn dictionary_text(d: Seq<(Seq<char>, Option<Seq<char>>)>, key: Seq<char>) -> Option<Seq<char>> {
    match first_entry(d, key) {
        Some(v) => v,
        None => None,
    }
}

/// Where the first entry named `key` stands, if any.
fn root_index(root: &Vec<(String, PlistEntry)>, key: &str) -> (r: Option<usize>)
    ensures
        match r {
            Some(i) => i < root@.len() && first_entry(root_view(root@), key@) == Some(entry_view(root@[i as int].1)),
            None => first_entry(root_view(root@), key@) is None,
        },
{
    let ghost v = root_view(root@);
    assert(v.skip(0) =~= v);
    let mut i: usize = 0;
    while i < root.len()
        invariant
            i <= root@.len(),
            v == root_view(root@),
            first_entry(v, key@) == first_entry(v.skip(i as int), key@),
        decreases root.len() - i,
    {
        let ghost rest = v.skip(i as int);
        assert(rest[0] == (root@[i as int].0@, entry_view(root@[i as int].1)));
        if chars_eq(&chars_of(root[i].0.as_str()), &chars_of(key)) {
            return Some(i);
        }
        assert(rest.drop_first() =~= v.skip(i + 1));
        i += 1;
    }
    assert(v.skip(i as int).len() == 0);
    None
}

/// The string named `key` in the root dictionary.
pub fn root_text_of(root: &Vec<(String, PlistEntry)>, key: &str) -> (r: Option<String>)
    ensures
        opt_view(r) == root_text(root_view(root@), key@),
{
    match root_index(root, key) {
        Some(i) => match &root[i].1 {
            PlistEntry::Text(t) => Some(t.clone()),
            _ => None,
        },
        None => None,
    }
}

/// The string named `key` of the dictionary named `dictionary` in the
/// root dictionary (none when there is no such dictionary).
pub fn nested_text_of(root: &Vec<(String, PlistEntry)>, dictionary: &str, key: &str) -> (r: Option<String>)
    ensures
        opt_view(r) == (match root_dictionary(root_view(root@), dictionary@) {
            Some(d) => dictionary_text(d, key@),
            None => None,
        }),
{
    match root_index(root, dictionary) {
        Some(i) => match &root[i].1 {
            PlistEntry::Dictionary(d) => {
                let ghost v = dictionary_view(d@);
                assert(v.skip(0) =~= v);
                assert(root_dictionary(root_view(root@), dictionary@) == Some(v));
                let mut j: usize = 0;
                while j < d.len()
                    invariant
                        j <= d@.len(),
                        v == dictionary_view(d@),
                        root_dictionary(root_view(root@), dictionary@) == Some(v),
                        first_entry(v, key@) == first_entry(v.skip(j as int), key@),
                    decreases d.len() - j,
                {
                    let ghost rest = v.skip(j as int);
                    assert(rest[0] == (d@[j as int].0@, opt_view(d@[j as int].1)));
                    if chars_eq(&chars_of(d[j].0.as_str()), &chars_of(key)) {
                        assert(first_entry(v, key@) == Some(opt_view(d@[j as int].1)));
                        let out: Option<String> = match &d[j].1 {
                            Some(t) => Some(t.clone()),
                            None => None,
                        };
                        assert(opt_view(out) == opt_view(d@[j as int].1));
                        assert(dictionary_text(v, key@) == opt_view(d@[j as int].1));
                        return out;
                    }
                    assert(rest.drop_first() =~= v.skip(j + 1));
                    j += 1;
                }
                assert(v.skip(j as int).len() == 0);
                None
            },
            _ => None,
        },
        None => None,
    }
}

} // verus!
