//! The application's settings: their normal form, where the data lives,
//! which data directories are safe, and where the login item goes.
use vstd::prelude::*;
use crate::foreign::{data_dir, home_dir};
use crate::paths::{components_of, join_path, path_components, path_join};
use crate::strmap::{text_less, text_lt};
use crate::text::{
    chars_eq, chars_eq_str, chars_of, eq_ignore_ascii_case, eq_ignore_ascii_case_chars,
    lowercase_chars, owned, slice_chars, spec_to_lowercase, string_of, trim, trim_chars, trimmed,
    views,
};
use crate::automation::{filter_mode_name, filter_mode_of, normalized_app_filter_mode};

verus! {

/// The application's settings.
#[derive(Clone, Debug)]
pub struct AppSettings {
    pub launch_at_login: bool,
    pub data_directory: Option<String>,
    pub app_filter_mode: Option<String>,
    pub ignored_app_identifiers: Vec<String>,
}

impl Default for AppSettings {
    fn default() -> (r: AppSettings)
        ensures
            !r.launch_at_login,
            r.data_directory is None,
            r.app_filter_mode is None,
            r.ignored_app_identifiers@.len() == 0,
    {
        AppSettings {
            launch_at_login: false,
            data_directory: None,
            app_filter_mode: None,
            ignored_app_identifiers: Vec::new(),
        }
    }
}

// ---------------------------------------------------------------------
// Normal form
// ---------------------------------------------------------------------

/// `s` without trailing slashes.
pub open spec fn strip_trailing_slashes(s: Seq<char>) -> Seq<char>
    decreases s.len(),
{
    if s.len() > 0 && s.last() == '/' {
        strip_trailing_slashes(s.drop_last())
    } else {
        s
    }
}

/// A data directory as stored: trimmed, trailing slashes dropped (the
/// root stays `/`).
pub open spec fn clean_dir(p: Seq<char>) -> Seq<char> {
    let t = trim(p);
    if t == seq!['/'] {
        t
    } else {
        strip_trailing_slashes(t)
    }
}

/// Cleans a data directory path.
pub fn clean_data_directory(path: &str) -> (r: String)
    ensures
        r@ == clean_dir(path@),
{
    let t = trimmed(path);
    if t.len() == 1 && t[0] == '/' {
        assert(t@ =~= seq!['/']);
        return string_of(&t);
    }
    assert(t@ != seq!['/']) by {
        if t@.len() == 1 {
            assert(t@ =~= seq!['/'] <==> t@[0] == '/');
        }
    }
    let mut n: usize = t.len();
    assert(t@.take(n as int) =~= t@);
    while n > 0 && t[n - 1] == '/'
        invariant
            n <= t.len(),
            strip_trailing_slashes(t@) == strip_trailing_slashes(t@.take(n as int)),
        decreases n,
    {
        assert(t@.take(n as int).drop_last() =~= t@.take(n - 1));
        assert(t@.take(n as int).last() == t@[n - 1]);
        n -= 1;
    }
    let r = slice_chars(&t, 0, n);
    assert(r@ =~= t@.take(n as int));
    string_of(&r)
}

/// The ignored or selected applications, in order of first mention:
/// trimmed, blanks dropped, and an identifier equal to an earlier one up
/// to ASCII case dropped.
pub open spec fn dedup_identifiers(items: Seq<String>) -> Seq<Seq<char>>
    decreases items.len(),
{
    if items.len() == 0 {
        seq![]
    } else {
        let prev = dedup_identifiers(items.drop_last());
        let t = trim(items.last()@);
        if t.len() == 0 || exists|j: int| 0 <= j < prev.len() && eq_ignore_ascii_case(#[trigger] prev[j], t) {
            prev
        } else {
            prev.push(t)
        }
    }
}

/// `x` placed into `s` after every element whose lowercase form does not
/// sort after its own.
pub open spec fn insert_stable(x: Seq<char>, s: Seq<Seq<char>>) -> Seq<Seq<char>>
    decreases s.len(),
{
    if s.len() == 0 {
        seq![x]
    } else if text_lt(spec_to_lowercase(x), spec_to_lowercase(s.last())) {
        insert_stable(x, s.drop_last()).push(s.last())
    } else {
        s.push(x)
    }
}

/// `s` stably sorted by lowercase form.
pub open spec fn sort_by_lowercase(s: Seq<Seq<char>>) -> Seq<Seq<char>>
    decreases s.len(),
{
    if s.len() == 0 {
        seq![]
    } else {
        insert_stable(s.last(), sort_by_lowercase(s.drop_last()))
    }
}

proof fn lemma_insert_stable_at(x: Seq<char>, s: Seq<Seq<char>>, j: int)
    requires
        0 <= j <= s.len(),
        forall|k: int| j <= k < s.len() ==> text_lt(spec_to_lowercase(x), spec_to_lowercase(#[trigger] s[k])),
        j == 0 || !text_lt(spec_to_lowercase(x), spec_to_lowercase(s[j - 1])),
    ensures
        insert_stable(x, s) == s.take(j).push(x) + s.skip(j),
    decreases s.len(),
{
    if s.len() == 0 {
        assert(s.take(j).push(x) + s.skip(j) =~= seq![x]);
    } else if j == s.len() {
        assert(s.take(j) =~= s);
        assert(s.take(j).push(x) + s.skip(j) =~= s.push(x));
    } else {
        assert(text_lt(spec_to_lowercase(x), spec_to_lowercase(s[s.len() - 1])));
        let d = s.drop_last();
        assert forall|k: int| j <= k < d.len() implies text_lt(spec_to_lowercase(x), spec_to_lowercase(#[trigger] d[k])) by {
            assert(d[k] == s[k]);
        }
        if j > 0 {
            assert(d[j - 1] == s[j - 1]);
        }
        lemma_insert_stable_at(x, d, j);
        assert((d.take(j).push(x) + d.skip(j)).push(s.last()) =~= s.take(j).push(x) + s.skip(j));
    }
}

/// Normalizes the list of selected applications: trimmed, without blanks
/// or ASCII-case repeats, sorted by lowercase form (ties keep their
/// order).
pub fn normalize_ignored_app_identifiers(items: &Vec<String>) -> (r: Vec<String>)
    ensures
        r@.map_values(|s: String| s@) == sort_by_lowercase(dedup_identifiers(items@)),
{
    let mut kept: Vec<Vec<char>> = Vec::new();
    let mut i: usize = 0;
    while i < items.len()
        invariant
            i <= items.len(),
            views(kept@) == dedup_identifiers(items@.take(i as int)),
        decreases items.len() - i,
    {
        assert(items@.take(i + 1).drop_last() =~= items@.take(i as int));
        assert(items@.take(i + 1).last() == items@[i as int]);
        let t = trimmed(items[i].as_str());
        let ghost prev = views(kept@);
        if t.len() > 0 {
            let mut dup = false;
            let mut j: usize = 0;
            while j < kept.len()
                invariant
                    j <= kept.len(),
                    prev == views(kept@),
                    dup == exists|k: int| 0 <= k < j && eq_ignore_ascii_case(#[trigger] prev[k], t@),
                decreases kept.len() - j,
            {
                if eq_ignore_ascii_case_chars(&kept[j], &t) {
                    dup = true;
                }
                assert(prev[j as int] == kept@[j as int]@);
                j += 1;
            }
            if !dup {
                kept.push(t);
                assert(views(kept@) =~= prev.push(trim(items@[i as int]@)));
            }
        }
        i += 1;
    }
    assert(items@.take(items.len() as int) =~= items@);
    let ghost deduped = views(kept@);
    let mut sorted: Vec<Vec<char>> = Vec::new();
    let mut keys: Vec<Vec<char>> = Vec::new();
    let mut m: usize = 0;
    while m < kept.len()
        invariant
            m <= kept.len(),
            deduped == views(kept@),
            views(sorted@) == sort_by_lowercase(deduped.take(m as int)),
            keys@.len() == sorted@.len(),
            forall|k: int| 0 <= k < keys@.len() ==> #[trigger] keys@[k]@ == spec_to_lowercase(sorted@[k]@),
        decreases kept.len() - m,
    {
        assert(deduped.take(m + 1).drop_last() =~= deduped.take(m as int));
        assert(deduped.take(m + 1).last() == kept@[m as int]@);
        let x = kept[m].clone();
        let kx = lowercase_chars(&x);
        let ghost before = views(sorted@);
        let mut pos: usize = sorted.len();
        while pos > 0 && text_less(&kx, &keys[pos - 1])
            invariant
                pos <= sorted.len(),
                keys@.len() == sorted@.len(),
                kx@ == spec_to_lowercase(x@),
                before == views(sorted@),
                forall|k: int| 0 <= k < keys@.len() ==> #[trigger] keys@[k]@ == spec_to_lowercase(sorted@[k]@),
                forall|k: int| pos <= k < sorted@.len() ==> text_lt(spec_to_lowercase(x@), spec_to_lowercase(#[trigger] before[k])),
            decreases pos,
        {
            assert(keys@[pos - 1]@ == spec_to_lowercase(before[pos - 1]));
            pos -= 1;
        }
        proof {
            if pos > 0 {
                assert(keys@[pos - 1]@ == spec_to_lowercase(before[pos - 1]));
            }
            lemma_insert_stable_at(x@, before, pos as int);
        }
        let ghost old_keys = keys@;
        let ghost old_sorted = sorted@;
        sorted.insert(pos, x);
        keys.insert(pos, kx);
        assert(views(sorted@) =~= before.take(pos as int).push(kept@[m as int]@) + before.skip(pos as int));
        assert forall|k: int| 0 <= k < keys@.len() implies #[trigger] keys@[k]@ == spec_to_lowercase(sorted@[k]@) by {
            if k < pos {
                assert(keys@[k] == old_keys[k]);
                assert(sorted@[k] == old_sorted[k]);
            } else if k > pos {
                assert(keys@[k] == old_keys[k - 1]);
                assert(sorted@[k] == old_sorted[k - 1]);
            }
        }
        m += 1;
    }
    assert(deduped.take(kept.len() as int) =~= deduped);
    let mut r: Vec<String> = Vec::new();
    let mut q: usize = 0;
    while q < sorted.len()
        invariant
            q <= sorted.len(),
            r@.map_values(|s: String| s@) =~= views(sorted@).take(q as int),
        decreases sorted.len() - q,
    {
        let ghost b = r@.map_values(|s: String| s@);
        r.push(string_of(&sorted[q]));
        assert(r@.map_values(|s: String| s@) =~= b.push(sorted@[q as int]@));
        assert(views(sorted@).take(q + 1) =~= views(sorted@).take(q as int).push(sorted@[q as int]@));
        q += 1;
    }
    assert(views(sorted@).take(sorted.len() as int) =~= views(sorted@));
    r
}

// ---------------------------------------------------------------------
// Normalizing twice
// ---------------------------------------------------------------------

/// Identifiers as normalization leaves them: trimmed, not blank, and no
/// two equal up to ASCII case.
pub open spec fn normal_identifiers(l: Seq<Seq<char>>) -> bool {
    &&& forall|i: int| 0 <= i < l.len() ==> trim(#[trigger] l[i]) == l[i] && l[i].len() > 0
    &&& forall|i: int, j: int|
        0 <= i < l.len() && 0 <= j < l.len() && i != j ==> !eq_ignore_ascii_case(#[trigger] l[i], #[trigger] l[j])
}

/// No element's lowercase form sorts before that of an earlier one.
pub open spec fn sorted_by_lowercase(l: Seq<Seq<char>>) -> bool {
    forall|i: int, j: int|
        0 <= i < j < l.len() ==> !text_lt(spec_to_lowercase(#[trigger] l[j]), spec_to_lowercase(#[trigger] l[i]))
}

proof fn lemma_eq_ignore_case_symmetric(a: Seq<char>, b: Seq<char>)
    requires
        eq_ignore_ascii_case(a, b),
    ensures
        eq_ignore_ascii_case(b, a),
{
    assert forall|k: int| 0 <= k < b.len() implies crate::text::ascii_lower(#[trigger] b[k]) == crate::text::ascii_lower(a[k]) by {
        assert(crate::text::ascii_lower(a[k]) == crate::text::ascii_lower(b[k]));
    }
}

proof fn lemma_dedup_normal(items: Seq<String>)
    ensures
        normal_identifiers(dedup_identifiers(items)),
    decreases items.len(),
{
    if items.len() > 0 {
        let prev = dedup_identifiers(items.drop_last());
        lemma_dedup_normal(items.drop_last());
        let t = trim(items.last()@);
        crate::text::lemma_trim_idempotent(items.last()@);
        if !(t.len() == 0 || exists|j: int| 0 <= j < prev.len() && eq_ignore_ascii_case(#[trigger] prev[j], t)) {
            let l = prev.push(t);
            assert forall|i: int, j: int|
                0 <= i < l.len() && 0 <= j < l.len() && i != j implies !eq_ignore_ascii_case(#[trigger] l[i], #[trigger] l[j]) by {
                if j == prev.len() {
                    assert(l[i] == prev[i]);
                } else if i == prev.len() {
                    assert(l[j] == prev[j]);
                    if eq_ignore_ascii_case(l[i], l[j]) {
                        lemma_eq_ignore_case_symmetric(l[i], l[j]);
                    }
                } else {
                    assert(l[i] == prev[i] && l[j] == prev[j]);
                }
            }
            assert forall|i: int| 0 <= i < l.len() implies trim(#[trigger] l[i]) == l[i] && l[i].len() > 0 by {
                if i < prev.len() {
                    assert(l[i] == prev[i]);
                }
            }
        }
    }
}

/// Normal identifiers come through deduplication as they are.
proof fn lemma_dedup_of_normal(items: Seq<String>)
    requires
        normal_identifiers(items.map_values(|s: String| s@)),
    ensures
        dedup_identifiers(items) == items.map_values(|s: String| s@),
    decreases items.len(),
{
    let l = items.map_values(|s: String| s@);
    if items.len() == 0 {
        assert(l =~= Seq::<Seq<char>>::empty());
    } else {
        let d = items.drop_last();
        let ld = d.map_values(|s: String| s@);
        assert(ld =~= l.drop_last());
        assert forall|i: int| 0 <= i < ld.len() implies trim(#[trigger] ld[i]) == ld[i] && ld[i].len() > 0 by {
            assert(ld[i] == l[i]);
        }
        assert forall|i: int, j: int|
            0 <= i < ld.len() && 0 <= j < ld.len() && i != j implies !eq_ignore_ascii_case(#[trigger] ld[i], #[trigger] ld[j]) by {
            assert(ld[i] == l[i] && ld[j] == l[j]);
        }
        lemma_dedup_of_normal(d);
        let last = items.last()@;
        assert(last == l[l.len() - 1]);
        assert(trim(last) == last);
        if exists|j: int| 0 <= j < ld.len() && eq_ignore_ascii_case(#[trigger] ld[j], last) {
            let j = choose|j: int| 0 <= j < ld.len() && eq_ignore_ascii_case(#[trigger] ld[j], last);
            assert(l[j] == ld[j]);
            assert(!eq_ignore_ascii_case(l[j], l[l.len() - 1]));
        }
        assert(ld.push(last) =~= l);
    }
}

/// Where the insertion puts `x`.
proof fn lemma_insert_stable_shape(x: Seq<char>, s: Seq<Seq<char>>) -> (j: int)
    ensures
        0 <= j <= s.len(),
        insert_stable(x, s) == s.take(j).push(x) + s.skip(j),
    decreases s.len(),
{
    if s.len() == 0 {
        assert(s.take(0).push(x) + s.skip(0) =~= seq![x]);
        0
    } else if text_lt(spec_to_lowercase(x), spec_to_lowercase(s.last())) {
        let d = s.drop_last();
        let j = lemma_insert_stable_shape(x, d);
        assert((d.take(j).push(x) + d.skip(j)).push(s.last()) =~= s.take(j).push(x) + s.skip(j));
        j
    } else {
        assert(s.take(s.len() as int).push(x) + s.skip(s.len() as int) =~= s.push(x));
        s.len() as int
    }
}

/// Sorting keeps normal identifiers normal and only holds what it was given.
proof fn lemma_sort_normal(s: Seq<Seq<char>>)
    ensures
        sort_by_lowercase(s).len() == s.len(),
        forall|y: Seq<char>| #[trigger] sort_by_lowercase(s).contains(y) ==> s.contains(y),
        normal_identifiers(s) ==> normal_identifiers(sort_by_lowercase(s)),
        sorted_by_lowercase(sort_by_lowercase(s)),
    decreases s.len(),
{
    if s.len() > 0 {
        let d = s.drop_last();
        let x = s.last();
        let a = sort_by_lowercase(d);
        lemma_sort_normal(d);
        let j = lemma_insert_stable_shape(x, a);
        let r = sort_by_lowercase(s);
        assert(r == a.take(j).push(x) + a.skip(j));
        assert forall|m: int| 0 <= m < r.len() implies (#[trigger] r[m] == (if m < j {
            a[m]
        } else if m == j {
            x
        } else {
            a[m - 1]
        })) by {}
        assert forall|y: Seq<char>| r.contains(y) implies s.contains(y) by {
            let m = choose|m: int| 0 <= m < r.len() && r[m] == y;
            if m == j {
                assert(s[s.len() - 1] == y);
            } else {
                let q = if m < j { m } else { m - 1 };
                assert(a.contains(a[q]));
                let p = choose|p: int| 0 <= p < d.len() && d[p] == a[q];
                assert(s[p] == y);
            }
        }
        if normal_identifiers(s) {
            assert forall|i: int| 0 <= i < d.len() implies trim(#[trigger] d[i]) == d[i] && d[i].len() > 0 by {
                assert(d[i] == s[i]);
            }
            assert forall|i: int, k: int|
                0 <= i < d.len() && 0 <= k < d.len() && i != k implies !eq_ignore_ascii_case(#[trigger] d[i], #[trigger] d[k]) by {
                assert(d[i] == s[i] && d[k] == s[k]);
            }
            assert(normal_identifiers(a));
            // x differs from every element of `a` up to case, both ways
            assert forall|q: int| 0 <= q < a.len() implies !eq_ignore_ascii_case(x, #[trigger] a[q])
                && !eq_ignore_ascii_case(a[q], x) by {
                assert(a.contains(a[q]));
                let p = choose|p: int| 0 <= p < d.len() && d[p] == a[q];
                assert(s[p] == a[q]);
                assert(s[s.len() - 1] == x);
            }
            assert(trim(x) == x && x.len() > 0) by {
                assert(s[s.len() - 1] == x);
            }
            assert forall|i: int| 0 <= i < r.len() implies trim(#[trigger] r[i]) == r[i] && r[i].len() > 0 by {
                if i < j {
                    assert(r[i] == a[i]);
                } else if i > j {
                    assert(r[i] == a[i - 1]);
                }
            }
            assert forall|i: int, k: int|
                0 <= i < r.len() && 0 <= k < r.len() && i != k implies !eq_ignore_ascii_case(#[trigger] r[i], #[trigger] r[k]) by {
                let ai = if i < j { i } else { i - 1 };
                let ak = if k < j { k } else { k - 1 };
                if i != j && k != j {
                    assert(r[i] == a[ai] && r[k] == a[ak]);
                    assert(ai != ak);
                } else if i == j {
                    assert(r[k] == a[ak]);
                } else {
                    assert(r[i] == a[ai]);
                }
            }
        }
        lemma_insert_stable_sorted(x, a);
    } else {
        assert(sort_by_lowercase(s) =~= Seq::<Seq<char>>::empty());
    }
}

/// Inserting into a sorted list keeps it sorted.
proof fn lemma_insert_stable_sorted(x: Seq<char>, s: Seq<Seq<char>>)
    requires
        sorted_by_lowercase(s),
    ensures
        sorted_by_lowercase(insert_stable(x, s)),
    decreases s.len(),
{
    let lx = spec_to_lowercase(x);
    if s.len() == 0 {
    } else if text_lt(lx, spec_to_lowercase(s.last())) {
        let d = s.drop_last();
        let last = s.last();
        assert forall|i: int, k: int| 0 <= i < k < d.len() implies !text_lt(spec_to_lowercase(#[trigger] d[k]), spec_to_lowercase(#[trigger] d[i])) by {
            assert(d[i] == s[i] && d[k] == s[k]);
        }
        lemma_insert_stable_sorted(x, d);
        let b = insert_stable(x, d);
        let j = lemma_insert_stable_shape(x, d);
        let r = b.push(last);
        assert forall|i: int| 0 <= i < b.len() implies !text_lt(spec_to_lowercase(last), spec_to_lowercase(#[trigger] b[i])) by {
            if i == j {
                assert(b[i] == x);
                crate::strmap::lemma_text_lt_asymmetric(lx, spec_to_lowercase(last));
            } else {
                let q = if i < j { i } else { i - 1 };
                assert(b[i] == d[q]);
                assert(s[q] == d[q]);
                assert(s[s.len() - 1] == last);
            }
        }
        assert forall|i: int, k: int| 0 <= i < k < r.len() implies !text_lt(spec_to_lowercase(#[trigger] r[k]), spec_to_lowercase(#[trigger] r[i])) by {
            if k == b.len() {
                assert(r[k] == last && r[i] == b[i]);
            } else {
                assert(r[k] == b[k] && r[i] == b[i]);
            }
        }
    } else {
        let r = s.push(x);
        let last = s.last();
        assert forall|i: int| 0 <= i < s.len() implies !text_lt(lx, spec_to_lowercase(#[trigger] s[i])) by {
            let li = spec_to_lowercase(s[i]);
            let ll = spec_to_lowercase(last);
            if text_lt(lx, li) {
                if i < s.len() - 1 {
                    assert(!text_lt(ll, li));
                    crate::strmap::lemma_text_lt_total(li, ll);
                    if text_lt(li, ll) {
                        crate::strmap::lemma_text_lt_transitive(lx, li, ll);
                    }
                }
            }
        }
        assert forall|i: int, k: int| 0 <= i < k < r.len() implies !text_lt(spec_to_lowercase(#[trigger] r[k]), spec_to_lowercase(#[trigger] r[i])) by {
            if k == s.len() {
                assert(r[k] == x && r[i] == s[i]);
            } else {
                assert(r[k] == s[k] && r[i] == s[i]);
            }
        }
    }
}

/// A sorted list comes out of sorting as it went in.
proof fn lemma_sort_of_sorted(s: Seq<Seq<char>>)
    requires
        sorted_by_lowercase(s),
    ensures
        sort_by_lowercase(s) == s,
    decreases s.len(),
{
    if s.len() > 0 {
        let d = s.drop_last();
        assert forall|i: int, k: int| 0 <= i < k < d.len() implies !text_lt(spec_to_lowercase(#[trigger] d[k]), spec_to_lowercase(#[trigger] d[i])) by {
            assert(d[i] == s[i] && d[k] == s[k]);
        }
        lemma_sort_of_sorted(d);
        if d.len() > 0 {
            assert(d.last() == s[s.len() - 2]);
            assert(!text_lt(spec_to_lowercase(s[s.len() - 1]), spec_to_lowercase(s[s.len() - 2])));
        }
        assert(d.push(s.last()) =~= s);
    } else {
        assert(sort_by_lowercase(s) =~= s);
    }
}

/// Normalizing the identifiers again changes nothing: the list the first
/// normalization gave, fed back, comes out the same.
pub proof fn lemma_normalizing_identifiers_twice(items: Seq<String>, again: Seq<String>)
    requires
        again.map_values(|s: String| s@) == sort_by_lowercase(dedup_identifiers(items)),
    ensures
        sort_by_lowercase(dedup_identifiers(again)) == sort_by_lowercase(dedup_identifiers(items)),
{
    let once = sort_by_lowercase(dedup_identifiers(items));
    lemma_dedup_normal(items);
    lemma_sort_normal(dedup_identifiers(items));
    lemma_dedup_of_normal(again);
    lemma_sort_of_sorted(once);
}


/// The data directory setting once normalized: cleaned, none when empty.
pub open spec fn normalized_dir(d: Option<String>) -> Option<Seq<char>> {
    match d {
        Some(p) => if clean_dir(p@).len() > 0 {
            Some(clean_dir(p@))
        } else {
            None
        },
        None => None,
    }
}

/// The settings in normal form: the data directory cleaned (none when
/// empty), the filter mode named explicitly, the application list
/// normalized.
pub open spec fn is_normalized_from(n: AppSettings, s: AppSettings) -> bool {
    &&& n.launch_at_login == s.launch_at_login
    &&& match n.data_directory {
        Some(d) => normalized_dir(s.data_directory) == Some(d@),
        None => normalized_dir(s.data_directory) is None,
    }
    &&& n.app_filter_mode matches Some(m) && m@ == filter_mode_name(
        filter_mode_of(
            match s.app_filter_mode {
                Some(m) => Some(m@),
                None => None,
            },
        ),
    )
    &&& n.ignored_app_identifiers@.map_values(|x: String| x@) == sort_by_lowercase(
        dedup_identifiers(s.ignored_app_identifiers@),
    )
}

proof fn lemma_strip_trailing_slashes(s: Seq<char>)
    ensures
        s.len() >= strip_trailing_slashes(s).len(),
        strip_trailing_slashes(s) == s.take(strip_trailing_slashes(s).len() as int),
        strip_trailing_slashes(s).len() > 0 ==> strip_trailing_slashes(s).last() != '/',
    decreases s.len(),
{
    if s.len() > 0 && s.last() == '/' {
        lemma_strip_trailing_slashes(s.drop_last());
        let r = strip_trailing_slashes(s.drop_last());
        assert(s.drop_last().take(r.len() as int) =~= s.take(r.len() as int));
    } else {
        assert(s.take(s.len() as int) =~= s);
    }
}

/// A cleaned directory whose last character is not white space is
/// cleaned again into itself.
proof fn lemma_clean_dir_stable(p: Seq<char>)
    requires
        clean_dir(p).len() > 0 ==> !crate::text::is_white_space(clean_dir(p)[clean_dir(p).len() - 1]),
    ensures
        clean_dir(clean_dir(p)) == clean_dir(p),
{
    let t = trim(p);
    let c = clean_dir(p);
    crate::text::lemma_trim_edges(p);
    lemma_strip_trailing_slashes(t);
    if c.len() > 0 {
        assert(c[0] == t[0]);
    }
    crate::text::lemma_trim_unchanged(c);
    if c == seq!['/'] {
    } else {
        if t == seq!['/'] {
            assert(c == t);
        }
        assert(strip_trailing_slashes(c) == c);
    }
}

/// What normalized settings look like: the login flag as given, the
/// filter mode `include` or `exclude`, and the ignored identifiers
/// trimmed, not blank, no two equal up to ASCII case, and in order of
/// their lowercase forms.
pub proof fn lemma_normalized_settings_shape(s0: AppSettings, s1: AppSettings)
    requires
        is_normalized_from(s1, s0),
    ensures
        s1.launch_at_login == s0.launch_at_login,
        s1.app_filter_mode matches Some(m) && (m@ == "include"@ || m@ == "exclude"@),
        normal_identifiers(s1.ignored_app_identifiers@.map_values(|x: String| x@)),
        sorted_by_lowercase(s1.ignored_app_identifiers@.map_values(|x: String| x@)),
{
    lemma_dedup_normal(s0.ignored_app_identifiers@);
    lemma_sort_normal(dedup_identifiers(s0.ignored_app_identifiers@));
}

/// Normalizing settings twice gives what normalizing once gave, when the
/// cleaned data directory does not end in white space (trimming happens
/// before trailing slashes are dropped, so one that does, such as
/// `"a/ /"`, is cleaned to `"a/ "` and then to `"a"`).
pub proof fn lemma_normalizing_settings_twice(s0: AppSettings, s1: AppSettings, s2: AppSettings)
    requires
        is_normalized_from(s1, s0),
        is_normalized_from(s2, s1),
        s0.data_directory matches Some(d) ==> (clean_dir(d@).len() > 0 ==> !crate::text::is_white_space(
            clean_dir(d@)[clean_dir(d@).len() - 1],
        )),
    ensures
        s2.launch_at_login == s1.launch_at_login,
        opt_dir(s2.data_directory) == opt_dir(s1.data_directory),
        opt_dir(s2.app_filter_mode) == opt_dir(s1.app_filter_mode),
        s2.ignored_app_identifiers@.map_values(|x: String| x@) == s1.ignored_app_identifiers@.map_values(|x: String| x@),
{
    match s0.data_directory {
        Some(d) => {
            lemma_clean_dir_stable(d@);
        },
        None => {},
    }
    reveal_strlit("include");
    reveal_strlit("exclude");
    crate::text::lemma_trim_unchanged("include"@);
    crate::text::lemma_trim_unchanged("exclude"@);
    assert("exclude"@ != "include"@) by {
        assert("exclude"@[0] != "include"@[0]);
    }
    lemma_normalizing_identifiers_twice(s0.ignored_app_identifiers@, s1.ignored_app_identifiers@);
}

/// The view of an optional string.
pub open spec fn opt_dir(o: Option<String>) -> Option<Seq<char>> {
    match o {
        Some(s) => Some(s@),
        None => None,
    }
}

/// Puts the settings into normal form.
pub fn normalize_settings(settings: &mut AppSettings)
    ensures
        is_normalized_from(*final(settings), *old(settings)),
{
    let dir: Option<String> = match &settings.data_directory {
        Some(d) => {
            let c = clean_data_directory(d.as_str());
            if chars_of(c.as_str()).len() > 0 {
                Some(c)
            } else {
                None
            }
        },
        None => None,
    };
    let mode = match &settings.app_filter_mode {
        Some(m) => normalized_app_filter_mode(Some(m.as_str())),
        None => normalized_app_filter_mode(None),
    };
    let ids = normalize_ignored_app_identifiers(&settings.ignored_app_identifiers);
    settings.data_directory = dir;
    settings.app_filter_mode = Some(mode);
    settings.ignored_app_identifiers = ids;
}

/// What a settings form submitted.
#[derive(Clone, Debug)]
pub struct SettingsUpdate {
    pub launch_at_login: bool,
    pub data_directory: Option<String>,
    pub app_filter_mode: Option<String>,
    pub ignored_app_identifiers: Vec<String>,
}

/// The settings a form submits, in normal form.
pub fn settings_from_update(update: SettingsUpdate) -> (r: AppSettings)
    ensures
        is_normalized_from(
            r,
            AppSettings {
                launch_at_login: update.launch_at_login,
                data_directory: update.data_directory,
                app_filter_mode: update.app_filter_mode,
                ignored_app_identifiers: update.ignored_app_identifiers,
            },
        ),
{
    let mut next = AppSettings {
        launch_at_login: update.launch_at_login,
        data_directory: update.data_directory,
        app_filter_mode: update.app_filter_mode,
        ignored_app_identifiers: update.ignored_app_identifiers,
    };
    normalize_settings(&mut next);
    next
}

// ---------------------------------------------------------------------
// Where things live
// ---------------------------------------------------------------------

/// The default data directory: `NoticeFlow` under the platform's data
/// directory, or under `Library/Application Support` of the home
/// directory.
pub open spec fn default_data_dir_of(data: Option<Seq<char>>, home: Option<Seq<char>>) -> Result<Seq<char>, Seq<char>> {
    match data {
        Some(d) => Ok(path_join(d, "NoticeFlow"@)),
        None => match home {
            Some(h) => Ok(path_join(path_join(h, "Library/Application Support"@), "NoticeFlow"@)),
            None => Err("无法读取应用支持目录"@),
        },
    }
}

/// `p` is the default data directory for some platform data and home
/// directories (which the environment decides).
pub open spec fn is_default_data_dir(p: Seq<char>) -> bool {
    exists|d: Option<Seq<char>>, h: Option<Seq<char>>| #[trigger] default_data_dir_of(d, h) == Ok::<Seq<char>, Seq<char>>(p)
}

/// The default data directory given the platform's data and home
/// directories.
pub fn default_data_dir_in(data: &Option<String>, home: &Option<String>) -> (r: Result<String, String>)
    ensures
        match r {
            Ok(p) => default_data_dir_of(
                match data {
                    Some(d) => Some(d@),
                    None => None,
                },
                match home {
                    Some(h) => Some(h@),
                    None => None,
                },
            ) == Ok::<Seq<char>, Seq<char>>(p@),
            Err(e) => default_data_dir_of(
                match data {
                    Some(d) => Some(d@),
                    None => None,
                },
                match home {
                    Some(h) => Some(h@),
                    None => None,
                },
            ) == Err::<Seq<char>, Seq<char>>(e@),
        },
{
    match data {
        Some(d) => Ok(join_path(d.as_str(), "NoticeFlow")),
        None => match home {
            Some(h) => {
                let support = join_path(h.as_str(), "Library/Application Support");
                Ok(join_path(support.as_str(), "NoticeFlow"))
            },
            None => Err(owned("无法读取应用支持目录")),
        },
    }
}

/// The default data directory of the current user.
pub fn default_data_dir() -> (r: Result<String, String>)
    ensures
        r matches Err(e) ==> e@ == "无法读取应用支持目录"@,
        r matches Ok(p) ==> is_default_data_dir(p@),
{
    let data = data_dir();
    let home = if data.is_none() {
        home_dir()
    } else {
        None
    };
    let r = default_data_dir_in(&data, &home);
    proof {
        if r is Err {
            assert(data is None && home is None);
        }
    }
    r
}

/// Where the settings file is kept: `settings.json` in the default data
/// directory.
pub fn settings_path() -> (r: Result<String, String>)
    ensures
        r matches Err(e) ==> e@ == "无法读取应用支持目录"@,
        r matches Ok(p) ==> exists|base: Seq<char>| is_default_data_dir(base) && p@ == path_join(base, "settings.json"@),
{
    match default_data_dir() {
        Ok(base) => Ok(join_path(base.as_str(), "settings.json")),
        Err(e) => Err(e),
    }
}

/// The login item of the application.
pub open spec fn launch_agent_label() -> Seq<char> {
    "io.github.notochen.noticeflow"@
}

/// The login item file for `label` under a home directory:
/// `Library/LaunchAgents/<label>.plist`.
pub open spec fn launch_agent_path_of(home: Option<Seq<char>>, label: Seq<char>) -> Result<Seq<char>, Seq<char>> {
    match home {
        Some(h) => Ok(path_join(path_join(path_join(h, "Library"@), "LaunchAgents"@), label + ".plist"@)),
        None => Err("无法读取用户主目录"@),
    }
}

/// The login item file for `label` under `home`.
pub fn launch_agent_path_for_label_in(home: &Option<String>, label: &str) -> (r: Result<String, String>)
    ensures
        match r {
            Ok(p) => launch_agent_path_of(
                match home {
                    Some(h) => Some(h@),
                    None => None,
                },
                label@,
            ) == Ok::<Seq<char>, Seq<char>>(p@),
            Err(e) => launch_agent_path_of(
                match home {
                    Some(h) => Some(h@),
                    None => None,
                },
                label@,
            ) == Err::<Seq<char>, Seq<char>>(e@),
        },
{
    match home {
        Some(h) => {
            let lib = join_path(h.as_str(), "Library");
            let agents = join_path(lib.as_str(), "LaunchAgents");
            let mut file = chars_of(label);
            crate::text::extend_str(&mut file, ".plist");
            let fs = string_of(&file);
            Ok(join_path(agents.as_str(), fs.as_str()))
        },
        None => Err(owned("无法读取用户主目录")),
    }
}

/// The login item file for `label` under the current user's home.
pub fn launch_agent_path_for_label(label: &str) -> (r: Result<String, String>)
    ensures
        r matches Err(e) ==> e@ == "无法读取用户主目录"@,
        r matches Ok(p) ==> exists|h: Seq<char>| launch_agent_path_of(Some(h), label@) == Ok::<Seq<char>, Seq<char>>(p@),
{
    let home = home_dir();
    launch_agent_path_for_label_in(&home, label)
}

/// The application's login item file.
pub fn launch_agent_path() -> (r: Result<String, String>)
    ensures
        r matches Err(e) ==> e@ == "无法读取用户主目录"@,
        r matches Ok(p) ==> exists|h: Seq<char>| launch_agent_path_of(Some(h), launch_agent_label()) == Ok::<Seq<char>, Seq<char>>(p@),
{
    let label = "io.github.notochen.noticeflow";
    let r = launch_agent_path_for_label(label);
    proof {
        if r is Ok {
            let h = choose|h: Seq<char>| launch_agent_path_of(Some(h), label@) == Ok::<Seq<char>, Seq<char>>(r->Ok_0@);
            assert(launch_agent_path_of(Some(h), launch_agent_label()) == Ok::<Seq<char>, Seq<char>>(r->Ok_0@));
        }
    }
    r
}

/// The login item files of earlier releases.
pub fn legacy_launch_agent_paths() -> (r: Vec<String>)
    ensures
        r@.len() <= 1,
        forall|i: int| 0 <= i < r@.len() ==> exists|h: Seq<char>| launch_agent_path_of(Some(h), "io.github.zangbaiwsh.noticeflow"@) == Ok::<Seq<char>, Seq<char>>(#[trigger] r@[i]@),
{
    let mut r: Vec<String> = Vec::new();
    match launch_agent_path_for_label("io.github.zangbaiwsh.noticeflow") {
        Ok(p) => r.push(p),
        Err(_) => {},
    }
    r
}

// ---------------------------------------------------------------------
// Safe data directories
// ---------------------------------------------------------------------

/// `s` is an absolute path.
pub open spec fn is_absolute(s: Seq<char>) -> bool {
    s.len() > 0 && s[0] == '/'
}

/// `s` is a relative path starting at `.`.
pub open spec fn leading_dot(s: Seq<char>) -> bool {
    s.len() > 0 && s[0] == '.' && (s.len() == 1 || s[1] == '/')
}

/// Two paths are equal as `Path` compares them: component by component.
pub open spec fn same_path(a: Seq<char>, b: Seq<char>) -> bool {
    is_absolute(a) == is_absolute(b) && leading_dot(a) == leading_dot(b) && path_components(a)
        == path_components(b)
}

fn is_absolute_chars(s: &Vec<char>) -> (r: bool)
    ensures
        r == is_absolute(s@),
{
    s.len() > 0 && s[0] == '/'
}

fn leading_dot_chars(s: &Vec<char>) -> (r: bool)
    ensures
        r == leading_dot(s@),
{
    s.len() > 0 && s[0] == '.' && (s.len() == 1 || s[1] == '/')
}

fn same_components(a: &Vec<Vec<char>>, b: &Vec<Vec<char>>) -> (r: bool)
    ensures
        r == (views(a@) == views(b@)),
{
    if a.len() != b.len() {
        assert(views(a@).len() != views(b@).len());
        return false;
    }
    let mut i: usize = 0;
    while i < a.len()
        invariant
            i <= a.len(),
            a.len() == b.len(),
            forall|k: int| 0 <= k < i ==> #[trigger] a@[k]@ == b@[k]@,
        decreases a.len() - i,
    {
        if !chars_eq(&a[i], &b[i]) {
            assert(views(a@)[i as int] != views(b@)[i as int]);
            return false;
        }
        i += 1;
    }
    assert(views(a@) =~= views(b@));
    true
}

/// Whether two paths are equal as `Path` compares them.
pub fn same_path_exec(a: &str, b: &str) -> (r: bool)
    ensures
        r == same_path(a@, b@),
{
    let ac = chars_of(a);
    let bc = chars_of(b);
    is_absolute_chars(&ac) == is_absolute_chars(&bc) && leading_dot_chars(&ac) == leading_dot_chars(&bc)
        && same_components(&components_of(a), &components_of(b))
}

/// The directories an application should not keep its data in directly.
pub open spec fn broad_user_directory(path: Seq<char>, home: Option<Seq<char>>) -> bool {
    match home {
        None => false,
        Some(h) => {
            ||| same_path(path, h)
            ||| same_path(path, path_join(h, "Applications"@))
            ||| same_path(path, path_join(h, "Desktop"@))
            ||| same_path(path, path_join(h, "Documents"@))
            ||| same_path(path, path_join(h, "Downloads"@))
            ||| same_path(path, path_join(h, "Library"@))
            ||| same_path(path, path_join(path_join(h, "Library"@), "Application Support"@))
        },
    }
}

fn is_broad_user_directory(path: &str, home: &Option<String>) -> (r: bool)
    ensures
        r == broad_user_directory(
            path@,
            match home {
                Some(h) => Some(h@),
                None => None,
            },
        ),
{
    match home {
        None => false,
        Some(h) => {
            let library = join_path(h.as_str(), "Library");
            same_path_exec(path, h.as_str()) || same_path_exec(path, join_path(h.as_str(), "Applications").as_str())
                || same_path_exec(path, join_path(h.as_str(), "Desktop").as_str()) || same_path_exec(
                path,
                join_path(h.as_str(), "Documents").as_str(),
            ) || same_path_exec(path, join_path(h.as_str(), "Downloads").as_str()) || same_path_exec(
                path,
                library.as_str(),
            ) || same_path_exec(path, join_path(library.as_str(), "Application Support").as_str())
        },
    }
}

/// Some component (other than `..`) names an application bundle
/// (ends in `.app`, ignoring case).
pub open spec fn contains_app_bundle(c: Seq<Seq<char>>) -> bool {
    exists|i: int| 0 <= i < c.len() && is_app_component(#[trigger] c[i])
}

/// A component naming an application bundle.
pub open spec fn is_app_component(name: Seq<char>) -> bool {
    name != seq!['.', '.'] && ".app"@.is_suffix_of(spec_to_lowercase(name))
}

/// Whether a path passes through an application bundle.
pub fn contains_app_bundle_component(path: &str) -> (r: bool)
    ensures
        r == contains_app_bundle(path_components(path@)),
{
    let c = components_of(path);
    let suffix = chars_of(".app");
    let mut i: usize = 0;
    while i < c.len()
        invariant
            i <= c.len(),
            suffix@ == ".app"@,
            views(c@) == path_components(path@),
            forall|k: int| 0 <= k < i ==> !is_app_component(#[trigger] views(c@)[k]),
        decreases c.len() - i,
    {
        let name = &c[i];
        let dotdot = name.len() == 2 && name[0] == '.' && name[1] == '.';
        assert(dotdot == (name@ == seq!['.', '.'])) by {
            if name@.len() == 2 {
                assert(name@ =~= seq!['.', '.'] <==> (name@[0] == '.' && name@[1] == '.'));
            }
        }
        if !dotdot && crate::text::ends_with(&lowercase_chars(name), &suffix) {
            assert(is_app_component(views(c@)[i as int]));
            return true;
        }
        i += 1;
    }
    false
}

/// `/Volumes/<name>` exactly.
pub open spec fn volume_root(c: Seq<Seq<char>>) -> bool {
    c.len() == 2 && c[0] == "Volumes"@ && c[1] != seq!['.', '.']
}

/// Whether an absolute path is the root of a mounted volume.
pub fn is_volume_root(path: &str) -> (r: bool)
    ensures
        r == (is_absolute(path@) && volume_root(path_components(path@))),
{
    let p = chars_of(path);
    if !is_absolute_chars(&p) {
        return false;
    }
    let c = components_of(path);
    if c.len() != 2 {
        return false;
    }
    assert(views(c@)[0] == c@[0]@);
    assert(views(c@)[1] == c@[1]@);
    let second = &c[1];
    let dotdot = second.len() == 2 && second[0] == '.' && second[1] == '.';
    assert(dotdot == (second@ == seq!['.', '.'])) by {
        if second@.len() == 2 {
            assert(second@ =~= seq!['.', '.'] <==> (second@[0] == '.' && second@[1] == '.'));
        }
    }
    chars_eq_str(&c[0], "Volumes") && !dotdot
}

/// The system locations.
pub open spec fn system_prefixes() -> Seq<Seq<Seq<char>>> {
    seq![
        seq!["Applications"@],
        seq!["bin"@],
        seq!["cores"@],
        seq!["dev"@],
        seq!["etc"@],
        seq!["Library"@],
        seq!["private"@],
        seq!["sbin"@],
        seq!["System"@],
        seq!["usr"@],
    ]
}

/// The temporary and shared locations.
pub open spec fn shared_prefixes() -> Seq<Seq<Seq<char>>> {
    seq![
        seq!["tmp"@],
        seq!["private"@, "tmp"@],
        seq!["private"@, "var"@, "tmp"@],
        seq!["Users"@, "Shared"@],
        seq!["var"@, "tmp"@],
    ]
}

/// Some prefix in `prefixes` begins the components `c`.
pub open spec fn under_any(c: Seq<Seq<char>>, prefixes: Seq<Seq<Seq<char>>>) -> bool {
    exists|i: int| 0 <= i < prefixes.len() && (#[trigger] prefixes[i]).is_prefix_of(c)
}

fn starts_with_components(c: &Vec<Vec<char>>, prefix: &[&str]) -> (r: bool)
    ensures
        r == crate::validation::str_views(prefix@).is_prefix_of(views(c@)),
{
    let ghost pv = crate::validation::str_views(prefix@);
    if prefix.len() > c.len() {
        return false;
    }
    let mut i: usize = 0;
    while i < prefix.len()
        invariant
            i <= prefix.len(),
            prefix.len() <= c.len(),
            pv == crate::validation::str_views(prefix@),
            forall|k: int| 0 <= k < i ==> pv[k] == views(c@)[k],
        decreases prefix.len() - i,
    {
        assert(pv[i as int] == prefix@[i as int]@);
        assert(views(c@)[i as int] == c@[i as int]@);
        if !chars_eq_str(&c[i], prefix[i]) {
            return false;
        }
        i += 1;
    }
    assert(pv =~= views(c@).take(prefix.len() as int));
    true
}

fn under_system_prefix(c: &Vec<Vec<char>>) -> (r: bool)
    ensures
        r == under_any(views(c@), system_prefixes()),
{
    let p0: [&str; 1] = ["Applications"];
    let p1: [&str; 1] = ["bin"];
    let p2: [&str; 1] = ["cores"];
    let p3: [&str; 1] = ["dev"];
    let p4: [&str; 1] = ["etc"];
    let p5: [&str; 1] = ["Library"];
    let p6: [&str; 1] = ["private"];
    let p7: [&str; 1] = ["sbin"];
    let p8: [&str; 1] = ["System"];
    let p9: [&str; 1] = ["usr"];
    let ghost ps = system_prefixes();
    assert(crate::validation::str_views(p0@) =~= ps[0]);
    assert(crate::validation::str_views(p1@) =~= ps[1]);
    assert(crate::validation::str_views(p2@) =~= ps[2]);
    assert(crate::validation::str_views(p3@) =~= ps[3]);
    assert(crate::validation::str_views(p4@) =~= ps[4]);
    assert(crate::validation::str_views(p5@) =~= ps[5]);
    assert(crate::validation::str_views(p6@) =~= ps[6]);
    assert(crate::validation::str_views(p7@) =~= ps[7]);
    assert(crate::validation::str_views(p8@) =~= ps[8]);
    assert(crate::validation::str_views(p9@) =~= ps[9]);
    let r = starts_with_components(c, &p0) || starts_with_components(c, &p1) || starts_with_components(c, &p2)
        || starts_with_components(c, &p3) || starts_with_components(c, &p4) || starts_with_components(c, &p5)
        || starts_with_components(c, &p6) || starts_with_components(c, &p7) || starts_with_components(c, &p8)
        || starts_with_components(c, &p9);
    assert(r == under_any(views(c@), ps)) by {
        if under_any(views(c@), ps) {
            let i = choose|i: int| 0 <= i < ps.len() && (#[trigger] ps[i]).is_prefix_of(views(c@));
            assert(0 <= i < 10);
        }
    }
    r
}

fn under_shared_prefix(c: &Vec<Vec<char>>) -> (r: bool)
    ensures
        r == under_any(views(c@), shared_prefixes()),
{
    let p0: [&str; 1] = ["tmp"];
    let p1: [&str; 2] = ["private", "tmp"];
    let p2: [&str; 3] = ["private", "var", "tmp"];
    let p3: [&str; 2] = ["Users", "Shared"];
    let p4: [&str; 2] = ["var", "tmp"];
    let ghost ps = shared_prefixes();
    assert(crate::validation::str_views(p0@) =~= ps[0]);
    assert(crate::validation::str_views(p1@) =~= ps[1]);
    assert(crate::validation::str_views(p2@) =~= ps[2]);
    assert(crate::validation::str_views(p3@) =~= ps[3]);
    assert(crate::validation::str_views(p4@) =~= ps[4]);
    let r = starts_with_components(c, &p0) || starts_with_components(c, &p1) || starts_with_components(c, &p2)
        || starts_with_components(c, &p3) || starts_with_components(c, &p4);
    assert(r == under_any(views(c@), ps)) by {
        if under_any(views(c@), ps) {
            let i = choose|i: int| 0 <= i < ps.len() && (#[trigger] ps[i]).is_prefix_of(views(c@));
            assert(0 <= i < 5);
        }
    }
    r
}

/// Why `path` is no place for the data, if it is not: it must be
/// absolute, neither the root, `/Users`, the home directory or one of its
/// common folders (when `reject_broad`), inside an application bundle, a
/// system, temporary or shared location, nor `/Volumes` or a volume's
/// root.
pub open spec fn unsafe_reason(path: Seq<char>, home: Option<Seq<char>>, reject_broad: bool) -> Option<Seq<char>> {
    let c = path_components(path);
    if !is_absolute(path) {
        Some("数据目录必须使用绝对路径"@)
    } else if c.len() == 0 {
        Some("不能把系统根目录作为数据目录"@)
    } else if c == seq!["Users"@] {
        Some("不能把用户目录根路径作为数据目录"@)
    } else if reject_broad && broad_user_directory(path, home) {
        Some("不能把用户主目录或常用目录本身作为数据目录，请选择专用子目录"@)
    } else if contains_app_bundle(c) {
        Some("不能把 .app 应用包内部作为数据目录"@)
    } else if under_any(c, system_prefixes()) {
        Some("不能把系统目录作为数据目录"@)
    } else if under_any(c, shared_prefixes()) {
        Some("不能把临时目录或共享目录作为数据目录"@)
    } else if c == seq!["Volumes"@] || volume_root(c) {
        Some("不能把磁盘卷根目录作为数据目录"@)
    } else {
        None
    }
}

/// Why `path` is no place for the data, given the home directory.
pub fn unsafe_data_directory_reason_inner(path: &str, home: &Option<String>, reject_broad_user_directory: bool) -> (r: Option<String>)
    ensures
        match r {
            Some(m) => unsafe_reason(
                path@,
                match home {
                    Some(h) => Some(h@),
                    None => None,
                },
                reject_broad_user_directory,
            ) == Some(m@),
            None => unsafe_reason(
                path@,
                match home {
                    Some(h) => Some(h@),
                    None => None,
                },
                reject_broad_user_directory,
            ) is None,
        },
{
    let p = chars_of(path);
    if !is_absolute_chars(&p) {
        return Some(owned("数据目录必须使用绝对路径"));
    }
    let c = components_of(path);
    if c.len() == 0 {
        return Some(owned("不能把系统根目录作为数据目录"));
    }
    let users: [&str; 1] = ["Users"];
    assert(crate::validation::str_views(users@) =~= seq!["Users"@]);
    if c.len() == 1 && starts_with_components(&c, &users) {
        assert(views(c@) =~= seq!["Users"@]);
        return Some(owned("不能把用户目录根路径作为数据目录"));
    }
    assert(views(c@) != seq!["Users"@]) by {
        if views(c@) == seq!["Users"@] {
            assert(crate::validation::str_views(users@).is_prefix_of(views(c@)));
        }
    }
    if reject_broad_user_directory && is_broad_user_directory(path, home) {
        return Some(owned("不能把用户主目录或常用目录本身作为数据目录，请选择专用子目录"));
    }
    if contains_app_bundle_component(path) {
        return Some(owned("不能把 .app 应用包内部作为数据目录"));
    }
    if under_system_prefix(&c) {
        return Some(owned("不能把系统目录作为数据目录"));
    }
    if under_shared_prefix(&c) {
        return Some(owned("不能把临时目录或共享目录作为数据目录"));
    }
    let volumes: [&str; 1] = ["Volumes"];
    assert(crate::validation::str_views(volumes@) =~= seq!["Volumes"@]);
    let is_volumes = c.len() == 1 && starts_with_components(&c, &volumes);
    assert(is_volumes == (views(c@) == seq!["Volumes"@])) by {
        if views(c@) == seq!["Volumes"@] {
            assert(crate::validation::str_views(volumes@).is_prefix_of(views(c@)));
        }
        if is_volumes {
            assert(views(c@) =~= seq!["Volumes"@]);
        }
    }
    if is_volumes || is_volume_root(path) {
        return Some(owned("不能把磁盘卷根目录作为数据目录"));
    }
    None
}

/// Why `path` is no place for the data, if it is not (the home directory
/// read from the environment).
pub fn unsafe_data_directory_reason(path: &str) -> (r: Option<String>)
    ensures
        exists|home: Option<Seq<char>>| match r {
            Some(m) => unsafe_reason(path@, home, true) == Some(m@),
            None => unsafe_reason(path@, home, true) is None,
        },
{
    let home = home_dir();
    unsafe_data_directory_reason_inner(path, &home, true)
}

/// What the file system says about a data directory: the nearest of it
/// and its parents that exists, whether that is a directory (or why it
/// could not be read), and its real path (or why it could not be found).
#[derive(Debug)]
pub struct DirectoryProbe {
    pub nearest_existing: Option<String>,
    pub is_dir: Result<bool, String>,
    pub canonical: Result<String, String>,
}

/// Why a data directory is refused, given what the file system says: it
/// must be safe; some part of it must exist and be a directory; and its
/// real location must be safe too (the broad folders are refused there
/// only when the directory itself exists).
pub open spec fn data_directory_error(path: Seq<char>, home: Option<Seq<char>>, probe: DirectoryProbe) -> Option<Seq<char>> {
    match unsafe_reason(path, home, true) {
        Some(m) => Some(m),
        None => match probe.nearest_existing {
            None => Some("数据目录没有可读取的已存在上级目录"@),
            Some(existing) => match probe.is_dir {
                Err(e) => Some("数据目录或其上级目录不可读取："@ + e@),
                Ok(is_dir) => if !is_dir {
                    if same_path(existing@, path) {
                        Some("数据目录必须是文件夹"@)
                    } else {
                        Some("数据目录的已存在上级路径必须是文件夹"@)
                    }
                } else {
                    match probe.canonical {
                        Err(e) => Some("无法解析数据目录真实路径："@ + e@),
                        Ok(resolved) => unsafe_reason(resolved@, home, same_path(existing@, path)),
                    }
                },
            },
        },
    }
}

/// Checks a data directory given the home directory and what the file
/// system says about it.
pub fn validate_data_directory_with(path: &str, home: &Option<String>, probe: &DirectoryProbe) -> (r: Result<(), String>)
    ensures
        crate::validation::outcome(r) == data_directory_error(
            path@,
            match home {
                Some(h) => Some(h@),
                None => None,
            },
            *probe,
        ),
{
    match unsafe_data_directory_reason_inner(path, home, true) {
        Some(m) => return Err(m),
        None => {},
    }
    let existing = match &probe.nearest_existing {
        Some(e) => e,
        None => return Err(owned("数据目录没有可读取的已存在上级目录")),
    };
    let is_dir = match &probe.is_dir {
        Err(e) => {
            let mut v = chars_of("数据目录或其上级目录不可读取：");
            crate::text::extend_str(&mut v, e.as_str());
            return Err(string_of(&v));
        },
        Ok(b) => *b,
    };
    let is_target = same_path_exec(existing.as_str(), path);
    if !is_dir {
        if is_target {
            return Err(owned("数据目录必须是文件夹"));
        }
        return Err(owned("数据目录的已存在上级路径必须是文件夹"));
    }
    let resolved = match &probe.canonical {
        Err(e) => {
            let mut v = chars_of("无法解析数据目录真实路径：");
            crate::text::extend_str(&mut v, e.as_str());
            return Err(string_of(&v));
        },
        Ok(resolved) => resolved,
    };
    match unsafe_data_directory_reason_inner(resolved.as_str(), home, is_target) {
        Some(m) => Err(m),
        None => Ok(()),
    }
}

/// Checks a data directory (the home directory read from the
/// environment).
pub fn validate_data_directory(path: &str, probe: &DirectoryProbe) -> (r: Result<(), String>)
    ensures
        exists|home: Option<Seq<char>>| crate::validation::outcome(r) == data_directory_error(path@, home, *probe),
{
    let home = home_dir();
    validate_data_directory_with(path, &home, probe)
}

/// A settings check reported `e`, the data directory's problem, if any.
pub open spec fn settings_outcome(r: Result<(), String>, e: Option<Seq<char>>) -> bool {
    match e {
        Some(e) => r matches Err(m) && m@ == "settings.json 中的数据目录不安全："@ + e,
        None => r is Ok,
    }
}

/// Checks loaded settings: their data directory, if any, must be safe.
pub fn validate_settings(settings: &AppSettings, probe: &DirectoryProbe) -> (r: Result<(), String>)
    ensures
        settings.data_directory is None ==> r is Ok,
        match settings.data_directory {
            Some(d) => exists|home: Option<Seq<char>>| settings_outcome(r, #[trigger] data_directory_error(d@, home, *probe)),
            None => true,
        },
{
    match &settings.data_directory {
        Some(d) => match validate_data_directory(d.as_str(), probe) {
            Ok(()) => Ok(()),
            Err(e) => {
                let mut v = chars_of("settings.json 中的数据目录不安全：");
                crate::text::extend_str(&mut v, e.as_str());
                Err(string_of(&v))
            },
        },
        None => Ok(()),
    }
}

/// The data directory the settings name, once normalized and trimmed,
/// if they name one; the file system is probed for this path.
pub fn data_directory_candidate(settings: &AppSettings) -> (r: Option<String>)
    ensures
        match r {
            Some(d) => normalized_dir(settings.data_directory) matches Some(n) && trim(n).len() > 0 && d@ == trim(n),
            None => !(normalized_dir(settings.data_directory) matches Some(n) && trim(n).len() > 0),
        },
{
    match &settings.data_directory {
        Some(d) => {
            let c = clean_data_directory(d.as_str());
            if chars_of(c.as_str()).len() == 0 {
                return None;
            }
            let t = trimmed(c.as_str());
            if t.len() > 0 {
                Some(string_of(&t))
            } else {
                None
            }
        },
        None => None,
    }
}

/// The outcome of looking up the default data directory: the directory
/// itself, or the message that the platform gave none.
pub open spec fn default_dir_outcome(r: Result<String, String>) -> bool {
    match r {
        Ok(p) => is_default_data_dir(p@),
        Err(m) => m@ == "无法读取应用支持目录"@,
    }
}

/// The data directory chosen for a normalized directory `n` whose
/// problem, if any, is `e`.
pub open spec fn dir_outcome(r: Result<String, String>, n: Seq<char>, e: Option<Seq<char>>) -> bool {
    match e {
        Some(e) => r matches Err(m) && m@ == "settings.json 中的数据目录不安全："@ + e,
        None => if trim(n).len() > 0 {
            r matches Ok(d) && d@ == trim(n)
        } else {
            default_dir_outcome(r)
        },
    }
}

/// Where the data of these settings lives: their (safe) data directory,
/// else the default one. `probe` describes the normalized data directory.
pub fn data_dir_for_settings(settings: &AppSettings, probe: &DirectoryProbe) -> (r: Result<String, String>)
    ensures
        normalized_dir(settings.data_directory) is None ==> default_dir_outcome(r),
        forall|n: Seq<char>| normalized_dir(settings.data_directory) == Some(n) ==> (exists|home: Option<Seq<char>>| dir_outcome(r, n, #[trigger] data_directory_error(n, home, *probe))),
{
    let mut normal = AppSettings {
        launch_at_login: settings.launch_at_login,
        data_directory: match &settings.data_directory {
            Some(d) => Some(d.clone()),
            None => None,
        },
        app_filter_mode: None,
        ignored_app_identifiers: Vec::new(),
    };
    normalize_settings(&mut normal);
    match validate_settings(&normal, probe) {
        Err(e) => return Err(e),
        Ok(()) => {},
    }
    match &normal.data_directory {
        Some(d) => {
            let t = trimmed(d.as_str());
            if t.len() > 0 {
                return Ok(string_of(&t));
            }
        },
        None => {},
    }
    default_data_dir()
}

/// The data directory in use, from the settings as loaded (or the error
/// that loading them gave) and what the file system says of the directory
/// they name.
pub fn app_data_dir(loaded: Result<AppSettings, String>, probe: &DirectoryProbe) -> (r: Result<String, String>)
    ensures
        loaded matches Err(e) ==> r == Err::<String, String>(e),
        loaded matches Ok(settings) ==> {
            &&& normalized_dir(settings.data_directory) is None ==> default_dir_outcome(r)
            &&& forall|n: Seq<char>|
                normalized_dir(settings.data_directory) == Some(n) ==> (exists|home: Option<Seq<char>>|
                    dir_outcome(r, n, #[trigger] data_directory_error(n, home, *probe)))
        },
{
    match loaded {
        Err(e) => Err(e),
        Ok(settings) => data_dir_for_settings(&settings, probe),
    }
}

/// Whether the app starts at login: its launch agent, or one left by an
/// earlier name, exists (`current_exists` is `None` when the agent's
/// place cannot be known).
pub fn launch_at_login_enabled(current_exists: Option<bool>, legacy_exist: &Vec<bool>) -> (r: bool)
    ensures
        r == (current_exists == Some(true) || exists|i: int| 0 <= i < legacy_exist@.len() && #[trigger] legacy_exist@[i]),
{
    if current_exists == Some(true) {
        return true;
    }
    let mut i: usize = 0;
    while i < legacy_exist.len()
        invariant
            i <= legacy_exist@.len(),
            forall|j: int| 0 <= j < i ==> !#[trigger] legacy_exist@[j],
        decreases legacy_exist.len() - i,
    {
        if legacy_exist[i] {
            return true;
        }
        i += 1;
    }
    false
}

} // verus!
