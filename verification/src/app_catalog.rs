//! The catalog of installed applications: their names, one entry per
//! bundle id, the order they are listed in, and where their icons are.
use vstd::prelude::*;
use crate::app_settings::{is_absolute, leading_dot};
use crate::foreign::{base64_standard, opt_view, plist_root, spec_base64_standard, spec_plist_root};
use std::collections::hash_map::DefaultHasher;
use std::hash::Hasher;
use vstd::bytes::{spec_u32_to_le_bytes, spec_u64_to_le_bytes, u32_to_le_bytes, u64_to_le_bytes};
use vstd::std_specs::hash::DefaultHasherAdditionalSpecFns;
use vstd::string::{StrSliceExecFns, StringSliceAdditionalSpecFns};
use vstd::utf8::encode_utf8;
use crate::property_list::{PlistEntryView, root_text, root_text_of};
use crate::paths::{components_of, file_name, file_name_of, join_path, path_components, path_join};
use crate::strmap::{text_less, text_lt, lemma_text_lt_irreflexive, lemma_text_lt_transitive, lemma_text_lt_total};
use crate::text::{
    chars_eq, chars_of, eq_ignore_ascii_case, eq_ignore_ascii_case_chars, extend_chars, extend_str,
    lowercase_chars, owned, slice_chars, spec_to_lowercase, string_of, to_lowercase, trim,
    trim_chars, views,
};

verus! {

/// An installed application.
#[derive(Clone, Debug)]
pub struct ApplicationInfo {
    pub name: String,
    /// The name Finder shows, when it differs from `name`.
    pub localized_name: Option<String>,
    pub bundle_id: String,
    pub path: String,
    pub icon_path: Option<String>,
    pub icon_cache_key: Option<String>,
    pub icon_data_url: Option<String>,
}

/// The name an application is shown under: its localized name, else its
/// name.
pub open spec fn display_name_of(app: ApplicationInfo) -> Seq<char> {
    match app.localized_name {
        Some(n) => n@,
        None => app.name@,
    }
}

impl ApplicationInfo {
    /// The name the application is shown under.
    pub fn display_name(&self) -> (r: &str)
        ensures
            r@ == display_name_of(*self),
    {
        match &self.localized_name {
            Some(n) => n.as_str(),
            None => self.name.as_str(),
        }
    }
}

/// The key applications are told apart by: the lowercase bundle id.
pub fn application_key(bundle_id: &str) -> (r: String)
    ensures
        r@ == spec_to_lowercase(bundle_id@),
{
    to_lowercase(bundle_id)
}

// ---------------------------------------------------------------------
// One entry per bundle id
// ---------------------------------------------------------------------

/// Applications keyed by lowercase bundle id, in ascending key order.
#[derive(Debug)]
pub struct ApplicationMap {
    keys: Vec<Vec<char>>,
    apps: Vec<ApplicationInfo>,
}

impl ApplicationMap {
    /// The keys, ascending.
    pub closed spec fn key_seq(&self) -> Seq<Seq<char>> {
        views(self.keys@)
    }

    /// The applications, in key order.
    pub closed spec fn app_seq(&self) -> Seq<ApplicationInfo> {
        self.apps@
    }

    #[verifier::type_invariant]
    closed spec fn well_formed(&self) -> bool {
        &&& self.keys@.len() == self.apps@.len()
        &&& forall|i: int, j: int| 0 <= i < j < self.keys@.len() ==> text_lt(#[trigger] self.keys@[i]@, #[trigger] self.keys@[j]@)
        &&& forall|i: int| 0 <= i < self.keys@.len() ==> #[trigger] self.keys@[i]@ == spec_to_lowercase(self.apps@[i].bundle_id@)
    }

    /// The application kept under the key `k`.
    pub open spec fn lookup(&self, k: Seq<char>) -> Option<ApplicationInfo> {
        if exists|i: int| 0 <= i < self.key_seq().len() && self.key_seq()[i] == k {
            Some(self.app_seq()[choose|i: int| 0 <= i < self.key_seq().len() && self.key_seq()[i] == k])
        } else {
            None
        }
    }

    /// An empty catalog.
    pub fn new() -> (r: ApplicationMap)
        ensures
            r.key_seq().len() == 0,
            r.app_seq().len() == 0,
    {
        let r = ApplicationMap { keys: Vec::new(), apps: Vec::new() };
        assert(views(r.keys@) =~= Seq::<Seq<char>>::empty());
        r
    }

    /// Number of applications.
    pub fn len(&self) -> (n: usize)
        ensures
            n == self.app_seq().len(),
            n == self.key_seq().len(),
    {
        proof {
            use_type_invariant(self);
        }
        self.apps.len()
    }

    /// The applications in key order.
    pub fn values(&self) -> (r: &Vec<ApplicationInfo>)
        ensures
            r@ == self.app_seq(),
    {
        &self.apps
    }

    /// The applications in key order, taken out of the catalog.
    pub fn into_values(self) -> (r: Vec<ApplicationInfo>)
        ensures
            r@ == self.app_seq(),
    {
        let ApplicationMap { keys: _, apps } = self;
        apps
    }

    /// The keys are ascending and each is its application's lowercase
    /// bundle id.
    pub fn check_order(&self)
        ensures
            self.key_seq().len() == self.app_seq().len(),
            forall|i: int, j: int| 0 <= i < j < self.key_seq().len() ==> text_lt(#[trigger] self.key_seq()[i], #[trigger] self.key_seq()[j]),
            forall|i: int| 0 <= i < self.key_seq().len() ==> #[trigger] self.key_seq()[i] == spec_to_lowercase(self.app_seq()[i].bundle_id@),
    {
        proof {
            use_type_invariant(self);
        }
    }
}

/// Adds an application unless one with the same bundle id (ignoring case)
/// is already there: the first one found is kept.
pub fn insert_application(apps: &mut ApplicationMap, app: ApplicationInfo)
    ensures
        old(apps).lookup(spec_to_lowercase(app.bundle_id@)) is Some ==> final(apps).key_seq() == old(apps).key_seq() && final(apps).app_seq() == old(apps).app_seq(),
        old(apps).lookup(spec_to_lowercase(app.bundle_id@)) is None ==> exists|p: int|
            0 <= p <= old(apps).key_seq().len() && final(apps).key_seq() == old(apps).key_seq().insert(p, spec_to_lowercase(app.bundle_id@))
                && final(apps).app_seq() == old(apps).app_seq().insert(p, app),
{
    proof {
        use_type_invariant(&*apps);
    }
    let key = lowercase_chars(&chars_of(app.bundle_id.as_str()));
    let mut i: usize = 0;
    while i < apps.keys.len() && text_less(&apps.keys[i], &key)
        invariant
            i <= apps.keys.len(),
            apps.keys@.len() == apps.apps@.len(),
            forall|j: int| 0 <= j < i ==> text_lt(#[trigger] apps.keys@[j]@, key@),
        decreases apps.keys.len() - i,
    {
        i += 1;
    }
    if i < apps.keys.len() && chars_eq(&apps.keys[i], &key) {
        assert(apps.key_seq()[i as int] == key@);
        return;
    }
    proof {
        assert forall|j: int| 0 <= j < apps.keys@.len() implies apps.keys@[j]@ != key@ by {
            if j < i {
                lemma_text_lt_irreflexive(key@);
            } else if j > i {
                assert(text_lt(apps.keys@[i as int]@, apps.keys@[j]@));
                if i < apps.keys@.len() {
                    lemma_text_lt_total(apps.keys@[i as int]@, key@);
                    if apps.keys@[j]@ == key@ {
                        lemma_text_lt_transitive(key@, apps.keys@[i as int]@, key@);
                        lemma_text_lt_irreflexive(key@);
                    }
                }
            }
        }
        assert(!(exists|j: int| 0 <= j < apps.key_seq().len() && apps.key_seq()[j] == key@));
    }
    let ghost old_keys = apps.keys@;
    let ghost old_list = apps.apps@;
    let mut taken = ApplicationMap::new();
    std::mem::swap(&mut taken, apps);
    let ApplicationMap { keys: mut keys, apps: mut list } = taken;
    assert(keys@ == old_keys);
    keys.insert(i, key);
    list.insert(i, app);
    proof {
        assert(views(keys@) =~= views(old_keys).insert(i as int, key@));
        assert forall|a: int, b: int| 0 <= a < b < keys@.len() implies text_lt(#[trigger] keys@[a]@, #[trigger] keys@[b]@) by {
            if i < old_keys.len() {
                lemma_text_lt_total(old_keys[i as int]@, key@);
            }
            if a < i && b == i {
            } else if a == i && b > i {
                assert(keys@[b] == old_keys[b - 1]);
                if b - 1 > i {
                    lemma_text_lt_transitive(key@, old_keys[i as int]@, old_keys[b - 1]@);
                }
            } else if a < i && b > i {
                assert(keys@[b] == old_keys[b - 1]);
            } else if a > i {
                assert(keys@[a] == old_keys[a - 1]);
                assert(keys@[b] == old_keys[b - 1]);
            }
        }
        assert forall|k: int| 0 <= k < keys@.len() implies #[trigger] keys@[k]@ == spec_to_lowercase(list@[k].bundle_id@) by {
            if k < i {
            } else if k > i {
                assert(keys@[k] == old_keys[k - 1]);
            }
        }
    }
    *apps = ApplicationMap { keys, apps: list };
    assert(apps.key_seq() == views(old_keys).insert(i as int, key@));
    assert(apps.app_seq() == old_list.insert(i as int, app));
    assert(apps.key_seq() == old(apps).key_seq().insert(i as int, spec_to_lowercase(app.bundle_id@)));
    assert(apps.app_seq() == old(apps).app_seq().insert(i as int, app));
}

// ---------------------------------------------------------------------
// Listing order
// ---------------------------------------------------------------------

/// `a` is listed before `b`: by lowercase display name, then lowercase
/// bundle id, then path.
pub open spec fn listed_before(a: ApplicationInfo, b: ApplicationInfo) -> bool {
    let na = spec_to_lowercase(display_name_of(a));
    let nb = spec_to_lowercase(display_name_of(b));
    let ba = spec_to_lowercase(a.bundle_id@);
    let bb = spec_to_lowercase(b.bundle_id@);
    text_lt(na, nb) || (na == nb && (text_lt(ba, bb) || (ba == bb && text_lt(a.path@, b.path@))))
}

/// `x` placed into `s` after every element it is not listed before.
pub open spec fn insert_app(x: ApplicationInfo, s: Seq<ApplicationInfo>) -> Seq<ApplicationInfo>
    decreases s.len(),
{
    if s.len() == 0 {
        seq![x]
    } else if listed_before(x, s.last()) {
        insert_app(x, s.drop_last()).push(s.last())
    } else {
        s.push(x)
    }
}

/// `s` in listing order; applications that compare equal keep their
/// order.
pub open spec fn sorted_apps(s: Seq<ApplicationInfo>) -> Seq<ApplicationInfo>
    decreases s.len(),
{
    if s.len() == 0 {
        seq![]
    } else {
        insert_app(s.last(), sorted_apps(s.drop_last()))
    }
}

proof fn lemma_insert_app_at(x: ApplicationInfo, s: Seq<ApplicationInfo>, j: int)
    requires
        0 <= j <= s.len(),
        forall|k: int| j <= k < s.len() ==> listed_before(x, #[trigger] s[k]),
        j == 0 || !listed_before(x, s[j - 1]),
    ensures
        insert_app(x, s) == s.take(j).push(x) + s.skip(j),
    decreases s.len(),
{
    if s.len() == 0 {
        assert(s.take(j).push(x) + s.skip(j) =~= seq![x]);
    } else if j == s.len() {
        assert(s.take(j) =~= s);
        assert(s.take(j).push(x) + s.skip(j) =~= s.push(x));
    } else {
        assert(listed_before(x, s[s.len() - 1]));
        let d = s.drop_last();
        assert forall|k: int| j <= k < d.len() implies listed_before(x, #[trigger] d[k]) by {
            assert(d[k] == s[k]);
        }
        if j > 0 {
            assert(d[j - 1] == s[j - 1]);
        }
        lemma_insert_app_at(x, d, j);
        assert((d.take(j).push(x) + d.skip(j)).push(s.last()) =~= s.take(j).push(x) + s.skip(j));
    }
}

/// The sort keys of an application.
struct SortKey {
    name: Vec<char>,
    bundle: Vec<char>,
    path: Vec<char>,
}

fn sort_key(app: &ApplicationInfo) -> (k: SortKey)
    ensures
        k.name@ == spec_to_lowercase(display_name_of(*app)),
        k.bundle@ == spec_to_lowercase(app.bundle_id@),
        k.path@ == app.path@,
{
    SortKey {
        name: lowercase_chars(&chars_of(app.display_name())),
        bundle: lowercase_chars(&chars_of(app.bundle_id.as_str())),
        path: chars_of(app.path.as_str()),
    }
}

fn key_before(a: &SortKey, b: &SortKey) -> (r: bool)
    ensures
        r == (text_lt(a.name@, b.name@) || (a.name@ == b.name@ && (text_lt(a.bundle@, b.bundle@) || (a.bundle@
            == b.bundle@ && text_lt(a.path@, b.path@))))),
{
    if text_less(&a.name, &b.name) {
        return true;
    }
    if !chars_eq(&a.name, &b.name) {
        return false;
    }
    if text_less(&a.bundle, &b.bundle) {
        return true;
    }
    chars_eq(&a.bundle, &b.bundle) && text_less(&a.path, &b.path)
}

/// Puts applications in listing order: by lowercase display name, then
/// lowercase bundle id, then path; equal ones keep their order.
pub fn sort_applications(apps: &mut Vec<ApplicationInfo>)
    ensures
        final(apps)@ == sorted_apps(old(apps)@),
{
    let ghost start = apps@;
    let mut source: Vec<ApplicationInfo> = Vec::new();
    std::mem::swap(&mut source, apps);
    let mut sorted: Vec<ApplicationInfo> = Vec::new();
    let mut keys: Vec<SortKey> = Vec::new();
    let n = source.len();
    let mut m: usize = 0;
    while m < n
        invariant
            m <= n,
            n == start.len(),
            source@ == start.skip(m as int),
            sorted@ == sorted_apps(start.take(m as int)),
            keys@.len() == sorted@.len(),
            forall|k: int| 0 <= k < keys@.len() ==> (#[trigger] keys@[k]).name@ == spec_to_lowercase(display_name_of(sorted@[k]))
                && keys@[k].bundle@ == spec_to_lowercase(sorted@[k].bundle_id@) && keys@[k].path@ == sorted@[k].path@,
        decreases n - m,
    {
        assert(start.take(m + 1).drop_last() =~= start.take(m as int));
        assert(start.take(m + 1).last() == start[m as int]);
        let x = source.remove(0);
        assert(x == start[m as int]);
        let kx = sort_key(&x);
        let ghost before = sorted@;
        let mut pos: usize = sorted.len();
        while pos > 0 && key_before(&kx, &keys[pos - 1])
            invariant
                pos <= sorted@.len(),
                keys@.len() == sorted@.len(),
                before == sorted@,
                kx.name@ == spec_to_lowercase(display_name_of(x)),
                kx.bundle@ == spec_to_lowercase(x.bundle_id@),
                kx.path@ == x.path@,
                forall|k: int| 0 <= k < keys@.len() ==> (#[trigger] keys@[k]).name@ == spec_to_lowercase(display_name_of(sorted@[k]))
                    && keys@[k].bundle@ == spec_to_lowercase(sorted@[k].bundle_id@) && keys@[k].path@ == sorted@[k].path@,
                forall|k: int| pos <= k < sorted@.len() ==> listed_before(x, #[trigger] before[k]),
            decreases pos,
        {
            assert(keys@[pos - 1].name@ == spec_to_lowercase(display_name_of(before[pos - 1])));
            pos -= 1;
        }
        proof {
            if pos > 0 {
                assert(keys@[pos - 1].name@ == spec_to_lowercase(display_name_of(before[pos - 1])));
            }
            lemma_insert_app_at(x, before, pos as int);
        }
        let ghost old_keys = keys@;
        sorted.insert(pos, x);
        keys.insert(pos, kx);
        assert forall|k: int| 0 <= k < keys@.len() implies (#[trigger] keys@[k]).name@ == spec_to_lowercase(display_name_of(sorted@[k]))
            && keys@[k].bundle@ == spec_to_lowercase(sorted@[k].bundle_id@) && keys@[k].path@ == sorted@[k].path@ by {
            if k < pos {
                assert(keys@[k] == old_keys[k]);
                assert(sorted@[k] == before[k]);
            } else if k > pos {
                assert(keys@[k] == old_keys[k - 1]);
                assert(sorted@[k] == before[k - 1]);
            }
        }
        m += 1;
    }
    assert(start.take(n as int) =~= start);
    *apps = sorted;
}

/// Two applications with the same sort key (lowercase display name,
/// lowercase bundle id, path).
pub open spec fn same_sort_key(a: ApplicationInfo, b: ApplicationInfo) -> bool {
    &&& spec_to_lowercase(display_name_of(a)) == spec_to_lowercase(display_name_of(b))
    &&& spec_to_lowercase(a.bundle_id@) == spec_to_lowercase(b.bundle_id@)
    &&& a.path@ == b.path@
}

proof fn lemma_listed_before_transitive(a: ApplicationInfo, b: ApplicationInfo, c: ApplicationInfo)
    requires
        listed_before(a, b),
        listed_before(b, c),
    ensures
        listed_before(a, c),
{
    let (na, nb, nc) = (
        spec_to_lowercase(display_name_of(a)),
        spec_to_lowercase(display_name_of(b)),
        spec_to_lowercase(display_name_of(c)),
    );
    let (ba, bb, bc) = (spec_to_lowercase(a.bundle_id@), spec_to_lowercase(b.bundle_id@), spec_to_lowercase(c.bundle_id@));
    if text_lt(na, nb) && text_lt(nb, nc) {
        lemma_text_lt_transitive(na, nb, nc);
    }
    if na == nb && nb == nc && text_lt(ba, bb) && text_lt(bb, bc) {
        lemma_text_lt_transitive(ba, bb, bc);
    }
    if na == nb && nb == nc && ba == bb && bb == bc && text_lt(a.path@, b.path@) && text_lt(b.path@, c.path@) {
        lemma_text_lt_transitive(a.path@, b.path@, c.path@);
    }
}

proof fn lemma_listed_before_total(a: ApplicationInfo, b: ApplicationInfo)
    ensures
        listed_before(a, b) || listed_before(b, a) || same_sort_key(a, b),
{
    lemma_text_lt_total(spec_to_lowercase(display_name_of(a)), spec_to_lowercase(display_name_of(b)));
    lemma_text_lt_total(spec_to_lowercase(a.bundle_id@), spec_to_lowercase(b.bundle_id@));
    lemma_text_lt_total(a.path@, b.path@);
}

/// Where the insertion puts `x`.
proof fn lemma_insert_app_shape(x: ApplicationInfo, s: Seq<ApplicationInfo>) -> (j: int)
    ensures
        0 <= j <= s.len(),
        insert_app(x, s) == s.insert(j, x),
    decreases s.len(),
{
    if s.len() == 0 {
        assert(s.insert(0, x) =~= seq![x]);
        0
    } else if listed_before(x, s.last()) {
        let d = s.drop_last();
        let j = lemma_insert_app_shape(x, d);
        assert(d.insert(j, x).push(s.last()) =~= s.insert(j, x));
        j
    } else {
        assert(s.insert(s.len() as int, x) =~= s.push(x));
        s.len() as int
    }
}

/// No application of `s` is listed before one that comes earlier.
pub open spec fn in_listing_order(s: Seq<ApplicationInfo>) -> bool {
    forall|i: int, j: int| 0 <= i < j < s.len() ==> !listed_before(#[trigger] s[j], #[trigger] s[i])
}

proof fn lemma_insert_app_ordered(x: ApplicationInfo, s: Seq<ApplicationInfo>)
    requires
        in_listing_order(s),
    ensures
        in_listing_order(insert_app(x, s)),
    decreases s.len(),
{
    if s.len() == 0 {
    } else if listed_before(x, s.last()) {
        let d = s.drop_last();
        let last = s.last();
        assert forall|i: int, k: int| 0 <= i < k < d.len() implies !listed_before(#[trigger] d[k], #[trigger] d[i]) by {
            assert(d[i] == s[i] && d[k] == s[k]);
        }
        lemma_insert_app_ordered(x, d);
        let b = insert_app(x, d);
        let j = lemma_insert_app_shape(x, d);
        let r = b.push(last);
        assert forall|i: int| 0 <= i < b.len() implies !listed_before(last, #[trigger] b[i]) by {
            if i == j {
                assert(b[i] == x);
                if listed_before(last, x) {
                    lemma_listed_before_transitive(x, last, x);
                    lemma_text_lt_irreflexive(spec_to_lowercase(display_name_of(x)));
                    lemma_text_lt_irreflexive(spec_to_lowercase(x.bundle_id@));
                    lemma_text_lt_irreflexive(x.path@);
                }
            } else {
                let q = if i < j { i } else { i - 1 };
                assert(b[i] == d[q]);
                assert(s[q] == d[q]);
                assert(s[s.len() - 1] == last);
            }
        }
        assert forall|i: int, k: int| 0 <= i < k < r.len() implies !listed_before(#[trigger] r[k], #[trigger] r[i]) by {
            if k == b.len() {
                assert(r[k] == last && r[i] == b[i]);
            } else {
                assert(r[k] == b[k] && r[i] == b[i]);
            }
        }
    } else {
        let r = s.push(x);
        let last = s.last();
        assert forall|i: int| 0 <= i < s.len() implies !listed_before(x, #[trigger] s[i]) by {
            if listed_before(x, s[i]) && i < s.len() - 1 {
                assert(!listed_before(s[s.len() - 1], s[i]));
                lemma_listed_before_total(s[i], last);
                if listed_before(s[i], last) {
                    lemma_listed_before_transitive(x, s[i], last);
                }
            }
        }
        assert forall|i: int, k: int| 0 <= i < k < r.len() implies !listed_before(#[trigger] r[k], #[trigger] r[i]) by {
            if k == s.len() {
                assert(r[k] == x && r[i] == s[i]);
            } else {
                assert(r[k] == s[k] && r[i] == s[i]);
            }
        }
    }
}

/// Sorting the catalog keeps every application, each as often as before,
/// and lists no application before one it is listed after.
pub proof fn lemma_catalog_sorted(s: Seq<ApplicationInfo>)
    ensures
        sorted_apps(s).to_multiset() == s.to_multiset(),
        in_listing_order(sorted_apps(s)),
    decreases s.len(),
{
    broadcast use vstd::seq_lib::group_to_multiset_ensures;
    if s.len() == 0 {
        assert(sorted_apps(s) =~= s);
    } else {
        let d = s.drop_last();
        lemma_catalog_sorted(d);
        let a = sorted_apps(d);
        let j = lemma_insert_app_shape(s.last(), a);
        vstd::seq_lib::to_multiset_insert(a, j, s.last());
        assert(d.push(s.last()) =~= s);
        lemma_insert_app_ordered(s.last(), a);
    }
}

// ---------------------------------------------------------------------
// Bundles and names
// ---------------------------------------------------------------------

/// The extension of a file name (`Path::extension`): what follows the
/// last `.`, unless that `.` starts the name.
pub open spec fn extension_of(name: Seq<char>) -> Option<Seq<char>> {
    if exists|i: int| 0 < i < name.len() && name[i] == '.' {
        let p = choose|i: int| 0 < i < name.len() && name[i] == '.' && forall|j: int| i < j < name.len() ==> name[j] != '.';
        Some(name.skip(p + 1))
    } else {
        None
    }
}

/// The last `.` of `name` after its first character, if any.
pub open spec fn last_dot(name: Seq<char>, p: int) -> bool {
    0 < p < name.len() && name[p] == '.' && forall|j: int| p < j < name.len() ==> name[j] != '.'
}

fn find_last_dot(name: &Vec<char>) -> (r: Option<usize>)
    ensures
        match r {
            Some(p) => last_dot(name@, p as int),
            None => !(exists|i: int| 0 < i < name@.len() && name@[i] == '.'),
        },
{
    let mut i: usize = name.len();
    while i > 1
        invariant
            i <= name.len(),
            forall|j: int| i <= j < name.len() ==> name@[j] != '.',
        decreases i,
    {
        if name[i - 1] == '.' {
            return Some(i - 1);
        }
        i -= 1;
    }
    None
}

proof fn lemma_last_dot_unique(name: Seq<char>, p: int, q: int)
    requires
        last_dot(name, p),
        last_dot(name, q),
    ensures
        p == q,
{
}

/// Whether `path` names an application bundle: its extension is `app`,
/// ignoring ASCII case.
pub fn is_app_bundle(path: &str) -> (r: bool)
    ensures
        r == match file_name(path@) {
            Some(n) => match extension_of(n) {
                Some(e) => eq_ignore_ascii_case(e, "app"@),
                None => false,
            },
            None => false,
        },
{
    let name = match file_name_of(path) {
        Some(n) => n,
        None => return false,
    };
    match find_last_dot(&name) {
        None => false,
        Some(p) => {
            proof {
                let q = choose|i: int| 0 < i < name@.len() && name@[i] == '.' && forall|j: int| i < j < name@.len() ==> name@[j] != '.';
                lemma_last_dot_unique(name@, p as int, q);
            }
            assert(p < name.len());
            let ext = slice_chars(&name, p + 1, name.len());
            assert(ext@ =~= name@.skip(p + 1));
            eq_ignore_ascii_case_chars(&ext, &chars_of("app"))
        },
    }
}

/// The name of a bundle without its extension (`Path::file_stem`).
pub open spec fn file_stem_of(path: Seq<char>) -> Option<Seq<char>> {
    match file_name(path) {
        None => None,
        Some(n) => if exists|i: int| 0 < i < n.len() && n[i] == '.' {
            let p = choose|i: int| last_dot(n, i);
            Some(n.take(p))
        } else {
            Some(n)
        },
    }
}

/// The name of a bundle without its extension.
pub fn file_stem(path: &str) -> (r: Option<String>)
    ensures
        match r {
            Some(s) => file_stem_of(path@) == Some(s@),
            None => file_stem_of(path@) is None,
        },
{
    let name = match file_name_of(path) {
        Some(n) => n,
        None => return None,
    };
    match find_last_dot(&name) {
        None => Some(string_of(&name)),
        Some(p) => {
            proof {
                let q = choose|i: int| last_dot(name@, i);
                lemma_last_dot_unique(name@, p as int, q);
            }
            let stem = slice_chars(&name, 0, p);
            assert(stem@ =~= name@.take(p as int));
            Some(string_of(&stem))
        },
    }
}

/// The name Finder shows for a bundle, as read: without a trailing
/// `.app`, trimmed; none when blank.
pub open spec fn finder_name(display: Seq<char>) -> Option<Seq<char>> {
    let d = if ".app"@.is_suffix_of(display) {
        display.take(display.len() - 4)
    } else {
        display
    };
    if trim(d).len() > 0 {
        Some(trim(d))
    } else {
        None
    }
}

/// The name Finder shows, from what it reported.
pub fn finder_name_from(display: &str) -> (r: Option<String>)
    ensures
        match r {
            Some(n) => finder_name(display@) == Some(n@),
            None => finder_name(display@) is None,
        },
{
    let d = chars_of(display);
    let suffix = chars_of(".app");
    proof {
        reveal_strlit(".app");
    }
    let base = if crate::text::ends_with(&d, &suffix) {
        slice_chars(&d, 0, d.len() - 4)
    } else {
        d.clone()
    };
    assert(base@ == (if ".app"@.is_suffix_of(display@) {
        display@.take(display@.len() - 4)
    } else {
        display@
    }));
    let t = trim_chars(&base);
    if t.len() > 0 {
        Some(string_of(&t))
    } else {
        None
    }
}

/// The name an application is listed under: its display name, else its
/// bundle name, else its bundle's file name without extension, else its
/// bundle id.
pub open spec fn bundle_name(path: Seq<char>, bundle_id: Seq<char>, display_name: Option<Seq<char>>, bundle_name: Option<Seq<char>>) -> Seq<char> {
    match display_name {
        Some(n) => n,
        None => match bundle_name {
            Some(n) => n,
            None => match file_stem_of(path) {
                Some(s) => s,
                None => bundle_id,
            },
        },
    }
}

/// The catalog entry of a bundle, from what its `Info.plist` and Finder
/// say: the Finder name is kept only when it differs from the listed
/// name; no icon has been rendered yet.
pub fn application_from_info(
    path: &str,
    bundle_id: String,
    display_name: Option<String>,
    bundle_name_value: Option<String>,
    finder_display: Option<String>,
    icon_path: Option<String>,
    icon_cache_key: Option<String>,
) -> (r: ApplicationInfo)
    ensures
        r.name@ == bundle_name(
            path@,
            bundle_id@,
            match display_name {
                Some(n) => Some(n@),
                None => None,
            },
            match bundle_name_value {
                Some(n) => Some(n@),
                None => None,
            },
        ),
        match finder_display {
            Some(f) => if f@ != r.name@ {
                r.localized_name == Some(f)
            } else {
                r.localized_name is None
            },
            None => r.localized_name is None,
        },
        r.bundle_id == bundle_id,
        r.path@ == path@,
        r.icon_path == icon_path,
        r.icon_cache_key == icon_cache_key,
        r.icon_data_url is None,
{
    let name: String = match display_name {
        Some(n) => n,
        None => match bundle_name_value {
            Some(n) => n,
            None => match file_stem(path) {
                Some(s) => s,
                None => bundle_id.clone(),
            },
        },
    };
    let localized = match finder_display {
        Some(f) => if chars_eq(&chars_of(f.as_str()), &chars_of(name.as_str())) {
            None
        } else {
            Some(f)
        },
        None => None,
    };
    ApplicationInfo {
        name,
        localized_name: localized,
        bundle_id,
        path: owned(path),
        icon_path,
        icon_cache_key,
        icon_data_url: None,
    }
}

/// The entry of a bundle whose `Info.plist` root dictionary is `root`:
/// none without a string `CFBundleIdentifier`; otherwise the entry of
/// that id, listed under `CFBundleDisplayName`, else `CFBundleName`, else
/// the bundle's file name, else the id, with the Finder name kept only
/// when it differs, and the icon file and cache key given.
pub open spec fn application_of_info(
    r: Option<ApplicationInfo>,
    path: Seq<char>,
    root: Seq<(Seq<char>, PlistEntryView)>,
    finder_name: Option<String>,
    icon_path: Option<String>,
    icon_cache_key: Option<String>,
) -> bool {
    match root_text(root, "CFBundleIdentifier"@) {
        None => r is None,
        Some(id) => r matches Some(app) && {
            &&& app.bundle_id@ == id
            &&& app.name@ == bundle_name(path, id, root_text(root, "CFBundleDisplayName"@), root_text(root, "CFBundleName"@))
            &&& match finder_name {
                Some(f) => if f@ != app.name@ {
                    app.localized_name == Some(f)
                } else {
                    app.localized_name is None
                },
                None => app.localized_name is None,
            }
            &&& app.path@ == path
            &&& app.icon_path == icon_path
            &&& app.icon_cache_key == icon_cache_key
            &&& app.icon_data_url is None
        },
    }
}

/// The catalog entry of the bundle at `path` from the bytes of its
/// `Info.plist` (none when they are no property list with a root
/// dictionary holding a string `CFBundleIdentifier`), the name Finder
/// shows for it, and its icon file and cache key.
pub fn application_info_from_plist(
    path: &str,
    info: &[u8],
    finder_name: Option<String>,
    icon_path: Option<String>,
    icon_cache_key: Option<String>,
) -> (r: Option<ApplicationInfo>)
    ensures
        match spec_plist_root(info@) {
            None => r is None,
            Some(root) => application_of_info(r, path@, root, finder_name, icon_path, icon_cache_key),
        },
{
    let root = match plist_root(info) {
        Some(root) => root,
        None => return None,
    };
    let bundle_id = match root_text_of(&root, "CFBundleIdentifier") {
        Some(id) => id,
        None => return None,
    };
    let display = root_text_of(&root, "CFBundleDisplayName");
    let bundle = root_text_of(&root, "CFBundleName");
    Some(application_from_info(path, bundle_id, display, bundle, finder_name, icon_path, icon_cache_key))
}

/// The icon file `Info.plist` names (`CFBundleIconFile`), when its bytes
/// are a property list whose root dictionary holds that string.
pub fn bundle_icon_file(info: &[u8]) -> (r: Option<String>)
    ensures
        opt_view(r) == (match spec_plist_root(info@) {
            Some(root) => root_text(root, "CFBundleIconFile"@),
            None => None,
        }),
{
    match plist_root(info) {
        Some(root) => root_text_of(&root, "CFBundleIconFile"),
        None => None,
    }
}

/// The application with `bundle_id` (trimmed, ASCII case ignored), the
/// first in the list; none for a blank id.
pub fn find_application<'a>(apps: &'a Vec<ApplicationInfo>, bundle_id: &str) -> (r: Option<&'a ApplicationInfo>)
    ensures
        trim(bundle_id@).len() == 0 ==> r is None,
        trim(bundle_id@).len() > 0 ==> match r {
            Some(a) => exists|i: int| 0 <= i < apps@.len() && apps@[i] == *a && eq_ignore_ascii_case(apps@[i].bundle_id@, trim(bundle_id@))
                && forall|j: int| 0 <= j < i ==> !eq_ignore_ascii_case(#[trigger] apps@[j].bundle_id@, trim(bundle_id@)),
            None => forall|j: int| 0 <= j < apps@.len() ==> !eq_ignore_ascii_case(#[trigger] apps@[j].bundle_id@, trim(bundle_id@)),
        },
{
    let id = trim_chars(&chars_of(bundle_id));
    if id.len() == 0 {
        return None;
    }
    let mut i: usize = 0;
    while i < apps.len()
        invariant
            i <= apps.len(),
            id@ == trim(bundle_id@),
            id@.len() > 0,
            forall|j: int| 0 <= j < i ==> !eq_ignore_ascii_case(#[trigger] apps@[j].bundle_id@, trim(bundle_id@)),
        decreases apps.len() - i,
    {
        if eq_ignore_ascii_case_chars(&chars_of(apps[i].bundle_id.as_str()), &id) {
            return Some(&apps[i]);
        }
        i += 1;
    }
    None
}

// ---------------------------------------------------------------------
// Icons
// ---------------------------------------------------------------------

/// The files an icon may be: `name` itself when it ends in `.icns`, else
/// `name.icns` then `name`, all in `Contents/Resources` of the bundle.
pub open spec fn icon_candidates_of(app_path: Seq<char>, icon_name: Seq<char>) -> Seq<Seq<char>> {
    let resources = path_join(app_path, "Contents/Resources"@);
    if ".icns"@.is_suffix_of(icon_name) {
        seq![path_join(resources, icon_name)]
    } else {
        seq![path_join(resources, icon_name + ".icns"@), path_join(resources, icon_name)]
    }
}

/// The files an icon may be.
pub fn icon_candidates(app_path: &str, icon_name: &str) -> (r: Vec<String>)
    ensures
        r@.map_values(|s: String| s@) == icon_candidates_of(app_path@, icon_name@),
{
    let resources = join_path(app_path, "Contents/Resources");
    let name = chars_of(icon_name);
    let mut r: Vec<String> = Vec::new();
    if crate::text::ends_with(&name, &chars_of(".icns")) {
        r.push(join_path(resources.as_str(), icon_name));
        assert(r@.map_values(|s: String| s@) =~= icon_candidates_of(app_path@, icon_name@));
    } else {
        let mut with_ext = name.clone();
        extend_str(&mut with_ext, ".icns");
        let we = string_of(&with_ext);
        r.push(join_path(resources.as_str(), we.as_str()));
        r.push(join_path(resources.as_str(), icon_name));
        assert(r@.map_values(|s: String| s@) =~= icon_candidates_of(app_path@, icon_name@));
    }
    r
}

/// What a path starts with before its named components, as
/// `Path::components` yields it: the root (1), the current directory
/// `.` (2), or nothing (0).
pub open spec fn head_kind(p: Seq<char>) -> int {
    if is_absolute(p) {
        1
    } else if leading_dot(p) {
        2
    } else {
        0
    }
}

fn head_kind_exec(p: &Vec<char>) -> (r: u8)
    ensures
        r as int == head_kind(p@),
{
    if p.len() > 0 && p[0] == '/' {
        1
    } else if p.len() > 0 && p[0] == '.' && (p.len() == 1 || p[1] == '/') {
        2
    } else {
        0
    }
}

/// `path` lies within `anchor` (`Path::starts_with`): the components of
/// `anchor` begin those of `path`.
pub open spec fn inside(path: Seq<char>, anchor: Seq<char>) -> bool {
    ||| (head_kind(anchor) == 0 && path_components(anchor).len() == 0)
    ||| (head_kind(path) == head_kind(anchor) && path_components(anchor).is_prefix_of(path_components(path)))
}

/// Whether `path` lies within `anchor`.
pub fn is_inside(path: &str, anchor: &str) -> (r: bool)
    ensures
        r == inside(path@, anchor@),
{
    let p = chars_of(path);
    let a = chars_of(anchor);
    let ph = head_kind_exec(&p);
    let ah = head_kind_exec(&a);
    let pc = components_of(path);
    let ac = components_of(anchor);
    if ah == 0 && ac.len() == 0 {
        return true;
    }
    if ph != ah {
        return false;
    }
    if ac.len() > pc.len() {
        return false;
    }
    let mut i: usize = 0;
    while i < ac.len()
        invariant
            i <= ac.len(),
            ac.len() <= pc.len(),
            views(ac@) == path_components(anchor@),
            views(pc@) == path_components(path@),
            head_kind(path@) == head_kind(anchor@),
            forall|k: int| 0 <= k < i ==> views(ac@)[k] == views(pc@)[k],
        decreases ac.len() - i,
    {
        if !chars_eq(&ac[i], &pc[i]) {
            assert(views(ac@)[i as int] != views(pc@).subrange(0, ac@.len() as int)[i as int]);
            return false;
        }
        i += 1;
    }
    assert(views(ac@) =~= views(pc@).take(ac.len() as int));
    true
}

/// Lowercase hexadecimal digits of `n` (`{:x}`).
pub open spec fn hex_digits(n: nat) -> Seq<char>
    decreases n,
{
    if n < 16 {
        seq![hex_digit(n)]
    } else {
        hex_digits(n / 16).push(hex_digit(n % 16))
    }
}

/// One lowercase hexadecimal digit.
pub open spec fn hex_digit(d: nat) -> char {
    if d < 10 {
        ((d + 48) as u8) as char
    } else {
        ((d + 87) as u8) as char
    }
}

fn hex_digit_exec(d: u64) -> (c: char)
    requires
        d < 16,
    ensures
        c == hex_digit(d as nat),
{
    if d < 10 {
        ((d + 48) as u8) as char
    } else {
        ((d + 87) as u8) as char
    }
}

/// Lowercase hexadecimal text of `n`.
pub fn hex_lower(n: u64) -> (r: Vec<char>)
    ensures
        r@ == hex_digits(n as nat),
    decreases n,
{
    if n < 16 {
        let mut v: Vec<char> = Vec::new();
        v.push(hex_digit_exec(n));
        v
    } else {
        let mut v = hex_lower(n / 16);
        v.push(hex_digit_exec(n % 16));
        v
    }
}

/// The byte strings an icon rendering's cache key feeds to the hasher, in
/// order: the path's UTF-8 bytes closed by `0xff` (the way a `str` feeds a
/// hasher), the size, the seconds and the nanoseconds of the modification
/// time in little-endian, and the rendering's version tag closed by `0xff`.
pub open spec fn icon_hash_writes(icon_path: Seq<char>, len: u64, secs: u64, nanos: u32, tag: Seq<char>) -> Seq<Seq<u8>> {
    seq![
        encode_utf8(icon_path),
        seq![0xffu8],
        spec_u64_to_le_bytes(len),
        spec_u64_to_le_bytes(secs),
        spec_u32_to_le_bytes(nanos),
        encode_utf8(tag),
        seq![0xffu8],
    ]
}

/// The version tag of the icon renderings; a new one retires every
/// rendering made before it.
pub open spec fn icon_render_tag() -> Seq<char> {
    "noticeflow-icon-64-v3"@
}

/// Feeds the icon's path, size, modification time and `tag` to a
/// `DefaultHasher`, in that order, and gives its `finish`.
fn icon_source_hash(icon_path: &str, len: u64, secs: u64, nanos: u32, tag: &str) -> (r: u64)
    ensures
        r == DefaultHasher::spec_finish(icon_hash_writes(icon_path@, len, secs, nanos, tag@)),
{
    let end: Vec<u8> = vec![0xffu8];
    let mut hasher = DefaultHasher::new();
    let path_bytes = icon_path.as_bytes_vec();
    hasher.write(path_bytes.as_slice());
    hasher.write(end.as_slice());
    let len_bytes = u64_to_le_bytes(len);
    hasher.write(len_bytes.as_slice());
    let secs_bytes = u64_to_le_bytes(secs);
    hasher.write(secs_bytes.as_slice());
    let nanos_bytes = u32_to_le_bytes(nanos);
    hasher.write(nanos_bytes.as_slice());
    let tag_bytes = tag.as_bytes_vec();
    hasher.write(tag_bytes.as_slice());
    hasher.write(end.as_slice());
    proof {
        assert(end@ =~= seq![0xffu8]);
        assert(hasher@ =~= icon_hash_writes(icon_path@, len, secs, nanos, tag@));
    }
    hasher.finish()
}

/// The cache file of an icon rendering: the hash of the icon's path, size
/// and modification time (seconds and nanoseconds since the epoch) with
/// the rendering's version tag, in lowercase hexadecimal, with `.png`.
pub fn icon_cache_file_name(icon_path: &str, source_len: u64, modified_secs: u64, modified_nanos: u32) -> (r: String)
    ensures
        r@ == hex_digits(
            DefaultHasher::spec_finish(
                icon_hash_writes(icon_path@, source_len, modified_secs, modified_nanos, icon_render_tag()),
            ) as nat,
        ) + ".png"@,
{
    let h = icon_source_hash(icon_path, source_len, modified_secs, modified_nanos, "noticeflow-icon-64-v3");
    let mut v = hex_lower(h);
    extend_str(&mut v, ".png");
    string_of(&v)
}

/// Icon renderings kept at most.
pub const MAX_ICON_CACHE_FILES: usize = 300;

/// A rendering older than 45 days (its age in seconds and nanoseconds)
/// is removed.
pub fn icon_cache_file_expired(age_secs: u64, age_nanos: u32) -> (r: bool)
    ensures
        r == (age_secs > 3888000 || (age_secs == 3888000 && age_nanos > 0)),
{
    age_secs > 3888000 || (age_secs == 3888000 && age_nanos > 0)
}

/// File `j` comes before file `i` when the cache is ordered by
/// modification time, earlier files first and ties kept in listing order.
pub open spec fn modified_before(modified: Seq<i128>, j: int, i: int) -> bool {
    modified[j] < modified[i] || (modified[j] == modified[i] && j < i)
}

/// How many of the first `k` files come before file `i`.
pub open spec fn files_before(modified: Seq<i128>, i: int, k: int) -> nat
    decreases k,
{
    if k <= 0 {
        0
    } else {
        files_before(modified, i, k - 1) + if modified_before(modified, k - 1, i) {
            1nat
        } else {
            0nat
        }
    }
}

/// Whether file `i` is one of the oldest files over the limit: fewer than
/// `count - 300` files come before it.
pub open spec fn over_icon_cache_limit(modified: Seq<i128>, i: int) -> bool {
    files_before(modified, i, modified.len() as int) + MAX_ICON_CACHE_FILES < modified.len()
}

/// The renderings to remove so that at most 300 are left, given the
/// modification times of those left after the expired ones went: the
/// oldest ones beyond the limit, by index in increasing order.
pub fn icon_cache_overflow(modified: &Vec<i128>) -> (r: Vec<usize>)
    ensures
        forall|a: int, b: int| 0 <= a < b < r@.len() ==> r@[a] < r@[b],
        forall|a: int| 0 <= a < r@.len() ==> (#[trigger] r@[a]) < modified@.len(),
        forall|i: int| 0 <= i < modified@.len() ==> (r@.contains(i as usize) <==> over_icon_cache_limit(modified@, i)),
{
    let n = modified.len();
    let mut r: Vec<usize> = Vec::new();
    let mut i: usize = 0;
    while i < n
        invariant
            n == modified@.len(),
            i <= n,
            forall|a: int, b: int| 0 <= a < b < r@.len() ==> r@[a] < r@[b],
            forall|a: int| 0 <= a < r@.len() ==> (#[trigger] r@[a]) < i,
            forall|q: int| 0 <= q < i ==> (r@.contains(q as usize) <==> over_icon_cache_limit(modified@, q)),
        decreases n - i,
    {
        let mut before: usize = 0;
        let mut k: usize = 0;
        while k < n
            invariant
                n == modified@.len(),
                i < n,
                k <= n,
                before == files_before(modified@, i as int, k as int),
                before <= k,
            decreases n - k,
        {
            if modified[k] < modified[i] || (modified[k] == modified[i] && k < i) {
                before = before + 1;
            }
            k = k + 1;
        }
        let ghost old_r = r@;
        if n > MAX_ICON_CACHE_FILES && before < n - MAX_ICON_CACHE_FILES {
            r.push(i);
        }
        proof {
            assert forall|q: int| 0 <= q < i + 1 implies (r@.contains(q as usize) <==> over_icon_cache_limit(modified@, q)) by {
                if q < i {
                    if old_r.contains(q as usize) {
                        let a = choose|a: int| 0 <= a < old_r.len() && old_r[a] == q as usize;
                        assert(r@[a] == q as usize);
                    }
                    if r@.contains(q as usize) {
                        let a = choose|a: int| 0 <= a < r@.len() && r@[a] == q as usize;
                        if a == old_r.len() {
                            assert(r@[a] == i);
                        } else {
                            assert(old_r[a] == q as usize);
                        }
                    }
                } else {
                    if r@.contains(q as usize) {
                        let a = choose|a: int| 0 <= a < r@.len() && r@[a] == q as usize;
                        if a < old_r.len() {
                            assert(old_r[a] < i);
                        }
                    }
                    if over_icon_cache_limit(modified@, q) {
                        assert(r@[r@.len() - 1] == i);
                    }
                }
            }
        }
        i = i + 1;
    }
    r
}

/// The `data:` URL of a PNG image.
pub fn png_data_url(bytes: &[u8]) -> (r: String)
    ensures
        r@ == "data:image/png;base64,"@ + spec_base64_standard(bytes@),
{
    let mut v = chars_of("data:image/png;base64,");
    let encoded = base64_standard(bytes);
    extend_str(&mut v, encoded.as_str());
    string_of(&v)
}

/// The icon of the application with `bundle_id` (trimmed, ASCII case
/// ignored; the first such in the list): the rendering it already has,
/// else one `render` makes of its icon file; none for a blank or unknown
/// id or an application without an icon.
pub fn render_application_icon_for_bundle<F>(apps: &Vec<ApplicationInfo>, bundle_id: &str, render: &F) -> (r: Option<String>) where
    F: Fn(&String) -> Option<String>,

    requires
        forall|p: &String| #[trigger] render.requires((p,)),
    ensures
        trim(bundle_id@).len() == 0 ==> r is None,
        trim(bundle_id@).len() > 0 && (forall|j: int| 0 <= j < apps@.len() ==> !eq_ignore_ascii_case(#[trigger] apps@[j].bundle_id@, trim(bundle_id@))) ==> r is None,
        trim(bundle_id@).len() > 0 ==> forall|i: int|
            #![trigger apps@[i]]
            0 <= i < apps@.len() && eq_ignore_ascii_case(apps@[i].bundle_id@, trim(bundle_id@)) && (forall|j: int|
                0 <= j < i ==> !eq_ignore_ascii_case(#[trigger] apps@[j].bundle_id@, trim(bundle_id@))) ==> icon_of(
                *render,
                apps@[i],
                r,
            ),
{
    match find_application(apps, bundle_id) {
        None => None,
        Some(app) => {
            proof {
                let i = choose|i: int|
                    0 <= i < apps@.len() && apps@[i] == *app && eq_ignore_ascii_case(apps@[i].bundle_id@, trim(bundle_id@))
                        && forall|j: int| 0 <= j < i ==> !eq_ignore_ascii_case(#[trigger] apps@[j].bundle_id@, trim(bundle_id@));
                assert forall|k: int|
                    #![trigger apps@[k]]
                    0 <= k < apps@.len() && eq_ignore_ascii_case(apps@[k].bundle_id@, trim(bundle_id@)) && (forall|j: int|
                        0 <= j < k ==> !eq_ignore_ascii_case(#[trigger] apps@[j].bundle_id@, trim(bundle_id@))) implies k == i by {
                    if k < i {
                        assert(!eq_ignore_ascii_case(apps@[k].bundle_id@, trim(bundle_id@)));
                    } else if k > i {
                        assert(!eq_ignore_ascii_case(apps@[i].bundle_id@, trim(bundle_id@)));
                    }
                }
            }
            match &app.icon_data_url {
                Some(url) => Some(url.clone()),
                None => match &app.icon_path {
                    Some(path) => render(path),
                    None => None,
                },
            }
        },
    }
}

/// `r` is the icon of `app`: its rendering when it has one, else what
/// `render` may make of its icon file, else none.
pub open spec fn icon_of<F: Fn(&String) -> Option<String>>(render: F, app: ApplicationInfo, r: Option<String>) -> bool {
    match app.icon_data_url {
        Some(url) => r == Some(url),
        None => match app.icon_path {
            Some(path) => render.ensures((&path,), r),
            None => r is None,
        },
    }
}

/// The lowercase bundle id applications are told apart by.
pub open spec fn app_key(app: ApplicationInfo) -> Seq<char> {
    spec_to_lowercase(app.bundle_id@)
}

/// The applications of `s` ascend by lowercase bundle id.
pub open spec fn keys_ascending(s: Seq<ApplicationInfo>) -> bool {
    forall|i: int, j: int| 0 <= i < j < s.len() ==> text_lt(app_key(#[trigger] s[i]), app_key(#[trigger] s[j]))
}

/// `x` is the first application of its bundle id in `found`.
#[verifier::opaque]
pub open spec fn is_first_found(found: Seq<ApplicationInfo>, x: ApplicationInfo) -> bool {
    exists|k: int| 0 <= k < found.len() && #[trigger] found[k] == x && first_of_key(found, k)
}

/// Some application of `s` has bundle id `key`.
#[verifier::opaque]
pub open spec fn key_listed(s: Seq<ApplicationInfo>, key: Seq<char>) -> bool {
    exists|i: int| 0 <= i < s.len() && #[trigger] app_key(s[i]) == key
}

/// `s` holds one application per bundle id (ASCII case ignored after
/// lowercasing) of `found`, the first found of each, in ascending order of
/// lowercase bundle id.
pub open spec fn one_per_bundle(found: Seq<ApplicationInfo>, s: Seq<ApplicationInfo>) -> bool {
    &&& keys_ascending(s)
    &&& forall|i: int| 0 <= i < s.len() ==> is_first_found(found, #[trigger] s[i])
    &&& forall|k: int| 0 <= k < found.len() ==> key_listed(s, app_key(#[trigger] found[k]))
}

/// `found[k]` is the first application found with its lowercase bundle
/// id.
pub open spec fn first_of_key(found: Seq<ApplicationInfo>, k: int) -> bool {
    forall|j: int| 0 <= j < k ==> app_key(#[trigger] found[j]) != app_key(found[k])
}

proof fn lemma_step_sorted(after: Seq<ApplicationInfo>, after_keys: Seq<Seq<char>>)
    requires
        after_keys.len() == after.len(),
        forall|a: int| 0 <= a < after_keys.len() ==> #[trigger] after_keys[a] == spec_to_lowercase(after[a].bundle_id@),
        forall|a: int, b: int| 0 <= a < b < after_keys.len() ==> text_lt(#[trigger] after_keys[a], #[trigger] after_keys[b]),
    ensures
        keys_ascending(after),
{
    assert forall|i: int, j: int| 0 <= i < j < after.len() implies text_lt(app_key(#[trigger] after[i]), app_key(#[trigger] after[j])) by {
        assert(after_keys[i] == spec_to_lowercase(after[i].bundle_id@));
        assert(after_keys[j] == spec_to_lowercase(after[j].bundle_id@));
    }
}

proof fn lemma_first_found_grows(taken: Seq<ApplicationInfo>, app: ApplicationInfo, x: ApplicationInfo)
    requires
        is_first_found(taken, x),
    ensures
        is_first_found(taken.push(app), x),
{
    reveal(is_first_found);
    let found = taken.push(app);
    let k = choose|k: int| 0 <= k < taken.len() && #[trigger] taken[k] == x && first_of_key(taken, k);
    assert(found[k] == taken[k]);
    assert forall|j: int| 0 <= j < k implies app_key(#[trigger] found[j]) != app_key(found[k]) by {
        assert(found[j] == taken[j]);
    }
}

proof fn lemma_key_listed_at(s: Seq<ApplicationInfo>, i: int)
    requires
        0 <= i < s.len(),
    ensures
        key_listed(s, app_key(s[i])),
{
    reveal(key_listed);
}

proof fn lemma_step_present(taken: Seq<ApplicationInfo>, app: ApplicationInfo, before: Seq<ApplicationInfo>, a: int)
    requires
        one_per_bundle(taken, before),
        0 <= a < before.len(),
        app_key(before[a]) == app_key(app),
    ensures
        one_per_bundle(taken.push(app), before),
{
    let found = taken.push(app);
    let n: int = taken.len() as int;
    assert forall|i: int| 0 <= i < before.len() implies is_first_found(found, #[trigger] before[i]) by {
        lemma_first_found_grows(taken, app, before[i]);
    }
    assert forall|k: int| 0 <= k < found.len() implies key_listed(before, app_key(#[trigger] found[k])) by {
        if k < n {
            assert(found[k] == taken[k]);
        } else {
            assert(found[k] == app);
            lemma_key_listed_at(before, a);
        }
    }
}

proof fn lemma_step_absent(
    taken: Seq<ApplicationInfo>,
    app: ApplicationInfo,
    before: Seq<ApplicationInfo>,
    after: Seq<ApplicationInfo>,
    p: int,
)
    requires
        one_per_bundle(taken, before),
        forall|a: int| 0 <= a < before.len() ==> app_key(#[trigger] before[a]) != app_key(app),
        0 <= p <= before.len(),
        after == before.insert(p, app),
        keys_ascending(after),
    ensures
        one_per_bundle(taken.push(app), after),
{
    let found = taken.push(app);
    let n: int = taken.len() as int;
    assert forall|j: int| 0 <= j < n implies app_key(#[trigger] taken[j]) != app_key(app) by {
        assert(key_listed(before, app_key(taken[j])));
        reveal(key_listed);
        let i = choose|i: int| 0 <= i < before.len() && #[trigger] app_key(before[i]) == app_key(taken[j]);
    }
    assert forall|i: int| 0 <= i < after.len() implies is_first_found(found, #[trigger] after[i]) by {
        if i == p {
            reveal(is_first_found);
            assert(found[n] == app);
            assert(after[i] == app);
            assert forall|j: int| 0 <= j < n implies app_key(#[trigger] found[j]) != app_key(found[n]) by {
                assert(found[j] == taken[j]);
            }
            assert(first_of_key(found, n));
        } else {
            let bi = if i < p {
                i
            } else {
                i - 1
            };
            assert(after[i] == before[bi]);
            lemma_first_found_grows(taken, app, before[bi]);
        }
    }
    assert forall|k: int| 0 <= k < found.len() implies key_listed(after, app_key(#[trigger] found[k])) by {
        if k < n {
            assert(found[k] == taken[k]);
            assert(key_listed(before, app_key(taken[k])));
            reveal(key_listed);
            let i = choose|i: int| 0 <= i < before.len() && #[trigger] app_key(before[i]) == app_key(taken[k]);
            let ai = if i < p {
                i
            } else {
                i + 1
            };
            assert(after[ai] == before[i]);
            assert(app_key(after[ai]) == app_key(found[k]));
        } else {
            assert(found[k] == app);
            assert(after[p] == app);
            lemma_key_listed_at(after, p);
        }
    }
}

/// The catalog from the bundles found on disk, in the order they were
/// found: one application per bundle id, the first found, in listing
/// order.
pub fn scan_applications(found: Vec<ApplicationInfo>) -> (r: Vec<ApplicationInfo>)
    ensures
        exists|s: Seq<ApplicationInfo>| one_per_bundle(found@, s) && r@ == sorted_apps(s),
{
    let ghost all = found@;
    let mut rest = found;
    let total = rest.len();
    let mut map = ApplicationMap::new();
    proof {
        assert(all.take(0) =~= Seq::<ApplicationInfo>::empty());
    }
    let mut i: usize = 0;
    while rest.len() > 0
        invariant
            all.len() == total,
            i <= total,
            rest@ == all.skip(i as int),
            one_per_bundle(all.take(i as int), map.app_seq()),
            map.key_seq().len() == map.app_seq().len(),
            forall|a: int| 0 <= a < map.key_seq().len() ==> #[trigger] map.key_seq()[a] == spec_to_lowercase(map.app_seq()[a].bundle_id@),
        decreases rest.len(),
    {
        let app = rest.remove(0);
        let ghost before = map.app_seq();
        let ghost before_keys = map.key_seq();
        let ghost taken = all.take(i as int);
        let ghost next = all.take(i + 1);
        assert(next == taken.push(app)) by {
            assert(all[i as int] == app);
            assert(next =~= taken.push(app));
        }
        let ghost key = spec_to_lowercase(app.bundle_id@);
        let ghost app_g = app;
        map.check_order();
        insert_application(&mut map, app);
        map.check_order();
        proof {
            if exists|a: int| 0 <= a < before_keys.len() && before_keys[a] == key {
                let a = choose|a: int| 0 <= a < before_keys.len() && before_keys[a] == key;
                assert(before_keys[a] == spec_to_lowercase(before[a].bundle_id@));
                lemma_step_present(taken, app_g, before, a);
            } else {
                let p = choose|p: int|
                    0 <= p <= before_keys.len() && map.key_seq() == before_keys.insert(p, key) && map.app_seq() == before.insert(p, app_g);
                assert forall|a: int| 0 <= a < before.len() implies app_key(#[trigger] before[a]) != key by {
                    assert(before_keys[a] == spec_to_lowercase(before[a].bundle_id@));
                }
                lemma_step_sorted(map.app_seq(), map.key_seq());
                lemma_step_absent(taken, app_g, before, map.app_seq(), p);
            }
        }
        assert(rest@ =~= all.skip(i + 1));
        i += 1;
    }
    assert(all.take(i as int) =~= all);
    let mut result = map.into_values();
    sort_applications(&mut result);
    result
}

} // verus!