//! An ordered map from strings to strings: the variables of a
//! notification and the parameters of an action. Keys are kept in
//! ascending order (the order of `String`'s `Ord`, which compares code
//! points), so walking the map visits keys from smallest to largest.
use vstd::prelude::*;
use crate::text::{chars_eq, chars_of, owned};

verus! {

/// `a < b` in the lexicographic order of code points (`String`'s `Ord`).
pub open spec fn text_lt(a: Seq<char>, b: Seq<char>) -> bool
    decreases a.len(),
{
    if a.len() == 0 {
        b.len() > 0
    } else if b.len() == 0 {
        false
    } else if a[0] != b[0] {
        a[0] < b[0]
    } else {
        text_lt(a.drop_first(), b.drop_first())
    }
}

pub proof fn lemma_text_lt_irreflexive(a: Seq<char>)
    ensures
        !text_lt(a, a),
    decreases a.len(),
{
    if a.len() > 0 {
        lemma_text_lt_irreflexive(a.drop_first());
    }
}

pub proof fn lemma_text_lt_transitive(a: Seq<char>, b: Seq<char>, c: Seq<char>)
    requires
        text_lt(a, b),
        text_lt(b, c),
    ensures
        text_lt(a, c),
    decreases a.len(),
{
    if a.len() > 0 && b.len() > 0 && c.len() > 0 {
        if a[0] == b[0] && b[0] == c[0] {
            lemma_text_lt_transitive(a.drop_first(), b.drop_first(), c.drop_first());
        }
    }
}

pub proof fn lemma_text_lt_total(a: Seq<char>, b: Seq<char>)
    ensures
        a == b || text_lt(a, b) || text_lt(b, a),
    decreases a.len(),
{
    if a.len() > 0 && b.len() > 0 {
        if a[0] == b[0] {
            lemma_text_lt_total(a.drop_first(), b.drop_first());
            if a.drop_first() == b.drop_first() {
                assert(a =~= seq![a[0]] + a.drop_first());
                assert(b =~= seq![b[0]] + b.drop_first());
            }
        }
    } else if a.len() == 0 && b.len() == 0 {
        assert(a =~= b);
    }
}

pub proof fn lemma_text_lt_asymmetric(a: Seq<char>, b: Seq<char>)
    requires
        text_lt(a, b),
    ensures
        !text_lt(b, a),
{
    if text_lt(b, a) {
        lemma_text_lt_transitive(a, b, a);
        lemma_text_lt_irreflexive(a);
    }
}

proof fn lemma_text_lt_skip(a: Seq<char>, b: Seq<char>, k: int)
    requires
        0 <= k <= a.len(),
        k <= b.len(),
        forall|j: int| 0 <= j < k ==> a[j] == b[j],
    ensures
        text_lt(a, b) == text_lt(a.skip(k), b.skip(k)),
    decreases k,
{
    if k > 0 {
        assert forall|j: int| 0 <= j < k - 1 implies a.drop_first()[j] == b.drop_first()[j] by {
            assert(a[j + 1] == b[j + 1]);
        }
        lemma_text_lt_skip(a.drop_first(), b.drop_first(), k - 1);
        assert(a.drop_first().skip(k - 1) =~= a.skip(k));
        assert(b.drop_first().skip(k - 1) =~= b.skip(k));
    } else {
        assert(a.skip(0) =~= a);
        assert(b.skip(0) =~= b);
    }
}

/// Whether `a` sorts before `b`.
pub fn text_less(a: &Vec<char>, b: &Vec<char>) -> (r: bool)
    ensures
        r == text_lt(a@, b@),
{
    let mut k: usize = 0;
    while k < a.len() && k < b.len() && a[k] == b[k]
        invariant
            k <= a.len(),
            k <= b.len(),
            forall|j: int| 0 <= j < k ==> a@[j] == b@[j],
        decreases a.len() - k,
    {
        k += 1;
    }
    proof {
        lemma_text_lt_skip(a@, b@, k as int);
    }
    if k == a.len() {
        k < b.len()
    } else if k == b.len() {
        false
    } else {
        assert(a@.skip(k as int)[0] == a@[k as int]);
        assert(b@.skip(k as int)[0] == b@[k as int]);
        a[k] < b[k]
    }
}

fn entry_key_less(entries: &Vec<(String, String)>, i: usize, k: &Vec<char>) -> (r: bool)
    requires
        i < entries.len(),
    ensures
        r == text_lt(entries@[i as int].0@, k@),
{
    let ek = chars_of(entries[i].0.as_str());
    text_less(&ek, k)
}

pub type Pairs = Seq<(Seq<char>, Seq<char>)>;

/// The keys of `ps`, in order.
pub open spec fn pair_keys(ps: Pairs) -> Seq<Seq<char>> {
    ps.map_values(|p: (Seq<char>, Seq<char>)| p.0)
}

/// Keys of `ps` strictly ascend.
pub open spec fn sorted_keys(ps: Pairs) -> bool {
    forall|i: int, j: int| 0 <= i < j < ps.len() ==> text_lt(#[trigger] ps[i].0, #[trigger] ps[j].0)
}

/// The value paired with `k` in `ps`, if any (the first such pair).
pub open spec fn lookup(ps: Pairs, k: Seq<char>) -> Option<Seq<char>>
    decreases ps.len(),
{
    if ps.len() == 0 {
        None
    } else if ps[0].0 == k {
        Some(ps[0].1)
    } else {
        lookup(ps.drop_first(), k)
    }
}

pub proof fn lemma_sorted_distinct(ps: Pairs, i: int, j: int)
    requires
        sorted_keys(ps),
        0 <= i < ps.len(),
        0 <= j < ps.len(),
        i != j,
    ensures
        ps[i].0 != ps[j].0,
{
    if i < j {
        lemma_text_lt_irreflexive(ps[i].0);
        assert(text_lt(ps[i].0, ps[j].0));
    } else {
        lemma_text_lt_irreflexive(ps[j].0);
        assert(text_lt(ps[j].0, ps[i].0));
    }
}

pub proof fn lemma_lookup_at(ps: Pairs, j: int)
    requires
        sorted_keys(ps),
        0 <= j < ps.len(),
    ensures
        lookup(ps, ps[j].0) == Some(ps[j].1),
    decreases j,
{
    if j > 0 {
        lemma_sorted_distinct(ps, 0, j);
        let t = ps.drop_first();
        assert(sorted_keys(t)) by {
            assert forall|a: int, b: int| 0 <= a < b < t.len() implies text_lt(
                #[trigger] t[a].0,
                #[trigger] t[b].0,
            ) by {
                assert(t[a] == ps[a + 1]);
                assert(t[b] == ps[b + 1]);
            }
        }
        assert(t[j - 1] == ps[j]);
        lemma_lookup_at(t, j - 1);
    }
}

pub proof fn lemma_lookup_none(ps: Pairs, k: Seq<char>)
    requires
        forall|j: int| 0 <= j < ps.len() ==> (#[trigger] ps[j]).0 != k,
    ensures
        lookup(ps, k) is None,
    decreases ps.len(),
{
    if ps.len() > 0 {
        let t = ps.drop_first();
        assert forall|j: int| 0 <= j < t.len() implies (#[trigger] t[j]).0 != k by {
            assert(t[j] == ps[j + 1]);
        }
        lemma_lookup_none(t, k);
    }
}

/// Either `k` is the key of some pair and `lookup` gives that pair's
/// value, or no pair has key `k` and `lookup` gives nothing.
pub proof fn lemma_lookup_cases(ps: Pairs, k: Seq<char>)
    requires
        sorted_keys(ps),
    ensures
        lookup(ps, k) is Some <==> exists|j: int| 0 <= j < ps.len() && (#[trigger] ps[j]).0 == k,
        forall|j: int| 0 <= j < ps.len() && (#[trigger] ps[j]).0 == k ==> lookup(ps, k) == Some(
            ps[j].1,
        ),
{
    if exists|j: int| 0 <= j < ps.len() && (#[trigger] ps[j]).0 == k {
        let j = choose|j: int| 0 <= j < ps.len() && (#[trigger] ps[j]).0 == k;
        lemma_lookup_at(ps, j);
    } else {
        lemma_lookup_none(ps, k);
    }
    assert forall|j: int| 0 <= j < ps.len() && (#[trigger] ps[j]).0 == k implies lookup(ps, k)
        == Some(ps[j].1) by {
        lemma_lookup_at(ps, j);
    }
}

/// An ordered map from strings to strings, kept sorted by key.
#[derive(Debug, PartialEq, Eq)]
pub struct StringMap {
    entries: Vec<(String, String)>,
}

impl Clone for StringMap {
    fn clone(&self) -> (r: StringMap)
        ensures
            r.pairs() == self.pairs(),
    {
        self.duplicate()
    }
}

impl StringMap {
    /// The (key, value) pairs in ascending key order.
    pub closed spec fn pairs(&self) -> Pairs {
        self.entries@.map_values(|e: (String, String)| (e.0@, e.1@))
    }

    /// The keys in ascending order.
    pub open spec fn keys(&self) -> Seq<Seq<char>> {
        pair_keys(self.pairs())
    }

    /// The keys, in ascending order.
    pub fn key_list(&self) -> (r: Vec<Vec<char>>)
        ensures
            r@.map_values(|v: Vec<char>| v@) == self.keys(),
            sorted_keys(self.pairs()),
    {
        proof {
            use_type_invariant(self);
        }
        let mut r: Vec<Vec<char>> = Vec::new();
        let mut i: usize = 0;
        while i < self.entries.len()
            invariant
                i <= self.entries.len(),
                r@.map_values(|v: Vec<char>| v@) =~= self.keys().take(i as int),
            decreases self.entries.len() - i,
        {
            let ghost before = r@.map_values(|v: Vec<char>| v@);
            r.push(chars_of(self.entries[i].0.as_str()));
            assert(r@.map_values(|v: Vec<char>| v@) =~= before.push(self.keys()[i as int]));
            assert(self.keys().take(i + 1) =~= self.keys().take(i as int).push(self.keys()[i as int]));
            i += 1;
        }
        assert(self.keys().take(self.entries.len() as int) =~= self.keys());
        r
    }

    /// A copy of the map.
    pub fn duplicate(&self) -> (r: StringMap)
        ensures
            r.pairs() == self.pairs(),
    {
        proof {
            use_type_invariant(self);
        }
        let mut entries: Vec<(String, String)> = Vec::new();
        let mut i: usize = 0;
        while i < self.entries.len()
            invariant
                i <= self.entries.len(),
                entries@ =~= self.entries@.take(i as int),
            decreases self.entries.len() - i,
        {
            let k = self.entries[i].0.clone();
            let v = self.entries[i].1.clone();
            entries.push((k, v));
            assert(self.entries@.take(i + 1) =~= self.entries@.take(i as int).push(self.entries@[i as int]));
            i += 1;
        }
        assert(self.entries@.take(self.entries.len() as int) =~= self.entries@);
        StringMap { entries }
    }

    /// The value stored under `k`, if any.
    pub open spec fn get_spec(&self, k: Seq<char>) -> Option<Seq<char>> {
        lookup(self.pairs(), k)
    }

    #[verifier::type_invariant]
    closed spec fn keys_ascend(&self) -> bool {
        sorted_keys(self.pairs())
    }

    /// An empty map.
    pub fn new() -> (m: StringMap)
        ensures
            m.pairs() == Seq::<(Seq<char>, Seq<char>)>::empty(),
    {
        let m = StringMap { entries: Vec::new() };
        assert(m.pairs() =~= Seq::<(Seq<char>, Seq<char>)>::empty());
        m
    }

    /// Number of entries.
    pub fn len(&self) -> (n: usize)
        ensures
            n == self.pairs().len(),
    {
        self.entries.len()
    }

    /// The key and value of the `i`-th entry in ascending key order.
    pub fn entry(&self, i: usize) -> (r: (&String, &String))
        requires
            i < self.pairs().len(),
        ensures
            (r.0@, r.1@) == self.pairs()[i as int],
    {
        let e = &self.entries[i];
        (&e.0, &e.1)
    }

    /// The value stored under `key`.
    pub fn get(&self, key: &Vec<char>) -> (r: Option<&String>)
        ensures
            match r {
                Some(v) => self.get_spec(key@) == Some(v@),
                None => self.get_spec(key@) is None,
            },
    {
        proof {
            use_type_invariant(self);
            lemma_lookup_cases(self.pairs(), key@);
        }
        let mut i: usize = 0;
        while i < self.entries.len()
            invariant
                i <= self.entries.len(),
                sorted_keys(self.pairs()),
                forall|j: int| 0 <= j < i ==> (#[trigger] self.pairs()[j]).0 != key@,
            decreases self.entries.len() - i,
        {
            let k = chars_of(self.entries[i].0.as_str());
            if chars_eq(&k, key) {
                assert(self.pairs()[i as int].0 == key@);
                proof {
                    lemma_lookup_cases(self.pairs(), key@);
                }
                return Some(&self.entries[i].1);
            }
            i += 1;
        }
        None
    }

    /// The value stored under the literal or slice `key`.
    pub fn get_str(&self, key: &str) -> (r: Option<&String>)
        ensures
            match r {
                Some(v) => self.get_spec(key@) == Some(v@),
                None => self.get_spec(key@) is None,
            },
    {
        let k = chars_of(key);
        self.get(&k)
    }

    /// Whether a value is stored under `key`.
    pub fn contains_key(&self, key: &str) -> (r: bool)
        ensures
            r == self.get_spec(key@) is Some,
    {
        self.get_str(key).is_some()
    }

    /// Stores `value` under `key`, replacing any earlier value.
    pub fn insert(&mut self, key: String, value: String)
        ensures
            forall|k: Seq<char>| #[trigger]
                final(self).get_spec(k) == (if k == key@ {
                    Some(value@)
                } else {
                    old(self).get_spec(k)
                }),
            forall|k: Seq<char>| #[trigger]
                final(self).keys().contains(k) <==> (k == key@ || old(self).keys().contains(k)),
    {
        proof {
            use_type_invariant(&*self);
        }
        let ghost ps = self.pairs();
        let kc = chars_of(key.as_str());
        let mut i: usize = 0;
        while i < self.entries.len()
            invariant
                i <= self.entries.len(),
                ps == self.pairs(),
                sorted_keys(ps),
                kc@ == key@,
                forall|j: int| 0 <= j < i ==> text_lt(#[trigger] ps[j].0, key@),
            ensures
                i <= self.entries.len(),
                ps == self.pairs(),
                sorted_keys(ps),
                kc@ == key@,
                forall|j: int| 0 <= j < i ==> text_lt(#[trigger] ps[j].0, key@),
                i < self.entries.len() ==> !text_lt(ps[i as int].0, key@),
            decreases self.entries.len() - i,
        {
            if !entry_key_less(&self.entries, i, &kc) {
                break;
            }
            i += 1;
        }
        let same = if i < self.entries.len() {
            let ek = chars_of(self.entries[i].0.as_str());
            chars_eq(&ek, &kc)
        } else {
            false
        };
        let ghost new_pairs: Pairs;
        if same {
            let ghost upd = ps.update(i as int, (key@, value@));
            proof {
                new_pairs = upd;
                assert forall|a: int, b: int| 0 <= a < b < upd.len() implies text_lt(
                    #[trigger] upd[a].0,
                    #[trigger] upd[b].0,
                ) by {
                    assert(text_lt(ps[a].0, ps[b].0));
                }
            }
            let mut entries: Vec<(String, String)> = Vec::new();
            std::mem::swap(&mut entries, &mut self.entries);
            entries.set(i, (key, value));
            assert(entries@.map_values(|e: (String, String)| (e.0@, e.1@)) =~= upd);
            self.entries = entries;
        } else {
            let ghost ins = ps.insert(i as int, (key@, value@));
            proof {
                new_pairs = ins;
                if i < ps.len() {
                    lemma_text_lt_total(ps[i as int].0, key@);
                }
                assert forall|a: int, b: int| 0 <= a < b < ins.len() implies text_lt(
                    #[trigger] ins[a].0,
                    #[trigger] ins[b].0,
                ) by {
                    if b < i {
                        assert(text_lt(ps[a].0, ps[b].0));
                    } else if b == i {
                        assert(ins[a] == ps[a]);
                    } else if a < i {
                        assert(ins[b] == ps[b - 1]);
                        assert(text_lt(key@, ps[i as int].0));
                        if b - 1 > i {
                            assert(text_lt(ps[i as int].0, ps[b - 1].0));
                            lemma_text_lt_transitive(key@, ps[i as int].0, ps[b - 1].0);
                        }
                        lemma_text_lt_transitive(ps[a].0, key@, ps[b - 1].0);
                    } else if a == i {
                        assert(ins[b] == ps[b - 1]);
                        if b - 1 > i {
                            assert(text_lt(ps[i as int].0, ps[b - 1].0));
                            lemma_text_lt_transitive(key@, ps[i as int].0, ps[b - 1].0);
                        }
                    } else {
                        assert(ins[a] == ps[a - 1]);
                        assert(ins[b] == ps[b - 1]);
                        assert(text_lt(ps[a - 1].0, ps[b - 1].0));
                    }
                }
            }
            let mut entries: Vec<(String, String)> = Vec::new();
            std::mem::swap(&mut entries, &mut self.entries);
            entries.insert(i, (key, value));
            assert(entries@.map_values(|e: (String, String)| (e.0@, e.1@)) =~= ins);
            self.entries = entries;
        }
        proof {
            let np = self.pairs();
            assert(np == new_pairs);
            assert(sorted_keys(np));
            assert forall|k: Seq<char>| #[trigger]
                self.get_spec(k) == (if k == key@ {
                    Some(value@)
                } else {
                    old(self).get_spec(k)
                }) by {
                lemma_lookup_cases(np, k);
                lemma_lookup_cases(ps, k);
                if k == key@ {
                    assert(np[i as int].0 == k);
                } else if lookup(ps, k) is Some {
                    let j = choose|j: int| 0 <= j < ps.len() && (#[trigger] ps[j]).0 == k;
                    if same {
                        assert(np[j].0 == k);
                    } else if j < i {
                        assert(np[j] == ps[j]);
                    } else {
                        assert(np[j + 1] == ps[j]);
                    }
                } else {
                    assert forall|j: int| 0 <= j < np.len() implies (#[trigger] np[j]).0 != k by {
                        if same {
                            if j != i {
                                assert(np[j] == ps[j]);
                            }
                        } else if j < i {
                            assert(np[j] == ps[j]);
                        } else if j > i {
                            assert(np[j] == ps[j - 1]);
                        }
                    }
                }
            }
            assert forall|k: Seq<char>| #[trigger]
                self.keys().contains(k) <==> (k == key@ || old(self).keys().contains(k)) by {
                if k == key@ {
                    assert(self.keys()[i as int] == k);
                }
                if old(self).keys().contains(k) {
                    let j = choose|j: int| 0 <= j < ps.len() && old(self).keys()[j] == k;
                    if same || j < i {
                        if same && j == i {
                            assert(self.keys()[i as int] == key@);
                            assert(ps[i as int].0 == key@);
                        } else {
                            assert(self.keys()[j] == k);
                        }
                    } else {
                        assert(self.keys()[j + 1] == k);
                    }
                }
                if self.keys().contains(k) && k != key@ {
                    let j = choose|j: int| 0 <= j < np.len() && self.keys()[j] == k;
                    if same {
                        assert(old(self).keys()[j] == k);
                    } else if j < i {
                        assert(old(self).keys()[j] == k);
                    } else {
                        assert(j != i);
                        assert(old(self).keys()[j - 1] == k);
                    }
                }
            }
        }
    }

    /// Stores `value` under the literal or slice `key`.
    pub fn insert_str(&mut self, key: &str, value: String)
        ensures
            forall|k: Seq<char>| #[trigger]
                final(self).get_spec(k) == (if k == key@ {
                    Some(value@)
                } else {
                    old(self).get_spec(k)
                }),
            forall|k: Seq<char>| #[trigger]
                final(self).keys().contains(k) <==> (k == key@ || old(self).keys().contains(k)),
    {
        self.insert(owned(key), value);
    }

    /// The map holding `pairs`; of two pairs with the same key the later
    /// one wins (as `BTreeMap::from`).
    pub fn from_pairs(pairs: Vec<(String, String)>) -> (m: StringMap)
        ensures
            forall|k: Seq<char>| #[trigger]
                m.get_spec(k) == lookup_last(
                    pairs@.map_values(|e: (String, String)| (e.0@, e.1@)),
                    k,
                ),
    {
        let ghost ps = pairs@.map_values(|e: (String, String)| (e.0@, e.1@));
        let mut m = StringMap::new();
        let mut i: usize = 0;
        while i < pairs.len()
            invariant
                i <= pairs.len(),
                ps == pairs@.map_values(|e: (String, String)| (e.0@, e.1@)),
                forall|k: Seq<char>| #[trigger] m.get_spec(k) == lookup_last(ps.take(i as int), k),
            decreases pairs.len() - i,
        {
            let key = pairs[i].0.clone();
            let value = pairs[i].1.clone();
            m.insert(key, value);
            assert(ps.take(i + 1).drop_last() =~= ps.take(i as int));
            assert(ps.take(i + 1).last() == ps[i as int]);
            i += 1;
        }
        assert(ps.take(pairs.len() as int) =~= ps);
        m
    }
}

/// The value paired with `k` by the last pair of `ps` with that key.
pub open spec fn lookup_last(ps: Pairs, k: Seq<char>) -> Option<Seq<char>>
    decreases ps.len(),
{
    if ps.len() == 0 {
        None
    } else if ps.last().0 == k {
        Some(ps.last().1)
    } else {
        lookup_last(ps.drop_last(), k)
    }
}

} // verus!
