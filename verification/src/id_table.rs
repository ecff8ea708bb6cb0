//! A small table keyed by rule id, one value per id: the last run of each
//! rule for cooldowns, and the hits of each rule not yet saved.
use vstd::prelude::*;
use crate::text::{chars_eq, chars_of};

verus! {

/// The sum of the values of `es`.
pub open spec fn values_sum(es: Seq<(String, u64)>) -> nat
    decreases es.len(),
{
    if es.len() == 0 {
        0
    } else {
        values_sum(es.drop_last()) + es.last().1 as nat
    }
}

proof fn lemma_values_sum_update(es: Seq<(String, u64)>, i: int, v: u64)
    requires
        0 <= i < es.len(),
    ensures
        values_sum(es.update(i, (es[i].0, v))) + es[i].1 == values_sum(es) + v,
    decreases es.len(),
{
    let u = es.update(i, (es[i].0, v));
    if i == es.len() - 1 {
        assert(u.drop_last() =~= es.drop_last());
    } else {
        assert(u.drop_last() =~= es.drop_last().update(i, (es[i].0, v)));
        lemma_values_sum_update(es.drop_last(), i, v);
    }
}

/// Values keyed by rule id, at most one per id.
#[derive(Debug)]
pub struct IdTable<V> {
    entries: Vec<(String, V)>,
}

impl<V> IdTable<V> {
    /// The entries, in the order they were first set.
    pub closed spec fn entry_seq(&self) -> Seq<(String, V)> {
        self.entries@
    }

    #[verifier::type_invariant]
    closed spec fn ids_distinct(&self) -> bool {
        forall|i: int, j: int| 0 <= i < j < self.entries@.len() ==> #[trigger] self.entries@[i].0@ != #[trigger] self.entries@[j].0@
    }

    /// The value kept for `id`.
    pub closed spec fn get_spec(&self, id: Seq<char>) -> Option<V> {
        if exists|i: int| 0 <= i < self.entries@.len() && #[trigger] self.entries@[i].0@ == id {
            Some(self.entries@[choose|i: int| 0 <= i < self.entries@.len() && #[trigger] self.entries@[i].0@ == id].1)
        } else {
            None
        }
    }

    /// An empty table.
    pub fn new() -> (r: IdTable<V>)
        ensures
            forall|id: Seq<char>| #[trigger] r.get_spec(id) is None,
    {
        IdTable { entries: Vec::new() }
    }

    /// Forgets every value.
    pub fn clear(&mut self)
        ensures
            forall|id: Seq<char>| #[trigger] final(self).get_spec(id) is None,
    {
        *self = IdTable { entries: Vec::new() };
    }

    fn index_of(&self, id: &str) -> (r: Option<usize>)
        ensures
            match r {
                Some(i) => i < self.entries@.len() && self.entries@[i as int].0@ == id@,
                None => forall|i: int| 0 <= i < self.entries@.len() ==> #[trigger] self.entries@[i].0@ != id@,
            },
    {
        let key = chars_of(id);
        let mut i: usize = 0;
        while i < self.entries.len()
            invariant
                i <= self.entries@.len(),
                key@ == id@,
                forall|j: int| 0 <= j < i ==> #[trigger] self.entries@[j].0@ != id@,
            decreases self.entries.len() - i,
        {
            if chars_eq(&chars_of(self.entries[i].0.as_str()), &key) {
                return Some(i);
            }
            i += 1;
        }
        None
    }

    /// The value kept for `id`.
    pub fn get(&self, id: &str) -> (r: Option<V>)
        where
            V: Copy,
        ensures
            r == self.get_spec(id@),
    {
        proof {
            use_type_invariant(self);
        }
        match self.index_of(id) {
            Some(i) => Some(self.entries[i].1),
            None => None,
        }
    }

    /// Keeps `value` for `id`, replacing any earlier one.
    pub fn set(&mut self, id: &str, value: V)
        ensures
            final(self).get_spec(id@) == Some(value),
            forall|k: Seq<char>| k != id@ ==> #[trigger] final(self).get_spec(k) == old(self).get_spec(k),
            match old(self).get_spec(id@) {
                Some(_) => exists|i: int|
                    0 <= i < old(self).entry_seq().len() && #[trigger] old(self).entry_seq()[i].0@ == id@
                        && final(self).entry_seq() == old(self).entry_seq().update(i, (old(self).entry_seq()[i].0, value)),
                None => exists|s: String| s@ == id@ && #[trigger] final(self).entry_seq() == old(self).entry_seq().push((s, value)),
            },
    {
        proof {
            use_type_invariant(&*self);
        }
        let ghost before = self.entries@;
        let found = self.index_of(id);
        let ghost mut pushed: String = arbitrary();
        let mut taken: Vec<(String, V)> = Vec::new();
        std::mem::swap(&mut taken, &mut self.entries);
        match found {
            Some(i) => {
                let (name, _) = taken.remove(i);
                let ghost name_view = name@;
                taken.insert(i, (name, value));
                assert(taken@ =~= before.update(i as int, (before[i as int].0, value)));
            },
            None => {
                let name = crate::text::owned(id);
                proof {
                    pushed = name;
                }
                taken.push((name, value));
            },
        }
        proof {
            assert forall|a: int, b: int| 0 <= a < b < taken@.len() implies #[trigger] taken@[a].0@ != #[trigger] taken@[b].0@ by {
                if b == before.len() {
                    assert(taken@[a] == before[a]);
                } else {
                    assert(taken@[a].0 == before[a].0);
                    assert(taken@[b].0 == before[b].0);
                }
            }
        }
        *self = IdTable { entries: taken };
        proof {
            assert forall|k: Seq<char>| k != id@ implies #[trigger] self.get_spec(k) == old(self).get_spec(k) by {
                if exists|j: int| 0 <= j < before.len() && #[trigger] before[j].0@ == k {
                    let j = choose|j: int| 0 <= j < before.len() && #[trigger] before[j].0@ == k;
                    assert(self.entries@[j].0@ == k);
                }
                if exists|j: int| 0 <= j < self.entries@.len() && #[trigger] self.entries@[j].0@ == k {
                    let j = choose|j: int| 0 <= j < self.entries@.len() && #[trigger] self.entries@[j].0@ == k;
                    assert(j < before.len());
                    assert(before[j].0@ == k);
                }
            }
            let n = self.entries@.len();
            match found {
                Some(i) => {
                    assert(self.entries@[i as int].0@ == id@);
                    assert(old(self).entry_seq()[i as int].0@ == id@);
                    assert(self.entry_seq() == old(self).entry_seq().update(i as int, (old(self).entry_seq()[i as int].0, value)));
                },
                None => {
                    assert(self.entries@[n - 1].0@ == id@);
                    assert(self.entry_seq() == old(self).entry_seq().push((pushed, value)));
                },
            }
        }
    }
}

impl IdTable<u64> {
    /// The sum of the values.
    pub closed spec fn total_spec(&self) -> nat {
        values_sum(self.entries@)
    }

    /// The sum of the values, when it fits.
    pub fn total(&self) -> (r: Option<u64>)
        ensures
            match r {
                Some(t) => t == self.total_spec(),
                None => self.total_spec() > u64::MAX,
            },
    {
        let mut sum: u64 = 0;
        let mut i: usize = 0;
        while i < self.entries.len()
            invariant
                i <= self.entries@.len(),
                sum == values_sum(self.entries@.take(i as int)),
            decreases self.entries.len() - i,
        {
            assert(self.entries@.take(i + 1).drop_last() =~= self.entries@.take(i as int));
            let v = self.entries[i].1;
            if sum > u64::MAX - v {
                proof {
                    lemma_values_sum_prefix(self.entries@, i + 1);
                }
                return None;
            }
            sum = sum + v;
            i += 1;
        }
        assert(self.entries@.take(i as int) =~= self.entries@);
        Some(sum)
    }

    /// Adds `n` to the value kept for `id` (zero when none).
    pub fn add(&mut self, id: &str, n: u64)
        requires
            old(self).get_spec(id@) matches Some(v) ==> v + n <= u64::MAX,
        ensures
            final(self).get_spec(id@) == Some(
                (match old(self).get_spec(id@) {
                    Some(v) => v + n,
                    None => n as int,
                }) as u64,
            ),
            forall|k: Seq<char>| k != id@ ==> #[trigger] final(self).get_spec(k) == old(self).get_spec(k),
            final(self).total_spec() == old(self).total_spec() + n,
    {
        proof {
            use_type_invariant(&*self);
        }
        let current = self.get(id);
        let next: u64 = match current {
            Some(v) => v + n,
            None => n,
        };
        let ghost before = self.entries@;
        self.set(id, next);
        proof {
            match current {
                Some(v) => {
                    let i = choose|i: int|
                        0 <= i < before.len() && #[trigger] before[i].0@ == id@ && self.entries@ == before.update(
                            i,
                            (before[i].0, next),
                        );
                    assert(before[i].1 == v);
                    lemma_values_sum_update(before, i, next);
                },
                None => {
                    let s = choose|s: String| s@ == id@ && #[trigger] self.entries@ == before.push((s, next));
                    assert(self.entries@.drop_last() =~= before);
                },
            }
        }
    }
}

proof fn lemma_values_sum_prefix(es: Seq<(String, u64)>, n: int)
    requires
        0 <= n <= es.len(),
    ensures
        values_sum(es.take(n)) <= values_sum(es),
    decreases es.len() - n,
{
    if n < es.len() {
        lemma_values_sum_prefix(es, n + 1);
        assert(es.take(n + 1).drop_last() =~= es.take(n));
    } else {
        assert(es.take(n) =~= es);
    }
}

} // verus!
