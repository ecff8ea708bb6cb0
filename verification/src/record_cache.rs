//! A cache of decoded notifications, so that a record whose row has not
//! changed is not decoded again. It holds at most a thousand records and
//! forgets the one used least recently first.
use vstd::prelude::*;
use crate::notification_db::NotificationRecord;
use crate::text::chars_eq;
use crate::text::chars_of;

verus! {

/// At most this many records are cached.
pub const MAX_NOTIFICATION_RECORD_CACHE_ENTRIES: usize = 1_000;

/// A decoded record with the signature of the row it came from: the
/// application, the delivery date (the bits of the stored floating-point
/// seconds) and a hash of the payload.
#[derive(Debug)]
pub struct CachedNotificationRecord {
    pub app_identifier: String,
    pub delivered_date_bits: u64,
    pub payload_hash: u64,
    pub record: NotificationRecord,
}

/// `es` without the entry of record `id`.
pub open spec fn without_id(es: Seq<CachedNotificationRecord>, id: i64) -> Seq<CachedNotificationRecord>
    decreases es.len(),
{
    if es.len() == 0 {
        seq![]
    } else if es.last().record.id == id {
        without_id(es.drop_last(), id)
    } else {
        without_id(es.drop_last(), id).push(es.last())
    }
}

/// The last `cap` entries of `es`.
pub open spec fn newest(es: Seq<CachedNotificationRecord>, cap: nat) -> Seq<CachedNotificationRecord> {
    if es.len() > cap {
        es.skip(es.len() - cap)
    } else {
        es
    }
}

/// The entries after remembering `entry`: any older entry of the same
/// record goes, the new one is the most recent, and the oldest beyond the
/// limit are forgotten.
pub open spec fn remembered(es: Seq<CachedNotificationRecord>, entry: CachedNotificationRecord) -> Seq<CachedNotificationRecord> {
    newest(without_id(es, entry.record.id).push(entry), MAX_NOTIFICATION_RECORD_CACHE_ENTRIES as nat)
}

/// The entry of record `id`, if cached.
pub open spec fn entry_of(es: Seq<CachedNotificationRecord>, id: i64) -> Option<CachedNotificationRecord> {
    if exists|i: int| 0 <= i < es.len() && #[trigger] es[i].record.id == id {
        Some(es[choose|i: int| 0 <= i < es.len() && #[trigger] es[i].record.id == id])
    } else {
        None
    }
}

/// The cached entry of record `id` matches the row's signature.
pub open spec fn signature_matches(
    e: CachedNotificationRecord,
    app_identifier: Seq<char>,
    delivered_date_bits: u64,
    payload_hash: u64,
) -> bool {
    e.app_identifier@ == app_identifier && e.delivered_date_bits == delivered_date_bits && e.payload_hash
        == payload_hash
}

/// The cached record for a row, when its signature matches.
pub open spec fn lookup_spec(
    es: Seq<CachedNotificationRecord>,
    id: i64,
    app_identifier: Seq<char>,
    delivered_date_bits: u64,
    payload_hash: u64,
) -> Option<NotificationRecord> {
    match entry_of(es, id) {
        Some(e) => if signature_matches(e, app_identifier, delivered_date_bits, payload_hash) {
            Some(e.record)
        } else {
            None
        },
        None => None,
    }
}

/// Record ids in `es` are distinct.
pub open spec fn ids_distinct(es: Seq<CachedNotificationRecord>) -> bool {
    forall|i: int, j: int| 0 <= i < j < es.len() ==> #[trigger] es[i].record.id != #[trigger] es[j].record.id
}

proof fn lemma_without_id(es: Seq<CachedNotificationRecord>, id: i64)
    requires
        ids_distinct(es),
    ensures
        ids_distinct(without_id(es, id)),
        forall|i: int| 0 <= i < without_id(es, id).len() ==> #[trigger] without_id(es, id)[i].record.id != id,
        forall|k: i64| k != id ==> #[trigger] entry_of(without_id(es, id), k) == entry_of(es, k),
        without_id(es, id).len() <= es.len(),
        forall|i: int|
            #![trigger without_id(es, id)[i]]
            0 <= i < without_id(es, id).len() ==> exists|j: int| 0 <= j < es.len() && #[trigger] es[j] == without_id(es, id)[i],
    decreases es.len(),
{
    if es.len() > 0 {
        let d = es.drop_last();
        assert(ids_distinct(d));
        lemma_without_id(d, id);
        let w = without_id(d, id);
        let last = es.last();
        assert forall|i: int| #![trigger w[i]] 0 <= i < w.len() implies exists|j: int| 0 <= j < es.len() && #[trigger] es[j] == w[i] by {
            let j = choose|j: int| 0 <= j < d.len() && #[trigger] d[j] == w[i];
            assert(es[j] == d[j]);
        }
        if last.record.id != id {
            let w2 = w.push(last);
            assert forall|i: int| 0 <= i < w.len() implies #[trigger] w[i].record.id != last.record.id by {
                let j = choose|j: int| 0 <= j < d.len() && #[trigger] d[j] == w[i];
                assert(es[j] == d[j]);
                assert(es[j].record.id != es[es.len() - 1].record.id);
            }
            assert forall|k: i64| k != id implies #[trigger] entry_of(w2, k) == entry_of(es, k) by {
                if k == last.record.id {
                    assert(w2[w.len() as int].record.id == k);
                    assert(es[es.len() - 1].record.id == k);
                    let a = choose|i: int| 0 <= i < w2.len() && #[trigger] w2[i].record.id == k;
                    let b = choose|i: int| 0 <= i < es.len() && #[trigger] es[i].record.id == k;
                    if a < w.len() {
                        assert(w[a].record.id != last.record.id);
                    }
                    if b < d.len() {
                        assert(es[b].record.id != es[es.len() - 1].record.id);
                    }
                } else {
                    assert(entry_of(w, k) == entry_of(d, k));
                    if exists|i: int| 0 <= i < d.len() && #[trigger] d[i].record.id == k {
                        let i = choose|i: int| 0 <= i < d.len() && #[trigger] d[i].record.id == k;
                        assert(es[i].record.id == k);
                    }
                    if exists|i: int| 0 <= i < es.len() && #[trigger] es[i].record.id == k {
                        let i = choose|i: int| 0 <= i < es.len() && #[trigger] es[i].record.id == k;
                        assert(i < d.len());
                        assert(d[i].record.id == k);
                    }
                    if exists|i: int| 0 <= i < w.len() && #[trigger] w[i].record.id == k {
                        let i = choose|i: int| 0 <= i < w.len() && #[trigger] w[i].record.id == k;
                        assert(w2[i].record.id == k);
                    }
                    if exists|i: int| 0 <= i < w2.len() && #[trigger] w2[i].record.id == k {
                        let i = choose|i: int| 0 <= i < w2.len() && #[trigger] w2[i].record.id == k;
                        assert(i < w.len());
                        assert(w[i].record.id == k);
                    }
                }
            }
            assert forall|i: int| #![trigger w2[i]] 0 <= i < w2.len() implies exists|j: int| 0 <= j < es.len() && #[trigger] es[j] == w2[i] by {
                if i == w.len() {
                    assert(es[es.len() - 1] == w2[i]);
                } else {
                    let j = choose|j: int| 0 <= j < d.len() && #[trigger] d[j] == w[i];
                    assert(es[j] == d[j]);
                }
            }
        } else {
            assert forall|k: i64| k != id implies #[trigger] entry_of(w, k) == entry_of(es, k) by {
                if exists|i: int| 0 <= i < d.len() && #[trigger] d[i].record.id == k {
                    let i = choose|i: int| 0 <= i < d.len() && #[trigger] d[i].record.id == k;
                    assert(es[i].record.id == k);
                }
                if exists|i: int| 0 <= i < es.len() && #[trigger] es[i].record.id == k {
                    let i = choose|i: int| 0 <= i < es.len() && #[trigger] es[i].record.id == k;
                    assert(i < d.len());
                    assert(d[i].record.id == k);
                }
            }
        }
    }
}

/// Decoded notifications by record id, least recently used first.
#[derive(Debug)]
pub struct NotificationRecordCache {
    entries: Vec<CachedNotificationRecord>,
}

impl NotificationRecordCache {
    /// The cached entries, least recently used first.
    pub closed spec fn entry_seq(&self) -> Seq<CachedNotificationRecord> {
        self.entries@
    }

    #[verifier::type_invariant]
    closed spec fn well_formed(&self) -> bool {
        &&& ids_distinct(self.entries@)
        &&& self.entries@.len() <= MAX_NOTIFICATION_RECORD_CACHE_ENTRIES
    }

    /// An empty cache.
    pub fn new() -> (r: NotificationRecordCache)
        ensures
            r.entry_seq().len() == 0,
    {
        NotificationRecordCache { entries: Vec::new() }
    }

    /// How many records are cached; never more than the limit.
    pub fn len(&self) -> (n: usize)
        ensures
            n == self.entry_seq().len(),
            n <= MAX_NOTIFICATION_RECORD_CACHE_ENTRIES,
    {
        proof {
            use_type_invariant(self);
        }
        self.entries.len()
    }

    fn position(&self, id: i64) -> (r: Option<usize>)
        ensures
            match r {
                Some(i) => i < self.entries@.len() && self.entries@[i as int].record.id == id,
                None => forall|i: int| 0 <= i < self.entries@.len() ==> #[trigger] self.entries@[i].record.id != id,
            },
    {
        let mut i: usize = 0;
        while i < self.entries.len()
            invariant
                i <= self.entries@.len(),
                forall|j: int| 0 <= j < i ==> #[trigger] self.entries@[j].record.id != id,
            decreases self.entries.len() - i,
        {
            if self.entries[i].record.id == id {
                return Some(i);
            }
            i += 1;
        }
        None
    }

    /// The cached record of row `id`, when the row's application, delivery
    /// date and payload hash are those it was cached with; a hit makes it
    /// the most recently used.
    pub fn cached_notification_record(
        &mut self,
        id: i64,
        app_identifier: &str,
        delivered_date_bits: u64,
        payload_hash: u64,
    ) -> (r: Option<NotificationRecord>)
        ensures
            r == lookup_spec(old(self).entry_seq(), id, app_identifier@, delivered_date_bits, payload_hash),
            r is None ==> final(self).entry_seq() == old(self).entry_seq(),
            r is Some ==> final(self).entry_seq() == without_id(old(self).entry_seq(), id).push(
                entry_of(old(self).entry_seq(), id)->Some_0,
            ),
    {
        proof {
            use_type_invariant(&*self);
        }
        let ghost es = self.entries@;
        let i = match self.position(id) {
            Some(i) => i,
            None => return None,
        };
        proof {
            let c = choose|j: int| 0 <= j < es.len() && #[trigger] es[j].record.id == id;
            assert(c == i as int);
        }
        let e = &self.entries[i];
        if !(chars_eq(&chars_of(e.app_identifier.as_str()), &chars_of(app_identifier)) && e.delivered_date_bits
            == delivered_date_bits && e.payload_hash == payload_hash) {
            return None;
        }
        let record = e.record.duplicate();
        let mut taken = NotificationRecordCache::new();
        std::mem::swap(&mut taken, self);
        proof {
            use_type_invariant(&taken);
        }
        let NotificationRecordCache { entries: mut entries } = taken;
        let moved = entries.remove(i);
        entries.push(moved);
        proof {
            lemma_remove_is_without(es, i as int, id);
            assert(entries@ == without_id(es, id).push(es[i as int]));
            lemma_without_id(es, id);
            let w = without_id(es, id);
            assert forall|a: int, b: int| 0 <= a < b < entries@.len() implies #[trigger] entries@[a].record.id
                != #[trigger] entries@[b].record.id by {
                if b == w.len() {
                    assert(w[a].record.id != id);
                }
            }
        }
        *self = NotificationRecordCache { entries };
        Some(record)
    }

    /// Caches a decoded record with the signature of its row, replacing
    /// any earlier entry of the same record and forgetting the least
    /// recently used beyond the limit.
    pub fn remember_notification_record(&mut self, delivered_date_bits: u64, payload_hash: u64, record: NotificationRecord)
        ensures
            ({
                let e = final(self).entry_seq().last();
                &&& final(self).entry_seq().len() > 0
                &&& e.app_identifier == record.app_identifier
                &&& e.delivered_date_bits == delivered_date_bits
                &&& e.payload_hash == payload_hash
                &&& e.record == record
                &&& final(self).entry_seq() == remembered(old(self).entry_seq(), e)
            }),
    {
        proof {
            use_type_invariant(&*self);
        }
        let ghost es = self.entries@;
        let mut taken = NotificationRecordCache::new();
        std::mem::swap(&mut taken, self);
        proof {
            use_type_invariant(&taken);
        }
        let NotificationRecordCache { entries: mut entries } = taken;
        match position_in(&entries, record.id) {
            Some(i) => {
                let _ = entries.remove(i);
                proof {
                    lemma_remove_is_without(es, i as int, record.id);
                }
            },
            None => {
                proof {
                    lemma_without_absent(es, record.id);
                }
            },
        }
        proof {
            lemma_without_id(es, record.id);
        }
        let entry = CachedNotificationRecord {
            app_identifier: record.app_identifier.clone(),
            delivered_date_bits,
            payload_hash,
            record,
        };
        let ghost new_entry = entry;
        entries.push(entry);
        let ghost pushed = entries@;
        proof {
            let w = without_id(es, new_entry.record.id);
            assert(pushed == w.push(new_entry));
            assert forall|a: int, b: int| 0 <= a < b < pushed.len() implies #[trigger] pushed[a].record.id
                != #[trigger] pushed[b].record.id by {
                if b == w.len() {
                    assert(w[a].record.id != new_entry.record.id);
                }
            }
        }
        if entries.len() > MAX_NOTIFICATION_RECORD_CACHE_ENTRIES {
            let overflow = entries.len() - MAX_NOTIFICATION_RECORD_CACHE_ENTRIES;
            let kept = entries.split_off(overflow);
            entries = kept;
            proof {
                assert forall|a: int, b: int| 0 <= a < b < entries@.len() implies #[trigger] entries@[a].record.id
                    != #[trigger] entries@[b].record.id by {
                    assert(entries@[a] == pushed[a + overflow]);
                    assert(entries@[b] == pushed[b + overflow]);
                }
                assert(entries@ =~= pushed.skip(pushed.len() - MAX_NOTIFICATION_RECORD_CACHE_ENTRIES));
            }
        }
        *self = NotificationRecordCache { entries };
    }
}

fn position_in(entries: &Vec<CachedNotificationRecord>, id: i64) -> (r: Option<usize>)
    ensures
        match r {
            Some(i) => i < entries@.len() && entries@[i as int].record.id == id,
            None => forall|i: int| 0 <= i < entries@.len() ==> #[trigger] entries@[i].record.id != id,
        },
{
    let mut i: usize = 0;
    while i < entries.len()
        invariant
            i <= entries@.len(),
            forall|j: int| 0 <= j < i ==> #[trigger] entries@[j].record.id != id,
        decreases entries.len() - i,
    {
        if entries[i].record.id == id {
            return Some(i);
        }
        i += 1;
    }
    None
}

proof fn lemma_without_absent(es: Seq<CachedNotificationRecord>, id: i64)
    requires
        forall|i: int| 0 <= i < es.len() ==> #[trigger] es[i].record.id != id,
    ensures
        without_id(es, id) == es,
    decreases es.len(),
{
    if es.len() > 0 {
        let d = es.drop_last();
        assert forall|i: int| 0 <= i < d.len() implies #[trigger] d[i].record.id != id by {
            assert(es[i] == d[i]);
        }
        lemma_without_absent(d, id);
        assert(d.push(es.last()) =~= es);
    }
}

proof fn lemma_remove_is_without(es: Seq<CachedNotificationRecord>, i: int, id: i64)
    requires
        ids_distinct(es),
        0 <= i < es.len(),
        es[i].record.id == id,
    ensures
        es.remove(i) == without_id(es, id),
    decreases es.len(),
{
    let d = es.drop_last();
    if i == es.len() - 1 {
        assert forall|j: int| 0 <= j < d.len() implies #[trigger] d[j].record.id != id by {
            assert(es[j] == d[j]);
        }
        lemma_without_absent(d, id);
        assert(es.remove(i) =~= d);
    } else {
        assert(ids_distinct(d));
        assert(d[i] == es[i]);
        lemma_remove_is_without(d, i, id);
        assert(es.last().record.id != id) by {
            assert(es[es.len() - 1].record.id != es[i].record.id);
        }
        assert(es.remove(i) =~= d.remove(i).push(es.last()));
    }
}

/// What was remembered is found again with the same signature, and a
/// different application, date or payload finds nothing.
pub proof fn lemma_remembered_is_found(
    es: Seq<CachedNotificationRecord>,
    entry: CachedNotificationRecord,
    app_identifier: Seq<char>,
    delivered_date_bits: u64,
    payload_hash: u64,
)
    requires
        ids_distinct(es),
    ensures
        lookup_spec(remembered(es, entry), entry.record.id, entry.app_identifier@, entry.delivered_date_bits, entry.payload_hash)
            == Some(entry.record),
        !signature_matches(entry, app_identifier, delivered_date_bits, payload_hash) ==> lookup_spec(
            remembered(es, entry),
            entry.record.id,
            app_identifier,
            delivered_date_bits,
            payload_hash,
        ) is None,
{
    lemma_without_id(es, entry.record.id);
    let w = without_id(es, entry.record.id);
    let p = w.push(entry);
    let r = remembered(es, entry);
    let last = r.len() - 1;
    assert(r[last] == entry) by {
        if p.len() > MAX_NOTIFICATION_RECORD_CACHE_ENTRIES {
            assert(r[last] == p[p.len() - 1]);
        }
    }
    assert(r[last].record.id == entry.record.id);
    let c = choose|i: int| 0 <= i < r.len() && #[trigger] r[i].record.id == entry.record.id;
    if c != last {
        let pc = if p.len() > MAX_NOTIFICATION_RECORD_CACHE_ENTRIES {
            c + (p.len() - MAX_NOTIFICATION_RECORD_CACHE_ENTRIES)
        } else {
            c
        };
        assert(r[c] == p[pc]);
        assert(pc < w.len());
        assert(w[pc].record.id != entry.record.id);
    }
}

} // verus!
