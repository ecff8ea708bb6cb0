//! What happens to a rule once it matches: the queue of action jobs, the
//! per-rule cooldowns, hit counting, enabling and saving rules, and the
//! messages the automation reports as it goes.
use vstd::prelude::*;
use std::collections::VecDeque;
use crate::action_runner::ActionExecution;
use crate::foreign::{is_clock_minute, json_string_object, new_uuid, now_rfc3339, opt_view, spec_json_string_object};
use crate::automation::{
    AppFilterMode, automation_block_reason, internal_feedback, is_internal_automation_feedback_record,
    is_visible_app, rule_automation_block_reason, visible_app, store_was_reset, watch_next, WatchEvent,
};
use crate::id_table::IdTable;
use crate::notification_db::NotificationRecord;
use crate::notification_archive::ActionHistoryEntry;
use crate::rules::{AutomationRule, action_views, extractions_of, rule_applies, is_matching_result, matched_rules, matching_rules, same_rule};
use crate::variables::variable_pairs;
use crate::strmap::{Pairs, StringMap, lemma_text_lt_transitive, lookup_last, sorted_keys, text_lt};
use crate::template::is_internal_key;
use crate::text::{chars_of, decimal, extend_chars, extend_str, owned, spec_decimal, string_of};
use crate::validation::{rule_error, validate_rule_for_save};

verus! {

// ---------------------------------------------------------------------
// Jobs and the queue
// ---------------------------------------------------------------------

/// At most this many jobs wait in the queue.
pub const MAX_ACTION_QUEUE_ENTRIES: usize = 200;

/// The actions of one matched rule for one notification, waiting to run.
#[derive(Debug)]
pub struct ActionJob {
    pub id: String,
    /// When the job was queued (RFC 3339).
    pub queued_at: String,
    pub rule: AutomationRule,
    pub record: NotificationRecord,
    pub variables: StringMap,
}

/// A job as the queue status shows it.
#[derive(Clone, Debug)]
pub struct ActionQueueItem {
    pub id: String,
    pub queued_at: String,
    pub rule_id: String,
    pub rule_name: String,
    pub notification_id: i64,
    pub notification_title: String,
    pub app_identifier: String,
    pub action_count: usize,
}

impl ActionQueueItem {
    /// A field-by-field copy.
    pub fn duplicate(&self) -> (r: ActionQueueItem)
        ensures
            r == *self,
    {
        ActionQueueItem {
            id: self.id.clone(),
            queued_at: self.queued_at.clone(),
            rule_id: self.rule_id.clone(),
            rule_name: self.rule_name.clone(),
            notification_id: self.notification_id,
            notification_title: self.notification_title.clone(),
            app_identifier: self.app_identifier.clone(),
            action_count: self.action_count,
        }
    }
}

/// The queue as the status view shows it.
#[derive(Clone, Debug)]
pub struct ActionQueueStatus {
    pub pending_count: usize,
    pub max_pending_count: usize,
    pub running: Option<ActionQueueItem>,
    pub pending: Vec<ActionQueueItem>,
}

/// How many actions a rule runs.
pub open spec fn action_count_of(rule: AutomationRule) -> nat {
    match rule.actions {
        Some(a) => a@.len(),
        None => 0,
    }
}

/// `item` is the status view of `job`.
pub open spec fn summarizes(item: ActionQueueItem, job: ActionJob) -> bool {
    &&& item.id == job.id
    &&& item.queued_at == job.queued_at
    &&& item.rule_id == job.rule.id
    &&& item.rule_name == job.rule.name
    &&& item.notification_id == job.record.id
    &&& item.notification_title == job.record.title
    &&& item.app_identifier == job.record.app_identifier
    &&& item.action_count == action_count_of(job.rule)
}

/// The status view of a job.
pub fn action_job_summary(job: &ActionJob) -> (r: ActionQueueItem)
    ensures
        summarizes(r, *job),
{
    ActionQueueItem {
        id: job.id.clone(),
        queued_at: job.queued_at.clone(),
        rule_id: job.rule.id.clone(),
        rule_name: job.rule.name.clone(),
        notification_id: job.record.id,
        notification_title: job.record.title.clone(),
        app_identifier: job.record.app_identifier.clone(),
        action_count: match &job.rule.actions {
            Some(a) => a.len(),
            None => 0,
        },
    }
}

/// The message for a full queue.
pub open spec fn queue_full_message() -> Seq<char> {
    "动作队列已满（200 条），请稍后再试"@
}

/// The jobs waiting to run, first in first out, and the job running now.
#[derive(Debug)]
pub struct ActionQueue {
    pending: VecDeque<ActionJob>,
    running: Option<ActionQueueItem>,
}

impl ActionQueue {
    /// The waiting jobs, the next to run first.
    pub closed spec fn jobs(&self) -> Seq<ActionJob> {
        self.pending@
    }

    /// The job running now.
    pub closed spec fn running_job(&self) -> Option<ActionQueueItem> {
        self.running
    }

    #[verifier::type_invariant]
    closed spec fn bounded(&self) -> bool {
        self.pending@.len() <= MAX_ACTION_QUEUE_ENTRIES
    }

    /// An empty queue with nothing running.
    pub fn new() -> (r: ActionQueue)
        ensures
            r.jobs().len() == 0,
            r.running_job() is None,
    {
        ActionQueue { pending: VecDeque::new(), running: None }
    }

    /// How many jobs wait; never more than the limit.
    pub fn len(&self) -> (n: usize)
        ensures
            n == self.jobs().len(),
            n <= MAX_ACTION_QUEUE_ENTRIES,
    {
        proof {
            use_type_invariant(self);
        }
        self.pending.len()
    }

    /// Queues the actions of `rule` for `record`, with a fresh id and the
    /// current time; refused, and nothing queued, when the queue is full.
    pub fn enqueue_action_job(&mut self, rule: AutomationRule, record: NotificationRecord, variables: StringMap) -> (r: Result<ActionQueueItem, String>)
        ensures
            old(self).jobs().len() >= MAX_ACTION_QUEUE_ENTRIES ==> (r matches Err(e) && e@ == queue_full_message()
                && final(self).jobs() == old(self).jobs()),
            old(self).jobs().len() < MAX_ACTION_QUEUE_ENTRIES ==> (r matches Ok(item) && final(self).jobs().len()
                == old(self).jobs().len() + 1 && final(self).jobs().drop_last() == old(self).jobs() && ({
                let job = final(self).jobs().last();
                &&& job.rule == rule
                &&& job.record == record
                &&& job.variables == variables
                &&& job.id@.len() == 36
                &&& summarizes(item, job)
            })),
            final(self).running_job() == old(self).running_job(),
    {
        proof {
            use_type_invariant(&*self);
        }
        if self.pending.len() >= MAX_ACTION_QUEUE_ENTRIES {
            return Err(string_of(&chars_of("动作队列已满（200 条），请稍后再试")));
        }
        let job = ActionJob { id: new_uuid(), queued_at: now_rfc3339(), rule, record, variables };
        let item = action_job_summary(&job);
        let mut taken = ActionQueue::new();
        std::mem::swap(&mut taken, self);
        let ActionQueue { pending: mut pending, running } = taken;
        pending.push_back(job);
        *self = ActionQueue { pending, running };
        assert(self.jobs().drop_last() =~= old(self).jobs());
        Ok(item)
    }

    /// Takes the next job and marks it running.
    pub fn start_next(&mut self) -> (r: Option<ActionJob>)
        ensures
            match r {
                Some(job) => {
                    &&& old(self).jobs().len() > 0
                    &&& job == old(self).jobs()[0]
                    &&& final(self).jobs() == old(self).jobs().skip(1)
                    &&& final(self).running_job() matches Some(item) && summarizes(item, job)
                },
                None => {
                    &&& old(self).jobs().len() == 0
                    &&& final(self).jobs() == old(self).jobs()
                    &&& final(self).running_job() == old(self).running_job()
                },
            },
    {
        let mut taken = ActionQueue::new();
        std::mem::swap(&mut taken, self);
        proof {
            use_type_invariant(&taken);
        }
        let ActionQueue { pending: mut pending, running } = taken;
        match pending.pop_front() {
            Some(job) => {
                let item = action_job_summary(&job);
                *self = ActionQueue { pending, running: Some(item) };
                assert(self.jobs() =~= old(self).jobs().skip(1));
                Some(job)
            },
            None => {
                *self = ActionQueue { pending, running };
                None
            },
        }
    }

    /// Marks the running job finished.
    pub fn finish_current(&mut self)
        ensures
            final(self).jobs() == old(self).jobs(),
            final(self).running_job() is None,
    {
        let mut taken = ActionQueue::new();
        std::mem::swap(&mut taken, self);
        proof {
            use_type_invariant(&taken);
        }
        let ActionQueue { pending, running: _ } = taken;
        *self = ActionQueue { pending, running: None };
    }

    /// Whether the actions of `rule_id` for notification `record_id` are
    /// running or waiting.
    pub fn is_in_flight(&self, rule_id: &str, record_id: i64) -> (r: bool)
        ensures
            r == in_flight(*self, rule_id@, record_id),
    {
        match &self.running {
            Some(item) => {
                if crate::text::chars_eq(&chars_of(item.rule_id.as_str()), &chars_of(rule_id)) && item.notification_id
                    == record_id {
                    return true;
                }
            },
            None => {},
        }
        let mut i: usize = 0;
        while i < self.pending.len()
            invariant
                i <= self.pending@.len(),
                forall|j: int| 0 <= j < i ==> !(#[trigger] self.pending@[j].rule.id@ == rule_id@ && self.pending@[j].record.id
                    == record_id),
            decreases self.pending.len() - i,
        {
            let job = &self.pending[i];
            if crate::text::chars_eq(&chars_of(job.rule.id.as_str()), &chars_of(rule_id)) && job.record.id == record_id {
                assert(self.jobs()[i as int].rule.id@ == rule_id@);
                return true;
            }
            i += 1;
        }
        false
    }

    /// The queue as the status view shows it.
    pub fn status(&self) -> (r: ActionQueueStatus)
        ensures
            r.pending_count == self.jobs().len(),
            r.max_pending_count == MAX_ACTION_QUEUE_ENTRIES,
            r.running == self.running_job(),
            r.pending@.len() == self.jobs().len(),
            forall|i: int| 0 <= i < r.pending@.len() ==> summarizes(#[trigger] r.pending@[i], self.jobs()[i]),
    {
        let mut pending: Vec<ActionQueueItem> = Vec::new();
        let mut i: usize = 0;
        while i < self.pending.len()
            invariant
                i <= self.pending@.len(),
                pending@.len() == i,
                forall|j: int| 0 <= j < i ==> summarizes(#[trigger] pending@[j], self.pending@[j]),
            decreases self.pending.len() - i,
        {
            pending.push(action_job_summary(&self.pending[i]));
            i += 1;
        }
        ActionQueueStatus {
            pending_count: self.pending.len(),
            max_pending_count: MAX_ACTION_QUEUE_ENTRIES,
            running: match &self.running {
                Some(item) => Some(item.duplicate()),
                None => None,
            },
            pending,
        }
    }
}

/// The actions of `rule_id` for notification `record_id` are running or
/// waiting in `queue`.
pub open spec fn in_flight(queue: ActionQueue, rule_id: Seq<char>, record_id: i64) -> bool {
    ||| (queue.running_job() matches Some(item) && item.rule_id@ == rule_id && item.notification_id == record_id)
    ||| exists|j: int|
        0 <= j < queue.jobs().len() && #[trigger] queue.jobs()[j].rule.id@ == rule_id && queue.jobs()[j].record.id
            == record_id
}

/// Jobs run in the order they were queued: a job queued below the limit
/// keeps the queue within it, the job at the head stays there, and the
/// new job comes out after every earlier one (first, when the queue was
/// empty).
pub proof fn lemma_queue_first_in_first_out(jobs: Seq<ActionJob>, job: ActionJob)
    requires
        jobs.len() < MAX_ACTION_QUEUE_ENTRIES,
    ensures
        jobs.push(job).len() <= MAX_ACTION_QUEUE_ENTRIES,
        jobs.len() > 0 ==> jobs.push(job)[0] == jobs[0] && jobs.push(job).skip(1) == jobs.skip(1).push(job),
        jobs.len() == 0 ==> jobs.push(job)[0] == job,
{
    if jobs.len() > 0 {
        assert(jobs.push(job).skip(1) =~= jobs.skip(1).push(job));
    }
}

// ---------------------------------------------------------------------
// Cooldowns
// ---------------------------------------------------------------------

/// Nanoseconds in a second.
pub open spec fn nanos_per_second() -> nat {
    1_000_000_000
}

/// Seconds of cooldown left for a rule with `cooldown_seconds`, when its
/// last run was `elapsed` nanoseconds ago: none when the rule has no
/// cooldown, never ran, or the cooldown is over; else the whole seconds
/// left, at least one.
pub open spec fn cooldown_left(cooldown_seconds: nat, elapsed: Option<nat>) -> Option<nat> {
    if cooldown_seconds == 0 {
        None
    } else {
        match elapsed {
            Some(e) => if e < cooldown_seconds * nanos_per_second() {
                let left = (cooldown_seconds * nanos_per_second() - e) as nat / nanos_per_second();
                Some(if left < 1 {
                    1
                } else {
                    left
                })
            } else {
                None
            },
            None => None,
        }
    }
}

/// The cooldown of a rule, in seconds (none means zero).
pub open spec fn cooldown_of(rule: AutomationRule) -> nat {
    match rule.cooldown_seconds {
        Some(s) => s as nat,
        None => 0,
    }
}

/// Nanoseconds since `last` at `now`; zero for a `last` after `now`.
pub open spec fn elapsed_since(now: u128, last: u128) -> nat {
    if now < last {
        0
    } else {
        (now - last) as nat
    }
}

/// How long ago each rule last ran, at `now`.
pub open spec fn elapsed_of(cooldowns: IdTable<u128>, id: Seq<char>, now: u128) -> Option<nat> {
    match cooldowns.get_spec(id) {
        Some(last) => Some(elapsed_since(now, last)),
        None => None,
    }
}

/// Seconds of cooldown left for `rule` at `now` (nanoseconds of a
/// monotonic clock), given when each rule last ran.
pub fn cooldown_remaining_seconds(cooldowns: &IdTable<u128>, rule: &AutomationRule, now: u128) -> (r: Option<u64>)
    ensures
        r matches Some(s) ==> cooldown_left(cooldown_of(*rule), elapsed_of(*cooldowns, rule.id@, now)) == Some(s as nat),
        r is None ==> cooldown_left(cooldown_of(*rule), elapsed_of(*cooldowns, rule.id@, now)) is None,
{
    let cooldown_seconds: u64 = match rule.cooldown_seconds {
        Some(s) => s,
        None => 0,
    };
    if cooldown_seconds == 0 {
        return None;
    }
    let last = match cooldowns.get(rule.id.as_str()) {
        Some(t) => t,
        None => return None,
    };
    let elapsed: u128 = if now < last {
        0
    } else {
        now - last
    };
    assert(cooldown_seconds as u128 * 1_000_000_000u128 <= u64::MAX as u128 * 1_000_000_000u128) by (nonlinear_arith)
        requires
            cooldown_seconds <= u64::MAX,
    ;
    let cooldown: u128 = cooldown_seconds as u128 * 1_000_000_000u128;
    if elapsed < cooldown {
        let left: u128 = (cooldown - elapsed) / 1_000_000_000u128;
        assert(left <= cooldown_seconds) by (nonlinear_arith)
            requires
                left as int == (cooldown - elapsed) as int / 1_000_000_000int,
                cooldown as int == cooldown_seconds as int * 1_000_000_000int,
                elapsed <= cooldown,
        ;
        if left < 1 {
            Some(1)
        } else {
            Some(left as u64)
        }
    } else {
        None
    }
}

/// Starts the cooldown of `rule` at `now`, when it has one.
pub fn commit_rule_cooldown(cooldowns: &mut IdTable<u128>, rule: &AutomationRule, now: u128)
    ensures
        cooldown_of(*rule) == 0 ==> forall|k: Seq<char>| #[trigger] final(cooldowns).get_spec(k) == old(cooldowns).get_spec(k),
        cooldown_of(*rule) > 0 ==> final(cooldowns).get_spec(rule.id@) == Some(now) && forall|k: Seq<char>|
            k != rule.id@ ==> #[trigger] final(cooldowns).get_spec(k) == old(cooldowns).get_spec(k),
{
    let cooldown_seconds: u64 = match rule.cooldown_seconds {
        Some(s) => s,
        None => 0,
    };
    if cooldown_seconds == 0 {
        return;
    }
    cooldowns.set(rule.id.as_str(), now);
}

/// Once a rule with a cooldown has started it at `now` (the table then
/// holds `now` for the rule, as `commit_rule_cooldown` leaves it), the
/// rule is cooling down for exactly its cooldown: at `now` its whole
/// cooldown is left, and at a later time some is left if and only if less
/// than the cooldown has passed.
pub proof fn lemma_cooldown_after_commit(cooldowns: IdTable<u128>, rule: AutomationRule, now: u128, later: u128)
    requires
        cooldown_of(rule) > 0,
        cooldowns.get_spec(rule.id@) == Some(now),
        now <= later,
    ensures
        cooldown_left(cooldown_of(rule), elapsed_of(cooldowns, rule.id@, now)) == Some(cooldown_of(rule)),
        cooldown_left(cooldown_of(rule), elapsed_of(cooldowns, rule.id@, later)) is Some <==> later - now
            < cooldown_of(rule) * nanos_per_second(),
{
    let c = cooldown_of(rule);
    assert((c * nanos_per_second() - 0) as nat / nanos_per_second() == c) by (nonlinear_arith)
        requires
            nanos_per_second() == 1_000_000_000,
    ;
}

// ---------------------------------------------------------------------
// Hit counts
// ---------------------------------------------------------------------

/// How often `id` occurs in `ids`.
pub open spec fn occurrences(ids: Seq<String>, id: Seq<char>) -> nat
    decreases ids.len(),
{
    if ids.len() == 0 {
        0
    } else {
        occurrences(ids.drop_last(), id) + if ids.last()@ == id {
            1nat
        } else {
            0nat
        }
    }
}

/// `k` is the first rule with id `id`.
pub open spec fn first_with_id(rules: Seq<AutomationRule>, id: Seq<char>, k: int) -> bool {
    &&& 0 <= k < rules.len()
    &&& rules[k].id@ == id
    &&& forall|j: int| 0 <= j < k ==> #[trigger] rules[j].id@ != id
}

/// Some rule has id `id`.
pub open spec fn has_rule(rules: Seq<AutomationRule>, id: Seq<char>) -> bool {
    exists|k: int| 0 <= k < rules.len() && #[trigger] rules[k].id@ == id
}

/// `a + b`, or the largest `u64` when that is more.
pub open spec fn saturating_sum(a: nat, b: nat) -> nat {
    if a + b > u64::MAX {
        u64::MAX as nat
    } else {
        a + b
    }
}

/// The hit count of a rule, none counting as zero.
pub open spec fn hits_of(rule: AutomationRule) -> nat {
    match rule.hit_count {
        Some(h) => h as nat,
        None => 0,
    }
}

/// Rule `k` of `rules` after the hits `ids` are counted: the first rule of
/// each id that was hit gains its hits (saturating); the others stay.
pub open spec fn hit_counted(rules: Seq<AutomationRule>, k: int, ids: Seq<String>) -> AutomationRule {
    let rule = rules[k];
    let n = occurrences(ids, rule.id@);
    if n > 0 && first_with_id(rules, rule.id@, k) {
        AutomationRule { hit_count: Some(saturating_sum(hits_of(rule), n) as u64), ..rule }
    } else {
        rule
    }
}

/// How many of `ids` name some rule.
pub open spec fn known_hits(ids: Seq<String>, rules: Seq<AutomationRule>) -> nat
    decreases ids.len(),
{
    if ids.len() == 0 {
        0
    } else {
        known_hits(ids.drop_last(), rules) + if has_rule(rules, ids.last()@) {
            1nat
        } else {
            0nat
        }
    }
}

/// A pending count read as zero when absent.
pub open spec fn pending_of(pending: IdTable<u64>, id: Seq<char>) -> nat {
    match pending.get_spec(id) {
        Some(v) => v as nat,
        None => 0,
    }
}

fn find_rule(rules: &Vec<AutomationRule>, id: &str) -> (r: Option<usize>)
    ensures
        match r {
            Some(k) => first_with_id(rules@, id@, k as int),
            None => !has_rule(rules@, id@),
        },
{
    let key = chars_of(id);
    let mut k: usize = 0;
    while k < rules.len()
        invariant
            k <= rules@.len(),
            key@ == id@,
            forall|j: int| 0 <= j < k ==> #[trigger] rules@[j].id@ != id@,
        decreases rules.len() - k,
    {
        if crate::text::chars_eq(&chars_of(rules[k].id.as_str()), &key) {
            return Some(k);
        }
        k += 1;
    }
    None
}

proof fn lemma_first_unique(rules: Seq<AutomationRule>, id: Seq<char>, a: int, b: int)
    requires
        first_with_id(rules, id, a),
        first_with_id(rules, id, b),
    ensures
        a == b,
{
    if a < b {
        assert(rules[a].id@ != id);
    } else if b < a {
        assert(rules[b].id@ != id);
    }
}

/// Counts the hits `rule_ids` (one per match): the first rule of each id
/// gains its hits, saturating, and the unsaved hits of that id grow by as
/// many; ids that name no rule are ignored.
pub fn increment_hit_counts(rules: &mut Vec<AutomationRule>, pending: &mut IdTable<u64>, rule_ids: &[String])
    requires
        forall|k: Seq<char>| has_rule(old(rules)@, k) ==> #[trigger] pending_of(*old(pending), k) + occurrences(
            rule_ids@,
            k,
        ) <= u64::MAX,
    ensures
        final(rules)@.len() == old(rules)@.len(),
        forall|k: int| 0 <= k < old(rules)@.len() ==> #[trigger] final(rules)@[k] == hit_counted(old(rules)@, k, rule_ids@),
        forall|id: Seq<char>|
            has_rule(old(rules)@, id) && occurrences(rule_ids@, id) > 0 ==> #[trigger] final(pending).get_spec(id) == Some(
                (pending_of(*old(pending), id) + occurrences(rule_ids@, id)) as u64,
            ),
        forall|id: Seq<char>|
            !(has_rule(old(rules)@, id) && occurrences(rule_ids@, id) > 0) ==> #[trigger] final(pending).get_spec(id)
                == old(pending).get_spec(id),
        final(pending).total_spec() == old(pending).total_spec() + known_hits(rule_ids@, old(rules)@),
{
    let ghost orig = rules@;
    let ghost orig_pending = *pending;
    let mut i: usize = 0;
    while i < rule_ids.len()
        invariant
            i <= rule_ids@.len(),
            rules@.len() == orig.len(),
            forall|k: int| 0 <= k < orig.len() ==> #[trigger] rules@[k] == hit_counted(orig, k, rule_ids@.take(i as int)),
            forall|id: Seq<char>|
                has_rule(orig, id) && occurrences(rule_ids@.take(i as int), id) > 0 ==> #[trigger] pending.get_spec(id)
                    == Some((pending_of(orig_pending, id) + occurrences(rule_ids@.take(i as int), id)) as u64),
            forall|id: Seq<char>|
                !(has_rule(orig, id) && occurrences(rule_ids@.take(i as int), id) > 0) ==> #[trigger] pending.get_spec(id)
                    == orig_pending.get_spec(id),
            pending.total_spec() == orig_pending.total_spec() + known_hits(rule_ids@.take(i as int), orig),
            forall|k: Seq<char>| has_rule(orig, k) ==> #[trigger] pending_of(orig_pending, k) + occurrences(rule_ids@, k) <= u64::MAX,
        decreases rule_ids.len() - i,
    {
        let ghost before = rule_ids@.take(i as int);
        let ghost after = rule_ids@.take(i + 1);
        let ghost x = rule_ids@[i as int]@;
        assert(after.drop_last() =~= before);
        assert(after.last() == rule_ids@[i as int]);
        assert forall|id: Seq<char>| #[trigger] occurrences(after, id) == occurrences(before, id) + if id == x {
            1nat
        } else {
            0nat
        } by {}
        proof {
            lemma_occurrences_prefix(rule_ids@, i + 1, x);
        }
        match find_rule(rules, rule_ids[i].as_str()) {
            Some(k) => {
                proof {
                    assert(rules@[k as int].id@ == orig[k as int].id@);
                    assert forall|j: int| 0 <= j < k implies #[trigger] orig[j].id@ != x by {
                        assert(rules@[j].id@ == orig[j].id@);
                    }
                    assert(first_with_id(orig, x, k as int));
                    assert(has_rule(orig, x));
                }
                let mut rule = rules.remove(k);
                let current: u64 = match rule.hit_count {
                    Some(h) => h,
                    None => 0,
                };
                rule.hit_count = Some(current.saturating_add(1));
                rules.insert(k, rule);
                proof {
                    assert(pending_of(orig_pending, x) + occurrences(rule_ids@, x) <= u64::MAX);
                    let g = pending.get_spec(x);
                    assert(occurrences(after, x) <= occurrences(rule_ids@, x));
                }
                pending.add(rule_ids[i].as_str(), 1);
                proof {
                    assert forall|j: int| 0 <= j < orig.len() implies #[trigger] rules@[j] == hit_counted(orig, j, after) by {
                        if j == k {
                        } else {
                            if orig[j].id@ == x && first_with_id(orig, x, j) {
                                lemma_first_unique(orig, x, j, k as int);
                            }
                        }
                    }
                }
            },
            None => {
                proof {
                    assert forall|j: int| 0 <= j < orig.len() implies #[trigger] rules@[j] == hit_counted(orig, j, after) by {
                        assert(rules@[j].id@ == orig[j].id@);
                    }
                    assert(!has_rule(orig, x)) by {
                        if has_rule(orig, x) {
                            let j = choose|j: int| 0 <= j < orig.len() && #[trigger] orig[j].id@ == x;
                            assert(rules@[j].id@ == orig[j].id@);
                        }
                    }
                }
            },
        }
        i += 1;
    }
    assert(rule_ids@.take(rule_ids@.len() as int) =~= rule_ids@);
}

proof fn lemma_occurrences_prefix(ids: Seq<String>, n: int, id: Seq<char>)
    requires
        0 <= n <= ids.len(),
    ensures
        occurrences(ids.take(n), id) <= occurrences(ids, id),
    decreases ids.len() - n,
{
    if n < ids.len() {
        lemma_occurrences_prefix(ids, n + 1, id);
        assert(ids.take(n + 1).drop_last() =~= ids.take(n));
    } else {
        assert(ids.take(n) =~= ids);
    }
}

// ---------------------------------------------------------------------
// Saving and enabling rules
// ---------------------------------------------------------------------

/// Rule `rule` as saved, given the rules in use: when a rule in use has
/// the same id (the first one), the larger hit count is kept.
pub open spec fn with_kept_hits(rule: AutomationRule, current: Seq<AutomationRule>) -> AutomationRule {
    if exists|k: int| first_with_id(current, rule.id@, k) {
        let k = choose|k: int| first_with_id(current, rule.id@, k);
        if hits_of(current[k]) > hits_of(rule) {
            AutomationRule { hit_count: Some(hits_of(current[k]) as u64), ..rule }
        } else {
            rule
        }
    } else {
        rule
    }
}

/// Before edited rules replace the ones in use, keeps for each the hit
/// count counted meanwhile when that is larger.
pub fn keep_current_hit_counts(rules: &mut Vec<AutomationRule>, current: &Vec<AutomationRule>)
    ensures
        final(rules)@.len() == old(rules)@.len(),
        forall|k: int| 0 <= k < old(rules)@.len() ==> #[trigger] final(rules)@[k] == with_kept_hits(old(rules)@[k], current@),
{
    let ghost orig = rules@;
    let mut i: usize = 0;
    while i < rules.len()
        invariant
            i <= rules@.len(),
            rules@.len() == orig.len(),
            forall|k: int| 0 <= k < i ==> #[trigger] rules@[k] == with_kept_hits(orig[k], current@),
            forall|k: int| i <= k < orig.len() ==> #[trigger] rules@[k] == orig[k],
        decreases rules.len() - i,
    {
        match find_rule(current, rules[i].id.as_str()) {
            Some(k) => {
                proof {
                    assert(exists|j: int| first_with_id(current@, orig[i as int].id@, j));
                    let j = choose|j: int| first_with_id(current@, orig[i as int].id@, j);
                    lemma_first_unique(current@, orig[i as int].id@, j, k as int);
                }
                let theirs: u64 = match current[k].hit_count {
                    Some(h) => h,
                    None => 0,
                };
                let mine: u64 = match rules[i].hit_count {
                    Some(h) => h,
                    None => 0,
                };
                if theirs > mine {
                    let mut rule = rules.remove(i);
                    rule.hit_count = Some(theirs);
                    rules.insert(i, rule);
                }
            },
            None => {
                proof {
                    if exists|j: int| first_with_id(current@, orig[i as int].id@, j) {
                        let j = choose|j: int| first_with_id(current@, orig[i as int].id@, j);
                        assert(has_rule(current@, orig[i as int].id@));
                    }
                }
            },
        }
        i += 1;
    }
}

/// Saving keeps every hit count at least as large as the one in use and
/// as the one saved, for rules found in both.
pub proof fn lemma_saving_keeps_hit_counts(rule: AutomationRule, current: Seq<AutomationRule>, k: int)
    requires
        first_with_id(current, rule.id@, k),
    ensures
        hits_of(with_kept_hits(rule, current)) >= hits_of(current[k]),
        hits_of(with_kept_hits(rule, current)) >= hits_of(rule),
        with_kept_hits(rule, current).id == rule.id,
{
    let j = choose|j: int| first_with_id(current, rule.id@, j);
    lemma_first_unique(current, rule.id@, j, k);
}

/// The rule list after switching rule `rule_id` on or off, or why not.
pub open spec fn enabled_result(rules: Seq<AutomationRule>, rule_id: Seq<char>, enabled: bool) -> Option<Seq<char>> {
    if !has_rule(rules, rule_id) {
        Some("未找到规则"@)
    } else {
        let k = choose|k: int| first_with_id(rules, rule_id, k);
        if enabled && rule_error(rules[k]) is Some {
            Some("规则「"@ + rules[k].name@ + "」"@ + rule_error(rules[k])->Some_0)
        } else {
            None
        }
    }
}

/// A copy of `rules` with rule `rule_id` (the first of that id) switched
/// on or off. An unknown id is an error, and so is switching on a rule
/// that could not be saved (the message names the rule).
pub fn rules_with_rule_enabled(rules: &Vec<AutomationRule>, rule_id: &str, enabled: bool) -> (r: Result<Vec<AutomationRule>, String>)
    ensures
        match r {
            Err(e) => enabled_result(rules@, rule_id@, enabled) == Some(e@),
            Ok(next) => {
                &&& enabled_result(rules@, rule_id@, enabled) is None
                &&& next@.len() == rules@.len()
                &&& forall|j: int| 0 <= j < rules@.len() && !first_with_id(rules@, rule_id@, j) ==> same_rule(#[trigger] next@[j], rules@[j])
                &&& forall|j: int| #[trigger] first_with_id(rules@, rule_id@, j) ==> same_rule(next@[j], AutomationRule { enabled: Some(enabled), ..rules@[j] })
            },
        },
{
    let k = match find_rule(rules, rule_id) {
        Some(k) => k,
        None => return Err(string_of(&chars_of("未找到规则"))),
    };
    proof {
        let j = choose|j: int| first_with_id(rules@, rule_id@, j);
        lemma_first_unique(rules@, rule_id@, j, k as int);
    }
    if enabled {
        match validate_rule_for_save(&rules[k]) {
            Err(e) => {
                let mut m = chars_of("规则「");
                extend_str(&mut m, rules[k].name.as_str());
                extend_str(&mut m, "」");
                extend_str(&mut m, e.as_str());
                return Err(string_of(&m));
            },
            Ok(()) => {},
        }
    }
    let mut next: Vec<AutomationRule> = Vec::new();
    let mut i: usize = 0;
    while i < rules.len()
        invariant
            i <= rules@.len(),
            next@.len() == i,
            first_with_id(rules@, rule_id@, k as int),
            forall|j: int| 0 <= j < i && j != k ==> same_rule(#[trigger] next@[j], rules@[j]),
            k < i ==> same_rule(next@[k as int], AutomationRule { enabled: Some(enabled), ..rules@[k as int] }),
        decreases rules.len() - i,
    {
        let mut copy = rules[i].duplicate();
        if i == k {
            copy.enabled = Some(enabled);
        }
        next.push(copy);
        i += 1;
    }
    proof {
        assert forall|j: int| #[trigger] first_with_id(rules@, rule_id@, j) implies same_rule(next@[j], AutomationRule { enabled: Some(enabled), ..rules@[j] }) by {
            lemma_first_unique(rules@, rule_id@, j, k as int);
        }
        assert forall|j: int| 0 <= j < rules@.len() && !first_with_id(rules@, rule_id@, j) implies same_rule(#[trigger] next@[j], rules@[j]) by {
        }
    }
    Ok(next)
}

// ---------------------------------------------------------------------
// New notifications
// ---------------------------------------------------------------------

/// The notifications the automation looks at: those of visible
/// applications, except the ones it posted itself.
pub open spec fn visible_records_of(mode: AppFilterMode, apps: Seq<String>, records: Seq<NotificationRecord>) -> Seq<NotificationRecord>
    decreases records.len(),
{
    if records.len() == 0 {
        seq![]
    } else {
        let rest = visible_records_of(mode, apps, records.drop_last());
        let r = records.last();
        if visible_app(mode, apps, r.app_identifier@) && !internal_feedback(r) {
            rest.push(r)
        } else {
            rest
        }
    }
}

/// The notifications the automation looks at, in order.
pub fn visible_records(mode: AppFilterMode, apps: &[String], records: Vec<NotificationRecord>) -> (r: Vec<NotificationRecord>)
    ensures
        r@ == visible_records_of(mode, apps@, records@),
{
    let mut r: Vec<NotificationRecord> = Vec::new();
    let mut rest = records;
    let ghost all = rest@;
    let total = rest.len();
    let mut i: usize = 0;
    while rest.len() > 0
        invariant
            i <= all.len(),
            all.len() == total,
            rest@ == all.skip(i as int),
            r@ == visible_records_of(mode, apps@, all.take(i as int)),
        decreases rest.len(),
    {
        let record = rest.remove(0);
        assert(all.take(i + 1).drop_last() =~= all.take(i as int));
        assert(all.take(i + 1).last() == record);
        if is_visible_app(mode, apps, record.app_identifier.as_str()) && !is_internal_automation_feedback_record(&record) {
            r.push(record);
        }
        assert(rest@ =~= all.skip(i + 1));
        i += 1;
    }
    assert(all.take(i as int) =~= all);
    r
}

/// The largest id of `records`.
pub open spec fn max_id_of(records: Seq<NotificationRecord>) -> Option<i64>
    decreases records.len(),
{
    if records.len() == 0 {
        None
    } else {
        match max_id_of(records.drop_last()) {
            Some(m) => Some(if records.last().id > m {
                records.last().id
            } else {
                m
            }),
            None => Some(records.last().id),
        }
    }
}

/// The largest id of `records`.
pub fn largest_record_id(records: &Vec<NotificationRecord>) -> (r: Option<i64>)
    ensures
        r == max_id_of(records@),
{
    let mut best: Option<i64> = None;
    let mut i: usize = 0;
    while i < records.len()
        invariant
            i <= records@.len(),
            best == max_id_of(records@.take(i as int)),
        decreases records.len() - i,
    {
        assert(records@.take(i + 1).drop_last() =~= records@.take(i as int));
        let id = records[i].id;
        best = match best {
            Some(m) => Some(if id > m {
                id
            } else {
                m
            }),
            None => Some(id),
        };
        i += 1;
    }
    assert(records@.take(i as int) =~= records@);
    best
}

/// Something the automation reports: written to the log, sent to the
/// window as an event of `kind`, or both.
#[derive(Clone, Debug)]
pub struct AutomationNotice {
    pub logged: bool,
    pub kind: Option<String>,
    pub message: String,
}

/// A notice that is logged only.
pub open spec fn is_log(n: AutomationNotice, message: Seq<char>) -> bool {
    n.logged && n.kind is None && n.message@ == message
}

/// A notice that is logged and sent as an event of `kind`.
pub open spec fn is_logged_event(n: AutomationNotice, kind: Seq<char>, message: Seq<char>) -> bool {
    &&& n.logged
    &&& (n.kind matches Some(k) && k@ == kind)
    &&& n.message@ == message
}

fn notice(logged: bool, kind: Option<&str>, message: Vec<char>) -> (r: AutomationNotice)
    ensures
        r.logged == logged,
        match kind {
            Some(k) => r.kind matches Some(rk) && rk@ == k@,
            None => r.kind is None,
        },
        r.message@ == message@,
{
    AutomationNotice {
        logged,
        kind: match kind {
            Some(k) => Some(owned(k)),
            None => None,
        },
        message: string_of(&message),
    }
}

/// What became of one matched rule for one notification.
#[derive(Clone, Debug)]
pub enum MatchOutcome {
    /// The rule cannot run automatically, for this reason.
    Incomplete(String),
    /// The same actions for the same notification are running or waiting.
    InFlight,
    /// The rule is cooling down, for this many more seconds.
    CoolingDown(u64),
    /// The actions were queued.
    Queued(ActionQueueItem),
    /// The queue refused them, for this reason.
    QueueFailed(String),
}

/// What one matched rule does for one notification, and what is reported:
/// an incomplete rule is skipped, then one already in flight, then one
/// cooling down; otherwise it counts as a hit and its actions are queued,
/// which starts its cooldown.
pub fn dispatch_match(
    queue: &mut ActionQueue,
    cooldowns: &mut IdTable<u128>,
    rule: AutomationRule,
    record: &NotificationRecord,
    variables: StringMap,
    now: u128,
) -> (r: (MatchOutcome, Vec<AutomationNotice>))
    ensures
        ({
            let (outcome, notices) = r;
            let name = rule.name@;
            let title = record.title@;
            if automation_block_reason(rule) is Some {
                let reason = automation_block_reason(rule)->Some_0;
                &&& outcome matches MatchOutcome::Incomplete(m) && m@ == reason
                &&& notices@.len() == 1
                &&& is_log(notices@[0], "跳过不完整规则："@ + name + " / "@ + title + "（"@ + reason + "）"@)
                &&& final(queue).jobs() == old(queue).jobs() && final(queue).running_job() == old(queue).running_job()
                &&& forall|k: Seq<char>| #[trigger] final(cooldowns).get_spec(k) == old(cooldowns).get_spec(k)
            } else if in_flight(*old(queue), rule.id@, record.id) {
                &&& outcome is InFlight
                &&& notices@.len() == 1
                &&& is_log(notices@[0], "跳过已在执行队列中的通知动作："@ + name + " / "@ + title)
                &&& final(queue).jobs() == old(queue).jobs() && final(queue).running_job() == old(queue).running_job()
                &&& forall|k: Seq<char>| #[trigger] final(cooldowns).get_spec(k) == old(cooldowns).get_spec(k)
            } else if cooldown_left(cooldown_of(rule), elapsed_of(*old(cooldowns), rule.id@, now)) is Some {
                let left = cooldown_left(cooldown_of(rule), elapsed_of(*old(cooldowns), rule.id@, now))->Some_0;
                &&& outcome matches MatchOutcome::CoolingDown(s) && s == left
                &&& notices@.len() == 1
                &&& is_log(notices@[0], "规则冷却中，跳过动作："@ + name + "（剩余 "@ + spec_decimal(left) + " 秒）"@)
                &&& final(queue).jobs() == old(queue).jobs() && final(queue).running_job() == old(queue).running_job()
                &&& forall|k: Seq<char>| #[trigger] final(cooldowns).get_spec(k) == old(cooldowns).get_spec(k)
            } else {
                &&& notices@.len() == 2
                &&& is_logged_event(notices@[0], "match"@, "规则命中："@ + name + " / "@ + title)
                &&& final(queue).running_job() == old(queue).running_job()
                &&& if old(queue).jobs().len() >= MAX_ACTION_QUEUE_ENTRIES {
                    &&& outcome matches MatchOutcome::QueueFailed(m) && m@ == queue_full_message()
                    &&& is_logged_event(notices@[1], "error"@, "动作入队失败："@ + name + " / "@ + title + "："@ + queue_full_message())
                    &&& final(queue).jobs() == old(queue).jobs()
                    &&& forall|k: Seq<char>| #[trigger] final(cooldowns).get_spec(k) == old(cooldowns).get_spec(k)
                } else {
                    &&& outcome matches MatchOutcome::Queued(item)
                    &&& final(queue).jobs().len() == old(queue).jobs().len() + 1
                    &&& final(queue).jobs().drop_last() == old(queue).jobs()
                    &&& final(queue).jobs().last().rule == rule
                    &&& final(queue).jobs().last().record == *record
                    &&& final(queue).jobs().last().variables == variables
                    &&& summarizes(item, final(queue).jobs().last())
                    &&& is_logged_event(notices@[1], "queue"@, "动作已入队："@ + name + " / "@ + title + "（"@ + spec_decimal(
                        action_count_of(rule),
                    ) + " 个动作）"@)
                    &&& (cooldown_of(rule) > 0 ==> final(cooldowns).get_spec(rule.id@) == Some(now))
                    &&& forall|k: Seq<char>|
                        (k != rule.id@ || cooldown_of(rule) == 0) ==> #[trigger] final(cooldowns).get_spec(k) == old(cooldowns).get_spec(k)
                }
            }
        }),
{
    let mut notices: Vec<AutomationNotice> = Vec::new();
    let name = chars_of(rule.name.as_str());
    let title = chars_of(record.title.as_str());
    match rule_automation_block_reason(&rule) {
        Some(reason) => {
            let mut m = chars_of("跳过不完整规则：");
            extend_chars(&mut m, &name);
            extend_str(&mut m, " / ");
            extend_chars(&mut m, &title);
            extend_str(&mut m, "（");
            extend_str(&mut m, reason.as_str());
            extend_str(&mut m, "）");
            notices.push(notice(true, None, m));
            return (MatchOutcome::Incomplete(reason), notices);
        },
        None => {},
    }
    if queue.is_in_flight(rule.id.as_str(), record.id) {
        let mut m = chars_of("跳过已在执行队列中的通知动作：");
        extend_chars(&mut m, &name);
        extend_str(&mut m, " / ");
        extend_chars(&mut m, &title);
        notices.push(notice(true, None, m));
        return (MatchOutcome::InFlight, notices);
    }
    match cooldown_remaining_seconds(cooldowns, &rule, now) {
        Some(left) => {
            let mut m = chars_of("规则冷却中，跳过动作：");
            extend_chars(&mut m, &name);
            extend_str(&mut m, "（剩余 ");
            let d = decimal(left);
            extend_chars(&mut m, &d);
            extend_str(&mut m, " 秒）");
            notices.push(notice(true, None, m));
            return (MatchOutcome::CoolingDown(left), notices);
        },
        None => {},
    }
    let mut hit = chars_of("规则命中：");
    extend_chars(&mut hit, &name);
    extend_str(&mut hit, " / ");
    extend_chars(&mut hit, &title);
    notices.push(notice(true, Some("match"), hit));
    let cooldown_rule_id = rule.id.clone();
    let cooldown_seconds = rule.cooldown_seconds;
    let ghost rule_copy = rule;
    match queue.enqueue_action_job(rule, record.duplicate(), variables) {
        Ok(item) => {
            match cooldown_seconds {
                Some(s) => if s != 0 {
                    cooldowns.set(cooldown_rule_id.as_str(), now);
                },
                None => {},
            }
            let mut m = chars_of("动作已入队：");
            extend_str(&mut m, item.rule_name.as_str());
            extend_str(&mut m, " / ");
            extend_str(&mut m, item.notification_title.as_str());
            extend_str(&mut m, "（");
            let d = decimal(item.action_count as u64);
            extend_chars(&mut m, &d);
            extend_str(&mut m, " 个动作）");
            notices.push(notice(true, Some("queue"), m));
            (MatchOutcome::Queued(item), notices)
        },
        Err(e) => {
            let mut m = chars_of("动作入队失败：");
            extend_chars(&mut m, &name);
            extend_str(&mut m, " / ");
            extend_chars(&mut m, &title);
            extend_str(&mut m, "：");
            extend_str(&mut m, e.as_str());
            notices.push(notice(true, Some("error"), m));
            (MatchOutcome::QueueFailed(e), notices)
        },
    }
}

/// Every rule that matched is one of the rules.
proof fn lemma_matched_from_rules(rules: Seq<AutomationRule>, record: NotificationRecord, minute: Option<Seq<char>>, i: int)
    requires
        0 <= i < matched_rules(rules, record, minute).len(),
    ensures
        exists|k: int| 0 <= k < rules.len() && #[trigger] rules[k] == matched_rules(rules, record, minute)[i],
    decreases rules.len(),
{
    let prev = matched_rules(rules.drop_last(), record, minute);
    if i < prev.len() {
        lemma_matched_from_rules(rules.drop_last(), record, minute, i);
        let k = choose|k: int| 0 <= k < rules.drop_last().len() && #[trigger] rules.drop_last()[k] == prev[i];
        assert(rules[k] == rules.drop_last()[k]);
    } else {
        assert(rules[rules.len() - 1] == matched_rules(rules, record, minute)[i]);
    }
}

/// What handling a batch of new notifications leads to.
#[derive(Debug)]
pub struct RecordsOutcome {
    /// The largest id of the batch, the new watermark.
    pub last_record_id: Option<i64>,
    /// What was reported, in order.
    pub notices: Vec<AutomationNotice>,
    /// The ids of the rules hit, one per hit.
    pub hit_rule_ids: Vec<String>,
}

/// The matched rules of a batch, each with its notification, in the order
/// they are handled: notification by notification, rule by rule, each
/// notification matched at its minute.
pub open spec fn batch_candidates(
    rules: Seq<AutomationRule>,
    visible: Seq<NotificationRecord>,
    minutes: Seq<Option<Seq<char>>>,
) -> Seq<(AutomationRule, NotificationRecord)>
    decreases visible.len(),
{
    if visible.len() == 0 || minutes.len() != visible.len() {
        seq![]
    } else {
        batch_candidates(rules, visible.drop_last(), minutes.drop_last()) + matched_rules(
            rules,
            visible.last(),
            minutes.last(),
        ).map_values(|r: AutomationRule| (r, visible.last()))
    }
}

/// Where a batch stands: the rule and notification ids of the pending
/// jobs, when each rule last ran, the matches queued so far and the ids
/// of the rules hit.
pub struct BatchState {
    pub keys: Seq<(Seq<char>, i64)>,
    pub cooldowns: spec_fn(Seq<char>) -> Option<u128>,
    pub queued: Seq<(AutomationRule, NotificationRecord)>,
    pub hits: Seq<Seq<char>>,
}

/// The rule and notification ids of jobs.
pub open spec fn job_keys(jobs: Seq<ActionJob>) -> Seq<(Seq<char>, i64)> {
    jobs.map_values(|j: ActionJob| (j.rule.id@, j.record.id))
}

/// A job of the rule for the notification is pending or running.
pub open spec fn keys_in_flight(keys: Seq<(Seq<char>, i64)>, running: Option<ActionQueueItem>, rule_id: Seq<char>, record_id: i64) -> bool {
    ||| (running matches Some(item) && item.rule_id@ == rule_id && item.notification_id == record_id)
    ||| exists|j: int| 0 <= j < keys.len() && #[trigger] keys[j] == (rule_id, record_id)
}

/// One matched rule handled: skipped when incomplete, in flight or
/// cooling down; else a hit, queued (starting its cooldown) unless the
/// queue is full.
pub open spec fn batch_step(s: BatchState, c: (AutomationRule, NotificationRecord), running: Option<ActionQueueItem>, now: u128) -> BatchState {
    let rule = c.0;
    let record = c.1;
    let elapsed = match (s.cooldowns)(rule.id@) {
        Some(last) => Some(elapsed_since(now, last)),
        None => None,
    };
    if automation_block_reason(rule) is Some || keys_in_flight(s.keys, running, rule.id@, record.id)
        || cooldown_left(cooldown_of(rule), elapsed) is Some {
        s
    } else if s.keys.len() >= MAX_ACTION_QUEUE_ENTRIES {
        BatchState { hits: s.hits.push(rule.id@), ..s }
    } else {
        BatchState {
            keys: s.keys.push((rule.id@, record.id)),
            cooldowns: if cooldown_of(rule) > 0 {
                |k: Seq<char>| if k == rule.id@ { Some(now) } else { (s.cooldowns)(k) }
            } else {
                s.cooldowns
            },
            queued: s.queued.push(c),
            hits: s.hits.push(rule.id@),
        }
    }
}

/// The matched rules `cands` handled in order from `s`.
pub open spec fn batch_run(cands: Seq<(AutomationRule, NotificationRecord)>, s: BatchState, running: Option<ActionQueueItem>, now: u128) -> BatchState
    decreases cands.len(),
{
    if cands.len() == 0 {
        s
    } else {
        batch_step(batch_run(cands.drop_last(), s, running, now), cands.last(), running, now)
    }
}

/// The state a batch starts from.
pub open spec fn batch_start(queue: ActionQueue, cooldowns: IdTable<u128>) -> BatchState {
    BatchState {
        keys: job_keys(queue.jobs()),
        cooldowns: |k: Seq<char>| cooldowns.get_spec(k),
        queued: seq![],
        hits: seq![],
    }
}

/// The queue and the cooldowns are where `st` says, the jobs queued after
/// `start` being those of `st.queued`, each with the variables its
/// notification gives for its rule.
pub open spec fn batch_reached(
    queue: ActionQueue,
    cooldowns: IdTable<u128>,
    hits: Seq<String>,
    start: Seq<ActionJob>,
    st: BatchState,
) -> bool {
    &&& queue.jobs().len() == start.len() + st.queued.len()
    &&& queue.jobs().take(start.len() as int) == start
    &&& job_keys(queue.jobs()) == st.keys
    &&& forall|i: int| 0 <= i < st.queued.len() ==> {
        let job = #[trigger] queue.jobs()[start.len() + i];
        &&& same_rule(job.rule, st.queued[i].0)
        &&& job.record == st.queued[i].1
        &&& forall|k: Seq<char>| #[trigger] job.variables.get_spec(k) == lookup_last(
            variable_pairs(job.record, extractions_of(job.rule)),
            k,
        )
    }
    &&& forall|k: Seq<char>| #[trigger] cooldowns.get_spec(k) == (st.cooldowns)(k)
    &&& hits.map_values(|h: String| h@) == st.hits
}

proof fn lemma_same_rule_checks(a: AutomationRule, b: AutomationRule)
    requires
        same_rule(a, b),
    ensures
        automation_block_reason(a) == automation_block_reason(b),
        cooldown_of(a) == cooldown_of(b),
        a.id@ == b.id@,
        action_count_of(a) == action_count_of(b),
{
    match (a.actions, b.actions) {
        (Some(x), Some(y)) => {
            assert(action_views(x@).len() == action_views(y@).len());
        },
        _ => {},
    }
}

proof fn lemma_keys_in_flight(queue: ActionQueue, rule_id: Seq<char>, record_id: i64)
    ensures
        in_flight(queue, rule_id, record_id) <==> keys_in_flight(job_keys(queue.jobs()), queue.running_job(), rule_id, record_id),
{
    let keys = job_keys(queue.jobs());
    if exists|j: int| 0 <= j < queue.jobs().len() && #[trigger] queue.jobs()[j].rule.id@ == rule_id && queue.jobs()[j].record.id == record_id {
        let j = choose|j: int| 0 <= j < queue.jobs().len() && #[trigger] queue.jobs()[j].rule.id@ == rule_id && queue.jobs()[j].record.id == record_id;
        assert(keys[j] == (rule_id, record_id));
    }
    if exists|j: int| 0 <= j < keys.len() && #[trigger] keys[j] == (rule_id, record_id) {
        let j = choose|j: int| 0 <= j < keys.len() && #[trigger] keys[j] == (rule_id, record_id);
        assert(queue.jobs()[j].rule.id@ == rule_id);
    }
}

/// The candidates of one more notification follow those of the earlier ones.
proof fn lemma_batch_candidates_step(
    rules: Seq<AutomationRule>,
    visible: Seq<NotificationRecord>,
    minutes: Seq<Option<Seq<char>>>,
    i: int,
    m: Option<Seq<char>>,
)
    requires
        0 <= i < visible.len(),
        minutes.len() == i,
    ensures
        batch_candidates(rules, visible.take(i + 1), minutes.push(m)) == batch_candidates(rules, visible.take(i), minutes)
            + matched_rules(rules, visible[i], m).map_values(|r: AutomationRule| (r, visible[i])),
{
    assert(visible.take(i + 1).drop_last() =~= visible.take(i));
    assert(minutes.push(m).drop_last() =~= minutes);
}

/// How long ago rule `id` last ran, by the times in `cooldowns`.
pub open spec fn elapsed_in(cooldowns: spec_fn(Seq<char>) -> Option<u128>, id: Seq<char>, now: u128) -> Option<nat> {
    match cooldowns(id) {
        Some(last) => Some(elapsed_since(now, last)),
        None => None,
    }
}

/// Matches `queued` may be queued together from `s`: each is complete, had
/// no job pending or running for its notification, is not queued twice
/// for the same notification, and (with a cooldown) was not cooling down
/// and is queued once.
pub open spec fn eligible_queue(queued: Seq<(AutomationRule, NotificationRecord)>, s: BatchState, running: Option<ActionQueueItem>, now: u128) -> bool {
    forall|i: int| #![trigger queued[i]] 0 <= i < queued.len() ==> {
        let rule = queued[i].0;
        let record = queued[i].1;
        &&& automation_block_reason(rule) is None
        &&& !keys_in_flight(s.keys, running, rule.id@, record.id)
        &&& forall|j: int| 0 <= j < i ==> (#[trigger] queued[j].0.id@, queued[j].1.id) != (rule.id@, record.id)
        &&& cooldown_of(rule) > 0 ==> {
            &&& cooldown_left(cooldown_of(rule), elapsed_in(s.cooldowns, rule.id@, now)) is None
            &&& forall|j: int| 0 <= j < i ==> !(#[trigger] queued[j].0.id@ == rule.id@ && cooldown_of(queued[j].0) > 0)
        }
    }
}

/// What a run of matches does to the pending jobs and the cooldowns, and
/// that what it queues is eligible and among the matches.
proof fn lemma_batch_run_shape(cands: Seq<(AutomationRule, NotificationRecord)>, s: BatchState, running: Option<ActionQueueItem>, now: u128)
    requires
        s.queued.len() == 0,
    ensures
        ({
            let run = batch_run(cands, s, running, now);
            &&& run.keys == s.keys + run.queued.map_values(|q: (AutomationRule, NotificationRecord)| (q.0.id@, q.1.id))
            &&& forall|k: Seq<char>| #[trigger] (run.cooldowns)(k) == if exists|j: int| 0 <= j < run.queued.len() && #[trigger] run.queued[j].0.id@ == k && cooldown_of(run.queued[j].0) > 0 {
                Some(now)
            } else {
                (s.cooldowns)(k)
            }
            &&& forall|i: int| 0 <= i < run.queued.len() ==> cands.contains(#[trigger] run.queued[i])
            &&& eligible_queue(run.queued, s, running, now)
        }),
    decreases cands.len(),
{
    if cands.len() > 0 {
        lemma_batch_run_shape(cands.drop_last(), s, running, now);
        let prev = batch_run(cands.drop_last(), s, running, now);
        let run = batch_run(cands, s, running, now);
        let c = cands.last();
        assert forall|i: int| 0 <= i < prev.queued.len() implies cands.contains(#[trigger] prev.queued[i]) by {
            let j = choose|j: int| 0 <= j < cands.drop_last().len() && cands.drop_last()[j] == prev.queued[i];
            assert(cands[j] == prev.queued[i]);
        }
        if run.queued.len() > prev.queued.len() {
            assert(run.queued == prev.queued.push(c));
            let rule = c.0;
            let record = c.1;
            let pk = prev.queued.map_values(|q: (AutomationRule, NotificationRecord)| (q.0.id@, q.1.id));
            assert(!keys_in_flight(prev.keys, running, rule.id@, record.id));
            assert(!keys_in_flight(s.keys, running, rule.id@, record.id)) by {
                if exists|j: int| 0 <= j < s.keys.len() && #[trigger] s.keys[j] == (rule.id@, record.id) {
                    let j = choose|j: int| 0 <= j < s.keys.len() && #[trigger] s.keys[j] == (rule.id@, record.id);
                    assert(prev.keys[j] == s.keys[j]);
                }
            }
            assert forall|j: int| 0 <= j < prev.queued.len() implies (#[trigger] prev.queued[j].0.id@, prev.queued[j].1.id) != (rule.id@, record.id) by {
                assert(prev.keys[s.keys.len() + j] == pk[j]);
            }
            if cooldown_of(rule) > 0 {
                assert forall|j: int| 0 <= j < prev.queued.len() implies !(#[trigger] prev.queued[j].0.id@ == rule.id@ && cooldown_of(prev.queued[j].0) > 0) by {
                    if prev.queued[j].0.id@ == rule.id@ && cooldown_of(prev.queued[j].0) > 0 {
                        assert((prev.cooldowns)(rule.id@) == Some(now));
                        assert(elapsed_since(now, now) == 0);
                        assert(0 < cooldown_of(rule) * nanos_per_second()) by (nonlinear_arith)
                            requires cooldown_of(rule) > 0, nanos_per_second() == 1_000_000_000;
                    }
                }
                assert((prev.cooldowns)(rule.id@) == (s.cooldowns)(rule.id@));
            }
            assert(eligible_queue(run.queued, s, running, now)) by {
                assert forall|i: int| 0 <= i < run.queued.len() - 1 implies #[trigger] run.queued[i] == prev.queued[i] by {}
            }
            assert(cands[cands.len() - 1] == c);
            assert(run.keys =~= s.keys + run.queued.map_values(|q: (AutomationRule, NotificationRecord)| (q.0.id@, q.1.id)));
            assert forall|k: Seq<char>| #[trigger] (run.cooldowns)(k) == if exists|j: int| 0 <= j < run.queued.len() && #[trigger] run.queued[j].0.id@ == k && cooldown_of(run.queued[j].0) > 0 {
                Some(now)
            } else {
                (s.cooldowns)(k)
            } by {
                let last = run.queued.len() - 1;
                if exists|j: int| 0 <= j < prev.queued.len() && #[trigger] prev.queued[j].0.id@ == k && cooldown_of(prev.queued[j].0) > 0 {
                    let j = choose|j: int| 0 <= j < prev.queued.len() && #[trigger] prev.queued[j].0.id@ == k && cooldown_of(prev.queued[j].0) > 0;
                    assert(run.queued[j] == prev.queued[j]);
                }
                if exists|j: int| 0 <= j < run.queued.len() && #[trigger] run.queued[j].0.id@ == k && cooldown_of(run.queued[j].0) > 0 {
                    let j = choose|j: int| 0 <= j < run.queued.len() && #[trigger] run.queued[j].0.id@ == k && cooldown_of(run.queued[j].0) > 0;
                    if j < last {
                        assert(prev.queued[j] == run.queued[j]);
                    }
                }
            }
        } else {
            assert(run.queued == prev.queued);
            assert(run.keys == prev.keys);
            assert(run.cooldowns == prev.cooldowns);
        }
    } else {
        assert(s.keys + s.queued.map_values(|q: (AutomationRule, NotificationRecord)| (q.0.id@, q.1.id)) =~= s.keys) by {
            assert(batch_run(cands, s, running, now) == s);
        }
    }
}

proof fn lemma_matched_rules_apply(rules: Seq<AutomationRule>, record: NotificationRecord, minute: Option<Seq<char>>, rule: AutomationRule)
    requires
        matched_rules(rules, record, minute).contains(rule),
    ensures
        rules.contains(rule),
        rule_applies(rule, record, minute),
    decreases rules.len(),
{
    let prev = matched_rules(rules.drop_last(), record, minute);
    let m = matched_rules(rules, record, minute);
    let i = choose|i: int| 0 <= i < m.len() && m[i] == rule;
    if i < prev.len() {
        assert(prev[i] == rule);
        lemma_matched_rules_apply(rules.drop_last(), record, minute, rule);
        let k = choose|k: int| 0 <= k < rules.drop_last().len() && rules.drop_last()[k] == rule;
        assert(rules[k] == rule);
    } else {
        assert(rules[rules.len() - 1] == rule);
    }
}

proof fn lemma_visible_records_member(mode: AppFilterMode, apps: Seq<String>, records: Seq<NotificationRecord>, r: NotificationRecord)
    requires
        visible_records_of(mode, apps, records).contains(r),
    ensures
        records.contains(r),
        visible_app(mode, apps, r.app_identifier@),
        !internal_feedback(r),
    decreases records.len(),
{
    let prev = visible_records_of(mode, apps, records.drop_last());
    let v = visible_records_of(mode, apps, records);
    let i = choose|i: int| 0 <= i < v.len() && v[i] == r;
    if i < prev.len() {
        assert(prev[i] == r);
        lemma_visible_records_member(mode, apps, records.drop_last(), r);
        let k = choose|k: int| 0 <= k < records.drop_last().len() && records.drop_last()[k] == r;
        assert(records[k] == r);
    } else {
        assert(records[records.len() - 1] == r);
    }
}

proof fn lemma_batch_candidates_member(
    rules: Seq<AutomationRule>,
    visible: Seq<NotificationRecord>,
    minutes: Seq<Option<Seq<char>>>,
    c: (AutomationRule, NotificationRecord),
)
    requires
        batch_candidates(rules, visible, minutes).contains(c),
    ensures
        visible.contains(c.1),
        exists|m: Option<Seq<char>>| #[trigger] matched_rules(rules, c.1, m).contains(c.0),
    decreases visible.len(),
{
    let cs = batch_candidates(rules, visible, minutes);
    let prev = batch_candidates(rules, visible.drop_last(), minutes.drop_last());
    let tail = matched_rules(rules, visible.last(), minutes.last()).map_values(|r: AutomationRule| (r, visible.last()));
    assert(cs == prev + tail);
    let i = choose|i: int| 0 <= i < cs.len() && cs[i] == c;
    if i < prev.len() {
        assert(prev[i] == c);
        lemma_batch_candidates_member(rules, visible.drop_last(), minutes.drop_last(), c);
        let k = choose|k: int| 0 <= k < visible.drop_last().len() && visible.drop_last()[k] == c.1;
        assert(visible[k] == c.1);
    } else {
        let q = i - prev.len();
        assert(tail[q] == c);
        let mr = matched_rules(rules, visible.last(), minutes.last());
        assert(mr[q] == c.0);
        assert(mr.contains(c.0));
        assert(visible[visible.len() - 1] == c.1);
    }
}

/// The jobs a batch queues are owed: each is for a notification of the
/// batch from a visible application and not one of the automation's own
/// results, for a rule that matched it (enabled, naming its application,
/// its conditions holding) and is complete (trigger application,
/// conditions and actions), which had no job pending or running for that
/// notification and, having a cooldown, was not cooling down; no rule is
/// queued twice for one notification, and a rule with a cooldown is queued
/// at most once.
pub proof fn lemma_batch_queues_only_eligible(
    rules: Seq<AutomationRule>,
    mode: AppFilterMode,
    apps: Seq<String>,
    records: Seq<NotificationRecord>,
    minutes: Seq<Option<Seq<char>>>,
    queue: ActionQueue,
    cooldowns: IdTable<u128>,
    now: u128,
)
    ensures
        ({
            let run = batch_run(
                batch_candidates(rules, visible_records_of(mode, apps, records), minutes),
                batch_start(queue, cooldowns),
                queue.running_job(),
                now,
            );
            &&& forall|i: int| #![trigger run.queued[i]] 0 <= i < run.queued.len() ==> {
                let rule = run.queued[i].0;
                let record = run.queued[i].1;
                &&& records.contains(record)
                &&& visible_app(mode, apps, record.app_identifier@)
                &&& !internal_feedback(record)
                &&& rules.contains(rule)
                &&& exists|m: Option<Seq<char>>| #[trigger] rule_applies(rule, record, m)
                &&& automation_block_reason(rule) is None
                &&& !in_flight(queue, rule.id@, record.id)
                &&& (cooldown_of(rule) > 0 ==> cooldown_left(cooldown_of(rule), elapsed_of(cooldowns, rule.id@, now)) is None)
            }
            &&& eligible_queue(run.queued, batch_start(queue, cooldowns), queue.running_job(), now)
        }),
{
    let visible = visible_records_of(mode, apps, records);
    let cands = batch_candidates(rules, visible, minutes);
    let s0 = batch_start(queue, cooldowns);
    lemma_batch_run_shape(cands, s0, queue.running_job(), now);
    let run = batch_run(cands, s0, queue.running_job(), now);
    assert forall|i: int| #![trigger run.queued[i]] 0 <= i < run.queued.len() implies {
        let rule = run.queued[i].0;
        let record = run.queued[i].1;
        &&& records.contains(record)
        &&& visible_app(mode, apps, record.app_identifier@)
        &&& !internal_feedback(record)
        &&& rules.contains(rule)
        &&& exists|m: Option<Seq<char>>| #[trigger] rule_applies(rule, record, m)
        &&& automation_block_reason(rule) is None
        &&& !in_flight(queue, rule.id@, record.id)
        &&& (cooldown_of(rule) > 0 ==> cooldown_left(cooldown_of(rule), elapsed_of(cooldowns, rule.id@, now)) is None)
    } by {
        let c = run.queued[i];
        assert(cands.contains(c));
        lemma_batch_candidates_member(rules, visible, minutes, c);
        lemma_visible_records_member(mode, apps, records, c.1);
        let m = choose|m: Option<Seq<char>>| #[trigger] matched_rules(rules, c.1, m).contains(c.0);
        lemma_matched_rules_apply(rules, c.1, m, c.0);
        lemma_keys_in_flight(queue, c.0.id@, c.1.id);
        assert(elapsed_in(s0.cooldowns, c.0.id@, now) == elapsed_of(cooldowns, c.0.id@, now));
    }
}

/// Handles a batch of new notifications: those of visible applications
/// (not the automation's own) are matched against `rules`, and each
/// matched rule is dispatched; `now` is a monotonic clock in nanoseconds.
/// The jobs queued, the cooldowns started and the rules hit are those of
/// the matched rules handled one by one in order (`batch_run`), each
/// notification matched at the local minute it was read at.
pub fn process_new_records(
    queue: &mut ActionQueue,
    cooldowns: &mut IdTable<u128>,
    rules: &Vec<AutomationRule>,
    filter_mode: AppFilterMode,
    filter_apps: &[String],
    records: Vec<NotificationRecord>,
    now: u128,
) -> (r: RecordsOutcome)
    ensures
        r.last_record_id == max_id_of(records@),
        visible_records_of(filter_mode, filter_apps@, records@).len() == 0 ==> {
            &&& r.notices@.len() == 0
            &&& r.hit_rule_ids@.len() == 0
            &&& final(queue).jobs() == old(queue).jobs()
            &&& forall|k: Seq<char>| #[trigger] final(cooldowns).get_spec(k) == old(cooldowns).get_spec(k)
        },
        visible_records_of(filter_mode, filter_apps@, records@).len() > 0 ==> {
            &&& r.notices@.len() >= 1
            &&& !r.notices@[0].logged
            &&& r.notices@[0].kind matches Some(k) && k@ == "records"@
            &&& r.notices@[0].message@ == "发现新通知："@ + spec_decimal(visible_records_of(filter_mode, filter_apps@, records@).len()) + " 条"@
        },
        old(queue).jobs().is_prefix_of(final(queue).jobs()),
        final(queue).running_job() == old(queue).running_job(),
        forall|i: int| 0 <= i < r.hit_rule_ids@.len() ==> has_rule(rules@, #[trigger] r.hit_rule_ids@[i]@),
        exists|minutes: Seq<Option<Seq<char>>>|
            #![trigger batch_candidates(rules@, visible_records_of(filter_mode, filter_apps@, records@), minutes)]
        {
            let visible = visible_records_of(filter_mode, filter_apps@, records@);
            &&& minutes.len() == visible.len()
            &&& (!crate::rules::any_trigger_time(rules@) ==> forall|i: int| 0 <= i < minutes.len() ==> #[trigger] minutes[i] is None)
            &&& (crate::rules::any_trigger_time(rules@) ==> forall|i: int| 0 <= i < minutes.len() ==> (#[trigger] minutes[i] matches Some(m) && is_clock_minute(m)))
            &&& batch_reached(
                *final(queue),
                *final(cooldowns),
                r.hit_rule_ids@,
                old(queue).jobs(),
                batch_run(
                    batch_candidates(rules@, visible, minutes),
                    batch_start(*old(queue), *old(cooldowns)),
                    old(queue).running_job(),
                    now,
                ),
            )
        },
{
    let last_record_id = largest_record_id(&records);
    let visible = visible_records(filter_mode, filter_apps, records);
    let mut notices: Vec<AutomationNotice> = Vec::new();
    let mut hits: Vec<String> = Vec::new();
    let ghost start_jobs = queue.jobs();
    let ghost start_running = queue.running_job();
    let ghost s0 = batch_start(*queue, *cooldowns);
    proof {
        assert(queue.jobs().take(start_jobs.len() as int) =~= start_jobs);
        assert(hits@.map_values(|h: String| h@) =~= s0.hits);
    }
    if visible.len() == 0 {
        proof {
            let minutes: Seq<Option<Seq<char>>> = seq![];
            assert(batch_candidates(rules@, visible@, minutes) =~= Seq::<(AutomationRule, NotificationRecord)>::empty());
            assert(batch_reached(*queue, *cooldowns, hits@, start_jobs, batch_run(batch_candidates(rules@, visible@, minutes), s0, start_running, now)));
        }
        return RecordsOutcome { last_record_id, notices, hit_rule_ids: hits };
    }
    let mut found = chars_of("发现新通知：");
    let d = decimal(visible.len() as u64);
    extend_chars(&mut found, &d);
    extend_str(&mut found, " 条");
    notices.push(notice(false, Some("records"), found));
    let ghost mut minutes: Seq<Option<Seq<char>>> = seq![];
    let ghost mut cands: Seq<(AutomationRule, NotificationRecord)> = seq![];
    let ghost mut st: BatchState = s0;
    proof {
        assert(batch_candidates(rules@, visible@.take(0), minutes) =~= Seq::<(AutomationRule, NotificationRecord)>::empty());
    }
    let mut i: usize = 0;
    while i < visible.len()
        invariant
            i <= visible@.len(),
            notices@.len() >= 1,
            !notices@[0].logged,
            notices@[0].kind matches Some(k) && k@ == "records"@,
            notices@[0].message@ == "发现新通知："@ + spec_decimal(visible@.len() as nat) + " 条"@,
            start_jobs.is_prefix_of(queue.jobs()),
            queue.running_job() == start_running,
            forall|h: int| 0 <= h < hits@.len() ==> has_rule(rules@, #[trigger] hits@[h]@),
            minutes.len() == i,
            !crate::rules::any_trigger_time(rules@) ==> forall|q: int| 0 <= q < minutes.len() ==> #[trigger] minutes[q] is None,
            crate::rules::any_trigger_time(rules@) ==> forall|q: int| 0 <= q < minutes.len() ==> (#[trigger] minutes[q] matches Some(m) && is_clock_minute(m)),
            cands == batch_candidates(rules@, visible@.take(i as int), minutes),
            st == batch_run(cands, s0, start_running, now),
            batch_reached(*queue, *cooldowns, hits@, start_jobs, st),
        decreases visible.len() - i,
    {
        let record = &visible[i];
        let mut matches = matching_rules(rules, record);
        let ghost all_matches = matches@;
        let ghost minute: Option<Seq<char>> = if !crate::rules::any_trigger_time(rules@) {
            None
        } else {
            Some(choose|m: Seq<char>| is_clock_minute(m) && is_matching_result(all_matches, rules@, *record, Some(m)))
        };
        let ghost expected = matched_rules(rules@, *record, minute);
        let ghost cands_before = cands;
        let match_count = matches.len();
        let mut j: usize = 0;
        while matches.len() > 0
            invariant
                all_matches.len() == match_count,
                is_matching_result(all_matches, rules@, *record, minute),
                expected == matched_rules(rules@, *record, minute),
                *record == visible@[i as int],
                i < visible@.len(),
                j <= all_matches.len(),
                matches@ == all_matches.skip(j as int),
                notices@.len() >= 1,
                !notices@[0].logged,
                notices@[0].kind matches Some(k) && k@ == "records"@,
                notices@[0].message@ == "发现新通知："@ + spec_decimal(visible@.len() as nat) + " 条"@,
                start_jobs.is_prefix_of(queue.jobs()),
                queue.running_job() == start_running,
                forall|h: int| 0 <= h < hits@.len() ==> has_rule(rules@, #[trigger] hits@[h]@),
                cands == cands_before + expected.take(j as int).map_values(|r: AutomationRule| (r, *record)),
                st == batch_run(cands, s0, start_running, now),
                batch_reached(*queue, *cooldowns, hits@, start_jobs, st),
            decreases matches.len(),
        {
            let (rule, variables) = matches.remove(0);
            assert(rule == all_matches[j as int].0);
            assert(variables == all_matches[j as int].1);
            proof {
                assert(same_rule(all_matches[j as int].0, expected[j as int]));
                lemma_matched_from_rules(rules@, *record, minute, j as int);
                let k = choose|k: int| 0 <= k < rules@.len() && #[trigger] rules@[k] == expected[j as int];
                assert(rules@[k].id@ == rule.id@);
                lemma_same_rule_checks(rule, expected[j as int]);
                lemma_keys_in_flight(*queue, rule.id@, record.id);
            }
            let rule_id = rule.id.clone();
            let ghost jobs_before = queue.jobs();
            let ghost cd_before = *cooldowns;
            let ghost hits_before = hits@;
            let ghost rule_g = rule;
            let ghost c = (expected[j as int], *record);
            let (outcome, mut more) = dispatch_match(queue, cooldowns, rule, record, variables, now);
            match outcome {
                MatchOutcome::Queued(_) => {
                    hits.push(rule_id);
                },
                MatchOutcome::QueueFailed(_) => {
                    hits.push(rule_id);
                },
                _ => {},
            }
            proof {
                assert(jobs_before.is_prefix_of(queue.jobs()));
                let st2 = batch_step(st, c, start_running, now);
                let elapsed = match (st.cooldowns)(rule_g.id@) {
                    Some(last) => Some(elapsed_since(now, last)),
                    None => None,
                };
                assert(elapsed == elapsed_of(cd_before, rule_g.id@, now));
                assert(hits@.map_values(|h: String| h@) =~= st2.hits);
                if queue.jobs().len() > jobs_before.len() {
                    assert(queue.jobs().take(start_jobs.len() as int) =~= start_jobs) by {
                        assert(queue.jobs().drop_last() == jobs_before);
                        assert(jobs_before.take(start_jobs.len() as int) == start_jobs);
                    }
                    assert(job_keys(queue.jobs()) =~= st2.keys) by {
                        assert(queue.jobs().drop_last() == jobs_before);
                        assert(job_keys(jobs_before) == st.keys);
                    }
                    let last = queue.jobs().len() - 1;
                    assert forall|q: int| 0 <= q < st2.queued.len() implies {
                        let job = #[trigger] queue.jobs()[start_jobs.len() + q];
                        &&& same_rule(job.rule, st2.queued[q].0)
                        &&& job.record == st2.queued[q].1
                        &&& forall|k: Seq<char>| #[trigger] job.variables.get_spec(k) == lookup_last(
                            variable_pairs(job.record, extractions_of(job.rule)),
                            k,
                        )
                    } by {
                        if q < st.queued.len() {
                            assert(queue.jobs()[start_jobs.len() + q] == jobs_before[start_jobs.len() + q]);
                        } else {
                            assert(start_jobs.len() + q == last);
                        }
                    }
                    assert forall|k: Seq<char>| #[trigger] cooldowns.get_spec(k) == (st2.cooldowns)(k) by {
                        assert(cd_before.get_spec(k) == (st.cooldowns)(k));
                    }
                } else {
                    assert(queue.jobs() == jobs_before);
                    assert forall|k: Seq<char>| #[trigger] cooldowns.get_spec(k) == (st2.cooldowns)(k) by {
                        assert(cd_before.get_spec(k) == (st.cooldowns)(k));
                    }
                }
                assert(batch_reached(*queue, *cooldowns, hits@, start_jobs, st2));
                assert(expected.take(j + 1) =~= expected.take(j as int).push(expected[j as int]));
                assert(expected.take(j + 1).map_values(|r: AutomationRule| (r, *record)) =~= expected.take(j as int).map_values(
                    |r: AutomationRule| (r, *record),
                ).push(c));
                let cands2 = cands.push(c);
                assert(cands_before + expected.take(j + 1).map_values(|r: AutomationRule| (r, *record)) =~= cands2);
                assert(cands2.drop_last() =~= cands);
                cands = cands2;
                st = st2;
            }
            notices.append(&mut more);
            assert(matches@ =~= all_matches.skip(j + 1));
            j += 1;
        }
        proof {
            assert(j == expected.len());
            assert(expected.take(j as int) =~= expected);
            lemma_batch_candidates_step(rules@, visible@, minutes, i as int, minute);
            minutes = minutes.push(minute);
        }
        i += 1;
    }
    proof {
        assert(visible@.take(i as int) =~= visible@);
    }
    RecordsOutcome { last_record_id, notices, hit_rule_ids: hits }
}

// ---------------------------------------------------------------------
// Running a job
// ---------------------------------------------------------------------

/// The message when a job starts.
pub fn job_start_message(summary: &ActionQueueItem) -> (r: String)
    ensures
        r@ == "动作开始："@ + summary.rule_name@ + " / "@ + summary.notification_title@,
{
    let mut m = chars_of("动作开始：");
    extend_str(&mut m, summary.rule_name.as_str());
    extend_str(&mut m, " / ");
    extend_str(&mut m, summary.notification_title.as_str());
    string_of(&m)
}

/// How many of `executions` failed.
pub open spec fn failed_of(executions: Seq<ActionExecution>) -> nat
    decreases executions.len(),
{
    if executions.len() == 0 {
        0
    } else {
        failed_of(executions.drop_last()) + if executions.last().success {
            0nat
        } else {
            1nat
        }
    }
}

proof fn lemma_failed_bound(executions: Seq<ActionExecution>)
    ensures
        failed_of(executions) <= executions.len(),
    decreases executions.len(),
{
    if executions.len() > 0 {
        lemma_failed_bound(executions.drop_last());
    }
}

/// What a finished job reports.
#[derive(Clone, Debug)]
pub struct JobReport {
    pub success_count: usize,
    pub failed_count: usize,
    pub done_message: String,
    /// `action_success` when nothing failed, else `action_error`.
    pub outcome_kind: String,
}

/// The message when a job is done.
pub open spec fn done_message_of(rule_name: Seq<char>, title: Seq<char>, success: nat, failed: nat) -> Seq<char> {
    if failed == 0 {
        "动作完成："@ + rule_name + " / "@ + title + "（成功 "@ + spec_decimal(success) + " 个）"@
    } else {
        "动作完成但有失败："@ + rule_name + " / "@ + title + "（成功 "@ + spec_decimal(success) + " 个，失败 "@
            + spec_decimal(failed) + " 个）"@
    }
}

/// What a finished job reports: how many actions succeeded and failed, the
/// closing message, and the kind of the closing event.
pub fn job_report(summary: &ActionQueueItem, executions: &Vec<ActionExecution>) -> (r: JobReport)
    ensures
        r.failed_count == failed_of(executions@),
        r.success_count == executions@.len() - failed_of(executions@),
        r.done_message@ == done_message_of(summary.rule_name@, summary.notification_title@, r.success_count as nat, r.failed_count as nat),
        r.outcome_kind@ == (if r.failed_count == 0 {
            "action_success"@
        } else {
            "action_error"@
        }),
{
    let mut failed: usize = 0;
    let mut i: usize = 0;
    while i < executions.len()
        invariant
            i <= executions@.len(),
            failed == failed_of(executions@.take(i as int)),
            failed <= i,
        decreases executions.len() - i,
    {
        assert(executions@.take(i + 1).drop_last() =~= executions@.take(i as int));
        if !executions[i].success {
            failed += 1;
        }
        i += 1;
    }
    assert(executions@.take(i as int) =~= executions@);
    let success = executions.len() - failed;
    let mut m: Vec<char>;
    if failed == 0 {
        m = chars_of("动作完成：");
    } else {
        m = chars_of("动作完成但有失败：");
    }
    extend_str(&mut m, summary.rule_name.as_str());
    extend_str(&mut m, " / ");
    extend_str(&mut m, summary.notification_title.as_str());
    extend_str(&mut m, "（成功 ");
    let ds = decimal(success as u64);
    extend_chars(&mut m, &ds);
    if failed == 0 {
        extend_str(&mut m, " 个）");
    } else {
        extend_str(&mut m, " 个，失败 ");
        let df = decimal(failed as u64);
        extend_chars(&mut m, &df);
        extend_str(&mut m, " 个）");
    }
    JobReport {
        success_count: success,
        failed_count: failed,
        done_message: string_of(&m),
        outcome_kind: if failed == 0 {
            owned("action_success")
        } else {
            owned("action_error")
        },
    }
}

// ---------------------------------------------------------------------
// History and log
// ---------------------------------------------------------------------

/// The variables shown to the user: those not named `__…`.
pub open spec fn visible_pairs(ps: Pairs) -> Pairs
    decreases ps.len(),
{
    if ps.len() == 0 {
        seq![]
    } else if is_internal_key(ps.last().0) {
        visible_pairs(ps.drop_last())
    } else {
        visible_pairs(ps.drop_last()).push(ps.last())
    }
}

/// The shown variables as a JSON object.
pub fn visible_variables_json(variables: &StringMap) -> (r: Option<String>)
    ensures
        r matches Some(j) && j@ == spec_json_string_object(visible_pairs(variables.pairs())),
{
    let keys = variables.key_list();
    let ghost ps = variables.pairs();
    let mut out: Vec<(String, String)> = Vec::new();
    let mut i: usize = 0;
    while i < variables.len()
        invariant
            i <= ps.len(),
            ps == variables.pairs(),
            sorted_keys(ps),
            out@.map_values(|e: (String, String)| (e.0@, e.1@)) == visible_pairs(ps.take(i as int)),
            forall|a: int, b: int| 0 <= a < b < out@.len() ==> text_lt(#[trigger] out@[a].0@, #[trigger] out@[b].0@),
            forall|a: int| 0 <= a < out@.len() && i < ps.len() ==> text_lt(#[trigger] out@[a].0@, ps[i as int].0),
        decreases ps.len() - i,
    {
        let (k, v) = variables.entry(i);
        assert(ps.take(i + 1).drop_last() =~= ps.take(i as int));
        assert(ps.take(i + 1).last() == ps[i as int]);
        if !crate::text::starts_with(&chars_of(k.as_str()), &chars_of("__")) {
            proof {
                reveal_strlit("__");
            }
            let ghost before = out@;
            out.push((k.clone(), v.clone()));
            assert(out@.map_values(|e: (String, String)| (e.0@, e.1@)) =~= before.map_values(
                |e: (String, String)| (e.0@, e.1@),
            ).push(ps[i as int]));
        } else {
            proof {
                reveal_strlit("__");
            }
        }
        proof {
            if i + 1 < ps.len() {
                assert forall|a: int| 0 <= a < out@.len() implies text_lt(#[trigger] out@[a].0@, ps[i + 1].0) by {
                    assert(text_lt(ps[i as int].0, ps[i + 1].0));
                    if a < out@.len() - 1 || out@[a].0@ != ps[i as int].0 {
                        if text_lt(out@[a].0@, ps[i as int].0) {
                            lemma_text_lt_transitive(out@[a].0@, ps[i as int].0, ps[i + 1].0);
                        }
                    }
                }
            }
        }
        i += 1;
    }
    assert(ps.take(i as int) =~= ps);
    Some(json_string_object(&out))
}

/// `entry` records `execution`, the `index`-th action of `rule` run for
/// `record`.
pub open spec fn records_execution(
    entry: ActionHistoryEntry,
    rule: AutomationRule,
    record: NotificationRecord,
    execution: ActionExecution,
    index: int,
    queue_id: Option<Seq<char>>,
    variables_json: Option<Seq<char>>,
) -> bool {
    &&& entry.id@.len() == 36
    &&& opt_view(entry.queue_id) == queue_id
    &&& entry.rule_id == rule.id
    &&& entry.rule_name == rule.name
    &&& entry.notification_id == record.id
    &&& entry.notification_title == record.title
    &&& entry.app_identifier == record.app_identifier
    &&& entry.action_index == index as u32
    &&& entry.action_type == execution.action_type
    &&& entry.success == execution.success
    &&& entry.message == execution.message
    &&& entry.output == execution.output
    &&& entry.origin@ == "auto"@
    &&& entry.duration_ms == execution.duration_ms
    &&& entry.attempt_count == execution.attempt_count
    &&& opt_view(entry.variables_json) == variables_json
}

/// The history entries of a job's executions, in order: each with a fresh
/// id and the current time, the shown variables as JSON, and origin
/// `auto`.
pub fn history_entries(
    rule: &AutomationRule,
    record: &NotificationRecord,
    executions: &Vec<ActionExecution>,
    queue_id: Option<&str>,
    variables: &StringMap,
) -> (r: Vec<ActionHistoryEntry>)
    ensures
        r@.len() == executions@.len(),
        forall|i: int|
            0 <= i < r@.len() ==> records_execution(
                #[trigger] r@[i],
                *rule,
                *record,
                executions@[i],
                i,
                match queue_id {
                    Some(q) => Some(q@),
                    None => None,
                },
                Some(spec_json_string_object(visible_pairs(variables.pairs()))),
            ),
{
    let json = visible_variables_json(variables);
    let ghost qv = match queue_id {
        Some(q) => Some(q@),
        None => None,
    };
    let ghost jv = Some(spec_json_string_object(visible_pairs(variables.pairs())));
    let mut out: Vec<ActionHistoryEntry> = Vec::new();
    let mut i: usize = 0;
    while i < executions.len()
        invariant
            i <= executions@.len(),
            out@.len() == i,
            opt_view(json) == jv,
            qv == match queue_id {
                Some(q) => Some(q@),
                None => None::<Seq<char>>,
            },
            forall|j: int| 0 <= j < i ==> records_execution(#[trigger] out@[j], *rule, *record, executions@[j], j, qv, jv),
        decreases executions.len() - i,
    {
        let e = &executions[i];
        out.push(
            ActionHistoryEntry {
                id: new_uuid(),
                timestamp: now_rfc3339(),
                queue_id: match queue_id {
                    Some(q) => Some(owned(q)),
                    None => None,
                },
                rule_id: rule.id.clone(),
                rule_name: rule.name.clone(),
                notification_id: record.id,
                notification_title: record.title.clone(),
                app_identifier: record.app_identifier.clone(),
                action_index: i as u32,
                action_type: e.action_type.clone(),
                success: e.success,
                message: e.message.clone(),
                output: match &e.output {
                    Some(o) => Some(o.clone()),
                    None => None,
                },
                origin: owned("auto"),
                duration_ms: e.duration_ms,
                attempt_count: e.attempt_count,
                variables_json: match &json {
                    Some(j) => Some(j.clone()),
                    None => None,
                },
            },
        );
        i += 1;
    }
    out
}

/// At most this many history entries are kept in memory.
pub const MAX_ACTION_HISTORY_ENTRIES: usize = 500;

/// The last `cap` items of `s`.
pub open spec fn keep_last<T>(s: Seq<T>, cap: nat) -> Seq<T> {
    if s.len() > cap {
        s.skip(s.len() - cap)
    } else {
        s
    }
}

/// Adds entries to the history, dropping the oldest beyond the limit.
pub fn append_history(history: &mut Vec<ActionHistoryEntry>, entries: Vec<ActionHistoryEntry>)
    ensures
        final(history)@ == keep_last(old(history)@ + entries@, MAX_ACTION_HISTORY_ENTRIES as nat),
{
    let mut entries = entries;
    let ghost added = entries@;
    history.append(&mut entries);
    if history.len() > MAX_ACTION_HISTORY_ENTRIES {
        let overflow = history.len() - MAX_ACTION_HISTORY_ENTRIES;
        let kept = history.split_off(overflow);
        *history = kept;
    }
}

/// At most this many log lines are kept.
pub const MAX_LOG_ENTRIES: usize = 200;

/// Adds a log line unless it repeats the last one, dropping the oldest
/// beyond the limit.
pub fn push_log(logs: &mut Vec<String>, log: String)
    ensures
        old(logs)@.len() > 0 && old(logs)@.last()@ == log@ ==> final(logs)@ == old(logs)@,
        !(old(logs)@.len() > 0 && old(logs)@.last()@ == log@) ==> final(logs)@ == keep_last(
            old(logs)@.push(log),
            MAX_LOG_ENTRIES as nat,
        ),
{
    if logs.len() > 0 && crate::text::chars_eq(&chars_of(logs[logs.len() - 1].as_str()), &chars_of(log.as_str())) {
        return;
    }
    logs.push(log);
    if logs.len() > MAX_LOG_ENTRIES {
        let overflow = logs.len() - MAX_LOG_ENTRIES;
        let kept = logs.split_off(overflow);
        *logs = kept;
    }
}

/// No line of the log repeats the one just before it.
pub open spec fn no_repeated_line(logs: Seq<String>) -> bool {
    forall|i: int| 0 < i < logs.len() ==> (#[trigger] logs[i])@ != logs[i - 1]@
}

/// A log that `push_log` keeps stays within its limit and never holds the
/// same line twice in a row: given a log of at most 200 lines without
/// such repeats, the log after adding `log` (as `push_log` leaves it) is
/// so too.
pub proof fn lemma_log_bounded_without_repeats(before: Seq<String>, log: String, after: Seq<String>)
    requires
        before.len() <= MAX_LOG_ENTRIES,
        no_repeated_line(before),
        before.len() > 0 && before.last()@ == log@ ==> after == before,
        !(before.len() > 0 && before.last()@ == log@) ==> after == keep_last(before.push(log), MAX_LOG_ENTRIES as nat),
    ensures
        after.len() <= MAX_LOG_ENTRIES,
        no_repeated_line(after),
{
    if !(before.len() > 0 && before.last()@ == log@) {
        let pushed = before.push(log);
        assert forall|i: int| 0 < i < pushed.len() implies (#[trigger] pushed[i])@ != pushed[i - 1]@ by {
            if i == before.len() {
                assert(pushed[i - 1] == before.last());
            } else {
                assert(pushed[i] == before[i] && pushed[i - 1] == before[i - 1]);
            }
        }
        if pushed.len() > MAX_LOG_ENTRIES {
            let d = pushed.len() - MAX_LOG_ENTRIES;
            assert forall|i: int| 0 < i < after.len() implies (#[trigger] after[i])@ != after[i - 1]@ by {
                assert(after[i] == pushed[i + d] && after[i - 1] == pushed[i - 1 + d]);
            }
        }
    }
}

/// A batch read after the watermark `last` (every id above it) moves the
/// watermark past every notification of the batch: the new watermark
/// (`process_new_records`' `last_record_id`) is above `last` and at least
/// each id handled, so no notification of the batch is read again.
pub proof fn lemma_watermark_passes_batch(records: Seq<NotificationRecord>, last: i64)
    requires
        records.len() > 0,
        forall|i: int| 0 <= i < records.len() ==> #[trigger] records[i].id > last,
    ensures
        max_id_of(records) matches Some(m) && m > last && forall|i: int| 0 <= i < records.len() ==> #[trigger] records[i].id <= m,
    decreases records.len(),
{
    if records.len() > 1 {
        let d = records.drop_last();
        assert forall|i: int| 0 <= i < d.len() implies #[trigger] d[i].id > last by {
            assert(d[i] == records[i]);
        }
        lemma_watermark_passes_batch(d, last);
        let m = max_id_of(d)->Some_0;
        assert forall|i: int| 0 <= i < records.len() implies #[trigger] records[i].id <= max_id_of(records)->Some_0 by {
            if i < d.len() {
                assert(d[i] == records[i]);
            }
        }
    } else {
        assert(records.drop_last().len() == 0);
        assert(records[0] == records.last());
    }
}

/// The watcher's last record id after `events`, from `start`.
pub open spec fn watch_last(start: i64, events: Seq<WatchEvent>) -> i64
    decreases events.len(),
{
    if events.len() == 0 {
        start
    } else {
        watch_next(watch_last(start, events.drop_last()), events.last())
    }
}

/// The records `e` hands on (none unless it is a batch).
pub open spec fn handed_on(e: WatchEvent) -> Seq<NotificationRecord> {
    match e {
        WatchEvent::Batch(records) => records,
        _ => seq![],
    }
}

/// `e` keeps the watcher's place at `last`: a starting point read is not
/// below it, an empty poll does not find the store rebuilt, and a batch
/// holds only records after it (as the store is queried for them).
pub open spec fn keeps_place(last: i64, e: WatchEvent) -> bool {
    match e {
        WatchEvent::Baseline(Some(id)) => id >= last,
        WatchEvent::EmptyPoll(Some(m)) => !store_was_reset(last, m),
        WatchEvent::Batch(records) => forall|i: int| 0 <= i < records.len() ==> #[trigger] records[i].id > last,
        _ => true,
    }
}

/// Every event of `events` keeps the place the watcher had reached.
pub open spec fn never_rewound(start: i64, events: Seq<WatchEvent>) -> bool {
    forall|k: int| 0 <= k < events.len() ==> #[trigger] keeps_place(watch_last(start, events.take(k)), events[k])
}

proof fn lemma_watch_last_step(start: i64, events: Seq<WatchEvent>, k: int)
    requires
        0 <= k < events.len(),
    ensures
        watch_last(start, events.take(k + 1)) == watch_next(watch_last(start, events.take(k)), events[k]),
{
    assert(events.take(k + 1).drop_last() =~= events.take(k));
    assert(events.take(k + 1).last() == events[k]);
}

proof fn lemma_keeps_place_step(last: i64, e: WatchEvent)
    requires
        keeps_place(last, e),
    ensures
        watch_next(last, e) >= last,
        forall|i: int| 0 <= i < handed_on(e).len() ==> last < #[trigger] handed_on(e)[i].id <= watch_next(last, e),
{
    match e {
        WatchEvent::Batch(records) => {
            if records.len() > 0 {
                lemma_watermark_passes_batch(records, last);
            }
        },
        _ => {},
    }
}

proof fn lemma_watch_last_grows(start: i64, events: Seq<WatchEvent>, a: int, b: int)
    requires
        never_rewound(start, events),
        0 <= a <= b <= events.len(),
    ensures
        watch_last(start, events.take(a)) <= watch_last(start, events.take(b)),
    decreases b - a,
{
    if a < b {
        lemma_watch_last_grows(start, events, a, b - 1);
        lemma_watch_last_step(start, events, b - 1);
        assert(keeps_place(watch_last(start, events.take(b - 1)), events[b - 1]));
        lemma_keeps_place_step(watch_last(start, events.take(b - 1)), events[b - 1]);
    }
}

/// Until the store is found rebuilt or the starting point is read again
/// below the last record id, and while each poll hands on only records
/// after the last id, the watcher hands no record on twice: every record
/// handed on comes after the starting id, and every record of a later
/// batch after every record of an earlier one.
pub proof fn lemma_watcher_never_replays(start: i64, events: Seq<WatchEvent>)
    requires
        never_rewound(start, events),
    ensures
        forall|k: int, i: int|
            0 <= k < events.len() && 0 <= i < handed_on(events[k]).len() ==> #[trigger] handed_on(events[k])[i].id > start,
        forall|k1: int, k2: int, i: int, j: int|
            0 <= k1 < k2 < events.len() && 0 <= i < handed_on(events[k1]).len() && 0 <= j < handed_on(events[k2]).len()
                ==> #[trigger] handed_on(events[k1])[i].id < #[trigger] handed_on(events[k2])[j].id,
{
    assert(events.take(0) =~= Seq::<WatchEvent>::empty());
    assert forall|k: int, i: int|
        0 <= k < events.len() && 0 <= i < handed_on(events[k]).len() implies #[trigger] handed_on(events[k])[i].id > start by {
        lemma_watch_last_grows(start, events, 0, k);
        assert(keeps_place(watch_last(start, events.take(k)), events[k]));
        lemma_keeps_place_step(watch_last(start, events.take(k)), events[k]);
    }
    assert forall|k1: int, k2: int, i: int, j: int|
        0 <= k1 < k2 < events.len() && 0 <= i < handed_on(events[k1]).len() && 0 <= j < handed_on(events[k2]).len()
            implies #[trigger] handed_on(events[k1])[i].id < #[trigger] handed_on(events[k2])[j].id by {
        assert(keeps_place(watch_last(start, events.take(k1)), events[k1]));
        lemma_keeps_place_step(watch_last(start, events.take(k1)), events[k1]);
        lemma_watch_last_step(start, events, k1);
        lemma_watch_last_grows(start, events, k1 + 1, k2);
        assert(keeps_place(watch_last(start, events.take(k2)), events[k2]));
        lemma_keeps_place_step(watch_last(start, events.take(k2)), events[k2]);
    }
}

} // verus!
